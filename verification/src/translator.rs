//! The latency tracker: a stateful adapter that turns each lifecycle event
//! of one generation run into an immutable, timestamped response record.
//!
//! It owns a phase-start timestamp and the latest cumulative token count,
//! both mutated only from the execution context that drives the run; every
//! emitted record carries a fresh copy of the telemetry, so records already
//! sent stay frozen while the tracker's state advances. Timestamps reach it
//! as plain microsecond readings taken by the caller.

use vstd::prelude::*;

use crate::common::{TextGenLatency, TextGenResponse, TextGenResponseV};
use crate::models::{TextGenEvent, TextGenEventV};

verus! {

/// Mathematical model of a [`Translator`].
#[verifier::ext_equal]
pub ghost struct TranslatorV {
    pub phase_start: u64,
    pub latency: TextGenLatency,
    pub n_tokens: usize,
}

/// Microseconds elapsed from `start` to `now`; meaningful when the clock
/// reading `now` is not older than `start`.
pub open spec fn elapsed(start: u64, now: u64) -> u64
    recommends
        start <= now,
{
    (now - start) as u64
}

/// The cumulative token count an event carries: the count of a `Text`
/// event, zero for the other shapes.
pub open spec fn ev_tokens(ev: TextGenEventV) -> usize {
    match ev {
        TextGenEventV::Text { tokens, .. } => tokens,
        _ => 0,
    }
}

/// The translator state after one event, per the transition table:
/// `Loaded` fixes the load latency and restarts the phase clock; `Text`
/// refreshes the generation latency and the token count; `Done` refreshes
/// the generation latency only.
pub open spec fn step_state(pre: TranslatorV, ev: TextGenEventV, now: u64) -> TranslatorV {
    match ev {
        TextGenEventV::Loaded => TranslatorV {
            phase_start: now,
            latency: TextGenLatency {
                load: elapsed(pre.phase_start, now),
                generation: pre.latency.generation,
            },
            n_tokens: pre.n_tokens,
        },
        TextGenEventV::Text { text, tokens } => TranslatorV {
            phase_start: pre.phase_start,
            latency: TextGenLatency {
                load: pre.latency.load,
                generation: elapsed(pre.phase_start, now),
            },
            n_tokens: tokens,
        },
        TextGenEventV::Done => TranslatorV {
            phase_start: pre.phase_start,
            latency: TextGenLatency {
                load: pre.latency.load,
                generation: elapsed(pre.phase_start, now),
            },
            n_tokens: pre.n_tokens,
        },
    }
}

/// The record emitted for one event: an empty fragment with count zero for
/// `Loaded`, the fragment and its cumulative count for `Text`, an empty
/// fragment with the last known count and the terminal flag for `Done`.
/// Each record snapshots the latency of the state it leaves behind.
pub open spec fn step_record(pre: TranslatorV, ev: TextGenEventV, now: u64) -> TextGenResponseV {
    match ev {
        TextGenEventV::Loaded => TextGenResponseV {
            text: Seq::empty(),
            tokens: 0,
            latency: step_state(pre, ev, now).latency,
            done: false,
        },
        TextGenEventV::Text { text, tokens } => TextGenResponseV {
            text: text,
            tokens: tokens,
            latency: step_state(pre, ev, now).latency,
            done: false,
        },
        TextGenEventV::Done => TextGenResponseV {
            text: Seq::empty(),
            tokens: pre.n_tokens,
            latency: step_state(pre, ev, now).latency,
            done: true,
        },
    }
}

/// Per-request latency tracker and event translator.
pub struct Translator {
    phase_start: u64,
    latency: TextGenLatency,
    n_tokens: usize,
}

impl View for Translator {
    type V = TranslatorV;

    closed spec fn view(&self) -> TranslatorV {
        TranslatorV {
            phase_start: self.phase_start,
            latency: self.latency,
            n_tokens: self.n_tokens,
        }
    }
}

impl Translator {
    /// A fresh tracker whose load phase begins at clock reading `start`.
    pub fn new(start: u64) -> (r: Self)
        ensures
            r@ == (TranslatorV {
                phase_start: start,
                latency: TextGenLatency { load: 0, generation: 0 },
                n_tokens: 0,
            }),
    {
        Translator {
            phase_start: start,
            latency: TextGenLatency::new(0, 0),
            n_tokens: 0,
        }
    }

    /// Translate one event observed at clock reading `now` into the record
    /// to send, advancing the tracker per the transition table.
    pub fn handle(&mut self, event: TextGenEvent, now: u64) -> (r: TextGenResponse)
        requires
            old(self)@.phase_start <= now,
        ensures
            final(self)@ == step_state(old(self)@, event@, now),
            r@ == step_record(old(self)@, event@, now),
    {
        match event {
            TextGenEvent::Loaded => {
                self.latency.load = now - self.phase_start;
                self.phase_start = now;
                TextGenResponse::new(String::new(), 0, self.latency, false)
            },
            TextGenEvent::Text { text, tokens } => {
                self.latency.generation = now - self.phase_start;
                self.n_tokens = tokens;
                TextGenResponse::new(text, tokens, self.latency, false)
            },
            TextGenEvent::Done => {
                self.latency.generation = now - self.phase_start;
                TextGenResponse::new(String::new(), self.n_tokens, self.latency, true)
            },
        }
    }
}

/// The record sequence a tracker in state `pre` emits for the events `evs`
/// observed at clock readings `times`, in order.
pub open spec fn run_events(
    pre: TranslatorV,
    evs: Seq<TextGenEventV>,
    times: Seq<u64>,
) -> Seq<TextGenResponseV>
    recommends
        times.len() == evs.len(),
    decreases evs.len(),
{
    if evs.len() == 0 {
        Seq::empty()
    } else {
        seq![step_record(pre, evs[0], times[0])] + run_events(
            step_state(pre, evs[0], times[0]),
            evs.skip(1),
            times.skip(1),
        )
    }
}

/// A well-formed event sequence, as the generation routine owes it: `Loaded`
/// exactly once and first, then zero or more `Text` events whose cumulative
/// counts are non-decreasing, then `Done` exactly once and last.
pub open spec fn wf_events(evs: Seq<TextGenEventV>) -> bool {
    &&& evs.len() >= 2
    &&& evs[0] is Loaded
    &&& evs.last() is Done
    &&& forall|i: int| 1 <= i < evs.len() - 1 ==> evs[i] is Text
    &&& forall|i: int, j: int|
        1 <= i <= j < evs.len() - 1 ==> ev_tokens(evs[i]) <= ev_tokens(evs[j])
}

/// The tracker emits exactly one record per event.
pub proof fn lemma_run_len(pre: TranslatorV, evs: Seq<TextGenEventV>, times: Seq<u64>)
    ensures
        run_events(pre, evs, times).len() == evs.len(),
    decreases evs.len(),
{
    if evs.len() > 0 {
        lemma_run_len(step_state(pre, evs[0], times[0]), evs.skip(1), times.skip(1));
    }
}

/// Exactly one record of a completed stream is terminal, and it is the last:
/// for any event sequence that ends in its only `Done`, the emitted records
/// end in their only `done == true` record.
pub proof fn lemma_single_terminal(pre: TranslatorV, evs: Seq<TextGenEventV>, times: Seq<u64>)
    requires
        times.len() == evs.len(),
        evs.len() >= 1,
        evs.last() is Done,
        forall|i: int| 0 <= i < evs.len() - 1 ==> !(evs[i] is Done),
    ensures
        run_events(pre, evs, times).len() == evs.len(),
        run_events(pre, evs, times).last().done,
        forall|i: int|
            0 <= i < evs.len() - 1 ==> !run_events(pre, evs, times)[i].done,
    decreases evs.len(),
{
    let recs = run_events(pre, evs, times);
    let post = step_state(pre, evs[0], times[0]);
    let tail = run_events(post, evs.skip(1), times.skip(1));
    lemma_run_len(pre, evs, times);
    lemma_run_len(post, evs.skip(1), times.skip(1));
    assert(recs =~= seq![step_record(pre, evs[0], times[0])] + tail);
    if evs.len() == 1 {
        assert(evs[0] is Done);
        assert(recs.last() == step_record(pre, evs[0], times[0]));
    } else {
        lemma_single_terminal(post, evs.skip(1), times.skip(1));
        assert(evs.skip(1).last() is Done);
        assert(recs.last() == tail.last());
        assert forall|i: int| 0 <= i < evs.len() - 1 implies !recs[i].done by {
            if i >= 1 {
                assert(recs[i] == tail[i - 1]);
                assert(!(evs.skip(1)[i - 1] is Done));
            }
        }
    }
}

/// The load latency is set once: a tracker that sees no further `Loaded`
/// event copies its load figure unchanged into every record it emits.
pub proof fn lemma_load_fixed(pre: TranslatorV, evs: Seq<TextGenEventV>, times: Seq<u64>)
    requires
        times.len() == evs.len(),
        forall|i: int| 0 <= i < evs.len() ==> !(evs[i] is Loaded),
    ensures
        run_events(pre, evs, times).len() == evs.len(),
        forall|i: int|
            0 <= i < evs.len() ==> run_events(pre, evs, times)[i].latency.load
                == pre.latency.load,
    decreases evs.len(),
{
    lemma_run_len(pre, evs, times);
    if evs.len() > 0 {
        let post = step_state(pre, evs[0], times[0]);
        lemma_load_fixed(post, evs.skip(1), times.skip(1));
        let tail = run_events(post, evs.skip(1), times.skip(1));
        let recs = run_events(pre, evs, times);
        assert(recs =~= seq![step_record(pre, evs[0], times[0])] + tail);
        assert(post.latency.load == pre.latency.load);
        assert forall|i: int|
            0 <= i < evs.len() implies recs[i].latency.load == pre.latency.load by {
            if i >= 1 {
                assert(recs[i] == tail[i - 1]);
            }
        }
    }
}

/// The first record of a well-formed stream is not terminal, carries count
/// zero, and fixes the load latency: every record of the stream carries the
/// very load figure the first one introduced.
pub proof fn lemma_first_record(pre: TranslatorV, evs: Seq<TextGenEventV>, times: Seq<u64>)
    requires
        wf_events(evs),
        times.len() == evs.len(),
    ensures
        run_events(pre, evs, times).len() == evs.len(),
        !run_events(pre, evs, times)[0].done,
        run_events(pre, evs, times)[0].tokens == 0,
        run_events(pre, evs, times)[0].latency.load == elapsed(pre.phase_start, times[0]),
        forall|i: int|
            0 <= i < evs.len() ==> #[trigger] run_events(pre, evs, times)[i].latency.load
                == run_events(pre, evs, times)[0].latency.load,
    decreases evs.len(),
{
    let post = step_state(pre, evs[0], times[0]);
    let recs = run_events(pre, evs, times);
    let tail = run_events(post, evs.skip(1), times.skip(1));
    lemma_run_len(pre, evs, times);
    assert(recs =~= seq![step_record(pre, evs[0], times[0])] + tail);
    assert forall|i: int| 0 <= i < evs.skip(1).len() implies !(evs.skip(1)[i] is Loaded) by {
        assert(evs.skip(1)[i] == evs[i + 1]);
    }
    lemma_load_fixed(post, evs.skip(1), times.skip(1));
    assert forall|i: int|
        0 <= i < evs.len() implies #[trigger] recs[i].latency.load == recs[0].latency.load by {
        if i >= 1 {
            assert(recs[i] == tail[i - 1]);
        }
    }
}

/// Helper for [`lemma_tokens_monotone`]: over the `Text* Done` suffix of a
/// stream, with counts non-decreasing and at least the last count seen,
/// the emitted records' counts are non-decreasing and at least that count.
proof fn lemma_tokens_suffix(pre: TranslatorV, evs: Seq<TextGenEventV>, times: Seq<u64>)
    requires
        times.len() == evs.len(),
        evs.len() >= 1,
        evs.last() is Done,
        forall|i: int| 0 <= i < evs.len() - 1 ==> evs[i] is Text,
        forall|i: int, j: int|
            0 <= i <= j < evs.len() - 1 ==> ev_tokens(evs[i]) <= ev_tokens(evs[j]),
        forall|i: int| 0 <= i < evs.len() - 1 ==> pre.n_tokens <= ev_tokens(evs[i]),
    ensures
        run_events(pre, evs, times).len() == evs.len(),
        forall|i: int|
            0 <= i < evs.len() ==> pre.n_tokens <= #[trigger] run_events(pre, evs, times)[i].tokens,
        forall|i: int|
            0 <= i < evs.len() - 1 ==> #[trigger] run_events(pre, evs, times)[i].tokens
                <= run_events(pre, evs, times)[i + 1].tokens,
    decreases evs.len(),
{
    let recs = run_events(pre, evs, times);
    let post = step_state(pre, evs[0], times[0]);
    let tail = run_events(post, evs.skip(1), times.skip(1));
    lemma_run_len(pre, evs, times);
    lemma_run_len(post, evs.skip(1), times.skip(1));
    assert(recs =~= seq![step_record(pre, evs[0], times[0])] + tail);
    if evs.len() == 1 {
        assert(recs[0].tokens == pre.n_tokens);
    } else {
        assert(evs[0] is Text);
        assert forall|i: int|
            0 <= i < evs.skip(1).len() - 1 implies post.n_tokens <= ev_tokens(
            evs.skip(1)[i],
        ) by {
            assert(evs.skip(1)[i] == evs[i + 1]);
            assert(ev_tokens(evs[0]) <= ev_tokens(evs[i + 1]));
        }
        lemma_tokens_suffix(post, evs.skip(1), times.skip(1));
        assert(recs[0].tokens == post.n_tokens);
        assert(pre.n_tokens <= post.n_tokens);
        assert forall|i: int| 0 <= i < evs.len() implies pre.n_tokens <= #[trigger] recs[i].tokens by {
            if i >= 1 {
                assert(recs[i] == tail[i - 1]);
            }
        }
        assert forall|i: int|
            0 <= i < evs.len() - 1 implies #[trigger] recs[i].tokens <= recs[i + 1].tokens by {
            if i == 0 {
                assert(recs[1] == tail[0]);
            } else {
                assert(recs[i] == tail[i - 1]);
                assert(recs[i + 1] == tail[i]);
            }
        }
    }
}

/// The cumulative token count is non-decreasing across the records of a
/// well-formed stream observed by a fresh tracker.
pub proof fn lemma_tokens_monotone(pre: TranslatorV, evs: Seq<TextGenEventV>, times: Seq<u64>)
    requires
        wf_events(evs),
        times.len() == evs.len(),
        pre.n_tokens == 0,
    ensures
        run_events(pre, evs, times).len() == evs.len(),
        forall|i: int|
            0 <= i < evs.len() - 1 ==> #[trigger] run_events(pre, evs, times)[i].tokens
                <= run_events(pre, evs, times)[i + 1].tokens,
{
    let recs = run_events(pre, evs, times);
    let post = step_state(pre, evs[0], times[0]);
    let tail = run_events(post, evs.skip(1), times.skip(1));
    lemma_run_len(pre, evs, times);
    assert(recs =~= seq![step_record(pre, evs[0], times[0])] + tail);
    assert(evs.skip(1).last() is Done);
    assert forall|i: int| 0 <= i < evs.skip(1).len() - 1 implies evs.skip(1)[i] is Text by {
        assert(evs.skip(1)[i] == evs[i + 1]);
    }
    assert forall|i: int, j: int|
        0 <= i <= j < evs.skip(1).len() - 1 implies ev_tokens(evs.skip(1)[i]) <= ev_tokens(
        evs.skip(1)[j],
    ) by {
        assert(evs.skip(1)[i] == evs[i + 1]);
        assert(evs.skip(1)[j] == evs[j + 1]);
    }
    lemma_tokens_suffix(post, evs.skip(1), times.skip(1));
    assert(recs[0].tokens == 0);
    assert forall|i: int|
        0 <= i < evs.len() - 1 implies #[trigger] recs[i].tokens <= recs[i + 1].tokens by {
        if i == 0 {
            assert(recs[1] == tail[0]);
        } else {
            assert(recs[i] == tail[i - 1]);
            assert(recs[i + 1] == tail[i]);
        }
    }
}

/// A zero-length generation — `Loaded` at once followed by `Done` — yields a
/// stream of exactly two records, both with count zero and empty text, the
/// first one open and the second one terminal.
pub proof fn lemma_zero_length(pre: TranslatorV, evs: Seq<TextGenEventV>, times: Seq<u64>)
    requires
        pre.n_tokens == 0,
        times.len() == 2,
        evs =~= seq![TextGenEventV::Loaded, TextGenEventV::Done],
    ensures
        run_events(pre, evs, times).len() == 2,
        !run_events(pre, evs, times)[0].done,
        run_events(pre, evs, times)[1].done,
        run_events(pre, evs, times)[0].tokens == 0,
        run_events(pre, evs, times)[1].tokens == 0,
        run_events(pre, evs, times)[0].text == Seq::<char>::empty(),
        run_events(pre, evs, times)[1].text == Seq::<char>::empty(),
{
    let post = step_state(pre, evs[0], times[0]);
    let evs1 = evs.skip(1);
    let times1 = times.skip(1);
    assert(evs1.len() == 1);
    assert(evs1[0] is Done);
    let post2 = step_state(post, evs1[0], times1[0]);
    assert(evs1.skip(1).len() == 0);
    assert(run_events(post2, evs1.skip(1), times1.skip(1)) =~= Seq::<TextGenResponseV>::empty());
    assert(run_events(post, evs1, times1) =~= seq![step_record(post, evs1[0], times1[0])]);
    assert(run_events(pre, evs, times) =~= seq![step_record(pre, evs[0], times[0])] + run_events(
        post,
        evs1,
        times1,
    ));
    assert(post.n_tokens == 0);
}

} // verus!
