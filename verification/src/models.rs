//! The generation side: the lifecycle events a model emits, and the
//! token-by-token state of one generation run.
//!
//! The model inference itself (tokenization, forward pass, sampling) is an
//! external collaborator: it is consumed as an opaque long-running operation
//! whose per-step results — the sampled token and the decoded fragment — are
//! handed to [`Generation`], which makes every decision of the loop: how much
//! context to feed back, when the run is over, and which event to emit.

use vstd::prelude::*;

verus! {

/// The step cap of one generation run: a run never produces more than this
/// many tokens.
pub const SAMPLE_LEN: usize = 1000;

/// Mathematical model of a [`TextGenEvent`].
#[verifier::ext_equal]
pub ghost enum TextGenEventV {
    Loaded,
    Text { text: Seq<char>, tokens: usize },
    Done,
}

/// A lifecycle event of one generation run. `Loaded` is emitted exactly once,
/// before any text; `Text` carries a fragment together with the *cumulative*
/// token count; `Done` is terminal.
pub enum TextGenEvent {
    Loaded,
    Text { text: String, tokens: usize },
    Done,
}

impl View for TextGenEvent {
    type V = TextGenEventV;

    open spec fn view(&self) -> TextGenEventV {
        match self {
            TextGenEvent::Loaded => TextGenEventV::Loaded,
            TextGenEvent::Text { text, tokens } => TextGenEventV::Text {
                text: text@,
                tokens: *tokens,
            },
            TextGenEvent::Done => TextGenEventV::Done,
        }
    }
}

/// The Mistral model front: the externally supplied inference routine runs
/// behind it, outside this library.
pub struct Mistral {}

impl Mistral {
    pub fn new() -> (r: Self) {
        Mistral {}
    }
}

/// Mathematical model of a [`Generation`].
#[verifier::ext_equal]
pub ghost struct GenerationV {
    pub tokens: Seq<u32>,
    pub n_generated: usize,
    pub eos: u32,
    pub halted: bool,
}

/// The state of one generation run: the token history (prompt tokens followed
/// by every sampled token), the cumulative count of generated tokens, the
/// end-of-sequence token, and whether the run has stopped.
pub struct Generation {
    tokens: Vec<u32>,
    n_generated: usize,
    eos: u32,
    halted: bool,
}

impl View for Generation {
    type V = GenerationV;

    closed spec fn view(&self) -> GenerationV {
        GenerationV {
            tokens: self.tokens@,
            n_generated: self.n_generated,
            eos: self.eos,
            halted: self.halted,
        }
    }
}

impl Generation {
    /// Every sampled token is recorded, so the count of generated tokens
    /// never exceeds the token history.
    pub open spec fn wf(self) -> bool {
        self@.n_generated <= self@.tokens.len()
    }

    pub fn new(prompt_tokens: Vec<u32>, eos: u32) -> (r: Self)
        ensures
            r@ == (GenerationV {
                tokens: prompt_tokens@,
                n_generated: 0,
                eos,
                halted: false,
            }),
            r.wf(),
    {
        Generation { tokens: prompt_tokens, n_generated: 0, eos, halted: false }
    }

    /// Whether the loop may take another step: it has neither stopped nor
    /// reached the step cap.
    pub fn can_step(&self) -> (r: bool)
        ensures
            r == (!self@.halted && self@.n_generated < SAMPLE_LEN),
    {
        !self.halted && self.n_generated < SAMPLE_LEN
    }

    /// Where the next forward pass's context begins in the token history:
    /// the whole prompt on the first step, only the latest token afterwards.
    pub fn context_start(&self) -> (r: usize)
        requires
            self.wf(),
        ensures
            r == (if self@.n_generated > 0 {
                self@.tokens.len() - 1
            } else {
                0int
            }),
    {
        if self.n_generated > 0 {
            self.tokens.len() - 1
        } else {
            0
        }
    }

    /// The token history: the prompt followed by every sampled token, in order.
    pub fn tokens(&self) -> (r: &Vec<u32>)
        ensures
            r@ == self@.tokens,
    {
        &self.tokens
    }

    /// The cumulative count of generated tokens.
    pub fn generated(&self) -> (r: usize)
        ensures
            r == self@.n_generated,
    {
        self.n_generated
    }

    /// Record one sampled token. Returns `true` when the run must stop here:
    /// the token is the end-of-sequence marker, so no fragment is emitted
    /// for it and no further step is taken.
    pub fn accept_token(&mut self, next: u32) -> (stop: bool)
        requires
            old(self).wf(),
            !old(self)@.halted,
            old(self)@.n_generated < SAMPLE_LEN,
        ensures
            final(self).wf(),
            final(self)@.tokens == old(self)@.tokens.push(next),
            final(self)@.n_generated == old(self)@.n_generated + 1,
            final(self)@.eos == old(self)@.eos,
            stop == (next == old(self)@.eos),
            final(self)@.halted == stop,
    {
        self.tokens.push(next);
        self.n_generated = self.n_generated + 1;
        if next == self.eos {
            self.halted = true;
            true
        } else {
            false
        }
    }

    /// The event for a decoded fragment: it carries the fragment together
    /// with the cumulative token count, which only ever grows, so the counts
    /// of successive events are non-decreasing.
    pub fn fragment_event(&self, text: String) -> (ev: TextGenEvent)
        ensures
            ev@ == (TextGenEventV::Text { text: text@, tokens: self@.n_generated }),
    {
        TextGenEvent::Text { text, tokens: self.n_generated }
    }

    /// Stop the run: called when the event sink reports failure (the consumer
    /// is gone), so that no further step is taken for an abandoned request.
    pub fn halt(&mut self)
        ensures
            final(self)@ == (GenerationV { halted: true, ..old(self)@ }),
    {
        self.halted = true;
    }
}

} // verus!
