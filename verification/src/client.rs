//! The client-side fold: records are consumed in arrival order, the load
//! latency is reported once on the first record, each fragment is echoed
//! as it arrives, and the latest count and generation latency feed a final
//! throughput summary that never divides by zero.

use vstd::prelude::*;

use crate::common::TextGenResponse;

verus! {

/// Mathematical model of a [`ClientProgress`].
#[verifier::ext_equal]
pub ghost struct ClientProgressV {
    pub started: bool,
    pub load: u64,
    pub n_tokens: usize,
    pub generation: u64,
}

/// What a record observation asks the caller to show: the load latency, on
/// the first record only, and the fragment to echo.
pub open spec fn shown_load(pre: ClientProgressV, r: crate::common::TextGenResponseV) -> Option<
    u64,
> {
    if pre.started {
        None
    } else {
        Some(r.latency.load)
    }
}

/// The fold of one record into the client's running state: the load figure
/// is retained from the first record and kept; the token count and the
/// generation latency always track the latest record.
pub open spec fn observe_spec(
    pre: ClientProgressV,
    r: crate::common::TextGenResponseV,
) -> ClientProgressV {
    ClientProgressV {
        started: true,
        load: if pre.started {
            pre.load
        } else {
            r.latency.load
        },
        n_tokens: r.tokens,
        generation: r.latency.generation,
    }
}

/// The client's running state over one response stream.
pub struct ClientProgress {
    started: bool,
    load: u64,
    n_tokens: usize,
    generation: u64,
}

impl View for ClientProgress {
    type V = ClientProgressV;

    closed spec fn view(&self) -> ClientProgressV {
        ClientProgressV {
            started: self.started,
            load: self.load,
            n_tokens: self.n_tokens,
            generation: self.generation,
        }
    }
}

impl ClientProgress {
    pub fn new() -> (r: Self)
        ensures
            r@ == (ClientProgressV { started: false, load: 0, n_tokens: 0, generation: 0 }),
    {
        ClientProgress { started: false, load: 0, n_tokens: 0, generation: 0 }
    }

    /// Fold one record in. Returns the load latency to display if this is
    /// the first record of the stream, and `None` afterwards; the caller
    /// echoes the record's fragment either way.
    pub fn observe(&mut self, r: &TextGenResponse) -> (show: Option<u64>)
        ensures
            final(self)@ == observe_spec(old(self)@, r@),
            show == shown_load(old(self)@, r@),
    {
        let show: Option<u64> = if self.started {
            None
        } else {
            Some(r.latency.load)
        };
        if !self.started {
            self.load = r.latency.load;
        }
        self.started = true;
        self.n_tokens = r.tokens;
        self.generation = r.latency.generation;
        show
    }

    /// The latest cumulative token count seen.
    pub fn tokens(&self) -> (r: usize)
        ensures
            r == self@.n_tokens,
    {
        self.n_tokens
    }

    /// The latest generation latency seen, in microseconds.
    pub fn generation_latency(&self) -> (r: u64)
        ensures
            r == self@.generation,
    {
        self.generation
    }

    /// The load latency reported by the stream's first record, in
    /// microseconds.
    pub fn load_latency(&self) -> (r: u64)
        ensures
            r == self@.load,
    {
        self.load
    }

    /// The derived throughput, in tokens per second. A zero generation
    /// latency makes the rate undefined, reported as `None` rather than by
    /// a failing division.
    pub fn throughput(&self) -> (r: Option<u128>)
        ensures
            r is None <==> self@.generation == 0,
            r matches Some(v) ==> v == self@.n_tokens * 1000000 / self@.generation as int,
    {
        if self.generation == 0 {
            None
        } else {
            Some((self.n_tokens as u128) * 1000000 / (self.generation as u128))
        }
    }
}

} // verus!
