//! Wire-level data model: the request, the latency telemetry and the
//! response record that make up one generation stream.

use vstd::prelude::*;

verus! {

/// A generation request: the prompt whose completion is streamed back.
#[derive(Debug, Clone)]
pub struct TextGenRequest {
    pub prompt: String,
}

impl TextGenRequest {
    pub fn new(prompt: String) -> (r: Self)
        ensures
            r.prompt@ == prompt@,
    {
        Self { prompt }
    }
}

/// Elapsed-time telemetry carried by every response record, in microseconds.
///
/// `load` is the time the model took to become ready; it is fixed once and
/// copied unchanged into every later record. `generation` is the time since
/// the load phase ended, refreshed on each record that follows.
#[derive(Debug, Clone, Copy, PartialEq, Eq, Structural)]
pub struct TextGenLatency {
    pub load: u64,
    pub generation: u64,
}

impl TextGenLatency {
    pub fn new(load: u64, generation: u64) -> (r: Self)
        ensures
            r.load == load,
            r.generation == generation,
    {
        Self { load, generation }
    }
}

/// Mathematical model of a [`TextGenResponse`]: the text as a character
/// sequence, the rest of the fields as plain values.
#[verifier::ext_equal]
pub ghost struct TextGenResponseV {
    pub text: Seq<char>,
    pub tokens: usize,
    pub latency: TextGenLatency,
    pub done: bool,
}

/// One record of the response stream: a text fragment, the cumulative token
/// count so far, a snapshot of the latency telemetry, and the terminal flag.
/// Within one stream exactly one record has `done == true`, and it is the
/// last one.
#[derive(Debug, Clone)]
pub struct TextGenResponse {
    pub text: String,
    pub tokens: usize,
    pub latency: TextGenLatency,
    pub done: bool,
}

impl View for TextGenResponse {
    type V = TextGenResponseV;

    open spec fn view(&self) -> TextGenResponseV {
        TextGenResponseV {
            text: self.text@,
            tokens: self.tokens,
            latency: self.latency,
            done: self.done,
        }
    }
}

impl TextGenResponse {
    pub fn new(text: String, tokens: usize, latency: TextGenLatency, done: bool) -> (r: Self)
        ensures
            r@ == (TextGenResponseV { text: text@, tokens, latency, done }),
    {
        Self { text, tokens, latency, done }
    }
}

} // verus!
