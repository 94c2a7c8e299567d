use hal::common::{TextGenLatency, TextGenRequest, TextGenResponse};
use hal::models::{Generation, Mistral, TextGenEvent, SAMPLE_LEN};

#[test]
fn record_constructors_keep_their_fields() {
    let _model = Mistral::new();
    let req = TextGenRequest::new(String::from("a prompt"));
    assert_eq!(req.prompt, "a prompt");
    let latency = TextGenLatency::new(3, 4);
    assert_eq!(latency.load, 3);
    assert_eq!(latency.generation, 4);
    let record = TextGenResponse::new(String::from("t"), 7, latency, true);
    assert_eq!(record.text, "t");
    assert_eq!(record.tokens, 7);
    assert_eq!(record.latency.load, 3);
    assert!(record.done);
}

#[test]
fn first_step_feeds_the_whole_prompt_then_one_token() {
    let mut generation = Generation::new(vec![5, 6], 99);
    assert!(generation.can_step());
    assert_eq!(generation.context_start(), 0);
    assert_eq!(generation.tokens().len(), 2);
    let stop = generation.accept_token(7);
    assert!(!stop);
    assert_eq!(generation.generated(), 1);
    assert_eq!(generation.tokens().as_slice(), &[5, 6, 7]);
    assert_eq!(generation.context_start(), 2);
}

#[test]
fn end_of_sequence_token_stops_the_run() {
    let mut generation = Generation::new(vec![1], 99);
    assert!(!generation.accept_token(2));
    assert!(generation.can_step());
    assert!(generation.accept_token(99));
    assert!(!generation.can_step());
    assert_eq!(generation.generated(), 2);
}

#[test]
fn fragment_events_carry_the_cumulative_count() {
    let mut generation = Generation::new(vec![], 99);
    generation.accept_token(1);
    let first = generation.fragment_event(String::from("he"));
    generation.accept_token(2);
    let second = generation.fragment_event(String::from("llo"));
    match (first, second) {
        (
            TextGenEvent::Text { text: t1, tokens: n1 },
            TextGenEvent::Text { text: t2, tokens: n2 },
        ) => {
            assert_eq!((t1.as_str(), n1), ("he", 1));
            assert_eq!((t2.as_str(), n2), ("llo", 2));
            assert!(n1 <= n2);
        },
        _ => panic!("fragment events must be Text"),
    }
}

#[test]
fn step_cap_bounds_a_run() {
    let mut generation = Generation::new(vec![], 99);
    let mut steps: usize = 0;
    while generation.can_step() {
        generation.accept_token(1);
        steps += 1;
    }
    assert_eq!(steps, SAMPLE_LEN);
    assert_eq!(generation.generated(), SAMPLE_LEN);
}

#[test]
fn halt_stops_the_run_at_once() {
    let mut generation = Generation::new(vec![1, 2], 99);
    generation.accept_token(3);
    assert!(generation.can_step());
    generation.halt();
    assert!(!generation.can_step());
}
