use hal::bridge::emit_event;
use hal::common::TextGenResponse;
use hal::models::TextGenEvent;
use hal::translator::Translator;

#[test]
fn records_cross_the_bridge_in_order() {
    let (tx, mut rx) = tokio::sync::mpsc::channel::<TextGenResponse>(100);
    let mut tr = Translator::new(1000);
    assert!(emit_event(&mut tr, &tx, TextGenEvent::Loaded, 1500).is_ok());
    assert!(emit_event(
        &mut tr,
        &tx,
        TextGenEvent::Text { text: String::from("ab"), tokens: 1 },
        1600,
    )
    .is_ok());
    assert!(emit_event(&mut tr, &tx, TextGenEvent::Done, 1700).is_ok());
    drop(tx);
    let first = rx.blocking_recv().expect("first record");
    assert_eq!(first.text, "");
    assert_eq!(first.tokens, 0);
    assert_eq!(first.latency.load, 500);
    assert!(!first.done);
    let second = rx.blocking_recv().expect("second record");
    assert_eq!(second.text, "ab");
    assert_eq!(second.tokens, 1);
    assert!(!second.done);
    let third = rx.blocking_recv().expect("terminal record");
    assert_eq!(third.text, "");
    assert_eq!(third.tokens, 1);
    assert!(third.done);
    assert!(rx.blocking_recv().is_none());
}

#[test]
fn consumer_gone_makes_the_sink_report_failure() {
    // Dropping the receiver closes the bridge: the next send must fail and
    // hand the refused record back, which tells the worker to stop.
    let (tx, rx) = tokio::sync::mpsc::channel::<TextGenResponse>(4);
    drop(rx);
    let mut tr = Translator::new(1000);
    let refused = emit_event(&mut tr, &tx, TextGenEvent::Loaded, 1500);
    match refused {
        Ok(()) => panic!("send into a closed bridge must fail"),
        Err(record) => {
            assert_eq!(record.latency.load, 500);
            assert!(!record.done);
        },
    }
}

#[test]
fn worker_halts_within_one_token_of_cancellation() {
    // The cancellation path: once the sink reports failure, the worker halts
    // the generation state so that no further step is taken.
    let (tx, rx) = tokio::sync::mpsc::channel::<TextGenResponse>(4);
    let mut tr = Translator::new(0);
    let mut generation = hal::models::Generation::new(vec![1, 2, 3], 99);
    drop(rx);
    let mut steps: usize = 0;
    while generation.can_step() {
        let stop = generation.accept_token(7);
        assert!(!stop);
        let event = generation.fragment_event(String::from("x"));
        steps += 1;
        if emit_event(&mut tr, &tx, event, 10).is_err() {
            generation.halt();
        }
    }
    assert_eq!(steps, 1);
}
