use hal::client::ClientProgress;
use hal::models::TextGenEvent;
use hal::translator::Translator;

#[test]
fn client_echoes_fragments_in_order_and_sums_tokens() {
    // The generation routine emits Loaded, Text{"ab",1}, Text{"cd",2}, Done;
    // the client must display "ab" then "cd" and summarise tokens == 2.
    let mut tr = Translator::new(1000);
    let records = vec![
        tr.handle(TextGenEvent::Loaded, 1500),
        tr.handle(TextGenEvent::Text { text: String::from("ab"), tokens: 1 }, 1600),
        tr.handle(TextGenEvent::Text { text: String::from("cd"), tokens: 2 }, 1800),
        tr.handle(TextGenEvent::Done, 1900),
    ];
    let mut progress = ClientProgress::new();
    let mut echoed = String::new();
    let mut shown_load: Option<u64> = None;
    for r in &records {
        let show = progress.observe(r);
        if let Some(l) = show {
            assert!(shown_load.is_none(), "load latency shown once");
            shown_load = Some(l);
        }
        echoed.push_str(&r.text);
    }
    assert_eq!(echoed, "abcd");
    assert_eq!(shown_load, Some(500));
    assert_eq!(progress.tokens(), 2);
    assert_eq!(progress.generation_latency(), 400);
    assert_eq!(progress.load_latency(), 500);
    // 2 tokens in 400 microseconds: 5000 tokens per second.
    assert_eq!(progress.throughput(), Some(5000));
}

#[test]
fn zero_length_generation_summary_has_undefined_throughput() {
    let mut tr = Translator::new(1000);
    let records = vec![
        tr.handle(TextGenEvent::Loaded, 1500),
        tr.handle(TextGenEvent::Done, 1500),
    ];
    assert_eq!(records.len(), 2);
    let mut progress = ClientProgress::new();
    for r in &records {
        progress.observe(r);
    }
    assert_eq!(progress.tokens(), 0);
    assert_eq!(progress.throughput(), None);
}

#[test]
fn load_latency_retained_from_first_record_only() {
    let mut tr = Translator::new(0);
    let first = tr.handle(TextGenEvent::Loaded, 123);
    let second = tr.handle(TextGenEvent::Text { text: String::from("x"), tokens: 1 }, 200);
    let mut progress = ClientProgress::new();
    assert_eq!(progress.observe(&first), Some(123));
    assert_eq!(progress.observe(&second), None);
    assert_eq!(progress.load_latency(), 123);
}
