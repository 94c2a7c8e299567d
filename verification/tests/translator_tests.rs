use hal::common::TextGenResponse;
use hal::models::TextGenEvent;
use hal::translator::Translator;

fn record_fields(r: &TextGenResponse) -> (String, usize, u64, u64, bool) {
    (r.text.clone(), r.tokens, r.latency.load, r.latency.generation, r.done)
}

#[test]
fn loaded_fixes_load_latency_and_restarts_clock() {
    let mut tr = Translator::new(1000);
    let r = tr.handle(TextGenEvent::Loaded, 1500);
    assert_eq!(record_fields(&r), (String::new(), 0, 500, 0, false));
}

#[test]
fn text_refreshes_generation_latency_and_count() {
    let mut tr = Translator::new(1000);
    let first = tr.handle(TextGenEvent::Loaded, 1500);
    assert!(!first.done);
    let r = tr.handle(
        TextGenEvent::Text { text: String::from("ab"), tokens: 1 },
        1600,
    );
    assert_eq!(record_fields(&r), (String::from("ab"), 1, 500, 100, false));
    let r2 = tr.handle(
        TextGenEvent::Text { text: String::from("cd"), tokens: 2 },
        1800,
    );
    assert_eq!(record_fields(&r2), (String::from("cd"), 2, 500, 300, false));
}

#[test]
fn done_is_terminal_and_keeps_last_count() {
    let mut tr = Translator::new(1000);
    tr.handle(TextGenEvent::Loaded, 1500);
    tr.handle(TextGenEvent::Text { text: String::from("ab"), tokens: 3 }, 1600);
    let r = tr.handle(TextGenEvent::Done, 1900);
    assert_eq!(record_fields(&r), (String::new(), 3, 500, 400, true));
}

#[test]
fn load_latency_copied_unchanged_into_every_record() {
    let mut tr = Translator::new(0);
    let first = tr.handle(TextGenEvent::Loaded, 250);
    let mid = tr.handle(TextGenEvent::Text { text: String::from("x"), tokens: 1 }, 300);
    let last = tr.handle(TextGenEvent::Done, 400);
    assert_eq!(first.latency.load, 250);
    assert_eq!(mid.latency.load, 250);
    assert_eq!(last.latency.load, 250);
    assert!(!first.done && !mid.done && last.done);
}

#[test]
fn tokens_non_decreasing_across_records() {
    let mut tr = Translator::new(0);
    let mut tokens_seen: Vec<usize> = Vec::new();
    tokens_seen.push(tr.handle(TextGenEvent::Loaded, 10).tokens);
    tokens_seen.push(tr.handle(TextGenEvent::Text { text: String::from("a"), tokens: 1 }, 20).tokens);
    tokens_seen.push(tr.handle(TextGenEvent::Text { text: String::from("b"), tokens: 1 }, 30).tokens);
    tokens_seen.push(tr.handle(TextGenEvent::Text { text: String::from("c"), tokens: 4 }, 40).tokens);
    tokens_seen.push(tr.handle(TextGenEvent::Done, 50).tokens);
    for w in tokens_seen.windows(2) {
        assert!(w[0] <= w[1]);
    }
}

#[test]
fn zero_length_generation_yields_exactly_two_records() {
    let mut tr = Translator::new(1000);
    let first = tr.handle(TextGenEvent::Loaded, 1500);
    let last = tr.handle(TextGenEvent::Done, 1500);
    assert_eq!(record_fields(&first), (String::new(), 0, 500, 0, false));
    assert_eq!(record_fields(&last), (String::new(), 0, 500, 0, true));
}
