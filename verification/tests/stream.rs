use rss_hacker::stream::{compose_all, page, Action, Composer, Event, Phase};

fn composer() -> Composer {
    Composer::new("<body>".to_string(), "</body>".to_string())
}

#[test]
fn a_new_composer_has_sent_nothing() {
    let c = composer();
    assert_eq!(c.phase, Phase::Prefix);
    assert_eq!(c.prefix, "<body>");
    assert_eq!(c.suffix, "</body>");
}

#[test]
fn the_prefix_goes_out_first() {
    let mut c = composer();
    assert_eq!(c.step(Event::Demand), Action::Emit(b"<body>".to_vec()));
    assert_eq!(c.phase, Phase::Markup);
}

#[test]
fn markup_is_asked_for_and_handed_on() {
    let mut c = composer();
    c.step(Event::Demand);
    assert_eq!(c.step(Event::Demand), Action::Pull);
    assert_eq!(c.phase, Phase::Markup);
    assert_eq!(c.step(Event::Chunk("<p>\u{261e}</p>".to_string())), Action::Emit("<p>\u{261e}</p>".as_bytes().to_vec()));
    assert_eq!(c.phase, Phase::Markup);
    assert_eq!(c.step(Event::Demand), Action::Pull);
    assert_eq!(c.step(Event::Chunk(String::new())), Action::Emit(Vec::new()));
}

#[test]
fn the_suffix_goes_out_last() {
    let mut c = composer();
    c.step(Event::Demand);
    c.step(Event::Demand);
    assert_eq!(c.step(Event::End), Action::Emit(b"</body>".to_vec()));
    assert_eq!(c.phase, Phase::Done);
    assert_eq!(c.step(Event::Demand), Action::Finish);
    assert_eq!(c.step(Event::Chunk("late".to_string())), Action::Finish);
    assert_eq!(c.step(Event::End), Action::Finish);
    assert_eq!(c.phase, Phase::Done);
}

#[test]
fn cancelling_stops_the_stream() {
    let mut c = composer();
    assert_eq!(c.step(Event::Cancel), Action::Finish);
    assert_eq!(c.phase, Phase::Done);
    assert_eq!(c.step(Event::Demand), Action::Finish);

    let mut c = composer();
    c.step(Event::Demand);
    c.step(Event::Demand);
    assert_eq!(c.step(Event::Cancel), Action::Finish);
    assert_eq!(c.phase, Phase::Done);
    assert_eq!(c.step(Event::Demand), Action::Finish);
}

#[test]
fn markup_before_the_prefix_ends_the_stream() {
    let mut c = composer();
    assert_eq!(c.step(Event::Chunk("early".to_string())), Action::Finish);
    assert_eq!(c.phase, Phase::Done);
    let mut c = composer();
    assert_eq!(c.step(Event::End), Action::Finish);
    assert_eq!(c.phase, Phase::Done);
}

#[test]
fn compose_all_gives_prefix_chunks_suffix() {
    let emitted = compose_all(
        "<html><body>".to_string(),
        vec!["<h1>".to_string(), "t\u{e9}".to_string(), "</h1>".to_string()],
        "</body></html>".to_string(),
    );
    assert_eq!(
        emitted,
        vec![
            b"<html><body>".to_vec(),
            b"<h1>".to_vec(),
            "t\u{e9}".as_bytes().to_vec(),
            b"</h1>".to_vec(),
            b"</body></html>".to_vec(),
        ]
    );
}

#[test]
fn compose_all_without_markup() {
    assert_eq!(
        compose_all("a".to_string(), Vec::new(), "b".to_string()),
        vec![b"a".to_vec(), b"b".to_vec()]
    );
}

#[test]
fn the_stream_put_together_is_the_page() {
    let cuts: Vec<Vec<&str>> = vec![
        vec!["<ul><li>\u{261e} one</li></ul>"],
        vec!["<ul>", "<li>\u{261e} one</li>", "</ul>"],
        vec!["", "<ul><li>", "\u{261e}", " one</li></ul>", ""],
        vec![],
    ];
    for cut in cuts {
        let markup: String = cut.concat();
        let chunks: Vec<String> = cut.iter().map(|c| c.to_string()).collect();
        let emitted = compose_all("<body>".to_string(), chunks, "</body>".to_string());
        assert_eq!(emitted.concat(), page("<body>", &markup, "</body>"));
    }
}

#[test]
fn page_is_the_three_parts_in_a_row() {
    assert_eq!(page("a\u{e9}", "b", "c"), "a\u{e9}bc".as_bytes().to_vec());
    assert_eq!(page("", "", ""), Vec::<u8>::new());
}

#[test]
fn a_driver_receives_the_page() {
    let mut upstream = vec!["<p>1</p>".to_string(), "<p>2</p>".to_string()].into_iter();
    let mut c = composer();
    let mut received: Vec<u8> = Vec::new();
    let mut action = c.step(Event::Demand);
    loop {
        match action {
            Action::Emit(bytes) => {
                received.extend(bytes);
                action = c.step(Event::Demand);
            }
            Action::Pull => {
                action = match upstream.next() {
                    Some(chunk) => c.step(Event::Chunk(chunk)),
                    None => c.step(Event::End),
                };
            }
            Action::Finish => break,
        }
    }
    assert_eq!(received, b"<body><p>1</p><p>2</p></body>".to_vec());
}
