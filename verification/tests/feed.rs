use rss::Channel as RssChannel;
use rss_hacker::content::{render_channel, render_content};
use rss_hacker::feed::{channel_from_parts, parse_feed, Channel, FeedError, Item};
use rss_hacker::view::render_failure;

fn entry_xml(title: &str, article: &str, comments: &str, points: &str) -> String {
    format!(
        "<item><title>{}</title><description><![CDATA[<p>Article URL: <a href=\"{}\">{}</a></p>\
         <p>Comments URL: <a href=\"{}\">{}</a></p><p>Points: {}</p><p># Comments: 4</p>]]></description></item>",
        title, article, article, comments, comments, points
    )
}

fn feed_xml(title: &str, items: &[String]) -> String {
    format!(
        "<?xml version=\"1.0\" encoding=\"UTF-8\"?><rss version=\"2.0\"><channel><title>{}</title>\
         <link>https://news.example/</link><description>d</description>{}</channel></rss>",
        title,
        items.concat()
    )
}

#[test]
fn feed_gives_title_and_items() {
    let xml = feed_xml(
        "Hacker News Jobs",
        &[
            "<item><title>one</title><description>&lt;p&gt;Points: 1&lt;/p&gt;</description></item>".to_string(),
            "<item><title>two</title></item>".to_string(),
            "<item><description>untitled</description></item>".to_string(),
        ],
    );
    let channel = parse_feed(xml.as_bytes()).unwrap();
    assert_eq!(
        channel,
        Channel {
            title: "Hacker News Jobs".to_string(),
            items: vec![
                Item { title: "one".to_string(), description: Some("<p>Points: 1</p>".to_string()) },
                Item { title: "two".to_string(), description: None },
                Item { title: String::new(), description: Some("untitled".to_string()) },
            ],
        }
    );
}

#[test]
fn feed_agrees_with_the_reader() {
    let xml = feed_xml("T", &[entry_xml("a", "https://a.example", "https://n.example/a", "3")]);
    let read = RssChannel::read_from(xml.as_bytes()).unwrap();
    let channel = parse_feed(xml.as_bytes()).unwrap();
    assert_eq!(channel.title, read.title);
    assert_eq!(channel.items.len(), read.items.len());
    assert_eq!(channel.items[0].description, read.items[0].description);
    assert_eq!(Some(channel.items[0].title.clone()), read.items[0].title);
}

#[test]
fn feed_without_items() {
    let channel = parse_feed(feed_xml("empty", &[]).as_bytes()).unwrap();
    assert_eq!(channel, Channel { title: "empty".to_string(), items: Vec::new() });
}

#[test]
fn what_is_no_feed_is_refused() {
    assert_eq!(parse_feed(b""), Err(FeedError::Parse));
    assert_eq!(parse_feed(b"not a feed"), Err(FeedError::Parse));
    assert_eq!(parse_feed(b"<html><body></body></html>"), Err(FeedError::Parse));
    assert_eq!(parse_feed(b"<rss version=\"2.0\"><channel><title>cut"), Err(FeedError::Parse));
    assert_eq!(parse_feed(&[0xff, 0xfe, 0x00]), Err(FeedError::Parse));
}

#[test]
fn channel_from_parts_keeps_the_order() {
    let channel = channel_from_parts(
        "t".to_string(),
        vec![
            (Some("a".to_string()), None),
            (None, Some("d".to_string())),
            (None, None),
        ],
    );
    assert_eq!(
        channel,
        Channel {
            title: "t".to_string(),
            items: vec![
                Item { title: "a".to_string(), description: None },
                Item { title: String::new(), description: Some("d".to_string()) },
                Item { title: String::new(), description: None },
            ],
        }
    );
}

#[test]
fn end_to_end_the_higher_score_comes_first() {
    let xml = feed_xml(
        "Hacker News Jobs",
        &[
            entry_xml("B", "https://b.example", "https://news.example/b", "10"),
            entry_xml("A", "https://a.example", "https://news.example/a", "30"),
        ],
    );
    let markup = render_content(Ok(xml.into_bytes()));
    assert!(markup.contains("<h1 class=\"text-2xl p-10\">Hacker News Jobs</h1>"));
    let a = markup.find("\u{261e} A</h2>").unwrap();
    let b = markup.find("\u{261e} B</h2>").unwrap();
    assert!(a < b);
    let cards: Vec<usize> = markup.match_indices("<li class=\"p-5").map(|(at, _)| at).collect();
    assert_eq!(cards.len(), 2);
    let card_a = &markup[cards[0]..cards[1]];
    assert!(card_a.contains("\u{261e} A</h2>"));
    assert!(card_a.contains("<a href=\"https://a.example\" target=\"_blank\">"));
    assert!(card_a.contains("<a class=\"link_to_article \" href=\"https://news.example/a\" target=\"_blank\">"));
    assert!(card_a.contains("Points: 30"));
    assert!(!card_a.contains("https://b.example"));
    let card_b = &markup[cards[1]..];
    assert!(card_b.contains("<a href=\"https://b.example\" target=\"_blank\">"));
    assert!(card_b.contains("href=\"https://news.example/b\""));
    assert!(card_b.contains("Points: 10"));
}

#[test]
fn end_to_end_an_empty_description_still_gives_a_card() {
    let xml = feed_xml(
        "T",
        &[
            "<item><title>bare</title><description></description></item>".to_string(),
            "<item><title>none</title></item>".to_string(),
            entry_xml("full", "https://f.example", "https://news.example/f", "2"),
        ],
    );
    let markup = render_content(Ok(xml.into_bytes()));
    assert_eq!(markup.matches("<li class=\"p-5").count(), 3);
    let full = markup.find("\u{261e} full").unwrap();
    let bare = markup.find("\u{261e} bare").unwrap();
    let none = markup.find("\u{261e} none").unwrap();
    assert!(full < bare && bare < none);
    let cards: Vec<usize> = markup.match_indices("<li class=\"p-5").map(|(at, _)| at).collect();
    let card_bare = &markup[cards[1]..cards[2]];
    assert!(card_bare.contains("<a href=\"\" target=\"_blank\">"));
    assert!(card_bare.contains("<a class=\"link_to_article \" href=\"\" target=\"_blank\">"));
    assert!(card_bare.contains("<li>Points: </li><li class=\"py-2\"></li>"));
}

#[test]
fn render_channel_ranks_and_renders() {
    let channel = Channel {
        title: "c".to_string(),
        items: vec![
            Item { title: "low".to_string(), description: Some("<p>Points: 1</p>".to_string()) },
            Item { title: "high".to_string(), description: Some("<p>Points: 2</p>".to_string()) },
        ],
    };
    let markup = render_channel(channel);
    assert!(markup.find("\u{261e} high").unwrap() < markup.find("\u{261e} low").unwrap());
}

#[test]
fn failures_give_the_failure_view() {
    assert_eq!(render_content(Err(FeedError::Network)), render_failure(FeedError::Network));
    assert_eq!(render_content(Err(FeedError::Parse)), render_failure(FeedError::Parse));
    assert_eq!(render_content(Ok(b"no feed".to_vec())), render_failure(FeedError::Parse));
}
