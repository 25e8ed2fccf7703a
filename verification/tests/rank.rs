use rss_hacker::extract::Description;
use rss_hacker::feed::Item;
use rss_hacker::rank::{annotate, annotate_all, rank, rank_items, RankedItem};

fn scored(title: &str, score: i128) -> RankedItem {
    RankedItem {
        item: Item { title: title.to_string(), description: None },
        description: Description {
            article_url: String::new(),
            comments_url: String::new(),
            points: String::new(),
            num_comments: String::new(),
        },
        score,
    }
}

fn titles(items: &[RankedItem]) -> Vec<&str> {
    items.iter().map(|ranked| ranked.item.title.as_str()).collect()
}

fn entry(title: &str, description: &str) -> Item {
    Item { title: title.to_string(), description: Some(description.to_string()) }
}

#[test]
fn ranking_is_stable_and_descending() {
    let ranked = rank(vec![
        scored("ten", 10),
        scored("first thirty", 30),
        scored("second thirty", 30),
        scored("five", 5),
    ]);
    assert_eq!(titles(&ranked), vec!["first thirty", "second thirty", "ten", "five"]);
    let scores: Vec<i128> = ranked.iter().map(|r| r.score).collect();
    assert_eq!(scores, vec![30, 30, 10, 5]);
}

#[test]
fn ranking_of_equal_scores_keeps_the_order() {
    let ranked = rank(vec![scored("a", 1), scored("b", 1), scored("c", 1)]);
    assert_eq!(titles(&ranked), vec!["a", "b", "c"]);
}

#[test]
fn ranking_of_nothing_and_of_one() {
    assert!(rank(Vec::new()).is_empty());
    assert_eq!(titles(&rank(vec![scored("only", -3)])), vec!["only"]);
}

#[test]
fn ranking_puts_negative_scores_last() {
    let ranked = rank(vec![scored("minus", -1), scored("zero", 0), scored("plus", 1)]);
    assert_eq!(titles(&ranked), vec!["plus", "zero", "minus"]);
}

#[test]
fn ranking_keeps_every_item() {
    let mut items = Vec::new();
    for i in 0..50i128 {
        items.push(scored(&format!("{}", i), (i * 7) % 5));
    }
    let ranked = rank(items.clone());
    assert_eq!(ranked.len(), 50);
    for pair in ranked.windows(2) {
        let earlier: usize = pair[0].item.title.parse().unwrap();
        let later: usize = pair[1].item.title.parse().unwrap();
        assert!(pair[0].score > pair[1].score || (pair[0].score == pair[1].score && earlier < later));
    }
    for item in &items {
        assert!(ranked.contains(item));
    }
}

#[test]
fn annotate_extracts_and_scores() {
    let ranked = annotate(entry(
        "A",
        "<a href=\"https://a.example\">a</a><a href=\"https://news.example/a\">c</a><p>Points: 30</p>",
    ));
    assert_eq!(ranked.item.title, "A");
    assert_eq!(ranked.description.article_url, "https://a.example");
    assert_eq!(ranked.description.comments_url, "https://news.example/a");
    assert_eq!(ranked.description.points, "Points: 30");
    assert_eq!(ranked.description.num_comments, "");
    assert_eq!(ranked.score, 30);
}

#[test]
fn item_with_empty_description_scores_nothing() {
    let ranked = annotate(entry("E", ""));
    assert_eq!(ranked.description.article_url, "");
    assert_eq!(ranked.description.comments_url, "");
    assert_eq!(ranked.description.points, "");
    assert_eq!(ranked.score, 0);
}

#[test]
fn item_without_description_is_as_one_without_markup() {
    let ranked = annotate(Item { title: "N".to_string(), description: None });
    assert_eq!(ranked.item.description, None);
    assert_eq!(ranked.description.article_url, "");
    assert_eq!(ranked.description.comments_url, "");
    assert_eq!(ranked.description.points, "");
    assert_eq!(ranked.description.num_comments, "");
    assert_eq!(ranked.score, 0);
}

#[test]
fn annotate_all_keeps_the_order() {
    let annotated = annotate_all(vec![entry("x", "<p>Points: 1</p>"), entry("y", "<p>Points: 2</p>")]);
    assert_eq!(titles(&annotated), vec!["x", "y"]);
    assert_eq!(annotated[0].score, 1);
    assert_eq!(annotated[1].score, 2);
}

#[test]
fn rank_items_orders_by_the_points_in_the_description() {
    let ranked = rank_items(vec![
        entry("low", "<p>Points: 10</p>"),
        entry("none", "<p>nothing</p>"),
        entry("high", "<p>Points: 30</p>"),
        entry("also high", "<p>Points: 10 20</p>"),
    ]);
    assert_eq!(titles(&ranked), vec!["high", "also high", "low", "none"]);
}
