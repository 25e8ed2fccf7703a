use rss_hacker::extract::Description;
use rss_hacker::feed::{FeedError, Item};
use rss_hacker::rank::RankedItem;
use rss_hacker::view::{escape, escape_into, render_failure, render_loading, render_view};
use select::document::Document;
use select::predicate::Name;

fn card(title: &str, article_url: &str, comments_url: &str, points: &str, num_comments: &str) -> RankedItem {
    RankedItem {
        item: Item { title: title.to_string(), description: None },
        description: Description {
            article_url: article_url.to_string(),
            comments_url: comments_url.to_string(),
            points: points.to_string(),
            num_comments: num_comments.to_string(),
        },
        score: 0,
    }
}

#[test]
fn escape_writes_the_four_entities() {
    assert_eq!(escape("a&b<c>d\"e"), "a&amp;b&lt;c&gt;d&quot;e");
    assert_eq!(escape("&amp;"), "&amp;amp;");
    assert_eq!(escape(""), "");
    assert_eq!(escape("plain 'text' \u{261e}"), "plain 'text' \u{261e}");
}

#[test]
fn escape_into_appends() {
    let mut out = String::from("x=");
    escape_into(&mut out, "<1>");
    assert_eq!(out, "x=&lt;1&gt;");
}

#[test]
fn view_of_no_items() {
    assert_eq!(
        render_view("Feed", &Vec::new()),
        "<div class=\"text-center\"><h1 class=\"text-2xl p-10\">Feed</h1></div>\
         <div class=\"container mx-auto\"><ul></ul></div>"
    );
}

#[test]
fn view_of_one_item() {
    let items = vec![card("T", "https://a.example", "https://news.example/a", "Points: 30", "# Comments: 2")];
    assert_eq!(
        render_view("Hacker News", &items),
        "<div class=\"text-center\"><h1 class=\"text-2xl p-10\">Hacker News</h1></div>\
         <div class=\"container mx-auto\"><ul>\
         <li class=\"p-5 drop-shadow-md md:drop-shadow-xl bg-slate-100 m-3 rounded-lg\">\
         <div class=\"border-neutral-400\">\
         <a href=\"https://a.example\" target=\"_blank\">\
         <h2 class=\"text-center text-xl hover:font-bold ease-in duration-200\">\u{261e} T</h2></a>\
         <ul><li></li><li>Points: Points: 30</li><li class=\"py-2\"># Comments: 2</li>\
         <a class=\"link_to_article \" href=\"https://news.example/a\" target=\"_blank\">\
         <li class=\"cursor-pointer py-2 bg-sky-500 hover:bg-emerald-400/50 rounded-lg  text-slate-50 text-center ease-in duration-200\">\
         Check out the comments</li></a></ul></div></li>\
         </ul></div>"
    );
}

#[test]
fn view_renders_empty_fields_as_they_are() {
    let markup = render_view("", &vec![card("", "", "", "", "")]);
    assert!(markup.contains("<h1 class=\"text-2xl p-10\"></h1>"));
    assert!(markup.contains("<a href=\"\" target=\"_blank\">"));
    assert!(markup.contains("<li>Points: </li><li class=\"py-2\"></li>"));
    assert!(markup.contains("<a class=\"link_to_article \" href=\"\" target=\"_blank\">"));
}

#[test]
fn view_keeps_the_order_of_the_items() {
    let markup = render_view("t", &vec![card("one", "", "", "", ""), card("two", "", "", "", "")]);
    let one = markup.find("\u{261e} one").unwrap();
    let two = markup.find("\u{261e} two").unwrap();
    assert!(one < two);
    assert_eq!(markup.matches("<li class=\"p-5").count(), 2);
}

#[test]
fn rendering_then_parsing_gives_the_values_back() {
    let items = vec![
        card(
            "Tom & Jerry <script>alert(\"x\")</script> &amp; more",
            "https://a.example/?q=\"1\"&r=<2>",
            "https://news.example/item?id=1&amp;x=2",
            "Points: 3 < 4",
            "# Comments: \"none\"",
        ),
        card("plain", "https://b.example", "https://news.example/b", "Points: 1", ""),
    ];
    let title = "News & <b>more</b> \"quoted\"";
    let markup = render_view(title, &items);
    let document = Document::from(markup.as_str());
    let heading = document.find(Name("h1")).next().unwrap();
    assert_eq!(heading.text(), title);
    let headings: Vec<String> = document.find(Name("h2")).map(|h| h.text()).collect();
    let links: Vec<String> =
        document.find(Name("a")).map(|a| a.attr("href").unwrap().to_string()).collect();
    assert_eq!(headings.len(), 2);
    assert_eq!(links.len(), 4);
    for (i, item) in items.iter().enumerate() {
        assert_eq!(headings[i], format!("\u{261e} {}", item.item.title));
        assert_eq!(links[2 * i], item.description.article_url);
        assert_eq!(links[2 * i + 1], item.description.comments_url);
    }
    assert_eq!(document.find(Name("script")).count(), 0);
}

#[test]
fn loading_view() {
    assert_eq!(render_loading(), "<div>Loading feed...</div>");
}

#[test]
fn failure_views() {
    let network = render_failure(FeedError::Network);
    let parse = render_failure(FeedError::Parse);
    assert!(network.contains("The feed could not be fetched"));
    assert!(parse.contains("The feed could not be read"));
    assert_ne!(network, parse);
}
