//! The view: the ranked items rendered as HTML markup.

use crate::feed::FeedError;
use crate::rank::RankedItem;
use vstd::prelude::*;
use vstd::string::StringExecFns;

verus! {

/// What stands in markup for one character of text: the characters that
/// markup gives a meaning to are written as entities.
pub open spec fn escaped_char(c: char) -> Seq<char> {
    if c == '&' {
        seq!['&', 'a', 'm', 'p', ';']
    } else if c == '<' {
        seq!['&', 'l', 't', ';']
    } else if c == '>' {
        seq!['&', 'g', 't', ';']
    } else if c == '"' {
        seq!['&', 'q', 'u', 'o', 't', ';']
    } else {
        seq![c]
    }
}

/// What stands in markup for a text, in element content and in a
/// double-quoted attribute value alike.
pub open spec fn escaped(text: Seq<char>) -> Seq<char>
    decreases text.len(),
{
    if text.len() == 0 {
        Seq::empty()
    } else {
        escaped(text.drop_last()) + escaped_char(text.last())
    }
}

/// `s` begins with `prefix`.
pub open spec fn starts_with(s: Seq<char>, prefix: Seq<char>) -> bool {
    prefix.len() <= s.len() && s.take(prefix.len() as int) == prefix
}

/// The text that escaped text stands for, read by the four entities alone:
/// each of them is read as its character, everything else as it stands.
/// This is the inverse of `escaped`; an HTML parser reads more than this
/// (it also rewrites carriage returns and NUL).
pub open spec fn unescaped(markup: Seq<char>) -> Seq<char>
    decreases markup.len(),
{
    if markup.len() == 0 {
        Seq::empty()
    } else if starts_with(markup, escaped_char('&')) {
        seq!['&'] + unescaped(markup.skip(5))
    } else if starts_with(markup, escaped_char('<')) {
        seq!['<'] + unescaped(markup.skip(4))
    } else if starts_with(markup, escaped_char('>')) {
        seq!['>'] + unescaped(markup.skip(4))
    } else if starts_with(markup, escaped_char('"')) {
        seq!['"'] + unescaped(markup.skip(6))
    } else {
        seq![markup[0]] + unescaped(markup.skip(1))
    }
}

/// The markup of one item's card.
pub open spec fn card_markup(item: RankedItem) -> Seq<char> {
    "<li class=\"p-5 drop-shadow-md md:drop-shadow-xl bg-slate-100 m-3 rounded-lg\"><div class=\"border-neutral-400\"><a href=\""@
        + escaped(item.description.article_url@)
        + "\" target=\"_blank\"><h2 class=\"text-center text-xl hover:font-bold ease-in duration-200\">\u{261e} "@
        + escaped(item.item.title@) + "</h2></a><ul><li></li><li>Points: "@ + escaped(
        item.description.points@,
    ) + "</li><li class=\"py-2\">"@ + escaped(item.description.num_comments@)
        + "</li><a class=\"link_to_article \" href=\""@ + escaped(item.description.comments_url@)
        + "\" target=\"_blank\"><li class=\"cursor-pointer py-2 bg-sky-500 hover:bg-emerald-400/50 rounded-lg  text-slate-50 text-center ease-in duration-200\">Check out the comments</li></a></ul></div></li>"@
}

/// The cards of the items, one after the other.
pub open spec fn cards_markup(items: Seq<RankedItem>) -> Seq<char>
    decreases items.len(),
{
    if items.len() == 0 {
        Seq::empty()
    } else {
        cards_markup(items.drop_last()) + card_markup(items.last())
    }
}

/// The markup of the whole view: the feed's title as a heading, then the
/// list of cards in the order given.
pub open spec fn view_markup(title: Seq<char>, items: Seq<RankedItem>) -> Seq<char> {
    "<div class=\"text-center\"><h1 class=\"text-2xl p-10\">"@ + escaped(title)
        + "</h1></div><div class=\"container mx-auto\"><ul>"@ + cards_markup(items)
        + "</ul></div>"@
}

/// What the view shows while the feed is on its way.
pub open spec fn loading_markup() -> Seq<char> {
    "<div>Loading feed...</div>"@
}

/// What the view shows in place of the feed when there is none.
pub open spec fn failure_markup(error: FeedError) -> Seq<char> {
    match error {
        FeedError::Network => "<div class=\"text-center\"><h1 class=\"text-2xl p-10\">The feed could not be fetched</h1></div>"@,
        FeedError::Parse => "<div class=\"text-center\"><h1 class=\"text-2xl p-10\">The feed could not be read</h1></div>"@,
    }
}

/// Two items read alike: their titles and their extracted fields are the
/// same texts.
pub open spec fn same_card(a: RankedItem, b: RankedItem) -> bool {
    a.item.title@ == b.item.title@ && a.description@ == b.description@
}

/// Items that read alike have the same cards.
pub proof fn lemma_cards_follow_texts(a: Seq<RankedItem>, b: Seq<RankedItem>)
    requires
        a.len() == b.len(),
        forall|i: int| 0 <= i < a.len() ==> same_card(#[trigger] a[i], b[i]),
    ensures
        cards_markup(a) == cards_markup(b),
    decreases a.len(),
{
    if a.len() > 0 {
        assert(same_card(a[a.len() - 1], b[a.len() - 1]));
        assert forall|i: int| 0 <= i < a.drop_last().len() implies same_card(
            #[trigger] a.drop_last()[i],
            b.drop_last()[i],
        ) by {
            assert(same_card(a[i], b[i]));
        }
        lemma_cards_follow_texts(a.drop_last(), b.drop_last());
    }
}

pub proof fn lemma_escaped_concat(a: Seq<char>, b: Seq<char>)
    ensures
        escaped(a + b) == escaped(a) + escaped(b),
    decreases b.len(),
{
    if b.len() == 0 {
        assert(a + b =~= a);
        assert(escaped(a) + escaped(b) =~= escaped(a));
    } else {
        lemma_escaped_concat(a, b.drop_last());
        assert((a + b).drop_last() =~= a + b.drop_last());
        assert((a + b).last() == b.last());
        assert(escaped(a + b) =~= escaped(a) + escaped(b));
    }
}

/// Reading escaped text gives the text back: escaping loses nothing and
/// changes no character.
pub proof fn lemma_unescaped_escaped(text: Seq<char>)
    ensures
        unescaped(escaped(text)) == text,
    decreases text.len(),
{
    if text.len() > 0 {
        let c = text[0];
        let rest = text.skip(1);
        assert(text =~= seq![c] + rest);
        lemma_escaped_concat(seq![c], rest);
        assert(seq![c].drop_last() =~= Seq::<char>::empty());
        assert(seq![c].last() == c);
        assert(escaped(Seq::<char>::empty()) =~= Seq::<char>::empty());
        assert(escaped(seq![c]) =~= escaped_char(c));
        lemma_unescaped_escaped(rest);
        let head = escaped_char(c);
        let markup = head + escaped(rest);
        assert(markup.take(head.len() as int) =~= head);
        assert(markup.skip(head.len() as int) =~= escaped(rest));
        if c == '&' || c == '<' || c == '>' || c == '"' {
            assert(starts_with(markup, head));
        } else {
            assert(markup[0] == c);
            if markup.len() >= 4 {
                assert(markup.take(4)[0] == c);
            }
            if markup.len() >= 5 {
                assert(markup.take(5)[0] == c);
            }
            if markup.len() >= 6 {
                assert(markup.take(6)[0] == c);
            }
        }
        assert(unescaped(markup) =~= seq![c] + rest);
    }
}

/// Escaped text holds none of the characters that end an attribute value or
/// begin or end a tag.
pub proof fn lemma_escaped_is_inert(text: Seq<char>)
    ensures
        forall|i: int|
            0 <= i < escaped(text).len() ==> {
                let c = #[trigger] escaped(text)[i];
                c != '<' && c != '>' && c != '"'
            },
    decreases text.len(),
{
    if text.len() > 0 {
        lemma_escaped_is_inert(text.drop_last());
        let done = escaped(text.drop_last());
        let last = escaped_char(text.last());
        assert forall|i: int| 0 <= i < escaped(text).len() implies {
            let c = #[trigger] escaped(text)[i];
            c != '<' && c != '>' && c != '"'
        } by {
            if i < done.len() {
                assert(escaped(text)[i] == done[i]);
            } else {
                assert(escaped(text)[i] == last[i - done.len()]);
            }
        }
    }
}

/// Appends to `out` what stands in markup for `text`.
pub fn escape_into(out: &mut String, text: &str)
    ensures
        final(out)@ == old(out)@ + escaped(text@),
{
    let ghost base = out@;
    for c in it: text.chars()
        invariant
            it.seq() == text@,
            out@ == base + escaped(text@.take(it.index())),
    {
        proof {
            let done = text@.take(it.index());
            let next = text@.take(it.index() + 1);
            assert(next.drop_last() =~= done);
            assert(next.last() == c);
            reveal_strlit("&amp;");
            reveal_strlit("&lt;");
            reveal_strlit("&gt;");
            reveal_strlit("&quot;");
            assert("&amp;"@ =~= escaped_char('&'));
            assert("&lt;"@ =~= escaped_char('<'));
            assert("&gt;"@ =~= escaped_char('>'));
            assert("&quot;"@ =~= escaped_char('"'));
        }
        let ghost before = out@;
        if c == '&' {
            out.append("&amp;");
        } else if c == '<' {
            out.append("&lt;");
        } else if c == '>' {
            out.append("&gt;");
        } else if c == '"' {
            out.append("&quot;");
        } else {
            out.push(c);
        }
        assert(out@ =~= before + escaped_char(c));
        assert(out@ =~= base + escaped(text@.take(it.index() + 1)));
    }
    assert(text@.take(text@.len() as int) =~= text@);
}

/// What stands in markup for `text`.
pub fn escape(text: &str) -> (markup: String)
    ensures
        markup@ == escaped(text@),
{
    let mut markup = String::new();
    escape_into(&mut markup, text);
    assert(Seq::<char>::empty() + escaped(text@) =~= escaped(text@));
    markup
}

fn card_into(out: &mut String, item: &RankedItem)
    ensures
        final(out)@ == old(out)@ + card_markup(*item),
{
    out.append(
        "<li class=\"p-5 drop-shadow-md md:drop-shadow-xl bg-slate-100 m-3 rounded-lg\"><div class=\"border-neutral-400\"><a href=\"",
    );
    escape_into(out, item.description.article_url.as_str());
    out.append(
        "\" target=\"_blank\"><h2 class=\"text-center text-xl hover:font-bold ease-in duration-200\">\u{261e} ",
    );
    escape_into(out, item.item.title.as_str());
    out.append("</h2></a><ul><li></li><li>Points: ");
    escape_into(out, item.description.points.as_str());
    out.append("</li><li class=\"py-2\">");
    escape_into(out, item.description.num_comments.as_str());
    out.append("</li><a class=\"link_to_article \" href=\"");
    escape_into(out, item.description.comments_url.as_str());
    out.append(
        "\" target=\"_blank\"><li class=\"cursor-pointer py-2 bg-sky-500 hover:bg-emerald-400/50 rounded-lg  text-slate-50 text-center ease-in duration-200\">Check out the comments</li></a></ul></div></li>",
    );
    assert(out@ =~= old(out)@ + card_markup(*item));
}

/// Renders the view: the feed's title as a heading, then one card for each
/// item, in the order given. Titles, links and texts are rendered as they
/// are, empty ones too, and escaped.
pub fn render_view(title: &str, items: &Vec<RankedItem>) -> (markup: String)
    ensures
        markup@ == view_markup(title@, items@),
{
    let mut markup = String::new();
    markup.append("<div class=\"text-center\"><h1 class=\"text-2xl p-10\">");
    escape_into(&mut markup, title);
    markup.append("</h1></div><div class=\"container mx-auto\"><ul>");
    let ghost head = markup@;
    let mut i: usize = 0;
    while i < items.len()
        invariant
            i <= items.len(),
            markup@ == head + cards_markup(items@.take(i as int)),
        decreases items.len() - i,
    {
        assert(items@.take(i + 1).drop_last() =~= items@.take(i as int));
        card_into(&mut markup, &items[i]);
        i += 1;
    }
    assert(items@.take(items@.len() as int) =~= items@);
    markup.append("</ul></div>");
    assert(markup@ =~= view_markup(title@, items@));
    markup
}

/// Renders what the view shows while the feed is on its way.
pub fn render_loading() -> (markup: String)
    ensures
        markup@ == loading_markup(),
{
    String::from_str("<div>Loading feed...</div>")
}

/// Renders what the view shows in place of the feed when there is none.
pub fn render_failure(error: FeedError) -> (markup: String)
    ensures
        markup@ == failure_markup(error),
{
    match error {
        FeedError::Network => String::from_str(
            "<div class=\"text-center\"><h1 class=\"text-2xl p-10\">The feed could not be fetched</h1></div>",
        ),
        FeedError::Parse => String::from_str(
            "<div class=\"text-center\"><h1 class=\"text-2xl p-10\">The feed could not be read</h1></div>",
        ),
    }
}

} // verus!
