//! From the bytes of a feed to the markup of the view.

use crate::feed::{channel_of, parse_feed, rss_document, Channel, ChannelView, FeedError, ItemView};
use crate::rank::{
    annotates_all, is_ranking, lemma_ranking_follows_scores, rank_items, ranks_by, RankedItem,
};
use crate::view::{
    failure_markup, lemma_cards_follow_texts, render_failure, render_view, same_card, view_markup,
};
use vstd::prelude::*;

verus! {

/// `annotated` holds items that read as `items`, in order, each with its
/// annotation.
pub open spec fn annotation_of(items: Seq<ItemView>, annotated: Seq<RankedItem>) -> bool {
    &&& annotated.len() == items.len()
    &&& forall|i: int|
        0 <= i < items.len() ==> (#[trigger] annotated[i]).item.deep_view() == items[i]
            && annotated[i].wf()
}

/// `markup` is the view of `channel`: under the channel's title, the cards
/// of its items with their annotations, ranked.
pub open spec fn shows_channel(channel: ChannelView, markup: Seq<char>) -> bool {
    exists|annotated: Seq<RankedItem>, ranked: Seq<RankedItem>|
        annotation_of(channel.items, annotated) && is_ranking(annotated, ranked) && markup
            == view_markup(channel.title, ranked)
}

/// A channel has one view: whatever shows it is the same markup.
pub proof fn lemma_view_is_determined(channel: ChannelView, first: Seq<char>, second: Seq<char>)
    requires
        shows_channel(channel, first),
        shows_channel(channel, second),
    ensures
        first == second,
{
    let (a, ranked_a) = choose|annotated: Seq<RankedItem>, ranked: Seq<RankedItem>|
        annotation_of(channel.items, annotated) && is_ranking(annotated, ranked) && first
            == view_markup(channel.title, ranked);
    let (b, ranked_b) = choose|annotated: Seq<RankedItem>, ranked: Seq<RankedItem>|
        annotation_of(channel.items, annotated) && is_ranking(annotated, ranked) && second
            == view_markup(channel.title, ranked);
    assert forall|i: int| 0 <= i < a.len() implies same_card(#[trigger] a[i], b[i]) && a[i].score
        == b[i].score by {
        assert(a[i].item.deep_view() == channel.items[i]);
        assert(b[i].item.deep_view() == channel.items[i]);
    }
    lemma_ranking_follows_scores(a, ranked_a, b, ranked_b);
    let p = choose|p: Seq<int>| ranks_by(a, ranked_a, p) && ranks_by(b, ranked_b, p);
    assert forall|k: int| 0 <= k < ranked_a.len() implies same_card(
        #[trigger] ranked_a[k],
        ranked_b[k],
    ) by {
        assert(ranked_a[k] == a[p[k]] && ranked_b[k] == b[p[k]]);
        assert(same_card(a[p[k]], b[p[k]]));
    }
    lemma_cards_follow_texts(ranked_a, ranked_b);
}

/// Renders a channel: its items annotated, ranked and shown under its title.
pub fn render_channel(channel: Channel) -> (markup: String)
    ensures
        shows_channel(channel.deep_view(), markup@),
{
    let Channel { title, items } = channel;
    let ranked = rank_items(items);
    let markup = render_view(title.as_str(), &ranked);
    proof {
        let annotated = choose|annotated: Seq<RankedItem>|
            annotates_all(channel.items@, annotated) && is_ranking(annotated, ranked@);
        assert forall|i: int| 0 <= i < channel.items@.len() implies (#[trigger] annotated[i]).item.deep_view()
            == channel.deep_view().items[i] && annotated[i].wf() by {
            assert(annotated[i].item == channel.items@[i]);
        }
        assert(annotation_of(channel.deep_view().items, annotated) && is_ranking(
            annotated,
            ranked@,
        ) && markup@ == view_markup(channel.deep_view().title, ranked@));
    }
    markup
}

/// Renders what a request for the feed gave: the view of the channel that
/// the bytes hold, or the failure view where the feed could not be fetched
/// or the bytes are no feed. Every outcome gives markup.
pub fn render_content(fetched: Result<Vec<u8>, FeedError>) -> (markup: String)
    ensures
        match fetched {
            Err(error) => markup@ == failure_markup(error),
            Ok(bytes) => match rss_document(bytes@) {
                None => markup@ == failure_markup(FeedError::Parse),
                Some(parts) => shows_channel(channel_of(parts.0, parts.1), markup@),
            },
        },
{
    match fetched {
        Err(error) => render_failure(error),
        Ok(bytes) => match parse_feed(bytes.as_slice()) {
            Err(error) => render_failure(error),
            Ok(channel) => render_channel(channel),
        },
    }
}

} // verus!
