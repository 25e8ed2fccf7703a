//! The feed: a channel title and its items, read from RSS bytes.

use rss::Channel as RssChannel;
use rss::Error as RssError;
use vstd::prelude::*;

verus! {

/// One entry of a feed.
#[derive(Debug, Clone, PartialEq, Eq)]
pub struct Item {
    pub title: String,
    /// The HTML fragment that carries the entry's links and counters; a feed
    /// may leave it out.
    pub description: Option<String>,
}

/// A parsed feed.
#[derive(Debug, Clone, PartialEq, Eq)]
pub struct Channel {
    pub title: String,
    pub items: Vec<Item>,
}

/// Why a request for the feed gave no channel.
#[derive(Debug, PartialEq, Eq, Clone, Copy, Structural)]
pub enum FeedError {
    /// The feed could not be fetched.
    Network,
    /// What was fetched is not a feed.
    Parse,
}

pub struct ItemView {
    pub title: Seq<char>,
    pub description: Option<Seq<char>>,
}

pub struct ChannelView {
    pub title: Seq<char>,
    pub items: Seq<ItemView>,
}

impl DeepView for Item {
    type V = ItemView;

    open spec fn deep_view(&self) -> ItemView {
        ItemView { title: self.title@, description: self.description.deep_view() }
    }
}

impl DeepView for Channel {
    type V = ChannelView;

    open spec fn deep_view(&self) -> ChannelView {
        ChannelView { title: self.title@, items: self.items.deep_view() }
    }
}

/// `rss::Error`: why reading a channel failed. It is carried, never looked
/// into.
#[verifier::external_type_specification]
#[verifier::external_body]
pub struct ExRssError(RssError);

/// What reading `bytes` as an RSS document gives: the channel's title and,
/// for each item in order, its title and its description, either of which
/// the document may leave out; `None` where the bytes are no RSS document.
pub uninterp spec fn rss_document(bytes: Seq<u8>) -> Option<
    (Seq<char>, Seq<(Option<Seq<char>>, Option<Seq<char>>)>),
>;

/// `rss::Channel::read_from` on a byte slice, the channel taken apart into
/// its title and its items' titles and descriptions.
#[verifier::external_body]
fn read_channel(bytes: &[u8]) -> (read: Result<
    (String, Vec<(Option<String>, Option<String>)>),
    RssError,
>)
    ensures
        match read {
            Ok(parts) => rss_document(bytes@) == Some(parts.deep_view()),
            Err(_) => rss_document(bytes@) is None,
        },
{
    let channel = RssChannel::read_from(bytes)?;
    let items = channel.items.into_iter().map(|item| (item.title, item.description)).collect();
    Ok((channel.title, items))
}

/// The item that a title and a description make; an item without a title
/// has the empty one.
pub open spec fn item_of(title: Option<Seq<char>>, description: Option<Seq<char>>) -> ItemView {
    ItemView {
        title: match title {
            Some(t) => t,
            None => Seq::empty(),
        },
        description,
    }
}

/// The channel that a title and the items' titles and descriptions make.
pub open spec fn channel_of(
    title: Seq<char>,
    items: Seq<(Option<Seq<char>>, Option<Seq<char>>)>,
) -> ChannelView {
    ChannelView {
        title,
        items: items.map_values(
            |item: (Option<Seq<char>>, Option<Seq<char>>)| item_of(item.0, item.1),
        ),
    }
}

/// Builds a channel from its title and its items' titles and descriptions,
/// keeping the items' order.
pub fn channel_from_parts(title: String, items: Vec<(Option<String>, Option<String>)>) -> (channel:
    Channel)
    ensures
        channel.deep_view() == channel_of(title@, items.deep_view()),
{
    let ghost parts = items.deep_view();
    let ghost raw = items@;
    let mut built: Vec<Item> = Vec::new();
    for part in it: items
        invariant
            it.seq() == raw,
            parts.len() == raw.len(),
            forall|j: int| 0 <= j < raw.len() ==> parts[j] == (#[trigger] raw[j]).deep_view(),
            built@.len() == it.index(),
            forall|j: int|
                0 <= j < built@.len() ==> (#[trigger] built@[j]).deep_view() == item_of(
                    parts[j].0,
                    parts[j].1,
                ),
    {
        let (title, description) = part;
        let title = match title {
            Some(t) => t,
            None => String::new(),
        };
        built.push(Item { title, description });
    }
    let channel = Channel { title, items: built };
    assert(channel.deep_view().items =~= channel_of(title@, parts).items);
    channel
}

/// Reads `bytes` as an RSS document. Fails with `FeedError::Parse` exactly
/// when the bytes are no RSS document.
pub fn parse_feed(bytes: &[u8]) -> (parsed: Result<Channel, FeedError>)
    ensures
        match parsed {
            Ok(channel) => rss_document(bytes@) matches Some(parts) && channel.deep_view()
                == channel_of(parts.0, parts.1),
            Err(error) => error == FeedError::Parse && rss_document(bytes@) is None,
        },
{
    match read_channel(bytes) {
        Ok(parts) => {
            let (title, items) = parts;
            Ok(channel_from_parts(title, items))
        },
        Err(_) => Err(FeedError::Parse),
    }
}

} // verus!
