//! The stream composer: the page's prefix, then the view's markup chunk by
//! chunk as it arrives, then the suffix. The composer decides; whoever
//! drives it waits for the markup and hands the bytes on.

use vstd::prelude::*;
use vstd::seq_lib::lemma_flatten_concat;
use vstd::string::{StrSliceExecFns, StringExecFns};
use vstd::utf8::encode_utf8;

verus! {

/// Where a composer stands.
#[derive(Debug, PartialEq, Eq, Clone, Copy, Structural)]
pub enum Phase {
    /// Nothing has gone out yet; the prefix is next.
    Prefix,
    /// The prefix is out; markup goes out as it arrives.
    Markup,
    /// The suffix is out, or the consumer has gone: nothing more goes out.
    Done,
}

/// What the driver tells the composer.
#[derive(Debug, Clone, PartialEq, Eq)]
pub enum Event {
    /// The consumer is ready for the next bytes.
    Demand,
    /// The renderer has delivered a chunk of markup.
    Chunk(String),
    /// The renderer has delivered all its markup.
    End,
    /// The consumer has gone.
    Cancel,
}

/// What the composer tells the driver to do.
#[derive(Debug, Clone, PartialEq, Eq)]
pub enum Action {
    /// Hand these bytes to the consumer.
    Emit(Vec<u8>),
    /// Wait for the renderer, and come back with `Chunk` or `End`.
    Pull,
    /// End the stream and let go of the renderer.
    Finish,
}

pub enum ActionView {
    Emit(Seq<u8>),
    Pull,
    Finish,
}

impl View for Action {
    type V = ActionView;

    open spec fn view(&self) -> ActionView {
        match *self {
            Action::Emit(bytes) => ActionView::Emit(bytes@),
            Action::Pull => ActionView::Pull,
            Action::Finish => ActionView::Finish,
        }
    }
}

/// The composer of one response.
#[derive(Debug, Clone, PartialEq, Eq)]
pub struct Composer {
    pub prefix: String,
    pub suffix: String,
    pub phase: Phase,
}

/// The phase that follows `phase` on `event`. `Cancel` ends the stream from
/// any phase, and so does an event that answers no request: markup that
/// comes before the prefix is out.
pub open spec fn next_phase(phase: Phase, event: Event) -> Phase {
    match (phase, event) {
        (Phase::Prefix, Event::Demand) => Phase::Markup,
        (Phase::Markup, Event::Demand) => Phase::Markup,
        (Phase::Markup, Event::Chunk(_)) => Phase::Markup,
        _ => Phase::Done,
    }
}

/// What a composer with this prefix and suffix answers to `event` in
/// `phase`: on demand the prefix first and then a request for markup; each
/// chunk of markup as it stands; at the end of the markup the suffix; and
/// after that, or once cancelled, nothing.
pub open spec fn action_on(
    prefix: Seq<char>,
    suffix: Seq<char>,
    phase: Phase,
    event: Event,
) -> ActionView {
    match (phase, event) {
        (Phase::Prefix, Event::Demand) => ActionView::Emit(encode_utf8(prefix)),
        (Phase::Markup, Event::Demand) => ActionView::Pull,
        (Phase::Markup, Event::Chunk(markup)) => ActionView::Emit(encode_utf8(markup@)),
        (Phase::Markup, Event::End) => ActionView::Emit(encode_utf8(suffix)),
        _ => ActionView::Finish,
    }
}

/// The chunks that a consumer receives, in the order of their arrival, when
/// the markup arrives as `chunks`.
pub open spec fn received(
    prefix: Seq<char>,
    chunks: Seq<Seq<char>>,
    suffix: Seq<char>,
) -> Seq<Seq<u8>> {
    seq![encode_utf8(prefix)] + chunks.map_values(|markup: Seq<char>| encode_utf8(markup))
        + seq![encode_utf8(suffix)]
}

/// The page rendered at once.
pub open spec fn page_bytes(prefix: Seq<char>, markup: Seq<char>, suffix: Seq<char>) -> Seq<u8> {
    encode_utf8(prefix + markup + suffix)
}

pub open spec fn texts(chunks: Seq<String>) -> Seq<Seq<char>> {
    chunks.map_values(|chunk: String| chunk@)
}

pub open spec fn byte_chunks(chunks: Seq<Vec<u8>>) -> Seq<Seq<u8>> {
    chunks.map_values(|chunk: Vec<u8>| chunk@)
}

impl Composer {
    /// A composer that has sent nothing yet.
    pub fn new(prefix: String, suffix: String) -> (composer: Composer)
        ensures
            composer.prefix == prefix,
            composer.suffix == suffix,
            composer.phase == Phase::Prefix,
    {
        Composer { prefix, suffix, phase: Phase::Prefix }
    }

    /// Takes one event and says what to do next.
    pub fn step(&mut self, event: Event) -> (action: Action)
        ensures
            final(self).prefix == old(self).prefix,
            final(self).suffix == old(self).suffix,
            final(self).phase == next_phase(old(self).phase, event),
            action@ == action_on(old(self).prefix@, old(self).suffix@, old(self).phase, event),
    {
        match self.phase {
            Phase::Prefix => match event {
                Event::Demand => {
                    self.phase = Phase::Markup;
                    Action::Emit(self.prefix.as_str().as_bytes_vec())
                },
                _ => {
                    self.phase = Phase::Done;
                    Action::Finish
                },
            },
            Phase::Markup => match event {
                Event::Demand => Action::Pull,
                Event::Chunk(markup) => Action::Emit(markup.as_str().as_bytes_vec()),
                Event::End => {
                    self.phase = Phase::Done;
                    Action::Emit(self.suffix.as_str().as_bytes_vec())
                },
                Event::Cancel => {
                    self.phase = Phase::Done;
                    Action::Finish
                },
            },
            Phase::Done => Action::Finish,
        }
    }
}

/// Drives a composer over markup that is all at hand, and gives the chunks
/// that a consumer would receive, in the order of their arrival.
pub fn compose_all(prefix: String, chunks: Vec<String>, suffix: String) -> (emitted: Vec<Vec<u8>>)
    ensures
        byte_chunks(emitted@) == received(prefix@, texts(chunks@), suffix@),
{
    let ghost all = chunks@;
    let mut composer = Composer::new(prefix, suffix);
    let mut emitted: Vec<Vec<u8>> = Vec::new();
    // At each step the composer's answer is known; the other arms never run.
    match composer.step(Event::Demand) {
        Action::Emit(bytes) => {
            emitted.push(bytes);
        },
        _ => {},
    }
    for chunk in it: chunks
        invariant
            it.seq() == all,
            composer.prefix == prefix,
            composer.suffix == suffix,
            composer.phase == Phase::Markup,
            emitted@.len() == 1 + it.index(),
            emitted@[0]@ == encode_utf8(prefix@),
            forall|j: int|
                0 <= j < it.index() ==> (#[trigger] emitted@[j + 1])@ == encode_utf8(all[j]@),
    {
        match composer.step(Event::Demand) {
            Action::Pull => match composer.step(Event::Chunk(chunk)) {
                Action::Emit(bytes) => {
                    emitted.push(bytes);
                },
                _ => {},
            },
            _ => {},
        }
    }
    match composer.step(Event::Demand) {
        Action::Pull => match composer.step(Event::End) {
            Action::Emit(bytes) => {
                emitted.push(bytes);
            },
            _ => {},
        },
        _ => {},
    }
    proof {
        let want = received(prefix@, texts(all), suffix@);
        assert(byte_chunks(emitted@).len() == want.len());
        assert forall|i: int| 0 <= i < want.len() implies byte_chunks(emitted@)[i] == want[i] by {
            if 0 < i < want.len() - 1 {
                assert(emitted@[(i - 1) + 1]@ == encode_utf8(all[i - 1]@));
            }
        }
        assert(byte_chunks(emitted@) =~= want);
    }
    emitted
}

/// Renders the page at once: the prefix, the markup and the suffix as one
/// run of bytes.
pub fn page(prefix: &str, markup: &str, suffix: &str) -> (bytes: Vec<u8>)
    ensures
        bytes@ == page_bytes(prefix@, markup@, suffix@),
{
    let mut text = String::from_str(prefix);
    text.append(markup);
    text.append(suffix);
    text.as_str().as_bytes_vec()
}

pub proof fn lemma_encode_concat(a: Seq<char>, b: Seq<char>)
    ensures
        encode_utf8(a + b) == encode_utf8(a) + encode_utf8(b),
    decreases a.len(),
{
    if a.len() == 0 {
        assert(a + b =~= b);
        assert(encode_utf8(a) + encode_utf8(b) =~= encode_utf8(b));
    } else {
        lemma_encode_concat(a.drop_first(), b);
        assert((a + b).drop_first() =~= a.drop_first() + b);
        assert(encode_utf8(a + b) =~= encode_utf8(a) + encode_utf8(b));
    }
}

/// The bytes of chunks, one after the other, are the bytes of their text.
pub proof fn lemma_encode_chunks(chunks: Seq<Seq<char>>)
    ensures
        chunks.map_values(|markup: Seq<char>| encode_utf8(markup)).flatten() == encode_utf8(
            chunks.flatten(),
        ),
    decreases chunks.len(),
{
    let encoded = chunks.map_values(|markup: Seq<char>| encode_utf8(markup));
    if chunks.len() > 0 {
        lemma_encode_chunks(chunks.drop_first());
        assert(encoded.drop_first() =~= chunks.drop_first().map_values(
            |markup: Seq<char>| encode_utf8(markup),
        ));
        lemma_encode_concat(chunks.first(), chunks.drop_first().flatten());
    }
}

/// What a consumer receives, put together in the order of arrival, is the
/// page rendered at once from the same prefix, markup and suffix, byte for
/// byte, however the markup is cut into chunks.
pub proof fn lemma_stream_is_page(prefix: Seq<char>, chunks: Seq<Seq<char>>, suffix: Seq<char>)
    ensures
        received(prefix, chunks, suffix).flatten() == page_bytes(
            prefix,
            chunks.flatten(),
            suffix,
        ),
{
    let first = seq![encode_utf8(prefix)];
    let middle = chunks.map_values(|markup: Seq<char>| encode_utf8(markup));
    let last = seq![encode_utf8(suffix)];
    lemma_flatten_concat(first + middle, last);
    lemma_flatten_concat(first, middle);
    first.lemma_flatten_one_element();
    last.lemma_flatten_one_element();
    lemma_encode_chunks(chunks);
    lemma_encode_concat(prefix, chunks.flatten());
    lemma_encode_concat(prefix + chunks.flatten(), suffix);
}

} // verus!
