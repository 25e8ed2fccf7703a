//! Extraction of the four fields that an item's description carries.

use crate::html::{
    attr_of, document_nodes, elements_named, find_by_name, node_attr, node_inner_html, node_text,
    parse_document, parsed_nodes, NodeFacts, MAX_FRAGMENT_CHARS,
};
use crate::text::{chars_of, contains_seq, find_first};
use vstd::prelude::*;
use vstd::string::StrSliceExecFns;

verus! {

/// The fields extracted from one description. A field whose markup is
/// missing is the empty string.
#[derive(Debug, Clone, PartialEq, Eq)]
pub struct Description {
    pub article_url: String,
    pub comments_url: String,
    pub points: String,
    pub num_comments: String,
}

pub struct DescriptionView {
    pub article_url: Seq<char>,
    pub comments_url: Seq<char>,
    pub points: Seq<char>,
    pub num_comments: Seq<char>,
}

impl View for Description {
    type V = DescriptionView;

    open spec fn view(&self) -> DescriptionView {
        DescriptionView {
            article_url: self.article_url@,
            comments_url: self.comments_url@,
            points: self.points@,
            num_comments: self.num_comments@,
        }
    }
}

/// A paragraph element as the extraction sees it.
#[derive(Debug, Clone, PartialEq, Eq)]
pub struct Paragraph {
    pub inner_html: String,
    pub text: String,
}

pub struct ParagraphView {
    pub inner_html: Seq<char>,
    pub text: Seq<char>,
}

impl DeepView for Paragraph {
    type V = ParagraphView;

    open spec fn deep_view(&self) -> ParagraphView {
        ParagraphView { inner_html: self.inner_html@, text: self.text@ }
    }
}

/// The `href` of the `n`th anchor; empty where there is no such anchor or it
/// has no `href`.
pub open spec fn href_at(hrefs: Seq<Option<Seq<char>>>, n: int) -> Seq<char> {
    if 0 <= n < hrefs.len() && hrefs[n] is Some {
        hrefs[n]->0
    } else {
        Seq::empty()
    }
}

/// The text of the first paragraph whose inner markup contains `marker`;
/// empty where no paragraph does.
pub open spec fn labelled_text(paragraphs: Seq<ParagraphView>, marker: Seq<char>) -> Seq<char>
    decreases paragraphs.len(),
{
    if paragraphs.len() == 0 {
        Seq::empty()
    } else if contains_seq(paragraphs[0].inner_html, marker) {
        paragraphs[0].text
    } else {
        labelled_text(paragraphs.skip(1), marker)
    }
}

/// The fields that the anchors and paragraphs of a description give.
pub open spec fn fields_of(
    hrefs: Seq<Option<Seq<char>>>,
    paragraphs: Seq<ParagraphView>,
) -> DescriptionView {
    DescriptionView {
        article_url: href_at(hrefs, 0),
        comments_url: href_at(hrefs, 1),
        points: labelled_text(paragraphs, "Points:"@),
        num_comments: labelled_text(paragraphs, "# Comments:"@),
    }
}

/// The `href` of each anchor element among `nodes`, in order.
pub open spec fn anchor_hrefs(nodes: Seq<NodeFacts>) -> Seq<Option<Seq<char>>> {
    elements_named(nodes, "a"@).map_values(|node: NodeFacts| attr_of(node, "href"@))
}

/// The paragraph elements among `nodes`, in order.
pub open spec fn paragraphs_of(nodes: Seq<NodeFacts>) -> Seq<ParagraphView> {
    elements_named(nodes, "p"@).map_values(
        |node: NodeFacts| ParagraphView { inner_html: node.inner_html, text: node.text },
    )
}

/// The fields of a description without any markup.
pub open spec fn empty_fields() -> DescriptionView {
    DescriptionView {
        article_url: Seq::empty(),
        comments_url: Seq::empty(),
        points: Seq::empty(),
        num_comments: Seq::empty(),
    }
}

/// The fields that a description gives. A description too long for the
/// parser gives the fields of one without markup.
pub open spec fn description_of(description: Seq<char>) -> DescriptionView {
    if description.len() <= MAX_FRAGMENT_CHARS {
        fields_of(
            anchor_hrefs(parsed_nodes(description)),
            paragraphs_of(parsed_nodes(description)),
        )
    } else {
        empty_fields()
    }
}

fn href_or_empty(hrefs: &Vec<Option<String>>, n: usize) -> (url: String)
    ensures
        url@ == href_at(hrefs.deep_view(), n as int),
{
    if n < hrefs.len() {
        assert(hrefs.deep_view()[n as int] == hrefs@[n as int].deep_view());
        match &hrefs[n] {
            Some(href) => href.clone(),
            None => String::new(),
        }
    } else {
        String::new()
    }
}

fn text_labelled(paragraphs: &Vec<Paragraph>, marker: &str) -> (text: String)
    ensures
        text@ == labelled_text(paragraphs.deep_view(), marker@),
{
    let needle = chars_of(marker);
    let ghost all = paragraphs.deep_view();
    let mut i: usize = 0;
    assert(all.skip(0) =~= all);
    while i < paragraphs.len()
        invariant
            i <= paragraphs.len(),
            all == paragraphs.deep_view(),
            needle@ == marker@,
            labelled_text(all.skip(i as int), marker@) == labelled_text(all, marker@),
        decreases paragraphs.len() - i,
    {
        let ghost rest = all.skip(i as int);
        assert(rest[0] == paragraphs@[i as int].deep_view());
        assert(rest.skip(1) =~= all.skip(i + 1));
        let markup = chars_of(paragraphs[i].inner_html.as_str());
        if find_first(markup.as_slice(), needle.as_slice()).is_some() {
            return paragraphs[i].text.clone();
        }
        i += 1;
    }
    String::new()
}

/// The fields that the anchors' `href`s and the paragraphs of a description
/// give: the first and second anchor's `href`, and the text of the first
/// paragraph that contains `Points:` and of the first that contains
/// `# Comments:`.
pub fn extract_fields(hrefs: &Vec<Option<String>>, paragraphs: &Vec<Paragraph>) -> (d: Description)
    ensures
        d@ == fields_of(hrefs.deep_view(), paragraphs.deep_view()),
{
    Description {
        article_url: href_or_empty(hrefs, 0),
        comments_url: href_or_empty(hrefs, 1),
        points: text_labelled(paragraphs, "Points:"),
        num_comments: text_labelled(paragraphs, "# Comments:"),
    }
}

/// Parses `description` as HTML and extracts its fields. Never fails:
/// whatever markup is missing leaves its field empty, and a description of
/// more than `MAX_FRAGMENT_CHARS` characters is not parsed and leaves all
/// four empty.
pub fn parse_description(description: &str) -> (d: Description)
    ensures
        d@ == description_of(description@),
{
    if description.unicode_len() > MAX_FRAGMENT_CHARS {
        return Description {
            article_url: String::new(),
            comments_url: String::new(),
            points: String::new(),
            num_comments: String::new(),
        };
    }
    let doc = parse_document(description);
    let ghost nodes = document_nodes(doc);

    let anchors = find_by_name(&doc, "a");
    let ghost anchor_nodes = elements_named(nodes, "a"@);
    let mut hrefs: Vec<Option<String>> = Vec::new();
    let mut k: usize = 0;
    while k < anchors.len()
        invariant
            k <= anchors.len(),
            nodes == document_nodes(doc),
            anchor_nodes == elements_named(nodes, "a"@),
            forall|j: int| 0 <= j < anchors@.len() ==> anchors@[j] < nodes.len(),
            anchors@.map_values(|i: usize| nodes[i as int]) == anchor_nodes,
            hrefs@.len() == k,
            forall|j: int|
                0 <= j < k ==> (#[trigger] hrefs@[j]).deep_view() == attr_of(
                    anchor_nodes[j],
                    "href"@,
                ),
        decreases anchors.len() - k,
    {
        assert(anchors@.map_values(|i: usize| nodes[i as int])[k as int] == nodes[anchors@[k as int] as int]);
        let href = node_attr(&doc, anchors[k], "href");
        hrefs.push(href);
        k += 1;
    }
    assert(hrefs.deep_view() =~= anchor_hrefs(nodes)) by {
        assert(anchor_nodes.len() == anchors@.len());
        assert forall|j: int| 0 <= j < hrefs@.len() implies hrefs.deep_view()[j] == anchor_hrefs(
            nodes,
        )[j] by {
            assert(hrefs.deep_view()[j] == hrefs@[j].deep_view());
        }
    }

    let blocks = find_by_name(&doc, "p");
    let ghost block_nodes = elements_named(nodes, "p"@);
    let mut paragraphs: Vec<Paragraph> = Vec::new();
    let mut k: usize = 0;
    while k < blocks.len()
        invariant
            k <= blocks.len(),
            nodes == document_nodes(doc),
            block_nodes == elements_named(nodes, "p"@),
            forall|j: int| 0 <= j < blocks@.len() ==> blocks@[j] < nodes.len(),
            blocks@.map_values(|i: usize| nodes[i as int]) == block_nodes,
            paragraphs@.len() == k,
            forall|j: int|
                0 <= j < k ==> (#[trigger] paragraphs@[j]).deep_view() == (ParagraphView {
                    inner_html: block_nodes[j].inner_html,
                    text: block_nodes[j].text,
                }),
        decreases blocks.len() - k,
    {
        assert(blocks@.map_values(|i: usize| nodes[i as int])[k as int] == nodes[blocks@[k as int] as int]);
        let inner_html = node_inner_html(&doc, blocks[k]);
        let text = node_text(&doc, blocks[k]);
        paragraphs.push(Paragraph { inner_html, text });
        k += 1;
    }
    assert(paragraphs.deep_view() =~= paragraphs_of(nodes)) by {
        assert(block_nodes.len() == blocks@.len());
        assert forall|j: int| 0 <= j < paragraphs@.len() implies paragraphs.deep_view()[j]
            == paragraphs_of(nodes)[j] by {
            assert(paragraphs.deep_view()[j] == paragraphs@[j].deep_view());
        }
    }

    extract_fields(&hrefs, &paragraphs)
}

/// Where a paragraph contains `marker` and none before it does, the
/// labelled text is that paragraph's.
pub proof fn lemma_labelled_text_is_first(
    paragraphs: Seq<ParagraphView>,
    marker: Seq<char>,
    at: int,
)
    requires
        0 <= at < paragraphs.len(),
        contains_seq(paragraphs[at].inner_html, marker),
        forall|j: int| 0 <= j < at ==> !contains_seq(paragraphs[j].inner_html, marker),
    ensures
        labelled_text(paragraphs, marker) == paragraphs[at].text,
    decreases at,
{
    if at > 0 {
        let rest = paragraphs.skip(1);
        assert(!contains_seq(paragraphs[0].inner_html, marker));
        assert forall|j: int| 0 <= j < at - 1 implies !contains_seq(rest[j].inner_html, marker) by {
            assert(rest[j] == paragraphs[j + 1]);
        }
        assert(rest[at - 1] == paragraphs[at]);
        lemma_labelled_text_is_first(rest, marker, at - 1);
    }
}

/// Where no paragraph contains `marker`, the labelled text is empty.
pub proof fn lemma_labelled_text_is_empty(paragraphs: Seq<ParagraphView>, marker: Seq<char>)
    requires
        forall|j: int| 0 <= j < paragraphs.len() ==> !contains_seq(paragraphs[j].inner_html, marker),
    ensures
        labelled_text(paragraphs, marker) == Seq::<char>::empty(),
    decreases paragraphs.len(),
{
    if paragraphs.len() > 0 {
        let rest = paragraphs.skip(1);
        assert(!contains_seq(paragraphs[0].inner_html, marker));
        assert forall|j: int| 0 <= j < rest.len() implies !contains_seq(rest[j].inner_html, marker) by {
            assert(rest[j] == paragraphs[j + 1]);
        }
        lemma_labelled_text_is_empty(rest, marker);
    }
}

/// A description without any anchor element has an empty article link and
/// an empty comments link.
pub proof fn lemma_no_anchor_no_links(description: Seq<char>)
    requires
        elements_named(parsed_nodes(description), "a"@).len() == 0,
    ensures
        description_of(description).article_url == Seq::<char>::empty(),
        description_of(description).comments_url == Seq::<char>::empty(),
{
}

/// A description with exactly one anchor element has an empty comments link,
/// and its article link is that anchor's `href` (empty where the anchor has
/// none), as long as the description is short enough to be parsed.
pub proof fn lemma_single_anchor(description: Seq<char>)
    requires
        description.len() <= MAX_FRAGMENT_CHARS,
        elements_named(parsed_nodes(description), "a"@).len() == 1,
    ensures
        description_of(description).comments_url == Seq::<char>::empty(),
        description_of(description).article_url == match attr_of(
            elements_named(parsed_nodes(description), "a"@)[0],
            "href"@,
        ) {
            Some(href) => href,
            None => Seq::<char>::empty(),
        },
{
}

} // verus!
