//! Ranking: items annotated with their extracted fields and score, ordered
//! by score, highest first, with the feed's order among equal scores.

use crate::extract::{
    description_of, empty_fields, parse_description, Description, DescriptionView,
};
use crate::feed::Item;
use crate::score::{score, score_of};
use vstd::prelude::*;
use vstd::set_lib::{lemma_int_range, lemma_subset_equality, set_int_range};

verus! {

/// An item with the fields extracted from its description and the score
/// that its points text gives.
#[derive(Debug, Clone, PartialEq, Eq)]
pub struct RankedItem {
    pub item: Item,
    pub description: Description,
    pub score: i128,
}

/// The fields that an item's description gives. An item without a
/// description has the fields of one without markup.
pub open spec fn fields_for(description: Option<Seq<char>>) -> DescriptionView {
    match description {
        Some(d) => description_of(d),
        None => empty_fields(),
    }
}

impl RankedItem {
    /// The annotation agrees with the item: the fields are those of its
    /// description, and the score is that of its points text.
    pub open spec fn wf(&self) -> bool {
        &&& self.description@ == fields_for(self.item.description.deep_view())
        &&& self.score == score_of(self.description.points@)
    }
}

/// `ranked` is `item` with its annotation.
pub open spec fn annotates(item: Item, ranked: RankedItem) -> bool {
    ranked.item == item && ranked.wf()
}

/// `annotated` holds the items of `items`, in order, each with its
/// annotation.
pub open spec fn annotates_all(items: Seq<Item>, annotated: Seq<RankedItem>) -> bool {
    &&& annotated.len() == items.len()
    &&& forall|i: int| 0 <= i < items.len() ==> annotates(items[i], #[trigger] annotated[i])
}

/// `p` lists each of the indices `0..n` once.
pub open spec fn is_index_permutation(p: Seq<int>, n: nat) -> bool {
    &&& p.len() == n
    &&& forall|k: int| 0 <= k < n ==> 0 <= #[trigger] p[k] < n
    &&& forall|j: int, k: int| 0 <= j < k < n ==> p[j] != p[k]
}

/// An item of score `a` at position `i` of the feed comes before one of
/// score `b` at position `j`: the higher score first, and of two equal
/// scores the earlier position.
pub open spec fn ranks_before(a: int, i: int, b: int, j: int) -> bool {
    a > b || (a == b && i < j)
}

/// `ranked` holds the items of `items` in ranking order, `ranked[k]` being
/// `items[p[k]]`.
pub open spec fn ranks_by(items: Seq<RankedItem>, ranked: Seq<RankedItem>, p: Seq<int>) -> bool {
    &&& is_index_permutation(p, items.len())
    &&& ranked.len() == items.len()
    &&& forall|k: int| 0 <= k < ranked.len() ==> #[trigger] ranked[k] == items[p[k]]
    &&& forall|j: int, k: int|
        #![trigger ranked[j], ranked[k]]
        0 <= j < k < ranked.len() ==> ranks_before(
            ranked[j].score as int,
            p[j],
            ranked[k].score as int,
            p[k],
        )
}

/// `ranked` is `items` reordered by descending score, items of equal score
/// keeping the order that they have in `items`.
pub open spec fn is_ranking(items: Seq<RankedItem>, ranked: Seq<RankedItem>) -> bool {
    exists|p: Seq<int>| ranks_by(items, ranked, p)
}

/// Extracts the fields of the item's description and scores them.
pub fn annotate(item: Item) -> (ranked: RankedItem)
    ensures
        annotates(item, ranked),
{
    let description = match &item.description {
        Some(html) => parse_description(html.as_str()),
        None => Description {
            article_url: String::new(),
            comments_url: String::new(),
            points: String::new(),
            num_comments: String::new(),
        },
    };
    let score = score(description.points.as_str());
    RankedItem { item, description, score }
}

/// Annotates every item, keeping the order.
pub fn annotate_all(items: Vec<Item>) -> (annotated: Vec<RankedItem>)
    ensures
        annotates_all(items@, annotated@),
{
    let ghost all = items@;
    let mut annotated: Vec<RankedItem> = Vec::new();
    for item in it: items
        invariant
            it.seq() == all,
            annotated@.len() == it.index(),
            forall|i: int| 0 <= i < annotated@.len() ==> annotates(all[i], #[trigger] annotated@[i]),
    {
        annotated.push(annotate(item));
    }
    annotated
}

/// Orders the items by descending score. Items of equal score keep the
/// order in which they came.
pub fn rank(items: Vec<RankedItem>) -> (ranked: Vec<RankedItem>)
    ensures
        is_ranking(items@, ranked@),
{
    let ghost all = items@;
    let mut rest = items;
    let mut ranked: Vec<RankedItem> = Vec::new();
    let ghost mut p: Seq<int> = Seq::empty();
    // The items are taken from the back, and each goes in front of those
    // already placed whose score is not higher than its own.
    while rest.len() > 0
        invariant
            rest@.len() <= all.len(),
            rest@ == all.take(rest@.len() as int),
            ranked@.len() == all.len() - rest@.len(),
            p.len() == ranked@.len(),
            forall|k: int| 0 <= k < p.len() ==> rest@.len() <= #[trigger] p[k] < all.len(),
            forall|k: int| 0 <= k < p.len() ==> #[trigger] ranked@[k] == all[p[k]],
            forall|j: int, k: int|
                #![trigger ranked@[j], ranked@[k]]
                0 <= j < k < p.len() ==> ranks_before(
                    ranked@[j].score as int,
                    p[j],
                    ranked@[k].score as int,
                    p[k],
                ),
        decreases rest@.len(),
    {
        let item = rest.pop().unwrap();
        let ghost m = rest@.len() as int;
        assert(item == all[m]);
        assert(rest@ =~= all.take(m));
        let mut pos: usize = 0;
        while pos < ranked.len() && ranked[pos].score > item.score
            invariant
                pos <= ranked.len(),
                forall|j: int| 0 <= j < pos ==> (#[trigger] ranked@[j]).score > item.score,
            decreases ranked.len() - pos,
        {
            pos += 1;
        }
        let ghost placed = ranked@;
        let ghost earlier = p;
        ranked.insert(pos, item);
        proof {
            p = earlier.insert(pos as int, m);
            assert forall|j: int, k: int|
                #![trigger ranked@[j], ranked@[k]]
                0 <= j < k < p.len() implies ranks_before(
                ranked@[j].score as int,
                p[j],
                ranked@[k].score as int,
                p[k],
            ) by {
                if k < pos {
                    assert(ranked@[j] == placed[j] && ranked@[k] == placed[k]);
                } else if k == pos {
                    assert(ranked@[j] == placed[j]);
                } else if j < pos {
                    assert(ranked@[j] == placed[j] && ranked@[k] == placed[k - 1]);
                } else if j == pos {
                    assert(ranked@[k] == placed[k - 1]);
                    assert(p[k] == earlier[k - 1]);
                    if pos < k - 1 {
                        assert(ranks_before(
                            placed[pos as int].score as int,
                            earlier[pos as int],
                            placed[k - 1].score as int,
                            earlier[k - 1],
                        ));
                    }
                } else {
                    assert(ranked@[j] == placed[j - 1] && ranked@[k] == placed[k - 1]);
                }
            }
        }
    }
    proof {
        assert forall|j: int, k: int| 0 <= j < k < p.len() implies p[j] != p[k] by {
            // Two places with one index would hold one item, and a score
            // that is higher than itself or an index that is less than itself.
            assert(ranked@[j] == all[p[j]] && ranked@[k] == all[p[k]]);
        }
        assert(ranks_by(all, ranked@, p));
    }
    ranked
}

/// Annotates the items of a feed and ranks them.
pub fn rank_items(items: Vec<Item>) -> (ranked: Vec<RankedItem>)
    ensures
        exists|annotated: Seq<RankedItem>|
            annotates_all(items@, annotated) && is_ranking(annotated, ranked@),
{
    let annotated = annotate_all(items);
    rank(annotated)
}

/// A list that holds each of the indices `0..n` once holds every one of them.
proof fn lemma_permutation_holds_each(p: Seq<int>, n: nat, i: int)
    requires
        is_index_permutation(p, n),
        0 <= i < n,
    ensures
        exists|k: int| 0 <= k < n && p[k] == i,
{
    assert(p.no_duplicates());
    p.unique_seq_to_set();
    vstd::seq_lib::seq_to_set_is_finite(p);
    lemma_int_range(0, n as int);
    assert(p.to_set().subset_of(set_int_range(0, n as int)));
    lemma_subset_equality(p.to_set(), set_int_range(0, n as int));
    assert(set_int_range(0, n as int).contains(i));
    assert(p.to_set().contains(i));
    let k = choose|k: int| 0 <= k < p.len() && p[k] == i;
    assert(0 <= k < n && p[k] == i);
}

/// The scores of `a` and `b` agree place by place.
pub open spec fn same_scores(a: Seq<RankedItem>, b: Seq<RankedItem>) -> bool {
    &&& a.len() == b.len()
    &&& forall|i: int| 0 <= i < a.len() ==> (#[trigger] a[i]).score == b[i].score
}

/// Rankings of two lists with the same scores place the same index at each
/// of the first `upto` positions.
proof fn lemma_rankings_agree(
    items_a: Seq<RankedItem>,
    a: Seq<RankedItem>,
    pa: Seq<int>,
    items_b: Seq<RankedItem>,
    b: Seq<RankedItem>,
    pb: Seq<int>,
    upto: int,
)
    requires
        ranks_by(items_a, a, pa),
        ranks_by(items_b, b, pb),
        same_scores(items_a, items_b),
        0 <= upto <= items_a.len(),
    ensures
        forall|k: int| 0 <= k < upto ==> pa[k] == pb[k],
    decreases upto,
{
    if upto > 0 {
        lemma_rankings_agree(items_a, a, pa, items_b, b, pb, upto - 1);
        let here = upto - 1;
        let x = pa[here];
        let y = pb[here];
        if x != y {
            lemma_permutation_holds_each(pb, items_b.len(), x);
            lemma_permutation_holds_each(pa, items_a.len(), y);
            let t = choose|t: int| 0 <= t < items_b.len() && pb[t] == x;
            let s = choose|s: int| 0 <= s < items_a.len() && pa[s] == y;
            // Neither index stands earlier, where the rankings agree.
            assert(t > here) by {
                if t < here {
                    assert(pa[t] == pb[t]);
                }
            }
            assert(s > here) by {
                if s < here {
                    assert(pa[s] == pb[s]);
                }
            }
            // So each ranking puts its own of the two before the other.
            assert(a[here] == items_a[x] && a[s] == items_a[y]);
            assert(b[here] == items_b[y] && b[t] == items_b[x]);
            assert(items_a[x].score == items_b[x].score);
            assert(items_a[y].score == items_b[y].score);
            assert(ranks_before(a[here].score as int, pa[here], a[s].score as int, pa[s]));
            assert(ranks_before(b[here].score as int, pb[here], b[t].score as int, pb[t]));
            assert(false);
        }
    }
}

/// The order of a ranking follows from the scores alone: rankings of two
/// lists with the same scores take their items from the same places.
pub proof fn lemma_ranking_follows_scores(
    items_a: Seq<RankedItem>,
    a: Seq<RankedItem>,
    items_b: Seq<RankedItem>,
    b: Seq<RankedItem>,
)
    requires
        is_ranking(items_a, a),
        is_ranking(items_b, b),
        same_scores(items_a, items_b),
    ensures
        exists|p: Seq<int>| ranks_by(items_a, a, p) && ranks_by(items_b, b, p),
{
    let pa = choose|p: Seq<int>| ranks_by(items_a, a, p);
    let pb = choose|p: Seq<int>| ranks_by(items_b, b, p);
    lemma_rankings_agree(items_a, a, pa, items_b, b, pb, items_a.len() as int);
    assert(pa =~= pb);
}

/// The ranking of a list of items is unique: two lists that both hold the
/// items by descending score, equal scores in their first order, are equal.
pub proof fn lemma_ranking_is_unique(items: Seq<RankedItem>, a: Seq<RankedItem>, b: Seq<RankedItem>)
    requires
        is_ranking(items, a),
        is_ranking(items, b),
    ensures
        a == b,
{
    lemma_ranking_follows_scores(items, a, items, b);
    assert(a =~= b);
}

/// A ranking is descending: no item stands before one of higher score.
pub proof fn lemma_ranking_is_descending(items: Seq<RankedItem>, ranked: Seq<RankedItem>)
    requires
        is_ranking(items, ranked),
    ensures
        forall|j: int, k: int|
            #![trigger ranked[j], ranked[k]]
            0 <= j < k < ranked.len() ==> ranked[j].score >= ranked[k].score,
{
    let p = choose|p: Seq<int>| ranks_by(items, ranked, p);
    assert forall|j: int, k: int|
        #![trigger ranked[j], ranked[k]]
        0 <= j < k < ranked.len() implies ranked[j].score >= ranked[k].score by {
        assert(ranks_before(ranked[j].score as int, p[j], ranked[k].score as int, p[k]));
    }
}

/// A ranking is stable: of two items of equal score, the one that stands
/// first in `items` stands first in the ranking.
pub proof fn lemma_ranking_is_stable(
    items: Seq<RankedItem>,
    ranked: Seq<RankedItem>,
    first: int,
    second: int,
)
    requires
        is_ranking(items, ranked),
        0 <= first < second < items.len(),
        items[first].score == items[second].score,
    ensures
        exists|j: int, k: int|
            0 <= j < k < ranked.len() && ranked[j] == items[first] && ranked[k] == items[second],
{
    let p = choose|p: Seq<int>| ranks_by(items, ranked, p);
    lemma_permutation_holds_each(p, items.len(), first);
    lemma_permutation_holds_each(p, items.len(), second);
    let j = choose|j: int| 0 <= j < items.len() && p[j] == first;
    let k = choose|k: int| 0 <= k < items.len() && p[k] == second;
    assert(ranked[j] == items[first] && ranked[k] == items[second]);
    if k < j {
        assert(ranks_before(ranked[k].score as int, p[k], ranked[j].score as int, p[j]));
    }
    assert(j < k);
}

} // verus!
