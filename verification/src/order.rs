//! The orderings the site models present: items newest first, and titles
//! in lexicographic order, each produced by a stable insertion sort whose
//! exact result is pinned at the specification level.

use vstd::prelude::*;
use crate::site::Item;
use crate::site::SiteItemV;
use crate::site::SiteSourceV;
use crate::site::Source as SiteSource;
use crate::text::lex_le;
use crate::text::lex_lt;
use crate::text::lemma_lex_le_total;
use crate::text::str_le;
use crate::views;

verus! {

// ---------------------------------------------------------------------------
// Items, newest first
// ---------------------------------------------------------------------------
/// Items ordered by timestamp, newest first.
pub open spec fn items_sorted_desc(s: Seq<SiteItemV>) -> bool {
    forall|i: int, j: int| 0 <= i <= j < s.len() ==> s[i].timestamp >= s[j].timestamp
}

/// Stable insertion of an item into a newest-first sequence: the new item
/// goes after every item at least as recent.
pub open spec fn insert_item_desc(s: Seq<SiteItemV>, x: SiteItemV) -> Seq<SiteItemV>
    decreases s.len(),
{
    if s.len() == 0 {
        seq![x]
    } else if s[0].timestamp >= x.timestamp {
        seq![s[0]] + insert_item_desc(s.drop_first(), x)
    } else {
        seq![x] + s
    }
}

/// The stable newest-first sort of an item sequence.
pub open spec fn sort_items_desc(s: Seq<SiteItemV>) -> Seq<SiteItemV>
    decreases s.len(),
{
    if s.len() == 0 {
        Seq::empty()
    } else {
        insert_item_desc(sort_items_desc(s.drop_last()), s.last())
    }
}

/// Inserting at the first position whose item is strictly older matches
/// the specification-level insertion.
pub proof fn lemma_insert_item_desc_at(s: Seq<SiteItemV>, x: SiteItemV, j: int)
    requires
        0 <= j <= s.len(),
        forall|k: int| 0 <= k < j ==> s[k].timestamp >= x.timestamp,
        j < s.len() ==> s[j].timestamp < x.timestamp,
    ensures
        insert_item_desc(s, x) == s.insert(j, x),
    decreases j,
{
    if j == 0 {
        if s.len() == 0 {
            assert(insert_item_desc(s, x) =~= s.insert(0, x));
        } else {
            assert(s[0].timestamp < x.timestamp);
            assert(insert_item_desc(s, x) =~= s.insert(0, x));
        }
    } else {
        assert(s[0].timestamp >= x.timestamp);
        assert(forall|k: int| 0 <= k < j - 1 ==> s.drop_first()[k] == s[k + 1]);
        lemma_insert_item_desc_at(s.drop_first(), x, j - 1);
        assert(insert_item_desc(s, x) =~= s.insert(j, x));
    }
}

/// Insertion keeps the newest-first order, adds exactly the new item, and
/// invents no items.
pub proof fn lemma_insert_item_desc_props(s: Seq<SiteItemV>, x: SiteItemV)
    requires
        items_sorted_desc(s),
    ensures
        items_sorted_desc(insert_item_desc(s, x)),
        insert_item_desc(s, x).to_multiset() == s.to_multiset().insert(x),
        insert_item_desc(s, x).len() == s.len() + 1,
        forall|y: SiteItemV| insert_item_desc(s, x).contains(y) ==> s.contains(y) || y == x,
    decreases s.len(),
{
    broadcast use vstd::seq_lib::group_to_multiset_ensures;

    let r = insert_item_desc(s, x);
    if s.len() == 0 {
        assert(r =~= Seq::<SiteItemV>::empty().push(x));
        assert(s.to_multiset() =~= Seq::<SiteItemV>::empty().to_multiset());
        assert(r.to_multiset() =~= s.to_multiset().insert(x));
        assert(forall|y: SiteItemV| r.contains(y) ==> y == x);
    } else if s[0].timestamp >= x.timestamp {
        let tail = insert_item_desc(s.drop_first(), x);
        assert(items_sorted_desc(s.drop_first())) by {
            assert(forall|k: int| 0 <= k < s.drop_first().len() ==> s.drop_first()[k] == s[k + 1]);
        }
        lemma_insert_item_desc_props(s.drop_first(), x);
        assert(r =~= tail.insert(0, s[0]));
        assert(r.to_multiset() == tail.to_multiset().insert(s[0]));
        assert(s =~= s.drop_first().insert(0, s[0]));
        assert(s.to_multiset() == s.drop_first().to_multiset().insert(s[0]));
        assert(tail.to_multiset() == s.drop_first().to_multiset().insert(x));
        assert(s.drop_first().to_multiset().insert(x).insert(s[0]) =~= s.drop_first().to_multiset()
            .insert(s[0]).insert(x));
        // every element of r is an element of s or is x
        assert forall|y: SiteItemV| r.contains(y) implies s.contains(y) || y == x by {
            let j = choose|j: int| 0 <= j < r.len() && r[j] == y;
            if j == 0 {
                assert(s.contains(s[0]));
            } else {
                assert(tail.contains(tail[j - 1]));
                if tail[j - 1] == x {
                } else {
                    assert(s.drop_first().contains(tail[j - 1]));
                    let k = choose|k: int|
                        0 <= k < s.drop_first().len() && s.drop_first()[k] == tail[j - 1];
                    assert(s[k + 1] == tail[j - 1]);
                    assert(s.contains(s[k + 1]));
                }
            }
        }
        // the head is at least as recent as everything behind it
        assert forall|i: int, j: int| 0 <= i <= j < r.len() implies r[i].timestamp
            >= r[j].timestamp by {
            if i == 0 {
                if j > 0 {
                    assert(r[j] == tail[j - 1]);
                    assert(tail.contains(tail[j - 1]));
                    if tail[j - 1] == x {
                        assert(s[0].timestamp >= x.timestamp);
                    } else {
                        assert(s.drop_first().contains(tail[j - 1]));
                        let k = choose|k: int|
                            0 <= k < s.drop_first().len() && s.drop_first()[k] == tail[j - 1];
                        assert(s[k + 1] == tail[j - 1]);
                        assert(s[0].timestamp >= s[k + 1].timestamp);
                    }
                }
            } else {
                assert(r[i] == tail[i - 1] && r[j] == tail[j - 1]);
                assert(tail[i - 1].timestamp >= tail[j - 1].timestamp);
            }
        }
    } else {
        assert(r =~= s.insert(0, x));
        assert(r.to_multiset() == s.to_multiset().insert(x));
        assert forall|i: int, j: int| 0 <= i <= j < r.len() implies r[i].timestamp
            >= r[j].timestamp by {
            if i == 0 && j > 0 {
                assert(r[j] == s[j - 1]);
                assert(x.timestamp > s[0].timestamp);
                assert(s[0].timestamp >= s[j - 1].timestamp);
            } else if i > 0 {
                assert(r[i] == s[i - 1] && r[j] == s[j - 1]);
            }
        }
        assert forall|y: SiteItemV| r.contains(y) implies s.contains(y) || y == x by {
            let j = choose|j: int| 0 <= j < r.len() && r[j] == y;
            if j > 0 {
                assert(s.contains(s[j - 1]));
            }
        }
    }
}

/// The sort yields a newest-first permutation of its argument.
pub proof fn lemma_sort_items_desc_props(s: Seq<SiteItemV>)
    ensures
        items_sorted_desc(sort_items_desc(s)),
        sort_items_desc(s).to_multiset() == s.to_multiset(),
        sort_items_desc(s).len() == s.len(),
    decreases s.len(),
{
    broadcast use vstd::seq_lib::group_to_multiset_ensures;

    if s.len() > 0 {
        lemma_sort_items_desc_props(s.drop_last());
        lemma_insert_item_desc_props(sort_items_desc(s.drop_last()), s.last());
        assert(s =~= s.drop_last().push(s.last()));
        assert(s.to_multiset() == s.drop_last().to_multiset().insert(s.last()));
    }
}

/// Sorts site items newest first, keeping the arrival order of items with
/// equal timestamps.
pub fn sort_items_by_recency(items: Vec<Item>) -> (r: Vec<Item>)
    ensures
        views(r@) == sort_items_desc(views(items@)),
{
    let ghost orig: Seq<Item> = items@;
    let mut rest = items;
    let mut out: Vec<Item> = Vec::new();
    let ghost mut taken: int = 0;
    proof {
        assert(views(orig.take(0)) =~= Seq::<SiteItemV>::empty());
    }
    #[verifier::loop_isolation(false)]
    while rest.len() > 0
        invariant
            0 <= taken <= orig.len(),
            rest@ == orig.skip(taken),
            views(out@) == sort_items_desc(views(orig.take(taken))),
        decreases rest@.len(),
    {
        let x = rest.remove(0);
        proof {
            assert(orig.skip(taken)[0] == orig[taken]);
            lemma_sort_items_desc_props(views(orig.take(taken)));
        }
        let mut j: usize = 0;
        #[verifier::loop_isolation(false)]
        while j < out.len() && out[j].timestamp >= x.timestamp
            invariant
                0 <= j <= out.len(),
                forall|k: int| 0 <= k < j ==> views(out@)[k].timestamp >= x@.timestamp,
            decreases out.len() - j,
        {
            j = j + 1;
        }
        let ghost prev_vec = out@;
        let ghost xv = x@;
        proof {
            lemma_insert_item_desc_at(views(out@), xv, j as int);
            crate::lemma_views_insert(prev_vec, j as int, x);
        }
        out.insert(j, x);
        proof {
            assert(views(out@) == views(prev_vec).insert(j as int, xv));
            assert(views(out@) == insert_item_desc(views(prev_vec), xv));
            assert(views(orig.take(taken + 1)) =~= views(orig.take(taken)).push(orig[taken]@));
            assert(views(orig.take(taken + 1)).drop_last() =~= views(orig.take(taken)));
            taken = taken + 1;
            assert(rest@ =~= orig.skip(taken));
            assert(views(out@) == sort_items_desc(views(orig.take(taken))));
        }
    }
    proof {
        assert(orig.take(taken) =~= orig);
    }
    out
}

// ---------------------------------------------------------------------------
// Source listings, by title
// ---------------------------------------------------------------------------
/// Source models ordered by title, lexicographically ascending.
pub open spec fn sources_sorted_by_title(s: Seq<SiteSourceV>) -> bool {
    forall|i: int, j: int| 0 <= i <= j < s.len() ==> lex_le(s[i].title, s[j].title)
}

/// Stable insertion of a source model into a title-sorted sequence.
pub open spec fn insert_source_by_title(s: Seq<SiteSourceV>, x: SiteSourceV) -> Seq<SiteSourceV>
    decreases s.len(),
{
    if s.len() == 0 {
        seq![x]
    } else if lex_le(s[0].title, x.title) {
        seq![s[0]] + insert_source_by_title(s.drop_first(), x)
    } else {
        seq![x] + s
    }
}

/// The stable title sort of a source model sequence.
pub open spec fn sort_sources_by_title_spec(s: Seq<SiteSourceV>) -> Seq<SiteSourceV>
    decreases s.len(),
{
    if s.len() == 0 {
        Seq::empty()
    } else {
        insert_source_by_title(sort_sources_by_title_spec(s.drop_last()), s.last())
    }
}

/// Inserting at the first position whose title is strictly greater
/// matches the specification-level insertion.
pub proof fn lemma_insert_source_at(s: Seq<SiteSourceV>, x: SiteSourceV, j: int)
    requires
        0 <= j <= s.len(),
        forall|k: int| 0 <= k < j ==> lex_le(s[k].title, x.title),
        j < s.len() ==> !lex_le(s[j].title, x.title),
    ensures
        insert_source_by_title(s, x) == s.insert(j, x),
    decreases j,
{
    if j == 0 {
        if s.len() == 0 {
            assert(insert_source_by_title(s, x) =~= s.insert(0, x));
        } else {
            assert(insert_source_by_title(s, x) =~= s.insert(0, x));
        }
    } else {
        assert(lex_le(s[0].title, x.title));
        assert(forall|k: int| 0 <= k < j - 1 ==> s.drop_first()[k] == s[k + 1]);
        lemma_insert_source_at(s.drop_first(), x, j - 1);
        assert(insert_source_by_title(s, x) =~= s.insert(j, x));
    }
}

/// Insertion keeps the title order, adds exactly the new source, and
/// invents no sources.
pub proof fn lemma_insert_source_props(s: Seq<SiteSourceV>, x: SiteSourceV)
    requires
        sources_sorted_by_title(s),
    ensures
        sources_sorted_by_title(insert_source_by_title(s, x)),
        insert_source_by_title(s, x).to_multiset() == s.to_multiset().insert(x),
        insert_source_by_title(s, x).len() == s.len() + 1,
        forall|y: SiteSourceV| insert_source_by_title(s, x).contains(y) ==> s.contains(y) || y
            == x,
    decreases s.len(),
{
    broadcast use vstd::seq_lib::group_to_multiset_ensures;

    let r = insert_source_by_title(s, x);
    if s.len() == 0 {
        lemma_lex_le_total(x.title, x.title);
        assert(r =~= Seq::<SiteSourceV>::empty().push(x));
        assert(s.to_multiset() =~= Seq::<SiteSourceV>::empty().to_multiset());
        assert(r.to_multiset() =~= s.to_multiset().insert(x));
        assert(forall|y: SiteSourceV| r.contains(y) ==> y == x);
    } else if lex_le(s[0].title, x.title) {
        let tail = insert_source_by_title(s.drop_first(), x);
        assert(sources_sorted_by_title(s.drop_first())) by {
            assert(forall|k: int| 0 <= k < s.drop_first().len() ==> s.drop_first()[k] == s[k + 1]);
        }
        lemma_insert_source_props(s.drop_first(), x);
        assert(r =~= tail.insert(0, s[0]));
        assert(r.to_multiset() == tail.to_multiset().insert(s[0]));
        assert(s =~= s.drop_first().insert(0, s[0]));
        assert(s.to_multiset() == s.drop_first().to_multiset().insert(s[0]));
        assert(tail.to_multiset() == s.drop_first().to_multiset().insert(x));
        assert(s.drop_first().to_multiset().insert(x).insert(s[0]) =~= s.drop_first().to_multiset()
            .insert(s[0]).insert(x));
        assert forall|y: SiteSourceV| r.contains(y) implies s.contains(y) || y == x by {
            let j = choose|j: int| 0 <= j < r.len() && r[j] == y;
            if j == 0 {
                assert(s.contains(s[0]));
            } else {
                assert(tail.contains(tail[j - 1]));
                if tail[j - 1] != x {
                    assert(s.drop_first().contains(tail[j - 1]));
                    let k = choose|k: int|
                        0 <= k < s.drop_first().len() && s.drop_first()[k] == tail[j - 1];
                    assert(s[k + 1] == tail[j - 1]);
                    assert(s.contains(s[k + 1]));
                }
            }
        }
        assert forall|i: int, j: int| 0 <= i <= j < r.len() implies lex_le(
            r[i].title,
            r[j].title,
        ) by {
            lemma_lex_le_total(r[i].title, r[i].title);
            if i == 0 {
                if j > 0 {
                    assert(r[j] == tail[j - 1]);
                    assert(tail.contains(tail[j - 1]));
                    if tail[j - 1] == x {
                        assert(lex_le(s[0].title, x.title));
                    } else {
                        assert(s.drop_first().contains(tail[j - 1]));
                        let k = choose|k: int|
                            0 <= k < s.drop_first().len() && s.drop_first()[k] == tail[j - 1];
                        assert(s[k + 1] == tail[j - 1]);
                        assert(lex_le(s[0].title, s[k + 1].title));
                    }
                } else {
                    lemma_lex_le_total(r[0].title, r[0].title);
                }
            } else {
                assert(r[i] == tail[i - 1] && r[j] == tail[j - 1]);
                assert(lex_le(tail[i - 1].title, tail[j - 1].title));
            }
        }
    } else {
        assert(r =~= s.insert(0, x));
        assert(r.to_multiset() == s.to_multiset().insert(x));
        lemma_lex_le_total(s[0].title, x.title);
        assert(lex_le(x.title, s[0].title));
        assert forall|i: int, j: int| 0 <= i <= j < r.len() implies lex_le(
            r[i].title,
            r[j].title,
        ) by {
            if i == 0 && j > 0 {
                assert(r[j] == s[j - 1]);
                assert(lex_le(s[0].title, s[j - 1].title));
                crate::text::lemma_lex_le_transitive(x.title, s[0].title, s[j - 1].title);
            } else if i == 0 && j == 0 {
                lemma_lex_le_total(r[0].title, r[0].title);
            } else {
                assert(r[i] == s[i - 1] && r[j] == s[j - 1]);
            }
        }
        assert forall|y: SiteSourceV| r.contains(y) implies s.contains(y) || y == x by {
            let j = choose|j: int| 0 <= j < r.len() && r[j] == y;
            if j > 0 {
                assert(s.contains(s[j - 1]));
            }
        }
    }
}

/// The sort yields a title-ordered permutation of its argument.
pub proof fn lemma_sort_sources_props(s: Seq<SiteSourceV>)
    ensures
        sources_sorted_by_title(sort_sources_by_title_spec(s)),
        sort_sources_by_title_spec(s).to_multiset() == s.to_multiset(),
        sort_sources_by_title_spec(s).len() == s.len(),
    decreases s.len(),
{
    broadcast use vstd::seq_lib::group_to_multiset_ensures;

    if s.len() > 0 {
        lemma_sort_sources_props(s.drop_last());
        lemma_insert_source_props(sort_sources_by_title_spec(s.drop_last()), s.last());
        assert(s =~= s.drop_last().push(s.last()));
        assert(s.to_multiset() == s.drop_last().to_multiset().insert(s.last()));
    }
}

/// Sorts source models by title, keeping the arrival order of sources
/// with equal titles.
pub fn sort_sources_by_title(sources: Vec<SiteSource>) -> (r: Vec<SiteSource>)
    ensures
        views(r@) == sort_sources_by_title_spec(views(sources@)),
{
    let ghost orig: Seq<SiteSource> = sources@;
    let mut rest = sources;
    let mut out: Vec<SiteSource> = Vec::new();
    let ghost mut taken: int = 0;
    proof {
        assert(views(orig.take(0)) =~= Seq::<SiteSourceV>::empty());
    }
    #[verifier::loop_isolation(false)]
    while rest.len() > 0
        invariant
            0 <= taken <= orig.len(),
            rest@ == orig.skip(taken),
            views(out@) == sort_sources_by_title_spec(views(orig.take(taken))),
        decreases rest@.len(),
    {
        let x = rest.remove(0);
        proof {
            assert(orig.skip(taken)[0] == orig[taken]);
            lemma_sort_sources_props(views(orig.take(taken)));
        }
        let mut j: usize = 0;
        #[verifier::loop_isolation(false)]
        while j < out.len() && str_le(out[j].title.as_str(), x.title.as_str())
            invariant
                0 <= j <= out.len(),
                forall|k: int| 0 <= k < j ==> lex_le(views(out@)[k].title, x@.title),
            decreases out.len() - j,
        {
            j = j + 1;
        }
        let ghost prev_vec = out@;
        let ghost xv = x@;
        proof {
            lemma_insert_source_at(views(out@), xv, j as int);
            crate::lemma_views_insert(prev_vec, j as int, x);
        }
        out.insert(j, x);
        proof {
            assert(views(out@) == views(prev_vec).insert(j as int, xv));
            assert(views(out@) == insert_source_by_title(views(prev_vec), xv));
            assert(views(orig.take(taken + 1)) =~= views(orig.take(taken)).push(orig[taken]@));
            assert(views(orig.take(taken + 1)).drop_last() =~= views(orig.take(taken)));
            taken = taken + 1;
            assert(rest@ =~= orig.skip(taken));
            assert(views(out@) == sort_sources_by_title_spec(views(orig.take(taken))));
        }
    }
    proof {
        assert(orig.take(taken) =~= orig);
    }
    out
}

// ---------------------------------------------------------------------------
// Distinct category titles, sorted
// ---------------------------------------------------------------------------
/// Titles in strictly ascending lexicographic order (hence distinct).
pub open spec fn titles_strictly_sorted(s: Seq<Seq<char>>) -> bool {
    forall|i: int, j: int| 0 <= i < j < s.len() ==> lex_lt(s[i], s[j])
}

/// Insertion into a strictly sorted title list, keeping it a set: a title
/// already present is not added again.
pub open spec fn insert_title(s: Seq<Seq<char>>, x: Seq<char>) -> Seq<Seq<char>>
    decreases s.len(),
{
    if s.len() == 0 {
        seq![x]
    } else if s[0] == x {
        s
    } else if lex_le(s[0], x) {
        seq![s[0]] + insert_title(s.drop_first(), x)
    } else {
        seq![x] + s
    }
}

/// The sorted list of distinct category titles of a source sequence.
pub open spec fn distinct_sorted_titles(sources: Seq<crate::state::SourceV>) -> Seq<Seq<char>>
    decreases sources.len(),
{
    if sources.len() == 0 {
        Seq::empty()
    } else {
        insert_title(distinct_sorted_titles(sources.drop_last()), sources.last().category)
    }
}

/// Insertion keeps the list strictly sorted and makes it hold exactly the
/// old titles and the new one.
pub proof fn lemma_insert_title_props(s: Seq<Seq<char>>, x: Seq<char>)
    requires
        titles_strictly_sorted(s),
    ensures
        titles_strictly_sorted(insert_title(s, x)),
        forall|y: Seq<char>| #[trigger] insert_title(s, x).contains(y) ==> (s.contains(y) || y
            == x),
        forall|y: Seq<char>| #[trigger] s.contains(y) ==> insert_title(s, x).contains(y),
        insert_title(s, x).contains(x),
    decreases s.len(),
{
    let r = insert_title(s, x);
    if s.len() == 0 {
        assert(r =~= Seq::<Seq<char>>::empty().push(x));
        assert forall|y: Seq<char>| r.contains(y) implies (s.contains(y) || y == x) by {}
        assert(r.contains(x)) by {
            assert(r[0] == x);
        }
    } else if s[0] == x {
        assert(r == s);
        assert(r.contains(x)) by {
            assert(r[0] == x);
        }
    } else if lex_le(s[0], x) {
        let tail = insert_title(s.drop_first(), x);
        assert(titles_strictly_sorted(s.drop_first())) by {
            assert(forall|k: int| 0 <= k < s.drop_first().len() ==> s.drop_first()[k] == s[k + 1]);
        }
        lemma_insert_title_props(s.drop_first(), x);
        assert(r =~= tail.insert(0, s[0]));
        assert forall|y: Seq<char>| r.contains(y) implies (s.contains(y) || y == x) by {
            let j = choose|j: int| 0 <= j < r.len() && r[j] == y;
            if j == 0 {
                assert(s.contains(s[0]));
            } else {
                assert(tail.contains(tail[j - 1]));
                if tail[j - 1] != x {
                    assert(s.drop_first().contains(tail[j - 1]));
                    let k = choose|k: int|
                        0 <= k < s.drop_first().len() && s.drop_first()[k] == tail[j - 1];
                    assert(s[k + 1] == tail[j - 1]);
                    assert(s.contains(s[k + 1]));
                }
            }
        }
        assert forall|y: Seq<char>| s.contains(y) implies r.contains(y) by {
            let j = choose|j: int| 0 <= j < s.len() && s[j] == y;
            if j == 0 {
                assert(r[0] == y);
                assert(r.contains(r[0]));
            } else {
                assert(s.drop_first()[j - 1] == y);
                assert(s.drop_first().contains(y));
                assert(tail.contains(y));
                let k = choose|k: int| 0 <= k < tail.len() && tail[k] == y;
                assert(r.len() == tail.len() + 1);
                assert(r[k + 1] == tail[k]);
                assert(r.contains(r[k + 1]));
            }
        }
        assert(r.contains(x)) by {
            assert(tail.contains(x));
            let k = choose|k: int| 0 <= k < tail.len() && tail[k] == x;
            assert(r[k + 1] == tail[k]);
            assert(r.contains(r[k + 1]));
        }
        assert forall|i: int, j: int| 0 <= i < j < r.len() implies lex_lt(r[i], r[j]) by {
            if i == 0 {
                assert(r[j] == tail[j - 1]);
                assert(tail.contains(tail[j - 1]));
                if tail[j - 1] == x {
                    assert(lex_le(s[0], x) && s[0] != x);
                } else {
                    assert(s.drop_first().contains(tail[j - 1]));
                    let k = choose|k: int|
                        0 <= k < s.drop_first().len() && s.drop_first()[k] == tail[j - 1];
                    assert(s[k + 1] == tail[j - 1]);
                    assert(lex_lt(s[0], s[k + 1]));
                }
            } else {
                assert(r[i] == tail[i - 1] && r[j] == tail[j - 1]);
                assert(lex_lt(tail[i - 1], tail[j - 1]));
            }
        }
    } else {
        assert(r =~= s.insert(0, x));
        lemma_lex_le_total(s[0], x);
        assert(lex_le(x, s[0]));
        assert(x != s[0]) by {
            if x == s[0] {
                lemma_lex_le_total(s[0], s[0]);
                assert(lex_le(s[0], x));
            }
        }
        assert forall|i: int, j: int| 0 <= i < j < r.len() implies lex_lt(r[i], r[j]) by {
            if i == 0 {
                assert(r[j] == s[j - 1]);
                if j == 1 {
                    assert(lex_lt(x, s[0]));
                } else {
                    assert(lex_lt(s[0], s[j - 1]));
                    crate::text::lemma_lex_le_transitive(x, s[0], s[j - 1]);
                    assert(x != s[j - 1]) by {
                        if x == s[j - 1] {
                            assert(lex_le(s[0], x));
                        }
                    }
                }
            } else {
                assert(r[i] == s[i - 1] && r[j] == s[j - 1]);
            }
        }
        assert forall|y: Seq<char>| r.contains(y) implies (s.contains(y) || y == x) by {
            let j = choose|j: int| 0 <= j < r.len() && r[j] == y;
            if j > 0 {
                assert(s.contains(s[j - 1]));
            }
        }
        assert forall|y: Seq<char>| s.contains(y) implies r.contains(y) by {
            let j = choose|j: int| 0 <= j < s.len() && s[j] == y;
            assert(r[j + 1] == y);
            assert(r.contains(r[j + 1]));
        }
        assert(r.contains(x)) by {
            assert(r[0] == x);
            assert(r.contains(r[0]));
        }
    }
}

/// The distinct title list is strictly sorted and holds exactly the
/// categories that occur among the sources.
pub proof fn lemma_distinct_sorted_titles_props(sources: Seq<crate::state::SourceV>)
    ensures
        titles_strictly_sorted(distinct_sorted_titles(sources)),
        forall|t: Seq<char>|
            distinct_sorted_titles(sources).contains(t) <==> (exists|k: int|
                0 <= k < sources.len() && sources[k].category == t),
    decreases sources.len(),
{
    if sources.len() > 0 {
        lemma_distinct_sorted_titles_props(sources.drop_last());
        lemma_insert_title_props(
            distinct_sorted_titles(sources.drop_last()),
            sources.last().category,
        );
        assert forall|t: Seq<char>| distinct_sorted_titles(sources).contains(t) implies (
        exists|k: int| 0 <= k < sources.len() && sources[k].category == t) by {
            if distinct_sorted_titles(sources.drop_last()).contains(t) {
                let k = choose|k: int|
                    0 <= k < sources.drop_last().len() && sources.drop_last()[k].category == t;
                assert(sources[k].category == t);
            } else {
                assert(sources[sources.len() - 1].category == t);
            }
        }
        assert forall|t: Seq<char>| (exists|k: int|
            0 <= k < sources.len() && sources[k].category == t) implies distinct_sorted_titles(
            sources,
        ).contains(t) by {
            let k = choose|k: int| 0 <= k < sources.len() && sources[k].category == t;
            if k < sources.len() - 1 {
                assert(sources.drop_last()[k] == sources[k]);
                assert(sources.drop_last().contains(sources.drop_last()[k]));
                assert(distinct_sorted_titles(sources.drop_last()).contains(t));
            } else {
                assert(sources.last().category == t);
            }
        }
    }
}

/// Collects the distinct category titles of the given sources, in
/// strictly ascending lexicographic order.
pub fn collect_category_titles(sources: &Vec<crate::state::Source>) -> (r: Vec<String>)
    ensures
        views(r@) == distinct_sorted_titles(views(sources@)),
{
    let mut out: Vec<String> = Vec::new();
    let mut i: usize = 0;
    proof {
        assert(views(sources@.take(0)) =~= Seq::<crate::state::SourceV>::empty());
        assert(views(out@) =~= Seq::<Seq<char>>::empty());
    }
    #[verifier::loop_isolation(false)]
    while i < sources.len()
        invariant
            0 <= i <= sources@.len(),
            views(out@) == distinct_sorted_titles(views(sources@.take(i as int))),
        decreases sources@.len() - i,
    {
        let t = &sources[i].category.title;
        let ghost tv = t@;
        let mut j: usize = 0;
        #[verifier::loop_isolation(false)]
        while j < out.len() && !str_le(t.as_str(), out[j].as_str())
            invariant
                0 <= j <= out.len(),
                forall|k: int|
                    0 <= k < j ==> lex_le(views(out@)[k], tv) && views(out@)[k] != tv,
            decreases out.len() - j,
        {
            proof {
                let prior = views(out@)[j as int];
                lemma_lex_le_total(prior, tv);
                assert(lex_le(prior, tv));
                assert(prior != tv) by {
                    if prior == tv {
                        lemma_lex_le_total(tv, tv);
                    }
                }
            }
            j = j + 1;
        }
        let already = j < out.len() && out[j].eq(t);
        if already {
            proof {
                lemma_insert_title_skip(views(out@), tv, j as int);
                assert(views(out@) == insert_title(views(out@), tv));
            }
        } else {
            proof {
                if (j as int) < out@.len() {
                    assert(lex_le(tv, views(out@)[j as int]));
                    assert(views(out@)[j as int] != tv);
                    assert(!lex_le(views(out@)[j as int], tv)) by {
                        if lex_le(views(out@)[j as int], tv) {
                            crate::text::lemma_lex_le_antisymmetric(
                                views(out@)[j as int],
                                tv,
                            );
                        }
                    }
                }
            }
            let fresh = t.clone();
            let ghost prev_vec = out@;
            proof {
                lemma_insert_title_at(views(out@), tv, j as int);
                crate::lemma_views_insert(prev_vec, j as int, fresh);
            }
            out.insert(j, fresh);
            proof {
                assert(views(out@) == views(prev_vec).insert(j as int, tv));
                assert(views(out@) == insert_title(views(prev_vec), tv));
            }
        }
        proof {
            assert(views(sources@.take(i + 1)) =~= views(sources@.take(i as int)).push(
                sources@[i as int]@,
            ));
            assert(views(sources@.take(i + 1)).drop_last() =~= views(sources@.take(i as int)));
            assert(views(sources@.take(i + 1)).last().category == tv);
            assert(views(out@) == distinct_sorted_titles(views(sources@.take(i + 1))));
        }
        i = i + 1;
    }
    proof {
        assert(sources@.take(sources@.len() as int) =~= sources@);
    }
    out
}

/// A title already present leaves the insertion without effect.
pub proof fn lemma_insert_title_skip(s: Seq<Seq<char>>, x: Seq<char>, j: int)
    requires
        0 <= j < s.len(),
        forall|k: int| 0 <= k < j ==> lex_le(s[k], x) && s[k] != x,
        s[j] == x,
    ensures
        insert_title(s, x) == s,
    decreases j,
{
    if j == 0 {
        assert(s[0] == x);
    } else {
        assert(s[0] != x);
        assert(lex_le(s[0], x));
        assert(forall|k: int| 0 <= k < j - 1 ==> s.drop_first()[k] == s[k + 1]);
        assert(s.drop_first()[j - 1] == s[j]);
        lemma_insert_title_skip(s.drop_first(), x, j - 1);
        assert(insert_title(s, x) =~= s);
    }
}

/// A title not yet present enters at the first position whose title is
/// strictly greater.
pub proof fn lemma_insert_title_at(s: Seq<Seq<char>>, x: Seq<char>, j: int)
    requires
        0 <= j <= s.len(),
        forall|k: int| 0 <= k < j ==> lex_le(s[k], x) && s[k] != x,
        j < s.len() ==> !lex_le(s[j], x),
    ensures
        insert_title(s, x) == s.insert(j, x),
    decreases j,
{
    if j == 0 {
        if s.len() == 0 {
            assert(insert_title(s, x) =~= s.insert(0, x));
        } else {
            assert(s[0] != x) by {
                if s[0] == x {
                    lemma_lex_le_total(x, x);
                }
            }
            assert(insert_title(s, x) =~= s.insert(0, x));
        }
    } else {
        assert(s[0] != x && lex_le(s[0], x));
        assert(forall|k: int| 0 <= k < j - 1 ==> s.drop_first()[k] == s[k + 1]);
        lemma_insert_title_at(s.drop_first(), x, j - 1);
        assert(insert_title(s, x) =~= s.insert(j, x));
    }
}

} // verus!
