//! The properties the site models guarantee, stated and proved over the
//! specification functions that the builders' contracts use.

use vstd::prelude::*;
use crate::order::distinct_sorted_titles;
use crate::order::items_sorted_desc;
use crate::order::lemma_distinct_sorted_titles_props;
use crate::order::lemma_sort_items_desc_props;
use crate::order::lemma_sort_sources_props;
use crate::order::sort_items_desc;
use crate::order::sources_sorted_by_title;
use crate::order::titles_strictly_sorted;
use crate::site::SiteItemV;
use crate::site::SiteSourceV;
use crate::site::flat_site_items;
use crate::site::spec_categories;
use crate::site::spec_category_model;
use crate::site::spec_category_ref;
use crate::site::spec_index;
use crate::site::spec_other_titles;
use crate::site::spec_site_item;
use crate::site::spec_site_source;
use crate::site::spec_site_sources;
use crate::site::spec_source_site_items;
use crate::site::spec_sources_with_category;
use crate::state::SourceV;
use crate::state::ok_sources_of;
use crate::state::spec_recent_items;
use crate::text::escape_free;
use crate::text::lemma_escape_free_identity;
use crate::text::lemma_escape_no_raw_tags;
use crate::text::lex_lt;
use crate::text::spec_escape_html;

verus! {

// ---------------------------------------------------------------------------
// Shared membership lemmas
// ---------------------------------------------------------------------------
/// Every title kept by `spec_other_titles` is one of the given titles and
/// differs from the excluded one; the list stays strictly sorted.
pub proof fn lemma_other_titles_props(titles: Seq<Seq<char>>, t: Seq<char>)
    requires
        titles_strictly_sorted(titles),
    ensures
        titles_strictly_sorted(spec_other_titles(titles, t)),
        forall|y: Seq<char>| #[trigger]
            spec_other_titles(titles, t).contains(y) ==> titles.contains(y) && y != t,
        forall|y: Seq<char>| #[trigger]
            titles.contains(y) && y != t ==> spec_other_titles(titles, t).contains(y),
    decreases titles.len(),
{
    let r = spec_other_titles(titles, t);
    if titles.len() == 0 {
        assert(r =~= Seq::<Seq<char>>::empty());
    } else {
        let dl = titles.drop_last();
        let rest = spec_other_titles(dl, t);
        assert(titles_strictly_sorted(dl)) by {
            assert(forall|k: int| 0 <= k < dl.len() ==> dl[k] == titles[k]);
        }
        lemma_other_titles_props(dl, t);
        if titles.last() != t {
            assert(r == rest.push(titles.last()));
            assert forall|i: int, j: int| 0 <= i < j < r.len() implies lex_lt(r[i], r[j]) by {
                if j < rest.len() {
                    assert(r[i] == rest[i] && r[j] == rest[j]);
                } else {
                    assert(r[j] == titles.last());
                    assert(r[i] == rest[i]);
                    assert(rest.contains(rest[i]));
                    assert(dl.contains(rest[i]));
                    let k = choose|k: int| 0 <= k < dl.len() && dl[k] == rest[i];
                    assert(titles[k] == rest[i]);
                    assert(lex_lt(titles[k], titles[titles.len() - 1]));
                }
            }
            assert forall|y: Seq<char>| #[trigger] r.contains(y) implies titles.contains(y) && y
                != t by {
                let j = choose|j: int| 0 <= j < r.len() && r[j] == y;
                if j < rest.len() {
                    assert(rest.contains(rest[j]));
                    let k = choose|k: int| 0 <= k < dl.len() && dl[k] == y;
                    assert(titles[k] == y);
                    assert(titles.contains(titles[k]));
                } else {
                    assert(y == titles.last());
                    assert(titles.contains(titles[titles.len() - 1]));
                }
            }
            assert forall|y: Seq<char>| #[trigger] titles.contains(y) && y != t implies r.contains(
                y,
            ) by {
                let k = choose|k: int| 0 <= k < titles.len() && titles[k] == y;
                if k < titles.len() - 1 {
                    assert(dl[k] == y);
                    assert(dl.contains(dl[k]));
                    assert(rest.contains(y));
                    let l = choose|l: int| 0 <= l < rest.len() && rest[l] == y;
                    assert(r[l] == y);
                    assert(r.contains(r[l]));
                } else {
                    assert(r[r.len() - 1] == y);
                    assert(r.contains(r[r.len() - 1]));
                }
            }
        } else {
            assert(r == rest);
            assert forall|y: Seq<char>| #[trigger] r.contains(y) implies titles.contains(y) && y
                != t by {
                assert(dl.contains(y));
                let k = choose|k: int| 0 <= k < dl.len() && dl[k] == y;
                assert(titles[k] == y);
                assert(titles.contains(titles[k]));
            }
            assert forall|y: Seq<char>| #[trigger] titles.contains(y) && y != t implies r.contains(
                y,
            ) by {
                let k = choose|k: int| 0 <= k < titles.len() && titles[k] == y;
                if k < titles.len() - 1 {
                    assert(dl[k] == y);
                    assert(dl.contains(dl[k]));
                }
            }
        }
    }
}

/// Every source kept by `spec_sources_with_category` is one of the given
/// sources and carries the asked-for category.
pub proof fn lemma_sources_with_category_membership(ss: Seq<SourceV>, t: Seq<char>)
    ensures
        forall|y: SourceV| #[trigger]
            spec_sources_with_category(ss, t).contains(y) ==> ss.contains(y) && y.category == t,
    decreases ss.len(),
{
    let r = spec_sources_with_category(ss, t);
    if ss.len() == 0 {
        assert(r =~= Seq::<SourceV>::empty());
    } else {
        let dl = ss.drop_last();
        let rest = spec_sources_with_category(dl, t);
        lemma_sources_with_category_membership(dl, t);
        assert forall|y: SourceV| #[trigger] r.contains(y) implies ss.contains(y) && y.category
            == t by {
            let j = choose|j: int| 0 <= j < r.len() && r[j] == y;
            if j < rest.len() {
                assert(rest.contains(rest[j]));
                assert(dl.contains(y));
                let k = choose|k: int| 0 <= k < dl.len() && dl[k] == y;
                assert(ss[k] == y);
                assert(ss.contains(ss[k]));
            } else {
                assert(ss.last().category == t && y == ss.last());
                assert(ss.contains(ss[ss.len() - 1]));
            }
        }
    }
}

/// Every flattened site item comes from an item of one of the sources,
/// projected under that source's title.
pub proof fn lemma_flat_items_membership(sources: Seq<SourceV>, x: SiteItemV)
    requires
        flat_site_items(sources).contains(x),
    ensures
        exists|k: int, l: int|
            0 <= k < sources.len() && 0 <= l < sources[k].items.len() && x == spec_site_item(
                sources[k].items[l],
                sources[k].title,
            ),
    decreases sources.len(),
{
    broadcast use vstd::seq_lib::group_seq_properties;

    let mapped = sources.map_values(|s: SourceV| spec_source_site_items(s));
    if sources.len() == 0 {
        assert(mapped =~= Seq::<Seq<SiteItemV>>::empty());
        assert(mapped.flatten() =~= Seq::<SiteItemV>::empty());
        assert(false);
    } else {
        let dl = sources.drop_last();
        let dl_mapped = dl.map_values(|s: SourceV| spec_source_site_items(s));
        let last_items = spec_source_site_items(sources.last());
        assert(mapped =~= dl_mapped.push(last_items));
        dl_mapped.lemma_flatten_push(last_items);
        assert(flat_site_items(sources) == flat_site_items(dl) + last_items);
        let idx = choose|idx: int|
            0 <= idx < flat_site_items(sources).len() && flat_site_items(sources)[idx] == x;
        if idx < flat_site_items(dl).len() {
            assert(flat_site_items(dl)[idx] == x);
            assert(flat_site_items(dl).contains(x));
            lemma_flat_items_membership(dl, x);
            let (k, l) = choose|k: int, l: int|
                0 <= k < dl.len() && 0 <= l < dl[k].items.len() && x == spec_site_item(
                    dl[k].items[l],
                    dl[k].title,
                );
            assert(sources[k] == dl[k]);
            assert(0 <= k < sources.len() && 0 <= l < sources[k].items.len() && x
                == spec_site_item(sources[k].items[l], sources[k].title));
        } else {
            let l = idx - flat_site_items(dl).len();
            assert(last_items[l] == x);
            assert(x == spec_site_item(sources.last().items[l], sources.last().title));
            let k = sources.len() - 1;
            assert(0 <= k < sources.len() && 0 <= l < sources[k].items.len() && x
                == spec_site_item(sources[k].items[l], sources[k].title));
        }
    }
}

/// Every item of a sorted item list is an item of the unsorted one.
pub proof fn lemma_sorted_items_membership(items: Seq<SiteItemV>, i: int)
    requires
        0 <= i < sort_items_desc(items).len(),
    ensures
        items.contains(sort_items_desc(items)[i]),
{
    broadcast use vstd::seq_lib::group_to_multiset_ensures;

    lemma_sort_items_desc_props(items);
    let x = sort_items_desc(items)[i];
    assert(sort_items_desc(items).contains(x));
    assert(items.to_multiset().count(x) > 0);
}

/// Every entry of the sorted source listing is the page model of one of
/// the state's sources.
pub proof fn lemma_site_sources_membership(ss: Seq<SourceV>, i: int)
    requires
        0 <= i < spec_site_sources(ss).len(),
    ensures
        exists|k: int| 0 <= k < ss.len() && spec_site_sources(ss)[i] == spec_site_source(ss[k]),
{
    broadcast use vstd::seq_lib::group_to_multiset_ensures;

    let mapped = ss.map_values(|s: SourceV| spec_site_source(s));
    lemma_sort_sources_props(mapped);
    let x = spec_site_sources(ss)[i];
    assert(spec_site_sources(ss).contains(x));
    assert(mapped.to_multiset().count(x) > 0);
    assert(mapped.contains(x));
    let k = choose|k: int| 0 <= k < mapped.len() && mapped[k] == x;
    assert(spec_site_source(ss[k]) == x);
}

// ---------------------------------------------------------------------------
// Ordering laws
// ---------------------------------------------------------------------------
/// The category listing of the index and the category page models follow
/// the distinct category titles in strictly ascending lexicographic
/// order: reference `i` and page model `i` both belong to title `i` of
/// that strictly sorted, duplicate-free list.
pub proof fn lemma_category_listing_ordered(ss: Seq<SourceV>)
    ensures
        titles_strictly_sorted(distinct_sorted_titles(ss)),
        spec_index(ss).categories.len() == distinct_sorted_titles(ss).len(),
        forall|i: int|
            0 <= i < spec_index(ss).categories.len() ==> spec_index(ss).categories[i]
                == spec_category_ref(distinct_sorted_titles(ss)[i]),
        spec_categories(ss).len() == distinct_sorted_titles(ss).len(),
        forall|i: int|
            0 <= i < spec_categories(ss).len() ==> spec_categories(ss)[i] == spec_category_model(
                ss,
                distinct_sorted_titles(ss)[i],
            ),
{
    lemma_distinct_sorted_titles_props(ss);
}

/// When no category title holds an escapable character, the titles shown
/// in the index's category references are themselves strictly ascending.
pub proof fn lemma_index_category_titles_sorted(ss: Seq<SourceV>)
    requires
        forall|t: Seq<char>| #[trigger]
            distinct_sorted_titles(ss).contains(t) ==> escape_free(t),
    ensures
        forall|i: int, j: int|
            0 <= i < j < spec_index(ss).categories.len() ==> lex_lt(
                spec_index(ss).categories[i].title,
                spec_index(ss).categories[j].title,
            ),
{
    lemma_distinct_sorted_titles_props(ss);
    let titles = distinct_sorted_titles(ss);
    assert forall|i: int, j: int| 0 <= i < j < spec_index(ss).categories.len() implies lex_lt(
        spec_index(ss).categories[i].title,
        spec_index(ss).categories[j].title,
    ) by {
        assert(titles.contains(titles[i]));
        assert(titles.contains(titles[j]));
        lemma_escape_free_identity(titles[i]);
        lemma_escape_free_identity(titles[j]);
        assert(spec_index(ss).categories[i].title == spec_escape_html(titles[i]));
        assert(spec_index(ss).categories[j].title == spec_escape_html(titles[j]));
    }
}

/// The other-category references of each category page follow the same
/// strictly sorted order, with the page's own title left out.
pub proof fn lemma_other_categories_ordered(ss: Seq<SourceV>, c: int)
    requires
        0 <= c < spec_categories(ss).len(),
    ensures
        ({
            let t = distinct_sorted_titles(ss)[c];
            let others = spec_other_titles(distinct_sorted_titles(ss), t);
            &&& titles_strictly_sorted(others)
            &&& !others.contains(t)
            &&& spec_categories(ss)[c].other_categories.len() == others.len()
            &&& forall|o: int|
                0 <= o < others.len() ==> spec_categories(ss)[c].other_categories[o]
                    == spec_category_ref(others[o])
        }),
{
    lemma_distinct_sorted_titles_props(ss);
    let t = distinct_sorted_titles(ss)[c];
    lemma_other_titles_props(distinct_sorted_titles(ss), t);
    let others = spec_other_titles(distinct_sorted_titles(ss), t);
    assert(!others.contains(t)) by {
        if others.contains(t) {
            assert(t != t);
        }
    }
}

/// When no category title holds an escapable character, the titles shown
/// in a category page's other-category references are themselves strictly
/// ascending and never the page's own title.
pub proof fn lemma_other_category_titles_sorted(ss: Seq<SourceV>, c: int)
    requires
        0 <= c < spec_categories(ss).len(),
        forall|t: Seq<char>| #[trigger]
            distinct_sorted_titles(ss).contains(t) ==> escape_free(t),
    ensures
        forall|o1: int, o2: int|
            0 <= o1 < o2 < spec_categories(ss)[c].other_categories.len() ==> lex_lt(
                spec_categories(ss)[c].other_categories[o1].title,
                spec_categories(ss)[c].other_categories[o2].title,
            ),
        forall|o: int|
            0 <= o < spec_categories(ss)[c].other_categories.len() ==> (
            #[trigger] spec_categories(ss)[c].other_categories[o]).title != spec_escape_html(
                distinct_sorted_titles(ss)[c],
            ),
{
    lemma_distinct_sorted_titles_props(ss);
    let titles = distinct_sorted_titles(ss);
    let t = titles[c];
    lemma_other_titles_props(titles, t);
    let others = spec_other_titles(titles, t);
    assert(titles.contains(t)) by {
        assert(titles[c] == t);
    }
    lemma_escape_free_identity(t);
    assert forall|o1: int, o2: int|
        0 <= o1 < o2 < spec_categories(ss)[c].other_categories.len() implies lex_lt(
        spec_categories(ss)[c].other_categories[o1].title,
        spec_categories(ss)[c].other_categories[o2].title,
    ) by {
        assert(others.contains(others[o1]));
        assert(others.contains(others[o2]));
        assert(titles.contains(others[o1]) && titles.contains(others[o2]));
        lemma_escape_free_identity(others[o1]);
        lemma_escape_free_identity(others[o2]);
        assert(spec_categories(ss)[c].other_categories[o1].title == spec_escape_html(others[o1]));
        assert(spec_categories(ss)[c].other_categories[o2].title == spec_escape_html(others[o2]));
        assert(lex_lt(others[o1], others[o2]));
    }
    assert forall|o: int|
        0 <= o < spec_categories(ss)[c].other_categories.len() implies (
    #[trigger] spec_categories(ss)[c].other_categories[o]).title != spec_escape_html(t) by {
        assert(others.contains(others[o]));
        assert(titles.contains(others[o]));
        lemma_escape_free_identity(others[o]);
        assert(spec_categories(ss)[c].other_categories[o].title == spec_escape_html(others[o]));
        assert(others[o] != t);
    }
}

/// The index's source listing is ordered by the titles it shows,
/// lexicographically ascending.
pub proof fn lemma_index_sources_ordered(ss: Seq<SourceV>)
    ensures
        sources_sorted_by_title(spec_index(ss).sources),
        spec_index(ss).sources == spec_site_sources(ss),
{
    lemma_sort_sources_props(ss.map_values(|s: SourceV| spec_site_source(s)));
}

/// The items of every category page are ordered newest first.
pub proof fn lemma_category_items_ordered(ss: Seq<SourceV>, c: int)
    requires
        0 <= c < spec_categories(ss).len(),
    ensures
        items_sorted_desc(spec_categories(ss)[c].items),
{
    let t = distinct_sorted_titles(ss)[c];
    lemma_sort_items_desc_props(flat_site_items(spec_sources_with_category(ss, t)));
}

/// The items of every source page, on its own page and in the index
/// listing, are ordered newest first.
pub proof fn lemma_source_items_ordered(ss: Seq<SourceV>, i: int)
    requires
        0 <= i < spec_site_sources(ss).len(),
    ensures
        items_sorted_desc(spec_site_sources(ss)[i].items),
{
    lemma_site_sources_membership(ss, i);
    let k = choose|k: int|
        0 <= k < ss.len() && spec_site_sources(ss)[i] == spec_site_source(ss[k]);
    lemma_sort_items_desc_props(spec_source_site_items(ss[k]));
}

/// In a newest-first item list without pre-epoch timestamps, the items
/// without a date (timestamp 0) stand at the end.
pub proof fn lemma_zero_timestamp_items_last(items: Seq<SiteItemV>)
    requires
        items_sorted_desc(items),
        forall|i: int| 0 <= i < items.len() ==> items[i].timestamp >= 0,
    ensures
        forall|i: int, j: int|
            0 <= i <= j < items.len() && items[i].timestamp == 0 ==> items[j].timestamp == 0,
{
}

// ---------------------------------------------------------------------------
// Filter law
// ---------------------------------------------------------------------------
/// Every item the date filter keeps carries a publication instant at or
/// after the cutoff; items without a date are gone. Together with
/// `filter_items_by_date`'s contract, a state assembled from filtered
/// sources satisfies `state_filtered`.
pub proof fn lemma_recent_items_are_recent(items: Seq<crate::state::ItemV>, after: int)
    ensures
        forall|i: int|
            0 <= i < spec_recent_items(items, after).len() ==> (#[trigger] spec_recent_items(
                items,
                after,
            )[i]).published_at is Some && spec_recent_items(items, after)[i].published_at->0
                >= after,
    decreases items.len(),
{
    if items.len() > 0 {
        let rest = spec_recent_items(items.drop_last(), after);
        lemma_recent_items_are_recent(items.drop_last(), after);
        let r = spec_recent_items(items, after);
        assert forall|i: int| 0 <= i < r.len() implies (#[trigger] r[i]).published_at is Some
            && r[i].published_at->0 >= after by {
            if items.last().published_at is Some && items.last().published_at->0 >= after {
                if i < rest.len() {
                    assert(r[i] == rest[i]);
                } else {
                    assert(r[i] == items.last());
                }
            } else {
                assert(r[i] == rest[i]);
            }
        }
    }
}

/// A state whose every item carries a publication instant at or after the
/// cutoff.
pub open spec fn state_filtered(ss: Seq<SourceV>, cutoff: int) -> bool {
    forall|k: int, l: int|
        0 <= k < ss.len() && 0 <= l < ss[k].items.len() ==> ss[k].items[l].published_at is Some
            && ss[k].items[l].published_at->0 >= cutoff
}

/// A state whose sources each hold the date-filtered items of some
/// loaded source is a filtered state.
pub proof fn lemma_filtered_state(
    original: Seq<Seq<crate::state::ItemV>>,
    cutoff: int,
    filtered: Seq<SourceV>,
)
    requires
        filtered.len() == original.len(),
        forall|k: int|
            0 <= k < filtered.len() ==> (#[trigger] filtered[k]).items == spec_recent_items(
                original[k],
                cutoff,
            ),
    ensures
        state_filtered(filtered, cutoff),
{
    assert forall|k: int, l: int|
        0 <= k < filtered.len() && 0 <= l < filtered[k].items.len() implies filtered[k].items[l]
        .published_at is Some && filtered[k].items[l].published_at->0 >= cutoff by {
        lemma_recent_items_are_recent(original[k], cutoff);
    }
}

/// In a filtered state, no page of the site model shows an item from
/// before the cutoff: every item of every category page and of every
/// source listing carries a timestamp at or after it.
pub proof fn lemma_no_stale_items(ss: Seq<SourceV>, cutoff: int)
    requires
        state_filtered(ss, cutoff),
    ensures
        forall|c: int, i: int|
            0 <= c < spec_categories(ss).len() && 0 <= i < spec_categories(ss)[c].items.len()
                ==> spec_categories(ss)[c].items[i].timestamp >= cutoff,
        forall|s: int, i: int|
            0 <= s < spec_site_sources(ss).len() && 0 <= i
                < spec_site_sources(ss)[s].items.len() ==> spec_site_sources(
                ss,
            )[s].items[i].timestamp >= cutoff,
{
    assert forall|c: int, i: int|
        0 <= c < spec_categories(ss).len() && 0 <= i
            < spec_categories(ss)[c].items.len() implies spec_categories(
        ss,
    )[c].items[i].timestamp >= cutoff by {
        let t = distinct_sorted_titles(ss)[c];
        let group = spec_sources_with_category(ss, t);
        let x = spec_categories(ss)[c].items[i];
        lemma_sorted_items_membership(flat_site_items(group), i);
        lemma_flat_items_membership(group, x);
        let (k, l) = choose|k: int, l: int|
            0 <= k < group.len() && 0 <= l < group[k].items.len() && x == spec_site_item(
                group[k].items[l],
                group[k].title,
            );
        lemma_sources_with_category_membership(ss, t);
        assert(group.contains(group[k]));
        assert(ss.contains(group[k]));
        let k0 = choose|k0: int| 0 <= k0 < ss.len() && ss[k0] == group[k];
        assert(ss[k0].items[l].published_at is Some && ss[k0].items[l].published_at->0 >= cutoff);
    }
    assert forall|s: int, i: int|
        0 <= s < spec_site_sources(ss).len() && 0 <= i
            < spec_site_sources(ss)[s].items.len() implies spec_site_sources(
        ss,
    )[s].items[i].timestamp >= cutoff by {
        lemma_site_sources_membership(ss, s);
        let k = choose|k: int|
            0 <= k < ss.len() && spec_site_sources(ss)[s] == spec_site_source(ss[k]);
        let x = spec_site_sources(ss)[s].items[i];
        lemma_sorted_items_membership(spec_source_site_items(ss[k]), i);
        assert(spec_source_site_items(ss[k]).contains(x));
        let l = choose|l: int|
            0 <= l < spec_source_site_items(ss[k]).len() && spec_source_site_items(ss[k])[l] == x;
        assert(x == spec_site_item(ss[k].items[l], ss[k].title));
        assert(ss[k].items[l].published_at is Some && ss[k].items[l].published_at->0 >= cutoff);
    }
}

// ---------------------------------------------------------------------------
// Escaping law
// ---------------------------------------------------------------------------
/// A text with no raw '<' or '>' character.
pub open spec fn no_raw_tags(s: Seq<char>) -> bool {
    forall|i: int| 0 <= i < s.len() ==> s[i] != '<' && s[i] != '>'
}

/// All titled text fields of a site item are escaped: none shows a raw
/// '<' or '>'. (The link is passed through verbatim, as the templates
/// expect a URL there.)
pub proof fn lemma_site_item_escaped(i: crate::state::ItemV, title: Seq<char>)
    ensures
        no_raw_tags(spec_site_item(i, title).title),
        no_raw_tags(spec_site_item(i, title).source),
        no_raw_tags(spec_site_item(i, title).source_id),
        no_raw_tags(spec_site_item(i, title).published_at),
{
    lemma_escape_no_raw_tags(i.title);
    lemma_escape_no_raw_tags(title);
    lemma_escape_no_raw_tags(crate::text::spec_title_to_id(title));
    lemma_escape_no_raw_tags(crate::site::spec_published_text(i.published_at));
}

/// Every titled text field of every category page model, source page
/// model and index entry is escaped: no raw '<' or '>' anywhere.
pub proof fn lemma_site_models_escaped(ss: Seq<SourceV>)
    ensures
        forall|c: int|
            0 <= c < spec_categories(ss).len() ==> no_raw_tags(#[trigger] spec_categories(ss)[c].id)
                && no_raw_tags(spec_categories(ss)[c].title),
        forall|c: int, i: int|
            0 <= c < spec_categories(ss).len() && 0 <= i < spec_categories(ss)[c].items.len()
                ==> no_raw_tags(#[trigger] spec_categories(ss)[c].items[i].title) && no_raw_tags(
                spec_categories(ss)[c].items[i].source,
            ) && no_raw_tags(spec_categories(ss)[c].items[i].source_id) && no_raw_tags(
                spec_categories(ss)[c].items[i].published_at,
            ),
        forall|c: int, o: int|
            0 <= c < spec_categories(ss).len() && 0 <= o < spec_categories(
                ss,
            )[c].other_categories.len() ==> no_raw_tags(
                #[trigger] spec_categories(ss)[c].other_categories[o].id,
            ) && no_raw_tags(spec_categories(ss)[c].other_categories[o].title),
        forall|s: int|
            0 <= s < spec_site_sources(ss).len() ==> no_raw_tags(
                #[trigger] spec_site_sources(ss)[s].id,
            ) && no_raw_tags(spec_site_sources(ss)[s].title) && no_raw_tags(
                spec_site_sources(ss)[s].category_id,
            ) && no_raw_tags(spec_site_sources(ss)[s].category_name),
        forall|s: int, i: int|
            0 <= s < spec_site_sources(ss).len() && 0 <= i < spec_site_sources(ss)[s].items.len()
                ==> no_raw_tags(#[trigger] spec_site_sources(ss)[s].items[i].title) && no_raw_tags(
                spec_site_sources(ss)[s].items[i].source,
            ) && no_raw_tags(spec_site_sources(ss)[s].items[i].source_id) && no_raw_tags(
                spec_site_sources(ss)[s].items[i].published_at,
            ),
        forall|r: int|
            0 <= r < spec_index(ss).categories.len() ==> no_raw_tags(
                #[trigger] spec_index(ss).categories[r].id,
            ) && no_raw_tags(spec_index(ss).categories[r].title),
{
    assert forall|c: int| 0 <= c < spec_categories(ss).len() implies no_raw_tags(
        #[trigger] spec_categories(ss)[c].id,
    ) && no_raw_tags(spec_categories(ss)[c].title) by {
        let t = distinct_sorted_titles(ss)[c];
        lemma_escape_no_raw_tags(crate::text::spec_title_to_id(t));
        lemma_escape_no_raw_tags(t);
    }
    assert forall|c: int, i: int|
        0 <= c < spec_categories(ss).len() && 0 <= i
            < spec_categories(ss)[c].items.len() implies no_raw_tags(
        #[trigger] spec_categories(ss)[c].items[i].title,
    ) && no_raw_tags(spec_categories(ss)[c].items[i].source) && no_raw_tags(
        spec_categories(ss)[c].items[i].source_id,
    ) && no_raw_tags(spec_categories(ss)[c].items[i].published_at) by {
        let t = distinct_sorted_titles(ss)[c];
        let group = spec_sources_with_category(ss, t);
        let x = spec_categories(ss)[c].items[i];
        lemma_sorted_items_membership(flat_site_items(group), i);
        lemma_flat_items_membership(group, x);
        let (k, l) = choose|k: int, l: int|
            0 <= k < group.len() && 0 <= l < group[k].items.len() && x == spec_site_item(
                group[k].items[l],
                group[k].title,
            );
        lemma_site_item_escaped(group[k].items[l], group[k].title);
    }
    assert forall|c: int, o: int|
        0 <= c < spec_categories(ss).len() && 0 <= o < spec_categories(
            ss,
        )[c].other_categories.len() implies no_raw_tags(
        #[trigger] spec_categories(ss)[c].other_categories[o].id,
    ) && no_raw_tags(spec_categories(ss)[c].other_categories[o].title) by {
        let t = distinct_sorted_titles(ss)[c];
        let others = spec_other_titles(distinct_sorted_titles(ss), t);
        lemma_escape_no_raw_tags(crate::text::spec_title_to_id(others[o]));
        lemma_escape_no_raw_tags(others[o]);
    }
    assert forall|s: int| 0 <= s < spec_site_sources(ss).len() implies no_raw_tags(
        #[trigger] spec_site_sources(ss)[s].id,
    ) && no_raw_tags(spec_site_sources(ss)[s].title) && no_raw_tags(
        spec_site_sources(ss)[s].category_id,
    ) && no_raw_tags(spec_site_sources(ss)[s].category_name) by {
        lemma_site_sources_membership(ss, s);
        let k = choose|k: int|
            0 <= k < ss.len() && spec_site_sources(ss)[s] == spec_site_source(ss[k]);
        lemma_escape_no_raw_tags(crate::text::spec_title_to_id(ss[k].title));
        lemma_escape_no_raw_tags(ss[k].title);
        lemma_escape_no_raw_tags(crate::text::spec_title_to_id(ss[k].category));
        lemma_escape_no_raw_tags(ss[k].category);
    }
    assert forall|s: int, i: int|
        0 <= s < spec_site_sources(ss).len() && 0 <= i
            < spec_site_sources(ss)[s].items.len() implies no_raw_tags(
        #[trigger] spec_site_sources(ss)[s].items[i].title,
    ) && no_raw_tags(spec_site_sources(ss)[s].items[i].source) && no_raw_tags(
        spec_site_sources(ss)[s].items[i].source_id,
    ) && no_raw_tags(spec_site_sources(ss)[s].items[i].published_at) by {
        lemma_site_sources_membership(ss, s);
        let k = choose|k: int|
            0 <= k < ss.len() && spec_site_sources(ss)[s] == spec_site_source(ss[k]);
        let x = spec_site_sources(ss)[s].items[i];
        lemma_sorted_items_membership(spec_source_site_items(ss[k]), i);
        assert(spec_source_site_items(ss[k]).contains(x));
        let l = choose|l: int|
            0 <= l < spec_source_site_items(ss[k]).len() && spec_source_site_items(ss[k])[l] == x;
        assert(x == spec_site_item(ss[k].items[l], ss[k].title));
        lemma_site_item_escaped(ss[k].items[l], ss[k].title);
    }
    assert forall|r: int| 0 <= r < spec_index(ss).categories.len() implies no_raw_tags(
        #[trigger] spec_index(ss).categories[r].id,
    ) && no_raw_tags(spec_index(ss).categories[r].title) by {
        let t = distinct_sorted_titles(ss)[r];
        lemma_escape_no_raw_tags(crate::text::spec_title_to_id(t));
        lemma_escape_no_raw_tags(t);
    }
}

// ---------------------------------------------------------------------------
// Cross-category leakage law
// ---------------------------------------------------------------------------
/// An item stands on a category page only if its owning source belongs to
/// that category: it came from an item of a state source whose category
/// is the page's title, and it names that source.
pub proof fn lemma_no_cross_category_leakage(ss: Seq<SourceV>, c: int, i: int)
    requires
        0 <= c < spec_categories(ss).len(),
        0 <= i < spec_categories(ss)[c].items.len(),
    ensures
        exists|k: int|
            0 <= k < ss.len() && #[trigger] ss[k].category == distinct_sorted_titles(ss)[c]
                && spec_categories(ss)[c].items[i].source == spec_escape_html(ss[k].title)
                && spec_categories(ss)[c].items[i].source_id == spec_escape_html(
                crate::text::spec_title_to_id(ss[k].title),
            ),
{
    let t = distinct_sorted_titles(ss)[c];
    let group = spec_sources_with_category(ss, t);
    let x = spec_categories(ss)[c].items[i];
    lemma_sorted_items_membership(flat_site_items(group), i);
    lemma_flat_items_membership(group, x);
    let (k, l) = choose|k: int, l: int|
        0 <= k < group.len() && 0 <= l < group[k].items.len() && x == spec_site_item(
            group[k].items[l],
            group[k].title,
        );
    lemma_sources_with_category_membership(ss, t);
    assert(group.contains(group[k]));
    assert(ss.contains(group[k]) && group[k].category == t);
    let k0 = choose|k0: int| 0 <= k0 < ss.len() && ss[k0] == group[k];
    assert(ss[k0].category == t && x.source == spec_escape_html(ss[k0].title) && x.source_id
        == spec_escape_html(crate::text::spec_title_to_id(ss[k0].title)));
}

// ---------------------------------------------------------------------------
// Determinism law
// ---------------------------------------------------------------------------
/// The site model is a function of the state alone: equal states yield
/// equal category models, source models and index. Together with the
/// builders' exact contracts, two runs over the same loaded state produce
/// the same models.
pub proof fn lemma_site_model_deterministic(a: Seq<SourceV>, b: Seq<SourceV>)
    requires
        a == b,
    ensures
        spec_categories(a) == spec_categories(b),
        spec_site_sources(a) == spec_site_sources(b),
        spec_index(a) == spec_index(b),
{
}

// ---------------------------------------------------------------------------
// Failure isolation law
// ---------------------------------------------------------------------------
/// Under the isolated policy, one failing source costs exactly that
/// source: the assembled state holds every other source, in order.
#[verifier::rlimit(60)]
pub proof fn lemma_failure_isolation(
    results: Seq<Result<crate::state::Source, String>>,
    f: int,
)
    requires
        0 <= f < results.len(),
        results[f] is Err,
        forall|k: int| 0 <= k < results.len() && k != f ==> results[k] is Ok,
    ensures
        ok_sources_of(results).len() == results.len() - 1,
        forall|k: int| 0 <= k < f ==> ok_sources_of(results)[k] == results[k]->Ok_0@,
        forall|k: int|
            f < k < results.len() ==> ok_sources_of(results)[k - 1] == results[k]->Ok_0@,
    decreases results.len(),
{
    let dl = results.drop_last();
    assert(forall|k: int| 0 <= k < dl.len() ==> #[trigger] dl[k] == results[k]);
    if f == results.len() - 1 {
        assert(ok_sources_of(results) == ok_sources_of(dl));
        lemma_ok_sources_all_ok(dl);
    } else {
        assert(results.last() is Ok);
        assert(ok_sources_of(results) == ok_sources_of(dl).push(results.last()->Ok_0@));
        lemma_failure_isolation(dl, f);
        assert(forall|k: int|
            0 <= k < f ==> #[trigger] ok_sources_of(results)[k] == ok_sources_of(dl)[k]);
        assert(forall|k: int|
            f < k < dl.len() ==> #[trigger] ok_sources_of(results)[k - 1] == ok_sources_of(
                dl,
            )[k - 1]);
        assert(ok_sources_of(results)[results.len() - 2] == results[results.len() - 1]->Ok_0@);
    }
}

/// When every load succeeded, the state holds every source, in order.
pub proof fn lemma_ok_sources_all_ok(results: Seq<Result<crate::state::Source, String>>)
    requires
        forall|k: int| 0 <= k < results.len() ==> results[k] is Ok,
    ensures
        ok_sources_of(results).len() == results.len(),
        forall|k: int|
            0 <= k < results.len() ==> ok_sources_of(results)[k] == results[k]->Ok_0@,
    decreases results.len(),
{
    if results.len() > 0 {
        lemma_ok_sources_all_ok(results.drop_last());
    }
}

} // verus!
