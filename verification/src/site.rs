//! The renderable site models: escaped, grouped and sorted views of the
//! state, ready to be handed to a template engine.

use vstd::prelude::*;
use vstd::string::*;
use crate::feed::date_str_of;
use crate::feed::date_string;
use crate::state;
use crate::text::escape_html;
use crate::text::spec_escape_html;
use crate::text::spec_title_to_id;
use crate::text::title_to_id;
use crate::views;

verus! {

/// The view of a site item.
pub ghost struct SiteItemV {
    pub title: Seq<char>,
    pub link: Seq<char>,
    pub source: Seq<char>,
    pub source_id: Seq<char>,
    pub published_at: Seq<char>,
    pub timestamp: int,
}

/// One item as a page shows it: escaped texts, the owning source's name
/// and id, the date as text, and the timestamp the listings sort by.
#[derive(Debug)]
pub struct Item {
    pub title: String,
    pub link: String,
    pub source: String,
    pub source_id: String,
    pub published_at: String,
    pub timestamp: i64,
}

impl View for Item {
    type V = SiteItemV;

    open spec fn view(&self) -> SiteItemV {
        SiteItemV {
            title: self.title@,
            link: self.link@,
            source: self.source@,
            source_id: self.source_id@,
            published_at: self.published_at@,
            timestamp: self.timestamp as int,
        }
    }
}

/// The view of a category reference.
pub ghost struct CategoryReferenceV {
    pub id: Seq<char>,
    pub title: Seq<char>,
}

/// A link from one page to a category page: the category's id and title.
#[derive(Debug)]
pub struct CategoryReference {
    pub id: String,
    pub title: String,
}

impl View for CategoryReference {
    type V = CategoryReferenceV;

    open spec fn view(&self) -> CategoryReferenceV {
        CategoryReferenceV { id: self.id@, title: self.title@ }
    }
}

/// The view of a category page model.
pub ghost struct CategoryV {
    pub id: Seq<char>,
    pub title: Seq<char>,
    pub items: Seq<SiteItemV>,
    pub other_categories: Seq<CategoryReferenceV>,
}

/// One category page model: the category's id and title, its items newest
/// first, and references to every other category.
#[derive(Debug)]
pub struct Category {
    pub id: String,
    pub title: String,
    pub items: Vec<Item>,
    pub other_categories: Vec<CategoryReference>,
}

impl View for Category {
    type V = CategoryV;

    open spec fn view(&self) -> CategoryV {
        CategoryV {
            id: self.id@,
            title: self.title@,
            items: views(self.items@),
            other_categories: views(self.other_categories@),
        }
    }
}

/// A rendered category page, ready to be written under its id.
#[derive(Debug)]
pub struct CategoryPage {
    pub id: String,
    pub rendered: String,
}

/// The view of a source page model.
pub ghost struct SiteSourceV {
    pub id: Seq<char>,
    pub title: Seq<char>,
    pub items: Seq<SiteItemV>,
    pub category_id: Seq<char>,
    pub category_name: Seq<char>,
}

/// One source page model: the source's id and title, its items newest
/// first, and its category's id and name.
#[derive(Debug)]
pub struct Source {
    pub id: String,
    pub title: String,
    pub items: Vec<Item>,
    pub category_id: String,
    pub category_name: String,
}

impl View for Source {
    type V = SiteSourceV;

    open spec fn view(&self) -> SiteSourceV {
        SiteSourceV {
            id: self.id@,
            title: self.title@,
            items: views(self.items@),
            category_id: self.category_id@,
            category_name: self.category_name@,
        }
    }
}

/// A rendered source page, ready to be written under its id.
#[derive(Debug)]
pub struct SourcePage {
    pub id: String,
    pub rendered: String,
}

/// The view of the index model.
pub ghost struct IndexV {
    pub categories: Seq<CategoryReferenceV>,
    pub sources: Seq<SiteSourceV>,
}

/// The index page model: references to every category and the full sorted
/// source listing.
#[derive(Debug)]
pub struct Index {
    pub categories: Vec<CategoryReference>,
    pub sources: Vec<Source>,
}

impl View for Index {
    type V = IndexV;

    open spec fn view(&self) -> IndexV {
        IndexV { categories: views(self.categories@), sources: views(self.sources@) }
    }
}

/// The fully rendered site: the index page and one rendered page per
/// category and per source.
#[derive(Debug)]
pub struct Site {
    pub index: String,
    pub categories: Vec<CategoryPage>,
    pub sources: Vec<SourcePage>,
}

// ---------------------------------------------------------------------------
// Items
// ---------------------------------------------------------------------------
/// The date text of an optional publication instant: empty when absent.
pub open spec fn spec_published_text(published_at: Option<int>) -> Seq<char> {
    match published_at {
        Some(t) => date_str_of(t),
        None => Seq::empty(),
    }
}

/// The timestamp a listing sorts an item by: 0 when the instant is absent.
pub open spec fn spec_item_timestamp(published_at: Option<int>) -> int {
    match published_at {
        Some(t) => t,
        None => 0,
    }
}

/// The site item a state item projects to under its owning source's title.
pub open spec fn spec_site_item(i: state::ItemV, source_title: Seq<char>) -> SiteItemV {
    SiteItemV {
        title: spec_escape_html(i.title),
        link: i.link,
        source: spec_escape_html(source_title),
        source_id: spec_escape_html(spec_title_to_id(source_title)),
        published_at: spec_escape_html(spec_published_text(i.published_at)),
        timestamp: spec_item_timestamp(i.published_at),
    }
}

impl Item {
    /// Builds a site item, escaping every text field but the link.
    pub fn new(
        title: String,
        link: String,
        source: String,
        source_id: String,
        published_at: String,
        timestamp: i64,
    ) -> (r: Item)
        ensures
            r@ == (SiteItemV {
                title: spec_escape_html(title@),
                link: link@,
                source: spec_escape_html(source@),
                source_id: spec_escape_html(source_id@),
                published_at: spec_escape_html(published_at@),
                timestamp: timestamp as int,
            }),
    {
        Item {
            title: escape_html(title.as_str()),
            link,
            source: escape_html(source.as_str()),
            source_id: escape_html(source_id.as_str()),
            published_at: escape_html(published_at.as_str()),
            timestamp,
        }
    }

    /// Projects a state item onto the site model, deriving the owning
    /// source's id, the date text and the sort timestamp.
    pub fn from_state_item(item: state::Item, source: String) -> (r: Item)
        ensures
            r@ == spec_site_item(item@, source@),
    {
        let published_at = match item.published_at {
            Some(ts) => date_string(ts),
            None => String::new(),
        };
        let timestamp = match item.published_at {
            Some(ts) => ts,
            None => 0,
        };
        let source_id = title_to_id(source.clone());
        Self::new(item.title, item.link, source, source_id, published_at, timestamp)
    }

    /// An element-wise copy with a fully known result.
    pub fn duplicate(&self) -> (r: Item)
        ensures
            r@ == self@,
    {
        Item {
            title: self.title.clone(),
            link: self.link.clone(),
            source: self.source.clone(),
            source_id: self.source_id.clone(),
            published_at: self.published_at.clone(),
            timestamp: self.timestamp,
        }
    }
}

/// An element-wise copy of a site item vector with a fully known result.
pub fn duplicate_site_items(items: &Vec<Item>) -> (r: Vec<Item>)
    ensures
        views(r@) == views(items@),
{
    let mut out: Vec<Item> = Vec::new();
    let mut i: usize = 0;
    proof {
        assert(views(out@) =~= views(items@.take(0)));
    }
    #[verifier::loop_isolation(false)]
    while i < items.len()
        invariant
            0 <= i <= items@.len(),
            views(out@) == views(items@.take(i as int)),
        decreases items@.len() - i,
    {
        let copy = items[i].duplicate();
        let ghost prev = views(out@);
        let ghost cv = copy@;
        out.push(copy);
        proof {
            assert(views(out@) =~= prev.push(cv));
            assert(views(out@) =~= views(items@.take(i + 1)));
        }
        i = i + 1;
    }
    proof {
        assert(items@.take(items@.len() as int) =~= items@);
    }
    out
}

// ---------------------------------------------------------------------------
// Per-source item lists
// ---------------------------------------------------------------------------
/// The site items of one state source, in feed order.
pub open spec fn spec_source_site_items(s: state::SourceV) -> Seq<SiteItemV> {
    s.items.map_values(|i: state::ItemV| spec_site_item(i, s.title))
}

/// Projects every item of a source onto the site model, in feed order.
pub fn site_items_of_source(source: state::Source) -> (r: Vec<Item>)
    ensures
        views(r@) == spec_source_site_items(source@),
{
    let title = source.title;
    let ghost tv = title@;
    let ghost orig: Seq<state::Item> = source.items@;
    let mut rest = source.items;
    let mut out: Vec<Item> = Vec::new();
    let ghost mut taken: int = 0;
    proof {
        assert(views(out@) =~= views(orig.take(0)).map_values(
            |i: state::ItemV| spec_site_item(i, tv),
        ));
    }
    #[verifier::loop_isolation(false)]
    while rest.len() > 0
        invariant
            0 <= taken <= orig.len(),
            rest@ == orig.skip(taken),
            views(out@) == views(orig.take(taken)).map_values(
                |i: state::ItemV| spec_site_item(i, tv),
            ),
        decreases rest@.len(),
    {
        let item = rest.remove(0);
        proof {
            assert(orig.skip(taken)[0] == orig[taken]);
        }
        let site_item = Item::from_state_item(item, title.clone());
        let ghost prev = views(out@);
        let ghost sv = site_item@;
        out.push(site_item);
        proof {
            assert(views(out@) =~= prev.push(sv));
            taken = taken + 1;
            assert(rest@ =~= orig.skip(taken));
            assert(views(out@) =~= views(orig.take(taken)).map_values(
                |i: state::ItemV| spec_site_item(i, tv),
            ));
        }
    }
    proof {
        assert(orig.take(taken) =~= orig);
    }
    out
}

/// The items of a source list flattened in order, each carrying its
/// owning source's name and id.
pub open spec fn flat_site_items(sources: Seq<state::SourceV>) -> Seq<SiteItemV> {
    sources.map_values(|s: state::SourceV| spec_source_site_items(s)).flatten()
}

/// Flattens the items of the given sources, in source order then feed
/// order.
pub fn collect_site_items(sources: Vec<state::Source>) -> (r: Vec<Item>)
    ensures
        views(r@) == flat_site_items(views(sources@)),
{
    let ghost orig: Seq<state::Source> = sources@;
    let mut rest = sources;
    let mut out: Vec<Item> = Vec::new();
    let ghost mut taken: int = 0;
    proof {
        assert(views(orig.take(0)).map_values(|s: state::SourceV| spec_source_site_items(s))
            =~= Seq::<Seq<SiteItemV>>::empty());
        assert(flat_site_items(views(orig.take(0))) =~= Seq::<SiteItemV>::empty());
        assert(views(out@) =~= Seq::<SiteItemV>::empty());
    }
    #[verifier::loop_isolation(false)]
    while rest.len() > 0
        invariant
            0 <= taken <= orig.len(),
            rest@ == orig.skip(taken),
            views(out@) == flat_site_items(views(orig.take(taken))),
        decreases rest@.len(),
    {
        let source = rest.remove(0);
        proof {
            assert(orig.skip(taken)[0] == orig[taken]);
        }
        let ghost sv = source@;
        let mut part = site_items_of_source(source);
        let ghost prev = views(out@);
        let ghost part_v = views(part@);
        out.append(&mut part);
        proof {
            assert(views(out@) =~= prev + part_v);
            let mapped = views(orig.take(taken)).map_values(
                |s: state::SourceV| spec_source_site_items(s),
            );
            let mapped_next = views(orig.take(taken + 1)).map_values(
                |s: state::SourceV| spec_source_site_items(s),
            );
            assert(views(orig.take(taken + 1)) =~= views(orig.take(taken)).push(sv));
            assert(mapped_next =~= mapped.push(spec_source_site_items(sv)));
            mapped.lemma_flatten_push(spec_source_site_items(sv));
            taken = taken + 1;
            assert(rest@ =~= orig.skip(taken));
            assert(views(out@) == flat_site_items(views(orig.take(taken))));
        }
    }
    proof {
        assert(orig.take(taken) =~= orig);
    }
    out
}

// ---------------------------------------------------------------------------
// Category pages
// ---------------------------------------------------------------------------
/// The reference a category title yields: its derived id and the title,
/// both escaped.
pub open spec fn spec_category_ref(c: Seq<char>) -> CategoryReferenceV {
    CategoryReferenceV {
        id: spec_escape_html(spec_title_to_id(c)),
        title: spec_escape_html(c),
    }
}

/// Builds the reference for one category title.
pub fn category_ref_of(title: &String) -> (r: CategoryReference)
    ensures
        r@ == spec_category_ref(title@),
{
    CategoryReference {
        id: escape_html(title_to_id(title.clone()).as_str()),
        title: escape_html(title.as_str()),
    }
}

/// The category model built from an id, a title, the sources of the
/// category, and the other categories' titles: escaped texts, the items
/// flattened and sorted newest first, and one reference per other title.
pub open spec fn spec_make_category(
    id: Seq<char>,
    title: Seq<char>,
    sources: Seq<state::SourceV>,
    others: Seq<Seq<char>>,
) -> CategoryV {
    CategoryV {
        id: spec_escape_html(id),
        title: spec_escape_html(title),
        items: crate::order::sort_items_desc(flat_site_items(sources)),
        other_categories: others.map_values(|c: Seq<char>| spec_category_ref(c)),
    }
}

impl Category {
    /// Builds one category page model.
    pub fn make(
        id: String,
        title: String,
        sources: Vec<state::Source>,
        other_categories: Vec<String>,
    ) -> (r: Category)
        ensures
            r@ == spec_make_category(id@, title@, views(sources@), views(other_categories@)),
    {
        let items = crate::order::sort_items_by_recency(collect_site_items(sources));
        let ghost others_orig: Seq<String> = other_categories@;
        let mut rest = other_categories;
        let mut refs: Vec<CategoryReference> = Vec::new();
        let ghost mut taken: int = 0;
        proof {
            assert(views(refs@) =~= views(others_orig.take(0)).map_values(
                |c: Seq<char>| spec_category_ref(c),
            ));
        }
        #[verifier::loop_isolation(false)]
        while rest.len() > 0
            invariant
                0 <= taken <= others_orig.len(),
                rest@ == others_orig.skip(taken),
                views(refs@) == views(others_orig.take(taken)).map_values(
                    |c: Seq<char>| spec_category_ref(c),
                ),
            decreases rest@.len(),
        {
            let c = rest.remove(0);
            proof {
                assert(others_orig.skip(taken)[0] == others_orig[taken]);
            }
            let r_new = category_ref_of(&c);
            let ghost prev = views(refs@);
            let ghost rv = r_new@;
            refs.push(r_new);
            proof {
                assert(views(refs@) =~= prev.push(rv));
                taken = taken + 1;
                assert(rest@ =~= others_orig.skip(taken));
                assert(views(refs@) =~= views(others_orig.take(taken)).map_values(
                    |c: Seq<char>| spec_category_ref(c),
                ));
            }
        }
        proof {
            assert(others_orig.take(taken) =~= others_orig);
        }
        Category {
            id: escape_html(id.as_str()),
            title: escape_html(title.as_str()),
            items,
            other_categories: refs,
        }
    }
}

// ---------------------------------------------------------------------------
// Source pages
// ---------------------------------------------------------------------------
/// The source page model a state source projects to: escaped texts, the
/// derived ids, and the items sorted newest first.
pub open spec fn spec_site_source(s: state::SourceV) -> SiteSourceV {
    SiteSourceV {
        id: spec_escape_html(spec_title_to_id(s.title)),
        title: spec_escape_html(s.title),
        items: crate::order::sort_items_desc(spec_source_site_items(s)),
        category_id: spec_escape_html(spec_title_to_id(s.category)),
        category_name: spec_escape_html(s.category),
    }
}

impl Source {
    /// Builds the page model of one loaded source.
    pub fn from_source_state(source: state::Source) -> (r: Source)
        ensures
            r@ == spec_site_source(source@),
    {
        let title = source.title.clone();
        let category_name = source.category.title.clone();
        let items = crate::order::sort_items_by_recency(site_items_of_source(source));
        Source {
            id: escape_html(title_to_id(title.clone()).as_str()),
            title: escape_html(title.as_str()),
            items,
            category_id: escape_html(title_to_id(category_name.clone()).as_str()),
            category_name: escape_html(category_name.as_str()),
        }
    }

    /// An element-wise copy with a fully known result.
    pub fn duplicate(&self) -> (r: Source)
        ensures
            r@ == self@,
    {
        Source {
            id: self.id.clone(),
            title: self.title.clone(),
            items: duplicate_site_items(&self.items),
            category_id: self.category_id.clone(),
            category_name: self.category_name.clone(),
        }
    }
}

/// An element-wise copy of a source model vector with a fully known
/// result.
pub fn duplicate_site_sources(sources: &Vec<Source>) -> (r: Vec<Source>)
    ensures
        views(r@) == views(sources@),
{
    let mut out: Vec<Source> = Vec::new();
    let mut i: usize = 0;
    proof {
        assert(views(out@) =~= views(sources@.take(0)));
    }
    #[verifier::loop_isolation(false)]
    while i < sources.len()
        invariant
            0 <= i <= sources@.len(),
            views(out@) == views(sources@.take(i as int)),
        decreases sources@.len() - i,
    {
        let copy = sources[i].duplicate();
        let ghost prev = views(out@);
        let ghost cv = copy@;
        out.push(copy);
        proof {
            assert(views(out@) =~= prev.push(cv));
            assert(views(out@) =~= views(sources@.take(i + 1)));
        }
        i = i + 1;
    }
    proof {
        assert(sources@.take(sources@.len() as int) =~= sources@);
    }
    out
}

// ---------------------------------------------------------------------------
// The whole site model
// ---------------------------------------------------------------------------
/// The sources of one category, in state order.
pub open spec fn spec_sources_with_category(
    ss: Seq<state::SourceV>,
    t: Seq<char>,
) -> Seq<state::SourceV>
    decreases ss.len(),
{
    if ss.len() == 0 {
        Seq::empty()
    } else {
        let rest = spec_sources_with_category(ss.drop_last(), t);
        if ss.last().category == t {
            rest.push(ss.last())
        } else {
            rest
        }
    }
}

/// Every title of the list but the given one, in list order.
pub open spec fn spec_other_titles(titles: Seq<Seq<char>>, t: Seq<char>) -> Seq<Seq<char>>
    decreases titles.len(),
{
    if titles.len() == 0 {
        Seq::empty()
    } else {
        let rest = spec_other_titles(titles.drop_last(), t);
        if titles.last() != t {
            rest.push(titles.last())
        } else {
            rest
        }
    }
}

/// The page model of the category with title `t`.
pub open spec fn spec_category_model(ss: Seq<state::SourceV>, t: Seq<char>) -> CategoryV {
    spec_make_category(
        spec_title_to_id(t),
        t,
        spec_sources_with_category(ss, t),
        spec_other_titles(crate::order::distinct_sorted_titles(ss), t),
    )
}

/// The category page models of a state, one per distinct category title,
/// in sorted title order.
pub open spec fn spec_categories(ss: Seq<state::SourceV>) -> Seq<CategoryV> {
    crate::order::distinct_sorted_titles(ss).map_values(
        |t: Seq<char>| spec_category_model(ss, t),
    )
}

/// The source page models of a state, sorted by title.
pub open spec fn spec_site_sources(ss: Seq<state::SourceV>) -> Seq<SiteSourceV> {
    crate::order::sort_sources_by_title_spec(
        ss.map_values(|s: state::SourceV| spec_site_source(s)),
    )
}

/// The index model of a state: one reference per category in sorted
/// order, and the sorted source listing.
pub open spec fn spec_index(ss: Seq<state::SourceV>) -> IndexV {
    IndexV {
        categories: crate::order::distinct_sorted_titles(ss).map_values(
            |t: Seq<char>| spec_category_ref(t),
        ),
        sources: spec_site_sources(ss),
    }
}

/// The renderable models of one run: the category pages, the source
/// pages, and the index.
#[derive(Debug)]
pub struct SiteModel {
    pub categories: Vec<Category>,
    pub sources: Vec<Source>,
    pub index: Index,
}

/// Builds every page model of a state: one category model per distinct
/// category title in sorted order, one source model per source sorted by
/// title, and the index listing both.
pub fn make_site_models(state: state::State) -> (r: SiteModel)
    ensures
        views(r.categories@) == spec_categories(state@),
        views(r.sources@) == spec_site_sources(state@),
        r.index@ == spec_index(state@),
{
    let ghost ssv: Seq<state::SourceV> = state@;
    let titles = crate::order::collect_category_titles(&state.sources);
    let ghost titles_v: Seq<Seq<char>> = views(titles@);

    // Category page models, one per sorted distinct title.
    let mut categories: Vec<Category> = Vec::new();
    let mut i: usize = 0;
    proof {
        assert(views(categories@) =~= titles_v.take(0).map_values(
            |t: Seq<char>| spec_category_model(ssv, t),
        ));
    }
    #[verifier::loop_isolation(false)]
    while i < titles.len()
        invariant
            0 <= i <= titles@.len(),
            views(categories@) == titles_v.take(i as int).map_values(
                |t: Seq<char>| spec_category_model(ssv, t),
            ),
        decreases titles@.len() - i,
    {
        let t = titles[i].clone();
        let ghost tv = t@;
        proof {
            assert(titles_v[i as int] == tv);
        }
        let group = sources_in_category(&state.sources, &t);
        let mut others: Vec<String> = Vec::new();
        let mut j: usize = 0;
        proof {
            assert(titles_v.take(0) =~= Seq::<Seq<char>>::empty());
            assert(views(others@) =~= spec_other_titles(titles_v.take(0), tv));
        }
        #[verifier::loop_isolation(false)]
        while j < titles.len()
            invariant
                0 <= j <= titles@.len(),
                views(others@) == spec_other_titles(titles_v.take(j as int), tv),
            decreases titles@.len() - j,
        {
            proof {
                assert(titles_v.take(j + 1).drop_last() =~= titles_v.take(j as int));
                assert(titles_v.take(j + 1).last() == titles_v[j as int]);
            }
            if !titles[j].eq(&t) {
                let other = titles[j].clone();
                let ghost prev = views(others@);
                let ghost ov = other@;
                others.push(other);
                proof {
                    assert(views(others@) =~= prev.push(ov));
                    assert(views(others@) == spec_other_titles(titles_v.take(j + 1), tv));
                }
            } else {
                proof {
                    assert(titles_v[j as int] == tv);
                    assert(views(others@) == spec_other_titles(titles_v.take(j + 1), tv));
                }
            }
            j = j + 1;
        }
        proof {
            assert(titles_v.take(titles_v.len() as int) =~= titles_v);
        }
        let id = title_to_id(t.clone());
        let category = Category::make(id, t, group, others);
        let ghost prev = views(categories@);
        let ghost cv = category@;
        categories.push(category);
        proof {
            assert(cv == spec_category_model(ssv, tv));
            assert(views(categories@) =~= prev.push(cv));
            assert(views(categories@) =~= titles_v.take(i + 1).map_values(
                |t: Seq<char>| spec_category_model(ssv, t),
            ));
        }
        i = i + 1;
    }
    proof {
        assert(titles_v.take(titles_v.len() as int) =~= titles_v);
    }

    // Index references, one per sorted distinct title.
    let mut refs: Vec<CategoryReference> = Vec::new();
    let mut k: usize = 0;
    proof {
        assert(views(refs@) =~= titles_v.take(0).map_values(
            |t: Seq<char>| spec_category_ref(t),
        ));
    }
    #[verifier::loop_isolation(false)]
    while k < titles.len()
        invariant
            0 <= k <= titles@.len(),
            views(refs@) == titles_v.take(k as int).map_values(
                |t: Seq<char>| spec_category_ref(t),
            ),
        decreases titles@.len() - k,
    {
        let reference = category_ref_of(&titles[k]);
        let ghost prev = views(refs@);
        let ghost rv = reference@;
        refs.push(reference);
        proof {
            assert(views(refs@) =~= prev.push(rv));
            assert(views(refs@) =~= titles_v.take(k + 1).map_values(
                |t: Seq<char>| spec_category_ref(t),
            ));
        }
        k = k + 1;
    }
    proof {
        assert(titles_v.take(titles_v.len() as int) =~= titles_v);
    }

    // Source page models, sorted by title.
    let ghost sources_orig: Seq<state::Source> = state.sources@;
    let mut rest = state.sources;
    let mut site_sources: Vec<Source> = Vec::new();
    let ghost mut taken: int = 0;
    proof {
        assert(views(site_sources@) =~= views(sources_orig.take(0)).map_values(
            |s: state::SourceV| spec_site_source(s),
        ));
    }
    #[verifier::loop_isolation(false)]
    while rest.len() > 0
        invariant
            0 <= taken <= sources_orig.len(),
            rest@ == sources_orig.skip(taken),
            views(site_sources@) == views(sources_orig.take(taken)).map_values(
                |s: state::SourceV| spec_site_source(s),
            ),
        decreases rest@.len(),
    {
        let source = rest.remove(0);
        proof {
            assert(sources_orig.skip(taken)[0] == sources_orig[taken]);
        }
        let model = Source::from_source_state(source);
        let ghost prev = views(site_sources@);
        let ghost mv = model@;
        site_sources.push(model);
        proof {
            assert(views(site_sources@) =~= prev.push(mv));
            taken = taken + 1;
            assert(rest@ =~= sources_orig.skip(taken));
            assert(views(site_sources@) =~= views(sources_orig.take(taken)).map_values(
                |s: state::SourceV| spec_site_source(s),
            ));
        }
    }
    proof {
        assert(sources_orig.take(taken) =~= sources_orig);
        assert(views(sources_orig).map_values(|s: state::SourceV| spec_site_source(s)) =~= ssv
            .map_values(|s: state::SourceV| spec_site_source(s)));
    }
    let sorted_sources = crate::order::sort_sources_by_title(site_sources);
    let index_sources = duplicate_site_sources(&sorted_sources);

    proof {
        assert(views(sorted_sources@) == spec_site_sources(ssv));
        assert(titles_v == crate::order::distinct_sorted_titles(ssv));
    }
    SiteModel {
        categories,
        sources: sorted_sources,
        index: Index { categories: refs, sources: index_sources },
    }
}

/// The file every rendered source page is written to: its id under the
/// sources directory.
pub open spec fn spec_source_page_path(id: Seq<char>) -> Seq<char> {
    "./site/sources/"@ + id + ".html"@
}

/// The file every rendered category page is written to: its id under the
/// categories directory.
pub open spec fn spec_category_page_path(id: Seq<char>) -> Seq<char> {
    "./site/categories/"@ + id + ".html"@
}

/// The path of the source page with the given id.
pub fn source_page_path(id: &String) -> (r: String)
    ensures
        r@ == spec_source_page_path(id@),
{
    let mut path = String::from_str("./site/sources/");
    path.append(id.as_str());
    path.append(".html");
    path
}

/// The path of the category page with the given id.
pub fn category_page_path(id: &String) -> (r: String)
    ensures
        r@ == spec_category_page_path(id@),
{
    let mut path = String::from_str("./site/categories/");
    path.append(id.as_str());
    path.append(".html");
    path
}

/// The path of the index page.
pub fn index_path() -> (r: String)
    ensures
        r@ == "./site/index.html"@,
{
    String::from_str("./site/index.html")
}

/// Picks out the sources whose category has the given title, keeping
/// their order.
pub fn sources_in_category(sources: &Vec<state::Source>, title: &String) -> (r: Vec<
    state::Source,
>)
    ensures
        views(r@) == spec_sources_with_category(views(sources@), title@),
{
    let mut out: Vec<state::Source> = Vec::new();
    let mut i: usize = 0;
    proof {
        assert(views(sources@.take(0)) =~= Seq::<state::SourceV>::empty());
        assert(views(out@) =~= spec_sources_with_category(views(sources@.take(0)), title@));
    }
    #[verifier::loop_isolation(false)]
    while i < sources.len()
        invariant
            0 <= i <= sources@.len(),
            views(out@) == spec_sources_with_category(views(sources@.take(i as int)), title@),
        decreases sources@.len() - i,
    {
        proof {
            assert(views(sources@.take(i + 1)).drop_last() =~= views(sources@.take(i as int)));
            assert(views(sources@.take(i + 1)).last() == sources@[i as int]@);
        }
        if sources[i].category.title.eq(title) {
            let copy = sources[i].duplicate();
            let ghost prev = views(out@);
            let ghost cv = copy@;
            out.push(copy);
            proof {
                assert(views(out@) =~= prev.push(cv));
                assert(views(out@) == spec_sources_with_category(
                    views(sources@.take(i + 1)),
                    title@,
                ));
            }
        } else {
            proof {
                assert(views(out@) == spec_sources_with_category(
                    views(sources@.take(i + 1)),
                    title@,
                ));
            }
        }
        i = i + 1;
    }
    proof {
        assert(sources@.take(sources@.len() as int) =~= sources@);
    }
    out
}

} // verus!
