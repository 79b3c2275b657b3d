//! The in-memory state of one run: loaded sources with their normalized
//! items, filtered by recency.

use vstd::prelude::*;
use vstd::string::*;
use crate::config::SourceType;
use crate::feed::AtomEntryV;
use crate::feed::RssEntryV;
use crate::feed::atom_entries_of;
use crate::feed::parse_atom;
use crate::feed::parse_rfc2822_timestamp;
use crate::feed::parse_rss;
use crate::feed::rfc2822_ts_of;
use crate::feed::rss_entries_of;
use crate::views;

verus! {

/// The length of the recency window: items older than this many seconds
/// before "now" are dropped.
pub const RECENCY_WINDOW_SECONDS: i64 = 259200;

/// The view of a normalized feed item.
pub ghost struct ItemV {
    pub title: Seq<char>,
    pub link: Seq<char>,
    pub published_at: Option<int>,
}

/// One feed entry normalized to the uniform model: title and link (empty
/// when the feed gives none) and an optional publication timestamp.
#[derive(Debug)]
pub struct Item {
    pub title: String,
    pub link: String,
    pub published_at: Option<i64>,
}

impl View for Item {
    type V = ItemV;

    open spec fn view(&self) -> ItemV {
        ItemV {
            title: self.title@,
            link: self.link@,
            published_at: match self.published_at {
                Some(t) => Some(t as int),
                None => None,
            },
        }
    }
}

impl Item {
    /// An element-wise copy with a fully known result.
    pub fn duplicate(&self) -> (r: Item)
        ensures
            r@ == self@,
    {
        Item {
            title: self.title.clone(),
            link: self.link.clone(),
            published_at: match self.published_at {
                Some(t) => Some(t),
                None => None,
            },
        }
    }
}

/// An element-wise copy of an item vector with a fully known result.
pub fn duplicate_items(items: &Vec<Item>) -> (r: Vec<Item>)
    ensures
        views(r@) == views(items@),
{
    let mut out: Vec<Item> = Vec::new();
    let mut i: usize = 0;
    proof {
        assert(views(out@) =~= views(items@.take(0)));
    }
    #[verifier::loop_isolation(false)]
    while i < items.len()
        invariant
            0 <= i <= items@.len(),
            views(out@) == views(items@.take(i as int)),
        decreases items@.len() - i,
    {
        let copy = items[i].duplicate();
        let ghost prev = views(out@);
        let ghost cv = copy@;
        out.push(copy);
        proof {
            assert(views(out@) =~= prev.push(cv));
            assert(views(out@) =~= views(items@.take(i + 1)));
        }
        i = i + 1;
    }
    proof {
        assert(items@.take(items@.len() as int) =~= items@);
    }
    out
}

/// The grouping label a source was configured with.
#[derive(Debug)]
pub struct Category {
    pub title: String,
}

impl View for Category {
    type V = Seq<char>;

    open spec fn view(&self) -> Seq<char> {
        self.title@
    }
}

/// The view of a loaded source.
pub ghost struct SourceV {
    pub title: Seq<char>,
    pub items: Seq<ItemV>,
    pub category: Seq<char>,
    pub link: Seq<char>,
}

/// One successfully loaded feed: the configured title, link and category,
/// and the normalized items in feed order.
#[derive(Debug)]
pub struct Source {
    pub title: String,
    pub items: Vec<Item>,
    pub category: Category,
    pub link: String,
}

impl View for Source {
    type V = SourceV;

    open spec fn view(&self) -> SourceV {
        SourceV {
            title: self.title@,
            items: views(self.items@),
            category: self.category@,
            link: self.link@,
        }
    }
}

/// The collection of loaded, filtered sources for one run, in config order.
#[derive(Debug)]
pub struct State {
    pub sources: Vec<Source>,
}

impl View for State {
    type V = Seq<SourceV>;

    open spec fn view(&self) -> Seq<SourceV> {
        views(self.sources@)
    }
}

// ---------------------------------------------------------------------------
// Projection of raw entries onto the item model
// ---------------------------------------------------------------------------
/// The item an RSS entry projects to: missing texts become empty, and the
/// pubDate text is read as an RFC 2822 instant, parse failures degrading
/// to `None`.
pub open spec fn spec_item_of_rss(e: RssEntryV) -> ItemV {
    ItemV {
        title: match e.title {
            Some(t) => t,
            None => Seq::empty(),
        },
        link: match e.link {
            Some(l) => l,
            None => Seq::empty(),
        },
        published_at: match e.pub_date {
            Some(d) => rfc2822_ts_of(d),
            None => None,
        },
    }
}

/// The item an Atom entry projects to.
pub open spec fn spec_item_of_atom(e: AtomEntryV) -> ItemV {
    ItemV {
        title: e.title,
        link: match e.link {
            Some(l) => l,
            None => Seq::empty(),
        },
        published_at: e.published,
    }
}

/// The item sequence a sequence of RSS entries projects to.
pub open spec fn rss_items_of(entries: Seq<RssEntryV>) -> Seq<ItemV> {
    entries.map_values(|e: RssEntryV| spec_item_of_rss(e))
}

/// The item sequence a sequence of Atom entries projects to.
pub open spec fn atom_items_of(entries: Seq<AtomEntryV>) -> Seq<ItemV> {
    entries.map_values(|e: AtomEntryV| spec_item_of_atom(e))
}

/// Projects parsed RSS entries onto the uniform item model, in order.
pub fn items_from_rss(entries: Vec<crate::feed::RssEntry>) -> (r: Vec<Item>)
    ensures
        views(r@) == rss_items_of(views(entries@)),
{
    let ghost orig: Seq<crate::feed::RssEntry> = entries@;
    let mut rest = entries;
    let mut out: Vec<Item> = Vec::new();
    let ghost mut taken: int = 0;
    #[verifier::loop_isolation(false)]
    while rest.len() > 0
        invariant
            0 <= taken <= orig.len(),
            rest@ == orig.skip(taken),
            views(out@) == rss_items_of(views(orig.take(taken))),
        decreases rest@.len(),
    {
        let e = rest.remove(0);
        proof {
            assert(orig.skip(taken)[0] == orig[taken]);
        }
        let published_at = match &e.pub_date {
            Some(d) => parse_rfc2822_timestamp(d.as_str()),
            None => None,
        };
        let title = match e.title {
            Some(t) => t,
            None => String::new(),
        };
        let link = match e.link {
            Some(l) => l,
            None => String::new(),
        };
        let item = Item { title, link, published_at };
        proof {
            assert(item@ == spec_item_of_rss(orig[taken]@));
        }
        let ghost prev = views(out@);
        out.push(item);
        proof {
            assert(views(out@) =~= prev.push(item@));
            let prefix = views(orig.take(taken));
            assert(views(orig.take(taken + 1)) =~= prefix.push(orig[taken]@));
            assert(rss_items_of(prefix.push(orig[taken]@)) =~= rss_items_of(prefix).push(
                spec_item_of_rss(orig[taken]@),
            ));
            taken = taken + 1;
            assert(rest@ =~= orig.skip(taken));
            assert(views(out@) == rss_items_of(views(orig.take(taken))));
        }
    }
    proof {
        assert(orig.take(taken) =~= orig);
    }
    out
}

/// Projects parsed Atom entries onto the uniform item model, in order.
pub fn items_from_atom(entries: Vec<crate::feed::AtomEntry>) -> (r: Vec<Item>)
    ensures
        views(r@) == atom_items_of(views(entries@)),
{
    let ghost orig: Seq<crate::feed::AtomEntry> = entries@;
    let mut rest = entries;
    let mut out: Vec<Item> = Vec::new();
    let ghost mut taken: int = 0;
    #[verifier::loop_isolation(false)]
    while rest.len() > 0
        invariant
            0 <= taken <= orig.len(),
            rest@ == orig.skip(taken),
            views(out@) == atom_items_of(views(orig.take(taken))),
        decreases rest@.len(),
    {
        let e = rest.remove(0);
        proof {
            assert(orig.skip(taken)[0] == orig[taken]);
        }
        let link = match e.link {
            Some(l) => l,
            None => String::new(),
        };
        let item = Item { title: e.title, link, published_at: e.published };
        proof {
            assert(item@ == spec_item_of_atom(orig[taken]@));
        }
        let ghost prev = views(out@);
        out.push(item);
        proof {
            assert(views(out@) =~= prev.push(item@));
            let prefix = views(orig.take(taken));
            assert(views(orig.take(taken + 1)) =~= prefix.push(orig[taken]@));
            assert(atom_items_of(prefix.push(orig[taken]@)) =~= atom_items_of(prefix).push(
                spec_item_of_atom(orig[taken]@),
            ));
            taken = taken + 1;
            assert(rest@ =~= orig.skip(taken));
            assert(views(out@) == atom_items_of(views(orig.take(taken))));
        }
    }
    proof {
        assert(orig.take(taken) =~= orig);
    }
    out
}

// ---------------------------------------------------------------------------
// Loading
// ---------------------------------------------------------------------------
/// The source a feed body yields under a given declaration, or `None` when
/// the body does not parse in the declared format.
pub open spec fn spec_load_source(
    cfg: crate::config::ConfigSourceV,
    body: Seq<u8>,
) -> Option<SourceV> {
    let items = match cfg.s_type {
        SourceType::RSS => match rss_entries_of(body) {
            Some(entries) => Some(rss_items_of(entries)),
            None => None,
        },
        SourceType::Atom => match atom_entries_of(body) {
            Some(entries) => Some(atom_items_of(entries)),
            None => None,
        },
    };
    match items {
        Some(items) => Some(
            SourceV { title: cfg.title, items, category: cfg.category, link: cfg.link },
        ),
        None => None,
    }
}

/// The message a failed load carries: the configured title, then the
/// detail.
pub open spec fn spec_load_error_message(title: Seq<char>, detail: Seq<char>) -> Seq<char> {
    "Error loading source '"@ + title + "': "@ + detail
}

impl Source {
    /// Builds a source from an RSS body and its declaration; `Ok` exactly
    /// when the body is a well-formed RSS channel.
    pub fn load_rss(
        feed_link: String,
        feed_title: String,
        category: String,
        body: &[u8],
    ) -> (r: Result<Source, String>)
        ensures
            (r is Ok) <==> (rss_entries_of(body@) is Some),
            r is Ok ==> r->Ok_0@ == (SourceV {
                title: feed_title@,
                items: rss_items_of(rss_entries_of(body@)->0),
                category: category@,
                link: feed_link@,
            }),
    {
        match parse_rss(body) {
            Ok(entries) => {
                let items = items_from_rss(entries);
                Ok(
                    Source {
                        title: feed_title,
                        items,
                        category: Category { title: category },
                        link: feed_link,
                    },
                )
            },
            Err(e) => Err(e),
        }
    }

    /// Builds a source from an Atom body and its declaration; `Ok` exactly
    /// when the body is a well-formed Atom feed.
    pub fn load_atom(
        feed_link: String,
        feed_title: String,
        category_name: String,
        body: &[u8],
    ) -> (r: Result<Source, String>)
        ensures
            (r is Ok) <==> (atom_entries_of(body@) is Some),
            r is Ok ==> r->Ok_0@ == (SourceV {
                title: feed_title@,
                items: atom_items_of(atom_entries_of(body@)->0),
                category: category_name@,
                link: feed_link@,
            }),
    {
        match parse_atom(body) {
            Ok(entries) => {
                let items = items_from_atom(entries);
                Ok(
                    Source {
                        title: feed_title,
                        items,
                        category: Category { title: category_name },
                        link: feed_link,
                    },
                )
            },
            Err(e) => Err(e),
        }
    }

    /// Loads one declared source from its fetched body: dispatches on the
    /// declared type, and prefixes any failure (a failed fetch handed in
    /// as `Err`, or a parse failure) with the source's title.
    pub fn load(
        config_source: crate::config::Source,
        body: Result<Vec<u8>, String>,
    ) -> (r: Result<Source, String>)
        ensures
            (r is Ok) <==> (body is Ok && spec_load_source(config_source@, body->Ok_0@) is Some),
            r is Ok ==> r->Ok_0@ == spec_load_source(config_source@, body->Ok_0@)->0,
            r is Err ==> exists|detail: Seq<char>|
                r->Err_0@ == spec_load_error_message(config_source@.title, detail),
    {
        let title_for_error = config_source.title.clone();
        let inner: Result<Source, String> = match body {
            Ok(bytes) => match config_source.s_type {
                SourceType::RSS => Self::load_rss(
                    config_source.link,
                    config_source.title,
                    config_source.category,
                    bytes.as_slice(),
                ),
                SourceType::Atom => Self::load_atom(
                    config_source.link,
                    config_source.title,
                    config_source.category,
                    bytes.as_slice(),
                ),
            },
            Err(e) => Err(e),
        };
        match inner {
            Ok(source) => Ok(source),
            Err(detail) => {
                let mut message = String::from_str("Error loading source '");
                message.append(title_for_error.as_str());
                message.append("': ");
                message.append(detail.as_str());
                proof {
                    assert(message@ == spec_load_error_message(
                        config_source@.title,
                        detail@,
                    ));
                }
                Err(message)
            },
        }
    }

    /// An element-wise copy with a fully known result.
    pub fn duplicate(&self) -> (r: Source)
        ensures
            r@ == self@,
    {
        Source {
            title: self.title.clone(),
            items: duplicate_items(&self.items),
            category: Category { title: self.category.title.clone() },
            link: self.link.clone(),
        }
    }

    /// Keeps only the items whose publication instant is known and not
    /// before `after`; the rest of the source is unchanged.
    pub fn filter_items_by_date(self, after: i64) -> (r: Source)
        ensures
            r@.title == self@.title,
            r@.link == self@.link,
            r@.category == self@.category,
            r@.items == spec_recent_items(self@.items, after as int),
    {
        let ghost orig: Seq<Item> = self.items@;
        let mut rest = self.items;
        let mut filtered: Vec<Item> = Vec::new();
        let ghost mut taken: int = 0;
        proof {
            assert(views(orig.take(0)) =~= Seq::<ItemV>::empty());
            assert(views(filtered@) =~= spec_recent_items(views(orig.take(0)), after as int));
        }
        #[verifier::loop_isolation(false)]
        while rest.len() > 0
            invariant
                0 <= taken <= orig.len(),
                rest@ == orig.skip(taken),
                views(filtered@) == spec_recent_items(views(orig.take(taken)), after as int),
            decreases rest@.len(),
        {
            let item = rest.remove(0);
            proof {
                assert(orig.skip(taken)[0] == orig[taken]);
                assert(views(orig.take(taken + 1)).drop_last() =~= views(orig.take(taken)));
                assert(views(orig.take(taken + 1)).last() == orig[taken]@);
            }
            let keep = match item.published_at {
                Some(ts) => ts >= after,
                None => false,
            };
            if keep {
                let ghost prev = views(filtered@);
                let ghost iv = item@;
                filtered.push(item);
                proof {
                    assert(views(filtered@) =~= prev.push(iv));
                    assert(views(filtered@) == spec_recent_items(
                        views(orig.take(taken + 1)),
                        after as int,
                    ));
                }
            } else {
                proof {
                    assert(views(filtered@) == spec_recent_items(
                        views(orig.take(taken + 1)),
                        after as int,
                    ));
                }
            }
            proof {
                taken = taken + 1;
                assert(rest@ =~= orig.skip(taken));
            }
        }
        proof {
            assert(orig.take(taken) =~= orig);
        }
        Source { title: self.title, link: self.link, category: self.category, items: filtered }
    }
}

/// The items whose publication instant is known and not before `after`,
/// in their original order.
pub open spec fn spec_recent_items(items: Seq<ItemV>, after: int) -> Seq<ItemV>
    decreases items.len(),
{
    if items.len() == 0 {
        Seq::empty()
    } else {
        let rest = spec_recent_items(items.drop_last(), after);
        if items.last().published_at is Some && items.last().published_at->0 >= after {
            rest.push(items.last())
        } else {
            rest
        }
    }
}

// ---------------------------------------------------------------------------
// State assembly: isolated failure mode
// ---------------------------------------------------------------------------
/// The views of the successfully loaded sources, in order.
pub open spec fn ok_sources_of(results: Seq<Result<Source, String>>) -> Seq<SourceV>
    decreases results.len(),
{
    if results.len() == 0 {
        Seq::empty()
    } else {
        let rest = ok_sources_of(results.drop_last());
        match results.last() {
            Ok(source) => rest.push(source@),
            Err(_) => rest,
        }
    }
}

/// The views of the failure messages, in order.
pub open spec fn err_messages_of(results: Seq<Result<Source, String>>) -> Seq<Seq<char>>
    decreases results.len(),
{
    if results.len() == 0 {
        Seq::empty()
    } else {
        let rest = err_messages_of(results.drop_last());
        match results.last() {
            Ok(_) => rest,
            Err(message) => rest.push(message@),
        }
    }
}

impl State {
    /// Collects load results into a state under the isolated failure
    /// policy: each failed source is omitted and its message is handed
    /// back for logging, and the successful sources keep their config
    /// order. (The alternative, strict policy — abort on the first
    /// failure — is available through `result_ops::traverse_vec`.)
    pub fn assemble(results: Vec<Result<Source, String>>) -> (r: (State, Vec<String>))
        ensures
            views(r.0.sources@) == ok_sources_of(results@),
            views(r.1@) == err_messages_of(results@),
    {
        let ghost orig: Seq<Result<Source, String>> = results@;
        let mut rest = results;
        let mut sources: Vec<Source> = Vec::new();
        let mut errors: Vec<String> = Vec::new();
        let ghost mut taken: int = 0;
        proof {
            assert(orig.take(0) =~= Seq::<Result<Source, String>>::empty());
        }
        #[verifier::loop_isolation(false)]
        while rest.len() > 0
            invariant
                0 <= taken <= orig.len(),
                rest@ == orig.skip(taken),
                views(sources@) == ok_sources_of(orig.take(taken)),
                views(errors@) == err_messages_of(orig.take(taken)),
            decreases rest@.len(),
        {
            let result = rest.remove(0);
            proof {
                assert(orig.skip(taken)[0] == orig[taken]);
                assert(orig.take(taken + 1).drop_last() =~= orig.take(taken));
                assert(orig.take(taken + 1).last() == orig[taken]);
            }
            let ghost prev_sources = views(sources@);
            let ghost prev_errors = views(errors@);
            match result {
                Ok(source) => {
                    proof {
                        assert(orig[taken] is Ok && orig[taken]->Ok_0 == source);
                    }
                    sources.push(source);
                    proof {
                        assert(views(sources@) =~= prev_sources.push(orig[taken]->Ok_0@));
                        assert(views(sources@) == ok_sources_of(orig.take(taken + 1)));
                        assert(views(errors@) == err_messages_of(orig.take(taken + 1)));
                    }
                },
                Err(message) => {
                    proof {
                        assert(orig[taken] is Err && orig[taken]->Err_0 == message);
                    }
                    errors.push(message);
                    proof {
                        assert(views(errors@) =~= prev_errors.push(orig[taken]->Err_0@));
                        assert(views(errors@) == err_messages_of(orig.take(taken + 1)));
                        assert(views(sources@) == ok_sources_of(orig.take(taken + 1)));
                    }
                },
            }
            proof {
                taken = taken + 1;
                assert(rest@ =~= orig.skip(taken));
            }
        }
        proof {
            assert(orig.take(taken) =~= orig);
        }
        (State { sources }, errors)
    }
}

/// The cutoff for the recency filter: three days before the given instant.
pub fn cutoff_timestamp(now_ts: i64) -> (r: i64)
    requires
        now_ts >= i64::MIN + RECENCY_WINDOW_SECONDS,
    ensures
        r == now_ts - RECENCY_WINDOW_SECONDS,
{
    now_ts - RECENCY_WINDOW_SECONDS
}

} // verus!
