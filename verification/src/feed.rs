//! Raw feed entries as the outside parsers hand them over, before they are
//! projected onto the uniform item model.

use vstd::prelude::*;

verus! {

/// The view of a raw RSS entry.
pub ghost struct RssEntryV {
    pub title: Option<Seq<char>>,
    pub link: Option<Seq<char>>,
    pub pub_date: Option<Seq<char>>,
}

/// One `<item>` of an RSS channel, reduced to the fields this pipeline
/// reads: title, link, and the RFC 2822 publication date, each optional.
#[derive(Debug)]
pub struct RssEntry {
    pub title: Option<String>,
    pub link: Option<String>,
    pub pub_date: Option<String>,
}

impl View for RssEntry {
    type V = RssEntryV;

    open spec fn view(&self) -> RssEntryV {
        RssEntryV {
            title: match self.title {
                Some(ref t) => Some(t@),
                None => None,
            },
            link: match self.link {
                Some(ref l) => Some(l@),
                None => None,
            },
            pub_date: match self.pub_date {
                Some(ref d) => Some(d@),
                None => None,
            },
        }
    }
}

/// The view of a raw Atom entry.
pub ghost struct AtomEntryV {
    pub title: Seq<char>,
    pub link: Option<Seq<char>>,
    pub published: Option<int>,
}

/// One `<entry>` of an Atom feed, reduced to the fields this pipeline
/// reads: title, the href of the first link, and the publication instant
/// as a Unix timestamp in seconds.
#[derive(Debug)]
pub struct AtomEntry {
    pub title: String,
    pub link: Option<String>,
    pub published: Option<i64>,
}

impl View for AtomEntry {
    type V = AtomEntryV;

    open spec fn view(&self) -> AtomEntryV {
        AtomEntryV {
            title: self.title@,
            link: match self.link {
                Some(ref l) => Some(l@),
                None => None,
            },
            published: match self.published {
                Some(t) => Some(t as int),
                None => None,
            },
        }
    }
}

/// What parsing a byte string as an RSS channel yields: `None` when the
/// bytes are not a well-formed channel, otherwise the entries in feed order.
pub uninterp spec fn rss_entries_of(bytes: Seq<u8>) -> Option<Seq<RssEntryV>>;

/// What parsing a byte string as an Atom feed yields: `None` when the bytes
/// are not a well-formed feed, otherwise the entries in feed order.
pub uninterp spec fn atom_entries_of(bytes: Seq<u8>) -> Option<Seq<AtomEntryV>>;

/// The timestamp an RFC 2822 date string denotes, if it is well formed; a
/// function of the characters alone.
pub uninterp spec fn rfc2822_ts_of(s: Seq<char>) -> Option<int>;

/// The ISO calendar date (as text) of a Unix timestamp; a function of the
/// timestamp alone.
pub uninterp spec fn date_str_of(ts: int) -> Seq<char>;

/// Relies on rss::Channel::read_from: parsing is a function of the bytes
/// alone; on success the entries carry the items' title, link and pubDate
/// text in feed order.
#[verifier::external_body]
pub(crate) fn parse_rss(bytes: &[u8]) -> (r: Result<Vec<RssEntry>, String>)
    ensures
        match r {
            Ok(entries) => rss_entries_of(bytes@) == Some(crate::views(entries@)),
            Err(_) => rss_entries_of(bytes@) is None,
        },
{
    match rss::Channel::read_from(bytes) {
        Ok(channel) => Ok(
            channel.items().iter().map(
                |i| RssEntry {
                    title: i.title().map(|t| t.to_string()),
                    link: i.link().map(|l| l.to_string()),
                    pub_date: i.pub_date().map(|d| d.to_string()),
                },
            ).collect(),
        ),
        Err(e) => Err(e.to_string()),
    }
}

/// Relies on atom_syndication::Feed::read_from: parsing is a function of
/// the bytes alone; on success the entries carry each entry's title text,
/// first link href, and published instant (as a Unix timestamp via
/// chrono's DateTime::timestamp) in feed order.
#[verifier::external_body]
pub(crate) fn parse_atom(bytes: &[u8]) -> (r: Result<Vec<AtomEntry>, String>)
    ensures
        match r {
            Ok(entries) => atom_entries_of(bytes@) == Some(crate::views(entries@)),
            Err(_) => atom_entries_of(bytes@) is None,
        },
{
    match atom_syndication::Feed::read_from(bytes) {
        Ok(feed) => Ok(
            feed.entries().iter().map(
                |e| AtomEntry {
                    title: e.title().value.clone(),
                    link: e.links().first().map(|l| l.href.clone()),
                    published: e.published().map(|p| p.timestamp()),
                },
            ).collect(),
        ),
        Err(e) => Err(e.to_string()),
    }
}

/// Relies on chrono::DateTime::parse_from_rfc2822 and
/// chrono::DateTime::timestamp: the parse result is a function of the
/// string alone; failures degrade to `None`.
#[verifier::external_body]
pub(crate) fn parse_rfc2822_timestamp(s: &str) -> (r: Option<i64>)
    ensures
        match r {
            Some(t) => rfc2822_ts_of(s@) == Some(t as int),
            None => rfc2822_ts_of(s@) is None,
        },
{
    chrono::DateTime::parse_from_rfc2822(s).ok().map(|d| d.timestamp())
}

/// Relies on chrono::DateTime::from_timestamp and chrono::NaiveDate's
/// display form: the date text is a function of the timestamp alone (empty
/// for timestamps outside chrono's range).
#[verifier::external_body]
pub(crate) fn date_string(ts: i64) -> (r: String)
    ensures
        r@ == date_str_of(ts as int),
{
    match chrono::DateTime::<chrono::Utc>::from_timestamp(ts, 0) {
        Some(d) => d.date_naive().to_string(),
        None => String::new(),
    }
}

} // verus!
