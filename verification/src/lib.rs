//! A static-site generator core for a personal news aggregator.
//!
//! The library covers the staged transformation from a feed configuration to
//! renderable page models: parsing fetched feed bodies into a uniform item
//! model, filtering items by recency, grouping sources into categories, and
//! assembling sorted, HTML-escaped site models. Fetching, template rendering
//! and file writing are left to the surrounding application.

pub mod config;
pub mod feed;
pub mod laws;
pub mod order;
pub mod program;
pub mod result_ops;
pub mod site;
pub mod state;
pub mod text;

use vstd::prelude::*;

verus! {

/// The views of the elements of a sequence, in order.
pub open spec fn views<T: View>(s: Seq<T>) -> Seq<T::V> {
    s.map_values(|x: T| x@)
}

/// Taking views commutes with inserting an element.
pub proof fn lemma_views_insert<T: View>(s: Seq<T>, i: int, x: T)
    requires
        0 <= i <= s.len(),
    ensures
        views(s.insert(i, x)) == views(s).insert(i, x@),
{
    assert(views(s.insert(i, x)) =~= views(s).insert(i, x@));
}

} // verus!
