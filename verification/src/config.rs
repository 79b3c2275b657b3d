//! The feed configuration: a list of source declarations.

use vstd::prelude::*;

verus! {

/// The declared format of a feed.
#[derive(Debug, Clone, Copy, PartialEq, Eq, Structural)]
pub enum SourceType {
    RSS,
    Atom,
}

/// The view of a source declaration.
pub ghost struct ConfigSourceV {
    pub title: Seq<char>,
    pub link: Seq<char>,
    pub category: Seq<char>,
    pub s_type: SourceType,
}

/// One declared feed subscription: a titled, categorized RSS or Atom
/// endpoint.
#[derive(Debug)]
pub struct Source {
    pub title: String,
    pub link: String,
    pub category: String,
    pub s_type: SourceType,
}

impl View for Source {
    type V = ConfigSourceV;

    open spec fn view(&self) -> ConfigSourceV {
        ConfigSourceV {
            title: self.title@,
            link: self.link@,
            category: self.category@,
            s_type: self.s_type,
        }
    }
}

/// The whole configuration: the declared sources, in file order.
#[derive(Debug)]
pub struct Config {
    pub sources: Vec<Source>,
}

impl View for Config {
    type V = Seq<ConfigSourceV>;

    open spec fn view(&self) -> Seq<ConfigSourceV> {
        crate::views(self.sources@)
    }
}

} // verus!
