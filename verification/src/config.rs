//! The contents of `config.json`: which files are counted.
use vstd::prelude::*;

use crate::text::string_views;

verus! {

/// Which files the step counter looks at.
pub struct Config {
    /// Extensions of the files that are counted (without the dot).
    pub included_extensions: Vec<String>,
    /// Endings of file names that are never counted.
    pub exclude_files: Vec<String>,
}

impl Config {
    /// The included extensions, as text.
    pub open spec fn extensions(&self) -> Seq<Seq<char>> {
        string_views(self.included_extensions@)
    }

    /// The excluded name endings, as text.
    pub open spec fn exclusions(&self) -> Seq<Seq<char>> {
        string_views(self.exclude_files@)
    }
}

} // verus!
