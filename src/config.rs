//! The run's configuration, and the language registry it selects.

use vstd::prelude::*;
use crate::registry::{apply_overrides, default_table, inverse, LanguageRegistry};

verus! {

/// The characters of each string of `v`.
pub open spec fn string_views(v: Seq<String>) -> Seq<Seq<char>> {
    v.map_values(|s: String| s@)
}

/// Configuration of one run.
pub struct Config {
    /// Input paths, as a pattern that the caller expands.
    pub input_glob: String,
    /// The directory under which output goes.
    pub output_dir: String,
    /// Report each file written.
    pub verbose: bool,
    /// Plan only: change nothing on disk.
    pub dry_run: bool,
    /// Emit only blocks that name their target with `:tangle`.
    pub tangled: bool,
    /// Turn source files into Markdown instead of the reverse.
    pub untangle: bool,
    /// Put derived output files under a directory named after their language.
    pub by_language: bool,
    /// Overrides `lang=ext` of the language registry, applied in order.
    pub extension: Vec<String>,
}

impl Config {
    /// The registry of this run: the built-in table, then each override of
    /// `extension` in order.
    pub open spec fn registry_view(&self) -> Seq<(Seq<char>, Seq<char>)> {
        apply_overrides(default_table(), string_views(self.extension@))
    }

    /// Returns the language-to-extension registry: the defaults, with the
    /// user's overrides applied in order; a malformed override is ignored.
    pub fn language_extensions(&self) -> (r: LanguageRegistry)
        ensures
            r@ == self.registry_view(),
            r.wf(),
    {
        let mut r = Self::default_extensions();
        let n = self.extension.len();
        let mut i: usize = 0;
        while i < n
            invariant
                n == self.extension@.len(),
                i <= n,
                r.wf(),
                r@ == apply_overrides(default_table(), string_views(self.extension@).take(i as int)),
            decreases n - i,
        {
            assert(string_views(self.extension@).take(i + 1).drop_last()
                =~= string_views(self.extension@).take(i as int));
            r.apply_override(self.extension[i].as_str());
            i += 1;
        }
        assert(string_views(self.extension@).take(n as int) =~= string_views(self.extension@));
        r
    }

    /// The built-in language-to-extension registry.
    pub fn default_extensions() -> (r: LanguageRegistry)
        ensures
            r@ == default_table(),
            r.wf(),
    {
        LanguageRegistry::defaults()
    }
}

/// The language of the built-in registry whose extension is `extension`;
/// empty where none has it.
pub open spec fn default_language_of(extension: Seq<char>) -> Seq<char> {
    match inverse(default_table(), extension) {
        Some(l) => l,
        None => Seq::empty(),
    }
}

/// Maps a file extension to its language in the built-in registry; an
/// unknown extension gives the empty string.
pub fn extension_to_language(extension: &str) -> (r: String)
    ensures
        r@ == default_language_of(extension@),
{
    match LanguageRegistry::defaults().invert(extension) {
        Some(l) => l,
        None => String::new(),
    }
}

} // verus!
