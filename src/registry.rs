//! The language registry: an ordered table from language identifier to file
//! extension, with unique identifiers, and its inversion.

use vstd::prelude::*;
use vstd::string::*;
use crate::text::{find_char, first_index, same_text, substring};

verus! {

/// The table's entries, each a language identifier and its extension.
pub open spec fn keys_unique(t: Seq<(Seq<char>, Seq<char>)>) -> bool {
    forall|i: int, j: int|
        0 <= i < t.len() && 0 <= j < t.len() && #[trigger] t[i].0 == #[trigger] t[j].0 ==> i == j
}

/// `t` without its entry for `k`, the others in their order.
pub open spec fn without_key(t: Seq<(Seq<char>, Seq<char>)>, k: Seq<char>) -> Seq<(Seq<char>, Seq<char>)>
    decreases t.len(),
{
    if t.len() == 0 {
        t
    } else {
        let rest = without_key(t.drop_last(), k);
        if t.last().0 == k {
            rest
        } else {
            rest.push(t.last())
        }
    }
}

/// `t` with `k` bound to `v`: an earlier binding of `k` goes, the new one comes last.
pub open spec fn bind(t: Seq<(Seq<char>, Seq<char>)>, k: Seq<char>, v: Seq<char>) -> Seq<(Seq<char>, Seq<char>)> {
    without_key(t, k).push((k, v))
}

/// The extension that `t` binds to `lang`.
pub open spec fn lookup(t: Seq<(Seq<char>, Seq<char>)>, lang: Seq<char>) -> Option<Seq<char>> {
    if exists|i: int| 0 <= i < t.len() && t[i].0 == lang {
        Some(t[choose|i: int| 0 <= i < t.len() && t[i].0 == lang].1)
    } else {
        None
    }
}

/// The extension for `lang`, `txt` where `t` does not know it.
pub open spec fn resolve(t: Seq<(Seq<char>, Seq<char>)>, lang: Seq<char>) -> Seq<char> {
    match lookup(t, lang) {
        Some(e) => e,
        None => "txt"@,
    }
}

/// Entry `i` is the last one of `t` with extension `ext`.
pub open spec fn is_last_with_ext(t: Seq<(Seq<char>, Seq<char>)>, ext: Seq<char>, i: int) -> bool {
    &&& 0 <= i < t.len()
    &&& t[i].1 == ext
    &&& forall|j: int| i < j < t.len() ==> t[j].1 != ext
}

/// The language of the last entry of `t` with extension `ext`: of several,
/// the one bound or overridden last.
pub open spec fn inverse(t: Seq<(Seq<char>, Seq<char>)>, ext: Seq<char>) -> Option<Seq<char>> {
    if exists|i: int| is_last_with_ext(t, ext, i) {
        Some(t[choose|i: int| is_last_with_ext(t, ext, i)].0)
    } else {
        None
    }
}

/// The pair that an override `lang=ext` names: split at its first `=`;
/// none where it holds no `=`.
pub open spec fn override_pair(s: Seq<char>) -> Option<(Seq<char>, Seq<char>)> {
    match first_index(s, '=') {
        Some(i) => Some((s.take(i), s.skip(i + 1))),
        None => None,
    }
}

/// `t` after the override `s`; a malformed one changes nothing.
pub open spec fn apply_override(t: Seq<(Seq<char>, Seq<char>)>, s: Seq<char>) -> Seq<(Seq<char>, Seq<char>)> {
    match override_pair(s) {
        Some(p) => bind(t, p.0, p.1),
        None => t,
    }
}

/// `t` after the overrides of `o`, in their order.
pub open spec fn apply_overrides(t: Seq<(Seq<char>, Seq<char>)>, o: Seq<Seq<char>>) -> Seq<(Seq<char>, Seq<char>)>
    decreases o.len(),
{
    if o.len() == 0 {
        t
    } else {
        apply_override(apply_overrides(t, o.drop_last()), o.last())
    }
}

/// The number of built-in entries.
pub const DEFAULT_COUNT: usize = 39;

/// Built-in entry `i`.
pub open spec fn default_pair(i: int) -> (Seq<char>, Seq<char>) {
    if i == 0 { ("rust"@, "rs"@) }
    else if i == 1 { ("python"@, "py"@) }
    else if i == 2 { ("javascript"@, "js"@) }
    else if i == 3 { ("typescript"@, "ts"@) }
    else if i == 4 { ("java"@, "java"@) }
    else if i == 5 { ("c"@, "c"@) }
    else if i == 6 { ("cpp"@, "cpp"@) }
    else if i == 7 { ("csharp"@, "cs"@) }
    else if i == 8 { ("go"@, "go"@) }
    else if i == 9 { ("ruby"@, "rb"@) }
    else if i == 10 { ("php"@, "php"@) }
    else if i == 11 { ("html"@, "html"@) }
    else if i == 12 { ("css"@, "css"@) }
    else if i == 13 { ("swift"@, "swift"@) }
    else if i == 14 { ("kotlin"@, "kt"@) }
    else if i == 15 { ("scala"@, "scala"@) }
    else if i == 16 { ("perl"@, "pl"@) }
    else if i == 17 { ("r"@, "r"@) }
    else if i == 18 { ("dart"@, "dart"@) }
    else if i == 19 { ("shell"@, "sh"@) }
    else if i == 20 { ("bash"@, "sh"@) }
    else if i == 21 { ("lua"@, "lua"@) }
    else if i == 22 { ("yaml"@, "yaml"@) }
    else if i == 23 { ("json"@, "json"@) }
    else if i == 24 { ("toml"@, "toml"@) }
    else if i == 25 { ("xml"@, "xml"@) }
    else if i == 26 { ("sql"@, "sql"@) }
    else if i == 27 { ("markdown"@, "md"@) }
    else if i == 28 { ("makefile"@, "mk"@) }
    else if i == 29 { ("dockerfile"@, "dockerfile"@) }
    else if i == 30 { ("haskell"@, "hs"@) }
    else if i == 31 { ("elixir"@, "ex"@) }
    else if i == 32 { ("erlang"@, "erl"@) }
    else if i == 33 { ("nim"@, "nim"@) }
    else if i == 34 { ("scheme"@, "scm"@) }
    else if i == 35 { ("clojure"@, "clj"@) }
    else if i == 36 { ("lisp"@, "lisp"@) }
    else if i == 37 { ("vb"@, "vb"@) }
    else { ("fsharp"@, "fs"@) }
}

/// The table after binding the first `n` built-in entries in order.
pub open spec fn defaults_upto(n: nat) -> Seq<(Seq<char>, Seq<char>)>
    decreases n,
{
    if n == 0 {
        Seq::empty()
    } else {
        let p = default_pair(n - 1);
        bind(defaults_upto((n - 1) as nat), p.0, p.1)
    }
}

/// The built-in table.
pub open spec fn default_table() -> Seq<(Seq<char>, Seq<char>)> {
    defaults_upto(DEFAULT_COUNT as nat)
}

fn default_entry(i: usize) -> (r: (&'static str, &'static str))
    requires
        i < DEFAULT_COUNT,
    ensures
        (r.0@, r.1@) == default_pair(i as int),
{
    match i {
        0 => ("rust", "rs"),
        1 => ("python", "py"),
        2 => ("javascript", "js"),
        3 => ("typescript", "ts"),
        4 => ("java", "java"),
        5 => ("c", "c"),
        6 => ("cpp", "cpp"),
        7 => ("csharp", "cs"),
        8 => ("go", "go"),
        9 => ("ruby", "rb"),
        10 => ("php", "php"),
        11 => ("html", "html"),
        12 => ("css", "css"),
        13 => ("swift", "swift"),
        14 => ("kotlin", "kt"),
        15 => ("scala", "scala"),
        16 => ("perl", "pl"),
        17 => ("r", "r"),
        18 => ("dart", "dart"),
        19 => ("shell", "sh"),
        20 => ("bash", "sh"),
        21 => ("lua", "lua"),
        22 => ("yaml", "yaml"),
        23 => ("json", "json"),
        24 => ("toml", "toml"),
        25 => ("xml", "xml"),
        26 => ("sql", "sql"),
        27 => ("markdown", "md"),
        28 => ("makefile", "mk"),
        29 => ("dockerfile", "dockerfile"),
        30 => ("haskell", "hs"),
        31 => ("elixir", "ex"),
        32 => ("erlang", "erl"),
        33 => ("nim", "nim"),
        34 => ("scheme", "scm"),
        35 => ("clojure", "clj"),
        36 => ("lisp", "lisp"),
        37 => ("vb", "vb"),
        _ => ("fsharp", "fs"),
    }
}

/// Every entry of `without_key(t, k)` is one of `t` and is not for `k`;
/// identifiers stay unique.
pub proof fn lemma_without_key(t: Seq<(Seq<char>, Seq<char>)>, k: Seq<char>)
    requires
        keys_unique(t),
    ensures
        keys_unique(without_key(t, k)),
        forall|i: int| 0 <= i < without_key(t, k).len() ==> {
            &&& t.contains(#[trigger] without_key(t, k)[i])
            &&& without_key(t, k)[i].0 != k
        },
    decreases t.len(),
{
    if t.len() > 0 {
        let d = t.drop_last();
        assert(keys_unique(d));
        lemma_without_key(d, k);
        let rest = without_key(d, k);
        assert forall|i: int| 0 <= i < rest.len() implies #[trigger] t.contains(rest[i]) by {
            let j = choose|j: int| 0 <= j < d.len() && d[j] == rest[i];
            assert(t[j] == rest[i]);
        }
        if t.last().0 != k {
            let r = rest.push(t.last());
            assert forall|i: int| 0 <= i < rest.len() implies rest[i].0 != t.last().0 by {
                let j = choose|j: int| 0 <= j < d.len() && d[j] == rest[i];
                assert(t[j] == rest[i]);
                assert(t[t.len() - 1] == t.last());
            }
            assert(t.contains(t.last())) by {
                assert(t[t.len() - 1] == t.last());
            }
            assert forall|a: int, b: int|
                0 <= a < r.len() && 0 <= b < r.len() && #[trigger] r[a].0 == #[trigger] r[b].0 implies a == b by {
                if a < rest.len() && b < rest.len() {
                    assert(r[a] == rest[a] && r[b] == rest[b]);
                }
            }
        }
    }
}

/// Binding keeps identifiers unique and makes `k` look up to `v`.
pub proof fn lemma_bind(t: Seq<(Seq<char>, Seq<char>)>, k: Seq<char>, v: Seq<char>)
    requires
        keys_unique(t),
    ensures
        keys_unique(bind(t, k, v)),
        lookup(bind(t, k, v), k) == Some(v),
{
    lemma_without_key(t, k);
    let w = without_key(t, k);
    let r = bind(t, k, v);
    assert forall|a: int, b: int|
        0 <= a < r.len() && 0 <= b < r.len() && #[trigger] r[a].0 == #[trigger] r[b].0 implies a == b by {
        if a < w.len() && b < w.len() {
            assert(r[a] == w[a] && r[b] == w[b]);
        } else if a < w.len() {
            assert(r[a] == w[a]);
        } else if b < w.len() {
            assert(r[b] == w[b]);
        }
    }
    assert(r[w.len() as int].0 == k);
}

/// The language registry, a table of unique language identifiers, each with
/// its extension, in the order in which they were bound.
pub struct LanguageRegistry {
    entries: Vec<(String, String)>,
}

impl View for LanguageRegistry {
    type V = Seq<(Seq<char>, Seq<char>)>;

    closed spec fn view(&self) -> Seq<(Seq<char>, Seq<char>)> {
        self.entries@.map_values(|e: (String, String)| (e.0@, e.1@))
    }
}

impl LanguageRegistry {
    /// Identifiers are unique.
    pub open spec fn wf(&self) -> bool {
        keys_unique(self@)
    }

    /// A registry with no entries.
    pub fn new() -> (r: Self)
        ensures
            r@ == Seq::<(Seq<char>, Seq<char>)>::empty(),
            r.wf(),
    {
        let r = LanguageRegistry { entries: Vec::new() };
        assert(r@ =~= Seq::<(Seq<char>, Seq<char>)>::empty());
        r
    }

    /// The number of entries.
    pub fn len(&self) -> (r: usize)
        ensures
            r == self@.len(),
    {
        self.entries.len()
    }

    /// Binds `lang` to `ext`, replacing an earlier binding of `lang`.
    pub fn bind(&mut self, lang: &str, ext: &str)
        requires
            old(self).wf(),
        ensures
            final(self)@ == bind(old(self)@, lang@, ext@),
            final(self).wf(),
    {
        let ghost t = self@;
        let mut kept: Vec<(String, String)> = Vec::new();
        let n = self.entries.len();
        let mut i: usize = 0;
        while i < n
            invariant
                n == self.entries@.len(),
                t == self@,
                i <= n,
                kept@.map_values(|e: (String, String)| (e.0@, e.1@)) == without_key(t.take(i as int), lang@),
            decreases n - i,
        {
            let same = same_text(self.entries[i].0.as_str(), lang);
            assert(t.take(i + 1).drop_last() =~= t.take(i as int));
            assert(t[i as int] == (self.entries@[i as int].0@, self.entries@[i as int].1@));
            if !same {
                let e = (self.entries[i].0.clone(), self.entries[i].1.clone());
                kept.push(e);
                assert(kept@.map_values(|e: (String, String)| (e.0@, e.1@)) =~= without_key(t.take(i as int), lang@).push(t[i as int]));
            }
            i += 1;
        }
        assert(t.take(n as int) =~= t);
        kept.push((String::from_str(lang), String::from_str(ext)));
        self.entries = kept;
        assert(self@ =~= bind(t, lang@, ext@));
        proof { lemma_bind(t, lang@, ext@); }
    }

    /// The built-in registry.
    pub fn defaults() -> (r: Self)
        ensures
            r@ == default_table(),
            r.wf(),
    {
        let mut r = LanguageRegistry::new();
        let mut i: usize = 0;
        while i < DEFAULT_COUNT
            invariant
                i <= DEFAULT_COUNT,
                r@ == defaults_upto(i as nat),
                r.wf(),
            decreases DEFAULT_COUNT - i,
        {
            let e = default_entry(i);
            r.bind(e.0, e.1);
            i += 1;
        }
        r
    }

    /// Applies an override `lang=ext`, split at its first `=`; one without
    /// `=` changes nothing.
    pub fn apply_override(&mut self, pair: &str)
        requires
            old(self).wf(),
        ensures
            final(self)@ == apply_override(old(self)@, pair@),
            final(self).wf(),
    {
        let n = pair.unicode_len();
        match find_char(pair, '=') {
            Some(i) => {
                let lang = substring(pair, 0, i);
                let ext = substring(pair, i + 1, n);
                assert(pair@.take(i as int) =~= pair@.subrange(0, i as int));
                assert(pair@.skip(i + 1) =~= pair@.subrange(i + 1, pair@.len() as int));
                self.bind(lang.as_str(), ext.as_str());
            }
            None => {}
        }
    }

    /// The extension bound to `lang`, if any.
    pub fn lookup(&self, lang: &str) -> (r: Option<String>)
        requires
            self.wf(),
        ensures
            r matches Some(e) ==> lookup(self@, lang@) == Some(e@),
            r is None ==> lookup(self@, lang@) is None,
    {
        let n = self.entries.len();
        let mut i: usize = 0;
        while i < n
            invariant
                n == self.entries@.len(),
                n == self@.len(),
                i <= n,
                self.wf(),
                forall|j: int| 0 <= j < i ==> self@[j].0 != lang@,
            decreases n - i,
        {
            assert(self@[i as int] == (self.entries@[i as int].0@, self.entries@[i as int].1@));
            if same_text(self.entries[i].0.as_str(), lang) {
                assert(0 <= i < self@.len() && self@[i as int].0 == lang@);
                let ghost k = choose|k: int| 0 <= k < self@.len() && self@[k].0 == lang@;
                assert(self@[k].0 == self@[i as int].0);
                assert(k == i as int);
                let e = self.entries[i].1.clone();
                assert(e@ == self@[i as int].1);
                return Some(e);
            }
            i += 1;
        }
        None
    }

    /// The extension for `lang`: the bound one, else `txt`.
    pub fn resolve(&self, lang: &str) -> (r: String)
        requires
            self.wf(),
        ensures
            r@ == resolve(self@, lang@),
    {
        match self.lookup(lang) {
            Some(e) => e,
            None => String::from_str("txt"),
        }
    }

    /// The language whose extension is `ext`; of several, the one bound or
    /// overridden last.
    pub fn invert(&self, ext: &str) -> (r: Option<String>)
        ensures
            r matches Some(l) ==> inverse(self@, ext@) == Some(l@),
            r is None ==> inverse(self@, ext@) is None,
    {
        let n = self.entries.len();
        let mut i: usize = n;
        while i > 0
            invariant
                n == self.entries@.len(),
                n == self@.len(),
                i <= n,
                forall|j: int| i <= j < n ==> self@[j].1 != ext@,
            decreases i,
        {
            i -= 1;
            assert(self@[i as int] == (self.entries@[i as int].0@, self.entries@[i as int].1@));
            if same_text(self.entries[i].1.as_str(), ext) {
                assert(is_last_with_ext(self@, ext@, i as int));
                let ghost k = choose|k: int| is_last_with_ext(self@, ext@, k);
                assert(k == i as int);
                return Some(self.entries[i].0.clone());
            }
        }
        assert(!exists|k: int| is_last_with_ext(self@, ext@, k));
        None
    }
}

} // verus!
