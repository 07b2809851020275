//! Code blocks, and the parsing of a fence's info string.

use vstd::prelude::*;
use vstd::string::*;
use crate::text::{same_text, substring};

verus! {

/// One fenced code block of a document.
#[derive(Debug, PartialEq, Eq)]
pub struct CodeBlock {
    /// The first token of the info string, if it has one.
    pub language: Option<String>,
    /// The text between the fences, fence lines excluded.
    pub content: String,
    /// The token after the first `:tangle` token of the info string, if any.
    pub tangle_path: Option<String>,
}

/// What a block holds, as characters.
pub struct BlockView {
    pub language: Option<Seq<char>>,
    pub content: Seq<char>,
    pub tangle_path: Option<Seq<char>>,
}

/// The characters of an optional string.
pub open spec fn opt_view(o: Option<String>) -> Option<Seq<char>> {
    match o {
        Some(s) => Some(s@),
        None => None,
    }
}

impl View for CodeBlock {
    type V = BlockView;

    open spec fn view(&self) -> BlockView {
        BlockView {
            language: opt_view(self.language),
            content: self.content@,
            tangle_path: opt_view(self.tangle_path),
        }
    }
}

/// The views of a sequence of blocks.
pub open spec fn block_views(v: Seq<CodeBlock>) -> Seq<BlockView> {
    v.map_values(|b: CodeBlock| b@)
}

/// A block that names a target also has a language, as every block parsed
/// from an info string does.
pub open spec fn block_wf(b: BlockView) -> bool {
    b.tangle_path is Some ==> b.language is Some
}

/// Whitespace as Unicode's `White_Space` property lists it.
pub open spec fn is_space(c: char) -> bool {
    let u = c as u32;
    (9 <= u <= 13) || u == 32 || u == 0x85 || u == 0xA0 || u == 0x1680 || (0x2000 <= u <= 0x200A)
        || u == 0x2028 || u == 0x2029 || u == 0x202F || u == 0x205F || u == 0x3000
}

/// Whether `c` is whitespace.
pub fn is_space_char(c: char) -> (r: bool)
    ensures
        r == is_space(c),
{
    let u = c as u32;
    (9 <= u && u <= 13) || u == 32 || u == 0x85 || u == 0xA0 || u == 0x1680 || (0x2000 <= u && u
        <= 0x200A) || u == 0x2028 || u == 0x2029 || u == 0x202F || u == 0x205F || u == 0x3000
}

/// Reading `s` left to right: the tokens completed so far, and the one
/// being read.
pub open spec fn scan_tokens(s: Seq<char>) -> (Seq<Seq<char>>, Seq<char>)
    decreases s.len(),
{
    if s.len() == 0 {
        (Seq::empty(), Seq::empty())
    } else {
        let (ts, cur) = scan_tokens(s.drop_last());
        if is_space(s.last()) {
            if cur.len() > 0 {
                (ts.push(cur), Seq::empty())
            } else {
                (ts, Seq::empty())
            }
        } else {
            (ts, cur.push(s.last()))
        }
    }
}

/// The maximal runs of non-whitespace characters of `s`, in order.
pub open spec fn tokens(s: Seq<char>) -> Seq<Seq<char>> {
    let (ts, cur) = scan_tokens(s);
    if cur.len() > 0 {
        ts.push(cur)
    } else {
        ts
    }
}

/// The characters of each string of `v`.
pub open spec fn token_views(v: Seq<String>) -> Seq<Seq<char>> {
    v.map_values(|s: String| s@)
}

/// Splits `s` into its whitespace-separated tokens.
pub fn split_tokens(s: &str) -> (r: Vec<String>)
    ensures
        token_views(r@) == tokens(s@),
{
    let n = s.unicode_len();
    let mut out: Vec<String> = Vec::new();
    let mut start: usize = 0;
    let mut i: usize = 0;
    while i < n
        invariant
            n == s@.len(),
            start <= i <= n,
            scan_tokens(s@.take(i as int)) == (token_views(out@), s@.subrange(start as int, i as int)),
        decreases n - i,
    {
        let c = s.get_char(i);
        assert(s@.take(i + 1).drop_last() =~= s@.take(i as int));
        assert(s@.take(i + 1).last() == c);
        if is_space_char(c) {
            if i > start {
                let t = substring(s, start, i);
                let ghost before = out@;
                out.push(t);
                assert(token_views(out@) =~= token_views(before).push(t@));
            }
            start = i + 1;
            assert(s@.subrange(start as int, i + 1) =~= Seq::<char>::empty());
        } else {
            assert(s@.subrange(start as int, i + 1) =~= s@.subrange(start as int, i as int).push(c));
        }
        i += 1;
    }
    assert(s@.take(n as int) =~= s@);
    if n > start {
        let t = substring(s, start, n);
        let ghost before = out@;
        out.push(t);
        assert(token_views(out@) =~= token_views(before).push(t@));
    }
    out
}

/// Token `k` is the first `:tangle` of `ts`.
pub open spec fn is_first_tangle(ts: Seq<Seq<char>>, k: int) -> bool {
    &&& 0 <= k < ts.len()
    &&& ts[k] == ":tangle"@
    &&& forall|j: int| 0 <= j < k ==> ts[j] != ":tangle"@
}

/// The token after the first `:tangle` token of `ts`, if both are there.
pub open spec fn tangle_target(ts: Seq<Seq<char>>) -> Option<Seq<char>> {
    if exists|k: int| is_first_tangle(ts, k) {
        let k = choose|k: int| is_first_tangle(ts, k);
        if k + 1 < ts.len() {
            Some(ts[k + 1])
        } else {
            None
        }
    } else {
        None
    }
}

/// The block that a fence with info string `info` opens, before any content.
pub open spec fn block_of_info(info: Seq<char>) -> BlockView {
    let ts = tokens(info);
    BlockView {
        language: if ts.len() > 0 { Some(ts[0]) } else { None },
        content: Seq::empty(),
        tangle_path: tangle_target(ts),
    }
}

/// Finds the first `:tangle` token.
fn find_tangle(ts: &Vec<String>) -> (r: Option<usize>)
    ensures
        r matches Some(k) ==> is_first_tangle(token_views(ts@), k as int),
        r is None ==> !exists|k: int| is_first_tangle(token_views(ts@), k),
{
    let ghost tv = token_views(ts@);
    let n = ts.len();
    let mut k: usize = 0;
    while k < n
        invariant
            n == ts@.len(),
            tv == token_views(ts@),
            k <= n,
            forall|j: int| 0 <= j < k ==> tv[j] != ":tangle"@,
        decreases n - k,
    {
        if same_text(ts[k].as_str(), ":tangle") {
            return Some(k);
        }
        k += 1;
    }
    None
}

/// Opens a block from a fence's info string: its first token is the
/// language, the token after the first `:tangle` the target path.
pub fn parse_info(info: &str) -> (r: CodeBlock)
    ensures
        r@ == block_of_info(info@),
        block_wf(r@),
{
    let ts = split_tokens(info);
    let ghost tv = token_views(ts@);
    let n = ts.len();
    let language = if n > 0 {
        Some(ts[0].clone())
    } else {
        None
    };
    let tangle_path = match find_tangle(&ts) {
        Some(k) => {
            let ghost c = choose|c: int| is_first_tangle(tv, c);
            assert(c == k as int);
            if k + 1 < n {
                Some(ts[k + 1].clone())
            } else {
                None
            }
        },
        None => None,
    };
    let r = CodeBlock { language, content: String::new(), tangle_path };
    assert(r@.content =~= Seq::<char>::empty());
    r
}

} // verus!
