//! Paths as text, with `/` between components.

use vstd::prelude::*;
use vstd::string::*;
use crate::text::{concat, is_last_index, last_index, rfind_char, substring};

verus! {

/// `rel` under `root`; an absolute `rel` stands for itself.
pub open spec fn joined_path(root: Seq<char>, rel: Seq<char>) -> Seq<char> {
    if rel.len() > 0 && rel[0] == '/' {
        rel
    } else if root.len() == 0 {
        rel
    } else if root.last() == '/' {
        root + rel
    } else {
        root + seq!['/'] + rel
    }
}

/// Where the last component of `p` starts: after its last `/`.
pub open spec fn name_start(p: Seq<char>) -> int {
    match last_index(p, '/') {
        Some(i) => i + 1,
        None => 0,
    }
}

/// The last component of `p`.
pub open spec fn name_of(p: Seq<char>) -> Seq<char> {
    p.skip(name_start(p))
}

/// `name` without its extension: up to its last `.`, unless that `.` leads
/// the name.
pub open spec fn stem_of(name: Seq<char>) -> Seq<char> {
    match last_index(name, '.') {
        Some(i) => if i > 0 { name.take(i) } else { name },
        None => name,
    }
}

/// The extension of `name`: what follows its last `.`, unless that `.`
/// leads the name.
pub open spec fn extension_of(name: Seq<char>) -> Option<Seq<char>> {
    match last_index(name, '.') {
        Some(i) => if i > 0 { Some(name.skip(i + 1)) } else { None },
        None => None,
    }
}

/// The stem of the last component of `p`, none where that is empty.
pub open spec fn path_stem(p: Seq<char>) -> Option<Seq<char>> {
    if name_of(p).len() == 0 {
        None
    } else {
        Some(stem_of(name_of(p)))
    }
}

/// `p` with the extension of its last component set to `md`.
pub open spec fn md_renamed(p: Seq<char>) -> Seq<char> {
    let name = name_of(p);
    if name.len() == 0 {
        p
    } else {
        match extension_of(name) {
            Some(e) => p.take(p.len() - e.len()) + "md"@,
            None => p + ".md"@,
        }
    }
}

/// `p` without a leading `./`.
pub open spec fn without_current_dir(p: Seq<char>) -> Seq<char> {
    if p.len() >= 2 && p[0] == '.' && p[1] == '/' {
        p.skip(2)
    } else {
        p
    }
}

/// Joins `rel` under `root`.
pub fn join_path(root: &str, rel: &str) -> (r: String)
    ensures
        r@ == joined_path(root@, rel@),
{
    let rn = root.unicode_len();
    if rel.unicode_len() > 0 && rel.get_char(0) == '/' {
        String::from_str(rel)
    } else if rn == 0 {
        String::from_str(rel)
    } else if root.get_char(rn - 1) == '/' {
        concat(root, rel)
    } else {
        let with_sep = concat(root, "/");
        proof {
            reveal_strlit("/");
            assert("/"@ =~= seq!['/']);
        }
        concat(with_sep.as_str(), rel)
    }
}

/// The last component of `p`.
pub fn file_name(p: &str) -> (r: String)
    ensures
        r@ == name_of(p@),
{
    let n = p.unicode_len();
    match rfind_char(p, '/') {
        Some(i) => {
            assert(p@.skip(i + 1) =~= p@.subrange(i + 1, n as int));
            substring(p, i + 1, n)
        },
        None => {
            assert(p@.skip(0) =~= p@);
            String::from_str(p)
        },
    }
}

/// The stem of the last component of `p`.
pub fn file_stem(p: &str) -> (r: Option<String>)
    ensures
        r matches Some(s) ==> path_stem(p@) == Some(s@),
        r is None ==> path_stem(p@) is None,
{
    let name = file_name(p);
    let n = name.as_str().unicode_len();
    if n == 0 {
        return None;
    }
    match rfind_char(name.as_str(), '.') {
        Some(i) => {
            if i > 0 {
                assert(name@.take(i as int) =~= name@.subrange(0, i as int));
                Some(substring(name.as_str(), 0, i))
            } else {
                Some(name)
            }
        },
        None => Some(name),
    }
}

/// The extension of the last component of `p`.
pub fn extension(p: &str) -> (r: Option<String>)
    ensures
        r matches Some(e) ==> extension_of(name_of(p@)) == Some(e@),
        r is None ==> extension_of(name_of(p@)) is None,
{
    let name = file_name(p);
    let n = name.as_str().unicode_len();
    match rfind_char(name.as_str(), '.') {
        Some(i) => {
            if i > 0 {
                assert(name@.skip(i + 1) =~= name@.subrange(i + 1, n as int));
                Some(substring(name.as_str(), i + 1, n))
            } else {
                None
            }
        },
        None => None,
    }
}

/// `p` with the extension of its last component set to `md`.
pub fn with_md_extension(p: &str) -> (r: String)
    ensures
        r@ == md_renamed(p@),
{
    let name = file_name(p);
    if name.as_str().unicode_len() == 0 {
        return String::from_str(p);
    }
    let n = p.unicode_len();
    match extension(p) {
        Some(e) => {
            let el = e.as_str().unicode_len();
            proof {
                let name_v = name_of(p@);
                let i = last_index(name_v, '.')->0;
                assert(is_last_index(name_v, '.', i)) by {
                    assert(exists|k: int| is_last_index(name_v, '.', k));
                }
                assert(name_v.len() <= p@.len());
            }
            let head = substring(p, 0, n - el);
            assert(p@.take(n - el) =~= p@.subrange(0, n - el));
            concat(head.as_str(), "md")
        },
        None => concat(p, ".md"),
    }
}

/// `p` without a leading `./`.
pub fn strip_current_dir(p: &str) -> (r: String)
    ensures
        r@ == without_current_dir(p@),
{
    let n = p.unicode_len();
    if n >= 2 && p.get_char(0) == '.' && p.get_char(1) == '/' {
        assert(p@.skip(2) =~= p@.subrange(2, n as int));
        substring(p, 2, n)
    } else {
        String::from_str(p)
    }
}

} // verus!
