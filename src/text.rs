//! Character-level helpers over `&str`, each stated over the string's view.

use vstd::prelude::*;
use vstd::string::*;

verus! {

/// `a` and `b` hold the same characters.
pub fn same_text(a: &str, b: &str) -> (r: bool)
    ensures
        r == (a@ == b@),
{
    let n = a.unicode_len();
    if n != b.unicode_len() {
        return false;
    }
    let mut i: usize = 0;
    while i < n
        invariant
            n == a@.len(),
            n == b@.len(),
            i <= n,
            forall|j: int| 0 <= j < i ==> a@[j] == b@[j],
        decreases n - i,
    {
        if a.get_char(i) != b.get_char(i) {
            return false;
        }
        i += 1;
    }
    assert(a@ =~= b@);
    true
}

/// `i` is the position of the last `c` in `s`.
pub open spec fn is_last_index(s: Seq<char>, c: char, i: int) -> bool {
    &&& 0 <= i < s.len()
    &&& s[i] == c
    &&& forall|j: int| i < j < s.len() ==> s[j] != c
}

/// The position of the last `c` in `s`, if `s` holds one.
pub open spec fn last_index(s: Seq<char>, c: char) -> Option<int> {
    if exists|i: int| is_last_index(s, c, i) {
        Some(choose|i: int| is_last_index(s, c, i))
    } else {
        None
    }
}

/// `i` is the position of the first `c` in `s`.
pub open spec fn is_first_index(s: Seq<char>, c: char, i: int) -> bool {
    &&& 0 <= i < s.len()
    &&& s[i] == c
    &&& forall|j: int| 0 <= j < i ==> s[j] != c
}

/// The position of the first `c` in `s`, if `s` holds one.
pub open spec fn first_index(s: Seq<char>, c: char) -> Option<int> {
    if exists|i: int| is_first_index(s, c, i) {
        Some(choose|i: int| is_first_index(s, c, i))
    } else {
        None
    }
}

/// Finds the last `c` in `s`.
pub fn rfind_char(s: &str, c: char) -> (r: Option<usize>)
    ensures
        r matches Some(i) ==> last_index(s@, c) == Some(i as int) && is_last_index(s@, c, i as int),
        r is None ==> last_index(s@, c) is None,
{
    let n = s.unicode_len();
    let mut i: usize = n;
    while i > 0
        invariant
            n == s@.len(),
            i <= n,
            forall|j: int| i <= j < n ==> s@[j] != c,
        decreases i,
    {
        i -= 1;
        if s.get_char(i) == c {
            assert(is_last_index(s@, c, i as int));
            let ghost k = choose|k: int| is_last_index(s@, c, k);
            assert(k == i as int);
            return Some(i);
        }
    }
    assert(!exists|k: int| is_last_index(s@, c, k));
    None
}

/// Finds the first `c` in `s`.
pub fn find_char(s: &str, c: char) -> (r: Option<usize>)
    ensures
        r matches Some(i) ==> first_index(s@, c) == Some(i as int) && is_first_index(s@, c, i as int),
        r is None ==> first_index(s@, c) is None,
{
    let n = s.unicode_len();
    let mut i: usize = 0;
    while i < n
        invariant
            n == s@.len(),
            i <= n,
            forall|j: int| 0 <= j < i ==> s@[j] != c,
        decreases n - i,
    {
        if s.get_char(i) == c {
            assert(is_first_index(s@, c, i as int));
            let ghost k = choose|k: int| is_first_index(s@, c, k);
            assert(k == i as int);
            return Some(i);
        }
        i += 1;
    }
    assert(!exists|k: int| is_first_index(s@, c, k));
    None
}

/// The characters of `s` from `from` up to `to`, as a new string.
pub fn substring(s: &str, from: usize, to: usize) -> (r: String)
    requires
        from <= to <= s@.len(),
    ensures
        r@ == s@.subrange(from as int, to as int),
{
    String::from_str(s.substring_char(from, to))
}

/// `a` followed by `b`.
pub fn concat(a: &str, b: &str) -> (r: String)
    ensures
        r@ == a@ + b@,
{
    let mut r = String::from_str(a);
    r.append(b);
    r
}

} // verus!
