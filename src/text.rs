//! Character-level text primitives: whitespace, trimming, searching, splitting
//! and literal find-and-replace, each specified over `Seq<char>`.
use vstd::prelude::*;

verus! {

/// The characters with the Unicode `White_Space` property.
pub open spec fn is_white(c: char) -> bool {
    ||| '\u{9}' <= c <= '\u{d}'
    ||| c == ' '
    ||| c == '\u{85}'
    ||| c == '\u{a0}'
    ||| c == '\u{1680}'
    ||| '\u{2000}' <= c <= '\u{200a}'
    ||| c == '\u{2028}'
    ||| c == '\u{2029}'
    ||| c == '\u{202f}'
    ||| c == '\u{205f}'
    ||| c == '\u{3000}'
}

/// `s` without its leading whitespace.
pub open spec fn trim_start(s: Seq<char>) -> Seq<char>
    decreases s.len(),
{
    if s.len() > 0 && is_white(s[0]) {
        trim_start(s.drop_first())
    } else {
        s
    }
}

/// `s` without its trailing whitespace.
pub open spec fn trim_end(s: Seq<char>) -> Seq<char>
    decreases s.len(),
{
    if s.len() > 0 && is_white(s.last()) {
        trim_end(s.drop_last())
    } else {
        s
    }
}

/// `s` without leading and trailing whitespace.
pub open spec fn trim(s: Seq<char>) -> Seq<char> {
    trim_end(trim_start(s))
}

/// Whether `c` is a whitespace character.
pub fn is_whitespace(c: char) -> (r: bool)
    ensures
        r == is_white(c),
{
    ('\u{9}' <= c && c <= '\u{d}') || c == ' ' || c == '\u{85}' || c == '\u{a0}' || c
        == '\u{1680}' || ('\u{2000}' <= c && c <= '\u{200a}') || c == '\u{2028}' || c
        == '\u{2029}' || c == '\u{202f}' || c == '\u{205f}' || c == '\u{3000}'
}

/// A copy of `s` without leading and trailing whitespace.
pub fn trim_str(s: &str) -> (r: String)
    ensures
        r@ == trim(s@),
{
    let len = s.unicode_len();
    let mut a: usize = 0;
    assert(s@.subrange(0, len as int) =~= s@);
    while a < len && is_whitespace(s.get_char(a))
        invariant
            len == s@.len(),
            a <= len,
            trim_start(s@.subrange(a as int, len as int)) == trim_start(s@),
        decreases len - a,
    {
        assert(s@.subrange(a as int, len as int).drop_first() =~= s@.subrange(
            a + 1,
            len as int,
        ));
        a = a + 1;
    }
    assert(trim_start(s@) == s@.subrange(a as int, len as int));
    let mut b: usize = len;
    while b > a && is_whitespace(s.get_char(b - 1))
        invariant
            len == s@.len(),
            a <= b <= len,
            trim_end(s@.subrange(a as int, b as int)) == trim(s@),
        decreases b,
    {
        assert(s@.subrange(a as int, b as int).drop_last() =~= s@.subrange(
            a as int,
            b - 1,
        ));
        b = b - 1;
    }
    String::from_str(s.substring_char(a, b))
}


/// Whether `p` occurs in `s` starting at position `i`.
pub open spec fn occurs_at(s: Seq<char>, p: Seq<char>, i: int) -> bool {
    0 <= i && i + p.len() <= s.len() && s.subrange(i, i + p.len()) == p
}

/// The first position at or after `i` where `p` occurs in `s`.
pub open spec fn find_from(s: Seq<char>, p: Seq<char>, i: int) -> Option<int>
    decreases s.len() + 1 - i,
{
    if i + p.len() > s.len() {
        None
    } else if occurs_at(s, p, i) {
        Some(i)
    } else {
        find_from(s, p, i + 1)
    }
}

/// `s` with every occurrence of `p` replaced by `r`, scanning from position `i`:
/// occurrences are taken leftmost first and do not overlap; an empty `p` occurs
/// before every character and once more at the end.
pub open spec fn replace_from(s: Seq<char>, p: Seq<char>, r: Seq<char>, i: int) -> Seq<char>
    decreases s.len() - i,
{
    if p.len() == 0 {
        if i >= s.len() {
            r
        } else {
            r + seq![s[i]] + replace_from(s, p, r, i + 1)
        }
    } else if i + p.len() > s.len() {
        s.subrange(i, s.len() as int)
    } else if occurs_at(s, p, i) {
        r + replace_from(s, p, r, i + p.len())
    } else {
        seq![s[i]] + replace_from(s, p, r, i + 1)
    }
}

/// `s` with every occurrence of `p` replaced by `r`.
pub open spec fn replace(s: Seq<char>, p: Seq<char>, r: Seq<char>) -> Seq<char> {
    replace_from(s, p, r, 0)
}

/// The pieces of `s` from position `i` on, cut at each occurrence of the
/// non-empty separator `p`.
pub open spec fn split_from(s: Seq<char>, p: Seq<char>, i: int) -> Seq<Seq<char>>
    recommends
        p.len() > 0,
    decreases s.len() - i,
    via split_from_decreases
{
    if p.len() == 0 {
        seq![s.subrange(i, s.len() as int)]
    } else {
        match find_from(s, p, i) {
            None => seq![s.subrange(i, s.len() as int)],
            Some(k) => seq![s.subrange(i, k)] + split_from(s, p, k + p.len()),
        }
    }
}

#[via_fn]
proof fn split_from_decreases(s: Seq<char>, p: Seq<char>, i: int) {
    if p.len() != 0 {
        if let Some(k) = find_from(s, p, i) {
            lemma_find_from(s, p, i);
        }
    }
}

/// The pieces of `s` cut at each occurrence of the non-empty separator `p`.
pub open spec fn split(s: Seq<char>, p: Seq<char>) -> Seq<Seq<char>>
    recommends
        p.len() > 0,
{
    split_from(s, p, 0)
}

/// What `find_from` returns: the first occurrence at or after `i`.
pub proof fn lemma_find_from(s: Seq<char>, p: Seq<char>, i: int)
    ensures
        match find_from(s, p, i) {
            Some(k) => i <= k && occurs_at(s, p, k) && forall|j: int|
                i <= j < k ==> !occurs_at(s, p, j),
            None => forall|j: int| i <= j ==> !occurs_at(s, p, j),
        },
    decreases s.len() + 1 - i,
{
    if i + p.len() <= s.len() && !occurs_at(s, p, i) {
        lemma_find_from(s, p, i + 1);
    }
}

/// A one-character pattern occurs exactly where that character stands.
pub proof fn lemma_occurs_char(s: Seq<char>, c: char, j: int)
    requires
        0 <= j < s.len(),
    ensures
        occurs_at(s, seq![c], j) <==> s[j] == c,
{
    assert(s.subrange(j, j + 1) =~= seq![s[j]]);
    if occurs_at(s, seq![c], j) {
        assert(s.subrange(j, j + 1)[0] == c);
    }
}

/// Searching for a character that `s` does not hold finds nothing.
pub proof fn lemma_find_char_absent(s: Seq<char>, c: char, i: int)
    requires
        !s.contains(c),
    ensures
        find_from(s, seq![c], i) is None,
{
    lemma_find_from(s, seq![c], i);
    if let Some(k) = find_from(s, seq![c], i) {
        lemma_occurs_char(s, c, k);
    }
}

/// Searching for a character finds its first position at or after `i`.
pub proof fn lemma_find_char_first(s: Seq<char>, c: char, i: int, k: int)
    requires
        0 <= i <= k < s.len(),
        s[k] == c,
        forall|j: int| i <= j < k ==> s[j] != c,
    ensures
        find_from(s, seq![c], i) == Some(k),
{
    lemma_find_from(s, seq![c], i);
    lemma_occurs_char(s, c, k);
    if let Some(m) = find_from(s, seq![c], i) {
        lemma_occurs_char(s, c, m);
        if m > k {
            assert(!occurs_at(s, seq![c], k));
        }
    }
}

/// Whether `p` occurs in `s` at position `i`.
fn occurs_at_exec(s: &str, p: &str, i: usize) -> (r: bool)
    requires
        i + p@.len() <= s@.len(),
    ensures
        r == occurs_at(s@, p@, i as int),
{
    let len = s.unicode_len();
    let plen = p.unicode_len();
    let mut j: usize = 0;
    while j < plen
        invariant
            len == s@.len(),
            plen == p@.len(),
            i + plen <= s@.len(),
            j <= plen,
            forall|m: int| 0 <= m < j ==> s@[i + m] == p@[m],
        decreases plen - j,
    {
        if s.get_char(i + j) != p.get_char(j) {
            assert(s@.subrange(i as int, i + plen)[j as int] != p@[j as int]);
            return false;
        }
        j = j + 1;
    }
    assert(s@.subrange(i as int, i + plen) =~= p@);
    true
}

/// The first position at or after `from` where `p` occurs in `s`.
pub fn find(s: &str, p: &str, from: usize) -> (r: Option<usize>)
    ensures
        match r {
            Some(k) => find_from(s@, p@, from as int) == Some(k as int),
            None => find_from(s@, p@, from as int) is None,
        },
{
    let len = s.unicode_len();
    let plen = p.unicode_len();
    if plen > len {
        return None;
    }
    let last = len - plen;
    let mut i: usize = from;
    while i <= last
        invariant
            last == len - plen,
            len == s@.len(),
            plen == p@.len(),
            plen <= len,
            find_from(s@, p@, i as int) == find_from(s@, p@, from as int),
        decreases len + 1 - i,
    {
        if occurs_at_exec(s, p, i) {
            return Some(i);
        }
        if i == last {
            assert(find_from(s@, p@, i + 1) is None);
            return None;
        }
        i = i + 1;
    }
    None
}

/// `s` with every occurrence of `p` replaced by `r`.
pub fn replace_all(s: &str, p: &str, r: &str) -> (out: String)
    ensures
        out@ == replace(s@, p@, r@),
{
    let len = s.unicode_len();
    let plen = p.unicode_len();
    let mut out = String::new();
    let mut i: usize = 0;
    if plen == 0 {
        while i < len
            invariant
                len == s@.len(),
                plen == p@.len() == 0,
                i <= len,
                out@ + replace_from(s@, p@, r@, i as int) == replace(s@, p@, r@),
            decreases len - i,
        {
            out.append(r);
            out.append(s.substring_char(i, i + 1));
            assert(out@ + replace_from(s@, p@, r@, i + 1) =~= replace(s@, p@, r@));
            i = i + 1;
        }
        out.append(r);
        return out;
    }
    while plen <= len - i
        invariant
            len == s@.len(),
            plen == p@.len() > 0,
            i <= len,
            out@ + replace_from(s@, p@, r@, i as int) == replace(s@, p@, r@),
        decreases len - i,
    {
        if occurs_at_exec(s, p, i) {
            out.append(r);
            assert(out@ + replace_from(s@, p@, r@, i + plen) =~= replace(s@, p@, r@));
            i = i + plen;
        } else {
            out.append(s.substring_char(i, i + 1));
            assert(out@ + replace_from(s@, p@, r@, i + 1) =~= replace(s@, p@, r@));
            i = i + 1;
        }
    }
    out.append(s.substring_char(i, len));
    assert(out@ =~= replace(s@, p@, r@));
    out
}

/// The pieces of `s` cut at each occurrence of the non-empty separator `p`.
pub fn split_str(s: &str, p: &str) -> (pieces: Vec<String>)
    requires
        p@.len() > 0,
    ensures
        pieces.deep_view() == split(s@, p@),
{
    let len = s.unicode_len();
    let plen = p.unicode_len();
    let mut pieces: Vec<String> = Vec::new();
    let mut start: usize = 0;
    loop
        invariant
            len == s@.len(),
            plen == p@.len() > 0,
            start <= len,
            pieces.deep_view() + split_from(s@, p@, start as int) == split(s@, p@),
        decreases len - start,
    {
        proof {
            lemma_find_from(s@, p@, start as int);
        }
        match find(s, p, start) {
            None => {
                pieces.push(String::from_str(s.substring_char(start, len)));
                assert(pieces.deep_view() =~= split(s@, p@));
                return pieces;
            },
            Some(k) => {
                pieces.push(String::from_str(s.substring_char(start, k)));
                assert(pieces.deep_view() + split_from(s@, p@, k + plen) =~= split(s@, p@));
                start = k + plen;
            },
        }
    }
}

} // verus!
