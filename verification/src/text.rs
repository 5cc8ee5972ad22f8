//! Character-level string operations used by the routing and parsing code,
//! with their meaning stated over `Seq<char>`.
use vstd::prelude::*;

verus! {

// ---------------------------------------------------------------------------
// Specifications
// ---------------------------------------------------------------------------

/// `char::is_whitespace`: the Unicode `White_Space` property.
pub open spec fn is_ws(c: char) -> bool {
    ||| ('\u{9}' <= c && c <= '\u{d}')
    ||| c == ' '
    ||| c == '\u{85}'
    ||| c == '\u{a0}'
    ||| c == '\u{1680}'
    ||| ('\u{2000}' <= c && c <= '\u{200a}')
    ||| c == '\u{2028}'
    ||| c == '\u{2029}'
    ||| c == '\u{202f}'
    ||| c == '\u{205f}'
    ||| c == '\u{3000}'
}

/// Drops the leading characters of `s` that satisfy `p`.
pub open spec fn skip_leading(s: Seq<char>, p: spec_fn(char) -> bool) -> Seq<char>
    decreases s.len(),
{
    if s.len() > 0 && p(s[0]) {
        skip_leading(s.drop_first(), p)
    } else {
        s
    }
}

/// Drops the trailing characters of `s` that satisfy `p`.
pub open spec fn skip_trailing(s: Seq<char>, p: spec_fn(char) -> bool) -> Seq<char>
    decreases s.len(),
{
    if s.len() > 0 && p(s.last()) {
        skip_trailing(s.drop_last(), p)
    } else {
        s
    }
}

/// `str::trim`.
pub open spec fn trim_spec(s: Seq<char>) -> Seq<char> {
    skip_trailing(skip_leading(s, |c: char| is_ws(c)), |c: char| is_ws(c))
}

/// The predicate "is the character `c`".
pub open spec fn is_char(c: char) -> spec_fn(char) -> bool {
    |x: char| x == c
}

/// `str::trim_start_matches(c)` for a single character.
pub open spec fn trim_start_char_spec(s: Seq<char>, c: char) -> Seq<char> {
    skip_leading(s, is_char(c))
}

/// `str::trim_end_matches(c)` for a single character.
pub open spec fn trim_end_char_spec(s: Seq<char>, c: char) -> Seq<char> {
    skip_trailing(s, is_char(c))
}

/// `str::starts_with(c)` for a single character.
pub open spec fn starts_with_char(s: Seq<char>, c: char) -> bool {
    s.len() > 0 && s[0] == c
}

/// `str::ends_with(c)` for a single character.
pub open spec fn ends_with_char(s: Seq<char>, c: char) -> bool {
    s.len() > 0 && s.last() == c
}

/// `char::to_ascii_lowercase`.
pub open spec fn ascii_lower(c: char) -> char {
    if 'A' <= c && c <= 'Z' {
        ((c as u32) + 32) as char
    } else {
        c
    }
}

/// `str::to_ascii_lowercase`.
pub open spec fn ascii_lower_seq(s: Seq<char>) -> Seq<char> {
    s.map_values(|c: char| ascii_lower(c))
}

/// `str::contains` for a string pattern.
pub open spec fn contains_seq(hay: Seq<char>, needle: Seq<char>) -> bool {
    exists|i: int|
        0 <= i && i + needle.len() <= hay.len() && #[trigger] hay.subrange(i, i + needle.len())
            == needle
}

/// `str::ends_with` for a string pattern.
pub open spec fn ends_with_seq(s: Seq<char>, suffix: Seq<char>) -> bool {
    suffix.len() <= s.len() && s.subrange(s.len() - suffix.len(), s.len() as int) == suffix
}

/// `str::split(sep)` for a single character: `k` separators give `k + 1` pieces.
pub open spec fn split_spec(s: Seq<char>, sep: char) -> Seq<Seq<char>>
    decreases s.len(),
{
    if s.len() == 0 {
        seq![Seq::<char>::empty()]
    } else {
        let rest = split_spec(s.drop_last(), sep);
        if s.last() == sep {
            rest.push(Seq::<char>::empty())
        } else {
            rest.update(rest.len() - 1, rest.last().push(s.last()))
        }
    }
}

/// Index of the first occurrence of `c` in `s`.
pub open spec fn index_of(s: Seq<char>, c: char) -> Option<int>
    decreases s.len(),
{
    if s.len() == 0 {
        None
    } else if s[0] == c {
        Some(0)
    } else {
        match index_of(s.drop_first(), c) {
            Some(i) => Some(i + 1),
            None => None,
        }
    }
}

/// `str::split_once(c)` for a single character.
pub open spec fn split_once_spec(s: Seq<char>, c: char) -> Option<(Seq<char>, Seq<char>)> {
    match index_of(s, c) {
        Some(i) => Some((s.subrange(0, i), s.subrange(i + 1, s.len() as int))),
        None => None,
    }
}

/// The views of a sequence of strings.
pub open spec fn views(v: Seq<String>) -> Seq<Seq<char>> {
    v.map_values(|x: String| x@)
}

// ---------------------------------------------------------------------------
// Lemmas
// ---------------------------------------------------------------------------

pub proof fn lemma_split_nonempty(s: Seq<char>, sep: char)
    ensures
        split_spec(s, sep).len() >= 1,
    decreases s.len(),
{
    if s.len() > 0 {
        lemma_split_nonempty(s.drop_last(), sep);
    }
}

pub proof fn lemma_index_of(s: Seq<char>, c: char)
    ensures
        match index_of(s, c) {
            Some(i) => 0 <= i < s.len() && s[i] == c && forall|j: int| 0 <= j < i ==> s[j] != c,
            None => forall|j: int| 0 <= j < s.len() ==> s[j] != c,
        },
    decreases s.len(),
{
    if s.len() > 0 && s[0] != c {
        lemma_index_of(s.drop_first(), c);
        match index_of(s.drop_first(), c) {
            Some(i) => {
                assert forall|j: int| 0 <= j < i + 1 implies s[j] != c by {
                    if j > 0 {
                        assert(s[j] == s.drop_first()[j - 1]);
                    }
                }
            },
            None => {
                assert forall|j: int| 0 <= j < s.len() implies s[j] != c by {
                    if j > 0 {
                        assert(s[j] == s.drop_first()[j - 1]);
                    }
                }
            },
        }
    }
}

pub proof fn lemma_index_of_unique(s: Seq<char>, c: char, i: int)
    requires
        0 <= i < s.len(),
        s[i] == c,
        forall|j: int| 0 <= j < i ==> s[j] != c,
    ensures
        index_of(s, c) == Some(i),
{
    lemma_index_of(s, c);
}

pub proof fn lemma_index_of_none(s: Seq<char>, c: char)
    requires
        forall|j: int| 0 <= j < s.len() ==> s[j] != c,
    ensures
        index_of(s, c) is None,
{
    lemma_index_of(s, c);
}

proof fn lemma_skip_leading_step(s: Seq<char>, p: spec_fn(char) -> bool, i: int)
    requires
        0 <= i < s.len(),
        p(s[i]),
    ensures
        skip_leading(s.subrange(i, s.len() as int), p) == skip_leading(
            s.subrange(i + 1, s.len() as int),
            p,
        ),
{
    assert(s.subrange(i, s.len() as int).drop_first() =~= s.subrange(i + 1, s.len() as int));
}

proof fn lemma_skip_trailing_step(s: Seq<char>, p: spec_fn(char) -> bool, i: int, j: int)
    requires
        0 <= i < j <= s.len(),
        p(s[j - 1]),
    ensures
        skip_trailing(s.subrange(i, j), p) == skip_trailing(s.subrange(i, j - 1), p),
{
    assert(s.subrange(i, j).drop_last() =~= s.subrange(i, j - 1));
}

// ---------------------------------------------------------------------------
// Executable operations
// ---------------------------------------------------------------------------

/// The characters of `s`, in order.
pub fn chars_of(s: &str) -> (v: Vec<char>)
    ensures
        v@ == s@,
{
    let mut v: Vec<char> = Vec::new();
    for c in it: s.chars()
        invariant
            v@ == it.seq().take(it.index() as int),
    {
        v.push(c);
    }
    v
}

/// Builds a `String` from characters (`Iterator::collect` into `String`).
#[verifier::external_body]
pub(crate) fn string_from_chars(v: &[char]) -> (s: String)
    ensures
        s@ == v@,
{
    v.iter().collect()
}

/// Copies a string slice into a new `String`.
pub fn to_owned_string(s: &str) -> (r: String)
    ensures
        r@ == s@,
{
    s.to_owned()
}

/// Concatenation of two strings.
pub fn concat(a: &str, b: &str) -> (r: String)
    ensures
        r@ == a@ + b@,
{
    let mut r = a.to_owned();
    r.append(b);
    r
}

/// Whether two strings hold the same characters.
pub fn str_eq(a: &str, b: &str) -> (r: bool)
    ensures
        r == (a@ == b@),
{
    let x = a.to_owned();
    let y = b.to_owned();
    x == y
}

/// `char::is_whitespace`.
pub fn is_whitespace(c: char) -> (r: bool)
    ensures
        r == is_ws(c),
{
    ('\u{9}' <= c && c <= '\u{d}') || c == ' ' || c == '\u{85}' || c == '\u{a0}' || c
        == '\u{1680}' || ('\u{2000}' <= c && c <= '\u{200a}') || c == '\u{2028}' || c
        == '\u{2029}' || c == '\u{202f}' || c == '\u{205f}' || c == '\u{3000}'
}

/// `char::to_ascii_lowercase`.
pub fn to_ascii_lower(c: char) -> (r: char)
    ensures
        r == ascii_lower(c),
{
    if 'A' <= c && c <= 'Z' {
        let u: u32 = (c as u32) + 32;
        assert(u <= 0x7f);
        char_from_ascii(u)
    } else {
        c
    }
}

/// The character with the given code point, which is below 0x80.
fn char_from_ascii(u: u32) -> (c: char)
    requires
        u < 0x80,
    ensures
        c == u as char,
{
    let b: u8 = u as u8;
    b as char
}

/// `str::trim`.
pub fn trim(s: &str) -> (r: String)
    ensures
        r@ == trim_spec(s@),
{
    let v = chars_of(s);
    let n = v.len();
    let mut i: usize = 0;
    let ghost p = |c: char| is_ws(c);
    assert(v@.subrange(0, n as int) =~= v@);
    #[verifier::loop_isolation(false)]
    while i < n && is_whitespace(v[i])
        invariant
            i <= n,
            n == v@.len(),
            skip_leading(v@, p) == skip_leading(v@.subrange(i as int, n as int), p),
        decreases n - i,
    {
        proof {
            lemma_skip_leading_step(v@, p, i as int);
        }
        i = i + 1;
    }
    let mut j: usize = n;
    #[verifier::loop_isolation(false)]
    while j > i && is_whitespace(v[j - 1])
        invariant
            i <= j <= n,
            n == v@.len(),
            skip_leading(v@, p) == v@.subrange(i as int, n as int),
            skip_trailing(skip_leading(v@, p), p) == skip_trailing(
                v@.subrange(i as int, j as int),
                p,
            ),
        decreases j - i,
    {
        proof {
            lemma_skip_trailing_step(v@, p, i as int, j as int);
        }
        j = j - 1;
    }
    string_from_chars(vstd::slice::slice_subrange(v.as_slice(), i, j))
}

/// `str::trim_start_matches(c)` for a single character.
pub fn trim_start_char(s: &str, c: char) -> (r: String)
    ensures
        r@ == trim_start_char_spec(s@, c),
{
    let v = chars_of(s);
    let n = v.len();
    let mut i: usize = 0;
    let ghost p = is_char(c);
    assert(v@.subrange(0, n as int) =~= v@);
    #[verifier::loop_isolation(false)]
    while i < n && v[i] == c
        invariant
            i <= n,
            n == v@.len(),
            skip_leading(v@, p) == skip_leading(v@.subrange(i as int, n as int), p),
        decreases n - i,
    {
        proof {
            lemma_skip_leading_step(v@, p, i as int);
        }
        i = i + 1;
    }
    string_from_chars(vstd::slice::slice_subrange(v.as_slice(), i, n))
}

/// `str::trim_end_matches(c)` for a single character.
pub fn trim_end_char(s: &str, c: char) -> (r: String)
    ensures
        r@ == trim_end_char_spec(s@, c),
{
    let v = chars_of(s);
    let n = v.len();
    let mut j: usize = n;
    let ghost p = is_char(c);
    assert(v@.subrange(0, n as int) =~= v@);
    #[verifier::loop_isolation(false)]
    while j > 0 && v[j - 1] == c
        invariant
            j <= n,
            n == v@.len(),
            skip_trailing(v@, p) == skip_trailing(v@.subrange(0, j as int), p),
        decreases j,
    {
        proof {
            lemma_skip_trailing_step(v@, p, 0, j as int);
        }
        j = j - 1;
    }
    string_from_chars(vstd::slice::slice_subrange(v.as_slice(), 0, j))
}

/// `str::to_ascii_lowercase`.
pub fn to_ascii_lowercase(s: &str) -> (r: String)
    ensures
        r@ == ascii_lower_seq(s@),
{
    let v = chars_of(s);
    let mut out: Vec<char> = Vec::new();
    let n = v.len();
    for i in 0..n
        invariant
            n == v@.len(),
            out@ == ascii_lower_seq(v@.take(i as int)),
    {
        out.push(to_ascii_lower(v[i]));
        assert(ascii_lower_seq(v@.take(i + 1)) =~= ascii_lower_seq(v@.take(i as int)).push(
            ascii_lower(v@[i as int]),
        ));
    }
    assert(v@.take(n as int) =~= v@);
    string_from_chars(out.as_slice())
}

/// `str::contains` for a string pattern.
pub fn contains(hay: &str, needle: &str) -> (r: bool)
    ensures
        r == contains_seq(hay@, needle@),
{
    let h = chars_of(hay);
    let nd = chars_of(needle);
    let hn = h.len();
    let nn = nd.len();
    if nn > hn {
        return false;
    }
    let mut i: usize = 0;
    while i <= hn - nn
        invariant
            nn <= hn,
            hn == h@.len(),
            nn == nd@.len(),
            h@ == hay@,
            nd@ == needle@,
            forall|k: int| 0 <= k < i ==> #[trigger] h@.subrange(k, k + nn) != nd@,
        decreases hn - nn + 1 - i,
    {
        let mut j: usize = 0;
        while j < nn && h[i + j] == nd[j]
            invariant
                nn <= hn,
                i <= hn - nn,
                hn == h@.len(),
                nn == nd@.len(),
                j <= nn,
                forall|m: int| 0 <= m < j ==> h@[i + m] == nd@[m],
            decreases nn - j,
        {
            j = j + 1;
        }
        if j == nn {
            assert(h@.subrange(i as int, i + nn) =~= nd@);
            assert(hay@.subrange(i as int, i as int + needle@.len()) == needle@);
            return true;
        }
        assert(h@.subrange(i as int, i + nn)[j as int] != nd@[j as int]);
        i = i + 1;
    }
    false
}

/// `str::ends_with` for a string pattern.
pub fn ends_with(s: &str, suffix: &str) -> (r: bool)
    ensures
        r == ends_with_seq(s@, suffix@),
{
    let v = chars_of(s);
    let w = chars_of(suffix);
    let n = v.len();
    let m = w.len();
    if m > n {
        return false;
    }
    let mut j: usize = 0;
    while j < m && v[n - m + j] == w[j]
        invariant
            m <= n,
            n == v@.len(),
            m == w@.len(),
            j <= m,
            forall|k: int| 0 <= k < j ==> v@[n - m + k] == w@[k],
        decreases m - j,
    {
        j = j + 1;
    }
    if j == m {
        assert(v@.subrange(n - m, n as int) =~= w@);
        true
    } else {
        assert(v@.subrange(n - m, n as int)[j as int] != w@[j as int]);
        false
    }
}

/// `str::split(sep)` for a single character.
pub fn split(s: &str, sep: char) -> (pieces: Vec<String>)
    ensures
        views(pieces@) == split_spec(s@, sep),
{
    let v = chars_of(s);
    let n = v.len();
    let mut pieces: Vec<String> = Vec::new();
    let mut cur: Vec<char> = Vec::new();
    assert(v@.take(0) =~= Seq::<char>::empty());
    for i in 0..n
        invariant
            n == v@.len(),
            split_spec(v@.take(i as int), sep) == views(pieces@).push(cur@),
    {
        let c = v[i];
        let ghost old_pieces = views(pieces@);
        let ghost old_cur = cur@;
        assert(v@.take(i + 1).drop_last() =~= v@.take(i as int));
        if c == sep {
            let piece = string_from_chars(cur.as_slice());
            pieces.push(piece);
            cur = Vec::new();
            assert(views(pieces@) =~= old_pieces.push(old_cur));
        } else {
            cur.push(c);
            assert(views(pieces@).push(cur@) =~= old_pieces.push(old_cur).update(
                old_pieces.len() as int,
                old_cur.push(c),
            ));
        }
    }
    assert(v@.take(n as int) =~= v@);
    let last = string_from_chars(cur.as_slice());
    let ghost before = views(pieces@);
    pieces.push(last);
    assert(views(pieces@) =~= before.push(cur@));
    pieces
}

/// `str::split_once(c)` for a single character.
pub fn split_once(s: &str, c: char) -> (r: Option<(String, String)>)
    ensures
        match split_once_spec(s@, c) {
            Some((a, b)) => r matches Some((x, y)) && x@ == a && y@ == b,
            None => r is None,
        },
{
    let v = chars_of(s);
    let n = v.len();
    let mut i: usize = 0;
    while i < n && v[i] != c
        invariant
            i <= n,
            n == v@.len(),
            forall|j: int| 0 <= j < i ==> v@[j] != c,
        decreases n - i,
    {
        i = i + 1;
    }
    if i == n {
        proof {
            lemma_index_of_none(v@, c);
        }
        None
    } else {
        proof {
            lemma_index_of_unique(v@, c, i as int);
        }
        let a = string_from_chars(vstd::slice::slice_subrange(v.as_slice(), 0, i));
        let b = string_from_chars(vstd::slice::slice_subrange(v.as_slice(), i + 1, n));
        Some((a, b))
    }
}

} // verus!
