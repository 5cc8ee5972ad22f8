//! Route paths and route patterns: placeholders such as `/users/<id>`, the
//! values that a request path gives them, and the anchored regular expression
//! that a route is matched with.
use vstd::prelude::*;
use vstd::string::*;
use vstd::utf8::*;

use crate::text::{self, ends_with_char, split_spec, starts_with_char, trim_end_char_spec,
    trim_spec, trim_start_char_spec, views};

verus! {

// ---------------------------------------------------------------------------
// Outside types
// ---------------------------------------------------------------------------

/// Placeholder names as they are collected: a `SmallVec` with room for four
/// names inline, held in a private field. Its contents are described by
/// `name_buffer` and changed only through the wrappers below.
#[verifier::external_body]
pub struct NameBuffer {
    items: smallvec::SmallVec<[String; 4]>,
}

/// Path segments: a `SmallVec` with room for eight segments inline.
#[verifier::external_body]
pub struct SegmentBuffer {
    items: smallvec::SmallVec<[String; 8]>,
}

#[verifier::external_type_specification]
#[verifier::external_body]
pub struct ExRegex(regex::Regex);

// ---------------------------------------------------------------------------
// Byte search (memchr)
// ---------------------------------------------------------------------------

/// The first index at or after `i` where `b` holds `x`.
pub open spec fn byte_index_from(b: Seq<u8>, x: u8, i: int) -> Option<int>
    decreases b.len() - i,
{
    if i < 0 || i >= b.len() {
        None
    } else if b[i] == x {
        Some(i)
    } else {
        byte_index_from(b, x, i + 1)
    }
}

pub proof fn lemma_byte_index_from(b: Seq<u8>, x: u8, i: int)
    requires
        0 <= i,
    ensures
        match byte_index_from(b, x, i) {
            Some(k) => i <= k < b.len() && b[k] == x && forall|j: int| i <= j < k ==> b[j] != x,
            None => forall|j: int| i <= j < b.len() ==> b[j] != x,
        },
    decreases b.len() - i,
{
    if i < b.len() && b[i] != x {
        lemma_byte_index_from(b, x, i + 1);
    }
}

/// Calls `memchr::memchr`: the index of the first byte of `haystack` equal to
/// `needle`, as the crate documents.
#[verifier::external_body]
fn find_byte(needle: u8, haystack: &[u8]) -> (r: Option<usize>)
    ensures
        match r {
            Some(k) => k < haystack@.len() && haystack@[k as int] == needle && forall|j: int|
                0 <= j < k ==> haystack@[j] != needle,
            None => forall|j: int| 0 <= j < haystack@.len() ==> haystack@[j] != needle,
        },
{
    memchr::memchr(needle, haystack)
}

/// Searches `b` from index `i` on, with `find_byte` on the tail.
fn byte_index_from_exec(b: &[u8], x: u8, i: usize) -> (r: Option<usize>)
    requires
        i <= b@.len(),
    ensures
        match r {
            Some(k) => byte_index_from(b@, x, i as int) == Some(k as int),
            None => byte_index_from(b@, x, i as int) is None,
        },
{
    proof {
        lemma_byte_index_from(b@, x, i as int);
    }
    let tail = vstd::slice::slice_subrange(b, i, b.len());
    match find_byte(x, tail) {
        Some(k) => {
            assert(tail@[k as int] == b@[i + k]);
            assert forall|j: int| i <= j < i + k implies b@[j] != x by {
                assert(tail@[j - i] == b@[j]);
            }
            proof {
                lemma_byte_index_unique(b@, x, i as int, (i + k) as int);
            }
            Some(i + k)
        },
        None => {
            assert forall|j: int| i <= j < b@.len() implies b@[j] != x by {
                assert(tail@[j - i] == b@[j]);
            }
            proof {
                lemma_byte_index_none(b@, x, i as int);
            }
            None
        },
    }
}

proof fn lemma_byte_index_unique(b: Seq<u8>, x: u8, i: int, k: int)
    requires
        0 <= i <= k < b.len(),
        b[k] == x,
        forall|j: int| i <= j < k ==> b[j] != x,
    ensures
        byte_index_from(b, x, i) == Some(k),
    decreases k - i,
{
    if i < k {
        lemma_byte_index_unique(b, x, i + 1, k);
    }
}

proof fn lemma_byte_index_none(b: Seq<u8>, x: u8, i: int)
    requires
        0 <= i,
        forall|j: int| i <= j < b.len() ==> b[j] != x,
    ensures
        byte_index_from(b, x, i) is None,
    decreases b.len() - i,
{
    if i < b.len() {
        lemma_byte_index_none(b, x, i + 1);
    }
}

// ---------------------------------------------------------------------------
// Placeholder names
// ---------------------------------------------------------------------------

/// Bytes read one by one as characters (`byte as char`).
pub open spec fn bytes_as_chars(b: Seq<u8>) -> Seq<char> {
    b.map_values(|x: u8| x as char)
}

/// The placeholder names of a route path's bytes, scanning from index `i`:
/// each `<` opens a name that runs to the next `>`; empty names are skipped.
/// `None` when a `<` is never closed (the scan then indexes past the end).
pub open spec fn names_from(b: Seq<u8>, i: int) -> Option<Seq<Seq<char>>>
    decreases b.len() - i,
{
    if i < 0 || i > b.len() {
        None
    } else {
        match byte_index_from(b, 0x3c, i) {
            None => Some(Seq::empty()),
            Some(lt) => match byte_index_from(b, 0x3e, lt + 1) {
                None => None,
                Some(gt) => {
                    proof {
                        lemma_byte_index_from(b, 0x3c, i);
                        lemma_byte_index_from(b, 0x3e, lt + 1);
                    }
                    match names_from(b, gt + 1) {
                        None => None,
                        Some(rest) => {
                            let name = bytes_as_chars(b.subrange(lt + 1, gt));
                            Some(
                                if name.len() > 0 {
                                    seq![name] + rest
                                } else {
                                    rest
                                },
                            )
                        },
                    }
                },
            },
        }
    }
}

/// The placeholder names of a route path, or `None` for a path with an
/// unclosed `<`.
pub open spec fn param_names_spec(path: Seq<char>) -> Option<Seq<Seq<char>>> {
    names_from(encode_utf8(path), 0)
}

/// What a name buffer holds.
pub uninterp spec fn name_buffer(v: NameBuffer) -> Seq<Seq<char>>;

/// Calls `SmallVec::new`: an empty buffer.
#[verifier::external_body]
fn name_buffer_new() -> (v: NameBuffer)
    ensures
        name_buffer(v) == Seq::<Seq<char>>::empty(),
{
    NameBuffer { items: smallvec::SmallVec::new() }
}

/// Calls `SmallVec::push`: appends `s`.
#[verifier::external_body]
fn name_buffer_push(v: &mut NameBuffer, s: String)
    ensures
        name_buffer(*final(v)) == name_buffer(*old(v)).push(s@),
{
    v.items.push(s)
}

/// Calls `SmallVec::into_vec`: the same items, in order, in a `Vec`.
#[verifier::external_body]
fn name_buffer_into_vec(v: NameBuffer) -> (r: Vec<String>)
    ensures
        views(r@) == name_buffer(v),
{
    v.items.into_vec()
}

/// Scans a route path for placeholder names; `None` for an unclosed `<`.
pub(crate) fn scan_param_names(path: &str) -> (r: Option<Vec<String>>)
    ensures
        match param_names_spec(path@) {
            Some(names) => r matches Some(v) && views(v@) == names,
            None => r is None,
        },
{
    let bytes = path.as_bytes();
    let n = bytes.len();
    let ghost b = bytes@;
    let mut names = name_buffer_new();
    let mut i: usize = 0;
    loop
        invariant
            b == bytes@,
            n == b.len(),
            i <= n,
            b == path.spec_bytes(),
            match names_from(b, 0) {
                Some(all) => names_from(b, i as int) matches Some(rest) && all == name_buffer(names)
                    + rest,
                None => names_from(b, i as int) is None,
            },
        decreases n - i,
    {
        match byte_index_from_exec(bytes, 0x3c, i) {
            None => {
                assert(name_buffer(names) + Seq::<Seq<char>>::empty() =~= name_buffer(names));
                return Some(name_buffer_into_vec(names));
            },
            Some(lt) => {
                proof {
                    lemma_byte_index_from(b, 0x3c, i as int);
                }
                let mut j: usize = lt + 1;
                let mut name: Vec<char> = Vec::new();
                while j < n && bytes[j] != 0x3e
                    invariant
                        b == bytes@,
                        n == b.len(),
                        lt < n,
                        lt + 1 <= j <= n,
                        name@ == bytes_as_chars(b.subrange(lt + 1, j as int)),
                        forall|m: int| lt + 1 <= m < j ==> b[m] != 0x3e,
                    decreases n - j,
                {
                    name.push(bytes[j] as char);
                    assert(bytes_as_chars(b.subrange(lt + 1, j + 1)) =~= bytes_as_chars(
                        b.subrange(lt + 1, j as int),
                    ).push(b[j as int] as char));
                    j = j + 1;
                }
                if j == n {
                    proof {
                        lemma_byte_index_none(b, 0x3e, lt + 1);
                    }
                    return None;
                }
                proof {
                    lemma_byte_index_unique(b, 0x3e, lt + 1, j as int);
                }
                let ghost before = name_buffer(names);
                if name.len() > 0 {
                    let s = text::string_from_chars(name.as_slice());
                    name_buffer_push(&mut names, s);
                }
                proof {
                    match names_from(b, 0) {
                        Some(all) => {
                            let rest = names_from(b, j + 1)->0;
                            if name@.len() > 0 {
                                assert(before + (seq![name@] + rest) =~= name_buffer(names)
                                    + rest);
                            }
                        },
                        None => {},
                    }
                }
                i = j + 1;
            },
        }
    }
}

/// The placeholder names of a route path such as `/users/<id>`.
pub fn extract_param_names(path: &str) -> (r: Vec<String>)
    requires
        param_names_spec(path@) is Some,
    ensures
        views(r@) == param_names_spec(path@)->0,
{
    match scan_param_names(path) {
        Some(v) => v,
        None => {
            assert(false);
            Vec::new()
        },
    }
}

// ---------------------------------------------------------------------------
// Placeholder values
// ---------------------------------------------------------------------------

/// A path segment of the form `<...>`.
pub open spec fn is_placeholder(seg: Seq<char>) -> bool {
    starts_with_char(seg, '<') && ends_with_char(seg, '>')
}

/// The actual segments that stand at the positions of placeholder segments,
/// over the first `k` segment pairs.
pub open spec fn zip_values(route: Seq<Seq<char>>, actual: Seq<Seq<char>>, k: nat) -> Seq<
    Seq<char>,
>
    decreases k,
{
    if k == 0 {
        Seq::empty()
    } else {
        let rest = zip_values(route, actual, (k - 1) as nat);
        if is_placeholder(route[k - 1]) {
            rest.push(actual[k - 1])
        } else {
            rest
        }
    }
}

/// The smaller of two lengths.
pub open spec fn min_len(a: nat, b: nat) -> nat {
    if a <= b {
        a
    } else {
        b
    }
}

/// The values that an actual path gives to the placeholders of a route
/// path, segment by segment (`/`-separated), as far as both paths go.
pub open spec fn param_values_spec(route_path: Seq<char>, actual_path: Seq<char>) -> Seq<
    Seq<char>,
> {
    let r = split_spec(route_path, '/');
    let a = split_spec(actual_path, '/');
    zip_values(r, a, min_len(r.len(), a.len()))
}

/// What a segment buffer holds.
pub uninterp spec fn segment_buffer(v: SegmentBuffer) -> Seq<Seq<char>>;

/// Calls `SmallVec::from_vec`: the same items, in order.
#[verifier::external_body]
fn segment_buffer_from_vec(v: Vec<String>) -> (r: SegmentBuffer)
    ensures
        segment_buffer(r) == views(v@),
{
    SegmentBuffer { items: smallvec::SmallVec::from_vec(v) }
}

/// Calls `SmallVec::len`.
#[verifier::external_body]
fn segment_buffer_len(v: &SegmentBuffer) -> (r: usize)
    ensures
        r == segment_buffer(*v).len(),
{
    v.items.len()
}

/// Indexes a `SmallVec` (through its slice).
#[verifier::external_body]
fn segment_buffer_at(v: &SegmentBuffer, i: usize) -> (r: &String)
    requires
        i < segment_buffer(*v).len(),
    ensures
        r@ == segment_buffer(*v)[i as int],
{
    &v.items[i]
}

/// Whether a segment is a placeholder.
fn is_placeholder_exec(seg: &String) -> (r: bool)
    ensures
        r == is_placeholder(seg@),
{
    let v = text::chars_of(seg.as_str());
    let n = v.len();
    n > 0 && v[0] == '<' && v[n - 1] == '>'
}

/// The values that `actual_path` gives to the placeholders of `route_path`.
pub fn extract_param_values(route_path: &str, actual_path: &str) -> (r: Vec<String>)
    ensures
        views(r@) == param_values_spec(route_path@, actual_path@),
{
    let route_segments = segment_buffer_from_vec(text::split(route_path, '/'));
    let actual_segments = segment_buffer_from_vec(text::split(actual_path, '/'));
    let rn = segment_buffer_len(&route_segments);
    let an = segment_buffer_len(&actual_segments);
    let k = if rn <= an {
        rn
    } else {
        an
    };
    let mut values: Vec<String> = Vec::new();
    for i in 0..k
        invariant
            rn == segment_buffer(route_segments).len(),
            an == segment_buffer(actual_segments).len(),
            k <= rn,
            k <= an,
            views(values@) == zip_values(
                segment_buffer(route_segments),
                segment_buffer(actual_segments),
                i as nat,
            ),
    {
        let seg = segment_buffer_at(&route_segments, i);
        if is_placeholder_exec(seg) {
            let actual = segment_buffer_at(&actual_segments, i);
            let ghost before = views(values@);
            values.push(actual.clone());
            assert(views(values@) =~= before.push(actual@));
        }
    }
    values
}

// ---------------------------------------------------------------------------
// Patterns
// ---------------------------------------------------------------------------

/// A pattern anchored with `^` at the start and `$` at the end, after
/// trimming whitespace; anchors already there are kept.
pub open spec fn normalize_spec(pattern: Seq<char>) -> Seq<char> {
    let t = trim_spec(pattern);
    let a = if starts_with_char(t, '^') {
        t
    } else {
        seq!['^'] + t
    };
    if ends_with_char(t, '$') {
        a
    } else {
        a.push('$')
    }
}

/// Anchors a route pattern (see `normalize_spec`).
pub(crate) fn normalize_pattern(pattern: &str) -> (r: String)
    ensures
        r@ == normalize_spec(pattern@),
{
    let trimmed = text::trim(pattern);
    let v = text::chars_of(trimmed.as_str());
    let n = v.len();
    let needs_start = !(n > 0 && v[0] == '^');
    let needs_end = !(n > 0 && v[n - 1] == '$');
    let a = if needs_start {
        text::concat("^", trimmed.as_str())
    } else {
        trimmed
    };
    proof {
        reveal_strlit("^");
        reveal_strlit("$");
    }
    if needs_end {
        text::concat(a.as_str(), "$")
    } else {
        a
    }
}

/// `regex_syntax::is_meta_character`.
pub open spec fn is_meta(c: char) -> bool {
    c == '\\' || c == '.' || c == '+' || c == '*' || c == '?' || c == '(' || c == ')' || c == '|'
        || c == '[' || c == ']' || c == '{' || c == '}' || c == '^' || c == '$' || c == '#' || c
        == '&' || c == '-' || c == '~'
}

/// `regex::escape`: every meta character is preceded by a backslash.
pub open spec fn escape_spec(s: Seq<char>) -> Seq<char>
    decreases s.len(),
{
    if s.len() == 0 {
        Seq::empty()
    } else {
        let rest = escape_spec(s.drop_last());
        if is_meta(s.last()) {
            rest.push('\\').push(s.last())
        } else {
            rest.push(s.last())
        }
    }
}

/// Calls `regex::escape`, which puts a backslash before each character that
/// `regex_syntax::is_meta_character` accepts and copies the others.
#[verifier::external_body]
fn regex_escape(s: &str) -> (r: String)
    ensures
        r@ == escape_spec(s@),
{
    regex::escape(s)
}

/// A route path under a mount base.
pub open spec fn full_path_spec(base: Seq<char>, path: Seq<char>) -> Seq<char> {
    if base.len() == 0 {
        path
    } else {
        base + path
    }
}

/// Joins a mount base and a route path.
pub fn build_full_path(base: &str, path: &str) -> (r: String)
    ensures
        r@ == full_path_spec(base@, path@),
{
    if base.is_empty() {
        path.to_owned()
    } else {
        text::concat(base, path)
    }
}

/// The pattern a route is matched with under a mount base: the normalized
/// pattern, or, under a base, `^`, the escaped base, the normalized pattern
/// without its anchors, and `$`.
pub open spec fn full_pattern_spec(base: Seq<char>, pattern: Seq<char>) -> Seq<char> {
    let normalized = normalize_spec(pattern);
    if base.len() == 0 {
        normalized
    } else {
        seq!['^'] + escape_spec(base) + trim_end_char_spec(
            trim_start_char_spec(normalized, '^'),
            '$',
        ) + seq!['$']
    }
}

/// Builds the pattern of a route registered under `base`.
pub(crate) fn build_full_pattern(base: &str, pattern: &str) -> (r: String)
    ensures
        r@ == full_pattern_spec(base@, pattern@),
{
    let normalized = normalize_pattern(pattern);
    if base.is_empty() {
        normalized
    } else {
        let inner = text::trim_end_char(text::trim_start_char(normalized.as_str(), '^').as_str(), '$');
        let escaped = regex_escape(base);
        let head = text::concat("^", escaped.as_str());
        let body = text::concat(head.as_str(), inner.as_str());
        proof {
            reveal_strlit("^");
            reveal_strlit("$");
        }
        text::concat(body.as_str(), "$")
    }
}

// ---------------------------------------------------------------------------
// Compiled patterns (regex)
// ---------------------------------------------------------------------------

/// A regular expression together with the pattern it was compiled from.
pub struct CompiledPattern {
    source: String,
    re: regex::Regex,
}

impl View for CompiledPattern {
    type V = Seq<char>;

    closed spec fn view(&self) -> Seq<char> {
        self.source@
    }
}

/// Whether `regex::Regex::new` accepts `pattern`.
pub uninterp spec fn regex_compiles(pattern: Seq<char>) -> bool;

/// Whether the regex compiled from `pattern` matches somewhere in `text`.
pub uninterp spec fn regex_is_match(pattern: Seq<char>, text: Seq<char>) -> bool;

/// Calls `regex::Regex::new`, keeping the pattern beside the compiled regex.
/// Claims that compilation succeeds exactly when the named predicate holds
/// of the pattern; the reasons for refusal are not stated.
#[verifier::external_body]
pub(crate) fn compile_pattern(pattern: &str) -> (r: Option<CompiledPattern>)
    ensures
        r is Some <==> regex_compiles(pattern@),
        r matches Some(c) ==> c@ == pattern@,
{
    match regex::Regex::new(pattern) {
        Ok(re) => Some(CompiledPattern { source: pattern.to_string(), re }),
        Err(_) => None,
    }
}

/// Calls `regex::Regex::is_match`. A `CompiledPattern` is only built by
/// `compile_pattern`, so its regex is the one compiled from its view; the
/// result is named as a function of that pattern and the text.
#[verifier::external_body]
pub(crate) fn pattern_is_match(p: &CompiledPattern, text: &str) -> (r: bool)
    ensures
        r == regex_is_match(p@, text@),
{
    p.re.is_match(text)
}

// ---------------------------------------------------------------------------
// Laws
// ---------------------------------------------------------------------------

/// A route pattern is always anchored: after trimming, it starts with `^`
/// and ends with `$`, and what lies between the anchors that are added is the
/// trimmed pattern itself; an anchor is added only where the trimmed pattern
/// lacks it.
pub proof fn law_normalized_pattern_is_anchored(pattern: Seq<char>)
    ensures
        ({
            let t = trim_spec(pattern);
            let n = normalize_spec(pattern);
            &&& n.len() >= 2
            &&& n[0] == '^'
            &&& n[n.len() - 1] == '$'
            &&& (t.len() > 0 && t[0] == '^' && t[t.len() - 1] == '$') ==> n == t
            &&& (t.len() > 0 && t[0] == '^' && t[t.len() - 1] != '$') ==> n == t + seq!['$']
            &&& (t.len() > 0 && t[0] != '^' && t[t.len() - 1] == '$') ==> n == seq!['^'] + t
            &&& (t.len() == 0 || (t[0] != '^' && t[t.len() - 1] != '$')) ==> n == seq!['^'] + t
                + seq!['$']
        }),
{
    let t = trim_spec(pattern);
    let n = normalize_spec(pattern);
    if t.len() == 0 {
        assert(n =~= seq!['^'] + t + seq!['$']);
    } else {
        assert((seq!['^'] + t).push('$') =~= seq!['^'] + t + seq!['$']);
        assert(t.push('$') =~= t + seq!['$']);
    }
}

/// A route registered under a non-empty base is matched with a pattern
/// anchored at both ends: `^`, the base with its regex meta characters
/// escaped, the route's normalized pattern with its own anchors removed, and
/// a closing `$`; so it answers only paths that the whole pattern spans.
/// Without a base the pattern is the normalized pattern itself.
pub proof fn law_mounted_pattern_is_anchored(base: Seq<char>, pattern: Seq<char>)
    ensures
        base.len() == 0 ==> full_pattern_spec(base, pattern) == normalize_spec(pattern),
        base.len() > 0 ==> ({
            let f = full_pattern_spec(base, pattern);
            let e = escape_spec(base);
            let m = trim_end_char_spec(trim_start_char_spec(normalize_spec(pattern), '^'), '$');
            &&& f.len() == e.len() + m.len() + 2
            &&& f[0] == '^'
            &&& f[f.len() - 1] == '$'
            &&& f.subrange(1, 1 + e.len() as int) == e
            &&& f.subrange(1 + e.len() as int, f.len() - 1) == m
        }),
{
    if base.len() > 0 {
        let f = full_pattern_spec(base, pattern);
        let e = escape_spec(base);
        let m = trim_end_char_spec(trim_start_char_spec(normalize_spec(pattern), '^'), '$');
        assert(f =~= seq!['^'] + e + m + seq!['$']);
        assert(f.subrange(1, 1 + e.len() as int) =~= e);
        assert(f.subrange(1 + e.len() as int, f.len() - 1) =~= m);
    }
}

/// How many of the first `k` route segments are placeholders.
pub open spec fn placeholders_before(route: Seq<Seq<char>>, k: int) -> nat
    decreases k,
{
    if k <= 0 {
        0
    } else {
        placeholders_before(route, k - 1) + if is_placeholder(route[k - 1]) {
            1nat
        } else {
            0nat
        }
    }
}

proof fn lemma_placeholders_before_grows(route: Seq<Seq<char>>, i: int, j: int)
    requires
        0 <= i < j,
    ensures
        placeholders_before(route, i + 1) <= placeholders_before(route, j),
    decreases j - i,
{
    if i + 1 < j {
        lemma_placeholders_before_grows(route, i, j - 1);
    }
}

proof fn lemma_zip_values(route: Seq<Seq<char>>, actual: Seq<Seq<char>>, k: nat)
    requires
        k <= route.len(),
        k <= actual.len(),
    ensures
        zip_values(route, actual, k).len() == placeholders_before(route, k as int),
        forall|i: int|
            0 <= i < k && #[trigger] is_placeholder(route[i]) ==> zip_values(route, actual, k)[
                placeholders_before(route, i) as int] == actual[i],
    decreases k,
{
    if k > 0 {
        let k1 = (k - 1) as nat;
        lemma_zip_values(route, actual, k1);
        assert forall|i: int|
            0 <= i < k && #[trigger] is_placeholder(route[i]) implies zip_values(route, actual, k)[
                placeholders_before(route, i) as int] == actual[i] by {
            if i < k1 {
                lemma_placeholders_before_grows(route, i, k1 as int);
            }
        }
    }
}

/// Each path parameter is the request's path segment at the placeholder's
/// position, character for character: with the route path and the request
/// path split at `/`, there is one value for each placeholder segment among
/// the segments both paths have, in order, and the value for the placeholder
/// at position `i` is the request's segment `i` itself.
pub proof fn law_param_values_copy_segments(route_path: Seq<char>, actual_path: Seq<char>)
    ensures
        ({
            let r = split_spec(route_path, '/');
            let a = split_spec(actual_path, '/');
            let m = if r.len() <= a.len() {
                r.len()
            } else {
                a.len()
            };
            let v = param_values_spec(route_path, actual_path);
            &&& v.len() == placeholders_before(r, m as int)
            &&& forall|i: int|
                0 <= i < m && #[trigger] is_placeholder(r[i]) ==> v[placeholders_before(r, i) as int]
                    == a[i]
        }),
{
    let r = split_spec(route_path, '/');
    let a = split_spec(actual_path, '/');
    lemma_zip_values(r, a, min_len(r.len(), a.len()));
}

proof fn lemma_byte_index_shift(b: Seq<u8>, x: u8, off: int, i: int)
    requires
        0 <= off <= b.len(),
        0 <= i,
    ensures
        byte_index_from(b, x, off + i) == match byte_index_from(b.subrange(off, b.len() as int), x, i) {
            Some(k) => Some(k + off),
            None => None::<int>,
        },
    decreases b.len() - off - i,
{
    let t = b.subrange(off, b.len() as int);
    if off + i < b.len() {
        assert(t[i] == b[off + i]);
        if b[off + i] != x {
            lemma_byte_index_shift(b, x, off, i + 1);
            assert(off + (i + 1) == off + i + 1);
        }
    }
}

proof fn lemma_names_from_shift(b: Seq<u8>, off: int, i: int)
    requires
        0 <= off <= b.len(),
        0 <= i,
    ensures
        names_from(b, off + i) == names_from(b.subrange(off, b.len() as int), i),
    decreases b.len() - off - i,
{
    let t = b.subrange(off, b.len() as int);
    if off + i <= b.len() {
        lemma_byte_index_shift(b, 0x3c, off, i);
        lemma_byte_index_from(t, 0x3c, i);
        match byte_index_from(t, 0x3c, i) {
            None => {},
            Some(lt) => {
                lemma_byte_index_shift(b, 0x3e, off, lt + 1);
                assert(off + (lt + 1) == (lt + off) + 1);
                lemma_byte_index_from(t, 0x3e, lt + 1);
                match byte_index_from(t, 0x3e, lt + 1) {
                    None => {},
                    Some(gt) => {
                        lemma_names_from_shift(b, off, gt + 1);
                        assert(off + (gt + 1) == (gt + off) + 1);
                        assert(b.subrange(lt + off + 1, gt + off) =~= t.subrange(lt + 1, gt));
                    },
                }
            },
        }
    }
}

/// A placeholder name is exactly the text between `<` and the next `>`,
/// character for character: in an ASCII route path made of a prefix without
/// `<`, then `<`, a non-empty name without `>`, `>` and a rest, the first
/// placeholder name is that name itself, followed by the names of the rest
/// (and the path has an unclosed `<` exactly when the rest has one).
pub proof fn law_placeholder_name_is_copied(prefix: Seq<char>, name: Seq<char>, rest: Seq<char>)
    requires
        is_ascii_chars(prefix),
        is_ascii_chars(name),
        is_ascii_chars(rest),
        forall|k: int| 0 <= k < prefix.len() ==> prefix[k] != '<',
        name.len() > 0,
        forall|k: int| 0 <= k < name.len() ==> name[k] != '>',
    ensures
        param_names_spec(prefix + seq!['<'] + name + seq!['>'] + rest) == match param_names_spec(
            rest,
        ) {
            Some(ns) => Some(seq![name] + ns),
            None => None::<Seq<Seq<char>>>,
        },
{
    let path = prefix + seq!['<'] + name + seq!['>'] + rest;
    let pl = prefix.len() as int;
    let gt = pl + 1 + name.len();
    assert forall|k: int| 0 <= k < path.len() implies '\0' <= #[trigger] path[k] <= '\u{7f}' by {
        if k < pl {
            assert(path[k] == prefix[k]);
        } else if k == pl {
        } else if k < gt {
            assert(path[k] == name[k - pl - 1]);
        } else if k == gt {
        } else {
            assert(path[k] == rest[k - gt - 1]);
        }
    }
    assert(is_ascii_chars(path));
    let b = encode_utf8(path);
    is_ascii_chars_encode_utf8(path);
    is_ascii_chars_encode_utf8(rest);
    assert(path[pl] == '<');
    assert(b[pl] == 0x3c);
    assert forall|k: int| 0 <= k < pl implies b[k] != 0x3c by {
        assert(path[k] == prefix[k]);
        assert(path[k] as u8 == b[k]);
    }
    lemma_byte_index_unique(b, 0x3c, 0, pl);
    assert(path[gt] == '>');
    assert(b[gt] == 0x3e);
    assert forall|k: int| pl + 1 <= k < gt implies b[k] != 0x3e by {
        assert(path[k] == name[k - pl - 1]);
        assert(path[k] as u8 == b[k]);
    }
    lemma_byte_index_unique(b, 0x3e, pl + 1, gt);
    assert(bytes_as_chars(b.subrange(pl + 1, gt)) =~= name) by {
        assert forall|k: int| 0 <= k < name.len() implies bytes_as_chars(b.subrange(pl + 1, gt))[k]
            == name[k] by {
            assert(path[pl + 1 + k] == name[k]);
            assert(path[pl + 1 + k] as u8 == b[pl + 1 + k]);
        }
    }
    lemma_names_from_shift(b, gt + 1, 0);
    assert(b.subrange(gt + 1, b.len() as int) =~= encode_utf8(rest)) by {
        assert forall|k: int| 0 <= k < rest.len() implies b.subrange(gt + 1, b.len() as int)[k]
            == encode_utf8(rest)[k] by {
            assert(path[gt + 1 + k] == rest[k]);
            assert(path[gt + 1 + k] as u8 == b[gt + 1 + k]);
            assert(rest[k] as u8 == encode_utf8(rest)[k]);
        }
    }
    assert(gt + 1 + 0 == gt + 1);
}

} // verus!
