//! Requests, query strings and request bodies.
use vstd::prelude::*;
use vstd::cell::invcell::InvCell;
use vstd::string::*;
use vstd::utf8::*;

use crate::params::ParamMap;
use hyper::Request as HttpRequest;
use crate::text::{self, split_once_spec, split_spec, views};

verus! {

// ---------------------------------------------------------------------------
// Outside types carried through
// ---------------------------------------------------------------------------

#[verifier::external_type_specification]
#[verifier::external_body]
#[verifier::reject_recursive_types(T)]
pub struct ExHttpRequest<T>(HttpRequest<T>);

#[verifier::external_type_specification]
#[verifier::external_body]
pub struct ExIncoming(hyper::body::Incoming);

#[verifier::external_type_specification]
#[verifier::external_body]
pub struct ExUri(hyper::Uri);

#[verifier::external_type_specification]
#[verifier::external_body]
pub struct ExMethod(hyper::Method);

#[verifier::external_type_specification]
#[verifier::external_body]
#[verifier::reject_recursive_types(T)]
pub struct ExHeaderMap<T>(hyper::HeaderMap<T>);

#[verifier::external_type_specification]
#[verifier::external_body]
pub struct ExHeaderValue(hyper::header::HeaderValue);

#[verifier::external_type_specification]
#[verifier::external_body]
pub struct ExJsonValue(serde_json::Value);

// ---------------------------------------------------------------------------
// Percent-decoding (urlencoding::decode)
// ---------------------------------------------------------------------------

/// The value of an ASCII hexadecimal digit.
pub open spec fn hex_value(b: u8) -> Option<u8> {
    if 0x30 <= b && b <= 0x39 {
        Some((b - 0x30) as u8)
    } else if 0x41 <= b && b <= 0x46 {
        Some((b - 0x41 + 10) as u8)
    } else if 0x61 <= b && b <= 0x66 {
        Some((b - 0x61 + 10) as u8)
    } else {
        None
    }
}

/// Percent-decoding as `urlencoding::decode_binary` performs it: `%` followed
/// by two hex digits becomes that byte; a `%` that does not start such a
/// triple is kept, and `+` is left alone.
pub open spec fn percent_decode(s: Seq<u8>) -> Seq<u8>
    decreases s.len(),
{
    if s.len() == 0 {
        Seq::empty()
    } else if s[0] != 0x25 {
        seq![s[0]] + percent_decode(s.skip(1))
    } else if s.len() < 3 {
        s
    } else {
        match (hex_value(s[1]), hex_value(s[2])) {
            (Some(hi), Some(lo)) => seq![(hi * 16 + lo) as u8] + percent_decode(s.skip(3)),
            (Some(_), None) => seq![0x25u8, s[1]] + percent_decode(s.skip(2)),
            (None, _) => seq![0x25u8] + percent_decode(s.skip(1)),
        }
    }
}

/// `urlencoding::decode(s).unwrap_or_default()`: the percent-decoded text, or
/// the empty string when the decoded bytes are not UTF-8.
pub open spec fn decode_param_spec(s: Seq<char>) -> Seq<char> {
    let bytes = percent_decode(encode_utf8(s));
    if valid_utf8(bytes) {
        decode_utf8(bytes)
    } else {
        Seq::empty()
    }
}

/// Calls `urlencoding::decode`. The crate percent-decodes the bytes of `s` as
/// `percent_decode` states and then checks them as UTF-8; the contract claims
/// that the result is present exactly when the decoded bytes are UTF-8, and
/// that it is their text.
#[verifier::external_body]
fn url_decode(s: &str) -> (r: Option<String>)
    ensures
        r is Some <==> valid_utf8(percent_decode(s.spec_bytes())),
        r matches Some(d) ==> d@ == decode_utf8(percent_decode(s.spec_bytes())),
{
    urlencoding::decode(s).ok().map(|c| c.into_owned())
}

/// Decodes one key or value, falling back to the empty string.
fn decode_param(s: &str) -> (r: String)
    ensures
        r@ == decode_param_spec(s@),
{
    match url_decode(s) {
        Some(d) => d,
        None => String::new(),
    }
}

// ---------------------------------------------------------------------------
// `key=value&...` parsing, shared by queries and forms
// ---------------------------------------------------------------------------

/// The map built from `&`-separated pieces: a piece with an `=` adds its
/// decoded key and value (later keys win), a piece without one is skipped.
pub open spec fn pieces_to_map(pieces: Seq<Seq<char>>) -> Map<Seq<char>, Seq<char>>
    decreases pieces.len(),
{
    if pieces.len() == 0 {
        Map::empty()
    } else {
        let m = pieces_to_map(pieces.drop_last());
        match split_once_spec(pieces.last(), '=') {
            Some((k, v)) => m.insert(decode_param_spec(k), decode_param_spec(v)),
            None => m,
        }
    }
}

/// The parameters of an `application/x-www-form-urlencoded` text.
pub open spec fn parse_pairs_spec(text: Seq<char>) -> Map<Seq<char>, Seq<char>> {
    pieces_to_map(split_spec(text, '&'))
}

/// Splits a piece at its first `=` and decodes both sides.
fn parse_key_value_pair(pair: &str) -> (r: Option<(String, String)>)
    ensures
        match split_once_spec(pair@, '=') {
            Some((k, v)) => r matches Some((x, y)) && x@ == decode_param_spec(k) && y@
                == decode_param_spec(v),
            None => r is None,
        },
{
    match text::split_once(pair, '=') {
        Some((k, v)) => Some((decode_param(k.as_str()), decode_param(v.as_str()))),
        None => None,
    }
}

/// Parses `key=value` pairs separated by `&`.
fn parse_pairs(text: &str) -> (m: ParamMap)
    ensures
        m@ == parse_pairs_spec(text@),
{
    let pieces = text::split(text, '&');
    let mut m = ParamMap::new();
    let n = pieces.len();
    for i in 0..n
        invariant
            n == pieces@.len(),
            m@ == pieces_to_map(views(pieces@).take(i as int)),
    {
        assert(views(pieces@).take(i + 1).drop_last() =~= views(pieces@).take(i as int));
        match parse_key_value_pair(pieces[i].as_str()) {
            Some((k, v)) => {
                m.insert(k, v);
            },
            None => {},
        }
    }
    assert(views(pieces@).take(n as int) =~= views(pieces@));
    m
}

/// Splitting text that ends with a separator and a separator-free piece
/// yields the pieces of the text followed by that piece.
proof fn lemma_split_append(a: Seq<char>, sep: char, b: Seq<char>)
    requires
        forall|i: int| 0 <= i < b.len() ==> b[i] != sep,
    ensures
        split_spec(a + seq![sep] + b, sep) == split_spec(a, sep).push(b),
    decreases b.len(),
{
    let s = a + seq![sep] + b;
    if b.len() == 0 {
        assert(s.drop_last() =~= a);
        assert(b =~= Seq::<char>::empty());
    } else {
        lemma_split_append(a, sep, b.drop_last());
        assert(s.drop_last() =~= a + seq![sep] + b.drop_last());
        assert(b.drop_last().push(b.last()) =~= b);
        text::lemma_split_nonempty(a, sep);
    }
}

/// Splitting `k=v` at its first `=`, when `k` has none, gives `k` and `v`.
proof fn lemma_split_once_pair(k: Seq<char>, v: Seq<char>)
    requires
        forall|i: int| 0 <= i < k.len() ==> k[i] != '=',
    ensures
        split_once_spec(k + seq!['='] + v, '=') == Some((k, v)),
{
    let p = k + seq!['='] + v;
    text::lemma_index_of_unique(p, '=', k.len() as int);
    assert(p.subrange(0, k.len() as int) =~= k);
    assert(p.subrange(k.len() as int + 1, p.len() as int) =~= v);
}

/// Of two pairs with the same key, the later one gives the value: after
/// any text, a pair `k=v` sets the decoded `k` to the decoded `v`.
pub proof fn law_later_pair_wins(text: Seq<char>, k: Seq<char>, v: Seq<char>)
    requires
        forall|i: int| 0 <= i < k.len() ==> k[i] != '=' && k[i] != '&',
        forall|i: int| 0 <= i < v.len() ==> v[i] != '&',
    ensures
        parse_pairs_spec(text + seq!['&'] + (k + seq!['='] + v)) == parse_pairs_spec(text).insert(
            decode_param_spec(k),
            decode_param_spec(v),
        ),
{
    let piece = k + seq!['='] + v;
    assert forall|i: int| 0 <= i < piece.len() implies piece[i] != '&' by {
        if i < k.len() {
        } else if i > k.len() {
            assert(piece[i] == v[i - k.len() - 1]);
        }
    }
    lemma_split_append(text, '&', piece);
    lemma_split_once_pair(k, v);
    assert(split_spec(text, '&').push(piece).drop_last() =~= split_spec(text, '&'));
}

/// A piece without `=` adds nothing.
pub proof fn law_piece_without_equals_is_ignored(text: Seq<char>, piece: Seq<char>)
    requires
        forall|i: int| 0 <= i < piece.len() ==> piece[i] != '=' && piece[i] != '&',
    ensures
        parse_pairs_spec(text + seq!['&'] + piece) == parse_pairs_spec(text),
{
    lemma_split_append(text, '&', piece);
    text::lemma_index_of_none(piece, '=');
    assert(split_spec(text, '&').push(piece).drop_last() =~= split_spec(text, '&'));
}

// ---------------------------------------------------------------------------
// Query
// ---------------------------------------------------------------------------

/// The query parameters that an optional raw query string denotes.
pub open spec fn query_params_spec(raw: Option<Seq<char>>) -> Map<Seq<char>, Seq<char>> {
    match raw {
        Some(q) => parse_pairs_spec(q),
        None => Map::empty(),
    }
}

/// What the memo of a query may hold: nothing yet, or the parsed parameters.
pub open spec fn memo_ok(raw: Option<Seq<char>>) -> spec_fn(Option<ParamMap>) -> bool {
    |m: Option<ParamMap>|
        match m {
            None => true,
            Some(p) => raw is Some && p@ == parse_pairs_spec(raw->0),
        }
}

/// The view of an optional string.
pub open spec fn opt_view(s: Option<String>) -> Option<Seq<char>> {
    match s {
        Some(x) => Some(x@),
        None => None,
    }
}

/// Query parameters of a URL. The query string is parsed on first access and
/// the result kept.
pub struct Query {
    raw_query: Option<String>,
    parsed: InvCell<Option<ParamMap>, spec_fn(Option<ParamMap>) -> bool>,
}

impl Query {
    #[verifier::type_invariant]
    spec fn memo_matches_raw(&self) -> bool {
        self.parsed.predicate() == memo_ok(opt_view(self.raw_query))
    }

    /// The raw query string, if the URL has one.
    pub closed spec fn raw(&self) -> Option<Seq<char>> {
        opt_view(self.raw_query)
    }

    /// The parameters that this query denotes.
    pub open spec fn spec_params(&self) -> Map<Seq<char>, Seq<char>> {
        query_params_spec(self.raw())
    }

    fn from_raw(raw_query: Option<String>) -> (q: Query)
        ensures
            q.raw() == opt_view(raw_query),
    {
        let ghost pred = memo_ok(opt_view(raw_query));
        let parsed = InvCell::new(None, Ghost(pred));
        Query { raw_query, parsed }
    }

    /// Reads the query string of `uri`; nothing is parsed yet.
    pub fn from_uri(uri: &hyper::Uri) -> (q: Query)
        ensures
            q.raw() == uri_query_text(*uri),
    {
        Query::from_raw(uri_query(uri))
    }

    /// Takes the parsed parameters out of the memo, parsing them if this has
    /// not happened yet. `None` when there is no query string. The caller
    /// puts the result back with `restore`.
    fn take_parsed(&self) -> (r: Option<ParamMap>)
        ensures
            r is Some <==> self.raw() is Some,
            r matches Some(m) ==> m@ == parse_pairs_spec(self.raw()->0),
    {
        proof {
            use_type_invariant(self);
        }
        let cur = self.parsed.replace(None);
        match cur {
            Some(m) => Some(m),
            None => match &self.raw_query {
                Some(q) => Some(parse_pairs(q.as_str())),
                None => None,
            },
        }
    }

    fn restore(&self, m: Option<ParamMap>)
        requires
            m matches Some(p) ==> self.raw() is Some && p@ == parse_pairs_spec(self.raw()->0),
    {
        proof {
            use_type_invariant(self);
        }
        let _ = self.parsed.replace(m);
    }

    /// The value of a query parameter.
    pub fn get(&self, key: &str) -> (r: Option<String>)
        ensures
            match r {
                Some(v) => self.spec_params().dom().contains(key@) && v@ == self.spec_params()[key@],
                None => !self.spec_params().dom().contains(key@),
            },
    {
        let parsed = self.take_parsed();
        let r = match &parsed {
            Some(m) => match m.get(key) {
                Some(v) => Some(v.clone()),
                None => None,
            },
            None => None,
        };
        self.restore(parsed);
        r
    }

    /// The value of a query parameter, or `default` when it is absent.
    pub fn get_or(&self, key: &str, default: &str) -> (r: String)
        ensures
            r@ == if self.spec_params().dom().contains(key@) {
                self.spec_params()[key@]
            } else {
                default@
            },
    {
        match self.get(key) {
            Some(v) => v,
            None => default.to_owned(),
        }
    }

    /// Whether a query parameter is present.
    pub fn has(&self, key: &str) -> (r: bool)
        ensures
            r == self.spec_params().dom().contains(key@),
    {
        let parsed = self.take_parsed();
        let r = match &parsed {
            Some(m) => m.contains_key(key),
            None => false,
        };
        self.restore(parsed);
        r
    }

    /// All query parameters.
    pub fn all(&self) -> (r: ParamMap)
        ensures
            r@ == self.spec_params(),
    {
        let parsed = self.take_parsed();
        let r = match &parsed {
            Some(m) => m.clone(),
            None => ParamMap::new(),
        };
        self.restore(parsed);
        r
    }
}

/// What `hyper::Uri::query` gives for `uri`: the text after `?` up to any
/// `#`, or `None` when the URI has no query. It depends on the URI alone.
pub uninterp spec fn uri_query_text(uri: hyper::Uri) -> Option<Seq<char>>;

/// Calls `hyper::Uri::query`, copying the query string out. The claim is
/// only that the copy is the text that `Uri::query` returns for this URI
/// (`uri_query_text`); the URI's contents are not visible here.
#[verifier::external_body]
fn uri_query(uri: &hyper::Uri) -> (r: Option<String>)
    ensures
        opt_view(r) == uri_query_text(*uri),
{
    uri.query().map(|s| s.to_string())
}

// ---------------------------------------------------------------------------
// Body
// ---------------------------------------------------------------------------

/// The message `std::str::Utf8Error` displays for invalid UTF-8 `bytes`.
pub uninterp spec fn utf8_error_text(bytes: Seq<u8>) -> Seq<char>;

/// Calls `std::str::from_utf8`, turning its error into the error's display
/// text. Claims, as the standard library documents, that it succeeds exactly
/// on valid UTF-8 and then holds the same bytes; the error text is named.
#[verifier::external_body]
fn str_from_utf8(bytes: &[u8]) -> (r: Result<&str, String>)
    ensures
        r is Ok <==> valid_utf8(bytes@),
        r matches Ok(s) ==> s.spec_bytes() == bytes@,
        r matches Err(e) ==> e@ == utf8_error_text(bytes@),
{
    std::str::from_utf8(bytes).map_err(|e| e.to_string())
}

/// The error text `serde_json` displays when `text` is not a JSON document,
/// or `None` when it parses.
pub uninterp spec fn json_error_text(text: Seq<char>) -> Option<Seq<char>>;

/// The `serde_json::Value` that `serde_json::from_str` parses from `text`
/// when it succeeds. It depends on the text alone.
pub uninterp spec fn json_value(text: Seq<char>) -> serde_json::Value;

/// Calls `serde_json::from_str` for a `serde_json::Value`, turning its error
/// into the error's display text. The contract says that it fails exactly
/// when the named error text is present, with that text, and that on success
/// the value is the one parsed from the text (`json_value`); what that value
/// holds is not visible here.
#[verifier::external_body]
fn json_from_str(text: &str) -> (r: Result<serde_json::Value, String>)
    ensures
        r is Ok <==> json_error_text(text@) is None,
        r matches Ok(v) ==> v == json_value(text@),
        r matches Err(e) ==> json_error_text(text@) == Some(e@),
{
    serde_json::from_str::<serde_json::Value>(text).map_err(|e| e.to_string())
}

/// The error that a body whose bytes are not UTF-8 reports.
pub open spec fn utf8_error_message(bytes: Seq<u8>) -> Seq<char> {
    "Invalid UTF-8: "@ + utf8_error_text(bytes)
}

/// An HTTP request body, read in full.
pub struct Body {
    pub data: Vec<u8>,
}

impl Body {
    /// The body as UTF-8 text.
    pub fn as_str(&self) -> (r: Result<&str, String>)
        ensures
            match r {
                Ok(s) => valid_utf8(self.data@) && s@ == decode_utf8(self.data@),
                Err(e) => !valid_utf8(self.data@) && e@ == utf8_error_message(self.data@),
            },
    {
        match str_from_utf8(self.data.as_slice()) {
            Ok(s) => {
                proof {
                    vstd::utf8::encode_utf8_decode_utf8(s@);
                }
                Ok(s)
            },
            Err(e) => Err(text::concat("Invalid UTF-8: ", e.as_str())),
        }
    }

    /// The raw bytes.
    pub fn as_bytes(&self) -> (r: &[u8])
        ensures
            r@ == self.data@,
    {
        self.data.as_slice()
    }

    /// The body parsed as a JSON document.
    pub fn json(&self) -> (r: Result<serde_json::Value, String>)
        ensures
            !valid_utf8(self.data@) ==> (r matches Err(e) && e@ == utf8_error_message(self.data@)),
            valid_utf8(self.data@) ==> match json_error_text(decode_utf8(self.data@)) {
                None => r matches Ok(v) && v == json_value(decode_utf8(self.data@)),
                Some(t) => r matches Err(e) && e@ == "Failed to parse JSON: "@ + t,
            },
    {
        match self.as_str() {
            Ok(text) => match json_from_str(text) {
                Ok(v) => Ok(v),
                Err(e) => Err(text::concat("Failed to parse JSON: ", e.as_str())),
            },
            Err(e) => Err(e),
        }
    }

    /// The body parsed as `application/x-www-form-urlencoded` fields.
    pub fn form(&self) -> (r: Result<ParamMap, String>)
        ensures
            match r {
                Ok(m) => valid_utf8(self.data@) && m@ == parse_pairs_spec(decode_utf8(self.data@)),
                Err(e) => !valid_utf8(self.data@) && e@ == utf8_error_message(self.data@),
            },
    {
        match self.as_str() {
            Ok(text) => Ok(parse_pairs(text)),
            Err(e) => Err(e),
        }
    }

    /// Whether the body has no bytes.
    pub fn is_empty(&self) -> (r: bool)
        ensures
            r == (self.data@.len() == 0),
    {
        self.data.len() == 0
    }

    /// The body size in bytes.
    pub fn len(&self) -> (r: usize)
        ensures
            r == self.data@.len(),
    {
        self.data.len()
    }
}

/// A query string and a form body with the same text give the same
/// parameters.
pub proof fn law_query_and_form_agree(text: Seq<char>)
    ensures
        valid_utf8(encode_utf8(text)),
        query_params_spec(Some(text)) == parse_pairs_spec(decode_utf8(encode_utf8(text))),
{
    vstd::utf8::encode_utf8_valid_utf8(text);
    vstd::utf8::encode_utf8_decode_utf8(text);
}

} // verus!

verus! {

// ---------------------------------------------------------------------------
// Request
// ---------------------------------------------------------------------------

/// An HTTP request together with the path parameters of the route that
/// matched it.
pub struct Request {
    inner: HttpRequest<hyper::body::Incoming>,
    params: ParamMap,
}

/// What `hyper::Request::method` gives for `req`: the method stored in the
/// request. It depends on the request alone.
pub uninterp spec fn request_method(req: HttpRequest<hyper::body::Incoming>) -> hyper::Method;

/// What `hyper::Request::headers` gives for `req`: the header map stored in
/// the request. It depends on the request alone.
pub uninterp spec fn request_headers(req: HttpRequest<hyper::body::Incoming>) -> hyper::HeaderMap;

/// What `HeaderMap::get` followed by `HeaderValue::to_str` gives for the
/// header `name` in `headers`: the value's text when the header is present
/// and its value is visible ASCII, `None` otherwise. It depends on the map
/// and the name alone.
pub uninterp spec fn header_text(headers: hyper::HeaderMap, name: Seq<char>) -> Option<Seq<char>>;

/// What `hyper::Request::uri` gives for `req`: the URI stored in the
/// request. It depends on the request alone.
pub uninterp spec fn request_uri(req: HttpRequest<hyper::body::Incoming>) -> hyper::Uri;

impl Request {
    /// The hyper request that this request wraps.
    pub closed spec fn inner_request(&self) -> HttpRequest<hyper::body::Incoming> {
        self.inner
    }

    /// The path parameters.
    pub closed spec fn path_params(&self) -> Map<Seq<char>, Seq<char>> {
        self.params@
    }

    /// A request with no path parameters.
    pub fn new(inner: HttpRequest<hyper::body::Incoming>) -> (r: Request)
        ensures
            r.inner_request() == inner,
            r.path_params() == Map::<Seq<char>, Seq<char>>::empty(),
    {
        Request { inner, params: ParamMap::new() }
    }

    /// A request with the given path parameters.
    pub fn with_params(inner: HttpRequest<hyper::body::Incoming>, params: ParamMap) -> (r:
        Request)
        ensures
            r.inner_request() == inner,
            r.path_params() == params@,
    {
        Request { inner, params }
    }

    /// The value of a path parameter, e.g. `"123"` for `id` when the route
    /// `/users/<id>` matched `/users/123`.
    pub fn param(&self, name: &str) -> (r: Option<&str>)
        ensures
            match r {
                Some(v) => self.path_params().dom().contains(name@) && v@ == self.path_params()[name@],
                None => !self.path_params().dom().contains(name@),
            },
    {
        match self.params.get(name) {
            Some(v) => Some(v.as_str()),
            None => None,
        }
    }

    /// All path parameters.
    pub fn params(&self) -> (r: &ParamMap)
        ensures
            r@ == self.path_params(),
    {
        &self.params
    }

    /// The request method: calls `hyper::Request::method`. The claim is only
    /// that the result is the method stored in the wrapped request
    /// (`request_method`); the method's contents are not visible here.
    #[verifier::external_body]
    pub fn method(&self) -> (r: &hyper::Method)
        ensures
            *r == request_method(self.inner_request()),
    {
        self.inner.method()
    }

    /// The request URI: calls `hyper::Request::uri`. The claim is only that
    /// the result is the URI stored in the wrapped request
    /// (`request_uri`); its contents are not visible here.
    #[verifier::external_body]
    pub fn uri(&self) -> (r: &hyper::Uri)
        ensures
            *r == request_uri(self.inner_request()),
    {
        self.inner.uri()
    }

    /// The request headers: calls `hyper::Request::headers`. The claim is
    /// only that the result is the header map stored in the wrapped request
    /// (`request_headers`); its contents are not visible here.
    #[verifier::external_body]
    pub fn headers(&self) -> (r: &hyper::HeaderMap)
        ensures
            *r == request_headers(self.inner_request()),
    {
        self.inner.headers()
    }

    /// The value of a header, when it is present and visible ASCII: calls
    /// `HeaderMap::get` and `HeaderValue::to_str`. The claim is that the
    /// result is what those calls give for the request's header map and
    /// `name` (`header_text`); the map's contents are not visible here.
    #[verifier::external_body]
    pub fn header(&self, name: &str) -> (r: Option<&str>)
        ensures
            match r {
                Some(v) => header_text(request_headers(self.inner_request()), name@) == Some(v@),
                None => header_text(request_headers(self.inner_request()), name@) is None,
            },
    {
        self.inner.headers().get(name).and_then(|v| v.to_str().ok())
    }

    /// The underlying hyper request.
    pub fn into_inner(self) -> (r: HttpRequest<hyper::body::Incoming>)
        ensures
            r == self.inner_request(),
    {
        self.inner
    }

    /// The query parameters of the request URI.
    pub fn query(&self) -> (q: Query)
        ensures
            q.raw() == uri_query_text(request_uri(self.inner_request())),
    {
        Query::from_uri(self.uri())
    }
}

} // verus!
