//! The route table: registration under a mount base, lookup of the route
//! that a method and path select (with its path parameters), and a small
//! cache of recent lookups.
use vstd::prelude::*;
use vstd::string::*;
use std::hash::Hasher;
use vstd::std_specs::hash::DefaultHasherAdditionalSpecFns;

use crate::handler::Reply;
use crate::params::ParamMap;
use crate::pattern::{self, full_path_spec, full_pattern_spec, param_names_spec,
    param_values_spec, regex_compiles, regex_is_match, CompiledPattern};
use crate::text::{self, trim_end_char_spec, views};

verus! {

// ---------------------------------------------------------------------------
// The model of a route and of a lookup
// ---------------------------------------------------------------------------

/// What the table records of a route: its method, its full path (with the
/// mount base), its full pattern, its placeholder names, and whether it is
/// static (has no placeholders).
pub struct RouteSpec {
    pub method: Seq<char>,
    pub path: Seq<char>,
    pub pattern: Seq<char>,
    pub names: Seq<Seq<char>>,
    pub is_static: bool,
}

/// Whether a route answers `method` and `path`: a static route when the path
/// equals its path, another route when its pattern matches the path.
pub open spec fn route_matches(r: RouteSpec, method: Seq<char>, path: Seq<char>) -> bool {
    r.method == method && if r.is_static {
        path == r.path
    } else {
        regex_is_match(r.pattern, path)
    }
}

/// The index of the first registered route that answers `method` and `path`.
pub open spec fn first_match(rs: Seq<RouteSpec>, method: Seq<char>, path: Seq<char>) -> Option<
    int,
>
    decreases rs.len(),
{
    if rs.len() == 0 {
        None
    } else {
        match first_match(rs.drop_last(), method, path) {
            Some(i) => Some(i),
            None => if route_matches(rs.last(), method, path) {
                Some(rs.len() - 1)
            } else {
                None
            },
        }
    }
}

/// The map from the first `k` names to the values at the same positions
/// (names without a value are skipped; a repeated name keeps its last value).
pub open spec fn zip_params(names: Seq<Seq<char>>, values: Seq<Seq<char>>, k: nat) -> Map<
    Seq<char>,
    Seq<char>,
>
    decreases k,
{
    if k == 0 {
        Map::empty()
    } else {
        let m = zip_params(names, values, (k - 1) as nat);
        if k - 1 < values.len() {
            m.insert(names[k - 1], values[k - 1])
        } else {
            m
        }
    }
}

/// The path parameters that a matching route gives a path.
pub open spec fn match_params(r: RouteSpec, path: Seq<char>) -> Map<Seq<char>, Seq<char>> {
    if r.is_static {
        Map::empty()
    } else {
        zip_params(r.names, param_values_spec(r.path, path), r.names.len())
    }
}

/// The route that registering `path` and `pattern` for `method` under the
/// mount base `base` adds.
pub open spec fn route_spec_for(
    base: Seq<char>,
    method: Seq<char>,
    path: Seq<char>,
    pattern: Seq<char>,
) -> RouteSpec {
    let full_path = full_path_spec(base, path);
    let names = param_names_spec(full_path)->0;
    RouteSpec {
        method,
        path: full_path,
        pattern: full_pattern_spec(base, pattern),
        names,
        is_static: names.len() == 0,
    }
}

/// Registering `path` and `pattern` under `base` succeeds: every `<` of the
/// full path is closed, and the full pattern compiles.
pub open spec fn registrable(base: Seq<char>, path: Seq<char>, pattern: Seq<char>) -> bool {
    &&& param_names_spec(full_path_spec(base, path)) is Some
    &&& regex_compiles(full_pattern_spec(base, pattern))
}

pub proof fn lemma_first_match(rs: Seq<RouteSpec>, method: Seq<char>, path: Seq<char>)
    ensures
        match first_match(rs, method, path) {
            Some(i) => 0 <= i < rs.len() && route_matches(rs[i], method, path) && forall|j: int|
                0 <= j < i ==> !route_matches(#[trigger] rs[j], method, path),
            None => forall|j: int|
                0 <= j < rs.len() ==> !route_matches(#[trigger] rs[j], method, path),
        },
    decreases rs.len(),
{
    if rs.len() > 0 {
        lemma_first_match(rs.drop_last(), method, path);
        assert forall|j: int| 0 <= j < rs.len() - 1 implies rs[j] == rs.drop_last()[j] by {}
    }
}

/// Appending a route keeps every lookup that already found a route.
pub proof fn lemma_first_match_push(
    rs: Seq<RouteSpec>,
    r: RouteSpec,
    method: Seq<char>,
    path: Seq<char>,
)
    ensures
        first_match(rs, method, path) is Some ==> first_match(rs.push(r), method, path)
            == first_match(rs, method, path),
{
    assert(rs.push(r).drop_last() =~= rs);
}

// ---------------------------------------------------------------------------
// Routes
// ---------------------------------------------------------------------------

/// A registered route.
struct RouteInfo<H> {
    method: String,
    original_path: String,
    pattern: CompiledPattern,
    param_names: Vec<String>,
    handler: H,
    is_static: bool,
}

impl<H> RouteInfo<H> {
    spec fn spec(&self) -> RouteSpec {
        RouteSpec {
            method: self.method@,
            path: self.original_path@,
            pattern: self.pattern@,
            names: views(self.param_names@),
            is_static: self.is_static,
        }
    }
}

/// Route information for inspection.
pub struct Route<H> {
    pub method: String,
    pub path: String,
    pub handler: H,
}

/// The result of a lookup: the route's handler and the path parameters.
pub struct HandlerMatch<H> {
    pub handler: H,
    pub params: ParamMap,
}

/// Why a route cannot be registered.
#[derive(Debug, PartialEq, Eq, Structural)]
pub enum RouteError {
    /// The full path has a `<` with no `>` after it.
    UnclosedParameter,
    /// The full pattern is not a valid regular expression.
    InvalidPattern,
}

// ---------------------------------------------------------------------------
// The lookup cache (lru)
// ---------------------------------------------------------------------------

/// A cached lookup result.
pub struct CacheEntry {
    method: String,
    path: String,
    route: usize,
    params: ParamMap,
}

/// What a cached lookup result records.
pub struct CacheView {
    pub method: Seq<char>,
    pub path: Seq<char>,
    pub route: usize,
    pub params: Map<Seq<char>, Seq<char>>,
}

impl View for CacheEntry {
    type V = CacheView;

    closed spec fn view(&self) -> CacheView {
        CacheView {
            method: self.method@,
            path: self.path@,
            route: self.route,
            params: self.params@,
        }
    }
}

impl Clone for CacheEntry {
    fn clone(&self) -> (r: Self)
        ensures
            r@ == self@,
    {
        CacheEntry {
            method: self.method.clone(),
            path: self.path.clone(),
            route: self.route,
            params: self.params.clone(),
        }
    }
}

#[verifier::external_type_specification]
#[verifier::external_body]
#[verifier::reject_recursive_types(K)]
#[verifier::reject_recursive_types(V)]
#[verifier::reject_recursive_types(S)]
pub struct ExLruCache<K, V, S>(lru::LruCache<K, V, S>);

#[verifier::external_type_specification]
#[verifier::external_body]
pub struct ExLruHasher(lru::DefaultHasher);

/// What the lookup cache holds, by key.
pub uninterp spec fn cache_contents(c: lru::LruCache<u64, CacheEntry>) -> Map<u64, CacheView>;

/// Calls `LruCache::new` with capacity `cap`: an empty cache.
#[verifier::external_body]
fn cache_new(cap: usize) -> (r: lru::LruCache<u64, CacheEntry>)
    requires
        cap > 0,
    ensures
        forall|k: u64| !#[trigger] cache_contents(r).dom().contains(k),
{
    lru::LruCache::new(std::num::NonZeroUsize::new(cap).unwrap())
}

/// Calls `LruCache::get` and clones the entry. The lookup only moves the
/// entry to the front of the recency order; what the cache holds is
/// unchanged.
#[verifier::external_body]
fn cache_get(c: &mut lru::LruCache<u64, CacheEntry>, key: u64) -> (r: Option<CacheEntry>)
    ensures
        cache_contents(*final(c)) == cache_contents(*old(c)),
        match r {
            Some(e) => cache_contents(*old(c)).dom().contains(key) && e@ == cache_contents(
                *old(c),
            )[key],
            None => !cache_contents(*old(c)).dom().contains(key),
        },
{
    c.get(&key).cloned()
}

/// Calls `LruCache::put`. Afterwards `key` holds `value`; any other key
/// still present holds what it held before (when the cache is full and `key`
/// is new, the least recently used entry is dropped; which one that is, is
/// not stated).
#[verifier::external_body]
fn cache_put(c: &mut lru::LruCache<u64, CacheEntry>, key: u64, value: CacheEntry)
    ensures
        cache_contents(*final(c)).dom().contains(key),
        cache_contents(*final(c))[key] == value@,
        forall|k: u64|
            k != key && #[trigger] cache_contents(*final(c)).dom().contains(k) ==> cache_contents(
                *old(c),
            ).dom().contains(k) && cache_contents(*final(c))[k] == cache_contents(*old(c))[k],
{
    c.put(key, value);
}

/// What `Hash::hash` for a string slice `s` writes into a hasher, as the
/// writes that `DefaultHasher`'s view records. It depends on `s` alone.
pub uninterp spec fn str_hash_writes(s: Seq<char>) -> Seq<Seq<u8>>;

/// Calls `Hash::hash` for a string slice. The claim is only that hashing
/// appends to the hasher's recorded writes a sequence determined by the
/// string (`str_hash_writes`); which bytes those are is not stated.
#[verifier::external_body]
fn hash_str(h: &mut std::collections::hash_map::DefaultHasher, s: &str)
    ensures
        final(h)@ == old(h)@ + str_hash_writes(s@),
{
    std::hash::Hash::hash(s, h)
}

/// The cache key of `method` and `path`: the finished `DefaultHasher` after
/// hashing the method and then the path.
pub open spec fn route_cache_key(method: Seq<char>, path: Seq<char>) -> u64 {
    std::collections::hash_map::DefaultHasher::spec_finish(
        Seq::<Seq<u8>>::empty() + str_hash_writes(method) + str_hash_writes(path),
    )
}

/// The cache key of a method and path.
fn make_route_cache_key(method: &str, path: &str) -> (k: u64)
    ensures
        k == route_cache_key(method@, path@),
{
    let mut hasher = std::collections::hash_map::DefaultHasher::new();
    hash_str(&mut hasher, method);
    hash_str(&mut hasher, path);
    hasher.finish()
}

/// A cached result agrees with a lookup on the routes `rs`.
pub open spec fn entry_consistent(rs: Seq<RouteSpec>, e: CacheView) -> bool {
    &&& first_match(rs, e.method, e.path) == Some(e.route as int)
    &&& e.params == match_params(rs[e.route as int], e.path)
}

// ---------------------------------------------------------------------------
// The per-method index (dashmap)
// ---------------------------------------------------------------------------

#[verifier::external_type_specification]
#[verifier::external_body]
#[verifier::reject_recursive_types(K)]
#[verifier::reject_recursive_types(V)]
#[verifier::reject_recursive_types(S)]
pub struct ExDashMap<K, V, S>(dashmap::DashMap<K, V, S>);

/// What the per-method index holds: for each method, the positions of its
/// routes.
pub uninterp spec fn index_contents(m: dashmap::DashMap<String, Vec<usize>>) -> Map<
    Seq<char>,
    Seq<usize>,
>;

/// The positions an index records for `method` (none when it has no entry).
pub open spec fn bucket_of(idx: Map<Seq<char>, Seq<usize>>, method: Seq<char>) -> Seq<usize> {
    if idx.dom().contains(method) {
        idx[method]
    } else {
        Seq::empty()
    }
}

/// Calls `DashMap::new`: an empty map.
#[verifier::external_body]
fn index_new() -> (r: dashmap::DashMap<String, Vec<usize>>)
    ensures
        forall|k: Seq<char>| !#[trigger] index_contents(r).dom().contains(k),
{
    dashmap::DashMap::new()
}

/// Calls `DashMap::entry(method).or_insert_with(Vec::new)` and pushes `pos`
/// on the entry's vector.
#[verifier::external_body]
fn index_push(m: &mut dashmap::DashMap<String, Vec<usize>>, method: String, pos: usize)
    ensures
        index_contents(*final(m)) == index_contents(*old(m)).insert(
            method@,
            bucket_of(index_contents(*old(m)), method@).push(pos),
        ),
{
    m.entry(method).or_insert_with(Vec::new).push(pos);
}

/// Calls `DashMap::get` and clones the entry's vector.
#[verifier::external_body]
fn index_get(m: &dashmap::DashMap<String, Vec<usize>>, method: &str) -> (r: Option<Vec<usize>>)
    ensures
        match r {
            Some(v) => index_contents(*m).dom().contains(method@) && v@ == index_contents(
                *m,
            )[method@],
            None => !index_contents(*m).dom().contains(method@),
        },
{
    m.get(method).map(|entry| entry.value().clone())
}

/// The positions of the routes registered for `method`, in increasing order.
pub open spec fn positions_with_method(rs: Seq<RouteSpec>, method: Seq<char>) -> Seq<usize>
    decreases rs.len(),
{
    if rs.len() == 0 {
        Seq::empty()
    } else {
        let prev = positions_with_method(rs.drop_last(), method);
        if rs.last().method == method {
            prev.push((rs.len() - 1) as usize)
        } else {
            prev
        }
    }
}

pub proof fn lemma_positions_with_method(rs: Seq<RouteSpec>, method: Seq<char>)
    requires
        rs.len() <= usize::MAX + 1,
    ensures
        ({
            let ps = positions_with_method(rs, method);
            &&& forall|p: int| 0 <= p < ps.len() ==> #[trigger] ps[p] < rs.len() && rs[ps[p] as int].method == method
            &&& forall|p: int, q: int| 0 <= p < q < ps.len() ==> #[trigger] ps[p] < #[trigger] ps[q]
            &&& forall|j: int| 0 <= j < rs.len() && #[trigger] rs[j].method == method ==> exists|p: int|
                0 <= p < ps.len() && ps[p] == j
        }),
    decreases rs.len(),
{
    if rs.len() > 0 {
        let t = rs.drop_last();
        lemma_positions_with_method(t, method);
        let ps = positions_with_method(rs, method);
        let pt = positions_with_method(t, method);
        assert forall|j: int| 0 <= j < rs.len() && #[trigger] rs[j].method == method implies exists|p: int|
            0 <= p < ps.len() && ps[p] == j by {
            if j < rs.len() - 1 {
                assert(t[j].method == method);
                let p = choose|p: int| 0 <= p < pt.len() && pt[p] == j;
                assert(ps[p] == j);
            } else {
                assert(ps[ps.len() - 1] == j);
            }
        }
    }
}

/// The index records, for every method, the positions of its routes.
pub open spec fn index_consistent(rs: Seq<RouteSpec>, idx: Map<Seq<char>, Seq<usize>>) -> bool {
    forall|k: Seq<char>| #[trigger] bucket_of(idx, k) == positions_with_method(rs, k)
}

/// The number of entries the cache holds.
const ROUTE_CACHE_CAPACITY: usize = 4;

// ---------------------------------------------------------------------------
// The table
// ---------------------------------------------------------------------------

/// The registered routes, in registration order, the positions of each
/// method's routes, the current mount base, and the lookup cache.
pub struct RouteTable<H> {
    routes: Vec<RouteInfo<H>>,
    by_method: dashmap::DashMap<String, Vec<usize>>,
    mount_base: String,
    cache: lru::LruCache<u64, CacheEntry>,
}

impl<H> RouteTable<H> {
    /// The registered routes, in registration order.
    pub closed spec fn specs(&self) -> Seq<RouteSpec> {
        self.routes@.map_values(|r: RouteInfo<H>| r.spec())
    }

    /// The handlers of the registered routes, in registration order.
    pub closed spec fn handlers(&self) -> Seq<H> {
        self.routes@.map_values(|r: RouteInfo<H>| r.handler)
    }

    /// The mount base that registration currently applies.
    pub closed spec fn base(&self) -> Seq<char> {
        self.mount_base@
    }

    /// The index records each method's routes, and every cached result
    /// agrees with a lookup on the routes.
    pub closed spec fn wf(&self) -> bool {
        &&& index_consistent(self.specs(), index_contents(self.by_method))
        &&& forall|k: u64|
            #[trigger] cache_contents(self.cache).dom().contains(k) ==> entry_consistent(
                self.specs(),
                cache_contents(self.cache)[k],
            )
    }

    /// An empty table with no mount base.
    pub fn new() -> (t: RouteTable<H>)
        ensures
            t.wf(),
            t.specs() == Seq::<RouteSpec>::empty(),
            t.handlers() == Seq::<H>::empty(),
            t.base() == Seq::<char>::empty(),
    {
        let t = RouteTable {
            routes: Vec::new(),
            by_method: index_new(),
            mount_base: String::new(),
            cache: cache_new(ROUTE_CACHE_CAPACITY),
        };
        assert(t.specs() =~= Seq::<RouteSpec>::empty());
        assert(t.handlers() =~= Seq::<H>::empty());
        assert forall|k: Seq<char>| #[trigger]
            bucket_of(index_contents(t.by_method), k) == positions_with_method(t.specs(), k) by {
            assert(!index_contents(t.by_method).dom().contains(k));
        }
        t
    }

    /// The first route that answers `method` and `path`, with its
    /// parameters, without the cache: the routes registered for `method`
    /// are tried in registration order.
    fn find_uncached(&self, method: &String, path: &str) -> (r: Option<(usize, ParamMap)>)
        requires
            self.wf(),
        ensures
            match first_match(self.specs(), method@, path@) {
                Some(i) => r matches Some((j, m)) && j == i && m@ == match_params(
                    self.specs()[i],
                    path@,
                ),
                None => r is None,
            },
    {
        let ghost rs = self.specs();
        let _ = self.routes.len();
        proof {
            lemma_first_match(rs, method@, path@);
            lemma_positions_with_method(rs, method@);
            assert(bucket_of(index_contents(self.by_method), method@) == positions_with_method(
                rs,
                method@,
            ));
        }
        let bucket = match index_get(&self.by_method, method.as_str()) {
            Some(b) => b,
            None => Vec::new(),
        };
        let ghost ps = positions_with_method(rs, method@);
        assert(bucket@ == ps);
        let n = bucket.len();
        #[verifier::loop_isolation(false)]
        for p in 0..n
            invariant
                n == bucket@.len(),
                bucket@ == ps,
                forall|q: int| 0 <= q < p ==> !route_matches(rs[#[trigger] ps[q] as int], method@, path@),
        {
            let i = bucket[p];
            assert(ps[p as int] == i);
            let info = &self.routes[i];
            assert(rs[i as int] == info.spec());
            let found = if info.is_static {
                text::str_eq(path, info.original_path.as_str())
            } else {
                pattern::pattern_is_match(&info.pattern, path)
            };
            if found {
                proof {
                    assert(route_matches(rs[i as int], method@, path@));
                    assert forall|j: int| 0 <= j < i implies !route_matches(#[trigger] rs[j], method@, path@) by {
                        if rs[j].method == method@ {
                            let q = choose|q: int| 0 <= q < ps.len() && ps[q] == j;
                            if q >= p {
                                if q > p {
                                    assert(ps[p as int] < ps[q]);
                                }
                            }
                        }
                    }
                }
                if info.is_static {
                    return Some((i, ParamMap::new()));
                } else {
                    let values = pattern::extract_param_values(info.original_path.as_str(), path);
                    let params = build_params(&info.param_names, &values);
                    return Some((i, params));
                }
            }
        }
        proof {
            assert forall|j: int| 0 <= j < rs.len() implies !route_matches(#[trigger] rs[j], method@, path@) by {
                if rs[j].method == method@ {
                    let q = choose|q: int| 0 <= q < ps.len() && ps[q] == j;
                    assert(!route_matches(rs[ps[q] as int], method@, path@));
                }
            }
        }
        None
    }
}

/// The path parameters of a matching route: each placeholder name with the
/// value at its position, while values last (a repeated name keeps its last
/// value).
pub fn build_params(names: &Vec<String>, values: &Vec<String>) -> (m: ParamMap)
    ensures
        m@ == zip_params(views(names@), views(values@), names@.len()),
{
    let mut m = ParamMap::new();
    let n = names.len();
    for i in 0..n
        invariant
            n == names@.len(),
            m@ == zip_params(views(names@), views(values@), i as nat),
    {
        if i < values.len() {
            m.insert(names[i].clone(), values[i].clone());
        }
    }
    m
}

/// Registers a route whose placeholders are written `<name>` in
/// `original_path` and whose regular expression is `pattern`, both under the
/// current mount base. The route is added after all routes registered
/// before it.
pub fn register_route<H>(
    table: &mut RouteTable<H>,
    method: &str,
    original_path: String,
    pattern: String,
    handler: H,
)
    requires
        old(table).wf(),
        registrable(old(table).base(), original_path@, pattern@),
    ensures
        final(table).wf(),
        final(table).specs() == old(table).specs().push(
            route_spec_for(old(table).base(), method@, original_path@, pattern@),
        ),
        final(table).handlers() == old(table).handlers().push(handler),
        final(table).base() == old(table).base(),
{
    let base = get_mount_base(table);
    let full_path = pattern::build_full_path(base.as_str(), original_path.as_str());
    let full_pattern = pattern::build_full_pattern(base.as_str(), pattern.as_str());
    let param_names = pattern::extract_param_names(full_path.as_str());
    let is_static = param_names.len() == 0;
    let compiled = match pattern::compile_pattern(full_pattern.as_str()) {
        Some(c) => c,
        None => {
            assert(false);
            return;
        },
    };
    let info = RouteInfo {
        method: method.to_owned(),
        original_path: full_path,
        pattern: compiled,
        param_names,
        handler,
        is_static,
    };
    let ghost old_routes = table.routes@;
    let ghost new_spec = info.spec();
    let pos = table.routes.len();
    index_push(&mut table.by_method, method.to_owned(), pos);
    table.routes.push(info);
    proof {
        let f = |r: RouteInfo<H>| r.spec();
        assert(table.routes@.map_values(f) =~= old_routes.map_values(f).push(new_spec));
        let g = |r: RouteInfo<H>| r.handler;
        assert(table.routes@.map_values(g) =~= old_routes.map_values(g).push(handler));
        let old_specs = old_routes.map_values(f);
        assert(table.specs().drop_last() =~= old_specs);
        assert forall|k: Seq<char>| #[trigger]
            bucket_of(index_contents(table.by_method), k) == positions_with_method(table.specs(), k) by {
            assert(bucket_of(index_contents(old(table).by_method), k) == positions_with_method(old_specs, k));
        }
        assert forall|k: u64| #[trigger]
            cache_contents(table.cache).dom().contains(k) implies entry_consistent(
            table.specs(),
            cache_contents(table.cache)[k],
        ) by {
            let e = cache_contents(table.cache)[k];
            lemma_first_match_push(old_specs, new_spec, e.method, e.path);
            lemma_first_match(old_specs, e.method, e.path);
        }
    }
}

/// Registers a route as `register_route` does, or reports why it cannot be
/// registered and leaves the table unchanged.
pub fn try_register_route<H>(
    table: &mut RouteTable<H>,
    method: &str,
    original_path: String,
    pattern: String,
    handler: H,
) -> (r: Result<(), RouteError>)
    requires
        old(table).wf(),
    ensures
        final(table).wf(),
        final(table).base() == old(table).base(),
        param_names_spec(full_path_spec(old(table).base(), original_path@)) is None ==> r
            == Err::<(), RouteError>(RouteError::UnclosedParameter),
        param_names_spec(full_path_spec(old(table).base(), original_path@)) is Some
            && !regex_compiles(full_pattern_spec(old(table).base(), pattern@)) ==> r == Err::<
            (),
            RouteError,
        >(RouteError::InvalidPattern),
        r is Err ==> {
            &&& final(table).specs() == old(table).specs()
            &&& final(table).handlers() == old(table).handlers()
        },
        registrable(old(table).base(), original_path@, pattern@) ==> {
            &&& r is Ok
            &&& final(table).specs() == old(table).specs().push(
                route_spec_for(old(table).base(), method@, original_path@, pattern@),
            )
            &&& final(table).handlers() == old(table).handlers().push(handler)
        },
{
    let base = get_mount_base(table);
    let full_path = pattern::build_full_path(base.as_str(), original_path.as_str());
    if pattern::scan_param_names(full_path.as_str()).is_none() {
        return Err(RouteError::UnclosedParameter);
    }
    let full_pattern = pattern::build_full_pattern(base.as_str(), pattern.as_str());
    if pattern::compile_pattern(full_pattern.as_str()).is_none() {
        return Err(RouteError::InvalidPattern);
    }
    register_route(table, method, original_path, pattern, handler);
    Ok(())
}

/// Finds the first route that answers `method` and `path`, with the path
/// parameters it gives. Recent results are kept in the table's cache; a
/// result from the cache is the result of the lookup itself.
pub fn find_handler_with_params<H: Clone>(
    table: &mut RouteTable<H>,
    method: &str,
    path: &str,
) -> (r: Option<HandlerMatch<H>>)
    requires
        old(table).wf(),
    ensures
        final(table).wf(),
        final(table).specs() == old(table).specs(),
        final(table).handlers() == old(table).handlers(),
        final(table).base() == old(table).base(),
        match first_match(old(table).specs(), method@, path@) {
            Some(i) => r matches Some(m) && cloned::<H>(old(table).handlers()[i], m.handler)
                && m.params@ == match_params(old(table).specs()[i], path@),
            None => r is None,
        },
{
    let method_owned = method.to_owned();
    let path_owned = path.to_owned();
    let key = make_route_cache_key(method, path);
    proof {
        lemma_first_match(table.specs(), method@, path@);
    }
    match cache_get(&mut table.cache, key) {
        Some(entry) => {
            if entry.path == path_owned && entry.method == method_owned {
                proof {
                    assert(cache_contents(table.cache).dom().contains(key));
                }
                let i = entry.route;
                assert(table.specs()[i as int] == table.routes@[i as int].spec());
                let handler = table.routes[i].handler.clone();
                return Some(HandlerMatch { handler, params: entry.params });
            }
        },
        None => {},
    }
    let result = table.find_uncached(&method_owned, path);
    match result {
        Some((i, params)) => {
            assert(table.specs()[i as int] == table.routes@[i as int].spec());
            let entry = CacheEntry {
                method: method_owned,
                path: path_owned,
                route: i,
                params: params.clone(),
            };
            cache_put(&mut table.cache, key, entry);
            let handler = table.routes[i].handler.clone();
            Some(HandlerMatch { handler, params })
        },
        None => None,
    }
}

/// The handler of the first route that answers `method` and `path`.
pub fn find_handler<H: Clone>(table: &mut RouteTable<H>, method: &str, path: &str) -> (r: Option<
    H,
>)
    requires
        old(table).wf(),
    ensures
        final(table).wf(),
        final(table).specs() == old(table).specs(),
        final(table).handlers() == old(table).handlers(),
        final(table).base() == old(table).base(),
        match first_match(old(table).specs(), method@, path@) {
            Some(i) => r matches Some(h) && cloned::<H>(old(table).handlers()[i], h),
            None => r is None,
        },
{
    match find_handler_with_params(table, method, path) {
        Some(m) => Some(m.handler),
        None => None,
    }
}

/// Runs `routes_fn` on the table with the mount base set to `base` without
/// trailing slashes, then clears the mount base.
pub fn mount<H, F: FnOnce(RouteTable<H>) -> RouteTable<H>>(
    table: RouteTable<H>,
    base: &str,
    routes_fn: F,
) -> (r: RouteTable<H>)
    requires
        table.wf(),
        forall|t: RouteTable<H>| t.wf() ==> #[trigger] call_requires(routes_fn, (t,)),
        forall|t: RouteTable<H>, o: RouteTable<H>|
            t.wf() && #[trigger] call_ensures(routes_fn, (t,), o) ==> o.wf(),
    ensures
        r.wf(),
        r.base() == Seq::<char>::empty(),
        exists|mid: RouteTable<H>, out: RouteTable<H>|
            {
                &&& mid.base() == trim_end_char_spec(base@, '/')
                &&& mid.specs() == table.specs()
                &&& mid.handlers() == table.handlers()
                &&& mid.wf()
                &&& call_ensures(routes_fn, (mid,), out)
                &&& r.specs() == out.specs()
                &&& r.handlers() == out.handlers()
            },
{
    let trimmed = text::trim_end_char(base, '/');
    let mut table = table;
    table.mount_base = trimmed;
    assert(table.wf());
    assert(call_requires(routes_fn, (table,)));
    let ghost mid = table;
    let mut out = routes_fn(table);
    let ghost out0 = out;
    out.mount_base = String::new();
    assert(out.specs() == out0.specs());
    assert(out.handlers() == out0.handlers());
    out
}

/// All registered routes, in registration order.
pub fn collect_routes<H: Clone>(table: &RouteTable<H>) -> (r: Vec<Route<H>>)
    ensures
        r@.len() == table.specs().len(),
        forall|i: int|
            0 <= i < r@.len() ==> {
                &&& (#[trigger] r@[i]).method@ == table.specs()[i].method
                &&& r@[i].path@ == table.specs()[i].path
                &&& cloned::<H>(table.handlers()[i], r@[i].handler)
            },
{
    let mut result: Vec<Route<H>> = Vec::new();
    let n = table.routes.len();
    for i in 0..n
        invariant
            n == table.routes@.len(),
            result@.len() == i,
            forall|j: int|
                0 <= j < i ==> {
                    &&& (#[trigger] result@[j]).method@ == table.specs()[j].method
                    &&& result@[j].path@ == table.specs()[j].path
                    &&& cloned::<H>(table.handlers()[j], result@[j].handler)
                },
    {
        let info = &table.routes[i];
        assert(table.specs()[i as int] == info.spec());
        assert(table.handlers()[i as int] == info.handler);
        result.push(
            Route {
                method: info.method.clone(),
                path: info.original_path.clone(),
                handler: info.handler.clone(),
            },
        );
    }
    result
}

/// The current mount base.
pub fn get_mount_base<H>(table: &RouteTable<H>) -> (r: String)
    ensures
        r@ == table.base(),
{
    table.mount_base.clone()
}

// ---------------------------------------------------------------------------
// Laws
// ---------------------------------------------------------------------------

/// A lookup only ever answers with a route registered for the requested
/// method.
pub proof fn law_lookup_respects_method(rs: Seq<RouteSpec>, method: Seq<char>, path: Seq<char>)
    ensures
        first_match(rs, method, path) matches Some(i) ==> rs[i].method == method,
{
    lemma_first_match(rs, method, path);
}

/// Registering a route (which appends it) never changes the answer to a
/// lookup that already found a route.
pub proof fn law_registration_keeps_found_routes(
    before: Seq<RouteSpec>,
    added: RouteSpec,
    method: Seq<char>,
    path: Seq<char>,
)
    requires
        first_match(before, method, path) is Some,
    ensures
        first_match(before.push(added), method, path) == first_match(before, method, path),
{
    lemma_first_match_push(before, added, method, path);
}

/// A route registered with a path that has no placeholders answers exactly
/// its full path, with no parameters, when no route registered before it
/// answers that path.
pub proof fn law_static_route_is_found(
    before: Seq<RouteSpec>,
    base: Seq<char>,
    method: Seq<char>,
    path: Seq<char>,
    pattern: Seq<char>,
)
    requires
        param_names_spec(full_path_spec(base, path)) == Some(Seq::<Seq<char>>::empty()),
        first_match(before, method, full_path_spec(base, path)) is None,
    ensures
        ({
            let r = route_spec_for(base, method, path, pattern);
            &&& first_match(before.push(r), method, full_path_spec(base, path)) == Some(
                before.len() as int,
            )
            &&& match_params(r, full_path_spec(base, path)) == Map::<Seq<char>, Seq<char>>::empty()
        }),
{
    let r = route_spec_for(base, method, path, pattern);
    assert(before.push(r).drop_last() =~= before);
}

/// A route registered inside `mount(base, ..)` gets the full path
/// `base + path`, with the trailing slashes of `base` removed (a base of
/// only slashes leaves the path unchanged).
pub proof fn law_mounted_route_path(base: Seq<char>, method: Seq<char>, path: Seq<char>, pattern: Seq<char>)
    ensures
        route_spec_for(trim_end_char_spec(base, '/'), method, path, pattern).path == trim_end_char_spec(
            base,
            '/',
        ) + path,
{
    let b = trim_end_char_spec(base, '/');
    if b.len() == 0 {
        assert(b + path =~= path);
    }
}

/// One call on a route table, as far as the mount base is concerned:
/// entering `mount(base, ..)` (the closure starts), leaving it (`mount`
/// returns), or any other call (registration, lookup, listing), which keeps
/// the base.
pub enum MountStep {
    Enter(Seq<char>),
    Leave,
    Other,
}

/// The base that a step leaves when the base before it was `before`, as the
/// contracts of `mount`, `register_route`, `try_register_route`,
/// `find_handler_with_params`, `find_handler` and `collect_routes` give it.
pub open spec fn step_base(step: MountStep, before: Seq<char>) -> Seq<char> {
    match step {
        MountStep::Enter(b) => trim_end_char_spec(b, '/'),
        MountStep::Leave => Seq::<char>::empty(),
        MountStep::Other => before,
    }
}

/// Over any sequence of calls on a table that started with no base
/// (`RouteTable::new`), the base that registration sees (and that
/// `get_mount_base` returns) is the base of the last `mount` entered, without
/// trailing slashes, when no `mount` has returned since; otherwise it is
/// empty. `bases[i]` is the base after the first `i` steps.
pub proof fn law_mount_base_after_steps(steps: Seq<MountStep>, bases: Seq<Seq<char>>)
    requires
        bases.len() == steps.len() + 1,
        bases[0] == Seq::<char>::empty(),
        forall|i: int| 0 <= i < steps.len() ==> bases[i + 1] == step_base(#[trigger] steps[i], bases[i]),
    ensures
        (forall|j: int| 0 <= j < steps.len() ==> #[trigger] steps[j] is Other) ==> bases.last()
            == Seq::<char>::empty(),
        forall|j: int|
            0 <= j < steps.len() && !(#[trigger] steps[j] is Other) && (forall|k: int|
                j < k < steps.len() ==> steps[k] is Other) ==> bases.last() == match steps[j] {
                MountStep::Enter(b) => trim_end_char_spec(b, '/'),
                _ => Seq::<char>::empty(),
            },
    decreases steps.len(),
{
    let n = steps.len() as int;
    if n > 0 {
        let s0 = steps.drop_last();
        let b0 = bases.drop_last();
        assert forall|i: int| 0 <= i < s0.len() implies b0[i + 1] == step_base(#[trigger] s0[i], b0[i]) by {
            assert(steps[i] == s0[i]);
        }
        law_mount_base_after_steps(s0, b0);
        assert(bases.last() == step_base(steps[n - 1], bases[n - 1]));
        assert(b0.last() == bases[n - 1]);
        assert forall|j: int|
            0 <= j < n && !(#[trigger] steps[j] is Other) && (forall|k: int|
                j < k < n ==> steps[k] is Other) implies bases.last() == match steps[j] {
                MountStep::Enter(b) => trim_end_char_spec(b, '/'),
                _ => Seq::<char>::empty(),
            } by {
            if j < n - 1 {
                assert(steps[n - 1] is Other);
                assert(s0[j] == steps[j]);
                assert forall|k: int| j < k < s0.len() implies s0[k] is Other by {
                    assert(s0[k] == steps[k]);
                }
            }
        }
        if forall|j: int| 0 <= j < n ==> #[trigger] steps[j] is Other {
            assert(steps[n - 1] is Other);
            assert forall|j: int| 0 <= j < s0.len() implies #[trigger] s0[j] is Other by {
                assert(s0[j] == steps[j]);
            }
        }
    }
}

/// After `n` successful registrations on a table that started empty
/// (`RouteTable::new`), the table holds exactly those `n` routes, in
/// registration order: the `i`-th has the `i`-th method, the full path of the
/// `i`-th path under the base in force at that registration, and the `i`-th
/// handler. Lookups and mounts keep the routes they find, so `specs[i]` and
/// `handlers[i]` are the routes and handlers after the first `i`
/// registrations; `collect_routes` lists `specs[n]` with `handlers[n]`.
/// `regs[i]` is the `i`-th registration's base, method, path and pattern.
pub proof fn law_routes_in_registration_order<H>(
    regs: Seq<(Seq<char>, Seq<char>, Seq<char>, Seq<char>)>,
    added: Seq<H>,
    specs: Seq<Seq<RouteSpec>>,
    handlers: Seq<Seq<H>>,
)
    requires
        added.len() == regs.len(),
        specs.len() == regs.len() + 1,
        handlers.len() == regs.len() + 1,
        specs[0] == Seq::<RouteSpec>::empty(),
        handlers[0] == Seq::<H>::empty(),
        forall|i: int|
            0 <= i < regs.len() ==> specs[i + 1] == specs[i].push(
                route_spec_for((#[trigger] regs[i]).0, regs[i].1, regs[i].2, regs[i].3),
            ),
        forall|i: int| 0 <= i < regs.len() ==> handlers[i + 1] == handlers[i].push(#[trigger] added[i]),
    ensures
        specs.last().len() == regs.len(),
        handlers.last() == added,
        forall|i: int|
            0 <= i < regs.len() ==> {
                &&& specs.last()[i] == route_spec_for(
                    (#[trigger] regs[i]).0,
                    regs[i].1,
                    regs[i].2,
                    regs[i].3,
                )
                &&& specs.last()[i].method == regs[i].1
                &&& specs.last()[i].path == full_path_spec(regs[i].0, regs[i].2)
            },
    decreases regs.len(),
{
    let n = regs.len() as int;
    if n == 0 {
        assert(handlers.last() =~= added);
    } else {
        let r0 = regs.drop_last();
        let a0 = added.drop_last();
        let s0 = specs.drop_last();
        let h0 = handlers.drop_last();
        assert forall|i: int| 0 <= i < r0.len() implies s0[i + 1] == s0[i].push(
            route_spec_for((#[trigger] r0[i]).0, r0[i].1, r0[i].2, r0[i].3),
        ) by {
            assert(r0[i] == regs[i]);
        }
        assert forall|i: int| 0 <= i < r0.len() implies h0[i + 1] == h0[i].push(#[trigger] a0[i]) by {
            assert(a0[i] == added[i]);
        }
        law_routes_in_registration_order(r0, a0, s0, h0);
        assert(s0.last() == specs[n - 1]);
        assert(h0.last() == handlers[n - 1]);
        assert(specs[n] == specs[n - 1].push(route_spec_for(regs[n - 1].0, regs[n - 1].1, regs[n - 1].2, regs[n - 1].3)));
        assert(handlers[n] == handlers[n - 1].push(added[n - 1]));
        assert(handlers.last() =~= added);
        assert forall|i: int| 0 <= i < n implies specs.last()[i] == route_spec_for(
            (#[trigger] regs[i]).0,
            regs[i].1,
            regs[i].2,
            regs[i].3,
        ) by {
            if i < n - 1 {
                assert(r0[i] == regs[i]);
            }
        }
    }
}

// ---------------------------------------------------------------------------
// Router
// ---------------------------------------------------------------------------

/// Dispatches requests to registered routes.
pub struct Router;

impl Router {
    /// A router.
    pub fn new() -> (r: Router) {
        Router
    }

    /// A `404 Not Found` response.
    pub fn not_found() -> (r: Reply)
        ensures
            r.status == 404,
            r.content_type is None,
            r.body@ == "404 Not Found"@,
    {
        Reply { status: 404, content_type: None, body: text::to_owned_string("404 Not Found") }
    }

    /// A `500 Internal Server Error` response carrying `msg`.
    pub fn internal_error(msg: &str) -> (r: Reply)
        ensures
            r.status == 500,
            r.content_type is None,
            r.body@ == "500 Internal Server Error: "@ + msg@,
    {
        Reply {
            status: 500,
            content_type: None,
            body: text::concat("500 Internal Server Error: ", msg),
        }
    }

    /// A `405 Method Not Allowed` response.
    pub fn method_not_allowed() -> (r: Reply)
        ensures
            r.status == 405,
            r.content_type is None,
            r.body@ == "405 Method Not Allowed"@,
    {
        Reply {
            status: 405,
            content_type: None,
            body: text::to_owned_string("405 Method Not Allowed"),
        }
    }
}

impl Default for Router {
    fn default() -> (r: Router) {
        Router::new()
    }
}

} // verus!
