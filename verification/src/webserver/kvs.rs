//! The keyed attribute store: attributes under (namespace, name) keys, each
//! with an optional time to live, found again by key or by glob.

use vstd::prelude::*;
use vstd::string::StrSliceExecFns;
use crate::error::PipelineError;
use crate::primitives::attribute::{attribute_views, Attribute, AttributeView};
use crate::webserver::MAX_TTL_KVS_CAPACITY;

verus! {

/// `moka::sync::Cache`, carried through as an opaque value.
#[verifier::external_type_specification]
#[verifier::external_body]
#[verifier::reject_recursive_types(K)]
#[verifier::reject_recursive_types(V)]
#[verifier::reject_recursive_types(S)]
pub struct ExCache<K, V, S>(moka::sync::Cache<K, V, S>);

/// `std::time::Instant`, which the expiry policy is handed and does not
/// read.
#[verifier::external_type_specification]
#[verifier::external_body]
pub struct ExInstant(std::time::Instant);

/// `globset::Error`, carried through as an opaque value.
#[verifier::external_type_specification]
#[verifier::external_body]
pub struct ExGlobError(globset::Error);

/// The time to live of an entry of the store, in milliseconds: the one that
/// the entry was set with, whatever its key, its attribute and the time of
/// day; `None` is for ever.
pub fn time_to_live(entry: &(Option<u64>, Attribute)) -> (r: Option<u64>)
    ensures
        r == entry.0,
{
    entry.0
}

/// The expiry policy of the store: an entry lives as long as its
/// [`time_to_live`], counted from when it was set or set again.
pub struct RecordExpiration;

impl moka::Expiry<(String, String), (Option<u64>, Attribute)> for RecordExpiration {
    /// The time to live of the new entry, turned into a `Duration` by
    /// `Duration::from_millis`.
    #[verifier::external_body]
    fn expire_after_create(
        &self,
        _key: &(String, String),
        value: &(Option<u64>, Attribute),
        _created_at: std::time::Instant,
    ) -> Option<std::time::Duration> {
        time_to_live(value).map(std::time::Duration::from_millis)
    }

    /// The time to live of the entry that takes the place of another, turned
    /// into a `Duration` by `Duration::from_millis`: setting a key again
    /// starts its time to live again.
    #[verifier::external_body]
    fn expire_after_update(
        &self,
        _key: &(String, String),
        value: &(Option<u64>, Attribute),
        _updated_at: std::time::Instant,
        _duration_until_expiry: Option<std::time::Duration>,
    ) -> Option<std::time::Duration> {
        time_to_live(value).map(std::time::Duration::from_millis)
    }
}

/// The greatest number of characters of a pattern that is handed to
/// `globset`.
pub const MAX_PATTERN_LENGTH: usize = 1024;

/// The greatest number of opening braces of a pattern that is handed to
/// `globset`.
pub const MAX_PATTERN_GROUPS: usize = 64;

/// The number of opening braces in the pattern.
pub open spec fn group_count(pattern: Seq<char>) -> nat
    decreases pattern.len(),
{
    if pattern.len() == 0 {
        0
    } else if pattern.last() == '{' {
        group_count(pattern.drop_last()) + 1
    } else {
        group_count(pattern.drop_last())
    }
}

/// Whether the pattern is one that is handed to `globset`: it is not longer
/// than [`MAX_PATTERN_LENGTH`] and has no more opening braces than
/// [`MAX_PATTERN_GROUPS`]. A longer or more deeply nested pattern is refused
/// before `globset` sees it.
pub open spec fn pattern_admitted(pattern: Seq<char>) -> bool {
    pattern.len() <= MAX_PATTERN_LENGTH && group_count(pattern) <= MAX_PATTERN_GROUPS
}

/// Whether the pattern is one that is handed to `globset`.
pub fn is_admitted(pattern: &str) -> (r: bool)
    ensures
        r == pattern_admitted(pattern@),
{
    let n = pattern.unicode_len();
    if n > MAX_PATTERN_LENGTH {
        return false;
    }
    let mut groups: usize = 0;
    let mut i: usize = 0;
    while i < n
        invariant
            i <= n,
            n == pattern@.len(),
            n <= MAX_PATTERN_LENGTH,
            groups <= i,
            groups == group_count(pattern@.take(i as int)),
        decreases n - i,
    {
        proof {
            assert(pattern@.take(i as int + 1).drop_last() =~= pattern@.take(i as int));
            assert(pattern@.take(i as int + 1).last() == pattern@[i as int]);
        }
        if pattern.get_char(i) == '{' {
            groups += 1;
        }
        i += 1;
    }
    assert(pattern@.take(i as int) =~= pattern@);
    groups <= MAX_PATTERN_GROUPS
}

/// Whether `Glob::new` of the `globset` crate accepts the pattern. This is
/// said of one build of the library: what `globset` takes a backslash and a
/// path separator for differs from platform to platform.
pub uninterp spec fn glob_compiles(pattern: Seq<char>) -> bool;

/// Whether the matcher that `globset` compiles from the pattern, which
/// compiles, matches the text. This too is said of one build of the
/// library.
pub uninterp spec fn glob_accepts(pattern: Seq<char>, text: Seq<char>) -> bool;

/// Whether the pattern is one that the store matches keys against: it is
/// handed to `globset`, and `globset` accepts it.
pub open spec fn glob_usable(pattern: Seq<char>) -> bool {
    pattern_admitted(pattern) && glob_compiles(pattern)
}

/// `Glob::new`, `Glob::compile_matcher` and `GlobMatcher::is_match`: an
/// error where the pattern does not compile, else whether the compiled
/// pattern matches the text. Both depend on the pattern and the text alone.
/// `compile_matcher` builds a regular expression out of the pattern and
/// does not return where that fails, which it does beyond a nesting depth of
/// 250 and beyond a size of 10 MiB: only patterns that stay well clear of
/// both are admitted.
#[verifier::external_body]
fn glob_match(pattern: &str, text: &str) -> (r: Result<bool, globset::Error>)
    requires
        pattern_admitted(pattern@),
    ensures
        r is Ok <==> glob_compiles(pattern@),
        r is Ok ==> r->Ok_0 == glob_accepts(pattern@, text@),
{
    Ok(globset::Glob::new(pattern)?.compile_matcher().is_match(text))
}

/// The attribute store: a `moka` cache in which an entry expires when its
/// time to live is over, and which drops entries when it is full.
pub struct Kvs {
    cache: moka::sync::Cache<
        (String, String),
        (Option<u64>, Attribute),
        std::collections::hash_map::RandomState,
    >,
}

/// The greatest number of entries that the cache was built to hold, if it
/// was built with one: the `max_capacity` of its policy, which stays as it
/// was set when the cache was built.
pub uninterp spec fn cache_capacity(
    cache: moka::sync::Cache<
        (String, String),
        (Option<u64>, Attribute),
        std::collections::hash_map::RandomState,
    >,
) -> Option<u64>;

/// `Cache::builder`, `CacheBuilder::max_capacity`, `expire_after` and
/// `build`: a cache of the capacity with the expiry policy of the store.
/// Of what it holds nothing is claimed.
#[verifier::external_body]
fn cache_new(max_capacity: u64) -> (r: moka::sync::Cache<
    (String, String),
    (Option<u64>, Attribute),
    std::collections::hash_map::RandomState,
>)
    ensures
        cache_capacity(r) == Some(max_capacity),
{
    moka::sync::Cache::builder().max_capacity(max_capacity).expire_after(RecordExpiration).build()
}

/// `Cache::policy` and `Policy::max_capacity`: the capacity that the cache
/// was built with.
#[verifier::external_body]
fn cache_limit(kvs: &Kvs) -> (r: Option<u64>)
    ensures
        r == cache_capacity(kvs.cache),
{
    kvs.cache.policy().max_capacity()
}

/// `Cache::insert`: puts the attribute with its time to live under the key,
/// which must be the namespace and name of the attribute. Nothing is
/// claimed of the cache afterwards: entries expire with time and leave when
/// the cache is full.
#[verifier::external_body]
fn cache_insert(kvs: &Kvs, namespace: String, name: String, ttl: Option<u64>, attribute: Attribute)
    requires
        (namespace@, name@) == attribute@.key(),
{
    kvs.cache.insert((namespace, name), (ttl, attribute))
}

/// `Cache::get`: the attribute under the key, if the cache has one that has
/// not expired. Whether there is one is not claimed. What comes back was
/// inserted under the key, and `cache_insert`, the only way in, takes
/// every attribute under its own namespace and name alone.
#[verifier::external_body]
fn cache_get(kvs: &Kvs, namespace: &str, name: &str) -> (r: Option<Attribute>)
    ensures
        r is Some ==> r->Some_0@.key() == (namespace@, name@),
{
    kvs.cache.get(&(namespace.to_string(), name.to_string())).map(|(_, attribute)| attribute)
}

/// `Cache::remove`: takes the entry of the key out and hands its attribute
/// back, if there was one. Whether there was one is not claimed. What comes
/// back was inserted under the key, and so has the key for its namespace and
/// name.
#[verifier::external_body]
fn cache_remove(kvs: &Kvs, namespace: &str, name: &str) -> (r: Option<Attribute>)
    ensures
        r is Some ==> r->Some_0@.key() == (namespace@, name@),
{
    kvs.cache.remove(&(namespace.to_string(), name.to_string())).map(|(_, attribute)| attribute)
}

/// `Cache::iter`, collected: the entries that the cache hands out, each as
/// namespace, name and attribute. Which entries come is not claimed. Each
/// comes with the key that it was inserted under, which is the namespace
/// and name of its attribute.
#[verifier::external_body]
fn cache_entries(kvs: &Kvs) -> (r: Vec<(String, String, Attribute)>)
    ensures
        keyed_by_attribute(entry_views(r@)),
{
    kvs.cache.iter().map(|(key, (_, attribute))| (key.0.clone(), key.1.clone(), attribute)).collect()
}

/// Whether each entry stands under the namespace and name of its
/// attribute.
pub open spec fn keyed_by_attribute(entries: Seq<(Seq<char>, Seq<char>, AttributeView)>) -> bool {
    forall|i: int|
        0 <= i < entries.len() ==> (#[trigger] entries[i]).2.key() == (entries[i].0, entries[i].1)
}

/// Whether the key is one that the two patterns select: both are usable,
/// the first matches the namespace and the second the name.
pub open spec fn key_matches(
    namespace_pattern: Seq<char>,
    name_pattern: Seq<char>,
    namespace: Seq<char>,
    name: Seq<char>,
) -> bool {
    &&& glob_usable(namespace_pattern)
    &&& glob_usable(name_pattern)
    &&& glob_accepts(namespace_pattern, namespace)
    &&& glob_accepts(name_pattern, name)
}

/// What an entry of the store holds: namespace, name and attribute.
pub open spec fn entry_views(entries: Seq<(String, String, Attribute)>) -> Seq<
    (Seq<char>, Seq<char>, AttributeView),
> {
    entries.map_values(|e: (String, String, Attribute)| (e.0@, e.1@, e.2@))
}

/// The attributes of the entries whose keys the patterns select, in the
/// order of the entries.
pub open spec fn selected_attributes(
    entries: Seq<(Seq<char>, Seq<char>, AttributeView)>,
    namespace_pattern: Seq<char>,
    name_pattern: Seq<char>,
) -> Seq<AttributeView>
    decreases entries.len(),
{
    if entries.len() == 0 {
        Seq::empty()
    } else {
        let before = selected_attributes(entries.drop_last(), namespace_pattern, name_pattern);
        if key_matches(namespace_pattern, name_pattern, entries.last().0, entries.last().1) {
            before.push(entries.last().2)
        } else {
            before
        }
    }
}

/// The keys of the entries that the patterns select, in the order of the
/// entries.
pub open spec fn selected_keys(
    entries: Seq<(Seq<char>, Seq<char>, AttributeView)>,
    namespace_pattern: Seq<char>,
    name_pattern: Seq<char>,
) -> Seq<(Seq<char>, Seq<char>)>
    decreases entries.len(),
{
    if entries.len() == 0 {
        Seq::empty()
    } else {
        let before = selected_keys(entries.drop_last(), namespace_pattern, name_pattern);
        if key_matches(namespace_pattern, name_pattern, entries.last().0, entries.last().1) {
            before.push((entries.last().0, entries.last().1))
        } else {
            before
        }
    }
}

/// What a list of keys holds.
pub open spec fn key_views(keys: Seq<(String, String)>) -> Seq<(Seq<char>, Seq<char>)> {
    keys.map_values(|k: (String, String)| (k.0@, k.1@))
}

/// Every selected key is one that the patterns select.
pub proof fn lemma_selected_keys_match(
    entries: Seq<(Seq<char>, Seq<char>, AttributeView)>,
    namespace_pattern: Seq<char>,
    name_pattern: Seq<char>,
)
    ensures
        forall|i: int|
            0 <= i < selected_keys(entries, namespace_pattern, name_pattern).len() ==> key_matches(
                namespace_pattern,
                name_pattern,
                (#[trigger] selected_keys(entries, namespace_pattern, name_pattern)[i]).0,
                selected_keys(entries, namespace_pattern, name_pattern)[i].1,
            ),
    decreases entries.len(),
{
    if entries.len() > 0 {
        lemma_selected_keys_match(entries.drop_last(), namespace_pattern, name_pattern);
        let before = selected_keys(entries.drop_last(), namespace_pattern, name_pattern);
        let now = selected_keys(entries, namespace_pattern, name_pattern);
        assert forall|i: int| 0 <= i < now.len() implies key_matches(
            namespace_pattern,
            name_pattern,
            (#[trigger] now[i]).0,
            now[i].1,
        ) by {
            if i < before.len() {
                assert(now[i] == before[i]);
            }
        }
    }
}

/// Every selected attribute of entries that stand under the keys of their
/// attributes has a namespace and a name that the patterns select.
pub proof fn lemma_selected_attributes_match(
    entries: Seq<(Seq<char>, Seq<char>, AttributeView)>,
    namespace_pattern: Seq<char>,
    name_pattern: Seq<char>,
)
    requires
        keyed_by_attribute(entries),
    ensures
        forall|i: int|
            0 <= i < selected_attributes(entries, namespace_pattern, name_pattern).len()
                ==> key_matches(
                namespace_pattern,
                name_pattern,
                (#[trigger] selected_attributes(entries, namespace_pattern, name_pattern)[i]).namespace,
                selected_attributes(entries, namespace_pattern, name_pattern)[i].name,
            ),
    decreases entries.len(),
{
    if entries.len() > 0 {
        assert forall|i: int| 0 <= i < entries.drop_last().len() implies (
        #[trigger] entries.drop_last()[i]).2.key() == (
            entries.drop_last()[i].0,
            entries.drop_last()[i].1,
        ) by {
            assert(entries.drop_last()[i] == entries[i]);
        }
        lemma_selected_attributes_match(entries.drop_last(), namespace_pattern, name_pattern);
        let before = selected_attributes(entries.drop_last(), namespace_pattern, name_pattern);
        let now = selected_attributes(entries, namespace_pattern, name_pattern);
        assert(entries[entries.len() - 1].2.key() == (entries.last().0, entries.last().1));
        assert forall|i: int| 0 <= i < now.len() implies key_matches(
            namespace_pattern,
            name_pattern,
            (#[trigger] now[i]).namespace,
            now[i].name,
        ) by {
            if i < before.len() {
                assert(now[i] == before[i]);
            }
        }
    }
}

/// Two glob patterns, one for the namespace of a key and one for its name.
/// Both are usable.
pub struct KeyFilter {
    namespace: String,
    name: String,
}

impl KeyFilter {
    #[verifier::type_invariant]
    closed spec fn usable(self) -> bool {
        glob_usable(self.namespace@) && glob_usable(self.name@)
    }

    /// The pattern for the namespace.
    pub closed spec fn namespace_pattern(&self) -> Seq<char> {
        self.namespace@
    }

    /// The pattern for the name.
    pub closed spec fn name_pattern(&self) -> Seq<char> {
        self.name@
    }

    /// Both patterns are usable.
    pub open spec fn wf(&self) -> bool {
        glob_usable(self.namespace_pattern()) && glob_usable(self.name_pattern())
    }

    /// The pattern that is meant: the one given, or `*` where none is given.
    pub open spec fn pattern_or_any(pattern: Option<String>) -> Seq<char> {
        match pattern {
            Some(p) => p@,
            None => "*"@,
        }
    }

    /// A filter of the two patterns, where `None` stands for `*`. Refused
    /// where a pattern is too long or too deeply nested to be handed to
    /// `globset`, or does not compile.
    pub fn new(ns: &Option<String>, name: &Option<String>) -> (r: Result<KeyFilter, PipelineError>)
        ensures
            match r {
                Ok(filter) => filter.wf() && filter.namespace_pattern() == Self::pattern_or_any(
                    *ns,
                ) && filter.name_pattern() == Self::pattern_or_any(*name),
                Err(e) => e == PipelineError::InvalidPattern && !(glob_usable(
                    Self::pattern_or_any(*ns),
                ) && glob_usable(Self::pattern_or_any(*name))),
            },
    {
        let namespace = match ns {
            Some(p) => p.clone(),
            None => "*".to_string(),
        };
        let name = match name {
            Some(p) => p.clone(),
            None => "*".to_string(),
        };
        if !is_admitted(namespace.as_str()) || !is_admitted(name.as_str()) {
            return Err(PipelineError::InvalidPattern);
        }
        if glob_match(namespace.as_str(), "").is_err() {
            return Err(PipelineError::InvalidPattern);
        }
        if glob_match(name.as_str(), "").is_err() {
            return Err(PipelineError::InvalidPattern);
        }
        Ok(KeyFilter { namespace, name })
    }

    /// Whether the filter selects the key.
    pub fn matches(&self, namespace: &str, name: &str) -> (r: bool)
        ensures
            r == key_matches(self.namespace_pattern(), self.name_pattern(), namespace@, name@),
    {
        proof {
            use_type_invariant(self);
        }
        match glob_match(self.namespace.as_str(), namespace) {
            Ok(true) => match glob_match(self.name.as_str(), name) {
                Ok(hit) => hit,
                Err(_) => false,
            },
            Ok(false) => false,
            Err(_) => false,
        }
    }
}

/// Copies of the attributes of the entries that the filter selects, in the
/// order of the entries.
pub fn filter_attributes(entries: &Vec<(String, String, Attribute)>, filter: &KeyFilter) -> (r: Vec<
    Attribute,
>)
    ensures
        attribute_views(r@) == selected_attributes(
            entry_views(entries@),
            filter.namespace_pattern(),
            filter.name_pattern(),
        ),
{
    let ghost all = entry_views(entries@);
    let ghost np = filter.namespace_pattern();
    let ghost mp = filter.name_pattern();
    let mut out: Vec<Attribute> = Vec::new();
    let mut i: usize = 0;
    assert(attribute_views(out@) =~= selected_attributes(all.take(0), np, mp));
    while i < entries.len()
        invariant
            i <= entries.len(),
            all == entry_views(entries@),
            np == filter.namespace_pattern(),
            mp == filter.name_pattern(),
            attribute_views(out@) == selected_attributes(all.take(i as int), np, mp),
        decreases entries.len() - i,
    {
        proof {
            assert(all.take(i as int + 1).drop_last() =~= all.take(i as int));
            assert(all.take(i as int + 1).last() == all[i as int]);
        }
        if filter.matches(entries[i].0.as_str(), entries[i].1.as_str()) {
            let ghost before = attribute_views(out@);
            let copy = entries[i].2.clone();
            out.push(copy);
            assert(attribute_views(out@) =~= before.push(copy@));
        }
        i += 1;
    }
    assert(all.take(i as int) =~= all);
    out
}

/// Copies of the keys of the entries that the filter selects, in the order
/// of the entries.
pub fn filter_keys(entries: &Vec<(String, String, Attribute)>, filter: &KeyFilter) -> (r: Vec<
    (String, String),
>)
    ensures
        key_views(r@) == selected_keys(
            entry_views(entries@),
            filter.namespace_pattern(),
            filter.name_pattern(),
        ),
{
    let ghost all = entry_views(entries@);
    let ghost np = filter.namespace_pattern();
    let ghost mp = filter.name_pattern();
    let mut out: Vec<(String, String)> = Vec::new();
    let mut i: usize = 0;
    assert(key_views(out@) =~= selected_keys(all.take(0), np, mp));
    while i < entries.len()
        invariant
            i <= entries.len(),
            all == entry_views(entries@),
            np == filter.namespace_pattern(),
            mp == filter.name_pattern(),
            key_views(out@) == selected_keys(all.take(i as int), np, mp),
        decreases entries.len() - i,
    {
        proof {
            assert(all.take(i as int + 1).drop_last() =~= all.take(i as int));
            assert(all.take(i as int + 1).last() == all[i as int]);
        }
        if filter.matches(entries[i].0.as_str(), entries[i].1.as_str()) {
            let ghost before = key_views(out@);
            let key = (entries[i].0.clone(), entries[i].1.clone());
            out.push(key);
            assert(key_views(out@) =~= before.push((entries@[i as int].0@, entries@[i as int].1@)));
        }
        i += 1;
    }
    assert(all.take(i as int) =~= all);
    out
}

impl Kvs {
    /// The greatest number of entries that the store holds at a time.
    pub closed spec fn capacity(&self) -> Option<u64> {
        cache_capacity(self.cache)
    }

    /// A store of the default capacity.
    pub fn new() -> (r: Self)
        ensures
            r.capacity() == Some(MAX_TTL_KVS_CAPACITY),
    {
        Kvs { cache: cache_new(MAX_TTL_KVS_CAPACITY) }
    }

    /// A store of the given capacity.
    pub fn with_capacity(max_capacity: u64) -> (r: Self)
        ensures
            r.capacity() == Some(max_capacity),
    {
        Kvs { cache: cache_new(max_capacity) }
    }

    /// The greatest number of entries that the store holds at a time.
    pub fn max_capacity(&self) -> (r: Option<u64>)
        ensures
            r == self.capacity(),
    {
        cache_limit(self)
    }
}

/// Sets each attribute of the list under its namespace and name, in the
/// place of the attribute that the key had, with the time to live, in
/// milliseconds, counted from now; `None` is for ever.
pub fn set_attributes(kvs: &Kvs, attributes: &Vec<Attribute>, ttl: Option<u64>) {
    let mut i: usize = 0;
    while i < attributes.len()
        invariant
            i <= attributes.len(),
        decreases attributes.len() - i,
    {
        let attribute = attributes[i].clone();
        let namespace = attribute.namespace.clone();
        let name = attribute.name.clone();
        cache_insert(kvs, namespace, name, ttl, attribute);
        i += 1;
    }
}

/// The attributes whose keys the two globs select, where `None` stands for
/// `*`: of the entries that the store hands out, those that the filter
/// selects. Refused where a glob is not usable: too long, too deeply
/// nested, or one that does not compile.
pub fn search_attributes(kvs: &Kvs, ns: &Option<String>, name: &Option<String>) -> (r: Result<
    Vec<Attribute>,
    PipelineError,
>)
    ensures
        r is Ok <==> glob_usable(KeyFilter::pattern_or_any(*ns)) && glob_usable(
            KeyFilter::pattern_or_any(*name),
        ),
        r is Err ==> r->Err_0 == PipelineError::InvalidPattern,
        r is Ok ==> forall|i: int|
            0 <= i < r->Ok_0.len() ==> key_matches(
                KeyFilter::pattern_or_any(*ns),
                KeyFilter::pattern_or_any(*name),
                (#[trigger] r->Ok_0@[i])@.namespace,
                r->Ok_0@[i]@.name,
            ),
{
    let filter = match KeyFilter::new(ns, name) {
        Ok(filter) => filter,
        Err(e) => {
            return Err(e);
        },
    };
    let entries = cache_entries(kvs);
    let found = filter_attributes(&entries, &filter);
    proof {
        lemma_selected_attributes_match(
            entry_views(entries@),
            filter.namespace_pattern(),
            filter.name_pattern(),
        );
        assert forall|i: int| 0 <= i < found.len() implies key_matches(
            filter.namespace_pattern(),
            filter.name_pattern(),
            (#[trigger] found@[i])@.namespace,
            found@[i]@.name,
        ) by {
            assert(attribute_views(found@)[i] == found@[i]@);
        }
    }
    Ok(found)
}

/// The keys that the two globs select, where `None` stands for `*`: of the
/// entries that the store hands out, the keys that the filter selects.
/// Refused where a glob is not usable: too long, too deeply nested, or one
/// that does not compile.
pub fn search_keys(kvs: &Kvs, ns: &Option<String>, name: &Option<String>) -> (r: Result<
    Vec<(String, String)>,
    PipelineError,
>)
    ensures
        r is Ok <==> glob_usable(KeyFilter::pattern_or_any(*ns)) && glob_usable(
            KeyFilter::pattern_or_any(*name),
        ),
        r is Err ==> r->Err_0 == PipelineError::InvalidPattern,
        r is Ok ==> forall|i: int|
            0 <= i < r->Ok_0.len() ==> key_matches(
                KeyFilter::pattern_or_any(*ns),
                KeyFilter::pattern_or_any(*name),
                (#[trigger] r->Ok_0@[i]).0@,
                r->Ok_0@[i].1@,
            ),
{
    let filter = match KeyFilter::new(ns, name) {
        Ok(filter) => filter,
        Err(e) => {
            return Err(e);
        },
    };
    let entries = cache_entries(kvs);
    let keys = filter_keys(&entries, &filter);
    proof {
        lemma_selected_keys_match(
            entry_views(entries@),
            filter.namespace_pattern(),
            filter.name_pattern(),
        );
        assert forall|i: int| 0 <= i < keys.len() implies key_matches(
            filter.namespace_pattern(),
            filter.name_pattern(),
            (#[trigger] keys@[i]).0@,
            keys@[i].1@,
        ) by {
            assert(key_views(keys@)[i] == (keys@[i].0@, keys@[i].1@));
        }
    }
    Ok(keys)
}

/// Deletes the entries whose keys the two globs select, where `None` stands
/// for `*`. Refused where a glob is not usable.
pub fn del_attributes(kvs: &Kvs, ns: &Option<String>, name: &Option<String>) -> (r: Result<
    (),
    PipelineError,
>)
    ensures
        r is Ok <==> glob_usable(KeyFilter::pattern_or_any(*ns)) && glob_usable(
            KeyFilter::pattern_or_any(*name),
        ),
        r is Err ==> r->Err_0 == PipelineError::InvalidPattern,
{
    let filter = match KeyFilter::new(ns, name) {
        Ok(filter) => filter,
        Err(e) => {
            return Err(e);
        },
    };
    let entries = cache_entries(kvs);
    let keys = filter_keys(&entries, &filter);
    let mut i: usize = 0;
    while i < keys.len()
        invariant
            i <= keys.len(),
        decreases keys.len() - i,
    {
        let _ = cache_remove(kvs, keys[i].0.as_str(), keys[i].1.as_str());
        i += 1;
    }
    Ok(())
}

/// The attribute under the key, if the store has one that has not expired.
pub fn get_attribute(kvs: &Kvs, ns: &str, name: &str) -> (r: Option<Attribute>)
    ensures
        r is Some ==> r->Some_0@.key() == (ns@, name@),
{
    cache_get(kvs, ns, name)
}

/// Deletes the entry of the key and returns its attribute, if the store
/// had one.
pub fn del_attribute(kvs: &Kvs, ns: &str, name: &str) -> (r: Option<Attribute>)
    ensures
        r is Some ==> r->Some_0@.key() == (ns@, name@),
{
    cache_remove(kvs, ns, name)
}

} // verus!
