//! The cache of served files: the keys they are found by, the values stored, the
//! in-memory backend and the bookkeeping of the file-system backend.

use vstd::prelude::*;
use vstd::string::*;

use crate::extension::{extension_of, path_extension};
use crate::outside::{fresh_uuid_text, md5_hex, md5_hex_digest, parse_url, url_parse, uuid_char};
use crate::text::{ascii_lower, same_text, to_ascii_lowercase, trim_start, trim_start_char};

verus! {

/// A parsed URL, kept as its serialization and its path component.
#[derive(Debug, Clone, PartialEq, Eq, Hash)]
pub struct SourceUrl {
    href: String,
    path: String,
}

impl View for SourceUrl {
    /// (serialization, path)
    type V = (Seq<char>, Seq<char>);

    closed spec fn view(&self) -> (Seq<char>, Seq<char>) {
        (self.href@, self.path@)
    }
}

impl SourceUrl {
    /// Parses `input` as an absolute URL (`url::Url::parse`).
    pub fn parse(input: &str) -> (r: Option<SourceUrl>)
        ensures
            match r {
                Some(u) => url_parse(input@) == Some(u@),
                None => url_parse(input@) is None,
            },
    {
        match parse_url(input) {
            Some((href, path)) => Some(SourceUrl { href, path }),
            None => None,
        }
    }

    /// The URL as text (`Url::as_str`).
    pub fn as_str(&self) -> (r: &str)
        ensures
            r@ == self@.0,
    {
        self.href.as_str()
    }

    /// The path component of the URL (`Url::path`).
    pub fn path(&self) -> (r: &str)
        ensures
            r@ == self@.1,
    {
        self.path.as_str()
    }
}

/// Where a cached file came from.
#[derive(Debug, Clone, PartialEq, Eq, Hash)]
pub enum CacheKey {
    /// Cache key for an image URL
    ImageUrl(SourceUrl),
    /// Cache key for an image path
    ImagePath(String),
}

/// The mathematical value of a key.
pub enum KeyView {
    Url(Seq<char>, Seq<char>),
    Path(Seq<char>),
}

impl View for CacheKey {
    type V = KeyView;

    open spec fn view(&self) -> KeyView {
        match self {
            CacheKey::ImageUrl(u) => KeyView::Url(u@.0, u@.1),
            CacheKey::ImagePath(p) => KeyView::Path(p@),
        }
    }
}

/// The path whose extension names the kind of a key's file: the URL's path component,
/// or the file path.
pub open spec fn key_path(k: KeyView) -> Seq<char> {
    match k {
        KeyView::Url(_, path) => path,
        KeyView::Path(p) => p,
    }
}

/// The extension of a key's file, in lower case.
pub open spec fn key_extension(k: KeyView) -> Option<Seq<char>> {
    match path_extension(key_path(k)) {
        Some(e) => Some(ascii_lower(e)),
        None => None,
    }
}

/// Whether a key's file has the requested extension, which may start with dots and
/// be in any letter case.
pub open spec fn key_has_extension(k: KeyView, requested: Seq<char>) -> bool {
    key_extension(k) == Some(ascii_lower(trim_start(requested, '.')))
}

impl CacheKey {
    /// Whether the source of this key has the given extension; leading dots and letter
    /// case of `extension` do not matter.
    pub fn has_extension(&self, extension: &str) -> (r: bool)
        ensures
            r == key_has_extension(self@, extension@),
    {
        let requested = to_ascii_lowercase(trim_start_char(extension, '.'));
        match self.extension() {
            Some(own) => own == requested,
            None => false,
        }
    }

    /// The extension of this key's file, in lower case.
    fn extension(&self) -> (r: Option<String>)
        ensures
            match r {
                Some(e) => key_extension(self@) == Some(e@),
                None => key_extension(self@) is None,
            },
    {
        let path: &str = match self {
            CacheKey::ImageUrl(url) => url.path(),
            CacheKey::ImagePath(path) => path.as_str(),
        };
        match extension_of(path) {
            Some(e) => Some(to_ascii_lowercase(e)),
            None => None,
        }
    }

    /// Whether two keys name the same source.
    pub fn same_key(&self, other: &CacheKey) -> (r: bool)
        ensures
            r == (self@ == other@),
    {
        match (self, other) {
            (CacheKey::ImageUrl(a), CacheKey::ImageUrl(b)) => {
                let same_href = a.href == b.href;
                let same_path = a.path == b.path;
                same_href && same_path
            },
            (CacheKey::ImagePath(a), CacheKey::ImagePath(b)) => *a == *b,
            _ => false,
        }
    }
}

/// A cached file: its bytes and their content type.
#[derive(Debug, Clone, PartialEq, Eq)]
pub struct CacheValue {
    pub data: Vec<u8>,
    pub content_type: String,
}

impl View for CacheValue {
    /// (data, content type)
    type V = (Seq<u8>, Seq<char>);

    open spec fn view(&self) -> (Seq<u8>, Seq<char>) {
        (self.data@, self.content_type@)
    }
}

impl CacheValue {
    /// A copy of this value.
    pub fn copied(&self) -> (r: CacheValue)
        ensures
            r@ == self@,
    {
        let data = self.data.clone();
        assert(data@ =~= self.data@);
        CacheValue { data, content_type: self.content_type.clone() }
    }
}

/// Whether a key is among those a random pick may return: any key when no extension
/// is requested, else the keys whose file has that extension.
pub open spec fn key_eligible(k: KeyView, extension: Option<Seq<char>>) -> bool {
    match extension {
        None => true,
        Some(e) => key_has_extension(k, e),
    }
}

/// The requested extension as text, if any.
pub open spec fn requested_view(extension: Option<&str>) -> Option<Seq<char>> {
    match extension {
        Some(e) => Some(e@),
        None => None,
    }
}

/// The positions, in increasing order, of the keys among the first `n` of `keys` that
/// `key_eligible` accepts.
pub open spec fn eligible_upto(keys: Seq<CacheKey>, extension: Option<Seq<char>>, n: int) -> Seq<usize>
    decreases n,
{
    if n <= 0 {
        Seq::empty()
    } else {
        let before = eligible_upto(keys, extension, n - 1);
        if key_eligible(keys[n - 1]@, extension) {
            before.push((n - 1) as usize)
        } else {
            before
        }
    }
}

/// What the eligible positions hold: only positions below `n` of eligible keys, and every
/// such position.
proof fn lemma_eligible_upto(keys: Seq<CacheKey>, extension: Option<Seq<char>>, n: int)
    requires
        0 <= n <= keys.len() <= usize::MAX,
    ensures
        forall|j: int|
            0 <= j < eligible_upto(keys, extension, n).len() ==> #[trigger] eligible_upto(
                keys,
                extension,
                n,
            )[j] < n && key_eligible(keys[eligible_upto(keys, extension, n)[j] as int]@, extension),
        forall|j: int|
            0 <= j < n && key_eligible(#[trigger] keys[j]@, extension) ==> eligible_upto(
                keys,
                extension,
                n,
            ).contains(j as usize),
    decreases n,
{
    if n > 0 {
        lemma_eligible_upto(keys, extension, n - 1);
        let before = eligible_upto(keys, extension, n - 1);
        let now = eligible_upto(keys, extension, n);
        assert forall|j: int| 0 <= j < now.len() implies #[trigger] now[j] < n && key_eligible(
            keys[now[j] as int]@,
            extension,
        ) by {
            if j < before.len() {
                assert(now[j] == before[j]);
            }
        }
        assert forall|j: int| 0 <= j < n && key_eligible(#[trigger] keys[j]@, extension) implies now.contains(
            j as usize,
        ) by {
            if j == n - 1 {
                assert(now[now.len() - 1] == j as usize);
            } else {
                let k = choose|k: int| 0 <= k < before.len() && before[k] == j as usize;
                assert(now[k] == j as usize);
            }
        }
    }
}

/// The positions, in increasing order, of the keys that `key_eligible` accepts: every
/// key when no extension is requested, else the keys whose file has that extension.
pub fn eligible_positions(keys: &[CacheKey], extension: Option<&str>) -> (r: Vec<usize>)
    ensures
        r@ == eligible_upto(keys@, requested_view(extension), keys@.len() as int),
{
    let ghost requested = requested_view(extension);
    let mut positions: Vec<usize> = Vec::new();
    let n = keys.len();
    let mut i: usize = 0;
    while i < n
        invariant
            i <= n,
            n == keys@.len(),
            requested == requested_view(extension),
            positions@ == eligible_upto(keys@, requested, i as int),
        decreases n - i,
    {
        let eligible = match extension {
            None => true,
            Some(e) => keys[i].has_extension(e),
        };
        if eligible {
            positions.push(i);
        }
        i = i + 1;
    }
    positions
}

/// Whether `c` is an outcome of the random choice among `candidates`: what the call of
/// `choose_candidate` on a slice holding `candidates` may give back.
pub closed spec fn random_choice(candidates: Seq<usize>, c: Option<usize>) -> bool {
    exists|s: &[usize]| s@ == candidates && #[trigger] call_ensures(crate::outside::choose_candidate, (s,), c)
}

/// Picks at random one of the keys that `key_eligible` accepts and returns its position;
/// `None` when no key is eligible. The pick is the outcome of the random choice among
/// `eligible_positions`.
pub fn pick_key(keys: &[CacheKey], extension: Option<&str>) -> (r: Option<usize>)
    ensures
        random_choice(eligible_upto(keys@, requested_view(extension), keys@.len() as int), r),
        r is None <==> !(exists|i: int|
            0 <= i < keys@.len() && key_eligible(#[trigger] keys@[i]@, requested_view(extension))),
        r matches Some(i) ==> eligible_upto(keys@, requested_view(extension), keys@.len() as int).contains(i),
        r matches Some(i) ==> i < keys@.len() && key_eligible(keys@[i as int]@, requested_view(extension)),
{
    let ghost requested = requested_view(extension);
    let candidates = eligible_positions(keys, extension);
    let draw = crate::outside::choose_candidate;
    let picked = draw(candidates.as_slice());
    let n = keys.len();
    proof {
        lemma_eligible_upto(keys@, requested, n as int);
        if picked is None {
            assert forall|j: int|
                0 <= j < keys@.len() implies !key_eligible(#[trigger] keys@[j]@, requested) by {
                if key_eligible(keys@[j]@, requested) {
                    assert(candidates@.contains(j as usize));
                }
            }
        } else {
            let x = picked->0;
            let k = choose|k: int| 0 <= k < candidates@.len() && candidates@[k] == x;
            assert(key_eligible(keys@[candidates@[k] as int]@, requested));
        }
    }
    picked
}

/// Backends that hold the cached files.
pub trait CacheBackend {
    /// report the type of the cache backend
    fn backend_type(&self) -> &'static str;

    /// Create a new cache backend
    fn new() -> Self where Self: Sized;

    /// Get an image from the cache by its key
    fn get(&self, key: CacheKey) -> Option<CacheValue>;

    /// Get a random image from the cache
    fn get_random(&self) -> Option<CacheValue>;

    /// Get a random cached file whose source has the requested extension
    fn get_random_by_extension(&self, extension: &str) -> Option<CacheValue>;

    /// Store an image in the cache with its key
    ///
    /// # Errors
    ///
    /// Returns an error if the image cannot be stored (e.g. due to size limits), or if the image is invalid
    fn set(&mut self, key: CacheKey, image: CacheValue) -> Result<(), String>;

    /// Remove an image from the cache by its key
    fn remove(&mut self, key: &CacheKey) -> Option<CacheValue>;

    /// Get the size of the cache
    fn size(&self) -> usize;

    /// Check if the cache is empty: whether `size` reports no file.
    fn is_empty(&self) -> (r: bool)
        ensures
            exists|n: usize| call_ensures(Self::size, (self,), n) && r == (n == 0),
    {
        self.size() == 0
    }

    /// Retrieve the keys in the cache
    fn keys(&self) -> &[CacheKey];

    /// Clear the cache
    ///
    /// # Errors
    ///
    /// Returns an error if the cache cannot be cleared.
    fn clear(&mut self) -> Result<(), String>;
}

/// `s[i]` is the only place that holds it.
proof fn lemma_index_of_unique<A>(s: Seq<A>, i: int)
    requires
        s.no_duplicates(),
        0 <= i < s.len(),
    ensures
        s.contains(s[i]),
        s.index_of(s[i]) == i,
{
    assert(s.contains(s[i]));
}

/// Keys, each held once in the order it was first stored, with a value for each.
#[derive(Debug)]
struct Slots<V> {
    keys: Vec<CacheKey>,
    values: Vec<V>,
}

impl<V: View> Slots<V> {
    spec fn key_views(&self) -> Seq<KeyView> {
        self.keys@.map_values(|k: CacheKey| k@)
    }

    spec fn map(&self) -> Map<KeyView, V::V> {
        Map::new(
            |k: KeyView| self.key_views().contains(k),
            |k: KeyView| self.values@[self.key_views().index_of(k)]@,
        )
    }

    spec fn inv(&self) -> bool {
        &&& self.keys@.len() == self.values@.len()
        &&& self.key_views().no_duplicates()
    }

    proof fn lemma_keys_are_entries(&self)
        requires
            self.inv(),
        ensures
            self.map().dom() == self.key_views().to_set(),
            self.map().dom().finite(),
            self.map().len() == self.key_views().len(),
    {
        assert(self.map().dom() =~= self.key_views().to_set());
        self.key_views().unique_seq_to_set();
    }

    fn empty() -> (r: Self)
        ensures
            r.inv(),
            r.map() == Map::<KeyView, V::V>::empty(),
            r.key_views() == Seq::<KeyView>::empty(),
    {
        let r = Slots { keys: Vec::new(), values: Vec::new() };
        assert(r.key_views() =~= Seq::<KeyView>::empty());
        assert(r.map() =~= Map::<KeyView, V::V>::empty());
        r
    }

    /// Position of `key` among the keys.
    fn find(&self, key: &CacheKey) -> (r: Option<usize>)
        requires
            self.inv(),
        ensures
            match r {
                Some(i) => i < self.keys@.len() && self.key_views()[i as int] == key@
                    && self.map().contains_key(key@) && self.key_views().index_of(key@) == i,
                None => !self.map().contains_key(key@),
            },
    {
        let n = self.keys.len();
        let mut i: usize = 0;
        while i < n
            invariant
                i <= n,
                n == self.keys@.len(),
                self.inv(),
                forall|j: int| 0 <= j < i ==> self.key_views()[j] != key@,
            decreases n - i,
        {
            if self.keys[i].same_key(key) {
                proof {
                    lemma_index_of_unique(self.key_views(), i as int);
                }
                return Some(i);
            }
            i = i + 1;
        }
        None
    }

    /// The value of `key`, if held.
    fn lookup(&self, key: &CacheKey) -> (r: Option<&V>)
        requires
            self.inv(),
        ensures
            match r {
                Some(v) => self.map().contains_key(key@) && v@ == self.map()[key@],
                None => !self.map().contains_key(key@),
            },
    {
        match self.find(key) {
            Some(i) => Some(&self.values[i]),
            None => None,
        }
    }

    /// The value at a position of the keys, with its key.
    proof fn lemma_position(&self, i: int)
        requires
            self.inv(),
            0 <= i < self.keys@.len(),
        ensures
            self.map().contains_key(self.key_views()[i]),
            self.map()[self.key_views()[i]] == self.values@[i]@,
            self.key_views()[i] == self.keys@[i]@,
    {
        lemma_index_of_unique(self.key_views(), i);
    }

    /// Stores `value` under `key`, giving back the value it replaces.
    fn insert(&mut self, key: CacheKey, value: V) -> (r: Option<V>)
        requires
            old(self).inv(),
        ensures
            final(self).inv(),
            final(self).map() == old(self).map().insert(key@, value@),
            match r {
                Some(o) => old(self).map().contains_key(key@) && o@ == old(self).map()[key@],
                None => !old(self).map().contains_key(key@),
            },
            final(self).key_views() == if old(self).map().contains_key(key@) {
                old(self).key_views()
            } else {
                old(self).key_views().push(key@)
            },
    {
        let ghost k = key@;
        let ghost v = value@;
        match self.find(&key) {
            Some(i) => {
                let mut replaced = value;
                std::mem::swap(&mut self.values[i], &mut replaced);
                proof {
                    assert(self.key_views() =~= old(self).key_views());
                    assert(self.values@ =~= old(self).values@.update(i as int, self.values@[i as int]));
                    assert forall|q: KeyView| #[trigger] self.map().contains_key(q) && q != k implies
                        self.map()[q] == old(self).map()[q] by {
                        let j = self.key_views().index_of(q);
                        assert(self.key_views()[j] == q);
                        assert(j != i);
                    }
                    assert(self.map() =~= old(self).map().insert(k, v));
                }
                Some(replaced)
            },
            None => {
                self.keys.push(key);
                self.values.push(value);
                proof {
                    let old_keys = old(self).key_views();
                    assert(self.key_views() =~= old_keys.push(k));
                    assert(self.key_views().no_duplicates()) by {
                        assert forall|a: int, b: int|
                            0 <= a < self.key_views().len() && 0 <= b < self.key_views().len() && a != b
                            implies self.key_views()[a] != self.key_views()[b] by {
                            if a == old_keys.len() {
                                assert(!old_keys.contains(k));
                                assert(old_keys[b] == self.key_views()[b]);
                            } else if b == old_keys.len() {
                                assert(!old_keys.contains(k));
                                assert(old_keys[a] == self.key_views()[a]);
                            }
                        }
                    }
                    lemma_index_of_unique(self.key_views(), old_keys.len() as int);
                    assert forall|q: KeyView| #[trigger] self.map().contains_key(q) && q != k implies
                        self.map()[q] == old(self).map()[q] by {
                        let j = self.key_views().index_of(q);
                        assert(j != old_keys.len());
                        assert(old_keys[j] == q);
                        lemma_index_of_unique(old_keys, j);
                        assert(self.values@[j] == old(self).values@[j]);
                    }
                    assert forall|q: KeyView| #[trigger] old(self).map().contains_key(q) implies
                        self.map().contains_key(q) by {
                        let j = old_keys.index_of(q);
                        assert(self.key_views()[j] == q);
                    }
                    assert(self.map() =~= old(self).map().insert(k, v));
                }
                None
            },
        }
    }

    /// Drops `key` and its value, giving the value back.
    fn take(&mut self, key: &CacheKey) -> (r: Option<V>)
        requires
            old(self).inv(),
        ensures
            final(self).inv(),
            final(self).map() == old(self).map().remove(key@),
            match r {
                Some(v) => old(self).map().contains_key(key@) && v@ == old(self).map()[key@],
                None => !old(self).map().contains_key(key@),
            },
            old(self).map().contains_key(key@) ==> final(self).key_views() == old(
                self,
            ).key_views().remove(old(self).key_views().index_of(key@)),
            !old(self).map().contains_key(key@) ==> final(self).key_views() == old(self).key_views(),
    {
        let ghost k = key@;
        match self.find(key) {
            Some(i) => {
                self.keys.remove(i);
                let removed = self.values.remove(i);
                proof {
                    let old_keys = old(self).key_views();
                    assert(self.key_views() =~= old_keys.remove(i as int));
                    old_keys.remove_ensures(i as int);
                    assert(self.key_views().no_duplicates()) by {
                        assert forall|a: int, b: int|
                            0 <= a < self.key_views().len() && 0 <= b < self.key_views().len() && a != b
                            implies self.key_views()[a] != self.key_views()[b] by {
                            let oa = if a < i { a } else { a + 1 };
                            let ob = if b < i { b } else { b + 1 };
                            assert(self.key_views()[a] == old_keys[oa]);
                            assert(self.key_views()[b] == old_keys[ob]);
                        }
                    }
                    assert forall|q: KeyView| #[trigger] self.map().contains_key(q) implies q != k
                        && old(self).map().contains_key(q) && self.map()[q] == old(self).map()[q] by {
                        let j = self.key_views().index_of(q);
                        let oj = if j < i { j } else { j + 1 };
                        assert(old_keys[oj] == q);
                        assert(oj != i);
                        lemma_index_of_unique(old_keys, oj);
                        assert(self.values@[j] == old(self).values@[oj]);
                    }
                    assert forall|q: KeyView| #[trigger] old(self).map().contains_key(q) && q != k
                        implies self.map().contains_key(q) by {
                        let oj = old_keys.index_of(q);
                        assert(oj != i);
                        let j = if oj < i { oj } else { oj - 1 };
                        assert(self.key_views()[j] == q);
                    }
                    assert(self.map() =~= old(self).map().remove(k));
                }
                Some(removed)
            },
            None => {
                assert(old(self).map().remove(k) =~= old(self).map());
                None
            },
        }
    }

    fn clear(&mut self)
        ensures
            final(self).inv(),
            final(self).map() == Map::<KeyView, V::V>::empty(),
            final(self).key_views() == Seq::<KeyView>::empty(),
    {
        self.keys.clear();
        self.values.clear();
        assert(self.key_views() =~= Seq::<KeyView>::empty());
        assert(self.map() =~= Map::<KeyView, V::V>::empty());
    }

    /// Picks at random the value of a key that `key_eligible` accepts.
    fn pick(&self, extension: Option<&str>) -> (r: Option<usize>)
        requires
            self.inv(),
        ensures
            random_choice(eligible_upto(self.keys@, requested_view(extension), self.keys@.len() as int), r),
            r is None <==> !(exists|k: KeyView|
                #[trigger] self.map().contains_key(k) && key_eligible(k, requested_view(extension))),
            r matches Some(i) ==> i < self.keys@.len() && self.map().contains_key(self.key_views()[i as int])
                && key_eligible(self.key_views()[i as int], requested_view(extension))
                && self.map()[self.key_views()[i as int]] == self.values@[i as int]@,
    {
        let picked = pick_key(self.keys.as_slice(), extension);
        proof {
            match picked {
                Some(i) => {
                    self.lemma_position(i as int);
                },
                None => {
                    assert forall|k: KeyView| #[trigger] self.map().contains_key(k) implies !key_eligible(
                        k,
                        requested_view(extension),
                    ) by {
                        let j = self.key_views().index_of(k);
                        assert(self.keys@[j]@ == k);
                    }
                },
            }
        }
        picked
    }
}

/// A cache that holds the files in memory.
#[derive(Debug)]
pub struct InMemoryCache {
    slots: Slots<CacheValue>,
}

impl InMemoryCache {
    /// The keys, in the order they were first stored.
    pub closed spec fn key_views(&self) -> Seq<KeyView> {
        self.slots.key_views()
    }

    /// What the cache maps each key to.
    pub closed spec fn entries(&self) -> Map<KeyView, (Seq<u8>, Seq<char>)> {
        self.slots.map()
    }

    /// The consistency of the key list and the values.
    #[verifier::type_invariant]
    pub closed spec fn inv(&self) -> bool {
        self.slots.inv()
    }

    /// The held keys themselves, in the order of `key_views`.
    pub closed spec fn held_keys(&self) -> Seq<CacheKey> {
        self.slots.keys@
    }

    /// The held keys are those `key_views` gives the views of.
    pub proof fn lemma_held_keys(&self)
        ensures
            self.held_keys().map_values(|k: CacheKey| k@) == self.key_views(),
    {
    }

    /// The keys of a well-formed cache are those of its entries, each once.
    pub proof fn lemma_keys_are_entries(&self)
        requires
            self.inv(),
        ensures
            self.key_views().no_duplicates(),
            self.entries().dom() == self.key_views().to_set(),
            self.entries().dom().finite(),
            self.entries().len() == self.key_views().len(),
    {
        self.slots.lemma_keys_are_entries();
    }
}

impl Default for InMemoryCache {
    fn default() -> (r: Self)
        ensures
            r.inv(),
            r.entries() == Map::<KeyView, (Seq<u8>, Seq<char>)>::empty(),
            r.key_views() == Seq::<KeyView>::empty(),
    {
        <InMemoryCache as CacheBackend>::new()
    }
}

impl CacheBackend for InMemoryCache {
    fn backend_type(&self) -> (r: &'static str)
        ensures
            r@ == "InMemory"@,
    {
        proof {
            use_type_invariant(self);
        }
        "InMemory"
    }

    fn new() -> (r: Self)
        ensures
            r.inv(),
            r.entries() == Map::<KeyView, (Seq<u8>, Seq<char>)>::empty(),
            r.key_views() == Seq::<KeyView>::empty(),
    {
        InMemoryCache { slots: Slots::empty() }
    }

    fn get(&self, key: CacheKey) -> (r: Option<CacheValue>)
        ensures
            match r {
                Some(v) => self.entries().contains_key(key@) && v@ == self.entries()[key@],
                None => !self.entries().contains_key(key@),
            },
    {
        proof {
            use_type_invariant(self);
        }
        match self.slots.lookup(&key) {
            Some(v) => Some(v.copied()),
            None => None,
        }
    }

    fn get_random(&self) -> (r: Option<CacheValue>)
        ensures
            exists|c: Option<usize>|
                #[trigger] random_choice(eligible_upto(self.held_keys(), None, self.held_keys().len() as int), c)
                    && match c {
                    Some(i) => r matches Some(v) && v@ == self.entries()[self.key_views()[i as int]],
                    None => r is None,
                },
            r is None <==> self.entries().len() == 0,
            r matches Some(v) ==> exists|k: KeyView|
                #[trigger] self.entries().contains_key(k) && self.entries()[k] == v@,
    {
        proof {
            use_type_invariant(self);
        }
        proof {
            self.slots.lemma_keys_are_entries();
        }
        let picked = self.slots.pick(None);
        proof {
            assert(requested_view(None) == None::<Seq<char>>);
            assert(random_choice(
                eligible_upto(self.held_keys(), None, self.held_keys().len() as int),
                picked,
            ));
        }
        match picked {
            Some(i) => {
                proof {
                    assert(self.entries().contains_key(self.slots.key_views()[i as int]));
                }
                Some(self.slots.values[i].copied())
            },
            None => {
                proof {
                    if self.slots.keys@.len() > 0 {
                        self.slots.lemma_position(0);
                    }
                }
                None
            },
        }
    }

    fn get_random_by_extension(&self, extension: &str) -> (r: Option<CacheValue>)
        ensures
            exists|c: Option<usize>|
                #[trigger] random_choice(
                    eligible_upto(self.held_keys(), Some(extension@), self.held_keys().len() as int),
                    c,
                ) && match c {
                    Some(i) => r matches Some(v) && v@ == self.entries()[self.key_views()[i as int]],
                    None => r is None,
                },
            r is None <==> !(exists|k: KeyView|
                #[trigger] self.entries().contains_key(k) && key_has_extension(k, extension@)),
            r matches Some(v) ==> exists|k: KeyView|
                #[trigger] self.entries().contains_key(k) && key_has_extension(k, extension@)
                    && self.entries()[k] == v@,
    {
        proof {
            use_type_invariant(self);
        }
        proof {
            self.slots.lemma_keys_are_entries();
        }
        let picked = self.slots.pick(Some(extension));
        proof {
            assert(requested_view(Some(extension)) == Some(extension@));
            assert(random_choice(
                eligible_upto(self.held_keys(), Some(extension@), self.held_keys().len() as int),
                picked,
            ));
        }
        match picked {
            Some(i) => {
                proof {
                    let k = self.slots.key_views()[i as int];
                    assert(key_eligible(k, requested_view(Some(extension))));
                    assert(self.entries().contains_key(k) && key_has_extension(k, extension@));
                }
                Some(self.slots.values[i].copied())
            },
            None => {
                proof {
                    assert forall|k: KeyView| #[trigger] self.entries().contains_key(k) implies !key_has_extension(
                        k,
                        extension@,
                    ) by {
                        assert(!key_eligible(k, requested_view(Some(extension))));
                    }
                }
                None
            },
        }
    }

    fn set(&mut self, key: CacheKey, image: CacheValue) -> (r: Result<(), String>)
        ensures
            r is Ok,
            final(self).entries() == old(self).entries().insert(key@, image@),
            final(self).key_views() == if old(self).entries().contains_key(key@) {
                old(self).key_views()
            } else {
                old(self).key_views().push(key@)
            },
    {
        proof {
            use_type_invariant(&*self);
        }
        let mut slots = Slots::empty();
        std::mem::swap(&mut slots, &mut self.slots);
        let _replaced = slots.insert(key, image);
        self.slots = slots;
        Ok(())
    }

    fn remove(&mut self, key: &CacheKey) -> (r: Option<CacheValue>)
        ensures
            final(self).entries() == old(self).entries().remove(key@),
            match r {
                Some(v) => old(self).entries().contains_key(key@) && v@ == old(self).entries()[key@],
                None => !old(self).entries().contains_key(key@),
            },
            old(self).entries().contains_key(key@) ==> final(self).key_views() == old(
                self,
            ).key_views().remove(old(self).key_views().index_of(key@)),
            !old(self).entries().contains_key(key@) ==> final(self).key_views() == old(self).key_views(),
    {
        proof {
            use_type_invariant(&*self);
        }
        let mut slots = Slots::empty();
        std::mem::swap(&mut slots, &mut self.slots);
        let removed = slots.take(key);
        self.slots = slots;
        removed
    }

    fn size(&self) -> (r: usize)
        ensures
            r == self.entries().len(),
    {
        proof {
            use_type_invariant(self);
        }
        proof {
            self.slots.lemma_keys_are_entries();
        }
        self.slots.keys.len()
    }

    fn is_empty(&self) -> (r: bool)
        ensures
            r == (self.entries().len() == 0),
    {
        proof {
            use_type_invariant(self);
        }
        self.size() == 0
    }

    fn keys(&self) -> (r: &[CacheKey])
        ensures
            r@.map_values(|k: CacheKey| k@) == self.key_views(),
    {
        proof {
            use_type_invariant(self);
        }
        self.slots.keys.as_slice()
    }

    fn clear(&mut self) -> (r: Result<(), String>)
        ensures
            r is Ok,
            final(self).entries() == Map::<KeyView, (Seq<u8>, Seq<char>)>::empty(),
            final(self).key_views() == Seq::<KeyView>::empty(),
    {
        proof {
            use_type_invariant(&*self);
        }
        self.slots = Slots::empty();
        Ok(())
    }
}

/// Where the file-system cache keeps one file: the file's path, the MD5 digest (lower-case
/// hexadecimal) of the bytes written there, and their content type.
#[derive(Debug)]
pub struct FileSystemCacheValue {
    pub path: String,
    pub hash: String,
    pub content_type: String,
}

impl View for FileSystemCacheValue {
    /// (path, hash, content type)
    type V = (Seq<char>, Seq<char>, Seq<char>);

    open spec fn view(&self) -> (Seq<char>, Seq<char>, Seq<char>) {
        (self.path@, self.hash@, self.content_type@)
    }
}

/// What reading a cached file back gives.
#[derive(Debug, Clone, PartialEq, Eq)]
pub enum ReadBack {
    /// the bytes are those that were written: the cached value
    Fresh(CacheValue),
    /// the file changed after it was written: nothing is served, and the file at this
    /// path is to be deleted
    Stale(String),
}

impl FileSystemCacheValue {
    /// What the cache gives back for the bytes read from this entry's file: the value when
    /// they have the digest recorded when the file was written; otherwise the file is
    /// stale and its path is handed back for deletion.
    pub fn validate(&self, data: Vec<u8>) -> (r: ReadBack)
        ensures
            md5_hex_digest(data@) == self.hash@ ==> (r matches ReadBack::Fresh(v) && v@ == (
                data@,
                self.content_type@,
            )),
            md5_hex_digest(data@) != self.hash@ ==> (r matches ReadBack::Stale(p) && p@ == self.path@),
    {
        let digest = md5_hex(data.as_slice());
        self.validate_digest(data, digest.as_str())
    }

    /// What the cache gives back for the bytes read from this entry's file, given their
    /// digest: the value when `digest` is the one recorded when the file was written;
    /// otherwise the entry's path, for deletion.
    pub fn validate_digest(&self, data: Vec<u8>, digest: &str) -> (r: ReadBack)
        ensures
            digest@ == self.hash@ ==> (r matches ReadBack::Fresh(v) && v@ == (
                data@,
                self.content_type@,
            )),
            digest@ != self.hash@ ==> (r matches ReadBack::Stale(p) && p@ == self.path@),
    {
        if same_text(digest, self.hash.as_str()) {
            ReadBack::Fresh(CacheValue { data, content_type: self.content_type.clone() })
        } else {
            ReadBack::Stale(self.path.clone())
        }
    }

    /// The value handed back when this entry is removed. `read` is what reading the
    /// entry's file gave before the file was deleted, and `deleted` whether deleting it
    /// worked: the bytes read, with the content type stored when the file was written, when
    /// both worked; nothing otherwise.
    pub fn removed(&self, read: Option<Vec<u8>>, deleted: bool) -> (r: Option<CacheValue>)
        ensures
            r is Some <==> (read is Some && deleted),
            r matches Some(v) ==> v@ == (read->0@, self.content_type@),
    {
        match read {
            Some(data) => {
                if deleted {
                    Some(CacheValue { data, content_type: self.content_type.clone() })
                } else {
                    None
                }
            },
            None => None,
        }
    }
}

/// The ending of the names of the files the file-system cache writes: ".cache".
pub open spec fn cache_file_suffix() -> Seq<char> {
    seq!['.', 'c', 'a', 'c', 'h', 'e']
}

/// Whether `name` is the name of a cache file: a 36-character identifier of lower-case
/// hexadecimal digits and hyphens, followed by ".cache".
pub open spec fn cache_file_name(name: Seq<char>) -> bool {
    &&& name.len() == 42
    &&& forall|i: int| 0 <= i < 36 ==> uuid_char(#[trigger] name[i])
    &&& name.subrange(36, 42) == cache_file_suffix()
}

/// `name` put inside the directory `dir` (`Path::join` with a relative name).
pub open spec fn join_path(dir: Seq<char>, name: Seq<char>) -> Seq<char> {
    if dir.len() == 0 || dir.last() == '/' {
        dir + name
    } else {
        dir + seq!['/'] + name
    }
}

/// The bookkeeping of a cache that keeps the files in a directory: for each key, the
/// file that holds its bytes, with their digest and content type. Reading, writing and
/// deleting the files is left to the caller, which hands how writing went to `set`, the
/// bytes it read to `FileSystemCacheValue::validate` and `FileSystemCacheValue::removed`,
/// and deletes the files that `validate`, `set` and `forget` give back.
#[derive(Debug)]
pub struct FileSystemCache {
    dir: String,
    slots: Slots<FileSystemCacheValue>,
}

impl FileSystemCache {
    /// The keys, in the order they were first stored.
    pub closed spec fn key_views(&self) -> Seq<KeyView> {
        self.slots.key_views()
    }

    /// Where the file of each key is kept.
    pub closed spec fn entries(&self) -> Map<KeyView, (Seq<char>, Seq<char>, Seq<char>)> {
        self.slots.map()
    }

    /// The consistency of the key list and the entries.
    #[verifier::type_invariant]
    pub closed spec fn inv(&self) -> bool {
        self.slots.inv()
    }

    /// The held keys themselves, in the order of `key_views`.
    pub closed spec fn held_keys(&self) -> Seq<CacheKey> {
        self.slots.keys@
    }

    /// The held keys are those `key_views` gives the views of.
    pub proof fn lemma_held_keys(&self)
        ensures
            self.held_keys().map_values(|k: CacheKey| k@) == self.key_views(),
    {
    }

    /// The directory the files are kept in.
    pub closed spec fn dir_view(&self) -> Seq<char> {
        self.dir@
    }

    /// The keys of a well-formed cache are those of its entries, each once.
    pub proof fn lemma_keys_are_entries(&self)
        requires
            self.inv(),
        ensures
            self.key_views().no_duplicates(),
            self.entries().dom() == self.key_views().to_set(),
            self.entries().dom().finite(),
            self.entries().len() == self.key_views().len(),
    {
        self.slots.lemma_keys_are_entries();
    }

    /// An empty cache keeping its files in `dir`.
    pub fn new(dir: String) -> (r: Self)
        ensures
            r.inv(),
            r.dir_view() == dir@,
            r.entries() == Map::<KeyView, (Seq<char>, Seq<char>, Seq<char>)>::empty(),
            r.key_views() == Seq::<KeyView>::empty(),
    {
        FileSystemCache { dir, slots: Slots::empty() }
    }

    /// The directory the files are kept in.
    pub fn dir(&self) -> (r: &str)
        ensures
            r@ == self.dir_view(),
    {
        proof {
            use_type_invariant(self);
        }
        self.dir.as_str()
    }

    /// The path in the directory of the cache file for the identifier `id`: `id` followed
    /// by ".cache".
    pub fn cache_file_path(&self, id: &str) -> (r: String)
        ensures
            r@ == join_path(self.dir_view(), id@ + cache_file_suffix()),
    {
        proof {
            use_type_invariant(self);
        }
        let mut path = self.dir.clone();
        let n = path.as_str().unicode_len();
        if !(n == 0 || path.as_str().get_char(n - 1) == '/') {
            path.append("/");
            proof {
                reveal_strlit("/");
            }
        }
        path.append(id);
        path.append(".cache");
        proof {
            reveal_strlit(".cache");
            let name = id@ + cache_file_suffix();
            assert(".cache"@ =~= cache_file_suffix());
            if n == 0 || self.dir@.last() == '/' {
                assert(path@ =~= join_path(self.dir_view(), name));
            } else {
                assert(path@ =~= join_path(self.dir_view(), name));
            }
        }
        path
    }

    /// A fresh path in the directory for the next file: a random identifier followed by
    /// ".cache".
    pub fn next_file_path(&self) -> (r: String)
        ensures
            exists|name: Seq<char>| #[trigger] cache_file_name(name) && r@ == join_path(self.dir_view(), name),
    {
        let id = fresh_uuid_text();
        let path = self.cache_file_path(id.as_str());
        proof {
            let name = id@ + cache_file_suffix();
            assert(name.subrange(36, 42) =~= cache_file_suffix());
            assert forall|i: int| 0 <= i < 36 implies uuid_char(#[trigger] name[i]) by {
                assert(name[i] == id@[i]);
            }
            assert(cache_file_name(name));
        }
        path
    }

    /// Where the file of `key` is kept, if the key is held.
    pub fn lookup(&self, key: &CacheKey) -> (r: Option<&FileSystemCacheValue>)
        ensures
            match r {
                Some(v) => self.entries().contains_key(key@) && v@ == self.entries()[key@],
                None => !self.entries().contains_key(key@),
            },
    {
        proof {
            use_type_invariant(self);
        }
        self.slots.lookup(key)
    }

    /// Records that the bytes of `image` were written to the file at `path` for `key`.
    /// Gives back the path of the file it held before for that key, which the caller
    /// deletes.
    pub fn record(&mut self, key: CacheKey, path: String, image: CacheValue) -> (r: Option<String>)
        ensures
            final(self).dir_view() == old(self).dir_view(),
            final(self).entries() == old(self).entries().insert(
                key@,
                (path@, md5_hex_digest(image.data@), image.content_type@),
            ),
            match r {
                Some(p) => old(self).entries().contains_key(key@) && p@ == old(self).entries()[key@].0,
                None => !old(self).entries().contains_key(key@),
            },
            final(self).key_views() == if old(self).entries().contains_key(key@) {
                old(self).key_views()
            } else {
                old(self).key_views().push(key@)
            },
    {
        proof {
            use_type_invariant(&*self);
        }
        let hash = md5_hex(image.data.as_slice());
        let entry = FileSystemCacheValue { path, hash, content_type: image.content_type };
        let mut slots = Slots::empty();
        std::mem::swap(&mut slots, &mut self.slots);
        let replaced = slots.insert(key, entry);
        self.slots = slots;
        match replaced {
            Some(previous) => Some(previous.path),
            None => None,
        }
    }

    /// How storing `image` under `key`, with its bytes written to the file at `path`,
    /// leaves the cache (`after`): the key maps to that file, the digest of the bytes and
    /// their content type; it is appended to the keys when new and kept in its place
    /// otherwise; the directory stays.
    pub open spec fn after_set(
        self,
        after: FileSystemCache,
        key: KeyView,
        path: Seq<char>,
        image: (Seq<u8>, Seq<char>),
    ) -> bool {
        &&& after.dir_view() == self.dir_view()
        &&& after.entries() == self.entries().insert(key, (path, md5_hex_digest(image.0), image.1))
        &&& after.key_views() == if self.entries().contains_key(key) {
            self.key_views()
        } else {
            self.key_views().push(key)
        }
    }

    /// Stores `image` under `key`, once its bytes were written to the file at `path`:
    /// `written` is how writing the file ended. When it failed, the cache is left as it was
    /// and the error is handed on. Otherwise the file is recorded as `record` does, and the
    /// path of the file the key held before, if any, is handed back for deletion.
    pub fn set(&mut self, key: CacheKey, path: String, image: CacheValue, written: Result<(), String>) -> (r: Result<
        Option<String>,
        String,
    >)
        ensures
            written matches Err(e) ==> (r == Err::<Option<String>, String>(e) && *final(self) == *old(
                self,
            )),
            written is Ok ==> r is Ok && old(self).after_set(*final(self), key@, path@, image@),
            r matches Ok(Some(p)) ==> old(self).entries().contains_key(key@) && p@ == old(
                self,
            ).entries()[key@].0,
            r matches Ok(None) ==> !old(self).entries().contains_key(key@),
    {
        match written {
            Err(e) => Err(e),
            Ok(()) => Ok(self.record(key, path, image)),
        }
    }

    /// Drops `key`, giving back where its file was kept; the caller deletes the file.
    pub fn forget(&mut self, key: &CacheKey) -> (r: Option<FileSystemCacheValue>)
        ensures
            final(self).dir_view() == old(self).dir_view(),
            final(self).entries() == old(self).entries().remove(key@),
            match r {
                Some(v) => old(self).entries().contains_key(key@) && v@ == old(self).entries()[key@],
                None => !old(self).entries().contains_key(key@),
            },
            old(self).entries().contains_key(key@) ==> final(self).key_views() == old(
                self,
            ).key_views().remove(old(self).key_views().index_of(key@)),
            !old(self).entries().contains_key(key@) ==> final(self).key_views() == old(self).key_views(),
    {
        proof {
            use_type_invariant(&*self);
        }
        let mut slots = Slots::empty();
        std::mem::swap(&mut slots, &mut self.slots);
        let removed = slots.take(key);
        self.slots = slots;
        removed
    }

    /// One of the held keys, picked at random: any key when `extension` is `None`, else one
    /// whose file has that extension. `None` when no key qualifies.
    pub fn pick(&self, extension: Option<&str>) -> (r: Option<&CacheKey>)
        ensures
            exists|c: Option<usize>|
                #[trigger] random_choice(
                    eligible_upto(self.held_keys(), requested_view(extension), self.held_keys().len() as int),
                    c,
                ) && match c {
                    Some(i) => r matches Some(k) && *k == self.held_keys()[i as int],
                    None => r is None,
                },
            r is None <==> !(exists|k: KeyView|
                #[trigger] self.entries().contains_key(k) && key_eligible(k, requested_view(extension))),
            r matches Some(k) ==> self.entries().contains_key(k@) && key_eligible(
                k@,
                requested_view(extension),
            ),
    {
        proof {
            use_type_invariant(self);
        }
        let picked = self.slots.pick(extension);
        proof {
            assert(random_choice(
                eligible_upto(self.held_keys(), requested_view(extension), self.held_keys().len() as int),
                picked,
            ));
        }
        match picked {
            Some(i) => {
                proof {
                    self.slots.lemma_position(i as int);
                    assert(self.entries().contains_key(self.slots.key_views()[i as int]));
                }
                Some(&self.slots.keys[i])
            },
            None => None,
        }
    }

    /// How many files are held.
    pub fn size(&self) -> (r: usize)
        ensures
            r == self.entries().len(),
    {
        proof {
            use_type_invariant(self);
        }
        proof {
            self.slots.lemma_keys_are_entries();
        }
        self.slots.keys.len()
    }

    /// Whether no file is held.
    pub fn is_empty(&self) -> (r: bool)
        ensures
            r == (self.entries().len() == 0),
    {
        proof {
            use_type_invariant(self);
        }
        self.size() == 0
    }

    /// The held keys, in the order they were first stored.
    pub fn keys(&self) -> (r: &[CacheKey])
        ensures
            r@.map_values(|k: CacheKey| k@) == self.key_views(),
    {
        proof {
            use_type_invariant(self);
        }
        self.slots.keys.as_slice()
    }

    /// Forgets every key. The files stay in the directory.
    pub fn clear(&mut self)
        ensures
            final(self).dir_view() == old(self).dir_view(),
            final(self).entries() == Map::<KeyView, (Seq<char>, Seq<char>, Seq<char>)>::empty(),
            final(self).key_views() == Seq::<KeyView>::empty(),
    {
        proof {
            use_type_invariant(&*self);
        }
        self.slots = Slots::empty();
    }
}

} // verus!
