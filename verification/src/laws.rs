//! Properties of the library that span several functions or every input, proved from
//! the contracts of the functions they speak of.

use vstd::prelude::*;
use vstd::arithmetic::div_mod::{
    lemma_add_mod_noop_right, lemma_mod_add_multiples_vanish, lemma_mod_equivalence, lemma_mod_pos_bound,
    lemma_mod_twice, lemma_small_mod,
};

use crate::cache::{
    key_has_extension, key_extension, CacheValue, FileSystemCache, InMemoryCache, KeyView,
};
use crate::extension::{
    file_name, last_index, last_segment, lemma_last_index_prefix, name_extension, path_extension,
    strip_tail,
};
use crate::outside::md5_hex_digest;
use crate::text::{ascii_lower, ascii_lower_char, trim_start};
use crate::{
    allowed_file_extension, header_text, lemma_allowed_file_extensions, lemma_ascii_lower_idempotent,
    random_route_extension, random_route_prefix, route_of, served_path, serves_value, Reply, Route,
    ServeError, ALLOWED_FILE_EXTENSIONS, ALLOWED_IMAGE_EXTENSIONS,
};

verus! {

/// A value stored under a key is what a later read of that key gives back, and every
/// other key keeps what it had. (`after` is the cache as `InMemoryCache::set` leaves it.)
pub proof fn law_read_after_write(
    before: InMemoryCache,
    after: InMemoryCache,
    key: KeyView,
    value: (Seq<u8>, Seq<char>),
    other: KeyView,
)
    requires
        after.entries() == before.entries().insert(key, value),
    ensures
        after.entries().contains_key(key),
        after.entries()[key] == value,
        other != key ==> after.entries().contains_key(other) == before.entries().contains_key(other),
        other != key && before.entries().contains_key(other) ==> after.entries()[other]
            == before.entries()[other],
{
}

/// Storing under a key the cache already holds replaces its value: the number of held
/// files and the order of the keys stay as they were.
pub proof fn law_overwrite_keeps_size(
    before: InMemoryCache,
    after: InMemoryCache,
    key: KeyView,
    value: (Seq<u8>, Seq<char>),
)
    requires
        before.inv(),
        after.inv(),
        before.entries().contains_key(key),
        after.entries() == before.entries().insert(key, value),
        after.key_views() == before.key_views(),
    ensures
        after.entries().len() == before.entries().len(),
        after.key_views() == before.key_views(),
        after.entries()[key] == value,
{
    before.lemma_keys_are_entries();
    after.lemma_keys_are_entries();
}

/// Removing a key that was just stored for the first time gives back the cache as it
/// was before: the same entries and the same key order.
pub proof fn law_remove_undoes_set(
    before: InMemoryCache,
    stored: InMemoryCache,
    removed: InMemoryCache,
    key: KeyView,
    value: (Seq<u8>, Seq<char>),
)
    requires
        before.inv(),
        stored.inv(),
        !before.entries().contains_key(key),
        stored.entries() == before.entries().insert(key, value),
        stored.key_views() == before.key_views().push(key),
        removed.entries() == stored.entries().remove(key),
        removed.key_views() == stored.key_views().remove(stored.key_views().index_of(key)),
    ensures
        removed.entries() == before.entries(),
        removed.key_views() == before.key_views(),
{
    stored.lemma_keys_are_entries();
    before.lemma_keys_are_entries();
    let n = before.key_views().len() as int;
    let s = stored.key_views();
    assert(s[n] == key);
    assert(s.contains(key));
    let i = s.index_of(key);
    assert(s[i] == key);
    assert(i == n) by {
        if i != n {
            assert(s[i] == before.key_views()[i]);
            assert(before.key_views().contains(key));
            assert(before.entries().dom().contains(key));
        }
    }
    assert(s.remove(n) =~= before.key_views());
    assert(removed.entries() =~= before.entries());
}

/// The keys a cache hands out are exactly the keys it holds, each once.
pub proof fn law_keys_are_held_once(cache: InMemoryCache)
    requires
        cache.inv(),
    ensures
        cache.key_views().no_duplicates(),
        cache.key_views().to_set() == cache.entries().dom(),
        cache.key_views().len() == cache.entries().len(),
{
    cache.lemma_keys_are_entries();
}

/// Storing a file in the file-system cache: the key then maps to the new file, with the
/// digest of the bytes written there, so `FileSystemCacheValue::validate` gives back those
/// bytes with their content type when they are read back unchanged. The key is held once:
/// appended when it is new, kept in its place otherwise, and the number of held files
/// grows by one exactly when the key is new. Every other key keeps its entry.
/// (`after` is the cache as `FileSystemCache::set` leaves it once the file was written.)
pub proof fn law_file_set_then_get(
    before: FileSystemCache,
    after: FileSystemCache,
    key: KeyView,
    path: Seq<char>,
    data: Seq<u8>,
    content_type: Seq<char>,
    other: KeyView,
)
    requires
        before.inv(),
        after.inv(),
        before.after_set(after, key, path, (data, content_type)),
    ensures
        after.entries().contains_key(key),
        after.entries()[key] == (path, md5_hex_digest(data), content_type),
        after.entries().len() == before.entries().len() + if before.entries().contains_key(key) {
            0int
        } else {
            1int
        },
        after.key_views().contains(key),
        after.key_views().no_duplicates(),
        before.entries().contains_key(key) ==> after.key_views().index_of(key)
            == before.key_views().index_of(key),
        !before.entries().contains_key(key) ==> after.key_views()[before.key_views().len() as int]
            == key,
        other != key ==> after.entries().contains_key(other) == before.entries().contains_key(other),
        other != key && before.entries().contains_key(other) ==> after.entries()[other]
            == before.entries()[other],
{
    before.lemma_keys_are_entries();
    after.lemma_keys_are_entries();
    assert(after.entries().dom().contains(key));
    assert(after.key_views().to_set().contains(key));
}

/// A `/random/{extension}` path is the prefix followed by the extension it asks for, and
/// that extension is a served one.
pub proof fn law_random_route_shape(path: Seq<char>)
    requires
        random_route_extension(path) is Some,
    ensures
        path == random_route_prefix() + random_route_extension(path)->0,
        allowed_file_extension(ascii_lower(random_route_extension(path)->0)),
        !random_route_extension(path)->0.contains('/'),
{
    assert(path =~= path.subrange(0, 8) + path.subrange(8, path.len() as int));
}

/// Every `/random/{extension}` path for a served extension is routed to a random file of
/// that extension, and no other route takes it.
pub proof fn law_random_route_is_routed(path: Seq<char>)
    requires
        random_route_extension(path) is Some,
    ensures
        route_of(path) == Route::RandomFile,
{
    assert(path.len() > 8);
    assert(path.subrange(0, 8) == random_route_prefix());
    assert(path[7] == '/');
}

proof fn lemma_trim_lower_commute(s: Seq<char>)
    ensures
        trim_start(ascii_lower(s), '.') == ascii_lower(trim_start(s, '.')),
    decreases s.len(),
{
    if s.len() > 0 {
        assert(ascii_lower(s)[0] == ascii_lower_char(s[0]));
        assert(ascii_lower(s).drop_first() =~= ascii_lower(s.drop_first()));
        if s[0] == '.' {
            lemma_trim_lower_commute(s.drop_first());
        } else {
            assert(ascii_lower(s)[0] != '.');
        }
    }
}

/// Asking a key for an extension does not depend on leading dots or on the letter case of
/// the request.
pub proof fn law_extension_request_ignores_dots_and_case(k: KeyView, e: Seq<char>)
    ensures
        key_has_extension(k, seq!['.'] + e) == key_has_extension(k, e),
        key_has_extension(k, ascii_lower(e)) == key_has_extension(k, e),
{
    assert((seq!['.'] + e).drop_first() =~= e);
    lemma_trim_lower_commute(e);
    lemma_ascii_lower_idempotent(trim_start(e, '.'));
}

/// Whether an extension is served does not depend on its letter case.
pub proof fn law_served_extension_ignores_case(e: Seq<char>)
    ensures
        allowed_file_extension(ascii_lower(ascii_lower(e))) == allowed_file_extension(ascii_lower(e)),
{
    lemma_ascii_lower_idempotent(e);
}

/// Every image extension is a served file extension; the only other one is "pdf".
pub proof fn law_image_extensions_are_served()
    ensures
        forall|i: int|
            0 <= i < 5 ==> exists|j: int|
                0 <= j < 6 && #[trigger] ALLOWED_FILE_EXTENSIONS@[j] == #[trigger] ALLOWED_IMAGE_EXTENSIONS@[i],
        ALLOWED_FILE_EXTENSIONS@[5]@ == seq!['p', 'd', 'f'],
{
    reveal_strlit("pdf");
    assert forall|i: int| 0 <= i < 5 implies exists|j: int|
        0 <= j < 6 && #[trigger] ALLOWED_FILE_EXTENSIONS@[j] == #[trigger] ALLOWED_IMAGE_EXTENSIONS@[i] by {
        assert(ALLOWED_FILE_EXTENSIONS@[i] == ALLOWED_IMAGE_EXTENSIONS@[i]);
    }
}

/// The current index after `k` `/sequential` requests that started from `start`, the
/// cache holding `n` files throughout: each request moves it as `sequential_pick` says.
pub open spec fn sequential_index(start: int, k: nat, n: int) -> int
    decreases k,
{
    if k == 0 {
        start
    } else {
        (sequential_index(start, (k - 1) as nat, n) % n + 1) % n
    }
}

/// The `k`-th request of such a run serves position `(start % n + k) % n`.
pub proof fn lemma_sequential_position(start: int, k: nat, n: int)
    requires
        n > 0,
        start >= 0,
    ensures
        sequential_index(start, k, n) >= 0,
        sequential_index(start, k, n) % n == (start % n + k) % n,
    decreases k,
{
    if k > 0 {
        lemma_sequential_position(start, (k - 1) as nat, n);
        let prev = sequential_index(start, (k - 1) as nat, n);
        let a = start % n + (k - 1);
        lemma_mod_pos_bound(prev, n);
        lemma_mod_pos_bound(prev % n + 1, n);
        lemma_mod_twice(prev % n + 1, n);
        lemma_add_mod_noop_right(1, a, n);
        assert(start % n + k == 1 + a);
    } else {
        lemma_mod_pos_bound(start, n);
        lemma_mod_twice(start, n);
    }
}

/// Over `n` consecutive `/sequential` requests with `n` files held, every position of the
/// key list is served exactly once: two different requests of the run serve different
/// positions, and each position is served by one of them.
pub proof fn law_sequential_serves_each_position_once(start: nat, n: nat, a: nat, b: nat, p: nat)
    requires
        n > 0,
        a < b < n,
        p < n,
    ensures
        sequential_index(start as int, a, n as int) % (n as int) != sequential_index(
            start as int,
            b,
            n as int,
        ) % (n as int),
        exists|k: nat| k < n && #[trigger] sequential_index(start as int, k, n as int) % (n as int) == p,
{
    let m = n as int;
    let s = start as int % m;
    lemma_mod_pos_bound(start as int, m);
    lemma_sequential_position(start as int, a, m);
    lemma_sequential_position(start as int, b, m);
    lemma_mod_equivalence(s + b, s + a, m);
    lemma_small_mod((b - a) as nat, n);
    assert((s + b) - (s + a) == b - a);
    let k: nat = if p >= s { (p - s) as nat } else { (p - s + m) as nat };
    lemma_sequential_position(start as int, k, m);
    if p >= s {
        lemma_small_mod(p, n);
        assert(s + k == p);
    } else {
        assert(s + k == m + p);
        lemma_mod_add_multiples_vanish(p as int, m);
        lemma_small_mod(p, n);
    }
    assert(sequential_index(start as int, k, m) % m == p);
}

/// `/random/` followed by `e` asks for the extension `e` exactly when `e` is not empty,
/// holds no separator and is a served extension in any letter case; such a path is routed
/// to a random file of that extension.
pub proof fn law_random_route_takes_served_extensions(e: Seq<char>)
    ensures
        random_route_extension(seq!['/', 'r', 'a', 'n', 'd', 'o', 'm', '/'] + e) is Some <==> (e.len() > 0
            && !e.contains('/') && allowed_file_extension(ascii_lower(e))),
        e.len() > 0 && !e.contains('/') && allowed_file_extension(ascii_lower(e)) ==> random_route_extension(
            seq!['/', 'r', 'a', 'n', 'd', 'o', 'm', '/'] + e,
        ) == Some(e),
        e.len() > 0 && !e.contains('/') && allowed_file_extension(ascii_lower(e)) ==> route_of(
            seq!['/', 'r', 'a', 'n', 'd', 'o', 'm', '/'] + e,
        ) == Route::RandomFile,
{
    let p = seq!['/', 'r', 'a', 'n', 'd', 'o', 'm', '/'] + e;
    assert(p.subrange(0, 8) =~= random_route_prefix());
    assert(p.subrange(8, p.len() as int) =~= e);
    if random_route_extension(p) is Some {
        law_random_route_is_routed(p);
    }
}

/// Every entry of `ALLOWED_FILE_EXTENSIONS` can be asked for under `/random/`, and gives
/// back that entry.
pub proof fn law_random_route_takes_each_listed_extension()
    ensures
        forall|i: int|
            0 <= i < 6 ==> random_route_extension(
                seq!['/', 'r', 'a', 'n', 'd', 'o', 'm', '/'] + #[trigger] ALLOWED_FILE_EXTENSIONS@[i]@,
            ) == Some(ALLOWED_FILE_EXTENSIONS@[i]@),
{
    lemma_allowed_file_extensions();
    assert forall|i: int| 0 <= i < 6 implies random_route_extension(
        seq!['/', 'r', 'a', 'n', 'd', 'o', 'm', '/'] + #[trigger] ALLOWED_FILE_EXTENSIONS@[i]@,
    ) == Some(ALLOWED_FILE_EXTENSIONS@[i]@) by {
        let e = ALLOWED_FILE_EXTENSIONS@[i]@;
        assert(allowed_file_extension(e));
        assert(ascii_lower(e) =~= e) by {
            if e == seq!['j', 'p', 'g'] {
            } else if e == seq!['j', 'p', 'e', 'g'] {
            } else if e == seq!['p', 'n', 'g'] {
            } else if e == seq!['w', 'e', 'b', 'p'] {
            } else if e == seq!['g', 'i', 'f'] {
            } else {
            }
        }
        assert(!e.contains('/')) by {
            if e.contains('/') {
                let k = choose|k: int| 0 <= k < e.len() && e[k] == '/';
                assert(e[k] == ascii_lower(e)[k]);
            }
        }
        law_random_route_takes_served_extensions(e);
    }
}

/// The file name `base.ext` in a directory `dir` (empty, or ending with a separator) has
/// the extension `ext` whenever `ext` holds no dot or separator and `base` is not empty and
/// holds no separator, whatever dots or other characters `base` and `dir` hold; and the
/// path is served exactly when `ext`, in any letter case, is a served extension.
pub proof fn law_extension_follows_last_dot(dir: Seq<char>, base: Seq<char>, ext: Seq<char>)
    requires
        dir.len() == 0 || dir.last() == '/',
        base.len() > 0,
        !base.contains('/'),
        ext.len() > 0,
        !ext.contains('/'),
        !ext.contains('.'),
    ensures
        path_extension(dir + base + seq!['.'] + ext) == Some(ext),
        served_path(dir + base + seq!['.'] + ext) == allowed_file_extension(ascii_lower(ext)),
{
    let name = base + seq!['.'] + ext;
    let path = dir + name;
    assert(dir + base + seq!['.'] + ext =~= path);
    let b = base.len() as int;
    assert forall|i: int| 0 <= i < name.len() implies name[i] != '/' by {
        if i < b {
            assert(name[i] == base[i]);
        } else if i > b {
            assert(name[i] == ext[i - b - 1]);
        }
    }
    assert forall|i: int| b + 1 <= i < name.len() implies name[i] != '.' by {
        assert(name[i] == ext[i - b - 1]);
    }
    // the path does not end with a separator or a dot segment
    assert(path.last() == ext.last());
    assert(path.last() == ext[ext.len() - 1]);
    assert(strip_tail(path) == path);
    // its last segment is the name
    assert forall|i: int| dir.len() <= i < path.len() implies path[i] != '/' by {
        assert(path[i] == name[i - dir.len()]);
    }
    lemma_last_index_prefix(path, '/', dir.len() as int);
    assert(path.subrange(0, dir.len() as int) =~= dir);
    if dir.len() > 0 {
        assert(last_index(dir, '/') == dir.len() - 1);
    }
    assert(last_segment(path) =~= name);
    assert(name != seq!['.', '.']) by {
        if name == seq!['.', '.'] {
            assert(name.len() == 2);
        }
    }
    assert(file_name(path) == Some(name));
    // its extension follows the last dot, the one before `ext`
    lemma_last_index_prefix(name, '.', b + 1);
    assert(name.subrange(0, b + 1).last() == '.');
    assert(last_index(name, '.') == b);
    assert(name.subrange(b + 1, name.len() as int) =~= ext);
    assert(name_extension(name) == Some(ext));
}

/// Whether a path is served depends on its extension alone: two paths with the same
/// extension are served alike, whatever else they hold.
pub proof fn law_served_by_extension_alone(p: Seq<char>, q: Seq<char>)
    requires
        path_extension(p) == path_extension(q),
    ensures
        served_path(p) == served_path(q),
        path_extension(p) is None ==> !served_path(p),
        path_extension(p) matches Some(e) ==> served_path(p) == allowed_file_extension(ascii_lower(e)),
{
}

/// A served file is answered with all of its bytes and its content type, whatever its
/// size; it is refused only for a content type that cannot stand in a header.
pub proof fn law_reply_carries_whole_file(outcome: Result<Reply, ServeError>, v: CacheValue)
    requires
        serves_value(outcome, v),
    ensures
        outcome is Ok <==> header_text(v.content_type@),
        outcome matches Ok(reply) ==> (reply.body@ == v.data@ && reply.body@.len() == v.data@.len()
            && reply.status == 200 && (reply.content_type matches Some(t) && t@ == v.content_type@)),
{
}

/// A key whose file (the file path, or the URL's path) is named `base.ext` has the
/// extension `ext` in lower case, and a request for `ext`, in any letter case and with
/// leading dots, matches it, whatever directory, dots or spaces its path holds otherwise.
pub proof fn law_key_matches_its_file_extension(
    url: Seq<char>,
    dir: Seq<char>,
    base: Seq<char>,
    ext: Seq<char>,
)
    requires
        dir.len() == 0 || dir.last() == '/',
        base.len() > 0,
        !base.contains('/'),
        ext.len() > 0,
        !ext.contains('/'),
        !ext.contains('.'),
    ensures
        key_extension(KeyView::Path(dir + base + seq!['.'] + ext)) == Some(ascii_lower(ext)),
        key_extension(KeyView::Url(url, dir + base + seq!['.'] + ext)) == Some(ascii_lower(ext)),
        key_has_extension(KeyView::Path(dir + base + seq!['.'] + ext), ext),
        key_has_extension(KeyView::Url(url, dir + base + seq!['.'] + ext), ext),
        key_has_extension(KeyView::Path(dir + base + seq!['.'] + ext), seq!['.'] + ext),
        key_has_extension(KeyView::Path(dir + base + seq!['.'] + ext), ascii_lower(ext)),
{
    law_extension_follows_last_dot(dir, base, ext);
    assert(trim_start(ext, '.') == ext) by {
        assert(ext[0] != '.') by {
            if ext[0] == '.' {
                assert(ext.contains('.'));
            }
        }
    }
    lemma_ascii_lower_idempotent(ext);
    law_extension_request_ignores_dots_and_case(KeyView::Path(dir + base + seq!['.'] + ext), ext);
}

} // verus!
