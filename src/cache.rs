use vstd::prelude::*;
use crate::clock::{parse_rfc2822, rfc2822_seconds};
use crate::keys::{encode_key, encode_spec};
use crate::stamp::{
    entry_name, entry_name_spec, parse_entry_name, parse_entry_name_spec,
    lemma_entry_name_round_trip, lemma_entry_name_unique,
};

verus! {

/// The text of each string of a directory listing.
pub open spec fn names_view(names: Seq<String>) -> Seq<Seq<char>> {
    names.map_values(|s: String| s@)
}

/// An entry that is still fresh at `now`.
pub open spec fn is_live(name: Seq<char>, now: u64) -> bool {
    match parse_entry_name_spec(name) {
        Some(e) => e > now,
        None => false,
    }
}

/// An entry whose expiration has come at `now`: it is to be deleted.
pub open spec fn is_expired(name: Seq<char>, now: u64) -> bool {
    match parse_entry_name_spec(name) {
        Some(e) => e <= now,
        None => false,
    }
}

/// The positions of the expired entries of a listing, in listing order.
pub open spec fn expired_indices(names: Seq<Seq<char>>, now: u64) -> Seq<int>
    decreases names.len(),
{
    if names.len() == 0 {
        Seq::empty()
    } else {
        let prev = expired_indices(names.drop_last(), now);
        if is_expired(names.last(), now) {
            prev.push(names.len() - 1)
        } else {
            prev
        }
    }
}

/// The expiration of an entry name (zero for names that are not entries).
pub open spec fn expiration_of(name: Seq<char>) -> u64 {
    match parse_entry_name_spec(name) {
        Some(e) => e,
        None => 0,
    }
}

/// The position of the fresh entry that expires last; among equals, the first.
pub open spec fn newest_live(names: Seq<Seq<char>>, now: u64) -> Option<int>
    decreases names.len(),
{
    if names.len() == 0 {
        None
    } else {
        let prev = newest_live(names.drop_last(), now);
        let last = names.last();
        if is_live(last, now) && match prev {
            None => true,
            Some(h) => expiration_of(last) > expiration_of(names[h]),
        } {
            Some(names.len() - 1)
        } else {
            prev
        }
    }
}

/// An optional position, as a mathematical integer.
pub open spec fn index_of(o: Option<usize>) -> Option<int> {
    match o {
        Some(h) => Some(h as int),
        None => None,
    }
}

/// What a lookup does with the entries of one key's directory: the entries to
/// delete, and the one whose body is the answer, if any.
pub struct Lookup {
    pub expired: Vec<usize>,
    pub hit: Option<usize>,
}

/// Sweep-on-read: decides, from the file names in a key's directory and the
/// current instant, which entries have expired and which fresh one answers.
pub fn plan_lookup(names: &Vec<String>, now: u64) -> (r: Lookup)
    ensures
        r.expired@.map_values(|i: usize| i as int) == expired_indices(names_view(names@), now),
        index_of(r.hit) == newest_live(names_view(names@), now),
{
    let ghost all = names_view(names@);
    let mut expired: Vec<usize> = Vec::new();
    let mut hit: Option<usize> = None;
    let mut best: u64 = 0;
    let mut i: usize = 0;
    proof {
        assert(all.take(0) =~= Seq::<Seq<char>>::empty());
    }
    while i < names.len()
        invariant
            all == names_view(names@),
            i <= names.len(),
            expired@.map_values(|k: usize| k as int) == expired_indices(all.take(i as int), now),
            index_of(hit) == newest_live(all.take(i as int), now),
            hit matches Some(h) ==> h < i && best == expiration_of(all[h as int]),
        decreases names.len() - i,
    {
        let parsed = parse_entry_name(names[i].as_str());
        proof {
            let t = all.take(i + 1);
            assert(t.drop_last() =~= all.take(i as int));
            assert(t.last() == names@[i as int]@);
            if let Some(h) = hit {
                assert(t[h as int] == all[h as int]);
            }
            assert(expired@.push(i).map_values(|k: usize| k as int) =~= expired@.map_values(|k: usize| k as int).push(i as int));
        }
        match parsed {
            Some(e) => {
                if e <= now {
                    expired.push(i);
                } else {
                    let better = match hit {
                        None => true,
                        Some(_) => e > best,
                    };
                    if better {
                        hit = Some(i);
                        best = e;
                    }
                }
            },
            None => {},
        }
        i = i + 1;
    }
    assert(all.take(names.len() as int) =~= all);
    Lookup { expired, hit }
}

proof fn lemma_newest_live_facts(names: Seq<Seq<char>>, now: u64)
    ensures
        match newest_live(names, now) {
            Some(h) => 0 <= h < names.len() && is_live(names[h], now) && forall|i: int|
                0 <= i < names.len() && is_live(#[trigger] names[i], now) ==> expiration_of(names[i])
                    <= expiration_of(names[h]),
            None => forall|i: int| 0 <= i < names.len() ==> !is_live(#[trigger] names[i], now),
        },
    decreases names.len(),
{
    if names.len() > 0 {
        let p = names.drop_last();
        lemma_newest_live_facts(p, now);
        let n = names.len() - 1;
        assert forall|i: int| 0 <= i < p.len() implies #[trigger] p[i] == names[i] by {}
        match newest_live(names, now) {
            Some(h) => {
                assert forall|i: int|
                    0 <= i < names.len() && is_live(#[trigger] names[i], now) implies expiration_of(
                    names[i],
                ) <= expiration_of(names[h]) by {
                    assert(names.last() == names[n]);
                    let prev = newest_live(p, now);
                    if let Some(ph) = prev {
                        assert(p[ph] == names[ph]);
                    }
                    if i < n {
                        assert(p[i] == names[i]);
                        assert(is_live(p[i], now));
                        assert(prev is Some);
                        let ph = prev->0;
                        assert(expiration_of(p[i]) <= expiration_of(p[ph]));
                        if h == n {
                            assert(expiration_of(names[n]) > expiration_of(names[ph]));
                        } else {
                            assert(h == ph);
                        }
                    } else {
                        if h != n {
                            assert(prev == Some(h));
                            assert(!(is_live(names[n], now) && expiration_of(names[n]) > expiration_of(names[h])));
                        }
                    }
                }
            },
            None => {
                assert forall|i: int| 0 <= i < names.len() implies !is_live(#[trigger] names[i], now) by {
                    if i < n {
                        assert(p[i] == names[i]);
                    }
                }
            },
        }
    }
}

proof fn lemma_expired_indices_facts(names: Seq<Seq<char>>, now: u64, i: int)
    requires
        0 <= i < names.len(),
        is_expired(names[i], now),
    ensures
        expired_indices(names, now).contains(i),
    decreases names.len(),
{
    let p = names.drop_last();
    if i == names.len() - 1 {
        assert(expired_indices(names, now).last() == i);
    } else {
        assert(p[i] == names[i]);
        lemma_expired_indices_facts(p, now, i);
        let k = choose|k: int| 0 <= k < expired_indices(p, now).len() && expired_indices(p, now)[k] == i;
        assert(expired_indices(names, now)[k] == i);
    }
}

/// The cache on disk: for each directory, its files and their contents.
pub open spec fn dir_files(
    store: Map<Seq<char>, Map<Seq<char>, Seq<char>>>,
    key: Seq<char>,
) -> Map<Seq<char>, Seq<char>> {
    if store.contains_key(encode_spec(key)) {
        store[encode_spec(key)]
    } else {
        Map::empty()
    }
}

/// `put(key, e, body)`: the body is written to the entry of `e` in the key's directory.
pub open spec fn put_spec(
    store: Map<Seq<char>, Map<Seq<char>, Seq<char>>>,
    key: Seq<char>,
    e: u64,
    body: Seq<char>,
) -> Map<Seq<char>, Map<Seq<char>, Seq<char>>> {
    store.insert(encode_spec(key), dir_files(store, key).insert(entry_name_spec(e), body))
}

/// A fresh entry of `files` that no fresh entry outlasts.
pub open spec fn is_newest(files: Set<Seq<char>>, n: Seq<char>, now: u64) -> bool {
    files.contains(n) && is_live(n, now) && forall|m: Seq<char>|
        files.contains(m) && is_live(m, now) ==> expiration_of(m) <= expiration_of(n)
}

/// The entry a lookup answers with: the fresh one that expires last.
pub open spec fn newest_name(files: Set<Seq<char>>, now: u64) -> Option<Seq<char>> {
    if exists|n: Seq<char>| is_newest(files, n, now) {
        Some(choose|n: Seq<char>| is_newest(files, n, now))
    } else {
        None
    }
}

/// `get(key)`: the body of the key's newest fresh entry, if it has one.
pub open spec fn get_spec(store: Map<Seq<char>, Map<Seq<char>, Seq<char>>>, key: Seq<char>, now: u64) -> Option<
    Seq<char>,
> {
    let files = dir_files(store, key);
    match newest_name(files.dom(), now) {
        Some(n) => Some(files[n]),
        None => None,
    }
}

/// The sweep of a lookup: the key's expired entries are deleted.
pub open spec fn sweep_spec(
    store: Map<Seq<char>, Map<Seq<char>, Seq<char>>>,
    key: Seq<char>,
    now: u64,
) -> Map<Seq<char>, Map<Seq<char>, Seq<char>>> {
    let files = dir_files(store, key);
    store.insert(encode_spec(key), files.restrict(files.dom().filter(|n: Seq<char>| !is_expired(n, now))))
}

proof fn lemma_newest_is_unique(files: Set<Seq<char>>, a: Seq<char>, b: Seq<char>, now: u64)
    requires
        is_newest(files, a, now),
        is_newest(files, b, now),
    ensures
        a == b,
{
    lemma_entry_name_unique(a);
    lemma_entry_name_unique(b);
}

/// `put(K, E, B)` with `E` in the future, then `get(K)`: the answer is `B`,
/// unless the directory already held a fresh entry that expires later.
pub proof fn lemma_put_then_get(
    store: Map<Seq<char>, Map<Seq<char>, Seq<char>>>,
    key: Seq<char>,
    e: u64,
    body: Seq<char>,
    now: u64,
)
    requires
        e > now,
        forall|m: Seq<char>|
            dir_files(store, key).contains_key(m) && is_live(m, now) ==> expiration_of(m) <= e,
    ensures
        get_spec(put_spec(store, key, e, body), key, now) == Some(body),
{
    let after = put_spec(store, key, e, body);
    let files = dir_files(after, key);
    let name = entry_name_spec(e);
    lemma_entry_name_round_trip(e);
    assert(files == dir_files(store, key).insert(name, body));
    assert(is_newest(files.dom(), name, now));
    let c = newest_name(files.dom(), now)->0;
    lemma_newest_is_unique(files.dom(), c, name, now);
}

/// `put(K, E, B)` with `E` past, into a directory without fresh entries: the
/// next `get(K)` answers nothing, and its sweep deletes the entry.
pub proof fn lemma_put_expired_then_get(
    store: Map<Seq<char>, Map<Seq<char>, Seq<char>>>,
    key: Seq<char>,
    e: u64,
    body: Seq<char>,
    now: u64,
)
    requires
        e <= now,
        forall|m: Seq<char>| dir_files(store, key).contains_key(m) ==> !is_live(m, now),
    ensures
        get_spec(put_spec(store, key, e, body), key, now) is None,
        !dir_files(sweep_spec(put_spec(store, key, e, body), key, now), key).contains_key(
            entry_name_spec(e),
        ),
{
    let after = put_spec(store, key, e, body);
    let files = dir_files(after, key);
    lemma_entry_name_round_trip(e);
    assert(files == dir_files(store, key).insert(entry_name_spec(e), body));
    assert(!exists|n: Seq<char>| is_newest(files.dom(), n, now));
    assert(dir_files(sweep_spec(after, key, now), key) == files.restrict(
        files.dom().filter(|n: Seq<char>| !is_expired(n, now)),
    ));
}

/// After the whole cache is removed, `get(K)` answers nothing for every key.
pub proof fn lemma_purged_cache_misses(key: Seq<char>, now: u64)
    ensures
        get_spec(Map::empty(), key, now) is None,
{
    assert(!exists|n: Seq<char>| is_newest(Map::<Seq<char>, Seq<char>>::empty().dom(), n, now));
}

proof fn lemma_expired_indices_sound(names: Seq<Seq<char>>, now: u64)
    ensures
        forall|k: int|
            0 <= k < expired_indices(names, now).len() ==> 0 <= #[trigger] expired_indices(names, now)[k]
                < names.len() && is_expired(names[expired_indices(names, now)[k]], now),
    decreases names.len(),
{
    if names.len() > 0 {
        let p = names.drop_last();
        lemma_expired_indices_sound(p, now);
        assert forall|k: int|
            0 <= k < expired_indices(names, now).len() implies 0 <= #[trigger] expired_indices(names, now)[k]
                < names.len() && is_expired(names[expired_indices(names, now)[k]], now) by {
            if k < expired_indices(p, now).len() {
                let i = expired_indices(p, now)[k];
                assert(expired_indices(names, now)[k] == i);
                assert(p[i] == names[i]);
            }
        }
    }
}

/// Planning a lookup over any listing of a directory does what `get` does: the
/// entry it answers with is the model's newest fresh entry, and the entries it
/// deletes are exactly the expired ones.
pub proof fn lemma_plan_matches_store(names: Seq<Seq<char>>, files: Set<Seq<char>>, now: u64)
    requires
        forall|n: Seq<char>| files.contains(n) <==> names.contains(n),
    ensures
        match newest_live(names, now) {
            Some(h) => newest_name(files, now) == Some(names[h]),
            None => newest_name(files, now) is None,
        },
        forall|i: int|
            0 <= i < names.len() ==> (expired_indices(names, now).contains(i) <==> is_expired(
                #[trigger] names[i],
                now,
            )),
{
    lemma_expired_indices_sound(names, now);
    assert forall|i: int| 0 <= i < names.len() implies (expired_indices(names, now).contains(i) <==> is_expired(
        #[trigger] names[i],
        now,
    )) by {
        if is_expired(names[i], now) {
            lemma_expired_indices_facts(names, now, i);
        }
    }
    lemma_newest_live_facts(names, now);
    match newest_live(names, now) {
        Some(h) => {
            assert(names.contains(names[h]));
            assert forall|m: Seq<char>| files.contains(m) && is_live(m, now) implies expiration_of(m)
                <= expiration_of(names[h]) by {
                let k = choose|k: int| 0 <= k < names.len() && names[k] == m;
                assert(is_live(names[k], now));
            }
            assert(is_newest(files, names[h], now));
            let c = newest_name(files, now)->0;
            lemma_newest_is_unique(files, c, names[h], now);
        },
        None => {
            assert forall|n: Seq<char>| !is_newest(files, n, now) by {
                if files.contains(n) {
                    let k = choose|k: int| 0 <= k < names.len() && names[k] == n;
                    assert(!is_live(names[k], now));
                }
            }
        },
    }
}

/// Where a cached response lives: the key's directory and the entry's file.
pub struct CachePath {
    pub dir: String,
    pub file: String,
}

/// An expiration in seconds since the epoch, with instants before the epoch
/// read as the epoch itself (they are past either way).
pub open spec fn clamp_expiration(secs: int) -> u64 {
    if secs < 0 {
        0
    } else if secs > u64::MAX {
        u64::MAX
    } else {
        secs as u64
    }
}

/// The place of the entry for `key` that expires at `expiration`.
pub fn entry_path(key: &str, expiration: i64) -> (r: CachePath)
    ensures
        r.dir@ == encode_spec(key@),
        r.file@ == entry_name_spec(clamp_expiration(expiration as int)),
{
    let e: u64 = if expiration < 0 {
        0
    } else {
        expiration as u64
    };
    CachePath { dir: encode_key(key), file: entry_name(e) }
}

/// The directory that holds the entries of `key`.
pub fn key_dir(key: &str) -> (r: String)
    ensures
        r@ == encode_spec(key@),
{
    encode_key(key)
}

/// Where a response fetched for `key` is stored, given the text of its
/// `expires` header; `None` (nothing is cached) when the header is missing
/// (empty) or cannot be read as a date.
pub fn store_location(key: &str, expires: &str) -> (r: Option<CachePath>)
    ensures
        match r {
            Some(p) => rfc2822_seconds(expires@) matches Some(secs) && p.dir@ == encode_spec(key@)
                && p.file@ == entry_name_spec(clamp_expiration(secs)),
            None => rfc2822_seconds(expires@) is None,
        },
        expires@.len() == 0 ==> r is None,
{
    match parse_rfc2822(expires) {
        Some(secs) => Some(entry_path(key, secs)),
        None => None,
    }
}

} // verus!
