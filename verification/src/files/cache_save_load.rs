//! The cache of image counts: for the key of a query, the time its images
//! were counted and how many there were, as `[timestamp, count]`.

use vstd::prelude::*;

use crate::bytes::{
    bytes_le, bytes_le_exec, lemma_le_reflexive, lemma_le_total, lemma_le_transitive,
};
use std::collections::{BTreeMap, HashMap};
use vstd::utf8::encode_utf8;

verus! {

/// An error of `serde_json`: the text is not JSON, or not a JSON object of
/// `[timestamp, count]` pairs.
#[verifier::external_type_specification]
#[verifier::external_body]
pub struct ExJsonError(serde_json::Error);

/// Why a cache file could not be read.
#[derive(Debug)]
pub enum CacheError {
    Json(serde_json::Error),
}

/// The JSON text `serde_json::to_string` writes for the map, an object
/// with the keys in byte order.
pub uninterp spec fn counts_json(m: Map<Seq<char>, [u64; 2]>) -> Seq<char>;

/// The map `serde_json::from_slice` reads from the bytes as an object of
/// `[timestamp, count]` pairs (a later key in place of an earlier equal
/// one), or `None` where it fails.
pub uninterp spec fn counts_from_json(data: Seq<u8>) -> Option<Map<Seq<char>, [u64; 2]>>;

/// Calls `serde_json::to_string` on the entries as a `BTreeMap` of `&str`
/// keys. The entries come with each key once and in the order of `str`
/// (the `requires`), so the map holds them one for one and in the same
/// order. The text is named `counts_json` of the map of the entries. That
/// it succeeds is what the documentation says: serialising fails only
/// where an implementation of `Serialize` fails or a map has keys that are
/// not strings, and neither holds of strings and integers. That its UTF-8
/// bytes read back as the same map is what the source shows: each key is
/// written as a JSON string with every character that needs it escaped
/// (`format_escaped_str`), each number in decimal, and `from_slice` undoes
/// the escapes and reads the numbers exactly.
#[verifier::external_body]
fn counts_to_json(entries: &Vec<(String, [u64; 2])>) -> (r: Result<String, serde_json::Error>)
    requires
        keys_unique(entry_views(entries@)),
        keys_sorted(entry_views(entries@)),
    ensures
        r is Ok,
        r matches Ok(s) ==> s@ == counts_json(entry_map(entry_views(entries@))),
        r matches Ok(s) ==> counts_from_json(encode_utf8(s@)) == Some(
            entry_map(entry_views(entries@)),
        ),
{
    let map: BTreeMap<&str, [u64; 2]> = entries.iter().map(|e| (e.0.as_str(), e.1)).collect();
    serde_json::to_string(&map)
}

/// Calls `serde_json::from_slice` to read the bytes as a
/// `HashMap<String, [u64; 2]>`, whose entries are handed out. The map read
/// is named `counts_from_json` of the bytes; that its keys are unique is
/// what a `HashMap` holds.
#[verifier::external_body]
fn counts_from_json_bytes(data: &[u8]) -> (r: Result<Vec<(String, [u64; 2])>, serde_json::Error>)
    ensures
        match r {
            Ok(v) => keys_unique(entry_views(v@)) && counts_from_json(data@) == Some(
                entry_map(entry_views(v@)),
            ),
            Err(_) => counts_from_json(data@) is None,
        },
{
    match serde_json::from_slice::<HashMap<String, [u64; 2]>>(data) {
        Ok(map) => Ok(map.into_iter().collect()),
        Err(e) => Err(e),
    }
}

/// The entries laid out as a map; where a key occurs twice, the later entry
/// wins.
pub open spec fn entry_map(s: Seq<(Seq<char>, [u64; 2])>) -> Map<Seq<char>, [u64; 2]>
    decreases s.len(),
{
    if s.len() == 0 {
        Map::empty()
    } else {
        entry_map(s.drop_last()).insert(s.last().0, s.last().1)
    }
}

/// The keys come in the order of their UTF-8 bytes, the order of `str`.
pub open spec fn keys_sorted(s: Seq<(Seq<char>, [u64; 2])>) -> bool {
    forall|i: int, j: int|
        0 <= i < j < s.len() ==> bytes_le(
            encode_utf8((#[trigger] s[i]).0),
            encode_utf8((#[trigger] s[j]).0),
        )
}

/// No key occurs twice.
pub open spec fn keys_unique(s: Seq<(Seq<char>, [u64; 2])>) -> bool {
    forall|i: int, j: int| 0 <= i < j < s.len() ==> (#[trigger] s[i]).0 != (#[trigger] s[j]).0
}

/// The entries with their keys taken as characters.
pub open spec fn entry_views(s: Seq<(String, [u64; 2])>) -> Seq<(Seq<char>, [u64; 2])> {
    s.map_values(|e: (String, [u64; 2])| (e.0@, e.1))
}

/// What a lookup of `key` in the map `m` finds.
pub open spec fn lookup(m: Map<Seq<char>, [u64; 2]>, key: Seq<char>) -> Option<[u64; 2]> {
    if m.contains_key(key) {
        Some(m[key])
    } else {
        None
    }
}

proof fn lemma_entry_map_index(s: Seq<(Seq<char>, [u64; 2])>, i: int)
    requires
        keys_unique(s),
        0 <= i < s.len(),
    ensures
        entry_map(s).contains_key(s[i].0),
        entry_map(s)[s[i].0] == s[i].1,
    decreases s.len(),
{
    if i < s.len() - 1 {
        lemma_entry_map_index(s.drop_last(), i);
        assert(s.drop_last()[i] == s[i]);
        assert(s[i].0 != s[s.len() - 1].0);
    }
}

proof fn lemma_entry_map_keys(s: Seq<(Seq<char>, [u64; 2])>, key: Seq<char>)
    ensures
        entry_map(s).contains_key(key) <==> exists|i: int| 0 <= i < s.len() && (#[trigger] s[i]).0
            == key,
    decreases s.len(),
{
    if s.len() > 0 {
        lemma_entry_map_keys(s.drop_last(), key);
        if entry_map(s.drop_last()).contains_key(key) {
            let i = choose|i: int| 0 <= i < s.drop_last().len() && (#[trigger] s.drop_last()[i]).0
                == key;
            assert(s[i] == s.drop_last()[i]);
        }
        if exists|i: int| 0 <= i < s.len() && (#[trigger] s[i]).0 == key {
            let i = choose|i: int| 0 <= i < s.len() && (#[trigger] s[i]).0 == key;
            if i < s.len() - 1 {
                assert(s.drop_last()[i] == s[i]);
            }
        }
    }
}

proof fn lemma_entry_map_len(s: Seq<(Seq<char>, [u64; 2])>)
    requires
        keys_unique(s),
    ensures
        entry_map(s).dom().finite(),
        entry_map(s).dom().len() == s.len(),
    decreases s.len(),
{
    if s.len() > 0 {
        let r = s.drop_last();
        assert(keys_unique(r)) by {
            assert forall|i: int, j: int| 0 <= i < j < r.len() implies (#[trigger] r[i]).0 != (
            #[trigger] r[j]).0 by {
                assert(r[i] == s[i] && r[j] == s[j]);
            }
        }
        lemma_entry_map_len(r);
        lemma_entry_map_keys(r, s.last().0);
        if entry_map(r).contains_key(s.last().0) {
            let i = choose|i: int| 0 <= i < r.len() && (#[trigger] r[i]).0 == s.last().0;
            assert(r[i] == s[i]);
            assert(false);
        }
    }
}

/// Putting an entry with a new key at the place that byte order gives it
/// keeps the keys unique and sorted, and adds the entry to the map.
proof fn lemma_insert_new_key(
    s: Seq<(Seq<char>, [u64; 2])>,
    p: int,
    key: Seq<char>,
    value: [u64; 2],
)
    requires
        keys_unique(s),
        keys_sorted(s),
        0 <= p <= s.len(),
        forall|k: int| 0 <= k < s.len() ==> (#[trigger] s[k]).0 != key,
        forall|k: int| 0 <= k < p ==> bytes_le(encode_utf8((#[trigger] s[k]).0), encode_utf8(key)),
        p < s.len() ==> !bytes_le(encode_utf8(s[p].0), encode_utf8(key)),
    ensures
        keys_unique(s.insert(p, (key, value))),
        keys_sorted(s.insert(p, (key, value))),
        entry_map(s.insert(p, (key, value))) == entry_map(s).insert(key, value),
{
    let t = s.insert(p, (key, value));
    assert forall|i: int, j: int| 0 <= i < j < t.len() implies (#[trigger] t[i]).0 != (
    #[trigger] t[j]).0 by {
        if j < p {
            assert(s[i].0 != s[j].0);
        } else if j == p {
            assert(s[i].0 != key);
        } else if i < p {
            assert(s[i].0 != s[j - 1].0);
        } else if i == p {
            assert(s[j - 1].0 != key);
        } else {
            assert(s[i - 1].0 != s[j - 1].0);
        }
    }
    assert forall|i: int, j: int| 0 <= i < j < t.len() implies bytes_le(
        encode_utf8((#[trigger] t[i]).0),
        encode_utf8((#[trigger] t[j]).0),
    ) by {
        if j < p {
            assert(t[i] == s[i] && t[j] == s[j]);
        } else if j == p {
            assert(t[i] == s[i]);
        } else {
            // `key` comes before the entry at `p`, and so before every later one.
            let kb = encode_utf8(key);
            let pb = encode_utf8(s[p].0);
            lemma_le_total(pb, kb);
            assert(bytes_le(kb, pb));
            let jb = encode_utf8(s[j - 1].0);
            if j - 1 > p {
                assert(bytes_le(pb, jb));
            } else {
                lemma_le_reflexive(pb);
            }
            lemma_le_transitive(kb, pb, jb);
            if i < p {
                lemma_le_transitive(encode_utf8(s[i].0), kb, jb);
            } else if i > p {
                assert(t[i] == s[i - 1]);
            }
        }
    }
    let m = entry_map(s).insert(key, value);
    assert forall|q: Seq<char>| #[trigger] entry_map(t).contains_key(q) <==> m.contains_key(q) by {
        lemma_entry_map_keys(t, q);
        lemma_entry_map_keys(s, q);
        if q == key {
            assert(t[p].0 == q);
        } else {
            if exists|i: int| 0 <= i < s.len() && (#[trigger] s[i]).0 == q {
                let i = choose|i: int| 0 <= i < s.len() && (#[trigger] s[i]).0 == q;
                if i < p {
                    assert(t[i].0 == q);
                } else {
                    assert(t[i + 1].0 == q);
                }
            }
            if exists|i: int| 0 <= i < t.len() && (#[trigger] t[i]).0 == q {
                let i = choose|i: int| 0 <= i < t.len() && (#[trigger] t[i]).0 == q;
                if i < p {
                    assert(s[i].0 == q);
                } else {
                    assert(s[i - 1].0 == q);
                }
            }
        }
    }
    assert forall|q: Seq<char>| #[trigger] entry_map(t).contains_key(q) implies entry_map(t)[q]
        == m[q] by {
        lemma_entry_map_keys(t, q);
        let i = choose|i: int| 0 <= i < t.len() && (#[trigger] t[i]).0 == q;
        lemma_entry_map_index(t, i);
        if i < p {
            assert(s[i] == t[i]);
            lemma_entry_map_index(s, i);
        } else if i > p {
            assert(s[i - 1] == t[i]);
            lemma_entry_map_index(s, i - 1);
        }
    }
    assert(entry_map(t) =~= m);
}

/// A map from query keys to `[timestamp, image count]`.
pub struct ImageCountCache {
    entries: Vec<(String, [u64; 2])>,
}

impl View for ImageCountCache {
    type V = Map<Seq<char>, [u64; 2]>;

    closed spec fn view(&self) -> Map<Seq<char>, [u64; 2]> {
        entry_map(entry_views(self.entries@))
    }
}

impl ImageCountCache {
    /// The entries hold each key once, in byte order.
    #[verifier::type_invariant]
    closed spec fn entries_well_formed(self) -> bool {
        &&& keys_unique(entry_views(self.entries@))
        &&& keys_sorted(entry_views(self.entries@))
    }

    /// The empty cache.
    pub fn new() -> (c: Self)
        ensures
            c@ == Map::<Seq<char>, [u64; 2]>::empty(),
    {
        let c = ImageCountCache { entries: Vec::new() };
        assert(entry_views(c.entries@) =~= Seq::empty());
        c
    }

    /// The number of keys.
    pub fn len(&self) -> (n: usize)
        ensures
            self@.dom().finite(),
            n == self@.dom().len(),
    {
        proof {
            use_type_invariant(self);
            lemma_entry_map_len(entry_views(self.entries@));
        }
        self.entries.len()
    }

    /// What is cached under `key`.
    pub fn get(&self, key: &String) -> (r: Option<[u64; 2]>)
        ensures
            r == lookup(self@, key@),
    {
        proof {
            use_type_invariant(self);
        }
        let ghost s = entry_views(self.entries@);
        let n = self.entries.len();
        for i in 0..n
            invariant
                n == self.entries@.len(),
                s == entry_views(self.entries@),
                keys_unique(s),
                forall|j: int| 0 <= j < i ==> (#[trigger] s[j]).0 != key@,
        {
            assert(s[i as int] == (self.entries@[i as int].0@, self.entries@[i as int].1));
            if self.entries[i].0 == *key {
                proof {
                    lemma_entry_map_index(s, i as int);
                }
                return Some(self.entries[i].1);
            }
        }
        proof {
            lemma_entry_map_keys(s, key@);
        }
        None
    }

    /// Caches `value` under `key`, in place of what was there.
    pub fn insert(&mut self, key: String, value: [u64; 2])
        ensures
            final(self)@ == old(self)@.insert(key@, value),
    {
        proof {
            use_type_invariant(&*self);
        }
        let ghost s = entry_views(self.entries@);
        let n = self.entries.len();
        let mut found: Option<usize> = None;
        for i in 0..n
            invariant
                n == self.entries@.len(),
                s == entry_views(self.entries@),
                keys_unique(s),
                keys_sorted(s),
                match found {
                    Some(k) => k < i && s[k as int].0 == key@,
                    None => forall|j: int| 0 <= j < i ==> (#[trigger] s[j]).0 != key@,
                },
        {
            assert(s[i as int] == (self.entries@[i as int].0@, self.entries@[i as int].1));
            if found.is_none() && self.entries[i].0 == key {
                found = Some(i);
            }
        }
        match found {
            Some(k) => {
                let ghost t = s.update(k as int, (key@, value));
                proof {
                    assert(keys_unique(t)) by {
                        assert forall|i: int, j: int| 0 <= i < j < t.len() implies (
                        #[trigger] t[i]).0 != (#[trigger] t[j]).0 by {
                            assert(s[i].0 != s[j].0);
                        }
                    }
                    assert(keys_sorted(t)) by {
                        assert forall|i: int, j: int| 0 <= i < j < t.len() implies bytes_le(
                            encode_utf8((#[trigger] t[i]).0),
                            encode_utf8((#[trigger] t[j]).0),
                        ) by {
                            assert(t[i].0 == s[i].0 && t[j].0 == s[j].0);
                        }
                    }
                    assert forall|q: Seq<char>| #[trigger] entry_map(t).contains_key(q)
                        <==> entry_map(s).insert(key@, value).contains_key(q) by {
                        lemma_entry_map_keys(t, q);
                        lemma_entry_map_keys(s, q);
                        if q == key@ {
                            assert(t[k as int].0 == q);
                        } else {
                            if exists|i: int| 0 <= i < s.len() && (#[trigger] s[i]).0 == q {
                                let i = choose|i: int| 0 <= i < s.len() && (#[trigger] s[i]).0
                                    == q;
                                assert(t[i].0 == q);
                            }
                            if exists|i: int| 0 <= i < t.len() && (#[trigger] t[i]).0 == q {
                                let i = choose|i: int| 0 <= i < t.len() && (#[trigger] t[i]).0
                                    == q;
                                assert(s[i].0 == q);
                            }
                        }
                    }
                    assert forall|q: Seq<char>| #[trigger] entry_map(t).contains_key(q) implies entry_map(
                        t,
                    )[q] == entry_map(s).insert(key@, value)[q] by {
                        lemma_entry_map_keys(t, q);
                        let i = choose|i: int| 0 <= i < t.len() && (#[trigger] t[i]).0 == q;
                        lemma_entry_map_index(t, i);
                        if i != k {
                            assert(s[i] == t[i]);
                            lemma_entry_map_index(s, i);
                        }
                    }
                    assert(entry_map(t) =~= entry_map(s).insert(key@, value));
                }
                let mut entries: Vec<(String, [u64; 2])> = Vec::new();
                std::mem::swap(&mut entries, &mut self.entries);
                entries.set(k, (key, value));
                proof {
                    assert(entry_views(entries@) =~= t);
                }
                self.entries = entries;
            },
            None => {
                // The new entry goes before the first key that comes after it.
                let mut p: usize = 0;
                while p < n && bytes_le_exec(
                    self.entries[p].0.as_str().as_bytes(),
                    key.as_str().as_bytes(),
                )
                    invariant
                        p <= n,
                        n == self.entries@.len(),
                        s == entry_views(self.entries@),
                        forall|k: int|
                            0 <= k < p ==> bytes_le(
                                encode_utf8((#[trigger] s[k]).0),
                                encode_utf8(key@),
                            ),
                    decreases n - p,
                {
                    assert(s[p as int] == (self.entries@[p as int].0@, self.entries@[p as int].1));
                    p = p + 1;
                }
                proof {
                    if p < n {
                        assert(s[p as int] == (
                            self.entries@[p as int].0@,
                            self.entries@[p as int].1,
                        ));
                    }
                    lemma_insert_new_key(s, p as int, key@, value);
                }
                let ghost t = s.insert(p as int, (key@, value));
                let mut entries: Vec<(String, [u64; 2])> = Vec::new();
                std::mem::swap(&mut entries, &mut self.entries);
                entries.insert(p, (key, value));
                proof {
                    assert(entry_views(entries@) =~= t);
                }
                self.entries = entries;
            },
        }
    }

    /// The cache as JSON text, as the cache file holds it; reading its
    /// bytes back with `from_json` gives this cache again.
    pub fn to_json(&self) -> (s: String)
        ensures
            s@ == counts_json(self@),
            counts_from_json(encode_utf8(s@)) == Some(self@),
    {
        proof {
            use_type_invariant(self);
        }
        match counts_to_json(&self.entries) {
            Ok(s) => s,
            // Not taken: writing the entries as JSON does not fail.
            Err(_) => String::new(),
        }
    }

    /// The cache that the bytes of a cache file hold, or the error that
    /// reading them as JSON gives.
    pub fn from_json(data: &[u8]) -> (r: Result<Self, CacheError>)
        ensures
            match r {
                Ok(c) => counts_from_json(data@) == Some(c@),
                Err(_) => counts_from_json(data@) is None,
            },
    {
        match counts_from_json_bytes(data) {
            Ok(entries) => Ok(Self::from_entries(entries)),
            Err(e) => Err(CacheError::Json(e)),
        }
    }

    /// The cache of the entries, a later entry in place of an earlier one
    /// with the same key.
    pub fn from_entries(entries: Vec<(String, [u64; 2])>) -> (c: Self)
        ensures
            c@ == entry_map(entry_views(entries@)),
    {
        let mut c = Self::new();
        let n = entries.len();
        let ghost all = entry_views(entries@);
        for i in 0..n
            invariant
                n == all.len(),
                all == entry_views(entries@),
                c@ == entry_map(all.take(i as int)),
        {
            let key = entries[i].0.clone();
            proof {
                assert(all.take((i + 1) as int).drop_last() =~= all.take(i as int));
            }
            c.insert(key, entries[i].1);
        }
        proof {
            assert(all.take(n as int) =~= all);
        }
        c
    }
}

/// A count written to the cache is what a later lookup of its key finds,
/// and writing it leaves what other keys find as it was.
pub proof fn lemma_lookup_after_insert(
    m: Map<Seq<char>, [u64; 2]>,
    key: Seq<char>,
    value: [u64; 2],
    other: Seq<char>,
)
    ensures
        lookup(m.insert(key, value), key) == Some(value),
        other != key ==> lookup(m.insert(key, value), other) == lookup(m, other),
{
}

} // verus!
