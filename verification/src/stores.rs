//! Keyed collections.
//!
//! Hash maps and hash sets keyed by text come from `rustc-hash`; this module
//! states what their operations do in terms of the texts of the keys. The order
//! in which such a collection is walked is left open.

use rustc_hash::FxBuildHasher;
use rustc_hash::FxHashMap;
use rustc_hash::FxHashSet;
use std::collections::HashMap;
use vstd::prelude::*;

verus! {

/// The hasher of `rustc-hash`, opaque.
#[verifier::external_type_specification]
#[verifier::external_body]
pub struct ExFxBuildHasher(rustc_hash::FxBuildHasher);

/// What a map keyed by `String` holds, keyed by the text of each key.
pub open spec fn by_text<V>(m: Map<String, V>) -> Map<Seq<char>, V> {
    Map::new(
        |k: Seq<char>| exists|s: String| m.contains_key(s) && #[trigger] s@ == k,
        |k: Seq<char>| m[choose|s: String| m.contains_key(s) && #[trigger] s@ == k],
    )
}

/// The texts that a set of `String` holds.
pub open spec fn texts(m: Set<String>) -> Set<Seq<char>> {
    Set::new(|k: Seq<char>| exists|s: String| m.contains(s) && #[trigger] s@ == k)
}

/// What a text-keyed hash map holds.
pub open spec fn entries<V>(m: FxHashMap<String, V>) -> Map<Seq<char>, V> {
    by_text(m@)
}

/// What a hash set of texts holds.
pub open spec fn members(m: FxHashSet<String>) -> Set<Seq<char>> {
    texts(m@)
}

/// `FxHashMap::default`: the new map holds nothing.
#[verifier::external_body]
pub(crate) fn map_new<V>() -> (r: FxHashMap<String, V>)
    ensures
        (entries(r) == Map::<Seq<char>, V>::empty()),
{
    FxHashMap::default()
}

/// `HashMap::insert`: the key now holds the value; what it held before comes
/// back.
#[verifier::external_body]
pub(crate) fn map_insert<V>(m: &mut FxHashMap<String, V>, key: String, value: V) -> (r: Option<V>)
    ensures
        entries(*final(m)) == entries(*old(m)).insert(key@, value),
        r == (if entries(*old(m)).contains_key(key@) { Some(entries(*old(m))[key@]) } else { None }),
{
    m.insert(key, value)
}

/// `HashMap::remove`: the key is gone; what it held comes back.
#[verifier::external_body]
pub(crate) fn map_remove<V>(m: &mut FxHashMap<String, V>, key: &str) -> (r: Option<V>)
    ensures
        entries(*final(m)) == entries(*old(m)).remove(key@),
        r == (if entries(*old(m)).contains_key(key@) { Some(entries(*old(m))[key@]) } else { None }),
{
    m.remove(key)
}

/// `HashMap::get`: what the key holds.
#[verifier::external_body]
pub(crate) fn map_get<'a, V>(m: &'a FxHashMap<String, V>, key: &str) -> (r: Option<&'a V>)
    ensures
        match r {
            Some(v) => entries(*m).contains_key(key@) && entries(*m)[key@] == *v,
            None => !entries(*m).contains_key(key@),
        },
{
    m.get(key)
}

/// `HashMap::get_mut`: the value under the key, to be changed in place.
#[verifier::external_body]
pub(crate) fn map_get_mut<'a, V>(m: &'a mut FxHashMap<String, V>, key: &str) -> (r: Option<&'a mut V>)
    ensures
        match r {
            Some(v) => {
                &&& entries(*old(m)).contains_key(key@)
                &&& *v == entries(*old(m))[key@]
                &&& entries(*final(m)) == entries(*old(m)).insert(key@, *final(v))
            },
            None => {
                &&& !entries(*old(m)).contains_key(key@)
                &&& *final(m) == *old(m)
            },
        },
{
    m.get_mut(key)
}

/// `HashMap::keys`: each key once, in an order left open.
#[verifier::external_body]
pub(crate) fn map_keys<V>(m: &FxHashMap<String, V>) -> (r: Vec<String>)
    ensures
        r@.map_values(|s: String| s@).no_duplicates(),
        forall|k: Seq<char>| entries(*m).contains_key(k) == r@.map_values(|s: String| s@).contains(k),
{
    m.keys().cloned().collect()
}

/// `FxHashSet::default`: the new set holds nothing.
#[verifier::external_body]
pub(crate) fn set_new() -> (r: FxHashSet<String>)
    ensures
        members(r) == Set::<Seq<char>>::empty(),
{
    FxHashSet::default()
}

/// `HashSet::insert`: the text is in the set; the result says whether it is new.
#[verifier::external_body]
pub(crate) fn set_insert(m: &mut FxHashSet<String>, item: String) -> (r: bool)
    ensures
        members(*final(m)) == members(*old(m)).insert(item@),
        r == !members(*old(m)).contains(item@),
{
    m.insert(item)
}

/// `HashSet::remove`: the text is not in the set; the result says whether it was.
#[verifier::external_body]
pub(crate) fn set_remove(m: &mut FxHashSet<String>, item: &str) -> (r: bool)
    ensures
        members(*final(m)) == members(*old(m)).remove(item@),
        r == members(*old(m)).contains(item@),
{
    m.remove(item)
}

/// `HashSet::contains`.
#[verifier::external_body]
pub(crate) fn set_contains(m: &FxHashSet<String>, item: &str) -> (r: bool)
    ensures
        r == members(*m).contains(item@),
{
    m.contains(item)
}

/// `HashSet::is_empty`.
#[verifier::external_body]
pub(crate) fn set_is_empty(m: &FxHashSet<String>) -> (r: bool)
    ensures
        r == (members(*m) == Set::<Seq<char>>::empty()),
{
    m.is_empty()
}

/// A map from texts to texts, copied.
pub fn copy_texts(m: &FxHashMap<String, String>) -> (r: FxHashMap<String, String>)
    ensures
        entries(r).map_values(|h: String| h@) == entries(*m).map_values(|h: String| h@),
{
    let keys: Vec<String> = map_keys(m);
    let ghost names = keys@.map_values(|s: String| s@);
    let ghost from = entries(*m);
    let mut r: FxHashMap<String, String> = map_new();
    let mut i: usize = 0;
    while i < keys.len()
        invariant
            i <= keys@.len(),
            from == entries(*m),
            names == keys@.map_values(|s: String| s@),
            forall|k: Seq<char>| from.contains_key(k) == names.contains(k),
            forall|k: Seq<char>| #[trigger]
                entries(r).contains_key(k) == names.take(i as int).contains(k),
            forall|k: Seq<char>| #[trigger] entries(r).contains_key(k) ==> from.contains_key(k)
                && entries(r)[k]@ == from[k]@,
        decreases keys@.len() - i,
    {
        proof {
            assert(names[i as int] == keys@[i as int]@);
            assert(names.contains(names[i as int]));
            assert forall|k: Seq<char>| names.take(i + 1).contains(k) == (names.take(i as int).contains(k) || k
                == names[i as int]) by {
                let (a, b) = (names.take(i as int), names.take(i + 1));
                assert(b[i as int] == names[i as int]);
                if a.contains(k) {
                    let j = choose|j: int| 0 <= j < a.len() && a[j] == k;
                    assert(b[j] == k);
                }
                if b.contains(k) && k != names[i as int] {
                    let j = choose|j: int| 0 <= j < b.len() && b[j] == k;
                    assert(a[j] == k);
                }
            }
        }
        if let Some(h) = map_get(m, keys[i].as_str()) {
            let _ = map_insert(&mut r, keys[i].clone(), h.clone());
        }
        i = i + 1;
    }
    proof {
        assert(names.take(i as int) =~= names);
        assert(entries(r).map_values(|h: String| h@) =~= from.map_values(|h: String| h@));
    }
    r
}

/// The keys of a map keyed by number, each once, in an order left open.
pub fn id_keys<V>(m: &HashMap<u128, V>) -> (r: Vec<u128>)
    ensures
        r@.no_duplicates(),
        r@.to_set() == m@.dom(),
        r@.len() == m@.dom().len(),
        forall|i: int| 0 <= i < r@.len() ==> m@.contains_key(#[trigger] r@[i]),
{
    let mut r: Vec<u128> = Vec::new();
    for k in it: m.keys()
        invariant
            it.seq().no_duplicates(),
            it.seq().unref().to_set() == m@.dom(),
            it.seq().len() == m@.dom().len(),
            r@ == it.seq().unref().take(it.index()),
            it.index() == it.seq().len() ==> r@ =~= it.seq().unref(),
    {
        r.push(*k);
        assert(r@ =~= it.seq().unref().take(it.index() + 1));
    }
    proof {
        assert forall|i: int| 0 <= i < r@.len() implies m@.contains_key(#[trigger] r@[i]) by {
            assert(r@.to_set().contains(r@[i]));
        }
    }
    r
}

/// Counting the members of a set by walking a list of them.
pub proof fn lemma_count<A>(s: Seq<A>, p: spec_fn(A) -> bool)
    requires
        s.no_duplicates(),
    ensures
        s.to_set().filter(p).len() == s.filter(p).len(),
        s.to_set().filter(p).finite(),
    decreases s.len(),
{
    reveal(Seq::filter);
    if s.len() == 0 {
        assert(s.to_set().filter(p) =~= Set::<A>::empty());
    } else {
        let rest = s.drop_last();
        lemma_count(rest, p);
        assert(!rest.to_set().contains(s.last()));
        if p(s.last()) {
            assert(s.to_set().filter(p) =~= rest.to_set().filter(p).insert(s.last())) by {
                assert forall|a: A| s.to_set().contains(a) implies rest.to_set().contains(a) || a == s.last() by {
                    let i = choose|i: int| 0 <= i < s.len() && s[i] == a;
                    if i < rest.len() {
                        assert(rest[i] == a);
                    }
                }
                assert(s[s.len() - 1] == s.last());
                assert forall|a: A| rest.to_set().contains(a) implies s.to_set().contains(a) by {
                    let i = choose|i: int| 0 <= i < rest.len() && rest[i] == a;
                    assert(s[i] == a);
                }
            }
        } else {
            assert(s.to_set().filter(p) =~= rest.to_set().filter(p)) by {
                assert forall|a: A| s.to_set().contains(a) && p(a) implies rest.to_set().contains(a) by {
                    let i = choose|i: int| 0 <= i < s.len() && s[i] == a;
                    assert(rest[i] == a);
                }
                assert forall|a: A| rest.to_set().contains(a) implies s.to_set().contains(a) by {
                    let i = choose|i: int| 0 <= i < rest.len() && rest[i] == a;
                    assert(s[i] == a);
                }
            }
        }
    }
}

} // verus!
