//! The service definitions in force, by the path of the file each came from.

use crate::config::ServiceConfig;
use dashmap::DashMap;
use std::sync::Arc;
use vstd::prelude::*;

verus! {

/// The concurrent map of `dashmap`, opaque.
#[verifier::external_type_specification]
#[verifier::external_body]
#[verifier::reject_recursive_types(K)]
#[verifier::reject_recursive_types(V)]
#[verifier::reject_recursive_types(S)]
pub struct ExDashMap<K, V, S>(dashmap::DashMap<K, V, S>);

/// A definition and the path of its file.
#[derive(Debug)]
pub struct StoredConfig {
    pub path: String,
    pub config: ServiceConfig,
}

/// The definitions in force, by path.
pub type ConfigStore = DashMap<String, Arc<StoredConfig>>;

/// What a store holds, by the text of each path.
pub uninterp spec fn stored(m: DashMap<String, Arc<StoredConfig>>) -> Map<Seq<char>, Arc<StoredConfig>>;

/// `DashMap::new`: the new store holds nothing.
#[verifier::external_body]
fn empty_store() -> (r: DashMap<String, Arc<StoredConfig>>)
    ensures
        (stored(r) == Map::<Seq<char>, Arc<StoredConfig>>::empty()),
{
    DashMap::new()
}

/// `DashMap::insert`: the path now holds the definition.
#[verifier::external_body]
pub(crate) fn put(m: &mut DashMap<String, Arc<StoredConfig>>, path: String, value: Arc<StoredConfig>)
    ensures
        stored(*final(m)) == stored(*old(m)).insert(path@, value),
{
    let _ = m.insert(path, value);
}

/// `DashMap::remove`: the path is gone; the definition that it held comes back.
#[verifier::external_body]
pub(crate) fn take(m: &mut DashMap<String, Arc<StoredConfig>>, path: &str) -> (r: Option<Arc<StoredConfig>>)
    ensures
        stored(*final(m)) == stored(*old(m)).remove(path@),
        r == (if stored(*old(m)).contains_key(path@) { Some(stored(*old(m))[path@]) } else { None }),
{
    m.remove(path).map(|e| e.1)
}

/// `DashMap::get`: the definition under a path.
#[verifier::external_body]
pub(crate) fn look_up(m: &DashMap<String, Arc<StoredConfig>>, path: &str) -> (r: Option<Arc<StoredConfig>>)
    ensures
        r == (if stored(*m).contains_key(path@) { Some(stored(*m)[path@]) } else { None }),
{
    m.get(path).map(|e| e.value().clone())
}

/// `r` lists what `m` holds, each path once.
pub open spec fn lists(r: Seq<(String, Arc<StoredConfig>)>, m: Map<Seq<char>, Arc<StoredConfig>>) -> bool {
    &&& forall|i: int|
        0 <= i < r.len() ==> m.contains_key((#[trigger] r[i]).0@) && m[r[i].0@] == r[i].1
    &&& forall|i: int, j: int| 0 <= i < j < r.len() ==> (#[trigger] r[i]).0@ != (#[trigger] r[j]).0@
    &&& forall|k: Seq<char>| #[trigger]
        m.contains_key(k) ==> exists|i: int| 0 <= i < r.len() && (#[trigger] r[i]).0@ == k
}

/// `DashMap::iter`: each path once with its definition, in an order left open.
#[verifier::external_body]
pub(crate) fn all(m: &DashMap<String, Arc<StoredConfig>>) -> (r: Vec<(String, Arc<StoredConfig>)>)
    ensures
        lists(r@, stored(*m)),
{
    m.iter().map(|e| (e.key().clone(), e.value().clone())).collect()
}

/// A store without definitions.
pub fn new_config_store() -> (r: ConfigStore)
    ensures
        forall|k: Seq<char>| !stored(r).contains_key(k),
{
    empty_store()
}

/// Puts a definition in force.
pub fn store_config(m: &mut ConfigStore, path: &str, config: ServiceConfig)
    ensures
        stored(*final(m)).contains_key(path@),
        stored(*final(m))[path@].path@ == path@,
        stored(*final(m))[path@].config == config,
        forall|k: Seq<char>|
            k != path@ ==> stored(*final(m)).contains_key(k) == #[trigger] stored(*old(m)).contains_key(k)
                && stored(*final(m))[k] == stored(*old(m))[k],
{
    put(m, path.to_owned(), Arc::new(StoredConfig { path: path.to_owned(), config }));
}

} // verus!
