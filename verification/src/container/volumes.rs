//! Named volumes.

use crate::config::utils;
use crate::container::lifecycle;
use crate::stores;
use crate::text;
use rustc_hash::FxHashMap;
use vstd::prelude::*;
use vstd::string::*;

verus! {

/// A volume that outlives the containers that use it.
#[derive(Debug)]
pub struct NamedVolume {
    pub name: String,
    pub labels: Option<FxHashMap<String, String>>,
    pub driver_opts: Option<FxHashMap<String, String>>,
}

/// What is kept about a volume.
#[derive(Debug)]
pub struct VolumeMetadata {
    pub name: String,
    pub id: u128,
    /// Nanoseconds since the epoch.
    pub created_at: u128,
    pub path: String,
    /// The containers that use it.
    pub used_by: Vec<String>,
    pub labels: Option<FxHashMap<String, String>>,
    pub size: Option<u64>,
}

/// What a `VolumeMetadata` says.
pub struct VolumeFacts {
    pub name: Seq<char>,
    pub id: u128,
    pub created_at: u128,
    pub path: Seq<char>,
    pub used_by: Seq<Seq<char>>,
    pub labels: Option<FxHashMap<String, String>>,
    pub size: Option<u64>,
}

impl View for VolumeMetadata {
    type V = VolumeFacts;

    open spec fn view(&self) -> VolumeFacts {
        VolumeFacts {
            name: self.name@,
            id: self.id,
            created_at: self.created_at,
            path: self.path@,
            used_by: lifecycle::texts(self.used_by@),
            labels: self.labels,
            size: self.size,
        }
    }
}

/// The volumes on record, by name.
pub type VolumeStore = FxHashMap<String, VolumeMetadata>;

/// Why a request about a volume is refused.
#[derive(Clone, Copy, PartialEq, Eq, Structural, Debug)]
pub enum VolumeError {
    AlreadyExists,
    StillInUse,
    NotFound,
}

impl VolumeError {
    /// The text for the error about the volume of that name.
    pub fn message(&self, name: &str) -> (r: String)
        ensures
            r@ == "Volume "@ + name@ + (match *self {
                VolumeError::AlreadyExists => " already exists"@,
                VolumeError::StillInUse => " is still in use"@,
                VolumeError::NotFound => " not found"@,
            }),
    {
        let start: String = "Volume ".to_owned().concat(name);
        match self {
            VolumeError::AlreadyExists => start.concat(" already exists"),
            VolumeError::StillInUse => start.concat(" is still in use"),
            VolumeError::NotFound => start.concat(" not found"),
        }
    }
}

/// No volumes yet.
pub fn new_volume_store() -> (r: VolumeStore)
    ensures
        forall|k: Seq<char>| !stores::entries(r).contains_key(k),
{
    stores::map_new()
}

/// The volume of that name.
pub open spec fn volume(store: VolumeStore, name: Seq<char>) -> Option<VolumeFacts> {
    if stores::entries(store).contains_key(name) {
        Some(stores::entries(store)[name]@)
    } else {
        None
    }
}

/// Only the volume of the one name differs, and it is `v`.
pub open spec fn only_volume_changed(
    before: VolumeStore,
    after: VolumeStore,
    name: Seq<char>,
    v: Option<VolumeFacts>,
) -> bool {
    &&& volume(after, name) == v
    &&& forall|n: Seq<char>| n != name ==> #[trigger] volume(after, n) == volume(before, n)
}

/// The record of a new volume with the given UUID, refused where one of that name
/// exists.
pub fn volume_record(
    store: &VolumeStore,
    name: &str,
    id: u128,
    created_at: u128,
    path: &str,
    labels: Option<FxHashMap<String, String>>,
) -> (r: Result<VolumeMetadata, VolumeError>)
    ensures
        r is Ok <==> volume(*store, name@) is None,
        match r {
            Ok(m) => m@ == (VolumeFacts {
                name: name@,
                id,
                created_at,
                path: path@,
                used_by: Seq::empty(),
                labels,
                size: None,
            }),
            Err(e) => e == VolumeError::AlreadyExists,
        },
{
    if stores::map_get(store, name).is_some() {
        return Err(VolumeError::AlreadyExists);
    }
    let m: VolumeMetadata = VolumeMetadata {
        name: name.to_owned(),
        id,
        created_at,
        path: path.to_owned(),
        used_by: Vec::new(),
        labels,
        size: None,
    };
    assert(m@.used_by =~= Seq::<Seq<char>>::empty());
    Ok(m)
}

/// The record of a new volume, refused where one of that name exists.
pub fn create_named_volume(
    store: &VolumeStore,
    name: &str,
    created_at: u128,
    path: &str,
    labels: Option<FxHashMap<String, String>>,
) -> (r: Result<VolumeMetadata, VolumeError>)
    ensures
        r is Ok <==> volume(*store, name@) is None,
        match r {
            Ok(m) => utils::random_uuid(m.id) && m@ == (VolumeFacts {
                name: name@,
                id: m.id,
                created_at,
                path: path@,
                used_by: Seq::empty(),
                labels,
                size: None,
            }),
            Err(e) => e == VolumeError::AlreadyExists,
        },
{
    let id: u128 = utils::new_uuid();
    volume_record(store, name, id, created_at, path, labels)
}

/// Puts a volume on record.
pub fn insert_volume(store: &mut VolumeStore, name: &str, metadata: VolumeMetadata)
    ensures
        only_volume_changed(*old(store), *final(store), name@, Some(metadata@)),
{
    let _ = stores::map_insert(store, name.to_owned(), metadata);
}

/// The path of a volume that is to be removed; nothing where there is no such
/// volume. A volume in use is not removed unless that is forced.
pub fn remove_named_volume(store: &VolumeStore, name: &str, force: bool) -> (r: Result<Option<String>, VolumeError>)
    ensures
        match volume(*store, name@) {
            None => r matches Ok(p) && p is None,
            Some(v) => if v.used_by.len() > 0 && !force {
                r matches Err(e) && e == VolumeError::StillInUse
            } else {
                r matches Ok(p) && p matches Some(path) && path@ == v.path
            },
        },
        is_removal(r, volume(*store, name@), force),
{
    match stores::map_get(store, name) {
        Some(m) => {
            if m.used_by.len() > 0 && !force {
                return Err(VolumeError::StillInUse);
            }
            Ok(Some(m.path.clone()))
        },
        None => Ok(None),
    }
}

/// Takes a volume off the record.
pub fn forget_volume(store: &mut VolumeStore, name: &str)
    ensures
        only_volume_changed(*old(store), *final(store), name@, None),
{
    let _ = stores::map_remove(store, name);
}

/// The users after a container came.
pub open spec fn attached(users: Seq<Seq<char>>, container: Seq<char>) -> Seq<Seq<char>> {
    if users.contains(container) {
        users
    } else {
        users.push(container)
    }
}

/// The users after a container went.
pub open spec fn detached(users: Seq<Seq<char>>, container: Seq<char>) -> Seq<Seq<char>> {
    users.filter(|u: Seq<char>| u != container)
}

/// Whether a container is among the users.
fn is_user(users: &Vec<String>, container: &str) -> (r: bool)
    ensures
        r == lifecycle::texts(users@).contains(container@),
{
    let ghost names = lifecycle::texts(users@);
    let mut i: usize = 0;
    while i < users.len()
        invariant
            i <= users@.len(),
            names == lifecycle::texts(users@),
            forall|j: int| 0 <= j < i ==> names[j] != container@,
        decreases users@.len() - i,
    {
        assert(names[i as int] == users@[i as int]@);
        if text::same(users[i].as_str(), container) {
            assert(names.contains(container@));
            return true;
        }
        i = i + 1;
    }
    false
}

/// Notes that a container uses a volume. The result says whether that is new.
pub fn attach_volume(store: &mut VolumeStore, name: &str, container_id: &str) -> (r: Result<bool, VolumeError>)
    ensures
        match volume(*old(store), name@) {
            None => r == Err::<bool, VolumeError>(VolumeError::NotFound) && *final(store) == *old(store),
            Some(v) => {
                &&& r == Ok::<bool, VolumeError>(!v.used_by.contains(container_id@))
                &&& only_volume_changed(
                    *old(store),
                    *final(store),
                    name@,
                    Some(VolumeFacts { used_by: attached(v.used_by, container_id@), ..v }),
                )
            },
        },
{
    match stores::map_get_mut(store, name) {
        Some(m) => {
            let is_new: bool = !is_user(&m.used_by, container_id);
            if is_new {
                let ghost before = lifecycle::texts(m.used_by@);
                m.used_by.push(container_id.to_owned());
                assert(lifecycle::texts(m.used_by@) =~= before.push(container_id@));
            }
            Ok(is_new)
        },
        None => Err(VolumeError::NotFound),
    }
}

/// Notes that a container no longer uses a volume.
pub fn detach_volume(store: &mut VolumeStore, name: &str, container_id: &str) -> (r: Result<(), VolumeError>)
    ensures
        match volume(*old(store), name@) {
            None => r == Err::<(), VolumeError>(VolumeError::NotFound) && *final(store) == *old(store),
            Some(v) => {
                &&& r is Ok
                &&& only_volume_changed(
                    *old(store),
                    *final(store),
                    name@,
                    Some(VolumeFacts { used_by: detached(v.used_by, container_id@), ..v }),
                )
            },
        },
{
    match stores::map_get_mut(store, name) {
        Some(m) => {
            let mut kept: Vec<String> = Vec::new();
            let ghost names = lifecycle::texts(m.used_by@);
            let ghost others = |u: Seq<char>| u != container_id@;
            let mut i: usize = 0;
            proof {
                reveal(Seq::filter);
                assert(lifecycle::texts(kept@) =~= names.take(0).filter(others));
            }
            while i < m.used_by.len()
                invariant
                    i <= m.used_by@.len(),
                    names == lifecycle::texts(m.used_by@),
                    others == (|u: Seq<char>| u != container_id@),
                    lifecycle::texts(kept@) == names.take(i as int).filter(others),
                decreases m.used_by@.len() - i,
            {
                let ghost before = lifecycle::texts(kept@);
                proof {
                    reveal(Seq::filter);
                    assert(names.take(i + 1).drop_last() =~= names.take(i as int));
                    assert(names.take(i + 1).last() == m.used_by@[i as int]@);
                }
                if !text::same(m.used_by[i].as_str(), container_id) {
                    kept.push(m.used_by[i].clone());
                    assert(lifecycle::texts(kept@) =~= before.push(m.used_by@[i as int]@));
                }
                i = i + 1;
            }
            assert(names.take(i as int) =~= names);
            m.used_by = kept;
            Ok(())
        },
        None => Err(VolumeError::NotFound),
    }
}

/// A container that came and went leaves the users as they were, where it was
/// not among them.
pub proof fn detaching_undoes_attaching(users: Seq<Seq<char>>, container: Seq<char>)
    requires
        !users.contains(container),
    ensures
        detached(attached(users, container), container) == users,
{
    reveal(Seq::filter);
    assert(users.push(container).drop_last() =~= users);
    lemma_all_kept(users, container);
}

proof fn lemma_all_kept(users: Seq<Seq<char>>, container: Seq<char>)
    requires
        !users.contains(container),
    ensures
        detached(users, container) == users,
    decreases users.len(),
{
    reveal(Seq::filter);
    if users.len() > 0 {
        let rest = users.drop_last();
        assert(!rest.contains(container)) by {
            if rest.contains(container) {
                let i = choose|i: int| 0 <= i < rest.len() && rest[i] == container;
                assert(users[i] == container);
            }
        }
        lemma_all_kept(rest, container);
        assert(users[users.len() - 1] == users.last());
        assert(users.last() != container) by {
            if users.last() == container {
                assert(users.contains(container));
            }
        }
        assert(rest.push(users.last()) =~= users);
    }
}

/// Attaching twice is attaching once.
pub proof fn attaching_is_idempotent(users: Seq<Seq<char>>, container: Seq<char>)
    ensures
        attached(attached(users, container), container) == attached(users, container),
        attached(users, container).contains(container),
{
    if !users.contains(container) {
        assert(users.push(container)[users.len() as int] == container);
    }
}

/// A container that went is no longer a user.
pub proof fn detached_containers_are_gone(users: Seq<Seq<char>>, container: Seq<char>)
    ensures
        !detached(users, container).contains(container),
    decreases users.len(),
{
    reveal(Seq::filter);
    if users.len() > 0 {
        let rest = users.drop_last();
        detached_containers_are_gone(rest, container);
        let d = detached(users, container);
        if d.contains(container) {
            let i = choose|i: int| 0 <= i < d.len() && d[i] == container;
            if i < detached(rest, container).len() {
                assert(detached(rest, container)[i] == container);
            }
        }
    }
}

/// Attaching a container adds it to the users of a volume, at the end, unless it is
/// among them; detaching takes it away, wherever it stands. No other user comes, goes or
/// changes its place.
pub proof fn users_come_and_go_one_by_one(users: Seq<Seq<char>>, container: Seq<char>, other: Seq<char>)
    ensures
        attached(users, container).contains(other) == (users.contains(other) || other == container),
        detached(users, container).contains(other) == (users.contains(other) && other != container),
        users.contains(container) ==> attached(users, container) == users,
        !users.contains(container) ==> attached(users, container) == users + seq![container],
        !users.contains(container) ==> detached(users, container) == users,
        detached(users, container).len() <= users.len(),
    decreases users.len(),
{
    if !users.contains(container) {
        lemma_all_kept(users, container);
        let more = users.push(container);
        assert(more =~= users + seq![container]);
        assert(more[users.len() as int] == container);
        if users.contains(other) {
            let i = choose|i: int| 0 <= i < users.len() && users[i] == other;
            assert(more[i] == other);
        }
        if more.contains(other) && other != container {
            let i = choose|i: int| 0 <= i < more.len() && more[i] == other;
            assert(users[i] == other);
        }
    }
    reveal(Seq::filter);
    if users.len() > 0 {
        let rest = users.drop_last();
        users_come_and_go_one_by_one(rest, container, other);
        let (a, b) = (detached(users, container), detached(rest, container));
        let last = users.last();
        assert(users[users.len() - 1] == last);
        if rest.contains(other) {
            let i = choose|i: int| 0 <= i < rest.len() && rest[i] == other;
            assert(users[i] == other);
        }
        if users.contains(other) && other != last {
            let i = choose|i: int| 0 <= i < users.len() && users[i] == other;
            assert(rest[i] == other);
        }
        if last != container {
            assert(a == b.push(last));
            assert(a[b.len() as int] == last);
            if b.contains(other) {
                let i = choose|i: int| 0 <= i < b.len() && b[i] == other;
                assert(a[i] == other);
            }
            if a.contains(other) && other != last {
                let i = choose|i: int| 0 <= i < a.len() && a[i] == other;
                assert(b[i] == other);
            }
        } else {
            assert(a == b);
        }
    }
}

/// `r` says how the volume is removed.
pub open spec fn is_removal(r: Result<Option<String>, VolumeError>, v: Option<VolumeFacts>, force: bool) -> bool {
    match v {
        None => r matches Ok(p) && p is None,
        Some(v) => if v.used_by.len() > 0 && !force {
            r matches Err(e) && e == VolumeError::StillInUse
        } else {
            r matches Ok(p) && p matches Some(path) && path@ == v.path
        },
    }
}

/// A volume that nothing uses is removed from its path, and so is any volume where that is
/// forced; one in use is refused otherwise, and there is nothing to do about one that is
/// not on record.
pub proof fn volumes_in_use_are_not_removed(r: Result<Option<String>, VolumeError>, v: VolumeFacts, force: bool)
    ensures
        is_removal(r, Some(v), force) && v.used_by.len() == 0 ==> (r matches Ok(p) && p matches Some(path) && path@
            == v.path),
        is_removal(r, Some(v), true) ==> (r matches Ok(p) && p matches Some(path) && path@ == v.path),
        is_removal(r, Some(v), false) && v.used_by.len() > 0 ==> r == Err::<Option<String>, VolumeError>(
            VolumeError::StillInUse,
        ),
        is_removal(r, None, force) ==> (r matches Ok(p) && p is None),
{
}

} // verus!
