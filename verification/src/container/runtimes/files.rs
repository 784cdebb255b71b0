//! Volumes that a container brings along itself: each inline file is mounted on
//! its own.

use crate::container::Container;
use crate::container::VolumeData;
use crate::container::VolumeMount;
use crate::stores;
use rustc_hash::FxHashMap;
use vstd::prelude::*;
use vstd::string::*;

verus! {

/// One mount.
#[derive(Debug)]
pub enum FileMount {
    /// A path of the host.
    HostPath { target: String, source: String },
    /// A file of a volume, to be written first.
    File { target: String, volume: String, file: String },
    /// The named volume.
    NamedVolume { target: String, name: String },
}

/// What a `FileMount` says.
pub enum FileMountFacts {
    HostPath { target: Seq<char>, source: Seq<char> },
    File { target: Seq<char>, volume: Seq<char>, file: Seq<char> },
    NamedVolume { target: Seq<char>, name: Seq<char> },
}

impl View for FileMount {
    type V = FileMountFacts;

    open spec fn view(&self) -> FileMountFacts {
        match self {
            FileMount::HostPath { target, source } => {
                FileMountFacts::HostPath { target: target@, source: source@ }
            },
            FileMount::File { target, volume, file } => {
                FileMountFacts::File { target: target@, volume: volume@, file: file@ }
            },
            FileMount::NamedVolume { target, name } => {
                FileMountFacts::NamedVolume { target: target@, name: name@ }
            },
        }
    }
}

/// Some mounts, as they read.
pub open spec fn plans(m: Seq<FileMount>) -> Seq<FileMountFacts> {
    m.map_values(|f: FileMount| f@)
}

/// The mount of a file: at the mount path where the entry names that file, within
/// it where the entry names none; nothing where the entry names another.
pub open spec fn file_mount(m: VolumeMount, file: Seq<char>) -> Option<FileMountFacts> {
    match m.sub_path {
        Some(s) => if s@ == file {
            Some(FileMountFacts::File { target: m.mount_path@, volume: m.name@, file })
        } else {
            None
        },
        None => Some(FileMountFacts::File { target: m.mount_path@ + "/"@ + file, volume: m.name@, file }),
    }
}

/// The mounts of some files, in order.
pub open spec fn file_mounts(m: VolumeMount, files: Seq<Seq<char>>) -> Seq<FileMountFacts>
    decreases files.len(),
{
    if files.len() == 0 {
        Seq::empty()
    } else {
        let rest = file_mounts(m, files.drop_last());
        match file_mount(m, files.last()) {
            Some(f) => rest.push(f),
            None => rest,
        }
    }
}

/// The mounts that an entry calls for, where `files` lists the inline files of its
/// volume: the host path, the files or the named volume, of which the first that
/// is given counts; none where the volume is unknown.
pub open spec fn entry_mounts(
    m: VolumeMount,
    volumes: Map<Seq<char>, VolumeData>,
    files: Seq<Seq<char>>,
) -> Seq<FileMountFacts> {
    if !volumes.contains_key(m.name@) {
        Seq::empty()
    } else {
        let data = volumes[m.name@];
        match (data.host_path, data.files, data.named_volume) {
            (Some(p), _, _) => seq![FileMountFacts::HostPath { target: m.mount_path@, source: p@ }],
            (None, Some(_), _) => file_mounts(m, files),
            (None, None, Some(n)) => seq![FileMountFacts::NamedVolume { target: m.mount_path@, name: n.name@ }],
            (None, None, None) => Seq::empty(),
        }
    }
}

/// `files` lists the inline files of the volume, each once; none where it has
/// none.
pub open spec fn lists_files(data: VolumeData, files: Seq<Seq<char>>) -> bool {
    match data.files {
        Some(f) => files.no_duplicates() && forall|k: Seq<char>|
            files.contains(k) == stores::entries(f).contains_key(k),
        None => files.len() == 0,
    }
}

/// The mounts of some entries, in order, where `orders` lists the files for each.
pub open spec fn all_mounts(
    mounts: Seq<VolumeMount>,
    volumes: Map<Seq<char>, VolumeData>,
    orders: Seq<Seq<Seq<char>>>,
) -> Seq<FileMountFacts>
    decreases mounts.len(),
{
    if mounts.len() == 0 {
        Seq::empty()
    } else {
        let n = mounts.len() - 1;
        all_mounts(mounts.drop_last(), volumes, orders) + entry_mounts(mounts[n], volumes, orders[n])
    }
}

/// `orders` lists the files of the volume of each entry.
pub open spec fn lists_all_files(
    mounts: Seq<VolumeMount>,
    volumes: Map<Seq<char>, VolumeData>,
    orders: Seq<Seq<Seq<char>>>,
) -> bool {
    &&& orders.len() == mounts.len()
    &&& forall|i: int|
        0 <= i < mounts.len() && volumes.contains_key((#[trigger] mounts[i]).name@) ==> lists_files(
            volumes[mounts[i].name@],
            orders[i],
        )
}

/// Only the listings of the entries at hand matter.
proof fn lemma_orders(
    mounts: Seq<VolumeMount>,
    volumes: Map<Seq<char>, VolumeData>,
    a: Seq<Seq<Seq<char>>>,
    b: Seq<Seq<Seq<char>>>,
)
    requires
        forall|i: int| 0 <= i < mounts.len() ==> #[trigger] a[i] == b[i],
    ensures
        all_mounts(mounts, volumes, a) == all_mounts(mounts, volumes, b),
    decreases mounts.len(),
{
    if mounts.len() > 0 {
        lemma_orders(mounts.drop_last(), volumes, a, b);
        assert(a[mounts.len() - 1] == b[mounts.len() - 1]);
    }
}

/// Adds the mounts of some files.
fn push_file_mounts(out: &mut Vec<FileMount>, m: &VolumeMount, files: &Vec<String>)
    ensures
        plans(final(out)@) == plans(old(out)@) + file_mounts(*m, files@.map_values(|s: String| s@)),
{
    let ghost before = plans(out@);
    let ghost names = files@.map_values(|s: String| s@);
    let mut i: usize = 0;
    assert(names.take(0) =~= Seq::empty());
    assert(before + Seq::<FileMountFacts>::empty() =~= before);
    while i < files.len()
        invariant
            i <= files@.len(),
            names == files@.map_values(|s: String| s@),
            plans(out@) == before + file_mounts(*m, names.take(i as int)),
        decreases files@.len() - i,
    {
        let file: &String = &files[i];
        let ghost so_far = plans(out@);
        proof {
            assert(names.take(i + 1).drop_last() =~= names.take(i as int));
            assert(names.take(i + 1).last() == file@);
        }
        let target: Option<String> = match &m.sub_path {
            Some(s) => {
                if *s == *file {
                    Some(m.mount_path.clone())
                } else {
                    None
                }
            },
            None => Some(m.mount_path.clone().concat("/").concat(file.as_str())),
        };
        if let Some(t) = target {
            let mount: FileMount = FileMount::File { target: t, volume: m.name.clone(), file: file.clone() };
            out.push(mount);
            assert(plans(out@) =~= so_far.push(mount@));
            assert(before + file_mounts(*m, names.take(i + 1)) =~= (before + file_mounts(
                *m,
                names.take(i as int),
            )).push(mount@));
        }
        i = i + 1;
    }
    assert(names.take(i as int) =~= names);
}

/// The mounts of a container that brings its volumes along.
pub fn setup_container_volumes(container: &Container) -> (r: Vec<FileMount>)
    ensures
        match (container.volume_mounts, container.volumes) {
            (Some(m), Some(v)) => exists|orders: Seq<Seq<Seq<char>>>| #[trigger]
                lists_all_files(m@, stores::entries(v), orders) && plans(r@) == all_mounts(
                    m@,
                    stores::entries(v),
                    orders,
                ),
            _ => r@.len() == 0,
        },
{
    let mut r: Vec<FileMount> = Vec::new();
    let mounts: &Vec<VolumeMount> = match &container.volume_mounts {
        Some(m) => m,
        None => {
            return r;
        },
    };
    let volumes: &FxHashMap<String, VolumeData> = match &container.volumes {
        Some(v) => v,
        None => {
            return r;
        },
    };
    let ghost held = stores::entries(*volumes);
    let ghost mut orders: Seq<Seq<Seq<char>>> = Seq::empty();
    let mut i: usize = 0;
    assert(mounts@.take(0) =~= Seq::empty());
    assert(plans(r@) =~= Seq::empty());
    while i < mounts.len()
        invariant
            i <= mounts@.len(),
            held == stores::entries(*volumes),
            lists_all_files(mounts@.take(i as int), held, orders),
            plans(r@) == all_mounts(mounts@.take(i as int), held, orders),
        decreases mounts@.len() - i,
    {
        let m: &VolumeMount = &mounts[i];
        let ghost before = plans(r@);
        let ghost old_orders = orders;
        let ghost mut files: Seq<Seq<char>> = Seq::empty();
        proof {
            assert(mounts@.take(i + 1).drop_last() =~= mounts@.take(i as int));
            assert(mounts@.take(i + 1)[i as int] == *m);
            assert(before + Seq::<FileMountFacts>::empty() =~= before);
        }
        if let Some(data) = stores::map_get(volumes, m.name.as_str()) {
            if let Some(p) = &data.host_path {
                let mount: FileMount = FileMount::HostPath { target: m.mount_path.clone(), source: p.clone() };
                r.push(mount);
                assert(plans(r@) =~= before + seq![mount@]);
            }
            if let Some(f) = &data.files {
                let names: Vec<String> = stores::map_keys(f);
                proof {
                    files = names@.map_values(|s: String| s@);
                }
                if data.host_path.is_none() {
                    push_file_mounts(&mut r, m, &names);
                }
            } else if data.host_path.is_none() {
                if let Some(n) = &data.named_volume {
                    let mount: FileMount = FileMount::NamedVolume {
                        target: m.mount_path.clone(),
                        name: n.name.clone(),
                    };
                    r.push(mount);
                    assert(plans(r@) =~= before + seq![mount@]);
                }
            }
        }
        proof {
            orders = old_orders.push(files);
            lemma_orders(mounts@.take(i as int), held, old_orders, orders);
            assert forall|j: int|
                0 <= j < mounts@.take(i + 1).len() && held.contains_key(
                    (#[trigger] mounts@.take(i + 1)[j]).name@,
                ) implies lists_files(held[mounts@.take(i + 1)[j].name@], orders[j]) by {
                if j < i {
                    assert(mounts@.take(i as int)[j] == mounts@.take(i + 1)[j]);
                    assert(orders[j] == old_orders[j]);
                }
            }
            assert(plans(r@) =~= before + entry_mounts(*m, held, files));
        }
        i = i + 1;
    }
    proof {
        assert(mounts@.take(i as int) =~= mounts@);
        assert(lists_all_files(mounts@, held, orders));
    }
    r
}

/// Each inline file of a volume is mounted within the mount path; where the entry names
/// one file, that one alone is, on the mount path itself.
pub proof fn files_are_mounted_within_their_path(m: VolumeMount, files: Seq<Seq<char>>, file: Seq<char>)
    requires
        files.contains(file),
    ensures
        m.sub_path is None ==> file_mounts(m, files).contains(
            FileMountFacts::File { target: m.mount_path@ + "/"@ + file, volume: m.name@, file },
        ) && file_mounts(m, files).len() == files.len(),
        m.sub_path matches Some(s) && s@ == file ==> file_mounts(m, files).contains(
            FileMountFacts::File { target: m.mount_path@, volume: m.name@, file },
        ),
        m.sub_path matches Some(s) && s@ != file ==> forall|t: Seq<char>| !#[trigger] file_mounts(m, files).contains(
            FileMountFacts::File { target: t, volume: m.name@, file },
        ),
    decreases files.len(),
{
    lemma_file_mounts(m, files);
    let k = choose|k: int| 0 <= k < files.len() && files[k] == file;
    if file_mount(m, file) is Some {
        lemma_file_mounted(m, files, k);
    }
}

/// The mount of a file is among those of all.
proof fn lemma_file_mounted(m: VolumeMount, files: Seq<Seq<char>>, k: int)
    requires
        0 <= k < files.len(),
        file_mount(m, files[k]) is Some,
    ensures
        file_mounts(m, files).contains(file_mount(m, files[k])->0),
    decreases files.len(),
{
    let wanted = file_mount(m, files[k])->0;
    let before = file_mounts(m, files.drop_last());
    let all = file_mounts(m, files);
    if k < files.len() - 1 {
        lemma_file_mounted(m, files.drop_last(), k);
        let j = choose|j: int| 0 <= j < before.len() && before[j] == wanted;
        assert(all[j] == wanted);
    } else {
        assert(all[before.len() as int] == wanted);
    }
}

/// What is mounted is a file of the volume that the entry calls for.
proof fn lemma_file_mounts(m: VolumeMount, files: Seq<Seq<char>>)
    ensures
        m.sub_path is None ==> file_mounts(m, files).len() == files.len(),
        forall|t: Seq<char>, v: Seq<char>, f: Seq<char>| #[trigger]
            file_mounts(m, files).contains(FileMountFacts::File { target: t, volume: v, file: f }) ==> (
            m.sub_path matches Some(s) ==> s@ == f),
    decreases files.len(),
{
    if files.len() > 0 {
        lemma_file_mounts(m, files.drop_last());
        let before = file_mounts(m, files.drop_last());
        let all = file_mounts(m, files);
        assert forall|t: Seq<char>, v: Seq<char>, f: Seq<char>| #[trigger]
            all.contains(FileMountFacts::File { target: t, volume: v, file: f }) implies (m.sub_path matches Some(s)
            ==> s@ == f) by {
            let x = FileMountFacts::File { target: t, volume: v, file: f };
            let j = choose|j: int| 0 <= j < all.len() && all[j] == x;
            if j < before.len() {
                assert(before[j] == x);
                assert(before.contains(x));
            }
        }
    }
}

/// A volume with a host path is mounted from there, a named volume by its name, both on
/// the mount path; an unknown volume is not mounted.
pub proof fn volumes_are_mounted_on_their_path(
    m: VolumeMount,
    volumes: Map<Seq<char>, VolumeData>,
    files: Seq<Seq<char>>,
)
    ensures
        !volumes.contains_key(m.name@) ==> entry_mounts(m, volumes, files).len() == 0,
        volumes.contains_key(m.name@) ==> {
            let data = volumes[m.name@];
            &&& data.host_path matches Some(p) ==> entry_mounts(m, volumes, files) == seq![
                FileMountFacts::HostPath { target: m.mount_path@, source: p@ },
            ]
            &&& data.host_path is None && data.files is Some ==> entry_mounts(m, volumes, files) == file_mounts(m, files)
            &&& data.host_path is None && data.files is None ==> (data.named_volume matches Some(n) ==> entry_mounts(
                m,
                volumes,
                files,
            ) == seq![FileMountFacts::NamedVolume { target: m.mount_path@, name: n.name@ }])
        },
{
}

} // verus!
