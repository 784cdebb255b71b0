//! What is measured about volumes.

use crate::container::volumes;
use crate::container::volumes::VolumeError;
use crate::container::volumes::VolumeFacts;
use crate::container::volumes::VolumeStore;
use crate::stores;
use vstd::prelude::*;

verus! {

/// The time between two measurements, in nanoseconds.
pub const MEASURE_INTERVAL: u128 = 300_000_000_000;

/// The readings of a volume.
#[derive(Clone, Copy, PartialEq, Eq, Structural, Debug)]
pub struct VolumeUsage {
    /// Bytes in use.
    pub size: u64,
    /// Containers that use it.
    pub containers: usize,
}

/// The sum of some file sizes.
pub open spec fn total_size(sizes: Seq<u64>) -> nat
    decreases sizes.len(),
{
    if sizes.len() == 0 {
        0
    } else {
        total_size(sizes.drop_last()) + sizes.last() as nat
    }
}

/// Some of the sizes sum to no more than all of them.
proof fn lemma_total_grows(sizes: Seq<u64>, k: int)
    requires
        0 <= k <= sizes.len(),
    ensures
        total_size(sizes.take(k)) <= total_size(sizes),
    decreases sizes.len(),
{
    if k == sizes.len() {
        assert(sizes.take(k) =~= sizes);
    } else {
        assert(sizes.drop_last().take(k) =~= sizes.take(k));
        lemma_total_grows(sizes.drop_last(), k);
    }
}

/// The sum of some file sizes.
fn sum_sizes(sizes: &Vec<u64>) -> (r: u64)
    requires
        total_size(sizes@) <= u64::MAX,
    ensures
        r == total_size(sizes@),
{
    let mut total: u64 = 0;
    let mut i: usize = 0;
    assert(sizes@.take(0) =~= Seq::empty());
    while i < sizes.len()
        invariant
            i <= sizes@.len(),
            total_size(sizes@) <= u64::MAX,
            total == total_size(sizes@.take(i as int)),
        decreases sizes@.len() - i,
    {
        proof {
            assert(sizes@.take(i + 1).drop_last() =~= sizes@.take(i as int));
            assert(sizes@.take(i + 1).last() == sizes@[i as int]);
            lemma_total_grows(sizes@, i + 1);
        }
        total = total + sizes[i];
        i = i + 1;
    }
    assert(sizes@.take(i as int) =~= sizes@);
    total
}

/// Takes in the sizes of the files in a volume.
pub fn update_volume_size(store: &mut VolumeStore, name: &str, sizes: &Vec<u64>) -> (r: Result<VolumeUsage, VolumeError>)
    requires
        total_size(sizes@) <= u64::MAX,
    ensures
        match volumes::volume(*old(store), name@) {
            None => r == Err::<VolumeUsage, VolumeError>(VolumeError::NotFound) && *final(store) == *old(store),
            Some(v) => {
                &&& r matches Ok(u) && u.size == total_size(sizes@) && u.containers == v.used_by.len()
                &&& volumes::only_volume_changed(
                    *old(store),
                    *final(store),
                    name@,
                    Some(VolumeFacts { size: Some(total_size(sizes@) as u64), ..v }),
                )
            },
        },
{
    match stores::map_get_mut(store, name) {
        Some(m) => {
            let size: u64 = sum_sizes(sizes);
            m.size = Some(size);
            Ok(VolumeUsage { size, containers: m.used_by.len() })
        },
        None => Err(VolumeError::NotFound),
    }
}

/// The sizes of files add up.
pub proof fn sizes_add_up(a: Seq<u64>, b: Seq<u64>, size: u64)
    ensures
        total_size(a + b) == total_size(a) + total_size(b),
        total_size(seq![size]) == size,
        total_size(Seq::empty()) == 0,
    decreases b.len(),
{
    assert(total_size(Seq::empty()) == 0);
    assert(seq![size].drop_last() =~= Seq::empty());
    assert(seq![size].last() == size);
    if b.len() == 0 {
        assert(a + b =~= a);
    } else {
        assert((a + b).drop_last() =~= a + b.drop_last());
        assert((a + b).last() == b.last());
        sizes_add_up(a, b.drop_last(), size);
    }
}

} // verus!
