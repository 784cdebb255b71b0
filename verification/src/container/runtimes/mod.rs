//! Container runtimes.

pub mod docker;
pub mod files;
pub mod inspect;
pub mod start;

use crate::text;
use rustc_hash::FxHashMap;
use rustc_hash::FxHashSet;
use vstd::prelude::*;

verus! {

/// Which services use each shared network.
pub type NetworkUsage = FxHashMap<String, FxHashSet<String>>;

/// A runtime that containers can run in.
#[derive(Clone, Copy, PartialEq, Eq, Structural, Debug)]
pub enum RuntimeKind {
    Docker,
}

/// The runtime of that name.
pub fn runtime_kind(runtime: &str) -> (r: Option<RuntimeKind>)
    ensures
        r is Some <==> runtime@ == "docker"@,
        r matches Some(k) ==> k == RuntimeKind::Docker,
{
    if text::same(runtime, "docker") {
        Some(RuntimeKind::Docker)
    } else {
        None
    }
}

} // verus!
