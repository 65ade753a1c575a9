//! Which patches bring a database of one version to another.

use vstd::prelude::*;

verus! {

/// Latest database version to patch to.
pub const LATEST_VERSION: i32 = 1;

/// Patch for adding the basic relations `logs`, `log_tags`, `log_events`.
#[derive(Debug, Clone, Copy)]
pub struct Patch1;

/// Patch for adding a status and a timer timestamp to the relation `logs`,
/// as databases before the event relation had them. It is not among the
/// patches that are applied.
#[derive(Debug, Clone, Copy)]
pub struct Patch2;

impl Patch1 {
    /// Get the version the patch will patch the database to.
    pub fn version(&self) -> (version: i32)
        ensures
            version == 1,
    {
        1
    }
}

impl Patch2 {
    /// Get the version the patch will patch the database to.
    pub fn version(&self) -> (version: i32)
        ensures
            version == 2,
    {
        2
    }
}

/// The versions of the patches that are applied, in ascending order.
pub open spec fn applied_patches() -> Seq<i32> {
    seq![1i32]
}

/// Whether the patch to `version` is needed to bring a database from
/// `from_version` to `to_version`.
pub open spec fn patch_needed(version: i32, from_version: i32, to_version: i32) -> bool {
    from_version < to_version && version > from_version && version <= to_version
}

/// The predicate "is needed to bring a database from `from_version` to `to_version`".
pub open spec fn needed_between(from_version: i32, to_version: i32) -> spec_fn(i32) -> bool {
    |version: i32| patch_needed(version, from_version, to_version)
}

/// A database without a readable version, or with a negative one, has to be
/// initialized before anything else.
pub fn needs_initialization(version: Option<i32>) -> (needed: bool)
    ensures
        needed == match version {
            Some(version) => version < 0,
            None => true,
        },
{
    match version {
        Some(version) => version < 0,
        None => true,
    }
}

/// The versions of the patches to apply, in this order, to bring a database
/// from `from_version` to `to_version`. After each patch the database has
/// the version of that patch.
pub fn patches_to_apply(from_version: i32, to_version: i32) -> (versions: Vec<i32>)
    ensures
        versions@ == applied_patches().filter(needed_between(from_version, to_version)),
        forall|i: int, j: int| 0 <= i < j < versions@.len() ==> versions@[i] < versions@[j],
        forall|i: int|
            0 <= i < versions@.len() ==> from_version < (#[trigger] versions@[i]) <= to_version,
{
    let mut versions: Vec<i32> = Vec::new();
    let patch: Patch1 = Patch1;
    let patch_needed: bool = from_version < to_version && patch.version() > from_version
        && patch.version() <= to_version;
    if patch_needed {
        versions.push(patch.version());
    }
    proof {
        reveal_with_fuel(Seq::filter, 2);
        let all = applied_patches();
        assert(all.drop_last() =~= Seq::<i32>::empty());
        assert(all.last() == 1i32);
        assert(versions@ =~= all.filter(needed_between(from_version, to_version)));
    }
    versions
}

/// The versions of the patches to apply to bring a database of the given
/// version to the latest version.
pub fn patches_to_latest(version: i32) -> (versions: Vec<i32>)
    ensures
        versions@ == applied_patches().filter(needed_between(version, LATEST_VERSION)),
        version >= LATEST_VERSION ==> versions@.len() == 0,
{
    let versions: Vec<i32> = patches_to_apply(version, LATEST_VERSION);
    proof {
        if version >= LATEST_VERSION && versions@.len() > 0 {
            assert(version < versions@[0] <= LATEST_VERSION);
        }
    }
    versions
}

} // verus!
