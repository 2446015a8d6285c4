//! Profile versions and what the renderer query reports of the driver.

use std::cmp::Ordering;
use vstd::prelude::*;
use vstd::std_specs::cmp::PartialOrdSpecImpl;

verus! {

/// An OpenGL version. Versions are ordered by the major number, and by the
/// minor number where the major numbers agree.
#[derive(Clone, Copy, Debug, PartialEq, Eq, Structural, Ord)]
pub struct ProfileVersion {
    pub major: i32,
    pub minor: i32,
}

impl ProfileVersion {
    pub fn new(major: i32, minor: i32) -> (version: ProfileVersion)
        ensures
            version.major == major,
            version.minor == minor,
    {
        ProfileVersion { major: major, minor: minor }
    }

    /// Whether `self` is the lower of the two versions.
    pub open spec fn precedes(self, other: ProfileVersion) -> bool {
        self.major < other.major || (self.major == other.major && self.minor < other.minor)
    }

    /// `<` on versions is the lexicographic order of `(major, minor)`.
    pub proof fn lemma_order_is_lexicographic(a: i32, b: i32, c: i32, d: i32)
        ensures
            vstd::std_specs::cmp::PartialOrdSpec::partial_cmp_spec(
                &(ProfileVersion { major: a, minor: b }),
                &(ProfileVersion { major: c, minor: d }),
            ) == Some(Ordering::Less) <==> a < c || (a == c && b < d),
    {
    }
}

impl PartialOrdSpecImpl for ProfileVersion {
    open spec fn obeys_partial_cmp_spec() -> bool {
        true
    }

    open spec fn partial_cmp_spec(&self, other: &ProfileVersion) -> Option<Ordering> {
        if self.precedes(*other) {
            Some(Ordering::Less)
        } else if other.precedes(*self) {
            Some(Ordering::Greater)
        } else {
            Some(Ordering::Equal)
        }
    }
}

impl PartialOrd for ProfileVersion {
    fn partial_cmp(&self, other: &ProfileVersion) -> (order: Option<Ordering>) {
        if self.major < other.major {
            Some(Ordering::Less)
        } else if self.major > other.major {
            Some(Ordering::Greater)
        } else if self.minor < other.minor {
            Some(Ordering::Less)
        } else if self.minor > other.minor {
            Some(Ordering::Greater)
        } else {
            Some(Ordering::Equal)
        }
    }
}

/// What the driver answered to the renderer query: the highest version it
/// offers of each profile. A driver without the query has no such value.
#[derive(Clone, Copy, Debug, PartialEq, Eq)]
pub struct QueryRenderer {
    pub core: ProfileVersion,
    pub compatibility: ProfileVersion,
}

impl QueryRenderer {
    /// The answers of a driver, as they were read from it.
    pub fn new(core: ProfileVersion, compatibility: ProfileVersion) -> (renderer: QueryRenderer)
        ensures
            renderer.core == core,
            renderer.compatibility == compatibility,
    {
        QueryRenderer { core, compatibility }
    }

    /// The highest core profile version of the driver.
    pub fn max_core_profile_version(&self) -> (version: ProfileVersion)
        ensures
            version == self.core,
    {
        self.core
    }

    /// The highest compatibility profile version of the driver.
    pub fn max_compatibility_profile_version(&self) -> (version: ProfileVersion)
        ensures
            version == self.compatibility,
    {
        self.compatibility
    }
}

} // verus!
