//! Semantic plugin versions and the compatibility rule of the registry.

use vstd::prelude::*;

use crate::text::{dec_digits, u32_to_string};

verus! {

/// Version information for a plugin.
#[derive(Debug, Clone, Copy, PartialEq, Eq, Structural)]
pub struct PluginVersion {
    pub major: u32,
    pub minor: u32,
    pub patch: u32,
}

/// The compatibility rule: `v` satisfies requirement `req` when the major
/// versions are equal and `v` is at least as new as `req` in the
/// (minor, patch) order.
pub open spec fn version_compatible(v: PluginVersion, req: PluginVersion) -> bool {
    v.major == req.major && (v.minor > req.minor || (v.minor == req.minor && v.patch
        >= req.patch))
}

/// The text `major.minor.patch` of a version.
pub open spec fn spec_version_chars(v: PluginVersion) -> Seq<char> {
    dec_digits(v.major as nat) + seq!['.'] + dec_digits(v.minor as nat) + seq!['.']
        + dec_digits(v.patch as nat)
}

impl PluginVersion {
    pub fn new(major: u32, minor: u32, patch: u32) -> (v: Self)
        ensures
            v == (PluginVersion { major, minor, patch }),
    {
        Self { major, minor, patch }
    }

    /// Whether this version is compatible with the required version `other`:
    /// equal major versions, and this version not older in (minor, patch).
    pub fn is_compatible_with(&self, other: &PluginVersion) -> (b: bool)
        ensures
            b == version_compatible(*self, *other),
    {
        if self.major != other.major {
            return false;
        }
        if self.minor < other.minor {
            return false;
        }
        if self.minor == other.minor && self.patch < other.patch {
            return false;
        }
        true
    }

    /// The version as text, `major.minor.patch`.
    pub fn version_string(&self) -> (s: String)
        ensures
            s@ == spec_version_chars(*self),
    {
        let mut s = u32_to_string(self.major);
        let dot: &str = ".";
        proof {
            reveal_strlit(".");
            assert(dot@ =~= seq!['.']);
        }
        s.append(dot);
        let minor = u32_to_string(self.minor);
        s.append(minor.as_str());
        s.append(dot);
        let patch = u32_to_string(self.patch);
        s.append(patch.as_str());
        proof {
            assert(s@ =~= spec_version_chars(*self));
        }
        s
    }
}

/// A version is always compatible with itself.
pub proof fn lemma_compatibility_reflexive(v: PluginVersion)
    ensures
        version_compatible(v, v),
{
}

/// Compatibility is not symmetric: two distinct versions are never
/// compatible in both directions.
pub proof fn lemma_compatibility_antisymmetric(v: PluginVersion, w: PluginVersion)
    requires
        version_compatible(v, w),
        version_compatible(w, v),
    ensures
        v == w,
{
}

/// Versions with different major numbers are incompatible in both
/// directions.
pub proof fn lemma_major_mismatch_incompatible(v: PluginVersion, w: PluginVersion)
    requires
        v.major != w.major,
    ensures
        !version_compatible(v, w),
        !version_compatible(w, v),
{
}

} // verus!
