//! The version policy: when the attributes of a context request are rewritten,
//! and to what.
//!
//! A request for a compatibility profile of a version that the driver does not
//! offer is either lowered to the version it does offer, or turned into a
//! request for a core profile. The driver's ceiling is what its renderer query
//! reported, unless the driver's own version override is set in the
//! environment: then the ceiling is taken to be 3.0, whatever the driver said
//! and whether or not it could be asked. Nothing else forces a rewrite: a
//! request that names no version, or no profile mask, is never touched.

use vstd::prelude::*;
use crate::attrib::{
    lemma_position_is_exact, lemma_scan_stops, lemma_store_changes_one_value, live_len, lookup,
    model, position, store, Attrib,
};
use crate::attrib_list::AttribList;
use crate::option_ext::{FilterOption, OrDefault};
use crate::query_renderer::{ProfileVersion, QueryRenderer};
use crate::text::same_text;

verus! {

/// The key of the profile mask.
pub const GLX_CONTEXT_PROFILE_MASK_ARB: i32 = 0x9126;

/// The key of the requested major version.
pub const GLX_CONTEXT_MAJOR_VERSION_ARB: i32 = 0x2091;

/// The key of the requested minor version.
pub const GLX_CONTEXT_MINOR_VERSION_ARB: i32 = 0x2092;

/// The bit of the profile mask that asks for the core profile.
pub const GLX_CONTEXT_CORE_PROFILE_BIT_ARB: i32 = 0b1;

/// The bit of the profile mask that asks for the compatibility profile.
pub const GLX_CONTEXT_COMPATIBILITY_PROFILE_BIT_ARB: i32 = 0b10;

/// How a request that the driver cannot serve is rewritten.
#[derive(Clone, Copy, Debug, PartialEq, Eq, Structural)]
pub enum HackMethod {
    /// Lower the requested version to the driver's ceiling.
    GiveCompat,
    /// Ask for the core profile and leave the version alone.
    GiveCore,
}

impl HackMethod {
    /// The method that a selector names: `"core"` names `GiveCore`; `"compat"`,
    /// any other text and no selector at all give `GiveCompat`.
    pub open spec fn selected(selector: Option<Seq<char>>) -> HackMethod {
        if selector == Some("core"@) {
            HackMethod::GiveCore
        } else {
            HackMethod::GiveCompat
        }
    }

    /// Reads the method from the value of the method selector, if it is set.
    pub fn get(selector: Option<&str>) -> (method: HackMethod)
        ensures
            method == Self::selected(
                match selector {
                    Some(s) => Some(s@),
                    None => None,
                },
            ),
    {
        let named = match selector {
            Some(s) => if same_text(s, "compat") {
                Some(HackMethod::GiveCompat)
            } else if same_text(s, "core") {
                Some(HackMethod::GiveCore)
            } else {
                None
            },
            None => None,
        };
        proof {
            reveal_strlit("compat");
            reveal_strlit("core");
            assert("compat"@ != "core"@) by {
                assert("compat"@.len() != "core"@.len());
            }
        }
        named.or_default()
    }
}

impl Default for HackMethod {
    fn default() -> (method: HackMethod)
        ensures
            method == HackMethod::GiveCompat,
    {
        HackMethod::GiveCompat
    }
}

/// The environment variable that selects the method.
pub const HACK_METHOD_VARIABLE: &'static str = "WINE_X11DRV_LOL_HACK_METHOD";

/// What is read from the environment for one rewrite.
#[derive(Clone, Copy, Debug, PartialEq, Eq)]
pub struct HackConfig {
    /// Whether the driver's version override is set.
    pub version_override: bool,
    /// The method to rewrite by.
    pub method: HackMethod,
}

impl HackConfig {
    /// The configuration that the environment gives: `version_override` is
    /// the value of the driver's version override and `method` the value of
    /// the method selector, each where it is set. That the override is set is
    /// all that counts of it; its value is not read.
    pub fn from_env(version_override: Option<&str>, method: Option<&str>) -> (config: HackConfig)
        ensures
            config.version_override == (version_override is Some),
            config.method == HackMethod::selected(
                match method {
                    Some(s) => Some(s@),
                    None => None,
                },
            ),
    {
        HackConfig { version_override: version_override.is_some(), method: HackMethod::get(method) }
    }
}

/// What the policy decides for one request.
#[derive(Clone, Copy, Debug, PartialEq, Eq, Structural)]
pub enum Rewrite {
    /// The attributes stay as they are.
    Keep,
    /// The requested major and minor version become those of this version.
    Version(ProfileVersion),
    /// The profile mask becomes the core profile bit.
    CoreProfile,
}

/// The version that the attributes ask for: there is one where both the major
/// and the minor version are given.
pub open spec fn requested_version(slots: Seq<Option<(i32, i32)>>) -> Option<ProfileVersion> {
    match (
        lookup(slots, GLX_CONTEXT_MAJOR_VERSION_ARB),
        lookup(slots, GLX_CONTEXT_MINOR_VERSION_ARB),
    ) {
        (Some(major), Some(minor)) => Some(ProfileVersion { major, minor }),
        _ => None,
    }
}

/// Whether a profile mask asks for the compatibility profile.
pub open spec fn wants_compatibility(mask: i32) -> bool {
    mask & GLX_CONTEXT_COMPATIBILITY_PROFILE_BIT_ARB != 0
}

/// The ceiling that requests are held against: 3.0 under the version
/// override, else what the driver reported, if it could be asked.
pub open spec fn effective_ceiling(
    reported: Option<ProfileVersion>,
    version_override: bool,
) -> Option<ProfileVersion> {
    if version_override {
        Some(ProfileVersion { major: 3, minor: 0 })
    } else {
        reported
    }
}

/// The decision. A request is rewritten where it names a version, the ceiling
/// is known and lies below that version, and the profile mask is there and
/// asks for the compatibility profile.
pub open spec fn decision(
    requested: Option<ProfileVersion>,
    profile_mask: Option<i32>,
    reported: Option<ProfileVersion>,
    config: HackConfig,
) -> Rewrite {
    match (requested, effective_ceiling(reported, config.version_override), profile_mask) {
        (Some(version), Some(ceiling), Some(mask)) => if ceiling.precedes(version)
            && wants_compatibility(mask) {
            match config.method {
                HackMethod::GiveCompat => Rewrite::Version(ceiling),
                HackMethod::GiveCore => Rewrite::CoreProfile,
            }
        } else {
            Rewrite::Keep
        },
        _ => Rewrite::Keep,
    }
}

/// The storage after a decision was carried out.
pub open spec fn rewritten(slots: Seq<Option<(i32, i32)>>, rewrite: Rewrite) -> Seq<
    Option<(i32, i32)>,
> {
    match rewrite {
        Rewrite::Keep => slots,
        Rewrite::Version(version) => store(
            store(slots, GLX_CONTEXT_MAJOR_VERSION_ARB, version.major),
            GLX_CONTEXT_MINOR_VERSION_ARB,
            version.minor,
        ),
        Rewrite::CoreProfile => store(
            slots,
            GLX_CONTEXT_PROFILE_MASK_ARB,
            GLX_CONTEXT_CORE_PROFILE_BIT_ARB,
        ),
    }
}

/// Whatever is decided, the list keeps its shape: no slot is added or lost,
/// the terminator stays where it is, and every record keeps its key.
pub proof fn lemma_rewrite_keeps_the_list(slots: Seq<Option<(i32, i32)>>, rewrite: Rewrite)
    ensures
        rewritten(slots, rewrite).len() == slots.len(),
        live_len(rewritten(slots, rewrite)) == live_len(slots),
        forall|j: int|
            0 <= j < live_len(slots) ==> ((#[trigger] rewritten(slots, rewrite)[j]) matches Some(
                after,
            ) && slots[j] matches Some(before) && after.0 == before.0),
        forall|j: int|
            live_len(slots) <= j < slots.len() ==> #[trigger] rewritten(slots, rewrite)[j]
                == slots[j],
{
    lemma_scan_stops(slots);
    match rewrite {
        Rewrite::Keep => {},
        Rewrite::Version(version) => {
            let first = store(slots, GLX_CONTEXT_MAJOR_VERSION_ARB, version.major);
            lemma_store_changes_one_value(slots, GLX_CONTEXT_MAJOR_VERSION_ARB, version.major);
            lemma_store_changes_one_value(first, GLX_CONTEXT_MINOR_VERSION_ARB, version.minor);
            lemma_position_is_exact(slots, GLX_CONTEXT_MAJOR_VERSION_ARB);
            lemma_position_is_exact(first, GLX_CONTEXT_MINOR_VERSION_ARB);
            lemma_scan_stops(first);
        },
        Rewrite::CoreProfile => {
            lemma_store_changes_one_value(
                slots,
                GLX_CONTEXT_PROFILE_MASK_ARB,
                GLX_CONTEXT_CORE_PROFILE_BIT_ARB,
            );
            lemma_position_is_exact(slots, GLX_CONTEXT_PROFILE_MASK_ARB);
        },
    }
}

/// Decides what to do with a request, from the values that were read from its
/// attributes, from the driver and from the environment.
pub fn version_policy(
    requested: Option<ProfileVersion>,
    profile_mask: Option<i32>,
    reported: Option<ProfileVersion>,
    config: HackConfig,
) -> (rewrite: Rewrite)
    ensures
        rewrite == decision(requested, profile_mask, reported, config),
{
    let ceiling = if config.version_override {
        Some(ProfileVersion::new(3, 0))
    } else {
        reported
    };
    let asks_compatibility = |v: &i32| -> (compat: bool)
        ensures
            compat == wants_compatibility(*v),
        {
            let bit = *v & GLX_CONTEXT_COMPATIBILITY_PROFILE_BIT_ARB;
            bit != 0
        };
    let profile = profile_mask.filter_opt(asks_compatibility);
    match (requested, ceiling, profile) {
        (Some(version), Some(ceiling), Some(_)) => {
            if ceiling < version {
                match config.method {
                    HackMethod::GiveCompat => Rewrite::Version(ceiling),
                    HackMethod::GiveCore => Rewrite::CoreProfile,
                }
            } else {
                Rewrite::Keep
            }
        },
        _ => Rewrite::Keep,
    }
}

/// The value that the attributes give for `key`, if they give one.
fn read(attribs: &mut [Option<Attrib>], key: i32) -> (value: Option<i32>)
    ensures
        value == lookup(model(old(attribs)@), key),
        final(attribs)@ == old(attribs)@,
{
    match AttribList::new(attribs).get(key) {
        Some(attr) => {
            proof {
                let slots = old(attribs)@;
                let i = position(model(slots), key)->0;
                lemma_scan_stops(model(slots));
                assert(slots.update(i, Some(*attr)) =~= slots);
            }
            Some(attr.value())
        },
        None => None,
    }
}

/// Rewrites the attributes of a context request in place, as the policy
/// decides from them, from the driver's answers and from the environment.
pub fn glxdrv_apply_version_hack(
    attribs: &mut [Option<Attrib>],
    qr_ext: Option<QueryRenderer>,
    config: HackConfig,
)
    ensures
        model(final(attribs)@) == rewritten(
            model(old(attribs)@),
            decision(
                requested_version(model(old(attribs)@)),
                lookup(model(old(attribs)@), GLX_CONTEXT_PROFILE_MASK_ARB),
                match qr_ext {
                    Some(qr) => Some(qr.compatibility),
                    None => None,
                },
                config,
            ),
        ),
{
    let major = read(attribs, GLX_CONTEXT_MAJOR_VERSION_ARB);
    let minor = read(attribs, GLX_CONTEXT_MINOR_VERSION_ARB);
    let profile_version = match (major, minor) {
        (Some(major), Some(minor)) => Some(ProfileVersion { major: major, minor: minor }),
        _ => None,
    };
    let profile = read(attribs, GLX_CONTEXT_PROFILE_MASK_ARB);
    let reported = match qr_ext {
        Some(qr) => Some(qr.max_compatibility_profile_version()),
        None => None,
    };
    match version_policy(profile_version, profile, reported, config) {
        Rewrite::Keep => {},
        Rewrite::Version(qr) => {
            AttribList::new(attribs).set(GLX_CONTEXT_MAJOR_VERSION_ARB, qr.major);
            AttribList::new(attribs).set(GLX_CONTEXT_MINOR_VERSION_ARB, qr.minor);
        },
        Rewrite::CoreProfile => {
            AttribList::new(attribs).set(
                GLX_CONTEXT_PROFILE_MASK_ARB,
                GLX_CONTEXT_CORE_PROFILE_BIT_ARB,
            );
        },
    }
}

} // verus!
