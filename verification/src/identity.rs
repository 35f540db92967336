//! The agent identity: an immutable record of collection level, host
//! platform, and installed OS version, resolved once at startup.

use vstd::prelude::*;
use vstd::string::StringExecFns;

use crate::data_map::DataMap;
use crate::error::IdentityError;
use crate::text::str_eq;

verus! {

/// The level that a request resolves to: `"minimal"` and `"full"` are
/// kept as they are; any other request falls back silently to
/// `"minimal"`.
pub open spec fn effective_level(req: Seq<char>) -> Seq<char> {
    if req == "minimal"@ || req == "full"@ {
        req
    } else {
        "minimal"@
    }
}

/// Agent identity. Built once from a requested collection level and
/// the outcomes of the platform and OS-version lookups; never mutated
/// afterwards.
#[derive(Debug)]
pub struct Identity {
    level: String,
    platform: String,
    current_os_version: String,
}

impl Identity {
    /// The collection level.
    pub closed spec fn spec_level(&self) -> Seq<char> {
        self.level@
    }

    /// The host platform.
    pub closed spec fn spec_platform(&self) -> Seq<char> {
        self.platform@
    }

    /// The installed OS version.
    pub closed spec fn spec_os_version(&self) -> Seq<char> {
        self.current_os_version@
    }

    /// A well-formed identity: the level is one of the two canonical
    /// values, and platform and version are non-empty.
    pub open spec fn wf(&self) -> bool {
        (self.spec_level() == "minimal"@ || self.spec_level() == "full"@)
            && self.spec_platform().len() > 0 && self.spec_os_version().len() > 0
    }

    /// The collection level.
    pub fn level(&self) -> (r: &String)
        ensures
            r@ == self.spec_level(),
    {
        &self.level
    }

    /// The host platform.
    pub fn platform(&self) -> (r: &String)
        ensures
            r@ == self.spec_platform(),
    {
        &self.platform
    }

    /// The installed OS version.
    pub fn current_os_version(&self) -> (r: &String)
        ensures
            r@ == self.spec_os_version(),
    {
        &self.current_os_version
    }

    /// Assembles an identity from a level request and the outcomes of
    /// the two lookups, which the caller performs against the kernel
    /// command line and the OS-release file. The level is normalized;
    /// a failed lookup is handed back unchanged, the platform lookup
    /// first.
    pub fn try_default(
        level: &str,
        platform: Result<String, IdentityError>,
        current_os_version: Result<String, IdentityError>,
    ) -> (r: Result<Identity, IdentityError>)
        ensures
            r matches Ok(id) ==> id.spec_level() == "minimal"@ || id.spec_level() == "full"@,
            (match (platform, current_os_version) {
                (Ok(p), Ok(v)) => r matches Ok(id) && id.spec_level() == effective_level(level@)
                    && id.spec_platform() == p@ && id.spec_os_version() == v@ && (p@.len() > 0
                    && v@.len() > 0 ==> id.wf()),
                (Err(e), _) => r == Result::<Identity, IdentityError>::Err(e),
                (Ok(_), Err(e)) => r == Result::<Identity, IdentityError>::Err(e),
            }),
    {
        let eff = if str_eq(level, "minimal") || str_eq(level, "full") {
            String::from_str(level)
        } else {
            String::from_str("minimal")
        };
        let p = match platform {
            Ok(p) => p,
            Err(e) => {
                return Err(e);
            },
        };
        let v = match current_os_version {
            Ok(v) => v,
            Err(e) => {
                return Err(e);
            },
        };
        Ok(Identity { level: eff, platform: p, current_os_version: v })
    }

    /// Resolves an identity for `level_request`: normalizes the level
    /// once, then assembles the record from the two lookup outcomes. A
    /// failed lookup becomes a `Construction` error that names the
    /// effective level being built and wraps the cause; an
    /// unrecognized level request raises no error.
    pub fn resolve(
        level_request: &str,
        platform: Result<String, IdentityError>,
        current_os_version: Result<String, IdentityError>,
    ) -> (r: Result<Identity, IdentityError>)
        ensures
            r matches Ok(id) ==> id.spec_level() == "minimal"@ || id.spec_level() == "full"@,
            (match (platform, current_os_version) {
                (Ok(p), Ok(v)) => r matches Ok(id) && id.spec_level() == effective_level(
                    level_request@,
                ) && id.spec_platform() == p@ && id.spec_os_version() == v@ && (p@.len() > 0
                    && v@.len() > 0 ==> id.wf()),
                (Err(e), _) => r matches Err(IdentityError::Construction { level, cause })
                    && level@ == effective_level(level_request@) && cause == e,
                (Ok(_), Err(e)) => r matches Err(IdentityError::Construction { level, cause })
                    && level@ == effective_level(level_request@) && cause == e,
            }),
    {
        let eff = if str_eq(level_request, "minimal") || str_eq(level_request, "full") {
            String::from_str(level_request)
        } else {
            String::from_str("minimal")
        };
        match Self::try_default(eff.as_str(), platform, current_os_version) {
            Ok(id) => Ok(id),
            Err(e) => Err(IdentityError::Construction { level: eff, cause: Box::new(e) }),
        }
    }

    /// A fixed identity for tests and local runs: no lookups are
    /// performed; the level request is normalized as in `resolve`.
    pub fn mock_default(level: &str) -> (r: Identity)
        ensures
            r.spec_level() == effective_level(level@),
            r.spec_platform() == (if level@ == "full"@ {
                "mock-gcp"@
            } else {
                "mock-qemu"@
            }),
            r.spec_os_version() == "mock-os-version"@,
            r.wf(),
    {
        proof {
            reveal_strlit("minimal");
            reveal_strlit("full");
            reveal_strlit("mock-qemu");
            reveal_strlit("mock-gcp");
            reveal_strlit("mock-os-version");
        }
        if str_eq(level, "full") {
            Identity {
                level: String::from_str("full"),
                platform: String::from_str("mock-gcp"),
                current_os_version: String::from_str("mock-os-version"),
            }
        } else {
            Identity {
                level: String::from_str("minimal"),
                platform: String::from_str("mock-qemu"),
                current_os_version: String::from_str("mock-os-version"),
            }
        }
    }

    /// Projects the identity into a flat mapping holding exactly the
    /// three keys `level`, `platform` and `current_os_version`, with
    /// the values taken verbatim from the record.
    pub fn get_data(&self) -> (r: DataMap)
        ensures
            r@ == Map::<Seq<char>, Seq<char>>::empty().insert("level"@, self.spec_level()).insert(
                "platform"@,
                self.spec_platform(),
            ).insert("current_os_version"@, self.spec_os_version()),
            r@.dom().len() == 3,
    {
        let mut vars = DataMap::new();
        vars.insert(String::from_str("level"), self.level.clone());
        vars.insert(String::from_str("platform"), self.platform.clone());
        vars.insert(String::from_str("current_os_version"), self.current_os_version.clone());
        proof {
            reveal_strlit("level");
            reveal_strlit("platform");
            reveal_strlit("current_os_version");
            let s0 = Set::<Seq<char>>::empty();
            let s1 = s0.insert("level"@);
            let s2 = s1.insert("platform"@);
            let s3 = s2.insert("current_os_version"@);
            assert("level"@.len() == 5);
            assert("platform"@.len() == 8);
            assert("current_os_version"@.len() == 18);
            assert("level"@ != "platform"@ && "level"@ != "current_os_version"@ && "platform"@
                != "current_os_version"@);
            assert(s0.len() == 0 && s0.finite());
            vstd::set::axiom_set_insert_finite(s0, "level"@);
            vstd::set::axiom_set_insert_finite(s1, "platform"@);
            vstd::set::axiom_set_insert_len(s0, "level"@);
            vstd::set::axiom_set_insert_len(s1, "platform"@);
            vstd::set::axiom_set_insert_len(s2, "current_os_version"@);
            assert(s3.len() == 3);
            assert(vars@.dom() =~= s3);
        }
        vars
    }
}

} // verus!
