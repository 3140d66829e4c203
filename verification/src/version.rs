//! Schema versions of the envelope, and the versioned envelope: an
//! envelope tagged with the schema version its text declared. Parsing
//! reads the version from the metadata and picks the decode path for
//! that version; today one version exists.

use crate::v0::{env_view, env_wf, sp_env, Envelope, EnvV, pr_env, pr_env_pretty};
use vstd::prelude::*;
use vstd::string::StringExecFns;

verus! {

/// The default version tag.
pub fn default_schema_version() -> (r: String)
    ensures
        r@ == "v0"@,
{
    String::from_str("v0")
}

/// A version of the envelope schema.
#[derive(Debug, Clone, Copy, PartialEq, Eq, Hash, Structural)]
pub enum SchemaVersion {
    V0,
}

impl SchemaVersion {
    /// Every supported version, oldest first.
    pub fn all() -> (r: Vec<SchemaVersion>)
        ensures
            r@.len() == 1,
            r@[0] == SchemaVersion::V0,
    {
        let mut r: Vec<SchemaVersion> = Vec::new();
        r.push(SchemaVersion::V0);
        r
    }

    /// The newest supported version.
    pub fn latest() -> (r: SchemaVersion)
        ensures
            r == SchemaVersion::V0,
    {
        SchemaVersion::V0
    }

    /// Whether this version can read the other: exactly when they are
    /// the same.
    pub fn is_compatible_with(&self, other: &SchemaVersion) -> (r: bool)
        ensures
            r == (*self == *other),
    {
        match (self, other) {
            (SchemaVersion::V0, SchemaVersion::V0) => true,
        }
    }

    /// The version's text tag.
    pub fn to_string(&self) -> (r: String)
        ensures
            self is V0 ==> r@ == "v0"@,
    {
        match self {
            SchemaVersion::V0 => String::from_str("v0"),
        }
    }

    /// The version a tag names, read without regard to letter case;
    /// an unknown tag is reported back.
    pub fn parse_tag(tag: &str) -> (r: Result<SchemaVersion, String>)
        ensures
            (tag@ == "v0"@ || tag@ == "V0"@) <==> (r matches Ok(v) && v == SchemaVersion::V0),
            !(tag@ == "v0"@ || tag@ == "V0"@) ==> (r matches Err(m) && m@
                == "Unknown schema version: "@ + tag@),
    {
        let chars = crate::text::string_to_chars(tag);
        proof {
            reveal_strlit("v0");
            reveal_strlit("V0");
        }
        if chars.len() == 2 && (chars[0] == 'v' || chars[0] == 'V') && chars[1] == '0' {
            proof {
                if chars@[0] == 'v' {
                    assert(tag@ =~= "v0"@);
                } else {
                    assert(tag@ =~= "V0"@);
                }
            }
            Ok(SchemaVersion::V0)
        } else {
            proof {
                assert(tag@ != "v0"@ && tag@ != "V0"@);
            }
            let mut message = String::from_str("Unknown schema version: ");
            message.append(tag);
            Err(message)
        }
    }
}

impl Default for SchemaVersion {
    /// The version assumed when none is declared.
    fn default() -> (r: SchemaVersion)
        ensures
            r == SchemaVersion::V0,
    {
        SchemaVersion::V0
    }
}

impl core::str::FromStr for SchemaVersion {
    type Err = String;

    /// The version a tag names, as `parse_tag` reads it.
    fn from_str(tag: &str) -> Result<SchemaVersion, String> {
        SchemaVersion::parse_tag(tag)
    }
}

/// An envelope tagged with its schema version.
#[derive(Debug, Clone, PartialEq)]
pub enum VersionedEnvelope {
    V0(Envelope),
}

impl VersionedEnvelope {
    /// The envelope a text holds, decoded along the path of the version
    /// its metadata declares; a text that declares none, or an unknown
    /// tag, is read as the default version.
    pub fn from_json(json: &str) -> (r: Result<VersionedEnvelope, String>)
        ensures
            r matches Err(m) ==> sp_env(json@) is None,
            r matches Ok(v) ==> (v matches VersionedEnvelope::V0(e) && sp_env(json@) == Some(
                env_view(e),
            ) && env_wf(env_view(e))),
    {
        match Envelope::from_json(json) {
            Err(m) => Err(m),
            Ok(e) => Ok(VersionedEnvelope::V0(e)),
        }
    }

    /// The envelope's wire form, compact.
    pub fn to_json(&self) -> (r: String)
        ensures
            self matches VersionedEnvelope::V0(e) ==> r@ == pr_env(env_view(*e)),
    {
        match self {
            VersionedEnvelope::V0(e) => e.to_json(),
        }
    }

    /// The envelope's wire form, with each top-level field on its own
    /// line.
    pub fn to_json_pretty(&self) -> (r: String)
        ensures
            self matches VersionedEnvelope::V0(e) ==> r@ == pr_env_pretty(env_view(*e)),
    {
        match self {
            VersionedEnvelope::V0(e) => e.to_json_pretty(),
        }
    }

    /// The version this envelope was decoded as.
    pub fn version(&self) -> (r: SchemaVersion)
        ensures
            self is V0 <==> r == SchemaVersion::V0,
    {
        match self {
            VersionedEnvelope::V0(_) => SchemaVersion::V0,
        }
    }

    /// The envelope, if this is the first version.
    pub fn as_v0(&self) -> (r: Option<&Envelope>)
        ensures
            self matches VersionedEnvelope::V0(e) ==> (r matches Some(inner) && *inner == e),
    {
        match self {
            VersionedEnvelope::V0(e) => Some(e),
        }
    }

    /// The envelope, if this is the first version, by value.
    pub fn into_v0(self) -> (r: Option<Envelope>)
        ensures
            self matches VersionedEnvelope::V0(e) ==> (r matches Some(inner) && inner == e),
    {
        match self {
            VersionedEnvelope::V0(e) => Some(e),
        }
    }

    /// The same envelope at the target version; between distinct
    /// versions no conversion exists yet, and with one version the
    /// target always equals the current version.
    pub fn upgrade_to(&self, target: SchemaVersion) -> (r: Result<VersionedEnvelope, String>)
        ensures
            target == SchemaVersion::V0 ==> (r matches Ok(v) && (self matches
                VersionedEnvelope::V0(e) ==> (v matches VersionedEnvelope::V0(inner) && env_view(
                inner,
            ) == env_view(*e)))),
    {
        match (self, target) {
            (VersionedEnvelope::V0(e), SchemaVersion::V0) => Ok(
                VersionedEnvelope::V0(e.clone_envelope()),
            ),
        }
    }
}

} // verus!
