//! Package versions: plain major/minor/patch numbers plus pre-release and
//! build metadata text, parsed from manifest version strings by the semver
//! crate.

use vstd::prelude::*;

verus! {

/// A semantic version, held as plain values.
#[derive(Debug, Clone, PartialEq, Eq, Hash)]
pub struct Version {
    pub major: u64,
    pub minor: u64,
    pub patch: u64,
    pub pre: String,
    pub build: String,
}

impl Version {
    /// The version a freshly created package starts at.
    pub fn initial() -> (r: Version)
        ensures
            r.major == 0 && r.minor == 1 && r.patch == 0,
            r.pre@.len() == 0 && r.build@.len() == 0,
    {
        Version { major: 0, minor: 1, patch: 0, pre: String::new(), build: String::new() }
    }

    pub open spec fn spec_eq(&self, other: &Version) -> bool {
        &&& self.major == other.major
        &&& self.minor == other.minor
        &&& self.patch == other.patch
        &&& self.pre@ == other.pre@
        &&& self.build@ == other.build@
    }

    /// Whether two versions are identical, build metadata included.
    pub fn same_as(&self, other: &Version) -> (r: bool)
        ensures
            r == self.spec_eq(other),
    {
        self.major == other.major && self.minor == other.minor && self.patch == other.patch
            && crate::strutil::str_eq(self.pre.as_str(), other.pre.as_str())
            && crate::strutil::str_eq(self.build.as_str(), other.build.as_str())
    }

    /// The version rendered as `major.minor.patch` with any pre-release and
    /// build metadata appended.
    pub fn text(&self) -> (r: String)
        ensures
            r@ == crate::strutil::spec_dec(self.major as nat) + "."@
                + crate::strutil::spec_dec(self.minor as nat) + "."@
                + crate::strutil::spec_dec(self.patch as nat)
                + (if self.pre@.len() > 0 { "-"@ + self.pre@ } else { Seq::<char>::empty() })
                + (if self.build@.len() > 0 { "+"@ + self.build@ } else { Seq::<char>::empty() }),
    {
        let mut r = crate::strutil::dec_of(self.major);
        r.push_str(".");
        let m = crate::strutil::dec_of(self.minor);
        r.push_str(m.as_str());
        r.push_str(".");
        let p = crate::strutil::dec_of(self.patch);
        r.push_str(p.as_str());
        if self.pre.as_str().unicode_len() > 0 {
            r.push_str("-");
            r.push_str(self.pre.as_str());
        }
        if self.build.as_str().unicode_len() > 0 {
            r.push_str("+");
            r.push_str(self.build.as_str());
        }
        assert(r@ =~= crate::strutil::spec_dec(self.major as nat) + "."@
            + crate::strutil::spec_dec(self.minor as nat) + "."@
            + crate::strutil::spec_dec(self.patch as nat)
            + (if self.pre@.len() > 0 { "-"@ + self.pre@ } else { Seq::<char>::empty() })
            + (if self.build@.len() > 0 { "+"@ + self.build@ } else { Seq::<char>::empty() }));
        r
    }
}

/// What the semver grammar makes of a version string: nothing if the text is
/// not a valid semantic version, else its numeric components and its
/// pre-release and build metadata text.  The result depends on the
/// characters alone.
pub uninterp spec fn semver_of(s: Seq<char>) -> Option<(u64, u64, u64, Seq<char>, Seq<char>)>;

/// Relies on semver's `Version::parse`: parses a semantic version string
/// into its major, minor and patch numbers and its pre-release and build
/// metadata, failing exactly on text that is not a valid semantic version.
#[verifier::external_body]
pub fn parse_version(s: &str) -> (r: Option<Version>)
    ensures
        match r {
            Some(v) => semver_of(s@) matches Some(t) && v.major == t.0 && v.minor == t.1
                && v.patch == t.2 && v.pre@ == t.3 && v.build@ == t.4,
            None => semver_of(s@) is None,
        },
{
    match semver::Version::parse(s) {
        Ok(v) => Some(Version {
            major: v.major,
            minor: v.minor,
            patch: v.patch,
            pre: v.pre.as_str().to_owned(),
            build: v.build.as_str().to_owned(),
        }),
        Err(_) => None,
    }
}

} // verus!
