use vstd::prelude::*;

verus! {

/// A semantic version: major, minor and patch numbers, with pre-release and build labels.
///
/// Its labels are either empty or ones that `semver` accepted while parsing a version string.
#[derive(Debug, PartialEq, Eq)]
pub struct Version {
    major: u64,
    minor: u64,
    patch: u64,
    pre: String,
    build: String,
}

/// The five parts that `semver::Version::parse` finds in a string, when it accepts it.
pub uninterp spec fn semver_parts(s: Seq<char>) -> Option<(u64, u64, u64, Seq<char>, Seq<char>)>;

/// Relies on `semver::Version::parse`: whether a string is a semantic version, and its parts.
#[verifier::external_body]
fn parse_semver(s: &str) -> (r: Option<(u64, u64, u64, String, String)>)
    ensures
        match r {
            None => semver_parts(s@) is None,
            Some(p) => semver_parts(s@) == Some((p.0, p.1, p.2, p.3@, p.4@)),
        },
{
    match semver::Version::parse(s) {
        Ok(v) => Some((v.major, v.minor, v.patch, v.pre.as_str().to_string(), v.build.as_str().to_string())),
        Err(_) => None,
    }
}

impl Version {
    #[verifier::type_invariant]
    spec fn labels_are_semver(&self) -> bool {
        (self.pre@.len() == 0 && self.build@.len() == 0) || exists|s: Seq<char>|
            semver_parts(s) == Some((self.major, self.minor, self.patch, self.pre@, self.build@))
    }

    pub closed spec fn spec_major(&self) -> u64 {
        self.major
    }

    pub closed spec fn spec_minor(&self) -> u64 {
        self.minor
    }

    pub closed spec fn spec_patch(&self) -> u64 {
        self.patch
    }

    pub closed spec fn spec_pre(&self) -> Seq<char> {
        self.pre@
    }

    pub closed spec fn spec_build(&self) -> Seq<char> {
        self.build@
    }

    /// A release version without labels.
    pub fn new(major: u64, minor: u64, patch: u64) -> (r: Version)
        ensures
            r.spec_major() == major && r.spec_minor() == minor && r.spec_patch() == patch,
            r.spec_pre().len() == 0 && r.spec_build().len() == 0,
    {
        Version { major, minor, patch, pre: String::new(), build: String::new() }
    }

    /// Parses a semantic version string.
    pub fn parse(s: &str) -> (r: Option<Version>)
        ensures
            match r {
                None => semver_parts(s@) is None,
                Some(v) => semver_parts(s@) == Some(
                    (v.spec_major(), v.spec_minor(), v.spec_patch(), v.spec_pre(), v.spec_build()),
                ),
            },
    {
        match parse_semver(s) {
            None => None,
            Some((major, minor, patch, pre, build)) => Some(Version { major, minor, patch, pre, build }),
        }
    }

    pub fn major(&self) -> (r: u64)
        ensures
            r == self.spec_major(),
    {
        self.major
    }

    pub fn minor(&self) -> (r: u64)
        ensures
            r == self.spec_minor(),
    {
        self.minor
    }

    pub fn patch(&self) -> (r: u64)
        ensures
            r == self.spec_patch(),
    {
        self.patch
    }

    /// The pre-release label, empty for a release.
    pub fn pre(&self) -> (r: &str)
        ensures
            r@ == self.spec_pre(),
    {
        self.pre.as_str()
    }

    /// The build label, empty when there is none.
    pub fn build(&self) -> (r: &str)
        ensures
            r@ == self.spec_build(),
    {
        self.build.as_str()
    }
}

} // verus!
