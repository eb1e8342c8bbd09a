//! The packages of the corpus: a name and a semantic version each, with the
//! file, address and log names derived from them.

use vstd::prelude::*;
use crate::text::{decimal, push_decimal};

verus! {

/// A semantic version, as its parts.
pub struct Version {
    pub major: u64,
    pub minor: u64,
    pub patch: u64,
    /// Pre-release identifiers; empty where there are none.
    pub pre: String,
    /// Build metadata; empty where there is none.
    pub build: String,
}

/// The mathematical value of a [`Version`].
pub struct VersionModel {
    pub major: nat,
    pub minor: nat,
    pub patch: nat,
    pub pre: Seq<char>,
    pub build: Seq<char>,
}

impl View for Version {
    type V = VersionModel;

    open spec fn view(&self) -> VersionModel {
        VersionModel {
            major: self.major as nat,
            minor: self.minor as nat,
            patch: self.patch as nat,
            pre: self.pre@,
            build: self.build@,
        }
    }
}

/// What `semver` reads from a version text: the version, or nothing where
/// the text is no semantic version.
pub uninterp spec fn semver_of(text: Seq<char>) -> Option<VersionModel>;

#[verifier::external_type_specification]
#[verifier::external_body]
pub struct ExSemverError(semver::Error);

/// The model of a version parse.
pub open spec fn parsed_version(r: Result<Version, semver::Error>) -> Option<VersionModel> {
    match r {
        Ok(v) => Some(v@),
        Err(_) => None,
    }
}

/// Relies on semver::Version::parse, which reads `major.minor.patch` with
/// optional `-pre` and `+build` parts and refuses the empty text; its
/// prerelease and build parts are taken by `as_str`.
#[verifier::external_body]
fn parse_semver(text: &str) -> (r: Result<Version, semver::Error>)
    ensures
        parsed_version(r) == semver_of(text@),
        text@.len() == 0 ==> r is Err,
{
    let v = semver::Version::parse(text)?;
    Ok(
        Version {
            major: v.major,
            minor: v.minor,
            patch: v.patch,
            pre: v.pre.as_str().to_string(),
            build: v.build.as_str().to_string(),
        },
    )
}

/// `major.minor.patch`, then `-pre` and `+build` where they are not empty.
pub open spec fn version_text(v: VersionModel) -> Seq<char> {
    let core = decimal(v.major) + seq!['.'] + decimal(v.minor) + seq!['.'] + decimal(v.patch);
    let with_pre = if v.pre.len() > 0 {
        core + seq!['-'] + v.pre
    } else {
        core
    };
    if v.build.len() > 0 {
        with_pre + seq!['+'] + v.build
    } else {
        with_pre
    }
}

impl Version {
    /// Appends the version's notation.
    pub fn push_text(&self, s: &mut String)
        ensures
            final(s)@ == old(s)@ + version_text(self@),
    {
        proof {
            reveal_strlit(".");
            reveal_strlit("-");
            reveal_strlit("+");
        }
        let ghost start = s@;
        push_decimal(s, self.major);
        s.append(".");
        push_decimal(s, self.minor);
        s.append(".");
        push_decimal(s, self.patch);
        if self.pre.unicode_len() > 0 {
            s.append("-");
            s.append(self.pre.as_str());
        }
        if self.build.unicode_len() > 0 {
            s.append("+");
            s.append(self.build.as_str());
        }
        assert(s@ =~= start + version_text(self@));
    }

    /// The version's notation.
    pub fn pretty(&self) -> (r: String)
        ensures
            r@ == version_text(self@),
    {
        let mut s = String::new();
        self.push_text(&mut s);
        assert(s@ =~= version_text(self@));
        s
    }
}

/// Why a corpus entry cannot be made.
#[derive(PartialEq, Eq, Structural, Clone, Copy, Debug)]
pub enum CorpusError {
    /// The version text is no semantic version.
    InvalidVersion,
}

/// A package of the corpus.
pub struct Crat {
    pub name: String,
    pub version: Version,
}

impl Crat {
    /// The package `name` at `version`; an error where `version` is no
    /// semantic version.
    pub fn new(name: &str, version: &str) -> (r: Result<Crat, CorpusError>)
        ensures
            r is Ok <==> semver_of(version@) is Some,
            r matches Ok(c) ==> c.name@ == name@ && Some(c.version@) == semver_of(version@),
            r matches Err(e) ==> e == CorpusError::InvalidVersion,
    {
        match parse_semver(version) {
            Ok(v) => Ok(Crat { name: name.to_owned(), version: v }),
            Err(_) => Err(CorpusError::InvalidVersion),
        }
    }

    /// `<name>-<version>`, the name of the package's log.
    pub fn log_name(&self) -> (r: String)
        ensures
            r@ == self.name@ + seq!['-'] + version_text(self.version@),
    {
        proof {
            reveal_strlit("-");
        }
        let mut s = String::new();
        s.append(self.name.as_str());
        s.append("-");
        self.version.push_text(&mut s);
        assert(s@ =~= self.name@ + seq!['-'] + version_text(self.version@));
        s
    }

    /// `<name>-<version>.crate`, the name of the downloaded archive.
    pub fn file_name(&self) -> (r: String)
        ensures
            r@ == self.name@ + seq!['-'] + version_text(self.version@) + ".crate"@,
    {
        let mut s = self.log_name();
        s.append(".crate");
        s
    }

    /// The registry address from which the archive is downloaded.
    pub fn download_url(&self) -> (r: String)
        ensures
            r@ == "https://crates.io/api/v1/crates/"@ + self.name@ + seq!['/'] + version_text(
                self.version@,
            ) + "/download"@,
    {
        proof {
            reveal_strlit("/");
        }
        let mut s = String::from_str("https://crates.io/api/v1/crates/");
        let ghost head = s@;
        s.append(self.name.as_str());
        s.append("/");
        self.version.push_text(&mut s);
        s.append("/download");
        assert(s@ =~= head + self.name@ + seq!['/'] + version_text(self.version@) + "/download"@);
        s
    }
}

} // verus!
