use raca::corpus::{CorpusError, Crat};
use raca::record::{log_lines, CheckResult, SrcLoc};

#[test]
fn corpus_entry_names() {
    let k = Crat::new("cargo", "0.35.0").unwrap();
    assert_eq!(k.name, "cargo");
    assert_eq!((k.version.major, k.version.minor, k.version.patch), (0, 35, 0));
    assert_eq!(k.version.pretty(), "0.35.0");
    assert_eq!(k.log_name(), "cargo-0.35.0");
    assert_eq!(k.file_name(), "cargo-0.35.0.crate");
    assert_eq!(k.download_url(), "https://crates.io/api/v1/crates/cargo/0.35.0/download");
}

#[test]
fn version_with_prerelease_and_build() {
    let k = Crat::new("x", "1.0.0-alpha.1+build.5").unwrap();
    assert_eq!(k.version.pre, "alpha.1");
    assert_eq!(k.version.build, "build.5");
    assert_eq!(k.version.pretty(), "1.0.0-alpha.1+build.5");
    let k = Crat::new("x", "10.20.30+meta").unwrap();
    assert_eq!(k.version.pretty(), "10.20.30+meta");
}

#[test]
fn invalid_versions_are_refused() {
    assert_eq!(Crat::new("x", "").err(), Some(CorpusError::InvalidVersion));
    assert_eq!(Crat::new("x", "1.2").err(), Some(CorpusError::InvalidVersion));
    assert_eq!(Crat::new("x", "v1.2.3").err(), Some(CorpusError::InvalidVersion));
    assert_eq!(Crat::new("x", "01.2.3").err(), Some(CorpusError::InvalidVersion));
}

#[test]
fn log_has_one_line_per_record() {
    let a = CheckResult {
        krate: "p".to_string(),
        version: "1.0.0".to_string(),
        id: "c".to_string(),
        src_locs: vec![SrcLoc::new("f.rs".to_string(), 1, 2)],
    };
    let b = CheckResult {
        krate: "p".to_string(),
        version: "1.0.0".to_string(),
        id: "d".to_string(),
        src_locs: vec![],
    };
    assert_eq!(log_lines(&vec![a.duplicate(), b]), "p-1.0.0 c f.rs:1:2\np-1.0.0 d NO SRC LOCS\n");
    assert_eq!(log_lines(&vec![]), "");
    assert_eq!(a.duplicate().pretty(), a.pretty());
}
