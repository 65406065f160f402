use updvcspins::error::PinError;
use updvcspins::git::GitSource;
use updvcspins::makepkg::{list_sources, make_resolved_pin, ResolvedPin};
use updvcspins::rewrite::{check_pins_declared, rewrite_manifest};

fn lines(v: &[&str]) -> Vec<String> {
    v.iter().map(|s| s.to_string()).collect()
}

fn sample_pin() -> (String, ResolvedPin) {
    let g = GitSource {
        url: "git+https://example.com/r.git".to_string(),
        commit: None,
        tag: Some("v1".to_string()),
        signed: false,
    };
    let pin = make_resolved_pin(g, "tagh".to_string(), "commith".to_string());
    ("b".to_string(), pin)
}

#[test]
fn rewrite_replaces_pinned_entry_in_commit_mode() {
    let manifest = lines(&[
        "pkgname=x",
        "_commit=old",
        "_tag=old",
        "source=(",
        "    \"stale\"",
        ")",
        "sha256sums=(SKIP)",
    ]);
    let sources = list_sources(&lines(&["a", "b::git+https://example.com/r.git#tag=v1"])).unwrap();
    let pins = vec![sample_pin()];
    let out = rewrite_manifest(&manifest, &pins, &sources, true).unwrap();
    assert_eq!(
        out,
        lines(&[
            "pkgname=x",
            "_commit=commith",
            "_tag=tagh",
            "source=(",
            "    \"a\"",
            "    \"b::git+https://example.com/r.git#commit=commith\"",
            ")",
            "sha256sums=(SKIP)",
        ])
    );
}

#[test]
fn rewrite_replaces_pinned_entry_in_tag_mode() {
    let manifest = lines(&["source=(", "    \"old\"", ")"]);
    let sources = list_sources(&lines(&["a", "b::git+https://example.com/r.git#tag=v1"])).unwrap();
    let pins = vec![sample_pin()];
    let out = rewrite_manifest(&manifest, &pins, &sources, false).unwrap();
    assert_eq!(
        out,
        lines(&["source=(", "    \"a\"", "    \"b::git+https://example.com/r.git#tag=tagh\"", ")"])
    );
}

#[test]
fn rewrite_leaves_unpinned_lines_verbatim() {
    let manifest = lines(&["# a comment", "pkgver=1", "  indented"]);
    let pins = vec![sample_pin()];
    let out = rewrite_manifest(&manifest, &pins, &Vec::new(), false).unwrap();
    assert_eq!(out, lines(&["# a comment", "pkgver=1", "  indented"]));
}

#[test]
fn rewrite_consumes_old_array_to_closing_paren() {
    let manifest = lines(&["source=(", "    \"one\"", "    \"two\"", ")", "after"]);
    let sources = list_sources(&lines(&["a"])).unwrap();
    let pins = vec![sample_pin()];
    let out = rewrite_manifest(&manifest, &pins, &sources, false).unwrap();
    assert_eq!(out, lines(&["source=(", "    \"a\"", ")", "after"]));
}

#[test]
fn rewrite_substitution_needs_a_pin() {
    let manifest = lines(&["_commit=old"]);
    let out = rewrite_manifest(&manifest, &Vec::new(), &Vec::new(), false);
    assert_eq!(out, Err(PinError::NoPinForSubstitution));
}

#[test]
fn rewrite_propagates_filename_errors() {
    let manifest = lines(&["source=(", ")"]);
    let sources = list_sources(&lines(&["https://example.com/"])).unwrap();
    let pins = vec![sample_pin()];
    assert_eq!(rewrite_manifest(&manifest, &pins, &sources, false), Err(PinError::EmptyFilename));
}

#[test]
fn substitution_uses_first_declared_pin() {
    let manifest = lines(&["_commit=old", "_tag=old"]);
    let g = GitSource {
        url: "git+https://example.com/other.git".to_string(),
        commit: None,
        tag: Some("v2".to_string()),
        signed: false,
    };
    let second = ("c".to_string(), make_resolved_pin(g, "t2".to_string(), "c2".to_string()));
    let pins = vec![sample_pin(), second];
    let out = rewrite_manifest(&manifest, &pins, &Vec::new(), false).unwrap();
    assert_eq!(out, lines(&["_commit=commith", "_tag=tagh"]));
}

#[test]
fn lookup_takes_first_entry_for_duplicate_filenames() {
    let manifest = lines(&["source=(", ")"]);
    let sources = list_sources(&lines(&["b::git+https://example.com/r.git#tag=v1"])).unwrap();
    let (name, first) = sample_pin();
    let g = GitSource {
        url: "git+https://example.com/other.git".to_string(),
        commit: None,
        tag: Some("v2".to_string()),
        signed: false,
    };
    let shadowed = make_resolved_pin(g, "t2".to_string(), "c2".to_string());
    let pins = vec![(name.clone(), first), (name, shadowed)];
    let out = rewrite_manifest(&manifest, &pins, &sources, false).unwrap();
    assert_eq!(
        out,
        lines(&["source=(", "    \"b::git+https://example.com/r.git#tag=tagh\"", ")"])
    );
}

#[test]
fn unterminated_array_consumes_remaining_lines() {
    let manifest = lines(&["source=(", "    \"one\"", "never closed"]);
    let sources = list_sources(&lines(&["a"])).unwrap();
    let pins = vec![sample_pin()];
    let out = rewrite_manifest(&manifest, &pins, &sources, false).unwrap();
    assert_eq!(out, lines(&["source=(", "    \"a\"", ")"]));
}

#[test]
fn zero_pins_fail_fast() {
    assert_eq!(check_pins_declared(&Vec::new()), Err(PinError::NoPinsConfigured));
    let some = list_sources(&lines(&["b::git+https://example.com/r.git#tag=v1"])).unwrap();
    assert_eq!(check_pins_declared(&some), Ok(()));
}
