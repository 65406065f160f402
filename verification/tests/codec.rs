use updvcspins::git::GitSource;

fn git(url: &str, commit: Option<&str>, tag: Option<&str>, signed: bool) -> GitSource {
    GitSource {
        url: url.to_string(),
        commit: commit.map(|s| s.to_string()),
        tag: tag.map(|s| s.to_string()),
        signed,
    }
}

#[test]
fn encode_plain_url() {
    let g = git("git+https://example.com/r.git", None, None, false);
    assert_eq!(g.encode(), "git+https://example.com/r.git");
}

#[test]
fn encode_with_tag() {
    let g = git("git+https://example.com/r.git", None, Some("v1"), false);
    assert_eq!(g.encode(), "git+https://example.com/r.git#tag=v1");
}

#[test]
fn encode_with_commit_and_signed() {
    let g = git("git+https://example.com/r.git", Some("abc123"), None, true);
    assert_eq!(g.encode(), "git+https://example.com/r.git?signed#commit=abc123");
}

#[test]
fn encode_with_both_suffixes() {
    // the format does not enforce mutual exclusion: both are emitted
    let g = git("u", Some("a"), Some("b"), false);
    assert_eq!(g.encode(), "u#commit=a#tag=b");
}

#[test]
fn decode_plain_url() {
    let g = GitSource::decode("git+https://example.com/r.git");
    assert_eq!(g, git("git+https://example.com/r.git", None, None, false));
}

#[test]
fn decode_with_tag() {
    let g = GitSource::decode("git+https://example.com/r.git#tag=v1");
    assert_eq!(g, git("git+https://example.com/r.git", None, Some("v1"), false));
}

#[test]
fn decode_with_commit() {
    let g = GitSource::decode("git+https://example.com/r.git#commit=abc123");
    assert_eq!(g, git("git+https://example.com/r.git", Some("abc123"), None, false));
}

#[test]
fn decode_trailing_signed() {
    let g = GitSource::decode("git+https://example.com/r.git?signed");
    assert_eq!(g, git("git+https://example.com/r.git", None, None, true));
}

#[test]
fn decode_signed_before_tag_suffix() {
    // the signed marker sits before the tag suffix, so only the second
    // strip pass can catch it
    let g = GitSource::decode("git+https://example.com/r.git?signed#tag=v1");
    assert_eq!(g, git("git+https://example.com/r.git", None, Some("v1"), true));
}

#[test]
fn decode_signed_before_commit_suffix() {
    let g = GitSource::decode("git+https://example.com/r.git?signed#commit=abc");
    assert_eq!(g, git("git+https://example.com/r.git", Some("abc"), None, true));
}

#[test]
fn decode_takes_last_commit_marker() {
    let g = GitSource::decode("u#commit=a#commit=b");
    assert_eq!(g, git("u#commit=a", Some("b"), None, false));
}

#[test]
fn decode_commit_swallows_later_tag() {
    // decoding splits on `#commit=` first, so a tag emitted after a
    // commit ends up inside the commit value: the ambiguous ordering
    let g = GitSource::decode("u#commit=a#tag=b");
    assert_eq!(g, git("u", Some("a#tag=b"), None, false));
}

#[test]
fn round_trip_tag_only() {
    let g = git("git+https://example.com/r.git", None, Some("v1.2.3"), false);
    assert_eq!(GitSource::decode(&g.encode()), g);
}

#[test]
fn round_trip_commit_signed() {
    let g = git("git+https://example.com/r.git", Some("deadbeef"), None, true);
    assert_eq!(GitSource::decode(&g.encode()), g);
}

#[test]
fn round_trip_bare_signed() {
    let g = git("git+https://example.com/r.git", None, None, true);
    assert_eq!(GitSource::decode(&g.encode()), g);
}

#[test]
fn tag_ref_path_with_tag() {
    let g = git("git+https://example.com/r.git", None, Some("v1"), false);
    assert_eq!(g.tag_ref_path().unwrap(), "refs/tags/v1");
}

#[test]
fn tag_ref_path_without_tag() {
    let g = git("git+https://example.com/r.git", None, None, false);
    assert_eq!(g.tag_ref_path(), Err(updvcspins::error::PinError::NoTagConfigured));
}
