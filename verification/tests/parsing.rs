use updvcspins::error::PinError;
use updvcspins::git::GitSource;
use updvcspins::makepkg::{
    list_pins, list_sources, list_source_list_from_var, make_resolved_pin, pin_git_source, Input,
    Source,
};

#[test]
fn from_str_https_is_url() {
    let s = Source::from_str("https://example.com/file.tar.gz").unwrap();
    assert_eq!(s, Source::Url("https://example.com/file.tar.gz".to_string()));
    assert_eq!(s.encoded(), "https://example.com/file.tar.gz");
}

#[test]
fn from_str_http_and_ftp_are_urls() {
    assert_eq!(
        Source::from_str("http://example.com/a").unwrap(),
        Source::Url("http://example.com/a".to_string())
    );
    assert_eq!(
        Source::from_str("ftp://example.com/a").unwrap(),
        Source::Url("ftp://example.com/a".to_string())
    );
}

#[test]
fn from_str_git_scheme_is_git() {
    let s = Source::from_str("git+https://example.com/r.git#tag=v1").unwrap();
    let expected = GitSource {
        url: "git+https://example.com/r.git".to_string(),
        commit: None,
        tag: Some("v1".to_string()),
        signed: false,
    };
    assert_eq!(s, Source::Git(expected));
}

#[test]
fn from_str_unknown_scheme_is_rejected() {
    assert_eq!(Source::from_str("svn://example.com/r"), Err(PinError::UnknownScheme));
}

#[test]
fn from_str_no_scheme_is_file() {
    let s = Source::from_str("patches/fix.patch").unwrap();
    assert_eq!(s, Source::File("patches/fix.patch".to_string()));
}

#[test]
fn display_round_trip_each_variant() {
    for line in [
        "local-file.txt",
        "https://example.com/file.tar.gz",
        "git+https://example.com/r.git?signed#tag=v1",
    ] {
        let s = Source::from_str(line).unwrap();
        assert_eq!(s.encoded(), line);
    }
}

#[test]
fn file_filename_strips_directories() {
    let s = Source::File("dir/sub/file.txt".to_string());
    assert_eq!(s.filename().unwrap(), "file.txt");
}

#[test]
fn file_filename_without_directory() {
    let s = Source::File("file.txt".to_string());
    assert_eq!(s.filename().unwrap(), "file.txt");
}

#[test]
fn file_filename_empty_fails() {
    assert_eq!(Source::File("dir/".to_string()).filename(), Err(PinError::MissingFilename));
    assert_eq!(Source::File(String::new()).filename(), Err(PinError::MissingFilename));
}

#[test]
fn url_filename_is_last_segment() {
    let s = Source::Url("https://example.com/downloads/pkg-1.2.tar.gz".to_string());
    assert_eq!(s.filename().unwrap(), "pkg-1.2.tar.gz");
}

#[test]
fn url_filename_empty_segment_fails() {
    let s = Source::Url("https://example.com/".to_string());
    assert_eq!(s.filename(), Err(PinError::EmptyFilename));
}

#[test]
fn url_filename_without_path_fails() {
    let s = Source::Url("data:text/plain,hi".to_string());
    assert_eq!(s.filename(), Err(PinError::UrlWithoutPath));
}

#[test]
fn url_filename_invalid_fails() {
    let s = Source::Url("http://[bad".to_string());
    assert_eq!(s.filename(), Err(PinError::InvalidUrl));
}

#[test]
fn git_filename_ignores_vcs_suffix() {
    let s = Source::from_str("git+https://example.com/repo.git#tag=v1").unwrap();
    assert_eq!(s.filename().unwrap(), "repo.git");
}

#[test]
fn input_parse_bare_line() {
    let i = Input::parse("https://example.com/a.tar.gz").unwrap();
    assert_eq!(i, Input::Url(Source::Url("https://example.com/a.tar.gz".to_string())));
    assert_eq!(i.filename().unwrap(), "a.tar.gz");
}

#[test]
fn input_parse_explicit_filename() {
    let i = Input::parse("name::https://example.com/a.tar.gz").unwrap();
    assert_eq!(
        i,
        Input::UrlWithFilename((
            Source::Url("https://example.com/a.tar.gz".to_string()),
            "name".to_string()
        ))
    );
    assert_eq!(i.filename().unwrap(), "name");
}

#[test]
fn input_parse_splits_on_first_double_colon() {
    // `::` later in the line belongs to the URL, not the filename
    let i = Input::parse("n::https://example.com/a::b").unwrap();
    assert_eq!(i.filename().unwrap(), "n");
    assert_eq!(i.source(), &Source::Url("https://example.com/a::b".to_string()));
}

#[test]
fn input_encoded_round_trip() {
    for line in ["name::git+https://example.com/r.git#tag=v1", "plain.txt"] {
        let i = Input::parse(line).unwrap();
        assert_eq!(i.encoded(), line);
    }
}

#[test]
fn input_take_source() {
    let i = Input::parse("n::https://example.com/a").unwrap();
    assert_eq!(i.take_source(), Source::Url("https://example.com/a".to_string()));
}

#[test]
fn list_parses_each_line_in_order() {
    let lines = vec!["a.txt".to_string(), "n::https://example.com/b".to_string()];
    let inputs = list_source_list_from_var(&lines).unwrap();
    assert_eq!(inputs.len(), 2);
    assert_eq!(inputs[0], Input::Url(Source::File("a.txt".to_string())));
    assert_eq!(inputs[1].filename().unwrap(), "n");
}

#[test]
fn list_propagates_first_error() {
    let lines = vec!["ok.txt".to_string(), "svn://x/y".to_string()];
    assert_eq!(list_pins(&lines), Err(PinError::UnknownScheme));
    assert_eq!(list_sources(&lines), Err(PinError::UnknownScheme));
}

#[test]
fn pin_must_be_git() {
    assert_eq!(
        pin_git_source(Source::File("a".to_string())),
        Err(PinError::PinSourceNotGit)
    );
    assert_eq!(
        pin_git_source(Source::Url("https://example.com/a".to_string())),
        Err(PinError::PinSourceNotGit)
    );
    let g = GitSource {
        url: "git+https://example.com/r.git".to_string(),
        commit: None,
        tag: Some("v1".to_string()),
        signed: false,
    };
    assert_eq!(pin_git_source(Source::Git(g.clone())).unwrap(), g);
}

#[test]
fn resolved_pin_carries_both_hashes() {
    let g = GitSource {
        url: "git+https://example.com/r.git".to_string(),
        commit: None,
        tag: Some("v1".to_string()),
        signed: false,
    };
    let pin = make_resolved_pin(g.clone(), "taghash".to_string(), "commithash".to_string());
    assert_eq!(pin.tag_hash, "taghash");
    assert_eq!(pin.commit_hash, "commithash");
    assert_eq!(pin.source, Source::Git(g));
}
