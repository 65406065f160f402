use vstd::prelude::*;
use vstd::string::{StrSliceExecFns, StringExecFns};

use crate::error::PinError;
use crate::git::{
    lemma_decode_encode, spec_decode_git, spec_encode_git, unambiguous, GitSource, GitSpec,
};
use crate::strutil::{
    first_match, last_match, lemma_first_match_from_props, lemma_last_match_from_props,
    spec_starts_with, str_eq, str_find, str_rfind, str_starts_with,
};

verus! {

/// Where a downloadable artifact comes from: a local file, a plain URL,
/// or a VCS repository.
#[derive(Debug)]
pub enum Source {
    File(String),
    Url(String),
    Git(GitSource),
}

/// The mathematical model of a `Source`.
#[verifier::ext_equal]
pub enum SpecSource {
    File(Seq<char>),
    Url(Seq<char>),
    Git(GitSpec),
}

impl View for Source {
    type V = SpecSource;

    open spec fn view(&self) -> SpecSource {
        match self {
            Source::File(p) => SpecSource::File(p@),
            Source::Url(u) => SpecSource::Url(u@),
            Source::Git(g) => SpecSource::Git(g@),
        }
    }
}

impl DeepView for Source {
    type V = SpecSource;

    open spec fn deep_view(&self) -> SpecSource {
        self.view()
    }
}

impl Clone for Source {
    fn clone(&self) -> (r: Source)
        ensures
            r@ == self@,
    {
        match self {
            Source::File(p) => Source::File(p.clone()),
            Source::Url(u) => Source::Url(u.clone()),
            Source::Git(g) => Source::Git(g.clone()),
        }
    }
}

impl PartialEq for Source {
    fn eq(&self, other: &Source) -> (r: bool) {
        let r = match (self, other) {
            (Source::File(a), Source::File(b)) => *a == *b,
            (Source::Url(a), Source::Url(b)) => *a == *b,
            (Source::Git(a), Source::Git(b)) => *a == *b,
            _ => false,
        };
        proof {
            if r {
                assert(self@ =~~= other@);
            }
        }
        r
    }
}

impl vstd::std_specs::cmp::PartialEqSpecImpl for Source {
    open spec fn obeys_eq_spec() -> bool {
        true
    }

    open spec fn eq_spec(&self, other: &Source) -> bool {
        self@ == other@
    }
}

/// One manifest source entry: a bare source, or a source with an explicit
/// filename (the manifest's `filename::url` syntax).
#[derive(Debug)]
pub enum Input {
    Url(Source),
    UrlWithFilename((Source, String)),
}

/// The mathematical model of an `Input`.
#[verifier::ext_equal]
pub enum SpecInput {
    Url(SpecSource),
    UrlWithFilename(SpecSource, Seq<char>),
}

impl View for Input {
    type V = SpecInput;

    open spec fn view(&self) -> SpecInput {
        match self {
            Input::Url(s) => SpecInput::Url(s@),
            Input::UrlWithFilename((s, f)) => SpecInput::UrlWithFilename(s@, f@),
        }
    }
}

impl DeepView for Input {
    type V = SpecInput;

    open spec fn deep_view(&self) -> SpecInput {
        self.view()
    }
}

impl Clone for Input {
    fn clone(&self) -> (r: Input)
        ensures
            r@ == self@,
    {
        match self {
            Input::Url(s) => Input::Url(s.clone()),
            Input::UrlWithFilename((s, f)) => Input::UrlWithFilename((s.clone(), f.clone())),
        }
    }
}

impl PartialEq for Input {
    fn eq(&self, other: &Input) -> (r: bool) {
        let r = match (self, other) {
            (Input::Url(a), Input::Url(b)) => *a == *b,
            (Input::UrlWithFilename((a, af)), Input::UrlWithFilename((b, bf))) => *a == *b
                && *af == *bf,
            _ => false,
        };
        proof {
            if r {
                assert(self@ =~~= other@);
            }
        }
        r
    }
}

impl vstd::std_specs::cmp::PartialEqSpecImpl for Input {
    open spec fn obeys_eq_spec() -> bool {
        true
    }

    open spec fn eq_spec(&self, other: &Input) -> bool {
        self@ == other@
    }
}

/// A pin once its tag has been resolved against the repository: the tag
/// object's own hash, the commit it peels to, and the source it came from.
#[derive(Debug)]
pub struct ResolvedPin {
    pub commit_hash: String,
    pub tag_hash: String,
    pub source: Source,
}

/// The mathematical model of a `ResolvedPin`.
#[verifier::ext_equal]
pub struct SpecPin {
    pub commit_hash: Seq<char>,
    pub tag_hash: Seq<char>,
    pub source: SpecSource,
}

impl View for ResolvedPin {
    type V = SpecPin;

    open spec fn view(&self) -> SpecPin {
        SpecPin { commit_hash: self.commit_hash@, tag_hash: self.tag_hash@, source: self.source@ }
    }
}

impl Clone for ResolvedPin {
    fn clone(&self) -> (r: ResolvedPin)
        ensures
            r@ == self@,
    {
        ResolvedPin {
            commit_hash: self.commit_hash.clone(),
            tag_hash: self.tag_hash.clone(),
            source: self.source.clone(),
        }
    }
}

/// What the `url` crate's parser yields for the final path segment of a
/// URL string: `None` if the string is not a valid URL; `Some(None)` if
/// the URL has no path segments; otherwise the last segment (which may be
/// empty, for a URL whose path ends in `/`).
pub uninterp spec fn url_last_segment(s: Seq<char>) -> Option<Option<Seq<char>>>;

/// Relies on `url::Url::parse` and `url::Url::path_segments`: both are
/// pure functions of the URL string alone; `path_segments` splits the
/// path on `/`, so its last element is the text after the final `/`.
#[verifier::external_body]
fn url_last_segment_exec(s: &str) -> (r: Option<Option<String>>)
    ensures
        match r {
            None => url_last_segment(s@) is None,
            Some(None) => url_last_segment(s@) == Some(Option::<Seq<char>>::None),
            Some(Some(seg)) => url_last_segment(s@) == Some(Some(seg@)),
        },
{
    match s.parse::<url::Url>() {
        Err(_) => None,
        Ok(u) => match u.path_segments() {
            None => Some(None),
            Some(segs) => Some(segs.last().map(|x| x.to_string())),
        },
    }
}

/// The filename a URL yields: its final path segment, which must exist
/// and be non-empty.
pub open spec fn spec_url_filename(u: Seq<char>) -> Result<Seq<char>, PinError> {
    match url_last_segment(u) {
        None => Err(PinError::InvalidUrl),
        Some(None) => Err(PinError::UrlWithoutPath),
        Some(Some(seg)) => if seg.len() == 0 {
            Err(PinError::EmptyFilename)
        } else {
            Ok(seg)
        },
    }
}

/// The filename a local path yields: the text after its last `/`, which
/// must be non-empty.
pub open spec fn spec_file_filename(p: Seq<char>) -> Result<Seq<char>, PinError> {
    let base = match last_match(p, "/"@) {
        Some(i) => p.subrange(i + 1, p.len() as int),
        None => p,
    };
    if base.len() == 0 {
        Err(PinError::MissingFilename)
    } else {
        Ok(base)
    }
}

/// The filename a source entry downloads to.
pub open spec fn spec_source_filename(s: SpecSource) -> Result<Seq<char>, PinError> {
    match s {
        SpecSource::File(p) => spec_file_filename(p),
        SpecSource::Url(u) => spec_url_filename(u),
        SpecSource::Git(g) => spec_url_filename(g.url),
    }
}

fn url_filename(u: &str) -> (r: Result<String, PinError>)
    ensures
        r matches Ok(f) ==> spec_url_filename(u@) == Ok::<Seq<char>, PinError>(f@),
        r matches Err(e) ==> spec_url_filename(u@) == Err::<Seq<char>, PinError>(e),
{
    match url_last_segment_exec(u) {
        None => Err(PinError::InvalidUrl),
        Some(None) => Err(PinError::UrlWithoutPath),
        Some(Some(seg)) => {
            if seg.as_str().unicode_len() == 0 {
                Err(PinError::EmptyFilename)
            } else {
                Ok(seg)
            }
        },
    }
}

impl Source {
    /// Parse one manifest entry by its scheme: `https`/`http`/`ftp` give a
    /// plain URL, any scheme starting with `git` a VCS source, no scheme a
    /// local file; anything else is rejected.
    pub fn from_str(s: &str) -> (r: Result<Source, PinError>)
        ensures
            r matches Ok(src) ==> spec_source_from_str(s@) == Ok::<SpecSource, PinError>(src@),
            r matches Err(e) ==> spec_source_from_str(s@) == Err::<SpecSource, PinError>(e),
    {
        match str_find(s, "://") {
            Some(i) => {
                proof {
                    lemma_first_match_from_props(s@, "://"@, 0);
                }
                let scheme = s.substring_char(0, i);
                if str_eq(scheme, "https") || str_eq(scheme, "http") || str_eq(scheme, "ftp") {
                    Ok(Source::Url(String::from_str(s)))
                } else if str_starts_with(scheme, "git") {
                    Ok(Source::Git(GitSource::decode(s)))
                } else {
                    Err(PinError::UnknownScheme)
                }
            },
            None => Ok(Source::File(String::from_str(s))),
        }
    }

    /// The manifest text form of this source; for a VCS source, its
    /// encoded wire form.
    pub fn encoded(&self) -> (r: String)
        ensures
            r@ == spec_display_source(self@),
    {
        match self {
            Source::File(p) => p.clone(),
            Source::Url(u) => u.clone(),
            Source::Git(g) => g.encode(),
        }
    }

    /// The filename this source downloads to.
    pub fn filename(&self) -> (r: Result<String, PinError>)
        ensures
            r matches Ok(f) ==> spec_source_filename(self@) == Ok::<Seq<char>, PinError>(f@),
            r matches Err(e) ==> spec_source_filename(self@) == Err::<Seq<char>, PinError>(e),
    {
        match self {
            Source::File(p) => {
                match str_rfind(p.as_str(), "/") {
                    Some(i) => {
                        proof {
                            reveal_strlit("/");
                            lemma_last_match_from_props(p@, "/"@, p@.len() - "/"@.len());
                        }
                        let n = p.as_str().unicode_len();
                        let base = p.as_str().substring_char(i + 1, n);
                        if base.unicode_len() == 0 {
                            Err(PinError::MissingFilename)
                        } else {
                            Ok(String::from_str(base))
                        }
                    },
                    None => {
                        if p.as_str().unicode_len() == 0 {
                            Err(PinError::MissingFilename)
                        } else {
                            Ok(p.clone())
                        }
                    },
                }
            },
            Source::Url(u) => url_filename(u.as_str()),
            Source::Git(g) => url_filename(g.url.as_str()),
        }
    }
}

/// The manifest text form of a source model value.
pub open spec fn spec_display_source(s: SpecSource) -> Seq<char> {
    match s {
        SpecSource::File(p) => p,
        SpecSource::Url(u) => u,
        SpecSource::Git(g) => spec_encode_git(g),
    }
}

/// Scheme classification of one manifest entry.
pub open spec fn spec_source_from_str(s: Seq<char>) -> Result<SpecSource, PinError> {
    match first_match(s, "://"@) {
        Some(i) => {
            let scheme = s.subrange(0, i);
            if scheme == "https"@ || scheme == "http"@ || scheme == "ftp"@ {
                Ok(SpecSource::Url(s))
            } else if spec_starts_with(scheme, "git"@) {
                Ok(SpecSource::Git(spec_decode_git(s)))
            } else {
                Err(PinError::UnknownScheme)
            }
        },
        None => Ok(SpecSource::File(s)),
    }
}

/// The manifest text form of an input entry.
pub open spec fn spec_display_input(i: SpecInput) -> Seq<char> {
    match i {
        SpecInput::Url(s) => spec_display_source(s),
        SpecInput::UrlWithFilename(s, f) => f + "::"@ + spec_display_source(s),
    }
}

/// Parsing one manifest line: an explicit filename before the first `::`,
/// if any, and a source parsed from the rest.
pub open spec fn spec_parse_input(line: Seq<char>) -> Result<SpecInput, PinError> {
    match first_match(line, "::"@) {
        Some(i) => match spec_source_from_str(line.subrange(i + 2, line.len() as int)) {
            Ok(src) => Ok(SpecInput::UrlWithFilename(src, line.subrange(0, i))),
            Err(e) => Err(e),
        },
        None => match spec_source_from_str(line) {
            Ok(src) => Ok(SpecInput::Url(src)),
            Err(e) => Err(e),
        },
    }
}

impl Input {
    /// The filename of this entry: the explicit one if given, otherwise
    /// the one its source derives.
    pub fn filename(&self) -> (r: Result<String, PinError>)
        ensures
            r matches Ok(f) ==> spec_input_filename(self@) == Ok::<Seq<char>, PinError>(f@),
            r matches Err(e) ==> spec_input_filename(self@) == Err::<Seq<char>, PinError>(e),
    {
        match self {
            Input::Url(source) => source.filename(),
            Input::UrlWithFilename((_, filename)) => Ok(filename.clone()),
        }
    }

    /// The inner source of this entry.
    pub fn source(&self) -> (r: &Source)
        ensures
            r@ == spec_input_source(self@),
    {
        match self {
            Input::Url(url) => url,
            Input::UrlWithFilename((url, _file)) => url,
        }
    }

    /// The inner source of this entry, by value.
    pub fn take_source(self) -> (r: Source)
        ensures
            r@ == spec_input_source(self@),
    {
        match self {
            Input::Url(url) => url,
            Input::UrlWithFilename((url, _file)) => url,
        }
    }

    /// The manifest text form of this entry.
    pub fn encoded(&self) -> (r: String)
        ensures
            r@ == spec_display_input(self@),
    {
        match self {
            Input::Url(source) => source.encoded(),
            Input::UrlWithFilename((source, file)) => {
                let mut out = file.clone();
                out.append("::");
                out.append(source.encoded().as_str());
                out
            },
        }
    }

    /// Parse one manifest line.
    pub fn parse(line: &str) -> (r: Result<Input, PinError>)
        ensures
            r matches Ok(inp) ==> spec_parse_input(line@) == Ok::<SpecInput, PinError>(inp@),
            r matches Err(e) ==> spec_parse_input(line@) == Err::<SpecInput, PinError>(e),
    {
        match str_find(line, "::") {
            Some(i) => {
                proof {
                    reveal_strlit("::");
                    lemma_first_match_from_props(line@, "::"@, 0);
                }
                let n = line.unicode_len();
                let file = line.substring_char(0, i);
                let rest = line.substring_char(i + 2, n);
                match Source::from_str(rest) {
                    Ok(source) => Ok(
                        Input::UrlWithFilename((source, String::from_str(file))),
                    ),
                    Err(e) => Err(e),
                }
            },
            None => {
                match Source::from_str(line) {
                    Ok(source) => Ok(Input::Url(source)),
                    Err(e) => Err(e),
                }
            },
        }
    }
}

/// The filename of an input model value.
pub open spec fn spec_input_filename(i: SpecInput) -> Result<Seq<char>, PinError> {
    match i {
        SpecInput::Url(s) => spec_source_filename(s),
        SpecInput::UrlWithFilename(_, f) => Ok(f),
    }
}

/// The source of an input model value.
pub open spec fn spec_input_source(i: SpecInput) -> SpecSource {
    match i {
        SpecInput::Url(s) => s,
        SpecInput::UrlWithFilename(s, _) => s,
    }
}

/// Parsing a whole list of evaluated manifest array elements, in order;
/// the first bad line's error wins.
pub open spec fn spec_parse_inputs(lines: Seq<Seq<char>>) -> Result<Seq<SpecInput>, PinError>
    decreases lines.len(),
{
    if lines.len() == 0 {
        Ok(Seq::<SpecInput>::empty())
    } else {
        match spec_parse_inputs(lines.drop_last()) {
            Err(e) => Err(e),
            Ok(pre) => match spec_parse_input(lines.last()) {
                Ok(i) => Ok(pre.push(i)),
                Err(e) => Err(e),
            },
        }
    }
}

/// Parse the evaluated elements of one manifest array variable, one entry
/// per line, in order.
pub fn list_source_list_from_var(lines: &Vec<String>) -> (r: Result<Vec<Input>, PinError>)
    ensures
        r matches Ok(inputs) ==> spec_parse_inputs(lines.deep_view()) == Ok::<
            Seq<SpecInput>,
            PinError,
        >(inputs.deep_view()),
        r matches Err(e) ==> spec_parse_inputs(lines.deep_view()) == Err::<
            Seq<SpecInput>,
            PinError,
        >(e),
{
    let mut out: Vec<Input> = Vec::new();
    let mut k: usize = 0;
    proof {
        assert(lines.deep_view().take(0) =~= Seq::<Seq<char>>::empty());
        assert(out.deep_view() =~= Seq::<SpecInput>::empty());
    }
    while k < lines.len()
        invariant
            k <= lines.len(),
            lines.deep_view().len() == lines.len(),
            spec_parse_inputs(lines.deep_view().take(k as int)) == Ok::<
                Seq<SpecInput>,
                PinError,
            >(out.deep_view()),
        decreases lines.len() - k,
    {
        let ghost pre = out.deep_view();
        match Input::parse(lines[k].as_str()) {
            Ok(inp) => {
                out.push(inp);
                proof {
                    let lv = lines.deep_view();
                    assert(lv.take(k + 1).drop_last() =~= lv.take(k as int));
                    assert(lv.take(k + 1).last() == lv[k as int]);
                    assert(lines[k as int]@ == lv[k as int]);
                    assert(out.deep_view() =~= pre.push(out.deep_view().last()));
                }
            },
            Err(e) => {
                proof {
                    let lv = lines.deep_view();
                    assert(lv.take(k + 1).drop_last() =~= lv.take(k as int));
                    assert(lv.take(k + 1).last() == lv[k as int]);
                    assert(lines[k as int]@ == lv[k as int]);
                    assert(spec_parse_inputs(lv.take(k + 1)) == Err::<Seq<SpecInput>, PinError>(
                        e,
                    ));
                    lemma_parse_inputs_extend_err(lv, k + 1);
                }
                return Err(e);
            },
        }
        k += 1;
    }
    proof {
        assert(lines.deep_view().take(lines.len() as int) =~= lines.deep_view());
    }
    Ok(out)
}

/// An error on a prefix of the lines is the error of the whole list.
proof fn lemma_parse_inputs_extend_err(lines: Seq<Seq<char>>, n: int)
    requires
        0 <= n <= lines.len(),
        spec_parse_inputs(lines.take(n)) is Err,
    ensures
        spec_parse_inputs(lines) == spec_parse_inputs(lines.take(n)),
    decreases lines.len() - n,
{
    if n < lines.len() {
        assert(lines.take(n + 1).drop_last() =~= lines.take(n));
        lemma_parse_inputs_extend_err(lines, n + 1);
    } else {
        assert(lines.take(n) =~= lines);
    }
}

/// Parse the evaluated elements of the manifest's pin array.
pub fn list_pins(lines: &Vec<String>) -> (r: Result<Vec<Input>, PinError>)
    ensures
        r matches Ok(inputs) ==> spec_parse_inputs(lines.deep_view()) == Ok::<
            Seq<SpecInput>,
            PinError,
        >(inputs.deep_view()),
        r matches Err(e) ==> spec_parse_inputs(lines.deep_view()) == Err::<
            Seq<SpecInput>,
            PinError,
        >(e),
{
    list_source_list_from_var(lines)
}

/// Parse the evaluated elements of the manifest's source array.
pub fn list_sources(lines: &Vec<String>) -> (r: Result<Vec<Input>, PinError>)
    ensures
        r matches Ok(inputs) ==> spec_parse_inputs(lines.deep_view()) == Ok::<
            Seq<SpecInput>,
            PinError,
        >(inputs.deep_view()),
        r matches Err(e) ==> spec_parse_inputs(lines.deep_view()) == Err::<
            Seq<SpecInput>,
            PinError,
        >(e),
{
    list_source_list_from_var(lines)
}

/// A pin entry must be a VCS source; plain files and URLs are rejected.
pub fn pin_git_source(source: Source) -> (r: Result<GitSource, PinError>)
    ensures
        match source@ {
            SpecSource::Git(g) => r matches Ok(gs) && gs@ == g,
            SpecSource::File(_) => r == Err::<GitSource, PinError>(PinError::PinSourceNotGit),
            SpecSource::Url(_) => r == Err::<GitSource, PinError>(PinError::PinSourceNotGit),
        },
{
    match source {
        Source::File(_) => Err(PinError::PinSourceNotGit),
        Source::Url(_) => Err(PinError::PinSourceNotGit),
        Source::Git(git) => Ok(git),
    }
}

/// Package a repository lookup's two hashes together with the pin's
/// source; the computing tail of pin resolution.
pub fn make_resolved_pin(source: GitSource, tag_hash: String, commit_hash: String) -> (r:
    ResolvedPin)
    ensures
        r@ == (SpecPin {
            commit_hash: commit_hash@,
            tag_hash: tag_hash@,
            source: SpecSource::Git(source@),
        }),
{
    ResolvedPin { commit_hash, tag_hash, source: Source::Git(source) }
}

/// A line that parses at all round-trips through its text form when its
/// scheme part is consistent with its content: always for files and plain
/// URLs, and for VCS sources whenever the line is the wire form of an
/// unambiguous source.
pub proof fn lemma_from_str_display(s: Seq<char>)
    requires
        scheme_consistent(s),
    ensures
        spec_source_from_str(s) matches Ok(src) && spec_display_source(src) == s,
{
    match first_match(s, "://"@) {
        Some(i) => {
            let scheme = s.subrange(0, i);
            if scheme == "https"@ || scheme == "http"@ || scheme == "ftp"@ {
            } else {
                let g = choose|g: GitSpec| unambiguous(g) && s == spec_encode_git(g);
                lemma_decode_encode(g);
            }
        },
        None => {},
    }
}

/// A manifest line whose scheme matches what its content can express.
pub open spec fn scheme_consistent(s: Seq<char>) -> bool {
    match first_match(s, "://"@) {
        None => true,
        Some(i) => {
            let scheme = s.subrange(0, i);
            ||| scheme == "https"@
            ||| scheme == "http"@
            ||| scheme == "ftp"@
            ||| (spec_starts_with(scheme, "git"@) && exists|g: GitSpec|
                unambiguous(g) && s == spec_encode_git(g))
        },
    }
}

/// Filename derivation rejects, rather than ever yielding a name, a URL
/// whose path is absent or whose final segment is empty.
pub proof fn lemma_filename_fails_on_empty(u: Seq<char>)
    requires
        url_last_segment(u) == Some(Option::<Seq<char>>::None) || url_last_segment(u) == Some(
            Some(Seq::<char>::empty()),
        ),
    ensures
        spec_url_filename(u) is Err,
{
}

/// A `name::rest` line always takes the text before the first `::` as the
/// explicit filename, and parses the rest on its own, however many `::`
/// occur later in the line.
pub proof fn lemma_split_on_first(line: Seq<char>, i: int)
    requires
        first_match(line, "::"@) == Some(i),
    ensures
        spec_source_from_str(line.subrange(i + 2, line.len() as int)) matches Ok(src)
            ==> spec_parse_input(line) == Ok::<SpecInput, PinError>(
            SpecInput::UrlWithFilename(src, line.subrange(0, i)),
        ),
        spec_source_from_str(line.subrange(i + 2, line.len() as int)) matches Err(e)
            ==> spec_parse_input(line) == Err::<SpecInput, PinError>(e),
{
}

} // verus!
