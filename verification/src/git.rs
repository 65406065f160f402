use vstd::prelude::*;
use vstd::string::{StrSliceExecFns, StringExecFns};

use crate::error::PinError;
use crate::strutil::{
    last_match, lemma_last_match_from_found, lemma_last_match_from_none,
    lemma_last_match_from_props, match_at, spec_ends_with, str_ends_with, str_rfind,
};

verus! {

/// A VCS-backed source: a repository URL with optional pinned commit,
/// optional tag, and a signature-verification flag.
#[derive(Debug)]
pub struct GitSource {
    pub url: String,
    pub commit: Option<String>,
    pub tag: Option<String>,
    pub signed: bool,
}

/// The mathematical model of a `GitSource`: every string field as a
/// sequence of characters.
#[verifier::ext_equal]
pub struct GitSpec {
    pub url: Seq<char>,
    pub commit: Option<Seq<char>>,
    pub tag: Option<Seq<char>>,
    pub signed: bool,
}

impl View for GitSource {
    type V = GitSpec;

    open spec fn view(&self) -> GitSpec {
        GitSpec {
            url: self.url@,
            commit: match self.commit {
                Some(c) => Some(c@),
                None => None,
            },
            tag: match self.tag {
                Some(t) => Some(t@),
                None => None,
            },
            signed: self.signed,
        }
    }
}

impl Clone for GitSource {
    fn clone(&self) -> (r: GitSource)
        ensures
            r@ == self@,
    {
        GitSource {
            url: self.url.clone(),
            commit: match &self.commit {
                Some(c) => Some(c.clone()),
                None => None,
            },
            tag: match &self.tag {
                Some(t) => Some(t.clone()),
                None => None,
            },
            signed: self.signed,
        }
    }
}

impl PartialEq for GitSource {
    fn eq(&self, other: &GitSource) -> (r: bool) {
        let urls = self.url == other.url;
        let commits = match (&self.commit, &other.commit) {
            (Some(a), Some(b)) => *a == *b,
            (None, None) => true,
            _ => false,
        };
        let tags = match (&self.tag, &other.tag) {
            (Some(a), Some(b)) => *a == *b,
            (None, None) => true,
            _ => false,
        };
        let r = urls && commits && tags && self.signed == other.signed;
        proof {
            if r {
                assert(self@ =~~= other@);
            }
        }
        r
    }
}

impl vstd::std_specs::cmp::PartialEqSpecImpl for GitSource {
    open spec fn obeys_eq_spec() -> bool {
        true
    }

    open spec fn eq_spec(&self, other: &GitSource) -> bool {
        self@ == other@
    }
}

/// An optional suffix: the marker followed by the value, or nothing.
pub open spec fn opt_part(marker: Seq<char>, v: Option<Seq<char>>) -> Seq<char> {
    match v {
        Some(x) => marker + x,
        None => Seq::<char>::empty(),
    }
}

/// The wire form of a `GitSource`: the URL, then `?signed` if signed,
/// then `#commit=<hash>` if pinned, then `#tag=<name>` if tagged.
pub open spec fn spec_encode_git(g: GitSpec) -> Seq<char> {
    g.url + (if g.signed {
        "?signed"@
    } else {
        Seq::<char>::empty()
    }) + opt_part("#commit="@, g.commit) + opt_part("#tag="@, g.tag)
}

/// Strip a trailing `?signed` marker, reporting whether it was there.
pub open spec fn strip_signed(s: Seq<char>) -> (Seq<char>, bool) {
    if spec_ends_with(s, "?signed"@) {
        (s.subrange(0, s.len() - "?signed"@.len()), true)
    } else {
        (s, false)
    }
}

/// Split off everything after the last occurrence of `marker`, if any.
pub open spec fn split_last_marker(s: Seq<char>, marker: Seq<char>) -> (Seq<char>, Option<
    Seq<char>,
>) {
    match last_match(s, marker) {
        Some(i) => (s.subrange(0, i), Some(s.subrange(i + marker.len(), s.len() as int))),
        None => (s, None),
    }
}

/// Decoding: strip `?signed`, split on the last `#commit=`, then on the
/// last `#tag=`, then strip `?signed` once more; the rest is the URL.
pub open spec fn spec_decode_git(s: Seq<char>) -> GitSpec {
    let step1 = strip_signed(s);
    let step2 = split_last_marker(step1.0, "#commit="@);
    let step3 = split_last_marker(step2.0, "#tag="@);
    let step4 = strip_signed(step3.0);
    GitSpec { url: step4.0, commit: step2.1, tag: step3.1, signed: step1.1 || step4.1 }
}

impl GitSource {
    /// Serialize to the manifest's wire form.
    pub fn encode(&self) -> (r: String)
        ensures
            r@ == spec_encode_git(self@),
    {
        let mut out = String::from_str(self.url.as_str());
        if self.signed {
            out.append("?signed");
        }
        match &self.commit {
            Some(c) => {
                out.append("#commit=");
                out.append(c.as_str());
            },
            None => {},
        }
        match &self.tag {
            Some(t) => {
                out.append("#tag=");
                out.append(t.as_str());
            },
            None => {},
        }
        proof {
            assert(out@ =~= spec_encode_git(self@));
        }
        out
    }

    /// Parse the wire form back into its parts. Never fails: whatever is
    /// left after stripping the known suffixes is taken as the URL.
    pub fn decode(s: &str) -> (r: GitSource)
        ensures
            r@ == spec_decode_git(s@),
    {
        let sm = "?signed";
        let cm = "#commit=";
        let tm = "#tag=";
        let mut signed = false;
        let mut cur: &str = s;
        if str_ends_with(cur, sm) {
            let n = cur.unicode_len();
            let m = sm.unicode_len();
            cur = cur.substring_char(0, n - m);
            signed = true;
        }
        let ghost step1 = strip_signed(s@);
        proof {
            assert(cur@ == step1.0 && signed == step1.1);
        }
        let mut commit: Option<String> = None;
        match str_rfind(cur, cm) {
            Some(i) => {
                proof {
                    lemma_last_match_from_props(cur@, cm@, cur@.len() - cm@.len());
                }
                let n = cur.unicode_len();
                let m = cm.unicode_len();
                commit = Some(String::from_str(cur.substring_char(i + m, n)));
                cur = cur.substring_char(0, i);
            },
            None => {},
        }
        let ghost step2 = split_last_marker(step1.0, "#commit="@);
        proof {
            assert(cur@ == step2.0);
        }
        let mut tag: Option<String> = None;
        match str_rfind(cur, tm) {
            Some(i) => {
                proof {
                    lemma_last_match_from_props(cur@, tm@, cur@.len() - tm@.len());
                }
                let n = cur.unicode_len();
                let m = tm.unicode_len();
                tag = Some(String::from_str(cur.substring_char(i + m, n)));
                cur = cur.substring_char(0, i);
            },
            None => {},
        }
        let ghost step3 = split_last_marker(step2.0, "#tag="@);
        proof {
            assert(cur@ == step3.0);
        }
        if str_ends_with(cur, sm) {
            let n = cur.unicode_len();
            let m = sm.unicode_len();
            cur = cur.substring_char(0, n - m);
            signed = true;
        }
        GitSource { url: String::from_str(cur), commit, tag, signed }
    }

    /// The reference path a pin's tag is looked up under, `refs/tags/<tag>`;
    /// a pin without a tag cannot be resolved.
    pub fn tag_ref_path(&self) -> (r: Result<String, PinError>)
        ensures
            match self.tag {
                Some(_) => r matches Ok(p) && p@ == "refs/tags/"@ + spec_tag_of(self@),
                None => r == Result::<String, PinError>::Err(PinError::NoTagConfigured),
            },
    {
        match &self.tag {
            Some(t) => {
                let mut out = String::from_str("refs/tags/");
                out.append(t.as_str());
                Ok(out)
            },
            None => Err(PinError::NoTagConfigured),
        }
    }
}

/// `s` holds neither of the characters the wire-format markers are
/// recognized by.
pub open spec fn plain_seq(s: Seq<char>) -> bool {
    forall|i: int| 0 <= i < s.len() ==> s[i] != '#' && s[i] != '?'
}

/// A model value whose wire form decodes back to itself: no field smuggles
/// in a marker character, and commit and tag are not both set (decoding
/// splits on `#commit=` first, so a tag emitted after a commit would be
/// swallowed by the commit value).
pub open spec fn unambiguous(g: GitSpec) -> bool {
    &&& plain_seq(g.url)
    &&& (match g.commit {
        Some(c) => plain_seq(c),
        None => true,
    })
    &&& (match g.tag {
        Some(t) => plain_seq(t),
        None => true,
    })
    &&& !(g.commit is Some && g.tag is Some)
}

proof fn marker_facts()
    ensures
        "?signed"@.len() == 7,
        "#commit="@.len() == 8,
        "#tag="@.len() == 5,
        forall|k: int| 0 <= k < 7 ==> (#[trigger] "?signed"@[k] == '?' <==> k == 0),
        forall|k: int| 0 <= k < 7 ==> #[trigger] "?signed"@[k] != '#',
        forall|k: int| 0 <= k < 8 ==> (#[trigger] "#commit="@[k] == '#' <==> k == 0),
        forall|k: int| 0 <= k < 8 ==> #[trigger] "#commit="@[k] != '?',
        forall|k: int| 0 <= k < 5 ==> (#[trigger] "#tag="@[k] == '#' <==> k == 0),
        forall|k: int| 0 <= k < 5 ==> #[trigger] "#tag="@[k] != '?',
        "#commit="@[1] == 'c',
        "#tag="@[1] == 't',
{
    reveal_strlit("?signed");
    reveal_strlit("#commit=");
    reveal_strlit("#tag=");
}

/// An occurrence of `p` at `j` pins down each character it covers.
proof fn lemma_match_gives_char(s: Seq<char>, p: Seq<char>, j: int, k: int)
    requires
        match_at(s, p, j),
        0 <= k < p.len(),
    ensures
        s[j + k] == p[k],
{
    assert(s.subrange(j, j + p.len() as int)[k] == p[k]);
}

/// A pattern whose first character never occurs in `s` occurs nowhere.
proof fn lemma_no_match_no_first_char(s: Seq<char>, p: Seq<char>)
    requires
        p.len() > 0,
        forall|i: int| 0 <= i < s.len() ==> s[i] != p[0],
    ensures
        last_match(s, p) is None,
        forall|j: int| !match_at(s, p, j),
{
    assert forall|j: int| !match_at(s, p, j) by {
        if match_at(s, p, j) {
            lemma_match_gives_char(s, p, j, 0);
        }
    }
    if p.len() <= s.len() {
        lemma_last_match_from_none(s, p, s.len() - p.len());
    }
}

/// The length of the optional `?signed` part of the wire form.
pub open spec fn sig_len(g: GitSpec) -> int {
    if g.signed {
        7
    } else {
        0
    }
}

/// The length of the optional `#commit=<hash>` part of the wire form.
pub open spec fn commit_len(g: GitSpec) -> int {
    match g.commit {
        Some(c) => (8 + c.len()) as int,
        None => 0,
    }
}

/// The length of the optional `#tag=<name>` part of the wire form.
pub open spec fn tag_len(g: GitSpec) -> int {
    match g.tag {
        Some(t) => (5 + t.len()) as int,
        None => 0,
    }
}

/// Where the `#commit=` marker begins, when a commit is present.
pub open spec fn commit_start(g: GitSpec) -> int {
    g.url.len() + sig_len(g)
}

/// Where the `#tag=` marker begins, when a tag is present.
pub open spec fn tag_start(g: GitSpec) -> int {
    commit_start(g) + commit_len(g)
}

/// In an unambiguous wire form, `?` appears exactly at the start of the
/// `?signed` marker, and nowhere else.
proof fn lemma_encode_char_q(g: GitSpec, i: int)
    requires
        unambiguous(g),
        0 <= i < spec_encode_git(g).len(),
    ensures
        spec_encode_git(g)[i] == '?' <==> (g.signed && i == g.url.len() as int),
{
    marker_facts();
    let s = spec_encode_git(g);
    let a = g.url;
    let b: Seq<char> = if g.signed {
        "?signed"@
    } else {
        Seq::<char>::empty()
    };
    let c: Seq<char> = opt_part("#commit="@, g.commit);
    let d: Seq<char> = opt_part("#tag="@, g.tag);
    assert(s == a + b + c + d);
    if i < a.len() {
        assert(s[i] == a[i]);
    } else if i < a.len() + b.len() {
        assert(s[i] == b[i - a.len()]);
    } else if i < a.len() + b.len() + c.len() {
        let j = i - a.len() - b.len();
        assert(s[i] == c[j]);
        match g.commit {
            Some(cc) => {
                assert(c == "#commit="@ + cc);
                if j < 8 {
                    assert(c[j] == "#commit="@[j]);
                } else {
                    assert(c[j] == cc[j - 8]);
                }
            },
            None => {},
        }
    } else {
        let j = i - a.len() - b.len() - c.len();
        assert(s[i] == d[j]);
        match g.tag {
            Some(tt) => {
                assert(d == "#tag="@ + tt);
                if j < 5 {
                    assert(d[j] == "#tag="@[j]);
                } else {
                    assert(d[j] == tt[j - 5]);
                }
            },
            None => {},
        }
    }
}

/// In an unambiguous wire form, `#` appears exactly at the starts of the
/// `#commit=` and `#tag=` markers, and nowhere else.
proof fn lemma_encode_char_h(g: GitSpec, i: int)
    requires
        unambiguous(g),
        0 <= i < spec_encode_git(g).len(),
    ensures
        spec_encode_git(g)[i] == '#' <==> ((g.commit is Some && i == commit_start(g)) || (
        g.tag is Some && i == tag_start(g))),
{
    marker_facts();
    let s = spec_encode_git(g);
    let a = g.url;
    let b: Seq<char> = if g.signed {
        "?signed"@
    } else {
        Seq::<char>::empty()
    };
    let c: Seq<char> = opt_part("#commit="@, g.commit);
    let d: Seq<char> = opt_part("#tag="@, g.tag);
    assert(s == a + b + c + d);
    if i < a.len() {
        assert(s[i] == a[i]);
    } else if i < a.len() + b.len() {
        assert(s[i] == b[i - a.len()]);
    } else if i < a.len() + b.len() + c.len() {
        let j = i - a.len() - b.len();
        assert(s[i] == c[j]);
        match g.commit {
            Some(cc) => {
                assert(c == "#commit="@ + cc);
                if j < 8 {
                    assert(c[j] == "#commit="@[j]);
                } else {
                    assert(c[j] == cc[j - 8]);
                }
            },
            None => {},
        }
    } else {
        let j = i - a.len() - b.len() - c.len();
        assert(s[i] == d[j]);
        match g.tag {
            Some(tt) => {
                assert(d == "#tag="@ + tt);
                if j < 5 {
                    assert(d[j] == "#tag="@[j]);
                } else {
                    assert(d[j] == tt[j - 5]);
                }
            },
            None => {},
        }
    }
}

/// Decoding inverts encoding: every unambiguous `GitSource` model value
/// survives a round trip through the wire form unchanged.
pub proof fn lemma_decode_encode(g: GitSpec)
    requires
        unambiguous(g),
    ensures
        spec_decode_git(spec_encode_git(g)) == g,
{
    marker_facts();
    let s = spec_encode_git(g);
    let a = g.url;
    let b: Seq<char> = if g.signed {
        "?signed"@
    } else {
        Seq::<char>::empty()
    };
    let c: Seq<char> = opt_part("#commit="@, g.commit);
    let d: Seq<char> = opt_part("#tag="@, g.tag);
    assert(s == a + b + c + d);
    let n = s.len() as int;

    if g.commit is None && g.tag is None {
        assert(s =~= a + b);
        if g.signed {
            // step 1 strips the signed marker, leaving exactly the URL
            assert(s.subrange(a.len() as int, n) =~= "?signed"@);
            assert(spec_ends_with(s, "?signed"@));
            let s1 = s.subrange(0, n - 7);
            assert(s1 =~= a);
            lemma_no_match_no_first_char(s1, "#commit="@);
            lemma_no_match_no_first_char(s1, "#tag="@);
            // no second signed marker: the URL has no '?'
            if spec_ends_with(s1, "?signed"@) {
                lemma_match_gives_char(s1, "?signed"@, s1.len() - 7, 0);
            }
            assert(spec_decode_git(s) =~~= g);
        } else {
            assert(s =~= a);
            if spec_ends_with(s, "?signed"@) {
                lemma_match_gives_char(s, "?signed"@, s.len() - 7, 0);
            }
            lemma_no_match_no_first_char(s, "#commit="@);
            lemma_no_match_no_first_char(s, "#tag="@);
            assert(spec_decode_git(s) =~~= g);
        }
    } else {
        // a commit or a tag is present, so the wire form does not end in
        // `?signed`: a trailing marker would put `?` after the URL part
        let cc_or_tt_len = c.len() + d.len();
        assert(cc_or_tt_len > 0);
        if spec_ends_with(s, "?signed"@) {
            lemma_match_gives_char(s, "?signed"@, n - 7, 0);
            lemma_encode_char_q(g, n - 7);
            assert(false);
        }
        let s1 = s;

        if g.commit is Some {
            let cc = g.commit->0;
            assert(c == "#commit="@ + cc);
            assert(d =~= Seq::<char>::empty());
            assert(s =~= a + b + ("#commit="@ + cc));
            let p = (a.len() + b.len()) as int;
            // the marker really is there
            assert(s.subrange(p, p + 8) =~= "#commit="@);
            assert(match_at(s, "#commit="@, p));
            // and nothing later matches: a later `#` would have to sit
            // inside the commit value, which is plain
            assert forall|j: int| p < j <= n - 8 implies !match_at(s, "#commit="@, j) by {
                if match_at(s, "#commit="@, j) {
                    lemma_match_gives_char(s, "#commit="@, j, 0);
                    lemma_encode_char_h(g, j);
                }
            }
            lemma_last_match_from_found(s, "#commit="@, n - 8, p);
            let s2 = s.subrange(0, p);
            assert(s.subrange(p + 8, n) =~= cc);
            assert(s2 =~= a + b);
            // no `#` at all before the commit marker, so no `#tag=` match
            assert forall|i: int| 0 <= i < s2.len() implies s2[i] != '#' by {
                lemma_encode_char_h(g, i);
                assert(s[i] == s2[i]);
            }
            lemma_no_match_no_first_char(s2, "#tag="@);
            // final signed strip: fires exactly when the source is signed
            if g.signed {
                assert(s2.subrange(a.len() as int, s2.len() as int) =~= "?signed"@);
                assert(spec_ends_with(s2, "?signed"@));
                assert(s2.subrange(0, s2.len() - 7) =~= a);
            } else {
                assert(s2 =~= a);
                if spec_ends_with(s2, "?signed"@) {
                    lemma_match_gives_char(s2, "?signed"@, s2.len() - 7, 0);
                }
            }
            assert(spec_decode_git(s) =~~= g);
        } else {
            let tt = g.tag->0;
            assert(c =~= Seq::<char>::empty());
            assert(d == "#tag="@ + tt);
            assert(s =~= a + b + ("#tag="@ + tt));
            let p = (a.len() + b.len()) as int;
            // no `#commit=` anywhere: the only `#` starts the tag marker,
            // whose second character differs
            assert forall|j: int| !match_at(s1, "#commit="@, j) by {
                if match_at(s1, "#commit="@, j) {
                    lemma_match_gives_char(s1, "#commit="@, j, 0);
                    lemma_encode_char_h(g, j);
                    assert(j == p);
                    lemma_match_gives_char(s1, "#commit="@, j, 1);
                    assert(s1[p + 1] == (a + b + ("#tag="@ + tt))[p + 1]);
                    assert(s1[p + 1] == ("#tag="@ + tt)[1]);
                    assert(s1[p + 1] == 't');
                }
            }
            if "#commit="@.len() <= s1.len() {
                lemma_last_match_from_none(s1, "#commit="@, s1.len() as int - 8);
            }
            // the tag marker is there, and nothing later matches
            assert(s1.subrange(p, p + 5) =~= "#tag="@);
            assert(match_at(s1, "#tag="@, p));
            assert forall|j: int| p < j <= n - 5 implies !match_at(s1, "#tag="@, j) by {
                if match_at(s1, "#tag="@, j) {
                    lemma_match_gives_char(s1, "#tag="@, j, 0);
                    lemma_encode_char_h(g, j);
                }
            }
            lemma_last_match_from_found(s1, "#tag="@, n - 5, p);
            let s3 = s1.subrange(0, p);
            assert(s1.subrange(p + 5, n) =~= tt);
            assert(s3 =~= a + b);
            if g.signed {
                assert(s3.subrange(a.len() as int, s3.len() as int) =~= "?signed"@);
                assert(spec_ends_with(s3, "?signed"@));
                assert(s3.subrange(0, s3.len() - 7) =~= a);
            } else {
                assert(s3 =~= a);
                if spec_ends_with(s3, "?signed"@) {
                    lemma_match_gives_char(s3, "?signed"@, s3.len() - 7, 0);
                }
            }
            assert(spec_decode_git(s) =~~= g);
        }
    }
}

/// The tag carried by a model value, empty if there is none.
pub open spec fn spec_tag_of(g: GitSpec) -> Seq<char> {
    match g.tag {
        Some(t) => t,
        None => Seq::<char>::empty(),
    }
}

} // verus!
