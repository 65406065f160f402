use vstd::prelude::*;
use vstd::string::{StrSliceExecFns, StringExecFns};

use crate::error::PinError;
use crate::git::GitSpec;
use crate::makepkg::{
    spec_display_input, spec_input_filename, Input, ResolvedPin, SpecInput,
    SpecPin, SpecSource, Source,
};
use crate::strutil::{spec_ends_with, spec_starts_with, str_ends_with, str_eq, str_starts_with};

verus! {

/// The resolved pins as a sequence of (filename, pin) pairs, in the order
/// the manifest declared them.
pub open spec fn pins_view(pins: Seq<(String, ResolvedPin)>) -> Seq<(Seq<char>, SpecPin)> {
    Seq::new(pins.len(), |i: int| (pins[i].0@, pins[i].1@))
}

/// The pin recorded for `name`, taking the first entry when a filename
/// was declared twice.
pub open spec fn spec_pin_lookup(pins: Seq<(Seq<char>, SpecPin)>, name: Seq<char>) -> Option<
    SpecPin,
>
    decreases pins.len(),
{
    if pins.len() == 0 {
        None
    } else if pins[0].0 == name {
        Some(pins[0].1)
    } else {
        spec_pin_lookup(pins.drop_first(), name)
    }
}

/// The source a pinned entry is rewritten to: the pin's own source; for a
/// VCS source, with its metadata forced to the pinned commit (tag
/// cleared) or to the resolved tag hash, by mode.
pub open spec fn spec_pinned_source(pin: SpecPin, pin_commit: bool) -> SpecSource {
    match pin.source {
        SpecSource::Git(g) => SpecSource::Git(
            if pin_commit {
                GitSpec { url: g.url, commit: Some(pin.commit_hash), tag: None, signed: g.signed }
            } else {
                GitSpec { url: g.url, commit: g.commit, tag: Some(pin.tag_hash), signed: g.signed }
            },
        ),
        SpecSource::File(p) => SpecSource::File(p),
        SpecSource::Url(u) => SpecSource::Url(u),
    }
}

/// An entry with its source replaced; an explicit filename is kept.
pub open spec fn spec_replace_input(inp: SpecInput, src: SpecSource) -> SpecInput {
    match inp {
        SpecInput::Url(_) => SpecInput::Url(src),
        SpecInput::UrlWithFilename(_, f) => SpecInput::UrlWithFilename(src, f),
    }
}

/// The manifest line emitted for one source entry: quoted and indented;
/// an entry whose filename has a resolved pin is replaced by the pin's
/// source, updated by mode.
pub open spec fn spec_entry_line(
    inp: SpecInput,
    pins: Seq<(Seq<char>, SpecPin)>,
    pin_commit: bool,
) -> Result<Seq<char>, PinError> {
    match spec_input_filename(inp) {
        Err(e) => Err(e),
        Ok(name) => {
            let new_inp = match spec_pin_lookup(pins, name) {
                Some(pin) => spec_replace_input(inp, spec_pinned_source(pin, pin_commit)),
                None => inp,
            };
            Ok("    \""@ + spec_display_input(new_inp) + "\""@)
        },
    }
}

/// The lines of the rebuilt source array body, one per entry, in the
/// entries' original order; the first failing entry's error wins.
pub open spec fn spec_source_block(
    sources: Seq<SpecInput>,
    pins: Seq<(Seq<char>, SpecPin)>,
    pin_commit: bool,
) -> Result<Seq<Seq<char>>, PinError>
    decreases sources.len(),
{
    if sources.len() == 0 {
        Ok(Seq::<Seq<char>>::empty())
    } else {
        match spec_source_block(sources.drop_last(), pins, pin_commit) {
            Err(e) => Err(e),
            Ok(pre) => match spec_entry_line(sources.last(), pins, pin_commit) {
                Ok(l) => Ok(pre.push(l)),
                Err(e) => Err(e),
            },
        }
    }
}

/// The rewrite, from line `i` on. While `skipping`, original lines are
/// being consumed up to and including the first line ending in `)`.
/// A line starting `_commit` or `_tag` becomes the corresponding
/// assignment from the first declared pin; a line starting `source=`
/// becomes the rebuilt array and turns on skipping; every other line is
/// copied verbatim.
pub open spec fn spec_rewrite_from(
    lines: Seq<Seq<char>>,
    i: int,
    skipping: bool,
    pins: Seq<(Seq<char>, SpecPin)>,
    sources: Seq<SpecInput>,
    pin_commit: bool,
) -> Result<Seq<Seq<char>>, PinError>
    decreases lines.len() - i when 0 <= i <= lines.len()
{
    if i >= lines.len() {
        Ok(Seq::<Seq<char>>::empty())
    } else {
        let line = lines[i];
        if skipping {
            spec_rewrite_from(lines, i + 1, !spec_ends_with(line, ")"@), pins, sources, pin_commit)
        } else if spec_starts_with(line, "_commit"@) {
            if pins.len() == 0 {
                Err(PinError::NoPinForSubstitution)
            } else {
                match spec_rewrite_from(lines, i + 1, false, pins, sources, pin_commit) {
                    Err(e) => Err(e),
                    Ok(rest) => Ok(seq!["_commit="@ + pins[0].1.commit_hash] + rest),
                }
            }
        } else if spec_starts_with(line, "_tag"@) {
            if pins.len() == 0 {
                Err(PinError::NoPinForSubstitution)
            } else {
                match spec_rewrite_from(lines, i + 1, false, pins, sources, pin_commit) {
                    Err(e) => Err(e),
                    Ok(rest) => Ok(seq!["_tag="@ + pins[0].1.tag_hash] + rest),
                }
            }
        } else if spec_starts_with(line, "source="@) {
            match spec_source_block(sources, pins, pin_commit) {
                Err(e) => Err(e),
                Ok(block) => match spec_rewrite_from(lines, i + 1, true, pins, sources, pin_commit) {
                    Err(e) => Err(e),
                    Ok(rest) => Ok(seq!["source=("@] + block + seq![")"@] + rest),
                },
            }
        } else {
            match spec_rewrite_from(lines, i + 1, false, pins, sources, pin_commit) {
                Err(e) => Err(e),
                Ok(rest) => Ok(seq![line] + rest),
            }
        }
    }
}

/// The whole rewritten manifest.
pub open spec fn spec_rewrite(
    lines: Seq<Seq<char>>,
    pins: Seq<(Seq<char>, SpecPin)>,
    sources: Seq<SpecInput>,
    pin_commit: bool,
) -> Result<Seq<Seq<char>>, PinError> {
    spec_rewrite_from(lines, 0, false, pins, sources, pin_commit)
}

/// A manifest none of whose lines opens a `_commit`, `_tag` or `source=`
/// assignment is rewritten to itself: every other line passes through
/// verbatim.
pub proof fn lemma_rewrite_preserves_plain_lines(
    lines: Seq<Seq<char>>,
    pins: Seq<(Seq<char>, SpecPin)>,
    sources: Seq<SpecInput>,
    pin_commit: bool,
)
    requires
        forall|i: int|
            0 <= i < lines.len() ==> !spec_starts_with(#[trigger] lines[i], "_commit"@)
                && !spec_starts_with(lines[i], "_tag"@) && !spec_starts_with(lines[i], "source="@),
    ensures
        spec_rewrite(lines, pins, sources, pin_commit) == Ok::<Seq<Seq<char>>, PinError>(lines),
{
    lemma_rewrite_plain_from(lines, pins, sources, pin_commit, 0);
    assert(lines.skip(0) =~= lines);
}

proof fn lemma_rewrite_plain_from(
    lines: Seq<Seq<char>>,
    pins: Seq<(Seq<char>, SpecPin)>,
    sources: Seq<SpecInput>,
    pin_commit: bool,
    n: int,
)
    requires
        0 <= n <= lines.len(),
        forall|i: int|
            0 <= i < lines.len() ==> !spec_starts_with(#[trigger] lines[i], "_commit"@)
                && !spec_starts_with(lines[i], "_tag"@) && !spec_starts_with(lines[i], "source="@),
    ensures
        spec_rewrite_from(lines, n, false, pins, sources, pin_commit) == Ok::<
            Seq<Seq<char>>,
            PinError,
        >(lines.skip(n)),
    decreases lines.len() - n,
{
    if n >= lines.len() {
        assert(lines.skip(n) =~= Seq::<Seq<char>>::empty());
    } else {
        lemma_rewrite_plain_from(lines, pins, sources, pin_commit, n + 1);
        assert(seq![lines[n]] + lines.skip(n + 1) =~= lines.skip(n));
    }
}

/// An error on a prefix of the sources is the error of the whole block.
proof fn lemma_source_block_extend_err(
    sources: Seq<SpecInput>,
    pins: Seq<(Seq<char>, SpecPin)>,
    pin_commit: bool,
    n: int,
)
    requires
        0 <= n <= sources.len(),
        spec_source_block(sources.take(n), pins, pin_commit) is Err,
    ensures
        spec_source_block(sources, pins, pin_commit) == spec_source_block(
            sources.take(n),
            pins,
            pin_commit,
        ),
    decreases sources.len() - n,
{
    if n < sources.len() {
        assert(sources.take(n + 1).drop_last() =~= sources.take(n));
        lemma_source_block_extend_err(sources, pins, pin_commit, n + 1);
    } else {
        assert(sources.take(n) =~= sources);
    }
}

/// The pin recorded for `name`, if any.
fn pin_lookup<'a>(pins: &'a Vec<(String, ResolvedPin)>, name: &str) -> (r: Option<
    &'a ResolvedPin,
>)
    ensures
        match r {
            Some(p) => spec_pin_lookup(pins_view(pins@), name@) == Some(p@),
            None => spec_pin_lookup(pins_view(pins@), name@) is None,
        },
{
    let ghost pv = pins_view(pins@);
    proof {
        assert(pv.skip(0) =~= pv);
    }
    let mut k: usize = 0;
    while k < pins.len()
        invariant
            k <= pins.len(),
            pv == pins_view(pins@),
            pv.len() == pins.len(),
            spec_pin_lookup(pv, name@) == spec_pin_lookup(pv.skip(k as int), name@),
        decreases pins.len() - k,
    {
        let entry = &pins[k];
        proof {
            assert(pv.skip(k as int)[0] == pv[k as int]);
            assert(pv.skip(k as int).drop_first() =~= pv.skip(k + 1));
        }
        if str_eq(entry.0.as_str(), name) {
            return Some(&entry.1);
        }
        k += 1;
    }
    proof {
        assert(pv.skip(pins.len() as int) =~= Seq::<(Seq<char>, SpecPin)>::empty());
    }
    None
}

/// The source a pinned entry is rewritten to.
fn pinned_source(pin: &ResolvedPin, pin_commit: bool) -> (r: Source)
    ensures
        r@ == spec_pinned_source(pin@, pin_commit),
{
    match &pin.source {
        Source::Git(g) => {
            let mut git = g.clone();
            if pin_commit {
                git.tag = None;
                git.commit = Some(pin.commit_hash.clone());
            } else {
                git.tag = Some(pin.tag_hash.clone());
            }
            let r = Source::Git(git);
            proof {
                assert(r@ =~~= spec_pinned_source(pin@, pin_commit));
            }
            r
        },
        _ => {
            let r = pin.source.clone();
            proof {
                assert(r@ =~~= spec_pinned_source(pin@, pin_commit));
            }
            r
        },
    }
}

/// A run must declare at least one pin; an empty pin list fails fast,
/// before any resolution is attempted or any text is rewritten.
pub fn check_pins_declared(pins: &Vec<Input>) -> (r: Result<(), PinError>)
    ensures
        pins@.len() == 0 ==> r == Err::<(), PinError>(PinError::NoPinsConfigured),
        pins@.len() > 0 ==> r == Ok::<(), PinError>(()),
{
    if pins.len() == 0 {
        Err(PinError::NoPinsConfigured)
    } else {
        Ok(())
    }
}

/// Rewrite the manifest: substitute the first declared pin's hashes into
/// `_commit`/`_tag` lines, rebuild the `source=( ... )` array from the
/// parsed entries with pinned entries replaced, and copy every other line
/// through verbatim. Pure: the caller decides what to do with the result.
#[verifier::loop_isolation(false)]
pub fn rewrite_manifest(
    lines: &Vec<String>,
    pins: &Vec<(String, ResolvedPin)>,
    sources: &Vec<Input>,
    pin_commit: bool,
) -> (r: Result<Vec<String>, PinError>)
    ensures
        r matches Ok(out) ==> spec_rewrite(
            lines.deep_view(),
            pins_view(pins@),
            sources.deep_view(),
            pin_commit,
        ) == Ok::<Seq<Seq<char>>, PinError>(out.deep_view()),
        r matches Err(e) ==> spec_rewrite(
            lines.deep_view(),
            pins_view(pins@),
            sources.deep_view(),
            pin_commit,
        ) == Err::<Seq<Seq<char>>, PinError>(e),
{
    let ghost lv = lines.deep_view();
    let ghost pv = pins_view(pins@);
    let ghost sv = sources.deep_view();
    let mut out: Vec<String> = Vec::new();
    let mut skipping = false;
    let mut i: usize = 0;
    proof {
        assert(out.deep_view() =~= Seq::<Seq<char>>::empty());
    }
    while i < lines.len()
        invariant
            i <= lines.len(),
            lv == lines.deep_view(),
            pv == pins_view(pins@),
            sv == sources.deep_view(),
            lv.len() == lines.len(),
            pv.len() == pins.len(),
            sv.len() == sources.len(),
            spec_rewrite(lv, pv, sv, pin_commit) == (match spec_rewrite_from(
                lv,
                i as int,
                skipping,
                pv,
                sv,
                pin_commit,
            ) {
                Ok(rest) => Ok::<Seq<Seq<char>>, PinError>(out.deep_view() + rest),
                Err(e) => Err::<Seq<Seq<char>>, PinError>(e),
            }),
        decreases lines.len() - i,
    {
        let line = lines[i].as_str();
        proof {
            assert(lv[i as int] == lines[i as int]@);
        }
        let ghost out_pre = out.deep_view();
        if skipping {
            if str_ends_with(line, ")") {
                skipping = false;
            }
        } else if str_starts_with(line, "_commit") {
            if pins.len() == 0 {
                return Err(PinError::NoPinForSubstitution);
            }
            let mut l = String::from_str("_commit=");
            l.append(pins[0].1.commit_hash.as_str());
            proof {
                assert(pv[0] == (pins[0 as int].0@, pins[0 as int].1@));
            }
            out.push(l);
            proof {
                assert(out.deep_view() =~= out_pre.push(l@));
                let step = spec_rewrite_from(lv, i + 1, false, pv, sv, pin_commit);
                if step is Ok {
                    assert(out_pre.push(l@) + step->Ok_0 =~= out_pre + (seq![l@] + step->Ok_0));
                }
            }
        } else if str_starts_with(line, "_tag") {
            if pins.len() == 0 {
                return Err(PinError::NoPinForSubstitution);
            }
            let mut l = String::from_str("_tag=");
            l.append(pins[0].1.tag_hash.as_str());
            proof {
                assert(pv[0] == (pins[0 as int].0@, pins[0 as int].1@));
            }
            out.push(l);
            proof {
                assert(out.deep_view() =~= out_pre.push(l@));
                let step = spec_rewrite_from(lv, i + 1, false, pv, sv, pin_commit);
                if step is Ok {
                    assert(out_pre.push(l@) + step->Ok_0 =~= out_pre + (seq![l@] + step->Ok_0));
                }
            }
        } else if str_starts_with(line, "source=") {
            out.push(String::from_str("source=("));
            let ghost base = out.deep_view();
            proof {
                assert(base =~= out_pre.push("source=("@));
            }
            let mut k: usize = 0;
            proof {
                assert(sv.take(0) =~= Seq::<SpecInput>::empty());
                assert(out.deep_view() =~= base + Seq::<Seq<char>>::empty());
            }
            while k < sources.len()
                invariant
                    k <= sources.len(),
                    sv == sources.deep_view(),
                    pv == pins_view(pins@),
                    sv.len() == sources.len(),
                    spec_source_block(sv.take(k as int), pv, pin_commit) matches Ok(block) && (
                    out.deep_view() =~= base + block),
                decreases sources.len() - k,
            {
                let ghost block_pre = spec_source_block(sv.take(k as int), pv, pin_commit)->Ok_0;
                proof {
                    assert(sv.take(k + 1).drop_last() =~= sv.take(k as int));
                    assert(sv.take(k + 1).last() == sv[k as int]);
                    assert(sources[k as int]@ == sv[k as int]);
                }
                let inp = &sources[k];
                match inp.filename() {
                    Err(e) => {
                        proof {
                            assert(spec_entry_line(sv[k as int], pv, pin_commit) == Err::<
                                Seq<char>,
                                PinError,
                            >(e));
                            assert(spec_source_block(sv.take(k + 1), pv, pin_commit) == Err::<
                                Seq<Seq<char>>,
                                PinError,
                            >(e));
                            lemma_source_block_extend_err(sv, pv, pin_commit, k + 1);
                            assert(spec_rewrite_from(lv, i as int, false, pv, sv, pin_commit)
                                == Err::<Seq<Seq<char>>, PinError>(e));
                        }
                        return Err(e);
                    },
                    Ok(name) => {
                        let new_inp: Input = match pin_lookup(pins, name.as_str()) {
                            Some(pin) => {
                                let src = pinned_source(pin, pin_commit);
                                match inp {
                                    Input::Url(_) => Input::Url(src),
                                    Input::UrlWithFilename((_, f)) => Input::UrlWithFilename(
                                        (src, f.clone()),
                                    ),
                                }
                            },
                            None => inp.clone(),
                        };
                        proof {
                            assert(new_inp@ =~~= (match spec_pin_lookup(pv, name@) {
                                Some(pin) => spec_replace_input(
                                    inp@,
                                    spec_pinned_source(pin, pin_commit),
                                ),
                                None => inp@,
                            }));
                        }
                        let mut l = String::from_str("    \"");
                        l.append(new_inp.encoded().as_str());
                        l.append("\"");
                        out.push(l);
                        proof {
                            assert(spec_entry_line(sv[k as int], pv, pin_commit) == Ok::<
                                Seq<char>,
                                PinError,
                            >(l@));
                            assert(out.deep_view() =~= (base + block_pre).push(l@));
                            assert((base + block_pre).push(l@) =~= base + block_pre.push(l@));
                        }
                    },
                }
                k += 1;
            }
            proof {
                assert(sv.take(sources.len() as int) =~= sv);
            }
            out.push(String::from_str(")"));
            skipping = true;
            proof {
                let block = spec_source_block(sv, pv, pin_commit)->Ok_0;
                assert(out.deep_view() =~= (base + block).push(")"@));
                let step = spec_rewrite_from(lv, i + 1, true, pv, sv, pin_commit);
                if step is Ok {
                    let rest = step->Ok_0;
                    assert(out.deep_view() + rest =~= out_pre + (seq!["source=("@] + block + seq![
                        ")"@,
                    ] + rest));
                }
            }
        } else {
            out.push(lines[i].clone());
            proof {
                let cur = lv[i as int];
                assert(out.deep_view() =~= out_pre.push(cur));
                let step = spec_rewrite_from(lv, i + 1, false, pv, sv, pin_commit);
                if step is Ok {
                    assert(out_pre.push(cur) + step->Ok_0 =~= out_pre + (seq![cur] + step->Ok_0));
                }
            }
        }
        i += 1;
    }
    proof {
        assert(out.deep_view() + Seq::<Seq<char>>::empty() =~= out.deep_view());
    }
    Ok(out)
}

} // verus!
