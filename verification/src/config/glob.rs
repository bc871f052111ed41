//! Matching of file paths against the patterns of a pipeline map.

use crate::text::{same_text, split_once};
use vstd::prelude::*;

verus! {

/// Whether the glob pattern `glob` matches `path`, as the `glob_match`
/// crate decides it on the platform that the library is built for.
pub uninterp spec fn glob_matches(glob: Seq<char>, path: Seq<char>) -> bool;

/// Matches `path` against the glob pattern `glob`.
///
/// Stands for `glob_match::glob_match`, whose result is taken as a
/// function of the two texts. It keeps its positions in 32-bit counters, so
/// neither text may be longer than those can count.
#[verifier::external_body]
fn glob_match(glob: &str, path: &str) -> (matched: bool)
    requires
        matchable(glob@),
        matchable(path@),
    ensures
        matched == glob_matches(glob@, path@),
{
    glob_match::glob_match(glob, path)
}

/// The name of the pipeline that `pattern` is for: what stands before its
/// first colon, or nothing where it has no colon.
pub open spec fn pipeline_of(pattern: Seq<char>) -> Seq<char> {
    match pattern.index_of_first(':') {
        Some(colon) => pattern.subrange(0, colon),
        None => Seq::empty(),
    }
}

/// The glob of `pattern`: what stands behind its first colon, or all of it
/// where it has no colon.
pub open spec fn glob_of(pattern: Seq<char>) -> Seq<char> {
    match pattern.index_of_first(':') {
        Some(colon) => pattern.subrange(colon + 1, pattern.len() as int),
        None => pattern,
    }
}

/// A text is short enough for the counters of the matcher.
pub open spec fn matchable(text: Seq<char>) -> bool {
    vstd::utf8::encode_utf8(text).len() < u32::MAX
}

/// Whether `pattern` selects the file at `path`, whose last component is
/// `basename`, for the pipeline `pipeline`: the pattern is for that
/// pipeline, and its glob matches the base name or the path. Texts too long
/// for the matcher are matched by nothing.
pub open spec fn selects(
    pattern: Seq<char>,
    path: Seq<char>,
    basename: Seq<char>,
    pipeline: Seq<char>,
) -> bool {
    &&& pipeline == pipeline_of(pattern)
    &&& matchable(glob_of(pattern))
    &&& matchable(basename)
    &&& matchable(path)
    &&& glob_matches(glob_of(pattern), basename) || glob_matches(glob_of(pattern), path)
}

/// What `split_once` says of a text with a colon pins the two parts down.
pub proof fn lemma_split_at_colon(pattern: Seq<char>, before: Seq<char>, after: Seq<char>)
    requires
        pattern == before + seq![':'] + after,
        !before.contains(':'),
    ensures
        pattern.contains(':'),
        pipeline_of(pattern) == before,
        glob_of(pattern) == after,
{
    let at = before.len() as int;
    assert(pattern[at] == ':');
    pattern.index_of_first_ensures(':');
    let i = pattern.index_of_first(':')->0;
    assert(i == at) by {
        if i < at {
            assert(before[i] == ':');
        }
    }
    assert(pattern.subrange(0, i) =~= before);
    assert(pattern.subrange(i + 1, pattern.len() as int) =~= after);
}

/// Number of bytes of `text`.
fn byte_len(text: &str) -> (len: usize)
    ensures
        len == vstd::utf8::encode_utf8(text@).len(),
{
    text.as_bytes().len()
}

/// Tells whether `pattern` selects the file at `path`, whose last component
/// is `basename`, for the pipeline `pipeline`.
pub fn is_match(pattern: &str, path: &str, basename: &str, pipeline: &str) -> (matched: bool)
    ensures
        matched == selects(pattern@, path@, basename@, pipeline@),
{
    let (pattern_pipeline, glob) = match split_once(pattern, ':') {
        Some((before, after)) => {
            proof {
                lemma_split_at_colon(pattern@, before@, after@);
            }
            (before, after)
        },
        None => ("", pattern),
    };
    proof {
        reveal_strlit("");
        pattern@.index_of_first_ensures(':');
        assert(pattern_pipeline@ =~= pipeline_of(pattern@));
    }
    if byte_len(glob) >= 0xffff_ffff || byte_len(basename) >= 0xffff_ffff || byte_len(path)
        >= 0xffff_ffff {
        return false;
    }
    same_text(pipeline, pattern_pipeline) && (glob_match(glob, basename) || glob_match(glob, path))
}

} // verus!
