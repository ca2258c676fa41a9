//! Workspace patterns: from a manifest entry to the glob pattern that is
//! expanded on the filesystem.

use vstd::prelude::*;
use vstd::slice::slice_to_vec;
use vstd::string::StringExecFns;
use vstd::utf8::encode_utf8;
use crate::failure::Failure;
use crate::path::{join, joined};
use crate::text::{as_text, text_of};

verus! {

#[verifier::external_type_specification]
#[verifier::external_body]
pub struct ExPattern(glob::Pattern);

#[verifier::external_type_specification]
#[verifier::external_body]
pub struct ExPatternError(glob::PatternError);

/// Whether `glob::Pattern::new` takes a text for a pattern.
pub uninterp spec fn glob_accepts(text: Seq<char>) -> bool;

/// `glob::Pattern::new`. Whether it takes the text depends on the text
/// alone. Trusted, not proved.
#[verifier::external_body]
fn compile(text: &str) -> (r: Result<glob::Pattern, glob::PatternError>)
    ensures
        r is Ok == glob_accepts(text@),
{
    glob::Pattern::new(text)
}

/// What a manifest entry asks to expand: a string entry taken relative to
/// the root, the root itself for an entry that is no string.
pub open spec fn entry_target(root: Seq<u8>, entry: Option<Seq<char>>) -> Seq<u8> {
    match entry {
        Some(pattern) => joined(root, encode_utf8(pattern)),
        None => root,
    }
}

/// The glob pattern of a manifest entry: its target read as text, where
/// that is UTF-8 and a pattern that glob takes.
pub open spec fn entry_pattern(root: Seq<u8>, entry: Option<Seq<char>>) -> Result<
    Seq<char>,
    Failure,
> {
    match text_of(entry_target(root, entry)) {
        Some(text) => if glob_accepts(text) {
            Ok(text)
        } else {
            Err(Failure::InvalidPattern)
        },
        None => Err(Failure::InvalidPattern),
    }
}

/// Decides what a pattern text is good for: `Ok` with the text where glob
/// takes it (`accepted`), `InvalidPattern` where it does not.
pub fn checked_pattern(text: &str, accepted: bool) -> (r: Result<String, Failure>)
    ensures
        r matches Ok(pattern) ==> accepted && pattern@ == text@,
        r matches Err(failure) ==> !accepted && failure == Failure::InvalidPattern,
{
    if accepted {
        Ok(String::from_str(text))
    } else {
        Err(Failure::InvalidPattern)
    }
}

/// The glob pattern to expand for one manifest entry under `root`.
///
/// Fails with `InvalidPattern` exactly where the target is no UTF-8 text or
/// glob does not take it for a pattern.
pub fn full_pattern(root: &[u8], entry: &Option<String>) -> (r: Result<String, Failure>)
    ensures
        entry_pattern(root@, entry.deep_view()) == match r {
            Ok(pattern) => Ok(pattern@),
            Err(failure) => Err(failure),
        },
{
    let target = match entry {
        Some(pattern) => join(root, pattern.as_str().as_bytes()),
        None => slice_to_vec(root),
    };
    match as_text(target.as_slice()) {
        Some(text) => checked_pattern(text, compile(text).is_ok()),
        None => Err(Failure::InvalidPattern),
    }
}

} // verus!
