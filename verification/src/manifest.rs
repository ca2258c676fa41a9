//! The manifest at the repository root, and the workspace patterns it
//! declares.

use vstd::prelude::*;
use vstd::string::{StringExecFns, StringSliceAdditionalSpecFns};
use crate::failure::Failure;
use crate::text::{as_text, text_of};

verus! {

#[verifier::external_type_specification]
#[verifier::external_body]
pub struct ExJsonValue(json::JsonValue);

#[verifier::external_type_specification]
#[verifier::external_body]
pub struct ExJsonError(json::Error);

/// What `json::parse` makes of a text: the document, or `None` where it
/// rejects the text.
pub uninterp spec fn json_document(text: Seq<char>) -> Option<json::JsonValue>;

/// What indexing a JSON value by a string gives: the member under that key
/// of an object, the null value for anything else.
pub uninterp spec fn json_member(value: json::JsonValue, key: Seq<char>) -> json::JsonValue;

/// What `JsonValue::members` walks through: the items of an array, in
/// order, and nothing for any other value.
pub uninterp spec fn json_items(value: json::JsonValue) -> Seq<json::JsonValue>;

/// What `JsonValue::as_str` gives: the text of a string value, `None` for
/// any other value.
pub uninterp spec fn json_string(value: json::JsonValue) -> Option<Seq<char>>;

/// `json::parse`. Its result depends on the text alone. It must not be
/// given a text in which more than `DIGIT_RUN_LIMIT` digits follow one
/// another: the parser counts the digits behind a decimal point in sixteen
/// bits, and on a longer number that count overflows. Trusted, not proved.
#[verifier::external_body]
fn parse(text: &str) -> (r: Result<json::JsonValue, json::Error>)
    requires
        short_digit_runs(text.spec_bytes()),
    ensures
        match r {
            Ok(document) => json_document(text@) == Some(document),
            Err(_) => json_document(text@) is None,
        },
{
    json::parse(text)
}

/// Indexing of a `json::JsonValue` by a string slice. Trusted, not proved.
#[verifier::external_body]
fn member<'a>(value: &'a json::JsonValue, key: &str) -> (r: &'a json::JsonValue)
    ensures
        *r == json_member(*value, key@),
{
    &value[key]
}

/// `JsonValue::members`, with the items it walks through collected in
/// order. Trusted, not proved.
#[verifier::external_body]
fn items(value: &json::JsonValue) -> (r: Vec<&json::JsonValue>)
    ensures
        r@.len() == json_items(*value).len(),
        forall|i: int| 0 <= i < r@.len() ==> *r@[i] == json_items(*value)[i],
{
    value.members().collect()
}

/// `JsonValue::as_str`. Trusted, not proved.
#[verifier::external_body]
fn string(value: &json::JsonValue) -> (r: Option<&str>)
    ensures
        match r {
            Some(text) => json_string(*value) == Some(text@),
            None => json_string(*value) is None,
        },
{
    value.as_str()
}

/// The most digits that may follow one another in a manifest.
pub const DIGIT_RUN_LIMIT: usize = 32767;

/// The byte is an ASCII digit.
pub open spec fn is_digit(byte: u8) -> bool {
    '0' as u8 <= byte <= '9' as u8
}

/// The number of digits that follow one another up to `end`, the place
/// behind the last of them.
pub open spec fn digit_run(bytes: Seq<u8>, end: int) -> nat
    decreases end,
{
    if 0 < end <= bytes.len() && is_digit(bytes[end - 1]) {
        1 + digit_run(bytes, end - 1)
    } else {
        0
    }
}

/// Nowhere in `bytes` do more than `DIGIT_RUN_LIMIT` digits follow one
/// another.
pub open spec fn short_digit_runs(bytes: Seq<u8>) -> bool {
    forall|end: int| 0 <= end <= bytes.len() ==> #[trigger] digit_run(bytes, end) <= DIGIT_RUN_LIMIT
}

/// Name of the manifest file, as bytes: `package.json`.
pub open spec fn manifest_name() -> Seq<u8> {
    seq![
        'p' as u8, 'a' as u8, 'c' as u8, 'k' as u8, 'a' as u8, 'g' as u8, 'e' as u8, '.' as u8,
        'j' as u8, 's' as u8, 'o' as u8, 'n' as u8,
    ]
}

/// The entries that a manifest text lists under `workspaces.packages`,
/// in order: `Some` for a string, `None` for anything else. A document
/// without that list has no entries. `None` where the text is no JSON.
pub open spec fn listed_entries(text: Seq<char>) -> Option<Seq<Option<Seq<char>>>> {
    match json_document(text) {
        Some(document) => Some(
            json_items(json_member(json_member(document, "workspaces"@), "packages"@)).map_values(
                |item: json::JsonValue| json_string(item),
            ),
        ),
        None => None,
    }
}

/// The workspace entries of a manifest given as bytes. A manifest with
/// too long a run of digits counts as one that cannot be understood.
pub open spec fn manifest_entries(manifest: Seq<u8>) -> Result<Seq<Option<Seq<char>>>, Failure> {
    match text_of(manifest) {
        Some(text) => if short_digit_runs(manifest) {
            match listed_entries(text) {
                Some(entries) => Ok(entries),
                None => Err(Failure::ManifestUnparsable),
            }
        } else {
            Err(Failure::ManifestUnparsable)
        },
        None => Err(Failure::ManifestUnparsable),
    }
}

/// Do at most `DIGIT_RUN_LIMIT` digits follow one another everywhere in
/// `bytes`?
pub fn has_short_digit_runs(bytes: &[u8]) -> (r: bool)
    ensures
        r == short_digit_runs(bytes@),
{
    let mut run: usize = 0;
    let mut i: usize = 0;
    while i < bytes.len()
        invariant
            i <= bytes.len(),
            run == digit_run(bytes@, i as int),
            run <= DIGIT_RUN_LIMIT,
            forall|end: int| 0 <= end <= i ==> #[trigger] digit_run(bytes@, end) <= DIGIT_RUN_LIMIT,
        decreases bytes.len() - i,
    {
        if '0' as u8 <= bytes[i] && bytes[i] <= '9' as u8 {
            run += 1;
        } else {
            run = 0;
        }
        i += 1;
        assert(run == digit_run(bytes@, i as int));
        if run > DIGIT_RUN_LIMIT {
            return false;
        }
    }
    true
}

/// Name of the manifest file.
pub fn manifest_file_name() -> (r: Vec<u8>)
    ensures
        r@ == manifest_name(),
{
    let r: Vec<u8> = vec![
        'p' as u8, 'a' as u8, 'c' as u8, 'k' as u8, 'a' as u8, 'g' as u8, 'e' as u8, '.' as u8,
        'j' as u8, 's' as u8, 'o' as u8, 'n' as u8,
    ];
    assert(r@ =~= manifest_name());
    r
}

/// Reads the workspace entries out of a manifest.
///
/// Fails with `ManifestUnparsable` exactly where the bytes are no UTF-8
/// text, hold too long a run of digits, or the text is no JSON document.
pub fn workspace_entries(manifest: &[u8]) -> (r: Result<Vec<Option<String>>, Failure>)
    ensures
        manifest_entries(manifest@) == match r {
            Ok(entries) => Ok(entries.deep_view()),
            Err(failure) => Err(failure),
        },
{
    let text = match as_text(manifest) {
        Some(text) => text,
        None => return Err(Failure::ManifestUnparsable),
    };
    if !has_short_digit_runs(manifest) {
        return Err(Failure::ManifestUnparsable);
    }
    let document = match parse(text) {
        Ok(document) => document,
        Err(_) => return Err(Failure::ManifestUnparsable),
    };
    let listed = items(member(member(&document, "workspaces"), "packages"));
    let ghost wanted = listed_entries(text@).unwrap();
    let mut entries: Vec<Option<String>> = Vec::new();
    let mut i: usize = 0;
    while i < listed.len()
        invariant
            i <= listed.len(),
            listed@.len() == wanted.len(),
            forall|j: int| 0 <= j < listed@.len() ==> json_string(*listed@[j]) == wanted[j],
            entries@.len() == i,
            forall|j: int| 0 <= j < i ==> (#[trigger] entries@[j]).deep_view() == wanted[j],
        decreases listed.len() - i,
    {
        let entry = match string(listed[i]) {
            Some(text) => Some(String::from_str(text)),
            None => None,
        };
        entries.push(entry);
        i += 1;
    }
    assert(entries.deep_view() =~= wanted);
    Ok(entries)
}

} // verus!
