//! The functions of other crates that the library calls, and of `std` where Verus knows
//! nothing of them. What is said of them here is not proved.
use crate::duplicate;
use serde_yaml::{Mapping, Value};
use std::io::Read;
use vstd::prelude::*;

verus! {

/// `String::push` puts a character at the end.
pub assume_specification[ String::push ](s: &mut String, c: char)
    ensures
        final(s)@ == old(s)@.push(c),
;

/// Whether no key stands there twice.
pub open spec fn distinct_keys<V>(entries: Seq<(Seq<char>, V)>) -> bool {
    forall|i: int, j: int|
        0 <= i < j < entries.len() ==> #[trigger] entries[i].0 != #[trigger] entries[j].0
}

/// The YAML text that `serde_yaml` writes for three nested mappings.
pub uninterp spec fn yaml_text(
    document: Seq<(Seq<char>, Seq<(Seq<char>, Seq<(Seq<char>, Seq<char>)>)>)>,
) -> Result<Seq<char>, Seq<char>>;

/// `serde_yaml::to_string` on a `serde_yaml::Mapping`, which keeps the order of its entries. The
/// text is a function of the entries alone.
#[verifier::external_body]
pub(crate) fn write_yaml(document: &Vec<(String, Vec<(String, Vec<(String, String)>)>)>) -> (r:
    Result<String, String>)
    requires
        distinct_keys(document.deep_view()),
        forall|i: int|
            0 <= i < document@.len() ==> distinct_keys(#[trigger] document.deep_view()[i].1),
        forall|i: int, j: int|
            0 <= i < document@.len() && 0 <= j < document.deep_view()[i].1.len() ==> distinct_keys(
                #[trigger] document.deep_view()[i].1[j].1,
            ),
    ensures
        duplicate::outcome(r) == yaml_text(document.deep_view()),
{
    let text = |value: &String| Value::from(value.as_str());
    let outer: Mapping = document.iter().map(|(key, middle)| {
        let middle: Mapping = middle.iter().map(|(key, inner)| {
            let inner: Mapping = inner.iter().map(|(key, value)| (text(key), text(value))).collect();
            (text(key), Value::Mapping(inner))
        }).collect();
        (text(key), Value::Mapping(middle))
    }).collect();
    serde_yaml::to_string(&outer).map_err(|error| error.to_string())
}

/// Why a text is no regular expression; nothing where it is one.
pub uninterp spec fn regex_error(pattern: Seq<char>) -> Option<Seq<char>>;

/// `regex::Regex::new`. Whether a pattern compiles, and what is said where it does not, is a
/// function of the pattern alone.
#[verifier::external_body]
pub(crate) fn check_pattern(pattern: &str) -> (r: Option<String>)
    ensures
        r.deep_view() == regex_error(pattern@),
{
    regex::Regex::new(pattern).err().map(|error| error.to_string())
}

/// Whether a regular expression matches somewhere in a text.
pub uninterp spec fn regex_matches(pattern: Seq<char>, value: Seq<char>) -> bool;

/// `regex::Regex::is_match`, on a pattern that compiles.
#[verifier::external_body]
pub(crate) fn matches_pattern(pattern: &str, value: &str) -> (r: bool)
    requires
        regex_error(pattern@) is None,
    ensures
        r == regex_matches(pattern@, value@),
{
    regex::Regex::new(pattern).map_or(false, |regex| regex.is_match(value))
}

/// The numbers of a semantic version: major, minor and patch.
pub uninterp spec fn semver_numbers(value: Seq<char>) -> Option<(u64, u64, u64)>;

/// `semver::Version::parse`. Whether a text is a semantic version, and its three numbers, are a
/// function of the text alone. Of what follows the numbers nothing is said here.
#[verifier::external_body]
pub(crate) fn parse_version(value: &str) -> (r: Option<(u64, u64, u64)>)
    ensures
        r == semver_numbers(value@),
{
    match semver::Version::parse(value) {
        Ok(version) => Some((version.major, version.minor, version.patch)),
        Err(_) => None,
    }
}

/// The order of triples of numbers, the first number first.
pub open spec fn numbers_exceed(a: (u64, u64, u64), b: (u64, u64, u64)) -> bool {
    a.0 > b.0 || (a.0 == b.0 && (a.1 > b.1 || (a.1 == b.1 && a.2 > b.2)))
}

/// How two semantic versions are ordered: 1 where the first is the later one, -1 where it is the
/// earlier one, and 0 where neither is.
pub uninterp spec fn semver_order(a: Seq<char>, b: Seq<char>) -> i8;

/// The order of `semver::Version`, which compares major, minor and patch before all else. It is a
/// total order, and only a text and itself are equal in it: a semantic version is written in one
/// way only, and the order looks at the build metadata too. How versions with the same numbers
/// are ordered otherwise is a function of the two texts, and not said here.
#[verifier::external_body]
pub(crate) fn order_versions(a: &str, b: &str) -> (r: i8)
    requires
        semver_numbers(a@) is Some,
        semver_numbers(b@) is Some,
    ensures
        r == semver_order(a@, b@),
        numbers_exceed(semver_numbers(a@)->0, semver_numbers(b@)->0) ==> r == 1,
        numbers_exceed(semver_numbers(b@)->0, semver_numbers(a@)->0) ==> r == -1,
        (r == 0) == (a@ == b@),
        semver_order(b@, a@) == -r,
        forall|c: Seq<char>|
            semver_numbers(c) is Some && r >= 0 && semver_order(b@, c) >= 0 ==> (
            #[trigger] semver_order(a@, c)) >= 0,
        forall|c: Seq<char>|
            semver_numbers(c) is Some && r <= 0 && semver_order(b@, c) <= 0 ==> (
            #[trigger] semver_order(a@, c)) <= 0,
{
    match semver::Version::parse(a).ok().cmp(&semver::Version::parse(b).ok()) {
        std::cmp::Ordering::Less => -1,
        std::cmp::Ordering::Equal => 0,
        std::cmp::Ordering::Greater => 1,
    }
}

/// The bytes that a text holds in the standard Base64 alphabet, with padding.
pub uninterp spec fn base64_bytes(value: Seq<char>) -> Option<Seq<u8>>;

/// `base64::Engine::decode` of the engine `STANDARD`. The result is a function of the text alone.
#[verifier::external_body]
pub(crate) fn decode_base64(value: &str) -> (r: Option<Vec<u8>>)
    ensures
        r.deep_view() == base64_bytes(value@),
{
    base64::Engine::decode(&base64::engine::general_purpose::STANDARD, value).ok()
}

/// `String::from_utf8`: the text that the bytes encode, where they are valid UTF-8.
#[verifier::external_body]
pub(crate) fn text_from_utf8(bytes: Vec<u8>) -> (r: Option<String>)
    ensures
        match r {
            Some(s) => vstd::utf8::valid_utf8(bytes@) && s@ == vstd::utf8::decode_utf8(bytes@),
            None => !vstd::utf8::valid_utf8(bytes@),
        },
{
    String::from_utf8(bytes).ok()
}

/// What is said of a text that is no unsigned 64-bit number.
pub uninterp spec fn number_error(value: Seq<char>) -> Seq<char>;

/// `str::parse::<u64>`: the number that decimal digits spell, with an optional `+` before them.
/// What is said where they spell none, or one that is too large, is a function of the text alone.
#[verifier::external_body]
pub(crate) fn parse_number(value: &str) -> (r: Result<u64, String>)
    ensures
        match r {
            Ok(n) => crate::text::number(value@) == Some(n),
            Err(message) => crate::text::number(value@) is None && message@ == number_error(
                value@,
            ),
        },
{
    value.parse::<u64>().map_err(|error| error.to_string())
}

/// `semver::Version::parse` with `Prerelease::is_empty` and `BuildMetadata::is_empty`, in this
/// order. Build metadata stands behind the first `+` of a semantic version. A pre-release stands
/// behind the first `-`, where there is one before any `+`.
#[verifier::external_body]
pub(crate) fn version_suffixes(value: &str) -> (r: (bool, bool))
    requires
        semver_numbers(value@) is Some,
    ensures
        r.0 == !value@.take(crate::text::find(value@, '+')).contains('-'),
        r.1 == !value@.contains('+'),
{
    semver::Version::parse(value).map_or(
        (false, false),
        |version| (version.pre.is_empty(), version.build.is_empty()),
    )
}

/// The SHA-256 digest of some bytes.
pub uninterp spec fn sha256_digest(bytes: Seq<u8>) -> Seq<u8>;

/// `sha2::Sha256::digest`: 32 bytes, a function of the input alone.
#[verifier::external_body]
pub(crate) fn sha256(bytes: &Vec<u8>) -> (r: Vec<u8>)
    ensures
        r@ == sha256_digest(bytes@),
        r@.len() == 32,
{
    <sha2::Sha256 as sha2::Digest>::digest(bytes).to_vec()
}

/// The paths of the entries of a compressed archive. Where an entry cannot be read, the reason
/// stands in place of its path, and no entry follows.
pub uninterp spec fn archive_paths(bytes: Seq<u8>) -> Seq<Result<Seq<u8>, Seq<char>>>;

/// `tar::Archive::entries` on a `flate2::read::GzDecoder`, and `tar::Entry::path_bytes` of each
/// entry. The list is a function of the bytes alone.
#[verifier::external_body]
pub(crate) fn list_archive(bytes: &Vec<u8>) -> (r: Vec<Result<Vec<u8>, String>>)
    ensures
        r@.map_values(|p: Result<Vec<u8>, String>| duplicate::outcome(p)) == archive_paths(bytes@),
{
    let mut archive = tar::Archive::new(flate2::read::GzDecoder::new(bytes.as_slice()));
    match archive.entries() {
        Err(error) => vec![Err(error.to_string())],
        Ok(entries) => entries
            .map(|entry| entry.map(|e| e.path_bytes().into_owned()).map_err(|e| e.to_string()))
            .collect(),
    }
}

/// What the entry of a compressed archive at an index holds, up to a number of bytes.
pub uninterp spec fn archive_content(bytes: Seq<u8>, index: int, limit: u64) -> Result<
    Seq<u8>,
    Seq<char>,
>;

/// `std::io::Read::read_to_end` on an entry of a `tar::Archive`, cut off by `std::io::Read::take`.
/// What is read is a function of the arguments alone, and never more than the limit.
#[verifier::external_body]
pub(crate) fn read_archive(bytes: &Vec<u8>, index: usize, limit: u64) -> (r: Result<Vec<u8>, String>)
    requires
        index < archive_paths(bytes@).len(),
    ensures
        duplicate::outcome(r) == archive_content(bytes@, index as int, limit),
        r is Ok ==> r->Ok_0@.len() <= limit,
{
    let mut archive = tar::Archive::new(flate2::read::GzDecoder::new(bytes.as_slice()));
    let mut content = Vec::new();
    match archive.entries().map_err(|error| error.to_string())?.nth(index) {
        Some(Ok(entry)) => match std::io::Read::take(entry, limit).read_to_end(&mut content) {
            Ok(_) => Ok(content),
            Err(error) => Err(error.to_string()),
        },
        Some(Err(error)) => Err(error.to_string()),
        None => Err(String::new()),
    }
}

/// The authority that a URI names, where the text is a URI and names one.
pub uninterp spec fn uri_authority(value: Seq<char>) -> Option<Seq<char>>;

/// `str::parse::<axum::http::Uri>`, `Uri::authority` and `Authority::as_str`. The result is a
/// function of the text alone.
#[verifier::external_body]
pub(crate) fn parse_authority(value: &str) -> (r: Option<String>)
    ensures
        r.deep_view() == uri_authority(value@),
{
    match value.parse::<axum::http::Uri>() {
        Ok(uri) => uri.authority().map(|authority| authority.as_str().to_owned()),
        Err(_) => None,
    }
}

} // verus!
