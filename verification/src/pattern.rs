//! The trusted boundary around the `regex` and `crc32fast` crates.
//!
//! Pattern compilation, matching and substitution are performed by
//! `regex::bytes`, and content checksums by `crc32fast`. Their results are
//! functions of their arguments alone, so each is given a name here
//! (`re_valid`, `re_matches`, `re_replaced`, `crc32_of`), and the contracts of
//! the rest of the crate are stated over those names.

use vstd::prelude::*;

verus! {

/// Whether pattern compilation succeeds, as a function of the pattern text
/// alone. Compilation fails on syntactically invalid patterns and on patterns
/// whose compiled form exceeds the default size limit.
pub uninterp spec fn re_valid(pattern: Seq<char>) -> bool;

/// Whether the compiled pattern matches anywhere in the content, as a function
/// of the pattern text and the content alone.
pub uninterp spec fn re_matches(pattern: Seq<char>, content: Seq<u8>) -> bool;

/// The content after every non-overlapping match of the pattern is replaced
/// by the template (which may refer to capture groups), as a function of the
/// pattern text, the template text and the content alone.
pub uninterp spec fn re_replaced(pattern: Seq<char>, template: Seq<char>, content: Seq<u8>) -> Seq<u8>;

/// The CRC32 (IEEE) checksum of a byte sequence, as a function of the bytes
/// alone.
pub uninterp spec fn crc32_of(content: Seq<u8>) -> u32;

/// What `String::from_utf8_lossy` returns, as a function of the bytes alone.
pub uninterp spec fn lossy_utf8(bytes: Seq<u8>) -> Seq<char>;

#[verifier::external_type_specification]
#[verifier::external_body]
pub struct ExRegex(regex::bytes::Regex);

/// The mathematical content of a compiled rule: its pattern text and its
/// replacement template.
pub struct RuleModel {
    pub pattern: Seq<char>,
    pub replacement: Seq<char>,
}

/// A single pattern/template pair whose pattern text has been compiled. The
/// compiled form is kept next to the text it was compiled from; values are
/// only ever built by `compile_rule`, so the two always agree.
pub struct CompiledRule {
    pattern: String,
    template: String,
    regex: regex::bytes::Regex,
}

impl View for CompiledRule {
    type V = RuleModel;

    closed spec fn view(&self) -> RuleModel {
        RuleModel { pattern: self.pattern@, replacement: self.template@ }
    }
}

/// Relies on `regex::bytes::Regex::new`: compiles the pattern text, returning
/// an error exactly when the pattern is invalid, which depends on the pattern
/// text alone.
#[verifier::external_body]
pub(crate) fn compile_rule(pattern: &str, template: &str) -> (r: Option<CompiledRule>)
    ensures
        r is Some <==> re_valid(pattern@),
        r matches Some(cr) ==> cr@ == (RuleModel { pattern: pattern@, replacement: template@ }),
{
    match regex::bytes::Regex::new(pattern) {
        Ok(regex) => Some(CompiledRule {
            pattern: pattern.to_owned(),
            template: template.to_owned(),
            regex,
        }),
        Err(_) => None,
    }
}

/// Relies on `regex::bytes::Regex::is_match`: true if and only if the pattern
/// matches anywhere in the content.
#[verifier::external_body]
pub(crate) fn rule_matches(rule: &CompiledRule, content: &Vec<u8>) -> (r: bool)
    ensures
        r == re_matches(rule@.pattern, content@),
{
    rule.regex.is_match(content.as_slice())
}

/// Relies on `regex::bytes::Regex::replace_all`: replaces every
/// non-overlapping match of the pattern with the template, expanding capture
/// group references; when the pattern does not match, the content is returned
/// unchanged.
#[verifier::external_body]
pub(crate) fn rule_replace_all(rule: &CompiledRule, content: &Vec<u8>) -> (r: Vec<u8>)
    ensures
        r@ == re_replaced(rule@.pattern, rule@.replacement, content@),
        !re_matches(rule@.pattern, content@) ==> r@ == content@,
{
    rule.regex.replace_all(content.as_slice(), rule.template.as_bytes()).into_owned()
}

/// Relies on `crc32fast::hash`: the CRC32 (IEEE) checksum of the bytes.
#[verifier::external_body]
pub(crate) fn crc32(content: &Vec<u8>) -> (r: u32)
    ensures
        r == crc32_of(content@),
{
    crc32fast::hash(content.as_slice())
}

/// Relies on `String::from_utf8_lossy`: a function of the bytes alone, and on
/// valid UTF-8 it returns a string of exactly the given bytes.
#[verifier::external_body]
pub(crate) fn bytes_to_string(bytes: &Vec<u8>) -> (r: String)
    ensures
        r@ == lossy_utf8(bytes@),
        vstd::utf8::valid_utf8(bytes@) ==> vstd::utf8::encode_utf8(r@) == bytes@,
{
    String::from_utf8_lossy(bytes.as_slice()).into_owned()
}

} // verus!
