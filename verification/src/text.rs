//! The Unicode services that word splitting builds on.
//!
//! Every executable function here is a trusted boundary: one call into the
//! standard library or into one of the text crates, with a contract that is
//! believed rather than proved. Results that rest on Unicode's tables are not
//! restated; they are given names, and the callers' contracts are written
//! over those names.

use vstd::prelude::*;

verus! {

/// The stemmer of `pagefind_stem`: opaque here, handed through to its `stem`.
#[verifier::external_type_specification]
#[verifier::external_body]
pub struct ExStemmer(pagefind_stem::Stemmer);

/// Whether Unicode counts the non-ASCII character `c` as alphabetic or numeric.
pub uninterp spec fn unicode_alphanumeric(c: char) -> bool;

/// Whether Unicode counts the non-ASCII character `c` as uppercase.
pub uninterp spec fn unicode_uppercase(c: char) -> bool;

/// Whether Unicode counts `c` as white space.
pub uninterp spec fn whitespace(c: char) -> bool;

/// The characters that `c` lowers to under Unicode's full case mapping; the
/// character itself where it has no lowercase form.
pub uninterp spec fn lowercase_of(c: char) -> Seq<char>;

/// The canonical decomposition (normalization form D) of `text`.
pub uninterp spec fn canonical_decomposition(text: Seq<char>) -> Seq<char>;

/// Whether `c` is a combining mark (general category Mark).
pub uninterp spec fn combining_mark(c: char) -> bool;

/// `text` cut at its word boundaries (case changes, letter and digit
/// changes, separators), each word lowercased, joined by single spaces.
pub uninterp spec fn lower_cased_words(text: Seq<char>) -> Seq<char>;

/// Whether some character of `text` has Unicode's Emoji property.
pub uninterp spec fn has_emoji_character(text: Seq<char>) -> bool;

/// The extended grapheme clusters of `text`, in order.
pub uninterp spec fn extended_graphemes(text: Seq<char>) -> Seq<Seq<char>>;

/// Whether `text` is, as a whole, one emoji of Unicode's emoji list.
pub uninterp spec fn known_emoji(text: Seq<char>) -> bool;

/// The stem that `stemmer` gives for `word`.
pub uninterp spec fn stem_of(stemmer: pagefind_stem::Stemmer, word: Seq<char>) -> Seq<char>;

/// Whether `c` is alphabetic or numeric: among ASCII characters the letters
/// and digits, beyond them what Unicode says.
pub open spec fn alphanumeric(c: char) -> bool {
    if c <= '\u{7f}' {
        ('a' <= c <= 'z') || ('A' <= c <= 'Z') || ('0' <= c <= '9')
    } else {
        unicode_alphanumeric(c)
    }
}

/// Whether `c` is uppercase: among ASCII characters `A` to `Z`, beyond them
/// what Unicode says.
pub open spec fn uppercase(c: char) -> bool {
    if c <= '\u{7f}' {
        'A' <= c <= 'Z'
    } else {
        unicode_uppercase(c)
    }
}

/// Collects characters into a `String` with `Iterator::collect`. Trusted:
/// the text holds exactly these characters, in order.
#[verifier::external_body]
pub(crate) fn string_of(chars: &Vec<char>) -> (text: String)
    ensures
        text@ == chars@,
{
    chars.iter().collect()
}

/// Calls `char::is_alphanumeric`. Trusted: on ASCII it holds of letters and
/// digits only; beyond ASCII the answer is the named one.
#[verifier::external_body]
pub(crate) fn is_alphanumeric(c: char) -> (r: bool)
    ensures
        c <= '\u{7f}' ==> r == (('a' <= c <= 'z') || ('A' <= c <= 'Z') || ('0' <= c <= '9')),
        c > '\u{7f}' ==> r == unicode_alphanumeric(c),
{
    c.is_alphanumeric()
}

/// Calls `char::is_uppercase`. Trusted: on ASCII it holds of `A` to `Z`
/// only; beyond ASCII the answer is the named one.
#[verifier::external_body]
pub(crate) fn is_uppercase(c: char) -> (r: bool)
    ensures
        c <= '\u{7f}' ==> r == ('A' <= c <= 'Z'),
        c > '\u{7f}' ==> r == unicode_uppercase(c),
{
    c.is_uppercase()
}

/// Calls `char::is_whitespace`. Trusted: the answer is the named one.
#[verifier::external_body]
pub(crate) fn is_whitespace(c: char) -> (r: bool)
    ensures
        r == whitespace(c),
{
    c.is_whitespace()
}

/// Calls `char::to_lowercase` and collects what it yields. Trusted: the
/// characters are the named ones.
#[verifier::external_body]
pub(crate) fn to_lowercase(c: char) -> (lowered: Vec<char>)
    ensures
        lowered@ == lowercase_of(c),
{
    c.to_lowercase().collect()
}

/// Calls `unicode_normalization::UnicodeNormalization::nfd` on the text and
/// collects what it yields. Trusted: the characters are the named ones.
#[verifier::external_body]
pub(crate) fn decompose(text: &str) -> (decomposed: Vec<char>)
    ensures
        decomposed@ == canonical_decomposition(text@),
{
    unicode_normalization::UnicodeNormalization::nfd(text).collect()
}

/// Calls `unicode_normalization::char::is_combining_mark`. Trusted: the
/// answer is the named one.
#[verifier::external_body]
pub(crate) fn is_combining_mark(c: char) -> (r: bool)
    ensures
        r == combining_mark(c),
{
    unicode_normalization::char::is_combining_mark(c)
}

/// Calls `convert_case::Casing::to_case` with `Case::Lower`. Trusted: the
/// text is the named one.
#[verifier::external_body]
pub(crate) fn to_lower_case(text: &str) -> (words: String)
    ensures
        words@ == lower_cased_words(text@),
{
    convert_case::Casing::to_case(&text, convert_case::Case::Lower)
}

/// Compiles the pattern `\p{Emoji}` with `regex::Regex::new` and calls
/// `Regex::is_match` on the text. Trusted: the pattern compiles, and the
/// answer is the named one.
#[verifier::external_body]
pub(crate) fn contains_emoji_character(text: &str) -> (r: bool)
    ensures
        r == has_emoji_character(text@),
{
    match regex::Regex::new("\\p{Emoji}") {
        Ok(pattern) => pattern.is_match(text),
        Err(_) => false,
    }
}

/// Calls `unicode_segmentation::UnicodeSegmentation::graphemes` for extended
/// clusters and copies each. Trusted: the clusters are the named ones.
#[verifier::external_body]
pub(crate) fn graphemes(text: &str) -> (clusters: Vec<String>)
    ensures
        clusters@.len() == extended_graphemes(text@).len(),
        forall|i: int| 0 <= i < clusters@.len() ==> (#[trigger] clusters@[i])@ == extended_graphemes(text@)[i],
{
    let mut clusters = Vec::new();
    for cluster in unicode_segmentation::UnicodeSegmentation::graphemes(text, true) {
        clusters.push(cluster.to_string());
    }
    clusters
}

/// Calls `emojis::get` and tells whether it found an emoji. Trusted: the
/// answer is the named one.
#[verifier::external_body]
pub(crate) fn is_known_emoji(text: &str) -> (r: bool)
    ensures
        r == known_emoji(text@),
{
    emojis::get(text).is_some()
}

/// Calls `pagefind_stem::Stemmer::stem` and copies the stem. Trusted: the
/// stem is the named one, a function of the stemmer and the word alone.
#[verifier::external_body]
pub(crate) fn stem(stemmer: &pagefind_stem::Stemmer, word: &str) -> (stemmed: String)
    ensures
        stemmed@ == stem_of(*stemmer, word@),
{
    stemmer.stem(word).into_owned()
}

} // verus!
