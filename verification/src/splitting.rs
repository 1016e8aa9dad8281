//! From a raw word to the entries under which it is indexed.

use vstd::prelude::*;
use vstd::utf8::is_ascii_chars;
use pagefind_stem::Stemmer;
use crate::text::{alphanumeric, canonical_decomposition, combining_mark, extended_graphemes};
use crate::text::{has_emoji_character, known_emoji, lower_cased_words, lowercase_of, stem_of};
use crate::text::{uppercase, whitespace};
use crate::text::{contains_emoji_character, decompose, graphemes, is_alphanumeric};
use crate::text::{is_combining_mark, is_known_emoji, is_uppercase, is_whitespace, stem, string_of};
use crate::text::{to_lower_case, to_lowercase};

verus! {

/// One entry under which a raw word is indexed.
#[derive(Debug, Clone, PartialEq)]
pub struct IndexableWord {
    /// The form that is indexed and matched.
    pub stemmed: String,
    /// Whether this is a part of a compound rather than the whole word.
    pub is_compound_part: bool,
    /// The form before its diacritics were stripped, where stripping changed it.
    pub original: Option<String>,
}

/// Mathematical value of an [`IndexableWord`].
pub struct IndexableWordModel {
    pub stemmed: Seq<char>,
    pub is_compound_part: bool,
    pub original: Option<Seq<char>>,
}

impl View for IndexableWord {
    type V = IndexableWordModel;

    open spec fn view(&self) -> IndexableWordModel {
        IndexableWordModel {
            stemmed: self.stemmed@,
            is_compound_part: self.is_compound_part,
            original: match self.original {
                Some(text) => Some(text@),
                None => None,
            },
        }
    }
}

/// The values of a list of entries, in order.
pub open spec fn word_models(words: Seq<IndexableWord>) -> Seq<IndexableWordModel> {
    words.map_values(|w: IndexableWord| w@)
}

/// The values of a list of texts, in order.
pub open spec fn text_models(texts: Seq<String>) -> Seq<Seq<char>> {
    texts.map_values(|t: String| t@)
}

/// `c` with `A` to `Z` lowered, any other character unchanged.
pub open spec fn ascii_lowered(c: char) -> char {
    if 'A' <= c <= 'Z' {
        ((c as u8 + 32) as u8) as char
    } else {
        c
    }
}

/// The lowercase form of `c` under Unicode's full case mapping, which may be
/// several characters. Among ASCII characters it lowers `A` to `Z`.
pub open spec fn lowered(c: char) -> Seq<char> {
    if c <= '\u{7f}' {
        seq![ascii_lowered(c)]
    } else {
        lowercase_of(c)
    }
}

/// What one character of a raw word contributes to the normalized word:
/// nothing unless it is alphanumeric or among `kept_extra`, else its
/// lowercase form.
pub open spec fn normalized_char(c: char, kept_extra: Seq<char>) -> Seq<char> {
    if alphanumeric(c) || kept_extra.contains(c) {
        lowered(c)
    } else {
        Seq::empty()
    }
}

/// The normalized word: the contributions of the raw word's characters, in order.
pub open spec fn normalized(raw: Seq<char>, kept_extra: Seq<char>) -> Seq<char>
    decreases raw.len(),
{
    if raw.len() == 0 {
        Seq::empty()
    } else {
        normalized(raw.drop_last(), kept_extra) + normalized_char(raw.last(), kept_extra)
    }
}

/// `text` without its combining marks.
pub open spec fn without_marks(text: Seq<char>) -> Seq<char>
    decreases text.len(),
{
    if text.len() == 0 {
        Seq::empty()
    } else if combining_mark(text.last()) {
        without_marks(text.drop_last())
    } else {
        without_marks(text.drop_last()).push(text.last())
    }
}

/// `word` canonically decomposed and freed of combining marks.
pub open spec fn stripped(word: Seq<char>) -> Seq<char> {
    without_marks(canonical_decomposition(word))
}

/// The diacritic-free form of `word`, where there is one that differs:
/// none for an ASCII word, none where stripping changes nothing.
pub open spec fn diacritics_normalized(word: Seq<char>) -> Option<Seq<char>> {
    if is_ascii_chars(word) || stripped(word) == word {
        None
    } else {
        Some(stripped(word))
    }
}

/// Whether `c` is ASCII punctuation.
pub open spec fn ascii_punctuation(c: char) -> bool {
    ('!' <= c <= '/') || (':' <= c <= '@') || ('[' <= c <= '`') || ('{' <= c <= '~')
}

/// `raw` with each ASCII punctuation character replaced by a space.
pub open spec fn spaced(raw: Seq<char>) -> Seq<char> {
    raw.map_values(|c: char| if ascii_punctuation(c) { ' ' } else { c })
}

/// The discrete words of `raw`: lowercase words separated by single spaces.
pub open spec fn discrete_text(raw: Seq<char>) -> Seq<char> {
    lower_cased_words(spaced(raw))
}

/// Those of `clusters` that are emoji, in order.
pub open spec fn emoji_among(clusters: Seq<Seq<char>>) -> Seq<Seq<char>>
    decreases clusters.len(),
{
    if clusters.len() == 0 {
        Seq::empty()
    } else if known_emoji(clusters.last()) {
        emoji_among(clusters.drop_last()).push(clusters.last())
    } else {
        emoji_among(clusters.drop_last())
    }
}

/// The emoji of `raw`, in order, where it has any.
pub open spec fn discrete_emoji(raw: Seq<char>) -> Option<Seq<Seq<char>>> {
    if has_emoji_character(raw) && emoji_among(extended_graphemes(raw)).len() > 0 {
        Some(emoji_among(extended_graphemes(raw)))
    } else {
        None
    }
}

/// Whether a raw word may be a compound: it holds a character that is not
/// alphanumeric, or an uppercase character behind its first.
pub open spec fn possibly_compound(raw: Seq<char>) -> bool {
    (exists|i: int| 0 <= i < raw.len() && !alphanumeric(#[trigger] raw[i]))
        || (exists|i: int| 1 <= i < raw.len() && uppercase(#[trigger] raw[i]))
}

/// Whether `text` holds white space.
pub open spec fn has_whitespace(text: Seq<char>) -> bool {
    exists|i: int| 0 <= i < text.len() && whitespace(#[trigger] text[i])
}

/// The state of cutting a text at white space: the parts closed so far and
/// the part that is open.
pub open spec fn cut_state(text: Seq<char>) -> (Seq<Seq<char>>, Seq<char>)
    decreases text.len(),
{
    if text.len() == 0 {
        (Seq::empty(), Seq::empty())
    } else {
        let before = cut_state(text.drop_last());
        if !whitespace(text.last()) {
            (before.0, before.1.push(text.last()))
        } else if before.1.len() > 0 {
            (before.0.push(before.1), Seq::empty())
        } else {
            before
        }
    }
}

/// The maximal runs of `text` without white space, in order.
pub open spec fn whitespace_parts(text: Seq<char>) -> Seq<Seq<char>> {
    let state = cut_state(text);
    if state.1.len() > 0 {
        state.0.push(state.1)
    } else {
        state.0
    }
}

/// The entry for `text`: its diacritic-free form where there is one, stemmed
/// where a stemmer is given; the text itself is kept as the original where
/// stripping changed it.
pub open spec fn entry_for(text: Seq<char>, stemmer: Option<&Stemmer>, is_compound_part: bool) -> IndexableWordModel {
    let folded = diacritics_normalized(text);
    let base = match folded {
        Some(plain) => plain,
        None => text,
    };
    IndexableWordModel {
        stemmed: match stemmer {
            Some(s) => stem_of(*s, base),
            None => base,
        },
        is_compound_part,
        original: match folded {
            Some(_) => Some(text),
            None => None,
        },
    }
}

/// The entries for the parts of a compound: one for each part of more than
/// one character, in order.
pub open spec fn part_entries(parts: Seq<Seq<char>>, stemmer: Option<&Stemmer>) -> Seq<IndexableWordModel>
    decreases parts.len(),
{
    if parts.len() == 0 {
        Seq::empty()
    } else if parts.last().len() > 1 {
        part_entries(parts.drop_last(), stemmer).push(entry_for(parts.last(), stemmer, true))
    } else {
        part_entries(parts.drop_last(), stemmer)
    }
}

/// The entry for one emoji.
pub open spec fn emoji_entry(emoji: Seq<char>) -> IndexableWordModel {
    IndexableWordModel { stemmed: emoji, is_compound_part: false, original: None }
}

/// The entries for the emoji of a word, in order.
pub open spec fn emoji_entries(emoji: Option<Seq<Seq<char>>>) -> Seq<IndexableWordModel> {
    match emoji {
        Some(list) => list.map_values(|e: Seq<char>| emoji_entry(e)),
        None => Seq::empty(),
    }
}

/// Whether cutting found nothing that normalizing had not: there is a
/// normalized word, and the discrete words are that one word.
pub open spec fn cutting_adds_nothing(normalized_word: Seq<char>, discrete: Seq<char>) -> bool {
    normalized_word.len() > 0 && discrete == normalized_word && !has_whitespace(discrete)
}

/// The whole-word entry, if the normalized word is not empty.
pub open spec fn whole_entries(normalized_word: Seq<char>, stemmer: Option<&Stemmer>) -> Seq<IndexableWordModel> {
    if normalized_word.len() > 0 {
        seq![entry_for(normalized_word, stemmer, false)]
    } else {
        Seq::empty()
    }
}

/// The entries of a possibly compound word behind its whole-word entry:
/// its parts, unless cutting adds nothing, then its emoji.
pub open spec fn compound_entries(
    normalized_word: Seq<char>,
    discrete: Seq<char>,
    emoji: Option<Seq<Seq<char>>>,
    stemmer: Option<&Stemmer>,
) -> Seq<IndexableWordModel> {
    if cutting_adds_nothing(normalized_word, discrete) {
        emoji_entries(emoji)
    } else {
        part_entries(whitespace_parts(discrete), stemmer) + emoji_entries(emoji)
    }
}

/// All entries under which `raw` is indexed: the whole word first, then the
/// parts of a compound from left to right, then its emoji from left to right.
pub open spec fn indexable_words(raw: Seq<char>, stemmer: Option<&Stemmer>, kept_extra: Seq<char>) -> Seq<IndexableWordModel> {
    let normalized_word = normalized(raw, kept_extra);
    if possibly_compound(raw) {
        whole_entries(normalized_word, stemmer) + compound_entries(
            normalized_word,
            discrete_text(raw),
            discrete_emoji(raw),
            stemmer,
        )
    } else {
        whole_entries(normalized_word, stemmer)
    }
}

/// The characters of a text.
fn chars_of(text: &str) -> (chars: Vec<char>)
    ensures
        chars@ == text@,
{
    broadcast use vstd::string::axiom_spec_iter;
    let mut chars: Vec<char> = Vec::new();
    for c in iter: text.chars()
        invariant
            iter.seq() == text@,
            chars@ == iter.seq().take(iter.index() as int),
    {
        chars.push(c);
        assert(chars@ =~= iter.seq().take(iter.index() + 1));
    }
    assert(chars@ =~= text@);
    chars
}

/// Lowers `A` to `Z`.
fn lower_ascii(c: char) -> (lowered: char)
    ensures
        lowered == ascii_lowered(c),
{
    if 'A' <= c && c <= 'Z' {
        let code: u8 = c as u8;
        (code + 32) as char
    } else {
        c
    }
}

/// Tells whether `c` is ASCII punctuation.
fn is_ascii_punctuation(c: char) -> (r: bool)
    ensures
        r == ascii_punctuation(c),
{
    ('!' <= c && c <= '/') || (':' <= c && c <= '@') || ('[' <= c && c <= '`') || ('{' <= c && c <= '~')
}

/// Tells whether `c` is among `characters`.
fn is_among(c: char, characters: &[char]) -> (r: bool)
    ensures
        r == characters@.contains(c),
{
    let mut i: usize = 0;
    while i < characters.len()
        invariant
            i <= characters.len(),
            forall|j: int| 0 <= j < i ==> characters@[j] != c,
        decreases characters.len() - i,
    {
        if characters[i] == c {
            return true;
        }
        i += 1;
    }
    false
}

/// Lowercases a raw word and keeps of it what is alphanumeric or among
/// `include_characters`.
pub fn normalize(raw_word: &str, include_characters: &[char]) -> (word: String)
    ensures
        word@ == normalized(raw_word@, include_characters@),
{
    let raw = chars_of(raw_word);
    let mut kept: Vec<char> = Vec::new();
    let mut i: usize = 0;
    assert(raw@.take(0) =~= Seq::empty());
    while i < raw.len()
        invariant
            i <= raw.len(),
            kept@ == normalized(raw@.take(i as int), include_characters@),
        decreases raw.len() - i,
    {
        let c: char = raw[i];
        assert(raw@.take(i + 1).drop_last() =~= raw@.take(i as int));
        let ghost before = kept@;
        if is_alphanumeric(c) || is_among(c, include_characters) {
            if c <= '\u{7f}' {
                kept.push(lower_ascii(c));
                assert(kept@ =~= before + seq![ascii_lowered(c)]);
            } else {
                let mut expansion = to_lowercase(c);
                kept.append(&mut expansion);
            }
        } else {
            assert(kept@ =~= before + Seq::<char>::empty());
        }
        i += 1;
    }
    assert(raw@.take(i as int) =~= raw@);
    string_of(&kept)
}

/// Strips the diacritics of `word`, where it has any.
pub fn normalize_diacritics(word: &str) -> (plain: Option<String>)
    ensures
        match plain {
            Some(text) => diacritics_normalized(word@) == Some(text@),
            None => diacritics_normalized(word@) is None,
        },
{
    if word.is_ascii() {
        return None;
    }
    let decomposed = decompose(word);
    let mut kept: Vec<char> = Vec::new();
    let mut i: usize = 0;
    assert(decomposed@.take(0) =~= Seq::empty());
    while i < decomposed.len()
        invariant
            i <= decomposed.len(),
            kept@ == without_marks(decomposed@.take(i as int)),
        decreases decomposed.len() - i,
    {
        let c: char = decomposed[i];
        assert(decomposed@.take(i + 1).drop_last() =~= decomposed@.take(i as int));
        if !is_combining_mark(c) {
            kept.push(c);
        }
        i += 1;
    }
    assert(decomposed@.take(i as int) =~= decomposed@);
    let text = string_of(&kept);
    let same = text == word.to_owned();
    if same {
        None
    } else {
        Some(text)
    }
}

/// Cuts a raw word into its discrete lowercase words, separated by single
/// spaces, and collects its emoji.
pub fn get_discrete_words(raw_word: &str) -> (r: (String, Option<Vec<String>>))
    ensures
        r.0@ == discrete_text(raw_word@),
        match r.1 {
            Some(emoji) => discrete_emoji(raw_word@) == Some(text_models(emoji@)),
            None => discrete_emoji(raw_word@) is None,
        },
{
    let raw = chars_of(raw_word);
    let mut replaced: Vec<char> = Vec::new();
    let mut i: usize = 0;
    while i < raw.len()
        invariant
            i <= raw.len(),
            replaced@ == spaced(raw@).take(i as int),
        decreases raw.len() - i,
    {
        let c: char = raw[i];
        if is_ascii_punctuation(c) {
            replaced.push(' ');
        } else {
            replaced.push(c);
        }
        assert(replaced@ =~= spaced(raw@).take(i + 1));
        i += 1;
    }
    assert(replaced@ =~= spaced(raw@));
    let words = to_lower_case(string_of(&replaced).as_str());

    if !contains_emoji_character(raw_word) {
        return (words, None);
    }
    let clusters = graphemes(raw_word);
    let ghost all = extended_graphemes(raw_word@);
    let mut emoji: Vec<String> = Vec::new();
    let mut k: usize = 0;
    assert(all.take(0) =~= Seq::empty());
    assert(text_models(emoji@) =~= Seq::empty());
    while k < clusters.len()
        invariant
            k <= clusters.len(),
            clusters@.len() == all.len(),
            forall|j: int| 0 <= j < clusters@.len() ==> (#[trigger] clusters@[j])@ == all[j],
            text_models(emoji@) == emoji_among(all.take(k as int)),
        decreases clusters.len() - k,
    {
        assert(all.take(k + 1).drop_last() =~= all.take(k as int));
        if is_known_emoji(clusters[k].as_str()) {
            let cluster: String = clusters[k].clone();
            assert(text_models(emoji@.push(cluster)) =~= text_models(emoji@).push(cluster@));
            emoji.push(cluster);
        }
        k += 1;
    }
    assert(all.take(k as int) =~= all);
    if emoji.len() > 0 {
        (words, Some(emoji))
    } else {
        (words, None)
    }
}

/// The values of a list of character lists, in order.
pub open spec fn part_models(parts: Seq<Vec<char>>) -> Seq<Seq<char>> {
    parts.map_values(|p: Vec<char>| p@)
}

/// Tells whether a raw word may be a compound.
fn is_possibly_compound(raw: &Vec<char>) -> (r: bool)
    ensures
        r == possibly_compound(raw@),
{
    let mut i: usize = 0;
    while i < raw.len()
        invariant
            i <= raw.len(),
            forall|j: int| 0 <= j < i ==> alphanumeric(#[trigger] raw@[j]),
            forall|j: int| 1 <= j < i ==> !uppercase(#[trigger] raw@[j]),
        decreases raw.len() - i,
    {
        let c: char = raw[i];
        if !is_alphanumeric(c) {
            return true;
        }
        if i >= 1 && is_uppercase(c) {
            return true;
        }
        i += 1;
    }
    false
}

/// Tells whether a text holds white space.
fn contains_whitespace(text: &Vec<char>) -> (r: bool)
    ensures
        r == has_whitespace(text@),
{
    let mut i: usize = 0;
    while i < text.len()
        invariant
            i <= text.len(),
            forall|j: int| 0 <= j < i ==> !whitespace(#[trigger] text@[j]),
        decreases text.len() - i,
    {
        if is_whitespace(text[i]) {
            return true;
        }
        i += 1;
    }
    false
}

/// Cuts a text at its white space.
fn split_at_whitespace(text: &Vec<char>) -> (parts: Vec<Vec<char>>)
    ensures
        part_models(parts@) == whitespace_parts(text@),
{
    let mut closed: Vec<Vec<char>> = Vec::new();
    let mut open: Vec<char> = Vec::new();
    let mut i: usize = 0;
    assert(text@.take(0) =~= Seq::empty());
    assert(part_models(closed@) =~= Seq::empty());
    while i < text.len()
        invariant
            i <= text.len(),
            (part_models(closed@), open@) == cut_state(text@.take(i as int)),
        decreases text.len() - i,
    {
        let c: char = text[i];
        assert(text@.take(i + 1).drop_last() =~= text@.take(i as int));
        if !is_whitespace(c) {
            open.push(c);
        } else if open.len() > 0 {
            assert(part_models(closed@.push(open)) =~= part_models(closed@).push(open@));
            closed.push(open);
            open = Vec::new();
        }
        i += 1;
    }
    assert(text@.take(i as int) =~= text@);
    if open.len() > 0 {
        assert(part_models(closed@.push(open)) =~= part_models(closed@).push(open@));
        closed.push(open);
    }
    closed
}

/// Builds the entry for one text.
fn entry_of(text: String, stemmer: Option<&Stemmer>, is_compound_part: bool) -> (entry: IndexableWord)
    ensures
        entry@ == entry_for(text@, stemmer, is_compound_part),
{
    match normalize_diacritics(text.as_str()) {
        Some(plain) => {
            let stemmed = match stemmer {
                Some(s) => stem(s, plain.as_str()),
                None => plain,
            };
            IndexableWord { stemmed, is_compound_part, original: Some(text) }
        },
        None => {
            let stemmed = match stemmer {
                Some(s) => stem(s, text.as_str()),
                None => text,
            };
            IndexableWord { stemmed, is_compound_part, original: None }
        },
    }
}

/// Builds the entries that follow the whole-word entry of a possibly
/// compound word, given its normalized form, its discrete words and its
/// emoji: the parts of more than one character, unless the discrete words
/// are just the normalized word, then the emoji.
pub fn get_compound_words(
    normalized_word: &str,
    discrete_words: &str,
    emoji: Option<Vec<String>>,
    stemmer: Option<&Stemmer>,
) -> (words: Vec<IndexableWord>)
    ensures
        word_models(words@) == compound_entries(
            normalized_word@,
            discrete_words@,
            match emoji {
                Some(list) => Some(text_models(list@)),
                None => None,
            },
            stemmer,
        ),
{
    let mut results: Vec<IndexableWord> = Vec::new();
    assert(word_models(results@) =~= Seq::empty());
    let discrete = chars_of(discrete_words);
    let same = normalized_word.to_owned() == discrete_words.to_owned();
    let nothing_added = !normalized_word.is_empty() && same && !contains_whitespace(&discrete);
    if !nothing_added {
        let parts = split_at_whitespace(&discrete);
        let ghost all = part_models(parts@);
        let mut k: usize = 0;
        assert(all.take(0) =~= Seq::empty());
        while k < parts.len()
            invariant
                k <= parts.len(),
                all == part_models(parts@),
                word_models(results@) == part_entries(all.take(k as int), stemmer),
            decreases parts.len() - k,
        {
            assert(all.take(k + 1).drop_last() =~= all.take(k as int));
            assert(all[k as int] == parts@[k as int]@);
            if parts[k].len() > 1 {
                let entry = entry_of(string_of(&parts[k]), stemmer, true);
                assert(word_models(results@.push(entry)) =~= word_models(results@).push(entry@));
                results.push(entry);
            }
            k += 1;
        }
        assert(all.take(k as int) =~= all);
    }
    let ghost parts_done = word_models(results@);
    match emoji {
        Some(list) => {
            let ghost models = text_models(list@);
            let mut k: usize = 0;
            while k < list.len()
                invariant
                    k <= list.len(),
                    models == text_models(list@),
                    word_models(results@) == parts_done + emoji_entries(Some(models)).take(k as int),
                decreases list.len() - k,
            {
                let entry = IndexableWord { stemmed: list[k].clone(), is_compound_part: false, original: None };
                assert(entry@ == emoji_entry(models[k as int]));
                assert(word_models(results@.push(entry)) =~= word_models(results@).push(entry@));
                assert(word_models(results@).push(entry@) =~= parts_done + emoji_entries(Some(models)).take(k + 1));
                results.push(entry);
                k += 1;
            }
            assert(emoji_entries(Some(models)).take(k as int) =~= emoji_entries(Some(models)));
        },
        None => {
            assert(word_models(results@) =~= parts_done + Seq::empty());
        },
    }
    results
}

/// Returns all entries under which a raw word is indexed: the normalized
/// and stemmed word, the parts of a compound (hyphenated, camelCase and the
/// like), and its emoji. Without a stemmer, words are indexed unstemmed.
pub fn get_indexable_words(raw_word: &str, stemmer: Option<&Stemmer>, include_characters: &[char]) -> (words: Vec<IndexableWord>)
    ensures
        word_models(words@) == indexable_words(raw_word@, stemmer, include_characters@),
{
    let mut results: Vec<IndexableWord> = Vec::new();
    assert(word_models(results@) =~= Seq::empty());
    let normalized_word = normalize(raw_word, include_characters);
    if !normalized_word.as_str().is_empty() {
        let entry = entry_of(normalized_word.clone(), stemmer, false);
        assert(word_models(results@.push(entry)) =~= seq![entry@]);
        results.push(entry);
    }
    let raw = chars_of(raw_word);
    if !is_possibly_compound(&raw) {
        return results;
    }
    let (discrete_words, emoji) = get_discrete_words(raw_word);
    let mut rest = get_compound_words(normalized_word.as_str(), discrete_words.as_str(), emoji, stemmer);
    assert(word_models(results@ + rest@) =~= word_models(results@) + word_models(rest@));
    results.append(&mut rest);
    results
}

/// Whether every character of `raw` is an ASCII letter.
pub open spec fn ascii_alphabetic(raw: Seq<char>) -> bool {
    forall|i: int| 0 <= i < raw.len() ==> ('a' <= #[trigger] raw[i] <= 'z' || 'A' <= raw[i] <= 'Z')
}

/// Whether no character of `raw` behind the first is an ASCII capital.
pub open spec fn no_inner_capital(raw: Seq<char>) -> bool {
    forall|i: int| 1 <= i < raw.len() ==> !('A' <= #[trigger] raw[i] <= 'Z')
}

/// Normalizing a word of ASCII letters keeps its length and stays in ASCII.
proof fn lemma_normalized_letters(raw: Seq<char>, kept_extra: Seq<char>)
    requires
        ascii_alphabetic(raw),
    ensures
        normalized(raw, kept_extra).len() == raw.len(),
        is_ascii_chars(normalized(raw, kept_extra)),
    decreases raw.len(),
{
    if raw.len() > 0 {
        let front = raw.drop_last();
        let c = raw.last();
        assert forall|i: int| 0 <= i < front.len() implies ('a' <= #[trigger] front[i] <= 'z' || 'A' <= front[i] <= 'Z') by {
            assert(front[i] == raw[i]);
        }
        lemma_normalized_letters(front, kept_extra);
        assert('a' <= raw[raw.len() - 1] <= 'z' || 'A' <= raw[raw.len() - 1] <= 'Z');
        assert('a' <= ascii_lowered(c) <= 'z');
        assert(normalized_char(c, kept_extra) == seq![ascii_lowered(c)]);
        let whole = normalized(raw, kept_extra);
        assert(whole == normalized(front, kept_extra) + seq![ascii_lowered(c)]);
        assert forall|i: int| 0 <= i < whole.len() implies '\0' <= #[trigger] whole[i] <= '\u{7f}' by {
            if i < front.len() {
                assert(whole[i] == normalized(front, kept_extra)[i]);
            }
        }
    }
}

/// A non-empty word of ASCII letters with no capital behind its first
/// letter is indexed under exactly one entry: the whole word, not a compound
/// part, with no original form kept.
pub proof fn lemma_plain_word_has_one_entry(raw: Seq<char>, stemmer: Option<&Stemmer>, kept_extra: Seq<char>)
    requires
        raw.len() > 0,
        ascii_alphabetic(raw),
        no_inner_capital(raw),
    ensures
        indexable_words(raw, stemmer, kept_extra).len() == 1,
        !indexable_words(raw, stemmer, kept_extra)[0].is_compound_part,
        indexable_words(raw, stemmer, kept_extra)[0].original is None,
{
    lemma_normalized_letters(raw, kept_extra);
    assert forall|i: int| 0 <= i < raw.len() implies alphanumeric(#[trigger] raw[i]) by {
        assert('a' <= raw[i] <= 'z' || 'A' <= raw[i] <= 'Z');
    }
    assert forall|i: int| 1 <= i < raw.len() implies !uppercase(#[trigger] raw[i]) by {
        assert('a' <= raw[i] <= 'z' || 'A' <= raw[i] <= 'Z');
        assert(!('A' <= raw[i] <= 'Z'));
    }
    assert(!possibly_compound(raw));
}

/// Removing combining marks leaves none behind.
proof fn lemma_without_marks_has_none(text: Seq<char>)
    ensures
        forall|i: int| 0 <= i < without_marks(text).len() ==> !combining_mark(#[trigger] without_marks(text)[i]),
    decreases text.len(),
{
    if text.len() > 0 {
        let front = without_marks(text.drop_last());
        lemma_without_marks_has_none(text.drop_last());
        let kept = without_marks(text);
        assert forall|i: int| 0 <= i < kept.len() implies !combining_mark(#[trigger] kept[i]) by {
            if i < front.len() {
                assert(kept[i] == front[i]);
            }
        }
    }
}

/// A text without combining marks is what removing them leaves of it.
proof fn lemma_without_marks_keeps_plain(text: Seq<char>)
    requires
        forall|i: int| 0 <= i < text.len() ==> !combining_mark(#[trigger] text[i]),
    ensures
        without_marks(text) == text,
    decreases text.len(),
{
    if text.len() > 0 {
        let front = text.drop_last();
        assert forall|i: int| 0 <= i < front.len() implies !combining_mark(#[trigger] front[i]) by {
            assert(front[i] == text[i]);
        }
        lemma_without_marks_keeps_plain(front);
        assert(!combining_mark(text[text.len() - 1]));
        assert(front.push(text.last()) =~= text);
    } else {
        assert(text =~= Seq::empty());
    }
}

/// Stripping settles: a diacritic-free form that canonical decomposition
/// leaves as it is has no further diacritic-free form of its own.
pub proof fn lemma_stripped_form_is_final(word: Seq<char>)
    requires
        diacritics_normalized(word) is Some,
        canonical_decomposition(diacritics_normalized(word).unwrap()) == diacritics_normalized(word).unwrap(),
    ensures
        diacritics_normalized(diacritics_normalized(word).unwrap()) is None,
{
    let plain = stripped(word);
    lemma_without_marks_has_none(canonical_decomposition(word));
    lemma_without_marks_keeps_plain(plain);
}

/// A diacritic-free form differs from the word it was made from, and an
/// ASCII word has none.
pub proof fn lemma_stripping_changes_or_declines(word: Seq<char>)
    ensures
        is_ascii_chars(word) ==> diacritics_normalized(word) is None,
        diacritics_normalized(word) is Some ==> diacritics_normalized(word).unwrap() != word,
{
}

/// Every entry made for a compound's parts is marked as a compound part.
proof fn lemma_part_entries_are_parts(parts: Seq<Seq<char>>, stemmer: Option<&Stemmer>)
    ensures
        part_entries(parts, stemmer).len() <= parts.len(),
        forall|i: int| 0 <= i < part_entries(parts, stemmer).len() ==> (#[trigger] part_entries(parts, stemmer)[i]).is_compound_part,
    decreases parts.len(),
{
    if parts.len() > 0 {
        lemma_part_entries_are_parts(parts.drop_last(), stemmer);
    }
}

/// The entries of a word come in three runs: at most one whole-word entry,
/// which is no compound part; then the compound parts, each marked as one;
/// then the emoji, each indexed as it is, unmarked and without an original.
pub proof fn lemma_entries_come_in_order(raw: Seq<char>, stemmer: Option<&Stemmer>, kept_extra: Seq<char>) -> (runs: (int, int))
    ensures
        0 <= runs.0 <= 1,
        runs.0 <= runs.1 <= indexable_words(raw, stemmer, kept_extra).len(),
        runs.0 == 1 <==> normalized(raw, kept_extra).len() > 0,
        forall|i: int| 0 <= i < runs.0 ==> indexable_words(raw, stemmer, kept_extra)[i] == entry_for(normalized(raw, kept_extra), stemmer, false),
        forall|i: int| runs.0 <= i < runs.1 ==> (#[trigger] indexable_words(raw, stemmer, kept_extra)[i]).is_compound_part,
        forall|i: int| runs.1 <= i < indexable_words(raw, stemmer, kept_extra).len() ==> {
            &&& !(#[trigger] indexable_words(raw, stemmer, kept_extra)[i]).is_compound_part
            &&& indexable_words(raw, stemmer, kept_extra)[i].original is None
            &&& discrete_emoji(raw) is Some
            &&& indexable_words(raw, stemmer, kept_extra)[i].stemmed == discrete_emoji(raw).unwrap()[i - runs.1]
        },
{
    let word = normalized(raw, kept_extra);
    let whole = whole_entries(word, stemmer);
    if possibly_compound(raw) {
        let discrete = discrete_text(raw);
        let parts = if cutting_adds_nothing(word, discrete) {
            Seq::<IndexableWordModel>::empty()
        } else {
            part_entries(whitespace_parts(discrete), stemmer)
        };
        lemma_part_entries_are_parts(whitespace_parts(discrete), stemmer);
        let extras = emoji_entries(discrete_emoji(raw));
        assert(compound_entries(word, discrete, discrete_emoji(raw), stemmer) =~= parts + extras);
        assert(indexable_words(raw, stemmer, kept_extra) =~= whole + (parts + extras));
        (whole.len() as int, (whole.len() + parts.len()) as int)
    } else {
        (whole.len() as int, whole.len() as int)
    }
}

} // verus!
