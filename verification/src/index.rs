//! The decoded word index and the decoder of its binary chunks.

use vstd::prelude::*;
use crate::cbor::{DecodeError, DecodeFault, definite_array_at, number_at, signed_at, string_at};
use crate::cbor::{read_definite_array, read_number, read_signed, read_string};

verus! {

/// The weight that applies to a page's locations until a marker changes it.
pub const DEFAULT_WEIGHT: u8 = 25;

/// The occurrences of a word on one page.
#[derive(Debug, Clone, PartialEq, Eq)]
pub struct PageWord {
    /// Absolute page number.
    pub page: u32,
    /// `(weight, position)` of each occurrence, in stream order.
    pub locs: Vec<(u8, u32)>,
}

/// An alternate textual form of a word, with its own pages.
#[derive(Debug, Clone, PartialEq, Eq)]
pub struct WordVariant {
    pub form: String,
    pub pages: Vec<PageWord>,
}

/// Everything the index holds for one word.
#[derive(Debug, Clone, PartialEq, Eq)]
pub struct WordData {
    pub pages: Vec<PageWord>,
    pub additional_variants: Vec<WordVariant>,
}

/// Mathematical value of a [`PageWord`].
pub struct PageWordModel {
    pub page: u32,
    pub locs: Seq<(u8, u32)>,
}

/// Mathematical value of a [`WordVariant`].
pub struct WordVariantModel {
    pub form: Seq<char>,
    pub pages: Seq<PageWordModel>,
}

/// Mathematical value of a [`WordData`].
pub struct WordDataModel {
    pub pages: Seq<PageWordModel>,
    pub additional_variants: Seq<WordVariantModel>,
}

impl View for PageWord {
    type V = PageWordModel;

    open spec fn view(&self) -> PageWordModel {
        PageWordModel { page: self.page, locs: self.locs@ }
    }
}

/// The values of a list of pages, in order.
pub open spec fn page_models(pages: Seq<PageWord>) -> Seq<PageWordModel> {
    pages.map_values(|p: PageWord| p@)
}

impl View for WordVariant {
    type V = WordVariantModel;

    open spec fn view(&self) -> WordVariantModel {
        WordVariantModel { form: self.form@, pages: page_models(self.pages@) }
    }
}

/// The values of a list of variants, in order.
pub open spec fn variant_models(variants: Seq<WordVariant>) -> Seq<WordVariantModel> {
    variants.map_values(|v: WordVariant| v@)
}

impl View for WordData {
    type V = WordDataModel;

    open spec fn view(&self) -> WordDataModel {
        WordDataModel {
            pages: page_models(self.pages@),
            additional_variants: variant_models(self.additional_variants@),
        }
    }
}

/// The weight that a negative stream value `marker` switches to:
/// `-(marker + 1)`, capped at 255.
pub open spec fn marker_weight(marker: i32) -> u8 {
    if -(marker + 1) > 255 {
        255u8
    } else {
        (-(marker + 1)) as u8
    }
}

/// The locations that the stream `values` encodes from index `i` on, given
/// the weight and position reached so far and the locations already emitted.
/// A negative value switches the weight and resets the position to zero; any
/// other value advances the position and emits a location. A position beyond
/// `u32::MAX` cannot be taken: then there are no locations.
pub open spec fn locations_from(
    values: Seq<i32>,
    i: int,
    weight: u8,
    position: u32,
    acc: Seq<(u8, u32)>,
) -> Option<Seq<(u8, u32)>>
    decreases values.len() - i,
{
    if i < 0 || i >= values.len() {
        Some(acc)
    } else if values[i] < 0 {
        locations_from(values, i + 1, marker_weight(values[i]), 0, acc)
    } else if position + values[i] > u32::MAX {
        None
    } else {
        let reached = (position + values[i]) as u32;
        locations_from(values, i + 1, weight, reached, acc.push((weight, reached)))
    }
}

/// The locations that a page's whole stream encodes.
pub open spec fn locations_of(values: Seq<i32>) -> Option<Seq<(u8, u32)>> {
    locations_from(values, 0, DEFAULT_WEIGHT, 0, Seq::empty())
}

/// `remaining` signed numbers read one behind the other from `pos`, appended
/// to `acc`, with the offset behind the last.
pub open spec fn ints_from(bytes: Seq<u8>, pos: usize, remaining: nat, acc: Seq<i32>) -> Result<(Seq<i32>, usize), DecodeError>
    decreases remaining,
{
    if remaining == 0 {
        Ok((acc, pos))
    } else {
        match signed_at(bytes, pos) {
            Ok((value, next)) => ints_from(bytes, next, (remaining - 1) as nat, acc.push(value)),
            Err(e) => Err(e),
        }
    }
}

/// One page entry at `pos`: an array of two, the page delta added to
/// `previous_page`, then the array of the location stream. An array of
/// another length is a fault of structure at `pos`; a page number beyond
/// `u32::MAX` is a fault of encoding at the delta, a position beyond it one
/// at the array of locations.
pub open spec fn page_entry_at(bytes: Seq<u8>, pos: usize, previous_page: u32) -> Result<(PageWordModel, usize), DecodeError> {
    match definite_array_at(bytes, pos) {
        Err(e) => Err(e),
        Ok((arity, at_delta)) => if arity != 2 {
            Err(DecodeError { kind: DecodeFault::Structure, offset: pos })
        } else {
            match number_at(bytes, at_delta) {
                Err(e) => Err(e),
                Ok((delta, at_locs)) => if previous_page + delta > u32::MAX {
                    Err(DecodeError { kind: DecodeFault::Encoding, offset: at_delta })
                } else {
                    match definite_array_at(bytes, at_locs) {
                        Err(e) => Err(e),
                        Ok((count, at_first)) => match ints_from(bytes, at_first, count as nat, Seq::empty()) {
                            Err(e) => Err(e),
                            Ok((values, end)) => match locations_of(values) {
                                None => Err(DecodeError { kind: DecodeFault::Encoding, offset: at_locs }),
                                Some(locs) => Ok((PageWordModel { page: (previous_page + delta) as u32, locs }, end)),
                            },
                        },
                    }
                },
            }
        },
    }
}

/// `remaining` page entries read one behind the other from `pos`, appended to
/// `acc`; each page number is the one before it plus the entry's delta.
pub open spec fn pages_from(
    bytes: Seq<u8>,
    pos: usize,
    remaining: nat,
    previous_page: u32,
    acc: Seq<PageWordModel>,
) -> Result<(Seq<PageWordModel>, usize), DecodeError>
    decreases remaining,
{
    if remaining == 0 {
        Ok((acc, pos))
    } else {
        match page_entry_at(bytes, pos, previous_page) {
            Ok((entry, next)) => pages_from(bytes, next, (remaining - 1) as nat, entry.page, acc.push(entry)),
            Err(e) => Err(e),
        }
    }
}

/// A whole pages block at `pos`: an array whose declared length is the number
/// of page entries, with page numbers counted up from zero.
pub open spec fn pages_at(bytes: Seq<u8>, pos: usize) -> Result<(Seq<PageWordModel>, usize), DecodeError> {
    match definite_array_at(bytes, pos) {
        Ok((count, first)) => pages_from(bytes, first, count as nat, 0, Seq::empty()),
        Err(e) => Err(e),
    }
}

/// Computes the weight that a marker switches to.
pub fn weight_of_marker(marker: i32) -> (weight: u8)
    requires
        marker < 0,
    ensures
        weight == marker_weight(marker),
{
    let magnitude: i32 = -(marker + 1);
    if magnitude > 255 {
        255
    } else {
        magnitude as u8
    }
}

/// Turns a page's decoded location stream into weighted absolute positions;
/// into nothing where a position would pass `u32::MAX`.
pub fn decode_locations(values: &Vec<i32>) -> (r: Option<Vec<(u8, u32)>>)
    ensures
        match r {
            Some(locs) => locations_of(values@) == Some(locs@),
            None => locations_of(values@) is None,
        },
{
    let mut locs: Vec<(u8, u32)> = Vec::new();
    let mut weight: u8 = DEFAULT_WEIGHT;
    let mut position: u32 = 0;
    let mut i: usize = 0;
    while i < values.len()
        invariant
            i <= values.len(),
            locations_of(values@) == locations_from(values@, i as int, weight, position, locs@),
        decreases values.len() - i,
    {
        let value: i32 = values[i];
        if value < 0 {
            weight = weight_of_marker(value);
            position = 0;
        } else {
            match position.checked_add(value as u32) {
                Some(reached) => {
                    position = reached;
                    locs.push((weight, position));
                },
                None => {
                    return None;
                },
            }
        }
        i += 1;
    }
    Some(locs)
}

/// Reads `count` signed numbers from `pos` on.
fn read_ints(bytes: &[u8], pos: usize, count: u64) -> (r: Result<(Vec<i32>, usize), DecodeError>)
    ensures
        match r {
            Ok((values, end)) => ints_from(bytes@, pos, count as nat, Seq::empty()) == Ok::<(Seq<i32>, usize), DecodeError>((values@, end)),
            Err(e) => ints_from(bytes@, pos, count as nat, Seq::empty()) == Err::<(Seq<i32>, usize), DecodeError>(e),
        },
{
    let mut values: Vec<i32> = Vec::new();
    let mut cursor: usize = pos;
    let mut i: u64 = 0;
    while i < count
        invariant
            i <= count,
            ints_from(bytes@, pos, count as nat, Seq::empty()) == ints_from(bytes@, cursor, (count - i) as nat, values@),
        decreases count - i,
    {
        match read_signed(bytes, cursor) {
            Ok((value, next)) => {
                values.push(value);
                cursor = next;
            },
            Err(e) => {
                return Err(e);
            },
        }
        i += 1;
    }
    Ok((values, cursor))
}

/// Reads one page entry at `pos`, whose delta counts from `previous_page`.
fn decode_page_entry(bytes: &[u8], pos: usize, previous_page: u32) -> (r: Result<(PageWord, usize), DecodeError>)
    ensures
        match r {
            Ok((page, end)) => page_entry_at(bytes@, pos, previous_page) == Ok::<(PageWordModel, usize), DecodeError>((page@, end)),
            Err(e) => page_entry_at(bytes@, pos, previous_page) == Err::<(PageWordModel, usize), DecodeError>(e),
        },
{
    let (arity, at_delta) = read_definite_array(bytes, pos)?;
    if arity != 2 {
        return Err(DecodeError { kind: DecodeFault::Structure, offset: pos });
    }
    let (delta, at_locs) = read_number(bytes, at_delta)?;
    let page: u32 = match previous_page.checked_add(delta) {
        Some(page) => page,
        None => {
            return Err(DecodeError { kind: DecodeFault::Encoding, offset: at_delta });
        },
    };
    let (count, at_first) = read_definite_array(bytes, at_locs)?;
    let (values, end) = read_ints(bytes, at_first, count)?;
    match decode_locations(&values) {
        Some(locs) => Ok((PageWord { page, locs }, end)),
        None => Err(DecodeError { kind: DecodeFault::Encoding, offset: at_locs }),
    }
}

/// One variant entry at `pos`: an array of two, the form's text, then its
/// pages block. An array of another length is a fault of structure at `pos`.
pub open spec fn variant_entry_at(bytes: Seq<u8>, pos: usize) -> Result<(WordVariantModel, usize), DecodeError> {
    match definite_array_at(bytes, pos) {
        Err(e) => Err(e),
        Ok((arity, at_form)) => if arity != 2 {
            Err(DecodeError { kind: DecodeFault::Structure, offset: pos })
        } else {
            match string_at(bytes, at_form) {
                Err(e) => Err(e),
                Ok((form, at_pages)) => match pages_at(bytes, at_pages) {
                    Err(e) => Err(e),
                    Ok((pages, end)) => Ok((WordVariantModel { form, pages }, end)),
                },
            }
        },
    }
}

/// `remaining` variant entries read one behind the other from `pos`,
/// appended to `acc`.
pub open spec fn variants_from(bytes: Seq<u8>, pos: usize, remaining: nat, acc: Seq<WordVariantModel>) -> Result<(Seq<WordVariantModel>, usize), DecodeError>
    decreases remaining,
{
    if remaining == 0 {
        Ok((acc, pos))
    } else {
        match variant_entry_at(bytes, pos) {
            Ok((entry, next)) => variants_from(bytes, next, (remaining - 1) as nat, acc.push(entry)),
            Err(e) => Err(e),
        }
    }
}

/// A whole variants block at `pos`: an array whose declared length is the
/// number of variant entries.
pub open spec fn variants_at(bytes: Seq<u8>, pos: usize) -> Result<(Seq<WordVariantModel>, usize), DecodeError> {
    match definite_array_at(bytes, pos) {
        Ok((count, first)) => variants_from(bytes, first, count as nat, Seq::empty()),
        Err(e) => Err(e),
    }
}

/// One word entry at `pos`: an array of at least two, the word's text, its
/// pages block and, where the array declares three or more, its variants
/// block. An entry that declares two has no variants; one that declares
/// fewer is a fault of structure at `pos`.
pub open spec fn word_entry_at(bytes: Seq<u8>, pos: usize) -> Result<(Seq<char>, WordDataModel, usize), DecodeError> {
    match definite_array_at(bytes, pos) {
        Err(e) => Err(e),
        Ok((arity, at_word)) => if arity < 2 {
            Err(DecodeError { kind: DecodeFault::Structure, offset: pos })
        } else {
            match string_at(bytes, at_word) {
                Err(e) => Err(e),
                Ok((word, at_pages)) => match pages_at(bytes, at_pages) {
                    Err(e) => Err(e),
                    Ok((pages, at_variants)) => if arity >= 3 {
                        match variants_at(bytes, at_variants) {
                            Err(e) => Err(e),
                            Ok((variants, end)) => Ok((word, WordDataModel { pages, additional_variants: variants }, end)),
                        }
                    } else {
                        Ok((word, WordDataModel { pages, additional_variants: Seq::empty() }, at_variants))
                    },
                },
            }
        },
    }
}

/// The word map after `remaining` word entries read from `pos` have been
/// inserted into `acc` one after the other, and the error that stopped the
/// reading, if one did. Entries read before the failing one stay inserted.
pub open spec fn words_from(
    bytes: Seq<u8>,
    pos: usize,
    remaining: nat,
    acc: Map<Seq<char>, WordDataModel>,
) -> (Map<Seq<char>, WordDataModel>, Option<DecodeError>)
    decreases remaining,
{
    if remaining == 0 {
        (acc, None)
    } else {
        match word_entry_at(bytes, pos) {
            Ok((word, data, next)) => words_from(bytes, next, (remaining - 1) as nat, acc.insert(word, data)),
            Err(e) => (acc, Some(e)),
        }
    }
}

/// What decoding the chunk `bytes` makes of the word map `initial`: an outer
/// array, in it the array of the word entries, each inserted in turn.
pub open spec fn chunk_words(bytes: Seq<u8>, initial: Map<Seq<char>, WordDataModel>) -> (Map<Seq<char>, WordDataModel>, Option<DecodeError>) {
    match definite_array_at(bytes, 0) {
        Err(e) => (initial, Some(e)),
        Ok((_, at_words)) => match definite_array_at(bytes, at_words) {
            Err(e) => (initial, Some(e)),
            Ok((count, first)) => words_from(bytes, first, count as nat, initial),
        },
    }
}

/// The map that a list of `(word, data)` entries stands for: each entry
/// inserted in turn, so that of two entries for one word the later one holds.
pub open spec fn words_map(entries: Seq<(String, WordData)>) -> Map<Seq<char>, WordDataModel>
    decreases entries.len(),
{
    if entries.len() == 0 {
        Map::empty()
    } else {
        words_map(entries.drop_last()).insert(entries.last().0@, entries.last().1@)
    }
}

/// The decoded index: what is known of each word.
pub struct SearchIndex {
    /// The entries in the order of their insertion. A later entry for a
    /// word replaces an earlier one.
    pub words: Vec<(String, WordData)>,
}

impl View for SearchIndex {
    type V = Map<Seq<char>, WordDataModel>;

    open spec fn view(&self) -> Map<Seq<char>, WordDataModel> {
        words_map(self.words@)
    }
}

/// Reads one variant entry at `pos`.
fn decode_variant_entry(bytes: &[u8], pos: usize) -> (r: Result<(WordVariant, usize), DecodeError>)
    ensures
        match r {
            Ok((variant, end)) => variant_entry_at(bytes@, pos) == Ok::<(WordVariantModel, usize), DecodeError>((variant@, end)),
            Err(e) => variant_entry_at(bytes@, pos) == Err::<(WordVariantModel, usize), DecodeError>(e),
        },
{
    let (arity, at_form) = read_definite_array(bytes, pos)?;
    if arity != 2 {
        return Err(DecodeError { kind: DecodeFault::Structure, offset: pos });
    }
    let (form, at_pages) = read_string(bytes, at_form)?;
    let (pages, end) = SearchIndex::decode_pages(bytes, at_pages)?;
    Ok((WordVariant { form, pages }, end))
}

/// Reads a variants block at `pos`.
fn decode_variants(bytes: &[u8], pos: usize) -> (r: Result<(Vec<WordVariant>, usize), DecodeError>)
    ensures
        match r {
            Ok((variants, end)) => variants_at(bytes@, pos) == Ok::<(Seq<WordVariantModel>, usize), DecodeError>((variant_models(variants@), end)),
            Err(e) => variants_at(bytes@, pos) == Err::<(Seq<WordVariantModel>, usize), DecodeError>(e),
        },
{
    let (count, first) = read_definite_array(bytes, pos)?;
    let mut variants: Vec<WordVariant> = Vec::new();
    assert(variant_models(variants@) =~= Seq::empty());
    let mut cursor: usize = first;
    let mut i: u64 = 0;
    while i < count
        invariant
            i <= count,
            variants_at(bytes@, pos) == variants_from(bytes@, cursor, (count - i) as nat, variant_models(variants@)),
        decreases count - i,
    {
        let (variant, next) = decode_variant_entry(bytes, cursor)?;
        assert(variant_models(variants@.push(variant)) =~= variant_models(variants@).push(variant@));
        variants.push(variant);
        cursor = next;
        i += 1;
    }
    Ok((variants, cursor))
}

/// Reads one word entry at `pos`.
fn decode_word_entry(bytes: &[u8], pos: usize) -> (r: Result<(String, WordData, usize), DecodeError>)
    ensures
        match r {
            Ok((word, data, end)) => word_entry_at(bytes@, pos) == Ok::<(Seq<char>, WordDataModel, usize), DecodeError>((word@, data@, end)),
            Err(e) => word_entry_at(bytes@, pos) == Err::<(Seq<char>, WordDataModel, usize), DecodeError>(e),
        },
{
    let (arity, at_word) = read_definite_array(bytes, pos)?;
    if arity < 2 {
        return Err(DecodeError { kind: DecodeFault::Structure, offset: pos });
    }
    let (word, at_pages) = read_string(bytes, at_word)?;
    let (pages, at_variants) = SearchIndex::decode_pages(bytes, at_pages)?;
    if arity >= 3 {
        let (additional_variants, end) = decode_variants(bytes, at_variants)?;
        Ok((word, WordData { pages, additional_variants }, end))
    } else {
        let additional_variants: Vec<WordVariant> = Vec::new();
        assert(variant_models(additional_variants@) =~= Seq::empty());
        Ok((word, WordData { pages, additional_variants }, at_variants))
    }
}

impl SearchIndex {
    /// An index that knows no word.
    pub fn new() -> (index: SearchIndex)
        ensures
            index@ == Map::<Seq<char>, WordDataModel>::empty(),
    {
        SearchIndex { words: Vec::new() }
    }

    /// Records `data` for `word`, in place of what was known of it.
    pub fn insert(&mut self, word: String, data: WordData)
        ensures
            final(self)@ == old(self)@.insert(word@, data@),
    {
        assert(self.words@.push((word, data)).drop_last() =~= self.words@);
        self.words.push((word, data));
    }

    /// What the index knows of `word`.
    pub fn get(&self, word: &str) -> (found: Option<&WordData>)
        ensures
            match found {
                Some(data) => self@.contains_key(word@) && self@[word@] == data@,
                None => !self@.contains_key(word@),
            },
    {
        let wanted: String = word.to_owned();
        let mut i: usize = self.words.len();
        assert(self.words@.take(i as int) =~= self.words@);
        while i > 0
            invariant
                i <= self.words.len(),
                wanted@ == word@,
                self@.contains_key(word@) <==> words_map(self.words@.take(i as int)).contains_key(word@),
                self@.contains_key(word@) ==> self@[word@] == words_map(self.words@.take(i as int))[word@],
            decreases i,
        {
            i -= 1;
            assert(self.words@.take(i + 1).drop_last() =~= self.words@.take(i as int));
            if self.words[i].0 == wanted {
                return Some(&self.words[i].1);
            }
        }
        None
    }

    /// Decodes the pages block that starts at offset `pos` of `bytes`:
    /// the pages with their numbers summed up from the deltas, each with its
    /// weighted locations, and the offset behind the block.
    pub fn decode_pages(bytes: &[u8], pos: usize) -> (r: Result<(Vec<PageWord>, usize), DecodeError>)
        ensures
            match r {
                Ok((pages, end)) => pages_at(bytes@, pos) == Ok::<(Seq<PageWordModel>, usize), DecodeError>((page_models(pages@), end)),
                Err(e) => pages_at(bytes@, pos) == Err::<(Seq<PageWordModel>, usize), DecodeError>(e),
            },
    {
        let (count, first) = read_definite_array(bytes, pos)?;
        let mut pages: Vec<PageWord> = Vec::new();
        assert(page_models(pages@) =~= Seq::empty());
        let mut cumulative_page: u32 = 0;
        let mut cursor: usize = first;
        let mut i: u64 = 0;
        while i < count
            invariant
                i <= count,
                pages_at(bytes@, pos) == pages_from(bytes@, cursor, (count - i) as nat, cumulative_page, page_models(pages@)),
            decreases count - i,
        {
            let (page, next) = decode_page_entry(bytes, cursor, cumulative_page)?;
            assert(page_models(pages@.push(page)) =~= page_models(pages@).push(page@));
            cumulative_page = page.page;
            pages.push(page);
            cursor = next;
            i += 1;
        }
        Ok((pages, cursor))
    }

    /// Decodes the index chunk `index_bytes` and inserts each of its words,
    /// in the chunk's order. Where the chunk is malformed the words read
    /// before the fault stay inserted and the fault is returned.
    pub fn decode_index_chunk(&mut self, index_bytes: &[u8]) -> (r: Result<(), DecodeError>)
        ensures
            final(self)@ == chunk_words(index_bytes@, old(self)@).0,
            r == match chunk_words(index_bytes@, old(self)@).1 {
                Some(e) => Err::<(), DecodeError>(e),
                None => Ok::<(), DecodeError>(()),
            },
    {
        let (_, at_words) = read_definite_array(index_bytes, 0)?;
        let (count, first) = read_definite_array(index_bytes, at_words)?;
        let mut cursor: usize = first;
        let mut i: u64 = 0;
        while i < count
            invariant
                i <= count,
                chunk_words(index_bytes@, old(self)@) == words_from(index_bytes@, cursor, (count - i) as nat, self@),
            decreases count - i,
        {
            match decode_word_entry(index_bytes, cursor) {
                Ok((word, data, next)) => {
                    self.insert(word, data);
                    cursor = next;
                },
                Err(e) => {
                    return Err(e);
                },
            }
            i += 1;
        }
        Ok(())
    }
}

/// A word entry that declares two elements decodes without variants, and
/// ends where its pages block ends.
pub proof fn lemma_legacy_entry_has_no_variants(bytes: Seq<u8>, pos: usize)
    requires
        definite_array_at(bytes, pos) is Ok,
        definite_array_at(bytes, pos).unwrap().0 == 2,
        word_entry_at(bytes, pos) is Ok,
    ensures
        word_entry_at(bytes, pos).unwrap().1.additional_variants == Seq::<WordVariantModel>::empty(),
        string_at(bytes, definite_array_at(bytes, pos).unwrap().1) is Ok,
        pages_at(bytes, string_at(bytes, definite_array_at(bytes, pos).unwrap().1).unwrap().1) is Ok,
        word_entry_at(bytes, pos).unwrap().2 == pages_at(
            bytes,
            string_at(bytes, definite_array_at(bytes, pos).unwrap().1).unwrap().1,
        ).unwrap().1,
{
}

/// Decoding one more page entry adds the entry's delta to the page number
/// before it: page numbers never fall within a pages block.
pub proof fn lemma_page_numbers_accumulate(bytes: Seq<u8>, pos: usize, previous_page: u32)
    requires
        page_entry_at(bytes, pos, previous_page) is Ok,
    ensures
        page_entry_at(bytes, pos, previous_page).unwrap().0.page >= previous_page,
        number_at(bytes, definite_array_at(bytes, pos).unwrap().1) is Ok,
        page_entry_at(bytes, pos, previous_page).unwrap().0.page == previous_page + number_at(
            bytes,
            definite_array_at(bytes, pos).unwrap().1,
        ).unwrap().0,
{
}

/// A chunk whose outer array cannot be read changes nothing in the index,
/// and the fault reported is the one of that array.
pub proof fn lemma_unreadable_chunk_changes_nothing(bytes: Seq<u8>, initial: Map<Seq<char>, WordDataModel>)
    requires
        definite_array_at(bytes, 0) is Err,
    ensures
        chunk_words(bytes, initial).0 == initial,
        chunk_words(bytes, initial).1 == Some(definite_array_at(bytes, 0).unwrap_err()),
{
}

/// Whether the page numbers of `pages` never fall from one page to the next.
pub open spec fn pages_ascend(pages: Seq<PageWordModel>) -> bool {
    forall|i: int, j: int| 0 <= i <= j < pages.len() ==> pages[i].page <= pages[j].page
}

/// Page entries appended to ascending pages, none of them beyond the page
/// number reached, leave the pages ascending.
proof fn lemma_pages_from_ascend(bytes: Seq<u8>, pos: usize, remaining: nat, previous_page: u32, acc: Seq<PageWordModel>)
    requires
        pages_from(bytes, pos, remaining, previous_page, acc) is Ok,
        pages_ascend(acc),
        forall|i: int| 0 <= i < acc.len() ==> (#[trigger] acc[i]).page <= previous_page,
    ensures
        pages_ascend(pages_from(bytes, pos, remaining, previous_page, acc).unwrap().0),
    decreases remaining,
{
    if remaining > 0 {
        let (entry, next) = page_entry_at(bytes, pos, previous_page).unwrap();
        let longer = acc.push(entry);
        assert(entry.page >= previous_page);
        assert forall|i: int, j: int| 0 <= i <= j < longer.len() implies longer[i].page <= longer[j].page by {
            if j < acc.len() {
                assert(longer[i] == acc[i] && longer[j] == acc[j]);
            } else if i < acc.len() {
                assert(longer[i] == acc[i]);
            }
        }
        assert forall|i: int| 0 <= i < longer.len() implies (#[trigger] longer[i]).page <= entry.page by {
            if i < acc.len() {
                assert(longer[i] == acc[i]);
            }
        }
        lemma_pages_from_ascend(bytes, next, (remaining - 1) as nat, entry.page, longer);
    }
}

/// Within one decoded pages block the page numbers never fall: each is the
/// one before it plus a delta that is not negative.
pub proof fn lemma_page_numbers_ascend(bytes: Seq<u8>, pos: usize)
    requires
        pages_at(bytes, pos) is Ok,
    ensures
        pages_ascend(pages_at(bytes, pos).unwrap().0),
{
    let (count, first) = definite_array_at(bytes, pos).unwrap();
    lemma_pages_from_ascend(bytes, first, count as nat, 0, Seq::empty());
}

/// Reading word entries into a map takes no word out of it.
proof fn lemma_words_from_keeps_words(
    bytes: Seq<u8>,
    pos: usize,
    remaining: nat,
    acc: Map<Seq<char>, WordDataModel>,
    word: Seq<char>,
)
    requires
        acc.contains_key(word),
    ensures
        words_from(bytes, pos, remaining, acc).0.contains_key(word),
    decreases remaining,
{
    if remaining > 0 {
        match word_entry_at(bytes, pos) {
            Ok((read, data, next)) => {
                lemma_words_from_keeps_words(bytes, next, (remaining - 1) as nat, acc.insert(read, data), word);
            },
            Err(_) => {},
        }
    }
}

/// Decoding a chunk, well-formed or not, takes no word out of the index:
/// what was known of a word is kept or replaced by what the chunk says of it.
pub proof fn lemma_decoding_keeps_words(bytes: Seq<u8>, initial: Map<Seq<char>, WordDataModel>, word: Seq<char>)
    requires
        initial.contains_key(word),
    ensures
        chunk_words(bytes, initial).0.contains_key(word),
{
    match definite_array_at(bytes, 0) {
        Ok((_, at_words)) => match definite_array_at(bytes, at_words) {
            Ok((count, first)) => {
                lemma_words_from_keeps_words(bytes, first, count as nat, initial, word);
            },
            Err(_) => {},
        },
        Err(_) => {},
    }
}

} // verus!
