use minicbor::Encoder;
use wordindex::cbor::{DecodeError, DecodeFault};
use wordindex::index::{decode_locations, weight_of_marker, PageWord, SearchIndex, WordData, WordVariant};

fn pages_block(e: &mut Encoder<Vec<u8>>, pages: &[(u32, Vec<i32>)]) {
    e.array(pages.len() as u64).unwrap();
    for (delta, locs) in pages {
        e.array(2).unwrap();
        e.u32(*delta).unwrap();
        e.array(locs.len() as u64).unwrap();
        for loc in locs {
            e.i32(*loc).unwrap();
        }
    }
}

fn fault(kind: DecodeFault, offset: usize) -> DecodeError {
    DecodeError { kind, offset }
}

fn sample_pages() -> Vec<(u32, Vec<i32>)> {
    vec![(2, vec![-26, 3, 4, -1, 10]), (0, vec![1]), (5, vec![])]
}

fn sample_decoded() -> Vec<PageWord> {
    vec![
        PageWord { page: 2, locs: vec![(25, 3), (25, 7), (0, 10)] },
        PageWord { page: 2, locs: vec![(25, 1)] },
        PageWord { page: 7, locs: vec![] },
    ]
}

#[test]
fn marker_weights() {
    assert_eq!(weight_of_marker(-1), 0);
    assert_eq!(weight_of_marker(-26), 25);
    assert_eq!(weight_of_marker(-256), 255);
    assert_eq!(weight_of_marker(-257), 255);
    assert_eq!(weight_of_marker(i32::MIN), 255);
}

#[test]
fn locations_follow_markers_and_deltas() {
    assert_eq!(
        decode_locations(&vec![-26, 3, 4, -1, 10]),
        Some(vec![(25, 3), (25, 7), (0, 10)])
    );
    assert_eq!(decode_locations(&vec![]), Some(vec![]));
    assert_eq!(decode_locations(&vec![5, 0, 2]), Some(vec![(25, 5), (25, 5), (25, 7)]));
    assert_eq!(decode_locations(&vec![-300, 1]), Some(vec![(255, 1)]));
    assert_eq!(decode_locations(&vec![-7]), Some(vec![]));
}

#[test]
fn locations_reject_a_position_out_of_range() {
    assert_eq!(decode_locations(&vec![i32::MAX, i32::MAX, 1, 1]), None);
    assert_eq!(
        decode_locations(&vec![i32::MAX, i32::MAX, 1, -1, 7]),
        Some(vec![(25, 2147483647), (25, 4294967294), (25, 4294967295), (0, 7)])
    );
}

#[test]
fn a_position_out_of_range_is_reported_at_its_locations() {
    let mut e = Encoder::new(Vec::new());
    pages_block(&mut e, &[(0, vec![i32::MAX, i32::MAX, 1, 1])]);
    let bytes = e.into_writer();
    assert_eq!(SearchIndex::decode_pages(&bytes, 0), Err(fault(DecodeFault::Encoding, 3)));
}

#[test]
fn pages_are_summed_from_deltas() {
    let mut e = Encoder::new(Vec::new());
    pages_block(&mut e, &sample_pages());
    let bytes = e.into_writer();
    let (pages, end) = SearchIndex::decode_pages(&bytes, 0).unwrap();
    assert_eq!(pages, sample_decoded());
    assert_eq!(end, bytes.len());
}

#[test]
fn pages_start_at_the_given_offset() {
    let mut e = Encoder::new(Vec::new());
    e.str("skip").unwrap();
    let offset = e.writer().len();
    pages_block(&mut e, &[(300, vec![70000])]);
    let bytes = e.into_writer();
    let (pages, end) = SearchIndex::decode_pages(&bytes, offset).unwrap();
    assert_eq!(pages, vec![PageWord { page: 300, locs: vec![(25, 70000)] }]);
    assert_eq!(end, bytes.len());
    assert_eq!(SearchIndex::decode_pages(&bytes, 0), Err(fault(DecodeFault::Structure, 0)));
}

#[test]
fn page_number_out_of_range_is_rejected() {
    let mut e = Encoder::new(Vec::new());
    pages_block(&mut e, &[(u32::MAX, vec![]), (1, vec![])]);
    let bytes = e.into_writer();
    assert_eq!(SearchIndex::decode_pages(&bytes, 0), Err(fault(DecodeFault::Encoding, 9)));
}

#[test]
fn page_entry_of_wrong_arity_is_rejected() {
    let mut e = Encoder::new(Vec::new());
    e.array(1).unwrap();
    e.array(3).unwrap();
    e.u32(1).unwrap();
    e.array(0).unwrap();
    e.u32(1).unwrap();
    let bytes = e.into_writer();
    assert_eq!(SearchIndex::decode_pages(&bytes, 0), Err(fault(DecodeFault::Structure, 1)));
}

#[test]
fn current_entries_carry_variants() {
    let mut e = Encoder::new(Vec::new());
    e.array(1).unwrap();
    e.array(1).unwrap();
    e.array(3).unwrap();
    e.str("cafe").unwrap();
    pages_block(&mut e, &sample_pages());
    e.array(1).unwrap();
    e.array(2).unwrap();
    e.str("café").unwrap();
    pages_block(&mut e, &[(4, vec![2]), (1, vec![-11, 9])]);
    let bytes = e.into_writer();

    let mut index = SearchIndex::new();
    assert_eq!(index.decode_index_chunk(&bytes), Ok(()));
    assert_eq!(index.words.len(), 1);
    assert_eq!(
        index.get("cafe"),
        Some(&WordData {
            pages: sample_decoded(),
            additional_variants: vec![WordVariant {
                form: "café".to_string(),
                pages: vec![
                    PageWord { page: 4, locs: vec![(25, 2)] },
                    PageWord { page: 5, locs: vec![(10, 9)] },
                ],
            }],
        })
    );
    assert_eq!(index.get("café"), None);
}

#[test]
fn legacy_entries_have_no_variants() {
    let mut e = Encoder::new(Vec::new());
    e.array(1).unwrap();
    e.array(2).unwrap();
    e.array(2).unwrap();
    e.str("one").unwrap();
    pages_block(&mut e, &[(1, vec![4])]);
    e.array(2).unwrap();
    e.str("two").unwrap();
    pages_block(&mut e, &[(3, vec![0, 6])]);
    let bytes = e.into_writer();

    let mut index = SearchIndex::new();
    assert_eq!(index.decode_index_chunk(&bytes), Ok(()));
    assert_eq!(
        index.get("one"),
        Some(&WordData { pages: vec![PageWord { page: 1, locs: vec![(25, 4)] }], additional_variants: vec![] })
    );
    assert_eq!(
        index.get("two"),
        Some(&WordData {
            pages: vec![PageWord { page: 3, locs: vec![(25, 0), (25, 6)] }],
            additional_variants: vec![],
        })
    );
    assert_eq!(index.get("three"), None);
}

#[test]
fn a_later_entry_replaces_an_earlier_one() {
    let mut e = Encoder::new(Vec::new());
    e.array(1).unwrap();
    e.array(2).unwrap();
    e.array(2).unwrap();
    e.str("same").unwrap();
    pages_block(&mut e, &[(1, vec![4])]);
    e.array(2).unwrap();
    e.str("same").unwrap();
    pages_block(&mut e, &[(9, vec![])]);
    let bytes = e.into_writer();

    let mut index = SearchIndex::new();
    assert_eq!(index.decode_index_chunk(&bytes), Ok(()));
    assert_eq!(
        index.get("same"),
        Some(&WordData { pages: vec![PageWord { page: 9, locs: vec![] }], additional_variants: vec![] })
    );
}

#[test]
fn words_before_a_fault_stay() {
    let mut e = Encoder::new(Vec::new());
    e.array(1).unwrap();
    e.array(2).unwrap();
    e.array(2).unwrap();
    e.str("kept").unwrap();
    pages_block(&mut e, &[(1, vec![4])]);
    e.array(2).unwrap();
    e.str("lost").unwrap();
    let bytes = e.into_writer();

    let mut index = SearchIndex::new();
    assert_eq!(index.decode_index_chunk(&bytes), Err(fault(DecodeFault::Truncated, bytes.len())));
    assert!(index.get("kept").is_some());
    assert_eq!(index.get("lost"), None);
}

#[test]
fn word_entry_shorter_than_two_is_rejected() {
    let mut e = Encoder::new(Vec::new());
    e.array(1).unwrap();
    e.array(1).unwrap();
    e.array(1).unwrap();
    e.str("alone").unwrap();
    let bytes = e.into_writer();
    let mut index = SearchIndex::new();
    assert_eq!(index.decode_index_chunk(&bytes), Err(fault(DecodeFault::Structure, 2)));
    assert_eq!(index.words.len(), 0);
}

#[test]
fn malformed_chunks_are_reported_by_kind() {
    let mut index = SearchIndex::new();
    assert_eq!(index.decode_index_chunk(&[]), Err(fault(DecodeFault::Truncated, 0)));
    // an unsigned number where the outer array should be
    assert_eq!(index.decode_index_chunk(&[0x01]), Err(fault(DecodeFault::Structure, 0)));
    // an array of indefinite length
    assert_eq!(index.decode_index_chunk(&[0x9f, 0xff]), Err(fault(DecodeFault::Structure, 0)));
    // a words array that ends too early
    assert_eq!(index.decode_index_chunk(&[0x81, 0x82]), Err(fault(DecodeFault::Truncated, 2)));
    // a word whose text is not UTF-8
    assert_eq!(
        index.decode_index_chunk(&[0x81, 0x81, 0x82, 0x62, 0xff, 0xfe, 0x80]),
        Err(fault(DecodeFault::Encoding, 3))
    );
    // a page delta that does not fit 32 bits
    assert_eq!(
        index.decode_index_chunk(&[
            0x81, 0x81, 0x82, 0x61, 0x61, 0x81, 0x82, 0x1b, 0x00, 0x00, 0x00, 0x01, 0x00, 0x00, 0x00, 0x00, 0x80
        ]),
        Err(fault(DecodeFault::Encoding, 7))
    );
    assert_eq!(index.words.len(), 0);
}

#[test]
fn inserting_replaces() {
    let mut index = SearchIndex::new();
    index.insert("a".to_string(), WordData { pages: vec![], additional_variants: vec![] });
    index.insert(
        "a".to_string(),
        WordData { pages: vec![PageWord { page: 1, locs: vec![] }], additional_variants: vec![] },
    );
    assert_eq!(index.get("a").map(|d| d.pages.len()), Some(1));
    assert_eq!(index.get("b"), None);
}

#[test]
fn a_chunk_without_words_changes_nothing() {
    let mut index = SearchIndex::new();
    index.insert("kept".to_string(), WordData { pages: vec![], additional_variants: vec![] });
    assert_eq!(index.decode_index_chunk(&[0x81, 0x80]), Ok(()));
    assert_eq!(index.words.len(), 1);
    assert!(index.get("kept").is_some());
}

#[test]
fn chunks_add_to_what_is_known() {
    let mut first = Encoder::new(Vec::new());
    first.array(1).unwrap();
    first.array(1).unwrap();
    first.array(2).unwrap();
    first.str("one").unwrap();
    pages_block(&mut first, &[(1, vec![4])]);
    let mut second = Encoder::new(Vec::new());
    second.array(1).unwrap();
    second.array(1).unwrap();
    second.array(3).unwrap();
    second.str("two").unwrap();
    pages_block(&mut second, &[(2, vec![])]);
    second.array(0).unwrap();

    let mut index = SearchIndex::new();
    assert_eq!(index.decode_index_chunk(&first.into_writer()), Ok(()));
    assert_eq!(index.decode_index_chunk(&second.into_writer()), Ok(()));
    assert_eq!(index.get("one").map(|d| d.pages[0].page), Some(1));
    assert_eq!(
        index.get("two"),
        Some(&WordData { pages: vec![PageWord { page: 2, locs: vec![] }], additional_variants: vec![] })
    );
}

#[test]
fn variant_pages_count_from_zero_again() {
    let mut e = Encoder::new(Vec::new());
    e.array(1).unwrap();
    e.array(1).unwrap();
    e.array(3).unwrap();
    e.str("word").unwrap();
    pages_block(&mut e, &[(10, vec![1]), (10, vec![1])]);
    e.array(2).unwrap();
    e.array(2).unwrap();
    e.str("wörd").unwrap();
    pages_block(&mut e, &[(3, vec![-1, 2, 2])]);
    e.array(2).unwrap();
    e.str("wõrd").unwrap();
    pages_block(&mut e, &[(1, vec![]), (1, vec![8])]);
    let bytes = e.into_writer();

    let mut index = SearchIndex::new();
    assert_eq!(index.decode_index_chunk(&bytes), Ok(()));
    let data = index.get("word").unwrap();
    assert_eq!(data.pages.iter().map(|p| p.page).collect::<Vec<u32>>(), vec![10, 20]);
    assert_eq!(
        data.additional_variants,
        vec![
            WordVariant { form: "wörd".to_string(), pages: vec![PageWord { page: 3, locs: vec![(0, 2), (0, 4)] }] },
            WordVariant {
                form: "wõrd".to_string(),
                pages: vec![PageWord { page: 1, locs: vec![] }, PageWord { page: 2, locs: vec![(25, 8)] }],
            },
        ]
    );
}

#[test]
fn variant_entry_of_wrong_arity_is_rejected() {
    let mut e = Encoder::new(Vec::new());
    e.array(1).unwrap();
    e.array(1).unwrap();
    e.array(3).unwrap();
    e.str("word").unwrap();
    pages_block(&mut e, &[]);
    e.array(1).unwrap();
    e.array(1).unwrap();
    e.str("form").unwrap();
    let bytes = e.into_writer();
    let mut index = SearchIndex::new();
    assert_eq!(index.decode_index_chunk(&bytes), Err(fault(DecodeFault::Structure, 10)));
    assert_eq!(index.get("word"), None);
}
