use pagefind_stem::{Algorithm, Stemmer};
use wordindex::splitting::{
    get_compound_words, get_discrete_words, get_indexable_words, normalize, normalize_diacritics, IndexableWord,
};

fn get_stemmer(language: &str) -> Option<Stemmer> {
    match language {
        "en" => Some(Stemmer::create(Algorithm::English)),
        "fr" => Some(Stemmer::create(Algorithm::French)),
        _ => None,
    }
}

fn whole(stemmed: &str) -> IndexableWord {
    IndexableWord { stemmed: stemmed.to_string(), is_compound_part: false, original: None }
}

fn part(stemmed: &str) -> IndexableWord {
    IndexableWord { stemmed: stemmed.to_string(), is_compound_part: true, original: None }
}

#[test]
fn indexable_words_simple() {
    let stemmer = get_stemmer("en");
    let results = get_indexable_words("hello", stemmer.as_ref(), &[]);

    assert_eq!(
        results,
        vec![IndexableWord {
            stemmed: "hello".to_string(),
            is_compound_part: false,
            original: None
        }]
    );
}

#[test]
fn indexable_words_compound() {
    let stemmer = get_stemmer("en");

    let expected = vec![
        IndexableWord {
            stemmed: "threeantelop".to_string(),
            is_compound_part: false,
            original: None,
        },
        IndexableWord {
            stemmed: "three".to_string(),
            is_compound_part: true,
            original: None,
        },
        IndexableWord {
            stemmed: "antelop".to_string(),
            is_compound_part: true,
            original: None,
        },
    ];

    let camel_results = get_indexable_words("ThreeAntelopes", stemmer.as_ref(), &[]);
    let kebab_results = get_indexable_words("three-antelopes", stemmer.as_ref(), &[]);
    let snake_results = get_indexable_words("three_antelopes", stemmer.as_ref(), &[]);

    assert_eq!(camel_results, expected);
    assert_eq!(kebab_results, expected);
    assert_eq!(snake_results, expected);
}

#[test]
fn indexable_words_compound_diacritics() {
    let stemmer = get_stemmer("fr");
    let results = get_indexable_words("café-crème", stemmer.as_ref(), &[]);

    assert_eq!(
        results,
        vec![
            IndexableWord {
                stemmed: "cafecrem".to_string(),
                is_compound_part: false,
                original: Some("cafécrème".to_string()),
            },
            IndexableWord {
                stemmed: "caf".to_string(),
                is_compound_part: true,
                original: Some("café".to_string()),
            },
            IndexableWord {
                stemmed: "crem".to_string(),
                is_compound_part: true,
                original: Some("crème".to_string()),
            },
        ]
    );
}

#[test]
fn hyphenated_words() {
    let input = "these-words-are-hyphenated";
    assert_eq!(
        get_discrete_words(input),
        ("these words are hyphenated".into(), None)
    );
}

#[test]
fn underscored_words() {
    let input = "__array_structures";
    assert_eq!(get_discrete_words(input), ("array structures".into(), None));
}

#[test]
fn camel_words() {
    let input = "WKWebVIEWComponent";
    assert_eq!(
        get_discrete_words(input),
        ("wk web view component".into(), None)
    );
}

#[test]
fn dotted_words() {
    let input = "page.Find";
    assert_eq!(get_discrete_words(input), ("page find".into(), None));
}

#[test]
fn misc_punctuation() {
    let input = "cloud/cannon,page.find";
    assert_eq!(
        get_discrete_words(input),
        ("cloud cannon page find".into(), None)
    );
}

#[test]
fn french() {
    let input = "l'alphabet";
    assert_eq!(get_discrete_words(input), ("l alphabet".into(), None));
}

#[test]
fn html() {
    let input = "<FormComponent data-pagefind-meta='[key:(value)]'>";
    assert_eq!(
        get_discrete_words(input),
        ("form component data pagefind meta key value".into(), None)
    );
}

#[test]
fn emoji() {
    let input = "cloud🌦️cannon";
    assert_eq!(
        get_discrete_words(input),
        ("cloud🌦️cannon".into(), Some(vec!["🌦️".into()]))
    );

    let input = "👋👨‍👩‍👧‍👦🌾";
    assert_eq!(
        get_discrete_words(input),
        (
            "👋👨‍👩‍👧‍👦🌾".into(),
            Some(vec!["👋".into(), "👨‍👩‍👧‍👦".into(), "🌾".into()])
        )
    );
}

#[test]
fn plain_words_give_one_entry() {
    assert_eq!(get_indexable_words("hello", None, &[]), vec![whole("hello")]);
    assert_eq!(get_indexable_words("Hello", None, &[]), vec![whole("hello")]);
    assert_eq!(get_indexable_words("z", None, &[]), vec![whole("z")]);
    let stemmer = get_stemmer("en");
    assert_eq!(get_indexable_words("Running", stemmer.as_ref(), &[]), vec![whole("run")]);
}

#[test]
fn nothing_to_index() {
    assert_eq!(get_indexable_words("", None, &[]), vec![]);
    assert_eq!(get_indexable_words("--", None, &[]), vec![]);
    assert_eq!(get_indexable_words("...", get_stemmer("en").as_ref(), &[]), vec![]);
}

#[test]
fn normalizing_lowercases_and_filters() {
    assert_eq!(normalize("Hello-World", &[]), "helloworld");
    assert_eq!(normalize("Hello-World", &['-']), "hello-world");
    assert_eq!(normalize("ab12_C", &[]), "ab12c");
    assert_eq!(normalize("<>", &[]), "");
    assert_eq!(normalize("ÉCOLE", &[]), "école");
    // one capital that lowers to two characters
    assert_eq!(normalize("İstanbul", &[]), "i\u{307}stanbul");
    // a title-case letter is lowered too
    assert_eq!(normalize("\u{1c5}emal", &[]), "\u{1c6}emal");
    assert_eq!(normalize("ΑΒΓ", &[]), "αβγ");
}

#[test]
fn diacritics_are_stripped_once() {
    assert_eq!(normalize_diacritics("cafe"), None);
    assert_eq!(normalize_diacritics(""), None);
    assert_eq!(normalize_diacritics("café"), Some("cafe".to_string()));
    assert_eq!(normalize_diacritics("crème"), Some("creme".to_string()));
    // a non-ASCII word without marks stays as it is
    assert_eq!(normalize_diacritics("straße"), None);
    // a non-ASCII result is not stripped again
    assert_eq!(normalize_diacritics("éß"), Some("eß".to_string()));
    assert_eq!(normalize_diacritics("eß"), None);
    // a decomposed input loses its marks too
    assert_eq!(normalize_diacritics("e\u{301}"), Some("e".to_string()));
}

#[test]
fn stripping_twice_changes_nothing_more() {
    for word in ["café", "crème", "éß", "naïve", "Ångström", "한글", "e\u{301}\u{323}", "ñandú", "🌦️"] {
        match normalize_diacritics(word) {
            Some(plain) => {
                assert_ne!(plain, word);
                assert_eq!(normalize_diacritics(&plain), None, "{word}");
            }
            None => {}
        }
    }
    assert_eq!(normalize_diacritics("한글"), Some("\u{1112}\u{1161}\u{11ab}\u{1100}\u{1173}\u{11af}".to_string()));
}

#[test]
fn words_without_alphanumerics() {
    // neither ASCII punctuation nor alphanumeric: no whole word, one part
    assert_eq!(get_indexable_words("«»", None, &[]), vec![part("«»")]);
    assert_eq!(get_indexable_words("🌾", None, &[]), vec![whole("🌾")]);
}

#[test]
fn an_emoji_inside_a_word() {
    assert_eq!(
        get_indexable_words("cloud🌦️cannon", None, &[]),
        vec![
            whole("cloudcannon"),
            IndexableWord {
                stemmed: "cloud🌦cannon".to_string(),
                is_compound_part: true,
                original: Some("cloud🌦\u{fe0f}cannon".to_string()),
            },
            whole("🌦\u{fe0f}"),
        ]
    );
}

#[test]
fn without_a_stemmer_words_stay_unstemmed() {
    assert_eq!(
        get_indexable_words("three-antelopes", None, &[]),
        vec![whole("threeantelopes"), part("three"), part("antelopes")]
    );
}

#[test]
fn single_character_parts_are_dropped() {
    assert_eq!(
        get_indexable_words("l'alphabet", None, &[]),
        vec![whole("lalphabet"), part("alphabet")]
    );
    assert_eq!(
        get_indexable_words("é-ab", None, &[]),
        vec![
            IndexableWord { stemmed: "eab".to_string(), is_compound_part: false, original: Some("éab".to_string()) },
            part("ab"),
        ]
    );
}

#[test]
fn kept_characters_stay_in_the_whole_word() {
    assert_eq!(
        get_indexable_words("well-known", None, &['-']),
        vec![whole("well-known"), part("well"), part("known")]
    );
}

#[test]
fn a_word_that_cutting_leaves_whole_has_no_parts() {
    assert_eq!(get_compound_words("abc", "abc", None, None), vec![]);
    assert_eq!(get_compound_words("abc", "ab c", None, None), vec![part("ab")]);
    assert_eq!(get_compound_words("abc", "abd", None, None), vec![part("abd")]);
    assert_eq!(get_compound_words("abc", "ab", None, None), vec![part("ab")]);
    assert_eq!(
        get_compound_words("abc", "abc", Some(vec!["🌾".to_string()]), None),
        vec![whole("🌾")]
    );
    assert_eq!(
        get_compound_words("", "one  two\tx", Some(vec![]), None),
        vec![part("one"), part("two")]
    );
}

#[test]
fn emoji_come_last() {
    let results = get_indexable_words("cloud🌾cannon", None, &[]);
    assert_eq!(results.first(), Some(&whole("cloudcannon")));
    assert_eq!(results.last(), Some(&whole("🌾")));
    assert_eq!(results.len(), 3);
    assert!(results[1].is_compound_part);
}

#[test]
fn digits_alone_are_no_emoji() {
    assert_eq!(get_discrete_words("abc1"), ("abc 1".into(), None));
}
