use ulang::deck::parse;
use ulang::entry::GramClass;

const GOOD: &str = r#"
{ "languages": ["English", "French"],
  "entries": [
    { "term0": "yes", "term1": "oui", "class": "Adverb" },
    { "term0": "the work", "term1": "le travail", "class": "Noun" },
    { "term0": "to rise", "term1": "s'élever", "class": "Verb" }
  ] }
"#;

#[test]
fn good_document_parses() {
    let d = parse(GOOD).expect("document should parse");
    assert_eq!(d.lang0, "English");
    assert_eq!(d.lang1, "French");
    assert_eq!(d.entries.len(), 3);
    assert_eq!(d.entries[0].term0, "yes");
    assert_eq!(d.entries[0].term1, "oui");
    assert_eq!(d.entries[0].class, GramClass::Adverb);
    assert_eq!(d.entries[1].term0, "the work");
    assert_eq!(d.entries[1].term1, "le travail");
    assert_eq!(d.entries[1].class, GramClass::Noun);
    assert_eq!(d.entries[2].term1, "s'élever");
    assert_eq!(d.entries[2].class, GramClass::Verb);
}

#[test]
fn whitespace_is_free_between_tokens() {
    let text = "{\"languages\":[\"a\",\"b\"],\"entries\":[{\"term0\":\"x\",\"term1\":\"y\",\"class\":\"Noun\"}]}";
    let d = parse(text).expect("compact document should parse");
    assert_eq!(d.lang0, "a");
    assert_eq!(d.entries.len(), 1);
    let spaced = "  {  \"languages\" : [ \"a\" ,\t\"b\" ] ,\n  \"entries\" : [ { \"term0\" : \"x\" , \"term1\" : \"y\" , \"class\" : \"Noun\" } ] }  ";
    let d2 = parse(spaced).expect("spaced document should parse");
    assert_eq!(d2.lang1, "b");
    assert_eq!(d2.entries[0].term0, "x");
}

#[test]
fn string_escapes_are_decoded() {
    let text = r#"{ "languages": ["l\"eft", "r\\ight"],
        "entries": [ { "term0": "a\tb", "term1": "c\nd", "class": "Verb" } ] }"#;
    let d = parse(text).expect("escaped document should parse");
    assert_eq!(d.lang0, "l\"eft");
    assert_eq!(d.lang1, "r\\ight");
    assert_eq!(d.entries[0].term0, "a\tb");
    assert_eq!(d.entries[0].term1, "c\nd");
}

#[test]
fn missing_class_tag_fails() {
    let text = r#"{ "languages": ["English", "French"],
        "entries": [ { "term0": "yes", "term1": "oui" } ] }"#;
    assert!(parse(text).is_err());
}

#[test]
fn unknown_class_tag_fails() {
    let text = r#"{ "languages": ["English", "French"],
        "entries": [ { "term0": "yes", "term1": "oui", "class": "Pronoun" } ] }"#;
    assert!(parse(text).is_err());
}

#[test]
fn one_bad_entry_fails_the_whole_parse() {
    let text = r#"{ "languages": ["English", "French"],
        "entries": [
            { "term0": "yes", "term1": "oui", "class": "Adverb" },
            { "term0": "no", "term1": "non" }
        ] }"#;
    assert!(parse(text).is_err());
}

#[test]
fn empty_entry_list_fails() {
    let text = r#"{ "languages": ["English", "French"], "entries": [] }"#;
    assert!(parse(text).is_err());
}

#[test]
fn equal_language_labels_fail() {
    let text = r#"{ "languages": ["English", "English"],
        "entries": [ { "term0": "yes", "term1": "oui", "class": "Adverb" } ] }"#;
    assert!(parse(text).is_err());
}

#[test]
fn empty_language_label_fails() {
    let text = r#"{ "languages": ["", "French"],
        "entries": [ { "term0": "yes", "term1": "oui", "class": "Adverb" } ] }"#;
    assert!(parse(text).is_err());
}

#[test]
fn blank_term_fails() {
    let text = r#"{ "languages": ["English", "French"],
        "entries": [ { "term0": "  ", "term1": "oui", "class": "Adverb" } ] }"#;
    assert!(parse(text).is_err());
}

#[test]
fn trailing_garbage_fails() {
    let text = r#"{ "languages": ["English", "French"],
        "entries": [ { "term0": "yes", "term1": "oui", "class": "Adverb" } ] } x"#;
    assert!(parse(text).is_err());
}

#[test]
fn unterminated_string_fails() {
    let text = r#"{ "languages": ["English, "French"],
        "entries": [ { "term0": "yes", "term1": "oui", "class": "Adverb" } ] }"#;
    assert!(parse(text).is_err());
}

#[test]
fn empty_input_fails() {
    assert!(parse("").is_err());
    assert!(parse("   \n\t ").is_err());
}
