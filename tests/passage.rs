use bible_bot::err::BibleLookupError;
use bible_bot::json::{Json, Number};
use bible_bot::lookup::passage_pair;
use bible_bot::passage::{Info, Passage};
use bible_bot::reply::build_reply;

fn s(t: &str) -> Json {
    Json::Str(t.to_string())
}

fn obj(members: Vec<(&str, Json)>) -> Json {
    Json::Object(members.into_iter().map(|(k, v)| (k.to_string(), v)).collect())
}

fn verse(nr: &str, text: &str) -> Json {
    obj(vec![("verse_nr", s(nr)), ("verse", s(text))])
}

fn john_3_16_17() -> Json {
    obj(vec![
        (
            "book",
            Json::Array(vec![obj(vec![
                ("book_ref", s("Jn")),
                ("book_name", s("John")),
                ("book_nr", s("43")),
                ("chapter_nr", Json::Number(Number::Unsigned(3))),
                (
                    "chapter",
                    obj(vec![
                        ("16", verse("16", "For God so loved the world.")),
                        ("17", verse("17", "For God sent not the Son.")),
                    ]),
                ),
            ])]),
        ),
        ("direction", s("LTR")),
        ("type", s("verse")),
        ("version", s("asv")),
    ])
}

fn chapter_answer(chapter_nr: Json, verses: Json) -> Json {
    obj(vec![
        ("book_name", s("Psalms")),
        ("chapter_nr", chapter_nr),
        ("chapter", verses),
        ("type", s("chapter")),
        ("version", s("kjv")),
    ])
}

#[test]
fn test_passage_constructor_ok() {
    let json = john_3_16_17();
    let passage = Passage::new(&json);
    assert!(passage.is_ok());
}

#[test]
fn test_info_constructor_ok() {
    let json = john_3_16_17();
    let info = Info::new(&json);
    assert!(info.is_ok());
}

#[test]
fn test_extract_passage() {
    let json = john_3_16_17();
    let passage = Passage::new(&json);
    assert!(passage.is_ok());
}

#[test]
fn test_extract_passage_info() {
    let json = john_3_16_17();
    println!("{:?}", json);
    let passage_info = Info::new(&json);
    assert!(passage_info.is_ok());
}

#[test]
fn test_build_reply() {
    let json = john_3_16_17();
    let passage = Passage::new(&json).unwrap();
    let passage_info = Info::new(&json).unwrap();
    let reply = build_reply(&passage_info, &passage);
    assert!(!reply.is_empty());
}

#[test]
fn verse_answer_renders_exactly() {
    let json = john_3_16_17();
    let info = Info::new(&json).unwrap();
    assert_eq!(info.to_string(), "John 3 (asv)");
    let passage = Passage::new(&json).unwrap();
    assert_eq!(
        passage.to_string(),
        "^(16) For God so loved the world.^(17) For God sent not the Son."
    );
}

#[test]
fn chapter_keys_render_in_numeric_order() {
    let json = chapter_answer(
        s("23"),
        obj(vec![("2", verse("2", "b")), ("10", verse("10", "j")), ("1", verse("1", "a"))]),
    );
    let info = Info::new(&json).unwrap();
    assert_eq!(info.to_string(), "Psalms 23 (kjv)");
    let passage = Passage::new(&json).unwrap();
    assert_eq!(passage.to_string(), "^(1) a^(2) b^(10) j");
}

#[test]
fn unknown_or_missing_type_is_rejected() {
    let note = obj(vec![("type", s("note")), ("version", s("asv"))]);
    assert_eq!(Info::new(&note).unwrap_err(), BibleLookupError::BadPassageType);
    assert_eq!(Passage::new(&note).unwrap_err(), BibleLookupError::BadPassageType);
    let missing = obj(vec![("version", s("asv"))]);
    assert_eq!(Info::new(&missing).unwrap_err(), BibleLookupError::BadPassageType);
    assert_eq!(Passage::new(&missing).unwrap_err(), BibleLookupError::BadPassageType);
    let not_text = obj(vec![("type", Json::Bool(true))]);
    assert_eq!(Info::new(&not_text).unwrap_err(), BibleLookupError::BadPassageType);
    assert_eq!(Passage::new(&Json::Null).unwrap_err(), BibleLookupError::BadPassageType);
}

#[test]
fn chapter_number_and_string_agree() {
    let numeric = chapter_answer(Json::Number(Number::Unsigned(3)), obj(vec![]));
    let text = chapter_answer(s("3"), obj(vec![]));
    assert_eq!(Info::new(&numeric).unwrap().chapter, "3");
    assert_eq!(Info::new(&text).unwrap().chapter, "3");
}

#[test]
fn bad_chapter_numbers_are_parse_errors() {
    for nr in [
        Json::Number(Number::Negative(-3)),
        Json::Number(Number::Fractional),
        Json::Null,
        Json::Bool(false),
    ] {
        let json = chapter_answer(nr, obj(vec![]));
        assert_eq!(Info::new(&json).unwrap_err(), BibleLookupError::Parse);
    }
}

#[test]
fn missing_fields_are_parse_errors() {
    let json = obj(vec![("type", s("verse")), ("version", s("asv"))]);
    assert_eq!(Info::new(&json).unwrap_err(), BibleLookupError::Parse);
    assert_eq!(Passage::new(&json).unwrap_err(), BibleLookupError::Parse);
    let no_version = obj(vec![
        ("type", s("chapter")),
        ("book_name", s("Jude")),
        ("chapter_nr", s("1")),
        ("chapter", obj(vec![])),
    ]);
    assert_eq!(Info::new(&no_version).unwrap_err(), BibleLookupError::Parse);
    assert!(Passage::new(&no_version).is_ok());
}

#[test]
fn verse_without_text_renders_empty() {
    let json = chapter_answer(
        s("1"),
        obj(vec![("1", obj(vec![("verse_nr", s("1"))])), ("2", verse("2", "two"))]),
    );
    assert_eq!(Passage::new(&json).unwrap().to_string(), "^(1) ^(2) two");
}

#[test]
fn non_record_verse_is_a_parse_error() {
    let json = chapter_answer(s("1"), obj(vec![("1", s("loose text"))]));
    assert_eq!(Passage::new(&json).unwrap_err(), BibleLookupError::Parse);
    let json = chapter_answer(s("1"), Json::Array(vec![]));
    assert_eq!(Passage::new(&json).unwrap_err(), BibleLookupError::Parse);
}

#[test]
fn odd_keys_render_by_their_number() {
    let json = chapter_answer(
        s("1"),
        obj(vec![("x", verse("x", "ex")), ("+4", verse("4", "plus")), ("4", verse("4", "four"))]),
    );
    assert_eq!(Passage::new(&json).unwrap().to_string(), "^(0) ^(4) four^(4) four");
    let json = chapter_answer(s("1"), obj(vec![("18446744073709551616", verse("", "big"))]));
    assert_eq!(Passage::new(&json).unwrap().to_string(), "^(0) ");
    let json = chapter_answer(s("1"), obj(vec![("18446744073709551615", verse("", "max"))]));
    assert_eq!(Passage::new(&json).unwrap().to_string(), "^(18446744073709551615) max");
}

#[test]
fn empty_chapter_renders_empty() {
    let json = chapter_answer(s("1"), obj(vec![]));
    assert_eq!(Passage::new(&json).unwrap().to_string(), "");
}

#[test]
fn passage_pair_reports_first_failure() {
    let (info, passage) = passage_pair(&john_3_16_17()).unwrap();
    assert_eq!(info.book, "John");
    assert_eq!(info.version, "asv");
    assert_eq!(
        passage.to_string(),
        "^(16) For God so loved the world.^(17) For God sent not the Son."
    );
    let json = chapter_answer(Json::Null, s("not a map"));
    assert_eq!(passage_pair(&json).unwrap_err(), BibleLookupError::Parse);
}
