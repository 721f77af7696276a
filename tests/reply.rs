use bible_bot::err::BibleLookupError;
use bible_bot::json::{Json, Number};
use bible_bot::lookup::{lookup_url, strip_jsonp};
use bible_bot::passage::{Info, Passage};
use bible_bot::reply::{build_block, build_replies, build_reply};

fn s(t: &str) -> Json {
    Json::Str(t.to_string())
}

fn obj(members: Vec<(&str, Json)>) -> Json {
    Json::Object(members.into_iter().map(|(k, v)| (k.to_string(), v)).collect())
}

fn answer(book: &str, chapter: u64, verses: Vec<(&str, &str)>) -> Json {
    obj(vec![
        ("book_name", s(book)),
        ("chapter_nr", Json::Number(Number::Unsigned(chapter))),
        (
            "chapter",
            obj(verses
                .into_iter()
                .map(|(k, t)| (k, obj(vec![("verse_nr", s(k)), ("verse", s(t))])))
                .collect()),
        ),
        ("type", s("chapter")),
        ("version", s("asv")),
    ])
}

fn pair(json: &Json) -> (Info, Passage) {
    (Info::new(json).unwrap(), Passage::new(json).unwrap())
}

#[test]
fn reply_has_one_blank_line_after_info() {
    let (info, passage) = pair(&answer("Jude", 1, vec![("2", "Mercy"), ("1", "Jude")]));
    let reply = build_reply(&info, &passage);
    assert_eq!(reply, "Jude 1 (asv)\n\n^(1) Jude^(2) Mercy");
    let first = reply.find('\n').unwrap();
    assert_eq!(&reply[..first], "Jude 1 (asv)");
    assert_eq!(&reply[first..first + 2], "\n\n");
    assert!(reply[first + 2..].starts_with('^'));
}

#[test]
fn test_build_replies() {
    let outcomes = vec![
        ("John3:16-17".to_string(), Ok(pair(&answer("John", 3, vec![("16", "a"), ("17", "b")])))),
        ("1Corinthians13".to_string(), Ok(pair(&answer("1 Corinthians", 13, vec![("1", "c")])))),
    ];
    let replies = build_replies(&outcomes);
    assert!(!replies.contains("Error finding"));
}

#[test]
fn mixed_outcomes_keep_both_blocks() {
    let outcomes = vec![
        ("Gen1:1".to_string(), Ok(pair(&answer("Genesis", 1, vec![("1", "In the beginning")])))),
        ("Nope9".to_string(), Err(BibleLookupError::BadPassageType)),
    ];
    assert_eq!(
        build_replies(&outcomes),
        "Genesis 1 (asv)\n\n^(1) In the beginning\n\n___\n\nError finding Nope9"
    );
}

#[test]
fn all_failures_still_give_a_reply() {
    let outcomes: Vec<(String, Result<(Info, Passage), BibleLookupError>)> = vec![
        ("A1".to_string(), Err(BibleLookupError::Request("timed out".to_string()))),
        ("B2".to_string(), Err(BibleLookupError::Parse)),
        ("A1".to_string(), Err(BibleLookupError::NoRefs)),
    ];
    assert_eq!(
        build_replies(&outcomes),
        "Error finding A1\n\n___\n\nError finding B2\n\n___\n\nError finding A1"
    );
    assert_eq!(build_replies(&vec![]), "");
}

#[test]
fn block_for_one_outcome() {
    let err: Result<(Info, Passage), BibleLookupError> = Err(BibleLookupError::Parse);
    assert_eq!(build_block(&"Ps1".to_string(), &err), "Error finding Ps1");
}

#[test]
fn url_asks_for_reference_and_version() {
    assert_eq!(
        lookup_url("John3:16-17", None),
        "https://getbible.net/json?text=John3:16-17&version=asv"
    );
    assert_eq!(
        lookup_url("Ps23", Some("kjv")),
        "https://getbible.net/json?text=Ps23&version=kjv"
    );
}

#[test]
fn jsonp_wrapper_is_removed() {
    assert_eq!(strip_jsonp("cb({\"a\":\"(x)\"});"), "cb{\"a\":\"(x)\"}");
    assert_eq!(strip_jsonp("({\"type\":\"verse\"});"), "{\"type\":\"verse\"}");
    assert_eq!(strip_jsonp("{}"), "{}");
    assert_eq!(strip_jsonp("a);b);"), "a);b");
    assert_eq!(strip_jsonp(""), "");
}
