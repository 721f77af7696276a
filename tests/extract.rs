use bible_bot::err::BibleLookupError;
use bible_bot::reference::{extract_refs, normalize_text};

#[test]
fn test_extract_refs_ok() {
    let refs = extract_refs(
        "I wanna look at [[John 3: 16 - 17]]
        and I wanna look at [[1 Corinthians 13]]",
    );

    assert_eq!(refs.unwrap(), vec!["John3:16-17", "1Corinthians13"]);
}

#[test]
fn test_extract_refs_err() {
    let no_refs = extract_refs(
        "You have no references here, Gandalf the Grey!
        [[Noteventhisone!!]]
        Or even this 'valid' one! [[Jude]]",
    );

    assert!(no_refs.is_err());
}

#[test]
fn test_extract_refs() {
    let refs = extract_refs(
        "I wanna look at [[John 3: 16 - 17]]
            and I wanna look at [[1Corinthians13]]",
    );

    assert_eq!(refs.unwrap(), vec!["John3:16-17", "1Corinthians13"]);
}

#[test]
fn no_refs_is_an_error() {
    assert_eq!(extract_refs("no refs here"), Err(BibleLookupError::NoRefs));
}

#[test]
fn spaced_example_is_normalized() {
    let refs = extract_refs("[[John 3: 16 - 17]] ... [[1Corinthians13]]").unwrap();
    assert_eq!(refs, vec!["John3:16-17", "1Corinthians13"]);
}

#[test]
fn malformed_brackets_are_skipped_in_order() {
    let text = "[[Jude]] a [[Gen1]] b [[Ex2:3-]] c [[Rom8:28]] d [[12Kings3]] e [[Ps23:1-6]]";
    assert_eq!(extract_refs(text).unwrap(), vec!["Gen1", "Rom8:28", "Ps23:1-6"]);
}

#[test]
fn duplicates_are_kept() {
    let refs = extract_refs("[[Jn3]] and again [[Jn3]]").unwrap();
    assert_eq!(refs, vec!["Jn3", "Jn3"]);
}

#[test]
fn escaped_brackets_count_as_brackets() {
    let refs = extract_refs("\\[\\[Matthew 5:3\\]\\]").unwrap();
    assert_eq!(refs, vec!["Matthew5:3"]);
}

#[test]
fn extra_opening_bracket_shifts_the_match() {
    let refs = extract_refs("[[[Luke2:1]]").unwrap();
    assert_eq!(refs, vec!["Luke2:1"]);
}

#[test]
fn single_closing_bracket_is_no_match() {
    assert!(extract_refs("[[Luke2] ]").is_ok());
    assert!(extract_refs("[[Luke2]").is_err());
}

#[test]
fn extracting_normalized_text_gives_same_refs() {
    let text = "see [[1 John 4 : 8]] and [[ Acts\\ 2 ]] or [[x]]";
    let norm = normalize_text(text);
    assert_eq!(norm, "see[[1John4:8]]and[[Acts2]]or[[x]]");
    assert_eq!(extract_refs(&norm), extract_refs(text));
}

#[test]
fn normalize_removes_spaces_and_backslashes_only() {
    assert_eq!(normalize_text(" a\\b \tc "), "ab\tc");
    assert_eq!(normalize_text(""), "");
}
