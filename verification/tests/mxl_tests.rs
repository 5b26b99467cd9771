use soundseekers::mxl_json::{
    convert_mxl_to_json, find_score_entry, is_score_entry, score_source, ScoreError, ScoreSource,
};

#[test]
fn extension_decides_the_source() {
    assert_eq!(score_source(Some("mxl")), ScoreSource::Archive);
    assert_eq!(score_source(Some("musicxml")), ScoreSource::Plain);
    assert_eq!(score_source(Some("xml")), ScoreSource::Unsupported);
    assert_eq!(score_source(Some("MXL")), ScoreSource::Unsupported);
    assert_eq!(score_source(Some("mxl ")), ScoreSource::Unsupported);
    assert_eq!(score_source(Some("")), ScoreSource::Unsupported);
    assert_eq!(score_source(None), ScoreSource::Unsupported);
}

#[test]
fn score_entries_end_in_xml_and_are_not_the_container() {
    assert!(is_score_entry("score.xml"));
    assert!(is_score_entry("dir/lg-1234.xml"));
    assert!(is_score_entry(".xml"));
    assert!(is_score_entry("container.xml"));
    assert!(!is_score_entry("META-INF/container.xml"));
    assert!(!is_score_entry("score.musicxml"));
    assert!(!is_score_entry("score.XML"));
    assert!(!is_score_entry("xml"));
    assert!(!is_score_entry(""));
    assert!(!is_score_entry("score.xml "));
}

#[test]
fn first_score_entry_is_found() {
    let names = |list: &[&str]| list.iter().map(|n| n.to_string()).collect::<Vec<String>>();
    assert_eq!(
        find_score_entry(&names(&["META-INF/container.xml", "mimetype", "a.xml", "b.xml"])),
        Some(2)
    );
    assert_eq!(find_score_entry(&names(&["a.xml"])), Some(0));
    assert_eq!(find_score_entry(&names(&["META-INF/container.xml", "mimetype"])), None);
    assert_eq!(find_score_entry(&names(&[])), None);
}

#[test]
fn score_xml_becomes_laid_out_json() {
    let xml = "<score version=\"4\"><part><note>60</note><note>62</note></part></score>";
    let json = convert_mxl_to_json(xml.to_string()).unwrap();
    assert_eq!(
        json,
        "{\n  \"score\": {\n    \"@version\": 4,\n    \"part\": {\n      \"note\": [\n        60,\n        62\n      ]\n    }\n  }\n}"
    );
}

#[test]
fn mismatched_tags_are_refused() {
    assert_eq!(convert_mxl_to_json("<a></b>".to_string()), Err(ScoreError::MalformedXml));
}

#[test]
fn empty_text_is_refused() {
    assert_eq!(convert_mxl_to_json("".to_string()), Err(ScoreError::MalformedXml));
}

#[test]
fn text_without_an_element_is_refused() {
    assert_eq!(convert_mxl_to_json("no xml".to_string()), Err(ScoreError::MalformedXml));
}

#[test]
fn score_nested_too_deeply_cannot_be_laid_out() {
    let depth = 200;
    let mut xml = String::new();
    for _ in 0..depth {
        xml.push_str("<a>");
    }
    xml.push_str("1");
    for _ in 0..depth {
        xml.push_str("</a>");
    }
    assert_eq!(convert_mxl_to_json(xml), Err(ScoreError::Json));
}
