use my_notes::codec::parse_file_content;
use my_notes::store::NoteStore;

#[test]
fn empty_store_renders_the_empty_document() {
    let s = NoteStore::new();
    assert_eq!(s.to_file_content(), "{\n  \"entries\": {}\n}");
}

#[test]
fn one_note_renders_pretty_printed() {
    let mut s = NoteStore::new();
    s.add_note("first note text".to_string());
    assert_eq!(
        s.to_file_content(),
        "{\n  \"entries\": {\n    \"1\": \"first note text\"\n  }\n}"
    );
}

#[test]
fn two_notes_render_comma_separated() {
    let mut s = NoteStore::new();
    s.add_note("a".to_string());
    s.add_note("b".to_string());
    assert_eq!(
        s.to_file_content(),
        "{\n  \"entries\": {\n    \"1\": \"a\",\n    \"2\": \"b\"\n  }\n}"
    );
}

#[test]
fn save_then_load_reproduces_the_mapping() {
    let mut s = NoteStore::new();
    s.add_note("plain".to_string());
    s.add_note("with \"quotes\" and \\ backslash".to_string());
    s.add_note("line\nbreak\tand tab\r".to_string());
    let content = s.to_file_content();
    let loaded = NoteStore::from_file_content(Some(content.as_str()));
    assert_eq!(loaded.pairs(), s.pairs());
}

#[test]
fn missing_file_loads_as_empty_store() {
    let s = NoteStore::from_file_content(None);
    assert!(s.is_empty());
}

#[test]
fn malformed_content_loads_as_empty_store() {
    for bad in [
        "",
        "not json at all",
        "{\"entries\": {\"1\"",
        "{\"entries\": [1, 2]}",
        "{\"other\": {}}",
        "{\"entries\": {\"1\": \"bad \\x escape\"}}",
        "{\"entries\": {}} trailing",
    ] {
        let s = NoteStore::from_file_content(Some(bad));
        assert!(s.is_empty(), "content {:?} should load as empty", bad);
    }
}

#[test]
fn parser_accepts_extra_whitespace() {
    let content = "  {  \"entries\"  :  {  \"1\"  :  \"a\"  ,  \"2\"  :  \"b\"  }  }  ";
    let s = NoteStore::from_file_content(Some(content));
    assert_eq!(
        s.pairs(),
        vec![("1".to_string(), "a".to_string()), ("2".to_string(), "b".to_string())]
    );
}

#[test]
fn parser_unescapes_strings() {
    let content = "{\"entries\": {\"1\": \"a\\\"b\\\\c\\nd\\te\\rf\"}}";
    let ps = parse_file_content(content).expect("document should parse");
    assert_eq!(ps, vec![("1".to_string(), "a\"b\\c\nd\te\rf".to_string())]);
}

#[test]
fn parser_rejects_unknown_escape_and_unclosed_string() {
    assert!(parse_file_content("{\"entries\": {\"1\": \"a\\qb\"}}").is_none());
    assert!(parse_file_content("{\"entries\": {\"1\": \"a}}").is_none());
}

#[test]
fn duplicate_keys_keep_last_value_in_place() {
    let content = "{\"entries\": {\"1\": \"a\", \"2\": \"b\", \"1\": \"c\"}}";
    let s = NoteStore::from_file_content(Some(content));
    assert_eq!(
        s.pairs(),
        vec![("1".to_string(), "c".to_string()), ("2".to_string(), "b".to_string())]
    );
}

#[test]
fn loaded_store_round_trips_again() {
    let content = "{\n  \"entries\": {\n    \"1\": \"x\",\n    \"2\": \"y\"\n  }\n}";
    let s = NoteStore::from_file_content(Some(content));
    assert_eq!(s.to_file_content(), content);
}
