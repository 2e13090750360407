use my_notes::command::{render_listing, Command};
use my_notes::registry::{Registry, RemoveOutcome};
use my_notes::store::NoteStore;
use my_notes::text::{
    parse_answer, pointer_file_content, resolve_current_space, space_file_name, space_names, trim,
    Answer,
};

fn args(list: &[&str]) -> Vec<String> {
    list.iter().map(|s| s.to_string()).collect()
}

#[test]
fn parse_note_commands() {
    assert!(matches!(Command::parse(&args(&["prog", "list"])), Command::ShowList));
    assert!(matches!(Command::parse(&args(&["prog", "ls"])), Command::ShowList));
    match Command::parse(&args(&["prog", "add", "hello world"])) {
        Command::AddNote(t) => assert_eq!(t, "hello world"),
        _ => panic!("expected AddNote"),
    }
    match Command::parse(&args(&["prog", "delete", "2"])) {
        Command::DeleteNote(k) => assert_eq!(k, "2"),
        _ => panic!("expected DeleteNote"),
    }
    assert!(matches!(Command::parse(&args(&["prog", "del", "1"])), Command::DeleteNote(_)));
    assert!(matches!(Command::parse(&args(&["prog", "rm", "1"])), Command::DeleteNote(_)));
    match Command::parse(&args(&["prog", "edit", "3"])) {
        Command::EditNote(k) => assert_eq!(k, "3"),
        _ => panic!("expected EditNote"),
    }
    assert!(matches!(Command::parse(&args(&["prog", "ed", "3"])), Command::EditNote(_)));
    match Command::parse(&args(&["prog", "swap", "1", "2"])) {
        Command::SwapNotes(a, b) => {
            assert_eq!(a, "1");
            assert_eq!(b, "2");
        },
        _ => panic!("expected SwapNotes"),
    }
    assert!(matches!(Command::parse(&args(&["prog", "clear"])), Command::ClearNotes));
    assert!(matches!(Command::parse(&args(&["prog", "cl"])), Command::ClearNotes));
}

#[test]
fn parse_space_commands() {
    match Command::parse(&args(&["prog", "cd", "work"])) {
        Command::SwitchSpace(n) => assert_eq!(n, "work"),
        _ => panic!("expected SwitchSpace"),
    }
    assert!(matches!(Command::parse(&args(&["prog", "spaces", "list"])), Command::SpacesList));
    match Command::parse(&args(&["prog", "spaces", "add", "work"])) {
        Command::SpaceAdd(n) => assert_eq!(n, "work"),
        _ => panic!("expected SpaceAdd"),
    }
    match Command::parse(&args(&["prog", "spaces", "rm", "work"])) {
        Command::SpaceRemove(n) => assert_eq!(n, "work"),
        _ => panic!("expected SpaceRemove"),
    }
    match Command::parse(&args(&["prog", "spaces", "use", "work"])) {
        Command::SpaceUse(n) => assert_eq!(n, "work"),
        _ => panic!("expected SpaceUse"),
    }
}

#[test]
fn parse_reports_missing_and_unknown() {
    assert!(matches!(Command::parse(&args(&["prog"])), Command::NoCommand));
    assert!(matches!(Command::parse(&args(&["prog", "add"])), Command::UsageAdd));
    assert!(matches!(Command::parse(&args(&["prog", "delete"])), Command::UsageDelete));
    assert!(matches!(Command::parse(&args(&["prog", "edit"])), Command::UsageEdit));
    assert!(matches!(Command::parse(&args(&["prog", "swap", "1"])), Command::UsageSwap));
    assert!(matches!(Command::parse(&args(&["prog", "cd"])), Command::UsageCd));
    assert!(matches!(Command::parse(&args(&["prog", "spaces"])), Command::UsageSpaces));
    assert!(matches!(Command::parse(&args(&["prog", "spaces", "add"])), Command::UsageSpaces));
    assert!(matches!(Command::parse(&args(&["prog", "spaces", "what"])), Command::UsageSpaces));
    match Command::parse(&args(&["prog", "frobnicate"])) {
        Command::UnknownCommand(c) => assert_eq!(c, "frobnicate"),
        _ => panic!("expected UnknownCommand"),
    }
}

#[test]
fn listing_renders_space_and_notes() {
    let mut s = NoteStore::new();
    s.add_note("first".to_string());
    s.add_note("second".to_string());
    let lines = render_listing(&s, "default");
    assert_eq!(lines, vec!["[default]", "1: first", "2: second"]);
}

#[test]
fn listing_of_empty_store_says_no_notes() {
    let s = NoteStore::new();
    let lines = render_listing(&s, "work");
    assert_eq!(lines, vec!["[work]", "No notes found"]);
}

#[test]
fn confirmation_answers() {
    assert!(matches!(parse_answer("y"), Answer::Yes));
    assert!(matches!(parse_answer("yes"), Answer::Yes));
    assert!(matches!(parse_answer("  YES \n"), Answer::Yes));
    assert!(matches!(parse_answer("Y"), Answer::Yes));
    assert!(matches!(parse_answer("n"), Answer::No));
    assert!(matches!(parse_answer("No"), Answer::No));
    assert!(matches!(parse_answer("maybe"), Answer::Other));
    assert!(matches!(parse_answer(""), Answer::Other));
}

#[test]
fn clear_is_applied_only_on_yes() {
    let mut s = NoteStore::new();
    s.add_note("keep me".to_string());
    // input "n": the dispatcher leaves the store alone
    if matches!(parse_answer("n"), Answer::Yes) {
        s.clear_notes();
    }
    assert_eq!(s.len(), 1);
    // input "y": the dispatcher empties the store
    if matches!(parse_answer("y"), Answer::Yes) {
        s.clear_notes();
    }
    assert!(s.is_empty());
}

#[test]
fn switch_requires_an_existing_space() {
    let mut r = Registry::from_pointer(None);
    assert_eq!(r.current(), "default");
    let ok = r.switch("work", false);
    assert!(!ok);
    assert_eq!(r.current(), "default");
    let ok = r.switch("work", true);
    assert!(ok);
    assert_eq!(r.current(), "work");
}

#[test]
fn create_switches_on_success_only() {
    let mut r = Registry::from_pointer(None);
    assert!(!r.create("work", false));
    assert_eq!(r.current(), "default");
    assert!(r.create("work", true));
    assert_eq!(r.current(), "work");
}

#[test]
fn remove_resets_current_to_default() {
    let mut r = Registry::from_pointer(None);
    r.switch("work", true);
    let outcome = r.remove(parse_answer("y"), true);
    assert!(matches!(outcome, RemoveOutcome::Removed));
    assert_eq!(r.current(), "default");
}

#[test]
fn remove_aborts_without_confirmation() {
    let mut r = Registry::from_pointer(None);
    r.switch("work", true);
    let outcome = r.remove(parse_answer("n"), false);
    assert!(matches!(outcome, RemoveOutcome::Aborted));
    assert_eq!(r.current(), "work");
    let outcome = r.remove(parse_answer("y"), false);
    assert!(matches!(outcome, RemoveOutcome::Failed));
    assert_eq!(r.current(), "work");
}

#[test]
fn pointer_file_reading_and_writing() {
    assert_eq!(resolve_current_space(None), "default");
    assert_eq!(resolve_current_space(Some(&"work\n".to_string())), "work");
    assert_eq!(resolve_current_space(Some(&"  side  ".to_string())), "side");
    assert_eq!(pointer_file_content("work"), "work\n");
}

#[test]
fn space_file_names_and_stems() {
    assert_eq!(space_file_name("work"), "work.json");
    let files = vec![
        "default.json".to_string(),
        "notes.txt".to_string(),
        "work.json".to_string(),
        ".json".to_string(),
    ];
    assert_eq!(space_names(&files), vec!["default", "work", ""]);
}

#[test]
fn trim_strips_both_ends() {
    assert_eq!(trim("  a b \n"), "a b");
    assert_eq!(trim("\t\r\n "), "");
    assert_eq!(trim(""), "");
    assert_eq!(trim("plain"), "plain");
}
