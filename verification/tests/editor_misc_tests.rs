use shoe::editor::EditorState;
use shoe::editor::Key;
use shoe::editor::KeyOutcome;
use shoe::history::get_suggestion;
use shoe::history::history_from_text;
use shoe::history::record_history;
use shoe::autocomp::autocomplete_keyword;
use shoe::autocomp::filter_entries;
use shoe::autocomp::select_completion;

fn type_line(ed: &mut EditorState, text: &str, history: &Vec<String>) {
    for c in text.chars() {
        ed.handle_key(Key::Char(c), history);
    }
}

fn input_string(ed: &EditorState) -> String {
    ed.input.iter().collect()
}

#[test]
fn cursor_stays_in_bounds() {
    // the cursor never leaves [0, len] under any key sequence
    let history = vec!["older".to_string(), "newer".to_string()];
    let mut ed = EditorState::new(history.len());
    let keys = [
        Key::Char('a'),
        Key::Left,
        Key::Left,
        Key::Backspace,
        Key::Char('b'),
        Key::End,
        Key::Right,
        Key::Right,
        Key::Up,
        Key::Down,
        Key::Home,
        Key::Delete,
        Key::Up,
        Key::Up,
        Key::Up,
        Key::Down,
        Key::Down,
        Key::Down,
        Key::Esc,
        Key::Right,
    ];
    for k in keys {
        ed.handle_key(k, &history);
        assert!(ed.cursor <= ed.input.len());
    }
}

#[test]
fn editing_inserts_and_deletes() {
    let history: Vec<String> = Vec::new();
    let mut ed = EditorState::new(0);
    type_line(&mut ed, "hxello", &history);
    assert_eq!(input_string(&ed), "hxello");
    // move cursor after the x and erase it
    for _ in 0..4 {
        ed.handle_key(Key::Left, &history);
    }
    ed.handle_key(Key::Backspace, &history);
    assert_eq!(input_string(&ed), "hello");
    assert_eq!(ed.cursor, 1);
}

#[test]
fn history_navigation() {
    let history = vec!["first".to_string(), "second".to_string()];
    let mut ed = EditorState::new(history.len());
    ed.handle_key(Key::Up, &history);
    assert_eq!(input_string(&ed), "second");
    ed.handle_key(Key::Up, &history);
    assert_eq!(input_string(&ed), "first");
    ed.handle_key(Key::Down, &history);
    assert_eq!(input_string(&ed), "second");
    ed.handle_key(Key::Down, &history);
    assert_eq!(input_string(&ed), "");
    assert_eq!(ed.cursor, 0);
}

#[test]
fn right_at_end_expands_suggestion() {
    let history = vec!["echo hello".to_string()];
    let mut ed = EditorState::new(history.len());
    type_line(&mut ed, "echo h", &history);
    ed.handle_key(Key::Right, &history);
    assert_eq!(input_string(&ed), "echo hello");
    assert_eq!(ed.cursor, 10);
}

#[test]
fn suggestion_prefers_newest() {
    let history = vec!["cat a".to_string(), "cat b".to_string()];
    let input: Vec<char> = "cat".chars().collect();
    let s = get_suggestion(&history, &input).expect("a suggestion");
    let s: String = s.iter().collect();
    assert_eq!(s, "cat b");
}

#[test]
fn suggestion_none_for_blank_input() {
    let history = vec!["cat a".to_string()];
    let input: Vec<char> = "  ".chars().collect();
    assert!(get_suggestion(&history, &input).is_none());
}

#[test]
fn history_skips_consecutive_duplicate() {
    // recording the same command twice in a row leaves history unchanged
    let mut history = vec!["ls".to_string()];
    let stored = record_history(&mut history, &"ls".to_string(), true);
    assert!(!stored);
    assert_eq!(history, vec!["ls".to_string()]);
    let stored = record_history(&mut history, &"pwd".to_string(), true);
    assert!(stored);
    assert_eq!(history, vec!["ls".to_string(), "pwd".to_string()]);
    // a non-consecutive repeat is recorded
    let stored = record_history(&mut history, &"ls".to_string(), true);
    assert!(stored);
    assert_eq!(history.len(), 3);
}

#[test]
fn history_respects_allow_flag() {
    let mut history: Vec<String> = Vec::new();
    assert!(!record_history(&mut history, &"ls".to_string(), false));
    assert!(history.is_empty());
}

#[test]
fn history_file_lines() {
    let entries = history_from_text("one\n\ntwo\n   \nthree");
    assert_eq!(entries, vec!["one".to_string(), "two".to_string(), "three".to_string()]);
}

#[test]
fn tab_snapshot_and_cycle() {
    let history: Vec<String> = Vec::new();
    let mut ed = EditorState::new(0);
    type_line(&mut ed, "ech", &history);
    let q = match ed.handle_key(Key::Tab, &history) {
        KeyOutcome::Completion(q) => q,
        KeyOutcome::Handled => panic!("expected a completion query"),
    };
    assert_eq!(q.word, "ech");
    assert_eq!(q.cycle_index, 0);
    assert!(q.is_keyword);
    // apply a completion, then Tab again: the snapshot restores and the cycle advances
    ed.apply_completion(q, Some("echo".to_string()));
    assert_eq!(input_string(&ed), "echo");
    let q2 = match ed.handle_key(Key::Tab, &history) {
        KeyOutcome::Completion(q) => q,
        KeyOutcome::Handled => panic!("expected a completion query"),
    };
    assert_eq!(input_string(&ed), "ech");
    assert_eq!(q2.cycle_index, 1);
    // any other key resets the cycle
    ed.handle_key(Key::End, &history);
    assert!(ed.autocomplete_cycle_index.is_none());
    assert!(ed.last_input_before_autocomplete.is_none());
}

#[test]
fn completion_with_space_is_quoted() {
    let history: Vec<String> = Vec::new();
    let mut ed = EditorState::new(0);
    type_line(&mut ed, "cat my", &history);
    let q = match ed.handle_key(Key::Tab, &history) {
        KeyOutcome::Completion(q) => q,
        KeyOutcome::Handled => panic!("expected a completion query"),
    };
    assert_eq!(q.word, "my");
    assert!(!q.is_keyword);
    ed.apply_completion(q, Some("my file.txt".to_string()));
    assert_eq!(input_string(&ed), "cat \"my file.txt");
}

#[test]
fn tab_cycling_wraps_around() {
    // cycling: index modulo the number of candidates, stable order
    let entries = vec![
        (false, "aa".to_string()),
        (true, "ab".to_string()),
        (false, "ac".to_string()),
    ];
    let valid = filter_entries(&entries, "a", false);
    assert_eq!(valid.len(), 3);
    let picks: Vec<String> =
        (0..7).map(|i| select_completion(&valid, i).unwrap()).collect();
    assert_eq!(picks[0], "aa");
    assert_eq!(picks[1], "ab/");
    assert_eq!(picks[2], "ac");
    // after len presses the cycle returns to the first candidate
    assert_eq!(picks[3], picks[0]);
    assert_eq!(picks[4], picks[1]);
    assert_eq!(picks[6], picks[0]);
}

#[test]
fn filter_entries_case_insensitive_on_windows() {
    let entries = vec![(false, "README".to_string()), (false, "other".to_string())];
    let vs = filter_entries(&entries, "read", true);
    assert_eq!(vs.len(), 1);
    assert_eq!(vs[0].1, "README");
    let vs = filter_entries(&entries, "read", false);
    assert_eq!(vs.len(), 0);
}

#[test]
fn keyword_completion_prefers_path_then_builtin_then_executable() {
    let exes = vec!["zz".to_string(), "zzz-tool".to_string()];
    // a path completion wins outright
    let r = autocomplete_keyword(&"x".to_string(), Some("./xfile".to_string()), &exes);
    assert_eq!(r, Some("./xfile".to_string()));
    // built-ins come before PATH executables
    let r = autocomplete_keyword(&"ec".to_string(), None, &exes);
    assert_eq!(r, Some("echo".to_string()));
    // otherwise the first (shortest) executable wins
    let r = autocomplete_keyword(&"zz".to_string(), None, &exes);
    assert_eq!(r, Some("zz".to_string()));
    // and nothing matches nothing
    let r = autocomplete_keyword(&"qqq".to_string(), None, &exes);
    assert_eq!(r, None);
}
