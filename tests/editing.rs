use minishell::editor::{
    completion_matches, longest_common_prefix, KeyAction, LineEditor, PROMPT,
};

fn names(v: &[&str]) -> Vec<String> {
    v.iter().map(|s| s.to_string()).collect()
}

fn type_text(ed: &mut LineEditor, s: &str) -> String {
    let mut echo = String::new();
    for b in s.bytes() {
        let r = ed.press(b);
        assert!(matches!(r.action, KeyAction::Continue));
        echo.push_str(&r.echo);
    }
    echo
}

#[test]
fn common_prefix_of_words() {
    assert_eq!(longest_common_prefix(&names(&["flower", "flow", "flight"])), "fl");
    assert_eq!(longest_common_prefix(&names(&["abc"])), "abc");
    assert_eq!(longest_common_prefix(&names(&["abc", "xyz"])), "");
    assert_eq!(longest_common_prefix(&names(&["same", "same"])), "same");
    assert_eq!(longest_common_prefix(&names(&["ab", "abc", "abd"])), "ab");
    assert_eq!(longest_common_prefix(&names(&[])), "");
    assert_eq!(longest_common_prefix(&names(&["\u{e9}t\u{e9}", "\u{e9}tat"])), "\u{e9}t");
}

#[test]
fn matches_are_sorted_and_unique() {
    let m = completion_matches("e", &names(&["env", "echo", "ex", "ls", "env"]));
    assert_eq!(m, vec!["echo", "env", "ex", "exit"]);
}

#[test]
fn matches_include_builtins_and_filter_by_prefix() {
    assert_eq!(completion_matches("ex", &names(&[])), vec!["exit"]);
    assert_eq!(completion_matches("l", &names(&["ls", "less", "cat"])), vec!["less", "ls"]);
    assert!(completion_matches("zz", &names(&["ls"])).is_empty());
    assert_eq!(completion_matches("", &names(&["b"])), vec!["b", "echo", "exit"]);
}

#[test]
fn typing_echoes_and_submits() {
    let mut ed = LineEditor::new();
    assert_eq!(type_text(&mut ed, "ls -l"), "ls -l");
    let r = ed.press(b'\r');
    assert_eq!(r.echo, "\r\n");
    match r.action {
        KeyAction::Submit(line) => assert_eq!(line, "ls -l"),
        _ => panic!(),
    }
}

#[test]
fn backspace_erases_one_char() {
    let mut ed = LineEditor::new();
    type_text(&mut ed, "abc");
    let r = ed.press(0x7f);
    assert_eq!(r.echo, "\x08 \x08");
    let r = ed.press(8);
    assert_eq!(r.echo, "\x08 \x08");
    assert_eq!(ed.line(), "a");
    ed.press(8);
    let r = ed.press(8);
    assert_eq!(r.echo, "");
    assert_eq!(ed.line(), "");
}

#[test]
fn eot_ends_input_only_on_empty_line() {
    let mut ed = LineEditor::new();
    type_text(&mut ed, "x");
    let r = ed.press(4);
    assert!(matches!(r.action, KeyAction::Continue));
    assert_eq!(r.echo, "");
    ed.press(127);
    let r = ed.press(4);
    assert!(matches!(r.action, KeyAction::EndOfInput));
    assert_eq!(r.echo, "\r\n");
}

#[test]
fn other_control_bytes_are_ignored() {
    let mut ed = LineEditor::new();
    for b in [0u8, 1, 27, 200, 0x7e + 2] {
        let r = ed.press(b);
        assert_eq!(r.echo, "");
    }
    assert_eq!(ed.line(), "");
}

#[test]
fn tab_after_space_rings_bell() {
    let mut ed = LineEditor::new();
    type_text(&mut ed, "echo a");
    let r = ed.press(b'\t');
    assert_eq!(r.echo, "\x07");
    assert!(matches!(r.action, KeyAction::Continue));
}

#[test]
fn tab_asks_for_completion() {
    let mut ed = LineEditor::new();
    type_text(&mut ed, "ec");
    let r = ed.press(b'\t');
    assert!(matches!(r.action, KeyAction::Complete));
}

#[test]
fn single_match_completes_with_space() {
    let mut ed = LineEditor::new();
    type_text(&mut ed, "ec");
    let echo = ed.complete_buffer(&names(&[]));
    assert_eq!(echo, "ho ");
    assert_eq!(ed.line(), "echo ");
}

#[test]
fn no_match_rings_bell() {
    let mut ed = LineEditor::new();
    type_text(&mut ed, "qq");
    assert_eq!(ed.complete_buffer(&names(&["ls"])), "\x07");
    assert_eq!(ed.line(), "qq");
}

#[test]
fn common_part_of_matches_is_completed() {
    let mut ed = LineEditor::new();
    type_text(&mut ed, "gi");
    let echo = ed.complete_buffer(&names(&["git-log", "git-lfs"]));
    assert_eq!(echo, "t-l");
    assert_eq!(ed.line(), "git-l");
}

#[test]
fn second_tab_lists_matches() {
    let mut ed = LineEditor::new();
    type_text(&mut ed, "e");
    let n = names(&["env"]);
    assert_eq!(ed.complete_buffer(&n), "\x07");
    let echo = ed.complete_buffer(&n);
    assert_eq!(echo, format!("\r\necho  env  exit\r\n{PROMPT}e"));
    assert_eq!(ed.line(), "e");
    assert_eq!(ed.complete_buffer(&n), "\x07");
}

#[test]
fn typing_between_tabs_resets_listing() {
    let mut ed = LineEditor::new();
    type_text(&mut ed, "e");
    let n = names(&["env"]);
    assert_eq!(ed.complete_buffer(&n), "\x07");
    type_text(&mut ed, "x");
    ed.press(127);
    assert_eq!(ed.complete_buffer(&n), "\x07");
}
