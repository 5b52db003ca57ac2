use silent::command::{parse_command, Command};
use silent::text::{chars_of, trim_chars, words_of, split_chars};

#[test]
fn commands_are_read_by_their_first_word() {
    assert_eq!(parse_command("add bob\n"), Command::Add("bob".to_string()));
    assert_eq!(parse_command("  remove   bob  "), Command::Remove("bob".to_string()));
    assert_eq!(parse_command("list"), Command::List);
    assert_eq!(parse_command("list everything"), Command::List);
    assert_eq!(parse_command("exit"), Command::Exit);
    assert_eq!(parse_command("hello"), Command::Unknown);
    assert_eq!(parse_command("ADD bob"), Command::Unknown);
}

#[test]
fn add_and_remove_need_exactly_one_name() {
    assert_eq!(parse_command("add"), Command::AddWithoutName);
    assert_eq!(parse_command("add bob carl"), Command::AddWithoutName);
    assert_eq!(parse_command("remove"), Command::RemoveWithoutName);
    assert_eq!(parse_command("remove a b"), Command::RemoveWithoutName);
}

#[test]
fn blank_lines_ask_for_nothing() {
    assert_eq!(parse_command(""), Command::Nothing);
    assert_eq!(parse_command("   \t \n"), Command::Nothing);
    assert_eq!(parse_command("\u{3000}"), Command::Nothing);
}

#[test]
fn text_helpers_follow_std() {
    for s in ["", " a ", "\t\nab c\u{a0}", "x", "  ", "a:b::c:", "\u{2003}mid dle\u{2028}"] {
        let cs = chars_of(s);
        let t: String = trim_chars(&cs).into_iter().collect();
        assert_eq!(t, s.trim());
        let w: Vec<String> = words_of(&cs).into_iter().map(|w| w.into_iter().collect()).collect();
        let expected: Vec<String> = s.split_whitespace().map(|w| w.to_string()).collect();
        assert_eq!(w, expected);
        let p: Vec<String> = split_chars(&cs, ':').into_iter().map(|w| w.into_iter().collect()).collect();
        let expected: Vec<String> = s.split(':').map(|w| w.to_string()).collect();
        assert_eq!(p, expected);
    }
}
