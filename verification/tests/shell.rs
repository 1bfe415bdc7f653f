use stracer::shell::cmdline::{parse_cmdline, split_words, CommandLine, ParseError};
use stracer::shell::continuation::{extend_command, is_white_space, readline, trim};
use stracer::shell::editor::{Key, LineEditor, Output, Pressed};

fn strings(words: &[&str]) -> Vec<String> {
    words.iter().map(|w| w.to_string()).collect()
}

#[test]
fn words_are_the_runs_between_spaces() {
    assert_eq!(split_words("ls -l /tmp"), strings(&["ls", "-l", "/tmp"]));
    assert_eq!(split_words("  a   b "), strings(&["a", "b"]));
    assert_eq!(split_words(""), Vec::<String>::new());
    assert_eq!(split_words("    "), Vec::<String>::new());
    assert_eq!(split_words("one"), strings(&["one"]));
    assert_eq!(split_words("tab\there é"), strings(&["tab\there", "é"]));
}

#[test]
fn words_agree_with_the_standard_split() {
    for line in ["", " ", "a", " a", "a ", "a b", "a  b", " > x", "x>y", "é  ü ", "a\tb c\n"] {
        let expected: Vec<String> =
            line.split(' ').filter(|s| *s != "").map(|s| s.to_string()).collect();
        assert_eq!(split_words(line), expected, "{:?}", line);
    }
}

#[test]
fn command_line_with_arguments() {
    assert_eq!(
        parse_cmdline("ls -l /tmp".to_string()),
        Ok(CommandLine {
            command: Some("ls".to_string()),
            args: Some(strings(&["-l", "/tmp"])),
            redir_fp: None,
        })
    );
    assert_eq!(
        parse_cmdline("pwd".to_string()),
        Ok(CommandLine { command: Some("pwd".to_string()), args: Some(vec![]), redir_fp: None })
    );
}

#[test]
fn command_line_without_words() {
    let empty = CommandLine { command: None, args: None, redir_fp: None };
    assert_eq!(parse_cmdline(String::new()), Ok(empty.clone()));
    assert_eq!(parse_cmdline("   ".to_string()), Ok(empty));
}

#[test]
fn command_line_with_a_redirection() {
    assert_eq!(
        parse_cmdline("echo hi > out.txt".to_string()),
        Ok(CommandLine {
            command: Some("echo".to_string()),
            args: Some(strings(&["hi"])),
            redir_fp: Some("out.txt".to_string()),
        })
    );
    assert_eq!(
        parse_cmdline("echo > out.txt hi there".to_string()),
        Ok(CommandLine {
            command: Some("echo".to_string()),
            args: Some(strings(&["hi", "there"])),
            redir_fp: Some("out.txt".to_string()),
        })
    );
    assert_eq!(
        parse_cmdline("> out.txt".to_string()),
        Ok(CommandLine { command: None, args: None, redir_fp: Some("out.txt".to_string()) })
    );
}

#[test]
fn command_line_with_two_redirections_takes_the_first() {
    assert_eq!(
        parse_cmdline("a > b > c".to_string()),
        Ok(CommandLine {
            command: Some("a".to_string()),
            args: Some(strings(&[">", "c"])),
            redir_fp: Some("b".to_string()),
        })
    );
    assert_eq!(
        parse_cmdline("a > >".to_string()),
        Ok(CommandLine {
            command: Some("a".to_string()),
            args: Some(vec![]),
            redir_fp: Some(">".to_string()),
        })
    );
}

#[test]
fn command_line_with_a_redirection_to_nothing() {
    let error = Err(ParseError("Error: parse error near \\n".to_string()));
    assert_eq!(parse_cmdline("echo hi >".to_string()), error);
    assert_eq!(parse_cmdline(">".to_string()), error);
    assert_eq!(parse_cmdline("a >   ".to_string()), error);
}

#[test]
fn command_line_gives_the_argument_vector() {
    let line = parse_cmdline("grep -r needle . > found".to_string()).unwrap();
    assert_eq!(line.argv(), strings(&["grep", "-r", "needle", "."]));
    assert!(!line.leaves_shell());
    assert!(parse_cmdline("exit".to_string()).unwrap().leaves_shell());
    assert!(parse_cmdline(" quit now".to_string()).unwrap().leaves_shell());
    assert!(!parse_cmdline("quitter".to_string()).unwrap().leaves_shell());
    assert!(!parse_cmdline("".to_string()).unwrap().leaves_shell());
}

#[test]
fn white_space_is_what_the_standard_library_says() {
    for code in 0..=0x10ffffu32 {
        if let Some(c) = char::from_u32(code) {
            assert_eq!(is_white_space(c), c.is_whitespace(), "U+{:04X}", code);
        }
    }
}

#[test]
fn trim_agrees_with_the_standard_trim() {
    let samples = [
        "", " ", "   \t\n", "a", " a", "a ", "  a b  ", "\u{3000}x\u{2003}", "é ", " é", "\\", " \\ ",
        "a\u{a0}", "\u{85}\u{1680}b c\u{2028}\u{2029}",
    ];
    for sample in samples {
        assert_eq!(trim(sample), sample.trim(), "{:?}", sample);
    }
}

#[test]
fn command_goes_on_after_a_backslash() {
    let mut cmd = String::new();
    assert!(!extend_command(&mut cmd, "  echo one \\"));
    assert_eq!(cmd, "echo one ");
    assert!(!extend_command(&mut cmd, "two\\  "));
    assert_eq!(cmd, "echo one two");
    assert!(extend_command(&mut cmd, " three "));
    assert_eq!(cmd, "echo one twothree");
}

#[test]
fn command_of_an_empty_line_is_complete() {
    let mut cmd = "x".to_string();
    assert!(extend_command(&mut cmd, "   "));
    assert_eq!(cmd, "x");
    assert!(!extend_command(&mut cmd, "\\"));
    assert_eq!(cmd, "x");
}

#[test]
fn readline_joins_lines_until_one_ends_the_command() {
    let lines = strings(&["ls \\", "-l \\", "/tmp", "next"]);
    assert_eq!(readline(&lines), ("ls -l /tmp".to_string(), 3));
    assert_eq!(readline(&strings(&["pwd", "ls"])), ("pwd".to_string(), 1));
    assert_eq!(readline(&strings(&["a\\", "b\\"])), ("ab".to_string(), 2));
    assert_eq!(readline(&vec![]), (String::new(), 0));
}

fn write(text: &str) -> Output {
    Output::Write(text.to_string())
}

#[test]
fn editor_takes_characters_at_the_cursor() {
    let mut editor = LineEditor::new(3, 7);
    assert_eq!(
        editor.press(Key::Char('h')),
        Pressed { outputs: vec![write("h"), Output::MoveTo { x: 4, y: 7 }], line: None }
    );
    editor.press(Key::Char('l'));
    editor.press(Key::Char('o'));
    assert_eq!(
        editor.press(Key::Left),
        Pressed { outputs: vec![Output::MoveTo { x: 5, y: 7 }], line: None }
    );
    editor.press(Key::Left);
    assert_eq!(
        editor.press(Key::Char('e')),
        Pressed { outputs: vec![write("elo"), Output::MoveTo { x: 5, y: 7 }], line: None }
    );
    editor.press(Key::Right);
    assert_eq!(
        editor.press(Key::Char('l')),
        Pressed { outputs: vec![write("lo"), Output::MoveTo { x: 7, y: 7 }], line: None }
    );
    assert_eq!(editor.content(), "hello");
    assert_eq!(editor.cursor(), 4);
    assert_eq!(
        editor.press(Key::Char('\n')),
        Pressed { outputs: vec![Output::NewLine], line: Some("hello".to_string()) }
    );
}

#[test]
fn editor_takes_characters_out() {
    let mut editor = LineEditor::new(1, 1);
    for c in "abcd".chars() {
        editor.press(Key::Char(c));
    }
    assert_eq!(
        editor.press(Key::Backspace),
        Pressed {
            outputs: vec![
                Output::MoveTo { x: 4, y: 1 },
                write(""),
                write(" "),
                Output::MoveTo { x: 4, y: 1 },
            ],
            line: None,
        }
    );
    editor.press(Key::Left);
    editor.press(Key::Left);
    assert_eq!(
        editor.press(Key::Delete),
        Pressed { outputs: vec![write("c"), write(" "), Output::MoveTo { x: 2, y: 1 }], line: None }
    );
    assert_eq!(editor.content(), "ac");
    assert_eq!(
        editor.press(Key::Backspace),
        Pressed {
            outputs: vec![
                Output::MoveTo { x: 1, y: 1 },
                write("c"),
                write(" "),
                Output::MoveTo { x: 1, y: 1 },
            ],
            line: None,
        }
    );
    assert_eq!(editor.content(), "c");
    assert_eq!(editor.cursor(), 0);
}

#[test]
fn editor_stays_within_the_line() {
    let nothing = Pressed { outputs: vec![], line: None };
    let mut editor = LineEditor::new(1, 1);
    assert_eq!(editor.press(Key::Left), nothing);
    assert_eq!(editor.press(Key::Right), nothing);
    assert_eq!(editor.press(Key::Backspace), nothing);
    assert_eq!(editor.press(Key::Delete), nothing);
    assert_eq!(editor.press(Key::Other), nothing);
    editor.press(Key::Char('x'));
    assert_eq!(editor.press(Key::Right), nothing);
    assert_eq!(editor.press(Key::Delete), nothing);
    assert_eq!(editor.press(Key::Other), nothing);
    assert_eq!(editor.content(), "x");
}

#[test]
fn editor_knows_when_the_line_is_full() {
    let mut editor = LineEditor::new(u16::MAX - 2, 0);
    assert!(editor.has_room());
    editor.press(Key::Char('a'));
    assert!(editor.has_room());
    assert_eq!(
        editor.press(Key::Char('b')),
        Pressed { outputs: vec![write("b"), Output::MoveTo { x: u16::MAX, y: 0 }], line: None }
    );
    assert!(!editor.has_room());
    assert_eq!(editor.press(Key::Char('\n')).line, Some("ab".to_string()));
}
