use pk::commands::{
    AliasListArg, Command, Commands, ConsoleArg, DeleteArg, RegisterArg, RemoveArg, RenameArg,
    Request, RunArg,
};
use pk::input::{get_input_num, parse_usize, InputError};
use pk::text::{same_text, split_lines, split_once};

#[test]
fn lines_as_str_lines_gives_them() {
    for text in ["a\nb\r\nc", "a\n", "", "a\r", "\n", "\n\n", "x\r\ny\r\n", "a\rb\n", "é\nü"] {
        let expected: Vec<String> = text.lines().map(|l| l.to_string()).collect();
        assert_eq!(split_lines(text), expected, "text {:?}", text);
    }
}

#[test]
fn split_once_matches_std() {
    for (text, pat) in [("a:b:c", ":"), ("abc", ":"), ("xpk_ypk_z", "pk_"), ("", ":"), ("ab", "")] {
        assert_eq!(split_once(text, pat), text.split_once(pat), "text {:?}", text);
    }
    assert!(same_text("ab", "ab"));
    assert!(!same_text("ab", "abc"));
}

#[test]
fn numbers_parse_as_std_does() {
    for text in ["42", "+7", "", "+", "-1", "12a", "0", "007", " 1", "١", "18446744073709551615", "18446744073709551616", "99999999999999999999999"] {
        assert_eq!(parse_usize(text), text.parse::<usize>().ok(), "text {:?}", text);
    }
}

#[test]
fn entered_number() {
    assert_eq!(get_input_num("3"), Ok(3));
    assert_eq!(get_input_num("0"), Err(InputError::Exit));
    assert_eq!(get_input_num("three"), Err(InputError::Invalid));
    assert_eq!(get_input_num(""), Err(InputError::Invalid));
}

#[test]
fn commands_ask_for_their_work() {
    let register = Commands::Register(RegisterArg { path: "/p".to_string(), alias: "a".to_string() });
    assert_eq!(register.run(), Request::Register { alias: "a".to_string(), path: "/p".to_string() });
    let rename = Commands::Rename(RenameArg { old_alias: "a".to_string(), new_alias: "b".to_string() });
    assert_eq!(rename.run(), Request::Rename { old_alias: "a".to_string(), new_alias: "b".to_string() });
    assert_eq!(
        Commands::Delete(DeleteArg { alias: "a".to_string() }).run(),
        Request::Delete { alias: "a".to_string() }
    );
    assert_eq!(Commands::List(AliasListArg {}).run(), Request::List);
    assert_eq!(Commands::Remove(RemoveArg { all: true }).run(), Request::RemoveAllAliasFiles);
    assert_eq!(Commands::Remove(RemoveArg { all: false }).run(), Request::RemoveAliasFile);
    assert_eq!(
        ConsoleArg { alias: Some("w".to_string()) }.execute(),
        Request::AttachSession { alias: "w".to_string() }
    );
    assert_eq!(ConsoleArg { alias: None }.execute(), Request::AttachInteractive);
    assert_eq!(RunArg { alias: Some("w".to_string()) }.execute(), Request::Run { alias: "w".to_string() });
    assert_eq!(RunArg { alias: None }.execute(), Request::RunInteractive);
}
