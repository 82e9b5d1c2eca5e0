use city_assets::lexer::{parse_i32, Arg, CommandType, Parser, ParserError, Statement, ToArg};
use city_assets::scan::{split_lines, split_words, trim};

#[test]
fn command_with_arguments() {
    match Parser::parse_line("#? head 1 two -3") {
        Ok(Statement::Command(CommandType::Head, args)) => {
            assert_eq!(args.len(), 3);
            assert!(matches!(args[0], Arg::Num(1)));
            assert!(matches!(args[1], Arg::Str("two")));
            assert!(matches!(args[2], Arg::Num(-3)));
        }
        other => panic!("unexpected {other:?}"),
    }
}

#[test]
fn command_errors() {
    assert!(matches!(Parser::parse_line("#?"), Err(ParserError::NoInput)));
    assert!(matches!(Parser::parse_line("#? jump 1"), Err(ParserError::InvalidCommand)));
    assert!(matches!(
        Parser::parse_line("a\nb"),
        Err(ParserError::InvalidLineAmount { expected: 1, got: 2 })
    ));
    assert!(matches!(
        Parser::parse_line(""),
        Err(ParserError::InvalidLineAmount { expected: 1, got: 0 })
    ));
}

#[test]
fn text_lines_are_trimmed() {
    assert!(matches!(Parser::parse_line("  hello world \t"), Ok(Statement::Text("hello world"))));
}

#[test]
fn file_skips_blank_lines() {
    let parsed = Parser::parse_file("\n  #? align -5\r\n\n plain text \n#? define_layout x\n").unwrap();
    assert_eq!(parsed.len(), 3);
    assert!(matches!(&parsed[0], Statement::Command(CommandType::Align, a) if matches!(a[0], Arg::Num(-5))));
    assert!(matches!(parsed[1], Statement::Text("plain text")));
    assert!(matches!(&parsed[2], Statement::Command(CommandType::DefineLayout, _)));
    assert!(matches!(Parser::parse_file("ok\n#? nope\n#?"), Err(ParserError::InvalidCommand)));
}

#[test]
fn integers_parse_like_std() {
    assert_eq!(parse_i32("+7"), Some(7));
    assert_eq!(parse_i32("-2147483648"), Some(i32::MIN));
    assert_eq!(parse_i32("2147483647"), Some(i32::MAX));
    assert_eq!(parse_i32("2147483648"), None);
    assert_eq!(parse_i32("00012"), Some(12));
    assert_eq!(parse_i32(""), None);
    assert_eq!(parse_i32("-"), None);
    assert_eq!(parse_i32("1a"), None);
    assert!(matches!("12".to_arg(), Arg::Num(12)));
    assert!(matches!("x1".to_arg(), Arg::Str("x1")));
    assert_eq!("align".parse::<CommandType>().unwrap(), CommandType::Align);
}

#[test]
fn words_lines_and_trim() {
    assert_eq!(split_words("  a bc\td  "), vec!["a", "bc", "d"]);
    assert_eq!(split_lines("a\r\nb\n\nc"), vec!["a", "b", "", "c"]);
    assert_eq!(split_lines("a\n"), vec!["a"]);
    assert!(split_lines("").is_empty());
    assert_eq!(trim("\u{a0} x y \n"), "x y");
}
