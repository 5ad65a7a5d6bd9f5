use bf5d::parser::bf5d::{c_comment, parse, parse_checked};
use bf5d::parser::types::{BF5DParseError, JumpType, MoveDirection, Token, UpdateType};

fn chars(s: &str) -> Vec<char> {
    s.chars().collect()
}

#[test]
fn token_from_each_instruction_character() {
    assert_eq!(Token::from('<'), Ok(Token::Move(MoveDirection::Left)));
    assert_eq!(Token::from('>'), Ok(Token::Move(MoveDirection::Right)));
    assert_eq!(Token::from('^'), Ok(Token::Move(MoveDirection::Up)));
    assert_eq!(Token::from('v'), Ok(Token::Move(MoveDirection::Down)));
    assert_eq!(Token::from('+'), Ok(Token::Update(UpdateType::Increment)));
    assert_eq!(Token::from('-'), Ok(Token::Update(UpdateType::Decrement)));
    assert_eq!(Token::from('['), Ok(Token::Jump { type_: JumpType::IfZero, index: 0 }));
    assert_eq!(Token::from(']'), Ok(Token::Jump { type_: JumpType::IfNotZero, index: 0 }));
    assert_eq!(Token::from('.'), Ok(Token::Write));
    assert_eq!(Token::from(','), Ok(Token::Read));
    assert_eq!(Token::from('~'), Ok(Token::Rewind));
    assert_eq!(Token::from('('), Ok(Token::Spawn { index: 0 }));
    assert_eq!(Token::from(')'), Ok(Token::Kill));
    assert_eq!(Token::from('@'), Ok(Token::Await));
}

#[test]
fn token_from_other_characters() {
    assert_eq!(Token::from('x'), Err(()));
    assert_eq!(Token::from('V'), Err(()));
    assert_eq!(Token::from('/'), Err(()));
    assert_eq!(Token::from(' '), Err(()));
    assert_eq!(Token::from('é'), Err(()));
}

#[test]
fn parse_error_new_keeps_message_and_location() {
    let e = BF5DParseError::new("unmatched bracket", 7);
    assert_eq!(e.message(), "unmatched bracket");
    assert_eq!(e.location(), 7);
    assert_eq!(e, BF5DParseError::new("unmatched bracket", 7));
}

#[test]
fn c_comment_block() {
    let s = chars("a/* x */b");
    assert_eq!(c_comment(&s, 1), Some(8));
    assert_eq!(c_comment(&s, 0), None);
    // the first `*/` closes the comment
    let s = chars("/* */ */");
    assert_eq!(c_comment(&s, 0), Some(5));
    // `/*/` is no comment: the search for `*/` starts after the opening
    let s = chars("/*/");
    assert_eq!(c_comment(&s, 0), None);
    // an unterminated block comment is no comment
    let s = chars("/* +");
    assert_eq!(c_comment(&s, 0), None);
    // an empty block comment
    let s = chars("/**/");
    assert_eq!(c_comment(&s, 0), Some(4));
}

#[test]
fn c_comment_line() {
    let s = chars("// abc\n+");
    assert_eq!(c_comment(&s, 0), Some(6));
    let s = chars("//x\r\n");
    assert_eq!(c_comment(&s, 0), Some(3));
    let s = chars("//abc");
    assert_eq!(c_comment(&s, 0), Some(5));
    // a line comment needs at least one character after `//`
    let s = chars("//\n");
    assert_eq!(c_comment(&s, 0), None);
    let s = chars("//");
    assert_eq!(c_comment(&s, 0), None);
    // out of range
    assert_eq!(c_comment(&s, 5), None);
}

#[test]
fn parse_plain_program() {
    let r = parse("+-<>^v.,~@").unwrap();
    assert_eq!(
        r,
        vec![
            Token::Update(UpdateType::Increment),
            Token::Update(UpdateType::Decrement),
            Token::Move(MoveDirection::Left),
            Token::Move(MoveDirection::Right),
            Token::Move(MoveDirection::Up),
            Token::Move(MoveDirection::Down),
            Token::Write,
            Token::Read,
            Token::Rewind,
            Token::Await,
        ]
    );
}

#[test]
fn parse_empty_program() {
    assert_eq!(parse("").unwrap(), vec![]);
    assert_eq!(parse("hello world").unwrap(), vec![]);
}

#[test]
fn parse_links_brackets() {
    let r = parse("[+]").unwrap();
    assert_eq!(
        r,
        vec![
            Token::Jump { type_: JumpType::IfZero, index: 2 },
            Token::Update(UpdateType::Increment),
            Token::Jump { type_: JumpType::IfNotZero, index: 0 },
        ]
    );
}

#[test]
fn parse_links_nested_brackets() {
    let r = parse("[[]-]").unwrap();
    assert_eq!(
        r,
        vec![
            Token::Jump { type_: JumpType::IfZero, index: 4 },
            Token::Jump { type_: JumpType::IfZero, index: 2 },
            Token::Jump { type_: JumpType::IfNotZero, index: 1 },
            Token::Update(UpdateType::Decrement),
            Token::Jump { type_: JumpType::IfNotZero, index: 0 },
        ]
    );
}

#[test]
fn parse_links_parentheses() {
    let r = parse("(>^)@-[>,.<]").unwrap();
    assert_eq!(
        r,
        vec![
            Token::Spawn { index: 3 },
            Token::Move(MoveDirection::Right),
            Token::Move(MoveDirection::Up),
            Token::Kill,
            Token::Await,
            Token::Update(UpdateType::Decrement),
            Token::Jump { type_: JumpType::IfZero, index: 11 },
            Token::Move(MoveDirection::Right),
            Token::Read,
            Token::Write,
            Token::Move(MoveDirection::Left),
            Token::Jump { type_: JumpType::IfNotZero, index: 6 },
        ]
    );
}

#[test]
fn parse_skips_comments() {
    assert_eq!(parse("/* + */-").unwrap(), vec![Token::Update(UpdateType::Decrement)]);
    assert_eq!(parse("// ++\n-").unwrap(), vec![Token::Update(UpdateType::Decrement)]);
    assert_eq!(parse("-// [[[").unwrap(), vec![Token::Update(UpdateType::Decrement)]);
    // `//` at the end of a line is no comment: the next line counts
    assert_eq!(parse("//\n+").unwrap(), vec![Token::Update(UpdateType::Increment)]);
    // an unterminated block comment is no comment: what follows counts
    assert_eq!(parse("/*+").unwrap(), vec![Token::Update(UpdateType::Increment)]);
    // indices count instructions, not characters
    assert_eq!(
        parse("[ /* ] */ + ]").unwrap(),
        vec![
            Token::Jump { type_: JumpType::IfZero, index: 2 },
            Token::Update(UpdateType::Increment),
            Token::Jump { type_: JumpType::IfNotZero, index: 0 },
        ]
    );
}

#[test]
fn parse_unmatched_open_parenthesis() {
    let e = parse("((").unwrap_err();
    assert_eq!(e, BF5DParseError::new("unmatched parentheses", 1));
    let e = parse("+(()").unwrap_err();
    assert_eq!(e.message(), "unmatched parentheses");
    assert_eq!(e.location(), 1);
    // a `[` left open as well: still the parenthesis error
    let e = parse("[(").unwrap_err();
    assert_eq!(e, BF5DParseError::new("unmatched parentheses", 1));
}

#[test]
fn parse_checked_reports_panicking_inputs() {
    assert!(parse_checked("]").is_none());
    assert!(parse_checked("+)").is_none());
    assert!(parse_checked("[").is_none());
    assert!(parse_checked("[]]").is_none());
    assert_eq!(
        parse_checked("(").unwrap().unwrap_err(),
        BF5DParseError::new("unmatched parentheses", 0)
    );
    assert_eq!(parse_checked("+").unwrap().unwrap(), vec![Token::Update(UpdateType::Increment)]);
}

#[test]
fn law_parse_links_partners_on_example() {
    let r = parse("[(+[-])]@(.)").unwrap();
    for (k, t) in r.iter().enumerate() {
        match *t {
            Token::Jump { type_: JumpType::IfZero, index } => {
                assert!(index > k);
                assert_eq!(r[index], Token::Jump { type_: JumpType::IfNotZero, index: k });
            }
            Token::Jump { type_: JumpType::IfNotZero, index } => {
                assert!(index < k);
                assert_eq!(r[index], Token::Jump { type_: JumpType::IfZero, index: k });
            }
            Token::Spawn { index } => {
                assert!(index > k);
                assert_eq!(r[index], Token::Kill);
            }
            Token::Kill => {
                assert!(r[..k].contains(&Token::Spawn { index: k }));
            }
            _ => {}
        }
    }
    let partners: Vec<usize> = r
        .iter()
        .filter_map(|t| match t {
            Token::Spawn { index } => Some(*index),
            _ => None,
        })
        .collect();
    assert_eq!(partners, vec![6, 11]);
}

#[test]
fn law_parse_keeps_instructions_on_example() {
    let r = parse("a[b(c)d]e").unwrap();
    assert_eq!(r.len(), 4);
    assert!(matches!(r[0], Token::Jump { type_: JumpType::IfZero, .. }));
    assert!(matches!(r[1], Token::Spawn { .. }));
    assert_eq!(r[2], Token::Kill);
    assert!(matches!(r[3], Token::Jump { type_: JumpType::IfNotZero, .. }));
}
