use khaos_control::command::{parse_command, separates, Command, Kind, Token};
use khaos_control::decimal::{chars_of, push_decimal, read_number};
use khaos_control::directory::{resolve, Participant};
use khaos_control::keys::{nominee_of_key, nominee_pattern, nominees_of_keys, Key};

fn decimal(n: u64) -> String {
    let mut text = String::new();
    push_decimal(&mut text, n);
    text
}

fn number(text: &str) -> Option<u64> {
    let chars = chars_of(text);
    read_number(&chars, 0, chars.len())
}

#[test]
fn decimal_writes_the_shortest_numeral() {
    assert_eq!(decimal(0), "0");
    assert_eq!(decimal(7), "7");
    assert_eq!(decimal(10), "10");
    assert_eq!(decimal(1_700_000_000), "1700000000");
    assert_eq!(decimal(u64::MAX), "18446744073709551615");
}

#[test]
fn decimal_appends_to_what_is_there() {
    let mut text = String::from("n=");
    push_decimal(&mut text, 42);
    assert_eq!(text, "n=42");
}

#[test]
fn numbers_are_read_back() {
    for n in [0, 1, 9, 10, 99, 100, 12345, u64::MAX - 1, u64::MAX] {
        assert_eq!(number(&decimal(n)), Some(n));
    }
}

#[test]
fn only_the_shortest_numeral_is_a_number() {
    assert_eq!(number(""), None);
    assert_eq!(number("00"), None);
    assert_eq!(number("07"), None);
    assert_eq!(number("+7"), None);
    assert_eq!(number("-7"), None);
    assert_eq!(number("7 "), None);
    assert_eq!(number("1_000"), None);
    assert_eq!(number("12a"), None);
    assert_eq!(number("\u{0661}"), None);
    assert_eq!(number("18446744073709551616"), None);
    assert_eq!(number("99999999999999999999999"), None);
    assert_eq!(number("0"), Some(0));
}

#[test]
fn a_number_is_read_from_the_middle_of_a_text() {
    let chars = chars_of("a:12:b");
    assert_eq!(read_number(&chars, 2, 4), Some(12));
    assert_eq!(read_number(&chars, 2, 5), None);
    assert_eq!(read_number(&chars, 2, 2), None);
}

#[test]
fn chars_are_characters_not_bytes() {
    assert_eq!(chars_of("h\u{e9}!"), vec!['h', '\u{e9}', '!']);
    assert_eq!(chars_of(""), Vec::<char>::new());
}

#[test]
fn keys_follow_the_namespace() {
    assert_eq!(Key::Nominee { cycle: 1700000000, nominee: 42 }.render(), "nominee:1700000000:42");
    assert_eq!(Key::Since { cycle: 14, nominee: 3 }.render(), "since:14:3");
    assert_eq!(Key::Nominated { cycle: 14, actor: 9 }.render(), "nominated:14:9");
    assert_eq!(Key::Voted { cycle: 1700000000, actor: 7 }.render(), "voted:1700000000:7");
    assert_eq!(Key::Tally { cycle: 0, nominee: 0 }.render(), "tally:0:0");
    assert_eq!(Key::Finalized { cycle: 1700000000 }.render(), "finalized:1700000000");
    assert_eq!(nominee_pattern(1700000000), "nominee:1700000000:*");
}

#[test]
fn nominee_keys_are_read_back() {
    assert_eq!(nominee_of_key(14, "nominee:14:3"), Some(3));
    assert_eq!(nominee_of_key(14, &Key::Nominee { cycle: 14, nominee: u64::MAX }.render()), Some(u64::MAX));
    assert_eq!(nominee_of_key(14, "nominee:15:3"), None);
    assert_eq!(nominee_of_key(14, "nominee:14:"), None);
    assert_eq!(nominee_of_key(14, "nominee:14:03"), None);
    assert_eq!(nominee_of_key(14, "nominee:14:3:4"), None);
    assert_eq!(nominee_of_key(14, "nominee:14"), None);
    assert_eq!(nominee_of_key(14, "tally:14:3"), None);
    assert_eq!(nominee_of_key(14, "nominated:14:3"), None);
    assert_eq!(nominee_of_key(14, ""), None);
    assert_eq!(nominee_of_key(1, "nominee:14:3"), None);
}

#[test]
fn nominees_are_taken_from_the_keys_that_name_one() {
    let keys = vec![
        "nominee:14:3".to_string(),
        "voted:14:9".to_string(),
        "nominee:14:1".to_string(),
        "nominee:28:5".to_string(),
        "nominee:14:x".to_string(),
    ];
    assert_eq!(nominees_of_keys(14, &keys), vec![3, 1]);
    assert_eq!(nominees_of_keys(28, &keys), vec![5]);
    assert_eq!(nominees_of_keys(14, &Vec::new()), Vec::<u64>::new());
}

#[test]
fn white_space_separates_words() {
    for c in [' ', '\t', '\n', '\r', '\u{0b}', '\u{0c}', '\u{85}', '\u{a0}', '\u{1680}', '\u{2000}',
        '\u{200a}', '\u{2028}', '\u{2029}', '\u{202f}', '\u{205f}', '\u{3000}'] {
        assert!(separates(c));
        assert!(c.is_whitespace());
    }
    for c in ['a', '0', '<', '\u{08}', '\u{0e}', '\u{1f}', '\u{200b}', '\u{feff}', '\u{180e}', '\u{2060}'] {
        assert!(!separates(c));
        assert!(!c.is_whitespace());
    }
}

#[test]
fn separators_are_those_of_the_standard_library() {
    let mut code: u32 = 0;
    while code <= 0x11000 {
        if let Some(c) = char::from_u32(code) {
            assert_eq!(separates(c), c.is_whitespace());
        }
        code += 1;
    }
}

#[test]
fn commands_are_taken_from_the_text() {
    assert_eq!(
        parse_command("!", "!nominate <@42>"),
        Some(Command { kind: Kind::Nominate, target: "<@42>".to_string() })
    );
    assert_eq!(
        parse_command("!", "!vote alice"),
        Some(Command { kind: Kind::Vote, target: "alice".to_string() })
    );
    assert_eq!(
        parse_command("k!", "k!  vote \t alice  and more"),
        Some(Command { kind: Kind::Vote, target: "alice".to_string() })
    );
    assert_eq!(
        parse_command("", "nominate\u{3000}b\u{f6}b\n"),
        Some(Command { kind: Kind::Nominate, target: "b\u{f6}b".to_string() })
    );
}

#[test]
fn other_texts_carry_no_command() {
    assert_eq!(parse_command("!", "nominate alice"), None);
    assert_eq!(parse_command("!", "?nominate alice"), None);
    assert_eq!(parse_command("!", ""), None);
    assert_eq!(parse_command("!", "!"), None);
    assert_eq!(parse_command("!", "!   "), None);
    assert_eq!(parse_command("!", "!nominate"), None);
    assert_eq!(parse_command("!", "!vote   "), None);
    assert_eq!(parse_command("!", "!elect alice"), None);
    assert_eq!(parse_command("!", "!Nominate alice"), None);
    assert_eq!(parse_command("!", "!nominatealice"), None);
    assert_eq!(parse_command("!", "!votes alice"), None);
    assert_eq!(parse_command("!!", "!vote alice"), None);
    assert_eq!(parse_command("longer than the text", "short"), None);
}

#[test]
fn mentions_name_an_identity() {
    assert_eq!(Token::parse("<@42>"), Some(Token::Mention(42)));
    assert_eq!(Token::parse("<@18446744073709551615>"), Some(Token::Mention(u64::MAX)));
    assert_eq!(Token::parse("<@+42>"), Some(Token::Mention(42)));
    assert_eq!(Token::parse("<@007>"), Some(Token::Mention(7)));
}

#[test]
fn a_mention_without_an_identity_names_nothing() {
    assert_eq!(Token::parse("<@>"), None);
    assert_eq!(Token::parse("<@0>"), None);
    assert_eq!(Token::parse("<@000>"), None);
    assert_eq!(Token::parse("<@+>"), None);
    assert_eq!(Token::parse("<@-1>"), None);
    assert_eq!(Token::parse("<@!42>"), None);
    assert_eq!(Token::parse("<@4 2>"), None);
    assert_eq!(Token::parse("<@++42>"), None);
    assert_eq!(Token::parse("<@alice>"), None);
    assert_eq!(Token::parse("<@18446744073709551616>"), None);
    assert_eq!(Token::parse("<@\u{0664}\u{0662}>"), None);
}

#[test]
fn any_other_word_is_a_name() {
    assert_eq!(Token::parse("alice"), Some(Token::Name("alice".to_string())));
    assert_eq!(Token::parse("42"), Some(Token::Name("42".to_string())));
    assert_eq!(Token::parse("<@42"), Some(Token::Name("<@42".to_string())));
    assert_eq!(Token::parse("@42>"), Some(Token::Name("@42>".to_string())));
    assert_eq!(Token::parse("<@"), Some(Token::Name("<@".to_string())));
    assert_eq!(Token::parse(""), Some(Token::Name(String::new())));
    assert_eq!(Token::parse("b\u{f6}b"), Some(Token::Name("b\u{f6}b".to_string())));
}

fn community() -> Vec<Participant> {
    vec![
        Participant { id: 1001, name: "alice".to_string() },
        Participant { id: 1002, name: "bob".to_string() },
        Participant { id: 1003, name: "alice".to_string() },
        Participant { id: 1002, name: "robert".to_string() },
    ]
}

#[test]
fn tokens_resolve_to_the_first_match() {
    let members = community();
    assert_eq!(resolve(&Token::Mention(1002), &members), Some(1002));
    assert_eq!(resolve(&Token::Name("alice".to_string()), &members), Some(1001));
    assert_eq!(resolve(&Token::Name("robert".to_string()), &members), Some(1002));
    assert_eq!(resolve(&Token::Mention(1003), &members), Some(1003));
}

#[test]
fn tokens_that_match_nobody_resolve_to_nothing() {
    let members = community();
    assert_eq!(resolve(&Token::Mention(7), &members), None);
    assert_eq!(resolve(&Token::Name("Alice".to_string()), &members), None);
    assert_eq!(resolve(&Token::Name("ali".to_string()), &members), None);
    assert_eq!(resolve(&Token::Name("1001".to_string()), &members), None);
    assert_eq!(resolve(&Token::Mention(1001), &Vec::new()), None);
}
