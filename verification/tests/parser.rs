use paxos_links::console::parser::{extract_value, option_value, Parser, Rule};
use paxos_links::console::{command_of, Command};
use paxos_links::text::{token_from, trim};

#[derive(Default, Debug)]
struct MyConfig {
    size: i32,
    scenario: String,
}

#[test]
fn parser_extracts_i32_rule_correctly() {
    let mut parser = Parser::<MyConfig>::new();

    parser.add_rule(Box::new(Rule::new(
        "-s".to_string(),
        |config: MyConfig, value: i32| MyConfig { size: value, ..config },
    )));

    let config = parser.generate("test -s 12");

    assert_eq!(config.size, 12);
}

#[test]
fn parser_extracts_string_correctly() {
    let mut parser = Parser::<MyConfig>::new();

    parser.add_rule(Box::new(Rule::new(
        "-s".to_string(),
        |config: MyConfig, value: String| MyConfig { scenario: value, ..config },
    )));

    let config = parser.generate("test -s 12");

    assert_eq!(config.scenario, "12");
}

#[test]
fn parser_extracts_multiple_rules_correctly() {
    let mut parser = Parser::<MyConfig>::new();

    parser.add_rule(Box::new(Rule::new(
        "-s".to_string(),
        |config: MyConfig, value| MyConfig { size: value, ..config },
    )));

    parser.add_rule(Box::new(Rule::new(
        "--scenario".to_string(),
        |config: MyConfig, value| MyConfig { scenario: value, ..config },
    )));

    let config = parser.generate("test -s 12 --scenario my_scenario /tmp/extra");

    assert_eq!(config.size, 12);
    assert_eq!(config.scenario, "my_scenario");
}

#[test]
fn parser_extracts_partial_rules_correctly() {
    let mut parser = Parser::<MyConfig>::new();

    parser.add_rule(Box::new(Rule::new(
        "-s".to_string(),
        |config: MyConfig, value| MyConfig { size: value, ..config },
    )));

    let config = parser.generate("test --scenario my_scenario -s 12 /tmp/extra");

    assert_eq!(config.size, 12);
    assert_eq!(config.scenario, String::default());
}

#[test]
fn parser_without_rules_gives_the_default() {
    let parser = Parser::<MyConfig>::new();
    let config = parser.generate("test -s 12");
    assert_eq!(config.size, 0);
    assert_eq!(config.scenario, "");
}

#[test]
fn parser_reads_signed_values() {
    let mut parser = Parser::<MyConfig>::new();
    parser.add_rule(Box::new(Rule::new(
        "-s".to_string(),
        |config: MyConfig, value: i32| MyConfig { size: value, ..config },
    )));
    assert_eq!(parser.generate("run -s -42").size, -42);
    assert_eq!(parser.generate("run -s +7 x").size, 7);
    assert_eq!(parser.generate("run -s 2147483647").size, 2147483647);
    assert_eq!(parser.generate("run -s -2147483648").size, -2147483648);
}

#[test]
fn parser_later_rule_overwrites_earlier() {
    let mut parser = Parser::<MyConfig>::new();
    parser
        .add_rule(Box::new(Rule::new("-a".to_string(), |c: MyConfig, v: i32| MyConfig { size: v, ..c })))
        .add_rule(Box::new(Rule::new("-b".to_string(), |c: MyConfig, v: i32| MyConfig { size: v, ..c })));
    assert_eq!(parser.generate("x -b 1 -a 2").size, 1);
    assert_eq!(parser.generate("x -a 2 ").size, 2);
}

#[test]
fn extract_value_needs_spaces_around_the_key() {
    assert_eq!(extract_value("test -s 12", "-s"), Some("12".to_string()));
    assert_eq!(extract_value("-s 12", "-s"), None);
    assert_eq!(extract_value("test -s12", "-s"), None);
    assert_eq!(extract_value("test --s 12", "-s"), None);
    assert_eq!(extract_value("test -s", "-s"), None);
}

#[test]
fn extract_value_trims_the_key_and_skips_whitespace() {
    assert_eq!(extract_value("a -k \t  value rest", "  -k "), Some("value".to_string()));
    assert_eq!(extract_value("a -k    ", "-k"), Some("".to_string()));
    assert_eq!(extract_value("a -k \u{3000}v\u{2003}w", "-k"), Some("v".to_string()));
}

#[test]
fn extract_value_takes_the_first_occurrence() {
    assert_eq!(extract_value("x -k 1 -k 2", "-k"), Some("1".to_string()));
}

#[test]
fn extract_value_counts_bytes_as_characters() {
    // The key is found at a byte index, and the value is then looked for
    // that many characters in: a two-byte character before the key moves it.
    assert_eq!(extract_value("\u{e9} -s 12", "-s"), Some("2".to_string()));
}

#[test]
fn trim_removes_unicode_whitespace() {
    assert_eq!(trim("  a b \n"), "a b");
    assert_eq!(trim("\u{a0}x\u{2028}"), "x");
    assert_eq!(trim("   "), "");
    assert_eq!(trim(""), "");
}

#[test]
fn token_from_skips_to_the_next_word() {
    assert_eq!(token_from("ab  cd ef", 2), "cd");
    assert_eq!(token_from("ab", 2), "");
    assert_eq!(token_from("ab", 7), "");
    assert_eq!(token_from("ab cd", 1), "b");
}

#[test]
fn console_names_commands() {
    assert!(matches!(command_of("help\n"), Command::Help));
    assert!(matches!(command_of(" spawn "), Command::Spawn));
    assert!(matches!(command_of("broadcast"), Command::Broadcast));
    assert!(matches!(command_of("exit\r\n"), Command::Exit));
    assert!(matches!(command_of("exits"), Command::Unknown));
    assert!(matches!(command_of(""), Command::Unknown));
}

#[derive(Default, Debug)]
struct Flags {
    count: u64,
    verbose: bool,
}

#[test]
fn parser_reads_unsigned_and_boolean_values() {
    let mut parser = Parser::<Flags>::new();
    parser.add_rule(Box::new(Rule::new("-n".to_string(), |f: Flags, v: u64| Flags { count: v, ..f })));
    parser.add_rule(Box::new(Rule::new("-v".to_string(), |f: Flags, v: bool| Flags { verbose: v, ..f })));
    let flags = parser.generate("run -n +18446744073709551615 -v true ");
    assert_eq!(flags.count, u64::MAX);
    assert!(flags.verbose);
    let flags = parser.generate("run -v false -n 0");
    assert_eq!(flags.count, 0);
    assert!(!flags.verbose);
}

#[test]
fn option_value_reads_one_option() {
    assert_eq!(option_value::<i32>("test -s 12", "-s".to_string()), Some(12));
    assert_eq!(option_value::<String>("test -s 12", "--s".to_string()), None);
    assert_eq!(option_value::<String>("a --name  bob x", " --name".to_string()), Some("bob".to_string()));
}
