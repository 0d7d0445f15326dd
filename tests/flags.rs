use cli_flags::flags::{classify, clean_args, parse_flags, FlagKind, Flags};
use cli_flags::text::str_eq;

fn args(s: &str) -> Vec<String> {
    s.split_whitespace().map(String::from).collect()
}

fn parse(s: &str) -> Flags {
    parse_flags(&args(s), None, None)
}

#[test]
fn test_parse_executable_path_flag() {
    let flags = parse("--executable-path /path/to/chromium open example.com");
    assert_eq!(flags.executable_path, Some("/path/to/chromium".to_string()));
}

#[test]
fn test_parse_executable_path_flag_no_value() {
    let flags = parse("--executable-path");
    assert_eq!(flags.executable_path, None);
}

#[test]
fn test_clean_args_removes_executable_path() {
    let cleaned = clean_args(&args("--executable-path /path/to/chromium open example.com"));
    assert_eq!(cleaned, vec!["open", "example.com"]);
}

#[test]
fn test_clean_args_removes_executable_path_with_other_flags() {
    let cleaned =
        clean_args(&args("--json --executable-path /path/to/chromium --headed open example.com"));
    assert_eq!(cleaned, vec!["open", "example.com"]);
}

#[test]
fn test_parse_flags_with_session_and_executable_path() {
    let flags = parse("--session test --executable-path /custom/chrome open example.com");
    assert_eq!(flags.session, "test");
    assert_eq!(flags.executable_path, Some("/custom/chrome".to_string()));
}

#[test]
fn parse_empty_gives_defaults() {
    let flags = parse("");
    assert!(!flags.json && !flags.full && !flags.headed && !flags.debug);
    assert_eq!(flags.session, "default");
    assert_eq!(flags.executable_path, None);
}

#[test]
fn parse_uses_environment_values() {
    let flags = parse_flags(&args("open x"), Some("envs".to_string()), Some("/env/chrome".to_string()));
    assert_eq!(flags.session, "envs");
    assert_eq!(flags.executable_path, Some("/env/chrome".to_string()));
}

#[test]
fn flags_override_environment_values() {
    let flags = parse_flags(
        &args("--session s1 --executable-path /flag/chrome"),
        Some("envs".to_string()),
        Some("/env/chrome".to_string()),
    );
    assert_eq!(flags.session, "s1");
    assert_eq!(flags.executable_path, Some("/flag/chrome".to_string()));
}

#[test]
fn trailing_value_flag_keeps_environment_value() {
    let flags = parse_flags(&args("open --session"), Some("envs".to_string()), None);
    assert_eq!(flags.session, "envs");
    let flags = parse_flags(&args("--json --executable-path"), None, Some("/env/chrome".to_string()));
    assert_eq!(flags.executable_path, Some("/env/chrome".to_string()));
    assert!(flags.json);
}

#[test]
fn session_takes_a_flag_as_its_value() {
    let flags = parse("--session --headed");
    assert_eq!(flags.session, "--headed");
    assert!(!flags.headed);
}

#[test]
fn parse_sets_every_switch() {
    let flags = parse("--json -f --headed --debug");
    assert!(flags.json && flags.full && flags.headed && flags.debug);
    let flags = parse("--full");
    assert!(flags.full && !flags.json);
}

#[test]
fn later_value_wins() {
    let flags = parse("--session a --session b");
    assert_eq!(flags.session, "b");
}

#[test]
fn unknown_flags_are_passed_over() {
    let flags = parse("--jsonn -F --Session x");
    assert!(!flags.json && !flags.full);
    assert_eq!(flags.session, "default");
    assert_eq!(clean_args(&args("--jsonn -F --Session x")), vec!["--jsonn", "-F", "--Session", "x"]);
}

#[test]
fn clean_empty_is_empty() {
    assert_eq!(clean_args(&[]), Vec::<String>::new());
}

#[test]
fn clean_trailing_value_flag_alone() {
    assert_eq!(clean_args(&args("--executable-path")), Vec::<String>::new());
    assert_eq!(clean_args(&args("open --session")), vec!["open"]);
}

#[test]
fn clean_keeps_command_order() {
    let cleaned = clean_args(&args("click --debug #a -f --session s --full b"));
    assert_eq!(cleaned, vec!["click", "#a", "b"]);
}

#[test]
fn clean_removes_value_even_if_flag_like() {
    assert_eq!(clean_args(&args("--session --json open")), vec!["open"]);
}

#[test]
fn clean_twice_is_clean_once() {
    for s in [
        "--session --session x y",
        "--json a --executable-path --debug b -f",
        "open example.com",
        "--session",
    ] {
        let once = clean_args(&args(s));
        assert_eq!(clean_args(&once), once);
    }
}

#[test]
fn clean_keeps_exactly_what_parse_passes_over() {
    let input = args("--headed open --session s1 example.com --json");
    let flags = parse_flags(&input, None, None);
    assert!(flags.headed && flags.json);
    assert_eq!(flags.session, "s1");
    assert_eq!(clean_args(&input), vec!["open", "example.com"]);
}

#[test]
fn classify_each_kind() {
    assert_eq!(classify("--json"), FlagKind::Json);
    assert_eq!(classify("--full"), FlagKind::Full);
    assert_eq!(classify("-f"), FlagKind::Full);
    assert_eq!(classify("--headed"), FlagKind::Headed);
    assert_eq!(classify("--debug"), FlagKind::Debug);
    assert_eq!(classify("--session"), FlagKind::Session);
    assert_eq!(classify("--executable-path"), FlagKind::ExecutablePath);
    assert_eq!(classify("open"), FlagKind::Other);
    assert_eq!(classify(""), FlagKind::Other);
}

#[test]
fn str_eq_compares_characters() {
    assert!(str_eq("--json", "--json"));
    assert!(!str_eq("--json", "--jsoN"));
    assert!(!str_eq("--json", "--js"));
    assert!(str_eq("", ""));
    assert!(str_eq("héllo", "héllo"));
}

#[test]
fn executable_path_scenario_parse_and_clean() {
    let input = args("--executable-path /path/to/chromium open example.com");
    let flags = parse_flags(&input, None, None);
    assert_eq!(flags.executable_path, Some("/path/to/chromium".to_string()));
    assert_eq!(clean_args(&input), vec!["open", "example.com"]);
}

#[test]
fn executable_path_without_value_scenario() {
    let input = args("--executable-path");
    assert_eq!(parse_flags(&input, None, None).executable_path, None);
    assert_eq!(clean_args(&input), Vec::<String>::new());
}

#[test]
fn short_path_with_switches_scenario() {
    let input = args("--json --executable-path /p --headed open example.com");
    assert_eq!(clean_args(&input), vec!["open", "example.com"]);
    let flags = parse_flags(&input, None, None);
    assert!(flags.json && flags.headed);
    assert_eq!(flags.executable_path, Some("/p".to_string()));
}
