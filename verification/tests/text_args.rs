use mdsite::args::ArgError;
use mdsite::args::ArgItem;
use mdsite::args::parse_args;
use mdsite::args::parse_flag_optional_bool;
use mdsite::args::parse_param;
use mdsite::text::find_char;
use mdsite::text::i64_to_dec;
use mdsite::text::pad_left;
use mdsite::text::str_contains;
use mdsite::text::str_eq;
use mdsite::text::str_starts_with;
use mdsite::text::u64_to_dec;
use mdsite::text::u64_to_dec_pad;
use mdsite::utils::format_error;
use mdsite::utils::format_error_disp;
use mdsite::utils::parse as fn_parse;
use mdsite::utils::parse_mut;

#[test]
fn string_equality_and_search() {
    assert!(str_eq("abc", "abc"));
    assert!(!str_eq("abc", "abd"));
    assert!(!str_eq("abc", "ab"));
    assert_eq!(find_char("hello", 'l'), Some(2));
    assert_eq!(find_char("hello", 'z'), None);
    assert!(str_starts_with("hello", "he"));
    assert!(!str_starts_with("hello", "el"));
    assert!(str_contains("a://b", "://"));
    assert!(!str_contains("a:/b", "://"));
}

#[test]
fn decimal_rendering() {
    assert_eq!(u64_to_dec(0), "0");
    assert_eq!(u64_to_dec(42), "42");
    assert_eq!(u64_to_dec(90210), "90210");
    assert_eq!(i64_to_dec(-5), "-5");
    assert_eq!(i64_to_dec(7), "7");
    assert_eq!(i64_to_dec(i64::MIN), "-9223372036854775808");
    assert_eq!(u64_to_dec_pad(7, 2), "07");
    assert_eq!(u64_to_dec_pad(2024, 2), "2024");
    assert_eq!(pad_left("x", 3, ' '), "  x");
}

#[test]
fn boolean_flags() {
    assert_eq!(parse_flag_optional_bool(None), Ok(true));
    assert_eq!(parse_flag_optional_bool(Some("true")), Ok(true));
    assert_eq!(parse_flag_optional_bool(Some("yes")), Ok(true));
    assert_eq!(parse_flag_optional_bool(Some("false")), Ok(false));
    assert_eq!(parse_flag_optional_bool(Some("no")), Ok(false));
    assert_eq!(
        parse_flag_optional_bool(Some("maybe")),
        Err(ArgError::InvalidBool("maybe".to_string()))
    );
}

#[test]
fn flag_parameters() {
    assert_eq!(parse_param("o", Some("next".to_string()), Some("inline")), Ok("inline".to_string()));
    assert_eq!(parse_param("o", Some("next".to_string()), None), Ok("next".to_string()));
    assert_eq!(parse_param("o", None, None), Err(ArgError::MissingArg("o".to_string())));
}

fn strings(parts: &[&str]) -> Vec<String> {
    parts.iter().map(|s| s.to_string()).collect()
}

#[test]
fn whole_command_line() {
    let args = strings(&["prog", "-v", "-o", "out.txt", "-c=false", "--", "-x", "pos2"]);
    let param_flags = strings(&["o"]);
    let parsed = parse_args(args, &param_flags).unwrap();
    assert_eq!(parsed.arg0, "prog");
    assert_eq!(
        parsed.items,
        vec![
            ArgItem::Flag { name: "v".to_string(), value: None },
            ArgItem::Flag { name: "o".to_string(), value: Some("out.txt".to_string()) },
            ArgItem::Flag { name: "c".to_string(), value: Some("false".to_string()) },
            ArgItem::Positional { index: 0, value: "-x".to_string() },
            ArgItem::Positional { index: 1, value: "pos2".to_string() },
        ]
    );
}

#[test]
fn command_line_missing_parameter() {
    let args = strings(&["prog", "-o"]);
    let param_flags = strings(&["o"]);
    assert_eq!(parse_args(args, &param_flags), Err(ArgError::MissingArg("o".to_string())));
}

#[test]
fn command_line_empty() {
    let parsed = parse_args(Vec::new(), &Vec::new()).unwrap();
    assert_eq!(parsed.arg0, "unknown");
    assert!(parsed.items.is_empty());
}

#[test]
fn functional_take_char_and_take_while() {
    let (c, rest) = fn_parse::take_char("abc");
    assert_eq!(c, Some('a'));
    assert_eq!(rest, "bc");
    let (c, rest) = fn_parse::take_char("");
    assert_eq!(c, None);
    assert_eq!(rest, "");

    let (digits, rest) = fn_parse::take_while("123abc", |c| c.is_ascii_digit());
    assert_eq!(digits, "123");
    assert_eq!(rest, "abc");
    let (all, rest) = fn_parse::take_while("xyz", |c| c.is_alphabetic());
    assert_eq!(all, "xyz");
    assert_eq!(rest, "");
}

#[test]
fn mutating_take_char_and_take_while() {
    let mut input = "7a";
    assert_eq!(parse_mut::take_char(&mut input), Some('7'));
    assert_eq!(input, "a");
    assert_eq!(parse_mut::take_char(&mut input), Some('a'));
    assert_eq!(input, "");
    assert_eq!(parse_mut::take_char(&mut input), None);

    let mut input = "  x";
    let spaces = parse_mut::take_while(&mut input, |c| c == ' ');
    assert_eq!(spaces, "  ");
    assert_eq!(input, "x");
}

#[test]
fn error_report_without_causes() {
    assert_eq!(format_error("boom", &Vec::new()), "boom");
}

#[test]
fn error_report_with_numbered_indented_causes() {
    let causes = vec!["cause one".to_string(), "multi\nline".to_string()];
    let report = format_error("boom", &causes);
    assert_eq!(report, "boom\n\nCaused by:\n    0: cause one\n    1: multi\n       line");
    assert_eq!(format_error_disp("boom", &causes), report);
}

#[test]
fn bare_dash_is_an_empty_flag_and_flags_survive_positionals() {
    let args = strings(&["prog", "-", "pos", "-v"]);
    let parsed = parse_args(args, &Vec::new()).unwrap();
    assert_eq!(
        parsed.items,
        vec![
            ArgItem::Flag { name: String::new(), value: None },
            ArgItem::Positional { index: 0, value: "pos".to_string() },
            // flag mode stays on until the bare double dash
            ArgItem::Flag { name: "v".to_string(), value: None },
        ]
    );
}

#[test]
fn double_dash_with_inline_value_is_an_ordinary_flag() {
    let args = strings(&["prog", "--=x", "-a"]);
    let parsed = parse_args(args, &Vec::new()).unwrap();
    assert_eq!(
        parsed.items,
        vec![
            ArgItem::Flag { name: "-".to_string(), value: Some("x".to_string()) },
            ArgItem::Flag { name: "a".to_string(), value: None },
        ]
    );
}

#[test]
fn param_flag_with_inline_value_consumes_nothing() {
    let args = strings(&["prog", "-o=inline", "next"]);
    let param_flags = strings(&["o"]);
    let parsed = parse_args(args, &param_flags).unwrap();
    assert_eq!(
        parsed.items,
        vec![
            ArgItem::Flag { name: "o".to_string(), value: Some("inline".to_string()) },
            ArgItem::Positional { index: 0, value: "next".to_string() },
        ]
    );
}
