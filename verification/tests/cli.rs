use anime_cli::cli::{
    number_from_numerals, parse_command_line, parse_number, plan_searches, CommandLineError,
    InputError, SearchPlan,
};

fn arguments(list: &[&str]) -> Vec<String> {
    list.iter().map(|s| s.to_string()).collect()
}

#[test]
fn number_keeps_digits_only() {
    assert_eq!(parse_number("720p"), Ok(720));
    assert_eq!(parse_number("ep 07"), Ok(7));
    assert_eq!(parse_number(""), Ok(0));
    assert_eq!(parse_number("abc"), Ok(0));
    assert_eq!(parse_number("65535"), Ok(65535));
}

#[test]
fn number_too_large_is_refused() {
    assert_eq!(parse_number("65536"), Err(InputError::NotNumeric));
    assert_eq!(parse_number("99999999999999999999"), Err(InputError::NotNumeric));
}

#[test]
fn numeral_that_is_no_digit_is_refused() {
    assert_eq!(parse_number("7\u{0663}"), Err(InputError::NotNumeric));
}

#[test]
fn query_carries_default_resolution() {
    let plan = plan_searches(Some("Show Name"), None, None, None);
    assert_eq!(
        plan,
        Ok(SearchPlan { query: b"Show Name 720".to_vec(), first: 1, last: 1, numbered: false })
    );
    assert_eq!(plan.unwrap().indices(), vec![None]);
}

#[test]
fn resolution_zero_is_left_out() {
    let plan = plan_searches(Some("Show Name"), Some("3"), Some("5"), Some("0")).unwrap();
    assert_eq!(plan.query, b"Show Name".to_vec());
    assert_eq!(plan.indices(), vec![Some(3), Some(4), Some(5)]);
}

#[test]
fn batch_before_episode_is_refused() {
    assert_eq!(
        plan_searches(Some("Show"), Some("5"), Some("3"), None),
        Err(InputError::InvertedRange)
    );
}

#[test]
fn query_is_needed() {
    assert_eq!(plan_searches(None, None, None, None), Err(InputError::MissingQuery));
}

#[test]
fn command_line_is_read() {
    let plan = parse_command_line(
        "anime-cli",
        &arguments(&["-q", "Show Name", "-e", "2", "--batch", "4", "-r", "1080"]),
    );
    assert_eq!(
        plan,
        Ok(SearchPlan { query: b"Show Name 1080".to_vec(), first: 2, last: 4, numbered: true })
    );
}

#[test]
fn unknown_option_is_a_usage_error() {
    let plan = parse_command_line("anime-cli", &arguments(&["--nothing"]));
    assert_eq!(
        plan,
        Err(CommandLineError::Usage {
            words: "Unrecognized option: 'nothing'".to_string(),
            usage: "Usage: anime-cli [-q QUERY] [-e NUMBER] [-b NUMBER] [-r NUMBER] [-h]"
                .to_string(),
        })
    );
}

#[test]
fn option_without_its_argument_is_a_usage_error() {
    let plan = parse_command_line("anime-cli", &arguments(&["-q"]));
    assert!(matches!(plan, Err(CommandLineError::Usage { .. })));
}

#[test]
fn command_line_with_a_wrong_number() {
    let plan = parse_command_line("anime-cli", &arguments(&["-q", "Show", "-e", "70000"]));
    assert_eq!(plan, Err(CommandLineError::Input(InputError::NotNumeric)));
    let plan = parse_command_line("anime-cli", &arguments(&["-q", "Show", "-e", "5", "-b", "4"]));
    assert_eq!(plan, Err(CommandLineError::Input(InputError::InvertedRange)));
}

#[test]
fn help_flag_is_known() {
    let plan = parse_command_line("anime-cli", &arguments(&["-h", "--query=Show"]));
    assert_eq!(
        plan,
        Ok(SearchPlan { query: b"Show 720".to_vec(), first: 1, last: 1, numbered: false })
    );
}

#[test]
fn batch_alone_starts_at_the_first_episode() {
    let plan = plan_searches(Some("Show"), None, Some("3"), Some("480")).unwrap();
    assert_eq!(plan.query, b"Show 480".to_vec());
    assert_eq!(plan.indices(), vec![Some(1), Some(2), Some(3)]);
    assert_eq!(plan_searches(Some("Show"), None, Some("0"), None), Err(InputError::InvertedRange));
}

#[test]
fn last_episode_does_not_overflow() {
    let plan = plan_searches(Some("Show"), Some("65535"), None, None).unwrap();
    assert_eq!(plan.indices(), vec![Some(65535)]);
    let odd = SearchPlan { query: vec![], first: 5, last: 3, numbered: true };
    assert_eq!(odd.indices(), vec![]);
}

#[test]
fn resolution_that_is_no_number_is_refused_first() {
    assert_eq!(plan_searches(None, None, None, Some("99999")), Err(InputError::NotNumeric));
    assert_eq!(
        plan_searches(Some("Show"), None, None, Some("00")).unwrap().query,
        b"Show 0".to_vec()
    );
}

#[test]
fn command_line_without_query() {
    let plan = parse_command_line("anime-cli", &arguments(&["-e", "2"]));
    assert_eq!(plan, Err(CommandLineError::Input(InputError::MissingQuery)));
}

#[test]
fn numerals_denote_their_number() {
    assert_eq!(number_from_numerals(&['4', '2']), Ok(42));
    assert_eq!(number_from_numerals(&['0', '0', '7']), Ok(7));
    assert_eq!(number_from_numerals(&[]), Ok(0));
    assert_eq!(number_from_numerals(&['6', '5', '5', '3', '5']), Ok(65535));
    assert_eq!(number_from_numerals(&['6', '5', '5', '3', '6']), Err(InputError::NotNumeric));
    assert_eq!(number_from_numerals(&['1', '\u{0663}']), Err(InputError::NotNumeric));
    assert_eq!(number_from_numerals(&['1', 'a']), Err(InputError::NotNumeric));
}

#[test]
fn digits_only_give_their_number() {
    assert_eq!(parse_number("007"), Ok(7));
    assert_eq!(parse_number("42"), Ok(42));
    assert_eq!(parse_number("0"), Ok(0));
    assert_eq!(parse_number("0000065535"), Ok(65535));
}

#[test]
fn ascii_text_gives_the_number_of_its_digits() {
    assert_eq!(parse_number("+5"), Ok(5));
    assert_eq!(parse_number("-1 2 x3"), Ok(123));
    assert_eq!(parse_number("1.5"), Ok(15));
}
