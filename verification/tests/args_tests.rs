use minigrep::parse_args;
use minigrep::Config;
use minigrep::ParseError;

#[test]
fn get_keywords_and_opts_from_args() {
    let args = &["-i".to_string(), "to".to_string(), "sample.txt".to_string()];

    let query1 = String::from("to");
    let query2 = String::from("sample.txt");
    let query = vec![&query1, &query2];

    let contents = vec!['i'];

    assert_eq!(parse_args(args), (query, contents));
}

#[test]
fn build_with_ignore_case_flag() {
    let args = vec![
        "prog".to_string(),
        "-i".to_string(),
        "to".to_string(),
        "sample.txt".to_string(),
    ];
    let config = Config::build(&args, false).unwrap();
    assert_eq!(config.query, "to");
    assert_eq!(config.file_path, "sample.txt");
    assert!(config.ignore_case);
}

#[test]
fn build_without_flags_is_case_sensitive() {
    let args = vec!["prog".to_string(), "to".to_string(), "sample.txt".to_string()];
    let config = Config::build(&args, false).unwrap();
    assert_eq!(config.query, "to");
    assert_eq!(config.file_path, "sample.txt");
    assert!(!config.ignore_case);
}

#[test]
fn environment_default_enables_ignore_case() {
    let args = vec!["prog".to_string(), "to".to_string(), "sample.txt".to_string()];
    let config = Config::build(&args, true).unwrap();
    assert!(config.ignore_case);
}

#[test]
fn too_few_arguments_are_rejected() {
    let args = vec!["prog".to_string(), "onlyone".to_string()];
    assert_eq!(
        Config::build(&args, false),
        Err(ParseError::InsufficientArguments)
    );
}

#[test]
fn unrecognized_flag_is_rejected() {
    let args = vec![
        "prog".to_string(),
        "-x".to_string(),
        "q".to_string(),
        "f".to_string(),
    ];
    assert_eq!(Config::build(&args, false), Err(ParseError::InvalidFlag('x')));
}

#[test]
fn first_unrecognized_flag_is_reported() {
    let args = vec![
        "prog".to_string(),
        "-iyz".to_string(),
        "q".to_string(),
        "f".to_string(),
    ];
    assert_eq!(Config::build(&args, false), Err(ParseError::InvalidFlag('y')));
}

#[test]
fn combined_and_repeated_flags() {
    let args = vec![
        "prog".to_string(),
        "-ii".to_string(),
        "--i".to_string(),
        "q".to_string(),
        "f".to_string(),
    ];
    let (keywords, flags) = parse_args(&args);
    assert_eq!(keywords, vec![&args[0], &args[3], &args[4]]);
    assert_eq!(flags, vec!['i', 'i', 'i']);
    let config = Config::build(&args, false).unwrap();
    assert_eq!(config.query, "q");
    assert_eq!(config.file_path, "f");
    assert!(config.ignore_case);
}

#[test]
fn lone_dash_contributes_no_flags() {
    let args = vec![
        "prog".to_string(),
        "-".to_string(),
        "q".to_string(),
        "f".to_string(),
    ];
    let (keywords, flags) = parse_args(&args);
    assert_eq!(keywords, vec![&args[0], &args[2], &args[3]]);
    assert_eq!(flags, Vec::<char>::new());
    let config = Config::build(&args, false).unwrap();
    assert_eq!(config.query, "q");
    assert!(!config.ignore_case);
}

#[test]
fn flags_may_follow_positional_tokens() {
    let args = vec![
        "prog".to_string(),
        "to".to_string(),
        "sample.txt".to_string(),
        "-i".to_string(),
    ];
    let config = Config::build(&args, false).unwrap();
    assert_eq!(config.query, "to");
    assert_eq!(config.file_path, "sample.txt");
    assert!(config.ignore_case);
}

#[test]
fn extra_positional_tokens_are_ignored() {
    let args = vec![
        "prog".to_string(),
        "to".to_string(),
        "sample.txt".to_string(),
        "extra".to_string(),
    ];
    let config = Config::build(&args, false).unwrap();
    assert_eq!(config.query, "to");
    assert_eq!(config.file_path, "sample.txt");
}

#[test]
fn empty_token_is_positional() {
    let args = vec!["".to_string(), "-i".to_string()];
    let (keywords, flags) = parse_args(&args);
    assert_eq!(keywords, vec![&args[0]]);
    assert_eq!(flags, vec!['i']);
}
