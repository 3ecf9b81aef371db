use minigrep::{Config, ConfigError, USAGE};

fn args(list: &[&str]) -> Vec<String> {
    list.iter().map(|arg| arg.to_string()).collect()
}

#[test]
fn two_arguments_give_the_defaults() {
    let config = Config::new(&args(&["user", "paths.txt"]), false).unwrap();
    assert_eq!(
        config,
        Config {
            query: String::from("user"),
            filename: String::from("paths.txt"),
            case_sensitive: true,
            quiet: false,
        }
    );
}

#[test]
fn environment_alone_turns_case_off() {
    let config = Config::new(&args(&["user", "paths.txt"]), true).unwrap();
    assert!(!config.case_sensitive);
    assert!(!config.quiet);
}

#[test]
fn flag_alone_turns_case_off() {
    let config = Config::new(&args(&["user", "paths.txt", "-i"]), false).unwrap();
    assert!(!config.case_sensitive);
    assert!(!config.quiet);
}

#[test]
fn flag_and_environment_together_turn_case_off() {
    let config = Config::new(&args(&["user", "paths.txt", "-i"]), true).unwrap();
    assert!(!config.case_sensitive);
}

#[test]
fn quiet_flag_leaves_case_alone() {
    let config = Config::new(&args(&["user", "paths.txt", "-q"]), false).unwrap();
    assert!(config.case_sensitive);
    assert!(config.quiet);
    let config = Config::new(&args(&["user", "paths.txt", "-q"]), true).unwrap();
    assert!(!config.case_sensitive);
    assert!(config.quiet);
}

#[test]
fn flags_come_in_any_order() {
    let first = Config::new(&args(&["user", "paths.txt", "-i", "-q"]), false).unwrap();
    let second = Config::new(&args(&["user", "paths.txt", "-q", "-i"]), false).unwrap();
    assert_eq!(first, second);
    assert!(!first.case_sensitive);
    assert!(first.quiet);
    let spread = Config::new(&args(&["user", "paths.txt", "x", "-q", "y", "-i", "-q"]), false).unwrap();
    assert_eq!(first, spread);
}

#[test]
fn flags_are_whole_arguments() {
    let config = Config::new(&args(&["user", "paths.txt", "-iq", "-I", "--i", "q", " -q"]), false).unwrap();
    assert!(config.case_sensitive);
    assert!(!config.quiet);
}

#[test]
fn the_first_two_arguments_are_never_flags() {
    let config = Config::new(&args(&["-i", "-q"]), false).unwrap();
    assert_eq!(config.query, "-i");
    assert_eq!(config.filename, "-q");
    assert!(config.case_sensitive);
    assert!(!config.quiet);
}

#[test]
fn empty_query_and_file_name_are_taken_as_they_are() {
    let config = Config::new(&args(&["", ""]), false).unwrap();
    assert_eq!(config.query, "");
    assert_eq!(config.filename, "");
}

#[test]
fn no_argument_is_missing_arguments() {
    assert_eq!(Config::new(&[], false), Err(ConfigError::MissingArguments));
    assert_eq!(Config::new(&[], true), Err(ConfigError::MissingArguments));
}

#[test]
fn one_argument_is_missing_arguments() {
    assert_eq!(
        Config::new(&args(&["user"]), false),
        Err(ConfigError::MissingArguments)
    );
    assert_eq!(
        Config::new(&args(&["-i"]), true),
        Err(ConfigError::MissingArguments)
    );
}

#[test]
fn the_error_shows_the_usage() {
    let error = Config::new(&args(&["user"]), false).unwrap_err();
    let text = error.message();
    assert_eq!(text, USAGE);
    assert_eq!(
        text,
        "\nUSAGE\n    minigrep <pattern> <file> [flags]\n\nFLAGS:\n    -i - Case insensitive search;\n    -q - Quiet mode. Only outputs occurence count;\n"
    );
    assert!(text.contains("<pattern>"));
    assert!(text.contains("<file>"));
    assert!(text.contains("-i"));
    assert!(text.contains("-q"));
}
