use lion::args::{Args, RootCommand};
use lion::errors::LionError;

fn to_strings(v: Vec<&str>) -> Vec<String> {
    let mut out = Vec::new();
    for s in v {
        out.push(s.to_string());
    }
    out
}

#[test]
fn test_arg_new() {
    // Create sample args
    let sample_args = vec!["", "new", "sample_name"];
    // Parse sample args
    let parsed_args = Args::try_parse_from(&to_strings(sample_args.clone()))
        .unwrap_or_else(|_| panic!("parsing {sample_args:?} into `Args` data structure"));

    // Assert parsed args have correct info
    assert_eq!(
        parsed_args,
        Args { command: RootCommand::New { name: "sample_name".to_string() } }
    );
}

#[test]
fn test_arg_build() {
    // Create sample args
    let sample_args = vec!["", "build"];
    // Parse sample args
    let parsed_args = Args::try_parse_from(&to_strings(sample_args.clone()))
        .unwrap_or_else(|_| panic!("parsing {sample_args:?} into `Args` data structure"));

    // Assert parsed args have correct info
    assert_eq!(parsed_args, Args { command: RootCommand::Build });
}

#[test]
fn test_arg_unknown_subcommand() {
    let r = Args::try_parse_from(&to_strings(vec!["", "teach"]));
    assert!(matches!(r, Err(LionError::ParseError(_))));
}

#[test]
fn test_arg_new_without_name() {
    let r = Args::try_parse_from(&to_strings(vec!["", "new"]));
    assert!(matches!(r, Err(LionError::ParseError(_))));
}

#[test]
fn test_arg_extra_words() {
    let r = Args::try_parse_from(&to_strings(vec!["", "build", "now"]));
    assert!(matches!(r, Err(LionError::ParseError(_))));
}

#[test]
fn test_arg_empty() {
    let r = Args::try_parse_from(&to_strings(vec![]));
    assert!(matches!(r, Err(LionError::ParseError(_))));
}
