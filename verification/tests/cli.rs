use ssb64_utils::paths::{copy_file_path, output_path};
use ssb64_utils::stage::StageFileKind;
use ssb64_utils::stage_cli::{config_of, parse_args, ArgsError, CliArgs, Config, HelpTopic};

fn args(v: &[&str]) -> Vec<String> {
    v.iter().map(|s| s.to_string()).collect()
}

fn cli(free: &[&str]) -> CliArgs {
    CliArgs { help: false, version: false, verbose: false, output: None, kind: None, free: args(free) }
}

#[test]
fn copy_names() {
    assert_eq!(copy_file_path("dir/stage.bin", Some("other.bin")), "other.bin");
    assert_eq!(copy_file_path("dir/stage.o", None), "dir/stage-copy.o");
    assert_eq!(copy_file_path("dir/stage", None), "dir/stage-copy.bin");
}

#[test]
fn output_names() {
    assert_eq!(output_path("a/stage.bin", None, "json"), "a/stage.json");
    assert_eq!(output_path("a/stage.bin", Some("x.json"), "json"), "x.json");
    assert_eq!(output_path("stage", None, "bin"), "stage.bin");
}

#[test]
fn config_for_parse_and_build() {
    match config_of(cli(&["parse", "s.bin"])) {
        Config::Parse { input, output, kind, verbose } => {
            assert_eq!(input, "s.bin");
            assert_eq!(output, "s.json");
            assert_eq!(kind, None);
            assert!(!verbose);
        },
        c => panic!("unexpected {:?}", c),
    }
    let mut a = cli(&["parse", "s.bin"]);
    a.kind = Some("no-item".to_string());
    a.output = Some("o.json".to_string());
    a.verbose = true;
    match config_of(a) {
        Config::Parse { output, kind, verbose, .. } => {
            assert_eq!(output, "o.json");
            assert_eq!(kind, Some(StageFileKind::NoItem));
            assert!(verbose);
        },
        c => panic!("unexpected {:?}", c),
    }
    match config_of(cli(&["build", "s.json"])) {
        Config::Build { input, output, verbose } => {
            assert_eq!(input, "s.json");
            assert_eq!(output, "s.bin");
            assert!(!verbose);
        },
        c => panic!("unexpected {:?}", c),
    }
}

#[test]
fn config_help_cases() {
    assert!(matches!(config_of(cli(&[])), Config::Help(HelpTopic::MissingFile { no_subcommand: true })));
    assert!(matches!(config_of(cli(&["parse"])), Config::Help(HelpTopic::MissingFile { no_subcommand: false })));
    match config_of(cli(&["run", "x"])) {
        Config::Help(HelpTopic::UnknownSubcommand(s)) => assert_eq!(s, "run"),
        c => panic!("unexpected {:?}", c),
    }
    let mut a = cli(&["parse", "x"]);
    a.help = true;
    assert!(matches!(config_of(a), Config::Help(HelpTopic::Usage)));
    let mut a = cli(&["parse", "x"]);
    a.version = true;
    assert!(matches!(config_of(a), Config::Help(HelpTopic::Version)));
}

#[test]
fn parse_command_lines() {
    assert!(matches!(parse_args(&[]), Err(ArgsError::NoArgs)));
    let c = parse_args(&args(&["ssbstage", "parse", "in.bin", "-t", "item", "--verbose"])).unwrap();
    assert!(c.is_verbose());
    match c {
        Config::Parse { input, output, kind, verbose } => {
            assert_eq!(input, "in.bin");
            assert_eq!(output, "in.json");
            assert_eq!(kind, Some(StageFileKind::Item));
            assert!(verbose);
        },
        c => panic!("unexpected {:?}", c),
    }
    let c = parse_args(&args(&["ssbstage", "build", "in.json", "-o", "out.bin"])).unwrap();
    assert!(!c.is_verbose());
    match c {
        Config::Build { output, .. } => assert_eq!(output, "out.bin"),
        c => panic!("unexpected {:?}", c),
    }
    assert!(matches!(parse_args(&args(&["ssbstage", "--bogus"])), Err(ArgsError::Options(_))));
    assert!(matches!(parse_args(&args(&["ssbstage", "-h"])).unwrap(), Config::Help(HelpTopic::Usage)));
}

#[test]
fn parse_command_lines_that_ask_for_help() {
    assert!(matches!(parse_args(&args(&["p", "-V"])).unwrap(), Config::Help(HelpTopic::Version)));
    assert!(matches!(
        parse_args(&args(&["p", "parse"])).unwrap(),
        Config::Help(HelpTopic::MissingFile { no_subcommand: false })
    ));
    assert!(matches!(
        parse_args(&args(&["p"])).unwrap(),
        Config::Help(HelpTopic::MissingFile { no_subcommand: true })
    ));
    match parse_args(&args(&["p", "frob", "x.bin"])).unwrap() {
        Config::Help(HelpTopic::UnknownSubcommand(s)) => assert_eq!(s, "frob"),
        c => panic!("unexpected {:?}", c),
    }
    match parse_args(&args(&["ssbstage", "build", "s.json"])).unwrap() {
        Config::Build { input, output, verbose } => {
            assert_eq!(input, "s.json");
            assert_eq!(output, "s.bin");
            assert!(!verbose);
        },
        c => panic!("unexpected {:?}", c),
    }
}
