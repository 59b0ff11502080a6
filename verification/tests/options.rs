//! Command-line options, cargo arguments, manifests and exclusions.

use cargo_crappy::cli::{
    cargo_feature_args, cargo_metadata_args, declares_workspace, format_duration, format_elapsed,
    is_excluded, is_float_text, options_start, package_name, parse_args_from, parse_flag_value,
    parse_usize,
    Action, ArgError, Opts,
};
use std::time::Duration;

fn args(strs: &[&str]) -> Vec<String> {
    strs.iter().map(|s| (*s).to_string()).collect()
}

fn threshold(opts: &Opts) -> f64 {
    opts.threshold.as_deref().unwrap().parse::<f64>().unwrap()
}

#[test]
fn no_args() {
    let a = args(&[]);
    let Action::Run(opts) = parse_args_from(&a).unwrap() else {
        panic!("expected Run");
    };
    assert!(opts.threshold.is_none());
    assert!(opts.top.is_none());
}

#[test]
fn threshold_flag() {
    let a = args(&["--threshold", "30"]);
    let Action::Run(opts) = parse_args_from(&a).unwrap() else {
        panic!("expected Run");
    };
    assert!((threshold(&opts) - 30.0).abs() < f64::EPSILON);
}

#[test]
fn top_flag() {
    let a = args(&["--top", "5"]);
    let Action::Run(opts) = parse_args_from(&a).unwrap() else {
        panic!("expected Run");
    };
    assert_eq!(opts.top.unwrap(), 5);
}

#[test]
fn both_flags() {
    let a = args(&["--threshold", "20", "--top", "10"]);
    let Action::Run(opts) = parse_args_from(&a).unwrap() else {
        panic!("expected Run");
    };
    assert!((threshold(&opts) - 20.0).abs() < f64::EPSILON);
    assert_eq!(opts.top.unwrap(), 10);
}

#[test]
fn help_flag() {
    let a = args(&["--help"]);
    assert!(matches!(parse_args_from(&a).unwrap(), Action::Help));
}

#[test]
fn version_flag() {
    let a = args(&["-V"]);
    assert!(matches!(parse_args_from(&a).unwrap(), Action::Version));
}

#[test]
fn missing_threshold_value() {
    let a = args(&["--threshold"]);
    assert!(parse_args_from(&a).is_err());
}

#[test]
fn invalid_threshold_value() {
    let a = args(&["--threshold", "abc"]);
    assert!(parse_args_from(&a).is_err());
}

#[test]
fn exclude_path_flag() {
    let a = args(&["--exclude-path", "tests/", "--exclude-path", "benches/"]);
    let Action::Run(opts) = parse_args_from(&a).unwrap() else {
        panic!("expected Run");
    };
    assert_eq!(opts.exclude_paths, vec!["tests/", "benches/"]);
}

#[test]
fn exclude_fn_flag() {
    let a = args(&["--exclude-fn", "main", "--exclude-fn", "run"]);
    let Action::Run(opts) = parse_args_from(&a).unwrap() else {
        panic!("expected Run");
    };
    assert_eq!(opts.exclude_fns, vec!["main", "run"]);
}

#[test]
fn exclude_combined_with_threshold() {
    let a = args(&[
        "--threshold",
        "30",
        "--exclude-path",
        "tests/",
        "--exclude-fn",
        "run",
    ]);
    let Action::Run(opts) = parse_args_from(&a).unwrap() else {
        panic!("expected Run");
    };
    assert!((threshold(&opts) - 30.0).abs() < f64::EPSILON);
    assert_eq!(opts.exclude_paths, vec!["tests/"]);
    assert_eq!(opts.exclude_fns, vec!["run"]);
}

#[test]
fn features_flag() {
    let a = args(&["--features", "foo,bar"]);
    let Action::Run(opts) = parse_args_from(&a).unwrap() else {
        panic!("expected Run");
    };
    assert_eq!(opts.features, vec!["foo,bar"]);
}

#[test]
fn all_features_flag() {
    let a = args(&["--all-features"]);
    let Action::Run(opts) = parse_args_from(&a).unwrap() else {
        panic!("expected Run");
    };
    assert!(opts.all_features);
}

#[test]
fn no_default_features_flag() {
    let a = args(&["--no-default-features"]);
    let Action::Run(opts) = parse_args_from(&a).unwrap() else {
        panic!("expected Run");
    };
    assert!(opts.no_default_features);
}

#[test]
fn cargo_feature_args_empty() {
    let opts = Opts::default();
    assert!(cargo_feature_args(&opts).is_empty());
}

#[test]
fn cargo_feature_args_all() {
    let opts = Opts {
        features: vec!["foo".into(), "bar".into()],
        all_features: true,
        no_default_features: true,
        ..Opts::default()
    };
    let a = cargo_feature_args(&opts);
    assert!(a.contains(&"--features".to_string()));
    assert!(a.contains(&"foo".to_string()));
    assert!(a.contains(&"bar".to_string()));
    assert!(a.contains(&"--all-features".to_string()));
    assert!(a.contains(&"--no-default-features".to_string()));
}

#[test]
fn package_flag_short() {
    let a = args(&["-p", "my-crate"]);
    let Action::Run(opts) = parse_args_from(&a).unwrap() else {
        panic!("expected Run");
    };
    assert_eq!(opts.package.as_deref(), Some("my-crate"));
}

#[test]
fn package_flag_long() {
    let a = args(&["--package", "my-crate"]);
    let Action::Run(opts) = parse_args_from(&a).unwrap() else {
        panic!("expected Run");
    };
    assert_eq!(opts.package.as_deref(), Some("my-crate"));
}

#[test]
fn cargo_feature_args_with_package() {
    let opts = Opts {
        package: Some("my-crate".into()),
        ..Opts::default()
    };
    let a = cargo_feature_args(&opts);
    assert_eq!(a, vec!["--package", "my-crate"]);
}

#[test]
fn detect_package_finds_name() {
    let manifest = "[package]\nname = \"my-crate\"\nversion = \"0.1.0\"\n";
    assert_eq!(package_name(manifest), Some("my-crate".into()));
}

#[test]
fn detect_package_returns_none_for_workspace_root() {
    let manifest = "[workspace]\nmembers = [\"crates/*\"]\n";
    assert_eq!(package_name(manifest), None);
}

// --- further cases ---

#[test]
fn feature_args_keep_order() {
    let opts = Opts {
        package: Some("p".into()),
        features: vec!["a".into(), "b".into()],
        no_default_features: true,
        ..Opts::default()
    };
    assert_eq!(
        cargo_feature_args(&opts),
        vec!["--package", "p", "--features", "a", "--features", "b", "--no-default-features"]
    );
    assert_eq!(
        cargo_metadata_args(&opts),
        vec!["--features", "a", "--features", "b", "--no-default-features"]
    );
}

#[test]
fn unknown_option_is_reported() {
    let a = args(&["--top", "3", "--bogus", "--help"]);
    match parse_args_from(&a).unwrap() {
        Action::UnknownOption(o) => assert_eq!(o, "--bogus"),
        _ => panic!("expected UnknownOption"),
    }
}

#[test]
fn help_stops_reading_before_a_bad_value() {
    let a = args(&["-h", "--top", "x"]);
    assert!(matches!(parse_args_from(&a).unwrap(), Action::Help));
}

#[test]
fn missing_value_names_the_long_flag() {
    let a = args(&["-p"]);
    let e = parse_args_from(&a).err().unwrap();
    assert_eq!(e.message(), "--package requires a value");
    match e {
        ArgError::MissingValue(f) => assert_eq!(f, "--package"),
        _ => panic!("expected MissingValue"),
    }
}

#[test]
fn invalid_values_have_their_messages() {
    let e = parse_args_from(&args(&["--threshold", "1.2.3"])).err().unwrap();
    assert_eq!(e.message(), "invalid threshold value");
    let e = parse_args_from(&args(&["--top", "-1"])).err().unwrap();
    assert_eq!(e.message(), "invalid top value");
}

#[test]
fn later_flag_value_wins() {
    let a = args(&["--top", "1", "--top", "2", "--package", "a", "-p", "b"]);
    let Action::Run(opts) = parse_args_from(&a).unwrap() else {
        panic!("expected Run");
    };
    assert_eq!(opts.top, Some(2));
    assert_eq!(opts.package.as_deref(), Some("b"));
}

#[test]
fn flag_value_moves_past_the_flag() {
    let a = args(&["--top", "7"]);
    let mut i = 0usize;
    assert_eq!(parse_flag_value(&a, &mut i, "--top").unwrap(), "7");
    assert_eq!(i, 1);
    let mut j = 1usize;
    assert!(parse_flag_value(&a, &mut j, "--top").is_err());
    assert_eq!(j, 2);
}

#[test]
fn float_syntax_follows_f64_from_str() {
    for s in [
        "30", "30.", ".5", "1e10", "1E-3", "+2.5", "-0", "inf", "-Infinity", "NaN", "1_0", "", ".",
        "e5", "1e", "1.2.3", " 1", "1 ", "0x10", "infinit", "--1", "+", "5.e3", "1e+2",
    ] {
        assert_eq!(is_float_text(s), s.parse::<f64>().is_ok(), "{s:?}");
    }
}

#[test]
fn usize_syntax_follows_usize_from_str() {
    for s in [
        "0", "5", "+5", "-5", "", "+", "12a", "18446744073709551615", "18446744073709551616",
        "007", " 1",
    ] {
        assert_eq!(parse_usize(s), s.parse::<usize>().ok(), "{s:?}");
    }
}

#[test]
fn elapsed_times_read_as_seconds_or_minutes() {
    assert_eq!(format_elapsed(5, 7), "5.007s");
    assert_eq!(format_elapsed(59, 999), "59.999s");
    assert_eq!(format_elapsed(60, 0), "1m 0.000s");
    assert_eq!(format_elapsed(125, 42), "2m 5.042s");
    assert_eq!(format_duration(Duration::from_millis(3_250)), "3.250s");
    assert_eq!(format_duration(Duration::from_millis(61_005)), "1m 1.005s");
}

#[test]
fn package_name_edge_cases() {
    assert_eq!(package_name("[package]\nversion = \"1\"\n  name=\"x\"  \n"), Some("x".into()));
    assert_eq!(package_name("[dependencies]\nname = \"dep\"\n"), None);
    assert_eq!(package_name("[package]\nname\n"), None);
    assert_eq!(package_name("[package]\nname = \"\"\nname = \"second\"\n"), Some("second".into()));
    assert_eq!(package_name("[lib]\n[package]\r\nname = 'q'\r\n"), Some("'q'".into()));
}

#[test]
fn workspace_manifests_are_recognised() {
    assert!(declares_workspace("[workspace]\nmembers = []\n"));
    assert!(!declares_workspace("[package]\nname = \"solo\"\n"));
}

#[test]
fn exclusions_match_paths_and_names() {
    let opts = Opts {
        exclude_paths: vec!["tests/".into()],
        exclude_fns: vec!["main".into()],
        ..Opts::default()
    };
    assert!(is_excluded("tests/it.rs", "f", &opts));
    assert!(is_excluded("src/lib.rs", "main", &opts));
    assert!(!is_excluded("src/lib.rs", "main2", &opts));
    assert!(!is_excluded("src/tests.rs", "f", &opts));
}

#[test]
fn options_follow_program_and_subcommand() {
    assert_eq!(options_start(&args(&["cargo-crappy", "crappy", "--top", "1"])), 2);
    assert_eq!(options_start(&args(&["cargo-crappy", "--top", "1"])), 1);
    assert_eq!(options_start(&args(&["cargo-crappy"])), 1);
}
