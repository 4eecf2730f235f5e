use clap::{Arg, Command};
use flowalyzer::pronunciation::cli::CaptureArgs;

// The command line the pronunciation utility exposes, built with clap's
// builder API; the library holds the validated argument shapes.
fn session_command() -> Command {
    Command::new("pronunciation").subcommand(
        Command::new("session")
            .arg(Arg::new("reference").long("reference").required(true))
            .arg(Arg::new("device").long("device"))
            .arg(Arg::new("latency-min").long("latency-min"))
            .arg(Arg::new("latency-max").long("latency-max"))
            .arg(Arg::new("sample-rate").long("sample-rate").default_value("16000"))
            .arg(Arg::new("latency-budget").long("latency-budget").default_value("200")),
    )
}

fn capture_args_from(cli: &[&str]) -> (CaptureArgs, u32) {
    let matches = session_command().try_get_matches_from(cli).unwrap();
    let (_, sub) = matches.subcommand().unwrap();
    let parse = |name: &str| -> Option<u32> {
        sub.get_one::<String>(name).map(|v| v.parse().unwrap())
    };
    let args = CaptureArgs {
        device: sub.get_one::<String>("device").cloned(),
        latency_min: parse("latency-min"),
        latency_max: parse("latency-max"),
        sample_rate: parse("sample-rate").unwrap(),
    };
    let budget = parse("latency-budget").unwrap();
    (args, budget)
}

#[test]
fn parses_and_validates_latency_range() {
    let (args, _) = capture_args_from(&[
        "pronunciation",
        "session",
        "--reference",
        "ref.wav",
        "--latency-min",
        "120",
        "--latency-max",
        "180",
    ]);
    let range = args.latency_range().unwrap();
    assert_eq!((range.min, range.max), (120, 180));
}

#[test]
fn rejects_partial_latency_override() {
    let (args, _) = capture_args_from(&[
        "pronunciation",
        "session",
        "--reference",
        "ref.wav",
        "--latency-min",
        "150",
    ]);
    assert!(args.latency_range().is_err());
}

#[test]
fn session_defaults_to_latency_range() {
    let (args, budget) = capture_args_from(&["pronunciation", "session", "--reference", "ref.wav"]);
    let range = args.latency_range().unwrap();
    assert_eq!((range.min, range.max), (100, 200));
    assert_eq!(args.sample_rate, 16_000);
    assert_eq!(budget, 200);
}

#[test]
fn zero_latency_minimum_is_rejected() {
    let args = CaptureArgs {
        device: None,
        latency_min: Some(0),
        latency_max: Some(50),
        sample_rate: 16_000,
    };
    assert!(args.latency_range().is_err());
}
