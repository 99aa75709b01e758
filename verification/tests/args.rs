use ocu::args::{parse_args, AppConfig, ArgsError, OutputMode, UsageSource};

fn strings(args: &[&str]) -> Vec<String> {
    args.iter().map(|a| a.to_string()).collect()
}

#[test]
fn parse_args_should_use_ratatui_output_by_default() {
    assert_eq!(
        parse_args(Vec::<String>::new()).expect("empty args are valid"),
        AppConfig {
            output_mode: OutputMode::Ratatui,
            source: UsageSource::Localhost,
        }
    );
}

#[test]
fn parse_args_should_reject_unknown_arguments() {
    let err = parse_args(vec!["--legacy".to_string()]).expect_err("unknown args are rejected");

    assert!(err.message().contains("unexpected argument"));
}

#[test]
fn parse_args_should_accept_plain_output_mode() {
    assert_eq!(
        parse_args(vec!["--plain".to_string()]).expect("plain mode is valid"),
        AppConfig {
            output_mode: OutputMode::Plain,
            source: UsageSource::Localhost,
        }
    );
}

#[test]
fn parse_args_should_accept_localhost_with_plain_output() {
    assert_eq!(
        parse_args(vec!["--localhost".to_string(), "--plain".to_string()])
            .expect("localhost plain mode is valid"),
        AppConfig {
            output_mode: OutputMode::Plain,
            source: UsageSource::Localhost,
        }
    );
}

#[test]
fn parse_args_should_accept_an_explicit_ssh_host() {
    assert_eq!(
        parse_args(vec!["--host".to_string(), "build-box".to_string()])
            .expect("host mode is valid"),
        AppConfig {
            output_mode: OutputMode::Ratatui,
            source: UsageSource::Remote("build-box".to_string()),
        }
    );
}

#[test]
fn parse_args_should_reject_multiple_sources() {
    let error = parse_args(vec!["--localhost".to_string(), "--host=build-box".to_string()])
        .expect_err("sources are mutually exclusive");

    assert!(error.message().contains("choose only one usage source"));
}

#[test]
fn host_assignment_form_selects_the_target() {
    assert_eq!(
        parse_args(strings(&["--plain", "--host=user@example.net"])).unwrap(),
        AppConfig {
            output_mode: OutputMode::Plain,
            source: UsageSource::Remote("user@example.net".to_string()),
        }
    );
}

#[test]
fn plain_after_host_keeps_the_target() {
    assert_eq!(
        parse_args(strings(&["--host", "build-box", "--plain"])).unwrap(),
        AppConfig {
            output_mode: OutputMode::Plain,
            source: UsageSource::Remote("build-box".to_string()),
        }
    );
}

#[test]
fn host_value_is_taken_verbatim_even_when_it_looks_like_an_option() {
    assert_eq!(
        parse_args(strings(&["--host", "--localhost"])).unwrap(),
        AppConfig {
            output_mode: OutputMode::Ratatui,
            source: UsageSource::Remote("--localhost".to_string()),
        }
    );
}

#[test]
fn host_without_target_is_refused() {
    assert_eq!(parse_args(strings(&["--host"])), Err(ArgsError::MissingHost));
}

#[test]
fn blank_host_targets_are_refused() {
    assert_eq!(parse_args(strings(&["--host", "  \t"])), Err(ArgsError::MissingHost));
    assert_eq!(parse_args(strings(&["--host="])), Err(ArgsError::MissingHost));
    assert_eq!(parse_args(strings(&["--host=\u{3000}"])), Err(ArgsError::MissingHost));
}

#[test]
fn host_target_with_inner_text_is_kept_untrimmed() {
    assert_eq!(
        parse_args(strings(&["--host= box "])).unwrap().source,
        UsageSource::Remote(" box ".to_string())
    );
}

#[test]
fn second_source_is_refused_in_every_form() {
    assert_eq!(
        parse_args(strings(&["--host", "a", "--localhost"])),
        Err(ArgsError::ConflictingSources)
    );
    assert_eq!(
        parse_args(strings(&["--localhost", "--localhost"])),
        Err(ArgsError::ConflictingSources)
    );
    assert_eq!(
        parse_args(strings(&["--host=a", "--host", "b"])),
        Err(ArgsError::ConflictingSources)
    );
}

#[test]
fn first_refusal_wins() {
    assert_eq!(
        parse_args(strings(&["--bogus", "--host"])),
        Err(ArgsError::UnexpectedArgument("--bogus".to_string()))
    );
    assert_eq!(
        parse_args(strings(&["--localhost", "--host", "--nope"])),
        Err(ArgsError::ConflictingSources)
    );
}

#[test]
fn localhost_alone_is_the_default() {
    assert_eq!(
        parse_args(strings(&["--localhost"])).unwrap(),
        parse_args(Vec::new()).unwrap()
    );
}

#[test]
fn unknown_argument_after_valid_ones_is_named() {
    assert_eq!(
        parse_args(strings(&["--plain", "extra"])),
        Err(ArgsError::UnexpectedArgument("extra".to_string()))
    );
}

#[test]
fn refusal_messages_are_exact() {
    assert_eq!(
        ArgsError::ConflictingSources.message(),
        "choose only one usage source: --localhost or --host"
    );
    assert_eq!(ArgsError::MissingHost.message(), "--host requires an SSH target");
    assert_eq!(
        ArgsError::UnexpectedArgument("--legacy".to_string()).message(),
        "unexpected argument `--legacy`; usage: ocu [--plain] [--localhost | --host <ssh-target>]"
    );
}

#[test]
fn plain_may_stand_at_any_flag_position() {
    let expected = AppConfig {
        output_mode: OutputMode::Plain,
        source: UsageSource::Remote("box".to_string()),
    };
    assert_eq!(parse_args(strings(&["--plain", "--host", "box"])).unwrap(), expected);
    assert_eq!(parse_args(strings(&["--host", "box", "--plain"])).unwrap(), expected);
    assert_eq!(parse_args(strings(&["--plain", "--host", "box", "--plain"])).unwrap(), expected);
}

#[test]
fn plain_after_a_host_flag_is_its_target() {
    assert_eq!(
        parse_args(strings(&["--host", "--plain"])).unwrap(),
        AppConfig {
            output_mode: OutputMode::Ratatui,
            source: UsageSource::Remote("--plain".to_string()),
        }
    );
}
