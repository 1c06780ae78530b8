use pliego::telemetry::{
    append_event, disable_state, enable_state, parse_command, parse_disable, parse_export,
    parse_format, record_event, reject_arguments, report, validate_state, EventRecord,
    FunnelEvent, OutputFormat, State, TelemetryCommand, TelemetryFailure, MAX_EVENTS,
    POLICY_VERSION, REPORT_CONTRACT, STATE_CONTRACT,
};

fn strings(items: &[&str]) -> Vec<String> {
    items.iter().map(|item| item.to_string()).collect()
}

fn usage_text(failure: TelemetryFailure) -> String {
    let (usage, message) = failure.into_parts();
    assert!(usage);
    message
}

fn enable(state: &mut State, day: u64) -> Result<bool, String> {
    enable_state(state, day, "0.1.0".to_owned(), "linux".to_owned(), "x86_64".to_owned())
}

fn record(state: &mut State, event: FunnelEvent) -> Result<bool, String> {
    record_event(state, event, 20_000, "0.1.0".to_owned(), "linux".to_owned(), "x86_64".to_owned())
}

fn event(sequence: u64) -> EventRecord {
    EventRecord {
        sequence,
        event: FunnelEvent::Check,
        day_since_unix_epoch: 1,
        cli_version: "0.1.0".to_owned(),
        platform: "linux".to_owned(),
        architecture: "aarch64".to_owned(),
    }
}

#[test]
fn consent_is_explicit_bounded_and_deletable() {
    let mut state = State::default();
    assert!(!enable(&mut state, 19_999).unwrap());
    assert!(enable(&mut state, 20_001).unwrap());
    assert_eq!(state.enabled_at_day, Some(19_999));
    for _ in 0..80 {
        assert!(record(&mut state, FunnelEvent::Build).unwrap());
    }
    assert!(state.enabled);
    assert_eq!(state.events.len(), MAX_EVENTS);
    assert!(state.events.iter().all(|event| event.event == FunnelEvent::Build));
    assert_eq!(state.next_sequence, 81);
    assert_eq!(state.events[0].sequence, 17);
    assert_eq!(state.events[63].sequence, 80);
    assert!(validate_state(&state).is_ok());
    disable_state(&mut state);
    assert!(!state.enabled);
    assert_eq!(state.enabled_at_day, None);
    assert_eq!(state.events.len(), MAX_EVENTS);
    assert!(!record(&mut state, FunnelEvent::New).unwrap());
    assert_eq!(state.next_sequence, 81);
    assert!(validate_state(&state).is_ok());
}

#[test]
fn default_state_is_disabled_and_records_nothing() {
    let mut state = State::default();
    assert_eq!(state.contract, STATE_CONTRACT);
    assert_eq!(state.policy_version, POLICY_VERSION);
    assert!(!state.enabled);
    assert!(!record(&mut state, FunnelEvent::New).unwrap());
    assert_eq!(state.next_sequence, 0);
    assert!(state.events.is_empty());
    assert!(validate_state(&state).is_ok());
}

#[test]
fn enabling_records_the_install_event_first() {
    let mut state = State::default();
    assert!(!enable(&mut state, 20_100).unwrap());
    assert!(record(&mut state, FunnelEvent::New).unwrap());
    assert_eq!(state.events.len(), 2);
    assert_eq!(state.events[0].event, FunnelEvent::Install);
    assert_eq!(state.events[0].sequence, 0);
    assert_eq!(state.events[0].day_since_unix_epoch, 20_100);
    assert_eq!(state.events[1].event, FunnelEvent::New);
    assert_eq!(state.events[1].sequence, 1);
    assert_eq!(state.events[1].architecture, "x86_64");
}

#[test]
fn exhausted_sequence_is_refused_without_change() {
    let mut state = State::default();
    state.enabled = true;
    state.enabled_at_day = Some(3);
    state.next_sequence = u64::MAX;
    let error = append_event(
        &mut state,
        FunnelEvent::Dev,
        4,
        "0.1.0".to_owned(),
        "linux".to_owned(),
        "x86_64".to_owned(),
    )
    .unwrap_err();
    assert_eq!(error, "telemetry sequence exhausted");
    assert!(state.events.is_empty());
    assert_eq!(state.next_sequence, u64::MAX);
    assert_eq!(record(&mut state, FunnelEvent::Dev).unwrap_err(), "telemetry sequence exhausted");
}

#[test]
fn unknown_or_inconsistent_state_is_refused() {
    let mut foreign = State::default();
    foreign.contract = "dev.pliegors.telemetry-state/v2".to_owned();
    assert_eq!(
        validate_state(&foreign).unwrap_err(),
        "unsupported telemetry state contract or policy"
    );

    let mut inconsistent = State::default();
    inconsistent.enabled = true;
    assert_eq!(
        validate_state(&inconsistent).unwrap_err(),
        "telemetry consent state is inconsistent"
    );

    let mut crowded = State::default();
    crowded.next_sequence = 100;
    crowded.events = (0..65).map(event).collect();
    assert_eq!(
        validate_state(&crowded).unwrap_err(),
        "telemetry state exceeds the 64-event bound"
    );

    let mut unordered = State::default();
    unordered.next_sequence = 10;
    unordered.events = vec![event(4), event(4)];
    assert_eq!(
        validate_state(&unordered).unwrap_err(),
        "telemetry event contract is invalid"
    );

    let mut ahead = State::default();
    ahead.next_sequence = 4;
    ahead.events = vec![event(4)];
    assert_eq!(validate_state(&ahead).unwrap_err(), "telemetry event contract is invalid");

    let mut blank = State::default();
    blank.next_sequence = 4;
    blank.events = vec![event(1)];
    blank.events[0].platform = String::new();
    assert_eq!(validate_state(&blank).unwrap_err(), "telemetry event contract is invalid");
}

#[test]
fn event_text_bounds_count_utf8_bytes() {
    let mut state = State::default();
    state.next_sequence = 2;
    state.events = vec![event(1)];
    state.events[0].cli_version = "é".repeat(64);
    assert!(validate_state(&state).is_ok());
    state.events[0].cli_version = "é".repeat(65);
    assert_eq!(validate_state(&state).unwrap_err(), "telemetry event contract is invalid");
    state.events[0].cli_version = "0.1.0".to_owned();
    state.events[0].architecture = "a".repeat(33);
    assert_eq!(validate_state(&state).unwrap_err(), "telemetry event contract is invalid");
}

#[test]
fn report_holds_only_consent_fields_and_events() {
    let mut state = State::default();
    enable(&mut state, 7).unwrap();
    record(&mut state, FunnelEvent::New).unwrap();
    let preview = report(&state, 9);
    assert_eq!(preview.contract, REPORT_CONTRACT);
    assert_eq!(preview.generated_at_day, 9);
    assert!(preview.consent.enabled);
    assert_eq!(preview.consent.policy_version, POLICY_VERSION);
    assert_eq!(preview.consent.enabled_at_day, Some(7));
    assert_eq!(
        preview.fields,
        ["sequence", "event", "daySinceUnixEpoch", "cliVersion", "platform", "architecture"]
    );
    assert_eq!(preview.events.len(), 2);
    assert_eq!(preview.events[0].event, FunnelEvent::Install);
    assert_eq!(preview.events[1].event, FunnelEvent::New);
}

#[test]
fn status_and_preview_formats_are_exact() {
    assert_eq!(parse_format(vec![]).ok(), Some(OutputFormat::Human));
    assert_eq!(parse_format(strings(&["--format", "human"])).ok(), Some(OutputFormat::Human));
    assert_eq!(parse_format(strings(&["--format", "json"])).ok(), Some(OutputFormat::Json));
    for wrong in [&["--format"][..], &["--format", "yaml"], &["--json"], &["--format", "json", "x"]] {
        let message = usage_text(parse_format(strings(wrong)).err().unwrap());
        assert_eq!(
            message,
            "telemetry status/preview accepts only `--format human` or `--format json`"
        );
    }
}

#[test]
fn export_and_disable_options_are_exact() {
    assert_eq!(parse_export(strings(&["--output", "events.json"])).ok(), Some("events.json".to_owned()));
    for wrong in [&["--output", ""][..], &["--output"], &["events.json"], &["--out", "a"]] {
        assert_eq!(
            usage_text(parse_export(strings(wrong)).err().unwrap()),
            "usage: pliego telemetry export --output <new-file>"
        );
    }
    assert_eq!(parse_disable(vec![]).ok(), Some(false));
    assert_eq!(parse_disable(strings(&["--delete-local"])).ok(), Some(true));
    assert_eq!(
        usage_text(parse_disable(strings(&["--delete"])).err().unwrap()),
        "usage: pliego telemetry disable [--delete-local]"
    );
    assert!(reject_arguments(&vec![]).is_ok());
    assert_eq!(
        usage_text(reject_arguments(&strings(&["now"])).err().unwrap()),
        "usage: pliego telemetry <status|enable|preview|export|disable> [options]"
    );
}

#[test]
fn telemetry_commands_are_read_with_their_options() {
    assert!(matches!(
        parse_command(strings(&["status"])),
        Ok(TelemetryCommand::Status(OutputFormat::Human))
    ));
    assert!(matches!(
        parse_command(strings(&["preview", "--format", "json"])),
        Ok(TelemetryCommand::Preview(OutputFormat::Json))
    ));
    assert!(matches!(parse_command(strings(&["enable"])), Ok(TelemetryCommand::Enable)));
    match parse_command(strings(&["export", "--output", "out.json"])) {
        Ok(TelemetryCommand::Export(path)) => assert_eq!(path, "out.json"),
        _ => panic!("export was not read"),
    }
    assert!(matches!(
        parse_command(strings(&["disable", "--delete-local"])),
        Ok(TelemetryCommand::Disable(true))
    ));
    let usage = "usage: pliego telemetry <status|enable|preview|export|disable> [options]";
    assert_eq!(usage_text(parse_command(vec![]).err().unwrap()), usage);
    assert_eq!(usage_text(parse_command(strings(&["submit"])).err().unwrap()), usage);
    assert_eq!(usage_text(parse_command(strings(&["enable", "now"])).err().unwrap()), usage);
    assert_eq!(
        usage_text(parse_command(strings(&["status", "--format", "xml"])).err().unwrap()),
        "telemetry status/preview accepts only `--format human` or `--format json`"
    );
}

#[test]
fn storage_failures_are_not_usage() {
    let (usage, message) = TelemetryFailure::Storage("disk full".to_owned()).into_parts();
    assert!(!usage);
    assert_eq!(message, "disk full");
}
