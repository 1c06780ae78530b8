//! Voluntary, local-only usage telemetry: explicit consent, a bounded queue
//! of coarse events, and a preview that holds nothing but an allowlist.
use vstd::prelude::*;
use crate::text::{chars_of, str_eq, utf8_len, utf8_len_of};

verus! {

broadcast use vstd::string::group_string_axioms;

pub const STATE_CONTRACT: &'static str = "dev.pliegors.telemetry-state/v1";

pub const REPORT_CONTRACT: &'static str = "dev.pliegors.telemetry-report/v1";

pub const STATUS_CONTRACT: &'static str = "dev.pliegors.telemetry-status/v1";

pub const POLICY_VERSION: &'static str = "1.0.0";

/// Largest state file read.
pub const MAX_STATE_BYTES: u64 = 65536;

/// Most events kept; the oldest leaves first.
pub const MAX_EVENTS: usize = 64;

/// A coarse step of the project funnel.
#[derive(Clone, Copy, Debug, PartialEq, Eq, Structural)]
pub enum FunnelEvent {
    Install,
    New,
    Check,
    Dev,
    Build,
}

/// One recorded event.
#[derive(Clone, Debug)]
pub struct EventRecord {
    pub sequence: u64,
    pub event: FunnelEvent,
    pub day_since_unix_epoch: u64,
    pub cli_version: String,
    pub platform: String,
    pub architecture: String,
}

/// The local telemetry state.
#[derive(Clone, Debug)]
pub struct State {
    pub contract: String,
    pub policy_version: String,
    pub enabled: bool,
    pub enabled_at_day: Option<u64>,
    pub next_sequence: u64,
    pub events: Vec<EventRecord>,
}

impl Default for State {
    /// Disabled, empty, under the current contract and policy.
    fn default() -> (s: State)
        ensures
            s.contract@ == STATE_CONTRACT@,
            s.policy_version@ == POLICY_VERSION@,
            !s.enabled,
            s.enabled_at_day is None,
            s.next_sequence == 0,
            s.events@.len() == 0,
    {
        State {
            contract: STATE_CONTRACT.to_owned(),
            policy_version: POLICY_VERSION.to_owned(),
            enabled: false,
            enabled_at_day: None,
            next_sequence: 0,
            events: Vec::new(),
        }
    }
}

/// A telemetry command that failed: misuse, or local storage.
pub enum TelemetryFailure {
    Usage(String),
    Storage(String),
}

impl TelemetryFailure {
    /// Whether the failure is misuse, and its message.
    pub fn into_parts(self) -> (r: (bool, String))
        ensures
            match self {
                TelemetryFailure::Usage(m) => r.0 && r.1 == m,
                TelemetryFailure::Storage(m) => !r.0 && r.1 == m,
            },
    {
        match self {
            TelemetryFailure::Usage(message) => (true, message),
            TelemetryFailure::Storage(message) => (false, message),
        }
    }
}

/// How status and previews are printed.
#[derive(Clone, Copy, Debug, PartialEq, Eq, Structural)]
pub enum OutputFormat {
    Human,
    Json,
}

/// Consent as a preview shows it.
#[derive(Clone, Copy, Debug)]
pub struct ConsentReport {
    pub enabled: bool,
    pub policy_version: &'static str,
    pub enabled_at_day: Option<u64>,
}

/// The preview and export of the local state: the consent, the names of the
/// fields an event holds, and the events themselves, nothing else.
#[derive(Clone, Copy, Debug)]
pub struct TelemetryReport<'a> {
    pub contract: &'static str,
    pub generated_at_day: u64,
    pub consent: ConsentReport,
    pub fields: [&'static str; 6],
    pub events: &'a [EventRecord],
}

/// A recorded event of a valid state.
pub open spec fn event_ok(events: Seq<EventRecord>, k: int, next_sequence: u64) -> bool {
    let e = events[k];
    &&& (k == 0 || events[k - 1].sequence < e.sequence)
    &&& e.sequence < next_sequence
    &&& 0 < utf8_len(e.cli_version@) <= 128
    &&& 0 < utf8_len(e.platform@) <= 32
    &&& 0 < utf8_len(e.architecture@) <= 32
}

/// What `validate_state` refuses, in its order.
pub open spec fn state_fault(s: State) -> Option<Seq<char>> {
    if s.contract@ != STATE_CONTRACT@ || s.policy_version@ != POLICY_VERSION@ {
        Some("unsupported telemetry state contract or policy"@)
    } else if s.events.len() > MAX_EVENTS {
        Some("telemetry state exceeds the 64-event bound"@)
    } else if s.enabled != s.enabled_at_day is Some {
        Some("telemetry consent state is inconsistent"@)
    } else if exists|k: int| 0 <= k < s.events.len() && !#[trigger] event_ok(s.events@, k, s.next_sequence) {
        Some("telemetry event contract is invalid"@)
    } else {
        None
    }
}

pub open spec fn text_outcome(r: Result<(), String>, f: Option<Seq<char>>) -> bool {
    match f {
        None => r is Ok,
        Some(m) => r matches Err(e) && e@ == m,
    }
}

fn bounded_text(s: &str, max: usize) -> (b: bool)
    requires
        max <= 128,
    ensures
        b == (0 < utf8_len(s@) <= max),
{
    let n = utf8_len_of(chars_of(s).as_slice());
    n > 0 && n <= max
}

/// Checks a state read from disk.
pub fn validate_state(state: &State) -> (r: Result<(), String>)
    ensures
        text_outcome(r, state_fault(*state)),
{
    if !str_eq(state.contract.as_str(), STATE_CONTRACT) || !str_eq(state.policy_version.as_str(), POLICY_VERSION) {
        return Err("unsupported telemetry state contract or policy".to_owned());
    }
    if state.events.len() > MAX_EVENTS {
        return Err("telemetry state exceeds the 64-event bound".to_owned());
    }
    if state.enabled != state.enabled_at_day.is_some() {
        return Err("telemetry consent state is inconsistent".to_owned());
    }
    let mut k: usize = 0;
    while k < state.events.len()
        invariant
            k <= state.events.len(),
            state.contract@ == STATE_CONTRACT@ && state.policy_version@ == POLICY_VERSION@,
            state.events.len() <= MAX_EVENTS,
            state.enabled == state.enabled_at_day is Some,
            forall|j: int| 0 <= j < k ==> #[trigger] event_ok(state.events@, j, state.next_sequence),
        decreases state.events.len() - k,
    {
        let e = &state.events[k];
        if (k > 0 && e.sequence <= state.events[k - 1].sequence) || e.sequence >= state.next_sequence || !bounded_text(
            e.cli_version.as_str(),
            128,
        ) || !bounded_text(e.platform.as_str(), 32) || !bounded_text(e.architecture.as_str(), 32) {
            assert(!event_ok(state.events@, k as int, state.next_sequence));
            return Err("telemetry event contract is invalid".to_owned());
        }
        k = k + 1;
    }
    Ok(())
}

/// The queue after a record joins it: the oldest leaves when it is full.
pub open spec fn queued(events: Seq<EventRecord>, record: EventRecord) -> Seq<EventRecord> {
    if events.len() + 1 > MAX_EVENTS {
        events.push(record).drop_first()
    } else {
        events.push(record)
    }
}

/// `after` is `before` with only its events and next sequence changed.
pub open spec fn same_consent(after: State, before: State) -> bool {
    &&& after.contract == before.contract
    &&& after.policy_version == before.policy_version
    &&& after.enabled == before.enabled
    &&& after.enabled_at_day == before.enabled_at_day
}

/// The record `append_event` adds.
pub open spec fn next_record(
    s: State,
    event: FunnelEvent,
    day: u64,
    cli_version: String,
    platform: String,
    architecture: String,
) -> EventRecord {
    EventRecord {
        sequence: s.next_sequence,
        event,
        day_since_unix_epoch: day,
        cli_version,
        platform,
        architecture,
    }
}

/// Appends an event stamped with the day, version, platform and
/// architecture, keeping at most `MAX_EVENTS`; refused once the sequence
/// is exhausted.
pub fn append_event(
    state: &mut State,
    event: FunnelEvent,
    day: u64,
    cli_version: String,
    platform: String,
    architecture: String,
) -> (r: Result<(), String>)
    ensures
        old(state).next_sequence == u64::MAX ==> (*final(state) == *old(state) && (r matches Err(m) && m@
            == "telemetry sequence exhausted"@)),
        old(state).next_sequence < u64::MAX ==> {
            &&& r is Ok
            &&& same_consent(*final(state), *old(state))
            &&& final(state).next_sequence == old(state).next_sequence + 1
            &&& final(state).events@ == queued(
                old(state).events@,
                next_record(*old(state), event, day, cli_version, platform, architecture),
            )
        },
{
    if state.next_sequence == u64::MAX {
        return Err("telemetry sequence exhausted".to_owned());
    }
    let record = EventRecord {
        sequence: state.next_sequence,
        event,
        day_since_unix_epoch: day,
        cli_version,
        platform,
        architecture,
    };
    state.next_sequence = state.next_sequence + 1;
    state.events.push(record);
    if state.events.len() > MAX_EVENTS {
        state.events.remove(0);
    }
    Ok(())
}

/// The new record of an event keeps a valid state valid.
pub open spec fn record_fields_ok(cli_version: String, platform: String, architecture: String) -> bool {
    &&& 0 < utf8_len(cli_version@) <= 128
    &&& 0 < utf8_len(platform@) <= 32
    &&& 0 < utf8_len(architecture@) <= 32
}

/// Appending an event with valid fields to a valid state leaves it valid:
/// at most `MAX_EVENTS` events, strictly increasing sequences below the
/// next one, and consent untouched.
pub proof fn law_append_keeps_state_valid(
    before: State,
    after: State,
    event: FunnelEvent,
    day: u64,
    cli_version: String,
    platform: String,
    architecture: String,
)
    requires
        state_fault(before) is None,
        record_fields_ok(cli_version, platform, architecture),
        before.next_sequence < u64::MAX,
        same_consent(after, before),
        after.next_sequence == before.next_sequence + 1,
        after.events@ == queued(before.events@, next_record(before, event, day, cli_version, platform, architecture)),
    ensures
        state_fault(after) is None,
        after.events@.len() <= MAX_EVENTS,
{
    let rec = next_record(before, event, day, cli_version, platform, architecture);
    let pushed = before.events@.push(rec);
    assert forall|k: int| 0 <= k < pushed.len() implies #[trigger] event_ok(pushed, k, after.next_sequence) by {
        if k < before.events.len() {
            assert(event_ok(before.events@, k, before.next_sequence));
            assert(pushed[k] == before.events@[k]);
            if k > 0 {
                assert(pushed[k - 1] == before.events@[k - 1]);
            }
        } else {
            if k > 0 {
                assert(event_ok(before.events@, k - 1, before.next_sequence));
                assert(pushed[k - 1] == before.events@[k - 1]);
            }
        }
    }
    if pushed.len() > MAX_EVENTS {
        let q = pushed.drop_first();
        assert forall|k: int| 0 <= k < q.len() implies #[trigger] event_ok(q, k, after.next_sequence) by {
            assert(event_ok(pushed, k + 1, after.next_sequence));
            assert(q[k] == pushed[k + 1]);
            if k > 0 {
                assert(q[k - 1] == pushed[k]);
            }
        }
    }
}

/// Turns consent on, recording the install event on the day given; says
/// whether it already was on.
pub fn enable_state(
    state: &mut State,
    day: u64,
    cli_version: String,
    platform: String,
    architecture: String,
) -> (r: Result<bool, String>)
    ensures
        old(state).enabled ==> (*final(state) == *old(state) && (r matches Ok(b) && b)),
        !old(state).enabled && old(state).next_sequence == u64::MAX ==> (r matches Err(m) && m@
            == "telemetry sequence exhausted"@),
        !old(state).enabled && old(state).next_sequence < u64::MAX ==> {
            &&& r matches Ok(b) && !b
            &&& final(state).enabled
            &&& final(state).enabled_at_day == Some(day)
            &&& final(state).contract == old(state).contract
            &&& final(state).policy_version == old(state).policy_version
            &&& final(state).next_sequence == old(state).next_sequence + 1
            &&& final(state).events@ == queued(
                old(state).events@,
                next_record(*old(state), FunnelEvent::Install, day, cli_version, platform, architecture),
            )
        },
{
    if state.enabled {
        return Ok(true);
    }
    state.enabled = true;
    state.enabled_at_day = Some(day);
    match append_event(state, FunnelEvent::Install, day, cli_version, platform, architecture) {
        Ok(()) => Ok(false),
        Err(e) => Err(e),
    }
}

/// Records an event when consent is on; says whether it did.
pub fn record_event(
    state: &mut State,
    event: FunnelEvent,
    day: u64,
    cli_version: String,
    platform: String,
    architecture: String,
) -> (r: Result<bool, String>)
    ensures
        !old(state).enabled ==> (*final(state) == *old(state) && (r matches Ok(b) && !b)),
        old(state).enabled && old(state).next_sequence == u64::MAX ==> (r matches Err(m) && m@
            == "telemetry sequence exhausted"@),
        old(state).enabled && old(state).next_sequence < u64::MAX ==> {
            &&& r matches Ok(b) && b
            &&& same_consent(*final(state), *old(state))
            &&& final(state).next_sequence == old(state).next_sequence + 1
            &&& final(state).events@ == queued(
                old(state).events@,
                next_record(*old(state), event, day, cli_version, platform, architecture),
            )
        },
{
    if !state.enabled {
        return Ok(false);
    }
    match append_event(state, event, day, cli_version, platform, architecture) {
        Ok(()) => Ok(true),
        Err(e) => Err(e),
    }
}

/// Turns consent off, keeping the recorded events.
pub fn disable_state(state: &mut State)
    ensures
        !final(state).enabled,
        final(state).enabled_at_day is None,
        final(state).events@ == old(state).events@,
        final(state).next_sequence == old(state).next_sequence,
        final(state).contract == old(state).contract,
        final(state).policy_version == old(state).policy_version,
{
    state.enabled = false;
    state.enabled_at_day = None;
}

/// The report of a state, generated on the day given.
pub fn report(state: &State, day: u64) -> (r: TelemetryReport<'_>)
    ensures
        r.contract@ == REPORT_CONTRACT@,
        r.generated_at_day == day,
        r.consent.enabled == state.enabled,
        r.consent.policy_version@ == POLICY_VERSION@,
        r.consent.enabled_at_day == state.enabled_at_day,
        r.fields@.len() == 6,
        r.fields@[0]@ == "sequence"@,
        r.fields@[1]@ == "event"@,
        r.fields@[2]@ == "daySinceUnixEpoch"@,
        r.fields@[3]@ == "cliVersion"@,
        r.fields@[4]@ == "platform"@,
        r.fields@[5]@ == "architecture"@,
        r.events@ == state.events@,
{
    TelemetryReport {
        contract: REPORT_CONTRACT,
        generated_at_day: day,
        consent: ConsentReport {
            enabled: state.enabled,
            policy_version: POLICY_VERSION,
            enabled_at_day: state.enabled_at_day,
        },
        fields: ["sequence", "event", "daySinceUnixEpoch", "cliVersion", "platform", "architecture"],
        events: state.events.as_slice(),
    }
}

/// The usage failure of the telemetry command.
pub fn usage() -> (f: TelemetryFailure)
    ensures
        f matches TelemetryFailure::Usage(m) && m@
            == "usage: pliego telemetry <status|enable|preview|export|disable> [options]"@,
{
    TelemetryFailure::Usage("usage: pliego telemetry <status|enable|preview|export|disable> [options]".to_owned())
}

/// Refuses any argument.
pub fn reject_arguments(arguments: &Vec<String>) -> (r: Result<(), TelemetryFailure>)
    ensures
        r is Ok <==> arguments.len() == 0,
        r matches Err(f) ==> f matches TelemetryFailure::Usage(m) && m@
            == "usage: pliego telemetry <status|enable|preview|export|disable> [options]"@,
{
    if arguments.len() == 0 {
        Ok(())
    } else {
        Err(usage())
    }
}

/// The usage message of the command.
pub open spec fn usage_message() -> Seq<char> {
    "usage: pliego telemetry <status|enable|preview|export|disable> [options]"@
}

/// The usage message of `status` and `preview`.
pub open spec fn format_message() -> Seq<char> {
    "telemetry status/preview accepts only `--format human` or `--format json`"@
}

/// The usage message of `export`.
pub open spec fn export_message() -> Seq<char> {
    "usage: pliego telemetry export --output <new-file>"@
}

/// The usage message of `disable`.
pub open spec fn disable_message() -> Seq<char> {
    "usage: pliego telemetry disable [--delete-local]"@
}

/// A usage failure with the message given.
pub open spec fn usage_with(r: TelemetryFailure, message: Seq<char>) -> bool {
    r matches TelemetryFailure::Usage(m) && m@ == message
}

/// The format the options ask for, if they are well formed.
pub open spec fn format_choice(args: Seq<String>) -> Option<OutputFormat> {
    if args.len() == 0 {
        Some(OutputFormat::Human)
    } else if args.len() == 2 && args[0]@ == "--format"@ && args[1]@ == "human"@ {
        Some(OutputFormat::Human)
    } else if args.len() == 2 && args[0]@ == "--format"@ && args[1]@ == "json"@ {
        Some(OutputFormat::Json)
    } else {
        None
    }
}

/// Whether the options of `export` are well formed: `--output` and a
/// non-empty file name.
pub open spec fn export_ok(args: Seq<String>) -> bool {
    args.len() == 2 && args[0]@ == "--output"@ && args[1]@.len() > 0
}

/// Whether `disable` deletes the local state, if its options are well formed.
pub open spec fn disable_choice(args: Seq<String>) -> Option<bool> {
    if args.len() == 0 {
        Some(false)
    } else if args.len() == 1 && args[0]@ == "--delete-local"@ {
        Some(true)
    } else {
        None
    }
}

/// The output format of `status` and `preview`: human unless `--format json`.
pub fn parse_format(arguments: Vec<String>) -> (r: Result<OutputFormat, TelemetryFailure>)
    ensures
        match format_choice(arguments@) {
            Some(f) => r == Ok::<OutputFormat, TelemetryFailure>(f),
            None => r matches Err(e) && usage_with(e, format_message()),
        },
{
    proof {
        reveal_strlit("human");
        reveal_strlit("json");
        assert("human"@.len() != "json"@.len());
    }
    if arguments.len() == 0 {
        return Ok(OutputFormat::Human);
    }
    if arguments.len() == 2 && str_eq(arguments[0].as_str(), "--format") {
        if str_eq(arguments[1].as_str(), "human") {
            return Ok(OutputFormat::Human);
        }
        if str_eq(arguments[1].as_str(), "json") {
            return Ok(OutputFormat::Json);
        }
    }
    Err(TelemetryFailure::Usage("telemetry status/preview accepts only `--format human` or `--format json`".to_owned()))
}

/// The output file of `export`.
pub fn parse_export(arguments: Vec<String>) -> (r: Result<String, TelemetryFailure>)
    ensures
        export_ok(arguments@) ==> (r matches Ok(p) && p@ == arguments@[1]@),
        !export_ok(arguments@) ==> (r matches Err(e) && usage_with(e, export_message())),
{
    if arguments.len() == 2 && str_eq(arguments[0].as_str(), "--output") && chars_of(arguments[1].as_str()).len() > 0 {
        return Ok(arguments[1].clone());
    }
    Err(TelemetryFailure::Usage("usage: pliego telemetry export --output <new-file>".to_owned()))
}

/// Whether `disable` also deletes the local state.
pub fn parse_disable(arguments: Vec<String>) -> (r: Result<bool, TelemetryFailure>)
    ensures
        match disable_choice(arguments@) {
            Some(b) => r == Ok::<bool, TelemetryFailure>(b),
            None => r matches Err(e) && usage_with(e, disable_message()),
        },
{
    if arguments.len() == 0 {
        return Ok(false);
    }
    if arguments.len() == 1 && str_eq(arguments[0].as_str(), "--delete-local") {
        return Ok(true);
    }
    Err(TelemetryFailure::Usage("usage: pliego telemetry disable [--delete-local]".to_owned()))
}

/// A telemetry command, with its options read.
pub enum TelemetryCommand {
    Status(OutputFormat),
    Enable,
    Preview(OutputFormat),
    Export(String),
    Disable(bool),
}

/// Reads the telemetry command and its options: `status` and `preview`
/// take a format, `enable` nothing, `export` an output file, `disable` an
/// optional `--delete-local`; anything else is a usage failure.
pub fn parse_command(arguments: Vec<String>) -> (r: Result<TelemetryCommand, TelemetryFailure>)
    ensures
        arguments.len() == 0 ==> (r matches Err(e) && usage_with(e, usage_message())),
        arguments.len() > 0 ==> {
            let name = arguments@[0]@;
            let rest = arguments@.drop_first();
            &&& name == "status"@ ==> match format_choice(rest) {
                Some(f) => r matches Ok(TelemetryCommand::Status(g)) && g == f,
                None => r matches Err(e) && usage_with(e, format_message()),
            }
            &&& name == "preview"@ ==> match format_choice(rest) {
                Some(f) => r matches Ok(TelemetryCommand::Preview(g)) && g == f,
                None => r matches Err(e) && usage_with(e, format_message()),
            }
            &&& name == "enable"@ ==> if rest.len() == 0 {
                r matches Ok(TelemetryCommand::Enable)
            } else {
                r matches Err(e) && usage_with(e, usage_message())
            }
            &&& name == "export"@ ==> if export_ok(rest) {
                r matches Ok(TelemetryCommand::Export(p)) && p@ == rest[1]@
            } else {
                r matches Err(e) && usage_with(e, export_message())
            }
            &&& name == "disable"@ ==> match disable_choice(rest) {
                Some(b) => r matches Ok(TelemetryCommand::Disable(d)) && d == b,
                None => r matches Err(e) && usage_with(e, disable_message()),
            }
            &&& (name != "status"@ && name != "preview"@ && name != "enable"@ && name != "export"@ && name
                != "disable"@) ==> (r matches Err(e) && usage_with(e, usage_message()))
        },
{
    proof {
        reveal_strlit("status");
        reveal_strlit("preview");
        reveal_strlit("enable");
        reveal_strlit("export");
        reveal_strlit("disable");
        assert("status"@[0] != "preview"@[0] && "status"@[0] != "enable"@[0] && "status"@[0] != "export"@[0]);
        assert("status"@[0] != "disable"@[0] && "preview"@[0] != "enable"@[0] && "preview"@[0] != "export"@[0]);
        assert("preview"@[0] != "disable"@[0] && "enable"@[1] != "export"@[1] && "enable"@[0] != "disable"@[0]);
        assert("export"@[0] != "disable"@[0]);
    }
    if arguments.len() == 0 {
        return Err(usage());
    }
    let mut rest = arguments;
    let name = rest.remove(0);
    assert(rest@ == arguments@.drop_first());
    if str_eq(name.as_str(), "status") {
        match parse_format(rest) {
            Ok(f) => Ok(TelemetryCommand::Status(f)),
            Err(e) => Err(e),
        }
    } else if str_eq(name.as_str(), "preview") {
        match parse_format(rest) {
            Ok(f) => Ok(TelemetryCommand::Preview(f)),
            Err(e) => Err(e),
        }
    } else if str_eq(name.as_str(), "enable") {
        match reject_arguments(&rest) {
            Ok(()) => Ok(TelemetryCommand::Enable),
            Err(e) => Err(e),
        }
    } else if str_eq(name.as_str(), "export") {
        match parse_export(rest) {
            Ok(p) => Ok(TelemetryCommand::Export(p)),
            Err(e) => Err(e),
        }
    } else if str_eq(name.as_str(), "disable") {
        match parse_disable(rest) {
            Ok(b) => Ok(TelemetryCommand::Disable(b)),
            Err(e) => Err(e),
        }
    } else {
        Err(usage())
    }
}

} // verus!
