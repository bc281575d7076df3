//! The resource guard: which kind of indexing the machine's state allows.
use vstd::prelude::*;
use crate::json_fields::{
    number_field, parse_decimal, read_number_field,
    read_string_array_field, read_string_field, string_array_field, string_field,
    strings_view, trailing_digits, parse_digits, };
use crate::text::{
    chars_of, contains_chars, contains_seq, find_char, find_seq, is_digit, is_digit_char,
    sub_chars,
};

verus! {

#[derive(Debug, Clone, PartialEq, Eq)]
pub struct ResourcePolicy {
    pub physical_id: String,
    pub professional_description: String,
    pub low_battery_percent: u8,
    pub high_cpu_temperature_celsius: u16,
    pub battery_probe_failure_percent: u8,
    pub cpu_temperature_probe_failure_celsius: u16,
    pub full_disk_access_probe_paths: Vec<String>,
}

#[derive(Debug, Clone, PartialEq, Eq)]
pub struct PolicyParseError {
    pub field: &'static str,
}

// ---------------------------------------------------------------------------
// Reading the policy
// ---------------------------------------------------------------------------
/// The `u8` value of `field`: read as a `u16`, then narrowed.
pub open spec fn u8_field(payload: Seq<char>, field: Seq<char>) -> Option<nat> {
    match number_field(payload, field, 65535) {
        Some(v) => if v <= 255 {
            Some(v)
        } else {
            None
        },
        None => None,
    }
}

/// The first field, in reading order, that the payload does not hold in the
/// expected form.
pub open spec fn resource_policy_error(payload: Seq<char>) -> Option<Seq<char>> {
    if string_field(payload, "physical_id"@) is None {
        Some("physical_id"@)
    } else if string_field(payload, "professional_description"@) is None {
        Some("professional_description"@)
    } else if u8_field(payload, "low_battery_percent"@) is None {
        Some("low_battery_percent"@)
    } else if number_field(payload, "high_cpu_temperature_celsius"@, 65535) is None {
        Some("high_cpu_temperature_celsius"@)
    } else if u8_field(payload, "battery_probe_failure_percent"@) is None {
        Some("battery_probe_failure_percent"@)
    } else if number_field(payload, "cpu_temperature_probe_failure_celsius"@, 65535) is None {
        Some("cpu_temperature_probe_failure_celsius"@)
    } else if string_array_field(payload, "full_disk_access_probe_paths"@) is None {
        Some("full_disk_access_probe_paths"@)
    } else {
        None
    }
}

/// Every field of `policy` holds what the payload gives for it.
pub open spec fn resource_policy_read_from(policy: ResourcePolicy, payload: Seq<char>) -> bool {
    &&& string_field(payload, "physical_id"@) == Some(policy.physical_id@)
    &&& string_field(payload, "professional_description"@) == Some(
        policy.professional_description@,
    )
    &&& u8_field(payload, "low_battery_percent"@) == Some(policy.low_battery_percent as nat)
    &&& number_field(payload, "high_cpu_temperature_celsius"@, 65535) == Some(
        policy.high_cpu_temperature_celsius as nat,
    )
    &&& u8_field(payload, "battery_probe_failure_percent"@) == Some(
        policy.battery_probe_failure_percent as nat,
    )
    &&& number_field(payload, "cpu_temperature_probe_failure_celsius"@, 65535) == Some(
        policy.cpu_temperature_probe_failure_celsius as nat,
    )
    &&& string_array_field(payload, "full_disk_access_probe_paths"@) == Some(
        strings_view(policy.full_disk_access_probe_paths@),
    )
}

fn extract_json_string(payload: &Vec<char>, field: &'static str) -> (r: Result<
    String,
    PolicyParseError,
>)
    ensures
        r matches Ok(v) ==> string_field(payload@, field@) == Some(v@),
        r matches Err(e) ==> string_field(payload@, field@) is None && e.field == field,
{
    match read_string_field(payload, field) {
        Some(v) => Ok(v),
        None => Err(PolicyParseError { field }),
    }
}

fn extract_json_u16(payload: &Vec<char>, field: &'static str) -> (r: Result<u16, PolicyParseError>)
    ensures
        r matches Ok(v) ==> number_field(payload@, field@, 65535) == Some(v as nat),
        r matches Err(e) ==> number_field(payload@, field@, 65535) is None && e.field == field,
{
    match read_number_field(payload, field, 65535) {
        Some(v) => Ok(v as u16),
        None => Err(PolicyParseError { field }),
    }
}

fn extract_json_u8(payload: &Vec<char>, field: &'static str) -> (r: Result<u8, PolicyParseError>)
    ensures
        r matches Ok(v) ==> u8_field(payload@, field@) == Some(v as nat),
        r matches Err(e) ==> u8_field(payload@, field@) is None && e.field == field,
{
    let value = extract_json_u16(payload, field)?;
    if value <= 255 {
        Ok(value as u8)
    } else {
        Err(PolicyParseError { field })
    }
}

fn extract_json_string_array(payload: &Vec<char>, field: &'static str) -> (r: Result<
    Vec<String>,
    PolicyParseError,
>)
    ensures
        r matches Ok(v) ==> string_array_field(payload@, field@) == Some(strings_view(v@)),
        r matches Err(e) ==> string_array_field(payload@, field@) is None && e.field == field,
{
    match read_string_array_field(payload, field) {
        Some(v) => Ok(v),
        None => Err(PolicyParseError { field }),
    }
}

impl ResourcePolicy {
    /// Reads the policy from its JSON configuration.  Fails with the first
    /// field, in declaration order, that is missing or malformed.
    pub fn from_json(payload: &str) -> (r: Result<Self, PolicyParseError>)
        ensures
            r is Ok <==> resource_policy_error(payload@) is None,
            r matches Ok(p) ==> resource_policy_read_from(p, payload@),
            r matches Err(e) ==> resource_policy_error(payload@) == Some(e.field@),
    {
        let text = chars_of(payload);
        Ok(
            Self {
                physical_id: extract_json_string(&text, "physical_id")?,
                professional_description: extract_json_string(&text, "professional_description")?,
                low_battery_percent: extract_json_u8(&text, "low_battery_percent")?,
                high_cpu_temperature_celsius: extract_json_u16(
                    &text,
                    "high_cpu_temperature_celsius",
                )?,
                battery_probe_failure_percent: extract_json_u8(
                    &text,
                    "battery_probe_failure_percent",
                )?,
                cpu_temperature_probe_failure_celsius: extract_json_u16(
                    &text,
                    "cpu_temperature_probe_failure_celsius",
                )?,
                full_disk_access_probe_paths: extract_json_string_array(
                    &text,
                    "full_disk_access_probe_paths",
                )?,
            },
        )
    }
}

// ---------------------------------------------------------------------------
// Machine state and decisions
// ---------------------------------------------------------------------------
#[derive(Debug, Clone, Copy, PartialEq, Eq)]
pub struct SystemSnapshot {
    pub has_full_disk_access: bool,
    pub is_plugged_in: bool,
    pub battery_percent: u8,
    pub cpu_temperature_celsius: u16,
}

/// A source of machine-state snapshots.
pub trait SystemProbe {
    fn snapshot(&self) -> SystemSnapshot;
}

#[derive(Debug, Clone, Copy, PartialEq, Eq)]
pub enum IndexingState {
    PermissionGuide,
    Building,
    Suspended,
}

#[derive(Debug, Clone, Copy, PartialEq, Eq)]
pub struct ControlDecision {
    pub indexing_state: IndexingState,
    pub allow_content_indexing: bool,
    pub allow_filename_updates: bool,
}

#[derive(Debug, Clone, Copy, PartialEq, Eq)]
pub struct SystemMetrics {
    pub is_plugged_in: bool,
    pub battery_percent: u8,
    pub cpu_temperature_celsius: u16,
}

/// The probe for a macOS machine: the paths whose readability shows Full
/// Disk Access, and the metrics assumed when the battery cannot be read.
pub struct MacOsSystemProbe {
    full_disk_access_probe_paths: Vec<String>,
    fallback_metrics: SystemMetrics,
}

/// The metrics assumed when the machine cannot be probed.
pub open spec fn fallback_metrics_of(policy: ResourcePolicy) -> SystemMetrics {
    SystemMetrics {
        is_plugged_in: false,
        battery_percent: policy.battery_probe_failure_percent,
        cpu_temperature_celsius: policy.cpu_temperature_probe_failure_celsius,
    }
}

impl MacOsSystemProbe {
    pub closed spec fn probe_paths(&self) -> Seq<String> {
        self.full_disk_access_probe_paths@
    }

    pub closed spec fn fallback(&self) -> SystemMetrics {
        self.fallback_metrics
    }

    pub fn from_policy(policy: &ResourcePolicy) -> (r: Self)
        ensures
            r.probe_paths() == policy.full_disk_access_probe_paths@,
            r.fallback() == fallback_metrics_of(*policy),
    {
        Self {
            full_disk_access_probe_paths: policy.full_disk_access_probe_paths.clone(),
            fallback_metrics: fallback_system_metrics(policy),
        }
    }

    pub fn full_disk_access_probe_paths(&self) -> (r: &[String])
        ensures
            r@ == self.probe_paths(),
    {
        self.full_disk_access_probe_paths.as_slice()
    }

    /// The snapshot made from what the platform reported: whether every
    /// probe path could be read, and the battery metrics when they could be
    /// read (the fallback metrics otherwise).
    pub fn snapshot_from_readings(&self, has_full_disk_access: bool, metrics: Option<SystemMetrics>) -> (r: SystemSnapshot)
        ensures
            r == snapshot_of_readings(has_full_disk_access, metrics, self.fallback()),
    {
        let m = match metrics {
            Some(m) => m,
            None => self.fallback_metrics,
        };
        SystemSnapshot {
            has_full_disk_access,
            is_plugged_in: m.is_plugged_in,
            battery_percent: m.battery_percent,
            cpu_temperature_celsius: m.cpu_temperature_celsius,
        }
    }
}

pub open spec fn snapshot_of_readings(
    has_full_disk_access: bool,
    metrics: Option<SystemMetrics>,
    fallback: SystemMetrics,
) -> SystemSnapshot {
    let m = match metrics {
        Some(m) => m,
        None => fallback,
    };
    SystemSnapshot {
        has_full_disk_access,
        is_plugged_in: m.is_plugged_in,
        battery_percent: m.battery_percent,
        cpu_temperature_celsius: m.cpu_temperature_celsius,
    }
}

/// The decision for a machine state: without Full Disk Access only the
/// permission guide is shown; a low unplugged battery or a hot CPU suspends
/// content indexing but keeps file-name updates; otherwise everything runs.
pub open spec fn control_state(policy: ResourcePolicy, snapshot: SystemSnapshot) -> ControlDecision {
    if !snapshot.has_full_disk_access {
        ControlDecision {
            indexing_state: IndexingState::PermissionGuide,
            allow_content_indexing: false,
            allow_filename_updates: false,
        }
    } else if (!snapshot.is_plugged_in && snapshot.battery_percent < policy.low_battery_percent)
        || snapshot.cpu_temperature_celsius > policy.high_cpu_temperature_celsius {
        ControlDecision {
            indexing_state: IndexingState::Suspended,
            allow_content_indexing: false,
            allow_filename_updates: true,
        }
    } else {
        ControlDecision {
            indexing_state: IndexingState::Building,
            allow_content_indexing: true,
            allow_filename_updates: true,
        }
    }
}

pub struct ResourcePoller<P: SystemProbe> {
    policy: ResourcePolicy,
    probe: P,
}

impl<P: SystemProbe> ResourcePoller<P> {
    pub closed spec fn policy(&self) -> ResourcePolicy {
        self.policy
    }

    pub fn new(policy: ResourcePolicy, probe: P) -> (r: Self)
        ensures
            r.policy() == policy,
    {
        Self { policy, probe }
    }

    pub closed spec fn probe(&self) -> P {
        self.probe
    }

    /// `r` is the decision on a snapshot that the probe returned.
    pub open spec fn polled(&self, r: ControlDecision) -> bool {
        exists|s: SystemSnapshot|
            call_ensures(P::snapshot, (&self.probe(),), s) && r == control_state(self.policy(), s)
    }

    /// Takes one snapshot from the probe and decides on it.
    pub fn poll_once(&self) -> (r: ControlDecision)
        ensures
            exists|s: SystemSnapshot|
                call_ensures(P::snapshot, (&self.probe(),), s) && r == control_state(self.policy(), s),
            self.polled(r),
    {
        let snapshot = self.probe.snapshot();
        let r = evaluate_control_state(&self.policy, &snapshot);
        assert(r == control_state(self.policy(), snapshot));
        r
    }
}

pub fn evaluate_resource_guard(policy: ResourcePolicy, snapshot: SystemSnapshot) -> (r: ControlDecision)
    ensures
        r == control_state(policy, snapshot),
{
    evaluate_control_state(&policy, &snapshot)
}

pub fn evaluate_control_state(policy: &ResourcePolicy, snapshot: &SystemSnapshot) -> (r: ControlDecision)
    ensures
        r == control_state(*policy, *snapshot),
{
    if !snapshot.has_full_disk_access {
        return ControlDecision {
            indexing_state: IndexingState::PermissionGuide,
            allow_content_indexing: false,
            allow_filename_updates: false,
        };
    }
    let low_unplugged_battery = !snapshot.is_plugged_in && snapshot.battery_percent
        < policy.low_battery_percent;
    let high_cpu_temperature = snapshot.cpu_temperature_celsius
        > policy.high_cpu_temperature_celsius;

    if low_unplugged_battery || high_cpu_temperature {
        return ControlDecision {
            indexing_state: IndexingState::Suspended,
            allow_content_indexing: false,
            allow_filename_updates: true,
        };
    }
    ControlDecision {
        indexing_state: IndexingState::Building,
        allow_content_indexing: true,
        allow_filename_updates: true,
    }
}

pub fn fallback_system_metrics(policy: &ResourcePolicy) -> (r: SystemMetrics)
    ensures
        r == fallback_metrics_of(*policy),
{
    SystemMetrics {
        is_plugged_in: false,
        battery_percent: policy.battery_probe_failure_percent,
        cpu_temperature_celsius: policy.cpu_temperature_probe_failure_celsius,
    }
}

/// The battery reading in the output of `pmset -g batt`: the digits right
/// before the first `%` are the charge, and the text `AC Power` anywhere
/// means the machine is plugged in.  The CPU temperature is not reported
/// there and reads as `u16::MAX`.
pub open spec fn pmset_metrics(output: Seq<char>) -> Option<SystemMetrics> {
    match find_seq(output, seq!['%']) {
        None => None,
        Some(p) => match parse_decimal(trailing_digits(output.take(p)), 255) {
            None => None,
            Some(v) => Some(
                SystemMetrics {
                    is_plugged_in: contains_seq(output, "AC Power"@),
                    battery_percent: v as u8,
                    cpu_temperature_celsius: 65535,
                },
            ),
        },
    }
}

proof fn lemma_trailing_digits(s: Seq<char>, n: int)
    requires
        0 <= n <= s.len(),
        forall|i: int| n <= i < s.len() ==> is_digit(#[trigger] s[i]),
        n == 0 || !is_digit(s[n - 1]),
    ensures
        trailing_digits(s) == s.skip(n),
    decreases s.len() - n,
{
    if n < s.len() {
        assert forall|i: int| n <= i < s.drop_last().len() implies is_digit(
            #[trigger] s.drop_last()[i],
        ) by {
            assert(s.drop_last()[i] == s[i]);
        }
        lemma_trailing_digits(s.drop_last(), n);
        assert(s.drop_last().skip(n).push(s.last()) =~= s.skip(n));
    } else {
        assert(s.skip(n) =~= seq![]);
    }
}

pub fn parse_pmset_battery_output(output: &str) -> (r: Option<SystemMetrics>)
    ensures
        r == pmset_metrics(output@),
{
    let text = chars_of(output);
    let marker = chars_of("AC Power");
    let is_plugged_in = contains_chars(&text, &marker);
    let percent_index = match find_char(&text, '%') {
        Some(p) => p,
        None => { return None; },
    };
    let before = sub_chars(&text, 0, percent_index);
    assert(before@ =~= text@.take(percent_index as int));
    let mut n = before.len();
    while n > 0 && is_digit_char(before[n - 1])
        invariant
            n <= before.len(),
            forall|i: int| n <= i < before@.len() ==> is_digit(#[trigger] before@[i]),
        decreases n,
    {
        n = n - 1;
    }
    proof {
        lemma_trailing_digits(before@, n as int);
    }
    let len = before.len();
    let digits = sub_chars(&before, n, len);
    assert(digits@ =~= before@.skip(n as int));
    let battery_percent = match parse_digits(&digits, 255) {
        Some(v) => v as u8,
        None => { return None; },
    };
    Some(
        SystemMetrics { is_plugged_in, battery_percent, cpu_temperature_celsius: 65535 },
    )
}

// ---------------------------------------------------------------------------
// Laws
// ---------------------------------------------------------------------------
/// Content indexing is never allowed while file-name updates are stopped.
pub proof fn law_content_indexing_implies_filename_updates(policy: ResourcePolicy, snapshot: SystemSnapshot)
    ensures
        control_state(policy, snapshot).allow_content_indexing ==> control_state(
            policy,
            snapshot,
        ).allow_filename_updates,
{
}

/// The permission guide is shown exactly when Full Disk Access is missing,
/// and then nothing is indexed.
pub proof fn law_permission_guide_iff_no_access(policy: ResourcePolicy, snapshot: SystemSnapshot)
    ensures
        (control_state(policy, snapshot).indexing_state == IndexingState::PermissionGuide)
            <==> !snapshot.has_full_disk_access,
        !snapshot.has_full_disk_access ==> !control_state(policy, snapshot).allow_filename_updates
            && !control_state(policy, snapshot).allow_content_indexing,
{
}

/// A suspended index keeps file-name updates and stops content parsing;
/// content is parsed exactly while the index is building.
pub proof fn law_suspension_keeps_filename_updates(policy: ResourcePolicy, snapshot: SystemSnapshot)
    ensures
        control_state(policy, snapshot).indexing_state == IndexingState::Suspended ==> (
        control_state(policy, snapshot).allow_filename_updates && !control_state(
            policy,
            snapshot,
        ).allow_content_indexing),
        control_state(policy, snapshot).allow_content_indexing <==> control_state(
            policy,
            snapshot,
        ).indexing_state == IndexingState::Building,
{
}

/// A healthier machine (same access, at least as much charge, plugged in if
/// the other is, no hotter) is allowed at least as much.
pub proof fn law_healthier_machine_allows_no_less(
    policy: ResourcePolicy,
    worse: SystemSnapshot,
    better: SystemSnapshot,
)
    requires
        worse.has_full_disk_access == better.has_full_disk_access,
        worse.battery_percent <= better.battery_percent,
        worse.is_plugged_in ==> better.is_plugged_in,
        better.cpu_temperature_celsius <= worse.cpu_temperature_celsius,
    ensures
        control_state(policy, worse).allow_content_indexing ==> control_state(
            policy,
            better,
        ).allow_content_indexing,
        control_state(policy, worse).allow_filename_updates ==> control_state(
            policy,
            better,
        ).allow_filename_updates,
{
}

/// A poll decides on what the probe read: the permission guide exactly when
/// the reading lacks Full Disk Access; file-name updates exactly when it has
/// access; content indexing exactly when it has access, the machine is
/// plugged in or its battery is at least at the low threshold, and the CPU
/// is no hotter than the limit.
pub proof fn law_poll_follows_probe_reading<P: SystemProbe>(poller: ResourcePoller<P>, r: ControlDecision)
    requires
        poller.polled(r),
    ensures
        exists|s: SystemSnapshot|
            {
                &&& call_ensures(P::snapshot, (&poller.probe(),), s)
                &&& (r.indexing_state == IndexingState::PermissionGuide <==> !s.has_full_disk_access)
                &&& (r.allow_filename_updates <==> s.has_full_disk_access)
                &&& (r.allow_content_indexing <==> s.has_full_disk_access && (s.is_plugged_in
                    || s.battery_percent >= poller.policy().low_battery_percent)
                    && s.cpu_temperature_celsius <= poller.policy().high_cpu_temperature_celsius)
            },
{
    let s = choose|s: SystemSnapshot|
        call_ensures(P::snapshot, (&poller.probe(),), s) && r == control_state(poller.policy(), s);
    assert(call_ensures(P::snapshot, (&poller.probe(),), s));
}

} // verus!
