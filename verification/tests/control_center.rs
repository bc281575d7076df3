use maisou::control_center::{
    evaluate_control_state, evaluate_resource_guard, fallback_system_metrics,
    parse_pmset_battery_output, IndexingState, MacOsSystemProbe, ResourcePoller, ResourcePolicy,
    SystemMetrics, SystemProbe, SystemSnapshot,
};

fn test_policy() -> ResourcePolicy {
    ResourcePolicy {
        physical_id: "local.control.resource_policy".to_string(),
        professional_description: "Resource guard policy for tests".to_string(),
        low_battery_percent: 20,
        high_cpu_temperature_celsius: 75,
        battery_probe_failure_percent: 0,
        cpu_temperature_probe_failure_celsius: u16::MAX,
        full_disk_access_probe_paths: vec!["~/Library/Mail".to_string()],
    }
}

struct StaticSystemProbe {
    snapshot: SystemSnapshot,
}

impl SystemProbe for StaticSystemProbe {
    fn snapshot(&self) -> SystemSnapshot {
        self.snapshot.clone()
    }
}

#[test]
fn loads_resource_policy_from_json_configuration() {
    let policy = ResourcePolicy::from_json(
        r#"{
          "physical_id": "local.control.resource_policy",
          "professional_description": "Resource guard policy for index building",
          "low_battery_percent": 20,
          "high_cpu_temperature_celsius": 75,
          "battery_probe_failure_percent": 0,
          "cpu_temperature_probe_failure_celsius": 65535,
          "full_disk_access_probe_paths": [
            "~/Library/Mail",
            "~/Library/Safari"
          ]
        }"#,
    )
    .expect("policy should parse");

    assert_eq!(policy.low_battery_percent, 20);
    assert_eq!(policy.high_cpu_temperature_celsius, 75);
    assert_eq!(policy.full_disk_access_probe_paths.len(), 2);
    assert_eq!(policy.full_disk_access_probe_paths[0], "~/Library/Mail");
}

#[test]
fn blocks_into_permission_guide_when_full_disk_access_is_missing() {
    let policy = test_policy();
    let snapshot = SystemSnapshot {
        has_full_disk_access: false,
        is_plugged_in: true,
        battery_percent: 90,
        cpu_temperature_celsius: 45,
    };

    let decision = evaluate_control_state(&policy, &snapshot);

    assert_eq!(decision.indexing_state, IndexingState::PermissionGuide);
    assert!(!decision.allow_content_indexing);
    assert!(!decision.allow_filename_updates);
}

#[test]
fn suspends_content_indexing_on_low_unplugged_battery() {
    let policy = test_policy();
    let snapshot = SystemSnapshot {
        has_full_disk_access: true,
        is_plugged_in: false,
        battery_percent: 19,
        cpu_temperature_celsius: 45,
    };

    let decision = evaluate_control_state(&policy, &snapshot);

    assert_eq!(decision.indexing_state, IndexingState::Suspended);
    assert!(!decision.allow_content_indexing);
    assert!(decision.allow_filename_updates);
}

#[test]
fn suspends_content_indexing_on_high_cpu_temperature() {
    let policy = test_policy();
    let snapshot = SystemSnapshot {
        has_full_disk_access: true,
        is_plugged_in: true,
        battery_percent: 90,
        cpu_temperature_celsius: 76,
    };

    let decision = evaluate_control_state(&policy, &snapshot);

    assert_eq!(decision.indexing_state, IndexingState::Suspended);
    assert!(!decision.allow_content_indexing);
    assert!(decision.allow_filename_updates);
}

#[test]
fn allows_full_indexing_when_authorized_and_resource_state_is_healthy() {
    let policy = test_policy();
    let snapshot = SystemSnapshot {
        has_full_disk_access: true,
        is_plugged_in: false,
        battery_percent: 80,
        cpu_temperature_celsius: 45,
    };

    let decision = evaluate_control_state(&policy, &snapshot);

    assert_eq!(decision.indexing_state, IndexingState::Building);
    assert!(decision.allow_content_indexing);
    assert!(decision.allow_filename_updates);
}

#[test]
fn poller_reads_provider_snapshot_and_returns_control_decision() {
    let policy = test_policy();
    let provider = StaticSystemProbe {
        snapshot: SystemSnapshot {
            has_full_disk_access: true,
            is_plugged_in: false,
            battery_percent: 10,
            cpu_temperature_celsius: 45,
        },
    };
    let poller = ResourcePoller::new(policy, provider);

    let decision = poller.poll_once();

    assert_eq!(decision.indexing_state, IndexingState::Suspended);
    assert!(!decision.allow_content_indexing);
    assert!(decision.allow_filename_updates);
}

#[test]
fn tauri_command_shape_returns_permission_guide_decision() {
    let policy = test_policy();
    let snapshot = SystemSnapshot {
        has_full_disk_access: false,
        is_plugged_in: true,
        battery_percent: 90,
        cpu_temperature_celsius: 45,
    };

    let decision = evaluate_resource_guard(policy, snapshot);

    assert_eq!(decision.indexing_state, IndexingState::PermissionGuide);
}

#[test]
fn macos_probe_inherits_configured_full_disk_access_paths() {
    let policy = test_policy();

    let probe = MacOsSystemProbe::from_policy(&policy);

    assert_eq!(probe.full_disk_access_probe_paths(), &["~/Library/Mail"]);
}

#[test]
fn parses_pmset_battery_output_without_hardcoded_policy_thresholds() {
    let reading = parse_pmset_battery_output(
        "Now drawing from 'Battery Power'\n -InternalBattery-0 (id=1234567)    19%; discharging; 4:20 remaining present: true",
    )
    .expect("battery reading should parse");

    assert!(!reading.is_plugged_in);
    assert_eq!(reading.battery_percent, 19);
}

#[test]
fn failed_system_metric_reads_fall_back_to_conservative_policy_values() {
    let policy = test_policy();

    let reading = fallback_system_metrics(&policy);

    assert!(!reading.is_plugged_in);
    assert_eq!(reading.battery_percent, policy.battery_probe_failure_percent);
    assert_eq!(
        reading.cpu_temperature_celsius,
        policy.cpu_temperature_probe_failure_celsius
    );
}

// ---------------------------------------------------------------------------
// Further cases
// ---------------------------------------------------------------------------

#[test]
fn resource_policy_reports_first_missing_field() {
    let error = ResourcePolicy::from_json(
        r#"{ "physical_id": "p", "professional_description": "d", "high_cpu_temperature_celsius": 75 }"#,
    )
    .expect_err("missing battery threshold");
    assert_eq!(error.field, "low_battery_percent");

    let error = ResourcePolicy::from_json(r#"{ "professional_description": "d" }"#)
        .expect_err("missing id");
    assert_eq!(error.field, "physical_id");
}

#[test]
fn resource_policy_rejects_out_of_range_numbers() {
    let error = ResourcePolicy::from_json(
        r#"{
          "physical_id": "p",
          "professional_description": "d",
          "low_battery_percent": 256,
          "high_cpu_temperature_celsius": 75,
          "battery_probe_failure_percent": 0,
          "cpu_temperature_probe_failure_celsius": 65535,
          "full_disk_access_probe_paths": []
        }"#,
    )
    .expect_err("battery threshold above u8");
    assert_eq!(error.field, "low_battery_percent");
}

#[test]
fn battery_exactly_at_threshold_keeps_building() {
    let policy = test_policy();
    let snapshot = SystemSnapshot {
        has_full_disk_access: true,
        is_plugged_in: false,
        battery_percent: 20,
        cpu_temperature_celsius: 75,
    };
    let decision = evaluate_control_state(&policy, &snapshot);
    assert_eq!(decision.indexing_state, IndexingState::Building);
    assert!(decision.allow_content_indexing);
}

#[test]
fn low_battery_while_plugged_in_keeps_building() {
    let policy = test_policy();
    let snapshot = SystemSnapshot {
        has_full_disk_access: true,
        is_plugged_in: true,
        battery_percent: 5,
        cpu_temperature_celsius: 45,
    };
    let decision = evaluate_control_state(&policy, &snapshot);
    assert_eq!(decision.indexing_state, IndexingState::Building);
}

#[test]
fn content_indexing_always_comes_with_filename_updates() {
    let policy = test_policy();
    for access in [false, true] {
        for plugged in [false, true] {
            for battery in [0u8, 19, 20, 100] {
                for temperature in [0u16, 75, 76, u16::MAX] {
                    let decision = evaluate_control_state(
                        &policy,
                        &SystemSnapshot {
                            has_full_disk_access: access,
                            is_plugged_in: plugged,
                            battery_percent: battery,
                            cpu_temperature_celsius: temperature,
                        },
                    );
                    if decision.allow_content_indexing {
                        assert!(decision.allow_filename_updates);
                    }
                    assert_eq!(
                        decision.indexing_state == IndexingState::PermissionGuide,
                        !access
                    );
                }
            }
        }
    }
}

#[test]
fn pmset_output_on_ac_power_is_plugged_in() {
    let reading = parse_pmset_battery_output(
        "Now drawing from 'AC Power'\n -InternalBattery-0 (id=1234567)    100%; charged; 0:00 remaining present: true",
    )
    .expect("battery reading should parse");
    assert!(reading.is_plugged_in);
    assert_eq!(reading.battery_percent, 100);
}

#[test]
fn pmset_output_without_percentage_does_not_parse() {
    assert!(parse_pmset_battery_output("Now drawing from 'AC Power'").is_none());
}

#[test]
fn probe_snapshot_uses_fallback_metrics_when_battery_is_unreadable() {
    let policy = test_policy();
    let probe = MacOsSystemProbe::from_policy(&policy);

    let snapshot = probe.snapshot_from_readings(true, None);
    assert!(snapshot.has_full_disk_access);
    assert!(!snapshot.is_plugged_in);
    assert_eq!(snapshot.battery_percent, 0);
    assert_eq!(snapshot.cpu_temperature_celsius, u16::MAX);

    let read = SystemMetrics {
        is_plugged_in: true,
        battery_percent: 55,
        cpu_temperature_celsius: 40,
    };
    let snapshot = probe.snapshot_from_readings(false, Some(read));
    assert!(!snapshot.has_full_disk_access);
    assert!(snapshot.is_plugged_in);
    assert_eq!(snapshot.battery_percent, 55);
    assert_eq!(snapshot.cpu_temperature_celsius, 40);
}
