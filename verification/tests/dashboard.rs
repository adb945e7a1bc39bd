use vor_commander::dashboard::{
    ContractError, DashboardSnapshot, DeviceKey, DeviceStatus, Observed, Provenance, SnapshotMode,
    SubscriptionView, TenantProjectionInput, UnknownReason, UsageEntry, ViewerRole,
    project_live_snapshot, simulated_preview_snapshot,
};
use vor_commander::ids::collect;
use vor_commander::tenants::{
    OrganizationRecord, SubscriptionRecord, TenantDeviceRecord, TenantRole, UsageRecord,
};

const NOW: u64 = 1_790_000_000_000;

fn org(id: &str) -> OrganizationRecord {
    OrganizationRecord {
        organization_id: id.into(),
        name: format!("{id} name"),
    }
}

fn device(org: &str, id: &str, revoked: bool) -> TenantDeviceRecord {
    TenantDeviceRecord {
        organization_id: org.into(),
        device_id: id.into(),
        workspace_ids: collect(&vec!["ws-1".to_owned()]),
        revoked,
    }
}

fn keys(pairs: &[(&str, &str)]) -> Vec<DeviceKey> {
    pairs
        .iter()
        .map(|(org, device)| DeviceKey::new(org.to_string(), device.to_string()))
        .collect()
}

fn input<'a>(
    organization: &'a OrganizationRecord,
    devices: &'a [TenantDeviceRecord],
    connected: &'a Vec<DeviceKey>,
) -> TenantProjectionInput<'a> {
    TenantProjectionInput {
        organization,
        viewer_role: TenantRole::Operator,
        devices,
        connected_devices: connected,
        subscription: None,
        usage: None,
        now_unix_ms: NOW,
    }
}

/// A valid live snapshot with one connected, one idle and one revoked device.
fn live_three() -> DashboardSnapshot {
    let organization = org("org-a");
    let devices = [
        device("org-a", "dev-connected", false),
        device("org-a", "dev-idle", false),
        device("org-a", "dev-revoked", true),
    ];
    let connected = keys(&[("org-a", "dev-connected")]);
    project_live_snapshot(&input(&organization, &devices, &connected)).unwrap()
}

fn provenances(snapshot: &DashboardSnapshot) -> Vec<(String, Provenance)> {
    snapshot
        .visit_fields()
        .into_iter()
        .map(|field| (field.path, field.provenance))
        .collect()
}

// Provenance

#[test]
fn simulated_preview_is_valid_and_never_claims_live_data() {
    let snapshot = simulated_preview_snapshot(NOW);
    snapshot.validate().unwrap();
    assert_eq!(snapshot.mode, SnapshotMode::Simulated);
    for (field, provenance) in provenances(&snapshot) {
        assert_ne!(provenance, Provenance::Live, "{field} claims live data");
    }
    assert!(!format!("{snapshot:?}").contains("Live"));
}

#[test]
fn bundled_simulated_fixture_uses_example_identifiers() {
    // Guarantee of this fixture/producer only; `validate()` does not classify
    // identifier content (see the next test).
    let snapshot = simulated_preview_snapshot(NOW);
    assert!(snapshot.organization.organization_id.contains("example"));
    for device in &snapshot.devices {
        assert!(device.device_id.contains("example"));
        assert!(device.workspace_ids.iter().all(|id| id.contains("example")));
    }
}

#[test]
fn validate_does_not_classify_identifier_content() {
    // Documents the limit of the contract: a simulated snapshot whose
    // identifiers do not follow the example convention is still structurally
    // valid. Synthetic identifiers are the producer's responsibility.
    let mut snapshot = simulated_preview_snapshot(NOW);
    snapshot.organization.organization_id = "org-7f3a".into();
    snapshot.devices[0].device_id = "dev-7f3a".into();
    snapshot.devices[0].workspace_ids = vec!["ws-7f3a".into()];
    snapshot.validate().unwrap();
}

#[test]
fn simulated_snapshot_with_a_live_value_is_rejected() {
    let mut snapshot = simulated_preview_snapshot(NOW);
    snapshot.devices[0].os = Observed::live("Linux".into(), NOW);
    assert_eq!(
        snapshot.validate(),
        Err(ContractError::MixedProvenance {
            mode: SnapshotMode::Simulated,
            provenance: Provenance::Live,
            field: "devices[0].os".into(),
        })
    );
}

#[test]
fn live_snapshot_with_a_simulated_value_is_rejected() {
    let mut snapshot = live_three();
    snapshot.devices[0].display_name = Observed::simulated("Preview".into());
    assert!(matches!(
        snapshot.validate(),
        Err(ContractError::MixedProvenance {
            mode: SnapshotMode::Live,
            provenance: Provenance::Simulated,
            ..
        })
    ));
}

#[test]
fn live_value_observed_after_snapshot_time_is_rejected() {
    let mut snapshot = live_three();
    snapshot.organization.name = Observed::live("later".into(), NOW + 1);
    assert_eq!(
        snapshot.validate(),
        Err(ContractError::ObservedInFuture("organization.name".into()))
    );
}

#[test]
fn unsupported_version_is_rejected() {
    let mut snapshot = simulated_preview_snapshot(NOW);
    snapshot.schema_version = 2;
    assert_eq!(
        snapshot.validate(),
        Err(ContractError::UnsupportedVersion(2))
    );
}

// Identifiers

#[test]
fn blank_organization_id_is_rejected() {
    for value in ["", "   "] {
        let mut snapshot = live_three();
        snapshot.organization.organization_id = value.into();
        assert_eq!(snapshot.validate(), Err(ContractError::MissingOrganization));
    }
}

#[test]
fn blank_device_id_is_rejected() {
    for value in ["", " \t"] {
        let mut snapshot = live_three();
        snapshot.devices[1].device_id = value.into();
        assert_eq!(snapshot.validate(), Err(ContractError::BlankDeviceId));
    }
}

#[test]
fn blank_device_workspace_id_is_rejected() {
    for value in ["", "  "] {
        let mut snapshot = live_three();
        snapshot.devices[0].workspace_ids.push(value.into());
        assert_eq!(
            snapshot.validate(),
            Err(ContractError::BlankWorkspaceId(
                "devices[0].workspace_ids".into()
            ))
        );
    }
}

#[test]
fn blank_usage_workspace_id_is_rejected() {
    let mut snapshot = live_three();
    snapshot.usage = Observed::live(
        vec![UsageEntry {
            workspace_id: Some(" ".into()),
            usage_key: "calls".into(),
            units: 1,
        }],
        NOW,
    );
    assert_eq!(
        snapshot.validate(),
        Err(ContractError::BlankWorkspaceId("usage".into()))
    );
}

#[test]
fn duplicate_device_id_is_rejected() {
    let mut snapshot = live_three();
    snapshot.devices[1].device_id = snapshot.devices[0].device_id.clone();
    assert_eq!(snapshot.validate(), Err(ContractError::DuplicateDevice));
}

#[test]
fn duplicate_workspace_id_is_rejected() {
    let mut snapshot = live_three();
    snapshot.devices[2].workspace_ids = vec!["ws-1".into(), "ws-1".into()];
    assert_eq!(
        snapshot.validate(),
        Err(ContractError::DuplicateWorkspace(
            "devices[2].workspace_ids".into()
        ))
    );
}

#[test]
fn blank_usage_key_is_rejected() {
    let mut snapshot = live_three();
    snapshot.usage = Observed::live(
        vec![UsageEntry {
            workspace_id: None,
            usage_key: "".into(),
            units: 1,
        }],
        NOW,
    );
    assert_eq!(snapshot.validate(), Err(ContractError::BlankUsageKey));
}

#[test]
fn blank_subscription_plan_is_rejected() {
    let mut snapshot = live_three();
    snapshot.subscription = Observed::live(
        SubscriptionView {
            plan: " ".into(),
            active: true,
        },
        NOW,
    );
    assert_eq!(snapshot.validate(), Err(ContractError::BlankPlan));
}

// Summary counts

#[test]
fn total_devices_must_match_device_list() {
    let mut snapshot = live_three();
    snapshot.summary.total_devices = Observed::live(4, NOW);
    assert_eq!(
        snapshot.validate(),
        Err(ContractError::InconsistentCount("total_devices"))
    );
}

#[test]
fn connected_devices_must_match_known_statuses() {
    let mut snapshot = live_three();
    snapshot.summary.connected_devices = Observed::live(2, NOW);
    assert_eq!(
        snapshot.validate(),
        Err(ContractError::InconsistentCount("connected_devices"))
    );
}

#[test]
fn revoked_devices_must_match_known_statuses() {
    let mut snapshot = live_three();
    snapshot.summary.revoked_devices = Observed::live(0, NOW);
    assert_eq!(
        snapshot.validate(),
        Err(ContractError::InconsistentCount("revoked_devices"))
    );
}

#[test]
fn connected_devices_greater_than_total_is_rejected() {
    let mut snapshot = live_three();
    for device in &mut snapshot.devices {
        device.status = Observed::unknown(UnknownReason::Unavailable);
    }
    snapshot.summary.revoked_devices = Observed::unknown(UnknownReason::Unavailable);
    snapshot.summary.connected_devices = Observed::live(4, NOW);
    assert_eq!(
        snapshot.validate(),
        Err(ContractError::InconsistentCount("connected_devices"))
    );
}

#[test]
fn revoked_devices_greater_than_total_is_rejected() {
    let mut snapshot = live_three();
    for device in &mut snapshot.devices {
        device.status = Observed::unknown(UnknownReason::Unavailable);
    }
    snapshot.summary.connected_devices = Observed::unknown(UnknownReason::Unavailable);
    snapshot.summary.revoked_devices = Observed::live(4, NOW);
    assert_eq!(
        snapshot.validate(),
        Err(ContractError::InconsistentCount("revoked_devices"))
    );
}

#[test]
fn connected_plus_revoked_greater_than_total_is_rejected() {
    let mut snapshot = live_three();
    for device in &mut snapshot.devices {
        device.status = Observed::unknown(UnknownReason::Unavailable);
    }
    snapshot.summary.connected_devices = Observed::live(2, NOW);
    snapshot.summary.revoked_devices = Observed::live(2, NOW);
    assert_eq!(
        snapshot.validate(),
        Err(ContractError::InconsistentCount(
            "connected_devices + revoked_devices"
        ))
    );
}

#[test]
fn known_count_cannot_contradict_known_statuses_when_some_are_unknown() {
    // dev-connected stays live Connected; the other two become unknown, so the
    // connected count may be 1..=3 but never 0.
    let mut snapshot = live_three();
    snapshot.devices[1].status = Observed::unknown(UnknownReason::Unavailable);
    snapshot.devices[2].status = Observed::unknown(UnknownReason::Unavailable);
    snapshot.summary.revoked_devices = Observed::unknown(UnknownReason::Unavailable);
    snapshot.summary.connected_devices = Observed::live(0, NOW);
    assert_eq!(
        snapshot.validate(),
        Err(ContractError::InconsistentCount("connected_devices"))
    );
    snapshot.summary.connected_devices = Observed::live(3, NOW);
    snapshot.validate().unwrap();
}

#[test]
fn unknown_counts_are_never_compared() {
    let mut snapshot = live_three();
    snapshot.summary.total_devices = Observed::unknown(UnknownReason::Unavailable);
    snapshot.summary.connected_devices = Observed::unknown(UnknownReason::Unavailable);
    snapshot.summary.revoked_devices = Observed::unknown(UnknownReason::NotImplemented);
    snapshot.validate().unwrap();
}

// Projection

#[test]
fn projection_reports_real_status_and_leaves_untracked_fields_unknown() {
    let organization = org("org-a");
    let devices = [
        device("org-a", "dev-connected", false),
        device("org-a", "dev-idle", false),
        device("org-a", "dev-revoked", true),
    ];
    // A revoked device that still holds a transport link must show as revoked.
    let connected = keys(&[("org-a", "dev-connected"), ("org-a", "dev-revoked")]);
    let snapshot = project_live_snapshot(&input(&organization, &devices, &connected)).unwrap();

    assert_eq!(snapshot.mode, SnapshotMode::Live);
    assert_eq!(
        snapshot.organization.viewer_role,
        Observed::live(ViewerRole::Operator, NOW)
    );
    let status: Vec<_> = snapshot
        .devices
        .iter()
        .map(|device| (device.device_id.as_str(), device.status.clone()))
        .collect();
    assert_eq!(
        status,
        vec![
            (
                "dev-connected",
                Observed::live(DeviceStatus::Connected, NOW)
            ),
            ("dev-idle", Observed::live(DeviceStatus::NotConnected, NOW)),
            ("dev-revoked", Observed::live(DeviceStatus::Revoked, NOW)),
        ]
    );
    assert_eq!(snapshot.summary.total_devices, Observed::live(3, NOW));
    assert_eq!(snapshot.summary.connected_devices, Observed::live(1, NOW));
    assert_eq!(snapshot.summary.revoked_devices, Observed::live(1, NOW));
    for device in &snapshot.devices {
        assert_eq!(device.os, Observed::unknown(UnknownReason::NotReported));
        assert_eq!(
            device.agent_version,
            Observed::unknown(UnknownReason::NotReported)
        );
        assert_eq!(
            device.last_seen_unix_ms,
            Observed::unknown(UnknownReason::NotImplemented)
        );
    }
    assert_eq!(
        snapshot.subscription,
        Observed::unknown(UnknownReason::NotReported)
    );
    assert_eq!(
        snapshot.usage,
        Observed::unknown(UnknownReason::NotImplemented)
    );
}

#[test]
fn same_device_id_connected_in_another_organization_does_not_mark_connected() {
    let organization = org("org-a");
    let devices = [device("org-a", "dev-shared", false)];
    // org-b owns its own device with the same id, and that one is connected.
    let connected = keys(&[("org-b", "dev-shared")]);
    let snapshot = project_live_snapshot(&input(&organization, &devices, &connected)).unwrap();
    assert_eq!(
        snapshot.devices[0].status,
        Observed::live(DeviceStatus::NotConnected, NOW)
    );
    assert_eq!(snapshot.summary.connected_devices, Observed::live(0, NOW));

    let organization_b = org("org-b");
    let devices_b = [device("org-b", "dev-shared", false)];
    let snapshot_b =
        project_live_snapshot(&input(&organization_b, &devices_b, &connected)).unwrap();
    assert_eq!(
        snapshot_b.devices[0].status,
        Observed::live(DeviceStatus::Connected, NOW)
    );
}

#[test]
fn projection_ignores_other_tenants_connected_devices() {
    let organization = org("org-a");
    let devices = [device("org-a", "dev-a", false)];
    let connected = keys(&[("org-b", "dev-b"), ("org-c", "dev-c")]);
    let snapshot = project_live_snapshot(&input(&organization, &devices, &connected)).unwrap();
    assert_eq!(snapshot.devices.len(), 1);
    assert_eq!(snapshot.summary.connected_devices, Observed::live(0, NOW));
    let shown = format!("{snapshot:?}");
    assert!(!shown.contains("dev-b") && !shown.contains("dev-c") && !shown.contains("org-b"));
}

#[test]
fn projection_fails_closed_on_records_from_another_tenant() {
    let organization = org("org-a");
    let connected = Vec::new();

    let devices = [
        device("org-a", "dev-a", false),
        device("org-b", "dev-b", false),
    ];
    assert_eq!(
        project_live_snapshot(&input(&organization, &devices, &connected)),
        Err(ContractError::CrossTenantRecord)
    );

    let subscription = SubscriptionRecord {
        organization_id: "org-b".into(),
        plan: "teams".into(),
        active: true,
    };
    let mut foreign_subscription = input(&organization, &[], &connected);
    foreign_subscription.subscription = Some(&subscription);
    assert_eq!(
        project_live_snapshot(&foreign_subscription),
        Err(ContractError::CrossTenantRecord)
    );

    let usage = [UsageRecord {
        organization_id: "org-b".into(),
        workspace_id: None,
        usage_key: "calls".into(),
        units: 1,
    }];
    let mut foreign_usage = input(&organization, &[], &connected);
    foreign_usage.usage = Some(&usage);
    assert_eq!(
        project_live_snapshot(&foreign_usage),
        Err(ContractError::CrossTenantRecord)
    );
}

#[test]
fn projection_rejects_blank_identifiers_from_records() {
    let organization = org("org-a");
    let connected = Vec::new();
    let devices = [device("org-a", " ", false)];
    assert_eq!(
        project_live_snapshot(&input(&organization, &devices, &connected)),
        Err(ContractError::BlankDeviceId)
    );
}

#[test]
fn projection_marks_supplied_subscription_and_usage_as_live() {
    let organization = org("org-a");
    let connected = Vec::new();
    let subscription = SubscriptionRecord {
        organization_id: "org-a".into(),
        plan: "personal".into(),
        active: false,
    };
    let usage = [UsageRecord {
        organization_id: "org-a".into(),
        workspace_id: Some("ws-1".into()),
        usage_key: "calls".into(),
        units: 4,
    }];
    let mut request = input(&organization, &[], &connected);
    request.subscription = Some(&subscription);
    request.usage = Some(&usage);
    let snapshot = project_live_snapshot(&request).unwrap();
    assert_eq!(snapshot.subscription.provenance(), Provenance::Live);
    let Observed::Live { value, .. } = &snapshot.usage else {
        panic!("usage should be live");
    };
    assert_eq!(value.len(), 1);
    assert_eq!(value[0].units, 4);
}

// Errors and laws

#[test]
fn every_projected_snapshot_validates() {
    live_three().validate().unwrap();
    simulated_preview_snapshot(0).validate().unwrap();
}

#[test]
fn projected_devices_keep_their_order() {
    let snapshot = live_three();
    let ids: Vec<&str> = snapshot
        .devices
        .iter()
        .map(|device| device.device_id.as_str())
        .collect();
    assert_eq!(ids, vec!["dev-connected", "dev-idle", "dev-revoked"]);
}

#[test]
fn visited_fields_are_named_by_their_place() {
    let fields = live_three().visit_fields();
    assert!(fields.iter().any(|field| field.path == "devices[2].status"
        && field.provenance == Provenance::Live
        && field.observed_at_unix_ms == Some(NOW)));
    assert!(fields.iter().any(|field| field.path == "usage"
        && field.provenance == Provenance::Unknown
        && field.observed_at_unix_ms.is_none()));
}

#[test]
fn roles_are_shown_as_they_are() {
    assert_eq!(ViewerRole::from(TenantRole::Viewer), ViewerRole::Viewer);
    assert_eq!(ViewerRole::from(TenantRole::Operator), ViewerRole::Operator);
    assert_eq!(ViewerRole::from(TenantRole::Admin), ViewerRole::Admin);
}

#[test]
fn known_values_are_those_that_were_observed() {
    assert_eq!(Observed::live(3u32, NOW).known(), Some(&3));
    assert_eq!(Observed::simulated(4u32).known(), Some(&4));
    assert_eq!(
        Observed::<u32>::unknown(UnknownReason::NotReported).known(),
        None
    );
}

#[test]
fn repeated_usage_entries_are_rejected() {
    let entry = |workspace_id: Option<&str>, usage_key: &str| UsageEntry {
        workspace_id: workspace_id.map(str::to_owned),
        usage_key: usage_key.into(),
        units: 1,
    };
    let mut preview = simulated_preview_snapshot(NOW);
    preview.usage = Observed::simulated(vec![entry(None, "calls"), entry(None, "calls")]);
    assert_eq!(preview.validate(), Err(ContractError::DuplicateUsage));
    preview.usage = Observed::simulated(vec![
        entry(None, "calls"),
        entry(Some("ws-1"), "calls"),
        entry(Some("ws-2"), "calls"),
        entry(None, "bytes"),
    ]);
    assert_eq!(preview.validate(), Ok(()));

    let organization = org("org-a");
    let connected = keys(&[]);
    let rows: Vec<UsageRecord> = (0..2)
        .map(|units| UsageRecord {
            organization_id: "org-a".into(),
            workspace_id: Some("ws-1".into()),
            usage_key: "calls".into(),
            units,
        })
        .collect();
    let mut request = input(&organization, &[], &connected);
    request.usage = Some(&rows);
    assert_eq!(
        project_live_snapshot(&request).unwrap_err(),
        ContractError::DuplicateUsage
    );
}
