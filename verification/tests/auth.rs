use sha2::{Digest, Sha256};
use vor_commander::grants::{lock_held, AuthError, GrantStore, LOCK_ATTEMPTS};
use vor_commander::ids::collect;
use vor_commander::table::Table;
use vor_commander::tenants::{MembershipRecord, TenantRole, TenantStore};

fn texts(list: &[&str]) -> Vec<String> {
    list.iter().map(|text| text.to_string()).collect()
}

/// The store as it is found again on disk.
fn reopened(store: GrantStore) -> GrantStore {
    GrantStore::restore(
        1,
        store.device_id,
        store.grants,
        store.pairings,
        store.oauth_clients,
    )
    .unwrap()
}

#[test]
fn held_locks_are_given_up() {
    assert_eq!(lock_held(1), Ok(()));
    assert_eq!(lock_held(LOCK_ATTEMPTS - 1), Ok(()));
    assert_eq!(lock_held(LOCK_ATTEMPTS), Err(AuthError::LockTimeout));
}

#[test]
fn scope_expiry_and_revoke_fail_closed() {
    let mut store = GrantStore::create();
    let issued = store.issue("operator".into(), texts(&["mcp"]), 100, 1_000).unwrap();
    assert!(matches!(
        store.validate(issued.token(), "admin", 1_001),
        Err(AuthError::InsufficientScope(_))
    ));
    assert!(matches!(
        store.validate(issued.token(), "mcp", 1_100),
        Err(AuthError::Unauthorized)
    ));

    let second = store.issue("operator".into(), texts(&["mcp"]), 1_000, 2_000).unwrap();
    assert!(store.revoke(&second.record.grant_id));
    assert!(matches!(
        store.validate(second.token(), "mcp", 2_001),
        Err(AuthError::Unauthorized)
    ));
}

#[test]
fn debug_redacts_raw_token() {
    let mut store = GrantStore::create();
    let issued = store.issue("operator".into(), texts(&["mcp"]), 1_000, 0).unwrap();
    let debug = issued.redacted();
    assert!(debug.contains("<redacted>"));
    assert!(!debug.contains(issued.token()));
}

fn seed_tenants() -> TenantStore {
    let mut tenants = TenantStore::create();
    tenants.upsert_user("user-a", "A").unwrap();
    tenants.upsert_user("user-b", "B").unwrap();
    tenants.upsert_user("shared", "Shared").unwrap();
    tenants.upsert_organization("org-a", "Org A").unwrap();
    tenants.upsert_organization("org-b", "Org B").unwrap();
    tenants.upsert_workspace("org-a", "ws-a1", "A1").unwrap();
    tenants.upsert_workspace("org-a", "ws-a2", "A2").unwrap();
    tenants.upsert_workspace("org-b", "ws-b1", "B1").unwrap();
    tenants
        .set_membership("org-a", "user-a", TenantRole::Admin)
        .unwrap();
    tenants
        .set_membership("org-b", "user-b", TenantRole::Admin)
        .unwrap();
    tenants
        .set_membership("org-a", "shared", TenantRole::Operator)
        .unwrap();
    tenants
        .set_membership("org-b", "shared", TenantRole::Viewer)
        .unwrap();
    tenants.pair_device("org-a", "device-a", texts(&["ws-a1"])).unwrap();
    tenants.pair_device("org-b", "device-b", texts(&["ws-b1"])).unwrap();
    tenants
}

#[test]
fn tenant_revocation_blocks_prepared_grant_without_erasing_other_tenant() {
    let mut tenants = seed_tenants();
    let mut grants = GrantStore::create();
    let grant_a = grants
        .issue_for_tenant("org-a".into(), "shared".into(), texts(&["ws-a1"]), texts(&["mcp"]), 10_000, 1_000)
        .unwrap();
    let grant_b = grants
        .issue_for_tenant("org-b".into(), "user-b".into(), texts(&["ws-b1"]), texts(&["mcp"]), 10_000, 1_000)
        .unwrap();
    tenants.revoke_membership("org-a", "shared").unwrap();
    assert!(matches!(
        tenants.verify_context(
            &grant_a.record,
            "org-a",
            "device-a",
            Some("ws-a1"),
            TenantRole::Viewer
        ),
        Err(AuthError::Unauthorized)
    ));
    tenants
        .verify_context(
            &grant_b.record,
            "org-b",
            "device-b",
            Some("ws-b1"),
            TenantRole::Admin,
        )
        .unwrap();
}

#[test]
fn empty_workspace_grant_does_not_authorize_workspace_bound_actions() {
    let tenants = seed_tenants();
    let mut grants = GrantStore::create();
    let legacy = grants.issue("shared".into(), texts(&["mcp"]), 10_000, 1_000).unwrap();
    assert!(matches!(
        grants.validate_for_tenant(legacy.token(), "mcp", "local", Some("ws-a1"), 2_000),
        Err(AuthError::Unauthorized)
    ));

    let tenant_grant = grants
        .issue_for_tenant(
            "org-a".into(),
            "shared".into(),
            Vec::new(),
            texts(&["mcp"]),
            10_000,
            1_000,
        )
        .unwrap();
    tenants
        .verify_context(
            &tenant_grant.record,
            "org-a",
            "device-a",
            None,
            TenantRole::Operator,
        )
        .unwrap();
    assert!(matches!(
        tenants.verify_context(
            &tenant_grant.record,
            "org-a",
            "device-a",
            Some("ws-a1"),
            TenantRole::Operator,
        ),
        Err(AuthError::Unauthorized)
    ));
}


#[test]
fn issued_token_is_not_persisted_raw_and_survives_reopen() {
    let mut store = GrantStore::create();
    let device = store.device_id();
    let issued = store
        .issue("operator".into(), texts(&["mcp"]), 1_000, 10)
        .unwrap();
    assert!(store.validate(issued.token(), "mcp", 100).is_ok());

    let stored = format!("{store:?}");
    assert!(!stored.contains(issued.token()));
    assert!(stored.contains(&hex::encode(Sha256::digest(issued.token().as_bytes()))));

    let reopened = reopened(store);
    assert_eq!(reopened.device_id(), device);
    assert!(reopened.validate(issued.token(), "mcp", 100).is_ok());
}

#[test]
fn pairing_code_is_one_time_and_never_persisted_raw() {
    let mut store = GrantStore::create();
    let pairing = store
        .create_pairing(texts(&["mcp", "gateway.read"]), 1_000, 5_000, 100)
        .unwrap();
    assert!(!format!("{store:?}").contains(pairing.code()));
    assert!(!pairing.redacted().contains(pairing.code()));
    let issued = store
        .redeem_pairing(pairing.code(), "client-a".into(), 200)
        .unwrap();
    assert!(store.validate(issued.token(), "mcp", 300).is_ok());
    assert!(matches!(
        store.redeem_pairing(pairing.code(), "client-b".into(), 300),
        Err(AuthError::Unauthorized)
    ));
}

#[test]
fn oauth_client_survives_reopen() {
    let mut store = GrantStore::create();
    let redirect_uris = vec![
        "https://chatgpt.com/connector/oauth/callback".to_owned(),
        "https://chatgpt.com/connector_platform_oauth_redirect".to_owned(),
    ];
    let expected = store
        .register_oauth_client(
            "client-persisted".into(),
            redirect_uris,
            "ChatGPT".into(),
            1_726_000_000_000,
        )
        .unwrap();

    let reopened = reopened(store);
    let found = reopened.oauth_client("client-persisted").unwrap();
    assert_eq!(found.redirect_uris, expected.redirect_uris);
    assert_eq!(found.client_name, expected.client_name);
    assert_eq!(found.registered_at_unix_ms, expected.registered_at_unix_ms);
    assert!(reopened.oauth_client("missing").is_none());
}

#[test]
fn tenant_context_enforces_org_workspace_device_role_and_persists() {
    let mut tenants = seed_tenants();
    let mut grants = GrantStore::create();
    let grant_a = grants
        .issue_for_tenant(
            "org-a".into(),
            "shared".into(),
            texts(&["ws-a1"]),
            texts(&["mcp"]),
            10_000,
            1_000,
        )
        .unwrap();
    let grant_b = grants
        .issue_for_tenant(
            "org-b".into(),
            "shared".into(),
            texts(&["ws-b1"]),
            texts(&["mcp"]),
            10_000,
            1_000,
        )
        .unwrap();

    let ctx = tenants
        .verify_context(
            &grant_a.record,
            "org-a",
            "device-a",
            Some("ws-a1"),
            TenantRole::Operator,
        )
        .unwrap();
    assert_eq!(ctx.organization_id, "org-a");
    assert_eq!(ctx.workspace_id.as_deref(), Some("ws-a1"));
    assert!(matches!(
        tenants.verify_context(
            &grant_a.record,
            "org-b",
            "device-b",
            Some("ws-b1"),
            TenantRole::Viewer
        ),
        Err(AuthError::Unauthorized)
    ));
    assert!(matches!(
        tenants.verify_context(
            &grant_a.record,
            "org-a",
            "device-a",
            Some("ws-a2"),
            TenantRole::Operator
        ),
        Err(AuthError::Unauthorized)
    ));
    assert!(matches!(
        tenants.verify_context(
            &grant_b.record,
            "org-b",
            "device-b",
            Some("ws-b1"),
            TenantRole::Operator
        ),
        Err(AuthError::Unauthorized)
    ));

    tenants
        .record_usage("org-a", Some("ws-a1"), "same-key", 3)
        .unwrap();
    tenants
        .record_usage("org-b", Some("ws-b1"), "same-key", 7)
        .unwrap();
    assert_eq!(tenants.list_usage_for_org("org-a").unwrap()[0].units, 3);
    assert_eq!(tenants.list_usage_for_org("org-b").unwrap()[0].units, 7);

    let reopened_tenants = TenantStore::restore(1, tenants).unwrap();
    let reopened_grants = reopened(grants);
    let reopened_grant = reopened_grants
        .validate_for_tenant(grant_a.token(), "mcp", "org-a", Some("ws-a1"), 2_000)
        .unwrap();
    reopened_tenants
        .verify_context(
            &reopened_grant,
            "org-a",
            "device-a",
            Some("ws-a1"),
            TenantRole::Operator,
        )
        .unwrap();
}

#[test]
fn independent_instances_refresh_revocations_before_authorizing() {
    let mut grants_a = GrantStore::create();
    let issued = grants_a
        .issue_for_tenant(
            "org-a".into(),
            "shared".into(),
            texts(&["ws-a1"]),
            texts(&["mcp"]),
            10_000,
            1_000,
        )
        .unwrap();
    let mut grants_b = reopened(grants_a);
    grants_b
        .validate_for_tenant(issued.token(), "mcp", "org-a", Some("ws-a1"), 2_000)
        .unwrap();
    grants_b.revoke(&issued.record.grant_id);
    let grants_b = reopened(grants_b);
    assert!(matches!(
        grants_b.validate_for_tenant(issued.token(), "mcp", "org-a", Some("ws-a1"), 2_001),
        Err(AuthError::Unauthorized)
    ));

    let mut tenants_a = seed_tenants();
    tenants_a
        .verify_context(
            &issued.record,
            "org-a",
            "device-a",
            Some("ws-a1"),
            TenantRole::Operator,
        )
        .unwrap();
    tenants_a.revoke_device("org-a", "device-a").unwrap();
    let tenants_b = TenantStore::restore(1, tenants_a).unwrap();
    assert!(matches!(
        tenants_b.verify_context(
            &issued.record,
            "org-a",
            "device-a",
            Some("ws-a1"),
            TenantRole::Operator,
        ),
        Err(AuthError::Unauthorized)
    ));
}

#[test]
fn stale_grant_writer_cannot_restore_revoked_grant_or_pairing_prune_snapshot() {
    let mut store = GrantStore::create();
    let victim = store
        .issue("operator".into(), texts(&["mcp"]), 10_000, 1_000)
        .unwrap();
    let stale_pairing = store
        .create_pairing(texts(&["mcp"]), 1, 10_000, 1_000)
        .unwrap();
    let mut store = reopened(store);
    store.revoke(&victim.record.grant_id);

    let mut store = reopened(store);
    let unrelated = store
        .issue("other".into(), texts(&["gateway.read"]), 10_000, 1_001)
        .unwrap();
    let mut store = reopened(store);
    assert!(store
        .validate(unrelated.token(), "gateway.read", 1_002)
        .is_ok());
    assert!(matches!(
        store.validate(victim.token(), "mcp", 1_002),
        Err(AuthError::Unauthorized)
    ));

    assert_eq!(store.prune_expired_pairings(1_002), 1);
    let mut store = reopened(store);
    assert!(matches!(
        store.redeem_pairing(stale_pairing.code(), "late".into(), 1_003),
        Err(AuthError::Unauthorized)
    ));
    assert!(matches!(
        store.validate(victim.token(), "mcp", 1_004),
        Err(AuthError::Unauthorized)
    ));
}

#[test]
fn grant_expiry_and_workspace_scope_mutations_persist() {
    let mut grants_a = GrantStore::create();
    let issued = grants_a
        .issue_for_tenant(
            "org-a".into(),
            "shared".into(),
            texts(&["ws-a1", "ws-a2"]),
            texts(&["mcp"]),
            10_000,
            1_000,
        )
        .unwrap();

    assert!(grants_a
        .expire_for_tenant(&issued.record.grant_id, "org-a", 2_000)
        .unwrap());
    let mut grants_b = reopened(grants_a);
    assert!(matches!(
        grants_b.validate_for_tenant(issued.token(), "mcp", "org-a", Some("ws-a1"), 2_000),
        Err(AuthError::Unauthorized)
    ));

    let scoped = grants_b
        .issue_for_tenant(
            "org-a".into(),
            "shared".into(),
            texts(&["ws-a1", "ws-a2"]),
            texts(&["mcp"]),
            10_000,
            3_000,
        )
        .unwrap();
    assert!(grants_b
        .remove_workspace_for_tenant(&scoped.record.grant_id, "org-a", "ws-a1")
        .unwrap());
    let grants_a = reopened(grants_b);
    assert!(matches!(
        grants_a.validate_for_tenant(scoped.token(), "mcp", "org-a", Some("ws-a1"), 3_100),
        Err(AuthError::Unauthorized)
    ));
    grants_a
        .validate_for_tenant(scoped.token(), "mcp", "org-a", Some("ws-a2"), 3_100)
        .unwrap();
}

#[test]
fn device_workspace_scope_mutation_persists_without_revoking_device() {
    let mut tenants_a = seed_tenants();
    tenants_a.upsert_workspace("org-a", "ws-a2", "A2").unwrap();
    tenants_a
        .pair_device("org-a", "device-a", texts(&["ws-a1", "ws-a2"]))
        .unwrap();
    let mut grants = GrantStore::create();
    let issued = grants
        .issue_for_tenant(
            "org-a".into(),
            "shared".into(),
            texts(&["ws-a1", "ws-a2"]),
            texts(&["mcp"]),
            10_000,
            1_000,
        )
        .unwrap();

    let mut tenants_b = TenantStore::restore(1, tenants_a).unwrap();
    assert!(tenants_b
        .remove_device_workspace("org-a", "device-a", "ws-a1")
        .unwrap());
    let tenants_a = TenantStore::restore(1, tenants_b).unwrap();
    assert!(matches!(
        tenants_a.verify_context(
            &issued.record,
            "org-a",
            "device-a",
            Some("ws-a1"),
            TenantRole::Operator,
        ),
        Err(AuthError::Unauthorized)
    ));
    tenants_a
        .verify_context(
            &issued.record,
            "org-a",
            "device-a",
            Some("ws-a2"),
            TenantRole::Operator,
        )
        .unwrap();
}

#[test]
fn stale_tenant_writer_cannot_restore_membership_or_device_revocation() {
    let mut store = seed_tenants();
    let mut grants = GrantStore::create();
    let grant = grants
        .issue_for_tenant(
            "org-a".into(),
            "shared".into(),
            texts(&["ws-a1"]),
            texts(&["mcp"]),
            10_000,
            1_000,
        )
        .unwrap();
    store.revoke_membership("org-a", "shared").unwrap();
    let mut store = TenantStore::restore(1, store).unwrap();
    store.upsert_user("unrelated", "Unrelated").unwrap();
    let mut store = TenantStore::restore(1, store).unwrap();
    assert!(matches!(
        store.verify_context(
            &grant.record,
            "org-a",
            "device-a",
            Some("ws-a1"),
            TenantRole::Viewer,
        ),
        Err(AuthError::Unauthorized)
    ));

    store
        .set_membership("org-a", "shared", TenantRole::Operator)
        .unwrap();
    let mut store = TenantStore::restore(1, store).unwrap();
    store.revoke_device("org-a", "device-a").unwrap();
    store
        .record_usage("org-a", Some("ws-a1"), "usage-a", 1)
        .unwrap();
    let store = TenantStore::restore(1, store).unwrap();
    assert!(matches!(
        store.verify_context(
            &grant.record,
            "org-a",
            "device-a",
            Some("ws-a1"),
            TenantRole::Operator,
        ),
        Err(AuthError::Unauthorized)
    ));
}

#[test]
fn malformed_composite_key_fixture_is_rejected() {
    let mut state = TenantStore::create();
    state.upsert_user("user-a", "A").unwrap();
    state.upsert_organization("org-a", "A").unwrap();
    state.memberships.insert(
        "org-a\u{0}user-a".into(),
        MembershipRecord {
            organization_id: "org-a".into(),
            user_id: "user-a".into(),
            role: TenantRole::Admin,
            revoked: false,
        },
    );
    assert!(matches!(
        TenantStore::restore(1, state),
        Err(AuthError::InvalidState)
    ));
}

#[test]
fn refused_grants_say_why() {
    let mut store = GrantStore::create();
    assert!(matches!(
        store.issue("operator".into(), Vec::new(), 1_000, 0),
        Err(AuthError::NoScopes)
    ));
    assert!(matches!(
        store.issue(" ".into(), texts(&["mcp"]), 1_000, 0),
        Err(AuthError::InvalidActor)
    ));
    assert!(matches!(
        store.issue("operator".into(), texts(&["mcp"]), 0, 0),
        Err(AuthError::InvalidTtl)
    ));
    assert!(matches!(
        store.issue("operator".into(), texts(&["mcp"]), u64::MAX, 1),
        Err(AuthError::InvalidTtl)
    ));
    assert!(matches!(
        store.issue_for_tenant(
            " ".into(),
            "operator".into(),
            Vec::new(),
            texts(&["mcp"]),
            1_000,
            0
        ),
        Err(AuthError::InvalidTenant)
    ));
}

#[test]
fn stores_of_another_version_are_refused() {
    let store = GrantStore::create();
    assert!(matches!(
        GrantStore::restore(
            2,
            store.device_id,
            Table::new(),
            Table::new(),
            Table::new()
        ),
        Err(AuthError::InvalidState)
    ));
    assert!(matches!(
        TenantStore::restore(2, TenantStore::create()),
        Err(AuthError::InvalidState)
    ));
}

#[test]
fn tokens_are_url_safe_base64_of_their_bytes() {
    let mut store = GrantStore::create();
    let issued = store
        .issue_with(
            "local".into(),
            "operator".into(),
            Vec::new(),
            texts(&["mcp"]),
            1_000,
            0,
            [255; 32],
            [1; 16],
        )
        .unwrap();
    assert_eq!(issued.token(), "__________________________________________8");
    assert_eq!(issued.record.grant_id, "01".repeat(16));
    assert_eq!(issued.record.expires_at_unix_ms, 1_000);
}

#[test]
fn expired_grants_are_pruned() {
    let mut store = GrantStore::create();
    store
        .issue("operator".into(), texts(&["mcp"]), 100, 0)
        .unwrap();
    store
        .issue("operator".into(), texts(&["mcp"]), 200, 0)
        .unwrap();
    assert_eq!(store.prune_expired(100), 1);
    assert_eq!(store.grants.len(), 1);
}

#[test]
fn repeated_names_are_collected_once() {
    let set = collect(&texts(&["b", "a", "b"]));
    assert_eq!(set.len(), 2);
    assert_eq!(set.item(0), "a");
    assert_eq!(set.item(1), "b");
}

#[test]
fn logs_show_grants_without_their_secrets() {
    let mut store = GrantStore::create();
    let issued = store
        .issue_with(
            "org-1".into(),
            "actor \"a\"".into(),
            texts(&["ws-2", "ws-1"]),
            texts(&["mcp"]),
            1_000,
            5,
            [1; 32],
            [0xab; 16],
        )
        .unwrap();
    assert_eq!(
        issued.redacted(),
        concat_lines(&[
            "IssuedGrant { token: \"<redacted>\", record: GrantRecord { grant_id: \"",
            &"ab".repeat(16),
            "\", organization_id: \"org-1\", actor_id: \"actor \\\"a\\\"\", ",
            "workspace_ids: {\"ws-1\", \"ws-2\"}, scopes: {\"mcp\"}, ",
            "issued_at_unix_ms: 5, expires_at_unix_ms: 1005, revoked: false } }",
        ])
    );
    assert_eq!(issued.record().grant_id, issued.record.grant_id);
    assert!(!issued.token().is_empty());
    let pairing = store
        .create_pairing_with(texts(&["a", "b"]), 10, 20, 5, [2; 20], [0xcd; 16])
        .unwrap();
    assert_eq!(
        pairing.redacted(),
        concat_lines(&[
            "IssuedPairing { code: \"<redacted>\", record: PairingRecord { pairing_id: \"",
            &"cd".repeat(16),
            "\", scopes: {\"a\", \"b\"}, created_at_unix_ms: 5, expires_at_unix_ms: 15, ",
            "grant_ttl_ms: 20 } }",
        ])
    );
    assert_eq!(pairing.record().grant_ttl_ms, 20);
}

fn concat_lines(parts: &[&str]) -> String {
    parts.concat()
}

#[test]
fn issued_tokens_serve_every_scope_until_they_expire() {
    let mut store = GrantStore::create();
    let issued = store
        .issue_for_tenant(
            "org-1".into(),
            "actor-1".into(),
            texts(&["ws-1"]),
            texts(&["mcp", " ", "gateway.read"]),
            1_000,
            5,
        )
        .unwrap();
    for scope in ["mcp", "gateway.read"] {
        for now in [0, 5, 1_004] {
            let grant = store.validate(issued.token(), scope, now).unwrap();
            assert_eq!(grant.grant_id, issued.record.grant_id);
        }
        assert!(store.validate(issued.token(), scope, 1_005).is_err());
    }
    assert!(!format!("{store:?}").contains(issued.token()));
}

#[test]
fn counts_are_listed_once() {
    let mut tenants = seed_tenants();
    for (workspace, units) in [(Some("ws-a1"), 3), (None, 4), (Some("ws-a1"), 5)] {
        tenants
            .record_usage("org-a", workspace, "calls", units)
            .unwrap();
    }
    let mut listed: Vec<(Option<String>, u64)> = tenants
        .list_usage_for_org("org-a")
        .unwrap()
        .into_iter()
        .map(|record| (record.workspace_id, record.units))
        .collect();
    listed.sort();
    assert_eq!(listed, vec![(None, 4), (Some("ws-a1".to_string()), 8)]);
}
