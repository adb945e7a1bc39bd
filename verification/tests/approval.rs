use vor_commander::approval::{
    approval_message, approver_public_key, sign_approval, ApprovalChallenge, ApprovalError, ApprovalVerifier,
    ApproverAuthority,
};
use vor_commander::protocol::{
    ActionEnvelope, ActionRequest, PolicyDecision, PolicyDecisionKind, ProtocolError,
};

fn request() -> ActionRequest {
    ActionRequest {
        envelope: ActionEnvelope {
            request_id: "request-1".into(),
            organization_id: "org-1".into(),
            actor_id: "remote-client".into(),
            device_id: "device-1".into(),
            action: "terminal.elevated".into(),
            target: "powershell".into(),
            parameters: Vec::new(),
            requested_capabilities: vec![],
            expires_at_unix_ms: 10_000,
            nonce: vec![5; 16],
        },
        envelope_digest: [3; 32],
    }
}

fn decision(request: &ActionRequest) -> PolicyDecision {
    PolicyDecision {
        request_id: request.envelope.request_id.clone(),
        kind: PolicyDecisionKind::Approval,
        policy_id: "local-default".into(),
        reason_code: "terminal_elevated".into(),
        required_capability: Some("elevated".into()),
        envelope_digest: request.envelope_digest,
    }
}

fn signer() -> [u8; 32] {
    rand::random::<[u8; 32]>()
}

#[test]
fn valid_signed_approval_verifies() {
    let request = request();
    let decision = decision(&request);
    let challenge = ApprovalChallenge::issue(&request, &decision, Ok(()), 1_000, 5_000).unwrap();
    let signing = signer();
    let approval = sign_approval(challenge, "operator-1".into(), &signing).unwrap();
    let mut verifier = ApprovalVerifier::new();
    verifier
        .add_approver_with_authority(
            "operator-1".into(),
            approver_public_key(&signing),
            ApproverAuthority::Elevated,
        )
        .unwrap();
    verifier
        .verify(&request, &decision, &approval, Ok(()), 2_000)
        .unwrap();
}

#[test]
fn tenant_scoped_approver_cannot_authorize_foreign_tenant_request() {
    let request = request();
    let decision = decision(&request);
    let challenge = ApprovalChallenge::issue(&request, &decision, Ok(()), 1_000, 5_000).unwrap();
    let signing = signer();
    let approval = sign_approval(challenge, "tenant-admin".into(), &signing).unwrap();
    let mut verifier = ApprovalVerifier::new();
    verifier
        .add_approver_for_organization(
            "tenant-admin".into(),
            approver_public_key(&signing),
            ApproverAuthority::Elevated,
            Some("org-2".into()),
        )
        .unwrap();
    assert!(matches!(
        verifier.verify(&request, &decision, &approval, Ok(()), 2_000),
        Err(ApprovalError::ApproverTenantMismatch)
    ));

    let mut verifier = ApprovalVerifier::new();
    verifier
        .add_approver_for_organization(
            "tenant-admin".into(),
            approver_public_key(&signing),
            ApproverAuthority::Elevated,
            Some("org-1".into()),
        )
        .unwrap();
    verifier
        .verify(&request, &decision, &approval, Ok(()), 2_000)
        .unwrap();
}

#[test]
fn tenant_mode_rejects_legacy_unscoped_approver() {
    let request = request();
    let decision = decision(&request);
    let challenge = ApprovalChallenge::issue(&request, &decision, Ok(()), 1_000, 5_000).unwrap();
    let signing = signer();
    let approval = sign_approval(challenge, "legacy-admin".into(), &signing).unwrap();
    let mut verifier = ApprovalVerifier::new();
    verifier.require_organization_scope();
    verifier
        .add_approver_with_authority(
            "legacy-admin".into(),
            approver_public_key(&signing),
            ApproverAuthority::Elevated,
        )
        .unwrap();

    assert!(matches!(
        verifier.verify(&request, &decision, &approval, Ok(()), 2_000),
        Err(ApprovalError::ApproverTenantMismatch)
    ));
}

#[test]
fn revoked_approver_rejects_previously_valid_signature() {
    let request = request();
    let decision = decision(&request);
    let challenge = ApprovalChallenge::issue(&request, &decision, Ok(()), 1_000, 5_000).unwrap();
    let signing = signer();
    let approval = sign_approval(challenge, "tenant-admin".into(), &signing).unwrap();
    let mut verifier = ApprovalVerifier::new();
    verifier.require_organization_scope();
    verifier
        .add_approver_for_organization(
            "tenant-admin".into(),
            approver_public_key(&signing),
            ApproverAuthority::Elevated,
            Some("org-1".into()),
        )
        .unwrap();
    verifier
        .verify(&request, &decision, &approval, Ok(()), 2_000)
        .unwrap();
    verifier.revoke_approver("tenant-admin").unwrap();

    assert!(matches!(
        verifier.verify(&request, &decision, &approval, Ok(()), 2_100),
        Err(ApprovalError::ApproverRevoked)
    ));
}

#[test]
fn rotated_approver_rejects_old_key_and_accepts_new_approval() {
    let request = request();
    let decision = decision(&request);
    let challenge = ApprovalChallenge::issue(&request, &decision, Ok(()), 1_000, 5_000).unwrap();
    let old_signing = signer();
    let old_approval = sign_approval(challenge.duplicate(), "tenant-admin".into(), &old_signing).unwrap();
    let new_signing = [9u8; 32];
    let new_approval = sign_approval(challenge, "tenant-admin".into(), &new_signing).unwrap();
    let mut verifier = ApprovalVerifier::new();
    verifier.require_organization_scope();
    verifier
        .add_approver_for_organization(
            "tenant-admin".into(),
            approver_public_key(&old_signing),
            ApproverAuthority::Elevated,
            Some("org-1".into()),
        )
        .unwrap();
    verifier
        .rotate_approver_for_organization(
            "tenant-admin".into(),
            approver_public_key(&new_signing),
            ApproverAuthority::Elevated,
            "org-1".into(),
        )
        .unwrap();

    assert!(matches!(
        verifier.verify(&request, &decision, &old_approval, Ok(()), 2_000),
        Err(ApprovalError::InvalidSignature)
    ));
    verifier
        .verify(&request, &decision, &new_approval, Ok(()), 2_000)
        .unwrap();
}

#[test]
fn policy_or_capability_mutation_is_rejected() {
    let request = request();
    let decision = decision(&request);
    let challenge = ApprovalChallenge::issue(&request, &decision, Ok(()), 1_000, 5_000).unwrap();
    let signing = signer();
    let mut approval = sign_approval(challenge, "operator-1".into(), &signing).unwrap();
    let mut verifier = ApprovalVerifier::new();
    verifier
        .add_approver_with_authority(
            "operator-1".into(),
            approver_public_key(&signing),
            ApproverAuthority::Elevated,
        )
        .unwrap();
    approval.challenge.policy_id = "other-policy".into();
    assert!(matches!(
        verifier.verify(&request, &decision, &approval, Ok(()), 2_000),
        Err(ApprovalError::ChallengeMismatch)
    ));
}

#[test]
fn wrong_signer_is_rejected() {
    let request = request();
    let decision = decision(&request);
    let challenge = ApprovalChallenge::issue(&request, &decision, Ok(()), 1_000, 5_000).unwrap();
    let signing = signer();
    let approval = sign_approval(challenge, "operator-1".into(), &signing).unwrap();
    let trusted_other = signer();
    let mut verifier = ApprovalVerifier::new();
    verifier
        .add_approver_with_authority(
            "operator-1".into(),
            approver_public_key(&trusted_other),
            ApproverAuthority::Elevated,
        )
        .unwrap();
    assert!(matches!(
        verifier.verify(&request, &decision, &approval, Ok(()), 2_000),
        Err(ApprovalError::InvalidSignature)
    ));
}
#[test]
fn expired_or_overlong_approval_is_rejected() {
    let request = request();
    let decision = decision(&request);
    assert!(matches!(
        ApprovalChallenge::issue(&request, &decision, Ok(()), 1_000, 11_000),
        Err(ApprovalError::InvalidExpiry)
    ));

    let challenge = ApprovalChallenge::issue(&request, &decision, Ok(()), 1_000, 2_000).unwrap();
    let signing = signer();
    let approval = sign_approval(challenge, "operator-1".into(), &signing).unwrap();
    let mut verifier = ApprovalVerifier::new();
    verifier
        .add_approver_with_authority(
            "operator-1".into(),
            approver_public_key(&signing),
            ApproverAuthority::Elevated,
        )
        .unwrap();
    assert!(matches!(
        verifier.verify(&request, &decision, &approval, Ok(()), 2_000),
        Err(ApprovalError::ApprovalExpired)
    ));
}

#[test]
fn default_approver_cannot_authorize_elevated_policy() {
    let request = request();
    let decision = decision(&request);
    let challenge = ApprovalChallenge::issue(&request, &decision, Ok(()), 1_000, 5_000).unwrap();
    let signing = signer();
    let approval = sign_approval(challenge, "approver-1".into(), &signing).unwrap();
    let mut verifier = ApprovalVerifier::new();
    verifier
        .add_approver("approver-1".into(), approver_public_key(&signing))
        .unwrap();
    assert!(matches!(
        verifier.verify(&request, &decision, &approval, Ok(()), 2_000),
        Err(ApprovalError::InsufficientApproverAuthority)
    ));
}

#[test]
fn owner_satisfies_elevated_and_owner_but_elevated_does_not_satisfy_owner() {
    let request = request();
    let elevated_decision = decision(&request);
    let elevated_challenge =
        ApprovalChallenge::issue(&request, &elevated_decision, Ok(()), 1_000, 5_000).unwrap();
    let owner_signing = signer();
    let elevated_approval = sign_approval(elevated_challenge, "owner".into(), &owner_signing).unwrap();
    let mut owner_verifier = ApprovalVerifier::new();
    owner_verifier
        .add_approver_with_authority(
            "owner".into(),
            approver_public_key(&owner_signing),
            ApproverAuthority::Owner,
        )
        .unwrap();
    owner_verifier
        .verify(&request, &elevated_decision, &elevated_approval, Ok(()), 2_000)
        .unwrap();

    let owner_decision = PolicyDecision {
        required_capability: Some("owner".into()),
        ..elevated_decision.clone()
    };
    let owner_challenge =
        ApprovalChallenge::issue(&request, &owner_decision, Ok(()), 1_000, 5_000).unwrap();
    let elevated_signing = signer();
    let rejected = sign_approval(owner_challenge.duplicate(), "admin".into(), &elevated_signing).unwrap();
    let mut elevated_verifier = ApprovalVerifier::new();
    elevated_verifier
        .add_approver_with_authority(
            "admin".into(),
            approver_public_key(&elevated_signing),
            ApproverAuthority::Elevated,
        )
        .unwrap();
    assert!(matches!(
        elevated_verifier.verify(&request, &owner_decision, &rejected, Ok(()), 2_000),
        Err(ApprovalError::InsufficientApproverAuthority)
    ));

    let owner_approval = sign_approval(owner_challenge, "owner".into(), &owner_signing).unwrap();
    owner_verifier
        .verify(&request, &owner_decision, &owner_approval, Ok(()), 2_000)
        .unwrap();
}

#[test]
fn unknown_required_capability_fails_closed() {
    let request = request();
    let decision = PolicyDecision {
        required_capability: Some("future-root-mode".into()),
        ..decision(&request)
    };
    let challenge = ApprovalChallenge::issue(&request, &decision, Ok(()), 1_000, 5_000).unwrap();
    let signing = signer();
    let approval = sign_approval(challenge, "owner".into(), &signing).unwrap();
    let mut verifier = ApprovalVerifier::new();
    verifier
        .add_approver_with_authority(
            "owner".into(),
            approver_public_key(&signing),
            ApproverAuthority::Owner,
        )
        .unwrap();
    assert!(matches!(
        verifier.verify(&request, &decision, &approval, Ok(()), 2_000),
        Err(ApprovalError::UnsupportedRequiredCapability)
    ));
}

#[test]
fn signed_approval_debug_redacts_signature() {
    let request = request();
    let decision = decision(&request);
    let challenge = ApprovalChallenge::issue(&request, &decision, Ok(()), 1_000, 5_000).unwrap();
    let signing = signer();
    let approval = sign_approval(challenge, "operator-1".into(), &signing).unwrap();
    let signature_hex = hex::encode(approval.signature);
    assert!(!approval.redacted().contains(&signature_hex));
}

#[test]
fn challenges_have_fresh_nonces() {
    let request = request();
    let decision = decision(&request);
    let first = ApprovalChallenge::issue(&request, &decision, Ok(()), 1_000, 5_000).unwrap();
    let second = ApprovalChallenge::issue(&request, &decision, Ok(()), 1_000, 5_000).unwrap();
    assert_ne!(first.approval_nonce, second.approval_nonce);
}

#[test]
fn challenges_are_refused_for_what_needs_no_approval() {
    let request = request();
    let auto = PolicyDecision {
        kind: PolicyDecisionKind::Auto,
        ..decision(&request)
    };
    assert!(matches!(
        ApprovalChallenge::issue(&request, &auto, Ok(()), 1_000, 5_000),
        Err(ApprovalError::DecisionDoesNotRequireApproval)
    ));
    let foreign = PolicyDecision {
        request_id: "request-2".into(),
        ..decision(&request)
    };
    assert!(matches!(
        ApprovalChallenge::issue(&request, &foreign, Ok(()), 1_000, 5_000),
        Err(ApprovalError::DecisionMismatch)
    ));
    let unnamed = PolicyDecision {
        policy_id: " ".into(),
        ..decision(&request)
    };
    assert!(matches!(
        ApprovalChallenge::issue(&request, &unnamed, Ok(()), 1_000, 5_000),
        Err(ApprovalError::InvalidChallenge)
    ));
    assert!(matches!(
        ApprovalChallenge::issue(
            &request,
            &decision(&request),
            Err(ProtocolError::DigestMismatch),
            1_000,
            5_000
        ),
        Err(ApprovalError::Protocol(ProtocolError::DigestMismatch))
    ));
}

#[test]
fn approvers_are_registered_once_under_a_valid_key() {
    let key = approver_public_key(&[9u8; 32]);
    let mut verifier = ApprovalVerifier::new();
    verifier.add_approver("operator-1".into(), key).unwrap();
    assert!(matches!(
        verifier.add_approver("operator-1".into(), key),
        Err(ApprovalError::DuplicateApprover)
    ));
    assert!(matches!(
        verifier.add_approver(" ".into(), key),
        Err(ApprovalError::InvalidChallenge)
    ));
    let mut broken = [0u8; 32];
    broken[0] = 2;
    assert!(matches!(
        verifier.add_approver("operator-2".into(), broken),
        Err(ApprovalError::InvalidPublicKey)
    ));
    assert!(matches!(
        verifier.revoke_approver("operator-2"),
        Err(ApprovalError::UnknownApprover)
    ));
}

#[test]
fn unknown_approvers_are_refused() {
    let request = request();
    let decision = decision(&request);
    let challenge = ApprovalChallenge::issue(&request, &decision, Ok(()), 1_000, 5_000).unwrap();
    let approval = sign_approval(challenge, "operator-1".into(), &[9u8; 32]).unwrap();
    assert!(matches!(
        ApprovalVerifier::new().verify(&request, &decision, &approval, Ok(()), 2_000),
        Err(ApprovalError::UnknownApprover)
    ));
}

#[test]
fn a_key_derives_as_ed25519_prescribes() {
    // The first of the test vectors of RFC 8032.
    let secret = hex::decode("9d61b19deffd5a60ba844af492ec2cc44449c5697b326919703bac031cae7f60")
        .unwrap();
    let mut bytes = [0u8; 32];
    bytes.copy_from_slice(&secret);
    assert_eq!(
        hex::encode(approver_public_key(&bytes)),
        "d75a980182b10ab7d54bfed3c964073a0ee172f3daa62325af021a68f707511a"
    );
}

#[test]
fn authorities_have_several_names() {
    assert_eq!(
        ApproverAuthority::parse(" Approval "),
        Ok(ApproverAuthority::Approve)
    );
    assert_eq!(
        ApproverAuthority::parse("ELEVATED"),
        Ok(ApproverAuthority::Elevated)
    );
    assert_eq!(
        ApproverAuthority::parse("full_owner"),
        Ok(ApproverAuthority::Owner)
    );
    assert_eq!(
        ApproverAuthority::parse("root"),
        Err(ApprovalError::InvalidApproverAuthority)
    );
}

#[test]
fn oversized_names_are_not_signed() {
    let request = request();
    let decision = decision(&request);
    let challenge = ApprovalChallenge::issue(&request, &decision, Ok(()), 1_000, 5_000).unwrap();
    assert!(matches!(
        sign_approval(challenge, "x".repeat(4097), &[9u8; 32]),
        Err(ApprovalError::InvalidChallenge)
    ));
}

#[test]
fn messages_tell_challenges_and_approvers_apart() {
    let request = request();
    let decision = decision(&request);
    let challenge = ApprovalChallenge::issue(&request, &decision, Ok(()), 1_000, 5_000).unwrap();
    let message = approval_message(&challenge, "operator-1").unwrap();
    assert_eq!(approval_message(&challenge, "operator-1").unwrap(), message);
    assert_ne!(approval_message(&challenge, "operator-2").unwrap(), message);
    let changed = |change: &dyn Fn(&mut ApprovalChallenge)| {
        let mut other = challenge.duplicate();
        change(&mut other);
        approval_message(&other, "operator-1").unwrap()
    };
    assert_ne!(changed(&|c| c.request_id.push('x')), message);
    assert_ne!(changed(&|c| c.envelope_digest[0] ^= 1), message);
    assert_ne!(changed(&|c| c.policy_id.push('x')), message);
    assert_ne!(changed(&|c| c.required_capability = None), message);
    assert_ne!(changed(&|c| c.expires_at_unix_ms += 1), message);
    assert_ne!(changed(&|c| c.approval_nonce[0] ^= 1), message);
    assert!(matches!(
        approval_message(&challenge, " "),
        Err(ApprovalError::InvalidChallenge)
    ));
}

#[test]
fn logs_show_approvals_without_their_signature() {
    let request = request();
    let decision = decision(&request);
    let mut challenge =
        ApprovalChallenge::issue(&request, &decision, Ok(()), 1_000, 5_000).unwrap();
    challenge.approval_nonce = [4; 32];
    let approval = sign_approval(challenge, "operator-1".into(), &signer()).unwrap();
    assert_eq!(
        approval.redacted(),
        format!(
            "SignedApproval {{ challenge: {:?}, approver_id: \"operator-1\", signature: \"<redacted>\" }}",
            approval.challenge
        )
    );
    assert!(approval.redacted().contains("Some(\"elevated\")"));
}
