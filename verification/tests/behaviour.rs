use plaza_security::audit::AuditOutcome;
use plaza_security::encryption::{encode, KeyDerivationParams};
use plaza_security::network_policy::{NetworkRule, NetworkSecurityPolicy};
use plaza_security::rbac::Role;
use plaza_security::{
    AuditLogger, AuditSeverity, EncryptionEngine, EncryptionMode, EnforcementMode, IamManager,
    IdentityProvider, NetworkPolicyEngine, Permission, PolicyAction, RbacEngine, SandboxCapability,
    SandboxManager, SecurityError, TpmManager, TpmMode,
};

fn hex(bytes: &[u8]) -> String {
    bytes.iter().map(|b| format!("{:02x}", b)).collect()
}

fn rule(name: &str, protocol: &str, ports: Option<(u16, u16)>, cidr: Option<&str>, action: PolicyAction, priority: u32) -> NetworkRule {
    NetworkRule {
        name: name.to_string(),
        protocol: protocol.to_string(),
        port_range: ports,
        cidr: cidr.map(|c| c.to_string()),
        action,
        priority,
    }
}

// ---- encryption and hashing ----

#[test]
fn hex_encoding_exact() {
    assert_eq!(encode(&[0x00, 0xff, 0x1a, 0x9c]), "00ff1a9c");
    assert_eq!(encode(&[]), "");
}

#[test]
fn sha256_known_vectors() {
    let engine = EncryptionEngine::new(EncryptionMode::ChaCha20Poly1305);
    assert_eq!(engine.hash_sha256(b"abc"), "ba7816bf8f01cfea414140de5dae2223b00361a396177a9cb410ff61f20015ad");
    assert_eq!(engine.hash_sha256(b""), "e3b0c44298fc1c149afbf4c8996fb92427ae41e4649b934ca495991b7852b855");
    assert_eq!(engine.hash_sha256(b"abc").len(), 64);
}

#[test]
fn derive_key_rounds_and_truncation() {
    let engine = EncryptionEngine::new(EncryptionMode::Aes256Gcm);
    let one = KeyDerivationParams { salt: b"salt".to_vec(), iterations: 1, key_length: 32 };
    assert_eq!(hex(&engine.derive_key("pass", &one)), "c8b2505b76926abdc733523caa9f439142f66aa7293a7baaac0aed41a191eef6");
    let zero = KeyDerivationParams { salt: b"salt".to_vec(), iterations: 0, key_length: 32 };
    assert_eq!(hex(&engine.derive_key("pass", &zero)), "c8b2505b76926abdc733523caa9f439142f66aa7293a7baaac0aed41a191eef6");
    let three = KeyDerivationParams { salt: b"salt".to_vec(), iterations: 3, key_length: 32 };
    assert_eq!(hex(&engine.derive_key("pass", &three)), "1ef651e718e2244fa84fab6829403f3ec0f88a9bf453b5ab889f1253d8590c98");
    let short = KeyDerivationParams { salt: b"salt".to_vec(), iterations: 2, key_length: 4 };
    assert_eq!(hex(&engine.derive_key("pass", &short)), "2b44a1dd");
    let long = KeyDerivationParams { salt: b"salt".to_vec(), iterations: 2, key_length: 64 };
    assert_eq!(engine.derive_key("pass", &long).len(), 32);
}

#[test]
fn derive_key_is_deterministic() {
    let engine = EncryptionEngine::new(EncryptionMode::Aes256Gcm);
    let params = KeyDerivationParams { salt: vec![7; 16], iterations: 100_000, key_length: 32 };
    assert_eq!(engine.derive_key("p", &params), engine.derive_key("p", &params));
    assert_ne!(engine.derive_key("p", &params), engine.derive_key("q", &params));
}

#[test]
fn default_params() {
    let params = KeyDerivationParams::default();
    assert_eq!(params.salt.len(), 16);
    assert_eq!(params.iterations, 100_000);
    assert_eq!(params.key_length, 32);
    assert_eq!(params.salt[6] & 0xf0, 0x40);
    assert_eq!(params.salt[8] & 0xc0, 0x80);
}

#[test]
fn encrypt_exact_bytes() {
    let engine = EncryptionEngine::new(EncryptionMode::Aes256Gcm);
    let key: Vec<u8> = (1..=16).collect();
    let data: Vec<u8> = vec![0; 18];
    let c = engine.encrypt(&key, &data).unwrap();
    let mut expected: Vec<u8> = (1..=16).collect();
    expected.push(1);
    expected.push(2);
    assert_eq!(c, expected);
    let c2 = engine.encrypt(&key, &[0xff, 0x0f]).unwrap();
    assert_eq!(c2, vec![0xfe, 0x0d]);
}

#[test]
fn encrypt_rejects_short_key() {
    let engine = EncryptionEngine::new(EncryptionMode::Aes256Gcm);
    match engine.encrypt(&[1u8; 15], b"data") {
        Err(SecurityError::Internal(m)) => assert_eq!(m, "Key too short (min 16 bytes)"),
        other => panic!("unexpected {:?}", other),
    }
    match engine.decrypt(&[], b"data") {
        Err(SecurityError::Internal(m)) => assert_eq!(m, "Key too short (min 16 bytes)"),
        other => panic!("unexpected {:?}", other),
    }
    assert!(engine.encrypt(&[1u8; 16], b"").unwrap().is_empty());
}

#[test]
fn decrypt_inverts_encrypt_long_data() {
    let engine = EncryptionEngine::new(EncryptionMode::Aes256Gcm);
    let key: Vec<u8> = (0..20).map(|i| (i * 37 + 5) as u8).collect();
    let data: Vec<u8> = (0..100).map(|i| (i * 13) as u8).collect();
    let c = engine.encrypt(&key, &data).unwrap();
    assert_eq!(c.len(), data.len());
    assert_eq!(engine.decrypt(&key, &c).unwrap(), data);
}

#[test]
fn nonce_and_mode() {
    let engine = EncryptionEngine::new(EncryptionMode::ChaCha20Poly1305);
    let n = engine.generate_nonce();
    assert_eq!(n.len(), 12);
    assert_eq!(n[6] & 0xf0, 0x40);
    assert_eq!(n[8] & 0xc0, 0x80);
    assert_eq!(*engine.mode(), EncryptionMode::ChaCha20Poly1305);
}

// ---- TPM ----

#[test]
fn measure_hash_is_sha256_hex() {
    let tpm = TpmManager::new(TpmMode::Hardware);
    let m = tpm.measure(7, b"kernel-image-data", "Kernel").unwrap();
    assert_eq!(m.hash, "7435d44063ee3e0996bbe7b7f38c48ac6e38580057be1516ee1e2eda4d07acfb");
    assert_eq!(tpm.measure(0, b"", "empty").unwrap().hash.len(), 64);
    assert_eq!(m.index, 7);
    assert_eq!(m.description, "Kernel");
}

#[test]
fn disabled_tpm_refuses_and_is_unverified() {
    let tpm = TpmManager::new(TpmMode::Disabled);
    match tpm.measure(0, b"x", "d") {
        Err(SecurityError::Internal(m)) => assert_eq!(m, "TPM is disabled"),
        other => panic!("unexpected {:?}", other),
    }
    let report = tpm.attest("linux-x86_64", Vec::new());
    assert!(!report.verified);
    assert_eq!(report.platform, "linux-x86_64");
    assert_eq!(*tpm.mode(), TpmMode::Disabled);
}

#[test]
fn attest_keeps_measurements() {
    let tpm = TpmManager::detect(false);
    assert_eq!(*tpm.mode(), TpmMode::Software);
    assert_eq!(*TpmManager::detect(true).mode(), TpmMode::Hardware);
    let m = tpm.measure(1, b"fw", "Firmware").unwrap();
    let report = tpm.attest("p", vec![m]);
    assert!(report.verified);
    assert_eq!(report.measurements.len(), 1);
    assert_eq!(report.measurements[0].index, 1);
    assert!(report.timestamp.len() >= 25);
    assert!(report.timestamp.ends_with("+00:00"));
}

// ---- RBAC ----

#[test]
fn seeded_roles_grant_their_permissions() {
    let mut rbac = RbacEngine::new();
    rbac.seed_defaults();
    rbac.assign_role("v", "viewer").unwrap();
    assert!(rbac.has_permission("v", &Permission::WorkspaceRead));
    assert!(!rbac.has_permission("v", &Permission::WorkspaceCreate));
    rbac.assign_role("o", "operator").unwrap();
    for p in [Permission::WorkspaceCreate, Permission::WorkspaceRead, Permission::WorkspaceUpdate, Permission::WorkspaceStart, Permission::WorkspaceStop, Permission::ImageImport] {
        assert!(rbac.has_permission("o", &p));
    }
    for p in [Permission::WorkspaceDelete, Permission::ImageDelete, Permission::NetworkManage, Permission::SystemAdmin] {
        assert!(!rbac.has_permission("o", &p));
    }
    rbac.assign_role("a", "admin").unwrap();
    assert!(rbac.has_permission("a", &Permission::RoleManage));
}

#[test]
fn unknown_principal_and_role() {
    let mut rbac = RbacEngine::new();
    rbac.seed_defaults();
    assert!(!rbac.has_permission("nobody", &Permission::WorkspaceRead));
    match rbac.assign_role("u", "ghost") {
        Err(SecurityError::NotFound(m)) => assert_eq!(m, "Role 'ghost'"),
        other => panic!("unexpected {:?}", other),
    }
    assert!(!rbac.has_permission("u", &Permission::WorkspaceRead));
}

#[test]
fn create_role_rejects_duplicates() {
    let mut rbac = RbacEngine::new();
    rbac.seed_defaults();
    let dup = Role { name: "admin".into(), description: "x".into(), permissions: vec![] };
    match rbac.create_role(dup) {
        Err(SecurityError::Internal(m)) => assert_eq!(m, "Role 'admin' already exists"),
        other => panic!("unexpected {:?}", other),
    }
    rbac.assign_role("a", "admin").unwrap();
    assert!(rbac.has_permission("a", &Permission::UserManage));
    let custom = Role { name: "auditor".into(), description: "audit".into(), permissions: vec![Permission::SecurityAudit, Permission::SecurityAudit] };
    rbac.create_role(custom).unwrap();
    rbac.assign_role("b", "auditor").unwrap();
    assert!(rbac.has_permission("b", &Permission::SecurityAudit));
    assert!(!rbac.has_permission("b", &Permission::WorkspaceRead));
}

#[test]
fn custom_system_admin_role_grants_everything() {
    let mut rbac = RbacEngine::new();
    rbac.create_role(Role { name: "root".into(), description: "".into(), permissions: vec![Permission::SystemAdmin] }).unwrap();
    rbac.assign_role("r", "root").unwrap();
    assert!(rbac.has_permission("r", &Permission::ImageGarbageCollect));
    assert!(rbac.has_permission("r", &Permission::WorkspaceDelete));
}

#[test]
fn assign_is_idempotent_and_monotone() {
    let mut rbac = RbacEngine::new();
    rbac.seed_defaults();
    rbac.assign_role("u", "viewer").unwrap();
    rbac.assign_role("u", "viewer").unwrap();
    assert!(rbac.has_permission("u", &Permission::WorkspaceRead));
    rbac.assign_role("u", "operator").unwrap();
    assert!(rbac.has_permission("u", &Permission::WorkspaceRead));
    assert!(rbac.has_permission("u", &Permission::ImageImport));
}

#[test]
fn require_permission_message() {
    let mut rbac = RbacEngine::new();
    rbac.seed_defaults();
    rbac.assign_role("u", "viewer").unwrap();
    assert!(rbac.require_permission("u", &Permission::WorkspaceRead).is_ok());
    match rbac.require_permission("u", &Permission::SecurityAudit) {
        Err(SecurityError::Internal(m)) => assert_eq!(m, "Principal 'u' lacks permission SecurityAudit"),
        other => panic!("unexpected {:?}", other),
    }
    assert_eq!(Permission::ImageGarbageCollect.label(), format!("{:?}", Permission::ImageGarbageCollect));
}

// ---- audit ----

#[test]
fn retention_drops_oldest() {
    let mut logger = AuditLogger::new(2);
    logger.log_success("a", "x", "r");
    logger.log_success("b", "x", "r");
    logger.log_success("c", "x", "r");
    assert_eq!(logger.count(), 2);
    let recent = logger.recent(10);
    let names: Vec<&str> = recent.iter().map(|e| e.principal.as_str()).collect();
    assert_eq!(names, vec!["c", "b"]);
    let all = logger.entries();
    assert_eq!(all[0].principal, "b");
}

#[test]
fn retention_over_many_calls_keeps_newest_in_order() {
    let mut logger = AuditLogger::new(3);
    let names: Vec<String> = (0..10).map(|i| format!("p{}", i)).collect();
    for n in &names {
        logger.log_success(n, "x", "r");
        assert!(logger.count() <= 3);
    }
    let kept: Vec<&str> = logger.entries().iter().map(|e| e.principal.as_str()).collect();
    assert_eq!(kept, vec!["p7", "p8", "p9"]);
}

#[test]
fn zero_retention_keeps_nothing() {
    let mut logger = AuditLogger::new(0);
    logger.log_denied("a", "x", "r");
    assert_eq!(logger.count(), 0);
    assert!(logger.recent(5).is_empty());
}

#[test]
fn log_then_recent_gives_entry() {
    let mut logger = AuditLogger::new(5);
    logger.log("p", "act", "res", AuditOutcome::Denied, AuditSeverity::Warning, None, Some("10.0.0.1".to_string()));
    let r = logger.recent(1);
    assert_eq!(r.len(), 1);
    assert_eq!(r[0].principal, "p");
    assert_eq!(r[0].action, "act");
    assert_eq!(r[0].resource, "res");
    assert_eq!(r[0].outcome, AuditOutcome::Denied);
    assert_eq!(r[0].severity, AuditSeverity::Warning);
    assert_eq!(r[0].source_ip.as_deref(), Some("10.0.0.1"));
    assert_eq!(r[0].id.len(), 36);
    assert_eq!(&r[0].id[8..9], "-");
    assert_eq!(&r[0].id[13..15], "-4");
    assert_eq!(&r[0].id[18..19], "-");
    assert_eq!(&r[0].id[23..24], "-");
    assert!(r[0].timestamp.ends_with("+00:00"));
}

#[test]
fn queries_filter_and_limit() {
    let mut logger = AuditLogger::new(100);
    logger.log_success("alice", "a1", "r");
    logger.log_denied("bob", "b1", "r");
    logger.log_success("alice", "a2", "r");
    logger.log_success("alice", "a3", "r");
    let by_alice = logger.by_principal("alice", 2);
    let actions: Vec<&str> = by_alice.iter().map(|e| e.action.as_str()).collect();
    assert_eq!(actions, vec!["a3", "a2"]);
    assert_eq!(logger.by_principal("carol", 10).len(), 0);
    let warnings = logger.by_severity(AuditSeverity::Warning, 10);
    assert_eq!(warnings.len(), 1);
    assert_eq!(warnings[0].principal, "bob");
    assert_eq!(logger.recent(0).len(), 0);
    assert_eq!(logger.recent(3).len(), 3);
}

// ---- sandbox ----

#[test]
fn sandbox_errors() {
    let mut sandbox = SandboxManager::new(EnforcementMode::Enforce);
    sandbox.create_profile("vm").unwrap();
    match sandbox.create_profile("vm") {
        Err(SecurityError::Internal(m)) => assert_eq!(m, "Profile already exists for vm"),
        other => panic!("unexpected {:?}", other),
    }
    match sandbox.grant_capability("none", SandboxCapability::GpuAccess) {
        Err(SecurityError::NotFound(m)) => assert_eq!(m, "Sandbox profile for none"),
        other => panic!("unexpected {:?}", other),
    }
    match sandbox.revoke_capability("none", &SandboxCapability::GpuAccess) {
        Err(SecurityError::NotFound(m)) => assert_eq!(m, "Sandbox profile for none"),
        other => panic!("unexpected {:?}", other),
    }
    assert!(!sandbox.check_capability("none", &SandboxCapability::GpuAccess));
}

#[test]
fn sandbox_grant_revoke_remove() {
    let mut sandbox = SandboxManager::new(EnforcementMode::Enforce);
    sandbox.create_profile("vm").unwrap();
    sandbox.grant_capability("vm", SandboxCapability::GpuAccess).unwrap();
    sandbox.grant_capability("vm", SandboxCapability::GpuAccess).unwrap();
    sandbox.grant_capability("vm", SandboxCapability::AudioAccess).unwrap();
    let mut caps = sandbox.list_capabilities("vm");
    caps.sort_by_key(|c| format!("{:?}", c));
    assert_eq!(caps, vec![SandboxCapability::AudioAccess, SandboxCapability::GpuAccess]);
    sandbox.revoke_capability("vm", &SandboxCapability::GpuAccess).unwrap();
    assert!(!sandbox.check_capability("vm", &SandboxCapability::GpuAccess));
    assert!(sandbox.check_capability("vm", &SandboxCapability::AudioAccess));
    sandbox.revoke_capability("vm", &SandboxCapability::GpuAccess).unwrap();
    sandbox.remove_profile("vm");
    assert!(!sandbox.check_capability("vm", &SandboxCapability::AudioAccess));
    assert!(sandbox.list_capabilities("vm").is_empty());
    sandbox.remove_profile("vm");
}

#[test]
fn sandbox_unenforced_modes_allow() {
    let mut permissive = SandboxManager::new(EnforcementMode::Permissive);
    permissive.create_profile("vm").unwrap();
    assert!(permissive.check_capability("vm", &SandboxCapability::UsbPassthrough));
    let mut disabled = SandboxManager::new(EnforcementMode::Disabled);
    disabled.create_profile("vm").unwrap();
    assert!(disabled.check_capability("vm", &SandboxCapability::DeviceAccess));
    assert!(!disabled.check_capability("other", &SandboxCapability::DeviceAccess));
}

// ---- IAM ----

#[test]
fn identity_lifecycle() {
    let mut iam = IamManager::new();
    let alice = iam.create_identity("alice", "Alice", None).unwrap();
    assert_eq!(alice.id.len(), 36);
    assert_eq!(&alice.id[14..15], "4");
    assert!(alice.created_at.ends_with("+00:00"));
    assert_eq!(alice.provider, IdentityProvider::Local);
    assert!(alice.enabled);
    assert!(alice.last_login.is_none());
    assert!(alice.email.is_none());
    assert_eq!(iam.get_identity(&alice.id).unwrap().username, "alice");
    iam.disable_identity(&alice.id).unwrap();
    assert!(!iam.get_identity(&alice.id).unwrap().enabled);
    iam.record_login(&alice.id).unwrap();
    assert!(iam.get_identity(&alice.id).unwrap().last_login.as_deref().unwrap().ends_with("+00:00"));
    assert_eq!(iam.find_by_username("alice").unwrap().id, alice.id);
    assert_eq!(iam.list_identities().len(), 1);
}

#[test]
fn identity_errors() {
    let mut iam = IamManager::new();
    match iam.get_identity("missing") {
        Err(SecurityError::NotFound(m)) => assert_eq!(m, "Identity missing"),
        other => panic!("unexpected {:?}", other),
    }
    match iam.disable_identity("missing") {
        Err(SecurityError::NotFound(m)) => assert_eq!(m, "Identity missing"),
        other => panic!("unexpected {:?}", other),
    }
    assert!(iam.record_login("missing").is_err());
    iam.create_identity("bob", "Bob", Some("b@x")).unwrap();
    match iam.create_identity("bob", "Other", None) {
        Err(SecurityError::Internal(m)) => assert_eq!(m, "Username 'bob' already exists"),
        other => panic!("unexpected {:?}", other),
    }
    assert_eq!(iam.list_identities().len(), 1);
    assert!(iam.find_by_username("nobody").is_none());
}

#[test]
fn service_account_creation() {
    let mut iam = IamManager::new();
    let sa = iam.create_service_account("ci", vec!["read".to_string(), "write".to_string()]).unwrap();
    assert_eq!(sa.name, "ci");
    assert_eq!(sa.scopes, vec!["read".to_string(), "write".to_string()]);
    assert!(sa.enabled);
    assert_eq!(sa.id.len(), 36);
    assert_eq!(sa.secret_hash.len(), 36);
    assert_eq!(&sa.id[8..9], "-");
    assert_eq!(&sa.secret_hash[14..15], "4");
    assert_ne!(sa.id, sa.secret_hash);
}

// ---- network policy ----

#[test]
fn lower_priority_number_wins_in_any_order() {
    let engine = NetworkPolicyEngine::new();
    let mut policy = NetworkSecurityPolicy {
        instance_id: "vm".into(),
        default_action: PolicyAction::Deny,
        ingress_rules: vec![
            rule("late", "tcp", None, None, PolicyAction::Log, 50),
            rule("early", "*", Some((1, 1000)), None, PolicyAction::Allow, 10),
        ],
        egress_rules: vec![],
    };
    assert_eq!(engine.evaluate(&policy, "ingress", "tcp", 22, None), PolicyAction::Allow);
    assert_eq!(engine.evaluate(&policy, "ingress", "tcp", 2000, None), PolicyAction::Log);
    assert_eq!(engine.evaluate(&policy, "ingress", "udp", 2000, None), PolicyAction::Deny);
    policy.ingress_rules.push(rule("tie", "*", None, None, PolicyAction::Deny, 10));
    assert_eq!(engine.evaluate(&policy, "ingress", "tcp", 22, None), PolicyAction::Allow);
    assert_eq!(engine.evaluate(&policy, "ingress", "tcp", 2000, None), PolicyAction::Deny);
}

#[test]
fn cidr_and_direction() {
    let engine = NetworkPolicyEngine::new();
    let policy = NetworkSecurityPolicy {
        instance_id: "vm".into(),
        default_action: PolicyAction::Log,
        ingress_rules: vec![rule("net", "tcp", None, Some("10.0.0.0/8"), PolicyAction::Allow, 1)],
        egress_rules: vec![],
    };
    assert_eq!(engine.evaluate(&policy, "ingress", "tcp", 1, Some("10.0.0.0/8")), PolicyAction::Allow);
    assert_eq!(engine.evaluate(&policy, "ingress", "tcp", 1, Some("192.168.0.0/16")), PolicyAction::Log);
    assert_eq!(engine.evaluate(&policy, "ingress", "tcp", 1, None), PolicyAction::Allow);
    assert_eq!(engine.evaluate(&policy, "sideways", "tcp", 1, None), PolicyAction::Log);
    assert_eq!(engine.evaluate(&policy, "egress", "tcp", 1, None), PolicyAction::Log);
}

#[test]
fn default_deny_policy_shape() {
    let engine = NetworkPolicyEngine::new();
    let policy = NetworkPolicyEngine::default_deny_policy("vm-9");
    assert_eq!(policy.instance_id, "vm-9");
    assert_eq!(policy.egress_rules.len(), 1);
    assert_eq!(policy.egress_rules[0].name, "allow-dns");
    assert_eq!(engine.evaluate(&policy, "egress", "udp", 54, None), PolicyAction::Deny);
    assert_eq!(engine.evaluate(&policy, "egress", "tcp", 53, None), PolicyAction::Deny);
    assert_eq!(engine.evaluate(&policy, "ingress", "udp", 53, None), PolicyAction::Deny);
}
