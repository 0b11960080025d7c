use plaza_security::encryption::KeyDerivationParams;
use plaza_security::network_policy::NetworkRule;
use plaza_security::{
    AuditLogger, AuditSeverity, EncryptionEngine, EncryptionMode, EnforcementMode, IamManager,
    NetworkPolicyEngine, Permission, PolicyAction, RbacEngine, SandboxCapability, SandboxManager,
    TpmManager,
};

#[test]
fn test_rbac_lifecycle() {
    let mut rbac = RbacEngine::new();
    rbac.seed_defaults();

    rbac.assign_role("user-1", "operator").unwrap();

    assert!(rbac.has_permission("user-1", &Permission::WorkspaceCreate));
    assert!(!rbac.has_permission("user-1", &Permission::SecurityAudit));

    rbac.assign_role("user-1", "admin").unwrap();
    assert!(rbac.has_permission("user-1", &Permission::SecurityAudit));
}

#[test]
fn test_audit_logging() {
    let mut logger = AuditLogger::new(100);

    logger.log_success("admin", "workspace.create", "ws-1");
    logger.log_denied("viewer", "workspace.delete", "ws-1");
    let mut details = serde_json::Map::new();
    details.insert("attempts".to_string(), serde_json::Value::from(100));
    logger.log_critical("hacker", "brute_force", "auth", serde_json::Value::Object(details));

    assert_eq!(logger.count(), 3);

    let criticals = logger.by_severity(AuditSeverity::Critical, 10);
    assert_eq!(criticals.len(), 1);
    assert_eq!(criticals[0].principal, "hacker");
}

#[test]
fn test_sandbox_default_deny() {
    let mut sandbox = SandboxManager::new(EnforcementMode::Enforce);
    sandbox.create_profile("vm-1").unwrap();

    assert!(!sandbox.check_capability("vm-1", &SandboxCapability::NetworkAccess));
    assert!(!sandbox.check_capability("vm-1", &SandboxCapability::FileSystemWrite));

    sandbox.grant_capability("vm-1", SandboxCapability::NetworkAccess).unwrap();
    assert!(sandbox.check_capability("vm-1", &SandboxCapability::NetworkAccess));
    assert!(!sandbox.check_capability("vm-1", &SandboxCapability::FileSystemWrite));
}

#[test]
fn test_encryption_roundtrip() {
    let engine = EncryptionEngine::new(EncryptionMode::Aes256Gcm);
    let params = KeyDerivationParams::default();
    let key = engine.derive_key("my-secret-passphrase", &params);
    assert_eq!(key.len(), 32);

    let plaintext = b"Hello, PlazaVM!";
    let ciphertext = engine.encrypt(&key, plaintext).unwrap();
    assert_ne!(&ciphertext, plaintext);

    let decrypted = engine.decrypt(&key, &ciphertext).unwrap();
    assert_eq!(&decrypted, plaintext);
}

#[test]
fn test_iam_identity_crud() {
    let mut iam = IamManager::new();

    let identity = iam.create_identity("alice", "Alice Smith", Some("alice@example.com")).unwrap();
    assert_eq!(identity.username, "alice");

    let result = iam.create_identity("alice", "Alice Duplicate", None);
    assert!(result.is_err());

    let found = iam.find_by_username("alice");
    assert!(found.is_some());
    assert_eq!(found.unwrap().display_name, "Alice Smith");
}

#[test]
fn test_network_policy_evaluation() {
    let engine = NetworkPolicyEngine::new();
    let mut policy = NetworkPolicyEngine::default_deny_policy("vm-1");

    let action = engine.evaluate(&policy, "ingress", "tcp", 80, None);
    assert_eq!(action, PolicyAction::Deny);

    let action = engine.evaluate(&policy, "egress", "udp", 53, None);
    assert_eq!(action, PolicyAction::Allow);

    policy.ingress_rules.push(NetworkRule {
        name: "allow-http".into(),
        protocol: "tcp".into(),
        port_range: Some((80, 80)),
        cidr: None,
        action: PolicyAction::Allow,
        priority: 100,
    });

    let action = engine.evaluate(&policy, "ingress", "tcp", 80, None);
    assert_eq!(action, PolicyAction::Allow);
}

#[test]
fn test_tpm_measurement() {
    let hardware_present = std::path::Path::new("/dev/tpm0").exists() || std::path::Path::new("/dev/tpmrm0").exists();
    let tpm = TpmManager::detect(hardware_present);
    let measurement = tpm.measure(0, b"kernel-image-data", "Kernel Image Hash").unwrap();
    assert!(!measurement.hash.is_empty());
    assert_eq!(measurement.index, 0);
}
