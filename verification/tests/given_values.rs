use plaza_security::audit::{AuditEntry, AuditOutcome, AuditSeverity};
use plaza_security::encryption::{concat_bytes, KeyDerivationParams};
use plaza_security::{AuditLogger, EncryptionEngine, IamManager, TpmManager, TpmMode};

fn entry(id: &str, principal: &str) -> AuditEntry {
    AuditEntry {
        id: id.to_string(),
        timestamp: "2024-01-01T00:00:00+00:00".to_string(),
        principal: principal.to_string(),
        action: "act".to_string(),
        resource: "res".to_string(),
        outcome: AuditOutcome::Success,
        severity: AuditSeverity::Info,
        details: None,
        source_ip: None,
    }
}

#[test]
fn append_keeps_given_entries_in_order() {
    let mut logger = AuditLogger::new(3);
    for (i, p) in ["a", "b", "c", "d"].iter().enumerate() {
        logger.append(entry(&format!("id-{}", i), p));
    }
    let all = logger.entries();
    let ids: Vec<&str> = all.iter().map(|e| e.id.as_str()).collect();
    assert_eq!(ids, vec!["id-1", "id-2", "id-3"]);
    assert_eq!(logger.recent(1)[0].timestamp, "2024-01-01T00:00:00+00:00");
}

#[test]
fn identity_with_given_id_and_time() {
    let mut iam = IamManager::new();
    let ident = iam
        .create_identity_with("id-1".to_string(), "2024-05-01T10:00:00+00:00".to_string(), "carol", "Carol", Some("c@x"))
        .unwrap();
    assert_eq!(ident.id, "id-1");
    assert_eq!(ident.created_at, "2024-05-01T10:00:00+00:00");
    assert_eq!(ident.email.as_deref(), Some("c@x"));
    assert_eq!(iam.get_identity("id-1").unwrap().display_name, "Carol");
    iam.record_login_at("id-1", "2024-05-02T00:00:00+00:00".to_string()).unwrap();
    assert_eq!(iam.get_identity("id-1").unwrap().last_login.as_deref(), Some("2024-05-02T00:00:00+00:00"));
    assert!(iam.create_identity_with("id-2".to_string(), "t".to_string(), "carol", "Other", None).is_err());
}

#[test]
fn service_account_with_given_secret() {
    let mut iam = IamManager::new();
    let sa = iam.create_service_account_with("sa-1".to_string(), "secret".to_string(), "ci", vec!["deploy".to_string()]);
    assert_eq!(sa.id, "sa-1");
    assert_eq!(sa.secret_hash, "secret");
    assert_eq!(sa.scopes, vec!["deploy".to_string()]);
}

#[test]
fn attestation_with_given_time() {
    let tpm = TpmManager::new(TpmMode::Software);
    let report = tpm.attest_at("linux-aarch64", Vec::new(), "2024-01-01T00:00:00+00:00".to_string());
    assert_eq!(report.timestamp, "2024-01-01T00:00:00+00:00");
    assert_eq!(report.platform, "linux-aarch64");
    assert!(report.verified);
}

#[test]
fn nonce_and_key_cutting() {
    let bytes: Vec<u8> = (0..16).collect();
    assert_eq!(EncryptionEngine::nonce_from(bytes), (0..12).collect::<Vec<u8>>());
    assert_eq!(EncryptionEngine::nonce_from(vec![1, 2]), vec![1, 2]);
    assert_eq!(EncryptionEngine::fit_key_length(vec![9; 32], 5), vec![9; 5]);
    assert_eq!(EncryptionEngine::fit_key_length(vec![9; 32], 40), vec![9; 32]);
    let params = KeyDerivationParams::with_salt(vec![3, 4]);
    assert_eq!(params.salt, vec![3, 4]);
    assert_eq!(params.iterations, 100_000);
    assert_eq!(params.key_length, 32);
    assert_eq!(concat_bytes(&[1, 2], &[3]), vec![1, 2, 3]);
}
