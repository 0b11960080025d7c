//! Security subsystem for PlazaVM.
//!
//! - RBAC: role-based access control with built-in roles
//! - Audit: append-only audit log with retention
//! - Encryption: key derivation, hashing and data-at-rest encryption
//! - Sandbox: capability-based VM isolation with enforcement modes
//! - IAM: identities and service accounts
//! - Network policy: priority-based traffic rule evaluation
//! - TPM: measurements and attestation

pub mod audit;
pub mod encryption;
pub mod error;
pub mod iam;
pub mod network_policy;
pub mod rbac;
pub mod sandbox;
pub mod store;
pub mod text;
pub mod tpm;
pub mod trusted;

pub use audit::{AuditEntry, AuditLogger, AuditOutcome, AuditSeverity};
pub use encryption::{EncryptionEngine, EncryptionMode};
pub use error::{SecurityError, SecurityResult};
pub use iam::{IamManager, Identity, IdentityProvider};
pub use network_policy::{NetworkPolicyEngine, NetworkSecurityPolicy, PolicyAction};
pub use rbac::{Permission, Principal, RbacEngine, Role};
pub use sandbox::{EnforcementMode, SandboxCapability, SandboxManager};
pub use tpm::{AttestationReport, TpmManager, TpmMode};
