//! Trusted Platform Module abstraction for measurements and attestation. On
//! systems without a physical TPM a software-emulated equivalent is used.

use crate::encryption::{encode, hex_text, lemma_hex_text_len};
use crate::error::{SecurityError, SecurityResult};
use crate::trusted::{now_rfc3339, sha256, sha256_digest, utc_rfc3339_form};
use vstd::prelude::*;

verus! {

/// How the TPM is provided.
#[derive(Debug, Clone, Copy, PartialEq, Eq, Structural)]
pub enum TpmMode {
    /// Host TPM hardware.
    Hardware,
    /// Software-emulated TPM.
    Software,
    /// TPM disabled.
    Disabled,
}

/// Platform Configuration Register (PCR) measurement.
#[derive(Debug, Clone)]
pub struct PcrMeasurement {
    pub index: u32,
    /// Lowercase hexadecimal SHA-256 of the measured data.
    pub hash: String,
    pub description: String,
}

/// Attestation report for verifying platform integrity.
#[derive(Debug, Clone)]
pub struct AttestationReport {
    pub platform: String,
    pub measurements: Vec<PcrMeasurement>,
    /// RFC 3339 time of the report.
    pub timestamp: String,
    pub verified: bool,
}

/// TPM manager.
pub struct TpmManager {
    mode: TpmMode,
}

/// The message of the error for a disabled TPM.
pub open spec fn tpm_disabled_message() -> Seq<char> {
    "TPM is disabled"@
}

impl View for TpmManager {
    type V = TpmMode;

    closed spec fn view(&self) -> TpmMode {
        self.mode
    }
}

impl TpmManager {
    /// A manager in the given mode.
    pub fn new(mode: TpmMode) -> (r: Self)
        ensures
            r@ == mode,
    {
        TpmManager { mode }
    }

    /// The best available TPM mode: the host hardware when the host offers
    /// a TPM, the software-emulated one otherwise. Whether the host offers
    /// one is found by the caller, which probes the platform.
    pub fn detect(hardware_present: bool) -> (r: Self)
        ensures
            r@ == (if hardware_present { TpmMode::Hardware } else { TpmMode::Software }),
    {
        if hardware_present {
            Self::new(TpmMode::Hardware)
        } else {
            Self::new(TpmMode::Software)
        }
    }

    /// Measures data into a PCR slot: the measurement holds the slot index,
    /// the hexadecimal SHA-256 of the data and the description. A disabled
    /// TPM refuses.
    pub fn measure(&self, pcr_index: u32, data: &[u8], description: &str) -> (r: SecurityResult<
        PcrMeasurement,
    >)
        ensures
            r is Err <==> self@ == TpmMode::Disabled,
            r matches Err(e) ==> e is Internal && e.message_spec() == tpm_disabled_message(),
            r matches Ok(m) ==> {
                &&& m.index == pcr_index
                &&& m.hash@ == hex_text(sha256_digest(data@))
                &&& m.hash@.len() == 64
                &&& m.description@ == description@
            },
    {
        if self.mode == TpmMode::Disabled {
            return Err(SecurityError::Internal(String::from_str("TPM is disabled")));
        }
        let digest = sha256(data);
        proof {
            lemma_hex_text_len(digest@);
        }
        let hash = encode(digest.as_slice());
        Ok(PcrMeasurement { index: pcr_index, hash, description: String::from_str(description) })
    }

    /// An attestation report over the given measurements for the named
    /// platform, stamped with the current time. It is verified unless the TPM
    /// is disabled.
    pub fn attest(&self, platform: &str, measurements: Vec<PcrMeasurement>) -> (r:
        AttestationReport)
        ensures
            r.platform@ == platform@,
            r.measurements == measurements,
            utc_rfc3339_form(r.timestamp@),
            r.verified == (self@ != TpmMode::Disabled),
    {
        let now = now_rfc3339();
        self.attest_at(platform, measurements, now)
    }

    /// An attestation report over the given measurements for the named
    /// platform, stamped with the given time. It is verified unless the TPM
    /// is disabled.
    pub fn attest_at(&self, platform: &str, measurements: Vec<PcrMeasurement>, timestamp: String) -> (r:
        AttestationReport)
        ensures
            r.platform@ == platform@,
            r.measurements == measurements,
            r.timestamp == timestamp,
            r.verified == (self@ != TpmMode::Disabled),
    {
        AttestationReport {
            platform: String::from_str(platform),
            measurements,
            timestamp,
            verified: self.mode != TpmMode::Disabled,
        }
    }

    /// The active TPM mode.
    pub fn mode(&self) -> (r: &TpmMode)
        ensures
            *r == self@,
    {
        &self.mode
    }
}

} // verus!
