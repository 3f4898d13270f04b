use crate::outside::{parse_signed, schnorr_accepts, schnorr_verify, signed_record_of};
use crate::record::{content_address, Record, RecordModel};
use vstd::prelude::*;

verus! {

/// Why an inbound record was refused.
#[derive(Debug, PartialEq, Eq, Structural, Clone, Copy)]
pub enum VerifyError {
    /// The stated id is not the content address of the record's fields.
    IdentityMismatch,
    /// The signature is missing or does not check against the author's key.
    SignatureInvalid,
}

/// Whether the record carries a signature over its id by its author.
pub open spec fn signature_holds(r: RecordModel) -> bool {
    match r.sig {
        Some(s) => schnorr_accepts(s, r.id, r.pubkey),
        None => false,
    }
}

/// The outcome of the identity and signature checks on a record.
pub open spec fn verify_outcome(r: RecordModel) -> Result<(), VerifyError> {
    if r.id != content_address(r) {
        Err(VerifyError::IdentityMismatch)
    } else if !signature_holds(r) {
        Err(VerifyError::SignatureInvalid)
    } else {
        Ok(())
    }
}

impl Record {
    /// Checks that the id is the record's content address, then that the
    /// signature over the id checks against the author's key.
    pub fn check(&self) -> (r: Result<(), VerifyError>)
        ensures
            r == verify_outcome(self@),
    {
        let computed = self.compute_id();
        if !computed.same(&self.id) {
            return Err(VerifyError::IdentityMismatch);
        }
        match &self.sig {
            Some(s) => {
                if schnorr_verify(s.as_slice(), self.id.as_bytes(), &self.pubkey) {
                    Ok(())
                } else {
                    Err(VerifyError::SignatureInvalid)
                }
            },
            None => Err(VerifyError::SignatureInvalid),
        }
    }

    /// Reads a signed record from its JSON text; nothing is checked.
    pub fn from_json(json: &str) -> (r: Option<Record>)
        ensures
            match r {
                Some(rec) => signed_record_of(json@) == Some(rec@),
                None => signed_record_of(json@) is None,
            },
    {
        parse_signed(json)
    }

    /// Whether the record passes both checks.
    pub fn verify(&self) -> (r: bool)
        ensures
            r == (verify_outcome(self@) is Ok),
    {
        self.check().is_ok()
    }
}

} // verus!
