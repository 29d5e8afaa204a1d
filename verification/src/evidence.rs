//! Evidence bindings: a shard's claim that a given kernel and proof module
//! vouch for its payload, sealed by a hexadecimal digest.
use vstd::prelude::*;
use vstd::slice::slice_to_vec;
use vstd::string::StringSliceAdditionalSpecFns;
use vstd::utf8::encode_utf8;

use crate::digest::{hex_encode, hex_text};
use crate::text::str_eq;

verus! {

/// A shard's evidence binding.
#[derive(Debug, Clone)]
pub struct EvidenceBinding {
    pub shard_id: String,
    pub kernel_module: String,
    pub kernel_version: String,
    pub proof_module: String,
    pub proof_hash: String,
    pub evidence_hex: String,
}

/// `s` in lower case, as `str::to_lowercase` gives it.
pub uninterp spec fn lowercase_text(s: Seq<char>) -> Seq<char>;

/// Calls `str::to_lowercase`. The contract names the result
/// `lowercase_text(s@)`; the Unicode case mapping itself is left unstated.
#[verifier::external_body]
pub(crate) fn to_lowercase(s: &str) -> (r: String)
    ensures
        r@ == lowercase_text(s@),
{
    s.to_lowercase()
}

/// The canonical text of a binding for a payload hash: its fields and the
/// payload hash, separated by `|`.
pub open spec fn canonical_text(b: EvidenceBinding, payload_hash: Seq<char>) -> Seq<char> {
    b.shard_id@ + "|"@ + b.kernel_module@ + "|"@ + b.kernel_version@ + "|"@ + b.proof_module@ + "|"@
        + b.proof_hash@ + "|"@ + payload_hash
}

impl EvidenceBinding {
    /// The UTF-8 bytes of the canonical text for `shard_payload_hash`.
    pub fn canonical_bytes(&self, shard_payload_hash: &str) -> (bytes: Vec<u8>)
        ensures
            bytes@ == encode_utf8(canonical_text(*self, shard_payload_hash@)),
    {
        let mut s = self.shard_id.clone();
        s.append("|");
        s.append(self.kernel_module.as_str());
        s.append("|");
        s.append(self.kernel_version.as_str());
        s.append("|");
        s.append(self.proof_module.as_str());
        s.append("|");
        s.append(self.proof_hash.as_str());
        s.append("|");
        s.append(shard_payload_hash);
        slice_to_vec(s.as_str().as_bytes())
    }

    /// Checks the binding against `digest`, the 256-bit digest of its
    /// canonical bytes: the digest's lower-case hexadecimal text must equal
    /// the binding's `evidence_hex` in lower case.
    pub fn verify(&self, digest: &[u8]) -> (r: Result<(), String>)
        ensures
            r is Ok <==> hex_text(digest@) == lowercase_text(self.evidence_hex@),
            r matches Err(m) ==> m@ == "evidence_hex mismatch for shard binding"@,
    {
        let expected = hex_encode(digest);
        let given = to_lowercase(self.evidence_hex.as_str());
        if !str_eq(expected.as_str(), given.as_str()) {
            Err(String::from_str("evidence_hex mismatch for shard binding"))
        } else {
            Ok(())
        }
    }
}

} // verus!
