use vstd::prelude::*;
use sigstore_types::Bundle as SigstoreBundle;

verus! {

#[verifier::external_type_specification]
#[verifier::external_body]
pub struct ExSigstoreBundle(SigstoreBundle);

#[verifier::external_type_specification]
#[verifier::external_body]
pub struct ExTrustedRoot(sigstore_trust_root::TrustedRoot);

/// Whether some bytes are JSON that reads as a Sigstore bundle.
pub uninterp spec fn sigstore_json_accepted(json: Seq<u8>) -> bool;

/// `serde_json::from_slice` into a `SigstoreBundle`. Claimed: whether it
/// succeeds is the named property of the bytes; the bundle read and the
/// error text are not described.
#[verifier::external_body]
pub(crate) fn sigstore_bundle_from_json(json: &[u8]) -> (r: core::result::Result<SigstoreBundle, String>)
    ensures
        r is Ok <==> sigstore_json_accepted(json@),
{
    serde_json::from_slice::<SigstoreBundle>(json).map_err(|e| e.to_string())
}

/// Whether the Sigstore bundle whose JSON is `json` reads and passes
/// `sigstore_bundle::validation::validate_bundle_with_options` with the
/// default options (an inclusion proof is required).
pub uninterp spec fn sigstore_structure_valid(json: Seq<u8>) -> bool;

/// Reads the Sigstore bundle from `json` (`serde_json::from_slice`) and
/// checks its structure with
/// `sigstore_bundle::validation::validate_bundle_with_options` and the
/// default options (an inclusion proof is required). Claimed: it succeeds
/// exactly when the named property holds of the bytes; the error text is not
/// described.
#[verifier::external_body]
pub(crate) fn sigstore_validate(json: &[u8]) -> (r: core::result::Result<(), String>)
    ensures
        r is Ok <==> sigstore_structure_valid(json@),
{
    let b: SigstoreBundle = serde_json::from_slice(json).map_err(|e| e.to_string())?;
    let options = sigstore_bundle::validation::ValidationOptions::default();
    sigstore_bundle::validation::validate_bundle_with_options(&b, &options).map_err(|e| e.to_string())
}

/// `sigstore_trust_root::TrustedRoot::from_json` on the production Sigstore
/// trusted root that the crate embeds. Nothing is claimed of the outcome.
#[verifier::external_body]
pub(crate) fn production_trusted_root() -> (r: core::result::Result<sigstore_trust_root::TrustedRoot, String>) {
    let json = sigstore_trust_root::SIGSTORE_PRODUCTION_TRUSTED_ROOT;
    sigstore_trust_root::TrustedRoot::from_json(json).map_err(|e| e.to_string())
}

/// What a signature check requires of the signer: an exact identity and
/// issuer, or any signer; and whether the transparency log is checked.
pub struct SignerPolicy {
    pub identity: Option<(String, String)>,
    pub check_tlog: bool,
}

/// A signer policy as plain values.
pub struct SignerPolicyView {
    pub identity: Option<(Seq<char>, Seq<char>)>,
    pub check_tlog: bool,
}

impl View for SignerPolicy {
    type V = SignerPolicyView;

    open spec fn view(&self) -> SignerPolicyView {
        SignerPolicyView {
            identity: match self.identity {
                Some((i, s)) => Some((i@, s@)),
                None => None,
            },
            check_tlog: self.check_tlog,
        }
    }
}

/// The policy for an optional identity and issuer, checked online or offline.
pub open spec fn signer_policy_of(identity: Option<(Seq<char>, Seq<char>)>, offline: bool) -> SignerPolicyView {
    SignerPolicyView { identity, check_tlog: !offline }
}

/// The policy that requires the given identity and issuer, if any, and checks
/// the transparency log unless `offline`.
pub fn signer_policy(identity: Option<(&str, &str)>, offline: bool) -> (r: SignerPolicy)
    ensures
        r@ == signer_policy_of(
            match identity {
                Some((i, s)) => Some((i@, s@)),
                None => None,
            },
            offline,
        ),
{
    let identity = match identity {
        Some((i, s)) => Some((i.to_string(), s.to_string())),
        None => None,
    };
    SignerPolicy { identity, check_tlog: !offline }
}

/// Whether `sigstore_verify::verify` accepts, at some time and with the
/// production trusted root, `artifact` as signed by the Sigstore bundle whose
/// JSON is `json`, under `policy`.
pub uninterp spec fn sigstore_accepts(artifact: Seq<u8>, json: Seq<u8>, policy: SignerPolicyView) -> bool;

/// Reads the Sigstore bundle from `json` (`serde_json::from_slice`), turns
/// the plain policy into a `sigstore_verify::VerificationPolicy` (`new` for an
/// identity and issuer, `any_identity` otherwise, then `skip_tlog_unsafe` when
/// the log is not checked) and calls `sigstore_verify::verify`. Claimed: on
/// success, verify accepts these inputs. The trusted root is not part of the
/// name: the library hands this item only the root that
/// `production_trusted_root` reads. Nothing is claimed of a failure, which
/// depends on certificates and time; the error text is not described.
#[verifier::external_body]
pub(crate) fn sigstore_check(
    artifact: &[u8],
    json: &[u8],
    policy: &SignerPolicy,
    root: &sigstore_trust_root::TrustedRoot,
) -> (r: core::result::Result<(), String>)
    ensures
        r is Ok ==> sigstore_accepts(artifact@, json@, policy@),
{
    let b: SigstoreBundle = serde_json::from_slice(json).map_err(|e| e.to_string())?;
    let p = match &policy.identity {
        Some((id, issuer)) => sigstore_verify::VerificationPolicy::new(id.as_str(), issuer.as_str()),
        None => sigstore_verify::VerificationPolicy::any_identity(),
    };
    let p = if policy.check_tlog { p } else { p.skip_tlog_unsafe() };
    sigstore_verify::verify(artifact, &b, &p, root).map(|_| ()).map_err(|e| e.to_string())
}

} // verus!
