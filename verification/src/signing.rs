use vstd::prelude::*;
use vstd::utf8::encode_utf8;
use crate::bundle::Bundle;
use crate::bytes::append_bytes;
use crate::error::{Error, Result, text};
use crate::header::{HeaderView, encoded_header};
use crate::layer::LayerRefView;
use crate::strings::{chars_of, str_eq};
use crate::sigstore::{
    sigstore_bundle_from_json, sigstore_json_accepted, sigstore_validate, production_trusted_root,
    sigstore_structure_valid,
    sigstore_check, signer_policy, signer_policy_of, sigstore_accepts,
};

verus! {

// ---------------------------------------------------------------------------
// What a signature covers.
// ---------------------------------------------------------------------------

/// The header with its signature left out.
pub open spec fn unsigned(h: HeaderView) -> HeaderView {
    HeaderView { signature: None, ..h }
}

/// The UTF-8 bytes of every layer digest, one after the other.
pub open spec fn digests_bytes(ls: Seq<LayerRefView>) -> Seq<u8>
    decreases ls.len(),
{
    if ls.len() == 0 {
        Seq::empty()
    } else {
        digests_bytes(ls.drop_last()) + encode_utf8(ls.last().digest)
    }
}

/// The signed artifact: the encoding of the unsigned header followed by the
/// layer digests.
pub open spec fn artifact_of(h: HeaderView) -> Option<Seq<u8>> {
    match encoded_header(unsigned(h)) {
        Some(b) => Some(b + digests_bytes(h.layers)),
        None => None,
    }
}

/// The bytes that a bundle's signature covers.
pub fn artifact_bytes(bundle: &Bundle) -> (r: Result<Vec<u8>>)
    ensures
        r matches Ok(a) ==> artifact_of(bundle.header@) == Some(a@),
        r is Err ==> artifact_of(bundle.header@) is None && r->Err_0 is InvalidFormat,
{
    let mut header = bundle.header.copied();
    header.signature = None;
    assert(header@ == unsigned(bundle.header@));
    let mut data = header.encode()?;
    let ghost h = bundle.header@;
    let mut i: usize = 0;
    let ghost start = data@;
    assert(h.layers.take(0) =~= Seq::<LayerRefView>::empty());
    while i < bundle.header.layers.len()
        invariant
            h == bundle.header@,
            i <= h.layers.len(),
            data@ == start + digests_bytes(h.layers.take(i as int)),
        decreases h.layers.len() - i,
    {
        let d = bundle.header.layers[i].digest.as_str().as_bytes();
        append_bytes(&mut data, d);
        proof {
            assert(h.layers.take(i + 1).drop_last() =~= h.layers.take(i as int));
            assert(h.layers.take(i + 1).last() == h.layers[i as int]);
            assert(data@ =~= start + digests_bytes(h.layers.take(i + 1)));
        }
        i = i + 1;
    }
    assert(h.layers.take(h.layers.len() as int) =~= h.layers);
    Ok(data)
}

// ---------------------------------------------------------------------------
// Trust policies: app id patterns with `*` and `?`.
// ---------------------------------------------------------------------------

/// Glob matching: `*` stands for any run of characters (possibly none), `?`
/// for any one character, every other character for itself.
pub open spec fn wild(p: Seq<char>, t: Seq<char>) -> bool
    decreases p.len(), t.len() + 2,
{
    if p.len() == 0 {
        t.len() == 0
    } else if p[0] == '*' {
        p.len() == 1 || wild_suffix(p.drop_first(), t, 0)
    } else if t.len() == 0 {
        false
    } else if p[0] == t[0] || p[0] == '?' {
        wild(p.drop_first(), t.drop_first())
    } else {
        false
    }
}

/// Some suffix of `t` that starts at or after position `k` matches `p`.
pub open spec fn wild_suffix(p: Seq<char>, t: Seq<char>, k: int) -> bool
    decreases p.len() + 1, t.len() + 1 - k,
{
    if k < 0 || k > t.len() {
        false
    } else {
        wild(p, t.skip(k)) || wild_suffix(p, t, k + 1)
    }
}

/// A pattern of the text's length in which every character is `?` or the
/// text's own character at that place matches the text: `?` stands for any
/// one character.
pub proof fn lemma_wild_same_length(p: Seq<char>, t: Seq<char>)
    requires
        p.len() == t.len(),
        forall|k: int| 0 <= k < p.len() ==> p[k] == '?' || #[trigger] p[k] == t[k],
    ensures
        wild(p, t),
    decreases p.len(),
{
    if p.len() > 0 {
        let p1 = p.drop_first();
        let t1 = t.drop_first();
        assert forall|k: int| 0 <= k < p1.len() implies p1[k] == '?' || #[trigger] p1[k] == t1[k] by {
            assert(p1[k] == p[k + 1]);
            assert(t1[k] == t[k + 1]);
        }
        lemma_wild_same_length(p1, t1);
        if p[0] == '*' {
            if p.len() > 1 {
                assert(t.skip(1) =~= t1);
                assert(wild_suffix(p1, t, 1));
                assert(wild_suffix(p1, t, 0));
            }
        }
    }
}

fn wild_from(p: &Vec<char>, pi: usize, t: &Vec<char>, ti: usize) -> (r: bool)
    requires
        pi <= p@.len(),
        ti <= t@.len(),
    ensures
        r == wild(p@.skip(pi as int), t@.skip(ti as int)),
    decreases p@.len() - pi, t@.len() - ti,
{
    let ghost ps = p@.skip(pi as int);
    let ghost ts = t@.skip(ti as int);
    if pi == p.len() {
        return ti == t.len();
    }
    assert(ps[0] == p@[pi as int]);
    assert(ps.drop_first() =~= p@.skip(pi + 1));
    if p[pi] == '*' {
        if pi + 1 == p.len() {
            return true;
        }
        let mut i = ti;
        let pl = p.len();
        assert(pi + 1 < pl);
        loop
            invariant
                pi + 1 < p@.len(),
                pi + 1 < usize::MAX,
                ps[0] == '*',
                ps.len() > 1,
                ti <= i <= t@.len(),
                ps == p@.skip(pi as int),
                ts == t@.skip(ti as int),
                ps.drop_first() == p@.skip(pi + 1),
                wild_suffix(ps.drop_first(), ts, 0) == wild_suffix(ps.drop_first(), ts, i - ti),
            decreases t@.len() - i,
        {
            assert(ts.skip(i - ti) =~= t@.skip(i as int));
            if wild_from(p, pi + 1, t, i) {
                return true;
            }
            if i == t.len() {
                assert(!wild_suffix(ps.drop_first(), ts, i - ti + 1));
                return false;
            }
            i = i + 1;
        }
    }
    if ti == t.len() {
        return false;
    }
    assert(ts[0] == t@[ti as int]);
    assert(ts.drop_first() =~= t@.skip(ti + 1));
    if p[pi] == t[ti] || p[pi] == '?' {
        wild_from(p, pi + 1, t, ti + 1)
    } else {
        false
    }
}

/// Whether `text` matches the glob `pattern`.
pub fn wildmatch(pattern: &str, text: &str) -> (r: bool)
    ensures
        r == wild(pattern@, text@),
{
    let p = chars_of(pattern);
    let t = chars_of(text);
    assert(p@.skip(0) =~= p@);
    assert(t@.skip(0) =~= t@);
    wild_from(&p, 0, &t, 0)
}

} // verus!

verus! {

// ---------------------------------------------------------------------------
// Trust configuration.
// ---------------------------------------------------------------------------

/// What a trust policy requires of a signer.
#[derive(Debug, Clone)]
pub struct TrustPolicyEntry {
    pub identities: Vec<String>,
    pub require_rekor: Option<bool>,
}

/// Trust policies keyed by app id pattern; each pattern occurs once.
#[derive(Debug, Clone)]
pub struct TrustConfig {
    pub policy: Vec<(String, TrustPolicyEntry)>,
}

/// The byte length of a text, as `str::len` counts it.
pub open spec fn byte_len(s: Seq<char>) -> int {
    encode_utf8(s).len() as int
}

/// Entry `k` of the configuration may be picked for `app_id` by pattern: its
/// pattern matches, is not empty, and no matching pattern is longer.
pub open spec fn best_pattern(policy: Seq<(String, TrustPolicyEntry)>, app_id: Seq<char>, k: int) -> bool {
    &&& 0 <= k < policy.len()
    &&& wild(policy[k].0@, app_id)
    &&& byte_len(policy[k].0@) > 0
    &&& forall|j: int|
        0 <= j < policy.len() && wild(#[trigger] policy[j].0@, app_id) ==> byte_len(policy[j].0@)
            <= byte_len(policy[k].0@)
}

/// No pattern of the configuration matches the app id by the most bytes.
pub open spec fn no_best_pattern(policy: Seq<(String, TrustPolicyEntry)>, app_id: Seq<char>) -> bool {
    forall|k: int| !best_pattern(policy, app_id, k)
}

impl TrustConfig {
    /// Each pattern occurs once, as in the keyed table the configuration is
    /// read from.
    pub open spec fn wf(&self) -> bool {
        forall|a: int, b: int|
            0 <= a < b < self.policy@.len() ==> #[trigger] self.policy@[a].0@ != #[trigger] self.policy@[b].0@
    }

    /// An empty configuration.
    pub fn empty() -> (r: TrustConfig)
        ensures
            r.policy@.len() == 0,
            r.wf(),
    {
        TrustConfig { policy: Vec::new() }
    }

    /// The policy for an app: the one whose pattern is the app id itself, if
    /// any; otherwise one whose pattern matches the app id with the most bytes
    /// (patterns of no bytes are never chosen this way); otherwise the policy
    /// named `default`; `None` when none of these exists.
    pub fn match_policy(&self, app_id: &str) -> (r: Option<(&String, &TrustPolicyEntry)>)
        ensures
            (exists|k: int| 0 <= k < self.policy@.len() && #[trigger] self.policy@[k].0@ == app_id@)
                ==> (r matches Some((p, e)) && exists|k: int|
                0 <= k < self.policy@.len() && self.policy@[k].0@ == app_id@ && p == &self.policy@[k].0
                && e == &self.policy@[k].1),
            !(exists|k: int| 0 <= k < self.policy@.len() && #[trigger] self.policy@[k].0@ == app_id@)
                ==> match r {
                Some((p, e)) => exists|k: int|
                    #![trigger self.policy@[k]]
                    (best_pattern(self.policy@, app_id@, k) || (no_best_pattern(self.policy@, app_id@)
                        && 0 <= k < self.policy@.len() && self.policy@[k].0@ == "default"@))
                        && p == &self.policy@[k].0 && e == &self.policy@[k].1,
                None => no_best_pattern(self.policy@, app_id@) && forall|k: int|
                    0 <= k < self.policy@.len() ==> #[trigger] self.policy@[k].0@ != "default"@,
            },
    {
        let n = self.policy.len();
        let mut i: usize = 0;
        while i < n
            invariant
                n == self.policy@.len(),
                i <= n,
                forall|k: int| 0 <= k < i ==> self.policy@[k].0@ != app_id@,
            decreases n - i,
        {
            if str_eq(self.policy[i].0.as_str(), app_id) {
                return Some((&self.policy[i].0, &self.policy[i].1));
            }
            i = i + 1;
        }
        let mut best: Option<usize> = None;
        let mut best_len: usize = 0;
        let mut j: usize = 0;
        while j < n
            invariant
                n == self.policy@.len(),
                j <= n,
                best matches Some(b) ==> b < j && wild(self.policy@[b as int].0@, app_id@)
                    && best_len == byte_len(self.policy@[b as int].0@) && best_len > 0,
                best is None ==> best_len == 0,
                forall|k: int|
                    0 <= k < j && wild(#[trigger] self.policy@[k].0@, app_id@) ==> byte_len(
                        self.policy@[k].0@,
                    ) <= best_len,
            decreases n - j,
        {
            let pattern = self.policy[j].0.as_str();
            assert(pattern@ == self.policy@[j as int].0@);
            if wildmatch(pattern, app_id) {
                let len = pattern.as_bytes().len();
                assert(len == byte_len(pattern@));
                if len > best_len {
                    best = Some(j);
                    best_len = len;
                }
            }
            j = j + 1;
        }
        match best {
            Some(b) => {
                assert(best_pattern(self.policy@, app_id@, b as int));
                Some((&self.policy[b].0, &self.policy[b].1))
            },
            None => {
                assert forall|k: int| !best_pattern(self.policy@, app_id@, k) by {
                    if best_pattern(self.policy@, app_id@, k) {
                        assert(byte_len(self.policy@[k].0@) <= 0);
                    }
                }
                let mut d: usize = 0;
                while d < n
                    invariant
                        n == self.policy@.len(),
                        d <= n,
                        no_best_pattern(self.policy@, app_id@),
                        forall|k: int| 0 <= k < n ==> self.policy@[k].0@ != app_id@,
                        forall|k: int| 0 <= k < d ==> #[trigger] self.policy@[k].0@ != "default"@,
                    decreases n - d,
                {
                    if str_eq(self.policy[d].0.as_str(), "default") {
                        assert(self.policy@[d as int].0@ == "default"@);
                        return Some((&self.policy[d].0, &self.policy[d].1));
                    }
                    d = d + 1;
                }
                None
            },
        }
    }
}

} // verus!

verus! {

/// A `SignatureVerification` error whose text is `prefix` followed by `detail`.
fn sig_error(prefix: &str, detail: String) -> (r: Error)
    ensures
        r matches Error::SignatureVerification(m) && m@ == prefix@ + detail@,
{
    let mut m = String::from_str(prefix);
    m.append(detail.as_str());
    Error::SignatureVerification(m)
}

/// Checks the bundle's embedded Sigstore signature over its artifact, with the
/// given identity requirement.
fn check_signature(bundle: &Bundle, identity: Option<(&str, &str)>, offline: bool, failure: &str) -> (r:
    Result<()>)
    ensures
        bundle.header.signature is None ==> (r matches Err(Error::SignatureVerification(m)) && m@
            == "no signature in bundle"@),
        bundle.header.signature matches Some(s) && !sigstore_json_accepted(s@) ==> (r matches Err(
            Error::SignatureVerification(m),
        ) && m@.take(24) == "invalid signature JSON: "@),
        bundle.header.signature matches Some(s) && sigstore_json_accepted(s@)
            && !sigstore_structure_valid(s@) ==> (r matches Err(Error::SignatureVerification(m))
            && m@.take(19) == "bundle validation: "@),
        r is Ok ==> bundle.header.signature is Some && artifact_of(bundle.header@) is Some
            && sigstore_json_accepted(bundle.header.signature->0@),
        r is Ok ==> sigstore_structure_valid(bundle.header.signature->0@),
        r is Ok ==> sigstore_accepts(
            artifact_of(bundle.header@)->0,
            bundle.header.signature->0@,
            signer_policy_of(match identity {
                Some((i, s)) => Some((i@, s@)),
                None => None,
            }, offline),
        ),
        r matches Err(e) ==> e is SignatureVerification || (e is InvalidFormat && artifact_of(
            bundle.header@,
        ) is None),
{
    let sig_bytes = match &bundle.header.signature {
        Some(s) => s,
        None => {
            return Err(Error::SignatureVerification(text("no signature in bundle")));
        },
    };
    let _sig_bundle = match sigstore_bundle_from_json(sig_bytes.as_slice()) {
        Ok(b) => b,
        Err(e) => {
            let err = sig_error("invalid signature JSON: ", e);
            proof {
                reveal_strlit("invalid signature JSON: ");
                assert(err->SignatureVerification_0@.take(24) =~= "invalid signature JSON: "@);
            }
            return Err(err);
        },
    };
    match sigstore_validate(sig_bytes.as_slice()) {
        Ok(()) => {},
        Err(e) => {
            let err = sig_error("bundle validation: ", e);
            proof {
                reveal_strlit("bundle validation: ");
                assert(err->SignatureVerification_0@.take(19) =~= "bundle validation: "@);
            }
            return Err(err);
        },
    }
    let artifact = artifact_bytes(bundle)?;
    let root = match production_trusted_root() {
        Ok(r) => r,
        Err(e) => {
            return Err(sig_error("trusted root: ", e));
        },
    };
    let policy = signer_policy(identity, offline);
    match sigstore_check(artifact.as_slice(), sig_bytes.as_slice(), &policy, &root) {
        Ok(()) => Ok(()),
        Err(e) => Err(sig_error(failure, e)),
    }
}

/// Checks the bundle's signature for any signer when it carries one, as a
/// mount does: an unsigned bundle passes; a signed one passes only when its
/// signature verifies (offline, the transparency log is skipped).
pub fn verify_signature_if_present(bundle: &Bundle, offline: bool) -> (r: Result<()>)
    ensures
        bundle.header.signature is None ==> r is Ok,
        bundle.header.signature matches Some(s) && !sigstore_json_accepted(s@) ==> (r matches Err(
            Error::SignatureVerification(m),
        ) && m@.take(24) == "invalid signature JSON: "@),
        bundle.header.signature matches Some(s) && sigstore_json_accepted(s@)
            && !sigstore_structure_valid(s@) ==> (r matches Err(Error::SignatureVerification(m))
            && m@.take(19) == "bundle validation: "@),
        bundle.header.signature is Some && r is Ok ==> sigstore_structure_valid(
            bundle.header.signature->0@,
        ),
        bundle.header.signature is Some && r is Ok ==> artifact_of(bundle.header@) is Some
            && sigstore_accepts(
            artifact_of(bundle.header@)->0,
            bundle.header.signature->0@,
            signer_policy_of(None, offline),
        ),
        r matches Err(e) ==> e is SignatureVerification || (e is InvalidFormat && artifact_of(
            bundle.header@,
        ) is None),
{
    match &bundle.header.signature {
        None => Ok(()),
        Some(_) => verify_signature_opt(bundle, offline),
    }
}

/// Checks the bundle's signature online (with the transparency log).
pub fn verify_signature(bundle: &Bundle) -> (r: Result<()>)
    ensures
        bundle.header.signature is None ==> (r matches Err(Error::SignatureVerification(m)) && m@
            == "no signature in bundle"@),
        bundle.header.signature matches Some(s) && !sigstore_json_accepted(s@) ==> (r matches Err(
            Error::SignatureVerification(m),
        ) && m@.take(24) == "invalid signature JSON: "@),
        bundle.header.signature matches Some(s) && sigstore_json_accepted(s@)
            && !sigstore_structure_valid(s@) ==> (r matches Err(Error::SignatureVerification(m))
            && m@.take(19) == "bundle validation: "@),
        r is Ok ==> bundle.header.signature is Some && artifact_of(bundle.header@) is Some
            && sigstore_json_accepted(bundle.header.signature->0@),
        r is Ok ==> sigstore_structure_valid(bundle.header.signature->0@),
        r is Ok ==> sigstore_accepts(
            artifact_of(bundle.header@)->0,
            bundle.header.signature->0@,
            signer_policy_of(None, false),
        ),
        r matches Err(e) ==> e is SignatureVerification || (e is InvalidFormat && artifact_of(
            bundle.header@,
        ) is None),
{
    verify_signature_opt(bundle, false)
}

/// Checks the bundle's signature for any signer; offline it skips the
/// transparency log.
pub fn verify_signature_opt(bundle: &Bundle, offline: bool) -> (r: Result<()>)
    ensures
        bundle.header.signature is None ==> (r matches Err(Error::SignatureVerification(m)) && m@
            == "no signature in bundle"@),
        bundle.header.signature matches Some(s) && !sigstore_json_accepted(s@) ==> (r matches Err(
            Error::SignatureVerification(m),
        ) && m@.take(24) == "invalid signature JSON: "@),
        bundle.header.signature matches Some(s) && sigstore_json_accepted(s@)
            && !sigstore_structure_valid(s@) ==> (r matches Err(Error::SignatureVerification(m))
            && m@.take(19) == "bundle validation: "@),
        r is Ok ==> bundle.header.signature is Some && artifact_of(bundle.header@) is Some
            && sigstore_json_accepted(bundle.header.signature->0@),
        r is Ok ==> sigstore_structure_valid(bundle.header.signature->0@),
        r is Ok ==> sigstore_accepts(
            artifact_of(bundle.header@)->0,
            bundle.header.signature->0@,
            signer_policy_of(None, offline),
        ),
        r matches Err(e) ==> e is SignatureVerification || (e is InvalidFormat && artifact_of(
            bundle.header@,
        ) is None),
{
    check_signature(bundle, None, offline, "verification failed: ")
}

/// Checks the bundle's signature for a given signer identity and issuer,
/// online.
pub fn verify_with_identity(bundle: &Bundle, expected_identity: &str, expected_issuer: &str) -> (r:
    Result<()>)
    ensures
        bundle.header.signature is None ==> (r matches Err(Error::SignatureVerification(m)) && m@
            == "no signature in bundle"@),
        bundle.header.signature matches Some(s) && !sigstore_json_accepted(s@) ==> (r matches Err(
            Error::SignatureVerification(m),
        ) && m@.take(24) == "invalid signature JSON: "@),
        bundle.header.signature matches Some(s) && sigstore_json_accepted(s@)
            && !sigstore_structure_valid(s@) ==> (r matches Err(Error::SignatureVerification(m))
            && m@.take(19) == "bundle validation: "@),
        r is Ok ==> bundle.header.signature is Some && artifact_of(bundle.header@) is Some
            && sigstore_json_accepted(bundle.header.signature->0@),
        r is Ok ==> sigstore_structure_valid(bundle.header.signature->0@),
        r is Ok ==> sigstore_accepts(
            artifact_of(bundle.header@)->0,
            bundle.header.signature->0@,
            signer_policy_of(Some((expected_identity@, expected_issuer@)), false),
        ),
        r matches Err(e) ==> e is SignatureVerification || (e is InvalidFormat && artifact_of(
            bundle.header@,
        ) is None),
{
    verify_with_identity_opt(bundle, expected_identity, expected_issuer, false)
}

/// Checks the bundle's signature for a given signer identity and issuer;
/// offline it skips the transparency log.
pub fn verify_with_identity_opt(
    bundle: &Bundle,
    expected_identity: &str,
    expected_issuer: &str,
    offline: bool,
) -> (r: Result<()>)
    ensures
        bundle.header.signature is None ==> (r matches Err(Error::SignatureVerification(m)) && m@
            == "no signature in bundle"@),
        bundle.header.signature matches Some(s) && !sigstore_json_accepted(s@) ==> (r matches Err(
            Error::SignatureVerification(m),
        ) && m@.take(24) == "invalid signature JSON: "@),
        bundle.header.signature matches Some(s) && sigstore_json_accepted(s@)
            && !sigstore_structure_valid(s@) ==> (r matches Err(Error::SignatureVerification(m))
            && m@.take(19) == "bundle validation: "@),
        r is Ok ==> bundle.header.signature is Some && artifact_of(bundle.header@) is Some
            && sigstore_json_accepted(bundle.header.signature->0@),
        r is Ok ==> sigstore_structure_valid(bundle.header.signature->0@),
        r is Ok ==> sigstore_accepts(
            artifact_of(bundle.header@)->0,
            bundle.header.signature->0@,
            signer_policy_of(Some((expected_identity@, expected_issuer@)), offline),
        ),
        r matches Err(e) ==> e is SignatureVerification || (e is InvalidFormat && artifact_of(
            bundle.header@,
        ) is None),
{
    check_signature(
        bundle,
        Some((expected_identity, expected_issuer)),
        offline,
        "identity verification failed: ",
    )
}

} // verus!
