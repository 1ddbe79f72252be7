use vstd::prelude::*;
use crate::header::{BundleHeader, HeaderView, layer_views};
use crate::layer::{LayerRef, LayerRefView, blake3_prefix, digest_hex_of};
use crate::strings::{str_eq, strip_prefix};
use crate::error::text;

verus! {

/// One layer of a published release: digest, download URL and size.
#[derive(Debug, Clone)]
pub struct LayerInfo {
    pub digest: String,
    pub url: String,
    pub size: u64,
}

/// A published release of an app.
#[derive(Debug, Clone)]
pub struct ReleaseInfo {
    pub version: String,
    pub layers: Vec<LayerInfo>,
    pub signature_bundle: Option<String>,
}

/// The update feed of an app: its id, the latest version and the releases.
#[derive(Debug, Clone)]
pub struct UpdateFeed {
    pub app_id: String,
    pub latest: String,
    pub releases: Vec<ReleaseInfo>,
}

/// `i` is the first release of `version`.
pub open spec fn is_first_release(rs: Seq<ReleaseInfo>, version: Seq<char>, i: int) -> bool {
    0 <= i < rs.len() && rs[i].version@ == version && forall|j: int| 0 <= j < i ==> rs[j].version@ != version
}

impl LayerInfo {
    /// The hex part of the digest (`blake3:` stripped when present).
    pub fn digest_hex(&self) -> (r: &str)
        ensures
            r@ == digest_hex_of(self.digest@),
    {
        let s = self.digest.as_str();
        let p = "blake3:";
        proof {
            reveal_strlit("blake3:");
            assert(p@ == blake3_prefix());
        }
        match strip_prefix(s, p) {
            Some(t) => t,
            None => s,
        }
    }
}

impl UpdateFeed {
    /// The first release of `version`, if the feed has one.
    pub fn find_release(&self, version: &str) -> (r: Option<&ReleaseInfo>)
        ensures
            r matches Some(rel) ==> exists|i: int|
                is_first_release(self.releases@, version@, i) && rel == &self.releases@[i],
            r is None ==> forall|i: int|
                0 <= i < self.releases@.len() ==> (#[trigger] self.releases@[i]).version@ != version@,
    {
        let mut i: usize = 0;
        while i < self.releases.len()
            invariant
                i <= self.releases@.len(),
                forall|j: int| 0 <= j < i ==> (#[trigger] self.releases@[j]).version@ != version@,
            decreases self.releases@.len() - i,
        {
            if str_eq(self.releases[i].version.as_str(), version) {
                assert(is_first_release(self.releases@, version@, i as int));
                return Some(&self.releases[i]);
            }
            i = i + 1;
        }
        None
    }

    /// The release of the latest version, if the feed has one.
    pub fn latest_release(&self) -> (r: Option<&ReleaseInfo>)
        ensures
            r matches Some(rel) ==> exists|i: int|
                is_first_release(self.releases@, self.latest@, i) && rel == &self.releases@[i],
            r is None ==> forall|i: int|
                0 <= i < self.releases@.len() ==> (#[trigger] self.releases@[i]).version@ != self.latest@,
    {
        self.find_release(self.latest.as_str())
    }
}

impl ReleaseInfo {
    /// The layers of this release that the store lacks, in order;
    /// `in_store[i]` says whether layer `i` is already there.
    pub fn missing_layers(&self, in_store: &Vec<bool>) -> (r: Vec<usize>)
        requires
            in_store@.len() == self.layers@.len(),
        ensures
            forall|k: int| 0 <= k < r@.len() ==> (#[trigger] r@[k]) < self.layers@.len() && !in_store@[r@[k] as int],
            forall|i: int| 0 <= i < self.layers@.len() && !in_store@[i] ==> r@.contains(i as usize),
            forall|a: int, b: int| 0 <= a < b < r@.len() ==> r@[a] < r@[b],
    {
        absent_indices(in_store)
    }
}

/// What an update check decides.
#[derive(Debug, Clone, Copy, PartialEq, Eq)]
pub enum UpdateDecision {
    /// The feed describes another app.
    WrongApp,
    /// The installed version is the latest.
    UpToDate,
    /// The feed has no release for its latest version.
    NoRelease,
    /// Release `index` of the feed is to be installed.
    Install(usize),
}

/// Decides what an update check does: a feed for another app is refused (when
/// the app id is checked), an installed latest version needs nothing, a
/// missing latest release is an error, and otherwise that release is
/// installed.
pub fn plan_update(header: &BundleHeader, feed: &UpdateFeed, app_id: &str, check_app_id: bool) -> (r:
    UpdateDecision)
    ensures
        check_app_id && feed.app_id@ != app_id@ ==> r == UpdateDecision::WrongApp,
        !(check_app_id && feed.app_id@ != app_id@) && feed.latest@ == header.app_version@ ==> r
            == UpdateDecision::UpToDate,
        !(check_app_id && feed.app_id@ != app_id@) && feed.latest@ != header.app_version@ ==> match r {
            UpdateDecision::Install(i) => is_first_release(feed.releases@, feed.latest@, i as int),
            UpdateDecision::NoRelease => forall|i: int|
                0 <= i < feed.releases@.len() ==> (#[trigger] feed.releases@[i]).version@ != feed.latest@,
            _ => false,
        },
{
    if check_app_id && !str_eq(feed.app_id.as_str(), app_id) {
        return UpdateDecision::WrongApp;
    }
    if str_eq(feed.latest.as_str(), header.app_version.as_str()) {
        return UpdateDecision::UpToDate;
    }
    let mut i: usize = 0;
    while i < feed.releases.len()
        invariant
            i <= feed.releases@.len(),
            !(check_app_id && feed.app_id@ != app_id@),
            feed.latest@ != header.app_version@,
            forall|j: int| 0 <= j < i ==> (#[trigger] feed.releases@[j]).version@ != feed.latest@,
        decreases feed.releases@.len() - i,
    {
        if str_eq(feed.releases[i].version.as_str(), feed.latest.as_str()) {
            return UpdateDecision::Install(i);
        }
        i = i + 1;
    }
    UpdateDecision::NoRelease
}

/// The layer references of a release as a header lists them: same digests
/// and sizes, no role.
pub open spec fn release_layer_views(ls: Seq<LayerInfo>) -> Seq<LayerRefView> {
    Seq::new(ls.len(), |i: int| LayerRefView { digest: ls[i].digest@, size: ls[i].size, role: Seq::empty() })
}

/// The header recorded after installing a release: the release's version and
/// layers (without roles), everything else unchanged.
pub fn updated_header(header: &BundleHeader, release: &ReleaseInfo) -> (r: BundleHeader)
    ensures
        r@ == (HeaderView {
            app_version: release.version@,
            layers: release_layer_views(release.layers@),
            ..header@
        }),
{
    let mut h = header.copied();
    h.app_version = release.version.clone();
    let mut layers: Vec<LayerRef> = Vec::new();
    let mut i: usize = 0;
    while i < release.layers.len()
        invariant
            i <= release.layers@.len(),
            layers@.len() == i,
            forall|j: int| 0 <= j < i ==> (#[trigger] layers@[j])@ == (LayerRefView {
                digest: release.layers@[j].digest@,
                size: release.layers@[j].size,
                role: Seq::empty(),
            }),
        decreases release.layers@.len() - i,
    {
        layers.push(LayerRef { digest: release.layers[i].digest.clone(), size: release.layers[i].size, role: String::new() });
        i = i + 1;
    }
    h.layers = layers;
    assert(layer_views(h.layers@) =~= release_layer_views(release.layers@));
    h
}

/// The layer an app's `current` link moves to after installing a release: the
/// hex digest of its last layer, when it has layers.
pub fn new_current_digest(release: &ReleaseInfo) -> (r: Option<&str>)
    ensures
        release.layers@.len() == 0 ==> r is None,
        release.layers@.len() > 0 ==> (r matches Some(d) && d@ == digest_hex_of(
            release.layers@.last().digest@,
        )),
{
    let n = release.layers.len();
    if n == 0 {
        None
    } else {
        Some(release.layers[n - 1].digest_hex())
    }
}

} // verus!

verus! {

/// The error for a downloaded layer of the wrong size.
pub open spec fn size_mismatch_message(hex: Seq<char>, expected: u64, got: int) -> Seq<char> {
    "size mismatch for "@ + hex + ": expected "@ + crate::strings::decimal(expected as nat)
        + ", got "@ + crate::strings::decimal(got as nat)
}

/// Checks a downloaded layer: it must have the size the feed gives, then
/// hash to its digest.
pub fn check_download(layer: &LayerInfo, data: &[u8]) -> (r: crate::error::Result<()>)
    ensures
        data@.len() != layer.size ==> (r matches Err(crate::error::Error::Other(m)) && m@
            == size_mismatch_message(digest_hex_of(layer.digest@), layer.size, data@.len() as int)),
        data@.len() == layer.size ==> (r is Ok <==> crate::verify::blake3_hex_of(data@) == digest_hex_of(
            layer.digest@,
        )),
        data@.len() == layer.size && r is Err ==> (r matches Err(crate::error::Error::DigestMismatch {
            expected,
            actual,
        }) && expected@ == digest_hex_of(layer.digest@) && actual@ == crate::verify::blake3_hex_of(data@)),
{
    let hex = layer.digest_hex();
    if data.len() as u64 != layer.size {
        let mut m = text("size mismatch for ");
        m.append(hex);
        m.append(": expected ");
        m.append(crate::strings::decimal_string(layer.size).as_str());
        m.append(", got ");
        m.append(crate::strings::decimal_string(data.len() as u64).as_str());
        return Err(crate::error::Error::Other(m));
    }
    crate::verify::Verifier::verify_digest(data, hex)
}

/// The positions whose entry is `false`, in increasing order: the layers a
/// store still lacks, given which ones it has.
pub fn absent_indices(present: &Vec<bool>) -> (r: Vec<usize>)
    ensures
        forall|k: int| 0 <= k < r@.len() ==> (#[trigger] r@[k]) < present@.len() && !present@[r@[k] as int],
        forall|i: int| 0 <= i < present@.len() && !present@[i] ==> r@.contains(i as usize),
        forall|a: int, b: int| 0 <= a < b < r@.len() ==> r@[a] < r@[b],
{
    let mut r: Vec<usize> = Vec::new();
    let mut i: usize = 0;
    while i < present.len()
        invariant
            i <= present@.len(),
            forall|k: int| 0 <= k < r@.len() ==> (#[trigger] r@[k]) < i && !present@[r@[k] as int],
            forall|j: int| 0 <= j < i && !present@[j] ==> r@.contains(j as usize),
            forall|a: int, b: int| 0 <= a < b < r@.len() ==> r@[a] < r@[b],
        decreases present@.len() - i,
    {
        if !present[i] {
            let ghost before = r@;
            r.push(i);
            assert forall|j: int| 0 <= j <= i && !present@[j] implies r@.contains(j as usize) by {
                if j < i {
                    let k = choose|k: int| 0 <= k < before.len() && before[k] == j as usize;
                    assert(r@[k] == j as usize);
                } else {
                    assert(r@[r@.len() - 1] == i);
                }
            }
        }
        i = i + 1;
    }
    r
}

} // verus!
