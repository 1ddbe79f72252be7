use vstd::prelude::*;
use vstd::slice::slice_subrange;
use crate::bundle::{
    Bundle, BootstrapEntry, EntryView, bootstrap_bytes, entry_views, layer_bytes, layer_start,
    layers_end_of, layers_offset_of, layout_fits, layer_bounds_message, lemma_sizes_monotone,
    make_bootstrap_data, make_bootstrap_trailer, sizes_before, trailer_bytes, bootstrap_region,
};
use crate::bytes::append_bytes;
use vstd::seq_lib::lemma_flatten_concat;
use crate::error::{Error, Result, text};
use crate::header::{BundleHeader, HeaderView, layer_views, opt_bytes_view};
use crate::layer::{LayerRef, LayerRefView};
use crate::permission::{PermissionSet, PermissionSetView, PermissionValue, PermissionValueView};
use crate::strings::{concat_str, views};
use crate::verify::{Verifier, blake3_hex_of};

verus! {

// ---------------------------------------------------------------------------
// Names.
// ---------------------------------------------------------------------------

/// The position just after the last `.` before position `i`, or 0.
pub open spec fn after_last_dot(s: Seq<char>, i: int) -> int
    decreases i,
{
    if i <= 0 {
        0
    } else if s[i - 1] == '.' {
        i
    } else {
        after_last_dot(s, i - 1)
    }
}

/// The part of an app id after its last `.` (the whole id when it has none).
pub open spec fn last_segment_of(id: Seq<char>) -> Seq<char> {
    id.skip(after_last_dot(id, id.len() as int))
}

proof fn lemma_after_last_dot(s: Seq<char>, i: int)
    requires
        0 <= i <= s.len(),
    ensures
        0 <= after_last_dot(s, i) <= i,
    decreases i,
{
    if i > 0 && s[i - 1] != '.' {
        lemma_after_last_dot(s, i - 1);
    }
}

/// The part of an app id after its last `.`.
pub fn last_segment(id: &str) -> (r: String)
    ensures
        r@ == last_segment_of(id@),
{
    let cs = crate::strings::chars_of(id);
    let n = cs.len();
    let mut i = n;
    while i > 0
        invariant
            n == cs@.len(),
            i <= n,
            after_last_dot(cs@, i as int) == after_last_dot(cs@, n as int),
        ensures
            i <= n,
            i == after_last_dot(cs@, n as int),
        decreases i,
    {
        if cs[i - 1] == '.' {
            break;
        }
        i = i - 1;
    }
    proof {
        lemma_after_last_dot(cs@, n as int);
    }
    let r = crate::strings::string_from_chars(&cs, i, n);
    assert(r@ =~= last_segment_of(id@));
    r
}

/// The file a bundle of an app is written to: the last part of its id with
/// `.nxpk` added.
pub fn bundle_file_name(app_id: &str) -> (r: String)
    ensures
        r@ == last_segment_of(app_id@) + ".nxpk"@,
{
    concat_str(last_segment(app_id).as_str(), ".nxpk")
}

// ---------------------------------------------------------------------------
// The pack description, as read from its TOML file.
// ---------------------------------------------------------------------------

/// The app section: id, version and entry point.
pub struct PackApp {
    pub id: String,
    pub version: String,
    pub entrypoint: String,
}

/// The network setting as written: a flag, a list (of which only the
/// strings count), or anything else.
pub enum NetworkSetting {
    Flag(bool),
    List(Vec<Option<String>>),
    Other,
}

/// The permissions section; each entry may be left out.
pub struct PackPermissions {
    pub network: Option<NetworkSetting>,
    pub filesystem: Option<Vec<String>>,
    pub devices: Option<Vec<String>>,
    pub ipc: Option<Vec<String>>,
    pub display: Option<String>,
}

/// One layer: its role and the directory it is built from.
pub struct PackLayer {
    pub role: String,
    pub source: String,
}

/// The bootstrap binaries to embed, by path.
pub struct PackBootstrap {
    pub nexpackd: Option<String>,
    pub nxpk: Option<String>,
}

/// A whole pack description.
pub struct PackSpec {
    pub app: PackApp,
    pub permissions: Option<PackPermissions>,
    pub layer: Vec<PackLayer>,
    pub bootstrap: Option<PackBootstrap>,
}

/// The strings of a list, in order, skipping the other items.
pub open spec fn strings_of(items: Seq<Option<String>>) -> Seq<Seq<char>>
    decreases items.len(),
{
    if items.len() == 0 {
        Seq::empty()
    } else {
        match items.last() {
            Some(s) => strings_of(items.drop_last()).push(s@),
            None => strings_of(items.drop_last()),
        }
    }
}

/// The network permission a setting asks for: the flag, the patterns of a
/// list, and no network otherwise.
pub open spec fn network_of(n: Option<NetworkSetting>) -> PermissionValueView {
    match n {
        Some(NetworkSetting::Flag(b)) => PermissionValueView::Bool(b),
        Some(NetworkSetting::List(items)) => PermissionValueView::Patterns(strings_of(items@)),
        _ => PermissionValueView::Bool(false),
    }
}

/// A list that may be left out, as plain values.
pub open spec fn opt_list(o: Option<Vec<String>>, default: Seq<Seq<char>>) -> Seq<Seq<char>> {
    match o {
        Some(v) => views(v@),
        None => default,
    }
}

/// The permission set a pack description asks for: the sandboxed default
/// when the section is missing; otherwise each entry, with no network, no
/// files, no devices, Wayland and the session bus, and a Wayland display for
/// what is left out.
pub open spec fn permissions_of(p: Option<PackPermissions>) -> PermissionSetView {
    match p {
        None => PermissionSetView {
            network: PermissionValueView::Bool(false),
            filesystem: Seq::empty(),
            devices: Seq::empty(),
            ipc: seq!["wayland"@, "dbus-session"@],
            display: "wayland"@,
        },
        Some(s) => PermissionSetView {
            network: network_of(s.network),
            filesystem: opt_list(s.filesystem, Seq::empty()),
            devices: opt_list(s.devices, Seq::empty()),
            ipc: opt_list(s.ipc, seq!["wayland"@, "dbus-session"@]),
            display: match s.display {
                Some(d) => d@,
                None => "wayland"@,
            },
        },
    }
}

fn strings_in(items: &Vec<Option<String>>) -> (r: Vec<String>)
    ensures
        views(r@) == strings_of(items@),
{
    let mut r: Vec<String> = Vec::new();
    let mut i: usize = 0;
    while i < items.len()
        invariant
            i <= items@.len(),
            views(r@) == strings_of(items@.take(i as int)),
        decreases items@.len() - i,
    {
        assert(items@.take(i + 1).drop_last() =~= items@.take(i as int));
        match &items[i] {
            Some(s) => {
                r.push(s.clone());
                assert(views(r@) =~= strings_of(items@.take(i + 1)));
            },
            None => {},
        }
        i = i + 1;
    }
    assert(items@.take(items@.len() as int) =~= items@);
    r
}

fn list_or(o: &Option<Vec<String>>, default: Vec<String>) -> (r: Vec<String>)
    ensures
        views(r@) == opt_list(*o, views(default@)),
{
    match o {
        Some(v) => crate::strings::clone_strings(v),
        None => default,
    }
}

/// The permission set of a pack description (see `permissions_of`).
pub fn spec_to_permissions(spec: &Option<PackPermissions>) -> (r: PermissionSet)
    ensures
        r@ == permissions_of(*spec),
{
    let s = match spec {
        Some(s) => s,
        None => {
            return PermissionSet::default_sandboxed();
        },
    };
    let network = match &s.network {
        Some(NetworkSetting::Flag(b)) => PermissionValue::Bool(*b),
        Some(NetworkSetting::List(items)) => PermissionValue::Patterns(strings_in(items)),
        _ => PermissionValue::Bool(false),
    };
    let none: Vec<String> = Vec::new();
    assert(views(none@) =~= Seq::<Seq<char>>::empty());
    let filesystem = list_or(&s.filesystem, Vec::new());
    let devices = list_or(&s.devices, Vec::new());
    let default_ipc = vec![text("wayland"), text("dbus-session")];
    assert(views(default_ipc@) =~= seq!["wayland"@, "dbus-session"@]);
    let ipc = list_or(&s.ipc, default_ipc);
    let display = match &s.display {
        Some(d) => d.clone(),
        None => text("wayland"),
    };
    PermissionSet { network, filesystem, devices, ipc, display }
}

// ---------------------------------------------------------------------------
// Layers and headers.
// ---------------------------------------------------------------------------

/// The reference to a layer image: `blake3:<hex>` of its bytes, its size
/// and role.
pub fn make_layer_ref(data: &[u8], role: &str) -> (r: LayerRef)
    ensures
        r@ == (LayerRefView {
            digest: "blake3:"@ + blake3_hex_of(data@),
            size: data@.len() as u64,
            role: role@,
        }),
{
    let hex = Verifier::blake3_hex(data);
    LayerRef {
        digest: concat_str("blake3:", hex.as_str()),
        size: data.len() as u64,
        role: String::from_str(role),
    }
}

/// The header of a freshly packed bundle: version 1, the app's id, version
/// and entry point, its layers, permissions and SBOM, no signature or update
/// feed, and the size of the bootstrap block when there is one. Refused
/// without layers.
pub fn pack_header(
    app: &PackApp,
    layers: Vec<LayerRef>,
    permissions: PermissionSet,
    sbom: Option<Vec<u8>>,
    bootstrap_size: Option<u64>,
) -> (r: Result<BundleHeader>)
    ensures
        layers@.len() == 0 ==> (r matches Err(Error::Other(m)) && m@ == "at least one layer is required"@),
        layers@.len() > 0 ==> (r matches Ok(h) && h@ == (HeaderView {
            version: 1,
            app_id: app.id@,
            app_version: app.version@,
            entrypoint: app.entrypoint@,
            layers: layer_views(layers@),
            permissions: permissions@,
            signature: None,
            sbom: opt_bytes_view(sbom),
            update_url: None,
            bootstrap_size,
            offset: 0,
            encoded_len: 0,
        })),
{
    if layers.len() == 0 {
        return Err(Error::Other(text("at least one layer is required")));
    }
    Ok(BundleHeader {
        version: 1,
        app_id: app.id.clone(),
        app_version: app.version.clone(),
        entrypoint: app.entrypoint.clone(),
        layers,
        permissions,
        signature: None,
        sbom,
        update_url: None,
        bootstrap_size,
        offset: 0,
        encoded_len: 0,
    })
}

/// The bootstrap entries for the binaries given, `nexpackd` first.
pub open spec fn bootstrap_entries_for(nexpackd: Option<Seq<u8>>, nxpk: Option<Seq<u8>>) -> Seq<EntryView> {
    (match nexpackd {
        Some(d) => seq![EntryView { name: "nexpackd"@, data: d }],
        None => Seq::empty(),
    }) + (match nxpk {
        Some(d) => seq![EntryView { name: "nxpk"@, data: d }],
        None => Seq::empty(),
    })
}

/// The bootstrap block of a bundle: none without binaries, otherwise the
/// block of the given ones.
pub fn build_bootstrap(nexpackd: Option<Vec<u8>>, nxpk: Option<Vec<u8>>) -> (r: Option<Vec<u8>>)
    ensures
        nexpackd is None && nxpk is None ==> r is None,
        !(nexpackd is None && nxpk is None) ==> (r matches Some(b) && b@ == bootstrap_bytes(
            bootstrap_entries_for(opt_bytes_view(nexpackd), opt_bytes_view(nxpk)),
        )),
{
    let ghost want = bootstrap_entries_for(opt_bytes_view(nexpackd), opt_bytes_view(nxpk));
    let mut entries: Vec<BootstrapEntry> = Vec::new();
    match nexpackd {
        Some(d) => entries.push(BootstrapEntry { name: text("nexpackd"), data: d }),
        None => {},
    }
    match nxpk {
        Some(d) => entries.push(BootstrapEntry { name: text("nxpk"), data: d }),
        None => {},
    }
    if entries.len() == 0 {
        return None;
    }
    assert(entry_views(entries@) =~= want);
    Some(make_bootstrap_data(entries.as_slice()))
}

} // verus!

verus! {

// ---------------------------------------------------------------------------
// Writing bundles: stub | magic + header | layers | bootstrap block + trailer.
// ---------------------------------------------------------------------------

/// The bytes of each vector of a list.
pub open spec fn byte_views(v: Seq<Vec<u8>>) -> Seq<Seq<u8>> {
    v.map_values(|b: Vec<u8>| b@)
}

/// A bundle file: the stub, the encoded header, the layer images one after
/// another and, when there is one, the bootstrap block followed by its
/// trailer (which records where the block starts and how long it is).
pub open spec fn assembled(stub: Seq<u8>, header: Seq<u8>, layers: Seq<Seq<u8>>, boot: Option<Seq<u8>>) -> Seq<u8> {
    let body = stub + header + layers.flatten();
    match boot {
        Some(b) => body + b + trailer_bytes(body.len() as u64, b.len() as u64),
        None => body,
    }
}

/// The bytes of a bundle file.
pub fn assemble_bundle(stub: &[u8], header_bytes: &[u8], layers: &Vec<Vec<u8>>, bootstrap: Option<&[u8]>) -> (r: Vec<u8>)
    requires
        stub@.len() + header_bytes@.len() + byte_views(layers@).flatten().len() + match bootstrap {
            Some(b) => b@.len() + 20,
            None => 0,
        } <= usize::MAX,
    ensures
        r@ == assembled(
            stub@,
            header_bytes@,
            byte_views(layers@),
            match bootstrap {
                Some(b) => Some(b@),
                None => None,
            },
        ),
{
    let ghost lv = byte_views(layers@);
    let mut out: Vec<u8> = Vec::new();
    append_bytes(&mut out, stub);
    append_bytes(&mut out, header_bytes);
    let ghost head = out@;
    let mut i: usize = 0;
    while i < layers.len()
        invariant
            lv == byte_views(layers@),
            i <= layers@.len(),
            out@ == head + lv.take(i as int).flatten(),
            head.len() + lv.flatten().len() + match bootstrap {
                Some(b) => b@.len() + 20,
                None => 0,
            } <= usize::MAX,
            head == stub@ + header_bytes@,
        decreases layers@.len() - i,
    {
        proof {
            assert(lv.take(i + 1) =~= lv.take(i as int).push(lv[i as int]));
            lv.take(i as int).lemma_flatten_push(lv[i as int]);
            lemma_flatten_concat(lv.take(i + 1), lv.skip(i + 1));
            assert(lv.take(i + 1) + lv.skip(i + 1) =~= lv);
        }
        append_bytes(&mut out, layers[i].as_slice());
        i = i + 1;
    }
    assert(lv.take(layers@.len() as int) =~= lv);
    match bootstrap {
        Some(b) => {
            let offset = out.len() as u64;
            append_bytes(&mut out, b);
            let trailer = make_bootstrap_trailer(offset, b.len() as u64);
            append_bytes(&mut out, trailer.as_slice());
        },
        None => {},
    }
    out
}

/// The layers laid out one after another: the first `n` of them take as
/// many bytes as their sizes add up to.
proof fn lemma_flatten_prefix_len(ls: Seq<LayerRefView>, layers: Seq<Seq<u8>>, n: int)
    requires
        ls.len() == layers.len(),
        0 <= n <= layers.len(),
        forall|j: int| 0 <= j < layers.len() ==> #[trigger] layers[j].len() == ls[j].size,
    ensures
        layers.take(n).flatten().len() == sizes_before(ls, n),
    decreases n,
{
    if n > 0 {
        lemma_flatten_prefix_len(ls, layers, n - 1);
        assert(layers.take(n) =~= layers.take(n - 1).push(layers[n - 1]));
        layers.take(n - 1).lemma_flatten_push(layers[n - 1]);
    }
}

/// Layer `i` of a bundle whose layer images follow its header one after
/// another, with the sizes the header records, reads back as that image.
pub proof fn lemma_layers_follow_header(h: HeaderView, prefix: Seq<u8>, layers: Seq<Seq<u8>>, rest: Seq<u8>, i: int)
    requires
        prefix.len() == layers_offset_of(h),
        h.layers.len() == layers.len(),
        forall|j: int| 0 <= j < layers.len() ==> #[trigger] layers[j].len() == h.layers[j].size,
        0 <= i < layers.len(),
    ensures
        layer_bytes(h, prefix + layers.flatten() + rest, i) == Some(layers[i]),
{
    let data = prefix + layers.flatten() + rest;
    lemma_flatten_prefix_len(h.layers, layers, i);
    lemma_flatten_concat(layers.take(i), layers.skip(i));
    assert(layers.take(i) + layers.skip(i) =~= layers);
    assert(layers.skip(i).first() == layers[i]);
    assert(layers.skip(i).drop_first() =~= layers.skip(i + 1));
    let before = layers.take(i).flatten();
    let after = layers.skip(i + 1).flatten();
    assert(layers.flatten() =~= before + layers[i] + after);
    let start = (prefix.len() + before.len()) as int;
    assert(layer_start(h, i) == start);
    assert(data =~= prefix + before + layers[i] + (after + rest));
    assert(data.subrange(start, start + layers[i].len() as int) =~= layers[i]);
}

/// A bundle's layer images in order, as far as they lie within its data.
pub open spec fn layer_list(h: HeaderView, data: Seq<u8>) -> Seq<Seq<u8>> {
    Seq::new(h.layers.len(), |i: int| layer_bytes(h, data, i).unwrap())
}

/// The first layer from `i` on that runs past the end of the data.
pub open spec fn first_bad_layer(h: HeaderView, data: Seq<u8>, i: int) -> Option<int>
    decreases h.layers.len() - i,
{
    if i < 0 || i >= h.layers.len() {
        None
    } else if layer_bytes(h, data, i) is None {
        Some(i)
    } else {
        first_bad_layer(h, data, i + 1)
    }
}

/// Whether some bytes are a JSON document, as `serde_json` reads one.
pub uninterp spec fn json_accepted(data: Seq<u8>) -> bool;

/// `serde_json::from_slice` into a `serde_json::Value`. Claimed: it succeeds
/// exactly on the bytes that are a JSON document (the named property); the
/// error text is not described.
#[verifier::external_body]
fn json_value_parses(data: &[u8]) -> (r: core::result::Result<(), String>)
    ensures
        r is Ok <==> json_accepted(data@),
{
    match serde_json::from_slice::<serde_json::Value>(data) {
        Ok(_) => Ok(()),
        Err(e) => Err(e.to_string()),
    }
}

/// Checks that what the signing tool wrote is a JSON document; otherwise an
/// `Other` error whose text starts with `invalid cosign output: `.
pub fn check_cosign_output(sig: &[u8]) -> (r: Result<()>)
    ensures
        r is Ok <==> json_accepted(sig@),
        r matches Err(e) ==> e is Other && e->Other_0@.take(23) == "invalid cosign output: "@,
{
    match json_value_parses(sig) {
        Ok(()) => Ok(()),
        Err(e) => {
            let mut m = text("invalid cosign output: ");
            m.append(e.as_str());
            proof {
                reveal_strlit("invalid cosign output: ");
                assert(m@.take(23) =~= "invalid cosign output: "@);
            }
            Err(Error::Other(m))
        },
    }
}

/// The header with a signature.
pub open spec fn signed_view(h: HeaderView, sig: Seq<u8>) -> HeaderView {
    HeaderView { signature: Some(sig), ..h }
}

/// The header of a bundle with a signature added, everything else kept.
pub fn with_signature(header: &BundleHeader, sig: Vec<u8>) -> (r: BundleHeader)
    ensures
        r@ == signed_view(header@, sig@),
{
    let mut h = header.copied();
    h.signature = Some(sig);
    h
}

/// The room a bootstrap block and its trailer take, when one is declared.
pub open spec fn bootstrap_room(h: HeaderView) -> int {
    match h.bootstrap_size {
        Some(s) => s + 20,
        None => 0,
    }
}

/// What follows the layers of a rewritten bundle: the bootstrap block of the
/// old bundle, when it has one, and a trailer that points at its new place
/// `at`; nothing otherwise.
pub open spec fn kept_bootstrap(h: HeaderView, data: Seq<u8>, at: int) -> Seq<u8> {
    match bootstrap_region(h, data) {
        Some(b) => b + trailer_bytes(at as u64, b.len() as u64),
        None => Seq::empty(),
    }
}

/// The bytes of a bundle rewritten with a new encoded header: the stub, the
/// new header, the layers, then the bootstrap block, when there is one, with
/// a fresh trailer for its new place. Fails on the first layer that runs past
/// the end of the bundle, as `extract_layer` does.
pub fn rewrite_bundle(bundle: &Bundle, header_bytes: &[u8]) -> (r: Result<Vec<u8>>)
    requires
        bundle.header.offset <= bundle.data@.len(),
        layout_fits(bundle.header@),
        bundle.header.offset + header_bytes@.len() + (layers_end_of(bundle.header@) - layers_offset_of(
            bundle.header@,
        )) + bootstrap_room(bundle.header@) <= usize::MAX,
    ensures
        match first_bad_layer(bundle.header@, bundle.data@, 0) {
            None => r matches Ok(v) && v@ == rewritten(bundle.header@, bundle.data@, header_bytes@),
            Some(i) => r matches Err(Error::InvalidFormat(m)) && m@ == layer_bounds_message(
                i,
                layer_start(bundle.header@, i),
                bundle.header@.layers[i].size as int,
            ),
        },
{
    let ghost h = bundle.header@;
    let ghost d = bundle.data@;
    let ghost ll = layer_list(h, d);
    let mut out: Vec<u8> = Vec::new();
    let data_len = bundle.data.len();
    assert(bundle.header.offset <= data_len);
    let stub_end = bundle.header.offset as usize;
    append_bytes(&mut out, slice_subrange(bundle.data.as_slice(), 0, stub_end));
    append_bytes(&mut out, header_bytes);
    let ghost head = out@;
    let n = bundle.header.layers.len();
    let mut i: usize = 0;
    while i < n
        invariant
            h == bundle.header@,
            d == bundle.data@,
            ll == layer_list(h, d),
            n == h.layers.len(),
            layout_fits(h),
            i <= n,
            head.len() == bundle.header.offset + header_bytes@.len(),
            head.len() + (layers_end_of(h) - layers_offset_of(h)) <= usize::MAX,
            out@ == head + ll.take(i as int).flatten(),
            forall|j: int| 0 <= j < i ==> #[trigger] layer_bytes(h, d, j) is Some,
            first_bad_layer(h, d, 0) == first_bad_layer(h, d, i as int),
        decreases n - i,
    {
        proof {
            lemma_sizes_monotone(h.layers, i + 1, n as int);
            crate::bundle::lemma_sizes_monotone(h.layers, 0, i as int);
        }
        let layer = bundle.extract_layer(i);
        match layer {
            Ok(bytes) => {
                proof {
                    assert(ll[i as int] == bytes@);
                    assert(ll.take(i + 1) =~= ll.take(i as int).push(ll[i as int]));
                    ll.take(i as int).lemma_flatten_push(ll[i as int]);
                    assert forall|j: int| 0 <= j < i + 1 implies #[trigger] ll[j].len() == h.layers[j].size by {
                        lemma_layer_len(h, d, j);
                    }
                    lemma_flatten_prefix_len(h.layers.take(i + 1), ll.take(i + 1), i + 1);
                    assert(sizes_before(h.layers.take(i + 1), i + 1) == sizes_before(h.layers, i + 1)) by {
                        lemma_sizes_prefix(h.layers, i + 1, i + 1);
                    }
                    lemma_sizes_monotone(h.layers, i + 1, n as int);
                }
                append_bytes(&mut out, bytes);
            },
            Err(e) => {
                return Err(e);
            },
        }
        i = i + 1;
    }
    assert(ll.take(n as int) =~= ll);
    let ghost body = out@;
    proof {
        assert forall|j: int| 0 <= j < ll.len() implies #[trigger] ll[j].len() == h.layers[j].size by {
            lemma_layer_len(h, d, j);
        }
        lemma_flatten_prefix_len(h.layers, ll, n as int);
        assert(body.len() == bundle.header.offset + header_bytes@.len() + (layers_end_of(h)
            - layers_offset_of(h)));
    }
    match bundle.bootstrap_data() {
        Some(b) => {
            assert(bootstrap_region(h, d) == Some(b@));
            assert(b@.len() == h.bootstrap_size->0);
            let at = out.len() as u64;
            append_bytes(&mut out, b);
            let t = make_bootstrap_trailer(at, b.len() as u64);
            append_bytes(&mut out, t.as_slice());
            assert(out@ =~= body + kept_bootstrap(h, d, body.len() as int));
        },
        None => {
            assert(out@ =~= body + kept_bootstrap(h, d, body.len() as int));
        },
    }
    Ok(out)
}

/// Sizes of a prefix of the layers only depend on that prefix.
proof fn lemma_sizes_prefix(ls: Seq<LayerRefView>, k: int, n: int)
    requires
        0 <= n <= k <= ls.len(),
    ensures
        sizes_before(ls.take(k), n) == sizes_before(ls, n),
    decreases n,
{
    if n > 0 {
        lemma_sizes_prefix(ls, k, n - 1);
    }
}

/// The bytes of a bundle rewritten with a new encoded header, as
/// `rewrite_bundle` writes them when every layer is in place.
pub open spec fn rewritten(h: HeaderView, data: Seq<u8>, header_bytes: Seq<u8>) -> Seq<u8> {
    data.subrange(0, h.offset as int) + header_bytes + layer_list(h, data).flatten() + kept_bootstrap(
        h,
        data,
        h.offset + header_bytes.len() + (layers_end_of(h) - layers_offset_of(h)),
    )
}

/// Rewriting a bundle with a new header of the same layers, at the same
/// place, keeps every layer's bytes: what the new header reads back as
/// layer `i` is what the old one did.
pub proof fn lemma_rewrite_keeps_layers(h: HeaderView, data: Seq<u8>, new_h: HeaderView, header_bytes: Seq<u8>, i: int)
    requires
        first_bad_layer(h, data, 0) is None,
        h.offset <= data.len(),
        new_h.layers == h.layers,
        new_h.offset == h.offset,
        new_h.encoded_len == header_bytes.len(),
        0 <= i < h.layers.len(),
    ensures
        layer_bytes(new_h, rewritten(h, data, header_bytes), i) == layer_bytes(h, data, i),
{
    let ll = layer_list(h, data);
    assert forall|j: int| 0 <= j < ll.len() implies #[trigger] ll[j].len() == new_h.layers[j].size by {
        lemma_no_bad_layer(h, data, 0, j);
        lemma_layer_len(h, data, j);
    }
    lemma_no_bad_layer(h, data, 0, i);
    let prefix = data.subrange(0, h.offset as int) + header_bytes;
    let rest = kept_bootstrap(h, data, h.offset + header_bytes.len() + (layers_end_of(h) - layers_offset_of(h)));
    lemma_layers_follow_header(new_h, prefix, ll, rest, i);
    assert(prefix + ll.flatten() + rest =~= rewritten(h, data, header_bytes));
}

/// Rewriting a bundle with a new header that declares the same layers and
/// bootstrap block, at the same place, keeps the bootstrap block, and the
/// trailer at the end points at its new place.
pub proof fn lemma_rewrite_keeps_bootstrap(h: HeaderView, data: Seq<u8>, new_h: HeaderView, header_bytes: Seq<u8>)
    requires
        first_bad_layer(h, data, 0) is None,
        h.offset <= data.len(),
        new_h.layers == h.layers,
        new_h.bootstrap_size == h.bootstrap_size,
        new_h.offset == h.offset,
        new_h.encoded_len == header_bytes.len(),
    ensures
        bootstrap_region(new_h, rewritten(h, data, header_bytes)) == bootstrap_region(h, data),
        bootstrap_region(h, data) matches Some(b) ==> crate::bundle::trailer_of(
            rewritten(h, data, header_bytes),
        ) == Some((layers_end_of(new_h) as u64, b.len() as u64)),
{
    let ll = layer_list(h, data);
    assert forall|j: int| 0 <= j < ll.len() implies #[trigger] ll[j].len() == h.layers[j].size by {
        lemma_no_bad_layer(h, data, 0, j);
        lemma_layer_len(h, data, j);
    }
    lemma_flatten_prefix_len(h.layers, ll, ll.len() as int);
    assert(ll.take(ll.len() as int) =~= ll);
    let at = h.offset + header_bytes.len() + (layers_end_of(h) - layers_offset_of(h));
    let body = data.subrange(0, h.offset as int) + header_bytes + ll.flatten();
    assert(body.len() == at);
    assert(layers_end_of(new_h) == at);
    let r = rewritten(h, data, header_bytes);
    match bootstrap_region(h, data) {
        Some(b) => {
            assert(r =~= (body + b) + trailer_bytes(at as u64, b.len() as u64));
            assert(r.subrange(at, at + b.len()) =~= b);
            crate::bundle::lemma_trailer_roundtrip(body + b, at as u64, b.len() as u64);
        },
        None => {
            assert(r =~= body);
        },
    }
}

proof fn lemma_layer_len(h: HeaderView, data: Seq<u8>, j: int)
    requires
        0 <= j < h.layers.len(),
        layer_bytes(h, data, j) is Some,
    ensures
        layer_bytes(h, data, j).unwrap().len() == h.layers[j].size,
        layer_list(h, data)[j].len() == h.layers[j].size,
{
    lemma_sizes_monotone(h.layers, 0, j);
}

proof fn lemma_no_bad_layer(h: HeaderView, data: Seq<u8>, k: int, j: int)
    requires
        first_bad_layer(h, data, k) is None,
        0 <= k <= j < h.layers.len(),
    ensures
        layer_bytes(h, data, j) is Some,
    decreases j - k,
{
    if k < j {
        lemma_no_bad_layer(h, data, k + 1, j);
    }
}

/// A packed bundle reads back each layer image at the place its header
/// records, provided the header is read at the end of the stub and spans
/// its encoding.
pub proof fn lemma_packed_layers(
    h: HeaderView,
    stub: Seq<u8>,
    header_bytes: Seq<u8>,
    layers: Seq<Seq<u8>>,
    boot: Option<Seq<u8>>,
    i: int,
)
    requires
        h.offset == stub.len(),
        h.encoded_len == header_bytes.len(),
        h.layers.len() == layers.len(),
        forall|j: int| 0 <= j < layers.len() ==> #[trigger] layers[j].len() == h.layers[j].size,
        0 <= i < layers.len(),
    ensures
        layer_bytes(h, assembled(stub, header_bytes, layers, boot), i) == Some(layers[i]),
{
    let rest = match boot {
        Some(b) => b + trailer_bytes((stub + header_bytes + layers.flatten()).len() as u64, b.len() as u64),
        None => Seq::<u8>::empty(),
    };
    lemma_layers_follow_header(h, stub + header_bytes, layers, rest, i);
    assert(assembled(stub, header_bytes, layers, boot) =~= stub + header_bytes + layers.flatten() + rest);
}

} // verus!

verus! {

/// A bundle packed from layer images, whose header names each image by its
/// BLAKE3 digest and size (as `make_layer_ref` writes them) and is read at
/// the end of the stub, passes layer verification.
pub proof fn lemma_packed_bundle_verifies(
    b: Bundle,
    stub: Seq<u8>,
    header_bytes: Seq<u8>,
    layers: Seq<Seq<u8>>,
    boot: Option<Seq<u8>>,
)
    requires
        b.header@.offset == stub.len(),
        b.header@.encoded_len == header_bytes.len(),
        b.header@.layers.len() == layers.len(),
        forall|j: int|
            #![trigger b.header@.layers[j]]
            0 <= j < layers.len() ==> b.header@.layers[j].digest == "blake3:"@ + blake3_hex_of(layers[j])
                && b.header@.layers[j].size == layers[j].len(),
        b.data@ == assembled(stub, header_bytes, layers, boot),
    ensures
        crate::verify::layers_verified(b),
{
    reveal_strlit("blake3:");
    assert("blake3:"@ =~= crate::layer::blake3_prefix());
    let h = b.header@;
    assert forall|i: int| 0 <= i < h.layers.len() implies (#[trigger] layer_bytes(h, b.data@, i)) is Some
        && blake3_hex_of(layer_bytes(h, b.data@, i).unwrap()) == crate::layer::digest_hex_of(
        h.layers[i].digest,
    ) by {
        assert forall|j: int| 0 <= j < layers.len() implies #[trigger] layers[j].len() == h.layers[j].size by {
            assert(h.layers[j].size == layers[j].len());
        }
        lemma_packed_layers(h, stub, header_bytes, layers, boot, i);
        let d = h.layers[i].digest;
        assert(d.subrange(0, 7) =~= crate::layer::blake3_prefix());
        assert(d.skip(7) =~= blake3_hex_of(layers[i]));
    }
}

/// Adding a signature to a header leaves what the signature covers
/// unchanged.
pub proof fn lemma_signature_outside_artifact(h: HeaderView, sig: Seq<u8>)
    ensures
        crate::signing::artifact_of(signed_view(h, sig)) == crate::signing::artifact_of(h),
{
    assert(crate::signing::unsigned(signed_view(h, sig)) =~= crate::signing::unsigned(h));
}

/// A bundle assembled after a stub that holds no header magic parses back to
/// the header whose encoding it holds, placed right after the stub.
pub proof fn lemma_packed_header_parses(
    h: HeaderView,
    stub: Seq<u8>,
    header_bytes: Seq<u8>,
    layers: Seq<Seq<u8>>,
    boot: Option<Seq<u8>>,
)
    requires
        crate::header::reads_back(h, header_bytes),
        crate::header::first_magic_from(stub, 0) is None,
        stub.len() <= u64::MAX,
    ensures
        crate::header::parsed_header(assembled(stub, header_bytes, layers, boot)) == Some(
            HeaderView { offset: stub.len() as u64, encoded_len: header_bytes.len() as u64, ..h },
        ),
{
    let rest = match boot {
        Some(b) => layers.flatten() + b + trailer_bytes(
            (stub + header_bytes + layers.flatten()).len() as u64,
            b.len() as u64,
        ),
        None => layers.flatten(),
    };
    assert(assembled(stub, header_bytes, layers, boot) =~= stub + header_bytes + rest);
    assert(crate::header::parsed_header(stub + header_bytes + rest) == Some(
        HeaderView { offset: stub.len() as u64, encoded_len: header_bytes.len() as u64, ..h },
    ));
}

/// What packing embeds as the bootstrap block is what the packed bundle
/// gives back: its bootstrap region is the block, and the block reads back as
/// the binaries it was built from (whenever their count, names and sizes fit
/// the block's length fields).
pub proof fn lemma_packed_bootstrap(
    h: HeaderView,
    stub: Seq<u8>,
    header_bytes: Seq<u8>,
    layers: Seq<Seq<u8>>,
    es: Seq<EntryView>,
)
    requires
        h.offset == stub.len(),
        h.encoded_len == header_bytes.len(),
        h.layers.len() == layers.len(),
        forall|j: int| 0 <= j < layers.len() ==> #[trigger] layers[j].len() == h.layers[j].size,
        h.bootstrap_size == Some(bootstrap_bytes(es).len() as u64),
        bootstrap_bytes(es).len() <= u64::MAX,
        es.len() < 0x1_0000_0000,
        forall|i: int| 0 <= i < es.len() ==> crate::bundle::entry_fits(#[trigger] es[i]),
    ensures
        bootstrap_region(h, assembled(stub, header_bytes, layers, Some(bootstrap_bytes(es))))
            == Some(bootstrap_bytes(es)),
        crate::bundle::bootstrap_entries_of(bootstrap_bytes(es)) == Ok::<Seq<EntryView>, Seq<char>>(es),
{
    let b = bootstrap_bytes(es);
    crate::bundle::lemma_bootstrap_roundtrip(es);
    lemma_flatten_prefix_len(h.layers, layers, layers.len() as int);
    assert(layers.take(layers.len() as int) =~= layers);
    let body = stub + header_bytes + layers.flatten();
    assert(body.len() == layers_end_of(h));
    assert(b.len() >= 4);
    let data = assembled(stub, header_bytes, layers, Some(b));
    assert(data =~= body + b + trailer_bytes(body.len() as u64, b.len() as u64));
    assert(data.subrange(layers_end_of(h), layers_end_of(h) + b.len()) =~= b);
}

/// Pack, then read back: a bundle assembled from a stub that holds no header
/// magic, the encoding of a header that declares the bootstrap block, the
/// layers and the block parses back to that header, placed after the stub,
/// and the bootstrap block that header locates reads back as the binaries it
/// was built from (whenever their count, names and sizes fit the block's
/// length fields).
pub proof fn lemma_packed_bundle_bootstrap(
    h: HeaderView,
    stub: Seq<u8>,
    header_bytes: Seq<u8>,
    layers: Seq<Seq<u8>>,
    es: Seq<EntryView>,
)
    requires
        crate::header::reads_back(h, header_bytes),
        crate::header::first_magic_from(stub, 0) is None,
        stub.len() <= u64::MAX,
        header_bytes.len() <= u64::MAX,
        h.layers.len() == layers.len(),
        forall|j: int| 0 <= j < layers.len() ==> #[trigger] layers[j].len() == h.layers[j].size,
        h.bootstrap_size == Some(bootstrap_bytes(es).len() as u64),
        bootstrap_bytes(es).len() <= u64::MAX,
        es.len() < 0x1_0000_0000,
        forall|i: int| 0 <= i < es.len() ==> crate::bundle::entry_fits(#[trigger] es[i]),
    ensures
        ({
            let data = assembled(stub, header_bytes, layers, Some(bootstrap_bytes(es)));
            let placed = HeaderView { offset: stub.len() as u64, encoded_len: header_bytes.len() as u64, ..h };
            &&& crate::header::parsed_header(data) == Some(placed)
            &&& bootstrap_region(placed, data) == Some(bootstrap_bytes(es))
            &&& crate::bundle::bootstrap_entries_of(bootstrap_bytes(es)) == Ok::<Seq<EntryView>, Seq<char>>(es)
        }),
{
    let placed = HeaderView { offset: stub.len() as u64, encoded_len: header_bytes.len() as u64, ..h };
    lemma_packed_header_parses(h, stub, header_bytes, layers, Some(bootstrap_bytes(es)));
    lemma_packed_bootstrap(placed, stub, header_bytes, layers, es);
}

/// What a `[permissions]` section declares is what the permission set holds:
/// a network flag `b` gives exactly `Bool(b)`, and each declared list and the
/// declared display are taken as written.
pub proof fn lemma_declared_permissions_kept(s: PackPermissions)
    ensures
        s.network matches Some(NetworkSetting::Flag(b)) ==> permissions_of(Some(s)).network
            == PermissionValueView::Bool(b),
        s.filesystem matches Some(v) ==> permissions_of(Some(s)).filesystem == views(v@),
        s.devices matches Some(v) ==> permissions_of(Some(s)).devices == views(v@),
        s.ipc matches Some(v) ==> permissions_of(Some(s)).ipc == views(v@),
        s.display matches Some(d) ==> permissions_of(Some(s)).display == d@,
{
}

} // verus!
