use vstd::prelude::*;
use crate::cbor::{
    Cbor, CborValue, cbor_view, dict_view, array_view, lemma_container_view, untag, untagged,
    cbor_uint, cbor_text, cbor_bool, cbor_byte_string, cbor_text_list, field_slots, slot_value,
    slot_views, name_views, find_fields, get_uint, get_text, get_bool, get_byte_string, field_at,
    absent, lemma_field_slots_bounds, cbor_decoding, cbor_encoding, cbor_read, cbor_write,
    get_text_list, cbor_plain, lemma_plain_writable,
};
use crate::layer::{LayerRef, LayerRefView};
use crate::permission::{PermissionSet, PermissionSetView, PermissionValue, PermissionValueView};
use crate::strings::views;

verus! {

/// The header of a bundle: what the app is, how to start it, its layers,
/// its sandbox permissions and optional signature, SBOM, update feed and
/// bootstrap block. `offset` and `encoded_len` locate the header in the bundle
/// file; they are not part of the encoding.
#[derive(Debug, Clone)]
pub struct BundleHeader {
    pub version: u32,
    pub app_id: String,
    pub app_version: String,
    pub entrypoint: String,
    pub layers: Vec<LayerRef>,
    pub permissions: PermissionSet,
    pub signature: Option<Vec<u8>>,
    pub sbom: Option<Vec<u8>>,
    pub update_url: Option<String>,
    pub bootstrap_size: Option<u64>,
    pub offset: u64,
    pub encoded_len: u64,
}

/// A header as plain values.
#[verifier::ext_equal]
pub struct HeaderView {
    pub version: u32,
    pub app_id: Seq<char>,
    pub app_version: Seq<char>,
    pub entrypoint: Seq<char>,
    pub layers: Seq<LayerRefView>,
    pub permissions: PermissionSetView,
    pub signature: Option<Seq<u8>>,
    pub sbom: Option<Seq<u8>>,
    pub update_url: Option<Seq<char>>,
    pub bootstrap_size: Option<u64>,
    pub offset: u64,
    pub encoded_len: u64,
}

/// The plain values of a list of layer references.
pub open spec fn layer_views(l: Seq<LayerRef>) -> Seq<LayerRefView> {
    l.map_values(|x: LayerRef| x@)
}

/// The plain value of an optional byte vector.
pub open spec fn opt_bytes_view(o: Option<Vec<u8>>) -> Option<Seq<u8>> {
    match o {
        Some(v) => Some(v@),
        None => None,
    }
}

/// The plain value of an optional string.
pub open spec fn opt_text_view(o: Option<String>) -> Option<Seq<char>> {
    match o {
        Some(v) => Some(v@),
        None => None,
    }
}

impl View for BundleHeader {
    type V = HeaderView;

    open spec fn view(&self) -> HeaderView {
        HeaderView {
            version: self.version,
            app_id: self.app_id@,
            app_version: self.app_version@,
            entrypoint: self.entrypoint@,
            layers: layer_views(self.layers@),
            permissions: self.permissions@,
            signature: opt_bytes_view(self.signature),
            sbom: opt_bytes_view(self.sbom),
            update_url: opt_text_view(self.update_url),
            bootstrap_size: self.bootstrap_size,
            offset: self.offset,
            encoded_len: self.encoded_len,
        }
    }
}

// ---------------------------------------------------------------------------
// The encoding: a CBOR map per record, keyed by field name, in field order.
// Optional fields absent from a map, or given as null, are `None`; keys that
// name no field are ignored; a field named twice is an error.
// ---------------------------------------------------------------------------

/// Field names of a layer record.
pub open spec fn layer_field_names() -> Seq<Seq<char>> {
    seq!["digest"@, "size"@, "role"@]
}

/// Field names of a permission record.
pub open spec fn permission_field_names() -> Seq<Seq<char>> {
    seq!["network"@, "filesystem"@, "devices"@, "ipc"@, "display"@]
}

/// Field names of a header record.
pub open spec fn header_field_names() -> Seq<Seq<char>> {
    seq![
        "version"@,
        "app_id"@,
        "app_version"@,
        "entrypoint"@,
        "layers"@,
        "permissions"@,
        "signature"@,
        "sbom"@,
        "update_url"@,
        "bootstrap_size"@,
    ]
}

/// A required text field.
pub open spec fn req_text(v: Option<Cbor>) -> Option<Seq<char>> {
    match v {
        Some(c) => cbor_text(c),
        None => None,
    }
}

/// A required unsigned field no larger than `max`.
pub open spec fn req_uint(v: Option<Cbor>, max: int) -> Option<int> {
    match v {
        Some(c) => cbor_uint(c, max),
        None => None,
    }
}

/// A required list-of-text field.
pub open spec fn req_text_list(v: Option<Cbor>) -> Option<Seq<Seq<char>>> {
    match v {
        Some(c) => cbor_text_list(c),
        None => None,
    }
}

/// An optional field: absent or null is `None`; otherwise it must decode.
pub open spec fn is_absent(v: Option<Cbor>) -> bool {
    v is None || v == Some(Cbor::Null)
}

/// A layer record.
pub open spec fn decode_layer(c: Cbor) -> Option<LayerRefView> {
    match untag(c) {
        Cbor::Dict(m) => match field_slots(m, layer_field_names(), m.len() as int) {
            None => None,
            Some(s) => {
                let digest = req_text(slot_value(m, s[0]));
                let size = req_uint(slot_value(m, s[1]), u64::MAX as int);
                let role = req_text(slot_value(m, s[2]));
                if digest is Some && size is Some && role is Some {
                    Some(
                        LayerRefView {
                            digest: digest.unwrap(),
                            size: size.unwrap() as u64,
                            role: role.unwrap(),
                        },
                    )
                } else {
                    None
                }
            },
        },
        _ => None,
    }
}

/// A list of layer records (an empty byte string counts as an empty list).
pub open spec fn decode_layers(c: Cbor) -> Option<Seq<LayerRefView>> {
    match untag(c) {
        Cbor::Array(a) => if forall|i: int| 0 <= i < a.len() ==> (#[trigger] decode_layer(a[i])) is Some {
            Some(Seq::new(a.len(), |i: int| decode_layer(a[i]).unwrap()))
        } else {
            None
        },
        Cbor::Bytes(b) => if b.len() == 0 {
            Some(Seq::empty())
        } else {
            None
        },
        _ => None,
    }
}

/// A network permission: a boolean, or else a list of patterns.
pub open spec fn decode_network(c: Cbor) -> Option<PermissionValueView> {
    match cbor_bool(c) {
        Some(b) => Some(PermissionValueView::Bool(b)),
        None => match cbor_text_list(c) {
            Some(p) => Some(PermissionValueView::Patterns(p)),
            None => None,
        },
    }
}

/// A permission record.
pub open spec fn decode_permissions(c: Cbor) -> Option<PermissionSetView> {
    match untag(c) {
        Cbor::Dict(m) => match field_slots(m, permission_field_names(), m.len() as int) {
            None => None,
            Some(s) => {
                let network = match slot_value(m, s[0]) {
                    Some(x) => decode_network(x),
                    None => None,
                };
                let filesystem = req_text_list(slot_value(m, s[1]));
                let devices = req_text_list(slot_value(m, s[2]));
                let ipc = req_text_list(slot_value(m, s[3]));
                let display = req_text(slot_value(m, s[4]));
                if network is Some && filesystem is Some && devices is Some && ipc is Some
                    && display is Some {
                    Some(
                        PermissionSetView {
                            network: network.unwrap(),
                            filesystem: filesystem.unwrap(),
                            devices: devices.unwrap(),
                            ipc: ipc.unwrap(),
                            display: display.unwrap(),
                        },
                    )
                } else {
                    None
                }
            },
        },
        _ => None,
    }
}

/// The header a CBOR item encodes, when it encodes one.
pub open spec fn decode_header(c: Cbor) -> Option<HeaderView> {
    match untag(c) {
        Cbor::Dict(m) => match field_slots(m, header_field_names(), m.len() as int) {
            None => None,
            Some(s) => {
                let version = req_uint(slot_value(m, s[0]), u32::MAX as int);
                let app_id = req_text(slot_value(m, s[1]));
                let app_version = req_text(slot_value(m, s[2]));
                let entrypoint = req_text(slot_value(m, s[3]));
                let layers = match slot_value(m, s[4]) {
                    Some(x) => decode_layers(x),
                    None => None,
                };
                let permissions = match slot_value(m, s[5]) {
                    Some(x) => decode_permissions(x),
                    None => None,
                };
                let sig = slot_value(m, s[6]);
                let sbom = slot_value(m, s[7]);
                let url = slot_value(m, s[8]);
                let boot = slot_value(m, s[9]);
                if version is Some && app_id is Some && app_version is Some && entrypoint is Some
                    && layers is Some && permissions is Some && (is_absent(sig)
                    || cbor_byte_string(sig.unwrap()) is Some) && (is_absent(sbom)
                    || cbor_byte_string(sbom.unwrap()) is Some) && (is_absent(url) || cbor_text(
                    url.unwrap(),
                ) is Some) && (is_absent(boot) || cbor_uint(boot.unwrap(), u64::MAX as int)
                    is Some) {
                    Some(
                        HeaderView {
                            version: version.unwrap() as u32,
                            app_id: app_id.unwrap(),
                            app_version: app_version.unwrap(),
                            entrypoint: entrypoint.unwrap(),
                            layers: layers.unwrap(),
                            permissions: permissions.unwrap(),
                            signature: if is_absent(sig) {
                                None
                            } else {
                                cbor_byte_string(sig.unwrap())
                            },
                            sbom: if is_absent(sbom) {
                                None
                            } else {
                                cbor_byte_string(sbom.unwrap())
                            },
                            update_url: if is_absent(url) {
                                None
                            } else {
                                cbor_text(url.unwrap())
                            },
                            bootstrap_size: if is_absent(boot) {
                                None
                            } else {
                                Some(cbor_uint(boot.unwrap(), u64::MAX as int).unwrap() as u64)
                            },
                            offset: 0,
                            encoded_len: 0,
                        },
                    )
                } else {
                    None
                }
            },
        },
        _ => None,
    }
}

/// A list of texts as CBOR.
pub open spec fn text_list_cbor(l: Seq<Seq<char>>) -> Cbor {
    Cbor::Array(Seq::new(l.len(), |i: int| Cbor::Text(l[i])))
}

/// A byte string as CBOR: an array of small integers.
pub open spec fn bytes_cbor(b: Seq<u8>) -> Cbor {
    Cbor::Array(Seq::new(b.len(), |i: int| Cbor::Integer(b[i] as int)))
}

/// A layer record as CBOR.
pub open spec fn layer_cbor(l: LayerRefView) -> Cbor {
    Cbor::Dict(
        seq![
            (Cbor::Text("digest"@), Cbor::Text(l.digest)),
            (Cbor::Text("size"@), Cbor::Integer(l.size as int)),
            (Cbor::Text("role"@), Cbor::Text(l.role)),
        ],
    )
}

/// A network permission as CBOR.
pub open spec fn network_cbor(v: PermissionValueView) -> Cbor {
    match v {
        PermissionValueView::Bool(b) => Cbor::Bool(b),
        PermissionValueView::Patterns(p) => text_list_cbor(p),
    }
}

/// A permission record as CBOR.
pub open spec fn permissions_cbor(p: PermissionSetView) -> Cbor {
    Cbor::Dict(
        seq![
            (Cbor::Text("network"@), network_cbor(p.network)),
            (Cbor::Text("filesystem"@), text_list_cbor(p.filesystem)),
            (Cbor::Text("devices"@), text_list_cbor(p.devices)),
            (Cbor::Text("ipc"@), text_list_cbor(p.ipc)),
            (Cbor::Text("display"@), Cbor::Text(p.display)),
        ],
    )
}

/// A header as CBOR: a map of its ten encoded fields, in order.
pub open spec fn header_cbor(h: HeaderView) -> Cbor {
    Cbor::Dict(
        seq![
            (Cbor::Text("version"@), Cbor::Integer(h.version as int)),
            (Cbor::Text("app_id"@), Cbor::Text(h.app_id)),
            (Cbor::Text("app_version"@), Cbor::Text(h.app_version)),
            (Cbor::Text("entrypoint"@), Cbor::Text(h.entrypoint)),
            (Cbor::Text("layers"@), Cbor::Array(Seq::new(h.layers.len(), |i: int| layer_cbor(h.layers[i])))),
            (Cbor::Text("permissions"@), permissions_cbor(h.permissions)),
            (Cbor::Text("signature"@), match h.signature {
                Some(b) => bytes_cbor(b),
                None => Cbor::Null,
            }),
            (Cbor::Text("sbom"@), match h.sbom {
                Some(b) => bytes_cbor(b),
                None => Cbor::Null,
            }),
            (Cbor::Text("update_url"@), match h.update_url {
                Some(u) => Cbor::Text(u),
                None => Cbor::Null,
            }),
            (Cbor::Text("bootstrap_size"@), match h.bootstrap_size {
                Some(n) => Cbor::Integer(n as int),
                None => Cbor::Null,
            }),
        ],
    )
}

} // verus!

verus! {

/// Decodes a layer record.
pub fn layer_from_cbor(v: &CborValue) -> (r: Option<LayerRef>)
    ensures
        r matches Some(l) ==> decode_layer(v@) == Some(l@),
        r is None ==> decode_layer(v@) is None,
{
    let u = untagged(v);
    match u {
        CborValue::Dict(m) => {
            proof {
                lemma_container_view(*u);
            }
            let names = vec!["digest", "size", "role"];
            assert(name_views(names@) =~= layer_field_names());
            match find_fields(m, &names) {
                None => None,
                Some(s) => {
                    proof {
                        lemma_field_slots_bounds(
                            dict_view(m@),
                            layer_field_names(),
                            m@.len() as int,
                        );
                    }
                    let digest = match field_at(m, &s, 0) {
                        Some(x) => get_text(x),
                        None => None,
                    };
                    let size = match field_at(m, &s, 1) {
                        Some(x) => get_uint(x, u64::MAX),
                        None => None,
                    };
                    let role = match field_at(m, &s, 2) {
                        Some(x) => get_text(x),
                        None => None,
                    };
                    match (digest, size, role) {
                        (Some(d), Some(z), Some(r)) => Some(LayerRef { digest: d, size: z, role: r }),
                        _ => None,
                    }
                },
            }
        },
        _ => None,
    }
}

/// Decodes a list of layer records.
pub fn layers_from_cbor(v: &CborValue) -> (r: Option<Vec<LayerRef>>)
    ensures
        r matches Some(l) ==> decode_layers(v@) == Some(layer_views(l@)),
        r is None ==> decode_layers(v@) is None,
{
    let u = untagged(v);
    match u {
        CborValue::Bytes(b) => {
            if b.len() == 0 {
                let out: Vec<LayerRef> = Vec::new();
                assert(layer_views(out@) =~= Seq::<LayerRefView>::empty());
                Some(out)
            } else {
                None
            }
        },
        CborValue::Array(a) => {
            proof {
                lemma_container_view(*u);
            }
            let ghost av = array_view(a@);
            let mut out: Vec<LayerRef> = Vec::new();
            let mut i: usize = 0;
            while i < a.len()
                invariant
                    i <= a@.len(),
                    av == array_view(a@),
                    untag(v@) == Cbor::Array(av),
                    out@.len() == i,
                    forall|j: int|
                        0 <= j < i ==> (#[trigger] decode_layer(av[j])) is Some && out@[j]@
                            == decode_layer(av[j]).unwrap(),
                decreases a@.len() - i,
            {
                match layer_from_cbor(&a[i]) {
                    Some(l) => {
                        out.push(l);
                    },
                    None => {
                        assert(decode_layer(av[i as int]) is None);
                        assert(!(forall|j: int|
                            0 <= j < av.len() ==> (#[trigger] decode_layer(av[j])) is Some));
                        return None;
                    },
                }
                i = i + 1;
            }
            assert(layer_views(out@) =~= Seq::new(
                av.len(),
                |j: int| decode_layer(av[j]).unwrap(),
            ));
            Some(out)
        },
        _ => None,
    }
}

/// Decodes a network permission.
pub fn network_from_cbor(v: &CborValue) -> (r: Option<PermissionValue>)
    ensures
        r matches Some(n) ==> decode_network(v@) == Some(n@),
        r is None ==> decode_network(v@) is None,
{
    match get_bool(v) {
        Some(b) => Some(PermissionValue::Bool(b)),
        None => match get_text_list(v) {
            Some(p) => Some(PermissionValue::Patterns(p)),
            None => None,
        },
    }
}

/// Decodes a permission record.
pub fn permissions_from_cbor(v: &CborValue) -> (r: Option<PermissionSet>)
    ensures
        r matches Some(p) ==> decode_permissions(v@) == Some(p@),
        r is None ==> decode_permissions(v@) is None,
{
    let u = untagged(v);
    match u {
        CborValue::Dict(m) => {
            proof {
                lemma_container_view(*u);
            }
            let names = vec!["network", "filesystem", "devices", "ipc", "display"];
            assert(name_views(names@) =~= permission_field_names());
            match find_fields(m, &names) {
                None => None,
                Some(s) => {
                    proof {
                        lemma_field_slots_bounds(
                            dict_view(m@),
                            permission_field_names(),
                            m@.len() as int,
                        );
                    }
                    let network = match field_at(m, &s, 0) {
                        Some(x) => network_from_cbor(x),
                        None => None,
                    };
                    let filesystem = match field_at(m, &s, 1) {
                        Some(x) => get_text_list(x),
                        None => None,
                    };
                    let devices = match field_at(m, &s, 2) {
                        Some(x) => get_text_list(x),
                        None => None,
                    };
                    let ipc = match field_at(m, &s, 3) {
                        Some(x) => get_text_list(x),
                        None => None,
                    };
                    let display = match field_at(m, &s, 4) {
                        Some(x) => get_text(x),
                        None => None,
                    };
                    match (network, filesystem, devices, ipc, display) {
                        (Some(n), Some(f), Some(d), Some(i), Some(disp)) => Some(
                            PermissionSet {
                                network: n,
                                filesystem: f,
                                devices: d,
                                ipc: i,
                                display: disp,
                            },
                        ),
                        _ => None,
                    }
                },
            }
        },
        _ => None,
    }
}

/// Decodes an optional byte string: `Ok(None)` when absent or null.
fn opt_bytes_from(x: Option<&CborValue>) -> (r: core::result::Result<Option<Vec<u8>>, ()>)
    ensures
        r matches Ok(o) ==> (o is None <==> (x is None || (x matches Some(v) && v@
            == Cbor::Null))),
        r matches Ok(Some(b)) ==> (x matches Some(v) && cbor_byte_string(v@) == Some(b@)),
        r is Err ==> (x matches Some(v) && v@ != Cbor::Null && cbor_byte_string(v@) is None),
{
    if absent(x) {
        Ok(None)
    } else {
        match x {
            Some(v) => match get_byte_string(v) {
                Some(b) => Ok(Some(b)),
                None => Err(()),
            },
            None => Err(()),
        }
    }
}

impl BundleHeader {
    /// Decodes a header record; `offset` and `encoded_len` are left at zero.
    pub fn from_cbor(v: &CborValue) -> (r: Option<BundleHeader>)
        ensures
            r matches Some(h) ==> decode_header(v@) == Some(h@),
            r is None ==> decode_header(v@) is None,
    {
        let u = untagged(v);
        match u {
            CborValue::Dict(m) => {
                proof {
                    lemma_container_view(*u);
                }
                let names = vec![
                    "version",
                    "app_id",
                    "app_version",
                    "entrypoint",
                    "layers",
                    "permissions",
                    "signature",
                    "sbom",
                    "update_url",
                    "bootstrap_size",
                ];
                assert(name_views(names@) =~= header_field_names());
                let s = match find_fields(m, &names) {
                    None => {
                        return None;
                    },
                    Some(s) => s,
                };
                proof {
                    lemma_field_slots_bounds(dict_view(m@), header_field_names(), m@.len() as int);
                }
                let version = match field_at(m, &s, 0) {
                    Some(x) => get_uint(x, 0xffff_ffff),
                    None => None,
                };
                let app_id = match field_at(m, &s, 1) {
                    Some(x) => get_text(x),
                    None => None,
                };
                let app_version = match field_at(m, &s, 2) {
                    Some(x) => get_text(x),
                    None => None,
                };
                let entrypoint = match field_at(m, &s, 3) {
                    Some(x) => get_text(x),
                    None => None,
                };
                let layers = match field_at(m, &s, 4) {
                    Some(x) => layers_from_cbor(x),
                    None => None,
                };
                let permissions = match field_at(m, &s, 5) {
                    Some(x) => permissions_from_cbor(x),
                    None => None,
                };
                let signature = opt_bytes_from(field_at(m, &s, 6));
                let sbom = opt_bytes_from(field_at(m, &s, 7));
                let url_field = field_at(m, &s, 8);
                let update_url = if absent(url_field) {
                    Ok(None)
                } else {
                    match url_field {
                        Some(x) => match get_text(x) {
                            Some(t) => Ok(Some(t)),
                            None => Err(()),
                        },
                        None => Err(()),
                    }
                };
                let boot_field = field_at(m, &s, 9);
                let bootstrap_size = if absent(boot_field) {
                    Ok(None)
                } else {
                    match boot_field {
                        Some(x) => match get_uint(x, u64::MAX) {
                            Some(n) => Ok(Some(n)),
                            None => Err(()),
                        },
                        None => Err(()),
                    }
                };
                match (
                    version,
                    app_id,
                    app_version,
                    entrypoint,
                    layers,
                    permissions,
                    signature,
                    sbom,
                    update_url,
                    bootstrap_size,
                ) {
                    (
                        Some(ver),
                        Some(id),
                        Some(av),
                        Some(ep),
                        Some(ls),
                        Some(ps),
                        Ok(sig),
                        Ok(sb),
                        Ok(url),
                        Ok(boot),
                    ) => {
                        let h = BundleHeader {
                            version: ver as u32,
                            app_id: id,
                            app_version: av,
                            entrypoint: ep,
                            layers: ls,
                            permissions: ps,
                            signature: sig,
                            sbom: sb,
                            update_url: url,
                            bootstrap_size: boot,
                            offset: 0,
                            encoded_len: 0,
                        };
                        Some(h)
                    },
                    _ => None,
                }
            },
            _ => None,
        }
    }
}

} // verus!

verus! {

fn key(s: &str) -> (r: CborValue)
    ensures
        r@ == Cbor::Text(s@),
{
    CborValue::Text(String::from_str(s))
}

fn text_value(s: &String) -> (r: CborValue)
    ensures
        r@ == Cbor::Text(s@),
{
    CborValue::Text(s.clone())
}

fn text_list_value(l: &Vec<String>) -> (r: CborValue)
    ensures
        r@ == text_list_cbor(views(l@)),
{
    let mut out: Vec<CborValue> = Vec::new();
    let mut i: usize = 0;
    while i < l.len()
        invariant
            i <= l@.len(),
            out@.len() == i,
            forall|j: int| 0 <= j < i ==> (#[trigger] out@[j])@ == Cbor::Text(l@[j]@),
        decreases l@.len() - i,
    {
        out.push(text_value(&l[i]));
        i = i + 1;
    }
    let r = CborValue::Array(out);
    proof {
        lemma_container_view(r);
        assert(array_view(out@) =~= Seq::new(
            views(l@).len(),
            |j: int| Cbor::Text(views(l@)[j]),
        ));
    }
    r
}

fn bytes_value(b: &Vec<u8>) -> (r: CborValue)
    ensures
        r@ == bytes_cbor(b@),
{
    let mut out: Vec<CborValue> = Vec::new();
    let mut i: usize = 0;
    while i < b.len()
        invariant
            i <= b@.len(),
            out@.len() == i,
            forall|j: int| 0 <= j < i ==> (#[trigger] out@[j])@ == Cbor::Integer(b@[j] as int),
        decreases b@.len() - i,
    {
        out.push(CborValue::Integer(b[i] as i128));
        i = i + 1;
    }
    let r = CborValue::Array(out);
    proof {
        lemma_container_view(r);
        assert(array_view(out@) =~= Seq::new(b@.len(), |j: int| Cbor::Integer(b@[j] as int)));
    }
    r
}

fn layer_value(l: &LayerRef) -> (r: CborValue)
    ensures
        r@ == layer_cbor(l@),
{
    let entries = vec![
        (key("digest"), text_value(&l.digest)),
        (key("size"), CborValue::Integer(l.size as i128)),
        (key("role"), text_value(&l.role)),
    ];
    let r = CborValue::Dict(entries);
    proof {
        lemma_container_view(r);
        assert(dict_view(entries@) =~= seq![
            (Cbor::Text("digest"@), Cbor::Text(l@.digest)),
            (Cbor::Text("size"@), Cbor::Integer(l@.size as int)),
            (Cbor::Text("role"@), Cbor::Text(l@.role)),
        ]);
    }
    r
}

fn network_value(n: &PermissionValue) -> (r: CborValue)
    ensures
        r@ == network_cbor(n@),
{
    match n {
        PermissionValue::Bool(b) => CborValue::Bool(*b),
        PermissionValue::Patterns(p) => text_list_value(p),
    }
}

fn permissions_value(p: &PermissionSet) -> (r: CborValue)
    ensures
        r@ == permissions_cbor(p@),
{
    let entries = vec![
        (key("network"), network_value(&p.network)),
        (key("filesystem"), text_list_value(&p.filesystem)),
        (key("devices"), text_list_value(&p.devices)),
        (key("ipc"), text_list_value(&p.ipc)),
        (key("display"), text_value(&p.display)),
    ];
    let r = CborValue::Dict(entries);
    proof {
        lemma_container_view(r);
        assert(dict_view(entries@) =~= seq![
            (Cbor::Text("network"@), network_cbor(p@.network)),
            (Cbor::Text("filesystem"@), text_list_cbor(p@.filesystem)),
            (Cbor::Text("devices"@), text_list_cbor(p@.devices)),
            (Cbor::Text("ipc"@), text_list_cbor(p@.ipc)),
            (Cbor::Text("display"@), Cbor::Text(p@.display)),
        ]);
    }
    r
}

fn layers_value(ls: &Vec<LayerRef>) -> (r: CborValue)
    ensures
        r@ == Cbor::Array(
            Seq::new(ls@.len(), |i: int| layer_cbor(layer_views(ls@)[i])),
        ),
{
    let mut out: Vec<CborValue> = Vec::new();
    let mut i: usize = 0;
    while i < ls.len()
        invariant
            i <= ls@.len(),
            out@.len() == i,
            forall|j: int| 0 <= j < i ==> (#[trigger] out@[j])@ == layer_cbor(ls@[j]@),
        decreases ls@.len() - i,
    {
        out.push(layer_value(&ls[i]));
        i = i + 1;
    }
    let r = CborValue::Array(out);
    proof {
        lemma_container_view(r);
        assert(array_view(out@) =~= Seq::new(
            ls@.len(),
            |i: int| layer_cbor(layer_views(ls@)[i]),
        ));
    }
    r
}

impl BundleHeader {
    /// The CBOR record of this header (`offset` and `encoded_len` are not part
    /// of it).
    pub fn to_cbor(&self) -> (r: CborValue)
        ensures
            r@ == header_cbor(self@),
    {
        let signature = match &self.signature {
            Some(b) => bytes_value(b),
            None => CborValue::Null,
        };
        let sbom = match &self.sbom {
            Some(b) => bytes_value(b),
            None => CborValue::Null,
        };
        let url = match &self.update_url {
            Some(u) => text_value(u),
            None => CborValue::Null,
        };
        let boot = match self.bootstrap_size {
            Some(n) => CborValue::Integer(n as i128),
            None => CborValue::Null,
        };
        let entries = vec![
            (key("version"), CborValue::Integer(self.version as i128)),
            (key("app_id"), text_value(&self.app_id)),
            (key("app_version"), text_value(&self.app_version)),
            (key("entrypoint"), text_value(&self.entrypoint)),
            (key("layers"), layers_value(&self.layers)),
            (key("permissions"), permissions_value(&self.permissions)),
            (key("signature"), signature),
            (key("sbom"), sbom),
            (key("update_url"), url),
            (key("bootstrap_size"), boot),
        ];
        let r = CborValue::Dict(entries);
        proof {
            lemma_container_view(r);
            let h = self@;
            assert(dict_view(entries@) =~= match header_cbor(h) {
                Cbor::Dict(s) => s,
                _ => Seq::empty(),
            });
        }
        r
    }
}

} // verus!

verus! {

/// A key that is the text of `names[k]` is found at `k` when the names are
/// distinct.
proof fn lemma_key_found(names: Seq<Seq<char>>, k: int, from: int)
    requires
        0 <= from <= k < names.len(),
        forall|i: int, j: int| 0 <= i < j < names.len() ==> names[i] != names[j],
    ensures
        crate::cbor::key_index_from(Cbor::Text(names[k]), names, from) == Some(k),
    decreases k - from,
{
    if from < k {
        assert(names[from] != names[k]);
        lemma_key_found(names, k, from + 1);
    }
}

/// A record written with its fields in order, under distinct names, gives
/// each field its own entry.
proof fn lemma_record_slots(m: Seq<(Cbor, Cbor)>, names: Seq<Seq<char>>, n: int)
    requires
        m.len() == names.len(),
        0 <= n <= m.len(),
        forall|i: int| 0 <= i < m.len() ==> (#[trigger] m[i]).0 == Cbor::Text(names[i]),
        forall|i: int, j: int| 0 <= i < j < names.len() ==> names[i] != names[j],
    ensures
        field_slots(m, names, n) == Some(
            Seq::new(
                names.len(),
                |i: int|
                    if i < n {
                        Some(i)
                    } else {
                        None
                    },
            ),
        ),
    decreases n,
{
    if n > 0 {
        lemma_record_slots(m, names, n - 1);
        lemma_key_found(names, n - 1, 0);
        assert(m[n - 1].0 == Cbor::Text(names[n - 1]));
        let prev = Seq::new(
            names.len(),
            |i: int|
                if i < n - 1 {
                    Some(i)
                } else {
                    None
                },
        );
        assert(prev.update(n - 1, Some(n - 1)) =~= Seq::new(
            names.len(),
            |i: int|
                if i < n {
                    Some(i)
                } else {
                    None
                },
        ));
    }
}

proof fn lemma_text_list_roundtrip(l: Seq<Seq<char>>)
    ensures
        cbor_text_list(text_list_cbor(l)) == Some(l),
{
    let a = Seq::new(l.len(), |i: int| Cbor::Text(l[i]));
    assert(forall|i: int| 0 <= i < a.len() ==> (#[trigger] cbor_text(a[i])) == Some(l[i]));
    assert(Seq::new(a.len(), |i: int| cbor_text(a[i]).unwrap()) =~= l);
}

proof fn lemma_bytes_roundtrip(b: Seq<u8>)
    ensures
        cbor_byte_string(bytes_cbor(b)) == Some(b),
{
    let a = Seq::new(b.len(), |i: int| Cbor::Integer(b[i] as int));
    assert(forall|i: int| 0 <= i < a.len() ==> (#[trigger] cbor_uint(a[i], 255)) == Some(b[i] as int));
    assert(Seq::new(a.len(), |i: int| cbor_uint(a[i], 255).unwrap() as u8) =~= b);
}

proof fn lemma_layer_roundtrip(l: LayerRefView)
    ensures
        decode_layer(layer_cbor(l)) == Some(l),
{
    reveal_strlit("digest");
    reveal_strlit("size");
    reveal_strlit("role");
    let c = layer_cbor(l);
    let m = match c {
        Cbor::Dict(m) => m,
        _ => Seq::empty(),
    };
    assert forall|i: int, j: int| 0 <= i < j < 3 implies layer_field_names()[i] != layer_field_names()[j] by {
        if i == 0 && j == 1 {
            assert(layer_field_names()[0].len() != layer_field_names()[1].len());
        }
        if i == 0 && j == 2 {
            assert(layer_field_names()[0].len() != layer_field_names()[2].len());
        }
        if i == 1 && j == 2 {
            assert(layer_field_names()[1][0] != layer_field_names()[2][0]);
        }
    }
    lemma_record_slots(m, layer_field_names(), 3);
}

proof fn lemma_permissions_roundtrip(p: PermissionSetView)
    ensures
        decode_permissions(permissions_cbor(p)) == Some(p),
{
    reveal_strlit("network");
    reveal_strlit("filesystem");
    reveal_strlit("devices");
    reveal_strlit("ipc");
    reveal_strlit("display");
    let c = permissions_cbor(p);
    let m = match c {
        Cbor::Dict(m) => m,
        _ => Seq::empty(),
    };
    assert forall|i: int, j: int| 0 <= i < j < 5 implies permission_field_names()[i] != permission_field_names()[j] by {
        if i == 0 && j == 1 {
            assert(permission_field_names()[0].len() != permission_field_names()[1].len());
        }
        if i == 0 && j == 2 {
            assert(permission_field_names()[0][0] != permission_field_names()[2][0]);
        }
        if i == 0 && j == 3 {
            assert(permission_field_names()[0].len() != permission_field_names()[3].len());
        }
        if i == 0 && j == 4 {
            assert(permission_field_names()[0][0] != permission_field_names()[4][0]);
        }
        if i == 1 && j == 2 {
            assert(permission_field_names()[1].len() != permission_field_names()[2].len());
        }
        if i == 1 && j == 3 {
            assert(permission_field_names()[1].len() != permission_field_names()[3].len());
        }
        if i == 1 && j == 4 {
            assert(permission_field_names()[1].len() != permission_field_names()[4].len());
        }
        if i == 2 && j == 3 {
            assert(permission_field_names()[2].len() != permission_field_names()[3].len());
        }
        if i == 2 && j == 4 {
            assert(permission_field_names()[2][1] != permission_field_names()[4][1]);
        }
        if i == 3 && j == 4 {
            assert(permission_field_names()[3].len() != permission_field_names()[4].len());
        }
    }
    lemma_record_slots(m, permission_field_names(), 5);
    lemma_text_list_roundtrip(p.filesystem);
    lemma_text_list_roundtrip(p.devices);
    lemma_text_list_roundtrip(p.ipc);
    match p.network {
        PermissionValueView::Patterns(q) => lemma_text_list_roundtrip(q),
        _ => {},
    }
}

/// Decoding the CBOR record of a header gives the header back (without its
/// position in a file, which the record does not hold).
pub proof fn lemma_header_cbor_roundtrip(h: HeaderView)
    ensures
        decode_header(header_cbor(h)) == Some(HeaderView { offset: 0, encoded_len: 0, ..h }),
{
    reveal_strlit("version");
    reveal_strlit("app_id");
    reveal_strlit("app_version");
    reveal_strlit("entrypoint");
    reveal_strlit("layers");
    reveal_strlit("permissions");
    reveal_strlit("signature");
    reveal_strlit("sbom");
    reveal_strlit("update_url");
    reveal_strlit("bootstrap_size");
    let c = header_cbor(h);
    let m = match c {
        Cbor::Dict(m) => m,
        _ => Seq::empty(),
    };
    assert forall|i: int, j: int| 0 <= i < j < 10 implies header_field_names()[i] != header_field_names()[j] by {
        if i == 0 && j == 1 {
            assert(header_field_names()[0].len() != header_field_names()[1].len());
        }
        if i == 0 && j == 2 {
            assert(header_field_names()[0].len() != header_field_names()[2].len());
        }
        if i == 0 && j == 3 {
            assert(header_field_names()[0].len() != header_field_names()[3].len());
        }
        if i == 0 && j == 4 {
            assert(header_field_names()[0].len() != header_field_names()[4].len());
        }
        if i == 0 && j == 5 {
            assert(header_field_names()[0].len() != header_field_names()[5].len());
        }
        if i == 0 && j == 6 {
            assert(header_field_names()[0].len() != header_field_names()[6].len());
        }
        if i == 0 && j == 7 {
            assert(header_field_names()[0].len() != header_field_names()[7].len());
        }
        if i == 0 && j == 8 {
            assert(header_field_names()[0].len() != header_field_names()[8].len());
        }
        if i == 0 && j == 9 {
            assert(header_field_names()[0].len() != header_field_names()[9].len());
        }
        if i == 1 && j == 2 {
            assert(header_field_names()[1].len() != header_field_names()[2].len());
        }
        if i == 1 && j == 3 {
            assert(header_field_names()[1].len() != header_field_names()[3].len());
        }
        if i == 1 && j == 4 {
            assert(header_field_names()[1][0] != header_field_names()[4][0]);
        }
        if i == 1 && j == 5 {
            assert(header_field_names()[1].len() != header_field_names()[5].len());
        }
        if i == 1 && j == 6 {
            assert(header_field_names()[1].len() != header_field_names()[6].len());
        }
        if i == 1 && j == 7 {
            assert(header_field_names()[1].len() != header_field_names()[7].len());
        }
        if i == 1 && j == 8 {
            assert(header_field_names()[1].len() != header_field_names()[8].len());
        }
        if i == 1 && j == 9 {
            assert(header_field_names()[1].len() != header_field_names()[9].len());
        }
        if i == 2 && j == 3 {
            assert(header_field_names()[2].len() != header_field_names()[3].len());
        }
        if i == 2 && j == 4 {
            assert(header_field_names()[2].len() != header_field_names()[4].len());
        }
        if i == 2 && j == 5 {
            assert(header_field_names()[2][0] != header_field_names()[5][0]);
        }
        if i == 2 && j == 6 {
            assert(header_field_names()[2].len() != header_field_names()[6].len());
        }
        if i == 2 && j == 7 {
            assert(header_field_names()[2].len() != header_field_names()[7].len());
        }
        if i == 2 && j == 8 {
            assert(header_field_names()[2].len() != header_field_names()[8].len());
        }
        if i == 2 && j == 9 {
            assert(header_field_names()[2].len() != header_field_names()[9].len());
        }
        if i == 3 && j == 4 {
            assert(header_field_names()[3].len() != header_field_names()[4].len());
        }
        if i == 3 && j == 5 {
            assert(header_field_names()[3].len() != header_field_names()[5].len());
        }
        if i == 3 && j == 6 {
            assert(header_field_names()[3].len() != header_field_names()[6].len());
        }
        if i == 3 && j == 7 {
            assert(header_field_names()[3].len() != header_field_names()[7].len());
        }
        if i == 3 && j == 8 {
            assert(header_field_names()[3][0] != header_field_names()[8][0]);
        }
        if i == 3 && j == 9 {
            assert(header_field_names()[3].len() != header_field_names()[9].len());
        }
        if i == 4 && j == 5 {
            assert(header_field_names()[4].len() != header_field_names()[5].len());
        }
        if i == 4 && j == 6 {
            assert(header_field_names()[4].len() != header_field_names()[6].len());
        }
        if i == 4 && j == 7 {
            assert(header_field_names()[4].len() != header_field_names()[7].len());
        }
        if i == 4 && j == 8 {
            assert(header_field_names()[4].len() != header_field_names()[8].len());
        }
        if i == 4 && j == 9 {
            assert(header_field_names()[4].len() != header_field_names()[9].len());
        }
        if i == 5 && j == 6 {
            assert(header_field_names()[5].len() != header_field_names()[6].len());
        }
        if i == 5 && j == 7 {
            assert(header_field_names()[5].len() != header_field_names()[7].len());
        }
        if i == 5 && j == 8 {
            assert(header_field_names()[5].len() != header_field_names()[8].len());
        }
        if i == 5 && j == 9 {
            assert(header_field_names()[5].len() != header_field_names()[9].len());
        }
        if i == 6 && j == 7 {
            assert(header_field_names()[6].len() != header_field_names()[7].len());
        }
        if i == 6 && j == 8 {
            assert(header_field_names()[6].len() != header_field_names()[8].len());
        }
        if i == 6 && j == 9 {
            assert(header_field_names()[6].len() != header_field_names()[9].len());
        }
        if i == 7 && j == 8 {
            assert(header_field_names()[7].len() != header_field_names()[8].len());
        }
        if i == 7 && j == 9 {
            assert(header_field_names()[7].len() != header_field_names()[9].len());
        }
        if i == 8 && j == 9 {
            assert(header_field_names()[8].len() != header_field_names()[9].len());
        }
    }
    lemma_record_slots(m, header_field_names(), 10);
    let la = Seq::new(h.layers.len(), |i: int| layer_cbor(h.layers[i]));
    assert forall|i: int| 0 <= i < la.len() implies #[trigger] decode_layer(la[i]) == Some(
        h.layers[i],
    ) by {
        lemma_layer_roundtrip(h.layers[i]);
    }
    assert(Seq::new(la.len(), |i: int| decode_layer(la[i]).unwrap()) =~= h.layers);
    lemma_permissions_roundtrip(h.permissions);
    match h.signature {
        Some(b) => lemma_bytes_roundtrip(b),
        None => {},
    }
    match h.sbom {
        Some(b) => lemma_bytes_roundtrip(b),
        None => {},
    }
}

} // verus!

verus! {

/// The four bytes `NX01` that introduce a header.
pub open spec fn header_magic() -> Seq<u8> {
    seq![0x4eu8, 0x58u8, 0x30u8, 0x31u8]
}

/// `data` holds the header magic at `i`.
pub open spec fn magic_at(data: Seq<u8>, i: int) -> bool {
    0 <= i && i + 4 <= data.len() && data.subrange(i, i + 4) == header_magic()
}

/// The first position at or after `from` where the header magic occurs.
pub open spec fn first_magic_from(data: Seq<u8>, from: int) -> Option<int>
    decreases data.len() - from,
{
    if from < 0 || from + 4 > data.len() {
        None
    } else if magic_at(data, from) {
        Some(from)
    } else {
        first_magic_from(data, from + 1)
    }
}

/// The first magic found is a magic, and no earlier one exists.
pub proof fn lemma_first_magic(data: Seq<u8>, from: int)
    requires
        0 <= from,
    ensures
        first_magic_from(data, from) matches Some(p) ==> from <= p && magic_at(data, p) && forall|
            j: int,
        | from <= j < p ==> !magic_at(data, j),
        first_magic_from(data, from) is None ==> forall|j: int| from <= j ==> !magic_at(data, j),
    decreases data.len() - from,
{
    if from + 4 <= data.len() && !magic_at(data, from) {
        lemma_first_magic(data, from + 1);
    }
}

/// The header that `data` holds: found at the first magic, decoded from the
/// CBOR item right after it, and placed at that magic; `encoded_len` counts
/// the magic and the item.
pub open spec fn parsed_header(data: Seq<u8>) -> Option<HeaderView> {
    match first_magic_from(data, 0) {
        None => None,
        Some(p) => match cbor_decoding(data.skip(p + 4)) {
            Err(_) => None,
            Ok((c, n)) => match decode_header(c) {
                None => None,
                Some(h) => Some(HeaderView { offset: p as u64, encoded_len: (n + 4) as u64, ..h }),
            },
        },
    }
}

/// A header's CBOR record is plain: no float, no tag, only integers below
/// 2^64, nested three deep.
proof fn lemma_header_cbor_plain(h: HeaderView)
    ensures
        cbor_plain(header_cbor(h), 64),
{
    let hd = header_cbor(h)->Dict_0;
    let lc = hd[4].1->Array_0;
    assert forall|i: int| 0 <= i < lc.len() implies cbor_plain(#[trigger] lc[i], 62) by {
        let d = lc[i]->Dict_0;
        assert forall|j: int| 0 <= j < d.len() implies cbor_plain(#[trigger] d[j].0, 61)
            && cbor_plain(d[j].1, 61) by {
            assert(j == 0 || j == 1 || j == 2);
        }
    }
    assert forall|l: Seq<Seq<char>>| true implies #[trigger] cbor_plain(text_list_cbor(l), 62) by {
        let a = text_list_cbor(l)->Array_0;
        assert forall|i: int| 0 <= i < a.len() implies cbor_plain(#[trigger] a[i], 61) by {}
    }
    assert forall|b: Seq<u8>| true implies #[trigger] cbor_plain(bytes_cbor(b), 63) by {
        let a = bytes_cbor(b)->Array_0;
        assert forall|i: int| 0 <= i < a.len() implies cbor_plain(#[trigger] a[i], 62) by {}
    }
    let p = h.permissions;
    assert(cbor_plain(network_cbor(p.network), 62));
    let pd = permissions_cbor(p)->Dict_0;
    assert forall|j: int| 0 <= j < pd.len() implies cbor_plain(#[trigger] pd[j].0, 62)
        && cbor_plain(pd[j].1, 62) by {
        assert(0 <= j <= 4);
    }
    assert forall|j: int| 0 <= j < hd.len() implies cbor_plain(#[trigger] hd[j].0, 63)
        && cbor_plain(hd[j].1, 63) by {
        assert(0 <= j <= 9);
    }
}

/// The first magic from `from` is at `p` when `p` holds one and none comes
/// before it.
proof fn lemma_first_magic_is(data: Seq<u8>, from: int, p: int)
    requires
        0 <= from <= p,
        magic_at(data, p),
        forall|j: int| from <= j < p ==> !magic_at(data, j),
    ensures
        first_magic_from(data, from) == Some(p),
    decreases p - from,
{
    if from < p {
        lemma_first_magic_is(data, from + 1, p);
    }
}

/// Bytes that start with the magic, after bytes that hold none: the first
/// magic is where they start.
proof fn lemma_magic_after(stub: Seq<u8>, tail: Seq<u8>)
    requires
        first_magic_from(stub, 0) is None,
        tail.len() >= 4,
        tail.subrange(0, 4) == header_magic(),
    ensures
        first_magic_from(stub + tail, 0) == Some(stub.len() as int),
{
    let data = stub + tail;
    let n = stub.len() as int;
    lemma_first_magic(stub, 0);
    assert(data.subrange(n, n + 4) =~= tail.subrange(0, 4));
    assert(tail[0] == 0x4eu8) by {
        assert(tail.subrange(0, 4)[0] == tail[0]);
    }
    assert forall|j: int| 0 <= j < n implies !magic_at(data, j) by {
        if j + 4 <= n {
            assert(data.subrange(j, j + 4) =~= stub.subrange(j, j + 4));
            assert(!magic_at(stub, j));
        } else if magic_at(data, j) {
            let w = data.subrange(j, j + 4);
            let k = n - j;
            assert(1 <= k <= 3);
            assert(w[k] == data[n]);
            assert(data[n] == tail[0]);
            assert(w[k] == header_magic()[k]);
            assert(header_magic()[1] == 0x58u8);
            assert(header_magic()[2] == 0x30u8);
            assert(header_magic()[3] == 0x31u8);
        }
    }
    lemma_first_magic_is(data, 0, n);
}

/// `bytes` parse back to the header `h` wherever they are placed: after any
/// bytes that hold no magic, and before anything.
pub open spec fn reads_back(h: HeaderView, bytes: Seq<u8>) -> bool {
    forall|stub: Seq<u8>, rest: Seq<u8>|
        first_magic_from(stub, 0) is None && stub.len() <= u64::MAX ==> #[trigger] parsed_header(
            stub + bytes + rest,
        ) == Some(HeaderView { offset: stub.len() as u64, encoded_len: bytes.len() as u64, ..h })
}

/// The bytes that a header encodes to: the magic followed by the CBOR item of
/// its record, when `ciborium` writes it.
pub open spec fn encoded_header(h: HeaderView) -> Option<Seq<u8>> {
    match cbor_encoding(header_cbor(h)) {
        Some(b) => Some(header_magic() + b),
        None => None,
    }
}

/// The position of the first header magic in `data`.
pub fn find_magic(data: &[u8]) -> (r: Option<usize>)
    ensures
        r matches Some(i) ==> first_magic_from(data@, 0) == Some(i as int),
        r is None ==> first_magic_from(data@, 0) is None,
{
    if data.len() < 4 {
        return None;
    }
    let mut i: usize = 0;
    while i <= data.len() - 4
        invariant
            data@.len() >= 4,
            i <= data@.len() - 3,
            first_magic_from(data@, 0) == first_magic_from(data@, i as int),
        decreases data@.len() - i,
    {
        if data[i] == 0x4e && data[i + 1] == 0x58 && data[i + 2] == 0x30 && data[i + 3] == 0x31 {
            assert(data@.subrange(i as int, i + 4) =~= header_magic());
            return Some(i);
        }
        assert(!magic_at(data@, i as int)) by {
            if magic_at(data@, i as int) {
                assert(data@.subrange(i as int, i + 4)[0] == data@[i as int]);
                assert(data@.subrange(i as int, i + 4)[1] == data@[i + 1]);
                assert(data@.subrange(i as int, i + 4)[2] == data@[i + 2]);
                assert(data@.subrange(i as int, i + 4)[3] == data@[i + 3]);
            }
        }
        i = i + 1;
    }
    None
}

impl BundleHeader {
    /// Finds and decodes the header in a bundle file.
    ///
    /// Fails with `InvalidFormat("NX01 magic not found")` when there is no
    /// magic, and with a `Cbor` error when what follows the first magic is not
    /// a CBOR item or not a header record.
    pub fn parse(data: &[u8]) -> (r: crate::error::Result<BundleHeader>)
        ensures
            r is Ok <==> parsed_header(data@) is Some,
            r matches Ok(h) ==> parsed_header(data@) == Some(h@),
            first_magic_from(data@, 0) is None ==> crate::error::is_invalid_format(
                r->Err_0,
                "NX01 magic not found"@,
            ),
            first_magic_from(data@, 0) is Some && r is Err ==> r->Err_0 is Cbor,
            r matches Ok(h) ==> h.offset + h.encoded_len <= data@.len(),
            (first_magic_from(data@, 0) matches Some(p) && cbor_decoding(data@.skip(p + 4)) matches Ok(
                (c, n),
            ) && decode_header(c) is None) ==> (r matches Err(crate::error::Error::Cbor(m))
                && m@ == "bundle header does not match its schema"@),
            first_magic_from(data@, 0) matches Some(p) ==> (cbor_decoding(data@.skip(p + 4)) matches Err(
                t,
            ) ==> (r matches Err(crate::error::Error::Cbor(m)) && m@ == t)),
    {
        let p = match find_magic(data) {
            Some(p) => p,
            None => {
                return Err(crate::error::Error::InvalidFormat(crate::error::text("NX01 magic not found")));
            },
        };
        proof {
            lemma_first_magic(data@, 0);
            assert(magic_at(data@, p as int));
        }
        let end = data.len();
        assert(p + 4 <= end);
        let start = p + 4;
        let rest = vstd::slice::slice_subrange(data, start, end);
        assert(rest@ =~= data@.skip(p + 4));
        match cbor_read(rest) {
            Err(e) => Err(crate::error::Error::Cbor(e)),
            Ok((v, n)) => match BundleHeader::from_cbor(&v) {
                None => Err(crate::error::Error::Cbor(crate::error::text("bundle header does not match its schema"))),
                Some(h) => {
                    let mut h = h;
                    h.offset = p as u64;
                    h.encoded_len = n as u64 + 4;
                    Ok(h)
                },
            },
        }
    }

    /// The header's encoding: the magic followed by its CBOR record.
    ///
    /// Placed after any bytes that hold no magic and followed by anything,
    /// the encoding parses back to this header, at the place where it was put.
    pub fn encode(&self) -> (r: crate::error::Result<Vec<u8>>)
        ensures
            r matches Ok(b) ==> encoded_header(self@) == Some(b@),
            r matches Ok(b) ==> reads_back(self@, b@),
            r is Err ==> encoded_header(self@) is None && r->Err_0 is InvalidFormat,
    {
        let v = self.to_cbor();
        proof {
            lemma_header_cbor_plain(self@);
            lemma_plain_writable(v@, 64);
        }
        match cbor_write(&v) {
            Ok(b) => {
                let mut out: Vec<u8> = vec![0x4eu8, 0x58u8, 0x30u8, 0x31u8];
                crate::bytes::append_bytes(&mut out, b.as_slice());
                assert(out@ =~= header_magic() + b@);
                proof {
                    lemma_header_cbor_roundtrip(self@);
                    assert forall|stub: Seq<u8>, rest: Seq<u8>|
                        first_magic_from(stub, 0) is None && stub.len() <= u64::MAX implies #[trigger] parsed_header(
                        stub + out@ + rest,
                    ) == Some(
                        HeaderView { offset: stub.len() as u64, encoded_len: out@.len() as u64, ..self@ },
                    ) by {
                        let data = stub + out@ + rest;
                        let tail = out@ + rest;
                        assert(data =~= stub + tail);
                        assert(tail.subrange(0, 4) =~= header_magic());
                        lemma_magic_after(stub, tail);
                        assert(data.skip(stub.len() as int + 4) =~= b@ + rest);
                    }
                }
                Ok(out)
            },
            Err(e) => {
                let mut m = crate::error::text("CBOR encode: ");
                m.append(e.as_str());
                Err(crate::error::Error::InvalidFormat(m))
            },
        }
    }
}

} // verus!

verus! {

/// A copy of a list of layer references.
pub fn copy_layers(ls: &Vec<LayerRef>) -> (r: Vec<LayerRef>)
    ensures
        layer_views(r@) == layer_views(ls@),
{
    let mut r: Vec<LayerRef> = Vec::new();
    let mut i: usize = 0;
    while i < ls.len()
        invariant
            i <= ls@.len(),
            r@.len() == i,
            forall|j: int| 0 <= j < i ==> (#[trigger] r@[j])@ == ls@[j]@,
        decreases ls@.len() - i,
    {
        r.push(ls[i].copied());
        i = i + 1;
    }
    assert(layer_views(r@) =~= layer_views(ls@));
    r
}

fn copy_bytes(o: &Option<Vec<u8>>) -> (r: Option<Vec<u8>>)
    ensures
        opt_bytes_view(r) == opt_bytes_view(*o),
{
    match o {
        Some(b) => Some(b.clone()),
        None => None,
    }
}

impl BundleHeader {
    /// A copy of this header.
    pub fn copied(&self) -> (r: BundleHeader)
        ensures
            r@ == self@,
    {
        BundleHeader {
            version: self.version,
            app_id: self.app_id.clone(),
            app_version: self.app_version.clone(),
            entrypoint: self.entrypoint.clone(),
            layers: copy_layers(&self.layers),
            permissions: self.permissions.copied(),
            signature: copy_bytes(&self.signature),
            sbom: copy_bytes(&self.sbom),
            update_url: match &self.update_url {
                Some(u) => Some(u.clone()),
                None => None,
            },
            bootstrap_size: self.bootstrap_size,
            offset: self.offset,
            encoded_len: self.encoded_len,
        }
    }
}

} // verus!
