use nexpack::bundle::{make_bootstrap_data, make_bootstrap_trailer, parse_bootstrap_entries, BootstrapEntry, Bundle};
use nexpack::header::BundleHeader;
use nexpack::layer::LayerRef;
use nexpack::pack::{assemble_bundle, make_layer_ref, rewrite_bundle, with_signature};
use nexpack::permission::PermissionSet;
use nexpack::Error;

fn header_with(layers: Vec<LayerRef>) -> BundleHeader {
    BundleHeader {
        version: 1,
        app_id: "com.example.demo".to_string(),
        app_version: "1.2.3".to_string(),
        entrypoint: "/usr/bin/demo".to_string(),
        layers,
        permissions: PermissionSet::default_sandboxed(),
        signature: None,
        sbom: None,
        update_url: Some("https://example.com/feed.json".to_string()),
        bootstrap_size: None,
        offset: 0,
        encoded_len: 0,
    }
}

fn packed(stub: &[u8], layer_data: &[Vec<u8>], boot: Option<&[u8]>) -> (BundleHeader, Vec<u8>) {
    let layers: Vec<LayerRef> = layer_data.iter().map(|d| make_layer_ref(d, "app")).collect();
    let mut header = header_with(layers);
    header.bootstrap_size = boot.map(|b| b.len() as u64);
    let header_bytes = header.encode().unwrap();
    let file = assemble_bundle(stub, &header_bytes, &layer_data.to_vec(), boot);
    (header, file)
}

#[test]
fn trailer_reads_back() {
    let mut file = vec![1u8, 2, 3];
    file.extend_from_slice(&make_bootstrap_trailer(1234, 99));
    assert_eq!(Bundle::read_trailer(&file), Some((1234, 99)));
}

#[test]
fn trailer_layout_is_magic_offset_size() {
    let t = make_bootstrap_trailer(0x0102, 7);
    assert_eq!(t.len(), 20);
    assert_eq!(&t[0..4], b"NXBT");
    assert_eq!(&t[4..12], &[2, 1, 0, 0, 0, 0, 0, 0]);
    assert_eq!(&t[12..20], &[7, 0, 0, 0, 0, 0, 0, 0]);
}

#[test]
fn short_or_unmarked_data_has_no_trailer() {
    assert_eq!(Bundle::read_trailer(&[0u8; 19]), None);
    assert_eq!(Bundle::read_trailer(&[0u8; 40]), None);
}

#[test]
fn header_parses_back_after_any_stub_and_before_any_tail() {
    let header = header_with(vec![make_layer_ref(b"layer zero", "runtime")]);
    let bytes = header.encode().unwrap();
    let mut file = b"stubNX0".to_vec();
    file.extend_from_slice(&bytes);
    file.extend_from_slice(b"NX01 more bytes after the header");
    let back = BundleHeader::parse(&file).unwrap();
    assert_eq!(back.offset, 7);
    assert_eq!(back.encoded_len as usize, bytes.len());
    assert_eq!(back.app_id, header.app_id);
    assert_eq!(back.layers[0].digest, header.layers[0].digest);
}

#[test]
fn header_encodes_with_magic_and_parses_back() {
    let header = header_with(vec![make_layer_ref(b"layer zero", "runtime")]);
    let bytes = header.encode().unwrap();
    assert_eq!(&bytes[0..4], b"NX01");
    let mut file = b"#!stub".to_vec();
    file.extend_from_slice(&bytes);
    let back = BundleHeader::parse(&file).unwrap();
    assert_eq!(back.offset, 6);
    assert_eq!(back.encoded_len as usize, bytes.len());
    assert_eq!(back.app_id, "com.example.demo");
    assert_eq!(back.app_version, "1.2.3");
    assert_eq!(back.entrypoint, "/usr/bin/demo");
    assert_eq!(back.layers.len(), 1);
    assert_eq!(back.layers[0].digest, header.layers[0].digest);
    assert_eq!(back.layers[0].size, 10);
    assert_eq!(back.layers[0].role, "runtime");
    assert_eq!(back.permissions.display, "wayland");
    assert_eq!(back.permissions.ipc, vec!["wayland".to_string(), "dbus-session".to_string()]);
    assert_eq!(back.update_url.as_deref(), Some("https://example.com/feed.json"));
    assert!(back.signature.is_none());
}

#[test]
fn missing_magic_is_invalid_format() {
    match BundleHeader::parse(b"no header here") {
        Err(Error::InvalidFormat(m)) => assert_eq!(m, "NX01 magic not found"),
        _ => panic!("expected InvalidFormat"),
    }
}

#[test]
fn garbage_after_magic_is_a_cbor_error() {
    let data = b"xxNX01\xff\xff".to_vec();
    assert!(matches!(BundleHeader::parse(&data), Err(Error::Cbor(_))));
}

#[test]
fn packed_layers_read_back() {
    let stub = b"\x7fELF-stub".to_vec();
    let layers = vec![b"first layer".to_vec(), b"second".to_vec(), Vec::new()];
    let (_, file) = packed(&stub, &layers, None);
    let bundle = Bundle::parse(file).unwrap();
    assert_eq!(bundle.header_offset(), stub.len() as u64);
    for (i, data) in layers.iter().enumerate() {
        assert_eq!(bundle.extract_layer(i).unwrap(), &data[..]);
    }
    assert_eq!(bundle.layers_end(), bundle.data.len());
}

#[test]
fn layer_index_out_of_range() {
    let (_, file) = packed(b"stub", &[b"abc".to_vec()], None);
    let bundle = Bundle::parse(file).unwrap();
    match bundle.extract_layer(1) {
        Err(Error::IndexOutOfRange { what, index, max }) => {
            assert_eq!(what, "layer index");
            assert_eq!(index, 1);
            assert_eq!(max, 1);
        }
        _ => panic!("expected IndexOutOfRange"),
    }
}

#[test]
fn truncated_layer_is_reported_with_its_place() {
    let (_, mut file) = packed(b"stub", &[b"abcdef".to_vec()], None);
    file.truncate(file.len() - 2);
    let bundle = Bundle::parse(file).unwrap();
    let offset = bundle.layers_offset();
    match bundle.extract_layer(0) {
        Err(Error::InvalidFormat(m)) => {
            assert_eq!(m, format!("layer 0 exceeds bundle bounds (offset {}, size 6)", offset))
        }
        _ => panic!("expected InvalidFormat"),
    }
}

#[test]
fn bootstrap_block_round_trips() {
    let entries = vec![
        BootstrapEntry { name: "nexpackd".to_string(), data: vec![1, 2, 3] },
        BootstrapEntry { name: "nxpk".to_string(), data: vec![] },
    ];
    let block = make_bootstrap_data(&entries);
    assert_eq!(&block[0..4], &[2, 0, 0, 0]);
    let back = parse_bootstrap_entries(&block).unwrap();
    assert_eq!(back.len(), 2);
    assert_eq!(back[0].name, "nexpackd");
    assert_eq!(back[0].data, vec![1, 2, 3]);
    assert_eq!(back[1].name, "nxpk");
    assert!(back[1].data.is_empty());
}

#[test]
fn bootstrap_errors_name_the_truncated_field() {
    let cases: Vec<(Vec<u8>, &str)> = vec![
        (vec![1, 0], "bootstrap data too short"),
        (vec![1, 0, 0, 0, 5], "bootstrap entry name_len truncated"),
        (vec![1, 0, 0, 0, 3, 0, b'a'], "bootstrap entry name truncated"),
        (vec![1, 0, 0, 0, 1, 0, b'a', 9, 0], "bootstrap entry data_len truncated"),
        (vec![1, 0, 0, 0, 1, 0, b'a', 9, 0, 0, 0, 1], "bootstrap entry data truncated"),
    ];
    for (data, msg) in cases {
        match parse_bootstrap_entries(&data) {
            Err(Error::InvalidFormat(m)) => assert_eq!(m, msg),
            _ => panic!("expected InvalidFormat for {}", msg),
        }
    }
}

#[test]
fn bundle_with_bootstrap_exposes_block_and_trailer() {
    let entries = vec![BootstrapEntry { name: "nxpk".to_string(), data: vec![9, 9] }];
    let block = make_bootstrap_data(&entries);
    let (_, file) = packed(b"stub!", &[b"layer".to_vec()], Some(&block));
    let bundle = Bundle::parse(file.clone()).unwrap();
    assert!(bundle.has_bootstrap());
    let start = bundle.bootstrap_offset().unwrap();
    assert_eq!(bundle.bootstrap_data().unwrap(), &block[..]);
    assert_eq!(Bundle::read_trailer(&file), Some((start as u64, block.len() as u64)));
    let back = bundle.extract_bootstrap().unwrap();
    assert_eq!(back[0].name, "nxpk");
    assert_eq!(back[0].data, vec![9, 9]);
}

#[test]
fn bundle_without_bootstrap_refuses_extraction() {
    let (_, file) = packed(b"stub", &[b"x".to_vec()], None);
    let bundle = Bundle::parse(file).unwrap();
    assert!(!bundle.has_bootstrap());
    assert_eq!(bundle.bootstrap_offset(), None);
    match bundle.extract_bootstrap() {
        Err(Error::InvalidFormat(m)) => assert_eq!(m, "no bootstrap data in bundle"),
        _ => panic!("expected InvalidFormat"),
    }
}

#[test]
fn rewriting_with_a_signature_keeps_layers() {
    let layers = vec![b"one".to_vec(), b"two two".to_vec()];
    let (_, file) = packed(b"STUB", &layers, None);
    let bundle = Bundle::parse(file).unwrap();
    let signed = with_signature(&bundle.header, b"{\"sig\":1}".to_vec());
    let header_bytes = signed.encode().unwrap();
    let out = rewrite_bundle(&bundle, &header_bytes).unwrap();
    assert_eq!(&out[0..4], b"STUB");
    let again = Bundle::parse(out).unwrap();
    assert_eq!(again.header.signature.as_deref(), Some(&b"{\"sig\":1}"[..]));
    assert_eq!(again.extract_layer(0).unwrap(), b"one");
    assert_eq!(again.extract_layer(1).unwrap(), b"two two");
}

#[test]
fn rewriting_with_a_signature_keeps_the_bootstrap_block() {
    let entries = vec![BootstrapEntry { name: "nxpk".to_string(), data: vec![7, 8, 9] }];
    let block = make_bootstrap_data(&entries);
    let (_, file) = packed(b"STUB", &[b"one".to_vec()], Some(&block));
    let bundle = Bundle::parse(file).unwrap();
    let signed = with_signature(&bundle.header, b"{\"sig\":1}".to_vec());
    let header_bytes = signed.encode().unwrap();
    let out = rewrite_bundle(&bundle, &header_bytes).unwrap();
    let again = Bundle::parse(out).unwrap();
    let got = again.extract_bootstrap().unwrap();
    assert_eq!(got.len(), 1);
    assert_eq!(got[0].name, "nxpk");
    assert_eq!(got[0].data, vec![7, 8, 9]);
    let end = again.layers_end() as u64;
    assert_eq!(Bundle::read_trailer(&again.data), Some((end, block.len() as u64)));
}

#[test]
fn rewriting_a_cut_bundle_fails_on_the_cut_layer() {
    let (_, mut file) = packed(b"STUB", &[b"one".to_vec(), b"two".to_vec()], None);
    file.truncate(file.len() - 1);
    let bundle = Bundle::parse(file).unwrap();
    let header_bytes = bundle.header.encode().unwrap();
    match rewrite_bundle(&bundle, &header_bytes) {
        Err(Error::InvalidFormat(m)) => assert!(m.starts_with("layer 1 exceeds bundle bounds")),
        _ => panic!("expected InvalidFormat"),
    }
}

#[test]
fn layout_overflow_is_detected() {
    let mut header = header_with(vec![make_layer_ref(b"a", "app")]);
    header.layers[0].size = u64::MAX;
    header.offset = 10;
    let bundle = Bundle { header, data: vec![0; 20] };
    assert!(!bundle.layout_fits());
}

#[test]
fn packed_bundle_passes_layer_verification() {
    let (_, file) = packed(b"stub", &[b"alpha".to_vec(), b"beta".to_vec()], None);
    let bundle = Bundle::parse(file).unwrap();
    assert!(nexpack::verify::Verifier::verify_layers(&bundle).is_ok());
}

#[test]
fn verification_names_the_first_bad_layer() {
    let (_, file) = packed(b"stub", &[b"alpha".to_vec(), b"beta".to_vec()], None);
    let mut bundle = Bundle::parse(file).unwrap();
    let n = bundle.data.len();
    bundle.data[n - 1] ^= 1;
    match nexpack::verify::Verifier::verify_layers(&bundle) {
        Err(Error::DigestMismatch { expected, actual }) => {
            assert_eq!(expected, bundle.header.layers[1].digest_hex());
            assert_eq!(actual, nexpack::verify::Verifier::blake3_hex(b"bet`"));
        }
        _ => panic!("expected DigestMismatch"),
    }
    bundle.data.truncate(n - 1);
    match nexpack::verify::Verifier::verify_layers(&bundle) {
        Err(Error::InvalidFormat(m)) => assert!(m.starts_with("layer 1 exceeds bundle bounds")),
        _ => panic!("expected InvalidFormat"),
    }
}

#[test]
fn digest_bytes_decode_the_hex() {
    let l = make_layer_ref(b"abc", "app");
    let bytes = l.digest_bytes().unwrap();
    assert_eq!(bytes[0], 0x64);
    assert_eq!(bytes[31], 0x85);
    let bad = LayerRef { digest: "sha256:00".to_string(), size: 0, role: String::new() };
    assert_eq!(bad.digest_bytes(), Err("digest missing blake3: prefix: sha256:00".to_string()));
    let short = LayerRef { digest: "blake3:abcd".to_string(), size: 0, role: String::new() };
    assert!(short.digest_bytes().is_err());
}

#[test]
fn bootstrap_names_are_read_lossily() {
    let data = vec![1, 0, 0, 0, 2, 0, b'a', 0xff, 0, 0, 0, 0];
    let back = parse_bootstrap_entries(&data).unwrap();
    assert_eq!(back[0].name, "a\u{FFFD}");
}

#[test]
fn malformed_signature_json_is_reported() {
    let (_, file) = packed(b"stub", &[b"alpha".to_vec()], None);
    let mut bundle = Bundle::parse(file).unwrap();
    bundle.header.signature = Some(b"not json".to_vec());
    match nexpack::signing::verify_signature_opt(&bundle, true) {
        Err(Error::SignatureVerification(m)) => assert!(m.starts_with("invalid signature JSON: ")),
        _ => panic!("expected SignatureVerification"),
    }
}

#[test]
fn store_reports_layers_it_holds() {
    let store = nexpack::store::Store::open("/st".to_string());
    let host = nexpack::host::HostEnv {
        vars: Vec::new(),
        existing: vec!["/st/layers/blake3-aa/image.erofs".to_string()],
    };
    assert!(store.has_layer("aa", &host));
    assert!(!store.has_layer("bb", &host));
}

#[test]
fn artifact_covers_unsigned_header_and_digests() {
    let (_, file) = packed(b"stub", &[b"alpha".to_vec()], None);
    let bundle = Bundle::parse(file).unwrap();
    let a = nexpack::signing::artifact_bytes(&bundle).unwrap();
    let mut signed = bundle.header.clone();
    signed.signature = Some(vec![1, 2, 3]);
    let b = Bundle { header: signed, data: bundle.data.clone() };
    assert_eq!(nexpack::signing::artifact_bytes(&b).unwrap(), a);
    assert!(a.ends_with(bundle.header.layers[0].digest.as_bytes()));
    assert_eq!(&a[0..4], b"NX01");
}
