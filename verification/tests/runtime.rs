use nexpack::daemon::{
    config_path, lowerdir_option, overlay_mount_options, overlay_plan, rootfs_dirs, socket_path, DaemonConfig,
    MountTable, ReleaseOutcome,
};
use nexpack::header::BundleHeader;
use nexpack::host::HostEnv;
use nexpack::layer::LayerRef;
use nexpack::order::{sort_app_ids, sort_texts};
use nexpack::permission::PermissionSet;
use nexpack::sbom::{generate_sbom, verify_sbom_data};
use nexpack::signing::{wildmatch, TrustConfig, TrustPolicyEntry};
use nexpack::store::{app_current_target, gc_root_target, layers_to_collect, nexpack_bin_dir, Store};
use nexpack::update::{check_download, plan_update, updated_header, LayerInfo, ReleaseInfo, UpdateDecision, UpdateFeed};
use nexpack::verify::Verifier;
use nexpack::Error;

fn env(vars: &[(&str, &str)]) -> HostEnv {
    HostEnv { vars: vars.iter().map(|(k, v)| (k.to_string(), v.to_string())).collect(), existing: Vec::new() }
}

fn strs(v: &[&str]) -> Vec<String> {
    v.iter().map(|s| s.to_string()).collect()
}

fn layer(hex: &str) -> LayerRef {
    LayerRef { digest: format!("blake3:{}", hex), size: 1, role: "app".to_string() }
}

fn header(version: &str, layers: Vec<LayerRef>) -> BundleHeader {
    BundleHeader {
        version: 1,
        app_id: "org.example.tool".to_string(),
        app_version: version.to_string(),
        entrypoint: "/bin/tool".to_string(),
        layers,
        permissions: PermissionSet::default_sandboxed(),
        signature: Some(vec![1]),
        sbom: None,
        update_url: Some("https://u".to_string()),
        bootstrap_size: None,
        offset: 3,
        encoded_len: 4,
    }
}

#[test]
fn mount_then_release_restores_the_count() {
    let mut t = MountTable::new();
    t.register("a", "/run/a", 10);
    t.register("a", "/ignored", 20);
    t.register("b", "/run/b", 30);
    assert!(matches!(t.release("a", 40), ReleaseOutcome::StillInUse(1)));
    match t.release("a", 50) {
        ReleaseOutcome::Unmount(root) => assert_eq!(root, "/run/a"),
        _ => panic!("expected Unmount"),
    }
    assert!(matches!(t.release("zzz", 60), ReleaseOutcome::NotMounted));
    let mut listed = t.list();
    listed.sort();
    assert_eq!(listed, vec![("a".to_string(), "/run/a".to_string()), ("b".to_string(), "/run/b".to_string())]);
    t.forget("a");
    assert_eq!(t.list(), vec![("b".to_string(), "/run/b".to_string())]);
}

#[test]
fn only_unused_mounts_go_idle() {
    let mut t = MountTable::new();
    t.register("a", "/ra", 100);
    t.register("b", "/rb", 100);
    let _ = t.release("a", 200);
    assert_eq!(t.idle_ids(250, 100), Vec::<String>::new());
    assert_eq!(t.idle_ids(300, 100), strs(&["a"]));
    assert_eq!(t.idle_ids(50, 0), strs(&["a"]));
}

#[test]
fn daemon_paths_and_defaults() {
    assert_eq!(socket_path(&env(&[("XDG_RUNTIME_DIR", "/run/user/1")])).as_str(), "/run/user/1/nexpack.sock");
    assert_eq!(socket_path(&env(&[])).as_str(), "/tmp/nexpack.sock");
    assert_eq!(config_path(&env(&[("HOME", "/h")])).as_str(), "/h/.config/nexpack/daemon.toml");
    assert_eq!(config_path(&env(&[("XDG_CONFIG_HOME", "/c")])).as_str(), "/c/nexpack/daemon.toml");
    assert_eq!(config_path(&env(&[])).as_str(), "nexpack/daemon.toml");
    let none = DaemonConfig { idle_timeout: None, update_interval: None };
    assert_eq!(none.idle_timeout_secs(), 300);
    assert_eq!(none.update_interval_secs(), 3600);
    let set = DaemonConfig { idle_timeout: Some(5), update_interval: Some(6) };
    assert_eq!((set.idle_timeout_secs(), set.update_interval_secs()), (5, 6));
}

#[test]
fn overlay_layout_of_an_app() {
    let store = Store::open("/s".to_string());
    let h = header("1", vec![layer("aa"), layer("bb")]);
    let plan = overlay_plan("org.x", &h, &store, &env(&[("XDG_RUNTIME_DIR", "/r")]));
    assert_eq!(plan.lower_dirs, strs(&["/s/layers/blake3-aa/mnt", "/s/layers/blake3-bb/mnt"]));
    assert_eq!(plan.upper, "/r/nexpack/org.x/upper");
    assert_eq!(plan.work, "/r/nexpack/org.x/work");
    assert_eq!(plan.merged, "/r/nexpack/org.x/rootfs");
    assert_eq!(lowerdir_option(&plan.lower_dirs).as_str(), "/s/layers/blake3-bb/mnt:/s/layers/blake3-aa/mnt");
    assert_eq!(
        overlay_mount_options(&strs(&["/l1"]), "/u", "/w").as_str(),
        "lowerdir=/l1,upperdir=/u,workdir=/w"
    );
    assert_eq!(lowerdir_option(&Vec::new()).as_str(), "");
    assert_eq!(
        rootfs_dirs("/m"),
        strs(&["/m/proc", "/m/dev", "/m/sys", "/m/tmp", "/m/run", "/m/dev/pts"])
    );
}

#[test]
fn store_layout() {
    let s = Store::open("/st".to_string());
    assert_eq!(s.layer_image("ab").as_str(), "/st/layers/blake3-ab/image.erofs");
    assert_eq!(s.layer_mount("ab").as_str(), "/st/layers/blake3-ab/mnt");
    assert_eq!(s.apps_dir().as_str(), "/st/apps");
    assert_eq!(s.gc_roots_dir().as_str(), "/st/gc-roots");
    assert_eq!(app_current_target("ab").as_str(), "../../../layers/blake3-ab/image.erofs");
    assert_eq!(gc_root_target("ab").as_str(), "../layers/blake3-ab");
    let u = Store::user(Some("/home/z")).unwrap();
    assert_eq!(u.root(), "/home/z/.local/share/nexpack/store");
    match Store::user(None) {
        Err(Error::StorePath(m)) => assert_eq!(m, "$HOME not set"),
        _ => panic!("expected StorePath"),
    }
    assert_eq!(nexpack_bin_dir(Some("/home/z")).unwrap(), "/home/z/.local/share/nexpack/bin");
}

#[test]
fn garbage_collection_keeps_reachable_layers() {
    let gone = layers_to_collect(&strs(&["blake3-b"]), &strs(&["blake3-a", "blake3-b", "blake3-c"]));
    assert_eq!(gone, strs(&["blake3-a", "blake3-c"]));
}

#[test]
fn app_ids_are_listed_in_order() {
    assert_eq!(sort_app_ids(strs(&["b", "a.c", "a", "B"])), strs(&["B", "a", "a.c", "b"]));
    assert_eq!(sort_texts(strs(&["é", "z"])), strs(&["z", "é"]));
}

fn feed(latest: &str, versions: &[&str]) -> UpdateFeed {
    UpdateFeed {
        app_id: "org.example.tool".to_string(),
        latest: latest.to_string(),
        releases: versions
            .iter()
            .map(|v| ReleaseInfo {
                version: v.to_string(),
                layers: vec![LayerInfo { digest: format!("blake3:{}", v), url: "u".to_string(), size: 2 }],
                signature_bundle: None,
            })
            .collect(),
    }
}

#[test]
fn update_plans() {
    let h = header("1.0", vec![layer("aa")]);
    assert_eq!(plan_update(&h, &feed("1.0", &["1.0"]), "org.example.tool", true), UpdateDecision::UpToDate);
    assert_eq!(plan_update(&h, &feed("2.0", &["1.0", "2.0"]), "other", true), UpdateDecision::WrongApp);
    assert_eq!(plan_update(&h, &feed("2.0", &["1.0", "2.0"]), "other", false), UpdateDecision::Install(1));
    assert_eq!(plan_update(&h, &feed("3.0", &["1.0"]), "org.example.tool", true), UpdateDecision::NoRelease);
    let f = feed("2.0", &["1.0", "2.0"]);
    assert_eq!(f.latest_release().unwrap().version, "2.0");
    assert!(f.find_release("9").is_none());
    assert_eq!(f.releases[1].missing_layers(&vec![false]), vec![0]);
    assert_eq!(f.releases[1].missing_layers(&vec![true]), Vec::<usize>::new());
    let nh = updated_header(&h, &f.releases[1]);
    assert_eq!(nh.app_version, "2.0");
    assert_eq!(nh.layers.len(), 1);
    assert_eq!(nh.layers[0].digest, "blake3:2.0");
    assert_eq!(nh.layers[0].role, "");
    assert_eq!(nh.update_url, h.update_url);
}

#[test]
fn downloads_are_checked_for_size_then_digest() {
    let l = LayerInfo { digest: "blake3:abcd".to_string(), url: "u".to_string(), size: 5 };
    match check_download(&l, b"abc") {
        Err(Error::Other(m)) => assert_eq!(m, "size mismatch for abcd: expected 5, got 3"),
        _ => panic!("expected Other"),
    }
    match check_download(&l, b"abcde") {
        Err(Error::DigestMismatch { expected, actual }) => {
            assert_eq!(expected, "abcd");
            assert_eq!(actual, Verifier::blake3_hex(b"abcde"));
        }
        _ => panic!("expected DigestMismatch"),
    }
    let good = LayerInfo { digest: format!("blake3:{}", Verifier::blake3_hex(b"abcde")), url: "u".to_string(), size: 5 };
    assert!(check_download(&good, b"abcde").is_ok());
}

#[test]
fn blake3_of_nothing() {
    assert_eq!(
        Verifier::blake3_hex(b"").as_str(),
        "af1349b9f5f9a1a6a0404dea36dcc9499bcb25c9adc112b7cc9a93cae41f3262"
    );
    assert_eq!(Verifier::blake3_digest(b"")[0], 0xaf);
}

#[test]
fn generated_sbom_is_accepted_and_sorted() {
    let files = vec![
        ("usr/bin/b".to_string(), b"bbb".to_vec()),
        ("usr/bin/a".to_string(), b"aaa".to_vec()),
        ("weird \"name\"\n".to_string(), Vec::new()),
    ];
    let sbom = generate_sbom("tool", "1.0", 1700000000, &files).unwrap();
    assert!(verify_sbom_data(&sbom).is_ok());
    let mut json = Vec::new();
    std::io::Read::read_to_end(&mut flate2::read::GzDecoder::new(&sbom[..]), &mut json).unwrap();
    let text = String::from_utf8(json).unwrap();
    assert!(text.starts_with(
        "{\"bomFormat\":\"CycloneDX\",\"specVersion\":\"1.5\",\"version\":1,\"metadata\":{\"timestamp\":\"1700000000\",\"component\":{\"type\":\"application\",\"name\":\"tool\",\"version\":\"1.0\"}},\"components\":[{\"type\":\"file\",\"name\":\"usr/bin/a\""
    ));
    let a = text.find("usr/bin/a").unwrap();
    let b = text.find("usr/bin/b").unwrap();
    assert!(a < b);
    assert!(text.contains("\"name\":\"weird \\\"name\\\"\\n\""));
    let v: serde_json::Value = serde_json::from_str(&text).unwrap();
    assert_eq!(v["components"].as_array().unwrap().len(), 3);
    assert_eq!(v["components"][0]["hashes"][0]["value"].as_str().unwrap(), Verifier::blake3_hex(b"aaa"));
}

#[test]
fn sbom_without_files_or_version_leaves_them_out() {
    let sbom = generate_sbom("tool", "", 5, &Vec::new()).unwrap();
    let mut json = Vec::new();
    std::io::Read::read_to_end(&mut flate2::read::GzDecoder::new(&sbom[..]), &mut json).unwrap();
    assert_eq!(
        String::from_utf8(json).unwrap(),
        "{\"bomFormat\":\"CycloneDX\",\"specVersion\":\"1.5\",\"version\":1,\"metadata\":{\"timestamp\":\"5\",\"component\":{\"type\":\"application\",\"name\":\"tool\"}}}"
    );
}

#[test]
fn sbom_errors() {
    assert!(matches!(verify_sbom_data(b"not gzip"), Err(Error::Cbor(_))));
    let gz = |s: &str| {
        let mut e = flate2::write::GzEncoder::new(Vec::new(), flate2::Compression::default());
        std::io::Write::write_all(&mut e, s.as_bytes()).unwrap();
        e.finish().unwrap()
    };
    match verify_sbom_data(&gz("{\"bomFormat\":\"SPDX\",\"specVersion\":\"1\"}")) {
        Err(Error::Cbor(m)) => assert_eq!(m, "SBOM: invalid bomFormat"),
        _ => panic!("expected invalid bomFormat"),
    }
    match verify_sbom_data(&gz("{\"bomFormat\":\"CycloneDX\",\"specVersion\":\"\"}")) {
        Err(Error::Cbor(m)) => assert_eq!(m, "SBOM: missing specVersion"),
        _ => panic!("expected missing specVersion"),
    }
    assert!(verify_sbom_data(&gz("{\"bomFormat\":\"CycloneDX\",\"specVersion\":\"1.4\"}")).is_ok());
}

#[test]
fn sbom_member_named_twice_keeps_the_last() {
    let gz = |s: &str| {
        let mut e = flate2::write::GzEncoder::new(Vec::new(), flate2::Compression::default());
        std::io::Write::write_all(&mut e, s.as_bytes()).unwrap();
        e.finish().unwrap()
    };
    let doc = "{\"bomFormat\":\"SPDX\",\"specVersion\":\"1\",\"bomFormat\":\"CycloneDX\",\"metadata\":{\"a\":[1,\"\\u0001\"]}}";
    assert!(verify_sbom_data(&gz(doc)).is_ok());
    let doc = "{\"bomFormat\":\"CycloneDX\",\"specVersion\":\"1\",\"bomFormat\":\"SPDX\"}";
    match verify_sbom_data(&gz(doc)) {
        Err(Error::Cbor(m)) => assert_eq!(m, "SBOM: invalid bomFormat"),
        _ => panic!("expected invalid bomFormat"),
    }
}

#[test]
fn trust_policy_matching() {
    assert!(wildmatch("org.*", "org.example.app"));
    assert!(wildmatch("*", ""));
    assert!(!wildmatch("org.?x", "org.ab"));
    let entry = |id: &str| TrustPolicyEntry { identities: strs(&[id]), require_rekor: Some(true) };
    let cfg = TrustConfig {
        policy: vec![
            ("org.*".to_string(), entry("a")),
            ("org.example.*".to_string(), entry("b")),
            ("org.example.app".to_string(), entry("c")),
        ],
    };
    assert_eq!(cfg.match_policy("org.example.app").unwrap().1.identities, strs(&["c"]));
    assert_eq!(cfg.match_policy("org.example.other").unwrap().1.identities, strs(&["b"]));
    assert_eq!(cfg.match_policy("org.x").unwrap().1.identities, strs(&["a"]));
    assert!(cfg.match_policy("com.x").is_none());
    assert!(TrustConfig::empty().match_policy("a").is_none());
    let with_default = TrustConfig {
        policy: vec![("default".to_string(), entry("d")), ("org.*".to_string(), entry("a"))],
    };
    let (p, e) = with_default.match_policy("com.x").unwrap();
    assert_eq!(p, "default");
    assert_eq!(e.identities, strs(&["d"]));
    assert_eq!(with_default.match_policy("org.x").unwrap().1.identities, strs(&["a"]));
}

#[test]
fn unsigned_bundles_fail_signature_checks() {
    let mut h = header("1", vec![layer("aa")]);
    h.signature = None;
    let b = nexpack::bundle::Bundle { header: h, data: vec![0; 8] };
    for r in [
        nexpack::signing::verify_signature(&b),
        nexpack::signing::verify_signature_opt(&b, true),
        nexpack::signing::verify_with_identity(&b, "i", "o"),
    ] {
        match r {
            Err(Error::SignatureVerification(m)) => assert_eq!(m, "no signature in bundle"),
            _ => panic!("expected SignatureVerification"),
        }
    }
}

#[test]
fn unsigned_bundles_mount_and_bad_signatures_do_not() {
    let mut h = header("1", vec![layer("aa")]);
    h.signature = None;
    let b = nexpack::bundle::Bundle { header: h.clone(), data: vec![0; 8] };
    assert!(nexpack::signing::verify_signature_if_present(&b, true).is_ok());
    h.signature = Some(b"not json".to_vec());
    let b = nexpack::bundle::Bundle { header: h, data: vec![0; 8] };
    match nexpack::signing::verify_signature_if_present(&b, true) {
        Err(Error::SignatureVerification(m)) => assert!(m.starts_with("invalid signature JSON: ")),
        _ => panic!("expected SignatureVerification"),
    }
}

#[test]
fn signer_policies() {
    let p = nexpack::sigstore::signer_policy(Some(("me@example.com", "https://issuer")), true);
    assert_eq!(p.identity, Some(("me@example.com".to_string(), "https://issuer".to_string())));
    assert!(!p.check_tlog);
    let p = nexpack::sigstore::signer_policy(None, false);
    assert_eq!(p.identity, None);
    assert!(p.check_tlog);
}

#[test]
fn cosign_output_must_be_json() {
    assert!(nexpack::pack::check_cosign_output(b"{\"a\": [1, 2]}").is_ok());
    match nexpack::pack::check_cosign_output(b"{oops") {
        Err(Error::Other(m)) => assert!(m.starts_with("invalid cosign output: ")),
        _ => panic!("expected Other"),
    }
}

#[test]
fn installed_apps_keep_all_their_layers() {
    let h = header("1", vec![layer("aa"), layer("bb")]);
    assert_eq!(nexpack::store::header_layer_dirs(&h), vec!["blake3-aa".to_string(), "blake3-bb".to_string()]);
}

#[test]
fn store_links_name_their_layer_directory() {
    let cur = app_current_target("ab12");
    assert_eq!(nexpack::store::layer_name_of_link(&cur), "blake3-ab12");
    let root = gc_root_target("ab12");
    assert_eq!(nexpack::store::layer_name_of_link(&root), "blake3-ab12");
    assert_eq!(nexpack::store::layer_name_of_link("plain"), "plain");
    assert_eq!(nexpack::store::layer_name_of_link("/image.erofs"), "");
}

#[test]
fn error_messages() {
    let cases = vec![
        (Error::Io { context: "reading x".to_string(), source: "denied".to_string() }, "I/O error reading x: denied"),
        (Error::InvalidFormat("bad".to_string()), "invalid format: bad"),
        (Error::Cbor("eof".to_string()), "CBOR error: eof"),
        (Error::DigestMismatch { expected: "e".to_string(), actual: "a".to_string() }, "digest mismatch: expected e, got a"),
        (Error::SignatureVerification("s".to_string()), "signature error: s"),
        (Error::StorePath("p".to_string()), "store error: p"),
        (Error::Mount("m".to_string()), "mount error: m"),
        (Error::IndexOutOfRange { what: "layer".to_string(), index: 12, max: 3 }, "layer index 12 out of range (max 3)"),
        (Error::NotFound("n".to_string()), "not found: n"),
        (Error::Other("plain".to_string()), "plain"),
    ];
    for (e, m) in cases {
        assert_eq!(e.message(), m);
    }
}
