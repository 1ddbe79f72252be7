use nexpack::cli::{
    applications_dir, config_dir, current_digest, desktop_entry, desktop_file_path, desktop_target, editor,
    fmt_perm_value, insert_seccomp_arg, installed_bundle_candidate, is_blank, matching_apps, missing_layer_error,
    policy_snippet, registry_search_url, signed_output_name, appimage_name, trim, trust_template, urlencoding,
    with_permissions, app_entry_path, EditAction, ListField, PermissionEditor,
};
use nexpack::header::BundleHeader;
use nexpack::host::HostEnv;
use nexpack::pack::{
    build_bootstrap, bundle_file_name, last_segment, make_layer_ref, pack_header, spec_to_permissions,
    NetworkSetting, PackApp, PackPermissions,
};
use nexpack::permission::{PermissionSet, PermissionValue};
use nexpack::Error;

fn env(vars: &[(&str, &str)]) -> HostEnv {
    HostEnv { vars: vars.iter().map(|(k, v)| (k.to_string(), v.to_string())).collect(), existing: Vec::new() }
}

fn strs(v: &[&str]) -> Vec<String> {
    v.iter().map(|s| s.to_string()).collect()
}

fn header() -> BundleHeader {
    BundleHeader {
        version: 1,
        app_id: "org.example.tool".to_string(),
        app_version: "2.0".to_string(),
        entrypoint: "/bin/tool".to_string(),
        layers: vec![make_layer_ref(b"a", "runtime"), make_layer_ref(b"b", "app")],
        permissions: PermissionSet::default_permissive(),
        signature: None,
        sbom: None,
        update_url: None,
        bootstrap_size: None,
        offset: 0,
        encoded_len: 0,
    }
}

#[test]
fn permission_values_are_shown_plainly() {
    assert_eq!(fmt_perm_value(&PermissionValue::Bool(true)).as_str(), "true");
    assert_eq!(fmt_perm_value(&PermissionValue::Bool(false)).as_str(), "false");
    let p = PermissionValue::Patterns(strs(&["a.com", "b\"c"]));
    assert_eq!(fmt_perm_value(&p).as_str(), "[\"a.com\", \"b\\\"c\"]");
}

#[test]
fn trim_removes_surrounding_white_space() {
    assert_eq!(trim("  1\n").as_str(), "1");
    assert_eq!(trim("\t\r\n").as_str(), "");
    assert_eq!(trim("a b").as_str(), "a b");
    assert_eq!(trim("\u{3000}\u{2009}x\u{85}\u{a0}").as_str(), "x");
    assert_eq!(trim("\u{200b}x").as_str(), "\u{200b}x");
    assert!(is_blank(" \n\t"));
    assert!(!is_blank(" x "));
}

#[test]
fn editor_session_changes_and_saves_permissions() {
    let mut ed = PermissionEditor::new(PermissionSet::default_sandboxed());
    assert!(matches!(ed.step("1\n"), EditAction::AskNetwork));
    assert!(matches!(ed.step("true\n"), EditAction::ShowMenu));
    assert!(matches!(ed.perm.network, PermissionValue::Bool(true)));
    assert!(matches!(ed.step("2"), EditAction::StartList(ListField::Filesystem)));
    assert!(matches!(ed.step(" ~/music "), EditAction::AskItem(ListField::Filesystem)));
    assert!(matches!(ed.step("/srv"), EditAction::AskItem(ListField::Filesystem)));
    assert!(matches!(ed.step(""), EditAction::ShowMenu));
    assert_eq!(ed.perm.filesystem, strs(&["~/music", "/srv"]));
    assert!(matches!(ed.step("5"), EditAction::AskDisplay));
    assert!(matches!(ed.step("   "), EditAction::ShowMenu));
    assert_eq!(ed.perm.display, "wayland");
    assert!(matches!(ed.step("5"), EditAction::AskDisplay));
    assert!(matches!(ed.step("x11"), EditAction::ShowMenu));
    assert_eq!(ed.perm.display, "x11");
    assert!(matches!(ed.step("9"), EditAction::InvalidChoice));
    assert!(matches!(ed.step("1"), EditAction::AskNetwork));
    assert!(matches!(ed.step("yes"), EditAction::ShowMenu));
    assert!(matches!(ed.perm.network, PermissionValue::Bool(false)));
    assert!(matches!(ed.step("6"), EditAction::Save));
    let h = with_permissions(&header(), ed.perm);
    assert_eq!(h.permissions.filesystem, strs(&["~/music", "/srv"]));
    assert_eq!(h.app_id, "org.example.tool");
}

#[test]
fn seccomp_descriptor_goes_before_the_command() {
    let args = strs(&["--proc", "/proc", "--", "/run/app/x", "--", "y"]);
    assert_eq!(
        insert_seccomp_arg(&args, Some(7)),
        strs(&["--proc", "/proc", "--seccomp", "7", "--", "/run/app/x", "--", "y"])
    );
    assert_eq!(insert_seccomp_arg(&args, None), args);
    let plain = strs(&["a", "b"]);
    assert_eq!(insert_seccomp_arg(&plain, Some(3)), plain);
    assert_eq!(insert_seccomp_arg(&strs(&["--"]), Some(-2)), strs(&["--seccomp", "-2", "--"]));
}

#[test]
fn unsandboxed_entry_is_inside_the_root() {
    assert_eq!(app_entry_path("/run/x/rootfs", "/usr/bin/app").as_str(), "/run/x/rootfs/usr/bin/app");
    assert_eq!(app_entry_path("/run/x/rootfs/", "bin/app").as_str(), "/run/x/rootfs/bin/app");
}

#[test]
fn desktop_entry_text() {
    assert_eq!(
        desktop_entry("tool", "/b/current", "org.example.tool").as_str(),
        "[Desktop Entry]\nType=Application\nName=tool\nComment=Nexpack application\nExec=nxpk run /b/current %%F\nTerminal=false\nCategories=Utility;\nX-Nexpack-AppId=org.example.tool\n"
    );
    assert_eq!(applications_dir(&env(&[("XDG_DATA_HOME", "/d")])).as_str(), "/d/applications");
    assert_eq!(applications_dir(&env(&[("HOME", "/h")])).as_str(), "/h/.local/share/applications");
    assert_eq!(applications_dir(&env(&[])).as_str(), "/tmp/.local/share/applications");
    assert_eq!(desktop_file_path("/d/applications", "a.b").as_str(), "/d/applications/a.b.desktop");
    assert_eq!(
        installed_bundle_candidate("a.b", &env(&[("HOME", "/h")])).as_str(),
        "/h/.local/share/nexpack/apps/a.b/current"
    );
    assert_eq!(desktop_target("/c".to_string(), false, "a.b").as_str(), "a.b");
    assert_eq!(desktop_target("/c".to_string(), true, "a.b").as_str(), "/c");
}

#[test]
fn current_digest_is_that_of_the_last_layer() {
    let h = header();
    assert_eq!(current_digest(&h), h.layers[1].digest_hex());
    let mut empty = header();
    empty.layers.clear();
    assert_eq!(current_digest(&empty), "");
}

#[test]
fn missing_store_layer_message() {
    match missing_layer_error("app", "abcd") {
        Error::Other(m) => assert_eq!(m, "layer app not found in store (digest: abcd)"),
        _ => panic!("expected Other"),
    }
}

#[test]
fn trust_files_and_directories() {
    assert_eq!(
        policy_snippet("org.example.*", "dev@example.com").as_str(),
        "\n[policy.\"org.example.*\"]\nidentities = [\"dev@example.com\"]\nrequire_rekor = true\n"
    );
    assert!(trust_template().starts_with("# Nexpack Trust Policy\n"));
    assert!(trust_template().ends_with("[policy.default]\naction = \"prompt\"\n\n"));
    assert_eq!(config_dir(&env(&[("XDG_CONFIG_HOME", "/c"), ("HOME", "/h")])), Some("/c/nexpack".to_string()));
    assert_eq!(config_dir(&env(&[("HOME", "/h")])), Some("/h/.config/nexpack".to_string()));
    assert_eq!(config_dir(&env(&[])), None);
    assert_eq!(editor(&env(&[("VISUAL", "vim")])).as_str(), "vim");
    assert_eq!(editor(&env(&[("EDITOR", "ed"), ("VISUAL", "vim")])).as_str(), "ed");
    assert_eq!(editor(&env(&[])).as_str(), "nano");
}

#[test]
fn search_matches_and_encodes() {
    let apps = strs(&["org.Gimp.Gimp", "org.inkscape", "io.gimp-tools"]);
    assert_eq!(matching_apps(&apps, "GIMP"), strs(&["org.Gimp.Gimp", "io.gimp-tools"]));
    assert_eq!(urlencoding("a b/c~é").as_str(), "a%20b%2Fc~%C3%A9");
    assert_eq!(
        registry_search_url("https://r.example", "foo bar").as_str(),
        "https://r.example/api/v1/search?q=foo%20bar"
    );
}

#[test]
fn signed_and_appimage_names() {
    assert_eq!(signed_output_name("dir/app.nxpk", None).as_str(), "app_signed.nxpk");
    assert_eq!(signed_output_name("app", None).as_str(), "app_signed.nxpk");
    assert_eq!(signed_output_name("app.nxpk", Some("out.nxpk")).as_str(), "out.nxpk");
    assert_eq!(appimage_name("/x/Krita-5.2.AppImage").as_str(), "Krita-5.2");
    assert_eq!(appimage_name("/").as_str(), "app");
}

#[test]
fn pack_names_use_the_last_id_part() {
    assert_eq!(last_segment("io.helix-editor.helix").as_str(), "helix");
    assert_eq!(last_segment("plain").as_str(), "plain");
    assert_eq!(last_segment("trailing.").as_str(), "");
    assert_eq!(bundle_file_name("com.example.myapp").as_str(), "myapp.nxpk");
}

#[test]
fn pack_permissions_default_and_override() {
    let d = spec_to_permissions(&None);
    assert!(matches!(d.network, PermissionValue::Bool(false)));
    assert_eq!(d.ipc, strs(&["wayland", "dbus-session"]));
    let section = PackPermissions {
        network: Some(NetworkSetting::List(vec![Some("a.org".to_string()), None, Some("b.org".to_string())])),
        filesystem: Some(strs(&["$HOME/.config/helix"])),
        devices: None,
        ipc: None,
        display: Some("x11".to_string()),
    };
    let p = spec_to_permissions(&Some(section));
    match &p.network {
        PermissionValue::Patterns(v) => assert_eq!(v, &strs(&["a.org", "b.org"])),
        _ => panic!("expected patterns"),
    }
    assert_eq!(p.filesystem, strs(&["$HOME/.config/helix"]));
    assert!(p.devices.is_empty());
    assert_eq!(p.ipc, strs(&["wayland", "dbus-session"]));
    assert_eq!(p.display, "x11");
    let other = PackPermissions { network: Some(NetworkSetting::Other), filesystem: None, devices: None, ipc: None, display: None };
    let q = spec_to_permissions(&Some(other));
    assert!(matches!(q.network, PermissionValue::Bool(false)));
    assert_eq!(q.display, "wayland");
}

#[test]
fn pack_header_needs_a_layer() {
    let app = PackApp { id: "a.b".to_string(), version: "1".to_string(), entrypoint: "/e".to_string() };
    match pack_header(&app, Vec::new(), PermissionSet::default_sandboxed(), None, None) {
        Err(Error::Other(m)) => assert_eq!(m, "at least one layer is required"),
        _ => panic!("expected Other"),
    }
    let h = pack_header(&app, vec![make_layer_ref(b"x", "app")], PermissionSet::default_sandboxed(), Some(vec![1]), Some(9))
        .unwrap();
    assert_eq!(h.app_id, "a.b");
    assert_eq!(h.sbom, Some(vec![1]));
    assert_eq!(h.bootstrap_size, Some(9));
    assert!(h.signature.is_none());
}

#[test]
fn layer_reference_digest_is_blake3() {
    let l = make_layer_ref(b"abc", "app");
    assert_eq!(l.digest, "blake3:6437b3ac38465133ffb63b75273a8db548c558465d79db03fd359c6cd5bd9d85");
    assert_eq!(l.size, 3);
    assert_eq!(l.digest_hex(), "6437b3ac38465133ffb63b75273a8db548c558465d79db03fd359c6cd5bd9d85");
}

#[test]
fn bootstrap_block_only_with_binaries() {
    assert_eq!(build_bootstrap(None, None), None);
    let b = build_bootstrap(None, Some(vec![5])).unwrap();
    assert_eq!(b, vec![1, 0, 0, 0, 4, 0, b'n', b'x', b'p', b'k', 1, 0, 0, 0, 5]);
}
