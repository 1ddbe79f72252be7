use nexpack::compat::{
    compat_header, compat_output_name, compat_permissions, find_apprun, find_squashfs_offset, heuristic_permissions,
};
use nexpack::host::HostEnv;
use nexpack::pack::make_layer_ref;
use nexpack::permission::PermissionValue;
use nexpack::Error;

fn env(vars: &[(&str, &str)]) -> HostEnv {
    HostEnv { vars: vars.iter().map(|(k, v)| (k.to_string(), v.to_string())).collect(), existing: Vec::new() }
}

fn strs(v: &[&str]) -> Vec<String> {
    v.iter().map(|s| s.to_string()).collect()
}

fn image(len: usize, marker: [u8; 4]) -> Vec<u8> {
    let mut d = vec![0x7fu8, b'E', b'L', b'F'];
    d.resize(len, 0xAA);
    d[8..12].copy_from_slice(&marker);
    d
}

#[test]
fn aligned_magic_is_reported_four_bytes_early() {
    let mut d = image(64, [0, 0, 0, 0]);
    d[40..44].copy_from_slice(b"hsqs");
    let (off, magic) = find_squashfs_offset(&d).unwrap();
    assert_eq!(off, 36);
    assert_eq!(&magic, b"hsqs");
}

#[test]
fn unaligned_magic_is_found_bytewise() {
    let mut d = image(64, [0xff; 4]);
    d[42..46].copy_from_slice(b"sqsh");
    let (off, magic) = find_squashfs_offset(&d).unwrap();
    assert_eq!(off, 38);
    assert_eq!(&magic, b"sqsh");
}

#[test]
fn bytewise_search_tries_magics_in_order() {
    let mut d = image(64, [0, 0, 0, 0]);
    d[21..25].copy_from_slice(b"qshs");
    d[49..53].copy_from_slice(b"hsqs");
    let (off, magic) = find_squashfs_offset(&d).unwrap();
    assert_eq!(off, 45);
    assert_eq!(&magic, b"hsqs");
}

#[test]
fn unmarked_or_magicless_images_are_refused() {
    let msg = "could not locate squashfs image in AppImage (tried looking for hsqs/sqsh/qshs magic)";
    let mut marked = image(64, [1, 2, 3, 4]);
    marked[40..44].copy_from_slice(b"hsqs");
    for d in [marked, image(64, [0, 0, 0, 0]), vec![1, 2, 3]] {
        match find_squashfs_offset(&d) {
            Err(Error::InvalidFormat(m)) => assert_eq!(m, msg),
            _ => panic!("expected InvalidFormat"),
        }
    }
}

#[test]
fn network_is_guessed_from_file_names() {
    assert!(heuristic_permissions(&strs(&["/r/usr/lib/LIBCURL.so.4"])).network);
    assert!(heuristic_permissions(&strs(&["/r/a", "/r/usr/bin/wget"])).network);
    assert!(!heuristic_permissions(&strs(&["/r/usr/bin/wget2", "/r/lib/libz.so"])).network);
    assert!(!heuristic_permissions(&Vec::new()).network);
}

#[test]
fn compat_permissions_follow_the_display() {
    let p = compat_permissions(true, "$HOME", &env(&[("WAYLAND_DISPLAY", "wayland-0")]));
    assert!(matches!(p.network, PermissionValue::Bool(true)));
    assert_eq!(p.filesystem, strs(&["$HOME"]));
    assert_eq!(p.devices, strs(&["dri", "audio"]));
    assert_eq!(p.ipc, strs(&["wayland", "dbus-session"]));
    assert_eq!(p.display, "wayland");
    let q = compat_permissions(false, "$HOME/.config/$appname", &env(&[]));
    assert!(matches!(q.network, PermissionValue::Bool(false)));
    assert_eq!(q.ipc, strs(&["x11", "dbus-session"]));
    assert_eq!(q.display, "x11");
}

#[test]
fn converted_bundle_names_and_header() {
    assert_eq!(compat_output_name(Some("out.nxpk"), "x").as_str(), "out.nxpk");
    assert_eq!(compat_output_name(Some("out"), "x").as_str(), "out.nxpk");
    assert_eq!(compat_output_name(None, "Krita").as_str(), "Krita.nxpk");
    let layer = make_layer_ref(b"erofs image", "app");
    let perms = compat_permissions(false, "$HOME", &env(&[]));
    let h = compat_header("Krita", "AppRun", layer, perms);
    assert_eq!(h.version, 1);
    assert_eq!(h.app_id, "compat.Krita");
    assert_eq!(h.app_version, "0.1.0");
    assert_eq!(h.entrypoint, "AppRun");
    assert_eq!(h.layers.len(), 1);
    assert_eq!(h.layers[0].size, 11);
    assert!(h.signature.is_none() && h.sbom.is_none() && h.update_url.is_none() && h.bootstrap_size.is_none());
}

#[test]
fn apprun_is_looked_up_in_order() {
    let files = strs(&["/x/appimage.sh", "/x/apprun"]);
    assert_eq!(find_apprun("/x", &files, &Vec::new()).as_str(), "/x/apprun");
    assert_eq!(find_apprun("/x", &Vec::new(), &strs(&["lib", "APPRUN"])).as_str(), "/x/APPRUN");
    assert_eq!(find_apprun("/x", &Vec::new(), &strs(&["lib"])).as_str(), "/x/AppRun");
}
