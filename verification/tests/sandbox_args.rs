use nexpack::bwrap::{build_bwrap_args, sandbox_probe_paths, shellexpand};
use nexpack::compat::{build_bwrap_args_generic, compat_probe_paths, expand_path};
use nexpack::host::HostEnv;
use nexpack::permission::{PermissionSet, PermissionValue};
use nexpack::sandbox::generate_seccomp_filter;

fn env(vars: &[(&str, &str)], existing: &[&str]) -> HostEnv {
    HostEnv {
        vars: vars.iter().map(|(k, v)| (k.to_string(), v.to_string())).collect(),
        existing: existing.iter().map(|p| p.to_string()).collect(),
    }
}

fn strs(v: &[&str]) -> Vec<String> {
    v.iter().map(|s| s.to_string()).collect()
}

fn perm(network: PermissionValue, fs: &[&str], devices: &[&str], ipc: &[&str], display: &str) -> PermissionSet {
    PermissionSet {
        network,
        filesystem: strs(fs),
        devices: strs(devices),
        ipc: strs(ipc),
        display: display.to_string(),
    }
}

#[test]
fn shellexpand_replaces_tilde_and_variables() {
    let e = env(&[("HOME", "/home/ann"), ("XDG_CONFIG_HOME", "/cfg")], &[]);
    assert_eq!(shellexpand("~/docs", &e).as_str(), "/home/ann/docs");
    assert_eq!(shellexpand("~", &e).as_str(), "/home/ann");
    assert_eq!(shellexpand("a~b", &e).as_str(), "a~b");
    assert_eq!(shellexpand("$XDG_CONFIG_HOME/app", &e).as_str(), "/cfg/app");
    assert_eq!(shellexpand("$UNSET/x", &e).as_str(), "/x");
    assert_eq!(shellexpand("$HOME_DIR", &e).as_str(), "");
    assert_eq!(shellexpand("cost: $", &e).as_str(), "cost: ");
}

#[test]
fn bwrap_args_for_a_sandboxed_app() {
    let p = perm(PermissionValue::Bool(false), &["~/data"], &["dri", "tape"], &["x11"], "wayland");
    let e = env(
        &[("HOME", "/home/ann"), ("DISPLAY", ":0"), ("LANG", "C")],
        &["/usr", "/etc", "/dev/dri"],
    );
    let args = build_bwrap_args("/run/nexpack/app/rootfs", &p, "/bin/app", &strs(&["--flag"]), &e);
    let expected = strs(&[
        "--proc", "/proc", "--dev", "/dev", "--tmpfs", "/tmp", "--tmpfs", "/run",
        "--ro-bind", "/run/nexpack/app/rootfs", "/run/app",
        "--ro-bind", "/usr", "/usr", "--ro-bind", "/etc", "/etc",
        "--bind", "/home/ann/data", "/home/ann/data",
        "--unshare-pid", "--unshare-uts", "--unshare-ipc", "--die-with-parent",
        "--unshare-user", "--uid", "0", "--gid", "0",
        "--unshare-net",
        "--ro-bind", "/dev/dri", "/dev/dri",
        "--ro-bind", "/tmp/.X11-unix", "/tmp/.X11-unix", "--setenv", "DISPLAY", ":0",
        "--setenv", "WAYLAND_DISPLAY", "wayland-0", "--setenv", "XDG_SESSION_TYPE", "wayland",
        "--setenv", "HOME", "/home/ann", "--setenv", "LANG", "C",
        "--", "/run/app/bin/app", "--flag",
    ]);
    assert_eq!(args, expected);
}

#[test]
fn network_patterns_keep_the_network_namespace() {
    let p = perm(PermissionValue::Patterns(strs(&["*.example.com"])), &[], &[], &[], "headless");
    let args = build_bwrap_args("/r", &p, "/x", &[], &env(&[], &[]));
    assert!(!args.iter().any(|a| a == "--unshare-net"));
    let q = perm(PermissionValue::Bool(true), &[], &[], &[], "headless");
    assert!(!build_bwrap_args("/r", &q, "/x", &[], &env(&[], &[])).iter().any(|a| a == "--unshare-net"));
}

#[test]
fn runtime_sockets_are_bound_when_present() {
    let p = perm(PermissionValue::Bool(true), &[], &[], &["wayland", "dbus-session"], "x11");
    let e = env(
        &[("XDG_RUNTIME_DIR", "/run/user/1"), ("DBUS_SESSION_BUS_ADDRESS", "unix:path=/run/user/1/bus"), ("XAUTHORITY", "/x/auth")],
        &["/run/user/1/wayland-0", "/run/user/1/bus", "/run/user/1/doc/by-app"],
    );
    let args = build_bwrap_args("/r", &p, "/x", &[], &e);
    let joined = args.join(" ");
    assert!(joined.contains("--ro-bind /run/user/1/wayland-0 /run/user/1/wayland-0"));
    assert!(joined.contains("--ro-bind /run/user/1/bus /run/user/1/bus --setenv DBUS_SESSION_BUS_ADDRESS unix:path=/run/user/1/bus"));
    assert!(joined.contains("--ro-bind /run/user/1/doc/by-app /run/user/1/doc/by-app"));
    assert!(joined.contains("--ro-bind-try /x/auth /x/auth"));
    assert!(joined.contains("--setenv XAUTHORITY /x/auth"));
}

#[test]
fn probe_paths_list_what_the_builder_tests() {
    let e = env(&[("XDG_RUNTIME_DIR", "/run/user/7")], &[]);
    assert_eq!(
        sandbox_probe_paths(&e),
        strs(&[
            "/usr", "/lib", "/lib64", "/bin", "/sbin", "/etc", "/nix/store", "/dev/dri", "/dev/snd",
            "/dev/input", "/run/user/7/wayland-0", "/run/user/7/bus", "/run/user/7/doc/by-app",
        ])
    );
    assert_eq!(sandbox_probe_paths(&env(&[], &[])).len(), 10);
}

#[test]
fn seccomp_filter_allows_everything_with_network() {
    let p = perm(PermissionValue::Bool(true), &[], &[], &[], "wayland");
    assert_eq!(generate_seccomp_filter(&p), vec![0x06, 0, 0, 0, 0, 0, 0xff, 0x7f]);
}

#[test]
fn seccomp_filter_blocks_network_calls_without_network() {
    let p = perm(PermissionValue::Bool(false), &[], &[], &[], "wayland");
    let f = generate_seccomp_filter(&p);
    assert_eq!(f.len(), 8 * (4 + 2 * 15 + 1));
    assert_eq!(&f[0..8], &[0x20, 0, 0, 0, 4, 0, 0, 0]);
    assert_eq!(&f[8..16], &[0x15, 0, 1, 0, 0x3e, 0, 0, 0xc0]);
    assert_eq!(&f[16..24], &[0x06, 0, 0, 0, 0, 0, 0, 0]);
    assert_eq!(&f[24..32], &[0x20, 0, 0, 0, 0, 0, 0, 0]);
    assert_eq!(&f[32..40], &[0x15, 0, 0, 1, 41, 0, 0, 0]);
    assert_eq!(&f[40..48], &[0x06, 0, 0, 0, 1, 0, 5, 0]);
    let n = f.len();
    assert_eq!(&f[n - 24..n - 16], &[0x15, 0, 0, 1, 0x20, 0x01, 0, 0]);
    assert_eq!(&f[n - 8..n], &[0x06, 0, 0, 0, 0, 0, 0xff, 0x7f]);
}

/// Runs the classic BPF subset the filter uses, on one system call.
fn run_filter(prog: &[u8], nr: u32, arch: u32) -> u32 {
    let mut pc = 0usize;
    let mut acc = 0u32;
    loop {
        let i = &prog[8 * pc..8 * pc + 8];
        let code = u16::from_le_bytes([i[0], i[1]]);
        let k = u32::from_le_bytes([i[4], i[5], i[6], i[7]]);
        match code {
            0x06 => return k,
            0x20 => {
                acc = if k == 0 { nr } else { arch };
                pc += 1;
            }
            0x15 => pc += 1 + if acc == k { i[2] as usize } else { i[3] as usize },
            _ => panic!("unexpected instruction"),
        }
    }
}

#[test]
fn seccomp_verdicts_match_the_documented_behaviour() {
    let p = perm(PermissionValue::Bool(false), &[], &[], &[], "wayland");
    let f = generate_seccomp_filter(&p);
    assert_eq!(run_filter(&f, 41, 0xC000_003E), 0x0005_0001);
    assert_eq!(run_filter(&f, 288, 0xC000_003E), 0x0005_0001);
    assert_eq!(run_filter(&f, 0, 0xC000_003E), 0x7fff_0000);
    assert_eq!(run_filter(&f, 56, 0xC000_003E), 0x7fff_0000);
    assert_eq!(run_filter(&f, 57, 0xC000_003E), 0x7fff_0000);
    assert_eq!(run_filter(&f, 41, 0x4000_00B7), 0);
}

#[test]
fn expand_path_handles_home_and_xdg_forms() {
    let e = env(&[("HOME", "/home/bo"), ("XDG_DATA_HOME", "/data")], &[]);
    assert_eq!(expand_path("$HOME/.config/$HOME", &e).as_str(), "/home/bo/.config//home/bo");
    assert_eq!(expand_path("$XDG_DATA_HOME/app/deep", &e).as_str(), "/data/app");
    assert_eq!(expand_path("$XDG_STATE_HOME/app", &e).as_str(), "/tmp/$XDG_STATE_HOME/app");
    assert_eq!(expand_path("$XDG_DATA_HOME", &e).as_str(), "$XDG_DATA_HOME");
    assert_eq!(expand_path("/plain", &e).as_str(), "/plain");
    assert_eq!(expand_path("$HOME", &env(&[], &[])).as_str(), "/tmp");
}

#[test]
fn generic_args_for_an_appimage() {
    let p = perm(PermissionValue::Bool(false), &["$HOME"], &["dri"], &["wayland"], "wayland");
    let e = env(
        &[("HOME", "/home/cy"), ("XDG_RUNTIME_DIR", "/run/user/5"), ("WAYLAND_DISPLAY", "wayland-1")],
        &["/home/cy", "/dev/dri", "/run/user/5", "/run/user/5/wayland-1"],
    );
    let args = build_bwrap_args_generic("/tmp/x/rootfs", &p, "AppRun", &strs(&["a"]), &e);
    let expected = strs(&[
        "--ro-bind", "/tmp/x/rootfs", "/", "--proc", "/proc", "--dev", "/dev", "--tmpfs", "/tmp",
        "--bind", "/home/cy", "/home/cy",
        "--unshare-net",
        "--unshare-pid", "--unshare-uts", "--unshare-ipc", "--die-with-parent",
        "--ro-bind", "/dev/dri", "/dev/dri",
        "--ro-bind", "/run/user/5", "/run/user/5",
        "--ro-bind", "/run/user/5/wayland-1", "/run/user/5/wayland-1",
        "--set-env", "WAYLAND_DISPLAY", "wayland-1",
        "--set-env", "HOME", "/home/cy",
        "--set-env", "PATH", "/usr/bin:/bin:/usr/local/bin",
        "--", "/AppRun", "a",
    ]);
    assert_eq!(args, expected);
}

#[test]
fn compat_probe_paths_follow_the_environment() {
    let p = perm(PermissionValue::Bool(true), &["$HOME/x"], &["snd"], &[], "x11");
    let e = env(&[("HOME", "/h"), ("XDG_RUNTIME_DIR", "/r"), ("WAYLAND_DISPLAY", "w"), ("XAUTHORITY", "/a")], &[]);
    assert_eq!(compat_probe_paths(&p, &e), strs(&["/h/x", "/dev/snd", "/r", "/r/w", "/a", "/r/bus"]));
}
