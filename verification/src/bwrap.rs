use vstd::prelude::*;
use crate::host::{HostEnv, HostEnvView, env_lookup, unicode_alphanumeric, is_alphanumeric};
use crate::strings::{chars_of, push_char, string_from_chars, views};

verus! {

// ---------------------------------------------------------------------------
// Shell-style expansion of `~` and `$NAME` in permission paths.
// ---------------------------------------------------------------------------

/// Where the variable name that starts at `j` ends: names are made of
/// alphanumeric characters and `_`.
pub open spec fn name_end(cs: Seq<char>, j: int) -> int
    decreases cs.len() - j,
{
    if 0 <= j < cs.len() && (unicode_alphanumeric(cs[j]) || cs[j] == '_') {
        name_end(cs, j + 1)
    } else {
        j
    }
}

/// A variable name ends between its start and the end of the text.
pub proof fn lemma_name_end(cs: Seq<char>, j: int)
    requires
        0 <= j <= cs.len(),
    ensures
        j <= name_end(cs, j) <= cs.len(),
    decreases cs.len() - j,
{
    if j < cs.len() && (unicode_alphanumeric(cs[j]) || cs[j] == '_') {
        lemma_name_end(cs, j + 1);
    }
}

/// A variable's value, or nothing when it is unset.
pub open spec fn value_or_empty(o: Option<Seq<char>>) -> Seq<char> {
    match o {
        Some(v) => v,
        None => Seq::empty(),
    }
}

/// The expansion of `cs` from position `i` on: a `~` at the end or before a
/// `/` becomes `$HOME`, `$NAME` becomes the variable's value (nothing when it
/// is unset), anything else is kept.
pub open spec fn expand_from(cs: Seq<char>, vars: Seq<(Seq<char>, Seq<char>)>, i: int) -> Seq<char>
    decreases cs.len() - i,
{
    if i < 0 || i >= cs.len() {
        Seq::empty()
    } else if cs[i] == '~' && (i + 1 >= cs.len() || cs[i + 1] == '/') {
        value_or_empty(env_lookup(vars, "HOME"@)) + expand_from(cs, vars, i + 1)
    } else if cs[i] == '$' {
        proof {
            lemma_name_end(cs, i + 1);
        }
        let j = name_end(cs, i + 1);
        value_or_empty(env_lookup(vars, cs.subrange(i + 1, j))) + expand_from(cs, vars, j)
    } else {
        seq![cs[i]] + expand_from(cs, vars, i + 1)
    }
}

/// The expansion of a permission path.
pub open spec fn shell_expand(s: Seq<char>, vars: Seq<(Seq<char>, Seq<char>)>) -> Seq<char> {
    expand_from(s, vars, 0)
}

fn append_opt(out: &mut String, v: Option<String>)
    ensures
        final(out)@ == old(out)@ + value_or_empty(crate::host::opt_view(v)),
{
    match v {
        Some(s) => out.append(s.as_str()),
        None => {
            assert(old(out)@ + Seq::<char>::empty() =~= old(out)@);
        },
    }
}

/// `s` with `~` and `$NAME` expanded from the environment.
pub fn shellexpand(s: &str, env: &HostEnv) -> (r: String)
    ensures
        r@ == shell_expand(s@, env@.vars),
{
    let cs = chars_of(s);
    let n = cs.len();
    let mut out = String::new();
    let mut i: usize = 0;
    while i < n
        invariant
            n == cs@.len(),
            cs@ == s@,
            i <= n,
            out@ + expand_from(cs@, env@.vars, i as int) == shell_expand(s@, env@.vars),
        decreases n - i,
    {
        let ghost before = out@;
        if cs[i] == '~' && (i + 1 >= n || cs[i + 1] == '/') {
            append_opt(&mut out, env.var("HOME"));
            i = i + 1;
            assert(before + expand_from(cs@, env@.vars, i - 1) =~= out@ + expand_from(
                cs@,
                env@.vars,
                i as int,
            ));
        } else if cs[i] == '$' {
            let start = i + 1;
            let mut j = start;
            proof {
                lemma_name_end(cs@, start as int);
            }
            loop
                invariant
                    n == cs@.len(),
                    start <= j <= n,
                    name_end(cs@, start as int) == name_end(cs@, j as int),
                ensures
                    start <= j <= n,
                    j == name_end(cs@, start as int),
                decreases n - j,
            {
                if j >= n {
                    break;
                }
                let c = cs[j];
                if !(is_alphanumeric(c) || c == '_') {
                    break;
                }
                j = j + 1;
            }
            let name = string_from_chars(&cs, start, j);
            append_opt(&mut out, env.var(name.as_str()));
            i = j;
            assert(before + expand_from(cs@, env@.vars, start - 1) =~= out@ + expand_from(
                cs@,
                env@.vars,
                i as int,
            ));
        } else {
            push_char(&mut out, cs[i]);
            i = i + 1;
            assert(before + expand_from(cs@, env@.vars, i - 1) =~= out@ + expand_from(
                cs@,
                env@.vars,
                i as int,
            ));
        }
    }
    assert(out@ + Seq::<char>::empty() =~= out@);
    out
}

} // verus!

verus! {

// ---------------------------------------------------------------------------
// The bubblewrap command line for a bundle's permissions.
// ---------------------------------------------------------------------------

/// `--ro-bind p p`
pub open spec fn ro_bind(p: Seq<char>) -> Seq<Seq<char>> {
    seq!["--ro-bind"@, p, p]
}

/// `--ro-bind p p` when `p` exists on the host.
pub open spec fn bind_if_exists(env: HostEnvView, p: Seq<char>) -> Seq<Seq<char>> {
    if env.existing.contains(p) {
        ro_bind(p)
    } else {
        Seq::empty()
    }
}

/// `--setenv name value`
pub open spec fn set_env(name: Seq<char>, value: Seq<char>) -> Seq<Seq<char>> {
    seq!["--setenv"@, name, value]
}

/// `--setenv name value` when the host has the variable.
pub open spec fn pass_var(env: HostEnvView, name: Seq<char>) -> Seq<Seq<char>> {
    match env_lookup(env.vars, name) {
        Some(v) => set_env(name, v),
        None => Seq::empty(),
    }
}

/// The bind of `$XDG_RUNTIME_DIR<suffix>`, when the variable is set and the
/// path exists.
pub open spec fn runtime_bind(env: HostEnvView, suffix: Seq<char>) -> Seq<Seq<char>> {
    match env_lookup(env.vars, "XDG_RUNTIME_DIR"@) {
        Some(r) => bind_if_exists(env, r + suffix),
        None => Seq::empty(),
    }
}

/// The host directories shared read-only with every app, when they exist.
pub open spec fn system_dirs() -> Seq<Seq<char>> {
    seq!["/usr"@, "/lib"@, "/lib64"@, "/bin"@, "/sbin"@, "/etc"@, "/nix/store"@]
}

/// The binds of the host directories that exist.
pub open spec fn system_binds(env: HostEnvView) -> Seq<Seq<char>> {
    system_dirs().map_values(|p: Seq<char>| bind_if_exists(env, p)).flatten()
}

/// The writable bind of one permitted path, after expansion.
pub open spec fn fs_bind(env: HostEnvView, path: Seq<char>) -> Seq<Seq<char>> {
    let e = shell_expand(path, env.vars);
    seq!["--bind"@, e, e]
}

/// The device node behind a device permission.
pub open spec fn device_node(dev: Seq<char>) -> Option<Seq<char>> {
    if dev == "dri"@ {
        Some("/dev/dri"@)
    } else if dev == "audio"@ {
        Some("/dev/snd"@)
    } else if dev == "input"@ {
        Some("/dev/input"@)
    } else {
        None
    }
}

/// The bind of one device permission; unknown devices are skipped.
pub open spec fn device_bind(env: HostEnvView, dev: Seq<char>) -> Seq<Seq<char>> {
    match device_node(dev) {
        Some(p) => bind_if_exists(env, p),
        None => Seq::empty(),
    }
}

/// The arguments of one IPC permission.
pub open spec fn ipc_args(env: HostEnvView, ipc: Seq<char>) -> Seq<Seq<char>> {
    if ipc == "wayland"@ {
        runtime_bind(env, "/wayland-0"@)
    } else if ipc == "x11"@ {
        ro_bind("/tmp/.X11-unix"@) + pass_var(env, "DISPLAY"@)
    } else if ipc == "dbus-session"@ {
        runtime_bind(env, "/bus"@) + pass_var(env, "DBUS_SESSION_BUS_ADDRESS"@)
    } else {
        Seq::empty()
    }
}

/// The arguments of the display permission.
pub open spec fn display_args(env: HostEnvView, display: Seq<char>) -> Seq<Seq<char>> {
    if display == "wayland"@ {
        set_env("WAYLAND_DISPLAY"@, "wayland-0"@) + set_env("XDG_SESSION_TYPE"@, "wayland"@)
    } else if display == "x11"@ {
        pass_var(env, "DISPLAY"@) + match env_lookup(env.vars, "XAUTHORITY"@) {
            Some(xa) => seq!["--ro-bind-try"@, xa, xa],
            None => Seq::empty(),
        }
    } else {
        Seq::empty()
    }
}

/// The host variables passed on to every app, when set.
pub open spec fn passed_vars() -> Seq<Seq<char>> {
    seq!["HOME"@, "USER"@, "LANG"@, "LC_ALL"@, "PATH"@, "TERM"@, "XAUTHORITY"@]
}

/// The namespaces and fixed mounts that come before the app's own binds.
pub open spec fn base_args(rootfs: Seq<char>) -> Seq<Seq<char>> {
    seq![
        "--proc"@,
        "/proc"@,
        "--dev"@,
        "/dev"@,
        "--tmpfs"@,
        "/tmp"@,
        "--tmpfs"@,
        "/run"@,
        "--ro-bind"@,
        rootfs,
        "/run/app"@,
    ]
}

/// The isolation flags: own PID, UTS and IPC namespaces, death with the
/// parent, and root inside a user namespace.
pub open spec fn isolation_args() -> Seq<Seq<char>> {
    seq![
        "--unshare-pid"@,
        "--unshare-uts"@,
        "--unshare-ipc"@,
        "--die-with-parent"@,
        "--unshare-user"@,
        "--uid"@,
        "0"@,
        "--gid"@,
        "0"@,
    ]
}

/// `--unshare-net` unless the app may use the network.
pub open spec fn network_args(perm: crate::permission::PermissionSetView) -> Seq<Seq<char>> {
    if crate::permission::grants_network(perm.network) {
        Seq::empty()
    } else {
        seq!["--unshare-net"@]
    }
}

/// The whole bubblewrap command line for running `entrypoint` of the image
/// mounted at `rootfs` under the permission set.
pub open spec fn bwrap_args(
    rootfs: Seq<char>,
    perm: crate::permission::PermissionSetView,
    entrypoint: Seq<char>,
    app_args: Seq<Seq<char>>,
    env: HostEnvView,
) -> Seq<Seq<char>> {
    base_args(rootfs) + system_binds(env) + perm.filesystem.map_values(
        |p: Seq<char>| fs_bind(env, p),
    ).flatten() + isolation_args() + network_args(perm) + perm.devices.map_values(
        |d: Seq<char>| device_bind(env, d),
    ).flatten() + perm.ipc.map_values(|i: Seq<char>| ipc_args(env, i)).flatten() + runtime_bind(
        env,
        "/doc/by-app"@,
    ) + display_args(env, perm.display) + passed_vars().map_values(
        |v: Seq<char>| pass_var(env, v),
    ).flatten() + seq!["--"@, "/run/app"@ + entrypoint] + app_args
}

/// A step of a flattened map: one more item appends its piece.
pub proof fn lemma_flatten_map_step<A>(s: Seq<A>, f: spec_fn(A) -> Seq<Seq<char>>, i: int)
    requires
        0 <= i < s.len(),
    ensures
        s.take(i + 1).map_values(f).flatten() == s.take(i).map_values(f).flatten() + f(s[i]),
{
    assert(s.take(i + 1).map_values(f) =~= s.take(i).map_values(f).push(f(s[i])));
    s.take(i).map_values(f).lemma_flatten_push(f(s[i]));
}

/// `w` occurs in `s` as consecutive items.
pub open spec fn has_run(s: Seq<Seq<char>>, w: Seq<Seq<char>>) -> bool {
    exists|k: int| 0 <= k && k + w.len() <= s.len() && #[trigger] s.subrange(k, k + w.len()) == w
}

proof fn lemma_run_in_middle(a: Seq<Seq<char>>, w: Seq<Seq<char>>, b: Seq<Seq<char>>)
    ensures
        has_run(a + w + b, w),
{
    let s = a + w + b;
    assert(s.subrange(a.len() as int, (a.len() + w.len()) as int) =~= w);
}

/// The flattened pieces of a list hold the piece of each item in one run.
proof fn lemma_flatten_map_piece<A>(s: Seq<A>, f: spec_fn(A) -> Seq<Seq<char>>, i: int)
    requires
        0 <= i < s.len(),
    ensures
        s.map_values(f).flatten() == s.take(i).map_values(f).flatten() + f(s[i]) + s.skip(i + 1).map_values(
            f,
        ).flatten(),
{
    let x = s.take(i).map_values(f);
    let y = s.skip(i + 1).map_values(f);
    assert(s.map_values(f) =~= x + (seq![f(s[i])] + y));
    vstd::seq_lib::lemma_flatten_concat(x, seq![f(s[i])] + y);
    vstd::seq_lib::lemma_flatten_concat(seq![f(s[i])], y);
    seq![f(s[i])].lemma_flatten_one_element();
}

proof fn lemma_run_extend(a: Seq<Seq<char>>, b: Seq<Seq<char>>, w: Seq<Seq<char>>)
    ensures
        has_run(a, w) ==> has_run(a + b, w),
        has_run(b, w) ==> has_run(a + b, w),
{
    if has_run(a, w) {
        let k = choose|k: int| 0 <= k && k + w.len() <= a.len() && #[trigger] a.subrange(k, k + w.len()) == w;
        assert((a + b).subrange(k, k + w.len()) =~= a.subrange(k, k + w.len()));
    }
    if has_run(b, w) {
        let k = choose|k: int| 0 <= k && k + w.len() <= b.len() && #[trigger] b.subrange(k, k + w.len()) == w;
        assert((a + b).subrange(a.len() + k, a.len() + k + w.len()) =~= b.subrange(k, k + w.len()));
    }
}

/// The bind of a known device permission whose node the host has.
proof fn lemma_known_device_bind(env: HostEnvView, dev: Seq<char>, node: Seq<char>)
    requires
        (dev == "dri"@ && node == "/dev/dri"@) || (dev == "audio"@ && node == "/dev/snd"@) || (dev
            == "input"@ && node == "/dev/input"@),
        env.existing.contains(node),
    ensures
        device_bind(env, dev) == seq!["--ro-bind"@, node, node],
{
    reveal_strlit("dri");
    reveal_strlit("audio");
    reveal_strlit("input");
    assert("dri"@.len() == 3);
    assert("audio"@.len() == 5);
    assert("input"@.len() == 5);
    assert("input"@ != "audio"@) by {
        assert("input"@[0] != "audio"@[0]);
    }
}

/// Device permissions reach the sandbox: for `dri`, `audio` or `input`,
/// when the host has `/dev/dri`, `/dev/snd` or `/dev/input` respectively,
/// the command line binds that node read-only at the same place.
pub proof fn lemma_device_permission_binds(
    rootfs: Seq<char>,
    perm: crate::permission::PermissionSetView,
    entrypoint: Seq<char>,
    app_args: Seq<Seq<char>>,
    env: HostEnvView,
    i: int,
    node: Seq<char>,
)
    requires
        0 <= i < perm.devices.len(),
        (perm.devices[i] == "dri"@ && node == "/dev/dri"@) || (perm.devices[i] == "audio"@ && node
            == "/dev/snd"@) || (perm.devices[i] == "input"@ && node == "/dev/input"@),
        env.existing.contains(node),
    ensures
        has_run(bwrap_args(rootfs, perm, entrypoint, app_args, env), seq!["--ro-bind"@, node, node]),
{
    let w = seq!["--ro-bind"@, node, node];
    let f = |d: Seq<char>| device_bind(env, d);
    lemma_known_device_bind(env, perm.devices[i], node);
    lemma_flatten_map_piece(perm.devices, f, i);
    let devs = perm.devices.map_values(f).flatten();
    lemma_run_in_middle(
        perm.devices.take(i).map_values(f).flatten(),
        w,
        perm.devices.skip(i + 1).map_values(f).flatten(),
    );
    let x = base_args(rootfs) + system_binds(env) + perm.filesystem.map_values(
        |p: Seq<char>| fs_bind(env, p),
    ).flatten() + isolation_args() + network_args(perm);
    lemma_run_extend(x, devs, w);
    let s1 = x + devs;
    let s2 = s1 + perm.ipc.map_values(|y: Seq<char>| ipc_args(env, y)).flatten();
    lemma_run_extend(s1, perm.ipc.map_values(|y: Seq<char>| ipc_args(env, y)).flatten(), w);
    let s3 = s2 + runtime_bind(env, "/doc/by-app"@);
    lemma_run_extend(s2, runtime_bind(env, "/doc/by-app"@), w);
    let s4 = s3 + display_args(env, perm.display);
    lemma_run_extend(s3, display_args(env, perm.display), w);
    let s5 = s4 + passed_vars().map_values(|v: Seq<char>| pass_var(env, v)).flatten();
    lemma_run_extend(s4, passed_vars().map_values(|v: Seq<char>| pass_var(env, v)).flatten(), w);
    let s6 = s5 + seq!["--"@, "/run/app"@ + entrypoint];
    lemma_run_extend(s5, seq!["--"@, "/run/app"@ + entrypoint], w);
    lemma_run_extend(s6, app_args, w);
    assert(bwrap_args(rootfs, perm, entrypoint, app_args, env) == s6 + app_args);
}

pub(crate) fn push_arg(args: &mut Vec<String>, a: &str)
    ensures
        views(final(args)@) == views(old(args)@).push(a@),
{
    args.push(String::from_str(a));
    assert(views(args@) =~= views(old(args)@).push(a@));
}

pub(crate) fn push_ro_bind(args: &mut Vec<String>, p: &str)
    ensures
        views(final(args)@) == views(old(args)@) + ro_bind(p@),
{
    push_arg(args, "--ro-bind");
    push_arg(args, p);
    push_arg(args, p);
    assert(views(args@) =~= views(old(args)@) + ro_bind(p@));
}

fn push_set_env(args: &mut Vec<String>, name: &str, value: &str)
    ensures
        views(final(args)@) == views(old(args)@) + set_env(name@, value@),
{
    push_arg(args, "--setenv");
    push_arg(args, name);
    push_arg(args, value);
    assert(views(args@) =~= views(old(args)@) + set_env(name@, value@));
}

pub(crate) fn push_bind_if_exists(args: &mut Vec<String>, env: &HostEnv, p: &str)
    ensures
        views(final(args)@) == views(old(args)@) + bind_if_exists(env@, p@),
{
    if env.has_path(p) {
        push_ro_bind(args, p);
    } else {
        assert(views(args@) =~= views(args@) + Seq::<Seq<char>>::empty());
    }
}

fn push_pass_var(args: &mut Vec<String>, env: &HostEnv, name: &str)
    ensures
        views(final(args)@) == views(old(args)@) + pass_var(env@, name@),
{
    match env.var(name) {
        Some(v) => push_set_env(args, name, v.as_str()),
        None => {
            assert(views(args@) =~= views(args@) + Seq::<Seq<char>>::empty());
        },
    }
}

fn push_runtime_bind(args: &mut Vec<String>, env: &HostEnv, suffix: &str)
    ensures
        views(final(args)@) == views(old(args)@) + runtime_bind(env@, suffix@),
{
    match env.var("XDG_RUNTIME_DIR") {
        Some(r) => {
            let p = crate::strings::concat_str(r.as_str(), suffix);
            push_bind_if_exists(args, env, p.as_str());
        },
        None => {
            assert(views(args@) =~= views(args@) + Seq::<Seq<char>>::empty());
        },
    }
}

} // verus!

verus! {

fn push_system_binds(args: &mut Vec<String>, env: &HostEnv)
    ensures
        views(final(args)@) == views(old(args)@) + system_binds(env@),
{
    let dirs: Vec<&str> = vec!["/usr", "/lib", "/lib64", "/bin", "/sbin", "/etc", "/nix/store"];
    let ghost f = |p: Seq<char>| bind_if_exists(env@, p);
    let ghost dv = dirs@.map_values(|s: &str| s@);
    assert(dv =~= system_dirs());
    let mut i: usize = 0;
    while i < dirs.len()
        invariant
            i <= dirs@.len(),
            dv == dirs@.map_values(|s: &str| s@),
            dv == system_dirs(),
            f == (|p: Seq<char>| bind_if_exists(env@, p)),
            views(args@) == views(old(args)@) + dv.take(i as int).map_values(f).flatten(),
        decreases dirs@.len() - i,
    {
        let ghost before = views(args@);
        push_bind_if_exists(args, env, dirs[i]);
        proof {
            lemma_flatten_map_step(dv, f, i as int);
            assert(views(args@) =~= views(old(args)@) + dv.take(i + 1).map_values(f).flatten());
        }
        i = i + 1;
    }
    assert(dv.take(dirs@.len() as int) =~= dv);
}

fn push_fs_binds(args: &mut Vec<String>, env: &HostEnv, paths: &Vec<String>)
    ensures
        views(final(args)@) == views(old(args)@) + views(paths@).map_values(
            |p: Seq<char>| fs_bind(env@, p),
        ).flatten(),
{
    let ghost f = |p: Seq<char>| fs_bind(env@, p);
    let ghost pv = views(paths@);
    let mut i: usize = 0;
    while i < paths.len()
        invariant
            i <= paths@.len(),
            pv == views(paths@),
            f == (|p: Seq<char>| fs_bind(env@, p)),
            views(args@) == views(old(args)@) + pv.take(i as int).map_values(f).flatten(),
        decreases paths@.len() - i,
    {
        let expanded = shellexpand(paths[i].as_str(), env);
        push_arg(args, "--bind");
        push_arg(args, expanded.as_str());
        push_arg(args, expanded.as_str());
        proof {
            lemma_flatten_map_step(pv, f, i as int);
            assert(views(args@) =~= views(old(args)@) + pv.take(i + 1).map_values(f).flatten());
        }
        i = i + 1;
    }
    assert(pv.take(paths@.len() as int) =~= pv);
}

fn push_device_bind(args: &mut Vec<String>, env: &HostEnv, dev: &str)
    ensures
        views(final(args)@) == views(old(args)@) + device_bind(env@, dev@),
{
    if crate::strings::str_eq(dev, "dri") {
        push_bind_if_exists(args, env, "/dev/dri");
    } else if crate::strings::str_eq(dev, "audio") {
        push_bind_if_exists(args, env, "/dev/snd");
    } else if crate::strings::str_eq(dev, "input") {
        push_bind_if_exists(args, env, "/dev/input");
    } else {
        assert(views(args@) =~= views(args@) + Seq::<Seq<char>>::empty());
    }
}

fn push_device_binds(args: &mut Vec<String>, env: &HostEnv, devs: &Vec<String>)
    ensures
        views(final(args)@) == views(old(args)@) + views(devs@).map_values(
            |d: Seq<char>| device_bind(env@, d),
        ).flatten(),
{
    let ghost f = |d: Seq<char>| device_bind(env@, d);
    let ghost dv = views(devs@);
    let mut i: usize = 0;
    while i < devs.len()
        invariant
            i <= devs@.len(),
            dv == views(devs@),
            f == (|d: Seq<char>| device_bind(env@, d)),
            views(args@) == views(old(args)@) + dv.take(i as int).map_values(f).flatten(),
        decreases devs@.len() - i,
    {
        push_device_bind(args, env, devs[i].as_str());
        proof {
            lemma_flatten_map_step(dv, f, i as int);
            assert(views(args@) =~= views(old(args)@) + dv.take(i + 1).map_values(f).flatten());
        }
        i = i + 1;
    }
    assert(dv.take(devs@.len() as int) =~= dv);
}

fn push_ipc_args(args: &mut Vec<String>, env: &HostEnv, ipc: &str)
    ensures
        views(final(args)@) == views(old(args)@) + ipc_args(env@, ipc@),
{
    if crate::strings::str_eq(ipc, "wayland") {
        push_runtime_bind(args, env, "/wayland-0");
    } else if crate::strings::str_eq(ipc, "x11") {
        push_ro_bind(args, "/tmp/.X11-unix");
        push_pass_var(args, env, "DISPLAY");
        assert(views(args@) =~= views(old(args)@) + (ro_bind("/tmp/.X11-unix"@) + pass_var(
            env@,
            "DISPLAY"@,
        )));
    } else if crate::strings::str_eq(ipc, "dbus-session") {
        push_runtime_bind(args, env, "/bus");
        push_pass_var(args, env, "DBUS_SESSION_BUS_ADDRESS");
        assert(views(args@) =~= views(old(args)@) + (runtime_bind(env@, "/bus"@) + pass_var(
            env@,
            "DBUS_SESSION_BUS_ADDRESS"@,
        )));
    } else {
        assert(views(args@) =~= views(args@) + Seq::<Seq<char>>::empty());
    }
}

fn push_all_ipc_args(args: &mut Vec<String>, env: &HostEnv, ipcs: &Vec<String>)
    ensures
        views(final(args)@) == views(old(args)@) + views(ipcs@).map_values(
            |i: Seq<char>| ipc_args(env@, i),
        ).flatten(),
{
    let ghost f = |i: Seq<char>| ipc_args(env@, i);
    let ghost iv = views(ipcs@);
    let mut i: usize = 0;
    while i < ipcs.len()
        invariant
            i <= ipcs@.len(),
            iv == views(ipcs@),
            f == (|i: Seq<char>| ipc_args(env@, i)),
            views(args@) == views(old(args)@) + iv.take(i as int).map_values(f).flatten(),
        decreases ipcs@.len() - i,
    {
        push_ipc_args(args, env, ipcs[i].as_str());
        proof {
            lemma_flatten_map_step(iv, f, i as int);
            assert(views(args@) =~= views(old(args)@) + iv.take(i + 1).map_values(f).flatten());
        }
        i = i + 1;
    }
    assert(iv.take(ipcs@.len() as int) =~= iv);
}

fn push_display_args(args: &mut Vec<String>, env: &HostEnv, display: &str)
    ensures
        views(final(args)@) == views(old(args)@) + display_args(env@, display@),
{
    if crate::strings::str_eq(display, "wayland") {
        push_set_env(args, "WAYLAND_DISPLAY", "wayland-0");
        push_set_env(args, "XDG_SESSION_TYPE", "wayland");
        assert(views(args@) =~= views(old(args)@) + display_args(env@, display@));
    } else if crate::strings::str_eq(display, "x11") {
        push_pass_var(args, env, "DISPLAY");
        let ghost mid = views(args@);
        match env.var("XAUTHORITY") {
            Some(xa) => {
                push_arg(args, "--ro-bind-try");
                push_arg(args, xa.as_str());
                push_arg(args, xa.as_str());
            },
            None => {},
        }
        assert(views(args@) =~= views(old(args)@) + display_args(env@, display@));
    } else {
        assert(views(args@) =~= views(args@) + Seq::<Seq<char>>::empty());
    }
}

fn push_passed_vars(args: &mut Vec<String>, env: &HostEnv)
    ensures
        views(final(args)@) == views(old(args)@) + passed_vars().map_values(
            |v: Seq<char>| pass_var(env@, v),
        ).flatten(),
{
    let names: Vec<&str> = vec!["HOME", "USER", "LANG", "LC_ALL", "PATH", "TERM", "XAUTHORITY"];
    let ghost f = |v: Seq<char>| pass_var(env@, v);
    let ghost nv = names@.map_values(|s: &str| s@);
    assert(nv =~= passed_vars());
    let mut i: usize = 0;
    while i < names.len()
        invariant
            i <= names@.len(),
            nv == names@.map_values(|s: &str| s@),
            nv == passed_vars(),
            f == (|v: Seq<char>| pass_var(env@, v)),
            views(args@) == views(old(args)@) + nv.take(i as int).map_values(f).flatten(),
        decreases names@.len() - i,
    {
        push_pass_var(args, env, names[i]);
        proof {
            lemma_flatten_map_step(nv, f, i as int);
            assert(views(args@) =~= views(old(args)@) + nv.take(i + 1).map_values(f).flatten());
        }
        i = i + 1;
    }
    assert(nv.take(names@.len() as int) =~= nv);
}

} // verus!

verus! {

/// The bubblewrap arguments that run `entrypoint` of the image mounted at
/// `rootfs` under `perm`, given what the host provides.
pub fn build_bwrap_args(
    rootfs: &str,
    perm: &crate::permission::PermissionSet,
    entrypoint: &str,
    app_args: &[String],
    env: &HostEnv,
) -> (r: Vec<String>)
    ensures
        views(r@) == bwrap_args(rootfs@, perm@, entrypoint@, views(app_args@), env@),
{
    let mut args: Vec<String> = Vec::new();
    push_arg(&mut args, "--proc");
    push_arg(&mut args, "/proc");
    push_arg(&mut args, "--dev");
    push_arg(&mut args, "/dev");
    push_arg(&mut args, "--tmpfs");
    push_arg(&mut args, "/tmp");
    push_arg(&mut args, "--tmpfs");
    push_arg(&mut args, "/run");
    push_arg(&mut args, "--ro-bind");
    push_arg(&mut args, rootfs);
    push_arg(&mut args, "/run/app");
    assert(views(args@) =~= base_args(rootfs@));
    let ghost s0 = views(args@);

    push_system_binds(&mut args, env);
    let adjusted_entrypoint = crate::strings::concat_str("/run/app", entrypoint);
    push_fs_binds(&mut args, env, &perm.filesystem);
    let ghost s1 = views(args@);

    push_arg(&mut args, "--unshare-pid");
    push_arg(&mut args, "--unshare-uts");
    push_arg(&mut args, "--unshare-ipc");
    push_arg(&mut args, "--die-with-parent");
    push_arg(&mut args, "--unshare-user");
    push_arg(&mut args, "--uid");
    push_arg(&mut args, "0");
    push_arg(&mut args, "--gid");
    push_arg(&mut args, "0");
    assert(views(args@) =~= s1 + isolation_args());
    let ghost s2 = views(args@);

    if !perm.network.allows_network() {
        push_arg(&mut args, "--unshare-net");
    }
    assert(views(args@) =~= s2 + network_args(perm@));
    let ghost s3 = views(args@);

    push_device_binds(&mut args, env, &perm.devices);
    push_all_ipc_args(&mut args, env, &perm.ipc);
    push_runtime_bind(&mut args, env, "/doc/by-app");
    push_display_args(&mut args, env, perm.display.as_str());
    push_passed_vars(&mut args, env);
    let ghost s4 = views(args@);

    push_arg(&mut args, "--");
    push_arg(&mut args, adjusted_entrypoint.as_str());
    let mut i: usize = 0;
    while i < app_args.len()
        invariant
            i <= app_args@.len(),
            views(args@) == s4 + seq!["--"@, "/run/app"@ + entrypoint@] + views(app_args@).take(
                i as int,
            ),
        decreases app_args@.len() - i,
    {
        push_arg(&mut args, app_args[i].as_str());
        assert(views(app_args@).take(i + 1) =~= views(app_args@).take(i as int).push(
            app_args@[i as int]@,
        ));
        i = i + 1;
    }
    assert(views(app_args@).take(app_args@.len() as int) =~= views(app_args@));
    assert(views(args@) =~= bwrap_args(rootfs@, perm@, entrypoint@, views(app_args@), env@));
    args
}

/// The host paths whose existence the command line depends on: the shared
/// system directories, the device nodes, and the Wayland socket, session bus
/// and document portal under `$XDG_RUNTIME_DIR` when it is set.
pub open spec fn probe_list(vars: Seq<(Seq<char>, Seq<char>)>) -> Seq<Seq<char>> {
    system_dirs() + seq!["/dev/dri"@, "/dev/snd"@, "/dev/input"@] + match env_lookup(
        vars,
        "XDG_RUNTIME_DIR"@,
    ) {
        Some(r) => seq![r + "/wayland-0"@, r + "/bus"@, r + "/doc/by-app"@],
        None => Seq::empty(),
    }
}

/// The host paths to test for existence before building the command line.
pub fn sandbox_probe_paths(env: &HostEnv) -> (r: Vec<String>)
    ensures
        views(r@) == probe_list(env@.vars),
{
    let mut r: Vec<String> = Vec::new();
    push_arg(&mut r, "/usr");
    push_arg(&mut r, "/lib");
    push_arg(&mut r, "/lib64");
    push_arg(&mut r, "/bin");
    push_arg(&mut r, "/sbin");
    push_arg(&mut r, "/etc");
    push_arg(&mut r, "/nix/store");
    push_arg(&mut r, "/dev/dri");
    push_arg(&mut r, "/dev/snd");
    push_arg(&mut r, "/dev/input");
    let ghost fixed = views(r@);
    match env.var("XDG_RUNTIME_DIR") {
        Some(rt) => {
            push_arg(&mut r, crate::strings::concat_str(rt.as_str(), "/wayland-0").as_str());
            push_arg(&mut r, crate::strings::concat_str(rt.as_str(), "/bus").as_str());
            push_arg(&mut r, crate::strings::concat_str(rt.as_str(), "/doc/by-app").as_str());
        },
        None => {},
    }
    assert(views(r@) =~= probe_list(env@.vars));
    r
}

} // verus!
