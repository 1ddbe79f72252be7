use vstd::prelude::*;
use crate::error::text;
use crate::header::{BundleHeader, HeaderView};
use crate::permission::{PermissionSet, PermissionSetView, PermissionValue, PermissionValueView};
use crate::strings::{concat_str, push_char, str_eq, views};
use crate::host::{HostEnv, env_lookup};
use crate::store::{join, join_path};

verus! {

// ---------------------------------------------------------------------------
// Showing a network permission.
// ---------------------------------------------------------------------------

/// How `Debug` writes a list of strings.
pub uninterp spec fn debug_list_of(items: Seq<Seq<char>>) -> Seq<char>;

/// `format!("{:?}", items)`: a list of strings as `Debug` writes it (quoted,
/// escaped, comma separated, in brackets); the exact text is named.
#[verifier::external_body]
fn debug_list(items: &Vec<String>) -> (r: String)
    ensures
        r@ == debug_list_of(views(items@)),
{
    format!("{:?}", items)
}

/// How the permission editor shows a network permission: `true` or
/// `false`, or the pattern list as `Debug` writes it.
pub open spec fn perm_value_text(v: PermissionValueView) -> Seq<char> {
    match v {
        PermissionValueView::Bool(b) => if b {
            "true"@
        } else {
            "false"@
        },
        PermissionValueView::Patterns(p) => debug_list_of(p),
    }
}

/// The text shown for a network permission.
pub fn fmt_perm_value(v: &PermissionValue) -> (r: String)
    ensures
        r@ == perm_value_text(v@),
{
    match v {
        PermissionValue::Bool(b) => if *b {
            text("true")
        } else {
            text("false")
        },
        PermissionValue::Patterns(p) => debug_list(p),
    }
}

// ---------------------------------------------------------------------------
// Trimming input lines.
// ---------------------------------------------------------------------------

/// Whether Unicode's `White_Space` property holds of `c`: tab, line feed,
/// vertical tab, form feed, carriage return, space, next line, no-break
/// space, ogham space mark, the spaces U+2000 to U+200A, line separator,
/// paragraph separator, narrow no-break space, medium mathematical space and
/// ideographic space.
pub open spec fn unicode_whitespace(c: char) -> bool {
    let u = c as u32;
    (0x09 <= u <= 0x0d) || u == 0x20 || u == 0x85 || u == 0xa0 || u == 0x1680 || (0x2000 <= u
        <= 0x200a) || u == 0x2028 || u == 0x2029 || u == 0x202f || u == 0x205f || u == 0x3000
}

/// `char::is_whitespace`: Unicode's `White_Space` property, the characters
/// that `unicode_whitespace` lists.
#[verifier::external_body]
pub(crate) fn is_whitespace(c: char) -> (r: bool)
    ensures
        r == unicode_whitespace(c),
        (c as u32) < 128 ==> (r <==> (c == ' ' || ('\t' <= c <= '\r'))),
{
    c.is_whitespace()
}

/// The first position from `i` on that holds no white space, or the length.
pub open spec fn first_non_space(s: Seq<char>, i: int) -> int
    decreases s.len() - i,
{
    if i < 0 || i >= s.len() {
        s.len() as int
    } else if unicode_whitespace(s[i]) {
        first_non_space(s, i + 1)
    } else {
        i
    }
}

/// The position after the last character before `j`, down to `lo`, that is
/// not white space; `lo` when there is none.
pub open spec fn end_non_space(s: Seq<char>, lo: int, j: int) -> int
    decreases j - lo,
{
    if j <= lo {
        lo
    } else if unicode_whitespace(s[j - 1]) {
        end_non_space(s, lo, j - 1)
    } else {
        j
    }
}

/// `s` without leading and trailing white space, as `str::trim` gives it.
pub open spec fn trimmed(s: Seq<char>) -> Seq<char> {
    let a = first_non_space(s, 0);
    s.subrange(a, end_non_space(s, a, s.len() as int))
}

proof fn lemma_first_non_space(s: Seq<char>, i: int)
    requires
        0 <= i <= s.len(),
    ensures
        i <= first_non_space(s, i) <= s.len(),
    decreases s.len() - i,
{
    if i < s.len() && unicode_whitespace(s[i]) {
        lemma_first_non_space(s, i + 1);
    }
}

proof fn lemma_end_non_space(s: Seq<char>, lo: int, j: int)
    requires
        lo <= j,
    ensures
        lo <= end_non_space(s, lo, j) <= j,
    decreases j - lo,
{
    if j > lo && unicode_whitespace(s[j - 1]) {
        lemma_end_non_space(s, lo, j - 1);
    }
}

/// `s` without leading and trailing white space.
pub fn trim(s: &str) -> (r: String)
    ensures
        r@ == trimmed(s@),
{
    let cs = crate::strings::chars_of(s);
    let n = cs.len();
    let mut a: usize = 0;
    while a < n
        invariant
            n == cs@.len(),
            a <= n,
            first_non_space(cs@, 0) == first_non_space(cs@, a as int),
        ensures
            a <= n,
            a == first_non_space(cs@, 0),
        decreases n - a,
    {
        if !is_whitespace(cs[a]) {
            break;
        }
        a = a + 1;
    }
    let mut b: usize = n;
    while b > a
        invariant
            n == cs@.len(),
            a <= b <= n,
            end_non_space(cs@, a as int, n as int) == end_non_space(cs@, a as int, b as int),
        ensures
            a <= b <= n,
            b == end_non_space(cs@, a as int, n as int),
        decreases b - a,
    {
        if !is_whitespace(cs[b - 1]) {
            break;
        }
        b = b - 1;
    }
    crate::strings::string_from_chars(&cs, a, b)
}

// ---------------------------------------------------------------------------
// Editing an installed app's permissions, one input line at a time.
// ---------------------------------------------------------------------------

/// Which list of the permission set is being entered.
#[derive(Clone, Copy, PartialEq, Eq, Debug)]
pub enum ListField {
    Filesystem,
    Devices,
    Ipc,
}

/// Where the editor is.
pub enum EditState {
    /// The menu is shown and a choice is awaited.
    Menu,
    /// `true` or `false` is awaited for the network.
    Network,
    /// Items of a list are being entered; an empty line ends the list.
    Collecting(ListField, Vec<String>),
    /// A display name is awaited; an empty line keeps the current one.
    Display,
    /// The permissions were saved.
    Done,
}

/// Where the editor is, as plain values.
pub enum EditStateView {
    Menu,
    Network,
    Collecting(ListField, Seq<Seq<char>>),
    Display,
    Done,
}

impl View for EditState {
    type V = EditStateView;

    open spec fn view(&self) -> EditStateView {
        match self {
            EditState::Menu => EditStateView::Menu,
            EditState::Network => EditStateView::Network,
            EditState::Collecting(f, items) => EditStateView::Collecting(*f, views(items@)),
            EditState::Display => EditStateView::Display,
            EditState::Done => EditStateView::Done,
        }
    }
}

/// What the caller shows or does after a line.
pub enum EditAction {
    /// Show the menu again.
    ShowMenu,
    /// Say the choice was not understood, then show the menu.
    InvalidChoice,
    /// Ask for the network flag.
    AskNetwork,
    /// Announce the list and ask for its first item.
    StartList(ListField),
    /// Ask for the next item of the list.
    AskItem(ListField),
    /// Ask for the display.
    AskDisplay,
    /// Write the permissions back and stop.
    Save,
}

/// The permission set with one list replaced.
pub open spec fn set_list(p: PermissionSetView, f: ListField, items: Seq<Seq<char>>) -> PermissionSetView {
    match f {
        ListField::Filesystem => PermissionSetView { filesystem: items, ..p },
        ListField::Devices => PermissionSetView { devices: items, ..p },
        ListField::Ipc => PermissionSetView { ipc: items, ..p },
    }
}

/// One step of the editor: from the permissions and the state, on a line
/// (trimmed first), to the new permissions, the new state and what to show.
pub open spec fn edit_step(p: PermissionSetView, st: EditStateView, line: Seq<char>) -> (
    PermissionSetView,
    EditStateView,
    EditAction,
) {
    let t = trimmed(line);
    match st {
        EditStateView::Menu => if t == "1"@ {
            (p, EditStateView::Network, EditAction::AskNetwork)
        } else if t == "2"@ {
            (p, EditStateView::Collecting(ListField::Filesystem, Seq::empty()), EditAction::StartList(ListField::Filesystem))
        } else if t == "3"@ {
            (p, EditStateView::Collecting(ListField::Devices, Seq::empty()), EditAction::StartList(ListField::Devices))
        } else if t == "4"@ {
            (p, EditStateView::Collecting(ListField::Ipc, Seq::empty()), EditAction::StartList(ListField::Ipc))
        } else if t == "5"@ {
            (p, EditStateView::Display, EditAction::AskDisplay)
        } else if t == "6"@ {
            (p, EditStateView::Done, EditAction::Save)
        } else {
            (p, EditStateView::Menu, EditAction::InvalidChoice)
        },
        EditStateView::Network => (
            PermissionSetView { network: PermissionValueView::Bool(t == "true"@), ..p },
            EditStateView::Menu,
            EditAction::ShowMenu,
        ),
        EditStateView::Collecting(f, items) => if t.len() == 0 {
            (set_list(p, f, items), EditStateView::Menu, EditAction::ShowMenu)
        } else {
            (p, EditStateView::Collecting(f, items.push(t)), EditAction::AskItem(f))
        },
        EditStateView::Display => (
            if t.len() == 0 {
                p
            } else {
                PermissionSetView { display: t, ..p }
            },
            EditStateView::Menu,
            EditAction::ShowMenu,
        ),
        EditStateView::Done => (p, EditStateView::Done, EditAction::Save),
    }
}

/// The permissions and the state after feeding the editor `lines` in turn.
pub open spec fn run_editor(p: PermissionSetView, st: EditStateView, lines: Seq<Seq<char>>) -> (
    PermissionSetView,
    EditStateView,
)
    decreases lines.len(),
{
    if lines.len() == 0 {
        (p, st)
    } else {
        let (p2, st2, _a) = edit_step(p, st, lines[0]);
        run_editor(p2, st2, lines.drop_first())
    }
}

proof fn lemma_collect_list(
    p: PermissionSetView,
    f: ListField,
    acc: Seq<Seq<char>>,
    lines: Seq<Seq<char>>,
)
    requires
        forall|k: int| 0 <= k < lines.len() ==> #[trigger] trimmed(lines[k]).len() > 0,
    ensures
        run_editor(p, EditStateView::Collecting(f, acc), lines + seq![""@]) == (
            set_list(p, f, acc + lines.map_values(|l: Seq<char>| trimmed(l))),
            EditStateView::Menu,
        ),
    decreases lines.len(),
{
    reveal_strlit("");
    let all = lines + seq![""@];
    if lines.len() == 0 {
        assert(all =~= seq![""@]);
        assert(all[0] == ""@);
        assert(trimmed(""@) =~= ""@);
        assert(all.drop_first() =~= Seq::<Seq<char>>::empty());
        assert(run_editor(set_list(p, f, acc), EditStateView::Menu, all.drop_first()) == (
            set_list(p, f, acc),
            EditStateView::Menu,
        ));
        assert(acc + lines.map_values(|l: Seq<char>| trimmed(l)) =~= acc);
    } else {
        let t = trimmed(lines[0]);
        assert(all[0] == lines[0]);
        assert(all.drop_first() =~= lines.drop_first() + seq![""@]);
        assert forall|k: int| 0 <= k < lines.drop_first().len() implies #[trigger] trimmed(
            lines.drop_first()[k],
        ).len() > 0 by {
            assert(lines.drop_first()[k] == lines[k + 1]);
        }
        lemma_collect_list(p, f, acc.push(t), lines.drop_first());
        assert(acc.push(t) + lines.drop_first().map_values(|l: Seq<char>| trimmed(l)) =~= acc
            + lines.map_values(|l: Seq<char>| trimmed(l)));
    }
}

/// Editing the device list: choosing 3 at the menu, then giving items and
/// an empty line, sets the devices to the items entered (each trimmed) and
/// leaves the network, files, IPC and display as they were, back at the menu.
pub proof fn lemma_edit_devices(p: PermissionSetView, lines: Seq<Seq<char>>)
    requires
        forall|k: int| 0 <= k < lines.len() ==> #[trigger] trimmed(lines[k]).len() > 0,
    ensures
        run_editor(p, EditStateView::Menu, seq!["3"@] + lines + seq![""@]) == (
            PermissionSetView { devices: lines.map_values(|l: Seq<char>| trimmed(l)), ..p },
            EditStateView::Menu,
        ),
{
    reveal_strlit("3");
    reveal_strlit("1");
    reveal_strlit("2");
    let s = seq!["3"@] + lines + seq![""@];
    assert(trimmed("3"@) =~= "3"@) by {
        assert(!unicode_whitespace('3'));
        assert(first_non_space("3"@, 0) == 0);
        assert(end_non_space("3"@, 0, 1) == 1);
    }
    assert("3"@ != "1"@ && "3"@ != "2"@);
    assert(s[0] == "3"@);
    assert(s.drop_first() =~= lines + seq![""@]);
    lemma_collect_list(p, ListField::Devices, Seq::empty(), lines);
    assert(Seq::<Seq<char>>::empty() + lines.map_values(|l: Seq<char>| trimmed(l)) =~= lines.map_values(
        |l: Seq<char>| trimmed(l),
    ));
}

/// The permission editor: the permissions as edited so far and where it is.
pub struct PermissionEditor {
    pub perm: PermissionSet,
    pub state: EditState,
}

impl PermissionEditor {
    /// An editor of `perm`, at the menu.
    pub fn new(perm: PermissionSet) -> (r: PermissionEditor)
        ensures
            r.perm@ == perm@,
            r.state@ == EditStateView::Menu,
    {
        PermissionEditor { perm, state: EditState::Menu }
    }

    /// Takes one input line (see `edit_step`).
    pub fn step(&mut self, line: &str) -> (r: EditAction)
        ensures
            (final(self).perm@, final(self).state@, r) == edit_step(old(self).perm@, old(self).state@, line@),
    {
        let t = trim(line);
        let ts = t.as_str();
        let mut state = EditState::Menu;
        core::mem::swap(&mut state, &mut self.state);
        match state {
            EditState::Menu => {
                if str_eq(ts, "1") {
                    self.state = EditState::Network;
                    EditAction::AskNetwork
                } else if str_eq(ts, "2") {
                    let empty: Vec<String> = Vec::new();
                    assert(views(empty@) =~= Seq::<Seq<char>>::empty());
                    self.state = EditState::Collecting(ListField::Filesystem, empty);
                    EditAction::StartList(ListField::Filesystem)
                } else if str_eq(ts, "3") {
                    let empty: Vec<String> = Vec::new();
                    assert(views(empty@) =~= Seq::<Seq<char>>::empty());
                    self.state = EditState::Collecting(ListField::Devices, empty);
                    EditAction::StartList(ListField::Devices)
                } else if str_eq(ts, "4") {
                    let empty: Vec<String> = Vec::new();
                    assert(views(empty@) =~= Seq::<Seq<char>>::empty());
                    self.state = EditState::Collecting(ListField::Ipc, empty);
                    EditAction::StartList(ListField::Ipc)
                } else if str_eq(ts, "5") {
                    self.state = EditState::Display;
                    EditAction::AskDisplay
                } else if str_eq(ts, "6") {
                    self.state = EditState::Done;
                    EditAction::Save
                } else {
                    EditAction::InvalidChoice
                }
            },
            EditState::Network => {
                self.perm.network = PermissionValue::Bool(str_eq(ts, "true"));
                EditAction::ShowMenu
            },
            EditState::Collecting(f, items) => {
                if t.unicode_len() == 0 {
                    match f {
                        ListField::Filesystem => self.perm.filesystem = items,
                        ListField::Devices => self.perm.devices = items,
                        ListField::Ipc => self.perm.ipc = items,
                    }
                    EditAction::ShowMenu
                } else {
                    let mut items = items;
                    let ghost before = items@;
                    items.push(t);
                    assert(views(items@) =~= views(before).push(trimmed(line@)));
                    self.state = EditState::Collecting(f, items);
                    EditAction::AskItem(f)
                }
            },
            EditState::Display => {
                if t.unicode_len() != 0 {
                    self.perm.display = t;
                }
                EditAction::ShowMenu
            },
            EditState::Done => {
                self.state = EditState::Done;
                EditAction::Save
            },
        }
    }
}

/// The header with its permissions replaced.
pub fn with_permissions(header: &BundleHeader, perm: PermissionSet) -> (r: BundleHeader)
    ensures
        r@ == (HeaderView { permissions: perm@, ..header@ }),
{
    let mut h = header.copied();
    h.permissions = perm;
    h
}

} // verus!

verus! {

// ---------------------------------------------------------------------------
// Running a bundle.
// ---------------------------------------------------------------------------

/// A signed integer as `Display` writes it.
pub open spec fn signed_decimal(x: int) -> Seq<char> {
    if x < 0 {
        "-"@ + crate::strings::decimal((-x) as nat)
    } else {
        crate::strings::decimal(x as nat)
    }
}

fn i32_string(x: i32) -> (r: String)
    ensures
        r@ == signed_decimal(x as int),
{
    let wide: i64 = x as i64;
    if wide < 0 {
        let mut s = text("-");
        s.append(crate::strings::decimal_string((-wide) as u64).as_str());
        proof {
            reveal_strlit("-");
        }
        s
    } else {
        crate::strings::decimal_string(wide as u64)
    }
}

/// The position of the first `--` from `i` on, if any.
pub open spec fn first_separator(args: Seq<Seq<char>>, i: int) -> Option<int>
    decreases args.len() - i,
{
    if i < 0 || i >= args.len() {
        None
    } else if args[i] == "--"@ {
        Some(i)
    } else {
        first_separator(args, i + 1)
    }
}

/// The sandbox arguments with `--seccomp <fd>` placed before the first
/// `--`, when there is a filter descriptor and a `--`.
pub open spec fn with_seccomp(args: Seq<Seq<char>>, fd: Option<i32>) -> Seq<Seq<char>> {
    match (fd, first_separator(args, 0)) {
        (Some(f), Some(k)) => args.take(k) + seq!["--seccomp"@, signed_decimal(f as int)] + args.skip(k),
        _ => args,
    }
}

proof fn lemma_with_seccomp(v: Seq<Seq<char>>, fd: Option<i32>, k: int)
    requires
        first_separator(v, 0) == Some(k),
        0 <= k < v.len(),
    ensures
        fd is None ==> with_seccomp(v, fd) == v,
        fd is Some ==> ({
            let w = with_seccomp(v, fd);
            &&& w.len() == v.len() + 2
            &&& forall|j: int| 0 <= j < k ==> #[trigger] w[j] == v[j]
            &&& w[k] == "--seccomp"@
            &&& w[k + 1] == signed_decimal(fd->0 as int)
            &&& forall|j: int| k <= j < v.len() ==> #[trigger] w[j + 2] == v[j]
        }),
{
}

proof fn lemma_first_separator(v: Seq<Seq<char>>, i: int)
    requires
        0 <= i,
        first_separator(v, i) matches Some(k),
    ensures
        first_separator(v, i) matches Some(k) && i <= k < v.len() && v[k] == "--"@,
    decreases v.len() - i,
{
    if i < v.len() && v[i] != "--"@ {
        lemma_first_separator(v, i + 1);
    }
}

/// The sandbox arguments handed to bubblewrap, with the seccomp filter's
/// descriptor passed before the command.
pub fn insert_seccomp_arg(args: &Vec<String>, fd: Option<i32>) -> (r: Vec<String>)
    ensures
        views(r@) == with_seccomp(views(args@), fd),
{
    let ghost v = views(args@);
    let mut out: Vec<String> = Vec::new();
    let mut inserted = false;
    let mut i: usize = 0;
    while i < args.len()
        invariant
            v == views(args@),
            i <= args@.len(),
            !inserted ==> first_separator(v, 0) == first_separator(v, i as int),
            !inserted ==> views(out@) == v.take(i as int),
            inserted ==> (first_separator(v, 0) matches Some(k) && k < i && views(out@) == with_seccomp(v, fd).take(
                i + if fd is Some { 2int } else { 0int },
            )),
            inserted ==> (fd is Some ==> with_seccomp(v, fd).len() == v.len() + 2),
            inserted ==> (fd is None ==> with_seccomp(v, fd) == v),
        decreases args@.len() - i,
    {
        let ghost before = views(out@);
        if !inserted && str_eq(args[i].as_str(), "--") {
            proof {
                assert(first_separator(v, i as int) == Some(i as int));
            }
            match fd {
                Some(f) => {
                    crate::bwrap::push_arg(&mut out, "--seccomp");
                    crate::bwrap::push_arg(&mut out, i32_string(f).as_str());
                },
                None => {},
            }
            inserted = true;
        }
        crate::bwrap::push_arg(&mut out, args[i].as_str());
        proof {
            if inserted {
                let k = first_separator(v, 0)->0;
                lemma_first_separator(v, 0);
                lemma_with_seccomp(v, fd, k);
                let w = with_seccomp(v, fd);
                let extra = if fd is Some { 2int } else { 0int };
                assert(views(out@) =~= w.take(i + 1 + extra));
            } else {
                assert(views(out@) =~= v.take(i + 1));
            }
        }
        i = i + 1;
    }
    proof {
        if !inserted {
            assert(first_separator(v, args@.len() as int) is None);
            assert(v.take(args@.len() as int) =~= v);
        } else {
            lemma_first_separator(v, 0);
            lemma_with_seccomp(v, fd, first_separator(v, 0)->0);
            let w = with_seccomp(v, fd);
            let extra = if fd is Some { 2int } else { 0int };
            assert(w.take(args@.len() + extra) =~= w);
        }
    }
    out
}

/// The program run without a sandbox: the entry point (its leading `/`
/// dropped) inside the mounted root.
pub fn app_entry_path(rootfs: &str, entrypoint: &str) -> (r: String)
    ensures
        r@ == crate::store::join_path(rootfs@, crate::strings::strip_or_keep(entrypoint@, "/"@)),
{
    let rel = match crate::strings::strip_prefix(entrypoint, "/") {
        Some(t) => t,
        None => entrypoint,
    };
    crate::store::join(rootfs, rel)
}

} // verus!

verus! {

// ---------------------------------------------------------------------------
// Installing: the desktop entry.
// ---------------------------------------------------------------------------

/// The desktop entry written for an installed app.
pub open spec fn desktop_entry_of(name: Seq<char>, bundle_path: Seq<char>, app_id: Seq<char>) -> Seq<char> {
    "[Desktop Entry]\nType=Application\nName="@ + name + "\nComment=Nexpack application\nExec=nxpk run "@
        + bundle_path + " %%F\nTerminal=false\nCategories=Utility;\nX-Nexpack-AppId="@ + app_id + "\n"@
}

/// The desktop entry of an installed app.
pub fn desktop_entry(name: &str, bundle_path: &str, app_id: &str) -> (r: String)
    ensures
        r@ == desktop_entry_of(name@, bundle_path@, app_id@),
{
    let mut s = text("[Desktop Entry]\nType=Application\nName=");
    s.append(name);
    s.append("\nComment=Nexpack application\nExec=nxpk run ");
    s.append(bundle_path);
    s.append(" %%F\nTerminal=false\nCategories=Utility;\nX-Nexpack-AppId=");
    s.append(app_id);
    s.append("\n");
    s
}

/// Where desktop entries go: `$XDG_DATA_HOME/applications`, else
/// `$HOME/.local/share/applications` (with `/tmp` for a missing home).
pub open spec fn applications_dir_of(vars: Seq<(Seq<char>, Seq<char>)>) -> Seq<char> {
    let data_home = match env_lookup(vars, "XDG_DATA_HOME"@) {
        Some(d) => d,
        None => join_path(
            join_path(
                match env_lookup(vars, "HOME"@) {
                    Some(h) => h,
                    None => "/tmp"@,
                },
                ".local"@,
            ),
            "share"@,
        ),
    };
    join_path(data_home, "applications"@)
}

/// The directory desktop entries are written to.
pub fn applications_dir(env: &HostEnv) -> (r: String)
    ensures
        r@ == applications_dir_of(env@.vars),
{
    let data_home = match env.var("XDG_DATA_HOME") {
        Some(d) => d,
        None => {
            let home = match env.var("HOME") {
                Some(h) => h,
                None => text("/tmp"),
            };
            join(join(home.as_str(), ".local").as_str(), "share")
        },
    };
    join(data_home.as_str(), "applications")
}

/// The desktop entry file of an app: `<dir>/<app id>.desktop`.
pub fn desktop_file_path(apps_dir: &str, app_id: &str) -> (r: String)
    ensures
        r@ == join_path(apps_dir@, app_id@ + ".desktop"@),
{
    join(apps_dir, concat_str(app_id, ".desktop").as_str())
}

/// `~` expansion only: a `~` at the end or before `/` becomes `$HOME`
/// (nothing when it is unset).
pub open spec fn tilde_from(cs: Seq<char>, vars: Seq<(Seq<char>, Seq<char>)>, i: int) -> Seq<char>
    decreases cs.len() - i,
{
    if i < 0 || i >= cs.len() {
        Seq::empty()
    } else if cs[i] == '~' && (i + 1 >= cs.len() || cs[i + 1] == '/') {
        crate::bwrap::value_or_empty(env_lookup(vars, "HOME"@)) + tilde_from(cs, vars, i + 1)
    } else {
        seq![cs[i]] + tilde_from(cs, vars, i + 1)
    }
}

/// The path the desktop entry runs when the app's current image exists:
/// `~/.local/share/nexpack/apps/<app id>/current`, expanded.
pub open spec fn installed_candidate_of(app_id: Seq<char>, vars: Seq<(Seq<char>, Seq<char>)>) -> Seq<char> {
    tilde_from("~/.local/share/nexpack/apps/"@ + app_id + "/current"@, vars, 0)
}

/// The installed image path to try for the desktop entry.
pub fn installed_bundle_candidate(app_id: &str, env: &HostEnv) -> (r: String)
    ensures
        r@ == installed_candidate_of(app_id@, env@.vars),
{
    let mut p = text("~/.local/share/nexpack/apps/");
    p.append(app_id);
    p.append("/current");
    let cs = crate::strings::chars_of(p.as_str());
    let n = cs.len();
    let mut out = String::new();
    let mut i: usize = 0;
    while i < n
        invariant
            n == cs@.len(),
            i <= n,
            out@ + tilde_from(cs@, env@.vars, i as int) == tilde_from(cs@, env@.vars, 0),
        decreases n - i,
    {
        let ghost before = out@;
        if cs[i] == '~' && (i + 1 >= n || cs[i + 1] == '/') {
            match env.var("HOME") {
                Some(h) => out.append(h.as_str()),
                None => {},
            }
        } else {
            push_char(&mut out, cs[i]);
        }
        i = i + 1;
        assert(before + tilde_from(cs@, env@.vars, i - 1) =~= out@ + tilde_from(cs@, env@.vars, i as int));
    }
    assert(out@ + Seq::<char>::empty() =~= out@);
    out
}

/// What the desktop entry runs: the installed image when it exists, the
/// app id otherwise.
pub fn desktop_target(candidate: String, present: bool, app_id: &str) -> (r: String)
    ensures
        r@ == (if present {
            candidate@
        } else {
            app_id@
        }),
{
    if present {
        candidate
    } else {
        String::from_str(app_id)
    }
}

/// The digest an installed app's `current` link names: the hex digest of
/// its last layer, or nothing.
pub fn current_digest(header: &BundleHeader) -> (r: &str)
    ensures
        header.layers@.len() == 0 ==> r@ == Seq::<char>::empty(),
        header.layers@.len() > 0 ==> r@ == crate::layer::digest_hex_of(header.layers@.last().digest@),
{
    let n = header.layers.len();
    if n == 0 {
        proof {
            reveal_strlit("");
        }
        ""
    } else {
        header.layers[n - 1].digest_hex()
    }
}

/// The error for a layer of an installed app that the store lacks.
pub fn missing_layer_error(role: &str, digest_hex: &str) -> (r: crate::error::Error)
    ensures
        r matches crate::error::Error::Other(m) && m@ == "layer "@ + role@ + " not found in store (digest: "@
            + digest_hex@ + ")"@,
{
    let mut m = text("layer ");
    m.append(role);
    m.append(" not found in store (digest: ");
    m.append(digest_hex);
    m.append(")");
    crate::error::Error::Other(m)
}

// ---------------------------------------------------------------------------
// Trust policy files.
// ---------------------------------------------------------------------------

/// The configuration directory: `$XDG_CONFIG_HOME/nexpack`, else
/// `$HOME/.config/nexpack`, else none.
pub open spec fn config_dir_of(vars: Seq<(Seq<char>, Seq<char>)>) -> Option<Seq<char>> {
    match env_lookup(vars, "XDG_CONFIG_HOME"@) {
        Some(c) => Some(join_path(c, "nexpack"@)),
        None => match env_lookup(vars, "HOME"@) {
            Some(h) => Some(join_path(join_path(h, ".config"@), "nexpack"@)),
            None => None,
        },
    }
}

/// Where nexpack's configuration lives, if it can be determined.
pub fn config_dir(env: &HostEnv) -> (r: Option<String>)
    ensures
        crate::host::opt_view(r) == config_dir_of(env@.vars),
{
    match env.var("XDG_CONFIG_HOME") {
        Some(c) => Some(join(c.as_str(), "nexpack")),
        None => match env.var("HOME") {
            Some(h) => Some(join(join(h.as_str(), ".config").as_str(), "nexpack")),
            None => None,
        },
    }
}

/// The policy appended for `nxpk trust <pattern> <identity>`.
pub open spec fn policy_snippet_of(pattern: Seq<char>, identity: Seq<char>) -> Seq<char> {
    "\n[policy.\""@ + pattern + "\"]\nidentities = [\""@ + identity + "\"]\nrequire_rekor = true\n"@
}

/// The text of one trust policy.
pub fn policy_snippet(pattern: &str, identity: &str) -> (r: String)
    ensures
        r@ == policy_snippet_of(pattern@, identity@),
{
    let mut s = text("\n[policy.\"");
    s.append(pattern);
    s.append("\"]\nidentities = [\"");
    s.append(identity);
    s.append("\"]\nrequire_rekor = true\n");
    s
}

/// The trust file written when there is none yet.
pub open spec fn trust_template_text() -> Seq<char> {
    "# Nexpack Trust Policy\n# Format:\n#   [policy.\"app.id.pattern.*\"]\n#   identities = [\"identity@issuer\"]\n#   require_rekor = true\n#\n# Use wildcard * to match multiple apps.\n# The default policy is used when no specific match is found.\n\n[policy.default]\naction = \"prompt\"\n\n"@
}

/// The starting trust file.
pub fn trust_template() -> (r: String)
    ensures
        r@ == trust_template_text(),
{
    text("# Nexpack Trust Policy\n# Format:\n#   [policy.\"app.id.pattern.*\"]\n#   identities = [\"identity@issuer\"]\n#   require_rekor = true\n#\n# Use wildcard * to match multiple apps.\n# The default policy is used when no specific match is found.\n\n[policy.default]\naction = \"prompt\"\n\n")
}

/// The editor for the trust file: `$EDITOR`, else `$VISUAL`, else `nano`.
pub open spec fn editor_of(vars: Seq<(Seq<char>, Seq<char>)>) -> Seq<char> {
    match env_lookup(vars, "EDITOR"@) {
        Some(e) => e,
        None => match env_lookup(vars, "VISUAL"@) {
            Some(v) => v,
            None => "nano"@,
        },
    }
}

/// The editor to open the trust file with.
pub fn editor(env: &HostEnv) -> (r: String)
    ensures
        r@ == editor_of(env@.vars),
{
    match env.var("EDITOR") {
        Some(e) => e,
        None => match env.var("VISUAL") {
            Some(v) => v,
            None => text("nano"),
        },
    }
}

/// Whether a text holds nothing but white space.
pub fn is_blank(s: &str) -> (r: bool)
    ensures
        r == (trimmed(s@).len() == 0),
{
    trim(s).unicode_len() == 0
}

} // verus!

verus! {

// ---------------------------------------------------------------------------
// Searching.
// ---------------------------------------------------------------------------

/// The installed apps whose lowercase id contains the lowercase query, in
/// order.
pub open spec fn matching_of(apps: Seq<Seq<char>>, query: Seq<char>) -> Seq<Seq<char>> {
    apps.filter(
        |id: Seq<char>| crate::compat::contains_text(crate::compat::lowercase_of(id), crate::compat::lowercase_of(query)),
    )
}

/// The installed apps matching a search query.
pub fn matching_apps(apps: &Vec<String>, query: &str) -> (r: Vec<String>)
    ensures
        views(r@) == matching_of(views(apps@), query@),
{
    let q = crate::compat::to_lowercase(query);
    let ghost av = views(apps@);
    let ghost keep = |id: Seq<char>| crate::compat::contains_text(crate::compat::lowercase_of(id), crate::compat::lowercase_of(query@));
    let mut out: Vec<String> = Vec::new();
    let mut i: usize = 0;
    assert(av.take(0).filter(keep) =~= Seq::<Seq<char>>::empty());
    while i < apps.len()
        invariant
            av == views(apps@),
            keep == (|id: Seq<char>| crate::compat::contains_text(crate::compat::lowercase_of(id), crate::compat::lowercase_of(query@))),
            q@ == crate::compat::lowercase_of(query@),
            i <= apps@.len(),
            views(out@) == av.take(i as int).filter(keep),
        decreases apps@.len() - i,
    {
        let lower = crate::compat::to_lowercase(apps[i].as_str());
        let lc = crate::strings::chars_of(lower.as_str());
        let hit = crate::compat::text_contains(&lc, q.as_str());
        proof {
            assert(av.take(i + 1).drop_last() =~= av.take(i as int));
            assert(av.take(i + 1).last() == apps@[i as int]@);
            reveal(Seq::filter);
        }
        if hit {
            out.push(apps[i].clone());
        }
        assert(views(out@) =~= av.take(i + 1).filter(keep));
        i = i + 1;
    }
    assert(av.take(apps@.len() as int) =~= av);
    out
}

/// The uppercase hex digit for `d < 16`.
pub open spec fn upper_hex_char(d: int) -> char {
    if d < 10 {
        ((48 + d) as u8) as char
    } else {
        ((55 + d) as u8) as char
    }
}

/// Whether a byte is kept as it is in a URL query: letters, digits, `-`,
/// `_`, `.` and `~`.
pub open spec fn url_safe(b: u8) -> bool {
    (0x41 <= b <= 0x5a) || (0x61 <= b <= 0x7a) || (0x30 <= b <= 0x39) || b == 0x2d || b == 0x5f || b
        == 0x2e || b == 0x7e
}

/// How one byte of a query is written: kept when safe, `%20` for a space,
/// `%XX` (uppercase hex) otherwise.
pub open spec fn url_byte(b: u8) -> Seq<char> {
    if url_safe(b) {
        seq![b as char]
    } else if b == 0x20 {
        "%20"@
    } else {
        seq!['%', upper_hex_char(b as int / 16), upper_hex_char(b as int % 16)]
    }
}

/// A query percent-encoded byte by byte (its UTF-8 bytes).
pub open spec fn url_encoded(s: Seq<char>) -> Seq<char> {
    vstd::utf8::encode_utf8(s).map_values(|b: u8| url_byte(b)).flatten()
}

fn push_url_byte(out: &mut String, b: u8)
    ensures
        final(out)@ == old(out)@ + url_byte(b),
{
    if (0x41 <= b && b <= 0x5a) || (0x61 <= b && b <= 0x7a) || (0x30 <= b && b <= 0x39) || b == 0x2d
        || b == 0x5f || b == 0x2e || b == 0x7e {
        push_char(out, b as char);
        assert(out@ =~= old(out)@ + url_byte(b));
    } else if b == 0x20 {
        out.append("%20");
    } else {
        let hi = b / 16;
        let lo = b % 16;
        let ch = if hi < 10 { (48 + hi) as char } else { (55 + hi) as char };
        let cl = if lo < 10 { (48 + lo) as char } else { (55 + lo) as char };
        push_char(out, '%');
        push_char(out, ch);
        push_char(out, cl);
        assert(out@ =~= old(out)@ + url_byte(b));
    }
}

/// A search query, percent-encoded for a URL.
pub fn urlencoding(input: &str) -> (r: String)
    ensures
        r@ == url_encoded(input@),
{
    let bytes = input.as_bytes();
    let ghost f = |b: u8| url_byte(b);
    let mut out = String::new();
    let mut i: usize = 0;
    while i < bytes.len()
        invariant
            bytes@ == vstd::utf8::encode_utf8(input@),
            f == (|b: u8| url_byte(b)),
            i <= bytes@.len(),
            out@ == bytes@.take(i as int).map_values(f).flatten(),
        decreases bytes@.len() - i,
    {
        push_url_byte(&mut out, bytes[i]);
        proof {
            assert(bytes@.take(i + 1).map_values(f) =~= bytes@.take(i as int).map_values(f).push(
                url_byte(bytes@[i as int]),
            ));
            bytes@.take(i as int).map_values(f).lemma_flatten_push(url_byte(bytes@[i as int]));
        }
        i = i + 1;
    }
    assert(bytes@.take(bytes@.len() as int) =~= bytes@);
    out
}

/// The registry's search address for a query.
pub fn registry_search_url(url: &str, query: &str) -> (r: String)
    ensures
        r@ == url@ + "/api/v1/search?q="@ + url_encoded(query@),
{
    let mut s = String::from_str(url);
    s.append("/api/v1/search?q=");
    s.append(urlencoding(query).as_str());
    s
}

// ---------------------------------------------------------------------------
// File names.
// ---------------------------------------------------------------------------

/// What `Path::file_stem` gives for a path.
pub uninterp spec fn file_stem_of(path: Seq<char>) -> Option<Seq<char>>;

/// `Path::file_stem`: the file name without its final extension; a plain
/// non-empty name without `/` or `.` is its own stem.
#[verifier::external_body]
pub(crate) fn file_stem(path: &str) -> (r: Option<String>)
    ensures
        crate::host::opt_view(r) == file_stem_of(path@),
        path@.len() > 0 && !path@.contains('/') && !path@.contains('.') ==> crate::host::opt_view(r)
            == Some(path@),
{
    match std::path::Path::new(path).file_stem() {
        Some(s) => Some(s.to_string_lossy().to_string()),
        None => None,
    }
}

/// Where a signed bundle is written: the requested path, else
/// `<stem>_signed.nxpk`.
pub fn signed_output_name(bundle_path: &str, output: Option<&str>) -> (r: String)
    ensures
        r@ == match output {
            Some(o) => o@,
            None => crate::bwrap::value_or_empty(file_stem_of(bundle_path@)) + "_signed.nxpk"@,
        },
{
    match output {
        Some(o) => String::from_str(o),
        None => {
            let stem = match file_stem(bundle_path) {
                Some(s) => s,
                None => String::new(),
            };
            concat_str(stem.as_str(), "_signed.nxpk")
        },
    }
}

/// The app name of an AppImage: its file stem, else `app`.
pub fn appimage_name(path: &str) -> (r: String)
    ensures
        r@ == match file_stem_of(path@) {
            Some(s) => s,
            None => "app"@,
        },
{
    match file_stem(path) {
        Some(s) => s,
        None => text("app"),
    }
}

} // verus!

verus! {

/// The sandbox choice on the command line: `--sandbox` asks for it,
/// `--no-sandbox` refuses it, neither leaves the default.
pub fn sandbox_mode(sandbox: bool, no_sandbox: bool) -> (r: Option<bool>)
    ensures
        r == (if sandbox {
            Some(true)
        } else if no_sandbox {
            Some(false)
        } else {
            None
        }),
{
    if sandbox {
        Some(true)
    } else if no_sandbox {
        Some(false)
    } else {
        None
    }
}

} // verus!
