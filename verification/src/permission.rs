use vstd::prelude::*;
use crate::strings::views;
use crate::error::text;

verus! {

/// Network access: all or nothing, or a list of host patterns (which grants
/// network access).
#[derive(Debug, Clone)]
pub enum PermissionValue {
    Bool(bool),
    Patterns(Vec<String>),
}

/// What a sandboxed app may reach.
#[derive(Debug, Clone)]
pub struct PermissionSet {
    pub network: PermissionValue,
    pub filesystem: Vec<String>,
    pub devices: Vec<String>,
    pub ipc: Vec<String>,
    pub display: String,
}

/// A network permission as plain values.
pub enum PermissionValueView {
    Bool(bool),
    Patterns(Seq<Seq<char>>),
}

/// A permission set as plain values.
pub struct PermissionSetView {
    pub network: PermissionValueView,
    pub filesystem: Seq<Seq<char>>,
    pub devices: Seq<Seq<char>>,
    pub ipc: Seq<Seq<char>>,
    pub display: Seq<char>,
}

impl View for PermissionValue {
    type V = PermissionValueView;

    open spec fn view(&self) -> PermissionValueView {
        match self {
            PermissionValue::Bool(b) => PermissionValueView::Bool(*b),
            PermissionValue::Patterns(p) => PermissionValueView::Patterns(views(p@)),
        }
    }
}

impl View for PermissionSet {
    type V = PermissionSetView;

    open spec fn view(&self) -> PermissionSetView {
        PermissionSetView {
            network: self.network@,
            filesystem: views(self.filesystem@),
            devices: views(self.devices@),
            ipc: views(self.ipc@),
            display: self.display@,
        }
    }
}

/// Whether a network permission lets the app reach the network: a pattern
/// list does.
pub open spec fn grants_network(v: PermissionValueView) -> bool {
    match v {
        PermissionValueView::Bool(b) => b,
        PermissionValueView::Patterns(_) => true,
    }
}

impl PermissionValue {
    /// Whether this permission lets the app reach the network.
    pub fn allows_network(&self) -> (r: bool)
        ensures
            r == grants_network(self@),
    {
        match self {
            PermissionValue::Bool(b) => *b,
            PermissionValue::Patterns(_) => true,
        }
    }
}

impl PermissionSet {
    /// The default for a sandboxed app: no network, no files, no devices,
    /// Wayland and the session bus, a Wayland display.
    pub fn default_sandboxed() -> (r: Self)
        ensures
            r@.network == PermissionValueView::Bool(false),
            r@.filesystem == Seq::<Seq<char>>::empty(),
            r@.devices == Seq::<Seq<char>>::empty(),
            r@.ipc == seq!["wayland"@, "dbus-session"@],
            r@.display == "wayland"@,
    {
        let ipc = vec![text("wayland"), text("dbus-session")];
        let r = PermissionSet {
            network: PermissionValue::Bool(false),
            filesystem: Vec::new(),
            devices: Vec::new(),
            ipc,
            display: text("wayland"),
        };
        assert(r@.filesystem =~= Seq::<Seq<char>>::empty());
        assert(r@.devices =~= Seq::<Seq<char>>::empty());
        assert(r@.ipc =~= seq!["wayland"@, "dbus-session"@]);
        r
    }

    /// The default for a trusted app: network, the home directory, the GPU,
    /// audio and input devices, the session bus, Wayland and X11.
    pub fn default_permissive() -> (r: Self)
        ensures
            r@.network == PermissionValueView::Bool(true),
            r@.filesystem == seq!["$HOME"@],
            r@.devices == seq!["dri"@, "audio"@, "input"@],
            r@.ipc == seq!["dbus-session"@, "wayland"@, "x11"@],
            r@.display == "wayland"@,
    {
        let filesystem = vec![text("$HOME")];
        let devices = vec![text("dri"), text("audio"), text("input")];
        let ipc = vec![text("dbus-session"), text("wayland"), text("x11")];
        let r = PermissionSet {
            network: PermissionValue::Bool(true),
            filesystem,
            devices,
            ipc,
            display: text("wayland"),
        };
        assert(r@.filesystem =~= seq!["$HOME"@]);
        assert(r@.devices =~= seq!["dri"@, "audio"@, "input"@]);
        assert(r@.ipc =~= seq!["dbus-session"@, "wayland"@, "x11"@]);
        r
    }
}

} // verus!

verus! {

impl PermissionValue {
    /// A copy of this permission.
    pub fn copied(&self) -> (r: PermissionValue)
        ensures
            r@ == self@,
    {
        match self {
            PermissionValue::Bool(b) => PermissionValue::Bool(*b),
            PermissionValue::Patterns(p) => PermissionValue::Patterns(crate::strings::clone_strings(p)),
        }
    }
}

impl PermissionSet {
    /// A copy of this permission set.
    pub fn copied(&self) -> (r: PermissionSet)
        ensures
            r@ == self@,
    {
        PermissionSet {
            network: self.network.copied(),
            filesystem: crate::strings::clone_strings(&self.filesystem),
            devices: crate::strings::clone_strings(&self.devices),
            ipc: crate::strings::clone_strings(&self.ipc),
            display: self.display.clone(),
        }
    }
}

} // verus!
