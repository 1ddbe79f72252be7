use vstd::prelude::*;
use crate::strings::str_eq;

verus! {

/// What the sandbox builders read of the host, as plain values: the
/// environment variables (name, value), and the paths known to exist.
pub struct HostEnv {
    pub vars: Vec<(String, String)>,
    pub existing: Vec<String>,
}

/// A host snapshot as plain values.
pub struct HostEnvView {
    pub vars: Seq<(Seq<char>, Seq<char>)>,
    pub existing: Seq<Seq<char>>,
}

/// The views of environment pairs.
pub open spec fn var_views(v: Seq<(String, String)>) -> Seq<(Seq<char>, Seq<char>)> {
    v.map_values(|p: (String, String)| (p.0@, p.1@))
}

impl View for HostEnv {
    type V = HostEnvView;

    open spec fn view(&self) -> HostEnvView {
        HostEnvView { vars: var_views(self.vars@), existing: crate::strings::views(self.existing@) }
    }
}

/// The value of the first variable named `name` from position `i` on.
pub open spec fn lookup_from(vars: Seq<(Seq<char>, Seq<char>)>, name: Seq<char>, i: int) -> Option<
    Seq<char>,
>
    decreases vars.len() - i,
{
    if i < 0 || i >= vars.len() {
        None
    } else if vars[i].0 == name {
        Some(vars[i].1)
    } else {
        lookup_from(vars, name, i + 1)
    }
}

/// The value of the environment variable `name`, if it is set.
pub open spec fn env_lookup(vars: Seq<(Seq<char>, Seq<char>)>, name: Seq<char>) -> Option<Seq<char>> {
    lookup_from(vars, name, 0)
}

/// The view of an optional string.
pub open spec fn opt_view(o: Option<String>) -> Option<Seq<char>> {
    match o {
        Some(s) => Some(s@),
        None => None,
    }
}

impl HostEnv {
    /// The value of the environment variable `name`, if it is set.
    pub fn var(&self, name: &str) -> (r: Option<String>)
        ensures
            opt_view(r) == env_lookup(self@.vars, name@),
    {
        let mut i: usize = 0;
        while i < self.vars.len()
            invariant
                i <= self.vars@.len(),
                lookup_from(self@.vars, name@, i as int) == env_lookup(self@.vars, name@),
            decreases self.vars@.len() - i,
        {
            if str_eq(self.vars[i].0.as_str(), name) {
                return Some(self.vars[i].1.clone());
            }
            i = i + 1;
        }
        None
    }

    /// Whether `path` is known to exist.
    pub fn has_path(&self, path: &str) -> (r: bool)
        ensures
            r == self@.existing.contains(path@),
    {
        let mut i: usize = 0;
        while i < self.existing.len()
            invariant
                i <= self.existing@.len(),
                forall|j: int| 0 <= j < i ==> self@.existing[j] != path@,
            decreases self.existing@.len() - i,
        {
            if str_eq(self.existing[i].as_str(), path) {
                assert(self@.existing[i as int] == path@);
                return true;
            }
            i = i + 1;
        }
        false
    }
}

/// Whether Unicode counts `c` as alphabetic or numeric.
pub uninterp spec fn unicode_alphanumeric(c: char) -> bool;

/// `char::is_alphanumeric`: alphabetic or numeric in Unicode's sense; among
/// ASCII characters exactly the letters and the digits.
#[verifier::external_body]
pub(crate) fn is_alphanumeric(c: char) -> (r: bool)
    ensures
        r == unicode_alphanumeric(c),
        (c as u32) < 128 ==> (r <==> ('a' <= c <= 'z' || 'A' <= c <= 'Z' || '0' <= c <= '9')),
{
    c.is_alphanumeric()
}

} // verus!
