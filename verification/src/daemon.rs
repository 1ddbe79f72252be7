use vstd::prelude::*;
use crate::strings::{str_eq, views};
use crate::error::text;
use crate::host::{HostEnv, env_lookup};
use crate::store::{Store, join, join_path, layer_dir_name};
use crate::header::BundleHeader;
use crate::layer::{LayerRefView, digest_hex_of};

verus! {

// ---------------------------------------------------------------------------
// The daemon's table of mounted apps.
// ---------------------------------------------------------------------------

/// One mounted app: its id, the merged root it runs from, how many clients
/// use it, and when it was last used (a monotonic clock reading).
pub struct MountEntry {
    pub app_id: String,
    pub rootfs: String,
    pub refcount: u64,
    pub last_active: u64,
}

/// What the table records for one app.
pub struct MountInfo {
    pub rootfs: Seq<char>,
    pub refcount: u64,
    pub last_active: u64,
}

/// The plain value of an entry's record.
pub open spec fn info_of(e: MountEntry) -> MountInfo {
    MountInfo { rootfs: e.rootfs@, refcount: e.refcount, last_active: e.last_active }
}

/// No app id occurs twice.
pub open spec fn ids_unique(s: Seq<MountEntry>) -> bool {
    forall|i: int, j: int| 0 <= i < s.len() && 0 <= j < s.len() && i != j ==> s[i].app_id@ != s[j].app_id@
}

/// Whether some entry has the id.
pub open spec fn has_id(s: Seq<MountEntry>, id: Seq<char>) -> bool {
    exists|i: int| 0 <= i < s.len() && #[trigger] s[i].app_id@ == id
}

/// The table as a map from app id to record.
pub open spec fn table_map(s: Seq<MountEntry>) -> Map<Seq<char>, MountInfo> {
    Map::new(
        |id: Seq<char>| has_id(s, id),
        |id: Seq<char>| info_of(s[choose|i: int| 0 <= i < s.len() && #[trigger] s[i].app_id@ == id]),
    )
}

/// With unique ids, the record of entry `i` is the record of its id.
pub proof fn lemma_table_at(s: Seq<MountEntry>, i: int)
    requires
        ids_unique(s),
        0 <= i < s.len(),
    ensures
        table_map(s).contains_key(s[i].app_id@),
        table_map(s)[s[i].app_id@] == info_of(s[i]),
{
    let id = s[i].app_id@;
    assert(has_id(s, id));
    let j = choose|j: int| 0 <= j < s.len() && #[trigger] s[j].app_id@ == id;
    assert(j == i);
}

/// The apps mounted by the daemon. No app id occurs twice.
pub struct MountTable {
    entries: Vec<MountEntry>,
}

impl View for MountTable {
    type V = Map<Seq<char>, MountInfo>;

    closed spec fn view(&self) -> Map<Seq<char>, MountInfo> {
        table_map(self.entries@)
    }
}

/// The table after a client mounts `id`: one more user and a fresh use time;
/// a new entry starts with one user and the given root.
pub open spec fn after_register(m: Map<Seq<char>, MountInfo>, id: Seq<char>, rootfs: Seq<char>, now: u64) -> Map<
    Seq<char>,
    MountInfo,
> {
    m.insert(
        id,
        if m.contains_key(id) {
            MountInfo { refcount: (m[id].refcount + 1) as u64, last_active: now, ..m[id] }
        } else {
            MountInfo { rootfs, refcount: 1, last_active: now }
        },
    )
}

/// The table after a client releases `id`: one user fewer (never below
/// zero) and a fresh use time; unknown ids change nothing.
pub open spec fn after_release(m: Map<Seq<char>, MountInfo>, id: Seq<char>, now: u64) -> Map<
    Seq<char>,
    MountInfo,
> {
    if m.contains_key(id) {
        m.insert(
            id,
            MountInfo {
                refcount: if m[id].refcount > 0 {
                    (m[id].refcount - 1) as u64
                } else {
                    0
                },
                last_active: now,
                ..m[id]
            },
        )
    } else {
        m
    }
}

/// What releasing an app asks of the daemon.
pub enum ReleaseOutcome {
    /// The app is not mounted.
    NotMounted,
    /// Other clients still use it; this many remain.
    StillInUse(u64),
    /// Nobody uses it any more: unmount this root, then forget the app.
    Unmount(String),
}

/// What releasing `id` asks for, as plain values.
pub enum ReleaseView {
    NotMounted,
    StillInUse(u64),
    Unmount(Seq<char>),
}

/// The plain value of an outcome.
pub open spec fn outcome_view(o: ReleaseOutcome) -> ReleaseView {
    match o {
        ReleaseOutcome::NotMounted => ReleaseView::NotMounted,
        ReleaseOutcome::StillInUse(n) => ReleaseView::StillInUse(n),
        ReleaseOutcome::Unmount(r) => ReleaseView::Unmount(r@),
    }
}

/// What releasing `id` asks for.
pub open spec fn release_outcome(m: Map<Seq<char>, MountInfo>, id: Seq<char>) -> ReleaseView {
    if !m.contains_key(id) {
        ReleaseView::NotMounted
    } else if m[id].refcount <= 1 {
        ReleaseView::Unmount(m[id].rootfs)
    } else {
        ReleaseView::StillInUse((m[id].refcount - 1) as u64)
    }
}

/// How long ago a use was, never negative.
pub open spec fn elapsed(now: u64, then: u64) -> int {
    if now >= then {
        now - then
    } else {
        0
    }
}

/// Whether an app has no user and has been idle for `timeout`.
pub open spec fn is_idle(info: MountInfo, now: u64, timeout: u64) -> bool {
    info.refcount == 0 && elapsed(now, info.last_active) >= timeout
}

impl MountTable {
    /// No app id occurs twice.
    pub closed spec fn wf(&self) -> bool {
        ids_unique(self.entries@)
    }

    /// An empty table.
    pub fn new() -> (r: MountTable)
        ensures
            r.wf(),
            r@ == Map::<Seq<char>, MountInfo>::empty(),
    {
        let r = MountTable { entries: Vec::new() };
        assert(r@ =~= Map::<Seq<char>, MountInfo>::empty());
        r
    }

    fn find(&self, id: &str) -> (r: Option<usize>)
        requires
            self.wf(),
        ensures
            r is None ==> !self@.contains_key(id@),
            r matches Some(i) ==> i < self.entries@.len() && self.entries@[i as int].app_id@ == id@,
    {
        let mut i: usize = 0;
        while i < self.entries.len()
            invariant
                i <= self.entries@.len(),
                forall|j: int| 0 <= j < i ==> self.entries@[j].app_id@ != id@,
            decreases self.entries@.len() - i,
        {
            if str_eq(self.entries[i].app_id.as_str(), id) {
                return Some(i);
            }
            i = i + 1;
        }
        None
    }

    /// A client mounts `id` at time `now`; a new entry records `rootfs`.
    pub fn register(&mut self, id: &str, rootfs: &str, now: u64)
        requires
            old(self).wf(),
            old(self)@.contains_key(id@) ==> old(self)@[id@].refcount < u64::MAX,
        ensures
            final(self).wf(),
            final(self)@ == after_register(old(self)@, id@, rootfs@, now),
    {
        let ghost old_s = self.entries@;
        match self.find(id) {
            Some(i) => {
                proof {
                    lemma_table_at(old_s, i as int);
                }
                let e = MountEntry {
                    app_id: self.entries[i].app_id.clone(),
                    rootfs: self.entries[i].rootfs.clone(),
                    refcount: self.entries[i].refcount + 1,
                    last_active: now,
                };
                self.entries.set(i, e);
                proof {
                    lemma_set_entry(old_s, i as int, self.entries@[i as int]);
                }
            },
            None => {
                let e = MountEntry {
                    app_id: String::from_str(id),
                    rootfs: String::from_str(rootfs),
                    refcount: 1,
                    last_active: now,
                };
                self.entries.push(e);
                proof {
                    lemma_push_entry(old_s, self.entries@.last());
                }
            },
        }
        assert(self@ =~= after_register(old(self)@, id@, rootfs@, now));
    }

    /// A client releases `id` at time `now`: says whether the app is still in
    /// use, or is to be unmounted, or was not mounted.
    pub fn release(&mut self, id: &str, now: u64) -> (r: ReleaseOutcome)
        requires
            old(self).wf(),
        ensures
            final(self).wf(),
            final(self)@ == after_release(old(self)@, id@, now),
            outcome_view(r) == release_outcome(old(self)@, id@),
    {
        let ghost old_s = self.entries@;
        match self.find(id) {
            Some(i) => {
                proof {
                    lemma_table_at(old_s, i as int);
                }
                let rc = self.entries[i].refcount;
                let left = if rc > 0 { rc - 1 } else { 0 };
                let e = MountEntry {
                    app_id: self.entries[i].app_id.clone(),
                    rootfs: self.entries[i].rootfs.clone(),
                    refcount: left,
                    last_active: now,
                };
                let root = self.entries[i].rootfs.clone();
                self.entries.set(i, e);
                proof {
                    lemma_set_entry(old_s, i as int, self.entries@[i as int]);
                }
                assert(self@ =~= after_release(old(self)@, id@, now));
                if left == 0 {
                    ReleaseOutcome::Unmount(root)
                } else {
                    ReleaseOutcome::StillInUse(left)
                }
            },
            None => {
                assert(self@ =~= after_release(old(self)@, id@, now));
                ReleaseOutcome::NotMounted
            },
        }
    }

    /// Forgets `id` once its root is unmounted.
    pub fn forget(&mut self, id: &str)
        requires
            old(self).wf(),
        ensures
            final(self).wf(),
            final(self)@ == old(self)@.remove(id@),
    {
        let ghost old_s = self.entries@;
        match self.find(id) {
            Some(i) => {
                self.entries.remove(i);
                proof {
                    lemma_remove_entry(old_s, i as int);
                }
            },
            None => {},
        }
        assert(self@ =~= old(self)@.remove(id@));
    }
}

proof fn lemma_set_entry(s: Seq<MountEntry>, i: int, e: MountEntry)
    requires
        ids_unique(s),
        0 <= i < s.len(),
        e.app_id@ == s[i].app_id@,
    ensures
        ids_unique(s.update(i, e)),
        table_map(s.update(i, e)) == table_map(s).insert(e.app_id@, info_of(e)),
{
    let t = s.update(i, e);
    assert(ids_unique(t));
    lemma_table_at(t, i);
    assert forall|id: Seq<char>| #![auto] table_map(t).contains_key(id) == table_map(s).insert(e.app_id@, info_of(e)).contains_key(id) by {
        if has_id(t, id) {
            let j = choose|j: int| 0 <= j < t.len() && #[trigger] t[j].app_id@ == id;
            assert(s[j].app_id@ == id);
        }
        if has_id(s, id) {
            let j = choose|j: int| 0 <= j < s.len() && #[trigger] s[j].app_id@ == id;
            assert(t[j].app_id@ == id);
        }
    }
    assert forall|id: Seq<char>| #![auto] table_map(t).contains_key(id) implies table_map(t)[id] == table_map(s).insert(e.app_id@, info_of(e))[id] by {
        let j = choose|j: int| 0 <= j < t.len() && #[trigger] t[j].app_id@ == id;
        lemma_table_at(t, j);
        if j != i {
            lemma_table_at(s, j);
        }
    }
    assert(table_map(t) =~= table_map(s).insert(e.app_id@, info_of(e)));
}

proof fn lemma_push_entry(s: Seq<MountEntry>, e: MountEntry)
    requires
        ids_unique(s),
        !table_map(s).contains_key(e.app_id@),
    ensures
        ids_unique(s.push(e)),
        table_map(s.push(e)) == table_map(s).insert(e.app_id@, info_of(e)),
{
    let t = s.push(e);
    assert forall|i: int| 0 <= i < s.len() implies #[trigger] s[i].app_id@ != e.app_id@ by {
        if s[i].app_id@ == e.app_id@ {
            assert(has_id(s, e.app_id@));
        }
    }
    assert(ids_unique(t));
    lemma_table_at(t, s.len() as int);
    assert forall|id: Seq<char>| #![auto] table_map(t).contains_key(id) == table_map(s).insert(e.app_id@, info_of(e)).contains_key(id) by {
        if has_id(t, id) {
            let j = choose|j: int| 0 <= j < t.len() && #[trigger] t[j].app_id@ == id;
            if j < s.len() {
                assert(s[j].app_id@ == id);
            }
        }
        if has_id(s, id) {
            let j = choose|j: int| 0 <= j < s.len() && #[trigger] s[j].app_id@ == id;
            assert(t[j].app_id@ == id);
        }
    }
    assert forall|id: Seq<char>| #![auto] table_map(t).contains_key(id) implies table_map(t)[id] == table_map(s).insert(e.app_id@, info_of(e))[id] by {
        let j = choose|j: int| 0 <= j < t.len() && #[trigger] t[j].app_id@ == id;
        lemma_table_at(t, j);
        if j < s.len() {
            lemma_table_at(s, j);
        }
    }
    assert(table_map(t) =~= table_map(s).insert(e.app_id@, info_of(e)));
}

proof fn lemma_remove_entry(s: Seq<MountEntry>, i: int)
    requires
        ids_unique(s),
        0 <= i < s.len(),
    ensures
        ids_unique(s.remove(i)),
        table_map(s.remove(i)) == table_map(s).remove(s[i].app_id@),
{
    let t = s.remove(i);
    let id0 = s[i].app_id@;
    assert forall|a: int, b: int| 0 <= a < t.len() && 0 <= b < t.len() && a != b implies t[a].app_id@
        != t[b].app_id@ by {
        let a2 = if a < i { a } else { a + 1 };
        let b2 = if b < i { b } else { b + 1 };
        assert(t[a] == s[a2]);
        assert(t[b] == s[b2]);
    }
    assert forall|id: Seq<char>| #![auto] table_map(t).contains_key(id) == table_map(s).remove(id0).contains_key(id) by {
        if has_id(t, id) {
            let j = choose|j: int| 0 <= j < t.len() && #[trigger] t[j].app_id@ == id;
            let j2 = if j < i { j } else { j + 1 };
            assert(s[j2].app_id@ == id);
            assert(j2 != i);
        }
        if has_id(s, id) && id != id0 {
            let j = choose|j: int| 0 <= j < s.len() && #[trigger] s[j].app_id@ == id;
            assert(j != i);
            let j2 = if j < i { j } else { j - 1 };
            assert(t[j2].app_id@ == id);
        }
    }
    assert forall|id: Seq<char>| #![auto] table_map(t).contains_key(id) implies table_map(t)[id] == table_map(s).remove(id0)[id] by {
        let j = choose|j: int| 0 <= j < t.len() && #[trigger] t[j].app_id@ == id;
        let j2 = if j < i { j } else { j + 1 };
        assert(t[j] == s[j2]);
        lemma_table_at(t, j);
        lemma_table_at(s, j2);
    }
    assert(table_map(t) =~= table_map(s).remove(id0));
}

} // verus!

verus! {

impl MountTable {
    /// The apps with no user that have been idle for at least `timeout` at
    /// time `now`, each once.
    pub fn idle_ids(&self, now: u64, timeout: u64) -> (r: Vec<String>)
        requires
            self.wf(),
        ensures
            forall|id: Seq<char>|
                crate::strings::views(r@).contains(id) <==> (self@.contains_key(id) && is_idle(
                    self@[id],
                    now,
                    timeout,
                )),
            crate::strings::views(r@).no_duplicates(),
    {
        let ghost s = self.entries@;
        let mut r: Vec<String> = Vec::new();
        let ghost mut idx: Seq<int> = Seq::empty();
        let mut i: usize = 0;
        while i < self.entries.len()
            invariant
                s == self.entries@,
                ids_unique(s),
                i <= s.len(),
                idx.len() == r@.len(),
                forall|k: int| 0 <= k < idx.len() ==> 0 <= #[trigger] idx[k] < i,
                forall|k: int| 0 <= k < idx.len() ==> (#[trigger] r@[k])@ == s[idx[k]].app_id@,
                forall|k: int| 0 <= k < idx.len() ==> is_idle(info_of(s[#[trigger] idx[k]]), now, timeout),
                forall|a: int, b: int| 0 <= a < b < idx.len() ==> #[trigger] idx[a] < #[trigger] idx[b],
                forall|j: int| 0 <= j < i && is_idle(info_of(#[trigger] s[j]), now, timeout) ==> idx.contains(j),
            decreases s.len() - i,
        {
            let e = &self.entries[i];
            let elapsed: u64 = if now >= e.last_active { now - e.last_active } else { 0 };
            if e.refcount == 0 && elapsed >= timeout {
                r.push(e.app_id.clone());
                proof {
                    let old_idx = idx;
                    idx = idx.push(i as int);
                    assert forall|j: int| 0 <= j < i + 1 && is_idle(info_of(#[trigger] s[j]), now, timeout) implies idx.contains(j) by {
                        if j == i {
                            assert(idx[idx.len() - 1] == j);
                        } else {
                            let k = choose|k: int| 0 <= k < old_idx.len() && old_idx[k] == j;
                            assert(idx[k] == j);
                        }
                    }
                }
            }
            i = i + 1;
        }
        proof {
            let v = crate::strings::views(r@);
            assert forall|a: int, b: int| 0 <= a < v.len() && 0 <= b < v.len() && a != b implies v[a] != v[b] by {
                assert(v[a] == s[idx[a]].app_id@);
                assert(v[b] == s[idx[b]].app_id@);
                if a < b {
                    assert(idx[a] < idx[b]);
                } else {
                    assert(idx[b] < idx[a]);
                }
            }
            assert forall|id: Seq<char>|
                v.contains(id) <==> (self@.contains_key(id) && is_idle(self@[id], now, timeout)) by {
                if v.contains(id) {
                    let k = choose|k: int| 0 <= k < v.len() && v[k] == id;
                    assert(r@[k]@ == s[idx[k]].app_id@);
                    lemma_table_at(s, idx[k]);
                }
                if self@.contains_key(id) && is_idle(self@[id], now, timeout) {
                    let j = choose|j: int| 0 <= j < s.len() && #[trigger] s[j].app_id@ == id;
                    lemma_table_at(s, j);
                    let k = choose|k: int| 0 <= k < idx.len() && idx[k] == j;
                    assert(v[k] == id);
                }
            }
        }
        r
    }

    /// Every mounted app with its root.
    pub fn list(&self) -> (r: Vec<(String, String)>)
        requires
            self.wf(),
        ensures
            forall|id: Seq<char>, root: Seq<char>|
                crate::host::var_views(r@).contains((id, root)) <==> (self@.contains_key(id)
                    && self@[id].rootfs == root),
    {
        let mut r: Vec<(String, String)> = Vec::new();
        let mut i: usize = 0;
        while i < self.entries.len()
            invariant
                self.wf(),
                i <= self.entries@.len(),
                r@.len() == i,
                forall|k: int| 0 <= k < i ==> #[trigger] r@[k].0@ == self.entries@[k].app_id@ && r@[k].1@ == self.entries@[k].rootfs@,
            decreases self.entries@.len() - i,
        {
            let id = self.entries[i].app_id.clone();
            let root = self.entries[i].rootfs.clone();
            r.push((id, root));
            assert(r@[i as int].0@ == self.entries@[i as int].app_id@);
            i = i + 1;
        }
        proof {
            let v = crate::host::var_views(r@);
            assert forall|id: Seq<char>, root: Seq<char>|
                v.contains((id, root)) <==> (self@.contains_key(id) && self@[id].rootfs == root) by {
                if v.contains((id, root)) {
                    let k = choose|k: int| 0 <= k < v.len() && v[k] == (id, root);
                    assert(r@[k].0@ == id);
                    lemma_table_at(self.entries@, k);
                }
                if self@.contains_key(id) && self@[id].rootfs == root {
                    let j = choose|j: int| 0 <= j < self.entries@.len() && #[trigger] self.entries@[j].app_id@ == id;
                    lemma_table_at(self.entries@, j);
                    assert(v[j] == (id, root));
                }
            }
        }
        r
    }
}

/// Mounting an app and releasing it again gives back the number of users it
/// had (none, when it was not mounted, in which case the release asks to
/// unmount the new root), and keeps its root.
pub proof fn lemma_register_release(m: Map<Seq<char>, MountInfo>, id: Seq<char>, rootfs: Seq<char>, t1: u64, t2: u64)
    requires
        m.contains_key(id) ==> m[id].refcount < u64::MAX,
    ensures
        after_release(after_register(m, id, rootfs, t1), id, t2).contains_key(id),
        after_release(after_register(m, id, rootfs, t1), id, t2)[id].refcount == if m.contains_key(id) {
            m[id].refcount
        } else {
            0
        },
        after_release(after_register(m, id, rootfs, t1), id, t2)[id].rootfs == if m.contains_key(id) {
            m[id].rootfs
        } else {
            rootfs
        },
        !m.contains_key(id) ==> release_outcome(after_register(m, id, rootfs, t1), id)
            == ReleaseView::Unmount(rootfs),
        m.contains_key(id) && m[id].refcount > 0 ==> release_outcome(after_register(m, id, rootfs, t1), id)
            == ReleaseView::StillInUse(m[id].refcount),
        forall|k: Seq<char>| k != id ==> after_release(after_register(m, id, rootfs, t1), id, t2).contains_key(k)
            == m.contains_key(k),
        forall|k: Seq<char>| k != id && m.contains_key(k) ==> after_release(after_register(m, id, rootfs, t1), id, t2)[k]
            == m[k],
{
}

/// An app that is in use is never reported idle, and releasing an app whose
/// last user leaves asks to unmount exactly its root.
pub proof fn lemma_idle_needs_no_users(m: Map<Seq<char>, MountInfo>, id: Seq<char>, now: u64, timeout: u64)
    ensures
        m.contains_key(id) && m[id].refcount > 0 ==> !is_idle(m[id], now, timeout),
        m.contains_key(id) && m[id].refcount == 1 ==> release_outcome(m, id) == ReleaseView::Unmount(m[id].rootfs)
            && after_release(m, id, now)[id].refcount == 0,
{
}

} // verus!

verus! {

// ---------------------------------------------------------------------------
// Where the daemon keeps its socket, configuration and overlays.
// ---------------------------------------------------------------------------

/// `$XDG_RUNTIME_DIR`, or `/tmp` when it is unset.
pub open spec fn runtime_dir_of(vars: Seq<(Seq<char>, Seq<char>)>) -> Seq<char> {
    match env_lookup(vars, "XDG_RUNTIME_DIR"@) {
        Some(r) => r,
        None => "/tmp"@,
    }
}

fn runtime_dir(env: &HostEnv) -> (r: String)
    ensures
        r@ == runtime_dir_of(env@.vars),
{
    match env.var("XDG_RUNTIME_DIR") {
        Some(r) => r,
        None => text("/tmp"),
    }
}

/// The daemon's socket: `<runtime dir>/nexpack.sock`.
pub fn socket_path(env: &HostEnv) -> (r: String)
    ensures
        r@ == join_path(runtime_dir_of(env@.vars), "nexpack.sock"@),
{
    join(runtime_dir(env).as_str(), "nexpack.sock")
}

/// The daemon's configuration file: `$XDG_CONFIG_HOME/nexpack/daemon.toml`,
/// else `$HOME/.config/nexpack/daemon.toml`, else `nexpack/daemon.toml`.
pub open spec fn config_path_of(vars: Seq<(Seq<char>, Seq<char>)>) -> Seq<char> {
    let base = match env_lookup(vars, "XDG_CONFIG_HOME"@) {
        Some(c) => c,
        None => match env_lookup(vars, "HOME"@) {
            Some(h) => join_path(h, ".config"@),
            None => Seq::empty(),
        },
    };
    join_path(join_path(base, "nexpack"@), "daemon.toml"@)
}

/// Where the daemon reads its configuration.
pub fn config_path(env: &HostEnv) -> (r: String)
    ensures
        r@ == config_path_of(env@.vars),
{
    let base = match env.var("XDG_CONFIG_HOME") {
        Some(c) => c,
        None => match env.var("HOME") {
            Some(h) => join(h.as_str(), ".config"),
            None => String::new(),
        },
    };
    join(join(base.as_str(), "nexpack").as_str(), "daemon.toml")
}

/// The daemon's settings, in seconds, when the configuration gives them.
pub struct DaemonConfig {
    pub idle_timeout: Option<u64>,
    pub update_interval: Option<u64>,
}

impl DaemonConfig {
    /// How long an unused mount stays: five minutes unless configured.
    pub fn idle_timeout_secs(&self) -> (r: u64)
        ensures
            r == match self.idle_timeout {
                Some(t) => t,
                None => 300,
            },
    {
        match self.idle_timeout {
            Some(t) => t,
            None => 300,
        }
    }

    /// How often updates are checked: hourly unless configured.
    pub fn update_interval_secs(&self) -> (r: u64)
        ensures
            r == match self.update_interval {
                Some(t) => t,
                None => 3600,
            },
    {
        match self.update_interval {
            Some(t) => t,
            None => 3600,
        }
    }
}

/// The directories of an app's overlay mount.
pub struct OverlayPlan {
    pub lower_dirs: Vec<String>,
    pub upper: String,
    pub work: String,
    pub merged: String,
}

/// An app's run directory: `<runtime dir>/nexpack/<app id>`.
pub open spec fn run_dir_of(vars: Seq<(Seq<char>, Seq<char>)>, app_id: Seq<char>) -> Seq<char> {
    join_path(join_path(runtime_dir_of(vars), "nexpack"@), app_id)
}

/// The mount point of each layer of a header, in order.
pub open spec fn lower_dirs_of(root: Seq<char>, layers: Seq<LayerRefView>) -> Seq<Seq<char>> {
    layers.map_values(
        |l: LayerRefView|
            join_path(join_path(join_path(root, "layers"@), layer_dir_name(digest_hex_of(l.digest))), "mnt"@),
    )
}

/// The overlay of an app: its layers' mount points below, and the upper,
/// work and merged directories in its run directory.
pub fn overlay_plan(app_id: &str, header: &BundleHeader, store: &Store, env: &HostEnv) -> (r: OverlayPlan)
    ensures
        views(r.lower_dirs@) == lower_dirs_of(store.root_path(), header@.layers),
        r.upper@ == join_path(run_dir_of(env@.vars, app_id@), "upper"@),
        r.work@ == join_path(run_dir_of(env@.vars, app_id@), "work"@),
        r.merged@ == join_path(run_dir_of(env@.vars, app_id@), "rootfs"@),
{
    let run_dir = join(join(runtime_dir(env).as_str(), "nexpack").as_str(), app_id);
    let mut lower: Vec<String> = Vec::new();
    let mut i: usize = 0;
    while i < header.layers.len()
        invariant
            i <= header.layers@.len(),
            views(lower@) == lower_dirs_of(store.root_path(), header@.layers).take(i as int),
        decreases header.layers@.len() - i,
    {
        let m = store.layer_mount(header.layers[i].digest_hex());
        let ghost prev = views(lower@);
        assert(header@.layers[i as int] == header.layers@[i as int]@);
        assert(m@ == lower_dirs_of(store.root_path(), header@.layers)[i as int]);
        lower.push(m);
        assert(views(lower@) =~= prev.push(m@));
        assert(views(lower@) =~= lower_dirs_of(store.root_path(), header@.layers).take(i + 1));
        i = i + 1;
    }
    assert(lower_dirs_of(store.root_path(), header@.layers).take(header.layers@.len() as int)
        =~= lower_dirs_of(store.root_path(), header@.layers));
    OverlayPlan {
        lower_dirs: lower,
        upper: join(run_dir.as_str(), "upper"),
        work: join(run_dir.as_str(), "work"),
        merged: join(run_dir.as_str(), "rootfs"),
    }
}

/// The lower directories as overlayfs lists them: topmost first, that is
/// the last layer first, separated by `:`.
pub open spec fn lowerdir_list(dirs: Seq<Seq<char>>) -> Seq<char>
    decreases dirs.len(),
{
    if dirs.len() == 0 {
        Seq::empty()
    } else if dirs.len() == 1 {
        dirs[0]
    } else {
        lowerdir_list(dirs.drop_first()) + ":"@ + dirs[0]
    }
}

/// The `lowerdir` value for an overlay mount.
pub fn lowerdir_option(dirs: &Vec<String>) -> (r: String)
    ensures
        r@ == lowerdir_list(views(dirs@)),
{
    let n = dirs.len();
    if n == 0 {
        assert(views(dirs@) =~= Seq::<Seq<char>>::empty());
        return String::new();
    }
    let ghost v = views(dirs@);
    let mut out = dirs[n - 1].clone();
    assert(v.subrange(n - 1, n as int).drop_first() =~= Seq::<Seq<char>>::empty());
    assert(lowerdir_list(v.subrange(n - 1, n as int)) == v[n - 1]);
    let mut k: usize = n - 1;
    while k > 0
        invariant
            v == views(dirs@),
            n == dirs@.len(),
            k < n,
            out@ == lowerdir_list(v.subrange(k as int, n as int)),
        decreases k,
    {
        k = k - 1;
        out.append(":");
        out.append(dirs[k].as_str());
        proof {
            reveal_strlit(":");
            assert(v.subrange(k as int, n as int).drop_first() =~= v.subrange(k + 1, n as int));
        }
    }
    assert(v.subrange(0, n as int) =~= v);
    out
}

/// The options of a kernel overlay mount.
pub fn overlay_mount_options(lower_dirs: &Vec<String>, upper: &str, work: &str) -> (r: String)
    ensures
        r@ == "lowerdir="@ + lowerdir_list(views(lower_dirs@)) + ",upperdir="@ + upper@ + ",workdir="@ + work@,
{
    let mut s = text("lowerdir=");
    s.append(lowerdir_option(lower_dirs).as_str());
    s.append(",upperdir=");
    s.append(upper);
    s.append(",workdir=");
    s.append(work);
    s
}

/// The directories made inside a merged root before bubblewrap runs in it.
pub open spec fn rootfs_dirs_of(root: Seq<char>) -> Seq<Seq<char>> {
    seq![
        join_path(root, "proc"@),
        join_path(root, "dev"@),
        join_path(root, "sys"@),
        join_path(root, "tmp"@),
        join_path(root, "run"@),
        join_path(join_path(root, "dev"@), "pts"@),
    ]
}

/// The directories to create in a merged root, in order.
pub fn rootfs_dirs(root: &str) -> (r: Vec<String>)
    ensures
        views(r@) == rootfs_dirs_of(root@),
{
    let r = vec![
        join(root, "proc"),
        join(root, "dev"),
        join(root, "sys"),
        join(root, "tmp"),
        join(root, "run"),
        join(join(root, "dev").as_str(), "pts"),
    ];
    assert(views(r@) =~= rootfs_dirs_of(root@));
    r
}

} // verus!

verus! {

impl MountTable {
    /// The record of `id` (root, users, last use), if it is mounted.
    pub fn lookup(&self, id: &str) -> (r: Option<(String, u64, u64)>)
        requires
            self.wf(),
        ensures
            r is None <==> !self@.contains_key(id@),
            r matches Some((root, n, t)) ==> self@[id@] == (MountInfo { rootfs: root@, refcount: n, last_active: t }),
    {
        match self.find(id) {
            Some(i) => {
                proof {
                    lemma_table_at(self.entries@, i as int);
                }
                let e = &self.entries[i];
                Some((e.rootfs.clone(), e.refcount, e.last_active))
            },
            None => None,
        }
    }
}

} // verus!
