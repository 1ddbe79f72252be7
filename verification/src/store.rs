use vstd::prelude::*;
use crate::error::{Error, Result, text};
use crate::strings::{concat_str, str_eq, chars_of, push_char};

verus! {

/// Joins a path and a relative or absolute component the way `Path::join`
/// does: an absolute component replaces the path; otherwise a `/` separates
/// them unless the path is empty or already ends with one.
pub open spec fn join_path(base: Seq<char>, comp: Seq<char>) -> Seq<char> {
    if comp.len() > 0 && comp[0] == '/' {
        comp
    } else if base.len() == 0 {
        comp
    } else if base.last() == '/' {
        base + comp
    } else {
        base + seq!['/'] + comp
    }
}

/// `base` joined with `comp`.
pub fn join(base: &str, comp: &str) -> (r: String)
    ensures
        r@ == join_path(base@, comp@),
{
    let n = base.unicode_len();
    let m = comp.unicode_len();
    if m > 0 && comp.get_char(0) == '/' {
        return String::from_str(comp);
    }
    if n == 0 {
        return String::from_str(comp);
    }
    if base.get_char(n - 1) == '/' {
        return concat_str(base, comp);
    }
    let mut s = String::from_str(base);
    s.append("/");
    s.append(comp);
    proof {
        reveal_strlit("/");
        assert(s@ =~= base@ + seq!['/'] + comp@);
    }
    s
}

/// The nexpack home inside a home directory.
pub open spec fn nexpack_home_in(home: Seq<char>) -> Seq<char> {
    join_path(home, ".local/share/nexpack"@)
}

/// The nexpack home, `$HOME/.local/share/nexpack`; fails with
/// `StorePath("$HOME not set")` when there is no home directory.
pub fn nexpack_home(home: Option<&str>) -> (r: Result<String>)
    ensures
        home matches Some(h) ==> (r matches Ok(p) && p@ == nexpack_home_in(h@)),
        home is None ==> (r matches Err(Error::StorePath(m)) && m@ == "$HOME not set"@),
{
    match home {
        Some(h) => Ok(join(h, ".local/share/nexpack")),
        None => Err(Error::StorePath(text("$HOME not set"))),
    }
}

/// Where the bootstrap binaries are extracted: `<nexpack home>/bin`.
pub fn nexpack_bin_dir(home: Option<&str>) -> (r: Result<String>)
    ensures
        home matches Some(h) ==> (r matches Ok(p) && p@ == join_path(nexpack_home_in(h@), "bin"@)),
        home is None ==> (r matches Err(Error::StorePath(m)) && m@ == "$HOME not set"@),
{
    let home_dir = nexpack_home(home)?;
    Ok(join(home_dir.as_str(), "bin"))
}

/// The content-addressed store of layers and installed apps.
pub struct Store {
    root: String,
}

/// The name of a layer's directory in the store.
pub open spec fn layer_dir_name(digest_hex: Seq<char>) -> Seq<char> {
    "blake3-"@ + digest_hex
}

impl Store {
    /// The store's root directory.
    pub closed spec fn root_path(&self) -> Seq<char> {
        self.root@
    }

    /// The user's store, `$HOME/.local/share/nexpack/store`; fails with
    /// `StorePath("$HOME not set")` when there is no home directory.
    pub fn user(home: Option<&str>) -> (r: Result<Store>)
        ensures
            home matches Some(h) ==> (r matches Ok(s) && s.root_path() == join_path(
                h@,
                ".local/share/nexpack/store"@,
            )),
            home is None ==> (r matches Err(Error::StorePath(m)) && m@ == "$HOME not set"@),
    {
        match home {
            Some(h) => Ok(Store { root: join(h, ".local/share/nexpack/store") }),
            None => Err(Error::StorePath(text("$HOME not set"))),
        }
    }

    /// The nexpack home for the given home directory.
    pub fn nexpack_home(home: Option<&str>) -> (r: Result<String>)
        ensures
            home matches Some(h) ==> (r matches Ok(p) && p@ == nexpack_home_in(h@)),
            home is None ==> (r matches Err(Error::StorePath(m)) && m@ == "$HOME not set"@),
    {
        nexpack_home(home)
    }

    /// Where the bootstrap binaries are extracted.
    pub fn bin_dir(home: Option<&str>) -> (r: Result<String>)
        ensures
            home matches Some(h) ==> (r matches Ok(p) && p@ == join_path(
                nexpack_home_in(h@),
                "bin"@,
            )),
            home is None ==> (r matches Err(Error::StorePath(m)) && m@ == "$HOME not set"@),
    {
        nexpack_bin_dir(home)
    }

    /// A store rooted at `root`.
    pub fn open(root: String) -> (r: Store)
        ensures
            r.root_path() == root@,
    {
        Store { root }
    }

    /// The store's root directory.
    pub fn root(&self) -> (r: &str)
        ensures
            r@ == self.root_path(),
    {
        self.root.as_str()
    }

    /// `<root>/layers`.
    pub fn layers_dir(&self) -> (r: String)
        ensures
            r@ == join_path(self.root_path(), "layers"@),
    {
        join(self.root.as_str(), "layers")
    }

    /// `<root>/layers/blake3-<hex>`.
    pub fn layer_dir(&self, digest_hex: &str) -> (r: String)
        ensures
            r@ == join_path(join_path(self.root_path(), "layers"@), layer_dir_name(digest_hex@)),
    {
        let name = concat_str("blake3-", digest_hex);
        join(self.layers_dir().as_str(), name.as_str())
    }

    /// `<root>/layers/blake3-<hex>/image.erofs`.
    pub fn layer_image(&self, digest_hex: &str) -> (r: String)
        ensures
            r@ == join_path(
                join_path(join_path(self.root_path(), "layers"@), layer_dir_name(digest_hex@)),
                "image.erofs"@,
            ),
    {
        join(self.layer_dir(digest_hex).as_str(), "image.erofs")
    }

    /// `<root>/layers/blake3-<hex>/mnt`.
    pub fn layer_mount(&self, digest_hex: &str) -> (r: String)
        ensures
            r@ == join_path(
                join_path(join_path(self.root_path(), "layers"@), layer_dir_name(digest_hex@)),
                "mnt"@,
            ),
    {
        join(self.layer_dir(digest_hex).as_str(), "mnt")
    }

    /// `<root>/apps`.
    pub fn apps_dir(&self) -> (r: String)
        ensures
            r@ == join_path(self.root_path(), "apps"@),
    {
        join(self.root.as_str(), "apps")
    }

    /// `<root>/gc-roots`.
    pub fn gc_roots_dir(&self) -> (r: String)
        ensures
            r@ == join_path(self.root_path(), "gc-roots"@),
    {
        join(self.root.as_str(), "gc-roots")
    }

    /// The directory of an installed app: `<root>/apps/<app id>`.
    pub fn app_dir(&self, app_id: &str) -> (r: String)
        ensures
            r@ == join_path(join_path(self.root_path(), "apps"@), app_id@),
    {
        join(self.apps_dir().as_str(), app_id)
    }
}

/// Where an app's `current` link points: the image of its layer, relative to
/// the app's directory.
pub fn app_current_target(digest_hex: &str) -> (r: String)
    ensures
        r@ == "../../../layers/blake3-"@ + digest_hex@ + "/image.erofs"@,
{
    let mut s = text("../../../layers/blake3-");
    s.append(digest_hex);
    s.append("/image.erofs");
    s
}

/// Where a GC root points: a layer directory, relative to the GC roots
/// directory.
pub fn gc_root_target(digest_hex: &str) -> (r: String)
    ensures
        r@ == "../layers/blake3-"@ + digest_hex@,
{
    concat_str("../layers/blake3-", digest_hex)
}

/// The text after the last `/` of a path; all of it when there is none.
pub open spec fn after_last_slash(t: Seq<char>) -> Seq<char>
    decreases t.len(),
{
    if t.len() == 0 {
        t
    } else if t.last() == '/' {
        Seq::empty()
    } else {
        after_last_slash(t.drop_last()).push(t.last())
    }
}

/// The layer directory a store link points into: the link's target without
/// a trailing `/image.erofs`, then its last component.
pub open spec fn link_layer_name(target: Seq<char>) -> Seq<char> {
    let img = "/image.erofs"@;
    if img.len() <= target.len() && target.subrange(target.len() - img.len(), target.len() as int) == img {
        after_last_slash(target.subrange(0, target.len() - img.len()))
    } else {
        after_last_slash(target)
    }
}

/// The part of a path after its last `/`, found by where that `/` is.
pub proof fn lemma_after_last_slash(t: Seq<char>, j: int)
    requires
        0 <= j <= t.len(),
        forall|k: int| j <= k < t.len() ==> t[k] != '/',
        j == 0 || t[j - 1] == '/',
    ensures
        after_last_slash(t) == t.subrange(j, t.len() as int),
    decreases t.len(),
{
    if t.len() == j {
        if j == 0 {
            assert(t.subrange(0, 0) =~= t);
        }
    } else {
        lemma_after_last_slash(t.drop_last(), j);
        assert(t.subrange(j, t.len() as int) =~= t.drop_last().subrange(j, t.len() - 1).push(t.last()));
    }
}

/// The layer directory that a store link points into, as garbage collection
/// counts it: the target without `/image.erofs` at its end, then the part
/// after its last `/`.
pub fn layer_name_of_link(target: &str) -> (r: String)
    ensures
        r@ == link_layer_name(target@),
{
    let cs = chars_of(target);
    let img = chars_of("/image.erofs");
    proof {
        reveal_strlit("/image.erofs");
    }
    let n = cs.len();
    let m = img.len();
    let mut end = n;
    if m <= n {
        let mut k: usize = 0;
        let mut same = true;
        while k < m
            invariant
                m == img@.len(),
                m <= n,
                n == cs@.len(),
                k <= m,
                same == (forall|q: int| 0 <= q < k ==> cs@[n - m + q] == img@[q]),
            decreases m - k,
        {
            if cs[n - m + k] != img[k] {
                same = false;
            }
            k = k + 1;
        }
        proof {
            assert(same == (cs@.subrange(n - m, n as int) == img@)) by {
                if same {
                    assert(cs@.subrange(n - m, n as int) =~= img@);
                } else if cs@.subrange(n - m, n as int) == img@ {
                    assert forall|q: int| 0 <= q < m implies cs@[n - m + q] == img@[q] by {
                        assert(cs@.subrange(n - m, n as int)[q] == cs@[n - m + q]);
                    }
                }
            }
        }
        if same {
            end = n - m;
        }
    }
    let ghost t = cs@.subrange(0, end as int);
    assert(link_layer_name(target@) == after_last_slash(t)) by {
        if end == n {
            assert(t =~= target@);
        }
    }
    let mut j = end;
    while j > 0 && cs[j - 1] != '/'
        invariant
            j <= end <= n,
            n == cs@.len(),
            t == cs@.subrange(0, end as int),
            forall|k: int| j <= k < end ==> cs@[k] != '/',
        decreases j,
    {
        j = j - 1;
    }
    proof {
        lemma_after_last_slash(t, j as int);
    }
    let mut out = String::new();
    let mut i = j;
    while i < end
        invariant
            j <= i <= end <= n,
            n == cs@.len(),
            out@ == cs@.subrange(j as int, i as int),
        decreases end - i,
    {
        push_char(&mut out, cs[i]);
        i = i + 1;
        assert(out@ =~= cs@.subrange(j as int, i as int));
    }
    assert(t.subrange(j as int, t.len() as int) =~= cs@.subrange(j as int, end as int));
    out
}

/// The links an app's `current` and a GC root hold both name the layer
/// directory `blake3-<digest>`.
pub proof fn lemma_link_layer_names(digest_hex: Seq<char>)
    requires
        !digest_hex.contains('/'),
    ensures
        link_layer_name("../../../layers/blake3-"@ + digest_hex + "/image.erofs"@) == "blake3-"@
            + digest_hex,
        link_layer_name("../layers/blake3-"@ + digest_hex) == "blake3-"@ + digest_hex,
{
    reveal_strlit("../../../layers/blake3-");
    reveal_strlit("../layers/blake3-");
    reveal_strlit("/image.erofs");
    reveal_strlit("blake3-");
    reveal_strlit("../../../layers/");
    reveal_strlit("../layers/");
    let name = "blake3-"@ + digest_hex;
    assert forall|k: int| 0 <= k < name.len() implies name[k] != '/' by {
        if k >= 7 {
            assert(name[k] == digest_hex[k - 7]);
        }
    }
    let a = "../../../layers/blake3-"@ + digest_hex + "/image.erofs"@;
    let a0 = "../../../layers/"@ + name;
    assert(a.subrange(a.len() - 12, a.len() as int) =~= "/image.erofs"@);
    assert(a.subrange(0, a.len() - 12) =~= a0);
    lemma_after_last_slash(a0, 16);
    assert(a0.subrange(16, a0.len() as int) =~= name);
    let b = "../layers/blake3-"@ + digest_hex;
    assert(b =~= "../layers/"@ + name);
    if 12 <= b.len() && b.subrange(b.len() - 12, b.len() as int) == "/image.erofs"@ {
        let pos = b.len() - 12;
        assert(b.subrange(pos, b.len() as int)[0] == b[pos]);
        assert(b.subrange(pos, b.len() as int)[1] == b[pos + 1]);
        assert(b[pos] == '/');
        assert(b[pos + 1] == 'i');
        if pos >= 10 {
            assert(b[pos] == name[pos - 10]);
        } else if pos == 9 {
            assert(b[10] == name[0]);
            assert(name[0] == 'b');
        } else {
            assert(b[pos] == "../layers/"@[pos]);
        }
    }
    lemma_after_last_slash(b, 10);
    assert(b.subrange(10, b.len() as int) =~= name);
}

/// The store directories of every layer a header lists, in order: what an
/// installed app keeps from garbage collection.
pub fn header_layer_dirs(header: &crate::header::BundleHeader) -> (r: Vec<String>)
    ensures
        crate::strings::views(r@) == header@.layers.map_values(
            |l: crate::layer::LayerRefView| layer_dir_name(crate::layer::digest_hex_of(l.digest)),
        ),
{
    let ghost want = header@.layers.map_values(
        |l: crate::layer::LayerRefView| layer_dir_name(crate::layer::digest_hex_of(l.digest)),
    );
    let mut out: Vec<String> = Vec::new();
    let mut i: usize = 0;
    while i < header.layers.len()
        invariant
            i <= header.layers@.len(),
            header@.layers.len() == header.layers@.len(),
            want == header@.layers.map_values(
                |l: crate::layer::LayerRefView| layer_dir_name(crate::layer::digest_hex_of(l.digest)),
            ),
            crate::strings::views(out@) == want.take(i as int),
        decreases header.layers@.len() - i,
    {
        let hex = header.layers[i].digest_hex();
        let name = concat_str("blake3-", hex);
        proof {
            reveal_strlit("blake3-");
            assert(header@.layers[i as int] == header.layers@[i as int]@);
            assert(want[i as int] == layer_dir_name(crate::layer::digest_hex_of(header@.layers[i as int].digest)));
            assert(name@ == want[i as int]);
        }
        let ghost before = crate::strings::views(out@);
        out.push(name);
        assert(crate::strings::views(out@) =~= before.push(want[i as int]));
        assert(crate::strings::views(out@) =~= want.take(i + 1));
        i = i + 1;
    }
    assert(want.take(i as int) =~= want);
    out
}

/// Whether `name` is one of `names`.
pub fn contains_name(names: &Vec<String>, name: &str) -> (r: bool)
    ensures
        r == exists|i: int| 0 <= i < names@.len() && #[trigger] names@[i]@ == name@,
{
    let mut i: usize = 0;
    while i < names.len()
        invariant
            i <= names@.len(),
            forall|j: int| 0 <= j < i ==> names@[j]@ != name@,
        decreases names@.len() - i,
    {
        if str_eq(names[i].as_str(), name) {
            return true;
        }
        i = i + 1;
    }
    false
}

/// The layer directories that garbage collection removes: those, in order,
/// whose name is not among the names the GC roots and apps point at.
pub fn layers_to_collect(reachable: &Vec<String>, layer_names: &Vec<String>) -> (r: Vec<String>)
    ensures
        crate::strings::views(r@) == crate::strings::views(layer_names@).filter(
            |n: Seq<char>| !crate::strings::views(reachable@).contains(n),
        ),
{
    let ghost rv = crate::strings::views(reachable@);
    let ghost lv = crate::strings::views(layer_names@);
    let ghost keep = |n: Seq<char>| !rv.contains(n);
    let mut out: Vec<String> = Vec::new();
    let mut i: usize = 0;
    assert(lv.take(0).filter(keep) =~= Seq::<Seq<char>>::empty());
    while i < layer_names.len()
        invariant
            rv == crate::strings::views(reachable@),
            lv == crate::strings::views(layer_names@),
            keep == (|n: Seq<char>| !rv.contains(n)),
            i <= layer_names@.len(),
            crate::strings::views(out@) == lv.take(i as int).filter(keep),
        decreases layer_names@.len() - i,
    {
        let name = &layer_names[i];
        let found = contains_name(reachable, name.as_str());
        proof {
            assert(found == rv.contains(name@)) by {
                if found {
                    let k = choose|k: int| 0 <= k < reachable@.len() && #[trigger] reachable@[k]@ == name@;
                    assert(rv[k] == name@);
                } else {
                    if rv.contains(name@) {
                        let k = choose|k: int| 0 <= k < rv.len() && rv[k] == name@;
                        assert(reachable@[k]@ == name@);
                    }
                }
            }
            assert(lv.take(i + 1).drop_last() =~= lv.take(i as int));
            assert(lv.take(i + 1).last() == name@);
            reveal(Seq::filter);
        }
        if !found {
            out.push(name.clone());
            assert(crate::strings::views(out@) =~= lv.take(i + 1).filter(keep));
        } else {
            assert(crate::strings::views(out@) =~= lv.take(i + 1).filter(keep));
        }
        i = i + 1;
    }
    assert(lv.take(layer_names@.len() as int) =~= lv);
    out
}

} // verus!

verus! {

impl Store {
    /// Whether the store holds a layer: its image is among the paths the
    /// host reports to exist.
    pub fn has_layer(&self, digest_hex: &str, host: &crate::host::HostEnv) -> (r: bool)
        ensures
            r == host@.existing.contains(
                join_path(
                    join_path(join_path(self.root_path(), "layers"@), layer_dir_name(digest_hex@)),
                    "image.erofs"@,
                ),
            ),
    {
        host.has_path(self.layer_image(digest_hex).as_str())
    }
}

} // verus!
