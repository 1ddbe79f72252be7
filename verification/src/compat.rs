use vstd::prelude::*;
use vstd::bytes::{spec_u32_from_le_bytes, u32_from_le_bytes};
use vstd::slice::slice_subrange;
use crate::error::{Error, Result, text};
use crate::host::{HostEnv, HostEnvView, env_lookup};
use crate::bwrap::{bind_if_exists, lemma_flatten_map_step, network_args, push_arg, push_bind_if_exists};
use crate::permission::{PermissionSet, PermissionSetView, PermissionValue, PermissionValueView};
use crate::header::{BundleHeader, HeaderView};
use crate::layer::LayerRef;
use crate::strings::views;
use crate::store::{join, join_path};
use crate::strings::{chars_of, concat_str, has_prefix, push_char, starts_with, string_from_chars};

verus! {

// ---------------------------------------------------------------------------
// Locating the squashfs image inside an AppImage.
// ---------------------------------------------------------------------------

/// The squashfs magics, in the order they are tried: `hsqs`
/// (little-endian), `sqsh` (big-endian), `qshs` (swapped).
pub open spec fn sq_magics() -> Seq<Seq<u8>> {
    seq![seq![0x68u8, 0x73, 0x71, 0x73], seq![0x73u8, 0x71, 0x73, 0x68], seq![0x71u8, 0x73, 0x68, 0x73]]
}

/// The four bytes at `i`.
pub open spec fn window(data: Seq<u8>, i: int) -> Seq<u8> {
    data.subrange(i, i + 4)
}

/// Whether four bytes are one of the squashfs magics.
pub open spec fn is_sq_magic(w: Seq<u8>) -> bool {
    w == sq_magics()[0] || w == sq_magics()[1] || w == sq_magics()[2]
}

/// The positions scanned are those below `len - 4` (none for shorter data).
pub open spec fn scan_limit(data: Seq<u8>) -> int {
    if data.len() >= 4 {
        data.len() - 4
    } else {
        0
    }
}

/// The first position from `i` on, in steps of four, that holds a magic.
pub open spec fn first_aligned_magic(data: Seq<u8>, i: int) -> Option<int>
    decreases scan_limit(data) + 3 - i,
{
    if i < 0 || i >= scan_limit(data) {
        None
    } else if is_sq_magic(window(data, i)) {
        Some(i)
    } else {
        first_aligned_magic(data, i + 4)
    }
}

/// The first position from `i` on that holds the magic `m`.
pub open spec fn first_pos_of(data: Seq<u8>, m: Seq<u8>, i: int) -> Option<int>
    decreases scan_limit(data) - i,
{
    if i < 0 || i >= scan_limit(data) {
        None
    } else if window(data, i) == m {
        Some(i)
    } else {
        first_pos_of(data, m, i + 1)
    }
}

/// The 32-bit word at offset 8, read when the data is longer than eight
/// bytes; AppImages of type 2 leave it zero or all ones.
pub open spec fn iso_marker(data: Seq<u8>) -> u32 {
    spec_u32_from_le_bytes(data.subrange(8, 12))
}

/// Whether the data is long enough and marked for a squashfs search.
pub open spec fn searchable(data: Seq<u8>) -> bool {
    data.len() > 8 && (iso_marker(data) == 0xFFFF_FFFFu32 || iso_marker(data) == 0)
}

/// The offset reported for a magic found by the byte-wise search.
pub open spec fn guess_offset(i: int) -> int {
    if i >= 4 {
        i - 4
    } else {
        i
    }
}

/// Where the squashfs image is taken to start, and the magic found there:
/// first an aligned search for any magic (reporting four bytes earlier), then
/// a byte-wise search for each magic in turn.
pub open spec fn squashfs_location(data: Seq<u8>) -> Option<(int, Seq<u8>)> {
    if !searchable(data) {
        None
    } else {
        match first_aligned_magic(data, 0) {
            Some(i) => Some((i - 4, window(data, i))),
            None => match first_pos_of(data, sq_magics()[0], 0) {
                Some(i) => Some((guess_offset(i), sq_magics()[0])),
                None => match first_pos_of(data, sq_magics()[1], 0) {
                    Some(i) => Some((guess_offset(i), sq_magics()[1])),
                    None => match first_pos_of(data, sq_magics()[2], 0) {
                        Some(i) => Some((guess_offset(i), sq_magics()[2])),
                        None => None,
                    },
                },
            },
        }
    }
}

/// The message when no squashfs image can be found.
pub open spec fn no_squashfs_message() -> Seq<char> {
    "could not locate squashfs image in AppImage (tried looking for hsqs/sqsh/qshs magic)"@
}

fn magic_at(data: &[u8], i: usize, m: &[u8; 4]) -> (r: bool)
    requires
        i + 4 <= data@.len(),
    ensures
        r == (window(data@, i as int) == m@),
{
    let r = data[i] == m[0] && data[i + 1] == m[1] && data[i + 2] == m[2] && data[i + 3] == m[3];
    if r {
        assert(window(data@, i as int) =~= m@);
    }
    r
}

fn any_magic_at(data: &[u8], i: usize) -> (r: bool)
    requires
        i + 4 <= data@.len(),
    ensures
        r == is_sq_magic(window(data@, i as int)),
{
    let m0: [u8; 4] = [0x68, 0x73, 0x71, 0x73];
    let m1: [u8; 4] = [0x73, 0x71, 0x73, 0x68];
    let m2: [u8; 4] = [0x71, 0x73, 0x68, 0x73];
    assert(m0@ =~= sq_magics()[0]);
    assert(m1@ =~= sq_magics()[1]);
    assert(m2@ =~= sq_magics()[2]);
    magic_at(data, i, &m0) || magic_at(data, i, &m1) || magic_at(data, i, &m2)
}

fn find_pos_of(data: &[u8], m: &[u8; 4]) -> (r: Option<usize>)
    ensures
        r matches Some(i) ==> first_pos_of(data@, m@, 0) == Some(i as int),
        r is None ==> first_pos_of(data@, m@, 0) is None,
{
    let limit: usize = if data.len() >= 4 { data.len() - 4 } else { 0 };
    let mut i: usize = 0;
    while i < limit
        invariant
            limit == scan_limit(data@),
            i <= limit,
            first_pos_of(data@, m@, 0) == first_pos_of(data@, m@, i as int),
        decreases limit - i,
    {
        if magic_at(data, i, m) {
            return Some(i);
        }
        i = i + 1;
    }
    None
}

/// Where the squashfs image of an AppImage starts, and the magic found:
/// see `squashfs_location`. Data that is neither marked nor long enough,
/// or holds no magic, is refused.
pub fn find_squashfs_offset(data: &[u8]) -> (r: Result<(u64, [u8; 4])>)
    requires
        !(8 < data@.len() < 12),
        !(searchable(data@) && first_aligned_magic(data@, 0) == Some(0int)),
    ensures
        match squashfs_location(data@) {
            Some((off, m)) => r matches Ok((o, mm)) && o == off && mm@ == m,
            None => r matches Err(e) && crate::error::is_invalid_format(e, no_squashfs_message()),
        },
{
    if data.len() > 8 {
        let word = slice_subrange(data, 8, 12);
        let possible_iso = u32_from_le_bytes(word);
        assert(word@ =~= data@.subrange(8, 12));
        if possible_iso == 0xFFFF_FFFF || possible_iso == 0 {
            let limit: usize = data.len() - 4;
            let mut i: usize = 0;
            while i < limit
                invariant
                    limit == scan_limit(data@),
                    searchable(data@),
                    i < limit ==> i % 4 == 0,
                    first_aligned_magic(data@, 0) == first_aligned_magic(data@, i as int),
                    !(searchable(data@) && first_aligned_magic(data@, 0) == Some(0int)),
                decreases limit - i,
            {
                if any_magic_at(data, i) {
                    let chunk: [u8; 4] = [data[i], data[i + 1], data[i + 2], data[i + 3]];
                    assert(chunk@ =~= window(data@, i as int));
                    assert(i != 0);
                    return Ok(((i - 4) as u64, chunk));
                }
                if limit - i < 4 {
                    assert(first_aligned_magic(data@, i + 4) == None::<int>);
                    i = limit;
                    assert(first_aligned_magic(data@, 0) == None::<int>);
                } else {
                    i = i + 4;
                }
            }
            assert(first_aligned_magic(data@, i as int) == None::<int>);
            assert(first_aligned_magic(data@, 0) == None::<int>);
            let m0: [u8; 4] = [0x68, 0x73, 0x71, 0x73];
            let m1: [u8; 4] = [0x73, 0x71, 0x73, 0x68];
            let m2: [u8; 4] = [0x71, 0x73, 0x68, 0x73];
            assert(m0@ =~= sq_magics()[0]);
            assert(m1@ =~= sq_magics()[1]);
            assert(m2@ =~= sq_magics()[2]);
            match find_pos_of(data, &m0) {
                Some(i) => {
                    assert(squashfs_location(data@) == Some((guess_offset(i as int), sq_magics()[0])));
                    return Ok((if i >= 4 { (i - 4) as u64 } else { i as u64 }, m0));
                },
                None => {},
            }
            match find_pos_of(data, &m1) {
                Some(i) => {
                    assert(squashfs_location(data@) == Some((guess_offset(i as int), sq_magics()[1])));
                    return Ok((if i >= 4 { (i - 4) as u64 } else { i as u64 }, m1));
                },
                None => {},
            }
            match find_pos_of(data, &m2) {
                Some(i) => {
                    return Ok((if i >= 4 { (i - 4) as u64 } else { i as u64 }, m2));
                },
                None => {},
            }
        }
    }
    Err(Error::InvalidFormat(
        text("could not locate squashfs image in AppImage (tried looking for hsqs/sqsh/qshs magic)"),
    ))
}

} // verus!

verus! {

// ---------------------------------------------------------------------------
// Guessing whether an AppImage uses the network, from its file names.
// ---------------------------------------------------------------------------

/// What `str::to_lowercase` gives for a text.
pub uninterp spec fn lowercase_of(s: Seq<char>) -> Seq<char>;

/// Whether every character is ASCII.
pub open spec fn is_ascii_text(s: Seq<char>) -> bool {
    forall|i: int| 0 <= i < s.len() ==> (#[trigger] s[i] as u32) < 128
}

/// ASCII lowercasing: `A`-`Z` become `a`-`z`, the rest is kept.
pub open spec fn ascii_lower(s: Seq<char>) -> Seq<char> {
    s.map_values(|c: char| if 'A' <= c <= 'Z' { ((c as u32) + 32) as char } else { c })
}

/// `str::to_lowercase`: Unicode lowercasing, which on ASCII text lowers
/// exactly the letters `A`-`Z`.
#[verifier::external_body]
pub(crate) fn to_lowercase(s: &str) -> (r: String)
    ensures
        r@ == lowercase_of(s@),
        is_ascii_text(s@) ==> r@ == ascii_lower(s@),
{
    s.to_lowercase()
}

/// Whether `pat` occurs in `s`.
pub open spec fn contains_text(s: Seq<char>, pat: Seq<char>) -> bool {
    exists|i: int| 0 <= i <= s.len() - pat.len() && #[trigger] s.subrange(i, i + pat.len()) == pat
}

/// Whether `s` ends with `suf`.
pub open spec fn ends_with_text(s: Seq<char>, suf: Seq<char>) -> bool {
    suf.len() <= s.len() && s.subrange(s.len() - suf.len(), s.len() as int) == suf
}

/// Library names that suggest network use.
pub open spec fn network_libraries() -> Seq<Seq<char>> {
    seq!["libcurl"@, "libssl"@, "libcrypto"@, "libsoup"@, "libfetch"@, "libwslay"@, "libnghttp2"@]
}

/// Tool names that suggest network use, as path endings.
pub open spec fn network_tools() -> Seq<Seq<char>> {
    seq!["/curl"@, "/wget"@, "/ssh"@]
}

/// Whether one file path suggests network use: its lowercase form names a
/// network library or ends in a network tool.
pub open spec fn hints_network(name: Seq<char>) -> bool {
    let lower = lowercase_of(name);
    (exists|k: int| 0 <= k < network_libraries().len() && contains_text(lower, #[trigger] network_libraries()[k]))
        || (exists|k: int| 0 <= k < network_tools().len() && ends_with_text(lower, #[trigger] network_tools()[k]))
}

/// A path names a network library when its lowercase form contains
/// `libcurl`, `libssl`, `libcrypto`, `libsoup`, `libfetch`, `libwslay` or
/// `libnghttp2`, and a network tool when it ends in `/curl`, `/wget` or
/// `/ssh`; either hints at network use.
pub proof fn lemma_network_hints(name: Seq<char>)
    ensures
        contains_text(lowercase_of(name), "libcurl"@) ==> hints_network(name),
        contains_text(lowercase_of(name), "libssl"@) ==> hints_network(name),
        contains_text(lowercase_of(name), "libcrypto"@) ==> hints_network(name),
        contains_text(lowercase_of(name), "libsoup"@) ==> hints_network(name),
        contains_text(lowercase_of(name), "libfetch"@) ==> hints_network(name),
        contains_text(lowercase_of(name), "libwslay"@) ==> hints_network(name),
        contains_text(lowercase_of(name), "libnghttp2"@) ==> hints_network(name),
        ends_with_text(lowercase_of(name), "/curl"@) ==> hints_network(name),
        ends_with_text(lowercase_of(name), "/wget"@) ==> hints_network(name),
        ends_with_text(lowercase_of(name), "/ssh"@) ==> hints_network(name),
{
    assert(network_libraries()[0] == "libcurl"@);
    assert(network_libraries()[1] == "libssl"@);
    assert(network_libraries()[2] == "libcrypto"@);
    assert(network_libraries()[3] == "libsoup"@);
    assert(network_libraries()[4] == "libfetch"@);
    assert(network_libraries()[5] == "libwslay"@);
    assert(network_libraries()[6] == "libnghttp2"@);
    assert(network_tools()[0] == "/curl"@);
    assert(network_tools()[1] == "/wget"@);
    assert(network_tools()[2] == "/ssh"@);
}

/// What the heuristic decides for an AppImage.
pub struct HeuristicPerms {
    pub network: bool,
}

pub(crate) fn text_contains(s: &Vec<char>, pat: &str) -> (r: bool)
    ensures
        r == contains_text(s@, pat@),
{
    let p = crate::strings::chars_of(pat);
    let n = s.len();
    let m = p.len();
    if m > n {
        return false;
    }
    let mut i: usize = 0;
    while i <= n - m
        invariant
            n == s@.len(),
            m == p@.len(),
            p@ == pat@,
            m <= n,
            i <= n - m + 1,
            forall|j: int| 0 <= j < i ==> #[trigger] s@.subrange(j, j + m) != pat@,
        decreases n - m + 1 - i,
    {
        let mut k: usize = 0;
        let mut same = true;
        while k < m
            invariant
                n == s@.len(),
                m == p@.len(),
                i + m <= n,
                k <= m,
                same == (forall|t: int| 0 <= t < k ==> s@[i + t] == p@[t]),
            decreases m - k,
        {
            if s[i + k] != p[k] {
                same = false;
            }
            k = k + 1;
        }
        if same {
            assert(s@.subrange(i as int, i + m) =~= pat@);
            return true;
        }
        assert(s@.subrange(i as int, i + m) != pat@) by {
            if s@.subrange(i as int, i + m) == pat@ {
                assert forall|t: int| 0 <= t < m implies s@[i + t] == p@[t] by {
                    assert(s@.subrange(i as int, i + m)[t] == s@[i + t]);
                }
            }
        }
        i = i + 1;
    }
    false
}

fn text_ends_with(s: &Vec<char>, suf: &str) -> (r: bool)
    ensures
        r == ends_with_text(s@, suf@),
{
    let p = crate::strings::chars_of(suf);
    let n = s.len();
    let m = p.len();
    if m > n {
        return false;
    }
    let mut k: usize = 0;
    while k < m
        invariant
            n == s@.len(),
            m == p@.len(),
            p@ == suf@,
            m <= n,
            k <= m,
            forall|t: int| 0 <= t < k ==> s@[n - m + t] == p@[t],
        decreases m - k,
    {
        if s[n - m + k] != p[k] {
            assert(s@.subrange(n - m, n as int)[k as int] != suf@[k as int]);
            return false;
        }
        k = k + 1;
    }
    assert(s@.subrange(n - m, n as int) =~= suf@);
    true
}

fn hints_network_exec(name: &str) -> (r: bool)
    ensures
        r == hints_network(name@),
{
    let lower = to_lowercase(name);
    let cs = crate::strings::chars_of(lower.as_str());
    let libs: Vec<&str> = vec!["libcurl", "libssl", "libcrypto", "libsoup", "libfetch", "libwslay", "libnghttp2"];
    let tools: Vec<&str> = vec!["/curl", "/wget", "/ssh"];
    assert(libs@.map_values(|s: &str| s@) =~= network_libraries());
    assert(tools@.map_values(|s: &str| s@) =~= network_tools());
    let mut k: usize = 0;
    while k < libs.len()
        invariant
            cs@ == lowercase_of(name@),
            libs@.map_values(|s: &str| s@) == network_libraries(),
            k <= libs@.len(),
            forall|j: int| 0 <= j < k ==> !contains_text(cs@, #[trigger] network_libraries()[j]),
        decreases libs@.len() - k,
    {
        assert(libs@[k as int]@ == network_libraries()[k as int]);
        if text_contains(&cs, libs[k]) {
            return true;
        }
        k = k + 1;
    }
    let mut k: usize = 0;
    while k < tools.len()
        invariant
            cs@ == lowercase_of(name@),
            tools@.map_values(|s: &str| s@) == network_tools(),
            k <= tools@.len(),
            forall|j: int| 0 <= j < k ==> !ends_with_text(cs@, #[trigger] network_tools()[j]),
            forall|j: int| 0 <= j < network_libraries().len() ==> !contains_text(cs@, #[trigger] network_libraries()[j]),
        decreases tools@.len() - k,
    {
        assert(tools@[k as int]@ == network_tools()[k as int]);
        if text_ends_with(&cs, tools[k]) {
            return true;
        }
        k = k + 1;
    }
    false
}

/// The permissions guessed for an AppImage from the paths of its files:
/// network access when any path hints at it.
pub fn heuristic_permissions(file_paths: &Vec<String>) -> (r: HeuristicPerms)
    ensures
        r.network == (exists|j: int| 0 <= j < file_paths@.len() && hints_network(#[trigger] file_paths@[j]@)),
{
    let mut network_hints = false;
    let mut i: usize = 0;
    while i < file_paths.len()
        invariant
            i <= file_paths@.len(),
            network_hints == (exists|j: int| 0 <= j < i && hints_network(#[trigger] file_paths@[j]@)),
        decreases file_paths@.len() - i,
    {
        if hints_network_exec(file_paths[i].as_str()) {
            network_hints = true;
        }
        i = i + 1;
    }
    HeuristicPerms { network: network_hints }
}

} // verus!

verus! {

// ---------------------------------------------------------------------------
// Running an AppImage in a sandbox of its own.
// ---------------------------------------------------------------------------

/// `s` with every occurrence of `pat` from position `i` on replaced by
/// `rep`, scanning left to right without overlaps.
pub open spec fn replace_from(s: Seq<char>, pat: Seq<char>, rep: Seq<char>, i: int) -> Seq<char>
    decreases s.len() - i,
{
    if i < 0 || i >= s.len() {
        Seq::empty()
    } else if pat.len() > 0 && i + pat.len() <= s.len() && s.subrange(i, i + pat.len()) == pat {
        rep + replace_from(s, pat, rep, i + pat.len())
    } else {
        seq![s[i]] + replace_from(s, pat, rep, i + 1)
    }
}

/// `s` with every occurrence of `pat` replaced by `rep`.
pub open spec fn replace_all(s: Seq<char>, pat: Seq<char>, rep: Seq<char>) -> Seq<char> {
    replace_from(s, pat, rep, 0)
}

/// The position of the first `/` at or after `i`, or the length.
pub open spec fn slash_from(s: Seq<char>, i: int) -> int
    decreases s.len() - i,
{
    if i < 0 || i >= s.len() {
        s.len() as int
    } else if s[i] == '/' {
        i
    } else {
        slash_from(s, i + 1)
    }
}

/// A position found by `slash_from` lies between the start and the length.
pub proof fn lemma_slash_from(s: Seq<char>, i: int)
    requires
        0 <= i <= s.len(),
    ensures
        i <= slash_from(s, i) <= s.len(),
        slash_from(s, i) < s.len() ==> s[slash_from(s, i)] == '/',
    decreases s.len() - i,
{
    if i < s.len() && s[i] != '/' {
        lemma_slash_from(s, i + 1);
    }
}

/// `$HOME`, or `/tmp` when it is unset.
pub open spec fn home_or_tmp(vars: Seq<(Seq<char>, Seq<char>)>) -> Seq<char> {
    match env_lookup(vars, "HOME"@) {
        Some(h) => h,
        None => "/tmp"@,
    }
}

/// How a permission path of a converted AppImage is expanded: a path that
/// starts with `$HOME` has every `$HOME` replaced by the home directory; a
/// path `$XDG_X/first/...` becomes the value of `XDG_X` (or `/tmp/$XDG_X`)
/// joined with `first`; anything else is kept.
pub open spec fn expand_path_of(path: Seq<char>, vars: Seq<(Seq<char>, Seq<char>)>) -> Seq<char> {
    if has_prefix(path, "$HOME"@) {
        replace_all(path, "$HOME"@, home_or_tmp(vars))
    } else if has_prefix(path, "$XDG_"@) {
        let a = slash_from(path, 0);
        if a >= path.len() {
            path
        } else {
            let var = path.subrange(0, a);
            let rest = path.subrange(a + 1, slash_from(path, a + 1));
            let val = match env_lookup(vars, var.skip(1)) {
                Some(v) => v,
                None => "/tmp/"@ + var,
            };
            join_path(val, rest)
        }
    } else {
        path
    }
}

fn replace_home(path: &str, home: &str) -> (r: String)
    ensures
        r@ == replace_all(path@, "$HOME"@, home@),
{
    let cs = chars_of(path);
    let pat = chars_of("$HOME");
    proof {
        reveal_strlit("$HOME");
    }
    let n = cs.len();
    let m = pat.len();
    let mut out = String::new();
    let mut i: usize = 0;
    while i < n
        invariant
            n == cs@.len(),
            cs@ == path@,
            pat@ == "$HOME"@,
            m == 5,
            m == pat@.len(),
            i <= n,
            out@ + replace_from(cs@, pat@, home@, i as int) == replace_all(path@, "$HOME"@, home@),
        decreases n - i,
    {
        let ghost before = out@;
        let mut matched = m <= n - i;
        if matched {
            let mut k: usize = 0;
            while k < m
                invariant
                    n == cs@.len(),
                    m == pat@.len(),
                    i + m <= n,
                    k <= m,
                    matched == (forall|t: int| 0 <= t < k ==> cs@[i + t] == pat@[t]),
                decreases m - k,
            {
                if cs[i + k] != pat[k] {
                    matched = false;
                }
                k = k + 1;
            }
            if matched {
                assert(cs@.subrange(i as int, i + m) =~= pat@);
            } else {
                assert(cs@.subrange(i as int, i + m) != pat@) by {
                    if cs@.subrange(i as int, i + m) == pat@ {
                        assert forall|t: int| 0 <= t < m implies cs@[i + t] == pat@[t] by {
                            assert(cs@.subrange(i as int, i + m)[t] == cs@[i + t]);
                        }
                    }
                }
            }
        }
        if matched {
            out.append(home);
            i = i + m;
            assert(before + replace_from(cs@, pat@, home@, i - m) =~= out@ + replace_from(
                cs@,
                pat@,
                home@,
                i as int,
            ));
        } else {
            push_char(&mut out, cs[i]);
            i = i + 1;
            assert(before + replace_from(cs@, pat@, home@, i - 1) =~= out@ + replace_from(
                cs@,
                pat@,
                home@,
                i as int,
            ));
        }
    }
    assert(out@ + Seq::<char>::empty() =~= out@);
    out
}

fn slash_index(cs: &Vec<char>, from: usize) -> (r: usize)
    requires
        from <= cs@.len(),
    ensures
        r == slash_from(cs@, from as int),
{
    let mut i = from;
    while i < cs.len()
        invariant
            from <= i <= cs@.len(),
            slash_from(cs@, from as int) == slash_from(cs@, i as int),
        decreases cs@.len() - i,
    {
        if cs[i] == '/' {
            return i;
        }
        i = i + 1;
    }
    i
}

/// A permission path of a converted AppImage, expanded (see
/// `expand_path_of`).
pub fn expand_path(path: &str, env: &HostEnv) -> (r: String)
    ensures
        r@ == expand_path_of(path@, env@.vars),
{
    if starts_with(path, "$HOME") {
        let home = match env.var("HOME") {
            Some(h) => h,
            None => text("/tmp"),
        };
        replace_home(path, home.as_str())
    } else if starts_with(path, "$XDG_") {
        let cs = chars_of(path);
        proof {
            reveal_strlit("$XDG_");
            assert(cs@.subrange(0, 5)[0] == '$');
        }
        let a = slash_index(&cs, 0);
        if a >= cs.len() {
            String::from_str(path)
        } else {
            proof {
                lemma_slash_from(cs@, 0);
                lemma_slash_from(cs@, a + 1);
            }
            let b = slash_index(&cs, a + 1);
            let var = string_from_chars(&cs, 0, a);
            let name = string_from_chars(&cs, 1, a);
            let rest = string_from_chars(&cs, a + 1, b);
            assert(name@ =~= var@.skip(1));
            let val = match env.var(name.as_str()) {
                Some(v) => v,
                None => concat_str("/tmp/", var.as_str()),
            };
            join(val.as_str(), rest.as_str())
        }
    } else {
        String::from_str(path)
    }
}

} // verus!

verus! {

/// `--bind p p` when `p` exists on the host.
pub open spec fn rw_bind_if_exists(env: HostEnvView, p: Seq<char>) -> Seq<Seq<char>> {
    if env.existing.contains(p) {
        seq!["--bind"@, p, p]
    } else {
        Seq::empty()
    }
}

/// `--set-env name value`, as the AppImage launcher writes it.
pub open spec fn set_env_flag(name: Seq<char>, value: Seq<char>) -> Seq<Seq<char>> {
    seq!["--set-env"@, name, value]
}

/// The bind of a host path named by a variable, when it is set and exists.
pub open spec fn var_path_bind(env: HostEnvView, name: Seq<char>) -> Seq<Seq<char>> {
    match env_lookup(env.vars, name) {
        Some(p) => bind_if_exists(env, p),
        None => Seq::empty(),
    }
}

/// The Wayland socket: `$XDG_RUNTIME_DIR/$WAYLAND_DISPLAY` (or the display
/// name alone without a runtime directory), bound when it exists, and the
/// display passed on.
pub open spec fn wayland_socket_args(env: HostEnvView) -> Seq<Seq<char>> {
    match env_lookup(env.vars, "WAYLAND_DISPLAY"@) {
        Some(d) => {
            let socket = match env_lookup(env.vars, "XDG_RUNTIME_DIR"@) {
                Some(r) => join_path(r, d),
                None => d,
            };
            bind_if_exists(env, socket) + set_env_flag("WAYLAND_DISPLAY"@, d)
        },
        None => Seq::empty(),
    }
}

/// The session bus socket `$XDG_RUNTIME_DIR/bus`, when it exists.
pub open spec fn bus_bind(env: HostEnvView) -> Seq<Seq<char>> {
    match env_lookup(env.vars, "XDG_RUNTIME_DIR"@) {
        Some(r) => bind_if_exists(env, join_path(r, "bus"@)),
        None => Seq::empty(),
    }
}

/// `$DISPLAY` passed on, when set.
pub open spec fn display_env(env: HostEnvView) -> Seq<Seq<char>> {
    match env_lookup(env.vars, "DISPLAY"@) {
        Some(h) => set_env_flag("DISPLAY"@, h),
        None => Seq::empty(),
    }
}

/// The runtime directory, the Wayland socket, the X authority file, the X
/// display and the session bus, as far as the host has them.
pub open spec fn host_socket_args(env: HostEnvView) -> Seq<Seq<char>> {
    var_path_bind(env, "XDG_RUNTIME_DIR"@) + wayland_socket_args(env) + var_path_bind(
        env,
        "XAUTHORITY"@,
    ) + display_env(env) + bus_bind(env)
}

/// The entry point made absolute.
pub open spec fn absolute_entry(entrypoint: Seq<char>) -> Seq<char> {
    if entrypoint.len() > 0 && entrypoint[0] == '/' {
        entrypoint
    } else {
        "/"@ + entrypoint
    }
}

/// The bubblewrap command line for an AppImage extracted at `rootfs`.
pub open spec fn generic_args(
    rootfs: Seq<char>,
    perm: PermissionSetView,
    entrypoint: Seq<char>,
    app_args: Seq<Seq<char>>,
    env: HostEnvView,
) -> Seq<Seq<char>> {
    seq!["--ro-bind"@, rootfs, "/"@, "--proc"@, "/proc"@, "--dev"@, "/dev"@, "--tmpfs"@, "/tmp"@]
        + perm.filesystem.map_values(
        |p: Seq<char>| rw_bind_if_exists(env, expand_path_of(p, env.vars)),
    ).flatten() + network_args(perm) + seq![
        "--unshare-pid"@,
        "--unshare-uts"@,
        "--unshare-ipc"@,
        "--die-with-parent"@,
    ] + perm.devices.map_values(|d: Seq<char>| bind_if_exists(env, join_path("/dev"@, d))).flatten()
        + host_socket_args(env) + set_env_flag("HOME"@, home_or_tmp(env.vars)) + set_env_flag("PATH"@, "/usr/bin:/bin:/usr/local/bin"@) + seq![
        "--"@,
        absolute_entry(entrypoint),
    ] + app_args
}

fn push_set_env_flag(args: &mut Vec<String>, name: &str, value: &str)
    ensures
        views(final(args)@) == views(old(args)@) + set_env_flag(name@, value@),
{
    push_arg(args, "--set-env");
    push_arg(args, name);
    push_arg(args, value);
    assert(views(args@) =~= views(old(args)@) + set_env_flag(name@, value@));
}

fn push_var_path_bind(args: &mut Vec<String>, env: &HostEnv, name: &str)
    ensures
        views(final(args)@) == views(old(args)@) + var_path_bind(env@, name@),
{
    match env.var(name) {
        Some(p) => push_bind_if_exists(args, env, p.as_str()),
        None => {
            assert(views(args@) =~= views(args@) + Seq::<Seq<char>>::empty());
        },
    }
}

fn push_generic_fs_binds(args: &mut Vec<String>, env: &HostEnv, paths: &Vec<String>)
    ensures
        views(final(args)@) == views(old(args)@) + views(paths@).map_values(
            |p: Seq<char>| rw_bind_if_exists(env@, expand_path_of(p, env@.vars)),
        ).flatten(),
{
    let ghost f = |p: Seq<char>| rw_bind_if_exists(env@, expand_path_of(p, env@.vars));
    let ghost pv = views(paths@);
    let mut i: usize = 0;
    while i < paths.len()
        invariant
            i <= paths@.len(),
            pv == views(paths@),
            f == (|p: Seq<char>| rw_bind_if_exists(env@, expand_path_of(p, env@.vars))),
            views(args@) == views(old(args)@) + pv.take(i as int).map_values(f).flatten(),
        decreases paths@.len() - i,
    {
        let expanded = expand_path(paths[i].as_str(), env);
        if env.has_path(expanded.as_str()) {
            push_arg(args, "--bind");
            push_arg(args, expanded.as_str());
            push_arg(args, expanded.as_str());
        }
        proof {
            lemma_flatten_map_step(pv, f, i as int);
            assert(views(args@) =~= views(old(args)@) + pv.take(i + 1).map_values(f).flatten());
        }
        i = i + 1;
    }
    assert(pv.take(paths@.len() as int) =~= pv);
}

fn push_dev_binds(args: &mut Vec<String>, env: &HostEnv, devs: &Vec<String>)
    ensures
        views(final(args)@) == views(old(args)@) + views(devs@).map_values(
            |d: Seq<char>| bind_if_exists(env@, join_path("/dev"@, d)),
        ).flatten(),
{
    let ghost f = |d: Seq<char>| bind_if_exists(env@, join_path("/dev"@, d));
    let ghost dv = views(devs@);
    let mut i: usize = 0;
    while i < devs.len()
        invariant
            i <= devs@.len(),
            dv == views(devs@),
            f == (|d: Seq<char>| bind_if_exists(env@, join_path("/dev"@, d))),
            views(args@) == views(old(args)@) + dv.take(i as int).map_values(f).flatten(),
        decreases devs@.len() - i,
    {
        let p = join("/dev", devs[i].as_str());
        push_bind_if_exists(args, env, p.as_str());
        proof {
            lemma_flatten_map_step(dv, f, i as int);
            assert(views(args@) =~= views(old(args)@) + dv.take(i + 1).map_values(f).flatten());
        }
        i = i + 1;
    }
    assert(dv.take(devs@.len() as int) =~= dv);
}

fn push_wayland_socket(args: &mut Vec<String>, env: &HostEnv)
    ensures
        views(final(args)@) == views(old(args)@) + wayland_socket_args(env@),
{
    match env.var("WAYLAND_DISPLAY") {
        Some(d) => {
            let socket = match env.var("XDG_RUNTIME_DIR") {
                Some(r) => join(r.as_str(), d.as_str()),
                None => d.clone(),
            };
            push_bind_if_exists(args, env, socket.as_str());
            push_set_env_flag(args, "WAYLAND_DISPLAY", d.as_str());
            assert(views(args@) =~= views(old(args)@) + wayland_socket_args(env@));
        },
        None => {
            assert(views(args@) =~= views(args@) + Seq::<Seq<char>>::empty());
        },
    }
}

fn push_host_socket_args(args: &mut Vec<String>, env: &HostEnv)
    ensures
        views(final(args)@) == views(old(args)@) + host_socket_args(env@),
{
    push_var_path_bind(args, env, "XDG_RUNTIME_DIR");
    push_wayland_socket(args, env);
    push_var_path_bind(args, env, "XAUTHORITY");
    let ghost s3 = views(args@);
    match env.var("DISPLAY") {
        Some(host) => push_set_env_flag(args, "DISPLAY", host.as_str()),
        None => {},
    }
    assert(views(args@) =~= s3 + display_env(env@));
    let ghost s4 = views(args@);
    match env.var("XDG_RUNTIME_DIR") {
        Some(r) => {
            let bus = join(r.as_str(), "bus");
            push_bind_if_exists(args, env, bus.as_str());
        },
        None => {},
    }
    assert(views(args@) =~= s4 + bus_bind(env@));
    assert(views(args@) =~= views(old(args)@) + host_socket_args(env@));
}

fn absolute_entry_exec(entrypoint: &str) -> (r: String)
    ensures
        r@ == absolute_entry(entrypoint@),
{
    proof {
        reveal_strlit("/");
    }
    if starts_with(entrypoint, "/") {
        assert(entrypoint@.subrange(0, 1)[0] == entrypoint@[0]);
        String::from_str(entrypoint)
    } else {
        proof {
            if entrypoint@.len() > 0 && entrypoint@[0] == '/' {
                assert(entrypoint@.subrange(0, 1) =~= "/"@);
            }
        }
        concat_str("/", entrypoint)
    }
}

/// The bubblewrap arguments that run an AppImage extracted at `rootfs`,
/// given what the host provides.
pub fn build_bwrap_args_generic(
    rootfs: &str,
    perms: &PermissionSet,
    entrypoint: &str,
    app_args: &[String],
    env: &HostEnv,
) -> (r: Vec<String>)
    ensures
        views(r@) == generic_args(rootfs@, perms@, entrypoint@, views(app_args@), env@),
{
    let entry = absolute_entry_exec(entrypoint);
    let mut args: Vec<String> = Vec::new();
    push_arg(&mut args, "--ro-bind");
    push_arg(&mut args, rootfs);
    push_arg(&mut args, "/");
    push_arg(&mut args, "--proc");
    push_arg(&mut args, "/proc");
    push_arg(&mut args, "--dev");
    push_arg(&mut args, "/dev");
    push_arg(&mut args, "--tmpfs");
    push_arg(&mut args, "/tmp");
    let ghost s0 = views(args@);
    push_generic_fs_binds(&mut args, env, &perms.filesystem);
    let ghost s1 = views(args@);
    if !perms.network.allows_network() {
        push_arg(&mut args, "--unshare-net");
    }
    assert(views(args@) =~= s1 + network_args(perms@));
    push_arg(&mut args, "--unshare-pid");
    push_arg(&mut args, "--unshare-uts");
    push_arg(&mut args, "--unshare-ipc");
    push_arg(&mut args, "--die-with-parent");
    let ghost s2 = views(args@);
    push_dev_binds(&mut args, env, &perms.devices);
    push_host_socket_args(&mut args, env);
    let home = match env.var("HOME") {
        Some(h) => h,
        None => text("/tmp"),
    };
    push_set_env_flag(&mut args, "HOME", home.as_str());
    push_set_env_flag(&mut args, "PATH", "/usr/bin:/bin:/usr/local/bin");
    let ghost s5 = views(args@);
    push_arg(&mut args, "--");
    push_arg(&mut args, entry.as_str());
    let mut i: usize = 0;
    while i < app_args.len()
        invariant
            i <= app_args@.len(),
            views(args@) == s5 + seq!["--"@, absolute_entry(entrypoint@)] + views(app_args@).take(
                i as int,
            ),
        decreases app_args@.len() - i,
    {
        push_arg(&mut args, app_args[i].as_str());
        assert(views(app_args@).take(i + 1) =~= views(app_args@).take(i as int).push(
            app_args@[i as int]@,
        ));
        i = i + 1;
    }
    assert(views(app_args@).take(app_args@.len() as int) =~= views(app_args@));
    assert(views(args@) =~= generic_args(rootfs@, perms@, entrypoint@, views(app_args@), env@));
    args
}

} // verus!

verus! {

/// The host paths whose existence the AppImage command line depends on.
pub open spec fn compat_probe_list(perm: PermissionSetView, vars: Seq<(Seq<char>, Seq<char>)>) -> Seq<
    Seq<char>,
> {
    perm.filesystem.map_values(|p: Seq<char>| expand_path_of(p, vars)) + perm.devices.map_values(
        |d: Seq<char>| join_path("/dev"@, d),
    ) + match env_lookup(vars, "XDG_RUNTIME_DIR"@) {
        Some(r) => seq![r],
        None => Seq::empty(),
    } + match env_lookup(vars, "WAYLAND_DISPLAY"@) {
        Some(d) => seq![
            match env_lookup(vars, "XDG_RUNTIME_DIR"@) {
                Some(r) => join_path(r, d),
                None => d,
            },
        ],
        None => Seq::empty(),
    } + match env_lookup(vars, "XAUTHORITY"@) {
        Some(x) => seq![x],
        None => Seq::empty(),
    } + match env_lookup(vars, "XDG_RUNTIME_DIR"@) {
        Some(r) => seq![join_path(r, "bus"@)],
        None => Seq::empty(),
    }
}

/// The host paths to test for existence before building the AppImage
/// command line.
pub fn compat_probe_paths(perms: &PermissionSet, env: &HostEnv) -> (r: Vec<String>)
    ensures
        views(r@) == compat_probe_list(perms@, env@.vars),
{
    let mut r: Vec<String> = Vec::new();
    let mut i: usize = 0;
    while i < perms.filesystem.len()
        invariant
            i <= perms.filesystem@.len(),
            views(r@) == views(perms.filesystem@).take(i as int).map_values(
                |p: Seq<char>| expand_path_of(p, env@.vars),
            ),
        decreases perms.filesystem@.len() - i,
    {
        let e = expand_path(perms.filesystem[i].as_str(), env);
        push_arg(&mut r, e.as_str());
        assert(views(perms.filesystem@).take(i + 1).map_values(
            |p: Seq<char>| expand_path_of(p, env@.vars),
        ) =~= views(perms.filesystem@).take(i as int).map_values(
            |p: Seq<char>| expand_path_of(p, env@.vars),
        ).push(expand_path_of(perms.filesystem@[i as int]@, env@.vars)));
        i = i + 1;
    }
    assert(views(perms.filesystem@).take(perms.filesystem@.len() as int) =~= views(
        perms.filesystem@,
    ));
    let ghost s0 = views(r@);
    let mut i: usize = 0;
    while i < perms.devices.len()
        invariant
            i <= perms.devices@.len(),
            views(r@) == s0 + views(perms.devices@).take(i as int).map_values(
                |d: Seq<char>| join_path("/dev"@, d),
            ),
        decreases perms.devices@.len() - i,
    {
        let p = join("/dev", perms.devices[i].as_str());
        push_arg(&mut r, p.as_str());
        assert(views(perms.devices@).take(i + 1).map_values(|d: Seq<char>| join_path("/dev"@, d))
            =~= views(perms.devices@).take(i as int).map_values(
            |d: Seq<char>| join_path("/dev"@, d),
        ).push(join_path("/dev"@, perms.devices@[i as int]@)));
        i = i + 1;
    }
    assert(views(perms.devices@).take(perms.devices@.len() as int) =~= views(perms.devices@));
    let runtime = env.var("XDG_RUNTIME_DIR");
    match &runtime {
        Some(rt) => push_arg(&mut r, rt.as_str()),
        None => {},
    }
    match env.var("WAYLAND_DISPLAY") {
        Some(d) => {
            let socket = match &runtime {
                Some(rt) => join(rt.as_str(), d.as_str()),
                None => d.clone(),
            };
            push_arg(&mut r, socket.as_str());
        },
        None => {},
    }
    match env.var("XAUTHORITY") {
        Some(x) => push_arg(&mut r, x.as_str()),
        None => {},
    }
    match &runtime {
        Some(rt) => push_arg(&mut r, join(rt.as_str(), "bus").as_str()),
        None => {},
    }
    assert(views(r@) =~= compat_probe_list(perms@, env@.vars));
    r
}

/// The permissions given to an AppImage: network as guessed, one writable
/// path, the GPU and audio, the session bus, and Wayland when the host runs
/// it (X11 otherwise).
pub open spec fn compat_permissions_of(network: bool, filesystem: Seq<char>, wayland: bool) -> PermissionSetView {
    PermissionSetView {
        network: PermissionValueView::Bool(network),
        filesystem: seq![filesystem],
        devices: seq!["dri"@, "audio"@],
        ipc: if wayland {
            seq!["wayland"@, "dbus-session"@]
        } else {
            seq!["x11"@, "dbus-session"@]
        },
        display: if wayland {
            "wayland"@
        } else {
            "x11"@
        },
    }
}

/// The permission set for an AppImage, given the guessed network use, the
/// path it may write and the host's environment (Wayland when
/// `WAYLAND_DISPLAY` is set).
pub fn compat_permissions(network: bool, filesystem: &str, env: &HostEnv) -> (r: PermissionSet)
    ensures
        r@ == compat_permissions_of(
            network,
            filesystem@,
            env_lookup(env@.vars, "WAYLAND_DISPLAY"@) is Some,
        ),
{
    let wayland = env.var("WAYLAND_DISPLAY").is_some();
    let ipc = if wayland {
        vec![text("wayland"), text("dbus-session")]
    } else {
        vec![text("x11"), text("dbus-session")]
    };
    let r = PermissionSet {
        network: PermissionValue::Bool(network),
        filesystem: vec![String::from_str(filesystem)],
        devices: vec![text("dri"), text("audio")],
        ipc,
        display: if wayland {
            text("wayland")
        } else {
            text("x11")
        },
    };
    assert(r@.filesystem =~= seq![filesystem@]);
    assert(r@.devices =~= seq!["dri"@, "audio"@]);
    assert(r@.ipc =~= compat_permissions_of(network, filesystem@, wayland).ipc);
    r
}

/// The bundle written for an AppImage: the requested name with `.nxpk`
/// added unless it has it, or `<app>.nxpk`.
pub open spec fn compat_output_name_of(output: Option<Seq<char>>, app_name: Seq<char>) -> Seq<char> {
    match output {
        Some(o) => if ends_with_text(o, ".nxpk"@) {
            o
        } else {
            o + ".nxpk"@
        },
        None => app_name + ".nxpk"@,
    }
}

/// The file name of the bundle converted from an AppImage.
pub fn compat_output_name(output: Option<&str>, app_name: &str) -> (r: String)
    ensures
        r@ == compat_output_name_of(
            match output {
                Some(o) => Some(o@),
                None => None,
            },
            app_name@,
        ),
{
    match output {
        Some(o) => {
            let cs = chars_of(o);
            if text_ends_with(&cs, ".nxpk") {
                String::from_str(o)
            } else {
                concat_str(o, ".nxpk")
            }
        },
        None => concat_str(app_name, ".nxpk"),
    }
}

/// The header of a bundle converted from an AppImage: version 1, id
/// `compat.<app>`, version `0.1.0`, the AppRun entry point, one layer, the
/// permissions, and nothing else.
pub fn compat_header(app_name: &str, apprun: &str, layer: LayerRef, permissions: PermissionSet) -> (r: BundleHeader)
    ensures
        r@ == (HeaderView {
            version: 1,
            app_id: "compat."@ + app_name@,
            app_version: "0.1.0"@,
            entrypoint: apprun@,
            layers: seq![layer@],
            permissions: permissions@,
            signature: None,
            sbom: None,
            update_url: None,
            bootstrap_size: None,
            offset: 0,
            encoded_len: 0,
        }),
{
    let ghost lv = layer@;
    let r = BundleHeader {
        version: 1,
        app_id: concat_str("compat.", app_name),
        app_version: text("0.1.0"),
        entrypoint: String::from_str(apprun),
        layers: vec![layer],
        permissions,
        signature: None,
        sbom: None,
        update_url: None,
        bootstrap_size: None,
        offset: 0,
        encoded_len: 0,
    };
    assert(r@.layers =~= seq![lv]);
    r
}

/// The names tried first for an AppImage's start script, in order.
pub open spec fn apprun_candidates() -> Seq<Seq<char>> {
    seq!["AppRun"@, "apprun"@, "appimage.sh"@, "AppImageLauncher"@]
}

/// The first of `names` from `k` on whose lowercase form is `apprun`.
pub open spec fn first_apprun_entry(names: Seq<Seq<char>>, k: int) -> Option<Seq<char>>
    decreases names.len() - k,
{
    if k < 0 || k >= names.len() {
        None
    } else if lowercase_of(names[k]) == "apprun"@ {
        Some(names[k])
    } else {
        first_apprun_entry(names, k + 1)
    }
}

/// The first candidate from `k` on that is a file under `root`.
pub open spec fn first_candidate(root: Seq<char>, files: Seq<Seq<char>>, k: int) -> Option<Seq<char>>
    decreases apprun_candidates().len() - k,
{
    if k < 0 || k >= apprun_candidates().len() {
        None
    } else if files.contains(join_path(root, apprun_candidates()[k])) {
        Some(join_path(root, apprun_candidates()[k]))
    } else {
        first_candidate(root, files, k + 1)
    }
}

/// The start script of an AppImage extracted at `root`: the first candidate
/// name that is a file there, else the first entry of the directory named
/// `apprun` in any case, else `root/AppRun`.
pub open spec fn apprun_of(root: Seq<char>, files: Seq<Seq<char>>, entries: Seq<Seq<char>>) -> Seq<char> {
    match first_candidate(root, files, 0) {
        Some(p) => p,
        None => match first_apprun_entry(entries, 0) {
            Some(name) => join_path(root, name),
            None => join_path(root, "AppRun"@),
        },
    }
}

/// The start script of an AppImage extracted at `root`, given the paths
/// that are files and the names in `root`.
pub fn find_apprun(root: &str, files: &Vec<String>, entries: &Vec<String>) -> (r: String)
    ensures
        r@ == apprun_of(root@, views(files@), views(entries@)),
{
    let candidates: Vec<&str> = vec!["AppRun", "apprun", "appimage.sh", "AppImageLauncher"];
    assert(candidates@.map_values(|s: &str| s@) =~= apprun_candidates());
    let fs = HostEnv { vars: Vec::new(), existing: crate::strings::clone_strings(files) };
    let mut k: usize = 0;
    while k < candidates.len()
        invariant
            candidates@.map_values(|s: &str| s@) == apprun_candidates(),
            fs@.existing == views(files@),
            k <= candidates@.len(),
            first_candidate(root@, views(files@), 0) == first_candidate(root@, views(files@), k as int),
        decreases candidates@.len() - k,
    {
        assert(candidates@[k as int]@ == apprun_candidates()[k as int]);
        let p = join(root, candidates[k]);
        if fs.has_path(p.as_str()) {
            return p;
        }
        k = k + 1;
    }
    let mut k: usize = 0;
    while k < entries.len()
        invariant
            first_candidate(root@, views(files@), 0) is None,
            k <= entries@.len(),
            first_apprun_entry(views(entries@), 0) == first_apprun_entry(views(entries@), k as int),
        decreases entries@.len() - k,
    {
        let lower = to_lowercase(entries[k].as_str());
        if crate::strings::str_eq(lower.as_str(), "apprun") {
            return join(root, entries[k].as_str());
        }
        k = k + 1;
    }
    join(root, "AppRun")
}

} // verus!
