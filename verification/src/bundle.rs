use vstd::prelude::*;
use vstd::bytes::{
    spec_u16_from_le_bytes, spec_u32_from_le_bytes, spec_u64_from_le_bytes, u16_from_le_bytes,
    u32_from_le_bytes, u64_from_le_bytes, u16_to_le_bytes, u32_to_le_bytes, u64_to_le_bytes,
};
use vstd::utf8::{encode_utf8, decode_utf8, valid_utf8};
use vstd::slice::slice_subrange;
use crate::bytes::{append_bytes, le16, le32, le64, lemma_le_roundtrip};
use crate::error::{Error, Result, text};
use crate::header::{BundleHeader, HeaderView, parsed_header};
use crate::layer::LayerRefView;
use crate::strings::{decimal, decimal_string};

verus! {

/// A bundle file in memory: its decoded header and all of its bytes.
pub struct Bundle {
    pub header: BundleHeader,
    pub data: Vec<u8>,
}

/// One binary carried in a bundle's bootstrap block.
#[derive(Debug)]
pub struct BootstrapEntry {
    pub name: String,
    pub data: Vec<u8>,
}

/// A bootstrap entry as plain values.
#[verifier::ext_equal]
pub struct EntryView {
    pub name: Seq<char>,
    pub data: Seq<u8>,
}

impl View for BootstrapEntry {
    type V = EntryView;

    open spec fn view(&self) -> EntryView {
        EntryView { name: self.name@, data: self.data@ }
    }
}

/// The plain values of a list of bootstrap entries.
pub open spec fn entry_views(es: Seq<BootstrapEntry>) -> Seq<EntryView> {
    es.map_values(|e: BootstrapEntry| e@)
}

// ---------------------------------------------------------------------------
// Layout of a bundle: stub | magic + header | layer 0 | layer 1 | ... | bootstrap
// ---------------------------------------------------------------------------

/// Total size of the first `n` layers.
pub open spec fn sizes_before(ls: Seq<LayerRefView>, n: int) -> int
    decreases n,
{
    if n <= 0 {
        0
    } else {
        sizes_before(ls, n - 1) + ls[n - 1].size
    }
}

/// Where the layers begin: right after the header.
pub open spec fn layers_offset_of(h: HeaderView) -> int {
    h.offset + h.encoded_len
}

/// Where layer `i` begins.
pub open spec fn layer_start(h: HeaderView, i: int) -> int {
    layers_offset_of(h) + sizes_before(h.layers, i)
}

/// Where the last layer ends.
pub open spec fn layers_end_of(h: HeaderView) -> int {
    layer_start(h, h.layers.len() as int)
}

/// The layer region of the header fits in memory addresses, so that offsets
/// into it can be computed.
pub open spec fn layout_fits(h: HeaderView) -> bool {
    layers_end_of(h) <= usize::MAX
}

/// Sizes only add up.
pub proof fn lemma_sizes_monotone(ls: Seq<LayerRefView>, a: int, b: int)
    requires
        0 <= a <= b <= ls.len(),
    ensures
        sizes_before(ls, a) <= sizes_before(ls, b),
        sizes_before(ls, a) >= 0,
    decreases b,
{
    if a < b {
        lemma_sizes_monotone(ls, a, b - 1);
    } else if a > 0 {
        lemma_sizes_monotone(ls, a - 1, a - 1);
    }
}

/// The bytes of layer `i`, when they lie within the data.
pub open spec fn layer_bytes(h: HeaderView, data: Seq<u8>, i: int) -> Option<Seq<u8>> {
    let start = layer_start(h, i);
    let end = start + h.layers[i].size;
    if 0 <= i < h.layers.len() && end <= data.len() {
        Some(data.subrange(start, end))
    } else {
        None
    }
}

/// The bootstrap block: `bootstrap_size` bytes right after the last layer,
/// when the header declares a non-empty one that lies within the data.
pub open spec fn bootstrap_region(h: HeaderView, data: Seq<u8>) -> Option<Seq<u8>> {
    match h.bootstrap_size {
        Some(s) => if s > 0 && layers_end_of(h) + s <= data.len() {
            Some(data.subrange(layers_end_of(h), layers_end_of(h) + s))
        } else {
            None
        },
        None => None,
    }
}

impl Bundle {
    /// Reads the header of a bundle file held in memory.
    pub fn parse(data: Vec<u8>) -> (r: Result<Bundle>)
        ensures
            r is Ok <==> parsed_header(data@) is Some,
            r matches Ok(b) ==> parsed_header(data@) == Some(b.header@) && b.data@ == data@,
            crate::header::first_magic_from(data@, 0) is None ==> crate::error::is_invalid_format(
                r->Err_0,
                "NX01 magic not found"@,
            ),
            crate::header::first_magic_from(data@, 0) is Some && r is Err ==> r->Err_0 is Cbor,
            r matches Ok(b) ==> b.header.offset + b.header.encoded_len <= data@.len(),
            (crate::header::first_magic_from(data@, 0) matches Some(p) && crate::cbor::cbor_decoding(
                data@.skip(p + 4),
            ) matches Ok((c, n)) && crate::header::decode_header(c) is None) ==> (r matches Err(
                Error::Cbor(m),
            ) && m@ == "bundle header does not match its schema"@),
            crate::header::first_magic_from(data@, 0) matches Some(p) ==> (crate::cbor::cbor_decoding(
                data@.skip(p + 4),
            ) matches Err(t) ==> (r matches Err(Error::Cbor(m)) && m@ == t)),
    {
        match BundleHeader::parse(data.as_slice()) {
            Ok(header) => Ok(Bundle { header, data }),
            Err(e) => Err(e),
        }
    }
}

} // verus!

verus! {

/// The error text for a layer that runs past the end of the bundle.
pub open spec fn layer_bounds_message(index: int, offset: int, size: int) -> Seq<char> {
    "layer "@ + decimal(index as nat) + " exceeds bundle bounds (offset "@ + decimal(offset as nat)
        + ", size "@ + decimal(size as nat) + ")"@
}

impl Bundle {
    /// Where the header (its magic) starts.
    pub fn header_offset(&self) -> (r: u64)
        ensures
            r == self.header.offset,
    {
        self.header.offset
    }

    /// Whether the layer region of the header can be addressed; every
    /// operation that locates a layer or the bootstrap block needs it.
    pub fn layout_fits(&self) -> (r: bool)
        ensures
            r == layout_fits(self.header@),
    {
        let ghost h = self.header@;
        let mut total: u128 = self.header.offset as u128 + self.header.encoded_len as u128;
        if total > usize::MAX as u128 {
            proof {
                lemma_sizes_monotone(h.layers, 0, h.layers.len() as int);
            }
            return false;
        }
        let mut i: usize = 0;
        while i < self.header.layers.len()
            invariant
                h == self.header@,
                i <= h.layers.len(),
                total == layer_start(h, i as int),
                total <= usize::MAX,
            decreases h.layers.len() - i,
        {
            if total + self.header.layers[i].size as u128 > usize::MAX as u128 {
                proof {
                    lemma_sizes_monotone(h.layers, i + 1, h.layers.len() as int);
                }
                return false;
            }
            total = total + self.header.layers[i].size as u128;
            i = i + 1;
        }
        true
    }

    /// Where the layers start: right after the header.
    pub fn layers_offset(&self) -> (r: u64)
        requires
            self.header.offset + self.header.encoded_len <= u64::MAX,
        ensures
            r == layers_offset_of(self.header@),
    {
        self.header.offset + self.header.encoded_len
    }

    /// Where the last layer ends.
    pub fn layers_end(&self) -> (r: usize)
        requires
            layout_fits(self.header@),
        ensures
            r == layers_end_of(self.header@),
    {
        let ghost h = self.header@;
        proof {
            lemma_sizes_monotone(h.layers, 0, h.layers.len() as int);
        }
        let mut off: usize = (self.header.offset + self.header.encoded_len) as usize;
        let mut i: usize = 0;
        while i < self.header.layers.len()
            invariant
                h == self.header@,
                layout_fits(h),
                i <= h.layers.len(),
                off == layer_start(h, i as int),
            decreases h.layers.len() - i,
        {
            proof {
                lemma_sizes_monotone(h.layers, i + 1, h.layers.len() as int);
            }
            off = off + self.header.layers[i].size as usize;
            i = i + 1;
        }
        off
    }

    /// The bytes of layer `index`.
    ///
    /// Fails with `IndexOutOfRange` when there is no such layer, and with
    /// `InvalidFormat` when the layer runs past the end of the data.
    pub fn extract_layer(&self, index: usize) -> (r: Result<&[u8]>)
        requires
            index < self.header.layers@.len() ==> layer_start(self.header@, index + 1)
                <= usize::MAX,
        ensures
            index >= self.header.layers@.len() ==> (r matches Err(Error::IndexOutOfRange {
                what,
                index: i,
                max,
            }) && what@ == "layer index"@ && i == index && max == self.header.layers@.len()),
            index < self.header.layers@.len() ==> match layer_bytes(
                self.header@,
                self.data@,
                index as int,
            ) {
                Some(b) => (r matches Ok(s) && s@ == b),
                None => (r matches Err(Error::InvalidFormat(m)) && m@ == layer_bounds_message(
                    index as int,
                    layer_start(self.header@, index as int),
                    self.header.layers@[index as int].size as int,
                )),
            },
    {
        let ghost h = self.header@;
        let n = self.header.layers.len();
        if index >= n {
            return Err(
                Error::IndexOutOfRange { what: text("layer index"), index, max: n },
            );
        }
        proof {
            lemma_sizes_monotone(h.layers, 0, index + 1);
        }
        let mut offset: usize = (self.header.offset + self.header.encoded_len) as usize;
        let mut i: usize = 0;
        while i < index
            invariant
                h == self.header@,
                index < h.layers.len(),
                layer_start(h, index + 1) <= usize::MAX,
                i <= index,
                offset == layer_start(h, i as int),
            decreases index - i,
        {
            proof {
                lemma_sizes_monotone(h.layers, i + 1, index + 1);
            }
            offset = offset + self.header.layers[i].size as usize;
            i = i + 1;
        }
        let size = self.header.layers[index].size;
        let end = offset + size as usize;
        if end > self.data.len() {
            let mut m = text("layer ");
            m.append(decimal_string(index as u64).as_str());
            m.append(" exceeds bundle bounds (offset ");
            m.append(decimal_string(offset as u64).as_str());
            m.append(", size ");
            m.append(decimal_string(size).as_str());
            m.append(")");
            return Err(Error::InvalidFormat(m));
        }
        Ok(slice_subrange(self.data.as_slice(), offset, end))
    }

    /// Whether the bundle declares a non-empty bootstrap block.
    pub fn has_bootstrap(&self) -> (r: bool)
        ensures
            r == (self.header.bootstrap_size matches Some(s) && s > 0),
    {
        match self.header.bootstrap_size {
            Some(s) => s > 0,
            None => false,
        }
    }

    /// Where the bootstrap block starts, when the bundle declares one.
    pub fn bootstrap_offset(&self) -> (r: Option<usize>)
        requires
            (self.header.bootstrap_size matches Some(s) && s > 0) ==> layout_fits(self.header@),
        ensures
            r == (if self.header.bootstrap_size matches Some(s) && s > 0 {
                Some(layers_end_of(self.header@) as usize)
            } else {
                None
            }),
    {
        if self.has_bootstrap() {
            Some(self.layers_end())
        } else {
            None
        }
    }

    /// The bootstrap block, when the bundle declares one that lies within the
    /// data.
    pub fn bootstrap_data(&self) -> (r: Option<&[u8]>)
        requires
            (self.header.bootstrap_size matches Some(s) && s > 0) ==> layout_fits(self.header@),
        ensures
            r matches Some(b) ==> bootstrap_region(self.header@, self.data@) == Some(b@),
            r is None ==> bootstrap_region(self.header@, self.data@) is None,
    {
        let size = match self.header.bootstrap_size {
            Some(s) => s,
            None => {
                return None;
            },
        };
        if size == 0 {
            return None;
        }
        let offset = self.layers_end();
        if offset > self.data.len() || size as u128 > (self.data.len() - offset) as u128 {
            return None;
        }
        let end = offset + size as usize;
        Some(slice_subrange(self.data.as_slice(), offset, end))
    }

    /// The binaries of the bootstrap block.
    ///
    /// Fails with `InvalidFormat("no bootstrap data in bundle")` when there is
    /// no block, and otherwise as `parse_bootstrap_entries` does.
    pub fn extract_bootstrap(&self) -> (r: Result<Vec<BootstrapEntry>>)
        requires
            (self.header.bootstrap_size matches Some(s) && s > 0) ==> layout_fits(self.header@),
        ensures
            match bootstrap_region(self.header@, self.data@) {
                None => crate::error::is_invalid_format(r->Err_0, "no bootstrap data in bundle"@)
                    && r is Err,
                Some(block) => match bootstrap_entries_of(block) {
                    Ok(es) => (r matches Ok(v) && entry_views(v@) == es),
                    Err(m) => r is Err && crate::error::is_invalid_format(r->Err_0, m),
                },
            },
    {
        match self.bootstrap_data() {
            None => Err(Error::InvalidFormat(text("no bootstrap data in bundle"))),
            Some(block) => parse_bootstrap_entries(block),
        }
    }

    /// The bootstrap trailer at the very end of a bundle file: the block's
    /// offset and size.
    pub fn read_trailer(data: &[u8]) -> (r: Option<(u64, u64)>)
        ensures
            r == trailer_of(data@),
    {
        if data.len() < 20 {
            return None;
        }
        let pos = data.len() - 20;
        if !(data[pos] == 0x4e && data[pos + 1] == 0x58 && data[pos + 2] == 0x42 && data[pos + 3]
            == 0x54) {
            assert(data@.subrange(pos as int, pos + 4) != trailer_magic()) by {
                if data@.subrange(pos as int, pos + 4) == trailer_magic() {
                    assert(data@.subrange(pos as int, pos + 4)[0] == data@[pos as int]);
                    assert(data@.subrange(pos as int, pos + 4)[1] == data@[pos + 1]);
                    assert(data@.subrange(pos as int, pos + 4)[2] == data@[pos + 2]);
                    assert(data@.subrange(pos as int, pos + 4)[3] == data@[pos + 3]);
                }
            }
            return None;
        }
        assert(data@.subrange(pos as int, pos + 4) =~= trailer_magic());
        let offset = u64_from_le_bytes(slice_subrange(data, pos + 4, pos + 12));
        let size = u64_from_le_bytes(slice_subrange(data, pos + 12, pos + 20));
        Some((offset, size))
    }
}

/// The four bytes `NXBT` that start a bootstrap trailer.
pub open spec fn trailer_magic() -> Seq<u8> {
    seq![0x4eu8, 0x58u8, 0x42u8, 0x54u8]
}

/// The bootstrap trailer: magic, block offset, block size (little-endian).
pub open spec fn trailer_bytes(offset: u64, size: u64) -> Seq<u8> {
    trailer_magic() + le64(offset) + le64(size)
}

/// What the last 20 bytes of a file say, when they are a trailer.
pub open spec fn trailer_of(data: Seq<u8>) -> Option<(u64, u64)> {
    if data.len() < 20 {
        None
    } else {
        let pos = data.len() - 20;
        if data.subrange(pos, pos + 4) == trailer_magic() {
            Some(
                (
                    spec_u64_from_le_bytes(data.subrange(pos + 4, pos + 12)),
                    spec_u64_from_le_bytes(data.subrange(pos + 12, pos + 20)),
                ),
            )
        } else {
            None
        }
    }
}

/// The 20-byte trailer that locates a bootstrap block.
pub fn make_bootstrap_trailer(bootstrap_offset: u64, bootstrap_size: u64) -> (r: Vec<u8>)
    ensures
        r@ == trailer_bytes(bootstrap_offset, bootstrap_size),
{
    let mut buf: Vec<u8> = vec![0x4eu8, 0x58u8, 0x42u8, 0x54u8];
    let a = u64_to_le_bytes(bootstrap_offset);
    let b = u64_to_le_bytes(bootstrap_size);
    append_bytes(&mut buf, a.as_slice());
    append_bytes(&mut buf, b.as_slice());
    assert(buf@ =~= trailer_bytes(bootstrap_offset, bootstrap_size));
    buf
}

/// A trailer appended to any file is read back.
pub proof fn lemma_trailer_roundtrip(prefix: Seq<u8>, offset: u64, size: u64)
    ensures
        trailer_of(prefix + trailer_bytes(offset, size)) == Some((offset, size)),
{
    lemma_le_roundtrip();
    let d = prefix + trailer_bytes(offset, size);
    let pos = prefix.len() as int;
    assert(d.len() == pos + 20);
    assert(d.subrange(pos, pos + 4) =~= trailer_magic());
    assert(d.subrange(pos + 4, pos + 12) =~= le64(offset));
    assert(d.subrange(pos + 12, pos + 20) =~= le64(size));
}

} // verus!

verus! {

/// What `String::from_utf8_lossy` makes of some bytes.
pub uninterp spec fn utf8_lossy(b: Seq<u8>) -> Seq<char>;

/// The text of some bytes: their decoding when they are valid UTF-8, and
/// otherwise what `String::from_utf8_lossy` makes of them.
pub open spec fn lossy_text(b: Seq<u8>) -> Seq<char> {
    if valid_utf8(b) {
        decode_utf8(b)
    } else {
        utf8_lossy(b)
    }
}

/// `String::from_utf8_lossy`: the text of the bytes, with each invalid
/// sequence replaced. Claimed: on valid UTF-8 the result is the decoding, as
/// the documentation says; otherwise it is the named conversion of the bytes.
/// The replacement of invalid sequences is not described.
#[verifier::external_body]
fn string_from_utf8_lossy(b: &[u8]) -> (r: String)
    ensures
        valid_utf8(b@) ==> r@ == decode_utf8(b@),
        !valid_utf8(b@) ==> r@ == utf8_lossy(b@),
{
    String::from_utf8_lossy(b).into_owned()
}

/// Reading one entry at `off`: its name length (2 bytes), name, data length
/// (4 bytes) and data; the entry and the offset after it, or the error text.
pub open spec fn entry_at(data: Seq<u8>, off: int) -> core::result::Result<(EntryView, int), Seq<char>> {
    if off + 2 > data.len() {
        Err("bootstrap entry name_len truncated"@)
    } else {
        let name_len = spec_u16_from_le_bytes(data.subrange(off, off + 2)) as int;
        let o2 = off + 2;
        if o2 + name_len > data.len() {
            Err("bootstrap entry name truncated"@)
        } else {
            let name = lossy_text(data.subrange(o2, o2 + name_len));
            let o3 = o2 + name_len;
            if o3 + 4 > data.len() {
                Err("bootstrap entry data_len truncated"@)
            } else {
                let data_len = spec_u32_from_le_bytes(data.subrange(o3, o3 + 4)) as int;
                let o4 = o3 + 4;
                if o4 + data_len > data.len() {
                    Err("bootstrap entry data truncated"@)
                } else {
                    Ok((EntryView { name, data: data.subrange(o4, o4 + data_len) }, o4 + data_len))
                }
            }
        }
    }
}

/// Reading `k` entries one after the other from `off`.
pub open spec fn entries_from(data: Seq<u8>, off: int, k: nat) -> core::result::Result<
    Seq<EntryView>,
    Seq<char>,
>
    decreases k,
{
    if k == 0 {
        Ok(Seq::empty())
    } else {
        match entry_at(data, off) {
            Err(m) => Err(m),
            Ok((e, next)) => match entries_from(data, next, (k - 1) as nat) {
                Err(m) => Err(m),
                Ok(rest) => Ok(seq![e] + rest),
            },
        }
    }
}

/// The entries of a bootstrap block: a 4-byte count, then that many entries.
pub open spec fn bootstrap_entries_of(data: Seq<u8>) -> core::result::Result<
    Seq<EntryView>,
    Seq<char>,
> {
    if data.len() < 4 {
        Err("bootstrap data too short"@)
    } else {
        entries_from(data, 4, spec_u32_from_le_bytes(data.subrange(0, 4)) as nat)
    }
}

/// `pre` followed by what `r` read, or `r`'s error.
pub open spec fn prepend(pre: Seq<EntryView>, r: core::result::Result<Seq<EntryView>, Seq<char>>) -> core::result::Result<
    Seq<EntryView>,
    Seq<char>,
> {
    match r {
        Ok(s) => Ok(pre + s),
        Err(m) => Err(m),
    }
}

/// Reads the binaries of a bootstrap block.
///
/// Fails with `InvalidFormat` and the text of the first problem found: a
/// block shorter than its count, or an entry cut short.
pub fn parse_bootstrap_entries(data: &[u8]) -> (r: Result<Vec<BootstrapEntry>>)
    ensures
        match bootstrap_entries_of(data@) {
            Ok(es) => (r matches Ok(v) && entry_views(v@) == es),
            Err(m) => r is Err && crate::error::is_invalid_format(r->Err_0, m),
        },
{
    if data.len() < 4 {
        return Err(Error::InvalidFormat(text("bootstrap data too short")));
    }
    let count = u32_from_le_bytes(slice_subrange(data, 0, 4));
    let mut offset: usize = 4;
    let mut entries: Vec<BootstrapEntry> = Vec::new();
    let mut i: u32 = 0;
    assert(entry_views(entries@) =~= Seq::<EntryView>::empty());
    assert(prepend(Seq::empty(), entries_from(data@, 4, count as nat)) =~= entries_from(data@, 4, count as nat));
    while i < count
        invariant
            4 <= offset <= data@.len(),
            i <= count,
            count == spec_u32_from_le_bytes(data@.subrange(0, 4)),
            data@.len() >= 4,
            bootstrap_entries_of(data@) == prepend(
                entry_views(entries@),
                entries_from(data@, offset as int, (count - i) as nat),
            ),
        decreases count - i,
    {
        let ghost off0 = offset as int;
        let ghost k = (count - i) as nat;
        let len = data.len();
        if len - offset < 2 {
            return Err(Error::InvalidFormat(text("bootstrap entry name_len truncated")));
        }
        let name_len = u16_from_le_bytes(slice_subrange(data, offset, offset + 2)) as usize;
        offset = offset + 2;
        if len - offset < name_len {
            return Err(Error::InvalidFormat(text("bootstrap entry name truncated")));
        }
        let name = string_from_utf8_lossy(slice_subrange(data, offset, offset + name_len));
        offset = offset + name_len;
        if len - offset < 4 {
            return Err(Error::InvalidFormat(text("bootstrap entry data_len truncated")));
        }
        let data_len = u32_from_le_bytes(slice_subrange(data, offset, offset + 4)) as usize;
        offset = offset + 4;
        if len - offset < data_len {
            return Err(Error::InvalidFormat(text("bootstrap entry data truncated")));
        }
        let binary = vstd::slice::slice_to_vec(slice_subrange(data, offset, offset + data_len));
        offset = offset + data_len;
        let ghost before = entry_views(entries@);
        let e = BootstrapEntry { name, data: binary };
        assert(entry_at(data@, off0) == Ok::<(EntryView, int), Seq<char>>((e@, offset as int)));
        entries.push(e);
        assert(entry_views(entries@) =~= before + seq![e@]);
        assert(seq![e@] + entries_from(data@, offset as int, (k - 1) as nat)->Ok_0 =~= seq![e@]
            + entries_from(data@, offset as int, (k - 1) as nat)->Ok_0);
        assert(prepend(before, entries_from(data@, off0, k)) == prepend(
            entry_views(entries@),
            entries_from(data@, offset as int, (k - 1) as nat),
        )) by {
            match entries_from(data@, offset as int, (k - 1) as nat) {
                Ok(rest) => {
                    assert(before + (seq![e@] + rest) =~= entry_views(entries@) + rest);
                },
                Err(_) => {},
            }
        }
        i = i + 1;
    }
    assert(prepend(entry_views(entries@), entries_from(data@, offset as int, 0)) == Ok::<
        Seq<EntryView>,
        Seq<char>,
    >(entry_views(entries@))) by {
        assert(entry_views(entries@) + Seq::<EntryView>::empty() =~= entry_views(entries@));
    }
    Ok(entries)
}

/// One entry of a bootstrap block: name length, UTF-8 name, data length, data
/// (lengths little-endian, cut to 16 and 32 bits).
pub open spec fn entry_bytes(e: EntryView) -> Seq<u8> {
    le16(encode_utf8(e.name).len() as u16) + encode_utf8(e.name) + le32(e.data.len() as u32) + e.data
}

/// The entries one after the other.
pub open spec fn entries_bytes(es: Seq<EntryView>) -> Seq<u8>
    decreases es.len(),
{
    if es.len() == 0 {
        Seq::empty()
    } else {
        entry_bytes(es[0]) + entries_bytes(es.drop_first())
    }
}

/// A bootstrap block: the entry count (little-endian, cut to 32 bits), then
/// the entries.
pub open spec fn bootstrap_bytes(es: Seq<EntryView>) -> Seq<u8> {
    le32(es.len() as u32) + entries_bytes(es)
}

/// Writing one more entry appends its bytes.
proof fn lemma_entries_bytes_snoc(s: Seq<EntryView>, i: int)
    requires
        0 <= i < s.len(),
    ensures
        entries_bytes(s.take(i + 1)) == entries_bytes(s.take(i)) + entry_bytes(s[i]),
    decreases i,
{
    if i == 0 {
        assert(s.take(1).drop_first() =~= Seq::<EntryView>::empty());
        assert(entries_bytes(s.take(1).drop_first()) =~= Seq::<u8>::empty());
        assert(s.take(1)[0] == s[0]);
        assert(entries_bytes(s.take(1)) =~= entry_bytes(s[0]) + Seq::<u8>::empty());
        assert(entries_bytes(s.take(1)) =~= entry_bytes(s[0]));
        assert(entries_bytes(s.take(0)) =~= Seq::<u8>::empty());
        assert(entries_bytes(s.take(0)) + entry_bytes(s[0]) =~= entry_bytes(s[0]));
    } else {
        let t = s.drop_first();
        lemma_entries_bytes_snoc(t, i - 1);
        assert(s.take(i + 1).drop_first() =~= t.take(i));
        assert(s.take(i).drop_first() =~= t.take(i - 1));
        assert(s.take(i + 1)[0] == s[0]);
        assert(s.take(i)[0] == s[0]);
        assert(t[i - 1] == s[i]);
        assert(entries_bytes(s.take(i + 1)) =~= entry_bytes(s[0]) + entries_bytes(t.take(i)));
        assert(entries_bytes(s.take(i)) =~= entry_bytes(s[0]) + entries_bytes(t.take(i - 1)));
    }
}

/// Builds a bootstrap block from its binaries.
pub fn make_bootstrap_data(entries: &[BootstrapEntry]) -> (r: Vec<u8>)
    ensures
        r@ == bootstrap_bytes(entry_views(entries@)),
{
    let ghost es = entry_views(entries@);
    let mut buf: Vec<u8> = Vec::new();
    let head = u32_to_le_bytes(entries.len() as u32);
    append_bytes(&mut buf, head.as_slice());
    let mut i: usize = 0;
    assert(entries_bytes(es.take(0)) =~= Seq::<u8>::empty());
    while i < entries.len()
        invariant
            es == entry_views(entries@),
            i <= entries@.len(),
            buf@ == le32(entries@.len() as u32) + entries_bytes(es.take(i as int)),
        decreases entries@.len() - i,
    {
        let e = &entries[i];
        let name_bytes = e.name.as_str().as_bytes();
        let nl = u16_to_le_bytes(name_bytes.len() as u16);
        let dl = u32_to_le_bytes(e.data.len() as u32);
        let ghost before = buf@;
        append_bytes(&mut buf, nl.as_slice());
        append_bytes(&mut buf, name_bytes);
        append_bytes(&mut buf, dl.as_slice());
        append_bytes(&mut buf, e.data.as_slice());
        proof {
            lemma_entries_bytes_snoc(es, i as int);
            assert(es[i as int] == e@);
            assert(buf@ =~= before + entry_bytes(es[i as int]));
        }
        i = i + 1;
    }
    assert(es.take(entries@.len() as int) =~= es);
    buf
}

} // verus!

verus! {

/// An entry whose name and data fit their length fields.
pub open spec fn entry_fits(e: EntryView) -> bool {
    encode_utf8(e.name).len() < 0x1_0000 && e.data.len() < 0x1_0000_0000
}

/// Reading at the start of an entry's bytes gives the entry back.
proof fn lemma_entry_roundtrip(p: Seq<u8>, e: EntryView, q: Seq<u8>)
    requires
        entry_fits(e),
    ensures
        entry_at(p + entry_bytes(e) + q, p.len() as int) == Ok::<(EntryView, int), Seq<char>>(
            (e, (p.len() + entry_bytes(e).len()) as int),
        ),
{
    lemma_le_roundtrip();
    vstd::utf8::encode_utf8_valid_utf8(e.name);
    vstd::utf8::encode_utf8_decode_utf8(e.name);
    let nb = encode_utf8(e.name);
    let d = p + entry_bytes(e) + q;
    let off = p.len() as int;
    let nl = nb.len() as int;
    let dl = e.data.len() as int;
    assert(d.subrange(off, off + 2) =~= le16(nl as u16));
    assert((nl as u16) as int == nl);
    assert(d.subrange(off + 2, off + 2 + nl) =~= nb);
    assert(d.subrange(off + 2 + nl, off + 6 + nl) =~= le32(dl as u32));
    assert((dl as u32) as int == dl);
    assert(d.subrange(off + 6 + nl, off + 6 + nl + dl) =~= e.data);
    assert(entry_bytes(e).len() == 6 + nl + dl);
}

/// Reading entries written one after the other gives them back.
proof fn lemma_entries_roundtrip(p: Seq<u8>, es: Seq<EntryView>)
    requires
        forall|i: int| 0 <= i < es.len() ==> entry_fits(#[trigger] es[i]),
    ensures
        entries_from(p + entries_bytes(es), p.len() as int, es.len()) == Ok::<
            Seq<EntryView>,
            Seq<char>,
        >(es),
    decreases es.len(),
{
    if es.len() > 0 {
        let e = es[0];
        let rest = es.drop_first();
        assert(entry_fits(es[0]));
        lemma_entry_roundtrip(p, e, entries_bytes(rest));
        assert(p + entries_bytes(es) =~= p + entry_bytes(e) + entries_bytes(rest));
        let p2 = p + entry_bytes(e);
        assert(forall|i: int| 0 <= i < rest.len() ==> rest[i] == es[i + 1]);
        lemma_entries_roundtrip(p2, rest);
        assert(p2 + entries_bytes(rest) =~= p + entries_bytes(es));
        assert(seq![e] + rest =~= es);
        let d = p + entries_bytes(es);
        assert(entry_at(d, p.len() as int) == Ok::<(EntryView, int), Seq<char>>((e, p2.len() as int)));
        assert(entries_from(d, p2.len() as int, rest.len()) == Ok::<Seq<EntryView>, Seq<char>>(rest));
        assert(((es.len() - 1) as nat) == rest.len());
    } else {
        assert(es =~= Seq::<EntryView>::empty());
    }
}

/// A bootstrap block built from binaries reads back as those binaries,
/// whenever their count, names and sizes fit the block's length fields.
pub proof fn lemma_bootstrap_roundtrip(es: Seq<EntryView>)
    requires
        es.len() < 0x1_0000_0000,
        forall|i: int| 0 <= i < es.len() ==> entry_fits(#[trigger] es[i]),
    ensures
        bootstrap_entries_of(bootstrap_bytes(es)) == Ok::<Seq<EntryView>, Seq<char>>(es),
{
    lemma_le_roundtrip();
    let d = bootstrap_bytes(es);
    assert(d.subrange(0, 4) =~= le32(es.len() as u32));
    lemma_entries_roundtrip(le32(es.len() as u32), es);
}

} // verus!
