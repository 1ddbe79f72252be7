use vstd::prelude::*;
use crate::error::{Error, Result, text};
use crate::strings::{push_char, str_eq};
use crate::order::{text_le, lemma_text_le_total, lemma_text_le_transitive};

verus! {

/// What a gzip decoder gives for some bytes: the decompressed bytes, or the
/// text of its error.
pub uninterp spec fn gunzip_of(data: Seq<u8>) -> core::result::Result<Seq<u8>, Seq<char>>;

/// The decompressed bytes, when the bytes are a gzip stream.
pub open spec fn gunzip_ok(data: Seq<u8>) -> Option<Seq<u8>> {
    match gunzip_of(data) {
        Ok(d) => Some(d),
        Err(_) => None,
    }
}

/// What a gzip encoder (default level) writes for some bytes.
pub uninterp spec fn gzip_of(data: Seq<u8>) -> Option<Seq<u8>>;

/// For a JSON document and a key: the text of the parse error when the bytes
/// are not JSON; otherwise the text stored under the key at the top level, if
/// the document is an object holding a string there.
pub uninterp spec fn json_text_field_of(doc: Seq<u8>, key: Seq<char>) -> core::result::Result<Option<Seq<char>>, Seq<char>>;

/// The reading of a JSON document for a key, when the bytes are JSON.
pub open spec fn json_field_ok(doc: Seq<u8>, key: Seq<char>) -> Option<Option<Seq<char>>> {
    match json_text_field_of(doc, key) {
        Ok(o) => Some(o),
        Err(_) => None,
    }
}

/// `flate2::read::GzDecoder` read to the end. Claimed: the output, or the
/// error's text, is the named decompression of the input.
#[verifier::external_body]
pub(crate) fn decompress_gzip(data: &[u8]) -> (r: core::result::Result<Vec<u8>, String>)
    ensures
        r matches Ok(d) ==> (gunzip_of(data@) matches Ok(x) && x == d@),
        r matches Err(e) ==> (gunzip_of(data@) matches Err(t) && t == e@),
{
    let mut buf = Vec::new();
    match std::io::Read::read_to_end(&mut flate2::read::GzDecoder::new(data), &mut buf) {
        Ok(_) => Ok(buf),
        Err(e) => Err(e.to_string()),
    }
}

/// `flate2::write::GzEncoder` at the default level, written and finished.
/// Claimed: the output is the named compression of the input, and a gzip
/// decoder reads the input back from it; the error text is not described.
#[verifier::external_body]
pub(crate) fn compress_gzip(data: &[u8]) -> (r: core::result::Result<Vec<u8>, String>)
    ensures
        r matches Ok(d) ==> gzip_of(data@) == Some(d@),
        r matches Ok(d) ==> (gunzip_of(d@) matches Ok(x) && x == data@),
        r is Err ==> gzip_of(data@) is None,
{
    let mut enc = flate2::write::GzEncoder::new(Vec::new(), flate2::Compression::default());
    match std::io::Write::write_all(&mut enc, data).and_then(|_| enc.finish()) {
        Ok(out) => Ok(out),
        Err(e) => Err(e.to_string()),
    }
}

/// `serde_json::from_slice` into a `serde_json::Value`, then `get(key)` and
/// `as_str()`. Claimed: the outcome is the named reading of the document;
/// and, for the UTF-8 text of a JSON object as `json_text` writes it (numbers
/// below 2^64, nesting well under serde_json's limit of 128, no member name
/// starting with `$`, which the crate's optional number and raw-value
/// features reserve), the parse succeeds and the result is the text of the
/// last member of that name, when it is a string: the source's object map
/// keeps the last value inserted under a name. A parse error's text is the
/// named one.
#[verifier::external_body]
pub(crate) fn json_text_field(doc: &[u8], key: &str) -> (r: core::result::Result<Option<String>, String>)
    ensures
        r matches Ok(o) ==> (json_text_field_of(doc@, key@) matches Ok(x) && x == match o {
            Some(s) => Some(s@),
            None => None,
        }),
        r matches Err(e) ==> (json_text_field_of(doc@, key@) matches Err(t) && t == e@),
        r matches Ok(o) ==> forall|j: Json|
            j is Obj && json_readable(j, 64) && doc@ == vstd::utf8::encode_utf8(#[trigger] json_text(j))
                ==> match o {
                Some(s) => Some(s@),
                None => None,
            } == member_text(j->Obj_0, key@),
        r is Err ==> forall|j: Json|
            !(j is Obj && json_readable(j, 64) && doc@ == vstd::utf8::encode_utf8(#[trigger] json_text(j))),
{
    match serde_json::from_slice::<serde_json::Value>(doc) {
        Ok(v) => Ok(v.get(key).and_then(|x| x.as_str()).map(|s| s.to_string())),
        Err(e) => Err(e.to_string()),
    }
}

/// The top-level text under `key`, or the empty text when there is none.
pub open spec fn text_or_empty(doc: Seq<u8>, key: Seq<char>) -> Seq<char> {
    match json_field_ok(doc, key) {
        Some(Some(t)) => t,
        _ => Seq::empty(),
    }
}

/// An SBOM is accepted when it decompresses to JSON whose `bomFormat` is
/// `CycloneDX` and whose `specVersion` is a non-empty text.
pub open spec fn sbom_valid(data: Seq<u8>) -> bool {
    match gunzip_ok(data) {
        None => false,
        Some(doc) => json_field_ok(doc, "bomFormat"@) is Some && text_or_empty(
            doc,
            "bomFormat"@,
        ) == "CycloneDX"@ && text_or_empty(doc, "specVersion"@).len() > 0,
    }
}

/// A compressed SBOM whose document is the UTF-8 text of a CycloneDX value.
pub open spec fn cyclonedx_sbom(data: Seq<u8>) -> bool {
    exists|j: Json| cyclonedx_value(j) && gunzip_ok(data) == Some(vstd::utf8::encode_utf8(#[trigger] json_text(j)))
}

/// What the SBOM check answers for some bytes: success exactly on a valid
/// SBOM, always on a CycloneDX document written as `json_text` writes it, and
/// otherwise a `Cbor` error, with the texts below for a wrong format and a
/// missing version.
pub open spec fn sbom_check_outcome(data: Seq<u8>, r: Result<()>) -> bool {
    &&& (r is Ok <==> sbom_valid(data))
    &&& (r matches Err(e) ==> e is Cbor)
    &&& ((gunzip_ok(data) matches Some(doc) && json_field_ok(doc, "bomFormat"@) is Some
        && text_or_empty(doc, "bomFormat"@) != "CycloneDX"@) ==> (r matches Err(Error::Cbor(m)) && m@
        == "SBOM: invalid bomFormat"@))
    &&& ((gunzip_ok(data) matches Some(doc) && json_field_ok(doc, "bomFormat"@) is Some
        && text_or_empty(doc, "bomFormat"@) == "CycloneDX"@ && json_field_ok(doc, "specVersion"@)
        is Some && text_or_empty(doc, "specVersion"@).len() == 0) ==> (r matches Err(Error::Cbor(m))
        && m@ == "SBOM: missing specVersion"@))
    &&& (cyclonedx_sbom(data) ==> r is Ok)
    &&& (gunzip_of(data) matches Err(t) ==> (r matches Err(Error::Cbor(m)) && m@ == t))
    &&& (gunzip_of(data) matches Ok(doc) ==> (json_text_field_of(doc, "bomFormat"@) matches Err(t) ==> (
    r matches Err(Error::Cbor(m)) && m@ == t)))
    &&& (gunzip_of(data) matches Ok(doc) ==> (text_or_empty(doc, "bomFormat"@) == "CycloneDX"@ && json_field_ok(
        doc,
        "bomFormat"@,
    ) is Some ==> (json_text_field_of(doc, "specVersion"@) matches Err(t) ==> (r matches Err(Error::Cbor(m))
        && m@ == t))))
}

/// Checks an embedded SBOM: gzip-compressed JSON with `bomFormat` equal to
/// `CycloneDX` and a non-empty `specVersion`. Every failure is a `Cbor` error.
pub fn verify_sbom_data(data: &[u8]) -> (r: Result<()>)
    ensures
        r is Ok <==> sbom_valid(data@),
        r matches Err(e) ==> e is Cbor,
        (gunzip_ok(data@) matches Some(doc) && json_field_ok(doc, "bomFormat"@) is Some
            && text_or_empty(doc, "bomFormat"@) != "CycloneDX"@) ==> (r matches Err(Error::Cbor(m))
            && m@ == "SBOM: invalid bomFormat"@),
        (gunzip_ok(data@) matches Some(doc) && json_field_ok(doc, "bomFormat"@) is Some
            && text_or_empty(doc, "bomFormat"@) == "CycloneDX"@ && json_field_ok(
            doc,
            "specVersion"@,
        ) is Some && text_or_empty(doc, "specVersion"@).len() == 0) ==> (r matches Err(
            Error::Cbor(m),
        ) && m@ == "SBOM: missing specVersion"@),
        forall|j: Json|
            cyclonedx_value(j) && gunzip_ok(data@) == Some(vstd::utf8::encode_utf8(#[trigger] json_text(j)))
                ==> r is Ok,
        sbom_check_outcome(data@, r),
{
    proof {
        if cyclonedx_sbom(data@) {
            let j = choose|j: Json|
                cyclonedx_value(j) && gunzip_ok(data@) == Some(vstd::utf8::encode_utf8(#[trigger] json_text(j)));
            assert(json_text(j) == json_text(j));
        }
    }
    let doc = match decompress_gzip(data) {
        Ok(d) => d,
        Err(e) => {
            return Err(Error::Cbor(e));
        },
    };
    let format = match json_text_field(doc.as_slice(), "bomFormat") {
        Ok(f) => f,
        Err(e) => {
            return Err(Error::Cbor(e));
        },
    };
    let format_ok = match &format {
        Some(f) => str_eq(f.as_str(), "CycloneDX"),
        None => false,
    };
    proof {
        reveal_strlit("CycloneDX");
    }
    if !format_ok {
        assert(gunzip_ok(data@) == Some(doc@));
        assert(json_field_ok(doc@, "bomFormat"@) is Some);
        proof {
            reveal_strlit("CycloneDX");
            assert("CycloneDX"@.len() == 9);
            match format {
                Some(f) => {},
                None => {
                    assert(text_or_empty(doc@, "bomFormat"@).len() == 0);
                },
            }
        }
        assert(text_or_empty(doc@, "bomFormat"@) != "CycloneDX"@);
        return Err(Error::Cbor(text("SBOM: invalid bomFormat")));
    }
    let spec = match json_text_field(doc.as_slice(), "specVersion") {
        Ok(f) => f,
        Err(e) => {
            return Err(Error::Cbor(e));
        },
    };
    let spec_empty = match &spec {
        Some(s) => s.as_str().unicode_len() == 0,
        None => true,
    };
    if spec_empty {
        return Err(Error::Cbor(text("SBOM: missing specVersion")));
    }
    Ok(())
}

} // verus!

verus! {

// ---------------------------------------------------------------------------
// Generating an SBOM: a CycloneDX document listing every file of the layers
// with its BLAKE3 digest, written as compact JSON and gzip-compressed.
// ---------------------------------------------------------------------------

/// A file entry: its path (relative to its layer) and hex digest.
pub type FileEntry = (Seq<char>, Seq<char>);

/// `s` with `x` placed after every entry whose name sorts no later than
/// its own.
pub open spec fn insert_by_name(s: Seq<FileEntry>, x: FileEntry) -> Seq<FileEntry>
    decreases s.len(),
{
    if s.len() == 0 {
        seq![x]
    } else if text_le(s.last().0, x.0) {
        s.push(x)
    } else {
        insert_by_name(s.drop_last(), x).push(s.last())
    }
}

/// The entries sorted by name, entries of equal names kept in their order.
pub open spec fn sort_by_name(s: Seq<FileEntry>) -> Seq<FileEntry>
    decreases s.len(),
{
    if s.len() == 0 {
        s
    } else {
        insert_by_name(sort_by_name(s.drop_last()), s.last())
    }
}

proof fn lemma_insert_at(s: Seq<FileEntry>, x: FileEntry, p: int)
    requires
        0 <= p <= s.len(),
        forall|j: int| p <= j < s.len() ==> !text_le(#[trigger] s[j].0, x.0),
        p > 0 ==> text_le(s[p - 1].0, x.0),
    ensures
        insert_by_name(s, x) == s.insert(p, x),
    decreases s.len(),
{
    if s.len() == 0 {
        assert(s.insert(p, x) =~= seq![x]);
    } else if p == s.len() {
        assert(s.insert(p, x) =~= s.push(x));
    } else {
        lemma_insert_at(s.drop_last(), x, p);
        assert(s.drop_last().insert(p, x).push(s.last()) =~= s.insert(p, x));
    }
}

/// Sorting by name gives entries in ascending order of name.
pub proof fn lemma_sort_by_name_sorted(s: Seq<FileEntry>)
    ensures
        forall|a: int, b: int| 0 <= a < b < sort_by_name(s).len() ==> text_le(
            #[trigger] sort_by_name(s)[a].0,
            #[trigger] sort_by_name(s)[b].0,
        ),
        sort_by_name(s).len() == s.len(),
    decreases s.len(),
{
    if s.len() > 0 {
        lemma_sort_by_name_sorted(s.drop_last());
        lemma_insert_sorted(sort_by_name(s.drop_last()), s.last());
    }
}

proof fn lemma_insert_sorted(s: Seq<FileEntry>, x: FileEntry)
    requires
        forall|a: int, b: int| 0 <= a < b < s.len() ==> text_le(#[trigger] s[a].0, #[trigger] s[b].0),
    ensures
        forall|a: int, b: int| 0 <= a < b < insert_by_name(s, x).len() ==> text_le(
            #[trigger] insert_by_name(s, x)[a].0,
            #[trigger] insert_by_name(s, x)[b].0,
        ),
        insert_by_name(s, x).len() == s.len() + 1,
    decreases s.len(),
{
    if s.len() > 0 && !text_le(s.last().0, x.0) {
        lemma_insert_sorted(s.drop_last(), x);
        let t = insert_by_name(s.drop_last(), x);
        lemma_text_le_total(s.last().0, x.0);
        assert forall|a: int, b: int| 0 <= a < b < t.len() + 1 implies text_le(
            #[trigger] t.push(s.last())[a].0,
            #[trigger] t.push(s.last())[b].0,
        ) by {
            if b == t.len() {
                lemma_insert_le_last(s.drop_last(), x, s.last().0, a);
            }
        }
    } else if s.len() > 0 {
        assert forall|a: int, b: int| 0 <= a < b < s.len() + 1 implies text_le(
            #[trigger] s.push(x)[a].0,
            #[trigger] s.push(x)[b].0,
        ) by {
            if b == s.len() && a < s.len() - 1 {
                lemma_text_le_transitive(s[a].0, s.last().0, x.0);
            }
        }
    }
}

/// Every entry of `s` with `x` inserted sorts no later than a bound that
/// all of them, and `x`, sort no later than.
proof fn lemma_insert_le_last(s: Seq<FileEntry>, x: FileEntry, top: Seq<char>, a: int)
    requires
        forall|j: int| 0 <= j < s.len() ==> text_le(#[trigger] s[j].0, top),
        text_le(x.0, top),
        0 <= a < s.len() + 1,
    ensures
        insert_by_name(s, x).len() == s.len() + 1,
        text_le(insert_by_name(s, x)[a].0, top),
    decreases s.len(),
{
    if s.len() > 0 && !text_le(s.last().0, x.0) {
        if a < s.len() {
            lemma_insert_le_last(s.drop_last(), x, top, a);
        } else {
            lemma_insert_le_last(s.drop_last(), x, top, 0);
        }
    } else if s.len() > 0 {
    }
}

} // verus!

verus! {

/// The lowercase hex digit for `d < 16`.
pub open spec fn json_hex(d: int) -> char {
    if d < 10 {
        ((48 + d) as u8) as char
    } else {
        ((87 + d) as u8) as char
    }
}

/// How a character appears inside a JSON string: `"` and `\` escaped with a
/// backslash, backspace, tab, line feed, form feed and carriage return as
/// `\b \t \n \f \r`, the other control characters as `\u00XX`, everything
/// else as itself.
pub open spec fn json_escape(c: char) -> Seq<char> {
    if c == '"' {
        seq!['\\', '"']
    } else if c == '\\' {
        seq!['\\', '\\']
    } else if c == '\u{8}' {
        seq!['\\', 'b']
    } else if c == '\t' {
        seq!['\\', 't']
    } else if c == '\n' {
        seq!['\\', 'n']
    } else if c == '\u{c}' {
        seq!['\\', 'f']
    } else if c == '\r' {
        seq!['\\', 'r']
    } else if (c as u32) < 0x20 {
        seq!['\\', 'u', '0', '0', json_hex((c as u32) as int / 16), json_hex((c as u32) as int % 16)]
    } else {
        seq![c]
    }
}

/// A JSON string literal.
pub open spec fn json_str(s: Seq<char>) -> Seq<char> {
    seq!['"'] + s.map_values(|c: char| json_escape(c)).flatten() + seq!['"']
}

/// The component of one file.
pub open spec fn file_component_json(e: FileEntry) -> Seq<char> {
    "{\"type\":\"file\",\"name\":"@ + json_str(e.0) + ",\"hashes\":[{\"alg\":\"BLAKE3\",\"value\":"@
        + json_str(e.1) + "}]}"@
}

/// Components separated by commas.
pub open spec fn components_json(es: Seq<FileEntry>) -> Seq<char>
    decreases es.len(),
{
    if es.len() == 0 {
        Seq::empty()
    } else if es.len() == 1 {
        file_component_json(es[0])
    } else {
        components_json(es.drop_last()) + ","@ + file_component_json(es.last())
    }
}

/// The whole document: format, version, metadata with the time and the
/// application (its version left out when empty), and the file components
/// when there are any.
pub open spec fn bom_json(name: Seq<char>, version: Seq<char>, timestamp: u64, files: Seq<FileEntry>) -> Seq<char> {
    "{\"bomFormat\":\"CycloneDX\",\"specVersion\":\"1.5\",\"version\":1,\"metadata\":{\"timestamp\":"@
        + json_str(crate::strings::decimal(timestamp as nat)) + ",\"component\":{\"type\":\"application\",\"name\":"@
        + json_str(name) + (if version.len() > 0 {
        ",\"version\":"@ + json_str(version)
    } else {
        Seq::empty()
    }) + "}}"@ + (if files.len() > 0 {
        ",\"components\":["@ + components_json(files) + "]"@
    } else {
        Seq::empty()
    }) + "}"@
}

/// The file entries of an SBOM: each file's path and BLAKE3 hex digest.
pub open spec fn file_entries(files: Seq<(String, Vec<u8>)>) -> Seq<FileEntry> {
    files.map_values(|f: (String, Vec<u8>)| (f.0@, crate::verify::blake3_hex_of(f.1@)))
}

/// The uncompressed SBOM document of an app.
pub open spec fn sbom_document(name: Seq<char>, version: Seq<char>, timestamp: u64, files: Seq<(String, Vec<u8>)>) -> Seq<u8> {
    vstd::utf8::encode_utf8(bom_json(name, version, timestamp, sort_by_name(file_entries(files))))
}

fn push_json_str(out: &mut String, s: &str)
    ensures
        final(out)@ == old(out)@ + json_str(s@),
{
    let cs = crate::strings::chars_of(s);
    let ghost f = |c: char| json_escape(c);
    let ghost start = out@;
    push_char(out, '"');
    let mut i: usize = 0;
    while i < cs.len()
        invariant
            cs@ == s@,
            f == (|c: char| json_escape(c)),
            i <= cs@.len(),
            out@ == start + seq!['"'] + cs@.take(i as int).map_values(f).flatten(),
        decreases cs@.len() - i,
    {
        let c = cs[i];
        let ghost before = out@;
        if c == '"' {
            push_char(out, '\\');
            push_char(out, '"');
        } else if c == '\\' {
            push_char(out, '\\');
            push_char(out, '\\');
        } else if c == '\u{8}' {
            push_char(out, '\\');
            push_char(out, 'b');
        } else if c == '\t' {
            push_char(out, '\\');
            push_char(out, 't');
        } else if c == '\n' {
            push_char(out, '\\');
            push_char(out, 'n');
        } else if c == '\u{c}' {
            push_char(out, '\\');
            push_char(out, 'f');
        } else if c == '\r' {
            push_char(out, '\\');
            push_char(out, 'r');
        } else if (c as u32) < 0x20 {
            let v = c as u32;
            let hi = v / 16;
            let lo = v % 16;
            push_char(out, '\\');
            push_char(out, 'u');
            push_char(out, '0');
            push_char(out, '0');
            push_char(out, if hi < 10 { (48 + hi) as u8 as char } else { (87 + hi) as u8 as char });
            push_char(out, if lo < 10 { (48 + lo) as u8 as char } else { (87 + lo) as u8 as char });
        } else {
            push_char(out, c);
        }
        proof {
            assert(out@ =~= before + json_escape(c));
            assert(cs@.take(i + 1).map_values(f) =~= cs@.take(i as int).map_values(f).push(json_escape(c)));
            cs@.take(i as int).map_values(f).lemma_flatten_push(json_escape(c));
        }
        i = i + 1;
    }
    push_char(out, '"');
    assert(cs@.take(cs@.len() as int) =~= cs@);
    assert(out@ =~= start + json_str(s@));
}

} // verus!

verus! {

fn push_component(out: &mut String, e: &(String, String))
    ensures
        final(out)@ == old(out)@ + file_component_json((e.0@, e.1@)),
{
    out.append("{\"type\":\"file\",\"name\":");
    push_json_str(out, e.0.as_str());
    out.append(",\"hashes\":[{\"alg\":\"BLAKE3\",\"value\":");
    push_json_str(out, e.1.as_str());
    out.append("}]}");
}

fn sort_entries(entries: &Vec<(String, String)>) -> (r: Vec<(String, String)>)
    ensures
        crate::host::var_views(r@) == sort_by_name(crate::host::var_views(entries@)),
{
    let ghost ev = crate::host::var_views(entries@);
    let mut out: Vec<(String, String)> = Vec::new();
    let mut i: usize = 0;
    assert(ev.take(0) =~= Seq::<FileEntry>::empty());
    while i < entries.len()
        invariant
            ev == crate::host::var_views(entries@),
            i <= entries@.len(),
            crate::host::var_views(out@) == sort_by_name(ev.take(i as int)),
        decreases entries@.len() - i,
    {
        let x = (entries[i].0.clone(), entries[i].1.clone());
        let ghost ov = crate::host::var_views(out@);
        let mut p: usize = out.len();
        while p > 0
            invariant
                ov == crate::host::var_views(out@),
                p <= out@.len(),
                forall|j: int| p <= j < ov.len() ==> !text_le(#[trigger] ov[j].0, x.0@),
            ensures
                p <= out@.len(),
                forall|j: int| p <= j < ov.len() ==> !text_le(#[trigger] ov[j].0, x.0@),
                p > 0 ==> text_le(ov[p - 1].0, x.0@),
            decreases p,
        {
            if crate::order::text_le_exec(out[p - 1].0.as_str(), x.0.as_str()) {
                break;
            }
            p = p - 1;
        }
        proof {
            lemma_insert_at(ov, (x.0@, x.1@), p as int);
            assert(ev.take(i + 1).drop_last() =~= ev.take(i as int));
            assert(ev.take(i + 1).last() == (x.0@, x.1@));
        }
        out.insert(p, x);
        assert(crate::host::var_views(out@) =~= ov.insert(p as int, (x.0@, x.1@)));
        i = i + 1;
    }
    assert(ev.take(entries@.len() as int) =~= ev);
    out
}

fn bom_text(name: &str, version: &str, timestamp: u64, files: &Vec<(String, String)>) -> (r: String)
    ensures
        r@ == bom_json(name@, version@, timestamp, crate::host::var_views(files@)),
{
    let ghost fv = crate::host::var_views(files@);
    let mut s = text(
        "{\"bomFormat\":\"CycloneDX\",\"specVersion\":\"1.5\",\"version\":1,\"metadata\":{\"timestamp\":",
    );
    push_json_str(&mut s, crate::strings::decimal_string(timestamp).as_str());
    s.append(",\"component\":{\"type\":\"application\",\"name\":");
    push_json_str(&mut s, name);
    if version.unicode_len() > 0 {
        s.append(",\"version\":");
        push_json_str(&mut s, version);
    }
    s.append("}}");
    let ghost head = s@;
    if files.len() > 0 {
        s.append(",\"components\":[");
        let ghost open = s@;
        let mut k: usize = 0;
        while k < files.len()
            invariant
                fv == crate::host::var_views(files@),
                files@.len() > 0,
                k <= files@.len(),
                s@ == open + components_json(fv.take(k as int)),
            decreases files@.len() - k,
        {
            let ghost before = s@;
            if k > 0 {
                s.append(",");
            }
            push_component(&mut s, &files[k]);
            proof {
                reveal_strlit(",");
                assert(fv.take(k + 1).drop_last() =~= fv.take(k as int));
                assert(fv.take(k + 1).last() == (files@[k as int].0@, files@[k as int].1@));
                if k == 0 {
                    assert(fv.take(0) =~= Seq::<FileEntry>::empty());
                    assert(s@ =~= open + components_json(fv.take(1)));
                } else {
                    assert(s@ =~= open + components_json(fv.take(k + 1)));
                }
            }
            k = k + 1;
        }
        assert(fv.take(files@.len() as int) =~= fv);
        s.append("]");
    }
    s.append("}");
    s
}

/// The SBOM of an app from the files of its layers (path relative to its
/// layer, and contents) at a given time: the document of `sbom_document`,
/// gzip-compressed. Fails, with a `Cbor` error, only when compression does.
pub fn generate_sbom(app_name: &str, app_version: &str, timestamp: u64, files: &Vec<(String, Vec<u8>)>) -> (r: Result<Vec<u8>>)
    ensures
        r matches Ok(z) ==> gzip_of(sbom_document(app_name@, app_version@, timestamp, files@)) == Some(z@),
        r matches Ok(z) ==> gunzip_ok(z@) == Some(sbom_document(app_name@, app_version@, timestamp, files@)),
        r is Err ==> gzip_of(sbom_document(app_name@, app_version@, timestamp, files@)) is None && r->Err_0 is Cbor,
        r matches Ok(z) ==> cyclonedx_sbom(z@),
{
    proof {
        lemma_generated_sbom_accepted(app_name@, app_version@, timestamp, files@);
    }
    let mut entries: Vec<(String, String)> = Vec::new();
    let mut i: usize = 0;
    while i < files.len()
        invariant
            i <= files@.len(),
            crate::host::var_views(entries@) == file_entries(files@).take(i as int),
        decreases files@.len() - i,
    {
        let hex = crate::verify::Verifier::blake3_hex(files[i].1.as_slice());
        let name = files[i].0.clone();
        assert(hex@ == crate::verify::blake3_hex_of(files@[i as int].1@));
        assert(name@ == files@[i as int].0@);
        let ghost before = crate::host::var_views(entries@);
        entries.push((name, hex));
        assert(crate::host::var_views(entries@) =~= before.push((files@[i as int].0@, crate::verify::blake3_hex_of(files@[i as int].1@))));
        assert(crate::host::var_views(entries@) =~= file_entries(files@).take(i + 1));
        i = i + 1;
    }
    assert(file_entries(files@).take(files@.len() as int) =~= file_entries(files@));
    let sorted = sort_entries(&entries);
    let json = bom_text(app_name, app_version, timestamp, &sorted);
    match compress_gzip(json.as_str().as_bytes()) {
        Ok(z) => {
            proof {
                let j = bom_value(app_name@, app_version@, timestamp, sort_by_name(file_entries(files@)));
                assert(cyclonedx_value(j) && gunzip_ok(z@) == Some(vstd::utf8::encode_utf8(json_text(j))));
            }
            Ok(z)
        },
        Err(e) => Err(Error::Cbor(e)),
    }
}

} // verus!

verus! {

// ---------------------------------------------------------------------------
// The SBOM document as a JSON value: what the document says, and that the
// SBOM check accepts it.
// ---------------------------------------------------------------------------

/// A JSON value of the kinds an SBOM uses.
pub enum Json {
    Str(Seq<char>),
    Num(nat),
    Arr(Seq<Json>),
    Obj(Seq<(Seq<char>, Json)>),
}

/// Texts separated by commas.
pub open spec fn comma_join(parts: Seq<Seq<char>>) -> Seq<char>
    decreases parts.len(),
{
    if parts.len() == 0 {
        Seq::empty()
    } else if parts.len() == 1 {
        parts[0]
    } else {
        comma_join(parts.drop_last()) + ","@ + parts.last()
    }
}

/// The compact JSON text of a value: strings escaped as `json_str` does,
/// numbers in decimal, no white space.
pub open spec fn json_text(j: Json) -> Seq<char>
    decreases j,
{
    match j {
        Json::Str(s) => json_str(s),
        Json::Num(n) => crate::strings::decimal(n),
        Json::Arr(a) => "["@ + comma_join(item_texts(a)) + "]"@,
        Json::Obj(m) => "{"@ + comma_join(member_texts(m)) + "}"@,
    }
}

/// The texts of an array's items.
pub open spec fn item_texts(a: Seq<Json>) -> Seq<Seq<char>>
    decreases a,
{
    Seq::new(
        a.len(),
        |i: int|
            if 0 <= i < a.len() {
                proof {
                    assert(decreases_to!(a => a[i]));
                }
                json_text(a[i])
            } else {
                Seq::empty()
            },
    )
}

/// The texts of an object's members: each name, a colon and the value.
pub open spec fn member_texts(m: Seq<(Seq<char>, Json)>) -> Seq<Seq<char>>
    decreases m,
{
    Seq::new(
        m.len(),
        |i: int|
            if 0 <= i < m.len() {
                proof {
                    assert(decreases_to!(m => m[i]));
                    assert(decreases_to!(m[i] => m[i].1));
                }
                json_str(m[i].0) + ":"@ + json_text(m[i].1)
            } else {
                Seq::empty()
            },
    )
}

/// A value that a JSON reader takes as it is: numbers below 2^64, no member
/// name beginning with `$`, arrays and objects nested at most `d` deep.
pub open spec fn json_readable(j: Json, d: nat) -> bool
    decreases j,
{
    match j {
        Json::Str(_) => true,
        Json::Num(n) => n <= 0xffff_ffff_ffff_ffff,
        Json::Arr(a) => d > 0 && forall|i: int|
            0 <= i < a.len() ==> json_readable(#[trigger] a[i], (d - 1) as nat),
        Json::Obj(m) => d > 0 && forall|i: int|
            0 <= i < m.len() ==> json_readable(#[trigger] m[i].1, (d - 1) as nat) && (m[i].0.len()
                == 0 || m[i].0[0] != '$'),
    }
}

/// The text under `key` among an object's members: the last member of that
/// name, when it holds a string.
pub open spec fn member_text(m: Seq<(Seq<char>, Json)>, key: Seq<char>) -> Option<Seq<char>>
    decreases m.len(),
{
    if m.len() == 0 {
        None
    } else if m.last().0 == key {
        match m.last().1 {
            Json::Str(s) => Some(s),
            _ => None,
        }
    } else {
        member_text(m.drop_last(), key)
    }
}


/// A character that a JSON string holds as itself.
pub open spec fn json_plain_char(c: char) -> bool {
    c != '"' && c != '\\' && (c as u32) >= 0x20
}

proof fn lemma_escape_plain(s: Seq<char>)
    requires
        forall|i: int| 0 <= i < s.len() ==> json_plain_char(#[trigger] s[i]),
    ensures
        s.map_values(|c: char| json_escape(c)).flatten() == s,
    decreases s.len(),
{
    let f = |c: char| json_escape(c);
    if s.len() > 0 {
        lemma_escape_plain(s.drop_first());
        assert(s.map_values(f).drop_first() =~= s.drop_first().map_values(f));
        assert(json_escape(s[0]) == seq![s[0]]);
        assert(s =~= seq![s[0]] + s.drop_first());
    } else {
        assert(s.map_values(f) =~= Seq::<Seq<char>>::empty());
    }
}

/// A text of plain characters, as a JSON string: itself in quotes.
proof fn lemma_json_str_plain(s: Seq<char>)
    requires
        forall|i: int| 0 <= i < s.len() ==> json_plain_char(#[trigger] s[i]),
    ensures
        json_str(s) == "\""@ + s + "\""@,
{
    reveal_strlit("\"");
    lemma_escape_plain(s);
}

proof fn lemma_comma_join_two(a: Seq<char>, b: Seq<char>)
    ensures
        comma_join(seq![a, b]) == a + ","@ + b,
{
    assert(seq![a, b].drop_last() =~= seq![a]);
    assert(comma_join(seq![a]) == a);
}

proof fn lemma_comma_join_push(parts: Seq<Seq<char>>, p: Seq<char>)
    requires
        parts.len() > 0,
    ensures
        comma_join(parts.push(p)) == comma_join(parts) + ","@ + p,
{
    assert(parts.push(p).drop_last() =~= parts);
}

proof fn lemma_comma_join_three(a: Seq<char>, b: Seq<char>, c: Seq<char>)
    ensures
        comma_join(seq![a, b, c]) == a + ","@ + b + ","@ + c,
{
    assert(seq![a, b, c].drop_last() =~= seq![a, b]);
    lemma_comma_join_two(a, b);
}

/// A name in quotes, as JSON writes a name of plain characters.
pub open spec fn quoted(s: Seq<char>) -> Seq<char> {
    "\""@ + s + "\""@
}

/// The JSON value of one file's component: its type, name and BLAKE3 digest.
pub open spec fn file_component_value(e: FileEntry) -> Json {
    Json::Obj(
        seq![
            ("type"@, Json::Str("file"@)),
            ("name"@, Json::Str(e.0)),
            (
                "hashes"@,
                Json::Arr(
                    seq![Json::Obj(seq![("alg"@, Json::Str("BLAKE3"@)), ("value"@, Json::Str(e.1))])],
                ),
            ),
        ],
    )
}

proof fn lemma_file_component_text(e: FileEntry)
    ensures
        json_text(file_component_value(e)) == file_component_json(e),
{
    reveal_strlit("type");
    reveal_strlit("file");
    reveal_strlit("name");
    reveal_strlit("hashes");
    reveal_strlit("alg");
    reveal_strlit("BLAKE3");
    reveal_strlit("value");
    reveal_strlit("\"");
    reveal_strlit(":");
    reveal_strlit(",");
    reveal_strlit("{");
    reveal_strlit("}");
    reveal_strlit("[");
    reveal_strlit("]");
    reveal_strlit("{\"type\":\"file\",\"name\":");
    reveal_strlit(",\"hashes\":[{\"alg\":\"BLAKE3\",\"value\":");
    reveal_strlit("}]}");
    lemma_json_str_plain("type"@);
    lemma_json_str_plain("file"@);
    lemma_json_str_plain("name"@);
    lemma_json_str_plain("hashes"@);
    lemma_json_str_plain("alg"@);
    lemma_json_str_plain("BLAKE3"@);
    lemma_json_str_plain("value"@);
    let inner_m = seq![("alg"@, Json::Str("BLAKE3"@)), ("value"@, Json::Str(e.1))];
    let inner = Json::Obj(inner_m);
    assert(member_texts(inner_m) =~= seq![
        quoted("alg"@) + ":"@ + quoted("BLAKE3"@),
        quoted("value"@) + ":"@ + json_str(e.1),
    ]);
    lemma_comma_join_two(quoted("alg"@) + ":"@ + quoted("BLAKE3"@), quoted("value"@) + ":"@ + json_str(e.1));
    let inner_t = json_text(inner);
    assert(item_texts(seq![inner]) =~= seq![inner_t]);
    assert(comma_join(seq![inner_t]) == inner_t);
    let m = file_component_value(e)->Obj_0;
    assert(member_texts(m) =~= seq![
        quoted("type"@) + ":"@ + quoted("file"@),
        quoted("name"@) + ":"@ + json_str(e.0),
        quoted("hashes"@) + ":"@ + ("["@ + inner_t + "]"@),
    ]);
    lemma_comma_join_three(
        quoted("type"@) + ":"@ + quoted("file"@),
        quoted("name"@) + ":"@ + json_str(e.0),
        quoted("hashes"@) + ":"@ + ("["@ + inner_t + "]"@),
    );
    assert(json_text(file_component_value(e)) =~= file_component_json(e));
}

/// The JSON values of the file components.
pub open spec fn components_value(es: Seq<FileEntry>) -> Seq<Json> {
    es.map_values(|e: FileEntry| file_component_value(e))
}

proof fn lemma_components_text(es: Seq<FileEntry>)
    ensures
        comma_join(item_texts(components_value(es))) == components_json(es),
    decreases es.len(),
{
    let vs = components_value(es);
    if es.len() == 1 {
        lemma_file_component_text(es[0]);
        assert(item_texts(vs) =~= seq![json_text(file_component_value(es[0]))]);
    } else if es.len() > 1 {
        let init = es.drop_last();
        lemma_components_text(init);
        lemma_file_component_text(es.last());
        assert(item_texts(vs) =~= item_texts(components_value(init)).push(
            json_text(file_component_value(es.last())),
        ));
        lemma_comma_join_push(item_texts(components_value(init)), json_text(file_component_value(es.last())));
    } else {
        assert(item_texts(vs) =~= Seq::<Seq<char>>::empty());
    }
}

/// The members of the application component: type, name, and the version
/// when there is one.
pub open spec fn app_members(name: Seq<char>, version: Seq<char>) -> Seq<(Seq<char>, Json)> {
    let m = seq![("type"@, Json::Str("application"@)), ("name"@, Json::Str(name))];
    if version.len() > 0 {
        m.push(("version"@, Json::Str(version)))
    } else {
        m
    }
}

/// The members of the metadata: the time and the application component.
pub open spec fn metadata_members(name: Seq<char>, version: Seq<char>, timestamp: u64) -> Seq<(Seq<char>, Json)> {
    seq![
        ("timestamp"@, Json::Str(crate::strings::decimal(timestamp as nat))),
        ("component"@, Json::Obj(app_members(name, version))),
    ]
}

/// The members of the document: format, version, metadata, and the file
/// components when there are any.
pub open spec fn bom_members(name: Seq<char>, version: Seq<char>, timestamp: u64, files: Seq<FileEntry>) -> Seq<(Seq<char>, Json)> {
    let m = seq![
        ("bomFormat"@, Json::Str("CycloneDX"@)),
        ("specVersion"@, Json::Str("1.5"@)),
        ("version"@, Json::Num(1)),
        ("metadata"@, Json::Obj(metadata_members(name, version, timestamp))),
    ];
    if files.len() > 0 {
        m.push(("components"@, Json::Arr(components_value(files))))
    } else {
        m
    }
}

/// The SBOM document as a JSON value.
pub open spec fn bom_value(name: Seq<char>, version: Seq<char>, timestamp: u64, files: Seq<FileEntry>) -> Json {
    Json::Obj(bom_members(name, version, timestamp, files))
}

proof fn lemma_app_text(name: Seq<char>, version: Seq<char>)
    ensures
        json_text(Json::Obj(app_members(name, version))) == "{\"type\":\"application\",\"name\":"@
            + json_str(name) + (if version.len() > 0 {
            ",\"version\":"@ + json_str(version)
        } else {
            Seq::empty()
        }) + "}"@,
{
    reveal_strlit("type");
    reveal_strlit("application");
    reveal_strlit("name");
    reveal_strlit("version");
    reveal_strlit("\"");
    reveal_strlit(":");
    reveal_strlit(",");
    reveal_strlit("{");
    reveal_strlit("}");
    reveal_strlit("{\"type\":\"application\",\"name\":");
    reveal_strlit(",\"version\":");
    lemma_json_str_plain("type"@);
    lemma_json_str_plain("application"@);
    lemma_json_str_plain("name"@);
    lemma_json_str_plain("version"@);
    let p0 = quoted("type"@) + ":"@ + quoted("application"@);
    let p1 = quoted("name"@) + ":"@ + json_str(name);
    let m = app_members(name, version);
    if version.len() > 0 {
        let p2 = quoted("version"@) + ":"@ + json_str(version);
        assert(member_texts(m) =~= seq![p0, p1, p2]);
        lemma_comma_join_three(p0, p1, p2);
    } else {
        assert(member_texts(m) =~= seq![p0, p1]);
        lemma_comma_join_two(p0, p1);
    }
    assert(json_text(Json::Obj(m)) =~= "{\"type\":\"application\",\"name\":"@ + json_str(name) + (
    if version.len() > 0 {
        ",\"version\":"@ + json_str(version)
    } else {
        Seq::empty()
    }) + "}"@);
}

proof fn lemma_comma_join_four(a: Seq<char>, b: Seq<char>, c: Seq<char>, d: Seq<char>)
    ensures
        comma_join(seq![a, b, c, d]) == a + ","@ + b + ","@ + c + ","@ + d,
{
    assert(seq![a, b, c, d].drop_last() =~= seq![a, b, c]);
    lemma_comma_join_three(a, b, c);
}

/// The text of the metadata: the time, then the application component.
proof fn lemma_metadata_text(name: Seq<char>, version: Seq<char>, timestamp: u64)
    ensures
        json_text(Json::Obj(metadata_members(name, version, timestamp))) == "{\"timestamp\":"@ + json_str(
            crate::strings::decimal(timestamp as nat),
        ) + ",\"component\":{\"type\":\"application\",\"name\":"@ + json_str(name) + (if version.len()
            > 0 {
            ",\"version\":"@ + json_str(version)
        } else {
            Seq::empty()
        }) + "}}"@,
{
    reveal_strlit("timestamp");
    reveal_strlit("component");
    reveal_strlit("\"");
    reveal_strlit(":");
    reveal_strlit(",");
    reveal_strlit("{");
    reveal_strlit("}");
    reveal_strlit("}}");
    reveal_strlit("{\"timestamp\":");
    reveal_strlit("{\"type\":\"application\",\"name\":");
    reveal_strlit(",\"component\":{\"type\":\"application\",\"name\":");
    lemma_json_str_plain("timestamp"@);
    lemma_json_str_plain("component"@);
    lemma_app_text(name, version);
    let dec = crate::strings::decimal(timestamp as nat);
    let app_t = json_text(Json::Obj(app_members(name, version)));
    let mm = metadata_members(name, version, timestamp);
    let q0 = quoted("timestamp"@) + ":"@ + json_str(dec);
    let q1 = quoted("component"@) + ":"@ + app_t;
    assert(member_texts(mm) =~= seq![q0, q1]);
    lemma_comma_join_two(q0, q1);
    assert(json_text(Json::Obj(mm)) =~= "{\"timestamp\":"@ + json_str(dec)
        + ",\"component\":{\"type\":\"application\",\"name\":"@ + json_str(name) + (if version.len() > 0 {
        ",\"version\":"@ + json_str(version)
    } else {
        Seq::empty()
    }) + "}}"@);
}

/// The first members of the document, as text.
proof fn lemma_head_text()
    ensures
        "{"@ + (json_str("bomFormat"@) + ":"@ + json_text(Json::Str("CycloneDX"@))) + ","@ + (json_str(
            "specVersion"@,
        ) + ":"@ + json_text(Json::Str("1.5"@))) + ","@ + (json_str("version"@) + ":"@ + json_text(
            Json::Num(1),
        )) + ","@ + (json_str("metadata"@) + ":"@) + "{\"timestamp\":"@
            == "{\"bomFormat\":\"CycloneDX\",\"specVersion\":\"1.5\",\"version\":1,\"metadata\":{\"timestamp\":"@,
        ","@ + (json_str("components"@) + ":"@) + "["@ == ",\"components\":["@,
{
    reveal_strlit("bomFormat");
    reveal_strlit("CycloneDX");
    reveal_strlit("specVersion");
    reveal_strlit("1.5");
    reveal_strlit("version");
    reveal_strlit("metadata");
    reveal_strlit("components");
    reveal_strlit("\"");
    reveal_strlit(":");
    reveal_strlit(",");
    reveal_strlit("{");
    reveal_strlit("[");
    reveal_strlit("{\"timestamp\":");
    reveal_strlit("{\"bomFormat\":\"CycloneDX\",\"specVersion\":\"1.5\",\"version\":1,\"metadata\":{\"timestamp\":");
    reveal_strlit(",\"components\":[");
    lemma_json_str_plain("bomFormat"@);
    lemma_json_str_plain("CycloneDX"@);
    lemma_json_str_plain("specVersion"@);
    lemma_json_str_plain("1.5"@);
    lemma_json_str_plain("version"@);
    lemma_json_str_plain("metadata"@);
    lemma_json_str_plain("components"@);
    assert(crate::strings::decimal(1) == seq!['1']) by {
        assert(crate::strings::digit_char(1) == '1');
    }
    assert("{"@ + (json_str("bomFormat"@) + ":"@ + json_text(Json::Str("CycloneDX"@))) + ","@ + (json_str(
        "specVersion"@,
    ) + ":"@ + json_text(Json::Str("1.5"@))) + ","@ + (json_str("version"@) + ":"@ + json_text(
        Json::Num(1),
    )) + ","@ + (json_str("metadata"@) + ":"@) + "{\"timestamp\":"@
        =~= "{\"bomFormat\":\"CycloneDX\",\"specVersion\":\"1.5\",\"version\":1,\"metadata\":{\"timestamp\":"@);
    assert(","@ + (json_str("components"@) + ":"@) + "["@ =~= ",\"components\":["@);
}

/// How the pieces of the document line up, whatever they hold.
proof fn lemma_document_shape(
    lb: Seq<char>,
    rb: Seq<char>,
    cm: Seq<char>,
    p0: Seq<char>,
    p1: Seq<char>,
    p2: Seq<char>,
    km: Seq<char>,
    t: Seq<char>,
    dec: Seq<char>,
    l2: Seq<char>,
    nm: Seq<char>,
    vp: Seq<char>,
    cl: Seq<char>,
    l1: Seq<char>,
    tail: Seq<char>,
)
    requires
        lb + p0 + cm + p1 + cm + p2 + cm + km + t == l1,
    ensures
        lb + (p0 + cm + p1 + cm + p2 + cm + (km + (t + dec + l2 + nm + vp + cl)) + tail) + rb == l1 + dec
            + l2 + nm + vp + cl + tail + rb,
{
    assert(lb + (p0 + cm + p1 + cm + p2 + cm + (km + (t + dec + l2 + nm + vp + cl)) + tail) + rb =~= (lb
        + p0 + cm + p1 + cm + p2 + cm + km + t) + dec + l2 + nm + vp + cl + tail + rb);
}

/// The components member after a comma, whatever the components hold.
proof fn lemma_components_shape(cm: Seq<char>, kc: Seq<char>, lsq: Seq<char>, rsq: Seq<char>, comps: Seq<char>, c1: Seq<char>)
    requires
        cm + kc + lsq == c1,
    ensures
        cm + (kc + (lsq + comps + rsq)) == c1 + comps + rsq,
{
    assert(cm + (kc + (lsq + comps + rsq)) =~= (cm + kc + lsq) + comps + rsq);
}

/// The text of the SBOM's JSON value is the document that is written.
pub proof fn lemma_bom_text(name: Seq<char>, version: Seq<char>, timestamp: u64, files: Seq<FileEntry>)
    ensures
        json_text(bom_value(name, version, timestamp, files)) == bom_json(name, version, timestamp, files),
{
    lemma_metadata_text(name, version, timestamp);
    lemma_head_text();
    let meta_t = json_text(Json::Obj(metadata_members(name, version, timestamp)));
    let p0 = json_str("bomFormat"@) + ":"@ + json_text(Json::Str("CycloneDX"@));
    let p1 = json_str("specVersion"@) + ":"@ + json_text(Json::Str("1.5"@));
    let p2 = json_str("version"@) + ":"@ + json_text(Json::Num(1));
    let km = json_str("metadata"@) + ":"@;
    let p3 = km + meta_t;
    lemma_comma_join_four(p0, p1, p2, p3);
    let j4 = comma_join(seq![p0, p1, p2, p3]);
    let dec = json_str(crate::strings::decimal(timestamp as nat));
    let vp = if version.len() > 0 {
        ",\"version\":"@ + json_str(version)
    } else {
        Seq::empty()
    };
    let bm = bom_members(name, version, timestamp, files);
    if files.len() > 0 {
        let comps = comma_join(item_texts(components_value(files)));
        let kc = json_str("components"@) + ":"@;
        let p4 = kc + ("["@ + comps + "]"@);
        assert(member_texts(bm) =~= seq![p0, p1, p2, p3].push(p4));
        lemma_comma_join_push(seq![p0, p1, p2, p3], p4);
        lemma_components_text(files);
        vstd::seq_lib::lemma_concat_associative(j4, ","@, p4);
        lemma_components_shape(","@, kc, "["@, "]"@, comps, ",\"components\":["@);
        lemma_document_shape(
            "{"@,
            "}"@,
            ","@,
            p0,
            p1,
            p2,
            km,
            "{\"timestamp\":"@,
            dec,
            ",\"component\":{\"type\":\"application\",\"name\":"@,
            json_str(name),
            vp,
            "}}"@,
            "{\"bomFormat\":\"CycloneDX\",\"specVersion\":\"1.5\",\"version\":1,\"metadata\":{\"timestamp\":"@,
            ","@ + p4,
        );
    } else {
        assert(member_texts(bm) =~= seq![p0, p1, p2, p3]);
        assert(j4 + Seq::<char>::empty() =~= j4);
        lemma_document_shape(
            "{"@,
            "}"@,
            ","@,
            p0,
            p1,
            p2,
            km,
            "{\"timestamp\":"@,
            dec,
            ",\"component\":{\"type\":\"application\",\"name\":"@,
            json_str(name),
            vp,
            "}}"@,
            "{\"bomFormat\":\"CycloneDX\",\"specVersion\":\"1.5\",\"version\":1,\"metadata\":{\"timestamp\":"@,
            Seq::empty(),
        );
    }
}

/// A CycloneDX document as the SBOM check wants it: a JSON object that a
/// reader takes as it is, whose `bomFormat` is `CycloneDX` and whose
/// `specVersion` is a non-empty text.
pub open spec fn cyclonedx_value(j: Json) -> bool {
    &&& j is Obj
    &&& json_readable(j, 64)
    &&& member_text(j->Obj_0, "bomFormat"@) == Some("CycloneDX"@)
    &&& member_text(j->Obj_0, "specVersion"@) matches Some(v) && v.len() > 0
}

proof fn lemma_file_component_readable(e: FileEntry, d: nat)
    requires
        d >= 3,
    ensures
        json_readable(file_component_value(e), d),
{
    reveal_strlit("type");
    reveal_strlit("name");
    reveal_strlit("hashes");
    reveal_strlit("alg");
    reveal_strlit("value");
    let inner_m = seq![("alg"@, Json::Str("BLAKE3"@)), ("value"@, Json::Str(e.1))];
    assert forall|i: int| 0 <= i < inner_m.len() implies json_readable(#[trigger] inner_m[i].1, (d - 3) as nat)
        && (inner_m[i].0.len() == 0 || inner_m[i].0[0] != '$') by {
        assert(i == 0 || i == 1);
    }
    let arr = seq![Json::Obj(inner_m)];
    assert forall|i: int| 0 <= i < arr.len() implies json_readable(#[trigger] arr[i], (d - 2) as nat) by {
        assert(i == 0);
    }
    let m = file_component_value(e)->Obj_0;
    assert forall|i: int| 0 <= i < m.len() implies json_readable(#[trigger] m[i].1, (d - 1) as nat) && (
    m[i].0.len() == 0 || m[i].0[0] != '$') by {
        assert(i == 0 || i == 1 || i == 2);
    }
}

/// The SBOM document's value is a CycloneDX document that the check accepts.
pub proof fn lemma_bom_value_cyclonedx(name: Seq<char>, version: Seq<char>, timestamp: u64, files: Seq<FileEntry>)
    ensures
        cyclonedx_value(bom_value(name, version, timestamp, files)),
{
    reveal_strlit("bomFormat");
    reveal_strlit("CycloneDX");
    reveal_strlit("specVersion");
    reveal_strlit("1.5");
    reveal_strlit("version");
    reveal_strlit("metadata");
    reveal_strlit("timestamp");
    reveal_strlit("component");
    reveal_strlit("components");
    reveal_strlit("type");
    reveal_strlit("name");
    let am = app_members(name, version);
    assert forall|i: int| 0 <= i < am.len() implies json_readable(#[trigger] am[i].1, 61) && (am[i].0.len()
        == 0 || am[i].0[0] != '$') by {
        assert(0 <= i <= 2);
    }
    let mm = metadata_members(name, version, timestamp);
    assert forall|i: int| 0 <= i < mm.len() implies json_readable(#[trigger] mm[i].1, 62) && (mm[i].0.len()
        == 0 || mm[i].0[0] != '$') by {
        assert(i == 0 || i == 1);
    }
    let cs = components_value(files);
    assert forall|i: int| 0 <= i < cs.len() implies json_readable(#[trigger] cs[i], 62) by {
        lemma_file_component_readable(files[i], 62);
    }
    let bm = bom_members(name, version, timestamp, files);
    assert forall|i: int| 0 <= i < bm.len() implies json_readable(#[trigger] bm[i].1, 63) && (bm[i].0.len()
        == 0 || bm[i].0[0] != '$') by {
        assert(0 <= i <= 4);
    }
    let t1 = seq![("bomFormat"@, Json::Str("CycloneDX"@))];
    let t2 = t1.push(("specVersion"@, Json::Str("1.5"@)));
    let t3 = t2.push(("version"@, Json::Num(1)));
    let top = t3.push(("metadata"@, Json::Obj(mm)));
    assert(t2.drop_last() =~= t1);
    assert(t3.drop_last() =~= t2);
    assert(top.drop_last() =~= t3);
    assert("bomFormat"@.len() == 9);
    assert("specVersion"@.len() == 11);
    assert("version"@.len() == 7);
    assert("metadata"@.len() == 8);
    assert("components"@.len() == 10);
    assert("specVersion"@ != "bomFormat"@);
    assert("version"@ != "bomFormat"@ && "version"@ != "specVersion"@);
    assert("metadata"@ != "bomFormat"@ && "metadata"@ != "specVersion"@);
    assert("components"@ != "bomFormat"@ && "components"@ != "specVersion"@);
    assert(member_text(t1, "bomFormat"@) == Some("CycloneDX"@));
    assert(member_text(t2, "bomFormat"@) == Some("CycloneDX"@));
    assert(member_text(t3, "bomFormat"@) == Some("CycloneDX"@));
    assert(member_text(top, "bomFormat"@) == Some("CycloneDX"@));
    assert(member_text(t2, "specVersion"@) == Some("1.5"@));
    assert(member_text(t3, "specVersion"@) == Some("1.5"@));
    assert(member_text(top, "specVersion"@) == Some("1.5"@));
    assert(top =~= seq![
        ("bomFormat"@, Json::Str("CycloneDX"@)),
        ("specVersion"@, Json::Str("1.5"@)),
        ("version"@, Json::Num(1)),
        ("metadata"@, Json::Obj(mm)),
    ]);
    if files.len() > 0 {
        assert(bm.drop_last() =~= top);
    }
}

/// The SBOM that `generate_sbom` writes for an app passes `verify_sbom_data`:
/// its document is the UTF-8 text of a CycloneDX value.
pub proof fn lemma_generated_sbom_accepted(
    name: Seq<char>,
    version: Seq<char>,
    timestamp: u64,
    files: Seq<(String, Vec<u8>)>,
)
    ensures
        cyclonedx_value(bom_value(name, version, timestamp, sort_by_name(file_entries(files)))),
        sbom_document(name, version, timestamp, files) == vstd::utf8::encode_utf8(
            json_text(bom_value(name, version, timestamp, sort_by_name(file_entries(files)))),
        ),
{
    let es = sort_by_name(file_entries(files));
    lemma_bom_text(name, version, timestamp, es);
    lemma_bom_value_cyclonedx(name, version, timestamp, es);
}

} // verus!
