use vstd::prelude::*;
use ciborium::Value as Item;

verus! {

/// A CBOR data item, as the library reads and writes it.
#[derive(Debug)]
pub enum CborValue {
    Integer(i128),
    Bytes(Vec<u8>),
    /// A floating-point item; the library never needs its value.
    Float,
    Text(String),
    Bool(bool),
    Null,
    Tag(u64, Box<CborValue>),
    Array(Vec<CborValue>),
    Dict(Vec<(CborValue, CborValue)>),
}

/// A CBOR data item as plain values.
pub enum Cbor {
    Integer(int),
    Bytes(Seq<u8>),
    Float,
    Text(Seq<char>),
    Bool(bool),
    Null,
    Tag(u64, Box<Cbor>),
    Array(Seq<Cbor>),
    Dict(Seq<(Cbor, Cbor)>),
}

/// The plain value of a CBOR item.
pub open spec fn cbor_view(v: CborValue) -> Cbor
    decreases v,
{
    match v {
        CborValue::Integer(i) => Cbor::Integer(i as int),
        CborValue::Bytes(b) => Cbor::Bytes(b@),
        CborValue::Float => Cbor::Float,
        CborValue::Text(t) => Cbor::Text(t@),
        CborValue::Bool(b) => Cbor::Bool(b),
        CborValue::Null => Cbor::Null,
        CborValue::Tag(t, x) => Cbor::Tag(t, Box::new(cbor_view(*x))),
        CborValue::Array(a) => Cbor::Array(
            Seq::new(
                a@.len(),
                |i: int|
                    if 0 <= i < a@.len() {
                        proof {
                            assert(decreases_to!(a => a@[i]));
                        }
                        cbor_view(a@[i])
                    } else {
                        Cbor::Null
                    },
            ),
        ),
        CborValue::Dict(m) => Cbor::Dict(
            Seq::new(
                m@.len(),
                |i: int|
                    if 0 <= i < m@.len() {
                        proof {
                            assert(decreases_to!(m => m@[i]));
                            assert(decreases_to!(m@[i] => m@[i].0));
                            assert(decreases_to!(m@[i] => m@[i].1));
                        }
                        (cbor_view(m@[i].0), cbor_view(m@[i].1))
                    } else {
                        (Cbor::Null, Cbor::Null)
                    },
            ),
        ),
    }
}

impl View for CborValue {
    type V = Cbor;

    open spec fn view(&self) -> Cbor {
        cbor_view(*self)
    }
}

/// An item that CBOR can carry as the library builds it: no float anywhere in
/// it, and every integer within CBOR's range, -2^64 to 2^64 - 1.
pub open spec fn cbor_writable(c: Cbor) -> bool
    decreases c,
{
    match c {
        Cbor::Integer(i) => -0x1_0000_0000_0000_0000 <= i <= 0xffff_ffff_ffff_ffff,
        Cbor::Float => false,
        Cbor::Tag(_, x) => cbor_writable(*x),
        Cbor::Array(a) => forall|i: int| 0 <= i < a.len() ==> cbor_writable(#[trigger] a[i]),
        Cbor::Dict(m) => forall|i: int|
            0 <= i < m.len() ==> cbor_writable(#[trigger] m[i].0) && cbor_writable(m[i].1),
        _ => true,
    }
}

/// An item built only of integers from 0 to 2^64 - 1, byte strings, texts,
/// booleans, nulls, arrays and maps, with arrays and maps nested at most `d`
/// deep.
pub open spec fn cbor_plain(c: Cbor, d: nat) -> bool
    decreases c,
{
    match c {
        Cbor::Integer(i) => 0 <= i <= 0xffff_ffff_ffff_ffff,
        Cbor::Float => false,
        Cbor::Tag(_, _) => false,
        Cbor::Array(a) => d > 0 && forall|i: int|
            0 <= i < a.len() ==> cbor_plain(#[trigger] a[i], (d - 1) as nat),
        Cbor::Dict(m) => d > 0 && forall|i: int|
            0 <= i < m.len() ==> cbor_plain(#[trigger] m[i].0, (d - 1) as nat) && cbor_plain(
                m[i].1,
                (d - 1) as nat,
            ),
        _ => true,
    }
}

/// A plain item is one that CBOR can carry.
pub proof fn lemma_plain_writable(c: Cbor, d: nat)
    requires
        cbor_plain(c, d),
    ensures
        cbor_writable(c),
    decreases c,
{
    match c {
        Cbor::Array(a) => {
            assert forall|i: int| 0 <= i < a.len() implies cbor_writable(#[trigger] a[i]) by {
                assert(decreases_to!(c => a[i]));
                lemma_plain_writable(a[i], (d - 1) as nat);
            }
        },
        Cbor::Dict(m) => {
            assert forall|i: int| 0 <= i < m.len() implies cbor_writable(#[trigger] m[i].0)
                && cbor_writable(m[i].1) by {
                assert(decreases_to!(c => m[i].0));
                assert(decreases_to!(c => m[i].1));
                lemma_plain_writable(m[i].0, (d - 1) as nat);
                lemma_plain_writable(m[i].1, (d - 1) as nat);
            }
        },
        _ => {},
    }
}

} // verus!

verus! {

/// The item under any number of tags.
pub open spec fn untag(c: Cbor) -> Cbor
    decreases c,
{
    match c {
        Cbor::Tag(_, x) => untag(*x),
        _ => c,
    }
}

/// An unsigned integer no larger than `max`.
pub open spec fn cbor_uint(c: Cbor, max: int) -> Option<int> {
    match untag(c) {
        Cbor::Integer(i) => if 0 <= i <= max {
            Some(i)
        } else {
            None
        },
        _ => None,
    }
}

/// A text string.
pub open spec fn cbor_text(c: Cbor) -> Option<Seq<char>> {
    match untag(c) {
        Cbor::Text(t) => Some(t),
        _ => None,
    }
}

/// A boolean.
pub open spec fn cbor_bool(c: Cbor) -> Option<bool> {
    match untag(c) {
        Cbor::Bool(b) => Some(b),
        _ => None,
    }
}

/// A byte string, given either as CBOR bytes or as an array of small integers.
pub open spec fn cbor_byte_string(c: Cbor) -> Option<Seq<u8>> {
    match untag(c) {
        Cbor::Bytes(b) => Some(b),
        Cbor::Array(a) => if forall|i: int| 0 <= i < a.len() ==> (#[trigger] cbor_uint(a[i], 255)) is Some {
            Some(Seq::new(a.len(), |i: int| cbor_uint(a[i], 255).unwrap() as u8))
        } else {
            None
        },
        _ => None,
    }
}

/// A list of text strings (an empty byte string counts as an empty list).
pub open spec fn cbor_text_list(c: Cbor) -> Option<Seq<Seq<char>>> {
    match untag(c) {
        Cbor::Array(a) => if forall|i: int| 0 <= i < a.len() ==> (#[trigger] cbor_text(a[i])) is Some {
            Some(Seq::new(a.len(), |i: int| cbor_text(a[i]).unwrap()))
        } else {
            None
        },
        Cbor::Bytes(b) => if b.len() == 0 {
            Some(Seq::empty())
        } else {
            None
        },
        _ => None,
    }
}

/// A map key that can name a field: a text or byte string.
pub open spec fn key_valid(k: Cbor) -> bool {
    untag(k) is Text || untag(k) is Bytes
}

/// The key names the field `name`.
pub open spec fn key_matches(k: Cbor, name: Seq<char>) -> bool {
    match untag(k) {
        Cbor::Text(t) => t == name,
        Cbor::Bytes(b) => b == vstd::utf8::encode_utf8(name),
        _ => false,
    }
}

/// The first of `names[from..]` that the key names.
pub open spec fn key_index_from(k: Cbor, names: Seq<Seq<char>>, from: int) -> Option<int>
    decreases names.len() - from,
{
    if from >= names.len() || from < 0 {
        None
    } else if key_matches(k, names[from]) {
        Some(from)
    } else {
        key_index_from(k, names, from + 1)
    }
}

/// For each of `names`, the position of the entry among the first `n` entries of
/// `m` whose key names it. `None` when a key is neither text nor bytes, or when
/// a field is named twice.
pub open spec fn field_slots(m: Seq<(Cbor, Cbor)>, names: Seq<Seq<char>>, n: int) -> Option<
    Seq<Option<int>>,
>
    decreases n,
{
    if n <= 0 {
        Some(Seq::new(names.len(), |i: int| None))
    } else {
        match field_slots(m, names, n - 1) {
            None => None,
            Some(slots) => if !key_valid(m[n - 1].0) {
                None
            } else {
                match key_index_from(m[n - 1].0, names, 0) {
                    None => Some(slots),
                    Some(i) => if slots[i] is Some {
                        None
                    } else {
                        Some(slots.update(i, Some(n - 1)))
                    },
                }
            },
        }
    }
}

/// The value given for the field in `slot`, if any.
pub open spec fn slot_value(m: Seq<(Cbor, Cbor)>, slot: Option<int>) -> Option<Cbor> {
    match slot {
        Some(j) => Some(m[j].1),
        None => None,
    }
}

/// The item under its tags.
pub fn untagged(v: &CborValue) -> (r: &CborValue)
    ensures
        r@ == untag(v@),
        !(r@ is Tag),
    decreases v,
{
    match v {
        CborValue::Tag(_, x) => untagged(x),
        _ => v,
    }
}

/// An unsigned integer no larger than `max`.
pub fn get_uint(v: &CborValue, max: u64) -> (r: Option<u64>)
    ensures
        r matches Some(x) ==> cbor_uint(v@, max as int) == Some(x as int),
        r is None ==> cbor_uint(v@, max as int) is None,
{
    match untagged(v) {
        CborValue::Integer(i) => {
            if 0 <= *i && *i <= max as i128 {
                Some(*i as u64)
            } else {
                None
            }
        },
        _ => None,
    }
}

/// A text string.
pub fn get_text(v: &CborValue) -> (r: Option<String>)
    ensures
        r matches Some(t) ==> cbor_text(v@) == Some(t@),
        r is None ==> cbor_text(v@) is None,
{
    match untagged(v) {
        CborValue::Text(t) => Some(t.clone()),
        _ => None,
    }
}

/// A boolean.
pub fn get_bool(v: &CborValue) -> (r: Option<bool>)
    ensures
        r == cbor_bool(v@),
{
    match untagged(v) {
        CborValue::Bool(b) => Some(*b),
        _ => None,
    }
}

/// A byte string (CBOR bytes or an array of small integers).
pub fn get_byte_string(v: &CborValue) -> (r: Option<Vec<u8>>)
    ensures
        r matches Some(b) ==> cbor_byte_string(v@) == Some(b@),
        r is None ==> cbor_byte_string(v@) is None,
{
    let u = untagged(v);
    match u {
        CborValue::Bytes(b) => Some(b.clone()),
        CborValue::Array(a) => {
            let ghost av = match u@ {
                Cbor::Array(s) => s,
                _ => Seq::empty(),
            };
            assert(av.len() == a@.len());
            assert(forall|j: int| 0 <= j < a@.len() ==> #[trigger] av[j] == cbor_view(a@[j]));
            assert(untag(v@) == Cbor::Array(av));
            let mut out: Vec<u8> = Vec::new();
            let mut i: usize = 0;
            while i < a.len()
                invariant
                    i <= a@.len(),
                    av.len() == a@.len(),
                    untag(v@) == Cbor::Array(av),
                    forall|j: int| 0 <= j < a@.len() ==> #[trigger] av[j] == cbor_view(a@[j]),
                    out@.len() == i,
                    forall|j: int|
                        0 <= j < i ==> (#[trigger] cbor_uint(av[j], 255)) is Some && out@[j]
                            == cbor_uint(av[j], 255).unwrap() as u8,
                decreases a@.len() - i,
            {
                match get_uint(&a[i], 255) {
                    Some(x) => {
                        out.push(x as u8);
                    },
                    None => {
                        assert(cbor_uint(av[i as int], 255) is None);
                        assert(!(forall|j: int|
                            0 <= j < av.len() ==> (#[trigger] cbor_uint(av[j], 255)) is Some));
                        return None;
                    },
                }
                i = i + 1;
            }
            assert(out@ =~= Seq::new(av.len(), |j: int| cbor_uint(av[j], 255).unwrap() as u8));
            Some(out)
        },
        _ => None,
    }
}

/// A list of text strings.
pub fn get_text_list(v: &CborValue) -> (r: Option<Vec<String>>)
    ensures
        r matches Some(l) ==> cbor_text_list(v@) == Some(crate::strings::views(l@)),
        r is None ==> cbor_text_list(v@) is None,
{
    let u = untagged(v);
    match u {
        CborValue::Bytes(b) => {
            if b.len() == 0 {
                let out: Vec<String> = Vec::new();
                assert(crate::strings::views(out@) =~= Seq::<Seq<char>>::empty());
                Some(out)
            } else {
                None
            }
        },
        CborValue::Array(a) => {
            let ghost av = match u@ {
                Cbor::Array(s) => s,
                _ => Seq::empty(),
            };
            assert(av.len() == a@.len());
            assert(forall|j: int| 0 <= j < a@.len() ==> #[trigger] av[j] == cbor_view(a@[j]));
            assert(untag(v@) == Cbor::Array(av));
            let mut out: Vec<String> = Vec::new();
            let mut i: usize = 0;
            while i < a.len()
                invariant
                    i <= a@.len(),
                    av.len() == a@.len(),
                    untag(v@) == Cbor::Array(av),
                    forall|j: int| 0 <= j < a@.len() ==> #[trigger] av[j] == cbor_view(a@[j]),
                    out@.len() == i,
                    forall|j: int|
                        0 <= j < i ==> (#[trigger] cbor_text(av[j])) is Some && out@[j]@
                            == cbor_text(av[j]).unwrap(),
                decreases a@.len() - i,
            {
                match get_text(&a[i]) {
                    Some(t) => {
                        out.push(t);
                    },
                    None => {
                        assert(cbor_text(av[i as int]) is None);
                        assert(!(forall|j: int|
                            0 <= j < av.len() ==> (#[trigger] cbor_text(av[j])) is Some));
                        return None;
                    },
                }
                i = i + 1;
            }
            assert(crate::strings::views(out@) =~= Seq::new(
                av.len(),
                |j: int| cbor_text(av[j]).unwrap(),
            ));
            Some(out)
        },
        _ => None,
    }
}

} // verus!

verus! {

/// The plain entries of a map item.
pub open spec fn dict_view(m: Seq<(CborValue, CborValue)>) -> Seq<(Cbor, Cbor)> {
    Seq::new(m.len(), |i: int| (cbor_view(m[i].0), cbor_view(m[i].1)))
}

/// The plain elements of an array item.
pub open spec fn array_view(a: Seq<CborValue>) -> Seq<Cbor> {
    Seq::new(a.len(), |i: int| cbor_view(a[i]))
}

/// The view of a map or array item is made of the views of its parts.
pub proof fn lemma_container_view(v: CborValue)
    ensures
        v matches CborValue::Dict(m) ==> v@ == Cbor::Dict(dict_view(m@)),
        v matches CborValue::Array(a) ==> v@ == Cbor::Array(array_view(a@)),
{
    match v {
        CborValue::Dict(m) => {
            assert(dict_view(m@) =~= match v@ {
                Cbor::Dict(s) => s,
                _ => Seq::empty(),
            });
        },
        CborValue::Array(a) => {
            assert(array_view(a@) =~= match v@ {
                Cbor::Array(s) => s,
                _ => Seq::empty(),
            });
        },
        _ => {},
    }
}

/// A field index found for a key lies within the names searched.
pub proof fn lemma_key_index_bounds(k: Cbor, names: Seq<Seq<char>>, from: int)
    ensures
        key_index_from(k, names, from) matches Some(i) ==> from <= i < names.len()
            && key_matches(k, names[i]),
    decreases names.len() - from,
{
    if 0 <= from < names.len() && !key_matches(k, names[from]) {
        lemma_key_index_bounds(k, names, from + 1);
    }
}

/// Once two entries name the same field, or a key names none, no longer
/// prefix of the map decodes either.
pub proof fn lemma_field_slots_stay_none(m: Seq<(Cbor, Cbor)>, names: Seq<Seq<char>>, a: int, b: int)
    requires
        a <= b,
        field_slots(m, names, a) is None,
    ensures
        field_slots(m, names, b) is None,
    decreases b - a,
{
    if a < b {
        lemma_field_slots_stay_none(m, names, a, b - 1);
    }
}

/// The views of a list of names.
pub open spec fn name_views(names: Seq<&str>) -> Seq<Seq<char>> {
    names.map_values(|s: &str| s@)
}

/// Byte-for-byte equality.
pub fn bytes_eq(a: &[u8], b: &[u8]) -> (r: bool)
    ensures
        r == (a@ == b@),
{
    if a.len() != b.len() {
        return false;
    }
    let mut i: usize = 0;
    while i < a.len()
        invariant
            a@.len() == b@.len(),
            i <= a@.len(),
            forall|j: int| 0 <= j < i ==> a@[j] == b@[j],
        decreases a@.len() - i,
    {
        if a[i] != b[i] {
            return false;
        }
        i = i + 1;
    }
    assert(a@ =~= b@);
    true
}

/// Whether the key names the field `name`.
pub fn key_names(k: &CborValue, name: &str) -> (r: bool)
    ensures
        r == key_matches(k@, name@),
{
    match untagged(k) {
        CborValue::Text(t) => crate::strings::str_eq(t.as_str(), name),
        CborValue::Bytes(b) => bytes_eq(b.as_slice(), name.as_bytes()),
        _ => false,
    }
}

/// Whether the key can name a field at all.
pub fn key_is_name(k: &CborValue) -> (r: bool)
    ensures
        r == key_valid(k@),
{
    match untagged(k) {
        CborValue::Text(_) => true,
        CborValue::Bytes(_) => true,
        _ => false,
    }
}

/// The first of `names` that the key names.
pub fn key_index(k: &CborValue, names: &Vec<&str>) -> (r: Option<usize>)
    ensures
        r matches Some(i) ==> key_index_from(k@, name_views(names@), 0) == Some(i as int),
        r is None ==> key_index_from(k@, name_views(names@), 0) is None,
{
    let ghost nv = name_views(names@);
    let mut i: usize = 0;
    while i < names.len()
        invariant
            nv == name_views(names@),
            i <= names@.len(),
            key_index_from(k@, nv, 0) == key_index_from(k@, nv, i as int),
        decreases names@.len() - i,
    {
        if key_names(k, names[i]) {
            return Some(i);
        }
        i = i + 1;
    }
    None
}

/// The field slots of a slot vector, as plain values.
pub open spec fn slot_views(s: Seq<Option<usize>>) -> Seq<Option<int>> {
    s.map_values(
        |o: Option<usize>|
            match o {
                Some(j) => Some(j as int),
                None => None,
            },
    )
}

/// For each of `names`, the position of the map entry that gives it.
pub fn find_fields(m: &Vec<(CborValue, CborValue)>, names: &Vec<&str>) -> (r: Option<Vec<Option<usize>>>)
    ensures
        r matches Some(s) ==> field_slots(dict_view(m@), name_views(names@), m@.len() as int)
            == Some(slot_views(s@)),
        r is None ==> field_slots(dict_view(m@), name_views(names@), m@.len() as int) is None,
{
    let ghost mv = dict_view(m@);
    let ghost nv = name_views(names@);
    let mut slots: Vec<Option<usize>> = Vec::new();
    let mut i: usize = 0;
    while i < names.len()
        invariant
            i <= names@.len(),
            slots@.len() == i,
            forall|j: int| 0 <= j < i ==> slots@[j] is None,
        decreases names@.len() - i,
    {
        slots.push(None);
        i = i + 1;
    }
    assert(slot_views(slots@) =~= Seq::new(nv.len(), |i: int| None::<int>));
    let mut n: usize = 0;
    while n < m.len()
        invariant
            mv == dict_view(m@),
            nv == name_views(names@),
            n <= m@.len(),
            slots@.len() == names@.len(),
            field_slots(mv, nv, n as int) == Some(slot_views(slots@)),
            forall|j: int| 0 <= j < slots@.len() ==> (#[trigger] slots@[j] matches Some(x) ==> x < n),
        decreases m@.len() - n,
    {
        let key = &m[n].0;
        assert(mv[n as int].0 == key@);
        if !key_is_name(key) {
            proof {
                lemma_field_slots_stay_none(mv, nv, n + 1, m@.len() as int);
            }
            return None;
        }
        match key_index(key, names) {
            None => {},
            Some(f) => {
                assert(key_index_from(key@, nv, 0) == Some(f as int));
                proof {
                    lemma_key_index_bounds(key@, nv, 0);
                }
                if slots[f].is_some() {
                    proof {
                        lemma_field_slots_stay_none(mv, nv, n + 1, m@.len() as int);
                    }
                    return None;
                }
                let ghost prev = slots@;
                slots.set(f, Some(n));
                assert(slot_views(slots@) =~= slot_views(prev).update(f as int, Some(n as int)));
            },
        }
        n = n + 1;
    }
    Some(slots)
}

} // verus!

verus! {

/// Every slot found points at one of the entries examined.
pub proof fn lemma_field_slots_bounds(m: Seq<(Cbor, Cbor)>, names: Seq<Seq<char>>, n: int)
    requires
        0 <= n <= m.len(),
    ensures
        field_slots(m, names, n) matches Some(s) ==> s.len() == names.len() && forall|i: int|
            0 <= i < s.len() ==> (#[trigger] s[i] matches Some(j) ==> 0 <= j < n),
    decreases n,
{
    if n > 0 {
        lemma_field_slots_bounds(m, names, n - 1);
        lemma_key_index_bounds(m[n - 1].0, names, 0);
    }
}

/// The entry value that a slot points at.
pub fn field_at<'a>(m: &'a Vec<(CborValue, CborValue)>, s: &Vec<Option<usize>>, i: usize) -> (r:
    Option<&'a CborValue>)
    requires
        i < s@.len(),
        forall|k: int| 0 <= k < s@.len() ==> (#[trigger] s@[k] matches Some(j) ==> j < m@.len()),
    ensures
        r matches Some(x) ==> slot_value(dict_view(m@), slot_views(s@)[i as int]) == Some(x@),
        r is None ==> slot_value(dict_view(m@), slot_views(s@)[i as int]) is None,
{
    match s[i] {
        Some(j) => Some(&m[j].1),
        None => None,
    }
}

/// Absent, or given as null.
pub fn absent(x: Option<&CborValue>) -> (r: bool)
    ensures
        r == (x is None || (x matches Some(v) && v@ == Cbor::Null)),
{
    match x {
        None => true,
        Some(CborValue::Null) => true,
        Some(_) => false,
    }
}

} // verus!

verus! {

#[verifier::external_type_specification]
#[verifier::external_body]
pub struct ExCiboriumValue(ciborium::Value);

/// What `ciborium` decodes from the front of `data`: the first CBOR item and
/// the number of bytes it spans, or the text of its error.
pub uninterp spec fn cbor_decoding(data: Seq<u8>) -> core::result::Result<(Cbor, nat), Seq<char>>;

/// The bytes `ciborium` writes for an item.
pub uninterp spec fn cbor_encoding(v: Cbor) -> Option<Seq<u8>>;

/// Reads one CBOR item from the front of `data` with `ciborium::de::from_reader`
/// and reports how far the reader got. Claimed: the item and length are the
/// named decoding of `data`, and the length is between 1 and `data.len()`;
/// on failure, the text is the named error text of `data`.
#[verifier::external_body]
pub(crate) fn cbor_read(data: &[u8]) -> (r: core::result::Result<(CborValue, usize), String>)
    ensures
        r matches Ok((v, n)) ==> (cbor_decoding(data@) matches Ok((c, k)) && c == v@ && k == n as nat)
            && 1 <= n <= data@.len(),
        r matches Err(e) ==> (cbor_decoding(data@) matches Err(t) && t == e@),
{
    let mut cursor = std::io::Cursor::new(data);
    match ciborium::de::from_reader::<Item, _>(&mut cursor) {
        Ok(v) => Ok((from_ciborium(v), cursor.position() as usize)),
        Err(e) => Err(e.to_string()),
    }
}

/// Writes one CBOR item with `ciborium::ser::into_writer`, for an item that
/// holds no float and only integers in CBOR's range (the only items that
/// `ciborium::Value` can hold as they are). Claimed: the bytes are the named
/// encoding of the item; and, for a plain item nested at most 64 deep, reading
/// them back with `cbor_read` gives the item and the length of the bytes,
/// whatever follows them. The source shows why: the writer gives arrays and
/// maps their length, so the reader takes exactly one item and stops, and
/// `ciborium::Value` reads each of these kinds back as it was written (its
/// reader refuses nesting beyond 256). The error text is not described.
#[verifier::external_body]
pub(crate) fn cbor_write(v: &CborValue) -> (r: core::result::Result<Vec<u8>, String>)
    requires
        cbor_writable(v@),
    ensures
        r matches Ok(b) ==> cbor_encoding(v@) == Some(b@),
        r is Err ==> cbor_encoding(v@) is None,
        r matches Ok(b) ==> (cbor_plain(v@, 64) ==> forall|rest: Seq<u8>|
            (#[trigger] cbor_decoding(b@ + rest) matches Ok((c, k)) && c == v@ && k == b@.len())),
{
    let mut buf: Vec<u8> = Vec::new();
    match ciborium::ser::into_writer(&to_ciborium(v), &mut buf) {
        Ok(()) => Ok(buf),
        Err(e) => Err(e.to_string()),
    }
}

/// Converts a decoded `ciborium::Value` item by item (a float keeps no value).
#[verifier::external_body]
fn from_ciborium(v: Item) -> CborValue {
    match v {
        Item::Integer(i) => CborValue::Integer(i.into()),
        Item::Bytes(b) => CborValue::Bytes(b),
        Item::Float(_) => CborValue::Float,
        Item::Text(t) => CborValue::Text(t),
        Item::Bool(b) => CborValue::Bool(b),
        Item::Tag(t, x) => CborValue::Tag(t, Box::new(from_ciborium(*x))),
        Item::Array(a) => CborValue::Array(a.into_iter().map(from_ciborium).collect()),
        Item::Map(m) => CborValue::Dict(
            m.into_iter().map(|(k, x)| (from_ciborium(k), from_ciborium(x))).collect(),
        ),
        _ => CborValue::Null,
    }
}

/// Converts an item to a `ciborium::Value` item by item, for an item that
/// holds no float and only integers in CBOR's range (`Integer::try_from`
/// fails outside -2^64 to 2^64 - 1), so neither the float arm nor a failed
/// conversion is ever taken.
#[verifier::external_body]
fn to_ciborium(v: &CborValue) -> (r: Item)
    requires
        cbor_writable(v@),
{
    match v {
        CborValue::Integer(i) => Item::Integer(ciborium::value::Integer::try_from(*i).unwrap()),
        CborValue::Bytes(b) => Item::Bytes(b.clone()),
        CborValue::Float => Item::Null,
        CborValue::Text(t) => Item::Text(t.clone()),
        CborValue::Bool(b) => Item::Bool(*b),
        CborValue::Null => Item::Null,
        CborValue::Tag(t, x) => Item::Tag(*t, Box::new(to_ciborium(x))),
        CborValue::Array(a) => Item::Array(a.iter().map(to_ciborium).collect()),
        CborValue::Dict(m) => Item::Map(
            m.iter().map(|(k, x)| (to_ciborium(k), to_ciborium(x))).collect(),
        ),
    }
}

} // verus!
