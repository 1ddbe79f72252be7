use vstd::prelude::*;
use vstd::relations::{sorted_by, total_ordering};
use crate::strings::views;

verus! {

/// Lexicographic order on texts, character by character (the order `Ord`
/// gives strings: UTF-8 byte order agrees with code-point order).
pub open spec fn text_le(a: Seq<char>, b: Seq<char>) -> bool
    decreases a.len(),
{
    if a.len() == 0 {
        true
    } else if b.len() == 0 {
        false
    } else if a[0] != b[0] {
        (a[0] as u32) < (b[0] as u32)
    } else {
        text_le(a.drop_first(), b.drop_first())
    }
}

/// The order of texts as a relation.
pub open spec fn text_order() -> spec_fn(Seq<char>, Seq<char>) -> bool {
    |a: Seq<char>, b: Seq<char>| text_le(a, b)
}

proof fn lemma_text_le_reflexive(a: Seq<char>)
    ensures
        text_le(a, a),
    decreases a.len(),
{
    if a.len() > 0 {
        lemma_text_le_reflexive(a.drop_first());
    }
}

proof fn lemma_text_le_antisymmetric(a: Seq<char>, b: Seq<char>)
    requires
        text_le(a, b),
        text_le(b, a),
    ensures
        a == b,
    decreases a.len(),
{
    if a.len() > 0 && b.len() > 0 {
        if a[0] == b[0] {
            lemma_text_le_antisymmetric(a.drop_first(), b.drop_first());
            assert(a =~= seq![a[0]] + a.drop_first());
            assert(b =~= seq![b[0]] + b.drop_first());
        } else {
            vstd::utf8::char_u32_cast(a[0], a[0] as u32);
            vstd::utf8::char_u32_cast(b[0], b[0] as u32);
        }
    } else {
        assert(a =~= b);
    }
}

/// The order of texts is transitive.
pub proof fn lemma_text_le_transitive(a: Seq<char>, b: Seq<char>, c: Seq<char>)
    requires
        text_le(a, b),
        text_le(b, c),
    ensures
        text_le(a, c),
    decreases a.len(),
{
    if a.len() > 0 && b.len() > 0 && c.len() > 0 && a[0] == b[0] && b[0] == c[0] {
        lemma_text_le_transitive(a.drop_first(), b.drop_first(), c.drop_first());
    }
}

/// Any two texts are ordered one way or the other.
pub proof fn lemma_text_le_total(a: Seq<char>, b: Seq<char>)
    ensures
        text_le(a, b) || text_le(b, a),
    decreases a.len(),
{
    if a.len() > 0 && b.len() > 0 {
        if a[0] == b[0] {
            lemma_text_le_total(a.drop_first(), b.drop_first());
        } else {
            vstd::utf8::char_u32_cast(a[0], a[0] as u32);
            vstd::utf8::char_u32_cast(b[0], b[0] as u32);
        }
    }
}

/// The order on texts is a total order.
pub proof fn lemma_text_order_total()
    ensures
        total_ordering(text_order()),
{
    assert forall|a: Seq<char>| #[trigger] text_order()(a, a) by {
        lemma_text_le_reflexive(a);
    }
    assert forall|a: Seq<char>, b: Seq<char>|
        #[trigger] text_order()(a, b) && #[trigger] text_order()(b, a) implies a == b by {
        lemma_text_le_antisymmetric(a, b);
    }
    assert forall|a: Seq<char>, b: Seq<char>, c: Seq<char>|
        #[trigger] text_order()(a, b) && #[trigger] text_order()(b, c) implies text_order()(a, c) by {
        lemma_text_le_transitive(a, b, c);
    }
    assert forall|a: Seq<char>, b: Seq<char>|
        #[trigger] text_order()(a, b) || #[trigger] text_order()(b, a) by {
        lemma_text_le_total(a, b);
    }
}

/// Whether `a` comes no later than `b`.
pub fn text_le_exec(a: &str, b: &str) -> (r: bool)
    ensures
        r == text_le(a@, b@),
{
    let n = a.unicode_len();
    let m = b.unicode_len();
    let mut i: usize = 0;
    assert(a@.skip(0) =~= a@);
    assert(b@.skip(0) =~= b@);
    loop
        invariant
            n == a@.len(),
            m == b@.len(),
            i <= n,
            i <= m,
            text_le(a@, b@) == text_le(a@.skip(i as int), b@.skip(i as int)),
        decreases n - i,
    {
        let ghost sa = a@.skip(i as int);
        let ghost sb = b@.skip(i as int);
        if i == n {
            return true;
        }
        if i == m {
            return false;
        }
        let x = a.get_char(i);
        let y = b.get_char(i);
        assert(sa[0] == x && sb[0] == y);
        if x != y {
            return (x as u32) < (y as u32);
        }
        assert(sa.drop_first() =~= a@.skip(i + 1));
        assert(sb.drop_first() =~= b@.skip(i + 1));
        i = i + 1;
    }
}

/// The texts in ascending order: the same texts, each as often, sorted.
pub fn sort_texts(names: Vec<String>) -> (r: Vec<String>)
    ensures
        sorted_by(views(r@), text_order()),
        views(r@).to_multiset() == views(names@).to_multiset(),
{
    broadcast use vstd::seq_lib::group_to_multiset_ensures;

    let mut out: Vec<String> = Vec::new();
    let mut i: usize = 0;
    assert(views(out@) =~= views(names@).take(0));
    while i < names.len()
        invariant
            i <= names@.len(),
            sorted_by(views(out@), text_order()),
            views(out@).to_multiset() == views(names@).take(i as int).to_multiset(),
        decreases names@.len() - i,
    {
        let name = names[i].clone();
        let ghost old_out = views(out@);
        let mut p: usize = 0;
        while p < out.len() && text_le_exec(out[p].as_str(), name.as_str())
            invariant
                old_out == views(out@),
                p <= out@.len(),
                forall|k: int| 0 <= k < p ==> text_le(#[trigger] old_out[k], name@),
            decreases out@.len() - p,
        {
            p = p + 1;
        }
        proof {
            lemma_text_order_total();
            assert forall|k: int| p <= k < old_out.len() implies text_le(name@, #[trigger] old_out[k]) by {
                if p < old_out.len() {
                    assert(!text_le(old_out[p as int], name@));
                    lemma_text_le_total(old_out[p as int], name@);
                    assert(text_order()(old_out[p as int], old_out[k]));
                    lemma_text_le_transitive(name@, old_out[p as int], old_out[k]);
                }
            }
        }
        out.insert(p, name);
        proof {
            assert(views(out@) =~= old_out.insert(p as int, name@));
            let nv = views(out@);
            assert forall|a: int, b: int| 0 <= a < b < nv.len() implies #[trigger] text_order()(nv[a], nv[b]) by {
                if a < p && b < p {
                    assert(text_order()(old_out[a], old_out[b]));
                } else if a < p && b == p {
                } else if a < p {
                    assert(text_le(old_out[a], name@));
                    lemma_text_le_transitive(old_out[a], name@, old_out[b - 1]);
                } else if a == p {
                } else {
                    assert(text_order()(old_out[a - 1], old_out[b - 1]));
                }
            }
            assert(views(names@).take(i + 1) =~= views(names@).take(i as int).push(name@));
            vstd::seq_lib::to_multiset_insert(old_out, p as int, name@);
            vstd::seq_lib::to_multiset_build(views(names@).take(i as int), name@);
        }
        i = i + 1;
    }
    assert(views(names@).take(names@.len() as int) =~= views(names@));
    out
}

/// The installed app ids, in ascending order.
pub fn sort_app_ids(app_dirs: Vec<String>) -> (r: Vec<String>)
    ensures
        sorted_by(views(r@), text_order()),
        views(r@).to_multiset() == views(app_dirs@).to_multiset(),
{
    sort_texts(app_dirs)
}

/// Sorting gives the one sorted arrangement of its input: any two sorted
/// lists holding the same texts are equal.
pub proof fn lemma_sorted_texts_unique(x: Seq<Seq<char>>, y: Seq<Seq<char>>)
    requires
        sorted_by(x, text_order()),
        sorted_by(y, text_order()),
        x.to_multiset() == y.to_multiset(),
    ensures
        x == y,
{
    lemma_text_order_total();
    vstd::seq_lib::lemma_sorted_unique(x, y, text_order());
}

} // verus!
