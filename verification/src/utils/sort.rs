//! The order of texts, and sorting by it.

use crate::config::texts;
use crate::text::copy_text;
use vstd::prelude::*;
use vstd::utf8::encode_utf8;

verus! {

/// Whether one byte string comes before another or is the same.
pub open spec fn bytes_le(a: Seq<u8>, b: Seq<u8>) -> bool
    decreases a.len(),
{
    if a.len() == 0 {
        true
    } else if b.len() == 0 {
        false
    } else if a[0] != b[0] {
        a[0] < b[0]
    } else {
        bytes_le(a.skip(1), b.skip(1))
    }
}

/// Of two byte strings, one comes before the other or is the same.
pub proof fn lemma_bytes_le_total(a: Seq<u8>, b: Seq<u8>)
    ensures
        bytes_le(a, b) || bytes_le(b, a),
    decreases a.len(),
{
    if a.len() > 0 && b.len() > 0 && a[0] == b[0] {
        lemma_bytes_le_total(a.skip(1), b.skip(1));
    }
}

/// The order of byte strings is transitive.
pub proof fn lemma_bytes_le_trans(a: Seq<u8>, b: Seq<u8>, c: Seq<u8>)
    requires
        bytes_le(a, b),
        bytes_le(b, c),
    ensures
        bytes_le(a, c),
    decreases a.len(),
{
    if a.len() > 0 && b.len() > 0 && c.len() > 0 && a[0] == b[0] && b[0] == c[0] {
        lemma_bytes_le_trans(a.skip(1), b.skip(1), c.skip(1));
    }
}

/// Whether one byte string comes before another or is the same.
pub fn le_bytes(a: &[u8], b: &[u8]) -> (r: bool)
    ensures
        r == bytes_le(a@, b@),
{
    let mut i: usize = 0;
    assert(a@.skip(0) =~= a@);
    assert(b@.skip(0) =~= b@);
    while i < a.len() && i < b.len() && a[i] == b[i]
        invariant
            i <= a@.len(),
            i <= b@.len(),
            bytes_le(a@, b@) == bytes_le(a@.skip(i as int), b@.skip(i as int)),
        decreases a@.len() - i,
    {
        assert(a@.skip(i as int).skip(1) =~= a@.skip(i + 1));
        assert(b@.skip(i as int).skip(1) =~= b@.skip(i + 1));
        i += 1;
    }
    if i == a.len() {
        true
    } else if i == b.len() {
        false
    } else {
        a[i] < b[i]
    }
}

/// Byte strings that come before each other are the same.
pub proof fn lemma_bytes_le_antisym(a: Seq<u8>, b: Seq<u8>)
    requires
        bytes_le(a, b),
        bytes_le(b, a),
    ensures
        a == b,
    decreases a.len(),
{
    if a.len() > 0 && b.len() > 0 {
        lemma_bytes_le_antisym(a.skip(1), b.skip(1));
        assert(a =~= seq![a[0]] + a.skip(1));
        assert(b =~= seq![b[0]] + b.skip(1));
    } else {
        assert(a =~= b);
    }
}

/// Whether one text comes before another, byte by byte, or is the same.
pub open spec fn text_le(a: Seq<char>, b: Seq<char>) -> bool {
    bytes_le(encode_utf8(a), encode_utf8(b))
}

/// Texts in order.
pub open spec fn sorted_texts(list: Seq<Seq<char>>) -> bool {
    forall|i: int, j: int| 0 <= i < j < list.len() ==> text_le(#[trigger] list[i], #[trigger] list[j])
}

/// Puts a text where it belongs in a list that is in order.
fn insert_text(out: &mut Vec<String>, x: String)
    requires
        sorted_texts(texts(old(out)@)),
    ensures
        sorted_texts(texts(final(out)@)),
        texts(final(out)@).to_multiset() == texts(old(out)@).to_multiset().insert(x@),
{
    let ghost xv = x@;
    let mut p: usize = out.len();
    while p > 0 && !le_bytes(out[p - 1].as_str().as_bytes(), x.as_str().as_bytes())
        invariant
            p <= out@.len(),
            out@ == old(out)@,
            x@ == xv,
            forall|k: int| p <= k < out@.len() ==> !text_le(#[trigger] texts(out@)[k], xv),
        decreases p,
    {
        assert(texts(out@)[p - 1] == out@[p - 1]@);
        p -= 1;
    }
    let ghost before = texts(out@);
    if p > 0 {
        assert(before[p - 1] == out@[p - 1]@);
    }
    assert(p > 0 ==> text_le(before[p - 1], xv));
    out.insert(p, x);
    let ghost after = texts(out@);
    assert(after =~= before.insert(p as int, xv));
    assert forall|a: int, b: int| 0 <= a < b < after.len() implies text_le(
        #[trigger] after[a],
        #[trigger] after[b],
    ) by {
        if a < p && b == p {
            if a < p - 1 {
                assert(text_le(before[a], before[p - 1]));
                lemma_bytes_le_trans(
                    encode_utf8(before[a]),
                    encode_utf8(before[p - 1]),
                    encode_utf8(xv),
                );
            }
        } else if a == p {
            assert(!text_le(before[b - 1], xv));
            lemma_bytes_le_total(encode_utf8(before[b - 1]), encode_utf8(xv));
        } else if a < p && b > p {
            assert(text_le(before[a], before[b - 1]));
        } else if a > p {
            assert(text_le(before[a - 1], before[b - 1]));
        } else {
            assert(text_le(before[a], before[b]));
        }
    }
    proof {
        vstd::seq_lib::to_multiset_insert(before, p as int, xv);
    }
}

/// Sorts texts.
pub fn sort_texts(list: &Vec<String>) -> (out: Vec<String>)
    ensures
        sorted_texts(texts(out@)),
        texts(out@).to_multiset() == texts(list@).to_multiset(),
{
    let mut out: Vec<String> = Vec::new();
    let mut i: usize = 0;
    let ghost all = texts(list@);
    assert(texts(out@) =~= all.take(0));
    while i < list.len()
        invariant
            i <= list@.len(),
            all == texts(list@),
            sorted_texts(texts(out@)),
            texts(out@).to_multiset() == all.take(i as int).to_multiset(),
        decreases list@.len() - i,
    {
        let x = copy_text(list[i].as_str());
        assert(x@ == all[i as int]);
        insert_text(&mut out, x);
        proof {
            assert(all.take(i + 1) =~= all.take(i as int).push(all[i as int]));
            vstd::seq_lib::to_multiset_build(all.take(i as int), all[i as int]);
        }
        i += 1;
    }
    assert(all.take(all.len() as int) =~= all);
    out
}

/// A list with the same members as one without repetitions has no repetitions either.
pub proof fn lemma_same_members<A>(a: Seq<A>, b: Seq<A>)
    requires
        a.to_multiset() == b.to_multiset(),
        a.no_duplicates(),
    ensures
        b.no_duplicates(),
        forall|x: A| #[trigger] b.contains(x) <==> a.contains(x),
{
    a.lemma_multiset_has_no_duplicates();
    b.lemma_multiset_has_no_duplicates_conv();
    assert forall|x: A| #[trigger] b.contains(x) <==> a.contains(x) by {
        vstd::seq_lib::to_multiset_contains(a, x);
        vstd::seq_lib::to_multiset_contains(b, x);
    }
}

/// Texts are ordered by the first byte in which they differ, and a text comes before those that
/// go on behind it.
pub proof fn law_order_of_texts(lead: Seq<u8>, a: u8, b: u8, more: Seq<u8>, rest: Seq<u8>)
    ensures
        bytes_le(lead, lead + more),
        more.len() > 0 ==> !bytes_le(lead + more, lead),
        a < b ==> bytes_le(lead + seq![a] + more, lead + seq![b] + rest),
        a < b ==> !bytes_le(lead + seq![b] + rest, lead + seq![a] + more),
    decreases lead.len(),
{
    let x = lead + seq![a] + more;
    let y = lead + seq![b] + rest;
    if lead.len() > 0 {
        let tail = lead.skip(1);
        law_order_of_texts(tail, a, b, more, rest);
        assert((lead + more).skip(1) =~= tail + more);
        assert(x.skip(1) =~= tail + seq![a] + more);
        assert(y.skip(1) =~= tail + seq![b] + rest);
    }
}

} // verus!
