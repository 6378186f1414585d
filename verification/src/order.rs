//! Total orders over the library's keys, and the text order that Rust's
//! `str` uses (bytewise lexicographic order over the UTF-8 encoding).

use vstd::prelude::*;
use vstd::utf8::*;

verus! {

/// Outcome of comparing two keys.
#[derive(Debug, Clone, Copy, PartialEq, Eq)]
pub enum Rank {
    Before,
    Same,
    After,
}

/// Strict lexicographic order over byte sequences.
pub open spec fn bytes_before(a: Seq<u8>, b: Seq<u8>) -> bool
    decreases a.len(),
{
    if a.len() == 0 {
        b.len() > 0
    } else if b.len() == 0 {
        false
    } else if a[0] != b[0] {
        a[0] < b[0]
    } else {
        bytes_before(a.drop_first(), b.drop_first())
    }
}

/// The order of Rust's `str`: lexicographic order over the UTF-8 bytes.
pub open spec fn text_before(a: Seq<char>, b: Seq<char>) -> bool {
    bytes_before(encode_utf8(a), encode_utf8(b))
}

/// The lexicographic order of byte strings is a strict total order.
pub proof fn lemma_bytes_order(a: Seq<u8>, b: Seq<u8>, c: Seq<u8>)
    ensures
        !bytes_before(a, a),
        bytes_before(a, b) && bytes_before(b, c) ==> bytes_before(a, c),
        a == b || bytes_before(a, b) || bytes_before(b, a),
        !(bytes_before(a, b) && bytes_before(b, a)),
    decreases a.len(),
{
    if a.len() > 0 && b.len() > 0 && c.len() > 0 {
        lemma_bytes_order(a.drop_first(), b.drop_first(), c.drop_first());
    } else if a.len() > 0 && b.len() > 0 {
        lemma_bytes_order(a.drop_first(), b.drop_first(), b.drop_first());
    } else if a.len() > 0 {
        lemma_bytes_order(a.drop_first(), a.drop_first(), a.drop_first());
    }
    if a.len() > 0 && b.len() > 0 && a[0] == b[0] && a.drop_first() == b.drop_first() {
        assert(a =~= seq![a[0]] + a.drop_first());
        assert(b =~= seq![b[0]] + b.drop_first());
    }
    if a.len() == 0 && b.len() == 0 {
        assert(a =~= b);
    }
}

/// The order of texts, by their UTF-8 bytes, is a strict total order.
pub proof fn lemma_text_order(a: Seq<char>, b: Seq<char>, c: Seq<char>)
    ensures
        !text_before(a, a),
        text_before(a, b) && text_before(b, c) ==> text_before(a, c),
        a == b || text_before(a, b) || text_before(b, a),
        !(text_before(a, b) && text_before(b, a)),
{
    lemma_bytes_order(encode_utf8(a), encode_utf8(b), encode_utf8(c));
    encode_utf8_decode_utf8(a);
    encode_utf8_decode_utf8(b);
}

/// Compare two byte slices in lexicographic order.
pub fn bytes_rank(a: &[u8], b: &[u8]) -> (r: Rank)
    ensures
        (r == Rank::Before) == bytes_before(a@, b@),
        (r == Rank::Same) == (a@ == b@),
        (r == Rank::After) == bytes_before(b@, a@),
{
    proof {
        lemma_bytes_order(a@, b@, b@);
    }
    let mut i: usize = 0;
    assert(a@.skip(0) =~= a@);
    assert(b@.skip(0) =~= b@);
    while i < a.len() && i < b.len()
        invariant
            0 <= i <= a.len(),
            i <= b.len(),
            a@.take(i as int) == b@.take(i as int),
            bytes_before(a@, b@) == bytes_before(a@.skip(i as int), b@.skip(i as int)),
            bytes_before(b@, a@) == bytes_before(b@.skip(i as int), a@.skip(i as int)),
            a@ == b@ || bytes_before(a@, b@) || bytes_before(b@, a@),
            !(bytes_before(a@, b@) && bytes_before(b@, a@)),
        decreases a.len() - i,
    {
        let x = a[i];
        let y = b[i];
        assert(a@.skip(i as int)[0] == x);
        assert(b@.skip(i as int)[0] == y);
        if x < y {
            proof {
                if a@ == b@ {
                    assert(x == y);
                }
            }
            return Rank::Before;
        }
        if x > y {
            proof {
                if a@ == b@ {
                    assert(x == y);
                }
            }
            return Rank::After;
        }
        assert(a@.skip(i as int).drop_first() =~= a@.skip(i + 1));
        assert(b@.skip(i as int).drop_first() =~= b@.skip(i + 1));
        assert(a@.take(i + 1) =~= a@.take(i as int).push(x));
        assert(b@.take(i + 1) =~= b@.take(i as int).push(y));
        i = i + 1;
    }
    if a.len() < b.len() {
        proof {
            if a@ == b@ {
                assert(false);
            }
        }
        Rank::Before
    } else if a.len() > b.len() {
        proof {
            if a@ == b@ {
                assert(false);
            }
        }
        Rank::After
    } else {
        assert(a@ =~= a@.take(i as int));
        assert(b@ =~= b@.take(i as int));
        Rank::Same
    }
}

/// Compare two texts in the order of Rust's `str`.
pub fn text_rank(a: &str, b: &str) -> (r: Rank)
    ensures
        (r == Rank::Before) == text_before(a@, b@),
        (r == Rank::Same) == (a@ == b@),
        (r == Rank::After) == text_before(b@, a@),
{
    let x = a.as_bytes();
    let y = b.as_bytes();
    proof {
        encode_utf8_decode_utf8(a@);
        encode_utf8_decode_utf8(b@);
    }
    bytes_rank(x, y)
}

/// Whether two texts hold the same characters.
pub fn text_eq(a: &str, b: &str) -> (r: bool)
    ensures
        r == (a@ == b@),
{
    let x = a.as_bytes();
    let y = b.as_bytes();
    proof {
        encode_utf8_decode_utf8(a@);
        encode_utf8_decode_utf8(b@);
    }
    if x.len() != y.len() {
        return false;
    }
    let mut i: usize = 0;
    while i < x.len()
        invariant
            x.len() == y.len(),
            x@ == encode_utf8(a@),
            y@ == encode_utf8(b@),
            0 <= i <= x.len(),
            x@.take(i as int) == y@.take(i as int),
        decreases x.len() - i,
    {
        if x[i] != y[i] {
            return false;
        }
        assert(x@.take(i + 1) =~= x@.take(i as int).push(x@[i as int]));
        assert(y@.take(i + 1) =~= y@.take(i as int).push(y@[i as int]));
        i = i + 1;
    }
    assert(x@ =~= x@.take(i as int));
    assert(y@ =~= y@.take(i as int));
    true
}

} // verus!

verus! {

/// The view of an optional text.
pub open spec fn opt_text(o: Option<String>) -> Option<Seq<char>> {
    match o {
        Some(s) => Some(s@),
        None => None,
    }
}

/// The views of a sequence of texts.
pub open spec fn texts(v: Seq<String>) -> Seq<Seq<char>> {
    v.map_values(|s: String| s@)
}

/// An owned copy of a text.
pub fn owned(s: &str) -> (r: String)
    ensures
        r@ == s@,
{
    s.to_owned()
}

/// A copy of an optional text.
pub fn copy_opt(o: &Option<String>) -> (r: Option<String>)
    ensures
        r == *o,
        opt_text(r) == opt_text(*o),
{
    match o {
        Some(s) => Some(s.clone()),
        None => None,
    }
}

/// A copy of a vector of texts.
pub fn copy_texts(v: &Vec<String>) -> (r: Vec<String>)
    ensures
        r@ == v@,
        texts(r@) == texts(v@),
{
    let mut r: Vec<String> = Vec::new();
    let mut i: usize = 0;
    while i < v.len()
        invariant
            i <= v@.len(),
            r@ == v@.take(i as int),
        decreases v.len() - i,
    {
        r.push(v[i].clone());
        assert(v@.take(i + 1) =~= v@.take(i as int).push(v@[i as int]));
        i = i + 1;
    }
    assert(v@.take(i as int) =~= v@);
    r
}

/// Whether two optional texts are equal.
pub fn opt_text_eq(a: &Option<String>, b: &Option<String>) -> (r: bool)
    ensures
        r == (opt_text(*a) == opt_text(*b)),
{
    match (a, b) {
        (Some(x), Some(y)) => text_eq(x.as_str(), y.as_str()),
        (None, None) => true,
        _ => false,
    }
}

/// Order on optional texts: absent first, then by text order.
pub open spec fn opt_text_before(a: Option<Seq<char>>, b: Option<Seq<char>>) -> bool {
    match (a, b) {
        (None, Some(_)) => true,
        (Some(x), Some(y)) => text_before(x, y),
        _ => false,
    }
}

/// The order of optional texts, absence first, is a strict total order.
pub proof fn lemma_opt_text_order(a: Option<Seq<char>>, b: Option<Seq<char>>, c: Option<Seq<char>>)
    ensures
        !opt_text_before(a, a),
        opt_text_before(a, b) && opt_text_before(b, c) ==> opt_text_before(a, c),
        a == b || opt_text_before(a, b) || opt_text_before(b, a),
        !(opt_text_before(a, b) && opt_text_before(b, a)),
{
    match (a, b, c) {
        (Some(x), Some(y), Some(z)) => lemma_text_order(x, y, z),
        (Some(x), Some(y), None) => lemma_text_order(x, y, y),
        (Some(x), None, Some(z)) => lemma_text_order(x, z, z),
        (None, Some(y), Some(z)) => lemma_text_order(y, z, z),
        (Some(x), None, None) => lemma_text_order(x, x, x),
        (None, Some(y), None) => lemma_text_order(y, y, y),
        (None, None, Some(z)) => lemma_text_order(z, z, z),
        (None, None, None) => {},
    }
}

pub fn opt_text_rank(a: &Option<String>, b: &Option<String>) -> (r: Rank)
    ensures
        (r == Rank::Before) == opt_text_before(opt_text(*a), opt_text(*b)),
        (r == Rank::Same) == (opt_text(*a) == opt_text(*b)),
        (r == Rank::After) == opt_text_before(opt_text(*b), opt_text(*a)),
{
    match (a, b) {
        (Some(x), Some(y)) => text_rank(x.as_str(), y.as_str()),
        (None, None) => Rank::Same,
        (None, Some(_)) => Rank::Before,
        (Some(_), None) => Rank::After,
    }
}

} // verus!
