//! The order in which a record keeps its field names: that of their UTF-8
//! bytes, which is how Rust itself orders strings.

use vstd::prelude::*;
use vstd::string::*;
use vstd::utf8::{encode_utf8, encode_utf8_decode_utf8};

verus! {

/// Whether `a` comes before `b`, looking only at the bytes from place `i` on.
pub open spec fn bytes_before_from(a: Seq<u8>, b: Seq<u8>, i: int) -> bool
    decreases a.len() - i,
{
    if i < 0 || i >= b.len() {
        false
    } else if i >= a.len() {
        true
    } else if a[i] != b[i] {
        a[i] < b[i]
    } else {
        bytes_before_from(a, b, i + 1)
    }
}

/// Whether `a` comes before `b` in dictionary order: at the first place where
/// they differ `a` has the smaller byte, or `a` ends there and `b` goes on.
pub open spec fn bytes_before(a: Seq<u8>, b: Seq<u8>) -> bool {
    bytes_before_from(a, b, 0)
}

/// Whether the name `a` comes before the name `b`.
pub open spec fn name_before(a: Seq<char>, b: Seq<char>) -> bool {
    bytes_before(encode_utf8(a), encode_utf8(b))
}

proof fn lemma_not_before_itself_from(a: Seq<u8>, i: int)
    requires
        0 <= i,
    ensures
        !bytes_before_from(a, a, i),
    decreases a.len() - i,
{
    if i < a.len() {
        lemma_not_before_itself_from(a, i + 1);
    }
}

proof fn lemma_before_chain_from(a: Seq<u8>, b: Seq<u8>, c: Seq<u8>, i: int)
    requires
        0 <= i,
        bytes_before_from(a, b, i),
        bytes_before_from(b, c, i),
    ensures
        bytes_before_from(a, c, i),
    decreases a.len() - i,
{
    if i < a.len() && a[i] == b[i] && b[i] == c[i] {
        lemma_before_chain_from(a, b, c, i + 1);
    }
}

/// No name comes before itself.
pub proof fn lemma_name_not_before_itself(a: Seq<char>)
    ensures
        !name_before(a, a),
{
    lemma_not_before_itself_from(encode_utf8(a), 0);
}

/// Coming before carries over: if `a` is before `b` and `b` before `c`, then
/// `a` is before `c`.
pub proof fn lemma_name_before_chain(a: Seq<char>, b: Seq<char>, c: Seq<char>)
    requires
        name_before(a, b),
        name_before(b, c),
    ensures
        name_before(a, c),
{
    lemma_before_chain_from(encode_utf8(a), encode_utf8(b), encode_utf8(c), 0);
}

/// Where one name stands relative to another.
#[derive(Clone, Copy, Debug, PartialEq, Eq, Structural)]
pub enum Place {
    Before,
    Same,
    After,
}

/// Finds where the name `a` stands relative to the name `b`.
#[verifier::loop_isolation(false)]
pub fn place_of(a: &str, b: &str) -> (place: Place)
    ensures
        place == Place::Before <==> name_before(a@, b@),
        place == Place::Same <==> a@ == b@,
        place == Place::After <==> name_before(b@, a@),
{
    let x = a.as_bytes();
    let y = b.as_bytes();
    let ghost xs = encode_utf8(a@);
    let ghost ys = encode_utf8(b@);
    proof {
        encode_utf8_decode_utf8(a@);
        encode_utf8_decode_utf8(b@);
        lemma_name_not_before_itself(a@);
    }
    let mut i: usize = 0;
    while i < x.len() && i < y.len()
        invariant
            x@ == xs,
            y@ == ys,
            i <= x.len(),
            i <= y.len(),
            forall|j: int| 0 <= j < i ==> xs[j] == ys[j],
            bytes_before(xs, ys) == bytes_before_from(xs, ys, i as int),
            bytes_before(ys, xs) == bytes_before_from(ys, xs, i as int),
        decreases x.len() - i,
    {
        if x[i] < y[i] {
            assert(xs != ys);
            return Place::Before;
        }
        if x[i] > y[i] {
            assert(xs != ys);
            return Place::After;
        }
        i += 1;
    }
    if i < y.len() {
        assert(xs.len() != ys.len());
        Place::Before
    } else if i < x.len() {
        assert(xs.len() != ys.len());
        Place::After
    } else {
        assert(xs =~= ys);
        Place::Same
    }
}

} // verus!
