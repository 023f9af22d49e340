//! Byte-level facts about UTF-8 strings that the string functions rely on.
use vstd::prelude::*;
use vstd::string::StringSliceAdditionalSpecFns;
use vstd::std_specs::iter::IteratorSpec;
use vstd::utf8::*;

verus! {

broadcast use vstd::utf8::group_utf8_lib;

/// The byte that encodes a line feed.
pub open spec fn newline_byte() -> u8 {
    0x0Au8
}

/// The byte that encodes a space.
pub open spec fn space_byte() -> u8 {
    0x20u8
}

/// `i` is the lowest index below `m` that holds the byte `x`.
pub open spec fn is_first_byte_before(b: Seq<u8>, x: u8, i: int, m: int) -> bool {
    &&& 0 <= i < m
    &&& i < b.len()
    &&& b[i] == x
    &&& forall|j: int| 0 <= j < i ==> b[j] != x
}

/// `i` is the highest index below `m` that holds the byte `x`.
pub open spec fn is_last_byte_before(b: Seq<u8>, x: u8, i: int, m: int) -> bool {
    &&& 0 <= i < m
    &&& i < b.len()
    &&& b[i] == x
    &&& forall|j: int| i < j < m && j < b.len() ==> b[j] != x
}

/// Some index below `m` holds the byte `x`.
pub open spec fn byte_before(b: Seq<u8>, x: u8, m: int) -> bool {
    exists|i: int| 0 <= i < m && i < b.len() && b[i] == x
}

/// The lowest index below `m` that holds `x` (meaningful when [byte_before] holds).
pub open spec fn first_byte_before(b: Seq<u8>, x: u8, m: int) -> int {
    choose|i: int| is_first_byte_before(b, x, i, m)
}

/// The highest index below `m` that holds `x` (meaningful when [byte_before] holds).
pub open spec fn last_byte_before(b: Seq<u8>, x: u8, m: int) -> int {
    choose|i: int| is_last_byte_before(b, x, i, m)
}

pub proof fn lemma_first_byte_unique(b: Seq<u8>, x: u8, i: int, k: int, m: int)
    requires
        is_first_byte_before(b, x, i, m),
        is_first_byte_before(b, x, k, m),
    ensures
        i == k,
{
    if i < k {
        assert(b[i] != x);
    } else if k < i {
        assert(b[k] != x);
    }
}

pub proof fn lemma_last_byte_unique(b: Seq<u8>, x: u8, i: int, k: int, m: int)
    requires
        is_last_byte_before(b, x, i, m),
        is_last_byte_before(b, x, k, m),
    ensures
        i == k,
{
    if i < k {
        assert(b[k] != x);
    } else if k < i {
        assert(b[i] != x);
    }
}

/// When some index below `m` holds `x`, the chosen first one is the first one.
pub proof fn lemma_first_byte_exists(b: Seq<u8>, x: u8, m: int)
    requires
        byte_before(b, x, m),
    ensures
        is_first_byte_before(b, x, first_byte_before(b, x, m), m),
    decreases m,
{
    let w = choose|i: int| 0 <= i < m && i < b.len() && b[i] == x;
    if byte_before(b, x, w) {
        lemma_first_byte_exists(b, x, w);
        let f = first_byte_before(b, x, w);
        assert(is_first_byte_before(b, x, f, m));
    } else {
        assert(is_first_byte_before(b, x, w, m));
    }
}

/// When some index below `m` holds `x`, the chosen last one is the last one.
pub proof fn lemma_last_byte_exists(b: Seq<u8>, x: u8, m: int)
    requires
        byte_before(b, x, m),
        m <= b.len(),
    ensures
        is_last_byte_before(b, x, last_byte_before(b, x, m), m),
    decreases m,
{
    if b[m - 1] == x {
        assert(is_last_byte_before(b, x, m - 1, m));
    } else {
        assert(byte_before(b, x, m - 1)) by {
            let w = choose|i: int| 0 <= i < m && i < b.len() && b[i] == x;
            assert(w < m - 1);
        }
        lemma_last_byte_exists(b, x, m - 1);
        let l = last_byte_before(b, x, m - 1);
        assert(is_last_byte_before(b, x, l, m));
    }
}

/// The position of an ASCII byte in a string's encoding is a char boundary.
pub proof fn lemma_ascii_byte_is_boundary(s: &str, i: int)
    requires
        0 <= i < s.spec_bytes().len(),
        s.spec_bytes()[i] <= 0x7f,
    ensures
        is_char_boundary(s.spec_bytes(), i),
{
    let b = s.spec_bytes();
    assert(valid_utf8(b));
    assert(is_leading_byte_width_1(b[i]));
}

/// A string whose encoding starts with an ASCII byte has a char boundary after that byte.
pub proof fn lemma_after_ascii_is_boundary(s: &str)
    requires
        s.spec_bytes().len() > 0,
        s.spec_bytes()[0] <= 0x7f,
    ensures
        is_char_boundary(s.spec_bytes(), 1),
{
    let b = s.spec_bytes();
    assert(valid_utf8(b));
    assert(is_leading_byte_width_1(b[0]));
    assert(length_of_first_scalar(b) == 1);
    reveal_with_fuel(is_char_boundary, 2);
    assert(is_char_boundary(pop_first_scalar(b), 0));
}

/// Every string's encoding has char boundaries at its start and its end.
pub proof fn lemma_ends_are_boundaries(s: &str)
    ensures
        is_char_boundary(s.spec_bytes(), 0),
        is_char_boundary(s.spec_bytes(), s.spec_bytes().len() as int),
{
    assert(valid_utf8(s.spec_bytes()));
}

/// The UTF-8 encodings of a prefix and of a suffix of `s` are no longer
/// than that of `s`.
pub proof fn lemma_encode_take_skip_len(s: Seq<char>, k: int)
    requires
        0 <= k <= s.len(),
    ensures
        encode_utf8(s.take(k)).len() <= encode_utf8(s).len(),
        encode_utf8(s.skip(k)).len() <= encode_utf8(s).len(),
    decreases s.len(),
{
    if k > 0 {
        lemma_encode_take_skip_len(s.drop_first(), k - 1);
        assert(s.take(k).drop_first() =~= s.drop_first().take(k - 1));
        assert(s.take(k)[0] == s[0]);
        assert(s.skip(k) =~= s.drop_first().skip(k - 1));
    } else {
        assert(s.skip(0) =~= s);
        assert(s.take(0) =~= Seq::<char>::empty());
    }
}

} // verus!

verus! {

/// The characters of `s`, in order.
pub fn chars_vec(s: &str) -> (v: Vec<char>)
    ensures
        v@ == s@,
{
    let mut it = s.chars();
    let mut v: Vec<char> = Vec::new();
    broadcast use vstd::string::group_string_axioms;

    loop
        invariant
            it.remaining() == s@.skip(v@.len() as int),
            v@ == s@.take(v@.len() as int),
            v@.len() <= s@.len(),
            it.obeys_prophetic_iter_laws(),
            it.decrease() is Some,
        ensures
            v@ == s@,
        decreases it.decrease()->0,
    {
        match it.next() {
            Some(c) => {
                v.push(c);
            },
            None => {
                break;
            },
        }
    }
    v
}

} // verus!
