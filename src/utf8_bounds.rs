use vstd::prelude::*;
use vstd::utf8::*;

verus! {

/// In valid UTF-8, the byte after an ASCII byte is never a continuation byte.
pub proof fn lemma_after_ascii(b: Seq<u8>, i: int)
    requires
        valid_utf8(b),
        0 <= i,
        i + 1 < b.len(),
        b[i] < 128,
    ensures
        !is_continuation_byte(b[i + 1]),
{
    is_char_boundary_iff_not_is_continuation_byte(b, i);
    valid_utf8_split(b, i);
    let t = b.subrange(i, b.len() as int);
    assert(t[0] == b[i]);
    assert(valid_first_scalar(t));
    assert(length_of_first_scalar(t) == 1);
    let u = pop_first_scalar(t);
    assert(u =~= b.subrange(i + 1, b.len() as int));
    assert(valid_utf8(u));
    assert(u.len() > 0);
    assert(valid_first_scalar(u));
    assert(u[0] == b[i + 1]);
}

/// A stretch of valid UTF-8 that starts at the front or after an ASCII byte, and ends at the
/// end or at an ASCII byte, is valid UTF-8 too.
pub proof fn lemma_ascii_delimited(b: Seq<u8>, s: int, e: int)
    requires
        valid_utf8(b),
        0 <= s <= e <= b.len(),
        s == 0 || b[s - 1] < 128,
        e == b.len() || b[e] < 128,
    ensures
        valid_utf8(b.subrange(s, e)),
{
    let p = b.subrange(0, e);
    if e < b.len() {
        is_char_boundary_iff_not_is_continuation_byte(b, e);
        valid_utf8_split(b, e);
    } else {
        assert(p =~= b);
    }
    assert(valid_utf8(p));
    if s == e {
        assert(b.subrange(s, e).len() == 0);
    } else if s == 0 {
        assert(b.subrange(s, e) =~= p);
    } else {
        lemma_after_ascii(b, s - 1);
        assert(p[s] == b[s]);
        is_char_boundary_iff_not_is_continuation_byte(p, s);
        valid_utf8_split(p, s);
        assert(p.subrange(s, p.len() as int) =~= b.subrange(s, e));
    }
}

pub proof fn lemma_ascii_byte_valid(x: u8)
    requires
        x < 128,
    ensures
        valid_utf8(seq![x]),
{
    let s = seq![x];
    assert(valid_first_scalar(s));
    assert(pop_first_scalar(s) =~= Seq::<u8>::empty());
    reveal_with_fuel(valid_utf8, 2);
}

} // verus!
