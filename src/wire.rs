use vstd::prelude::*;
use vstd::utf8::*;
use crate::header::{HeaderEntries, HeaderStore};

verus! {

pub open spec fn crlf() -> Seq<u8> {
    seq![13u8, 10u8]
}

/// `NAME: VALUE` followed by a line terminator.
pub open spec fn header_line_bytes(e: (Seq<char>, Seq<char>)) -> Seq<u8> {
    encode_utf8(e.0) + seq![58u8, 32u8] + encode_utf8(e.1) + crlf()
}

/// All header lines, in the order of the entries.
pub open spec fn header_block_bytes(h: HeaderEntries) -> Seq<u8>
    decreases h.len(),
{
    if h.len() == 0 {
        Seq::empty()
    } else {
        header_block_bytes(h.drop_last()) + header_line_bytes(h.last())
    }
}

/// Decimal digits of `n`, without sign or leading zeros.
pub open spec fn decimal(n: nat) -> Seq<u8>
    decreases n,
{
    if n < 10 {
        seq![(48 + n) as u8]
    } else {
        decimal(n / 10) + seq![(48 + n % 10) as u8]
    }
}

/// Appends the bytes of `b`.
pub fn push_bytes(out: &mut Vec<u8>, b: &[u8])
    ensures
        final(out)@ == old(out)@ + b@,
{
    let mut i: usize = 0;
    while i < b.len()
        invariant
            i <= b@.len(),
            out@ == old(out)@ + b@.take(i as int),
        decreases b@.len() - i,
    {
        out.push(b[i]);
        i = i + 1;
        assert(out@ =~= old(out)@ + b@.take(i as int));
    }
    assert(b@.take(b@.len() as int) =~= b@);
}

/// Appends the UTF-8 encoding of `s`.
pub fn push_str(out: &mut Vec<u8>, s: &str)
    ensures
        final(out)@ == old(out)@ + encode_utf8(s@),
{
    push_bytes(out, s.as_bytes());
}

/// Appends the decimal digits of `n`.
pub fn push_decimal(out: &mut Vec<u8>, n: u64)
    ensures
        final(out)@ == old(out)@ + decimal(n as nat),
    decreases n,
{
    if n >= 10 {
        push_decimal(out, n / 10);
    }
    out.push(48 + (n % 10) as u8);
    proof {
        if n >= 10 {
            assert(old(out)@ + decimal(n as nat) =~= old(out)@ + decimal((n / 10) as nat) + seq![(48 + n % 10) as u8]);
        }
    }
    assert(final(out)@ =~= old(out)@ + decimal(n as nat));
}

/// Appends every header line of `h` in order, then the blank line that ends the header block.
pub fn push_header_block(out: &mut Vec<u8>, h: &HeaderStore)
    ensures
        final(out)@ == old(out)@ + header_block_bytes(h@) + crlf(),
{
    let n = h.len();
    let mut i: usize = 0;
    while i < n
        invariant
            n == h@.len(),
            i <= n,
            out@ == old(out)@ + header_block_bytes(h@.take(i as int)),
        decreases n - i,
    {
        let e = h.entry(i);
        let ghost before = out@;
        push_str(out, e.0.as_str());
        out.push(58u8);
        out.push(32u8);
        push_str(out, e.1.as_str());
        out.push(13u8);
        out.push(10u8);
        proof {
            let t = h@.take(i + 1);
            assert(t.drop_last() =~= h@.take(i as int));
            assert(t.last() == h@[i as int]);
            assert(out@ =~= before + header_line_bytes(h@[i as int]));
        }
        i = i + 1;
    }
    assert(h@.take(n as int) =~= h@);
    out.push(13u8);
    out.push(10u8);
    assert(final(out)@ =~= old(out)@ + header_block_bytes(h@) + crlf());
}

} // verus!
