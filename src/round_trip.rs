use vstd::prelude::*;
use vstd::utf8::*;
use crate::codec::{
    is_digit,
    DecodeError, all_digits, digits_value, parse_status_code, spec_decode_response, unsigned_part,
    find_byte, has_colon, head_headers, head_len, headers_of, is_ws, join_tokens,
    lemma_find_byte,
    lemma_tokens_run, message_body, message_head, scan_headers, spec_decode_request, split_header,
    start_line, start_line_end, tokens, tokens_acc,
};
use crate::header::{HeaderEntries, key_index, lemma_key_index, set_entry, unique_keys};
use crate::request::{RequestView, request_bytes};
use crate::response::{ResponseView, response_bytes};
use crate::utf8_bounds::lemma_ascii_byte_valid;
use crate::wire::{crlf, decimal, header_block_bytes, header_line_bytes};

verus! {

/// `c` does not occur in `s`.
pub open spec fn lacks(s: Seq<char>, c: char) -> bool {
    forall|i: int| 0 <= i < s.len() ==> s[i] != c
}

/// A start-line field that decodes back to itself: non-empty, with no space, tab or line feed.
pub open spec fn plain_token(s: Seq<char>) -> bool {
    s.len() > 0 && lacks(s, ' ') && lacks(s, '\t') && lacks(s, '\n')
}

/// A header that decodes back to itself: no colon or line feed in its name, no line feed in its
/// value.
pub open spec fn plain_header(e: (Seq<char>, Seq<char>)) -> bool {
    lacks(e.0, ':') && lacks(e.0, '\n') && lacks(e.1, '\n')
}

pub open spec fn plain_headers(h: HeaderEntries) -> bool {
    forall|i: int| 0 <= i < h.len() ==> plain_header(#[trigger] h[i])
}

/// The byte pairs that the header lines of `h` encode.
pub open spec fn encoded_pairs(h: HeaderEntries) -> Seq<(Seq<u8>, Seq<u8>)> {
    Seq::new(h.len(), |i: int| (encode_utf8(h[i].0), encode_utf8(h[i].1)))
}

/// Bytes in which `x` does not occur.
pub open spec fn lacks_byte(b: Seq<u8>, x: u8) -> bool {
    forall|j: int| 0 <= j < b.len() ==> b[j] != x
}

proof fn lemma_encode_scalar_lacks(c: char, x: u8)
    requires
        x < 128,
        c as u32 != x as u32,
    ensures
        lacks_byte(encode_scalar(c as u32), x),
{
    let v = c as u32;
    if has_width_1_encoding(v) {
        assert(((v & 0x7F) as u8) as u32 == v) by (bit_vector)
            requires
                v <= 0x7F,
        ;
    } else {
        assert((0xC0u8 | ((v >> 6) & 0x1F) as u8) >= 0x80) by (bit_vector);
        assert((0xE0u8 | ((v >> 12) & 0x0F) as u8) >= 0x80) by (bit_vector);
        assert((0xF0u8 | ((v >> 18) & 0x7) as u8) >= 0x80) by (bit_vector);
        assert((0x80u8 | (v & 0x3F) as u8) >= 0x80) by (bit_vector);
        assert((0x80u8 | ((v >> 6) & 0x3F) as u8) >= 0x80) by (bit_vector);
        assert((0x80u8 | ((v >> 12) & 0x3F) as u8) >= 0x80) by (bit_vector);
    }
}

/// An ASCII character that does not occur in `s` gives no byte of its encoding.
pub proof fn lemma_encode_lacks(s: Seq<char>, c: char)
    requires
        (c as u32) < 128,
        lacks(s, c),
    ensures
        lacks_byte(encode_utf8(s), c as u8),
    decreases s.len(),
{
    if s.len() > 0 {
        assert(s[0] != c);
        char_u32_cast(s[0], s[0] as u32);
        char_u32_cast(c, c as u32);
        assert((s[0] as u32) != (c as u32));
        lemma_encode_scalar_lacks(s[0], c as u8);
        assert(lacks(s.drop_first(), c)) by {
            assert forall|i: int| 0 <= i < s.drop_first().len() implies s.drop_first()[i] != c by {
                assert(s.drop_first()[i] == s[i + 1]);
            }
        }
        lemma_encode_lacks(s.drop_first(), c);
        let a = encode_scalar(s[0] as u32);
        let b = encode_utf8(s.drop_first());
        assert forall|j: int| 0 <= j < (a + b).len() implies (a + b)[j] != c as u8 by {
            if j >= a.len() {
                assert((a + b)[j] == b[j - a.len()]);
            }
        }
    }
}

proof fn lemma_encode_nonempty(s: Seq<char>)
    requires
        s.len() > 0,
    ensures
        encode_utf8(s).len() > 0,
{
    assert(encode_scalar(s[0] as u32).len() > 0);
}

proof fn lemma_find_byte_at(b: Seq<u8>, x: u8, i: int, j: int)
    requires
        0 <= i <= j < b.len(),
        b[j] == x,
        forall|k: int| i <= k < j ==> b[k] != x,
    ensures
        find_byte(b, x, i) == j,
{
    lemma_find_byte(b, x, i);
}

/// The start line of `m`, a line terminator, and anything after is `m`.
proof fn lemma_start_line(m: Seq<u8>, tail: Seq<u8>)
    requires
        lacks_byte(m, 10),
    ensures
        start_line_end(m + crlf() + tail) == m.len() + 1,
        start_line(m + crlf() + tail) == m,
{
    let b = m + crlf() + tail;
    assert forall|k: int| 0 <= k < m.len() + 1 implies b[k] != 10 by {
        if k < m.len() {
            assert(b[k] == m[k]);
        }
    }
    assert(b[m.len() as int + 1] == 10);
    lemma_find_byte_at(b, 10, 0, m.len() as int + 1);
    assert(b.subrange(0, m.len() as int + 1) =~= m.push(13));
    assert(m.push(13).drop_last() =~= m);
}

/// A run of bytes with neither space nor tab.
pub open spec fn plain_bytes(b: Seq<u8>) -> bool {
    b.len() > 0 && lacks_byte(b, 32) && lacks_byte(b, 9)
}

/// Tokens joined by single spaces are the first token, a space, and the rest joined.
proof fn lemma_join_front(ts: Seq<Seq<u8>>)
    requires
        ts.len() >= 2,
    ensures
        join_tokens(ts) == ts[0] + seq![32u8] + join_tokens(ts.drop_first()),
    decreases ts.len(),
{
    if ts.len() == 2 {
        assert(ts.drop_last().len() == 1);
        assert(ts.drop_first().len() == 1);
        assert(join_tokens(ts.drop_first()) == ts[1]);
        assert(join_tokens(ts.drop_last()) == ts[0]);
    } else {
        lemma_join_front(ts.drop_last());
        assert(ts.drop_last()[0] == ts[0]);
        assert(ts.drop_first().last() == ts.last());
        assert(join_tokens(ts.drop_first()) == join_tokens(ts.drop_first().drop_last()) + seq![32u8]
            + ts.drop_first().last());
        assert(ts.drop_last().drop_first() =~= ts.drop_first().drop_last());
        let a = ts[0];
        let mid = join_tokens(ts.drop_first().drop_last());
        assert(a + seq![32u8] + mid + seq![32u8] + ts.last() =~= a + seq![32u8] + (mid
            + seq![32u8] + ts.last()));
    }
}

/// Runs of bytes without space or tab, joined by single spaces, have those runs as their tokens.
proof fn lemma_tokens_of_join(s: Seq<u8>, i: int, ts: Seq<Seq<u8>>)
    requires
        ts.len() > 0,
        forall|k: int| 0 <= k < ts.len() ==> plain_bytes(#[trigger] ts[k]),
        0 <= i <= s.len(),
        s.subrange(i, s.len() as int) == join_tokens(ts),
    ensures
        tokens_acc(s, i, Seq::empty()) == ts,
    decreases ts.len(),
{
    let e = Seq::<u8>::empty();
    let a = ts[0];
    assert(plain_bytes(a));
    let j = i + a.len();
    if ts.len() == 1 {
        assert(join_tokens(ts) == a);
    } else {
        lemma_join_front(ts);
    }
    assert(s.subrange(i, j) =~= a) by {
        assert(s.subrange(i, s.len() as int).subrange(0, a.len() as int) =~= a);
    }
    assert forall|k: int| i <= k < j implies !is_ws(s[k]) by {
        assert(s[k] == a[k - i]);
    }
    lemma_tokens_run(s, i, j, e);
    assert(e + s.subrange(i, j) =~= a);
    if ts.len() == 1 {
        assert(j == s.len());
        assert(tokens_acc(s, j, a) == seq![a]);
        assert(seq![a] =~= ts);
    } else {
        let rest = ts.drop_first();
        assert(s[j] == 32) by {
            assert(s.subrange(i, s.len() as int)[a.len() as int] == 32);
        }
        assert(tokens_acc(s, j, a) == seq![a] + tokens_acc(s, j + 1, e));
        assert(s.subrange(j + 1, s.len() as int) =~= join_tokens(rest)) by {
            let full = s.subrange(i, s.len() as int);
            assert(full == a + seq![32u8] + join_tokens(rest));
            assert(full.len() == s.len() - i);
            assert(s.subrange(j + 1, s.len() as int) =~= full.subrange(
                a.len() as int + 1,
                full.len() as int,
            ));
            assert((a + seq![32u8] + join_tokens(rest)).subrange(
                a.len() as int + 1,
                full.len() as int,
            ) =~= join_tokens(rest));
        }
        assert forall|k: int| 0 <= k < rest.len() implies plain_bytes(#[trigger] rest[k]) by {
            assert(rest[k] == ts[k + 1]);
        }
        lemma_tokens_of_join(s, j + 1, rest);
        assert(seq![a] + rest =~= ts);
    }
}

proof fn lemma_tokens_three(a: Seq<u8>, b: Seq<u8>, c: Seq<u8>)
    requires
        plain_bytes(a),
        plain_bytes(b),
        plain_bytes(c),
    ensures
        tokens(a + seq![32u8] + b + seq![32u8] + c) == seq![a, b, c],
{
    let ts = seq![a, b, c];
    let s = a + seq![32u8] + b + seq![32u8] + c;
    lemma_join_front(ts);
    lemma_join_front(ts.drop_first());
    assert(ts.drop_first().drop_first() =~= seq![c]);
    assert(ts.drop_first()[0] == b);
    assert(join_tokens(seq![c]) == c);
    assert(join_tokens(ts) =~= s);
    assert(s.subrange(0, s.len() as int) =~= s);
    lemma_tokens_of_join(s, 0, ts);
}

/// The header block of `h` is its first line followed by the block of the rest.
proof fn lemma_block_front(h: HeaderEntries)
    requires
        h.len() > 0,
    ensures
        header_block_bytes(h) == header_line_bytes(h[0]) + header_block_bytes(h.drop_first()),
    decreases h.len(),
{
    if h.len() == 1 {
        assert(h.drop_last().len() == 0);
        assert(h.drop_first().len() == 0);
        assert(header_block_bytes(h.drop_first()) == Seq::<u8>::empty());
        assert(header_block_bytes(h.drop_last()) == Seq::<u8>::empty());
        assert(header_line_bytes(h[0]) + Seq::<u8>::empty() =~= header_line_bytes(h[0]));
        assert(Seq::<u8>::empty() + header_line_bytes(h[0]) =~= header_line_bytes(h[0]));
    } else {
        lemma_block_front(h.drop_last());
        assert(h.drop_last().drop_first() =~= h.drop_first().drop_last());
        assert(h.drop_first().last() == h.last());
        assert(h.drop_last()[0] == h[0]);
        let l0 = header_line_bytes(h[0]);
        let mid = header_block_bytes(h.drop_first().drop_last());
        let ll = header_line_bytes(h.last());
        assert(l0 + mid + ll =~= l0 + (mid + ll));
    }
}

/// Scanning the header lines that `h` encodes, followed by a blank line, gives the pairs of `h`
/// and stops after the blank line.
#[verifier::rlimit(40)]
proof fn lemma_scan_encoded(p: Seq<u8>, h: HeaderEntries, rest: Seq<u8>)
    requires
        p.len() > 0,
        p.last() == 10,
        plain_headers(h),
    ensures
        scan_headers(p + header_block_bytes(h) + crlf() + rest, p.len() as int) == (
            encoded_pairs(h),
            (p.len() + header_block_bytes(h).len() + 2) as int,
        ),
    decreases h.len(),
{
    let b = p + header_block_bytes(h) + crlf() + rest;
    let s = p.len() as int;
    if h.len() == 0 {
        assert(header_block_bytes(h) == Seq::<u8>::empty());
        assert(b[s] == 13 && b[s + 1] == 10);
        lemma_find_byte_at(b, 10, s, s + 1);
        assert(b.subrange(s, s + 1) =~= seq![13u8]);
        assert(seq![13u8].drop_last() =~= Seq::<u8>::empty());
        assert(encoded_pairs(h) =~= Seq::<(Seq<u8>, Seq<u8>)>::empty());
    } else {
        lemma_block_front(h);
        assert(plain_header(h[0]));
        let k = encode_utf8(h[0].0);
        let v = encode_utf8(h[0].1);
        lemma_encode_lacks(h[0].0, ':');
        lemma_encode_lacks(h[0].0, '\n');
        lemma_encode_lacks(h[0].1, '\n');
        let line = k + seq![58u8, 32u8] + v;
        let l = header_line_bytes(h[0]);
        assert(l =~= line + crlf());
        let t = h.drop_first();
        assert(plain_headers(t)) by {
            assert forall|i: int| 0 <= i < t.len() implies plain_header(#[trigger] t[i]) by {
                assert(t[i] == h[i + 1]);
            }
        }
        let p2 = p + l;
        assert(b =~= p2 + header_block_bytes(t) + crlf() + rest);
        let e = s + line.len() + 1;
        assert forall|j: int| s <= j < e implies b[j] != 10 by {
            assert(b[j] == l[j - s]);
            if j - s < k.len() {
                assert(l[j - s] == k[j - s]);
            } else if j - s >= k.len() + 2 && j - s < line.len() {
                assert(l[j - s] == v[j - s - k.len() - 2]);
            }
        }
        assert(b[e] == 10) by {
            assert(b[e] == l[line.len() as int + 1]);
        }
        lemma_find_byte_at(b, 10, s, e);
        assert(b.subrange(s, e) =~= line.push(13));
        assert(line.push(13).drop_last() =~= line);
        assert forall|j: int| 0 <= j < k.len() implies line[j] != 58 by {
            assert(line[j] == k[j]);
        }
        lemma_find_byte_at(line, 58, 0, k.len() as int);
        assert(line.subrange(0, k.len() as int) =~= k);
        let restv = line.subrange(k.len() as int + 1, line.len() as int);
        assert(restv[0] == 32);
        assert(restv.drop_first() =~= v);
        assert(split_header(line) == (k, v));
        assert(has_colon(line));
        lemma_scan_encoded(p2, t, rest);
        assert(p2.last() == 10);
        assert(encoded_pairs(h) =~= seq![(k, v)] + encoded_pairs(t));
    }
}

/// Setting the encoded pairs of `h` in turn on an empty store gives `h` back.
proof fn lemma_headers_of_encoded(h: HeaderEntries)
    requires
        unique_keys(h),
    ensures
        headers_of(encoded_pairs(h)) == h,
    decreases h.len(),
{
    if h.len() == 0 {
        assert(h =~= Seq::<(Seq<char>, Seq<char>)>::empty());
    } else {
        let d = h.drop_last();
        assert(unique_keys(d));
        lemma_headers_of_encoded(d);
        let pairs = encoded_pairs(h);
        assert(pairs.drop_last() =~= encoded_pairs(d));
        encode_utf8_decode_utf8(h.last().0);
        encode_utf8_decode_utf8(h.last().1);
        lemma_key_index(d, h.last().0);
        if key_index(d, h.last().0) >= 0 {
            assert(h[key_index(d, h.last().0)].0 == h[h.len() - 1].0);
        }
        assert(set_entry(d, h.last().0, h.last().1) =~= h);
    }
}

proof fn lemma_block_valid(h: HeaderEntries)
    ensures
        valid_utf8(header_block_bytes(h)),
    decreases h.len(),
{
    if h.len() == 0 {
        assert(header_block_bytes(h).len() == 0);
    } else {
        lemma_block_valid(h.drop_last());
        let e = h.last();
        lemma_ascii_byte_valid(58);
        lemma_ascii_byte_valid(32);
        lemma_ascii_byte_valid(13);
        lemma_ascii_byte_valid(10);
        encode_utf8_valid_utf8(e.0);
        encode_utf8_valid_utf8(e.1);
        assert(seq![58u8] + seq![32u8] =~= seq![58u8, 32u8]);
        assert(seq![13u8] + seq![10u8] =~= crlf());
        valid_utf8_concat(seq![58u8], seq![32u8]);
        valid_utf8_concat(seq![13u8], seq![10u8]);
        valid_utf8_concat(encode_utf8(e.0), seq![58u8, 32u8]);
        valid_utf8_concat(encode_utf8(e.0) + seq![58u8, 32u8], encode_utf8(e.1));
        valid_utf8_concat(encode_utf8(e.0) + seq![58u8, 32u8] + encode_utf8(e.1), crlf());
        valid_utf8_concat(header_block_bytes(h.drop_last()), header_line_bytes(e));
    }
}

/// The header block of a request: everything but the body.
pub open spec fn request_head_bytes(r: RequestView) -> Seq<u8> {
    encode_utf8(r.method) + seq![32u8] + encode_utf8(r.url) + seq![32u8] + encode_utf8(r.version)
        + crlf() + header_block_bytes(r.headers) + crlf()
}

/// Decoding the wire bytes of a request gives the same request back, provided its method, url
/// and version are non-empty and hold no space, tab or line feed, and its header names hold no
/// colon or line feed and its header values no line feed. (A header store never holds two
/// entries of one name.)
pub proof fn lemma_request_round_trip(r: RequestView)
    requires
        plain_token(r.method),
        plain_token(r.url),
        plain_token(r.version),
        plain_headers(r.headers),
        unique_keys(r.headers),
    ensures
        spec_decode_request(message_head(request_bytes(r)), message_body(request_bytes(r)))
            == Ok::<RequestView, DecodeError>(r),
{
    let um = encode_utf8(r.method);
    let uu = encode_utf8(r.url);
    let uv = encode_utf8(r.version);
    lemma_encode_lacks(r.method, ' ');
    lemma_encode_lacks(r.method, '\t');
    lemma_encode_lacks(r.method, '\n');
    lemma_encode_lacks(r.url, ' ');
    lemma_encode_lacks(r.url, '\t');
    lemma_encode_lacks(r.url, '\n');
    lemma_encode_lacks(r.version, ' ');
    lemma_encode_lacks(r.version, '\t');
    lemma_encode_lacks(r.version, '\n');
    lemma_encode_nonempty(r.method);
    lemma_encode_nonempty(r.url);
    lemma_encode_nonempty(r.version);
    let m = um + seq![32u8] + uu + seq![32u8] + uv;
    assert(lacks_byte(m, 10)) by {
        assert forall|j: int| 0 <= j < m.len() implies m[j] != 10 by {
            if j < um.len() {
                assert(m[j] == um[j]);
            } else if um.len() < j < um.len() + 1 + uu.len() {
                assert(m[j] == uu[j - um.len() - 1]);
            } else if um.len() + 1 + uu.len() < j {
                assert(m[j] == uv[j - um.len() - 2 - uu.len()]);
            }
        }
    }
    let hb = header_block_bytes(r.headers);
    let head = request_head_bytes(r);
    let bytes = request_bytes(r);
    let p = m + crlf();
    assert(head =~= p + hb + crlf() + Seq::<u8>::empty());
    assert(bytes =~= p + hb + crlf() + r.body);
    assert(bytes =~= m + crlf() + (hb + crlf() + r.body));
    assert(head =~= m + crlf() + (hb + crlf()));
    lemma_start_line(m, hb + crlf() + r.body);
    lemma_start_line(m, hb + crlf());
    lemma_scan_encoded(p, r.headers, r.body);
    lemma_scan_encoded(p, r.headers, Seq::<u8>::empty());
    assert(head_len(bytes) == head.len());
    assert(message_head(bytes) =~= head);
    assert(message_body(bytes) =~= r.body);
    assert(plain_bytes(um) && plain_bytes(uu) && plain_bytes(uv));
    lemma_tokens_three(um, uu, uv);
    encode_utf8_decode_utf8(r.method);
    encode_utf8_decode_utf8(r.url);
    encode_utf8_decode_utf8(r.version);
    lemma_headers_of_encoded(r.headers);
    assert(head_headers(head) == r.headers);
    assert(valid_utf8(head)) by {
        lemma_ascii_byte_valid(32);
        lemma_ascii_byte_valid(13);
        lemma_ascii_byte_valid(10);
        valid_utf8_concat(seq![13u8], seq![10u8]);
        assert(seq![13u8] + seq![10u8] =~= crlf());
        encode_utf8_valid_utf8(r.method);
        encode_utf8_valid_utf8(r.url);
        encode_utf8_valid_utf8(r.version);
        lemma_block_valid(r.headers);
        valid_utf8_concat(um, seq![32u8]);
        valid_utf8_concat(um + seq![32u8], uu);
        valid_utf8_concat(um + seq![32u8] + uu, seq![32u8]);
        valid_utf8_concat(um + seq![32u8] + uu + seq![32u8], uv);
        valid_utf8_concat(m, crlf());
        valid_utf8_concat(p, hb);
        valid_utf8_concat(p + hb, crlf());
        assert(head =~= p + hb + crlf());
    }
}

/// Words joined by single spaces.
pub open spec fn join_words(ws: Seq<Seq<char>>) -> Seq<char>
    decreases ws.len(),
{
    if ws.len() == 0 {
        Seq::empty()
    } else if ws.len() == 1 {
        ws[0]
    } else {
        join_words(ws.drop_last()) + seq![' '] + ws.last()
    }
}

proof fn lemma_encode_concat(a: Seq<char>, b: Seq<char>)
    ensures
        encode_utf8(a + b) == encode_utf8(a) + encode_utf8(b),
    decreases a.len(),
{
    if a.len() == 0 {
        assert(a + b =~= b);
        assert(encode_utf8(a) + encode_utf8(b) =~= encode_utf8(b));
    } else {
        lemma_encode_concat(a.drop_first(), b);
        assert((a + b).drop_first() =~= a.drop_first() + b);
        assert((a + b)[0] == a[0]);
        let x = encode_scalar(a[0] as u32);
        assert(x + (encode_utf8(a.drop_first()) + encode_utf8(b)) =~= x + encode_utf8(
            a.drop_first(),
        ) + encode_utf8(b));
    }
}

proof fn lemma_encode_space()
    ensures
        encode_utf8(seq![' ']) == seq![32u8],
{
    let s = seq![' '];
    assert((32u32 & 0x7F) as u8 == 32u8) by (bit_vector);
    assert(s.drop_first().len() == 0);
    assert(encode_utf8(s.drop_first()) == Seq::<u8>::empty());
    assert(encode_scalar(' ' as u32) =~= seq![32u8]);
    assert(seq![32u8] + Seq::<u8>::empty() =~= seq![32u8]);
}

/// The encodings of each word.
pub open spec fn encoded_words(ws: Seq<Seq<char>>) -> Seq<Seq<u8>> {
    Seq::new(ws.len(), |i: int| encode_utf8(ws[i]))
}

proof fn lemma_encode_join(ws: Seq<Seq<char>>)
    ensures
        encode_utf8(join_words(ws)) == join_tokens(encoded_words(ws)),
    decreases ws.len(),
{
    let e = encoded_words(ws);
    if ws.len() == 0 {
        assert(join_words(ws).len() == 0);
        assert(e.len() == 0);
    } else if ws.len() == 1 {
        assert(e[0] == encode_utf8(ws[0]));
    } else {
        lemma_encode_join(ws.drop_last());
        assert(e.drop_last() =~= encoded_words(ws.drop_last()));
        lemma_encode_concat(join_words(ws.drop_last()), seq![' ']);
        lemma_encode_concat(join_words(ws.drop_last()) + seq![' '], ws.last());
        lemma_encode_space();
    }
}

proof fn lemma_decimal(n: nat)
    ensures
        decimal(n).len() > 0,
        all_digits(decimal(n)),
        digits_value(decimal(n)) == n,
    decreases n,
{
    let d = decimal(n);
    if n >= 10 {
        lemma_decimal(n / 10);
        assert(d.drop_last() =~= decimal(n / 10));
        assert(n == (n / 10) * 10 + n % 10);
        assert(d.last() == (48 + n % 10) as u8);
        assert(d.last() - 48 == n % 10);
        assert forall|i: int| 0 <= i < d.len() implies is_digit(#[trigger] d[i]) by {
            if i < d.len() - 1 {
                assert(d[i] == decimal(n / 10)[i]);
            }
        }
    } else {
        assert(d.drop_last() =~= Seq::<u8>::empty());
        assert(d.last() == (48 + n) as u8);
        assert(digits_value(d) == digits_value(d.drop_last()) * 10 + (d.last() - 48) as nat);
    }
}

proof fn lemma_ascii_valid(b: Seq<u8>)
    requires
        forall|i: int| 0 <= i < b.len() ==> b[i] < 128,
    ensures
        valid_utf8(b),
    decreases b.len(),
{
    if b.len() == 0 {
    } else {
        lemma_ascii_valid(b.drop_last());
        lemma_ascii_byte_valid(b.last());
        valid_utf8_concat(b.drop_last(), seq![b.last()]);
        assert(b.drop_last() + seq![b.last()] =~= b);
    }
}

/// The header block of a response: everything but the body.
pub open spec fn response_head_bytes(r: ResponseView) -> Seq<u8> {
    encode_utf8(r.version) + seq![32u8] + decimal(r.status_code as nat) + seq![32u8] + encode_utf8(
        r.status_message,
    ) + crlf() + header_block_bytes(r.headers) + crlf()
}

/// Decoding the wire bytes of a response gives the same response back, provided its version is
/// non-empty and holds no space, tab or line feed, its status message is one or more such words
/// joined by single spaces, and its headers are as for a request.
#[verifier::rlimit(60)]
pub proof fn lemma_response_round_trip(r: ResponseView, words: Seq<Seq<char>>)
    requires
        plain_token(r.version),
        words.len() > 0,
        forall|i: int| 0 <= i < words.len() ==> plain_token(#[trigger] words[i]),
        r.status_message == join_words(words),
        plain_headers(r.headers),
        unique_keys(r.headers),
    ensures
        spec_decode_response(message_head(response_bytes(r)), message_body(response_bytes(r)))
            == Ok::<ResponseView, DecodeError>(r),
{
    let uv = encode_utf8(r.version);
    let dec = decimal(r.status_code as nat);
    let ew = encoded_words(words);
    let um = encode_utf8(r.status_message);
    lemma_encode_lacks(r.version, ' ');
    lemma_encode_lacks(r.version, '\t');
    lemma_encode_lacks(r.version, '\n');
    lemma_encode_nonempty(r.version);
    lemma_decimal(r.status_code as nat);
    lemma_encode_join(words);
    assert forall|k: int| 0 <= k < ew.len() implies plain_bytes(#[trigger] ew[k]) && lacks_byte(
        ew[k],
        10,
    ) by {
        assert(plain_token(words[k]));
        lemma_encode_lacks(words[k], ' ');
        lemma_encode_lacks(words[k], '\t');
        lemma_encode_lacks(words[k], '\n');
        lemma_encode_nonempty(words[k]);
    }
    let ts = seq![uv, dec] + ew;
    assert(ts.drop_first().drop_first() =~= ew);
    lemma_join_front(ts);
    lemma_join_front(ts.drop_first());
    let m = uv + seq![32u8] + dec + seq![32u8] + um;
    assert(join_tokens(ts) =~= m);
    assert forall|k: int| 0 <= k < ts.len() implies plain_bytes(#[trigger] ts[k]) by {
        if k >= 2 {
            assert(ts[k] == ew[k - 2]);
        }
    }
    assert(m.subrange(0, m.len() as int) =~= m);
    lemma_tokens_of_join(m, 0, ts);
    lemma_join_valid_lacks(ew);
    assert(lacks_byte(m, 10)) by {
        assert forall|j: int| 0 <= j < m.len() implies m[j] != 10 by {
            if j < uv.len() {
                assert(m[j] == uv[j]);
            } else if uv.len() < j < uv.len() + 1 + dec.len() {
                assert(m[j] == dec[j - uv.len() - 1]);
                assert(is_digit(dec[j - uv.len() - 1]));
            } else if uv.len() + 1 + dec.len() < j {
                assert(m[j] == um[j - uv.len() - 2 - dec.len()]);
            }
        }
    }
    let hb = header_block_bytes(r.headers);
    let head = response_head_bytes(r);
    let bytes = response_bytes(r);
    let p = m + crlf();
    assert(head =~= p + hb + crlf() + Seq::<u8>::empty());
    assert(bytes =~= p + hb + crlf() + r.body);
    assert(bytes =~= m + crlf() + (hb + crlf() + r.body));
    assert(head =~= m + crlf() + (hb + crlf()));
    lemma_start_line(m, hb + crlf() + r.body);
    lemma_start_line(m, hb + crlf());
    lemma_scan_encoded(p, r.headers, r.body);
    lemma_scan_encoded(p, r.headers, Seq::<u8>::empty());
    assert(message_head(bytes) =~= head);
    assert(message_body(bytes) =~= r.body);
    let t = tokens(start_line(head));
    assert(t == ts);
    assert(t[1] == dec);
    assert(unsigned_part(dec) == dec) by {
        assert(is_digit(dec[0]));
    }
    assert(parse_status_code(dec) == Some(r.status_code));
    assert(t.subrange(2, t.len() as int) =~= ew);
    encode_utf8_decode_utf8(r.version);
    encode_utf8_decode_utf8(r.status_message);
    lemma_headers_of_encoded(r.headers);
    assert(head_headers(head) == r.headers);
    lemma_response_head_valid(r);
}

proof fn lemma_response_head_valid(r: ResponseView)
    ensures
        valid_utf8(response_head_bytes(r)),
{
    let uv = encode_utf8(r.version);
    let dec = decimal(r.status_code as nat);
    let um = encode_utf8(r.status_message);
    let m = uv + seq![32u8] + dec + seq![32u8] + um;
    let p = m + crlf();
    let hb = header_block_bytes(r.headers);
    lemma_decimal(r.status_code as nat);
    lemma_ascii_byte_valid(32);
    lemma_ascii_byte_valid(13);
    lemma_ascii_byte_valid(10);
    valid_utf8_concat(seq![13u8], seq![10u8]);
    assert(seq![13u8] + seq![10u8] =~= crlf());
    encode_utf8_valid_utf8(r.version);
    encode_utf8_valid_utf8(r.status_message);
    assert forall|i: int| 0 <= i < dec.len() implies dec[i] < 128 by {
        assert(is_digit(dec[i]));
    }
    lemma_ascii_valid(dec);
    lemma_block_valid(r.headers);
    valid_utf8_concat(uv, seq![32u8]);
    valid_utf8_concat(uv + seq![32u8], dec);
    valid_utf8_concat(uv + seq![32u8] + dec, seq![32u8]);
    valid_utf8_concat(uv + seq![32u8] + dec + seq![32u8], um);
    valid_utf8_concat(m, crlf());
    valid_utf8_concat(p, hb);
    valid_utf8_concat(p + hb, crlf());
    assert(response_head_bytes(r) =~= p + hb + crlf());
}

/// Runs without line feeds, joined by spaces, hold no line feed.
proof fn lemma_join_valid_lacks(ts: Seq<Seq<u8>>)
    requires
        forall|k: int| 0 <= k < ts.len() ==> lacks_byte(#[trigger] ts[k], 10),
    ensures
        lacks_byte(join_tokens(ts), 10),
    decreases ts.len(),
{
    if ts.len() >= 2 {
        lemma_join_valid_lacks(ts.drop_last());
        let a = join_tokens(ts.drop_last());
        let b = ts.last();
        assert(lacks_byte(b, 10));
        assert forall|j: int| 0 <= j < (a + seq![32u8] + b).len() implies (a + seq![32u8] + b)[j]
            != 10 by {
            if j < a.len() {
                assert((a + seq![32u8] + b)[j] == a[j]);
            } else if j > a.len() {
                assert((a + seq![32u8] + b)[j] == b[j - a.len() - 1]);
            }
        }
    } else if ts.len() == 1 {
        assert(lacks_byte(ts[0], 10));
    }
}

} // verus!
