use vstd::prelude::*;
use vstd::utf8::*;
use crate::header::{HeaderEntries, HeaderStore, set_entry};
use crate::request::{HttpRequest, RequestView};
use crate::response::{HttpResponse, ResponseView};
use crate::utf8_bounds::{lemma_ascii_byte_valid, lemma_ascii_delimited};
use crate::wire::push_bytes;

verus! {

/// Why a message could not be decoded.
#[derive(Debug, PartialEq, Eq, Structural)]
pub enum DecodeError {
    /// The header block is not valid UTF-8.
    InvalidEncoding,
    /// The start line does not have the number of tokens its kind of message needs.
    MalformedStartLine,
    /// The status code is not an unsigned 16-bit decimal number.
    InvalidStatusCode,
}

/// Index of the first `x` in `b` at or after `i`, or `b.len()` when there is none.
pub open spec fn find_byte(b: Seq<u8>, x: u8, i: int) -> int
    decreases b.len() - i,
{
    if i < 0 || i >= b.len() {
        b.len() as int
    } else if b[i] == x {
        i
    } else {
        find_byte(b, x, i + 1)
    }
}

/// A line without the carriage return that may end it.
pub open spec fn strip_cr(l: Seq<u8>) -> Seq<u8> {
    if l.len() > 0 && l.last() == 13 {
        l.drop_last()
    } else {
        l
    }
}

/// Space or horizontal tab.
pub open spec fn is_ws(x: u8) -> bool {
    x == 32 || x == 9
}

/// Tokens of `s` from position `i` on, `cur` being the token read so far.
pub open spec fn tokens_acc(s: Seq<u8>, i: int, cur: Seq<u8>) -> Seq<Seq<u8>>
    decreases s.len() - i,
{
    let done = if cur.len() > 0 { seq![cur] } else { Seq::empty() };
    if i < 0 || i >= s.len() {
        done
    } else if is_ws(s[i]) {
        done + tokens_acc(s, i + 1, Seq::empty())
    } else {
        tokens_acc(s, i + 1, cur.push(s[i]))
    }
}

/// The maximal runs of bytes other than space and tab.
pub open spec fn tokens(s: Seq<u8>) -> Seq<Seq<u8>> {
    tokens_acc(s, 0, Seq::empty())
}

/// Tokens joined by single spaces.
pub open spec fn join_tokens(ts: Seq<Seq<u8>>) -> Seq<u8>
    decreases ts.len(),
{
    if ts.len() == 0 {
        Seq::empty()
    } else if ts.len() == 1 {
        ts[0]
    } else {
        join_tokens(ts.drop_last()) + seq![32u8] + ts.last()
    }
}

pub open spec fn is_digit(x: u8) -> bool {
    48 <= x <= 57
}

/// Value of a string of decimal digits.
pub open spec fn digits_value(s: Seq<u8>) -> nat
    decreases s.len(),
{
    if s.len() == 0 {
        0
    } else {
        digits_value(s.drop_last()) * 10 + (s.last() - 48) as nat
    }
}

pub open spec fn all_digits(d: Seq<u8>) -> bool {
    forall|i: int| 0 <= i < d.len() ==> is_digit(#[trigger] d[i])
}

/// What follows an optional leading `+`.
pub open spec fn unsigned_part(s: Seq<u8>) -> Seq<u8> {
    if s.len() > 0 && s[0] == 43 {
        s.drop_first()
    } else {
        s
    }
}

/// A status code: an optional `+`, then one or more decimal digits, at most 65535 in value.
pub open spec fn parse_status_code(s: Seq<u8>) -> Option<u16> {
    let d = unsigned_part(s);
    if d.len() > 0 && all_digits(d) && digits_value(d) <= 65535 {
        Some(digits_value(d) as u16)
    } else {
        None
    }
}

/// Name and value of a header line that holds a colon: the name is what stands before the
/// first colon; the value is what follows it, less one space if one comes first.
pub open spec fn split_header(l: Seq<u8>) -> (Seq<u8>, Seq<u8>) {
    let c = find_byte(l, 58, 0);
    let rest = l.subrange(c + 1, l.len() as int);
    let value = if rest.len() > 0 && rest[0] == 32 { rest.drop_first() } else { rest };
    (l.subrange(0, c), value)
}

pub open spec fn has_colon(l: Seq<u8>) -> bool {
    find_byte(l, 58, 0) < l.len()
}

pub proof fn lemma_find_byte(b: Seq<u8>, x: u8, i: int)
    requires
        0 <= i <= b.len(),
    ensures
        i <= find_byte(b, x, i) <= b.len(),
        find_byte(b, x, i) < b.len() ==> b[find_byte(b, x, i)] == x,
        forall|k: int| i <= k < find_byte(b, x, i) ==> b[k] != x,
    decreases b.len() - i,
{
    if i < b.len() && b[i] != x {
        lemma_find_byte(b, x, i + 1);
    }
}

/// Header lines from position `s` of a header block up to the first blank line: the
/// (name, value) pairs of those that hold a colon, and the position after the blank line (or
/// the end of `b`).
pub open spec fn scan_headers(b: Seq<u8>, s: int) -> (Seq<(Seq<u8>, Seq<u8>)>, int)
    decreases b.len() - s,
    via scan_headers_decreases
{
    if s < 0 || s >= b.len() {
        (Seq::empty(), b.len() as int)
    } else {
        let e = find_byte(b, 10, s);
        let line = strip_cr(b.subrange(s, e));
        if line.len() == 0 {
            (Seq::empty(), if e < b.len() { e + 1 } else { b.len() as int })
        } else {
            let rest = if e < b.len() {
                scan_headers(b, e + 1)
            } else {
                (Seq::empty(), b.len() as int)
            };
            (if has_colon(line) { seq![split_header(line)] + rest.0 } else { rest.0 }, rest.1)
        }
    }
}

#[via_fn]
proof fn scan_headers_decreases(b: Seq<u8>, s: int) {
    if 0 <= s < b.len() {
        lemma_find_byte(b, 10, s);
    }
}

/// Header entries that setting each pair in turn on an empty store gives.
pub open spec fn headers_of(pairs: Seq<(Seq<u8>, Seq<u8>)>) -> HeaderEntries
    decreases pairs.len(),
{
    if pairs.len() == 0 {
        Seq::empty()
    } else {
        set_entry(
            headers_of(pairs.drop_last()),
            decode_utf8(pairs.last().0),
            decode_utf8(pairs.last().1),
        )
    }
}

/// End of the start line (the index of its line feed, or the length).
pub open spec fn start_line_end(b: Seq<u8>) -> int {
    find_byte(b, 10, 0)
}

/// The start line, without its terminator.
pub open spec fn start_line(b: Seq<u8>) -> Seq<u8> {
    strip_cr(b.subrange(0, start_line_end(b)))
}

/// Length of the header block at the front of a message: start line, header lines and the
/// blank line that ends them; the whole message when no blank line comes.
pub open spec fn head_len(b: Seq<u8>) -> int {
    let e0 = start_line_end(b);
    if e0 >= b.len() {
        b.len() as int
    } else {
        scan_headers(b, e0 + 1).1
    }
}

/// Header entries of a header block.
pub open spec fn head_headers(head: Seq<u8>) -> HeaderEntries {
    headers_of(scan_headers(head, start_line_end(head) + 1).0)
}

/// A request decoded from its header block and its body.
pub open spec fn spec_decode_request(head: Seq<u8>, body: Seq<u8>) -> Result<
    RequestView,
    DecodeError,
> {
    if !valid_utf8(head) {
        Err(DecodeError::InvalidEncoding)
    } else {
        let t = tokens(start_line(head));
        if t.len() != 3 {
            Err(DecodeError::MalformedStartLine)
        } else {
            Ok(
                RequestView {
                    method: decode_utf8(t[0]),
                    url: decode_utf8(t[1]),
                    version: decode_utf8(t[2]),
                    headers: head_headers(head),
                    body,
                },
            )
        }
    }
}

/// A response decoded from its header block and its body.
pub open spec fn spec_decode_response(head: Seq<u8>, body: Seq<u8>) -> Result<
    ResponseView,
    DecodeError,
> {
    if !valid_utf8(head) {
        Err(DecodeError::InvalidEncoding)
    } else {
        let t = tokens(start_line(head));
        if t.len() < 3 {
            Err(DecodeError::MalformedStartLine)
        } else {
            match parse_status_code(t[1]) {
                None => Err(DecodeError::InvalidStatusCode),
                Some(code) => Ok(
                    ResponseView {
                        version: decode_utf8(t[0]),
                        status_code: code,
                        status_message: decode_utf8(join_tokens(t.subrange(2, t.len() as int))),
                        headers: head_headers(head),
                        body,
                    },
                ),
            }
        }
    }
}

/// A request whose start line has two or four tokens does not decode: its start line is
/// malformed. (A header block that is not UTF-8 is reported as such first.)
pub proof fn lemma_malformed_start_line(head: Seq<u8>, body: Seq<u8>)
    requires
        valid_utf8(head),
        tokens(start_line(head)).len() == 2 || tokens(start_line(head)).len() == 4,
    ensures
        spec_decode_request(head, body) == Err::<RequestView, DecodeError>(
            DecodeError::MalformedStartLine,
        ),
{
}

/// Relies on `String::from_utf8`: it succeeds exactly on valid UTF-8, and the string then holds
/// the characters that the bytes encode.
#[verifier::external_body]
pub(crate) fn string_from_utf8(b: Vec<u8>) -> (r: Option<String>)
    ensures
        r is Some <==> valid_utf8(b@),
        r is Some ==> r->Some_0@ == decode_utf8(b@),
{
    String::from_utf8(b).ok()
}

/// Index of the first `x` in `b` at or after `i`, or `b.len()`.
fn find_byte_from(b: &[u8], x: u8, i: usize) -> (r: usize)
    requires
        i <= b@.len(),
    ensures
        r == find_byte(b@, x, i as int),
{
    let mut k = i;
    while k < b.len()
        invariant
            i <= k <= b@.len(),
            find_byte(b@, x, i as int) == find_byte(b@, x, k as int),
        decreases b@.len() - k,
    {
        if b[k] == x {
            return k;
        }
        k = k + 1;
    }
    k
}

/// Copy of `b[i..j]`.
pub(crate) fn copy_range(b: &[u8], i: usize, j: usize) -> (r: Vec<u8>)
    requires
        i <= j <= b@.len(),
    ensures
        r@ == b@.subrange(i as int, j as int),
{
    let mut out: Vec<u8> = Vec::new();
    let mut k = i;
    while k < j
        invariant
            i <= k <= j <= b@.len(),
            out@ == b@.subrange(i as int, k as int),
        decreases j - k,
    {
        out.push(b[k]);
        k = k + 1;
        assert(out@ =~= b@.subrange(i as int, k as int));
    }
    out
}

/// The line that starts at `s`: where its content ends (before a final carriage return) and
/// where it ends (its line feed, or the length).
fn line_at(b: &[u8], s: usize) -> (r: (usize, usize))
    requires
        s <= b@.len(),
    ensures
        r.1 == find_byte(b@, 10, s as int),
        s <= r.0 <= r.1 <= b@.len(),
        b@.subrange(s as int, r.0 as int) == strip_cr(b@.subrange(s as int, r.1 as int)),
        r.0 == r.1 || (r.0 + 1 == r.1 && b@[r.0 as int] == 13),
{
    let e = find_byte_from(b, 10, s);
    proof {
        lemma_find_byte(b@, 10, s as int);
    }
    if e > s && b[e - 1] == 13 {
        assert(b@.subrange(s as int, e - 1) =~= b@.subrange(s as int, e as int).drop_last());
        (e - 1, e)
    } else {
        (e, e)
    }
}

pub open spec fn vec_views(v: Seq<Vec<u8>>) -> Seq<Seq<u8>> {
    Seq::new(v.len(), |k: int| v[k]@)
}

pub proof fn lemma_tokens_run(s: Seq<u8>, i: int, j: int, cur: Seq<u8>)
    requires
        0 <= i <= j <= s.len(),
        forall|k: int| i <= k < j ==> !is_ws(s[k]),
    ensures
        tokens_acc(s, i, cur) == tokens_acc(s, j, cur + s.subrange(i, j)),
    decreases j - i,
{
    if i < j {
        lemma_tokens_run(s, i + 1, j, cur.push(s[i]));
        assert(cur.push(s[i]) + s.subrange(i + 1, j) =~= cur + s.subrange(i, j));
    } else {
        assert(cur + s.subrange(i, j) =~= cur);
    }
}

/// The tokens of `s`: maximal runs of bytes other than space and tab.
fn split_tokens(s: &[u8]) -> (r: Vec<Vec<u8>>)
    ensures
        vec_views(r@) == tokens(s@),
{
    let mut out: Vec<Vec<u8>> = Vec::new();
    let mut cur: Vec<u8> = Vec::new();
    let mut i: usize = 0;
    while i < s.len()
        invariant
            i <= s@.len(),
            vec_views(out@) + tokens_acc(s@, i as int, cur@) == tokens(s@),
        decreases s@.len() - i,
    {
        let ghost before = vec_views(out@);
        let ghost cur0 = cur@;
        if s[i] == 32 || s[i] == 9 {
            assert(tokens_acc(s@, i as int, cur0) == (if cur0.len() > 0 {
                seq![cur0]
            } else {
                Seq::empty()
            }) + tokens_acc(s@, i + 1, Seq::empty()));
            if cur.len() > 0 {
                let mut done: Vec<u8> = Vec::new();
                core::mem::swap(&mut done, &mut cur);
                out.push(done);
                assert(vec_views(out@) =~= before + seq![cur0]);
            }
            assert(cur@ =~= Seq::<u8>::empty());
            assert(vec_views(out@) + tokens_acc(s@, i + 1, cur@) =~= before + tokens_acc(
                s@,
                i as int,
                cur0,
            ));
        } else {
            cur.push(s[i]);
        }
        i = i + 1;
    }
    if cur.len() > 0 {
        let ghost before = vec_views(out@);
        let ghost cur0 = cur@;
        out.push(cur);
        assert(vec_views(out@) =~= before + seq![cur0]);
    } else {
        assert(vec_views(out@) + Seq::<Seq<u8>>::empty() =~= vec_views(out@));
    }
    out
}

proof fn lemma_digits_value_mono(s: Seq<u8>, j: int)
    requires
        0 <= j <= s.len(),
        all_digits(s),
    ensures
        digits_value(s.take(j)) <= digits_value(s),
    decreases s.len() - j,
{
    if j < s.len() {
        lemma_digits_value_mono(s, j + 1);
        assert(s.take(j + 1).drop_last() =~= s.take(j));
    } else {
        assert(s.take(j) =~= s);
    }
}

/// A status code: an optional `+`, then one or more decimal digits, at most 65535.
fn parse_status_code_bytes(s: &[u8]) -> (r: Option<u16>)
    ensures
        r == parse_status_code(s@),
{
    let start: usize = if s.len() > 0 && s[0] == 43 { 1 } else { 0 };
    let ghost d = unsigned_part(s@);
    assert(d =~= s@.subrange(start as int, s@.len() as int));
    if start >= s.len() {
        return None;
    }
    let mut value: u32 = 0;
    let mut i = start;
    while i < s.len()
        invariant
            start <= i <= s@.len(),
            d == s@.subrange(start as int, s@.len() as int),
            d == unsigned_part(s@),
            forall|k: int| 0 <= k < i - start ==> is_digit(d[k]),
            value == digits_value(d.take(i - start)),
            value <= 65535,
        decreases s@.len() - i,
    {
        let c = s[i];
        if c < 48 || c > 57 {
            assert(!is_digit(d[i - start]));
            assert(!all_digits(d));
            return None;
        }
        assert(d.take(i + 1 - start).drop_last() =~= d.take(i - start));
        value = value * 10 + (c - 48) as u32;
        i = i + 1;
        assert(value == digits_value(d.take(i - start)));
        if value > 65535 {
            proof {
                if all_digits(d) {
                    lemma_digits_value_mono(d, i - start);
                }
            }
            return None;
        }
    }
    assert(d.take(d.len() as int) =~= d);
    Some(value as u16)
}

proof fn lemma_tokens_acc_valid(l: Seq<u8>, i: int, cur: Seq<u8>)
    requires
        valid_utf8(l),
        cur.len() <= i <= l.len(),
        cur == l.subrange(i - cur.len(), i),
        i - cur.len() == 0 || l[i - cur.len() - 1] < 128,
    ensures
        forall|k: int|
            0 <= k < tokens_acc(l, i, cur).len() ==> valid_utf8(#[trigger] tokens_acc(l, i, cur)[k]),
    decreases l.len() - i,
{
    if cur.len() > 0 && (i >= l.len() || is_ws(l[i])) {
        lemma_ascii_delimited(l, i - cur.len(), i);
    }
    if i >= l.len() {
        assert(tokens_acc(l, i, cur) == (if cur.len() > 0 {
            seq![cur]
        } else {
            Seq::<Seq<u8>>::empty()
        }));
    } else {
        if is_ws(l[i]) {
            assert(Seq::<u8>::empty() =~= l.subrange(i + 1, i + 1));
            lemma_tokens_acc_valid(l, i + 1, Seq::empty());
            let done = if cur.len() > 0 { seq![cur] } else { Seq::empty() };
            let rest = tokens_acc(l, i + 1, Seq::empty());
            assert(tokens_acc(l, i, cur) == done + rest);
            assert forall|k: int| 0 <= k < (done + rest).len() implies valid_utf8(
                #[trigger] (done + rest)[k],
            ) by {
                if k >= done.len() {
                    assert((done + rest)[k] == rest[k - done.len()]);
                }
            }
        } else {
            assert(cur.push(l[i]) =~= l.subrange(i + 1 - (cur.len() + 1), i + 1));
            lemma_tokens_acc_valid(l, i + 1, cur.push(l[i]));
            assert(tokens_acc(l, i, cur) == tokens_acc(l, i + 1, cur.push(l[i])));
        }
    }
}

/// Every token of valid UTF-8 is valid UTF-8.
proof fn lemma_tokens_valid(l: Seq<u8>)
    requires
        valid_utf8(l),
    ensures
        forall|k: int| 0 <= k < tokens(l).len() ==> valid_utf8(#[trigger] tokens(l)[k]),
{
    assert(Seq::<u8>::empty() =~= l.subrange(0, 0));
    lemma_tokens_acc_valid(l, 0, Seq::empty());
}

proof fn lemma_join_valid(ts: Seq<Seq<u8>>)
    requires
        forall|k: int| 0 <= k < ts.len() ==> valid_utf8(#[trigger] ts[k]),
    ensures
        valid_utf8(join_tokens(ts)),
    decreases ts.len(),
{
    if ts.len() == 0 {
        assert(join_tokens(ts).len() == 0);
    } else if ts.len() >= 2 {
        lemma_join_valid(ts.drop_last());
        lemma_ascii_byte_valid(32);
        valid_utf8_concat(join_tokens(ts.drop_last()), seq![32u8]);
        valid_utf8_concat(join_tokens(ts.drop_last()) + seq![32u8], ts.last());
    }
}

/// Tokens from position `from` on, joined by single spaces.
fn join_from(ts: &Vec<Vec<u8>>, from: usize) -> (r: Vec<u8>)
    requires
        from < ts@.len(),
    ensures
        r@ == join_tokens(vec_views(ts@).subrange(from as int, ts@.len() as int)),
{
    let ghost v = vec_views(ts@);
    let mut out = copy_range(ts[from].as_slice(), 0, ts[from].len());
    assert(ts[from as int]@.subrange(0, ts[from as int]@.len() as int) =~= ts[from as int]@);
    assert(join_tokens(v.subrange(from as int, from + 1)) == v[from as int]);
    let n = ts.len();
    let mut k = from + 1;
    while k < n
        invariant
            from < k <= ts@.len(),
            n == ts@.len(),
            v == vec_views(ts@),
            out@ == join_tokens(v.subrange(from as int, k as int)),
        decreases ts@.len() - k,
    {
        out.push(32u8);
        push_bytes(&mut out, ts[k].as_slice());
        assert(v.subrange(from as int, k + 1).drop_last() =~= v.subrange(from as int, k as int));
        k = k + 1;
    }
    out
}

/// Name and value of one non-blank header line, when it holds a colon.
fn header_line_pair(line: &Vec<u8>) -> (r: Option<(String, String)>)
    requires
        valid_utf8(line@),
    ensures
        r is Some <==> has_colon(line@),
        r is Some ==> r->Some_0.0@ == decode_utf8(split_header(line@).0) && r->Some_0.1@
            == decode_utf8(split_header(line@).1),
{
    let c = find_byte_from(line.as_slice(), 58, 0);
    if c >= line.len() {
        return None;
    }
    proof {
        lemma_find_byte(line@, 58, 0);
    }
    let mut vstart = c + 1;
    if vstart < line.len() && line[vstart] == 32 {
        vstart = vstart + 1;
    }
    let name = copy_range(line.as_slice(), 0, c);
    let value = copy_range(line.as_slice(), vstart, line.len());
    assert(value@ == split_header(line@).1) by {
        let restv = line@.subrange(c + 1, line@.len() as int);
        if restv.len() > 0 && restv[0] == 32 {
            assert(restv.drop_first() =~= value@);
        } else {
            assert(restv =~= value@);
        }
    }
    proof {
        lemma_ascii_delimited(line@, 0, c as int);
        lemma_ascii_delimited(line@, vstart as int, line@.len() as int);
    }
    let n = string_from_utf8(name);
    let v = string_from_utf8(value);
    match (n, v) {
        (Some(n), Some(v)) => Some((n, v)),
        _ => None,
    }
}

/// Decodes the header lines of a valid header block from position `s0` on.
#[verifier::rlimit(30)]
fn parse_header_lines(head: &[u8], s0: usize) -> (r: HeaderStore)
    requires
        valid_utf8(head@),
        0 < s0 <= head@.len(),
        head@[s0 - 1] == 10,
    ensures
        r@ == headers_of(scan_headers(head@, s0 as int).0),
{
    let mut store = HeaderStore::new();
    let mut s = s0;
    let ghost mut done: Seq<(Seq<u8>, Seq<u8>)> = Seq::empty();
    assert(done + scan_headers(head@, s0 as int).0 =~= scan_headers(head@, s0 as int).0);
    while s < head.len()
        invariant
            0 < s <= head@.len(),
            head@[s - 1] == 10,
            valid_utf8(head@),
            store@ == headers_of(done),
            done + scan_headers(head@, s as int).0 == scan_headers(head@, s0 as int).0,
        decreases head@.len() - s,
    {
        let (ce, e) = line_at(head, s);
        proof {
            lemma_find_byte(head@, 10, s as int);
        }
        if ce == s {
            assert(scan_headers(head@, s as int).0 == Seq::<(Seq<u8>, Seq<u8>)>::empty());
            assert(done =~= scan_headers(head@, s0 as int).0);
            return store;
        }
        let line = copy_range(head, s, ce);
        proof {
            lemma_ascii_delimited(head@, s as int, ce as int);
        }
        let ghost rest = if e < head@.len() {
            scan_headers(head@, e + 1).0
        } else {
            Seq::empty()
        };
        let ghost whole = scan_headers(head@, s as int).0;
        assert(whole == if has_colon(line@) {
            seq![split_header(line@)] + rest
        } else {
            rest
        });
        match header_line_pair(&line) {
            Some((n, v)) => {
                let ghost pair = split_header(line@);
                store.set(n, v);
                proof {
                    let d2 = done.push(pair);
                    assert(d2.drop_last() =~= done);
                    assert(d2 + rest =~= done + (seq![pair] + rest));
                    done = d2;
                }
            },
            None => {},
        }
        if e >= head.len() {
            assert(done =~= scan_headers(head@, s0 as int).0);
            return store;
        }
        s = e + 1;
    }
    assert(scan_headers(head@, s as int).0 == Seq::<(Seq<u8>, Seq<u8>)>::empty());
    assert(done =~= scan_headers(head@, s0 as int).0);
    store
}

/// Decodes the start line of a header block into its tokens, or says why it cannot.
fn start_tokens(head: &[u8]) -> (r: Result<Vec<Vec<u8>>, DecodeError>)
    ensures
        match r {
            Ok(t) => valid_utf8(head@) && vec_views(t@) == tokens(start_line(head@)),
            Err(e) => !valid_utf8(head@) && e == DecodeError::InvalidEncoding,
        },
        r is Ok ==> forall|k: int|
            0 <= k < r->Ok_0@.len() ==> valid_utf8(#[trigger] r->Ok_0@[k]@),
{
    let copy = copy_range(head, 0, head.len());
    assert(head@.subrange(0, head@.len() as int) =~= head@);
    if string_from_utf8(copy).is_none() {
        return Err(DecodeError::InvalidEncoding);
    }
    let (ce, e) = line_at(head, 0);
    proof {
        lemma_find_byte(head@, 10, 0);
        lemma_ascii_delimited(head@, 0, ce as int);
    }
    let line = copy_range(head, 0, ce);
    let t = split_tokens(line.as_slice());
    proof {
        lemma_tokens_valid(line@);
        assert forall|k: int| 0 <= k < t@.len() implies valid_utf8(#[trigger] t@[k]@) by {
            assert(vec_views(t@)[k] == t@[k]@);
        }
    }
    Ok(t)
}

/// Decodes a request from its header block (start line, header lines, and optionally the blank
/// line that ends them) and its body.
pub fn decode_request_parts(head: &[u8], body: Vec<u8>) -> (r: Result<HttpRequest, DecodeError>)
    ensures
        match spec_decode_request(head@, body@) {
            Ok(v) => r is Ok && r->Ok_0@ == v,
            Err(e) => r == Err::<HttpRequest, DecodeError>(e),
        },
{
    let t = match start_tokens(head) {
        Ok(t) => t,
        Err(e) => {
            return Err(e);
        },
    };
    if t.len() != 3 {
        return Err(DecodeError::MalformedStartLine);
    }
    let (_, e0) = line_at(head, 0);
    proof {
        lemma_find_byte(head@, 10, 0);
    }
    let headers = if e0 < head.len() {
        parse_header_lines(head, e0 + 1)
    } else {
        HeaderStore::new()
    };
    assert(vec_views(t@)[0] == t@[0]@ && vec_views(t@)[1] == t@[1]@ && vec_views(t@)[2] == t@[2]@);
    let m = string_from_utf8(copy_range(t[0].as_slice(), 0, t[0].len()));
    let u = string_from_utf8(copy_range(t[1].as_slice(), 0, t[1].len()));
    let v = string_from_utf8(copy_range(t[2].as_slice(), 0, t[2].len()));
    assert(t@[0]@.subrange(0, t@[0]@.len() as int) =~= t@[0]@);
    assert(t@[1]@.subrange(0, t@[1]@.len() as int) =~= t@[1]@);
    assert(t@[2]@.subrange(0, t@[2]@.len() as int) =~= t@[2]@);
    match (m, u, v) {
        (Some(m), Some(u), Some(v)) => Ok(HttpRequest::new(m, u, v, headers, body)),
        _ => Err(DecodeError::InvalidEncoding),
    }
}

/// Decodes a response from its header block and its body.
pub fn decode_response_parts(head: &[u8], body: Vec<u8>) -> (r: Result<HttpResponse, DecodeError>)
    ensures
        match spec_decode_response(head@, body@) {
            Ok(v) => r is Ok && r->Ok_0@ == v,
            Err(e) => r == Err::<HttpResponse, DecodeError>(e),
        },
{
    let t = match start_tokens(head) {
        Ok(t) => t,
        Err(e) => {
            return Err(e);
        },
    };
    if t.len() < 3 {
        return Err(DecodeError::MalformedStartLine);
    }
    assert(vec_views(t@)[0] == t@[0]@ && vec_views(t@)[1] == t@[1]@);
    let code = match parse_status_code_bytes(t[1].as_slice()) {
        Some(c) => c,
        None => {
            return Err(DecodeError::InvalidStatusCode);
        },
    };
    let (_, e0) = line_at(head, 0);
    proof {
        lemma_find_byte(head@, 10, 0);
    }
    let headers = if e0 < head.len() {
        parse_header_lines(head, e0 + 1)
    } else {
        HeaderStore::new()
    };
    let message = join_from(&t, 2);
    proof {
        let rest = vec_views(t@).subrange(2, t@.len() as int);
        assert forall|k: int| 0 <= k < rest.len() implies valid_utf8(#[trigger] rest[k]) by {
            assert(rest[k] == t@[k + 2]@);
        }
        lemma_join_valid(rest);
    }
    let v = string_from_utf8(copy_range(t[0].as_slice(), 0, t[0].len()));
    let msg = string_from_utf8(message);
    assert(t@[0]@.subrange(0, t@[0]@.len() as int) =~= t@[0]@);
    match (v, msg) {
        (Some(v), Some(msg)) => Ok(HttpResponse::new(v, code, msg, headers, body)),
        _ => Err(DecodeError::InvalidEncoding),
    }
}

/// Length of the header block at the front of `b`.
pub fn head_length(b: &[u8]) -> (r: usize)
    ensures
        r == head_len(b@),
        r <= b@.len(),
{
    let (_, e0) = line_at(b, 0);
    if e0 >= b.len() {
        return b.len();
    }
    let s0 = e0 + 1;
    let mut s = s0;
    while s < b.len()
        invariant
            0 < s0 <= s <= b@.len(),
            scan_headers(b@, s as int).1 == scan_headers(b@, s0 as int).1,
            head_len(b@) == scan_headers(b@, s0 as int).1,
        decreases b@.len() - s,
    {
        let (ce, e) = line_at(b, s);
        proof {
            lemma_find_byte(b@, 10, s as int);
        }
        let ghost line = strip_cr(b@.subrange(s as int, e as int));
        assert(ce == s <==> line.len() == 0);
        if ce == s {
            return if e < b.len() {
                e + 1
            } else {
                b.len()
            };
        }
        if e >= b.len() {
            return b.len();
        }
        s = e + 1;
    }
    b.len()
}

/// The header block at the front of a message.
pub open spec fn message_head(b: Seq<u8>) -> Seq<u8> {
    b.take(head_len(b))
}

/// What follows the header block of a message.
pub open spec fn message_body(b: Seq<u8>) -> Seq<u8> {
    b.skip(head_len(b))
}

/// Decodes a whole request: the header block runs up to and including the first blank line
/// after the start line, and everything after it is the body.
pub fn decode_request(bytes: &[u8]) -> (r: Result<HttpRequest, DecodeError>)
    ensures
        match spec_decode_request(message_head(bytes@), message_body(bytes@)) {
            Ok(v) => r is Ok && r->Ok_0@ == v,
            Err(e) => r == Err::<HttpRequest, DecodeError>(e),
        },
{
    let n = head_length(bytes);
    let head = copy_range(bytes, 0, n);
    let body = copy_range(bytes, n, bytes.len());
    assert(head@ =~= message_head(bytes@));
    assert(body@ =~= message_body(bytes@));
    decode_request_parts(head.as_slice(), body)
}

/// Decodes a whole response, split as for a request.
pub fn decode_response(bytes: &[u8]) -> (r: Result<HttpResponse, DecodeError>)
    ensures
        match spec_decode_response(message_head(bytes@), message_body(bytes@)) {
            Ok(v) => r is Ok && r->Ok_0@ == v,
            Err(e) => r == Err::<HttpResponse, DecodeError>(e),
        },
{
    let n = head_length(bytes);
    let head = copy_range(bytes, 0, n);
    let body = copy_range(bytes, n, bytes.len());
    assert(head@ =~= message_head(bytes@));
    assert(body@ =~= message_body(bytes@));
    decode_response_parts(head.as_slice(), body)
}

} // verus!
