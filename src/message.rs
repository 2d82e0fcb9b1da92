use vstd::prelude::*;
use vstd::string::*;
use vstd::utf8::*;
use crate::codec::{copy_range, string_from_utf8};
use crate::header::HTTPHeader;
use crate::wire::{decimal, push_bytes, push_decimal, push_str};

verus! {

/// `char::is_whitespace`: the characters with the Unicode White_Space property.
pub open spec fn is_unicode_ws(c: char) -> bool {
    let v = c as u32;
    (9 <= v <= 13) || v == 32 || v == 0x85 || v == 0xA0 || v == 0x1680 || (0x2000 <= v <= 0x200A)
        || v == 0x2028 || v == 0x2029 || v == 0x202F || v == 0x205F || v == 0x3000
}

fn unicode_ws(c: char) -> (r: bool)
    ensures
        r == is_unicode_ws(c),
{
    let v = c as u32;
    (9 <= v && v <= 13) || v == 32 || v == 0x85 || v == 0xA0 || v == 0x1680 || (0x2000 <= v && v
        <= 0x200A) || v == 0x2028 || v == 0x2029 || v == 0x202F || v == 0x205F || v == 0x3000
}

/// Index of the first `x` in `s` at or after `i`, or `s.len()`.
pub open spec fn find_char(s: Seq<char>, x: char, i: int) -> int
    decreases s.len() - i,
{
    if i < 0 || i >= s.len() {
        s.len() as int
    } else if s[i] == x {
        i
    } else {
        find_char(s, x, i + 1)
    }
}

proof fn lemma_find_char(s: Seq<char>, x: char, i: int)
    requires
        0 <= i <= s.len(),
    ensures
        i <= find_char(s, x, i) <= s.len(),
        find_char(s, x, i) < s.len() ==> s[find_char(s, x, i)] == x,
    decreases s.len() - i,
{
    if i < s.len() && s[i] != x {
        lemma_find_char(s, x, i + 1);
    }
}

/// A line without the carriage return that may end it.
pub open spec fn strip_cr_chars(l: Seq<char>) -> Seq<char> {
    if l.len() > 0 && l.last() == '\r' {
        l.drop_last()
    } else {
        l
    }
}

/// The lines of `s` from position `i` on, as `str::lines` gives them: split at each line feed,
/// a carriage return before it dropped, and no empty line after a final line feed.
pub open spec fn lines_from(s: Seq<char>, i: int) -> Seq<Seq<char>>
    decreases s.len() - i,
    via lines_from_decreases
{
    if i < 0 || i >= s.len() {
        Seq::empty()
    } else {
        let e = find_char(s, '\n', i);
        seq![strip_cr_chars(s.subrange(i, e))] + if e < s.len() {
            lines_from(s, e + 1)
        } else {
            Seq::empty()
        }
    }
}

#[via_fn]
proof fn lines_from_decreases(s: Seq<char>, i: int) {
    if 0 <= i < s.len() {
        lemma_find_char(s, '\n', i);
    }
}

/// Tokens of `s` separated by whitespace, from position `i` on, `cur` being the token read so
/// far.
pub open spec fn word_acc(s: Seq<char>, i: int, cur: Seq<char>) -> Seq<Seq<char>>
    decreases s.len() - i,
{
    let done = if cur.len() > 0 { seq![cur] } else { Seq::empty() };
    if i < 0 || i >= s.len() {
        done
    } else if is_unicode_ws(s[i]) {
        done + word_acc(s, i + 1, Seq::empty())
    } else {
        word_acc(s, i + 1, cur.push(s[i]))
    }
}

/// What `str::split_whitespace` gives.
pub open spec fn words(s: Seq<char>) -> Seq<Seq<char>> {
    word_acc(s, 0, Seq::empty())
}

/// Index of the first `": "` in `l` at or after `i`, or `l.len()`.
pub open spec fn find_colon_space(l: Seq<char>, i: int) -> int
    decreases l.len() - i,
{
    if i < 0 || i + 1 >= l.len() {
        l.len() as int
    } else if l[i] == ':' && l[i + 1] == ' ' {
        i
    } else {
        find_colon_space(l, i + 1)
    }
}

/// The lines that hold `": "`, split there into name and value.
pub open spec fn header_fields(ls: Seq<Seq<char>>) -> Seq<(Seq<char>, Seq<char>)>
    decreases ls.len(),
{
    if ls.len() == 0 {
        Seq::empty()
    } else {
        let l = ls[0];
        let c = find_colon_space(l, 0);
        (if c < l.len() {
            seq![(l.subrange(0, c), l.subrange(c + 2, l.len() as int))]
        } else {
            Seq::empty()
        }) + header_fields(ls.drop_first())
    }
}

/// Index of the first `\r\n\r\n` in `b` at or after `i`.
pub open spec fn find_blank_line(b: Seq<u8>, i: int) -> Option<int>
    decreases b.len() - i,
{
    if i < 0 || i + 4 > b.len() {
        None
    } else if b[i] == 13 && b[i + 1] == 10 && b[i + 2] == 13 && b[i + 3] == 10 {
        Some(i)
    } else {
        find_blank_line(b, i + 1)
    }
}

pub open spec fn header_views(h: Seq<HTTPHeader>) -> Seq<(Seq<char>, Seq<char>)> {
    Seq::new(h.len(), |i: int| (h[i].0@, h[i].1@))
}

pub open spec fn string_views(v: Seq<String>) -> Seq<Seq<char>> {
    Seq::new(v.len(), |i: int| v[i]@)
}

/// Plain value of a parsed request.
pub ghost struct ParsedRequest {
    pub method: Seq<char>,
    pub uri: Seq<char>,
    pub version: Seq<char>,
    pub headers: Seq<(Seq<char>, Seq<char>)>,
    pub body: Seq<u8>,
}

/// A request parsed from bytes: the header block ends at the first `\r\n\r\n`, must be UTF-8 and
/// must hold more than whitespace; its first line has exactly three words; each further line
/// that holds `": "` is a header.
pub open spec fn parse_request(b: Seq<u8>) -> Result<ParsedRequest, Seq<char>> {
    if b.len() == 0 {
        Err("Invalid byte count!"@)
    } else {
        match find_blank_line(b, 0) {
            None => Err("Failed to find body index!"@),
            Some(i) => {
                let meta = b.take(i + 4);
                if !valid_utf8(meta) {
                    Err("Invalid UTF-8!"@)
                } else {
                    let m = decode_utf8(meta);
                    if forall|k: int| 0 <= k < m.len() ==> is_unicode_ws(#[trigger] m[k]) {
                        Err("Invalid meta format!"@)
                    } else {
                        let ls = lines_from(m, 0);
                        let w = words(ls[0]);
                        if w.len() != 3 {
                            Err("Invalid status line!"@)
                        } else {
                            Ok(
                                ParsedRequest {
                                    method: w[0],
                                    uri: w[1],
                                    version: w[2],
                                    headers: header_fields(ls.drop_first()),
                                    body: b.skip(i + 4),
                                },
                            )
                        }
                    }
                }
            },
        }
    }
}

/// Index of the first `x` in `s` at or after `i`, or its length.
fn find_char_from(s: &str, x: char, i: usize) -> (r: usize)
    requires
        i <= s@.len(),
    ensures
        r == find_char(s@, x, i as int),
{
    let n = s.unicode_len();
    let mut k = i;
    while k < n
        invariant
            i <= k <= n,
            n == s@.len(),
            find_char(s@, x, i as int) == find_char(s@, x, k as int),
        decreases n - k,
    {
        if s.get_char(k) == x {
            return k;
        }
        k = k + 1;
    }
    k
}

/// Index of the first `": "` in `s`, or its length.
fn find_colon_space_from(s: &str) -> (r: usize)
    ensures
        r == find_colon_space(s@, 0),
        r < s@.len() ==> r + 1 < s@.len(),
{
    let n = s.unicode_len();
    let mut k: usize = 0;
    while k < n && k + 1 < n
        invariant
            k <= n,
            n == s@.len(),
            find_colon_space(s@, 0) == find_colon_space(s@, k as int),
        decreases n - k,
    {
        if s.get_char(k) == ':' && s.get_char(k + 1) == ' ' {
            return k;
        }
        k = k + 1;
    }
    n
}

fn copy_headers(headers: &[HTTPHeader]) -> (r: Vec<HTTPHeader>)
    ensures
        header_views(r@) == header_views(headers@),
{
    let mut out: Vec<HTTPHeader> = Vec::new();
    let mut i: usize = 0;
    while i < headers.len()
        invariant
            i <= headers@.len(),
            out@.len() == i,
            forall|k: int| 0 <= k < i ==> #[trigger] out@[k].0@ == headers@[k].0@ && out@[k].1@ == headers@[k].1@,
        decreases headers@.len() - i,
    {
        let h = &headers[i];
        let name = h.0.clone();
        let value = h.1.clone();
        out.push(HTTPHeader(name, value));
        i = i + 1;
    }
    assert(header_views(out@) =~= header_views(headers@));
    out
}

/// A request as plain fields.
#[derive(Debug, Clone)]
pub struct HTTPRequest {
    pub method: String,
    pub uri: String,
    pub version: String,
    pub headers: Vec<HTTPHeader>,
    pub body: Vec<u8>,
}

impl View for HTTPRequest {
    type V = ParsedRequest;

    open spec fn view(&self) -> ParsedRequest {
        ParsedRequest {
            method: self.method@,
            uri: self.uri@,
            version: self.version@,
            headers: header_views(self.headers@),
            body: self.body@,
        }
    }
}

impl HTTPRequest {
    pub fn new(method: &str, uri: &str, version: &str, headers: &[HTTPHeader], body: &[u8]) -> (r:
        Self)
        ensures
            r@ == (ParsedRequest {
                method: method@,
                uri: uri@,
                version: version@,
                headers: header_views(headers@),
                body: body@,
            }),
    {
        let r = HTTPRequest {
            method: method.to_owned(),
            uri: uri.to_owned(),
            version: version.to_owned(),
            headers: copy_headers(headers),
            body: copy_range(body, 0, body.len()),
        };
        assert(r.body@ =~= body@);
        r
    }

    pub fn from_bytes(bytes: &[u8]) -> (r: Result<Self, String>)
        ensures
            match parse_request(bytes@) {
                Ok(v) => r is Ok && r->Ok_0@ == v,
                Err(e) => r is Err && r->Err_0@ == e,
            },
    {
        if bytes.len() == 0 {
            return Err(String::from_str("Invalid byte count!"));
        }
        let body_index = match HTTPRequest::find_body_index(bytes) {
            Ok(i) => i,
            Err(e) => {
                return Err(e);
            },
        };
        let body = HTTPRequest::get_body(bytes, body_index);
        let meta = match string_from_utf8(copy_range(bytes, 0, body_index)) {
            Some(m) => m,
            None => {
                return Err(String::from_str("Invalid UTF-8!"));
            },
        };
        let (status_string, header_strings) = match HTTPRequest::split_meta(meta.as_str()) {
            Ok(p) => p,
            Err(e) => {
                return Err(e);
            },
        };
        let (method, uri, version) = match HTTPRequest::split_status(status_string.as_str()) {
            Ok(t) => t,
            Err(e) => {
                return Err(e);
            },
        };
        let headers = HTTPRequest::parse_headers(header_strings.as_slice());
        assert(string_views(header_strings@) == lines_from(meta@, 0).drop_first());
        Ok(
            HTTPRequest::new(
                method.as_str(),
                uri.as_str(),
                version.as_str(),
                headers.as_slice(),
                body.as_slice(),
            ),
        )
    }

    /// Where the body starts: after the first `\r\n\r\n`.
    fn find_body_index(bytes: &[u8]) -> (r: Result<usize, String>)
        ensures
            match find_blank_line(bytes@, 0) {
                Some(i) => r is Ok && r->Ok_0 == i + 4 && i + 4 <= bytes@.len(),
                None => r is Err && r->Err_0@ == "Failed to find body index!"@,
            },
    {
        let mut i: usize = 0;
        while i < bytes.len() && bytes.len() - i >= 4
            invariant
                find_blank_line(bytes@, 0) == find_blank_line(bytes@, i as int),
            decreases bytes@.len() - i,
        {
            if bytes[i] == 13 && bytes[i + 1] == 10 && bytes[i + 2] == 13 && bytes[i + 3] == 10 {
                return Ok(i + 4);
            }
            i = i + 1;
        }
        Err(String::from_str("Failed to find body index!"))
    }

    fn get_body(bytes: &[u8], index: usize) -> (r: Vec<u8>)
        requires
            index <= bytes@.len(),
        ensures
            r@ == bytes@.skip(index as int),
    {
        let r = copy_range(bytes, index, bytes.len());
        assert(r@ =~= bytes@.skip(index as int));
        r
    }

    /// The first line of the header block, and the lines after it; fails when the block holds
    /// nothing but whitespace.
    fn split_meta(meta: &str) -> (r: Result<(String, Vec<String>), String>)
        ensures
            match r {
                Ok((status, rest)) => {
                    &&& !(forall|k: int| 0 <= k < meta@.len() ==> is_unicode_ws(#[trigger] meta@[k]))
                    &&& lines_from(meta@, 0).len() > 0
                    &&& status@ == lines_from(meta@, 0)[0]
                    &&& string_views(rest@) == lines_from(meta@, 0).drop_first()
                },
                Err(e) => (forall|k: int| 0 <= k < meta@.len() ==> is_unicode_ws(#[trigger] meta@[k]))
                    && e@ == "Invalid meta format!"@,
            },
    {
        let n = meta.unicode_len();
        let mut j: usize = 0;
        while j < n && unicode_ws(meta.get_char(j))
            invariant
                j <= n,
                n == meta@.len(),
                forall|k: int| 0 <= k < j ==> is_unicode_ws(#[trigger] meta@[k]),
            decreases n - j,
        {
            j = j + 1;
        }
        if j >= n {
            return Err(String::from_str("Invalid meta format!"));
        }
        let mut lines: Vec<String> = Vec::new();
        let mut i: usize = 0;
        while i < n
            invariant
                i <= n,
                n == meta@.len(),
                string_views(lines@) + lines_from(meta@, i as int) == lines_from(meta@, 0),
            decreases n - i,
        {
            let e = find_char_from(meta, '\n', i);
            proof {
                lemma_find_char(meta@, '\n', i as int);
            }
            let end = if e > i && meta.get_char(e - 1) == '\r' {
                e - 1
            } else {
                e
            };
            let line = meta.substring_char(i, end).to_owned();
            proof {
                let piece = meta@.subrange(i as int, e as int);
                if e > i && meta@[e - 1] == '\r' {
                    assert(piece.drop_last() =~= meta@.subrange(i as int, end as int));
                }
                assert(line@ == strip_cr_chars(piece));
            }
            let ghost before = string_views(lines@);
            lines.push(line);
            assert(string_views(lines@) =~= before.push(line@));
            let ghost tail = if e < n {
                lines_from(meta@, e + 1)
            } else {
                Seq::empty()
            };
            assert(lines_from(meta@, i as int) == seq![line@] + tail);
            assert(before + (seq![line@] + tail) =~= before.push(line@) + tail);
            if e >= n {
                i = n;
            } else {
                i = e + 1;
            }
        }
        assert(string_views(lines@) =~= lines_from(meta@, 0));
        assert(lines_from(meta@, 0).len() > 0);
        let status = lines.remove(0);
        assert(string_views(lines@) =~= lines_from(meta@, 0).drop_first());
        Ok((status, lines))
    }

    /// The three words of the start line.
    fn split_status(status_line: &str) -> (r: Result<(String, String, String), String>)
        ensures
            match r {
                Ok((m, u, v)) => {
                    let w = words(status_line@);
                    &&& w.len() == 3
                    &&& m@ == w[0]
                    &&& u@ == w[1]
                    &&& v@ == w[2]
                },
                Err(e) => words(status_line@).len() != 3 && e@ == "Invalid status line!"@,
            },
    {
        let n = status_line.unicode_len();
        let ghost s = status_line@;
        let mut out: Vec<String> = Vec::new();
        let mut st: usize = 0;
        let mut i: usize = 0;
        assert(s.subrange(0, 0) =~= Seq::<char>::empty());
        assert(string_views(out@) + words(s) =~= words(s));
        while i < n
            invariant
                st <= i <= n,
                n == s.len(),
                s == status_line@,
                string_views(out@) + word_acc(s, i as int, s.subrange(st as int, i as int))
                    == words(s),
            decreases n - i,
        {
            let c = status_line.get_char(i);
            let ghost before = string_views(out@);
            let ghost cur = s.subrange(st as int, i as int);
            if unicode_ws(c) {
                if st < i {
                    let w = status_line.substring_char(st, i).to_owned();
                    out.push(w);
                    assert(string_views(out@) =~= before + seq![cur]);
                } else {
                    assert(string_views(out@) =~= before + Seq::<Seq<char>>::empty());
                }
                assert(s.subrange(i + 1, i + 1) =~= Seq::<char>::empty());
                st = i + 1;
            } else {
                assert(s.subrange(st as int, i + 1) =~= cur.push(c));
            }
            i = i + 1;
        }
        if st < n {
            let ghost before = string_views(out@);
            let w = status_line.substring_char(st, n).to_owned();
            out.push(w);
            assert(string_views(out@) =~= before + seq![s.subrange(st as int, n as int)]);
        } else {
            assert(string_views(out@) + Seq::<Seq<char>>::empty() =~= string_views(out@));
        }
        assert(string_views(out@) == words(s));
        if out.len() != 3 {
            return Err(String::from_str("Invalid status line!"));
        }
        assert(string_views(out@)[0] == out@[0]@);
        assert(string_views(out@)[1] == out@[1]@);
        assert(string_views(out@)[2] == out@[2]@);
        Ok((out[0].clone(), out[1].clone(), out[2].clone()))
    }

    /// The lines that hold `": "`, split there into name and value; other lines are dropped.
    fn parse_headers(header_strings: &[String]) -> (r: Vec<HTTPHeader>)
        ensures
            header_views(r@) == header_fields(string_views(header_strings@)),
    {
        let ghost all = string_views(header_strings@);
        let mut out: Vec<HTTPHeader> = Vec::new();
        let mut i: usize = 0;
        assert(all.skip(0) =~= all);
        while i < header_strings.len()
            invariant
                i <= header_strings@.len(),
                all == string_views(header_strings@),
                header_views(out@) + header_fields(all.skip(i as int)) == header_fields(all),
            decreases header_strings@.len() - i,
        {
            let l = header_strings[i].as_str();
            let ghost rest = all.skip(i as int);
            assert(rest[0] == l@);
            assert(rest.drop_first() =~= all.skip(i + 1));
            let c = find_colon_space_from(l);
            let n = l.unicode_len();
            let ghost before = header_views(out@);
            if c < n {
                let name = l.substring_char(0, c).to_owned();
                let value = l.substring_char(c + 2, n).to_owned();
                out.push(HTTPHeader(name, value));
                assert(header_views(out@) =~= before + seq![(name@, value@)]);
            } else {
                assert(before + Seq::<(Seq<char>, Seq<char>)>::empty() =~= before);
            }
            i = i + 1;
        }
        assert(all.skip(i as int) =~= Seq::<Seq<char>>::empty());
        assert(header_views(out@) + Seq::<(Seq<char>, Seq<char>)>::empty() =~= header_views(out@));
        out
    }
}

/// Header lines that each begin with a line terminator: `\r\nNAME: VALUE`.
pub open spec fn prefixed_header_bytes(h: Seq<(Seq<char>, Seq<char>)>) -> Seq<u8>
    decreases h.len(),
{
    if h.len() == 0 {
        Seq::empty()
    } else {
        prefixed_header_bytes(h.drop_last()) + seq![13u8, 10u8] + encode_utf8(h.last().0) + seq![
            58u8,
            32u8,
        ] + encode_utf8(h.last().1)
    }
}

/// Plain value of a response.
pub ghost struct ResponseFields {
    pub version: Seq<char>,
    pub status_code: usize,
    pub status_msg: Seq<char>,
    pub headers: Seq<(Seq<char>, Seq<char>)>,
    pub body: Seq<u8>,
}

/// Bytes of a response: `VERSION CODE MESSAGE`, each header on a line of its own after it, then
/// the body straight after the last line, with no blank line between.
pub open spec fn response_fields_bytes(r: ResponseFields) -> Seq<u8> {
    encode_utf8(r.version) + seq![32u8] + decimal(r.status_code as nat) + seq![32u8] + encode_utf8(
        r.status_msg,
    ) + prefixed_header_bytes(r.headers) + r.body
}

/// A response as plain fields.
#[derive(Debug, Clone)]
pub struct HTTPResponse {
    pub version: String,
    pub status_code: usize,
    pub status_msg: String,
    pub headers: Vec<HTTPHeader>,
    pub body: Vec<u8>,
}

impl View for HTTPResponse {
    type V = ResponseFields;

    open spec fn view(&self) -> ResponseFields {
        ResponseFields {
            version: self.version@,
            status_code: self.status_code,
            status_msg: self.status_msg@,
            headers: header_views(self.headers@),
            body: self.body@,
        }
    }
}

impl HTTPResponse {
    /// A response with no headers.
    pub fn new(version: &str, status_code: usize, status_msg: &str, body: &[u8]) -> (r: Self)
        ensures
            r@ == (ResponseFields {
                version: version@,
                status_code,
                status_msg: status_msg@,
                headers: Seq::empty(),
                body: body@,
            }),
    {
        let r = HTTPResponse {
            version: version.to_owned(),
            status_code,
            status_msg: status_msg.to_owned(),
            headers: Vec::new(),
            body: copy_range(body, 0, body.len()),
        };
        assert(r.body@ =~= body@);
        assert(r@.headers =~= Seq::<(Seq<char>, Seq<char>)>::empty());
        r
    }

    pub fn add_header(&mut self, header: &HTTPHeader)
        ensures
            final(self)@ == (ResponseFields {
                headers: old(self)@.headers.push((header.0@, header.1@)),
                ..old(self)@
            }),
    {
        let ghost before = self.headers@;
        self.headers.push(HTTPHeader(header.0.clone(), header.1.clone()));
        assert(header_views(self.headers@) =~= header_views(before).push((header.0@, header.1@)));
    }

    pub fn to_bytes(&self) -> (r: Vec<u8>)
        ensures
            r@ == response_fields_bytes(self@),
    {
        let mut out: Vec<u8> = Vec::new();
        push_str(&mut out, self.version.as_str());
        out.push(32u8);
        push_decimal(&mut out, self.status_code as u64);
        out.push(32u8);
        push_str(&mut out, self.status_msg.as_str());
        let ghost start = out@;
        let ghost hv = header_views(self.headers@);
        let mut i: usize = 0;
        while i < self.headers.len()
            invariant
                i <= self.headers@.len(),
                hv == header_views(self.headers@),
                out@ == start + prefixed_header_bytes(hv.take(i as int)),
            decreases self.headers@.len() - i,
        {
            let h = &self.headers[i];
            out.push(13u8);
            out.push(10u8);
            push_str(&mut out, h.0.as_str());
            out.push(58u8);
            out.push(32u8);
            push_str(&mut out, h.1.as_str());
            proof {
                let t = hv.take(i + 1);
                assert(t.drop_last() =~= hv.take(i as int));
                assert(t.last() == (h.0@, h.1@));
            }
            i = i + 1;
            assert(out@ =~= start + prefixed_header_bytes(hv.take(i as int)));
        }
        assert(hv.take(i as int) =~= hv);
        push_bytes(&mut out, self.body.as_slice());
        assert(out@ =~= response_fields_bytes(self@));
        out
    }
}

} // verus!
