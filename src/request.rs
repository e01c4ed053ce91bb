use vstd::prelude::*;
use vstd::utf8::{
    decode_utf8, encode_scalar, encode_utf8, encode_utf8_decode_utf8, encode_utf8_valid_utf8,
    valid_utf8,
};
use crate::error::RequestError;
use crate::text::{
    chars_of, decimal, decimal_text, digits_value, is_usize_text, is_white, lemma_decimal_digits,
    lemma_decimal_is_usize_text, lemma_runs_append_run, lemma_runs_push_separator, parse_usize,
    run_texts, runs, unsigned_digits, words,
};

verus! {

/// A parsed request: the host and path asked for, the optional query, the
/// client's address and the uploaded content.
#[derive(Debug, Clone)]
pub struct Request {
    /// The fully qualified domain name of the host.
    pub host: String,
    /// The path of the requested document.
    pub path: String,
    /// The text after the first `?` of the request target, if any.
    pub query: Option<String>,
    /// The client's address, as text.
    pub client_ip: String,
    /// The length of the uploaded content.
    pub length: usize,
    /// The uploaded content; present exactly when `length` is positive.
    pub content: Option<Vec<u8>>,
}

/// The fields of a well-formed header line.
#[derive(Debug, Clone)]
pub struct RequestHeader {
    pub host: String,
    pub path: String,
    pub query: Option<String>,
    pub length: usize,
}

/// The meaning of a well-formed header line.
pub struct HeaderModel {
    pub host: Seq<char>,
    pub path: Seq<char>,
    pub query: Option<Seq<char>>,
    pub length: nat,
}

/// Why a request is refused.
pub enum Fault {
    NotText,
    MissingSeparator,
    MissingField,
    ExtraField,
    InvalidContentLength,
    ShortContent,
}

/// `i` is the first position of `c` in `t`.
pub open spec fn is_first(t: Seq<char>, c: char, i: int) -> bool {
    &&& 0 <= i < t.len()
    &&& t[i] == c
    &&& forall|j: int| 0 <= j < i ==> t[j] != c
}

pub open spec fn has_char(t: Seq<char>, c: char) -> bool {
    exists|i: int| 0 <= i < t.len() && t[i] == c
}

/// The request target up to its first `?`, or all of it.
pub open spec fn target_before_query(t: Seq<char>) -> Seq<char> {
    if has_char(t, '?') {
        t.take(choose|i: int| is_first(t, '?', i))
    } else {
        t
    }
}

/// The path that a request target names: what precedes the first `?`, with
/// an empty path read as `/`.
pub open spec fn target_path(t: Seq<char>) -> Seq<char> {
    let p = target_before_query(t);
    if p.len() == 0 {
        seq!['/']
    } else {
        p
    }
}

/// The query of a request target: what follows its first `?`, if any.
pub open spec fn target_query(t: Seq<char>) -> Option<Seq<char>> {
    if has_char(t, '?') {
        Some(t.skip((choose|i: int| is_first(t, '?', i)) + 1))
    } else {
        None
    }
}

/// What a header line says: three white-space separated fields, host,
/// target and content length; or the first defect found.
pub open spec fn spec_header(line: Seq<u8>) -> Result<HeaderModel, Fault> {
    if !valid_utf8(line) {
        Err(Fault::NotText)
    } else {
        let w = words(decode_utf8(line));
        if w.len() == 1 {
            Err(Fault::MissingSeparator)
        } else if w.len() == 2 {
            Err(Fault::MissingField)
        } else if w.len() != 3 {
            Err(Fault::ExtraField)
        } else if !is_usize_text(w[2]) {
            Err(Fault::InvalidContentLength)
        } else {
            Ok(
                HeaderModel {
                    host: w[0],
                    path: target_path(w[1]),
                    query: target_query(w[1]),
                    length: digits_value(unsigned_digits(w[2])),
                },
            )
        }
    }
}

pub open spec fn newline_at(input: Seq<u8>, i: int) -> bool {
    &&& 0 <= i < input.len()
    &&& input[i] == 10
    &&& forall|j: int| 0 <= j < i ==> input[j] != 10
}

/// The header line of `input`: up to and including its first line feed, or
/// all of it where it has none.
pub open spec fn header_line(input: Seq<u8>) -> Seq<u8> {
    if exists|i: int| 0 <= i < input.len() && input[i] == 10 {
        input.take((choose|i: int| newline_at(input, i)) + 1)
    } else {
        input
    }
}

/// What a whole request says: its header, and the content that follows the
/// header line, of exactly the length the header gives.
pub open spec fn spec_parse(input: Seq<u8>) -> Result<(HeaderModel, Seq<u8>), Fault> {
    let line = header_line(input);
    match spec_header(line) {
        Err(f) => Err(f),
        Ok(h) => {
            let rest = input.skip(line.len() as int);
            if rest.len() < h.length {
                Err(Fault::ShortContent)
            } else {
                Ok((h, rest.take(h.length as int)))
            }
        },
    }
}

/// `e` is the error by which a request is refused for `f`.
pub open spec fn reports(e: RequestError, f: Fault) -> bool {
    match f {
        Fault::NotText => e matches RequestError::ReadError(m) && m@
            == "stream did not contain valid UTF-8"@,
        Fault::MissingSeparator => e is MissingSeparator,
        Fault::MissingField => e is MissingField,
        Fault::ExtraField => e is ExtraField,
        Fault::InvalidContentLength => e is InvalidContentLength,
        Fault::ShortContent => e matches RequestError::ReadError(m) && m@
            == "failed to fill whole buffer"@,
    }
}

impl RequestHeader {
    pub open spec fn models(&self, m: HeaderModel) -> bool {
        &&& self.host@ == m.host
        &&& self.path@ == m.path
        &&& self.query.deep_view() == m.query
        &&& self.length == m.length
    }
}

impl Request {
    /// Content is present exactly when the length is positive, and then has
    /// that length.
    pub open spec fn wf(&self) -> bool {
        match self.content {
            Some(c) => self.length > 0 && c@.len() == self.length,
            None => self.length == 0,
        }
    }

    /// This request is the one that header `m` and content `body` describe.
    pub open spec fn models(&self, m: HeaderModel, body: Seq<u8>) -> bool {
        &&& self.host@ == m.host
        &&& self.path@ == m.path
        &&& self.query.deep_view() == m.query
        &&& self.length == m.length
        &&& self.content.deep_view() == if m.length == 0 {
            None
        } else {
            Some(body)
        }
    }

    /// This request carries the fields of `h`, and the first `h.length`
    /// bytes of `rest` as its content.
    pub open spec fn completes(&self, h: &RequestHeader, rest: Seq<u8>) -> bool {
        &&& self.host@ == h.host@
        &&& self.path@ == h.path@
        &&& self.query.deep_view() == h.query.deep_view()
        &&& self.length == h.length
        &&& self.content.deep_view() == if h.length == 0 {
            None
        } else {
            Some(rest.take(h.length as int))
        }
    }

    pub open spec fn spec_log_line(&self) -> Seq<char> {
        let q = match self.query {
            Some(q) => q@,
            None => "none"@,
        };
        "Request: { host: "@ + self.host@ + "; path: "@ + self.path@ + "; query: "@ + q
            + "; client_ip: "@ + self.client_ip@ + "; length: "@ + decimal(self.length as nat)
            + "; }"@
    }

    /// The line that the log shows for this request.
    pub fn log_line(&self) -> (r: String)
        ensures
            r@ == self.spec_log_line(),
    {
        let mut s = String::from_str("Request: { host: ");
        s.append(self.host.as_str());
        s.append("; path: ");
        s.append(self.path.as_str());
        s.append("; query: ");
        match &self.query {
            Some(q) => s.append(q.as_str()),
            None => s.append("none"),
        }
        s.append("; client_ip: ");
        s.append(self.client_ip.as_str());
        s.append("; length: ");
        s.append(decimal_text(self.length).as_str());
        s.append("; }");
        s
    }
}

/// Relies on `std::str::from_utf8`: it accepts exactly the valid UTF-8
/// byte strings and reads them as the characters they encode.
#[verifier::external_body]
fn utf8_text(b: &[u8]) -> (r: Option<&str>)
    ensures
        r is Some <==> valid_utf8(b@),
        r is Some ==> r->0@ == decode_utf8(b@),
{
    std::str::from_utf8(b).ok()
}

fn find_char(t: &Vec<char>, c: char) -> (r: Option<usize>)
    ensures
        r is Some ==> is_first(t@, c, r->0 as int),
        r is None ==> !has_char(t@, c),
{
    let mut i: usize = 0;
    while i < t.len()
        invariant
            i <= t.len(),
            forall|j: int| 0 <= j < i ==> t@[j] != c,
        decreases t.len() - i,
    {
        if t[i] == c {
            return Some(i);
        }
        i = i + 1;
    }
    None
}

proof fn lemma_first_unique(t: Seq<char>, c: char, i: int)
    requires
        is_first(t, c, i),
    ensures
        has_char(t, c),
        (choose|k: int| is_first(t, c, k)) == i,
{
    let k = choose|k: int| is_first(t, c, k);
    assert(is_first(t, c, k));
    if k < i {
        assert(t[k] != c);
    } else if k > i {
        assert(t[i] != c);
    }
}

/// Splits a request target at its first `?` into path and query.
pub fn split_target(t: &str) -> (r: (String, Option<String>))
    ensures
        r.0@ == target_path(t@),
        r.1.deep_view() == target_query(t@),
{
    let cs = chars_of(t);
    let (mut path, query) = match find_char(&cs, '?') {
        Some(i) => {
            proof {
                lemma_first_unique(t@, '?', i as int);
            }
            assert(i < cs.len());
            let p = t.substring_char(0, i).to_owned();
            let q = t.substring_char(i + 1, cs.len()).to_owned();
            assert(p@ == t@.take(i as int));
            assert(q@ == t@.skip(i + 1));
            (p, Some(q))
        },
        None => (t.to_owned(), None),
    };
    if path.as_str().unicode_len() == 0 {
        path = String::from_str("/");
        proof {
            reveal_strlit("/");
        }
    }
    (path, query)
}

/// Reads a header line: host, request target and content length,
/// separated by white space.
pub fn parse_header(line: &[u8]) -> (r: Result<RequestHeader, RequestError>)
    ensures
        match spec_header(line@) {
            Ok(m) => r matches Ok(h) && h.models(m),
            Err(f) => r matches Err(e) && reports(e, f),
        },
{
    let text = match utf8_text(line) {
        Some(t) => t,
        None => {
            proof {
                reveal_strlit("stream did not contain valid UTF-8");
            }
            return Err(RequestError::ReadError(String::from_str("stream did not contain valid UTF-8")));
        },
    };
    let fields = run_texts(text, true);
    assert(fields.deep_view() == words(decode_utf8(line@)));
    assert(fields@.len() == fields.deep_view().len());
    if fields.len() == 1 {
        return Err(RequestError::MissingSeparator);
    } else if fields.len() == 2 {
        return Err(RequestError::MissingField);
    } else if fields.len() != 3 {
        return Err(RequestError::ExtraField);
    }
    assert(fields.deep_view()[2] == fields@[2]@);
    let length = match parse_usize(&chars_of(fields[2].as_str())) {
        Some(n) => n,
        None => return Err(RequestError::InvalidContentLength),
    };
    let (path, query) = split_target(fields[1].as_str());
    assert(fields.deep_view()[0] == fields@[0]@);
    assert(fields.deep_view()[1] == fields@[1]@);
    Ok(RequestHeader { host: fields[0].clone(), path, query, length })
}

fn find_newline(input: &[u8]) -> (r: Option<usize>)
    ensures
        r is Some ==> newline_at(input@, r->0 as int),
        r is None ==> forall|i: int| 0 <= i < input@.len() ==> input@[i] != 10,
{
    let mut i: usize = 0;
    while i < input.len()
        invariant
            i <= input@.len(),
            forall|j: int| 0 <= j < i ==> input@[j] != 10,
        decreases input@.len() - i,
    {
        if input[i] == 10 {
            return Some(i);
        }
        i = i + 1;
    }
    None
}

/// The bytes of `b` from `from` up to `to`.
pub fn copy_bytes(b: &[u8], from: usize, to: usize) -> (r: Vec<u8>)
    requires
        from <= to <= b@.len(),
    ensures
        r@ == b@.subrange(from as int, to as int),
{
    let mut out: Vec<u8> = Vec::new();
    let mut i = from;
    while i < to
        invariant
            from <= i <= to <= b@.len(),
            out@ == b@.subrange(from as int, i as int),
        decreases to - i,
    {
        out.push(b[i]);
        i = i + 1;
        assert(out@ == b@.subrange(from as int, i as int));
    }
    out
}

impl Request {
    /// Completes a parsed header with the client's address and the bytes
    /// that followed the header line: of these the content takes exactly
    /// the length the header gives, and too few of them is a read error.
    pub fn from_header(header: RequestHeader, client_ip: String, rest: &[u8]) -> (r: Result<
        Request,
        RequestError,
    >)
        ensures
            rest@.len() < header.length ==> (r matches Err(e) && reports(e, Fault::ShortContent)),
            rest@.len() >= header.length ==> (r matches Ok(q) && q.wf() && q.client_ip == client_ip
                && q.completes(&header, rest@)),
    {
        let content = if header.length == 0 {
            None
        } else if rest.len() < header.length {
            proof {
                reveal_strlit("failed to fill whole buffer");
            }
            return Err(RequestError::ReadError(String::from_str("failed to fill whole buffer")));
        } else {
            let body = copy_bytes(rest, 0, header.length);
            assert(body.deep_view() =~= rest@.take(header.length as int));
            Some(body)
        };
        Ok(
            Request {
                host: header.host,
                path: header.path,
                query: header.query,
                client_ip,
                length: header.length,
                content,
            },
        )
    }

    /// Parses a whole request: a header line ended by a line feed, then
    /// exactly as many content bytes as the header gives.
    pub fn parse(input: &[u8], client_ip: String) -> (r: Result<Request, RequestError>)
        ensures
            match spec_parse(input@) {
                Ok((m, body)) => r matches Ok(q) && q.wf() && q.models(m, body) && q.client_ip
                    == client_ip,
                Err(f) => r matches Err(e) && reports(e, f),
            },
    {
        let end = match find_newline(input) {
            Some(i) => {
                proof {
                    let k = choose|k: int| newline_at(input@, k);
                    assert(newline_at(input@, k));
                    if k < i {
                        assert(input@[k] != 10);
                    } else if k > i {
                        assert(input@[i as int] != 10);
                    }
                }
                assert(i < input.len());
                i + 1
            },
            None => input.len(),
        };
        let line = &input[0..end];
        let rest = &input[end..input.len()];
        assert(line@ == header_line(input@));
        let header = match parse_header(line) {
            Ok(h) => h,
            Err(e) => return Err(e),
        };
        Request::from_header(header, client_ip, rest)
    }
}

/// The number of header fields decides the first defect: one field misses
/// the separator, two miss a field, none or more than three have an extra
/// field, and three whose last is not a number have an invalid length.
pub proof fn lemma_field_count_faults(line: Seq<u8>)
    requires
        valid_utf8(line),
    ensures
        words(decode_utf8(line)).len() == 1 ==> spec_header(line) matches Err(
            Fault::MissingSeparator,
        ),
        words(decode_utf8(line)).len() == 2 ==> spec_header(line) matches Err(Fault::MissingField),
        words(decode_utf8(line)).len() >= 4 ==> spec_header(line) matches Err(Fault::ExtraField),
        words(decode_utf8(line)).len() == 3 && !is_usize_text(words(decode_utf8(line))[2])
            ==> spec_header(line) matches Err(Fault::InvalidContentLength),
{
}

proof fn lemma_encode_append(a: Seq<char>, b: Seq<char>)
    ensures
        encode_utf8(a + b) == encode_utf8(a) + encode_utf8(b),
    decreases a.len(),
{
    if a.len() > 0 {
        lemma_encode_append(a.drop_first(), b);
        assert((a + b).drop_first() == a.drop_first() + b);
        assert((a + b)[0] == a[0]);
    } else {
        assert(a + b == b);
    }
}

proof fn lemma_marked_bytes(x: u8)
    ensures
        (0x80u8 | x) != 10u8,
        (0xC0u8 | x) != 10u8,
        (0xE0u8 | x) != 10u8,
        (0xF0u8 | x) != 10u8,
{
    assert((0x80u8 | x) != 10u8) by (bit_vector);
    assert((0xC0u8 | x) != 10u8) by (bit_vector);
    assert((0xE0u8 | x) != 10u8) by (bit_vector);
    assert((0xF0u8 | x) != 10u8) by (bit_vector);
}

proof fn lemma_scalar_not_line_feed(v: u32)
    requires
        v != 10,
    ensures
        forall|j: int| 0 <= j < encode_scalar(v).len() ==> #[trigger] encode_scalar(v)[j] != 10,
{
    if v <= 0x7f {
        assert(((v & 0x7f) as u8) != 10u8) by (bit_vector)
            requires
                v <= 0x7f,
                v != 10,
        ;
    } else {
        lemma_marked_bytes(((v >> 6) & 0x1f) as u8);
        lemma_marked_bytes(((v >> 12) & 0x0f) as u8);
        lemma_marked_bytes(((v >> 18) & 0x7) as u8);
        lemma_marked_bytes((v & 0x3f) as u8);
        lemma_marked_bytes(((v >> 6) & 0x3f) as u8);
        lemma_marked_bytes(((v >> 12) & 0x3f) as u8);
    }
}

/// Text without a line feed encodes to bytes without one.
proof fn lemma_no_line_feed_byte(s: Seq<char>)
    requires
        forall|i: int| 0 <= i < s.len() ==> (#[trigger] s[i]) as u32 != 10,
    ensures
        forall|j: int| 0 <= j < encode_utf8(s).len() ==> #[trigger] encode_utf8(s)[j] != 10,
    decreases s.len(),
{
    if s.len() > 0 {
        lemma_no_line_feed_byte(s.drop_first());
        lemma_scalar_not_line_feed(s[0] as u32);
        let e = encode_scalar(s[0] as u32);
        let r = encode_utf8(s.drop_first());
        assert(encode_utf8(s) == e + r);
        assert forall|j: int| 0 <= j < encode_utf8(s).len() implies #[trigger] encode_utf8(s)[j] != 10 by {
            if j < e.len() {
                assert(encode_utf8(s)[j] == e[j]);
            } else {
                assert(encode_utf8(s)[j] == r[j - e.len()]);
            }
        }
    }
}

/// A request written as host, target and length, separated by spaces and
/// ended by CR LF, then followed by exactly that many bytes, parses to a
/// request for that host, the target's path (`/` where it is empty) and
/// query, that length, and those bytes as its content.
pub proof fn lemma_parse_well_formed(host: Seq<char>, target: Seq<char>, n: nat, body: Seq<u8>)
    requires
        host.len() > 0,
        target.len() > 0,
        forall|i: int| 0 <= i < host.len() ==> !is_white(#[trigger] host[i]),
        forall|i: int| 0 <= i < target.len() ==> !is_white(#[trigger] target[i]),
        n <= usize::MAX,
        body.len() == n,
    ensures
        spec_parse(
            encode_utf8(host + seq![' '] + target + seq![' '] + decimal(n) + seq!['\r', '\n'])
                + body,
        ) matches Ok((m, b)) && m.host == host && m.path == target_path(target) && m.query
            == target_query(target) && m.length == n && b == body,
{
    let d = decimal(n);
    lemma_decimal_is_usize_text(n);
    lemma_decimal_digits(n);
    let after_host = host + seq![' '];
    let to_target = after_host + target;
    let after_target = to_target + seq![' '];
    let to_length = after_target + d;
    let before_lf = to_length + seq!['\r'];
    let text = before_lf + seq!['\n'];
    assert(text == host + seq![' '] + target + seq![' '] + decimal(n) + seq!['\r', '\n']);
    // The words of the header line.
    assert(Seq::<char>::empty() + host == host);
    lemma_runs_append_run(Seq::<char>::empty(), host, true);
    assert(runs(Seq::<char>::empty(), true) == Seq::<Seq<char>>::empty());
    lemma_runs_push_separator(host, ' ', true);
    assert(host.push(' ') == after_host);
    lemma_runs_append_run(after_host, target, true);
    lemma_runs_push_separator(to_target, ' ', true);
    assert(to_target.push(' ') == after_target);
    assert forall|i: int| 0 <= i < d.len() implies !is_white(#[trigger] d[i]) by {
        assert(crate::text::is_digit(d[i]));
    }
    lemma_runs_append_run(after_target, d, true);
    lemma_runs_push_separator(to_length, '\r', true);
    assert(to_length.push('\r') == before_lf);
    lemma_runs_push_separator(before_lf, '\n', true);
    assert(before_lf.push('\n') == text);
    assert(words(text) == seq![host, target, d]);
    // The header line ends at the first line feed.
    let line = encode_utf8(text);
    let input = line + body;
    assert forall|i: int| 0 <= i < before_lf.len() implies (#[trigger] before_lf[i]) as u32 != 10 by {
        if i < host.len() {
            assert(before_lf[i] == host[i]);
        } else if i == host.len() {
        } else if i < to_target.len() {
            assert(before_lf[i] == target[i - host.len() - 1]);
        } else if i == to_target.len() {
        } else if i < to_length.len() {
            assert(before_lf[i] == d[i - after_target.len()]);
            assert(crate::text::is_digit(d[i - after_target.len()]));
        }
    }
    lemma_no_line_feed_byte(before_lf);
    lemma_encode_append(before_lf, seq!['\n']);
    let head = encode_utf8(before_lf);
    assert(encode_utf8(seq!['\n']) == seq![10u8]) by {
        let lf = seq!['\n'];
        assert(lf.drop_first() == Seq::<char>::empty());
        assert(lf[0] as u32 == 10);
        assert(((10u32 & 0x7fu32) as u8) == 10u8) by (bit_vector);
        assert(encode_scalar(10u32) == seq![10u8]);
        assert(encode_utf8(lf) == encode_scalar(lf[0] as u32) + encode_utf8(lf.drop_first()));
    }
    assert(line == head.push(10u8));
    assert(newline_at(input, head.len() as int)) by {
        assert forall|j: int| 0 <= j < head.len() implies input[j] != 10 by {
            assert(input[j] == head[j]);
        }
    }
    let k = choose|k: int| newline_at(input, k);
    assert(k == head.len()) by {
        if k < head.len() {
            assert(input[k] == head[k]);
        } else if k > head.len() {
            assert(input[head.len() as int] == 10);
        }
    }
    assert(header_line(input) == line);
    // The header line is text, and reads back as the characters written.
    encode_utf8_valid_utf8(text);
    encode_utf8_decode_utf8(text);
    assert(unsigned_digits(d) == d);
    assert(input.skip(line.len() as int) == body);
    assert(body.take(n as int) == body);
}

} // verus!
