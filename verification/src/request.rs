//! Request heads: where they end, and what their request line asks for.

use vstd::prelude::*;
use vstd::utf8::{
    decode_first_codepoint, decode_utf8, decode_utf8_encode_utf8, encode_utf8,
    encode_utf8_decode_utf8, encode_utf8_valid_utf8, is_ascii_chars_encode_utf8,
    is_char_boundary_iff_not_is_continuation_byte, pop_first_scalar, valid_utf8,
    valid_utf8_concat, valid_utf8_split,
};

use crate::bytes::{
    find, find_spec, first_match, lemma_find, lemma_find_prefix, lemma_find_some, matches_at, same,
    text, utf8,
};

verus! {

/// The offset just past the first `\r\n\r\n`, if there is one.
pub open spec fn head_end(buf: Seq<u8>) -> Option<int> {
    match find_spec(buf, text("\r\n\r\n")) {
        Some(i) => Some(i + 4),
        None => None,
    }
}

/// The four bytes of the blank line that closes a head.
pub proof fn lemma_head_terminator()
    ensures
        text("\r\n\r\n") == seq![13u8, 10u8, 13u8, 10u8],
{
    reveal_strlit("\r\n\r\n");
    is_ascii_chars_encode_utf8("\r\n\r\n"@);
    assert(text("\r\n\r\n") =~= seq![13u8, 10u8, 13u8, 10u8]);
}

/// The two bytes that close a line.
pub proof fn lemma_line_terminator()
    ensures
        text("\r\n") == seq![13u8, 10u8],
{
    reveal_strlit("\r\n");
    is_ascii_chars_encode_utf8("\r\n"@);
    assert(text("\r\n") =~= seq![13u8, 10u8]);
}

/// Returns the byte offset just past `\r\n\r\n`, or `None` if headers are incomplete.
pub fn headers_end(buf: &[u8]) -> (r: Option<usize>)
    ensures
        match r {
            Some(end) => head_end(buf@) == Some(end as int) && 4 <= end <= buf@.len(),
            None => head_end(buf@) is None,
        },
{
    proof {
        lemma_head_terminator();
        lemma_find(buf@, text("\r\n\r\n"));
        assert(buf@.len() == buf.len());
    }
    match find(buf, "\r\n\r\n".as_bytes()) {
        Some(i) => Some(i + 4),
        None => None,
    }
}

#[derive(Debug, PartialEq)]
pub enum Method {
    Get,
    Other(String),
}

impl Method {
    /// The method's name as the request line spells it.
    pub open spec fn name(self) -> Seq<char> {
        match self {
            Method::Get => "GET"@,
            Method::Other(name) => name@,
        }
    }
}

#[derive(Debug)]
pub struct Request {
    pub method: Method,
    pub path: String,
}

#[derive(Debug)]
pub enum ParseError {
    InvalidRequestLine,
}

/// The bytes before the first `\r\n`, if there is one.
pub open spec fn request_line(buf: Seq<u8>) -> Option<Seq<u8>> {
    match find_spec(buf, text("\r\n")) {
        Some(i) => Some(buf.take(i)),
        None => None,
    }
}

/// The method, the target and the version of a request line: what stands before
/// the first space, between it and the second one, and after that.
pub open spec fn line_parts(line: Seq<u8>) -> Option<(Seq<u8>, Seq<u8>, Seq<u8>)> {
    match find_spec(line, text(" ")) {
        Some(i) => {
            let rest = line.skip(i + 1);
            match find_spec(rest, text(" ")) {
                Some(j) => Some((line.take(i), rest.take(j), rest.skip(j + 1))),
                None => None,
            }
        },
        None => None,
    }
}

/// The versions that the server speaks.
pub open spec fn known_version(version: Seq<u8>) -> bool {
    version == text("HTTP/1.1") || version == text("HTTP/1.0")
}

/// A target without its query.
pub open spec fn target_path(target: Seq<u8>) -> Seq<u8> {
    match find_spec(target, text("?")) {
        Some(i) => target.take(i),
        None => target,
    }
}

/// The value of a hexadecimal digit.
pub open spec fn hex_value(b: u8) -> Option<u8> {
    if ('0' as u8) <= b <= '9' as u8 {
        Some((b - '0' as u8) as u8)
    } else if ('a' as u8) <= b <= 'f' as u8 {
        Some((b - 'a' as u8 + 10) as u8)
    } else if ('A' as u8) <= b <= 'F' as u8 {
        Some((b - 'A' as u8 + 10) as u8)
    } else {
        None
    }
}

/// `s` starts with a percent sign and two hexadecimal digits.
pub open spec fn starts_with_escape(s: Seq<u8>) -> bool {
    s.len() >= 3 && s[0] == '%' as u8 && hex_value(s[1]) is Some && hex_value(s[2]) is Some
}

/// `s` with each escape replaced by the byte that it stands for. A percent sign
/// that starts no escape stands for itself.
pub open spec fn percent_decoded(s: Seq<u8>) -> Seq<u8>
    decreases s.len(),
{
    if s.len() == 0 {
        Seq::empty()
    } else if starts_with_escape(s) {
        seq![(hex_value(s[1])->0 * 16 + hex_value(s[2])->0) as u8] + percent_decoded(s.skip(3))
    } else {
        seq![s[0]] + percent_decoded(s.skip(1))
    }
}

/// What a head asks for: the method's name and the decoded path, if its first line
/// is a request line in UTF-8 of a known version whose path decodes to UTF-8.
pub open spec fn parsed(buf: Seq<u8>) -> Option<(Seq<char>, Seq<char>)> {
    match request_line(buf) {
        Some(line) => match line_parts(line) {
            Some((method, target, version)) => {
                let path = percent_decoded(target_path(target));
                if valid_utf8(line) && known_version(version) && valid_utf8(path) {
                    Some((decode_utf8(method), decode_utf8(path)))
                } else {
                    None
                }
            },
            None => None,
        },
        None => None,
    }
}

/// The single bytes that separate the parts of a request line.
proof fn lemma_separators()
    ensures
        text(" ") == seq![' ' as u8],
        text("?") == seq!['?' as u8],
{
    reveal_strlit(" ");
    is_ascii_chars_encode_utf8(" "@);
    assert(text(" ") =~= seq![' ' as u8]);
    reveal_strlit("?");
    is_ascii_chars_encode_utf8("?"@);
    assert(text("?") =~= seq!['?' as u8]);
}

/// What stands before and after an ASCII character in valid UTF-8 is valid UTF-8.
proof fn lemma_around_ascii(s: Seq<u8>, i: int)
    requires
        valid_utf8(s),
        0 <= i < s.len(),
        s[i] < 0x80,
    ensures
        valid_utf8(s.take(i)),
        valid_utf8(s.skip(i + 1)),
{
    is_char_boundary_iff_not_is_continuation_byte(s, i);
    valid_utf8_split(s, i);
    assert(s.take(i) =~= s.subrange(0, i));
    let rest = s.subrange(i, s.len() as int);
    assert(pop_first_scalar(rest) =~= s.skip(i + 1));
}

impl Request {
    /// Parse an HTTP request from a byte slice that contains the complete headers.
    pub fn parse(buf: &[u8]) -> (r: Result<Self, ParseError>)
        ensures
            match r {
                Ok(request) => {
                    &&& parsed(buf@) == Some((request.method.name(), request.path@))
                    &&& request.method is Get <==> request.method.name() == "GET"@
                },
                Err(_) => parsed(buf@) is None,
            },
    {
        proof {
            lemma_find(buf@, text("\r\n"));
            lemma_line_terminator();
            lemma_separators();
        }
        let line_end: usize = match find(buf, "\r\n".as_bytes()) {
            Some(i) => i,
            None => return Err(ParseError::InvalidRequestLine),
        };
        let line = &buf[0..line_end];
        assert(line@ =~= buf@.take(line_end as int));
        if utf8(line).is_none() {
            return Err(ParseError::InvalidRequestLine);
        }
        proof {
            lemma_find(line@, text(" "));
        }
        let method_end: usize = match find(line, " ".as_bytes()) {
            Some(i) => i,
            None => return Err(ParseError::InvalidRequestLine),
        };
        let method_name = &line[0..method_end];
        let rest = &line[method_end + 1..line.len()];
        assert(method_name@ =~= line@.take(method_end as int));
        assert(rest@ =~= line@.skip(method_end + 1));
        proof {
            assert(line@.subrange(method_end as int, method_end + 1)[0] == ' ' as u8);
            lemma_around_ascii(line@, method_end as int);
            lemma_find(rest@, text(" "));
        }
        let target_end: usize = match find(rest, " ".as_bytes()) {
            Some(i) => i,
            None => return Err(ParseError::InvalidRequestLine),
        };
        let target = &rest[0..target_end];
        let version = &rest[target_end + 1..rest.len()];
        assert(target@ =~= rest@.take(target_end as int));
        assert(version@ =~= rest@.skip(target_end + 1));
        proof {
            assert(rest@.subrange(target_end as int, target_end + 1)[0] == ' ' as u8);
            lemma_around_ascii(rest@, target_end as int);
        }
        if !same(version, "HTTP/1.1".as_bytes()) && !same(version, "HTTP/1.0".as_bytes()) {
            return Err(ParseError::InvalidRequestLine);
        }
        let path_end: usize = match find(target, "?".as_bytes()) {
            Some(i) => i,
            None => target.len(),
        };
        let path_only = &target[0..path_end];
        proof {
            lemma_find(target@, text("?"));
            assert(path_only@ =~= target_path(target@));
            if find_spec(target@, text("?")) is Some {
                assert(target@.subrange(path_end as int, path_end + 1)[0] == '?' as u8);
                lemma_around_ascii(target@, path_end as int);
            }
        }
        let path_only: &str = match utf8(path_only) {
            Some(path_only) => path_only,
            None => return Err(ParseError::InvalidRequestLine),
        };
        let path = match percent_decode(path_only) {
            Ok(path) => path,
            Err(_) => return Err(ParseError::InvalidRequestLine),
        };
        let method = if same(method_name, "GET".as_bytes()) {
            proof {
                encode_utf8_decode_utf8("GET"@);
            }
            Method::Get
        } else {
            proof {
                decode_utf8_encode_utf8(method_name@);
            }
            match utf8(method_name) {
                Some(name) => {
                    proof {
                        encode_utf8_decode_utf8(name@);
                    }
                    Method::Other(name.to_owned())
                },
                None => return Err(ParseError::InvalidRequestLine),
            }
        };
        Ok(Request { method, path })
    }
}

/// What `String::from_utf8` rejects bytes with.
#[verifier::external_type_specification]
#[verifier::external_body]
pub struct ExFromUtf8Error(std::string::FromUtf8Error);

/// `String::from_utf8` gives a string exactly when the bytes are valid UTF-8, and it is
/// the string that they encode.
pub assume_specification[ String::from_utf8 ](vec: Vec<u8>) -> (r: Result<
    String,
    std::string::FromUtf8Error,
>)
    ensures
        r is Ok <==> valid_utf8(vec@),
        r matches Ok(s) ==> encode_utf8(s@) == vec@,
;

/// Replaces each escape in `s` by the byte that it stands for; an error if the outcome
/// is not UTF-8.
pub fn percent_decode(s: &str) -> (r: Result<String, std::string::FromUtf8Error>)
    ensures
        match r {
            Ok(decoded) => {
                &&& valid_utf8(percent_decoded(text(s)))
                &&& decoded@ == decode_utf8(percent_decoded(text(s)))
            },
            Err(_) => !valid_utf8(percent_decoded(text(s))),
        },
{
    let s = s.as_bytes();
    let n: usize = s.len();
    let mut out: Vec<u8> = Vec::with_capacity(n);
    let mut i: usize = 0;
    assert(s@.skip(0) =~= s@);
    while i < n
        invariant
            n == s@.len(),
            i <= n,
            out@ + percent_decoded(s@.skip(i as int)) == percent_decoded(s@),
        decreases n - i,
    {
        let ghost rest = s@.skip(i as int);
        if s[i] == '%' as u8 && n - i > 2 {
            if let (Some(hi), Some(lo)) = (hex_nibble(s[i + 1]), hex_nibble(s[i + 2])) {
                assert((hi << 4) | lo == hi * 16 + lo) by (bit_vector)
                    requires
                        hi < 16,
                        lo < 16,
                ;
                let ghost out0 = out@;
                out.push((hi << 4) | lo);
                proof {
                    assert(rest.skip(3) =~= s@.skip(i + 3));
                    assert(out@ + percent_decoded(s@.skip(i + 3)) =~= out0 + percent_decoded(rest));
                }
                i += 3;
                continue;
            }
        }
        let ghost out0 = out@;
        out.push(s[i]);
        proof {
            assert(rest.skip(1) =~= s@.skip(i + 1));
            assert(!starts_with_escape(rest));
            assert(out@ + percent_decoded(s@.skip(i + 1)) =~= out0 + percent_decoded(rest));
        }
        i += 1;
    }
    proof {
        assert(s@.skip(i as int) =~= Seq::empty());
        assert(out@ =~= percent_decoded(s@));
    }
    let decoded = String::from_utf8(out);
    proof {
        if decoded is Ok {
            encode_utf8_decode_utf8(decoded->Ok_0@);
        }
    }
    decoded
}

/// The value of a hexadecimal digit, or `None` for any other byte.
pub fn hex_nibble(b: u8) -> (r: Option<u8>)
    ensures
        r == hex_value(b),
        r matches Some(v) ==> v < 16,
{
    if '0' as u8 <= b && b <= '9' as u8 {
        Some(b - '0' as u8)
    } else if 'a' as u8 <= b && b <= 'f' as u8 {
        Some(b - 'a' as u8 + 10)
    } else if 'A' as u8 <= b && b <= 'F' as u8 {
        Some(b - 'A' as u8 + 10)
    } else {
        None
    }
}

/// Bytes that arrive later never change where a head ended.
pub proof fn law_head_end_is_stable(buf: Seq<u8>, more: Seq<u8>)
    requires
        head_end(buf) is Some,
    ensures
        head_end(buf + more) == head_end(buf),
{
    lemma_find_prefix(buf, more, text("\r\n\r\n"));
}

/// What a request asks for is settled by its first line.
pub proof fn law_parse_reads_first_line(buf: Seq<u8>, more: Seq<u8>)
    requires
        request_line(buf) is Some,
    ensures
        parsed(buf + more) == parsed(buf),
{
    lemma_find_prefix(buf, more, text("\r\n"));
    lemma_find(buf, text("\r\n"));
    let i = find_spec(buf, text("\r\n"))->0;
    assert((buf + more).take(i) =~= buf.take(i));
}

/// A complete head has a first line, and cutting the buffer at the head's end
/// changes nothing in what is parsed.
pub proof fn law_parse_of_complete_head(buf: Seq<u8>)
    requires
        head_end(buf) is Some,
    ensures
        0 <= head_end(buf)->0 <= buf.len(),
        request_line(buf.take(head_end(buf)->0)) is Some,
        parsed(buf.take(head_end(buf)->0)) == parsed(buf),
{
    lemma_head_terminator();
    lemma_line_terminator();
    lemma_find(buf, text("\r\n\r\n"));
    let i = find_spec(buf, text("\r\n\r\n"))->0;
    let end = i + 4;
    let head = buf.take(end);
    assert(buf.subrange(i, i + 4)[0] == buf[i] && buf.subrange(i, i + 4)[1] == buf[i + 1]);
    assert(head.subrange(i, i + 2) =~= text("\r\n"));
    assert(matches_at(head, text("\r\n"), i));
    lemma_find(head, text("\r\n"));
    assert(buf =~= head + buf.skip(end));
    law_parse_reads_first_line(head, buf.skip(end));
}

/// The request line made of a method, a target and a version.
pub open spec fn line_of(method: Seq<u8>, target: Seq<u8>, version: Seq<u8>) -> Seq<u8> {
    method + text(" ") + target + text(" ") + version
}

/// No byte of `s` is `b`.
pub open spec fn lacks(s: Seq<u8>, b: u8) -> bool {
    forall|i: int| 0 <= i < s.len() ==> s[i] != b
}

/// A byte is found just past a string that lacks it.
proof fn lemma_find_past(before: Seq<u8>, b: u8, after: Seq<u8>)
    requires
        lacks(before, b),
    ensures
        find_spec(before + seq![b] + after, seq![b]) == Some(before.len() as int),
{
    let all = before + seq![b] + after;
    let at = before.len() as int;
    assert(all.subrange(at, at + 1) =~= seq![b]);
    assert forall|j: int| 0 <= j < at implies !#[trigger] matches_at(all, seq![b], j) by {
        assert(all.subrange(j, j + 1)[0] == before[j]);
    }
    assert(first_match(all, seq![b], at));
    lemma_find_some(all, seq![b], at);
}

/// The versions are eight characters each, and none of them is a carriage return.
proof fn lemma_known_version(version: Seq<u8>)
    requires
        known_version(version),
    ensures
        version.len() == 8,
        lacks(version, 13),
        valid_utf8(version),
{
    reveal_strlit("HTTP/1.1");
    is_ascii_chars_encode_utf8("HTTP/1.1"@);
    encode_utf8_valid_utf8("HTTP/1.1"@);
    reveal_strlit("HTTP/1.0");
    is_ascii_chars_encode_utf8("HTTP/1.0"@);
    encode_utf8_valid_utf8("HTTP/1.0"@);
    assert forall|i: int| 0 <= i < 8 implies version[i] != 13 by {
        assert(i == 0 || i == 1 || i == 2 || i == 3 || i == 4 || i == 5 || i == 6 || i == 7);
    }
}

/// A request line is taken apart into what it was made of: a method and a target
/// without spaces. The target's path counts once it is decoded.
#[verifier::rlimit(40)]
pub proof fn law_request_line_round_trip(
    method: Seq<u8>,
    target: Seq<u8>,
    version: Seq<u8>,
    rest: Seq<u8>,
)
    requires
        lacks(method, ' ' as u8),
        lacks(target, ' ' as u8),
        known_version(version),
        valid_utf8(method),
        valid_utf8(target),
        find_spec(line_of(method, target, version), text("\r\n")) is None,
    ensures
        parsed(line_of(method, target, version) + text("\r\n") + rest) == (if valid_utf8(
            percent_decoded(target_path(target)),
        ) {
            Some((decode_utf8(method), decode_utf8(percent_decoded(target_path(target)))))
        } else {
            None
        }),
{
    let line = line_of(method, target, version);
    let end = text("\r\n");
    let buf = line + end + rest;
    let at = line.len() as int;
    lemma_separators();
    lemma_line_terminator();
    lemma_known_version(version);
    lemma_find(line, end);
    assert(buf.subrange(at, at + 2) =~= end);
    assert forall|j: int| 0 <= j < at implies !#[trigger] matches_at(buf, end, j) by {
        if j + 2 <= at {
            assert(buf.subrange(j, j + 2) =~= line.subrange(j, j + 2));
            assert(!matches_at(line, end, j));
        } else {
            assert(buf.subrange(j, j + 2)[0] == version[7]);
        }
    }
    assert(first_match(buf, end, at));
    lemma_find_some(buf, end, at);
    assert(buf.take(at) =~= line);
    let tail = target + text(" ") + version;
    lemma_find_past(method, ' ' as u8, tail);
    assert(line =~= method + text(" ") + tail);
    assert(line.take(method.len() as int) =~= method);
    assert(line.skip(method.len() as int + 1) =~= tail);
    lemma_find_past(target, ' ' as u8, version);
    assert(tail.take(target.len() as int) =~= target);
    assert(tail.skip(target.len() as int + 1) =~= version);
    encode_utf8_valid_utf8(" "@);
    valid_utf8_concat(method, text(" "));
    valid_utf8_concat(method + text(" "), target);
    valid_utf8_concat(method + text(" ") + target, text(" "));
    valid_utf8_concat(method + text(" ") + target + text(" "), version);
}

/// The query of a target has no part in its path.
pub proof fn law_query_is_ignored(path: Seq<u8>, query: Seq<u8>)
    requires
        forall|i: int| 0 <= i < path.len() ==> path[i] != '?' as u8,
    ensures
        target_path(path) == path,
        target_path(path + text("?") + query) == path,
{
    lemma_separators();
    lemma_find(path, text("?"));
    if let Some(i) = find_spec(path, text("?")) {
        assert(path.subrange(i, i + 1)[0] == path[i]);
    }
    let target = path + text("?") + query;
    let i = path.len() as int;
    assert(target.subrange(i, i + 1) =~= text("?"));
    assert forall|j: int| 0 <= j < i implies !#[trigger] matches_at(target, text("?"), j) by {
        assert(target.subrange(j, j + 1)[0] == path[j]);
    }
    assert(first_match(target, text("?"), i));
    lemma_find_some(target, text("?"), i);
    assert(target.take(i) =~= path);
}

/// The upper-case hexadecimal digit of a value below sixteen.
pub open spec fn hex_digit(v: u8) -> u8 {
    if v < 10 {
        ('0' as u8 + v) as u8
    } else {
        ('A' as u8 + v - 10) as u8
    }
}

/// `s` with an escape for every byte that `plain` does not hold of; a percent sign
/// is always escaped.
pub open spec fn percent_encoded(s: Seq<u8>, plain: spec_fn(u8) -> bool) -> Seq<u8>
    decreases s.len(),
{
    if s.len() == 0 {
        Seq::empty()
    } else if plain(s[0]) && s[0] != '%' as u8 {
        seq![s[0]] + percent_encoded(s.skip(1), plain)
    } else {
        seq!['%' as u8, hex_digit(s[0] / 16), hex_digit(s[0] % 16)] + percent_encoded(
            s.skip(1),
            plain,
        )
    }
}

/// `encoded` stands for `s` byte by byte: each byte but the percent sign may stand for
/// itself, and any byte may be escaped, with digits in either case.
pub open spec fn encodes(encoded: Seq<u8>, s: Seq<u8>) -> bool
    decreases s.len(),
{
    if s.len() == 0 {
        encoded.len() == 0
    } else {
        ||| {
            &&& encoded.len() > 0
            &&& encoded[0] == s[0]
            &&& s[0] != '%' as u8
            &&& encodes(encoded.skip(1), s.skip(1))
        }
        ||| {
            &&& starts_with_escape(encoded)
            &&& hex_value(encoded[1])->0 * 16 + hex_value(encoded[2])->0 == s[0]
            &&& encodes(encoded.skip(3), s.skip(1))
        }
    }
}

/// Decoding undoes encoding, whichever bytes are escaped and however the digits of the
/// escapes are written.
pub proof fn law_percent_round_trip(encoded: Seq<u8>, s: Seq<u8>)
    requires
        encodes(encoded, s),
    ensures
        percent_decoded(encoded) == s,
    decreases s.len(),
{
    if s.len() > 0 {
        assert(seq![s[0]] + s.skip(1) =~= s);
        if starts_with_escape(encoded) && hex_value(encoded[1])->0 * 16 + hex_value(encoded[2])->0
            == s[0] && encodes(encoded.skip(3), s.skip(1)) {
            law_percent_round_trip(encoded.skip(3), s.skip(1));
        } else {
            law_percent_round_trip(encoded.skip(1), s.skip(1));
        }
    } else {
        assert(percent_decoded(encoded) =~= s);
    }
}

/// Escaping all but plain bytes is one way to encode.
proof fn lemma_percent_encoded(s: Seq<u8>, plain: spec_fn(u8) -> bool)
    ensures
        encodes(percent_encoded(s, plain), s),
    decreases s.len(),
{
    if s.len() > 0 {
        lemma_percent_encoded(s.skip(1), plain);
        let rest = percent_encoded(s.skip(1), plain);
        let whole = percent_encoded(s, plain);
        if plain(s[0]) && s[0] != '%' as u8 {
            assert(whole.skip(1) =~= rest);
        } else {
            assert(hex_value(hex_digit(s[0] / 16)) == Some((s[0] / 16) as u8));
            assert(hex_value(hex_digit(s[0] % 16)) == Some((s[0] % 16) as u8));
            assert(whole.skip(3) =~= rest);
        }
    }
}

/// Bytes that are all ASCII are valid UTF-8.
proof fn lemma_ascii_is_utf8(s: Seq<u8>)
    requires
        forall|i: int| 0 <= i < s.len() ==> s[i] < 0x80,
    ensures
        valid_utf8(s),
    decreases s.len(),
{
    if s.len() > 0 {
        lemma_ascii_is_utf8(s.skip(1));
        assert(pop_first_scalar(s) =~= s.skip(1));
        assert(decode_first_codepoint(s) < 0x80) by {
            let b = s[0];
            assert((b & 0x7f) < 0x80) by (bit_vector);
        }
    }
}

/// A byte that can stand for itself in the path of a target: ASCII, and neither a
/// blank, a carriage return nor a question mark.
pub open spec fn fits_in_target(b: u8) -> bool {
    b < 0x80 && b != ' ' as u8 && b != '?' as u8 && b != 13
}

/// Every byte of `s` can stand for itself in the path of a target.
pub open spec fn all_fit_in_target(s: Seq<u8>) -> bool {
    forall|i: int| 0 <= i < s.len() ==> fits_in_target(#[trigger] s[i])
}

/// An encoded string is made of percent signs, digits, letters and plain bytes.
proof fn lemma_encoded_bytes(s: Seq<u8>, plain: spec_fn(u8) -> bool)
    requires
        forall|b: u8| #[trigger] plain(b) ==> fits_in_target(b),
    ensures
        all_fit_in_target(percent_encoded(s, plain)),
    decreases s.len(),
{
    if s.len() > 0 {
        lemma_encoded_bytes(s.skip(1), plain);
        let rest = percent_encoded(s.skip(1), plain);
        let whole = percent_encoded(s, plain);
        let n = whole.len() - rest.len();
        assert forall|i: int| 0 <= i < whole.len() implies fits_in_target(#[trigger] whole[i]) by {
            if i >= n {
                assert(whole[i] == rest[i - n]);
            }
        }
    }
}

/// Every path has an encoding that fits into a target.
pub proof fn law_every_path_has_a_target(path: Seq<char>)
    ensures
        exists|target: Seq<u8>| #[trigger]
            encodes(target, encode_utf8(path)) && all_fit_in_target(target),
{
    let plain = |b: u8| fits_in_target(b);
    let target = percent_encoded(encode_utf8(path), plain);
    lemma_percent_encoded(encode_utf8(path), plain);
    lemma_encoded_bytes(encode_utf8(path), plain);
    assert(encodes(target, encode_utf8(path)) && all_fit_in_target(target));
}

/// Every path can be asked for: whichever of its bytes are escaped, as long as what is
/// left fits into a target, the request for the encoded path is parsed as one for the
/// path itself.
pub proof fn law_every_path_can_be_asked_for(
    path: Seq<char>,
    target: Seq<u8>,
    version: Seq<u8>,
    rest: Seq<u8>,
)
    requires
        encodes(target, encode_utf8(path)),
        all_fit_in_target(target),
        known_version(version),
    ensures
        parsed(line_of(text("GET"), target, version) + text("\r\n") + rest) == Some(
            ("GET"@, path),
        ),
{
    let method = text("GET");
    let line = line_of(method, target, version);
    reveal_strlit("GET");
    is_ascii_chars_encode_utf8("GET"@);
    encode_utf8_valid_utf8("GET"@);
    encode_utf8_decode_utf8("GET"@);
    assert(method =~= seq!['G' as u8, 'E' as u8, 'T' as u8]);
    lemma_ascii_is_utf8(target);
    law_query_is_ignored(target, Seq::empty());
    law_percent_round_trip(target, encode_utf8(path));
    encode_utf8_valid_utf8(path);
    encode_utf8_decode_utf8(path);
    lemma_separators();
    lemma_line_terminator();
    lemma_known_version(version);
    lemma_find(line, text("\r\n"));
    if let Some(i) = find_spec(line, text("\r\n")) {
        assert(line.subrange(i, i + 2)[0] == line[i]);
        let m = method.len() as int;
        let t = target.len() as int;
        assert(line[i] == if i < m {
            method[i]
        } else if i == m {
            ' ' as u8
        } else if i < m + 1 + t {
            target[i - m - 1]
        } else if i == m + 1 + t {
            ' ' as u8
        } else {
            version[i - m - t - 2]
        });
    }
    law_request_line_round_trip(method, target, version, rest);
}

/// A path without a percent sign is taken as it stands.
pub proof fn law_percent_plain(s: Seq<u8>)
    requires
        forall|i: int| 0 <= i < s.len() ==> s[i] != '%' as u8,
    ensures
        percent_decoded(s) == s,
    decreases s.len(),
{
    if s.len() > 0 {
        law_percent_plain(s.skip(1));
        assert(seq![s[0]] + s.skip(1) =~= s);
    } else {
        assert(percent_decoded(s) =~= s);
    }
}

/// A head ends just past the first blank line, wherever that stands: `\r\n\r\n` comes
/// right before the end, and nowhere earlier; a buffer without it has no end.
pub proof fn law_head_ends_at_first_blank_line(buf: Seq<u8>)
    ensures
        head_end(buf) matches Some(end) ==> {
            &&& 4 <= end <= buf.len()
            &&& buf[end - 4] == 13 && buf[end - 3] == 10 && buf[end - 2] == 13 && buf[end - 1] == 10
        },
        forall|i: int|
            0 <= i <= buf.len() - 4 && #[trigger] buf[i] == 13 && buf[i + 1] == 10 && buf[i + 2] == 13
                && buf[i + 3] == 10 ==> head_end(buf) is Some && head_end(buf)->0 <= i + 4,
{
    let end = text("\r\n\r\n");
    lemma_head_terminator();
    lemma_find(buf, end);
    if let Some(i) = find_spec(buf, end) {
        let found = buf.subrange(i, i + 4);
        assert(found[0] == buf[i] && found[1] == buf[i + 1] && found[2] == buf[i + 2] && found[3]
            == buf[i + 3]);
    }
    assert forall|i: int|
        0 <= i <= buf.len() - 4 && #[trigger] buf[i] == 13 && buf[i + 1] == 10 && buf[i + 2] == 13
            && buf[i + 3] == 10 implies head_end(buf) is Some && head_end(buf)->0 <= i + 4 by {
        assert(buf.subrange(i, i + 4) =~= end);
        assert(matches_at(buf, end, i));
    }
}

/// What is parsed was asked for: the buffer starts with a method, a target and one of
/// the two versions, each a space apart, and `\r\n`; the method is the one that stands
/// there, and the path is what the target decodes to.
#[verifier::rlimit(60)]
pub proof fn law_parsed_request_was_asked_for(buf: Seq<u8>, name: Seq<char>, path: Seq<char>)
    requires
        parsed(buf) == Some((name, path)),
    ensures
        exists|method: Seq<u8>, target: Seq<u8>, version: Seq<u8>, rest: Seq<u8>|
            {
                &&& buf == #[trigger] (method + text(" ") + target + text(" ") + version + text(
                    "\r\n",
                ) + rest)
                &&& forall|i: int| 0 <= i < method.len() ==> method[i] != ' ' as u8
                &&& forall|i: int| 0 <= i < target.len() ==> target[i] != ' ' as u8
                &&& version == text("HTTP/1.1") || version == text("HTTP/1.0")
                &&& valid_utf8(target)
                &&& encode_utf8(name) == method
                &&& encode_utf8(path) == percent_decoded(target_path(target))
            },
{
    let end = text("\r\n");
    let sp = text(" ");
    lemma_line_terminator();
    lemma_separators();
    lemma_find(buf, end);
    let at = find_spec(buf, end)->0;
    let line = buf.take(at);
    let rest = buf.skip(at + 2);
    assert(buf.subrange(at, at + 2) == end);
    assert(buf =~= line + end + rest);
    lemma_find(line, sp);
    let i = find_spec(line, sp)->0;
    let method = line.take(i);
    let tail = line.skip(i + 1);
    assert(line.subrange(i, i + 1)[0] == line[i]);
    assert(line =~= method + sp + tail);
    lemma_find(tail, sp);
    let j = find_spec(tail, sp)->0;
    let target = tail.take(j);
    let version = tail.skip(j + 1);
    assert(tail.subrange(j, j + 1)[0] == tail[j]);
    assert(tail =~= target + sp + version);
    assert forall|k: int| 0 <= k < method.len() implies method[k] != ' ' as u8 by {
        if method[k] == ' ' as u8 {
            assert(line.subrange(k, k + 1) =~= sp);
            assert(matches_at(line, sp, k));
        }
    }
    assert forall|k: int| 0 <= k < target.len() implies target[k] != ' ' as u8 by {
        if target[k] == ' ' as u8 {
            assert(tail.subrange(k, k + 1) =~= sp);
            assert(matches_at(tail, sp, k));
        }
    }
    lemma_around_ascii(line, i);
    lemma_around_ascii(tail, j);
    decode_utf8_encode_utf8(method);
    decode_utf8_encode_utf8(percent_decoded(target_path(target)));
    assert(buf =~= method + text(" ") + target + text(" ") + version + text("\r\n") + rest);
}

/// Every request line that is one is parsed: a method and a target without spaces and
/// one of the two versions, in UTF-8 and on one line, for a path that decodes to UTF-8.
pub proof fn law_request_is_parsed(
    method: Seq<char>,
    target: Seq<char>,
    path: Seq<char>,
    version: Seq<u8>,
    rest: Seq<u8>,
)
    requires
        version == text("HTTP/1.1") || version == text("HTTP/1.0"),
        forall|i: int| 0 <= i < encode_utf8(method).len() ==> encode_utf8(method)[i] != ' ' as u8,
        forall|i: int| 0 <= i < encode_utf8(target).len() ==> encode_utf8(target)[i] != ' ' as u8,
        forall|i: int| 0 <= i < encode_utf8(method).len() ==> encode_utf8(method)[i] != 13,
        forall|i: int| 0 <= i < encode_utf8(target).len() ==> encode_utf8(target)[i] != 13,
        percent_decoded(target_path(encode_utf8(target))) == encode_utf8(path),
    ensures
        parsed(
            encode_utf8(method) + text(" ") + encode_utf8(target) + text(" ") + version + text(
                "\r\n",
            ) + rest,
        ) == Some((method, path)),
{
    let m = encode_utf8(method);
    let t = encode_utf8(target);
    let line = line_of(m, t, version);
    encode_utf8_valid_utf8(method);
    encode_utf8_valid_utf8(target);
    encode_utf8_valid_utf8(path);
    encode_utf8_decode_utf8(method);
    encode_utf8_decode_utf8(path);
    lemma_separators();
    lemma_line_terminator();
    lemma_known_version(version);
    lemma_find(line, text("\r\n"));
    if let Some(i) = find_spec(line, text("\r\n")) {
        assert(line.subrange(i, i + 2)[0] == line[i]);
        let a = m.len() as int;
        let b = t.len() as int;
        assert(line[i] == if i < a {
            m[i]
        } else if i == a {
            ' ' as u8
        } else if i < a + 1 + b {
            t[i - a - 1]
        } else if i == a + 1 + b {
            ' ' as u8
        } else {
            version[i - a - b - 2]
        });
    }
    law_request_line_round_trip(m, t, version, rest);
}

/// Each value below sixteen has its digit, in upper case and in lower case, and nothing
/// else is a digit.
pub proof fn law_hex_digits(v: u8, b: u8)
    ensures
        v < 10 ==> hex_value((48 + v) as u8) == Some(v),
        10 <= v < 16 ==> hex_value((65 + v - 10) as u8) == Some(v),
        10 <= v < 16 ==> hex_value((97 + v - 10) as u8) == Some(v),
        hex_value(b) is Some <==> 48 <= b <= 57 || 65 <= b <= 70 || 97 <= b <= 102,
        hex_value(b) matches Some(w) ==> w < 16 && (b == 48 + w || b == 55 + w || b == 87 + w),
{
}

/// `b` is the hexadecimal digit of `v`, in either case.
pub open spec fn is_digit_of(b: u8, v: int) -> bool {
    if v < 10 {
        b == 48 + v
    } else {
        b == 55 + v || b == 87 + v
    }
}

/// An escape stands for its byte, wherever it stands and in whichever case its digits
/// are written.
pub proof fn law_escape_is_decoded(v: u8, hi: u8, lo: u8, rest: Seq<u8>)
    requires
        is_digit_of(hi, v as int / 16),
        is_digit_of(lo, v as int % 16),
    ensures
        percent_decoded(seq![37u8, hi, lo] + rest) == seq![v] + percent_decoded(rest),
{
    let s = seq![37u8, hi, lo] + rest;
    assert(s.skip(3) =~= rest);
    assert(starts_with_escape(s));
}

/// Every byte but the percent sign stands for itself; so does a percent sign that two
/// hexadecimal digits do not follow.
pub proof fn law_other_bytes_stand_for_themselves(b: u8, rest: Seq<u8>)
    requires
        b == 37 ==> rest.len() < 2 || !(48 <= rest[0] <= 57 || 65 <= rest[0] <= 70 || 97 <= rest[0]
            <= 102) || !(48 <= rest[1] <= 57 || 65 <= rest[1] <= 70 || 97 <= rest[1] <= 102),
    ensures
        percent_decoded(seq![b] + rest) == seq![b] + percent_decoded(rest),
        percent_decoded(Seq::<u8>::empty()) == Seq::<u8>::empty(),
{
    let s = seq![b] + rest;
    assert(s.skip(1) =~= rest);
    assert(!starts_with_escape(s));
}

/// `s` with every byte escaped, with digits in lower case.
pub open spec fn escaped(s: Seq<u8>) -> Seq<u8>
    decreases s.len(),
{
    if s.len() == 0 {
        Seq::empty()
    } else {
        let hi = s[0] as int / 16;
        let lo = s[0] as int % 16;
        seq![
            37u8,
            (if hi < 10 { 48 + hi } else { 87 + hi }) as u8,
            (if lo < 10 { 48 + lo } else { 87 + lo }) as u8,
        ] + escaped(s.skip(1))
    }
}

/// Escaping every byte with digits in lower case is undone by decoding.
pub proof fn law_escaped_is_decoded(s: Seq<u8>)
    ensures
        percent_decoded(escaped(s)) == s,
    decreases s.len(),
{
    if s.len() > 0 {
        let hi = s[0] as int / 16;
        let lo = s[0] as int % 16;
        law_escaped_is_decoded(s.skip(1));
        law_escape_is_decoded(
            s[0],
            (if hi < 10 { 48 + hi } else { 87 + hi }) as u8,
            (if lo < 10 { 48 + lo } else { 87 + lo }) as u8,
            escaped(s.skip(1)),
        );
        assert(seq![s[0]] + s.skip(1) =~= s);
    } else {
        assert(percent_decoded(escaped(s)) =~= s);
    }
}

/// What [`headers_end`] returns is where the first blank line ends.
pub proof fn law_headers_end_returns_the_blank_line(buf: &[u8], r: Option<usize>)
    requires
        call_ensures(headers_end, (buf,), r),
    ensures
        match r {
            Some(end) => {
                &&& 4 <= end <= buf@.len()
                &&& buf@[end - 4] == 13 && buf@[end - 3] == 10 && buf@[end - 2] == 13 && buf@[end - 1]
                    == 10
                &&& forall|i: int|
                    0 <= i < end - 4 && #[trigger] buf@[i] == 13 ==> !(buf@[i + 1] == 10 && buf@[i + 2]
                        == 13 && buf@[i + 3] == 10)
            },
            None => forall|i: int|
                0 <= i <= buf@.len() - 4 && #[trigger] buf@[i] == 13 ==> !(buf@[i + 1] == 10 && buf@[i
                    + 2] == 13 && buf@[i + 3] == 10),
        },
{
    law_head_ends_at_first_blank_line(buf@);
}

/// [`Request::parse`] takes the method and the path from the request line, and tells a
/// `GET` from every other method by its name alone.
pub proof fn law_parse_returns_what_is_asked(buf: &[u8], r: Result<Request, ParseError>)
    requires
        call_ensures(Request::parse, (buf,), r),
    ensures
        match r {
            Ok(request) => {
                &&& parsed(buf@) matches Some((name, path))
                &&& path == request.path@
                &&& match request.method {
                    Method::Get => name == "GET"@,
                    Method::Other(other) => name == other@ && name != "GET"@,
                }
            },
            Err(_) => parsed(buf@) is None,
        },
{
}

/// [`percent_decode`] gives the string that the decoded bytes encode, and an error
/// exactly if they encode none.
pub proof fn law_percent_decode_returns_the_path(
    s: &str,
    r: Result<String, std::string::FromUtf8Error>,
)
    requires
        call_ensures(percent_decode, (s,), r),
    ensures
        r is Ok <==> valid_utf8(percent_decoded(encode_utf8(s@))),
        r matches Ok(decoded) ==> encode_utf8(decoded@) == percent_decoded(encode_utf8(s@)),
{
    if r is Ok {
        decode_utf8_encode_utf8(percent_decoded(encode_utf8(s@)));
    }
}

/// [`hex_nibble`] reads a digit in either case.
pub proof fn law_hex_nibble_reads_digits(b: u8, r: Option<u8>)
    requires
        call_ensures(hex_nibble, (b,), r),
    ensures
        48 <= b <= 57 ==> r == Some((b - 48) as u8),
        65 <= b <= 70 ==> r == Some((b - 55) as u8),
        97 <= b <= 102 ==> r == Some((b - 87) as u8),
        !(48 <= b <= 57 || 65 <= b <= 70 || 97 <= b <= 102) ==> r is None,
{
}

} // verus!
