//! Responses: their serialised heads, their bodies, and the types of files.

use vstd::prelude::*;
use vstd::utf8::{
    encode_utf8, is_ascii_chars, is_ascii_chars_concat, is_ascii_chars_encode_utf8,
};

use crate::bytes::{
    ascii_lower, ascii_lower_spec, decimal, decimal_spec, first_match, law_decimal_round_trip,
    lemma_find_some, matches_at, push_bytes, same, text,
};
use crate::request::{head_end, lemma_head_terminator, lemma_line_terminator};
use crate::VERSION;

verus! {

/// `lines`, each closed by `\r\n`.
pub open spec fn joined(lines: Seq<Seq<u8>>) -> Seq<u8>
    decreases lines.len(),
{
    if lines.len() == 0 {
        Seq::empty()
    } else {
        joined(lines.drop_last()) + lines.last() + text("\r\n")
    }
}

/// The head made of `lines`: each closed by `\r\n`, and a blank line after them.
pub open spec fn head(lines: Seq<Seq<u8>>) -> Seq<u8> {
    joined(lines) + text("\r\n")
}

/// The header lines of a file response.
pub open spec fn ok_lines(content_type: Seq<char>, size: u64) -> Seq<Seq<u8>> {
    seq![
        text("HTTP/1.1 200 OK"),
        text("Content-Type: ") + encode_utf8(content_type),
        text("Content-Length: ") + decimal_spec(size as nat),
        text("Server: fast-http/") + text(VERSION),
        text("Connection: close"),
    ]
}

/// The header lines of an error response with a body of `length` bytes.
pub open spec fn error_lines(status: u16, reason: &str, length: nat) -> Seq<Seq<u8>> {
    seq![
        text("HTTP/1.1 ") + (decimal_spec(status as nat) + text(" ") + text(reason)),
        text("Content-Type: ") + text("text/plain; charset=utf-8"),
        text("Content-Length: ") + decimal_spec(length),
        text("Connection: close"),
    ]
}

/// Appends the line that `name` and `value` make up, closed by `\r\n`.
fn push_line(out: &mut Vec<u8>, name: &str, value: &[u8])
    ensures
        final(out)@ == old(out)@ + (text(name) + value@) + text("\r\n"),
{
    push_bytes(out, name.as_bytes());
    push_bytes(out, value);
    push_bytes(out, "\r\n".as_bytes());
    assert(out@ =~= old(out)@ + (text(name) + value@) + text("\r\n"));
}

proof fn lemma_joined_push(lines: Seq<Seq<u8>>, line: Seq<u8>)
    ensures
        joined(lines.push(line)) == joined(lines) + line + text("\r\n"),
{
    assert(lines.push(line).drop_last() =~= lines);
}

/// A response that carries its own serialised header bytes plus a body.
/// `File` responses are streamed in chunks from the open file `file`; `Bytes`
/// responses are written directly to the stream in one shot (they are always small
/// error messages).
pub enum Response<F> {
    File { header: Vec<u8>, file: F },
    Bytes { header: Vec<u8>, body: &'static [u8] },
}

impl<F> Response<F> {
    /// This is the response that sends `file`, of `size` bytes and type `content_type`.
    pub open spec fn is_ok(self, file: F, content_type: Seq<char>, size: u64) -> bool {
        &&& self matches Response::File { header, file: sent }
        &&& header@ == head(ok_lines(content_type, size))
        &&& sent == file
    }

    /// This is the error response `status` with `reason` and `body`.
    pub open spec fn is_error(self, status: u16, reason: &str, body: &str) -> bool {
        &&& self matches Response::Bytes { header, body: sent }
        &&& header@ == head(error_lines(status, reason, text(body).len()))
        &&& sent@ == text(body)
    }

    /// The response has header bytes.
    pub open spec fn has_head(self) -> bool {
        match self {
            Response::File { header, .. } => header@.len() > 0,
            Response::Bytes { header, .. } => header@.len() > 0,
        }
    }

    pub open spec fn is_not_found(self) -> bool {
        self.is_error(404, "Not Found", "404 Not Found")
    }

    pub open spec fn is_forbidden(self) -> bool {
        self.is_error(403, "Forbidden", "403 Forbidden")
    }

    pub open spec fn is_method_not_allowed(self) -> bool {
        self.is_error(405, "Method Not Allowed", "405 Method Not Allowed")
    }

    pub open spec fn is_bad_request(self) -> bool {
        self.is_error(400, "Bad Request", "400 Bad Request")
    }

    pub open spec fn is_internal_error(self) -> bool {
        self.is_error(500, "Internal Server Error", "500 Internal Server Error")
    }

    pub open spec fn is_header_fields_too_large(self) -> bool {
        self.is_error(
            431,
            "Request Header Fields Too Large",
            "431 Request Header Fields Too Large",
        )
    }

    /// The response that sends `file`, whose size is `size`; an internal error if the
    /// size could not be found out.
    pub fn ok(file: F, size: Option<u64>, content_type: &'static str) -> (r: Self)
        ensures
            match size {
                Some(size) => r.is_ok(file, content_type@, size),
                None => r.is_internal_error(),
            },
    {
        let size: u64 = match size {
            Some(size) => size,
            None => return Self::internal_error(),
        };
        let length = decimal(size);
        let mut header: Vec<u8> = Vec::new();
        push_line(&mut header, "HTTP/1.1 200 OK", "".as_bytes());
        push_line(&mut header, "Content-Type: ", content_type.as_bytes());
        push_line(&mut header, "Content-Length: ", length.as_slice());
        push_line(&mut header, "Server: fast-http/", VERSION.as_bytes());
        push_line(&mut header, "Connection: close", "".as_bytes());
        proof {
            lemma_empty_text();
            lemma_head_of_five(
                text("HTTP/1.1 200 OK") + text(""),
                text("Content-Type: ") + text(content_type),
                text("Content-Length: ") + length@,
                text("Server: fast-http/") + text(VERSION),
                text("Connection: close") + text(""),
            );
        }
        push_bytes(&mut header, "\r\n".as_bytes());
        assert(text("HTTP/1.1 200 OK") + text("") =~= text("HTTP/1.1 200 OK"));
        assert(text("Connection: close") + text("") =~= text("Connection: close"));
        Response::File { header, file }
    }

    pub fn not_found() -> (r: Self)
        ensures
            r.is_not_found(),
    {
        Self::error(404, "Not Found", "404 Not Found")
    }

    pub fn forbidden() -> (r: Self)
        ensures
            r.is_forbidden(),
    {
        Self::error(403, "Forbidden", "403 Forbidden")
    }

    pub fn method_not_allowed() -> (r: Self)
        ensures
            r.is_method_not_allowed(),
    {
        Self::error(405, "Method Not Allowed", "405 Method Not Allowed")
    }

    pub fn bad_request() -> (r: Self)
        ensures
            r.is_bad_request(),
    {
        Self::error(400, "Bad Request", "400 Bad Request")
    }

    pub fn header_fields_too_large() -> (r: Self)
        ensures
            r.is_header_fields_too_large(),
    {
        Self::error(431, "Request Header Fields Too Large", "431 Request Header Fields Too Large")
    }

    pub fn internal_error() -> (r: Self)
        ensures
            r.is_internal_error(),
    {
        Self::error(500, "Internal Server Error", "500 Internal Server Error")
    }

    fn error(status: u16, reason: &'static str, body: &'static str) -> (r: Self)
        ensures
            r.is_error(status, reason, body),
    {
        let body = body.as_bytes();
        let length = decimal(body.len() as u64);
        let mut outcome: Vec<u8> = decimal(status as u64);
        push_bytes(&mut outcome, " ".as_bytes());
        push_bytes(&mut outcome, reason.as_bytes());
        let mut header: Vec<u8> = Vec::new();
        push_line(&mut header, "HTTP/1.1 ", outcome.as_slice());
        push_line(&mut header, "Content-Type: ", "text/plain; charset=utf-8".as_bytes());
        push_line(&mut header, "Content-Length: ", length.as_slice());
        push_line(&mut header, "Connection: close", "".as_bytes());
        proof {
            lemma_empty_text();
            lemma_head_of_four(
                text("HTTP/1.1 ") + outcome@,
                text("Content-Type: ") + text("text/plain; charset=utf-8"),
                text("Content-Length: ") + length@,
                text("Connection: close") + text(""),
            );
        }
        push_bytes(&mut header, "\r\n".as_bytes());
        assert(text("Connection: close") + text("") =~= text("Connection: close"));
        Response::Bytes { header, body }
    }
}

/// The content type of files whose extension, in lower case, is `ext`.
pub open spec fn mime_type(ext: Seq<u8>) -> Seq<char> {
    if ext == text("html") || ext == text("htm") {
        "text/html; charset=utf-8"@
    } else if ext == text("css") {
        "text/css; charset=utf-8"@
    } else if ext == text("js") || ext == text("mjs") {
        "application/javascript"@
    } else if ext == text("json") {
        "application/json"@
    } else if ext == text("txt") {
        "text/plain; charset=utf-8"@
    } else if ext == text("svg") {
        "image/svg+xml"@
    } else if ext == text("png") {
        "image/png"@
    } else if ext == text("jpg") || ext == text("jpeg") {
        "image/jpeg"@
    } else if ext == text("gif") {
        "image/gif"@
    } else if ext == text("ico") {
        "image/x-icon"@
    } else if ext == text("webp") {
        "image/webp"@
    } else if ext == text("pdf") {
        "application/pdf"@
    } else if ext == text("wasm") {
        "application/wasm"@
    } else if ext == text("xml") {
        "application/xml"@
    } else {
        "application/octet-stream"@
    }
}

/// The content type of files with the extension `ext`, whatever its case.
pub fn mime_for_ext(ext: &str) -> (r: &'static str)
    ensures
        r@ == mime_type(ascii_lower_spec(text(ext))),
{
    let lowered = ascii_lower(ext.as_bytes());
    let ext = lowered.as_slice();
    if same(ext, "html".as_bytes()) || same(ext, "htm".as_bytes()) {
        "text/html; charset=utf-8"
    } else if same(ext, "css".as_bytes()) {
        "text/css; charset=utf-8"
    } else if same(ext, "js".as_bytes()) || same(ext, "mjs".as_bytes()) {
        "application/javascript"
    } else if same(ext, "json".as_bytes()) {
        "application/json"
    } else if same(ext, "txt".as_bytes()) {
        "text/plain; charset=utf-8"
    } else if same(ext, "svg".as_bytes()) {
        "image/svg+xml"
    } else if same(ext, "png".as_bytes()) {
        "image/png"
    } else if same(ext, "jpg".as_bytes()) || same(ext, "jpeg".as_bytes()) {
        "image/jpeg"
    } else if same(ext, "gif".as_bytes()) {
        "image/gif"
    } else if same(ext, "ico".as_bytes()) {
        "image/x-icon"
    } else if same(ext, "webp".as_bytes()) {
        "image/webp"
    } else if same(ext, "pdf".as_bytes()) {
        "application/pdf"
    } else if same(ext, "wasm".as_bytes()) {
        "application/wasm"
    } else if same(ext, "xml".as_bytes()) {
        "application/xml"
    } else {
        "application/octet-stream"
    }
}

/// Letter case never matters to the content type: an extension has the one that it has
/// in lower case, and any two that differ in case alone have the same one.
pub proof fn law_mime_ignores_case(a: Seq<u8>, b: Seq<u8>)
    requires
        a.len() == b.len(),
        forall|i: int|
            0 <= i < a.len() ==> {
                ||| #[trigger] a[i] == b[i]
                ||| 'A' as u8 <= a[i] && a[i] <= 'Z' as u8 && b[i] == a[i] + 32
                ||| 'A' as u8 <= b[i] && b[i] <= 'Z' as u8 && a[i] == b[i] + 32
            },
    ensures
        mime_type(ascii_lower_spec(a)) == mime_type(ascii_lower_spec(b)),
        mime_type(ascii_lower_spec(ascii_lower_spec(a))) == mime_type(ascii_lower_spec(a)),
{
    assert(ascii_lower_spec(a) =~= ascii_lower_spec(b));
    assert(ascii_lower_spec(ascii_lower_spec(a)) =~= ascii_lower_spec(a));
}

/// No byte of `s` is a carriage return.
pub open spec fn one_line(s: Seq<u8>) -> bool {
    forall|i: int| 0 <= i < s.len() ==> s[i] != 13
}

/// No character of `s` from the `i`th on is a carriage return.
spec fn no_return_from(s: Seq<char>, i: int) -> bool
    decreases s.len() - i,
{
    i >= s.len() || ('\0' <= s[i] <= '\u{7f}' && s[i] != '\r' && no_return_from(s, i + 1))
}

proof fn lemma_no_return(s: Seq<char>, i: int)
    requires
        0 <= i,
        no_return_from(s, i),
    ensures
        forall|j: int| i <= j < s.len() ==> '\0' <= #[trigger] s[j] <= '\u{7f}' && s[j] != '\r',
    decreases s.len() - i,
{
    if i < s.len() {
        lemma_no_return(s, i + 1);
    }
}

proof fn lemma_one_line(s: Seq<char>)
    requires
        no_return_from(s, 0),
    ensures
        one_line(encode_utf8(s)),
        encode_utf8(s).len() == s.len(),
{
    lemma_no_return(s, 0);
    is_ascii_chars_encode_utf8(s);
}

/// Every content type fits on a header line.
pub proof fn law_mime_type_fits_on_a_line(ext: Seq<u8>)
    ensures
        one_line(encode_utf8(mime_type(ext))),
{
    reveal_with_fuel(no_return_from, 30);
    reveal_strlit("text/html; charset=utf-8");
    reveal_strlit("text/css; charset=utf-8");
    reveal_strlit("application/javascript");
    reveal_strlit("application/json");
    reveal_strlit("text/plain; charset=utf-8");
    reveal_strlit("image/svg+xml");
    reveal_strlit("image/png");
    reveal_strlit("image/jpeg");
    reveal_strlit("image/gif");
    reveal_strlit("image/x-icon");
    reveal_strlit("image/webp");
    reveal_strlit("application/pdf");
    reveal_strlit("application/wasm");
    reveal_strlit("application/xml");
    reveal_strlit("application/octet-stream");
    lemma_one_line(mime_type(ext));
}

proof fn lemma_empty_text()
    ensures
        text("") == Seq::<u8>::empty(),
{
    reveal_strlit("");
    is_ascii_chars_encode_utf8(""@);
    assert(text("") =~= Seq::<u8>::empty());
}

proof fn lemma_head_of_four(a: Seq<u8>, b: Seq<u8>, c: Seq<u8>, d: Seq<u8>)
    ensures
        joined(seq![a, b, c, d]) == Seq::<u8>::empty() + a + text("\r\n") + b + text("\r\n") + c
            + text("\r\n") + d + text("\r\n"),
{
    let none = Seq::<Seq<u8>>::empty();
    lemma_joined_push(none, a);
    lemma_joined_push(none.push(a), b);
    lemma_joined_push(none.push(a).push(b), c);
    lemma_joined_push(none.push(a).push(b).push(c), d);
    assert(none.push(a).push(b).push(c).push(d) =~= seq![a, b, c, d]);
}

proof fn lemma_head_of_five(a: Seq<u8>, b: Seq<u8>, c: Seq<u8>, d: Seq<u8>, e: Seq<u8>)
    ensures
        joined(seq![a, b, c, d, e]) == Seq::<u8>::empty() + a + text("\r\n") + b + text("\r\n") + c
            + text("\r\n") + d + text("\r\n") + e + text("\r\n"),
{
    lemma_head_of_four(a, b, c, d);
    lemma_joined_push(seq![a, b, c, d], e);
    assert(seq![a, b, c, d].push(e) =~= seq![a, b, c, d, e]);
}

/// In lines that hold no carriage return of their own, each one is followed by a
/// line feed, and by no second carriage return after that.
proof fn lemma_joined_returns(lines: Seq<Seq<u8>>)
    requires
        lines.len() > 0,
        forall|k: int| 0 <= k < lines.len() ==> one_line(#[trigger] lines[k]) && lines[k].len() > 0,
    ensures
        ({
            let j = joined(lines);
            &&& j.len() >= 2
            &&& j[j.len() - 2] == 13
            &&& j[j.len() - 1] == 10
            &&& forall|i: int| 0 <= i < j.len() - 2 && j[i] == 13 ==> #[trigger] j[i + 2] != 13
        }),
    decreases lines.len(),
{
    lemma_line_terminator();
    let before = joined(lines.drop_last());
    let line = lines.last();
    let j = joined(lines);
    assert(line == lines[lines.len() - 1]);
    if lines.len() > 1 {
        assert forall|k: int| 0 <= k < lines.drop_last().len() implies one_line(
            #[trigger] lines.drop_last()[k],
        ) && lines.drop_last()[k].len() > 0 by {
            assert(lines.drop_last()[k] == lines[k]);
        }
        lemma_joined_returns(lines.drop_last());
    } else {
        assert(before =~= Seq::empty());
    }
    assert forall|i: int| 0 <= i < j.len() - 2 && j[i] == 13 implies #[trigger] j[i + 2] != 13 by {
        if i < before.len() {
            assert(j[i] == before[i]);
            if i + 2 < before.len() {
                assert(j[i + 2] == before[i + 2]);
            } else if i + 2 == before.len() {
                assert(j[i + 2] == line[0]);
            } else {
                assert(i == before.len() - 1);
            }
        } else {
            assert(j[i] == line[i - before.len()]);
        }
    }
}

/// A head ends where its blank line does, and nowhere before: the reader of a
/// response finds the body just past the header bytes.
pub proof fn law_head_is_framed(lines: Seq<Seq<u8>>)
    requires
        lines.len() > 0,
        forall|k: int| 0 <= k < lines.len() ==> one_line(#[trigger] lines[k]) && lines[k].len() > 0,
    ensures
        head_end(head(lines)) == Some(head(lines).len() as int),
{
    lemma_joined_returns(lines);
    lemma_line_terminator();
    lemma_head_terminator();
    let h = head(lines);
    let j = joined(lines);
    let end = text("\r\n\r\n");
    let at = h.len() - 4;
    assert(h.subrange(at, at + 4) =~= end);
    assert forall|i: int| 0 <= i < at implies !#[trigger] matches_at(h, end, i) by {
        if matches_at(h, end, i) {
            assert(h.subrange(i, i + 4)[0] == j[i]);
            assert(h.subrange(i, i + 4)[2] == j[i + 2]);
        }
    }
    assert(first_match(h, end, at));
    lemma_find_some(h, end, at);
}

/// The fixed parts of the header lines are single lines.
proof fn lemma_fixed_parts()
    ensures
        one_line(text("HTTP/1.1 200 OK")) && text("HTTP/1.1 200 OK").len() > 0,
        one_line(text("HTTP/1.1 ")) && text("HTTP/1.1 ").len() > 0,
        one_line(text(" ")),
        one_line(text("Content-Type: ")) && text("Content-Type: ").len() > 0,
        one_line(text("text/plain; charset=utf-8")),
        one_line(text("Content-Length: ")) && text("Content-Length: ").len() > 0,
        one_line(text("Server: fast-http/")) && text("Server: fast-http/").len() > 0,
        one_line(text(VERSION)),
        one_line(text("Connection: close")) && text("Connection: close").len() > 0,
{
    reveal_with_fuel(no_return_from, 30);
    reveal_strlit("HTTP/1.1 200 OK");
    lemma_one_line("HTTP/1.1 200 OK"@);
    reveal_strlit("HTTP/1.1 ");
    lemma_one_line("HTTP/1.1 "@);
    reveal_strlit(" ");
    lemma_one_line(" "@);
    reveal_strlit("Content-Type: ");
    lemma_one_line("Content-Type: "@);
    reveal_strlit("text/plain; charset=utf-8");
    lemma_one_line("text/plain; charset=utf-8"@);
    reveal_strlit("Content-Length: ");
    lemma_one_line("Content-Length: "@);
    reveal_strlit("Server: fast-http/");
    lemma_one_line("Server: fast-http/"@);
    reveal_strlit("0.1.0");
    lemma_one_line("0.1.0"@);
    reveal_strlit("Connection: close");
    lemma_one_line("Connection: close"@);
}

/// A file response says that the connection closes and how long the body is, and
/// its header bytes end where the body starts.
pub proof fn law_ok_response<F>(
    response: Response<F>,
    file: F,
    content_type: Seq<char>,
    size: u64,
)
    requires
        response.is_ok(file, content_type, size),
        one_line(encode_utf8(content_type)),
    ensures
        response matches Response::File { header, file: sent } && {
            &&& sent == file
            &&& head_end(header@) == Some(header@.len() as int)
            &&& header@ == head(ok_lines(content_type, size))
            &&& ok_lines(content_type, size)[0] == text("HTTP/1.1 200 OK")
            &&& ok_lines(content_type, size).contains(text("Connection: close"))
            &&& ok_lines(content_type, size).contains(
                text("Content-Length: ") + decimal_spec(size as nat),
            )
        },
{
    let lines = ok_lines(content_type, size);
    lemma_fixed_parts();
    law_decimal_round_trip(size as nat);
    law_head_is_framed(lines);
    assert(lines[4] == text("Connection: close"));
    assert(lines[2] == text("Content-Length: ") + decimal_spec(size as nat));
}

/// An error response says that the connection closes and how long the body is, and
/// its header bytes end where the body starts.
pub proof fn law_error_response<F>(response: Response<F>, status: u16, reason: &str, body: &str)
    requires
        response.is_error(status, reason, body),
        one_line(text(reason)),
    ensures
        response matches Response::Bytes { header, body: sent } && {
            let lines = error_lines(status, reason, sent@.len());
            &&& sent@ == text(body)
            &&& head_end(header@) == Some(header@.len() as int)
            &&& header@ == head(lines)
            &&& lines[0] == text("HTTP/1.1 ") + (decimal_spec(status as nat) + text(" ") + text(
                reason,
            ))
            &&& lines.contains(text("Connection: close"))
            &&& lines.contains(text("Content-Length: ") + decimal_spec(sent@.len()))
        },
{
    let length = text(body).len();
    let lines = error_lines(status, reason, length);
    lemma_fixed_parts();
    law_decimal_round_trip(status as nat);
    law_decimal_round_trip(length);
    law_head_is_framed(lines);
    assert(lines[3] == text("Connection: close"));
    assert(lines[2] == text("Content-Length: ") + decimal_spec(length));
}

/// Every response has a head.
pub proof fn law_response_has_a_head<F>(
    response: Response<F>,
    file: F,
    content_type: Seq<char>,
    size: u64,
    status: u16,
    reason: &str,
    body: &str,
)
    requires
        response.is_ok(file, content_type, size) || response.is_error(status, reason, body),
    ensures
        response.has_head(),
{
    lemma_line_terminator();
}

/// The reasons that the server gives fit on a header line.
pub proof fn law_reasons_fit_on_a_line()
    ensures
        one_line(text("Bad Request")),
        one_line(text("Forbidden")),
        one_line(text("Not Found")),
        one_line(text("Method Not Allowed")),
        one_line(text("Request Header Fields Too Large")),
        one_line(text("Internal Server Error")),
{
    reveal_with_fuel(no_return_from, 35);
    reveal_strlit("Bad Request");
    lemma_one_line("Bad Request"@);
    reveal_strlit("Forbidden");
    lemma_one_line("Forbidden"@);
    reveal_strlit("Not Found");
    lemma_one_line("Not Found"@);
    reveal_strlit("Method Not Allowed");
    lemma_one_line("Method Not Allowed"@);
    reveal_strlit("Request Header Fields Too Large");
    lemma_one_line("Request Header Fields Too Large"@);
    reveal_strlit("Internal Server Error");
    lemma_one_line("Internal Server Error"@);
}

/// The encoding of an ASCII literal is that of its parts, one after the other.
proof fn lemma_text_concat(a: Seq<char>, b: Seq<char>)
    requires
        is_ascii_chars(a),
        is_ascii_chars(b),
    ensures
        encode_utf8(a + b) == encode_utf8(a) + encode_utf8(b),
{
    is_ascii_chars_concat(a + b, a, b);
    is_ascii_chars_encode_utf8(a);
    is_ascii_chars_encode_utf8(b);
    is_ascii_chars_encode_utf8(a + b);
    assert(encode_utf8(a + b) =~= encode_utf8(a) + encode_utf8(b));
}

/// The header of a file response, from its status line to its blank line.
pub proof fn law_ok_header_bytes(content_type: Seq<char>, size: u64)
    ensures
        head(ok_lines(content_type, size)) == text("HTTP/1.1 200 OK\r\nContent-Type: ")
            + encode_utf8(content_type) + text("\r\nContent-Length: ") + decimal_spec(size as nat)
            + text("\r\nServer: fast-http/0.1.0\r\nConnection: close\r\n\r\n"),
{
    let end = "\r\n"@;
    reveal_strlit("\r\n");
    reveal_strlit("HTTP/1.1 200 OK");
    reveal_strlit("Content-Type: ");
    reveal_strlit("Content-Length: ");
    reveal_strlit("Server: fast-http/");
    reveal_strlit("0.1.0");
    reveal_strlit("Connection: close");
    reveal_strlit("HTTP/1.1 200 OK\r\nContent-Type: ");
    reveal_strlit("\r\nContent-Length: ");
    reveal_strlit("\r\nServer: fast-http/0.1.0\r\nConnection: close\r\n\r\n");
    lemma_text_concat("HTTP/1.1 200 OK"@, end);
    lemma_text_concat("HTTP/1.1 200 OK"@ + end, "Content-Type: "@);
    assert("HTTP/1.1 200 OK"@ + end + "Content-Type: "@
        =~= "HTTP/1.1 200 OK\r\nContent-Type: "@);
    lemma_text_concat(end, "Content-Length: "@);
    assert(end + "Content-Length: "@ =~= "\r\nContent-Length: "@);
    lemma_text_concat(end, "Server: fast-http/"@);
    lemma_text_concat(end + "Server: fast-http/"@, VERSION@);
    lemma_text_concat(end + "Server: fast-http/"@ + VERSION@, end);
    lemma_text_concat(end + "Server: fast-http/"@ + VERSION@ + end, "Connection: close"@);
    lemma_text_concat(end + "Server: fast-http/"@ + VERSION@ + end + "Connection: close"@, end);
    lemma_text_concat(
        end + "Server: fast-http/"@ + VERSION@ + end + "Connection: close"@ + end,
        end,
    );
    assert(end + "Server: fast-http/"@ + VERSION@ + end + "Connection: close"@ + end + end
        =~= "\r\nServer: fast-http/0.1.0\r\nConnection: close\r\n\r\n"@);
    lemma_head_of_five(
        text("HTTP/1.1 200 OK"),
        text("Content-Type: ") + encode_utf8(content_type),
        text("Content-Length: ") + decimal_spec(size as nat),
        text("Server: fast-http/") + text(VERSION),
        text("Connection: close"),
    );
    assert(head(ok_lines(content_type, size)) =~= text("HTTP/1.1 200 OK\r\nContent-Type: ")
        + encode_utf8(content_type) + text("\r\nContent-Length: ") + decimal_spec(size as nat) + text(
        "\r\nServer: fast-http/0.1.0\r\nConnection: close\r\n\r\n",
    ));
}

/// The header of an error response, from its status line to its blank line.
pub proof fn law_error_header_bytes(status: u16, reason: &str, length: nat)
    ensures
        head(error_lines(status, reason, length)) == text("HTTP/1.1 ") + decimal_spec(status as nat)
            + text(" ") + text(reason) + text(
            "\r\nContent-Type: text/plain; charset=utf-8\r\nContent-Length: ",
        ) + decimal_spec(length) + text("\r\nConnection: close\r\n\r\n"),
{
    let end = "\r\n"@;
    reveal_strlit("\r\n");
    reveal_strlit("Content-Type: ");
    reveal_strlit("text/plain; charset=utf-8");
    reveal_strlit("Content-Length: ");
    reveal_strlit("Connection: close");
    reveal_strlit("\r\nContent-Type: text/plain; charset=utf-8\r\nContent-Length: ");
    reveal_strlit("\r\nConnection: close\r\n\r\n");
    lemma_text_concat(end, "Content-Type: "@);
    lemma_text_concat(end + "Content-Type: "@, "text/plain; charset=utf-8"@);
    lemma_text_concat(end + "Content-Type: "@ + "text/plain; charset=utf-8"@, end);
    lemma_text_concat(
        end + "Content-Type: "@ + "text/plain; charset=utf-8"@ + end,
        "Content-Length: "@,
    );
    assert(end + "Content-Type: "@ + "text/plain; charset=utf-8"@ + end + "Content-Length: "@
        =~= "\r\nContent-Type: text/plain; charset=utf-8\r\nContent-Length: "@);
    lemma_text_concat(end, "Connection: close"@);
    lemma_text_concat(end + "Connection: close"@, end);
    lemma_text_concat(end + "Connection: close"@ + end, end);
    assert(end + "Connection: close"@ + end + end =~= "\r\nConnection: close\r\n\r\n"@);
    lemma_head_of_four(
        text("HTTP/1.1 ") + (decimal_spec(status as nat) + text(" ") + text(reason)),
        text("Content-Type: ") + text("text/plain; charset=utf-8"),
        text("Content-Length: ") + decimal_spec(length),
        text("Connection: close"),
    );
    assert(head(error_lines(status, reason, length)) =~= text("HTTP/1.1 ") + decimal_spec(
        status as nat,
    ) + text(" ") + text(reason) + text(
        "\r\nContent-Type: text/plain; charset=utf-8\r\nContent-Length: ",
    ) + decimal_spec(length) + text("\r\nConnection: close\r\n\r\n"));
}

/// A file whose extension is none of those that the server knows is sent as plain bytes,
/// and so is one without an extension.
pub proof fn law_unknown_extension_is_binary(ext: Seq<u8>)
    requires
        ext != text("html") && ext != text("htm") && ext != text("css") && ext != text("js") && ext
            != text("mjs") && ext != text("json") && ext != text("txt") && ext != text("svg") && ext
            != text("png") && ext != text("jpg") && ext != text("jpeg") && ext != text("gif") && ext
            != text("ico") && ext != text("webp") && ext != text("pdf") && ext != text("wasm") && ext
            != text("xml"),
    ensures
        mime_type(ext) == "application/octet-stream"@,
{
}

/// [`mime_for_ext`] gives the type of the extension in lower case.
pub proof fn law_mime_for_ext_returns_the_type(ext: &str, r: &'static str)
    requires
        call_ensures(mime_for_ext, (ext,), r),
    ensures
        r@ == mime_type(ascii_lower_spec(encode_utf8(ext@))),
{
}

/// [`Response::ok`] sends the very file, with a header that gives its type and its size
/// in full; without a size it is an internal error.
pub proof fn law_ok_returns_the_file<F>(
    file: F,
    size: Option<u64>,
    content_type: &'static str,
    r: Response<F>,
)
    requires
        call_ensures(Response::<F>::ok, (file, size, content_type), r),
    ensures
        match size {
            Some(size) => r matches Response::File { header, file: sent } && sent == file && header@
                == text("HTTP/1.1 200 OK\r\nContent-Type: ") + encode_utf8(content_type@) + text(
                "\r\nContent-Length: ",
            ) + decimal_spec(size as nat) + text(
                "\r\nServer: fast-http/0.1.0\r\nConnection: close\r\n\r\n",
            ),
            None => r.is_error(500, "Internal Server Error", "500 Internal Server Error"),
        },
{
    if size is Some {
        law_ok_header_bytes(content_type@, size->0);
    }
}

/// Each refusal has its own status, reason and body.
pub proof fn law_refusals_have_their_status<F>(r: Response<F>)
    ensures
        call_ensures(Response::<F>::not_found, (), r) ==> r.is_error(
            404,
            "Not Found",
            "404 Not Found",
        ),
        call_ensures(Response::<F>::forbidden, (), r) ==> r.is_error(
            403,
            "Forbidden",
            "403 Forbidden",
        ),
        call_ensures(Response::<F>::method_not_allowed, (), r) ==> r.is_error(
            405,
            "Method Not Allowed",
            "405 Method Not Allowed",
        ),
        call_ensures(Response::<F>::bad_request, (), r) ==> r.is_error(
            400,
            "Bad Request",
            "400 Bad Request",
        ),
        call_ensures(Response::<F>::header_fields_too_large, (), r) ==> r.is_error(
            431,
            "Request Header Fields Too Large",
            "431 Request Header Fields Too Large",
        ),
        call_ensures(Response::<F>::internal_error, (), r) ==> r.is_error(
            500,
            "Internal Server Error",
            "500 Internal Server Error",
        ),
{
}

/// An error response holds its body, after a header that gives its length.
pub proof fn law_error_returns_its_body<F>(r: Response<F>, status: u16, reason: &str, body: &str)
    requires
        r.is_error(status, reason, body),
    ensures
        r matches Response::Bytes { header, body: sent } && sent@ == encode_utf8(body@) && header@
            == text("HTTP/1.1 ") + decimal_spec(status as nat) + text(" ") + text(reason) + text(
            "\r\nContent-Type: text/plain; charset=utf-8\r\nContent-Length: ",
        ) + decimal_spec(sent@.len()) + text("\r\nConnection: close\r\n\r\n"),
{
    law_error_header_bytes(status, reason, text(body).len());
}

} // verus!
