//! Reading a request out of the bytes a client sent: the request line, the
//! header lines up to the first blank line, and the body after it.
use vstd::prelude::*;
use crate::http::keyed_map::KeyedMap;
use crate::http::pattern::{
    CompiledPattern, strip_trailing_escaped_nuls, strip_with, trailing_escaped_nul_pattern,
};
use crate::http::types::{HTTPMethod, HTTPRequest, StringMap, method_named};
use crate::http::types::{
    law_method_name_roundtrip, law_method_named_exact, lemma_method_name_has_no_space, method_name,
};
use crate::text::{
    chars_of, decode_lossy, contains_text, lemma_split_first, lemma_split_has_pattern, lemma_split_second, occurs_at, split, split_exec,
    string_from_chars, utf8_lossy, views,
};

verus! {

/// Why a request could not be read.
#[derive(Debug, Clone, Copy, PartialEq, Eq, Structural)]
pub enum RequestError {
    /// A header line has no `": "` between name and value.
    MalformedHeader,
    /// The request line does not start with a known method name.
    UnknownMethod,
    /// The request line has no space, so no path follows the method.
    MissingPath,
    /// No blank line (`\r\n\r\n`) ends the header section.
    MissingBody,
}

/// What a parsed request holds, as text.
pub struct RequestView {
    pub path: Seq<char>,
    pub method: HTTPMethod,
    pub headers: Map<Seq<char>, Seq<char>>,
    pub body: Seq<char>,
}

/// The headers of a header map, values taken as text.
pub open spec fn header_text(m: StringMap) -> Map<Seq<char>, Seq<char>> {
    m.view().map_values(|v: String| v@)
}

impl HTTPRequest {
    /// The request as text.
    pub open spec fn view(&self) -> RequestView {
        RequestView {
            path: self.path@,
            method: self.method,
            headers: header_text(self.headers),
            body: self.body@,
        }
    }
}

/// The blank line that ends the header section.
pub open spec fn blank_line() -> Seq<char> {
    seq!['\r', '\n', '\r', '\n']
}

/// The line break between header lines.
pub open spec fn line_break() -> Seq<char> {
    seq!['\r', '\n']
}

/// What separates a header's name from its value.
pub open spec fn header_separator() -> Seq<char> {
    seq![':', ' ']
}

/// What separates the method from the path in the request line.
pub open spec fn space() -> Seq<char> {
    seq![' ']
}

/// The text before the first blank line, split into lines; the first is the
/// request line.
pub open spec fn request_lines(text: Seq<char>) -> Seq<Seq<char>> {
    split(split(text, blank_line())[0], line_break())
}

/// A header line has a `": "` separator.
pub open spec fn header_line_ok(line: Seq<char>) -> bool {
    split(line, header_separator()).len() >= 2
}

/// The header name of a header line: the text before the first `": "`.
pub open spec fn header_name(line: Seq<char>) -> Seq<char> {
    split(line, header_separator())[0]
}

/// The header value of a header line: the text between the first `": "` and
/// the next one (or the end of the line).
pub open spec fn header_value(line: Seq<char>) -> Seq<char> {
    split(line, header_separator())[1]
}

/// The headers given by lines `1..n`, a later line overriding an earlier one
/// with the same name.
pub open spec fn headers_of(lines: Seq<Seq<char>>, n: int) -> Map<Seq<char>, Seq<char>>
    decreases n,
{
    if n <= 1 {
        Map::empty()
    } else {
        headers_of(lines, n - 1).insert(header_name(lines[n - 1]), header_value(lines[n - 1]))
    }
}

/// Law: when several header lines share a name, the last of them gives the value.
pub proof fn law_last_header_wins(lines: Seq<Seq<char>>, n: int, j: int)
    requires
        1 <= j < n <= lines.len(),
        forall|i: int| j < i < n ==> header_name(#[trigger] lines[i]) != header_name(lines[j]),
    ensures
        headers_of(lines, n).contains_key(header_name(lines[j])),
        headers_of(lines, n)[header_name(lines[j])] == header_value(lines[j]),
    decreases n,
{
    if n > j + 1 {
        assert(header_name(lines[n - 1]) != header_name(lines[j]));
        law_last_header_wins(lines, n - 1, j);
    }
}

/// Every name the headers of lines `1..n` hold is the name of one of those lines.
proof fn lemma_header_names_from_lines(lines: Seq<Seq<char>>, n: int, k: Seq<char>)
    requires
        n <= lines.len(),
        headers_of(lines, n).contains_key(k),
    ensures
        exists|j: int| 1 <= j < n && header_name(#[trigger] lines[j]) == k,
    decreases n,
{
    if n > 1 {
        if header_name(lines[n - 1]) == k {
            assert(header_name(lines[n - 1]) == k);
        } else {
            lemma_header_names_from_lines(lines, n - 1, k);
            let j = choose|j: int| 1 <= j < n - 1 && header_name(#[trigger] lines[j]) == k;
            assert(header_name(lines[j]) == k);
        }
    }
}

/// Law: a request that parses carries its whole header section. Each header
/// line (every line after the request line, up to the blank line) whose name no
/// later line repeats gives that name its value, however many lines there are;
/// and every name the parsed headers hold is the name of one of those lines.
pub proof fn law_parsed_headers_cover_header_section(text: Seq<char>, j: int, k: Seq<char>)
    requires
        parse_request_text(text) is Ok,
    ensures
        ({
            let lines = request_lines(text);
            let headers = parse_request_text(text)->Ok_0.headers;
            &&& (1 <= j < lines.len() && (forall|i: int|
                j < i < lines.len() ==> header_name(#[trigger] lines[i]) != header_name(lines[j])))
                ==> headers.contains_key(header_name(lines[j])) && headers[header_name(lines[j])]
                == header_value(lines[j])
            &&& headers.contains_key(k) ==> exists|i: int|
                1 <= i < lines.len() && header_name(#[trigger] lines[i]) == k
        }),
{
    let lines = request_lines(text);
    if 1 <= j < lines.len() && (forall|i: int|
        j < i < lines.len() ==> header_name(#[trigger] lines[i]) != header_name(lines[j])) {
        law_last_header_wins(lines, lines.len() as int, j);
    }
    if headers_of(lines, lines.len() as int).contains_key(k) {
        lemma_header_names_from_lines(lines, lines.len() as int, k);
    }
}

/// Law: a header line reads as its name, `": "` and its value: the name is the
/// text before the first `": "`, and the value the text after it, up to the
/// next `": "` or the end of the line.
pub proof fn law_header_line_parts(line: Seq<char>)
    requires
        header_line_ok(line),
    ensures
        ({
            let sep = seq![':', ' '];
            let n = header_name(line).len() as int;
            let a = n + 2;
            let e = a + header_value(line).len();
            &&& e <= line.len()
            &&& line.subrange(0, n) == header_name(line)
            &&& line.subrange(n, a) == sep
            &&& line.subrange(a, e) == header_value(line)
            &&& forall|j: int| 0 <= j < n ==> !occurs_at(line, sep, j)
            &&& forall|j: int| a <= j < e ==> !occurs_at(line, sep, j)
            &&& e == line.len() || occurs_at(line, sep, e)
        }),
{
    lemma_split_first(line, header_separator());
    lemma_split_second(line, header_separator());
}

/// Law: a request that parses is read off the text it came from. Its first line
/// is the text up to the first line break, and starts with the method's name, a
/// space and the path, the path running to the next space or the line's end.
/// Its body is the text after the first blank line, up to the next blank line
/// or the end, without the backslash-`0` pairs that end it.
pub proof fn law_request_read_off_text(text: Seq<char>)
    requires
        parse_request_text(text) is Ok,
    ensures
        ({
            let v = parse_request_text(text)->Ok_0;
            let line = request_lines(text)[0];
            let crlf = seq!['\r', '\n'];
            let m = method_name(v.method).len() as int;
            let e = m + 1 + v.path.len();
            &&& line.len() < text.len()
            &&& text.subrange(0, line.len() as int) == line
            &&& text[line.len() as int] == '\r'
            &&& forall|j: int| 0 <= j < line.len() ==> !occurs_at(line, crlf, j)
            &&& e <= line.len()
            &&& line.subrange(0, m) == method_name(v.method)
            &&& line[m] == ' '
            &&& line.subrange(m + 1, e) == v.path
            &&& forall|j: int| m + 1 <= j < e ==> line[j] != ' '
            &&& e == line.len() || line[e] == ' '
        }),
        ({
            let v = parse_request_text(text)->Ok_0;
            let blank = seq!['\r', '\n', '\r', '\n'];
            exists|h: int, e: int|
                #![trigger text.subrange(h + 4, e)]
                0 <= h && h + 4 <= e <= text.len() && occurs_at(text, blank, h) && (forall|j: int|
                    0 <= j < h ==> !occurs_at(text, blank, j)) && (forall|j: int|
                    h + 4 <= j < e ==> !occurs_at(text, blank, j)) && (e == text.len()
                    || occurs_at(text, blank, e)) && v.body == strip_trailing_escaped_nuls(
                    text.subrange(h + 4, e),
                )
        }),
{
    let v = parse_request_text(text)->Ok_0;
    let sections = split(text, blank_line());
    lemma_split_first(text, blank_line());
    lemma_split_second(text, blank_line());
    let head = sections[0];
    let h = head.len() as int;
    let lines = split(head, line_break());
    lemma_split_first(head, line_break());
    let line = lines[0];
    let i = line.len() as int;
    assert(text.subrange(0, i) =~= line) by {
        assert(head.subrange(0, i) == line);
        assert(text.subrange(0, h) == head);
    }
    if lines.len() >= 2 {
        assert(occurs_at(head, line_break(), i));
        assert(head.subrange(i, i + 2)[0] == '\r');
        assert(text[i] == head[i]);
    } else {
        assert(occurs_at(text, blank_line(), h));
        assert(text.subrange(h, h + 4)[0] == '\r');
    }
    assert forall|j: int| 0 <= j < i implies !occurs_at(line, line_break(), j) by {
        if occurs_at(line, line_break(), j) {
            assert(line.subrange(j, j + 2) =~= head.subrange(j, j + 2));
            assert(occurs_at(head, line_break(), j));
        }
    }
    let sig = split(line, space());
    lemma_split_first(line, space());
    lemma_split_second(line, space());
    law_method_named_exact(sig[0]);
    let m = sig[0].len() as int;
    let e = m + 1 + sig[1].len();
    assert(line.subrange(m, m + 1)[0] == line[m]);
    assert forall|j: int| m + 1 <= j < e implies line[j] != ' ' by {
        if line[j] == ' ' {
            assert(line.subrange(j, j + 1) =~= seq![' ']);
            assert(occurs_at(line, space(), j));
        }
    }
    if e < line.len() {
        assert(line.subrange(e, e + 1)[0] == line[e]);
    }
    let a = h + 4;
    let f = a + sections[1].len();
    assert(text.subrange(a, f) == sections[1]);
}

/// The line starts with the name of method `m`, followed by a space or the
/// line's end.
pub open spec fn starts_with_method(line: Seq<char>, m: HTTPMethod) -> bool {
    let name = method_name(m);
    &&& name.len() <= line.len()
    &&& line.subrange(0, name.len() as int) == name
    &&& (line.len() == name.len() || line[name.len() as int] == ' ')
}

/// The first word of `line` (the text before its first space) names a method
/// exactly when the line starts with some method's name followed by a space or
/// its end; that method is the one named.
proof fn lemma_first_word_method(line: Seq<char>)
    ensures
        method_named(split(line, space())[0]) is Some <==> exists|m: HTTPMethod|
            #[trigger] starts_with_method(line, m),
        method_named(split(line, space())[0]) is Some ==> starts_with_method(
            line,
            method_named(split(line, space())[0])->Some_0,
        ),
{
    let sig = split(line, space());
    lemma_split_first(line, space());
    let n = sig[0].len() as int;
    if method_named(sig[0]) is Some {
        let m = method_named(sig[0])->Some_0;
        law_method_named_exact(sig[0]);
        if sig.len() >= 2 {
            assert(line.subrange(n, n + 1)[0] == line[n]);
        }
        assert(starts_with_method(line, m));
    }
    if exists|m: HTTPMethod| #[trigger] starts_with_method(line, m) {
        let m = choose|m: HTTPMethod| #[trigger] starts_with_method(line, m);
        let name = method_name(m);
        let l = name.len() as int;
        lemma_method_name_has_no_space(m);
        assert forall|j: int| 0 <= j < l implies !occurs_at(line, space(), j) by {
            if occurs_at(line, space(), j) {
                assert(line.subrange(j, j + 1)[0] == line[j]);
                assert(line.subrange(0, l)[j] == line[j]);
            }
        }
        if l < line.len() {
            assert(line.subrange(l, l + 1) =~= space());
            assert(occurs_at(line, space(), l));
        }
        assert(n == l);
        assert(sig[0] == name);
        law_method_name_roundtrip(m);
    }
}

/// Law: which texts are read as a request and which are refused, and why, in
/// the order the checks are made: a header line without `": "` makes the
/// request malformed; then a request line that does not start with a method's
/// name followed by a space or its end names no known method; then a request
/// line without a space has no path; then a text without a blank line has no
/// body. A text that passes all four is read, with the method its line starts
/// with.
pub proof fn law_request_accepted_exactly(text: Seq<char>)
    ensures
        ({
            let lines = request_lines(text);
            let line = lines[0];
            let headers_ok = forall|j: int|
                1 <= j < lines.len() ==> contains_text(#[trigger] lines[j], seq![':', ' ']);
            let method_ok = exists|m: HTTPMethod| #[trigger] starts_with_method(line, m);
            let has_path = contains_text(line, seq![' ']);
            let has_body = contains_text(text, seq!['\r', '\n', '\r', '\n']);
            &&& !headers_ok ==> parse_request_text(text) == Err::<RequestView, RequestError>(
                RequestError::MalformedHeader,
            )
            &&& headers_ok && !method_ok ==> parse_request_text(text) == Err::<
                RequestView,
                RequestError,
            >(RequestError::UnknownMethod)
            &&& headers_ok && method_ok && !has_path ==> parse_request_text(text) == Err::<
                RequestView,
                RequestError,
            >(RequestError::MissingPath)
            &&& headers_ok && method_ok && has_path && !has_body ==> parse_request_text(text)
                == Err::<RequestView, RequestError>(RequestError::MissingBody)
            &&& headers_ok && method_ok && has_path && has_body ==> parse_request_text(text) is Ok
                && starts_with_method(line, parse_request_text(text)->Ok_0.method)
        }),
{
    let lines = request_lines(text);
    let line = lines[0];
    assert forall|j: int| 1 <= j < lines.len() implies (header_line_ok(#[trigger] lines[j])
        <==> contains_text(lines[j], seq![':', ' '])) by {
        lemma_split_has_pattern(lines[j], header_separator());
    }
    lemma_first_word_method(line);
    lemma_split_has_pattern(line, space());
    lemma_split_has_pattern(text, blank_line());
}

/// Every header line among `lines[1..n]` has a separator.
pub open spec fn header_lines_ok(lines: Seq<Seq<char>>, n: int) -> bool {
    forall|i: int| 1 <= i < n ==> #[trigger] header_line_ok(lines[i])
}

/// The request that the decoded text of a client's bytes stands for, or why
/// there is none. Header lines are checked first, then the method, then the
/// path, then the blank line that starts the body. The body is the text between
/// the first blank line and the next one (or the end), with any run of
/// backslash-`0` pairs at its end removed.
pub open spec fn parse_request_text(text: Seq<char>) -> Result<RequestView, RequestError> {
    let lines = request_lines(text);
    let signature = split(lines[0], space());
    let sections = split(text, blank_line());
    if !header_lines_ok(lines, lines.len() as int) {
        Err(RequestError::MalformedHeader)
    } else if method_named(signature[0]) is None {
        Err(RequestError::UnknownMethod)
    } else if signature.len() < 2 {
        Err(RequestError::MissingPath)
    } else if sections.len() < 2 {
        Err(RequestError::MissingBody)
    } else {
        Ok(
            RequestView {
                path: signature[1],
                method: method_named(signature[0]).unwrap(),
                headers: headers_of(lines, lines.len() as int),
                body: strip_trailing_escaped_nuls(sections[1]),
            },
        )
    }
}

/// The request in the bytes a client sent: the bytes are decoded as UTF-8
/// (invalid sequences replaced), then read as `parse_request_text` says.
pub fn parse_request(raw: &[u8], trim: &CompiledPattern) -> (r: Result<HTTPRequest, RequestError>)
    requires
        trim.pattern() == trailing_escaped_nul_pattern(),
    ensures
        r matches Ok(req) ==> parse_request_text(utf8_lossy(raw@)) == Ok::<RequestView, RequestError>(req.view()),
        r matches Err(e) ==> parse_request_text(utf8_lossy(raw@)) == Err::<RequestView, RequestError>(e),
{
    let decoded = decode_lossy(raw);
    parse_request_from_text(decoded.as_str(), trim)
}

/// The request in the decoded text of a client's bytes (see `parse_request_text`).
pub fn parse_request_from_text(decoded: &str, trim: &CompiledPattern) -> (r: Result<
    HTTPRequest,
    RequestError,
>)
    requires
        trim.pattern() == trailing_escaped_nul_pattern(),
    ensures
        r matches Ok(req) ==> parse_request_text(decoded@) == Ok::<RequestView, RequestError>(req.view()),
        r matches Err(e) ==> parse_request_text(decoded@) == Err::<RequestView, RequestError>(e),
{
    let text = chars_of(decoded);
    let ghost t = text@;
    let blank = vec!['\r', '\n', '\r', '\n'];
    let crlf = vec!['\r', '\n'];
    let sep = vec![':', ' '];
    let sp = vec![' '];
    assert(blank@ =~= blank_line());
    assert(crlf@ =~= line_break());
    assert(sep@ =~= header_separator());
    assert(sp@ =~= space());
    let sections = split_exec(text.as_slice(), blank.as_slice());
    proof {
        crate::text::lemma_split_nonempty(t, blank_line(), 0);
    }
    let lines = split_exec(sections[0].as_slice(), crlf.as_slice());
    proof {
        crate::text::lemma_split_nonempty(sections@[0]@, line_break(), 0);
    }
    let ghost ls = request_lines(t);
    assert(views(lines@) == ls);
    let mut headers: StringMap = KeyedMap::new();
    let mut i: usize = 1;
    while i < lines.len()
        invariant
            views(lines@) == ls,
            ls == request_lines(t),
            t == decoded@,
            1 <= i <= lines.len() || (i == 1 && lines.len() < 1),
            sep@ == header_separator(),
            headers.wf(),
            header_text(headers) == headers_of(ls, i as int),
            header_lines_ok(ls, i as int),
        decreases lines.len() - i,
    {
        let kv = split_exec(lines[i].as_slice(), sep.as_slice());
        assert(views(kv@) == split(ls[i as int], header_separator()));
        if kv.len() < 2 {
            assert(!header_line_ok(ls[i as int]));
            assert(!header_lines_ok(ls, ls.len() as int));
            assert(parse_request_text(t) == Err::<RequestView, RequestError>(
                RequestError::MalformedHeader,
            ));
            return Err(RequestError::MalformedHeader);
        }
        let name = string_from_chars(kv[0].as_slice());
        let value = string_from_chars(kv[1].as_slice());
        let ghost old_headers = headers;
        headers.insert(name, value);
        assert(header_text(headers) =~= header_text(old_headers).insert(
            header_name(ls[i as int]),
            header_value(ls[i as int]),
        ));
        i = i + 1;
    }
    assert(header_lines_ok(ls, ls.len() as int));
    assert(header_text(headers) == headers_of(ls, ls.len() as int));
    let signature = split_exec(lines[0].as_slice(), sp.as_slice());
    assert(views(signature@) == split(ls[0], space()));
    proof {
        crate::text::lemma_split_nonempty(ls[0], space(), 0);
    }
    let method_text = string_from_chars(signature[0].as_slice());
    let method = match HTTPMethod::from(method_text.as_str()) {
        Ok(m) => m,
        Err(_) => {
            return Err(RequestError::UnknownMethod);
        },
    };
    if signature.len() < 2 {
        return Err(RequestError::MissingPath);
    }
    let path = string_from_chars(signature[1].as_slice());
    if sections.len() < 2 {
        return Err(RequestError::MissingBody);
    }
    let raw_body = string_from_chars(sections[1].as_slice());
    let body = strip_with(trim, raw_body.as_str());
    let req = HTTPRequest { path, method, headers, body };
    assert(req.view() == parse_request_text(t).unwrap());
    Ok(req)
}

} // verus!
