//! The text of the response sent back to a client.
use vstd::prelude::*;
use crate::http::request::header_text;
use crate::http::types::StringMap;
use crate::text::{chars_of, int_text, nat_text, push_all, push_int_text, push_nat_text, string_from_chars};

verus! {

/// The protocol version written in the status line.
pub const HTTP_VERSION: &'static str = "1.1";

/// The entries of a header map in order, values taken as text.
pub open spec fn header_pairs(m: StringMap) -> Seq<(Seq<char>, Seq<char>)> {
    m.pairs().map_values(|e: (Seq<char>, String)| (e.0, e.1@))
}

/// One `name: value` line for each header, in the order given.
pub open spec fn header_block(pairs: Seq<(Seq<char>, Seq<char>)>) -> Seq<char>
    decreases pairs.len(),
{
    if pairs.len() == 0 {
        Seq::empty()
    } else {
        header_block(pairs.drop_last()) + pairs.last().0 + ": "@ + pairs.last().1 + "\n"@
    }
}

/// The reason text for a status code: the table's entry under the code's
/// decimal text, or `null` when the table has none.
pub open spec fn reason_text(reasons: Map<Seq<char>, Seq<char>>, status_code: int) -> Seq<char> {
    if reasons.contains_key(int_text(status_code)) {
        reasons[int_text(status_code)]
    } else {
        "null"@
    }
}

/// The length in UTF-8 bytes of a text, as `str::len` reports it.
pub open spec fn byte_length(text: Seq<char>) -> nat {
    (vstd::utf8::encode_utf8(text).len() as usize) as nat
}

/// The full response text: a blank first line, the status line, the request's
/// headers echoed one per line, the content type, the body's length in UTF-8
/// bytes, a blank line, and the body.
pub open spec fn response_text(
    status_code: int,
    headers: Seq<(Seq<char>, Seq<char>)>,
    content_type: Seq<char>,
    body: Seq<char>,
    reasons: Map<Seq<char>, Seq<char>>,
) -> Seq<char> {
    "\nHTTP/"@ + HTTP_VERSION@ + " "@ + int_text(status_code) + " "@ + reason_text(
        reasons,
        status_code,
    ) + "\n"@ + header_block(headers) + "\nContent-Type: "@ + content_type
        + "\nContent-Length: "@ + nat_text(byte_length(body)) + "\n\n"@ + body
}

/// Law: the status line of every response names the status code and, after
/// it, the reason the table holds under the code's decimal text, for every
/// code the table holds; only a code the table lacks gets `null`.
pub proof fn law_status_line_reason(
    status_code: int,
    headers: Seq<(Seq<char>, Seq<char>)>,
    content_type: Seq<char>,
    body: Seq<char>,
    reasons: Map<Seq<char>, Seq<char>>,
)
    ensures
        reasons.contains_key(int_text(status_code)) ==> ("\nHTTP/"@ + HTTP_VERSION@ + " "@ + int_text(
            status_code,
        ) + " "@ + reasons[int_text(status_code)] + "\n"@).is_prefix_of(
            response_text(status_code, headers, content_type, body, reasons),
        ),
        !reasons.contains_key(int_text(status_code)) ==> ("\nHTTP/"@ + HTTP_VERSION@ + " "@
            + int_text(status_code) + " "@ + "null"@ + "\n"@).is_prefix_of(
            response_text(status_code, headers, content_type, body, reasons),
        ),
{
    let line = "\nHTTP/"@ + HTTP_VERSION@ + " "@ + int_text(status_code) + " "@ + reason_text(
        reasons,
        status_code,
    ) + "\n"@;
    let rest = header_block(headers) + "\nContent-Type: "@ + content_type + "\nContent-Length: "@
        + nat_text(byte_length(body)) + "\n\n"@ + body;
    assert(response_text(status_code, headers, content_type, body, reasons) =~= line + rest);
    assert((line + rest).take(line.len() as int) =~= line);
}

/// Builds the response text for a status code, the request's headers, a content
/// type and a body; `reasons` maps the decimal text of status codes to the
/// reason text written after the code.
pub fn build_response(
    status_code: i32,
    headers: &StringMap,
    content_type: &str,
    body: &str,
    reasons: &StringMap,
) -> (s: String)
    requires
        reasons.wf(),
    ensures
        s@ == response_text(
            status_code as int,
            header_pairs(*headers),
            content_type@,
            body@,
            header_text(*reasons),
        ),
{
    let mut out: Vec<char> = chars_of("\nHTTP/");
    push_all(&mut out, chars_of(HTTP_VERSION).as_slice());
    push_all(&mut out, chars_of(" ").as_slice());
    push_int_text(&mut out, status_code as i64);
    push_all(&mut out, chars_of(" ").as_slice());
    let mut code: Vec<char> = Vec::new();
    push_int_text(&mut code, status_code as i64);
    let code_text = string_from_chars(code.as_slice());
    assert(code_text@ == int_text(status_code as int));
    let ghost before_reason = out@;
    match reasons.get(code_text.as_str()) {
        Some(r) => {
            push_all(&mut out, chars_of(r.as_str()).as_slice());
        },
        None => {
            push_all(&mut out, chars_of("null").as_slice());
        },
    }
    assert(out@ == before_reason + reason_text(header_text(*reasons), status_code as int));
    push_all(&mut out, chars_of("\n").as_slice());
    let ghost start = out@;
    let ghost pairs = header_pairs(*headers);
    let mut i: usize = 0;
    while i < headers.len()
        invariant
            i <= pairs.len(),
            pairs == header_pairs(*headers),
            headers.pairs().len() == pairs.len(),
            out@ == start + header_block(pairs.take(i as int)),
        decreases pairs.len() - i,
    {
        push_all(&mut out, chars_of(headers.key_at(i).as_str()).as_slice());
        push_all(&mut out, chars_of(": ").as_slice());
        push_all(&mut out, chars_of(headers.value_at(i).as_str()).as_slice());
        push_all(&mut out, chars_of("\n").as_slice());
        assert(pairs.take(i + 1).drop_last() =~= pairs.take(i as int));
        i = i + 1;
    }
    assert(pairs.take(i as int) =~= pairs);
    push_all(&mut out, chars_of("\nContent-Type: ").as_slice());
    push_all(&mut out, chars_of(content_type).as_slice());
    push_all(&mut out, chars_of("\nContent-Length: ").as_slice());
    let n = body.len();
    push_nat_text(&mut out, n as u64);
    push_all(&mut out, chars_of("\n\n").as_slice());
    push_all(&mut out, chars_of(body).as_slice());
    let s = string_from_chars(out.as_slice());
    assert(s@ =~= response_text(
        status_code as int,
        header_pairs(*headers),
        content_type@,
        body@,
        header_text(*reasons),
    ));
    s
}

} // verus!
