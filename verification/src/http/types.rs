//! HTTP methods, parsed requests and the shape of a handler's answer.
use vstd::prelude::*;
use crate::http::keyed_map::KeyedMap;
use crate::text::same_text;

verus! {

/// The request methods the server recognises.
#[derive(Debug, Clone, Copy, PartialEq, Eq, Structural)]
pub enum HTTPMethod {
    GET,
    POST,
    PUT,
    PATCH,
    DELETE,
    HEAD,
    OPTIONS,
    COPY,
    LINK,
    UNLINK,
    PURGE,
}

/// The name under which a method is written in a request line (and printed).
pub open spec fn method_name(m: HTTPMethod) -> Seq<char> {
    match m {
        HTTPMethod::GET => seq!['G', 'E', 'T'],
        HTTPMethod::POST => seq!['P', 'O', 'S', 'T'],
        HTTPMethod::PUT => seq!['P', 'U', 'T'],
        HTTPMethod::PATCH => seq!['P', 'A', 'T', 'C', 'H'],
        HTTPMethod::DELETE => seq!['D', 'E', 'L', 'E', 'T', 'E'],
        HTTPMethod::HEAD => seq!['H', 'E', 'A', 'D'],
        HTTPMethod::OPTIONS => seq!['O', 'P', 'T', 'I', 'O', 'N', 'S'],
        HTTPMethod::COPY => seq!['C', 'O', 'P', 'Y'],
        HTTPMethod::LINK => seq!['L', 'I', 'N', 'K'],
        HTTPMethod::UNLINK => seq!['U', 'N', 'L', 'I', 'N', 'K'],
        HTTPMethod::PURGE => seq!['P', 'U', 'R', 'G', 'E'],
    }
}

/// The method whose name is `s`, if any.
pub open spec fn method_named(s: Seq<char>) -> Option<HTTPMethod> {
    if s == method_name(HTTPMethod::GET) {
        Some(HTTPMethod::GET)
    } else if s == method_name(HTTPMethod::POST) {
        Some(HTTPMethod::POST)
    } else if s == method_name(HTTPMethod::PUT) {
        Some(HTTPMethod::PUT)
    } else if s == method_name(HTTPMethod::PATCH) {
        Some(HTTPMethod::PATCH)
    } else if s == method_name(HTTPMethod::DELETE) {
        Some(HTTPMethod::DELETE)
    } else if s == method_name(HTTPMethod::HEAD) {
        Some(HTTPMethod::HEAD)
    } else if s == method_name(HTTPMethod::OPTIONS) {
        Some(HTTPMethod::OPTIONS)
    } else if s == method_name(HTTPMethod::COPY) {
        Some(HTTPMethod::COPY)
    } else if s == method_name(HTTPMethod::LINK) {
        Some(HTTPMethod::LINK)
    } else if s == method_name(HTTPMethod::UNLINK) {
        Some(HTTPMethod::UNLINK)
    } else if s == method_name(HTTPMethod::PURGE) {
        Some(HTTPMethod::PURGE)
    } else {
        None
    }
}

/// Law: the name a method is printed under reads back as that method.
pub proof fn law_method_name_roundtrip(m: HTTPMethod)
    ensures
        method_named(method_name(m)) == Some(m),
{
}

/// Law: a text names a method only when it is that method's name, letter for
/// letter, and exactly the eleven names below are method names; every other
/// text (`TRACE`, `get`, `GET ` and so on) names none.
pub proof fn law_method_named_exact(s: Seq<char>)
    ensures
        method_named(s) is Some ==> s == method_name(method_named(s)->Some_0),
        method_named(s) is Some <==> {
            ||| s == seq!['G', 'E', 'T']
            ||| s == seq!['P', 'O', 'S', 'T']
            ||| s == seq!['P', 'U', 'T']
            ||| s == seq!['P', 'A', 'T', 'C', 'H']
            ||| s == seq!['D', 'E', 'L', 'E', 'T', 'E']
            ||| s == seq!['H', 'E', 'A', 'D']
            ||| s == seq!['O', 'P', 'T', 'I', 'O', 'N', 'S']
            ||| s == seq!['C', 'O', 'P', 'Y']
            ||| s == seq!['L', 'I', 'N', 'K']
            ||| s == seq!['U', 'N', 'L', 'I', 'N', 'K']
            ||| s == seq!['P', 'U', 'R', 'G', 'E']
        },
{
}

/// No method's name holds a space.
pub proof fn lemma_method_name_has_no_space(m: HTTPMethod)
    ensures
        forall|j: int| 0 <= j < method_name(m).len() ==> method_name(m)[j] != ' ',
{
    let name = method_name(m);
    assert forall|j: int| 0 <= j < name.len() implies name[j] != ' ' by {
        if j == 0 {
        } else if j == 1 {
        } else if j == 2 {
        } else if j == 3 {
        } else if j == 4 {
        } else if j == 5 {
        } else {
        }
    }
}

/// The text of the error that `HTTPMethod::from` returns for an unknown name.
pub open spec fn invalid_method_message() -> Seq<char> {
    "Invalid str. Can't be converted to an HTTPMethod enum"@
}

/// The string literals used for method names spell the names.
proof fn lemma_method_literals()
    ensures
        "GET"@ == method_name(HTTPMethod::GET),
        "POST"@ == method_name(HTTPMethod::POST),
        "PUT"@ == method_name(HTTPMethod::PUT),
        "PATCH"@ == method_name(HTTPMethod::PATCH),
        "DELETE"@ == method_name(HTTPMethod::DELETE),
        "HEAD"@ == method_name(HTTPMethod::HEAD),
        "OPTIONS"@ == method_name(HTTPMethod::OPTIONS),
        "COPY"@ == method_name(HTTPMethod::COPY),
        "LINK"@ == method_name(HTTPMethod::LINK),
        "UNLINK"@ == method_name(HTTPMethod::UNLINK),
        "PURGE"@ == method_name(HTTPMethod::PURGE),
{
    reveal_strlit("GET");
    assert("GET"@ =~= method_name(HTTPMethod::GET));
    reveal_strlit("POST");
    assert("POST"@ =~= method_name(HTTPMethod::POST));
    reveal_strlit("PUT");
    assert("PUT"@ =~= method_name(HTTPMethod::PUT));
    reveal_strlit("PATCH");
    assert("PATCH"@ =~= method_name(HTTPMethod::PATCH));
    reveal_strlit("DELETE");
    assert("DELETE"@ =~= method_name(HTTPMethod::DELETE));
    reveal_strlit("HEAD");
    assert("HEAD"@ =~= method_name(HTTPMethod::HEAD));
    reveal_strlit("OPTIONS");
    assert("OPTIONS"@ =~= method_name(HTTPMethod::OPTIONS));
    reveal_strlit("COPY");
    assert("COPY"@ =~= method_name(HTTPMethod::COPY));
    reveal_strlit("LINK");
    assert("LINK"@ =~= method_name(HTTPMethod::LINK));
    reveal_strlit("UNLINK");
    assert("UNLINK"@ =~= method_name(HTTPMethod::UNLINK));
    reveal_strlit("PURGE");
    assert("PURGE"@ =~= method_name(HTTPMethod::PURGE));
}

impl HTTPMethod {
    /// The method written as `from` (exact, case-sensitive match of the name).
    pub fn from(from: &str) -> (r: Result<HTTPMethod, &str>)
        ensures
            r matches Ok(m) ==> method_named(from@) == Some(m),
            r matches Err(e) ==> method_named(from@) is None && e@ == invalid_method_message(),
    {
        proof {
            lemma_method_literals();
        }
        if same_text(from, "GET") {
            Ok(HTTPMethod::GET)
        } else if same_text(from, "POST") {
            Ok(HTTPMethod::POST)
        } else if same_text(from, "PUT") {
            Ok(HTTPMethod::PUT)
        } else if same_text(from, "PATCH") {
            Ok(HTTPMethod::PATCH)
        } else if same_text(from, "DELETE") {
            Ok(HTTPMethod::DELETE)
        } else if same_text(from, "HEAD") {
            Ok(HTTPMethod::HEAD)
        } else if same_text(from, "OPTIONS") {
            Ok(HTTPMethod::OPTIONS)
        } else if same_text(from, "COPY") {
            Ok(HTTPMethod::COPY)
        } else if same_text(from, "LINK") {
            Ok(HTTPMethod::LINK)
        } else if same_text(from, "UNLINK") {
            Ok(HTTPMethod::UNLINK)
        } else if same_text(from, "PURGE") {
            Ok(HTTPMethod::PURGE)
        } else {
            Err("Invalid str. Can't be converted to an HTTPMethod enum")
        }
    }

    /// The method's name, as the server prints it.
    pub fn name(&self) -> (s: &'static str)
        ensures
            s@ == method_name(*self),
    {
        proof {
            lemma_method_literals();
        }
        match self {
            HTTPMethod::GET => "GET",
            HTTPMethod::POST => "POST",
            HTTPMethod::PUT => "PUT",
            HTTPMethod::PATCH => "PATCH",
            HTTPMethod::DELETE => "DELETE",
            HTTPMethod::HEAD => "HEAD",
            HTTPMethod::OPTIONS => "OPTIONS",
            HTTPMethod::COPY => "COPY",
            HTTPMethod::LINK => "LINK",
            HTTPMethod::UNLINK => "UNLINK",
            HTTPMethod::PURGE => "PURGE",
        }
    }

    /// The method's name as an owned string (what printing the method shows).
    pub fn to_string(&self) -> (s: String)
        ensures
            s@ == method_name(*self),
    {
        let chars = crate::text::chars_of(self.name());
        crate::text::string_from_chars(chars.as_slice())
    }
}

/// Header names mapped to header values.
pub type StringMap = KeyedMap<String>;

/// A parsed request.
#[derive(Debug)]
pub struct HTTPRequest {
    pub path: String,
    pub method: HTTPMethod,
    pub headers: StringMap,
    pub body: String,
}

/// What a handler answers: a status code, a content type and a body, or an
/// error message.
pub type Response<'a> = Result<(i32, &'a str, &'a str), &'a str>;

} // verus!
