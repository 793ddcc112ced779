//! The regular expression that trims a request body, compiled with the `regex`
//! crate, together with what replacing its matches does to a text.
use vstd::prelude::*;
use regex::Regex;

verus! {

#[verifier::external_type_specification]
#[verifier::external_body]
pub struct ExRegex(Regex);

/// The pattern text `(\\0)+$`: one or more pairs of a backslash and a `0`,
/// reaching the end of the text.
pub open spec fn trailing_escaped_nul_pattern() -> Seq<char> {
    seq!['(', '\\', '\\', '0', ')', '+', '$']
}

/// How many backslash-`0` pairs end `s`, counted back from its end.
pub open spec fn trailing_pair_count(s: Seq<char>) -> nat
    decreases s.len(),
{
    if s.len() >= 2 && s[s.len() - 2] == '\\' && s[s.len() - 1] == '0' {
        1 + trailing_pair_count(s.take(s.len() - 2))
    } else {
        0
    }
}

/// `s` without the run of backslash-`0` pairs that ends it.
pub open spec fn strip_trailing_escaped_nuls(s: Seq<char>) -> Seq<char> {
    s.take(s.len() - 2 * trailing_pair_count(s))
}

/// The run of pairs never reaches past the start of the text.
proof fn lemma_pair_count_bound(s: Seq<char>)
    ensures
        2 * trailing_pair_count(s) <= s.len(),
    decreases s.len(),
{
    if trailing_pair_count(s) > 0 {
        lemma_pair_count_bound(s.take(s.len() - 2));
    }
}

/// Law: trimming leaves no backslash-`0` pair at the end, so trimming a
/// trimmed text changes nothing.
pub proof fn law_trim_is_stable(s: Seq<char>)
    ensures
        trailing_pair_count(strip_trailing_escaped_nuls(s)) == 0,
        strip_trailing_escaped_nuls(strip_trailing_escaped_nuls(s)) == strip_trailing_escaped_nuls(s),
    decreases s.len(),
{
    if trailing_pair_count(s) == 0 {
        assert(s.take(s.len() as int) =~= s);
    } else {
        let t = s.take(s.len() - 2);
        law_trim_is_stable(t);
        lemma_pair_count_bound(t);
        assert(trailing_pair_count(s) == 1 + trailing_pair_count(t));
        assert(strip_trailing_escaped_nuls(s) =~= strip_trailing_escaped_nuls(t));
    }
}

/// Law: trimming keeps the start of the text and removes only backslash-`0`
/// pairs from its end: the trimmed text is a prefix of the text, what follows it
/// is a whole number of pairs, and it ends in no such pair.
pub proof fn law_trim_removes_trailing_pairs(s: Seq<char>)
    ensures
        ({
            let t = strip_trailing_escaped_nuls(s);
            let r = s.len() - t.len();
            &&& t.len() <= s.len()
            &&& t == s.subrange(0, t.len() as int)
            &&& r % 2 == 0
            &&& forall|k: int|
                #![trigger s[t.len() + 2 * k]]
                0 <= k < r / 2 ==> s[t.len() + 2 * k] == '\\' && s[t.len() + 2 * k + 1] == '0'
            &&& !(t.len() >= 2 && t[t.len() - 2] == '\\' && t[t.len() - 1] == '0')
        }),
    decreases s.len(),
{
    lemma_pair_count_bound(s);
    law_trim_is_stable(s);
    let t = strip_trailing_escaped_nuls(s);
    if trailing_pair_count(s) > 0 {
        let u = s.take(s.len() - 2);
        law_trim_removes_trailing_pairs(u);
        lemma_pair_count_bound(u);
        assert(t =~= strip_trailing_escaped_nuls(u));
        let r = s.len() - t.len();
        assert forall|k: int|
            #![trigger s[t.len() + 2 * k]]
            0 <= k < r / 2 implies s[t.len() + 2 * k] == '\\' && s[t.len() + 2 * k + 1] == '0' by {
            if k < r / 2 - 1 {
                assert(s[t.len() + 2 * k] == u[t.len() + 2 * k]);
                assert(s[t.len() + 2 * k + 1] == u[t.len() + 2 * k + 1]);
            } else {
                assert(t.len() + 2 * k == s.len() - 2);
            }
        }
    }
}

/// A compiled regular expression and the pattern text it was compiled from.
pub struct CompiledPattern {
    regex: Regex,
    source: Ghost<Seq<char>>,
}

impl CompiledPattern {
    /// The pattern text this regular expression was compiled from.
    pub closed spec fn pattern(&self) -> Seq<char> {
        self.source@
    }
}

/// Whether `regex::Regex::new` accepts a pattern text (with its default
/// limits, this depends on the pattern alone).
pub uninterp spec fn regex_compiles(pattern: Seq<char>) -> bool;

/// Calls `regex::Regex::new`.
/// Trusted: compilation succeeds exactly when `regex_compiles` holds of the
/// pattern text, and a compiled expression is tagged with the pattern text it
/// came from. Of the patterns, only `(\\0)+$` is said to compile (a group of an
/// escaped backslash and a literal `0`, repeated, then the end anchor: valid
/// syntax, far below the default size limits); which other patterns compile is
/// not described.
#[verifier::external_body]
pub(crate) fn compile_pattern(pattern: &str) -> (r: Option<CompiledPattern>)
    ensures
        r is Some <==> regex_compiles(pattern@),
        pattern@ == trailing_escaped_nul_pattern() ==> r is Some,
        r matches Some(c) ==> c.pattern() == pattern@,
{
    match Regex::new(pattern) {
        Ok(regex) => Some(CompiledPattern { regex, source: Ghost(pattern@) }),
        Err(_) => None,
    }
}

/// Calls `regex::Regex::replace_all` and takes the result as an owned `String`.
/// Trusted: for the pattern `(\\0)+$` and an empty replacement, the leftmost match
/// is the longest run of backslash-`0` pairs that reaches the end of the text
/// (`$` only matches at the end, no match can be empty), so that run is removed
/// and nothing else changes. Other patterns and replacements are not described.
#[verifier::external_body]
pub(crate) fn replace_all_matches(p: &CompiledPattern, text: &str, replacement: &str) -> (out: String)
    requires
        p.pattern() == trailing_escaped_nul_pattern(),
        replacement@ == Seq::<char>::empty(),
    ensures
        out@ == strip_trailing_escaped_nuls(text@),
{
    p.regex.replace_all(text, replacement).into_owned()
}

/// The body-trimming pattern, compiled.
pub fn trailing_escaped_nuls() -> (c: CompiledPattern)
    ensures
        c.pattern() == trailing_escaped_nul_pattern(),
{
    proof {
        reveal_strlit("(\\\\0)+$");
        assert("(\\\\0)+$"@ =~= trailing_escaped_nul_pattern());
    }
    match compile_pattern("(\\\\0)+$") {
        Some(c) => c,
        None => vstd::pervasive::unreached(),
    }
}

/// `text` without the run of backslash-`0` pairs that ends it.
pub fn strip_with(p: &CompiledPattern, text: &str) -> (out: String)
    requires
        p.pattern() == trailing_escaped_nul_pattern(),
    ensures
        out@ == strip_trailing_escaped_nuls(text@),
{
    proof {
        reveal_strlit("");
        assert(""@ =~= Seq::<char>::empty());
    }
    replace_all_matches(p, text, "")
}

} // verus!
