//! Framing of socket messages: a message is its length written in decimal, a
//! space, then that many bytes of payload.
use vstd::prelude::*;
use crate::text::{chars_of, decode_lossy, int_text, nat_text, utf8_lossy};

verus! {

/// The value of a decimal digit character, if it is one.
pub open spec fn digit_value(c: char) -> Option<nat> {
    if '0' <= c && c <= '9' {
        Some((c as nat - '0' as nat) as nat)
    } else {
        None
    }
}

/// The number written by a non-empty run of decimal digits.
pub open spec fn digits_value(s: Seq<char>) -> Option<nat>
    decreases s.len(),
{
    if s.len() == 0 {
        None
    } else if digit_value(s.last()) is None {
        None
    } else if s.len() == 1 {
        digit_value(s.last())
    } else {
        match digits_value(s.drop_last()) {
            Some(v) => Some(v * 10 + digit_value(s.last()).unwrap()),
            None => None,
        }
    }
}

/// What `str::parse::<usize>` gives: an optional leading `+`, then decimal
/// digits only, with a value that fits in `usize`.
pub open spec fn parse_usize(s: Seq<char>) -> Option<usize> {
    let digits = if s.len() > 0 && s[0] == '+' {
        s.drop_first()
    } else {
        s
    };
    match digits_value(digits) {
        Some(v) => if v <= usize::MAX {
            Some(v as usize)
        } else {
            None
        },
        None => None,
    }
}

/// `s` with every space removed.
pub open spec fn without_spaces(s: Seq<char>) -> Seq<char> {
    s.filter(|c: char| c != ' ')
}

/// The payload length announced by a length prefix (the bytes up to and
/// including the first space): the prefix decoded as UTF-8, spaces removed,
/// read as a `usize`.
pub open spec fn announced_length(prefix: Seq<u8>) -> Option<usize> {
    parse_usize(without_spaces(utf8_lossy(prefix)))
}

fn digit_of(c: char) -> (r: Option<u8>)
    ensures
        r matches Some(d) ==> digit_value(c) == Some(d as nat),
        r is None ==> digit_value(c) is None,
{
    if '0' <= c && c <= '9' {
        Some(((c as u32) - ('0' as u32)) as u8)
    } else {
        None
    }
}

/// The characters of `s` other than spaces, in order.
pub fn remove_spaces(s: &Vec<char>) -> (r: Vec<char>)
    ensures
        r@ == without_spaces(s@),
{
    let mut r: Vec<char> = Vec::new();
    let mut i: usize = 0;
    while i < s.len()
        invariant
            i <= s.len(),
            r@ == without_spaces(s@.take(i as int)),
        decreases s.len() - i,
    {
        let ghost before = s@.take(i as int);
        assert(s@.take(i + 1) =~= before.push(s@[i as int]));
        proof {
            before.lemma_filter_push(s@[i as int], |c: char| c != ' ');
        }
        if s[i] != ' ' {
            r.push(s[i]);
        }
        i = i + 1;
    }
    assert(s@.take(s.len() as int) =~= s@);
    r
}

/// Reads text as a `usize` the way `str::parse::<usize>` does.
pub fn parse_usize_exec(s: &Vec<char>) -> (r: Option<usize>)
    ensures
        r == parse_usize(s@),
{
    let start: usize = if s.len() > 0 && s[0] == '+' {
        1
    } else {
        0
    };
    let ghost digits = if s@.len() > 0 && s@[0] == '+' {
        s@.drop_first()
    } else {
        s@
    };
    assert(digits =~= s@.subrange(start as int, s@.len() as int));
    if start >= s.len() {
        assert(digits.len() == 0);
        return None;
    }
    let mut acc: usize = 0;
    let mut i: usize = start;
    while i < s.len()
        invariant
            start < s.len(),
            start <= i <= s.len(),
            digits == s@.subrange(start as int, s@.len() as int),
            digits == (if s@.len() > 0 && s@[0] == '+' {
                s@.drop_first()
            } else {
                s@
            }),
            i > start ==> digits_value(s@.subrange(start as int, i as int)) == Some(acc as nat),
        decreases s.len() - i,
    {
        let ghost prefix = s@.subrange(start as int, i as int);
        let ghost next = s@.subrange(start as int, i + 1);
        assert(next.drop_last() =~= prefix);
        assert(next.last() == s@[i as int]);
        assert(next =~= s@.subrange(start as int, s@.len() as int).subrange(0, next.len() as int));
        match digit_of(s[i]) {
            None => {
                proof {
                    lemma_digits_invalid_extends(s@.subrange(start as int, s@.len() as int), next);
                }
                return None;
            },
            Some(d) => {
                if i == start {
                    acc = d as usize;
                } else {
                    if acc > (usize::MAX - d as usize) / 10 {
                        proof {
                            assert(acc * 10 + d > usize::MAX) by (nonlinear_arith)
                                requires
                                    acc > (usize::MAX - d as usize) / 10,
                                    d <= 9,
                            ;
                            lemma_digits_grow(s@.subrange(start as int, s@.len() as int), next);
                        }
                        return None;
                    }
                    assert(acc * 10 + d <= usize::MAX) by (nonlinear_arith)
                        requires
                            acc <= (usize::MAX - d as usize) / 10,
                            d <= 9,
                    ;
                    acc = acc * 10 + d as usize;
                }
            },
        }
        i = i + 1;
    }
    assert(s@.subrange(start as int, s.len() as int) =~= digits);
    Some(acc)
}

/// If some prefix of `s` has a non-digit at its end, `s` has no value.
proof fn lemma_digits_invalid_extends(s: Seq<char>, p: Seq<char>)
    requires
        p.len() > 0,
        p.len() <= s.len(),
        p == s.subrange(0, p.len() as int),
        digit_value(p.last()) is None,
    ensures
        digits_value(s) is None,
    decreases s.len(),
{
    if s.len() == p.len() {
        assert(s =~= p);
    } else {
        assert(s.drop_last().subrange(0, p.len() as int) =~= p);
        lemma_digits_invalid_extends(s.drop_last(), p);
    }
}

/// The value of a run of digits grows with every digit, so once a prefix is
/// larger than `usize::MAX` so is every longer run.
proof fn lemma_digits_grow(s: Seq<char>, p: Seq<char>)
    requires
        p.len() > 0,
        p.len() <= s.len(),
        p == s.subrange(0, p.len() as int),
        digits_value(p.drop_last()) is Some,
        digit_value(p.last()) is Some,
        digits_value(p.drop_last()).unwrap() * 10 + digit_value(p.last()).unwrap() > usize::MAX,
    ensures
        digits_value(s) matches Some(v) ==> v > usize::MAX,
    decreases s.len(),
{
    if s.len() == p.len() {
        assert(s =~= p);
    } else {
        assert(s.drop_last().subrange(0, p.len() as int) =~= p);
        lemma_digits_grow(s.drop_last(), p);
        if let Some(v) = digits_value(s) {
            let w = digits_value(s.drop_last()).unwrap();
            assert(v == w * 10 + digit_value(s.last()).unwrap());
        }
    }
}

/// The payload length announced by a length prefix, or `None` when it is not a
/// valid `usize` (where a server stops reading from the client).
pub fn message_length(prefix: &[u8]) -> (r: Option<usize>)
    ensures
        r == announced_length(prefix@),
{
    let text = decode_lossy(prefix);
    length_in_text(text.as_str())
}

/// The length announced by the decoded text of a length prefix: spaces removed,
/// the rest read as a `usize`.
pub fn length_in_text(text: &str) -> (r: Option<usize>)
    ensures
        r == parse_usize(without_spaces(text@)),
{
    let chars = chars_of(text);
    let kept = remove_spaces(&chars);
    parse_usize_exec(&kept)
}

/// Law: the decimal text of an integer reads back as that integer: for a
/// number that is not negative it is a run of digits whose value is the number;
/// for a negative one it is `-` and then the digits of its magnitude.
pub proof fn law_int_text_reads_back(n: int)
    ensures
        n >= 0 ==> digits_value(int_text(n)) == Some(n as nat),
        n < 0 ==> int_text(n).len() > 1 && int_text(n)[0] == '-' && digits_value(
            int_text(n).drop_first(),
        ) == Some((-n) as nat),
{
    if n >= 0 {
        lemma_nat_text_digits(n as nat);
    } else {
        lemma_nat_text_digits((-n) as nat);
        lemma_nat_text_nonempty((-n) as nat);
        assert(int_text(n).drop_first() =~= nat_text((-n) as nat));
    }
}

/// Writing a length in decimal and ending it with a space gives back that
/// length when read as a length prefix.
pub proof fn law_length_text_roundtrip(n: usize)
    ensures
        parse_usize(without_spaces(nat_text(n as nat).push(' '))) == Some(n),
{
    lemma_nat_text_digits(n as nat);
    lemma_nat_text_no_space(n as nat);
    let t = nat_text(n as nat);
    let p = |c: char| c != ' ';
    t.lemma_filter_push(' ', p);
    assert(t.filter(p) =~= t) by {
        lemma_filter_all(t, p);
    }
    assert(t.len() > 0 && t[0] != '+') by {
        lemma_nat_text_first(n as nat);
    }
}

proof fn lemma_filter_all(s: Seq<char>, p: spec_fn(char) -> bool)
    requires
        forall|i: int| 0 <= i < s.len() ==> p(s[i]),
    ensures
        s.filter(p) == s,
    decreases s.len(),
{
    if s.len() > 0 {
        lemma_filter_all(s.drop_last(), p);
        s.drop_last().lemma_filter_push(s.last(), p);
        assert(s.drop_last().push(s.last()) =~= s);
    } else {
        assert(s.filter(p) =~= s);
    }
}

/// The decimal text of a number reads back as that number.
pub proof fn lemma_nat_text_digits(n: nat)
    ensures
        digits_value(nat_text(n)) == Some(n),
    decreases n,
{
    if n >= 10 {
        lemma_nat_text_digits(n / 10);
        let t = nat_text(n);
        assert(t.drop_last() =~= nat_text(n / 10));
        lemma_nat_text_nonempty(n / 10);
    }
}

/// The decimal text of a number is never empty.
pub proof fn lemma_nat_text_nonempty(n: nat)
    ensures
        nat_text(n).len() > 0,
    decreases n,
{
    if n >= 10 {
        lemma_nat_text_nonempty(n / 10);
    }
}

/// The decimal text of a number holds digits only.
pub proof fn lemma_nat_text_no_space(n: nat)
    ensures
        forall|i: int|
            0 <= i < nat_text(n).len() ==> digit_value(#[trigger] nat_text(n)[i]) is Some,
    decreases n,
{
    if n >= 10 {
        lemma_nat_text_no_space(n / 10);
        assert forall|i: int| 0 <= i < nat_text(n).len() implies digit_value(
            #[trigger] nat_text(n)[i],
        ) is Some by {
            if i < nat_text(n / 10).len() {
                assert(nat_text(n)[i] == nat_text(n / 10)[i]);
            }
        }
    }
}

proof fn lemma_nat_text_first(n: nat)
    ensures
        nat_text(n).len() > 0,
        digit_value(nat_text(n)[0]) is Some,
{
    lemma_nat_text_nonempty(n);
    lemma_nat_text_no_space(n);
}

} // verus!
