//! Character-sequence tools shared by the HTTP and socket layers:
//! conversions between `str`, `String` and `Vec<char>`, substring search,
//! splitting at a delimiter, and decimal rendering of numbers.
use vstd::prelude::*;

verus! {

/// What `String::from_utf8_lossy` makes of a byte sequence: every valid UTF-8
/// sequence decoded, every invalid one replaced by U+FFFD.
pub uninterp spec fn utf8_lossy(bytes: Seq<u8>) -> Seq<char>;

/// Calls `String::from_utf8_lossy` and takes the decoded text as an owned `String`.
/// Trusted: the text is `utf8_lossy(bytes)`; on valid UTF-8 (std documents that the
/// input then comes back unchanged) it is the ordinary decoding.
#[verifier::external_body]
pub(crate) fn decode_lossy(bytes: &[u8]) -> (text: String)
    ensures
        text@ == utf8_lossy(bytes@),
        vstd::utf8::valid_utf8(bytes@) ==> text@ == vstd::utf8::decode_utf8(bytes@),
{
    String::from_utf8_lossy(bytes).into_owned()
}

/// Collects characters into a `String` with `String::from_iter`.
/// Trusted: the string holds exactly the given characters, in order.
#[verifier::external_body]
pub(crate) fn string_from_chars(chars: &[char]) -> (s: String)
    ensures
        s@ == chars@,
{
    String::from_iter(chars.iter())
}

/// The characters of `s`, in order.
pub fn chars_of(s: &str) -> (v: Vec<char>)
    ensures
        v@ == s@,
{
    let mut v: Vec<char> = Vec::new();
    for c in it: s.chars()
        invariant
            v@ == it.seq().take(it.index() as int),
    {
        v.push(c);
    }
    v
}

/// `pat` occurs in `s` starting at position `i`.
pub open spec fn occurs_at(s: Seq<char>, pat: Seq<char>, i: int) -> bool {
    &&& 0 <= i
    &&& i + pat.len() <= s.len()
    &&& s.subrange(i, i + pat.len()) == pat
}

/// The first position at or after `start` where `pat` occurs in `s`.
pub open spec fn find_from(s: Seq<char>, pat: Seq<char>, start: int) -> Option<int>
    decreases s.len() + 1 - start,
{
    if start < 0 || start + pat.len() > s.len() {
        None
    } else if occurs_at(s, pat, start) {
        Some(start)
    } else {
        find_from(s, pat, start + 1)
    }
}

/// A found position is an occurrence at or after `start`, and no earlier one exists.
pub proof fn lemma_find_from(s: Seq<char>, pat: Seq<char>, start: int)
    requires
        0 <= start,
    ensures
        find_from(s, pat, start) matches Some(i) ==> {
            &&& start <= i
            &&& occurs_at(s, pat, i)
            &&& forall|j: int| start <= j < i ==> !occurs_at(s, pat, j)
        },
        find_from(s, pat, start) is None ==> forall|j: int| start <= j ==> !occurs_at(s, pat, j),
    decreases s.len() + 1 - start,
{
    if start + pat.len() > s.len() {
    } else if occurs_at(s, pat, start) {
    } else {
        lemma_find_from(s, pat, start + 1);
    }
}

/// The pieces of `s[start..]` between the non-overlapping occurrences of `pat`,
/// searched left to right (what `str::split` gives for a non-empty pattern).
pub open spec fn split_from(s: Seq<char>, pat: Seq<char>, start: int) -> Seq<Seq<char>>
    recommends
        pat.len() > 0,
        0 <= start <= s.len(),
    decreases s.len() - start,
    when pat.len() > 0 && 0 <= start <= s.len()
{
    match find_from(s, pat, start) {
        None => seq![s.subrange(start, s.len() as int)],
        Some(i) => {
            proof {
                lemma_find_from(s, pat, start);
            }
            seq![s.subrange(start, i)] + split_from(s, pat, i + pat.len())
        },
    }
}

/// `str::split(s, pat)` for a non-empty pattern `pat`.
pub open spec fn split(s: Seq<char>, pat: Seq<char>) -> Seq<Seq<char>> {
    split_from(s, pat, 0)
}

/// Every split has at least one piece.
pub proof fn lemma_split_nonempty(s: Seq<char>, pat: Seq<char>, start: int)
    requires
        pat.len() > 0,
        0 <= start <= s.len(),
    ensures
        split_from(s, pat, start).len() >= 1,
        split_from(s, pat, start)[0] == match find_from(s, pat, start) {
            None => s.subrange(start, s.len() as int),
            Some(i) => s.subrange(start, i),
        },
{
    lemma_find_from(s, pat, start);
}

/// The first piece of a split is the text up to the first occurrence of the
/// pattern, or all of it when there is none.
pub proof fn lemma_split_first(s: Seq<char>, pat: Seq<char>)
    requires
        pat.len() > 0,
    ensures
        ({
            let p = split(s, pat);
            let n = p[0].len() as int;
            &&& p.len() >= 1
            &&& n <= s.len()
            &&& p[0] == s.subrange(0, n)
            &&& forall|j: int| 0 <= j < n ==> !occurs_at(s, pat, j)
            &&& p.len() >= 2 ==> occurs_at(s, pat, n)
            &&& p.len() == 1 ==> n == s.len()
        }),
{
    lemma_find_from(s, pat, 0);
    lemma_split_nonempty(s, pat, 0);
    match find_from(s, pat, 0) {
        Some(i) => {
            lemma_split_nonempty(s, pat, i + pat.len());
            assert(split(s, pat).len() >= 2);
        },
        None => {
            assert(split(s, pat).len() == 1);
        },
    }
}

/// `pat` occurs somewhere in `s`.
pub open spec fn contains_text(s: Seq<char>, pat: Seq<char>) -> bool {
    exists|k: int| occurs_at(s, pat, k)
}

/// A split has more than one piece exactly when the pattern occurs.
pub proof fn lemma_split_has_pattern(s: Seq<char>, pat: Seq<char>)
    requires
        pat.len() > 0,
    ensures
        split(s, pat).len() >= 2 <==> contains_text(s, pat),
{
    lemma_split_first(s, pat);
    let n = split(s, pat)[0].len() as int;
    if split(s, pat).len() >= 2 {
        assert(occurs_at(s, pat, n));
    } else {
        assert forall|k: int| !occurs_at(s, pat, k) by {
            if 0 <= k < n {
            }
        }
    }
}

/// The second piece of a split is the text after the first occurrence of the
/// pattern, up to the next occurrence or the end.
pub proof fn lemma_split_second(s: Seq<char>, pat: Seq<char>)
    requires
        pat.len() > 0,
        split(s, pat).len() >= 2,
    ensures
        ({
            let p = split(s, pat);
            let a = (p[0].len() + pat.len()) as int;
            let e = (a + p[1].len()) as int;
            &&& e <= s.len()
            &&& p[1] == s.subrange(a, e)
            &&& forall|j: int| a <= j < e ==> !occurs_at(s, pat, j)
            &&& e == s.len() || occurs_at(s, pat, e)
        }),
{
    lemma_find_from(s, pat, 0);
    let i = find_from(s, pat, 0)->Some_0;
    let a = i + pat.len();
    lemma_find_from(s, pat, a);
    lemma_split_nonempty(s, pat, a);
    let rest = split_from(s, pat, a);
    assert(split(s, pat) == seq![s.subrange(0, i)] + rest);
    assert(split(s, pat)[1] == rest[0]);
}

/// Whether `pat` occurs in `s` at `i` (exec).
pub fn occurs_at_exec(s: &[char], pat: &[char], i: usize) -> (b: bool)
    ensures
        b == occurs_at(s@, pat@, i as int),
{
    if i > s.len() || pat.len() > s.len() - i {
        return false;
    }
    let mut k: usize = 0;
    while k < pat.len()
        invariant
            i + pat.len() <= s.len(),
            k <= pat.len(),
            forall|j: int| 0 <= j < k ==> s@[i + j] == pat@[j],
        decreases pat.len() - k,
    {
        if s[i + k] != pat[k] {
            assert(s@.subrange(i as int, i + pat.len())[k as int] != pat@[k as int]);
            return false;
        }
        k = k + 1;
    }
    assert(s@.subrange(i as int, i + pat.len()) =~= pat@);
    true
}

/// The first occurrence of `pat` in `s` at or after `start` (exec).
pub fn find_from_exec(s: &[char], pat: &[char], start: usize) -> (r: Option<usize>)
    requires
        start <= s.len(),
    ensures
        r matches Some(i) ==> find_from(s@, pat@, start as int) == Some(i as int),
        r is None ==> find_from(s@, pat@, start as int) is None,
{
    let mut i = start;
    while i <= s.len()
        invariant
            start <= i,
            i <= s.len() + 1,
            find_from(s@, pat@, start as int) == find_from(s@, pat@, i as int),
        decreases s.len() + 1 - i,
    {
        if pat.len() > s.len() - i {
            return None;
        }
        if occurs_at_exec(s, pat, i) {
            return Some(i);
        }
        if i == s.len() {
            assert(find_from(s@, pat@, i + 1) is None);
            return None;
        }
        i = i + 1;
    }
    None
}

/// The characters of `s` from `from` up to `to`.
pub fn slice_chars(s: &[char], from: usize, to: usize) -> (v: Vec<char>)
    requires
        from <= to <= s.len(),
    ensures
        v@ == s@.subrange(from as int, to as int),
{
    let mut v: Vec<char> = Vec::new();
    let mut k = from;
    while k < to
        invariant
            from <= k <= to,
            to <= s.len(),
            v@ == s@.subrange(from as int, k as int),
        decreases to - k,
    {
        v.push(s[k]);
        k = k + 1;
    }
    v
}

/// The views of a vector of character vectors.
pub open spec fn views(v: Seq<Vec<char>>) -> Seq<Seq<char>> {
    v.map_values(|p: Vec<char>| p@)
}

/// All pieces of `s` split at `pat` (exec `str::split`).
pub fn split_exec(s: &[char], pat: &[char]) -> (pieces: Vec<Vec<char>>)
    requires
        pat.len() > 0,
    ensures
        views(pieces@) == split(s@, pat@),
{
    let mut pieces: Vec<Vec<char>> = Vec::new();
    let mut pos: usize = 0;
    loop
        invariant
            pat.len() > 0,
            pos <= s.len(),
            views(pieces@) + split_from(s@, pat@, pos as int) == split(s@, pat@),
        decreases s.len() - pos,
    {
        let found = find_from_exec(s, pat, pos);
        proof {
            lemma_find_from(s@, pat@, pos as int);
        }
        match found {
            None => {
                let last = slice_chars(s, pos, s.len());
                let ghost before = views(pieces@);
                pieces.push(last);
                assert(views(pieces@) =~= before.push(last@));
                assert(split_from(s@, pat@, pos as int) =~= seq![last@]);
                assert(views(pieces@) =~= before + split_from(s@, pat@, pos as int));
                return pieces;
            },
            Some(i) => {
                let piece = slice_chars(s, pos, i);
                let ghost before = views(pieces@);
                pieces.push(piece);
                assert(views(pieces@) =~= before.push(piece@));
                assert(split_from(s@, pat@, pos as int) =~= seq![piece@] + split_from(
                    s@,
                    pat@,
                    i + pat.len(),
                ));
                assert(views(pieces@) + split_from(s@, pat@, i + pat.len()) =~= before
                    + split_from(s@, pat@, pos as int));
                pos = i + pat.len();
            },
        }
    }
}

/// The decimal digit for `d < 10`.
pub open spec fn digit_char(d: nat) -> char {
    if d == 0 {
        '0'
    } else if d == 1 {
        '1'
    } else if d == 2 {
        '2'
    } else if d == 3 {
        '3'
    } else if d == 4 {
        '4'
    } else if d == 5 {
        '5'
    } else if d == 6 {
        '6'
    } else if d == 7 {
        '7'
    } else if d == 8 {
        '8'
    } else {
        '9'
    }
}

/// The decimal rendering of a natural number, without leading zeros.
pub open spec fn nat_text(n: nat) -> Seq<char>
    decreases n,
{
    if n < 10 {
        seq![digit_char(n)]
    } else {
        nat_text(n / 10).push(digit_char(n % 10))
    }
}

/// The decimal rendering of an integer, with `-` in front of a negative one
/// (what `Display` writes for Rust integers).
pub open spec fn int_text(n: int) -> Seq<char> {
    if n < 0 {
        seq!['-'] + nat_text((-n) as nat)
    } else {
        nat_text(n as nat)
    }
}

fn digit_exec(d: u64) -> (c: char)
    requires
        d < 10,
    ensures
        c == digit_char(d as nat),
{
    if d == 0 {
        '0'
    } else if d == 1 {
        '1'
    } else if d == 2 {
        '2'
    } else if d == 3 {
        '3'
    } else if d == 4 {
        '4'
    } else if d == 5 {
        '5'
    } else if d == 6 {
        '6'
    } else if d == 7 {
        '7'
    } else if d == 8 {
        '8'
    } else {
        '9'
    }
}

/// Appends the decimal rendering of `n` to `out`.
pub fn push_nat_text(out: &mut Vec<char>, n: u64)
    ensures
        final(out)@ == old(out)@ + nat_text(n as nat),
    decreases n,
{
    if n < 10 {
        out.push(digit_exec(n));
        assert(nat_text(n as nat) =~= seq![digit_char(n as nat)]);
    } else {
        push_nat_text(out, n / 10);
        out.push(digit_exec(n % 10));
    }
}

/// Appends the decimal rendering of `n` to `out`, with a leading `-` if negative.
pub fn push_int_text(out: &mut Vec<char>, n: i64)
    ensures
        final(out)@ == old(out)@ + int_text(n as int),
{
    if n < 0 {
        out.push('-');
        let m: u64 = if n == i64::MIN {
            9223372036854775808u64
        } else {
            (-n) as u64
        };
        push_nat_text(out, m);
        assert(final(out)@ =~= old(out)@ + int_text(n as int));
    } else {
        push_nat_text(out, n as u64);
    }
}

/// Appends all of `more` to `out`.
pub fn push_all(out: &mut Vec<char>, more: &[char])
    ensures
        final(out)@ == old(out)@ + more@,
{
    let mut k: usize = 0;
    while k < more.len()
        invariant
            k <= more.len(),
            out@ == old(out)@ + more@.take(k as int),
        decreases more.len() - k,
    {
        out.push(more[k]);
        k = k + 1;
        assert(out@ =~= old(out)@ + more@.take(k as int));
    }
    assert(more@.take(more.len() as int) =~= more@);
}

/// Whether two character vectors are equal.
pub fn same_chars(a: &Vec<char>, b: &Vec<char>) -> (eq: bool)
    ensures
        eq == (a@ == b@),
{
    if a.len() != b.len() {
        return false;
    }
    let mut k: usize = 0;
    while k < a.len()
        invariant
            a.len() == b.len(),
            k <= a.len(),
            forall|j: int| 0 <= j < k ==> a@[j] == b@[j],
        decreases a.len() - k,
    {
        if a[k] != b[k] {
            return false;
        }
        k = k + 1;
    }
    assert(a@ =~= b@);
    true
}

/// Whether two strings hold the same characters.
pub fn same_text(a: &str, b: &str) -> (eq: bool)
    ensures
        eq == (a@ == b@),
{
    let x = chars_of(a);
    let y = chars_of(b);
    same_chars(&x, &y)
}

} // verus!
