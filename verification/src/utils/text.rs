//! Text utilities with the semantics of the `str` methods that the monitor
//! relies on (`lines`, `split_whitespace`, `trim`, `starts_with`,
//! `contains`, `split`, integer `parse`), stated over `Seq<char>`.
use vstd::prelude::*;

verus! {

pub assume_specification[ String::push ](s: &mut String, ch: char)
    ensures
        final(s)@ == old(s)@.push(ch),
;

/// The characters with the Unicode `White_Space` property, which is what
/// `char::is_whitespace` tests.
pub open spec fn is_ws(c: char) -> bool {
    let u = c as u32;
    ||| 0x9 <= u <= 0xd
    ||| u == 0x20
    ||| u == 0x85
    ||| u == 0xa0
    ||| u == 0x1680
    ||| 0x2000 <= u <= 0x200a
    ||| u == 0x2028
    ||| u == 0x2029
    ||| u == 0x202f
    ||| u == 0x205f
    ||| u == 0x3000
}

pub fn is_whitespace(c: char) -> (b: bool)
    ensures
        b == is_ws(c),
{
    let u = c as u32;
    (0x9 <= u && u <= 0xd) || u == 0x20 || u == 0x85 || u == 0xa0 || u == 0x1680 || (0x2000 <= u
        && u <= 0x200a) || u == 0x2028 || u == 0x2029 || u == 0x202f || u == 0x205f || u == 0x3000
}

pub open spec fn is_ascii_digit(c: char) -> bool {
    '0' <= c <= '9'
}

/// The views of a sequence of character vectors.
pub open spec fn char_views(v: Seq<Vec<char>>) -> Seq<Seq<char>> {
    v.map_values(|x: Vec<char>| x@)
}

/// The characters of a string slice, in order.
pub fn chars_of(s: &str) -> (r: Vec<char>)
    ensures
        r@ == s@,
{
    broadcast use vstd::string::group_string_axioms;

    let mut r: Vec<char> = Vec::new();
    for c in it: s.chars()
        invariant
            it.seq() == s@,
            r@ == it.seq().take(it.index() as int),
    {
        r.push(c);
    }
    r
}

/// A string made of the given characters.
pub fn string_of(cs: &Vec<char>) -> (r: String)
    ensures
        r@ == cs@,
{
    let mut r = String::new();
    let mut i: usize = 0;
    while i < cs.len()
        invariant
            i <= cs.len(),
            r@ == cs@.take(i as int),
        decreases cs.len() - i,
    {
        r.push(cs[i]);
        i += 1;
        assert(r@ =~= cs@.take(i as int));
    }
    assert(cs@.take(cs.len() as int) =~= cs@);
    r
}

/// The characters `s[a..b]`.
pub fn sub_vec(s: &Vec<char>, a: usize, b: usize) -> (r: Vec<char>)
    requires
        a <= b <= s.len(),
    ensures
        r@ == s@.subrange(a as int, b as int),
{
    let mut r: Vec<char> = Vec::new();
    let mut i = a;
    while i < b
        invariant
            a <= i <= b <= s.len(),
            r@ == s@.subrange(a as int, i as int),
        decreases b - i,
    {
        r.push(s[i]);
        i += 1;
        assert(r@ =~= s@.subrange(a as int, i as int));
    }
    r
}

/// A line without the `'\r'` that ends it, if any.
pub open spec fn strip_cr(l: Seq<char>) -> Seq<char> {
    if l.len() > 0 && l.last() == '\r' {
        l.drop_last()
    } else {
        l
    }
}

/// The lines of `s[i..]`, where `cur` holds the part of the current line
/// read so far: lines end at `'\n'`, and at `"\r\n"` (both removed); the
/// last line needs no terminator, and an empty last line is not a line.
pub open spec fn lines_acc(s: Seq<char>, i: int, cur: Seq<char>) -> Seq<Seq<char>>
    decreases s.len() - i,
{
    if i >= s.len() {
        if cur.len() > 0 {
            seq![cur]
        } else {
            seq![]
        }
    } else if s[i] == '\n' {
        seq![strip_cr(cur)] + lines_acc(s, i + 1, seq![])
    } else {
        lines_acc(s, i + 1, cur.push(s[i]))
    }
}

/// What `str::lines` yields for `s`.
pub open spec fn lines_of(s: Seq<char>) -> Seq<Seq<char>> {
    lines_acc(s, 0, seq![])
}

/// The lines of `s`, as `str::lines` splits them.
pub fn split_lines(s: &Vec<char>) -> (r: Vec<Vec<char>>)
    ensures
        char_views(r@) == lines_of(s@),
{
    let mut out: Vec<Vec<char>> = Vec::new();
    let mut cur: Vec<char> = Vec::new();
    let mut i: usize = 0;
    while i < s.len()
        invariant
            i <= s.len(),
            char_views(out@) + lines_acc(s@, i as int, cur@) == lines_of(s@),
        decreases s.len() - i,
    {
        let ghost before = char_views(out@);
        let ghost c0 = cur@;
        if s[i] == '\n' {
            let n = cur.len();
            if n > 0 && cur[n - 1] == '\r' {
                cur.pop();
            }
            assert(cur@ =~= strip_cr(c0));
            out.push(cur);
            cur = Vec::new();
            assert(char_views(out@) =~= before.push(strip_cr(c0)));
            assert(before + lines_acc(s@, i as int, c0) =~= char_views(out@) + lines_acc(
                s@,
                i + 1,
                cur@,
            ));
        } else {
            cur.push(s[i]);
        }
        i += 1;
    }
    let ghost before = char_views(out@);
    if cur.len() > 0 {
        let ghost c0 = cur@;
        out.push(cur);
        assert(char_views(out@) =~= before.push(c0));
    }
    assert(char_views(out@) =~= lines_of(s@));
    out
}

/// The whitespace-separated words of `s[i..]`, where `cur` holds the part
/// of the current word read so far.
pub open spec fn words_acc(s: Seq<char>, i: int, cur: Seq<char>) -> Seq<Seq<char>>
    decreases s.len() - i,
{
    if i >= s.len() {
        if cur.len() > 0 {
            seq![cur]
        } else {
            seq![]
        }
    } else if is_ws(s[i]) {
        if cur.len() > 0 {
            seq![cur] + words_acc(s, i + 1, seq![])
        } else {
            words_acc(s, i + 1, seq![])
        }
    } else {
        words_acc(s, i + 1, cur.push(s[i]))
    }
}

/// What `str::split_whitespace` yields for `s`: the maximal runs of
/// characters that are not whitespace.
pub open spec fn words_of(s: Seq<char>) -> Seq<Seq<char>> {
    words_acc(s, 0, seq![])
}

/// The words of `s`, as `str::split_whitespace` splits them.
pub fn split_whitespace(s: &Vec<char>) -> (r: Vec<Vec<char>>)
    ensures
        char_views(r@) == words_of(s@),
{
    let mut out: Vec<Vec<char>> = Vec::new();
    let mut cur: Vec<char> = Vec::new();
    let mut i: usize = 0;
    while i < s.len()
        invariant
            i <= s.len(),
            char_views(out@) + words_acc(s@, i as int, cur@) == words_of(s@),
        decreases s.len() - i,
    {
        let ghost before = char_views(out@);
        let ghost c0 = cur@;
        if is_whitespace(s[i]) {
            if cur.len() > 0 {
                out.push(cur);
                cur = Vec::new();
                assert(char_views(out@) =~= before.push(c0));
                assert(before + words_acc(s@, i as int, c0) =~= char_views(out@) + words_acc(
                    s@,
                    i + 1,
                    cur@,
                ));
            } else {
                assert(cur@ =~= seq![]);
            }
        } else {
            cur.push(s[i]);
        }
        i += 1;
    }
    let ghost before = char_views(out@);
    if cur.len() > 0 {
        let ghost c0 = cur@;
        out.push(cur);
        assert(char_views(out@) =~= before.push(c0));
    }
    assert(char_views(out@) =~= words_of(s@));
    out
}

/// The first index at or after `i` whose character is not whitespace, or
/// `s.len()`.
pub open spec fn skip_ws_from(s: Seq<char>, i: int) -> int
    decreases s.len() - i,
{
    if i < s.len() && is_ws(s[i]) {
        skip_ws_from(s, i + 1)
    } else {
        i
    }
}

/// The end of `s[..j]` once its trailing whitespace is dropped.
pub open spec fn trail_ws_from(s: Seq<char>, j: int) -> int
    decreases j,
{
    if 0 < j <= s.len() && is_ws(s[j - 1]) {
        trail_ws_from(s, j - 1)
    } else {
        j
    }
}

/// What `str::trim` yields for `s`: `s` without its leading and trailing
/// whitespace.
pub open spec fn trim_of(s: Seq<char>) -> Seq<char> {
    let a = skip_ws_from(s, 0);
    if a >= s.len() {
        seq![]
    } else {
        s.subrange(a, trail_ws_from(s, s.len() as int))
    }
}

/// `s` without its leading and trailing whitespace, as `str::trim` gives it.
pub fn trim(s: &Vec<char>) -> (r: Vec<char>)
    ensures
        r@ == trim_of(s@),
{
    let mut a: usize = 0;
    while a < s.len() && is_whitespace(s[a])
        invariant
            a <= s.len(),
            skip_ws_from(s@, 0) == skip_ws_from(s@, a as int),
        decreases s.len() - a,
    {
        a += 1;
    }
    if a >= s.len() {
        return Vec::new();
    }
    let mut b: usize = s.len();
    while b > a + 1 && is_whitespace(s[b - 1])
        invariant
            a < b <= s.len(),
            trail_ws_from(s@, s.len() as int) == trail_ws_from(s@, b as int),
        decreases b,
    {
        b -= 1;
    }
    assert(trail_ws_from(s@, b as int) == b as int);
    sub_vec(s, a, b)
}

/// Whether `s` begins with `p`.
pub open spec fn starts_with(s: Seq<char>, p: Seq<char>) -> bool {
    p.len() <= s.len() && s.subrange(0, p.len() as int) =~= p
}

/// Whether `p` occurs in `s` at index `k`.
pub open spec fn occurs_at(s: Seq<char>, p: Seq<char>, k: int) -> bool {
    0 <= k && k + p.len() <= s.len() && s.subrange(k, k + p.len()) =~= p
}

/// Whether `p` occurs in `s` (the empty pattern occurs everywhere).
pub open spec fn contains(s: Seq<char>, p: Seq<char>) -> bool {
    exists|k: int| occurs_at(s, p, k)
}

/// Whether `p` occurs in `s` at index `k`.
pub fn matches_at(s: &Vec<char>, p: &Vec<char>, k: usize) -> (b: bool)
    ensures
        b == occurs_at(s@, p@, k as int),
{
    if k > s.len() || p.len() > s.len() - k {
        return false;
    }
    let mut i: usize = 0;
    while i < p.len()
        invariant
            i <= p.len(),
            k + p.len() <= s.len(),
            forall|j: int| 0 <= j < i ==> s@[k + j] == p@[j],
        decreases p.len() - i,
    {
        if s[k + i] != p[i] {
            assert(s@.subrange(k as int, k + p.len())[i as int] != p@[i as int]);
            return false;
        }
        i += 1;
    }
    assert(s@.subrange(k as int, k + p.len()) =~= p@);
    true
}

/// Whether `s` begins with `p`, as `str::starts_with` tells.
pub fn has_prefix(s: &Vec<char>, p: &Vec<char>) -> (b: bool)
    ensures
        b == starts_with(s@, p@),
{
    matches_at(s, p, 0)
}

/// The first index at or after `k` where `p` occurs in `s`, or `-1`.
pub open spec fn find_from(s: Seq<char>, p: Seq<char>, k: int) -> int
    decreases s.len() - k,
{
    if k < 0 || k + p.len() > s.len() {
        -1
    } else if occurs_at(s, p, k) {
        k
    } else {
        find_from(s, p, k + 1)
    }
}

proof fn lemma_find_from(s: Seq<char>, p: Seq<char>, k: int)
    requires
        0 <= k,
    ensures
        find_from(s, p, k) == -1 || (k <= find_from(s, p, k) && occurs_at(s, p, find_from(s, p, k))),
        find_from(s, p, k) == -1 ==> forall|j: int| k <= j ==> !occurs_at(s, p, j),
        forall|j: int| k <= j < find_from(s, p, k) ==> !occurs_at(s, p, j),
    decreases s.len() - k,
{
    if k + p.len() <= s.len() && !occurs_at(s, p, k) {
        lemma_find_from(s, p, k + 1);
    }
}

/// The first index where `p` occurs in `s`, if any.
pub fn find(s: &Vec<char>, p: &Vec<char>) -> (r: Option<usize>)
    ensures
        match r {
            Some(k) => find_from(s@, p@, 0) == k,
            None => find_from(s@, p@, 0) == -1,
        },
{
    if p.len() > s.len() {
        return None;
    }
    let mut k: usize = 0;
    while k <= s.len() - p.len()
        invariant
            p.len() <= s.len(),
            k <= s.len() - p.len() + 1,
            find_from(s@, p@, 0) == find_from(s@, p@, k as int),
        decreases s.len() - p.len() + 1 - k,
    {
        if matches_at(s, p, k) {
            return Some(k);
        }
        k += 1;
    }
    None
}

/// Whether `p` occurs in `s`, as `str::contains` tells.
pub fn contains_seq(s: &Vec<char>, p: &Vec<char>) -> (b: bool)
    ensures
        b == contains(s@, p@),
{
    proof {
        lemma_find_from(s@, p@, 0);
    }
    match find(s, p) {
        Some(k) => true,
        None => false,
    }
}

/// What `s.split(p).nth(1)` yields: the text between the first and the
/// second occurrence of `p` (or the end of `s`); `None` if `p` does not occur.
pub open spec fn second_field(s: Seq<char>, p: Seq<char>) -> Option<Seq<char>> {
    let k = find_from(s, p, 0);
    if k < 0 {
        None
    } else {
        let rest = s.skip(k + p.len());
        let m = find_from(rest, p, 0);
        if m < 0 {
            Some(rest)
        } else {
            Some(rest.take(m))
        }
    }
}

/// The text between the first and the second occurrence of `p` in `s`, as
/// `s.split(p).nth(1)` gives it.
pub fn nth1_field(s: &Vec<char>, p: &Vec<char>) -> (r: Option<Vec<char>>)
    requires
        p.len() > 0,
    ensures
        match r {
            Some(v) => second_field(s@, p@) == Some(v@),
            None => second_field(s@, p@) is None,
        },
{
    proof {
        lemma_find_from(s@, p@, 0);
    }
    match find(s, p) {
        None => None,
        Some(k) => {
            assert(occurs_at(s@, p@, k as int));
            let slen = s.len();
            let rest = sub_vec(s, k + p.len(), slen);
            assert(rest@ =~= s@.skip(k + p.len()));
            proof {
                lemma_find_from(rest@, p@, 0);
            }
            match find(&rest, p) {
                None => Some(rest),
                Some(m) => {
                    let f = sub_vec(&rest, 0, m);
                    assert(f@ =~= rest@.take(m as int));
                    Some(f)
                },
            }
        },
    }
}

/// Whether `a` and `b` hold the same characters.
pub fn same_chars(a: &Vec<char>, b: &Vec<char>) -> (r: bool)
    ensures
        r == (a@ == b@),
{
    if a.len() != b.len() {
        return false;
    }
    let r = matches_at(a, b, 0);
    assert(a@.subrange(0, b@.len() as int) =~= a@);
    r
}

/// Why a text is not an unsigned integer, as `std::num::IntErrorKind`
/// tells it for the unsigned types.
#[derive(Debug, Clone, Copy, PartialEq, Eq, Structural)]
pub enum IntErrorKind {
    Empty,
    InvalidDigit,
    PosOverflow,
}

impl IntErrorKind {
    /// The message that `std::num::ParseIntError` displays for this kind.
    pub open spec fn message_of(self) -> Seq<char> {
        match self {
            IntErrorKind::Empty => "cannot parse integer from empty string"@,
            IntErrorKind::InvalidDigit => "invalid digit found in string"@,
            IntErrorKind::PosOverflow => "number too large to fit in target type"@,
        }
    }

    pub fn message(&self) -> (r: String)
        ensures
            r@ == self.message_of(),
    {
        match self {
            IntErrorKind::Empty => String::from_str("cannot parse integer from empty string"),
            IntErrorKind::InvalidDigit => String::from_str("invalid digit found in string"),
            IntErrorKind::PosOverflow => String::from_str("number too large to fit in target type"),
        }
    }
}

/// The value of an ASCII digit.
pub open spec fn digit_value(c: char) -> nat {
    (c as u32 - '0' as u32) as nat
}

/// The decimal digits of `d[i..]` read from the left onto `acc`: the first
/// character that is not a digit, or the first digit that takes the value
/// over `max`, decides the error.
pub open spec fn digits_scan(d: Seq<char>, i: int, acc: nat, max: nat) -> Result<nat, IntErrorKind>
    decreases d.len() - i,
{
    if i >= d.len() {
        Ok(acc)
    } else if !is_ascii_digit(d[i]) {
        Err(IntErrorKind::InvalidDigit)
    } else if acc * 10 + digit_value(d[i]) > max {
        Err(IntErrorKind::PosOverflow)
    } else {
        digits_scan(d, i + 1, acc * 10 + digit_value(d[i]), max)
    }
}

/// What `str::parse` yields for an unsigned integer type whose largest
/// value is `max`: an optional `'+'`, then decimal digits.
pub open spec fn parse_uint_of(s: Seq<char>, max: nat) -> Result<nat, IntErrorKind> {
    if s.len() == 0 {
        Err(IntErrorKind::Empty)
    } else if s.len() == 1 && (s[0] == '+' || s[0] == '-') {
        Err(IntErrorKind::InvalidDigit)
    } else if s[0] == '+' {
        digits_scan(s, 1, 0, max)
    } else {
        digits_scan(s, 0, 0, max)
    }
}

proof fn lemma_digits_scan_bound(d: Seq<char>, i: int, acc: nat, max: nat)
    requires
        acc <= max,
    ensures
        digits_scan(d, i, acc, max) matches Ok(v) ==> v <= max,
    decreases d.len() - i,
{
    if i < d.len() && is_ascii_digit(d[i]) && acc * 10 + digit_value(d[i]) <= max {
        lemma_digits_scan_bound(d, i + 1, acc * 10 + digit_value(d[i]), max);
    }
}

/// A text that `str::parse` accepts for an unsigned type whose largest value
/// is `max` reads as a value no larger than `max`.
pub proof fn lemma_parse_uint_bound(s: Seq<char>, max: nat)
    ensures
        parse_uint_of(s, max) matches Ok(v) ==> v <= max,
{
    if s.len() > 0 {
        lemma_digits_scan_bound(s, 0, 0, max);
        lemma_digits_scan_bound(s, 1, 0, max);
    }
}

/// `s` read as an unsigned integer no larger than `max`, as `str::parse`
/// reads it for the unsigned type whose largest value is `max`.
pub fn parse_uint(s: &Vec<char>, max: u64) -> (r: Result<u64, IntErrorKind>)
    ensures
        match r {
            Ok(v) => parse_uint_of(s@, max as nat) == Ok::<nat, IntErrorKind>(v as nat),
            Err(e) => parse_uint_of(s@, max as nat) == Err::<nat, IntErrorKind>(e),
        },
{
    let n = s.len();
    if n == 0 {
        return Err(IntErrorKind::Empty);
    }
    if n == 1 && (s[0] == '+' || s[0] == '-') {
        return Err(IntErrorKind::InvalidDigit);
    }
    let mut i: usize = if s[0] == '+' { 1 } else { 0 };
    let mut acc: u64 = 0;
    while i < n
        invariant
            n == s@.len(),
            i <= n,
            acc <= max,
            parse_uint_of(s@, max as nat) == digits_scan(s@, i as int, acc as nat, max as nat),
        decreases n - i,
    {
        let c = s[i];
        if !('0' <= c && c <= '9') {
            return Err(IntErrorKind::InvalidDigit);
        }
        let d = (c as u32 - '0' as u32) as u64;
        let next: u128 = acc as u128 * 10 + d as u128;
        if next > max as u128 {
            return Err(IntErrorKind::PosOverflow);
        }
        acc = next as u64;
        i += 1;
    }
    Ok(acc)
}

/// `s` read as a `u64`, as `str::parse::<u64>` reads it.
pub fn parse_u64(s: &Vec<char>) -> (r: Result<u64, IntErrorKind>)
    ensures
        match r {
            Ok(v) => parse_uint_of(s@, u64::MAX as nat) == Ok::<nat, IntErrorKind>(v as nat),
            Err(e) => parse_uint_of(s@, u64::MAX as nat) == Err::<nat, IntErrorKind>(e),
        },
{
    parse_uint(s, u64::MAX)
}

/// `s` read as a `u32`, as `str::parse::<u32>` reads it.
pub fn parse_u32(s: &Vec<char>) -> (r: Result<u32, IntErrorKind>)
    ensures
        match r {
            Ok(v) => parse_uint_of(s@, u32::MAX as nat) == Ok::<nat, IntErrorKind>(v as nat),
            Err(e) => parse_uint_of(s@, u32::MAX as nat) == Err::<nat, IntErrorKind>(e),
        },
{
    match parse_uint(s, u32::MAX as u64) {
        Ok(v) => {
            proof {
                if s@.len() > 0 && !(s@.len() == 1 && (s@[0] == '+' || s@[0] == '-')) {
                    if s@[0] == '+' {
                        lemma_digits_scan_bound(s@, 1, 0, u32::MAX as nat);
                    } else {
                        lemma_digits_scan_bound(s@, 0, 0, u32::MAX as nat);
                    }
                }
            }
            Ok(v as u32)
        },
        Err(e) => Err(e),
    }
}

/// The character of a decimal digit.
pub open spec fn digit_char(d: nat) -> char {
    (d + '0' as u32) as char
}

/// The decimal representation of `n`, as `format!("{}", n)` writes it.
pub open spec fn decimal(n: nat) -> Seq<char>
    decreases n,
{
    if n < 10 {
        seq![digit_char(n)]
    } else {
        decimal(n / 10).push(digit_char(n % 10))
    }
}

/// `s` followed by the decimal representation of `n`.
pub fn push_decimal(s: &mut String, n: u64)
    ensures
        final(s)@ == old(s)@ + decimal(n as nat),
    decreases n,
{
    if n >= 10 {
        push_decimal(s, n / 10);
    }
    let d = (n % 10) as u32;
    proof {
        if n >= 10 {
            assert(old(s)@ + decimal(n as nat) =~= (old(s)@ + decimal((n / 10) as nat)).push(
                digit_char((n % 10) as nat),
            ));
        }
    }
    s.push(((d as u8) + 48u8) as char);
}

} // verus!
