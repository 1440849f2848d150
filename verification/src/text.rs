//! Character-level string helpers shared by the rest of the library.
//!
//! Every string is reasoned about through its view, the sequence of its
//! characters.
use vstd::prelude::*;

verus! {

/// The views of a sequence of strings.
pub open spec fn views(v: Seq<String>) -> Seq<Seq<char>> {
    v.map_values(|s: String| s@)
}

/// The characters of `s`, in order.
pub fn chars_of(s: &str) -> (r: Vec<char>)
    ensures
        r@ == s@,
{
    let mut r: Vec<char> = Vec::new();
    for c in it: s.chars()
        invariant
            r@ == it.seq().take(it.index() as int),
            it.seq() == s@,
    {
        r.push(c);
    }
    r
}

/// Appends one character to `s` (`String::push`).
#[verifier::external_body]
pub(crate) fn push_char(s: &mut String, c: char)
    ensures
        final(s)@ == old(s)@.push(c),
{
    s.push(c);
}

/// Appends the characters of `chars` to `s`.
pub fn push_chars(s: &mut String, chars: &[char])
    ensures
        final(s)@ == old(s)@ + chars@,
{
    let n = chars.len();
    for i in 0..n
        invariant
            n == chars@.len(),
            s@ == old(s)@ + chars@.take(i as int),
    {
        push_char(s, chars[i]);
        assert(chars@.take(i + 1) == chars@.take(i as int).push(chars@[i as int]));
    }
    assert(chars@.take(n as int) == chars@);
}

/// A string holding exactly the characters of `chars`.
pub fn string_of(chars: &[char]) -> (r: String)
    ensures
        r@ == chars@,
{
    let mut r = String::new();
    push_chars(&mut r, chars);
    r
}

/// Whether two strings have the same characters.
pub fn same_text(a: &str, b: &str) -> (r: bool)
    ensures
        r == (a@ == b@),
{
    let x = chars_of(a);
    let y = chars_of(b);
    if x.len() != y.len() {
        return false;
    }
    let n = x.len();
    for i in 0..n
        invariant
            n == x@.len(),
            n == y@.len(),
            x@ == a@,
            y@ == b@,
            forall|j: int| 0 <= j < i ==> x@[j] == y@[j],
    {
        if x[i] != y[i] {
            return false;
        }
    }
    assert(x@ =~= y@);
    true
}

/// Whether `c` occurs in `s`.
pub fn has_char(s: &str, c: char) -> (r: bool)
    ensures
        r == s@.contains(c),
{
    let x = chars_of(s);
    let n = x.len();
    for i in 0..n
        invariant
            n == x@.len(),
            x@ == s@,
            forall|j: int| 0 <= j < i ==> x@[j] != c,
    {
        if x[i] == c {
            assert(s@[i as int] == c);
            return true;
        }
    }
    false
}

// ---------------------------------------------------------------------------
// Decimal numbers

/// The digit character for `d` (taken modulo ten).
pub open spec fn digit_char(d: nat) -> char {
    let d = d % 10;
    if d == 0 { '0' }
    else if d == 1 { '1' }
    else if d == 2 { '2' }
    else if d == 3 { '3' }
    else if d == 4 { '4' }
    else if d == 5 { '5' }
    else if d == 6 { '6' }
    else if d == 7 { '7' }
    else if d == 8 { '8' }
    else { '9' }
}

/// The decimal notation of `n`, without leading zeros.
pub open spec fn decimal(n: nat) -> Seq<char>
    decreases n,
{
    if n < 10 {
        seq![digit_char(n)]
    } else {
        decimal(n / 10).push(digit_char(n % 10))
    }
}

/// The number a digit character stands for.
pub open spec fn digit_value(c: char) -> int {
    (c as u32) - ('0' as u32)
}

/// The number that a string of decimal digits denotes.
pub open spec fn decimal_value(s: Seq<char>) -> int
    decreases s.len(),
{
    if s.len() == 0 {
        0
    } else {
        decimal_value(s.drop_last()) * 10 + digit_value(s.last())
    }
}

/// `decimal(n)` writes `n`: it is made of digits, read in base ten it gives
/// back `n`, and it has no leading zero unless `n` is zero.
pub proof fn lemma_decimal_denotes(n: nat)
    ensures
        decimal(n).len() > 0,
        forall|i: int| 0 <= i < decimal(n).len() ==> '0' <= #[trigger] decimal(n)[i] <= '9',
        decimal_value(decimal(n)) == n,
        decimal(n)[0] == '0' ==> n == 0,
    decreases n,
{
    if n < 10 {
        assert(decimal(n).drop_last() =~= Seq::<char>::empty());
        assert(n % 10 == n);
        assert(digit_value(digit_char(n)) == n);
        assert(decimal_value(decimal(n)) == decimal_value(Seq::<char>::empty()) * 10 + digit_value(
            digit_char(n),
        ));
    } else {
        let q = n / 10;
        let d = n % 10;
        lemma_decimal_denotes(q);
        let s = decimal(n);
        assert(s == decimal(q).push(digit_char(d)));
        assert(s.drop_last() == decimal(q));
        assert(digit_value(digit_char(d)) == d);
        assert(n == q * 10 + d);
        assert(decimal_value(s) == decimal_value(decimal(q)) * 10 + digit_value(digit_char(d)));
        assert forall|i: int| 0 <= i < s.len() implies '0' <= #[trigger] s[i] <= '9' by {
            if i < s.len() - 1 {
                assert(s[i] == decimal(q)[i]);
            }
        }
        assert(s[0] == decimal(q)[0]);
    }
}

/// The decimal notation of a signed number, with a leading `-` when negative.
pub open spec fn signed_decimal(i: int) -> Seq<char> {
    if i < 0 {
        seq!['-'] + decimal((-i) as nat)
    } else {
        decimal(i as nat)
    }
}

fn digit(d: u64) -> (c: char)
    requires
        d < 10,
    ensures
        c == digit_char(d as nat),
{
    if d == 0 { '0' }
    else if d == 1 { '1' }
    else if d == 2 { '2' }
    else if d == 3 { '3' }
    else if d == 4 { '4' }
    else if d == 5 { '5' }
    else if d == 6 { '6' }
    else if d == 7 { '7' }
    else if d == 8 { '8' }
    else { '9' }
}

/// Appends the decimal notation of `n` to `s`.
pub fn push_decimal(s: &mut String, n: u64)
    ensures
        final(s)@ == old(s)@ + decimal(n as nat),
    decreases n,
{
    if n >= 10 {
        push_decimal(s, n / 10);
        push_char(s, digit(n % 10));
    } else {
        push_char(s, digit(n));
    }
}

/// Appends the decimal notation of a signed number to `s`.
pub fn push_signed_decimal(s: &mut String, i: i64)
    ensures
        final(s)@ == old(s)@ + signed_decimal(i as int),
{
    if i < 0 {
        push_char(s, '-');
        let m: u64 = if i == i64::MIN {
            9223372036854775808u64
        } else {
            (-i) as u64
        };
        push_decimal(s, m);
    } else {
        push_decimal(s, i as u64);
    }
}

// ---------------------------------------------------------------------------
// Joining and trimming

/// The strings of `parts` with `sep` between each two neighbours.
pub open spec fn join(parts: Seq<Seq<char>>, sep: Seq<char>) -> Seq<char>
    decreases parts.len(),
{
    if parts.len() == 0 {
        Seq::empty()
    } else if parts.len() == 1 {
        parts[0]
    } else {
        join(parts.drop_last(), sep) + sep + parts.last()
    }
}

/// `parts` joined by `sep` (`[String]::join`).
pub fn join_strings(parts: &[String], sep: &str) -> (r: String)
    ensures
        r@ == join(views(parts@), sep@),
{
    let mut r = String::new();
    let n = parts.len();
    for i in 0..n
        invariant
            n == parts@.len(),
            r@ == join(views(parts@.take(i as int)), sep@),
    {
        proof {
            assert(views(parts@.take(i + 1)).drop_last() == views(parts@.take(i as int)));
            assert(views(parts@.take(i + 1)).last() == parts@[i as int]@);
        }
        if i > 0 {
            r.append(sep);
        }
        r.append(parts[i].as_str());
    }
    assert(parts@.take(n as int) == parts@);
    r
}

/// Whether `s` ends with `pat`.
pub open spec fn ends_with(s: Seq<char>, pat: Seq<char>) -> bool {
    pat.len() <= s.len() && s.subrange(s.len() - pat.len(), s.len() as int) == pat
}

/// `s` with every trailing occurrence of `pat` removed, repeatedly
/// (`str::trim_end_matches` with a string pattern).
pub open spec fn trim_end_matches(s: Seq<char>, pat: Seq<char>) -> Seq<char>
    decreases s.len(),
{
    if pat.len() > 0 && ends_with(s, pat) {
        trim_end_matches(s.subrange(0, s.len() - pat.len()), pat)
    } else {
        s
    }
}

fn ends_with_at(s: &Vec<char>, end: usize, pat: &Vec<char>) -> (r: bool)
    requires
        end <= s@.len(),
    ensures
        r == ends_with(s@.take(end as int), pat@),
{
    if pat.len() > end {
        return false;
    }
    let start = end - pat.len();
    let m = pat.len();
    for j in 0..m
        invariant
            m == pat@.len(),
            start + m == end,
            end <= s@.len(),
            forall|k: int| 0 <= k < j ==> s@[start + k] == pat@[k],
    {
        if s[start + j] != pat[j] {
            assert(s@.take(end as int).subrange(start as int, end as int)[j as int] != pat@[j as int]);
            return false;
        }
    }
    assert(s@.take(end as int).subrange(start as int, end as int) =~= pat@);
    true
}

/// `s` with trailing occurrences of `pat` removed (`str::trim_end_matches`).
pub fn trim_end_matching(s: &str, pat: &str) -> (r: String)
    ensures
        r@ == trim_end_matches(s@, pat@),
{
    let x = chars_of(s);
    let p = chars_of(pat);
    let mut end = x.len();
    if p.len() == 0 {
        return string_of(x.as_slice());
    }
    assert(x@.take(end as int) == x@);
    loop
        invariant
            end <= x@.len(),
            p@ == pat@,
            p@.len() > 0,
            trim_end_matches(x@.take(end as int), p@) == trim_end_matches(s@, pat@),
            x@ == s@,
        ensures
            end <= x@.len(),
            trim_end_matches(x@.take(end as int), p@) == x@.take(end as int),
            trim_end_matches(x@.take(end as int), p@) == trim_end_matches(s@, pat@),
        decreases end,
    {
        if ends_with_at(&x, end, &p) {
            let ghost t = x@.take(end as int);
            assert(t.subrange(0, t.len() - p@.len()) == x@.take(end - p@.len()));
            end = end - p.len();
        } else {
            break;
        }
    }
    let mut r = String::new();
    for i in 0..end
        invariant
            end <= x@.len(),
            r@ == x@.take(i as int),
    {
        push_char(&mut r, x[i]);
        assert(x@.take(i + 1) == x@.take(i as int).push(x@[i as int]));
    }
    r
}

/// Whether `c` is white space in the sense of Unicode's `White_Space`
/// property (`char::is_whitespace`).
pub open spec fn is_white_space(c: char) -> bool {
    let u = c as u32;
    ||| 9 <= u <= 13
    ||| u == 32
    ||| u == 0x85
    ||| u == 0xA0
    ||| u == 0x1680
    ||| 0x2000 <= u <= 0x200A
    ||| u == 0x2028
    ||| u == 0x2029
    ||| u == 0x202F
    ||| u == 0x205F
    ||| u == 0x3000
}

fn white_space(c: char) -> (r: bool)
    ensures
        r == is_white_space(c),
{
    let u = c as u32;
    (9 <= u && u <= 13) || u == 32 || u == 0x85 || u == 0xA0 || u == 0x1680 || (0x2000 <= u && u
        <= 0x200A) || u == 0x2028 || u == 0x2029 || u == 0x202F || u == 0x205F || u == 0x3000
}

/// `s` without leading white space.
pub open spec fn trim_start_white(s: Seq<char>) -> Seq<char>
    decreases s.len(),
{
    if s.len() > 0 && is_white_space(s[0]) {
        trim_start_white(s.drop_first())
    } else {
        s
    }
}

/// `s` without trailing white space.
pub open spec fn trim_end_white(s: Seq<char>) -> Seq<char>
    decreases s.len(),
{
    if s.len() > 0 && is_white_space(s.last()) {
        trim_end_white(s.drop_last())
    } else {
        s
    }
}

/// `s` without leading and trailing white space (`str::trim`).
pub open spec fn trim_white(s: Seq<char>) -> Seq<char> {
    trim_end_white(trim_start_white(s))
}

/// `s` without leading and trailing white space (`str::trim`).
pub fn trim(s: &str) -> (r: String)
    ensures
        r@ == trim_white(s@),
{
    let x = chars_of(s);
    let n = x.len();
    let mut start: usize = 0;
    assert(x@.subrange(0, n as int) == x@);
    while start < n && white_space(x[start])
        invariant
            n == x@.len(),
            start <= n,
            trim_start_white(x@) == trim_start_white(x@.subrange(start as int, n as int)),
        decreases n - start,
    {
        let ghost t = x@.subrange(start as int, n as int);
        assert(t.drop_first() == x@.subrange(start + 1, n as int));
        start = start + 1;
    }
    let ghost front = x@.subrange(start as int, n as int);
    assert(x@.subrange(0, n as int) == x@);
    assert(trim_start_white(front) == front);
    let mut end: usize = n;
    while end > start && white_space(x[end - 1])
        invariant
            n == x@.len(),
            start <= end <= n,
            front == x@.subrange(start as int, n as int),
            trim_end_white(front) == trim_end_white(x@.subrange(start as int, end as int)),
        decreases end,
    {
        let ghost t = x@.subrange(start as int, end as int);
        assert(t.drop_last() == x@.subrange(start as int, end - 1));
        end = end - 1;
    }
    let mut r = String::new();
    for i in start..end
        invariant
            start <= end <= n,
            n == x@.len(),
            r@ == x@.subrange(start as int, i as int),
    {
        push_char(&mut r, x[i]);
        assert(x@.subrange(start as int, i + 1) == x@.subrange(start as int, i as int).push(
            x@[i as int],
        ));
    }
    assert(x@ == s@);
    r
}

} // verus!
