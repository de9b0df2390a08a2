//! Character-level text utilities over `String` / `&str`, each with an exact
//! specification over `Seq<char>`.
use vstd::prelude::*;

verus! {

/// Appends one character to a `String` (`String::push`).
/// Trusted: the new contents are the old contents followed by `c`.
#[verifier::external_body]
pub(crate) fn push_char(s: &mut String, c: char)
    ensures
        final(s)@ == old(s)@.push(c),
{
    s.push(c);
}

/// Appends the characters of `t` to `s`.
pub fn push_str(s: &mut String, t: &str)
    ensures
        final(s)@ == old(s)@ + t@,
{
    let v = chars_of(t);
    let mut i: usize = 0;
    while i < v.len()
        invariant
            0 <= i <= v.len(),
            v@ == t@,
            s@ == old(s)@ + v@.take(i as int),
        decreases v.len() - i,
    {
        push_char(s, v[i]);
        assert(v@.take(i + 1) == v@.take(i as int).push(v@[i as int]));
        i = i + 1;
    }
    assert(v@.take(v.len() as int) == v@);
}

/// A fresh `String` holding the characters of `t`.
pub fn string_of(t: &str) -> (s: String)
    ensures
        s@ == t@,
{
    let mut s = String::new();
    push_str(&mut s, t);
    s
}

/// The characters of `s`, in order.
pub fn chars_of(s: &str) -> (v: Vec<char>)
    ensures
        v@ == s@,
{
    let mut v: Vec<char> = Vec::new();
    for c in it: s.chars()
        invariant
            v@ == it.seq().take(it.index() as int),
    {
        v.push(c);
    }
    v
}

/// A `String` holding exactly the characters `v[from..to]`.
pub fn string_from_range(v: &Vec<char>, from: usize, to: usize) -> (s: String)
    requires
        from <= to <= v.len(),
    ensures
        s@ == v@.subrange(from as int, to as int),
{
    let mut s = String::new();
    let mut i = from;
    while i < to
        invariant
            from <= i <= to <= v.len(),
            s@ == v@.subrange(from as int, i as int),
        decreases to - i,
    {
        push_char(&mut s, v[i]);
        assert(v@.subrange(from as int, i + 1) == v@.subrange(from as int, i as int).push(
            v@[i as int],
        ));
        i = i + 1;
    }
    s
}

/// Whether two strings hold the same characters.
pub fn str_eq(a: &str, b: &str) -> (r: bool)
    ensures
        r == (a@ == b@),
{
    let va = chars_of(a);
    let vb = chars_of(b);
    if va.len() != vb.len() {
        return false;
    }
    let mut i: usize = 0;
    while i < va.len()
        invariant
            va@ == a@,
            vb@ == b@,
            va.len() == vb.len(),
            0 <= i <= va.len(),
            forall|j: int| 0 <= j < i ==> va@[j] == vb@[j],
        decreases va.len() - i,
    {
        if va[i] != vb[i] {
            return false;
        }
        i = i + 1;
    }
    assert(va@ =~= vb@);
    true
}

/// Whether `s` contains the character `c`.
pub fn contains_char(s: &str, c: char) -> (r: bool)
    ensures
        r == s@.contains(c),
{
    let v = chars_of(s);
    match find_first(&v, c) {
        Some(_) => true,
        None => false,
    }
}

// ---------------------------------------------------------------------------
// Searching for a character

/// `i` is the position of the first occurrence of `c` in `s`.
pub open spec fn first_at(s: Seq<char>, c: char, i: int) -> bool {
    &&& 0 <= i < s.len()
    &&& s[i] == c
    &&& forall|j: int| 0 <= j < i ==> s[j] != c
}

/// `i` is the position of the last occurrence of `c` in `s`.
pub open spec fn last_at(s: Seq<char>, c: char, i: int) -> bool {
    &&& 0 <= i < s.len()
    &&& s[i] == c
    &&& forall|j: int| i < j < s.len() ==> s[j] != c
}

/// What `str::split_once(c)` gives: the text before and after the first `c`.
pub open spec fn split_once_spec(s: Seq<char>, c: char) -> Option<(Seq<char>, Seq<char>)> {
    if exists|i: int| first_at(s, c, i) {
        let i = choose|i: int| first_at(s, c, i);
        Some((s.take(i), s.skip(i + 1)))
    } else {
        None
    }
}

/// What `str::rsplit(c).next()` gives: the text after the last `c`,
/// or the whole text when `c` does not occur.
pub open spec fn after_last_spec(s: Seq<char>, c: char) -> Seq<char> {
    if exists|i: int| last_at(s, c, i) {
        let i = choose|i: int| last_at(s, c, i);
        s.skip(i + 1)
    } else {
        s
    }
}

/// The first occurrence of `c` is unique.
pub proof fn lemma_first_at_unique(s: Seq<char>, c: char, i: int, k: int)
    requires
        first_at(s, c, i),
        first_at(s, c, k),
    ensures
        i == k,
{
    if k < i {
        assert(s[k] != c);
    } else if i < k {
        assert(s[i] != c);
    }
}

/// The last occurrence of `c` is unique.
pub proof fn lemma_last_at_unique(s: Seq<char>, c: char, i: int, k: int)
    requires
        last_at(s, c, i),
        last_at(s, c, k),
    ensures
        i == k,
{
    if k < i {
        assert(s[i] != c);
    } else if i < k {
        assert(s[k] != c);
    }
}

/// Position of the first `c` in `v`.
pub fn find_first(v: &Vec<char>, c: char) -> (r: Option<usize>)
    ensures
        match r {
            Some(i) => first_at(v@, c, i as int),
            None => !v@.contains(c) && !(exists|i: int| first_at(v@, c, i)),
        },
{
    let mut i: usize = 0;
    while i < v.len()
        invariant
            0 <= i <= v.len(),
            forall|j: int| 0 <= j < i ==> v@[j] != c,
        decreases v.len() - i,
    {
        if v[i] == c {
            return Some(i);
        }
        i = i + 1;
    }
    None
}

/// Position of the last `c` in `v`.
pub fn find_last(v: &Vec<char>, c: char) -> (r: Option<usize>)
    ensures
        match r {
            Some(i) => last_at(v@, c, i as int),
            None => !v@.contains(c) && !(exists|i: int| last_at(v@, c, i)),
        },
{
    let mut i: usize = v.len();
    while i > 0
        invariant
            0 <= i <= v.len(),
            forall|j: int| i <= j < v.len() ==> v@[j] != c,
        decreases i,
    {
        if v[i - 1] == c {
            return Some(i - 1);
        }
        i = i - 1;
    }
    None
}

/// `str::split_once(c)`: the text before and after the first `c`.
pub fn split_once(s: &str, c: char) -> (r: Option<(String, String)>)
    ensures
        match r {
            Some((a, b)) => split_once_spec(s@, c) == Some((a@, b@)),
            None => split_once_spec(s@, c) is None,
        },
{
    let v = chars_of(s);
    match find_first(&v, c) {
        Some(i) => {
            assert(i < v.len());
            let a = string_from_range(&v, 0, i);
            let b = string_from_range(&v, i + 1, v.len());
            proof {
                let k = choose|k: int| first_at(s@, c, k);
                lemma_first_at_unique(s@, c, i as int, k);
                assert(a@ == s@.take(i as int));
                assert(b@ == s@.skip(i + 1));
            }
            Some((a, b))
        },
        None => None,
    }
}

/// `str::rsplit(c).next()`: the text after the last `c`, or all of `s`.
pub fn after_last(s: &str, c: char) -> (r: String)
    ensures
        r@ == after_last_spec(s@, c),
{
    let v = chars_of(s);
    match find_last(&v, c) {
        Some(i) => {
            assert(i < v.len());
            let b = string_from_range(&v, i + 1, v.len());
            proof {
                let k = choose|k: int| last_at(s@, c, k);
                lemma_last_at_unique(s@, c, i as int, k);
                assert(b@ == s@.skip(i + 1));
            }
            b
        },
        None => {
            let b = string_from_range(&v, 0, v.len());
            assert(b@ == s@);
            b
        },
    }
}

// ---------------------------------------------------------------------------
// Whitespace trimming

/// `char::is_whitespace`: the Unicode `White_Space` property.
pub open spec fn is_white_space(c: char) -> bool {
    let n = c as u32;
    (0x9 <= n <= 0xd) || n == 0x20 || n == 0x85 || n == 0xa0 || n == 0x1680 || (0x2000 <= n
        <= 0x200a) || n == 0x2028 || n == 0x2029 || n == 0x202f || n == 0x205f || n == 0x3000
}

/// Executable `char::is_whitespace`.
pub fn white_space(c: char) -> (r: bool)
    ensures
        r == is_white_space(c),
{
    let n = c as u32;
    (0x9 <= n && n <= 0xd) || n == 0x20 || n == 0x85 || n == 0xa0 || n == 0x1680 || (0x2000 <= n
        && n <= 0x200a) || n == 0x2028 || n == 0x2029 || n == 0x202f || n == 0x205f || n == 0x3000
}

/// `i` is the first non-whitespace position of `s`.
pub open spec fn first_solid(s: Seq<char>, i: int) -> bool {
    &&& 0 <= i < s.len()
    &&& !is_white_space(s[i])
    &&& forall|j: int| 0 <= j < i ==> is_white_space(s[j])
}

/// `i` is the last non-whitespace position of `s`.
pub open spec fn last_solid(s: Seq<char>, i: int) -> bool {
    &&& 0 <= i < s.len()
    &&& !is_white_space(s[i])
    &&& forall|j: int| i < j < s.len() ==> is_white_space(s[j])
}

/// What `str::trim` gives: `s` without leading and trailing whitespace.
pub open spec fn trim_spec(s: Seq<char>) -> Seq<char> {
    if exists|i: int| first_solid(s, i) {
        let a = choose|i: int| first_solid(s, i);
        let b = choose|i: int| last_solid(s, i);
        s.subrange(a, b + 1)
    } else {
        Seq::empty()
    }
}

/// `str::trim`: removes leading and trailing whitespace.
pub fn trim(s: &str) -> (r: String)
    ensures
        r@ == trim_spec(s@),
{
    let v = chars_of(s);
    let mut a: usize = 0;
    while a < v.len() && white_space(v[a])
        invariant
            0 <= a <= v.len(),
            v@ == s@,
            forall|j: int| 0 <= j < a ==> is_white_space(v@[j]),
        decreases v.len() - a,
    {
        a = a + 1;
    }
    if a == v.len() {
        assert(!exists|i: int| first_solid(s@, i));
        return String::new();
    }
    let mut b: usize = v.len();
    while b > a + 1 && white_space(v[b - 1])
        invariant
            a + 1 <= b <= v.len(),
            v@ == s@,
            !is_white_space(v@[a as int]),
            forall|j: int| b <= j < v.len() ==> is_white_space(v@[j]),
        decreases b,
    {
        b = b - 1;
    }
    let r = string_from_range(&v, a, b);
    proof {
        assert(first_solid(s@, a as int));
        assert(last_solid(s@, b - 1));
        let x = choose|i: int| first_solid(s@, i);
        let y = choose|i: int| last_solid(s@, i);
        if x < a {
            assert(is_white_space(s@[x]));
        } else if a < x {
            assert(is_white_space(s@[a as int]));
        }
        if y < b - 1 {
            assert(is_white_space(s@[b - 1]));
        } else if b - 1 < y {
            assert(is_white_space(s@[y]));
        }
    }
    r
}

// ---------------------------------------------------------------------------
// Decimal and hexadecimal numerals

/// The ASCII digit for `d` (`0 <= d < 16`), lower-case for `a`..`f`.
pub open spec fn digit_char(d: nat) -> char {
    if d < 10 {
        ((d + 48) as u8) as char
    } else {
        ((d + 87) as u8) as char
    }
}

/// The numeral of `n` in base `b`, without leading zeros.
pub open spec fn numeral(n: nat, b: nat) -> Seq<char>
    recommends
        2 <= b <= 16,
    decreases n,
    when 2 <= b
{
    if n < b {
        seq![digit_char(n)]
    } else {
        proof {
            vstd::arithmetic::div_mod::lemma_div_decreases(n as int, b as int);
        }
        numeral(n / b, b).push(digit_char(n % b))
    }
}

/// What `format!("{}", n)` gives for a signed integer.
pub open spec fn decimal(n: int) -> Seq<char> {
    if n < 0 {
        seq!['-'] + numeral((-n) as nat, 10)
    } else {
        numeral(n as nat, 10)
    }
}

/// `t` padded on the left with `'0'` to at least `width` characters.
pub open spec fn zero_pad(t: Seq<char>, width: nat) -> Seq<char> {
    if t.len() < width {
        Seq::new((width - t.len()) as nat, |_i: int| '0') + t
    } else {
        t
    }
}

fn digit_of(d: u8) -> (c: char)
    requires
        d < 16,
    ensures
        c == digit_char(d as nat),
{
    if d < 10 {
        (d + 48) as char
    } else {
        (d + 87) as char
    }
}

/// Appends the base-`b` numeral of `n` to `s`.
pub fn push_numeral(s: &mut String, n: u128, b: u128)
    requires
        2 <= b <= 16,
    ensures
        final(s)@ == old(s)@ + numeral(n as nat, b as nat),
    decreases n,
{
    let ghost s0 = s@;
    if n >= b {
        proof {
            vstd::arithmetic::div_mod::lemma_div_decreases(n as int, b as int);
        }
        push_numeral(s, n / b, b);
    }
    let d = (n % b) as u8;
    push_char(s, digit_of(d));
    proof {
        if n >= b {
            assert(numeral(n as nat, b as nat) == numeral((n / b) as nat, b as nat).push(
                digit_char((n % b) as nat),
            ));
            assert(s@ =~= s0 + numeral(n as nat, b as nat));
        } else {
            vstd::arithmetic::div_mod::lemma_small_mod(n as nat, b as nat);
            assert(s@ =~= s0 + numeral(n as nat, b as nat));
        }
    }
}

/// `format!("{}", n)`.
pub fn format_i64(n: i64) -> (s: String)
    ensures
        s@ == decimal(n as int),
{
    let mut s = String::new();
    if n < 0 {
        push_char(&mut s, '-');
        let m: u128 = (-(n as i128)) as u128;
        push_numeral(&mut s, m, 10);
    } else {
        push_numeral(&mut s, n as u128, 10);
    }
    s
}

/// `format!("{}", n)` for an unsigned integer.
pub fn format_u64(n: u64) -> (s: String)
    ensures
        s@ == numeral(n as nat, 10),
{
    let mut s = String::new();
    push_numeral(&mut s, n as u128, 10);
    s
}

/// `format!("{:0w$x}", n)`: lower-case hexadecimal, zero-padded to `width`.
pub fn format_hex_padded(n: u128, width: usize) -> (s: String)
    ensures
        s@ == zero_pad(numeral(n as nat, 16), width as nat),
{
    let mut digits = String::new();
    push_numeral(&mut digits, n, 16);
    let dv = chars_of(digits.as_str());
    let mut s = String::new();
    if dv.len() < width {
        let pad = width - dv.len();
        let mut i: usize = 0;
        while i < pad
            invariant
                0 <= i <= pad,
                s@ == Seq::new(i as nat, |_i: int| '0'),
            decreases pad - i,
        {
            push_char(&mut s, '0');
            assert(s@ =~= Seq::new((i + 1) as nat, |_i: int| '0'));
            i = i + 1;
        }
    }
    push_str(&mut s, digits.as_str());
    s
}

// ---------------------------------------------------------------------------
// Parsing a signed decimal integer

/// An ASCII decimal digit.
pub open spec fn is_digit(c: char) -> bool {
    48 <= (c as u32) <= 57
}

/// The value of a string of ASCII digits.
pub open spec fn digits_value(s: Seq<char>) -> nat
    decreases s.len(),
{
    if s.len() == 0 {
        0
    } else {
        digits_value(s.drop_last()) * 10 + ((s.last() as u32) - 48) as nat
    }
}

/// Every character of `t` is an ASCII digit.
pub open spec fn all_digits(t: Seq<char>) -> bool {
    forall|i: int| 0 <= i < t.len() ==> is_digit(#[trigger] t[i])
}

/// The digits part of a signed numeral: `s` without a leading `+` or `-`.
pub open spec fn unsigned_part(s: Seq<char>) -> Seq<char> {
    if s.len() > 0 && (s[0] == '-' || s[0] == '+') {
        s.skip(1)
    } else {
        s
    }
}

/// What `str::parse::<i64>()` gives: an optional `+` or `-`, then at least one
/// ASCII digit and nothing else, with the value in range.
pub open spec fn parse_i64_spec(s: Seq<char>) -> Option<i64> {
    let body = unsigned_part(s);
    let v: int = if s.len() > 0 && s[0] == '-' {
        -digits_value(body)
    } else {
        digits_value(body) as int
    };
    if body.len() == 0 || !all_digits(body) {
        None
    } else if i64::MIN <= v <= i64::MAX {
        Some(v as i64)
    } else {
        None
    }
}

/// `str::parse::<i64>()`, giving `None` where it gives an error.
pub fn parse_i64(s: &str) -> (r: Option<i64>)
    ensures
        r == parse_i64_spec(s@),
{
    let v = chars_of(s);
    let n = v.len();
    if n == 0 {
        return None;
    }
    let neg = v[0] == '-';
    let start: usize = if v[0] == '-' || v[0] == '+' {
        1
    } else {
        0
    };
    let ghost body = s@.skip(start as int);
    assert(start == 0 ==> body =~= s@);
    if start == n {
        assert(body.len() == 0);
        return None;
    }
    // The value of the digits seen so far, capped at `cap`.
    let cap: u128 = 0x8000_0000_0000_0001;
    let mut acc: u128 = 0;
    let mut i: usize = start;
    while i < n
        invariant
            v@ == s@,
            n == v.len(),
            start <= i <= n,
            body == s@.skip(start as int),
            acc <= cap,
            cap == 0x8000_0000_0000_0001u128,
            start == 0 ==> body == s@,
            n > 0,
            start == (if v@[0] == '-' || v@[0] == '+' {
                1usize
            } else {
                0usize
            }),
            forall|j: int| 0 <= j < i - start ==> is_digit(#[trigger] body[j]),
            acc as int == if digits_value(body.take(i - start)) < cap {
                digits_value(body.take(i - start)) as int
            } else {
                cap as int
            },
        decreases n - i,
    {
        let c = v[i];
        let code = #[verifier::truncate] (c as u32);
        if code < 48 || code > 57 {
            assert(!is_digit(body[i - start]));
            assert(!(forall|k: int| 0 <= k < body.len() ==> is_digit(#[trigger] body[k])));
            assert(body == unsigned_part(s@));
            return None;
        }
        let d = (code - 48) as u128;
        proof {
            let p = body.take(i - start);
            let q = body.take(i - start + 1);
            assert(q.drop_last() == p);
            assert(q.last() == c);
            assert(digits_value(q) == digits_value(p) * 10 + d);
        }
        assert(acc * 10 + d <= cap * 10 + 9) by (nonlinear_arith)
            requires
                acc <= cap,
                d <= 9,
        ;
        let next = acc * 10 + d;
        acc = if next < cap {
            next
        } else {
            cap
        };
        i = i + 1;
    }
    assert(body.take(n - start) == body);
    assert(body == unsigned_part(s@));
    assert(all_digits(body));
    if neg {
        if acc <= 0x8000_0000_0000_0000 {
            let r = (-(acc as i128)) as i64;
            Some(r)
        } else {
            None
        }
    } else {
        if acc <= 0x7fff_ffff_ffff_ffff {
            Some(acc as i64)
        } else {
            None
        }
    }
}

} // verus!
