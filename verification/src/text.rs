//! Character-level text handling: splitting on a separator, trimming white space and
//! reading unsigned integers, with the meaning that Rust's `str` methods give them.

use vstd::prelude::*;

verus! {

broadcast use vstd::string::group_string_axioms;

/// The characters of a string slice, in order.
pub fn chars_of(s: &str) -> (chars: Vec<char>)
    ensures
        chars@ == s@,
{
    let mut chars: Vec<char> = Vec::new();
    for c in it: s.chars()
        invariant
            chars@ == it.seq().take(it.index() as int),
            it.seq() == s@,
    {
        chars.push(c);
    }
    chars
}

/// Whether two string slices hold the same characters.
pub fn same_text(a: &str, b: &str) -> (same: bool)
    ensures
        same == (a@ == b@),
{
    let x = chars_of(a);
    let y = chars_of(b);
    if x.len() != y.len() {
        return false;
    }
    let mut i: usize = 0;
    while i < x.len()
        invariant
            x@ == a@,
            y@ == b@,
            x.len() == y.len(),
            i <= x.len(),
            forall|j: int| 0 <= j < i ==> x@[j] == y@[j],
        decreases x.len() - i,
    {
        if x[i] != y[i] {
            return false;
        }
        i = i + 1;
    }
    assert(x@ =~= y@);
    true
}

/// The characters of `chars` from index `from` up to, not including, index `to`.
pub fn copy_range(chars: &Vec<char>, from: usize, to: usize) -> (part: Vec<char>)
    requires
        from <= to <= chars.len(),
    ensures
        part@ == chars@.subrange(from as int, to as int),
{
    let mut part: Vec<char> = Vec::new();
    let mut i: usize = from;
    while i < to
        invariant
            from <= i <= to <= chars.len(),
            part@ == chars@.subrange(from as int, i as int),
        decreases to - i,
    {
        part.push(chars[i]);
        i = i + 1;
        assert(part@ =~= chars@.subrange(from as int, i as int));
    }
    part
}

/// Index of the first occurrence of `sep` in `s`, or the length of `s` where there is none.
pub open spec fn sep_index(s: Seq<char>, sep: char) -> nat
    decreases s.len(),
{
    if s.len() == 0 {
        0
    } else if s[0] == sep {
        0
    } else {
        1 + sep_index(s.drop_first(), sep)
    }
}

/// The `n`-th field of `s` when it is split at every `sep` (as `str::split` yields them),
/// or `None` where `s` has fewer than `n + 1` fields.
pub open spec fn field(s: Seq<char>, sep: char, n: nat) -> Option<Seq<char>>
    decreases n,
{
    let i = sep_index(s, sep);
    if n == 0 {
        Some(s.take(i as int))
    } else if i < s.len() {
        field(s.skip(i + 1 as int), sep, (n - 1) as nat)
    } else {
        None
    }
}

/// The first `sep` in `s` is at `m` (or `s` has none, and `m` is its length).
pub proof fn lemma_sep_index(s: Seq<char>, sep: char, m: int)
    requires
        0 <= m <= s.len(),
        forall|k: int| 0 <= k < m ==> s[k] != sep,
        m == s.len() || s[m] == sep,
    ensures
        sep_index(s, sep) == m,
    decreases m,
{
    if m > 0 {
        lemma_sep_index(s.drop_first(), sep, m - 1);
    }
}

/// The `n`-th field of `chars` split at `sep`.
pub fn nth_field(chars: &Vec<char>, sep: char, n: usize) -> (part: Option<Vec<char>>)
    ensures
        match part {
            Some(p) => field(chars@, sep, n as nat) == Some(p@),
            None => field(chars@, sep, n as nat) is None,
        },
{
    let mut start: usize = 0;
    let mut k: usize = n;
    assert(chars@.skip(0) =~= chars@);
    loop
        invariant
            start <= chars.len(),
            k <= n,
            field(chars@, sep, n as nat) == field(chars@.skip(start as int), sep, k as nat),
        decreases chars.len() - start,
    {
        let mut j: usize = start;
        while j < chars.len() && chars[j] != sep
            invariant
                start <= j <= chars.len(),
                forall|i: int| start <= i < j ==> chars@[i] != sep,
            decreases chars.len() - j,
        {
            j = j + 1;
        }
        let ghost rest = chars@.skip(start as int);
        proof {
            lemma_sep_index(rest, sep, (j - start) as int);
        }
        if k == 0 {
            let part = copy_range(chars, start, j);
            assert(part@ =~= rest.take((j - start) as int));
            return Some(part);
        }
        if j == chars.len() {
            return None;
        }
        assert(rest.skip((j - start) + 1) =~= chars@.skip(j + 1));
        start = j + 1;
        k = k - 1;
    }
}

/// Unicode `White_Space`, the characters that `str::trim` removes.
pub open spec fn is_white_space(c: char) -> bool {
    let u: u32 = c as u32;
    ||| 0x9 <= u <= 0xD
    ||| u == 0x20
    ||| u == 0x85
    ||| u == 0xA0
    ||| u == 0x1680
    ||| 0x2000 <= u <= 0x200A
    ||| u == 0x2028
    ||| u == 0x2029
    ||| u == 0x202F
    ||| u == 0x205F
    ||| u == 0x3000
}

fn white_space(c: char) -> (ws: bool)
    ensures
        ws == is_white_space(c),
{
    let u: u32 = c as u32;
    (0x9 <= u && u <= 0xD) || u == 0x20 || u == 0x85 || u == 0xA0 || u == 0x1680 || (0x2000
        <= u && u <= 0x200A) || u == 0x2028 || u == 0x2029 || u == 0x202F || u == 0x205F || u
        == 0x3000
}

/// `s` without its leading white space.
pub open spec fn trim_start(s: Seq<char>) -> Seq<char>
    decreases s.len(),
{
    if s.len() > 0 && is_white_space(s[0]) {
        trim_start(s.drop_first())
    } else {
        s
    }
}

/// `s` without its trailing white space.
pub open spec fn trim_end(s: Seq<char>) -> Seq<char>
    decreases s.len(),
{
    if s.len() > 0 && is_white_space(s.last()) {
        trim_end(s.drop_last())
    } else {
        s
    }
}

/// `s` without leading and trailing white space (`str::trim`).
pub open spec fn trim(s: Seq<char>) -> Seq<char> {
    trim_end(trim_start(s))
}

/// `chars` without leading and trailing white space.
pub fn trimmed(chars: &Vec<char>) -> (t: Vec<char>)
    ensures
        t@ == trim(chars@),
{
    let mut i: usize = 0;
    assert(chars@.subrange(0, chars@.len() as int) =~= chars@);
    while i < chars.len() && white_space(chars[i])
        invariant
            i <= chars.len(),
            trim_start(chars@) == trim_start(chars@.subrange(i as int, chars@.len() as int)),
        decreases chars.len() - i,
    {
        assert(chars@.subrange(i as int, chars@.len() as int).drop_first() =~= chars@.subrange(
            i + 1,
            chars@.len() as int,
        ));
        i = i + 1;
    }
    let ghost front = chars@.subrange(i as int, chars@.len() as int);
    assert(trim_start(front) == front);
    let mut j: usize = chars.len();
    assert(front.subrange(0, (j - i) as int) =~= front);
    while j > i && white_space(chars[j - 1])
        invariant
            i <= j <= chars.len(),
            front == chars@.subrange(i as int, chars@.len() as int),
            trim_end(front) == trim_end(front.subrange(0, (j - i) as int)),
        decreases j,
    {
        assert(front.subrange(0, (j - i) as int).drop_last() =~= front.subrange(
            0,
            (j - 1 - i) as int,
        ));
        j = j - 1;
    }
    let t = copy_range(chars, i, j);
    assert(t@ =~= front.subrange(0, (j - i) as int));
    t
}

/// The value of `c` as a digit in base `radix` (as `char::to_digit` gives it), if it is one.
pub open spec fn digit_value(c: char, radix: nat) -> Option<nat> {
    let u: u32 = c as u32;
    let d: int = if 0x30 <= u <= 0x39 {
        u - 0x30
    } else if 0x61 <= u <= 0x7A {
        u - 0x61 + 10
    } else if 0x41 <= u <= 0x5A {
        u - 0x41 + 10
    } else {
        -1
    };
    if 0 <= d < radix {
        Some(d as nat)
    } else {
        None
    }
}

fn digit(c: char, radix: u32) -> (d: Option<u32>)
    requires
        radix <= 36,
    ensures
        match d {
            Some(v) => digit_value(c, radix as nat) == Some(v as nat),
            None => digit_value(c, radix as nat) is None,
        },
{
    let u: u32 = c as u32;
    let d: u32 = if 0x30 <= u && u <= 0x39 {
        u - 0x30
    } else if 0x61 <= u && u <= 0x7A {
        u - 0x61 + 10
    } else if 0x41 <= u && u <= 0x5A {
        u - 0x41 + 10
    } else {
        return None;
    };
    if d < radix {
        Some(d)
    } else {
        None
    }
}

/// The number that the digits `s` write in base `radix`, or `None` where one of them is no digit.
pub open spec fn digits_value(s: Seq<char>, radix: nat) -> Option<nat>
    decreases s.len(),
{
    if s.len() == 0 {
        Some(0)
    } else {
        match (digits_value(s.drop_last(), radix), digit_value(s.last(), radix)) {
            (Some(v), Some(d)) => Some(v * radix + d),
            _ => None,
        }
    }
}

/// An unsigned integer of at most `max` written in base `radix` (as `from_str_radix` reads
/// it for an unsigned type): an optional `+`, then one digit or more, and nothing else.
pub open spec fn parse_unsigned(s: Seq<char>, radix: nat, max: nat) -> Option<nat> {
    let digits = if s.len() > 0 && s[0] == '+' {
        s.drop_first()
    } else {
        s
    };
    if digits.len() == 0 {
        None
    } else {
        match digits_value(digits, radix) {
            Some(v) => if v <= max {
                Some(v)
            } else {
                None
            },
            None => None,
        }
    }
}

/// Reads `chars` as an unsigned integer of at most `max` in base `radix`.
pub fn parse_unsigned_chars(chars: &Vec<char>, radix: u32, max: u32) -> (value: Option<u32>)
    requires
        2 <= radix <= 36,
    ensures
        match value {
            Some(v) => parse_unsigned(chars@, radix as nat, max as nat) == Some(v as nat),
            None => parse_unsigned(chars@, radix as nat, max as nat) is None,
        },
{
    let start: usize = if chars.len() > 0 && chars[0] == '+' {
        1
    } else {
        0
    };
    let ghost digits = chars@.subrange(start as int, chars@.len() as int);
    assert(digits =~= (if chars@.len() > 0 && chars@[0] == '+' {
        chars@.drop_first()
    } else {
        chars@
    }));
    if start == chars.len() {
        return None;
    }
    let mut ok = true;
    let mut over = false;
    let mut acc: u64 = 0;
    let mut i: usize = start;
    assert(digits.take(0) =~= Seq::<char>::empty());
    while i < chars.len()
        invariant
            2 <= radix <= 36,
            start <= i <= chars.len(),
            digits == chars@.subrange(start as int, chars@.len() as int),
            ok <==> digits_value(digits.take(i - start), radix as nat) is Some,
            ok && !over ==> acc == digits_value(digits.take(i - start), radix as nat)->0 && acc
                <= max,
            ok && over ==> digits_value(digits.take(i - start), radix as nat)->0 > max,
        decreases chars.len() - i,
    {
        let ghost prev = digits.take(i - start);
        let ghost next = digits.take(i + 1 - start);
        assert(next.drop_last() =~= prev);
        assert(next.last() == chars@[i as int]);
        let d = digit(chars[i], radix);
        match d {
            None => {
                ok = false;
            },
            Some(dv) => {
                if ok {
                    let ghost pv = digits_value(prev, radix as nat)->0;
                    if over {
                        assert(pv * radix + dv > max) by (nonlinear_arith)
                            requires
                                pv > max,
                                radix >= 2,
                        ;
                    } else {
                        assert(acc * radix <= 0xFFFF_FFFF * 36) by (nonlinear_arith)
                            requires
                                acc <= 0xFFFF_FFFF,
                                radix <= 36,
                        ;
                        let n: u64 = acc * (radix as u64) + (dv as u64);
                        if n > max as u64 {
                            over = true;
                        } else {
                            acc = n;
                        }
                    }
                }
            },
        }
        i = i + 1;
    }
    assert(digits.take(i - start) =~= digits);
    if ok && !over {
        Some(acc as u32)
    } else {
        None
    }
}

/// The decimal digit that writes `d` (from 0 to 9).
pub open spec fn decimal_digit(d: nat) -> char {
    if d == 0 {
        '0'
    } else if d == 1 {
        '1'
    } else if d == 2 {
        '2'
    } else if d == 3 {
        '3'
    } else if d == 4 {
        '4'
    } else if d == 5 {
        '5'
    } else if d == 6 {
        '6'
    } else if d == 7 {
        '7'
    } else if d == 8 {
        '8'
    } else {
        '9'
    }
}

/// `n` written in decimal, without leading zeros.
pub open spec fn decimal(n: nat) -> Seq<char>
    decreases n,
{
    if n < 10 {
        seq![decimal_digit(n)]
    } else {
        decimal(n / 10).push(decimal_digit(n % 10))
    }
}

/// A character from `0` to `9`.
pub open spec fn is_decimal_char(c: char) -> bool {
    0x30 <= c as u32 <= 0x39
}

proof fn lemma_decimal_digit(d: nat)
    requires
        d < 10,
    ensures
        is_decimal_char(decimal_digit(d)),
        digit_value(decimal_digit(d), 10) == Some(d),
{
}

/// Decimal text is made of digits only, and reads back as the number it writes.
pub proof fn lemma_decimal(n: nat)
    ensures
        decimal(n).len() >= 1,
        forall|i: int| 0 <= i < decimal(n).len() ==> is_decimal_char(#[trigger] decimal(n)[i]),
        digits_value(decimal(n), 10) == Some(n),
    decreases n,
{
    if n < 10 {
        lemma_decimal_digit(n);
        assert(decimal(n).drop_last() =~= Seq::<char>::empty());
        assert(digits_value(Seq::<char>::empty(), 10) == Some(0nat));
    } else {
        lemma_decimal(n / 10);
        lemma_decimal_digit(n % 10);
        let s = decimal(n);
        assert(s.drop_last() =~= decimal(n / 10));
        assert(n == (n / 10) * 10 + n % 10);
    }
}

/// A number of at most `max` written in decimal is read back as itself, and the text has no
/// white space to trim.
pub proof fn lemma_parse_decimal(n: nat, max: nat)
    requires
        n <= max,
    ensures
        parse_unsigned(decimal(n), 10, max) == Some(n),
        trim(decimal(n)) == decimal(n),
{
    lemma_decimal(n);
    let s = decimal(n);
    assert(is_decimal_char(s[0]));
    assert(is_decimal_char(s.last()));
    assert(trim_start(s) == s);
    assert(trim_end(s) == s);
}

} // verus!
