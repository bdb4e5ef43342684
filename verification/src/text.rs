//! Reading numbers and finding separators in text.

use vstd::prelude::*;
use vstd::string::StringExecFns;

verus! {

/// Why a text is not the number that was asked for.
#[derive(Clone, Copy, Debug, PartialEq, Eq, Structural)]
pub enum NumberError {
    /// The text is empty.
    Empty,
    /// The text holds something that is no digit.
    InvalidDigit,
    /// The number is too large for its type.
    Overflow,
}

/// The index of the first `c` in `s`, and the length of `s` where there is
/// none.
pub open spec fn position(s: Seq<char>, c: char) -> int
    decreases s.len(),
{
    if s.len() == 0 {
        0
    } else if s[0] == c {
        0
    } else {
        1 + position(s.skip(1), c)
    }
}

/// `position` names the first occurrence: nothing before it is `c`, and it
/// is `c` itself unless it is the end of the text.
pub proof fn lemma_position(s: Seq<char>, c: char)
    ensures
        0 <= position(s, c) <= s.len(),
        forall|j: int| 0 <= j < position(s, c) ==> s[j] != c,
        position(s, c) < s.len() ==> s[position(s, c)] == c,
        position(s, c) == s.len() <==> !s.contains(c),
    decreases s.len(),
{
    if s.len() > 0 && s[0] != c {
        let rest = s.skip(1);
        lemma_position(rest, c);
        assert forall|j: int| 0 <= j < position(s, c) implies s[j] != c by {
            if j > 0 {
                assert(s[j] == rest[j - 1]);
            }
        }
        if position(s, c) < s.len() {
            assert(rest[position(rest, c)] == s[position(s, c)]);
        }
        if s.contains(c) {
            let j = choose|j: int| 0 <= j < s.len() && s[j] == c;
            assert(rest[j - 1] == c);
        }
        if rest.contains(c) {
            let j = choose|j: int| 0 <= j < rest.len() && rest[j] == c;
            assert(s[j + 1] == c);
        }
    } else if s.len() > 0 {
        assert(s[0] == c);
    }
}

/// An index is the first occurrence of `c` as soon as it holds `c` and
/// nothing before it does.
pub proof fn lemma_position_is(s: Seq<char>, c: char, i: int)
    requires
        0 <= i <= s.len(),
        forall|j: int| 0 <= j < i ==> s[j] != c,
        i < s.len() ==> s[i] == c,
    ensures
        position(s, c) == i,
{
    lemma_position(s, c);
    let p = position(s, c);
    if p < i {
        assert(s[p] == c);
    }
}

/// Finds the first `c` in `s`, counting characters.
pub fn find(s: &str, c: char) -> (r: Option<usize>)
    ensures
        match r {
            Some(i) => i == position(s@, c) && i < s@.len() && s@[i as int] == c,
            None => position(s@, c) == s@.len() && !s@.contains(c),
        },
{
    let n = s.unicode_len();
    let mut i: usize = 0;
    while i < n
        invariant
            n == s@.len(),
            i <= n,
            forall|j: int| 0 <= j < i ==> s@[j] != c,
        decreases n - i,
    {
        if s.get_char(i) == c {
            proof {
                lemma_position_is(s@, c, i as int);
            }
            return Some(i);
        }
        i += 1;
    }
    proof {
        lemma_position_is(s@, c, n as int);
        lemma_position(s@, c);
    }
    None
}

/// The value of `c` as a digit to the base `radix`, for a base up to 36.
pub open spec fn digit_value(c: char, radix: nat) -> Option<nat> {
    let v: int = if '0' <= c <= '9' {
        c as int - '0' as int
    } else if 'a' <= c <= 'z' {
        c as int - 'a' as int + 10
    } else if 'A' <= c <= 'Z' {
        c as int - 'A' as int + 10
    } else {
        36
    };
    if v < radix {
        Some(v as nat)
    } else {
        None
    }
}

/// How many characters at the start of `s` are digits to the base `radix`.
pub open spec fn digits_len(s: Seq<char>, radix: nat) -> nat
    decreases s.len(),
{
    if s.len() == 0 || digit_value(s[0], radix) is None {
        0
    } else {
        1 + digits_len(s.skip(1), radix)
    }
}

/// The number that the digits `s` write to the base `radix`.
pub open spec fn digits_number(s: Seq<char>, radix: nat) -> nat
    decreases s.len(),
{
    if s.len() == 0 {
        0
    } else {
        digits_number(s.drop_last(), radix) * radix + digit_value(s.last(), radix).unwrap_or(0)
    }
}

/// What `s` reads as, as a number to the base `radix` that is at most `max`.
///
/// A number is one or more digits, with a `+` before them or without. The
/// text is read from the left: a number that has grown beyond `max` is
/// reported before a character that is no digit.
pub open spec fn read_number(s: Seq<char>, radix: nat, max: nat) -> Result<nat, NumberError> {
    if s.len() == 0 {
        Err(NumberError::Empty)
    } else {
        let body = if s[0] == '+' {
            s.skip(1)
        } else {
            s
        };
        let k = digits_len(body, radix);
        if body.len() == 0 {
            Err(NumberError::InvalidDigit)
        } else if digits_number(body.take(k as int), radix) > max {
            Err(NumberError::Overflow)
        } else if k < body.len() {
            Err(NumberError::InvalidDigit)
        } else {
            Ok(digits_number(body, radix))
        }
    }
}

/// The value of `c` as a digit to the base `radix`.
pub fn digit(c: char, radix: u32) -> (r: Option<u32>)
    requires
        radix <= 36,
    ensures
        r is Some <==> digit_value(c, radix as nat) is Some,
        r is Some ==> r.unwrap() == digit_value(c, radix as nat).unwrap(),
        r is Some ==> r.unwrap() < radix,
{
    let code: u32 = c as u32;
    let v: u32 = if 48 <= code && code <= 57 {
        code - 48
    } else if 97 <= code && code <= 122 {
        code - 97 + 10
    } else if 65 <= code && code <= 90 {
        code - 65 + 10
    } else {
        36
    };
    if v < radix {
        Some(v)
    } else {
        None
    }
}

/// `digits_len` names the first character that is no digit: everything
/// before it is a digit, and it is none unless it is the end of the text.
pub proof fn lemma_digits_len(s: Seq<char>, radix: nat)
    ensures
        digits_len(s, radix) <= s.len(),
        forall|j: int| 0 <= j < digits_len(s, radix) ==> digit_value(#[trigger] s[j], radix) is Some,
        digits_len(s, radix) < s.len() ==> digit_value(s[digits_len(s, radix) as int], radix) is None,
    decreases s.len(),
{
    if s.len() > 0 && digit_value(s[0], radix) is Some {
        let rest = s.skip(1);
        lemma_digits_len(rest, radix);
        assert forall|j: int| 0 <= j < digits_len(s, radix) implies digit_value(
            #[trigger] s[j],
            radix,
        ) is Some by {
            if j > 0 {
                assert(s[j] == rest[j - 1]);
            }
        }
        if digits_len(s, radix) < s.len() {
            assert(rest[digits_len(rest, radix) as int] == s[digits_len(s, radix) as int]);
        }
    }
}

/// An index is where the digits end as soon as everything before it is a
/// digit and it is none itself.
pub proof fn lemma_digits_len_is(s: Seq<char>, radix: nat, i: int)
    requires
        0 <= i <= s.len(),
        forall|j: int| 0 <= j < i ==> digit_value(#[trigger] s[j], radix) is Some,
        i < s.len() ==> digit_value(s[i], radix) is None,
    ensures
        digits_len(s, radix) == i,
{
    lemma_digits_len(s, radix);
    let k = digits_len(s, radix) as int;
    if k < i {
        assert(digit_value(s[k], radix) is Some);
    }
}

/// A longer run of digits writes a number that is no smaller.
pub proof fn lemma_digits_number_grows(s: Seq<char>, radix: nat, a: int, b: int)
    requires
        radix >= 1,
        0 <= a <= b <= s.len(),
    ensures
        digits_number(s.take(a), radix) <= digits_number(s.take(b), radix),
    decreases b - a,
{
    if a < b {
        lemma_digits_number_grows(s, radix, a, b - 1);
        assert(s.take(b).drop_last() =~= s.take(b - 1));
        let shorter = digits_number(s.take(b - 1), radix);
        assert(shorter <= shorter * radix) by (nonlinear_arith)
            requires
                radix >= 1,
        ;
    }
}

/// Reads `s` as a number to the base `radix` that is at most `max`.
pub fn parse_number(s: &str, radix: u32, max: u64) -> (r: Result<u64, NumberError>)
    requires
        2 <= radix <= 36,
    ensures
        r == (match read_number(s@, radix as nat, max as nat) {
            Ok(v) => Ok::<u64, NumberError>(v as u64),
            Err(e) => Err(e),
        }),
        r is Ok ==> r.unwrap() <= max && read_number(s@, radix as nat, max as nat) == Ok::<
            nat,
            NumberError,
        >(r.unwrap() as nat),
{
    let n = s.unicode_len();
    if n == 0 {
        return Err(NumberError::Empty);
    }
    let start: usize = if s.get_char(0) == '+' {
        1
    } else {
        0
    };
    let ghost body = s@.skip(start as int);
    assert(s@.skip(0) =~= s@);
    if start == n {
        return Err(NumberError::InvalidDigit);
    }
    let mut acc: u64 = 0;
    let mut i: usize = start;
    while i < n
        invariant
            2 <= radix <= 36,
            n == s@.len(),
            start <= i <= n,
            start < n,
            start == (if s@[0] == '+' {
                1usize
            } else {
                0usize
            }),
            body == s@.skip(start as int),
            body == (if s@[0] == '+' {
                s@.skip(1)
            } else {
                s@
            }),
            forall|j: int| 0 <= j < i - start ==> digit_value(#[trigger] body[j], radix as nat) is Some,
            acc == digits_number(body.take(i - start), radix as nat),
            acc <= max,
        decreases n - i,
    {
        let c = s.get_char(i);
        assert(body[i - start] == c);
        match digit(c, radix) {
            None => {
                proof {
                    lemma_digits_len_is(body, radix as nat, i - start);
                }
                return Err(NumberError::InvalidDigit);
            },
            Some(d) => {
                assert(acc * radix <= u64::MAX * 36) by (nonlinear_arith)
                    requires
                        acc <= u64::MAX,
                        radix <= 36,
                ;
                let wide: u128 = acc as u128 * radix as u128 + d as u128;
                proof {
                    assert(body.take(i - start + 1).drop_last() =~= body.take(i - start));
                    assert(wide == digits_number(body.take(i - start + 1), radix as nat));
                }
                if wide > max as u128 {
                    proof {
                        lemma_digits_len(body, radix as nat);
                        let k = digits_len(body, radix as nat) as int;
                        if k < i - start + 1 {
                            assert(digit_value(body[k], radix as nat) is Some);
                        }
                        lemma_digits_number_grows(body, radix as nat, i - start + 1, k);
                    }
                    return Err(NumberError::Overflow);
                }
                acc = wide as u64;
            },
        }
        i += 1;
    }
    proof {
        lemma_digits_len_is(body, radix as nat, body.len() as int);
        assert(body.take(body.len() as int) =~= body);
    }
    Ok(acc)
}

/// Reads `s` as a decimal port number.
pub fn parse_u16(s: &str) -> (r: Result<u16, NumberError>)
    ensures
        r == (match read_number(s@, 10, 0xffff) {
            Ok(v) => Ok::<u16, NumberError>(v as u16),
            Err(e) => Err(e),
        }),
        r is Ok ==> read_number(s@, 10, 0xffff) == Ok::<nat, NumberError>(r.unwrap() as nat),
{
    match parse_number(s, 10, 0xffff) {
        Ok(v) => Ok(v as u16),
        Err(e) => Err(e),
    }
}

/// Reads `s` as a decimal number of 64 bits.
pub fn parse_u64(s: &str) -> (r: Result<u64, NumberError>)
    ensures
        r == (match read_number(s@, 10, u64::MAX as nat) {
            Ok(v) => Ok::<u64, NumberError>(v as u64),
            Err(e) => Err(e),
        }),
        r is Ok ==> read_number(s@, 10, u64::MAX as nat) == Ok::<nat, NumberError>(
            r.unwrap() as nat,
        ),
{
    parse_number(s, 10, u64::MAX)
}

/// Reads `s` as one octet in hexadecimal.
pub fn parse_hex_u8(s: &str) -> (r: Result<u8, NumberError>)
    ensures
        r == (match read_number(s@, 16, 0xff) {
            Ok(v) => Ok::<u8, NumberError>(v as u8),
            Err(e) => Err(e),
        }),
        r is Ok ==> read_number(s@, 16, 0xff) == Ok::<nat, NumberError>(r.unwrap() as nat),
{
    match parse_number(s, 16, 0xff) {
        Ok(v) => Ok(v as u8),
        Err(e) => Err(e),
    }
}

/// Whether two texts hold the same characters.
pub fn same_text(a: &str, b: &str) -> (r: bool)
    ensures
        r == (a@ == b@),
{
    let n = a.unicode_len();
    if n != b.unicode_len() {
        return false;
    }
    let mut i: usize = 0;
    while i < n
        invariant
            n == a@.len(),
            n == b@.len(),
            i <= n,
            forall|j: int| 0 <= j < i ==> a@[j] == b@[j],
        decreases n - i,
    {
        if a.get_char(i) != b.get_char(i) {
            return false;
        }
        i += 1;
    }
    assert(a@ =~= b@);
    true
}

/// Whether `c` is white space, as Unicode defines it.
pub open spec fn is_space(c: char) -> bool {
    let code = c as u32;
    ||| 0x09 <= code <= 0x0d
    ||| code == 0x20
    ||| code == 0x85
    ||| code == 0xa0
    ||| code == 0x1680
    ||| 0x2000 <= code <= 0x200a
    ||| code == 0x2028
    ||| code == 0x2029
    ||| code == 0x202f
    ||| code == 0x205f
    ||| code == 0x3000
}

/// Whether `c` is white space.
pub fn space(c: char) -> (r: bool)
    ensures
        r == is_space(c),
{
    let code: u32 = c as u32;
    (0x09 <= code && code <= 0x0d) || code == 0x20 || code == 0x85 || code == 0xa0 || code
        == 0x1680 || (0x2000 <= code && code <= 0x200a) || code == 0x2028 || code == 0x2029
        || code == 0x202f || code == 0x205f || code == 0x3000
}

/// `s` without the white space at its start.
pub open spec fn trim_start(s: Seq<char>) -> Seq<char>
    decreases s.len(),
{
    if s.len() > 0 && is_space(s[0]) {
        trim_start(s.skip(1))
    } else {
        s
    }
}

/// `s` without the white space at its end.
pub open spec fn trim_end(s: Seq<char>) -> Seq<char>
    decreases s.len(),
{
    if s.len() > 0 && is_space(s.last()) {
        trim_end(s.drop_last())
    } else {
        s
    }
}

/// `s` without the white space at its start and at its end.
pub open spec fn trimmed(s: Seq<char>) -> Seq<char> {
    trim_end(trim_start(s))
}

/// Cutting off `a` characters that are all white space, up to one that is
/// none, is `trim_start`.
pub proof fn lemma_trim_start_is(s: Seq<char>, a: int)
    requires
        0 <= a <= s.len(),
        forall|j: int| 0 <= j < a ==> is_space(#[trigger] s[j]),
        a < s.len() ==> !is_space(s[a]),
    ensures
        trim_start(s) == s.skip(a),
    decreases a,
{
    if a == 0 {
        assert(s.skip(0) =~= s);
    } else {
        let rest = s.skip(1);
        assert forall|j: int| 0 <= j < a - 1 implies is_space(#[trigger] rest[j]) by {
            assert(rest[j] == s[j + 1]);
        }
        lemma_trim_start_is(rest, a - 1);
        assert(rest.skip(a - 1) =~= s.skip(a));
    }
}

/// Keeping the first `b` characters, where all behind them are white space
/// and the last of them is none, is `trim_end`.
pub proof fn lemma_trim_end_is(s: Seq<char>, b: int)
    requires
        0 <= b <= s.len(),
        forall|j: int| b <= j < s.len() ==> is_space(#[trigger] s[j]),
        b > 0 ==> !is_space(s[b - 1]),
    ensures
        trim_end(s) == s.take(b),
    decreases s.len() - b,
{
    if b == s.len() {
        assert(s.take(b) =~= s);
    } else {
        let rest = s.drop_last();
        lemma_trim_end_is(rest, b);
        assert(rest.take(b) =~= s.take(b));
    }
}

/// Cuts the white space off both ends of `s`.
pub fn trim(s: &str) -> (r: &str)
    ensures
        r@ == trimmed(s@),
{
    let n = s.unicode_len();
    let mut a: usize = 0;
    while a < n && space(s.get_char(a))
        invariant
            n == s@.len(),
            a <= n,
            forall|j: int| 0 <= j < a ==> is_space(#[trigger] s@[j]),
        decreases n - a,
    {
        a += 1;
    }
    let mut b: usize = n;
    while b > a && space(s.get_char(b - 1))
        invariant
            n == s@.len(),
            a <= b <= n,
            forall|j: int| b <= j < n ==> is_space(#[trigger] s@[j]),
        decreases b,
    {
        b -= 1;
    }
    let r = s.substring_char(a, b);
    proof {
        lemma_trim_start_is(s@, a as int);
        let tail = s@.skip(a as int);
        assert forall|j: int| b - a <= j < tail.len() implies is_space(#[trigger] tail[j]) by {
            assert(tail[j] == s@[j + a]);
        }
        if b > a {
            assert(tail[b - a - 1] == s@[b - 1]);
        }
        lemma_trim_end_is(tail, b - a);
        assert(tail.take(b - a) =~= s@.subrange(a as int, b as int));
    }
    r
}

/// The character that writes the digit `d`, in lower case beyond nine.
pub open spec fn digit_char(d: nat) -> char {
    if d == 0 {
        '0'
    } else if d == 1 {
        '1'
    } else if d == 2 {
        '2'
    } else if d == 3 {
        '3'
    } else if d == 4 {
        '4'
    } else if d == 5 {
        '5'
    } else if d == 6 {
        '6'
    } else if d == 7 {
        '7'
    } else if d == 8 {
        '8'
    } else if d == 9 {
        '9'
    } else if d == 10 {
        'a'
    } else if d == 11 {
        'b'
    } else if d == 12 {
        'c'
    } else if d == 13 {
        'd'
    } else if d == 14 {
        'e'
    } else {
        'f'
    }
}

/// The digit `d` as a text of one character.
pub fn digit_text(d: u8) -> (s: &'static str)
    requires
        d < 16,
    ensures
        s@ == seq![digit_char(d as nat)],
{
    proof {
        reveal_strlit("0");
        reveal_strlit("1");
        reveal_strlit("2");
        reveal_strlit("3");
        reveal_strlit("4");
        reveal_strlit("5");
        reveal_strlit("6");
        reveal_strlit("7");
        reveal_strlit("8");
        reveal_strlit("9");
        reveal_strlit("a");
        reveal_strlit("b");
        reveal_strlit("c");
        reveal_strlit("d");
        reveal_strlit("e");
        reveal_strlit("f");
    }
    let s = if d == 0 {
        "0"
    } else if d == 1 {
        "1"
    } else if d == 2 {
        "2"
    } else if d == 3 {
        "3"
    } else if d == 4 {
        "4"
    } else if d == 5 {
        "5"
    } else if d == 6 {
        "6"
    } else if d == 7 {
        "7"
    } else if d == 8 {
        "8"
    } else if d == 9 {
        "9"
    } else if d == 10 {
        "a"
    } else if d == 11 {
        "b"
    } else if d == 12 {
        "c"
    } else if d == 13 {
        "d"
    } else if d == 14 {
        "e"
    } else {
        "f"
    };
    assert(s@ =~= seq![digit_char(d as nat)]);
    s
}

/// The number `n` written in decimal, without leading zeros.
pub open spec fn decimal_text(n: nat) -> Seq<char>
    decreases n,
{
    if n < 10 {
        seq![digit_char(n)]
    } else {
        decimal_text(n / 10) + seq![digit_char(n % 10)]
    }
}

/// Writes `n` in decimal.
pub fn decimal(n: u64) -> (s: String)
    ensures
        s@ == decimal_text(n as nat),
    decreases n,
{
    if n < 10 {
        digit_text(n as u8).to_owned()
    } else {
        let mut s = decimal(n / 10);
        s.append(digit_text((n % 10) as u8));
        s
    }
}

/// The octet `octet` written as two hexadecimal digits.
pub open spec fn hex_pair(octet: u8) -> Seq<char> {
    seq![digit_char((octet / 16) as nat), digit_char((octet % 16) as nat)]
}

/// Writes `octet` as two hexadecimal digits.
pub fn hex(octet: u8) -> (s: String)
    ensures
        s@ == hex_pair(octet),
{
    let mut s = digit_text(octet / 16).to_owned();
    s.append(digit_text(octet % 16));
    assert(s@ =~= hex_pair(octet));
    s
}

/// A digit written out reads back as itself.
pub proof fn lemma_digit_char(d: nat, radix: nat)
    requires
        d < radix <= 16,
    ensures
        digit_value(digit_char(d), radix) == Some(d),
        digit_char(d) != '+',
        digit_char(d) != ':',
        digit_char(d) != '-',
{
}

/// A number written in decimal is digits throughout, and they write it.
pub proof fn lemma_decimal_text(n: nat)
    ensures
        decimal_text(n).len() > 0,
        forall|j: int|
            0 <= j < decimal_text(n).len() ==> digit_value(#[trigger] decimal_text(n)[j], 10)
                is Some,
        digits_number(decimal_text(n), 10) == n,
    decreases n,
{
    let t = decimal_text(n);
    if n < 10 {
        lemma_digit_char(n, 10);
        assert(t.drop_last() =~= Seq::<char>::empty());
        assert(digits_number(t.drop_last(), 10) == 0);
    } else {
        let shorter = decimal_text(n / 10);
        lemma_decimal_text(n / 10);
        lemma_digit_char(n % 10, 10);
        assert(t.drop_last() =~= shorter);
        assert(t.last() == digit_char(n % 10));
        assert forall|j: int| 0 <= j < t.len() implies digit_value(#[trigger] t[j], 10)
            is Some by {
            if j < shorter.len() {
                assert(t[j] == shorter[j]);
            }
        }
    }
}

/// A number written in decimal reads back as itself.
pub proof fn lemma_decimal_reads_back(n: nat, max: nat)
    requires
        n <= max,
    ensures
        read_number(decimal_text(n), 10, max) == Ok::<nat, NumberError>(n),
{
    let t = decimal_text(n);
    lemma_decimal_text(n);
    lemma_digits_len_is(t, 10, t.len() as int);
    assert(digit_value(t[0], 10) is Some);
    assert(t.take(t.len() as int) =~= t);
}

/// An octet written as two hexadecimal digits reads back as itself.
pub proof fn lemma_hex_reads_back(octet: u8)
    ensures
        read_number(hex_pair(octet), 16, 0xff) == Ok::<nat, NumberError>(octet as nat),
        hex_pair(octet).len() == 2,
        !hex_pair(octet).contains(':'),
{
    let t = hex_pair(octet);
    let high = (octet / 16) as nat;
    let low = (octet % 16) as nat;
    lemma_digit_char(high, 16);
    lemma_digit_char(low, 16);
    lemma_digits_len_is(t, 16, 2);
    assert(t.take(2) =~= t);
    assert(t.drop_last() =~= seq![digit_char(high)]);
    assert(t.drop_last().drop_last() =~= Seq::<char>::empty());
    assert(digits_number(t.drop_last().drop_last(), 16) == 0);
    assert(digits_number(t.drop_last(), 16) == high);
    assert(digits_number(t, 16) == high * 16 + low);
}

} // verus!
