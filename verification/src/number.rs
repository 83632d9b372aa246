//! Numbers written in text.
use vstd::prelude::*;

verus! {

/// The value of a digit in bases up to sixteen, or sixteen for another character.
pub open spec fn digit_value(c: char) -> int {
    if '0' <= c && c <= '9' {
        c as int - '0' as int
    } else if 'a' <= c && c <= 'f' {
        c as int - 'a' as int + 10
    } else if 'A' <= c && c <= 'F' {
        c as int - 'A' as int + 10
    } else {
        16
    }
}

/// Only digits of a base.
pub open spec fn all_digits(s: Seq<char>, radix: int) -> bool {
    forall|i: int| 0 <= i < s.len() ==> digit_value(#[trigger] s[i]) < radix
}

/// The number that digits write.
pub open spec fn digits_value(s: Seq<char>, radix: int) -> int
    decreases s.len(),
{
    if s.len() == 0 {
        0
    } else {
        digits_value(s.drop_last(), radix) * radix + digit_value(s.last())
    }
}

/// Without one plus sign in front.
pub open spec fn unsigned_part(s: Seq<char>) -> Seq<char> {
    if s.len() > 0 && s[0] == '+' {
        s.skip(1)
    } else {
        s
    }
}

/// The unsigned number up to `max` that a text writes, with an optional plus sign.
pub open spec fn number(s: Seq<char>, radix: int, max: int) -> Option<int> {
    let digits = unsigned_part(s);
    if digits.len() == 0 || !all_digits(digits, radix) || digits_value(digits, radix) > max {
        None
    } else {
        Some(digits_value(digits, radix))
    }
}

/// Why a text writes no number.
#[derive(Clone, Copy, Debug, PartialEq, Eq, Structural)]
pub enum NumberError {
    /// No text.
    Empty,
    /// A character that is no digit, or a sign alone.
    InvalidDigit,
    /// A number above the limit.
    TooLarge,
}

impl NumberError {
    /// The message shown to the user.
    pub fn text(self) -> (r: &'static str)
        ensures
            r@ == self.message(),
    {
        match self {
            NumberError::Empty => "cannot parse integer from empty string",
            NumberError::InvalidDigit => "invalid digit found in string",
            NumberError::TooLarge => "number too large to fit in target type",
        }
    }

    /// The text of each error.
    pub open spec fn message(self) -> Seq<char> {
        match self {
            NumberError::Empty => "cannot parse integer from empty string"@,
            NumberError::InvalidDigit => "invalid digit found in string"@,
            NumberError::TooLarge => "number too large to fit in target type"@,
        }
    }
}

/// Whether the character at `k` is no digit, behind digits of a number that is not above the
/// limit.
pub open spec fn stops_at(digits: Seq<char>, radix: int, max: int, k: int) -> bool {
    &&& 0 <= k < digits.len()
    &&& all_digits(digits.take(k), radix)
    &&& digits_value(digits.take(k), radix) <= max
    &&& digit_value(digits[k]) >= radix
}

/// Why a text writes no number up to `max`: what is wrong first, from the left.
pub open spec fn problem(s: Seq<char>, radix: int, max: int) -> NumberError {
    let digits = unsigned_part(s);
    if s.len() == 0 {
        NumberError::Empty
    } else if digits.len() == 0 || exists|k: int| #[trigger] stops_at(digits, radix, max, k) {
        NumberError::InvalidDigit
    } else {
        NumberError::TooLarge
    }
}

/// The digit of a number below sixteen.
pub open spec fn digit_char(d: int) -> char {
    if d == 0 {
        '0'
    } else if d == 1 {
        '1'
    } else if d == 2 {
        '2'
    } else if d == 3 {
        '3'
    } else if d == 4 {
        '4'
    } else if d == 5 {
        '5'
    } else if d == 6 {
        '6'
    } else if d == 7 {
        '7'
    } else if d == 8 {
        '8'
    } else if d == 9 {
        '9'
    } else if d == 10 {
        'a'
    } else if d == 11 {
        'b'
    } else if d == 12 {
        'c'
    } else if d == 13 {
        'd'
    } else if d == 14 {
        'e'
    } else {
        'f'
    }
}

/// A number in decimal, without leading zeros.
pub open spec fn decimal(n: int) -> Seq<char>
    decreases n,
{
    if n < 10 {
        seq![digit_char(n)]
    } else {
        decimal(n / 10).push(digit_char(n % 10))
    }
}

/// The last `width` hexadecimal digits of a number, in lower case.
pub open spec fn hexadecimal(n: int, width: int) -> Seq<char>
    decreases width,
{
    if width <= 0 {
        Seq::empty()
    } else {
        hexadecimal(n / 16, width - 1).push(digit_char(n % 16))
    }
}

/// The value of a digit in bases up to sixteen, or sixteen for another character.
pub fn digit(c: char) -> (d: u64)
    ensures
        d == digit_value(c),
        d <= 16,
{
    let v: u32 = c as u32;
    if '0' <= c && c <= '9' {
        (v - 48) as u64
    } else if 'a' <= c && c <= 'f' {
        (v - 97 + 10) as u64
    } else if 'A' <= c && c <= 'F' {
        (v - 65 + 10) as u64
    } else {
        16
    }
}

/// The digit of a value below sixteen.
fn char_of(d: u64) -> (c: char)
    requires
        d < 16,
    ensures
        c == digit_char(d as int),
{
    match d {
        0 => '0',
        1 => '1',
        2 => '2',
        3 => '3',
        4 => '4',
        5 => '5',
        6 => '6',
        7 => '7',
        8 => '8',
        9 => '9',
        10 => 'a',
        11 => 'b',
        12 => 'c',
        13 => 'd',
        14 => 'e',
        _ => 'f',
    }
}

/// More digits make no smaller number.
proof fn lemma_value_grows(s: Seq<char>, k: int, radix: int)
    requires
        0 <= k <= s.len(),
        2 <= radix <= 16,
        all_digits(s, radix),
    ensures
        0 <= digits_value(s.take(k), radix) <= digits_value(s, radix),
    decreases s.len(),
{
    if k < s.len() {
        let front = s.drop_last();
        assert(all_digits(front, radix)) by {
            assert forall|i: int| 0 <= i < front.len() implies digit_value(#[trigger] front[i])
                < radix by {
                assert(front[i] == s[i]);
            }
        }
        lemma_value_grows(front, k, radix);
        assert(front.take(k) =~= s.take(k));
        let v = digits_value(front, radix);
        assert(v <= v * radix) by (nonlinear_arith)
            requires
                v >= 0,
                radix >= 2,
        ;
    } else {
        assert(s.take(k) =~= s);
        if s.len() > 0 {
            let front = s.drop_last();
            assert(all_digits(front, radix)) by {
                assert forall|i: int| 0 <= i < front.len() implies digit_value(#[trigger] front[i])
                    < radix by {
                    assert(front[i] == s[i]);
                }
            }
            lemma_value_grows(front, front.len() as int, radix);
            assert(front.take(front.len() as int) =~= front);
            let v = digits_value(front, radix);
            assert(0 <= v * radix) by (nonlinear_arith)
                requires
                    v >= 0,
                    radix >= 2,
            ;
        }
    }
}

/// The unsigned number up to `max` that a text writes in a base of ten or sixteen.
pub fn parse(s: &[char], radix: u64, max: u64) -> (r: Result<u64, NumberError>)
    requires
        radix == 10 || radix == 16,
    ensures
        match number(s@, radix as int, max as int) {
            Some(v) => r is Ok && r->Ok_0 == v,
            None => r is Err && r->Err_0 == problem(s@, radix as int, max as int),
        },
{
    let from: usize = if s.len() > 0 && s[0] == '+' {
        1
    } else {
        0
    };
    let ghost digits = unsigned_part(s@);
    proof {
        assert(digits =~= s@.skip(from as int));
    }
    if s.len() == 0 {
        return Err(NumberError::Empty);
    }
    if from == s.len() {
        return Err(NumberError::InvalidDigit);
    }
    let mut value: u64 = 0;
    let mut i: usize = from;
    proof {
        assert(digits.take(0) =~= Seq::<char>::empty());
    }
    while i < s.len()
        invariant
            radix == 10 || radix == 16,
            from <= i <= s@.len(),
            digits == s@.skip(from as int),
            digits == unsigned_part(s@),
            digits.len() > 0,
            forall|k: int| 0 <= k < i - from ==> digit_value(#[trigger] digits[k]) < radix,
            value == digits_value(digits.take(i - from), radix as int),
            value <= max,
        decreases s@.len() - i,
    {
        let d: u64 = digit(s[i]);
        proof {
            assert(digits[i - from] == s@[i as int]);
            assert(digits.take(i - from + 1).drop_last() =~= digits.take(i - from));
        }
        if d >= radix {
            proof {
                assert(stops_at(digits, radix as int, max as int, i - from));
            }
            return Err(NumberError::InvalidDigit);
        }
        if d > max || value > (max - d) / radix {
            proof {
                let next = i - from + 1;
                assert(value * radix >= 0) by (nonlinear_arith)
                    requires
                        value >= 0,
                        radix >= 0,
                ;
                if d <= max {
                    let q = (max - d) / (radix as int);
                    assert(max - d < q * radix + radix) by (nonlinear_arith)
                        requires
                            q == (max - d) / (radix as int),
                            radix > 0,
                    ;
                    assert(value * radix >= (q + 1) * radix) by (nonlinear_arith)
                        requires
                            value >= q + 1,
                            radix > 0,
                    ;
                    assert((q + 1) * radix == q * radix + radix) by (nonlinear_arith);
                }
                assert(digits_value(digits.take(next), radix as int) > max);
                if all_digits(digits, radix as int) {
                    lemma_value_grows(digits, next, radix as int);
                }
                assert forall|k: int| !#[trigger] stops_at(digits, radix as int, max as int, k) by {
                    if stops_at(digits, radix as int, max as int, k) && k >= next {
                        lemma_value_grows(digits.take(k), next, radix as int);
                        assert(digits.take(k).take(next) =~= digits.take(next));
                    }
                }
            }
            return Err(NumberError::TooLarge);
        }
        proof {
            let q = (max - d) / (radix as int);
            assert(value * radix <= q * radix) by (nonlinear_arith)
                requires
                    value <= q,
                    radix > 0,
            ;
            assert(q * radix <= max - d) by (nonlinear_arith)
                requires
                    q == (max - d) / (radix as int),
                    radix > 0,
            ;
        }
        value = value * radix + d;
        i = i + 1;
    }
    proof {
        assert(digits.take(i - from) =~= digits);
    }
    Ok(value)
}

/// A number of sixteen bits in decimal.
pub fn parse_u16(s: &[char]) -> (r: Result<u16, NumberError>)
    ensures
        match number(s@, 10, 65535) {
            Some(v) => r is Ok && r->Ok_0 == v,
            None => r is Err && r->Err_0 == problem(s@, 10, 65535),
        },
{
    match parse(s, 10, 65535) {
        Ok(v) => Ok(v as u16),
        Err(e) => Err(e),
    }
}

/// A number of 32 bits in decimal.
pub fn parse_u32(s: &[char]) -> (r: Result<u32, NumberError>)
    ensures
        match number(s@, 10, 0xffff_ffff) {
            Some(v) => r is Ok && r->Ok_0 == v,
            None => r is Err && r->Err_0 == problem(s@, 10, 0xffff_ffff),
        },
{
    match parse(s, 10, 0xffff_ffff) {
        Ok(v) => Ok(v as u32),
        Err(e) => Err(e),
    }
}

/// A size in decimal.
pub fn parse_usize(s: &[char]) -> (r: Result<usize, NumberError>)
    ensures
        match number(s@, 10, usize::MAX as int) {
            Some(v) => r is Ok && r->Ok_0 == v,
            None => r is Err && r->Err_0 == problem(s@, 10, usize::MAX as int),
        },
{
    match parse(s, 10, usize::MAX as u64) {
        Ok(v) => Ok(v as usize),
        Err(e) => Err(e),
    }
}

/// The decimal digits of a number behind `out`.
fn push_decimal(out: &mut String, n: u64)
    ensures
        final(out)@ == old(out)@ + decimal(n as int),
    decreases n,
{
    if n >= 10 {
        push_decimal(out, n / 10);
    }
    out.push(char_of(n % 10));
    proof {
        if n < 10 {
            assert(old(out)@ + decimal(n as int) =~= old(out)@.push(digit_char(n as int)));
        } else {
            assert(old(out)@ + decimal(n as int) =~= (old(out)@ + decimal(n as int / 10)).push(
                digit_char(n as int % 10),
            ));
        }
    }
}

/// A number in decimal.
pub fn decimal_text(n: u64) -> (s: String)
    ensures
        s@ == decimal(n as int),
{
    let mut s = String::new();
    push_decimal(&mut s, n);
    proof {
        assert(Seq::<char>::empty() + decimal(n as int) =~= decimal(n as int));
    }
    s
}

/// Hexadecimal digits behind `out`.
fn push_hexadecimal(out: &mut String, n: u64, width: usize)
    ensures
        final(out)@ == old(out)@ + hexadecimal(n as int, width as int),
    decreases width,
{
    if width > 0 {
        push_hexadecimal(out, n / 16, width - 1);
        out.push(char_of(n % 16));
        proof {
            assert(old(out)@ + hexadecimal(n as int, width as int) =~= (old(out)@ + hexadecimal(
                n as int / 16,
                width - 1,
            )).push(digit_char(n as int % 16)));
        }
    } else {
        proof {
            assert(old(out)@ + Seq::<char>::empty() =~= old(out)@);
        }
    }
}

/// The last `width` hexadecimal digits of a number, in lower case.
pub fn hexadecimal_text(n: u64, width: usize) -> (s: String)
    ensures
        s@ == hexadecimal(n as int, width as int),
{
    let mut s = String::new();
    push_hexadecimal(&mut s, n, width);
    proof {
        assert(Seq::<char>::empty() + hexadecimal(n as int, width as int) =~= hexadecimal(
            n as int,
            width as int,
        ));
    }
    s
}

/// The decimal text of a number, read back, is the number.
pub proof fn law_decimal_reads_back(n: int, max: int)
    requires
        0 <= n <= max,
    ensures
        number(decimal(n), 10, max) == Some(n),
{
    lemma_decimal(n);
    assert(decimal(n)[0] != '+') by {
        assert(digit_value(decimal(n)[0]) < 10);
    }
}

/// The digits of a decimal text.
pub proof fn lemma_decimal(n: int)
    requires
        0 <= n,
    ensures
        decimal(n).len() > 0,
        all_digits(decimal(n), 10),
        digits_value(decimal(n), 10) == n,
    decreases n,
{
    if n >= 10 {
        lemma_decimal(n / 10);
        let front = decimal(n / 10);
        let s = decimal(n);
        assert(s.drop_last() =~= front);
        assert forall|i: int| 0 <= i < s.len() implies digit_value(#[trigger] s[i]) < 10 by {
            if i < front.len() {
                assert(s[i] == front[i]);
            }
        }
    } else {
        let s = decimal(n);
        assert(s.drop_last() =~= Seq::<char>::empty());
        reveal_with_fuel(digits_value, 2);
    }
}

/// A number that is read lies between zero and its limit.
pub proof fn lemma_number_range(s: Seq<char>, radix: int, max: int)
    requires
        2 <= radix <= 16,
    ensures
        number(s, radix, max) is Some ==> 0 <= number(s, radix, max)->Some_0 <= max,
{
    let digits = unsigned_part(s);
    if number(s, radix, max) is Some {
        lemma_value_grows(digits, 0, radix);
    }
}

/// A power of a base.
pub open spec fn power(base: int, n: int) -> int
    decreases n,
{
    if n <= 0 {
        1
    } else {
        base * power(base, n - 1)
    }
}

/// Hexadecimal digits of a fixed number read back as the number, where it is small enough for
/// them, and as many as were asked for come.
pub proof fn law_hexadecimal_reads_back(n: int, width: int, max: int)
    requires
        0 <= n <= max,
        1 <= width,
        n < power(16, width),
    ensures
        hexadecimal(n, width).len() == width,
        number(hexadecimal(n, width), 16, max) == Some(n),
{
    lemma_hexadecimal(n, width);
    assert(hexadecimal(n, width)[0] != '+') by {
        assert(digit_value(hexadecimal(n, width)[0]) < 16);
    }
}

/// The digits of a hexadecimal text.
proof fn lemma_hexadecimal(n: int, width: int)
    requires
        0 <= n,
        0 <= width,
        n < power(16, width),
    ensures
        hexadecimal(n, width).len() == width,
        all_digits(hexadecimal(n, width), 16),
        digits_value(hexadecimal(n, width), 16) == n,
    decreases width,
{
    if width > 0 {
        assert(n / 16 < power(16, width - 1));
        lemma_hexadecimal(n / 16, width - 1);
        let front = hexadecimal(n / 16, width - 1);
        let s = hexadecimal(n, width);
        assert(s.drop_last() =~= front);
        assert(s.last() == digit_char(n % 16));
        assert(digit_value(s.last()) == n % 16);
        assert forall|i: int| 0 <= i < s.len() implies digit_value(#[trigger] s[i]) < 16 by {
            if i < front.len() {
                assert(s[i] == front[i]);
            }
        }
        assert(16 * (n / 16) + n % 16 == n);
    }
}

/// A digit is what it is called, in upper and in lower case, and nothing else is a digit.
pub proof fn law_digits(c: char)
    ensures
        digit_value('0') == 0 && digit_value('1') == 1 && digit_value('2') == 2,
        digit_value('3') == 3 && digit_value('4') == 4 && digit_value('5') == 5,
        digit_value('6') == 6 && digit_value('7') == 7 && digit_value('8') == 8,
        digit_value('9') == 9 && digit_value('a') == 10 && digit_value('b') == 11,
        digit_value('c') == 12 && digit_value('d') == 13 && digit_value('e') == 14,
        digit_value('f') == 15 && digit_value('A') == 10 && digit_value('B') == 11,
        digit_value('C') == 12 && digit_value('D') == 13 && digit_value('E') == 14,
        digit_value('F') == 15,
        digit_value(c) < 16 <==> ('0' <= c && c <= '9') || ('a' <= c && c <= 'f') || ('A' <= c
            && c <= 'F'),
{
}

} // verus!
