//! Text of numbers, as the reports and the exported log print them.
//!
//! Every function here returns an owned `String`; longer texts are built by
//! appending such pieces in order, so that a text's specification is the sum of
//! the specifications of its pieces.

use vstd::prelude::*;

verus! {

/// `String::push` of the standard library appends one character at the end of
/// the string and changes nothing else.
pub assume_specification[ String::push ](s: &mut String, ch: char)
    ensures
        final(s)@ == old(s)@.push(ch),
;

/// The contents of a string that may be missing.
pub open spec fn optional(s: Option<String>) -> Option<Seq<char>> {
    match s {
        Some(t) => Some(t@),
        None => None,
    }
}

/// A result whose error is a text, as specifications see it.
pub open spec fn error_view<T>(r: Result<T, String>) -> Result<T, Seq<char>> {
    match r {
        Ok(v) => Ok(v),
        Err(e) => Err(e@),
    }
}

/// The character of a digit below sixteen, letters in lower case.
pub open spec fn digit_char(d: nat) -> char {
    if d < 10 {
        (48 + d) as char
    } else {
        (87 + d) as char
    }
}

/// `n` in base ten, without leading zeros.
pub open spec fn decimal(n: nat) -> Seq<char>
    decreases n,
{
    if n < 10 {
        seq![digit_char(n)]
    } else {
        decimal(n / 10).push(digit_char(n % 10))
    }
}

/// `n` in base sixteen, without leading zeros.
pub open spec fn hexadecimal(n: nat) -> Seq<char>
    decreases n,
{
    if n < 16 {
        seq![digit_char(n)]
    } else {
        hexadecimal(n / 16).push(digit_char(n % 16))
    }
}

/// `s` with as many `fill` characters in front as make it `width` long.
pub open spec fn padded_start(s: Seq<char>, width: nat, fill: char) -> Seq<char> {
    if s.len() < width {
        Seq::new((width - s.len()) as nat, |i: int| fill) + s
    } else {
        s
    }
}

/// `s` followed by as many spaces as make it `width` long.
pub open spec fn padded_end(s: Seq<char>, width: nat) -> Seq<char> {
    if s.len() < width {
        s + Seq::new((width - s.len()) as nat, |i: int| ' ')
    } else {
        s
    }
}

/// `n` in base ten, with leading zeros up to `width` digits.
pub open spec fn zero_decimal(n: nat, width: nat) -> Seq<char> {
    padded_start(decimal(n), width, '0')
}

/// `n` in base sixteen, with leading zeros up to `width` digits.
pub open spec fn zero_hex(n: nat, width: nat) -> Seq<char> {
    padded_start(hexadecimal(n), width, '0')
}

/// `n` in base ten with leading zeros; a minus sign takes one of the `width`
/// places.
pub open spec fn zero_signed(n: int, width: nat) -> Seq<char> {
    if n < 0 {
        seq!['-'] + zero_decimal((-n) as nat, if width > 0 { (width - 1) as nat } else { 0 })
    } else {
        zero_decimal(n as nat, width)
    }
}

/// A count of tenths as a number with one decimal place.
pub open spec fn one_place(tenths: int) -> Seq<char> {
    if tenths < 0 {
        seq!['-'] + decimal((-tenths) as nat / 10) + seq!['.', digit_char((-tenths) as nat % 10)]
    } else {
        decimal(tenths as nat / 10) + seq!['.', digit_char(tenths as nat % 10)]
    }
}

/// A count of hundredths as a number with two decimal places.
pub open spec fn two_places(hundredths: nat) -> Seq<char> {
    decimal(hundredths / 100) + "."@ + zero_decimal(hundredths % 100, 2)
}

/// The number that a sequence of decimal digits stands for.
pub open spec fn decimal_value(s: Seq<char>) -> nat
    decreases s.len(),
{
    if s.len() == 0 {
        0
    } else {
        (decimal_value(s.drop_last()) * 10 + (s.last() as nat - 48)) as nat
    }
}

/// `c` is one of the ten decimal digits.
pub open spec fn is_decimal_digit(c: char) -> bool {
    '0' <= c && c <= '9'
}

/// A number's decimal text is made of digits only, and those digits stand for
/// that number.
pub proof fn decimal_reads_back(n: nat)
    ensures
        decimal(n).len() > 0,
        forall|i: int| 0 <= i < decimal(n).len() ==> is_decimal_digit(#[trigger] decimal(n)[i]),
        decimal_value(decimal(n)) == n,
    decreases n,
{
    if n < 10 {
        assert(decimal(n).drop_last() =~= Seq::empty());
        assert(decimal_value(decimal(n).drop_last()) == 0);
    } else {
        decimal_reads_back(n / 10);
        assert(decimal(n).drop_last() =~= decimal(n / 10));
    }
}

/// The character of a digit below sixteen.
pub fn digit(d: u8) -> (r: char)
    requires
        d < 16,
    ensures
        r == digit_char(d as nat),
{
    if d < 10 {
        (48 + d) as char
    } else {
        (87 + d) as char
    }
}

/// `n` in base ten.
pub fn decimal_text(n: u64) -> (r: String)
    ensures
        r@ == decimal(n as nat),
    decreases n,
{
    let mut s = if n < 10 { String::new() } else { decimal_text(n / 10) };
    s.push(digit((n % 10) as u8));
    proof {
        if n < 10 {
            assert(s@ =~= seq![digit_char(n as nat)]);
        }
    }
    s
}

/// `n` in base sixteen.
pub fn hex_text(n: u64) -> (r: String)
    ensures
        r@ == hexadecimal(n as nat),
    decreases n,
{
    let mut s = if n < 16 { String::new() } else { hex_text(n / 16) };
    s.push(digit((n % 16) as u8));
    proof {
        if n < 16 {
            assert(s@ =~= seq![digit_char(n as nat)]);
        }
    }
    s
}

/// `n` copies of `fill`.
fn repeated(fill: char, n: usize) -> (r: String)
    ensures
        r@ == Seq::new(n as nat, |i: int| fill),
{
    let mut s = String::new();
    for k in 0..n
        invariant
            s@ == Seq::new(k as nat, |i: int| fill),
    {
        s.push(fill);
        assert(s@ =~= Seq::new((k + 1) as nat, |i: int| fill));
    }
    s
}

/// `s` with `fill` in front, up to `width` characters.
pub fn pad_start(s: &str, width: usize, fill: char) -> (r: String)
    ensures
        r@ == padded_start(s@, width as nat, fill),
{
    let len: usize = s.unicode_len();
    if len < width {
        let mut out = repeated(fill, width - len);
        out.append(s);
        out
    } else {
        s.to_owned()
    }
}

/// `s` followed by spaces, up to `width` characters.
pub fn pad_end(s: &str, width: usize) -> (r: String)
    ensures
        r@ == padded_end(s@, width as nat),
{
    let mut out = s.to_owned();
    let len: usize = s.unicode_len();
    if len < width {
        let gap = repeated(' ', width - len);
        out.append(gap.as_str());
    }
    out
}

/// `n` in base ten with leading zeros.
pub fn zero_decimal_text(n: u64, width: usize) -> (r: String)
    ensures
        r@ == zero_decimal(n as nat, width as nat),
{
    let s = decimal_text(n);
    pad_start(s.as_str(), width, '0')
}

/// `n` in base sixteen with leading zeros.
pub fn zero_hex_text(n: u64, width: usize) -> (r: String)
    ensures
        r@ == zero_hex(n as nat, width as nat),
{
    let s = hex_text(n);
    pad_start(s.as_str(), width, '0')
}

/// The absolute value of `n`.
fn magnitude(n: i64) -> (r: u64)
    ensures
        r == if n < 0 { -n } else { n as int },
{
    if n < 0 {
        (-(n + 1)) as u64 + 1
    } else {
        n as u64
    }
}

/// `n` in base ten with leading zeros, the sign counted in `width`.
pub fn zero_signed_text(n: i64, width: usize) -> (r: String)
    ensures
        r@ == zero_signed(n as int, width as nat),
{
    if n < 0 {
        let mut s = String::new();
        s.push('-');
        assert(s@ =~= seq!['-']);
        let digits = zero_decimal_text(magnitude(n), if width > 0 { width - 1 } else { 0 });
        s.append(digits.as_str());
        s
    } else {
        zero_decimal_text(n as u64, width)
    }
}

/// A count of tenths with one decimal place.
pub fn one_place_text(tenths: i64) -> (r: String)
    ensures
        r@ == one_place(tenths as int),
{
    let m = magnitude(tenths);
    let mut s = String::new();
    if tenths < 0 {
        s.push('-');
    }
    let whole = decimal_text(m / 10);
    s.append(whole.as_str());
    let ghost head = s@;
    s.push('.');
    s.push(digit((m % 10) as u8));
    proof {
        assert(s@ =~= head + seq!['.', digit_char(m as nat % 10)]);
        assert(s@ =~= one_place(tenths as int));
    }
    s
}

/// A count of hundredths with two decimal places.
pub fn two_places_text(hundredths: u64) -> (r: String)
    ensures
        r@ == two_places(hundredths as nat),
{
    let mut s = decimal_text(hundredths / 100);
    s.append(".");
    let cents = zero_decimal_text(hundredths % 100, 2);
    s.append(cents.as_str());
    s
}

/// Bytes in base sixteen, two digits each, separated by commas.
pub open spec fn hex_bytes(data: Seq<u8>) -> Seq<char>
    decreases data.len(),
{
    if data.len() == 0 {
        Seq::empty()
    } else if data.len() == 1 {
        zero_hex(data[0] as nat, 2)
    } else {
        hex_bytes(data.drop_last()) + ", "@ + zero_hex(data.last() as nat, 2)
    }
}

/// A list of bytes in brackets.
pub open spec fn hex_list(data: Seq<u8>) -> Seq<char> {
    "["@ + hex_bytes(data) + "]"@
}

/// Writes a list of bytes in brackets.
pub fn hex_list_text(data: &[u8]) -> (r: String)
    ensures
        r@ == hex_list(data@),
{
    let mut inner = String::new();
    let n: usize = data.len();
    assert(data@.take(0) =~= Seq::empty());
    for i in 0..n
        invariant
            n == data@.len(),
            inner@ == hex_bytes(data@.take(i as int)),
    {
        let ghost next = data@.take(i + 1);
        assert(next.drop_last() =~= data@.take(i as int));
        let ghost before = inner@;
        if i > 0 {
            inner.append(", ");
        } else {
            assert(before =~= Seq::empty());
        }
        inner.append(zero_hex_text(data[i] as u64, 2).as_str());
        assert(inner@ =~= hex_bytes(next));
    }
    assert(data@.take(n as int) =~= data@);
    let mut out = "[".to_owned();
    out.append(inner.as_str());
    out.append("]");
    out
}

/// `part` stands in `t` at position `i`.
pub open spec fn stands_at(t: Seq<char>, i: int, part: Seq<char>) -> bool {
    0 <= i && i + part.len() <= t.len() && t.subrange(i, i + part.len()) == part
}

/// `t` starts with `part`.
pub open spec fn starts_with(t: Seq<char>, part: Seq<char>) -> bool {
    part.len() <= t.len() && t.take(part.len() as int) == part
}

/// `t` ends with `part`.
pub open spec fn ends_with(t: Seq<char>, part: Seq<char>) -> bool {
    part.len() <= t.len() && t.skip(t.len() - part.len()) == part
}

/// `part` stands somewhere in `t`.
pub open spec fn occurs(t: Seq<char>, part: Seq<char>) -> bool {
    exists|i: int| stands_at(t, i, part)
}

/// `longer` is `shorter` with `part` put in somewhere.
pub open spec fn inserted(longer: Seq<char>, shorter: Seq<char>, part: Seq<char>) -> bool {
    exists|i: int| is_inserted_at(longer, shorter, part, i)
}

/// `longer` is `shorter` with `part` put in before its character `i`.
pub open spec fn is_inserted_at(
    longer: Seq<char>,
    shorter: Seq<char>,
    part: Seq<char>,
    i: int,
) -> bool {
    0 <= i <= shorter.len() && longer == shorter.take(i) + part + shorter.skip(i)
}

/// A text without its middle part.
pub proof fn part_is_inserted(a: Seq<char>, part: Seq<char>, b: Seq<char>)
    ensures
        inserted(a + part + b, a + b, part),
{
    assert((a + b).take(a.len() as int) =~= a);
    assert((a + b).skip(a.len() as int) =~= b);
    assert(is_inserted_at(a + part + b, a + b, part, a.len() as int));
}

/// What occurs in a text occurs in every longer text.
pub broadcast proof fn occurs_in_longer(t: Seq<char>, more: Seq<char>, part: Seq<char>)
    requires
        occurs(t, part),
    ensures
        #[trigger] occurs(t + more, part),
{
    let i = choose|i: int| stands_at(t, i, part);
    assert((t + more).subrange(i, i + part.len()) =~= t.subrange(i, i + part.len()));
    assert(stands_at(t + more, i, part));
}

/// What occurs in a part of a text occurs in the text.
pub proof fn occurs_within(t: Seq<char>, middle: Seq<char>, part: Seq<char>)
    requires
        occurs(t, middle),
        occurs(middle, part),
    ensures
        occurs(t, part),
{
    let i = choose|i: int| stands_at(t, i, middle);
    let j = choose|j: int| stands_at(middle, j, part);
    assert(t.subrange(i + j, i + j + part.len()) =~= middle.subrange(j, j + part.len()));
    assert(stands_at(t, i + j, part));
}

/// A text occurs in itself.
pub broadcast proof fn occurs_in_itself(t: Seq<char>)
    ensures
        #[trigger] occurs(t, t),
{
    assert(t.subrange(0, t.len() as int) =~= t);
    assert(stands_at(t, 0, t));
}

/// The last piece of a text occurs in it.
pub broadcast proof fn occurs_at_end(a: Seq<char>, p: Seq<char>)
    ensures
        #[trigger] occurs(a + p, p),
{
    assert((a + p).subrange(a.len() as int, (a.len() + p.len()) as int) =~= p);
    assert(stands_at(a + p, a.len() as int, p));
}

/// The last two pieces of a text occur in it, one after the other.
pub broadcast proof fn two_occur_at_end(a: Seq<char>, p: Seq<char>, q: Seq<char>)
    ensures
        #[trigger] occurs(a + p + q, p + q),
{
    assert(a + p + q =~= a + (p + q));
    occurs_at_end(a, p + q);
}

/// The last three pieces of a text occur in it, one after the other.
pub broadcast proof fn three_occur_at_end(a: Seq<char>, p: Seq<char>, q: Seq<char>, r: Seq<char>)
    ensures
        #[trigger] occurs(a + p + q + r, p + q + r),
{
    assert(a + p + q + r =~= a + (p + q + r));
    occurs_at_end(a, p + q + r);
}

pub broadcast group group_occurs {
    occurs_in_longer,
    occurs_in_itself,
    occurs_at_end,
    two_occur_at_end,
    three_occur_at_end,
}

/// The value of a hexadecimal digit in lower case.
pub open spec fn hex_digit_value(c: char) -> int {
    if c <= '9' {
        c as int - 48
    } else {
        c as int - 97 + 10
    }
}

/// The number that a sequence of hexadecimal digits stands for.
pub open spec fn hex_value(s: Seq<char>) -> int
    decreases s.len(),
{
    if s.len() == 0 {
        0
    } else {
        hex_value(s.drop_last()) * 16 + hex_digit_value(s.last())
    }
}

/// `c` is a hexadecimal digit in lower case.
pub open spec fn is_hex_digit(c: char) -> bool {
    ('0' <= c && c <= '9') || ('a' <= c && c <= 'f')
}

/// A number's hexadecimal text is made of digits only, and those digits stand
/// for that number.
pub proof fn hexadecimal_reads_back(n: nat)
    ensures
        hexadecimal(n).len() > 0,
        forall|i: int| 0 <= i < hexadecimal(n).len() ==> is_hex_digit(#[trigger] hexadecimal(n)[i]),
        hex_value(hexadecimal(n)) == n,
    decreases n,
{
    let s = hexadecimal(n);
    assert(is_hex_digit(digit_char(n % 16)) && hex_digit_value(digit_char(n % 16)) == n % 16);
    if n < 16 {
        assert(s.drop_last() =~= Seq::empty());
    } else {
        hexadecimal_reads_back(n / 16);
        assert(s.drop_last() =~= hexadecimal(n / 16));
    }
    assert(hex_value(s.drop_last()) == n / 16);
    assert(s.last() == digit_char(n % 16));
    assert((n / 16) * 16 + n % 16 == n);
}

/// Padding adds nothing but the fill character, on its side only, and no more
/// than the width asks for.
pub proof fn padding_only_fills(s: Seq<char>, width: nat, fill: char)
    ensures
        padded_start(s, width, fill).len() == (if s.len() < width {
            width
        } else {
            s.len()
        }),
        padded_start(s, width, fill).skip(padded_start(s, width, fill).len() - s.len()) == s,
        forall|i: int|
            0 <= i < padded_start(s, width, fill).len() - s.len() ==> #[trigger] padded_start(
                s,
                width,
                fill,
            )[i] == fill,
        padded_end(s, width).len() == (if s.len() < width {
            width
        } else {
            s.len()
        }),
        padded_end(s, width).take(s.len() as int) == s,
        forall|i: int|
            s.len() <= i < padded_end(s, width).len() ==> #[trigger] padded_end(s, width)[i] == ' ',
{
    let a = padded_start(s, width, fill);
    assert(a.skip(a.len() - s.len()) =~= s);
    assert(padded_end(s, width).take(s.len() as int) =~= s);
}

proof fn zeros_add_nothing(k: nat, s: Seq<char>)
    ensures
        decimal_value(Seq::new(k, |i: int| '0') + s) == decimal_value(s),
        hex_value(Seq::new(k, |i: int| '0') + s) == hex_value(s),
    decreases s.len(), k,
{
    let zeros = Seq::new(k, |i: int| '0');
    let t = zeros + s;
    if s.len() > 0 {
        zeros_add_nothing(k, s.drop_last());
        assert(t.drop_last() =~= zeros + s.drop_last());
        assert(t.last() == s.last());
    } else if k > 0 {
        zeros_add_nothing((k - 1) as nat, s);
        assert(t.drop_last() =~= Seq::new((k - 1) as nat, |i: int| '0') + s);
        assert(t.last() == '0');
    } else {
        assert(t =~= s);
    }
}

/// A number with leading zeros still stands for that number, and has as many
/// digits as were asked for, or more if it needs more.
pub proof fn leading_zeros_read_back(n: nat, width: nat)
    ensures
        decimal_value(zero_decimal(n, width)) == n,
        zero_decimal(n, width).len() >= width,
        zero_decimal(n, width).len() > width ==> zero_decimal(n, width) == decimal(n),
        forall|i: int|
            0 <= i < zero_decimal(n, width).len() ==> is_decimal_digit(
                #[trigger] zero_decimal(n, width)[i],
            ),
        hex_value(zero_hex(n, width)) == n,
        zero_hex(n, width).len() >= width,
        zero_hex(n, width).len() > width ==> zero_hex(n, width) == hexadecimal(n),
        forall|i: int|
            0 <= i < zero_hex(n, width).len() ==> is_hex_digit(#[trigger] zero_hex(n, width)[i]),
{
    let d = decimal(n);
    let h = hexadecimal(n);
    decimal_reads_back(n);
    hexadecimal_reads_back(n);
    if d.len() < width {
        let k = (width - d.len()) as nat;
        zeros_add_nothing(k, d);
        assert forall|i: int| 0 <= i < zero_decimal(n, width).len() implies is_decimal_digit(
            #[trigger] zero_decimal(n, width)[i],
        ) by {
            if i >= k {
                assert(zero_decimal(n, width)[i] == d[i - k]);
            }
        }
    }
    if h.len() < width {
        let k = (width - h.len()) as nat;
        zeros_add_nothing(k, h);
        assert forall|i: int| 0 <= i < zero_hex(n, width).len() implies is_hex_digit(
            #[trigger] zero_hex(n, width)[i],
        ) by {
            if i >= k {
                assert(zero_hex(n, width)[i] == h[i - k]);
            }
        }
    }
}

/// A number below one hundred takes two digits with leading zeros.
pub proof fn two_digits(n: nat)
    requires
        n < 100,
    ensures
        zero_decimal(n, 2).len() == 2,
{
    reveal_with_fuel(decimal, 3);
}

/// The parts of a number with decimal places stand for that number: the digits
/// in front of the point and those behind it, with a minus sign if it is
/// negative.
pub proof fn decimal_places_read_back(tenths: int, hundredths: nat)
    ensures
        ({
            let s = one_place(tenths);
            let n = s.len() as int;
            let start = if tenths < 0 {
                1int
            } else {
                0
            };
            let magnitude = if tenths < 0 {
                -tenths
            } else {
                tenths
            };
            &&& n >= start + 3
            &&& s[n - 2] == '.'
            &&& tenths < 0 ==> s[0] == '-'
            &&& tenths >= 0 ==> is_decimal_digit(s[0])
            &&& decimal_value(s.subrange(start, n - 2)) * 10 + decimal_value(s.skip(n - 1))
                == magnitude
        }),
        ({
            let s = two_places(hundredths);
            let n = s.len() as int;
            &&& n >= 4
            &&& s[n - 3] == '.'
            &&& decimal_value(s.take(n - 3)) * 100 + decimal_value(s.skip(n - 2)) == hundredths
        }),
{
    let m = (if tenths < 0 {
        -tenths
    } else {
        tenths
    }) as nat;
    let s = one_place(tenths);
    let n = s.len() as int;
    let start = if tenths < 0 {
        1int
    } else {
        0
    };
    decimal_reads_back(m / 10);
    assert(s.subrange(start, n - 2) =~= decimal(m / 10));
    let last = s.skip(n - 1);
    assert(last =~= seq![digit_char(m % 10)]);
    assert(last.drop_last() =~= Seq::empty());
    assert(decimal_value(last.drop_last()) == 0);
    assert(decimal_value(last) == m % 10);
    assert(tenths >= 0 ==> s[0] == decimal(m / 10)[0]);
    let t = two_places(hundredths);
    let k = t.len() as int;
    reveal_strlit(".");
    two_digits(hundredths % 100);
    leading_zeros_read_back(hundredths % 100, 2);
    decimal_reads_back(hundredths / 100);
    assert(t.take(k - 3) =~= decimal(hundredths / 100));
    assert(t.skip(k - 2) =~= zero_decimal(hundredths % 100, 2));
}

/// A signed number with leading zeros stands for that number, and is as long as
/// was asked for with its sign counted, or longer if it needs more.
pub proof fn signed_numbers_read_back(n: int, width: nat)
    requires
        width > 0,
    ensures
        zero_signed(n, width).len() >= width,
        n < 0 ==> zero_signed(n, width)[0] == '-' && decimal_value(zero_signed(n, width).skip(1))
            == -n,
        n >= 0 ==> is_decimal_digit(zero_signed(n, width)[0]) && decimal_value(
            zero_signed(n, width),
        ) == n,
{
    if n < 0 {
        leading_zeros_read_back((-n) as nat, (width - 1) as nat);
        assert(zero_signed(n, width).skip(1) =~= zero_decimal((-n) as nat, (width - 1) as nat));
    } else {
        leading_zeros_read_back(n as nat, width);
    }
}

/// In a list of bytes in brackets, byte `k` stands as two digits behind the
/// bracket and the bytes before it, which take four characters each.
pub proof fn byte_list_reads_back(data: Seq<u8>, k: int)
    requires
        0 <= k < data.len(),
    ensures
        hex_list(data).len() == 4 * data.len(),
        hex_value(hex_list(data).subrange(4 * k + 1, 4 * k + 3)) == data[k],
{
    reveal_strlit("[");
    reveal_strlit("]");
    byte_texts(data, k);
    assert(hex_list(data).subrange(4 * k + 1, 4 * k + 3) =~= hex_bytes(data).subrange(
        4 * k,
        4 * k + 2,
    ));
}

/// A byte takes two hexadecimal digits with leading zeros.
pub proof fn two_hex_digits(b: u8)
    ensures
        zero_hex(b as nat, 2).len() == 2,
{
    reveal_with_fuel(hexadecimal, 3);
}

proof fn byte_texts(data: Seq<u8>, k: int)
    requires
        0 <= k < data.len(),
    ensures
        hex_bytes(data).len() == 4 * data.len() - 2,
        hex_value(hex_bytes(data).subrange(4 * k, 4 * k + 2)) == data[k],
    decreases data.len(),
{
    reveal_strlit(", ");
    let b = data.last();
    let n = data.len() as int;
    let last = zero_hex(b as nat, 2);
    leading_zeros_read_back(b as nat, 2);
    two_hex_digits(b);
    if n > 1 {
        let init = data.drop_last();
        byte_texts(init, if k < n - 1 {
            k
        } else {
            0
        });
        if k < n - 1 {
            assert(hex_bytes(data).subrange(4 * k, 4 * k + 2) =~= hex_bytes(init).subrange(
                4 * k,
                4 * k + 2,
            ));
        } else {
            assert(hex_bytes(data).subrange(4 * k, 4 * k + 2) =~= last);
        }
    } else {
        assert(hex_bytes(data).subrange(0, 2) =~= last);
    }
}

} // verus!
