//! Character-level helpers: digit classification, decimal rendering of
//! ports, string utilities, and parsing of caller-supplied port values.

use vstd::prelude::*;
use crate::errors::ErrorKind;

verus! {

/// The whitespace characters the codec tolerates between tokens.
pub open spec fn is_ws(c: char) -> bool {
    c == ' ' || c == '\n' || c == '\t' || c == '\r'
}

pub fn is_ws_exec(c: char) -> (r: bool)
    ensures
        r == is_ws(c),
{
    c == ' ' || c == '\n' || c == '\t' || c == '\r'
}

pub open spec fn is_digit(c: char) -> bool {
    c == '0' || c == '1' || c == '2' || c == '3' || c == '4' || c == '5' || c == '6' || c == '7'
        || c == '8' || c == '9'
}

pub fn is_digit_exec(c: char) -> (r: bool)
    ensures
        r == is_digit(c),
{
    c == '0' || c == '1' || c == '2' || c == '3' || c == '4' || c == '5' || c == '6' || c == '7'
        || c == '8' || c == '9'
}

/// The numeric value of a digit character; 0 on anything else.
pub open spec fn digit_val(c: char) -> int {
    if c == '0' {
        0
    } else if c == '1' {
        1
    } else if c == '2' {
        2
    } else if c == '3' {
        3
    } else if c == '4' {
        4
    } else if c == '5' {
        5
    } else if c == '6' {
        6
    } else if c == '7' {
        7
    } else if c == '8' {
        8
    } else {
        9
    }
}

pub fn digit_val_exec(c: char) -> (r: u32)
    requires
        is_digit(c),
    ensures
        r == digit_val(c),
        r < 10,
{
    match c {
        '0' => 0,
        '1' => 1,
        '2' => 2,
        '3' => 3,
        '4' => 4,
        '5' => 5,
        '6' => 6,
        '7' => 7,
        '8' => 8,
        _ => 9,
    }
}

/// The digit character for a value below ten; '0' on anything else.
pub open spec fn dc(d: int) -> char {
    if d == 0 {
        '0'
    } else if d == 1 {
        '1'
    } else if d == 2 {
        '2'
    } else if d == 3 {
        '3'
    } else if d == 4 {
        '4'
    } else if d == 5 {
        '5'
    } else if d == 6 {
        '6'
    } else if d == 7 {
        '7'
    } else if d == 8 {
        '8'
    } else {
        '9'
    }
}

pub proof fn lemma_dc(d: int)
    requires
        0 <= d < 10,
    ensures
        is_digit(dc(d)),
        digit_val(dc(d)) == d,
        !is_ws(dc(d)),
        dc(d) == '0' <==> d == 0,
{
}

/// A digit as a one-character string slice.
pub fn digit_str(d: u16) -> (r: &'static str)
    requires
        d < 10,
    ensures
        r@ == seq![dc(d as int)],
{
    let r: &'static str = match d {
        0u16 => "0",
        1u16 => "1",
        2u16 => "2",
        3u16 => "3",
        4u16 => "4",
        5u16 => "5",
        6u16 => "6",
        7u16 => "7",
        8u16 => "8",
        _ => "9",
    };
    proof {
        reveal_strlit("0");
        reveal_strlit("1");
        reveal_strlit("2");
        reveal_strlit("3");
        reveal_strlit("4");
        reveal_strlit("5");
        reveal_strlit("6");
        reveal_strlit("7");
        reveal_strlit("8");
        reveal_strlit("9");
        assert(r@ =~= seq![dc(d as int)]);
    }
    r
}

/// The decimal digits of a sixteen-bit value, most significant first,
/// without leading zeros.
pub open spec fn render_u16(n: u16) -> Seq<char> {
    let v = n as int;
    if v < 10 {
        seq![dc(v)]
    } else if v < 100 {
        seq![dc(v / 10), dc(v % 10)]
    } else if v < 1000 {
        seq![dc(v / 100), dc((v / 10) % 10), dc(v % 10)]
    } else if v < 10000 {
        seq![dc(v / 1000), dc((v / 100) % 10), dc((v / 10) % 10), dc(v % 10)]
    } else {
        seq![dc(v / 10000), dc((v / 1000) % 10), dc((v / 100) % 10), dc((v / 10) % 10), dc(v % 10)]
    }
}

/// Relies on `String::push` from std: appends exactly the given character.
#[verifier::external_body]
pub fn push_char(s: &mut String, c: char)
    ensures
        final(s)@ == old(s)@.push(c),
{
    s.push(c);
}

/// Writes the decimal form of `n` onto `out`.
pub fn append_u16(out: &mut String, n: u16)
    ensures
        final(out)@ == old(out)@ + render_u16(n),
{
    if n < 10 {
        out.append(digit_str(n));
    } else if n < 100 {
        out.append(digit_str(n / 10));
        out.append(digit_str(n % 10));
    } else if n < 1000 {
        out.append(digit_str(n / 100));
        out.append(digit_str((n / 10) % 10));
        out.append(digit_str(n % 10));
    } else if n < 10000 {
        out.append(digit_str(n / 1000));
        out.append(digit_str((n / 100) % 10));
        out.append(digit_str((n / 10) % 10));
        out.append(digit_str(n % 10));
    } else {
        out.append(digit_str(n / 10000));
        out.append(digit_str((n / 1000) % 10));
        out.append(digit_str((n / 100) % 10));
        out.append(digit_str((n / 10) % 10));
        out.append(digit_str(n % 10));
    }
    proof {
        assert(out@ =~= old(out)@ + render_u16(n));
    }
}

/// The decimal form of `n`, as an owned string.
pub fn u16_to_string(n: u16) -> (r: String)
    ensures
        r@ == render_u16(n),
{
    let mut out = String::new();
    append_u16(&mut out, n);
    proof {
        assert(out@ =~= render_u16(n));
    }
    out
}

/// Whether two string slices hold the same characters.
pub fn str_eq(a: &str, b: &str) -> (r: bool)
    ensures
        r == (a@ == b@),
{
    let alen = a.unicode_len();
    let blen = b.unicode_len();
    if alen != blen {
        proof {
            assert(a@ != b@);
        }
        return false;
    }
    let mut i: usize = 0;
    while i < alen
        invariant
            i <= alen,
            alen == a@.len(),
            alen == b@.len(),
            forall|k: int| 0 <= k < i ==> a@[k] == b@[k],
        decreases alen - i,
    {
        if a.get_char(i) != b.get_char(i) {
            return false;
        }
        i += 1;
    }
    proof {
        assert(a@ =~= b@);
    }
    true
}

/// The characters of a string slice, as a vector.
pub fn str_to_chars(s: &str) -> (v: Vec<char>)
    ensures
        v@ == s@,
{
    let len = s.unicode_len();
    let mut v: Vec<char> = Vec::new();
    let mut i: usize = 0;
    while i < len
        invariant
            i <= len,
            len == s@.len(),
            v@ == s@.take(i as int),
        decreases len - i,
    {
        let c = s.get_char(i);
        v.push(c);
        proof {
            assert(v@ =~= s@.take(i as int + 1));
        }
        i += 1;
    }
    proof {
        assert(v@ =~= s@);
    }
    v
}

/// A string built from the given characters.
pub fn chars_to_string(v: &Vec<char>) -> (r: String)
    ensures
        r@ == v@,
{
    let mut out = String::new();
    let mut i: usize = 0;
    while i < v.len()
        invariant
            i <= v.len(),
            out@ == v@.take(i as int),
        decreases v.len() - i,
    {
        push_char(&mut out, v[i]);
        proof {
            assert(out@ =~= v@.take(i as int + 1));
        }
        i += 1;
    }
    proof {
        assert(out@ =~= v@);
    }
    out
}

/// Lowercase hexadecimal digit characters, as the renderer writes them.
pub open spec fn hexd(d: int) -> char {
    if d == 0 {
        '0'
    } else if d == 1 {
        '1'
    } else if d == 2 {
        '2'
    } else if d == 3 {
        '3'
    } else if d == 4 {
        '4'
    } else if d == 5 {
        '5'
    } else if d == 6 {
        '6'
    } else if d == 7 {
        '7'
    } else if d == 8 {
        '8'
    } else if d == 9 {
        '9'
    } else if d == 10 {
        'a'
    } else if d == 11 {
        'b'
    } else if d == 12 {
        'c'
    } else if d == 13 {
        'd'
    } else if d == 14 {
        'e'
    } else {
        'f'
    }
}

/// The value of a hexadecimal digit character, either case; -1 on any
/// other character.
pub open spec fn hexd_val(c: char) -> int {
    if c == '0' {
        0
    } else if c == '1' {
        1
    } else if c == '2' {
        2
    } else if c == '3' {
        3
    } else if c == '4' {
        4
    } else if c == '5' {
        5
    } else if c == '6' {
        6
    } else if c == '7' {
        7
    } else if c == '8' {
        8
    } else if c == '9' {
        9
    } else if c == 'a' || c == 'A' {
        10
    } else if c == 'b' || c == 'B' {
        11
    } else if c == 'c' || c == 'C' {
        12
    } else if c == 'd' || c == 'D' {
        13
    } else if c == 'e' || c == 'E' {
        14
    } else if c == 'f' || c == 'F' {
        15
    } else {
        -1
    }
}

pub proof fn lemma_hexd(d: int)
    requires
        0 <= d < 16,
    ensures
        hexd_val(hexd(d)) == d,
        hexd(d) != '"',
        hexd(d) != '\\',
{
}

pub fn hexd_exec(d: u32) -> (r: char)
    requires
        d < 16,
    ensures
        r == hexd(d as int),
{
    match d {
        0u32 => '0',
        1u32 => '1',
        2u32 => '2',
        3u32 => '3',
        4u32 => '4',
        5u32 => '5',
        6u32 => '6',
        7u32 => '7',
        8u32 => '8',
        9u32 => '9',
        10u32 => 'a',
        11u32 => 'b',
        12u32 => 'c',
        13u32 => 'd',
        14u32 => 'e',
        _ => 'f',
    }
}

pub fn hexd_val_exec(c: char) -> (r: Option<u32>)
    ensures
        match r {
            Some(v) => hexd_val(c) == v && v < 16,
            None => hexd_val(c) < 0,
        },
{
    match c {
        '0' => Some(0),
        '1' => Some(1),
        '2' => Some(2),
        '3' => Some(3),
        '4' => Some(4),
        '5' => Some(5),
        '6' => Some(6),
        '7' => Some(7),
        '8' => Some(8),
        '9' => Some(9),
        'a' | 'A' => Some(10),
        'b' | 'B' => Some(11),
        'c' | 'C' => Some(12),
        'd' | 'D' => Some(13),
        'e' | 'E' => Some(14),
        'f' | 'F' => Some(15),
        _ => None,
    }
}

/// The code of a control character below 0x20; -1 for every other
/// character. These are the characters JSON requires to be escaped.
pub open spec fn ctrl_code(c: char) -> int {
    if c == '\u{00}' {
        0
    } else if c == '\u{01}' {
        1
    } else if c == '\u{02}' {
        2
    } else if c == '\u{03}' {
        3
    } else if c == '\u{04}' {
        4
    } else if c == '\u{05}' {
        5
    } else if c == '\u{06}' {
        6
    } else if c == '\u{07}' {
        7
    } else if c == '\u{08}' {
        8
    } else if c == '\u{09}' {
        9
    } else if c == '\u{0a}' {
        10
    } else if c == '\u{0b}' {
        11
    } else if c == '\u{0c}' {
        12
    } else if c == '\u{0d}' {
        13
    } else if c == '\u{0e}' {
        14
    } else if c == '\u{0f}' {
        15
    } else if c == '\u{10}' {
        16
    } else if c == '\u{11}' {
        17
    } else if c == '\u{12}' {
        18
    } else if c == '\u{13}' {
        19
    } else if c == '\u{14}' {
        20
    } else if c == '\u{15}' {
        21
    } else if c == '\u{16}' {
        22
    } else if c == '\u{17}' {
        23
    } else if c == '\u{18}' {
        24
    } else if c == '\u{19}' {
        25
    } else if c == '\u{1a}' {
        26
    } else if c == '\u{1b}' {
        27
    } else if c == '\u{1c}' {
        28
    } else if c == '\u{1d}' {
        29
    } else if c == '\u{1e}' {
        30
    } else if c == '\u{1f}' {
        31
    } else {
        -1
    }
}

/// The control character with the given code below 0x20.
pub open spec fn ctrl_char(v: int) -> char {
    if v == 0 {
        '\u{00}'
    } else if v == 1 {
        '\u{01}'
    } else if v == 2 {
        '\u{02}'
    } else if v == 3 {
        '\u{03}'
    } else if v == 4 {
        '\u{04}'
    } else if v == 5 {
        '\u{05}'
    } else if v == 6 {
        '\u{06}'
    } else if v == 7 {
        '\u{07}'
    } else if v == 8 {
        '\u{08}'
    } else if v == 9 {
        '\u{09}'
    } else if v == 10 {
        '\u{0a}'
    } else if v == 11 {
        '\u{0b}'
    } else if v == 12 {
        '\u{0c}'
    } else if v == 13 {
        '\u{0d}'
    } else if v == 14 {
        '\u{0e}'
    } else if v == 15 {
        '\u{0f}'
    } else if v == 16 {
        '\u{10}'
    } else if v == 17 {
        '\u{11}'
    } else if v == 18 {
        '\u{12}'
    } else if v == 19 {
        '\u{13}'
    } else if v == 20 {
        '\u{14}'
    } else if v == 21 {
        '\u{15}'
    } else if v == 22 {
        '\u{16}'
    } else if v == 23 {
        '\u{17}'
    } else if v == 24 {
        '\u{18}'
    } else if v == 25 {
        '\u{19}'
    } else if v == 26 {
        '\u{1a}'
    } else if v == 27 {
        '\u{1b}'
    } else if v == 28 {
        '\u{1c}'
    } else if v == 29 {
        '\u{1d}'
    } else if v == 30 {
        '\u{1e}'
    } else {
        '\u{1f}'
    }
}

pub proof fn lemma_ctrl_char_code(c: char)
    requires
        ctrl_code(c) >= 0,
    ensures
        0 <= ctrl_code(c) < 32,
        ctrl_char(ctrl_code(c)) == c,
{
}

pub fn ctrl_code_exec(c: char) -> (r: Option<u32>)
    ensures
        match r {
            Some(v) => ctrl_code(c) == v && v < 32,
            None => ctrl_code(c) < 0,
        },
{
    match c {
        '\u{00}' => Some(0),
        '\u{01}' => Some(1),
        '\u{02}' => Some(2),
        '\u{03}' => Some(3),
        '\u{04}' => Some(4),
        '\u{05}' => Some(5),
        '\u{06}' => Some(6),
        '\u{07}' => Some(7),
        '\u{08}' => Some(8),
        '\u{09}' => Some(9),
        '\u{0a}' => Some(10),
        '\u{0b}' => Some(11),
        '\u{0c}' => Some(12),
        '\u{0d}' => Some(13),
        '\u{0e}' => Some(14),
        '\u{0f}' => Some(15),
        '\u{10}' => Some(16),
        '\u{11}' => Some(17),
        '\u{12}' => Some(18),
        '\u{13}' => Some(19),
        '\u{14}' => Some(20),
        '\u{15}' => Some(21),
        '\u{16}' => Some(22),
        '\u{17}' => Some(23),
        '\u{18}' => Some(24),
        '\u{19}' => Some(25),
        '\u{1a}' => Some(26),
        '\u{1b}' => Some(27),
        '\u{1c}' => Some(28),
        '\u{1d}' => Some(29),
        '\u{1e}' => Some(30),
        '\u{1f}' => Some(31),
        _ => None,
    }
}

pub fn ctrl_char_exec(v: u32) -> (r: char)
    requires
        v < 32,
    ensures
        r == ctrl_char(v as int),
{
    match v {
        0u32 => '\u{00}',
        1u32 => '\u{01}',
        2u32 => '\u{02}',
        3u32 => '\u{03}',
        4u32 => '\u{04}',
        5u32 => '\u{05}',
        6u32 => '\u{06}',
        7u32 => '\u{07}',
        8u32 => '\u{08}',
        9u32 => '\u{09}',
        10u32 => '\u{0a}',
        11u32 => '\u{0b}',
        12u32 => '\u{0c}',
        13u32 => '\u{0d}',
        14u32 => '\u{0e}',
        15u32 => '\u{0f}',
        16u32 => '\u{10}',
        17u32 => '\u{11}',
        18u32 => '\u{12}',
        19u32 => '\u{13}',
        20u32 => '\u{14}',
        21u32 => '\u{15}',
        22u32 => '\u{16}',
        23u32 => '\u{17}',
        24u32 => '\u{18}',
        25u32 => '\u{19}',
        26u32 => '\u{1a}',
        27u32 => '\u{1b}',
        28u32 => '\u{1c}',
        29u32 => '\u{1d}',
        30u32 => '\u{1e}',
        _ => '\u{1f}',
    }
}

/// The value of a digit string read left to right.
pub open spec fn digits_val(s: Seq<char>) -> int
    decreases s.len(),
{
    if s.len() == 0 {
        0
    } else {
        digits_val(s.take(s.len() - 1)) * 10 + digit_val(s[s.len() - 1])
    }
}

pub open spec fn all_digits(s: Seq<char>) -> bool {
    forall|i: int| 0 <= i < s.len() ==> is_digit(#[trigger] s[i])
}

pub proof fn lemma_digits_val_bounds(s: Seq<char>)
    requires
        all_digits(s),
    ensures
        digits_val(s) >= 0,
        forall|k: int|
            0 <= k <= s.len() ==> digits_val(#[trigger] s.take(k)) <= digits_val(s),
    decreases s.len(),
{
    if s.len() == 0 {
        assert(forall|k: int| 0 <= k <= s.len() ==> s.take(k) =~= s);
    } else {
        let p = s.take(s.len() - 1);
        assert(all_digits(p));
        lemma_digits_val_bounds(p);
        assert(digits_val(p) * 10 >= digits_val(p)) by (nonlinear_arith)
            requires digits_val(p) >= 0;
        assert forall|k: int| 0 <= k <= s.len() implies digits_val(#[trigger] s.take(k))
            <= digits_val(s) by {
            if k < s.len() {
                assert(s.take(k) =~= p.take(k));
            } else {
                assert(s.take(k) =~= s);
            }
        }
    }
}

/// The digits of a port value, after an optional leading plus sign.
pub open spec fn port_digits(s: Seq<char>) -> Seq<char> {
    if s.len() > 0 && s[0] == '+' {
        s.skip(1)
    } else {
        s
    }
}

/// Whether a caller-supplied string parses as an unsigned sixteen-bit port:
/// an optional plus sign, then one or more digits, with a value that fits.
pub open spec fn valid_port_str(s: Seq<char>) -> bool {
    let d = port_digits(s);
    d.len() > 0 && all_digits(d) && digits_val(d) <= 0xffff
}

/// Parses a caller-supplied port value. Returns the port exactly when the
/// string is an optionally plus-signed digit string whose value fits in
/// sixteen bits; fails with `InvalidInput` on every other string.
pub fn parse_port(s: &str) -> (r: Result<u16, ErrorKind>)
    ensures
        match r {
            Ok(p) => valid_port_str(s@) && p == digits_val(port_digits(s@)),
            Err(e) => e == ErrorKind::InvalidInput && !valid_port_str(s@),
        },
{
    let len = s.unicode_len();
    let start: usize = if len > 0 && s.get_char(0) == '+' {
        1
    } else {
        0
    };
    let ghost d = port_digits(s@);
    proof {
        assert(d =~= s@.skip(start as int));
    }
    if len == start {
        return Err(ErrorKind::InvalidInput);
    }
    let mut i: usize = start;
    let mut acc: u32 = 0;
    while i < len
        invariant
            start <= i <= len,
            len == s@.len(),
            d == port_digits(s@),
            d == s@.skip(start as int),
            d.len() == len - start,
            forall|k: int| 0 <= k < i - start ==> is_digit(#[trigger] d[k]),
            acc == digits_val(d.take(i - start)),
            acc <= 0xffff,
        decreases len - i,
    {
        let c = s.get_char(i);
        if !is_digit_exec(c) {
            proof {
                assert(d[i - start] == c);
                assert(!is_digit(d[i - start]));
                assert(!all_digits(d));
            }
            return Err(ErrorKind::InvalidInput);
        }
        let dv = digit_val_exec(c);
        let next: u32 = acc * 10 + dv;
        proof {
            let j = i - start;
            let x = d.take(j + 1);
            assert(x.take(j) =~= d.take(j));
            assert(x[j] == d[j] && d[j] == c);
            assert(x.len() == j + 1);
            assert(x.take(x.len() - 1) =~= d.take(j));
            assert(digits_val(x) == digits_val(x.take(x.len() - 1)) * 10 + digit_val(x[x.len() - 1]));
            assert(digits_val(x) == acc * 10 + dv);
        }
        if next > 0xffff {
            proof {
                let j = i - start;
                if all_digits(d) {
                    lemma_digits_val_bounds(d);
                    assert(digits_val(d.take(j + 1)) <= digits_val(d));
                    assert(digits_val(d) > 0xffff);
                }
                assert(!valid_port_str(s@));
            }
            return Err(ErrorKind::InvalidInput);
        }
        acc = next;
        i += 1;
    }
    proof {
        assert(d.take(len - start) =~= d);
        assert(all_digits(d));
    }
    Ok(acc as u16)
}

} // verus!
