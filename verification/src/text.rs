//! Plain-text conversions the codec performs itself: decimal rendering and
//! parsing of integers, the boolean token set, hexadecimal rendering of
//! byte sequences, and the XML character-data escaping table.

use vstd::prelude::*;

verus! {

/// Whether `c` is an ASCII decimal digit.
pub open spec fn is_digit(c: char) -> bool {
    48 <= c as u32 <= 57
}

/// The numeric value of an ASCII decimal digit.
pub open spec fn digit_val(c: char) -> int {
    c as u32 - 48
}

/// The character for a value below sixteen, lower case.
pub open spec fn digit_char(d: int) -> char {
    if d == 0 {
        '0'
    } else if d == 1 {
        '1'
    } else if d == 2 {
        '2'
    } else if d == 3 {
        '3'
    } else if d == 4 {
        '4'
    } else if d == 5 {
        '5'
    } else if d == 6 {
        '6'
    } else if d == 7 {
        '7'
    } else if d == 8 {
        '8'
    } else if d == 9 {
        '9'
    } else if d == 10 {
        'a'
    } else if d == 11 {
        'b'
    } else if d == 12 {
        'c'
    } else if d == 13 {
        'd'
    } else if d == 14 {
        'e'
    } else {
        'f'
    }
}

/// Decimal rendering of a nonnegative integer, most significant digit first.
pub open spec fn dec_of(n: nat) -> Seq<char>
    decreases n,
{
    if n < 10 {
        seq![digit_char(n as int)]
    } else {
        dec_of(n / 10).push(digit_char((n % 10) as int))
    }
}

/// Decimal rendering of a signed integer.
pub open spec fn dec_of_int(v: int) -> Seq<char> {
    if v >= 0 {
        dec_of(v as nat)
    } else {
        seq!['-'] + dec_of((-v) as nat)
    }
}

/// Value of a digit string, most significant digit first.
pub open spec fn dec_val(s: Seq<char>) -> nat
    decreases s.len(),
{
    if s.len() == 0 {
        0
    } else {
        (dec_val(s.drop_last()) * 10 + digit_val(s.last())) as nat
    }
}

/// Whether every character of `s` is a decimal digit.
pub open spec fn all_digits(s: Seq<char>) -> bool {
    forall|i: int| 0 <= i < s.len() ==> is_digit(s[i])
}

/// The digit part of an integer token: a single leading `+` is accepted.
pub open spec fn unsigned_body(s: Seq<char>) -> Seq<char> {
    if s.len() > 0 && s[0] == '+' {
        s.skip(1)
    } else {
        s
    }
}

/// Meaning of an unsigned decimal token, exactly as the standard parse
/// accepts it: an optional `+`, then one or more digits, value in range.
pub open spec fn u64_of_text(s: Seq<char>) -> Option<u64> {
    let b = unsigned_body(s);
    if b.len() > 0 && all_digits(b) && dec_val(b) <= u64::MAX {
        Some(dec_val(b) as u64)
    } else {
        None
    }
}

/// The sign and digit part of a signed integer token.
pub open spec fn signed_parts(s: Seq<char>) -> (bool, Seq<char>) {
    if s.len() > 0 && s[0] == '-' {
        (true, s.skip(1))
    } else if s.len() > 0 && s[0] == '+' {
        (false, s.skip(1))
    } else {
        (false, s)
    }
}

/// Meaning of a signed decimal token, exactly as the standard parse
/// accepts it.
pub open spec fn i64_of_text(s: Seq<char>) -> Option<i64> {
    let (neg, b) = signed_parts(s);
    if b.len() > 0 && all_digits(b) {
        let v = if neg {
            -(dec_val(b) as int)
        } else {
            dec_val(b) as int
        };
        if i64::MIN <= v <= i64::MAX {
            Some(v as i64)
        } else {
            None
        }
    } else {
        None
    }
}

/// The boolean token set: case is folded by the caller.
pub open spec fn bool_token(t: Seq<char>) -> Option<bool> {
    if t =~= seq!['t', 'r', 'u', 'e'] || t =~= seq!['1'] || t =~= seq!['y'] {
        Some(true)
    } else if t =~= seq!['f', 'a', 'l', 's', 'e'] || t =~= seq!['0'] || t =~= seq!['n'] {
        Some(false)
    } else {
        None
    }
}

/// Lower-case hexadecimal rendering of a byte sequence, two digits a byte.
pub open spec fn hex_of(b: Seq<u8>) -> Seq<char>
    decreases b.len(),
{
    if b.len() == 0 {
        Seq::empty()
    } else {
        hex_of(b.drop_last()) + seq![
            digit_char(b.last() as int / 16),
            digit_char(b.last() as int % 16),
        ]
    }
}

/// One character under character-data escaping: `<`, `>` and `&` become
/// entities, everything else stands.
pub open spec fn escape_char(c: char) -> Seq<char> {
    if c == '<' {
        seq!['&', 'l', 't', ';']
    } else if c == '>' {
        seq!['&', 'g', 't', ';']
    } else if c == '&' {
        seq!['&', 'a', 'm', 'p', ';']
    } else {
        seq![c]
    }
}

/// Character-data escaping of a whole string.
pub open spec fn escape_pcdata(s: Seq<char>) -> Seq<char>
    decreases s.len(),
{
    if s.len() == 0 {
        Seq::empty()
    } else {
        escape_char(s[0]) + escape_pcdata(s.skip(1))
    }
}

/// Exec digit rendering, matching `digit_char`.
pub fn digit_to_char(d: u64) -> (c: char)
    requires
        d < 16,
    ensures
        c == digit_char(d as int),
{
    match d {
        0 => '0',
        1 => '1',
        2 => '2',
        3 => '3',
        4 => '4',
        5 => '5',
        6 => '6',
        7 => '7',
        8 => '8',
        9 => '9',
        10 => 'a',
        11 => 'b',
        12 => 'c',
        13 => 'd',
        14 => 'e',
        _ => 'f',
    }
}

/// Renders `n` in decimal.
pub fn u64_to_dec(n: u64) -> (r: Vec<char>)
    ensures
        r@ == dec_of(n as nat),
    decreases n,
{
    if n < 10 {
        let mut r: Vec<char> = Vec::new();
        r.push(digit_to_char(n));
        proof {
            assert(r@ =~= dec_of(n as nat));
        }
        r
    } else {
        let mut r = u64_to_dec(n / 10);
        r.push(digit_to_char(n % 10));
        proof {
            assert(r@ =~= dec_of(n as nat));
        }
        r
    }
}

/// Renders `v` in decimal with its sign.
pub fn i64_to_dec(v: i64) -> (r: Vec<char>)
    ensures
        r@ == dec_of_int(v as int),
{
    if v >= 0 {
        u64_to_dec(v as u64)
    } else {
        let m: u64 = if v == i64::MIN {
            9223372036854775808u64
        } else {
            (-v) as u64
        };
        let mut r: Vec<char> = Vec::new();
        r.push('-');
        let mut d = u64_to_dec(m);
        r.append(&mut d);
        proof {
            assert(r@ =~= dec_of_int(v as int));
        }
        r
    }
}

/// Growth of a digit string's value under extension.
proof fn lemma_dec_val_prefix(s: Seq<char>, i: int)
    requires
        0 <= i <= s.len(),
        all_digits(s),
    ensures
        dec_val(s) >= dec_val(s.take(i)),
    decreases s.len() - i,
{
    if i < s.len() {
        lemma_dec_val_prefix(s, i + 1);
        assert(s.take(i + 1).drop_last() =~= s.take(i));
        assert(dec_val(s.take(i + 1)) == dec_val(s.take(i)) * 10 + digit_val(s[i]));
    } else {
        assert(s.take(i) =~= s);
    }
}

/// Parses the digit run `s[from..]` as a decimal value, exactly as the
/// standard unsigned parse does: at least one digit, all digits, in range.
fn parse_digits(cs: &Vec<char>, from: usize) -> (r: Option<u64>)
    requires
        from <= cs.len(),
    ensures
        ({
            let b = cs@.skip(from as int);
            match r {
                Some(v) => b.len() > 0 && all_digits(b) && dec_val(b) == v && dec_val(b)
                    <= u64::MAX,
                None => !(b.len() > 0 && all_digits(b) && dec_val(b) <= u64::MAX),
            }
        }),
{
    let ghost b = cs@.skip(from as int);
    if from == cs.len() {
        return None;
    }
    let mut acc: u64 = 0;
    let mut i: usize = from;
    while i < cs.len()
        invariant
            from <= i <= cs.len(),
            b == cs@.skip(from as int),
            all_digits(b.take(i - from)),
            acc == dec_val(b.take(i - from)),
        decreases cs.len() - i,
    {
        let c = cs[i];
        let cv = c as u32;
        if !(48 <= cv && cv <= 57) {
            proof {
                assert(b[i - from] == cs@[i as int]);
                assert(!is_digit(b[i - from]));
            }
            return None;
        }
        let d: u64 = (cv - 48) as u64;
        proof {
            assert(b.take(i - from + 1).drop_last() =~= b.take(i - from));
            assert(dec_val(b.take(i - from + 1)) == dec_val(b.take(i - from)) * 10 + digit_val(
                b[i - from],
            ));
        }
        if acc > (u64::MAX - d) / 10 {
            proof {
                assert(acc * 10 + d > u64::MAX) by (nonlinear_arith)
                    requires
                        acc > (u64::MAX - d) / 10,
                        d < 10,
                {}
                assert(dec_val(b.take(i - from + 1)) > u64::MAX);
                if all_digits(b) {
                    lemma_dec_val_prefix(b, i - from + 1);
                    assert(dec_val(b) > u64::MAX);
                }
            }
            return None;
        }
        proof {
            assert(acc * 10 + d <= u64::MAX) by (nonlinear_arith)
                requires
                    acc <= (u64::MAX - d) / 10,
                    d < 10,
            {}
        }
        acc = acc * 10 + d;
        i = i + 1;
    }
    proof {
        assert(b.take(cs@.len() - from) =~= b);
    }
    Some(acc)
}

/// Parses an unsigned decimal token, matching `u64_of_text`.
pub fn parse_u64_text(cs: &Vec<char>) -> (r: Option<u64>)
    ensures
        r == u64_of_text(cs@),
{
    if cs.len() > 0 && cs[0] == '+' {
        parse_digits(cs, 1)
    } else {
        proof {
            assert(unsigned_body(cs@) == cs@);
            assert(cs@.skip(0) =~= cs@);
        }
        parse_digits(cs, 0)
    }
}

/// Parses a signed decimal token, matching `i64_of_text`.
pub fn parse_i64_text(cs: &Vec<char>) -> (r: Option<i64>)
    ensures
        r == i64_of_text(cs@),
{
    let neg = cs.len() > 0 && cs[0] == '-';
    let skip_sign = cs.len() > 0 && (cs[0] == '-' || cs[0] == '+');
    let m = if skip_sign {
        parse_digits(cs, 1)
    } else {
        proof {
            assert(cs@.skip(0) =~= cs@);
        }
        parse_digits(cs, 0)
    };
    match m {
        None => None,
        Some(v) => {
            if neg {
                if v <= 9223372036854775807u64 {
                    Some(-(v as i64))
                } else if v == 9223372036854775808u64 {
                    Some(i64::MIN)
                } else {
                    None
                }
            } else {
                if v <= 9223372036854775807u64 {
                    Some(v as i64)
                } else {
                    None
                }
            }
        }
    }
}

/// Builds a string from a vector of characters.
pub fn string_from_chars(v: &Vec<char>) -> (r: String)
    ensures
        r@ == v@,
{
    let mut r = String::new();
    let mut i: usize = 0;
    while i < v.len()
        invariant
            i <= v.len(),
            r@ =~= v@.subrange(0, i as int),
        decreases v.len() - i,
    {
        crate::shims::push_char(&mut r, v[i]);
        i = i + 1;
    }
    proof {
        assert(r@ =~= v@);
    }
    r
}

/// Whether `s` begins with the characters of `p`.
pub fn str_has_prefix(s: &str, p: &str) -> (r: bool)
    ensures
        r == (s@.len() >= p@.len() && s@.take(p@.len() as int) == p@),
{
    let n = s.unicode_len();
    let m = p.unicode_len();
    if n < m {
        return false;
    }
    let mut i: usize = 0;
    while i < m
        invariant
            i <= m,
            m <= n,
            n == s@.len(),
            m == p@.len(),
            forall|j: int| 0 <= j < i ==> s@[j] == p@[j],
        decreases m - i,
    {
        if s.get_char(i) != p.get_char(i) {
            proof {
                assert(s@.take(p@.len() as int)[i as int] != p@[i as int]);
            }
            return false;
        }
        i = i + 1;
    }
    proof {
        assert(s@.take(p@.len() as int) =~= p@);
    }
    true
}

/// Whether the characters of `s` equal those of `p`.
pub fn str_eq_str(s: &str, p: &str) -> (r: bool)
    ensures
        r == (s@ == p@),
{
    let n = s.unicode_len();
    let m = p.unicode_len();
    if n != m {
        proof {
            assert(s@ != p@);
        }
        return false;
    }
    let pre = str_has_prefix(s, p);
    proof {
        assert(s@.take(p@.len() as int) =~= s@);
    }
    pre
}

} // verus!
