//! Decimal tokens: the numeric value of a digit string and the canonical
//! digit string of a value, with an executable parser and renderer.

use vstd::prelude::*;

verus! {

/// `c` is a decimal digit.
pub open spec fn is_digit(c: char) -> bool {
    '0' <= c && c <= '9'
}

/// The numeric value of a digit character.
pub open spec fn digit_val(c: char) -> int {
    c as int - '0' as int
}

/// The digit character for a value below ten.
pub open spec fn digit_char(d: int) -> char {
    ((d + 48) as u8) as char
}

/// Every character of `s` is a decimal digit.
pub open spec fn all_digits(s: Seq<char>) -> bool {
    forall|i: int| 0 <= i < s.len() ==> is_digit(#[trigger] s[i])
}

/// A well-formed decimal token: nonempty, digits only.
pub open spec fn is_dec_token(s: Seq<char>) -> bool {
    s.len() > 0 && all_digits(s)
}

/// The number a digit string denotes, most significant digit first.
pub open spec fn dec_val(s: Seq<char>) -> int
    decreases s.len(),
{
    if s.len() == 0 {
        0
    } else {
        dec_val(s.drop_last()) * 10 + digit_val(s.last())
    }
}

/// The canonical decimal rendering of `v`: no sign, no leading zeros.
pub open spec fn dec_digits(v: int) -> Seq<char>
    recommends
        0 <= v,
    decreases v,
{
    if v <= 9 {
        seq![digit_char(v)]
    } else {
        dec_digits(v / 10).push(digit_char(v % 10))
    }
}

/// The value of a digit string is never negative.
pub proof fn lemma_dec_val_nonneg(s: Seq<char>)
    requires
        all_digits(s),
    ensures
        0 <= dec_val(s),
    decreases s.len(),
{
    if s.len() > 0 {
        lemma_dec_val_nonneg(s.drop_last());
    }
}

/// Extending a digit string by one digit multiplies its value by ten and
/// adds that digit.
pub proof fn lemma_dec_val_push(s: Seq<char>, c: char)
    ensures
        dec_val(s.push(c)) == dec_val(s) * 10 + digit_val(c),
{
    assert(s.push(c).drop_last() =~= s);
}

/// A prefix of a digit string never exceeds the whole string's value.
pub proof fn lemma_dec_val_prefix(s: Seq<char>, i: int)
    requires
        all_digits(s),
        0 <= i <= s.len(),
    ensures
        dec_val(s.take(i)) <= dec_val(s),
    decreases s.len() - i,
{
    if i < s.len() {
        lemma_dec_val_prefix(s, i + 1);
        assert(s.take(i + 1).drop_last() =~= s.take(i));
        lemma_dec_val_nonneg(s.take(i));
    } else {
        assert(s.take(i) =~= s);
    }
}

/// The canonical rendering of `v` is a digit token that denotes `v`.
pub proof fn lemma_dec_digits_ok(v: int)
    requires
        0 <= v,
    ensures
        is_dec_token(dec_digits(v)),
        dec_val(dec_digits(v)) == v,
    decreases v,
{
    if v <= 9 {
        assert(dec_digits(v) =~= Seq::<char>::empty().push(digit_char(v)));
        lemma_dec_val_push(Seq::<char>::empty(), digit_char(v));
        assert(is_digit(digit_char(v)) && digit_val(digit_char(v)) == v);
    } else {
        lemma_dec_digits_ok(v / 10);
        lemma_dec_val_push(dec_digits(v / 10), digit_char(v % 10));
        assert(0 <= v % 10 <= 9 && v == (v / 10) * 10 + v % 10);
        assert(is_digit(digit_char(v % 10)) && digit_val(digit_char(v % 10)) == v % 10);
        assert(forall|i: int|
            0 <= i < dec_digits(v).len() ==> is_digit(#[trigger] dec_digits(v)[i]));
    }
}

/// Parse a decimal token as an unsigned integer, rejecting values over
/// `max`.  Mirrors strict base-10 parsing: no sign, no whitespace.
pub fn parse_code(s: &str, max: u32) -> (r: Option<u16>)
    requires
        max <= 0xFFFF,
    ensures
        match r {
            Some(v) => is_dec_token(s@) && dec_val(s@) <= max && v as int == dec_val(s@),
            None => !(is_dec_token(s@) && dec_val(s@) <= max),
        },
{
    let n = s.unicode_len();
    if n == 0 {
        return None;
    }
    let mut acc: u32 = 0;
    let mut i: usize = 0;
    while i < n
        invariant
            0 < n == s@.len(),
            0 <= i <= n,
            max <= 0xFFFF,
            all_digits(s@.take(i as int)),
            acc as int == dec_val(s@.take(i as int)),
            acc <= max,
        decreases n - i,
    {
        let c = s.get_char(i);
        if !('0' <= c && c <= '9') {
            assert(!all_digits(s@));
            return None;
        }
        let d: u32 = (c as u32) - 48;
        assert(d as int == digit_val(c) && d <= 9);
        let acc2: u32 = acc * 10 + d;
        proof {
            assert(s@.take(i + 1) =~= s@.take(i as int).push(s@[i as int]));
            lemma_dec_val_push(s@.take(i as int), s@[i as int]);
        }
        if acc2 > max {
            proof {
                if all_digits(s@) {
                    lemma_dec_val_prefix(s@, i + 1);
                }
            }
            return None;
        }
        acc = acc2;
        i += 1;
    }
    assert(s@.take(n as int) =~= s@);
    Some(acc as u16)
}

/// The single-character string for a digit value.
fn digit_str(d: u16) -> (t: &'static str)
    requires
        d <= 9,
    ensures
        t@ =~= seq![digit_char(d as int)],
{
    proof {
        reveal_strlit("0");
        reveal_strlit("1");
        reveal_strlit("2");
        reveal_strlit("3");
        reveal_strlit("4");
        reveal_strlit("5");
        reveal_strlit("6");
        reveal_strlit("7");
        reveal_strlit("8");
        reveal_strlit("9");
        assert(digit_char(0) == '0' && digit_char(1) == '1' && digit_char(2) == '2'
            && digit_char(3) == '3' && digit_char(4) == '4' && digit_char(5) == '5'
            && digit_char(6) == '6' && digit_char(7) == '7' && digit_char(8) == '8'
            && digit_char(9) == '9');
    }
    match d {
        0 => "0",
        1 => "1",
        2 => "2",
        3 => "3",
        4 => "4",
        5 => "5",
        6 => "6",
        7 => "7",
        8 => "8",
        _ => "9",
    }
}

/// Render `v` as its canonical decimal digit string.
pub fn render_u16(v: u16) -> (t: String)
    ensures
        t@ == dec_digits(v as int),
    decreases v,
{
    if v <= 9 {
        digit_str(v).to_owned()
    } else {
        let mut t = render_u16(v / 10);
        t.append(digit_str(v % 10));
        assert(t@ =~= dec_digits((v / 10) as int).push(digit_char((v % 10) as int)));
        t
    }
}

} // verus!
