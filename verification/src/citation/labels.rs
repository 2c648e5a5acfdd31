//! Section numbers (arabic and roman) and numbered caption labels.
use vstd::prelude::*;
use crate::text::{
    chars_of, dec, parse_unsigned, parse_u32_exec, string_of, to_lowercase, trim, trim_end_char,
    trim_end_char_exec, trim_exec, unicode_lower, digits_value, lemma_dec_digits, is_ws, is_digit,
    lemma_trim_fixed, trail_char, all_ascii, is_ascii_char, lower, lower_char,
};

verus! {

/// Roman numeral of `n`, lowercase, built greedily from `x ix v iv i`.
pub open spec fn roman(n: nat) -> Seq<char>
    decreases n,
{
    if n >= 10 {
        seq!['x'] + roman((n - 10) as nat)
    } else if n >= 9 {
        seq!['i', 'x'] + roman((n - 9) as nat)
    } else if n >= 5 {
        seq!['v'] + roman((n - 5) as nat)
    } else if n >= 4 {
        seq!['i', 'v'] + roman((n - 4) as nat)
    } else if n >= 1 {
        seq!['i'] + roman((n - 1) as nat)
    } else {
        seq![]
    }
}

/// Lowercase roman numeral of `n` (`to_roman(4) == "iv"`).
pub fn to_roman(n: u32) -> (r: String)
    ensures
        r@ == roman(n as nat),
{
    let mut out: Vec<char> = Vec::new();
    let mut m = n;
    while m >= 10
        invariant
            out@ + roman(m as nat) == roman(n as nat),
        decreases m,
    {
        let ghost before = out@;
        out.push('x');
        assert(before + roman(m as nat) =~= out@ + roman((m - 10) as nat));
        m -= 10;
    }
    if m >= 9 {
        let ghost before = out@;
        out.push('i');
        out.push('x');
        assert(before + roman(m as nat) =~= out@ + roman((m - 9) as nat));
        m -= 9;
    }
    if m >= 5 {
        let ghost before = out@;
        out.push('v');
        assert(before + roman(m as nat) =~= out@ + roman((m - 5) as nat));
        m -= 5;
    }
    if m >= 4 {
        let ghost before = out@;
        out.push('i');
        out.push('v');
        assert(before + roman(m as nat) =~= out@ + roman((m - 4) as nat));
        m -= 4;
    }
    while m >= 1
        invariant
            m < 4,
            out@ + roman(m as nat) == roman(n as nat),
        decreases m,
    {
        let ghost before = out@;
        out.push('i');
        assert(before + roman(m as nat) =~= out@ + roman((m - 1) as nat));
        m -= 1;
    }
    assert(out@ + roman(0) =~= out@);
    string_of(out.as_slice())
}

/// Value of a lowercase roman digit.
pub open spec fn roman_digit(c: char) -> int {
    if c == 'i' {
        1
    } else if c == 'v' {
        5
    } else if c == 'x' {
        10
    } else {
        0
    }
}

pub open spec fn is_roman_char(c: char) -> bool {
    c == 'i' || c == 'v' || c == 'x'
}

/// Right-to-left roman evaluation of `s[..k]`: a digit smaller than the largest
/// one added so far (`prev`) is subtracted, any other is added.
pub open spec fn roman_fold(s: Seq<char>, k: int, total: int, prev: int) -> int
    decreases k,
{
    if k <= 0 || k > s.len() {
        total
    } else {
        let v = roman_digit(s[k - 1]);
        if v < prev {
            roman_fold(s, k - 1, total - v, prev)
        } else {
            roman_fold(s, k - 1, total + v, v)
        }
    }
}

/// Value of a lowercase roman numeral, when it is non-empty, made of `i v x`
/// only, and evaluates to 1 through 20.
pub open spec fn roman_value(l: Seq<char>) -> Option<int> {
    if l.len() == 0 || !(forall|i: int| 0 <= i < l.len() ==> is_roman_char(#[trigger] l[i])) {
        None
    } else {
        let t = roman_fold(l, l.len() as int, 0, 0);
        if 0 < t && t <= 20 {
            Some(t)
        } else {
            None
        }
    }
}

fn roman_value_exec(l: &[char]) -> (r: Option<u32>)
    ensures
        match r {
            Some(v) => roman_value(l@) == Some(v as int),
            None => roman_value(l@) is None,
        },
{
    if l.len() == 0 {
        return None;
    }
    let mut i: usize = 0;
    while i < l.len()
        invariant
            i <= l@.len(),
            forall|k: int| 0 <= k < i ==> is_roman_char(#[trigger] l@[k]),
        decreases l.len() - i,
    {
        let c = l[i];
        if !(c == 'i' || c == 'v' || c == 'x') {
            assert(!is_roman_char(l@[i as int]));
            return None;
        }
        i += 1;
    }
    let mut total: i128 = 0;
    let mut prev: i128 = 0;
    let mut k: usize = l.len();
    while k > 0
        invariant
            k <= l@.len(),
            forall|j: int| 0 <= j < l@.len() ==> is_roman_char(#[trigger] l@[j]),
            -10 * (l@.len() - k) <= total <= 10 * (l@.len() - k),
            0 <= prev <= 10,
            roman_fold(l@, l@.len() as int, 0, 0) == roman_fold(l@, k as int, total as int, prev as int),
        decreases k,
    {
        let c = l[k - 1];
        let v: i128 = if c == 'i' {
            1
        } else if c == 'v' {
            5
        } else {
            10
        };
        assert(is_roman_char(l@[k - 1]));
        if v < prev {
            total = total - v;
        } else {
            total = total + v;
            prev = v;
        }
        k -= 1;
    }
    if total > 0 && total <= 20 {
        Some(total as u32)
    } else {
        None
    }
}

/// Value of a roman section marker (`"III"` is 3), after Unicode
/// lowercasing (which is ASCII lowercasing on ASCII text).
pub open spec fn from_roman_spec(text: Seq<char>) -> Option<int> {
    if all_ascii(text) {
        roman_value(lower(text))
    } else {
        roman_value(unicode_lower(text))
    }
}

/// Parse a roman numeral from 1 to 20 (case-insensitive).
pub fn from_roman(text: &str) -> (r: Option<u32>)
    ensures
        match r {
            Some(v) => from_roman_spec(text@) == Some(v as int),
            None => from_roman_spec(text@) is None,
        },
{
    let low = to_lowercase(text);
    let l = chars_of(low.as_str());
    roman_value_exec(l.as_slice())
}

/// A section number from a citation needle: `3`, `3.`, `iii` or `III.`, from 1 to 20.
pub open spec fn section_number(needle: Seq<char>) -> Option<int> {
    let t = trim_end_char(trim(needle), '.');
    match parse_unsigned(t, 0xFFFF_FFFF) {
        Some(n) => if 1 <= n && n <= 20 {
            Some(n)
        } else {
            None
        },
        None => from_roman_spec(t),
    }
}

/// Parse a section number (arabic or roman, 1 through 20) out of a needle.
pub fn parse_section_number(needle: &str) -> (r: Option<u32>)
    ensures
        match r {
            Some(v) => section_number(needle@) == Some(v as int),
            None => section_number(needle@) is None,
        },
{
    let n = chars_of(needle);
    let t0 = trim_exec(n.as_slice());
    let t = trim_end_char_exec(t0.as_slice(), '.');
    match parse_u32_exec(t.as_slice()) {
        Some(v) => {
            if 1 <= v && v <= 20 {
                Some(v)
            } else {
                None
            }
        },
        None => {
            let ts = string_of(t.as_slice());
            from_roman(ts.as_str())
        },
    }
}

/// The digits of `n` evaluate back to `n`.
pub proof fn lemma_dec_value(n: nat)
    ensures
        digits_value(dec(n)) == n,
    decreases n,
{
    let d: nat = n % 10;
    assert((crate::text::digit_char(d) as u32) == 48 + d);
    if n >= 10 {
        lemma_dec_value(n / 10);
        assert(dec(n).drop_last() =~= dec(n / 10));
        assert(dec(n).last() == crate::text::digit_char(d));
        vstd::arithmetic::div_mod::lemma_fundamental_div_mod(n as int, 10);
        assert(digits_value(dec(n)) == digits_value(dec(n / 10)) * 10 + d);
        assert(digits_value(dec(n / 10)) == n / 10);
        assert(digits_value(dec(n)) == n);
    } else {
        assert(dec(n).drop_last() =~= Seq::<char>::empty());
        assert(dec(n).last() == crate::text::digit_char(d));
        assert(d == n);
        assert(digits_value(dec(n)) == digits_value(Seq::<char>::empty()) * 10 + d);
        assert(digits_value(dec(n)) == n);
    }
}

/// Law: a section cited by its arabic number `n` (1 through 20), with or
/// without a trailing `.`, is section `n`.
pub proof fn lemma_arabic_section_number(n: nat)
    requires
        1 <= n <= 20,
    ensures
        section_number(dec(n)) == Some(n as int),
        section_number(dec(n) + seq!['.']) == Some(n as int),
{
    let d = dec(n);
    lemma_dec_digits(n);
    lemma_dec_value(n);
    assert forall|i: int| 0 <= i < d.len() implies !is_ws(#[trigger] d[i]) && d[i] != '.' by {
        assert(is_digit(d[i]));
    }
    lemma_trim_fixed(d);
    assert(trim_end_char(d, '.') =~= d);
    assert(d[0] != '+') by {
        assert(is_digit(d[0]));
    }
    let dd = d + seq!['.'];
    assert(dd[0] == d[0]);
    assert(!is_ws(dd[dd.len() - 1]));
    lemma_trim_fixed(dd);
    assert(trail_char(dd, '.', d.len() as int) == d.len()) by {
        assert(dd[d.len() - 1] == d[d.len() - 1]);
    }
    assert(trail_char(dd, '.', dd.len() as int) == trail_char(dd, '.', d.len() as int));
    assert(trim_end_char(dd, '.') =~= d);
}

/// Law: a section cited by its roman numeral (1 through 20, `to_roman`'s
/// spelling), with or without a trailing `.`, is that section.
pub proof fn lemma_roman_section_number(n: nat)
    requires
        1 <= n <= 20,
    ensures
        section_number(roman(n)) == Some(n as int),
        section_number(roman(n) + seq!['.']) == Some(n as int),
{
    lemma_roman_table();
    lemma_roman_round_trip(n);
    let r = roman(n);
    assert(r.len() > 0);
    assert forall|i: int| 0 <= i < r.len() implies is_roman_char(#[trigger] r[i]) by {}
    assert forall|i: int| 0 <= i < r.len() implies !is_ws(#[trigger] r[i]) && r[i] != '.'
        && is_ascii_char(r[i]) && lower_char(r[i]) == r[i] by {
        assert(is_roman_char(r[i]));
    }
    assert(lower(r) =~= r);
    assert(all_ascii(r));
    lemma_trim_fixed(r);
    assert(trim_end_char(r, '.') =~= r);
    assert(!is_digit(r[0]) && r[0] != '+') by {
        assert(is_roman_char(r[0]));
    }
    assert(parse_unsigned(r, 0xFFFF_FFFF) is None);
    let rd = r + seq!['.'];
    assert(rd[0] == r[0]);
    assert(!is_ws(rd[rd.len() - 1]));
    lemma_trim_fixed(rd);
    assert(trail_char(rd, '.', r.len() as int) == r.len()) by {
        assert(rd[r.len() - 1] == r[r.len() - 1]);
    }
    assert(trail_char(rd, '.', rd.len() as int) == trail_char(rd, '.', r.len() as int));
    assert(trim_end_char(rd, '.') =~= r);
}

/// Law: reading back the roman numeral of `n` (1 through 20) gives `n`.
pub proof fn lemma_roman_round_trip(n: nat)
    requires
        1 <= n <= 20,
    ensures
        roman_value(roman(n)) == Some(n as int),
{
    if n <= 5 {
        lemma_roman_round_trip_a(n);
    } else if n <= 10 {
        lemma_roman_round_trip_b(n);
    } else if n <= 15 {
        lemma_roman_round_trip_c(n);
    } else {
        lemma_roman_round_trip_d(n);
    }
}

proof fn lemma_roman_table()
    ensures
        roman(1) == seq!['i'],
        roman(2) == seq!['i', 'i'],
        roman(3) == seq!['i', 'i', 'i'],
        roman(4) == seq!['i', 'v'],
        roman(5) == seq!['v'],
        roman(6) == seq!['v', 'i'],
        roman(7) == seq!['v', 'i', 'i'],
        roman(8) == seq!['v', 'i', 'i', 'i'],
        roman(9) == seq!['i', 'x'],
        roman(10) == seq!['x'],
        roman(11) == seq!['x', 'i'],
        roman(12) == seq!['x', 'i', 'i'],
        roman(13) == seq!['x', 'i', 'i', 'i'],
        roman(14) == seq!['x', 'i', 'v'],
        roman(15) == seq!['x', 'v'],
        roman(16) == seq!['x', 'v', 'i'],
        roman(17) == seq!['x', 'v', 'i', 'i'],
        roman(18) == seq!['x', 'v', 'i', 'i', 'i'],
        roman(19) == seq!['x', 'i', 'x'],
        roman(20) == seq!['x', 'x'],
{
    assert(roman(0) =~= Seq::<char>::empty());
    assert(roman(1) =~= seq!['i']);
    assert(roman(2) =~= seq!['i', 'i']);
    assert(roman(3) =~= seq!['i', 'i', 'i']);
    assert(roman(4) =~= seq!['i', 'v']);
    assert(roman(5) =~= seq!['v']);
    assert(roman(6) =~= seq!['v', 'i']);
    assert(roman(7) =~= seq!['v', 'i', 'i']);
    assert(roman(8) =~= seq!['v', 'i', 'i', 'i']);
    assert(roman(9) =~= seq!['i', 'x']);
    assert(roman(10) =~= seq!['x']);
    assert(roman(11) =~= seq!['x', 'i']);
    assert(roman(12) =~= seq!['x', 'i', 'i']);
    assert(roman(13) =~= seq!['x', 'i', 'i', 'i']);
    assert(roman(14) =~= seq!['x', 'i', 'v']);
    assert(roman(15) =~= seq!['x', 'v']);
    assert(roman(16) =~= seq!['x', 'v', 'i']);
    assert(roman(17) =~= seq!['x', 'v', 'i', 'i']);
    assert(roman(18) =~= seq!['x', 'v', 'i', 'i', 'i']);
    assert(roman(19) =~= seq!['x', 'i', 'x']);
    assert(roman(20) =~= seq!['x', 'x']);
}

proof fn lemma_roman_round_trip_a(n: nat)
    requires
        1 <= n <= 5,
    ensures
        roman_value(roman(n)) == Some(n as int),
{
    lemma_roman_table();
    lemma_roman_chars(n);
    reveal_with_fuel(roman_fold, 6);
    if n == 1 {
        assert(roman_fold(roman(1), 1, 0, 0) == 1);
    } else if n == 2 {
        assert(roman_fold(roman(2), 2, 0, 0) == 2);
    } else if n == 3 {
        assert(roman_fold(roman(3), 3, 0, 0) == 3);
    } else if n == 4 {
        assert(roman_fold(roman(4), 2, 0, 0) == 4);
    } else if n == 5 {
        assert(roman_fold(roman(5), 1, 0, 0) == 5);
    }
}

proof fn lemma_roman_round_trip_b(n: nat)
    requires
        6 <= n <= 10,
    ensures
        roman_value(roman(n)) == Some(n as int),
{
    lemma_roman_table();
    lemma_roman_chars(n);
    reveal_with_fuel(roman_fold, 6);
    if n == 6 {
        assert(roman_fold(roman(6), 2, 0, 0) == 6);
    } else if n == 7 {
        assert(roman_fold(roman(7), 3, 0, 0) == 7);
    } else if n == 8 {
        assert(roman_fold(roman(8), 4, 0, 0) == 8);
    } else if n == 9 {
        assert(roman_fold(roman(9), 2, 0, 0) == 9);
    } else if n == 10 {
        assert(roman_fold(roman(10), 1, 0, 0) == 10);
    }
}

proof fn lemma_roman_round_trip_c(n: nat)
    requires
        11 <= n <= 15,
    ensures
        roman_value(roman(n)) == Some(n as int),
{
    lemma_roman_table();
    lemma_roman_chars(n);
    reveal_with_fuel(roman_fold, 6);
    if n == 11 {
        assert(roman_fold(roman(11), 2, 0, 0) == 11);
    } else if n == 12 {
        assert(roman_fold(roman(12), 3, 0, 0) == 12);
    } else if n == 13 {
        assert(roman_fold(roman(13), 4, 0, 0) == 13);
    } else if n == 14 {
        assert(roman_fold(roman(14), 3, 0, 0) == 14);
    } else if n == 15 {
        assert(roman_fold(roman(15), 2, 0, 0) == 15);
    }
}

proof fn lemma_roman_round_trip_d(n: nat)
    requires
        16 <= n <= 20,
    ensures
        roman_value(roman(n)) == Some(n as int),
{
    lemma_roman_table();
    lemma_roman_chars(n);
    reveal_with_fuel(roman_fold, 6);
    if n == 16 {
        assert(roman_fold(roman(16), 3, 0, 0) == 16);
    } else if n == 17 {
        assert(roman_fold(roman(17), 4, 0, 0) == 17);
    } else if n == 18 {
        assert(roman_fold(roman(18), 5, 0, 0) == 18);
    } else if n == 19 {
        assert(roman_fold(roman(19), 3, 0, 0) == 19);
    } else if n == 20 {
        assert(roman_fold(roman(20), 2, 0, 0) == 20);
    }
}

proof fn lemma_roman_chars(n: nat)
    ensures
        forall|i: int| 0 <= i < roman(n).len() ==> is_roman_char(#[trigger] roman(n)[i]),
    decreases n,
{
    if n >= 1 {
        let k: nat = if n >= 10 {
            (n - 10) as nat
        } else if n >= 9 {
            (n - 9) as nat
        } else if n >= 5 {
            (n - 5) as nat
        } else if n >= 4 {
            (n - 4) as nat
        } else {
            (n - 1) as nat
        };
        lemma_roman_chars(k);
        let h: Seq<char> = if n >= 10 {
            seq!['x']
        } else if n >= 9 {
            seq!['i', 'x']
        } else if n >= 5 {
            seq!['v']
        } else if n >= 4 {
            seq!['i', 'v']
        } else {
            seq!['i']
        };
        assert(roman(n) == h + roman(k));
        assert forall|i: int| 0 <= i < roman(n).len() implies is_roman_char(#[trigger] roman(n)[i]) by {
            if i >= h.len() {
                assert(roman(n)[i] == roman(k)[i - h.len()]);
            }
        }
    }
}

} // verus!
