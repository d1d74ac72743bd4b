//! Decimal numbers: what a numeric operand is, parsing one, and rendering
//! a result back to decimal text.
use vstd::prelude::*;

verus! {

/// The ten decimal digit characters.
pub open spec fn is_digit_char(c: char) -> bool {
    c == '0' || c == '1' || c == '2' || c == '3' || c == '4' || c == '5' || c == '6' || c == '7'
        || c == '8' || c == '9'
}

/// The value of one decimal digit character.
pub open spec fn digit_val(c: char) -> int {
    if c == '0' {
        0
    } else if c == '1' {
        1
    } else if c == '2' {
        2
    } else if c == '3' {
        3
    } else if c == '4' {
        4
    } else if c == '5' {
        5
    } else if c == '6' {
        6
    } else if c == '7' {
        7
    } else if c == '8' {
        8
    } else {
        9
    }
}

/// The decimal digit character of a value below ten.
pub open spec fn digit_char(d: int) -> char {
    if d == 0 {
        '0'
    } else if d == 1 {
        '1'
    } else if d == 2 {
        '2'
    } else if d == 3 {
        '3'
    } else if d == 4 {
        '4'
    } else if d == 5 {
        '5'
    } else if d == 6 {
        '6'
    } else if d == 7 {
        '7'
    } else if d == 8 {
        '8'
    } else {
        '9'
    }
}

pub open spec fn all_digits(s: Seq<char>) -> bool {
    forall|i: int| 0 <= i < s.len() ==> is_digit_char(s[i])
}

/// The value of a sequence of decimal digit characters.
pub open spec fn digits_value(s: Seq<char>) -> int
    decreases s.len(),
{
    if s.len() == 0 {
        0
    } else {
        digits_value(s.drop_last()) * 10 + digit_val(s.last())
    }
}

pub open spec fn pow10(k: nat) -> int
    decreases k,
{
    if k == 0 {
        1
    } else {
        10 * pow10((k - 1) as nat)
    }
}

/// A numeric operand: an optional sign followed by at least one digit.
pub open spec fn valid_number(s: Seq<char>) -> bool {
    if s.len() == 0 {
        false
    } else if s[0] == '+' || s[0] == '-' {
        s.len() >= 2 && all_digits(s.skip(1))
    } else {
        all_digits(s)
    }
}

/// The mathematical value of a numeric operand.
pub open spec fn number_value(s: Seq<char>) -> int {
    if s.len() == 0 {
        0
    } else if s[0] == '-' {
        -digits_value(s.skip(1))
    } else if s[0] == '+' {
        digits_value(s.skip(1))
    } else {
        digits_value(s)
    }
}

pub open spec fn in_i64(n: int) -> bool {
    i64::MIN <= n <= i64::MAX
}

/// What parsing an operand yields: its value when the text is a
/// well-formed number whose value fits the numeric range, nothing
/// otherwise.
pub open spec fn parse_i64_spec(s: Seq<char>) -> Option<int> {
    if valid_number(s) && in_i64(number_value(s)) {
        Some(number_value(s))
    } else {
        None
    }
}

pub proof fn lemma_pow10_positive(k: nat)
    ensures
        pow10(k) >= 1,
    decreases k,
{
    if k > 0 {
        lemma_pow10_positive((k - 1) as nat);
    }
}

pub proof fn lemma_pow10_mono(a: nat, b: nat)
    requires
        a <= b,
    ensures
        pow10(a) <= pow10(b),
    decreases b,
{
    if a < b {
        lemma_pow10_mono(a, (b - 1) as nat);
        lemma_pow10_positive((b - 1) as nat);
    }
}

pub proof fn lemma_digits_value_bounds(s: Seq<char>)
    requires
        all_digits(s),
    ensures
        0 <= digits_value(s) < pow10(s.len()),
    decreases s.len(),
{
    if s.len() > 0 {
        lemma_digits_value_bounds(s.drop_last());
        let fore = digits_value(s.drop_last());
        let p = pow10((s.len() - 1) as nat);
        assert(0 <= digit_val(s.last()) <= 9);
        assert(fore * 10 + digit_val(s.last()) < 10 * p) by (nonlinear_arith)
            requires
                0 <= fore < p,
                digit_val(s.last()) <= 9,
        ;
        assert(fore * 10 >= 0) by (nonlinear_arith)
            requires
                fore >= 0,
        ;
    }
}

pub proof fn lemma_digits_value_lower(s: Seq<char>)
    requires
        all_digits(s),
        s.len() >= 1,
        s[0] != '0',
    ensures
        digits_value(s) >= pow10((s.len() - 1) as nat),
    decreases s.len(),
{
    if s.len() == 1 {
        assert(digit_val(s[0]) >= 1);
    } else {
        lemma_digits_value_lower(s.drop_last());
        let fore = digits_value(s.drop_last());
        let p = pow10((s.len() - 2) as nat);
        assert(fore * 10 >= p * 10) by (nonlinear_arith)
            requires
                fore >= p,
        ;
        assert(digit_val(s.last()) >= 0);
    }
}

proof fn lemma_digits_value_all_zeros(s: Seq<char>)
    requires
        forall|k: int| 0 <= k < s.len() ==> s[k] == '0',
    ensures
        digits_value(s) == 0,
    decreases s.len(),
{
    if s.len() > 0 {
        lemma_digits_value_all_zeros(s.drop_last());
    }
}

proof fn lemma_digits_value_skip_zeros(s: Seq<char>, k: int)
    requires
        0 <= k <= s.len(),
        forall|j: int| 0 <= j < k ==> s[j] == '0',
    ensures
        digits_value(s) == digits_value(s.skip(k)),
    decreases s.len(),
{
    if s.len() == k {
        lemma_digits_value_all_zeros(s);
        assert(s.skip(k) =~= Seq::<char>::empty());
    } else {
        lemma_digits_value_skip_zeros(s.drop_last(), k);
        assert(s.skip(k).drop_last() =~= s.drop_last().skip(k));
        assert(s.skip(k).last() == s.last());
    }
}

/// Whether `c` is a decimal digit.
pub fn is_digit(c: char) -> (r: bool)
    ensures
        r == is_digit_char(c),
{
    c == '0' || c == '1' || c == '2' || c == '3' || c == '4' || c == '5' || c == '6' || c == '7'
        || c == '8' || c == '9'
}

/// The value of the decimal digit `c`.
fn digit_of(c: char) -> (r: u64)
    requires
        is_digit_char(c),
    ensures
        r == digit_val(c),
        r <= 9,
{
    if c == '0' {
        0
    } else if c == '1' {
        1
    } else if c == '2' {
        2
    } else if c == '3' {
        3
    } else if c == '4' {
        4
    } else if c == '5' {
        5
    } else if c == '6' {
        6
    } else if c == '7' {
        7
    } else if c == '8' {
        8
    } else {
        9
    }
}

/// Parses an already-trimmed operand as a signed decimal integer:
/// an optional `+` or `-` sign followed by one or more digits, whose
/// value fits the numeric range.
pub fn parse_i64(s: &str) -> (r: Option<i64>)
    ensures
        match r {
            Some(v) => parse_i64_spec(s@) == Some(v as int),
            None => parse_i64_spec(s@) is None,
        },
{
    let n = s.unicode_len();
    if n == 0 {
        return None;
    }
    let c0 = s.get_char(0);
    let neg = c0 == '-';
    let start: usize = if c0 == '-' || c0 == '+' {
        1
    } else {
        0
    };
    if start == n {
        return None;
    }
    let mut i: usize = start;
    while i < n
        invariant
            n == s@.len(),
            n >= 1,
            start <= i <= n,
            start == 0 || start == 1,
            (start == 1) <==> (s@[0] == '+' || s@[0] == '-'),
            forall|k: int| start <= k < i ==> is_digit_char(s@[k]),
        decreases n - i,
    {
        if !is_digit(s.get_char(i)) {
            proof {
                if start == 1 {
                    assert(s@.skip(1)[i - 1] == s@[i as int]);
                    assert(!all_digits(s@.skip(1)));
                } else {
                    assert(!all_digits(s@));
                }
                assert(!valid_number(s@));
            }
            return None;
        }
        i = i + 1;
    }
    proof {
        if start == 1 {
            assert(all_digits(s@.skip(1))) by {
                assert forall|k: int| 0 <= k < s@.skip(1).len() implies is_digit_char(
                    s@.skip(1)[k],
                ) by {
                    assert(s@.skip(1)[k] == s@[k + 1]);
                }
            }
        }
        assert(valid_number(s@));
    }
    let ghost digits = s@.skip(start as int);
    proof {
        assert(all_digits(digits)) by {
            assert forall|k: int| 0 <= k < digits.len() implies is_digit_char(digits[k]) by {
                assert(digits[k] == s@[k + start]);
            }
        }
        if start == 0 {
            assert(s@.skip(0) =~= s@);
        }
        assert(number_value(s@) == digits_value(digits) || number_value(s@) == -digits_value(
            digits,
        ));
        assert(neg ==> number_value(s@) == -digits_value(digits));
        assert(!neg ==> number_value(s@) == digits_value(digits));
    }
    let mut z: usize = start;
    while z < n && s.get_char(z) == '0'
        invariant
            n == s@.len(),
            start <= z <= n,
            forall|k: int| start <= k < z ==> s@[k] == '0',
        decreases n - z,
    {
        z = z + 1;
    }
    proof {
        lemma_digits_value_skip_zeros(digits, z - start);
        assert(digits.skip(z - start) =~= s@.skip(z as int));
    }
    if z == n {
        proof {
            assert(s@.skip(z as int) =~= Seq::<char>::empty());
        }
        return Some(0);
    }
    let ghost core = s@.skip(z as int);
    proof {
        assert(all_digits(core)) by {
            assert forall|k: int| 0 <= k < core.len() implies is_digit_char(core[k]) by {
                assert(core[k] == s@[k + z]);
            }
        }
        assert(core[0] == s@[z as int]);
        assert(core[0] != '0');
        lemma_digits_value_bounds(core);
        lemma_digits_value_lower(core);
    }
    if n - z > 19 {
        proof {
            lemma_pow10_mono(19, (core.len() - 1) as nat);
            assert(pow10(19) == 10_000_000_000_000_000_000) by {
                reveal_with_fuel(pow10, 21);
            }
        }
        return None;
    }
    let mut acc: u64 = 0;
    let mut j: usize = z;
    proof {
        assert(s@.subrange(z as int, z as int) =~= Seq::<char>::empty());
    }
    while j < n
        invariant
            n == s@.len(),
            z <= j <= n,
            n - z <= 19,
            forall|k: int| z <= k < n ==> is_digit_char(s@[k]),
            acc == digits_value(s@.subrange(z as int, j as int)),
        decreases n - j,
    {
        let ghost piece = s@.subrange(z as int, j as int);
        proof {
            assert(all_digits(piece)) by {
                assert forall|k: int| 0 <= k < piece.len() implies is_digit_char(piece[k]) by {
                    assert(piece[k] == s@[k + z]);
                }
            }
            lemma_digits_value_bounds(piece);
            lemma_pow10_mono((j - z) as nat, 18);
            assert(pow10(18) == 1_000_000_000_000_000_000) by {
                reveal_with_fuel(pow10, 20);
            }
        }
        let d = digit_of(s.get_char(j));
        acc = acc * 10 + d;
        proof {
            assert(s@.subrange(z as int, j + 1).drop_last() =~= piece);
        }
        j = j + 1;
    }
    proof {
        assert(s@.subrange(z as int, n as int) =~= core);
        assert(acc == digits_value(digits));
    }
    if neg {
        if acc > 9_223_372_036_854_775_808u64 {
            return None;
        }
        if acc == 9_223_372_036_854_775_808u64 {
            return Some(i64::MIN);
        }
        Some(-(acc as i64))
    } else {
        if acc > 9_223_372_036_854_775_807u64 {
            return None;
        }
        Some(acc as i64)
    }
}

/// The decimal digit characters of a non-negative value, most significant
/// first, without leading zeros.
pub open spec fn dec_digits(n: nat) -> Seq<char>
    decreases n,
{
    if n < 10 {
        seq![digit_char(n as int)]
    } else {
        dec_digits(n / 10).push(digit_char((n % 10) as int))
    }
}

/// The decimal text of a value: a `-` sign where it is negative, then its
/// digits.
pub open spec fn dec_chars(v: int) -> Seq<char> {
    if v < 0 {
        seq!['-'] + dec_digits((-v) as nat)
    } else {
        dec_digits(v as nat)
    }
}

/// The digit characters of collected low-order-first digit values, read
/// back most significant first.
spec fn rev_chars(ds: Seq<u8>) -> Seq<char>
    decreases ds.len(),
{
    if ds.len() == 0 {
        Seq::empty()
    } else {
        seq![digit_char(ds.last() as int)] + rev_chars(ds.drop_last())
    }
}

proof fn lemma_rev_chars_index(ds: Seq<u8>, i: int)
    requires
        0 <= i < ds.len(),
    ensures
        rev_chars(ds).len() == ds.len(),
        rev_chars(ds)[i] == digit_char(ds[ds.len() - 1 - i] as int),
    decreases ds.len(),
{
    lemma_rev_chars_len(ds);
    if i > 0 {
        lemma_rev_chars_index(ds.drop_last(), i - 1);
    }
}

proof fn lemma_rev_chars_len(ds: Seq<u8>)
    ensures
        rev_chars(ds).len() == ds.len(),
    decreases ds.len(),
{
    if ds.len() > 0 {
        lemma_rev_chars_len(ds.drop_last());
    }
}

/// The text of one digit value.
fn digit_str(d: u64) -> (r: &'static str)
    requires
        d <= 9,
    ensures
        r@ == seq![digit_char(d as int)],
{
    if d == 0 {
        proof {
            reveal_strlit("0");
            assert("0"@ =~= seq![digit_char(0)]);
        }
        "0"
    } else if d == 1 {
        proof {
            reveal_strlit("1");
            assert("1"@ =~= seq![digit_char(1)]);
        }
        "1"
    } else if d == 2 {
        proof {
            reveal_strlit("2");
            assert("2"@ =~= seq![digit_char(2)]);
        }
        "2"
    } else if d == 3 {
        proof {
            reveal_strlit("3");
            assert("3"@ =~= seq![digit_char(3)]);
        }
        "3"
    } else if d == 4 {
        proof {
            reveal_strlit("4");
            assert("4"@ =~= seq![digit_char(4)]);
        }
        "4"
    } else if d == 5 {
        proof {
            reveal_strlit("5");
            assert("5"@ =~= seq![digit_char(5)]);
        }
        "5"
    } else if d == 6 {
        proof {
            reveal_strlit("6");
            assert("6"@ =~= seq![digit_char(6)]);
        }
        "6"
    } else if d == 7 {
        proof {
            reveal_strlit("7");
            assert("7"@ =~= seq![digit_char(7)]);
        }
        "7"
    } else if d == 8 {
        proof {
            reveal_strlit("8");
            assert("8"@ =~= seq![digit_char(8)]);
        }
        "8"
    } else {
        proof {
            reveal_strlit("9");
            assert("9"@ =~= seq![digit_char(9)]);
        }
        "9"
    }
}

/// Renders a value as decimal text.
pub fn to_decimal(v: i64) -> (r: String)
    ensures
        r@ == dec_chars(v as int),
{
    let mag: u64 = if v >= 0 {
        v as u64
    } else if v == i64::MIN {
        9_223_372_036_854_775_808u64
    } else {
        (-v) as u64
    };
    proof {
        assert(v >= 0 ==> mag == v as int);
        assert(v < 0 ==> mag == -(v as int));
    }
    let mut ds: Vec<u8> = Vec::new();
    let mut m = mag;
    proof {
        assert(dec_digits(mag as nat) =~= dec_digits(m as nat) + rev_chars(ds@));
    }
    while m >= 10
        invariant
            dec_digits(mag as nat) == dec_digits(m as nat) + rev_chars(ds@),
            forall|k: int| 0 <= k < ds@.len() ==> ds@[k] <= 9,
        decreases m,
    {
        let ghost pre = ds@;
        let d = m % 10;
        ds.push(d as u8);
        proof {
            assert(ds@.drop_last() =~= pre);
            assert(rev_chars(ds@) =~= seq![digit_char(d as int)] + rev_chars(pre));
        }
        m = m / 10;
        proof {
            assert(dec_digits(mag as nat) =~= dec_digits(m as nat) + rev_chars(ds@));
        }
    }
    let ghost pre = ds@;
    ds.push(m as u8);
    proof {
        assert(ds@.drop_last() =~= pre);
        assert(rev_chars(ds@) =~= seq![digit_char(m as int)] + rev_chars(pre));
        assert(dec_digits(mag as nat) =~= rev_chars(ds@));
        lemma_rev_chars_len(ds@);
    }
    let mut out = if v < 0 {
        proof {
            reveal_strlit("-");
            assert("-"@ =~= seq!['-']);
        }
        String::from_str("-")
    } else {
        proof {
            assert(Seq::<char>::empty() =~= dec_chars(v as int).take(0));
        }
        String::new()
    };
    let ghost sign: Seq<char> = if v < 0 {
        seq!['-']
    } else {
        Seq::empty()
    };
    proof {
        assert(dec_chars(v as int) =~= sign + rev_chars(ds@));
    }
    let total = ds.len();
    let mut k: usize = total;
    while k > 0
        invariant
            total == ds@.len(),
            k <= total,
            forall|j: int| 0 <= j < ds@.len() ==> ds@[j] <= 9,
            rev_chars(ds@).len() == total,
            out@ == sign + rev_chars(ds@).take(total - k),
        decreases k,
    {
        k = k - 1;
        let piece = digit_str(ds[k] as u64);
        out.append(piece);
        proof {
            lemma_rev_chars_index(ds@, total - 1 - k);
            assert(rev_chars(ds@).take(total - k) =~= rev_chars(ds@).take(
                total - k - 1,
            ).push(rev_chars(ds@)[total - 1 - k]));
            assert(out@ =~= sign + rev_chars(ds@).take(total - k));
        }
    }
    proof {
        assert(rev_chars(ds@).take(total as int) =~= rev_chars(ds@));
        assert(out@ =~= dec_chars(v as int));
    }
    out
}

} // verus!
