use vstd::prelude::*;

verus! {

/// The ten decimal digit characters.
pub open spec fn is_digit(c: char) -> bool {
    c == '0' || c == '1' || c == '2' || c == '3' || c == '4' || c == '5' || c == '6' || c == '7'
        || c == '8' || c == '9'
}

/// Numeric value of a decimal digit character.
pub open spec fn digit_val(c: char) -> int {
    if c == '0' {
        0
    } else if c == '1' {
        1
    } else if c == '2' {
        2
    } else if c == '3' {
        3
    } else if c == '4' {
        4
    } else if c == '5' {
        5
    } else if c == '6' {
        6
    } else if c == '7' {
        7
    } else if c == '8' {
        8
    } else {
        9
    }
}

/// Decimal digit character for a value below ten.
pub open spec fn digit_char(d: int) -> char {
    if d == 0 {
        '0'
    } else if d == 1 {
        '1'
    } else if d == 2 {
        '2'
    } else if d == 3 {
        '3'
    } else if d == 4 {
        '4'
    } else if d == 5 {
        '5'
    } else if d == 6 {
        '6'
    } else if d == 7 {
        '7'
    } else if d == 8 {
        '8'
    } else {
        '9'
    }
}

/// Every character of `s` is a decimal digit.
pub open spec fn all_digits(s: Seq<char>) -> bool {
    forall|i: int| 0 <= i < s.len() ==> is_digit(s[i])
}

/// Value of a sequence of decimal digit characters, most significant first.
pub open spec fn dec_value(s: Seq<char>) -> int
    decreases s.len(),
{
    if s.len() == 0 {
        0
    } else {
        dec_value(s.drop_last()) * 10 + digit_val(s.last())
    }
}

/// Decimal representation of `n`: most significant digit first, no sign and
/// no leading zeros (`"0"` for zero).
pub open spec fn dec_digits(n: nat) -> Seq<char>
    decreases n,
{
    if n < 10 {
        seq![digit_char(n as int)]
    } else {
        dec_digits(n / 10) + seq![digit_char((n % 10) as int)]
    }
}

/// `n` left-padded with zeros to two digits; meaningful for `n < 100`.
pub open spec fn dec_digits_2(n: int) -> Seq<char> {
    seq![digit_char(n / 10), digit_char(n % 10)]
}

/// `n` left-padded with zeros to four digits; meaningful for `n < 10000`.
pub open spec fn dec_digits_4(n: int) -> Seq<char> {
    seq![
        digit_char(n / 1000),
        digit_char((n / 100) % 10),
        digit_char((n / 10) % 10),
        digit_char(n % 10),
    ]
}

/// Index of the first occurrence of `sep` in `s`, or `s.len()` if absent.
pub open spec fn first_sep(s: Seq<char>, sep: char) -> nat
    decreases s.len(),
{
    if s.len() == 0 {
        0
    } else if s[0] == sep {
        0
    } else {
        1 + first_sep(s.drop_first(), sep)
    }
}

/// The fields of `s` delimited by `sep`: splitting on every occurrence,
/// keeping empty fields, as the fields of a composite key are read.
pub open spec fn split_on(s: Seq<char>, sep: char) -> Seq<Seq<char>>
    decreases s.len(),
{
    let i = first_sep(s, sep) as int;
    if i >= s.len() {
        seq![s]
    } else {
        seq![s.take(i)] + split_on(s.skip(i + 1), sep)
    }
}

pub proof fn lemma_first_sep_bounds(s: Seq<char>, sep: char)
    ensures
        first_sep(s, sep) <= s.len(),
        first_sep(s, sep) < s.len() ==> s[first_sep(s, sep) as int] == sep,
        forall|k: int| 0 <= k < first_sep(s, sep) ==> s[k] != sep,
    decreases s.len(),
{
    if s.len() > 0 && s[0] != sep {
        lemma_first_sep_bounds(s.drop_first(), sep);
        assert forall|k: int| 0 <= k < first_sep(s, sep) implies s[k] != sep by {
            if k > 0 {
                assert(s.drop_first()[k - 1] == s[k]);
            }
        }
    }
}

/// `first_sep` is pinned down by its characterization: no separator before
/// `j`, and `j` is either a separator position or the end.
pub proof fn lemma_first_sep_is(s: Seq<char>, sep: char, j: int)
    requires
        0 <= j <= s.len(),
        forall|k: int| 0 <= k < j ==> s[k] != sep,
        j < s.len() ==> s[j] == sep,
    ensures
        first_sep(s, sep) == j,
    decreases j,
{
    if j == 0 {
    } else {
        assert(s[0] != sep);
        assert forall|k: int| 0 <= k < j - 1 implies s.drop_first()[k] != sep by {
            assert(s.drop_first()[k] == s[k + 1]);
        }
        assert(j - 1 < s.drop_first().len() ==> s.drop_first()[j - 1] == sep);
        lemma_first_sep_is(s.drop_first(), sep, j - 1);
    }
}

/// Maps a digit character to its value; `None` exactly on non-digits.
pub fn char_digit(c: char) -> (r: Option<u32>)
    ensures
        r is Some <==> is_digit(c),
        r is Some ==> r->0 == digit_val(c),
{
    match c {
        '0' => Some(0),
        '1' => Some(1),
        '2' => Some(2),
        '3' => Some(3),
        '4' => Some(4),
        '5' => Some(5),
        '6' => Some(6),
        '7' => Some(7),
        '8' => Some(8),
        '9' => Some(9),
        _ => None,
    }
}

/// The one-character string for a digit value below ten.
pub fn digit_str(d: u32) -> (r: &'static str)
    requires
        0 <= d < 10,
    ensures
        r@ == seq![digit_char(d as int)],
{
    proof {
        reveal_strlit("0");
        reveal_strlit("1");
        reveal_strlit("2");
        reveal_strlit("3");
        reveal_strlit("4");
        reveal_strlit("5");
        reveal_strlit("6");
        reveal_strlit("7");
        reveal_strlit("8");
        reveal_strlit("9");
    }
    let s = match d {
        0 => "0",
        1 => "1",
        2 => "2",
        3 => "3",
        4 => "4",
        5 => "5",
        6 => "6",
        7 => "7",
        8 => "8",
        _ => "9",
    };
    proof {
        assert(s@ =~= seq![digit_char(d as int)]);
    }
    s
}

/// Monotonicity of `dec_value` over prefixes of a digit string.
pub proof fn lemma_dec_value_nonneg(s: Seq<char>)
    requires
        all_digits(s),
    ensures
        dec_value(s) >= 0,
    decreases s.len(),
{
    if s.len() > 0 {
        assert(all_digits(s.drop_last())) by {
            assert(forall|i: int| 0 <= i < s.len() - 1 ==> s.drop_last()[i] == s[i]);
        }
        lemma_dec_value_nonneg(s.drop_last());
    }
}

pub proof fn lemma_dec_value_take_succ(s: Seq<char>, i: int)
    requires
        0 <= i < s.len(),
    ensures
        dec_value(s.take(i + 1)) == dec_value(s.take(i)) * 10 + digit_val(s[i]),
{
    assert(s.take(i + 1).drop_last() =~= s.take(i));
    assert(s.take(i + 1).last() == s[i]);
}

/// A prefix of a digit string never has a larger value than the whole.
pub proof fn lemma_dec_value_take_le(s: Seq<char>, i: int)
    requires
        all_digits(s),
        0 <= i <= s.len(),
    ensures
        dec_value(s.take(i)) <= dec_value(s),
    decreases s.len() - i,
{
    if i < s.len() {
        lemma_dec_value_take_succ(s, i);
        assert(all_digits(s.take(i))) by {
            assert(forall|k: int| 0 <= k < i ==> s.take(i)[k] == s[k]);
        }
        lemma_dec_value_nonneg(s.take(i));
        lemma_dec_value_take_le(s, i + 1);
    } else {
        assert(s.take(i) =~= s);
    }
}

/// Parses a non-empty, all-digit string as a `u32`. Returns `None` exactly
/// when the string is empty, has a non-digit, or the value does not fit.
pub fn parse_u32(s: &str) -> (r: Option<u32>)
    ensures
        r is Some <==> (s@.len() > 0 && all_digits(s@) && dec_value(s@) <= u32::MAX),
        r is Some ==> r->0 == dec_value(s@),
{
    let n = s.unicode_len();
    if n == 0 {
        return None;
    }
    let mut i: usize = 0;
    let mut acc: u32 = 0;
    proof {
        assert(s@.take(0) =~= Seq::<char>::empty());
    }
    while i < n
        invariant
            0 <= i <= n == s@.len(),
            acc as int == dec_value(s@.take(i as int)),
            all_digits(s@.take(i as int)),
        decreases n - i,
    {
        let c = s.get_char(i);
        let d = match char_digit(c) {
            Some(d) => d,
            None => {
                assert(!all_digits(s@)) by {
                    assert(!is_digit(s@[i as int]));
                }
                return None;
            },
        };
        proof {
            lemma_dec_value_take_succ(s@, i as int);
            assert(forall|k: int| 0 <= k < i + 1 ==> s@.take(i + 1)[k] == s@[k]);
        }
        let shifted = match acc.checked_mul(10) {
            Some(v) => v,
            None => {
                proof {
                    digits_overflow_rest(s@, i as int);
                }
                return None;
            },
        };
        let next = match shifted.checked_add(d) {
            Some(v) => v,
            None => {
                proof {
                    digits_overflow_rest(s@, i as int);
                }
                return None;
            },
        };
        acc = next;
        i = i + 1;
    }
    proof {
        assert(s@.take(n as int) =~= s@);
    }
    Some(acc)
}

/// If the value up to and including position `i` already exceeds `u32::MAX`,
/// so does the value of the whole string, provided the rest are digits.
proof fn digits_overflow_rest(s: Seq<char>, i: int)
    requires
        0 <= i < s.len(),
        all_digits(s.take(i)),
        is_digit(s[i]),
        dec_value(s.take(i)) * 10 + digit_val(s[i]) > u32::MAX,
    ensures
        !(all_digits(s) && dec_value(s) <= u32::MAX),
{
    if all_digits(s) {
        lemma_dec_value_take_succ(s, i);
        lemma_dec_value_take_le(s, i + 1);
    }
}

/// Decimal rendering of a `u64`, exactly the digits of `dec_digits`.
pub fn u64_to_string(n: u64) -> (r: String)
    ensures
        r@ == dec_digits(n as nat),
    decreases n,
{
    if n < 10 {
        digit_str(n as u32).to_owned()
    } else {
        let high = u64_to_string(n / 10);
        let low = digit_str((n % 10) as u32);
        let r = high.concat(low);
        proof {
            assert(r@ =~= dec_digits(n as nat));
        }
        r
    }
}

/// Two-digit zero-padded rendering of `n < 100`.
pub fn u32_to_2_digits(n: u32) -> (r: String)
    requires
        n < 100,
    ensures
        r@ == dec_digits_2(n as int),
{
    let tens = digit_str(n / 10);
    let ones = digit_str(n % 10);
    let r = tens.to_owned().concat(ones);
    proof {
        assert(r@ =~= dec_digits_2(n as int));
    }
    r
}

/// Four-digit zero-padded rendering of `n < 10000`.
pub fn u32_to_4_digits(n: u32) -> (r: String)
    requires
        n < 10000,
    ensures
        r@ == dec_digits_4(n as int),
{
    let d0 = digit_str(n / 1000);
    let d1 = digit_str((n / 100) % 10);
    let d2 = digit_str((n / 10) % 10);
    let d3 = digit_str(n % 10);
    let r = d0.to_owned().concat(d1).concat(d2).concat(d3);
    proof {
        assert(r@ =~= dec_digits_4(n as int));
    }
    r
}

/// Character-for-character equality of two string slices.
pub fn str_eq(a: &str, b: &str) -> (r: bool)
    ensures
        r == (a@ == b@),
{
    let owned_a = a.to_owned();
    let owned_b = b.to_owned();
    owned_a == owned_b
}

/// Index of the first occurrence of `sep` at or after nothing; `s.len()`
/// when `sep` does not occur.
pub fn find_char(s: &str, sep: char) -> (j: usize)
    ensures
        j as int == first_sep(s@, sep),
{
    let n = s.unicode_len();
    let mut i: usize = 0;
    while i < n
        invariant
            0 <= i <= n == s@.len(),
            forall|k: int| 0 <= k < i ==> s@[k] != sep,
        decreases n - i,
    {
        let c = s.get_char(i);
        if c == sep {
            proof {
                lemma_first_sep_is(s@, sep, i as int);
            }
            return i;
        }
        i = i + 1;
    }
    proof {
        lemma_first_sep_is(s@, sep, n as int);
    }
    n
}

/// Splits `s` on every occurrence of `sep`, keeping empty fields.
pub fn split_fields(s: &str, sep: char) -> (parts: Vec<String>)
    ensures
        parts@.map_values(|p: String| p@) == split_on(s@, sep),
        parts@.len() >= 1,
    decreases s@.len(),
{
    let n = s.unicode_len();
    let j = find_char(s, sep);
    proof {
        lemma_first_sep_bounds(s@, sep);
    }
    if j >= n {
        let mut parts: Vec<String> = Vec::new();
        parts.push(s.to_owned());
        proof {
            assert(parts@.map_values(|p: String| p@) =~= split_on(s@, sep));
        }
        parts
    } else {
        let head = s.substring_char(0, j).to_owned();
        let tail = s.substring_char(j + 1, n);
        proof {
            assert(tail@ =~= s@.skip(j + 1));
        }
        let mut parts = split_fields(tail, sep);
        parts.insert(0, head);
        proof {
            assert(head@ =~= s@.take(j as int));
            assert(parts@.map_values(|p: String| p@) =~= split_on(s@, sep));
        }
        parts
    }
}

/// Powers of ten.
pub open spec fn ten_pow(n: nat) -> int
    decreases n,
{
    if n == 0 {
        1
    } else {
        10 * ten_pow((n - 1) as nat)
    }
}

/// Powers of ten grow with the exponent.
pub proof fn lemma_ten_pow_mono(a: nat, b: nat)
    requires
        a <= b,
    ensures
        1 <= ten_pow(a) <= ten_pow(b),
    decreases b,
{
    if a == b {
        if a > 0 {
            lemma_ten_pow_mono((a - 1) as nat, (b - 1) as nat);
        }
    } else {
        lemma_ten_pow_mono(a, (b - 1) as nat);
    }
}

/// A digit string of length `n` has a value below the `n`-th power of ten.
pub proof fn lemma_dec_value_lt(s: Seq<char>)
    requires
        all_digits(s),
    ensures
        0 <= dec_value(s) < ten_pow(s.len()),
    decreases s.len(),
{
    if s.len() > 0 {
        assert(all_digits(s.drop_last())) by {
            assert(forall|i: int| 0 <= i < s.len() - 1 ==> s.drop_last()[i] == s[i]);
        }
        lemma_dec_value_lt(s.drop_last());
        assert(is_digit(s.last()));
    }
}

} // verus!
