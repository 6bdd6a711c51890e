//! Money codec: conversion between human-entered decimal strings and an
//! exact integer count of minor currency units (pence), and back to a
//! display string with a currency symbol and thousands grouping.
//!
//! Parsing follows a deliberately naive rule kept for compatibility: if the
//! input has no decimal point, `.00` is appended; the input is then trimmed,
//! every comma and dot is removed, and the remaining characters must be
//! decimal digits. A comma sitting where a decimal point belongs is thus
//! silently folded into the integer part (`"100,00.22"` reads as
//! `"10000.22"`), a known quirk of the format.
use vstd::prelude::*;

verus! {

/// A character counts as a decimal digit of the money syntax.
pub open spec fn is_digit(c: char) -> bool {
    48 <= c as u32 <= 57
}

/// Numeric value of a single decimal digit character.
pub open spec fn digit_val(c: char) -> nat
    recommends
        is_digit(c),
{
    (c as u32 - 48) as nat
}

/// The decimal digit character for a value below ten.
pub open spec fn digit_char(d: nat) -> char
    recommends
        d < 10,
{
    if d == 0 {
        '0'
    } else if d == 1 {
        '1'
    } else if d == 2 {
        '2'
    } else if d == 3 {
        '3'
    } else if d == 4 {
        '4'
    } else if d == 5 {
        '5'
    } else if d == 6 {
        '6'
    } else if d == 7 {
        '7'
    } else if d == 8 {
        '8'
    } else {
        '9'
    }
}

/// Every character of the string is a decimal digit.
pub open spec fn all_digits(s: Seq<char>) -> bool {
    forall|i: int| 0 <= i < s.len() ==> is_digit(#[trigger] s[i])
}

/// Value of a string of decimal digits read most-significant first.
pub open spec fn digits_value(s: Seq<char>) -> nat
    recommends
        all_digits(s),
    decreases s.len(),
{
    if s.len() == 0 {
        0
    } else {
        digits_value(s.drop_last()) * 10 + digit_val(s.last())
    }
}

/// The characters stripped from a money string before it is read as an
/// integer: the thousands separator and the decimal point.
pub open spec fn is_separator(c: char) -> bool {
    c == ',' || c == '.'
}

/// A whitespace character, exactly the set that `str::trim` removes.
pub open spec fn is_space(c: char) -> bool {
    let u = c as u32;
    (9 <= u <= 13) || u == 32 || u == 0x85 || u == 0xA0 || u == 0x1680 || (0x2000 <= u <= 0x200A)
        || u == 0x2028 || u == 0x2029 || u == 0x202F || u == 0x205F || u == 0x3000
}

/// The input with `.00` appended when it holds no decimal point.
pub open spec fn with_fraction(s: Seq<char>) -> Seq<char> {
    if s.contains('.') {
        s
    } else {
        s + seq!['.', '0', '0']
    }
}

/// The string with leading whitespace removed.
pub open spec fn trim_start_spec(s: Seq<char>) -> Seq<char>
    decreases s.len(),
{
    if s.len() > 0 && is_space(s[0]) {
        trim_start_spec(s.drop_first())
    } else {
        s
    }
}

/// The string with trailing whitespace removed.
pub open spec fn trim_end_spec(s: Seq<char>) -> Seq<char>
    decreases s.len(),
{
    if s.len() > 0 && is_space(s.last()) {
        trim_end_spec(s.drop_last())
    } else {
        s
    }
}

/// The string with leading and trailing whitespace removed.
pub open spec fn trim_spec(s: Seq<char>) -> Seq<char> {
    trim_end_spec(trim_start_spec(s))
}

/// The string with every comma and dot removed.
pub open spec fn strip_separators(s: Seq<char>) -> Seq<char>
    decreases s.len(),
{
    if s.len() == 0 {
        Seq::empty()
    } else if is_separator(s.last()) {
        strip_separators(s.drop_last())
    } else {
        strip_separators(s.drop_last()).push(s.last())
    }
}

/// The digit string a money input is reduced to before it is valued:
/// a missing fraction is supplied, whitespace is trimmed, and the
/// separators are stripped.
pub open spec fn cleaned(s: Seq<char>) -> Seq<char> {
    strip_separators(trim_spec(with_fraction(s)))
}

/// Whether a money input is accepted: the reduced string is a non-empty
/// run of decimal digits whose value fits the minor-unit type.
pub open spec fn parse_ok(s: Seq<char>) -> bool {
    cleaned(s).len() > 0 && all_digits(cleaned(s)) && digits_value(cleaned(s)) <= i64::MAX
}

/// The minor-unit value of an accepted money input.
pub open spec fn parse_val(s: Seq<char>) -> nat {
    digits_value(cleaned(s))
}

/// The decimal digits of `n`, most significant first, without leading
/// zeroes (a single `'0'` for zero).
pub open spec fn decimal_digits(n: nat) -> Seq<char>
    decreases n,
{
    if n < 10 {
        seq![digit_char(n)]
    } else {
        decimal_digits(n / 10).push(digit_char(n % 10))
    }
}

/// Digits grouped with a comma every three, counted from the right, with
/// at most `seps` separators inserted (the display locale groups at most
/// three times; digits further left stay ungrouped).
pub open spec fn grouped(s: Seq<char>, seps: nat) -> Seq<char>
    decreases seps,
{
    if seps == 0 || s.len() <= 3 {
        s
    } else {
        grouped(s.take(s.len() - 3), (seps - 1) as nat) + seq![','] + s.skip(s.len() - 3)
    }
}

/// The rendering of `v` minor units as a pounds-and-pence string: an
/// optional sign, the `£` symbol, the grouped integer part and exactly
/// two fraction digits.
pub open spec fn gbp_display(v: int) -> Seq<char> {
    let m = (if v >= 0 {
        v
    } else {
        -v
    }) as nat;
    (if v < 0 {
        seq!['-']
    } else {
        Seq::<char>::empty()
    }) + seq!['£'] + grouped(decimal_digits(m / 100), 3) + seq!['.']
        + seq![digit_char((m % 100) / 10), digit_char((m % 100) % 10)]
}

/// A rendered amount without its leading currency symbol: what a user
/// would type back into a form.
pub open spec fn strip_symbol(s: Seq<char>) -> Seq<char> {
    s.skip(1)
}

proof fn lemma_strip_separators_concat(a: Seq<char>, b: Seq<char>)
    ensures
        strip_separators(a + b) == strip_separators(a) + strip_separators(b),
    decreases b.len(),
{
    if b.len() == 0 {
        assert(a + b =~= a);
        assert(strip_separators(a) + strip_separators(b) =~= strip_separators(a));
    } else {
        lemma_strip_separators_concat(a, b.drop_last());
        assert((a + b).drop_last() =~= a + b.drop_last());
        if !is_separator(b.last()) {
            assert(strip_separators(a) + strip_separators(b) =~= (strip_separators(a)
                + strip_separators(b.drop_last())).push(b.last()));
        }
    }
}

proof fn lemma_digits_value_concat_grows(a: Seq<char>, b: Seq<char>)
    ensures
        digits_value(a + b) >= digits_value(a),
    decreases b.len(),
{
    if b.len() == 0 {
        assert(a + b =~= a);
    } else {
        lemma_digits_value_concat_grows(a, b.drop_last());
        assert((a + b).drop_last() =~= a + b.drop_last());
    }
}

proof fn lemma_trim_start(s: Seq<char>, k: int)
    requires
        0 <= k <= s.len(),
        forall|j: int| 0 <= j < k ==> is_space(#[trigger] s[j]),
        k == s.len() || !is_space(s[k]),
    ensures
        trim_start_spec(s) == s.skip(k),
    decreases k,
{
    if k == 0 {
        assert(s.skip(0) =~= s);
    } else {
        let s1 = s.drop_first();
        assert(forall|j: int| 0 <= j < k - 1 ==> is_space(#[trigger] s1[j]));
        lemma_trim_start(s1, k - 1);
        assert(s1.skip(k - 1) =~= s.skip(k));
    }
}

proof fn lemma_trim_end(s: Seq<char>, e: int)
    requires
        0 <= e <= s.len(),
        forall|j: int| e <= j < s.len() ==> is_space(#[trigger] s[j]),
        e == 0 || !is_space(s[e - 1]),
    ensures
        trim_end_spec(s) == s.take(e),
    decreases s.len() - e,
{
    if e == s.len() {
        if s.len() > 0 && is_space(s.last()) {
            let s1 = s.drop_last();
            lemma_trim_end(s1, e - 1);
            assert(s1.take(e - 1) =~= s.take(e - 1));
            assert(false);
        } else {
            assert(s.take(e) =~= s);
        }
    } else {
        let s1 = s.drop_last();
        lemma_trim_end(s1, e);
        assert(s1.take(e) =~= s.take(e));
    }
}

fn char_is_space(c: char) -> (r: bool)
    ensures
        r == is_space(c),
{
    let u = c as u32;
    (9 <= u && u <= 13) || u == 32 || u == 0x85 || u == 0xA0 || u == 0x1680 || (0x2000 <= u
        && u <= 0x200A) || u == 0x2028 || u == 0x2029 || u == 0x202F || u == 0x205F || u == 0x3000
}

fn first_non_space(s: &str) -> (k: usize)
    ensures
        k <= s@.len(),
        forall|j: int| 0 <= j < k ==> is_space(#[trigger] s@[j]),
        k == s@.len() || !is_space(s@[k as int]),
{
    let n = s.unicode_len();
    let mut i: usize = 0;
    while i < n
        invariant
            i <= n,
            n == s@.len(),
            forall|j: int| 0 <= j < i ==> is_space(#[trigger] s@[j]),
        decreases n - i,
    {
        if !char_is_space(s.get_char(i)) {
            return i;
        }
        i += 1;
    }
    i
}

fn last_non_space_from(s: &str, start: usize) -> (e: usize)
    requires
        start <= s@.len(),
    ensures
        start <= e <= s@.len(),
        forall|j: int| e <= j < s@.len() ==> is_space(#[trigger] s@[j]),
        e == start || !is_space(s@[e - 1]),
{
    let n = s.unicode_len();
    let mut e: usize = n;
    while e > start
        invariant
            start <= e <= n,
            n == s@.len(),
            forall|j: int| e <= j < n ==> is_space(#[trigger] s@[j]),
        decreases e,
    {
        if !char_is_space(s.get_char(e - 1)) {
            return e;
        }
        e -= 1;
    }
    e
}

fn str_contains_char(s: &str, c: char) -> (r: bool)
    ensures
        r == s@.contains(c),
{
    let n = s.unicode_len();
    let mut i: usize = 0;
    while i < n
        invariant
            i <= n,
            n == s@.len(),
            forall|j: int| 0 <= j < i ==> s@[j] != c,
        decreases n - i,
    {
        if s.get_char(i) == c {
            return true;
        }
        i += 1;
    }
    false
}

/// Reads a human-entered money string as an exact count of minor units.
/// A string without a decimal point is read as whole pounds; commas and
/// the dot are stripped and the rest must be decimal digits, so
/// `"1,000"` is 100000 pence and `"00.00"` is 0.
#[verifier::loop_isolation(false)]
pub fn get_money_from_string(value: String) -> (r: Result<i64, &'static str>)
    ensures
        r is Ok <==> parse_ok(value@),
        r matches Ok(v) ==> v == parse_val(value@) as i64,
        r matches Err(e) ==> e@ == "Failed to parse input string"@,
{
    let ghost v0 = value@;
    let has_dot = str_contains_char(value.as_str(), '.');
    let t: String = if has_dot {
        value
    } else {
        value.concat(".00")
    };
    proof {
        reveal_strlit(".00");
        assert(t@ =~= with_fraction(v0));
    }
    let ts = t.as_str();
    let n = ts.unicode_len();

    let start = first_non_space(ts);
    let end = last_non_space_from(ts, start);

    proof {
        lemma_trim_start(t@, start as int);
        let sk = t@.skip(start as int);
        assert(forall|j: int|
            end - start <= j < sk.len() ==> is_space(#[trigger] sk[j]) == is_space(
                t@[j + start],
            ));
        if end > start {
            assert(sk[end - start - 1] == t@[end - 1]);
        }
        lemma_trim_end(sk, end - start);
        assert(trim_spec(t@) =~= t@.subrange(start as int, end as int));
    }

    let mut acc: i64 = 0;
    let mut n_digits: usize = 0;
    let mut i: usize = start;
    while i < end
        invariant
            start <= i <= end <= n,
            n == t@.len(),
            ts@ == t@,
            trim_spec(t@) == t@.subrange(start as int, end as int),
            t@ == with_fraction(v0),
            acc as int == digits_value(strip_separators(t@.subrange(start as int, i as int))),
            all_digits(strip_separators(t@.subrange(start as int, i as int))),
            n_digits as int == strip_separators(t@.subrange(start as int, i as int)).len(),
            n_digits <= i - start,
            0 <= acc <= i64::MAX,
        decreases end - i,
    {
        let c = ts.get_char(i);
        let ghost pre = t@.subrange(start as int, i as int);
        let ghost kept = strip_separators(pre);
        let ghost rest = t@.subrange(i + 1, end as int);
        proof {
            assert(t@.subrange(start as int, i + 1) =~= pre.push(c));
            assert(pre.push(c).drop_last() =~= pre);
            assert(kept.push(c).drop_last() =~= kept);
            assert(trim_spec(t@) =~= pre.push(c) + rest);
            lemma_strip_separators_concat(pre.push(c), rest);
            assert(cleaned(v0) == strip_separators(pre.push(c)) + strip_separators(rest));
        }
        let u = c as u32;
        if u == 44 || u == 46 {
            // separator: dropped before the digits are read
        } else if 48 <= u && u <= 57 {
            let d = (u - 48) as i64;
            if acc > (i64::MAX - d) / 10 {
                proof {
                    assert(acc * 10 + d > i64::MAX) by (nonlinear_arith)
                        requires
                            acc > (i64::MAX - d) / 10,
                            0 <= d < 10,
                            acc >= 0,
                    ;
                    assert(digits_value(kept.push(c)) == digits_value(kept) * 10 + digit_val(c));
                    lemma_digits_value_concat_grows(kept.push(c), strip_separators(rest));
                    assert(digits_value(cleaned(v0)) > i64::MAX);
                }
                return Err("Failed to parse input string");
            }
            proof {
                assert(acc * 10 + d <= i64::MAX) by (nonlinear_arith)
                    requires
                        acc <= (i64::MAX - d) / 10,
                        0 <= d < 10,
                        acc >= 0,
                ;
                assert(digits_value(kept.push(c)) == digits_value(kept) * 10 + digit_val(c));
            }
            acc = acc * 10 + d;
            n_digits += 1;
        } else {
            proof {
                let whole = cleaned(v0);
                assert(whole == kept.push(c) + strip_separators(rest));
                assert(whole[kept.len() as int] == c);
                assert(!is_digit(c));
                assert(!all_digits(whole));
            }
            return Err("Failed to parse input string");
        }
        i += 1;
    }

    proof {
        assert(cleaned(v0) == strip_separators(t@.subrange(start as int, end as int)));
    }
    if n_digits == 0 {
        return Err("Failed to parse input string");
    }
    Ok(acc)
}

/// Relies on rusty_money's `Money::from_minor` and its `Display` impl:
/// for `iso::GBP` (exponent 2, en-us locale, symbol-first) the rendering
/// is a `-` sign for negative amounts, then `£`, the integer part of the
/// absolute amount grouped by commas in threes from the right (at most
/// three separators), a dot, and exactly two fraction digits.
#[verifier::external_body]
fn gbp_minor_to_string(v: i64) -> (r: String)
    ensures
        r@ == gbp_display(v as int),
{
    rusty_money::Money::from_minor(v, rusty_money::iso::GBP).to_string()
}

/// Renders a minor-unit amount as a currency string, e.g. `12` as
/// `£0.12` and `120000` as `£1,200.00`.
pub fn get_total_as_formatted_string(total: i64) -> (r: String)
    ensures
        r@ == gbp_display(total as int),
{
    gbp_minor_to_string(total)
}

proof fn lemma_digit_char_val(d: nat)
    requires
        d < 10,
    ensures
        is_digit(digit_char(d)),
        digit_val(digit_char(d)) == d,
        !is_space(digit_char(d)),
        !is_separator(digit_char(d)),
{
}

proof fn lemma_digits_value_push(s: Seq<char>, c: char)
    ensures
        digits_value(s.push(c)) == digits_value(s) * 10 + digit_val(c),
{
    assert(s.push(c).drop_last() =~= s);
    assert(s.push(c).last() == c);
}

proof fn lemma_decimal_digits(n: nat)
    ensures
        decimal_digits(n).len() >= 1,
        all_digits(decimal_digits(n)),
        digits_value(decimal_digits(n)) == n,
    decreases n,
{
    if n < 10 {
        lemma_digit_char_val(n);
        assert(decimal_digits(n) =~= Seq::<char>::empty().push(digit_char(n)));
        lemma_digits_value_push(Seq::<char>::empty(), digit_char(n));
    } else {
        lemma_decimal_digits(n / 10);
        lemma_digit_char_val(n % 10);
        lemma_digits_value_push(decimal_digits(n / 10), digit_char(n % 10));
        vstd::arithmetic::div_mod::lemma_fundamental_div_mod(n as int, 10);
    }
}

proof fn lemma_strip_separator_single(c: char)
    requires
        is_separator(c),
    ensures
        strip_separators(seq![c]) == Seq::<char>::empty(),
{
    assert(seq![c].drop_last() =~= Seq::<char>::empty());
    assert(strip_separators(Seq::<char>::empty()) == Seq::<char>::empty());
}

proof fn lemma_strip_all_digits(s: Seq<char>)
    requires
        all_digits(s),
    ensures
        strip_separators(s) == s,
    decreases s.len(),
{
    if s.len() > 0 {
        lemma_strip_all_digits(s.drop_last());
        assert(!is_separator(s.last()));
        assert(s.drop_last().push(s.last()) =~= s);
    }
}

proof fn lemma_grouped_digits(s: Seq<char>, seps: nat)
    requires
        all_digits(s),
        s.len() >= 1,
    ensures
        strip_separators(grouped(s, seps)) == s,
        grouped(s, seps).len() >= 1,
        grouped(s, seps)[0] == s[0],
    decreases seps,
{
    if seps == 0 || s.len() <= 3 {
        lemma_strip_all_digits(s);
    } else {
        let head = s.take(s.len() - 3);
        let tail = s.skip(s.len() - 3);
        let g = grouped(head, (seps - 1) as nat);
        lemma_grouped_digits(head, (seps - 1) as nat);
        lemma_strip_all_digits(tail);
        lemma_strip_separators_concat(g + seq![','], tail);
        lemma_strip_separators_concat(g, seq![',']);
        lemma_strip_separator_single(',');
        assert((g + seq![',']) + tail =~= grouped(s, seps));
        assert(strip_separators(g + seq![',']) =~= head);
        assert(head + tail =~= s);
        assert(grouped(s, seps)[0] == g[0]);
    }
}

/// The codec round trip: a value rendered for display and then read back
/// in, once the currency symbol is dropped, is accepted by the parser and
/// parses to the very same count of minor units.
pub proof fn lemma_parse_format_round_trip(v: int)
    requires
        0 <= v <= i64::MAX,
    ensures
        parse_ok(strip_symbol(gbp_display(v))),
        parse_val(strip_symbol(gbp_display(v))) == v,
{
    let m = v as nat;
    let d = decimal_digits(m / 100);
    let g = grouped(d, 3);
    let f1 = digit_char((m % 100) / 10);
    let f2 = digit_char((m % 100) % 10);
    let shown = strip_symbol(gbp_display(v));

    lemma_decimal_digits(m / 100);
    lemma_grouped_digits(d, 3);
    lemma_digit_char_val((m % 100) / 10);
    lemma_digit_char_val((m % 100) % 10);

    assert(shown =~= g + seq!['.'] + seq![f1, f2]);
    assert(shown[g.len() as int] == '.');
    assert(shown.contains('.'));
    assert(with_fraction(shown) == shown);

    // the shown string starts and ends with a digit, so trimming is a no-op
    assert(shown[0] == g[0]);
    assert(trim_start_spec(shown) == shown);
    assert(shown.last() == f2);
    assert(trim_end_spec(shown) == shown);

    // stripping the separators recovers the bare digits
    lemma_strip_separators_concat(g + seq!['.'], seq![f1, f2]);
    lemma_strip_separators_concat(g, seq!['.']);
    lemma_strip_separator_single('.');
    assert(strip_separators(g + seq!['.']) =~= d);
    lemma_strip_all_digits(seq![f1, f2]);
    assert((g + seq!['.']) + seq![f1, f2] =~= shown);
    assert(cleaned(shown) =~= d + seq![f1, f2]);

    // the digits value of the cleaned string is exactly v
    assert(d + seq![f1, f2] =~= d.push(f1).push(f2));
    lemma_digits_value_push(d, f1);
    lemma_digits_value_push(d.push(f1), f2);
    vstd::arithmetic::div_mod::lemma_fundamental_div_mod(m as int, 100);
    vstd::arithmetic::div_mod::lemma_fundamental_div_mod((m % 100) as int, 10);
    assert(digits_value(d + seq![f1, f2]) == m);

    assert(all_digits(d + seq![f1, f2]));
}

} // verus!
