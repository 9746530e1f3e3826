//! Decimal parsing of the string-typed rollout metadata.
//!
//! Integers are read with the grammar of `str::parse` (an optional sign, then
//! ASCII digits, the value in range). Fractions are read as fixed-point values
//! in parts per billion: an optional sign, integer digits, an optional `.`
//! and fraction digits, with fraction digits past the ninth truncated.
use vstd::prelude::*;

verus! {

/// Fixed-point scale of fractions: one part per billion.
pub const PPB: u64 = 1_000_000_000;

pub open spec fn is_digit(c: char) -> bool {
    '0' <= c && c <= '9'
}

pub open spec fn digit_value(c: char) -> int {
    c as int - '0' as int
}

pub open spec fn all_digits(s: Seq<char>) -> bool {
    forall|i: int| 0 <= i < s.len() ==> is_digit(#[trigger] s[i])
}

/// Value of a sequence of decimal digits, most significant first.
pub open spec fn digits_value(s: Seq<char>) -> int
    decreases s.len(),
{
    if s.len() == 0 {
        0
    } else {
        10 * digits_value(s.drop_last()) + digit_value(s.last())
    }
}

/// `s` without a leading `+`.
pub open spec fn without_plus(s: Seq<char>) -> Seq<char> {
    if s.len() > 0 && s[0] == '+' {
        s.drop_first()
    } else {
        s
    }
}

/// A non-empty run of digits whose value is at most `max`.
pub open spec fn digits_at_most(s: Seq<char>, max: int) -> bool {
    s.len() > 0 && all_digits(s) && digits_value(s) <= max
}

/// What `str::parse::<u64>` accepts, and the value it reads.
pub open spec fn spec_parse_u64(s: Seq<char>) -> Option<int> {
    let b = without_plus(s);
    if digits_at_most(b, u64::MAX as int) {
        Some(digits_value(b))
    } else {
        None
    }
}

/// What `str::parse::<i64>` accepts, and the value it reads.
pub open spec fn spec_parse_i64(s: Seq<char>) -> Option<int> {
    if s.len() > 0 && s[0] == '-' {
        if digits_at_most(s.drop_first(), -(i64::MIN as int)) {
            Some(-digits_value(s.drop_first()))
        } else {
            None
        }
    } else if digits_at_most(without_plus(s), i64::MAX as int) {
        Some(digits_value(without_plus(s)))
    } else {
        None
    }
}

proof fn lemma_digits_value_nonneg(s: Seq<char>)
    requires
        all_digits(s),
    ensures
        digits_value(s) >= 0,
    decreases s.len(),
{
    if s.len() > 0 {
        lemma_digits_value_nonneg(s.drop_last());
    }
}

/// What `spec_parse_i64` reads is an `i64`.
pub proof fn lemma_parse_i64_range(s: Seq<char>)
    ensures
        spec_parse_i64(s) is Some ==> i64::MIN <= spec_parse_i64(s)->0 <= i64::MAX,
{
    if s.len() > 0 && s[0] == '-' {
        if all_digits(s.drop_first()) {
            lemma_digits_value_nonneg(s.drop_first());
        }
    } else if all_digits(without_plus(s)) {
        lemma_digits_value_nonneg(without_plus(s));
    }
}

/// A prefix of a run of digits is worth no more than the run.
proof fn lemma_digits_prefix(s: Seq<char>, k: int)
    requires
        all_digits(s),
        0 <= k <= s.len(),
    ensures
        digits_value(s.subrange(0, k)) <= digits_value(s),
    decreases s.len(),
{
    if k == s.len() {
        assert(s.subrange(0, k) =~= s);
    } else {
        lemma_digits_prefix(s.drop_last(), k);
        assert(s.drop_last().subrange(0, k) =~= s.subrange(0, k));
        lemma_digits_value_nonneg(s.drop_last());
    }
}

/// Value of the digits `s[from..to]`, when they are all digits and it fits in `u64`.
fn digits_in(s: &str, from: usize, to: usize) -> (r: Option<u64>)
    requires
        from <= to <= s@.len(),
    ensures
        match r {
            Some(v) => all_digits(s@.subrange(from as int, to as int)) && v == digits_value(
                s@.subrange(from as int, to as int),
            ),
            None => !(all_digits(s@.subrange(from as int, to as int)) && digits_value(
                s@.subrange(from as int, to as int),
            ) <= u64::MAX),
        },
{
    let ghost whole = s@.subrange(from as int, to as int);
    let mut acc: u64 = 0;
    let mut i: usize = from;
    while i < to
        invariant
            from <= i <= to <= s@.len(),
            whole == s@.subrange(from as int, to as int),
            all_digits(s@.subrange(from as int, i as int)),
            acc == digits_value(s@.subrange(from as int, i as int)),
        decreases to - i,
    {
        let c = s.get_char(i);
        let ghost pre = s@.subrange(from as int, i as int);
        proof {
            assert(s@.subrange(from as int, i + 1).drop_last() =~= pre);
            assert(whole[i - from] == c);
        }
        if c < '0' || c > '9' {
            return None;
        }
        let d = (c as u32 - '0' as u32) as u64;
        if acc > (u64::MAX - d) / 10 {
            proof {
                let next = s@.subrange(from as int, i + 1);
                assert(digits_value(next) > u64::MAX);
                if all_digits(whole) {
                    lemma_digits_prefix(whole, i + 1 - from);
                    assert(whole.subrange(0, i + 1 - from) =~= next);
                }
            }
            return None;
        }
        acc = acc * 10 + d;
        i = i + 1;
    }
    Some(acc)
}

/// Reads an unsigned integer as `str::parse::<u64>` does.
pub fn parse_u64(s: &str) -> (r: Option<u64>)
    ensures
        match r {
            Some(v) => spec_parse_u64(s@) == Some(v as int),
            None => spec_parse_u64(s@) is None,
        },
{
    let len = s.unicode_len();
    let from: usize = if len > 0 && s.get_char(0) == '+' { 1 } else { 0 };
    proof {
        if from == 1 {
            assert(s@.subrange(1, len as int) =~= s@.drop_first());
        } else {
            assert(s@.subrange(0, len as int) =~= s@);
        }
    }
    if from == len {
        return None;
    }
    digits_in(s, from, len)
}

/// Reads a signed integer as `str::parse::<i64>` does.
pub fn parse_i64(s: &str) -> (r: Option<i64>)
    ensures
        match r {
            Some(v) => spec_parse_i64(s@) == Some(v as int),
            None => spec_parse_i64(s@) is None,
        },
{
    let len = s.unicode_len();
    let first = if len > 0 { s.get_char(0) } else { ' ' };
    let negative = first == '-';
    let from: usize = if first == '-' || first == '+' { 1 } else { 0 };
    proof {
        if from == 1 {
            assert(s@.subrange(1, len as int) =~= s@.drop_first());
        } else {
            assert(s@.subrange(0, len as int) =~= s@);
        }
    }
    if from == len {
        return None;
    }
    match digits_in(s, from, len) {
        Some(v) => {
            if negative {
                if v <= 9_223_372_036_854_775_808 {
                    Some((0 - (v as i128)) as i64)
                } else {
                    None
                }
            } else if v <= 9_223_372_036_854_775_807 {
                Some(v as i64)
            } else {
                None
            }
        },
        None => None,
    }
}

pub open spec fn digit_char(d: int) -> char {
    seq!['0', '1', '2', '3', '4', '5', '6', '7', '8', '9'][d]
}

/// Decimal form of `n`, without leading zeros.
pub open spec fn decimal(n: nat) -> Seq<char>
    decreases n,
{
    if n < 10 {
        seq![digit_char(n as int)]
    } else {
        decimal(n / 10).push(digit_char(n as int % 10))
    }
}

/// Writes `n` in decimal.
pub fn format_decimal(n: u64) -> (r: String)
    ensures
        r@ == decimal(n as nat),
    decreases n,
{
    let digits = "0123456789";
    proof {
        reveal_strlit("0123456789");
        assert(digits@ =~= seq!['0', '1', '2', '3', '4', '5', '6', '7', '8', '9']);
    }
    let d = (n % 10) as usize;
    let last = digits.substring_char(d, d + 1);
    assert(last@ =~= seq![digit_char(n as int % 10)]);
    if n < 10 {
        last.to_owned()
    } else {
        let mut r = format_decimal(n / 10);
        r.append(last);
        r
    }
}

pub open spec fn pow10(n: nat) -> int
    decreases n,
{
    if n == 0 {
        1
    } else {
        10 * pow10((n - 1) as nat)
    }
}

/// Position of the first `.` in `s`, or the length of `s` when it has none.
pub open spec fn dot_index(s: Seq<char>) -> int
    decreases s.len(),
{
    if s.len() == 0 || s[0] == '.' {
        0
    } else {
        1 + dot_index(s.drop_first())
    }
}

/// `s` without a leading sign.
pub open spec fn unsigned_part(s: Seq<char>) -> Seq<char> {
    if s.len() > 0 && (s[0] == '+' || s[0] == '-') {
        s.drop_first()
    } else {
        s
    }
}

pub open spec fn integer_digits(s: Seq<char>) -> Seq<char> {
    let b = unsigned_part(s);
    b.subrange(0, dot_index(b))
}

pub open spec fn fraction_digits(s: Seq<char>) -> Seq<char> {
    let b = unsigned_part(s);
    if dot_index(b) < b.len() {
        b.subrange(dot_index(b) + 1, b.len() as int)
    } else {
        Seq::empty()
    }
}

/// Fraction digits in parts per billion, past the ninth digit truncated.
pub open spec fn fraction_ppb(f: Seq<char>) -> int {
    if f.len() >= 9 {
        digits_value(f.subrange(0, 9))
    } else {
        digits_value(f) * pow10((9 - f.len()) as nat)
    }
}

/// A decimal fraction in parts per billion: what is read from `s`, if it is
/// a decimal with some digit and an integer part below one billion.
pub open spec fn spec_parse_ppb(s: Seq<char>) -> Option<int> {
    let i = integer_digits(s);
    let f = fraction_digits(s);
    if all_digits(i) && all_digits(f) && i.len() + f.len() > 0 && digits_value(i) < PPB {
        let magnitude = digits_value(i) * PPB + fraction_ppb(f);
        if s.len() > 0 && s[0] == '-' {
            Some(-magnitude)
        } else {
            Some(magnitude)
        }
    } else {
        None
    }
}

proof fn lemma_digits_value_bound(s: Seq<char>)
    requires
        all_digits(s),
    ensures
        0 <= digits_value(s) < pow10(s.len()),
    decreases s.len(),
{
    if s.len() > 0 {
        lemma_digits_value_bound(s.drop_last());
    }
}

proof fn lemma_dot_index(s: Seq<char>, k: int)
    requires
        0 <= k <= s.len(),
        forall|j: int| 0 <= j < k ==> s[j] != '.',
        k == s.len() || s[k] == '.',
    ensures
        dot_index(s) == k,
    decreases k,
{
    if k > 0 {
        lemma_dot_index(s.drop_first(), k - 1);
    }
}

/// Whether `s[from..to]` are all digits.
fn all_digits_in(s: &str, from: usize, to: usize) -> (r: bool)
    requires
        from <= to <= s@.len(),
    ensures
        r == all_digits(s@.subrange(from as int, to as int)),
{
    let mut i: usize = from;
    while i < to
        invariant
            from <= i <= to <= s@.len(),
            all_digits(s@.subrange(from as int, i as int)),
        decreases to - i,
    {
        let c = s.get_char(i);
        if c < '0' || c > '9' {
            assert(s@.subrange(from as int, to as int)[i - from] == c);
            return false;
        }
        proof {
            assert forall|j: int| 0 <= j < i + 1 - from implies is_digit(
                #[trigger] s@.subrange(from as int, i + 1)[j],
            ) by {
                if j < i - from {
                    assert(s@.subrange(from as int, i + 1)[j] == s@.subrange(from as int, i as int)[j]);
                }
            }
        }
        i = i + 1;
    }
    true
}

/// Reads a decimal fraction in parts per billion.
pub fn parse_ppb(s: &str) -> (r: Option<i64>)
    ensures
        match r {
            Some(v) => spec_parse_ppb(s@) == Some(v as int) && -(PPB * PPB) < v < PPB * PPB,
            None => spec_parse_ppb(s@) is None,
        },
{
    let len = s.unicode_len();
    let first = if len > 0 { s.get_char(0) } else { ' ' };
    let from: usize = if first == '-' || first == '+' { 1 } else { 0 };
    let ghost b = unsigned_part(s@);
    proof {
        if from == 1 {
            assert(s@.subrange(1, len as int) =~= s@.drop_first());
        } else {
            assert(s@.subrange(0, len as int) =~= s@);
        }
    }
    let mut dot: usize = from;
    while dot < len
        invariant
            from <= dot <= len == s@.len(),
            b == s@.subrange(from as int, len as int),
            forall|j: int| from <= j < dot ==> s@[j] != '.',
        ensures
            from <= dot <= len,
            dot < len ==> s@[dot as int] == '.',
            forall|j: int| from <= j < dot ==> s@[j] != '.',
        decreases len - dot,
    {
        if s.get_char(dot) == '.' {
            break;
        }
        dot = dot + 1;
    }
    proof {
        assert forall|j: int| 0 <= j < dot - from implies b[j] != '.' by {
            assert(b[j] == s@[j + from]);
        }
        if dot < len {
            assert(b[dot - from] == s@[dot as int]);
        }
        lemma_dot_index(b, dot - from);
        assert(integer_digits(s@) =~= s@.subrange(from as int, dot as int));
    }
    let frac_from: usize = if dot < len { dot + 1 } else { len };
    proof {
        if dot < len {
            assert(fraction_digits(s@) =~= s@.subrange(frac_from as int, len as int));
        } else {
            assert(fraction_digits(s@) =~= s@.subrange(frac_from as int, len as int));
        }
    }
    if dot - from + (len - frac_from) == 0 || !all_digits_in(s, frac_from, len) {
        return None;
    }
    let whole = match digits_in(s, from, dot) {
        Some(v) => v,
        None => {
            return None;
        },
    };
    if whole >= PPB {
        return None;
    }
    let taken: usize = if len - frac_from >= 9 { 9 } else { len - frac_from };
    let ghost f = s@.subrange(frac_from as int, len as int);
    proof {
        assert(s@.subrange(frac_from as int, frac_from + taken) =~= f.subrange(0, taken as int));
        assert(all_digits(f.subrange(0, taken as int)));
        lemma_digits_value_bound(f.subrange(0, taken as int));
        lemma_pow10_le(taken as nat, 9);
        lemma_pow10_nine();
    }
    let digits = match digits_in(s, frac_from, frac_from + taken) {
        Some(v) => v,
        None => {
            return None;
        },
    };
    proof {
        assert(pow10(0) == 1);
    }
    let mut part: u64 = digits;
    let mut k: usize = taken;
    assert((k - taken) as nat == 0nat);
    assert(digits * pow10(0) == digits * 1);
    while k < 9
        invariant
            taken <= k <= 9,
            digits < pow10(taken as nat),
            part == digits * pow10((k - taken) as nat),
        decreases 9 - k,
    {
        proof {
            lemma_pow10_add(taken as nat, (k - taken) as nat);
            lemma_pow10_add((k - taken) as nat, 0);
            lemma_pow10_nine();
            assert(pow10((k + 1 - taken) as nat) == 10 * pow10((k - taken) as nat));
            assert(part * 10 == digits * pow10((k + 1 - taken) as nat)) by (nonlinear_arith)
                requires
                    part == digits * pow10((k - taken) as nat),
                    pow10((k + 1 - taken) as nat) == 10 * pow10((k - taken) as nat);
            assert(pow10((k + 1) as nat) == 10 * pow10(k as nat));
            assert(digits * pow10((k - taken) as nat) < pow10(taken as nat) * pow10((k - taken) as nat)) by (nonlinear_arith)
                requires digits < pow10(taken as nat), pow10((k - taken) as nat) > 0;
            lemma_pow10_add(taken as nat, (k - taken) as nat);
            lemma_pow10_le(k as nat, 8);
        }
        part = part * 10;
        k = k + 1;
    }
    proof {
        if f.len() >= 9 {
            assert(f.subrange(0, taken as int) =~= f.subrange(0, 9));
        } else {
            assert(f.subrange(0, taken as int) =~= f);
        }
        lemma_digits_value_bound(f.subrange(0, taken as int));
        lemma_pow10_add(taken as nat, (9 - taken) as nat);
        lemma_pow10_add((9 - taken) as nat, 0);
        lemma_pow10_nine();
        assert(part < PPB) by (nonlinear_arith)
            requires
                part == digits * pow10((9 - taken) as nat),
                digits < pow10(taken as nat),
                pow10((9 - taken) as nat) > 0,
                pow10(taken as nat) * pow10((9 - taken) as nat) == pow10(9),
                pow10(9) == PPB;
    }
    assert(whole * PPB + part < PPB * PPB) by (nonlinear_arith)
        requires
            whole < PPB,
            part < PPB;
    let magnitude: i64 = (whole * PPB + part) as i64;
    assert(0 <= magnitude < PPB * PPB);
    if first == '-' {
        Some(-magnitude)
    } else {
        Some(magnitude)
    }
}

proof fn lemma_pow10_nine()
    ensures
        pow10(8) == 100_000_000,
        pow10(9) == 1_000_000_000,
{
    reveal_with_fuel(pow10, 10);
}

proof fn lemma_pow10_add(a: nat, b: nat)
    ensures
        pow10(a) * pow10(b) == pow10(a + b),
        pow10(a) > 0,
    decreases a,
{
    if a > 0 {
        lemma_pow10_add((a - 1) as nat, b);
        assert(pow10(a) * pow10(b) == 10 * (pow10((a - 1) as nat) * pow10(b))) by (nonlinear_arith)
            requires pow10(a) == 10 * pow10((a - 1) as nat);
    }
}

proof fn lemma_pow10_le(a: nat, b: nat)
    requires
        a <= b,
    ensures
        pow10(a) <= pow10(b),
    decreases b,
{
    if a < b {
        lemma_pow10_le(a, (b - 1) as nat);
        lemma_pow10_add((b - 1) as nat, 0);
    }
}

} // verus!
