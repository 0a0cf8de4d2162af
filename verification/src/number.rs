use vstd::prelude::*;

verus! {

pub open spec fn is_digit(b: u8) -> bool {
    48u8 <= b <= 57u8
}

pub open spec fn all_digits(s: Seq<u8>) -> bool {
    forall|i: int| 0 <= i < s.len() ==> is_digit(#[trigger] s[i])
}

/// The number that a string of decimal digits writes.
pub open spec fn digits_value(s: Seq<u8>) -> nat
    decreases s.len(),
{
    if s.len() == 0 {
        0
    } else {
        digits_value(s.drop_last()) * 10 + (s.last() - 48) as nat
    }
}

/// The digits of an unsigned number's text: the text without one leading `+`.
pub open spec fn unsigned_digits(s: Seq<u8>) -> Seq<u8> {
    if s.len() > 0 && s[0] == 43u8 {
        s.drop_first()
    } else {
        s
    }
}

/// What `str::parse` gives for an unsigned integer type whose largest value is `max`:
/// an optional `+`, then at least one decimal digit and nothing else, of value at most `max`.
pub open spec fn parse_unsigned(s: Seq<u8>, max: nat) -> Option<nat> {
    let d = unsigned_digits(s);
    if d.len() > 0 && all_digits(d) && digits_value(d) <= max {
        Some(digits_value(d))
    } else {
        None
    }
}

/// The decimal text of `n`, without leading zeros, as `to_string` writes it.
pub open spec fn decimal(n: nat) -> Seq<u8>
    decreases n,
{
    if n < 10 {
        seq![(48 + n) as u8]
    } else {
        decimal(n / 10).push((48 + n % 10) as u8)
    }
}

proof fn lemma_digits_value_prefix(s: Seq<u8>, k: int)
    requires
        0 <= k <= s.len(),
        all_digits(s),
    ensures
        digits_value(s.take(k)) <= digits_value(s),
    decreases s.len() - k,
{
    if k < s.len() {
        lemma_digits_value_prefix(s, k + 1);
        assert(s.take(k + 1).drop_last() =~= s.take(k));
        let x = digits_value(s.take(k));
        let t = s.take(k + 1);
        assert(t.last() == s[k]);
        assert(is_digit(s[k]));
        let dgt = (t.last() - 48) as nat;
        assert(digits_value(t) == x * 10 + dgt);
        assert(x * 10 + dgt >= x) by (nonlinear_arith);
    } else {
        assert(s.take(k) =~= s);
    }
}

pub proof fn lemma_decimal(n: nat)
    ensures
        decimal(n).len() > 0,
        all_digits(decimal(n)),
        digits_value(decimal(n)) == n,
        decimal(n)[0] != 43u8,
    decreases n,
{
    if n < 10 {
        assert(decimal(n).drop_last() =~= Seq::<u8>::empty());
        assert(digits_value(Seq::<u8>::empty()) == 0);
        assert(decimal(n)[0] == (48 + n) as u8);
        assert(is_digit(decimal(n)[0]));
    } else {
        lemma_decimal(n / 10);
        let d = decimal(n);
        assert(d.drop_last() =~= decimal(n / 10));
        assert(d.last() == (48 + n % 10) as u8);
        assert((n / 10) * 10 + n % 10 == n) by (nonlinear_arith);
        assert forall|i: int| 0 <= i < d.len() implies is_digit(#[trigger] d[i]) by {
            if i < d.len() - 1 {
                assert(d[i] == decimal(n / 10)[i]);
            } else {
                assert(d[i] == (48 + n % 10) as u8);
            }
        }
    }
}

/// Reading back the text `to_string` writes gives the number again.
pub proof fn lemma_parse_decimal(n: nat, max: nat)
    requires
        n <= max,
    ensures
        parse_unsigned(decimal(n), max) == Some(n),
{
    lemma_decimal(n);
}

#[verifier::rlimit(40)]
/// Parses an unsigned decimal number of value at most `max`, as `str::parse` does for
/// `u32` (with `max` its largest value) and `usize`.
pub fn parse_unsigned_bytes(s: &[u8], max: u64) -> (r: Option<u64>)
    ensures
        match parse_unsigned(s@, max as nat) {
            Some(v) => r == Some(v as u64),
            None => r is None,
        },
{
    let len = s.len();
    let mut start: usize = 0;
    if len > 0 && s[0] == 43u8 {
        start = 1;
    }
    let ghost d = unsigned_digits(s@);
    assert(d =~= s@.skip(start as int));
    if start >= len {
        assert(d.len() == 0);
        return None;
    }
    let mut value: u64 = 0;
    let mut i: usize = start;
    while i < len
        invariant
            start <= i <= len,
            len == s@.len(),
            d == s@.skip(start as int),
            d == unsigned_digits(s@),
            start < len,
            all_digits(d.take(i - start)),
            value == digits_value(d.take(i - start)),
            value <= max,
        decreases len - i,
    {
        let b = s[i];
        if b < 48u8 || b > 57u8 {
            assert(d[i - start] == b);
            assert(!is_digit(d[i - start]));
            return None;
        }
        let digit = (b - 48u8) as u64;
        assert(d.take(i - start + 1).drop_last() =~= d.take(i - start));
        if digit > max || value > (max - digit) / 10 {
            proof {
                if digit <= max {
                    assert(value * 10 + digit > max) by (nonlinear_arith)
                        requires
                            value > (max - digit) / 10,
                            digit <= max,
                    ;
                }
                let t = d.take(i - start + 1);
                assert(t.last() == b);
                assert(digits_value(t) == value * 10 + digit);
                if all_digits(d) {
                    lemma_digits_value_prefix(d, i - start + 1);
                }
            }
            return None;
        }
        assert(value * 10 + digit <= max) by (nonlinear_arith)
            requires
                value <= (max - digit) / 10,
                digit <= max,
        ;
        value = value * 10 + digit;
        i = i + 1;
        assert forall|k: int| 0 <= k < i - start implies is_digit(#[trigger] d.take(i - start)[k]) by {
            if k < i - start - 1 {
                assert(d.take(i - start)[k] == d.take(i - start - 1)[k]);
            }
        }
    }
    assert(d.take(len - start) =~= d);
    Some(value)
}

/// Appends the decimal text of `n` to `out`.
pub fn push_decimal(n: u64, out: &mut Vec<u8>)
    ensures
        final(out)@ == old(out)@ + decimal(n as nat),
    decreases n,
{
    if n >= 10 {
        push_decimal(n / 10, out);
    }
    let digit = (n % 10) as u8;
    out.push(48u8 + digit);
    proof {
        if n >= 10 {
            assert(decimal(n as nat) == decimal((n / 10) as nat).push((48 + n % 10) as u8));
        }
    }
    assert(out@ =~= old(out)@ + decimal(n as nat));
}

/// Number of decimal digits at the start of `s`.
pub open spec fn digit_run(s: Seq<u8>) -> nat
    decreases s.len(),
{
    if s.len() > 0 && is_digit(s[0]) {
        1 + digit_run(s.drop_first())
    } else {
        0
    }
}

pub proof fn lemma_digit_run(s: Seq<u8>)
    ensures
        digit_run(s) <= s.len(),
        forall|k: int| 0 <= k < digit_run(s) ==> is_digit(#[trigger] s[k]),
        digit_run(s) < s.len() ==> !is_digit(s[digit_run(s) as int]),
    decreases s.len(),
{
    if s.len() > 0 && is_digit(s[0]) {
        lemma_digit_run(s.drop_first());
        assert forall|k: int| 0 <= k < digit_run(s) implies is_digit(#[trigger] s[k]) by {
            if k > 0 {
                assert(s[k] == s.drop_first()[k - 1]);
            }
        }
    }
}

pub proof fn lemma_digit_run_at(s: Seq<u8>, i: int)
    requires
        0 <= i <= s.len(),
        forall|k: int| 0 <= k < i ==> is_digit(#[trigger] s[k]),
        i < s.len() ==> !is_digit(s[i]),
    ensures
        digit_run(s) == i,
{
    lemma_digit_run(s);
    if digit_run(s) < i {
        assert(is_digit(s[digit_run(s) as int]));
    }
    if i < digit_run(s) {
        assert(is_digit(s[i]));
    }
}

pub open spec fn is_sign(b: u8) -> bool {
    b == 43u8 || b == 45u8
}

/// `s` without one leading `+` or `-`.
pub open spec fn unsigned_part(s: Seq<u8>) -> Seq<u8> {
    if s.len() > 0 && is_sign(s[0]) {
        s.drop_first()
    } else {
        s
    }
}

pub open spec fn ascii_lower(b: u8) -> u8 {
    if 65u8 <= b <= 90u8 {
        (b + 32) as u8
    } else {
        b
    }
}

/// `s` equals the lower-case `word` when letters are compared without regard to case.
pub open spec fn equals_ignoring_case(s: Seq<u8>, word: Seq<u8>) -> bool {
    s.len() == word.len() && forall|i: int| 0 <= i < s.len() ==> ascii_lower(#[trigger] s[i])
        == word[i]
}

/// An exponent: `e` or `E`, an optional sign, and at least one digit.
pub open spec fn is_exponent(r: Seq<u8>) -> bool {
    r.len() > 0 && (r[0] == 101u8 || r[0] == 69u8) && unsigned_part(r.drop_first()).len() > 0
        && all_digits(unsigned_part(r.drop_first()))
}

/// A decimal number: digits, optionally a `.` and more digits, with at least one digit
/// in all, then optionally an exponent.
pub open spec fn is_float_number(t: Seq<u8>) -> bool {
    let a = digit_run(t);
    let after = t.skip(a as int);
    let has_point = after.len() > 0 && after[0] == 46u8;
    let f = if has_point {
        digit_run(after.drop_first())
    } else {
        0
    };
    let rest = if has_point {
        after.drop_first().skip(f as int)
    } else {
        after
    };
    a + f > 0 && (rest.len() == 0 || is_exponent(rest))
}

/// The texts that `str::parse` accepts as a floating-point number: an optional sign, then
/// `inf`, `infinity` or `nan` in any case, or a decimal number.
pub open spec fn is_float_literal(s: Seq<u8>) -> bool {
    let t = unsigned_part(s);
    equals_ignoring_case(t, seq![105u8, 110, 102]) || equals_ignoring_case(
        t,
        seq![105u8, 110, 102, 105, 110, 105, 116, 121],
    ) || equals_ignoring_case(t, seq![110u8, 97, 110]) || is_float_number(t)
}

fn lower_byte(b: u8) -> (r: u8)
    ensures
        r == ascii_lower(b),
{
    if 65u8 <= b && b <= 90u8 {
        b + 32
    } else {
        b
    }
}

fn matches_word_ignoring_case(s: &[u8], from: usize, word: &[u8]) -> (r: bool)
    requires
        from <= s@.len(),
    ensures
        r == equals_ignoring_case(s@.skip(from as int), word@),
{
    let ghost t = s@.skip(from as int);
    let n = s.len();
    if n - from != word.len() {
        return false;
    }
    let mut i: usize = 0;
    while i < word.len()
        invariant
            t == s@.skip(from as int),
            t.len() == word@.len(),
            from + word@.len() == s@.len(),
            n == s@.len(),
            i <= word@.len(),
            forall|k: int| 0 <= k < i ==> ascii_lower(#[trigger] t[k]) == word@[k],
        decreases word@.len() - i,
    {
        if lower_byte(s[from + i]) != word[i] {
            assert(t[i as int] == s@[from + i]);
            return false;
        }
        i = i + 1;
    }
    true
}

/// Index just past the digits that start at `from`.
fn skip_digits(s: &[u8], from: usize) -> (r: usize)
    requires
        from <= s@.len(),
    ensures
        from <= r <= s@.len(),
        r - from == digit_run(s@.skip(from as int)),
{
    let mut p = from;
    while p < s.len() && 48u8 <= s[p] && s[p] <= 57u8
        invariant
            from <= p <= s@.len(),
            forall|k: int| from <= k < p ==> is_digit(#[trigger] s@[k]),
        decreases s@.len() - p,
    {
        p = p + 1;
    }
    proof {
        let t = s@.skip(from as int);
        assert forall|k: int| 0 <= k < p - from implies is_digit(#[trigger] t[k]) by {
            assert(t[k] == s@[from + k]);
        }
        if p < s@.len() {
            assert(t[p - from] == s@[p as int]);
        }
        lemma_digit_run_at(t, p - from);
    }
    p
}

/// Whether the bytes from `from` on are all digits.
fn all_digits_from(s: &[u8], from: usize) -> (r: bool)
    requires
        from <= s@.len(),
    ensures
        r == all_digits(s@.skip(from as int)),
{
    let ghost t = s@.skip(from as int);
    let mut e = from;
    while e < s.len()
        invariant
            from <= e <= s@.len(),
            t == s@.skip(from as int),
            forall|k: int| 0 <= k < e - from ==> is_digit(#[trigger] t[k]),
        decreases s@.len() - e,
    {
        assert(t[e - from] == s@[e as int]);
        if s[e] < 48u8 || s[e] > 57u8 {
            return false;
        }
        e = e + 1;
    }
    true
}

/// Whether the bytes from `q` on form an exponent.
fn is_exponent_from(s: &[u8], q: usize) -> (r: bool)
    requires
        q <= s@.len(),
    ensures
        r == is_exponent(s@.skip(q as int)),
{
    let len = s.len();
    let ghost rest = s@.skip(q as int);
    if q == len {
        return false;
    }
    assert(rest[0] == s@[q as int]);
    if s[q] != 101u8 && s[q] != 69u8 {
        return false;
    }
    let mut e = q + 1;
    if e < len && (s[e] == 43u8 || s[e] == 45u8) {
        e = e + 1;
    }
    assert(rest.drop_first() =~= s@.skip(q + 1));
    assert(unsigned_part(rest.drop_first()) =~= s@.skip(e as int));
    if e == len {
        return false;
    }
    all_digits_from(s, e)
}

/// Whether the bytes from `p` on form a decimal number.
fn is_float_number_from(s: &[u8], p: usize) -> (r: bool)
    requires
        p <= s@.len(),
    ensures
        r == is_float_number(s@.skip(p as int)),
{
    let len = s.len();
    let ghost t = s@.skip(p as int);
    let int_end = skip_digits(s, p);
    let a = int_end - p;
    let ghost after = t.skip(a as int);
    assert(after =~= s@.skip(int_end as int));
    let mut q = int_end;
    let mut f: usize = 0;
    if q < len && s[q] == 46u8 {
        assert(after[0] == s@[q as int]);
        assert(after.drop_first() =~= s@.skip(q + 1));
        let frac_end = skip_digits(s, q + 1);
        f = frac_end - (q + 1);
        q = frac_end;
        assert(after.drop_first().skip(f as int) =~= s@.skip(q as int));
    } else {
        if q < len {
            assert(after[0] == s@[q as int]);
        }
    }
    if a + f == 0 {
        return false;
    }
    if q == len {
        assert(s@.skip(q as int).len() == 0);
        return true;
    }
    is_exponent_from(s, q)
}

/// Whether `s` is text that `str::parse` reads as a floating-point number.
pub fn is_float_literal_bytes(s: &[u8]) -> (r: bool)
    ensures
        r == is_float_literal(s@),
{
    let len = s.len();
    let mut p: usize = 0;
    if len > 0 && (s[0] == 43u8 || s[0] == 45u8) {
        p = 1;
    }
    assert(unsigned_part(s@) =~= s@.skip(p as int));
    let inf: [u8; 3] = [105u8, 110, 102];
    let infinity: [u8; 8] = [105u8, 110, 102, 105, 110, 105, 116, 121];
    let nan: [u8; 3] = [110u8, 97, 110];
    assert(inf@ =~= seq![105u8, 110, 102]);
    assert(infinity@ =~= seq![105u8, 110, 102, 105, 110, 105, 116, 121]);
    assert(nan@ =~= seq![110u8, 97, 110]);
    if matches_word_ignoring_case(s, p, &inf) || matches_word_ignoring_case(s, p, &infinity)
        || matches_word_ignoring_case(s, p, &nan) {
        return true;
    }
    is_float_number_from(s, p)
}

/// A space, a newline or a carriage return.
pub open spec fn is_blank(b: u8) -> bool {
    b == 32u8 || b == 10u8 || b == 13u8
}

proof fn lemma_word_not_blank(t: Seq<u8>, w: Seq<u8>)
    requires
        equals_ignoring_case(t, w),
        forall|i: int| 0 <= i < w.len() ==> 97u8 <= #[trigger] w[i] <= 122u8,
    ensures
        forall|i: int| 0 <= i < t.len() ==> !is_blank(#[trigger] t[i]),
{
    assert forall|i: int| 0 <= i < t.len() implies !is_blank(#[trigger] t[i]) by {
        assert(ascii_lower(t[i]) == w[i]);
    }
}

/// The text of a floating-point number holds no space, newline or carriage return.
pub proof fn lemma_float_literal_not_blank(s: Seq<u8>)
    requires
        is_float_literal(s),
    ensures
        forall|i: int| 0 <= i < s.len() ==> !is_blank(#[trigger] s[i]),
{
    let t = unsigned_part(s);
    let w1 = seq![105u8, 110, 102];
    let w2 = seq![105u8, 110, 102, 105, 110, 105, 116, 121];
    let w3 = seq![110u8, 97, 110];
    assert forall|i: int| 0 <= i < t.len() implies !is_blank(#[trigger] t[i]) by {
        if equals_ignoring_case(t, w1) {
            lemma_word_not_blank(t, w1);
        } else if equals_ignoring_case(t, w2) {
            lemma_word_not_blank(t, w2);
        } else if equals_ignoring_case(t, w3) {
            lemma_word_not_blank(t, w3);
        } else {
            let a = digit_run(t);
            lemma_digit_run(t);
            let after = t.skip(a as int);
            let has_point = after.len() > 0 && after[0] == 46u8;
            if i < a {
            } else if has_point && i == a {
                assert(t[i] == after[0]);
            } else {
                let f = if has_point {
                    digit_run(after.drop_first())
                } else {
                    0
                };
                let start = if has_point {
                    a as int + 1
                } else {
                    a as int
                };
                let rest = if has_point {
                    after.drop_first().skip(f as int)
                } else {
                    after
                };
                if has_point {
                    lemma_digit_run(after.drop_first());
                    assert(rest =~= t.skip(a as int + 1 + f as int));
                } else {
                    assert(rest =~= t.skip(a as int));
                }
                if has_point && i < a + 1 + f {
                    assert(t[i] == after.drop_first()[i - a - 1]);
                } else {
                    let j = i - (start + f);
                    assert(t[i] == rest[j]);
                    assert(is_exponent(rest));
                    if j > 0 {
                        let e = rest.drop_first();
                        let u = unsigned_part(e);
                        assert(rest[j] == e[j - 1]);
                        if e.len() > 0 && is_sign(e[0]) {
                            if j > 1 {
                                assert(e[j - 1] == u[j - 2]);
                            }
                        } else {
                            assert(e[j - 1] == u[j - 1]);
                        }
                    }
                }
            }
        }
    }
    assert forall|i: int| 0 <= i < s.len() implies !is_blank(#[trigger] s[i]) by {
        if s.len() > 0 && is_sign(s[0]) {
            if i > 0 {
                assert(s[i] == t[i - 1]);
            }
        } else {
            assert(s[i] == t[i]);
        }
    }
}

} // verus!
