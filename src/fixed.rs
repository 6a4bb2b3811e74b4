use vstd::prelude::*;

verus! {

/// A decimal quantity held exactly as a whole number of millionths.
#[derive(Clone, Copy, Debug, PartialEq, Eq, Structural)]
pub struct Fixed {
    pub micros: i64,
}

impl Fixed {
    pub open spec fn value(self) -> int {
        self.micros as int
    }

    pub fn zero() -> (r: Fixed)
        ensures
            r.value() == 0,
    {
        Fixed { micros: 0 }
    }

    pub fn is_positive(&self) -> (r: bool)
        ensures
            r == (self.value() > 0),
    {
        self.micros > 0
    }

    /// The larger of two quantities.
    pub fn max(self, other: Fixed) -> (r: Fixed)
        ensures
            r == max_fixed(self, other),
    {
        if other.micros > self.micros {
            other
        } else {
            self
        }
    }
}

pub open spec fn max_fixed(a: Fixed, b: Fixed) -> Fixed {
    if b.micros > a.micros {
        b
    } else {
        a
    }
}

} // verus!

verus! {

pub open spec fn is_digit_spec(c: char) -> bool {
    '0' <= c && c <= '9'
}

pub open spec fn all_digits(s: Seq<char>) -> bool {
    forall|i: int| 0 <= i < s.len() ==> is_digit_spec(#[trigger] s[i])
}

/// The number that a string of decimal digits writes.
pub open spec fn digits_value(s: Seq<char>) -> int
    decreases s.len(),
{
    if s.len() == 0 {
        0
    } else {
        digits_value(s.drop_last()) * 10 + (s.last() as int - '0' as int)
    }
}

pub open spec fn pow10(n: nat) -> int
    decreases n,
{
    if n == 0 {
        1
    } else {
        10 * pow10((n - 1) as nat)
    }
}

/// Millionths in one unit.
pub const UNIT: i128 = 1_000_000;

/// The most digits a literal may have after its decimal point.
pub const MAX_FRACTION_DIGITS: usize = 6;

/// `u` is digits, a decimal point at `k`, then at most six digits, with at
/// least one digit in all.
pub open spec fn is_point_at(u: Seq<char>, k: int) -> bool {
    &&& 0 <= k < u.len()
    &&& u[k] == '.'
    &&& all_digits(u.take(k))
    &&& all_digits(u.skip(k + 1))
    &&& u.len() - k - 1 <= 6
    &&& u.len() >= 2
}

/// The value, in millionths, of an unsigned decimal literal such as `15`,
/// `2.5`, `.25` or `3.`; `None` for any other text.
pub open spec fn unsigned_micros(u: Seq<char>) -> Option<int> {
    if u.len() > 0 && all_digits(u) {
        Some(digits_value(u) * 1_000_000)
    } else if exists|k: int| is_point_at(u, k) {
        let k = choose|k: int| is_point_at(u, k);
        Some(
            digits_value(u.take(k)) * 1_000_000 + digits_value(u.skip(k + 1)) * pow10(
                (6 - (u.len() - k - 1)) as nat,
            ),
        )
    } else {
        None
    }
}

/// The value, in millionths, of a decimal literal with an optional sign.
pub open spec fn literal_micros(s: Seq<char>) -> Option<int> {
    if s.len() > 0 && s[0] == '-' {
        match unsigned_micros(s.drop_first()) {
            Some(v) => Some(-v),
            None => None,
        }
    } else if s.len() > 0 && s[0] == '+' {
        unsigned_micros(s.drop_first())
    } else {
        unsigned_micros(s)
    }
}

/// What a literal stands for, where its value fits a `Fixed`.
pub open spec fn parse_spec(s: Seq<char>) -> Option<Fixed> {
    match literal_micros(s) {
        Some(v) => if i64::MIN <= v <= i64::MAX {
            Some(Fixed { micros: v as i64 })
        } else {
            None
        },
        None => None,
    }
}

proof fn lemma_digits_nonneg(s: Seq<char>)
    requires
        all_digits(s),
    ensures
        digits_value(s) >= 0,
    decreases s.len(),
{
    if s.len() > 0 {
        lemma_digits_nonneg(s.drop_last());
    }
}

proof fn lemma_digits_bound(s: Seq<char>)
    requires
        all_digits(s),
    ensures
        digits_value(s) < pow10(s.len()),
    decreases s.len(),
{
    if s.len() > 0 {
        lemma_digits_bound(s.drop_last());
        lemma_digits_nonneg(s.drop_last());
    }
}

proof fn lemma_point_unique(u: Seq<char>, k: int, j: int)
    requires
        is_point_at(u, k),
        is_point_at(u, j),
    ensures
        k == j,
{
    if j < k {
        assert(u.take(k)[j] == u[j]);
    } else if k < j {
        assert(u.take(j)[k] == u[k]);
    }
}

proof fn lemma_pow10_add(a: nat, b: nat)
    ensures
        pow10(a) * pow10(b) == pow10(a + b),
        pow10(a) >= 1,
    decreases a,
{
    if a > 0 {
        lemma_pow10_add((a - 1) as nat, b);
        assert(pow10(a) * pow10(b) == 10 * (pow10((a - 1) as nat) * pow10(b))) by (nonlinear_arith)
            requires
                pow10(a) == 10 * pow10((a - 1) as nat),
        ;
    }
}

proof fn lemma_pow10_six()
    ensures
        pow10(6) == 1_000_000,
{
    reveal_with_fuel(pow10, 7);
}

/// Whether `c` is a decimal digit.
pub fn is_digit(c: char) -> (r: bool)
    ensures
        r == is_digit_spec(c),
{
    '0' <= c && c <= '9'
}

/// Ten to the power `n`.
fn pow10_exec(n: usize) -> (r: i128)
    requires
        n <= 6,
    ensures
        r == pow10(n as nat),
{
    let mut r: i128 = 1;
    let mut m: usize = 0;
    while m < n
        invariant
            m <= n <= 6,
            r == pow10(m as nat),
            r <= 1_000_000,
        decreases n - m,
    {
        proof {
            lemma_pow10_six();
            lemma_pow10_add(m as nat + 1, (6 - m - 1) as nat);
            lemma_pow10_add((6 - m - 1) as nat, 0);
            assert(pow10(m as nat + 1) == 10 * r);
            assert(10 * r <= 1_000_000) by (nonlinear_arith)
                requires
                    10 * r * pow10((6 - m - 1) as nat) == 1_000_000,
                    pow10((6 - m - 1) as nat) >= 1,
                    r >= 1,
            ;
        }
        r = r * 10;
        m = m + 1;
    }
    r
}

/// Reads the run of digits that starts at `from`: where the run ends, and the
/// number it writes where that is at most `DIGITS_CAP`.
fn read_digits(s: &[char], from: usize) -> (r: (usize, Option<i128>))
    requires
        from <= s@.len(),
    ensures
        from <= r.0 <= s@.len(),
        all_digits(s@.subrange(from as int, r.0 as int)),
        r.0 == s@.len() || !is_digit_spec(s@[r.0 as int]),
        match r.1 {
            Some(v) => v == digits_value(s@.subrange(from as int, r.0 as int)) && v <= DIGITS_CAP,
            None => digits_value(s@.subrange(from as int, r.0 as int)) > DIGITS_CAP,
        },
{
    let n = s.len();
    let mut acc: i128 = 0;
    let mut big = false;
    let mut i: usize = from;
    while i < n && is_digit(s[i])
        invariant
            from <= i <= n,
            n == s@.len(),
            all_digits(s@.subrange(from as int, i as int)),
            !big ==> acc == digits_value(s@.subrange(from as int, i as int)) && 0 <= acc
                <= DIGITS_CAP,
            big ==> digits_value(s@.subrange(from as int, i as int)) > DIGITS_CAP,
        decreases n - i,
    {
        let d = s[i];
        proof {
            assert(s@.subrange(from as int, i + 1).drop_last() =~= s@.subrange(
                from as int,
                i as int,
            ));
            lemma_digits_nonneg(s@.subrange(from as int, i as int));
        }
        if !big {
            acc = acc * 10 + (d as u32 - '0' as u32) as i128;
            if acc > DIGITS_CAP {
                big = true;
            }
        }
        i = i + 1;
    }
    if big {
        (i, None)
    } else {
        (i, Some(acc))
    }
}

/// A bound on whole units past which no literal fits a `Fixed`.
pub const DIGITS_CAP: i128 = 10_000_000_000_000;

/// Reads a decimal literal (an optional sign, digits, an optional point and at
/// most six more digits); `None` where the text is no such literal or its
/// value does not fit.
pub fn parse_fixed(s: &[char]) -> (r: Option<Fixed>)
    ensures
        r == parse_spec(s@),
{
    let n = s.len();
    let mut start: usize = 0;
    let mut neg = false;
    if n > 0 && (s[0] == '-' || s[0] == '+') {
        neg = s[0] == '-';
        start = 1;
    }
    let ghost u = s@.subrange(start as int, n as int);
    proof {
        if start == 1 {
            assert(u =~= s@.drop_first());
        } else {
            assert(u =~= s@);
        }
    }
    let magnitude = parse_unsigned(s, start);
    match magnitude {
        None => None,
        Some(m) => {
            let total: i128 = if neg {
                -m
            } else {
                m
            };
            if total < i64::MIN as i128 || total > i64::MAX as i128 {
                None
            } else {
                Some(Fixed { micros: total as i64 })
            }
        },
    }
}

/// The value in millionths of the unsigned literal `s[start..]`; `None` where
/// the text is no such literal or the value is over `DIGITS_CAP` units.
fn parse_unsigned(s: &[char], start: usize) -> (r: Option<i128>)
    requires
        start <= s@.len(),
    ensures
        match r {
            Some(v) => unsigned_micros(s@.subrange(start as int, s@.len() as int)) == Some(
                v as int,
            ) && 0 <= v <= DIGITS_CAP * UNIT + UNIT,
            None => match unsigned_micros(s@.subrange(start as int, s@.len() as int)) {
                Some(v) => v > DIGITS_CAP * 1_000_000,
                None => true,
            },
        },
{
    let n = s.len();
    let ghost u = s@.subrange(start as int, n as int);
    let (int_end, int_val) = read_digits(s, start);
    let ghost k = int_end - start;
    proof {
        assert(u.take(k) =~= s@.subrange(start as int, int_end as int));
        lemma_digits_nonneg(u.take(k));
    }
    if int_end == n {
        assert(u.take(k) =~= u);
        if int_end == start {
            proof {
                assert forall|j: int| !is_point_at(u, j) by {
                }
            }
            return None;
        }
        return match int_val {
            Some(v) => Some(v * UNIT),
            None => None,
        };
    }
    proof {
        assert(!all_digits(u)) by {
            assert(u[k] == s@[int_end as int]);
        }
    }
    if s[int_end] != '.' {
        proof {
            assert forall|j: int| !is_point_at(u, j) by {
                if is_point_at(u, j) {
                    if j < k {
                        assert(u.take(k)[j] == u[j]);
                    } else if j > k {
                        assert(u.take(j)[k] == u[k]);
                    }
                }
            }
        }
        return None;
    }
    let (frac_end, frac_val) = read_digits(s, int_end + 1);
    let flen = frac_end - int_end - 1;
    if frac_end < n || flen > MAX_FRACTION_DIGITS || (int_end == start && flen == 0) {
        proof {
            assert forall|j: int| !is_point_at(u, j) by {
                if is_point_at(u, j) {
                    if j < k {
                        assert(u.take(k)[j] == u[j]);
                    } else if j > k {
                        assert(u.take(j)[k] == u[k]);
                    } else if frac_end < n {
                        assert(u.skip(k + 1)[frac_end - start - k - 1] == u[frac_end - start]);
                    }
                }
            }
        }
        return None;
    }
    let ghost f = u.skip(k + 1);
    proof {
        assert(f =~= s@.subrange(int_end + 1, frac_end as int));
        assert(is_point_at(u, k));
        let c = choose|j: int| is_point_at(u, j);
        lemma_point_unique(u, k, c);
        lemma_digits_bound(f);
        lemma_digits_nonneg(f);
        lemma_pow10_add(flen as nat, (6 - flen) as nat);
        lemma_pow10_add(flen as nat, 0);
        lemma_pow10_add((6 - flen) as nat, 0);
        lemma_pow10_six();
        assert(pow10(flen as nat) <= 1_000_000) by (nonlinear_arith)
            requires
                pow10(flen as nat) * pow10((6 - flen) as nat) == 1_000_000,
                pow10((6 - flen) as nat) >= 1,
                pow10(flen as nat) >= 1,
        ;
    }
    let fv = match frac_val {
        Some(v) => v,
        None => {
            return None;
        },
    };
    let scale = pow10_exec(MAX_FRACTION_DIGITS - flen);
    assert(fv * scale < 1_000_000) by (nonlinear_arith)
        requires
            0 <= fv < pow10(flen as nat),
            scale >= 1,
            pow10(flen as nat) * scale == 1_000_000,
    ;
    match int_val {
        Some(v) => Some(v * UNIT + fv * scale),
        None => {
            proof {
                lemma_digits_nonneg(f);
                assert(digits_value(f) * scale >= 0) by (nonlinear_arith)
                    requires
                        digits_value(f) >= 0,
                        scale >= 1,
                ;
            }
            None
        },
    }
}

} // verus!
