//! Durations, and the text that a configuration writes them as.
use crate::text::{
    all_digits, chars_of, decimal, is_digit, is_whitespace, parse_unsigned, strip_suffix,
    stripped_suffix, trim, trimmed, unsigned_text,
};
use std::time::Duration;
use vstd::prelude::*;

verus! {

/// How many nanoseconds a duration lasts.
pub uninterp spec fn nanos(d: Duration) -> nat;

/// The nanoseconds of a second.
pub const SECOND: u128 = 1_000_000_000;

/// The nanoseconds that no duration reaches: a duration holds its whole seconds in 64 bits.
pub const END: u128 = 18_446_744_073_709_551_616_000_000_000;

/// `Duration::from_millis`.
pub assume_specification[ Duration::from_millis ](millis: u64) -> (r: Duration)
    ensures
        nanos(r) == millis * 1_000_000,
;

/// `Duration::from_secs`.
pub assume_specification[ Duration::from_secs ](secs: u64) -> (r: Duration)
    ensures
        nanos(r) == secs * 1_000_000_000,
;

/// `Duration::new`, with less than a second of nanoseconds.
pub assume_specification[ Duration::new ](secs: u64, rest: u32) -> (r: Duration)
    requires
        rest < 1_000_000_000,
    ensures
        nanos(r) == secs * 1_000_000_000 + rest,
;

/// `Duration::as_nanos`.
pub assume_specification[ Duration::as_nanos ](d: &Duration) -> (r: u128)
    ensures
        r == nanos(*d),
        r < END,
;

/// `Duration::as_secs`: the whole seconds.
pub assume_specification[ Duration::as_secs ](d: &Duration) -> (r: u64)
    ensures
        r == nanos(*d) / 1_000_000_000,
;

/// The duration of that many nanoseconds.
pub fn duration(n: u128) -> (r: Duration)
    requires
        n < END,
    ensures
        nanos(r) == n,
{
    Duration::new((n / SECOND) as u64, (n % SECOND) as u32)
}

/// A power of ten.
pub open spec fn pow10(n: nat) -> nat
    decreases n,
{
    if n == 0 {
        1
    } else {
        10 * pow10((n - 1) as nat)
    }
}

/// The first position of a character of which `p` says so.
pub open spec fn first_at(s: Seq<char>, p: spec_fn(char) -> bool) -> Option<int>
    decreases s.len(),
{
    if s.len() == 0 {
        None
    } else if p(s[0]) {
        Some(0)
    } else {
        match first_at(s.drop_first(), p) {
            Some(i) => Some(i + 1),
            None => None,
        }
    }
}

/// A number that may have a fraction: `digits * 10^exponent`.
pub struct Decimal {
    pub digits: nat,
    pub exponent: int,
}

/// The number behind a sign, and whether the sign is a minus.
pub open spec fn unsign(s: Seq<char>) -> (bool, Seq<char>) {
    if s.len() > 0 && s[0] == '-' {
        (true, s.drop_first())
    } else if s.len() > 0 && s[0] == '+' {
        (false, s.drop_first())
    } else {
        (false, s)
    }
}

/// Digits around a point, on one side of it at least.
pub open spec fn mantissa(s: Seq<char>) -> Option<Decimal> {
    match first_at(s, |c: char| c == '.') {
        Some(i) => {
            let d = s.take(i) + s.skip(i + 1);
            if d.len() > 0 && all_digits(d) {
                Some(Decimal { digits: decimal(d), exponent: i + 1 - s.len() })
            } else {
                None
            }
        },
        None => if s.len() > 0 && all_digits(s) {
            Some(Decimal { digits: decimal(s), exponent: 0 })
        } else {
            None
        },
    }
}

/// The exponent that a text spells: digits, behind a sign or not.
pub open spec fn exponent(s: Seq<char>) -> Option<int> {
    let (minus, d) = unsign(s);
    if d.len() > 0 && all_digits(d) {
        Some(if minus {
            -(decimal(d) as int)
        } else {
            decimal(d) as int
        })
    } else {
        None
    }
}

/// The number that a text spells behind its sign: a mantissa, and an exponent behind an `e`.
pub open spec fn unsigned_real(s: Seq<char>) -> Option<Decimal> {
    match first_at(s, |c: char| c == 'e' || c == 'E') {
        Some(i) => match (mantissa(s.take(i)), exponent(s.skip(i + 1))) {
            (Some(m), Some(e)) => Some(Decimal { digits: m.digits, exponent: m.exponent + e }),
            _ => None,
        },
        None => mantissa(s),
    }
}

/// The least number with more significant digits than count.
pub const PRECISION: u128 = 1_000_000_000_000_000_000_000_000_000_000_000;

/// A number by its significant digits: what follows the first thirty-three does not count.
pub open spec fn significant(d: Decimal) -> Decimal
    decreases d.digits,
{
    if d.digits < PRECISION {
        d
    } else {
        significant(Decimal { digits: d.digits / 10, exponent: d.exponent + 1 })
    }
}

/// `n / d`, to the nearest integer, and of two equally near to the even one.
pub open spec fn nearest(n: nat, d: nat) -> nat {
    let q = n / d;
    let r = n % d;
    if 2 * r > d || (2 * r == d && q % 2 == 1) {
        q + 1
    } else {
        q
    }
}

/// `digits * 10^exponent` seconds times `scale`, in nanoseconds.
pub open spec fn seconds_nanos(d: Decimal, scale: nat) -> nat {
    let p = d.exponent + 9;
    if p >= 0 {
        d.digits * scale * pow10(p as nat)
    } else {
        nearest(d.digits * scale, pow10((-p) as nat))
    }
}

/// The nanoseconds of a number of seconds, minutes or hours: none below zero, and none from the
/// end of the durations on.
pub open spec fn real_nanos(s: Seq<char>, scale: nat) -> Option<nat> {
    let (minus, u) = unsign(s);
    match unsigned_real(u) {
        Some(d) => {
            let n = seconds_nanos(significant(d), scale);
            if (minus && d.digits > 0) || n >= END {
                None
            } else {
                Some(n)
            }
        },
        None => None,
    }
}

/// A text without the white space around it.
pub open spec fn bare(s: Seq<char>) -> Seq<char> {
    trimmed(s, |c: char| is_whitespace(c))
}

/// The nanoseconds that a duration text spells: a whole number of `ms`, or a number of `s`, `m`
/// or `h`; of seconds where no unit is given.
pub open spec fn duration_text(s: Seq<char>) -> Option<nat> {
    let t = bare(s);
    match stripped_suffix(t, "ms"@) {
        Some(rest) => match unsigned_text(bare(rest)) {
            Some(n) => Some((n * 1_000_000) as nat),
            None => None,
        },
        None => match stripped_suffix(t, "s"@) {
            Some(rest) => real_nanos(bare(rest), 1),
            None => match stripped_suffix(t, "m"@) {
                Some(rest) => real_nanos(bare(rest), 60),
                None => match stripped_suffix(t, "h"@) {
                    Some(rest) => real_nanos(bare(rest), 3600),
                    None => real_nanos(t, 1),
                },
            },
        },
    }
}

/// The duration that a text spells (`"500ms"`, `"2s"`, `"5m"`, `"1.5h"`, `"3"`).
pub fn parse_duration(s: &str) -> (r: Option<Duration>)
    ensures
        match r {
            Some(d) => duration_text(s@) == Some(nanos(d)),
            None => duration_text(s@) is None,
        },
{
    let t: &str = trim(s);
    if let Some(rest) = strip_suffix(t, "ms") {
        return match parse_unsigned(trim(rest)) {
            Some(n) => Some(Duration::from_millis(n)),
            None => None,
        };
    }
    let found: Option<u128> = if let Some(rest) = strip_suffix(t, "s") {
        real_seconds(trim(rest), 1)
    } else if let Some(rest) = strip_suffix(t, "m") {
        real_seconds(trim(rest), 60)
    } else if let Some(rest) = strip_suffix(t, "h") {
        real_seconds(trim(rest), 3600)
    } else {
        real_seconds(t, 1)
    };
    match found {
        Some(n) => Some(duration(n)),
        None => None,
    }
}

/// The nanoseconds of a number of seconds, minutes or hours.
fn real_seconds(s: &str, scale: u128) -> (r: Option<u128>)
    requires
        1 <= scale <= 3600,
    ensures
        match r {
            Some(n) => real_nanos(s@, scale as nat) == Some(n as nat) && n < END,
            None => real_nanos(s@, scale as nat) is None,
        },
{
    let c: Vec<char> = chars_of(s);
    let minus: bool = c.len() > 0 && c[0] == '-';
    let from: usize = if c.len() > 0 && (c[0] == '-' || c[0] == '+') {
        1
    } else {
        0
    };
    let ghost u = unsign(s@).1;
    assert(u =~= s@.skip(from as int));
    match scan_real(&c, from) {
        None => None,
        Some((digits, exp)) => {
            proof {
                significant_by(unsigned_real(u)->0, 0);
            }
            if minus && digits > 0 {
                None
            } else {
                scaled(digits, exp, scale, Ghost(significant(unsigned_real(u)->0).exponent))
            }
        },
    }
}

/// An exponent from here on, or as far below zero, says no more than that it is out of reach.
pub const FAR: i128 = 1_000_000;

spec fn clamped(e: int) -> int {
    if e > FAR {
        FAR as int
    } else if e < -FAR {
        -FAR
    } else {
        e
    }
}

proof fn significant_shift(d: Decimal)
    ensures
        significant(Decimal { digits: d.digits, exponent: d.exponent + 1 }) == (Decimal {
            digits: significant(d).digits,
            exponent: significant(d).exponent + 1,
        }),
    decreases d.digits,
{
    if d.digits >= PRECISION {
        significant_shift(Decimal { digits: d.digits / 10, exponent: d.exponent + 1 });
    }
}

proof fn significant_by(d: Decimal, by: int)
    ensures
        significant(d) == (Decimal {
            digits: significant(Decimal { digits: d.digits, exponent: 0 }).digits,
            exponent: significant(Decimal { digits: d.digits, exponent: 0 }).exponent + d.exponent,
        }),
        significant(d).digits < PRECISION,
        significant(d).digits > 0 <==> d.digits > 0,
    decreases d.digits,
{
    if d.digits >= PRECISION {
        significant_by(Decimal { digits: d.digits / 10, exponent: d.exponent + 1 }, by);
        significant_by(Decimal { digits: d.digits / 10, exponent: 1 }, by);
    }
}

proof fn significant_push(n: nat, v: nat)
    requires
        v < 10,
    ensures
        10 * n + v < PRECISION ==> significant(Decimal { digits: 10 * n + v, exponent: 0 }) == (
        Decimal { digits: 10 * n + v, exponent: 0 }),
        10 * n + v >= PRECISION ==> significant(Decimal { digits: 10 * n + v, exponent: 0 }) == (
        Decimal {
            digits: significant(Decimal { digits: n, exponent: 0 }).digits,
            exponent: significant(Decimal { digits: n, exponent: 0 }).exponent + 1,
        }),
{
    if 10 * n + v >= PRECISION {
        assert((10 * n + v) / 10 == n);
        significant_shift(Decimal { digits: n, exponent: 0 });
    }
}

/// The significant digits of the number that digits spell, and how many more there are.
fn scan_digits(d: &Vec<char>) -> (r: Option<(u128, u64)>)
    ensures
        match r {
            Some((a, k)) => all_digits(d@) && significant(
                Decimal { digits: decimal(d@), exponent: 0 },
            ) == (Decimal { digits: a as nat, exponent: k as int }) && a < PRECISION && k <= d@.len(),
            None => !all_digits(d@),
        },
{
    let mut a: u128 = 0;
    let mut k: u64 = 0;
    let mut i: usize = 0;
    while i < d.len()
        invariant
            i <= d@.len(),
            k <= i,
            a < PRECISION,
            all_digits(d@.take(i as int)),
            significant(Decimal { digits: decimal(d@.take(i as int)), exponent: 0 }) == (Decimal {
                digits: a as nat,
                exponent: k as int,
            }),
            k == 0 ==> a == decimal(d@.take(i as int)),
            k > 0 ==> decimal(d@.take(i as int)) >= PRECISION,
        decreases d@.len() - i,
    {
        let ch: char = d[i];
        assert(d@.take(i + 1).drop_last() =~= d@.take(i as int));
        if !('0' <= ch && ch <= '9') {
            return None;
        }
        let v: u128 = (ch as u32 - '0' as u32) as u128;
        proof {
            significant_push(decimal(d@.take(i as int)), v as nat);
        }
        if k > 0 {
            k = k + 1;
        } else if a * 10 + v < PRECISION {
            a = a * 10 + v;
        } else {
            k = 1;
        }
        i = i + 1;
    }
    assert(d@.take(d@.len() as int) =~= d@);
    Some((a, k))
}

proof fn first_at_is(s: Seq<char>, p: spec_fn(char) -> bool, i: int)
    requires
        0 <= i <= s.len(),
        forall|j: int| 0 <= j < i ==> !p(#[trigger] s[j]),
        i < s.len() ==> p(s[i]),
    ensures
        first_at(s, p) == if i < s.len() {
            Some(i)
        } else {
            None
        },
    decreases i,
{
    if i > 0 {
        let t = s.drop_first();
        assert(!p(s[0]));
        assert forall|j: int| 0 <= j < i - 1 implies !p(#[trigger] t[j]) by {
            assert(t[j] == s[j + 1]);
        }
        first_at_is(t, p, i - 1);
    }
}

/// The mantissa of `c` from `from` to `to`: its significant digits and its exponent.
fn scan_mantissa(c: &Vec<char>, from: usize, to: usize) -> (r: Option<(u128, i128)>)
    requires
        from <= to <= c@.len(),
    ensures
        match r {
            Some((a, e)) => mantissa(c@.subrange(from as int, to as int)) is Some && significant(
                mantissa(c@.subrange(from as int, to as int))->0,
            ) == (Decimal { digits: a as nat, exponent: e as int }) && a < PRECISION && -(
            usize::MAX as int) <= e <= usize::MAX,
            None => mantissa(c@.subrange(from as int, to as int)) is None,
        },
{
    let ghost s = c@.subrange(from as int, to as int);
    let ghost point = |ch: char| ch == '.';
    let mut dot: usize = from;
    while dot < to && c[dot] != '.'
        invariant
            from <= dot <= to <= c@.len(),
            s == c@.subrange(from as int, to as int),
            point == |ch: char| ch == '.',
            forall|j: int| 0 <= j < dot - from ==> !point(#[trigger] s[j]),
        decreases to - dot,
    {
        assert(s[dot - from] == c@[dot as int]);
        dot = dot + 1;
    }
    proof {
        if dot < to {
            assert(s[dot - from] == c@[dot as int]);
        }
        first_at_is(s, point, dot - from);
    }
    let mut d: Vec<char> = Vec::new();
    let mut i: usize = from;
    while i < to
        invariant
            from <= i <= to <= c@.len(),
            from <= dot <= to,
            s == c@.subrange(from as int, to as int),
            i <= dot ==> d@ == s.take(i - from),
            i > dot ==> d@ == s.take(dot - from) + s.subrange(dot + 1 - from, i - from),
        decreases to - i,
    {
        if i != dot {
            d.push(c[i]);
        }
        proof {
            if i < dot {
                assert(s.take(i + 1 - from) =~= s.take(i - from).push(c@[i as int]));
            } else if i == dot {
                assert(s.subrange(dot + 1 - from, i + 1 - from) =~= Seq::<char>::empty());
            } else {
                assert(s.subrange(dot + 1 - from, i + 1 - from) =~= s.subrange(
                    dot + 1 - from,
                    i - from,
                ).push(c@[i as int]));
            }
        }
        i = i + 1;
    }
    proof {
        if dot < to {
            assert(s.skip(dot + 1 - from) =~= s.subrange(dot + 1 - from, to - from));
        } else {
            assert(s.take(to - from) =~= s);
        }
    }
    if d.len() == 0 {
        return None;
    }
    let behind: i128 = if dot < to {
        (to - dot - 1) as i128
    } else {
        0
    };
    match scan_digits(&d) {
        Some((a, k)) => {
            proof {
                significant_by(mantissa(s)->0, 0);
            }
            Some((a, k as i128 - behind))
        },
        None => None,
    }
}

/// An exponent from here on is held as this one.
pub const HUGE: i128 = 1_000_000_000_000_000_000_000_000_000_000;

spec fn held(e: int) -> int {
    if e > HUGE {
        HUGE as int
    } else if e < -HUGE {
        -HUGE
    } else {
        e
    }
}

/// The exponent of `c` from `from` on.
fn scan_exponent(c: &Vec<char>, from: usize) -> (r: Option<i128>)
    requires
        from <= c@.len(),
    ensures
        match r {
            Some(e) => exponent(c@.skip(from as int)) is Some && e == held(
                exponent(c@.skip(from as int))->0,
            ),
            None => exponent(c@.skip(from as int)) is None,
        },
{
    let ghost s = c@.skip(from as int);
    let minus: bool = from < c.len() && c[from] == '-';
    let first: usize = if from < c.len() && (c[from] == '-' || c[from] == '+') {
        from + 1
    } else {
        from
    };
    let ghost d = unsign(s).1;
    proof {
        if from < c@.len() {
            assert(s[0] == c@[from as int]);
        }
        assert(d =~= c@.skip(first as int));
    }
    if first == c.len() {
        return None;
    }
    let mut e: i128 = 0;
    let mut i: usize = first;
    while i < c.len()
        invariant
            first <= i <= c@.len(),
            s == c@.skip(from as int),
            d == unsign(s).1,
            d == c@.skip(first as int),
            all_digits(d.take(i - first)),
            e == if decimal(d.take(i - first)) > HUGE {
                HUGE as int
            } else {
                decimal(d.take(i - first)) as int
            },
        decreases c@.len() - i,
    {
        let ch: char = c[i];
        assert(d[i - first] == ch);
        assert(d.take(i + 1 - first).drop_last() =~= d.take(i - first));
        if !('0' <= ch && ch <= '9') {
            assert(!is_digit(d[i - first]));
            return None;
        }
        let v: i128 = (ch as u32 - '0' as u32) as i128;
        if e >= HUGE / 10 && e * 10 + v > HUGE {
            e = HUGE;
        } else {
            e = e * 10 + v;
        }
        i = i + 1;
    }
    assert(d.take(d.len() as int) =~= d);
    if minus {
        Some(-e)
    } else {
        Some(e)
    }
}

/// The number of `c` from `from` on: its significant digits, and its exponent where that is not
/// out of reach.
fn scan_real(c: &Vec<char>, from: usize) -> (r: Option<(u128, i128)>)
    requires
        from <= c@.len(),
    ensures
        match r {
            Some((a, e)) => unsigned_real(c@.skip(from as int)) is Some && significant(
                unsigned_real(c@.skip(from as int))->0,
            ).digits == a && e == clamped(
                significant(unsigned_real(c@.skip(from as int))->0).exponent,
            ) && a < PRECISION,
            None => unsigned_real(c@.skip(from as int)) is None,
        },
{
    let ghost s = c@.skip(from as int);
    let ghost mark = |ch: char| ch == 'e' || ch == 'E';
    let mut at: usize = from;
    while at < c.len() && c[at] != 'e' && c[at] != 'E'
        invariant
            from <= at <= c@.len(),
            s == c@.skip(from as int),
            mark == |ch: char| ch == 'e' || ch == 'E',
            forall|j: int| 0 <= j < at - from ==> !mark(#[trigger] s[j]),
        decreases c@.len() - at,
    {
        assert(s[at - from] == c@[at as int]);
        at = at + 1;
    }
    proof {
        if at < c@.len() {
            assert(s[at - from] == c@[at as int]);
        }
        first_at_is(s, mark, at - from);
        assert(c@.subrange(from as int, at as int) =~= s.take(at - from));
        if at < c@.len() {
            assert(c@.skip(at + 1) =~= s.skip(at + 1 - from));
        } else {
            assert(s.take(at - from) =~= s);
        }
    }
    match scan_mantissa(c, from, at) {
        None => None,
        Some((a, m)) => {
            let e: i128 = if at < c.len() {
                match scan_exponent(c, at + 1) {
                    Some(e) => e,
                    None => {
                        return None;
                    },
                }
            } else {
                0
            };
            proof {
                significant_by(unsigned_real(s)->0, 0);
                significant_by(mantissa(s.take(at - from))->0, 0);
            }
            let total: i128 = m + e;
            let kept: i128 = if total > FAR {
                FAR
            } else if total < -FAR {
                -FAR
            } else {
                total
            };
            Some((a, kept))
        },
    }
}

proof fn pow10_step(n: nat)
    ensures
        pow10(n + 1) == 10 * pow10(n),
        pow10(n) >= 1,
    decreases n,
{
    if n > 0 {
        pow10_step((n - 1) as nat);
    }
}

proof fn pow10_grows(a: nat, b: nat)
    requires
        a <= b,
    ensures
        1 <= pow10(a) <= pow10(b),
    decreases b,
{
    pow10_step(a);
    if a < b {
        pow10_grows(a, (b - 1) as nat);
    }
}

proof fn product_grows(n: nat, a: nat, b: nat)
    requires
        a <= b,
    ensures
        n * pow10(a) <= n * pow10(b),
{
    pow10_grows(a, b);
    assert(n * pow10(a) <= n * pow10(b)) by (nonlinear_arith)
        requires
            pow10(a) <= pow10(b),
    ;
}

proof fn pow10_values()
    ensures
        pow10(0) == 1,
        pow10(29) == 100_000_000_000_000_000_000_000_000_000,
        pow10(38) == 100_000_000_000_000_000_000_000_000_000_000_000_000,
        pow10(39) == 1_000_000_000_000_000_000_000_000_000_000_000_000_000,
{
    reveal_with_fuel(pow10, 40);
}

/// `n * 10^e`, where `e`, from 0 on, is held as `p` where it is out of reach.
fn scaled_up(n: u128, p: i128, Ghost(e): Ghost<nat>) -> (r: Option<u128>)
    requires
        0 <= p <= e,
        p == e || p >= 29,
    ensures
        match r {
            Some(x) => x == n * pow10(e) && x < END,
            None => n * pow10(e) >= END,
        },
{
    if n == 0 {
        assert(0 * pow10(e) == 0) by (nonlinear_arith);
        return Some(0);
    }
    let mut i: i128 = 0;
    let mut x: u128 = n;
    proof {
        pow10_values();
        assert(n * pow10(0) == n) by (nonlinear_arith)
            requires
                pow10(0) == 1,
        ;
    }
    while i < p
        invariant
            0 <= i <= p <= e,
            x == n * pow10(i as nat),
        decreases p - i,
    {
        if x >= END {
            proof {
                product_grows(n as nat, i as nat, e);
            }
            return None;
        }
        proof {
            pow10_step(i as nat);
            assert(n * (10 * pow10(i as nat)) == 10 * (n * pow10(i as nat))) by (nonlinear_arith);
        }
        x = x * 10;
        i = i + 1;
    }
    proof {
        product_grows(n as nat, p as nat, e);
        if p >= 29 {
            product_grows(n as nat, 29, p as nat);
            assert(n * pow10(29) >= pow10(29)) by (nonlinear_arith)
                requires
                    n >= 1,
            ;
        }
    }
    if x >= END {
        None
    } else {
        Some(x)
    }
}

proof fn nearest_zero(n: nat, t: nat)
    requires
        2 * n < t,
    ensures
        nearest(n, t) == 0,
{
    assert(n / t == 0 && n % t == n) by (nonlinear_arith)
        requires
            0 <= n < t,
    ;
}

/// `n / 10^e`, to the nearest integer, where `e` is held as `k` where it is out of reach.
fn scaled_down(n: u128, k: i128, Ghost(e): Ghost<nat>) -> (r: Option<u128>)
    requires
        n < 10_000_000_000_000_000_000_000_000_000_000_000_000,
        1 <= k <= e,
        k == e || k > 38,
    ensures
        match r {
            Some(x) => x == nearest(n as nat, pow10(e)) && x < END,
            None => nearest(n as nat, pow10(e)) >= END,
        },
{
    proof {
        pow10_values();
    }
    if k > 38 {
        proof {
            pow10_grows(39, e);
            nearest_zero(n as nat, pow10(e));
        }
        return Some(0);
    }
    let mut t: u128 = 1;
    let mut i: i128 = 0;
    while i < k
        invariant
            0 <= i <= k <= 38,
            t == pow10(i as nat),
            pow10(38) == 100_000_000_000_000_000_000_000_000_000_000_000_000,
        decreases k - i,
    {
        proof {
            pow10_step(i as nat);
            pow10_grows((i + 1) as nat, 38);
        }
        t = t * 10;
        i = i + 1;
    }
    proof {
        pow10_grows(k as nat, 38);
    }
    let q: u128 = n / t;
    let rest: u128 = n % t;
    assert(q <= n) by (nonlinear_arith)
        requires
            q == n / t,
            t >= 1,
    ;
    let x: u128 = if 2 * rest > t || (2 * rest == t && q % 2 == 1) {
        q + 1
    } else {
        q
    };
    if x >= END {
        None
    } else {
        Some(x)
    }
}

/// `digits * 10^e` seconds times `scale` in nanoseconds, of the exponent `e` that is held as
/// `exp`.
fn scaled(digits: u128, exp: i128, scale: u128, Ghost(e): Ghost<int>) -> (r: Option<u128>)
    requires
        digits < PRECISION,
        1 <= scale <= 3600,
        exp == clamped(e),
    ensures
        ({
            let n = seconds_nanos(Decimal { digits: digits as nat, exponent: e }, scale as nat);
            match r {
                Some(x) => x == n && n < END,
                None => n >= END,
            }
        }),
{
    assert(digits * scale <= PRECISION * 3600) by (nonlinear_arith)
        requires
            0 <= digits <= PRECISION,
            0 <= scale <= 3600,
    ;
    let n: u128 = digits * scale;
    let p: i128 = exp + 9;
    if p >= 0 {
        scaled_up(n, p, Ghost((e + 9) as nat))
    } else {
        scaled_down(n, -p, Ghost((-(e + 9)) as nat))
    }
}

/// Only white space.
pub open spec fn all_blank(s: Seq<char>) -> bool {
    forall|i: int| 0 <= i < s.len() ==> is_whitespace(#[trigger] s[i])
}

proof fn bare_between(before: Seq<char>, s: Seq<char>, after: Seq<char>)
    requires
        all_blank(before),
        all_blank(after),
        s.len() > 0,
        !is_whitespace(s[0]),
        !is_whitespace(s.last()),
    ensures
        bare(before + s + after) == s,
    decreases before.len() + after.len(),
{
    let t = before + s + after;
    if before.len() > 0 {
        assert(t[0] == before[0]);
        assert(t.drop_first() =~= before.drop_first() + s + after);
        assert(all_blank(before.drop_first())) by {
            assert forall|i: int| 0 <= i < before.len() - 1 implies is_whitespace(
                #[trigger] before.drop_first()[i],
            ) by {
                assert(before.drop_first()[i] == before[i + 1]);
            }
        }
        bare_between(before.drop_first(), s, after);
    } else if after.len() > 0 {
        assert(t[0] == s[0]);
        assert(t.last() == after.last());
        assert(t.drop_last() =~= before + s + after.drop_last());
        assert(all_blank(after.drop_last())) by {
            assert forall|i: int| 0 <= i < after.len() - 1 implies is_whitespace(
                #[trigger] after.drop_last()[i],
            ) by {
                assert(after.drop_last()[i] == after[i]);
            }
        }
        bare_between(before, s, after.drop_last());
    } else {
        assert(t =~= s);
    }
}

proof fn plain_digits(d: Seq<char>)
    requires
        d.len() > 0,
        all_digits(d),
    ensures
        unsign(d) == (false, d),
        unsigned_real(d) == Some(Decimal { digits: decimal(d), exponent: 0 }),
        !is_whitespace(d[0]),
        !is_whitespace(d.last()),
{
    let mark = |c: char| c == 'e' || c == 'E';
    let point = |c: char| c == '.';
    assert(is_digit(d[0]) && is_digit(d.last()));
    assert forall|i: int| 0 <= i < d.len() implies !mark(#[trigger] d[i]) && !point(d[i]) by {
        assert(is_digit(d[i]));
    }
    first_at_is(d, mark, d.len() as int);
    first_at_is(d, point, d.len() as int);
}

proof fn significant_is_large(d: Decimal)
    requires
        d.digits >= PRECISION,
    ensures
        significant(d).digits >= PRECISION / 10,
        significant(d).exponent >= d.exponent,
    decreases d.digits,
{
    let next = Decimal { digits: d.digits / 10, exponent: d.exponent + 1 };
    if next.digits >= PRECISION {
        significant_is_large(next);
    } else {
        assert(significant(next) == next);
    }
}

/// What a duration can hold.
pub open spec fn held_nanos(n: nat) -> Option<nat> {
    if n < END {
        Some(n)
    } else {
        None
    }
}

proof fn whole_seconds(d: Seq<char>, scale: nat)
    requires
        d.len() > 0,
        all_digits(d),
        1 <= scale <= 3600,
    ensures
        real_nanos(d, scale) == held_nanos(decimal(d) * scale * 1_000_000_000),
{
    plain_digits(d);
    let whole = Decimal { digits: decimal(d), exponent: 0 };
    let kept = significant(whole);
    assert(pow10(9) == 1_000_000_000) by {
        reveal_with_fuel(pow10, 10);
    }
    if decimal(d) >= PRECISION {
        significant_is_large(whole);
        let p = (kept.exponent + 9) as nat;
        pow10_grows(9, p);
        assert(kept.digits * scale * pow10(p) >= kept.digits) by (nonlinear_arith)
            requires
                scale >= 1,
                pow10(p) >= 1,
        ;
        assert(decimal(d) * scale * 1_000_000_000 >= decimal(d)) by (nonlinear_arith)
            requires
                scale >= 1,
        ;
    }
}

proof fn unit_ends(number: Seq<char>, unit: Seq<char>)
    requires
        number.len() > 0,
        is_digit(number.last()) || is_whitespace(number.last()),
        unit == "ms"@ || unit == "s"@ || unit == "m"@ || unit == "h"@,
    ensures
        stripped_suffix(number + unit, unit) == Some(number),
        unit != "ms"@ ==> stripped_suffix(number + unit, "ms"@) is None,
        unit == "m"@ || unit == "h"@ ==> stripped_suffix(number + unit, "s"@) is None,
        unit == "h"@ ==> stripped_suffix(number + unit, "m"@) is None,
        unit.len() > 0,
        !is_whitespace(unit.last()),
{
    reveal_strlit("ms");
    reveal_strlit("s");
    reveal_strlit("m");
    reveal_strlit("h");
    let t = number + unit;
    let at = t.len() - unit.len();
    assert(t.skip(at) =~= unit);
    assert(t.take(at) =~= number);
    if unit != "ms"@ {
        assert(unit.len() == 1);
        assert(t.skip(t.len() - 2)[0] == number.last());
        assert("ms"@[0] == 'm');
        assert(t.skip(t.len() - 1)[0] == unit[0]);
        assert("s"@[0] == 's' && "m"@[0] == 'm' && "h"@[0] == 'h');
    }
}

/// A whole number lasts that many of its unit: of milliseconds as `ms`, of seconds as `s` or
/// without a unit, of minutes as `m`, of hours as `h`. White space around the text, and between
/// the number and its unit, changes nothing. What no duration holds is none, nor are milliseconds
/// past 64 bits.
pub proof fn whole_numbers_last_that_many_units(
    before: Seq<char>,
    d: Seq<char>,
    gap: Seq<char>,
    after: Seq<char>,
)
    requires
        d.len() > 0,
        all_digits(d),
        all_blank(before),
        all_blank(gap),
        all_blank(after),
    ensures
        duration_text(before + (d + gap + "ms"@) + after) == if decimal(d) <= u64::MAX {
            Some(decimal(d) * 1_000_000)
        } else {
            None
        },
        duration_text(before + (d + gap + "s"@) + after) == held_nanos(decimal(d) * 1_000_000_000),
        duration_text(before + d + after) == held_nanos(decimal(d) * 1_000_000_000),
        duration_text(before + (d + gap + "m"@) + after) == held_nanos(
            decimal(d) * 60 * 1_000_000_000,
        ),
        duration_text(before + (d + gap + "h"@) + after) == held_nanos(
            decimal(d) * 3600 * 1_000_000_000,
        ),
{
    let number = d + gap;
    plain_digits(d);
    bare_between(before, d, after);
    bare_between(Seq::empty(), d, gap);
    assert(Seq::<char>::empty() + d + gap =~= number);
    assert(number[0] == d[0]);
    assert(is_digit(number.last()) || is_whitespace(number.last())) by {
        assert(is_digit(d.last()));
        if gap.len() > 0 {
            assert(number.last() == gap.last());
        } else {
            assert(number.last() == d.last());
        }
    }
    whole_seconds(d, 1);
    whole_seconds(d, 60);
    whole_seconds(d, 3600);
    assert(d[0] != '+') by {
        assert(is_digit(d[0]));
    }
    assert forall|unit: Seq<char>|
        unit == "ms"@ || unit == "s"@ || unit == "m"@ || unit == "h"@ implies bare(
        before + #[trigger] (number + unit) + after,
    ) == number + unit by {
        unit_ends(number, unit);
        assert((number + unit)[0] == d[0]);
        assert((number + unit).last() == unit.last());
        bare_between(before, number + unit, after);
    }
    unit_ends(number, "ms"@);
    unit_ends(number, "s"@);
    unit_ends(number, "m"@);
    unit_ends(number, "h"@);
    reveal_strlit("ms");
    reveal_strlit("s");
    reveal_strlit("m");
    reveal_strlit("h");
    assert("s"@.len() == 1 && "m"@.len() == 1 && "h"@.len() == 1);
    assert(is_digit(d.last()));
    assert(stripped_suffix(d, "ms"@) is None) by {
        if d.len() >= 2 {
            assert(d.skip(d.len() - 2)[1] == d.last());
            assert("ms"@[1] == 's');
        }
    }
    assert(d.skip(d.len() - 1)[0] == d.last());
    assert("s"@[0] == 's' && "m"@[0] == 'm' && "h"@[0] == 'h');
}

proof fn first_behind(a: Seq<char>, c: char, b: Seq<char>, p: spec_fn(char) -> bool)
    requires
        forall|i: int| 0 <= i < a.len() ==> !p(#[trigger] a[i]),
        p(c),
    ensures
        first_at(a + seq![c] + b, p) == Some(a.len() as int),
    decreases a.len(),
{
    let s = a + seq![c] + b;
    if a.len() > 0 {
        let t = a.drop_first();
        assert forall|i: int| 0 <= i < t.len() implies !p(#[trigger] t[i]) by {
            assert(t[i] == a[i + 1]);
        }
        first_behind(t, c, b, p);
        assert(s.drop_first() =~= t + seq![c] + b);
        assert(s[0] == a[0]);
    } else {
        assert(s[0] == c);
    }
}

proof fn first_nowhere(s: Seq<char>, p: spec_fn(char) -> bool)
    requires
        forall|i: int| 0 <= i < s.len() ==> !p(#[trigger] s[i]),
    ensures
        first_at(s, p) is None,
    decreases s.len(),
{
    if s.len() > 0 {
        let t = s.drop_first();
        assert forall|i: int| 0 <= i < t.len() implies !p(#[trigger] t[i]) by {
            assert(t[i] == s[i + 1]);
        }
        first_nowhere(t, p);
    }
}

proof fn pointed_digits(a: Seq<char>, b: Seq<char>)
    requires
        all_digits(a),
        all_digits(b),
        a.len() + b.len() > 0,
    ensures
        mantissa(a + seq!['.'] + b) == Some(
            Decimal { digits: decimal(a + b), exponent: -(b.len() as int) },
        ),
{
    let s = a + seq!['.'] + b;
    let p = |c: char| c == '.';
    assert forall|i: int| 0 <= i < a.len() implies !p(#[trigger] a[i]) by {
        assert(is_digit(a[i]));
    }
    first_behind(a, '.', b, p);
    assert(s.take(a.len() as int) + s.skip(a.len() as int + 1) =~= a + b);
}

/// A number may have digits behind a point, which count for as little as there are of them, and an
/// exponent behind an `e`, which moves the point.
pub proof fn fractions_and_exponents_are_read(a: Seq<char>, b: Seq<char>, x: Seq<char>)
    requires
        all_digits(a),
        all_digits(b),
        a.len() + b.len() > 0,
        all_digits(x),
        x.len() > 0,
    ensures
        unsigned_real(a + seq!['.'] + b) == Some(
            Decimal { digits: decimal(a + b), exponent: -(b.len() as int) },
        ),
        unsigned_real(a + seq!['.'] + b + seq!['e'] + x) == Some(
            Decimal { digits: decimal(a + b), exponent: decimal(x) - b.len() },
        ),
        unsigned_real(a + seq!['.'] + b + seq!['e'] + (seq!['-'] + x)) == Some(
            Decimal { digits: decimal(a + b), exponent: -(decimal(x) as int) - b.len() },
        ),
{
    let m = a + seq!['.'] + b;
    let p = |c: char| c == 'e' || c == 'E';
    pointed_digits(a, b);
    assert forall|i: int| 0 <= i < m.len() implies !p(#[trigger] m[i]) by {
        if i < a.len() {
            assert(is_digit(a[i]));
        } else if i > a.len() {
            assert(is_digit(b[i - a.len() - 1]));
        }
    }
    first_nowhere(m, p);
    first_behind(m, 'e', x, p);
    let s = m + seq!['e'] + x;
    assert(s.take(m.len() as int) =~= m);
    assert(s.skip(m.len() as int + 1) =~= x);
    assert(is_digit(x[0]));
    let y = seq!['-'] + x;
    first_behind(m, 'e', y, p);
    let t = m + seq!['e'] + y;
    assert(t.take(m.len() as int) =~= m);
    assert(t.skip(m.len() as int + 1) =~= y);
    assert(y.drop_first() =~= x);
}

/// A number of units lasts what it says, to the nearest nanosecond.
pub proof fn numbers_last_to_the_nearest_nanosecond(d: Decimal, scale: nat)
    ensures
        ({
            let n = seconds_nanos(d, scale);
            let p = d.exponent + 9;
            &&& p >= 0 ==> n == d.digits * scale * pow10(p as nat)
            &&& p < 0 ==> {
                let t = pow10((-p) as nat);
                2 * (n * t) <= 2 * (d.digits * scale) + t && 2 * (d.digits * scale) <= 2 * (n * t)
                    + t
            }
        }),
        d.digits < PRECISION ==> significant(d) == d,
{
    let p = d.exponent + 9;
    if p < 0 {
        let t = pow10((-p) as nat);
        let v = d.digits * scale;
        pow10_step((-p) as nat);
        near_the_quotient(v, t);
    }
}

proof fn near_the_quotient(v: nat, t: nat)
    requires
        t > 0,
    ensures
        2 * (nearest(v, t) * t) <= 2 * v + t,
        2 * v <= 2 * (nearest(v, t) * t) + t,
{
    let q = v / t;
    let r = v % t;
    vstd::arithmetic::div_mod::lemma_fundamental_div_mod(v as int, t as int);
    assert(t * q == q * t) by (nonlinear_arith);
    assert((q + 1) * t == q * t + t) by (nonlinear_arith);
    assert(r < t);
}

/// A sign says nothing but that a number is below zero, and nothing lasts less than nothing.
pub proof fn nothing_lasts_less_than_nothing(u: Seq<char>, scale: nat)
    requires
        u.len() > 0,
        u[0] != '-' && u[0] != '+',
    ensures
        real_nanos(seq!['+'] + u, scale) == real_nanos(u, scale),
        unsigned_real(u) matches Some(d) ==> (d.digits > 0 ==> real_nanos(seq!['-'] + u, scale)
            is None),
        unsigned_real(u) is None ==> real_nanos(u, scale) is None && real_nanos(
            seq!['-'] + u,
            scale,
        ) is None,
{
    assert((seq!['+'] + u).drop_first() =~= u);
    assert((seq!['-'] + u).drop_first() =~= u);
}

} // verus!
