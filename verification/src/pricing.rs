//! Price reading for the scraper: dollar amounts followed by a unit, such as
//! `$0.0043/min` or `$1.25 per 1M tokens`, within a sanity range. Amounts are
//! decimal numbers, read exactly and rounded to billionths.
use vstd::prelude::*;
use crate::catalog::Nanos;
use crate::text::{digit_val, digits_value, is_digit, is_ws, lower_char, lower_seq, ltrim};

verus! {

/// A character that can belong to an amount: a digit, `.` or `,`.
pub open spec fn amount_char(c: char) -> bool {
    is_digit(c) || c == '.' || c == ','
}

/// The length of the leading run of amount characters.
pub open spec fn amount_len(s: Seq<char>) -> int
    decreases s.len(),
{
    if s.len() > 0 && amount_char(s[0]) {
        1 + amount_len(s.drop_first())
    } else {
        0
    }
}

/// The text without its commas.
pub open spec fn no_commas(s: Seq<char>) -> Seq<char>
    decreases s.len(),
{
    if s.len() == 0 {
        s
    } else if s.last() == ',' {
        no_commas(s.drop_last())
    } else {
        no_commas(s.drop_last()).push(s.last())
    }
}

pub open spec fn dot_count(s: Seq<char>) -> nat
    decreases s.len(),
{
    if s.len() == 0 {
        0
    } else {
        dot_count(s.drop_last()) + if s.last() == '.' {
            1nat
        } else {
            0nat
        }
    }
}

/// The position of the first `.`, or the length when there is none.
pub open spec fn dot_at(s: Seq<char>) -> int
    decreases s.len(),
{
    if s.len() == 0 {
        0
    } else if s[0] == '.' {
        0
    } else {
        1 + dot_at(s.drop_first())
    }
}

pub open spec fn pow10(n: nat) -> nat
    decreases n,
{
    if n == 0 {
        1
    } else {
        10 * pow10((n - 1) as nat)
    }
}

/// The first nine fractional digits as billionths, rounded half up by the
/// tenth.
pub open spec fn fraction_nanos(f: Seq<char>) -> int {
    let head = if f.len() > 9 {
        f.take(9)
    } else {
        f
    };
    let base: int = (digits_value(head) * pow10((9 - head.len()) as nat)) as int;
    if f.len() > 9 && digit_val(f[9]) >= 5 {
        base + 1
    } else {
        base
    }
}

/// The value in billionths of a text of digits with at most one `.` and at
/// least one digit, as `f64` parsing accepts it.
pub open spec fn decimal_nanos(s: Seq<char>) -> Option<int> {
    let d = dot_at(s);
    let int_part = s.take(d);
    let frac = if d < s.len() {
        s.skip(d + 1)
    } else {
        Seq::empty()
    };
    if (forall|i: int| 0 <= i < s.len() ==> is_digit(#[trigger] s[i]) || s[i] == '.') && dot_count(s) <= 1
        && int_part.len() + frac.len() > 0 {
        Some(digits_value(int_part) * 1_000_000_000 + fraction_nanos(frac))
    } else {
        None
    }
}

/// The amount after the `$` at position `p`, when the unit follows it and the
/// amount lies in `[lo, hi]`.
pub open spec fn price_after(s: Seq<char>, p: int, unit_ok: spec_fn(Seq<char>) -> bool, lo: int, hi: int) -> Option<int> {
    let after = s.skip(p + 1);
    let end = amount_len(after);
    let num = no_commas(after.take(end));
    let rest = lower_seq(ltrim(after.skip(end)));
    if unit_ok(rest) {
        match decimal_nanos(num) {
            Some(v) => if lo <= v <= hi {
                Some(v)
            } else {
                None
            },
            None => None,
        }
    } else {
        None
    }
}

/// Every qualifying amount in the first `k` characters' dollar signs, in order.
pub open spec fn prices_upto(s: Seq<char>, k: int, unit_ok: spec_fn(Seq<char>) -> bool, lo: int, hi: int) -> Seq<int>
    decreases k,
{
    if k <= 0 {
        Seq::empty()
    } else {
        let prev = prices_upto(s, k - 1, unit_ok, lo, hi);
        if s[k - 1] == '$' {
            match price_after(s, k - 1, unit_ok, lo, hi) {
                Some(v) => prev.push(v),
                None => prev,
            }
        } else {
            prev
        }
    }
}

/// Every qualifying amount in the text, in order.
pub open spec fn all_prices(s: Seq<char>, unit_ok: spec_fn(Seq<char>) -> bool, lo: int, hi: int) -> Seq<int> {
    prices_upto(s, s.len() as int, unit_ok, lo, hi)
}

/// The lower-cased remainder starts with one of the units.
pub open spec fn any_unit(us: Seq<Seq<char>>) -> spec_fn(Seq<char>) -> bool {
    |rest: Seq<char>| exists|k: int| 0 <= k < us.len() && (#[trigger] us[k]).is_prefix_of(rest)
}

/// The per-million-token unit spellings, in lower case.
pub open spec fn million_units() -> Seq<Seq<char>> {
    seq![
        "/1m"@,
        "/ 1m"@,
        "/mtok"@,
        "/m tok"@,
        "/m token"@,
        "/1m token"@,
        "/1m tokens"@,
        "per 1m"@,
        "per million"@,
        "per 1,000,000"@,
        "/1,000,000"@,
    ]
}


proof fn lemma_digits_push(s: Seq<char>, c: char)
    ensures
        digits_value(s.push(c)) == digits_value(s) * 10 + digit_val(c),
{
    assert(s.push(c).drop_last() =~= s);
}

proof fn lemma_digits_bound(s: Seq<char>)
    requires
        forall|i: int| 0 <= i < s.len() ==> is_digit(#[trigger] s[i]),
    ensures
        digits_value(s) < pow10(s.len()),
    decreases s.len(),
{
    if s.len() > 0 {
        lemma_digits_bound(s.drop_last());
        assert(digit_val(s.last()) <= 9);
        assert(s.drop_last().len() + 1 == s.len());
    }
}

proof fn lemma_pow10_mono(a: nat, b: nat)
    requires
        a <= b,
    ensures
        pow10(a) <= pow10(b),
    decreases b,
{
    if a < b {
        lemma_pow10_mono(a, (b - 1) as nat);
    }
}

proof fn lemma_digits_grow(s: Seq<char>, k: int)
    requires
        0 <= k <= s.len(),
        forall|i: int| 0 <= i < s.len() ==> is_digit(#[trigger] s[i]),
    ensures
        digits_value(s.take(k)) <= digits_value(s),
    decreases s.len() - k,
{
    if k < s.len() {
        lemma_digits_grow(s.drop_last(), k);
        assert(s.drop_last().take(k) =~= s.take(k));
    } else {
        assert(s.take(k) =~= s);
    }
}

proof fn lemma_pow10_nine()
    ensures
        pow10(8) == 100000000,
        pow10(9) == 1000000000,
{
    reveal_with_fuel(pow10, 10);
}

fn pow10_exec(n: u32) -> (r: u64)
    requires
        n <= 9,
    ensures
        r as nat == pow10(n as nat),
    decreases n,
{
    if n == 0 {
        1
    } else {
        let p = pow10_exec(n - 1);
        proof {
            lemma_pow10_mono((n - 1) as nat, 8);
            lemma_pow10_nine();
        }
        10 * p
    }
}

proof fn lemma_pow10_split(a: nat, b: nat)
    ensures
        pow10(a + b) == pow10(a) * pow10(b),
        pow10(b) > 0,
    decreases b,
{
    if b > 0 {
        lemma_pow10_split(a, (b - 1) as nat);
        let c: nat = (b - 1) as nat;
        assert((a + b - 1) as nat == a + c);
        assert(pow10(a + c) == pow10(a) * pow10(c));
        assert(pow10(a + b) == 10 * pow10((a + b - 1) as nat));
        assert(pow10(a + b) == 10 * (pow10(a) * pow10(c)));
        assert(pow10(a) * pow10(b) == pow10(a) * (10 * pow10((b - 1) as nat)));
        assert(pow10(a) * (10 * pow10((b - 1) as nat)) == 10 * (pow10(a) * pow10((b - 1) as nat))) by (nonlinear_arith);
    } else {
        assert(a + b == a);
        assert(pow10(0) == 1);
        assert(pow10(a) * 1 == pow10(a));
    }
}

proof fn lemma_dot_count_mono(s: Seq<char>, k: int)
    requires
        0 <= k <= s.len(),
    ensures
        dot_count(s.take(k)) <= dot_count(s),
    decreases s.len() - k,
{
    if k < s.len() {
        lemma_dot_count_mono(s.drop_last(), k);
        assert(s.drop_last().take(k) =~= s.take(k));
    } else {
        assert(s.take(k) =~= s);
    }
}

/// The amount `num` in billionths, when it is a decimal number in `[lo, hi]`.
pub fn parse_in_range(num: &Vec<char>, lo: i64, hi: i64) -> (r: Option<Nanos>)
    ensures
        match decimal_nanos(num@) {
            Some(v) => if lo <= v <= hi {
                r == Some(v as i64)
            } else {
                r is None
            },
            None => r is None,
        },
{
    let ghost s = num@;
    let mut dots: usize = 0;
    let mut dot: usize = num.len();
    let mut i: usize = 0;
    while i < num.len()
        invariant
            i <= num.len(),
            s == num@,
            dots as nat == dot_count(s.take(i as int)),
            dots <= 1,
            forall|t: int| 0 <= t < i ==> is_digit(#[trigger] s[t]) || s[t] == '.',
            dots == 0 ==> dot == num.len(),
            dots == 0 ==> forall|t: int| 0 <= t < i ==> s[t] != '.',
            dots == 1 ==> dot < i && s[dot as int] == '.' && forall|t: int| 0 <= t < i && t != dot ==> s[t] != '.',
        decreases num.len() - i,
    {
        let c = num[i];
        proof {
            assert(s.take(i + 1).drop_last() =~= s.take(i as int));
        }
        if c == '.' {
            if dots == 1 {
                proof {
                    lemma_dot_count_mono(s, i + 1);
                }
                return None;
            }
            dot = i;
            dots = 1;
        } else if !((c as u32) >= 48 && (c as u32) <= 57) {
            proof {
                assert(!(is_digit(s[i as int]) || s[i as int] == '.'));
            }
            return None;
        }
        i = i + 1;
    }
    proof {
        assert(s.take(s.len() as int) =~= s);
    }
    if num.len() == dots {
        proof {
            if dots == 0 {
                assert(s.take(0).len() == 0);
            } else {
                lemma_dot_at(s, dot as int);
                assert(s.take(0).len() == 0);
                assert(s.skip(1).len() == 0);
            }
        }
        return None;
    }
    proof {
        lemma_dot_at(s, dot as int);
    }
    let ghost int_part = s.take(dot as int);
    let ghost frac = if dot < s.len() { s.skip(dot + 1) } else { Seq::<char>::empty() };
    let cap: u128 = 10_000_000_000;
    let mut acc: u128 = 0;
    let mut k: usize = 0;
    while k < dot
        invariant
            k <= dot <= num.len(),
            s == num@,
            cap == 10_000_000_000,
            int_part == s.take(dot as int),
            forall|t: int| 0 <= t < num.len() ==> is_digit(#[trigger] s[t]) || s[t] == '.',
            forall|t: int| 0 <= t < dot ==> s[t] != '.',
            acc <= cap,
            acc == if digits_value(int_part.take(k as int)) < cap { digits_value(int_part.take(k as int)) } else { cap as nat },
        decreases dot - k,
    {
        proof {
            assert(int_part.take(k + 1) =~= int_part.take(k as int).push(s[k as int]));
            lemma_digits_push(int_part.take(k as int), s[k as int]);
            assert(s[k as int] != '.');
            assert(is_digit(s[k as int]));
        }
        let dv = (num[k] as u32 - 48) as u128;
        let next = acc * 10 + dv;
        acc = if next < cap { next } else { cap };
        k = k + 1;
    }
    proof {
        assert(int_part.take(dot as int) =~= int_part);
    }
    if acc >= cap {
        return None;
    }
    let mut f: u64 = 0;
    let mut fl: u32 = 0;
    let start: usize = if dot < num.len() { dot + 1 } else { num.len() };
    let mut j: usize = start;
    proof {
        assert(frac.take(0) =~= Seq::<char>::empty());
        reveal_with_fuel(pow10, 2);
    }
    while j < num.len() && fl < 9
        invariant
            start <= j <= num.len(),
            dot < num.len() ==> start == dot + 1,
            dot >= num.len() ==> start == num.len(),
            s == num@,
            fl <= 9,
            fl as int == j - start,
            frac == (if dot < s.len() { s.skip(dot + 1) } else { Seq::<char>::empty() }),
            forall|t: int| 0 <= t < num.len() ==> is_digit(#[trigger] s[t]) || s[t] == '.',
            forall|t: int| 0 <= t < num.len() && t != dot ==> s[t] != '.',
            f as nat == digits_value(frac.take(fl as int)),
            f < pow10(fl as nat),
        decreases num.len() - j,
    {
        proof {
            assert(frac[fl as int] == s[j as int]);
            assert(frac.take(fl + 1) =~= frac.take(fl as int).push(s[j as int]));
            lemma_digits_push(frac.take(fl as int), s[j as int]);
            assert(s[j as int] != '.');
            assert(is_digit(s[j as int]));
            lemma_pow10_mono(fl as nat, 8);
            lemma_pow10_nine();
            assert(pow10((fl + 1) as nat) == 10 * pow10(fl as nat));
        }
        let dv = (num[j] as u32 - 48) as u64;
        f = f * 10 + dv;
        fl = fl + 1;
        j = j + 1;
    }
    let ghost head = if frac.len() > 9 { frac.take(9) } else { frac };
    proof {
        if dot < s.len() {
            assert(frac.len() == s.len() - dot - 1);
            if frac.len() > 9 {
                assert(fl == 9);
            } else {
                assert(fl as int == frac.len());
                assert(frac.take(fl as int) =~= frac);
            }
        } else {
            assert(fl == 0);
            assert(frac.take(0) =~= frac);
        }
        assert(head == frac.take(fl as int));
    }
    let scale = pow10_exec(9 - fl);
    proof {
        lemma_pow10_split(fl as nat, (9 - fl) as nat);
        lemma_pow10_nine();
        assert((f as nat) * pow10((9 - fl) as nat) < pow10(fl as nat) * pow10((9 - fl) as nat)) by (nonlinear_arith)
            requires
                f < pow10(fl as nat),
                pow10((9 - fl) as nat) > 0,
        ;
    }
    let mut frac_value: u128 = (f as u128) * (scale as u128);
    if dot < num.len() && num.len() - (dot + 1) > 9 {
        let tenth = num[dot + 10];
        proof {
            assert(frac[9] == s[dot + 10]);
            assert(s[dot + 10] != '.');
            assert(is_digit(s[dot + 10]));
        }
        if (tenth as u32 - 48) >= 5 {
            frac_value = frac_value + 1;
        }
    }
    let total: u128 = acc * 1_000_000_000 + frac_value;
    proof {
        assert(decimal_nanos(s) == Some(total as int));
    }
    if (lo as i128) <= (total as i128) && (total as i128) <= (hi as i128) {
        Some(total as i64)
    } else {
        None
    }
}

proof fn lemma_dot_at(s: Seq<char>, d: int)
    requires
        0 <= d <= s.len(),
        d < s.len() ==> s[d] == '.',
        forall|t: int| 0 <= t < d ==> s[t] != '.',
    ensures
        dot_at(s) == d,
    decreases d,
{
    if d > 0 {
        lemma_dot_at(s.drop_first(), d - 1);
    } else if s.len() == 0 {
    }
}


proof fn lemma_amount_step(s: Seq<char>, a: int)
    requires
        0 <= a < s.len(),
        amount_char(s[a]),
    ensures
        amount_len(s.skip(a)) == 1 + amount_len(s.skip(a + 1)),
{
    assert(s.skip(a).drop_first() =~= s.skip(a + 1));
}

proof fn lemma_ltrim_step(s: Seq<char>, a: int)
    requires
        0 <= a < s.len(),
        is_ws(s[a]),
    ensures
        ltrim(s.skip(a)) == ltrim(s.skip(a + 1)),
{
    assert(s.skip(a).subrange(1, s.skip(a).len() as int) =~= s.skip(a + 1));
}

proof fn lemma_no_commas_push(s: Seq<char>, c: char)
    ensures
        no_commas(s.push(c)) == if c == ',' {
            no_commas(s)
        } else {
            no_commas(s).push(c)
        },
{
    assert(s.push(c).drop_last() =~= s);
}

/// Whether the lower-cased text from position `j` starts with `u`.
fn prefix_at(v: &Vec<char>, j: usize, u: &Vec<char>) -> (r: bool)
    requires
        j <= v.len(),
    ensures
        r == u@.is_prefix_of(lower_seq(v@.skip(j as int))),
{
    if u.len() > v.len() - j {
        return false;
    }
    let mut t: usize = 0;
    while t < u.len()
        invariant
            t <= u.len(),
            j + u.len() <= v.len(),
            forall|x: int| 0 <= x < t ==> u@[x] == lower_char(v@[j + x]),
        decreases u.len() - t,
    {
        if crate::text::lower_ch(v[j + t]) != u[t] {
            proof {
                assert(lower_seq(v@.skip(j as int))[t as int] == lower_char(v@[j + t]));
            }
            return false;
        }
        t = t + 1;
    }
    proof {
        assert forall|x: int| 0 <= x < u@.len() implies u@[x] == lower_seq(v@.skip(j as int))[x] by {
            assert(lower_seq(v@.skip(j as int))[x] == lower_char(v@[j + x]));
        }
    }
    true
}

fn any_prefix_at(v: &Vec<char>, j: usize, us: &Vec<Vec<char>>) -> (r: bool)
    requires
        j <= v.len(),
    ensures
        r == any_unit(us@.map_values(|u: Vec<char>| u@))(lower_seq(v@.skip(j as int))),
{
    let ghost uv = us@.map_values(|u: Vec<char>| u@);
    let mut k: usize = 0;
    while k < us.len()
        invariant
            k <= us.len(),
            j <= v.len(),
            uv == us@.map_values(|u: Vec<char>| u@),
            forall|x: int| 0 <= x < k ==> !uv[x].is_prefix_of(lower_seq(v@.skip(j as int))),
        decreases us.len() - k,
    {
        if prefix_at(v, j, &us[k]) {
            proof {
                assert(uv[k as int] == us@[k as int]@);
            }
            return true;
        }
        proof {
            assert(uv[k as int] == us@[k as int]@);
        }
        k = k + 1;
    }
    false
}

/// The qualifying amount after the `$` at position `p`.
fn price_after_dollar(v: &Vec<char>, p: usize, us: &Vec<Vec<char>>, lo: i64, hi: i64) -> (r: Option<Nanos>)
    requires
        p < v.len(),
    ensures
        match price_after(v@, p as int, any_unit(us@.map_values(|u: Vec<char>| u@)), lo as int, hi as int) {
            Some(x) => r == Some(x as i64),
            None => r is None,
        },
{
    let ghost s = v@;
    let ghost after = s.skip(p + 1);
    let mut end: usize = p + 1;
    let mut num: Vec<char> = Vec::new();
    proof {
        assert(after =~= s.skip(end as int));
        assert(s.subrange(p + 1, end as int) =~= Seq::<char>::empty());
    }
    while end < v.len() && (v[end] == '.' || v[end] == ',' || ((v[end] as u32) >= 48 && (v[end] as u32) <= 57))
        invariant
            p + 1 <= end <= v.len(),
            s == v@,
            after == s.skip(p + 1),
            amount_len(after) == (end - (p + 1)) + amount_len(s.skip(end as int)),
            num@ == no_commas(s.subrange(p + 1, end as int)),
        decreases v.len() - end,
    {
        proof {
            lemma_amount_step(s, end as int);
            assert(s.subrange(p + 1, end + 1) =~= s.subrange(p + 1, end as int).push(s[end as int]));
            lemma_no_commas_push(s.subrange(p + 1, end as int), s[end as int]);
        }
        if v[end] != ',' {
            num.push(v[end]);
        }
        end = end + 1;
    }
    proof {
        if end < v.len() {
            assert(!amount_char(s[end as int]));
            assert(s.skip(end as int)[0] == s[end as int]);
        }
        assert(amount_len(s.skip(end as int)) == 0);
        assert(after.take(end - (p + 1)) =~= s.subrange(p + 1, end as int));
        assert(after.skip(end - (p + 1)) =~= s.skip(end as int));
    }
    let mut j: usize = end;
    while j < v.len() && crate::text::is_whitespace(v[j])
        invariant
            end <= j <= v.len(),
            s == v@,
            ltrim(s.skip(end as int)) == ltrim(s.skip(j as int)),
        decreases v.len() - j,
    {
        proof {
            lemma_ltrim_step(s, j as int);
        }
        j = j + 1;
    }
    proof {
        if j < v.len() {
            assert(s.skip(j as int)[0] == s[j as int]);
        }
        assert(ltrim(s.skip(j as int)) == s.skip(j as int));
    }
    if any_prefix_at(v, j, us) {
        parse_in_range(&num, lo, hi)
    } else {
        None
    }
}

/// Every amount in the text followed by one of the units `us` (lower case)
/// and within `[lo, hi]`, in order.
pub fn unit_prices(s: &str, us: &Vec<Vec<char>>, lo: i64, hi: i64) -> (r: Vec<Nanos>)
    ensures
        r@.map_values(|x: Nanos| x as int) == all_prices(s@, any_unit(us@.map_values(|u: Vec<char>| u@)), lo as int, hi as int),
{
    let v = crate::text::to_chars(s);
    let ghost unit_ok = any_unit(us@.map_values(|u: Vec<char>| u@));
    let mut out: Vec<Nanos> = Vec::new();
    let mut i: usize = 0;
    while i < v.len()
        invariant
            i <= v.len(),
            v@ == s@,
            unit_ok == any_unit(us@.map_values(|u: Vec<char>| u@)),
            out@.map_values(|x: Nanos| x as int) == prices_upto(v@, i as int, unit_ok, lo as int, hi as int),
        decreases v.len() - i,
    {
        if v[i] == '$' {
            match price_after_dollar(&v, i, us, lo, hi) {
                Some(x) => {
                    let ghost before = out@;
                    out.push(x);
                    proof {
                        assert(out@.map_values(|x: Nanos| x as int) =~= before.map_values(|x: Nanos| x as int).push(x as int));
                    }
                },
                None => {},
            }
        }
        i = i + 1;
    }
    out
}

fn lower_chars(s: &str) -> (r: Vec<char>)
    ensures
        r@ == lower_seq(s@),
{
    let l = crate::text::lower(s);
    crate::text::to_chars(l.as_str())
}

/// Every amount followed by `unit` (in any ASCII case, after optional
/// whitespace) and within `[lo, hi]`, in order.
pub fn all_unit_prices(s: &str, unit: &str, lo: Nanos, hi: Nanos) -> (r: Vec<Nanos>)
    ensures
        r@.map_values(|x: Nanos| x as int) == all_prices(s@, any_unit(seq![lower_seq(unit@)]), lo as int, hi as int),
{
    let mut us: Vec<Vec<char>> = Vec::new();
    us.push(lower_chars(unit));
    proof {
        assert(us@.map_values(|u: Vec<char>| u@) =~= seq![lower_seq(unit@)]);
    }
    unit_prices(s, &us, lo, hi)
}

/// The first amount followed by `unit` and within `[lo, hi]`.
pub fn first_unit_price(s: &str, unit: &str, lo: Nanos, hi: Nanos) -> (r: Option<Nanos>)
    ensures
        ({
            let all = all_prices(s@, any_unit(seq![lower_seq(unit@)]), lo as int, hi as int);
            if all.len() == 0 {
                r is None
            } else {
                r matches Some(x) && x as int == all[0]
            }
        }),
{
    let all = all_unit_prices(s, unit, lo, hi);
    if all.len() == 0 {
        None
    } else {
        proof {
            assert(all@.map_values(|x: Nanos| x as int)[0] == all@[0] as int);
        }
        Some(all[0])
    }
}

fn units_list() -> (r: Vec<Vec<char>>)
    ensures
        r@.map_values(|u: Vec<char>| u@) == million_units(),
{
    let names = ["/1m", "/ 1m", "/mtok", "/m tok", "/m token", "/1m token", "/1m tokens", "per 1m", "per million", "per 1,000,000", "/1,000,000"];
    let mut r: Vec<Vec<char>> = Vec::new();
    let mut i: usize = 0;
    while i < 11
        invariant
            i <= 11,
            names@.len() == 11,
            r@.map_values(|u: Vec<char>| u@) == names@.take(i as int).map_values(|n: &str| n@),
        decreases 11 - i,
    {
        let ghost before = r@;
        let u = crate::text::to_chars(names[i]);
        r.push(u);
        proof {
            assert(r@.map_values(|u: Vec<char>| u@) =~= before.map_values(|u: Vec<char>| u@).push(u@));
            assert(names@.take(i + 1).map_values(|n: &str| n@) =~= names@.take(i as int).map_values(|n: &str| n@).push(names@[i as int]@));
        }
        i = i + 1;
    }
    proof {
        assert(names@.take(11) =~= names@);
        assert(names@.map_values(|n: &str| n@) =~= million_units());
    }
    r
}

/// The first amount followed by a per-million-token unit and within
/// `[lo, hi]`.
pub fn first_per_million_token_price(s: &str, lo: Nanos, hi: Nanos) -> (r: Option<Nanos>)
    ensures
        ({
            let all = all_prices(s@, any_unit(million_units()), lo as int, hi as int);
            if all.len() == 0 {
                r is None
            } else {
                r matches Some(x) && x as int == all[0]
            }
        }),
{
    let us = units_list();
    let all = unit_prices(s, &us, lo, hi);
    if all.len() == 0 {
        None
    } else {
        proof {
            assert(all@.map_values(|x: Nanos| x as int)[0] == all@[0] as int);
        }
        Some(all[0])
    }
}

} // verus!
