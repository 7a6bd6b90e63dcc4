//! Fixed-point decimal numbers.
//!
//! Every numeric setting (allocation percentages, rebalance threshold,
//! minimum cash inflow) is carried as an unsigned count of *billionths* of a
//! unit, so a value keeps nine decimal digits of fraction exactly.  This
//! module holds the digit-level machinery: the value of a run of decimal
//! digit characters, and the digit sequences that render a value back as
//! text.

use vstd::prelude::*;

verus! {

/// Billionths in one whole unit: scaled values carry nine fraction digits.
pub const SCALE: u64 = 1_000_000_000;

/// Number of fraction digits a scaled value carries.
pub const FRAC_DIGITS: u64 = 9;

/// One hundred whole units (one hundred percent), scaled.
pub const HUNDRED: u64 = 100_000_000_000;

pub open spec fn is_digit(c: char) -> bool {
    '0' as u32 <= c as u32 && c as u32 <= '9' as u32
}

pub open spec fn digit_val(c: char) -> nat
    recommends
        is_digit(c),
{
    (c as u32 - '0' as u32) as nat
}

pub open spec fn digit_char(d: nat) -> char
    recommends
        d < 10,
{
    (('0' as u32 + d) as u32) as char
}

/// Value of the run of digit characters `s[from..to)`.
pub open spec fn digits_val_range(s: Seq<char>, from: int, to: int) -> nat
    decreases to - from,
{
    if from < to {
        digits_val_range(s, from, to - 1) * 10 + digit_val(s[to - 1])
    } else {
        0
    }
}

/// Value of a whole sequence of digit characters.
pub open spec fn digits_val(s: Seq<char>) -> nat {
    digits_val_range(s, 0, s.len() as int)
}

pub open spec fn all_digits_range(s: Seq<char>, from: int, to: int) -> bool {
    forall|i: int| from <= i < to ==> is_digit(#[trigger] s[i])
}

pub open spec fn all_digits(s: Seq<char>) -> bool {
    all_digits_range(s, 0, s.len() as int)
}

/// First position at or after `pos` that is past the end of `s` or does not
/// hold a decimal digit.
pub open spec fn digit_run_end(s: Seq<char>, pos: int) -> int
    decreases s.len() - pos,
{
    if 0 <= pos < s.len() && is_digit(s[pos]) {
        digit_run_end(s, pos + 1)
    } else {
        pos
    }
}

pub proof fn lemma_digit_run_end(s: Seq<char>, pos: int)
    requires
        0 <= pos <= s.len(),
    ensures
        pos <= digit_run_end(s, pos) <= s.len(),
        all_digits_range(s, pos, digit_run_end(s, pos)),
        digit_run_end(s, pos) == s.len() || !is_digit(s[digit_run_end(s, pos)]),
    decreases s.len() - pos,
{
    if pos < s.len() && is_digit(s[pos]) {
        lemma_digit_run_end(s, pos + 1);
    }
}

/// The digit run that covers exactly the digits `[pos, to)` ends at `to`.
pub proof fn lemma_digit_run_exact(s: Seq<char>, pos: int, to: int)
    requires
        0 <= pos <= to <= s.len(),
        all_digits_range(s, pos, to),
        to == s.len() || !is_digit(s[to]),
    ensures
        digit_run_end(s, pos) == to,
    decreases to - pos,
{
    if pos < to {
        lemma_digit_run_exact(s, pos + 1, to);
    }
}

/// A digit run copied to position `pos` of `s` keeps its value.
pub proof fn lemma_digits_val_at(s: Seq<char>, pos: int, d: Seq<char>)
    requires
        0 <= pos,
        pos + d.len() <= s.len(),
        forall|i: int| 0 <= i < d.len() ==> s[pos + i] == #[trigger] d[i],
    ensures
        digits_val_range(s, pos, pos + d.len()) == digits_val(d),
    decreases d.len(),
{
    if d.len() > 0 {
        let dd = d.drop_last();
        lemma_digits_val_at(s, pos, dd);
        lemma_digits_val_range_agree(d, dd, 0, dd.len() as int);
        assert(s[pos + d.len() - 1] == d.last());
    }
}

/// Powers of ten.
pub open spec fn pow10(n: nat) -> nat
    decreases n,
{
    if n == 0 {
        1
    } else {
        10 * pow10((n - 1) as nat)
    }
}

pub proof fn lemma_pow10_pos(n: nat)
    ensures
        pow10(n) >= 1,
    decreases n,
{
    if n > 0 {
        lemma_pow10_pos((n - 1) as nat);
    }
}

/// The minimal decimal rendering of `n`: no leading zeros, and `0` for zero.
pub open spec fn dec_digits(n: nat) -> Seq<char>
    decreases n,
{
    if n < 10 {
        seq![digit_char(n)]
    } else {
        dec_digits(n / 10).push(digit_char(n % 10))
    }
}

/// The `width`-digit rendering of `n`, padded with leading zeros.
pub open spec fn padded_digits(n: nat, width: nat) -> Seq<char>
    recommends
        n < pow10(width),
    decreases width,
{
    if width == 0 {
        Seq::empty()
    } else {
        padded_digits(n / 10, (width - 1) as nat).push(digit_char(n % 10))
    }
}

/// `s` with every trailing `'0'` removed.
pub open spec fn trim_zeros(s: Seq<char>) -> Seq<char>
    decreases s.len(),
{
    if s.len() > 0 && s.last() == '0' {
        trim_zeros(s.drop_last())
    } else {
        s
    }
}

pub proof fn lemma_digit_char_val(d: nat)
    requires
        d < 10,
    ensures
        is_digit(digit_char(d)),
        digit_val(digit_char(d)) == d,
{
}

pub proof fn lemma_dec_digits(n: nat)
    ensures
        dec_digits(n).len() >= 1,
        all_digits(dec_digits(n)),
        digits_val(dec_digits(n)) == n,
        n >= 1 ==> dec_digits(n)[0] != '0',
    decreases n,
{
    if n < 10 {
        lemma_digit_char_val(n);
        let s = dec_digits(n);
        assert(s == seq![digit_char(n)]);
        assert(s[0] == digit_char(n));
        assert(digits_val_range(s, 0, 0) == 0);
        assert(digits_val_range(s, 0, 1) == digits_val_range(s, 0, 0) * 10 + digit_val(s[0]));
    } else {
        lemma_dec_digits(n / 10);
        lemma_digit_char_val(n % 10);
        let d = dec_digits(n / 10);
        let w = dec_digits(n);
        assert(w == d.push(digit_char(n % 10)));
        assert forall|i: int| 0 <= i < w.len() implies is_digit(#[trigger] w[i]) by {
            if i < d.len() {
                assert(w[i] == d[i]);
            }
        }
        lemma_digits_val_range_push(w, d);
        assert(w[0] == d[0]);
    }
}

/// If `w` extends the digit run `d` by one digit, the value gains a digit.
proof fn lemma_digits_val_range_push(w: Seq<char>, d: Seq<char>)
    requires
        w.len() == d.len() + 1,
        forall|i: int| 0 <= i < d.len() ==> w[i] == d[i],
    ensures
        digits_val_range(w, 0, w.len() as int) == digits_val_range(d, 0, d.len() as int) * 10
            + digit_val(w.last()),
{
    lemma_digits_val_range_agree(w, d, 0, d.len() as int);
}

/// Two sequences that agree on `[from, to)` give the same run value there.
pub proof fn lemma_digits_val_range_agree(a: Seq<char>, b: Seq<char>, from: int, to: int)
    requires
        forall|i: int| from <= i < to ==> a[i] == b[i],
    ensures
        digits_val_range(a, from, to) == digits_val_range(b, from, to),
    decreases to - from,
{
    if from < to {
        lemma_digits_val_range_agree(a, b, from, to - 1);
    }
}

pub proof fn lemma_padded_digits(n: nat, width: nat)
    requires
        n < pow10(width),
    ensures
        padded_digits(n, width).len() == width,
        all_digits(padded_digits(n, width)),
        digits_val(padded_digits(n, width)) == n,
    decreases width,
{
    if width > 0 {
        lemma_pow10_pos((width - 1) as nat);
        assert(n / 10 < pow10((width - 1) as nat)) by {
            if n / 10 >= pow10((width - 1) as nat) {
                assert(n >= 10 * pow10((width - 1) as nat));
            }
        }
        lemma_padded_digits(n / 10, (width - 1) as nat);
        lemma_digit_char_val(n % 10);
        let d = padded_digits(n / 10, (width - 1) as nat);
        let w = padded_digits(n, width);
        assert(w == d.push(digit_char(n % 10)));
        assert forall|i: int| 0 <= i < w.len() implies is_digit(#[trigger] w[i]) by {
            if i < d.len() {
                assert(w[i] == d[i]);
            }
        }
        lemma_digits_val_range_push(w, d);
    }
}

/// Trimming trailing zeros keeps every digit and divides the value by the
/// power of ten it removed.
pub proof fn lemma_trim_zeros(s: Seq<char>)
    requires
        all_digits(s),
    ensures
        trim_zeros(s).len() <= s.len(),
        all_digits(trim_zeros(s)),
        trim_zeros(s) == s.subrange(0, trim_zeros(s).len() as int),
        digits_val(trim_zeros(s)) * pow10((s.len() - trim_zeros(s).len()) as nat) == digits_val(s),
        trim_zeros(s).len() > 0 ==> trim_zeros(s).last() != '0',
    decreases s.len(),
{
    if s.len() > 0 && s.last() == '0' {
        let d = s.drop_last();
        assert(all_digits(d)) by {
            assert(forall|i: int| 0 <= i < d.len() ==> d[i] == s[i]);
        }
        lemma_trim_zeros(d);
        let t = trim_zeros(s);
        assert(t == trim_zeros(d));
        assert(t == d.subrange(0, t.len() as int));
        assert(t =~= s.subrange(0, t.len() as int));
        lemma_digits_val_range_agree(s, d, 0, d.len() as int);
        let n = s.len() as int;
        assert(digits_val_range(s, 0, n) == digits_val_range(s, 0, n - 1) * 10 + digit_val(
            s[n - 1],
        ));
        assert(digit_val('0') == 0);
        assert(digits_val(s) == digits_val(d) * 10);
        let k = (d.len() - t.len()) as nat;
        assert(digits_val(t) * pow10(k) == digits_val(d));
        assert(pow10(k + 1) == 10 * pow10(k));
        assert(digits_val(t) * (10 * pow10(k)) == (digits_val(t) * pow10(k)) * 10)
            by (nonlinear_arith);
        assert(digits_val(t) * pow10(k + 1) == digits_val(s));
        assert((s.len() - t.len()) as nat == k + 1);
        assert(digits_val(t) * pow10((s.len() - t.len()) as nat) == digits_val(s));
    } else {
        assert(trim_zeros(s) == s);
        assert(trim_zeros(s) =~= s.subrange(0, s.len() as int));
        assert(pow10((s.len() - trim_zeros(s).len()) as nat) == 1);
        assert(digits_val(trim_zeros(s)) * 1 == digits_val(s));
    }
}

pub proof fn lemma_pow10_frac_digits()
    ensures
        pow10(0) == 1,
        pow10(1) == 10,
        pow10(2) == 100,
        pow10(3) == 1000,
        pow10(4) == 10_000,
        pow10(5) == 100_000,
        pow10(6) == 1_000_000,
        pow10(7) == 10_000_000,
        pow10(8) == 100_000_000,
        pow10(9) == SCALE,
{
    assert(pow10(0) == 1);
    assert(pow10(1) == 10);
    assert(pow10(2) == 100);
    assert(pow10(3) == 1000);
    assert(pow10(4) == 10_000);
    assert(pow10(5) == 100_000);
    assert(pow10(6) == 1_000_000);
    assert(pow10(7) == 10_000_000);
    assert(pow10(8) == 100_000_000);
    assert(pow10(9) == 1_000_000_000);
}

/// A longer digit run never has a smaller value.
pub proof fn lemma_digits_val_range_mono(s: Seq<char>, from: int, mid: int, to: int)
    requires
        from <= mid <= to,
    ensures
        digits_val_range(s, from, to) >= digits_val_range(s, from, mid),
    decreases to - mid,
{
    if mid < to {
        lemma_digits_val_range_mono(s, from, mid, to - 1);
    }
}

/// A digit run's value is bounded by the power of ten of its width.
pub proof fn lemma_digits_val_range_bound(s: Seq<char>, from: int, to: int)
    requires
        from <= to,
        all_digits_range(s, from, to),
    ensures
        digits_val_range(s, from, to) < pow10((to - from) as nat),
    decreases to - from,
{
    if from < to {
        lemma_digits_val_range_bound(s, from, to - 1);
        let p = pow10((to - 1 - from) as nat);
        assert(pow10((to - from) as nat) == 10 * p);
        assert(digits_val_range(s, from, to - 1) <= p - 1);
        assert(digits_val_range(s, from, to - 1) * 10 <= (p - 1) * 10);
        assert(is_digit(s[to - 1]));
        assert(digit_val(s[to - 1]) <= 9);
    }
}

/// The fraction digits of a scaled value as written in the config file:
/// trailing zeros trimmed, but never empty.
pub open spec fn format_frac(v: u64) -> Seq<char> {
    let t = trim_zeros(padded_digits((v % SCALE) as nat, 9));
    if t.len() == 0 {
        seq!['0']
    } else {
        t
    }
}

/// A scaled value as the config file writes it: integer part, a dot, and at
/// least one fraction digit.
pub open spec fn format_scaled(v: u64) -> Seq<char> {
    dec_digits((v / SCALE) as nat) + seq!['.'] + format_frac(v)
}

/// A scaled value in its shortest form: the dot and fraction are dropped
/// when the value is whole.
pub open spec fn format_scaled_min(v: u64) -> Seq<char> {
    if v % SCALE == 0 {
        dec_digits((v / SCALE) as nat)
    } else {
        dec_digits((v / SCALE) as nat) + seq!['.'] + trim_zeros(
            padded_digits((v % SCALE) as nat, 9),
        )
    }
}

/// The fraction digits of a scaled value: one to nine digits whose value,
/// scaled back up, is exactly the fraction part.
pub proof fn lemma_format_frac(v: u64)
    ensures
        all_digits(format_frac(v)),
        1 <= format_frac(v).len() <= 9,
        digits_val(format_frac(v)) * pow10((9 - format_frac(v).len()) as nat) == v % SCALE,
{
    lemma_pow10_frac_digits();
    let p = padded_digits((v % SCALE) as nat, 9);
    lemma_padded_digits((v % SCALE) as nat, 9);
    lemma_trim_zeros(p);
    let t = trim_zeros(p);
    if t.len() == 0 {
        assert(digits_val(t) == 0);
        assert(digits_val(t) * pow10(9) == 0);
        assert(v % SCALE == 0);
        let f = format_frac(v);
        assert(f == seq!['0']);
        assert(f[0] == '0');
        lemma_digit_char_val(0);
        assert(is_digit('0') && digit_val('0') == 0);
        assert(digits_val_range(f, 0, 1) == digits_val_range(f, 0, 0) * 10 + digit_val(f[0]));
        assert(digits_val(f) == 0);
        assert(digits_val(f) * pow10(8) == 0);
    } else {
        assert(format_frac(v) == t);
    }
}

/// The rendered form of a scaled value: minimal integer digits, a dot, and
/// one to nine fraction digits.
pub proof fn lemma_format_scaled(v: u64)
    ensures
        ({
            let a = dec_digits((v / SCALE) as nat);
            let b = format_frac(v);
            &&& format_scaled(v) == a + seq!['.'] + b
            &&& format_scaled(v).len() == a.len() + 1 + b.len()
            &&& forall|i: int|
                0 <= i < a.len() ==> #[trigger] format_scaled(v)[i] == a[i] && is_digit(
                    format_scaled(v)[i],
                )
            &&& format_scaled(v)[a.len() as int] == '.'
            &&& forall|i: int|
                0 <= i < b.len() ==> #[trigger] format_scaled(v)[a.len() + 1 + i] == b[i]
                    && is_digit(format_scaled(v)[a.len() + 1 + i])
        }),
{
    let a = dec_digits((v / SCALE) as nat);
    let b = format_frac(v);
    lemma_dec_digits((v / SCALE) as nat);
    lemma_format_frac(v);
    let f = format_scaled(v);
    assert(f == a + seq!['.'] + b);
    assert forall|i: int| 0 <= i < a.len() implies #[trigger] f[i] == a[i] && is_digit(f[i]) by {
        assert(a[i] == (a + seq!['.'])[i]);
    }
    assert(f[a.len() as int] == '.');
    assert forall|i: int| 0 <= i < b.len() implies #[trigger] f[a.len() + 1 + i] == b[i]
        && is_digit(f[a.len() + 1 + i]) by {
        assert(f[a.len() + 1 + i] == b[i]);
    }
}

/// A scaled value rounded to tenths, in whole tenths: rounding is half-up.
pub open spec fn tenths_of(v: nat) -> nat {
    (v + 50_000_000) / 100_000_000
}

/// A scaled value rounded and written with exactly one fraction digit.
pub open spec fn format_one_decimal(v: nat) -> Seq<char> {
    dec_digits(tenths_of(v) / 10) + seq!['.'] + seq![digit_char(tenths_of(v) % 10)]
}

fn digit_to_u64(c: char) -> (d: u64)
    requires
        is_digit(c),
    ensures
        d == digit_val(c),
{
    (c as u32 - '0' as u32) as u64
}

fn is_digit_exec(c: char) -> (r: bool)
    ensures
        r == is_digit(c),
{
    c >= '0' && c <= '9'
}

fn digit_to_char(d: u64) -> (c: char)
    requires
        d < 10,
    ensures
        c == digit_char(d as nat),
{
    match d {
        0 => '0',
        1 => '1',
        2 => '2',
        3 => '3',
        4 => '4',
        5 => '5',
        6 => '6',
        7 => '7',
        8 => '8',
        _ => '9',
    }
}

/// Appends the minimal decimal rendering of `v` to `out`.
pub fn push_dec_digits(v: u64, out: &mut Vec<char>)
    ensures
        final(out)@ == old(out)@ + dec_digits(v as nat),
    decreases v,
{
    if v < 10 {
        out.push(digit_to_char(v));
    } else {
        push_dec_digits(v / 10, out);
        out.push(digit_to_char(v % 10));
        proof {
            assert(out@ =~= old(out)@ + dec_digits(v as nat));
        }
    }
}

/// Appends the `width`-digit zero-padded rendering of `v` to `out`.
pub fn push_padded_digits(v: u64, width: u64, out: &mut Vec<char>)
    requires
        v < pow10(width as nat),
    ensures
        final(out)@ == old(out)@ + padded_digits(v as nat, width as nat),
    decreases width,
{
    if width > 0 {
        proof {
            lemma_pow10_pos((width - 1) as nat);
            if v / 10 >= pow10((width - 1) as nat) {
                assert(v >= 10 * pow10((width - 1) as nat));
            }
        }
        push_padded_digits(v / 10, width - 1, out);
        out.push(digit_to_char(v % 10));
        proof {
            assert(out@ =~= old(out)@ + padded_digits(v as nat, width as nat));
        }
    } else {
        proof {
            assert(out@ =~= old(out)@ + padded_digits(v as nat, 0));
        }
    }
}

/// Appends the trimmed fraction digits of `v` to `out`.
fn push_frac(v: u64, out: &mut Vec<char>)
    ensures
        final(out)@ == old(out)@ + format_frac(v),
{
    proof {
        lemma_pow10_frac_digits();
    }
    let mut tmp: Vec<char> = Vec::new();
    push_padded_digits(v % SCALE, FRAC_DIGITS, &mut tmp);
    proof {
        lemma_padded_digits((v % SCALE) as nat, 9);
        assert(tmp@ == padded_digits((v % SCALE) as nat, 9));
    }
    let ghost full = tmp@;
    while tmp.len() > 0 && tmp[tmp.len() - 1] == '0'
        invariant
            trim_zeros(tmp@) == trim_zeros(full),
        decreases tmp.len(),
    {
        let ghost before = tmp@;
        tmp.pop();
        proof {
            assert(tmp@ == before.drop_last());
            assert(trim_zeros(before) == trim_zeros(before.drop_last()));
        }
    }
    proof {
        assert(trim_zeros(tmp@) == tmp@);
    }
    if tmp.len() == 0 {
        out.push('0');
        proof {
            assert(out@ =~= old(out)@ + format_frac(v));
        }
    } else {
        out.append(&mut tmp);
        proof {
            assert(out@ =~= old(out)@ + format_frac(v));
        }
    }
}

/// Appends `format_scaled(v)` to `out`.
pub fn push_scaled(v: u64, out: &mut Vec<char>)
    ensures
        final(out)@ == old(out)@ + format_scaled(v),
{
    push_dec_digits(v / SCALE, out);
    out.push('.');
    push_frac(v, out);
    proof {
        assert(out@ =~= old(out)@ + format_scaled(v));
    }
}

/// Appends `format_scaled_min(v)` to `out`.
pub fn push_scaled_min(v: u64, out: &mut Vec<char>)
    ensures
        final(out)@ == old(out)@ + format_scaled_min(v),
{
    push_dec_digits(v / SCALE, out);
    if v % SCALE != 0 {
        out.push('.');
        proof {
            lemma_pow10_frac_digits();
            lemma_padded_digits((v % SCALE) as nat, 9);
            lemma_trim_zeros(padded_digits((v % SCALE) as nat, 9));
            if trim_zeros(padded_digits((v % SCALE) as nat, 9)).len() == 0 {
                assert(digits_val(trim_zeros(padded_digits((v % SCALE) as nat, 9))) == 0);
                assert(pow10(9) * 0 == 0);
            }
        }
        push_frac(v, out);
        proof {
            assert(format_frac(v) == trim_zeros(padded_digits((v % SCALE) as nat, 9)));
            assert(out@ =~= old(out)@ + format_scaled_min(v));
        }
    } else {
        proof {
            assert(out@ =~= old(out)@ + format_scaled_min(v));
        }
    }
}

/// Appends `format_one_decimal(v)` to `out`.  `v` is a scaled value that may
/// exceed the `u64` range, as the derived cash display can.
pub fn push_one_decimal(v: u128, out: &mut Vec<char>)
    requires
        v <= 0xffff_ffff_ffff_ffff_ffff,
    ensures
        final(out)@ == old(out)@ + format_one_decimal(v as nat),
{
    let tenths: u128 = (v + 50_000_000) / 100_000_000;
    let whole: u64 = (tenths / 10) as u64;
    let tenth: u64 = (tenths % 10) as u64;
    push_dec_digits(whole, out);
    out.push('.');
    out.push(digit_to_char(tenth));
    proof {
        assert(out@ =~= old(out)@ + format_one_decimal(v as nat));
    }
}

/// Finds the end of the run of digits that starts at `pos`.
pub fn scan_digits(s: &Vec<char>, pos: usize) -> (end: usize)
    requires
        pos <= s@.len(),
    ensures
        end == digit_run_end(s@, pos as int),
        pos <= end <= s@.len(),
        all_digits_range(s@, pos as int, end as int),
        end == s@.len() || !is_digit(s@[end as int]),
{
    let mut i: usize = pos;
    while i < s.len() && is_digit_exec(s[i])
        invariant
            pos <= i <= s@.len(),
            digit_run_end(s@, pos as int) == digit_run_end(s@, i as int),
        decreases s@.len() - i,
    {
        i = i + 1;
    }
    proof {
        assert(digit_run_end(s@, i as int) == i);
        lemma_digit_run_end(s@, pos as int);
    }
    i
}

/// Value of the digit run `s[from..to)`, or `None` when it does not fit in
/// a `u64`.
pub fn digits_value_range(s: &Vec<char>, from: usize, to: usize) -> (r: Option<u64>)
    requires
        from <= to <= s@.len(),
        all_digits_range(s@, from as int, to as int),
    ensures
        match r {
            Some(v) => v == digits_val_range(s@, from as int, to as int),
            None => digits_val_range(s@, from as int, to as int) > u64::MAX,
        },
{
    let mut acc: u64 = 0;
    let mut i: usize = from;
    while i < to
        invariant
            from <= i <= to <= s@.len(),
            all_digits_range(s@, from as int, to as int),
            acc == digits_val_range(s@, from as int, i as int),
        decreases to - i,
    {
        let d = digit_to_u64(s[i]);
        let wide: u128 = acc as u128 * 10 + d as u128;
        if wide > u64::MAX as u128 {
            proof {
                lemma_digits_val_range_mono(s@, from as int, i as int + 1, to as int);
            }
            return None;
        }
        acc = wide as u64;
        i = i + 1;
    }
    Some(acc)
}

fn pow10_u64(e: u64) -> (r: u64)
    requires
        e <= 9,
    ensures
        r == pow10(e as nat),
{
    proof {
        lemma_pow10_frac_digits();
    }
    match e {
        0 => 1,
        1 => 10,
        2 => 100,
        3 => 1_000,
        4 => 10_000,
        5 => 100_000,
        6 => 1_000_000,
        7 => 10_000_000,
        8 => 100_000_000,
        _ => 1_000_000_000,
    }
}

/// The scaled value written with integer digits of value `ip` and fraction
/// digits of value `fv` over `flen` places.
pub open spec fn scaled_of(ip: nat, fv: nat, flen: nat) -> nat
    recommends
        flen <= 9,
{
    ip * (SCALE as nat) + fv * pow10((9 - flen) as nat)
}

/// Combines the integer digit run `s[istart..iend)` and the fraction digit
/// run `s[fstart..fend)` into a scaled value, or `None` when the value does
/// not fit in a `u64`.
pub fn combine_scaled(s: &Vec<char>, istart: usize, iend: usize, fstart: usize, fend: usize) -> (r:
    Option<u64>)
    requires
        istart <= iend <= s@.len(),
        fstart <= fend <= s@.len(),
        fend - fstart <= 9,
        all_digits_range(s@, istart as int, iend as int),
        all_digits_range(s@, fstart as int, fend as int),
    ensures
        ({
            let v = scaled_of(
                digits_val_range(s@, istart as int, iend as int),
                digits_val_range(s@, fstart as int, fend as int),
                (fend - fstart) as nat,
            );
            match r {
                Some(u) => u == v,
                None => v > u64::MAX,
            }
        }),
{
    proof {
        lemma_pow10_frac_digits();
    }
    let flen: u64 = (fend - fstart) as u64;
    let fv = match digits_value_range(s, fstart, fend) {
        Some(fv) => fv,
        None => {
            proof {
                lemma_digits_val_range_bound(s@, fstart as int, fend as int);
                lemma_pow10_le(((fend - fstart) as nat), 9);
            }
            // unreachable: at most nine fraction digits always fit
            return None;
        },
    };
    proof {
        lemma_digits_val_range_bound(s@, fstart as int, fend as int);
        lemma_scaled_frac_bound(
            digits_val_range(s@, fstart as int, fend as int),
            (fend - fstart) as nat,
        );
    }
    let scaled_frac: u64 = fv * pow10_u64(9 - flen);
    match digits_value_range(s, istart, iend) {
        Some(ip) => {
            let wide: u128 = ip as u128 * (SCALE as u128) + scaled_frac as u128;
            if wide > u64::MAX as u128 {
                None
            } else {
                Some(wide as u64)
            }
        },
        None => {
            proof {
                let ipv = digits_val_range(s@, istart as int, iend as int);
                assert(ipv > u64::MAX);
                assert(ipv * (SCALE as nat) >= ipv * 1) by (nonlinear_arith)
                    requires
                        ipv >= 0,
                ;
            }
            None
        },
    }
}

proof fn lemma_pow10_le(a: nat, b: nat)
    requires
        a <= b,
    ensures
        pow10(a) <= pow10(b),
    decreases b,
{
    if a < b {
        lemma_pow10_le(a, (b - 1) as nat);
        lemma_pow10_pos((b - 1) as nat);
    }
}

/// Fraction digits scale to strictly less than one whole unit.
proof fn lemma_scaled_frac_bound(fv: nat, flen: nat)
    requires
        flen <= 9,
        fv < pow10(flen),
    ensures
        fv * pow10((9 - flen) as nat) < SCALE,
{
    lemma_pow10_frac_digits();
    let rest = (9 - flen) as nat;
    assert(fv * pow10(rest) <= (pow10(flen) - 1) * pow10(rest)) by (nonlinear_arith)
        requires
            fv <= pow10(flen) - 1,
            pow10(rest) >= 0,
    ;
    assert(pow10(flen) * pow10(rest) == pow10(9)) by {
        lemma_pow10_mul(flen, rest);
    }
    assert((pow10(flen) - 1) * pow10(rest) == pow10(flen) * pow10(rest) - pow10(rest))
        by (nonlinear_arith);
    lemma_pow10_pos(rest);
}

proof fn lemma_pow10_mul(a: nat, b: nat)
    ensures
        pow10(a) * pow10(b) == pow10((a + b) as nat),
    decreases a,
{
    if a == 0 {
        assert(pow10(0) == 1);
    } else {
        lemma_pow10_mul((a - 1) as nat, b);
        assert(pow10(a) == 10 * pow10((a - 1) as nat));
        assert((10 * pow10((a - 1) as nat)) * pow10(b) == 10 * (pow10((a - 1) as nat) * pow10(b)))
            by (nonlinear_arith);
        assert(pow10((a + b) as nat) == 10 * pow10((a + b - 1) as nat));
    }
}

/// The grammar of a numeric editor field: an optional sign, then decimal
/// digits with at most one dot and at most nine fraction digits; at least
/// one digit must be present, and the value must fit in a scaled `u64`.
/// The result carries the sign and the scaled magnitude.
pub open spec fn spec_parse_field(s: Seq<char>) -> Option<(bool, u64)> {
    if s.len() > 0 && (s[0] == '-' || s[0] == '+') {
        match spec_parse_unsigned_at(s, 1) {
            Some(v) => Some((s[0] == '-', v)),
            None => None,
        }
    } else {
        match spec_parse_unsigned_at(s, 0) {
            Some(v) => Some((false, v)),
            None => None,
        }
    }
}

/// The unsigned part of the field grammar, anchored at `start` and at the
/// end of the text.
pub open spec fn spec_parse_unsigned_at(s: Seq<char>, start: int) -> Option<u64> {
    let n = s.len() as int;
    let k = digit_run_end(s, start);
    if k == n {
        if k == start {
            None
        } else {
            spec_checked_scaled(s, start, k, k, k)
        }
    } else if s[k] == '.' {
        let fe = digit_run_end(s, k + 1);
        if fe != n {
            None
        } else if k == start && fe == k + 1 {
            None
        } else if fe - (k + 1) > 9 {
            None
        } else {
            spec_checked_scaled(s, start, k, k + 1, fe)
        }
    } else {
        None
    }
}

/// The scaled value of the two digit runs when it fits in a `u64`.
pub open spec fn spec_checked_scaled(s: Seq<char>, istart: int, iend: int, fstart: int, fend: int) -> Option<
    u64,
> {
    let v = scaled_of(
        digits_val_range(s, istart, iend),
        digits_val_range(s, fstart, fend),
        (fend - fstart) as nat,
    );
    if v <= u64::MAX {
        Some(v as u64)
    } else {
        None
    }
}

/// Parses a whole editor field against the field grammar.
pub fn parse_field(s: &Vec<char>) -> (r: Option<(bool, u64)>)
    ensures
        r == spec_parse_field(s@),
{
    let n = s.len();
    let (neg, start): (bool, usize) = if n > 0 && (s[0] == '-' || s[0] == '+') {
        (s[0] == '-', 1)
    } else {
        (false, 0)
    };
    let v = match parse_unsigned_at(s, start) {
        Some(v) => v,
        None => {
            return None;
        },
    };
    Some((neg, v))
}

fn parse_unsigned_at(s: &Vec<char>, start: usize) -> (r: Option<u64>)
    requires
        start <= s@.len(),
    ensures
        r == spec_parse_unsigned_at(s@, start as int),
{
    let n = s.len();
    let k = scan_digits(s, start);
    if k == n {
        if k == start {
            None
        } else {
            combine_scaled(s, start, k, k, k)
        }
    } else if s[k] == '.' {
        let fe = scan_digits(s, k + 1);
        if fe != n {
            None
        } else if k == start && fe == k + 1 {
            None
        } else if fe - (k + 1) > 9 {
            None
        } else {
            combine_scaled(s, start, k, k + 1, fe)
        }
    } else {
        None
    }
}

} // verus!
