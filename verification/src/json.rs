//! The configuration file format: a pretty-printed JSON object with the
//! credential strings, the nested allocation object, and the two amounts.
//! Rendering and parsing are exact inverses, which the round-trip lemma
//! states.

use crate::config::{Config, ConfigV, PortfolioAllocation};
use crate::num::{
    digit_char, digit_run_end, digit_val, digits_val_range, is_digit, scan_digits,
    combine_scaled, format_scaled, push_scaled, scaled_of, spec_checked_scaled,
};
use crate::text::{
    chars_eq_str, chars_of, is_space, lemma_space_run_exact, skip_spaces, space_run_end,
    string_from_chars,
};
use vstd::prelude::*;

verus! {

// ---------------------------------------------------------------------------
// String escaping
// ---------------------------------------------------------------------------
/// A character the file holds as itself, with no escape.
pub open spec fn is_plain(c: char) -> bool {
    c != '"' && c != '\\' && c as u32 >= 0x20
}

pub open spec fn hex_digit_char(d: nat) -> char
    recommends
        d < 16,
{
    if d < 10 {
        digit_char(d)
    } else {
        (('a' as u32 + d - 10) as u32) as char
    }
}

/// How one character is written inside a quoted string: itself when plain,
/// a two-character escape for the common cases, and a `\u00..` escape for
/// the remaining control characters.
pub open spec fn escape_char(c: char) -> Seq<char> {
    if c == '"' {
        seq!['\\', '"']
    } else if c == '\\' {
        seq!['\\', '\\']
    } else if c == '\n' {
        seq!['\\', 'n']
    } else if c == '\r' {
        seq!['\\', 'r']
    } else if c == '\t' {
        seq!['\\', 't']
    } else if (c as u32) < 0x20 {
        seq!['\\', 'u', '0', '0'] + seq![hex_digit_char(((c as u32) / 16) as nat)] + seq![
            hex_digit_char(((c as u32) % 16) as nat),
        ]
    } else {
        seq![c]
    }
}

/// The written form of a whole string's content.
pub open spec fn escape_string(s: Seq<char>) -> Seq<char>
    decreases s.len(),
{
    if s.len() == 0 {
        Seq::empty()
    } else {
        escape_char(s[0]) + escape_string(s.drop_first())
    }
}

/// A string as the file holds it: quoted and escaped.
pub open spec fn quoted(s: Seq<char>) -> Seq<char> {
    seq!['"'] + escape_string(s) + seq!['"']
}

/// Appending a character extends the escaped form at the back.
pub proof fn lemma_escape_push(t: Seq<char>, c: char)
    ensures
        escape_string(t.push(c)) == escape_string(t) + escape_char(c),
    decreases t.len(),
{
    if t.len() == 0 {
        let s1 = t.push(c);
        assert(s1[0] == c);
        assert(s1.drop_first() =~= Seq::<char>::empty());
        assert(escape_string(s1) == escape_char(c) + escape_string(s1.drop_first()));
        assert(escape_string(s1.drop_first()) == Seq::<char>::empty());
        assert(escape_char(c) + Seq::<char>::empty() =~= escape_char(c));
        assert(escape_string(t) + escape_char(c) =~= escape_char(c));
    } else {
        assert(t.push(c).drop_first() =~= t.drop_first().push(c));
        lemma_escape_push(t.drop_first(), c);
        assert(escape_string(t.push(c)) =~= escape_string(t) + escape_char(c));
    }
}

/// A string of plain characters is written as itself.
pub proof fn lemma_escape_plain(t: Seq<char>)
    requires
        forall|i: int| 0 <= i < t.len() ==> is_plain(#[trigger] t[i]),
    ensures
        escape_string(t) == t,
    decreases t.len(),
{
    if t.len() > 0 {
        assert(forall|i: int| 0 <= i < t.drop_first().len() ==> t.drop_first()[i] == t[i + 1]);
        lemma_escape_plain(t.drop_first());
        assert(escape_string(t) =~= t);
    }
}

// ---------------------------------------------------------------------------
// String scanning
// ---------------------------------------------------------------------------
pub open spec fn is_hex(c: char) -> bool {
    is_digit(c) || ('a' as u32 <= c as u32 && c as u32 <= 'f' as u32) || ('A' as u32 <= c as u32
        && c as u32 <= 'F' as u32)
}

pub open spec fn hex_val(c: char) -> nat
    recommends
        is_hex(c),
{
    if is_digit(c) {
        digit_val(c)
    } else if 'a' as u32 <= c as u32 && c as u32 <= 'f' as u32 {
        (c as u32 - 'a' as u32 + 10) as nat
    } else {
        (c as u32 - 'A' as u32 + 10) as nat
    }
}

/// A two-character escape the scanner accepts, by its second character.
pub open spec fn is_simple_escape(c: char) -> bool {
    c == '"' || c == '\\' || c == '/' || c == 'n' || c == 'r' || c == 't' || c == 'b' || c == 'f'
}

/// The character a two-character escape stands for.
pub open spec fn unescape_char(c: char) -> char
    recommends
        is_simple_escape(c),
{
    if c == 'n' {
        '\n'
    } else if c == 'r' {
        '\r'
    } else if c == 't' {
        '\t'
    } else if c == 'b' {
        '\u{0008}'
    } else if c == 'f' {
        '\u{000c}'
    } else {
        c
    }
}

/// The value of the four hex digits at `s[pos..pos+4)`.
pub open spec fn hex4(s: Seq<char>, pos: int) -> nat {
    hex_val(s[pos]) * 0x1000 + hex_val(s[pos + 1]) * 0x100 + hex_val(s[pos + 2]) * 0x10 + hex_val(
        s[pos + 3],
    )
}

/// A code a `\u` escape may carry: four hex digits outside the surrogate
/// range.
pub open spec fn valid_code(u: nat) -> bool {
    u < 0xD800 || (0xE000 <= u && u <= 0xFFFF)
}

/// Scans a quoted string at `pos`: the decoded content and the position
/// just past the closing quote, or `None` when no well-formed quoted
/// string starts there.
pub open spec fn spec_scan_string(s: Seq<char>, pos: int) -> Option<(Seq<char>, int)> {
    if 0 <= pos < s.len() && s[pos] == '"' {
        spec_scan_string_body(s, pos + 1)
    } else {
        None
    }
}

/// Scans string content up to a closing quote, decoding escapes.
pub open spec fn spec_scan_string_body(s: Seq<char>, pos: int) -> Option<(Seq<char>, int)>
    decreases s.len() - pos,
{
    if pos < 0 || pos >= s.len() {
        None
    } else if s[pos] == '"' {
        Some((Seq::empty(), pos + 1))
    } else if s[pos] == '\\' {
        if pos + 1 < s.len() && is_simple_escape(s[pos + 1]) {
            match spec_scan_string_body(s, pos + 2) {
                Some((t, e)) => Some((seq![unescape_char(s[pos + 1])] + t, e)),
                None => None,
            }
        } else if pos + 5 < s.len() && s[pos + 1] == 'u' && is_hex(s[pos + 2]) && is_hex(
            s[pos + 3],
        ) && is_hex(s[pos + 4]) && is_hex(s[pos + 5]) && valid_code(hex4(s, pos + 2)) {
            match spec_scan_string_body(s, pos + 6) {
                Some((t, e)) => Some((seq![((hex4(s, pos + 2) as u32) as char)] + t, e)),
                None => None,
            }
        } else {
            None
        }
    } else if (s[pos] as u32) < 0x20 {
        None
    } else {
        match spec_scan_string_body(s, pos + 1) {
            Some((t, e)) => Some((seq![s[pos]] + t, e)),
            None => None,
        }
    }
}

/// Positions only move forward through a scanned string.
pub proof fn lemma_scan_string_body_advances(s: Seq<char>, pos: int)
    requires
        spec_scan_string_body(s, pos) is Some,
    ensures
        pos < spec_scan_string_body(s, pos)->Some_0.1 <= s.len(),
    decreases s.len() - pos,
{
    if s[pos] == '"' {
    } else if s[pos] == '\\' {
        if pos + 1 < s.len() && is_simple_escape(s[pos + 1]) {
            lemma_scan_string_body_advances(s, pos + 2);
        } else {
            lemma_scan_string_body_advances(s, pos + 6);
        }
    } else {
        lemma_scan_string_body_advances(s, pos + 1);
    }
}

proof fn lemma_hex_digit_char(d: nat)
    requires
        d < 16,
    ensures
        is_hex(hex_digit_char(d)),
        hex_val(hex_digit_char(d)) == d,
{
    if d < 10 {
        crate::num::lemma_digit_char_val(d);
    } else {
        assert(hex_digit_char(d) as u32 == 'a' as u32 + d - 10);
    }
}

/// A quoted, escaped string scans back to exactly its content.
pub proof fn lemma_scan_string_at(s: Seq<char>, pos: int, t: Seq<char>)
    requires
        0 <= pos,
        pos + quoted(t).len() <= s.len(),
        forall|i: int| 0 <= i < quoted(t).len() ==> s[pos + i] == #[trigger] quoted(t)[i],
    ensures
        spec_scan_string(s, pos) == Some((t, pos + quoted(t).len())),
{
    assert(s[pos] == quoted(t)[0]);
    assert(quoted(t)[0] == '"');
    let es = escape_string(t);
    assert forall|i: int| 0 <= i < es.len() implies s[pos + 1 + i] == #[trigger] es[i] by {
        assert(quoted(t)[1 + i] == es[i]);
        assert(s[pos + 1 + i] == quoted(t)[1 + i]);
    }
    assert(s[pos + 1 + es.len()] == quoted(t)[1 + es.len() as int]);
    assert(quoted(t)[1 + es.len() as int] == '"');
    lemma_scan_string_body_at(s, pos + 1, t);
}

proof fn lemma_scan_string_body_at(s: Seq<char>, pos: int, t: Seq<char>)
    requires
        1 <= pos,
        pos + escape_string(t).len() + 1 <= s.len(),
        forall|i: int|
            0 <= i < escape_string(t).len() ==> s[pos + i] == #[trigger] escape_string(t)[i],
        s[pos + escape_string(t).len()] == '"',
    ensures
        spec_scan_string_body(s, pos) == Some((t, pos + escape_string(t).len() + 1)),
    decreases t.len(),
{
    let es = escape_string(t);
    if t.len() == 0 {
        assert(s[pos] == '"');
    } else {
        let c = t[0];
        let t2 = t.drop_first();
        let ec = escape_char(c);
        let es2 = escape_string(t2);
        assert(es == ec + es2);
        assert(1 <= ec.len() <= 6);
        assert forall|i: int| 0 <= i < es2.len() implies s[pos + ec.len() + i] == #[trigger] es2[i] by {
            assert(es[ec.len() + i] == es2[i]);
            assert(s[pos + (ec.len() + i)] == es[ec.len() + i]);
        }
        assert(s[pos + ec.len() + es2.len()] == '"');
        lemma_scan_string_body_at(s, pos + ec.len(), t2);
        assert(seq![c] + t2 =~= t);
        assert forall|i: int| 0 <= i < ec.len() implies s[pos + i] == #[trigger] ec[i] by {
            assert(es[i] == ec[i]);
        }
        if c == '"' {
            assert(s[pos] == '\\' && s[pos + 1] == '"');
            assert(unescape_char('"') == '"');
        } else if c == '\\' {
            assert(s[pos] == '\\' && s[pos + 1] == '\\');
        } else if c == '\n' {
            assert(s[pos] == '\\' && s[pos + 1] == 'n');
            assert(unescape_char('n') == '\n');
        } else if c == '\r' {
            assert(s[pos] == '\\' && s[pos + 1] == 'r');
        } else if c == '\t' {
            assert(s[pos] == '\\' && s[pos + 1] == 't');
        } else if (c as u32) < 0x20 {
            let cu = c as u32;
            let h1 = hex_digit_char((cu / 16) as nat);
            let h2 = hex_digit_char((cu % 16) as nat);
            assert(ec == seq!['\\', 'u', '0', '0'] + seq![h1] + seq![h2]);
            assert(ec.len() == 6);
            assert(ec[0] == '\\' && ec[1] == 'u' && ec[2] == '0' && ec[3] == '0' && ec[4] == h1
                && ec[5] == h2);
            assert(s[pos] == '\\' && s[pos + 1] == 'u' && s[pos + 2] == '0' && s[pos + 3] == '0');
            assert(s[pos + 4] == h1);
            assert(s[pos + 5] == h2);
            assert(!is_simple_escape('u'));
            lemma_hex_digit_char((cu / 16) as nat);
            lemma_hex_digit_char((cu % 16) as nat);
            crate::num::lemma_digit_char_val(0);
            assert(is_hex('0') && hex_val('0') == 0);
            assert(hex4(s, pos + 2) == cu) by {
                assert(hex_val(s[pos + 2]) == 0 && hex_val(s[pos + 3]) == 0);
                assert(hex_val(s[pos + 4]) == cu / 16 && hex_val(s[pos + 5]) == cu % 16);
                assert((cu / 16) * 0x10 + cu % 16 == cu);
            }
            assert(valid_code(hex4(s, pos + 2)));
            vstd::utf8::char_u32_cast(c, cu);
            assert(((hex4(s, pos + 2) as u32) as char) == c);
        } else {
            assert(ec == seq![c]);
            assert(s[pos] == c);
            assert(is_plain(c));
        }
        assert(spec_scan_string_body(s, pos) == Some((t, pos + es.len() + 1)));
    }
}

fn is_hex_exec(c: char) -> (r: bool)
    ensures
        r == is_hex(c),
{
    (c >= '0' && c <= '9') || (c >= 'a' && c <= 'f') || (c >= 'A' && c <= 'F')
}

fn hex_val_exec(c: char) -> (r: u32)
    requires
        is_hex(c),
    ensures
        r == hex_val(c),
{
    if c >= '0' && c <= '9' {
        c as u32 - '0' as u32
    } else if c >= 'a' && c <= 'f' {
        c as u32 - 'a' as u32 + 10
    } else {
        c as u32 - 'A' as u32 + 10
    }
}

/// Relies on `char::from_u32`: every code below the surrogate range or
/// above it (up to the last scalar) is a valid character with that code.
#[verifier::external_body]
fn char_from_code(u: u32) -> (c: char)
    requires
        u < 0xD800 || (0xE000 <= u && u <= 0x10FFFF),
    ensures
        c as u32 == u,
{
    char::from_u32(u).unwrap()
}

/// Scans a quoted string: the decoded content and the position past the
/// closing quote.
#[verifier::rlimit(60)]
fn scan_string(s: &Vec<char>, pos: usize) -> (r: Option<(Vec<char>, usize)>)
    requires
        pos <= s@.len(),
    ensures
        (r is Some) == (spec_scan_string(s@, pos as int) is Some),
        r is Some ==> {
            let (t, e) = spec_scan_string(s@, pos as int)->Some_0;
            r->Some_0.0@ == t && r->Some_0.1 == e && pos < e <= s@.len()
        },
{
    if !(pos < s.len() && s[pos] == '"') {
        return None;
    }
    let mut out: Vec<char> = Vec::new();
    let mut i: usize = pos + 1;
    loop
        invariant
            pos + 1 <= i <= s@.len(),
            pos < s@.len(),
            s@[pos as int] == '"',
            (spec_scan_string_body(s@, i as int) is Some) == (spec_scan_string_body(
                s@,
                pos + 1,
            ) is Some),
            spec_scan_string_body(s@, i as int) matches Some((t, e)) ==> spec_scan_string_body(
                s@,
                pos + 1,
            ) == Some::<(Seq<char>, int)>((out@ + t, e)),
        decreases s@.len() - i,
    {
        if i >= s.len() {
            return None;
        }
        let c = s[i];
        if c == '"' {
            proof {
                assert(spec_scan_string_body(s@, i as int) == Some::<(Seq<char>, int)>(
                    (Seq::empty(), i + 1),
                ));
                assert(out@ + Seq::<char>::empty() =~= out@);
                lemma_scan_string_body_advances(s@, pos + 1);
            }
            return Some((out, i + 1));
        } else if c == '\\' {
            if i + 1 < s.len() && is_simple_escape_exec(s[i + 1]) {
                let u = unescape_char_exec(s[i + 1]);
                let ghost before = out@;
                out.push(u);
                proof {
                    let sb = spec_scan_string_body(s@, i + 2);
                    if sb is Some {
                        let (t, e) = sb->Some_0;
                        assert(spec_scan_string_body(s@, i as int) == Some::<(Seq<char>, int)>(
                            (seq![unescape_char(s@[i as int + 1])] + t, e),
                        ));
                        assert(before + (seq![u] + t) =~= out@ + t);
                    }
                }
                i = i + 2;
            } else if s.len() - i > 5 && s[i + 1] == 'u' && is_hex_exec(s[i + 2]) && is_hex_exec(
                s[i + 3],
            ) && is_hex_exec(s[i + 4]) && is_hex_exec(s[i + 5]) {
                let code: u32 = hex_val_exec(s[i + 2]) * 0x1000 + hex_val_exec(s[i + 3]) * 0x100
                    + hex_val_exec(s[i + 4]) * 0x10 + hex_val_exec(s[i + 5]);
                if !(code < 0xD800 || 0xE000 <= code) {
                    return None;
                }
                let u = char_from_code(code);
                let ghost before = out@;
                out.push(u);
                proof {
                    vstd::utf8::char_u32_cast(u, code);
                    assert(u == (hex4(s@, i + 2) as u32) as char);
                    let sb = spec_scan_string_body(s@, i + 6);
                    if sb is Some {
                        let (t, e) = sb->Some_0;
                        assert(spec_scan_string_body(s@, i as int) == Some::<(Seq<char>, int)>(
                            (seq![((hex4(s@, i + 2) as u32) as char)] + t, e),
                        ));
                        assert(before + (seq![u] + t) =~= out@ + t);
                    }
                }
                i = i + 6;
            } else {
                return None;
            }
        } else if (c as u32) < 0x20 {
            return None;
        } else {
            let ghost before = out@;
            out.push(c);
            proof {
                let sb = spec_scan_string_body(s@, i + 1);
                if sb is Some {
                    let (t, e) = sb->Some_0;
                    assert(spec_scan_string_body(s@, i as int) == Some::<(Seq<char>, int)>(
                        (seq![s@[i as int]] + t, e),
                    ));
                    assert(before + (seq![c] + t) =~= out@ + t);
                }
            }
            i = i + 1;
        }
    }
}

// ---------------------------------------------------------------------------
// Numbers
// ---------------------------------------------------------------------------
/// Scans a number at `pos`: integer digits, then optionally a dot and one
/// to nine fraction digits; yields the scaled value and the position after
/// the number.
pub open spec fn spec_scan_number(s: Seq<char>, pos: int) -> Option<(u64, int)> {
    let k = digit_run_end(s, pos);
    if k == pos {
        None
    } else if k < s.len() && s[k] == '.' {
        let fe = digit_run_end(s, k + 1);
        if fe == k + 1 {
            None
        } else if fe - (k + 1) > 9 {
            None
        } else {
            match spec_checked_scaled(s, pos, k, k + 1, fe) {
                Some(v) => Some((v, fe)),
                None => None,
            }
        }
    } else {
        match spec_checked_scaled(s, pos, k, k, k) {
            Some(v) => Some((v, k)),
            None => None,
        }
    }
}

/// A rendered scaled value, followed by anything that is neither digit nor
/// dot, scans back to exactly that value.
pub proof fn lemma_scan_number_at(s: Seq<char>, pos: int, v: u64)
    requires
        0 <= pos,
        pos + format_scaled(v).len() <= s.len(),
        forall|i: int|
            0 <= i < format_scaled(v).len() ==> s[pos + i] == #[trigger] format_scaled(v)[i],
        pos + format_scaled(v).len() == s.len() || (!is_digit(s[pos + format_scaled(v).len()])
            && s[pos + format_scaled(v).len()] != '.'),
    ensures
        spec_scan_number(s, pos) == Some((v, pos + format_scaled(v).len())),
{
    crate::num::lemma_format_scaled(v);
    crate::num::lemma_dec_digits((v / crate::num::SCALE) as nat);
    crate::num::lemma_format_frac(v);
    let a = crate::num::dec_digits((v / crate::num::SCALE) as nat);
    let b = crate::num::format_frac(v);
    let f = format_scaled(v);
    let k = pos + a.len();
    assert forall|i: int| pos <= i < k implies is_digit(#[trigger] s[i]) by {
        assert(s[i] == f[i - pos]);
    }
    assert(s[k] == f[a.len() as int]);
    assert(s[k] == '.');
    crate::num::lemma_digit_run_exact(s, pos, k);
    let fe = k + 1 + b.len();
    assert forall|i: int| k + 1 <= i < fe implies is_digit(#[trigger] s[i]) by {
        assert(s[i] == f[i - pos]);
    }
    assert(fe == pos + f.len());
    crate::num::lemma_digit_run_exact(s, k + 1, fe);
    assert forall|i: int| 0 <= i < a.len() implies s[pos + i] == #[trigger] a[i] by {
        assert(s[pos + i] == f[i]);
    }
    crate::num::lemma_digits_val_at(s, pos, a);
    assert forall|i: int| 0 <= i < b.len() implies s[k + 1 + i] == #[trigger] b[i] by {
        assert(s[k + 1 + i] == f[a.len() + 1 + i]);
    }
    crate::num::lemma_digits_val_at(s, k + 1, b);
    assert(digits_val_range(s, pos, k) == (v / crate::num::SCALE) as nat);
    assert(digits_val_range(s, k + 1, fe) == crate::num::digits_val(b));
    assert(scaled_of(
        digits_val_range(s, pos, k),
        digits_val_range(s, k + 1, fe),
        (fe - (k + 1)) as nat,
    ) == (v / crate::num::SCALE) * (crate::num::SCALE as nat) + crate::num::digits_val(b) * crate::num::pow10(
        (9 - b.len()) as nat,
    ));
    assert((v / crate::num::SCALE) * (crate::num::SCALE as nat) + (v % crate::num::SCALE) == v);
    assert(spec_checked_scaled(s, pos, k, k + 1, fe) == Some(v));
}

fn scan_number(s: &Vec<char>, pos: usize) -> (r: Option<(u64, usize)>)
    requires
        pos <= s@.len(),
    ensures
        (r is Some) == (spec_scan_number(s@, pos as int) is Some),
        r is Some ==> {
            let (v, e) = spec_scan_number(s@, pos as int)->Some_0;
            r->Some_0.0 == v && r->Some_0.1 == e && pos < e <= s@.len()
        },
{
    let k = scan_digits(s, pos);
    if k == pos {
        return None;
    }
    if k < s.len() && s[k] == '.' {
        let fe = scan_digits(s, k + 1);
        if fe == k + 1 {
            return None;
        }
        if fe - (k + 1) > 9 {
            return None;
        }
        match combine_scaled(s, pos, k, k + 1, fe) {
            Some(v) => Some((v, fe)),
            None => None,
        }
    } else {
        match combine_scaled(s, pos, k, k, k) {
            Some(v) => Some((v, k)),
            None => None,
        }
    }
}

// ---------------------------------------------------------------------------
// Objects
// ---------------------------------------------------------------------------
/// The allocation members read so far; each key may be seen once.
#[derive(Clone, Copy, PartialEq, Eq, Structural)]
pub struct PartialAlloc {
    pub btc_usdt: Option<u64>,
    pub eth_usdt: Option<u64>,
    pub ltc_usdt: Option<u64>,
    pub usdt: Option<u64>,
}

/// An allocation object with nothing read yet.
pub open spec fn empty_alloc() -> PartialAlloc {
    PartialAlloc { btc_usdt: None, eth_usdt: None, ltc_usdt: None, usdt: None }
}

/// Stores one allocation member under its key; a repeated or unknown key
/// is an error.
pub open spec fn spec_alloc_store(acc: PartialAlloc, key: Seq<char>, v: u64) -> Option<
    PartialAlloc,
> {
    if key == "BTC_USDT"@ {
        if acc.btc_usdt is Some {
            None
        } else {
            Some(PartialAlloc { btc_usdt: Some(v), ..acc })
        }
    } else if key == "ETH_USDT"@ {
        if acc.eth_usdt is Some {
            None
        } else {
            Some(PartialAlloc { eth_usdt: Some(v), ..acc })
        }
    } else if key == "LTC_USDT"@ {
        if acc.ltc_usdt is Some {
            None
        } else {
            Some(PartialAlloc { ltc_usdt: Some(v), ..acc })
        }
    } else if key == "USDT"@ {
        if acc.usdt is Some {
            None
        } else {
            Some(PartialAlloc { usdt: Some(v), ..acc })
        }
    } else {
        None
    }
}

/// Scans the members of the allocation object, `pos` at a key quote, until
/// the closing brace; yields what was read and the position after the
/// brace.  At most `remaining` members can still be read: the four distinct
/// keys bound every run.
pub open spec fn spec_alloc_members(s: Seq<char>, pos: int, remaining: nat, acc: PartialAlloc) -> Option<
    (PartialAlloc, int),
>
    decreases remaining,
{
    if remaining == 0 {
        None
    } else {
        match spec_scan_string(s, pos) {
            None => None,
            Some((key, p1)) => {
                let p2 = space_run_end(s, p1);
                if !(p2 < s.len() && s[p2] == ':') {
                    None
                } else {
                    let p3 = space_run_end(s, p2 + 1);
                    match spec_scan_number(s, p3) {
                        None => None,
                        Some((v, p4)) => match spec_alloc_store(acc, key, v) {
                            None => None,
                            Some(acc2) => {
                                let p5 = space_run_end(s, p4);
                                if p5 < s.len() && s[p5] == ',' {
                                    spec_alloc_members(
                                        s,
                                        space_run_end(s, p5 + 1),
                                        (remaining - 1) as nat,
                                        acc2,
                                    )
                                } else if p5 < s.len() && s[p5] == '}' {
                                    Some((acc2, p5 + 1))
                                } else {
                                    None
                                }
                            },
                        },
                    }
                }
            },
        }
    }
}

/// Scans the whole allocation object at `pos` (at its opening brace): all
/// four weights must be present.
pub open spec fn spec_parse_alloc(s: Seq<char>, pos: int) -> Option<(PortfolioAllocation, int)> {
    if 0 <= pos < s.len() && s[pos] == '{' {
        match spec_alloc_members(s, space_run_end(s, pos + 1), 4, empty_alloc()) {
            Some((acc, p)) => match (acc.btc_usdt, acc.eth_usdt, acc.ltc_usdt, acc.usdt) {
                (Some(b), Some(e), Some(l), Some(u)) => Some(
                    (PortfolioAllocation { btc_usdt: b, eth_usdt: e, ltc_usdt: l, usdt: u }, p),
                ),
                _ => None,
            },
            None => None,
        }
    } else {
        None
    }
}

fn alloc_store(acc: PartialAlloc, key: &Vec<char>, v: u64) -> (r: Option<PartialAlloc>)
    ensures
        r == spec_alloc_store(acc, key@, v),
{
    if chars_eq_str(key, "BTC_USDT") {
        if acc.btc_usdt.is_some() {
            None
        } else {
            Some(PartialAlloc { btc_usdt: Some(v), ..acc })
        }
    } else if chars_eq_str(key, "ETH_USDT") {
        if acc.eth_usdt.is_some() {
            None
        } else {
            Some(PartialAlloc { eth_usdt: Some(v), ..acc })
        }
    } else if chars_eq_str(key, "LTC_USDT") {
        if acc.ltc_usdt.is_some() {
            None
        } else {
            Some(PartialAlloc { ltc_usdt: Some(v), ..acc })
        }
    } else if chars_eq_str(key, "USDT") {
        if acc.usdt.is_some() {
            None
        } else {
            Some(PartialAlloc { usdt: Some(v), ..acc })
        }
    } else {
        None
    }
}

fn parse_alloc_members(s: &Vec<char>, pos: usize, remaining: u64, acc: PartialAlloc) -> (r: Option<
    (PartialAlloc, usize),
>)
    requires
        pos <= s@.len(),
    ensures
        (r is Some) == (spec_alloc_members(s@, pos as int, remaining as nat, acc) is Some),
        r is Some ==> {
            let (a, e) = spec_alloc_members(s@, pos as int, remaining as nat, acc)->Some_0;
            r->Some_0.0 == a && r->Some_0.1 == e && e <= s@.len()
        },
    decreases remaining,
{
    if remaining == 0 {
        return None;
    }
    let (key, p1) = match scan_string(s, pos) {
        Some(x) => x,
        None => {
            return None;
        },
    };
    let p2 = skip_spaces(s, p1);
    if !(p2 < s.len() && s[p2] == ':') {
        return None;
    }
    let p3 = skip_spaces(s, p2 + 1);
    let (v, p4) = match scan_number(s, p3) {
        Some(x) => x,
        None => {
            return None;
        },
    };
    let acc2 = match alloc_store(acc, &key, v) {
        Some(a) => a,
        None => {
            return None;
        },
    };
    let p5 = skip_spaces(s, p4);
    if p5 < s.len() && s[p5] == ',' {
        let p6 = skip_spaces(s, p5 + 1);
        parse_alloc_members(s, p6, remaining - 1, acc2)
    } else if p5 < s.len() && s[p5] == '}' {
        Some((acc2, p5 + 1))
    } else {
        None
    }
}

fn parse_alloc(s: &Vec<char>, pos: usize) -> (r: Option<(PortfolioAllocation, usize)>)
    requires
        pos <= s@.len(),
    ensures
        (r is Some) == (spec_parse_alloc(s@, pos as int) is Some),
        r is Some ==> {
            let (a, e) = spec_parse_alloc(s@, pos as int)->Some_0;
            r->Some_0.0 == a && r->Some_0.1 == e && e <= s@.len()
        },
{
    if !(pos < s.len() && s[pos] == '{') {
        return None;
    }
    let p1 = skip_spaces(s, pos + 1);
    let (acc, p) = match parse_alloc_members(
        s,
        p1,
        4,
        PartialAlloc { btc_usdt: None, eth_usdt: None, ltc_usdt: None, usdt: None },
    ) {
        Some(x) => x,
        None => {
            return None;
        },
    };
    match (acc.btc_usdt, acc.eth_usdt, acc.ltc_usdt, acc.usdt) {
        (Some(b), Some(e), Some(l), Some(u)) => Some(
            (PortfolioAllocation { btc_usdt: b, eth_usdt: e, ltc_usdt: l, usdt: u }, p),
        ),
        _ => None,
    }
}

/// The configuration members read so far; each key may be seen once.
pub struct PartialConfigV {
    pub api_key: Option<Seq<char>>,
    pub api_secret: Option<Seq<char>>,
    pub portfolio_allocation: Option<PortfolioAllocation>,
    pub rebalance_threshold: Option<u64>,
    pub min_usdt_inflow: Option<u64>,
}

struct PartialConfig {
    api_key: Option<Vec<char>>,
    api_secret: Option<Vec<char>>,
    portfolio_allocation: Option<PortfolioAllocation>,
    rebalance_threshold: Option<u64>,
    min_usdt_inflow: Option<u64>,
}

impl View for PartialConfig {
    type V = PartialConfigV;

    closed spec fn view(&self) -> PartialConfigV {
        PartialConfigV {
            api_key: match self.api_key {
                Some(v) => Some(v@),
                None => None,
            },
            api_secret: match self.api_secret {
                Some(v) => Some(v@),
                None => None,
            },
            portfolio_allocation: self.portfolio_allocation,
            rebalance_threshold: self.rebalance_threshold,
            min_usdt_inflow: self.min_usdt_inflow,
        }
    }
}

/// A configuration object with nothing read yet.
pub open spec fn empty_partial_config() -> PartialConfigV {
    PartialConfigV {
        api_key: None,
        api_secret: None,
        portfolio_allocation: None,
        rebalance_threshold: None,
        min_usdt_inflow: None,
    }
}

/// Reads the member value for `key` at `pos` and stores it; a repeated or
/// unknown key, or a value of the wrong shape, is an error.
pub open spec fn spec_config_store(
    s: Seq<char>,
    pos: int,
    acc: PartialConfigV,
    key: Seq<char>,
) -> Option<(PartialConfigV, int)> {
    if key == "api_key"@ {
        if acc.api_key is Some {
            None
        } else {
            match spec_scan_string(s, pos) {
                Some((t, p)) => Some((PartialConfigV { api_key: Some(t), ..acc }, p)),
                None => None,
            }
        }
    } else if key == "api_secret"@ {
        if acc.api_secret is Some {
            None
        } else {
            match spec_scan_string(s, pos) {
                Some((t, p)) => Some((PartialConfigV { api_secret: Some(t), ..acc }, p)),
                None => None,
            }
        }
    } else if key == "portfolio_allocation"@ {
        if acc.portfolio_allocation is Some {
            None
        } else {
            match spec_parse_alloc(s, pos) {
                Some((a, p)) => Some(
                    (PartialConfigV { portfolio_allocation: Some(a), ..acc }, p),
                ),
                None => None,
            }
        }
    } else if key == "rebalance_threshold"@ {
        if acc.rebalance_threshold is Some {
            None
        } else {
            match spec_scan_number(s, pos) {
                Some((v, p)) => Some((PartialConfigV { rebalance_threshold: Some(v), ..acc }, p)),
                None => None,
            }
        }
    } else if key == "min_usdt_inflow"@ {
        if acc.min_usdt_inflow is Some {
            None
        } else {
            match spec_scan_number(s, pos) {
                Some((v, p)) => Some((PartialConfigV { min_usdt_inflow: Some(v), ..acc }, p)),
                None => None,
            }
        }
    } else {
        None
    }
}

/// Scans the members of the configuration object, `pos` at a key quote,
/// until the closing brace.
pub open spec fn spec_config_members(
    s: Seq<char>,
    pos: int,
    remaining: nat,
    acc: PartialConfigV,
) -> Option<(PartialConfigV, int)>
    decreases remaining,
{
    if remaining == 0 {
        None
    } else {
        match spec_scan_string(s, pos) {
            None => None,
            Some((key, p1)) => {
                let p2 = space_run_end(s, p1);
                if !(p2 < s.len() && s[p2] == ':') {
                    None
                } else {
                    let p3 = space_run_end(s, p2 + 1);
                    match spec_config_store(s, p3, acc, key) {
                        None => None,
                        Some((acc2, p4)) => {
                            let p5 = space_run_end(s, p4);
                            if p5 < s.len() && s[p5] == ',' {
                                spec_config_members(
                                    s,
                                    space_run_end(s, p5 + 1),
                                    (remaining - 1) as nat,
                                    acc2,
                                )
                            } else if p5 < s.len() && s[p5] == '}' {
                                Some((acc2, p5 + 1))
                            } else {
                                None
                            }
                        },
                    }
                }
            },
        }
    }
}

/// Parses a whole configuration document: one object carrying exactly the
/// five members, each once, in any order, with nothing but whitespace
/// around the object.
pub open spec fn spec_parse_config(s: Seq<char>) -> Option<ConfigV> {
    let p0 = space_run_end(s, 0);
    if p0 < s.len() && s[p0] == '{' {
        match spec_config_members(s, space_run_end(s, p0 + 1), 5, empty_partial_config()) {
            Some((acc, p)) => {
                if space_run_end(s, p) == s.len() {
                    match (
                        acc.api_key,
                        acc.api_secret,
                        acc.portfolio_allocation,
                        acc.rebalance_threshold,
                        acc.min_usdt_inflow,
                    ) {
                        (Some(k), Some(sec), Some(a), Some(t), Some(f)) => Some(
                            ConfigV {
                                api_key: k,
                                api_secret: sec,
                                portfolio_allocation: a,
                                rebalance_threshold: t,
                                min_usdt_inflow: f,
                            },
                        ),
                        _ => None,
                    }
                } else {
                    None
                }
            },
            None => None,
        }
    } else {
        None
    }
}

fn config_store(s: &Vec<char>, pos: usize, acc: PartialConfig, key: &Vec<char>) -> (r: Option<
    (PartialConfig, usize),
>)
    requires
        pos <= s@.len(),
    ensures
        (r is Some) == (spec_config_store(s@, pos as int, acc@, key@) is Some),
        r is Some ==> {
            let (a, e) = spec_config_store(s@, pos as int, acc@, key@)->Some_0;
            r->Some_0.0@ == a && r->Some_0.1 == e && e <= s@.len()
        },
{
    if chars_eq_str(key, "api_key") {
        if acc.api_key.is_some() {
            return None;
        }
        match scan_string(s, pos) {
            Some((t, p)) => Some((PartialConfig { api_key: Some(t), ..acc }, p)),
            None => None,
        }
    } else if chars_eq_str(key, "api_secret") {
        if acc.api_secret.is_some() {
            return None;
        }
        match scan_string(s, pos) {
            Some((t, p)) => Some((PartialConfig { api_secret: Some(t), ..acc }, p)),
            None => None,
        }
    } else if chars_eq_str(key, "portfolio_allocation") {
        if acc.portfolio_allocation.is_some() {
            return None;
        }
        match parse_alloc(s, pos) {
            Some((a, p)) => Some((PartialConfig { portfolio_allocation: Some(a), ..acc }, p)),
            None => None,
        }
    } else if chars_eq_str(key, "rebalance_threshold") {
        if acc.rebalance_threshold.is_some() {
            return None;
        }
        match scan_number(s, pos) {
            Some((v, p)) => Some((PartialConfig { rebalance_threshold: Some(v), ..acc }, p)),
            None => None,
        }
    } else if chars_eq_str(key, "min_usdt_inflow") {
        if acc.min_usdt_inflow.is_some() {
            return None;
        }
        match scan_number(s, pos) {
            Some((v, p)) => Some((PartialConfig { min_usdt_inflow: Some(v), ..acc }, p)),
            None => None,
        }
    } else {
        None
    }
}

fn parse_config_members(s: &Vec<char>, pos: usize, remaining: u64, acc: PartialConfig) -> (r:
    Option<(PartialConfig, usize)>)
    requires
        pos <= s@.len(),
    ensures
        (r is Some) == (spec_config_members(s@, pos as int, remaining as nat, acc@) is Some),
        r is Some ==> {
            let (a, e) = spec_config_members(s@, pos as int, remaining as nat, acc@)->Some_0;
            r->Some_0.0@ == a && r->Some_0.1 == e && e <= s@.len()
        },
    decreases remaining,
{
    if remaining == 0 {
        return None;
    }
    let (key, p1) = match scan_string(s, pos) {
        Some(x) => x,
        None => {
            return None;
        },
    };
    let p2 = skip_spaces(s, p1);
    if !(p2 < s.len() && s[p2] == ':') {
        return None;
    }
    let p3 = skip_spaces(s, p2 + 1);
    let (acc2, p4) = match config_store(s, p3, acc, &key) {
        Some(x) => x,
        None => {
            return None;
        },
    };
    let p5 = skip_spaces(s, p4);
    if p5 < s.len() && s[p5] == ',' {
        let p6 = skip_spaces(s, p5 + 1);
        parse_config_members(s, p6, remaining - 1, acc2)
    } else if p5 < s.len() && s[p5] == '}' {
        Some((acc2, p5 + 1))
    } else {
        None
    }
}

/// Parses the text of a configuration file.
pub fn parse_config(text: &str) -> (r: Option<Config>)
    ensures
        (r is Some) == (spec_parse_config(text@) is Some),
        r is Some ==> r->Some_0@ == spec_parse_config(text@)->Some_0,
{
    let s = chars_of(text);
    let p0 = skip_spaces(&s, 0);
    if !(p0 < s.len() && s[p0] == '{') {
        return None;
    }
    let p1 = skip_spaces(&s, p0 + 1);
    let (acc, p) = match parse_config_members(
        &s,
        p1,
        5,
        PartialConfig {
            api_key: None,
            api_secret: None,
            portfolio_allocation: None,
            rebalance_threshold: None,
            min_usdt_inflow: None,
        },
    ) {
        Some(x) => x,
        None => {
            return None;
        },
    };
    if skip_spaces(&s, p) != s.len() {
        return None;
    }
    match (
        acc.api_key,
        acc.api_secret,
        acc.portfolio_allocation,
        acc.rebalance_threshold,
        acc.min_usdt_inflow,
    ) {
        (Some(k), Some(sec), Some(a), Some(t), Some(f)) => Some(
            Config {
                api_key: string_from_chars(&k),
                api_secret: string_from_chars(&sec),
                portfolio_allocation: a,
                rebalance_threshold: t,
                min_usdt_inflow: f,
            },
        ),
        _ => None,
    }
}

fn is_simple_escape_exec(c: char) -> (r: bool)
    ensures
        r == is_simple_escape(c),
{
    c == '"' || c == '\\' || c == '/' || c == 'n' || c == 'r' || c == 't' || c == 'b' || c == 'f'
}

fn unescape_char_exec(c: char) -> (r: char)
    requires
        is_simple_escape(c),
    ensures
        r == unescape_char(c),
{
    if c == 'n' {
        '\n'
    } else if c == 'r' {
        '\r'
    } else if c == 't' {
        '\t'
    } else if c == 'b' {
        '\u{0008}'
    } else if c == 'f' {
        '\u{000c}'
    } else {
        c
    }
}

fn hex_digit_char_exec(d: u32) -> (r: char)
    requires
        d < 16,
    ensures
        r == hex_digit_char(d as nat),
{
    match d {
        0 => '0',
        1 => '1',
        2 => '2',
        3 => '3',
        4 => '4',
        5 => '5',
        6 => '6',
        7 => '7',
        8 => '8',
        9 => '9',
        10 => 'a',
        11 => 'b',
        12 => 'c',
        13 => 'd',
        14 => 'e',
        _ => 'f',
    }
}

/// Appends the quoted, escaped form of `t` to `out`.
fn push_quoted(t: &Vec<char>, out: &mut Vec<char>)
    ensures
        final(out)@ == old(out)@ + quoted(t@),
{
    out.push('"');
    let ghost mark = out@;
    let mut i: usize = 0;
    while i < t.len()
        invariant
            i <= t@.len(),
            out@ == mark + escape_string(t@.subrange(0, i as int)),
        decreases t@.len() - i,
    {
        let c = t[i];
        let ghost pre = t@.subrange(0, i as int);
        if c == '"' {
            out.push('\\');
            out.push('"');
        } else if c == '\\' {
            out.push('\\');
            out.push('\\');
        } else if c == '\n' {
            out.push('\\');
            out.push('n');
        } else if c == '\r' {
            out.push('\\');
            out.push('r');
        } else if c == '\t' {
            out.push('\\');
            out.push('t');
        } else if (c as u32) < 0x20 {
            out.push('\\');
            out.push('u');
            out.push('0');
            out.push('0');
            out.push(hex_digit_char_exec(c as u32 / 16));
            out.push(hex_digit_char_exec(c as u32 % 16));
        } else {
            out.push(c);
        }
        i = i + 1;
        proof {
            lemma_escape_push(pre, c);
            assert(pre.push(c) =~= t@.subrange(0, i as int));
            assert(out@ =~= mark + escape_string(t@.subrange(0, i as int)));
        }
    }
    out.push('"');
    proof {
        assert(t@.subrange(0, t@.len() as int) =~= t@);
        assert(out@ =~= old(out)@ + quoted(t@));
    }
}

// ---------------------------------------------------------------------------
// Rendering
// ---------------------------------------------------------------------------
/// The pretty-printed text of the nested allocation object.
pub open spec fn spec_alloc_json(a: PortfolioAllocation) -> Seq<char> {
    "{\n    \"BTC_USDT\": "@ + format_scaled(a.btc_usdt) + ",\n    \"ETH_USDT\": "@
        + format_scaled(a.eth_usdt) + ",\n    \"LTC_USDT\": "@ + format_scaled(a.ltc_usdt)
        + ",\n    \"USDT\": "@ + format_scaled(a.usdt) + "\n  }"@
}

/// The pretty-printed text of a configuration: one member per line, two
/// spaces of indent, the allocation nested as its own object.
pub open spec fn spec_config_json(c: ConfigV) -> Seq<char> {
    "{\n  \"api_key\": "@ + quoted(c.api_key) + ",\n  \"api_secret\": "@ + quoted(c.api_secret)
        + ",\n  \"portfolio_allocation\": "@ + spec_alloc_json(c.portfolio_allocation)
        + ",\n  \"rebalance_threshold\": "@ + format_scaled(c.rebalance_threshold)
        + ",\n  \"min_usdt_inflow\": "@ + format_scaled(c.min_usdt_inflow) + "\n}"@
}


/// The premise the allocation round-trip lemmas share: the rendered
/// allocation text of `a` sits at `pos` in `s`, followed by a comma.
pub open spec fn alloc_text_at(s: Seq<char>, pos: int, a: PortfolioAllocation) -> bool {
    &&& 0 <= pos
    &&& pos + spec_alloc_json(a).len() < s.len()
    &&& (forall|i: int|
        0 <= i < spec_alloc_json(a).len() ==> s[pos + i] == #[trigger] spec_alloc_json(a)[i])
    &&& s[pos + spec_alloc_json(a).len()] == ','
}

/// Where each component of the embedded allocation text sits.
#[verifier::rlimit(100)]
proof fn lemma_alloc_pieces(s: Seq<char>, pos: int, a: PortfolioAllocation)
    requires
        alloc_text_at(s, pos, a),
    ensures
        ({
            let n1l = format_scaled(a.btc_usdt).len() as int;
            let n2l = format_scaled(a.eth_usdt).len() as int;
            let n3l = format_scaled(a.ltc_usdt).len() as int;
            let n4l = format_scaled(a.usdt).len() as int;
            let v1 = pos + 18 + n1l;
            let v2 = v1 + 18 + n2l;
            let v3 = v2 + 18 + n3l;
            let v4 = v3 + 14 + n4l;
            &&& spec_alloc_json(a).len() == 72 + n1l + n2l + n3l + n4l
            &&& s.subrange(pos, pos + 18) == "{\n    \"BTC_USDT\": "@
            &&& s.subrange(pos + 18, v1) == format_scaled(a.btc_usdt)
            &&& s.subrange(v1, v1 + 18) == ",\n    \"ETH_USDT\": "@
            &&& s.subrange(v1 + 18, v2) == format_scaled(a.eth_usdt)
            &&& s.subrange(v2, v2 + 18) == ",\n    \"LTC_USDT\": "@
            &&& s.subrange(v2 + 18, v3) == format_scaled(a.ltc_usdt)
            &&& s.subrange(v3, v3 + 14) == ",\n    \"USDT\": "@
            &&& s.subrange(v3 + 14, v4) == format_scaled(a.usdt)
            &&& s.subrange(v4, v4 + 4) == "\n  }"@
        }),
{
    let t = spec_alloc_json(a);
    let b0 = "{\n    \"BTC_USDT\": "@;
    let b1 = ",\n    \"ETH_USDT\": "@;
    let b2 = ",\n    \"LTC_USDT\": "@;
    let b3 = ",\n    \"USDT\": "@;
    let b4 = "\n  }"@;
    reveal_strlit("{\n    \"BTC_USDT\": ");
    reveal_strlit(",\n    \"ETH_USDT\": ");
    reveal_strlit(",\n    \"LTC_USDT\": ");
    reveal_strlit(",\n    \"USDT\": ");
    reveal_strlit("\n  }");
    let n1 = format_scaled(a.btc_usdt);
    let n2 = format_scaled(a.eth_usdt);
    let n3 = format_scaled(a.ltc_usdt);
    let n4 = format_scaled(a.usdt);
    assert(t == b0 + n1 + b1 + n2 + b2 + n3 + b3 + n4 + b4);
    let n1l = n1.len() as int;
    let n2l = n2.len() as int;
    let n3l = n3.len() as int;
    let n4l = n4.len() as int;
    let v1 = pos + 18 + n1l;
    let v2 = v1 + 18 + n2l;
    let v3 = v2 + 18 + n3l;
    let v4 = v3 + 14 + n4l;
    assert forall|i: int| 0 <= i < 18 implies s.subrange(pos, pos + 18)[i] == b0[i] by {
        assert(s[pos + i] == t[i]);
        assert(t[i] == b0[i]);
    }
    assert(s.subrange(pos, pos + 18) =~= b0);
    assert forall|i: int| 0 <= i < n1l implies s.subrange(pos + 18, v1)[i] == n1[i] by {
        assert(s[pos + (18 + i)] == t[18 + i]);
        assert(t[18 + i] == n1[i]);
    }
    assert(s.subrange(pos + 18, v1) =~= n1);
    assert forall|i: int| 0 <= i < 18 implies s.subrange(v1, v1 + 18)[i] == b1[i] by {
        assert(s[pos + (18 + n1l + i)] == t[18 + n1l + i]);
        assert(t[18 + n1l + i] == b1[i]);
    }
    assert(s.subrange(v1, v1 + 18) =~= b1);
    assert forall|i: int| 0 <= i < n2l implies s.subrange(v1 + 18, v2)[i] == n2[i] by {
        assert(s[pos + (36 + n1l + i)] == t[36 + n1l + i]);
        assert(t[36 + n1l + i] == n2[i]);
    }
    assert(s.subrange(v1 + 18, v2) =~= n2);
    assert forall|i: int| 0 <= i < 18 implies s.subrange(v2, v2 + 18)[i] == b2[i] by {
        assert(s[pos + (36 + n1l + n2l + i)] == t[36 + n1l + n2l + i]);
        assert(t[36 + n1l + n2l + i] == b2[i]);
    }
    assert(s.subrange(v2, v2 + 18) =~= b2);
    assert forall|i: int| 0 <= i < n3l implies s.subrange(v2 + 18, v3)[i] == n3[i] by {
        assert(s[pos + (54 + n1l + n2l + i)] == t[54 + n1l + n2l + i]);
        assert(t[54 + n1l + n2l + i] == n3[i]);
    }
    assert(s.subrange(v2 + 18, v3) =~= n3);
    assert forall|i: int| 0 <= i < 14 implies s.subrange(v3, v3 + 14)[i] == b3[i] by {
        assert(s[pos + (54 + n1l + n2l + n3l + i)] == t[54 + n1l + n2l + n3l + i]);
        assert(t[54 + n1l + n2l + n3l + i] == b3[i]);
    }
    assert(s.subrange(v3, v3 + 14) =~= b3);
    assert forall|i: int| 0 <= i < n4l implies s.subrange(v3 + 14, v4)[i] == n4[i] by {
        assert(s[pos + (68 + n1l + n2l + n3l + i)] == t[68 + n1l + n2l + n3l + i]);
        assert(t[68 + n1l + n2l + n3l + i] == n4[i]);
    }
    assert(s.subrange(v3 + 14, v4) =~= n4);
    assert forall|i: int| 0 <= i < 4 implies s.subrange(v4, v4 + 4)[i] == b4[i] by {
        assert(s[pos + (68 + n1l + n2l + n3l + n4l + i)] == t[68 + n1l + n2l + n3l + n4l + i]);
        assert(t[68 + n1l + n2l + n3l + n4l + i] == b4[i]);
    }
    assert(s.subrange(v4, v4 + 4) =~= b4);
}

/// The first allocation member, scanned back.
#[verifier::rlimit(100)]
proof fn lemma_alloc_m1(s: Seq<char>, pos: int, a: PortfolioAllocation)
    requires
        alloc_text_at(s, pos, a),
    ensures
        ({
            let v1 = pos + 18 + format_scaled(a.btc_usdt).len() as int;
            &&& space_run_end(s, pos + 1) == pos + 6
            &&& spec_scan_string(s, pos + 6) == Some(("BTC_USDT"@, pos + 16))
            &&& pos + 16 < s.len() && s[pos + 16] == ':'
            &&& space_run_end(s, pos + 16) == pos + 16
            &&& space_run_end(s, pos + 17) == pos + 18
            &&& spec_scan_number(s, pos + 18) == Some((a.btc_usdt, v1))
            &&& v1 < s.len() && s[v1] == ','
            &&& space_run_end(s, v1) == v1
            &&& space_run_end(s, v1 + 1) == v1 + 6
        }),
{
    let b0 = "{\n    \"BTC_USDT\": "@;
    let b1 = ",\n    \"ETH_USDT\": "@;
    reveal_strlit("{\n    \"BTC_USDT\": ");
    reveal_strlit(",\n    \"ETH_USDT\": ");
    let n1 = format_scaled(a.btc_usdt);
    crate::num::lemma_format_scaled(a.btc_usdt);
    let n1l = n1.len() as int;
    let v1 = pos + 18 + n1l;
    lemma_alloc_pieces(s, pos, a);
    assert forall|i: int| 0 <= i < 18 implies s[pos + i] == #[trigger] b0[i] by {
        assert(s.subrange(pos, pos + 18)[i] == b0[i]);
    }
    assert forall|i: int| 0 <= i < n1l implies s[pos + 18 + i] == #[trigger] n1[i] by {
        assert(s.subrange(pos + 18, v1)[i] == n1[i]);
    }
    assert forall|i: int| 0 <= i < 18 implies s[v1 + i] == #[trigger] b1[i] by {
        assert(s.subrange(v1, v1 + 18)[i] == b1[i]);
    }
    assert(b0[1] == '\n' && b0[2] == ' ' && b0[3] == ' ' && b0[4] == ' ' && b0[5] == ' ' && b0[6]
        == '"' && b0[15] == '"' && b0[16] == ':' && b0[17] == ' ');
    assert(b1[0] == ',' && b1[1] == '\n' && b1[2] == ' ' && b1[3] == ' ' && b1[4] == ' ' && b1[5]
        == ' ' && b1[6] == '"');
    lemma_space_run_exact(s, pos + 1, pos + 6);
    reveal_strlit("BTC_USDT");
    let k1 = "BTC_USDT"@;
    assert(k1.len() == 8);
    lemma_escape_plain(k1);
    assert forall|i: int| 0 <= i < 10 implies s[pos + 6 + i] == #[trigger] quoted(k1)[i] by {
        assert(s[pos + (6 + i)] == b0[6 + i]);
    }
    lemma_scan_string_at(s, pos + 6, k1);
    assert(s[pos + 16] == ':');
    lemma_space_run_exact(s, pos + 16, pos + 16);
    assert(is_digit(n1[0]) && s[pos + 18] == n1[0]);
    lemma_space_run_exact(s, pos + 17, pos + 18);
    assert(s[v1] == ',');
    lemma_scan_number_at(s, pos + 18, a.btc_usdt);
    lemma_space_run_exact(s, v1, v1);
    lemma_space_run_exact(s, v1 + 1, v1 + 6);
}

/// The second allocation member, scanned back.
#[verifier::rlimit(100)]
proof fn lemma_alloc_m2(s: Seq<char>, pos: int, a: PortfolioAllocation)
    requires
        alloc_text_at(s, pos, a),
    ensures
        ({
            let v1 = pos + 18 + format_scaled(a.btc_usdt).len() as int;
            let v2 = v1 + 18 + format_scaled(a.eth_usdt).len() as int;
            &&& spec_scan_string(s, v1 + 6) == Some(("ETH_USDT"@, v1 + 16))
            &&& v1 + 16 < s.len() && s[v1 + 16] == ':'
            &&& space_run_end(s, v1 + 16) == v1 + 16
            &&& space_run_end(s, v1 + 17) == v1 + 18
            &&& spec_scan_number(s, v1 + 18) == Some((a.eth_usdt, v2))
            &&& v2 < s.len() && s[v2] == ','
            &&& space_run_end(s, v2) == v2
            &&& space_run_end(s, v2 + 1) == v2 + 6
        }),
{
    let b1 = ",\n    \"ETH_USDT\": "@;
    let b2 = ",\n    \"LTC_USDT\": "@;
    reveal_strlit(",\n    \"ETH_USDT\": ");
    reveal_strlit(",\n    \"LTC_USDT\": ");
    let n2 = format_scaled(a.eth_usdt);
    crate::num::lemma_format_scaled(a.eth_usdt);
    let n2l = n2.len() as int;
    let v1 = pos + 18 + format_scaled(a.btc_usdt).len() as int;
    let v2 = v1 + 18 + n2l;
    lemma_alloc_pieces(s, pos, a);
    assert forall|i: int| 0 <= i < 18 implies s[v1 + i] == #[trigger] b1[i] by {
        assert(s.subrange(v1, v1 + 18)[i] == b1[i]);
    }
    assert forall|i: int| 0 <= i < n2l implies s[v1 + 18 + i] == #[trigger] n2[i] by {
        assert(s.subrange(v1 + 18, v2)[i] == n2[i]);
    }
    assert forall|i: int| 0 <= i < 18 implies s[v2 + i] == #[trigger] b2[i] by {
        assert(s.subrange(v2, v2 + 18)[i] == b2[i]);
    }
    assert(b1[6] == '"' && b1[15] == '"' && b1[16] == ':' && b1[17] == ' ');
    assert(b2[0] == ',' && b2[1] == '\n' && b2[2] == ' ' && b2[3] == ' ' && b2[4] == ' ' && b2[5]
        == ' ' && b2[6] == '"');
    reveal_strlit("ETH_USDT");
    let k2 = "ETH_USDT"@;
    assert(k2.len() == 8);
    lemma_escape_plain(k2);
    assert forall|i: int| 0 <= i < 10 implies s[v1 + 6 + i] == #[trigger] quoted(k2)[i] by {
        assert(s[v1 + (6 + i)] == b1[6 + i]);
    }
    lemma_scan_string_at(s, v1 + 6, k2);
    assert(s[v1 + 16] == ':');
    lemma_space_run_exact(s, v1 + 16, v1 + 16);
    assert(is_digit(n2[0]) && s[v1 + 18] == n2[0]);
    lemma_space_run_exact(s, v1 + 17, v1 + 18);
    assert(s[v2] == ',');
    lemma_scan_number_at(s, v1 + 18, a.eth_usdt);
    lemma_space_run_exact(s, v2, v2);
    lemma_space_run_exact(s, v2 + 1, v2 + 6);
}

/// The third allocation member, scanned back.
#[verifier::rlimit(100)]
proof fn lemma_alloc_m3(s: Seq<char>, pos: int, a: PortfolioAllocation)
    requires
        alloc_text_at(s, pos, a),
    ensures
        ({
            let v1 = pos + 18 + format_scaled(a.btc_usdt).len() as int;
            let v2 = v1 + 18 + format_scaled(a.eth_usdt).len() as int;
            let v3 = v2 + 18 + format_scaled(a.ltc_usdt).len() as int;
            &&& spec_scan_string(s, v2 + 6) == Some(("LTC_USDT"@, v2 + 16))
            &&& v2 + 16 < s.len() && s[v2 + 16] == ':'
            &&& space_run_end(s, v2 + 16) == v2 + 16
            &&& space_run_end(s, v2 + 17) == v2 + 18
            &&& spec_scan_number(s, v2 + 18) == Some((a.ltc_usdt, v3))
            &&& v3 < s.len() && s[v3] == ','
            &&& space_run_end(s, v3) == v3
            &&& space_run_end(s, v3 + 1) == v3 + 6
        }),
{
    let b2 = ",\n    \"LTC_USDT\": "@;
    let b3 = ",\n    \"USDT\": "@;
    reveal_strlit(",\n    \"LTC_USDT\": ");
    reveal_strlit(",\n    \"USDT\": ");
    let n3 = format_scaled(a.ltc_usdt);
    crate::num::lemma_format_scaled(a.ltc_usdt);
    let n3l = n3.len() as int;
    let v1 = pos + 18 + format_scaled(a.btc_usdt).len() as int;
    let v2 = v1 + 18 + format_scaled(a.eth_usdt).len() as int;
    let v3 = v2 + 18 + n3l;
    lemma_alloc_pieces(s, pos, a);
    assert forall|i: int| 0 <= i < 18 implies s[v2 + i] == #[trigger] b2[i] by {
        assert(s.subrange(v2, v2 + 18)[i] == b2[i]);
    }
    assert forall|i: int| 0 <= i < n3l implies s[v2 + 18 + i] == #[trigger] n3[i] by {
        assert(s.subrange(v2 + 18, v3)[i] == n3[i]);
    }
    assert forall|i: int| 0 <= i < 14 implies s[v3 + i] == #[trigger] b3[i] by {
        assert(s.subrange(v3, v3 + 14)[i] == b3[i]);
    }
    assert(b2[6] == '"' && b2[15] == '"' && b2[16] == ':' && b2[17] == ' ');
    assert(b3[0] == ',' && b3[1] == '\n' && b3[2] == ' ' && b3[3] == ' ' && b3[4] == ' ' && b3[5]
        == ' ' && b3[6] == '"');
    reveal_strlit("LTC_USDT");
    let k3 = "LTC_USDT"@;
    assert(k3.len() == 8);
    lemma_escape_plain(k3);
    assert forall|i: int| 0 <= i < 10 implies s[v2 + 6 + i] == #[trigger] quoted(k3)[i] by {
        assert(s[v2 + (6 + i)] == b2[6 + i]);
    }
    lemma_scan_string_at(s, v2 + 6, k3);
    assert(s[v2 + 16] == ':');
    lemma_space_run_exact(s, v2 + 16, v2 + 16);
    assert(is_digit(n3[0]) && s[v2 + 18] == n3[0]);
    lemma_space_run_exact(s, v2 + 17, v2 + 18);
    assert(s[v3] == ',');
    lemma_scan_number_at(s, v2 + 18, a.ltc_usdt);
    lemma_space_run_exact(s, v3, v3);
    lemma_space_run_exact(s, v3 + 1, v3 + 6);
}

/// The fourth allocation member and the closing brace, scanned back.
#[verifier::rlimit(100)]
proof fn lemma_alloc_m4(s: Seq<char>, pos: int, a: PortfolioAllocation)
    requires
        alloc_text_at(s, pos, a),
    ensures
        ({
            let v1 = pos + 18 + format_scaled(a.btc_usdt).len() as int;
            let v2 = v1 + 18 + format_scaled(a.eth_usdt).len() as int;
            let v3 = v2 + 18 + format_scaled(a.ltc_usdt).len() as int;
            let v4 = v3 + 14 + format_scaled(a.usdt).len() as int;
            &&& spec_scan_string(s, v3 + 6) == Some(("USDT"@, v3 + 12))
            &&& v3 + 12 < s.len() && s[v3 + 12] == ':'
            &&& space_run_end(s, v3 + 12) == v3 + 12
            &&& space_run_end(s, v3 + 13) == v3 + 14
            &&& spec_scan_number(s, v3 + 14) == Some((a.usdt, v4))
            &&& space_run_end(s, v4) == v4 + 3
            &&& v4 + 3 < s.len() && s[v4 + 3] == '}'
            &&& pos + spec_alloc_json(a).len() == v4 + 4
        }),
{
    let b3 = ",\n    \"USDT\": "@;
    let b4 = "\n  }"@;
    reveal_strlit(",\n    \"USDT\": ");
    reveal_strlit("\n  }");
    let n4 = format_scaled(a.usdt);
    crate::num::lemma_format_scaled(a.usdt);
    let n4l = n4.len() as int;
    let v1 = pos + 18 + format_scaled(a.btc_usdt).len() as int;
    let v2 = v1 + 18 + format_scaled(a.eth_usdt).len() as int;
    let v3 = v2 + 18 + format_scaled(a.ltc_usdt).len() as int;
    let v4 = v3 + 14 + n4l;
    lemma_alloc_pieces(s, pos, a);
    assert forall|i: int| 0 <= i < 14 implies s[v3 + i] == #[trigger] b3[i] by {
        assert(s.subrange(v3, v3 + 14)[i] == b3[i]);
    }
    assert forall|i: int| 0 <= i < n4l implies s[v3 + 14 + i] == #[trigger] n4[i] by {
        assert(s.subrange(v3 + 14, v4)[i] == n4[i]);
    }
    assert forall|i: int| 0 <= i < 4 implies s[v4 + i] == #[trigger] b4[i] by {
        assert(s.subrange(v4, v4 + 4)[i] == b4[i]);
    }
    assert(b3[6] == '"' && b3[11] == '"' && b3[12] == ':' && b3[13] == ' ');
    assert(b4[0] == '\n' && b4[1] == ' ' && b4[2] == ' ' && b4[3] == '}');
    reveal_strlit("USDT");
    let k4 = "USDT"@;
    assert(k4.len() == 4);
    lemma_escape_plain(k4);
    assert forall|i: int| 0 <= i < 6 implies s[v3 + 6 + i] == #[trigger] quoted(k4)[i] by {
        assert(s[v3 + (6 + i)] == b3[6 + i]);
    }
    lemma_scan_string_at(s, v3 + 6, k4);
    assert(s[v3 + 12] == ':');
    lemma_space_run_exact(s, v3 + 12, v3 + 12);
    assert(is_digit(n4[0]) && s[v3 + 14] == n4[0]);
    lemma_space_run_exact(s, v3 + 13, v3 + 14);
    assert(s[v4] == '\n' && s[v4 + 1] == ' ' && s[v4 + 2] == ' ' && s[v4 + 3] == '}');
    lemma_scan_number_at(s, v3 + 14, a.usdt);
    lemma_space_run_exact(s, v4, v4 + 3);
}

/// The rendered allocation object, followed by a comma, parses back to
/// exactly its weights.
#[verifier::rlimit(100)]
proof fn lemma_parse_alloc_at(s: Seq<char>, pos: int, a: PortfolioAllocation)
    requires
        0 <= pos,
        pos + spec_alloc_json(a).len() < s.len(),
        forall|i: int|
            0 <= i < spec_alloc_json(a).len() ==> s[pos + i] == #[trigger] spec_alloc_json(a)[i],
        s[pos + spec_alloc_json(a).len()] == ',',
    ensures
        spec_parse_alloc(s, pos) == Some((a, pos + spec_alloc_json(a).len())),
{
    let v1 = pos + 18 + format_scaled(a.btc_usdt).len() as int;
    let v2 = v1 + 18 + format_scaled(a.eth_usdt).len() as int;
    let v3 = v2 + 18 + format_scaled(a.ltc_usdt).len() as int;
    let v4 = v3 + 14 + format_scaled(a.usdt).len() as int;
    lemma_alloc_pieces(s, pos, a);
    lemma_alloc_m1(s, pos, a);
    lemma_alloc_m2(s, pos, a);
    lemma_alloc_m3(s, pos, a);
    lemma_alloc_m4(s, pos, a);
    assert(s[pos] == '{') by {
        reveal_strlit("{\n    \"BTC_USDT\": ");
        assert(s.subrange(pos, pos + 18)[0] == "{\n    \"BTC_USDT\": "@[0]);
    }
    reveal_strlit("BTC_USDT");
    reveal_strlit("ETH_USDT");
    reveal_strlit("LTC_USDT");
    reveal_strlit("USDT");
    let k1 = "BTC_USDT"@;
    let k2 = "ETH_USDT"@;
    let k3 = "LTC_USDT"@;
    let k4 = "USDT"@;
    assert(k1[0] == 'B' && k2[0] == 'E' && k3[0] == 'L');
    assert(k1.len() == 8 && k2.len() == 8 && k3.len() == 8 && k4.len() == 4);
    assert(k2 != k1 && k3 != k1 && k3 != k2 && k4 != k1 && k4 != k2 && k4 != k3);
    let acc0 = empty_alloc();
    let acc1 = PartialAlloc { btc_usdt: Some(a.btc_usdt), ..acc0 };
    let acc2 = PartialAlloc { eth_usdt: Some(a.eth_usdt), ..acc1 };
    let acc3 = PartialAlloc { ltc_usdt: Some(a.ltc_usdt), ..acc2 };
    let acc4 = PartialAlloc { usdt: Some(a.usdt), ..acc3 };
    assert(spec_alloc_store(acc0, k1, a.btc_usdt) == Some(acc1));
    assert(spec_alloc_store(acc1, k2, a.eth_usdt) == Some(acc2));
    assert(spec_alloc_store(acc2, k3, a.ltc_usdt) == Some(acc3));
    assert(spec_alloc_store(acc3, k4, a.usdt) == Some(acc4));
    assert(spec_alloc_members(s, pos + 6, 4, acc0) == spec_alloc_members(s, v1 + 6, 3, acc1));
    assert(spec_alloc_members(s, v1 + 6, 3, acc1) == spec_alloc_members(s, v2 + 6, 2, acc2));
    assert(spec_alloc_members(s, v2 + 6, 2, acc2) == spec_alloc_members(s, v3 + 6, 1, acc3));
    assert(spec_alloc_members(s, v3 + 6, 1, acc3) == Some((acc4, v4 + 4)));
    assert(spec_parse_alloc(s, pos) == Some(
        (
            PortfolioAllocation {
                btc_usdt: a.btc_usdt,
                eth_usdt: a.eth_usdt,
                ltc_usdt: a.ltc_usdt,
                usdt: a.usdt,
            },
            v4 + 4,
        ),
    ));
    assert(a == PortfolioAllocation {
        btc_usdt: a.btc_usdt,
        eth_usdt: a.eth_usdt,
        ltc_usdt: a.ltc_usdt,
        usdt: a.usdt,
    });
}

/// Where each component of the rendered configuration text sits.
#[verifier::rlimit(100)]
proof fn lemma_config_json_pieces(c: ConfigV)
    ensures
        ({
            let s = spec_config_json(c);
            let q1l = quoted(c.api_key).len() as int;
            let q2l = quoted(c.api_secret).len() as int;
            let all = spec_alloc_json(c.portfolio_allocation).len() as int;
            let n5l = format_scaled(c.rebalance_threshold).len() as int;
            let n6l = format_scaled(c.min_usdt_inflow).len() as int;
            let v1 = 15 + q1l;
            let v2 = v1 + 18 + q2l;
            let v3 = v2 + 28 + all;
            let v4 = v3 + 27 + n5l;
            let v5 = v4 + 23 + n6l;
            &&& s.len() == 113 + q1l + q2l + all + n5l + n6l
            &&& s.subrange(0, 15) == "{\n  \"api_key\": "@
            &&& s.subrange(15, v1) == quoted(c.api_key)
            &&& s.subrange(v1, v1 + 18) == ",\n  \"api_secret\": "@
            &&& s.subrange(v1 + 18, v2) == quoted(c.api_secret)
            &&& s.subrange(v2, v2 + 28) == ",\n  \"portfolio_allocation\": "@
            &&& s.subrange(v2 + 28, v3) == spec_alloc_json(c.portfolio_allocation)
            &&& s.subrange(v3, v3 + 27) == ",\n  \"rebalance_threshold\": "@
            &&& s.subrange(v3 + 27, v4) == format_scaled(c.rebalance_threshold)
            &&& s.subrange(v4, v4 + 23) == ",\n  \"min_usdt_inflow\": "@
            &&& s.subrange(v4 + 23, v5) == format_scaled(c.min_usdt_inflow)
            &&& s.subrange(v5, v5 + 2) == "\n}"@
        }),
{
    let s = spec_config_json(c);
    reveal_strlit("{\n  \"api_key\": ");
    reveal_strlit(",\n  \"api_secret\": ");
    reveal_strlit(",\n  \"portfolio_allocation\": ");
    reveal_strlit(",\n  \"rebalance_threshold\": ");
    reveal_strlit(",\n  \"min_usdt_inflow\": ");
    reveal_strlit("\n}");
    let q1l = quoted(c.api_key).len() as int;
    let q2l = quoted(c.api_secret).len() as int;
    let all = spec_alloc_json(c.portfolio_allocation).len() as int;
    let n5l = format_scaled(c.rebalance_threshold).len() as int;
    let n6l = format_scaled(c.min_usdt_inflow).len() as int;
    let v1 = 15 + q1l;
    let v2 = v1 + 18 + q2l;
    let v3 = v2 + 28 + all;
    let v4 = v3 + 27 + n5l;
    let v5 = v4 + 23 + n6l;
    assert(s.len() == 113 + q1l + q2l + all + n5l + n6l);
    assert(s.subrange(0, 15) =~= "{\n  \"api_key\": "@);
    assert(s.subrange(15, v1) =~= quoted(c.api_key));
    assert(s.subrange(v1, v1 + 18) =~= ",\n  \"api_secret\": "@);
    assert(s.subrange(v1 + 18, v2) =~= quoted(c.api_secret));
    assert(s.subrange(v2, v2 + 28) =~= ",\n  \"portfolio_allocation\": "@);
    assert(s.subrange(v2 + 28, v3) =~= spec_alloc_json(c.portfolio_allocation));
    assert(s.subrange(v3, v3 + 27) =~= ",\n  \"rebalance_threshold\": "@);
    assert(s.subrange(v3 + 27, v4) =~= format_scaled(c.rebalance_threshold));
    assert(s.subrange(v4, v4 + 23) =~= ",\n  \"min_usdt_inflow\": "@);
    assert(s.subrange(v4 + 23, v5) =~= format_scaled(c.min_usdt_inflow));
    assert(s.subrange(v5, v5 + 2) =~= "\n}"@);
}

/// Members one and two of the rendered text, scanned back.
#[verifier::rlimit(100)]
proof fn lemma_rt_head(c: ConfigV)
    ensures
        ({
            let s = spec_config_json(c);
            let v1 = 15 + quoted(c.api_key).len() as int;
            let v2 = v1 + 18 + quoted(c.api_secret).len() as int;
            &&& space_run_end(s, 0) == 0
            &&& 0 < s.len() && s[0] == '{'
            &&& space_run_end(s, 1) == 4
            &&& spec_scan_string(s, 4) == Some(("api_key"@, 13int))
            &&& 13 < s.len() && s[13] == ':'
            &&& space_run_end(s, 13) == 13
            &&& space_run_end(s, 14) == 15
            &&& spec_scan_string(s, 15) == Some((c.api_key, v1))
            &&& v1 < s.len() && s[v1] == ','
            &&& space_run_end(s, v1) == v1
            &&& space_run_end(s, v1 + 1) == v1 + 4
            &&& spec_scan_string(s, v1 + 4) == Some(("api_secret"@, v1 + 16))
            &&& v1 + 16 < s.len() && s[v1 + 16] == ':'
            &&& space_run_end(s, v1 + 16) == v1 + 16
            &&& space_run_end(s, v1 + 17) == v1 + 18
            &&& spec_scan_string(s, v1 + 18) == Some((c.api_secret, v2))
            &&& v2 < s.len() && s[v2] == ','
            &&& space_run_end(s, v2) == v2
            &&& space_run_end(s, v2 + 1) == v2 + 4
        }),
{
    let s = spec_config_json(c);
    let a1 = "{\n  \"api_key\": "@;
    let a2 = ",\n  \"api_secret\": "@;
    let a3 = ",\n  \"portfolio_allocation\": "@;
    reveal_strlit("{\n  \"api_key\": ");
    reveal_strlit(",\n  \"api_secret\": ");
    reveal_strlit(",\n  \"portfolio_allocation\": ");
    let q1 = quoted(c.api_key);
    let q2 = quoted(c.api_secret);
    let q1l = q1.len() as int;
    let q2l = q2.len() as int;
    let v1 = 15 + q1l;
    let v2 = v1 + 18 + q2l;
    lemma_config_json_pieces(c);
    assert forall|i: int| 0 <= i < 15 implies s[i] == #[trigger] a1[i] by {
        assert(s.subrange(0, 15)[i] == a1[i]);
    }
    assert forall|i: int| 0 <= i < q1l implies s[15 + i] == #[trigger] q1[i] by {
        assert(s.subrange(15, v1)[i] == q1[i]);
    }
    assert forall|i: int| 0 <= i < 18 implies s[v1 + i] == #[trigger] a2[i] by {
        assert(s.subrange(v1, v1 + 18)[i] == a2[i]);
    }
    assert forall|i: int| 0 <= i < q2l implies s[v1 + 18 + i] == #[trigger] q2[i] by {
        assert(s.subrange(v1 + 18, v2)[i] == q2[i]);
    }
    assert(s[v2] == a3[0]) by {
        assert(s.subrange(v2, v2 + 28)[0] == a3[0]);
    }
    assert(a1[0] == '{' && a1[1] == '\n' && a1[2] == ' ' && a1[3] == ' ' && a1[4] == '"' && a1[12]
        == '"' && a1[13] == ':' && a1[14] == ' ');
    assert(a2[0] == ',' && a2[1] == '\n' && a2[2] == ' ' && a2[3] == ' ' && a2[4] == '"' && a2[15]
        == '"' && a2[16] == ':' && a2[17] == ' ');
    assert(a3[0] == ',');
    reveal_strlit("api_key");
    reveal_strlit("api_secret");
    let k1 = "api_key"@;
    let k2 = "api_secret"@;
    assert(k1.len() == 7 && k2.len() == 10);
    lemma_escape_plain(k1);
    lemma_escape_plain(k2);
    assert(s[0] == '{');
    lemma_space_run_exact(s, 0, 0);
    lemma_space_run_exact(s, 1, 4);
    assert forall|i: int| 0 <= i < 9 implies s[4 + i] == #[trigger] quoted(k1)[i] by {
        assert(s[4 + i] == a1[4 + i]);
    }
    lemma_scan_string_at(s, 4, k1);
    assert(s[13] == ':');
    lemma_space_run_exact(s, 13, 13);
    assert(s[15] == q1[0] && q1[0] == '"');
    lemma_space_run_exact(s, 14, 15);
    lemma_scan_string_at(s, 15, c.api_key);
    assert(s[v1] == ',');
    lemma_space_run_exact(s, v1, v1);
    lemma_space_run_exact(s, v1 + 1, v1 + 4);
    assert forall|i: int| 0 <= i < 12 implies s[v1 + 4 + i] == #[trigger] quoted(k2)[i] by {
        assert(s[v1 + (4 + i)] == a2[4 + i]);
    }
    lemma_scan_string_at(s, v1 + 4, k2);
    assert(s[v1 + 16] == ':');
    lemma_space_run_exact(s, v1 + 16, v1 + 16);
    assert(s[v1 + 18] == q2[0] && q2[0] == '"');
    lemma_space_run_exact(s, v1 + 17, v1 + 18);
    lemma_scan_string_at(s, v1 + 18, c.api_secret);
    lemma_space_run_exact(s, v2, v2);
    lemma_space_run_exact(s, v2 + 1, v2 + 4);
}

/// Member three of the rendered text: the allocation object, scanned back.
#[verifier::rlimit(100)]
proof fn lemma_rt_member3(c: ConfigV)
    ensures
        ({
            let s = spec_config_json(c);
            let v2 = 33 + quoted(c.api_key).len() as int + quoted(c.api_secret).len() as int;
            let v3 = v2 + 28 + spec_alloc_json(c.portfolio_allocation).len() as int;
            &&& spec_scan_string(s, v2 + 4) == Some(("portfolio_allocation"@, v2 + 26))
            &&& v2 + 26 < s.len() && s[v2 + 26] == ':'
            &&& space_run_end(s, v2 + 26) == v2 + 26
            &&& space_run_end(s, v2 + 27) == v2 + 28
            &&& spec_parse_alloc(s, v2 + 28) == Some((c.portfolio_allocation, v3))
            &&& v3 < s.len() && s[v3] == ','
            &&& space_run_end(s, v3) == v3
            &&& space_run_end(s, v3 + 1) == v3 + 4
        }),
{
    let s = spec_config_json(c);
    let a3 = ",\n  \"portfolio_allocation\": "@;
    let a4 = ",\n  \"rebalance_threshold\": "@;
    reveal_strlit(",\n  \"portfolio_allocation\": ");
    reveal_strlit(",\n  \"rebalance_threshold\": ");
    let al = spec_alloc_json(c.portfolio_allocation);
    let all = al.len() as int;
    let v2 = 33 + quoted(c.api_key).len() as int + quoted(c.api_secret).len() as int;
    let v3 = v2 + 28 + all;
    lemma_config_json_pieces(c);
    assert forall|i: int| 0 <= i < 28 implies s[v2 + i] == #[trigger] a3[i] by {
        assert(s.subrange(v2, v2 + 28)[i] == a3[i]);
    }
    assert forall|i: int| 0 <= i < all implies s[v2 + 28 + i] == #[trigger] al[i] by {
        assert(s.subrange(v2 + 28, v3)[i] == al[i]);
    }
    assert forall|i: int| 0 <= i < 4 implies s[v3 + i] == #[trigger] a4[i] by {
        assert(s.subrange(v3, v3 + 27)[i] == a4[i]);
    }
    assert(a3[0] == ',' && a3[1] == '\n' && a3[2] == ' ' && a3[3] == ' ' && a3[4] == '"' && a3[25]
        == '"' && a3[26] == ':' && a3[27] == ' ');
    assert(a4[0] == ',' && a4[1] == '\n' && a4[2] == ' ' && a4[3] == ' ');
    reveal_strlit("portfolio_allocation");
    let k3 = "portfolio_allocation"@;
    assert(k3.len() == 20);
    lemma_escape_plain(k3);
    assert forall|i: int| 0 <= i < 22 implies s[v2 + 4 + i] == #[trigger] quoted(k3)[i] by {
        assert(s[v2 + (4 + i)] == a3[4 + i]);
    }
    lemma_scan_string_at(s, v2 + 4, k3);
    assert(s[v2 + 26] == ':');
    lemma_space_run_exact(s, v2 + 26, v2 + 26);
    assert(s[v2 + 28] == al[0]);
    assert(al[0] == '{') by {
        reveal_strlit("{\n    \"BTC_USDT\": ");
        assert(al[0] == "{\n    \"BTC_USDT\": "@[0]);
    }
    lemma_space_run_exact(s, v2 + 27, v2 + 28);
    assert(s[v3] == ',');
    lemma_parse_alloc_at(s, v2 + 28, c.portfolio_allocation);
    lemma_space_run_exact(s, v3, v3);
    lemma_space_run_exact(s, v3 + 1, v3 + 4);
}

/// Member four of the rendered text: the threshold, scanned back.
#[verifier::rlimit(100)]
proof fn lemma_rt_member4(c: ConfigV)
    ensures
        ({
            let s = spec_config_json(c);
            let v2 = 33 + quoted(c.api_key).len() as int + quoted(c.api_secret).len() as int;
            let v3 = v2 + 28 + spec_alloc_json(c.portfolio_allocation).len() as int;
            let v4 = v3 + 27 + format_scaled(c.rebalance_threshold).len() as int;
            &&& spec_scan_string(s, v3 + 4) == Some(("rebalance_threshold"@, v3 + 25))
            &&& v3 + 25 < s.len() && s[v3 + 25] == ':'
            &&& space_run_end(s, v3 + 25) == v3 + 25
            &&& space_run_end(s, v3 + 26) == v3 + 27
            &&& spec_scan_number(s, v3 + 27) == Some((c.rebalance_threshold, v4))
            &&& v4 < s.len() && s[v4] == ','
            &&& space_run_end(s, v4) == v4
            &&& space_run_end(s, v4 + 1) == v4 + 4
        }),
{
    let s = spec_config_json(c);
    let a4 = ",\n  \"rebalance_threshold\": "@;
    let a5 = ",\n  \"min_usdt_inflow\": "@;
    reveal_strlit(",\n  \"rebalance_threshold\": ");
    reveal_strlit(",\n  \"min_usdt_inflow\": ");
    let n5 = format_scaled(c.rebalance_threshold);
    crate::num::lemma_format_scaled(c.rebalance_threshold);
    let n5l = n5.len() as int;
    let v2 = 33 + quoted(c.api_key).len() as int + quoted(c.api_secret).len() as int;
    let v3 = v2 + 28 + spec_alloc_json(c.portfolio_allocation).len() as int;
    let v4 = v3 + 27 + n5l;
    lemma_config_json_pieces(c);
    assert forall|i: int| 0 <= i < 27 implies s[v3 + i] == #[trigger] a4[i] by {
        assert(s.subrange(v3, v3 + 27)[i] == a4[i]);
    }
    assert forall|i: int| 0 <= i < n5l implies s[v3 + 27 + i] == #[trigger] n5[i] by {
        assert(s.subrange(v3 + 27, v4)[i] == n5[i]);
    }
    assert forall|i: int| 0 <= i < 4 implies s[v4 + i] == #[trigger] a5[i] by {
        assert(s.subrange(v4, v4 + 23)[i] == a5[i]);
    }
    assert(a4[0] == ',' && a4[1] == '\n' && a4[2] == ' ' && a4[3] == ' ' && a4[4] == '"' && a4[24]
        == '"' && a4[25] == ':' && a4[26] == ' ');
    assert(a5[0] == ',' && a5[1] == '\n' && a5[2] == ' ' && a5[3] == ' ');
    reveal_strlit("rebalance_threshold");
    let k4 = "rebalance_threshold"@;
    assert(k4.len() == 19);
    lemma_escape_plain(k4);
    assert forall|i: int| 0 <= i < 21 implies s[v3 + 4 + i] == #[trigger] quoted(k4)[i] by {
        assert(s[v3 + (4 + i)] == a4[4 + i]);
    }
    lemma_scan_string_at(s, v3 + 4, k4);
    assert(s[v3 + 25] == ':');
    lemma_space_run_exact(s, v3 + 25, v3 + 25);
    assert(is_digit(n5[0]) && s[v3 + 27] == n5[0]);
    lemma_space_run_exact(s, v3 + 26, v3 + 27);
    assert(s[v4] == ',');
    lemma_scan_number_at(s, v3 + 27, c.rebalance_threshold);
    lemma_space_run_exact(s, v4, v4);
    lemma_space_run_exact(s, v4 + 1, v4 + 4);
}

/// Member five of the rendered text and the closing brace, scanned back.
#[verifier::rlimit(100)]
proof fn lemma_rt_member5(c: ConfigV)
    ensures
        ({
            let s = spec_config_json(c);
            let v2 = 33 + quoted(c.api_key).len() as int + quoted(c.api_secret).len() as int;
            let v3 = v2 + 28 + spec_alloc_json(c.portfolio_allocation).len() as int;
            let v4 = v3 + 27 + format_scaled(c.rebalance_threshold).len() as int;
            let v5 = v4 + 23 + format_scaled(c.min_usdt_inflow).len() as int;
            &&& s.len() == v5 + 2
            &&& spec_scan_string(s, v4 + 4) == Some(("min_usdt_inflow"@, v4 + 21))
            &&& v4 + 21 < s.len() && s[v4 + 21] == ':'
            &&& space_run_end(s, v4 + 21) == v4 + 21
            &&& space_run_end(s, v4 + 22) == v4 + 23
            &&& spec_scan_number(s, v4 + 23) == Some((c.min_usdt_inflow, v5))
            &&& space_run_end(s, v5) == v5 + 1
            &&& v5 + 1 < s.len() && s[v5 + 1] == '}'
            &&& space_run_end(s, v5 + 2) == s.len()
        }),
{
    let s = spec_config_json(c);
    let a5 = ",\n  \"min_usdt_inflow\": "@;
    let a6 = "\n}"@;
    reveal_strlit(",\n  \"min_usdt_inflow\": ");
    reveal_strlit("\n}");
    let n6 = format_scaled(c.min_usdt_inflow);
    crate::num::lemma_format_scaled(c.min_usdt_inflow);
    let n6l = n6.len() as int;
    let v2 = 33 + quoted(c.api_key).len() as int + quoted(c.api_secret).len() as int;
    let v3 = v2 + 28 + spec_alloc_json(c.portfolio_allocation).len() as int;
    let v4 = v3 + 27 + format_scaled(c.rebalance_threshold).len() as int;
    let v5 = v4 + 23 + n6l;
    lemma_config_json_pieces(c);
    assert forall|i: int| 0 <= i < 23 implies s[v4 + i] == #[trigger] a5[i] by {
        assert(s.subrange(v4, v4 + 23)[i] == a5[i]);
    }
    assert forall|i: int| 0 <= i < n6l implies s[v4 + 23 + i] == #[trigger] n6[i] by {
        assert(s.subrange(v4 + 23, v5)[i] == n6[i]);
    }
    assert forall|i: int| 0 <= i < 2 implies s[v5 + i] == #[trigger] a6[i] by {
        assert(s.subrange(v5, v5 + 2)[i] == a6[i]);
    }
    assert(a5[0] == ',' && a5[1] == '\n' && a5[2] == ' ' && a5[3] == ' ' && a5[4] == '"' && a5[20]
        == '"' && a5[21] == ':' && a5[22] == ' ');
    assert(a6[0] == '\n' && a6[1] == '}');
    reveal_strlit("min_usdt_inflow");
    let k5 = "min_usdt_inflow"@;
    assert(k5.len() == 15);
    lemma_escape_plain(k5);
    assert forall|i: int| 0 <= i < 17 implies s[v4 + 4 + i] == #[trigger] quoted(k5)[i] by {
        assert(s[v4 + (4 + i)] == a5[4 + i]);
    }
    lemma_scan_string_at(s, v4 + 4, k5);
    assert(s[v4 + 21] == ':');
    lemma_space_run_exact(s, v4 + 21, v4 + 21);
    assert(is_digit(n6[0]) && s[v4 + 23] == n6[0]);
    lemma_space_run_exact(s, v4 + 22, v4 + 23);
    assert(s[v5] == '\n' && s[v5 + 1] == '}');
    lemma_scan_number_at(s, v4 + 23, c.min_usdt_inflow);
    lemma_space_run_exact(s, v5, v5 + 1);
    assert(space_run_end(s, v5 + 2) == s.len());
}



/// The first configuration member advances the member scan by one step.
#[verifier::rlimit(100)]
proof fn lemma_rt_step1(c: ConfigV)
    ensures
        ({
            let s = spec_config_json(c);
            let v1 = 15 + quoted(c.api_key).len() as int;
            spec_config_members(s, 4, 5, empty_partial_config()) == spec_config_members(
                s,
                v1 + 4,
                4,
                PartialConfigV { api_key: Some(c.api_key), ..empty_partial_config() },
            )
        }),
{
    let s = spec_config_json(c);
    let v1 = 15 + quoted(c.api_key).len() as int;
    lemma_rt_head(c);
    reveal_strlit("api_key");
    let k1 = "api_key"@;
    let acc0 = empty_partial_config();
    let acc1 = PartialConfigV { api_key: Some(c.api_key), ..acc0 };
    assert(spec_config_store(s, 15, acc0, k1) == Some((acc1, v1)));
    assert(spec_config_members(s, 4, 5, acc0) == spec_config_members(s, v1 + 4, 4, acc1));
}

/// The second configuration member advances the member scan by one step.
#[verifier::rlimit(100)]
proof fn lemma_rt_step2(c: ConfigV)
    ensures
        ({
            let s = spec_config_json(c);
            let v1 = 15 + quoted(c.api_key).len() as int;
            let v2 = v1 + 18 + quoted(c.api_secret).len() as int;
            let acc1 = PartialConfigV { api_key: Some(c.api_key), ..empty_partial_config() };
            spec_config_members(s, v1 + 4, 4, acc1) == spec_config_members(
                s,
                v2 + 4,
                3,
                PartialConfigV { api_secret: Some(c.api_secret), ..acc1 },
            )
        }),
{
    let s = spec_config_json(c);
    let v1 = 15 + quoted(c.api_key).len() as int;
    let v2 = v1 + 18 + quoted(c.api_secret).len() as int;
    lemma_rt_head(c);
    reveal_strlit("api_key");
    reveal_strlit("api_secret");
    let k1 = "api_key"@;
    let k2 = "api_secret"@;
    assert(k1.len() == 7 && k2.len() == 10);
    assert(k2 != k1);
    let acc1 = PartialConfigV { api_key: Some(c.api_key), ..empty_partial_config() };
    let acc2 = PartialConfigV { api_secret: Some(c.api_secret), ..acc1 };
    assert(spec_config_store(s, v1 + 18, acc1, k2) == Some((acc2, v2)));
    assert(spec_config_members(s, v1 + 4, 4, acc1) == spec_config_members(s, v2 + 4, 3, acc2));
}

/// The third configuration member advances the member scan by one step.
#[verifier::rlimit(100)]
proof fn lemma_rt_step3(c: ConfigV)
    ensures
        ({
            let s = spec_config_json(c);
            let v1 = 15 + quoted(c.api_key).len() as int;
            let v2 = v1 + 18 + quoted(c.api_secret).len() as int;
            let v3 = v2 + 28 + spec_alloc_json(c.portfolio_allocation).len() as int;
            let acc2 = PartialConfigV {
                api_secret: Some(c.api_secret),
                ..PartialConfigV { api_key: Some(c.api_key), ..empty_partial_config() }
            };
            spec_config_members(s, v2 + 4, 3, acc2) == spec_config_members(
                s,
                v3 + 4,
                2,
                PartialConfigV { portfolio_allocation: Some(c.portfolio_allocation), ..acc2 },
            )
        }),
{
    let s = spec_config_json(c);
    let v1 = 15 + quoted(c.api_key).len() as int;
    let v2 = v1 + 18 + quoted(c.api_secret).len() as int;
    let v3 = v2 + 28 + spec_alloc_json(c.portfolio_allocation).len() as int;
    lemma_rt_member3(c);
    reveal_strlit("api_key");
    reveal_strlit("api_secret");
    reveal_strlit("portfolio_allocation");
    let k1 = "api_key"@;
    let k2 = "api_secret"@;
    let k3 = "portfolio_allocation"@;
    assert(k1.len() == 7 && k2.len() == 10 && k3.len() == 20);
    assert(k3 != k1 && k3 != k2);
    let acc2 = PartialConfigV {
        api_secret: Some(c.api_secret),
        ..PartialConfigV { api_key: Some(c.api_key), ..empty_partial_config() }
    };
    let acc3 = PartialConfigV { portfolio_allocation: Some(c.portfolio_allocation), ..acc2 };
    assert(spec_config_store(s, v2 + 28, acc2, k3) == Some((acc3, v3)));
    assert(spec_config_members(s, v2 + 4, 3, acc2) == spec_config_members(s, v3 + 4, 2, acc3));
}

/// The fourth configuration member advances the member scan by one step.
#[verifier::rlimit(100)]
proof fn lemma_rt_step4(c: ConfigV)
    ensures
        ({
            let s = spec_config_json(c);
            let v1 = 15 + quoted(c.api_key).len() as int;
            let v2 = v1 + 18 + quoted(c.api_secret).len() as int;
            let v3 = v2 + 28 + spec_alloc_json(c.portfolio_allocation).len() as int;
            let v4 = v3 + 27 + format_scaled(c.rebalance_threshold).len() as int;
            let acc3 = PartialConfigV {
                portfolio_allocation: Some(c.portfolio_allocation),
                ..PartialConfigV {
                    api_secret: Some(c.api_secret),
                    ..PartialConfigV { api_key: Some(c.api_key), ..empty_partial_config() }
                }
            };
            spec_config_members(s, v3 + 4, 2, acc3) == spec_config_members(
                s,
                v4 + 4,
                1,
                PartialConfigV { rebalance_threshold: Some(c.rebalance_threshold), ..acc3 },
            )
        }),
{
    let s = spec_config_json(c);
    let v1 = 15 + quoted(c.api_key).len() as int;
    let v2 = v1 + 18 + quoted(c.api_secret).len() as int;
    let v3 = v2 + 28 + spec_alloc_json(c.portfolio_allocation).len() as int;
    let v4 = v3 + 27 + format_scaled(c.rebalance_threshold).len() as int;
    lemma_rt_member4(c);
    reveal_strlit("api_key");
    reveal_strlit("api_secret");
    reveal_strlit("portfolio_allocation");
    reveal_strlit("rebalance_threshold");
    let k1 = "api_key"@;
    let k2 = "api_secret"@;
    let k3 = "portfolio_allocation"@;
    let k4 = "rebalance_threshold"@;
    assert(k1.len() == 7 && k2.len() == 10 && k3.len() == 20 && k4.len() == 19);
    assert(k4 != k1 && k4 != k2 && k4 != k3);
    let acc3 = PartialConfigV {
        portfolio_allocation: Some(c.portfolio_allocation),
        ..PartialConfigV {
            api_secret: Some(c.api_secret),
            ..PartialConfigV { api_key: Some(c.api_key), ..empty_partial_config() }
        }
    };
    let acc4 = PartialConfigV { rebalance_threshold: Some(c.rebalance_threshold), ..acc3 };
    assert(spec_config_store(s, v3 + 27, acc3, k4) == Some((acc4, v4)));
    assert(spec_config_members(s, v3 + 4, 2, acc3) == spec_config_members(s, v4 + 4, 1, acc4));
}

/// The fifth configuration member closes the member scan.
#[verifier::rlimit(100)]
proof fn lemma_rt_step5(c: ConfigV)
    ensures
        ({
            let s = spec_config_json(c);
            let v1 = 15 + quoted(c.api_key).len() as int;
            let v2 = v1 + 18 + quoted(c.api_secret).len() as int;
            let v3 = v2 + 28 + spec_alloc_json(c.portfolio_allocation).len() as int;
            let v4 = v3 + 27 + format_scaled(c.rebalance_threshold).len() as int;
            let v5 = v4 + 23 + format_scaled(c.min_usdt_inflow).len() as int;
            let acc4 = PartialConfigV {
                rebalance_threshold: Some(c.rebalance_threshold),
                ..PartialConfigV {
                    portfolio_allocation: Some(c.portfolio_allocation),
                    ..PartialConfigV {
                        api_secret: Some(c.api_secret),
                        ..PartialConfigV { api_key: Some(c.api_key), ..empty_partial_config() }
                    }
                }
            };
            spec_config_members(s, v4 + 4, 1, acc4) == Some(
                (
                    PartialConfigV { min_usdt_inflow: Some(c.min_usdt_inflow), ..acc4 },
                    v5 + 2,
                ),
            )
        }),
{
    let s = spec_config_json(c);
    let v1 = 15 + quoted(c.api_key).len() as int;
    let v2 = v1 + 18 + quoted(c.api_secret).len() as int;
    let v3 = v2 + 28 + spec_alloc_json(c.portfolio_allocation).len() as int;
    let v4 = v3 + 27 + format_scaled(c.rebalance_threshold).len() as int;
    let v5 = v4 + 23 + format_scaled(c.min_usdt_inflow).len() as int;
    lemma_rt_member5(c);
    reveal_strlit("api_key");
    reveal_strlit("api_secret");
    reveal_strlit("portfolio_allocation");
    reveal_strlit("rebalance_threshold");
    reveal_strlit("min_usdt_inflow");
    let k1 = "api_key"@;
    let k2 = "api_secret"@;
    let k3 = "portfolio_allocation"@;
    let k4 = "rebalance_threshold"@;
    let k5 = "min_usdt_inflow"@;
    assert(k1.len() == 7 && k2.len() == 10 && k3.len() == 20 && k4.len() == 19 && k5.len() == 15);
    assert(k5 != k1 && k5 != k2 && k5 != k3 && k5 != k4);
    let acc4 = PartialConfigV {
        rebalance_threshold: Some(c.rebalance_threshold),
        ..PartialConfigV {
            portfolio_allocation: Some(c.portfolio_allocation),
            ..PartialConfigV {
                api_secret: Some(c.api_secret),
                ..PartialConfigV { api_key: Some(c.api_key), ..empty_partial_config() }
            }
        }
    };
    let acc5 = PartialConfigV { min_usdt_inflow: Some(c.min_usdt_inflow), ..acc4 };
    assert(spec_config_store(s, v4 + 23, acc4, k5) == Some((acc5, v5)));
    assert(spec_config_members(s, v4 + 4, 1, acc4) == Some((acc5, v5 + 2)));
}

/// Round trip: the rendered text of any configuration parses back to
/// exactly that configuration, field for field.
#[verifier::rlimit(100)]
pub proof fn lemma_config_round_trip(c: ConfigV)
    ensures
        spec_parse_config(spec_config_json(c)) == Some(c),
{
    let s = spec_config_json(c);
    let v1 = 15 + quoted(c.api_key).len() as int;
    let v2 = v1 + 18 + quoted(c.api_secret).len() as int;
    let v3 = v2 + 28 + spec_alloc_json(c.portfolio_allocation).len() as int;
    let v4 = v3 + 27 + format_scaled(c.rebalance_threshold).len() as int;
    let v5 = v4 + 23 + format_scaled(c.min_usdt_inflow).len() as int;
    lemma_rt_head(c);
    lemma_rt_member5(c);
    lemma_rt_step1(c);
    lemma_rt_step2(c);
    lemma_rt_step3(c);
    lemma_rt_step4(c);
    lemma_rt_step5(c);
    let acc0 = empty_partial_config();
    let acc5 = PartialConfigV {
        min_usdt_inflow: Some(c.min_usdt_inflow),
        ..PartialConfigV {
            rebalance_threshold: Some(c.rebalance_threshold),
            ..PartialConfigV {
                portfolio_allocation: Some(c.portfolio_allocation),
                ..PartialConfigV {
                    api_secret: Some(c.api_secret),
                    ..PartialConfigV { api_key: Some(c.api_key), ..empty_partial_config() }
                }
            }
        }
    };
    assert(spec_config_members(s, 4, 5, acc0) == Some((acc5, v5 + 2)));
    assert(space_run_end(s, v5 + 2) == s.len());
    assert(spec_parse_config(s) == Some(
        ConfigV {
            api_key: c.api_key,
            api_secret: c.api_secret,
            portfolio_allocation: c.portfolio_allocation,
            rebalance_threshold: c.rebalance_threshold,
            min_usdt_inflow: c.min_usdt_inflow,
        },
    ));
    assert(c == ConfigV {
        api_key: c.api_key,
        api_secret: c.api_secret,
        portfolio_allocation: c.portfolio_allocation,
        rebalance_threshold: c.rebalance_threshold,
        min_usdt_inflow: c.min_usdt_inflow,
    });
}

fn push_str(out: &mut Vec<char>, s: &str)
    ensures
        final(out)@ == old(out)@ + s@,
{
    let mut v = chars_of(s);
    out.append(&mut v);
}

fn alloc_json_chars(a: &PortfolioAllocation) -> (r: Vec<char>)
    ensures
        r@ == spec_alloc_json(*a),
{
    let mut out: Vec<char> = Vec::new();
    push_str(&mut out, "{\n    \"BTC_USDT\": ");
    push_scaled(a.btc_usdt, &mut out);
    push_str(&mut out, ",\n    \"ETH_USDT\": ");
    push_scaled(a.eth_usdt, &mut out);
    push_str(&mut out, ",\n    \"LTC_USDT\": ");
    push_scaled(a.ltc_usdt, &mut out);
    push_str(&mut out, ",\n    \"USDT\": ");
    push_scaled(a.usdt, &mut out);
    push_str(&mut out, "\n  }");
    proof {
        assert(out@ =~= spec_alloc_json(*a));
    }
    out
}

/// Renders a configuration as the text of its file.
pub fn config_json_chars(c: &Config) -> (r: Vec<char>)
    ensures
        r@ == spec_config_json(c@),
{
    let mut out: Vec<char> = Vec::new();
    push_str(&mut out, "{\n  \"api_key\": ");
    push_quoted(&chars_of(c.api_key.as_str()), &mut out);
    push_str(&mut out, ",\n  \"api_secret\": ");
    push_quoted(&chars_of(c.api_secret.as_str()), &mut out);
    push_str(&mut out, ",\n  \"portfolio_allocation\": ");
    let mut alloc = alloc_json_chars(&c.portfolio_allocation);
    out.append(&mut alloc);
    push_str(&mut out, ",\n  \"rebalance_threshold\": ");
    push_scaled(c.rebalance_threshold, &mut out);
    push_str(&mut out, ",\n  \"min_usdt_inflow\": ");
    push_scaled(c.min_usdt_inflow, &mut out);
    push_str(&mut out, "\n}");
    proof {
        assert(out@ =~= spec_config_json(c@));
    }
    out
}

} // verus!
