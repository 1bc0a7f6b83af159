use vstd::prelude::*;
use vstd::string::*;
use crate::models::RawSpot;

verus! {

// The feed announces a spot on a line of the shape
//
//     DX de <spotter>:  <kHz>  <target>  <mode>  <snr> dB  <wpm> WPM ...
//
// The spotter token ends in a colon; the frequency is digits with an
// optional decimal point; SNR and speed are plain integers; whatever follows
// `WPM` is ignored.  Any line that does not carry the whole shape yields no
// observation and no error.  Whitespace and the character classes below are
// the ASCII ones.

/// Largest whole-kilohertz part a frequency may carry so that its value in
/// thousandths of a kilohertz still fits a `u64`.
pub const FREQ_INT_MAX: u64 = 18446744073709550;

pub open spec fn is_space(c: char) -> bool {
    c == ' ' || c == '\t' || c == '\r' || c == '\n' || c == '\u{000B}' || c == '\u{000C}'
}

pub open spec fn is_digit(c: char) -> bool {
    ('0' as u32) <= (c as u32) && (c as u32) <= ('9' as u32)
}

pub open spec fn is_word(c: char) -> bool {
    is_digit(c) || (('a' as u32) <= (c as u32) && (c as u32) <= ('z' as u32)) || (('A' as u32)
        <= (c as u32) && (c as u32) <= ('Z' as u32)) || c == '_'
}

pub open spec fn space_pred() -> spec_fn(char) -> bool {
    |c: char| is_space(c)
}

pub open spec fn nonspace_pred() -> spec_fn(char) -> bool {
    |c: char| !is_space(c)
}

pub open spec fn digit_pred() -> spec_fn(char) -> bool {
    |c: char| is_digit(c)
}

pub open spec fn word_pred() -> spec_fn(char) -> bool {
    |c: char| is_word(c)
}

/// First position at or after `i` where `p` stops holding (or the end).
pub open spec fn run_end(s: Seq<char>, i: int, p: spec_fn(char) -> bool) -> int
    decreases s.len() - i,
{
    if i < 0 || i >= s.len() {
        i
    } else if p(s[i]) {
        run_end(s, i + 1, p)
    } else {
        i
    }
}

pub open spec fn digit_val(c: char) -> int {
    (c as u32) - ('0' as u32)
}

/// Value of a run of decimal digits.
pub open spec fn digits_val(s: Seq<char>) -> int
    decreases s.len(),
{
    if s.len() == 0 {
        0
    } else {
        digits_val(s.drop_last()) * 10 + digit_val(s.last())
    }
}

pub open spec fn pow10(n: nat) -> int
    decreases n,
{
    if n == 0 {
        1
    } else {
        10 * pow10((n - 1) as nat)
    }
}

proof fn lemma_digits_val_lt_pow10(s: Seq<char>)
    requires
        forall|k: int| 0 <= k < s.len() ==> is_digit(#[trigger] s[k]),
    ensures
        0 <= digits_val(s) < pow10(s.len()),
    decreases s.len(),
{
    if s.len() > 0 {
        let rest = s.drop_last();
        assert(forall|k: int| 0 <= k < rest.len() ==> #[trigger] rest[k] == s[k]);
        lemma_digits_val_lt_pow10(rest);
        assert(s.last() == s[s.len() - 1]);
        assert(0 <= digit_val(s.last()) <= 9);
        assert(pow10(s.len()) == 10 * pow10(rest.len()));
    }
}

/// A longer run of digits never has a smaller value.
proof fn lemma_digits_val_grows(s: Seq<char>, m: int)
    requires
        0 <= m <= s.len(),
        forall|k: int| 0 <= k < s.len() ==> is_digit(#[trigger] s[k]),
    ensures
        0 <= digits_val(s.take(m)) <= digits_val(s),
    decreases s.len(),
{
    lemma_digits_val_lt_pow10(s);
    if m < s.len() {
        let rest = s.drop_last();
        assert(forall|k: int| 0 <= k < rest.len() ==> #[trigger] rest[k] == s[k]);
        assert(s.take(m) =~= rest.take(m));
        lemma_digits_val_grows(rest, m);
        lemma_digits_val_lt_pow10(rest);
        assert(s.last() == s[s.len() - 1]);
        assert(digits_val(s) == digits_val(rest) * 10 + digit_val(s.last()));
    } else {
        assert(s.take(m) =~= s);
    }
}

/// The fraction of a frequency in thousandths of a kilohertz: the first
/// three digits after the decimal point, padded with zeros; digits past the
/// third carry less than a thousandth and are dropped.
pub open spec fn frac_mkhz(s: Seq<char>) -> int {
    if s.len() >= 3 {
        digits_val(s.take(3))
    } else if s.len() == 2 {
        digits_val(s) * 10
    } else if s.len() == 1 {
        digits_val(s) * 100
    } else {
        0
    }
}

/// The spotter token with its trailing `-`, `#` and `:` characters removed.
pub open spec fn trim_tail(s: Seq<char>) -> Seq<char>
    decreases s.len(),
{
    if s.len() > 0 && (s.last() == '-' || s.last() == '#' || s.last() == ':') {
        trim_tail(s.drop_last())
    } else {
        s
    }
}

/// The fields a well-shaped spot line carries.
pub struct SpotFields {
    pub spotter: Seq<char>,
    pub target: Seq<char>,
    pub mode: Seq<char>,
    pub freq_mkhz: int,
    pub snr: int,
    pub wpm: int,
}

/// A line is eligible only when it starts with exactly this prefix.
pub open spec fn has_dx_prefix(s: Seq<char>) -> bool {
    s.len() >= 6 && s[0] == 'D' && s[1] == 'X' && s[2] == ' ' && s[3] == 'd' && s[4] == 'e'
        && s[5] == ' '
}

/// What one feed line yields: the parsed fields of a spot announcement, or
/// nothing when the line does not carry the full shape.
pub open spec fn parse_line_spec(s: Seq<char>) -> Option<SpotFields> {
    if !has_dx_prefix(s) {
        None
    } else {
        let sp_end = run_end(s, 6, nonspace_pred());
        if sp_end < 8 || s[sp_end - 1] != ':' || sp_end >= s.len() {
            None
        } else {
            let f_start = run_end(s, sp_end, space_pred());
            let f_mid = run_end(s, f_start, digit_pred());
            if f_mid == f_start {
                None
            } else {
                let f_frac = if f_mid < s.len() && s[f_mid] == '.' {
                    f_mid + 1
                } else {
                    f_mid
                };
                let f_end = run_end(s, f_frac, digit_pred());
                if f_end >= s.len() || !is_space(s[f_end]) || digits_val(
                    s.subrange(f_start, f_mid),
                ) > FREQ_INT_MAX as int {
                    None
                } else {
                    let t_start = run_end(s, f_end, space_pred());
                    let t_end = run_end(s, t_start, nonspace_pred());
                    if t_end == t_start || t_end >= s.len() {
                        None
                    } else {
                        let m_start = run_end(s, t_end, space_pred());
                        let m_end = run_end(s, m_start, word_pred());
                        if m_end == m_start || m_end >= s.len() || !is_space(s[m_end]) {
                            None
                        } else {
                            let sn_start = run_end(s, m_end, space_pred());
                            let sn_end = run_end(s, sn_start, digit_pred());
                            if sn_end == sn_start || sn_end >= s.len() || !is_space(s[sn_end])
                                || digits_val(s.subrange(sn_start, sn_end)) > i32::MAX as int {
                                None
                            } else {
                                let db = run_end(s, sn_end, space_pred());
                                if db + 2 >= s.len() || s[db] != 'd' || s[db + 1] != 'B'
                                    || !is_space(s[db + 2]) {
                                    None
                                } else {
                                    let w_start = run_end(s, db + 2, space_pred());
                                    let w_end = run_end(s, w_start, digit_pred());
                                    if w_end == w_start || w_end >= s.len() || !is_space(s[w_end])
                                        || digits_val(s.subrange(w_start, w_end)) > u32::MAX as int {
                                        None
                                    } else {
                                        let wp = run_end(s, w_end, space_pred());
                                        if wp + 3 > s.len() || s[wp] != 'W' || s[wp + 1] != 'P'
                                            || s[wp + 2] != 'M' {
                                            None
                                        } else {
                                            Some(
                                                SpotFields {
                                                    spotter: trim_tail(s.subrange(6, sp_end - 1)),
                                                    target: s.subrange(t_start, t_end),
                                                    mode: s.subrange(m_start, m_end),
                                                    freq_mkhz: digits_val(s.subrange(f_start, f_mid))
                                                        * 1000 + frac_mkhz(s.subrange(f_frac, f_end)),
                                                    snr: digits_val(s.subrange(sn_start, sn_end)),
                                                    wpm: digits_val(s.subrange(w_start, w_end)),
                                                },
                                            )
                                        }
                                    }
                                }
                            }
                        }
                    }
                }
            }
        }
    }
}

/// A line without the `DX de ` prefix yields no observation.
pub proof fn lemma_non_dx_line_yields_none(s: Seq<char>)
    requires
        !has_dx_prefix(s),
    ensures
        parse_line_spec(s) is None,
{
}

/// How an observation corresponds to the fields of its line.
pub open spec fn spot_matches(spot: RawSpot, f: SpotFields) -> bool {
    &&& spot.spotter_callsign@ == f.spotter
    &&& spot.spotted_callsign@ == f.target
    &&& spot.mode@ == f.mode
    &&& spot.frequency_mkhz as int == f.freq_mkhz
    &&& spot.snr as int == f.snr
    &&& spot.wpm as int == f.wpm
}

fn is_space_x(c: char) -> (b: bool)
    ensures
        b == is_space(c),
{
    c == ' ' || c == '\t' || c == '\r' || c == '\n' || c == '\u{000B}' || c == '\u{000C}'
}

fn is_digit_x(c: char) -> (b: bool)
    ensures
        b == is_digit(c),
{
    let u = c as u32;
    ('0' as u32) <= u && u <= ('9' as u32)
}

fn is_word_x(c: char) -> (b: bool)
    ensures
        b == is_word(c),
{
    let u = c as u32;
    (('0' as u32) <= u && u <= ('9' as u32)) || (('a' as u32) <= u && u <= ('z' as u32)) || (('A'
        as u32) <= u && u <= ('Z' as u32)) || c == '_'
}

fn scan_spaces(s: &str, from: usize, n: usize) -> (j: usize)
    requires
        n == s@.len(),
        from <= n,
    ensures
        from <= j <= n,
        j as int == run_end(s@, from as int, space_pred()),
    decreases n - from,
{
    if from == n {
        return from;
    }
    let c = s.get_char(from);
    if is_space_x(c) {
        scan_spaces(s, from + 1, n)
    } else {
        from
    }
}

fn scan_nonspace(s: &str, from: usize, n: usize) -> (j: usize)
    requires
        n == s@.len(),
        from <= n,
    ensures
        from <= j <= n,
        j as int == run_end(s@, from as int, nonspace_pred()),
    decreases n - from,
{
    if from == n {
        return from;
    }
    let c = s.get_char(from);
    if !is_space_x(c) {
        scan_nonspace(s, from + 1, n)
    } else {
        from
    }
}

fn scan_digits(s: &str, from: usize, n: usize) -> (j: usize)
    requires
        n == s@.len(),
        from <= n,
    ensures
        from <= j <= n,
        j as int == run_end(s@, from as int, digit_pred()),
        forall|k: int| from <= k < j ==> is_digit(#[trigger] s@[k]),
    decreases n - from,
{
    if from == n {
        return from;
    }
    let c = s.get_char(from);
    if is_digit_x(c) {
        scan_digits(s, from + 1, n)
    } else {
        from
    }
}

fn scan_word(s: &str, from: usize, n: usize) -> (j: usize)
    requires
        n == s@.len(),
        from <= n,
    ensures
        from <= j <= n,
        j as int == run_end(s@, from as int, word_pred()),
    decreases n - from,
{
    if from == n {
        return from;
    }
    let c = s.get_char(from);
    if is_word_x(c) {
        scan_word(s, from + 1, n)
    } else {
        from
    }
}

/// Value of the digits in `[a, b)`, unless it exceeds `bound`.
fn parse_digits(s: &str, a: usize, b: usize, n: usize, bound: u64) -> (r: Option<u64>)
    requires
        n == s@.len(),
        bound >= 9,
        a <= b <= n,
        forall|k: int| a <= k < b ==> is_digit(#[trigger] s@[k]),
    ensures
        match r {
            Some(v) => v as int == digits_val(s@.subrange(a as int, b as int)) && v <= bound,
            None => digits_val(s@.subrange(a as int, b as int)) > bound,
        },
{
    let mut acc: u64 = 0;
    let mut k: usize = a;
    proof {
        assert(s@.subrange(a as int, a as int) =~= Seq::<char>::empty());
    }
    while k < b
        invariant
            n == s@.len(),
            bound >= 9,
            a <= k <= b <= n,
            forall|q: int| a <= q < b ==> is_digit(#[trigger] s@[q]),
            acc as int == digits_val(s@.subrange(a as int, k as int)),
            acc <= bound,
        decreases b - k,
    {
        let c = s.get_char(k);
        proof {
            assert(is_digit(s@[k as int]));
        }
        let d: u64 = ((c as u32) - ('0' as u32)) as u64;
        if acc > (bound - d) / 10 {
            proof {
                let whole = s@.subrange(a as int, b as int);
                let part = s@.subrange(a as int, k + 1);
                assert(part.drop_last() =~= s@.subrange(a as int, k as int));
                assert(part.last() == s@[k as int]);
                assert(digits_val(part) == acc * 10 + d);
                assert(acc * 10 + d > bound) by {
                    assert(acc >= (bound - d) / 10 + 1);
                    assert((bound - d) / 10 * 10 + (bound - d) % 10 == bound - d);
                };
                assert(forall|q: int| 0 <= q < whole.len() ==> is_digit(#[trigger] whole[q]));
                lemma_digits_val_grows(whole, k + 1 - a);
                assert(whole.take(k + 1 - a) =~= part);
            }
            return None;
        }
        proof {
            let part = s@.subrange(a as int, k + 1);
            assert(part.drop_last() =~= s@.subrange(a as int, k as int));
            assert(part.last() == s@[k as int]);
            assert(acc * 10 + d <= bound) by {
                assert(acc <= (bound - d) / 10);
                assert((bound - d) / 10 * 10 + (bound - d) % 10 == bound - d);
            };
        }
        acc = acc * 10 + d;
        k += 1;
    }
    Some(acc)
}

fn trim_end_idx(s: &str, lo: usize, e: usize, n: usize) -> (r: usize)
    requires
        n == s@.len(),
        lo <= e <= n,
    ensures
        lo <= r <= e,
        s@.subrange(lo as int, r as int) == trim_tail(s@.subrange(lo as int, e as int)),
    decreases e,
{
    if e == lo {
        proof {
            assert(s@.subrange(lo as int, e as int) =~= Seq::<char>::empty());
        }
        return e;
    }
    let c = s.get_char(e - 1);
    proof {
        assert(s@.subrange(lo as int, e as int).last() == s@[e - 1]);
    }
    if c == '-' || c == '#' || c == ':' {
        proof {
            assert(s@.subrange(lo as int, e as int).drop_last() =~= s@.subrange(
                lo as int,
                e - 1,
            ));
        }
        trim_end_idx(s, lo, e - 1, n)
    } else {
        e
    }
}

/// Parse one feed line.  An observation comes back exactly when the line
/// carries the full spot shape; any other line yields nothing.
#[verifier::rlimit(100)]
pub fn parse_spot_line(line: &str) -> (r: Option<RawSpot>)
    ensures
        r is Some <==> parse_line_spec(line@) is Some,
        r matches Some(spot) ==> (parse_line_spec(line@) matches Some(f) && spot_matches(
            spot,
            f,
        )),
{
    let n = line.unicode_len();
    if n < 6 {
        return None;
    }
    if !(line.get_char(0) == 'D' && line.get_char(1) == 'X' && line.get_char(2) == ' '
        && line.get_char(3) == 'd' && line.get_char(4) == 'e' && line.get_char(5) == ' ') {
        return None;
    }
    let sp_end = scan_nonspace(line, 6, n);
    if sp_end < 8 {
        return None;
    }
    if !(line.get_char(sp_end - 1) == ':') {
        return None;
    }
    if sp_end >= n {
        return None;
    }
    let f_start = scan_spaces(line, sp_end, n);
    let f_mid = scan_digits(line, f_start, n);
    if f_mid == f_start {
        return None;
    }
    let f_frac = if f_mid < n && line.get_char(f_mid) == '.' {
        f_mid + 1
    } else {
        f_mid
    };
    let f_end = scan_digits(line, f_frac, n);
    if f_end >= n {
        return None;
    }
    if !is_space_x(line.get_char(f_end)) {
        return None;
    }
    let int_part = match parse_digits(line, f_start, f_mid, n, FREQ_INT_MAX) {
        Some(v) => v,
        None => {
            return None;
        },
    };
    let frac: u64 = if f_end == f_frac {
        0
    } else {
        let fd_end = if f_end - f_frac > 3 {
            f_frac + 3
        } else {
            f_end
        };
        proof {
            let digits = line@.subrange(f_frac as int, fd_end as int);
            assert(forall|q: int| 0 <= q < digits.len() ==> is_digit(#[trigger] digits[q]));
            lemma_digits_val_lt_pow10(digits);
            assert(pow10(0) == 1);
            assert(pow10(1) == 10);
            assert(pow10(2) == 100);
            assert(pow10(3) == 1000);
        }
        let v = match parse_digits(line, f_frac, fd_end, n, 999) {
            Some(v) => v,
            None => {
                proof {
                    assert(false);
                }
                0
            },
        };
        let flen = f_end - f_frac;
        proof {
            let whole = line@.subrange(f_frac as int, f_end as int);
            let digits = line@.subrange(f_frac as int, fd_end as int);
            if flen >= 3 {
                assert(whole.take(3) =~= digits);
            } else {
                assert(whole =~= digits);
            }
        }
        if flen == 1 {
            v * 100
        } else if flen == 2 {
            v * 10
        } else {
            v
        }
    };
    let freq_mkhz: u64 = int_part * 1000 + frac;
    let t_start = scan_spaces(line, f_end, n);
    let t_end = scan_nonspace(line, t_start, n);
    if t_end == t_start || t_end >= n {
        return None;
    }
    let m_start = scan_spaces(line, t_end, n);
    let m_end = scan_word(line, m_start, n);
    if m_end == m_start || m_end >= n {
        return None;
    }
    if !is_space_x(line.get_char(m_end)) {
        return None;
    }
    let sn_start = scan_spaces(line, m_end, n);
    let sn_end = scan_digits(line, sn_start, n);
    if sn_end == sn_start || sn_end >= n {
        return None;
    }
    if !is_space_x(line.get_char(sn_end)) {
        return None;
    }
    let snr64 = match parse_digits(line, sn_start, sn_end, n, 2147483647) {
        Some(v) => v,
        None => {
            return None;
        },
    };
    let db = scan_spaces(line, sn_end, n);
    if n - db < 3 {
        return None;
    }
    if !(line.get_char(db) == 'd' && line.get_char(db + 1) == 'B') {
        return None;
    }
    if !is_space_x(line.get_char(db + 2)) {
        return None;
    }
    let w_start = scan_spaces(line, db + 2, n);
    let w_end = scan_digits(line, w_start, n);
    if w_end == w_start || w_end >= n {
        return None;
    }
    if !is_space_x(line.get_char(w_end)) {
        return None;
    }
    let wpm64 = match parse_digits(line, w_start, w_end, n, 4294967295) {
        Some(v) => v,
        None => {
            return None;
        },
    };
    let wp = scan_spaces(line, w_end, n);
    if n - wp < 3 {
        return None;
    }
    if !(line.get_char(wp) == 'W' && line.get_char(wp + 1) == 'P' && line.get_char(wp + 2) == 'M') {
        return None;
    }
    let spotter_end = trim_end_idx(line, 6, sp_end - 1, n);
    let spotter = line.substring_char(6, spotter_end).to_owned();
    let target = line.substring_char(t_start, t_end).to_owned();
    let mode = line.substring_char(m_start, m_end).to_owned();
    let snr = snr64 as i32;
    let wpm = wpm64 as u32;
    let spot = RawSpot::new(spotter, target, freq_mkhz, snr, wpm, mode);
    proof {
        assert(parse_line_spec(line@) == Some(
            SpotFields {
                spotter: spot.spotter_callsign@,
                target: spot.spotted_callsign@,
                mode: spot.mode@,
                freq_mkhz: spot.frequency_mkhz as int,
                snr: spot.snr as int,
                wpm: spot.wpm as int,
            },
        ));
    }
    Some(spot)
}

} // verus!
