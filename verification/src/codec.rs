//! Wire-protocol codec: parses one request payload into a typed command
//! and renders query replies.
//!
//! A request is either the literal `get-volume` or a volume spec
//! `['+'|'-'] number ['%']`, optionally followed by a space and a
//! duration in milliseconds. Numbers are unsigned decimals with an
//! optional fraction; a leading sign marks the change as relative, a
//! `%` suffix divides the value by one hundred. Volumes are held in
//! linear units of one ten-thousandth, durations in units of one
//! ten-thousandth of a millisecond.

use vstd::prelude::*;
use crate::volume::{VOL_LIMIT, average_raw, average_raw_spec, raw_to_units, raw_to_units_spec};

verus! {

/// A requested volume change: an offset added to a reference volume,
/// or a value replacing it outright. Amounts are linear units.
#[derive(Debug, Clone, Copy, PartialEq, Eq)]
pub enum VolumeChange {
    Increase(i64),
    Absolute(i64),
}

/// What a change resolves to against a reference volume: an increase
/// adds its offset, an absolute value stands on its own.
pub open spec fn collapse_spec(c: VolumeChange, reference: int) -> int {
    match c {
        VolumeChange::Increase(d) => reference + d,
        VolumeChange::Absolute(a) => a as int,
    }
}

/// A parsed change never carries an amount beyond the representable
/// volume range.
pub open spec fn bounded_change(c: VolumeChange) -> bool {
    match c {
        VolumeChange::Increase(d) => -VOL_LIMIT <= d <= VOL_LIMIT,
        VolumeChange::Absolute(a) => 0 <= a <= VOL_LIMIT,
    }
}

impl VolumeChange {
    /// Resolves the change against a reference volume.
    pub fn collapse(self, reference: i64) -> (r: i64)
        requires
            bounded_change(self),
            0 <= reference <= VOL_LIMIT,
        ensures
            r == collapse_spec(self, reference as int),
    {
        match self {
            VolumeChange::Increase(d) => reference + d,
            VolumeChange::Absolute(a) => a,
        }
    }
}

/// One decoded request.
#[derive(Debug, Clone, Copy, PartialEq, Eq)]
pub enum Command {
    /// A volume change, with an optional duration in units of one
    /// ten-thousandth of a millisecond. The duration is carried as
    /// parsed; its validity window is the engine's concern.
    Change { change: VolumeChange, duration: Option<i64> },
    /// A query for the current volume, to be answered on the wire.
    QueryVolume,
}

#[derive(Debug, Clone, Copy, PartialEq, Eq)]
pub enum ParseError {
    /// The volume spec was not a well-formed number.
    InvalidVolume,
}

/// Ceiling of the representable duration: one billion milliseconds.
pub const DUR_LIMIT: i64 = 10_000_000_000_000;

/// Saturation value for parsed durations: one step past the ceiling,
/// so an oversized duration stays invalid instead of snapping into
/// the valid window.
pub const DUR_SAT: i64 = DUR_LIMIT + 1;

pub const B_SPACE: u8 = 32;

pub const B_PCT: u8 = 37;

pub const B_PLUS: u8 = 43;

pub const B_MINUS: u8 = 45;

pub const B_DOT: u8 = 46;

pub const B_ZERO: u8 = 48;

pub const B_NINE: u8 = 57;

/// The bytes whose removal at either end mirrors trimming ASCII
/// whitespace: space, tab, line feed, vertical tab, form feed,
/// carriage return.
pub open spec fn is_ws(b: u8) -> bool {
    b == B_SPACE || b == 9 || b == 10 || b == 11 || b == 12 || b == 13
}

pub open spec fn is_digit(b: u8) -> bool {
    B_ZERO <= b <= B_NINE
}

pub open spec fn all_digits(s: Seq<u8>) -> bool {
    forall|i: int| 0 <= i < s.len() ==> is_digit(#[trigger] s[i])
}

pub open spec fn trim_front(s: Seq<u8>) -> Seq<u8>
    decreases s.len(),
{
    if s.len() > 0 && is_ws(s[0]) {
        trim_front(s.drop_first())
    } else {
        s
    }
}

pub open spec fn trim_back(s: Seq<u8>) -> Seq<u8>
    decreases s.len(),
{
    if s.len() > 0 && is_ws(s.last()) {
        trim_back(s.drop_last())
    } else {
        s
    }
}

/// The payload with ASCII whitespace removed at both ends.
pub open spec fn trim(s: Seq<u8>) -> Seq<u8> {
    trim_back(trim_front(s))
}

/// Index of the first occurrence of `b` in `s`; `s.len()` when absent.
pub open spec fn first_at(s: Seq<u8>, b: u8) -> int
    decreases s.len(),
{
    if s.len() == 0 {
        0
    } else if s[0] == b {
        0
    } else {
        1 + first_at(s.drop_first(), b)
    }
}

pub proof fn lemma_first_at(s: Seq<u8>, b: u8)
    ensures
        0 <= first_at(s, b) <= s.len(),
        first_at(s, b) < s.len() ==> s[first_at(s, b)] == b,
        forall|j: int| 0 <= j < first_at(s, b) ==> s[j] != b,
    decreases s.len(),
{
    if s.len() > 0 && s[0] != b {
        lemma_first_at(s.drop_first(), b);
        assert forall|j: int| 0 <= j < first_at(s, b) implies s[j] != b by {
            if j > 0 {
                assert(s.drop_first()[j - 1] == s[j]);
            }
        }
    }
}

/// Value of a string of decimal digit bytes.
pub open spec fn digits_val(s: Seq<u8>) -> int
    decreases s.len(),
{
    if s.len() == 0 {
        0
    } else {
        digits_val(s.drop_last()) * 10 + (s.last() - B_ZERO)
    }
}

/// The fraction digits cut or zero-padded to exactly `scale` places.
pub open spec fn padded_frac(fp: Seq<u8>, scale: nat) -> Seq<u8> {
    Seq::new(scale, |j: int| if j < fp.len() { fp[j] } else { B_ZERO })
}

/// Value of an unsigned decimal numeral scaled by ten to the `scale`:
/// the integer digits followed by exactly `scale` fraction digits.
/// `None` when the text is not `digits [ '.' digits ]` with at least
/// one digit. Fraction digits beyond `scale` are cut.
pub open spec fn spec_dec_value(s: Seq<u8>, scale: nat) -> Option<int> {
    let di = first_at(s, B_DOT);
    let ip = s.subrange(0, di);
    let fp = if di < s.len() {
        s.subrange(di + 1, s.len() as int)
    } else {
        Seq::<u8>::empty()
    };
    if all_digits(ip) && all_digits(fp) && ip.len() + fp.len() >= 1 {
        Some(digits_val(ip + padded_frac(fp, scale)))
    } else {
        None
    }
}

/// `n` held to a ceiling.
pub open spec fn sat_cap(n: int, cap: int) -> int {
    if n > cap {
        cap
    } else {
        n
    }
}

/// `spec_dec_value` held to a ceiling: a numeral past `cap` reads as
/// `cap` itself.
pub open spec fn spec_dec_sat(s: Seq<u8>, scale: nat, cap: i64) -> Option<i64> {
    match spec_dec_value(s, scale) {
        Some(n) => Some(sat_cap(n, cap as int) as i64),
        None => None,
    }
}

pub open spec fn get_volume_literal() -> Seq<u8> {
    seq![103u8, 101u8, 116u8, 45u8, 118u8, 111u8, 108u8, 117u8, 109u8, 101u8]
}

/// The volume spec's meaning: an optional sign marks the change as
/// relative (`-` negating the amount), a `%` suffix reads the numeral
/// at two scaled places instead of four, and the amount saturates at
/// `VOL_LIMIT`.
pub open spec fn spec_parse_volume(v: Seq<u8>) -> Option<VolumeChange> {
    let signed = v.len() > 0 && (v[0] == B_PLUS || v[0] == B_MINUS);
    let neg = v.len() > 0 && v[0] == B_MINUS;
    let rest = if signed {
        v.drop_first()
    } else {
        v
    };
    let pct = rest.len() > 0 && rest.last() == B_PCT;
    let num = if pct {
        rest.drop_last()
    } else {
        rest
    };
    let scale: nat = if pct {
        2
    } else {
        4
    };
    match spec_dec_sat(num, scale, VOL_LIMIT) {
        Some(m) => Some(
            if signed {
                VolumeChange::Increase(if neg { (-m) as i64 } else { m })
            } else {
                VolumeChange::Absolute(m)
            },
        ),
        None => None,
    }
}

/// The duration token's meaning: an optionally signed decimal number
/// of milliseconds, in units of one ten-thousandth of a millisecond,
/// saturating just past the valid window so oversized values stay
/// invalid. `None` when malformed; a malformed duration is not an
/// error, the change stands with no duration.
pub open spec fn spec_parse_duration(d: Seq<u8>) -> Option<i64> {
    let signed = d.len() > 0 && (d[0] == B_PLUS || d[0] == B_MINUS);
    let neg = d.len() > 0 && d[0] == B_MINUS;
    let rest = if signed {
        d.drop_first()
    } else {
        d
    };
    match spec_dec_sat(rest, 4, DUR_SAT) {
        Some(m) => Some(if neg { (-m) as i64 } else { m }),
        None => None,
    }
}

/// Meaning of a trimmed payload: the query literal, or a volume spec
/// split from an optional duration at the first space, the left part
/// trimmed again at its back.
pub open spec fn spec_parse_trimmed(t: Seq<u8>) -> Result<Command, ParseError> {
    if t == get_volume_literal() {
        Ok(Command::QueryVolume)
    } else {
        let fs = first_at(t, B_SPACE);
        let left = trim_back(t.subrange(0, fs));
        let dur = if fs < t.len() {
            spec_parse_duration(t.subrange(fs + 1, t.len() as int))
        } else {
            None
        };
        match spec_parse_volume(left) {
            Some(c) => Ok(Command::Change { change: c, duration: dur }),
            None => Err(ParseError::InvalidVolume),
        }
    }
}

/// Meaning of one request payload.
pub open spec fn spec_parse(s: Seq<u8>) -> Result<Command, ParseError> {
    spec_parse_trimmed(trim(s))
}

fn ws_byte(b: u8) -> (r: bool)
    ensures
        r == is_ws(b),
{
    b == B_SPACE || b == 9 || b == 10 || b == 11 || b == 12 || b == 13
}

/// Finds the ends of the payload once ASCII whitespace is trimmed.
#[verifier::loop_isolation(false)]
fn trim_bounds(s: &[u8]) -> (r: (usize, usize))
    ensures
        r.0 <= r.1 <= s@.len(),
        s@.subrange(r.0 as int, r.1 as int) == trim(s@),
{
    let len = s.len();
    proof {
        assert(s@.subrange(0, len as int) =~= s@);
    }
    let mut lo: usize = 0;
    while lo < len && ws_byte(s[lo])
        invariant
            0 <= lo <= len == s@.len(),
            trim_front(s@) == trim_front(s@.subrange(lo as int, len as int)),
        decreases len - lo,
    {
        proof {
            let sub = s@.subrange(lo as int, len as int);
            assert(sub.drop_first() =~= s@.subrange(lo + 1, len as int));
        }
        lo = lo + 1;
    }
    proof {
        assert(trim_front(s@) == s@.subrange(lo as int, len as int));
    }
    let mut hi: usize = len;
    while hi > lo && ws_byte(s[hi - 1])
        invariant
            lo <= hi <= len == s@.len(),
            trim_front(s@) == s@.subrange(lo as int, len as int),
            trim_back(s@.subrange(lo as int, len as int)) == trim_back(
                s@.subrange(lo as int, hi as int),
            ),
        decreases hi,
    {
        proof {
            let sub = s@.subrange(lo as int, hi as int);
            assert(sub.drop_last() =~= s@.subrange(lo as int, hi - 1));
        }
        hi = hi - 1;
    }
    proof {
        assert(trim(s@) == s@.subrange(lo as int, hi as int));
    }
    (lo, hi)
}

/// Index of the first occurrence of `b` in `s[from..to]`; `to` when absent.
#[verifier::loop_isolation(false)]
fn find_byte(s: &[u8], from: usize, to: usize, b: u8) -> (r: usize)
    requires
        from <= to <= s@.len(),
    ensures
        from <= r <= to,
        r - from == first_at(s@.subrange(from as int, to as int), b),
        r < to ==> s@[r as int] == b,
{
    let ghost sub = s@.subrange(from as int, to as int);
    proof {
        lemma_first_at(sub, b);
    }
    let mut i = from;
    while i < to
        invariant
            from <= i <= to <= s@.len(),
            sub == s@.subrange(from as int, to as int),
            forall|j: int| from <= j < i ==> s@[j] != b,
        decreases to - i,
    {
        if s[i] == b {
            proof {
                assert(sub[i - from] == b);
                assert forall|jj: int| 0 <= jj < i - from implies sub[jj] != b by {
                    assert(sub[jj] == s@[from + jj]);
                }
            }
            return i;
        }
        i = i + 1;
    }
    proof {
        if first_at(sub, b) < sub.len() {
            let f = first_at(sub, b);
            assert(s@[from + f] == sub[f]);
        }
    }
    to
}

/// Whether `s[lo..hi]` is exactly the query literal.
fn eq_bytes_gv(s: &[u8], lo: usize, hi: usize) -> (r: bool)
    requires
        lo <= hi <= s@.len(),
    ensures
        r == (s@.subrange(lo as int, hi as int) == get_volume_literal()),
{
    let ghost sub = s@.subrange(lo as int, hi as int);
    if hi - lo != 10 {
        proof {
            assert(sub.len() != get_volume_literal().len());
        }
        return false;
    }
    let r = s[lo] == 103 && s[lo + 1] == 101 && s[lo + 2] == 116 && s[lo + 3] == 45 && s[lo + 4]
        == 118 && s[lo + 5] == 111 && s[lo + 6] == 108 && s[lo + 7] == 117 && s[lo + 8] == 109
        && s[lo + 9] == 101;
    proof {
        if r {
            assert(sub =~= get_volume_literal());
        } else {
            if sub == get_volume_literal() {
                assert(forall|j: int| 0 <= j < 10 ==> sub[j] == get_volume_literal()[j]);
                assert(forall|j: int| 0 <= j < 10 ==> s@[lo + j] == sub[j]);
                assert(false);
            }
        }
    }
    r
}

/// Reads the unsigned decimal numeral in `s[from..to]` at `scale`
/// places, saturating at `cap`.
#[verifier::loop_isolation(false)]
fn parse_scaled(s: &[u8], from: usize, to: usize, scale: usize, cap: i64) -> (r: Option<i64>)
    requires
        from <= to <= s@.len(),
        1 <= cap <= 0x0CCC_CCCC_CCCC_CCC0,
    ensures
        r == spec_dec_sat(s@.subrange(from as int, to as int), scale as nat, cap),
        r matches Some(m) ==> 0 <= m <= cap,
{
    let ghost sub = s@.subrange(from as int, to as int);
    let d = find_byte(s, from, to, B_DOT);
    let ghost di = d - from;
    let ghost ip = sub.subrange(0, di);
    let ghost fp = if di < sub.len() {
        sub.subrange(di + 1, sub.len() as int)
    } else {
        Seq::<u8>::empty()
    };
    proof {
        assert(ip =~= s@.subrange(from as int, d as int));
        if d < to {
            assert(fp =~= s@.subrange(d + 1, to as int));
        }
    }
    // the grammar asks for at least one digit
    if to - from == 0 || (d < to && to - from == 1) {
        return None;
    }
    // every byte but the dot must be a digit
    let mut i = from;
    while i < d
        invariant
            from <= i <= d <= to <= s@.len(),
            ip == s@.subrange(from as int, d as int),
            forall|j: int| 0 <= j < i - from ==> is_digit(#[trigger] ip[j]),
        decreases d - i,
    {
        let b = s[i];
        if b < B_ZERO || b > B_NINE {
            proof {
                assert(ip[i - from] == s@[i as int]);
                assert(!all_digits(ip));
            }
            return None;
        }
        proof {
            assert(ip[i - from] == s@[i as int]);
        }
        i = i + 1;
    }
    proof {
        assert(all_digits(ip));
    }
    let fplen: usize = if d < to {
        to - d - 1
    } else {
        0
    };
    let mut k: usize = 0;
    while k < fplen
        invariant
            d < to ==> fplen == to - d - 1,
            d == to ==> fplen == 0,
            from <= d <= to <= s@.len(),
            0 <= k <= fplen,
            fp.len() == fplen,
            d < to ==> fp == s@.subrange(d + 1, to as int),
            forall|j: int| 0 <= j < k ==> is_digit(#[trigger] fp[j]),
        decreases fplen - k,
    {
        let b = s[d + 1 + k];
        proof {
            assert(fp[k as int] == s@[d + 1 + k]);
        }
        if b < B_ZERO || b > B_NINE {
            proof {
                assert(!all_digits(fp));
            }
            return None;
        }
        k = k + 1;
    }
    proof {
        assert(all_digits(fp));
        assert(ip.len() + fp.len() >= 1);
    }
    // accumulate the integer digits, saturating at the cap
    let mut acc: i64 = 0;
    let mut i = from;
    while i < d
        invariant
            from <= i <= d <= to <= s@.len(),
            ip == s@.subrange(from as int, d as int),
            all_digits(ip),
            1 <= cap <= 0x0CCC_CCCC_CCCC_CCC0,
            0 <= acc <= cap,
            digits_val(ip.subrange(0, i - from)) >= 0,
            acc == sat_cap(digits_val(ip.subrange(0, i - from)), cap as int),
        decreases d - i,
    {
        let ghost pre = ip.subrange(0, i - from);
        let ghost pre2 = ip.subrange(0, i + 1 - from);
        proof {
            assert(pre2.drop_last() =~= pre);
            assert(pre2.last() == ip[i - from]);
            assert(ip[i - from] == s@[i as int]);
            assert(is_digit(ip[i - from]));
        }
        let dig = (s[i] - B_ZERO) as i64;
        let t = acc * 10 + dig;
        acc = if t > cap {
            cap
        } else {
            t
        };
        i = i + 1;
    }
    proof {
        assert(ip.subrange(0, d - from) =~= ip);
    }
    // then exactly `scale` fraction places, zero-padded past the input
    let ghost padded = padded_frac(fp, scale as nat);
    let mut j: usize = 0;
    while j < scale
        invariant
            from <= d <= to <= s@.len(),
            d < to ==> fplen == to - d - 1,
            d == to ==> fplen == 0,
            fp.len() == fplen,
            d < to ==> fp == s@.subrange(d + 1, to as int),
            all_digits(ip),
            all_digits(fp),
            padded == padded_frac(fp, scale as nat),
            1 <= cap <= 0x0CCC_CCCC_CCCC_CCC0,
            0 <= j <= scale,
            0 <= acc <= cap,
            digits_val(ip + padded.subrange(0, j as int)) >= 0,
            acc == sat_cap(digits_val(ip + padded.subrange(0, j as int)), cap as int),
        decreases scale - j,
    {
        let ghost pre = ip + padded.subrange(0, j as int);
        let ghost pre2 = ip + padded.subrange(0, j + 1);
        let dig: i64 = if j < fplen {
            let b = s[d + 1 + j];
            proof {
                assert(fp[j as int] == s@[d + 1 + j]);
                assert(is_digit(fp[j as int]));
            }
            (b - B_ZERO) as i64
        } else {
            0
        };
        proof {
            assert(pre2.drop_last() =~= pre);
            assert(pre2.last() == padded[j as int]);
            assert(padded[j as int] - B_ZERO == dig);
        }
        let t = acc * 10 + dig;
        acc = if t > cap {
            cap
        } else {
            t
        };
        j = j + 1;
    }
    proof {
        assert(padded.subrange(0, scale as int) =~= padded);
    }
    Some(acc)
}

/// Reads the volume spec in `s[from..to]`.
fn parse_volume_part(s: &[u8], from: usize, to: usize) -> (r: Option<VolumeChange>)
    requires
        from <= to <= s@.len(),
    ensures
        r == spec_parse_volume(s@.subrange(from as int, to as int)),
        r matches Some(c) ==> bounded_change(c),
{
    let ghost v = s@.subrange(from as int, to as int);
    let mut signed = false;
    let mut neg = false;
    let mut p = from;
    if to > from && (s[from] == B_PLUS || s[from] == B_MINUS) {
        signed = true;
        neg = s[from] == B_MINUS;
        p = from + 1;
    }
    proof {
        let rest = if signed {
            v.drop_first()
        } else {
            v
        };
        assert(rest =~= s@.subrange(p as int, to as int));
    }
    let mut q = to;
    let mut pct = false;
    if q > p && s[q - 1] == B_PCT {
        pct = true;
        q = q - 1;
    }
    proof {
        let rest = s@.subrange(p as int, to as int);
        let num = if pct {
            rest.drop_last()
        } else {
            rest
        };
        assert(num =~= s@.subrange(p as int, q as int));
    }
    let scale: usize = if pct {
        2
    } else {
        4
    };
    match parse_scaled(s, p, q, scale, VOL_LIMIT) {
        Some(m) => Some(
            if signed {
                if neg {
                    VolumeChange::Increase(-m)
                } else {
                    VolumeChange::Increase(m)
                }
            } else {
                VolumeChange::Absolute(m)
            },
        ),
        None => None,
    }
}

/// Reads the duration token in `s[from..to]`.
fn parse_duration_part(s: &[u8], from: usize, to: usize) -> (r: Option<i64>)
    requires
        from <= to <= s@.len(),
    ensures
        r == spec_parse_duration(s@.subrange(from as int, to as int)),
{
    let ghost v = s@.subrange(from as int, to as int);
    let mut neg = false;
    let mut p = from;
    if to > from && (s[from] == B_PLUS || s[from] == B_MINUS) {
        neg = s[from] == B_MINUS;
        p = from + 1;
    }
    proof {
        let signed = v.len() > 0 && (v[0] == B_PLUS || v[0] == B_MINUS);
        let rest = if signed {
            v.drop_first()
        } else {
            v
        };
        assert(rest =~= s@.subrange(p as int, to as int));
    }
    match parse_scaled(s, p, to, 4, DUR_SAT) {
        Some(m) => Some(
            if neg {
                -m
            } else {
                m
            },
        ),
        None => None,
    }
}

/// Decodes one request payload.
///
/// The result is exactly `spec_parse` of the payload: the trimmed
/// literal `get-volume` queries, anything else is a volume spec with
/// an optional duration after the first space; a malformed volume
/// spec is the one parse error, a malformed duration only drops the
/// duration.
#[verifier::loop_isolation(false)]
pub fn parse(input: &[u8]) -> (r: Result<Command, ParseError>)
    ensures
        r == spec_parse(input@),
        r matches Ok(Command::Change { change, duration }) ==> bounded_change(change),
{
    let (lo, hi) = trim_bounds(input);
    let ghost t = trim(input@);
    if eq_bytes_gv(input, lo, hi) {
        return Ok(Command::QueryVolume);
    }
    let sp = find_byte(input, lo, hi, B_SPACE);
    proof {
        assert(t.subrange(0, sp - lo) =~= input@.subrange(lo as int, sp as int));
        if sp < hi {
            assert(t.subrange(sp - lo + 1, t.len() as int) =~= input@.subrange(
                sp + 1,
                hi as int,
            ));
        }
    }
    let duration: Option<i64> = if sp < hi {
        parse_duration_part(input, sp + 1, hi)
    } else {
        None
    };
    // the left token is trimmed again at its back, as non-space
    // whitespace can stand before the separating space
    let mut lh = sp;
    while lh > lo && ws_byte(input[lh - 1])
        invariant
            lo <= lh <= sp,
            trim_back(input@.subrange(lo as int, sp as int)) == trim_back(
                input@.subrange(lo as int, lh as int),
            ),
        decreases lh,
    {
        proof {
            let sub = input@.subrange(lo as int, lh as int);
            assert(sub.drop_last() =~= input@.subrange(lo as int, lh - 1));
        }
        lh = lh - 1;
    }
    proof {
        assert(trim_back(t.subrange(0, sp - lo)) == input@.subrange(lo as int, lh as int));
    }
    match parse_volume_part(input, lo, lh) {
        Some(c) => Ok(Command::Change { change: c, duration }),
        None => Err(ParseError::InvalidVolume),
    }
}

/// Digit bytes of `n` in decimal, most significant first, no sign,
/// no leading zeroes (a single zero digit for zero).
pub open spec fn dec_digits(n: int) -> Seq<u8>
    decreases n,
{
    if n < 10 {
        seq![(B_ZERO + if 0 <= n { n } else { 0 }) as u8]
    } else {
        dec_digits(n / 10).push((B_ZERO + n % 10) as u8)
    }
}

/// The percentage rendering of a linear volume: the volume times one
/// hundred with exactly two decimal digits, a `%` sign appended. In
/// units of one ten-thousandth that is the units over one hundred,
/// then a dot, then the remainder's two digits.
pub open spec fn format_percent_spec(units: int) -> Seq<u8> {
    dec_digits(units / 100) + seq![B_DOT, (B_ZERO + (units % 100) / 10) as u8, (B_ZERO + units % 10) as u8, B_PCT]
}

fn push_dec(out: &mut Vec<u8>, n: u64)
    ensures
        final(out)@ == old(out)@ + dec_digits(n as int),
    decreases n,
{
    if n < 10 {
        out.push(B_ZERO + n as u8);
        assert(out@ =~= old(out)@ + dec_digits(n as int));
    } else {
        push_dec(out, n / 10);
        out.push(B_ZERO + (n % 10) as u8);
        assert(out@ =~= old(out)@ + dec_digits(n as int));
    }
}

/// Renders a linear volume as a percentage with two decimal digits,
/// as the query reply carries it.
pub fn format_percent(units: i64) -> (r: Vec<u8>)
    requires
        0 <= units,
    ensures
        r@ == format_percent_spec(units as int),
{
    let mut out: Vec<u8> = Vec::new();
    push_dec(&mut out, (units / 100) as u64);
    out.push(B_DOT);
    out.push(B_ZERO + ((units % 100) / 10) as u8);
    out.push(B_ZERO + (units % 10) as u8);
    out.push(B_PCT);
    assert(out@ =~= format_percent_spec(units as int));
    out
}

/// The full query-reply rendering: the channels' average raw volume,
/// converted to linear units, formatted as a percentage.
pub fn query_reply(raws: &[u32]) -> (r: Vec<u8>)
    requires
        raws@.len() <= u32::MAX,
    ensures
        r@ == format_percent_spec(raw_to_units_spec(average_raw_spec(raws@) as u32)),
{
    let avg = average_raw(raws);
    let units = raw_to_units(avg);
    format_percent(units)
}

} // verus!
