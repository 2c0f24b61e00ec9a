//! APRS position encoding: lossy fixed-point coordinates rendered as
//! `DDMM.hh` ASCII, optional timestamps, and assembly of the information
//! field and the complete position frame.

use crate::ax25::{self, address_bytes, call_ok, AddressField};
use vstd::prelude::*;

verus! {

use vstd::arithmetic::div_mod::{
    lemma_div_denominator,
    lemma_div_multiples_vanish,
    lemma_fundamental_div_mod,
    lemma_mod_division_less_than_divisor,
};
use vstd::string::StringSliceAdditionalSpecFns;

/// Longest accepted comment, in bytes.
pub const MAX_COMMENT_LEN: usize = 43;

/// Two decimal digits of `n`, zero padded.
pub open spec fn two_digits(n: int) -> Seq<u8> {
    seq![(48 + n / 10) as u8, (48 + n % 10) as u8]
}

/// Append the two-digit zero-padded decimal form of `n`.
fn push_two(out: &mut Vec<u8>, n: u8)
    requires
        n < 100,
    ensures
        final(out)@ == old(out)@ + two_digits(n as int),
{
    out.push(48 + n / 10);
    out.push(48 + n % 10);
    proof {
        assert(out@ =~= old(out)@ + two_digits(n as int));
    }
}

// ---------------------------------------------------------------------------
// Timestamps
// ---------------------------------------------------------------------------
/// An optional APRS timestamp: day/hour/minute zulu, hour/minute/second, or
/// local hour/minute.
#[derive(Clone, Copy, Debug)]
pub enum Timestamp {
    Dhm { day: u8, hour: u8, minute: u8 },
    Hms { hour: u8, minute: u8, second: u8 },
    LocalTime { hour: u8, minute: u8 },
}

impl Timestamp {
    /// All fields fit the two-digit wire format.
    pub open spec fn wf(self) -> bool {
        match self {
            Timestamp::Dhm { day, hour, minute } => day < 100 && hour < 100 && minute < 100,
            Timestamp::Hms { hour, minute, second } => hour < 100 && minute < 100 && second < 100,
            Timestamp::LocalTime { hour, minute } => hour < 100 && minute < 100,
        }
    }

    /// The ASCII form: `DDHHMMz`, `HHMMSSh` or `HHMM/`.
    pub open spec fn ascii(self) -> Seq<u8> {
        match self {
            Timestamp::Dhm { day, hour, minute } => two_digits(day as int) + two_digits(
                hour as int,
            ) + two_digits(minute as int) + seq![122u8],
            Timestamp::Hms { hour, minute, second } => two_digits(hour as int) + two_digits(
                minute as int,
            ) + two_digits(second as int) + seq![104u8],
            Timestamp::LocalTime { hour, minute } => two_digits(hour as int) + two_digits(
                minute as int,
            ) + seq![47u8],
        }
    }

    /// Append the timestamp in its ASCII form.
    pub fn encode(&self, out: &mut Vec<u8>)
        requires
            self.wf(),
        ensures
            final(out)@ == old(out)@ + self.ascii(),
    {
        match self {
            Timestamp::Dhm { day, hour, minute } => {
                push_two(out, *day);
                push_two(out, *hour);
                push_two(out, *minute);
                out.push(122);
            },
            Timestamp::Hms { hour, minute, second } => {
                push_two(out, *hour);
                push_two(out, *minute);
                push_two(out, *second);
                out.push(104);
            },
            Timestamp::LocalTime { hour, minute } => {
                push_two(out, *hour);
                push_two(out, *minute);
                out.push(47);
            },
        }
        proof {
            assert(out@ =~= old(out)@ + self.ascii());
        }
    }
}

// ---------------------------------------------------------------------------
// Coordinates
// ---------------------------------------------------------------------------
/// A coordinate in signed integer microdegrees; the sign carries the
/// hemisphere.
#[derive(Clone, Copy, Debug)]
pub struct Coordinate {
    pub microdegrees: i32,
}

/// The fixed-width ASCII rendering of a coordinate: `DDMM.hh` plus
/// hemisphere letter for latitudes, `DDDMM.hh` plus hemisphere letter for
/// longitudes.  Minutes and hundredths derive from the fractional
/// microdegrees.
pub open spec fn coord_ascii(micro: int, lat: bool) -> Seq<u8> {
    let raw = if micro < 0 {
        -micro
    } else {
        micro
    };
    let deg = raw / 1_000_000;
    let frac = raw % 1_000_000;
    let minutes = frac * 60 / 1_000_000;
    let hh = (frac * 6000 / 1_000_000) % 100;
    let head = if lat {
        two_digits(deg)
    } else {
        seq![(48 + deg / 100) as u8] + two_digits(deg % 100)
    };
    let hemi: u8 = if lat {
        if micro >= 0 {
            78
        } else {
            83
        }
    } else {
        if micro >= 0 {
            69
        } else {
            87
        }
    };
    head + two_digits(minutes) + seq![46u8] + two_digits(hh) + seq![hemi]
}

impl Coordinate {
    /// Append the coordinate's fixed-width ASCII form followed by its
    /// hemisphere letter (`N`/`S` for latitudes, `E`/`W` for longitudes).
    pub fn to_aprs(&self, lat: bool, out: &mut Vec<u8>)
        requires
            lat ==> -90_000_000 <= self.microdegrees <= 90_000_000,
            !lat ==> -180_000_000 <= self.microdegrees <= 180_000_000,
        ensures
            final(out)@ == old(out)@ + coord_ascii(self.microdegrees as int, lat),
    {
        let neg = self.microdegrees < 0;
        let raw: u32 = if neg {
            (-self.microdegrees) as u32
        } else {
            self.microdegrees as u32
        };
        let deg: u32 = raw / 1_000_000;
        let frac: u32 = raw % 1_000_000;
        let minutes: u32 = frac * 60 / 1_000_000;
        let hh: u8 = (((frac as u64) * 6000 / 1_000_000) % 100) as u8;
        if lat {
            push_two(out, deg as u8);
        } else {
            out.push(48 + (deg / 100) as u8);
            push_two(out, (deg % 100) as u8);
        }
        push_two(out, minutes as u8);
        out.push(46);
        push_two(out, hh);
        let hemi: u8 = if lat {
            if !neg {
                78
            } else {
                83
            }
        } else {
            if !neg {
                69
            } else {
                87
            }
        };
        out.push(hemi);
        proof {
            assert(out@ =~= old(out)@ + coord_ascii(self.microdegrees as int, lat));
        }
    }
}

/// Coordinate round trip: reading the emitted digits back as
/// `deg + minutes/60 + hundredths/6000` degrees recovers the coordinate's
/// absolute value to within one hundredth of a minute, i.e. 1/6000 of a
/// degree.  Stated in integers, scaled by six: the scaled decoding error
/// `6*|micro| - (6_000_000*deg + 100_000*minutes + 1_000*hundredths)` in
/// six-microdegree units is nonnegative and below 1000 (which is 1/6000 of a
/// degree).
pub proof fn lemma_coord_round_trip(micro: int)
    requires
        -180_000_000 <= micro <= 180_000_000,
    ensures
        ({
            let raw = if micro < 0 {
                -micro
            } else {
                micro
            };
            let deg = raw / 1_000_000;
            let frac = raw % 1_000_000;
            let minutes = frac * 60 / 1_000_000;
            let hh = (frac * 6000 / 1_000_000) % 100;
            0 <= 6 * raw - (6_000_000 * deg + 100_000 * minutes + 1000 * hh) < 1000
        }),
{
    let raw = if micro < 0 {
        -micro
    } else {
        micro
    };
    let deg = raw / 1_000_000;
    let frac = raw % 1_000_000;
    let m2 = frac * 6000 / 1_000_000;
    let minutes = frac * 60 / 1_000_000;
    let hh = m2 % 100;
    lemma_fundamental_div_mod(raw, 1_000_000);
    lemma_mod_division_less_than_divisor(raw, 1_000_000);
    // m2 == 6*frac / 1000
    assert(frac * 6000 == 1000 * (6 * frac));
    lemma_div_multiples_vanish(6 * frac, 1000);
    lemma_div_denominator(frac * 6000, 1000, 1000);
    assert(m2 == 6 * frac / 1000);
    // minutes == 6*frac / 100_000
    assert(frac * 60 == 10 * (6 * frac));
    lemma_div_multiples_vanish(6 * frac, 10);
    lemma_div_denominator(frac * 60, 10, 100_000);
    assert(minutes == 6 * frac / 100_000);
    // minutes == m2 / 100
    lemma_div_denominator(6 * frac, 1000, 100);
    assert(m2 / 100 == 6 * frac / 100_000);
    // m2 == 100*minutes + hh
    lemma_fundamental_div_mod(m2, 100);
    lemma_mod_division_less_than_divisor(m2, 100);
    // 6*frac == 1000*m2 + (6*frac) % 1000
    lemma_fundamental_div_mod(6 * frac, 1000);
    lemma_mod_division_less_than_divisor(6 * frac, 1000);
    assert(6 * raw == 6_000_000 * deg + 6 * frac);
}

// ---------------------------------------------------------------------------
// Position reports
// ---------------------------------------------------------------------------
/// A position report: coordinates, display symbol, optional comment and
/// timestamp, and the messaging-capability flag.
#[derive(Debug)]
pub struct PositionReport {
    pub latitude: Coordinate,
    pub longitude: Coordinate,
    pub symbol_table: char,
    pub symbol_code: char,
    pub comment: Option<Vec<u8>>,
    pub timestamp: Option<Timestamp>,
    pub messaging: bool,
}

/// The APRS data-type identifier selected by the (timestamp, messaging)
/// pair: `@`, `/`, `=` or `!`.
pub open spec fn data_type_id(has_timestamp: bool, messaging: bool) -> u8 {
    if has_timestamp {
        if messaging {
            64
        } else {
            47
        }
    } else {
        if messaging {
            61
        } else {
            33
        }
    }
}

impl PositionReport {
    /// Coordinates in range, ASCII symbol bytes, bounded comment, and a
    /// well-formed timestamp if one is present.
    pub open spec fn wf(self) -> bool {
        &&& -90_000_000 <= self.latitude.microdegrees <= 90_000_000
        &&& -180_000_000 <= self.longitude.microdegrees <= 180_000_000
        &&& (self.symbol_table as u32) < 128
        &&& (self.symbol_code as u32) < 128
        &&& (self.comment matches Some(c) ==> c@.len() <= MAX_COMMENT_LEN)
        &&& (self.timestamp matches Some(t) ==> t.wf())
    }

    /// The comment bytes, empty when absent.
    pub open spec fn comment_bytes(self) -> Seq<u8> {
        match self.comment {
            Some(c) => c@,
            None => Seq::empty(),
        }
    }

    /// The timestamp bytes, empty when absent.
    pub open spec fn timestamp_bytes(self) -> Seq<u8> {
        match self.timestamp {
            Some(t) => t.ascii(),
            None => Seq::empty(),
        }
    }

    /// The complete information field: data-type identifier, optional
    /// timestamp, latitude, symbol table, longitude, symbol code, optional
    /// comment.
    pub open spec fn info_spec(self) -> Seq<u8> {
        seq![data_type_id(self.timestamp is Some, self.messaging)] + self.timestamp_bytes()
            + coord_ascii(self.latitude.microdegrees as int, true) + seq![
            (self.symbol_table as u32) as u8,
        ] + coord_ascii(self.longitude.microdegrees as int, false) + seq![
            (self.symbol_code as u32) as u8,
        ] + self.comment_bytes()
    }

    /// Append the information field for this report.
    #[verifier::rlimit(30)]
    pub fn encode(&self, buf: &mut Vec<u8>)
        requires
            self.wf(),
        ensures
            final(buf)@ == old(buf)@ + self.info_spec(),
            final(buf)@.len() == old(buf)@.len() + self.info_spec().len(),
            self.info_spec().len() <= 70,
    {
        let dti: u8 = match (&self.timestamp, self.messaging) {
            (Some(_), true) => 64,
            (Some(_), false) => 47,
            (None, true) => 61,
            (None, false) => 33,
        };
        buf.push(dti);
        if let Some(ts) = &self.timestamp {
            ts.encode(buf);
        }
        self.latitude.to_aprs(true, buf);
        buf.push((self.symbol_table as u32) as u8);
        self.longitude.to_aprs(false, buf);
        buf.push((self.symbol_code as u32) as u8);
        if let Some(s) = &self.comment {
            let mut j: usize = 0;
            let ghost before = buf@;
            while j < s.len()
                invariant
                    j <= s@.len(),
                    buf@ == before + s@.take(j as int),
                decreases s@.len() - j,
            {
                buf.push(s[j]);
                proof {
                    assert(s@.take(j + 1) =~= s@.take(j as int).push(s@[j as int]));
                }
                j = j + 1;
            }
            proof {
                assert(s@.take(s@.len() as int) =~= s@);
            }
        }
        proof {
            assert(buf@ =~= old(buf)@ + self.info_spec());
        }
    }
}

/// An information field as understood by this station: a position report,
/// or an unrecognized data type carried verbatim.
pub enum AprsInfo {
    Position(PositionReport),
    Unknown(u8, Vec<u8>),
}

// ---------------------------------------------------------------------------
// Callsign splitting
// ---------------------------------------------------------------------------
/// Position of the first `-` in `s` at or after `i`, or -1.
pub open spec fn find_dash(s: Seq<u8>, i: int) -> int
    decreases s.len() - i,
{
    if i < 0 || i >= s.len() {
        -1
    } else if s[i] == 45 {
        i
    } else {
        find_dash(s, i + 1)
    }
}

/// All bytes of `s` are ASCII decimal digits.
pub open spec fn all_digits(s: Seq<u8>) -> bool {
    forall|i: int| 0 <= i < s.len() ==> 48 <= #[trigger] s[i] <= 57
}

/// The number denoted by a digit string, most significant digit first.
pub open spec fn digits_val(s: Seq<u8>) -> int
    decreases s.len(),
{
    if s.len() == 0 {
        0
    } else {
        digits_val(s.drop_last()) * 10 + (s.last() - 48)
    }
}

/// The value an SSID string parses to: an optional `+` sign followed by
/// digits denoting a value up to 255; anything else falls back to zero.
pub open spec fn parse_u8_spec(s: Seq<u8>) -> u8 {
    let t = if s.len() > 0 && s[0] == 43 {
        s.drop_first()
    } else {
        s
    };
    if t.len() > 0 && all_digits(t) && digits_val(t) <= 255 {
        digits_val(t) as u8
    } else {
        0
    }
}

proof fn lemma_digits_val_bounds(s: Seq<u8>)
    requires
        all_digits(s),
    ensures
        digits_val(s) >= 0,
        s.len() > 0 ==> digits_val(s) >= digits_val(s.drop_last()),
    decreases s.len(),
{
    if s.len() > 0 {
        assert(all_digits(s.drop_last()));
        lemma_digits_val_bounds(s.drop_last());
    }
}

proof fn lemma_parse_u8_bad_digit(s: Seq<u8>, j: int)
    requires
        ({
            let t = if s.len() > 0 && s[0] == 43 {
                s.drop_first()
            } else {
                s
            };
            0 <= j < t.len() && !(48 <= t[j] <= 57)
        }),
    ensures
        parse_u8_spec(s) == 0,
{
    let t = if s.len() > 0 && s[0] == 43 {
        s.drop_first()
    } else {
        s
    };
    assert(!all_digits(t));
}

/// Parse the digit-string value, clamping the failure cases to zero.
fn parse_u8_digits(s: &[u8]) -> (r: u8)
    ensures
        r == parse_u8_spec(s@),
{
    let n = s.len();
    let start: usize = if n > 0 && s[0] == 43 {
        1
    } else {
        0
    };
    let ghost t = if s@.len() > 0 && s@[0] == 43 {
        s@.drop_first()
    } else {
        s@
    };
    proof {
        assert(t =~= s@.skip(start as int));
    }
    if start == n {
        return 0;
    }
    let mut acc: u32 = 0;
    let mut over: bool = false;
    let mut i: usize = start;
    while i < n
        invariant
            start <= i <= n,
            n == s@.len(),
            start == if s@.len() > 0 && s@[0] == 43 {
                1int
            } else {
                0int
            },
            t == s@.skip(start as int),
            all_digits(t.take(i - start)),
            !over ==> acc == digits_val(t.take(i - start)) && acc <= 255,
            over ==> digits_val(t.take(i - start)) > 255,
        decreases n - i,
    {
        let c = s[i];
        if c < 48 || c > 57 {
            proof {
                assert(t[i - start] == c);
                lemma_parse_u8_bad_digit(s@, i - start as int);
            }
            return 0;
        }
        let d: u32 = (c - 48) as u32;
        proof {
            assert(t.take(i + 1 - start).drop_last() =~= t.take(i - start));
            assert(t.take(i + 1 - start).last() == t[i - start] == c);
            assert(all_digits(t.take(i + 1 - start)));
            if over {
                lemma_digits_val_bounds(t.take(i + 1 - start));
            }
        }
        if !over {
            if acc > 25 || (acc == 25 && d > 5) {
                over = true;
            } else {
                acc = acc * 10 + d;
            }
        }
        i = i + 1;
    }
    proof {
        assert(t.take(n - start) =~= t);
    }
    if over {
        0
    } else {
        proof {
            assert(t.len() > 0 && all_digits(t) && digits_val(t) <= 255);
        }
        acc as u8
    }
}

/// ASCII whitespace, as `u8::is_ascii_whitespace` classifies it.
pub open spec fn is_ascii_ws(b: u8) -> bool {
    b == 32 || b == 9 || b == 10 || b == 12 || b == 13
}

/// `s` without its trailing ASCII whitespace.
pub open spec fn rtrim(s: Seq<u8>) -> Seq<u8>
    decreases s.len(),
{
    if s.len() > 0 && is_ascii_ws(s.last()) {
        rtrim(s.drop_last())
    } else {
        s
    }
}

/// `s` without its leading ASCII whitespace.
pub open spec fn ltrim(s: Seq<u8>) -> Seq<u8>
    decreases s.len(),
{
    if s.len() > 0 && is_ascii_ws(s.first()) {
        ltrim(s.drop_first())
    } else {
        s
    }
}

/// `s` without leading and trailing ASCII whitespace.
pub open spec fn trim_spec(s: Seq<u8>) -> Seq<u8> {
    ltrim(rtrim(s))
}

proof fn lemma_rtrim_ascii(s: Seq<u8>)
    requires
        forall|i: int| 0 <= i < s.len() ==> #[trigger] s[i] < 128,
    ensures
        forall|i: int| 0 <= i < rtrim(s).len() ==> #[trigger] rtrim(s)[i] < 128,
    decreases s.len(),
{
    if s.len() > 0 && is_ascii_ws(s.last()) {
        assert(forall|i: int|
            0 <= i < s.drop_last().len() ==> #[trigger] s.drop_last()[i] < 128);
        lemma_rtrim_ascii(s.drop_last());
        assert forall|i: int| 0 <= i < rtrim(s).len() implies #[trigger] rtrim(s)[i] < 128 by {
            assert(rtrim(s.drop_last())[i] < 128);
        }
    } else {
        assert forall|i: int| 0 <= i < rtrim(s).len() implies #[trigger] rtrim(s)[i] < 128 by {
            assert(s[i] < 128);
        }
    }
}

proof fn lemma_ltrim_ascii(s: Seq<u8>)
    requires
        forall|i: int| 0 <= i < s.len() ==> #[trigger] s[i] < 128,
    ensures
        forall|i: int| 0 <= i < ltrim(s).len() ==> #[trigger] ltrim(s)[i] < 128,
    decreases s.len(),
{
    if s.len() > 0 && is_ascii_ws(s.first()) {
        assert(forall|i: int|
            0 <= i < s.drop_first().len() ==> #[trigger] s.drop_first()[i] < 128);
        lemma_ltrim_ascii(s.drop_first());
        assert forall|i: int| 0 <= i < ltrim(s).len() implies #[trigger] ltrim(s)[i] < 128 by {
            assert(ltrim(s.drop_first())[i] < 128);
        }
    } else {
        assert forall|i: int| 0 <= i < ltrim(s).len() implies #[trigger] ltrim(s)[i] < 128 by {
            assert(s[i] < 128);
        }
    }
}

/// In valid UTF-8 an ASCII first byte encodes a one-byte scalar, so index
/// one is a character boundary.
proof fn lemma_ascii_first_boundary(bytes: Seq<u8>)
    requires
        vstd::utf8::valid_utf8(bytes),
        bytes.len() > 0,
        bytes[0] < 128,
    ensures
        vstd::utf8::is_char_boundary(bytes, 1),
{
    assert(vstd::utf8::valid_utf8(vstd::utf8::pop_first_scalar(bytes)));
    assert(vstd::utf8::length_of_first_scalar(bytes) == 1);
    assert(vstd::utf8::is_char_boundary(vstd::utf8::pop_first_scalar(bytes), 0));
}

/// ASCII whitespace test for trimming.
fn is_ws_byte(b: u8) -> (r: bool)
    ensures
        r == is_ascii_ws(b),
{
    b == 32 || b == 9 || b == 10 || b == 12 || b == 13
}

/// Split `CALL-SSID` text at the first dash into the callsign text, trimmed
/// of ASCII whitespace, and the numeric SSID; without a dash the whole
/// trimmed input is the callsign text and the SSID is zero, and a malformed
/// SSID falls back to zero.
pub fn split_callsign_ssid(input: &str) -> (r: (&str, u8))
    ensures
        ({
            let bytes = input.spec_bytes();
            let p = find_dash(bytes, 0);
            &&& (p < 0 ==> r.0.spec_bytes() == trim_spec(bytes) && r.1 == 0)
            &&& (p >= 0 ==> r.0.spec_bytes() == trim_spec(bytes.take(p)) && r.1 == parse_u8_spec(
                bytes.skip(p + 1),
            ))
        }),
{
    broadcast use vstd::utf8::encode_utf8_valid_utf8;
    broadcast use vstd::utf8::is_char_boundary_iff_is_leading_byte;

    let bytes = input.as_bytes();
    let n = bytes.len();
    let mut p: usize = 0;
    while p < n && bytes[p] != 45
        invariant
            n == bytes@.len(),
            bytes@ == input.spec_bytes(),
            p <= n,
            find_dash(bytes@, 0) == find_dash(bytes@, p as int),
        decreases n - p,
    {
        p = p + 1;
    }
    let (head, ssid): (&str, u8) = if p == n {
        (input, 0)
    } else {
        proof {
            vstd::utf8::encode_utf8_valid_utf8(input@);
            vstd::utf8::is_char_boundary_iff_is_leading_byte(input.spec_bytes(), p as int);
            assert(vstd::utf8::is_leading_byte_width_1(bytes@[p as int]));
        }
        let pair = input.split_at(p);
        let ssid = parse_u8_digits(vstd::slice::slice_subrange(bytes, p + 1, n));
        proof {
            assert(bytes@.subrange(p + 1, n as int) =~= bytes@.skip(p + 1));
        }
        (pair.0, ssid)
    };
    let ghost hb = head.spec_bytes();
    proof {
        if (p as int) < n {
            assert(hb =~= bytes@.take(p as int));
        }
    }
    // Trim trailing ASCII whitespace from the callsign text.
    let hbytes = head.as_bytes();
    let m = hbytes.len();
    let mut b: usize = m;
    proof {
        assert(hb.take(m as int) =~= hb);
    }
    while b > 0 && is_ws_byte(hbytes[b - 1])
        invariant
            b <= m,
            m == hb.len(),
            hbytes@ == hb,
            rtrim(hb) == rtrim(hb.take(b as int)),
            forall|j: int| b <= j < m ==> is_ascii_ws(#[trigger] hb[j]),
        decreases b,
    {
        proof {
            assert(hb.take(b as int).last() == hb[b - 1]);
            assert(hb.take(b as int).drop_last() =~= hb.take(b - 1));
        }
        b = b - 1;
    }
    proof {
        if b > 0 {
            assert(hb.take(b as int).last() == hb[b - 1]);
        }
        assert(rtrim(hb.take(b as int)) == hb.take(b as int));
    }
    let head_r: &str = if b == m {
        head
    } else {
        proof {
            vstd::utf8::encode_utf8_valid_utf8(head@);
            vstd::utf8::is_char_boundary_iff_is_leading_byte(head.spec_bytes(), b as int);
            assert(hb[b as int] < 128);
            assert(vstd::utf8::is_leading_byte_width_1(hb[b as int]));
        }
        head.split_at(b).0
    };
    proof {
        assert(head_r.spec_bytes() =~= rtrim(hb));
    }
    // Trim leading ASCII whitespace, one one-byte character at a time.
    let mut t: &str = head_r;
    loop
        invariant
            ltrim(t.spec_bytes()) == ltrim(rtrim(hb)),
        ensures
            t.spec_bytes() == trim_spec(hb),
        decreases t.spec_bytes().len(),
    {
        let tb = t.as_bytes();
        if tb.len() == 0 {
            break ;
        }
        let c = tb[0];
        if !is_ws_byte(c) {
            break ;
        }
        proof {
            vstd::utf8::encode_utf8_valid_utf8(t@);
            lemma_ascii_first_boundary(t.spec_bytes());
            assert(t.spec_bytes().subrange(1, t.spec_bytes().len() as int) =~= t.spec_bytes().drop_first());
            assert(ltrim(t.spec_bytes()) == ltrim(t.spec_bytes().drop_first()));
        }
        t = t.split_at(1).1;
    }
    (t, ssid)
}

// ---------------------------------------------------------------------------
// Position frames
// ---------------------------------------------------------------------------
/// Build the complete UI frame for a position report with an explicit
/// address stack.  Fails exactly when more than eight digipeaters are given.
pub fn build_position_frame_from(
    report: &PositionReport,
    dest: AddressField,
    src: AddressField,
    digipeaters: &[AddressField],
) -> (r: Result<Vec<u8>, ()>)
    requires
        report.wf(),
    ensures
        r is Err <==> digipeaters@.len() > ax25::MAX_DIGIPEATERS,
        r matches Ok(frame) ==> {
            &&& frame@ == ax25::ui_frame_bytes(
                dest.bytes(),
                src.bytes(),
                digipeaters@.map_values(|a: AddressField| a.bytes()),
                report.info_spec(),
            )
            &&& frame@.len() <= ax25::MAX_FRAME_LEN
        },
{
    let mut info: Vec<u8> = Vec::new();
    report.encode(&mut info);
    proof {
        assert(info@ =~= report.info_spec());
    }
    ax25::build_ui_frame(dest, src, digipeaters, info.as_slice())
}

/// The callsign part of `CALL-SSID` text, trimmed of ASCII whitespace.
pub open spec fn split_call_spec(s: Seq<u8>) -> Seq<u8> {
    let p = find_dash(s, 0);
    if p < 0 {
        trim_spec(s)
    } else {
        trim_spec(s.take(p))
    }
}

/// The SSID part of `CALL-SSID` text.
pub open spec fn split_ssid_spec(s: Seq<u8>) -> u8 {
    let p = find_dash(s, 0);
    if p < 0 {
        0
    } else {
        parse_u8_spec(s.skip(p + 1))
    }
}

/// The information field never exceeds 70 bytes: one identifier byte, at
/// most seven timestamp bytes, eight latitude bytes, one symbol table byte,
/// nine longitude bytes, one symbol code byte and at most 43 comment bytes.
pub proof fn lemma_info_len(report: PositionReport)
    requires
        report.wf(),
    ensures
        report.info_spec().len() <= 70,
        report.info_spec().len() <= crate::ax25::MAX_INFO_LEN,
{
}

/// The position frame for the configured station: destination `co::TOCALL`,
/// source `co::MYCALL`, the configured digipeater path, and the report's
/// information field.
pub open spec fn position_frame_spec(report: PositionReport) -> Seq<u8> {
    ax25::ui_frame_bytes(
        address_bytes(
            split_call_spec(crate::co::TOCALL.spec_bytes()),
            split_ssid_spec(crate::co::TOCALL.spec_bytes()),
        ),
        address_bytes(
            split_call_spec(crate::co::MYCALL.spec_bytes()),
            split_ssid_spec(crate::co::MYCALL.spec_bytes()),
        ),
        seq![address_bytes(crate::co::DIGI_CALL.spec_bytes(), crate::co::DIGI_SSID)],
        report.info_spec(),
    )
}

/// A configured position frame is small: three addresses, control, PID, at
/// most 70 information bytes and the FCS.
pub proof fn lemma_position_frame_len(report: PositionReport)
    requires
        report.wf(),
    ensures
        position_frame_spec(report).len() <= 95,
{
    lemma_info_len(report);
    let toc = crate::co::TOCALL.spec_bytes();
    let myc = crate::co::MYCALL.spec_bytes();
    let ds = seq![address_bytes(crate::co::DIGI_CALL.spec_bytes(), crate::co::DIGI_SSID)];
    assert(forall|i: int| 0 <= i < ds.len() ==> (#[trigger] ds[i]).len() == 7);
    ax25::lemma_ui_frame_well_formed(
        address_bytes(split_call_spec(toc), split_ssid_spec(toc)),
        address_bytes(split_call_spec(myc), split_ssid_spec(myc)),
        ds,
        report.info_spec(),
    );
}

/// Position of the first dash, when there is one, lies within the string.
proof fn lemma_find_dash_range(s: Seq<u8>, i: int)
    requires
        0 <= i,
    ensures
        find_dash(s, i) == -1 || i <= find_dash(s, i) < s.len(),
    decreases s.len() - i,
{
    if 0 <= i < s.len() && s[i] != 45 {
        lemma_find_dash_range(s, i + 1);
    }
}

/// An all-ASCII string yields encodable callsign text, whole or split at a
/// dash.
proof fn lemma_ascii_call_ok(s: &str)
    requires
        vstd::utf8::is_ascii_chars(s@),
    ensures
        call_ok(s.spec_bytes()),
        call_ok(split_call_spec(s.spec_bytes())),
{
    vstd::utf8::is_ascii_chars_encode_utf8(s@);
    vstd::utf8::is_ascii_chars_nat_bound(s@);
    let bytes = s.spec_bytes();
    assert forall|i: int| 0 <= i < bytes.len() implies bytes[i] < 128 by {
        assert(bytes[i] == s@[i] as u8);
        assert((s@[i] as nat) < 128);
    }
    let p = find_dash(bytes, 0);
    lemma_find_dash_range(bytes, 0);
    if p >= 0 {
        let h = bytes.take(p);
        assert(forall|i: int| 0 <= i < h.len() ==> #[trigger] h[i] < 128);
        lemma_rtrim_ascii(h);
        lemma_ltrim_ascii(rtrim(h));
    } else {
        lemma_rtrim_ascii(bytes);
        lemma_ltrim_ascii(rtrim(bytes));
    }
}

/// The configured callsigns hold only ASCII bytes, so encoding the
/// station's address stack always succeeds.
pub proof fn lemma_config_calls_ok()
    ensures
        call_ok(split_call_spec(crate::co::TOCALL.spec_bytes())),
        call_ok(split_call_spec(crate::co::MYCALL.spec_bytes())),
        call_ok(crate::co::DIGI_CALL.spec_bytes()),
{
    reveal_strlit("APZ   ");
    reveal_strlit("KI7TUK-1");
    reveal_strlit("WIDE1");
    assert(vstd::utf8::is_ascii_chars(crate::co::TOCALL@));
    assert(vstd::utf8::is_ascii_chars(crate::co::MYCALL@));
    assert(vstd::utf8::is_ascii_chars(crate::co::DIGI_CALL@));
    lemma_ascii_call_ok(crate::co::TOCALL);
    lemma_ascii_call_ok(crate::co::MYCALL);
    lemma_ascii_call_ok(crate::co::DIGI_CALL);
}

/// Build the position frame for the configured station: destination
/// `co::TOCALL`, source `co::MYCALL`, the configured digipeater path, and
/// the report's information field.  Fails exactly when a configured callsign
/// holds a non-ASCII byte.
pub fn build_position_frame(report: &PositionReport) -> (r: Result<Vec<u8>, ()>)
    requires
        report.wf(),
    ensures
        ({
            let toc = crate::co::TOCALL.spec_bytes();
            let myc = crate::co::MYCALL.spec_bytes();
            let digi = crate::co::DIGI_CALL.spec_bytes();
            &&& (r is Ok <==> call_ok(split_call_spec(toc)) && call_ok(split_call_spec(myc))
                && call_ok(digi))
            &&& (r matches Ok(frame) ==> frame@ == position_frame_spec(*report))
        }),
{
    let (dest_call, dest_ssid) = split_callsign_ssid(crate::co::TOCALL);
    let (src_call, src_ssid) = split_callsign_ssid(crate::co::MYCALL);
    let dest = match AddressField::from_text(dest_call, dest_ssid) {
        Ok(a) => a,
        Err(_) => {
            return Err(());
        },
    };
    let src = match AddressField::from_text(src_call, src_ssid) {
        Ok(a) => a,
        Err(_) => {
            return Err(());
        },
    };
    let digi = match AddressField::from_text(crate::co::DIGI_CALL, crate::co::DIGI_SSID) {
        Ok(a) => a,
        Err(_) => {
            return Err(());
        },
    };
    let digipeaters: [AddressField; 1] = [digi];
    let r = build_position_frame_from(report, dest, src, digipeaters.as_slice());
    proof {
        assert(digipeaters@.map_values(|a: AddressField| a.bytes()) =~= seq![
            address_bytes(crate::co::DIGI_CALL.spec_bytes(), crate::co::DIGI_SSID),
        ]);
    }
    r
}

} // verus!
