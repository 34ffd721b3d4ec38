use vstd::prelude::*;
use vstd::string::StringExecFns;
use crate::util::text::{
    append_decimal,
    append_two_digits,
    decimal,
    lemma_decimal_four_digits,
    lemma_two_digits_exact,
    two_digits,
};

verus! {

/// A date and time of day, ordered by year first and second last.
#[derive(Clone, Copy, Debug, PartialEq, Eq, PartialOrd, Ord, Structural)]
pub struct SysTime {
    pub year: u32,
    pub month: u32,
    pub day: u32,
    pub hour: u32,
    pub minute: u32,
    pub second: u32,
}

impl SysTime {
    pub fn new(year: u32, month: u32, day: u32, hour: u32, minute: u32, second: u32) -> (t: SysTime)
        ensures
            t == (SysTime { year, month, day, hour, minute, second }),
    {
        SysTime { year, month, day, hour, minute, second }
    }
}

/// Whether status register A says that the clock is being updated (bit 7),
/// so that its registers are not to be read yet.
pub fn update_in_progress(status_a: u8) -> (r: bool)
    ensures
        r == (status_a >= 0x80),
{
    let bit = status_a & 0x80;
    assert((bit != 0) == (status_a >= 0x80)) by (bit_vector)
        requires
            bit == status_a & 0x80,
    ;
    bit != 0
}

/// Whether two readings of the clock registers agree, so that the clock did
/// not move between them.
pub fn readings_agree(a: &SysTime, b: &SysTime) -> (r: bool)
    ensures
        r == (*a == *b),
{
    *a == *b
}

/// The number written in binary-coded decimal as `v`: the low nibble is
/// the units digit, the rest the tens.
pub open spec fn bcd_value(v: int) -> int {
    v % 16 + (v / 16) * 10
}

pub fn bcd2bin(v: u32) -> (r: u32)
    requires
        bcd_value(v as int) <= u32::MAX,
    ensures
        r == bcd_value(v as int),
{
    let low = v & 0xf;
    let high = v >> 4u32;
    assert(low == v % 16 && high == v / 16) by (bit_vector)
        requires
            low == v & 0xf,
            high == v >> 4u32,
    ;
    low + high * 10
}

/// A CMOS clock register read as a number, `v` being binary-coded decimal
/// unless `binary`.
pub open spec fn register_value(v: u32, binary: bool) -> u32 {
    if binary {
        v
    } else {
        bcd_value(v as int) as u32
    }
}

/// The CMOS clock registers hold bytes.
pub open spec fn raw_ok(raw: SysTime) -> bool {
    raw.year <= 0xff && raw.month <= 0xff && raw.day <= 0xff && raw.hour <= 0xff && raw.minute
        <= 0xff && raw.second <= 0xff
}

/// The hour on a 24-hour clock: on a 12-hour clock, 12 in the morning is
/// 0, any other morning hour stays, 12 in the afternoon stays and any other
/// afternoon hour `h` is `h + 12`.
pub open spec fn hour_24(hour: u32, clock24: bool, pm: bool) -> u32 {
    if clock24 {
        hour
    } else if pm {
        if hour == 12 {
            12
        } else {
            (hour + 12) as u32
        }
    } else if hour == 12 {
        0
    } else {
        hour
    }
}

/// The time that the CMOS clock registers `raw` stand for, given status
/// register B: bit 2 set means binary values (otherwise BCD), bit 1 set
/// means a 24-hour clock (otherwise bit 7 of the hour marks the afternoon
/// and the hour is turned into a 24-hour one); the year counts from 2000.
pub open spec fn time_from_registers(raw: SysTime, status_b: u8) -> SysTime {
    let binary = (status_b / 4) % 2 == 1;
    let clock24 = (status_b / 2) % 2 == 1;
    let pm = raw.hour >= 0x80;
    let hour = register_value(raw.hour % 0x80, binary);
    SysTime {
        year: (register_value(raw.year, binary) + 2000) as u32,
        month: register_value(raw.month, binary),
        day: register_value(raw.day, binary),
        hour: hour_24(hour, clock24, pm),
        minute: register_value(raw.minute, binary),
        second: register_value(raw.second, binary),
    }
}

/// The time from a stable reading `raw` of the CMOS clock registers (two
/// reads in a row that agree) and status register B.
pub fn get(raw: SysTime, status_b: u8) -> (t: SysTime)
    requires
        raw_ok(raw),
    ensures
        t == time_from_registers(raw, status_b),
{
    let mut cur_time = raw;
    let status: u32 = status_b as u32;
    let hour_h8 = cur_time.hour & 0x80;
    let h = cur_time.hour;
    cur_time.hour = cur_time.hour & !0x80u32;
    assert((hour_h8 != 0) == (h >= 0x80) && h & !0x80u32 == h % 0x80) by (bit_vector)
        requires
            hour_h8 == h & 0x80,
            h <= 0xff,
    ;
    let binary = (!status & 0x4) == 0;
    let clock24 = (!status & 0x2) == 0;
    assert(binary == ((status_b / 4) % 2 == 1) && clock24 == ((status_b / 2) % 2 == 1))
        by (bit_vector)
        requires
            status == status_b as u32,
            binary == ((!status & 0x4) == 0),
            clock24 == ((!status & 0x2) == 0),
    ;
    if !binary {
        cur_time = SysTime {
            second: bcd2bin(cur_time.second),
            minute: bcd2bin(cur_time.minute),
            hour: bcd2bin(cur_time.hour),
            day: bcd2bin(cur_time.day),
            month: bcd2bin(cur_time.month),
            year: bcd2bin(cur_time.year),
        };
    }
    // convert 12 hour to 24 hour if necessary.
    if !clock24 {
        if hour_h8 != 0 {
            if cur_time.hour != 12 {
                cur_time.hour = cur_time.hour + 12;
            }
        } else if cur_time.hour == 12 {
            cur_time.hour = 0;
        }
    }
    // 2-digit to full 4-digit.
    cur_time.year += 2000;
    cur_time
}

/// How each field of the time is read from the clock registers. With
/// status B bit 2 clear, every register, the hour among them (without its
/// top bit) whatever the clock, holds binary-coded decimal: the low nibble
/// is the units digit and the high nibble the tens. With bit 2 set the
/// registers hold the numbers themselves. The year counts from 2000. On a
/// 24-hour clock (bit 1 set) the hour is the register's number; on a
/// 12-hour clock, 12 in the morning is 0, 12 in the afternoon is 12, and any
/// other afternoon hour `h` is `h + 12`.
pub proof fn lemma_get_fields(raw: SysTime, status_b: u8)
    requires
        raw_ok(raw),
    ensures
        ({
            let t = time_from_registers(raw, status_b);
            let bcd = status_b & 4 == 0;
            let h = raw.hour % 128;
            let hour = if bcd {
                h % 16 + (h / 16) * 10
            } else {
                h as int
            };
            let pm = raw.hour >= 128;
            &&& bcd ==> t.year == raw.year % 16 + (raw.year / 16) * 10 + 2000
            &&& bcd ==> t.month == raw.month % 16 + (raw.month / 16) * 10
            &&& bcd ==> t.day == raw.day % 16 + (raw.day / 16) * 10
            &&& bcd ==> t.minute == raw.minute % 16 + (raw.minute / 16) * 10
            &&& bcd ==> t.second == raw.second % 16 + (raw.second / 16) * 10
            &&& !bcd ==> t.year == raw.year + 2000
            &&& !bcd ==> (t.month == raw.month && t.day == raw.day && t.minute == raw.minute
                && t.second == raw.second)
            &&& status_b & 2 != 0 ==> t.hour == hour
            &&& (status_b & 2 == 0 && !pm) ==> t.hour == (if hour == 12 {
                0
            } else {
                hour
            })
            &&& (status_b & 2 == 0 && pm) ==> t.hour == (if hour == 12 {
                12
            } else {
                hour + 12
            })
        }),
{
    assert((status_b & 4 == 0) == ((status_b / 4) % 2 == 0) && (status_b & 2 == 0) == ((
    status_b / 2) % 2 == 0)) by (bit_vector);
}

/// `t` written as year/month/day hour:minute:second.
pub open spec fn display_spec(t: SysTime) -> Seq<char> {
    decimal(t.year as nat) + seq!['/'] + two_digits(t.month as nat) + seq!['/'] + two_digits(
        t.day as nat,
    ) + seq![' '] + two_digits(t.hour as nat) + seq![':'] + two_digits(t.minute as nat) + seq![':']
        + two_digits(t.second as nat)
}

/// A time with a four-digit year and every other field below 100 is written
/// in 19 characters, "YYYY/MM/DD hh:mm:ss": each field but the year is
/// exactly two digits, with a '0' in front only of a value below 10.
pub proof fn lemma_display_layout(t: SysTime)
    requires
        1000 <= t.year <= 9999,
        t.month < 100,
        t.day < 100,
        t.hour < 100,
        t.minute < 100,
        t.second < 100,
    ensures
        display_spec(t) == seq![
            ((t.year / 1000 + 48) as char),
            ((t.year / 100 % 10 + 48) as char),
            ((t.year / 10 % 10 + 48) as char),
            ((t.year % 10 + 48) as char),
            '/',
            ((t.month / 10 + 48) as char),
            ((t.month % 10 + 48) as char),
            '/',
            ((t.day / 10 + 48) as char),
            ((t.day % 10 + 48) as char),
            ' ',
            ((t.hour / 10 + 48) as char),
            ((t.hour % 10 + 48) as char),
            ':',
            ((t.minute / 10 + 48) as char),
            ((t.minute % 10 + 48) as char),
            ':',
            ((t.second / 10 + 48) as char),
            ((t.second % 10 + 48) as char),
        ],
{
    lemma_decimal_four_digits(t.year as nat);
    lemma_two_digits_exact(t.month as nat);
    lemma_two_digits_exact(t.day as nat);
    lemma_two_digits_exact(t.hour as nat);
    lemma_two_digits_exact(t.minute as nat);
    lemma_two_digits_exact(t.second as nat);
    assert(display_spec(t) =~= seq![
        ((t.year / 1000 + 48) as char),
        ((t.year / 100 % 10 + 48) as char),
        ((t.year / 10 % 10 + 48) as char),
        ((t.year % 10 + 48) as char),
        '/',
        ((t.month / 10 + 48) as char),
        ((t.month % 10 + 48) as char),
        '/',
        ((t.day / 10 + 48) as char),
        ((t.day % 10 + 48) as char),
        ' ',
        ((t.hour / 10 + 48) as char),
        ((t.hour % 10 + 48) as char),
        ':',
        ((t.minute / 10 + 48) as char),
        ((t.minute % 10 + 48) as char),
        ':',
        ((t.second / 10 + 48) as char),
        ((t.second % 10 + 48) as char),
    ]);
}

impl SysTime {
    /// The time written as year/month/day hour:minute:second, each field
    /// but the year with at least two digits.
    pub fn display(&self) -> (s: String)
        ensures
            s@ == display_spec(*self),
    {
        proof {
            reveal_strlit("/");
            reveal_strlit(" ");
            reveal_strlit(":");
        }
        let mut s = String::new();
        append_decimal(&mut s, self.year);
        s.append("/");
        append_two_digits(&mut s, self.month);
        s.append("/");
        append_two_digits(&mut s, self.day);
        s.append(" ");
        append_two_digits(&mut s, self.hour);
        s.append(":");
        append_two_digits(&mut s, self.minute);
        s.append(":");
        append_two_digits(&mut s, self.second);
        s
    }
}

} // verus!
