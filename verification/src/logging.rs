//! Text of the per-session evidence log: file and folder names, CSV rows
//! and UTC timestamps. Writing the files is left to the caller.

use crate::calendar::{civil_from_days, date_after_epoch, lemma_civil_from_days_is_calendar};
use crate::text::{append_str, decimal_digits, push_char, push_padded, zero_padded};
use vstd::prelude::*;

verus! {

/// First line of `events.csv`.
pub const EVENTS_CSV_HEADER: &'static str = "timestamp_utc,epoch_ms,event,name,student_id";

/// Name of the audit file inside a session folder.
pub const EVENTS_FILE_NAME: &'static str = "events.csv";

pub open spec fn is_ascii_alphanumeric(c: char) -> bool {
    let u = c as u32;
    ||| 0x30 <= u <= 0x39
    ||| 0x41 <= u <= 0x5a
    ||| 0x61 <= u <= 0x7a
}

fn ascii_alphanumeric(c: char) -> (r: bool)
    ensures
        r == is_ascii_alphanumeric(c),
{
    ('0' <= c && c <= '9') || ('A' <= c && c <= 'Z') || ('a' <= c && c <= 'z')
}

pub open spec fn unknown_label() -> Seq<char> {
    seq!['u', 'n', 'k', 'n', 'o', 'w', 'n']
}

/// A name safe to use as a file or folder name: every character that is not
/// an ASCII letter or digit becomes `_`, and an empty name becomes "unknown".
pub open spec fn sanitized(s: Seq<char>) -> Seq<char> {
    if s.len() == 0 {
        unknown_label()
    } else {
        s.map_values(|c: char| if is_ascii_alphanumeric(c) { c } else { '_' })
    }
}

pub fn sanitize(value: &str) -> (r: String)
    ensures
        r@ == sanitized(value@),
{
    let mut out = String::new();
    let ghost chars = value@;
    let ghost mapped = chars.map_values(|c: char| if is_ascii_alphanumeric(c) { c } else { '_' });
    for c in iter: value.chars()
        invariant
            iter.seq() == chars,
            mapped == chars.map_values(|c: char| if is_ascii_alphanumeric(c) { c } else { '_' }),
            out@ == mapped.take(iter.index() as int),
    {
        if ascii_alphanumeric(c) {
            push_char(&mut out, c);
        } else {
            push_char(&mut out, '_');
        }
        assert(out@ =~= mapped.take(iter.index() + 1));
    }
    assert(mapped.take(chars.len() as int) =~= mapped);
    if out.as_str().is_empty() {
        let unknown = "unknown";
        proof {
            reveal_strlit("unknown");
        }
        assert(unknown@ =~= unknown_label());
        return unknown.to_owned();
    }
    out
}

pub open spec fn needs_csv_quotes(c: char) -> bool {
    c == ',' || c == '"' || c == '\n'
}

/// `s` with every `"` doubled.
pub open spec fn double_quotes(s: Seq<char>) -> Seq<char>
    decreases s.len(),
{
    if s.len() == 0 {
        s
    } else if s.last() == '"' {
        double_quotes(s.drop_last()).push('"').push('"')
    } else {
        double_quotes(s.drop_last()).push(s.last())
    }
}

/// A CSV field: quoted, with `"` doubled, when it holds a comma, a quote or
/// a newline; as it is otherwise.
pub open spec fn csv_field(s: Seq<char>) -> Seq<char> {
    if exists|i: int| 0 <= i < s.len() && needs_csv_quotes(#[trigger] s[i]) {
        seq!['"'] + double_quotes(s) + seq!['"']
    } else {
        s
    }
}

pub fn csv_escape(value: &str) -> (r: String)
    ensures
        r@ == csv_field(value@),
{
    let ghost chars = value@;
    let mut found = false;
    for c in iter: value.chars()
        invariant
            iter.seq() == chars,
            found == exists|i: int| 0 <= i < iter.index() && needs_csv_quotes(#[trigger] chars[i]),
    {
        if c == ',' || c == '"' || c == '\n' {
            found = true;
        }
        assert(chars[iter.index() as int] == c);
    }
    if !found {
        return value.to_owned();
    }
    let mut out = String::new();
    push_char(&mut out, '"');
    for c in iter: value.chars()
        invariant
            iter.seq() == chars,
            out@ == seq!['"'] + double_quotes(chars.take(iter.index() as int)),
    {
        proof {
            let next = chars.take(iter.index() + 1);
            assert(next.drop_last() =~= chars.take(iter.index() as int));
            assert(next.last() == c);
        }
        if c == '"' {
            push_char(&mut out, '"');
            push_char(&mut out, '"');
        } else {
            push_char(&mut out, c);
        }
        assert(out@ =~= seq!['"'] + double_quotes(chars.take(iter.index() + 1)));
    }
    assert(chars.take(chars.len() as int) =~= chars);
    push_char(&mut out, '"');
    assert(out@ =~= seq!['"'] + double_quotes(chars) + seq!['"']);
    out
}

/// An integer as `{:0width$}` formats it: a minus sign for negative values,
/// then the digits, zero-padded so that sign and digits fill `width`.
pub open spec fn signed_padded(n: int, width: nat) -> Seq<char> {
    if n < 0 {
        seq!['-'] + zero_padded(decimal_digits((-n) as nat), if width > 0 {
            (width - 1) as nat
        } else {
            0
        })
    } else {
        zero_padded(decimal_digits(n as nat), width)
    }
}

/// The seconds that a millisecond timestamp stands for, taken as an `i64`
/// (the low 64 bits, as a cast does).
pub open spec fn timestamp_seconds(ms: u128) -> int {
    ((ms / 1000) as i64) as int
}

/// `YYYY-MM-DD HH:MM:SSZ` for an epoch-millisecond timestamp (UTC).
pub open spec fn utc_text(ms: u128) -> Seq<char> {
    let secs = timestamp_seconds(ms);
    let days = secs / 86400;
    let tod = secs % 86400;
    let (y, m, d) = date_after_epoch(days);
    signed_padded(y, 4) + seq!['-'] + signed_padded(m, 2) + seq!['-'] + signed_padded(d, 2)
        + seq![' '] + signed_padded(tod / 3600, 2) + seq![':'] + signed_padded((tod % 3600) / 60, 2)
        + seq![':'] + signed_padded(tod % 60, 2) + seq!['Z']
}

fn push_signed_padded(out: &mut String, n: i64, width: usize)
    requires
        width >= 1,
    ensures
        final(out)@ == old(out)@ + signed_padded(n as int, width as nat),
{
    if n < 0 {
        push_char(out, '-');
        let magnitude: u128 = (-(n as i128)) as u128;
        push_padded(out, magnitude, width - 1);
        assert(final(out)@ =~= old(out)@ + signed_padded(n as int, width as nat));
    } else {
        push_padded(out, n as u128, width);
    }
}

/// Floor division and remainder of a signed value by a positive divisor.
fn floor_divmod(n: i64, d: i64) -> (r: (i64, i64))
    requires
        d > 0,
    ensures
        r.0 as int == (n as int) / (d as int),
        r.1 as int == (n as int) % (d as int),
        0 <= r.1 < d,
{
    if n >= 0 {
        let q = (n as u64 / d as u64) as i64;
        let rem = (n as u64 % d as u64) as i64;
        (q, rem)
    } else {
        let m: u64 = (-(n as i128) - 1) as u64;
        let q0 = m / (d as u64);
        let r0 = m % (d as u64);
        assert(q0 <= m);
        let q = -(q0 as i64) - 1;
        let rem = (d as u64 - 1 - r0) as i64;
        proof {
            let qi = q0 as int;
            let di = d as int;
            vstd::arithmetic::div_mod::lemma_fundamental_div_mod(m as int, di);
            assert(m as int == di * qi + r0 as int);
            assert((-qi - 1) * di == -(di * qi) - di) by (nonlinear_arith);
            assert(n as int == (-qi - 1) * di + rem as int);
            vstd::arithmetic::div_mod::lemma_fundamental_div_mod_converse(
                n as int,
                di,
                -qi - 1,
                rem as int,
            );
        }
        (q, rem)
    }
}

/// The (year, month, day) that lies `days` days after 1970-01-01, by
/// Hinnant's `civil_from_days`.
fn civil_date(days: i64) -> (r: (i64, i64, i64))
    requires
        -200000000000000 <= days <= 200000000000000,
    ensures
        (r.0 as int, r.1 as int, r.2 as int) == date_after_epoch(days as int),
{
    proof {
        lemma_civil_from_days_is_calendar(days as int);
    }
    let z = days + 719468;
    let (era, doe) = floor_divmod(z, 146097);
    proof {
        vstd::arithmetic::div_mod::lemma_fundamental_div_mod(z as int, 146097);
        assert(-3000000000 <= era <= 3000000000) by (nonlinear_arith)
            requires
                z as int == 146097 * (era as int) + doe as int,
                0 <= doe < 146097,
                -300000000000000 <= z <= 300000000000000,
        ;
    }
    let yoe = (doe - doe / 1460 + doe / 36524 - doe / 146096) / 365;
    assert(0 <= yoe <= 500);
    let year = yoe + era * 400;
    let doy = doe - (365 * yoe + yoe / 4 - yoe / 100);
    let mp = (5 * doy + 2) / 153;
    let day = doy - (153 * mp + 2) / 5 + 1;
    let month = if mp < 10 {
        mp + 3
    } else {
        mp - 9
    };
    let year = if month <= 2 {
        year + 1
    } else {
        year
    };
    assert((year as int, month as int, day as int) == civil_from_days(days as int));
    (year, month, day)
}

/// Formats an epoch-millisecond timestamp as `YYYY-MM-DD HH:MM:SSZ` (UTC).
pub fn format_utc(ms: u128) -> (r: String)
    ensures
        r@ == utc_text(ms),
{
    let secs: i64 = (ms / 1000) as i64;
    let (days, tod) = floor_divmod(secs, 86400);
    assert(-200000000000000 <= days <= 200000000000000) by (nonlinear_arith)
        requires
            days as int == (secs as int) / 86400,
            i64::MIN <= secs <= i64::MAX,
    ;
    let (year, month, day) = civil_date(days);
    let hour = tod / 3600;
    let minute = (tod % 3600) / 60;
    let second = tod % 60;
    let mut out = String::new();
    push_signed_padded(&mut out, year, 4);
    push_char(&mut out, '-');
    push_signed_padded(&mut out, month, 2);
    push_char(&mut out, '-');
    push_signed_padded(&mut out, day, 2);
    push_char(&mut out, ' ');
    push_signed_padded(&mut out, hour, 2);
    push_char(&mut out, ':');
    push_signed_padded(&mut out, minute, 2);
    push_char(&mut out, ':');
    push_signed_padded(&mut out, second, 2);
    push_char(&mut out, 'Z');
    assert(out@ =~= utc_text(ms));
    out
}

/// One row of `events.csv`: UTC time, epoch milliseconds, event kind, then
/// the student's name and ID as CSV fields, ended by a newline.
pub fn event_line(ms: u128, kind: &str, name: &str, student_id: &str) -> (r: String)
    ensures
        r@ == utc_text(ms) + seq![','] + decimal_digits(ms as nat) + seq![','] + kind@ + seq![',']
            + csv_field(name@) + seq![','] + csv_field(student_id@) + seq!['\n'],
{
    let mut out = format_utc(ms);
    push_char(&mut out, ',');
    crate::text::push_decimal(&mut out, ms);
    push_char(&mut out, ',');
    append_str(&mut out, kind);
    push_char(&mut out, ',');
    let name_field = csv_escape(name);
    append_str(&mut out, name_field.as_str());
    push_char(&mut out, ',');
    let id_field = csv_escape(student_id);
    append_str(&mut out, id_field.as_str());
    push_char(&mut out, '\n');
    out
}

/// Folder of one session's evidence: `<room>_<start seconds>`, the room
/// sanitized.
pub fn session_dir_name(room: &str, start_secs: u64) -> (r: String)
    ensures
        r@ == sanitized(room@) + seq!['_'] + decimal_digits(start_secs as nat),
{
    let mut out = sanitize(room);
    push_char(&mut out, '_');
    crate::text::push_decimal(&mut out, start_secs as u128);
    out
}

/// File of one saved frame: `<label>_<seconds>.jpg`, the label sanitized.
pub fn frame_file_name(label: &str, secs: u64) -> (r: String)
    ensures
        r@ == sanitized(label@) + seq!['_'] + decimal_digits(secs as nat) + seq!['.', 'j', 'p', 'g'],
{
    let mut out = sanitize(label);
    push_char(&mut out, '_');
    crate::text::push_decimal(&mut out, secs as u128);
    push_char(&mut out, '.');
    push_char(&mut out, 'j');
    push_char(&mut out, 'p');
    push_char(&mut out, 'g');
    out
}

} // verus!
