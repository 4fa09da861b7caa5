//! Rendering of a decoded record as a human-readable block of text:
//! timestamp and level prefix, request sub-block, status and duration lines,
//! ANSI coloring, and width-aware truncation.

use vstd::prelude::*;
use vstd::string::{StringExecFns, StrSliceExecFns};
use crate::ip::{spec_socket_text, push_socket_text};
use crate::level::{LogLevel, spec_label};
use crate::record::{
    LogRecord, LogRequest, RecordV, RequestV, record_wf, request_wf, is_visible_char,
};
use crate::text::{dec_str, push_char, push_dec_u64};

verus! {

broadcast use vstd::seq::group_seq_axioms, vstd::std_specs::vec::group_vec_axioms;

// ---------------------------------------------------------------------------
// Trusted renderings from outside crates
// ---------------------------------------------------------------------------

/// The text of the instant `ns` nanoseconds after the Unix epoch, rendered in
/// UTC as `YYYY-MM-DDThh:mm:ss.ffffff+00:00`; a function of `ns` alone.
pub uninterp spec fn timestamp_text_of(ns: int) -> Seq<char>;

/// The canonical reason phrase of an HTTP status code, when one is known;
/// a function of the code alone.
pub uninterp spec fn status_reason(code: int) -> Option<Seq<char>>;

/// Relies on time::OffsetDateTime::from_unix_timestamp_nanos and
/// OffsetDateTime::format with a runtime-parsed description: the rendering
/// depends on the nanosecond value alone. The admitted range is the range of
/// instants the crate accepts (years -9999 to 9999).
#[verifier::external_body]
fn format_epoch_ns(ns: i128) -> (r: String)
    requires
        -377_705_116_800_000_000_000 <= ns <= 253_402_300_799_999_999_999,
    ensures
        r@ == timestamp_text_of(ns as int),
{
    let desc = time::format_description::parse(
        "[year]-[month]-[day]T[hour]:[minute]:[second].[subsecond digits:6][offset_hour sign:mandatory]:[offset_minute]",
    ).unwrap();
    let odt = time::OffsetDateTime::from_unix_timestamp_nanos(ns).unwrap();
    odt.format(&desc).unwrap()
}

/// Relies on http::StatusCode::from_u16 (accepts 100 through 999) and
/// StatusCode::canonical_reason: the phrase depends on the code alone.
#[verifier::external_body]
fn lookup_reason(code: u16) -> (r: Option<String>)
    requires
        100 <= code <= 999,
    ensures
        match r {
            Some(s) => status_reason(code as int) == Some(s@),
            None => status_reason(code as int) is None,
        },
{
    match http::StatusCode::from_u16(code) {
        Ok(s) => match s.canonical_reason() {
            Some(t) => Some(t.to_string()),
            None => None,
        },
        Err(_) => None,
    }
}

// ---------------------------------------------------------------------------
// Coloring
// ---------------------------------------------------------------------------

/// ANSI coloring: an escape introducer, the style code, the text, and a
/// reset; or the bare text when color is off.
pub open spec fn spec_colorize(txt: Seq<char>, code: Seq<char>, on: bool) -> Seq<char> {
    if on {
        "\u{1b}["@ + code + "m"@ + txt + "\u{1b}[0m"@
    } else {
        txt
    }
}

/// The style code of each level: yellow, cyan, magenta, red, reverse video.
pub open spec fn spec_level_code(level: LogLevel) -> Seq<char> {
    match level {
        LogLevel::Debug => "33"@,
        LogLevel::Info => "36"@,
        LogLevel::Warn => "35"@,
        LogLevel::Error => "31"@,
        LogLevel::Panic => "7"@,
        LogLevel::Fatal => "7"@,
    }
}

pub open spec fn spec_level_text(level: LogLevel, color: bool) -> Seq<char> {
    spec_colorize(spec_label(level), spec_level_code(level), color)
}

/// The status code colored by class: informational and success green,
/// redirection cyan, client and server errors red, anything else plain.
pub open spec fn spec_status_code_text(code: int, color: bool) -> Seq<char> {
    if 100 <= code <= 299 {
        spec_colorize(dec_str(code), "32"@, color)
    } else if 300 <= code <= 399 {
        spec_colorize(dec_str(code), "36"@, color)
    } else if 400 <= code <= 599 {
        spec_colorize(dec_str(code), "31"@, color)
    } else {
        dec_str(code)
    }
}

pub open spec fn spec_status_line(code: int, color: bool) -> Seq<char> {
    let head = "    status          "@ + spec_status_code_text(code, color);
    match status_reason(code) {
        Some(reason) => head + " "@ + reason,
        None => head,
    }
}

// ---------------------------------------------------------------------------
// Duration text
// ---------------------------------------------------------------------------

/// Round `x / d` to the nearest integer, ties to even.
pub open spec fn spec_rhe(x: int, d: int) -> int {
    let q = x / d;
    let r = x % d;
    if 2 * r > d {
        q + 1
    } else if 2 * r == d {
        if q % 2 == 0 {
            q
        } else {
            q + 1
        }
    } else {
        q
    }
}

/// Three digits, zero-padded.
pub open spec fn spec_pad3(v: int) -> Seq<char> {
    if v < 10 {
        "00"@ + dec_str(v)
    } else if v < 100 {
        "0"@ + dec_str(v)
    } else {
        dec_str(v)
    }
}

/// Adaptive units: microseconds under a millisecond, milliseconds under a
/// second, seconds under a minute, else whole minutes plus seconds; all
/// fractions shown with three digits.
pub open spec fn spec_duration_text(ns: int) -> Seq<char> {
    if ns < 1_000_000 {
        let a = if ns < 0 {
            -ns
        } else {
            ns
        };
        let sign: Seq<char> = if ns < 0 {
            "-"@
        } else {
            Seq::empty()
        };
        sign + dec_str(a / 1000) + "."@ + spec_pad3(a % 1000) + " us"@
    } else if ns < 1_000_000_000 {
        let q = spec_rhe(ns, 1000);
        dec_str(q / 1000) + "."@ + spec_pad3(q % 1000) + " ms"@
    } else if ns < 60_000_000_000 {
        let q = spec_rhe(ns, 1_000_000);
        dec_str(q / 1000) + "."@ + spec_pad3(q % 1000) + " s"@
    } else {
        let minutes = ns / 60_000_000_000;
        let rem = ns % 60_000_000_000;
        let q = spec_rhe(rem, 1_000_000);
        dec_str(minutes) + " m "@ + dec_str(q / 1000) + "."@ + spec_pad3(q % 1000) + " s"@
    }
}

pub open spec fn spec_duration_line(ns: int) -> Seq<char> {
    "    duration        "@ + spec_duration_text(ns)
}

// ---------------------------------------------------------------------------
// Truncation
// ---------------------------------------------------------------------------

/// Width-aware truncation: a line longer than the width keeps its first
/// `width - 2` characters and gains an ellipsis; without a width nothing
/// changes. Lengths are character counts.
pub open spec fn spec_truncate(line: Seq<char>, width: Option<u16>) -> Seq<char> {
    match width {
        None => line,
        Some(w) => {
            if line.len() > w {
                let keep: int = if w >= 2 {
                    w - 2
                } else {
                    0
                };
                line.subrange(0, keep) + seq!['\u{2026}']
            } else {
                line
            }
        },
    }
}

/// Truncate one line in place to the given terminal width.
pub fn truncate_line(line: &mut String, width: u16)
    ensures
        final(line)@ == spec_truncate(old(line)@, Some(width)),
{
    let n = line.as_str().unicode_len();
    if n > width as usize {
        let keep: usize = if width >= 2 {
            width as usize - 2
        } else {
            0
        };
        let mut t = String::from_str(line.as_str().substring_char(0, keep));
        push_char(&mut t, '\u{2026}');
        proof {
            assert(old(line)@.subrange(0, keep as int).push('\u{2026}') =~= old(line)@.subrange(
                0,
                keep as int,
            ) + seq!['\u{2026}']);
        }
        *line = t;
    }
}

/// Lines at most as long as the width pass unchanged; longer ones come out
/// exactly one character short of the width, ellipsis included, with the kept
/// prefix intact.
pub proof fn lemma_truncate_len(line: Seq<char>, w: u16)
    requires
        w >= 2,
    ensures
        line.len() <= w ==> spec_truncate(line, Some(w)) == line,
        line.len() > w ==> spec_truncate(line, Some(w)).len() == w - 1,
        line.len() > w ==> spec_truncate(line, Some(w)).subrange(0, w - 2) == line.subrange(
            0,
            w - 2,
        ),
        line.len() > w ==> spec_truncate(line, Some(w))[w - 2] == '\u{2026}',
{
    if line.len() > w {
        assert(spec_truncate(line, Some(w)).subrange(0, w - 2) =~= line.subrange(0, w - 2));
    }
}

// ---------------------------------------------------------------------------
// The user-agent header
// ---------------------------------------------------------------------------

/// The first `user-agent` value, rendered only when every character is
/// visible ASCII or tab.
pub open spec fn spec_first_ua(hs: Seq<(Seq<char>, Seq<char>)>) -> Option<Seq<char>>
    decreases hs.len(),
{
    if hs.len() == 0 {
        None
    } else if hs[0].0 == "user-agent"@ {
        if forall|k: int| 0 <= k < hs[0].1.len() ==> is_visible_char(hs[0].1[k]) {
            Some(hs[0].1)
        } else {
            None
        }
    } else {
        spec_first_ua(hs.drop_first())
    }
}

// ---------------------------------------------------------------------------
// The request sub-block and the whole record
// ---------------------------------------------------------------------------

pub open spec fn spec_request_block(rq: RequestV, width: Option<u16>) -> Seq<char> {
    let l0 = rq.method + " "@ + rq.uri + " "@ + rq.version;
    let l1 = "    remote address  "@ + spec_socket_text(rq.remote_ip, rq.remote_port);
    let l2 = "    host            "@ + rq.host;
    let base = spec_truncate(l0, width) + "\n"@ + spec_truncate(l1, width) + "\n"@
        + spec_truncate(l2, width);
    match spec_first_ua(rq.headers) {
        None => base,
        Some(ua) => base + "\n"@ + spec_truncate("    user-agent      "@ + ua, width),
    }
}

/// The whole rendered block: timestamp and level prefix, the body, and the
/// optional status and duration lines.
pub open spec fn spec_format(rv: RecordV, color: bool, width: Option<u16>) -> Seq<char> {
    let body = match rv.request {
        None => rv.message,
        Some(rq) => spec_request_block(rq, width),
    };
    let line1 = "["@ + timestamp_text_of(rv.timestamp_us * 1000) + "] "@ + spec_level_text(
        rv.level,
        color,
    ) + " "@ + body;
    let with_status = match rv.status {
        None => line1,
        Some(code) => line1 + "\n"@ + spec_status_line(code, color),
    };
    match rv.duration_ns {
        None => with_status,
        Some(ns) => with_status + "\n"@ + spec_duration_line(ns),
    }
}

// ---------------------------------------------------------------------------
// Executable rendering
// ---------------------------------------------------------------------------

fn level_text(level: LogLevel, color: bool) -> (r: String)
    ensures
        r@ == spec_level_text(level, color),
{
    let mut out = String::new();
    if color {
        out.append("\u{1b}[");
        match level {
            LogLevel::Debug => out.append("33"),
            LogLevel::Info => out.append("36"),
            LogLevel::Warn => out.append("35"),
            LogLevel::Error => out.append("31"),
            LogLevel::Panic => out.append("7"),
            LogLevel::Fatal => out.append("7"),
        }
        out.append("m");
        out.append(level.label());
        out.append("\u{1b}[0m");
        proof {
            assert(out@ =~= spec_level_text(level, color));
        }
    } else {
        out.append(level.label());
        proof {
            assert(out@ =~= spec_level_text(level, color));
        }
    }
    out
}

fn rhe(x: u64, d: u64) -> (r: u64)
    requires
        0 < d <= 1_000_000_000,
        x <= i64::MAX as u64,
    ensures
        r as int == spec_rhe(x as int, d as int),
{
    let q = x / d;
    let rem = x % d;
    if 2 * rem > d {
        q + 1
    } else if 2 * rem == d {
        if q % 2 == 0 {
            q
        } else {
            q + 1
        }
    } else {
        q
    }
}

fn push_pad3(out: &mut String, v: u64)
    requires
        v < 1000,
    ensures
        final(out)@ == old(out)@ + spec_pad3(v as int),
{
    if v < 10 {
        out.append("00");
        push_dec_u64(out, v);
        proof {
            assert(old(out)@ + "00"@ + dec_str(v as int) =~= old(out)@ + spec_pad3(v as int));
        }
    } else if v < 100 {
        out.append("0");
        push_dec_u64(out, v);
        proof {
            assert(old(out)@ + "0"@ + dec_str(v as int) =~= old(out)@ + spec_pad3(v as int));
        }
    } else {
        push_dec_u64(out, v);
    }
}

/// The adaptive rendering of a duration in nanoseconds.
pub fn duration_text(ns: i64) -> (r: String)
    requires
        -(i64::MAX as int) <= ns as int,
    ensures
        r@ == spec_duration_text(ns as int),
{
    let mut out = String::new();
    if ns < 1_000_000 {
        let a: u64 = if ns < 0 {
            (-ns) as u64
        } else {
            ns as u64
        };
        if ns < 0 {
            out.append("-");
        }
        push_dec_u64(&mut out, a / 1000);
        out.append(".");
        push_pad3(&mut out, a % 1000);
        out.append(" us");
        proof {
            let av: int = if (ns as int) < 0 {
                -(ns as int)
            } else {
                ns as int
            };
            let sign: Seq<char> = if (ns as int) < 0 {
                "-"@
            } else {
                Seq::<char>::empty()
            };
            assert(Seq::<char>::empty() + sign =~= sign);
            assert(out@ =~= sign + dec_str(av / 1000) + "."@ + spec_pad3(av % 1000) + " us"@);
        }
    } else if ns < 1_000_000_000 {
        let q = rhe(ns as u64, 1000);
        push_dec_u64(&mut out, q / 1000);
        out.append(".");
        push_pad3(&mut out, q % 1000);
        out.append(" ms");
        proof {
            let qv = spec_rhe(ns as int, 1000);
            assert(out@ =~= dec_str(qv / 1000) + "."@ + spec_pad3(qv % 1000) + " ms"@);
        }
    } else if ns < 60_000_000_000 {
        let q = rhe(ns as u64, 1_000_000);
        push_dec_u64(&mut out, q / 1000);
        out.append(".");
        push_pad3(&mut out, q % 1000);
        out.append(" s");
        proof {
            let qv = spec_rhe(ns as int, 1_000_000);
            assert(out@ =~= dec_str(qv / 1000) + "."@ + spec_pad3(qv % 1000) + " s"@);
        }
    } else {
        let minutes = (ns as u64) / 60_000_000_000;
        let rem = (ns as u64) % 60_000_000_000;
        let q = rhe(rem, 1_000_000);
        push_dec_u64(&mut out, minutes);
        out.append(" m ");
        push_dec_u64(&mut out, q / 1000);
        out.append(".");
        push_pad3(&mut out, q % 1000);
        out.append(" s");
        proof {
            let qv = spec_rhe((ns as int) % 60_000_000_000, 1_000_000);
            assert(out@ =~= dec_str((ns as int) / 60_000_000_000) + " m "@ + dec_str(qv / 1000)
                + "."@ + spec_pad3(qv % 1000) + " s"@);
        }
    }
    out
}

/// The colorized status code with its reason phrase, when one is known.
pub fn status_text(code: u16, color: bool) -> (r: String)
    requires
        100 <= code <= 999,
    ensures
        r@ == spec_status_code_text(code as int, color) + (match status_reason(code as int) {
            Some(reason) => " "@ + reason,
            None => Seq::<char>::empty(),
        }),
{
    let mut out = String::new();
    if color && code <= 299 {
        out.append("\u{1b}[");
        out.append("32");
        out.append("m");
        push_dec_u64(&mut out, code as u64);
        out.append("\u{1b}[0m");
    } else if color && 300 <= code && code <= 399 {
        out.append("\u{1b}[");
        out.append("36");
        out.append("m");
        push_dec_u64(&mut out, code as u64);
        out.append("\u{1b}[0m");
    } else if color && 400 <= code && code <= 599 {
        out.append("\u{1b}[");
        out.append("31");
        out.append("m");
        push_dec_u64(&mut out, code as u64);
        out.append("\u{1b}[0m");
    } else {
        push_dec_u64(&mut out, code as u64);
    }
    proof {
        assert(out@ =~= spec_status_code_text(code as int, color));
    }
    match lookup_reason(code) {
        Some(reason) => {
            out.append(" ");
            out.append(reason.as_str());
        },
        None => {},
    }
    out
}

/// The first user-agent value among the headers, if renderable.
fn first_ua(hs: &Vec<(String, String)>, i: usize) -> (r: Option<String>)
    requires
        i <= hs@.len(),
    ensures
        ({
            let f = spec_first_ua(crate::record::hview(hs@).subrange(i as int, hs@.len() as int));
            match r {
                Some(ua) => f == Some(ua@),
                None => f is None,
            }
        }),
    decreases hs@.len() - i,
{
    let ghost fv = crate::record::hview(hs@).subrange(i as int, hs@.len() as int);
    if i == hs.len() {
        proof {
            assert(fv =~= Seq::<(Seq<char>, Seq<char>)>::empty());
        }
        return None;
    }
    proof {
        assert(fv[0] == crate::record::hview(hs@)[i as int]);
        assert(fv.drop_first() =~= crate::record::hview(hs@).subrange(
            i as int + 1,
            hs@.len() as int,
        ));
    }
    let key = String::from_str("user-agent");
    if hs[i].0 == key {
        let cs = crate::text::str_to_chars(hs[i].1.as_str());
        if crate::record::check_chars(&cs, 3) {
            Some(String::from_str(hs[i].1.as_str()))
        } else {
            None
        }
    } else {
        first_ua(hs, i + 1)
    }
}

/// The request sub-block: request line, remote address, host, and the
/// user-agent when present, each line truncated to the terminal width.
fn request_block(rq: &LogRequest, width: Option<u16>) -> (r: String)
    requires
        request_wf(rq@),
    ensures
        r@ == spec_request_block(rq@, width),
{
    let mut l0 = String::new();
    l0.append(rq.method.as_str());
    l0.append(" ");
    l0.append(rq.uri.as_str());
    l0.append(" ");
    l0.append(rq.version.as_str());
    let mut l1 = String::new();
    l1.append("    remote address  ");
    proof {
        assert(Seq::<char>::empty() + "    remote address  "@ =~= "    remote address  "@);
    }
    push_socket_text(&mut l1, &rq.remote_ip, rq.remote_port);
    let mut l2 = String::new();
    l2.append("    host            ");
    l2.append(rq.host.as_str());
    match width {
        Some(w) => {
            truncate_line(&mut l0, w);
            truncate_line(&mut l1, w);
            truncate_line(&mut l2, w);
        },
        None => {},
    }
    let mut out = l0;
    out.append("\n");
    out.append(l1.as_str());
    out.append("\n");
    out.append(l2.as_str());
    proof {
        assert(Seq::<char>::empty() + rq@.method =~= rq@.method);
    }
    proof {
        assert(Seq::<char>::empty() + "    host            "@ =~= "    host            "@);
    }
    proof {
        assert(crate::record::hview(rq.headers@).subrange(0, rq.headers@.len() as int)
            =~= crate::record::hview(rq.headers@));
    }
    match first_ua(&rq.headers, 0) {
        Some(ua) => {
            let mut l3 = String::new();
            l3.append("    user-agent      ");
            l3.append(ua.as_str());
            proof {
                assert(Seq::<char>::empty() + "    user-agent      "@
                    =~= "    user-agent      "@);
            }
            match width {
                Some(w) => {
                    truncate_line(&mut l3, w);
                },
                None => {},
            }
            out.append("\n");
            out.append(l3.as_str());
            proof {
                assert(out@ =~= spec_request_block(rq@, width));
            }
            out
        },
        None => {
            proof {
                assert(out@ =~= spec_request_block(rq@, width));
            }
            out
        },
    }
}

impl LogRecord {
    /// Render the record as its finished multi-line block. `color` turns the
    /// ANSI styling on; `width` is the terminal width, when one is known.
    #[verifier::rlimit(100)]
    pub fn format(self, color: bool, width: Option<u16>) -> (r: String)
        requires
            record_wf(self@),
        ensures
            r@ == spec_format(self@, color, width),
    {
        let mut out = String::new();
        out.append("[");
        let ns: i128 = self.timestamp_us as i128 * 1000;
        out.append(format_epoch_ns(ns).as_str());
        out.append("] ");
        out.append(level_text(self.level, color).as_str());
        out.append(" ");
        match &self.request {
            Some(rq) => {
                out.append(request_block(rq, width).as_str());
            },
            None => {
                out.append(self.message.as_str());
            },
        }
        match self.status {
            Some(code) => {
                out.append("\n");
                out.append("    status          ");
                out.append(status_text(code, color).as_str());
                proof {
                    assert("    status          "@ + (spec_status_code_text(code as int, color)
                        + (match status_reason(code as int) {
                            Some(reason) => " "@ + reason,
                            None => Seq::<char>::empty(),
                        })) =~= spec_status_line(code as int, color));
                }
            },
            None => {},
        }
        match self.duration_ns {
            Some(d) => {
                out.append("\n");
                out.append("    duration        ");
                out.append(duration_text(d).as_str());
            },
            None => {},
        }
        proof {
            assert(out@ =~= spec_format(self@, color, width));
        }
        out
    }
}

} // verus!
