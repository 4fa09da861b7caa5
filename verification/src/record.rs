//! The typed log record and its decoding from a parsed JSON document.
//!
//! Decoding is all-or-nothing per record, with one exception: a malformed
//! `status` value degrades to "absent" instead of failing the record.

use vstd::prelude::*;
use crate::ip::{IpAddress, IpV, ip_view, spec_parse_ip, parse_ip};
use crate::json::{
    Json, JsonV, NumV, jview, mview_seq, numv, is_digit, digit_val, digits_val, spec_scaled,
    scaled_i64, pow10, lemma_dv_zero_front, lemma_dv_lb, lemma_pow10_mono,
};
use crate::level::LogLevel;
use crate::text::{chars_to_string, str_to_chars};

verus! {

broadcast use vstd::seq::group_seq_axioms, vstd::std_specs::vec::group_vec_axioms;

/// Earliest renderable timestamp, in microseconds since the Unix epoch
/// (midnight of the first day of year -9999, UTC).
pub const TS_MIN_US: i64 = -377_705_116_800_000_000;

/// Latest renderable timestamp, in microseconds since the Unix epoch
/// (the last instant of year 9999, UTC).
pub const TS_MAX_US: i64 = 253_402_300_799_999_999;

// ---------------------------------------------------------------------------
// Data model
// ---------------------------------------------------------------------------

/// The HTTP transaction part of a log record.
pub struct LogRequest {
    pub remote_ip: IpAddress,
    pub remote_port: u16,
    pub method: String,
    pub host: String,
    pub uri: String,
    pub version: String,
    /// Header (name, value) pairs in document order, names lowercased.
    pub headers: Vec<(String, String)>,
}

/// One decoded log record. Timestamps are microseconds since the Unix epoch;
/// durations are nanoseconds.
pub struct LogRecord {
    pub timestamp_us: i64,
    pub level: LogLevel,
    pub message: String,
    pub request: Option<LogRequest>,
    pub duration_ns: Option<i64>,
    pub status: Option<u16>,
}

pub struct RequestV {
    pub remote_ip: IpV,
    pub remote_port: int,
    pub method: Seq<char>,
    pub host: Seq<char>,
    pub uri: Seq<char>,
    pub version: Seq<char>,
    pub headers: Seq<(Seq<char>, Seq<char>)>,
}

pub struct RecordV {
    pub timestamp_us: int,
    pub level: LogLevel,
    pub message: Seq<char>,
    pub request: Option<RequestV>,
    pub duration_ns: Option<int>,
    pub status: Option<int>,
}

pub open spec fn hview(hs: Seq<(String, String)>) -> Seq<(Seq<char>, Seq<char>)> {
    Seq::new(hs.len(), |i: int| (hs[i].0@, hs[i].1@))
}

impl View for LogRequest {
    type V = RequestV;

    open spec fn view(&self) -> RequestV {
        RequestV {
            remote_ip: ip_view(self.remote_ip),
            remote_port: self.remote_port as int,
            method: self.method@,
            host: self.host@,
            uri: self.uri@,
            version: self.version@,
            headers: hview(self.headers@),
        }
    }
}

impl View for LogRecord {
    type V = RecordV;

    open spec fn view(&self) -> RecordV {
        RecordV {
            timestamp_us: self.timestamp_us as int,
            level: self.level,
            message: self.message@,
            request: match self.request {
                Some(req) => Some(req@),
                None => None,
            },
            duration_ns: match self.duration_ns {
                Some(d) => Some(d as int),
                None => None,
            },
            status: match self.status {
                Some(s) => Some(s as int),
                None => None,
            },
        }
    }
}

/// What decoding guarantees of every record it produces.
pub open spec fn request_wf(rv: RequestV) -> bool {
    &&& match rv.remote_ip {
        IpV::V4(a, b, c, d) => 0 <= a <= 255 && 0 <= b <= 255 && 0 <= c <= 255 && 0 <= d <= 255,
        IpV::V6(gs) => gs.len() == 8,
    }
    &&& 0 <= rv.remote_port <= 65535
}

pub open spec fn record_wf(rv: RecordV) -> bool {
    &&& TS_MIN_US as int <= rv.timestamp_us <= TS_MAX_US as int
    &&& match rv.request {
        Some(req) => request_wf(req),
        None => true,
    }
    &&& match rv.duration_ns {
        Some(d) => -(i64::MAX as int) <= d <= i64::MAX as int,
        None => true,
    }
    &&& match rv.status {
        Some(s) => 100 <= s <= 999,
        None => true,
    }
}

// ---------------------------------------------------------------------------
// Character classes and small text specs
// ---------------------------------------------------------------------------

pub open spec fn lower_char(c: char) -> char {
    if 'A' as u32 <= c as u32 && c as u32 <= 'Z' as u32 {
        ((c as u32) + 32) as char
    } else {
        c
    }
}

pub open spec fn spec_lower(cs: Seq<char>) -> Seq<char> {
    Seq::new(cs.len(), |i: int| lower_char(cs[i]))
}

/// Characters permitted in an HTTP method token.
pub open spec fn is_method_char(c: char) -> bool {
    ||| c == '!' || c == '#' || c == '$' || c == '%' || c == '&' || c == '\'' || c == '*'
    ||| c == '+' || c == '-' || c == '.' || c == '^' || c == '_' || c == '`' || c == '|'
    ||| c == '~'
    ||| is_digit(c)
    ||| 'A' as u32 <= c as u32 && c as u32 <= 'Z' as u32
    ||| 'a' as u32 <= c as u32 && c as u32 <= 'z' as u32
}

/// Characters permitted in a header name (upper case letters are accepted on
/// the wire and lowered).
pub open spec fn is_hname_char(c: char) -> bool {
    ||| c == '!' || c == '#' || c == '$' || c == '%' || c == '&' || c == '\'' || c == '*'
    ||| c == '+' || c == '-' || c == '.' || c == '^' || c == '_' || c == '`' || c == '|'
    ||| c == '~'
    ||| is_digit(c)
    ||| 'A' as u32 <= c as u32 && c as u32 <= 'Z' as u32
    ||| 'a' as u32 <= c as u32 && c as u32 <= 'z' as u32
}

/// Characters permitted in a header value.
pub open spec fn is_hvalue_char(c: char) -> bool {
    c == '\t' || (c as u32 >= 0x20 && c as u32 != 0x7F)
}

/// Characters a header value may hold to be rendered (visible ASCII or tab).
pub open spec fn is_visible_char(c: char) -> bool {
    c == '\t' || (c as u32 >= 0x20 && (c as u32) < 0x7F)
}

pub open spec fn is_version(cs: Seq<char>) -> bool {
    ||| cs == "HTTP/0.9"@
    ||| cs == "HTTP/1.0"@
    ||| cs == "HTTP/1.1"@
    ||| cs == "HTTP/2.0"@
    ||| cs == "HTTP/3.0"@
}

pub open spec fn spec_level_of(cs: Seq<char>) -> Option<LogLevel> {
    let l = spec_lower(cs);
    if l == "debug"@ {
        Some(LogLevel::Debug)
    } else if l == "info"@ {
        Some(LogLevel::Info)
    } else if l == "warn"@ {
        Some(LogLevel::Warn)
    } else if l == "error"@ {
        Some(LogLevel::Error)
    } else if l == "panic"@ {
        Some(LogLevel::Panic)
    } else if l == "fatal"@ {
        Some(LogLevel::Fatal)
    } else {
        None
    }
}

/// The port grammar of a decimal string: an optional plus sign, then digits,
/// valued at most 65535.
pub open spec fn spec_port(cs: Seq<char>) -> Option<int> {
    let start: int = if cs.len() > 0 && cs[0] == '+' {
        1
    } else {
        0
    };
    if start >= cs.len() {
        None
    } else if !(forall|k: int| start <= k < cs.len() ==> is_digit(cs[k])) {
        None
    } else {
        let v = digits_val(cs.subrange(start, cs.len() as int));
        if v <= 65535 {
            Some(v)
        } else {
            None
        }
    }
}

// ---------------------------------------------------------------------------
// Field lookup in an object
// ---------------------------------------------------------------------------

pub open spec fn count_key(ms: Seq<(Seq<char>, JsonV)>, k: Seq<char>) -> int
    decreases ms.len(),
{
    if ms.len() == 0 {
        0
    } else {
        (if ms[0].0 == k {
            1int
        } else {
            0int
        }) + count_key(ms.drop_first(), k)
    }
}

pub open spec fn first_val(ms: Seq<(Seq<char>, JsonV)>, k: Seq<char>) -> Option<JsonV>
    decreases ms.len(),
{
    if ms.len() == 0 {
        None
    } else if ms[0].0 == k {
        Some(ms[0].1)
    } else {
        first_val(ms.drop_first(), k)
    }
}

/// A field that appears exactly once.
pub open spec fn field_once(ms: Seq<(Seq<char>, JsonV)>, k: Seq<char>) -> Option<JsonV> {
    if count_key(ms, k) == 1 {
        first_val(ms, k)
    } else {
        None
    }
}

// ---------------------------------------------------------------------------
// Schema decode, spec level
// ---------------------------------------------------------------------------

/// The values of one header entry: one string, or an array of strings.
pub open spec fn spec_header_values(name: Seq<char>, v: JsonV) -> Option<
    Seq<(Seq<char>, Seq<char>)>,
> {
    match v {
        JsonV::Str(cs) => {
            if forall|k: int| 0 <= k < cs.len() ==> is_hvalue_char(cs[k]) {
                Some(seq![(spec_lower(name), cs)])
            } else {
                None
            }
        },
        JsonV::Arr(items) => spec_header_items(name, items),
        _ => None,
    }
}

pub open spec fn spec_header_items(name: Seq<char>, items: Seq<JsonV>) -> Option<
    Seq<(Seq<char>, Seq<char>)>,
>
    decreases items.len(),
{
    if items.len() == 0 {
        Some(Seq::empty())
    } else {
        match items[0] {
            JsonV::Str(cs) => {
                if forall|k: int| 0 <= k < cs.len() ==> is_hvalue_char(cs[k]) {
                    match spec_header_items(name, items.drop_first()) {
                        Some(rest) => Some(seq![(spec_lower(name), cs)] + rest),
                        None => None,
                    }
                } else {
                    None
                }
            },
            _ => None,
        }
    }
}

/// The flattened header pairs of the `headers` object, in document order.
pub open spec fn spec_decode_headers(ms: Seq<(Seq<char>, JsonV)>) -> Option<
    Seq<(Seq<char>, Seq<char>)>,
>
    decreases ms.len(),
{
    if ms.len() == 0 {
        Some(Seq::empty())
    } else {
        let name = ms[0].0;
        if name.len() == 0 || !(forall|k: int| 0 <= k < name.len() ==> is_hname_char(name[k])) {
            None
        } else {
            match spec_header_values(name, ms[0].1) {
                None => None,
                Some(pairs) => match spec_decode_headers(ms.drop_first()) {
                    None => None,
                    Some(rest) => Some(pairs + rest),
                },
            }
        }
    }
}

pub open spec fn spec_decode_request(ms: Seq<(Seq<char>, JsonV)>) -> Option<RequestV> {
    let ip_f = field_once(ms, "remote_ip"@);
    let port_f = field_once(ms, "remote_port"@);
    let method_f = field_once(ms, "method"@);
    let host_f = field_once(ms, "host"@);
    let uri_f = field_once(ms, "uri"@);
    let proto_f = field_once(ms, "proto"@);
    let headers_f = field_once(ms, "headers"@);
    match (ip_f, port_f, method_f, host_f, uri_f, proto_f, headers_f) {
        (
            Some(JsonV::Str(ip_s)),
            Some(JsonV::Str(port_s)),
            Some(JsonV::Str(method_s)),
            Some(JsonV::Str(host_s)),
            Some(JsonV::Str(uri_s)),
            Some(JsonV::Str(proto_s)),
            Some(JsonV::Obj(header_ms)),
        ) => {
            match (spec_parse_ip(ip_s), spec_port(port_s), spec_decode_headers(header_ms)) {
                (Some(ip), Some(port), Some(headers)) => {
                    if method_s.len() > 0 && (forall|k: int|
                        0 <= k < method_s.len() ==> is_method_char(method_s[k])) && is_version(
                        proto_s,
                    ) {
                        Some(
                            RequestV {
                                remote_ip: ip,
                                remote_port: port,
                                method: method_s,
                                host: host_s,
                                uri: uri_s,
                                version: proto_s,
                                headers,
                            },
                        )
                    } else {
                        None
                    }
                },
                _ => None,
            }
        },
        _ => None,
    }
}

/// The timestamp field: any JSON number whose microsecond value is in the
/// renderable range.
pub open spec fn spec_ts_us(n: NumV) -> Option<int> {
    let us = spec_scaled(n, 6);
    if TS_MIN_US as int <= us <= TS_MAX_US as int {
        Some(us)
    } else {
        None
    }
}

/// The duration field: any JSON number, as nanoseconds saturated to `i64`.
pub open spec fn spec_duration_ns(n: NumV) -> int {
    let ns = spec_scaled(n, 9);
    if ns > i64::MAX as int {
        i64::MAX as int
    } else if ns < -(i64::MAX as int) {
        -(i64::MAX as int)
    } else {
        ns
    }
}

/// The status field never fails: anything but a plain integer in range
/// becomes "absent".
pub open spec fn spec_status_of(v: JsonV) -> Option<int> {
    match v {
        JsonV::Num(n) => {
            if n.int_form && !n.neg && 100 <= spec_scaled(n, 0) <= 999 {
                Some(spec_scaled(n, 0))
            } else {
                None
            }
        },
        _ => None,
    }
}

pub open spec fn spec_decode_record(v: JsonV) -> Option<RecordV> {
    match v {
        JsonV::Obj(ms) => {
            let ts_f = field_once(ms, "ts"@);
            let level_f = field_once(ms, "level"@);
            let msg_f = field_once(ms, "msg"@);
            match (ts_f, level_f, msg_f) {
                (Some(JsonV::Num(ts_n)), Some(JsonV::Str(level_s)), Some(JsonV::Str(msg_s))) => {
                    match (spec_ts_us(ts_n), spec_level_of(level_s)) {
                        (Some(us), Some(level)) => {
                            if count_key(ms, "request"@) <= 1 && count_key(ms, "duration"@) <= 1
                                && count_key(ms, "status"@) <= 1 {
                                let request = match first_val(ms, "request"@) {
                                    None => Some(None::<RequestV>),
                                    Some(JsonV::Null) => Some(None::<RequestV>),
                                    Some(JsonV::Obj(rms)) => match spec_decode_request(rms) {
                                        Some(req) => Some(Some(req)),
                                        None => None,
                                    },
                                    Some(_) => None,
                                };
                                let duration = match first_val(ms, "duration"@) {
                                    None => Some(None::<int>),
                                    Some(JsonV::Null) => Some(None::<int>),
                                    Some(JsonV::Num(dn)) => Some(Some(spec_duration_ns(dn))),
                                    Some(_) => None,
                                };
                                let status = match first_val(ms, "status"@) {
                                    None => None::<int>,
                                    Some(sv) => spec_status_of(sv),
                                };
                                match (request, duration) {
                                    (Some(request), Some(duration)) => Some(
                                        RecordV {
                                            timestamp_us: us,
                                            level,
                                            message: msg_s,
                                            request,
                                            duration_ns: duration,
                                            status,
                                        },
                                    ),
                                    _ => None,
                                }
                            } else {
                                None
                            }
                        },
                        _ => None,
                    }
                },
                _ => None,
            }
        },
        _ => None,
    }
}

// ---------------------------------------------------------------------------
// Schema decode, executable
// ---------------------------------------------------------------------------

proof fn lemma_mview_props(s: Seq<(Vec<char>, Json)>)
    ensures
        mview_seq(s).len() == s.len(),
        forall|i: int|
            0 <= i < s.len() ==> #[trigger] mview_seq(s)[i] == (s[i].0@, jview(s[i].1)),
    decreases s.len(),
{
    if s.len() > 0 {
        lemma_mview_props(s.drop_first());
        assert forall|i: int| 0 <= i < s.len() implies #[trigger] mview_seq(s)[i] == (
            s[i].0@,
            jview(s[i].1),
        ) by {
            if i > 0 {
                assert(s.drop_first()[i - 1] == s[i]);
                assert(mview_seq(s)[i] == mview_seq(s.drop_first())[i - 1]);
            }
        }
    }
}

proof fn lemma_jview_props(s: Seq<Json>)
    ensures
        crate::json::jview_seq(s).len() == s.len(),
        forall|i: int|
            0 <= i < s.len() ==> #[trigger] crate::json::jview_seq(s)[i] == jview(s[i]),
    decreases s.len(),
{
    if s.len() > 0 {
        lemma_jview_props(s.drop_first());
        assert forall|i: int| 0 <= i < s.len() implies #[trigger] crate::json::jview_seq(s)[i]
            == jview(s[i]) by {
            if i > 0 {
                assert(s.drop_first()[i - 1] == s[i]);
                assert(crate::json::jview_seq(s)[i] == crate::json::jview_seq(s.drop_first())[i
                    - 1]);
            }
        }
    }
}

fn chars_eq(a: &Vec<char>, b: &Vec<char>) -> (r: bool)
    ensures
        r == (a@ == b@),
{
    if a.len() != b.len() {
        proof {
            assert(a@ != b@);
        }
        return false;
    }
    let mut i: usize = 0;
    while i < a.len()
        invariant
            i <= a@.len() == b@.len(),
            forall|j: int| 0 <= j < i ==> a@[j] == b@[j],
        decreases a@.len() - i,
    {
        if a[i] != b[i] {
            proof {
                assert(a@[i as int] != b@[i as int]);
            }
            return false;
        }
        i = i + 1;
    }
    proof {
        assert(a@ =~= b@);
    }
    true
}

fn lower_vec(v: &Vec<char>) -> (r: Vec<char>)
    ensures
        r@ == spec_lower(v@),
{
    let mut r: Vec<char> = Vec::new();
    let mut i: usize = 0;
    while i < v.len()
        invariant
            i <= v@.len(),
            r@.len() == i,
            forall|j: int| 0 <= j < i ==> r@[j] == lower_char(v@[j]),
        decreases v@.len() - i,
    {
        let c = v[i];
        let u = c as u32;
        if 65 <= u && u <= 90 {
            r.push(crate::json::char_from_scalar(u + 32));
        } else {
            r.push(c);
        }
        i = i + 1;
    }
    proof {
        assert(r@ =~= spec_lower(v@));
    }
    r
}

/// Count of a key among the members from position `i` on, capped at 2.
fn count_key_exec(ms: &Vec<(Vec<char>, Json)>, key: &Vec<char>, i: usize) -> (r: u32)
    requires
        i <= ms@.len(),
    ensures
        ({
            let c = count_key(mview_seq(ms@).subrange(i as int, ms@.len() as int), key@);
            r as int == if c > 2 { 2int } else { c }
        }),
    decreases ms@.len() - i,
{
    proof {
        lemma_mview_props(ms@);
    }
    let ghost mv = mview_seq(ms@).subrange(i as int, ms@.len() as int);
    if i == ms.len() {
        proof {
            assert(mv =~= Seq::<(Seq<char>, JsonV)>::empty());
        }
        return 0;
    }
    proof {
        assert(mv[0] == mview_seq(ms@)[i as int]);
        assert(mv.drop_first() =~= mview_seq(ms@).subrange(i as int + 1, ms@.len() as int));
    }
    let rest = count_key_exec(ms, key, i + 1);
    if chars_eq(&ms[i].0, key) {
        if rest >= 2 {
            2
        } else {
            rest + 1
        }
    } else {
        rest
    }
}

/// Position of the first member with the given key, from `i` on.
fn first_key_exec(ms: &Vec<(Vec<char>, Json)>, key: &Vec<char>, i: usize) -> (r: Option<usize>)
    requires
        i <= ms@.len(),
    ensures
        ({
            let f = first_val(mview_seq(ms@).subrange(i as int, ms@.len() as int), key@);
            match r {
                Some(ix) => i <= ix < ms@.len() && ms@[ix as int].0@ == key@ && f == Some(
                    jview(ms@[ix as int].1),
                ),
                None => f is None,
            }
        }),
    decreases ms@.len() - i,
{
    proof {
        lemma_mview_props(ms@);
    }
    let ghost mv = mview_seq(ms@).subrange(i as int, ms@.len() as int);
    if i == ms.len() {
        proof {
            assert(mv =~= Seq::<(Seq<char>, JsonV)>::empty());
        }
        return None;
    }
    proof {
        assert(mv[0] == mview_seq(ms@)[i as int]);
        assert(mv.drop_first() =~= mview_seq(ms@).subrange(i as int + 1, ms@.len() as int));
    }
    if chars_eq(&ms[i].0, key) {
        Some(i)
    } else {
        first_key_exec(ms, key, i + 1)
    }
}

/// Count (capped at 2) and first position of a key among the members.
fn find_key(ms: &Vec<(Vec<char>, Json)>, key: &Vec<char>) -> (r: (u32, Option<usize>))
    ensures
        ({
            let mv = mview_seq(ms@);
            &&& r.0 as int == (if count_key(mv, key@) > 2 {
                2int
            } else {
                count_key(mv, key@)
            })
            &&& match r.1 {
                Some(ix) => ix < ms@.len() && ms@[ix as int].0@ == key@ && first_val(mv, key@)
                    == Some(jview(ms@[ix as int].1)),
                None => first_val(mv, key@) is None,
            }
        }),
{
    proof {
        lemma_mview_props(ms@);
        assert(mview_seq(ms@).subrange(0, ms@.len() as int) =~= mview_seq(ms@));
    }
    let count = count_key_exec(ms, key, 0);
    let first = first_key_exec(ms, key, 0);
    (count, first)
}

/// Decimal port value per the `u16` string grammar.
fn chars_to_u16(cs: &Vec<char>) -> (r: Option<u16>)
    ensures
        match r {
            Some(v) => spec_port(cs@) == Some(v as int),
            None => spec_port(cs@) is None,
        },
{
    let start: usize = if cs.len() > 0 && cs[0] == '+' {
        1
    } else {
        0
    };
    if start >= cs.len() {
        return None;
    }
    let mut i = start;
    while i < cs.len()
        invariant
            start <= i <= cs@.len(),
            start as int == (if cs@.len() > 0 && cs@[0] == '+' { 1int } else { 0int }),
            start < cs@.len(),
            forall|j: int| start <= j < i ==> is_digit(cs@[j]),
        decreases cs@.len() - i,
    {
        let u = cs[i] as u32;
        if !(48 <= u && u <= 57) {
            proof {
                assert(!is_digit(cs@[i as int]));
            }
            return None;
        }
        i = i + 1;
    }
    let l = cs.len();
    let mut z = start;
    proof {
        assert(cs@.subrange(start as int, l as int) =~= cs@.subrange(start as int, l as int));
    }
    while z < l && (cs[z] as u32) == 48
        invariant
            start <= z <= l == cs@.len(),
            forall|j: int| start <= j < l ==> is_digit(cs@[j]),
            digits_val(cs@.subrange(z as int, l as int)) == digits_val(
                cs@.subrange(start as int, l as int),
            ),
        decreases l - z,
    {
        proof {
            let cur = cs@.subrange(z as int, l as int);
            lemma_dv_zero_front(cur);
            assert(cur.drop_first() =~= cs@.subrange(z as int + 1, l as int));
        }
        z = z + 1;
    }
    proof {
        assert(pow10(0) == 1);
        assert(pow10(1) == 10);
        assert(pow10(2) == 100);
        assert(pow10(3) == 1000);
        assert(pow10(4) == 10000);
        assert(pow10(5) == 100000);
    }
    if l - z > 5 {
        proof {
            let kept = cs@.subrange(z as int, l as int);
            assert(kept[0] == cs@[z as int]);
            assert(is_digit(cs@[z as int]));
            assert((cs@[z as int] as u32) != 48);
            assert(digit_val(cs@[z as int]) >= 1);
            lemma_dv_lb(kept);
            lemma_pow10_mono(5, (kept.len() - 1) as nat);
        }
        return None;
    }
    let mut acc: u32 = 0;
    let mut j = z;
    proof {
        assert(cs@.subrange(z as int, z as int) =~= Seq::<char>::empty());
    }
    while j < l
        invariant
            z <= j <= l == cs@.len(),
            l - z <= 5,
            forall|k: int| start <= k < l ==> is_digit(cs@[k]),
            z >= start,
            start as int == (if cs@.len() > 0 && cs@[0] == '+' { 1int } else { 0int }),
            start < cs@.len(),
            digits_val(cs@.subrange(z as int, l as int)) == digits_val(
                cs@.subrange(start as int, l as int),
            ),
            acc == digits_val(cs@.subrange(z as int, j as int)),
            acc < pow10((j - z) as nat),
            pow10(1) == 10 && pow10(2) == 100 && pow10(3) == 1000 && pow10(4) == 10000 && pow10(5)
                == 100000,
        decreases l - j,
    {
        let d: u32 = cs[j] as u32 - 48;
        proof {
            let cur = cs@.subrange(z as int, j as int + 1);
            assert(cur.drop_last() =~= cs@.subrange(z as int, j as int));
            assert(cur.last() == cs@[j as int]);
            lemma_pow10_mono((j + 1 - z) as nat, 5);
        }
        acc = acc * 10 + d;
        j = j + 1;
    }
    if acc <= 65535 {
        Some(acc as u16)
    } else {
        None
    }
}

/// Is every character of `cs` accepted by the class that `which` names?
/// 0: method token, 1: header name, 2: header value, 3: visible value.
pub(crate) fn check_chars(cs: &Vec<char>, which: u8) -> (r: bool)
    requires
        which <= 3,
    ensures
        which == 0 ==> r == (forall|k: int| 0 <= k < cs@.len() ==> is_method_char(cs@[k])),
        which == 1 ==> r == (forall|k: int| 0 <= k < cs@.len() ==> is_hname_char(cs@[k])),
        which == 2 ==> r == (forall|k: int| 0 <= k < cs@.len() ==> is_hvalue_char(cs@[k])),
        which == 3 ==> r == (forall|k: int| 0 <= k < cs@.len() ==> is_visible_char(cs@[k])),
{
    let mut i: usize = 0;
    while i < cs.len()
        invariant
            i <= cs@.len(),
            which <= 3,
            which == 0 ==> forall|k: int| 0 <= k < i ==> is_method_char(cs@[k]),
            which == 1 ==> forall|k: int| 0 <= k < i ==> is_hname_char(cs@[k]),
            which == 2 ==> forall|k: int| 0 <= k < i ==> is_hvalue_char(cs@[k]),
            which == 3 ==> forall|k: int| 0 <= k < i ==> is_visible_char(cs@[k]),
        decreases cs@.len() - i,
    {
        let c = cs[i];
        let u = c as u32;
        let ok = if which == 0 || which == 1 {
            (97 <= u && u <= 122) || (65 <= u && u <= 90) || (48 <= u && u <= 57) || c == '!' || c
                == '#' || c == '$' || c == '%' || c == '&' || c == '\'' || c == '*' || c == '+' || c
                == '-' || c == '.' || c == '^' || c == '_' || c == '`' || c == '|' || c == '~'
        } else if which == 2 {
            c == '\t' || (u >= 0x20 && u != 0x7F)
        } else {
            c == '\t' || (u >= 0x20 && u < 0x7F)
        };
        if !ok {
            return false;
        }
        i = i + 1;
    }
    true
}

/// The values of one header entry.
fn header_values(name: &Vec<char>, v: &Json) -> (r: Option<Vec<(String, String)>>)
    ensures
        match r {
            Some(hs) => spec_header_values(name@, jview(*v)) == Some(hview(hs@)),
            None => spec_header_values(name@, jview(*v)) is None,
        },
{
    match v {
        Json::Str(cs) => {
            if check_chars(cs, 2) {
                let mut hs: Vec<(String, String)> = Vec::new();
                hs.push((chars_to_string(&lower_vec(name)), chars_to_string(cs)));
                proof {
                    assert(hview(hs@) =~= seq![(spec_lower(name@), cs@)]);
                }
                Some(hs)
            } else {
                None
            }
        },
        Json::Arr(items) => {
            proof {
                lemma_jview_props(items@);
                assert(crate::json::jview_seq(items@).subrange(0, items@.len() as int)
                    =~= crate::json::jview_seq(items@));
            }
            header_items(name, items, 0)
        },
        _ => None,
    }
}

/// The pairs of an array-valued header entry, from element `i` on.
fn header_items(name: &Vec<char>, items: &Vec<Json>, i: usize) -> (r: Option<
    Vec<(String, String)>,
>)
    requires
        i <= items@.len(),
    ensures
        ({
            let jv = crate::json::jview_seq(items@).subrange(
                i as int,
                items@.len() as int,
            );
            match r {
                Some(hs) => spec_header_items(name@, jv) == Some(hview(hs@)),
                None => spec_header_items(name@, jv) is None,
            }
        }),
    decreases items@.len() - i,
{
    proof {
        lemma_jview_props(items@);
    }
    let ghost jv = crate::json::jview_seq(items@).subrange(i as int, items@.len() as int);
    if i == items.len() {
        let hs: Vec<(String, String)> = Vec::new();
        proof {
            assert(jv =~= Seq::<JsonV>::empty());
            assert(hview(hs@) =~= Seq::<(Seq<char>, Seq<char>)>::empty());
        }
        return Some(hs);
    }
    proof {
        assert(jv[0] == crate::json::jview_seq(items@)[i as int]);
        assert(jv.drop_first() =~= crate::json::jview_seq(items@).subrange(
            i as int + 1,
            items@.len() as int,
        ));
    }
    match &items[i] {
        Json::Str(cs) => {
            if check_chars(cs, 2) {
                match header_items(name, items, i + 1) {
                    Some(mut rest) => {
                        let pair = (chars_to_string(&lower_vec(name)), chars_to_string(cs));
                        proof {
                            assert(hview(rest@.insert(0, (pair.0, pair.1))) =~= seq![
                                (spec_lower(name@), cs@),
                            ] + hview(rest@));
                        }
                        rest.insert(0, pair);
                        Some(rest)
                    },
                    None => None,
                }
            } else {
                None
            }
        },
        _ => None,
    }
}

/// The flattened header pairs, from member `i` on.
fn decode_headers(ms: &Vec<(Vec<char>, Json)>, i: usize) -> (r: Option<Vec<(String, String)>>)
    requires
        i <= ms@.len(),
    ensures
        ({
            let mv = mview_seq(ms@).subrange(i as int, ms@.len() as int);
            match r {
                Some(hs) => spec_decode_headers(mv) == Some(hview(hs@)),
                None => spec_decode_headers(mv) is None,
            }
        }),
    decreases ms@.len() - i,
{
    proof {
        lemma_mview_props(ms@);
    }
    let ghost mv = mview_seq(ms@).subrange(i as int, ms@.len() as int);
    if i == ms.len() {
        let hs: Vec<(String, String)> = Vec::new();
        proof {
            assert(mv =~= Seq::<(Seq<char>, JsonV)>::empty());
            assert(hview(hs@) =~= Seq::<(Seq<char>, Seq<char>)>::empty());
        }
        return Some(hs);
    }
    proof {
        assert(mv[0] == mview_seq(ms@)[i as int]);
        assert(mv.drop_first() =~= mview_seq(ms@).subrange(i as int + 1, ms@.len() as int));
    }
    let name = &ms[i].0;
    if name.len() == 0 || !check_chars(name, 1) {
        return None;
    }
    match header_values(name, &ms[i].1) {
        None => None,
        Some(mut pairs) => match decode_headers(ms, i + 1) {
            None => None,
            Some(mut rest) => {
                let ghost pv = pairs@;
                let ghost rv = rest@;
                pairs.append(&mut rest);
                proof {
                    assert(hview(pv + rv) =~= hview(pv) + hview(rv));
                }
                Some(pairs)
            },
        },
    }
}

/// One request object.
fn decode_request(ms: &Vec<(Vec<char>, Json)>) -> (r: Option<LogRequest>)
    ensures
        match r {
            Some(req) => spec_decode_request(mview_seq(ms@)) == Some(req@) && request_wf(req@),
            None => spec_decode_request(mview_seq(ms@)) is None,
        },
{
    let (c_ip, ix_ip) = find_key(ms, &str_to_chars("remote_ip"));
    let (c_port, ix_port) = find_key(ms, &str_to_chars("remote_port"));
    let (c_method, ix_method) = find_key(ms, &str_to_chars("method"));
    let (c_host, ix_host) = find_key(ms, &str_to_chars("host"));
    let (c_uri, ix_uri) = find_key(ms, &str_to_chars("uri"));
    let (c_proto, ix_proto) = find_key(ms, &str_to_chars("proto"));
    let (c_headers, ix_headers) = find_key(ms, &str_to_chars("headers"));
    if c_ip != 1 || c_port != 1 || c_method != 1 || c_host != 1 || c_uri != 1 || c_proto != 1
        || c_headers != 1 {
        return None;
    }
    let (ix_ip, ix_port, ix_method, ix_host, ix_uri, ix_proto, ix_headers) = match (
        ix_ip,
        ix_port,
        ix_method,
        ix_host,
        ix_uri,
        ix_proto,
        ix_headers,
    ) {
        (Some(a), Some(b), Some(c), Some(d), Some(e), Some(f), Some(g)) => (a, b, c, d, e, f, g),
        _ => {
            return None;
        },
    };
    match (&ms[ix_ip].1, &ms[ix_port].1, &ms[ix_method].1, &ms[ix_host].1, &ms[ix_uri].1, &ms[
        ix_proto
    ].1, &ms[ix_headers].1) {
        (
            Json::Str(ip_s),
            Json::Str(port_s),
            Json::Str(method_s),
            Json::Str(host_s),
            Json::Str(uri_s),
            Json::Str(proto_s),
            Json::Obj(header_ms),
        ) => {
            let ip = match parse_ip(ip_s) {
                Some(ip) => ip,
                None => {
                    return None;
                },
            };
            let port = match chars_to_u16(port_s) {
                Some(p) => p,
                None => {
                    return None;
                },
            };
            proof {
                lemma_mview_props(header_ms@);
                assert(mview_seq(header_ms@).subrange(0, header_ms@.len() as int) =~= mview_seq(
                    header_ms@,
                ));
            }
            let headers = match decode_headers(header_ms, 0) {
                Some(hs) => hs,
                None => {
                    return None;
                },
            };
            if method_s.len() == 0 || !check_chars(method_s, 0) {
                return None;
            }
            let is_ver = chars_eq(proto_s, &str_to_chars("HTTP/0.9")) || chars_eq(
                proto_s,
                &str_to_chars("HTTP/1.0"),
            ) || chars_eq(proto_s, &str_to_chars("HTTP/1.1")) || chars_eq(
                proto_s,
                &str_to_chars("HTTP/2.0"),
            ) || chars_eq(proto_s, &str_to_chars("HTTP/3.0"));
            if !is_ver {
                return None;
            }
            Some(
                LogRequest {
                    remote_ip: ip,
                    remote_port: port,
                    method: chars_to_string(method_s),
                    host: chars_to_string(host_s),
                    uri: chars_to_string(uri_s),
                    version: chars_to_string(proto_s),
                    headers,
                },
            )
        },
        _ => None,
    }
}

/// One record from a parsed JSON document.
pub fn decode_record(j: &Json) -> (r: Option<LogRecord>)
    ensures
        match r {
            Some(rec) => spec_decode_record(jview(*j)) == Some(rec@) && record_wf(rec@),
            None => spec_decode_record(jview(*j)) is None,
        },
{
    let ms = match j {
        Json::Obj(ms) => ms,
        _ => {
            return None;
        },
    };
    let (c_ts, ix_ts) = find_key(ms, &str_to_chars("ts"));
    let (c_level, ix_level) = find_key(ms, &str_to_chars("level"));
    let (c_msg, ix_msg) = find_key(ms, &str_to_chars("msg"));
    let (c_request, ix_request) = find_key(ms, &str_to_chars("request"));
    let (c_duration, ix_duration) = find_key(ms, &str_to_chars("duration"));
    let (c_status, ix_status) = find_key(ms, &str_to_chars("status"));
    if c_ts != 1 || c_level != 1 || c_msg != 1 {
        return None;
    }
    if c_request > 1 || c_duration > 1 || c_status > 1 {
        return None;
    }
    let (ix_ts, ix_level, ix_msg) = match (ix_ts, ix_level, ix_msg) {
        (Some(a), Some(b), Some(c)) => (a, b, c),
        _ => {
            return None;
        },
    };
    let (ts_n, level_s, msg_s) = match (&ms[ix_ts].1, &ms[ix_level].1, &ms[ix_msg].1) {
        (Json::Num(n), Json::Str(ls), Json::Str(ms2)) => (n, ls, ms2),
        _ => {
            return None;
        },
    };
    let us = match scaled_i64(ts_n, 6) {
        Some(us) => {
            if TS_MIN_US <= us && us <= TS_MAX_US {
                us
            } else {
                return None;
            }
        },
        None => {
            return None;
        },
    };
    let level = match level_of_chars(level_s) {
        Some(l) => l,
        None => {
            return None;
        },
    };
    let request: Option<LogRequest> = match ix_request {
        None => None,
        Some(ix) => match &ms[ix].1 {
            Json::Null => None,
            Json::Obj(rms) => match decode_request(rms) {
                Some(req) => Some(req),
                None => {
                    return None;
                },
            },
            _ => {
                return None;
            },
        },
    };
    let duration_ns: Option<i64> = match ix_duration {
        None => None,
        Some(ix) => match &ms[ix].1 {
            Json::Null => None,
            Json::Num(dn) => match scaled_i64(dn, 9) {
                Some(ns) => Some(ns),
                None => {
                    proof {
                        crate::json::lemma_scaled_sign(numv(*dn), 9);
                    }
                    if dn.neg {
                        Some(-i64::MAX)
                    } else {
                        Some(i64::MAX)
                    }
                },
            },
            _ => {
                return None;
            },
        },
    };
    let status: Option<u16> = match ix_status {
        None => None,
        Some(ix) => match &ms[ix].1 {
            Json::Num(sn) => {
                if sn.int_form && !sn.neg {
                    match scaled_i64(sn, 0) {
                        Some(v) => {
                            if 100 <= v && v <= 999 {
                                Some(v as u16)
                            } else {
                                None
                            }
                        },
                        None => None,
                    }
                } else {
                    None
                }
            },
            _ => None,
        },
    };
    Some(
        LogRecord {
            timestamp_us: us,
            level,
            message: chars_to_string(msg_s),
            request,
            duration_ns,
            status,
        },
    )
}

/// The level vocabulary, matched case-insensitively.
fn level_of_chars(cs: &Vec<char>) -> (r: Option<LogLevel>)
    ensures
        r == spec_level_of(cs@),
{
    let l = lower_vec(cs);
    if chars_eq(&l, &str_to_chars("debug")) {
        Some(LogLevel::Debug)
    } else if chars_eq(&l, &str_to_chars("info")) {
        Some(LogLevel::Info)
    } else if chars_eq(&l, &str_to_chars("warn")) {
        Some(LogLevel::Warn)
    } else if chars_eq(&l, &str_to_chars("error")) {
        Some(LogLevel::Error)
    } else if chars_eq(&l, &str_to_chars("panic")) {
        Some(LogLevel::Panic)
    } else if chars_eq(&l, &str_to_chars("fatal")) {
        Some(LogLevel::Fatal)
    } else {
        None
    }
}

} // verus!
