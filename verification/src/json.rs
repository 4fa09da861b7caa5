//! A JSON reader for one log line.
//!
//! The grammar is stated as spec functions over `Seq<char>`; the executable
//! parser returns exactly what the spec-level parser describes. Numbers keep
//! their decimal digits and exponent, so later conversions to scaled integers
//! are exact and need no floating point.

use vstd::prelude::*;

verus! {

broadcast use vstd::seq::group_seq_axioms, vstd::std_specs::vec::group_vec_axioms;

/// Nesting limit for objects and arrays, counted down while descending.
pub const DEPTH_LIMIT: u32 = 127;

/// Saturation threshold for exponent digits: beyond this any number is far
/// outside every range this crate cares about.
pub const EXP_SAT: i64 = 100_000_000_000_000_000;

// ---------------------------------------------------------------------------
// Spec-level data model
// ---------------------------------------------------------------------------

/// A decoded JSON number: value = (neg ? -1 : 1) * digits * 10^exp.
/// `int_form` records whether the token was a plain integer (no fraction, no
/// exponent), which some schema fields distinguish.
pub struct NumV {
    pub neg: bool,
    pub digits: Seq<char>,
    pub exp: int,
    pub int_form: bool,
}

/// The spec-level JSON value.
pub enum JsonV {
    Null,
    Bool(bool),
    Num(NumV),
    Str(Seq<char>),
    Arr(Seq<JsonV>),
    Obj(Seq<(Seq<char>, JsonV)>),
}

// ---------------------------------------------------------------------------
// Executable data model and its view
// ---------------------------------------------------------------------------

/// A decoded JSON number, executable form. See [`NumV`].
pub struct JsonNum {
    pub neg: bool,
    pub digits: Vec<char>,
    pub exp: i64,
    pub int_form: bool,
}

/// One parsed JSON value. Object members keep their document order and may
/// contain duplicate keys; the schema layer decides what that means.
pub enum Json {
    Null,
    Bool(bool),
    Num(JsonNum),
    Str(Vec<char>),
    Arr(Vec<Json>),
    Obj(Vec<(Vec<char>, Json)>),
}

pub open spec fn numv(n: JsonNum) -> NumV {
    NumV { neg: n.neg, digits: n.digits@, exp: n.exp as int, int_form: n.int_form }
}

/// The spec-level value of an executable JSON tree.
pub open spec fn jview(j: Json) -> JsonV
    decreases j,
{
    match j {
        Json::Null => JsonV::Null,
        Json::Bool(b) => JsonV::Bool(b),
        Json::Num(n) => JsonV::Num(numv(n)),
        Json::Str(s) => JsonV::Str(s@),
        Json::Arr(items) => JsonV::Arr(jview_seq(items@)),
        Json::Obj(members) => JsonV::Obj(mview_seq(members@)),
    }
}

pub open spec fn jview_seq(s: Seq<Json>) -> Seq<JsonV>
    decreases s,
{
    if s.len() == 0 {
        Seq::empty()
    } else {
        seq![jview(s[0])] + jview_seq(s.drop_first())
    }
}

pub open spec fn mview_seq(s: Seq<(Vec<char>, Json)>) -> Seq<(Seq<char>, JsonV)>
    decreases s,
{
    if s.len() == 0 {
        Seq::empty()
    } else {
        seq![(s[0].0@, jview(s[0].1))] + mview_seq(s.drop_first())
    }
}

// ---------------------------------------------------------------------------
// Character classes
// ---------------------------------------------------------------------------

pub open spec fn is_ws(c: char) -> bool {
    c == ' ' || c == '\t' || c == '\n' || c == '\r'
}

pub open spec fn is_digit(c: char) -> bool {
    '0' as u32 <= c as u32 && c as u32 <= '9' as u32
}

pub open spec fn digit_val(c: char) -> int {
    if is_digit(c) {
        c as u32 - '0' as u32
    } else {
        0
    }
}

pub open spec fn hex_val(c: char) -> Option<int> {
    if is_digit(c) {
        Some(c as u32 - '0' as u32)
    } else if 'a' as u32 <= c as u32 && c as u32 <= 'f' as u32 {
        Some(c as u32 - 'a' as u32 + 10)
    } else if 'A' as u32 <= c as u32 && c as u32 <= 'F' as u32 {
        Some(c as u32 - 'A' as u32 + 10)
    } else {
        None
    }
}

// ---------------------------------------------------------------------------
// Spec-level grammar
// ---------------------------------------------------------------------------

pub open spec fn spec_skip_ws(s: Seq<char>, i: int) -> int
    decreases s.len() - i,
{
    if 0 <= i < s.len() && is_ws(s[i]) {
        spec_skip_ws(s, i + 1)
    } else {
        i
    }
}

pub open spec fn spec_scan_digits(s: Seq<char>, i: int) -> int
    decreases s.len() - i,
{
    if 0 <= i < s.len() && is_digit(s[i]) {
        spec_scan_digits(s, i + 1)
    } else {
        i
    }
}

/// Value of the four hex digits at `i`, if present.
pub open spec fn spec_hex4(s: Seq<char>, i: int) -> Option<int> {
    if 0 <= i && i + 4 <= s.len() {
        match (hex_val(s[i]), hex_val(s[i + 1]), hex_val(s[i + 2]), hex_val(s[i + 3])) {
            (Some(a), Some(b), Some(c), Some(d)) => Some(a * 4096 + b * 256 + c * 16 + d),
            _ => None,
        }
    } else {
        None
    }
}

/// One escape sequence, `i` standing just after the backslash. Returns the
/// decoded character and the index after the escape. Surrogate pairs are two
/// `\uXXXX` escapes; an unpaired surrogate is an error.
pub open spec fn spec_parse_escape(s: Seq<char>, i: int) -> Option<(char, int)> {
    if i < 0 || i >= s.len() {
        None
    } else {
        let c = s[i];
        if c == '"' {
            Some(('"', i + 1))
        } else if c == '\\' {
            Some(('\\', i + 1))
        } else if c == '/' {
            Some(('/', i + 1))
        } else if c == 'b' {
            Some(('\u{8}', i + 1))
        } else if c == 'f' {
            Some(('\u{c}', i + 1))
        } else if c == 'n' {
            Some(('\n', i + 1))
        } else if c == 'r' {
            Some(('\r', i + 1))
        } else if c == 't' {
            Some(('\t', i + 1))
        } else if c == 'u' {
            match spec_hex4(s, i + 1) {
                None => None,
                Some(h) => {
                    if 0xD800 <= h < 0xDC00 {
                        if i + 7 <= s.len() && s[i + 5] == '\\' && s[i + 6] == 'u' {
                            match spec_hex4(s, i + 7) {
                                None => None,
                                Some(l) => {
                                    if 0xDC00 <= l < 0xE000 {
                                        Some(
                                            (
                                                (0x10000 + (h - 0xD800) * 0x400 + (l
                                                    - 0xDC00)) as char,
                                                i + 11,
                                            ),
                                        )
                                    } else {
                                        None
                                    }
                                },
                            }
                        } else {
                            None
                        }
                    } else if 0xDC00 <= h < 0xE000 {
                        None
                    } else {
                        Some((h as char, i + 5))
                    }
                },
            }
        } else {
            None
        }
    }
}

/// String body, `i` standing just after the opening quote. Returns the decoded
/// content and the index after the closing quote. Raw control characters are
/// an error.
pub open spec fn spec_parse_string(s: Seq<char>, i: int) -> Option<(Seq<char>, int)>
    decreases s.len() - i,
{
    if i < 0 || i >= s.len() {
        None
    } else if s[i] == '"' {
        Some((Seq::empty(), i + 1))
    } else if s[i] == '\\' {
        match spec_parse_escape(s, i + 1) {
            None => None,
            Some((c, j)) => {
                if i < j <= s.len() {
                    match spec_parse_string(s, j) {
                        None => None,
                        Some((rest, k)) => Some((seq![c] + rest, k)),
                    }
                } else {
                    None
                }
            },
        }
    } else if (s[i] as u32) < 0x20 {
        None
    } else {
        match spec_parse_string(s, i + 1) {
            None => None,
            Some((rest, k)) => Some((seq![s[i]] + rest, k)),
        }
    }
}

/// Left-to-right digit value with saturation at a bound far beyond any
/// meaningful exponent.
pub open spec fn spec_sat_val(ds: Seq<char>) -> int
    decreases ds.len(),
{
    if ds.len() == 0 {
        0
    } else {
        let p = spec_sat_val(ds.drop_last());
        if p >= EXP_SAT as int {
            p
        } else {
            p * 10 + digit_val(ds.last())
        }
    }
}

/// Clamp a fraction length into `i64` range; mirrors the executable clamp.
pub open spec fn spec_clamp_len(n: int) -> int {
    if n > 1_000_000_000 {
        1_000_000_000
    } else {
        n
    }
}

/// A number token starting at `i`.
pub open spec fn spec_parse_number(s: Seq<char>, i: int) -> Option<(NumV, int)> {
    if i < 0 || i >= s.len() {
        None
    } else {
        let neg = s[i] == '-';
        let i1 = if neg {
            i + 1
        } else {
            i
        };
        if i1 >= s.len() || !is_digit(s[i1]) {
            None
        } else {
            let i2 = if s[i1] == '0' {
                i1 + 1
            } else {
                spec_scan_digits(s, i1)
            };
            let intd = s.subrange(i1, i2);
            let has_frac = i2 < s.len() && s[i2] == '.';
            let f_end = if has_frac {
                spec_scan_digits(s, i2 + 1)
            } else {
                i2
            };
            if has_frac && f_end == i2 + 1 {
                None
            } else {
                let fd = if has_frac {
                    s.subrange(i2 + 1, f_end)
                } else {
                    Seq::empty()
                };
                let i3 = f_end;
                let has_exp = i3 < s.len() && (s[i3] == 'e' || s[i3] == 'E');
                if has_exp {
                    let esign_neg = i3 + 1 < s.len() && s[i3 + 1] == '-';
                    let esign_pos = i3 + 1 < s.len() && s[i3 + 1] == '+';
                    let estart = if esign_neg || esign_pos {
                        i3 + 2
                    } else {
                        i3 + 1
                    };
                    let e_end = spec_scan_digits(s, estart);
                    if e_end == estart || estart > s.len() {
                        None
                    } else {
                        let ev = spec_sat_val(s.subrange(estart, e_end));
                        let sev = if esign_neg {
                            -ev
                        } else {
                            ev
                        };
                        Some(
                            (
                                NumV {
                                    neg,
                                    digits: intd + fd,
                                    exp: sev - spec_clamp_len(fd.len() as int),
                                    int_form: false,
                                },
                                e_end,
                            ),
                        )
                    }
                } else {
                    Some(
                        (
                            NumV {
                                neg,
                                digits: intd + fd,
                                exp: 0 - spec_clamp_len(fd.len() as int),
                                int_form: !has_frac,
                            },
                            i3,
                        ),
                    )
                }
            }
        }
    }
}

/// One JSON value starting exactly at `i` (no leading whitespace). `depth`
/// mirrors the recursion limit: a container at depth 0 is an error.
pub open spec fn spec_parse_value(s: Seq<char>, i: int, depth: int) -> Option<(JsonV, int)>
    decreases s.len() - i, 0int,
{
    if i < 0 || i >= s.len() {
        None
    } else if s[i] == 'n' {
        if i + 4 <= s.len() && s[i + 1] == 'u' && s[i + 2] == 'l' && s[i + 3] == 'l' {
            Some((JsonV::Null, i + 4))
        } else {
            None
        }
    } else if s[i] == 't' {
        if i + 4 <= s.len() && s[i + 1] == 'r' && s[i + 2] == 'u' && s[i + 3] == 'e' {
            Some((JsonV::Bool(true), i + 4))
        } else {
            None
        }
    } else if s[i] == 'f' {
        if i + 5 <= s.len() && s[i + 1] == 'a' && s[i + 2] == 'l' && s[i + 3] == 's' && s[i + 4]
            == 'e' {
            Some((JsonV::Bool(false), i + 5))
        } else {
            None
        }
    } else if s[i] == '"' {
        match spec_parse_string(s, i + 1) {
            None => None,
            Some((cs, j)) => Some((JsonV::Str(cs), j)),
        }
    } else if s[i] == '-' || is_digit(s[i]) {
        match spec_parse_number(s, i) {
            None => None,
            Some((n, j)) => Some((JsonV::Num(n), j)),
        }
    } else if s[i] == '[' {
        if depth <= 0 {
            None
        } else {
            let j = spec_skip_ws(s, i + 1);
            if !(i < j <= s.len()) {
                None
            } else if j < s.len() && s[j] == ']' {
                Some((JsonV::Arr(Seq::empty()), j + 1))
            } else {
                match spec_parse_items(s, j, depth - 1) {
                    None => None,
                    Some((items, k)) => Some((JsonV::Arr(items), k)),
                }
            }
        }
    } else if s[i] == '{' {
        if depth <= 0 {
            None
        } else {
            let j = spec_skip_ws(s, i + 1);
            if !(i < j <= s.len()) {
                None
            } else if j < s.len() && s[j] == '}' {
                Some((JsonV::Obj(Seq::empty()), j + 1))
            } else {
                match spec_parse_members(s, j, depth - 1) {
                    None => None,
                    Some((members, k)) => Some((JsonV::Obj(members), k)),
                }
            }
        }
    } else {
        None
    }
}

/// Array elements from the first element on; ends after `]`.
pub open spec fn spec_parse_items(s: Seq<char>, i: int, depth: int) -> Option<
    (Seq<JsonV>, int),
>
    decreases s.len() - i, 1int,
{
    match spec_parse_value(s, i, depth) {
        None => None,
        Some((v, a)) => {
            if !(i < a <= s.len()) {
                None
            } else {
                let b = spec_skip_ws(s, a);
                if !(a <= b <= s.len()) {
                    None
                } else if b < s.len() && s[b] == ']' {
                    Some((seq![v], b + 1))
                } else if b < s.len() && s[b] == ',' {
                    let c = spec_skip_ws(s, b + 1);
                    if !(i < c <= s.len()) {
                        None
                    } else {
                        match spec_parse_items(s, c, depth) {
                            None => None,
                            Some((rest, k)) => Some((seq![v] + rest, k)),
                        }
                    }
                } else {
                    None
                }
            }
        },
    }
}

/// Object members from the first key on; ends after `}`.
pub open spec fn spec_parse_members(s: Seq<char>, i: int, depth: int) -> Option<
    (Seq<(Seq<char>, JsonV)>, int),
>
    decreases s.len() - i, 1int,
{
    if !(0 <= i < s.len() && s[i] == '"') {
        None
    } else {
        match spec_parse_string(s, i + 1) {
            None => None,
            Some((key, a)) => {
                if !(i < a <= s.len()) {
                    None
                } else {
                    let b = spec_skip_ws(s, a);
                    if !(b < s.len() && s[b] == ':') {
                        None
                    } else {
                        let c = spec_skip_ws(s, b + 1);
                        if !(i < c <= s.len()) {
                            None
                        } else {
                            match spec_parse_value(s, c, depth) {
                                None => None,
                                Some((v, d)) => {
                                    if !(c <= d <= s.len()) {
                                        None
                                    } else {
                                        let e = spec_skip_ws(s, d);
                                        if e < s.len() && s[e] == '}' {
                                            Some((seq![(key, v)], e + 1))
                                        } else if e < s.len() && s[e] == ',' {
                                            let f = spec_skip_ws(s, e + 1);
                                            if !(i < f <= s.len()) {
                                                None
                                            } else {
                                                match spec_parse_members(s, f, depth) {
                                                    None => None,
                                                    Some((rest, k)) => Some(
                                                        (seq![(key, v)] + rest, k),
                                                    ),
                                                }
                                            }
                                        } else {
                                            None
                                        }
                                    }
                                },
                            }
                        }
                    }
                }
            },
        }
    }
}

/// A whole document: one value surrounded by whitespace, nothing after it.
pub open spec fn spec_parse_json(s: Seq<char>) -> Option<JsonV> {
    let i = spec_skip_ws(s, 0);
    match spec_parse_value(s, i, DEPTH_LIMIT as int) {
        None => None,
        Some((v, j)) => {
            if spec_skip_ws(s, j) == s.len() {
                Some(v)
            } else {
                None
            }
        },
    }
}

// ---------------------------------------------------------------------------
// Executable parser
// ---------------------------------------------------------------------------

/// Relies on core::char::from_u32: for any Unicode scalar value it returns
/// the character with exactly that value.
#[verifier::external_body]
pub(crate) fn char_from_scalar(x: u32) -> (r: char)
    requires
        x < 0xD800 || (0xE000 <= x && x <= 0x10FFFF),
    ensures
        r == (x as char),
{
    char::from_u32(x).unwrap_or('\u{0}')
}

fn ws_char(c: char) -> (b: bool)
    ensures
        b == is_ws(c),
{
    c == ' ' || c == '\t' || c == '\n' || c == '\r'
}

fn digit_char(c: char) -> (b: bool)
    ensures
        b == is_digit(c),
{
    let u = c as u32;
    48 <= u && u <= 57
}

fn skip_ws(s: &Vec<char>, i: usize) -> (r: usize)
    requires
        i <= s@.len(),
    ensures
        r as int == spec_skip_ws(s@, i as int),
        i <= r <= s@.len(),
{
    let mut j = i;
    while j < s.len() && ws_char(s[j])
        invariant
            i <= j <= s@.len(),
            spec_skip_ws(s@, i as int) == spec_skip_ws(s@, j as int),
        decreases s@.len() - j,
    {
        j = j + 1;
    }
    j
}

fn scan_digits(s: &Vec<char>, i: usize) -> (r: usize)
    requires
        i <= s@.len(),
    ensures
        r as int == spec_scan_digits(s@, i as int),
        i <= r <= s@.len(),
        forall|k: int| i <= k < r ==> is_digit(s@[k]),
{
    let mut j = i;
    while j < s.len() && digit_char(s[j])
        invariant
            i <= j <= s@.len(),
            spec_scan_digits(s@, i as int) == spec_scan_digits(s@, j as int),
            forall|k: int| i <= k < j ==> is_digit(s@[k]),
        decreases s@.len() - j,
    {
        j = j + 1;
    }
    j
}

pub(crate) fn hexv(c: char) -> (r: Option<u32>)
    ensures
        match r {
            Some(v) => hex_val(c) == Some(v as int) && v < 16,
            None => hex_val(c) is None,
        },
{
    let u = c as u32;
    if 48 <= u && u <= 57 {
        Some(u - 48)
    } else if 97 <= u && u <= 102 {
        Some(u - 97 + 10)
    } else if 65 <= u && u <= 70 {
        Some(u - 65 + 10)
    } else {
        None
    }
}

fn hex4(s: &Vec<char>, i: usize) -> (r: Option<u32>)
    requires
        i <= s@.len(),
    ensures
        match r {
            Some(v) => spec_hex4(s@, i as int) == Some(v as int) && v < 0x10000 && i + 4
                <= s@.len(),
            None => spec_hex4(s@, i as int) is None,
        },
{
    if s.len() < 4 || i > s.len() - 4 {
        return None;
    }
    let (a, b, c, d) = (hexv(s[i]), hexv(s[i + 1]), hexv(s[i + 2]), hexv(s[i + 3]));
    match (a, b, c, d) {
        (Some(a), Some(b), Some(c), Some(d)) => Some(a * 4096 + b * 256 + c * 16 + d),
        _ => None,
    }
}

fn parse_escape(s: &Vec<char>, i: usize) -> (r: Option<(char, usize)>)
    requires
        i <= s@.len(),
    ensures
        match r {
            Some(p) => spec_parse_escape(s@, i as int) == Some((p.0, p.1 as int)) && i < p.1
                <= s@.len(),
            None => spec_parse_escape(s@, i as int) is None,
        },
{
    if i >= s.len() {
        return None;
    }
    let c = s[i];
    if c == '"' {
        Some(('"', i + 1))
    } else if c == '\\' {
        Some(('\\', i + 1))
    } else if c == '/' {
        Some(('/', i + 1))
    } else if c == 'b' {
        Some(('\u{8}', i + 1))
    } else if c == 'f' {
        Some(('\u{c}', i + 1))
    } else if c == 'n' {
        Some(('\n', i + 1))
    } else if c == 'r' {
        Some(('\r', i + 1))
    } else if c == 't' {
        Some(('\t', i + 1))
    } else if c == 'u' {
        match hex4(s, i + 1) {
            None => None,
            Some(h) => {
                if 0xD800 <= h && h < 0xDC00 {
                    if s.len() - i >= 7 && s[i + 5] == '\\' && s[i + 6] == 'u' {
                        match hex4(s, i + 7) {
                            None => None,
                            Some(l) => {
                                if 0xDC00 <= l && l < 0xE000 {
                                    let code = 0x10000 + (h - 0xD800) * 0x400 + (l - 0xDC00);
                                    Some((char_from_scalar(code), i + 11))
                                } else {
                                    None
                                }
                            },
                        }
                    } else {
                        None
                    }
                } else if 0xDC00 <= h && h < 0xE000 {
                    None
                } else {
                    Some((char_from_scalar(h), i + 5))
                }
            },
        }
    } else {
        None
    }
}

fn parse_string(s: &Vec<char>, i: usize) -> (r: Option<(Vec<char>, usize)>)
    requires
        i <= s@.len(),
    ensures
        match r {
            Some(p) => spec_parse_string(s@, i as int) == Some((p.0@, p.1 as int)) && i < p.1
                <= s@.len(),
            None => spec_parse_string(s@, i as int) is None,
        },
    decreases s@.len() - i,
{
    if i >= s.len() {
        return None;
    }
    let c = s[i];
    if c == '"' {
        Some((Vec::new(), i + 1))
    } else if c == '\\' {
        match parse_escape(s, i + 1) {
            None => None,
            Some((ch, j)) => match parse_string(s, j) {
                None => None,
                Some((mut rest, k)) => {
                    proof {
                        assert(rest@.insert(0, ch) =~= seq![ch] + rest@);
                    }
                    rest.insert(0, ch);
                    Some((rest, k))
                },
            },
        }
    } else if (c as u32) < 0x20 {
        None
    } else {
        match parse_string(s, i + 1) {
            None => None,
            Some((mut rest, k)) => {
                proof {
                    assert(rest@.insert(0, c) =~= seq![c] + rest@);
                }
                rest.insert(0, c);
                Some((rest, k))
            },
        }
    }
}

fn sat_digits(s: &Vec<char>, a: usize, b: usize) -> (r: i64)
    requires
        a <= b <= s@.len(),
        forall|k: int| a <= k < b ==> is_digit(s@[k]),
    ensures
        r == spec_sat_val(s@.subrange(a as int, b as int)),
        0 <= r < 1_000_000_000_000_000_000,
{
    let mut acc: i64 = 0;
    let mut k = a;
    proof {
        assert(s@.subrange(a as int, a as int) =~= Seq::<char>::empty());
    }
    while k < b
        invariant
            a <= k <= b <= s@.len(),
            forall|j: int| a <= j < b ==> is_digit(s@[j]),
            acc == spec_sat_val(s@.subrange(a as int, k as int)),
            0 <= acc < 1_000_000_000_000_000_000,
        decreases b - k,
    {
        let d = (s[k] as u32 - 48) as i64;
        proof {
            assert(s@.subrange(a as int, k as int + 1).drop_last() =~= s@.subrange(
                a as int,
                k as int,
            ));
            assert(s@.subrange(a as int, k as int + 1).last() == s@[k as int]);
        }
        if acc < EXP_SAT {
            acc = acc * 10 + d;
        }
        k = k + 1;
    }
    acc
}

fn copy_range(s: &Vec<char>, a: usize, b: usize) -> (r: Vec<char>)
    requires
        a <= b <= s@.len(),
    ensures
        r@ == s@.subrange(a as int, b as int),
{
    let mut r: Vec<char> = Vec::new();
    let mut k = a;
    while k < b
        invariant
            a <= k <= b <= s@.len(),
            r@ == s@.subrange(a as int, k as int),
        decreases b - k,
    {
        r.push(s[k]);
        proof {
            assert(s@.subrange(a as int, k as int).push(s@[k as int]) =~= s@.subrange(
                a as int,
                k as int + 1,
            ));
        }
        k = k + 1;
    }
    proof {
        assert(r@ =~= s@.subrange(a as int, b as int));
    }
    r
}

#[verifier::rlimit(60)]
fn parse_number(s: &Vec<char>, i: usize) -> (r: Option<(JsonNum, usize)>)
    requires
        i <= s@.len(),
    ensures
        match r {
            Some(p) => spec_parse_number(s@, i as int) == Some((numv(p.0), p.1 as int)) && i < p.1
                <= s@.len(),
            None => spec_parse_number(s@, i as int) is None,
        },
{
    if i >= s.len() {
        return None;
    }
    let neg = s[i] == '-';
    let i1 = if neg {
        i + 1
    } else {
        i
    };
    if i1 >= s.len() || !digit_char(s[i1]) {
        return None;
    }
    let i2 = if s[i1] == '0' {
        i1 + 1
    } else {
        proof {
            assert(spec_scan_digits(s@, i1 as int) == spec_scan_digits(s@, i1 as int + 1));
        }
        scan_digits(s, i1 + 1)
    };
    let has_frac = i2 < s.len() && s[i2] == '.';
    let f_end = if has_frac {
        scan_digits(s, i2 + 1)
    } else {
        i2
    };
    if has_frac && f_end == i2 + 1 {
        return None;
    }
    let mut digits = copy_range(s, i1, i2);
    let fd_len = if has_frac {
        let mut fd = copy_range(s, i2 + 1, f_end);
        let n = fd.len();
        digits.append(&mut fd);
        n
    } else {
        proof {
            assert(digits@ + Seq::<char>::empty() =~= digits@);
        }
        0
    };
    let fl: i64 = if fd_len > 1_000_000_000 {
        1_000_000_000
    } else {
        fd_len as i64
    };
    let i3 = f_end;
    let has_exp = i3 < s.len() && (s[i3] == 'e' || s[i3] == 'E');
    if has_exp {
        let esign_neg = i3 + 1 < s.len() && s[i3 + 1] == '-';
        let esign_pos = i3 + 1 < s.len() && s[i3 + 1] == '+';
        let estart = if esign_neg || esign_pos {
            i3 + 2
        } else {
            i3 + 1
        };
        let e_end = scan_digits(s, estart);
        if e_end == estart {
            return None;
        }
        let ev = sat_digits(s, estart, e_end);
        let sev: i64 = if esign_neg {
            -ev
        } else {
            ev
        };
        Some(
            (
                JsonNum { neg, digits, exp: sev - fl, int_form: false },
                e_end,
            ),
        )
    } else {
        Some(
            (
                JsonNum { neg, digits, exp: 0 - fl, int_form: !has_frac },
                i3,
            ),
        )
    }
}

fn parse_value(s: &Vec<char>, i: usize, depth: u32) -> (r: Option<(Json, usize)>)
    requires
        i <= s@.len(),
    ensures
        match r {
            Some(p) => spec_parse_value(s@, i as int, depth as int) == Some(
                (jview(p.0), p.1 as int),
            ) && i < p.1 <= s@.len(),
            None => spec_parse_value(s@, i as int, depth as int) is None,
        },
    decreases s@.len() - i, 0int,
{
    if i >= s.len() {
        return None;
    }
    let c = s[i];
    if c == 'n' {
        if s.len() - i >= 4 && s[i + 1] == 'u' && s[i + 2] == 'l' && s[i + 3] == 'l' {
            Some((Json::Null, i + 4))
        } else {
            None
        }
    } else if c == 't' {
        if s.len() - i >= 4 && s[i + 1] == 'r' && s[i + 2] == 'u' && s[i + 3] == 'e' {
            Some((Json::Bool(true), i + 4))
        } else {
            None
        }
    } else if c == 'f' {
        if s.len() - i >= 5 && s[i + 1] == 'a' && s[i + 2] == 'l' && s[i + 3] == 's' && s[i + 4]
            == 'e' {
            Some((Json::Bool(false), i + 5))
        } else {
            None
        }
    } else if c == '"' {
        match parse_string(s, i + 1) {
            None => None,
            Some((cs, j)) => Some((Json::Str(cs), j)),
        }
    } else if c == '-' || digit_char(c) {
        match parse_number(s, i) {
            None => None,
            Some((n, j)) => Some((Json::Num(n), j)),
        }
    } else if c == '[' {
        if depth == 0 {
            return None;
        }
        let j = skip_ws(s, i + 1);
        if j < s.len() && s[j] == ']' {
            Some((Json::Arr(Vec::new()), j + 1))
        } else {
            match parse_items(s, j, depth - 1) {
                None => None,
                Some((items, k)) => Some((Json::Arr(items), k)),
            }
        }
    } else if c == '{' {
        if depth == 0 {
            return None;
        }
        let j = skip_ws(s, i + 1);
        if j < s.len() && s[j] == '}' {
            Some((Json::Obj(Vec::new()), j + 1))
        } else {
            match parse_members(s, j, depth - 1) {
                None => None,
                Some((members, k)) => Some((Json::Obj(members), k)),
            }
        }
    } else {
        None
    }
}

fn parse_items(s: &Vec<char>, i: usize, depth: u32) -> (r: Option<(Vec<Json>, usize)>)
    requires
        i <= s@.len(),
    ensures
        match r {
            Some(p) => spec_parse_items(s@, i as int, depth as int) == Some(
                (jview_seq(p.0@), p.1 as int),
            ) && i < p.1 <= s@.len(),
            None => spec_parse_items(s@, i as int, depth as int) is None,
        },
    decreases s@.len() - i, 1int,
{
    match parse_value(s, i, depth) {
        None => None,
        Some((v, a)) => {
            let b = skip_ws(s, a);
            if b < s.len() && s[b] == ']' {
                let mut items: Vec<Json> = Vec::new();
                items.push(v);
                proof {
                    assert(items@ =~= seq![v]);
                    lemma_jview_seq_one(v, items@);
                }
                Some((items, b + 1))
            } else if b < s.len() && s[b] == ',' {
                let c2 = skip_ws(s, b + 1);
                match parse_items(s, c2, depth) {
                    None => None,
                    Some((mut rest, k)) => {
                        proof {
                            lemma_jview_seq_cons(v, rest@);
                        }
                        rest.insert(0, v);
                        Some((rest, k))
                    },
                }
            } else {
                None
            }
        },
    }
}

fn parse_members(s: &Vec<char>, i: usize, depth: u32) -> (r: Option<
    (Vec<(Vec<char>, Json)>, usize),
>)
    requires
        i <= s@.len(),
    ensures
        match r {
            Some(p) => spec_parse_members(s@, i as int, depth as int) == Some(
                (mview_seq(p.0@), p.1 as int),
            ) && i < p.1 <= s@.len(),
            None => spec_parse_members(s@, i as int, depth as int) is None,
        },
    decreases s@.len() - i, 1int,
{
    if !(i < s.len() && s[i] == '"') {
        return None;
    }
    match parse_string(s, i + 1) {
        None => None,
        Some((key, a)) => {
            let b = skip_ws(s, a);
            if !(b < s.len() && s[b] == ':') {
                return None;
            }
            let c2 = skip_ws(s, b + 1);
            match parse_value(s, c2, depth) {
                None => None,
                Some((v, d)) => {
                    let e = skip_ws(s, d);
                    if e < s.len() && s[e] == '}' {
                        let mut members: Vec<(Vec<char>, Json)> = Vec::new();
                        members.push((key, v));
                        proof {
                            lemma_mview_seq_one(members@);
                        }
                        Some((members, e + 1))
                    } else if e < s.len() && s[e] == ',' {
                        let f = skip_ws(s, e + 1);
                        match parse_members(s, f, depth) {
                            None => None,
                            Some((mut rest, k)) => {
                                proof {
                                    lemma_mview_seq_cons((key@, jview(v)), rest@);
                                }
                                rest.insert(0, (key, v));
                                Some((rest, k))
                            },
                        }
                    } else {
                        None
                    }
                },
            }
        },
    }
}

proof fn lemma_jview_seq_one(v: Json, s: Seq<Json>)
    requires
        s =~= seq![v],
    ensures
        jview_seq(s) == seq![jview(v)],
{
    assert(jview_seq(Seq::<Json>::empty()) == Seq::<JsonV>::empty());
    assert(s.drop_first() =~= Seq::<Json>::empty());
    assert(s[0] == v);
    assert(jview_seq(s) == seq![jview(v)] + Seq::<JsonV>::empty());
    assert(seq![jview(v)] + Seq::<JsonV>::empty() =~= seq![jview(v)]);
}

proof fn lemma_jview_seq_cons(v: Json, rest: Seq<Json>)
    ensures
        jview_seq(rest.insert(0, v)) == seq![jview(v)] + jview_seq(rest),
{
    let t = rest.insert(0, v);
    assert(t.len() == rest.len() + 1);
    assert(t[0] == v);
    assert(t.drop_first() =~= rest);
    assert(jview_seq(t) == seq![jview(v)] + jview_seq(rest));
}

proof fn lemma_mview_seq_one(s: Seq<(Vec<char>, Json)>)
    requires
        s.len() == 1,
    ensures
        mview_seq(s) == seq![(s[0].0@, jview(s[0].1))],
{
    assert(mview_seq(Seq::<(Vec<char>, Json)>::empty()) == Seq::<(Seq<char>, JsonV)>::empty());
    assert(s.drop_first() =~= Seq::<(Vec<char>, Json)>::empty());
    assert(mview_seq(s) == seq![(s[0].0@, jview(s[0].1))] + Seq::<(Seq<char>, JsonV)>::empty());
    assert(seq![(s[0].0@, jview(s[0].1))] + Seq::<(Seq<char>, JsonV)>::empty() =~= seq![
        (s[0].0@, jview(s[0].1)),
    ]);
}

proof fn lemma_mview_seq_cons(p: (Seq<char>, JsonV), rest: Seq<(Vec<char>, Json)>)
    ensures
        forall|kv: (Vec<char>, Json)|
            (kv.0@, jview(kv.1)) == p ==> mview_seq(rest.insert(0, kv)) == seq![p] + mview_seq(
                rest,
            ),
{
    assert forall|kv: (Vec<char>, Json)| (kv.0@, jview(kv.1)) == p implies mview_seq(
        rest.insert(0, kv),
    ) == seq![p] + mview_seq(rest) by {
        let t = rest.insert(0, kv);
        assert(t.len() == rest.len() + 1);
        assert(t[0] == kv);
        assert(t.drop_first() =~= rest);
        assert(mview_seq(t) == seq![p] + mview_seq(rest));
    }
}

// ---------------------------------------------------------------------------
// Exact scaled integer value of a number
// ---------------------------------------------------------------------------

pub open spec fn pow10(e: nat) -> int
    decreases e,
{
    if e == 0 {
        1
    } else {
        10 * pow10((e - 1) as nat)
    }
}

/// The numeric value of a decimal digit string (Horner form).
pub open spec fn digits_val(ds: Seq<char>) -> int
    decreases ds.len(),
{
    if ds.len() == 0 {
        0
    } else {
        10 * digits_val(ds.drop_last()) + digit_val(ds.last())
    }
}

pub open spec fn zeros(n: nat) -> Seq<char> {
    Seq::new(n, |i: int| '0')
}

/// The value of `n` multiplied by 10^scale and truncated toward zero.
pub open spec fn spec_scaled(n: NumV, scale: int) -> int {
    let e = n.exp + scale;
    let m = digits_val(n.digits);
    let mag = if e >= 0 {
        m * pow10(e as nat)
    } else {
        m / pow10((-e) as nat)
    };
    if n.neg {
        -mag
    } else {
        mag
    }
}

pub proof fn lemma_pow10_pos(e: nat)
    ensures
        pow10(e) >= 1,
    decreases e,
{
    if e > 0 {
        lemma_pow10_pos((e - 1) as nat);
    }
}

pub proof fn lemma_pow10_mono(a: nat, b: nat)
    requires
        a <= b,
    ensures
        pow10(a) <= pow10(b),
    decreases b,
{
    if a < b {
        lemma_pow10_mono(a, (b - 1) as nat);
        lemma_pow10_pos((b - 1) as nat);
    }
}

pub proof fn lemma_pow10_19()
    ensures
        pow10(19) == 10_000_000_000_000_000_000,
{
    assert(pow10(0) == 1);
    assert(pow10(1) == 10);
    assert(pow10(2) == 100);
    assert(pow10(3) == 1000);
    assert(pow10(4) == 10000);
    assert(pow10(5) == 100000);
    assert(pow10(6) == 1000000);
    assert(pow10(7) == 10000000);
    assert(pow10(8) == 100000000);
    assert(pow10(9) == 1000000000);
    assert(pow10(10) == 10000000000);
    assert(pow10(11) == 100000000000);
    assert(pow10(12) == 1000000000000);
    assert(pow10(13) == 10000000000000);
    assert(pow10(14) == 100000000000000);
    assert(pow10(15) == 1000000000000000);
    assert(pow10(16) == 10000000000000000);
    assert(pow10(17) == 100000000000000000);
    assert(pow10(18) == 1000000000000000000);
    assert(pow10(19) == 10000000000000000000);
}

pub proof fn lemma_dv_bounds(ds: Seq<char>)
    ensures
        0 <= digits_val(ds) < pow10(ds.len()),
    decreases ds.len(),
{
    if ds.len() > 0 {
        lemma_dv_bounds(ds.drop_last());
    }
}

pub proof fn lemma_dv_lb(ds: Seq<char>)
    requires
        ds.len() > 0,
        digit_val(ds[0]) >= 1,
    ensures
        digits_val(ds) >= pow10((ds.len() - 1) as nat),
    decreases ds.len(),
{
    if ds.len() == 1 {
        assert(ds.drop_last() =~= Seq::<char>::empty());
    } else {
        assert(ds.drop_last()[0] == ds[0]);
        lemma_dv_lb(ds.drop_last());
        lemma_dv_bounds(ds.drop_last());
        assert(pow10((ds.len() - 1) as nat) == 10 * pow10((ds.len() - 2) as nat));
    }
}

pub proof fn lemma_dv_zero_front(ds: Seq<char>)
    requires
        ds.len() > 0,
        digit_val(ds[0]) == 0,
    ensures
        digits_val(ds) == digits_val(ds.drop_first()),
    decreases ds.len(),
{
    if ds.len() == 1 {
        assert(ds.drop_last() =~= Seq::<char>::empty());
        assert(ds.drop_first() =~= Seq::<char>::empty());
        assert(ds.last() == ds[0]);
    } else {
        assert(ds.drop_last()[0] == ds[0]);
        lemma_dv_zero_front(ds.drop_last());
        assert(ds.drop_last().drop_first() =~= ds.drop_first().drop_last());
        assert(ds.drop_first().last() == ds.last());
    }
}

pub proof fn lemma_dv_append_zeros(ds: Seq<char>, n: nat)
    ensures
        digits_val(ds + zeros(n)) == digits_val(ds) * pow10(n),
    decreases n,
{
    if n == 0 {
        assert(ds + zeros(0) =~= ds);
    } else {
        lemma_dv_append_zeros(ds, (n - 1) as nat);
        let prev = ds + zeros((n - 1) as nat);
        assert(ds + zeros(n) =~= prev.push('0'));
        assert(prev.push('0').drop_last() =~= prev);
        assert(digit_val('0') == 0);
        let m = digits_val(ds);
        let p = pow10((n - 1) as nat);
        assert(10 * (m * p) == m * (10 * p)) by (nonlinear_arith);
    }
}

pub proof fn lemma_dv_drop_div(ds: Seq<char>, k: nat)
    requires
        k <= ds.len(),
    ensures
        digits_val(ds) / pow10(k) == digits_val(ds.subrange(0, ds.len() - k)),
    decreases k,
{
    lemma_pow10_pos(k);
    if k == 0 {
        assert(ds.subrange(0, ds.len() as int) =~= ds);
        lemma_dv_bounds(ds);
        assert(digits_val(ds) / 1 == digits_val(ds));
    } else {
        let q = digits_val(ds.drop_last());
        let d = digit_val(ds.last());
        lemma_dv_bounds(ds.drop_last());
        vstd::arithmetic::div_mod::lemma_fundamental_div_mod_converse(
            digits_val(ds),
            10,
            q,
            d,
        );
        lemma_pow10_pos((k - 1) as nat);
        vstd::arithmetic::div_mod::lemma_div_denominator(
            digits_val(ds),
            10,
            pow10((k - 1) as nat),
        );
        lemma_dv_drop_div(ds.drop_last(), (k - 1) as nat);
        assert(ds.drop_last().subrange(0, ds.len() - k) =~= ds.subrange(0, ds.len() - k));
    }
}

fn dval(c: char) -> (d: u64)
    ensures
        d == digit_val(c),
        d <= 9,
{
    let u = c as u32;
    if 48 <= u && u <= 57 {
        (u - 48) as u64
    } else {
        0
    }
}

/// Multiply the number by 10^scale and truncate toward zero. `None` when the
/// magnitude exceeds `i64::MAX`.
#[verifier::rlimit(100)]
pub fn scaled_i64(n: &JsonNum, scale: u32) -> (r: Option<i64>)
    requires
        scale <= 9,
    ensures
        match r {
            Some(x) => x as int == spec_scaled(numv(*n), scale as int) && -(i64::MAX as int)
                <= x as int,
            None => spec_scaled(numv(*n), scale as int) > i64::MAX as int || spec_scaled(
                numv(*n),
                scale as int,
            ) < -(i64::MAX as int),
        },
{
    let ghost nv = numv(*n);
    let ghost sv = spec_scaled(nv, scale as int);
    let e: i128 = n.exp as i128 + scale as i128;
    let l = n.digits.len();
    // strip leading zeros
    let mut z: usize = 0;
    proof {
        assert(n.digits@.subrange(0, l as int) =~= n.digits@);
    }
    while z < l && dval(n.digits[z]) == 0
        invariant
            0 <= z <= l == n.digits@.len(),
            digits_val(n.digits@.subrange(z as int, l as int)) == digits_val(n.digits@),
        decreases l - z,
    {
        proof {
            let cur = n.digits@.subrange(z as int, l as int);
            lemma_dv_zero_front(cur);
            assert(cur.drop_first() =~= n.digits@.subrange(z as int + 1, l as int));
        }
        z = z + 1;
    }
    let ghost m = digits_val(n.digits@);
    if z == l {
        proof {
            assert(n.digits@.subrange(l as int, l as int) =~= Seq::<char>::empty());
            assert(m == 0);
            if e >= 0 {
                assert(m * pow10((numv(*n).exp + scale as int) as nat) == 0)
                    by (nonlinear_arith)
                    requires
                        m == 0,
                ;
            } else {
                lemma_pow10_pos((-(e as int)) as nat);
                vstd::arithmetic::div_mod::lemma_basic_div_specific_divisor(
                    pow10((-(e as int)) as nat),
                );
            }
            assert(spec_scaled(numv(*n), scale as int) == 0);
        }
        return Some(0);
    }
    let lp = l - z;
    proof {
        assert(digit_val(n.digits@[z as int]) >= 1);
        assert(n.digits@.subrange(z as int, l as int)[0] == n.digits@[z as int]);
    }
    if e >= 0 {
        // magnitude is m * 10^e, built as the digit string followed by e zeros
        if e > 19 || lp as i128 + e > 19 {
            proof {
                let total = lp + e as int;
                lemma_dv_lb(n.digits@.subrange(z as int, l as int));
                lemma_pow10_mono(19, (total - 1) as nat);
                lemma_pow10_19();
                lemma_dv_append_zeros(n.digits@.subrange(z as int, l as int), e as nat);
                lemma_dv_lb(
                    n.digits@.subrange(z as int, l as int) + zeros(e as nat),
                );
                assert((n.digits@.subrange(z as int, l as int) + zeros(e as nat))[0] == n.digits@[
                    z as int
                ]);
            }
            return None;
        }
        let mut acc: u64 = 0;
        let mut j = z;
        proof {
            assert(n.digits@.subrange(z as int, z as int) =~= Seq::<char>::empty());
            lemma_pow10_19();
        }
        while j < l
            invariant
                z <= j <= l == n.digits@.len(),
                lp == l - z,
                0 <= e,
                lp as int + e <= 19,
                acc == digits_val(n.digits@.subrange(z as int, j as int)),
                acc < pow10((j - z) as nat),
                pow10(19) == 10_000_000_000_000_000_000,
            decreases l - j,
        {
            let d = dval(n.digits[j]);
            proof {
                let cur = n.digits@.subrange(z as int, j as int + 1);
                assert(cur.drop_last() =~= n.digits@.subrange(z as int, j as int));
                assert(cur.last() == n.digits@[j as int]);
                lemma_pow10_mono((j + 1 - z) as nat, 19);
            }
            acc = acc * 10 + d;
            j = j + 1;
        }
        let ghost ds = n.digits@.subrange(z as int, l as int);
        let mut t: u32 = 0;
        proof {
            assert(ds + zeros(0) =~= ds);
        }
        while t < e as u32
            invariant
                0 <= t <= e <= 19,
                lp as int + e <= 19,
                lp == ds.len(),
                acc == digits_val(ds + zeros(t as nat)),
                acc < pow10((lp + t) as nat),
                pow10(19) == 10_000_000_000_000_000_000,
            decreases e - t,
        {
            proof {
                let cur = ds + zeros(t as nat + 1);
                assert(cur =~= (ds + zeros(t as nat)).push('0'));
                assert(cur.drop_last() =~= ds + zeros(t as nat));
                assert(cur.last() == '0');
                assert(digit_val('0') == 0);
                lemma_pow10_mono((lp + t + 1) as nat, 19);
            }
            acc = acc * 10;
            t = t + 1;
        }
        proof {
            lemma_dv_append_zeros(ds, e as nat);
            assert(digits_val(ds + zeros(e as nat)) == m * pow10(e as nat));
        }
        if acc > i64::MAX as u64 {
            None
        } else {
            if n.neg {
                Some(-(acc as i64))
            } else {
                Some(acc as i64)
            }
        }
    } else {
        // magnitude is m / 10^k: drop the last k digits
        let k: i128 = -e;
        proof {
            lemma_dv_bounds(n.digits@.subrange(z as int, l as int));
        }
        if k >= lp as i128 {
            proof {
                lemma_pow10_mono(lp as nat, k as nat);
                lemma_pow10_pos(k as nat);
                let ds = n.digits@.subrange(z as int, l as int);
                vstd::arithmetic::div_mod::lemma_basic_div_specific_divisor(pow10(k as nat));
                assert(m / pow10(k as nat) == 0);
            }
            return Some(0);
        }
        let keep: usize = lp - (k as usize);
        let ghost ds = n.digits@.subrange(z as int, l as int);
        proof {
            lemma_dv_drop_div(ds, k as nat);
            assert(ds.subrange(0, lp - k as int) =~= n.digits@.subrange(
                z as int,
                z as int + keep as int,
            ));
        }
        if keep > 19 {
            proof {
                let kept = ds.subrange(0, lp - k as int);
                assert(kept[0] == n.digits@[z as int]);
                lemma_dv_lb(kept);
                lemma_pow10_mono(19, (keep - 1) as nat);
                lemma_pow10_19();
            }
            return None;
        }
        let mut acc: u64 = 0;
        let mut j = z;
        proof {
            assert(n.digits@.subrange(z as int, z as int) =~= Seq::<char>::empty());
            lemma_pow10_19();
        }
        while j < z + keep
            invariant
                z <= j <= z + keep,
                z + keep <= l == n.digits@.len(),
                keep <= 19,
                acc == digits_val(n.digits@.subrange(z as int, j as int)),
                acc < pow10((j - z) as nat),
                pow10(19) == 10_000_000_000_000_000_000,
            decreases z + keep - j,
        {
            let d = dval(n.digits[j]);
            proof {
                let cur = n.digits@.subrange(z as int, j as int + 1);
                assert(cur.drop_last() =~= n.digits@.subrange(z as int, j as int));
                assert(cur.last() == n.digits@[j as int]);
                lemma_pow10_mono((j + 1 - z) as nat, 19);
            }
            acc = acc * 10 + d;
            j = j + 1;
        }
        if acc > i64::MAX as u64 {
            None
        } else {
            if n.neg {
                Some(-(acc as i64))
            } else {
                Some(acc as i64)
            }
        }
    }
}

/// The sign of a scaled value follows the recorded sign: a non-negated
/// number never scales below zero, a negated one never above.
pub proof fn lemma_scaled_sign(n: NumV, scale: int)
    ensures
        !n.neg ==> spec_scaled(n, scale) >= 0,
        n.neg ==> spec_scaled(n, scale) <= 0,
{
    let e = n.exp + scale;
    let m = digits_val(n.digits);
    lemma_dv_bounds(n.digits);
    if e >= 0 {
        lemma_pow10_pos(e as nat);
        assert(m * pow10(e as nat) >= 0) by (nonlinear_arith)
            requires
                m >= 0,
                pow10(e as nat) >= 1,
        ;
    } else {
        lemma_pow10_pos((-e) as nat);
        assert(m / pow10((-e) as nat) >= 0) by (nonlinear_arith)
            requires
                m >= 0,
                pow10((-e) as nat) >= 1,
        ;
    }
}

/// Parse one whole line of text as a JSON document.
pub fn parse_json(s: &Vec<char>) -> (r: Option<Json>)
    ensures
        match r {
            Some(v) => spec_parse_json(s@) == Some(jview(v)),
            None => spec_parse_json(s@) is None,
        },
{
    let i = skip_ws(s, 0);
    match parse_value(s, i, DEPTH_LIMIT) {
        None => None,
        Some((v, j)) => {
            let k = skip_ws(s, j);
            if k == s.len() {
                Some(v)
            } else {
                None
            }
        },
    }
}

} // verus!
