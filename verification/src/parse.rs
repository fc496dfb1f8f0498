//! Reading the persisted note file back: a JSON array of flat objects whose
//! field values are scalars (strings, unsigned integers, null, true,
//! false), with arbitrary whitespace between tokens. This is the shape the
//! store writes; anything else counts as malformed and yields nothing.

use vstd::prelude::*;
use vstd::string::StrSliceExecFns;

use crate::json::Json;
use crate::json::JsonV;
use crate::json::arr_view;
use crate::json::obj_view;
use crate::json::push_char;
use crate::json::render_spec;
use crate::json::render_fields_from;
use crate::json::render_items_from;
use crate::json::spec_escape;
use crate::json::spec_escape_char;
use crate::json::spec_quote;
use crate::json::spec_u64_str;
use crate::json::spec_dec_digit;
use crate::json::spec_hex_digit;

verus! {

pub open spec fn is_ws(c: char) -> bool {
    c == ' ' || c == '\n' || c == '\t' || c == '\r'
}

/// First position at or after `i` that holds no whitespace.
pub open spec fn skip_ws(s: Seq<char>, i: int) -> int
    decreases s.len() - i,
{
    if i < 0 || i >= s.len() {
        i
    } else if is_ws(s[i]) {
        skip_ws(s, i + 1)
    } else {
        i
    }
}

pub proof fn lemma_skip_ws(s: Seq<char>, i: int)
    requires
        0 <= i <= s.len(),
    ensures
        i <= skip_ws(s, i) <= s.len(),
        skip_ws(s, i) < s.len() ==> !is_ws(s[skip_ws(s, i)]),
    decreases s.len() - i,
{
    if i < s.len() && is_ws(s[i]) {
        lemma_skip_ws(s, i + 1);
    }
}

pub open spec fn is_digit(c: char) -> bool {
    48 <= c as u32 <= 57
}

pub open spec fn digit_val(c: char) -> int {
    c as u32 - 48
}

/// First position at or after `i` that holds no decimal digit.
pub open spec fn digit_run_end(s: Seq<char>, i: int) -> int
    decreases s.len() - i,
{
    if i < 0 || i >= s.len() {
        i
    } else if is_digit(s[i]) {
        digit_run_end(s, i + 1)
    } else {
        i
    }
}

pub proof fn lemma_digit_run_end(s: Seq<char>, i: int)
    requires
        0 <= i <= s.len(),
    ensures
        i <= digit_run_end(s, i) <= s.len(),
        forall|k: int| i <= k < digit_run_end(s, i) ==> is_digit(#[trigger] s[k]),
        digit_run_end(s, i) < s.len() ==> !is_digit(s[digit_run_end(s, i)]),
    decreases s.len() - i,
{
    if i < s.len() && is_digit(s[i]) {
        lemma_digit_run_end(s, i + 1);
    }
}

/// The number a digit sequence denotes, most significant digit first.
pub open spec fn digits_val(s: Seq<char>) -> int
    decreases s.len(),
{
    if s.len() == 0 {
        0
    } else {
        digits_val(s.drop_last()) * 10 + digit_val(s.last())
    }
}

pub proof fn lemma_digits_val_bounds(s: Seq<char>)
    requires
        forall|k: int| 0 <= k < s.len() ==> is_digit(#[trigger] s[k]),
    ensures
        digits_val(s) >= 0,
    decreases s.len(),
{
    if s.len() > 0 {
        lemma_digits_val_bounds(s.drop_last());
    }
}

/// An unsigned integer token: a nonempty digit run whose value fits `u64`.
pub open spec fn parse_number(s: Seq<char>, i: int) -> Option<(JsonV, int)> {
    let e = digit_run_end(s, i);
    if e <= i {
        Option::None
    } else {
        let v = digits_val(s.subrange(i, e));
        if v <= u64::MAX {
            Option::Some((JsonV::UInt(v as u64), e))
        } else {
            Option::None
        }
    }
}

pub open spec fn hex_val(c: char) -> int {
    let u = c as u32;
    if 48 <= u <= 57 {
        u - 48
    } else if 97 <= u <= 102 {
        u - 87
    } else if 65 <= u <= 70 {
        u - 55
    } else {
        -1
    }
}

/// The control characters, by code point; only these may stand behind a
/// `\u00..` escape here.
pub open spec fn ctrl_char(v: int) -> char {
    if v == 0 { '\u{0000}' }
    else if v == 1 { '\u{0001}' }
    else if v == 2 { '\u{0002}' }
    else if v == 3 { '\u{0003}' }
    else if v == 4 { '\u{0004}' }
    else if v == 5 { '\u{0005}' }
    else if v == 6 { '\u{0006}' }
    else if v == 7 { '\u{0007}' }
    else if v == 8 { '\u{0008}' }
    else if v == 9 { '\u{0009}' }
    else if v == 10 { '\u{000a}' }
    else if v == 11 { '\u{000b}' }
    else if v == 12 { '\u{000c}' }
    else if v == 13 { '\u{000d}' }
    else if v == 14 { '\u{000e}' }
    else if v == 15 { '\u{000f}' }
    else if v == 16 { '\u{0010}' }
    else if v == 17 { '\u{0011}' }
    else if v == 18 { '\u{0012}' }
    else if v == 19 { '\u{0013}' }
    else if v == 20 { '\u{0014}' }
    else if v == 21 { '\u{0015}' }
    else if v == 22 { '\u{0016}' }
    else if v == 23 { '\u{0017}' }
    else if v == 24 { '\u{0018}' }
    else if v == 25 { '\u{0019}' }
    else if v == 26 { '\u{001a}' }
    else if v == 27 { '\u{001b}' }
    else if v == 28 { '\u{001c}' }
    else if v == 29 { '\u{001d}' }
    else if v == 30 { '\u{001e}' }
    else if v == 31 { '\u{001f}' }
    else { '?' }
}

/// What a short escape letter stands for, if anything.
pub open spec fn short_escape(e: char) -> Option<char> {
    if e == '"' { Option::Some('"') }
    else if e == '\\' { Option::Some('\\') }
    else if e == '/' { Option::Some('/') }
    else if e == 'n' { Option::Some('\n') }
    else if e == 't' { Option::Some('\t') }
    else if e == 'r' { Option::Some('\r') }
    else if e == 'b' { Option::Some('\u{0008}') }
    else if e == 'f' { Option::Some('\u{000c}') }
    else { Option::None }
}

/// The body of a string token, starting after the opening quote: the
/// decoded characters and the position after the closing quote. Raw control
/// characters and unknown escapes are malformed; `\u` escapes are accepted
/// for the control range.
pub open spec fn parse_str_body(s: Seq<char>, i: int) -> Option<(Seq<char>, int)>
    decreases s.len() - i,
{
    if i < 0 || i >= s.len() {
        Option::None
    } else {
        let c = s[i];
        if c == '"' {
            Option::Some((Seq::empty(), i + 1))
        } else if c == '\\' {
            if i + 1 >= s.len() {
                Option::None
            } else if s[i + 1] == 'u' {
                if i + 6 > s.len() {
                    Option::None
                } else {
                    let v = hex_val(s[i + 2]) * 4096 + hex_val(s[i + 3]) * 256 + hex_val(s[i + 4])
                        * 16 + hex_val(s[i + 5]);
                    if hex_val(s[i + 2]) >= 0 && hex_val(s[i + 3]) >= 0 && hex_val(s[i + 4]) >= 0
                        && hex_val(s[i + 5]) >= 0 && v < 32 {
                        match parse_str_body(s, i + 6) {
                            Option::Some((t, e)) => Option::Some((seq![ctrl_char(v)] + t, e)),
                            Option::None => Option::None,
                        }
                    } else {
                        Option::None
                    }
                }
            } else {
                match short_escape(s[i + 1]) {
                    Option::Some(d) => match parse_str_body(s, i + 2) {
                        Option::Some((t, e)) => Option::Some((seq![d] + t, e)),
                        Option::None => Option::None,
                    },
                    Option::None => Option::None,
                }
            }
        } else if (c as u32) < 32 {
            Option::None
        } else {
            match parse_str_body(s, i + 1) {
                Option::Some((t, e)) => Option::Some((seq![c] + t, e)),
                Option::None => Option::None,
            }
        }
    }
}

pub proof fn lemma_parse_str_body_progress(s: Seq<char>, i: int)
    requires
        0 <= i,
    ensures
        match parse_str_body(s, i) {
            Option::Some((t, e)) => i < e <= s.len(),
            Option::None => true,
        },
    decreases s.len() - i,
{
    if 0 <= i < s.len() {
        lemma_parse_str_body_progress(s, i + 1);
        if i + 2 <= s.len() {
            lemma_parse_str_body_progress(s, i + 2);
        }
        if i + 6 <= s.len() {
            lemma_parse_str_body_progress(s, i + 6);
        }
    }
}

/// One scalar token: a string, an unsigned integer, null, true or false.
pub open spec fn parse_scalar(s: Seq<char>, i: int) -> Option<(JsonV, int)> {
    if i < 0 || i >= s.len() {
        Option::None
    } else {
        let c = s[i];
        if c == '"' {
            match parse_str_body(s, i + 1) {
                Option::Some((t, e)) => Option::Some((JsonV::Str(t), e)),
                Option::None => Option::None,
            }
        } else if is_digit(c) {
            parse_number(s, i)
        } else if i + 4 <= s.len() && s[i] == 'n' && s[i + 1] == 'u' && s[i + 2] == 'l' && s[i + 3]
            == 'l' {
            Option::Some((JsonV::Null, i + 4))
        } else if i + 4 <= s.len() && s[i] == 't' && s[i + 1] == 'r' && s[i + 2] == 'u' && s[i + 3]
            == 'e' {
            Option::Some((JsonV::Bool(true), i + 4))
        } else if i + 5 <= s.len() && s[i] == 'f' && s[i + 1] == 'a' && s[i + 2] == 'l' && s[i + 3]
            == 's' && s[i + 4] == 'e' {
            Option::Some((JsonV::Bool(false), i + 5))
        } else {
            Option::None
        }
    }
}

pub proof fn lemma_parse_scalar_progress(s: Seq<char>, i: int)
    requires
        0 <= i,
    ensures
        match parse_scalar(s, i) {
            Option::Some((v, e)) => i < e <= s.len(),
            Option::None => true,
        },
{
    if 0 <= i < s.len() {
        lemma_parse_str_body_progress(s, i + 1);
        if is_digit(s[i]) {
            lemma_digit_run_end(s, i);
        }
    }
}

/// The fields of one note object, starting at the (whitespace-skipped)
/// position of the first key; ends after the closing brace. The opening
/// brace and the empty-object case are handled by `parse_obj`.
pub open spec fn parse_fields(s: Seq<char>, i: int) -> Option<(Seq<(Seq<char>, JsonV)>, int)>
    decreases s.len() - i,
    when 0 <= i
    via parse_fields_decreases
{
    if i >= s.len() || s[i] != '"' {
        Option::None
    } else {
        match parse_str_body(s, i + 1) {
            Option::None => Option::None,
            Option::Some((key, ek)) => {
                let ec = skip_ws(s, ek);
                if ec >= s.len() || s[ec] != ':' {
                    Option::None
                } else {
                    let vs = skip_ws(s, ec + 1);
                    match parse_scalar(s, vs) {
                        Option::None => Option::None,
                        Option::Some((v, ev)) => {
                            let en = skip_ws(s, ev);
                            if en < s.len() && s[en] == ',' {
                                match parse_fields(s, skip_ws(s, en + 1)) {
                                    Option::Some((rest, e)) => Option::Some(
                                        (seq![(key, v)] + rest, e),
                                    ),
                                    Option::None => Option::None,
                                }
                            } else if en < s.len() && s[en] == '}' {
                                Option::Some((seq![(key, v)], en + 1))
                            } else {
                                Option::None
                            }
                        },
                    }
                }
            },
        }
    }
}

#[via_fn]
proof fn parse_fields_decreases(s: Seq<char>, i: int) {
    if 0 <= i && i < s.len() && s[i] == '"' {
        lemma_parse_str_body_progress(s, i + 1);
        match parse_str_body(s, i + 1) {
            Option::None => {},
            Option::Some((key, ek)) => {
                lemma_skip_ws(s, ek);
                let ec = skip_ws(s, ek);
                if ec < s.len() && s[ec] == ':' {
                    lemma_skip_ws(s, ec + 1);
                    let vs = skip_ws(s, ec + 1);
                    lemma_parse_scalar_progress(s, vs);
                    match parse_scalar(s, vs) {
                        Option::None => {},
                        Option::Some((v, ev)) => {
                            lemma_skip_ws(s, ev);
                            let en = skip_ws(s, ev);
                            if en < s.len() && s[en] == ',' {
                                lemma_skip_ws(s, en + 1);
                            }
                        },
                    }
                }
            },
        }
    }
}

/// One note object, brace to brace.
pub open spec fn parse_obj(s: Seq<char>, i: int) -> Option<(JsonV, int)> {
    if i < 0 || i >= s.len() || s[i] != '{' {
        Option::None
    } else {
        let k = skip_ws(s, i + 1);
        if k < s.len() && s[k] == '}' {
            Option::Some((JsonV::Obj(Seq::empty()), k + 1))
        } else {
            match parse_fields(s, k) {
                Option::Some((fs, e)) => Option::Some((JsonV::Obj(fs), e)),
                Option::None => Option::None,
            }
        }
    }
}

pub proof fn lemma_parse_fields_progress(s: Seq<char>, i: int)
    requires
        0 <= i,
    ensures
        match parse_fields(s, i) {
            Option::Some((fs, e)) => i < e <= s.len(),
            Option::None => true,
        },
    decreases s.len() - i,
{
    if i < s.len() && s[i] == '"' {
        lemma_parse_str_body_progress(s, i + 1);
        match parse_str_body(s, i + 1) {
            Option::None => {},
            Option::Some((key, ek)) => {
                lemma_skip_ws(s, ek);
                let ec = skip_ws(s, ek);
                if ec < s.len() && s[ec] == ':' {
                    lemma_skip_ws(s, ec + 1);
                    let vs = skip_ws(s, ec + 1);
                    lemma_parse_scalar_progress(s, vs);
                    match parse_scalar(s, vs) {
                        Option::None => {},
                        Option::Some((v, ev)) => {
                            lemma_skip_ws(s, ev);
                            let en = skip_ws(s, ev);
                            if en < s.len() && s[en] == ',' {
                                lemma_skip_ws(s, en + 1);
                                lemma_parse_fields_progress(s, skip_ws(s, en + 1));
                            }
                        },
                    }
                }
            },
        }
    }
}

pub proof fn lemma_parse_obj_progress(s: Seq<char>, i: int)
    requires
        0 <= i,
    ensures
        match parse_obj(s, i) {
            Option::Some((v, e)) => i < e <= s.len(),
            Option::None => true,
        },
{
    if 0 <= i < s.len() && s[i] == '{' {
        lemma_skip_ws(s, i + 1);
        lemma_parse_fields_progress(s, skip_ws(s, i + 1));
    }
}

/// The note objects of the document's array, starting at the
/// (whitespace-skipped) position of the first object; ends after the
/// closing bracket. The opening bracket and the empty-array case are
/// handled by `parse_doc`.
pub open spec fn parse_objs(s: Seq<char>, i: int) -> Option<(Seq<JsonV>, int)>
    decreases s.len() - i,
    when 0 <= i
    via parse_objs_decreases
{
    match parse_obj(s, i) {
        Option::None => Option::None,
        Option::Some((v, ev)) => {
            let en = skip_ws(s, ev);
            if en < s.len() && s[en] == ',' {
                match parse_objs(s, skip_ws(s, en + 1)) {
                    Option::Some((rest, e)) => Option::Some((seq![v] + rest, e)),
                    Option::None => Option::None,
                }
            } else if en < s.len() && s[en] == ']' {
                Option::Some((seq![v], en + 1))
            } else {
                Option::None
            }
        },
    }
}

#[via_fn]
proof fn parse_objs_decreases(s: Seq<char>, i: int) {
    if 0 <= i {
        lemma_parse_obj_progress(s, i);
        match parse_obj(s, i) {
            Option::None => {},
            Option::Some((v, ev)) => {
                lemma_skip_ws(s, ev);
                let en = skip_ws(s, ev);
                if en < s.len() && s[en] == ',' {
                    lemma_skip_ws(s, en + 1);
                }
            },
        }
    }
}

pub proof fn lemma_parse_objs_progress(s: Seq<char>, i: int)
    requires
        0 <= i,
    ensures
        match parse_objs(s, i) {
            Option::Some((os, e)) => i < e <= s.len(),
            Option::None => true,
        },
    decreases s.len() - i,
{
    lemma_parse_obj_progress(s, i);
    match parse_obj(s, i) {
        Option::None => {},
        Option::Some((v, ev)) => {
            lemma_skip_ws(s, ev);
            let en = skip_ws(s, ev);
            if en < s.len() && s[en] == ',' {
                lemma_skip_ws(s, en + 1);
                lemma_parse_objs_progress(s, skip_ws(s, en + 1));
            }
        },
    }
}

/// The whole persisted document: one array of note objects, with nothing
/// but whitespace around it.
pub open spec fn parse_doc(s: Seq<char>) -> Option<JsonV> {
    let i = skip_ws(s, 0);
    if i >= s.len() || s[i] != '[' {
        Option::None
    } else {
        let k = skip_ws(s, i + 1);
        if k < s.len() && s[k] == ']' {
            if skip_ws(s, k + 1) == s.len() {
                Option::Some(JsonV::Arr(Seq::empty()))
            } else {
                Option::None
            }
        } else {
            match parse_objs(s, k) {
                Option::Some((els, e)) => if skip_ws(s, e) == s.len() {
                    Option::Some(JsonV::Arr(els))
                } else {
                    Option::None
                },
                Option::None => Option::None,
            }
        }
    }
}

/// Two characters with the same code point are the same character.
proof fn lemma_char_by_code(a: char, b: char)
    requires
        a as u32 == b as u32,
    ensures
        a == b,
{
}

/// A digit run's value only grows as the run extends.
pub proof fn lemma_digits_val_mono(s: Seq<char>, i: int, j: int, k: int)
    requires
        0 <= i <= j <= k <= s.len(),
        forall|m: int| i <= m < k ==> is_digit(#[trigger] s[m]),
    ensures
        digits_val(s.subrange(i, k)) >= digits_val(s.subrange(i, j)),
    decreases k - j,
{
    if j < k {
        lemma_digits_val_mono(s, i, j, k - 1);
        assert(s.subrange(i, k).drop_last() =~= s.subrange(i, k - 1));
        assert(s.subrange(i, k).last() == s[k - 1]);
        assert(forall|m: int|
            0 <= m < s.subrange(i, k - 1).len() ==> is_digit(#[trigger] s.subrange(i, k - 1)[m]));
        lemma_digits_val_bounds(s.subrange(i, k - 1));
    }
}

fn skip_ws_x(s: &str, i: usize) -> (r: usize)
    requires
        i <= s@.len(),
    ensures
        r as int == skip_ws(s@, i as int),
        i <= r <= s@.len(),
{
    let n = s.unicode_len();
    let mut e = i;
    while e < n
        invariant_except_break
            n == s@.len(),
            i <= e <= n,
            skip_ws(s@, i as int) == skip_ws(s@, e as int),
        ensures
            i <= e <= n,
            skip_ws(s@, i as int) == e as int,
        decreases n - e,
    {
        let c = s.get_char(e);
        if !(c == ' ' || c == '\n' || c == '\t' || c == '\r') {
            break;
        }
        e = e + 1;
    }
    e
}

fn parse_number_x(s: &str, i: usize) -> (r: Option<(u64, usize)>)
    requires
        i <= s@.len(),
    ensures
        match r {
            Option::Some(ve) => parse_number(s@, i as int) == Option::Some(
                (JsonV::UInt(ve.0), ve.1 as int),
            ),
            Option::None => parse_number(s@, i as int) is None,
        },
{
    let n = s.unicode_len();
    let mut e = i;
    while e < n
        invariant_except_break
            n == s@.len(),
            i <= e <= n,
            digit_run_end(s@, i as int) == digit_run_end(s@, e as int),
        ensures
            i <= e <= n,
            digit_run_end(s@, i as int) == e as int,
        decreases n - e,
    {
        let u = s.get_char(e) as u32;
        if !(48 <= u && u <= 57) {
            break;
        }
        e = e + 1;
    }
    if e == i {
        return Option::None;
    }
    proof {
        lemma_digit_run_end(s@, i as int);
    }
    let mut acc: u64 = 0;
    let mut k = i;
    while k < e
        invariant
            n == s@.len(),
            i <= k <= e,
            e <= n,
            i < e,
            digit_run_end(s@, i as int) == e as int,
            forall|m: int| i <= m < e ==> is_digit(#[trigger] s@[m]),
            acc as int == digits_val(s@.subrange(i as int, k as int)),
        decreases e - k,
    {
        let u = s.get_char(k) as u32;
        let d = (u - 48) as u64;
        proof {
            assert(s@.subrange(i as int, k + 1).drop_last() =~= s@.subrange(i as int, k as int));
            assert(s@.subrange(i as int, k + 1).last() == s@[k as int]);
        }
        if acc > (u64::MAX - d) / 10 {
            proof {
                assert(10 * ((u64::MAX - d) / 10) <= u64::MAX - d) by (nonlinear_arith)
                    requires
                        d <= 9,
                ;
                assert(acc as int * 10 + d > u64::MAX) by (nonlinear_arith)
                    requires
                        acc > (u64::MAX - d) / 10,
                        10 * ((u64::MAX - d) / 10) + 10 > u64::MAX - d,
                        d <= 9,
                ;
                assert(digits_val(s@.subrange(i as int, k + 1)) > u64::MAX);
                lemma_digits_val_mono(s@, i as int, k + 1, e as int);
            }
            return Option::None;
        }
        proof {
            assert(acc * 10 + d <= u64::MAX) by (nonlinear_arith)
                requires
                    acc <= (u64::MAX - d) / 10,
                    10 * ((u64::MAX - d) / 10) <= u64::MAX - d,
            ;
            assert(10 * ((u64::MAX - d) / 10) <= u64::MAX - d) by (nonlinear_arith)
                requires
                    d <= 9,
            ;
        }
        acc = acc * 10 + d;
        k = k + 1;
    }
    Option::Some((acc, e))
}

fn hex_digit_val(c: char) -> (r: Option<u32>)
    ensures
        match r {
            Option::Some(v) => hex_val(c) == v as int && v < 16,
            Option::None => hex_val(c) == -1,
        },
{
    let u = c as u32;
    if 48 <= u && u <= 57 {
        Option::Some(u - 48)
    } else if 97 <= u && u <= 102 {
        Option::Some(u - 87)
    } else if 65 <= u && u <= 70 {
        Option::Some(u - 55)
    } else {
        Option::None
    }
}

fn control_char(v: u32) -> (r: char)
    requires
        v < 32,
    ensures
        r == ctrl_char(v as int),
{
    if v == 0 { '\u{0000}' }
    else if v == 1 { '\u{0001}' }
    else if v == 2 { '\u{0002}' }
    else if v == 3 { '\u{0003}' }
    else if v == 4 { '\u{0004}' }
    else if v == 5 { '\u{0005}' }
    else if v == 6 { '\u{0006}' }
    else if v == 7 { '\u{0007}' }
    else if v == 8 { '\u{0008}' }
    else if v == 9 { '\u{0009}' }
    else if v == 10 { '\u{000a}' }
    else if v == 11 { '\u{000b}' }
    else if v == 12 { '\u{000c}' }
    else if v == 13 { '\u{000d}' }
    else if v == 14 { '\u{000e}' }
    else if v == 15 { '\u{000f}' }
    else if v == 16 { '\u{0010}' }
    else if v == 17 { '\u{0011}' }
    else if v == 18 { '\u{0012}' }
    else if v == 19 { '\u{0013}' }
    else if v == 20 { '\u{0014}' }
    else if v == 21 { '\u{0015}' }
    else if v == 22 { '\u{0016}' }
    else if v == 23 { '\u{0017}' }
    else if v == 24 { '\u{0018}' }
    else if v == 25 { '\u{0019}' }
    else if v == 26 { '\u{001a}' }
    else if v == 27 { '\u{001b}' }
    else if v == 28 { '\u{001c}' }
    else if v == 29 { '\u{001d}' }
    else if v == 30 { '\u{001e}' }
    else { '\u{001f}' }
}

fn parse_str_body_x(s: &str, i: usize) -> (r: Option<(String, usize)>)
    requires
        i <= s@.len(),
    ensures
        match r {
            Option::Some(te) => parse_str_body(s@, i as int) == Option::Some(
                (te.0@, te.1 as int),
            ),
            Option::None => parse_str_body(s@, i as int) is None,
        },
{
    let n = s.unicode_len();
    let mut out = String::new();
    let mut k = i;
    loop
        invariant
            n == s@.len(),
            i <= k <= n,
            match parse_str_body(s@, k as int) {
                Option::Some(te) => parse_str_body(s@, i as int) == Option::Some(
                    (out@ + te.0, te.1),
                ),
                Option::None => parse_str_body(s@, i as int) is None,
            },
        decreases n - k,
    {
        if k >= n {
            return Option::None;
        }
        let c = s.get_char(k);
        if c == '"' {
            proof {
                assert(out@ + Seq::<char>::empty() =~= out@);
            }
            return Option::Some((out, k + 1));
        }
        if c == '\\' {
            if k + 1 >= n {
                return Option::None;
            }
            let e = s.get_char(k + 1);
            if e == 'u' {
                if n - k < 6 {
                    return Option::None;
                }
                let h0 = hex_digit_val(s.get_char(k + 2));
                let h1 = hex_digit_val(s.get_char(k + 3));
                let h2 = hex_digit_val(s.get_char(k + 4));
                let h3 = hex_digit_val(s.get_char(k + 5));
                match (h0, h1, h2, h3) {
                    (
                        Option::Some(a),
                        Option::Some(b),
                        Option::Some(cc),
                        Option::Some(dd),
                    ) => {
                        let v = a * 4096 + b * 256 + cc * 16 + dd;
                        if v < 32 {
                            let ghost before = out@;
                            push_char(&mut out, control_char(v));
                            proof {
                                match parse_str_body(s@, k + 6) {
                                    Option::Some(te) => {
                                        assert(before + (seq![ctrl_char(v as int)] + te.0)
                                            =~= out@ + te.0);
                                    },
                                    Option::None => {},
                                }
                            }
                            k = k + 6;
                        } else {
                            return Option::None;
                        }
                    },
                    _ => {
                        return Option::None;
                    },
                }
            } else {
                let decoded: Option<char> = if e == '"' {
                    Option::Some('"')
                } else if e == '\\' {
                    Option::Some('\\')
                } else if e == '/' {
                    Option::Some('/')
                } else if e == 'n' {
                    Option::Some('\n')
                } else if e == 't' {
                    Option::Some('\t')
                } else if e == 'r' {
                    Option::Some('\r')
                } else if e == 'b' {
                    Option::Some('\u{0008}')
                } else if e == 'f' {
                    Option::Some('\u{000c}')
                } else {
                    Option::None
                };
                match decoded {
                    Option::Some(d) => {
                        let ghost before = out@;
                        push_char(&mut out, d);
                        proof {
                            match parse_str_body(s@, k + 2) {
                                Option::Some(te) => {
                                    assert(before + (seq![d] + te.0) =~= out@ + te.0);
                                },
                                Option::None => {},
                            }
                        }
                        k = k + 2;
                    },
                    Option::None => {
                        return Option::None;
                    },
                }
            }
        } else if (c as u32) < 32 {
            return Option::None;
        } else {
            let ghost before = out@;
            push_char(&mut out, c);
            proof {
                match parse_str_body(s@, k + 1) {
                    Option::Some(te) => {
                        assert(before + (seq![c] + te.0) =~= out@ + te.0);
                    },
                    Option::None => {},
                }
            }
            k = k + 1;
        }
    }
}

fn parse_scalar_x(s: &str, i: usize) -> (r: Option<(Json, usize)>)
    requires
        i <= s@.len(),
    ensures
        match r {
            Option::Some(je) => parse_scalar(s@, i as int) == Option::Some((je.0@, je.1 as int)),
            Option::None => parse_scalar(s@, i as int) is None,
        },
{
    let n = s.unicode_len();
    if i >= n {
        return Option::None;
    }
    let c = s.get_char(i);
    if c == '"' {
        match parse_str_body_x(s, i + 1) {
            Option::Some((t, e)) => Option::Some((Json::Str(t), e)),
            Option::None => Option::None,
        }
    } else if {
        let u = c as u32;
        48 <= u && u <= 57
    } {
        match parse_number_x(s, i) {
            Option::Some((v, e)) => Option::Some((Json::UInt(v), e)),
            Option::None => Option::None,
        }
    } else if n - i >= 4 && c == 'n' && s.get_char(i + 1) == 'u' && s.get_char(i + 2) == 'l'
        && s.get_char(i + 3) == 'l' {
        Option::Some((Json::Null, i + 4))
    } else if n - i >= 4 && c == 't' && s.get_char(i + 1) == 'r' && s.get_char(i + 2) == 'u'
        && s.get_char(i + 3) == 'e' {
        Option::Some((Json::Bool(true), i + 4))
    } else if n - i >= 5 && c == 'f' && s.get_char(i + 1) == 'a' && s.get_char(i + 2) == 'l'
        && s.get_char(i + 3) == 's' && s.get_char(i + 4) == 'e' {
        Option::Some((Json::Bool(false), i + 5))
    } else {
        Option::None
    }
}

fn parse_fields_x(s: &str, i: usize) -> (r: Option<(Vec<(String, Json)>, usize)>)
    requires
        i <= s@.len(),
    ensures
        match r {
            Option::Some(fe) => parse_fields(s@, i as int) == Option::Some(
                (obj_view(fe.0@), fe.1 as int),
            ),
            Option::None => parse_fields(s@, i as int) is None,
        },
{
    let n = s.unicode_len();
    let mut out: Vec<(String, Json)> = Vec::new();
    let mut k = i;
    loop
        invariant
            n == s@.len(),
            i <= k <= n,
            match parse_fields(s@, k as int) {
                Option::Some(fe) => parse_fields(s@, i as int) == Option::Some(
                    (obj_view(out@) + fe.0, fe.1),
                ),
                Option::None => parse_fields(s@, i as int) is None,
            },
        decreases n - k,
    {
        if k >= n {
            return Option::None;
        }
        if s.get_char(k) != '"' {
            return Option::None;
        }
        let (key, ek) = match parse_str_body_x(s, k + 1) {
            Option::Some(te) => te,
            Option::None => {
                return Option::None;
            },
        };
        proof {
            lemma_parse_str_body_progress(s@, k + 1);
        }
        let ec = skip_ws_x(s, ek);
        if ec >= n {
            return Option::None;
        }
        if s.get_char(ec) != ':' {
            return Option::None;
        }
        let vs = skip_ws_x(s, ec + 1);
        let (val, ev) = match parse_scalar_x(s, vs) {
            Option::Some(je) => je,
            Option::None => {
                return Option::None;
            },
        };
        proof {
            lemma_parse_scalar_progress(s@, vs as int);
        }
        let en = skip_ws_x(s, ev);
        if en < n && s.get_char(en) == ',' {
            let ghost before = out@;
            let ghost keyv = key@;
            let ghost valv = val@;
            out.push((key, val));
            let next = skip_ws_x(s, en + 1);
            proof {
                assert(obj_view(out@) =~= obj_view(before).push((keyv, valv)));
                match parse_fields(s@, next as int) {
                    Option::Some(fe) => {
                        assert(obj_view(before) + (seq![(keyv, valv)] + fe.0) =~= obj_view(out@)
                            + fe.0);
                    },
                    Option::None => {},
                }
            }
            k = next;
        } else if en < n && s.get_char(en) == '}' {
            let ghost before = out@;
            let ghost keyv = key@;
            let ghost valv = val@;
            out.push((key, val));
            proof {
                assert(obj_view(out@) =~= obj_view(before).push((keyv, valv)));
                assert(obj_view(before) + seq![(keyv, valv)] =~= obj_view(out@));
            }
            return Option::Some((out, en + 1));
        } else {
            return Option::None;
        }
    }
}

fn parse_obj_x(s: &str, i: usize) -> (r: Option<(Json, usize)>)
    requires
        i <= s@.len(),
    ensures
        match r {
            Option::Some(je) => parse_obj(s@, i as int) == Option::Some((je.0@, je.1 as int)),
            Option::None => parse_obj(s@, i as int) is None,
        },
{
    let n = s.unicode_len();
    if i >= n {
        return Option::None;
    }
    if s.get_char(i) != '{' {
        return Option::None;
    }
    let k = skip_ws_x(s, i + 1);
    if k < n && s.get_char(k) == '}' {
        let empty: Vec<(String, Json)> = Vec::new();
        let r = Json::Obj(empty);
        proof {
            let fsv = match &r {
                Json::Obj(v) => obj_view(v@),
                _ => Seq::empty(),
            };
            assert(fsv =~= Seq::<(Seq<char>, JsonV)>::empty());
        }
        Option::Some((r, k + 1))
    } else {
        match parse_fields_x(s, k) {
            Option::Some((fs, e)) => Option::Some((Json::Obj(fs), e)),
            Option::None => Option::None,
        }
    }
}

fn parse_objs_x(s: &str, i: usize) -> (r: Option<(Vec<Json>, usize)>)
    requires
        i <= s@.len(),
    ensures
        match r {
            Option::Some(oe) => parse_objs(s@, i as int) == Option::Some(
                (arr_view(oe.0@), oe.1 as int),
            ),
            Option::None => parse_objs(s@, i as int) is None,
        },
{
    let n = s.unicode_len();
    let mut out: Vec<Json> = Vec::new();
    let mut k = i;
    loop
        invariant
            n == s@.len(),
            i <= k <= n,
            match parse_objs(s@, k as int) {
                Option::Some(oe) => parse_objs(s@, i as int) == Option::Some(
                    (arr_view(out@) + oe.0, oe.1),
                ),
                Option::None => parse_objs(s@, i as int) is None,
            },
        decreases n - k,
    {
        let (obj, ev) = match parse_obj_x(s, k) {
            Option::Some(je) => je,
            Option::None => {
                return Option::None;
            },
        };
        proof {
            lemma_parse_obj_progress(s@, k as int);
        }
        let en = skip_ws_x(s, ev);
        if en < n && s.get_char(en) == ',' {
            let ghost before = out@;
            let ghost objv = obj@;
            out.push(obj);
            let next = skip_ws_x(s, en + 1);
            proof {
                assert(arr_view(out@) =~= arr_view(before).push(objv));
                match parse_objs(s@, next as int) {
                    Option::Some(oe) => {
                        assert(arr_view(before) + (seq![objv] + oe.0) =~= arr_view(out@) + oe.0);
                    },
                    Option::None => {},
                }
            }
            k = next;
        } else if en < n && s.get_char(en) == ']' {
            let ghost before = out@;
            let ghost objv = obj@;
            out.push(obj);
            proof {
                assert(arr_view(out@) =~= arr_view(before).push(objv));
                assert(arr_view(before) + seq![objv] =~= arr_view(out@));
            }
            return Option::Some((out, en + 1));
        } else {
            return Option::None;
        }
    }
}

/// Reads a persisted note document out of its file text: the array of note
/// objects when the text is well-formed, nothing otherwise.
pub fn parse_notes_doc(s: &str) -> (r: Option<Json>)
    ensures
        match r {
            Option::Some(j) => parse_doc(s@) == Option::Some(j@),
            Option::None => parse_doc(s@) is None,
        },
{
    let n = s.unicode_len();
    let i = skip_ws_x(s, 0);
    if i >= n {
        return Option::None;
    }
    if s.get_char(i) != '[' {
        return Option::None;
    }
    let k = skip_ws_x(s, i + 1);
    if k < n && s.get_char(k) == ']' {
        if skip_ws_x(s, k + 1) == n {
            let empty: Vec<Json> = Vec::new();
            let r = Json::Arr(empty);
            proof {
                let av = match &r {
                    Json::Arr(v) => arr_view(v@),
                    _ => Seq::empty(),
                };
                assert(av =~= Seq::<JsonV>::empty());
            }
            Option::Some(r)
        } else {
            Option::None
        }
    } else {
        match parse_objs_x(s, k) {
            Option::Some((els, e)) => {
                proof {
                    lemma_parse_objs_progress(s@, k as int);
                }
                if skip_ws_x(s, e) == n {
                    Option::Some(Json::Arr(els))
                } else {
                    Option::None
                }
            },
            Option::None => Option::None,
        }
    }
}

pub proof fn lemma_escape_concat(a: Seq<char>, b: Seq<char>)
    ensures
        spec_escape(a + b) == spec_escape(a) + spec_escape(b),
    decreases b.len(),
{
    if b.len() == 0 {
        assert(a + b =~= a);
        assert(spec_escape(a) + spec_escape(b) =~= spec_escape(a));
    } else {
        lemma_escape_concat(a, b.drop_last());
        assert((a + b).drop_last() =~= a + b.drop_last());
        assert((a + b).last() == b.last());
        assert(spec_escape(a + b) == (spec_escape(a) + spec_escape(b.drop_last()))
            + spec_escape_char(b.last()));
        assert((spec_escape(a) + spec_escape(b.drop_last())) + spec_escape_char(b.last())
            =~= spec_escape(a) + (spec_escape(b.drop_last()) + spec_escape_char(b.last())));
    }
}

pub proof fn lemma_escape_first(c: char, rest: Seq<char>)
    ensures
        spec_escape(seq![c] + rest) == spec_escape_char(c) + spec_escape(rest),
{
    lemma_escape_concat(seq![c], rest);
    assert(seq![c].drop_last() =~= Seq::<char>::empty());
    assert(seq![c].last() == c);
    assert(spec_escape(seq![c]) == spec_escape(Seq::<char>::empty()) + spec_escape_char(c));
    assert(spec_escape(Seq::<char>::empty()) + spec_escape_char(c) =~= spec_escape_char(c));
}

/// Escaped text reads back as the characters that were escaped: the string
/// scanner, run at the start of an escaped string followed by its closing
/// quote, yields exactly the original characters.
pub proof fn lemma_parse_escape(content: Seq<char>, s: Seq<char>, i: int)
    requires
        0 <= i,
        i + spec_escape(content).len() + 1 <= s.len(),
        s.subrange(i, i + spec_escape(content).len()) == spec_escape(content),
        s[i + spec_escape(content).len()] == '"',
    ensures
        parse_str_body(s, i) == Option::Some((content, i + spec_escape(content).len() + 1)),
    decreases content.len(),
{
    if content.len() == 0 {
        assert(s[i] == '"');
    } else {
        let c0 = content[0];
        let rest = content.drop_first();
        assert(content =~= seq![c0] + rest);
        lemma_escape_first(c0, rest);
        let e0 = spec_escape_char(c0);
        let etail = spec_escape(rest);
        let all = spec_escape(content);
        assert(all == e0 + etail);
        assert(all.len() == e0.len() + etail.len());
        assert forall|m: int| 0 <= m < all.len() implies s[i + m] == all[m] by {
            assert(s.subrange(i, i + all.len())[m] == s[i + m]);
        }
        assert(s[i] == all[0]) by {
            assert(s.subrange(i, i + all.len())[0] == s[i + 0]);
        }
        if all.len() > 1 {
            assert(s[i + 1] == all[1]) by {
                assert(s.subrange(i, i + all.len())[1] == s[i + 1]);
            }
        }
        if all.len() > 5 {
            assert(s[i + 2] == all[2] && s[i + 3] == all[3] && s[i + 4] == all[4] && s[i + 5]
                == all[5]) by {
                assert(s.subrange(i, i + all.len())[2] == s[i + 2]);
                assert(s.subrange(i, i + all.len())[3] == s[i + 3]);
                assert(s.subrange(i, i + all.len())[4] == s[i + 4]);
                assert(s.subrange(i, i + all.len())[5] == s[i + 5]);
            }
        }
        let j = i + e0.len();
        assert(s.subrange(j, j + etail.len()) =~= etail) by {
            assert forall|m: int| 0 <= m < etail.len() implies s.subrange(
                j,
                j + etail.len(),
            )[m] == etail[m] by {
                assert(s[j + m] == all[e0.len() + m]);
                assert(all[e0.len() + m] == etail[m]);
            }
        }
        assert(s[j + etail.len()] == '"');
        lemma_parse_escape(rest, s, j);
        if c0 == '"' {
            assert(s[i] == '\\' && s[i + 1] == '"');
            assert(parse_str_body(s, i) == Option::Some((seq!['"'] + rest, i + all.len() + 1)));
        } else if c0 == '\\' {
            assert(s[i] == '\\' && s[i + 1] == '\\');
            assert(parse_str_body(s, i) == Option::Some((seq!['\\'] + rest, i + all.len() + 1)));
        } else if (c0 as u32) < 32 {
            assert(s[i] == '\\' && s[i + 1] == 'u' && s[i + 2] == '0' && s[i + 3] == '0');
            let hi = c0 as u32 as int / 16;
            let lo = c0 as u32 as int % 16;
            assert(s[i + 4] == spec_hex_digit(hi));
            assert(s[i + 5] == spec_hex_digit(lo));
            assert(hex_val(spec_hex_digit(hi)) == hi);
            assert(hex_val(spec_hex_digit(lo)) == lo);
            let v = hex_val(s[i + 2]) * 4096 + hex_val(s[i + 3]) * 256 + hex_val(s[i + 4]) * 16
                + hex_val(s[i + 5]);
            assert(v == hi * 16 + lo);
            assert(v == c0 as u32);
            assert(0 <= v < 32);
            assert(ctrl_char(v) as u32 == v);
            lemma_char_by_code(ctrl_char(v), c0);
            assert(ctrl_char(v) == c0);
            assert(parse_str_body(s, i) == Option::Some((seq![c0] + rest, i + all.len() + 1)));
        } else {
            assert(e0 == seq![c0]);
            assert(s[i] == c0);
            assert(parse_str_body(s, i) == Option::Some((seq![c0] + rest, i + all.len() + 1)));
        }
    }
}

pub proof fn lemma_u64_str_digits(n: u64)
    ensures
        spec_u64_str(n as int).len() >= 1,
        forall|k: int|
            0 <= k < spec_u64_str(n as int).len() ==> is_digit(
                #[trigger] spec_u64_str(n as int)[k],
            ),
        digits_val(spec_u64_str(n as int)) == n,
    decreases n,
{
    if n < 10 {
        let d = spec_dec_digit(n as int);
        assert(spec_u64_str(n as int) == seq![d]);
        assert(seq![d].drop_last() =~= Seq::<char>::empty());
        assert(digits_val(Seq::<char>::empty()) == 0);
        assert(digits_val(seq![d]) == digit_val(d));
    } else {
        lemma_u64_str_digits(n / 10);
        let s = spec_u64_str(n as int);
        let sp = spec_u64_str(n as int / 10);
        assert(s == sp + seq![spec_dec_digit(n as int % 10)]);
        assert(s.drop_last() =~= sp);
        assert(s.last() == spec_dec_digit(n as int % 10));
        assert forall|k: int| 0 <= k < s.len() implies is_digit(#[trigger] s[k]) by {
            if k < sp.len() {
                assert(s[k] == sp[k]);
            } else {
                assert(s[k] == spec_dec_digit(n as int % 10));
            }
        }
        assert(digits_val(s) == digits_val(sp) * 10 + digit_val(spec_dec_digit(n as int % 10)));
    }
}

pub proof fn lemma_digit_run_exact(s: Seq<char>, i: int, j: int)
    requires
        0 <= i <= j <= s.len(),
        forall|k: int| i <= k < j ==> is_digit(#[trigger] s[k]),
        j == s.len() || !is_digit(s[j]),
    ensures
        digit_run_end(s, i) == j,
    decreases j - i,
{
    if i < j {
        assert(is_digit(s[i]));
        lemma_digit_run_exact(s, i + 1, j);
    }
}

/// Rendered decimal text reads back as the number that was rendered.
pub proof fn lemma_parse_number_render(n: u64, s: Seq<char>, i: int)
    requires
        0 <= i,
        i + spec_u64_str(n as int).len() <= s.len(),
        s.subrange(i, i + spec_u64_str(n as int).len()) == spec_u64_str(n as int),
        i + spec_u64_str(n as int).len() == s.len() || !is_digit(
            s[i + spec_u64_str(n as int).len()],
        ),
    ensures
        parse_number(s, i) == Option::Some((JsonV::UInt(n), i + spec_u64_str(n as int).len())),
{
    lemma_u64_str_digits(n);
    let t = spec_u64_str(n as int);
    let j = i + t.len();
    assert forall|k: int| i <= k < j implies is_digit(#[trigger] s[k]) by {
        assert(s.subrange(i, j)[k - i] == s[k]);
        assert(is_digit(t[k - i]));
    }
    lemma_digit_run_exact(s, i, j);
    assert(digits_val(s.subrange(i, j)) == n);
}

/// The scalars a note object carries: strings and unsigned integers.
pub open spec fn flat_value(v: JsonV) -> bool {
    v is Str || v is UInt
}

/// Rendered scalar text reads back as the scalar that was rendered, as long
/// as a rendered number is not followed by a further digit.
pub proof fn lemma_parse_scalar_render(v: JsonV, s: Seq<char>, i: int)
    requires
        flat_value(v),
        0 <= i,
        i + render_spec(v).len() <= s.len(),
        s.subrange(i, i + render_spec(v).len()) == render_spec(v),
        v is UInt ==> (i + render_spec(v).len() == s.len() || !is_digit(
            s[i + render_spec(v).len()],
        )),
    ensures
        parse_scalar(s, i) == Option::Some((v, i + render_spec(v).len())),
{
    match v {
        JsonV::Str(t) => {
            let q = spec_quote(t);
            let el = spec_escape(t).len() as int;
            assert(q == seq!['"'] + spec_escape(t) + seq!['"']);
            assert(q.len() == el + 2);
            assert forall|m: int| 0 <= m < q.len() implies s[i + m] == q[m] by {
                assert(s.subrange(i, i + q.len())[m] == s[i + m]);
            }
            assert(s[i] == '"') by {
                assert(s.subrange(i, i + q.len())[0] == s[i + 0]);
                assert(q[0] == '"');
            }
            assert(s.subrange(i + 1, i + 1 + el) =~= spec_escape(t)) by {
                assert forall|m: int| 0 <= m < el implies s.subrange(i + 1, i + 1 + el)[m]
                    == spec_escape(t)[m] by {
                    assert(s.subrange(i, i + q.len())[m + 1] == s[i + 1 + m]);
                    assert(q[m + 1] == spec_escape(t)[m]);
                }
            }
            assert(s[i + 1 + el] == '"') by {
                assert(s.subrange(i, i + q.len())[el + 1] == s[i + (el + 1)]);
                assert(q[el + 1] == '"');
            }
            lemma_parse_escape(t, s, i + 1);
        },
        JsonV::UInt(n) => {
            lemma_u64_str_digits(n);
            assert(s[i] == spec_u64_str(n as int)[0]) by {
                assert(s.subrange(i, i + spec_u64_str(n as int).len())[0] == s[i + 0]);
            }
            assert(is_digit(s[i]));
            assert(s[i] != '"');
            lemma_parse_number_render(n, s, i);
        },
        _ => {},
    }
}

/// One character of an embedded piece of text, read off the whole.
proof fn lemma_seq_at(s: Seq<char>, i: int, t: Seq<char>, m: int)
    requires
        0 <= i,
        0 <= m < t.len(),
        i + t.len() <= s.len(),
        s.subrange(i, i + t.len()) == t,
    ensures
        s[i + m] == t[m],
{
    assert(s.subrange(i, i + t.len())[m] == s[i + m]);
}

/// A slice of an embedded piece of text, read off the whole.
proof fn lemma_seq_sub(s: Seq<char>, i: int, t: Seq<char>, a: int, b: int)
    requires
        0 <= i,
        0 <= a <= b <= t.len(),
        i + t.len() <= s.len(),
        s.subrange(i, i + t.len()) == t,
    ensures
        s.subrange(i + a, i + b) == t.subrange(a, b),
{
    assert forall|m: int| 0 <= m < b - a implies s.subrange(i + a, i + b)[m] == t.subrange(
        a,
        b,
    )[m] by {
        assert(s.subrange(i, i + t.len())[a + m] == s[i + (a + m)]);
        assert(s.subrange(i + a, i + b)[m] == s[i + a + m]);
        assert(t.subrange(a, b)[m] == t[a + m]);
    }
    assert(s.subrange(i + a, i + b) =~= t.subrange(a, b));
}

/// Rendered field text reads back as the fields that were rendered,
/// including the closing brace.
pub proof fn lemma_parse_fields_render(fs: Seq<(Seq<char>, JsonV)>, k: int, s: Seq<char>, i: int)
    requires
        0 <= k < fs.len(),
        forall|m: int| 0 <= m < fs.len() ==> flat_value((#[trigger] fs[m]).1),
        0 <= i,
        i + render_fields_from(fs, k).len() < s.len(),
        s.subrange(i, i + render_fields_from(fs, k).len()) == render_fields_from(fs, k),
        s[i + render_fields_from(fs, k).len()] == '}',
    ensures
        parse_fields(s, i) == Option::Some(
            (fs.subrange(k, fs.len() as int), i + render_fields_from(fs, k).len() + 1),
        ),
    decreases fs.len() - k,
{
    let key = fs[k].0;
    let val = fs[k].1;
    let q = spec_quote(key);
    let el = spec_escape(key).len() as int;
    let rv = render_spec(val);
    let all = render_fields_from(fs, k);
    let o1 = q.len() as int;
    let o2 = o1 + 1;
    let o3 = o2 + rv.len();
    assert(q == seq!['"'] + spec_escape(key) + seq!['"']);
    assert(o1 == el + 2);
    let head = q + seq![':'] + rv;
    if k + 1 < fs.len() {
        assert(all == head + seq![','] + render_fields_from(fs, k + 1));
    } else {
        assert(all == head);
    }
    assert(all.len() >= o3);
    // the key, quoted
    assert(all.subrange(0, o1) =~= q);
    assert(q[0] == '"');
    lemma_seq_at(s, i, all, 0);
    assert(s[i] == '"');
    assert(all.subrange(1, 1 + el) =~= spec_escape(key));
    lemma_seq_sub(s, i, all, 1, 1 + el);
    assert(s.subrange(i + 1, i + 1 + el) == spec_escape(key));
    assert(q[1 + el] == '"');
    lemma_seq_at(s, i, all, 1 + el);
    assert(s[i + 1 + el] == '"');
    lemma_parse_escape(key, s, i + 1);
    assert(parse_str_body(s, i + 1) == Option::Some((key, i + o1)));
    // the colon
    assert(all[o1] == ':');
    lemma_seq_at(s, i, all, o1);
    assert(s[i + o1] == ':');
    assert(!is_ws(':'));
    assert(skip_ws(s, i + o1) == i + o1);
    // the value
    assert(all.subrange(o2, o3) =~= rv);
    lemma_seq_sub(s, i, all, o2, o3);
    assert(s.subrange(i + o2, i + o2 + rv.len()) == rv);
    if k + 1 < fs.len() {
        assert(all[o3] == ',');
        lemma_seq_at(s, i, all, o3);
        assert(s[i + o3] == ',');
        assert((',' as u32) == 44);
        assert(!is_digit(','));
    } else {
        assert(o3 == all.len());
        assert(s[i + o3] == '}');
        assert(('}' as u32) == 125);
        assert(!is_digit('}'));
    }
    lemma_parse_scalar_render(val, s, i + o2);
    assert(parse_scalar(s, i + o2) == Option::Some((val, i + o3)));
    // after the value: a comma and the next field, or the closing brace
    assert(!is_ws(',') && !is_ws('}'));
    assert(skip_ws(s, i + o3) == i + o3);
    if k + 1 < fs.len() {
        let rest = render_fields_from(fs, k + 1);
        let q2 = spec_quote(fs[k + 1].0);
        assert(rest.len() > 0 && rest[0] == '"') by {
            assert(q2[0] == '"');
            if k + 2 < fs.len() {
                assert(rest == (q2 + seq![':'] + render_spec(fs[k + 1].1)) + seq![',']
                    + render_fields_from(fs, k + 2));
            } else {
                assert(rest == q2 + seq![':'] + render_spec(fs[k + 1].1));
            }
        }
        assert(all.subrange(o3 + 1, all.len() as int) =~= rest);
        lemma_seq_sub(s, i, all, o3 + 1, all.len() as int);
        lemma_seq_at(s, i, all, o3 + 1);
        assert(s[i + (o3 + 1)] == '"');
        assert(!is_ws('"'));
        assert(skip_ws(s, i + o3 + 1) == i + o3 + 1);
        lemma_parse_fields_render(fs, k + 1, s, i + o3 + 1);
        assert(seq![(key, val)] + fs.subrange(k + 1, fs.len() as int) =~= fs.subrange(
            k,
            fs.len() as int,
        ));
    } else {
        assert(seq![(key, val)] =~= fs.subrange(k, fs.len() as int));
    }
}

/// A note-file object: at least one field, all of them scalar.
pub open spec fn flat_obj(j: JsonV) -> bool {
    match j {
        JsonV::Obj(fs) => fs.len() > 0 && forall|m: int|
            0 <= m < fs.len() ==> flat_value((#[trigger] fs[m]).1),
        _ => false,
    }
}

/// Rendered object text reads back as the object that was rendered.
pub proof fn lemma_parse_obj_render(j: JsonV, s: Seq<char>, i: int)
    requires
        flat_obj(j),
        0 <= i,
        i + render_spec(j).len() <= s.len(),
        s.subrange(i, i + render_spec(j).len()) == render_spec(j),
    ensures
        parse_obj(s, i) == Option::Some((j, i + render_spec(j).len())),
{
    match j {
        JsonV::Obj(fs) => {
            let all = render_spec(j);
            let ftext = render_fields_from(fs, 0);
            assert(all == seq!['{'] + ftext + seq!['}']);
            assert(all.len() == ftext.len() + 2);
            assert(all[0] == '{');
            lemma_seq_at(s, i, all, 0);
            assert(s[i] == '{');
            let q0 = spec_quote(fs[0].0);
            assert(ftext.len() > 0 && ftext[0] == '"') by {
                assert(q0[0] == '"');
                if 1 < fs.len() {
                    assert(ftext == (q0 + seq![':'] + render_spec(fs[0].1)) + seq![',']
                        + render_fields_from(fs, 1));
                } else {
                    assert(ftext == q0 + seq![':'] + render_spec(fs[0].1));
                }
            }
            assert(all[1] == '"');
            lemma_seq_at(s, i, all, 1);
            assert(s[i + 1] == '"');
            assert(!is_ws('"'));
            assert(skip_ws(s, i + 1) == i + 1);
            assert(s[i + 1] != '}');
            assert(all.subrange(1, 1 + ftext.len() as int) =~= ftext);
            lemma_seq_sub(s, i, all, 1, 1 + ftext.len() as int);
            assert(all[1 + ftext.len() as int] == '}');
            lemma_seq_at(s, i, all, 1 + ftext.len() as int);
            assert(s[i + 1 + ftext.len()] == '}');
            lemma_parse_fields_render(fs, 0, s, i + 1);
            assert(fs.subrange(0, fs.len() as int) =~= fs);
        },
        _ => {},
    }
}

/// Rendered object-list text reads back as the objects that were rendered,
/// including the closing bracket.
pub proof fn lemma_parse_objs_render(els: Seq<JsonV>, k: int, s: Seq<char>, i: int)
    requires
        0 <= k < els.len(),
        forall|m: int| 0 <= m < els.len() ==> flat_obj(#[trigger] els[m]),
        0 <= i,
        i + render_items_from(els, k).len() < s.len(),
        s.subrange(i, i + render_items_from(els, k).len()) == render_items_from(els, k),
        s[i + render_items_from(els, k).len()] == ']',
    ensures
        parse_objs(s, i) == Option::Some(
            (els.subrange(k, els.len() as int), i + render_items_from(els, k).len() + 1),
        ),
    decreases els.len() - k,
{
    let all = render_items_from(els, k);
    let rj = render_spec(els[k]);
    if k + 1 < els.len() {
        assert(all == rj + seq![','] + render_items_from(els, k + 1));
    } else {
        assert(all == rj);
    }
    assert(all.subrange(0, rj.len() as int) =~= rj);
    lemma_seq_sub(s, i, all, 0, rj.len() as int);
    lemma_parse_obj_render(els[k], s, i);
    let ev = i + rj.len();
    if k + 1 < els.len() {
        let rest = render_items_from(els, k + 1);
        assert(all[rj.len() as int] == ',');
        lemma_seq_at(s, i, all, rj.len() as int);
        assert(s[ev] == ',');
        assert(!is_ws(','));
        assert(skip_ws(s, ev) == ev);
        assert(rest.len() > 0 && rest[0] == '{') by {
            let rn = render_spec(els[k + 1]);
            match els[k + 1] {
                JsonV::Obj(fs2) => {
                    assert(rn == seq!['{'] + render_fields_from(fs2, 0) + seq!['}']);
                    assert(rn[0] == '{');
                },
                _ => {},
            }
            if k + 2 < els.len() {
                assert(rest == rn + seq![','] + render_items_from(els, k + 2));
            } else {
                assert(rest == rn);
            }
        }
        assert(all.subrange(rj.len() as int + 1, all.len() as int) =~= rest);
        lemma_seq_sub(s, i, all, rj.len() as int + 1, all.len() as int);
        lemma_seq_at(s, i, all, rj.len() as int + 1);
        assert(s[i + (rj.len() as int + 1)] == '{');
        assert(!is_ws('{'));
        assert(skip_ws(s, ev + 1) == ev + 1);
        lemma_parse_objs_render(els, k + 1, s, ev + 1);
        assert(seq![els[k]] + els.subrange(k + 1, els.len() as int) =~= els.subrange(
            k,
            els.len() as int,
        ));
    } else {
        assert(s[ev] == ']');
        assert(!is_ws(']'));
        assert(skip_ws(s, ev) == ev);
        assert(seq![els[k]] =~= els.subrange(k, els.len() as int));
    }
}

} // verus!
