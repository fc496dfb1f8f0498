use vstd::prelude::*;
use vstd::string::StrSliceExecFns;
use vstd::string::StringExecFns;

verus! {

/// The crate's own image of a JSON value.
///
/// RPC parameters, RPC results and the persisted note file all move through
/// this type; the host process converts between it and the wire or file
/// representation. Unsigned integers, the only numbers the crate itself
/// produces, have a variant of their own; any other number that arrives from
/// outside is carried through in its textual form in `Num`.
pub enum Json {
    Null,
    Bool(bool),
    UInt(u64),
    Num(String),
    Str(String),
    Arr(Vec<Json>),
    Obj(Vec<(String, Json)>),
}

/// Mathematical image of a `Json` tree.
pub enum JsonV {
    Null,
    Bool(bool),
    UInt(u64),
    Num(Seq<char>),
    Str(Seq<char>),
    Arr(Seq<JsonV>),
    Obj(Seq<(Seq<char>, JsonV)>),
}

pub open spec fn arr_view(s: Seq<Json>) -> Seq<JsonV>
    decreases s,
{
    Seq::new(
        s.len(),
        |i: int|
            if 0 <= i < s.len() {
                json_view(s[i])
            } else {
                JsonV::Null
            },
    )
}

pub open spec fn obj_view(s: Seq<(String, Json)>) -> Seq<(Seq<char>, JsonV)>
    decreases s,
{
    Seq::new(
        s.len(),
        |i: int|
            if 0 <= i < s.len() {
                (s[i].0@, json_view(s[i].1))
            } else {
                (Seq::empty(), JsonV::Null)
            },
    )
}

pub open spec fn json_view(j: Json) -> JsonV
    decreases j,
{
    match j {
        Json::Null => JsonV::Null,
        Json::Bool(b) => JsonV::Bool(b),
        Json::UInt(n) => JsonV::UInt(n),
        Json::Num(s) => JsonV::Num(s@),
        Json::Str(s) => JsonV::Str(s@),
        Json::Arr(v) => JsonV::Arr(arr_view(v@)),
        Json::Obj(v) => JsonV::Obj(obj_view(v@)),
    }
}

impl View for Json {
    type V = JsonV;

    open spec fn view(&self) -> JsonV {
        json_view(*self)
    }
}

/// First binding of `key` in an object's field list, if any.
pub open spec fn spec_obj_get(fs: Seq<(Seq<char>, JsonV)>, key: Seq<char>) -> Option<JsonV>
    decreases fs.len(),
{
    if fs.len() == 0 {
        Option::None
    } else if fs.first().0 == key {
        Option::Some(fs.first().1)
    } else {
        spec_obj_get(fs.drop_first(), key)
    }
}

/// Characters are compared one by one; two strings are equal exactly when
/// their character sequences are.
pub fn str_eq(a: &str, b: &str) -> (r: bool)
    ensures
        r == (a@ == b@),
{
    let alen = a.unicode_len();
    let blen = b.unicode_len();
    if alen != blen {
        return false;
    }
    let mut i: usize = 0;
    while i < alen
        invariant
            alen == a@.len(),
            blen == b@.len(),
            alen == blen,
            i <= alen,
            forall|k: int| 0 <= k < i ==> a@[k] == b@[k],
        decreases alen - i,
    {
        if a.get_char(i) != b.get_char(i) {
            return false;
        }
        i = i + 1;
    }
    proof {
        assert(a@ =~= b@);
    }
    true
}

/// Looks `key` up in an object's field list, front to back.
pub fn obj_get<'a>(fs: &'a Vec<(String, Json)>, key: &str) -> (r: Option<&'a Json>)
    ensures
        match r {
            Option::Some(j) => spec_obj_get(obj_view(fs@), key@) == Option::Some(j@),
            Option::None => spec_obj_get(obj_view(fs@), key@) is None,
        },
{
    let ghost all = obj_view(fs@);
    proof {
        assert(all.skip(0) =~= all);
    }
    let n = fs.len();
    let mut i: usize = 0;
    while i < n
        invariant
            n == fs@.len(),
            all == obj_view(fs@),
            all.len() == n,
            i <= n,
            spec_obj_get(all, key@) == spec_obj_get(all.skip(i as int), key@),
        decreases n - i,
    {
        proof {
            assert(all.skip(i as int).first() == all[i as int]);
            assert(all.skip(i as int).drop_first() =~= all.skip(i + 1));
        }
        if str_eq(fs[i].0.as_str(), key) {
            return Option::Some(&fs[i].1);
        }
        i = i + 1;
    }
    proof {
        assert(all.skip(n as int) =~= Seq::<(Seq<char>, JsonV)>::empty());
    }
    Option::None
}

/// Relies on String::push: appends one character.
#[verifier::external_body]
pub(crate) fn push_char(out: &mut String, c: char)
    ensures
        final(out)@ == old(out)@.push(c),
{
    out.push(c);
}

/// The sixteen lowercase hexadecimal digit characters.
pub open spec fn spec_hex_digit(d: int) -> char {
    if d == 0 { '0' }
    else if d == 1 { '1' }
    else if d == 2 { '2' }
    else if d == 3 { '3' }
    else if d == 4 { '4' }
    else if d == 5 { '5' }
    else if d == 6 { '6' }
    else if d == 7 { '7' }
    else if d == 8 { '8' }
    else if d == 9 { '9' }
    else if d == 10 { 'a' }
    else if d == 11 { 'b' }
    else if d == 12 { 'c' }
    else if d == 13 { 'd' }
    else if d == 14 { 'e' }
    else if d == 15 { 'f' }
    else { '?' }
}

fn hex_digit(d: u32) -> (r: char)
    requires
        d < 16,
    ensures
        r == spec_hex_digit(d as int),
{
    if d == 0 { '0' }
    else if d == 1 { '1' }
    else if d == 2 { '2' }
    else if d == 3 { '3' }
    else if d == 4 { '4' }
    else if d == 5 { '5' }
    else if d == 6 { '6' }
    else if d == 7 { '7' }
    else if d == 8 { '8' }
    else if d == 9 { '9' }
    else if d == 10 { 'a' }
    else if d == 11 { 'b' }
    else if d == 12 { 'c' }
    else if d == 13 { 'd' }
    else if d == 14 { 'e' }
    else { 'f' }
}

/// JSON escape of a single character: quote and backslash get a backslash,
/// control characters become a `\u00..` escape, everything else stands as
/// itself.
pub open spec fn spec_escape_char(c: char) -> Seq<char> {
    if c == '"' {
        seq!['\\', '"']
    } else if c == '\\' {
        seq!['\\', '\\']
    } else if (c as u32) < 32 {
        seq!['\\', 'u', '0', '0', spec_hex_digit(c as u32 as int / 16), spec_hex_digit(c as u32 as int % 16)]
    } else {
        seq![c]
    }
}

pub open spec fn spec_escape(s: Seq<char>) -> Seq<char>
    decreases s.len(),
{
    if s.len() == 0 {
        Seq::empty()
    } else {
        spec_escape(s.drop_last()) + spec_escape_char(s.last())
    }
}

/// A JSON string literal: the escaped characters between double quotes.
pub open spec fn spec_quote(s: Seq<char>) -> Seq<char> {
    seq!['"'] + spec_escape(s) + seq!['"']
}

fn escape_char_into(out: &mut String, c: char)
    ensures
        final(out)@ == old(out)@ + spec_escape_char(c),
{
    if c == '"' {
        push_char(out, '\\');
        push_char(out, '"');
    } else if c == '\\' {
        push_char(out, '\\');
        push_char(out, '\\');
    } else if (c as u32) < 32 {
        push_char(out, '\\');
        push_char(out, 'u');
        push_char(out, '0');
        push_char(out, '0');
        push_char(out, hex_digit((c as u32) / 16));
        push_char(out, hex_digit((c as u32) % 16));
    } else {
        push_char(out, c);
    }
    proof {
        assert(final(out)@ =~= old(out)@ + spec_escape_char(c));
    }
}

fn quote_into(out: &mut String, s: &str)
    ensures
        final(out)@ == old(out)@ + spec_quote(s@),
{
    push_char(out, '"');
    let n = s.unicode_len();
    let mut i: usize = 0;
    while i < n
        invariant
            n == s@.len(),
            i <= n,
            out@ == old(out)@ + seq!['"'] + spec_escape(s@.take(i as int)),
        decreases n - i,
    {
        let c = s.get_char(i);
        proof {
            assert(s@.take(i + 1).drop_last() =~= s@.take(i as int));
            assert(s@.take(i + 1).last() == s@[i as int]);
        }
        escape_char_into(out, c);
        i = i + 1;
    }
    proof {
        assert(s@.take(n as int) =~= s@);
    }
    push_char(out, '"');
    proof {
        assert(final(out)@ =~= old(out)@ + spec_quote(s@));
    }
}

/// The ten decimal digit characters.
pub open spec fn spec_dec_digit(d: int) -> char {
    if d == 0 { '0' }
    else if d == 1 { '1' }
    else if d == 2 { '2' }
    else if d == 3 { '3' }
    else if d == 4 { '4' }
    else if d == 5 { '5' }
    else if d == 6 { '6' }
    else if d == 7 { '7' }
    else if d == 8 { '8' }
    else { '9' }
}

/// Decimal rendering of a nonnegative integer, most significant digit first,
/// with no leading zeros (zero itself is the single digit `0`).
pub open spec fn spec_u64_str(n: int) -> Seq<char>
    decreases n,
{
    if n < 10 {
        seq![spec_dec_digit(n)]
    } else {
        spec_u64_str(n / 10) + seq![spec_dec_digit(n % 10)]
    }
}

fn dec_digit(d: u64) -> (r: char)
    requires
        d < 10,
    ensures
        r == spec_dec_digit(d as int),
{
    if d == 0 { '0' }
    else if d == 1 { '1' }
    else if d == 2 { '2' }
    else if d == 3 { '3' }
    else if d == 4 { '4' }
    else if d == 5 { '5' }
    else if d == 6 { '6' }
    else if d == 7 { '7' }
    else if d == 8 { '8' }
    else { '9' }
}

fn push_u64(out: &mut String, n: u64)
    ensures
        final(out)@ == old(out)@ + spec_u64_str(n as int),
    decreases n,
{
    if n < 10 {
        push_char(out, dec_digit(n));
        proof {
            assert(final(out)@ =~= old(out)@ + spec_u64_str(n as int));
        }
    } else {
        push_u64(out, n / 10);
        push_char(out, dec_digit(n % 10));
        proof {
            assert(final(out)@ =~= old(out)@ + spec_u64_str(n as int));
        }
    }
}

/// Compact textual rendering of a JSON value: no added whitespace, object
/// fields and array items in their stored order, strings escaped as in
/// `spec_escape_char`.
pub open spec fn render_spec(j: JsonV) -> Seq<char>
    decreases j, 0int,
{
    match j {
        JsonV::Null => seq!['n', 'u', 'l', 'l'],
        JsonV::Bool(b) => if b {
            seq!['t', 'r', 'u', 'e']
        } else {
            seq!['f', 'a', 'l', 's', 'e']
        },
        JsonV::UInt(n) => spec_u64_str(n as int),
        JsonV::Num(s) => s,
        JsonV::Str(s) => spec_quote(s),
        JsonV::Arr(els) => seq!['['] + render_items_from(els, 0) + seq![']'],
        JsonV::Obj(fs) => seq!['{'] + render_fields_from(fs, 0) + seq!['}'],
    }
}

pub open spec fn render_items_from(els: Seq<JsonV>, i: int) -> Seq<char>
    decreases els, els.len() - i,
{
    if i < 0 || i >= els.len() {
        Seq::empty()
    } else {
        let head = render_spec(els[i]);
        if i + 1 < els.len() {
            head + seq![','] + render_items_from(els, i + 1)
        } else {
            head
        }
    }
}

pub open spec fn render_fields_from(fs: Seq<(Seq<char>, JsonV)>, i: int) -> Seq<char>
    decreases fs, fs.len() - i,
{
    if i < 0 || i >= fs.len() {
        Seq::empty()
    } else {
        let head = spec_quote(fs[i].0) + seq![':'] + render_spec(fs[i].1);
        if i + 1 < fs.len() {
            head + seq![','] + render_fields_from(fs, i + 1)
        } else {
            head
        }
    }
}

fn render_into(out: &mut String, j: &Json)
    ensures
        final(out)@ == old(out)@ + render_spec(j@),
    decreases j@, 0int,
{
    match j {
        Json::Null => {
            push_char(out, 'n');
            push_char(out, 'u');
            push_char(out, 'l');
            push_char(out, 'l');
            proof {
                assert(final(out)@ =~= old(out)@ + render_spec(j@));
            }
        },
        Json::Bool(b) => {
            if *b {
                push_char(out, 't');
                push_char(out, 'r');
                push_char(out, 'u');
                push_char(out, 'e');
            } else {
                push_char(out, 'f');
                push_char(out, 'a');
                push_char(out, 'l');
                push_char(out, 's');
                push_char(out, 'e');
            }
            proof {
                assert(final(out)@ =~= old(out)@ + render_spec(j@));
            }
        },
        Json::UInt(n) => {
            push_u64(out, *n);
        },
        Json::Num(s) => {
            out.append(s.as_str());
        },
        Json::Str(s) => {
            quote_into(out, s.as_str());
        },
        Json::Arr(els) => {
            push_char(out, '[');
            render_items_into(out, els, 0);
            push_char(out, ']');
            proof {
                assert(final(out)@ =~= old(out)@ + render_spec(j@));
            }
        },
        Json::Obj(fs) => {
            push_char(out, '{');
            render_fields_into(out, fs, 0);
            push_char(out, '}');
            proof {
                assert(final(out)@ =~= old(out)@ + render_spec(j@));
            }
        },
    }
}

fn render_items_into(out: &mut String, els: &Vec<Json>, i: usize)
    requires
        i <= els@.len(),
    ensures
        final(out)@ == old(out)@ + render_items_from(arr_view(els@), i as int),
    decreases arr_view(els@), els@.len() - i,
{
    let n = els.len();
    if i < n {
        proof {
            assert(arr_view(els@)[i as int] == els@[i as int]@);
        }
        render_into(out, &els[i]);
        if i + 1 < n {
            push_char(out, ',');
            render_items_into(out, els, i + 1);
        }
        proof {
            assert(final(out)@ =~= old(out)@ + render_items_from(arr_view(els@), i as int));
        }
    } else {
        proof {
            assert(final(out)@ =~= old(out)@ + render_items_from(arr_view(els@), i as int));
        }
    }
}

fn render_fields_into(out: &mut String, fs: &Vec<(String, Json)>, i: usize)
    requires
        i <= fs@.len(),
    ensures
        final(out)@ == old(out)@ + render_fields_from(obj_view(fs@), i as int),
    decreases obj_view(fs@), fs@.len() - i,
{
    let n = fs.len();
    if i < n {
        proof {
            assert(obj_view(fs@)[i as int] == (fs@[i as int].0@, fs@[i as int].1@));
            assert(decreases_to!(obj_view(fs@) => obj_view(fs@)[i as int]));
            assert(decreases_to!(obj_view(fs@)[i as int] => obj_view(fs@)[i as int].1));
        }
        quote_into(out, fs[i].0.as_str());
        push_char(out, ':');
        render_into(out, &fs[i].1);
        if i + 1 < n {
            push_char(out, ',');
            render_fields_into(out, fs, i + 1);
        }
        proof {
            assert(final(out)@ =~= old(out)@ + render_fields_from(obj_view(fs@), i as int));
        }
    } else {
        proof {
            assert(final(out)@ =~= old(out)@ + render_fields_from(obj_view(fs@), i as int));
        }
    }
}

/// Textual rendering of a JSON value, as `render_spec` describes it.
pub fn render(j: &Json) -> (r: String)
    ensures
        r@ == render_spec(j@),
{
    let mut out = String::new();
    render_into(&mut out, j);
    out
}

} // verus!
