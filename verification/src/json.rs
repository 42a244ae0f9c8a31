//! A JSON value model and an exact serializer.
//!
//! Requests and responses travel as JSON text. The library models structured
//! values with [`Json`], whose mathematical counterpart is [`JsonV`], and
//! renders them with a serializer whose output is pinned character by
//! character by [`json_text`].

use vstd::prelude::*;

use crate::text::{dec_int, digit_char, push_char, push_dec_i64};

verus! {

/// A JSON value. Numbers are modeled as 64-bit signed integers: that covers
/// every value this protocol produces, and the callers of the library never
/// hand it fractional numbers.
pub enum Json {
    Null,
    Bool(bool),
    Int(i64),
    Str(String),
    Arr(Vec<Json>),
    Obj(Vec<(String, Json)>),
}

/// The mathematical model of a [`Json`] value.
#[verifier::ext_equal]
pub enum JsonV {
    Null,
    Bool(bool),
    Int(int),
    Str(Seq<char>),
    Arr(Seq<JsonV>),
    Obj(Seq<(Seq<char>, JsonV)>),
}

/// The model of one array, element by element, from index `i` on.
pub open spec fn json_view_arr(items: Seq<Json>, i: int) -> Seq<JsonV>
    decreases items, (if i < items.len() { items.len() - i } else { 0 }),
{
    if 0 <= i < items.len() {
        seq![json_view(items[i])] + json_view_arr(items, i + 1)
    } else {
        Seq::empty()
    }
}

/// The model of one object, entry by entry, from index `i` on.
pub open spec fn json_view_obj(entries: Seq<(String, Json)>, i: int) -> Seq<(Seq<char>, JsonV)>
    decreases entries, (if i < entries.len() { entries.len() - i } else { 0 }),
{
    if 0 <= i < entries.len() {
        seq![(entries[i].0@, json_view(entries[i].1))] + json_view_obj(entries, i + 1)
    } else {
        Seq::empty()
    }
}

/// The model of a [`Json`] value.
pub open spec fn json_view(j: Json) -> JsonV
    decreases j, 0int,
{
    match j {
        Json::Null => JsonV::Null,
        Json::Bool(b) => JsonV::Bool(b),
        Json::Int(i) => JsonV::Int(i as int),
        Json::Str(s) => JsonV::Str(s@),
        Json::Arr(items) => JsonV::Arr(json_view_arr(items@, 0)),
        Json::Obj(entries) => JsonV::Obj(json_view_obj(entries@, 0)),
    }
}

impl View for Json {
    type V = JsonV;

    open spec fn view(&self) -> JsonV {
        json_view(*self)
    }
}

/// The hexadecimal digit for a nibble, lower case.
pub open spec fn hex_char(d: int) -> char {
    if d < 10 {
        digit_char(d)
    } else if d == 10 {
        'a'
    } else if d == 11 {
        'b'
    } else if d == 12 {
        'c'
    } else if d == 13 {
        'd'
    } else if d == 14 {
        'e'
    } else {
        'f'
    }
}

/// How one character is written inside a JSON string literal: quotes and
/// backslashes are escaped, control characters take their short escape or a
/// `\u00XX` escape, and every other character stands as itself.
pub open spec fn escape_char(c: char) -> Seq<char> {
    if c == '"' {
        seq!['\\', '"']
    } else if c == '\\' {
        seq!['\\', '\\']
    } else if c == '\n' {
        seq!['\\', 'n']
    } else if c == '\r' {
        seq!['\\', 'r']
    } else if c == '\t' {
        seq!['\\', 't']
    } else if c as u32 == 8 {
        seq!['\\', 'b']
    } else if c as u32 == 12 {
        seq!['\\', 'f']
    } else if (c as u32) < 32 {
        seq!['\\', 'u', '0', '0', hex_char((c as u32 / 16) as int), hex_char((c as u32 % 16) as int)]
    } else {
        seq![c]
    }
}

/// The body of a JSON string literal for the given characters.
pub open spec fn escape_str(s: Seq<char>) -> Seq<char>
    decreases s.len(),
{
    if s.len() == 0 {
        Seq::empty()
    } else {
        escape_char(s[0]) + escape_str(s.drop_first())
    }
}

/// A complete JSON string literal, quotes included.
pub open spec fn quoted(s: Seq<char>) -> Seq<char> {
    seq!['"'] + escape_str(s) + seq!['"']
}

/// The serialized text of a JSON value.
pub open spec fn json_text(v: JsonV) -> Seq<char>
    decreases v, 0int,
{
    match v {
        JsonV::Null => "null"@,
        JsonV::Bool(b) => if b {
            "true"@
        } else {
            "false"@
        },
        JsonV::Int(i) => dec_int(i),
        JsonV::Str(s) => quoted(s),
        JsonV::Arr(items) => seq!['['] + arr_text_from(items, 0) + seq![']'],
        JsonV::Obj(entries) => seq!['{'] + obj_text_from(entries, 0) + seq!['}'],
    }
}

/// The comma-joined text of an array's elements from index `i` on.
pub open spec fn arr_text_from(items: Seq<JsonV>, i: int) -> Seq<char>
    decreases items, (if i < items.len() { items.len() - i } else { 0 }),
{
    if 0 <= i < items.len() {
        (if i > 0 {
            seq![',']
        } else {
            Seq::empty()
        }) + json_text(items[i]) + arr_text_from(items, i + 1)
    } else {
        Seq::empty()
    }
}

/// The comma-joined text of an object's entries from index `i` on.
pub open spec fn obj_text_from(entries: Seq<(Seq<char>, JsonV)>, i: int) -> Seq<char>
    decreases entries, (if i < entries.len() { entries.len() - i } else { 0 }),
{
    if 0 <= i < entries.len() {
        (if i > 0 {
            seq![',']
        } else {
            Seq::empty()
        }) + quoted(entries[i].0) + seq![':'] + json_text(entries[i].1) + obj_text_from(
            entries,
            i + 1,
        )
    } else {
        Seq::empty()
    }
}

fn hex_char_exec(d: u32) -> (c: char)
    requires
        d < 16,
    ensures
        c == hex_char(d as int),
{
    if d == 0 {
        '0'
    } else if d == 1 {
        '1'
    } else if d == 2 {
        '2'
    } else if d == 3 {
        '3'
    } else if d == 4 {
        '4'
    } else if d == 5 {
        '5'
    } else if d == 6 {
        '6'
    } else if d == 7 {
        '7'
    } else if d == 8 {
        '8'
    } else if d == 9 {
        '9'
    } else if d == 10 {
        'a'
    } else if d == 11 {
        'b'
    } else if d == 12 {
        'c'
    } else if d == 13 {
        'd'
    } else if d == 14 {
        'e'
    } else {
        'f'
    }
}

/// Appends the escaped form of one character to `out`.
fn push_escaped_char(out: &mut String, c: char)
    ensures
        final(out)@ == old(out)@ + escape_char(c),
{
    if c == '"' {
        push_char(out, '\\');
        push_char(out, '"');
    } else if c == '\\' {
        push_char(out, '\\');
        push_char(out, '\\');
    } else if c == '\n' {
        push_char(out, '\\');
        push_char(out, 'n');
    } else if c == '\r' {
        push_char(out, '\\');
        push_char(out, 'r');
    } else if c == '\t' {
        push_char(out, '\\');
        push_char(out, 't');
    } else if c as u32 == 8 {
        push_char(out, '\\');
        push_char(out, 'b');
    } else if c as u32 == 12 {
        push_char(out, '\\');
        push_char(out, 'f');
    } else if (c as u32) < 32 {
        push_char(out, '\\');
        push_char(out, 'u');
        push_char(out, '0');
        push_char(out, '0');
        push_char(out, hex_char_exec(c as u32 / 16));
        push_char(out, hex_char_exec(c as u32 % 16));
    } else {
        push_char(out, c);
    }
    assert(out@ =~= old(out)@ + escape_char(c));
}

/// The escaped body of a string literal from character `i` on.
pub open spec fn escape_str_from(s: Seq<char>, i: int) -> Seq<char>
    decreases (if i < s.len() { s.len() - i } else { 0 }),
{
    if 0 <= i < s.len() {
        escape_char(s[i]) + escape_str_from(s, i + 1)
    } else {
        Seq::empty()
    }
}

/// The two spellings of the escaped body agree.
pub proof fn lemma_escape_str_from(s: Seq<char>, i: int)
    requires
        0 <= i <= s.len(),
    ensures
        escape_str_from(s, i) == escape_str(s.skip(i)),
    decreases s.len() - i,
{
    if i < s.len() {
        lemma_escape_str_from(s, i + 1);
        assert(s.skip(i).drop_first() =~= s.skip(i + 1));
        assert(s.skip(i)[0] == s[i]);
        assert(escape_str(s.skip(i)) == escape_char(s[i]) + escape_str(s.skip(i + 1)));
    } else {
        assert(s.skip(i).len() == 0);
    }
}

/// Appends a complete JSON string literal for `s` to `out`.
pub fn push_json_str(out: &mut String, s: &str)
    ensures
        final(out)@ == old(out)@ + quoted(s@),
{
    push_char(out, '"');
    let n = s.unicode_len();
    let mut i: usize = 0;
    while i < n
        invariant
            i <= n,
            n == s@.len(),
            out@ == old(out)@ + seq!['"'] + escape_str_from(s@, 0).take(
                (escape_str_from(s@, 0).len() - escape_str_from(s@, i as int).len()) as int,
            ),
            escape_str_from(s@, i as int).len() <= escape_str_from(s@, 0).len(),
            escape_str_from(s@, 0) == escape_str_from(s@, 0).take(
                (escape_str_from(s@, 0).len() - escape_str_from(s@, i as int).len()) as int,
            ) + escape_str_from(s@, i as int),
        decreases n - i,
    {
        let c = s.get_char(i);
        push_escaped_char(out, c);
        proof {
            let whole = escape_str_from(s@, 0);
            let done = (whole.len() - escape_str_from(s@, i as int).len()) as int;
            assert(escape_str_from(s@, i as int) == escape_char(c) + escape_str_from(
                s@,
                i as int + 1,
            ));
            let done2 = (whole.len() - escape_str_from(s@, i as int + 1).len()) as int;
            assert(whole.take(done2) =~= whole.take(done) + escape_char(c));
            assert(whole =~= whole.take(done2) + escape_str_from(s@, i as int + 1));
            assert(out@ =~= old(out)@ + seq!['"'] + whole.take(done2));
        }
        i = i + 1;
    }
    proof {
        assert(escape_str_from(s@, n as int).len() == 0);
        let whole = escape_str_from(s@, 0);
        assert(whole.take(whole.len() as int) =~= whole);
    }
    push_char(out, '"');
    proof {
        lemma_escape_str_from(s@, 0);
        assert(s@.skip(0) =~= s@);
        assert(out@ =~= old(out)@ + quoted(s@));
    }
}

/// Appends the serialized text of `j` to `out`.
pub fn push_json(out: &mut String, j: &Json)
    ensures
        final(out)@ == old(out)@ + json_text(j@),
    decreases *j, 0int,
{
    match j {
        Json::Null => {
            out.append("null");
        },
        Json::Bool(b) => {
            if *b {
                out.append("true");
            } else {
                out.append("false");
            }
        },
        Json::Int(i) => {
            push_dec_i64(out, *i);
        },
        Json::Str(s) => {
            push_json_str(out, s.as_str());
        },
        Json::Arr(items) => {
            push_char(out, '[');
            push_json_arr(out, items, 0);
            push_char(out, ']');
            assert(out@ =~= old(out)@ + json_text(j@));
        },
        Json::Obj(entries) => {
            push_char(out, '{');
            push_json_obj(out, entries, 0);
            push_char(out, '}');
            assert(out@ =~= old(out)@ + json_text(j@));
        },
    }
}

/// Appends the comma-joined elements of an array from index `i` on.
fn push_json_arr(out: &mut String, items: &Vec<Json>, i: usize)
    requires
        i <= items@.len(),
    ensures
        final(out)@ == old(out)@ + arr_text_from(json_view_arr(items@, 0), i as int),
    decreases *items, (items@.len() - i),
{
    proof {
        lemma_json_view_arr(items@, i as int);
    }
    if i < items.len() {
        if i > 0 {
            push_char(out, ',');
        }
        push_json(out, &items[i]);
        push_json_arr(out, items, i + 1);
        assert(out@ =~= old(out)@ + arr_text_from(json_view_arr(items@, 0), i as int));
    } else {
        assert(out@ =~= old(out)@ + arr_text_from(json_view_arr(items@, 0), i as int));
    }
}

/// Appends the comma-joined entries of an object from index `i` on.
fn push_json_obj(out: &mut String, entries: &Vec<(String, Json)>, i: usize)
    requires
        i <= entries@.len(),
    ensures
        final(out)@ == old(out)@ + obj_text_from(json_view_obj(entries@, 0), i as int),
    decreases *entries, (entries@.len() - i),
{
    proof {
        lemma_json_view_obj(entries@, i as int);
    }
    if i < entries.len() {
        if i > 0 {
            push_char(out, ',');
        }
        push_json_str(out, entries[i].0.as_str());
        push_char(out, ':');
        push_json(out, &entries[i].1);
        push_json_obj(out, entries, i + 1);
        assert(out@ =~= old(out)@ + obj_text_from(json_view_obj(entries@, 0), i as int));
    } else {
        assert(out@ =~= old(out)@ + obj_text_from(json_view_obj(entries@, 0), i as int));
    }
}

/// The model of an array indexes pointwise into the element models.
pub proof fn lemma_json_view_arr(items: Seq<Json>, i: int)
    requires
        0 <= i <= items.len(),
    ensures
        json_view_arr(items, 0).len() == items.len(),
        i < items.len() ==> json_view_arr(items, 0)[i] == json_view(items[i]),
        arr_text_from(json_view_arr(items, 0), i) == (if i < items.len() {
            (if i > 0 {
                seq![',']
            } else {
                Seq::<char>::empty()
            }) + json_text(json_view(items[i])) + arr_text_from(json_view_arr(items, 0), i + 1)
        } else {
            Seq::<char>::empty()
        }),
{
    lemma_json_view_arr_len(items, 0);
    if i < items.len() {
        lemma_json_view_arr_index(items, 0, i);
    }
}

proof fn lemma_json_view_arr_len(items: Seq<Json>, i: int)
    requires
        0 <= i <= items.len(),
    ensures
        json_view_arr(items, i).len() == items.len() - i,
    decreases items.len() - i,
{
    if i < items.len() {
        lemma_json_view_arr_len(items, i + 1);
    }
}

proof fn lemma_json_view_arr_index(items: Seq<Json>, i: int, k: int)
    requires
        0 <= i <= k < items.len(),
    ensures
        json_view_arr(items, i)[k - i] == json_view(items[k]),
    decreases k - i,
{
    lemma_json_view_arr_len(items, i + 1);
    if i < k {
        lemma_json_view_arr_index(items, i + 1, k);
    }
}

/// The model of an object indexes pointwise into the entry models.
pub proof fn lemma_json_view_obj(entries: Seq<(String, Json)>, i: int)
    requires
        0 <= i <= entries.len(),
    ensures
        json_view_obj(entries, 0).len() == entries.len(),
        i < entries.len() ==> json_view_obj(entries, 0)[i] == (
        entries[i].0@,
        json_view(entries[i].1),
        ),
        obj_text_from(json_view_obj(entries, 0), i) == (if i < entries.len() {
            (if i > 0 {
                seq![',']
            } else {
                Seq::<char>::empty()
            }) + quoted(entries[i].0@) + seq![':'] + json_text(json_view(entries[i].1))
                + obj_text_from(json_view_obj(entries, 0), i + 1)
        } else {
            Seq::<char>::empty()
        }),
{
    lemma_json_view_obj_len(entries, 0);
    if i < entries.len() {
        lemma_json_view_obj_index(entries, 0, i);
    }
}

proof fn lemma_json_view_obj_len(entries: Seq<(String, Json)>, i: int)
    requires
        0 <= i <= entries.len(),
    ensures
        json_view_obj(entries, i).len() == entries.len() - i,
    decreases entries.len() - i,
{
    if i < entries.len() {
        lemma_json_view_obj_len(entries, i + 1);
    }
}

proof fn lemma_json_view_obj_index(entries: Seq<(String, Json)>, i: int, k: int)
    requires
        0 <= i <= k < entries.len(),
    ensures
        json_view_obj(entries, i)[k - i] == (entries[k].0@, json_view(entries[k].1)),
    decreases k - i,
{
    lemma_json_view_obj_len(entries, i + 1);
    if i < k {
        lemma_json_view_obj_index(entries, i + 1, k);
    }
}

/// The serialized text of a JSON value, as a fresh string.
pub fn json_to_string(j: &Json) -> (s: String)
    ensures
        s@ == json_text(j@),
{
    let mut out = String::new();
    push_json(&mut out, j);
    assert(out@ =~= json_text(j@));
    out
}

} // verus!
