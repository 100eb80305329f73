//! The structured-body format the control-plane inspects and rewrites: a
//! JSON value model, a serialiser with an exact rendering specification, and
//! a parser proved equal to its own specification.

use vstd::prelude::*;

verus! {

broadcast use vstd::std_specs::vec::group_vec_axioms;

/// One structured value: objects keep their pairs in insertion order.
#[derive(Debug, PartialEq)]
pub enum Json {
    Null,
    Bool(bool),
    /// A number, kept as its literal text so nothing is lost in transit.
    Num(String),
    /// A string, with escapes already decoded.
    Str(String),
    Arr(Vec<Json>),
    Obj(Vec<(String, Json)>),
}

/// The mathematical shape of a structured value, used in contracts.
#[verifier::ext_equal]
pub enum SpecJson {
    Null,
    Bool(bool),
    Num(Seq<char>),
    Str(Seq<char>),
    Arr(Seq<SpecJson>),
    Obj(Seq<(Seq<char>, SpecJson)>),
}

/// The mathematical shape of one value.
pub open spec fn spec_json_view(v: Json) -> SpecJson
    decreases v,
{
    match v {
        Json::Null => SpecJson::Null,
        Json::Bool(b) => SpecJson::Bool(b),
        Json::Num(s) => SpecJson::Num(s@),
        Json::Str(s) => SpecJson::Str(s@),
        Json::Arr(items) => SpecJson::Arr(
            Seq::new(
                items@.len(),
                |i: int|
                    if 0 <= i < items@.len() {
                        spec_json_view(items@[i])
                    } else {
                        SpecJson::Null
                    },
            ),
        ),
        Json::Obj(pairs) => SpecJson::Obj(
            Seq::new(
                pairs@.len(),
                |i: int|
                    if 0 <= i < pairs@.len() {
                        (pairs@[i].0@, spec_json_view(pairs@[i].1))
                    } else {
                        (Seq::<char>::empty(), SpecJson::Null)
                    },
            ),
        ),
    }
}

impl View for Json {
    type V = SpecJson;

    open spec fn view(&self) -> SpecJson {
        spec_json_view(*self)
    }
}

impl DeepView for Json {
    type V = SpecJson;

    open spec fn deep_view(&self) -> SpecJson {
        spec_json_view(*self)
    }
}

/// The lower-case hexadecimal digit for `d`.
pub open spec fn spec_hex_char(d: nat) -> char {
    if d == 0 { '0' }
    else if d == 1 { '1' }
    else if d == 2 { '2' }
    else if d == 3 { '3' }
    else if d == 4 { '4' }
    else if d == 5 { '5' }
    else if d == 6 { '6' }
    else if d == 7 { '7' }
    else if d == 8 { '8' }
    else if d == 9 { '9' }
    else if d == 10 { 'a' }
    else if d == 11 { 'b' }
    else if d == 12 { 'c' }
    else if d == 13 { 'd' }
    else if d == 14 { 'e' }
    else { 'f' }
}

/// How one character appears inside a rendered string literal.
pub open spec fn spec_escape_char(c: char) -> Seq<char> {
    if c == '"' { seq!['\\', '"'] }
    else if c == '\\' { seq!['\\', '\\'] }
    else if c == '\n' { seq!['\\', 'n'] }
    else if c == '\r' { seq!['\\', 'r'] }
    else if c == '\t' { seq!['\\', 't'] }
    else if c as u32 == 8 { seq!['\\', 'b'] }
    else if c as u32 == 12 { seq!['\\', 'f'] }
    else if (c as u32) < 32 {
        seq!['\\', 'u', '0', '0', spec_hex_char((c as u32 / 16) as nat), spec_hex_char((c as u32 % 16) as nat)]
    } else {
        seq![c]
    }
}

/// A whole string's contents, escaped.
pub open spec fn spec_escape(s: Seq<char>) -> Seq<char>
    decreases s.len(),
{
    if s.len() == 0 {
        Seq::empty()
    } else {
        spec_escape(s.drop_last()) + spec_escape_char(s.last())
    }
}

/// A rendered string literal: quotes around the escaped contents.
pub open spec fn spec_quote(s: Seq<char>) -> Seq<char> {
    seq!['"'] + spec_escape(s) + seq!['"']
}

/// The compact rendering of a value.
pub open spec fn spec_render(v: SpecJson) -> Seq<char>
    decreases v,
{
    match v {
        SpecJson::Null => seq!['n', 'u', 'l', 'l'],
        SpecJson::Bool(b) => if b {
            seq!['t', 'r', 'u', 'e']
        } else {
            seq!['f', 'a', 'l', 's', 'e']
        },
        SpecJson::Num(s) => s,
        SpecJson::Str(s) => spec_quote(s),
        SpecJson::Arr(items) => seq!['['] + spec_render_items(items, items.len() as int)
            + seq![']'],
        SpecJson::Obj(pairs) => seq!['{'] + spec_render_pairs(pairs, pairs.len() as int)
            + seq!['}'],
    }
}

/// The first `n` items of an array body, comma-separated.
pub open spec fn spec_render_items(items: Seq<SpecJson>, n: int) -> Seq<char>
    decreases items, n,
{
    if n <= 0 || n > items.len() {
        Seq::empty()
    } else if n == 1 {
        spec_render(items[0])
    } else {
        spec_render_items(items, n - 1) + seq![','] + spec_render(items[n - 1])
    }
}

/// The first `n` pairs of an object body, comma-separated.
pub open spec fn spec_render_pairs(pairs: Seq<(Seq<char>, SpecJson)>, n: int) -> Seq<char>
    decreases pairs, n,
{
    if n <= 0 || n > pairs.len() {
        Seq::empty()
    } else if n == 1 {
        spec_quote(pairs[0].0) + seq![':'] + spec_render(pairs[0].1)
    } else {
        spec_render_pairs(pairs, n - 1) + seq![','] + spec_quote(pairs[n - 1].0) + seq![':']
            + spec_render(pairs[n - 1].1)
    }
}

fn hex_char(d: u32) -> (r: char)
    requires
        d < 16,
    ensures
        r == spec_hex_char(d as nat),
{
    match d {
        0 => '0',
        1 => '1',
        2 => '2',
        3 => '3',
        4 => '4',
        5 => '5',
        6 => '6',
        7 => '7',
        8 => '8',
        9 => '9',
        10 => 'a',
        11 => 'b',
        12 => 'c',
        13 => 'd',
        14 => 'e',
        _ => 'f',
    }
}

/// Appends the escaped contents of `s` to `out`.
fn escape_into(s: &str, out: &mut String)
    ensures
        final(out)@ == old(out)@ + spec_escape(s@),
{
    let len = s.unicode_len();
    let mut i: usize = 0;
    while i < len
        invariant
            i <= len,
            len == s@.len(),
            out@ == old(out)@ + spec_escape(s@.subrange(0, i as int)),
        decreases len - i,
    {
        let c = s.get_char(i);
        if c == '"' {
            out.push('\\');
            out.push('"');
        } else if c == '\\' {
            out.push('\\');
            out.push('\\');
        } else if c == '\n' {
            out.push('\\');
            out.push('n');
        } else if c == '\r' {
            out.push('\\');
            out.push('r');
        } else if c == '\t' {
            out.push('\\');
            out.push('t');
        } else if c as u32 == 8 {
            out.push('\\');
            out.push('b');
        } else if c as u32 == 12 {
            out.push('\\');
            out.push('f');
        } else if (c as u32) < 32 {
            out.push('\\');
            out.push('u');
            out.push('0');
            out.push('0');
            out.push(hex_char((c as u32) / 16));
            out.push(hex_char((c as u32) % 16));
        } else {
            out.push(c);
        }
        i = i + 1;
        proof {
            let pre = s@.subrange(0, i - 1);
            let cur = s@.subrange(0, i as int);
            assert(cur.drop_last() =~= pre);
            assert(cur.last() == c);
            assert(out@ =~= old(out)@ + spec_escape(cur));
        }
    }
    assert(s@.subrange(0, len as int) =~= s@);
}

/// Appends the rendered string literal for `s` to `out`.
fn quote_into(s: &str, out: &mut String)
    ensures
        final(out)@ == old(out)@ + spec_quote(s@),
{
    out.push('"');
    escape_into(s, out);
    out.push('"');
    assert(out@ =~= old(out)@ + spec_quote(s@));
}

/// Appends the compact rendering of `v` to `out`.
pub fn render_into(v: &Json, out: &mut String)
    ensures
        final(out)@ == old(out)@ + spec_render(v@),
    decreases *v,
{
    match v {
        Json::Null => {
            out.append("null");
            proof {
                reveal_strlit("null");
                assert(out@ =~= old(out)@ + spec_render(v@));
            }
        }
        Json::Bool(b) => {
            if *b {
                out.append("true");
                proof {
                    reveal_strlit("true");
                    assert(out@ =~= old(out)@ + spec_render(v@));
                }
            } else {
                out.append("false");
                proof {
                    reveal_strlit("false");
                    assert(out@ =~= old(out)@ + spec_render(v@));
                }
            }
        }
        Json::Num(s) => {
            out.append(s.as_str());
        }
        Json::Str(s) => {
            quote_into(s.as_str(), out);
        }
        Json::Arr(items) => {
            let ghost lst = v@->Arr_0;
            out.push('[');
            let n = items.len();
            let mut i: usize = 0;
            while i < n
                invariant
                    i <= n,
                    n == items@.len(),
                    *v == Json::Arr(*items),
                    lst == v@->Arr_0,
                    lst.len() == n,
                    forall|j: int| 0 <= j < n ==> lst[j] == #[trigger] spec_json_view(items@[j]),
                    out@ == old(out)@ + seq!['['] + spec_render_items(lst, i as int),
                decreases n - i,
            {
                if i > 0 {
                    out.push(',');
                }
                proof {
                    assert(decreases_to!(*v => v->Arr_0@[i as int]));
                }
                render_into(&items[i], out);
                i = i + 1;
                assert(out@ =~= old(out)@ + seq!['['] + spec_render_items(lst, i as int));
            }
            out.push(']');
            assert(out@ =~= old(out)@ + spec_render(v@));
        }
        Json::Obj(pairs) => {
            let ghost lst = v@->Obj_0;
            out.push('{');
            let n = pairs.len();
            let mut i: usize = 0;
            while i < n
                invariant
                    i <= n,
                    n == pairs@.len(),
                    *v == Json::Obj(*pairs),
                    lst == v@->Obj_0,
                    lst.len() == n,
                    forall|j: int|
                        0 <= j < n ==> #[trigger] lst[j] == (pairs@[j].0@, spec_json_view(
                            pairs@[j].1,
                        )),
                    out@ == old(out)@ + seq!['{'] + spec_render_pairs(lst, i as int),
                decreases n - i,
            {
                if i > 0 {
                    out.push(',');
                }
                quote_into(pairs[i].0.as_str(), out);
                out.push(':');
                proof {
                    assert(decreases_to!(*v => v->Obj_0@[i as int].1));
                }
                render_into(&pairs[i].1, out);
                i = i + 1;
                assert(out@ =~= old(out)@ + seq!['{'] + spec_render_pairs(lst, i as int));
            }
            out.push('}');
            assert(out@ =~= old(out)@ + spec_render(v@));
        }
    }
}

impl Json {
    /// The compact text of this value.
    pub fn render(&self) -> (r: String)
        ensures
            r@ == spec_render(self@),
    {
        let mut out = String::new();
        render_into(self, &mut out);
        out
    }

    /// A value with the same mathematical shape, built afresh.
    pub fn duplicate(&self) -> (r: Json)
        ensures
            r@ == self@,
        decreases *self,
    {
        match self {
            Json::Null => Json::Null,
            Json::Bool(b) => Json::Bool(*b),
            Json::Num(s) => Json::Num(s.clone()),
            Json::Str(s) => Json::Str(s.clone()),
            Json::Arr(items) => {
                let n = items.len();
                let mut out: Vec<Json> = Vec::new();
                let mut i: usize = 0;
                while i < n
                    invariant
                        i <= n,
                        n == items@.len(),
                        *self == Json::Arr(*items),
                        out@.len() == i,
                        forall|j: int|
                            0 <= j < i ==> #[trigger] spec_json_view(out@[j]) == spec_json_view(
                                items@[j],
                            ),
                    decreases n - i,
                {
                    proof {
                        assert(decreases_to!(*self => self->Arr_0@[i as int]));
                    }
                    out.push(items[i].duplicate());
                    i = i + 1;
                }
                let r = Json::Arr(out);
                proof {
                    assert(out@.len() == items@.len());
                    assert(r@ matches SpecJson::Arr(_));
                    assert(r@->Arr_0.len() == out@.len());
                    assert(forall|j: int| 0 <= j < n ==> #[trigger] r@->Arr_0[j] == spec_json_view(out@[j]));
                    assert(forall|j: int| 0 <= j < n ==> #[trigger] self@->Arr_0[j] == spec_json_view(items@[j]));
                    assert(forall|j: int|
                        0 <= j < n ==> #[trigger] r@->Arr_0[j] == self@->Arr_0[j]);
                    assert(self@->Arr_0.len() == items@.len());
                    assert(r@->Arr_0 =~= self@->Arr_0);
                }
                assert(r@ =~~= self@);
                r
            }
            Json::Obj(pairs) => {
                let n = pairs.len();
                let mut out: Vec<(String, Json)> = Vec::new();
                let mut i: usize = 0;
                while i < n
                    invariant
                        i <= n,
                        n == pairs@.len(),
                        *self == Json::Obj(*pairs),
                        out@.len() == i,
                        forall|j: int|
                            0 <= j < i ==> out@[j].0@ == pairs@[j].0@ && #[trigger] spec_json_view(
                                out@[j].1,
                            ) == spec_json_view(pairs@[j].1),
                    decreases n - i,
                {
                    proof {
                        assert(decreases_to!(*self => self->Obj_0@[i as int].1));
                    }
                    out.push((pairs[i].0.clone(), pairs[i].1.duplicate()));
                    i = i + 1;
                }
                let r = Json::Obj(out);
                proof {
                    assert(forall|j: int|
                        0 <= j < n ==> #[trigger] r@->Obj_0[j] == (
                        out@[j].0@,
                        spec_json_view(out@[j].1),
                        ));
                    assert(forall|j: int|
                        0 <= j < n ==> #[trigger] self@->Obj_0[j] == (
                        pairs@[j].0@,
                        spec_json_view(pairs@[j].1),
                        ));
                    assert(forall|j: int| 0 <= j < n ==> #[trigger] r@->Obj_0[j] == self@->Obj_0[j]);
                    assert(r@->Obj_0 =~= self@->Obj_0);
                }
                assert(r@ =~~= self@);
                r
            }
        }
    }
}


// ---------------------------------------------------------------------------
// Parsing: the grammar below is the library's own reading of a structured
// body. The executable parser is proved equal to the specification parser.
// ---------------------------------------------------------------------------

/// Relies on char::from_u32: the character for a valid scalar value, and
/// nothing for surrogates or values beyond the last code point.
pub assume_specification[ char::from_u32 ](i: u32) -> (r: Option<char>)
    ensures
        r matches Some(c) ==> c as u32 == i,
        (r is Some) <==> (!(0xD800 <= i <= 0xDFFF) && i <= 0x10FFFF),
;

/// Insignificant whitespace between tokens.
pub open spec fn spec_is_ws(c: char) -> bool {
    c == ' ' || c == '\t' || c == '\n' || c == '\r'
}

/// A decimal digit.
pub open spec fn spec_is_digit(c: char) -> bool {
    '0' <= c <= '9'
}

/// The first position at or after `i` holding something other than
/// whitespace.
pub open spec fn spec_skip_ws(s: Seq<char>, i: int) -> int
    decreases s.len() - i,
{
    if 0 <= i < s.len() && spec_is_ws(s[i]) {
        spec_skip_ws(s, i + 1)
    } else {
        i
    }
}

proof fn lemma_skip_ws_bounds(s: Seq<char>, i: int)
    requires
        0 <= i <= s.len(),
    ensures
        i <= spec_skip_ws(s, i) <= s.len(),
        spec_skip_ws(s, i) < s.len() ==> !spec_is_ws(s[spec_skip_ws(s, i)]),
    decreases s.len() - i,
{
    if 0 <= i < s.len() && spec_is_ws(s[i]) {
        lemma_skip_ws_bounds(s, i + 1);
    }
}

/// The value of one hexadecimal digit.
pub open spec fn spec_hex_val(c: char) -> Option<u32> {
    if '0' <= c <= '9' {
        Some((c as u32 - '0' as u32) as u32)
    } else if 'a' <= c <= 'f' {
        Some((c as u32 - 'a' as u32 + 10) as u32)
    } else if 'A' <= c <= 'F' {
        Some((c as u32 - 'A' as u32 + 10) as u32)
    } else {
        None
    }
}

/// Four hexadecimal digits at `i`, as one value.
pub open spec fn spec_hex4(s: Seq<char>, i: int) -> Option<u32> {
    if 0 <= i && i + 4 <= s.len() {
        match (spec_hex_val(s[i]), spec_hex_val(s[i + 1]), spec_hex_val(s[i + 2]), spec_hex_val(
            s[i + 3],
        )) {
            (Some(a), Some(b), Some(c), Some(d)) => Some(
                (a * 4096 + b * 256 + c * 16 + d) as u32,
            ),
            _ => None,
        }
    } else {
        None
    }
}

/// The decoded remainder of a string literal from `i` (just after the
/// opening quote or the previous character) to its closing quote: the
/// decoded characters and the position after the quote.
pub open spec fn spec_str_body(s: Seq<char>, i: int) -> Option<(Seq<char>, int)>
    decreases s.len() - i, 0int,
{
    if !(0 <= i < s.len()) {
        None
    } else {
        let c = s[i];
        if c == '"' {
            Some((Seq::empty(), i + 1))
        } else if c == '\\' {
            if i + 1 >= s.len() {
                None
            } else {
                let e = s[i + 1];
                if e == '"' || e == '\\' || e == '/' {
                    spec_str_step(s, i + 2, e)
                } else if e == 'b' {
                    spec_str_step(s, i + 2, '\u{8}')
                } else if e == 'f' {
                    spec_str_step(s, i + 2, '\u{c}')
                } else if e == 'n' {
                    spec_str_step(s, i + 2, '\n')
                } else if e == 'r' {
                    spec_str_step(s, i + 2, '\r')
                } else if e == 't' {
                    spec_str_step(s, i + 2, '\t')
                } else if e == 'u' {
                    match spec_hex4(s, i + 2) {
                        None => None,
                        Some(v) => if v < 0xD800 || v > 0xDFFF {
                            spec_str_step(s, i + 6, v as char)
                        } else if v < 0xDC00 {
                            if i + 12 <= s.len() && s[i + 6] == '\\' && s[i + 7] == 'u' {
                                match spec_hex4(s, i + 8) {
                                    None => None,
                                    Some(w) => if 0xDC00 <= w <= 0xDFFF {
                                        spec_str_step(
                                            s,
                                            i + 12,
                                            (0x10000 + (v - 0xD800) * 0x400 + (w
                                                - 0xDC00)) as u32 as char,
                                        )
                                    } else {
                                        None
                                    },
                                }
                            } else {
                                None
                            }
                        } else {
                            None
                        },
                    }
                } else {
                    None
                }
            }
        } else if (c as u32) < 32 {
            None
        } else {
            spec_str_step(s, i + 1, c)
        }
    }
}

/// One decoded character, then the rest of the literal.
pub open spec fn spec_str_step(s: Seq<char>, j: int, c: char) -> Option<(Seq<char>, int)>
    decreases s.len() - j, 1int,
{
    if j < 1 {
        None
    } else {
        match spec_str_body(s, j) {
            Some((t, e)) => Some((seq![c] + t, e)),
            None => None,
        }
    }
}

/// A whole string literal starting at `i`.
pub open spec fn spec_parse_string(s: Seq<char>, i: int) -> Option<(Seq<char>, int)> {
    if 0 <= i < s.len() && s[i] == '"' {
        spec_str_body(s, i + 1)
    } else {
        None
    }
}

proof fn lemma_str_body_bounds(s: Seq<char>, i: int)
    requires
        0 <= i,
    ensures
        spec_str_body(s, i) matches Some(r) ==> i < r.1 <= s.len(),
    decreases s.len() - i,
{
    if 0 <= i < s.len() {
        if s[i] == '"' {
        } else if s[i] == '\\' {
            if i + 2 <= s.len() {
                lemma_str_body_bounds(s, i + 2);
            }
            if i + 6 <= s.len() {
                lemma_str_body_bounds(s, i + 6);
            }
            if i + 12 <= s.len() {
                lemma_str_body_bounds(s, i + 12);
            }
        } else {
            lemma_str_body_bounds(s, i + 1);
        }
    }
}

proof fn lemma_parse_string_bounds(s: Seq<char>, i: int)
    requires
        0 <= i,
    ensures
        spec_parse_string(s, i) matches Some(r) ==> i + 2 <= r.1 <= s.len(),
{
    if 0 <= i < s.len() && s[i] == '"' {
        lemma_str_body_bounds(s, i + 1);
    }
}

/// The first position at or after `i` holding a non-digit.
pub open spec fn spec_digits_end(s: Seq<char>, i: int) -> int
    decreases s.len() - i,
{
    if 0 <= i < s.len() && spec_is_digit(s[i]) {
        spec_digits_end(s, i + 1)
    } else {
        i
    }
}

proof fn lemma_digits_end_bounds(s: Seq<char>, i: int)
    requires
        0 <= i <= s.len(),
    ensures
        i <= spec_digits_end(s, i) <= s.len(),
    decreases s.len() - i,
{
    if 0 <= i < s.len() && spec_is_digit(s[i]) {
        lemma_digits_end_bounds(s, i + 1);
    }
}

/// Where a number literal starting at `i` ends: an optional minus sign,
/// digits, an optional fraction, an optional exponent.
pub open spec fn spec_number_end(s: Seq<char>, i: int) -> Option<int> {
    let j0 = if 0 <= i < s.len() && s[i] == '-' {
        i + 1
    } else {
        i
    };
    if !(0 <= j0 < s.len() && spec_is_digit(s[j0])) {
        None
    } else {
        let j1 = spec_digits_end(s, j0);
        let j2 = if j1 < s.len() && s[j1] == '.' {
            if j1 + 1 < s.len() && spec_is_digit(s[j1 + 1]) {
                spec_digits_end(s, j1 + 1)
            } else {
                -1
            }
        } else {
            j1
        };
        if j2 < 0 {
            None
        } else {
            let j3 = if j2 < s.len() && (s[j2] == 'e' || s[j2] == 'E') {
                let k = if j2 + 1 < s.len() && (s[j2 + 1] == '+' || s[j2 + 1] == '-') {
                    j2 + 2
                } else {
                    j2 + 1
                };
                if k < s.len() && spec_is_digit(s[k]) {
                    spec_digits_end(s, k)
                } else {
                    -1
                }
            } else {
                j2
            };
            if j3 < 0 {
                None
            } else {
                Some(j3)
            }
        }
    }
}

proof fn lemma_number_end_bounds(s: Seq<char>, i: int)
    requires
        0 <= i,
    ensures
        spec_number_end(s, i) matches Some(j) ==> i < j <= s.len(),
{
    let j0 = if 0 <= i < s.len() && s[i] == '-' {
        i + 1
    } else {
        i
    };
    if 0 <= j0 < s.len() && spec_is_digit(s[j0]) {
        lemma_digits_end_bounds(s, j0 + 1);
        let j1 = spec_digits_end(s, j0);
        assert(j1 == spec_digits_end(s, j0 + 1));
        assert(j1 > j0);
        if j1 < s.len() && s[j1] == '.' {
            if j1 + 1 < s.len() && spec_is_digit(s[j1 + 1]) {
                lemma_digits_end_bounds(s, j1 + 1);
            }
        }
        let j2 = if j1 < s.len() && s[j1] == '.' {
            if j1 + 1 < s.len() && spec_is_digit(s[j1 + 1]) {
                spec_digits_end(s, j1 + 1)
            } else {
                -1
            }
        } else {
            j1
        };
        if j2 >= 0 {
            if j2 < s.len() && (s[j2] == 'e' || s[j2] == 'E') {
                let k = if j2 + 1 < s.len() && (s[j2 + 1] == '+' || s[j2 + 1] == '-') {
                    j2 + 2
                } else {
                    j2 + 1
                };
                if k < s.len() && spec_is_digit(s[k]) {
                    lemma_digits_end_bounds(s, k);
                }
            }
        }
    }
}

/// A value starting exactly at `i`: a literal word, a string, a number, an
/// array or an object, and the position just after it. The fuel bounds the
/// nesting the definition may descend through; every position consumes at
/// least one character per unit, so any fuel beyond the remaining length
/// gives the same answer.
pub open spec fn spec_value(s: Seq<char>, i: int, fuel: nat) -> Option<(SpecJson, int)>
    decreases fuel, 0int,
{
    if fuel == 0 {
        None
    } else if !(0 <= i < s.len()) {
        None
    } else {
        let c = s[i];
        if c == 'n' {
            if i + 4 <= s.len() && s[i + 1] == 'u' && s[i + 2] == 'l' && s[i + 3] == 'l' {
                Some((SpecJson::Null, i + 4))
            } else {
                None
            }
        } else if c == 't' {
            if i + 4 <= s.len() && s[i + 1] == 'r' && s[i + 2] == 'u' && s[i + 3] == 'e' {
                Some((SpecJson::Bool(true), i + 4))
            } else {
                None
            }
        } else if c == 'f' {
            if i + 5 <= s.len() && s[i + 1] == 'a' && s[i + 2] == 'l' && s[i + 3] == 's' && s[i
                + 4] == 'e' {
                Some((SpecJson::Bool(false), i + 5))
            } else {
                None
            }
        } else if c == '"' {
            match spec_parse_string(s, i) {
                Some((t, j)) => Some((SpecJson::Str(t), j)),
                None => None,
            }
        } else if c == '-' || spec_is_digit(c) {
            match spec_number_end(s, i) {
                Some(j) => Some((SpecJson::Num(s.subrange(i, j)), j)),
                None => None,
            }
        } else if c == '[' {
            let j = spec_skip_ws(s, i + 1);
            if j < s.len() && s[j] == ']' {
                Some((SpecJson::Arr(Seq::empty()), j + 1))
            } else {
                match spec_elems(s, j, (fuel - 1) as nat) {
                    Some((items, j2)) => {
                        let k = spec_skip_ws(s, j2);
                        if k < s.len() && s[k] == ']' {
                            Some((SpecJson::Arr(items), k + 1))
                        } else {
                            None
                        }
                    }
                    None => None,
                }
            }
        } else if c == '{' {
            let j = spec_skip_ws(s, i + 1);
            if j < s.len() && s[j] == '}' {
                Some((SpecJson::Obj(Seq::empty()), j + 1))
            } else {
                match spec_members(s, j, (fuel - 1) as nat) {
                    Some((pairs, j2)) => {
                        let k = spec_skip_ws(s, j2);
                        if k < s.len() && s[k] == '}' {
                            Some((SpecJson::Obj(pairs), k + 1))
                        } else {
                            None
                        }
                    }
                    None => None,
                }
            }
        } else {
            None
        }
    }
}

/// One or more comma-separated values from `i`, and the position just after
/// the last one.
pub open spec fn spec_elems(s: Seq<char>, i: int, fuel: nat) -> Option<(Seq<SpecJson>, int)>
    decreases fuel, 1int,
{
    if fuel == 0 {
        None
    } else {
        match spec_value(s, i, fuel) {
            None => None,
            Some((v, j)) => {
                let k = spec_skip_ws(s, j);
                if k < s.len() && s[k] == ',' {
                    match spec_elems(s, spec_skip_ws(s, k + 1), (fuel - 1) as nat) {
                        Some((rest, e)) => Some((seq![v] + rest, e)),
                        None => None,
                    }
                } else {
                    Some((seq![v], j))
                }
            }
        }
    }
}

/// One or more comma-separated key-value pairs from `i`, and the position
/// just after the last value.
pub open spec fn spec_members(s: Seq<char>, i: int, fuel: nat) -> Option<
    (Seq<(Seq<char>, SpecJson)>, int),
>
    decreases fuel, 1int,
{
    if fuel == 0 {
        None
    } else {
        match spec_parse_string(s, i) {
            None => None,
            Some((key, j)) => {
                let j2 = spec_skip_ws(s, j);
                if !(j2 < s.len() && s[j2] == ':') {
                    None
                } else {
                    match spec_value(s, spec_skip_ws(s, j2 + 1), fuel) {
                        None => None,
                        Some((v, j3)) => {
                            let k = spec_skip_ws(s, j3);
                            if k < s.len() && s[k] == ',' {
                                match spec_members(s, spec_skip_ws(s, k + 1), (fuel - 1) as nat) {
                                    Some((rest, e)) => Some((seq![(key, v)] + rest, e)),
                                    None => None,
                                }
                            } else {
                                Some((seq![(key, v)], j3))
                            }
                        }
                    }
                }
            }
        }
    }
}

/// A whole text: one value, surrounded by nothing but whitespace.
pub open spec fn spec_parse_json(s: Seq<char>) -> Option<SpecJson> {
    let i = spec_skip_ws(s, 0);
    match spec_value(s, i, (s.len() + 1) as nat) {
        Some((v, j)) => if spec_skip_ws(s, j) == s.len() {
            Some(v)
        } else {
            None
        },
        None => None,
    }
}

/// A parsed value always ends after where it starts and within the text.
proof fn lemma_value_bounds(s: Seq<char>, i: int, fuel: nat)
    requires
        0 <= i,
    ensures
        spec_value(s, i, fuel) matches Some(r) ==> i < r.1 <= s.len(),
    decreases fuel, 0int,
{
    if fuel > 0 && 0 <= i < s.len() {
        let c = s[i];
        if c == '"' {
            lemma_parse_string_bounds(s, i);
        } else if c == '-' || spec_is_digit(c) {
            lemma_number_end_bounds(s, i);
        } else if c == '[' || c == '{' {
            lemma_skip_ws_bounds(s, i + 1);
            let j = spec_skip_ws(s, i + 1);
            lemma_elems_bounds(s, j, (fuel - 1) as nat);
            lemma_members_bounds(s, j, (fuel - 1) as nat);
            if c == '[' {
                if !(j < s.len() && s[j] == ']') {
                    match spec_elems(s, j, (fuel - 1) as nat) {
                        Some((items, j2)) => {
                            lemma_skip_ws_bounds(s, j2);
                        }
                        None => {}
                    }
                }
            } else {
                if !(j < s.len() && s[j] == '}') {
                    match spec_members(s, j, (fuel - 1) as nat) {
                        Some((pairs, j2)) => {
                            lemma_skip_ws_bounds(s, j2);
                        }
                        None => {}
                    }
                }
            }
        }
    }
}

/// A parsed element list always ends after where it starts and within the
/// text.
proof fn lemma_elems_bounds(s: Seq<char>, i: int, fuel: nat)
    requires
        0 <= i,
    ensures
        spec_elems(s, i, fuel) matches Some(r) ==> i < r.1 <= s.len(),
    decreases fuel, 1int,
{
    if fuel > 0 {
        lemma_value_bounds(s, i, fuel);
        match spec_value(s, i, fuel) {
            None => {}
            Some((v, j)) => {
                lemma_skip_ws_bounds(s, j);
                let k = spec_skip_ws(s, j);
                if k < s.len() && s[k] == ',' {
                    lemma_skip_ws_bounds(s, k + 1);
                    lemma_elems_bounds(s, spec_skip_ws(s, k + 1), (fuel - 1) as nat);
                }
            }
        }
    }
}

/// A parsed member list always ends after where it starts and within the
/// text.
proof fn lemma_members_bounds(s: Seq<char>, i: int, fuel: nat)
    requires
        0 <= i,
    ensures
        spec_members(s, i, fuel) matches Some(r) ==> i < r.1 <= s.len(),
    decreases fuel, 1int,
{
    if fuel > 0 {
        lemma_parse_string_bounds(s, i);
        match spec_parse_string(s, i) {
            None => {}
            Some((key, j)) => {
                lemma_skip_ws_bounds(s, j);
                let j2 = spec_skip_ws(s, j);
                if j2 < s.len() && s[j2] == ':' {
                    lemma_skip_ws_bounds(s, j2 + 1);
                    lemma_value_bounds(s, spec_skip_ws(s, j2 + 1), fuel);
                    match spec_value(s, spec_skip_ws(s, j2 + 1), fuel) {
                        None => {}
                        Some((v, j3)) => {
                            lemma_skip_ws_bounds(s, j3);
                            let k = spec_skip_ws(s, j3);
                            if k < s.len() && s[k] == ',' {
                                lemma_skip_ws_bounds(s, k + 1);
                                lemma_members_bounds(s, spec_skip_ws(s, k + 1), (fuel - 1) as nat);
                            }
                        }
                    }
                }
            }
        }
    }
}


/// A built array's shape is its items' shapes.
pub(crate) proof fn lemma_arr_view(items: Vec<Json>)
    ensures
        spec_json_view(Json::Arr(items)) == SpecJson::Arr(items.deep_view()),
{
    assert(spec_json_view(Json::Arr(items))->Arr_0 =~= items.deep_view());
    assert(spec_json_view(Json::Arr(items)) =~= SpecJson::Arr(items.deep_view()));
}

/// A built object's shape is its pairs' shapes.
pub(crate) proof fn lemma_obj_view(pairs: Vec<(String, Json)>)
    ensures
        spec_json_view(Json::Obj(pairs)) == SpecJson::Obj(pairs.deep_view()),
{
    assert(spec_json_view(Json::Obj(pairs))->Obj_0 =~= pairs.deep_view());
    assert(spec_json_view(Json::Obj(pairs)) =~= SpecJson::Obj(pairs.deep_view()));
}

/// Steps past whitespace.
fn skip_ws(s: &str, i: usize) -> (r: usize)
    requires
        i <= s@.len(),
    ensures
        r == spec_skip_ws(s@, i as int),
        i <= r <= s@.len(),
        r < s@.len() ==> !spec_is_ws(s@[r as int]),
{
    let len = s.unicode_len();
    let mut cur = i;
    while cur < len && (s.get_char(cur) == ' ' || s.get_char(cur) == '\t' || s.get_char(cur)
        == '\n' || s.get_char(cur) == '\r')
        invariant
            i <= cur <= len,
            len == s@.len(),
            spec_skip_ws(s@, i as int) == spec_skip_ws(s@, cur as int),
        decreases len - cur,
    {
        cur = cur + 1;
    }
    cur
}

fn hex_val(c: char) -> (r: Option<u32>)
    ensures
        r == spec_hex_val(c),
        r matches Some(v) ==> v < 16,
{
    if '0' <= c && c <= '9' {
        Some((c as u32) - ('0' as u32))
    } else if 'a' <= c && c <= 'f' {
        Some((c as u32) - ('a' as u32) + 10)
    } else if 'A' <= c && c <= 'F' {
        Some((c as u32) - ('A' as u32) + 10)
    } else {
        None
    }
}

fn parse_hex4(s: &str, i: usize) -> (r: Option<u32>)
    requires
        i <= s@.len(),
    ensures
        r == spec_hex4(s@, i as int),
        r matches Some(v) ==> v < 0x10000,
{
    let len = s.unicode_len();
    if len < 4 || i > len - 4 {
        return None;
    }
    let a = match hex_val(s.get_char(i)) {
        Some(v) => v,
        None => {
            return None;
        }
    };
    let b = match hex_val(s.get_char(i + 1)) {
        Some(v) => v,
        None => {
            return None;
        }
    };
    let c = match hex_val(s.get_char(i + 2)) {
        Some(v) => v,
        None => {
            return None;
        }
    };
    let d = match hex_val(s.get_char(i + 3)) {
        Some(v) => v,
        None => {
            return None;
        }
    };
    Some(a * 4096 + b * 256 + c * 16 + d)
}

/// Carries the loop invariant of `parse_string` over one decoded character.
proof fn lemma_str_inv_step(
    s: Seq<char>,
    i0: int,
    cur0: int,
    cur1: int,
    acc0: Seq<char>,
    acc1: Seq<char>,
    pc: char,
)
    requires
        spec_parse_string(s, i0) == (match spec_str_body(s, cur0) {
            Some((t, e)) => Some((acc0 + t, e)),
            None => None::<(Seq<char>, int)>,
        }),
        spec_str_body(s, cur0) == spec_str_step(s, cur1, pc),
        cur1 >= 1,
        acc1 == acc0.push(pc),
    ensures
        spec_parse_string(s, i0) == (match spec_str_body(s, cur1) {
            Some((t, e)) => Some((acc1 + t, e)),
            None => None::<(Seq<char>, int)>,
        }),
{
    match spec_str_body(s, cur1) {
        Some((t, e)) => {
            assert(acc0 + (seq![pc] + t) =~= acc1 + t);
        }
        None => {}
    }
}

/// Decodes one string literal starting at `i`.
#[verifier::rlimit(50)]
fn parse_string(s: &str, i: usize) -> (r: Option<(String, usize)>)
    requires
        i <= s@.len(),
    ensures
        match r {
            Some((t, j)) => spec_parse_string(s@, i as int) == Some((t@, j as int)) && i < j
                <= s@.len(),
            None => spec_parse_string(s@, i as int) is None,
        },
{
    let len = s.unicode_len();
    if !(i < len && s.get_char(i) == '"') {
        return None;
    }
    proof {
        lemma_str_body_bounds(s@, i + 1);
    }
    let mut acc = String::new();
    let mut cur: usize = i + 1;
    loop
        invariant
            i + 1 <= cur <= len,
            len == s@.len(),
            i < len,
            spec_parse_string(s@, i as int) == (match spec_str_body(s@, cur as int) {
                Some((t, e)) => Some((acc@ + t, e)),
                None => None::<(Seq<char>, int)>,
            }),
        decreases len - cur,
    {
        let ghost cur0 = cur as int;
        let ghost acc0 = acc@;
        if cur >= len {
            return None;
        }
        let c = s.get_char(cur);
        if c == '"' {
            proof {
                assert(acc@ + Seq::<char>::empty() =~= acc@);
                lemma_str_body_bounds(s@, i + 1);
            }
            return Some((acc, cur + 1));
        }
        if c == '\\' {
            if cur + 1 >= len {
                return None;
            }
            let e = s.get_char(cur + 1);
            if e == '"' || e == '\\' || e == '/' {
                acc.push(e);
                cur = cur + 2;
                proof {
                    assert(spec_str_body(s@, cur0) == spec_str_step(s@, cur as int, e));
                    lemma_str_inv_step(s@, i as int, cur0, cur as int, acc0, acc@, e);
                }
            } else if e == 'b' {
                acc.push('\u{8}');
                cur = cur + 2;
                proof {
                    assert(spec_str_body(s@, cur0) == spec_str_step(s@, cur as int, '\u{8}'));
                    lemma_str_inv_step(s@, i as int, cur0, cur as int, acc0, acc@, '\u{8}');
                }
            } else if e == 'f' {
                acc.push('\u{c}');
                cur = cur + 2;
                proof {
                    assert(spec_str_body(s@, cur0) == spec_str_step(s@, cur as int, '\u{c}'));
                    lemma_str_inv_step(s@, i as int, cur0, cur as int, acc0, acc@, '\u{c}');
                }
            } else if e == 'n' {
                acc.push('\n');
                cur = cur + 2;
                proof {
                    assert(spec_str_body(s@, cur0) == spec_str_step(s@, cur as int, '\n'));
                    lemma_str_inv_step(s@, i as int, cur0, cur as int, acc0, acc@, '\n');
                }
            } else if e == 'r' {
                acc.push('\r');
                cur = cur + 2;
                proof {
                    assert(spec_str_body(s@, cur0) == spec_str_step(s@, cur as int, '\r'));
                    lemma_str_inv_step(s@, i as int, cur0, cur as int, acc0, acc@, '\r');
                }
            } else if e == 't' {
                acc.push('\t');
                cur = cur + 2;
                proof {
                    assert(spec_str_body(s@, cur0) == spec_str_step(s@, cur as int, '\t'));
                    lemma_str_inv_step(s@, i as int, cur0, cur as int, acc0, acc@, '\t');
                }
            } else if e == 'u' {
                let v = match parse_hex4(s, cur + 2) {
                    Some(v) => v,
                    None => {
                        return None;
                    }
                };
                if v < 0xD800 || v > 0xDFFF {
                    let c2 = match char::from_u32(v) {
                        Some(c2) => c2,
                        None => {
                            proof {
                                assert(false);
                            }
                            unreached()
                        }
                    };
                    proof {
                        vstd::utf8::char_u32_cast(c2, v);
                        assert(c2 == v as char);
                    }
                    acc.push(c2);
                    cur = cur + 6;
                    proof {
                        assert(spec_hex4(s@, cur0 + 2) == Some(v));
                        assert(spec_str_body(s@, cur0) == spec_str_step(s@, cur as int, c2));
                        lemma_str_inv_step(s@, i as int, cur0, cur as int, acc0, acc@, c2);
                    }
                } else if v < 0xDC00 {
                    if !(len - cur >= 12 && s.get_char(cur + 6) == '\\' && s.get_char(cur + 7)
                        == 'u') {
                        return None;
                    }
                    let w = match parse_hex4(s, cur + 8) {
                        Some(w) => w,
                        None => {
                            return None;
                        }
                    };
                    if !(0xDC00 <= w && w <= 0xDFFF) {
                        return None;
                    }
                    let combined: u32 = 0x10000 + (v - 0xD800) * 0x400 + (w - 0xDC00);
                    let c2 = match char::from_u32(combined) {
                        Some(c2) => c2,
                        None => {
                            proof {
                                assert(false);
                            }
                            unreached()
                        }
                    };
                    proof {
                        vstd::utf8::char_u32_cast(c2, combined);
                        assert(c2 == combined as char);
                    }
                    acc.push(c2);
                    cur = cur + 12;
                    proof {
                        assert(spec_hex4(s@, cur0 + 2) == Some(v));
                        assert(spec_hex4(s@, cur0 + 8) == Some(w));
                        assert(combined == (0x10000 + (v - 0xD800) * 0x400 + (w - 0xDC00)) as u32);
                        assert(spec_str_body(s@, cur0) == spec_str_step(s@, cur as int, c2));
                        lemma_str_inv_step(s@, i as int, cur0, cur as int, acc0, acc@, c2);
                    }
                } else {
                    return None;
                }
            } else {
                return None;
            }
        } else if (c as u32) < 32 {
            return None;
        } else {
            acc.push(c);
            cur = cur + 1;
            proof {
                assert(spec_str_body(s@, cur0) == spec_str_step(s@, cur as int, c));
                lemma_str_inv_step(s@, i as int, cur0, cur as int, acc0, acc@, c);
            }
        }
    }
}

/// Steps past decimal digits.
fn digits_end(s: &str, i: usize) -> (r: usize)
    requires
        i <= s@.len(),
    ensures
        r == spec_digits_end(s@, i as int),
        i <= r <= s@.len(),
{
    let len = s.unicode_len();
    let mut cur = i;
    while cur < len && '0' <= s.get_char(cur) && s.get_char(cur) <= '9'
        invariant
            i <= cur <= len,
            len == s@.len(),
            spec_digits_end(s@, i as int) == spec_digits_end(s@, cur as int),
        decreases len - cur,
    {
        cur = cur + 1;
    }
    cur
}

/// Scans one number literal starting at `i` and keeps its exact text.
fn parse_number(s: &str, i: usize) -> (r: Option<(String, usize)>)
    requires
        i < s@.len(),
    ensures
        match r {
            Some((t, j)) => spec_number_end(s@, i as int) == Some(j as int) && t@ == s@.subrange(
                i as int,
                j as int,
            ) && i < j <= s@.len(),
            None => spec_number_end(s@, i as int) is None,
        },
{
    let len = s.unicode_len();
    let j0 = if s.get_char(i) == '-' {
        i + 1
    } else {
        i
    };
    if !(j0 < len && {
        let c = s.get_char(j0);
        '0' <= c && c <= '9'
    }) {
        return None;
    }
    let j1 = digits_end(s, j0);
    proof {
        lemma_digits_end_bounds(s@, j0 + 1);
        assert(spec_digits_end(s@, j0 as int) == spec_digits_end(s@, j0 + 1));
    }
    let j2 = if j1 < len && s.get_char(j1) == '.' {
        if j1 + 1 < len && {
            let c = s.get_char(j1 + 1);
            '0' <= c && c <= '9'
        } {
            digits_end(s, j1 + 1)
        } else {
            return None;
        }
    } else {
        j1
    };
    let j3 = if j2 < len && {
        let c = s.get_char(j2);
        c == 'e' || c == 'E'
    } {
        let k = if j2 + 1 < len && {
            let c = s.get_char(j2 + 1);
            c == '+' || c == '-'
        } {
            j2 + 2
        } else {
            j2 + 1
        };
        if k < len && {
            let c = s.get_char(k);
            '0' <= c && c <= '9'
        } {
            digits_end(s, k)
        } else {
            return None;
        }
    } else {
        j2
    };
    let t = s.substring_char(i, j3).to_owned();
    Some((t, j3))
}

/// Parses one value starting exactly at `i`. The ghost fuel mirrors the
/// specification parser and is always ample for the remaining text.
fn parse_value(s: &str, i: usize, Ghost(fuel): Ghost<nat>) -> (r: Option<(Json, usize)>)
    requires
        i <= s@.len(),
        fuel >= s@.len() - i + 1,
    ensures
        match r {
            Some((v, j)) => spec_value(s@, i as int, fuel) == Some((v@, j as int)) && i < j
                <= s@.len(),
            None => spec_value(s@, i as int, fuel) is None,
        },
    decreases s@.len() - i, 0int,
{
    let len = s.unicode_len();
    if i >= len {
        return None;
    }
    let c = s.get_char(i);
    if c == 'n' {
        if len - i >= 4 && s.get_char(i + 1) == 'u' && s.get_char(i + 2) == 'l' && s.get_char(
            i + 3,
        ) == 'l' {
            Some((Json::Null, i + 4))
        } else {
            None
        }
    } else if c == 't' {
        if len - i >= 4 && s.get_char(i + 1) == 'r' && s.get_char(i + 2) == 'u' && s.get_char(
            i + 3,
        ) == 'e' {
            Some((Json::Bool(true), i + 4))
        } else {
            None
        }
    } else if c == 'f' {
        if len - i >= 5 && s.get_char(i + 1) == 'a' && s.get_char(i + 2) == 'l' && s.get_char(
            i + 3,
        ) == 's' && s.get_char(i + 4) == 'e' {
            Some((Json::Bool(false), i + 5))
        } else {
            None
        }
    } else if c == '"' {
        match parse_string(s, i) {
            Some((t, j)) => Some((Json::Str(t), j)),
            None => None,
        }
    } else if c == '-' || ('0' <= c && c <= '9') {
        match parse_number(s, i) {
            Some((t, j)) => Some((Json::Num(t), j)),
            None => None,
        }
    } else if c == '[' {
        let j = skip_ws(s, i + 1);
        if j < len && s.get_char(j) == ']' {
            let items: Vec<Json> = Vec::new();
            proof {
                lemma_arr_view(items);
                assert(items.deep_view() =~= Seq::<SpecJson>::empty());
            }
            Some((Json::Arr(items), j + 1))
        } else {
            match parse_elems(s, j, Ghost((fuel - 1) as nat)) {
                Some((items, j2)) => {
                    let k = skip_ws(s, j2);
                    if k < len && s.get_char(k) == ']' {
                        proof {
                            lemma_arr_view(items);
                        }
                        Some((Json::Arr(items), k + 1))
                    } else {
                        None
                    }
                }
                None => None,
            }
        }
    } else if c == '{' {
        let j = skip_ws(s, i + 1);
        if j < len && s.get_char(j) == '}' {
            let pairs: Vec<(String, Json)> = Vec::new();
            proof {
                lemma_obj_view(pairs);
                assert(pairs.deep_view() =~= Seq::<(Seq<char>, SpecJson)>::empty());
            }
            Some((Json::Obj(pairs), j + 1))
        } else {
            match parse_members(s, j, Ghost((fuel - 1) as nat)) {
                Some((pairs, j2)) => {
                    let k = skip_ws(s, j2);
                    if k < len && s.get_char(k) == '}' {
                        proof {
                            lemma_obj_view(pairs);
                        }
                        Some((Json::Obj(pairs), k + 1))
                    } else {
                        None
                    }
                }
                None => None,
            }
        }
    } else {
        None
    }
}

/// Parses one or more comma-separated values starting at `i`.
fn parse_elems(s: &str, i: usize, Ghost(fuel): Ghost<nat>) -> (r: Option<(Vec<Json>, usize)>)
    requires
        i <= s@.len(),
        fuel >= s@.len() - i + 1,
    ensures
        match r {
            Some((items, j)) => spec_elems(s@, i as int, fuel) == Some(
                (items.deep_view(), j as int),
            ) && i < j <= s@.len(),
            None => spec_elems(s@, i as int, fuel) is None,
        },
    decreases s@.len() - i, 1int,
{
    let len = s.unicode_len();
    match parse_value(s, i, Ghost(fuel)) {
        None => None,
        Some((v, j)) => {
            let k = skip_ws(s, j);
            if k < len && s.get_char(k) == ',' {
                let next = skip_ws(s, k + 1);
                match parse_elems(s, next, Ghost((fuel - 1) as nat)) {
                    None => None,
                    Some((rest, e)) => {
                        let ghost vv = v@;
                        let ghost restv = rest.deep_view();
                        let mut items: Vec<Json> = Vec::new();
                        items.push(v);
                        let mut tail = rest;
                        items.append(&mut tail);
                        proof {
                            assert(items.deep_view() =~= seq![vv] + restv);
                        }
                        Some((items, e))
                    }
                }
            } else {
                let ghost vv = v@;
                let mut items: Vec<Json> = Vec::new();
                items.push(v);
                proof {
                    assert(items.deep_view() =~= seq![vv]);
                }
                Some((items, j))
            }
        }
    }
}

/// Parses one or more comma-separated key-value pairs starting at `i`.
fn parse_members(s: &str, i: usize, Ghost(fuel): Ghost<nat>) -> (r: Option<
    (Vec<(String, Json)>, usize),
>)
    requires
        i <= s@.len(),
        fuel >= s@.len() - i + 1,
    ensures
        match r {
            Some((pairs, j)) => spec_members(s@, i as int, fuel) == Some(
                (pairs.deep_view(), j as int),
            ) && i < j <= s@.len(),
            None => spec_members(s@, i as int, fuel) is None,
        },
    decreases s@.len() - i, 1int,
{
    let len = s.unicode_len();
    match parse_string(s, i) {
        None => None,
        Some((key, j)) => {
            let j2 = skip_ws(s, j);
            if !(j2 < len && s.get_char(j2) == ':') {
                return None;
            }
            let vstart = skip_ws(s, j2 + 1);
            match parse_value(s, vstart, Ghost(fuel)) {
                None => None,
                Some((v, j3)) => {
                    let k = skip_ws(s, j3);
                    if k < len && s.get_char(k) == ',' {
                        let next = skip_ws(s, k + 1);
                        match parse_members(s, next, Ghost((fuel - 1) as nat)) {
                            None => None,
                            Some((rest, e)) => {
                                let ghost kv = (key@, v@);
                                let ghost restv = rest.deep_view();
                                let mut pairs: Vec<(String, Json)> = Vec::new();
                                pairs.push((key, v));
                                let mut tail = rest;
                                pairs.append(&mut tail);
                                proof {
                                    assert(pairs.deep_view() =~= seq![kv] + restv);
                                }
                                Some((pairs, e))
                            }
                        }
                    } else {
                        let ghost kv = (key@, v@);
                        let mut pairs: Vec<(String, Json)> = Vec::new();
                        pairs.push((key, v));
                        proof {
                            assert(pairs.deep_view() =~= seq![kv]);
                        }
                        Some((pairs, j3))
                    }
                }
            }
        }
    }
}

/// Parses a whole text as one structured value. Anything the grammar
/// rejects comes back as nothing, to be reported as a bad request.
pub fn parse_json(s: &str) -> (r: Option<Json>)
    ensures
        match r {
            Some(v) => spec_parse_json(s@) == Some(v@),
            None => spec_parse_json(s@) is None,
        },
{
    let i = skip_ws(s, 0);
    match parse_value(s, i, Ghost((s@.len() + 1) as nat)) {
        Some((v, j)) => {
            if skip_ws(s, j) == s.unicode_len() {
                Some(v)
            } else {
                None
            }
        }
        None => None,
    }
}


/// A character passed through unchanged by escaping.
pub open spec fn spec_plain_char(c: char) -> bool {
    c != '"' && c != '\\' && (c as u32) >= 32
}

/// The shape of one escaped character: itself when plain, otherwise a
/// backslash escape of two or six characters whose second character tells
/// the two forms apart.
proof fn lemma_escape_char_shape(c: char)
    ensures
        spec_plain_char(c) ==> spec_escape_char(c) =~= seq![c],
        !spec_plain_char(c) ==> spec_escape_char(c)[0] == '\\' && (spec_escape_char(c).len() == 2
            || spec_escape_char(c).len() == 6),
        spec_escape_char(c).len() == 6 ==> spec_escape_char(c)[1] == 'u',
        (!spec_plain_char(c) && spec_escape_char(c).len() == 2) ==> spec_escape_char(c)[1] != 'u',
        spec_escape_char(c).len() >= 1,
{
}

/// No two characters share an escape.
proof fn lemma_escape_char_injective(c1: char, c2: char)
    requires
        spec_escape_char(c1) == spec_escape_char(c2),
    ensures
        c1 == c2,
{
    lemma_escape_char_shape(c1);
    lemma_escape_char_shape(c2);
    if spec_plain_char(c1) && spec_plain_char(c2) {
        assert(spec_escape_char(c1)[0] == c1);
        assert(spec_escape_char(c2)[0] == c2);
    } else if !spec_plain_char(c1) && !spec_plain_char(c2) {
        if spec_escape_char(c1).len() == 6 {
            let v1 = c1 as u32;
            let v2 = c2 as u32;
            assert(spec_escape_char(c1)[4] == spec_hex_char((v1 / 16) as nat));
            assert(spec_escape_char(c1)[5] == spec_hex_char((v1 % 16) as nat));
            assert(spec_escape_char(c2)[4] == spec_hex_char((v2 / 16) as nat));
            assert(spec_escape_char(c2)[5] == spec_hex_char((v2 % 16) as nat));
            assert(v1 / 16 == v2 / 16 && v1 % 16 == v2 % 16);
            assert(v1 == v2);
            vstd::utf8::char_u32_cast(c1, v1);
            vstd::utf8::char_u32_cast(c2, v2);
        } else {
            assert(spec_escape_char(c1)[1] == spec_escape_char(c2)[1]);
        }
    } else {
        assert(spec_escape_char(c1)[0] == spec_escape_char(c2)[0]);
        assert(false);
    }
}

/// Escaping processes a string from the front, one character at a time.
proof fn lemma_escape_front(s: Seq<char>)
    requires
        s.len() > 0,
    ensures
        spec_escape(s) == spec_escape_char(s[0]) + spec_escape(s.drop_first()),
    decreases s.len(),
{
    if s.len() == 1 {
        assert(s.drop_last() =~= Seq::<char>::empty());
        assert(s.drop_first() =~= Seq::<char>::empty());
        assert(spec_escape(s) =~= spec_escape_char(s[0]) + spec_escape(s.drop_first()));
    } else {
        let t = s.drop_last();
        lemma_escape_front(t);
        assert(t[0] == s[0]);
        assert(t.drop_first() =~= s.drop_first().drop_last());
        assert(s.drop_first().last() == s.last());
        assert(s.drop_first().len() > 0);
        assert(spec_escape(s) =~= spec_escape_char(s[0]) + spec_escape(s.drop_first()));
    }
}

/// No two strings share an escaped form: nothing is lost by escaping.
pub proof fn lemma_escape_injective(s1: Seq<char>, s2: Seq<char>)
    requires
        spec_escape(s1) == spec_escape(s2),
    ensures
        s1 == s2,
    decreases s1.len(),
{
    if s1.len() == 0 {
        if s2.len() > 0 {
            lemma_escape_front(s2);
            lemma_escape_char_shape(s2[0]);
            assert(spec_escape(s2).len() > 0);
            assert(false);
        }
        assert(s1 =~= s2);
    } else if s2.len() == 0 {
        lemma_escape_front(s1);
        lemma_escape_char_shape(s1[0]);
        assert(false);
    } else {
        lemma_escape_front(s1);
        lemma_escape_front(s2);
        let c1 = s1[0];
        let c2 = s2[0];
        lemma_escape_char_shape(c1);
        lemma_escape_char_shape(c2);
        let e = spec_escape(s1);
        assert(e[0] == spec_escape_char(c1)[0]);
        assert(e[0] == spec_escape_char(c2)[0]);
        if spec_plain_char(c1) != spec_plain_char(c2) {
            assert(false);
        }
        if !spec_plain_char(c1) {
            assert(e[1] == spec_escape_char(c1)[1] || spec_escape_char(c1).len() == 1);
            assert(spec_escape_char(c1).len() >= 2 && spec_escape_char(c2).len() >= 2);
            assert(e[1] == spec_escape_char(c1)[1]);
            assert(e[1] == spec_escape_char(c2)[1]);
            assert(spec_escape_char(c1).len() == spec_escape_char(c2).len());
        }
        assert(spec_escape_char(c1).len() == spec_escape_char(c2).len());
        crate::text::lemma_prefix_split(
            spec_escape_char(c1),
            spec_escape(s1.drop_first()),
            spec_escape_char(c2),
            spec_escape(s2.drop_first()),
        );
        lemma_escape_char_injective(c1, c2);
        lemma_escape_injective(s1.drop_first(), s2.drop_first());
        assert(s1.len() == s2.len());
        assert forall|i: int| 0 <= i < s1.len() implies s1[i] == s2[i] by {
            if i > 0 {
                assert(s1[i] == s1.drop_first()[i - 1]);
                assert(s2[i] == s2.drop_first()[i - 1]);
            }
        }
        assert(s1 =~= s2);
    }
}

/// A string of plain characters escapes to itself.
pub proof fn lemma_escape_plain(s: Seq<char>)
    requires
        forall|i: int| 0 <= i < s.len() ==> spec_plain_char(#[trigger] s[i]),
    ensures
        spec_escape(s) == s,
    decreases s.len(),
{
    if s.len() > 0 {
        lemma_escape_plain(s.drop_last());
        lemma_escape_char_shape(s.last());
        assert(spec_escape(s) =~= s);
    } else {
        assert(spec_escape(s) =~= s);
    }
}


/// The stream tags pass through escaping unchanged.
pub proof fn lemma_tag_plain(tag: Seq<char>)
    requires
        tag == "StdOut"@ || tag == "StdErr"@,
    ensures
        spec_escape(tag) == tag,
        spec_quote(tag) == seq!['"'] + tag + seq!['"'],
{
    reveal_strlit("StdOut");
    reveal_strlit("StdErr");
    assert(forall|i: int| 0 <= i < tag.len() ==> spec_plain_char(#[trigger] tag[i]));
    lemma_escape_plain(tag);
    assert(spec_quote(tag) =~= seq!['"'] + tag + seq!['"']);
}

/// The three field names of a log object pass through escaping unchanged.
pub proof fn lemma_key_plain()
    ensures
        spec_escape("stream"@) == "stream"@,
        spec_escape("timestamp"@) == "timestamp"@,
        spec_escape("message"@) == "message"@,
{
    reveal_strlit("stream");
    reveal_strlit("timestamp");
    reveal_strlit("message");
    assert(forall|i: int| 0 <= i < "stream"@.len() ==> spec_plain_char(#[trigger] "stream"@[i]));
    lemma_escape_plain("stream"@);
    assert(forall|i: int|
        0 <= i < "timestamp"@.len() ==> spec_plain_char(#[trigger] "timestamp"@[i]));
    lemma_escape_plain("timestamp"@);
    assert(forall|i: int|
        0 <= i < "message"@.len() ==> spec_plain_char(#[trigger] "message"@[i]));
    lemma_escape_plain("message"@);
}

} // verus!
