//! Plain-text helpers: decimal rendering and parsing, and case-insensitive
//! search used for content-type inspection.

use vstd::prelude::*;

verus! {

/// Relies on String::push: appends the given character to the end of the
/// string.
pub assume_specification[ String::push ](s: &mut String, ch: char)
    ensures
        final(s)@ == old(s)@.push(ch),
;

/// Renders `n` in decimal, most significant digit first.
pub open spec fn spec_dec_u64(n: nat) -> Seq<char>
    decreases n,
{
    if n < 10 {
        seq![spec_digit_char(n)]
    } else {
        spec_dec_u64(n / 10).push(spec_digit_char(n % 10))
    }
}

/// The character for one decimal digit.
pub open spec fn spec_digit_char(d: nat) -> char {
    if d == 0 { '0' }
    else if d == 1 { '1' }
    else if d == 2 { '2' }
    else if d == 3 { '3' }
    else if d == 4 { '4' }
    else if d == 5 { '5' }
    else if d == 6 { '6' }
    else if d == 7 { '7' }
    else if d == 8 { '8' }
    else { '9' }
}

/// Decimal rendering of a signed value: a minus sign for negatives, then the
/// digits of the magnitude.
pub open spec fn spec_dec_i64(n: int) -> Seq<char> {
    if n < 0 {
        seq!['-'] + spec_dec_u64((-n) as nat)
    } else {
        spec_dec_u64(n as nat)
    }
}

fn digit_str(d: u64) -> (r: &'static str)
    requires
        d < 10,
    ensures
        r@ =~= seq![spec_digit_char(d as nat)],
{
    let r = match d {
        0 => "0",
        1 => "1",
        2 => "2",
        3 => "3",
        4 => "4",
        5 => "5",
        6 => "6",
        7 => "7",
        8 => "8",
        _ => "9",
    };
    proof {
        reveal_strlit("0");
        reveal_strlit("1");
        reveal_strlit("2");
        reveal_strlit("3");
        reveal_strlit("4");
        reveal_strlit("5");
        reveal_strlit("6");
        reveal_strlit("7");
        reveal_strlit("8");
        reveal_strlit("9");
    }
    r
}

/// Decimal rendering of a `u64`, e.g. for ports and indices.
pub fn dec_u64(n: u64) -> (r: String)
    ensures
        r@ == spec_dec_u64(n as nat),
    decreases n,
{
    if n < 10 {
        let mut s = String::new();
        s.append(digit_str(n));
        assert(s@ =~= spec_dec_u64(n as nat));
        s
    } else {
        let mut s = dec_u64(n / 10);
        s.append(digit_str(n % 10));
        assert(s@ =~= spec_dec_u64(n as nat));
        s
    }
}

/// Decimal rendering of an `i64`, e.g. for timestamps.
pub fn dec_i64(n: i64) -> (r: String)
    ensures
        r@ == spec_dec_i64(n as int),
{
    if n >= 0 {
        dec_u64(n as u64)
    } else {
        // -(n + 1) is in range even for the smallest value.
        let magnitude: u64 = ((-(n + 1)) as u64) + 1;
        let mut s = String::new();
        s.append("-");
        s.append(dec_u64(magnitude).as_str());
        proof {
            reveal_strlit("-");
            assert(magnitude == -(n as int));
            assert(s@ =~= spec_dec_i64(n as int));
        }
        s
    }
}

/// All characters are decimal digits.
pub open spec fn spec_all_digits(s: Seq<char>) -> bool {
    forall|i: int| 0 <= i < s.len() ==> '0' <= #[trigger] s[i] <= '9'
}

/// The numeric value of a sequence of decimal digits, most significant first.
pub open spec fn spec_digits_val(s: Seq<char>) -> nat
    decreases s.len(),
{
    if s.len() == 0 {
        0
    } else {
        (spec_digits_val(s.drop_last()) * 10 + (s.last() as int - '0' as int)) as nat
    }
}

/// The value `parse::<usize>` gives a string: an optional leading plus sign,
/// then one or more digits, rejected when empty, malformed or out of range.
pub open spec fn spec_parse_usize(s: Seq<char>) -> Option<usize> {
    let digits = if s.len() > 0 && s[0] == '+' { s.drop_first() } else { s };
    if digits.len() > 0 && spec_all_digits(digits) && spec_digits_val(digits) <= usize::MAX {
        Some(spec_digits_val(digits) as usize)
    } else {
        None
    }
}

/// Parses a decimal `usize` as the standard library's `parse` does: optional
/// leading `+`, one or more digits, no other characters, value in range.
pub fn parse_usize(s: &str) -> (r: Option<usize>)
    ensures
        r == spec_parse_usize(s@),
{
    let len = s.unicode_len();
    let start: usize = if len > 0 && s.get_char(0) == '+' { 1 } else { 0 };
    let ghost digits = if s@.len() > 0 && s@[0] == '+' { s@.drop_first() } else { s@ };
    assert(digits =~= s@.subrange(start as int, s@.len() as int));
    if len == start {
        return None;
    }
    let mut acc: usize = 0;
    let mut i: usize = start;
    while i < len
        invariant
            start <= i <= len,
            len == s@.len(),
            start == (if s@.len() > 0 && s@[0] == '+' { 1int } else { 0int }),
            digits == (if s@.len() > 0 && s@[0] == '+' { s@.drop_first() } else { s@ }),
            digits =~= s@.subrange(start as int, len as int),
            spec_all_digits(s@.subrange(start as int, i as int)),
            acc == spec_digits_val(s@.subrange(start as int, i as int)),
        decreases len - i,
    {
        let c = s.get_char(i);
        if c < '0' || c > '9' {
            assert(!spec_all_digits(digits)) by {
                assert(digits[i - start] == s@[i as int]);
                assert(!('0' <= digits[i - start] <= '9'));
            }
            return None;
        }
        let d: usize = ((c as u32) - ('0' as u32)) as usize;
        let next = match acc.checked_mul(10) {
            Some(x) => x.checked_add(d),
            None => None,
        };
        match next {
            Some(x) => {
                acc = x;
                i = i + 1;
                proof {
                    let pre = s@.subrange(start as int, i - 1);
                    let cur = s@.subrange(start as int, i as int);
                    assert(cur.drop_last() =~= pre);
                    assert(cur.last() == c);
                }
            }
            None => {
                // The value no longer fits; a longer digit string only grows it.
                proof {
                    let cur = s@.subrange(start as int, i + 1);
                    assert(cur.drop_last() =~= s@.subrange(start as int, i as int));
                    assert(cur.last() == c);
                    assert(spec_digits_val(cur) > usize::MAX);
                    if spec_all_digits(digits) {
                        lemma_digits_val_monotonic(digits, i + 1 - start);
                        assert(cur =~= digits.subrange(0, i + 1 - start));
                        assert(spec_digits_val(digits) > usize::MAX);
                    }
                }
                return None;
            }
        }
    }
    assert(s@.subrange(start as int, i as int) =~= digits);
    Some(acc)
}

/// A digit string's value only grows as digits are appended: the value of a
/// prefix never exceeds the value of the whole.
proof fn lemma_digits_val_monotonic(s: Seq<char>, k: int)
    requires
        0 <= k <= s.len(),
        spec_all_digits(s),
    ensures
        spec_digits_val(s.subrange(0, k)) <= spec_digits_val(s),
    decreases s.len() - k,
{
    if k < s.len() {
        lemma_digits_val_monotonic(s, k + 1);
        let a = s.subrange(0, k);
        let b = s.subrange(0, k + 1);
        assert(b.drop_last() =~= a);
        assert('0' <= b.last() <= '9');
        assert(spec_digits_val(b) == (spec_digits_val(a) * 10 + (b.last() as int - '0' as int)) as nat);
        assert(spec_digits_val(a) <= spec_digits_val(b));
    } else {
        assert(s.subrange(0, k) =~= s);
    }
}

/// Character-for-character string equality.
pub fn str_eq(a: &str, b: &str) -> (r: bool)
    ensures
        r == (a@ == b@),
{
    let n = a.unicode_len();
    if n != b.unicode_len() {
        assert(a@.len() != b@.len());
        return false;
    }
    let mut i: usize = 0;
    while i < n
        invariant
            i <= n,
            n == a@.len(),
            n == b@.len(),
            forall|j: int| 0 <= j < i ==> a@[j] == b@[j],
        decreases n - i,
    {
        if a.get_char(i) != b.get_char(i) {
            return false;
        }
        i = i + 1;
    }
    proof {
        assert(a@ =~= b@);
    }
    true
}

/// The position of the first scheme separator `://` at or after `i`.
pub open spec fn spec_find_scheme_sep(s: Seq<char>, i: int) -> Option<int>
    decreases s.len() - i,
{
    if i < 0 || i + 3 > s.len() {
        None
    } else if s[i] == ':' && s[i + 1] == '/' && s[i + 2] == '/' {
        Some(i)
    } else {
        spec_find_scheme_sep(s, i + 1)
    }
}

/// Where the authority part of a URL ends: the first path, query or fragment
/// delimiter at or after `i`, or the end of the string.
pub open spec fn spec_origin_end(s: Seq<char>, i: int) -> int
    decreases s.len() - i,
{
    if i < 0 || i >= s.len() {
        s.len() as int
    } else if s[i] == '/' || s[i] == '?' || s[i] == '#' {
        i
    } else {
        spec_origin_end(s, i + 1)
    }
}

/// A base URL the control-plane can join paths onto: a non-empty scheme, the
/// separator, and a non-empty authority.
pub open spec fn spec_valid_base_url(s: Seq<char>) -> bool {
    match spec_find_scheme_sep(s, 0) {
        None => false,
        Some(k) => k >= 1 && k + 3 < s.len() && s[k + 3] != '/' && s[k + 3] != '?' && s[k + 3]
            != '#',
    }
}

/// The scheme and authority of a base URL, dropping any path, query or
/// fragment.
pub open spec fn spec_url_origin(s: Seq<char>) -> Seq<char>
    recommends
        spec_valid_base_url(s),
{
    match spec_find_scheme_sep(s, 0) {
        None => s,
        Some(k) => s.subrange(0, spec_origin_end(s, k + 3)),
    }
}

/// A base URL joined with a request's path and query: the base's origin, then
/// the path, made absolute if it was not.
pub open spec fn spec_join_url(base: Seq<char>, path_and_query: Seq<char>) -> Seq<char> {
    spec_url_origin(base) + (if path_and_query.len() > 0 && path_and_query[0] == '/' {
        path_and_query
    } else {
        seq!['/'] + path_and_query
    })
}

/// Whether paths can be joined onto `s`.
pub fn valid_base_url(s: &str) -> (r: bool)
    ensures
        r == spec_valid_base_url(s@),
{
    let len = s.unicode_len();
    if len < 3 {
        assert(spec_find_scheme_sep(s@, 0) is None);
        return false;
    }
    let mut i: usize = 0;
    let mut sep: Option<usize> = None;
    while i <= len - 3 && sep.is_none()
        invariant
            0 <= i,
            len == s@.len(),
            3 <= len,
            i <= len,
            match sep {
                Some(k) => spec_find_scheme_sep(s@, 0) == Some(k as int) && k == i && k + 3
                    <= len,
                None => spec_find_scheme_sep(s@, 0) == spec_find_scheme_sep(s@, i as int),
            },
        decreases len - i, (if sep is None { 1int } else { 0int }),
    {
        if s.get_char(i) == ':' && s.get_char(i + 1) == '/' && s.get_char(i + 2) == '/' {
            sep = Some(i);
        } else {
            i = i + 1;
            proof {
                if i + 3 > len {
                    assert(spec_find_scheme_sep(s@, i as int) is None);
                }
            }
        }
    }
    match sep {
        None => {
            assert(spec_find_scheme_sep(s@, 0) is None);
            false
        }
        Some(k) => k >= 1 && k + 3 < len && s.get_char(k + 3) != '/' && s.get_char(k + 3) != '?'
            && s.get_char(k + 3) != '#',
    }
}

/// Joins a request's path and query onto a base URL, replacing the base's own
/// path as a reverse proxy must.
pub fn join_url(base: &str, path_and_query: &str) -> (r: String)
    requires
        spec_valid_base_url(base@),
    ensures
        r@ == spec_join_url(base@, path_and_query@),
{
    let len = base.unicode_len();
    proof {
        if len < 3 {
            assert(spec_find_scheme_sep(base@, 0) is None);
            assert(false);
        }
    }
    let mut i: usize = 0;
    let mut sep: Option<usize> = None;
    while i <= len - 3 && sep.is_none()
        invariant
            0 <= i,
            len == base@.len(),
            3 <= len,
            i <= len,
            spec_valid_base_url(base@),
            match sep {
                Some(k) => spec_find_scheme_sep(base@, 0) == Some(k as int) && k == i && k + 3
                    <= len,
                None => spec_find_scheme_sep(base@, 0) == spec_find_scheme_sep(base@, i as int),
            },
        decreases len - i, (if sep is None { 1int } else { 0int }),
    {
        if base.get_char(i) == ':' && base.get_char(i + 1) == '/' && base.get_char(i + 2) == '/' {
            sep = Some(i);
        } else {
            i = i + 1;
            proof {
                if i + 3 > len {
                    assert(spec_find_scheme_sep(base@, i as int) is None);
                }
            }
        }
    }
    proof {
        if sep is None {
            assert(spec_find_scheme_sep(base@, 0) is None);
            assert(false);
        }
    }
    let k = match sep {
        Some(k) => k,
        None => 0,
    };
    let mut e: usize = k + 3;
    while e < len && base.get_char(e) != '/' && base.get_char(e) != '?' && base.get_char(e) != '#'
        invariant
            k + 3 <= e <= len,
            len == base@.len(),
            spec_origin_end(base@, k + 3) == spec_origin_end(base@, e as int),
        decreases len - e,
    {
        e = e + 1;
    }
    assert(spec_origin_end(base@, k + 3) == e);
    let origin = base.substring_char(0, e);
    let mut out = String::new();
    out.append(origin);
    if !(path_and_query.unicode_len() > 0 && path_and_query.get_char(0) == '/') {
        out.push('/');
    }
    out.append(path_and_query);
    assert(out@ =~= spec_join_url(base@, path_and_query@));
    out
}

/// The character with upper-case ASCII letters lowered; others unchanged.
pub open spec fn spec_lower_char(c: char) -> char {
    if 'A' <= c && c <= 'Z' {
        ((c as u32) + 32) as char
    } else {
        c
    }
}

/// Whether `s` contains the four letters of "json" in a row, ignoring ASCII
/// case: how a content-type header is recognised as structured.
pub open spec fn spec_indicates_json(s: Seq<char>) -> bool {
    exists|i: int|
        0 <= i && i + 4 <= s.len() && #[trigger] spec_lower_char(s[i]) == 'j' && spec_lower_char(
            s[i + 1],
        ) == 's' && spec_lower_char(s[i + 2]) == 'o' && spec_lower_char(s[i + 3]) == 'n'
}

fn char_matches_lower(c: char, l: char) -> (r: bool)
    requires
        'a' <= l && l <= 'z',
    ensures
        r == (spec_lower_char(c) == l),
{
    c == l || ('A' <= c && c <= 'Z' && (c as u32) + 32 == (l as u32))
}

/// Case-insensitive search for "json", as the router applies to the
/// content-type header to decide whether a body is structured.
pub fn contains_json(s: &str) -> (r: bool)
    ensures
        r == spec_indicates_json(s@),
{
    let len = s.unicode_len();
    if len < 4 {
        return false;
    }
    let mut i: usize = 0;
    while i <= len - 4
        invariant
            len == s@.len(),
            4 <= len,
            0 <= i,
            i + 3 <= len,
            forall|j: int|
                0 <= j < i ==> !(#[trigger] spec_lower_char(s@[j]) == 'j' && spec_lower_char(
                    s@[j + 1],
                ) == 's' && spec_lower_char(s@[j + 2]) == 'o' && spec_lower_char(s@[j + 3]) == 'n'),
        decreases len - i,
    {
        if char_matches_lower(s.get_char(i), 'j') && char_matches_lower(s.get_char(i + 1), 's')
            && char_matches_lower(s.get_char(i + 2), 'o') && char_matches_lower(
            s.get_char(i + 3),
            'n',
        ) {
            return true;
        }
        i = i + 1;
    }
    false
}


/// Decimal renderings hold digits alone.
pub proof fn lemma_dec_u64_digits(n: nat)
    ensures
        forall|i: int| 0 <= i < spec_dec_u64(n).len() ==> '0' <= #[trigger] spec_dec_u64(n)[i]
            <= '9',
        spec_dec_u64(n).len() >= 1,
    decreases n,
{
    if n >= 10 {
        lemma_dec_u64_digits(n / 10);
    }
}

/// A decimal rendering reads back as its value.
pub proof fn lemma_dec_u64_val(n: nat)
    ensures
        spec_all_digits(spec_dec_u64(n)),
        spec_digits_val(spec_dec_u64(n)) == n,
    decreases n,
{
    lemma_dec_u64_digits(n);
    if n < 10 {
        let d = spec_dec_u64(n);
        assert(d.len() == 1);
        assert(d.drop_last() =~= Seq::<char>::empty());
        assert(spec_digits_val(d.drop_last()) == 0);
        assert(d.last() == spec_digit_char(n));
        assert(spec_digit_char(n) as int - '0' as int == n);
        assert(spec_digits_val(d) == n);
    } else {
        lemma_dec_u64_val(n / 10);
        let d = spec_dec_u64(n);
        assert(d.drop_last() =~= spec_dec_u64(n / 10));
        assert(d.last() == spec_digit_char(n % 10));
        assert(spec_digits_val(d) == spec_digits_val(spec_dec_u64(n / 10)) * 10 + (n % 10));
    }
}

/// No two values share a decimal rendering.
pub proof fn lemma_dec_u64_injective(a: nat, b: nat)
    requires
        spec_dec_u64(a) == spec_dec_u64(b),
    ensures
        a == b,
{
    lemma_dec_u64_val(a);
    lemma_dec_u64_val(b);
}

/// Signed renderings hold digits after at most a leading minus sign, and no
/// two values share one.
pub proof fn lemma_dec_i64_shape(n: int)
    ensures
        spec_dec_i64(n).len() >= 1,
        n < 0 ==> spec_dec_i64(n)[0] == '-',
        n >= 0 ==> '0' <= spec_dec_i64(n)[0] <= '9',
        forall|i: int| 1 <= i < spec_dec_i64(n).len() ==> '0' <= #[trigger] spec_dec_i64(n)[i]
            <= '9',
{
    if n < 0 {
        lemma_dec_u64_digits((-n) as nat);
        assert(forall|i: int| 1 <= i < spec_dec_i64(n).len() ==> spec_dec_i64(n)[i]
            == spec_dec_u64((-n) as nat)[i - 1]);
    } else {
        lemma_dec_u64_digits(n as nat);
    }
}

/// No two signed values share a rendering.
pub proof fn lemma_dec_i64_injective(a: int, b: int)
    requires
        spec_dec_i64(a) == spec_dec_i64(b),
    ensures
        a == b,
{
    lemma_dec_i64_shape(a);
    lemma_dec_i64_shape(b);
    if a < 0 && b < 0 {
        assert(spec_dec_u64((-a) as nat) =~= spec_dec_i64(a).drop_first());
        assert(spec_dec_u64((-b) as nat) =~= spec_dec_i64(b).drop_first());
        lemma_dec_u64_injective((-a) as nat, (-b) as nat);
    } else if a >= 0 && b >= 0 {
        lemma_dec_u64_injective(a as nat, b as nat);
    } else {
        assert(spec_dec_i64(a)[0] == spec_dec_i64(b)[0]);
        assert(false);
    }
}

/// Where two texts each start with a signed number followed by a character
/// no number holds, the numbers and the remainders coincide.
pub proof fn lemma_number_prefix_split(a: int, b: int, ra: Seq<char>, rb: Seq<char>, sep: char)
    requires
        spec_dec_i64(a) + ra == spec_dec_i64(b) + rb,
        ra.len() > 0 && ra[0] == sep,
        rb.len() > 0 && rb[0] == sep,
        sep != '-' && !('0' <= sep <= '9'),
    ensures
        a == b,
        ra == rb,
{
    let da = spec_dec_i64(a);
    let db = spec_dec_i64(b);
    lemma_dec_i64_shape(a);
    lemma_dec_i64_shape(b);
    let whole = da + ra;
    if da.len() < db.len() {
        assert(whole[da.len() as int] == ra[0]);
        assert(whole[da.len() as int] == db[da.len() as int]);
        assert(false);
    }
    if db.len() < da.len() {
        assert(whole[db.len() as int] == rb[0]);
        assert(whole[db.len() as int] == da[db.len() as int]);
        assert(false);
    }
    assert(da =~= whole.subrange(0, da.len() as int));
    assert(db =~= whole.subrange(0, da.len() as int));
    lemma_dec_i64_injective(a, b);
    assert(ra =~= whole.subrange(da.len() as int, whole.len() as int));
    assert(rb =~= whole.subrange(da.len() as int, whole.len() as int));
}


/// Two equal concatenations with equally long heads agree part by part.
pub proof fn lemma_prefix_split(x1: Seq<char>, y1: Seq<char>, x2: Seq<char>, y2: Seq<char>)
    requires
        x1 + y1 == x2 + y2,
        x1.len() == x2.len(),
    ensures
        x1 == x2,
        y1 == y2,
{
    let w = x1 + y1;
    assert(x1 =~= w.subrange(0, x1.len() as int));
    assert(x2 =~= w.subrange(0, x1.len() as int));
    assert(y1 =~= w.subrange(x1.len() as int, w.len() as int));
    assert(y2 =~= w.subrange(x1.len() as int, w.len() as int));
}

} // verus!
