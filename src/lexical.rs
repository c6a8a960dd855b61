//! Tokens: ignored characters and comments, names, numbers and strings.
use vstd::prelude::*;
use vstd::std_specs::iter::IteratorSpec;
use crate::ast::{InputValue, Text, ValueModel};
use crate::magnitude::{float_too_large, float_too_large_at};
use crate::error::{agrees, fail, fault, syntax, ErrorKind, Expected, Fail, Fault};

verus! {

/// Characters skipped between tokens; commas are insignificant, as in GraphQL.
pub open spec fn is_blank(c: char) -> bool {
    c == ' ' || c == '\t' || c == '\n' || c == '\r' || c == ','
}

/// The first position at or after `p` that is neither blank nor inside a `#` comment.
pub open spec fn skip_from(s: Text, p: int, in_comment: bool) -> int
    decreases s.len() - p,
{
    if p < 0 || p >= s.len() {
        p
    } else if in_comment {
        skip_from(s, p + 1, s[p] != '\n')
    } else if is_blank(s[p]) {
        skip_from(s, p + 1, false)
    } else if s[p] == '#' {
        skip_from(s, p + 1, true)
    } else {
        p
    }
}

pub open spec fn skip(s: Text, p: int) -> int {
    skip_from(s, p, false)
}

pub open spec fn is_digit(c: char) -> bool {
    '0' <= c && c <= '9'
}

pub open spec fn is_name_start(c: char) -> bool {
    ('a' <= c && c <= 'z') || ('A' <= c && c <= 'Z') || c == '_'
}

pub open spec fn is_name_char(c: char) -> bool {
    is_name_start(c) || is_digit(c)
}

/// The character at `p` exists and is `c`.
pub open spec fn at(s: Text, p: int, c: char) -> bool {
    0 <= p < s.len() && s[p] == c
}

pub open spec fn name_at(s: Text, p: int) -> bool {
    0 <= p < s.len() && is_name_start(s[p])
}

pub open spec fn digit_at(s: Text, p: int) -> bool {
    0 <= p < s.len() && is_digit(s[p])
}

/// The end of the run of name characters that starts at `p`.
pub open spec fn name_end(s: Text, p: int) -> int
    decreases s.len() - p,
{
    if 0 <= p < s.len() && is_name_char(s[p]) {
        name_end(s, p + 1)
    } else {
        p
    }
}

/// The end of the run of digits that starts at `p`.
pub open spec fn digits_end(s: Text, p: int) -> int
    decreases s.len() - p,
{
    if digit_at(s, p) {
        digits_end(s, p + 1)
    } else {
        p
    }
}

/// The name that starts at `p`.
pub open spec fn name_text(s: Text, p: int) -> Text {
    s.subrange(p, name_end(s, p))
}

/// The decimal value of the digits in `s[from..to]`.
pub open spec fn digits_value(s: Text, from: int, to: int) -> int
    decreases to - from,
{
    if to <= from {
        0
    } else {
        digits_value(s, from, to - 1) * 10 + (s[to - 1] as int - '0' as int)
    }
}

pub open spec fn i64_limit(negative: bool) -> int {
    if negative {
        0x8000_0000_0000_0000
    } else {
        0x7fff_ffff_ffff_ffff
    }
}

/// The end of an optional exponent part at `p`, or the position of the missing digit.
pub open spec fn exponent_end(s: Text, p: int) -> Result<int, int> {
    if at(s, p, 'e') || at(s, p, 'E') {
        let r = if at(s, p + 1, '+') || at(s, p + 1, '-') {
            p + 2
        } else {
            p + 1
        };
        if digit_at(s, r) {
            Ok(digits_end(s, r))
        } else {
            Err(r)
        }
    } else {
        Ok(p)
    }
}

/// The shape of a numeric literal at `p`, whatever its magnitude: whether it
/// is a float (it has a fraction or an exponent), and the position after it
/// and the blanks that follow.
pub open spec fn numeral(s: Text, p: int) -> Result<(bool, int), Fail> {
    let q = if at(s, p, '-') {
        p + 1
    } else {
        p
    };
    if !digit_at(s, q) {
        Err((ErrorKind::Syntax(Expected::Digit), q))
    } else {
        let ie = if s[q] == '0' {
            q + 1
        } else {
            digits_end(s, q)
        };
        let has_frac = at(s, ie, '.');
        if has_frac && !digit_at(s, ie + 1) {
            Err((ErrorKind::Syntax(Expected::Digit), ie + 1))
        } else {
            let fe = if has_frac {
                digits_end(s, ie + 1)
            } else {
                ie
            };
            match exponent_end(s, fe) {
                Err(r) => Err((ErrorKind::Syntax(Expected::Digit), r)),
                Ok(ee) => Ok((has_frac || ee != fe, skip(s, ee))),
            }
        }
    }
}

/// The signed value of the exponent part `s[fe..ee]`, or 0 where there is none.
pub open spec fn exponent_value(s: Text, fe: int, ee: int) -> int {
    if ee == fe {
        0
    } else {
        let r = if at(s, fe + 1, '+') || at(s, fe + 1, '-') {
            fe + 2
        } else {
            fe + 1
        };
        if at(s, fe + 1, '-') {
            -digits_value(s, r, ee)
        } else {
            digits_value(s, r, ee)
        }
    }
}

/// A numeric literal at `p`: an integer, or a float when it has a fraction or
/// an exponent. A float keeps its numeral and must be below the magnitude at
/// which an `f64` overflows; an integer must fit in `i64`.
#[verifier::opaque]
pub open spec fn number(s: Text, p: int) -> Result<(ValueModel, int), Fail> {
    let negative = at(s, p, '-');
    let q = if negative {
        p + 1
    } else {
        p
    };
    if !digit_at(s, q) {
        syntax(Expected::Digit, q)
    } else {
        let ie = if s[q] == '0' {
            q + 1
        } else {
            digits_end(s, q)
        };
        let has_frac = at(s, ie, '.');
        if has_frac && !digit_at(s, ie + 1) {
            syntax(Expected::Digit, ie + 1)
        } else {
            let fe = if has_frac {
                digits_end(s, ie + 1)
            } else {
                ie
            };
            match exponent_end(s, fe) {
                Err(r) => syntax(Expected::Digit, r),
                Ok(ee) => if has_frac || ee != fe {
                    let fs = if has_frac {
                        ie + 1
                    } else {
                        fe
                    };
                    if float_too_large(s.subrange(q, ie) + s.subrange(fs, fe), (ie - q) + exponent_value(s, fe, ee)) {
                        fail(ErrorKind::Range, p)
                    } else {
                        Ok((ValueModel::Float(s.subrange(p, ee)), skip(s, ee)))
                    }
                } else {
                    let v = digits_value(s, q, ie);
                    if v > i64_limit(negative) {
                        fail(ErrorKind::Range, p)
                    } else {
                        Ok((ValueModel::Int(if negative { -v } else { v }), skip(s, ie)))
                    }
                },
            }
        }
    }
}

pub open spec fn hex_value(c: char) -> int {
    if is_digit(c) {
        c as int - '0' as int
    } else if 'a' <= c && c <= 'f' {
        c as int - 'a' as int + 10
    } else if 'A' <= c && c <= 'F' {
        c as int - 'A' as int + 10
    } else {
        -1
    }
}

/// The value of the four hex digits at `p`, if there are four.
pub open spec fn hex4(s: Text, p: int) -> Option<int> {
    if 0 <= p && p + 4 <= s.len() && hex_value(s[p]) >= 0 && hex_value(s[p + 1]) >= 0
        && hex_value(s[p + 2]) >= 0 && hex_value(s[p + 3]) >= 0 {
        Some(
            hex_value(s[p]) * 4096 + hex_value(s[p + 1]) * 256 + hex_value(s[p + 2]) * 16
                + hex_value(s[p + 3]),
        )
    } else {
        None
    }
}

/// The character whose scalar value is `v`.
pub open spec fn scalar(v: int) -> char {
    choose|c: char| code_of(c) == v
}

pub open spec fn code_of(c: char) -> int {
    c as int
}

pub open spec fn is_high_surrogate(v: int) -> bool {
    0xd800 <= v <= 0xdbff
}

pub open spec fn is_low_surrogate(v: int) -> bool {
    0xdc00 <= v <= 0xdfff
}

/// The character that the single-letter escape `\e` stands for.
pub open spec fn simple_escape(e: char) -> Option<char> {
    if e == '"' || e == '\\' || e == '/' {
        Some(e)
    } else if e == 'b' {
        Some('\u{8}')
    } else if e == 'f' {
        Some('\u{c}')
    } else if e == 'n' {
        Some('\n')
    } else if e == 'r' {
        Some('\r')
    } else if e == 't' {
        Some('\t')
    } else {
        None
    }
}

/// The escape sequence whose `\` stands at `p`: the character it denotes and
/// the position after it. A high surrogate must be followed by an escaped low
/// surrogate, and the two make one character.
pub open spec fn escape(s: Text, p: int) -> Result<(char, int), Fail> {
    if !at(s, p, '\\') || p + 1 >= s.len() {
        fail(ErrorKind::InvalidEscape, p)
    } else if simple_escape(s[p + 1]) is Some {
        Ok((simple_escape(s[p + 1])->0, p + 2))
    } else if s[p + 1] != 'u' {
        fail(ErrorKind::InvalidEscape, p)
    } else {
        match hex4(s, p + 2) {
            None => fail(ErrorKind::InvalidEscape, p),
            Some(v) => if is_high_surrogate(v) {
                if at(s, p + 6, '\\') && at(s, p + 7, 'u') && hex4(s, p + 8) is Some
                    && is_low_surrogate(hex4(s, p + 8)->0) {
                    let w = hex4(s, p + 8)->0;
                    Ok((scalar(0x10000 + (v - 0xd800) * 1024 + (w - 0xdc00)), p + 12))
                } else {
                    fail(ErrorKind::InvalidEscape, p)
                }
            } else if is_low_surrogate(v) {
                fail(ErrorKind::InvalidEscape, p)
            } else {
                Ok((scalar(v), p + 6))
            },
        }
    }
}

/// The rest of a string literal from `p`, decoded and appended to `acc`,
/// and the position after the closing quote.
pub open spec fn string_rest(s: Text, p: int, acc: Text) -> Result<(Text, int), Fail>
    decreases s.len() - p,
{
    if p < 0 || p >= s.len() {
        syntax(Expected::Char('"'), p)
    } else if s[p] == '"' {
        Ok((acc, p + 1))
    } else if s[p] == '\\' {
        match escape(s, p) {
            Err(f) => Err(f),
            Ok((c, e)) => if p < e {
                string_rest(s, e, acc.push(c))
            } else {
                fail(ErrorKind::InvalidEscape, p)
            },
        }
    } else {
        string_rest(s, p + 1, acc.push(s[p]))
    }
}

/// A string literal whose opening quote stands at `p`.
pub open spec fn string_literal(s: Text, p: int) -> Result<(ValueModel, int), Fail> {
    if !at(s, p, '"') {
        syntax(Expected::Char('"'), p)
    } else {
        match string_rest(s, p + 1, Seq::empty()) {
            Err(f) => Err(f),
            Ok((t, e)) => Ok((ValueModel::Str(t), skip(s, e))),
        }
    }
}

// ---------------------------------------------------------------------------
// Executable scanners
/// Relies on `String::push`: appends one character.
#[verifier::external_body]
fn push_char(s: &mut String, c: char)
    ensures
        final(s)@ == old(s)@.push(c),
{
    s.push(c)
}

/// Relies on `char::from_u32`: the character with scalar value `v`, if `v` is one.
#[verifier::external_body]
fn char_from_u32(v: u32) -> (r: Option<char>)
    ensures
        r is Some <==> (v < 0xd800 || (0xe000 <= v && v <= 0x10ffff)),
        r matches Some(c) ==> c as int == v as int,
{
    char::from_u32(v)
}

pub fn skip_blank(s: &Vec<char>, p: usize) -> (e: usize)
    requires
        p <= s.len(),
    ensures
        e as int == skip(s@, p as int),
        p <= e <= s.len(),
{
    let mut i = p;
    let mut in_comment = false;
    while i < s.len()
        invariant
            p <= i <= s.len(),
            skip_from(s@, i as int, in_comment) == skip(s@, p as int),
        decreases s.len() - i,
    {
        let c = s[i];
        if in_comment {
            in_comment = c != '\n';
        } else if c == ' ' || c == '\t' || c == '\n' || c == '\r' || c == ',' {
        } else if c == '#' {
            in_comment = true;
        } else {
            return i;
        }
        i = i + 1;
    }
    i
}

pub fn is_name_start_char(c: char) -> (r: bool)
    ensures
        r == is_name_start(c),
{
    ('a' <= c && c <= 'z') || ('A' <= c && c <= 'Z') || c == '_'
}

pub fn is_digit_char(c: char) -> (r: bool)
    ensures
        r == is_digit(c),
{
    '0' <= c && c <= '9'
}

pub fn char_at(s: &Vec<char>, p: usize, c: char) -> (r: bool)
    ensures
        r == at(s@, p as int, c),
{
    p < s.len() && s[p] == c
}

pub fn name_start_at(s: &Vec<char>, p: usize) -> (r: bool)
    ensures
        r == name_at(s@, p as int),
{
    p < s.len() && is_name_start_char(s[p])
}

pub fn digit_at_exec(s: &Vec<char>, p: usize) -> (r: bool)
    ensures
        r == digit_at(s@, p as int),
{
    p < s.len() && is_digit_char(s[p])
}

pub fn scan_name(s: &Vec<char>, p: usize) -> (e: usize)
    requires
        p <= s.len(),
    ensures
        e as int == name_end(s@, p as int),
        p <= e <= s.len(),
        name_at(s@, p as int) ==> p < e,
{
    let mut i = p;
    while i < s.len() && (is_name_start_char(s[i]) || is_digit_char(s[i]))
        invariant
            p <= i <= s.len(),
            name_end(s@, i as int) == name_end(s@, p as int),
        decreases s.len() - i,
    {
        i = i + 1;
    }
    i
}

pub fn scan_digits(s: &Vec<char>, p: usize) -> (e: usize)
    requires
        p <= s.len(),
    ensures
        e as int == digits_end(s@, p as int),
        p <= e <= s.len(),
{
    let mut i = p;
    while digit_at_exec(s, i)
        invariant
            p <= i <= s.len(),
            digits_end(s@, i as int) == digits_end(s@, p as int),
        decreases s.len() - i,
    {
        i = i + 1;
    }
    i
}

/// The characters `s[from..to]` as a `String`.
pub fn text_of(s: &Vec<char>, from: usize, to: usize) -> (r: String)
    requires
        from <= to <= s.len(),
    ensures
        r@ == s@.subrange(from as int, to as int),
{
    let mut r = String::new();
    let mut i = from;
    while i < to
        invariant
            from <= i <= to <= s.len(),
            r@ == s@.subrange(from as int, i as int),
        decreases to - i,
    {
        push_char(&mut r, s[i]);
        assert(s@.subrange(from as int, i + 1) =~= s@.subrange(from as int, i as int).push(s@[i as int]));
        i = i + 1;
    }
    r
}

/// Whether `s[from..to]` spells `w`.
pub fn span_is(s: &Vec<char>, from: usize, to: usize, w: &[char]) -> (r: bool)
    requires
        from <= to <= s.len(),
    ensures
        r == (s@.subrange(from as int, to as int) == w@),
{
    if to - from != w.len() {
        return false;
    }
    let mut i: usize = 0;
    while i < w.len()
        invariant
            to - from == w.len(),
            from <= to <= s.len(),
            i <= w.len(),
            forall|k: int| 0 <= k < i ==> s@[from + k] == w@[k],
        decreases w.len() - i,
    {
        if s[from + i] != w[i] {
            assert(s@.subrange(from as int, to as int)[i as int] != w@[i as int]);
            return false;
        }
        i = i + 1;
    }
    assert(s@.subrange(from as int, to as int) =~= w@);
    true
}

pub proof fn lemma_digit_run(s: Text, p: int)
    requires
        0 <= p <= s.len(),
    ensures
        p <= digits_end(s, p) <= s.len(),
        forall|k: int| p <= k < digits_end(s, p) ==> #[trigger] is_digit(s[k]),
    decreases s.len() - p,
{
    if digit_at(s, p) {
        lemma_digit_run(s, p + 1);
    }
}

/// A numeric literal at `p`, which holds `-` or a digit.
pub fn parse_number(s: &Vec<char>, p: usize) -> (r: Result<(InputValue, usize), Fault>)
    requires
        p < s.len(),
    ensures
        agrees(r, number(s@, p as int), |v: InputValue| v.model()),
        r matches Ok((_, e)) ==> p < e <= s.len(),
{
    reveal(number);
    let negative = char_at(s, p, '-');
    let q = if negative { p + 1 } else { p };
    if !digit_at_exec(s, q) {
        return fault(ErrorKind::Syntax(Expected::Digit), q);
    }
    let ie = if s[q] == '0' { q + 1 } else { scan_digits(s, q) };
    proof {
        lemma_digit_run(s@, q as int);
        lemma_digit_run(s@, q + 1);
    }
    let has_frac = char_at(s, ie, '.');
    if has_frac && !digit_at_exec(s, ie + 1) {
        return fault(ErrorKind::Syntax(Expected::Digit), ie + 1);
    }
    let fe = if has_frac { scan_digits(s, ie + 1) } else { ie };
    if has_frac {
        proof {
            lemma_digit_run(s@, ie + 1);
        }
    }
    let ee;
    let xs;
    let xneg;
    if char_at(s, fe, 'e') || char_at(s, fe, 'E') {
        let r = if char_at(s, fe + 1, '+') || char_at(s, fe + 1, '-') { fe + 2 } else { fe + 1 };
        if !digit_at_exec(s, r) {
            return fault(ErrorKind::Syntax(Expected::Digit), r);
        }
        ee = scan_digits(s, r);
        proof {
            lemma_digit_run(s@, r as int);
        }
        xs = r;
        xneg = char_at(s, fe + 1, '-');
    } else {
        ee = fe;
        xs = fe;
        xneg = false;
    }
    if has_frac || ee != fe {
        let fs = if has_frac { ie + 1 } else { fe };
        if float_too_large_at(s, q, ie, fs, fe, xs, ee, xneg) {
            return fault(ErrorKind::Range, p);
        }
        return Ok((InputValue::Float(text_of(s, p, ee)), skip_blank(s, ee)));
    }
    let limit: u64 = if negative { 0x8000_0000_0000_0000 } else { 0x7fff_ffff_ffff_ffff };
    let mut acc: u64 = 0;
    let mut over = false;
    let mut i = q;
    while i < ie
        invariant
            q <= i <= ie <= s.len(),
            limit as int == i64_limit(negative),
            forall|k: int| q <= k < ie ==> #[trigger] is_digit(s@[k]),
            digits_value(s@, q as int, i as int) >= 0,
            !over ==> acc as int == digits_value(s@, q as int, i as int) && acc <= limit,
            over ==> digits_value(s@, q as int, i as int) > limit,
        decreases ie - i,
    {
        assert(is_digit(s@[i as int]));
        let d = (s[i] as u32 - '0' as u32) as u64;
        let ghost before = digits_value(s@, q as int, i as int);
        assert(digits_value(s@, q as int, i + 1) == before * 10 + d);
        assert(before * 10 + d >= before) by (nonlinear_arith)
            requires before >= 0, d >= 0;
        if !over {
            if acc > (limit - d) / 10 {
                assert(before * 10 + d > limit) by (nonlinear_arith)
                    requires before == acc, acc > (limit - d) / 10, d <= 9, limit >= 9;
                over = true;
            } else {
                assert(acc * 10 + d <= limit) by (nonlinear_arith)
                    requires acc <= (limit - d) / 10, d <= 9, limit >= 9;
                acc = acc * 10 + d;
            }
        }
        i = i + 1;
    }
    if over {
        return fault(ErrorKind::Range, p);
    }
    let v: i64 = if !negative {
        acc as i64
    } else if acc == 0x8000_0000_0000_0000 {
        i64::MIN
    } else {
        -(acc as i64)
    };
    Ok((InputValue::Int(v), skip_blank(s, ie)))
}

fn hex_digit(c: char) -> (r: i32)
    ensures
        r == hex_value(c),
{
    if '0' <= c && c <= '9' {
        (c as u32 - '0' as u32) as i32
    } else if 'a' <= c && c <= 'f' {
        (c as u32 - 'a' as u32 + 10) as i32
    } else if 'A' <= c && c <= 'F' {
        (c as u32 - 'A' as u32 + 10) as i32
    } else {
        -1
    }
}

fn hex4_at(s: &Vec<char>, p: usize) -> (r: Option<u32>)
    ensures
        r matches Some(v) ==> hex4(s@, p as int) == Some(v as int),
        r is None ==> hex4(s@, p as int) is None,
{
    if p > s.len() || s.len() - p < 4 {
        return None;
    }
    let a = hex_digit(s[p]);
    let b = hex_digit(s[p + 1]);
    let c = hex_digit(s[p + 2]);
    let d = hex_digit(s[p + 3]);
    if a < 0 || b < 0 || c < 0 || d < 0 {
        return None;
    }
    Some((a * 4096 + b * 256 + c * 16 + d) as u32)
}

fn scalar_char(v: u32) -> (c: char)
    requires
        v < 0xd800 || (0xe000 <= v && v <= 0x10ffff),
    ensures
        c == scalar(v as int),
{
    let r = char_from_u32(v);
    let c = r.unwrap();
    assert(code_of(c) == v as int);
    c
}

/// The escape sequence whose `\` stands at `p`.
pub fn parse_escape(s: &Vec<char>, p: usize) -> (r: Result<(char, usize), Fault>)
    requires
        p < s.len(),
    ensures
        agrees(r, escape(s@, p as int), |c: char| c),
        r matches Ok((_, e)) ==> p < e <= s.len(),
{
    if s[p] != '\\' || p + 1 >= s.len() {
        return fault(ErrorKind::InvalidEscape, p);
    }
    let e = s[p + 1];
    let simple = if e == '"' || e == '\\' || e == '/' {
        Some(e)
    } else if e == 'b' {
        Some('\u{8}')
    } else if e == 'f' {
        Some('\u{c}')
    } else if e == 'n' {
        Some('\n')
    } else if e == 'r' {
        Some('\r')
    } else if e == 't' {
        Some('\t')
    } else {
        None
    };
    assert(simple == simple_escape(e));
    if let Some(c) = simple {
        return Ok((c, p + 2));
    }
    if e != 'u' {
        return fault(ErrorKind::InvalidEscape, p);
    }
    match hex4_at(s, p + 2) {
        None => fault(ErrorKind::InvalidEscape, p),
        Some(v) => {
            if 0xd800 <= v && v <= 0xdbff {
                if char_at(s, p + 6, '\\') && char_at(s, p + 7, 'u') {
                    match hex4_at(s, p + 8) {
                        Some(w) => {
                            if 0xdc00 <= w && w <= 0xdfff {
                                let code = 0x10000 + (v - 0xd800) * 1024 + (w - 0xdc00);
                                return Ok((scalar_char(code), p + 12));
                            }
                        },
                        None => {},
                    }
                }
                fault(ErrorKind::InvalidEscape, p)
            } else if 0xdc00 <= v && v <= 0xdfff {
                fault(ErrorKind::InvalidEscape, p)
            } else {
                Ok((scalar_char(v), p + 6))
            }
        },
    }
}

/// A string literal whose opening quote stands at `p`, with its escapes decoded.
pub fn parse_string(s: &Vec<char>, p: usize) -> (r: Result<(InputValue, usize), Fault>)
    requires
        p <= s.len(),
    ensures
        agrees(r, string_literal(s@, p as int), |v: InputValue| v.model()),
        r matches Ok((_, e)) ==> p < e <= s.len(),
{
    if !char_at(s, p, '"') {
        return fault(ErrorKind::Syntax(Expected::Char('"')), p);
    }
    let mut out = String::new();
    let mut i = p + 1;
    loop
        invariant
            p + 1 <= i <= s.len(),
            at(s@, p as int, '"'),
            string_rest(s@, i as int, out@) == string_rest(s@, p + 1, Seq::empty()),
        decreases s.len() - i,
    {
        if i >= s.len() {
            return fault(ErrorKind::Syntax(Expected::Char('"')), i);
        }
        let c = s[i];
        if c == '"' {
            return Ok((InputValue::String(out), skip_blank(s, i + 1)));
        }
        if c == '\\' {
            match parse_escape(s, i) {
                Err(f) => {
                    return Err(f);
                },
                Ok((ch, e)) => {
                    push_char(&mut out, ch);
                    i = e;
                },
            }
        } else {
            push_char(&mut out, c);
            i = i + 1;
        }
    }
}

/// The characters of `s`, in order.
pub fn chars_of(s: &str) -> (r: Vec<char>)
    ensures
        r@ == s@,
{
    broadcast use vstd::string::axiom_spec_iter, vstd::string::next_postcondition;

    let mut it = s.chars();
    let mut v: Vec<char> = Vec::new();
    loop
        invariant
            v@ + it.remaining() == s@,
            it.obeys_prophetic_iter_laws(),
        ensures
            v@ == s@,
        decreases s@.len() - v@.len(),
    {
        match it.next() {
            Some(c) => {
                v.push(c);
            },
            None => {
                assert(it.remaining() =~= Seq::<char>::empty());
                assert(v@ + it.remaining() =~= v@);
                break ;
            },
        }
    }
    v
}

/// The shape of a numeric literal at `p`.
pub fn scan_numeral(s: &Vec<char>, p: usize) -> (r: Result<(bool, usize), Fault>)
    requires
        p < s.len(),
    ensures
        match r {
            Ok((f, e)) => numeral(s@, p as int) == Ok::<(bool, int), Fail>((f, e as int)),
            Err(x) => numeral(s@, p as int) == Err::<(bool, int), Fail>((x.kind, x.offset as int)),
        },
{
    let q = if char_at(s, p, '-') { p + 1 } else { p };
    if !digit_at_exec(s, q) {
        return fault(ErrorKind::Syntax(Expected::Digit), q);
    }
    let ie = if s[q] == '0' { q + 1 } else { scan_digits(s, q) };
    let has_frac = char_at(s, ie, '.');
    if has_frac && !digit_at_exec(s, ie + 1) {
        return fault(ErrorKind::Syntax(Expected::Digit), ie + 1);
    }
    let fe = if has_frac { scan_digits(s, ie + 1) } else { ie };
    let mut ee = fe;
    if char_at(s, fe, 'e') || char_at(s, fe, 'E') {
        let r = if char_at(s, fe + 1, '+') || char_at(s, fe + 1, '-') { fe + 2 } else { fe + 1 };
        if !digit_at_exec(s, r) {
            return fault(ErrorKind::Syntax(Expected::Digit), r);
        }
        ee = scan_digits(s, r);
    }
    Ok((has_frac || ee != fe, skip_blank(s, ee)))
}

} // verus!
