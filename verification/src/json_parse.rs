//! Reading JSON text: the grammar as spec functions over characters, and the
//! recursive-descent parser that follows it.
use vstd::prelude::*;
use crate::json::{Json, JsonModel};
use crate::number::{is_num_char, parse_milli};
use crate::number::{copy_range, read_milli};
use crate::text::{chars_of, char_from_u32, is_digit, is_scalar, is_whitespace, is_ws, push_char};

verus! {

/// Why a text is not JSON; positions count characters.
#[derive(Clone, Copy, Debug, PartialEq, Eq)]
pub enum JsonError {
    /// No value can start here (or the text ended).
    UnexpectedChar(usize),
    /// `true`, `false` or `null` is misspelt; the first wrong position.
    ExpectedLiteral(usize),
    /// A number token that is not a number.
    BadNumber,
    /// An object key that does not start with `"`.
    ExpectedString(usize),
    /// The text ends inside a string.
    UnterminatedString,
    /// The text ends inside a `\u` escape.
    UnterminatedEscape,
    /// A `\u` escape holds a non-hex digit.
    BadEscape,
    /// A backslash before a character with no escape meaning.
    UnknownEscape(char),
    /// After an array item comes neither `,` nor `]`.
    ArraySeparator(usize),
    /// An object key is not followed by `:`.
    MissingColon(usize),
    /// After an object member comes neither `,` nor `}`.
    ObjectSeparator(usize),
}

/// First position at or after `p` that is not whitespace.
pub open spec fn ws_end(s: Seq<char>, p: int) -> int
    decreases s.len() - p,
{
    if 0 <= p < s.len() && is_ws(s[p]) {
        ws_end(s, p + 1)
    } else {
        p
    }
}

pub proof fn lemma_ws_end(s: Seq<char>, p: int)
    requires
        0 <= p <= s.len(),
    ensures
        p <= ws_end(s, p) <= s.len(),
        ws_end(s, p) < s.len() ==> !is_ws(s[ws_end(s, p)]),
        forall|k: int| p <= k < ws_end(s, p) ==> is_ws(#[trigger] s[k]),
    decreases s.len() - p,
{
    if p < s.len() && is_ws(s[p]) {
        lemma_ws_end(s, p + 1);
    }
}

/// End of the run of number characters that starts at `p`.
pub open spec fn num_end(s: Seq<char>, p: int) -> int
    decreases s.len() - p,
{
    if 0 <= p < s.len() && is_num_char(s[p]) {
        num_end(s, p + 1)
    } else {
        p
    }
}

pub proof fn lemma_num_end(s: Seq<char>, p: int)
    requires
        0 <= p <= s.len(),
    ensures
        p <= num_end(s, p) <= s.len(),
        num_end(s, p) < s.len() ==> !is_num_char(s[num_end(s, p)]),
    decreases s.len() - p,
{
    if p < s.len() && is_num_char(s[p]) {
        lemma_num_end(s, p + 1);
    }
}

/// How many characters of `lit` match the text from `p`, counting from `k`.
pub open spec fn lit_match(s: Seq<char>, p: int, lit: Seq<char>, k: int) -> int
    decreases lit.len() - k,
{
    if 0 <= k < lit.len() && 0 <= p + k < s.len() && s[p + k] == lit[k] {
        lit_match(s, p, lit, k + 1)
    } else {
        k
    }
}

pub open spec fn parse_literal(s: Seq<char>, p: int, lit: Seq<char>, v: JsonModel) -> Result<
    (JsonModel, int),
    JsonError,
> {
    let k = lit_match(s, p, lit, 0);
    if k == lit.len() {
        Ok((v, p + k))
    } else {
        Err(JsonError::ExpectedLiteral((p + k) as usize))
    }
}

pub open spec fn parse_number(s: Seq<char>, p: int) -> Result<(JsonModel, int), JsonError> {
    let e = num_end(s, p);
    match parse_milli(s.subrange(p, e)) {
        Some(m) => Ok((JsonModel::Num(m), e)),
        None => Err(JsonError::BadNumber),
    }
}

pub open spec fn hex_val(c: char) -> Option<nat> {
    if '0' <= c && c <= '9' {
        Some((c as int - '0' as int) as nat)
    } else if 'a' <= c && c <= 'f' {
        Some((c as int - 'a' as int + 10) as nat)
    } else if 'A' <= c && c <= 'F' {
        Some((c as int - 'A' as int + 10) as nat)
    } else {
        None
    }
}

/// Reads the hex digits of a `\u` escape at `q`, from the `k`-th on.
pub open spec fn hex_acc(s: Seq<char>, q: int, k: int, acc: nat) -> Result<nat, JsonError>
    decreases 4 - k,
{
    if k >= 4 {
        Ok(acc)
    } else if q + k < 0 || q + k >= s.len() {
        Err(JsonError::UnterminatedEscape)
    } else {
        match hex_val(s[q + k]) {
            None => Err(JsonError::BadEscape),
            Some(d) => hex_acc(s, q, k + 1, acc * 16 + d),
        }
    }
}

/// The character a `\u` escape stands for; `?` for a lone surrogate.
pub open spec fn code_char(code: nat) -> char {
    if is_scalar(code) {
        code as char
    } else {
        '?'
    }
}

pub open spec fn simple_escape(e: char) -> Option<char> {
    if e == '"' {
        Some('"')
    } else if e == '\\' {
        Some('\\')
    } else if e == '/' {
        Some('/')
    } else if e == 'b' {
        Some('\u{8}')
    } else if e == 'f' {
        Some('\u{c}')
    } else if e == 'n' {
        Some('\n')
    } else if e == 'r' {
        Some('\r')
    } else if e == 't' {
        Some('\t')
    } else {
        None
    }
}

/// The rest of a string body from `p`, with `acc` already read.
pub open spec fn str_body(s: Seq<char>, p: int, acc: Seq<char>) -> Result<(Seq<char>, int), JsonError>
    decreases s.len() - p,
{
    if p < 0 || p >= s.len() {
        Err(JsonError::UnterminatedString)
    } else if s[p] == '"' {
        Ok((acc, p + 1))
    } else if s[p] == '\\' {
        if p + 1 >= s.len() {
            Err(JsonError::UnterminatedString)
        } else {
            let e = s[p + 1];
            match simple_escape(e) {
                Some(c) => str_body(s, p + 2, acc.push(c)),
                None => if e == 'u' {
                    match hex_acc(s, p + 2, 0, 0) {
                        Ok(code) => {
                            proof {
                                lemma_hex_acc_ok(s, p + 2, 0, 0);
                            }
                            str_body(s, p + 6, acc.push(code_char(code)))
                        },
                        Err(x) => Err(x),
                    }
                } else {
                    Err(JsonError::UnknownEscape(e))
                },
            }
        }
    } else {
        str_body(s, p + 1, acc.push(s[p]))
    }
}

/// A string at `p`, quotes included.
pub open spec fn parse_string(s: Seq<char>, p: int) -> Result<(Seq<char>, int), JsonError> {
    if 0 <= p < s.len() && s[p] == '"' {
        str_body(s, p + 1, Seq::empty())
    } else {
        Err(JsonError::ExpectedString(p as usize))
    }
}

pub proof fn lemma_hex_acc_ok(s: Seq<char>, q: int, k: int, acc: nat)
    requires
        0 <= k <= 4,
        0 <= q + k <= s.len(),
        hex_acc(s, q, k, acc) is Ok,
    ensures
        q + 4 <= s.len(),
    decreases 4 - k,
{
    if k < 4 {
        let d = hex_val(s[q + k]);
        lemma_hex_acc_ok(s, q, k + 1, acc * 16 + d->0);
    }
}

pub proof fn lemma_str_body(s: Seq<char>, p: int, acc: Seq<char>)
    requires
        0 <= p,
        str_body(s, p, acc) is Ok,
    ensures
        str_body(s, p, acc) matches Ok((_, e)) && p < e <= s.len(),
    decreases s.len() - p,
{
    if s[p] == '"' {
    } else if s[p] == '\\' {
        let e = s[p + 1];
        match simple_escape(e) {
            Some(c) => lemma_str_body(s, p + 2, acc.push(c)),
            None => {
                if let Ok(code) = hex_acc(s, p + 2, 0, 0) {
                    lemma_hex_acc_ok(s, p + 2, 0, 0);
                    lemma_str_body(s, p + 6, acc.push(code_char(code)));
                }
            },
        }
    } else {
        lemma_str_body(s, p + 1, acc.push(s[p]));
    }
}

/// A value after optional whitespace at `p`.
pub open spec fn parse_value(s: Seq<char>, p: int) -> Result<(JsonModel, int), JsonError>
    decreases s.len() - p, 0int,
{
    if p < 0 || p > s.len() {
        Err(JsonError::UnexpectedChar(p as usize))
    } else {
        let q = ws_end(s, p);
        proof {
            lemma_ws_end(s, p);
        }
        if q >= s.len() {
            Err(JsonError::UnexpectedChar(q as usize))
        } else if s[q] == '{' {
            object_items(s, q + 1, Seq::empty())
        } else if s[q] == '[' {
            array_items(s, q + 1, Seq::empty())
        } else if s[q] == '"' {
            match parse_string(s, q) {
                Ok((t, r)) => Ok((JsonModel::Str(t), r)),
                Err(e) => Err(e),
            }
        } else if s[q] == 't' {
            parse_literal(s, q, seq!['t', 'r', 'u', 'e'], JsonModel::Bool(true))
        } else if s[q] == 'f' {
            parse_literal(s, q, seq!['f', 'a', 'l', 's', 'e'], JsonModel::Bool(false))
        } else if s[q] == 'n' {
            parse_literal(s, q, seq!['n', 'u', 'l', 'l'], JsonModel::Null)
        } else if s[q] == '-' || is_digit(s[q]) {
            parse_number(s, q)
        } else {
            Err(JsonError::UnexpectedChar(q as usize))
        }
    }
}

/// The items of an array from `p` (just after `[` or `,`), with `acc`
/// already read.
pub open spec fn array_items(s: Seq<char>, p: int, acc: Seq<JsonModel>) -> Result<
    (JsonModel, int),
    JsonError,
>
    decreases s.len() - p, 1int,
{
    if p < 0 || p > s.len() {
        Err(JsonError::ArraySeparator(p as usize))
    } else {
        let q = ws_end(s, p);
        proof {
            lemma_ws_end(s, p);
        }
        if q < s.len() && s[q] == ']' {
            Ok((JsonModel::Arr(acc), q + 1))
        } else {
            match parse_value(s, q) {
                Err(e) => Err(e),
                Ok((v, r)) => if r <= q || r > s.len() {
                    Err(JsonError::UnexpectedChar(q as usize))
                } else {
                    let t = ws_end(s, r);
                    proof {
                        lemma_ws_end(s, r);
                    }
                    if t < s.len() && s[t] == ',' {
                        array_items(s, t + 1, acc.push(v))
                    } else if t < s.len() && s[t] == ']' {
                        Ok((JsonModel::Arr(acc.push(v)), t + 1))
                    } else {
                        Err(JsonError::ArraySeparator(t as usize))
                    }
                },
            }
        }
    }
}

/// The members of an object from `p` (just after `{` or `,`), with `acc`
/// already read.
pub open spec fn object_items(s: Seq<char>, p: int, acc: Seq<(Seq<char>, JsonModel)>) -> Result<
    (JsonModel, int),
    JsonError,
>
    decreases s.len() - p, 1int,
{
    if p < 0 || p > s.len() {
        Err(JsonError::ObjectSeparator(p as usize))
    } else {
        let q = ws_end(s, p);
        proof {
            lemma_ws_end(s, p);
        }
        if q < s.len() && s[q] == '}' {
            Ok((JsonModel::Obj(acc), q + 1))
        } else {
            match parse_string(s, q) {
                Err(e) => Err(e),
                Ok((key, r)) => {
                    proof {
                        lemma_str_body(s, q + 1, Seq::empty());
                    }
                    let t = ws_end(s, r);
                    proof {
                        lemma_ws_end(s, r);
                    }
                    if t >= s.len() || s[t] != ':' {
                        Err(JsonError::MissingColon(t as usize))
                    } else {
                        match parse_value(s, t + 1) {
                            Err(e) => Err(e),
                            Ok((v, u)) => if u <= t + 1 || u > s.len() {
                                Err(JsonError::UnexpectedChar((t + 1) as usize))
                            } else {
                                let w = ws_end(s, u);
                                proof {
                                    lemma_ws_end(s, u);
                                }
                                if w < s.len() && s[w] == ',' {
                                    object_items(s, w + 1, acc.push((key, v)))
                                } else if w < s.len() && s[w] == '}' {
                                    Ok((JsonModel::Obj(acc.push((key, v))), w + 1))
                                } else {
                                    Err(JsonError::ObjectSeparator(w as usize))
                                }
                            },
                        }
                    }
                },
            }
        }
    }
}

/// What `Json::parse` gives for a text: a value after optional whitespace.
/// Whatever follows the value is not read.
pub open spec fn parse_text(s: Seq<char>) -> Result<JsonModel, JsonError> {
    match parse_value(s, 0) {
        Ok((v, _)) => Ok(v),
        Err(e) => Err(e),
    }
}

} // verus!

verus! {

proof fn lemma_array_items_end(s: Seq<char>, p: int, acc: Seq<JsonModel>)
    requires
        0 <= p <= s.len(),
        array_items(s, p, acc) is Ok,
    ensures
        array_items(s, p, acc) matches Ok((_, r)) && p < r <= s.len(),
    decreases s.len() - p,
{
    lemma_ws_end(s, p);
    let q = ws_end(s, p);
    if !(q < s.len() && s[q] == ']') {
        if let Ok((v, r)) = parse_value(s, q) {
            if r > q && r <= s.len() {
                lemma_ws_end(s, r);
                let t = ws_end(s, r);
                if t < s.len() && s[t] == ',' {
                    lemma_array_items_end(s, t + 1, acc.push(v));
                }
            }
        }
    }
}

proof fn lemma_object_items_end(s: Seq<char>, p: int, acc: Seq<(Seq<char>, JsonModel)>)
    requires
        0 <= p <= s.len(),
        object_items(s, p, acc) is Ok,
    ensures
        object_items(s, p, acc) matches Ok((_, r)) && p < r <= s.len(),
    decreases s.len() - p,
{
    lemma_ws_end(s, p);
    let q = ws_end(s, p);
    if !(q < s.len() && s[q] == '}') {
        if let Ok((key, r)) = parse_string(s, q) {
            lemma_str_body(s, q + 1, Seq::empty());
            lemma_ws_end(s, r);
            let t = ws_end(s, r);
            if let Ok((v, u)) = parse_value(s, t + 1) {
                if u > t + 1 && u <= s.len() {
                    lemma_ws_end(s, u);
                    let w = ws_end(s, u);
                    if w < s.len() && s[w] == ',' {
                        lemma_object_items_end(s, w + 1, acc.push((key, v)));
                    }
                }
            }
        }
    }
}

proof fn lemma_lit_match(s: Seq<char>, p: int, lit: Seq<char>, k: int)
    requires
        0 <= k <= lit.len(),
        0 <= p + k <= s.len(),
    ensures
        k <= lit_match(s, p, lit, k) <= lit.len(),
        p + lit_match(s, p, lit, k) <= s.len(),
    decreases lit.len() - k,
{
    if 0 <= k < lit.len() && 0 <= p + k < s.len() && s[p + k] == lit[k] {
        lemma_lit_match(s, p, lit, k + 1);
    }
}

/// A value read at `p` ends after its first non-blank character and within
/// the text.
pub proof fn lemma_value_end(s: Seq<char>, p: int)
    requires
        0 <= p <= s.len(),
        parse_value(s, p) is Ok,
    ensures
        parse_value(s, p) matches Ok((_, r)) && ws_end(s, p) < r <= s.len(),
{
    lemma_ws_end(s, p);
    let q = ws_end(s, p);
    if s[q] == '{' {
        lemma_object_items_end(s, q + 1, Seq::empty());
    } else if s[q] == '[' {
        lemma_array_items_end(s, q + 1, Seq::empty());
    } else if s[q] == '"' {
        lemma_str_body(s, q + 1, Seq::empty());
    } else if s[q] == 't' {
        lemma_lit_match(s, q, seq!['t', 'r', 'u', 'e'], 0);
        assert(lit_match(s, q, seq!['t', 'r', 'u', 'e'], 0) == 4);
    } else if s[q] == 'f' {
        lemma_lit_match(s, q, seq!['f', 'a', 'l', 's', 'e'], 0);
    } else if s[q] == 'n' {
        lemma_lit_match(s, q, seq!['n', 'u', 'l', 'l'], 0);
    } else {
        lemma_num_end(s, q + 1);
        assert(num_end(s, q) == num_end(s, q + 1));
    }
}

} // verus!

verus! {

fn number_char(c: char) -> (r: bool)
    ensures
        r == is_num_char(c),
{
    ('0' <= c && c <= '9') || c == '-' || c == '+' || c == '.' || c == 'e' || c == 'E'
}

/// The cursor of the recursive-descent reader.
struct Parser {
    chars: Vec<char>,
    pos: usize,
}

impl Parser {
    fn skip_ws(&mut self)
        requires
            old(self).pos <= old(self).chars.len(),
        ensures
            final(self).chars == old(self).chars,
            final(self).pos == ws_end(old(self).chars@, old(self).pos as int),
            old(self).pos <= final(self).pos <= final(self).chars.len(),
    {
        proof {
            lemma_ws_end(self.chars@, self.pos as int);
        }
        while self.pos < self.chars.len() && is_whitespace(self.chars[self.pos])
            invariant
                self.chars == old(self).chars,
                self.pos <= self.chars.len(),
                ws_end(self.chars@, old(self).pos as int) == ws_end(self.chars@, self.pos as int),
            decreases self.chars.len() - self.pos,
        {
            self.pos += 1;
        }
    }

    fn peek(&self) -> (r: Option<char>)
        ensures
            r == (if self.pos < self.chars.len() {
                Some(self.chars@[self.pos as int])
            } else {
                None
            }),
    {
        if self.pos < self.chars.len() {
            Some(self.chars[self.pos])
        } else {
            None
        }
    }

    fn literal(&mut self, lit: &Vec<char>, value: Json) -> (r: Result<Json, JsonError>)
        requires
            old(self).pos <= old(self).chars.len(),
        ensures
            final(self).chars == old(self).chars,
            final(self).pos <= final(self).chars.len(),
            match r {
                Ok(v) => parse_literal(old(self).chars@, old(self).pos as int, lit@, value.model())
                    == Ok::<(JsonModel, int), JsonError>((v.model(), final(self).pos as int)),
                Err(e) => parse_literal(old(self).chars@, old(self).pos as int, lit@, value.model())
                    == Err::<(JsonModel, int), JsonError>(e),
            },
    {
        let ghost s = self.chars@;
        let ghost p = self.pos as int;
        let mut k: usize = 0;
        while k < lit.len()
            invariant
                self.chars == old(self).chars,
                s == self.chars@,
                p == old(self).pos,
                k <= lit.len(),
                self.pos == p + k,
                self.pos <= self.chars.len(),
                lit_match(s, p, lit@, 0) == lit_match(s, p, lit@, k as int),
            decreases lit.len() - k,
        {
            if self.pos >= self.chars.len() || self.chars[self.pos] != lit[k] {
                return Err(JsonError::ExpectedLiteral(self.pos));
            }
            self.pos += 1;
            k += 1;
        }
        Ok(value)
    }

    fn number(&mut self) -> (r: Result<Json, JsonError>)
        requires
            old(self).pos <= old(self).chars.len(),
        ensures
            final(self).chars == old(self).chars,
            final(self).pos <= final(self).chars.len(),
            match r {
                Ok(v) => parse_number(old(self).chars@, old(self).pos as int) == Ok::<(JsonModel, int), JsonError>(
                    (v.model(), final(self).pos as int),
                ),
                Err(e) => parse_number(old(self).chars@, old(self).pos as int) == Err::<
                    (JsonModel, int),
                    JsonError,
                >(e),
            },
    {
        let start = self.pos;
        proof {
            lemma_num_end(self.chars@, start as int);
        }
        while self.pos < self.chars.len() && number_char(self.chars[self.pos])
            invariant
                self.chars == old(self).chars,
                start <= self.pos <= self.chars.len(),
                num_end(self.chars@, start as int) == num_end(self.chars@, self.pos as int),
            decreases self.chars.len() - self.pos,
        {
            self.pos += 1;
        }
        let tok = copy_range(&self.chars, start, self.pos);
        match read_milli(&tok) {
            Some(m) => Ok(Json::Num(m)),
            None => Err(JsonError::BadNumber),
        }
    }

    fn hex_digit(c: char) -> (r: Option<u32>)
        ensures
            match r {
                Some(d) => hex_val(c) == Some(d as nat) && d < 16,
                None => hex_val(c) is None,
            },
    {
        if '0' <= c && c <= '9' {
            Some(c as u32 - '0' as u32)
        } else if 'a' <= c && c <= 'f' {
            Some(c as u32 - 'a' as u32 + 10)
        } else if 'A' <= c && c <= 'F' {
            Some(c as u32 - 'A' as u32 + 10)
        } else {
            None
        }
    }

    fn string(&mut self) -> (r: Result<String, JsonError>)
        requires
            old(self).pos <= old(self).chars.len(),
        ensures
            final(self).chars == old(self).chars,
            final(self).pos <= final(self).chars.len(),
            match r {
                Ok(t) => parse_string(old(self).chars@, old(self).pos as int) == Ok::<(Seq<char>, int), JsonError>(
                    (t@, final(self).pos as int),
                ),
                Err(e) => parse_string(old(self).chars@, old(self).pos as int) == Err::<
                    (Seq<char>, int),
                    JsonError,
                >(e),
            },
    {
        let ghost s = self.chars@;
        if self.pos >= self.chars.len() || self.chars[self.pos] != '"' {
            return Err(JsonError::ExpectedString(self.pos));
        }
        self.pos += 1;
        let ghost start = self.pos as int;
        let mut out = String::new();
        while self.pos < self.chars.len()
            invariant
                self.chars == old(self).chars,
                s == self.chars@,
                self.pos <= self.chars.len(),
                parse_string(s, old(self).pos as int) == str_body(s, start, Seq::empty()),
                str_body(s, start, Seq::empty()) == str_body(s, self.pos as int, out@),
            decreases self.chars.len() - self.pos,
        {
            let c = self.chars[self.pos];
            let ghost p = self.pos as int;
            self.pos += 1;
            if c == '"' {
                return Ok(out);
            } else if c == '\\' {
                if self.pos >= self.chars.len() {
                    return Err(JsonError::UnterminatedString);
                }
                let e = self.chars[self.pos];
                self.pos += 1;
                if e == '"' {
                    push_char(&mut out, '"');
                } else if e == '\\' {
                    push_char(&mut out, '\\');
                } else if e == '/' {
                    push_char(&mut out, '/');
                } else if e == 'b' {
                    push_char(&mut out, '\u{8}');
                } else if e == 'f' {
                    push_char(&mut out, '\u{c}');
                } else if e == 'n' {
                    push_char(&mut out, '\n');
                } else if e == 'r' {
                    push_char(&mut out, '\r');
                } else if e == 't' {
                    push_char(&mut out, '\t');
                } else if e == 'u' {
                    let ghost q = self.pos as int;
                    let mut code: u32 = 0;
                    let mut k: usize = 0;
                    while k < 4
                        invariant
                            self.chars == old(self).chars,
                            s == self.chars@,
                            k <= 4,
                            q == p + 2,
                            0 <= p,
                            p + 1 < s.len(),
                            s[p] == '\\',
                            s[p + 1] == 'u',
                            parse_string(s, old(self).pos as int) == str_body(s, start, Seq::empty()),
                            str_body(s, start, Seq::empty()) == str_body(s, p, out@),
                            self.pos == q + k,
                            self.pos <= self.chars.len(),
                            code < 0x10000,
                            code < pow16(k as nat),
                            hex_acc(s, q, 0, 0) == hex_acc(s, q, k as int, code as nat),
                        decreases 4 - k,
                    {
                        if self.pos >= self.chars.len() {
                            return Err(JsonError::UnterminatedEscape);
                        }
                        let d = match Self::hex_digit(self.chars[self.pos]) {
                            Some(d) => d,
                            None => {
                                return Err(JsonError::BadEscape);
                            },
                        };
                        assert(pow16((k + 1) as nat) == 16 * pow16(k as nat));
                        assert(code * 16 + d < pow16((k + 1) as nat)) by (nonlinear_arith)
                            requires
                                code < pow16(k as nat),
                                d < 16,
                                pow16((k + 1) as nat) == 16 * pow16(k as nat),
                        ;
                        assert(pow16(4) == 0x10000) by {
                            reveal_with_fuel(pow16, 5);
                        }
                        proof {
                            lemma_pow16_mono((k + 1) as nat, 4);
                        }
                        code = code * 16 + d;
                        self.pos += 1;
                        k += 1;
                    }
                    let ch = match char_from_u32(code) {
                        Some(ch) => ch,
                        None => '?',
                    };
                    push_char(&mut out, ch);
                } else {
                    return Err(JsonError::UnknownEscape(e));
                }
            } else {
                push_char(&mut out, c);
            }
        }
        Err(JsonError::UnterminatedString)
    }
}

pub open spec fn pow16(k: nat) -> nat
    decreases k,
{
    if k == 0 {
        1
    } else {
        16 * pow16((k - 1) as nat)
    }
}

proof fn lemma_pow16_mono(i: nat, j: nat)
    requires
        i <= j,
    ensures
        pow16(i) <= pow16(j),
    decreases j,
{
    if i < j {
        lemma_pow16_mono(i, (j - 1) as nat);
    }
}

} // verus!

verus! {

impl Parser {
    fn value(&mut self) -> (r: Result<Json, JsonError>)
        requires
            old(self).pos <= old(self).chars.len(),
        ensures
            final(self).chars == old(self).chars,
            final(self).pos <= final(self).chars.len(),
            match r {
                Ok(v) => parse_value(old(self).chars@, old(self).pos as int) == Ok::<
                    (JsonModel, int),
                    JsonError,
                >((v.model(), final(self).pos as int)),
                Err(e) => parse_value(old(self).chars@, old(self).pos as int) == Err::<
                    (JsonModel, int),
                    JsonError,
                >(e),
            },
        decreases old(self).chars.len() - old(self).pos, 0int,
    {
        self.skip_ws();
        match self.peek() {
            Some('{') => self.object(),
            Some('[') => self.array(),
            Some('"') => match self.string() {
                Ok(t) => Ok(Json::Str(t)),
                Err(e) => Err(e),
            },
            Some('t') => self.literal(&vec!['t', 'r', 'u', 'e'], Json::Bool(true)),
            Some('f') => self.literal(&vec!['f', 'a', 'l', 's', 'e'], Json::Bool(false)),
            Some('n') => self.literal(&vec!['n', 'u', 'l', 'l'], Json::Null),
            Some(ch) => {
                if ch == '-' || ('0' <= ch && ch <= '9') {
                    self.number()
                } else {
                    Err(JsonError::UnexpectedChar(self.pos))
                }
            },
            None => Err(JsonError::UnexpectedChar(self.pos)),
        }
    }

    fn array(&mut self) -> (r: Result<Json, JsonError>)
        requires
            old(self).pos < old(self).chars.len(),
        ensures
            final(self).chars == old(self).chars,
            final(self).pos <= final(self).chars.len(),
            match r {
                Ok(v) => array_items(old(self).chars@, old(self).pos + 1, Seq::empty()) == Ok::<
                    (JsonModel, int),
                    JsonError,
                >((v.model(), final(self).pos as int)),
                Err(e) => array_items(old(self).chars@, old(self).pos + 1, Seq::empty()) == Err::<
                    (JsonModel, int),
                    JsonError,
                >(e),
            },
        decreases old(self).chars.len() - (old(self).pos + 1), 1int,
    {
        let ghost s = self.chars@;
        self.pos += 1;
        let ghost start = self.pos as int;
        let mut items: Vec<Json> = Vec::new();
        loop
            invariant
                self.chars == old(self).chars,
                s == self.chars@,
                start == old(self).pos + 1,
                start <= self.pos <= self.chars.len(),
                array_items(s, start, Seq::empty()) == array_items(
                    s,
                    self.pos as int,
                    Json::models(items@),
                ),
            decreases self.chars.len() - self.pos,
        {
            let ghost p = self.pos as int;
            self.skip_ws();
            if self.pos < self.chars.len() && self.chars[self.pos] == ']' {
                self.pos += 1;
                return Ok(Json::Arr(items));
            }
            let ghost q = self.pos as int;
            let v = match self.value() {
                Ok(v) => v,
                Err(e) => {
                    return Err(e);
                },
            };
            proof {
                lemma_value_end(s, q);
                lemma_ws_end(s, q);
            }
            self.skip_ws();
            let ghost old_items = items@;
            let ghost vm = v.model();
            if self.pos < self.chars.len() && self.chars[self.pos] == ',' {
                self.pos += 1;
                items.push(v);
                assert(items@.drop_last() =~= old_items);
                assert(Json::models(items@) == Json::models(old_items).push(vm));
            } else if self.pos < self.chars.len() && self.chars[self.pos] == ']' {
                self.pos += 1;
                items.push(v);
                assert(items@.drop_last() =~= old_items);
                assert(Json::models(items@) == Json::models(old_items).push(vm));
                return Ok(Json::Arr(items));
            } else {
                return Err(JsonError::ArraySeparator(self.pos));
            }
        }
    }

    fn object(&mut self) -> (r: Result<Json, JsonError>)
        requires
            old(self).pos < old(self).chars.len(),
        ensures
            final(self).chars == old(self).chars,
            final(self).pos <= final(self).chars.len(),
            match r {
                Ok(v) => object_items(old(self).chars@, old(self).pos + 1, Seq::empty()) == Ok::<
                    (JsonModel, int),
                    JsonError,
                >((v.model(), final(self).pos as int)),
                Err(e) => object_items(old(self).chars@, old(self).pos + 1, Seq::empty())
                    == Err::<(JsonModel, int), JsonError>(e),
            },
        decreases old(self).chars.len() - (old(self).pos + 1), 1int,
    {
        let ghost s = self.chars@;
        self.pos += 1;
        let ghost start = self.pos as int;
        let mut items: Vec<(String, Json)> = Vec::new();
        loop
            invariant
                self.chars == old(self).chars,
                s == self.chars@,
                start == old(self).pos + 1,
                start <= self.pos <= self.chars.len(),
                object_items(s, start, Seq::empty()) == object_items(
                    s,
                    self.pos as int,
                    Json::field_models(items@),
                ),
            decreases self.chars.len() - self.pos,
        {
            self.skip_ws();
            if self.pos < self.chars.len() && self.chars[self.pos] == '}' {
                self.pos += 1;
                return Ok(Json::Obj(items));
            }
            let ghost q = self.pos as int;
            let key = match self.string() {
                Ok(k) => k,
                Err(e) => {
                    return Err(e);
                },
            };
            proof {
                lemma_str_body(s, q + 1, Seq::empty());
            }
            self.skip_ws();
            if self.pos >= self.chars.len() || self.chars[self.pos] != ':' {
                return Err(JsonError::MissingColon(self.pos));
            }
            self.pos += 1;
            let ghost t1 = self.pos as int;
            let v = match self.value() {
                Ok(v) => v,
                Err(e) => {
                    return Err(e);
                },
            };
            proof {
                lemma_value_end(s, t1);
                lemma_ws_end(s, t1);
            }
            self.skip_ws();
            let ghost old_items = items@;
            let ghost fm = (key@, v.model());
            if self.pos < self.chars.len() && self.chars[self.pos] == ',' {
                self.pos += 1;
                items.push((key, v));
                assert(items@.drop_last() =~= old_items);
                assert(Json::field_models(items@) == Json::field_models(old_items).push(fm));
            } else if self.pos < self.chars.len() && self.chars[self.pos] == '}' {
                self.pos += 1;
                items.push((key, v));
                assert(items@.drop_last() =~= old_items);
                assert(Json::field_models(items@) == Json::field_models(old_items).push(fm));
                return Ok(Json::Obj(items));
            } else {
                return Err(JsonError::ObjectSeparator(self.pos));
            }
        }
    }
}

impl Json {
    /// Reads a JSON value from the start of `text`, after optional
    /// whitespace. What follows the value is not looked at.
    pub fn parse(text: &str) -> (r: Result<Json, JsonError>)
        ensures
            match r {
                Ok(v) => parse_text(text@) == Ok::<JsonModel, JsonError>(v.model()),
                Err(e) => parse_text(text@) == Err::<JsonModel, JsonError>(e),
            },
    {
        let chars = chars_of(text);
        let mut parser = Parser { chars, pos: 0 };
        parser.value()
    }
}

} // verus!
