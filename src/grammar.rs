//! The content-line grammar over byte positions: what a line parses to, or the first
//! position at which it is rejected and why.
use vstd::prelude::*;
use vstd::utf8::*;
use crate::error::ErrorKind;

verus! {

/// A half-open byte range `[start, end)`.
pub struct Span {
    pub start: int,
    pub end: int,
}

/// A parameter, as byte ranges: its name and its values.
pub struct ParamShape {
    pub name: Span,
    pub values: Seq<Span>,
}

/// A content line, as byte ranges: name, parameters and value.
pub struct PropShape {
    pub name: Span,
    pub params: Seq<ParamShape>,
    pub value: Span,
}

/// A rejection: the position it points at, and its kind.
pub struct Fault {
    pub at: int,
    pub kind: ErrorKind,
}

pub open spec fn fault(at: int, kind: ErrorKind) -> Fault {
    Fault { at, kind }
}

/// The bytes from `i` on begin with a well-formed UTF-8 scalar.
pub open spec fn valid_at(s: Seq<u8>, i: int) -> bool {
    valid_first_scalar(s.subrange(i, s.len() as int))
}

/// The number of bytes of the scalar that starts at `i`.
pub open spec fn width_at(s: Seq<u8>, i: int) -> int {
    length_of_first_scalar(s.subrange(i, s.len() as int))
}

/// The characters that end a name: `:` `;` `=` `,` `"` and `/`.
pub open spec fn is_name_delim(b: u8) -> bool {
    b == 0x3a || b == 0x3b || b == 0x3d || b == 0x2c || b == 0x22 || b == 0x2f
}

/// The characters that end an unquoted parameter value: `,` `;` `:`.
pub open spec fn is_value_delim(b: u8) -> bool {
    b == 0x2c || b == 0x3b || b == 0x3a
}

/// The end of the maximal run of name characters from `i`.
pub open spec fn name_run(s: Seq<u8>, i: int) -> Result<int, Fault>
    decreases s.len() - i,
{
    if i < 0 || i >= s.len() {
        Ok(i)
    } else if !valid_at(s, i) {
        Err(fault(i, ErrorKind::Utf8Error))
    } else if is_name_delim(s[i]) {
        Ok(i)
    } else {
        name_run(s, i + width_at(s, i))
    }
}

/// The end of an unquoted parameter value that starts at `i`: a `"` inside it is rejected.
pub open spec fn unquoted_run(s: Seq<u8>, i: int) -> Result<int, Fault>
    decreases s.len() - i,
{
    if i < 0 || i >= s.len() {
        Ok(i)
    } else if !valid_at(s, i) {
        Err(fault(i, ErrorKind::Utf8Error))
    } else if s[i] == 0x22 {
        Err(fault(i, ErrorKind::UnexpectedDoubleQuote))
    } else if is_value_delim(s[i]) {
        Ok(i)
    } else {
        unquoted_run(s, i + width_at(s, i))
    }
}

/// The position of the `"` that closes a quoted value whose content starts at `i`.
pub open spec fn quoted_run(s: Seq<u8>, i: int) -> Result<int, Fault>
    decreases s.len() - i,
{
    if i < 0 || i >= s.len() {
        Err(fault(s.len() as int, ErrorKind::NoPropertyValue))
    } else if !valid_at(s, i) {
        Err(fault(i, ErrorKind::Utf8Error))
    } else if s[i] == 0x22 {
        Ok(i)
    } else {
        quoted_run(s, i + width_at(s, i))
    }
}

/// The end of the input, provided everything from `i` on is valid UTF-8.
pub open spec fn text_run(s: Seq<u8>, i: int) -> Result<int, Fault>
    decreases s.len() - i,
{
    if i < 0 || i >= s.len() {
        Ok(i)
    } else if !valid_at(s, i) {
        Err(fault(i, ErrorKind::Utf8Error))
    } else {
        text_run(s, i + width_at(s, i))
    }
}

/// One parameter value from `i`: its range, and the position just after it.
pub open spec fn param_value(s: Seq<u8>, i: int) -> Result<(Span, int), Fault> {
    if 0 <= i < s.len() && s[i] == 0x22 {
        match quoted_run(s, i + 1) {
            Ok(q) => Ok((Span { start: i + 1, end: q }, q + 1)),
            Err(f) => Err(f),
        }
    } else {
        match unquoted_run(s, i) {
            Ok(j) => Ok((Span { start: i, end: j }, j)),
            Err(f) => Err(f),
        }
    }
}

/// A comma-separated list of parameter values from `i`: the values, and the position
/// just after the last one.
pub open spec fn value_list(s: Seq<u8>, i: int) -> Result<(Seq<Span>, int), Fault>
    decreases s.len() - i,
        via value_list_decreases
{
    match param_value(s, i) {
        Err(f) => Err(f),
        Ok((v, j)) => if 0 <= j < s.len() && s[j] == 0x2c {
            match value_list(s, j + 1) {
                Ok((vs, k)) => Ok((seq![v] + vs, k)),
                Err(f) => Err(f),
            }
        } else {
            Ok((seq![v], j))
        },
    }
}

/// The rejection of an input whose end comes before the `:` that starts the value.
pub open spec fn no_value(s: Seq<u8>) -> Fault {
    fault(s.len() as int, ErrorKind::NoPropertyValue)
}

/// The parameters from `i` (just after a `;`), and the range of the property value.
pub open spec fn params(s: Seq<u8>, i: int) -> Result<(Seq<ParamShape>, Span), Fault>
    decreases s.len() - i,
        via params_decreases
{
    match name_run(s, i) {
        Err(f) => Err(f),
        Ok(e) => if e == i {
            Err(fault(i, ErrorKind::NoParamName))
        } else if e >= s.len() || s[e] != 0x3d {
            Err(no_value(s))
        } else {
            match value_list(s, e + 1) {
                Err(f) => Err(f),
                Ok((vs, k)) => {
                    let p = ParamShape { name: Span { start: i, end: e }, values: vs };
                    if k >= s.len() {
                        Err(no_value(s))
                    } else if s[k] == 0x3b {
                        match params(s, k + 1) {
                            Ok((ps, v)) => Ok((seq![p] + ps, v)),
                            Err(f) => Err(f),
                        }
                    } else if s[k] == 0x3a {
                        match text_run(s, k + 1) {
                            Ok(n) => Ok((seq![p], Span { start: k + 1, end: n })),
                            Err(f) => Err(f),
                        }
                    } else if !valid_at(s, k) {
                        Err(fault(k, ErrorKind::Utf8Error))
                    } else {
                        Err(fault(k, ErrorKind::NoCommaEtc))
                    }
                },
            }
        },
    }
}

/// What a content line parses to: its ranges, or the first rejection.
pub open spec fn content_line(s: Seq<u8>) -> Result<PropShape, Fault> {
    if s.len() == 0 {
        Err(fault(0, ErrorKind::EmptyContentLine))
    } else {
        match name_run(s, 0) {
            Err(f) => Err(f),
            Ok(e) => {
                let name = Span { start: 0, end: e };
                if e == 0 {
                    Err(fault(0, ErrorKind::NoPropertyName))
                } else if e >= s.len() {
                    Err(no_value(s))
                } else if s[e] == 0x3b {
                    match params(s, e + 1) {
                        Ok((ps, v)) => Ok(PropShape { name, params: ps, value: v }),
                        Err(f) => Err(f),
                    }
                } else if s[e] == 0x3a {
                    match text_run(s, e + 1) {
                        Ok(n) => Ok(PropShape { name, params: seq![], value: Span { start: e + 1, end: n } }),
                        Err(f) => Err(f),
                    }
                } else {
                    Err(no_value(s))
                }
            },
        }
    }
}

/// Each scalar takes one to four bytes.
pub proof fn lemma_width_pos(s: Seq<u8>, i: int)
    ensures
        1 <= width_at(s, i) <= 4,
{
}

pub proof fn lemma_name_run_ge(s: Seq<u8>, i: int)
    ensures
        name_run(s, i) is Ok ==> name_run(s, i)->Ok_0 >= i,
    decreases s.len() - i,
{
    if 0 <= i < s.len() && valid_at(s, i) && !is_name_delim(s[i]) {
        lemma_width_pos(s, i);
        lemma_name_run_ge(s, i + width_at(s, i));
    }
}

pub proof fn lemma_unquoted_run_ge(s: Seq<u8>, i: int)
    ensures
        unquoted_run(s, i) is Ok ==> unquoted_run(s, i)->Ok_0 >= i,
    decreases s.len() - i,
{
    if 0 <= i < s.len() && valid_at(s, i) && s[i] != 0x22 && !is_value_delim(s[i]) {
        lemma_width_pos(s, i);
        lemma_unquoted_run_ge(s, i + width_at(s, i));
    }
}

pub proof fn lemma_quoted_run_ge(s: Seq<u8>, i: int)
    ensures
        quoted_run(s, i) is Ok ==> quoted_run(s, i)->Ok_0 >= i,
    decreases s.len() - i,
{
    if 0 <= i < s.len() && valid_at(s, i) && s[i] != 0x22 {
        lemma_width_pos(s, i);
        lemma_quoted_run_ge(s, i + width_at(s, i));
    }
}

pub proof fn lemma_param_value_ge(s: Seq<u8>, i: int)
    ensures
        param_value(s, i) is Ok ==> param_value(s, i)->Ok_0.1 >= i,
{
    lemma_unquoted_run_ge(s, i);
    lemma_quoted_run_ge(s, i + 1);
}

pub proof fn lemma_value_list_ge(s: Seq<u8>, i: int)
    ensures
        value_list(s, i) is Ok ==> value_list(s, i)->Ok_0.1 >= i,
    decreases s.len() - i,
{
    lemma_param_value_ge(s, i);
    if let Ok((v, j)) = param_value(s, i) {
        if 0 <= j < s.len() && s[j] == 0x2c {
            lemma_value_list_ge(s, j + 1);
        }
    }
}

#[via_fn]
proof fn value_list_decreases(s: Seq<u8>, i: int) {
    lemma_param_value_ge(s, i);
}

#[via_fn]
proof fn params_decreases(s: Seq<u8>, i: int) {
    lemma_name_run_ge(s, i);
    if let Ok(e) = name_run(s, i) {
        lemma_value_list_ge(s, e + 1);
    }
}

/// A well-formed scalar in front of a well-formed range makes the range one longer
/// well-formed.
pub proof fn lemma_valid_extend(s: Seq<u8>, i: int, j: int)
    requires
        0 <= i < j <= s.len(),
        valid_at(s, i),
        i + width_at(s, i) <= j,
        valid_utf8(s.subrange(i + width_at(s, i), j)),
    ensures
        valid_utf8(s.subrange(i, j)),
{
    let t = s.subrange(i, j);
    let u = s.subrange(i, s.len() as int);
    let w = width_at(s, i);
    assert(t[0] == u[0]);
    if w >= 2 {
        assert(t[1] == u[1]);
    }
    if w >= 3 {
        assert(t[2] == u[2]);
    }
    if w >= 4 {
        assert(t[3] == u[3]);
    }
    assert(valid_first_scalar(t));
    assert(pop_first_scalar(t) =~= s.subrange(i + w, j));
}

/// A rejection for encoding, by a scan that started at `i`, points at a position that
/// starts no well-formed scalar, with only well-formed scalars between `i` and it.
pub open spec fn encoding_fault<T>(s: Seq<u8>, i: int, r: Result<T, Fault>) -> bool {
    r is Err && r->Err_0.kind == ErrorKind::Utf8Error ==> {
        let m = r->Err_0.at;
        &&& i <= m < s.len()
        &&& valid_utf8(s.subrange(i, m))
        &&& !valid_at(s, m)
    }
}

/// A well-formed scalar lies inside the input.
pub proof fn lemma_width_fits(s: Seq<u8>, i: int)
    requires
        0 <= i < s.len(),
        valid_at(s, i),
    ensures
        i + width_at(s, i) <= s.len(),
{
}

pub proof fn lemma_empty_valid(s: Seq<u8>, i: int)
    requires
        0 <= i <= s.len(),
    ensures
        valid_utf8(s.subrange(i, i)),
{
    assert(s.subrange(i, i).len() == 0);
}

pub proof fn lemma_name_run_valid(s: Seq<u8>, i: int)
    requires
        0 <= i <= s.len(),
    ensures
        name_run(s, i) is Ok ==> i <= name_run(s, i)->Ok_0 <= s.len() && valid_utf8(
            s.subrange(i, name_run(s, i)->Ok_0),
        ),
        encoding_fault(s, i, name_run(s, i)),
    decreases s.len() - i,
{
    lemma_empty_valid(s, i);
    if i < s.len() && valid_at(s, i) && !is_name_delim(s[i]) {
        lemma_width_pos(s, i);
        lemma_width_fits(s, i);
        lemma_name_run_valid(s, i + width_at(s, i));
        if let Ok(j) = name_run(s, i) {
            lemma_valid_extend(s, i, j);
        }
        if let Err(f) = name_run(s, i) {
            if f.kind == ErrorKind::Utf8Error {
                lemma_valid_extend(s, i, f.at);
            }
        }
    }
}

pub proof fn lemma_unquoted_run_valid(s: Seq<u8>, i: int)
    requires
        0 <= i <= s.len(),
    ensures
        unquoted_run(s, i) is Ok ==> i <= unquoted_run(s, i)->Ok_0 <= s.len() && valid_utf8(
            s.subrange(i, unquoted_run(s, i)->Ok_0),
        ),
        encoding_fault(s, i, unquoted_run(s, i)),
    decreases s.len() - i,
{
    lemma_empty_valid(s, i);
    if i < s.len() && valid_at(s, i) && s[i] != 0x22 && !is_value_delim(s[i]) {
        lemma_width_pos(s, i);
        lemma_width_fits(s, i);
        lemma_unquoted_run_valid(s, i + width_at(s, i));
        if let Ok(j) = unquoted_run(s, i) {
            lemma_valid_extend(s, i, j);
        }
        if let Err(f) = unquoted_run(s, i) {
            if f.kind == ErrorKind::Utf8Error {
                lemma_valid_extend(s, i, f.at);
            }
        }
    }
}

pub proof fn lemma_quoted_run_valid(s: Seq<u8>, i: int)
    requires
        0 <= i <= s.len(),
    ensures
        quoted_run(s, i) is Ok ==> i <= quoted_run(s, i)->Ok_0 < s.len() && s[quoted_run(
            s,
            i,
        )->Ok_0] == 0x22 && valid_utf8(s.subrange(i, quoted_run(s, i)->Ok_0)),
        encoding_fault(s, i, quoted_run(s, i)),
    decreases s.len() - i,
{
    lemma_empty_valid(s, i);
    if i < s.len() && valid_at(s, i) && s[i] != 0x22 {
        lemma_width_pos(s, i);
        lemma_width_fits(s, i);
        lemma_quoted_run_valid(s, i + width_at(s, i));
        if let Ok(j) = quoted_run(s, i) {
            lemma_valid_extend(s, i, j);
        }
        if let Err(f) = quoted_run(s, i) {
            if f.kind == ErrorKind::Utf8Error {
                lemma_valid_extend(s, i, f.at);
            }
        }
    }
}

pub proof fn lemma_text_run_valid(s: Seq<u8>, i: int)
    requires
        0 <= i <= s.len(),
    ensures
        text_run(s, i) is Ok ==> text_run(s, i)->Ok_0 == s.len() && valid_utf8(
            s.subrange(i, s.len() as int),
        ),
        encoding_fault(s, i, text_run(s, i)),
    decreases s.len() - i,
{
    lemma_empty_valid(s, i);
    if i < s.len() && valid_at(s, i) {
        lemma_width_pos(s, i);
        lemma_width_fits(s, i);
        lemma_text_run_valid(s, i + width_at(s, i));
        if text_run(s, i) is Ok {
            lemma_valid_extend(s, i, s.len() as int);
        }
        if let Err(f) = text_run(s, i) {
            if f.kind == ErrorKind::Utf8Error {
                lemma_valid_extend(s, i, f.at);
            }
        }
    }
}

} // verus!
