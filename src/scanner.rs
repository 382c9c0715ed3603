//! The scanner: one forward pass over the bytes, decoding each scalar at the cursor
//! before it is classified.
use vstd::prelude::*;
use crate::error::{segment_at, ErrorKind, PreparseError};
use crate::grammar::{
    content_line, is_name_delim, is_value_delim, lemma_name_run_valid, lemma_param_value_ge,
    lemma_quoted_run_valid, lemma_text_run_valid, lemma_unquoted_run_valid, lemma_value_list_ge, lemma_width_fits,
    name_run, param_value, params, quoted_run, text_run, unquoted_run, valid_at, value_list,
    width_at, Fault, ParamShape, PropShape, Span,
};
use crate::located::{all_decode, located, shapes, spans, Located, Param, Prop};

verus! {

impl PreparseError {
    /// This error is the rejection `f` of an input of `len` bytes.
    pub open spec fn marks(&self, f: Fault, len: int) -> bool {
        &&& self.kind == f.kind
        &&& self.segment.start == f.at
        &&& (self.segment.start as int, self.segment.end as int) == segment_at(f.at, len)
    }
}

/// An executable scan agrees with the grammar's outcome `g`.
pub open spec fn run_agrees(r: Result<usize, PreparseError>, g: Result<int, Fault>, len: int) -> bool {
    match r {
        Ok(j) => g == Ok::<int, Fault>(j as int),
        Err(e) => g is Err && e.marks(g->Err_0, len),
    }
}

/// The outcome of parsing `s` is what the grammar gives: the same ranges, each value
/// decoded from its range, or the same rejection.
pub open spec fn agrees(r: Result<Prop, PreparseError>, s: Seq<u8>) -> bool {
    match r {
        Ok(p) => content_line(s) == Ok::<PropShape, Fault>(p.shape()) && p.decodes(s),
        Err(e) => content_line(s) is Err && e.marks(content_line(s)->Err_0, s.len() as int),
    }
}

/// The width of the well-formed scalar at `i`, or 0 where none starts there.
pub(crate) fn scalar_width(s: &[u8], i: usize) -> (w: usize)
    requires
        i < s.len(),
    ensures
        w == 0 <==> !valid_at(s@, i as int),
        w != 0 ==> w as int == width_at(s@, i as int),
{
    let ghost t = s@.subrange(i as int, s@.len() as int);
    let n = s.len();
    let b0 = s[i];
    assert(t[0] == b0);
    if b0 <= 0x7f {
        let cp: u32 = (b0 & 0x7F) as u32;
        if !(0xD800 <= cp && cp <= 0xDFFF) {
            return 1;
        }
        return 0;
    }
    if b0 >= 0xc0 && b0 <= 0xdf {
        if n - i > 1 {
            let b1 = s[i + 1];
            assert(t[1] == b1);
            if b1 >= 0x80 && b1 <= 0xbf {
                let cp: u32 = (((b0 & 0x1F) as u32) << 6) | ((b1 & 0x3f) as u32);
                if cp >= 0x80 && !(0xD800 <= cp && cp <= 0xDFFF) {
                    return 2;
                }
            }
        }
        return 0;
    }
    if b0 >= 0xe0 && b0 <= 0xef {
        if n - i > 2 {
            let b1 = s[i + 1];
            let b2 = s[i + 2];
            assert(t[1] == b1 && t[2] == b2);
            if b1 >= 0x80 && b1 <= 0xbf && b2 >= 0x80 && b2 <= 0xbf {
                let cp: u32 = (((b0 & 0x0F) as u32) << 12) | (((b1 & 0x3f) as u32) << 6) | ((b2
                    & 0x3f) as u32);
                if cp >= 0x800 && !(0xD800 <= cp && cp <= 0xDFFF) {
                    return 3;
                }
            }
        }
        return 0;
    }
    if b0 >= 0xf0 && b0 <= 0xf7 {
        if n - i > 3 {
            let b1 = s[i + 1];
            let b2 = s[i + 2];
            let b3 = s[i + 3];
            assert(t[1] == b1 && t[2] == b2 && t[3] == b3);
            if b1 >= 0x80 && b1 <= 0xbf && b2 >= 0x80 && b2 <= 0xbf && b3 >= 0x80 && b3 <= 0xbf {
                let cp: u32 = (((b0 & 0x07) as u32) << 18) | (((b1 & 0x3f) as u32) << 12) | (((b2
                    & 0x3f) as u32) << 6) | ((b3 & 0x3f) as u32);
                if cp >= 0x10000 && cp <= 0x10ffff && !(0xD800 <= cp && cp <= 0xDFFF) {
                    return 4;
                }
            }
        }
        return 0;
    }
    0
}

pub(crate) fn is_name_delim_byte(b: u8) -> (r: bool)
    ensures
        r == is_name_delim(b),
{
    b == 0x3a || b == 0x3b || b == 0x3d || b == 0x2c || b == 0x22 || b == 0x2f
}

/// Scans the maximal run of name characters from `i`.
fn scan_name(s: &[u8], i: usize) -> (r: Result<usize, PreparseError>)
    requires
        i <= s.len(),
    ensures
        run_agrees(r, name_run(s@, i as int), s@.len() as int),
{
    let mut j = i;
    loop
        invariant
            i <= j <= s.len(),
            name_run(s@, j as int) == name_run(s@, i as int),
        decreases s.len() - j,
    {
        if j >= s.len() {
            return Ok(j);
        }
        let w = scalar_width(s, j);
        if w == 0 {
            return Err(PreparseError::at(j, s.len(), ErrorKind::Utf8Error));
        }
        if is_name_delim_byte(s[j]) {
            return Ok(j);
        }
        proof {
            lemma_width_fits(s@, j as int);
        }
        j = j + w;
    }
}

pub(crate) fn is_value_delim_byte(b: u8) -> (r: bool)
    ensures
        r == is_value_delim(b),
{
    b == 0x2c || b == 0x3b || b == 0x3a
}

/// Scans an unquoted parameter value from `i`.
fn scan_unquoted(s: &[u8], i: usize) -> (r: Result<usize, PreparseError>)
    requires
        i <= s.len(),
    ensures
        run_agrees(r, unquoted_run(s@, i as int), s@.len() as int),
{
    let mut j = i;
    loop
        invariant
            i <= j <= s.len(),
            unquoted_run(s@, j as int) == unquoted_run(s@, i as int),
        decreases s.len() - j,
    {
        if j >= s.len() {
            return Ok(j);
        }
        let w = scalar_width(s, j);
        if w == 0 {
            return Err(PreparseError::at(j, s.len(), ErrorKind::Utf8Error));
        }
        if s[j] == 0x22 {
            return Err(PreparseError::at(j, s.len(), ErrorKind::UnexpectedDoubleQuote));
        }
        if is_value_delim_byte(s[j]) {
            return Ok(j);
        }
        proof {
            lemma_width_fits(s@, j as int);
        }
        j = j + w;
    }
}

/// Scans the content of a quoted parameter value from `i` up to its closing `"`.
fn scan_quoted(s: &[u8], i: usize) -> (r: Result<usize, PreparseError>)
    requires
        i <= s.len(),
    ensures
        run_agrees(r, quoted_run(s@, i as int), s@.len() as int),
{
    let mut j = i;
    loop
        invariant
            i <= j <= s.len(),
            quoted_run(s@, j as int) == quoted_run(s@, i as int),
        decreases s.len() - j,
    {
        if j >= s.len() {
            return Err(PreparseError::at(s.len(), s.len(), ErrorKind::NoPropertyValue));
        }
        let w = scalar_width(s, j);
        if w == 0 {
            return Err(PreparseError::at(j, s.len(), ErrorKind::Utf8Error));
        }
        if s[j] == 0x22 {
            return Ok(j);
        }
        proof {
            lemma_width_fits(s@, j as int);
        }
        j = j + w;
    }
}

/// Checks that everything from `i` on is valid UTF-8.
fn scan_text(s: &[u8], i: usize) -> (r: Result<usize, PreparseError>)
    requires
        i <= s.len(),
    ensures
        run_agrees(r, text_run(s@, i as int), s@.len() as int),
{
    let mut j = i;
    loop
        invariant
            i <= j <= s.len(),
            text_run(s@, j as int) == text_run(s@, i as int),
        decreases s.len() - j,
    {
        if j >= s.len() {
            return Ok(j);
        }
        let w = scalar_width(s, j);
        if w == 0 {
            return Err(PreparseError::at(j, s.len(), ErrorKind::Utf8Error));
        }
        proof {
            lemma_width_fits(s@, j as int);
        }
        j = j + w;
    }
}

/// Scans one parameter value from `i`: the value, and the position just after it.
fn scan_param_value(s: &[u8], i: usize) -> (r: Result<(Located, usize), PreparseError>)
    requires
        i <= s.len(),
    ensures
        match r {
            Ok((v, j)) => param_value(s@, i as int) == Ok::<(Span, int), Fault>((v.span(), j as int))
                && v.decodes(s@) && j <= s.len(),
            Err(e) => param_value(s@, i as int) is Err && e.marks(
                param_value(s@, i as int)->Err_0,
                s@.len() as int,
            ),
        },
{
    if i < s.len() && s[i] == 0x22 {
        match scan_quoted(s, i + 1) {
            Ok(q) => {
                proof {
                    lemma_quoted_run_valid(s@, i + 1);
                }
                Ok((located(s, i + 1, q), q + 1))
            },
            Err(e) => Err(e),
        }
    } else {
        match scan_unquoted(s, i) {
            Ok(j) => {
                proof {
                    lemma_unquoted_run_valid(s@, i as int);
                }
                Ok((located(s, i, j), j))
            },
            Err(e) => Err(e),
        }
    }
}

/// The outcome of a value list, with `vs` put in front of the values it finds.
pub open spec fn after_values(vs: Seq<Span>, r: Result<(Seq<Span>, int), Fault>) -> Result<
    (Seq<Span>, int),
    Fault,
> {
    match r {
        Ok((ws, k)) => Ok((vs + ws, k)),
        Err(f) => Err(f),
    }
}

/// Scans a comma-separated list of parameter values from `i`.
fn scan_value_list(s: &[u8], i: usize) -> (r: Result<(Vec<Located>, usize), PreparseError>)
    requires
        i <= s.len(),
    ensures
        match r {
            Ok((vs, k)) => value_list(s@, i as int) == Ok::<(Seq<Span>, int), Fault>(
                (spans(vs@), k as int),
            ) && all_decode(vs@, s@) && k <= s.len(),
            Err(e) => value_list(s@, i as int) is Err && e.marks(
                value_list(s@, i as int)->Err_0,
                s@.len() as int,
            ),
        },
{
    let mut vals: Vec<Located> = Vec::new();
    let mut j = i;
    loop
        invariant
            i <= j <= s.len(),
            after_values(spans(vals@), value_list(s@, j as int)) == value_list(s@, i as int),
            all_decode(vals@, s@),
        decreases s.len() - j,
    {
        proof {
            lemma_param_value_ge(s@, j as int);
        }
        let ghost before = vals@;
        match scan_param_value(s, j) {
            Err(e) => {
                return Err(e);
            },
            Ok((v, k)) => {
                let ghost sv = v.span();
                vals.push(v);
                assert(spans(vals@) =~= spans(before).push(sv));
                if k < s.len() && s[k] == 0x2c {
                    proof {
                        if let Ok((ws, m)) = value_list(s@, k + 1) {
                            assert(spans(before) + (seq![sv] + ws) =~= spans(vals@) + ws);
                        }
                    }
                    j = k + 1;
                } else {
                    assert(spans(before) + seq![sv] =~= spans(vals@));
                    return Ok((vals, k));
                }
            },
        }
    }
}

/// The outcome of a parameter list, with `ps` put in front of the parameters it finds.
pub open spec fn after_params(ps: Seq<ParamShape>, r: Result<(Seq<ParamShape>, Span), Fault>) -> Result<
    (Seq<ParamShape>, Span),
    Fault,
> {
    match r {
        Ok((qs, v)) => Ok((ps + qs, v)),
        Err(f) => Err(f),
    }
}

/// Scans the parameters from `i`, just after a `;`, and then the property value.
fn scan_params(s: &[u8], i: usize) -> (r: Result<(Vec<Param>, Located), PreparseError>)
    requires
        i <= s.len(),
    ensures
        match r {
            Ok((ps, v)) => params(s@, i as int) == Ok::<(Seq<ParamShape>, Span), Fault>(
                (shapes(ps@), v.span()),
            ) && v.decodes(s@) && forall|k: int|
                0 <= k < ps@.len() ==> (#[trigger] ps@[k]).decodes(s@),
            Err(e) => params(s@, i as int) is Err && e.marks(
                params(s@, i as int)->Err_0,
                s@.len() as int,
            ),
        },
{
    let n = s.len();
    let mut ps: Vec<Param> = Vec::new();
    let mut j = i;
    loop
        invariant
            i <= j <= n,
            n == s.len(),
            after_params(shapes(ps@), params(s@, j as int)) == params(s@, i as int),
            forall|k: int| 0 <= k < ps@.len() ==> (#[trigger] ps@[k]).decodes(s@),
        decreases n - j,
    {
        let e = match scan_name(s, j) {
            Ok(e) => e,
            Err(x) => {
                return Err(x);
            },
        };
        if e == j {
            return Err(PreparseError::at(j, n, ErrorKind::NoParamName));
        }
        proof {
            lemma_name_run_valid(s@, j as int);
        }
        if e >= n || s[e] != 0x3d {
            return Err(PreparseError::at(n, n, ErrorKind::NoPropertyValue));
        }
        proof {
            lemma_value_list_ge(s@, e + 1);
        }
        let (values, k) = match scan_value_list(s, e + 1) {
            Ok(r) => r,
            Err(x) => {
                return Err(x);
            },
        };
        let name = located(s, j, e);
        let param = Param { name, values };
        let ghost before = ps@;
        let ghost sp = param.shape();
        ps.push(param);
        assert(shapes(ps@) =~= shapes(before).push(sp));
        assert forall|m: int| 0 <= m < ps@.len() implies (#[trigger] ps@[m]).decodes(s@) by {
            if m < before.len() {
                assert(ps@[m] == before[m]);
            }
        }
        if k >= n {
            return Err(PreparseError::at(n, n, ErrorKind::NoPropertyValue));
        }
        if s[k] == 0x3b {
            proof {
                if let Ok((qs, v)) = params(s@, k + 1) {
                    assert(shapes(before) + (seq![sp] + qs) =~= shapes(ps@) + qs);
                }
            }
            j = k + 1;
        } else if s[k] == 0x3a {
            match scan_text(s, k + 1) {
                Ok(_) => {
                    proof {
                        lemma_text_run_valid(s@, k + 1);
                    }
                    let value = located(s, k + 1, n);
                    assert(shapes(before) + seq![sp] =~= shapes(ps@));
                    return Ok((ps, value));
                },
                Err(x) => {
                    return Err(x);
                },
            }
        } else if scalar_width(s, k) == 0 {
            return Err(PreparseError::at(k, n, ErrorKind::Utf8Error));
        } else {
            return Err(PreparseError::at(k, n, ErrorKind::NoCommaEtc));
        }
    }
}

/// Parses one content line.
///
/// The result is exactly what the grammar gives for these bytes: on success the
/// property's names and values with their byte ranges, each value the string its range
/// encodes; otherwise the first rejection, its segment one byte long where a byte is
/// present and empty at the end of the input.
pub fn preparse(s: &[u8]) -> (r: Result<Prop, PreparseError>)
    ensures
        agrees(r, s@),
{
    let n = s.len();
    if n == 0 {
        return Err(PreparseError::at(0, 0, ErrorKind::EmptyContentLine));
    }
    let e = match scan_name(s, 0) {
        Ok(e) => e,
        Err(x) => {
            return Err(x);
        },
    };
    if e == 0 {
        return Err(PreparseError::at(0, n, ErrorKind::NoPropertyName));
    }
    if e >= n {
        return Err(PreparseError::at(n, n, ErrorKind::NoPropertyValue));
    }
    proof {
        lemma_name_run_valid(s@, 0);
    }
    let name = located(s, 0, e);
    if s[e] == 0x3b {
        match scan_params(s, e + 1) {
            Ok((parameters, value)) => Ok(Prop { name, parameters, value }),
            Err(x) => Err(x),
        }
    } else if s[e] == 0x3a {
        match scan_text(s, e + 1) {
            Ok(_) => {
                proof {
                    lemma_text_run_valid(s@, e + 1);
                }
                let value = located(s, e + 1, n);
                let parameters: Vec<Param> = Vec::new();
                assert(shapes(parameters@) =~= Seq::<ParamShape>::empty());
                Ok(Prop { name, parameters, value })
            },
            Err(x) => Err(x),
        }
    } else {
        Err(PreparseError::at(n, n, ErrorKind::NoPropertyValue))
    }
}

} // verus!
