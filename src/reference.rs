//! A second parser, written production by production as recursive descent, used to
//! cross-check the scanner: it too is proved to give what the grammar gives.
use vstd::prelude::*;
use crate::error::{ErrorKind, PreparseError};
use crate::grammar::{
    lemma_name_run_valid, lemma_param_value_ge, lemma_quoted_run_valid,
    lemma_text_run_valid, lemma_unquoted_run_valid, lemma_value_list_ge, lemma_width_fits,
    name_run, param_value, params, quoted_run, text_run, unquoted_run, value_list, Fault,
    ParamShape, Span,
};
use crate::located::{all_decode, located, shapes, spans, Located, Param, Prop};
use crate::scanner::{agrees, is_name_delim_byte, is_value_delim_byte, run_agrees, scalar_width};

verus! {

fn name_from(s: &[u8], i: usize) -> (r: Result<usize, PreparseError>)
    requires
        i <= s.len(),
    ensures
        run_agrees(r, name_run(s@, i as int), s@.len() as int),
    decreases s.len() - i,
{
    if i >= s.len() {
        return Ok(i);
    }
    let w = scalar_width(s, i);
    if w == 0 {
        Err(PreparseError::at(i, s.len(), ErrorKind::Utf8Error))
    } else if is_name_delim_byte(s[i]) {
        Ok(i)
    } else {
        proof {
            lemma_width_fits(s@, i as int);
        }
        name_from(s, i + w)
    }
}

fn unquoted_from(s: &[u8], i: usize) -> (r: Result<usize, PreparseError>)
    requires
        i <= s.len(),
    ensures
        run_agrees(r, unquoted_run(s@, i as int), s@.len() as int),
    decreases s.len() - i,
{
    if i >= s.len() {
        return Ok(i);
    }
    let w = scalar_width(s, i);
    if w == 0 {
        Err(PreparseError::at(i, s.len(), ErrorKind::Utf8Error))
    } else if s[i] == 0x22 {
        Err(PreparseError::at(i, s.len(), ErrorKind::UnexpectedDoubleQuote))
    } else if is_value_delim_byte(s[i]) {
        Ok(i)
    } else {
        proof {
            lemma_width_fits(s@, i as int);
        }
        unquoted_from(s, i + w)
    }
}

fn quoted_from(s: &[u8], i: usize) -> (r: Result<usize, PreparseError>)
    requires
        i <= s.len(),
    ensures
        run_agrees(r, quoted_run(s@, i as int), s@.len() as int),
    decreases s.len() - i,
{
    if i >= s.len() {
        return Err(PreparseError::at(s.len(), s.len(), ErrorKind::NoPropertyValue));
    }
    let w = scalar_width(s, i);
    if w == 0 {
        Err(PreparseError::at(i, s.len(), ErrorKind::Utf8Error))
    } else if s[i] == 0x22 {
        Ok(i)
    } else {
        proof {
            lemma_width_fits(s@, i as int);
        }
        quoted_from(s, i + w)
    }
}

fn text_from(s: &[u8], i: usize) -> (r: Result<usize, PreparseError>)
    requires
        i <= s.len(),
    ensures
        run_agrees(r, text_run(s@, i as int), s@.len() as int),
    decreases s.len() - i,
{
    if i >= s.len() {
        return Ok(i);
    }
    let w = scalar_width(s, i);
    if w == 0 {
        Err(PreparseError::at(i, s.len(), ErrorKind::Utf8Error))
    } else {
        proof {
            lemma_width_fits(s@, i as int);
        }
        text_from(s, i + w)
    }
}

fn value_from(s: &[u8], i: usize) -> (r: Result<(Located, usize), PreparseError>)
    requires
        i <= s.len(),
    ensures
        match r {
            Ok((v, j)) => param_value(s@, i as int) == Ok::<(Span, int), Fault>((v.span(), j as int))
                && v.decodes(s@) && j <= s.len(),
            Err(e) => param_value(s@, i as int) is Err && e.marks(
                param_value(s@, i as int)->Err_0,
                s@.len() as int,
            ),
        },
{
    if i < s.len() && s[i] == 0x22 {
        let q = match quoted_from(s, i + 1) {
            Ok(q) => q,
            Err(e) => {
                return Err(e);
            },
        };
        proof {
            lemma_quoted_run_valid(s@, i + 1);
        }
        Ok((located(s, i + 1, q), q + 1))
    } else {
        let j = match unquoted_from(s, i) {
            Ok(j) => j,
            Err(e) => {
                return Err(e);
            },
        };
        proof {
            lemma_unquoted_run_valid(s@, i as int);
        }
        Ok((located(s, i, j), j))
    }
}

fn values_from(s: &[u8], i: usize) -> (r: Result<(Vec<Located>, usize), PreparseError>)
    requires
        i <= s.len(),
    ensures
        match r {
            Ok((vs, k)) => value_list(s@, i as int) == Ok::<(Seq<Span>, int), Fault>(
                (spans(vs@), k as int),
            ) && all_decode(vs@, s@) && k <= s.len(),
            Err(e) => value_list(s@, i as int) is Err && e.marks(
                value_list(s@, i as int)->Err_0,
                s@.len() as int,
            ),
        },
    decreases s.len() - i,
{
    proof {
        lemma_param_value_ge(s@, i as int);
    }
    let (v, j) = match value_from(s, i) {
        Ok(r) => r,
        Err(e) => {
            return Err(e);
        },
    };
    if j < s.len() && s[j] == 0x2c {
        let (mut vs, k) = match values_from(s, j + 1) {
            Ok(r) => r,
            Err(e) => {
                return Err(e);
            },
        };
        let ghost rest = vs@;
        vs.insert(0, v);
        assert(spans(vs@) =~= seq![v.span()] + spans(rest));
        assert forall|m: int| 0 <= m < vs@.len() implies (#[trigger] vs@[m]).decodes(s@) by {
            if m > 0 {
                assert(vs@[m] == rest[m - 1]);
            }
        }
        Ok((vs, k))
    } else {
        let vs = vec![v];
        assert(spans(vs@) =~= seq![v.span()]);
        Ok((vs, j))
    }
}

fn params_from(s: &[u8], i: usize) -> (r: Result<(Vec<Param>, Located), PreparseError>)
    requires
        i <= s.len(),
    ensures
        match r {
            Ok((ps, v)) => params(s@, i as int) == Ok::<(Seq<ParamShape>, Span), Fault>(
                (shapes(ps@), v.span()),
            ) && v.decodes(s@) && forall|k: int|
                0 <= k < ps@.len() ==> (#[trigger] ps@[k]).decodes(s@),
            Err(e) => params(s@, i as int) is Err && e.marks(
                params(s@, i as int)->Err_0,
                s@.len() as int,
            ),
        },
    decreases s.len() - i,
{
    let n = s.len();
    let e = match name_from(s, i) {
        Ok(e) => e,
        Err(x) => {
            return Err(x);
        },
    };
    if e == i {
        return Err(PreparseError::at(i, n, ErrorKind::NoParamName));
    }
    if e >= n || s[e] != 0x3d {
        return Err(PreparseError::at(n, n, ErrorKind::NoPropertyValue));
    }
    proof {
        lemma_name_run_valid(s@, i as int);
        lemma_value_list_ge(s@, e + 1);
    }
    let (values, k) = match values_from(s, e + 1) {
        Ok(r) => r,
        Err(x) => {
            return Err(x);
        },
    };
    let param = Param { name: located(s, i, e), values };
    if k >= n {
        Err(PreparseError::at(n, n, ErrorKind::NoPropertyValue))
    } else if s[k] == 0x3b {
        let (mut ps, v) = match params_from(s, k + 1) {
            Ok(r) => r,
            Err(x) => {
                return Err(x);
            },
        };
        let ghost rest = ps@;
        ps.insert(0, param);
        assert(shapes(ps@) =~= seq![param.shape()] + shapes(rest));
        assert forall|m: int| 0 <= m < ps@.len() implies (#[trigger] ps@[m]).decodes(s@) by {
            if m > 0 {
                assert(ps@[m] == rest[m - 1]);
            }
        }
        Ok((ps, v))
    } else if s[k] == 0x3a {
        match text_from(s, k + 1) {
            Ok(_) => {
                proof {
                    lemma_text_run_valid(s@, k + 1);
                }
                let ps = vec![param];
                assert(shapes(ps@) =~= seq![param.shape()]);
                Ok((ps, located(s, k + 1, n)))
            },
            Err(x) => Err(x),
        }
    } else if scalar_width(s, k) == 0 {
        Err(PreparseError::at(k, n, ErrorKind::Utf8Error))
    } else {
        Err(PreparseError::at(k, n, ErrorKind::NoCommaEtc))
    }
}

/// Parses one content line by recursive descent over the grammar's productions.
///
/// Its contract is the scanner's: the result is exactly what the grammar gives.
pub fn reference_parse(s: &[u8]) -> (r: Result<Prop, PreparseError>)
    ensures
        agrees(r, s@),
{
    let n = s.len();
    if n == 0 {
        return Err(PreparseError::at(0, 0, ErrorKind::EmptyContentLine));
    }
    let e = match name_from(s, 0) {
        Ok(e) => e,
        Err(x) => {
            return Err(x);
        },
    };
    if e == 0 {
        Err(PreparseError::at(0, n, ErrorKind::NoPropertyName))
    } else if e >= n {
        Err(PreparseError::at(n, n, ErrorKind::NoPropertyValue))
    } else if s[e] == 0x3b {
        proof {
            lemma_name_run_valid(s@, 0);
        }
        match params_from(s, e + 1) {
            Ok((parameters, value)) => Ok(Prop { name: located(s, 0, e), parameters, value }),
            Err(x) => Err(x),
        }
    } else if s[e] == 0x3a {
        proof {
            lemma_name_run_valid(s@, 0);
        }
        match text_from(s, e + 1) {
            Ok(_) => {
                proof {
                    lemma_text_run_valid(s@, e + 1);
                }
                let parameters: Vec<Param> = Vec::new();
                assert(shapes(parameters@) =~= Seq::<ParamShape>::empty());
                Ok(Prop { name: located(s, 0, e), parameters, value: located(s, e + 1, n) })
            },
            Err(x) => Err(x),
        }
    } else {
        Err(PreparseError::at(n, n, ErrorKind::NoPropertyValue))
    }
}

} // verus!
