//! How the grammar relates to UTF-8 well-formedness of the whole input.
use vstd::prelude::*;
use vstd::utf8::*;
use crate::error::ErrorKind;
use crate::grammar::{
    content_line, encoding_fault, lemma_empty_valid, lemma_name_run_valid, lemma_param_value_ge,
    lemma_quoted_run_valid, lemma_text_run_valid, lemma_unquoted_run_valid, lemma_valid_extend,
    lemma_value_list_ge, lemma_width_pos, name_run, param_value, params, valid_at, value_list,
    width_at,
};

verus! {

/// A well-formed range begins with a well-formed scalar, and the rest of it is well-formed.
proof fn lemma_valid_split(s: Seq<u8>, i: int, j: int)
    requires
        0 <= i < j <= s.len(),
        valid_utf8(s.subrange(i, j)),
    ensures
        valid_at(s, i),
        i + width_at(s, i) <= j,
        valid_utf8(s.subrange(i + width_at(s, i), j)),
{
    let t = s.subrange(i, j);
    let u = s.subrange(i, s.len() as int);
    assert(valid_first_scalar(t));
    let w = length_of_first_scalar(t);
    assert(t[0] == u[0]);
    if w >= 2 {
        assert(t[1] == u[1]);
    }
    if w >= 3 {
        assert(t[2] == u[2]);
    }
    if w >= 4 {
        assert(t[3] == u[3]);
    }
    assert(valid_first_scalar(u));
    assert(pop_first_scalar(t) =~= s.subrange(i + w, j));
}

/// Two adjacent well-formed ranges make a well-formed range.
proof fn lemma_valid_concat(s: Seq<u8>, i: int, j: int, k: int)
    requires
        0 <= i <= j <= k <= s.len(),
        valid_utf8(s.subrange(i, j)),
        valid_utf8(s.subrange(j, k)),
    ensures
        valid_utf8(s.subrange(i, k)),
    decreases j - i,
{
    if i == j {
        assert(s.subrange(i, k) =~= s.subrange(j, k));
    } else {
        lemma_valid_split(s, i, j);
        lemma_width_pos(s, i);
        lemma_valid_concat(s, i + width_at(s, i), j, k);
        lemma_valid_extend(s, i, k);
    }
}

/// An ASCII byte is a well-formed range of one byte.
proof fn lemma_ascii_valid(s: Seq<u8>, i: int)
    requires
        0 <= i < s.len(),
        s[i] < 0x80,
    ensures
        valid_utf8(s.subrange(i, i + 1)),
{
    let b = s[i];
    assert(s.subrange(i, s.len() as int)[0] == b);
    assert(b & 0x7f <= 0x7f) by (bit_vector);
    assert(valid_at(s, i));
    lemma_empty_valid(s, i + 1);
    lemma_valid_extend(s, i, i + 1);
}

/// A rejection for encoding at `f.at`, with `[i, j)` well-formed in front of a scan that
/// started at `j`, is one with `[i, f.at)` well-formed.
proof fn lemma_fault_prefix<T>(s: Seq<u8>, i: int, j: int, r: Result<T, crate::grammar::Fault>)
    requires
        0 <= i <= j <= s.len(),
        valid_utf8(s.subrange(i, j)),
        encoding_fault(s, j, r),
    ensures
        encoding_fault(s, i, r),
{
    if r is Err && r->Err_0.kind == ErrorKind::Utf8Error {
        lemma_valid_concat(s, i, j, r->Err_0.at);
    }
}

proof fn lemma_param_value_valid(s: Seq<u8>, i: int)
    requires
        0 <= i <= s.len(),
    ensures
        param_value(s, i) is Ok ==> i <= param_value(s, i)->Ok_0.1 <= s.len() && valid_utf8(
            s.subrange(i, param_value(s, i)->Ok_0.1),
        ),
        encoding_fault(s, i, param_value(s, i)),
{
    if i < s.len() && s[i] == 0x22 {
        lemma_ascii_valid(s, i);
        lemma_quoted_run_valid(s, i + 1);
        lemma_fault_prefix(s, i, i + 1, crate::grammar::quoted_run(s, i + 1));
        if let Ok(q) = crate::grammar::quoted_run(s, i + 1) {
            lemma_ascii_valid(s, q);
            lemma_valid_concat(s, i, i + 1, q);
            lemma_valid_concat(s, i, q, q + 1);
        }
    } else {
        lemma_unquoted_run_valid(s, i);
    }
}

proof fn lemma_value_list_valid(s: Seq<u8>, i: int)
    requires
        0 <= i <= s.len(),
    ensures
        value_list(s, i) is Ok ==> i <= value_list(s, i)->Ok_0.1 <= s.len() && valid_utf8(
            s.subrange(i, value_list(s, i)->Ok_0.1),
        ),
        encoding_fault(s, i, value_list(s, i)),
    decreases s.len() - i,
{
    lemma_param_value_valid(s, i);
    lemma_param_value_ge(s, i);
    if let Ok((v, j)) = param_value(s, i) {
        if 0 <= j < s.len() && s[j] == 0x2c {
            lemma_value_list_valid(s, j + 1);
            lemma_ascii_valid(s, j);
            lemma_valid_concat(s, i, j, j + 1);
            lemma_fault_prefix(s, i, j + 1, value_list(s, j + 1));
            if let Ok((vs, k)) = value_list(s, j + 1) {
                lemma_valid_concat(s, i, j + 1, k);
            }
        }
    }
}

proof fn lemma_params_valid(s: Seq<u8>, i: int)
    requires
        0 <= i <= s.len(),
    ensures
        params(s, i) is Ok ==> valid_utf8(s.subrange(i, s.len() as int)),
        encoding_fault(s, i, params(s, i)),
    decreases s.len() - i,
{
    lemma_name_run_valid(s, i);
    if let Ok(e) = name_run(s, i) {
        if e != i && e < s.len() && s[e] == 0x3d {
            lemma_ascii_valid(s, e);
            lemma_valid_concat(s, i, e, e + 1);
            lemma_value_list_valid(s, e + 1);
            lemma_value_list_ge(s, e + 1);
            lemma_fault_prefix(s, i, e + 1, value_list(s, e + 1));
            if let Ok((vs, k)) = value_list(s, e + 1) {
                lemma_valid_concat(s, i, e + 1, k);
                if k < s.len() && (s[k] == 0x3b || s[k] == 0x3a) {
                    lemma_ascii_valid(s, k);
                    lemma_valid_concat(s, i, k, k + 1);
                    if s[k] == 0x3b {
                        lemma_params_valid(s, k + 1);
                        lemma_fault_prefix(s, i, k + 1, params(s, k + 1));
                        if params(s, k + 1) is Ok {
                            lemma_valid_concat(s, i, k + 1, s.len() as int);
                        }
                    } else {
                        lemma_text_run_valid(s, k + 1);
                        lemma_fault_prefix(s, i, k + 1, crate::grammar::text_run(s, k + 1));
                        if crate::grammar::text_run(s, k + 1) is Ok {
                            lemma_valid_concat(s, i, k + 1, s.len() as int);
                        }
                    }
                }
            }
        }
    }
}

/// Only well-formed UTF-8 parses, and a rejection for encoding points at the first
/// ill-formed sequence: everything before it is well-formed UTF-8 and no well-formed
/// scalar starts there. (An earlier structural fault is reported instead of an encoding
/// one, so an ill-formed input may be rejected for another reason.)
pub proof fn lemma_utf8_required(s: Seq<u8>)
    ensures
        !valid_utf8(s) ==> content_line(s) is Err,
        encoding_fault(s, 0, content_line(s)),
{
    assert(s.subrange(0, s.len() as int) =~= s);
    if s.len() > 0 {
        lemma_name_run_valid(s, 0);
        if let Ok(e) = name_run(s, 0) {
            if e != 0 && e < s.len() && (s[e] == 0x3b || s[e] == 0x3a) {
                lemma_ascii_valid(s, e);
                lemma_valid_concat(s, 0, e, e + 1);
                if s[e] == 0x3b {
                    lemma_params_valid(s, e + 1);
                    lemma_fault_prefix(s, 0, e + 1, params(s, e + 1));
                    if params(s, e + 1) is Ok {
                        lemma_valid_concat(s, 0, e + 1, s.len() as int);
                    }
                } else {
                    lemma_text_run_valid(s, e + 1);
                    lemma_fault_prefix(s, 0, e + 1, crate::grammar::text_run(s, e + 1));
                    if crate::grammar::text_run(s, e + 1) is Ok {
                        lemma_valid_concat(s, 0, e + 1, s.len() as int);
                    }
                }
            }
        }
    }
}

} // verus!
