//! Plain-string views of parse results, and checks that run both parsers on one input.
use vstd::prelude::*;
use vstd::string::StringSliceAdditionalSpecFns;
use crate::error::{reason_of, PreparseError, EMPTY_CONTENT_LINE};
use crate::grammar::content_line;
use crate::located::{
    lemma_texts, prop_text, shapes, spans, Located, Param, ParamText, Prop, PropText,
};
use crate::reference::reference_parse;
use crate::scanner::{agrees, preparse};

verus! {

/// A parameter with its name and values as plain strings.
#[derive(Debug, PartialEq, Eq)]
pub struct StrParam {
    pub name: String,
    pub values: Vec<String>,
}

/// A property with its name, parameters and value as plain strings.
#[derive(Debug, PartialEq, Eq)]
pub struct StrProp {
    pub name: String,
    pub parameters: Vec<StrParam>,
    pub value: String,
}

impl StrParam {
    pub open spec fn texts(&self) -> ParamText {
        (self.name@, self.values@.map_values(|v: String| v@))
    }
}

impl StrProp {
    /// The strings this property holds.
    pub open spec fn texts(&self) -> PropText {
        (self.name@, self.parameters@.map_values(|p: StrParam| p.texts()), self.value@)
    }
}

/// Drops the byte ranges of a property, keeping its strings.
pub fn delocate(prop: &Prop) -> (r: StrProp)
    ensures
        r.texts() == prop.texts(),
{
    let mut parameters: Vec<StrParam> = Vec::new();
    let mut k: usize = 0;
    while k < prop.parameters.len()
        invariant
            k <= prop.parameters@.len(),
            parameters@.len() == k,
            forall|j: int| 0 <= j < k ==> (#[trigger] parameters@[j]).texts() == prop.parameters@[j].texts(),
        decreases prop.parameters@.len() - k,
    {
        let param = &prop.parameters[k];
        let mut values: Vec<String> = Vec::new();
        let mut m: usize = 0;
        while m < param.values.len()
            invariant
                m <= param.values@.len(),
                values@.len() == m,
                forall|j: int| 0 <= j < m ==> (#[trigger] values@[j])@ == param.values@[j].val@,
            decreases param.values@.len() - m,
        {
            values.push(param.values[m].val.clone());
            m = m + 1;
        }
        let p = StrParam { name: param.name.val.clone(), values };
        assert(p.texts().1 =~= param.texts().1);
        parameters.push(p);
        k = k + 1;
    }
    let r = StrProp { name: prop.name.val.clone(), parameters, value: prop.value.val.clone() };
    assert(r.texts().1 =~= prop.texts().1);
    r
}

/// Two outcomes are the same: the same ranges holding the same strings, or the same error.
pub open spec fn same_outcome(a: Result<Prop, PreparseError>, b: Result<Prop, PreparseError>) -> bool {
    match (a, b) {
        (Ok(p), Ok(q)) => p.shape() == q.shape() && p.texts() == q.texts(),
        (Err(x), Err(y)) => x == y,
        _ => false,
    }
}

/// Any two results that agree with the grammar on the same bytes are the same outcome.
pub proof fn lemma_same_outcome(s: Seq<u8>, a: Result<Prop, PreparseError>, b: Result<Prop, PreparseError>)
    requires
        agrees(a, s),
        agrees(b, s),
    ensures
        same_outcome(a, b),
{
    if let (Ok(p), Ok(q)) = (a, b) {
        lemma_texts(p, s);
        lemma_texts(q, s);
    }
    if let (Err(x), Err(y)) = (a, b) {
        assert(x.segment == y.segment);
    }
}

/// Parsing is deterministic: two parses of the same bytes give the same outcome.
pub proof fn lemma_deterministic(s: Seq<u8>, a: Result<Prop, PreparseError>, b: Result<Prop, PreparseError>)
    requires
        agrees(a, s),
        agrees(b, s),
    ensures
        same_outcome(a, b),
{
    lemma_same_outcome(s, a, b);
}

fn same_located(a: &Located, b: &Located) -> (r: bool)
    ensures
        r == (a.span() == b.span() && a.val@ == b.val@),
{
    a.start == b.start && a.end == b.end && a.val == b.val
}

fn same_values(a: &Vec<Located>, b: &Vec<Located>) -> (r: bool)
    ensures
        r == (spans(a@) == spans(b@) && a@.map_values(|v: Located| v.val@) == b@.map_values(
            |v: Located| v.val@,
        )),
{
    if a.len() != b.len() {
        assert(spans(a@).len() != spans(b@).len());
        return false;
    }
    let mut k: usize = 0;
    while k < a.len()
        invariant
            k <= a@.len() == b@.len(),
            forall|j: int| 0 <= j < k ==> (#[trigger] a@[j]).span() == b@[j].span() && a@[j].val@ == b@[j].val@,
        decreases a@.len() - k,
    {
        if !same_located(&a[k], &b[k]) {
            assert(spans(a@)[k as int] == a@[k as int].span());
            assert(spans(b@)[k as int] == b@[k as int].span());
            assert(a@.map_values(|v: Located| v.val@)[k as int] == a@[k as int].val@);
            assert(b@.map_values(|v: Located| v.val@)[k as int] == b@[k as int].val@);
            return false;
        }
        k = k + 1;
    }
    assert(spans(a@) =~= spans(b@));
    assert(a@.map_values(|v: Located| v.val@) =~= b@.map_values(|v: Located| v.val@));
    true
}

fn same_param(a: &Param, b: &Param) -> (r: bool)
    ensures
        r == (a.shape() == b.shape() && a.texts() == b.texts()),
{
    same_located(&a.name, &b.name) && same_values(&a.values, &b.values)
}

fn same_prop(a: &Prop, b: &Prop) -> (r: bool)
    ensures
        r == (a.shape() == b.shape() && a.texts() == b.texts()),
{
    if !same_located(&a.name, &b.name) || !same_located(&a.value, &b.value) {
        return false;
    }
    if a.parameters.len() != b.parameters.len() {
        assert(shapes(a.parameters@).len() != shapes(b.parameters@).len());
        return false;
    }
    let mut k: usize = 0;
    while k < a.parameters.len()
        invariant
            k <= a.parameters@.len() == b.parameters@.len(),
            forall|j: int| 0 <= j < k ==> (#[trigger] a.parameters@[j]).shape() == b.parameters@[j].shape()
                && a.parameters@[j].texts() == b.parameters@[j].texts(),
        decreases a.parameters@.len() - k,
    {
        if !same_param(&a.parameters[k], &b.parameters[k]) {
            assert(shapes(a.parameters@)[k as int] == a.parameters@[k as int].shape());
            assert(shapes(b.parameters@)[k as int] == b.parameters@[k as int].shape());
            assert(a.texts().1[k as int] == a.parameters@[k as int].texts());
            assert(b.texts().1[k as int] == b.parameters@[k as int].texts());
            return false;
        }
        k = k + 1;
    }
    assert(shapes(a.parameters@) =~= shapes(b.parameters@));
    assert(a.texts().1 =~= b.texts().1);
    true
}

/// Whether two results are the same outcome.
pub fn same_result(a: &Result<Prop, PreparseError>, b: &Result<Prop, PreparseError>) -> (r: bool)
    ensures
        r == same_outcome(*a, *b),
{
    match (a, b) {
        (Ok(p), Ok(q)) => same_prop(p, q),
        (Err(x), Err(y)) => x.segment.start == y.segment.start && x.segment.end == y.segment.end
            && x.kind == y.kind,
        _ => false,
    }
}

/// Runs the scanner and the reference parser on `text` and reports whether they agree;
/// they always do.
pub fn compare(text: &[u8]) -> (r: bool)
    ensures
        r,
{
    let pre = preparse(text);
    let reg = reference_parse(text);
    proof {
        lemma_same_outcome(text@, pre, reg);
    }
    same_result(&pre, &reg)
}

/// The scanner and the reference parser give the same outcome on every input.
pub proof fn lemma_equivalent(s: Seq<u8>, pre: Result<Prop, PreparseError>, reg: Result<Prop, PreparseError>)
    requires
        agrees(pre, s),
        agrees(reg, s),
    ensures
        same_outcome(pre, reg),
{
    lemma_same_outcome(s, pre, reg);
}

/// The reason code of the rejection of `text`.
pub fn error_for_bytes(text: &[u8]) -> (r: &'static str)
    requires
        content_line(text@) is Err,
    ensures
        r@ == reason_of(content_line(text@)->Err_0.kind),
{
    match preparse(text) {
        Err(e) => e.reason(),
        // a rejected input never parses
        Ok(_) => EMPTY_CONTENT_LINE,
    }
}

/// The reason code of the rejection of `text`.
pub fn error_for(text: &str) -> (r: &'static str)
    requires
        content_line(text.spec_bytes()) is Err,
    ensures
        r@ == reason_of(content_line(text.spec_bytes())->Err_0.kind),
{
    error_for_bytes(text.as_bytes())
}

/// The strings of the property that `text` parses to.
pub fn parse(text: &str) -> (r: StrProp)
    requires
        content_line(text.spec_bytes()) is Ok,
    ensures
        r.texts() == prop_text(text.spec_bytes(), content_line(text.spec_bytes())->Ok_0),
{
    let b = text.as_bytes();
    match preparse(b) {
        Ok(p) => {
            proof {
                lemma_texts(p, b@);
            }
            delocate(&p)
        },
        // an accepted input never fails
        Err(_) => StrProp { name: String::new(), parameters: Vec::new(), value: String::new() },
    }
}

} // verus!
