//! Values paired with the byte range of the input they were decoded from.
use vstd::prelude::*;
use vstd::slice::slice_subrange;
use vstd::utf8::{decode_utf8, valid_utf8};
use crate::grammar::{ParamShape, PropShape, Span};

verus! {

/// A decoded string and the half-open byte range `[start, end)` it came from.
#[derive(Clone, Debug, PartialEq, Eq)]
pub struct Located {
    pub val: String,
    pub start: usize,
    pub end: usize,
}

/// A parameter: its name and its ordered, non-empty list of values.
#[derive(Clone, Debug, PartialEq, Eq)]
pub struct Param {
    pub name: Located,
    pub values: Vec<Located>,
}

/// A parsed content line: name, parameters in textual order, and value.
#[derive(Clone, Debug, PartialEq, Eq)]
pub struct Prop {
    pub name: Located,
    pub parameters: Vec<Param>,
    pub value: Located,
}

impl Located {
    /// The byte range this value came from.
    pub open spec fn span(&self) -> Span {
        Span { start: self.start as int, end: self.end as int }
    }

    /// The range lies in `s`, is valid UTF-8, and `val` is what it encodes.
    pub open spec fn decodes(&self, s: Seq<u8>) -> bool {
        &&& self.start <= self.end <= s.len()
        &&& valid_utf8(s.subrange(self.start as int, self.end as int))
        &&& self.val@ == decode_utf8(s.subrange(self.start as int, self.end as int))
    }
}

/// The byte ranges of a list of located values.
pub open spec fn spans(vs: Seq<Located>) -> Seq<Span> {
    vs.map_values(|v: Located| v.span())
}

/// Every value of the list decodes from `s`.
pub open spec fn all_decode(vs: Seq<Located>, s: Seq<u8>) -> bool {
    forall|k: int| 0 <= k < vs.len() ==> (#[trigger] vs[k]).decodes(s)
}

impl Param {
    pub open spec fn shape(&self) -> ParamShape {
        ParamShape { name: self.name.span(), values: spans(self.values@) }
    }

    pub open spec fn decodes(&self, s: Seq<u8>) -> bool {
        self.name.decodes(s) && all_decode(self.values@, s)
    }
}

/// The shapes of a list of parameters.
pub open spec fn shapes(ps: Seq<Param>) -> Seq<ParamShape> {
    ps.map_values(|p: Param| p.shape())
}

impl Prop {
    pub open spec fn shape(&self) -> PropShape {
        PropShape { name: self.name.span(), params: shapes(self.parameters@), value: self.value.span() }
    }

    /// Every name and value of this property decodes from `s`.
    pub open spec fn decodes(&self, s: Seq<u8>) -> bool {
        &&& self.name.decodes(s)
        &&& self.value.decodes(s)
        &&& forall|k: int| 0 <= k < self.parameters@.len() ==> (#[trigger] self.parameters@[k]).decodes(s)
    }
}

/// Relies on std::str::from_utf8: on valid UTF-8 bytes it returns the string they encode.
#[verifier::external_body]
fn utf8_str(b: &[u8]) -> (r: &str)
    requires
        valid_utf8(b@),
    ensures
        r@ == decode_utf8(b@),
{
    std::str::from_utf8(b).unwrap()
}

/// The value that bytes `[start, end)` of `s` encode, with its range.
pub fn located(s: &[u8], start: usize, end: usize) -> (r: Located)
    requires
        start <= end <= s.len(),
        valid_utf8(s@.subrange(start as int, end as int)),
    ensures
        r.start == start,
        r.end == end,
        r.decodes(s@),
{
    let b = slice_subrange(s, start, end);
    let v = utf8_str(b);
    Located { val: v.to_owned(), start, end }
}

/// A parameter's name and values, as strings.
pub type ParamText = (Seq<char>, Seq<Seq<char>>);

/// A property's name, parameters and value, as strings.
pub type PropText = (Seq<char>, Seq<ParamText>, Seq<char>);

/// The string that range `sp` of `s` encodes.
pub open spec fn text_of(s: Seq<u8>, sp: Span) -> Seq<char> {
    decode_utf8(s.subrange(sp.start, sp.end))
}

pub open spec fn param_text(s: Seq<u8>, p: ParamShape) -> ParamText {
    (text_of(s, p.name), p.values.map_values(|v: Span| text_of(s, v)))
}

/// The strings that the ranges of `p` encode in `s`.
pub open spec fn prop_text(s: Seq<u8>, p: PropShape) -> PropText {
    (text_of(s, p.name), p.params.map_values(|q: ParamShape| param_text(s, q)), text_of(s, p.value))
}

impl Param {
    pub open spec fn texts(&self) -> ParamText {
        (self.name.val@, self.values@.map_values(|v: Located| v.val@))
    }
}

impl Prop {
    /// The strings this property holds.
    pub open spec fn texts(&self) -> PropText {
        (self.name.val@, self.parameters@.map_values(|p: Param| p.texts()), self.value.val@)
    }
}

/// The strings of a property that decodes from `s` are what its ranges encode.
pub proof fn lemma_texts(p: Prop, s: Seq<u8>)
    requires
        p.decodes(s),
    ensures
        p.texts() == prop_text(s, p.shape()),
{
    let a = p.parameters@.map_values(|q: Param| q.texts());
    let b = p.shape().params.map_values(|q: ParamShape| param_text(s, q));
    assert forall|k: int| 0 <= k < a.len() implies a[k] == b[k] by {
        let q = p.parameters@[k];
        assert(q.decodes(s));
        assert(q.texts().1 =~= param_text(s, q.shape()).1) by {
            assert forall|m: int| 0 <= m < q.values@.len() implies q.values@[m].val@ == text_of(
                s,
                q.values@[m].span(),
            ) by {
                assert(q.values@[m].decodes(s));
            }
        }
    }
    assert(a =~= b);
}

} // verus!
