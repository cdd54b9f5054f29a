//! The float unit: the host's arithmetic on 32-bit floats.
//!
//! The library holds a float by its bits and computes nothing on it. Where
//! a stage needs the value of a float literal, the result of an operation
//! on floats or the text of a float, it asks the unit that its caller
//! handed in, and its contract speaks of what the unit answered.

use vstd::prelude::*;
use crate::util::{ObjectView, Operator, RickrollObject};

verus! {

/// An operand of an operation on floats: an integer to be promoted, or the
/// bits of a float.
#[derive(Debug, Clone, Copy, PartialEq, Eq, Structural)]
pub enum Number {
    Int(i32),
    Float(u32),
}

/// What is asked of the unit.
pub enum FloatRequestView {
    Literal(Seq<char>),
    Render(u32),
    Negate(u32),
    Binary(Operator, Number, Number),
}

/// What the unit answered.
pub struct FloatReplyView {
    pub value: ObjectView,
    pub text: Seq<char>,
}

/// A question to the float unit.
#[derive(Debug)]
pub enum FloatRequest {
    /// The value of a literal made of digits and one `.`.
    Literal(String),
    /// The text of the float with these bits.
    Render(u32),
    /// The negation of the float with these bits.
    Negate(u32),
    /// The result of an arithmetic operator or a comparison on two numbers,
    /// one of them at least a float.
    Binary(Operator, Number, Number),
}

impl View for FloatRequest {
    type V = FloatRequestView;

    open spec fn view(&self) -> FloatRequestView {
        match self {
            FloatRequest::Literal(text) => FloatRequestView::Literal(text@),
            FloatRequest::Render(bits) => FloatRequestView::Render(*bits),
            FloatRequest::Negate(bits) => FloatRequestView::Negate(*bits),
            FloatRequest::Binary(op, a, b) => FloatRequestView::Binary(*op, *a, *b),
        }
    }
}

/// The unit's answer: `value` to a literal, a negation or an operation,
/// `text` to a rendering. The field that was not asked for is not read.
#[derive(Debug)]
pub struct FloatReply {
    pub value: RickrollObject,
    pub text: String,
}

impl View for FloatReply {
    type V = FloatReplyView;

    open spec fn view(&self) -> FloatReplyView {
        FloatReplyView { value: self.value@, text: self.text@ }
    }
}

/// The unit as a function from questions to answers.
pub type FloatModel = spec_fn(FloatRequestView) -> FloatReplyView;

/// What a unit must be: it answers every question, and the same question
/// always in the same way.
pub open spec fn float_unit<F: Fn(FloatRequest) -> FloatReply>(f: &F) -> bool {
    &&& forall|req: FloatRequest| #[trigger] f.requires((req,))
    &&& forall|a: FloatRequest, b: FloatRequest, x: FloatReply, y: FloatReply|
        a@ == b@ && #[trigger] f.ensures((a,), x) && #[trigger] f.ensures((b,), y) ==> x@ == y@
}

/// Whether `rep` is an answer that `f` may give to `req`.
pub open spec fn answers<F: Fn(FloatRequest) -> FloatReply>(
    f: &F,
    req: FloatRequestView,
    rep: FloatReplyView,
) -> bool {
    exists|a: FloatRequest, x: FloatReply| a@ == req && x@ == rep && #[trigger] f.ensures((a,), x)
}

/// The answer of `f` to a question.
pub open spec fn answer_of<F: Fn(FloatRequest) -> FloatReply>(
    f: &F,
    req: FloatRequestView,
) -> FloatReplyView {
    choose|rep: FloatReplyView| answers(f, req, rep)
}

/// The function that `f` computes.
pub open spec fn model_of<F: Fn(FloatRequest) -> FloatReply>(f: &F) -> FloatModel {
    |req: FloatRequestView| answer_of(f, req)
}

/// Asks the unit.
pub fn ask<F: Fn(FloatRequest) -> FloatReply>(f: &F, req: FloatRequest) -> (r: FloatReply)
    requires
        float_unit(f),
    ensures
        r@ == model_of(f)(req@),
{
    let r = f(req);
    proof {
        let chosen = answer_of(f, req@);
        assert(f.ensures((req,), r));
        assert(answers(f, req@, r@));
        let (a, x) = choose|a: FloatRequest, x: FloatReply|
            a@ == req@ && x@ == chosen && #[trigger] f.ensures((a,), x);
        assert(x@ == r@);
    }
    r
}

} // verus!
