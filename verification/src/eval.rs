//! The evaluator: the value of an expression tree in a scope.

use vstd::prelude::*;
use vstd::string::StringExecFns;
use crate::error::{leaf, Error, ErrorType, ErrorView};
use crate::expr::{lemma_expr_view, Expr, ExprView};
use crate::float::{ask, float_unit, model_of, FloatModel, FloatReply, FloatRequest, FloatRequestView, Number};
use crate::text::{join, push_char, render_int, signed_decimal};
use crate::util::{
    lemma_object_view, objects_view, scope_get, scope_has, Bindings, ObjectView, Operator,
    RickrollObject, Scope,
};

verus! {

/// The name of the type of a value.
pub open spec fn kind_name(v: ObjectView) -> Seq<char> {
    match v {
        ObjectView::Int(_) => "Int"@,
        ObjectView::Float(_) => "Float"@,
        ObjectView::Bool(_) => "Bool"@,
        ObjectView::Array(_) => "Array"@,
        ObjectView::Char(_) => "Char"@,
        ObjectView::Undefined => "Undefined"@,
    }
}

/// The error for a unary operator on an operand of the wrong type.
pub open spec fn unary_type_error(op: Operator, a: ObjectView) -> ErrorView {
    leaf(ErrorType::IllegalArgumentError, op.name() + " is not defined for "@ + kind_name(a), None)
}

/// The error for a binary operator on operands of the wrong types.
pub open spec fn binary_type_error(op: Operator, a: ObjectView, b: ObjectView) -> ErrorView {
    leaf(
        ErrorType::IllegalArgumentError,
        op.name() + " is not defined for "@ + kind_name(a) + " and "@ + kind_name(b),
        None,
    )
}

pub open spec fn illegal_operation() -> ErrorView {
    leaf(ErrorType::NameError, "Illegal operation"@, None)
}

pub open spec fn division_by_zero() -> ErrorView {
    leaf(ErrorType::RuntimeError, "Division by zero"@, None)
}

pub open spec fn index_out_of_bounds() -> ErrorView {
    leaf(ErrorType::IndexOutOfBoundsError, "Array index out of bounds"@, None)
}

pub open spec fn no_variable(name: Seq<char>) -> ErrorView {
    leaf(ErrorType::NameError, "Variable "@ + name + " doesn't exist"@, None)
}

/// The quotient of `x` by `y`, rounded towards zero.
pub open spec fn truncated_quotient(x: int, y: int) -> int {
    if x >= 0 {
        if y > 0 {
            x / y
        } else {
            -(x / (-y))
        }
    } else {
        if y > 0 {
            -((-x) / y)
        } else {
            (-x) / (-y)
        }
    }
}

/// Division of 32-bit integers that wraps where the quotient does not fit.
pub open spec fn wrapping_quotient(x: i32, y: i32) -> i32 {
    if x == i32::MIN && y == -1 {
        i32::MIN
    } else {
        truncated_quotient(x as int, y as int) as i32
    }
}

/// The remainder that goes with `wrapping_quotient`.
pub open spec fn wrapping_remainder(x: i32, y: i32) -> i32 {
    if x == i32::MIN && y == -1 {
        0
    } else {
        (x - y * truncated_quotient(x as int, y as int)) as i32
    }
}

/// The number that a value is, if it is one.
pub open spec fn number_of(v: ObjectView) -> Option<Number> {
    match v {
        ObjectView::Int(x) => Some(Number::Int(x)),
        ObjectView::Float(x) => Some(Number::Float(x)),
        _ => None,
    }
}

/// An arithmetic operator or an ordering on two integers. Arithmetic wraps.
pub open spec fn int_operation(op: Operator, x: i32, y: i32) -> Result<ObjectView, ErrorView> {
    match op {
        Operator::Add => Ok(ObjectView::Int(x.wrapping_add(y))),
        Operator::Subtract => Ok(ObjectView::Int(x.wrapping_sub(y))),
        Operator::Multiply => Ok(ObjectView::Int(x.wrapping_mul(y))),
        Operator::Divide => if y == 0 {
            Err(division_by_zero())
        } else {
            Ok(ObjectView::Int(wrapping_quotient(x, y)))
        },
        Operator::Modulo => if y == 0 {
            Err(division_by_zero())
        } else {
            Ok(ObjectView::Int(wrapping_remainder(x, y)))
        },
        Operator::Greater => Ok(ObjectView::Bool(x > y)),
        Operator::Less => Ok(ObjectView::Bool(x < y)),
        Operator::GreaterEquals => Ok(ObjectView::Bool(x >= y)),
        Operator::LessEquals => Ok(ObjectView::Bool(x <= y)),
        _ => Err(illegal_operation()),
    }
}

/// An arithmetic operator or an ordering: on two integers computed here;
/// where one operand at least is a float, what the float unit answers.
pub open spec fn numeric_operation(op: Operator, a: ObjectView, b: ObjectView, unit: FloatModel) -> Result<
    ObjectView,
    ErrorView,
> {
    match (number_of(a), number_of(b)) {
        (Some(Number::Int(x)), Some(Number::Int(y))) => int_operation(op, x, y),
        (Some(m), Some(n)) => Ok(unit(FloatRequestView::Binary(op, m, n)).value),
        _ => Err(binary_type_error(op, a, b)),
    }
}

/// `==` and `!=`: defined on two values of one scalar type; on any other
/// pair `==` is false and `!=` is true.
pub open spec fn equality(op: Operator, a: ObjectView, b: ObjectView, unit: FloatModel) -> ObjectView {
    let negate = op == Operator::NotEquals;
    match (a, b) {
        (ObjectView::Int(x), ObjectView::Int(y)) => ObjectView::Bool((x == y) != negate),
        (ObjectView::Bool(x), ObjectView::Bool(y)) => ObjectView::Bool((x == y) != negate),
        (ObjectView::Char(x), ObjectView::Char(y)) => ObjectView::Bool((x == y) != negate),
        (ObjectView::Float(x), ObjectView::Float(y)) => unit(
            FloatRequestView::Binary(op, Number::Float(x), Number::Float(y)),
        ).value,
        _ => ObjectView::Bool(negate),
    }
}

/// The value of a binary operator on two values.
pub open spec fn binary_spec(op: Operator, a: ObjectView, b: ObjectView, unit: FloatModel) -> Result<
    ObjectView,
    ErrorView,
> {
    match op {
        Operator::ArrayAccess => match (a, b) {
            (ObjectView::Array(items), ObjectView::Int(x)) => if 0 <= x < items.len() {
                Ok(items[x as int])
            } else {
                Err(index_out_of_bounds())
            },
            _ => Err(binary_type_error(op, a, b)),
        },
        Operator::And => match (a, b) {
            (ObjectView::Bool(x), ObjectView::Bool(y)) => Ok(ObjectView::Bool(x && y)),
            _ => Err(binary_type_error(op, a, b)),
        },
        Operator::Or => match (a, b) {
            (ObjectView::Bool(x), ObjectView::Bool(y)) => Ok(ObjectView::Bool(x || y)),
            _ => Err(binary_type_error(op, a, b)),
        },
        Operator::Equals | Operator::NotEquals => Ok(equality(op, a, b, unit)),
        Operator::Add
        | Operator::Subtract
        | Operator::Multiply
        | Operator::Divide
        | Operator::Modulo
        | Operator::Greater
        | Operator::Less
        | Operator::GreaterEquals
        | Operator::LessEquals => numeric_operation(op, a, b, unit),
        _ => Err(illegal_operation()),
    }
}

/// The value of a unary operator on a value.
pub open spec fn unary_spec(op: Operator, a: ObjectView, unit: FloatModel) -> Result<
    ObjectView,
    ErrorView,
> {
    match op {
        Operator::UnaryMinus => match a {
            ObjectView::Int(x) => Ok(ObjectView::Int(0i32.wrapping_sub(x))),
            ObjectView::Float(x) => Ok(unit(FloatRequestView::Negate(x)).value),
            _ => Err(unary_type_error(op, a)),
        },
        Operator::Not => match a {
            ObjectView::Bool(x) => Ok(ObjectView::Bool(!x)),
            _ => Err(unary_type_error(op, a)),
        },
        _ => Err(illegal_operation()),
    }
}

/// The value of an expression in a scope: a literal is itself, a name is
/// what the innermost block that declares it binds it to, an operation is
/// its operator on the values of its operands, the left one evaluated
/// first. The first error ends the evaluation.
pub open spec fn eval_spec(e: ExprView, scope: Seq<Bindings>, unit: FloatModel) -> Result<
    ObjectView,
    ErrorView,
>
    decreases e,
{
    match e {
        ExprView::Value(v) => Ok(v),
        ExprView::Name(name) => if scope_has(scope, name) {
            Ok(scope_get(scope, name))
        } else {
            Err(no_variable(name))
        },
        ExprView::Operation(op, args) => if op.unary() && args.len() == 1 {
            match eval_spec(args[0], scope, unit) {
                Err(e) => Err(e),
                Ok(v) => unary_spec(op, v, unit),
            }
        } else if !op.unary() && args.len() == 2 {
            match eval_spec(args[1], scope, unit) {
                Err(e) => Err(e),
                Ok(first) => match eval_spec(args[0], scope, unit) {
                    Err(e) => Err(e),
                    Ok(second) => binary_spec(op, first, second, unit),
                },
            }
        } else {
            Err(illegal_operation())
        },
    }
}

/// What a result of a value is.
pub open spec fn object_result(r: Result<RickrollObject, Error>) -> Result<ObjectView, ErrorView> {
    match r {
        Ok(v) => Ok(v@),
        Err(e) => Err(e@),
    }
}

fn type_of(v: &RickrollObject) -> (r: &'static str)
    ensures
        r@ == kind_name(v@),
{
    proof {
        lemma_object_view(*v);
    }
    match v {
        RickrollObject::Int(_) => "Int",
        RickrollObject::Float(_) => "Float",
        RickrollObject::Bool(_) => "Bool",
        RickrollObject::Array(_) => "Array",
        RickrollObject::Char(_) => "Char",
        RickrollObject::Undefined => "Undefined",
    }
}

/// The error for an operator on operands of the wrong types.
pub fn eval_err(op: &Operator, first: &RickrollObject, second: Option<&RickrollObject>) -> (r: Error)
    ensures
        r@ == match second {
            Some(b) => binary_type_error(*op, first@, b@),
            None => unary_type_error(*op, first@),
        },
{
    let mut msg = op.as_string();
    msg.append(" is not defined for ");
    msg.append(type_of(first));
    match second {
        Some(b) => {
            msg.append(" and ");
            msg.append(type_of(b));
        },
        None => {},
    }
    let r = Error::new(ErrorType::IllegalArgumentError, msg.as_str(), None);
    assert(r@.desc =~= match second {
        Some(b) => op.name() + " is not defined for "@ + kind_name(first@) + " and "@ + kind_name(
            b@,
        ),
        None => op.name() + " is not defined for "@ + kind_name(first@),
    });
    r
}

/// Division that rounds towards zero and wraps.
pub fn divide(x: i32, y: i32) -> (r: i32)
    requires
        y != 0,
    ensures
        r == wrapping_quotient(x, y),
{
    if x == i32::MIN && y == -1 {
        return i32::MIN;
    }
    let a: u64 = if x >= 0 {
        x as u64
    } else {
        (-(x as i64)) as u64
    };
    let b: u64 = if y >= 0 {
        y as u64
    } else {
        (-(y as i64)) as u64
    };
    let q: u64 = a / b;
    assert(q <= a) by (nonlinear_arith)
        requires
            q == a / b,
            b >= 1,
    ;
    assert(q < 0x8000_0000 || (x == i32::MIN && b == 1)) by (nonlinear_arith)
        requires
            q == a / b,
            b >= 1,
            a <= 0x8000_0000,
            a == 0x8000_0000 ==> x == i32::MIN,
    ;
    if (x >= 0) == (y > 0) {
        q as i32
    } else {
        (-(q as i64)) as i32
    }
}

/// The remainder of the division that rounds towards zero.
pub fn remainder(x: i32, y: i32) -> (r: i32)
    requires
        y != 0,
    ensures
        r == wrapping_remainder(x, y),
{
    if x == i32::MIN && y == -1 {
        return 0;
    }
    let q = divide(x, y);
    let a: u64 = if x >= 0 {
        x as u64
    } else {
        (-(x as i64)) as u64
    };
    let b: u64 = if y >= 0 {
        y as u64
    } else {
        (-(y as i64)) as u64
    };
    let m: u64 = a % b;
    assert(m < b && a == b * (a / b) + m) by (nonlinear_arith)
        requires
            m == a % b,
            b >= 1,
    ;
    proof {
        let qq = (a / b) as int;
        let tq = truncated_quotient(x as int, y as int);
        let xi = x as int;
        let yi = y as int;
        let ai = a as int;
        let bi = b as int;
        let mi = m as int;
        assert(tq == if (x >= 0) == (y > 0) {
            qq
        } else {
            -qq
        });
        assert(xi - yi * tq == if xi >= 0 {
            mi
        } else {
            -mi
        }) by (nonlinear_arith)
            requires
                ai == bi * qq + mi,
                ai == (if xi >= 0 {
                    xi
                } else {
                    -xi
                }),
                bi == (if yi >= 0 {
                    yi
                } else {
                    -yi
                }),
                yi != 0,
                tq == (if (xi >= 0) == (yi > 0) {
                    qq
                } else {
                    -qq
                }),
        ;
    }
    if x >= 0 {
        m as i32
    } else {
        (-(m as i64)) as i32
    }
}

fn number(v: &RickrollObject) -> (r: Option<Number>)
    ensures
        r == number_of(v@),
{
    proof {
        lemma_object_view(*v);
    }
    match v {
        RickrollObject::Int(x) => Some(Number::Int(*x)),
        RickrollObject::Float(x) => Some(Number::Float(*x)),
        _ => None,
    }
}

fn int_apply(op: Operator, x: i32, y: i32) -> (r: Result<RickrollObject, Error>)
    ensures
        object_result(r) == int_operation(op, x, y),
{
    let r = match op {
        Operator::Add => RickrollObject::Int(x.wrapping_add(y)),
        Operator::Subtract => RickrollObject::Int(x.wrapping_sub(y)),
        Operator::Multiply => RickrollObject::Int(x.wrapping_mul(y)),
        Operator::Divide => {
            if y == 0 {
                return Err(Error::new(ErrorType::RuntimeError, "Division by zero", None));
            }
            RickrollObject::Int(divide(x, y))
        },
        Operator::Modulo => {
            if y == 0 {
                return Err(Error::new(ErrorType::RuntimeError, "Division by zero", None));
            }
            RickrollObject::Int(remainder(x, y))
        },
        Operator::Greater => RickrollObject::Bool(x > y),
        Operator::Less => RickrollObject::Bool(x < y),
        Operator::GreaterEquals => RickrollObject::Bool(x >= y),
        Operator::LessEquals => RickrollObject::Bool(x <= y),
        _ => {
            return Err(Error::new(ErrorType::NameError, "Illegal operation", None));
        },
    };
    proof {
        lemma_object_view(r);
    }
    Ok(r)
}

/// Applies a binary operator to two values.
pub fn apply_binary<F: Fn(FloatRequest) -> FloatReply>(
    op: Operator,
    first: RickrollObject,
    second: RickrollObject,
    unit: &F,
) -> (r: Result<RickrollObject, Error>)
    requires
        float_unit(unit),
    ensures
        object_result(r) == binary_spec(op, first@, second@, model_of(unit)),
{
    proof {
        lemma_object_view(first);
        lemma_object_view(second);
    }
    match op {
        Operator::ArrayAccess => {
            match (&first, &second) {
                (RickrollObject::Array(arr), RickrollObject::Int(x)) => {
                    if *x >= 0 && (*x as usize) < arr.len() {
                        Ok(arr[*x as usize].clone())
                    } else {
                        Err(
                            Error::new(
                                ErrorType::IndexOutOfBoundsError,
                                "Array index out of bounds",
                                None,
                            ),
                        )
                    }
                },
                _ => Err(eval_err(&op, &first, Some(&second))),
            }
        },
        Operator::And | Operator::Or => {
            match (&first, &second) {
                (RickrollObject::Bool(x), RickrollObject::Bool(y)) => {
                    let r = RickrollObject::Bool(
                        if op == Operator::And {
                            *x && *y
                        } else {
                            *x || *y
                        },
                    );
                    proof {
                        lemma_object_view(r);
                    }
                    Ok(r)
                },
                _ => Err(eval_err(&op, &first, Some(&second))),
            }
        },
        Operator::Equals | Operator::NotEquals => {
            let negate = op == Operator::NotEquals;
            let r = match (&first, &second) {
                (RickrollObject::Int(x), RickrollObject::Int(y)) => RickrollObject::Bool(
                    (*x == *y) != negate,
                ),
                (RickrollObject::Bool(x), RickrollObject::Bool(y)) => RickrollObject::Bool(
                    (*x == *y) != negate,
                ),
                (RickrollObject::Char(x), RickrollObject::Char(y)) => RickrollObject::Bool(
                    (*x == *y) != negate,
                ),
                (RickrollObject::Float(x), RickrollObject::Float(y)) => ask(
                    unit,
                    FloatRequest::Binary(op, Number::Float(*x), Number::Float(*y)),
                ).value,
                _ => RickrollObject::Bool(negate),  // default
            };
            proof {
                lemma_object_view(r);
            }
            Ok(r)
        },
        Operator::Add
        | Operator::Subtract
        | Operator::Multiply
        | Operator::Divide
        | Operator::Modulo
        | Operator::Greater
        | Operator::Less
        | Operator::GreaterEquals
        | Operator::LessEquals => {
            match (number(&first), number(&second)) {
                (Some(Number::Int(x)), Some(Number::Int(y))) => int_apply(op, x, y),
                (Some(m), Some(n)) => Ok(ask(unit, FloatRequest::Binary(op, m, n)).value),
                _ => Err(eval_err(&op, &first, Some(&second))),
            }
        },
        _ => Err(Error::new(ErrorType::NameError, "Illegal operation", None)),
    }
}

/// Applies a unary operator to a value.
pub fn apply_unary<F: Fn(FloatRequest) -> FloatReply>(
    op: Operator,
    operand: RickrollObject,
    unit: &F,
) -> (r: Result<RickrollObject, Error>)
    requires
        float_unit(unit),
    ensures
        object_result(r) == unary_spec(op, operand@, model_of(unit)),
{
    proof {
        lemma_object_view(operand);
    }
    match op {
        Operator::UnaryMinus => match &operand {
            RickrollObject::Int(x) => {
                let r = RickrollObject::Int(0i32.wrapping_sub(*x));
                proof {
                    lemma_object_view(r);
                }
                Ok(r)
            },
            RickrollObject::Float(x) => Ok(ask(unit, FloatRequest::Negate(*x)).value),
            _ => Err(eval_err(&op, &operand, None)),
        },
        Operator::Not => match &operand {
            RickrollObject::Bool(x) => {
                let r = RickrollObject::Bool(!*x);
                proof {
                    lemma_object_view(r);
                }
                Ok(r)
            },
            _ => Err(eval_err(&op, &operand, None)),
        },
        _ => Err(Error::new(ErrorType::NameError, "Illegal operation", None)),
    }
}

/// Evaluates an expression in a scope.
pub fn eval<F: Fn(FloatRequest) -> FloatReply>(expr: &Expr, scope: &Scope, unit: &F) -> (r: Result<
    RickrollObject,
    Error,
>)
    requires
        float_unit(unit),
    ensures
        object_result(r) == eval_spec(expr@, scope@, model_of(unit)),
    decreases expr,
{
    proof {
        lemma_expr_view(*expr);
    }
    match expr {
        Expr::Value(obj) => Ok(obj.clone()),
        Expr::Name(name) => {
            match scope.get_var(name.clone()) {
                Some(v) => Ok(v),
                None => {
                    let mut msg = join("Variable ", name.as_str());
                    msg.append(" doesn't exist");
                    Err(Error::new(ErrorType::NameError, msg.as_str(), None))
                },
            }
        },
        Expr::Operation(op, args) => {
            if op.is_unary() && args.len() == 1 {
                let operand = match eval(&args[0], scope, unit) {
                    Ok(v) => v,
                    Err(e) => {
                        return Err(e);
                    },
                };
                apply_unary(*op, operand, unit)
            } else if !op.is_unary() && args.len() == 2 {
                // expressions operands start from the top
                let first = match eval(&args[1], scope, unit) {
                    Ok(v) => v,
                    Err(e) => {
                        return Err(e);
                    },
                };
                let second = match eval(&args[0], scope, unit) {
                    Ok(v) => v,
                    Err(e) => {
                        return Err(e);
                    },
                };
                apply_binary(*op, first, second, unit)
            } else {
                Err(Error::new(ErrorType::NameError, "Illegal operation", None))
            }
        },
    }
}

/// The text of a value: an integer in decimal, a float as the float unit
/// writes it, a flag as `TRUE` or `FALSE`, a character as itself, an array
/// as its items between brackets.
pub open spec fn render_spec(v: ObjectView, unit: FloatModel) -> Seq<char>
    decreases v, 0nat,
{
    match v {
        ObjectView::Int(x) => signed_decimal(x as int),
        ObjectView::Float(bits) => unit(FloatRequestView::Render(bits)).text,
        ObjectView::Bool(b) => if b {
            "TRUE"@
        } else {
            "FALSE"@
        },
        ObjectView::Array(items) => seq!['['] + render_items(items, items.len(), unit) + seq![']'],
        ObjectView::Char(c) => seq![c],
        ObjectView::Undefined => "UNDEFINED"@,
    }
}

/// The texts of the first `n` items, with `, ` between them.
pub open spec fn render_items(items: Seq<ObjectView>, n: nat, unit: FloatModel) -> Seq<char>
    decreases items, n,
{
    if n == 0 || n > items.len() {
        Seq::empty()
    } else if n == 1 {
        render_spec(items[0], unit)
    } else {
        render_items(items, (n - 1) as nat, unit) + ", "@ + render_spec(items[n - 1], unit)
    }
}

impl RickrollObject {
    /// The text that is printed for the value.
    #[verifier::loop_isolation(false)]
    pub fn to_string<F: Fn(FloatRequest) -> FloatReply>(&self, unit: &F) -> (r: String)
        requires
            float_unit(unit),
        ensures
            r@ == render_spec(self@, model_of(unit)),
        decreases self,
    {
        proof {
            lemma_object_view(*self);
        }
        match self {
            RickrollObject::Int(x) => render_int(*x),
            RickrollObject::Float(x) => ask(unit, FloatRequest::Render(*x)).text,
            RickrollObject::Bool(x) => String::from_str(
                if *x {
                    "TRUE"
                } else {
                    "FALSE"
                },
            ),
            RickrollObject::Array(x) => {
                let ghost items = objects_view(x@);
                let ghost m = model_of(unit);
                let mut res = String::from_str("[");
                proof {
                    reveal_strlit("[");
                    assert("["@ =~= seq!['[']);
                }
                let mut ind: usize = 0;
                while ind < x.len()
                    invariant
                        ind <= x.len(),
                        items == objects_view(x@),
                        m == model_of(unit),
                        float_unit(unit),
                        res@ == seq!['['] + render_items(items, ind as nat, m),
                    decreases x.len() - ind,
                {
                    assert(items[ind as int] == x[ind as int]@);
                    if ind != 0 {
                        res.append(", ");
                    }
                    let piece = x[ind].to_string(unit);
                    res.append(piece.as_str());
                    ind += 1;
                    assert(res@ =~= seq!['['] + render_items(items, ind as nat, m));
                }
                push_char(&mut res, ']');
                assert(res@ =~= seq!['['] + render_items(items, items.len(), m) + seq![']']);
                res
            },
            RickrollObject::Char(x) => {
                let mut res = String::new();
                push_char(&mut res, *x);
                assert(res@ =~= seq![*x]);
                res
            },
            RickrollObject::Undefined => String::from_str("UNDEFINED"),
        }
    }
}

} // verus!
