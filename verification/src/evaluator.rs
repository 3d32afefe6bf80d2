use vstd::prelude::*;

use crate::parser::BinaryOperator;
use crate::Error;

verus! {

/// A node of an expression tree built by a grammar-driven parse: a literal
/// leaf, a signed term, or an operator over two subtrees.
///
/// Grouping parentheses never appear here: they only scope which tokens form
/// a subtree, so a parenthesized expression is just its own tree. Each node
/// owns its children outright; the tree is acyclic by construction.
#[derive(Debug, PartialEq)]
pub enum Node {
    Integer(i64),
    UnaryExpr { op: BinaryOperator, term: Box<Node> },
    BinaryExpr { left: Box<Node>, op: BinaryOperator, right: Box<Node> },
}

/// The abstract outcome of evaluating a node: a mathematical value, or one
/// of the three ways evaluation fails. Used only in specifications.
pub enum EvalOutcome {
    Value(int),
    DivisionByZero,
    InvalidUnary,
    Overflow,
}

/// Whether a mathematical value fits the evaluator's `i64` range.
pub open spec fn in_value_range(v: int) -> bool {
    i64::MIN <= v <= i64::MAX
}

/// Truncating integer division: the quotient of the magnitudes, negative
/// exactly when the operands' signs differ.
pub open spec fn trunc_div(x: int, d: int) -> int
    recommends
        d != 0,
{
    if x == 0 {
        0
    } else if x > 0 && d > 0 {
        x / d
    } else if x < 0 && d < 0 {
        (x * -1) / (d * -1)
    } else if x < 0 {
        ((x * -1) / d) * -1
    } else {
        (x / (d * -1)) * -1
    }
}

/// Truncating remainder: the remainder of the magnitudes, carrying the
/// dividend's sign.
pub open spec fn trunc_rem(x: int, d: int) -> int
    recommends
        d != 0,
{
    if x == 0 {
        0
    } else if x > 0 && d > 0 {
        x % d
    } else if x < 0 && d < 0 {
        ((x * -1) % (d * -1)) * -1
    } else if x < 0 {
        ((x * -1) % d) * -1
    } else {
        x % (d * -1)
    }
}

/// Truncating division and remainder fit together: the divisor times the
/// quotient plus the remainder gives the dividend back, and the remainder
/// is smaller in magnitude than the divisor and carries the dividend's sign.
pub proof fn lemma_trunc_div_rem(x: int, d: int)
    requires
        d != 0,
    ensures
        x == d * trunc_div(x, d) + trunc_rem(x, d),
        x >= 0 ==> 0 <= trunc_rem(x, d) < (if d > 0 {
            d
        } else {
            -d
        }),
        x < 0 ==> (if d > 0 {
            -d
        } else {
            d
        }) < trunc_rem(x, d) <= 0,
{
    let m = if d > 0 {
        d
    } else {
        -d
    };
    if x == 0 {
    } else if x > 0 {
        vstd::arithmetic::div_mod::lemma_fundamental_div_mod(x, m);
        vstd::arithmetic::div_mod::lemma_mod_division_less_than_divisor(x, m);
        let q = x / m;
        let r = x % m;
        if d < 0 {
            assert(trunc_div(x, d) == q * -1);
            assert(trunc_rem(x, d) == r);
            assert(d * (q * -1) == m * q) by (nonlinear_arith)
                requires
                    d == 0 - m,
            ;
        }
    } else {
        vstd::arithmetic::div_mod::lemma_fundamental_div_mod(x * -1, m);
        vstd::arithmetic::div_mod::lemma_mod_division_less_than_divisor(x * -1, m);
        let q = (x * -1) / m;
        let r = (x * -1) % m;
        assert(x * -1 == m * q + r);
        if d > 0 {
            assert(trunc_div(x, d) == q * -1);
            assert(trunc_rem(x, d) == r * -1);
            assert(d * (q * -1) == 0 - m * q) by (nonlinear_arith)
                requires
                    d == m,
            ;
        } else {
            assert(trunc_div(x, d) == q);
            assert(trunc_rem(x, d) == r * -1);
            assert(d * q == 0 - m * q) by (nonlinear_arith)
                requires
                    d == 0 - m,
            ;
        }
    }
}

/// The outcome of one binary arithmetic step on two already-evaluated
/// operands: sum, difference, product, truncating quotient or truncating
/// remainder, each reported as an overflow when it leaves the value range,
/// and a zero divisor reported as a division by zero.
pub open spec fn spec_binary_step(op: BinaryOperator, l: int, r: int) -> EvalOutcome {
    match op {
        BinaryOperator::Add => if in_value_range(l + r) {
            EvalOutcome::Value(l + r)
        } else {
            EvalOutcome::Overflow
        },
        BinaryOperator::Subtract => if in_value_range(l - r) {
            EvalOutcome::Value(l - r)
        } else {
            EvalOutcome::Overflow
        },
        BinaryOperator::Multiply => if in_value_range(l * r) {
            EvalOutcome::Value(l * r)
        } else {
            EvalOutcome::Overflow
        },
        BinaryOperator::Divide => if r == 0 {
            EvalOutcome::DivisionByZero
        } else if in_value_range(trunc_div(l, r)) {
            EvalOutcome::Value(trunc_div(l, r))
        } else {
            EvalOutcome::Overflow
        },
        BinaryOperator::Modulo => if r == 0 {
            EvalOutcome::DivisionByZero
        } else if l == i64::MIN && r == -1 {
            EvalOutcome::Overflow
        } else if in_value_range(trunc_rem(l, r)) {
            EvalOutcome::Value(trunc_rem(l, r))
        } else {
            EvalOutcome::Overflow
        },
    }
}

/// Post-order evaluation of an expression tree.
///
/// A literal is its value; a unary plus is its operand unchanged and a unary
/// minus its negation, any other operator in unary position being a logic
/// error; a binary node evaluates its left operand, then its right, then
/// combines them with [`spec_binary_step`]. The first failure is the result.
pub open spec fn spec_interpret(n: Node) -> EvalOutcome
    decreases n,
{
    match n {
        Node::Integer(v) => EvalOutcome::Value(v as int),
        Node::UnaryExpr { op, term } => match op {
            BinaryOperator::Add => spec_interpret(*term),
            BinaryOperator::Subtract => match spec_interpret(*term) {
                EvalOutcome::Value(x) => if in_value_range(-x) {
                    EvalOutcome::Value(-x)
                } else {
                    EvalOutcome::Overflow
                },
                other => other,
            },
            _ => EvalOutcome::InvalidUnary,
        },
        Node::BinaryExpr { left, op, right } => match spec_interpret(*left) {
            EvalOutcome::Value(l) => match spec_interpret(*right) {
                EvalOutcome::Value(r) => spec_binary_step(op, l, r),
                other => other,
            },
            other => other,
        },
    }
}

/// Evaluates an expression tree to its integer result.
///
/// The result is exactly what [`spec_interpret`] assigns to the tree: the
/// value when every step stays in range, and otherwise the first failure —
/// division by zero, an operator other than plus or minus in unary position,
/// or a step whose result leaves the `i64` range.
pub fn interpret(node: &Node) -> (r: Result<i64, Error>)
    ensures
        match spec_interpret(*node) {
            EvalOutcome::Value(v) => r is Ok && r->Ok_0 == v,
            EvalOutcome::DivisionByZero => r == Err::<i64, Error>(Error::DivisionByZero),
            EvalOutcome::InvalidUnary => r == Err::<i64, Error>(Error::InvalidUnaryOperator),
            EvalOutcome::Overflow => r == Err::<i64, Error>(Error::Overflow),
        },
    decreases node,
{
    match node {
        Node::Integer(v) => Ok(*v),
        Node::UnaryExpr { op, term } => match op {
            BinaryOperator::Add => interpret(&**term),
            BinaryOperator::Subtract => {
                let x = match interpret(&**term) {
                    Ok(x) => x,
                    Err(e) => {
                        return Err(e);
                    },
                };
                if x == i64::MIN {
                    Err(Error::Overflow)
                } else {
                    Ok(-x)
                }
            },
            _ => Err(Error::InvalidUnaryOperator),
        },
        Node::BinaryExpr { left, op, right } => {
            let l = match interpret(&**left) {
                Ok(v) => v,
                Err(e) => {
                    return Err(e);
                },
            };
            let r_val = match interpret(&**right) {
                Ok(v) => v,
                Err(e) => {
                    return Err(e);
                },
            };
            match op {
                BinaryOperator::Add => match l.checked_add(r_val) {
                    Some(v) => Ok(v),
                    None => Err(Error::Overflow),
                },
                BinaryOperator::Subtract => match l.checked_sub(r_val) {
                    Some(v) => Ok(v),
                    None => Err(Error::Overflow),
                },
                BinaryOperator::Multiply => match l.checked_mul(r_val) {
                    Some(v) => Ok(v),
                    None => Err(Error::Overflow),
                },
                BinaryOperator::Divide => {
                    if r_val == 0 {
                        Err(Error::DivisionByZero)
                    } else {
                        match l.checked_div(r_val) {
                            Some(v) => Ok(v),
                            None => Err(Error::Overflow),
                        }
                    }
                },
                BinaryOperator::Modulo => {
                    if r_val == 0 {
                        Err(Error::DivisionByZero)
                    } else {
                        match l.checked_rem(r_val) {
                            Some(v) => Ok(v),
                            None => Err(Error::Overflow),
                        }
                    }
                },
            }
        },
    }
}

} // verus!
