use glot::evaluator::interpret;
use glot::evaluator::Node;
use glot::parser::BinaryOperator;
use glot::Error;

fn num(v: i64) -> Node {
    Node::Integer(v)
}

fn unary(op: BinaryOperator, term: Node) -> Node {
    Node::UnaryExpr {
        op,
        term: Box::new(term),
    }
}

fn binary(left: Node, op: BinaryOperator, right: Node) -> Node {
    Node::BinaryExpr {
        left: Box::new(left),
        op,
        right: Box::new(right),
    }
}

#[test]
fn test_interpret_literal() {
    assert_eq!(interpret(&num(0)), Ok(0));
    assert_eq!(interpret(&num(42)), Ok(42));
    assert_eq!(interpret(&num(-7)), Ok(-7));
}

#[test]
fn test_interpret_grouping() {
    // The tree built from "(2*9)-1+(1+8)": parentheses only scope the
    // subtrees, so this is ((2*9)-1)+(1+8).
    let tree = binary(
        binary(
            binary(num(2), BinaryOperator::Multiply, num(9)),
            BinaryOperator::Subtract,
            num(1),
        ),
        BinaryOperator::Add,
        binary(num(1), BinaryOperator::Add, num(8)),
    );

    assert_eq!(interpret(&tree), Ok(26));
}

#[test]
fn test_interpret_unary() {
    assert_eq!(interpret(&unary(BinaryOperator::Add, num(5))), Ok(5));
    assert_eq!(interpret(&unary(BinaryOperator::Subtract, num(7))), Ok(-7));
    assert_eq!(
        interpret(&unary(BinaryOperator::Subtract, unary(BinaryOperator::Subtract, num(3)))),
        Ok(3)
    );
    assert_eq!(
        interpret(&unary(BinaryOperator::Multiply, num(5))),
        Err(Error::InvalidUnaryOperator)
    );
    assert_eq!(
        interpret(&unary(BinaryOperator::Divide, num(5))),
        Err(Error::InvalidUnaryOperator)
    );
    assert_eq!(
        interpret(&unary(BinaryOperator::Modulo, num(5))),
        Err(Error::InvalidUnaryOperator)
    );
}

#[test]
fn test_interpret_division_truncates() {
    assert_eq!(
        interpret(&binary(num(7), BinaryOperator::Divide, num(2))),
        Ok(3)
    );
    assert_eq!(
        interpret(&binary(num(-7), BinaryOperator::Divide, num(2))),
        Ok(-3)
    );
    assert_eq!(
        interpret(&binary(num(7), BinaryOperator::Divide, num(-2))),
        Ok(-3)
    );
    assert_eq!(
        interpret(&binary(num(-7), BinaryOperator::Divide, num(-2))),
        Ok(3)
    );
}

#[test]
fn test_interpret_modulo() {
    assert_eq!(
        interpret(&binary(num(7), BinaryOperator::Modulo, num(3))),
        Ok(1)
    );
    assert_eq!(
        interpret(&binary(num(-7), BinaryOperator::Modulo, num(3))),
        Ok(-1)
    );
    assert_eq!(
        interpret(&binary(num(7), BinaryOperator::Modulo, num(-3))),
        Ok(1)
    );
}

#[test]
fn test_interpret_division_by_zero() {
    assert_eq!(
        interpret(&binary(num(1), BinaryOperator::Divide, num(0))),
        Err(Error::DivisionByZero)
    );
    assert_eq!(
        interpret(&binary(num(1), BinaryOperator::Modulo, num(0))),
        Err(Error::DivisionByZero)
    );
    // A failing subtree fails the whole evaluation.
    assert_eq!(
        interpret(&binary(
            binary(num(1), BinaryOperator::Divide, num(0)),
            BinaryOperator::Add,
            num(5),
        )),
        Err(Error::DivisionByZero)
    );
}

#[test]
fn test_interpret_overflow() {
    assert_eq!(
        interpret(&binary(num(i64::MAX), BinaryOperator::Add, num(1))),
        Err(Error::Overflow)
    );
    assert_eq!(
        interpret(&binary(num(i64::MIN), BinaryOperator::Subtract, num(1))),
        Err(Error::Overflow)
    );
    assert_eq!(
        interpret(&binary(num(i64::MAX), BinaryOperator::Multiply, num(2))),
        Err(Error::Overflow)
    );
    assert_eq!(
        interpret(&binary(num(i64::MIN), BinaryOperator::Divide, num(-1))),
        Err(Error::Overflow)
    );
    assert_eq!(
        interpret(&binary(num(i64::MIN), BinaryOperator::Modulo, num(-1))),
        Err(Error::Overflow)
    );
    assert_eq!(
        interpret(&unary(BinaryOperator::Subtract, num(i64::MIN))),
        Err(Error::Overflow)
    );
}
