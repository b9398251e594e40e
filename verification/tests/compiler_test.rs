use compiler::ast::{
    BlockStatement, Expression, InfixOperator, PrefixOperator, Program, Statement,
};
use compiler::compiler_test::{run_compiler_test, CompilerTestCase};
use compiler::object::Object;
use compiler::op_code::Opcode::{
    OpAdd, OpArray, OpBang, OpConst, OpDiv, OpEqual, OpFalse, OpGetGlobal, OpGreaterThan, OpHash,
    OpIndex, OpJump, OpJumpNotTruthy, OpMinus, OpMul, OpNotEqual, OpNull, OpPop, OpSetGlobal,
    OpSub, OpTrue,
};
use compiler::op_code::{Instructions, Opcode};

fn make_instructions(op: Opcode, operands: &Vec<usize>) -> Instructions {
    compiler::op_code::make_instructions(op, operands).unwrap()
}

fn integer(value: i64) -> Expression {
    Expression::IntegerLiteral(value)
}

fn boolean(value: bool) -> Expression {
    Expression::BooleanLiteral(value)
}

fn string(value: &str) -> Expression {
    Expression::StringLiteral(value.to_string())
}

fn ident(name: &str) -> Expression {
    Expression::Identifier(name.to_string())
}

fn prefix(operator: PrefixOperator, right: Expression) -> Expression {
    Expression::Prefix { operator, right: Box::new(right) }
}

fn infix(left: Expression, operator: InfixOperator, right: Expression) -> Expression {
    Expression::Infix { operator, left: Box::new(left), right: Box::new(right) }
}

fn if_only(condition: Expression, consequence: Vec<Statement>) -> Expression {
    Expression::If {
        condition: Box::new(condition),
        consequence: BlockStatement { statements: consequence },
        alternative: None,
    }
}

fn if_else(
    condition: Expression,
    consequence: Vec<Statement>,
    alternative: Vec<Statement>,
) -> Expression {
    Expression::If {
        condition: Box::new(condition),
        consequence: BlockStatement { statements: consequence },
        alternative: Some(BlockStatement { statements: alternative }),
    }
}

fn array(elements: Vec<Expression>) -> Expression {
    Expression::ArrayLiteral(elements)
}

fn hash(pairs: Vec<(Expression, Expression)>) -> Expression {
    Expression::HashLiteral(pairs)
}

fn index(left: Expression, index: Expression) -> Expression {
    Expression::Index { left: Box::new(left), index: Box::new(index) }
}

fn expr(e: Expression) -> Statement {
    Statement::Expression(e)
}

fn let_(name: &str, value: Expression) -> Statement {
    Statement::Let { name: name.to_string(), value }
}

fn program(statements: Vec<Statement>) -> Program {
    Program { statements }
}

#[test]
fn integer_arithmetic() {
    let tests = vec![
        CompilerTestCase {
            input: "1 + 2",
            program: program(vec![expr(infix(integer(1), InfixOperator::Plus, integer(2)))]),
            expected_constants: vec![Object::Integer(1), Object::Integer(2)],
            expected_instructions: vec![
                make_instructions(OpConst, &vec![0]),
                make_instructions(OpConst, &vec![1]),
                make_instructions(OpAdd, &vec![]),
                make_instructions(OpPop, &vec![]),
            ],
        },
        CompilerTestCase {
            input: "1; 2",
            program: program(vec![expr(integer(1)), expr(integer(2))]),
            expected_constants: vec![Object::Integer(1), Object::Integer(2)],
            expected_instructions: vec![
                make_instructions(OpConst, &vec![0]),
                make_instructions(OpPop, &vec![]),
                make_instructions(OpConst, &vec![1]),
                make_instructions(OpPop, &vec![]),
            ],
        },
        CompilerTestCase {
            input: "1 - 2",
            program: program(vec![expr(infix(integer(1), InfixOperator::Minus, integer(2)))]),
            expected_constants: vec![Object::Integer(1), Object::Integer(2)],
            expected_instructions: vec![
                make_instructions(OpConst, &vec![0]),
                make_instructions(OpConst, &vec![1]),
                make_instructions(OpSub, &vec![]),
                make_instructions(OpPop, &vec![]),
            ],
        },
        CompilerTestCase {
            input: "1 * 2",
            program: program(vec![expr(infix(integer(1), InfixOperator::Asterisk, integer(2)))]),
            expected_constants: vec![Object::Integer(1), Object::Integer(2)],
            expected_instructions: vec![
                make_instructions(OpConst, &vec![0]),
                make_instructions(OpConst, &vec![1]),
                make_instructions(OpMul, &vec![]),
                make_instructions(OpPop, &vec![]),
            ],
        },
        CompilerTestCase {
            input: "2 / 1",
            program: program(vec![expr(infix(integer(2), InfixOperator::Slash, integer(1)))]),
            expected_constants: vec![Object::Integer(2), Object::Integer(1)],
            expected_instructions: vec![
                make_instructions(OpConst, &vec![0]),
                make_instructions(OpConst, &vec![1]),
                make_instructions(OpDiv, &vec![]),
                make_instructions(OpPop, &vec![]),
            ],
        },
        CompilerTestCase {
            input: "-1",
            program: program(vec![expr(prefix(PrefixOperator::Minus, integer(1)))]),
            expected_constants: vec![Object::Integer(1)],
            expected_instructions: vec![
                make_instructions(OpConst, &vec![0]),
                make_instructions(OpMinus, &vec![]),
                make_instructions(OpPop, &vec![]),
            ],
        },
        CompilerTestCase {
            input: "!true",
            program: program(vec![expr(prefix(PrefixOperator::Bang, boolean(true)))]),
            expected_constants: vec![],
            expected_instructions: vec![
                make_instructions(OpTrue, &vec![]),
                make_instructions(OpBang, &vec![]),
                make_instructions(OpPop, &vec![]),
            ],
        },
    ];

    assert!(run_compiler_test(tests));
}

#[test]
fn boolean_expression() {
    let tests = vec![
        CompilerTestCase {
            input: "true",
            program: program(vec![expr(boolean(true))]),
            expected_constants: vec![],
            expected_instructions: vec![
                make_instructions(OpTrue, &vec![]),
                make_instructions(OpPop, &vec![]),
            ],
        },
        CompilerTestCase {
            input: "false",
            program: program(vec![expr(boolean(false))]),
            expected_constants: vec![],
            expected_instructions: vec![
                make_instructions(OpFalse, &vec![]),
                make_instructions(OpPop, &vec![]),
            ],
        },
        CompilerTestCase {
            input: "1 > 2",
            program: program(vec![expr(infix(integer(1), InfixOperator::GreaterThan, integer(2)))]),
            expected_constants: vec![Object::Integer(1), Object::Integer(2)],
            expected_instructions: vec![
                make_instructions(OpConst, &vec![0]),
                make_instructions(OpConst, &vec![1]),
                make_instructions(OpGreaterThan, &vec![]),
                make_instructions(OpPop, &vec![]),
            ],
        },
        CompilerTestCase {
            input: "1 < 2",
            program: program(vec![expr(infix(integer(1), InfixOperator::LessThan, integer(2)))]),
            expected_constants: vec![Object::Integer(2), Object::Integer(1)],
            expected_instructions: vec![
                make_instructions(OpConst, &vec![0]),
                make_instructions(OpConst, &vec![1]),
                make_instructions(OpGreaterThan, &vec![]),
                make_instructions(OpPop, &vec![]),
            ],
        },
        CompilerTestCase {
            input: "1 == 2",
            program: program(vec![expr(infix(integer(1), InfixOperator::Equal, integer(2)))]),
            expected_constants: vec![Object::Integer(1), Object::Integer(2)],
            expected_instructions: vec![
                make_instructions(OpConst, &vec![0]),
                make_instructions(OpConst, &vec![1]),
                make_instructions(OpEqual, &vec![]),
                make_instructions(OpPop, &vec![]),
            ],
        },
        CompilerTestCase {
            input: "1 != 2",
            program: program(vec![expr(infix(integer(1), InfixOperator::NotEqual, integer(2)))]),
            expected_constants: vec![Object::Integer(1), Object::Integer(2)],
            expected_instructions: vec![
                make_instructions(OpConst, &vec![0]),
                make_instructions(OpConst, &vec![1]),
                make_instructions(OpNotEqual, &vec![]),
                make_instructions(OpPop, &vec![]),
            ],
        },
        CompilerTestCase {
            input: "true == false",
            program: program(vec![expr(infix(boolean(true), InfixOperator::Equal, boolean(false)))]),
            expected_constants: vec![],
            expected_instructions: vec![
                make_instructions(OpTrue, &vec![]),
                make_instructions(OpFalse, &vec![]),
                make_instructions(OpEqual, &vec![]),
                make_instructions(OpPop, &vec![]),
            ],
        },
        CompilerTestCase {
            input: "true != false",
            program: program(vec![expr(infix(
                boolean(true),
                InfixOperator::NotEqual,
                boolean(false),
            ))]),
            expected_constants: vec![],
            expected_instructions: vec![
                make_instructions(OpTrue, &vec![]),
                make_instructions(OpFalse, &vec![]),
                make_instructions(OpNotEqual, &vec![]),
                make_instructions(OpPop, &vec![]),
            ],
        },
    ];

    assert!(run_compiler_test(tests));
}

#[test]
fn conditions_only_if() {
    let tests = vec![CompilerTestCase {
        input: "if (true) { 10 }; 3333;",
        program: program(vec![
            expr(if_only(boolean(true), vec![expr(integer(10))])),
            expr(integer(3333)),
        ]),
        expected_constants: vec![Object::Integer(10), Object::Integer(3333)],
        expected_instructions: vec![
            make_instructions(OpTrue, &vec![]),
            make_instructions(OpJumpNotTruthy, &vec![10]),
            make_instructions(OpConst, &vec![0]),
            make_instructions(OpJump, &vec![11]),
            make_instructions(OpNull, &vec![]),
            make_instructions(OpPop, &vec![]),
            make_instructions(OpConst, &vec![1]),
            make_instructions(OpPop, &vec![]),
        ],
    }];

    assert!(run_compiler_test(tests));
}

#[test]
fn conditions_with_else() {
    let tests = vec![CompilerTestCase {
        input: "if (true) { 10 } else { 20 }; 3333;",
        program: program(vec![
            expr(if_else(boolean(true), vec![expr(integer(10))], vec![expr(integer(20))])),
            expr(integer(3333)),
        ]),
        expected_constants: vec![
            Object::Integer(10),
            Object::Integer(20),
            Object::Integer(3333),
        ],
        expected_instructions: vec![
            make_instructions(OpTrue, &vec![]),
            make_instructions(OpJumpNotTruthy, &vec![10]),
            make_instructions(OpConst, &vec![0]),
            make_instructions(OpJump, &vec![13]),
            make_instructions(OpConst, &vec![1]),
            make_instructions(OpPop, &vec![]),
            make_instructions(OpConst, &vec![2]),
            make_instructions(OpPop, &vec![]),
        ],
    }];

    assert!(run_compiler_test(tests));
}

#[test]
fn test_global_constants() {
    let tests = vec![
        CompilerTestCase {
            input: "let one = 1; let two = 2;",
            program: program(vec![let_("one", integer(1)), let_("two", integer(2))]),
            expected_constants: vec![Object::Integer(1), Object::Integer(2)],
            expected_instructions: vec![
                make_instructions(OpConst, &vec![0]),
                make_instructions(OpSetGlobal, &vec![0]),
                make_instructions(OpConst, &vec![1]),
                make_instructions(OpSetGlobal, &vec![1]),
            ],
        },
        CompilerTestCase {
            input: "let one = 1; one",
            program: program(vec![let_("one", integer(1)), expr(ident("one"))]),
            expected_constants: vec![Object::Integer(1)],
            expected_instructions: vec![
                make_instructions(OpConst, &vec![0]),
                make_instructions(OpSetGlobal, &vec![0]),
                make_instructions(OpGetGlobal, &vec![0]),
                make_instructions(OpPop, &vec![]),
            ],
        },
        CompilerTestCase {
            input: "let one = 1; let two = one; two",
            program: program(vec![
                let_("one", integer(1)),
                let_("two", ident("one")),
                expr(ident("two")),
            ]),
            expected_constants: vec![Object::Integer(1)],
            expected_instructions: vec![
                make_instructions(OpConst, &vec![0]),
                make_instructions(OpSetGlobal, &vec![0]),
                make_instructions(OpGetGlobal, &vec![0]),
                make_instructions(OpSetGlobal, &vec![1]),
                make_instructions(OpGetGlobal, &vec![1]),
                make_instructions(OpPop, &vec![]),
            ],
        },
    ];

    assert!(run_compiler_test(tests));
}

#[test]
fn test_string() {
    let tests = vec![
        CompilerTestCase {
            input: "\"monkey\"",
            program: program(vec![expr(string("monkey"))]),
            expected_constants: vec![Object::String("monkey".to_string())],
            expected_instructions: vec![
                make_instructions(OpConst, &vec![0]),
                make_instructions(OpPop, &vec![]),
            ],
        },
        CompilerTestCase {
            input: r#""mon" + "key""#,
            program: program(vec![expr(infix(string("mon"), InfixOperator::Plus, string("key")))]),
            expected_constants: vec![
                Object::String("mon".to_string()),
                Object::String("key".to_string()),
            ],
            expected_instructions: vec![
                make_instructions(OpConst, &vec![0]),
                make_instructions(OpConst, &vec![1]),
                make_instructions(OpAdd, &vec![]),
                make_instructions(OpPop, &vec![]),
            ],
        },
    ];

    assert!(run_compiler_test(tests));
}

#[test]
fn test_array() {
    let tests = vec![
        CompilerTestCase {
            input: "[]",
            program: program(vec![expr(array(vec![]))]),
            expected_constants: vec![],
            expected_instructions: vec![
                make_instructions(OpArray, &vec![0]),
                make_instructions(OpPop, &vec![]),
            ],
        },
        CompilerTestCase {
            input: "[1, 2, 3]",
            program: program(vec![expr(array(vec![integer(1), integer(2), integer(3)]))]),
            expected_constants: vec![
                Object::Integer(1),
                Object::Integer(2),
                Object::Integer(3),
            ],
            expected_instructions: vec![
                make_instructions(OpConst, &vec![0]),
                make_instructions(OpConst, &vec![1]),
                make_instructions(OpConst, &vec![2]),
                make_instructions(OpArray, &vec![3]),
                make_instructions(OpPop, &vec![]),
            ],
        },
        CompilerTestCase {
            input: "[1 + 2, 3 - 4, 5 * 6]",
            program: program(vec![expr(array(vec![
                infix(integer(1), InfixOperator::Plus, integer(2)),
                infix(integer(3), InfixOperator::Minus, integer(4)),
                infix(integer(5), InfixOperator::Asterisk, integer(6)),
            ]))]),
            expected_constants: vec![
                Object::Integer(1),
                Object::Integer(2),
                Object::Integer(3),
                Object::Integer(4),
                Object::Integer(5),
                Object::Integer(6),
            ],
            expected_instructions: vec![
                make_instructions(OpConst, &vec![0]),
                make_instructions(OpConst, &vec![1]),
                make_instructions(OpAdd, &vec![]),
                make_instructions(OpConst, &vec![2]),
                make_instructions(OpConst, &vec![3]),
                make_instructions(OpSub, &vec![]),
                make_instructions(OpConst, &vec![4]),
                make_instructions(OpConst, &vec![5]),
                make_instructions(OpMul, &vec![]),
                make_instructions(OpArray, &vec![3]),
                make_instructions(OpPop, &vec![]),
            ],
        },
    ];

    assert!(run_compiler_test(tests));
}

#[test]
fn test_hashmap() {
    let tests = vec![
        CompilerTestCase {
            input: "{}",
            program: program(vec![expr(hash(vec![]))]),
            expected_constants: vec![],
            expected_instructions: vec![
                make_instructions(OpHash, &vec![0]),
                make_instructions(OpPop, &vec![]),
            ],
        },
        CompilerTestCase {
            input: "{1: 2, 3: 4, 5: 6}",
            program: program(vec![expr(hash(vec![
                (integer(1), integer(2)),
                (integer(3), integer(4)),
                (integer(5), integer(6)),
            ]))]),
            expected_constants: vec![
                Object::Integer(1),
                Object::Integer(2),
                Object::Integer(3),
                Object::Integer(4),
                Object::Integer(5),
                Object::Integer(6),
            ],
            expected_instructions: vec![
                make_instructions(OpConst, &vec![0]),
                make_instructions(OpConst, &vec![1]),
                make_instructions(OpConst, &vec![2]),
                make_instructions(OpConst, &vec![3]),
                make_instructions(OpConst, &vec![4]),
                make_instructions(OpConst, &vec![5]),
                make_instructions(OpHash, &vec![6]),
                make_instructions(OpPop, &vec![]),
            ],
        },
        CompilerTestCase {
            input: "{1: 2 + 3, 4: 5 * 6}",
            program: program(vec![expr(hash(vec![
                (integer(1), infix(integer(2), InfixOperator::Plus, integer(3))),
                (integer(4), infix(integer(5), InfixOperator::Asterisk, integer(6))),
            ]))]),
            expected_constants: vec![
                Object::Integer(1),
                Object::Integer(2),
                Object::Integer(3),
                Object::Integer(4),
                Object::Integer(5),
                Object::Integer(6),
            ],
            expected_instructions: vec![
                make_instructions(OpConst, &vec![0]),
                make_instructions(OpConst, &vec![1]),
                make_instructions(OpConst, &vec![2]),
                make_instructions(OpAdd, &vec![]),
                make_instructions(OpConst, &vec![3]),
                make_instructions(OpConst, &vec![4]),
                make_instructions(OpConst, &vec![5]),
                make_instructions(OpMul, &vec![]),
                make_instructions(OpHash, &vec![4]),
                make_instructions(OpPop, &vec![]),
            ],
        },
    ];

    assert!(run_compiler_test(tests));
}

#[test]
fn test_index() {
    let tests = vec![
        CompilerTestCase {
            input: "[1, 2, 3][1 + 1]",
            program: program(vec![expr(index(
                array(vec![integer(1), integer(2), integer(3)]),
                infix(integer(1), InfixOperator::Plus, integer(1)),
            ))]),
            expected_constants: vec![
                Object::Integer(1),
                Object::Integer(2),
                Object::Integer(3),
                Object::Integer(1),
                Object::Integer(1),
            ],
            expected_instructions: vec![
                make_instructions(OpConst, &vec![0]),
                make_instructions(OpConst, &vec![1]),
                make_instructions(OpConst, &vec![2]),
                make_instructions(OpArray, &vec![3]),
                make_instructions(OpConst, &vec![3]),
                make_instructions(OpConst, &vec![4]),
                make_instructions(OpAdd, &vec![]),
                make_instructions(OpIndex, &vec![]),
                make_instructions(OpPop, &vec![]),
            ],
        },
        CompilerTestCase {
            input: "{1: 2 }[2 -1]",
            program: program(vec![expr(index(
                hash(vec![(integer(1), integer(2))]),
                infix(integer(2), InfixOperator::Minus, integer(1)),
            ))]),
            expected_constants: vec![
                Object::Integer(1),
                Object::Integer(2),
                Object::Integer(2),
                Object::Integer(1),
            ],
            expected_instructions: vec![
                make_instructions(OpConst, &vec![0]),
                make_instructions(OpConst, &vec![1]),
                make_instructions(OpHash, &vec![2]),
                make_instructions(OpConst, &vec![2]),
                make_instructions(OpConst, &vec![3]),
                make_instructions(OpSub, &vec![]),
                make_instructions(OpIndex, &vec![]),
                make_instructions(OpPop, &vec![]),
            ],
        },
    ];

    assert!(run_compiler_test(tests));
}

#[test]
fn harness_reports_a_wrong_instruction() {
    let tests = vec![CompilerTestCase {
        input: "1 + 2",
        program: program(vec![expr(infix(integer(1), InfixOperator::Plus, integer(2)))]),
        expected_constants: vec![Object::Integer(1), Object::Integer(2)],
        expected_instructions: vec![
            make_instructions(OpConst, &vec![0]),
            make_instructions(OpConst, &vec![1]),
            make_instructions(OpSub, &vec![]),
            make_instructions(OpPop, &vec![]),
        ],
    }];

    assert!(!run_compiler_test(tests));
}

#[test]
fn harness_reports_a_wrong_constant() {
    let tests = vec![CompilerTestCase {
        input: "1 + 2",
        program: program(vec![expr(infix(integer(1), InfixOperator::Plus, integer(2)))]),
        expected_constants: vec![Object::Integer(1), Object::Integer(3)],
        expected_instructions: vec![
            make_instructions(OpConst, &vec![0]),
            make_instructions(OpConst, &vec![1]),
            make_instructions(OpAdd, &vec![]),
            make_instructions(OpPop, &vec![]),
        ],
    }];

    assert!(!run_compiler_test(tests));
}

#[test]
fn harness_reports_a_program_that_does_not_compile() {
    let tests = vec![CompilerTestCase {
        input: "missing",
        program: program(vec![expr(ident("missing"))]),
        expected_constants: vec![],
        expected_instructions: vec![],
    }];

    assert!(!run_compiler_test(tests));
}

#[test]
fn harness_passes_on_no_cases() {
    assert!(run_compiler_test(vec![]));
}
