//! What the compiler emits, said without reference to how it emits it.
//!
//! The functions here give, for each node of the syntax tree, the bytes
//! that stand for it in the program. They depend on the offset `at` at
//! which the node's code begins (jump targets are offsets from the start of
//! the program) and on the environment: the constants pooled and the global
//! names declared before the node. Jump targets are given outright, from
//! the lengths of the pieces that lie between a jump and its target.
//!
//! Compilation stops at the first error. The order in which errors are
//! looked for is the order of the clauses below.
use vstd::prelude::*;
use crate::ast::{Expression, InfixOperator, PrefixOperator, Program, Statement};
use crate::compiler::CompileError;
use crate::constant_pool::MAX_CONSTANTS;
use crate::object::Object;
use crate::op_code::{
    big_endian, capacity, encoding, encoding_error, lemma_operand_widths, operand_bytes,
    EncodingError, Opcode, MAX_OPERAND,
};
use crate::symbol_table::{declare, slot_of, Scope};

verus! {

/// What a piece of program is compiled against.
pub struct Env {
    /// The constant pool.
    pub constants: Seq<Object>,
    /// The names of the global scope, in the order of their slots.
    pub globals: Scope,
}

/// The outcome of compiling a piece of program.
pub struct Emitted {
    /// The bytes that stand for the piece.
    pub code: Seq<u8>,
    /// The environment after the piece.
    pub env: Env,
}

/// The environment in which a program starts.
pub open spec fn empty_env() -> Env {
    Env { constants: Seq::empty(), globals: Seq::empty() }
}

/// An instruction without operands.
pub open spec fn plain(op: Opcode) -> Seq<u8> {
    encoding(op, Seq::empty())
}

/// An instruction with one operand.
pub open spec fn with_operand(op: Opcode, operand: nat) -> Seq<u8> {
    encoding(op, seq![operand as usize])
}

/// The number of bytes that an instruction of `op` takes.
pub open spec fn instruction_size(op: Opcode) -> nat {
    1 + op.spec_operand_size()
}

/// The error for an operand that a two-byte field cannot hold.
pub open spec fn overflow() -> CompileError {
    CompileError::Encoding(EncodingError::OperandOverflow)
}

/// The opcode of a prefix operator.
pub open spec fn prefix_opcode(operator: PrefixOperator) -> Opcode {
    match operator {
        PrefixOperator::Minus => Opcode::OpMinus,
        PrefixOperator::Bang => Opcode::OpBang,
    }
}

/// The opcode of an infix operator. There is no opcode for `<`: it is
/// compiled as `>` with the operands exchanged.
pub open spec fn infix_opcode(operator: InfixOperator) -> Opcode {
    match operator {
        InfixOperator::Plus => Opcode::OpAdd,
        InfixOperator::Minus => Opcode::OpSub,
        InfixOperator::Asterisk => Opcode::OpMul,
        InfixOperator::Slash => Opcode::OpDiv,
        InfixOperator::Equal => Opcode::OpEqual,
        InfixOperator::NotEqual => Opcode::OpNotEqual,
        InfixOperator::GreaterThan => Opcode::OpGreaterThan,
        InfixOperator::LessThan => Opcode::OpGreaterThan,
    }
}

/// A literal that goes to the pool: it is appended there, and the code
/// loads it by the index that it got.
pub open spec fn load_constant(value: Object, env: Env) -> Result<Emitted, CompileError> {
    if env.constants.len() >= MAX_CONSTANTS {
        Err(CompileError::TooManyConstants)
    } else {
        Ok(
            Emitted {
                code: with_operand(Opcode::OpConst, env.constants.len()),
                env: Env { constants: env.constants.push(value), globals: env.globals },
            },
        )
    }
}

/// `code` followed by an instruction of `op` with `operand`, if the
/// operand fits.
pub open spec fn close_with(code: Seq<u8>, op: Opcode, operand: nat, env: Env) -> Result<
    Emitted,
    CompileError,
> {
    if operand > MAX_OPERAND {
        Err(overflow())
    } else {
        Ok(Emitted { code: code + with_operand(op, operand), env })
    }
}

/// The code of an expression that begins at offset `at`.
pub open spec fn expression_code(e: Expression, at: nat, env: Env) -> Result<Emitted, CompileError>
    decreases e, 0nat,
{
    match e {
        Expression::IntegerLiteral(value) => load_constant(Object::Integer(value), env),
        Expression::StringLiteral(value) => load_constant(Object::String(value), env),
        Expression::BooleanLiteral(value) => Ok(
            Emitted {
                code: plain(
                    if value {
                        Opcode::OpTrue
                    } else {
                        Opcode::OpFalse
                    },
                ),
                env,
            },
        ),
        Expression::Identifier(name) => if env.globals.contains(name@) {
            close_with(Seq::empty(), Opcode::OpGetGlobal, slot_of(env.globals, name@), env)
        } else {
            Err(CompileError::UndefinedIdentifier(name))
        },
        Expression::Prefix { operator, right } => match expression_code(*right, at, env) {
            Err(error) => Err(error),
            Ok(r) => Ok(Emitted { code: r.code + plain(prefix_opcode(operator)), env: r.env }),
        },
        Expression::Infix { operator, left, right } => if operator == InfixOperator::LessThan {
            match expression_code(*right, at, env) {
                Err(error) => Err(error),
                Ok(r) => match expression_code(*left, at + r.code.len(), r.env) {
                    Err(error) => Err(error),
                    Ok(l) => Ok(
                        Emitted {
                            code: r.code + l.code + plain(Opcode::OpGreaterThan),
                            env: l.env,
                        },
                    ),
                },
            }
        } else {
            match expression_code(*left, at, env) {
                Err(error) => Err(error),
                Ok(l) => match expression_code(*right, at + l.code.len(), l.env) {
                    Err(error) => Err(error),
                    Ok(r) => Ok(
                        Emitted {
                            code: l.code + r.code + plain(infix_opcode(operator)),
                            env: r.env,
                        },
                    ),
                },
            }
        },
        Expression::If { condition, consequence, alternative } => match expression_code(
            *condition,
            at,
            env,
        ) {
            Err(error) => Err(error),
            Ok(c) => {
                let then_at = at + c.code.len() + instruction_size(Opcode::OpJumpNotTruthy);
                match statements_code(
                    consequence.statements@,
                    consequence.statements@.len(),
                    true,
                    then_at,
                    c.env,
                ) {
                    Err(error) => Err(error),
                    Ok(t) => {
                        let else_at = then_at + t.code.len() + instruction_size(Opcode::OpJump);
                        if else_at > MAX_OPERAND {
                            Err(overflow())
                        } else {
                            match alternative {
                                None => {
                                    let end = else_at + instruction_size(Opcode::OpNull);
                                    if end > MAX_OPERAND {
                                        Err(overflow())
                                    } else {
                                        Ok(
                                            Emitted {
                                                code: c.code + with_operand(
                                                    Opcode::OpJumpNotTruthy,
                                                    else_at,
                                                ) + t.code + with_operand(Opcode::OpJump, end)
                                                    + plain(Opcode::OpNull),
                                                env: t.env,
                                            },
                                        )
                                    }
                                },
                                Some(otherwise) => match statements_code(
                                    otherwise.statements@,
                                    otherwise.statements@.len(),
                                    true,
                                    else_at,
                                    t.env,
                                ) {
                                    Err(error) => Err(error),
                                    Ok(a) => {
                                        let end = else_at + a.code.len();
                                        if end > MAX_OPERAND {
                                            Err(overflow())
                                        } else {
                                            Ok(
                                                Emitted {
                                                    code: c.code + with_operand(
                                                        Opcode::OpJumpNotTruthy,
                                                        else_at,
                                                    ) + t.code + with_operand(Opcode::OpJump, end)
                                                        + a.code,
                                                    env: a.env,
                                                },
                                            )
                                        }
                                    },
                                },
                            }
                        }
                    },
                }
            },
        },
        Expression::ArrayLiteral(elements) => match expressions_code(
            elements@,
            elements@.len(),
            at,
            env,
        ) {
            Err(error) => Err(error),
            Ok(es) => close_with(es.code, Opcode::OpArray, elements@.len(), es.env),
        },
        Expression::HashLiteral(pairs) => match pairs_code(pairs@, pairs@.len(), at, env) {
            Err(error) => Err(error),
            Ok(ps) => close_with(ps.code, Opcode::OpHash, 2 * pairs@.len(), ps.env),
        },
        Expression::Index { left, index } => match expression_code(*left, at, env) {
            Err(error) => Err(error),
            Ok(l) => match expression_code(*index, at + l.code.len(), l.env) {
                Err(error) => Err(error),
                Ok(i) => Ok(
                    Emitted { code: l.code + i.code + plain(Opcode::OpIndex), env: i.env },
                ),
            },
        },
    }
}

/// The code of the first `n` of a list of expressions, one after the other.
pub open spec fn expressions_code(es: Seq<Expression>, n: nat, at: nat, env: Env) -> Result<
    Emitted,
    CompileError,
>
    decreases es, n,
{
    if n == 0 || n > es.len() {
        Ok(Emitted { code: Seq::empty(), env })
    } else {
        match expressions_code(es, (n - 1) as nat, at, env) {
            Err(error) => Err(error),
            Ok(before) => match expression_code(
                es[n - 1],
                at + before.code.len(),
                before.env,
            ) {
                Err(error) => Err(error),
                Ok(e) => Ok(Emitted { code: before.code + e.code, env: e.env }),
            },
        }
    }
}

/// The code of the first `n` of a list of pairs: of each pair the key,
/// then the value.
pub open spec fn pairs_code(ps: Seq<(Expression, Expression)>, n: nat, at: nat, env: Env) -> Result<
    Emitted,
    CompileError,
>
    decreases ps, n,
{
    if n == 0 || n > ps.len() {
        Ok(Emitted { code: Seq::empty(), env })
    } else {
        match pairs_code(ps, (n - 1) as nat, at, env) {
            Err(error) => Err(error),
            Ok(before) => match expression_code(ps[n - 1].0, at + before.code.len(), before.env) {
                Err(error) => Err(error),
                Ok(k) => match expression_code(
                    ps[n - 1].1,
                    at + before.code.len() + k.code.len(),
                    k.env,
                ) {
                    Err(error) => Err(error),
                    Ok(v) => Ok(Emitted { code: before.code + k.code + v.code, env: v.env }),
                },
            },
        }
    }
}

/// The code of a statement that begins at offset `at`.
///
/// The value of an expression statement is popped, unless `keep_value`
/// says that the statement is there for its value.
pub open spec fn statement_code(s: Statement, keep_value: bool, at: nat, env: Env) -> Result<
    Emitted,
    CompileError,
>
    decreases s, 0nat,
{
    match s {
        Statement::Let { name, value } => match expression_code(value, at, env) {
            Err(error) => Err(error),
            Ok(v) => {
                let globals = declare(v.env.globals, name@);
                close_with(
                    v.code,
                    Opcode::OpSetGlobal,
                    slot_of(globals, name@),
                    Env { constants: v.env.constants, globals },
                )
            },
        },
        Statement::Expression(e) => match expression_code(e, at, env) {
            Err(error) => Err(error),
            Ok(v) => Ok(
                Emitted {
                    code: if keep_value {
                        v.code
                    } else {
                        v.code + plain(Opcode::OpPop)
                    },
                    env: v.env,
                },
            ),
        },
    }
}

/// The code of the first `n` of a list of statements.
///
/// With `keep_last`, the list is a block that stands for a value: its last
/// statement then keeps its value.
pub open spec fn statements_code(
    ss: Seq<Statement>,
    n: nat,
    keep_last: bool,
    at: nat,
    env: Env,
) -> Result<Emitted, CompileError>
    decreases ss, n,
{
    if n == 0 || n > ss.len() {
        Ok(Emitted { code: Seq::empty(), env })
    } else {
        match statements_code(ss, (n - 1) as nat, keep_last, at, env) {
            Err(error) => Err(error),
            Ok(before) => match statement_code(
                ss[n - 1],
                keep_last && n == ss.len(),
                at + before.code.len(),
                before.env,
            ) {
                Err(error) => Err(error),
                Ok(s) => Ok(Emitted { code: before.code + s.code, env: s.env }),
            },
        }
    }
}

/// The code of a whole program, which begins at offset 0 with nothing
/// pooled and nothing declared.
pub open spec fn program_code(program: Program) -> Result<Emitted, CompileError> {
    statements_code(program.statements@, program.statements@.len(), false, 0, empty_env())
}

/// An opcode without operands is encoded as its tag alone, whatever comes.
pub proof fn lemma_plain(op: Opcode)
    requires
        op.spec_operand_widths().len() == 0,
    ensures
        encoding_error(op, Seq::empty()) is None,
        plain(op) == seq![op.spec_tag()],
        instruction_size(op) == 1,
{
    lemma_operand_widths(op);
    assert(plain(op) =~= seq![op.spec_tag()]);
}

/// An opcode with one operand is encoded as its tag and the two bytes of
/// the operand, high byte first; this fails for operands above `MAX_OPERAND`
/// and for no others.
pub proof fn lemma_with_operand(op: Opcode, operand: usize)
    requires
        op.spec_operand_widths().len() == 1,
    ensures
        instruction_size(op) == 3,
        operand > MAX_OPERAND ==> encoding_error(op, seq![operand]) == Some(
            EncodingError::OperandOverflow,
        ),
        operand <= MAX_OPERAND ==> encoding_error(op, seq![operand]) is None,
        with_operand(op, operand as nat) == seq![
            op.spec_tag(),
            ((operand as nat / 256) % 256) as u8,
            (operand as nat % 256) as u8,
        ],
{
    lemma_operand_widths(op);
    reveal_with_fuel(capacity, 3);
    reveal_with_fuel(big_endian, 3);
    reveal_with_fuel(operand_bytes, 2);
    let widths = op.spec_operand_widths();
    let operands = seq![operand];
    assert(widths[0] == 2);
    if operand > MAX_OPERAND {
        assert(0 <= 0 < widths.len() && operands[0] as nat >= capacity(widths[0] as nat));
    }
    assert(with_operand(op, operand as nat) =~= seq![
        op.spec_tag(),
        ((operand as nat / 256) % 256) as u8,
        (operand as nat % 256) as u8,
    ]);
}

/// Once a prefix of a list of expressions fails, every longer prefix fails
/// in the same way.
pub proof fn lemma_expressions_error_persists(
    es: Seq<Expression>,
    k: nat,
    n: nat,
    at: nat,
    env: Env,
)
    requires
        k <= n <= es.len(),
        expressions_code(es, k, at, env) is Err,
    ensures
        expressions_code(es, n, at, env) == expressions_code(es, k, at, env),
    decreases n,
{
    if k < n {
        lemma_expressions_error_persists(es, k, (n - 1) as nat, at, env);
    }
}

/// Once a prefix of a list of pairs fails, every longer prefix fails in the
/// same way.
pub proof fn lemma_pairs_error_persists(
    ps: Seq<(Expression, Expression)>,
    k: nat,
    n: nat,
    at: nat,
    env: Env,
)
    requires
        k <= n <= ps.len(),
        pairs_code(ps, k, at, env) is Err,
    ensures
        pairs_code(ps, n, at, env) == pairs_code(ps, k, at, env),
    decreases n,
{
    if k < n {
        lemma_pairs_error_persists(ps, k, (n - 1) as nat, at, env);
    }
}

/// Once a prefix of a list of statements fails, every longer prefix fails
/// in the same way.
pub proof fn lemma_statements_error_persists(
    ss: Seq<Statement>,
    k: nat,
    n: nat,
    keep_last: bool,
    at: nat,
    env: Env,
)
    requires
        k <= n <= ss.len(),
        statements_code(ss, k, keep_last, at, env) is Err,
    ensures
        statements_code(ss, n, keep_last, at, env) == statements_code(ss, k, keep_last, at, env),
    decreases n,
{
    if k < n {
        lemma_statements_error_persists(ss, k, (n - 1) as nat, keep_last, at, env);
    }
}

} // verus!
