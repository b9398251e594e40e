//! What holds of every compiled program.
//!
//! The statements here are about the code that `emission` describes, which
//! is the code that the compiler emits.
use vstd::prelude::*;
use crate::ast::{Expression, InfixOperator, Statement};
use crate::compiler::CompileError;
use crate::constant_pool::MAX_CONSTANTS;
use crate::emission::{
    expression_code, expressions_code, lemma_plain, lemma_with_operand, pairs_code, plain,
    statement_code, statements_code, with_operand, Emitted, Env,
};
use crate::object::Object;
use crate::op_code::{
    from_big_endian, lemma_operand_widths, operand_at, total_width, Opcode, MAX_OPERAND,
};
use crate::symbol_table::{
    declare, define_in, lemma_declare, lookup, slot_of, well_formed, Scope,
};

verus! {

/// The constants that an expression adds to the pool, in the order in
/// which its code loads them.
pub open spec fn expression_constants(e: Expression) -> Seq<Object>
    decreases e, 0nat,
{
    match e {
        Expression::IntegerLiteral(value) => seq![Object::Integer(value)],
        Expression::StringLiteral(value) => seq![Object::String(value)],
        Expression::BooleanLiteral(_) => Seq::empty(),
        Expression::Identifier(_) => Seq::empty(),
        Expression::Prefix { operator, right } => expression_constants(*right),
        Expression::Infix { operator, left, right } => if operator == InfixOperator::LessThan {
            expression_constants(*right) + expression_constants(*left)
        } else {
            expression_constants(*left) + expression_constants(*right)
        },
        Expression::If { condition, consequence, alternative } => expression_constants(*condition)
            + statements_constants(consequence.statements@, consequence.statements@.len())
            + match alternative {
            None => Seq::empty(),
            Some(otherwise) => statements_constants(
                otherwise.statements@,
                otherwise.statements@.len(),
            ),
        },
        Expression::ArrayLiteral(elements) => expressions_constants(elements@, elements@.len()),
        Expression::HashLiteral(pairs) => pairs_constants(pairs@, pairs@.len()),
        Expression::Index { left, index } => expression_constants(*left) + expression_constants(
            *index,
        ),
    }
}

/// The constants of the first `n` of a list of expressions.
pub open spec fn expressions_constants(es: Seq<Expression>, n: nat) -> Seq<Object>
    decreases es, n,
{
    if n == 0 || n > es.len() {
        Seq::empty()
    } else {
        expressions_constants(es, (n - 1) as nat) + expression_constants(es[n - 1])
    }
}

/// The constants of the first `n` of a list of pairs.
pub open spec fn pairs_constants(ps: Seq<(Expression, Expression)>, n: nat) -> Seq<Object>
    decreases ps, n,
{
    if n == 0 || n > ps.len() {
        Seq::empty()
    } else {
        pairs_constants(ps, (n - 1) as nat) + expression_constants(ps[n - 1].0)
            + expression_constants(ps[n - 1].1)
    }
}

/// The constants of a statement.
pub open spec fn statement_constants(s: Statement) -> Seq<Object>
    decreases s, 0nat,
{
    match s {
        Statement::Let { name, value } => expression_constants(value),
        Statement::Expression(e) => expression_constants(e),
    }
}

/// The constants of the first `n` of a list of statements.
pub open spec fn statements_constants(ss: Seq<Statement>, n: nat) -> Seq<Object>
    decreases ss, n,
{
    if n == 0 || n > ss.len() {
        Seq::empty()
    } else {
        statements_constants(ss, (n - 1) as nat) + statement_constants(ss[n - 1])
    }
}

/// A literal integer or string goes to the end of the pool and is loaded
/// by the index that it got there.
pub proof fn law_literal_is_pooled(e: Expression, at: nat, env: Env)
    requires
        e is IntegerLiteral || e is StringLiteral,
        env.constants.len() < MAX_CONSTANTS,
    ensures
        expression_code(e, at, env) == Ok::<Emitted, CompileError>(
            Emitted {
                code: with_operand(Opcode::OpConst, env.constants.len()),
                env: Env {
                    constants: env.constants.push(expression_constants(e)[0]),
                    globals: env.globals,
                },
            },
        ),
{
}

/// A literal boolean is pushed by an instruction of its own and leaves the
/// pool as it was.
pub proof fn law_boolean_is_not_pooled(value: bool, at: nat, env: Env)
    ensures
        expression_code(Expression::BooleanLiteral(value), at, env) == Ok::<Emitted, CompileError>(
            Emitted {
                code: seq![
                    if value {
                        Opcode::OpTrue.spec_tag()
                    } else {
                        Opcode::OpFalse.spec_tag()
                    },
                ],
                env,
            },
        ),
{
    lemma_plain(Opcode::OpTrue);
    lemma_plain(Opcode::OpFalse);
}

/// The pool after an expression is the pool before it, followed by the
/// constants of the expression in the order in which they are loaded. What
/// was pooled before keeps its index.
pub proof fn law_expression_appends_constants(e: Expression, at: nat, env: Env)
    requires
        expression_code(e, at, env) is Ok,
    ensures
        expression_code(e, at, env).unwrap().env.constants == env.constants + expression_constants(
            e,
        ),
    decreases e, 0nat,
{
    let out = expression_code(e, at, env).unwrap();
    match e {
        Expression::IntegerLiteral(value) => {
            assert(out.env.constants =~= env.constants + expression_constants(e));
        },
        Expression::StringLiteral(value) => {
            assert(out.env.constants =~= env.constants + expression_constants(e));
        },
        Expression::BooleanLiteral(_) => {
            assert(out.env.constants =~= env.constants + expression_constants(e));
        },
        Expression::Identifier(_) => {
            assert(out.env.constants =~= env.constants + expression_constants(e));
        },
        Expression::Prefix { operator, right } => {
            law_expression_appends_constants(*right, at, env);
        },
        Expression::Infix { operator, left, right } => {
            if operator == InfixOperator::LessThan {
                law_expression_appends_constants(*right, at, env);
                let r = expression_code(*right, at, env).unwrap();
                law_expression_appends_constants(*left, at + r.code.len(), r.env);
            } else {
                law_expression_appends_constants(*left, at, env);
                let l = expression_code(*left, at, env).unwrap();
                law_expression_appends_constants(*right, at + l.code.len(), l.env);
            }
            assert(out.env.constants =~= env.constants + expression_constants(e));
        },
        Expression::If { condition, consequence, alternative } => {
            lemma_with_operand(Opcode::OpJumpNotTruthy, 0);
            lemma_with_operand(Opcode::OpJump, 0);
            law_expression_appends_constants(*condition, at, env);
            let c = expression_code(*condition, at, env).unwrap();
            let then_at = at + c.code.len() + 3;
            let n = consequence.statements@.len();
            law_statements_append_constants(consequence.statements@, n, true, then_at, c.env);
            let t = statements_code(consequence.statements@, n, true, then_at, c.env).unwrap();
            let else_at = then_at + t.code.len() + 3;
            match alternative {
                None => {},
                Some(otherwise) => {
                    law_statements_append_constants(
                        otherwise.statements@,
                        otherwise.statements@.len(),
                        true,
                        else_at,
                        t.env,
                    );
                },
            }
            assert(out.env.constants =~= env.constants + expression_constants(e));
        },
        Expression::ArrayLiteral(elements) => {
            law_expressions_append_constants(elements@, elements@.len(), at, env);
        },
        Expression::HashLiteral(pairs) => {
            law_pairs_append_constants(pairs@, pairs@.len(), at, env);
        },
        Expression::Index { left, index } => {
            law_expression_appends_constants(*left, at, env);
            let l = expression_code(*left, at, env).unwrap();
            law_expression_appends_constants(*index, at + l.code.len(), l.env);
            assert(out.env.constants =~= env.constants + expression_constants(e));
        },
    }
}

/// The pool after a list of expressions: see `law_expression_appends_constants`.
pub proof fn law_expressions_append_constants(es: Seq<Expression>, n: nat, at: nat, env: Env)
    requires
        expressions_code(es, n, at, env) is Ok,
    ensures
        expressions_code(es, n, at, env).unwrap().env.constants == env.constants
            + expressions_constants(es, n),
    decreases es, n,
{
    let out = expressions_code(es, n, at, env).unwrap();
    if n == 0 || n > es.len() {
        assert(out.env.constants =~= env.constants + expressions_constants(es, n));
    } else {
        law_expressions_append_constants(es, (n - 1) as nat, at, env);
        let before = expressions_code(es, (n - 1) as nat, at, env).unwrap();
        law_expression_appends_constants(es[n - 1], at + before.code.len(), before.env);
        assert(out.env.constants =~= env.constants + expressions_constants(es, n));
    }
}

/// The pool after a list of pairs: see `law_expression_appends_constants`.
pub proof fn law_pairs_append_constants(
    ps: Seq<(Expression, Expression)>,
    n: nat,
    at: nat,
    env: Env,
)
    requires
        pairs_code(ps, n, at, env) is Ok,
    ensures
        pairs_code(ps, n, at, env).unwrap().env.constants == env.constants + pairs_constants(ps, n),
    decreases ps, n,
{
    let out = pairs_code(ps, n, at, env).unwrap();
    if n == 0 || n > ps.len() {
        assert(out.env.constants =~= env.constants + pairs_constants(ps, n));
    } else {
        law_pairs_append_constants(ps, (n - 1) as nat, at, env);
        let before = pairs_code(ps, (n - 1) as nat, at, env).unwrap();
        law_expression_appends_constants(ps[n - 1].0, at + before.code.len(), before.env);
        let k = expression_code(ps[n - 1].0, at + before.code.len(), before.env).unwrap();
        law_expression_appends_constants(
            ps[n - 1].1,
            at + before.code.len() + k.code.len(),
            k.env,
        );
        assert(out.env.constants =~= env.constants + pairs_constants(ps, n));
    }
}

/// The pool after a statement: see `law_expression_appends_constants`.
pub proof fn law_statement_appends_constants(s: Statement, keep_value: bool, at: nat, env: Env)
    requires
        statement_code(s, keep_value, at, env) is Ok,
    ensures
        statement_code(s, keep_value, at, env).unwrap().env.constants == env.constants
            + statement_constants(s),
    decreases s, 0nat,
{
    match s {
        Statement::Let { name, value } => {
            law_expression_appends_constants(value, at, env);
        },
        Statement::Expression(e) => {
            law_expression_appends_constants(e, at, env);
        },
    }
}

/// The pool after a list of statements: see `law_expression_appends_constants`.
pub proof fn law_statements_append_constants(
    ss: Seq<Statement>,
    n: nat,
    keep_last: bool,
    at: nat,
    env: Env,
)
    requires
        statements_code(ss, n, keep_last, at, env) is Ok,
    ensures
        statements_code(ss, n, keep_last, at, env).unwrap().env.constants == env.constants
            + statements_constants(ss, n),
    decreases ss, n,
{
    let out = statements_code(ss, n, keep_last, at, env).unwrap();
    if n == 0 || n > ss.len() {
        assert(out.env.constants =~= env.constants + statements_constants(ss, n));
    } else {
        law_statements_append_constants(ss, (n - 1) as nat, keep_last, at, env);
        let before = statements_code(ss, (n - 1) as nat, keep_last, at, env).unwrap();
        law_statement_appends_constants(
            ss[n - 1],
            keep_last && n == ss.len(),
            at + before.code.len(),
            before.env,
        );
        assert(out.env.constants =~= env.constants + statements_constants(ss, n));
    }
}

/// An expression statement is the code of its expression followed by
/// exactly one pop. Where the statement is there for its value, as the last
/// statement of a branch is, it is the code of its expression and no more.
pub proof fn law_expression_statement_pops(e: Expression, at: nat, env: Env)
    ensures
        statement_code(Statement::Expression(e), false, at, env) == match expression_code(
            e,
            at,
            env,
        ) {
            Ok(v) => Ok::<Emitted, CompileError>(
                Emitted { code: v.code.push(Opcode::OpPop.spec_tag()), env: v.env },
            ),
            Err(error) => Err(error),
        },
        statement_code(Statement::Expression(e), true, at, env) == match expression_code(
            e,
            at,
            env,
        ) {
            Ok(v) => Ok::<Emitted, CompileError>(Emitted { code: v.code, env: v.env }),
            Err(error) => Err(error),
        },
{
    lemma_plain(Opcode::OpPop);
    match expression_code(e, at, env) {
        Ok(v) => {
            assert(v.code + plain(Opcode::OpPop) =~= v.code.push(Opcode::OpPop.spec_tag()));
        },
        Err(_) => {},
    }
}

/// In a list of statements only the last one can keep its value, and it
/// does so exactly if the list is compiled as a branch.
pub proof fn law_only_the_last_statement_keeps_its_value(
    ss: Seq<Statement>,
    n: nat,
    keep_last: bool,
    at: nat,
    env: Env,
)
    requires
        0 < n <= ss.len(),
        statements_code(ss, (n - 1) as nat, keep_last, at, env) is Ok,
    ensures
        ({
            let before = statements_code(ss, (n - 1) as nat, keep_last, at, env).unwrap();
            statements_code(ss, n, keep_last, at, env) == match statement_code(
                ss[n - 1],
                keep_last && n == ss.len(),
                at + before.code.len(),
                before.env,
            ) {
                Ok(s) => Ok::<Emitted, CompileError>(
                    Emitted { code: before.code + s.code, env: s.env },
                ),
                Err(error) => Err(error),
            }
        }),
{
}

/// `left < right` compiles to the very code of `right > left`.
pub proof fn law_less_than_is_greater_than_exchanged(
    left: Expression,
    right: Expression,
    at: nat,
    env: Env,
)
    ensures
        expression_code(
            Expression::Infix {
                operator: InfixOperator::LessThan,
                left: Box::new(left),
                right: Box::new(right),
            },
            at,
            env,
        ) == expression_code(
            Expression::Infix {
                operator: InfixOperator::GreaterThan,
                left: Box::new(right),
                right: Box::new(left),
            },
            at,
            env,
        ),
{
}

/// Two bytes, read most significant byte first, give back the number that
/// was written into them.
pub proof fn law_operand_round_trip(op: Opcode, operand: nat, before: Seq<u8>, after: Seq<u8>)
    requires
        op.spec_operand_widths().len() == 1,
        operand <= MAX_OPERAND,
    ensures
        operand_at(
            before + with_operand(op, operand) + after,
            before.len() + 1,
            op.spec_operand_widths(),
            0,
        ) == operand,
{
    lemma_with_operand(op, operand as usize);
    lemma_operand_widths(op);
    reveal_with_fuel(total_width, 2);
    reveal_with_fuel(from_big_endian, 3);
    let code = before + with_operand(op, operand) + after;
    let field = code.subrange((before.len() + 1) as int, (before.len() + 3) as int);
    assert(field =~= seq![((operand / 256) % 256) as u8, (operand % 256) as u8]);
    assert(field.drop_last() =~= seq![((operand / 256) % 256) as u8]);
    assert(field.drop_last().drop_last() =~= Seq::<u8>::empty());
}

/// The jumps of a conditional point where they should.
///
/// The conditional jump stands right after the code of the condition. Its
/// target is the offset right after the jump that closes the consequence:
/// there the alternative begins, or the instruction that pushes null where
/// there is no alternative. The jump that closes the consequence has the
/// offset right after the whole conditional as its target.
pub proof fn law_jump_targets(e: Expression, at: nat, env: Env)
    requires
        e is If,
        expression_code(e, at, env) is Ok,
    ensures
        ({
            let out = expression_code(e, at, env).unwrap();
            let c = expression_code(*e->condition, at, env).unwrap();
            let then_at = at + c.code.len() + 3;
            let t = statements_code(
                e->consequence.statements@,
                e->consequence.statements@.len(),
                true,
                then_at,
                c.env,
            ).unwrap();
            let else_at = then_at + t.code.len() + 3;
            let end = at + out.code.len();
            &&& else_at <= end <= MAX_OPERAND
            &&& e->alternative is None ==> end == else_at + 1
            &&& out.code.subrange(0, c.code.len() as int) == c.code
            &&& out.code.subrange(c.code.len() as int, then_at - at) == with_operand(
                Opcode::OpJumpNotTruthy,
                else_at,
            )
            &&& out.code.subrange(then_at - at, then_at - at + t.code.len()) == t.code
            &&& out.code.subrange(then_at - at + t.code.len(), else_at - at) == with_operand(
                Opcode::OpJump,
                end,
            )
        }),
{
    let out = expression_code(e, at, env).unwrap();
    let c = expression_code(*e->condition, at, env).unwrap();
    let then_at = at + c.code.len() + 3;
    let t = statements_code(
        e->consequence.statements@,
        e->consequence.statements@.len(),
        true,
        then_at,
        c.env,
    ).unwrap();
    let else_at = then_at + t.code.len() + 3;
    let end = at + out.code.len();
    lemma_plain(Opcode::OpNull);
    lemma_with_operand(Opcode::OpJumpNotTruthy, 0);
    lemma_with_operand(Opcode::OpJump, 0);
    assert(else_at <= MAX_OPERAND);
    lemma_with_operand(Opcode::OpJumpNotTruthy, else_at as usize);
    match e->alternative {
        None => {
            lemma_with_operand(Opcode::OpJump, (else_at + 1) as usize);
            assert(end == else_at + 1);
        },
        Some(otherwise) => {
            let a = statements_code(
                otherwise.statements@,
                otherwise.statements@.len(),
                true,
                else_at,
                t.env,
            ).unwrap();
            lemma_with_operand(Opcode::OpJump, (else_at + a.code.len()) as usize);
            assert(end == else_at + a.code.len());
        },
    }
    assert(out.code.subrange(0, c.code.len() as int) =~= c.code);
    assert(out.code.subrange(c.code.len() as int, then_at - at) =~= with_operand(
        Opcode::OpJumpNotTruthy,
        else_at,
    ));
    assert(out.code.subrange(then_at - at, then_at - at + t.code.len()) =~= t.code);
    assert(out.code.subrange(then_at - at + t.code.len(), else_at - at) =~= with_operand(
        Opcode::OpJump,
        end,
    ));
}

/// A name that has just been declared is found, in the current scope and
/// under the slot that the declaration gave it.
pub proof fn law_define_then_resolve(scopes: Seq<Scope>, name: Seq<char>)
    requires
        well_formed(scopes),
    ensures
        well_formed(define_in(scopes, name)),
        lookup(define_in(scopes, name), name, scopes.len()) == Some(
            ((scopes.len() - 1) as nat, slot_of(declare(scopes.last(), name), name)),
        ),
{
    lemma_declare(scopes.last(), name);
}

/// The code of `let name = value` ends with the instruction that stores
/// into the slot of `name`, and a reference to `name` after it loads from
/// the same slot.
pub proof fn law_let_then_reference(name: String, value: Expression, at: nat, env: Env, later: nat)
    requires
        env.globals.no_duplicates(),
        statement_code(Statement::Let { name, value }, false, at, env) is Ok,
    ensures
        ({
            let bound = statement_code(Statement::Let { name, value }, false, at, env).unwrap();
            let v = expression_code(value, at, env).unwrap();
            let slot = slot_of(bound.env.globals, name@);
            &&& slot <= MAX_OPERAND
            &&& bound.env.globals.no_duplicates()
            &&& bound.code == v.code + with_operand(Opcode::OpSetGlobal, slot)
            &&& expression_code(Expression::Identifier(name), later, bound.env) == Ok::<
                Emitted,
                CompileError,
            >(Emitted { code: with_operand(Opcode::OpGetGlobal, slot), env: bound.env })
        }),
{
    let v = expression_code(value, at, env).unwrap();
    law_expression_keeps_globals(value, at, env);
    lemma_declare(v.env.globals, name@);
    let bound = statement_code(Statement::Let { name, value }, false, at, env).unwrap();
    let slot = slot_of(bound.env.globals, name@);
    assert(Seq::<u8>::empty() + with_operand(Opcode::OpGetGlobal, slot) =~= with_operand(
        Opcode::OpGetGlobal,
        slot,
    ));
}

/// Declaring a name again in the same scope changes nothing: the name
/// keeps its slot and the scope its size. A name that is new to the scope
/// takes the slot after the last one.
pub proof fn law_redefinition_reuses_slot(scope: Scope, name: Seq<char>)
    requires
        scope.no_duplicates(),
    ensures
        declare(declare(scope, name), name) == declare(scope, name),
        scope.contains(name) ==> declare(scope, name) == scope,
        !scope.contains(name) ==> declare(scope, name).len() == scope.len() + 1 && slot_of(
            declare(scope, name),
            name,
        ) == scope.len(),
        forall|other: Seq<char>| #[trigger]
            scope.contains(other) ==> slot_of(declare(scope, name), other) == slot_of(scope, other),
{
    lemma_declare(scope, name);
    assert forall|other: Seq<char>| #[trigger] scope.contains(other) implies slot_of(
        declare(scope, name),
        other,
    ) == slot_of(scope, other) by {
        let i = scope.index_of(other);
        assert(declare(scope, name)[i] == other);
        crate::symbol_table::lemma_slot_is_position(declare(scope, name), other, i);
    }
}

/// An expression leaves the global names free of duplicates, and every
/// name that was declared before it keeps its place.
pub proof fn law_expression_keeps_globals(e: Expression, at: nat, env: Env)
    requires
        env.globals.no_duplicates(),
        expression_code(e, at, env) is Ok,
    ensures
        expression_code(e, at, env).unwrap().env.globals.no_duplicates(),
        env.globals.is_prefix_of(expression_code(e, at, env).unwrap().env.globals),
    decreases e, 0nat,
{
    match e {
        Expression::IntegerLiteral(_) => {},
        Expression::StringLiteral(_) => {},
        Expression::BooleanLiteral(_) => {},
        Expression::Identifier(_) => {},
        Expression::Prefix { operator, right } => {
            law_expression_keeps_globals(*right, at, env);
        },
        Expression::Infix { operator, left, right } => {
            if operator == InfixOperator::LessThan {
                law_expression_keeps_globals(*right, at, env);
                let r = expression_code(*right, at, env).unwrap();
                law_expression_keeps_globals(*left, at + r.code.len(), r.env);
            } else {
                law_expression_keeps_globals(*left, at, env);
                let l = expression_code(*left, at, env).unwrap();
                law_expression_keeps_globals(*right, at + l.code.len(), l.env);
            }
        },
        Expression::If { condition, consequence, alternative } => {
            lemma_with_operand(Opcode::OpJumpNotTruthy, 0);
            lemma_with_operand(Opcode::OpJump, 0);
            law_expression_keeps_globals(*condition, at, env);
            let c = expression_code(*condition, at, env).unwrap();
            let then_at = at + c.code.len() + 3;
            let n = consequence.statements@.len();
            law_statements_keep_globals(consequence.statements@, n, true, then_at, c.env);
            let t = statements_code(consequence.statements@, n, true, then_at, c.env).unwrap();
            let else_at = then_at + t.code.len() + 3;
            match alternative {
                None => {},
                Some(otherwise) => {
                    law_statements_keep_globals(
                        otherwise.statements@,
                        otherwise.statements@.len(),
                        true,
                        else_at,
                        t.env,
                    );
                },
            }
        },
        Expression::ArrayLiteral(elements) => {
            law_expressions_keep_globals(elements@, elements@.len(), at, env);
        },
        Expression::HashLiteral(pairs) => {
            law_pairs_keep_globals(pairs@, pairs@.len(), at, env);
        },
        Expression::Index { left, index } => {
            law_expression_keeps_globals(*left, at, env);
            let l = expression_code(*left, at, env).unwrap();
            law_expression_keeps_globals(*index, at + l.code.len(), l.env);
        },
    }
}

/// The global names after a list of expressions: see
/// `law_expression_keeps_globals`.
pub proof fn law_expressions_keep_globals(es: Seq<Expression>, n: nat, at: nat, env: Env)
    requires
        env.globals.no_duplicates(),
        expressions_code(es, n, at, env) is Ok,
    ensures
        expressions_code(es, n, at, env).unwrap().env.globals.no_duplicates(),
        env.globals.is_prefix_of(expressions_code(es, n, at, env).unwrap().env.globals),
    decreases es, n,
{
    if n == 0 || n > es.len() {
    } else {
        law_expressions_keep_globals(es, (n - 1) as nat, at, env);
        let before = expressions_code(es, (n - 1) as nat, at, env).unwrap();
        law_expression_keeps_globals(es[n - 1], at + before.code.len(), before.env);
    }
}

/// The global names after a list of pairs: see `law_expression_keeps_globals`.
pub proof fn law_pairs_keep_globals(ps: Seq<(Expression, Expression)>, n: nat, at: nat, env: Env)
    requires
        env.globals.no_duplicates(),
        pairs_code(ps, n, at, env) is Ok,
    ensures
        pairs_code(ps, n, at, env).unwrap().env.globals.no_duplicates(),
        env.globals.is_prefix_of(pairs_code(ps, n, at, env).unwrap().env.globals),
    decreases ps, n,
{
    if n == 0 || n > ps.len() {
    } else {
        law_pairs_keep_globals(ps, (n - 1) as nat, at, env);
        let before = pairs_code(ps, (n - 1) as nat, at, env).unwrap();
        law_expression_keeps_globals(ps[n - 1].0, at + before.code.len(), before.env);
        let k = expression_code(ps[n - 1].0, at + before.code.len(), before.env).unwrap();
        law_expression_keeps_globals(ps[n - 1].1, at + before.code.len() + k.code.len(), k.env);
    }
}

/// The global names after a statement: see `law_expression_keeps_globals`.
pub proof fn law_statement_keeps_globals(s: Statement, keep_value: bool, at: nat, env: Env)
    requires
        env.globals.no_duplicates(),
        statement_code(s, keep_value, at, env) is Ok,
    ensures
        statement_code(s, keep_value, at, env).unwrap().env.globals.no_duplicates(),
        env.globals.is_prefix_of(statement_code(s, keep_value, at, env).unwrap().env.globals),
    decreases s, 0nat,
{
    match s {
        Statement::Let { name, value } => {
            law_expression_keeps_globals(value, at, env);
            let v = expression_code(value, at, env).unwrap();
            lemma_declare(v.env.globals, name@);
        },
        Statement::Expression(e) => {
            law_expression_keeps_globals(e, at, env);
        },
    }
}

/// The global names after a list of statements: see
/// `law_expression_keeps_globals`.
pub proof fn law_statements_keep_globals(
    ss: Seq<Statement>,
    n: nat,
    keep_last: bool,
    at: nat,
    env: Env,
)
    requires
        env.globals.no_duplicates(),
        statements_code(ss, n, keep_last, at, env) is Ok,
    ensures
        statements_code(ss, n, keep_last, at, env).unwrap().env.globals.no_duplicates(),
        env.globals.is_prefix_of(statements_code(ss, n, keep_last, at, env).unwrap().env.globals),
    decreases ss, n,
{
    if n == 0 || n > ss.len() {
    } else {
        law_statements_keep_globals(ss, (n - 1) as nat, keep_last, at, env);
        let before = statements_code(ss, (n - 1) as nat, keep_last, at, env).unwrap();
        law_statement_keeps_globals(
            ss[n - 1],
            keep_last && n == ss.len(),
            at + before.code.len(),
            before.env,
        );
    }
}

/// The code of an array literal ends with the instruction that builds the
/// array, and its operand is the number of elements.
pub proof fn law_array_operand_counts_elements(elements: Vec<Expression>, at: nat, env: Env)
    requires
        expression_code(Expression::ArrayLiteral(elements), at, env) is Ok,
    ensures
        ({
            let out = expression_code(Expression::ArrayLiteral(elements), at, env).unwrap();
            let es = expressions_code(elements@, elements@.len(), at, env).unwrap();
            &&& elements@.len() <= MAX_OPERAND
            &&& out.code == es.code + with_operand(Opcode::OpArray, elements@.len())
            &&& operand_at(
                out.code,
                es.code.len() + 1,
                Opcode::OpArray.spec_operand_widths(),
                0,
            ) == elements@.len()
        }),
{
    let es = expressions_code(elements@, elements@.len(), at, env).unwrap();
    law_operand_round_trip(Opcode::OpArray, elements@.len(), es.code, Seq::empty());
    assert(es.code + with_operand(Opcode::OpArray, elements@.len()) + Seq::<u8>::empty()
        =~= es.code + with_operand(Opcode::OpArray, elements@.len()));
}

/// The code of a hash literal ends with the instruction that builds the
/// hash, and its operand is twice the number of pairs: the number of keys
/// and values together.
pub proof fn law_hash_operand_counts_keys_and_values(
    pairs: Vec<(Expression, Expression)>,
    at: nat,
    env: Env,
)
    requires
        expression_code(Expression::HashLiteral(pairs), at, env) is Ok,
    ensures
        ({
            let out = expression_code(Expression::HashLiteral(pairs), at, env).unwrap();
            let ps = pairs_code(pairs@, pairs@.len(), at, env).unwrap();
            &&& 2 * pairs@.len() <= MAX_OPERAND
            &&& out.code == ps.code + with_operand(Opcode::OpHash, 2 * pairs@.len())
            &&& operand_at(out.code, ps.code.len() + 1, Opcode::OpHash.spec_operand_widths(), 0)
                == 2 * pairs@.len()
        }),
{
    let ps = pairs_code(pairs@, pairs@.len(), at, env).unwrap();
    law_operand_round_trip(Opcode::OpHash, 2 * pairs@.len(), ps.code, Seq::empty());
    assert(ps.code + with_operand(Opcode::OpHash, 2 * pairs@.len()) + Seq::<u8>::empty()
        =~= ps.code + with_operand(Opcode::OpHash, 2 * pairs@.len()));
}

} // verus!
