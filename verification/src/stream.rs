//! Compiled code is a run of whole instructions.
//!
//! Whatever the compiler emits can be decoded again from its first byte to
//! its last: every tag is known, and no instruction lacks operand bytes. A
//! disassembly of compiled code therefore never fails.
use vstd::prelude::*;
use crate::ast::{Expression, InfixOperator, Program, Statement};
use crate::emission::{
    expression_code, expressions_code, lemma_plain, lemma_with_operand, pairs_code, plain,
    program_code, statement_code, statements_code, with_operand, Env,
};
use crate::op_code::{disassembly, lemma_operand_widths, Opcode};

verus! {

/// Tells whether `code` can be decoded from offset `at` to its end.
pub open spec fn decodes_from(code: Seq<u8>, at: nat) -> bool {
    disassembly(code, at) is Ok
}

/// Tells whether `code` is a run of whole instructions.
pub open spec fn is_whole(code: Seq<u8>) -> bool {
    decodes_from(code, 0)
}

/// Code that can be decoded does not care for what stands before it.
pub proof fn lemma_decodes_after(before: Seq<u8>, code: Seq<u8>, at: nat)
    requires
        decodes_from(code, at),
    ensures
        decodes_from(before + code, before.len() + at),
    decreases code.len() - at,
{
    let joined = before + code;
    if at < code.len() {
        assert(joined[(before.len() + at) as int] == code[at as int]);
        let op = Opcode::spec_from_tag(code[at as int]).unwrap();
        let next = at + 1 + op.spec_operand_size();
        lemma_decodes_after(before, code, next);
        assert(before.len() + next == before.len() + at + 1 + op.spec_operand_size());
    }
}

/// Two runs that can be decoded give, one after the other, a run that can
/// be decoded.
pub proof fn lemma_decodes_joined(first: Seq<u8>, second: Seq<u8>, at: nat)
    requires
        at <= first.len(),
        decodes_from(first, at),
        is_whole(second),
    ensures
        decodes_from(first + second, at),
    decreases first.len() - at,
{
    let joined = first + second;
    if at < first.len() {
        assert(joined[at as int] == first[at as int]);
        let op = Opcode::spec_from_tag(first[at as int]).unwrap();
        let next = at + 1 + op.spec_operand_size();
        lemma_decodes_joined(first, second, next);
    } else {
        lemma_decodes_after(first, second, 0);
    }
}

/// Whole instructions after whole instructions are whole instructions.
pub proof fn lemma_whole_joined(first: Seq<u8>, second: Seq<u8>)
    requires
        is_whole(first),
        is_whole(second),
    ensures
        is_whole(first + second),
{
    lemma_decodes_joined(first, second, 0);
}

/// One instruction without operands is whole.
pub proof fn lemma_plain_is_whole(op: Opcode)
    requires
        op.spec_operand_widths().len() == 0,
    ensures
        is_whole(plain(op)),
{
    lemma_plain(op);
    lemma_operand_widths(op);
    reveal_with_fuel(disassembly, 2);
}

/// One instruction with an operand is whole.
pub proof fn lemma_with_operand_is_whole(op: Opcode, operand: nat)
    requires
        op.spec_operand_widths().len() == 1,
        operand <= usize::MAX,
    ensures
        is_whole(with_operand(op, operand)),
{
    lemma_with_operand(op, operand as usize);
    lemma_operand_widths(op);
    reveal_with_fuel(disassembly, 2);
}

/// The code of an expression is a run of whole instructions.
pub proof fn law_expression_code_is_whole(e: Expression, at: nat, env: Env)
    requires
        expression_code(e, at, env) is Ok,
    ensures
        is_whole(expression_code(e, at, env).unwrap().code),
    decreases e, 0nat,
{
    let out = expression_code(e, at, env).unwrap();
    match e {
        Expression::IntegerLiteral(_) => {
            lemma_with_operand_is_whole(Opcode::OpConst, env.constants.len());
        },
        Expression::StringLiteral(_) => {
            lemma_with_operand_is_whole(Opcode::OpConst, env.constants.len());
        },
        Expression::BooleanLiteral(_) => {
            lemma_plain_is_whole(Opcode::OpTrue);
            lemma_plain_is_whole(Opcode::OpFalse);
        },
        Expression::Identifier(name) => {
            let slot = crate::symbol_table::slot_of(env.globals, name@);
            lemma_with_operand_is_whole(Opcode::OpGetGlobal, slot);
            assert(out.code =~= with_operand(Opcode::OpGetGlobal, slot));
        },
        Expression::Prefix { operator, right } => {
            law_expression_code_is_whole(*right, at, env);
            let r = expression_code(*right, at, env).unwrap();
            lemma_plain_is_whole(crate::emission::prefix_opcode(operator));
            lemma_whole_joined(r.code, plain(crate::emission::prefix_opcode(operator)));
        },
        Expression::Infix { operator, left, right } => {
            let op = crate::emission::infix_opcode(operator);
            lemma_plain_is_whole(op);
            if operator == InfixOperator::LessThan {
                law_expression_code_is_whole(*right, at, env);
                let r = expression_code(*right, at, env).unwrap();
                law_expression_code_is_whole(*left, at + r.code.len(), r.env);
                let l = expression_code(*left, at + r.code.len(), r.env).unwrap();
                lemma_whole_joined(r.code, l.code);
                lemma_whole_joined(r.code + l.code, plain(op));
            } else {
                law_expression_code_is_whole(*left, at, env);
                let l = expression_code(*left, at, env).unwrap();
                law_expression_code_is_whole(*right, at + l.code.len(), l.env);
                let r = expression_code(*right, at + l.code.len(), l.env).unwrap();
                lemma_whole_joined(l.code, r.code);
                lemma_whole_joined(l.code + r.code, plain(op));
            }
        },
        Expression::If { condition, consequence, alternative } => {
            lemma_with_operand(Opcode::OpJumpNotTruthy, 0);
            lemma_with_operand(Opcode::OpJump, 0);
            lemma_plain(Opcode::OpNull);
            law_expression_code_is_whole(*condition, at, env);
            let c = expression_code(*condition, at, env).unwrap();
            let then_at = at + c.code.len() + 3;
            let n = consequence.statements@.len();
            law_statements_code_is_whole(consequence.statements@, n, true, then_at, c.env);
            let t = statements_code(consequence.statements@, n, true, then_at, c.env).unwrap();
            let else_at = then_at + t.code.len() + 3;
            let over = with_operand(Opcode::OpJumpNotTruthy, else_at);
            lemma_with_operand_is_whole(Opcode::OpJumpNotTruthy, else_at);
            lemma_whole_joined(c.code, over);
            lemma_whole_joined(c.code + over, t.code);
            match alternative {
                None => {
                    let end = else_at + 1;
                    let out_jump = with_operand(Opcode::OpJump, end);
                    lemma_with_operand_is_whole(Opcode::OpJump, end);
                    lemma_whole_joined(c.code + over + t.code, out_jump);
                    lemma_plain_is_whole(Opcode::OpNull);
                    lemma_whole_joined(c.code + over + t.code + out_jump, plain(Opcode::OpNull));
                },
                Some(otherwise) => {
                    let m = otherwise.statements@.len();
                    law_statements_code_is_whole(otherwise.statements@, m, true, else_at, t.env);
                    let a = statements_code(otherwise.statements@, m, true, else_at, t.env).unwrap();
                    let end = else_at + a.code.len();
                    let out_jump = with_operand(Opcode::OpJump, end);
                    lemma_with_operand_is_whole(Opcode::OpJump, end);
                    lemma_whole_joined(c.code + over + t.code, out_jump);
                    lemma_whole_joined(c.code + over + t.code + out_jump, a.code);
                },
            }
        },
        Expression::ArrayLiteral(elements) => {
            law_expressions_code_is_whole(elements@, elements@.len(), at, env);
            let es = expressions_code(elements@, elements@.len(), at, env).unwrap();
            lemma_with_operand_is_whole(Opcode::OpArray, elements@.len());
            lemma_whole_joined(es.code, with_operand(Opcode::OpArray, elements@.len()));
        },
        Expression::HashLiteral(pairs) => {
            law_pairs_code_is_whole(pairs@, pairs@.len(), at, env);
            let ps = pairs_code(pairs@, pairs@.len(), at, env).unwrap();
            lemma_with_operand_is_whole(Opcode::OpHash, 2 * pairs@.len());
            lemma_whole_joined(ps.code, with_operand(Opcode::OpHash, 2 * pairs@.len()));
        },
        Expression::Index { left, index } => {
            law_expression_code_is_whole(*left, at, env);
            let l = expression_code(*left, at, env).unwrap();
            law_expression_code_is_whole(*index, at + l.code.len(), l.env);
            let i = expression_code(*index, at + l.code.len(), l.env).unwrap();
            lemma_plain_is_whole(Opcode::OpIndex);
            lemma_whole_joined(l.code, i.code);
            lemma_whole_joined(l.code + i.code, plain(Opcode::OpIndex));
        },
    }
}

/// The code of a list of expressions is a run of whole instructions.
pub proof fn law_expressions_code_is_whole(es: Seq<Expression>, n: nat, at: nat, env: Env)
    requires
        expressions_code(es, n, at, env) is Ok,
    ensures
        is_whole(expressions_code(es, n, at, env).unwrap().code),
    decreases es, n,
{
    if n == 0 || n > es.len() {
    } else {
        law_expressions_code_is_whole(es, (n - 1) as nat, at, env);
        let before = expressions_code(es, (n - 1) as nat, at, env).unwrap();
        law_expression_code_is_whole(es[n - 1], at + before.code.len(), before.env);
        let e = expression_code(es[n - 1], at + before.code.len(), before.env).unwrap();
        lemma_whole_joined(before.code, e.code);
    }
}

/// The code of a list of pairs is a run of whole instructions.
pub proof fn law_pairs_code_is_whole(ps: Seq<(Expression, Expression)>, n: nat, at: nat, env: Env)
    requires
        pairs_code(ps, n, at, env) is Ok,
    ensures
        is_whole(pairs_code(ps, n, at, env).unwrap().code),
    decreases ps, n,
{
    if n == 0 || n > ps.len() {
    } else {
        law_pairs_code_is_whole(ps, (n - 1) as nat, at, env);
        let before = pairs_code(ps, (n - 1) as nat, at, env).unwrap();
        law_expression_code_is_whole(ps[n - 1].0, at + before.code.len(), before.env);
        let k = expression_code(ps[n - 1].0, at + before.code.len(), before.env).unwrap();
        law_expression_code_is_whole(ps[n - 1].1, at + before.code.len() + k.code.len(), k.env);
        let v = expression_code(
            ps[n - 1].1,
            at + before.code.len() + k.code.len(),
            k.env,
        ).unwrap();
        lemma_whole_joined(before.code, k.code);
        lemma_whole_joined(before.code + k.code, v.code);
    }
}

/// The code of a statement is a run of whole instructions.
pub proof fn law_statement_code_is_whole(s: Statement, keep_value: bool, at: nat, env: Env)
    requires
        statement_code(s, keep_value, at, env) is Ok,
    ensures
        is_whole(statement_code(s, keep_value, at, env).unwrap().code),
    decreases s, 0nat,
{
    match s {
        Statement::Let { name, value } => {
            law_expression_code_is_whole(value, at, env);
            let v = expression_code(value, at, env).unwrap();
            let slot = crate::symbol_table::slot_of(
                crate::symbol_table::declare(v.env.globals, name@),
                name@,
            );
            lemma_with_operand_is_whole(Opcode::OpSetGlobal, slot);
            lemma_whole_joined(v.code, with_operand(Opcode::OpSetGlobal, slot));
        },
        Statement::Expression(e) => {
            law_expression_code_is_whole(e, at, env);
            let v = expression_code(e, at, env).unwrap();
            lemma_plain_is_whole(Opcode::OpPop);
            lemma_whole_joined(v.code, plain(Opcode::OpPop));
        },
    }
}

/// The code of a list of statements is a run of whole instructions.
pub proof fn law_statements_code_is_whole(
    ss: Seq<Statement>,
    n: nat,
    keep_last: bool,
    at: nat,
    env: Env,
)
    requires
        statements_code(ss, n, keep_last, at, env) is Ok,
    ensures
        is_whole(statements_code(ss, n, keep_last, at, env).unwrap().code),
    decreases ss, n,
{
    if n == 0 || n > ss.len() {
    } else {
        law_statements_code_is_whole(ss, (n - 1) as nat, keep_last, at, env);
        let before = statements_code(ss, (n - 1) as nat, keep_last, at, env).unwrap();
        let keep = keep_last && n == ss.len();
        law_statement_code_is_whole(ss[n - 1], keep, at + before.code.len(), before.env);
        let s = statement_code(ss[n - 1], keep, at + before.code.len(), before.env).unwrap();
        lemma_whole_joined(before.code, s.code);
    }
}

/// The disassembly of a compiled program does not fail.
pub proof fn law_compiled_code_disassembles(program: Program)
    requires
        program_code(program) is Ok,
    ensures
        disassembly(program_code(program).unwrap().code, 0) is Ok,
{
    law_statements_code_is_whole(
        program.statements@,
        program.statements@.len(),
        false,
        0,
        crate::emission::empty_env(),
    );
}

} // verus!
