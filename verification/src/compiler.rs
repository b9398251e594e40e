//! The walk over the syntax tree that emits the program.
//!
//! The compiler appends to one growing program. Operands come before the
//! operator that consumes them. A forward jump is emitted with a
//! placeholder for its target; when the code between the jump and its
//! target has been emitted, the operand is overwritten in place.
use vstd::prelude::*;
use crate::ast::{
    BlockStatement, Expression, InfixOperator, PrefixOperator, Program, Statement,
};
use crate::constant_pool::{ConstantPool, MAX_CONSTANTS};
use crate::emission::{
    empty_env, expression_code, expressions_code, infix_opcode, lemma_expressions_error_persists,
    lemma_pairs_error_persists, lemma_plain, lemma_statements_error_persists, lemma_with_operand,
    overflow, pairs_code, plain, prefix_opcode, program_code, statement_code, statements_code,
    with_operand, Emitted, Env,
};
use crate::object::Object;
use crate::op_code::{
    append_bytes, disassembly, encoding, encoding_error, make_instructions, EncodingError,
    Instructions, Opcode, MAX_OPERAND,
};
use crate::stream::law_compiled_code_disassembles;
use crate::symbol_table::{lookup, well_formed, SymbolTable};

verus! {

/// Why a program cannot be compiled.
#[derive(Clone, Debug, PartialEq, Eq)]
pub enum CompileError {
    /// A name is used that no `let` has declared.
    UndefinedIdentifier(String),
    /// An operand does not fit into an instruction.
    Encoding(EncodingError),
    /// The program has more constants than a pool may hold.
    TooManyConstants,
}

/// A compiled program.
#[derive(Debug)]
pub struct Bytecode {
    pub instructions: Instructions,
    pub constants: Vec<Object>,
}

/// The operand that a forward jump carries until its target is known.
pub const PLACEHOLDER: usize = 65535;

/// The state of one compilation: the program as far as it has been
/// emitted, the pool and the table of names.
#[derive(Debug)]
struct Emitter {
    instructions: Instructions,
    constants: ConstantPool,
    symbol_table: SymbolTable,
}

/// A compiler, good for one compilation.
#[derive(Debug)]
pub struct Compiler {
    emitter: Emitter,
}

impl Compiler {
    /// A compiler has emitted nothing, pooled nothing and declared nothing
    /// until it is used, and using it uses it up.
    #[verifier::type_invariant]
    pub closed spec fn is_new(&self) -> bool {
        self.emitter.wf() && self.emitter.code() == Seq::<u8>::empty() && self.emitter.env()
            == empty_env()
    }

    /// A new compiler.
    pub fn new() -> (compiler: Compiler)
        ensures
            compiler.is_new(),
    {
        Compiler { emitter: Emitter::new() }
    }

    /// Compiles `program` and hands out the finished bytecode.
    ///
    /// The result is the code of the program's statements, each expression
    /// statement followed by a pop, and the constants in the order in which
    /// the code loads them. The code is a run of whole instructions: its
    /// disassembly does not fail. Compilation fails as a whole at the first
    /// error.
    pub fn compile(self, program: &Program) -> (r: Result<Bytecode, CompileError>)
        ensures
            match program_code(*program) {
                Ok(out) => r matches Ok(bytecode) && bytecode.instructions@ == out.code
                    && bytecode.constants@ == out.env.constants && disassembly(
                    bytecode.instructions@,
                    0,
                ) is Ok,
                Err(error) => r == Err::<Bytecode, CompileError>(error),
            },
    {
        proof {
            use_type_invariant(&self);
        }
        let mut emitter = self.emitter;
        match emitter.compile_statements(&program.statements, false) {
            Err(error) => Err(error),
            Ok(()) => {
                proof {
                    law_compiled_code_disassembles(*program);
                    assert(emitter.code() =~= program_code(*program).unwrap().code);
                }
                Ok(
                    Bytecode {
                        instructions: emitter.instructions,
                        constants: emitter.constants.into_vec(),
                    },
                )
            },
        }
    }
}

impl Emitter {
    /// The bytes emitted so far.
    spec fn code(&self) -> Seq<u8> {
        self.instructions@
    }

    /// The constants pooled and the global names declared so far.
    spec fn env(&self) -> Env {
        Env { constants: self.constants@, globals: self.symbol_table@[0] }
    }

    /// Compilation works in the global scope.
    spec fn wf(&self) -> bool {
        well_formed(self.symbol_table@) && self.symbol_table@.len() == 1
    }

    /// Tells whether `self` and `r` are what `outcome` asks for, given that
    /// compilation set out from `before`.
    spec fn follows(
        &self,
        before: &Emitter,
        outcome: Result<Emitted, CompileError>,
        r: Result<(), CompileError>,
    ) -> bool {
        match outcome {
            Ok(out) => r is Ok && self.wf() && self.code() == before.code() + out.code
                && self.env() == out.env,
            Err(error) => r == Err::<(), CompileError>(error),
        }
    }

    /// The state before anything has been compiled.
    fn new() -> (emitter: Emitter)
        ensures
            emitter.wf(),
            emitter.code() == Seq::<u8>::empty(),
            emitter.env() == empty_env(),
    {
        Emitter {
            instructions: Instructions::new(),
            constants: ConstantPool::new(),
            symbol_table: SymbolTable::new(),
        }
    }

    /// Appends one instruction and returns the offset at which it stands.
    fn emit(&mut self, op: Opcode, operands: &Vec<usize>) -> (r: Result<usize, CompileError>)
        ensures
            match encoding_error(op, operands@) {
                Some(e) => r == Err::<usize, CompileError>(CompileError::Encoding(e)),
                None => r == Ok::<usize, CompileError>(old(self).code().len() as usize)
                    && final(self).code() == old(self).code() + encoding(op, operands@)
                    && final(self).constants == old(self).constants && final(self).symbol_table
                    == old(self).symbol_table,
            },
    {
        match make_instructions(op, operands) {
            Err(e) => Err(CompileError::Encoding(e)),
            Ok(instruction) => {
                let at = self.instructions.bytes.len();
                append_bytes(&mut self.instructions.bytes, &instruction.bytes);
                Ok(at)
            },
        }
    }

    /// Appends an instruction that has no operands.
    fn emit_plain(&mut self, op: Opcode)
        requires
            op.spec_operand_widths().len() == 0,
        ensures
            final(self).code() == old(self).code() + plain(op),
            final(self).constants == old(self).constants,
            final(self).symbol_table == old(self).symbol_table,
    {
        proof {
            lemma_plain(op);
        }
        let operands: Vec<usize> = Vec::new();
        assert(operands@ =~= Seq::<usize>::empty());
        let _ = self.emit(op, &operands);
    }

    /// Appends an instruction that has one operand and returns the offset
    /// at which it stands.
    fn emit_operand(&mut self, op: Opcode, operand: usize) -> (r: Result<usize, CompileError>)
        requires
            op.spec_operand_widths().len() == 1,
        ensures
            operand > MAX_OPERAND ==> r == Err::<usize, CompileError>(overflow()),
            operand <= MAX_OPERAND ==> r == Ok::<usize, CompileError>(
                old(self).code().len() as usize,
            ) && final(self).code() == old(self).code() + with_operand(op, operand as nat)
                && final(self).constants == old(self).constants && final(self).symbol_table
                == old(self).symbol_table,
    {
        proof {
            lemma_with_operand(op, operand);
        }
        let mut operands: Vec<usize> = Vec::new();
        operands.push(operand);
        assert(operands@ =~= seq![operand]);
        self.emit(op, &operands)
    }

    /// Overwrites the operand of the instruction of `op` that stands at
    /// offset `at`. The tag byte stays as it is.
    fn change_operand(&mut self, at: usize, op: Opcode, operand: usize) -> (r: Result<
        (),
        CompileError,
    >)
        requires
            op.spec_operand_widths().len() == 1,
            at + 3 <= old(self).code().len(),
            old(self).code()[at as int] == op.spec_tag(),
        ensures
            operand > MAX_OPERAND ==> r == Err::<(), CompileError>(overflow()),
            final(self).code().len() == old(self).code().len(),
            operand <= MAX_OPERAND ==> r is Ok && final(self).code() == patched(
                old(self).code(),
                at as int,
                op,
                operand as nat,
            ) && final(self).constants == old(self).constants && final(self).symbol_table == old(
                self,
            ).symbol_table,
    {
        proof {
            lemma_with_operand(op, operand);
        }
        let mut operands: Vec<usize> = Vec::new();
        operands.push(operand);
        assert(operands@ =~= seq![operand]);
        assert(self.instructions.bytes.len() <= usize::MAX);
        match make_instructions(op, &operands) {
            Err(e) => Err(CompileError::Encoding(e)),
            Ok(instruction) => {
                self.instructions.bytes.set(at + 1, instruction.bytes[1]);
                self.instructions.bytes.set(at + 2, instruction.bytes[2]);
                assert(self.code() =~= patched(old(self).code(), at as int, op, operand as nat));
                Ok(())
            },
        }
    }

    /// Pools a literal and emits the instruction that loads it.
    fn load_constant(&mut self, value: Object) -> (r: Result<(), CompileError>)
        requires
            old(self).wf(),
        ensures
            final(self).follows(old(self), crate::emission::load_constant(value, old(self).env()), r),
    {
        if self.constants.len() >= MAX_CONSTANTS {
            return Err(CompileError::TooManyConstants);
        }
        let index = self.constants.add(value);
        let _ = self.emit_operand(Opcode::OpConst, index)?;
        Ok(())
    }

    fn compile_expression(&mut self, e: &Expression) -> (r: Result<(), CompileError>)
        requires
            old(self).wf(),
        ensures
            final(self).follows(
                old(self),
                expression_code(*e, old(self).code().len(), old(self).env()),
                r,
            ),
        decreases e, 1nat,
    {
        let ghost start = self.code();
        let ghost env = self.env();
        match e {
            Expression::IntegerLiteral(value) => self.load_constant(Object::Integer(*value)),
            Expression::StringLiteral(value) => self.load_constant(Object::String(value.clone())),
            Expression::BooleanLiteral(value) => {
                if *value {
                    self.emit_plain(Opcode::OpTrue);
                } else {
                    self.emit_plain(Opcode::OpFalse);
                }
                Ok(())
            },
            Expression::Identifier(name) => {
                proof {
                    reveal_with_fuel(lookup, 2);
                }
                match self.symbol_table.resolve(name.as_str()) {
                    None => Err(CompileError::UndefinedIdentifier(name.clone())),
                    Some(symbol) => {
                        let _ = self.emit_operand(Opcode::OpGetGlobal, symbol.index)?;
                        assert(self.code() =~= start + (Seq::<u8>::empty() + with_operand(
                            Opcode::OpGetGlobal,
                            symbol.index as nat,
                        )));
                        Ok(())
                    },
                }
            },
            Expression::Prefix { operator, right } => {
                self.compile_expression(&**right)?;
                let ghost r = expression_code(**right, start.len(), env).unwrap();
                self.emit_plain(opcode_of_prefix(*operator));
                assert(self.code() =~= start + (r.code + plain(prefix_opcode(*operator))));
                Ok(())
            },
            Expression::Infix { operator, left, right } => {
                if *operator == InfixOperator::LessThan {
                    self.compile_pair(Ghost(*e), &**right, &**left, Opcode::OpGreaterThan)
                } else {
                    self.compile_pair(Ghost(*e), &**left, &**right, opcode_of_infix(*operator))
                }
            },
            Expression::If { condition, consequence, alternative } => self.compile_if(
                Ghost(*e),
                &**condition,
                &consequence.statements,
                alternative,
            ),
            Expression::ArrayLiteral(elements) => self.compile_array(Ghost(*e), elements),
            Expression::HashLiteral(pairs) => self.compile_hash(Ghost(*e), pairs),
            Expression::Index { left, index } => self.compile_pair(
                Ghost(*e),
                &**left,
                &**index,
                Opcode::OpIndex,
            ),
        }
    }

    /// Compiles two operands, `first` before `second`, and then the
    /// operator `op` that consumes both. Both are parts of `whole`.
    fn compile_pair(
        &mut self,
        Ghost(whole): Ghost<Expression>,
        first: &Expression,
        second: &Expression,
        op: Opcode,
    ) -> (r: Result<(), CompileError>)
        requires
            old(self).wf(),
            op.spec_operand_widths().len() == 0,
            decreases_to!(whole => *first),
            decreases_to!(whole => *second),
        ensures
            final(self).follows(
                old(self),
                match expression_code(*first, old(self).code().len(), old(self).env()) {
                    Err(error) => Err(error),
                    Ok(a) => match expression_code(
                        *second,
                        old(self).code().len() + a.code.len(),
                        a.env,
                    ) {
                        Err(error) => Err(error),
                        Ok(b) => Ok(Emitted { code: a.code + b.code + plain(op), env: b.env }),
                    },
                },
                r,
            ),
        decreases whole, 0nat,
    {
        let ghost start = self.code();
        let ghost env = self.env();
        self.compile_expression(first)?;
        let ghost a = expression_code(*first, start.len(), env).unwrap();
        self.compile_expression(second)?;
        let ghost b = expression_code(*second, start.len() + a.code.len(), a.env).unwrap();
        self.emit_plain(op);
        assert(self.code() =~= start + (a.code + b.code + plain(op)));
        Ok(())
    }

    /// Compiles a conditional. Both jumps are emitted with a placeholder
    /// and patched when their targets are known.
    fn compile_if(
        &mut self,
        Ghost(whole): Ghost<Expression>,
        condition: &Expression,
        consequence: &Vec<Statement>,
        alternative: &Option<BlockStatement>,
    ) -> (r: Result<(), CompileError>)
        requires
            old(self).wf(),
            whole matches Expression::If { condition: c, consequence: t, alternative: a } && *c
                == *condition && t.statements == *consequence && a == *alternative,
        ensures
            final(self).follows(
                old(self),
                expression_code(whole, old(self).code().len(), old(self).env()),
                r,
            ),
        decreases whole, 0nat,
    {
        let ghost start = self.code();
        let ghost env = self.env();
        proof {
            lemma_with_operand(Opcode::OpJumpNotTruthy, PLACEHOLDER);
            lemma_with_operand(Opcode::OpJump, PLACEHOLDER);
            lemma_plain(Opcode::OpNull);
        }
        self.compile_expression(condition)?;
        let ghost c = expression_code(*condition, start.len(), env).unwrap();
        let jump_over_at = self.emit_operand(Opcode::OpJumpNotTruthy, PLACEHOLDER)?;
        let ghost then_at = start.len() + c.code.len() + 3;
        self.compile_statements(consequence, true)?;
        let ghost t = statements_code(consequence@, consequence@.len(), true, then_at, c.env).unwrap();
        let jump_out_at = self.emit_operand(Opcode::OpJump, PLACEHOLDER)?;
        let else_at = self.instructions.len();
        proof {
            lemma_patch_jump_over(start, c.code, t.code, else_at as nat);
        }
        self.change_operand(jump_over_at, Opcode::OpJumpNotTruthy, else_at)?;
        match alternative {
            None => {
                self.emit_plain(Opcode::OpNull);
                let end = self.instructions.len();
                proof {
                    lemma_patch_jump_out(
                        start,
                        c.code,
                        t.code,
                        plain(Opcode::OpNull),
                        else_at as nat,
                        end as nat,
                    );
                }
                self.change_operand(jump_out_at, Opcode::OpJump, end)?;
            },
            Some(otherwise) => {
                self.compile_statements(&otherwise.statements, true)?;
                let ghost a = statements_code(
                    otherwise.statements@,
                    otherwise.statements@.len(),
                    true,
                    else_at as nat,
                    t.env,
                ).unwrap();
                let end = self.instructions.len();
                proof {
                    lemma_patch_jump_out(
                        start,
                        c.code,
                        t.code,
                        a.code,
                        else_at as nat,
                        end as nat,
                    );
                }
                self.change_operand(jump_out_at, Opcode::OpJump, end)?;
            },
        }
        Ok(())
    }

    /// Compiles the elements of an array from left to right and then the
    /// instruction that builds the array from them.
    #[verifier::loop_isolation(false)]
    fn compile_array(&mut self, Ghost(whole): Ghost<Expression>, elements: &Vec<Expression>) -> (r:
        Result<(), CompileError>)
        requires
            old(self).wf(),
            whole == Expression::ArrayLiteral(*elements),
        ensures
            final(self).follows(
                old(self),
                expression_code(whole, old(self).code().len(), old(self).env()),
                r,
            ),
        decreases whole, 0nat,
    {
        let ghost start = self.code();
        let ghost env = self.env();
        assert(self.code() =~= start + Seq::<u8>::empty());
        let mut i: usize = 0;
        while i < elements.len()
            invariant
                i <= elements.len(),
                whole == Expression::ArrayLiteral(*elements),
                self.wf(),
                expressions_code(elements@, i as nat, start.len(), env) matches Ok(done)
                    && self.code() == start + done.code && self.env() == done.env,
            decreases elements.len() - i,
        {
            let ghost done = expressions_code(elements@, i as nat, start.len(), env).unwrap();
            match self.compile_expression(&elements[i]) {
                Err(error) => {
                    proof {
                        lemma_expressions_error_persists(
                            elements@,
                            (i + 1) as nat,
                            elements@.len(),
                            start.len(),
                            env,
                        );
                    }
                    return Err(error);
                },
                Ok(()) => {},
            }
            proof {
                let one = expression_code(
                    elements@[i as int],
                    start.len() + done.code.len(),
                    done.env,
                ).unwrap();
                assert(self.code() =~= start + (done.code + one.code));
            }
            i += 1;
        }
        let ghost all = expressions_code(elements@, elements@.len(), start.len(), env).unwrap();
        let _ = self.emit_operand(Opcode::OpArray, elements.len())?;
        assert(self.code() =~= start + (all.code + with_operand(Opcode::OpArray, elements@.len())));
        Ok(())
    }

    /// Compiles the pairs of a hash in the order in which they were
    /// written, of each pair the key before the value, and then the
    /// instruction that builds the hash from all of them.
    #[verifier::loop_isolation(false)]
    fn compile_hash(
        &mut self,
        Ghost(whole): Ghost<Expression>,
        pairs: &Vec<(Expression, Expression)>,
    ) -> (r: Result<(), CompileError>)
        requires
            old(self).wf(),
            whole == Expression::HashLiteral(*pairs),
        ensures
            final(self).follows(
                old(self),
                expression_code(whole, old(self).code().len(), old(self).env()),
                r,
            ),
        decreases whole, 0nat,
    {
        let ghost start = self.code();
        let ghost env = self.env();
        assert(self.code() =~= start + Seq::<u8>::empty());
        let mut i: usize = 0;
        while i < pairs.len()
            invariant
                i <= pairs.len(),
                whole == Expression::HashLiteral(*pairs),
                self.wf(),
                pairs_code(pairs@, i as nat, start.len(), env) matches Ok(done) && self.code()
                    == start + done.code && self.env() == done.env,
            decreases pairs.len() - i,
        {
            let ghost done = pairs_code(pairs@, i as nat, start.len(), env).unwrap();
            match self.compile_expression(&pairs[i].0) {
                Err(error) => {
                    proof {
                        lemma_pairs_error_persists(
                            pairs@,
                            (i + 1) as nat,
                            pairs@.len(),
                            start.len(),
                            env,
                        );
                    }
                    return Err(error);
                },
                Ok(()) => {},
            }
            let ghost k = expression_code(
                pairs@[i as int].0,
                start.len() + done.code.len(),
                done.env,
            ).unwrap();
            assert(self.code() =~= start + (done.code + k.code));
            match self.compile_expression(&pairs[i].1) {
                Err(error) => {
                    proof {
                        lemma_pairs_error_persists(
                            pairs@,
                            (i + 1) as nat,
                            pairs@.len(),
                            start.len(),
                            env,
                        );
                    }
                    return Err(error);
                },
                Ok(()) => {},
            }
            proof {
                let v = expression_code(
                    pairs@[i as int].1,
                    start.len() + done.code.len() + k.code.len(),
                    k.env,
                ).unwrap();
                assert(self.code() =~= start + (done.code + k.code + v.code));
            }
            i += 1;
        }
        let ghost all = pairs_code(pairs@, pairs@.len(), start.len(), env).unwrap();
        if pairs.len() > MAX_OPERAND {
            return Err(CompileError::Encoding(EncodingError::OperandOverflow));
        }
        let _ = self.emit_operand(Opcode::OpHash, 2 * pairs.len())?;
        assert(self.code() =~= start + (all.code + with_operand(Opcode::OpHash, 2 * pairs@.len())));
        Ok(())
    }

    fn compile_statement(&mut self, s: &Statement, keep_value: bool) -> (r: Result<
        (),
        CompileError,
    >)
        requires
            old(self).wf(),
        ensures
            final(self).follows(
                old(self),
                statement_code(*s, keep_value, old(self).code().len(), old(self).env()),
                r,
            ),
        decreases s, 0nat,
    {
        let ghost start = self.code();
        let ghost env = self.env();
        match s {
            Statement::Let { name, value } => {
                self.compile_expression(value)?;
                let ghost v = expression_code(*value, start.len(), env).unwrap();
                let symbol = self.symbol_table.define(name.as_str());
                let _ = self.emit_operand(Opcode::OpSetGlobal, symbol.index)?;
                assert(self.code() =~= start + (v.code + with_operand(
                    Opcode::OpSetGlobal,
                    symbol.index as nat,
                )));
                Ok(())
            },
            Statement::Expression(e) => {
                self.compile_expression(e)?;
                let ghost v = expression_code(*e, start.len(), env).unwrap();
                if !keep_value {
                    self.emit_plain(Opcode::OpPop);
                    assert(self.code() =~= start + (v.code + plain(Opcode::OpPop)));
                }
                Ok(())
            },
        }
    }

    #[verifier::loop_isolation(false)]
    fn compile_statements(&mut self, statements: &Vec<Statement>, keep_last: bool) -> (r: Result<
        (),
        CompileError,
    >)
        requires
            old(self).wf(),
        ensures
            final(self).follows(
                old(self),
                statements_code(
                    statements@,
                    statements@.len(),
                    keep_last,
                    old(self).code().len(),
                    old(self).env(),
                ),
                r,
            ),
        decreases statements, 0nat,
    {
        let ghost start = self.code();
        let ghost env = self.env();
        assert(self.code() =~= start + Seq::<u8>::empty());
        let mut i: usize = 0;
        while i < statements.len()
            invariant
                i <= statements.len(),
                self.wf(),
                statements_code(statements@, i as nat, keep_last, start.len(), env) matches Ok(done)
                    && self.code() == start + done.code && self.env() == done.env,
            decreases statements.len() - i,
        {
            let ghost done = statements_code(statements@, i as nat, keep_last, start.len(), env).unwrap();
            let keep = keep_last && i + 1 == statements.len();
            match self.compile_statement(&statements[i], keep) {
                Err(error) => {
                    proof {
                        lemma_statements_error_persists(
                            statements@,
                            (i + 1) as nat,
                            statements@.len(),
                            keep_last,
                            start.len(),
                            env,
                        );
                    }
                    return Err(error);
                },
                Ok(()) => {},
            }
            proof {
                let one = statement_code(
                    statements@[i as int],
                    keep,
                    start.len() + done.code.len(),
                    done.env,
                ).unwrap();
                assert(self.code() =~= start + (done.code + one.code));
            }
            i += 1;
        }
        Ok(())
    }
}

/// `code` with the operand of the instruction of `op` at offset `at`
/// replaced by `operand`.
spec fn patched(code: Seq<u8>, at: int, op: Opcode, operand: nat) -> Seq<u8> {
    code.subrange(0, at) + with_operand(op, operand) + code.subrange(at + 3, code.len() as int)
}

/// Where the jump over the consequence stands while the jump out of it
/// still holds its placeholder, and what patching it gives.
proof fn lemma_patch_jump_over(start: Seq<u8>, c: Seq<u8>, t: Seq<u8>, else_at: nat)
    ensures
        ({
            let held = start + c + with_operand(Opcode::OpJumpNotTruthy, PLACEHOLDER as nat) + t
                + with_operand(Opcode::OpJump, PLACEHOLDER as nat);
            let at = start.len() + c.len();
            &&& held.len() == at + 3 + t.len() + 3
            &&& held[at as int] == Opcode::OpJumpNotTruthy.spec_tag()
            &&& else_at <= MAX_OPERAND ==> patched(
                held,
                at as int,
                Opcode::OpJumpNotTruthy,
                else_at,
            ) == start + c + with_operand(Opcode::OpJumpNotTruthy, else_at) + t + with_operand(
                Opcode::OpJump,
                PLACEHOLDER as nat,
            )
        }),
{
    lemma_with_operand(Opcode::OpJumpNotTruthy, PLACEHOLDER);
    lemma_with_operand(Opcode::OpJump, PLACEHOLDER);
    let held = start + c + with_operand(Opcode::OpJumpNotTruthy, PLACEHOLDER as nat) + t
        + with_operand(Opcode::OpJump, PLACEHOLDER as nat);
    let at = start.len() + c.len();
    if else_at <= MAX_OPERAND {
        lemma_with_operand(Opcode::OpJumpNotTruthy, else_at as usize);
        assert(patched(held, at as int, Opcode::OpJumpNotTruthy, else_at) =~= start + c
            + with_operand(Opcode::OpJumpNotTruthy, else_at) + t + with_operand(
            Opcode::OpJump,
            PLACEHOLDER as nat,
        ));
    }
}

/// Where the jump out of the consequence stands when `tail` has been
/// emitted after it, and what patching it gives.
proof fn lemma_patch_jump_out(
    start: Seq<u8>,
    c: Seq<u8>,
    t: Seq<u8>,
    tail: Seq<u8>,
    else_at: nat,
    end: nat,
)
    requires
        else_at <= MAX_OPERAND,
    ensures
        ({
            let held = start + c + with_operand(Opcode::OpJumpNotTruthy, else_at) + t
                + with_operand(Opcode::OpJump, PLACEHOLDER as nat) + tail;
            let at = start.len() + c.len() + 3 + t.len();
            &&& held.len() == at + 3 + tail.len()
            &&& held[at as int] == Opcode::OpJump.spec_tag()
            &&& end <= MAX_OPERAND ==> patched(held, at as int, Opcode::OpJump, end) == start + (c
                + with_operand(Opcode::OpJumpNotTruthy, else_at) + t + with_operand(
                Opcode::OpJump,
                end,
            ) + tail)
        }),
{
    lemma_with_operand(Opcode::OpJumpNotTruthy, else_at as usize);
    lemma_with_operand(Opcode::OpJump, PLACEHOLDER);
    let held = start + c + with_operand(Opcode::OpJumpNotTruthy, else_at) + t + with_operand(
        Opcode::OpJump,
        PLACEHOLDER as nat,
    ) + tail;
    let at = start.len() + c.len() + 3 + t.len();
    if end <= MAX_OPERAND {
        lemma_with_operand(Opcode::OpJump, end as usize);
        assert(patched(held, at as int, Opcode::OpJump, end) =~= start + (c + with_operand(
            Opcode::OpJumpNotTruthy,
            else_at,
        ) + t + with_operand(Opcode::OpJump, end) + tail));
    }
}

fn opcode_of_prefix(operator: PrefixOperator) -> (op: Opcode)
    ensures
        op == prefix_opcode(operator),
        op.spec_operand_widths().len() == 0,
{
    match operator {
        PrefixOperator::Minus => Opcode::OpMinus,
        PrefixOperator::Bang => Opcode::OpBang,
    }
}

fn opcode_of_infix(operator: InfixOperator) -> (op: Opcode)
    ensures
        op == infix_opcode(operator),
        op.spec_operand_widths().len() == 0,
{
    match operator {
        InfixOperator::Plus => Opcode::OpAdd,
        InfixOperator::Minus => Opcode::OpSub,
        InfixOperator::Asterisk => Opcode::OpMul,
        InfixOperator::Slash => Opcode::OpDiv,
        InfixOperator::Equal => Opcode::OpEqual,
        InfixOperator::NotEqual => Opcode::OpNotEqual,
        InfixOperator::GreaterThan => Opcode::OpGreaterThan,
        InfixOperator::LessThan => Opcode::OpGreaterThan,
    }
}

} // verus!
