//! The instruction set and its binary layout.
//!
//! An instruction is one tag byte followed by its operands. Every opcode has
//! a fixed list of operand widths; an operand is written as that many bytes,
//! most significant byte first. Instructions follow one another without
//! padding, so the offset of an instruction is the number of bytes before it.
use vstd::prelude::*;

verus! {

/// The largest value that fits into a two-byte operand.
pub const MAX_OPERAND: usize = 65535;

/// One tag per kind of instruction.
#[derive(Clone, Copy, Debug, PartialEq, Eq, Hash, Structural)]
pub enum Opcode {
    /// Push the constant whose pool index is the operand.
    OpConst,
    OpAdd,
    /// Discard the top of the stack.
    OpPop,
    OpSub,
    OpMul,
    OpDiv,
    OpTrue,
    OpFalse,
    OpEqual,
    OpNotEqual,
    OpGreaterThan,
    /// Arithmetic negation.
    OpMinus,
    /// Logical negation.
    OpBang,
    /// Jump to the operand if the top of the stack is not truthy.
    OpJumpNotTruthy,
    /// Jump to the operand.
    OpJump,
    OpNull,
    OpGetGlobal,
    OpSetGlobal,
    /// Build an array from as many stack entries as the operand says.
    OpArray,
    /// Build a hash from as many stack entries as the operand says.
    OpHash,
    OpIndex,
}

/// Why a list of operands cannot be encoded for an opcode.
#[derive(Clone, Copy, Debug, PartialEq, Eq, Structural)]
pub enum EncodingError {
    /// The number of operands differs from the opcode's arity.
    ArityMismatch,
    /// An operand does not fit into its declared width.
    OperandOverflow,
}

/// Why a byte sequence is not a sequence of instructions.
#[derive(Clone, Copy, Debug, PartialEq, Eq, Structural)]
pub enum DecodingError {
    /// The byte at `offset` is no opcode tag.
    UnknownOpcode { offset: usize, tag: u8 },
    /// The instruction at `offset` lacks some of its operand bytes.
    TruncatedOperands { offset: usize },
}

impl Opcode {
    /// The byte that stands for this opcode in a program.
    pub open spec fn spec_tag(self) -> u8 {
        match self {
            Opcode::OpConst => 0,
            Opcode::OpAdd => 1,
            Opcode::OpPop => 2,
            Opcode::OpSub => 3,
            Opcode::OpMul => 4,
            Opcode::OpDiv => 5,
            Opcode::OpTrue => 6,
            Opcode::OpFalse => 7,
            Opcode::OpEqual => 8,
            Opcode::OpNotEqual => 9,
            Opcode::OpGreaterThan => 10,
            Opcode::OpMinus => 11,
            Opcode::OpBang => 12,
            Opcode::OpJumpNotTruthy => 13,
            Opcode::OpJump => 14,
            Opcode::OpNull => 15,
            Opcode::OpGetGlobal => 16,
            Opcode::OpSetGlobal => 17,
            Opcode::OpArray => 18,
            Opcode::OpHash => 19,
            Opcode::OpIndex => 20,
        }
    }

    /// The opcode that a tag byte stands for, if any.
    pub open spec fn spec_from_tag(tag: u8) -> Option<Opcode> {
        if tag == 0 {
            Some(Opcode::OpConst)
        } else if tag == 1 {
            Some(Opcode::OpAdd)
        } else if tag == 2 {
            Some(Opcode::OpPop)
        } else if tag == 3 {
            Some(Opcode::OpSub)
        } else if tag == 4 {
            Some(Opcode::OpMul)
        } else if tag == 5 {
            Some(Opcode::OpDiv)
        } else if tag == 6 {
            Some(Opcode::OpTrue)
        } else if tag == 7 {
            Some(Opcode::OpFalse)
        } else if tag == 8 {
            Some(Opcode::OpEqual)
        } else if tag == 9 {
            Some(Opcode::OpNotEqual)
        } else if tag == 10 {
            Some(Opcode::OpGreaterThan)
        } else if tag == 11 {
            Some(Opcode::OpMinus)
        } else if tag == 12 {
            Some(Opcode::OpBang)
        } else if tag == 13 {
            Some(Opcode::OpJumpNotTruthy)
        } else if tag == 14 {
            Some(Opcode::OpJump)
        } else if tag == 15 {
            Some(Opcode::OpNull)
        } else if tag == 16 {
            Some(Opcode::OpGetGlobal)
        } else if tag == 17 {
            Some(Opcode::OpSetGlobal)
        } else if tag == 18 {
            Some(Opcode::OpArray)
        } else if tag == 19 {
            Some(Opcode::OpHash)
        } else if tag == 20 {
            Some(Opcode::OpIndex)
        } else {
            None
        }
    }

    /// The widths, in bytes, of the operands that follow the tag.
    pub open spec fn spec_operand_widths(self) -> Seq<usize> {
        match self {
            Opcode::OpConst
            | Opcode::OpJumpNotTruthy
            | Opcode::OpJump
            | Opcode::OpGetGlobal
            | Opcode::OpSetGlobal
            | Opcode::OpArray
            | Opcode::OpHash => seq![2usize],
            _ => Seq::empty(),
        }
    }

    /// The mnemonic under which the opcode appears in a disassembly.
    pub open spec fn spec_name(self) -> Seq<char> {
        match self {
            Opcode::OpConst => "OpConst"@,
            Opcode::OpAdd => "OpAdd"@,
            Opcode::OpPop => "OpPop"@,
            Opcode::OpSub => "OpSub"@,
            Opcode::OpMul => "OpMul"@,
            Opcode::OpDiv => "OpDiv"@,
            Opcode::OpTrue => "OpTrue"@,
            Opcode::OpFalse => "OpFalse"@,
            Opcode::OpEqual => "OpEqual"@,
            Opcode::OpNotEqual => "OpNotEqual"@,
            Opcode::OpGreaterThan => "OpGreaterThan"@,
            Opcode::OpMinus => "OpMinus"@,
            Opcode::OpBang => "OpBang"@,
            Opcode::OpJumpNotTruthy => "OpJumpNotTruthy"@,
            Opcode::OpJump => "OpJump"@,
            Opcode::OpNull => "OpNull"@,
            Opcode::OpGetGlobal => "OpGetGlobal"@,
            Opcode::OpSetGlobal => "OpSetGlobal"@,
            Opcode::OpArray => "OpArray"@,
            Opcode::OpHash => "OpHash"@,
            Opcode::OpIndex => "OpIndex"@,
        }
    }

    /// The number of bytes that the operands of one instruction occupy.
    pub open spec fn spec_operand_size(self) -> nat {
        total_width(self.spec_operand_widths(), self.spec_operand_widths().len())
    }

    /// The byte that stands for this opcode in a program.
    #[verifier::when_used_as_spec(spec_tag)]
    pub fn tag(self) -> (tag: u8)
        ensures
            tag == self.spec_tag(),
            Opcode::spec_from_tag(tag) == Some(self),
    {
        match self {
            Opcode::OpConst => 0,
            Opcode::OpAdd => 1,
            Opcode::OpPop => 2,
            Opcode::OpSub => 3,
            Opcode::OpMul => 4,
            Opcode::OpDiv => 5,
            Opcode::OpTrue => 6,
            Opcode::OpFalse => 7,
            Opcode::OpEqual => 8,
            Opcode::OpNotEqual => 9,
            Opcode::OpGreaterThan => 10,
            Opcode::OpMinus => 11,
            Opcode::OpBang => 12,
            Opcode::OpJumpNotTruthy => 13,
            Opcode::OpJump => 14,
            Opcode::OpNull => 15,
            Opcode::OpGetGlobal => 16,
            Opcode::OpSetGlobal => 17,
            Opcode::OpArray => 18,
            Opcode::OpHash => 19,
            Opcode::OpIndex => 20,
        }
    }

    /// The opcode that a tag byte stands for, if any.
    #[verifier::when_used_as_spec(spec_from_tag)]
    pub fn from_tag(tag: u8) -> (op: Option<Opcode>)
        ensures
            op == Opcode::spec_from_tag(tag),
            op matches Some(o) ==> o.spec_tag() == tag,
    {
        match tag {
            0 => Some(Opcode::OpConst),
            1 => Some(Opcode::OpAdd),
            2 => Some(Opcode::OpPop),
            3 => Some(Opcode::OpSub),
            4 => Some(Opcode::OpMul),
            5 => Some(Opcode::OpDiv),
            6 => Some(Opcode::OpTrue),
            7 => Some(Opcode::OpFalse),
            8 => Some(Opcode::OpEqual),
            9 => Some(Opcode::OpNotEqual),
            10 => Some(Opcode::OpGreaterThan),
            11 => Some(Opcode::OpMinus),
            12 => Some(Opcode::OpBang),
            13 => Some(Opcode::OpJumpNotTruthy),
            14 => Some(Opcode::OpJump),
            15 => Some(Opcode::OpNull),
            16 => Some(Opcode::OpGetGlobal),
            17 => Some(Opcode::OpSetGlobal),
            18 => Some(Opcode::OpArray),
            19 => Some(Opcode::OpHash),
            20 => Some(Opcode::OpIndex),
            _ => None,
        }
    }

    /// The widths, in bytes, of the operands that follow the tag.
    pub fn operand_widths(self) -> (widths: Vec<usize>)
        ensures
            widths@ == self.spec_operand_widths(),
    {
        match self {
            Opcode::OpConst
            | Opcode::OpJumpNotTruthy
            | Opcode::OpJump
            | Opcode::OpGetGlobal
            | Opcode::OpSetGlobal
            | Opcode::OpArray
            | Opcode::OpHash => {
                let mut widths: Vec<usize> = Vec::new();
                widths.push(2);
                widths
            },
            _ => Vec::new(),
        }
    }

    /// The mnemonic under which the opcode appears in a disassembly.
    pub fn name(self) -> (name: &'static str)
        ensures
            name@ == self.spec_name(),
    {
        match self {
            Opcode::OpConst => "OpConst",
            Opcode::OpAdd => "OpAdd",
            Opcode::OpPop => "OpPop",
            Opcode::OpSub => "OpSub",
            Opcode::OpMul => "OpMul",
            Opcode::OpDiv => "OpDiv",
            Opcode::OpTrue => "OpTrue",
            Opcode::OpFalse => "OpFalse",
            Opcode::OpEqual => "OpEqual",
            Opcode::OpNotEqual => "OpNotEqual",
            Opcode::OpGreaterThan => "OpGreaterThan",
            Opcode::OpMinus => "OpMinus",
            Opcode::OpBang => "OpBang",
            Opcode::OpJumpNotTruthy => "OpJumpNotTruthy",
            Opcode::OpJump => "OpJump",
            Opcode::OpNull => "OpNull",
            Opcode::OpGetGlobal => "OpGetGlobal",
            Opcode::OpSetGlobal => "OpSetGlobal",
            Opcode::OpArray => "OpArray",
            Opcode::OpHash => "OpHash",
            Opcode::OpIndex => "OpIndex",
        }
    }
}

/// 256 to the power of `width`: the number of values that `width` bytes hold.
pub open spec fn capacity(width: nat) -> nat
    decreases width,
{
    if width == 0 {
        1
    } else {
        256 * capacity((width - 1) as nat)
    }
}

/// The `width` bytes of `value`, most significant byte first.
pub open spec fn big_endian(value: nat, width: nat) -> Seq<u8>
    decreases width,
{
    if width == 0 {
        Seq::empty()
    } else {
        big_endian(value / 256, (width - 1) as nat).push((value % 256) as u8)
    }
}

/// The number that a run of bytes denotes, most significant byte first.
pub open spec fn from_big_endian(bytes: Seq<u8>) -> nat
    decreases bytes.len(),
{
    if bytes.len() == 0 {
        0
    } else {
        from_big_endian(bytes.drop_last()) * 256 + bytes.last() as nat
    }
}

/// The sum of the first `n` widths.
pub open spec fn total_width(widths: Seq<usize>, n: nat) -> nat
    decreases n,
{
    if n == 0 {
        0
    } else {
        total_width(widths, (n - 1) as nat) + widths[n - 1] as nat
    }
}

/// The bytes of the first `n` operands, each in its own width.
pub open spec fn operand_bytes(widths: Seq<usize>, operands: Seq<usize>, n: nat) -> Seq<u8>
    decreases n,
{
    if n == 0 {
        Seq::empty()
    } else {
        operand_bytes(widths, operands, (n - 1) as nat) + big_endian(
            operands[n - 1] as nat,
            widths[n - 1] as nat,
        )
    }
}

/// Why `operands` cannot be encoded for `op`, or `None` if they can.
///
/// A wrong number of operands is reported before an operand that is too large.
pub open spec fn encoding_error(op: Opcode, operands: Seq<usize>) -> Option<EncodingError> {
    let widths = op.spec_operand_widths();
    if operands.len() != widths.len() {
        Some(EncodingError::ArityMismatch)
    } else if exists|i: int|
        0 <= i < widths.len() && operands[i] as nat >= capacity(widths[i] as nat) {
        Some(EncodingError::OperandOverflow)
    } else {
        None
    }
}

/// The bytes of one instruction: the tag, then the operands.
pub open spec fn encoding(op: Opcode, operands: Seq<usize>) -> Seq<u8> {
    seq![op.spec_tag()] + operand_bytes(
        op.spec_operand_widths(),
        operands,
        op.spec_operand_widths().len(),
    )
}

/// A run of encoded instructions.
#[derive(Clone, Debug, PartialEq, Eq)]
pub struct Instructions {
    pub bytes: Vec<u8>,
}

impl View for Instructions {
    type V = Seq<u8>;

    open spec fn view(&self) -> Seq<u8> {
        self.bytes@
    }
}

impl Instructions {
    /// The empty program.
    pub fn new() -> (ins: Instructions)
        ensures
            ins@ == Seq::<u8>::empty(),
    {
        Instructions { bytes: Vec::new() }
    }

    /// The number of bytes, which is the offset of the next instruction.
    pub fn len(&self) -> (n: usize)
        ensures
            n == self@.len(),
    {
        self.bytes.len()
    }
}

/// Tells whether `value` fits into `width` bytes.
fn fits(value: usize, width: usize) -> (ok: bool)
    ensures
        ok == ((value as nat) < capacity(width as nat)),
    decreases width,
{
    if width == 0 {
        value == 0
    } else {
        fits(value / 256, width - 1)
    }
}

/// Appends the `width` low bytes of `value`, most significant byte first.
fn push_big_endian(bytes: &mut Vec<u8>, value: usize, width: usize)
    ensures
        final(bytes)@ == old(bytes)@ + big_endian(value as nat, width as nat),
    decreases width,
{
    if width > 0 {
        push_big_endian(bytes, value / 256, width - 1);
        bytes.push((value % 256) as u8);
    }
}

/// Encodes one instruction.
///
/// Fails if the number of operands is not the opcode's arity, or if an
/// operand does not fit into its width; otherwise the result is the tag
/// followed by the operands, most significant byte first.
pub fn make_instructions(op: Opcode, operands: &Vec<usize>) -> (r: Result<
    Instructions,
    EncodingError,
>)
    ensures
        match encoding_error(op, operands@) {
            Some(e) => r == Err::<Instructions, EncodingError>(e),
            None => r is Ok && r.unwrap()@ == encoding(op, operands@),
        },
{
    let widths = op.operand_widths();
    if operands.len() != widths.len() {
        return Err(EncodingError::ArityMismatch);
    }
    let mut bytes: Vec<u8> = Vec::new();
    bytes.push(op.tag());
    let mut i: usize = 0;
    while i < widths.len()
        invariant
            i <= widths.len(),
            widths@ == op.spec_operand_widths(),
            operands.len() == widths.len(),
            bytes@ == seq![op.spec_tag()] + operand_bytes(widths@, operands@, i as nat),
            forall|j: int| 0 <= j < i ==> (operands[j] as nat) < capacity(widths[j] as nat),
        decreases widths.len() - i,
    {
        if !fits(operands[i], widths[i]) {
            return Err(EncodingError::OperandOverflow);
        }
        push_big_endian(&mut bytes, operands[i], widths[i]);
        i += 1;
    }
    Ok(Instructions { bytes })
}

/// The bytes of the first `n` runs, one after the other.
pub open spec fn concatenation(parts: Seq<Instructions>, n: nat) -> Seq<u8>
    decreases n,
{
    if n == 0 {
        Seq::empty()
    } else {
        concatenation(parts, (n - 1) as nat) + parts[n - 1]@
    }
}

/// Appends a copy of `part` to `bytes`.
pub(crate) fn append_bytes(bytes: &mut Vec<u8>, part: &Vec<u8>)
    ensures
        final(bytes)@ == old(bytes)@ + part@,
{
    let mut i: usize = 0;
    while i < part.len()
        invariant
            i <= part.len(),
            bytes@ == old(bytes)@ + part@.subrange(0, i as int),
        decreases part.len() - i,
    {
        bytes.push(part[i]);
        i += 1;
    }
}

/// Joins the runs in `parts`, in order and without separators.
pub(crate) fn concat_all(parts: &Vec<Instructions>) -> (joined: Instructions)
    ensures
        joined@ == concatenation(parts@, parts@.len()),
{
    let mut bytes: Vec<u8> = Vec::new();
    let mut i: usize = 0;
    while i < parts.len()
        invariant
            i <= parts.len(),
            bytes@ == concatenation(parts@, i as nat),
        decreases parts.len() - i,
    {
        append_bytes(&mut bytes, &parts[i].bytes);
        i += 1;
    }
    Instructions { bytes }
}

/// Joins the runs in `parts`, in order and without separators.
pub fn concat_instructions(parts: Vec<Instructions>) -> (joined: Instructions)
    ensures
        joined@ == concatenation(parts@, parts@.len()),
{
    concat_all(&parts)
}

/// The character for a digit below ten.
pub open spec fn digit(d: nat) -> char {
    if d == 0 {
        '0'
    } else if d == 1 {
        '1'
    } else if d == 2 {
        '2'
    } else if d == 3 {
        '3'
    } else if d == 4 {
        '4'
    } else if d == 5 {
        '5'
    } else if d == 6 {
        '6'
    } else if d == 7 {
        '7'
    } else if d == 8 {
        '8'
    } else {
        '9'
    }
}

/// The decimal numeral of `n`, without leading zeros.
pub open spec fn decimal(n: nat) -> Seq<char>
    decreases n,
{
    if n < 10 {
        seq![digit(n)]
    } else {
        decimal(n / 10).push(digit(n % 10))
    }
}

/// The value of operand number `k` of an instruction whose operand bytes
/// begin at `start`.
pub open spec fn operand_at(bytes: Seq<u8>, start: nat, widths: Seq<usize>, k: nat) -> nat {
    from_big_endian(
        bytes.subrange(
            (start + total_width(widths, k)) as int,
            (start + total_width(widths, k + 1)) as int,
        ),
    )
}

/// The first `n` operands as text, each with a space before it.
pub open spec fn operands_text(bytes: Seq<u8>, start: nat, widths: Seq<usize>, n: nat) -> Seq<
    char,
>
    decreases n,
{
    if n == 0 {
        Seq::empty()
    } else {
        operands_text(bytes, start, widths, (n - 1) as nat) + seq![' '] + decimal(
            operand_at(bytes, start, widths, (n - 1) as nat),
        )
    }
}

/// One line of a disassembly: the offset, the mnemonic and the operands,
/// separated by single spaces and closed by a line feed.
pub open spec fn instruction_text(bytes: Seq<u8>, at: nat, op: Opcode) -> Seq<char> {
    let widths = op.spec_operand_widths();
    decimal(at) + seq![' '] + op.spec_name() + operands_text(bytes, at + 1, widths, widths.len())
        + seq!['\n']
}

/// The disassembly of `bytes` from offset `at` on.
///
/// Decoding goes from instruction to instruction and stops at the first byte
/// that is no tag, or at the first instruction that the bytes cut short.
pub open spec fn disassembly(bytes: Seq<u8>, at: nat) -> Result<Seq<char>, DecodingError>
    decreases bytes.len() - at,
{
    if at >= bytes.len() {
        Ok(Seq::empty())
    } else {
        match Opcode::spec_from_tag(bytes[at as int]) {
            None => Err(DecodingError::UnknownOpcode { offset: at as usize, tag: bytes[at as int] }),
            Some(op) => {
                let next = at + 1 + op.spec_operand_size();
                if next > bytes.len() {
                    Err(DecodingError::TruncatedOperands { offset: at as usize })
                } else {
                    match disassembly(bytes, next) {
                        Err(e) => Err(e),
                        Ok(rest) => Ok(instruction_text(bytes, at, op) + rest),
                    }
                }
            },
        }
    }
}

/// Every operand of every opcode is two bytes wide, and no opcode has more
/// than one.
pub proof fn lemma_operand_widths(op: Opcode)
    ensures
        op.spec_operand_widths().len() <= 1,
        forall|i: int|
            0 <= i < op.spec_operand_widths().len() ==> op.spec_operand_widths()[i] == 2,
        op.spec_operand_size() == 2 * op.spec_operand_widths().len(),
{
    reveal_with_fuel(total_width, 2);
}

fn digit_text(d: usize) -> (text: &'static str)
    requires
        d < 10,
    ensures
        text@ == seq![digit(d as nat)],
{
    proof {
        reveal_strlit("0");
        reveal_strlit("1");
        reveal_strlit("2");
        reveal_strlit("3");
        reveal_strlit("4");
        reveal_strlit("5");
        reveal_strlit("6");
        reveal_strlit("7");
        reveal_strlit("8");
        reveal_strlit("9");
    }
    let text = if d == 0 {
        "0"
    } else if d == 1 {
        "1"
    } else if d == 2 {
        "2"
    } else if d == 3 {
        "3"
    } else if d == 4 {
        "4"
    } else if d == 5 {
        "5"
    } else if d == 6 {
        "6"
    } else if d == 7 {
        "7"
    } else if d == 8 {
        "8"
    } else {
        "9"
    };
    assert(text@ =~= seq![digit(d as nat)]);
    text
}

/// Appends the decimal numeral of `n`.
fn push_decimal(text: &mut String, n: usize)
    ensures
        final(text)@ == old(text)@ + decimal(n as nat),
    decreases n,
{
    if n >= 10 {
        push_decimal(text, n / 10);
    }
    text.append(digit_text(n % 10));
}

/// Reads `width` bytes from `start` on as one number.
fn read_big_endian(bytes: &Vec<u8>, start: usize, width: usize) -> (value: usize)
    requires
        start + width <= bytes.len(),
        width <= 2,
    ensures
        value == from_big_endian(bytes@.subrange(start as int, start + width)),
{
    let mut value: usize = 0;
    let mut i: usize = 0;
    while i < width
        invariant
            i <= width <= 2,
            start + width <= bytes.len(),
            value == from_big_endian(bytes@.subrange(start as int, start + i)),
            value < capacity(i as nat),
        decreases width - i,
    {
        proof {
            reveal_with_fuel(capacity, 4);
            let longer = bytes@.subrange(start as int, start + i + 1);
            assert(longer.drop_last() =~= bytes@.subrange(start as int, start + i));
        }
        value = value * 256 + bytes[start + i] as usize;
        i += 1;
    }
    value
}

impl Instructions {
    /// Renders the program as text, one instruction per line.
    ///
    /// Fails at the first byte that is no opcode tag and at the first
    /// instruction whose operands run past the end.
    pub fn disassemble(&self) -> (r: Result<String, DecodingError>)
        ensures
            match disassembly(self@, 0) {
                Ok(text) => r is Ok && r.unwrap()@ == text,
                Err(e) => r == Err::<String, DecodingError>(e),
            },
    {
        let len = self.bytes.len();
        let mut text = String::new();
        let mut at: usize = 0;
        while at < len
            invariant
                at <= len,
                len == self@.len(),
                disassembly(self@, 0) == (match disassembly(self@, at as nat) {
                    Ok(rest) => Ok::<Seq<char>, DecodingError>(text@ + rest),
                    Err(e) => Err(e),
                }),
            decreases len - at,
        {
            let tag = self.bytes[at];
            let op = match Opcode::from_tag(tag) {
                None => {
                    return Err(DecodingError::UnknownOpcode { offset: at, tag });
                },
                Some(op) => op,
            };
            let widths = op.operand_widths();
            proof {
                lemma_operand_widths(op);
                reveal_strlit(" ");
                reveal_strlit("\n");
            }
            let size = 2 * widths.len();
            if len - at - 1 < size {
                return Err(DecodingError::TruncatedOperands { offset: at });
            }
            let ghost before = text@;
            push_decimal(&mut text, at);
            text.append(" ");
            text.append(op.name());
            let ghost head = text@;
            let mut k: usize = 0;
            let mut cursor: usize = at + 1;
            while k < widths.len()
                invariant
                    k <= widths.len() <= 1,
                    widths@ == op.spec_operand_widths(),
                    forall|i: int| 0 <= i < widths.len() ==> widths[i] == 2,
                    cursor == at + 1 + total_width(widths@, k as nat),
                    at + 1 + 2 * widths.len() <= len,
                    len == self@.len(),
                    text@ == head + operands_text(self@, (at + 1) as nat, widths@, k as nat),
                decreases widths.len() - k,
            {
                proof {
                    reveal_with_fuel(total_width, 3);
                    reveal_strlit(" ");
                }
                let value = read_big_endian(&self.bytes, cursor, widths[k]);
                text.append(" ");
                push_decimal(&mut text, value);
                assert(" "@ =~= seq![' ']);
                cursor += widths[k];
                k += 1;
            }
            text.append("\n");
            proof {
                assert(" "@ =~= seq![' ']);
                assert("\n"@ =~= seq!['\n']);
                assert(text@ =~= before + instruction_text(self@, at as nat, op));
                let next = (at + 1 + size) as nat;
                match disassembly(self@, next) {
                    Ok(rest) => {
                        assert(text@ + rest =~= before + (instruction_text(self@, at as nat, op)
                            + rest));
                    },
                    Err(e) => {},
                }
            }
            at = at + 1 + size;
        }
        assert(text@ + Seq::<char>::empty() =~= text@);
        Ok(text)
    }
}

} // verus!
