//! The newyork IR: an SSA-form, region-structured representation of Yul.
//!
//! Values are named by [`ValueId`]s, functions by [`FunctionId`]s. Control flow
//! is structured: `if`, `switch` and `for` carry nested [`Region`]s whose
//! `yields` flow into the statement's `outputs`.

use crate::uint::{nat_bits, uint_bits, uint_to_u64, Uint};
use vstd::prelude::*;

verus! {

/// An SSA value name.
#[derive(Clone, Copy, Debug, PartialEq, Eq, Structural, PartialOrd, Ord, Hash)]
pub struct ValueId(pub u32);

/// A function name, unique within an object.
#[derive(Clone, Copy, Debug, PartialEq, Eq, Structural, PartialOrd, Ord, Hash)]
pub struct FunctionId(pub u32);

impl ValueId {
    /// Returns the current id and advances `self` to the next one.
    pub fn fresh(&mut self) -> (r: ValueId)
        requires
            old(self).0 < u32::MAX,
        ensures
            r == *old(self),
            final(self).0 == old(self).0 + 1,
    {
        let r = *self;
        self.0 = self.0 + 1;
        r
    }
}

/// Integer widths used for narrowing.
#[derive(Clone, Copy, Debug, PartialEq, Eq, Structural, PartialOrd, Ord, Hash)]
pub enum BitWidth {
    I1,
    I8,
    I32,
    I64,
    I128,
    I160,
    I256,
}

/// The number of bits of a width.
pub open spec fn width_bits(w: BitWidth) -> nat {
    match w {
        BitWidth::I1 => 1,
        BitWidth::I8 => 8,
        BitWidth::I32 => 32,
        BitWidth::I64 => 64,
        BitWidth::I128 => 128,
        BitWidth::I160 => 160,
        BitWidth::I256 => 256,
    }
}

/// The narrowest width with at least `n` bits (256 bits at most).
pub open spec fn width_for_bits(n: nat) -> BitWidth {
    if n <= 1 {
        BitWidth::I1
    } else if n <= 8 {
        BitWidth::I8
    } else if n <= 32 {
        BitWidth::I32
    } else if n <= 64 {
        BitWidth::I64
    } else if n <= 128 {
        BitWidth::I128
    } else if n <= 160 {
        BitWidth::I160
    } else {
        BitWidth::I256
    }
}

/// The wider of two widths.
pub open spec fn width_max(a: BitWidth, b: BitWidth) -> BitWidth {
    if width_bits(a) >= width_bits(b) {
        a
    } else {
        b
    }
}

/// The narrower of two widths.
pub open spec fn width_min(a: BitWidth, b: BitWidth) -> BitWidth {
    if width_bits(a) <= width_bits(b) {
        a
    } else {
        b
    }
}

impl BitWidth {
    /// The number of bits.
    pub fn bits(self) -> (r: u32)
        ensures
            r == width_bits(self),
    {
        match self {
            BitWidth::I1 => 1,
            BitWidth::I8 => 8,
            BitWidth::I32 => 32,
            BitWidth::I64 => 64,
            BitWidth::I128 => 128,
            BitWidth::I160 => 160,
            BitWidth::I256 => 256,
        }
    }

    /// The narrowest width holding `bits` bits; anything above 160 is 256.
    pub fn from_bits(bits: u32) -> (r: BitWidth)
        ensures
            r == width_for_bits(bits as nat),
    {
        if bits <= 1 {
            BitWidth::I1
        } else if bits <= 8 {
            BitWidth::I8
        } else if bits <= 32 {
            BitWidth::I32
        } else if bits <= 64 {
            BitWidth::I64
        } else if bits <= 128 {
            BitWidth::I128
        } else if bits <= 160 {
            BitWidth::I160
        } else {
            BitWidth::I256
        }
    }

    /// The narrowest width that can hold `value`.
    pub fn from_max_value(value: &Uint) -> (r: BitWidth)
        ensures
            r == width_for_bits(nat_bits(value@)),
    {
        let bits = uint_bits(value);
        if bits <= 1 {
            BitWidth::I1
        } else if bits <= 8 {
            BitWidth::I8
        } else if bits <= 32 {
            BitWidth::I32
        } else if bits <= 64 {
            BitWidth::I64
        } else if bits <= 128 {
            BitWidth::I128
        } else if bits <= 160 {
            BitWidth::I160
        } else {
            BitWidth::I256
        }
    }

    /// Whether `self` is strictly narrower than `other`.
    pub fn lt(self, other: BitWidth) -> (r: bool)
        ensures
            r == (width_bits(self) < width_bits(other)),
    {
        self.bits() < other.bits()
    }

    /// The wider of the two widths.
    pub fn max(self, other: BitWidth) -> (r: BitWidth)
        ensures
            r == width_max(self, other),
    {
        if self.bits() >= other.bits() {
            self
        } else {
            other
        }
    }

    /// The narrower of the two widths.
    pub fn min(self, other: BitWidth) -> (r: BitWidth)
        ensures
            r == width_min(self, other),
    {
        if self.bits() <= other.bits() {
            self
        } else {
            other
        }
    }
}

/// Pointer address spaces.
#[derive(Clone, Copy, Debug, PartialEq, Eq, Structural, Hash)]
pub enum AddressSpace {
    Heap,
    Stack,
    Storage,
    Code,
}

/// Value types.
#[derive(Clone, Copy, Debug, PartialEq, Eq, Structural, Hash)]
pub enum Type {
    Int(BitWidth),
    Ptr(AddressSpace),
    Void,
}

impl Type {
    /// The EVM word type, `i256`.
    pub fn word() -> (r: Type)
        ensures
            r == Type::Int(BitWidth::I256),
    {
        Type::Int(BitWidth::I256)
    }
}

/// A typed SSA value reference.
#[derive(Clone, Copy, Debug, PartialEq, Eq, Structural, Hash)]
pub struct Value {
    pub id: ValueId,
    pub value_type: Type,
}

impl Value {
    /// A value of the given type.
    pub fn new(id: ValueId, value_type: Type) -> (r: Value)
        ensures
            r == (Value { id, value_type }),
    {
        Value { id, value_type }
    }

    /// A value of the word type `i256`.
    pub fn word(id: ValueId) -> (r: Value)
        ensures
            r == (Value { id, value_type: Type::Int(BitWidth::I256) }),
    {
        Value { id, value_type: Type::Int(BitWidth::I256) }
    }
}

/// The part of memory an access targets, when known.
#[derive(Clone, Copy, Debug, PartialEq, Eq, Structural, Hash)]
pub enum MemoryRegion {
    /// Scratch space `[0, 0x40)`.
    Scratch,
    /// The free memory pointer slot at `0x40`.
    FreePointerSlot,
    /// Any other known address.
    Dynamic,
    /// Not known.
    Unknown,
}

/// The region that a constant address falls in.
pub open spec fn region_of_address(addr: nat) -> MemoryRegion {
    if addr < 0x40 {
        MemoryRegion::Scratch
    } else if addr == 0x40 {
        MemoryRegion::FreePointerSlot
    } else {
        MemoryRegion::Dynamic
    }
}

impl MemoryRegion {
    /// The region of a constant address.
    pub fn from_address(addr: &Uint) -> (r: MemoryRegion)
        ensures
            r == region_of_address(addr@),
    {
        match uint_to_u64(addr) {
            Some(a) => {
                if a < 0x40 {
                    MemoryRegion::Scratch
                } else if a == 0x40 {
                    MemoryRegion::FreePointerSlot
                } else {
                    MemoryRegion::Dynamic
                }
            },
            None => MemoryRegion::Dynamic,
        }
    }
}

/// Binary (and, for `AddMod`/`MulMod`, ternary) EVM operations.
#[derive(Clone, Copy, Debug, PartialEq, Eq, Structural, Hash)]
pub enum BinaryOperation {
    Add,
    Sub,
    Mul,
    Div,
    SDiv,
    Mod,
    SMod,
    Exp,
    AddMod,
    MulMod,
    And,
    Or,
    Xor,
    Shl,
    Shr,
    Sar,
    Lt,
    Gt,
    Slt,
    Sgt,
    Eq,
    Byte,
    SignExtend,
}

/// Unary EVM operations.
#[derive(Clone, Copy, Debug, PartialEq, Eq, Structural, Hash)]
pub enum UnaryOperation {
    IsZero,
    Not,
    Clz,
}

/// Kinds of external message calls.
#[derive(Clone, Copy, Debug, PartialEq, Eq, Structural, Hash)]
pub enum CallKind {
    Call,
    CallCode,
    DelegateCall,
    StaticCall,
}

/// Kinds of contract creation.
#[derive(Clone, Copy, Debug, PartialEq, Eq, Structural, Hash)]
pub enum CreateKind {
    Create,
    Create2,
}

/// Pure or effectful computations that produce values.
#[allow(inconsistent_fields)]
#[derive(Debug)]
pub enum Expression {
    Literal { value: Uint, value_type: Type },
    Var(ValueId),
    Binary { operation: BinaryOperation, lhs: Value, rhs: Value },
    Ternary { operation: BinaryOperation, a: Value, b: Value, n: Value },
    Unary { operation: UnaryOperation, operand: Value },
    CallDataLoad { offset: Value },
    CallValue,
    Caller,
    Origin,
    CallDataSize,
    CodeSize,
    GasPrice,
    ReturnDataSize,
    Coinbase,
    Timestamp,
    Number,
    Difficulty,
    GasLimit,
    ChainId,
    SelfBalance,
    BaseFee,
    BlobBaseFee,
    Gas,
    MSize,
    Address,
    ExtCodeSize { address: Value },
    ExtCodeHash { address: Value },
    BlockHash { number: Value },
    BlobHash { index: Value },
    Balance { address: Value },
    MLoad { offset: Value, region: MemoryRegion },
    SLoad { key: Value, static_slot: Option<Uint> },
    TLoad { key: Value },
    Call { function: FunctionId, arguments: Vec<Value> },
    Truncate { value: Value, to: BitWidth },
    ZeroExtend { value: Value, to: BitWidth },
    SignExtendTo { value: Value, to: BitWidth },
    Keccak256 { offset: Value, length: Value },
    Keccak256Pair { word0: Value, word1: Value },
    Keccak256Single { word0: Value },
    MappingSLoad { key: Value, slot: Value },
    DataOffset { id: String },
    DataSize { id: String },
    LoadImmutable { key: String },
    LinkerSymbol { path: String },
}

/// One `case` of a `switch`.
#[derive(Debug)]
pub struct SwitchCase {
    pub value: Uint,
    pub body: Region,
}

/// A nested statement list that yields values to its enclosing statement.
#[derive(Debug)]
pub struct Region {
    pub statements: Vec<Statement>,
    pub yields: Vec<Value>,
}

/// A top-level statement list.
#[derive(Debug)]
pub struct Block {
    pub statements: Vec<Statement>,
}

/// Statements.
#[allow(inconsistent_fields)]
#[derive(Debug)]
pub enum Statement {
    Let { bindings: Vec<ValueId>, value: Expression },
    MStore { offset: Value, value: Value, region: MemoryRegion },
    MStore8 { offset: Value, value: Value, region: MemoryRegion },
    MCopy { dest: Value, src: Value, length: Value },
    SStore { key: Value, value: Value, static_slot: Option<Uint> },
    TStore { key: Value, value: Value },
    MappingSStore { key: Value, slot: Value, value: Value },
    If {
        condition: Value,
        inputs: Vec<Value>,
        then_region: Region,
        else_region: Option<Region>,
        outputs: Vec<ValueId>,
    },
    Switch {
        scrutinee: Value,
        inputs: Vec<Value>,
        cases: Vec<SwitchCase>,
        default: Option<Region>,
        outputs: Vec<ValueId>,
    },
    For {
        initial_values: Vec<Value>,
        loop_variables: Vec<ValueId>,
        condition_statements: Vec<Statement>,
        condition: Expression,
        body: Region,
        post_input_variables: Vec<ValueId>,
        post: Region,
        outputs: Vec<ValueId>,
    },
    Break { values: Vec<Value> },
    Continue { values: Vec<Value> },
    Leave { return_values: Vec<Value> },
    Revert { offset: Value, length: Value },
    Return { offset: Value, length: Value },
    Stop,
    Invalid,
    PanicRevert { code: u8 },
    ErrorStringRevert { length: u8, data: Vec<Uint> },
    CustomErrorRevert { selector: Uint, arguments: Vec<Value> },
    SelfDestruct { address: Value },
    ExternalCall {
        kind: CallKind,
        gas: Value,
        address: Value,
        value: Option<Value>,
        args_offset: Value,
        args_length: Value,
        ret_offset: Value,
        ret_length: Value,
        result: ValueId,
    },
    Create {
        kind: CreateKind,
        value: Value,
        offset: Value,
        length: Value,
        salt: Option<Value>,
        result: ValueId,
    },
    Log { offset: Value, length: Value, topics: Vec<Value> },
    CodeCopy { dest: Value, offset: Value, length: Value },
    ExtCodeCopy { address: Value, dest: Value, offset: Value, length: Value },
    ReturnDataCopy { dest: Value, offset: Value, length: Value },
    DataCopy { dest: Value, offset: Value, length: Value },
    CallDataCopy { dest: Value, offset: Value, length: Value },
    Block(Region),
    Expression(Expression),
    SetImmutable { key: String, value: Value },
}

/// A function definition.
#[derive(Debug)]
pub struct Function {
    pub id: FunctionId,
    pub name: String,
    pub parameters: Vec<(ValueId, Type)>,
    pub returns: Vec<Type>,
    /// Ids of the return variables at function entry.
    pub return_values_initial: Vec<ValueId>,
    /// Ids of the return variables at the fall-through exit.
    pub return_values: Vec<ValueId>,
    pub body: Block,
    pub call_count: usize,
    pub size_estimate: usize,
}

/// A named data section of an object.
#[derive(Debug)]
pub struct DataSection {
    pub name: String,
    pub bytes: Vec<u8>,
}

/// A compiled object: top-level code, its functions (ordered by id) and nested objects.
#[derive(Debug)]
pub struct Object {
    pub name: String,
    pub code: Block,
    pub functions: Vec<Function>,
    pub subobjects: Vec<Object>,
    pub data: Vec<DataSection>,
}

} // verus!
