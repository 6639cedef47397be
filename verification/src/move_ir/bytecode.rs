use vstd::prelude::*;
use crate::move_ir::types::{clone_types, types_view, FunId, ModuleId, StructId, Type, TypeV};
use crate::move_ir::u256::U256;

verus! {

/// Key of an instruction into its function's table of source positions.
#[derive(Clone, Copy, Debug, PartialEq, Eq, Structural, Hash)]
pub struct AttrId(pub usize);

impl AttrId {
    pub fn new(idx: usize) -> (r: Self)
        ensures
            r == AttrId(idx),
    {
        AttrId(idx)
    }

    pub fn as_usize(self) -> (r: usize)
        ensures
            r == self.0,
    {
        self.0
    }
}

/// A jump target.
#[derive(Clone, Copy, Debug, PartialEq, Eq, Structural, Hash)]
pub struct Label(pub usize);

impl Label {
    pub fn new(idx: usize) -> (r: Self)
        ensures
            r == Label(idx),
    {
        Label(idx)
    }

    pub fn as_usize(self) -> (r: usize)
        ensures
            r == self.0,
    {
        self.0
    }
}

#[derive(Clone, Copy, Debug, PartialEq, Eq, Structural)]
pub enum AssignKind {
    Copy,
    Move,
    Store,
}

/// Where control goes when a call aborts, and the temp that receives the
/// error code.
#[derive(Clone, Copy, Debug, PartialEq, Eq, Structural)]
pub struct AbortAction(pub Label, pub usize);

/// The origin that a reference is written back to.
#[derive(Clone, Copy, Debug, PartialEq, Eq, Structural)]
pub enum BorrowNode {
    GlobalRoot,
    LocalRoot(usize),
    Reference(usize),
    ReturnPlaceholder(usize),
}

#[derive(Debug, PartialEq, Eq)]
pub enum Constant {
    Bool(bool),
    U8(u8),
    U16(u16),
    U32(u32),
    U64(u64),
    U128(u128),
    U256(U256),
    Address(U256),
    ByteArray(Vec<u8>),
    AddressArray(Vec<U256>),
    Vector(Vec<Constant>),
}

pub ghost enum ConstantV {
    Bool(bool),
    U8(u8),
    U16(u16),
    U32(u32),
    U64(u64),
    U128(u128),
    U256(U256),
    Address(U256),
    ByteArray(Seq<u8>),
    AddressArray(Seq<U256>),
    Vector(Seq<ConstantV>),
}

pub open spec fn constant_view(c: Constant) -> ConstantV
    decreases c,
{
    match c {
        Constant::Bool(b) => ConstantV::Bool(b),
        Constant::U8(x) => ConstantV::U8(x),
        Constant::U16(x) => ConstantV::U16(x),
        Constant::U32(x) => ConstantV::U32(x),
        Constant::U64(x) => ConstantV::U64(x),
        Constant::U128(x) => ConstantV::U128(x),
        Constant::U256(x) => ConstantV::U256(x),
        Constant::Address(x) => ConstantV::Address(x),
        Constant::ByteArray(v) => ConstantV::ByteArray(v@),
        Constant::AddressArray(v) => ConstantV::AddressArray(v@),
        Constant::Vector(v) => ConstantV::Vector(
            Seq::new(
                v@.len(),
                |i: int| if 0 <= i < v@.len() { constant_view(v@[i]) } else { arbitrary() },
            ),
        ),
    }
}

impl View for Constant {
    type V = ConstantV;

    open spec fn view(&self) -> ConstantV {
        constant_view(*self)
    }
}

pub open spec fn constants_view(cs: Seq<Constant>) -> Seq<ConstantV> {
    Seq::new(cs.len(), |i: int| cs[i]@)
}

pub broadcast proof fn lemma_constant_view(c: Constant)
    ensures
        c matches Constant::Vector(v) ==> #[trigger] constant_view(c) == ConstantV::Vector(
            constants_view(v@),
        ),
{
    match c {
        Constant::Vector(v) => {
            assert(constant_view(c)->Vector_0 =~= constants_view(v@));
        },
        _ => {},
    }
}

pub fn clone_constant(c: &Constant) -> (r: Constant)
    ensures
        r@ == c@,
    decreases c,
{
    broadcast use lemma_constant_view;

    match c {
        Constant::Bool(b) => Constant::Bool(*b),
        Constant::U8(x) => Constant::U8(*x),
        Constant::U16(x) => Constant::U16(*x),
        Constant::U32(x) => Constant::U32(*x),
        Constant::U64(x) => Constant::U64(*x),
        Constant::U128(x) => Constant::U128(*x),
        Constant::U256(x) => Constant::U256(*x),
        Constant::Address(x) => Constant::Address(*x),
        Constant::ByteArray(v) => Constant::ByteArray(v.clone()),
        Constant::AddressArray(v) => Constant::AddressArray(v.clone()),
        Constant::Vector(v) => Constant::Vector(clone_constants(v)),
    }
}

pub fn clone_constants(v: &Vec<Constant>) -> (r: Vec<Constant>)
    ensures
        constants_view(r@) == constants_view(v@),
    decreases v,
{
    let mut out: Vec<Constant> = Vec::new();
    let mut i: usize = 0;
    while i < v.len()
        invariant
            i <= v.len(),
            out.len() == i,
            forall|j: int| 0 <= j < i ==> out@[j]@ == v@[j]@,
        decreases v.len() - i,
    {
        out.push(clone_constant(&v[i]));
        i += 1;
    }
    assert(constants_view(out@) =~= constants_view(v@));
    out
}

#[derive(Debug, PartialEq, Eq)]
pub enum Operation {
    // User function
    Function(ModuleId, FunId, Vec<Type>),
    // Aggregates
    Pack(ModuleId, StructId, Vec<Type>),
    Unpack(ModuleId, StructId, Vec<Type>),
    // Resources
    MoveTo(ModuleId, StructId, Vec<Type>),
    MoveFrom(ModuleId, StructId, Vec<Type>),
    Exists(ModuleId, StructId, Vec<Type>),
    // Borrow
    BorrowLoc,
    BorrowField(ModuleId, StructId, Vec<Type>, usize),
    BorrowGlobal(ModuleId, StructId, Vec<Type>),
    // Builtins
    Uninit,
    Destroy,
    ReadRef,
    WriteRef,
    FreezeRef,
    WriteBack(BorrowNode),
    // Unary
    CastU8,
    CastU16,
    CastU32,
    CastU64,
    CastU128,
    CastU256,
    Not,
    // Binary
    Add,
    Sub,
    Mul,
    Div,
    Mod,
    BitOr,
    BitAnd,
    Xor,
    Shl,
    Shr,
    Lt,
    Gt,
    Le,
    Ge,
    Or,
    And,
    Eq,
    Neq,
}

pub ghost enum OperationV {
    Function(ModuleId, FunId, Seq<TypeV>),
    Pack(ModuleId, StructId, Seq<TypeV>),
    Unpack(ModuleId, StructId, Seq<TypeV>),
    MoveTo(ModuleId, StructId, Seq<TypeV>),
    MoveFrom(ModuleId, StructId, Seq<TypeV>),
    Exists(ModuleId, StructId, Seq<TypeV>),
    BorrowLoc,
    BorrowField(ModuleId, StructId, Seq<TypeV>, usize),
    BorrowGlobal(ModuleId, StructId, Seq<TypeV>),
    Uninit,
    Destroy,
    ReadRef,
    WriteRef,
    FreezeRef,
    WriteBack(BorrowNode),
    CastU8,
    CastU16,
    CastU32,
    CastU64,
    CastU128,
    CastU256,
    Not,
    Add,
    Sub,
    Mul,
    Div,
    Mod,
    BitOr,
    BitAnd,
    Xor,
    Shl,
    Shr,
    Lt,
    Gt,
    Le,
    Ge,
    Or,
    And,
    Eq,
    Neq,
}

impl View for Operation {
    type V = OperationV;

    open spec fn view(&self) -> OperationV {
        match *self {
            Operation::Function(m, f, ts) => OperationV::Function(m, f, types_view(ts@)),
            Operation::Pack(m, s, ts) => OperationV::Pack(m, s, types_view(ts@)),
            Operation::Unpack(m, s, ts) => OperationV::Unpack(m, s, types_view(ts@)),
            Operation::MoveTo(m, s, ts) => OperationV::MoveTo(m, s, types_view(ts@)),
            Operation::MoveFrom(m, s, ts) => OperationV::MoveFrom(m, s, types_view(ts@)),
            Operation::Exists(m, s, ts) => OperationV::Exists(m, s, types_view(ts@)),
            Operation::BorrowLoc => OperationV::BorrowLoc,
            Operation::BorrowField(m, s, ts, o) => OperationV::BorrowField(
                m,
                s,
                types_view(ts@),
                o,
            ),
            Operation::BorrowGlobal(m, s, ts) => OperationV::BorrowGlobal(m, s, types_view(ts@)),
            Operation::Uninit => OperationV::Uninit,
            Operation::Destroy => OperationV::Destroy,
            Operation::ReadRef => OperationV::ReadRef,
            Operation::WriteRef => OperationV::WriteRef,
            Operation::FreezeRef => OperationV::FreezeRef,
            Operation::WriteBack(n) => OperationV::WriteBack(n),
            Operation::CastU8 => OperationV::CastU8,
            Operation::CastU16 => OperationV::CastU16,
            Operation::CastU32 => OperationV::CastU32,
            Operation::CastU64 => OperationV::CastU64,
            Operation::CastU128 => OperationV::CastU128,
            Operation::CastU256 => OperationV::CastU256,
            Operation::Not => OperationV::Not,
            Operation::Add => OperationV::Add,
            Operation::Sub => OperationV::Sub,
            Operation::Mul => OperationV::Mul,
            Operation::Div => OperationV::Div,
            Operation::Mod => OperationV::Mod,
            Operation::BitOr => OperationV::BitOr,
            Operation::BitAnd => OperationV::BitAnd,
            Operation::Xor => OperationV::Xor,
            Operation::Shl => OperationV::Shl,
            Operation::Shr => OperationV::Shr,
            Operation::Lt => OperationV::Lt,
            Operation::Gt => OperationV::Gt,
            Operation::Le => OperationV::Le,
            Operation::Ge => OperationV::Ge,
            Operation::Or => OperationV::Or,
            Operation::And => OperationV::And,
            Operation::Eq => OperationV::Eq,
            Operation::Neq => OperationV::Neq,
        }
    }
}

impl OperationV {
    /// One of the ten arithmetic, bitwise and shift operations.
    pub open spec fn is_arithmetic(self) -> bool {
        self is Add || self is Sub || self is Mul || self is Div || self is Mod || self is BitOr
            || self is BitAnd || self is Xor || self is Shl || self is Shr
    }

    /// A comparison, or one of the two binary logical operations.
    pub open spec fn is_comparison(self) -> bool {
        self is Lt || self is Gt || self is Le || self is Ge || self is Or || self is And
            || self is Eq || self is Neq
    }

    pub open spec fn is_cast(self) -> bool {
        self is CastU8 || self is CastU16 || self is CastU32 || self is CastU64
            || self is CastU128 || self is CastU256
    }
}

pub fn clone_operation(op: &Operation) -> (r: Operation)
    ensures
        r@ == op@,
{
    match op {
        Operation::Function(m, f, ts) => Operation::Function(*m, *f, clone_types(ts)),
        Operation::Pack(m, s, ts) => Operation::Pack(*m, *s, clone_types(ts)),
        Operation::Unpack(m, s, ts) => Operation::Unpack(*m, *s, clone_types(ts)),
        Operation::MoveTo(m, s, ts) => Operation::MoveTo(*m, *s, clone_types(ts)),
        Operation::MoveFrom(m, s, ts) => Operation::MoveFrom(*m, *s, clone_types(ts)),
        Operation::Exists(m, s, ts) => Operation::Exists(*m, *s, clone_types(ts)),
        Operation::BorrowLoc => Operation::BorrowLoc,
        Operation::BorrowField(m, s, ts, o) => Operation::BorrowField(*m, *s, clone_types(ts), *o),
        Operation::BorrowGlobal(m, s, ts) => Operation::BorrowGlobal(*m, *s, clone_types(ts)),
        Operation::Uninit => Operation::Uninit,
        Operation::Destroy => Operation::Destroy,
        Operation::ReadRef => Operation::ReadRef,
        Operation::WriteRef => Operation::WriteRef,
        Operation::FreezeRef => Operation::FreezeRef,
        Operation::WriteBack(n) => Operation::WriteBack(*n),
        Operation::CastU8 => Operation::CastU8,
        Operation::CastU16 => Operation::CastU16,
        Operation::CastU32 => Operation::CastU32,
        Operation::CastU64 => Operation::CastU64,
        Operation::CastU128 => Operation::CastU128,
        Operation::CastU256 => Operation::CastU256,
        Operation::Not => Operation::Not,
        Operation::Add => Operation::Add,
        Operation::Sub => Operation::Sub,
        Operation::Mul => Operation::Mul,
        Operation::Div => Operation::Div,
        Operation::Mod => Operation::Mod,
        Operation::BitOr => Operation::BitOr,
        Operation::BitAnd => Operation::BitAnd,
        Operation::Xor => Operation::Xor,
        Operation::Shl => Operation::Shl,
        Operation::Shr => Operation::Shr,
        Operation::Lt => Operation::Lt,
        Operation::Gt => Operation::Gt,
        Operation::Le => Operation::Le,
        Operation::Ge => Operation::Ge,
        Operation::Or => Operation::Or,
        Operation::And => Operation::And,
        Operation::Eq => Operation::Eq,
        Operation::Neq => Operation::Neq,
    }
}

/// One instruction of the stackless form. Temps are indices into the
/// function's table of local types.
#[derive(Debug, PartialEq, Eq)]
pub enum Bytecode {
    Assign(AttrId, usize, usize, AssignKind),
    Call(AttrId, Vec<usize>, Operation, Vec<usize>, Option<AbortAction>),
    Ret(AttrId, Vec<usize>),
    Load(AttrId, usize, Constant),
    Branch(AttrId, Label, Label, usize),
    Jump(AttrId, Label),
    Label(AttrId, Label),
    Abort(AttrId, usize),
    Nop(AttrId),
}

pub ghost enum BytecodeV {
    Assign(AttrId, usize, usize, AssignKind),
    Call(AttrId, Seq<usize>, OperationV, Seq<usize>, Option<AbortAction>),
    Ret(AttrId, Seq<usize>),
    Load(AttrId, usize, ConstantV),
    Branch(AttrId, Label, Label, usize),
    Jump(AttrId, Label),
    Label(AttrId, Label),
    Abort(AttrId, usize),
    Nop(AttrId),
}

impl View for Bytecode {
    type V = BytecodeV;

    open spec fn view(&self) -> BytecodeV {
        match *self {
            Bytecode::Assign(a, d, s, k) => BytecodeV::Assign(a, d, s, k),
            Bytecode::Call(a, ds, op, ss, aa) => BytecodeV::Call(a, ds@, op@, ss@, aa),
            Bytecode::Ret(a, ss) => BytecodeV::Ret(a, ss@),
            Bytecode::Load(a, d, c) => BytecodeV::Load(a, d, c@),
            Bytecode::Branch(a, t, e, c) => BytecodeV::Branch(a, t, e, c),
            Bytecode::Jump(a, l) => BytecodeV::Jump(a, l),
            Bytecode::Label(a, l) => BytecodeV::Label(a, l),
            Bytecode::Abort(a, s) => BytecodeV::Abort(a, s),
            Bytecode::Nop(a) => BytecodeV::Nop(a),
        }
    }
}

pub open spec fn code_view(code: Seq<Bytecode>) -> Seq<BytecodeV> {
    Seq::new(code.len(), |i: int| code[i]@)
}

impl BytecodeV {
    /// The instruction ends a basic block: a jump, a branch, a return or an
    /// abort.
    pub open spec fn is_branch(self) -> bool {
        self is Jump || self is Branch || self is Ret || self is Abort
    }

    /// The temps that the instruction writes.
    pub open spec fn dsts(self) -> Seq<usize> {
        match self {
            BytecodeV::Assign(_, d, _, _) => seq![d],
            BytecodeV::Call(_, ds, _, _, _) => ds,
            BytecodeV::Load(_, d, _) => seq![d],
            _ => Seq::empty(),
        }
    }

    /// The temps that the instruction reads.
    pub open spec fn srcs(self) -> Seq<usize> {
        match self {
            BytecodeV::Assign(_, _, s, _) => seq![s],
            BytecodeV::Call(_, _, _, ss, _) => ss,
            BytecodeV::Ret(_, ss) => ss,
            BytecodeV::Branch(_, _, _, c) => seq![c],
            BytecodeV::Abort(_, s) => seq![s],
            _ => Seq::empty(),
        }
    }
}

impl Bytecode {
    pub fn is_branch(&self) -> (r: bool)
        ensures
            r == self@.is_branch(),
    {
        match self {
            Bytecode::Jump(_, _) | Bytecode::Branch(_, _, _, _) | Bytecode::Ret(_, _)
            | Bytecode::Abort(_, _) => true,
            _ => false,
        }
    }
}

pub fn clone_bytecode(bc: &Bytecode) -> (r: Bytecode)
    ensures
        r@ == bc@,
{
    match bc {
        Bytecode::Assign(a, d, s, k) => Bytecode::Assign(*a, *d, *s, *k),
        Bytecode::Call(a, ds, op, ss, aa) => Bytecode::Call(
            *a,
            ds.clone(),
            clone_operation(op),
            ss.clone(),
            *aa,
        ),
        Bytecode::Ret(a, ss) => Bytecode::Ret(*a, ss.clone()),
        Bytecode::Load(a, d, c) => Bytecode::Load(*a, *d, clone_constant(c)),
        Bytecode::Branch(a, t, e, c) => Bytecode::Branch(*a, *t, *e, *c),
        Bytecode::Jump(a, l) => Bytecode::Jump(*a, *l),
        Bytecode::Label(a, l) => Bytecode::Label(*a, *l),
        Bytecode::Abort(a, s) => Bytecode::Abort(*a, *s),
        Bytecode::Nop(a) => Bytecode::Nop(*a),
    }
}

} // verus!
