use vstd::prelude::*;
use crate::move_ir::u256::U256;

verus! {

/// Who may call a function.
#[derive(Clone, Copy, Debug, PartialEq, Eq, Structural)]
pub enum Visibility {
    Private,
    Public,
    Friend,
}

/// A type as a compiled module writes it: structs are named by their
/// handle's index.
#[derive(Debug)]
pub enum SignatureToken {
    Bool,
    U8,
    U16,
    U32,
    U64,
    U128,
    U256,
    Address,
    Signer,
    Vector(Box<SignatureToken>),
    Struct(u16),
    StructInstantiation(u16, Vec<SignatureToken>),
    Reference(Box<SignatureToken>),
    MutableReference(Box<SignatureToken>),
    TypeParameter(u16),
}

/// A constant as the constant pool holds it, decoded.
#[derive(Debug)]
pub enum MoveValue {
    Bool(bool),
    U8(u8),
    U16(u16),
    U32(u32),
    U64(u64),
    U128(u128),
    U256(U256),
    Address(U256),
    Signer(U256),
    Vector(Vec<MoveValue>),
    Struct(Vec<MoveValue>),
}

/// One instruction of the stack machine. Operands are indices into the
/// module's tables, code offsets, or indices of locals.
#[derive(Clone, Copy, Debug, PartialEq, Eq, Structural)]
pub enum MoveBytecode {
    Pop,
    Ret,
    BrTrue(u16),
    BrFalse(u16),
    Branch(u16),
    LdU8(u8),
    LdU16(u16),
    LdU32(u32),
    LdU64(u64),
    LdU128(u128),
    LdU256(U256),
    CastU8,
    CastU16,
    CastU32,
    CastU64,
    CastU128,
    CastU256,
    LdConst(u16),
    LdTrue,
    LdFalse,
    CopyLoc(u8),
    MoveLoc(u8),
    StLoc(u8),
    Call(u16),
    CallGeneric(u16),
    Pack(u16),
    PackGeneric(u16),
    Unpack(u16),
    UnpackGeneric(u16),
    ReadRef,
    WriteRef,
    FreezeRef,
    MutBorrowLoc(u8),
    ImmBorrowLoc(u8),
    MutBorrowField(u16),
    MutBorrowFieldGeneric(u16),
    ImmBorrowField(u16),
    ImmBorrowFieldGeneric(u16),
    MutBorrowGlobal(u16),
    MutBorrowGlobalGeneric(u16),
    ImmBorrowGlobal(u16),
    ImmBorrowGlobalGeneric(u16),
    Add,
    Sub,
    Mul,
    Mod,
    Div,
    BitOr,
    BitAnd,
    Xor,
    Or,
    And,
    Not,
    Eq,
    Neq,
    Lt,
    Gt,
    Le,
    Ge,
    Abort,
    Nop,
    Exists(u16),
    ExistsGeneric(u16),
    MoveFrom(u16),
    MoveFromGeneric(u16),
    MoveTo(u16),
    MoveToGeneric(u16),
    Shl,
    Shr,
    VecPack(u16, u64),
    VecLen(u16),
    VecImmBorrow(u16),
    VecMutBorrow(u16),
    VecPushBack(u16),
    VecPopBack(u16),
    VecUnpack(u16, u64),
    VecSwap(u16),
}

#[derive(Clone, Copy, Debug, PartialEq, Eq, Structural)]
pub struct ModuleHandle {
    pub address: u16,
    pub name: u16,
}

#[derive(Clone, Copy, Debug, PartialEq, Eq, Structural)]
pub struct StructHandle {
    pub module: u16,
    pub name: u16,
    /// The abilities of the struct as a set of bits: 1 for `copy`, 2 for
    /// `drop`, 4 for `store`, 8 for `key`.
    pub abilities: u8,
}

#[derive(Clone, Copy, Debug, PartialEq, Eq, Structural)]
pub struct FunctionHandle {
    pub module: u16,
    pub name: u16,
    pub parameters: u16,
    pub return_: u16,
    /// The number of type parameters of the function.
    pub type_parameters: u16,
}

#[derive(Clone, Copy, Debug, PartialEq, Eq, Structural)]
pub struct FieldHandle {
    pub owner: u16,
    pub field: u16,
}

#[derive(Clone, Copy, Debug, PartialEq, Eq, Structural)]
pub struct StructDefInstantiation {
    pub def: u16,
    pub type_parameters: u16,
}

#[derive(Clone, Copy, Debug, PartialEq, Eq, Structural)]
pub struct FunctionInstantiation {
    pub handle: u16,
    pub type_parameters: u16,
}

#[derive(Clone, Copy, Debug, PartialEq, Eq, Structural)]
pub struct FieldInstantiation {
    pub handle: u16,
    pub type_parameters: u16,
}

#[derive(Debug)]
pub struct Signature(pub Vec<SignatureToken>);

#[derive(Debug)]
pub struct FieldDefinition {
    pub name: u16,
    pub signature: SignatureToken,
}

#[derive(Debug)]
pub enum StructFieldInformation {
    Native,
    Declared(Vec<FieldDefinition>),
}

#[derive(Debug)]
pub struct StructDefinition {
    pub struct_handle: u16,
    pub field_information: StructFieldInformation,
}

#[derive(Debug)]
pub struct CodeUnit {
    pub locals: u16,
    pub code: Vec<MoveBytecode>,
}

#[derive(Debug)]
pub struct FunctionDefinition {
    pub function: u16,
    pub visibility: Visibility,
    pub is_entry: bool,
    pub code: Option<CodeUnit>,
}

#[derive(Debug)]
pub struct ModuleConstant {
    pub type_: SignatureToken,
    pub value: MoveValue,
}

/// A compiled module, as its tables.
#[derive(Debug)]
pub struct CompiledModule {
    pub self_module_handle_idx: u16,
    pub module_handles: Vec<ModuleHandle>,
    pub struct_handles: Vec<StructHandle>,
    pub function_handles: Vec<FunctionHandle>,
    pub field_handles: Vec<FieldHandle>,
    pub struct_def_instantiations: Vec<StructDefInstantiation>,
    pub function_instantiations: Vec<FunctionInstantiation>,
    pub field_instantiations: Vec<FieldInstantiation>,
    pub signatures: Vec<Signature>,
    pub identifiers: Vec<String>,
    pub address_identifiers: Vec<U256>,
    pub constant_pool: Vec<ModuleConstant>,
    pub struct_defs: Vec<StructDefinition>,
    pub function_defs: Vec<FunctionDefinition>,
}

impl FunctionDefinition {
    pub open spec fn spec_is_native(&self) -> bool {
        self.code is None
    }

    /// A native function has no body.
    pub fn is_native(&self) -> (r: bool)
        ensures
            r == self.spec_is_native(),
    {
        self.code.is_none()
    }
}

impl StructDefinition {
    /// The number of declared fields; `None` for a native struct.
    pub open spec fn spec_declared_field_count(&self) -> Option<nat> {
        match self.field_information {
            StructFieldInformation::Native => None,
            StructFieldInformation::Declared(fields) => Some(fields@.len()),
        }
    }

    pub fn declared_field_count(&self) -> (r: Option<usize>)
        ensures
            r is Some == self.spec_declared_field_count() is Some,
            r matches Some(n) ==> self.spec_declared_field_count() == Some(n as nat),
    {
        match &self.field_information {
            StructFieldInformation::Native => None,
            StructFieldInformation::Declared(fields) => Some(fields.len()),
        }
    }
}

/// Every struct handle that `tok` names is in a table of `n` handles.
pub open spec fn token_ok(tok: SignatureToken, n: nat) -> bool
    decreases tok,
{
    match tok {
        SignatureToken::Vector(e) => token_ok(*e, n),
        SignatureToken::Struct(h) => (h as nat) < n,
        SignatureToken::StructInstantiation(h, args) => (h as nat) < n && forall|i: int|
            0 <= i < args@.len() ==> token_ok(#[trigger] args@[i], n),
        SignatureToken::Reference(e) => token_ok(*e, n),
        SignatureToken::MutableReference(e) => token_ok(*e, n),
        _ => true,
    }
}

pub open spec fn tokens_ok(toks: Seq<SignatureToken>, n: nat) -> bool {
    forall|i: int| 0 <= i < toks.len() ==> token_ok(#[trigger] toks[i], n)
}

pub fn check_token(tok: &SignatureToken, n: usize) -> (r: bool)
    ensures
        r == token_ok(*tok, n as nat),
    decreases tok,
{
    match tok {
        SignatureToken::Vector(e) => check_token(e, n),
        SignatureToken::Struct(h) => (*h as usize) < n,
        SignatureToken::StructInstantiation(h, args) => (*h as usize) < n && check_tokens(args, n),
        SignatureToken::Reference(e) => check_token(e, n),
        SignatureToken::MutableReference(e) => check_token(e, n),
        _ => true,
    }
}

pub fn check_tokens(toks: &Vec<SignatureToken>, n: usize) -> (r: bool)
    ensures
        r == tokens_ok(toks@, n as nat),
    decreases toks,
{
    let mut i: usize = 0;
    while i < toks.len()
        invariant
            i <= toks.len(),
            forall|j: int| 0 <= j < i ==> token_ok(#[trigger] toks@[j], n as nat),
        decreases toks.len() - i,
    {
        if !check_token(&toks[i], n) {
            return false;
        }
        i += 1;
    }
    true
}

impl CompiledModule {
    pub open spec fn module_handle_ok(&self, i: int) -> bool {
        let h = self.module_handles@[i];
        (h.address as int) < self.address_identifiers@.len() && (h.name as int)
            < self.identifiers@.len()
    }

    pub open spec fn struct_handle_ok(&self, i: int) -> bool {
        let h = self.struct_handles@[i];
        (h.module as int) < self.module_handles@.len() && (h.name as int)
            < self.identifiers@.len()
    }

    pub open spec fn function_handle_ok(&self, i: int) -> bool {
        let h = self.function_handles@[i];
        &&& (h.module as int) < self.module_handles@.len()
        &&& (h.name as int) < self.identifiers@.len()
        &&& (h.parameters as int) < self.signatures@.len()
        &&& (h.return_ as int) < self.signatures@.len()
    }

    pub open spec fn field_handle_ok(&self, i: int) -> bool {
        let h = self.field_handles@[i];
        &&& (h.owner as int) < self.struct_defs@.len()
        &&& self.struct_defs@[h.owner as int].field_information matches StructFieldInformation::Declared(
            fields,
        )
        &&& (h.field as int) < fields@.len()
    }

    pub open spec fn struct_inst_ok(&self, i: int) -> bool {
        let h = self.struct_def_instantiations@[i];
        (h.def as int) < self.struct_defs@.len() && (h.type_parameters as int)
            < self.signatures@.len()
    }

    pub open spec fn function_inst_ok(&self, i: int) -> bool {
        let h = self.function_instantiations@[i];
        (h.handle as int) < self.function_handles@.len() && (h.type_parameters as int)
            < self.signatures@.len()
    }

    pub open spec fn field_inst_ok(&self, i: int) -> bool {
        let h = self.field_instantiations@[i];
        (h.handle as int) < self.field_handles@.len() && (h.type_parameters as int)
            < self.signatures@.len()
    }

    pub open spec fn signature_ok(&self, i: int) -> bool {
        tokens_ok(self.signatures@[i].0@, self.struct_handles@.len())
    }

    pub open spec fn constant_ok(&self, i: int) -> bool {
        token_ok(self.constant_pool@[i].type_, self.struct_handles@.len())
    }

    pub open spec fn field_def_ok(&self, f: FieldDefinition) -> bool {
        (f.name as int) < self.identifiers@.len() && token_ok(
            f.signature,
            self.struct_handles@.len(),
        )
    }

    pub open spec fn struct_def_ok(&self, i: int) -> bool {
        let d = self.struct_defs@[i];
        &&& (d.struct_handle as int) < self.struct_handles@.len()
        &&& d.field_information matches StructFieldInformation::Declared(fields) ==> forall|k: int|
            0 <= k < fields@.len() ==> self.field_def_ok(#[trigger] fields@[k])
    }

    /// The operand of `bc` is in range: a table index within its table, a
    /// code offset within `code_len`, a local index within `n_locals`.
    pub open spec fn instr_ok(&self, bc: MoveBytecode, code_len: nat, n_locals: nat) -> bool {
        match bc {
            MoveBytecode::BrTrue(t) | MoveBytecode::BrFalse(t) | MoveBytecode::Branch(t) => (
            t as nat) < code_len,
            MoveBytecode::CopyLoc(i) | MoveBytecode::MoveLoc(i) | MoveBytecode::StLoc(i)
            | MoveBytecode::MutBorrowLoc(i) | MoveBytecode::ImmBorrowLoc(i) => (i as nat)
                < n_locals,
            MoveBytecode::LdConst(i) => (i as int) < self.constant_pool@.len(),
            MoveBytecode::Call(i) => (i as int) < self.function_handles@.len(),
            MoveBytecode::CallGeneric(i) => (i as int) < self.function_instantiations@.len(),
            MoveBytecode::Pack(i) | MoveBytecode::Unpack(i) | MoveBytecode::MutBorrowGlobal(i)
            | MoveBytecode::ImmBorrowGlobal(i) | MoveBytecode::Exists(i) | MoveBytecode::MoveFrom(
                i,
            ) | MoveBytecode::MoveTo(i) => (i as int) < self.struct_defs@.len(),
            MoveBytecode::PackGeneric(i) | MoveBytecode::UnpackGeneric(i)
            | MoveBytecode::MutBorrowGlobalGeneric(i) | MoveBytecode::ImmBorrowGlobalGeneric(i)
            | MoveBytecode::ExistsGeneric(i) | MoveBytecode::MoveFromGeneric(i)
            | MoveBytecode::MoveToGeneric(i) => (i as int)
                < self.struct_def_instantiations@.len(),
            MoveBytecode::MutBorrowField(i) | MoveBytecode::ImmBorrowField(i) => (i as int)
                < self.field_handles@.len(),
            MoveBytecode::MutBorrowFieldGeneric(i) | MoveBytecode::ImmBorrowFieldGeneric(i) => (
            i as int) < self.field_instantiations@.len(),
            MoveBytecode::VecPack(s, _) | MoveBytecode::VecLen(s) | MoveBytecode::VecImmBorrow(s)
            | MoveBytecode::VecMutBorrow(s) | MoveBytecode::VecPushBack(s)
            | MoveBytecode::VecPopBack(s) | MoveBytecode::VecUnpack(s, _) | MoveBytecode::VecSwap(
                s,
            ) => (s as int) < self.signatures@.len(),
            _ => true,
        }
    }

    /// The number of parameters and declared locals of a function with a
    /// body, whose two signature indices are in range.
    pub open spec fn spec_local_count(&self, i: int) -> nat {
        let d = self.function_defs@[i];
        let h = self.function_handles@[d.function as int];
        self.signatures@[h.parameters as int].0@.len() + self.signatures@[d.code->0.locals as int].0@.len()
    }

    pub open spec fn function_def_ok(&self, i: int) -> bool {
        let d = self.function_defs@[i];
        &&& (d.function as int) < self.function_handles@.len()
        &&& d.code matches Some(unit) ==> {
            &&& unit.code@.len() <= 0xffff
            &&& (unit.locals as int) < self.signatures@.len()
            &&& forall|pc: int|
                0 <= pc < unit.code@.len() ==> self.instr_ok(
                    #[trigger] unit.code@[pc],
                    unit.code@.len(),
                    self.spec_local_count(i),
                )
        }
    }

    /// Every index that the module holds is within the table it points
    /// into.
    pub open spec fn bounds_ok(&self) -> bool {
        &&& (self.self_module_handle_idx as int) < self.module_handles@.len()
        &&& forall|i: int| 0 <= i < self.module_handles@.len() ==> #[trigger] self.module_handle_ok(i)
        &&& forall|i: int| 0 <= i < self.struct_handles@.len() ==> #[trigger] self.struct_handle_ok(i)
        &&& forall|i: int|
            0 <= i < self.function_handles@.len() ==> #[trigger] self.function_handle_ok(i)
        &&& forall|i: int| 0 <= i < self.field_handles@.len() ==> #[trigger] self.field_handle_ok(i)
        &&& forall|i: int|
            0 <= i < self.struct_def_instantiations@.len() ==> #[trigger] self.struct_inst_ok(i)
        &&& forall|i: int|
            0 <= i < self.function_instantiations@.len() ==> #[trigger] self.function_inst_ok(i)
        &&& forall|i: int|
            0 <= i < self.field_instantiations@.len() ==> #[trigger] self.field_inst_ok(i)
        &&& forall|i: int| 0 <= i < self.signatures@.len() ==> #[trigger] self.signature_ok(i)
        &&& forall|i: int| 0 <= i < self.constant_pool@.len() ==> #[trigger] self.constant_ok(i)
        &&& forall|i: int| 0 <= i < self.struct_defs@.len() ==> #[trigger] self.struct_def_ok(i)
        &&& forall|i: int| 0 <= i < self.function_defs@.len() ==> #[trigger] self.function_def_ok(i)
    }
}

} // verus!
