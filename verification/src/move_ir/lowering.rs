use vstd::prelude::*;
use crate::move_ir::bytecode::{AssignKind, AttrId, BytecodeV, ConstantV, Label, OperationV};
use crate::move_ir::file_format::{
    CompiledModule, MoveBytecode, MoveValue, SignatureToken, StructFieldInformation,
};
use crate::move_ir::types::{
    instantiable, instantiate_view, FunId, ModuleId, PrimitiveType, StructId, Symbol, TypeV,
};

verus! {

/// The handles of the eight functions of the vector module that vector
/// instructions are lowered to.
#[derive(Clone, Copy, Debug, PartialEq, Eq, Structural)]
pub struct VectorFunctions {
    pub length: Symbol,
    pub borrow: Symbol,
    pub borrow_mut: Symbol,
    pub push_back: Symbol,
    pub pop_back: Symbol,
    pub swap: Symbol,
    pub empty: Symbol,
    pub destroy_empty: Symbol,
}

/// What lowering reads and never changes: the module, the handle of each
/// of its identifiers, and where the vector module stands.
pub ghost struct LiftCtx {
    pub module: CompiledModule,
    pub idents: Seq<Symbol>,
    pub vec_module: ModuleId,
    pub vec_funs: VectorFunctions,
}

/// The labels of a function: the label at each code offset that has one,
/// how many there are, and which of them only mark the instruction after
/// a conditional branch.
pub ghost struct LabelMap {
    pub at: Seq<Option<Label>>,
    pub count: nat,
    pub fallthrough: Set<Label>,
}

/// What lowering builds up: the instructions emitted, the type of each
/// temp, the simulated stack, and the number of source positions handed
/// out.
pub ghost struct LiftState {
    pub code: Seq<BytecodeV>,
    pub types: Seq<TypeV>,
    pub stack: Seq<usize>,
    pub attrs: nat,
}

pub open spec fn prim(p: PrimitiveType) -> TypeV {
    TypeV::Primitive(p)
}

pub open spec fn reference(is_mut: bool, t: TypeV) -> TypeV {
    TypeV::Reference(is_mut, Box::new(t))
}

pub open spec fn vector(t: TypeV) -> TypeV {
    TypeV::Vector(Box::new(t))
}

pub open spec fn call(a: AttrId, dsts: Seq<usize>, op: OperationV, srcs: Seq<usize>) -> BytecodeV {
    BytecodeV::Call(a, dsts, op, srcs, None)
}

impl LiftCtx {
    pub open spec fn symbol_at(self, ident: u16) -> Symbol {
        self.idents[ident as int]
    }

    /// The module that declares the struct behind a struct handle.
    pub open spec fn handle_module(self, sh: u16) -> ModuleId {
        ModuleId(self.module.struct_handles@[sh as int].module as usize)
    }

    pub open spec fn handle_struct_id(self, sh: u16) -> StructId {
        StructId(self.symbol_at(self.module.struct_handles@[sh as int].name))
    }

    pub open spec fn def_handle(self, sd: u16) -> u16 {
        self.module.struct_defs@[sd as int].struct_handle
    }

    pub open spec fn def_module(self, sd: u16) -> ModuleId {
        self.handle_module(self.def_handle(sd))
    }

    pub open spec fn def_struct_id(self, sd: u16) -> StructId {
        self.handle_struct_id(self.def_handle(sd))
    }

    pub open spec fn fun_module(self, fh: u16) -> ModuleId {
        ModuleId(self.module.function_handles@[fh as int].module as usize)
    }

    pub open spec fn fun_id(self, fh: u16) -> FunId {
        FunId(self.symbol_at(self.module.function_handles@[fh as int].name))
    }

    /// The type that a signature token stands for.
    pub open spec fn globalize(self, tok: SignatureToken) -> TypeV
        decreases tok,
    {
        match tok {
            SignatureToken::Bool => prim(PrimitiveType::Bool),
            SignatureToken::U8 => prim(PrimitiveType::U8),
            SignatureToken::U16 => prim(PrimitiveType::U16),
            SignatureToken::U32 => prim(PrimitiveType::U32),
            SignatureToken::U64 => prim(PrimitiveType::U64),
            SignatureToken::U128 => prim(PrimitiveType::U128),
            SignatureToken::U256 => prim(PrimitiveType::U256),
            SignatureToken::Address => prim(PrimitiveType::Address),
            SignatureToken::Signer => prim(PrimitiveType::Signer),
            SignatureToken::Reference(t) => reference(false, self.globalize(*t)),
            SignatureToken::MutableReference(t) => reference(true, self.globalize(*t)),
            SignatureToken::TypeParameter(i) => TypeV::TypeParameter(i),
            SignatureToken::Vector(t) => vector(self.globalize(*t)),
            SignatureToken::Struct(h) => TypeV::Struct(
                self.handle_module(h),
                self.handle_struct_id(h),
                Seq::empty(),
            ),
            SignatureToken::StructInstantiation(h, args) => TypeV::Struct(
                self.handle_module(h),
                self.handle_struct_id(h),
                Seq::new(
                    args@.len(),
                    |i: int| if 0 <= i < args@.len() { self.globalize(args@[i]) } else { arbitrary() },
                ),
            ),
        }
    }

    pub open spec fn globalize_all(self, toks: Seq<SignatureToken>) -> Seq<TypeV> {
        Seq::new(toks.len(), |i: int| self.globalize(toks[i]))
    }

    /// The types that a signature of the module lists.
    pub open spec fn type_params(self, sig: u16) -> Seq<TypeV> {
        self.globalize_all(self.module.signatures@[sig as int].0@)
    }

    pub open spec fn vec_op(self, f: Symbol, tys: Seq<TypeV>) -> OperationV {
        OperationV::Function(self.vec_module, FunId(f), tys)
    }

    /// The tokens of the parameters of a defined function, then those of
    /// its declared locals.
    pub open spec fn local_tokens(self, def_idx: int) -> Seq<SignatureToken> {
        let d = self.module.function_defs@[def_idx];
        let h = self.module.function_handles@[d.function as int];
        let params = self.module.signatures@[h.parameters as int].0@;
        match d.code {
            Some(unit) => params + self.module.signatures@[unit.locals as int].0@,
            None => params,
        }
    }

    pub open spec fn local_type(self, def_idx: int, i: int) -> TypeV {
        self.globalize(self.local_tokens(def_idx)[i])
    }

    pub open spec fn return_count(self, def_idx: int) -> nat {
        let d = self.module.function_defs@[def_idx];
        let h = self.module.function_handles@[d.function as int];
        self.module.signatures@[h.return_ as int].0@.len()
    }

    /// The declared fields of a struct definition; none for a native one.
    pub open spec fn def_field_types(self, sd: u16) -> Seq<TypeV> {
        match self.module.struct_defs@[sd as int].field_information {
            StructFieldInformation::Native => Seq::empty(),
            StructFieldInformation::Declared(fields) => Seq::new(
                fields@.len(),
                |i: int| self.globalize(fields@[i].signature),
            ),
        }
    }
}

/// The constant that a decoded value of the constant pool stands for,
/// read against its declared type; `None` where the two do not fit.
pub open spec fn translate(ty: TypeV, value: MoveValue) -> Option<ConstantV>
    decreases value,
{
    match (ty, value) {
        (TypeV::Vector(inner), MoveValue::Vector(vs)) => {
            if forall|i: int| 0 <= i < vs@.len() ==> translate(*inner, #[trigger] vs@[i]) is Some {
                match *inner {
                    TypeV::Primitive(PrimitiveType::U8) => Some(
                        ConstantV::ByteArray(
                            Seq::new(
                                vs@.len(),
                                |i: int|
                                    if 0 <= i < vs@.len() {
                                        translate(*inner, vs@[i])->0->U8_0
                                    } else {
                                        arbitrary()
                                    },
                            ),
                        ),
                    ),
                    TypeV::Primitive(PrimitiveType::Address) => Some(
                        ConstantV::AddressArray(
                            Seq::new(
                                vs@.len(),
                                |i: int|
                                    if 0 <= i < vs@.len() {
                                        translate(*inner, vs@[i])->0->Address_0
                                    } else {
                                        arbitrary()
                                    },
                            ),
                        ),
                    ),
                    _ => Some(
                        ConstantV::Vector(
                            Seq::new(
                                vs@.len(),
                                |i: int|
                                    if 0 <= i < vs@.len() {
                                        translate(*inner, vs@[i])->0
                                    } else {
                                        arbitrary()
                                    },
                            ),
                        ),
                    ),
                }
            } else {
                None
            }
        },
        (TypeV::Primitive(PrimitiveType::Bool), MoveValue::Bool(b)) => Some(ConstantV::Bool(b)),
        (TypeV::Primitive(PrimitiveType::U8), MoveValue::U8(x)) => Some(ConstantV::U8(x)),
        (TypeV::Primitive(PrimitiveType::U16), MoveValue::U16(x)) => Some(ConstantV::U16(x)),
        (TypeV::Primitive(PrimitiveType::U32), MoveValue::U32(x)) => Some(ConstantV::U32(x)),
        (TypeV::Primitive(PrimitiveType::U64), MoveValue::U64(x)) => Some(ConstantV::U64(x)),
        (TypeV::Primitive(PrimitiveType::U128), MoveValue::U128(x)) => Some(ConstantV::U128(x)),
        (TypeV::Primitive(PrimitiveType::U256), MoveValue::U256(x)) => Some(ConstantV::U256(x)),
        (TypeV::Primitive(PrimitiveType::Address), MoveValue::Address(x)) => Some(
            ConstantV::Address(x),
        ),
        _ => None,
    }
}

impl LabelMap {
    pub open spec fn empty(code_len: nat) -> LabelMap {
        LabelMap {
            at: Seq::new(code_len + 1, |i: int| None::<Label>),
            count: 0,
            fallthrough: Set::empty(),
        }
    }

    /// Gives offset `offs` a label unless it has one.
    pub open spec fn with_target(self, offs: int) -> LabelMap {
        if self.at[offs] is None {
            LabelMap {
                at: self.at.update(offs, Some(Label(self.count as usize))),
                count: self.count + 1,
                ..self
            }
        } else {
            self
        }
    }

    /// Gives offset `offs` a label unless it has one, and records a new
    /// label as one that only marks where a conditional branch falls
    /// through to.
    pub open spec fn with_fallthrough(self, offs: int) -> LabelMap {
        if self.at[offs] is None {
            LabelMap {
                at: self.at.update(offs, Some(Label(self.count as usize))),
                count: self.count + 1,
                fallthrough: self.fallthrough.insert(Label(self.count as usize)),
            }
        } else {
            self
        }
    }

    /// The labels after the instruction at `pos` has been looked at.
    pub open spec fn step(self, pos: int, bc: MoveBytecode) -> LabelMap {
        match bc {
            MoveBytecode::BrTrue(t) | MoveBytecode::BrFalse(t) => self.with_target(
                t as int,
            ).with_fallthrough(pos + 1),
            MoveBytecode::Branch(t) => self.with_target(t as int),
            _ => self,
        }
    }

    /// The labels after the first `n` instructions of `code` have been
    /// looked at.
    pub open spec fn build(code: Seq<MoveBytecode>, n: nat) -> LabelMap
        decreases n,
    {
        if n == 0 {
            LabelMap::empty(code.len())
        } else {
            LabelMap::build(code, (n - 1) as nat).step(n - 1, code[n - 1])
        }
    }
}

impl LiftState {
    /// The temp `k` places below the top of the stack.
    pub open spec fn top(self, k: int) -> usize {
        self.stack[self.stack.len() - 1 - k]
    }

    /// The topmost `n` temps, the deepest first.
    pub open spec fn top_n(self, n: nat) -> Seq<usize> {
        self.stack.subrange(self.stack.len() - n, self.stack.len() as int)
    }

    pub open spec fn pop(self, n: nat) -> LiftState {
        LiftState { stack: self.stack.subrange(0, self.stack.len() - n), ..self }
    }

    /// The temp that the next new type belongs to.
    pub open spec fn fresh(self) -> usize {
        self.types.len() as usize
    }

    /// A new temp of type `ty`, not on the stack.
    pub open spec fn new_temp(self, ty: TypeV) -> LiftState {
        LiftState { types: self.types.push(ty), ..self }
    }

    /// A new temp of type `ty`, pushed on the stack.
    pub open spec fn push_fresh(self, ty: TypeV) -> LiftState {
        LiftState {
            types: self.types.push(ty),
            stack: self.stack.push(self.types.len() as usize),
            ..self
        }
    }

    /// One new temp for each of `tys`, each pushed on the stack.
    pub open spec fn push_all(self, tys: Seq<TypeV>) -> LiftState
        decreases tys.len(),
    {
        if tys.len() == 0 {
            self
        } else {
            self.push_all(tys.drop_last()).push_fresh(tys.last())
        }
    }

    /// The temps that `push_all` makes for `n` types.
    pub open spec fn fresh_n(self, n: nat) -> Seq<usize> {
        Seq::new(n, |i: int| (self.types.len() + i) as usize)
    }

    pub open spec fn emit(self, bc: BytecodeV) -> LiftState {
        LiftState { code: self.code.push(bc), ..self }
    }

    pub open spec fn emit_all(self, bcs: Seq<BytecodeV>) -> LiftState {
        LiftState { code: self.code + bcs, ..self }
    }

    pub open spec fn next_attr(self) -> LiftState {
        LiftState { attrs: self.attrs + 1, ..self }
    }

    /// Pops one operand and pushes the result of `op` on it, of type `ty`.
    pub open spec fn unary(self, a: AttrId, op: OperationV, ty: TypeV) -> Option<LiftState> {
        if self.stack.len() >= 1 {
            Some(
                self.pop(1).push_fresh(ty).emit(
                    call(a, seq![self.fresh()], op, seq![self.top(0)]),
                ),
            )
        } else {
            None
        }
    }

    /// Pops two operands and pushes the result of `op` on them, of type
    /// `ty`.
    pub open spec fn binary(self, a: AttrId, op: OperationV, ty: TypeV) -> Option<LiftState> {
        if self.stack.len() >= 2 {
            Some(
                self.pop(2).push_fresh(ty).emit(
                    call(a, seq![self.fresh()], op, seq![self.top(1), self.top(0)]),
                ),
            )
        } else {
            None
        }
    }

    /// Pops `n` operands and hands them to `op`, which yields nothing.
    pub open spec fn consume(self, a: AttrId, op: OperationV, n: nat) -> Option<LiftState> {
        if self.stack.len() >= n {
            Some(self.pop(n).emit(call(a, Seq::empty(), op, self.top_n(n))))
        } else {
            None
        }
    }

    /// Pops `n` operands, pushes one new temp for each of `tys`, and emits
    /// `op` from the operands to the new temps.
    pub open spec fn invoke(self, a: AttrId, op: OperationV, n: nat, tys: Seq<TypeV>) -> Option<
        LiftState,
    > {
        if self.stack.len() >= n {
            Some(
                self.pop(n).push_all(tys).emit(call(a, self.fresh_n(tys.len()), op, self.top_n(n))),
            )
        } else {
            None
        }
    }

    /// Pushes a new temp of type `ty` that holds the constant `c`.
    pub open spec fn load(self, a: AttrId, ty: TypeV, c: ConstantV) -> Option<LiftState> {
        Some(self.push_fresh(ty).emit(BytecodeV::Load(a, self.fresh(), c)))
    }
}

/// The types of `tys` with `actuals` put for their parameters; `None`
/// where one of them has a parameter that `actuals` does not reach.
pub open spec fn instantiate_all(tys: Seq<TypeV>, actuals: Seq<TypeV>) -> Option<Seq<TypeV>> {
    if forall|i: int| 0 <= i < tys.len() ==> instantiable(#[trigger] tys[i], actuals.len()) {
        Some(Seq::new(tys.len(), |i: int| instantiate_view(tys[i], actuals)))
    } else {
        None
    }
}

/// A conditional branch on the top of the stack.
pub open spec fn lower_branch(
    labels: LabelMap,
    a: AttrId,
    st: LiftState,
    then_offset: int,
    else_offset: int,
) -> Option<LiftState> {
    if st.stack.len() >= 1 && labels.at[then_offset] is Some && labels.at[else_offset] is Some {
        Some(
            st.pop(1).emit(
                BytecodeV::Branch(
                    a,
                    labels.at[then_offset]->0,
                    labels.at[else_offset]->0,
                    st.top(0),
                ),
            ),
        )
    } else {
        None
    }
}

/// Whether the code ends in `if c goto L1 else L2; L2:` with `L2` a label
/// that only marks the fall-through.
pub open spec fn ends_in_fallthrough(labels: LabelMap, st: LiftState) -> bool {
    &&& st.code.len() >= 2
    &&& st.code[st.code.len() - 2] matches BytecodeV::Branch(_, _, if_false, _)
    &&& st.code[st.code.len() - 1] matches BytecodeV::Label(_, cont)
    &&& labels.fallthrough.contains(cont)
    &&& if_false == cont
}

/// An unconditional jump: folded into the conditional branch before it
/// where the code ends in one that falls through to here.
pub open spec fn lower_jump(labels: LabelMap, a: AttrId, st: LiftState, target: int) -> Option<
    LiftState,
> {
    if labels.at[target] is None {
        None
    } else if ends_in_fallthrough(labels, st) {
        let n = st.code.len();
        Some(
            LiftState {
                code: st.code.subrange(0, n - 2).push(
                    BytecodeV::Branch(
                        st.code[n - 2]->Branch_0,
                        st.code[n - 2]->Branch_1,
                        labels.at[target]->0,
                        st.code[n - 2]->Branch_3,
                    ),
                ),
                ..st
            },
        )
    } else {
        Some(st.emit(BytecodeV::Jump(a, labels.at[target]->0)))
    }
}

pub open spec fn lower_freeze(a: AttrId, st: LiftState) -> Option<LiftState> {
    if st.stack.len() >= 1 && (st.top(0) as int) < st.types.len() {
        match st.types[st.top(0) as int] {
            TypeV::Reference(true, inner) => st.unary(
                a,
                OperationV::FreezeRef,
                reference(false, *inner),
            ),
            _ => Some(st.pop(1)),
        }
    } else {
        None
    }
}

pub open spec fn lower_read_ref(a: AttrId, st: LiftState) -> Option<LiftState> {
    if st.stack.len() >= 1 && (st.top(0) as int) < st.types.len() {
        match st.types[st.top(0) as int] {
            TypeV::Reference(_, inner) => st.unary(a, OperationV::ReadRef, *inner),
            _ => None,
        }
    } else {
        None
    }
}

/// An operation on the two topmost temps that yields nothing and takes
/// the topmost first.
pub open spec fn lower_store(a: AttrId, st: LiftState, op: OperationV) -> Option<LiftState> {
    if st.stack.len() >= 2 {
        Some(st.pop(2).emit(call(a, Seq::empty(), op, seq![st.top(0), st.top(1)])))
    } else {
        None
    }
}

/// An arithmetic operation: the result has the type of the left operand.
pub open spec fn lower_arith(a: AttrId, st: LiftState, op: OperationV) -> Option<LiftState> {
    if st.stack.len() >= 2 && (st.top(1) as int) < st.types.len() {
        st.binary(a, op, st.types[st.top(1) as int])
    } else {
        None
    }
}

pub open spec fn lower_borrow_field(
    ctx: LiftCtx,
    a: AttrId,
    st: LiftState,
    fh: u16,
    actuals: Seq<TypeV>,
    is_mut: bool,
) -> Option<LiftState> {
    let h = ctx.module.field_handles@[fh as int];
    let base = ctx.def_field_types(h.owner)[h.field as int];
    if instantiable(base, actuals.len()) {
        st.unary(
            a,
            OperationV::BorrowField(
                ctx.def_module(h.owner),
                ctx.def_struct_id(h.owner),
                actuals,
                h.field as usize,
            ),
            reference(is_mut, instantiate_view(base, actuals)),
        )
    } else {
        None
    }
}

pub open spec fn lower_call(ctx: LiftCtx, a: AttrId, st: LiftState, fh: u16, targs: Seq<TypeV>) -> Option<
    LiftState,
> {
    let h = ctx.module.function_handles@[fh as int];
    let nargs = ctx.module.signatures@[h.parameters as int].0@.len();
    match instantiate_all(ctx.type_params(h.return_), targs) {
        Some(rets) => st.invoke(
            a,
            OperationV::Function(ctx.fun_module(fh), ctx.fun_id(fh), targs),
            nargs,
            rets,
        ),
        None => None,
    }
}

pub open spec fn lower_pack(ctx: LiftCtx, a: AttrId, st: LiftState, sd: u16, targs: Seq<TypeV>) -> Option<
    LiftState,
> {
    match ctx.module.struct_defs@[sd as int].spec_declared_field_count() {
        Some(n) => if st.stack.len() >= n {
            Some(
                st.pop(n).push_fresh(
                    TypeV::Struct(ctx.def_module(sd), ctx.def_struct_id(sd), targs),
                ).emit(
                    call(
                        a,
                        seq![st.fresh()],
                        OperationV::Pack(ctx.def_module(sd), ctx.def_struct_id(sd), targs),
                        st.top_n(n),
                    ),
                ),
            )
        } else {
            None
        },
        None => None,
    }
}

pub open spec fn lower_unpack(ctx: LiftCtx, a: AttrId, st: LiftState, sd: u16, targs: Seq<TypeV>) -> Option<
    LiftState,
> {
    match instantiate_all(ctx.def_field_types(sd), targs) {
        Some(tys) => st.invoke(
            a,
            OperationV::Unpack(ctx.def_module(sd), ctx.def_struct_id(sd), targs),
            1,
            tys,
        ),
        None => None,
    }
}

/// The state after the topmost `n` temps are packed into a new vector of
/// element type `ty`: the empty vector, then, unless `n` is zero, a
/// mutable borrow of it and one `push_back` for each operand, the deepest
/// first.
pub open spec fn vec_packed(
    st: LiftState,
    a: AttrId,
    ty: TypeV,
    n: nat,
    empty_op: OperationV,
    push_op: OperationV,
) -> LiftState {
    let t = st.fresh();
    let s1 = st.pop(n).push_fresh(vector(ty)).emit(call(a, seq![t], empty_op, Seq::empty()));
    if n == 0 {
        s1
    } else {
        let m = s1.fresh();
        s1.new_temp(reference(true, vector(ty))).emit(
            call(a, seq![m], OperationV::BorrowLoc, seq![t]),
        ).emit_all(
            Seq::new(n, |i: int| call(a, Seq::empty(), push_op, seq![m, st.top_n(n)[i]])),
        )
    }
}

/// The state after the vector on top of the stack, of element type `ty`,
/// is taken apart into `n` new temps: unless `n` is zero, a mutable borrow
/// of it and one `pop_back` for each new temp; then the emptied vector is
/// destroyed.
pub open spec fn vec_unpacked(
    st: LiftState,
    a: AttrId,
    ty: TypeV,
    n: nat,
    pop_op: OperationV,
    destroy_op: OperationV,
) -> LiftState {
    let x = st.top(0);
    let s1 = st.pop(1);
    let temps = s1.fresh_n(n);
    let s2 = s1.push_all(Seq::new(n, |i: int| ty));
    let destroy = call(a, Seq::empty(), destroy_op, seq![x]);
    if n == 0 {
        s2.emit(destroy)
    } else {
        let m = s2.fresh();
        s2.new_temp(reference(true, vector(ty))).emit(
            call(a, seq![m], OperationV::BorrowLoc, seq![x]),
        ).emit_all(Seq::new(n, |i: int| call(a, seq![temps[i]], pop_op, seq![m]))).emit(destroy)
    }
}

pub open spec fn lower_vec_pack(ctx: LiftCtx, a: AttrId, st: LiftState, sig: u16, n: u64) -> Option<
    LiftState,
> {
    let tys = ctx.type_params(sig);
    if tys.len() == 1 && n <= st.stack.len() {
        Some(
            vec_packed(
                st,
                a,
                tys[0],
                n as nat,
                ctx.vec_op(ctx.vec_funs.empty, seq![tys[0]]),
                ctx.vec_op(ctx.vec_funs.push_back, seq![tys[0]]),
            ),
        )
    } else {
        None
    }
}

pub open spec fn lower_vec_unpack(ctx: LiftCtx, a: AttrId, st: LiftState, sig: u16, n: u64) -> Option<
    LiftState,
> {
    let tys = ctx.type_params(sig);
    if tys.len() == 1 && st.stack.len() >= 1 && n <= usize::MAX {
        Some(
            vec_unpacked(
                st,
                a,
                tys[0],
                n as nat,
                ctx.vec_op(ctx.vec_funs.pop_back, seq![tys[0]]),
                ctx.vec_op(ctx.vec_funs.destroy_empty, seq![tys[0]]),
            ),
        )
    } else {
        None
    }
}

/// A vector instruction whose signature must list exactly one type.
pub open spec fn one_type(ctx: LiftCtx, sig: u16) -> Option<TypeV> {
    let tys = ctx.type_params(sig);
    if tys.len() == 1 {
        Some(tys[0])
    } else {
        None
    }
}

/// The state after one source instruction, whose emitted instructions
/// carry the source position `a`; `None` where the instruction cannot be
/// lowered: the stack is too short, a reference is expected and another
/// type found, a constant does not fit its type, or a type parameter has
/// no actual.
pub open spec fn lower_body(
    ctx: LiftCtx,
    labels: LabelMap,
    def_idx: int,
    offset: int,
    bc: MoveBytecode,
    a: AttrId,
    st: LiftState,
) -> Option<LiftState> {
    let m = ctx.module;
    match bc {
        MoveBytecode::Pop => st.consume(a, OperationV::Destroy, 1),
        MoveBytecode::Ret => {
            let n = ctx.return_count(def_idx);
            if st.stack.len() >= n {
                Some(st.pop(n).emit(BytecodeV::Ret(a, st.top_n(n))))
            } else {
                None
            }
        },
        MoveBytecode::BrTrue(t) => lower_branch(labels, a, st, t as int, offset + 1),
        MoveBytecode::BrFalse(t) => lower_branch(labels, a, st, offset + 1, t as int),
        MoveBytecode::Branch(t) => lower_jump(labels, a, st, t as int),
        MoveBytecode::Abort => if st.stack.len() >= 1 {
            Some(st.pop(1).emit(BytecodeV::Abort(a, st.top(0))))
        } else {
            None
        },
        MoveBytecode::StLoc(i) => if st.stack.len() >= 1 {
            Some(st.pop(1).emit(BytecodeV::Assign(a, i as usize, st.top(0), AssignKind::Store)))
        } else {
            None
        },
        MoveBytecode::Nop => Some(st.emit(BytecodeV::Nop(a))),
        MoveBytecode::LdU8(x) => st.load(a, prim(PrimitiveType::U8), ConstantV::U8(x)),
        MoveBytecode::LdU16(x) => st.load(a, prim(PrimitiveType::U16), ConstantV::U16(x)),
        MoveBytecode::LdU32(x) => st.load(a, prim(PrimitiveType::U32), ConstantV::U32(x)),
        MoveBytecode::LdU64(x) => st.load(a, prim(PrimitiveType::U64), ConstantV::U64(x)),
        MoveBytecode::LdU128(x) => st.load(a, prim(PrimitiveType::U128), ConstantV::U128(x)),
        MoveBytecode::LdU256(x) => st.load(a, prim(PrimitiveType::U256), ConstantV::U256(x)),
        MoveBytecode::LdTrue => st.load(a, prim(PrimitiveType::Bool), ConstantV::Bool(true)),
        MoveBytecode::LdFalse => st.load(a, prim(PrimitiveType::Bool), ConstantV::Bool(false)),
        MoveBytecode::LdConst(i) => {
            let c = m.constant_pool@[i as int];
            let ty = ctx.globalize(c.type_);
            match translate(ty, c.value) {
                Some(v) => st.load(a, ty, v),
                None => None,
            }
        },
        MoveBytecode::CastU8 => st.unary(a, OperationV::CastU8, prim(PrimitiveType::U8)),
        MoveBytecode::CastU16 => st.unary(a, OperationV::CastU16, prim(PrimitiveType::U16)),
        MoveBytecode::CastU32 => st.unary(a, OperationV::CastU32, prim(PrimitiveType::U32)),
        MoveBytecode::CastU64 => st.unary(a, OperationV::CastU64, prim(PrimitiveType::U64)),
        MoveBytecode::CastU128 => st.unary(a, OperationV::CastU128, prim(PrimitiveType::U128)),
        MoveBytecode::CastU256 => st.unary(a, OperationV::CastU256, prim(PrimitiveType::U256)),
        MoveBytecode::CopyLoc(i) => Some(
            st.push_fresh(ctx.local_type(def_idx, i as int)).emit(
                BytecodeV::Assign(a, st.fresh(), i as usize, AssignKind::Copy),
            ),
        ),
        MoveBytecode::MoveLoc(i) => Some(
            st.push_fresh(ctx.local_type(def_idx, i as int)).emit(
                BytecodeV::Assign(a, st.fresh(), i as usize, AssignKind::Move),
            ),
        ),
        MoveBytecode::MutBorrowLoc(i) => Some(
            st.push_fresh(reference(true, ctx.local_type(def_idx, i as int))).emit(
                call(a, seq![st.fresh()], OperationV::BorrowLoc, seq![i as usize]),
            ),
        ),
        MoveBytecode::ImmBorrowLoc(i) => Some(
            st.push_fresh(reference(false, ctx.local_type(def_idx, i as int))).emit(
                call(a, seq![st.fresh()], OperationV::BorrowLoc, seq![i as usize]),
            ),
        ),
        MoveBytecode::Call(fh) => lower_call(ctx, a, st, fh, Seq::empty()),
        MoveBytecode::CallGeneric(fi) => {
            let inst = m.function_instantiations@[fi as int];
            lower_call(ctx, a, st, inst.handle, ctx.type_params(inst.type_parameters))
        },
        MoveBytecode::Pack(sd) => lower_pack(ctx, a, st, sd, Seq::empty()),
        MoveBytecode::PackGeneric(si) => {
            let inst = m.struct_def_instantiations@[si as int];
            lower_pack(ctx, a, st, inst.def, ctx.type_params(inst.type_parameters))
        },
        MoveBytecode::Unpack(sd) => lower_unpack(ctx, a, st, sd, Seq::empty()),
        MoveBytecode::UnpackGeneric(si) => {
            let inst = m.struct_def_instantiations@[si as int];
            lower_unpack(ctx, a, st, inst.def, ctx.type_params(inst.type_parameters))
        },
        MoveBytecode::ReadRef => lower_read_ref(a, st),
        MoveBytecode::WriteRef => lower_store(a, st, OperationV::WriteRef),
        MoveBytecode::FreezeRef => lower_freeze(a, st),
        MoveBytecode::MutBorrowField(fh) => lower_borrow_field(ctx, a, st, fh, Seq::empty(), true),
        MoveBytecode::ImmBorrowField(fh) => lower_borrow_field(ctx, a, st, fh, Seq::empty(), false),
        MoveBytecode::MutBorrowFieldGeneric(fi) => {
            let inst = m.field_instantiations@[fi as int];
            lower_borrow_field(ctx, a, st, inst.handle, ctx.type_params(inst.type_parameters), true)
        },
        MoveBytecode::ImmBorrowFieldGeneric(fi) => {
            let inst = m.field_instantiations@[fi as int];
            lower_borrow_field(
                ctx,
                a,
                st,
                inst.handle,
                ctx.type_params(inst.type_parameters),
                false,
            )
        },
        MoveBytecode::MutBorrowGlobal(sd) => st.unary(
            a,
            OperationV::BorrowGlobal(ctx.def_module(sd), ctx.def_struct_id(sd), Seq::empty()),
            reference(true, TypeV::Struct(ctx.def_module(sd), ctx.def_struct_id(sd), Seq::empty())),
        ),
        MoveBytecode::ImmBorrowGlobal(sd) => st.unary(
            a,
            OperationV::BorrowGlobal(ctx.def_module(sd), ctx.def_struct_id(sd), Seq::empty()),
            reference(
                false,
                TypeV::Struct(ctx.def_module(sd), ctx.def_struct_id(sd), Seq::empty()),
            ),
        ),
        MoveBytecode::MutBorrowGlobalGeneric(si) => {
            let inst = m.struct_def_instantiations@[si as int];
            let targs = ctx.type_params(inst.type_parameters);
            st.unary(
                a,
                OperationV::BorrowGlobal(ctx.def_module(inst.def), ctx.def_struct_id(inst.def), targs),
                reference(
                    true,
                    TypeV::Struct(ctx.def_module(inst.def), ctx.def_struct_id(inst.def), targs),
                ),
            )
        },
        MoveBytecode::ImmBorrowGlobalGeneric(si) => {
            let inst = m.struct_def_instantiations@[si as int];
            let targs = ctx.type_params(inst.type_parameters);
            st.unary(
                a,
                OperationV::BorrowGlobal(ctx.def_module(inst.def), ctx.def_struct_id(inst.def), targs),
                reference(
                    false,
                    TypeV::Struct(ctx.def_module(inst.def), ctx.def_struct_id(inst.def), targs),
                ),
            )
        },
        MoveBytecode::Add => lower_arith(a, st, OperationV::Add),
        MoveBytecode::Sub => lower_arith(a, st, OperationV::Sub),
        MoveBytecode::Mul => lower_arith(a, st, OperationV::Mul),
        MoveBytecode::Mod => lower_arith(a, st, OperationV::Mod),
        MoveBytecode::Div => lower_arith(a, st, OperationV::Div),
        MoveBytecode::BitOr => lower_arith(a, st, OperationV::BitOr),
        MoveBytecode::BitAnd => lower_arith(a, st, OperationV::BitAnd),
        MoveBytecode::Xor => lower_arith(a, st, OperationV::Xor),
        MoveBytecode::Shl => lower_arith(a, st, OperationV::Shl),
        MoveBytecode::Shr => lower_arith(a, st, OperationV::Shr),
        MoveBytecode::Or => st.binary(a, OperationV::Or, prim(PrimitiveType::Bool)),
        MoveBytecode::And => st.binary(a, OperationV::And, prim(PrimitiveType::Bool)),
        MoveBytecode::Not => st.unary(a, OperationV::Not, prim(PrimitiveType::Bool)),
        MoveBytecode::Eq => st.binary(a, OperationV::Eq, prim(PrimitiveType::Bool)),
        MoveBytecode::Neq => st.binary(a, OperationV::Neq, prim(PrimitiveType::Bool)),
        MoveBytecode::Lt => st.binary(a, OperationV::Lt, prim(PrimitiveType::Bool)),
        MoveBytecode::Gt => st.binary(a, OperationV::Gt, prim(PrimitiveType::Bool)),
        MoveBytecode::Le => st.binary(a, OperationV::Le, prim(PrimitiveType::Bool)),
        MoveBytecode::Ge => st.binary(a, OperationV::Ge, prim(PrimitiveType::Bool)),
        MoveBytecode::Exists(sd) => st.unary(
            a,
            OperationV::Exists(ctx.def_module(sd), ctx.def_struct_id(sd), Seq::empty()),
            prim(PrimitiveType::Bool),
        ),
        MoveBytecode::ExistsGeneric(si) => {
            let inst = m.struct_def_instantiations@[si as int];
            st.unary(
                a,
                OperationV::Exists(
                    ctx.def_module(inst.def),
                    ctx.def_struct_id(inst.def),
                    ctx.type_params(inst.type_parameters),
                ),
                prim(PrimitiveType::Bool),
            )
        },
        MoveBytecode::MoveFrom(sd) => st.unary(
            a,
            OperationV::MoveFrom(ctx.def_module(sd), ctx.def_struct_id(sd), Seq::empty()),
            TypeV::Struct(ctx.def_module(sd), ctx.def_struct_id(sd), Seq::empty()),
        ),
        MoveBytecode::MoveFromGeneric(si) => {
            let inst = m.struct_def_instantiations@[si as int];
            let targs = ctx.type_params(inst.type_parameters);
            st.unary(
                a,
                OperationV::MoveFrom(ctx.def_module(inst.def), ctx.def_struct_id(inst.def), targs),
                TypeV::Struct(ctx.def_module(inst.def), ctx.def_struct_id(inst.def), targs),
            )
        },
        MoveBytecode::MoveTo(sd) => lower_store(
            a,
            st,
            OperationV::MoveTo(ctx.def_module(sd), ctx.def_struct_id(sd), Seq::empty()),
        ),
        MoveBytecode::MoveToGeneric(si) => {
            let inst = m.struct_def_instantiations@[si as int];
            lower_store(
                a,
                st,
                OperationV::MoveTo(
                    ctx.def_module(inst.def),
                    ctx.def_struct_id(inst.def),
                    ctx.type_params(inst.type_parameters),
                ),
            )
        },
        MoveBytecode::VecLen(sig) => st.unary(
            a,
            ctx.vec_op(ctx.vec_funs.length, ctx.type_params(sig)),
            prim(PrimitiveType::U64),
        ),
        MoveBytecode::VecMutBorrow(sig) => match one_type(ctx, sig) {
            Some(ty) => st.binary(
                a,
                ctx.vec_op(ctx.vec_funs.borrow_mut, seq![ty]),
                reference(true, ty),
            ),
            None => None,
        },
        MoveBytecode::VecImmBorrow(sig) => match one_type(ctx, sig) {
            Some(ty) => st.binary(a, ctx.vec_op(ctx.vec_funs.borrow, seq![ty]), reference(false, ty)),
            None => None,
        },
        MoveBytecode::VecPushBack(sig) => st.consume(
            a,
            ctx.vec_op(ctx.vec_funs.push_back, ctx.type_params(sig)),
            2,
        ),
        MoveBytecode::VecPopBack(sig) => match one_type(ctx, sig) {
            Some(ty) => st.unary(a, ctx.vec_op(ctx.vec_funs.pop_back, seq![ty]), ty),
            None => None,
        },
        MoveBytecode::VecSwap(sig) => st.consume(
            a,
            ctx.vec_op(ctx.vec_funs.swap, ctx.type_params(sig)),
            3,
        ),
        MoveBytecode::VecPack(sig, n) => lower_vec_pack(ctx, a, st, sig, n),
        MoveBytecode::VecUnpack(sig, n) => lower_vec_unpack(ctx, a, st, sig, n),
    }
}

/// The state after the label of `offset`, if it has one, is emitted under
/// a source position of its own.
pub open spec fn with_label(labels: LabelMap, offset: int, st: LiftState) -> LiftState {
    match labels.at[offset] {
        Some(l) => st.emit(BytecodeV::Label(AttrId(st.attrs as usize), l)).next_attr(),
        None => st,
    }
}

/// The state after the source instruction `bc` at `offset` is lowered:
/// first the label of the offset, then the instruction.
pub open spec fn lower(
    ctx: LiftCtx,
    labels: LabelMap,
    def_idx: int,
    offset: int,
    bc: MoveBytecode,
    st: LiftState,
) -> Option<LiftState> {
    let s1 = with_label(labels, offset, st);
    lower_body(ctx, labels, def_idx, offset, bc, AttrId(s1.attrs as usize), s1.next_attr())
}

/// The state after the first `n` instructions of `code` are lowered.
pub open spec fn lower_prefix(
    ctx: LiftCtx,
    labels: LabelMap,
    def_idx: int,
    code: Seq<MoveBytecode>,
    n: nat,
    init: LiftState,
) -> Option<LiftState>
    decreases n,
{
    if n == 0 {
        Some(init)
    } else {
        match lower_prefix(ctx, labels, def_idx, code, (n - 1) as nat, init) {
            Some(st) => lower(ctx, labels, def_idx, n - 1, code[n - 1], st),
            None => None,
        }
    }
}

} // verus!
