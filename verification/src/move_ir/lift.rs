use vstd::prelude::*;
use crate::move_ir::bytecode::{AssignKind, AttrId, Bytecode, Constant, Operation};
use crate::move_ir::emit::{
    arith, binary, branch, consume, emit, freeze, instantiate_types, invoke, jump, label_at,
    labels_of, lift_state, load, pop_n, push_fresh, read_ref, store, unary, vec_pack, vec_unpack,
    LabelTable,
};
use crate::move_ir::file_format::MoveBytecode;
use crate::move_ir::generate_bytecode::{FunctionInfo, StacklessBytecodeGenerator};
use crate::move_ir::lowering::{lower, lower_body, with_label, LabelMap};
use crate::move_ir::types::{
    clone_type, clone_types, lemma_type_view, types_view, FunId, Loc, ModuleId, PrimitiveType,
    StructId, Type, TypeV,
};
use crate::move_ir::utils::translate_value;

verus! {

/// Instructions that are lowered from the stack and the labels alone.
pub open spec fn is_plain(bc: MoveBytecode) -> bool {
    match bc {
        MoveBytecode::Pop | MoveBytecode::BrTrue(_) | MoveBytecode::BrFalse(_)
        | MoveBytecode::Branch(_) | MoveBytecode::Abort | MoveBytecode::StLoc(_)
        | MoveBytecode::Nop | MoveBytecode::LdU8(_) | MoveBytecode::LdU16(_)
        | MoveBytecode::LdU32(_) | MoveBytecode::LdU64(_) | MoveBytecode::LdU128(_)
        | MoveBytecode::LdU256(_) | MoveBytecode::LdTrue | MoveBytecode::LdFalse
        | MoveBytecode::CastU8 | MoveBytecode::CastU16 | MoveBytecode::CastU32
        | MoveBytecode::CastU64 | MoveBytecode::CastU128 | MoveBytecode::CastU256
        | MoveBytecode::ReadRef | MoveBytecode::WriteRef | MoveBytecode::FreezeRef
        | MoveBytecode::Add | MoveBytecode::Sub | MoveBytecode::Mul | MoveBytecode::Mod
        | MoveBytecode::Div | MoveBytecode::BitOr | MoveBytecode::BitAnd | MoveBytecode::Xor
        | MoveBytecode::Shl | MoveBytecode::Shr | MoveBytecode::Or | MoveBytecode::And
        | MoveBytecode::Not | MoveBytecode::Eq | MoveBytecode::Neq | MoveBytecode::Lt
        | MoveBytecode::Gt | MoveBytecode::Le | MoveBytecode::Ge => true,
        _ => false,
    }
}

/// Instructions on vectors.
pub open spec fn is_vector(bc: MoveBytecode) -> bool {
    match bc {
        MoveBytecode::VecPack(_, _) | MoveBytecode::VecLen(_) | MoveBytecode::VecImmBorrow(_)
        | MoveBytecode::VecMutBorrow(_) | MoveBytecode::VecPushBack(_)
        | MoveBytecode::VecPopBack(_) | MoveBytecode::VecUnpack(_, _) | MoveBytecode::VecSwap(
            _,
        ) => true,
        _ => false,
    }
}

fn is_plain_exec(bc: MoveBytecode) -> (r: bool)
    ensures
        r == is_plain(bc),
{
    match bc {
        MoveBytecode::Pop | MoveBytecode::BrTrue(_) | MoveBytecode::BrFalse(_)
        | MoveBytecode::Branch(_) | MoveBytecode::Abort | MoveBytecode::StLoc(_)
        | MoveBytecode::Nop | MoveBytecode::LdU8(_) | MoveBytecode::LdU16(_)
        | MoveBytecode::LdU32(_) | MoveBytecode::LdU64(_) | MoveBytecode::LdU128(_)
        | MoveBytecode::LdU256(_) | MoveBytecode::LdTrue | MoveBytecode::LdFalse
        | MoveBytecode::CastU8 | MoveBytecode::CastU16 | MoveBytecode::CastU32
        | MoveBytecode::CastU64 | MoveBytecode::CastU128 | MoveBytecode::CastU256
        | MoveBytecode::ReadRef | MoveBytecode::WriteRef | MoveBytecode::FreezeRef
        | MoveBytecode::Add | MoveBytecode::Sub | MoveBytecode::Mul | MoveBytecode::Mod
        | MoveBytecode::Div | MoveBytecode::BitOr | MoveBytecode::BitAnd | MoveBytecode::Xor
        | MoveBytecode::Shl | MoveBytecode::Shr | MoveBytecode::Or | MoveBytecode::And
        | MoveBytecode::Not | MoveBytecode::Eq | MoveBytecode::Neq | MoveBytecode::Lt
        | MoveBytecode::Gt | MoveBytecode::Le | MoveBytecode::Ge => true,
        _ => false,
    }
}

fn is_vector_exec(bc: MoveBytecode) -> (r: bool)
    ensures
        r == is_vector(bc),
{
    match bc {
        MoveBytecode::VecPack(_, _) | MoveBytecode::VecLen(_) | MoveBytecode::VecImmBorrow(_)
        | MoveBytecode::VecMutBorrow(_) | MoveBytecode::VecPushBack(_)
        | MoveBytecode::VecPopBack(_) | MoveBytecode::VecUnpack(_, _) | MoveBytecode::VecSwap(
            _,
        ) => true,
        _ => false,
    }
}

fn bool_type() -> (r: Type)
    ensures
        r@ == TypeV::Primitive(PrimitiveType::Bool),
{
    broadcast use lemma_type_view;

    Type::Primitive(PrimitiveType::Bool)
}

fn prim_type(p: PrimitiveType) -> (r: Type)
    ensures
        r@ == TypeV::Primitive(p),
{
    broadcast use lemma_type_view;

    Type::Primitive(p)
}

fn no_types() -> (r: Vec<Type>)
    ensures
        types_view(r@) == Seq::<TypeV>::empty(),
{
    let r: Vec<Type> = Vec::new();
    assert(types_view(r@) =~= Seq::<TypeV>::empty());
    r
}

fn struct_type(m: ModuleId, s: StructId, targs: Vec<Type>) -> (r: Type)
    ensures
        r@ == TypeV::Struct(m, s, types_view(targs@)),
{
    broadcast use lemma_type_view;

    Type::Struct(m, s, targs)
}

fn ref_type(is_mut: bool, t: Type) -> (r: Type)
    ensures
        r@ == TypeV::Reference(is_mut, Box::new(t@)),
{
    broadcast use lemma_type_view;

    Type::Reference(is_mut, Box::new(t))
}

/// Lowers one instruction of the plain family at the source position `a`.
fn lower_plain(
    stack: &mut Vec<usize>,
    code: &mut Vec<Bytecode>,
    types: &mut Vec<Type>,
    a: AttrId,
    bc: MoveBytecode,
    code_offset: u16,
    table: &LabelTable,
    fallthrough: &Vec<crate::move_ir::bytecode::Label>,
    Ghost(ctx): Ghost<crate::move_ir::lowering::LiftCtx>,
    Ghost(def_idx): Ghost<int>,
    Ghost(attrs): Ghost<nat>,
) -> (ok: bool)
    requires
        is_plain(bc),
        (code_offset as int) + 1 < table.at@.len(),
        bc matches MoveBytecode::BrTrue(t) ==> (t as int) < table.at@.len(),
        bc matches MoveBytecode::BrFalse(t) ==> (t as int) < table.at@.len(),
        bc matches MoveBytecode::Branch(t) ==> (t as int) < table.at@.len(),
    ensures
        ok == (lower_body(
            ctx,
            labels_of(table, fallthrough@),
            def_idx,
            code_offset as int,
            bc,
            a,
            lift_state(old(code)@, old(types)@, old(stack)@, attrs),
        ) is Some),
        ok ==> Some(lift_state(final(code)@, final(types)@, final(stack)@, attrs)) == lower_body(
            ctx,
            labels_of(table, fallthrough@),
            def_idx,
            code_offset as int,
            bc,
            a,
            lift_state(old(code)@, old(types)@, old(stack)@, attrs),
        ),
{
    let ghost labels = labels_of(table, fallthrough@);
    let ghost st0 = lift_state(code@, types@, stack@, attrs);
    let ghost tys = types@;
    let ghost stk = stack@;
    match bc {
        MoveBytecode::Pop => consume(stack, code, a, Operation::Destroy, 1, Ghost(tys), Ghost(attrs)),
        MoveBytecode::BrTrue(t) => branch(
            stack,
            code,
            a,
            table,
            t as usize,
            code_offset as usize + 1,
            Ghost(labels),
            Ghost(tys),
            Ghost(attrs),
        ),
        MoveBytecode::BrFalse(t) => branch(
            stack,
            code,
            a,
            table,
            code_offset as usize + 1,
            t as usize,
            Ghost(labels),
            Ghost(tys),
            Ghost(attrs),
        ),
        MoveBytecode::Branch(t) => jump(
            code,
            a,
            table,
            fallthrough,
            t as usize,
            Ghost(labels),
            Ghost(tys),
            Ghost(stk),
            Ghost(attrs),
        ),
        MoveBytecode::Abort => {
            match stack.pop() {
                Some(src) => {
                    emit(code, Bytecode::Abort(a, src));
                    assert(stack@ =~= st0.pop(1).stack);
                    true
                },
                None => false,
            }
        },
        MoveBytecode::StLoc(i) => {
            match stack.pop() {
                Some(src) => {
                    emit(code, Bytecode::Assign(a, i as usize, src, AssignKind::Store));
                    assert(stack@ =~= st0.pop(1).stack);
                    true
                },
                None => false,
            }
        },
        MoveBytecode::Nop => {
            emit(code, Bytecode::Nop(a));
            true
        },
        MoveBytecode::LdU8(x) => load(
            stack,
            code,
            types,
            a,
            prim_type(PrimitiveType::U8),
            Constant::U8(x),
            Ghost(attrs),
        ),
        MoveBytecode::LdU16(x) => load(
            stack,
            code,
            types,
            a,
            prim_type(PrimitiveType::U16),
            Constant::U16(x),
            Ghost(attrs),
        ),
        MoveBytecode::LdU32(x) => load(
            stack,
            code,
            types,
            a,
            prim_type(PrimitiveType::U32),
            Constant::U32(x),
            Ghost(attrs),
        ),
        MoveBytecode::LdU64(x) => load(
            stack,
            code,
            types,
            a,
            prim_type(PrimitiveType::U64),
            Constant::U64(x),
            Ghost(attrs),
        ),
        MoveBytecode::LdU128(x) => load(
            stack,
            code,
            types,
            a,
            prim_type(PrimitiveType::U128),
            Constant::U128(x),
            Ghost(attrs),
        ),
        MoveBytecode::LdU256(x) => load(
            stack,
            code,
            types,
            a,
            prim_type(PrimitiveType::U256),
            Constant::U256(x),
            Ghost(attrs),
        ),
        MoveBytecode::LdTrue => load(
            stack,
            code,
            types,
            a,
            bool_type(),
            Constant::Bool(true),
            Ghost(attrs),
        ),
        MoveBytecode::LdFalse => load(
            stack,
            code,
            types,
            a,
            bool_type(),
            Constant::Bool(false),
            Ghost(attrs),
        ),
        MoveBytecode::CastU8 => unary(
            stack,
            code,
            types,
            a,
            Operation::CastU8,
            prim_type(PrimitiveType::U8),
            Ghost(attrs),
        ),
        MoveBytecode::CastU16 => unary(
            stack,
            code,
            types,
            a,
            Operation::CastU16,
            prim_type(PrimitiveType::U16),
            Ghost(attrs),
        ),
        MoveBytecode::CastU32 => unary(
            stack,
            code,
            types,
            a,
            Operation::CastU32,
            prim_type(PrimitiveType::U32),
            Ghost(attrs),
        ),
        MoveBytecode::CastU64 => unary(
            stack,
            code,
            types,
            a,
            Operation::CastU64,
            prim_type(PrimitiveType::U64),
            Ghost(attrs),
        ),
        MoveBytecode::CastU128 => unary(
            stack,
            code,
            types,
            a,
            Operation::CastU128,
            prim_type(PrimitiveType::U128),
            Ghost(attrs),
        ),
        MoveBytecode::CastU256 => unary(
            stack,
            code,
            types,
            a,
            Operation::CastU256,
            prim_type(PrimitiveType::U256),
            Ghost(attrs),
        ),
        MoveBytecode::ReadRef => read_ref(stack, code, types, a, Ghost(attrs)),
        MoveBytecode::WriteRef => store(stack, code, a, Operation::WriteRef, Ghost(tys), Ghost(attrs)),
        MoveBytecode::FreezeRef => freeze(stack, code, types, a, Ghost(attrs)),
        MoveBytecode::Add => arith(stack, code, types, a, Operation::Add, Ghost(attrs)),
        MoveBytecode::Sub => arith(stack, code, types, a, Operation::Sub, Ghost(attrs)),
        MoveBytecode::Mul => arith(stack, code, types, a, Operation::Mul, Ghost(attrs)),
        MoveBytecode::Mod => arith(stack, code, types, a, Operation::Mod, Ghost(attrs)),
        MoveBytecode::Div => arith(stack, code, types, a, Operation::Div, Ghost(attrs)),
        MoveBytecode::BitOr => arith(stack, code, types, a, Operation::BitOr, Ghost(attrs)),
        MoveBytecode::BitAnd => arith(stack, code, types, a, Operation::BitAnd, Ghost(attrs)),
        MoveBytecode::Xor => arith(stack, code, types, a, Operation::Xor, Ghost(attrs)),
        MoveBytecode::Shl => arith(stack, code, types, a, Operation::Shl, Ghost(attrs)),
        MoveBytecode::Shr => arith(stack, code, types, a, Operation::Shr, Ghost(attrs)),
        MoveBytecode::Or => binary(stack, code, types, a, Operation::Or, bool_type(), Ghost(attrs)),
        MoveBytecode::And => binary(stack, code, types, a, Operation::And, bool_type(), Ghost(attrs)),
        MoveBytecode::Not => unary(stack, code, types, a, Operation::Not, bool_type(), Ghost(attrs)),
        MoveBytecode::Eq => binary(stack, code, types, a, Operation::Eq, bool_type(), Ghost(attrs)),
        MoveBytecode::Neq => binary(stack, code, types, a, Operation::Neq, bool_type(), Ghost(attrs)),
        MoveBytecode::Lt => binary(stack, code, types, a, Operation::Lt, bool_type(), Ghost(attrs)),
        MoveBytecode::Gt => binary(stack, code, types, a, Operation::Gt, bool_type(), Ghost(attrs)),
        MoveBytecode::Le => binary(stack, code, types, a, Operation::Le, bool_type(), Ghost(attrs)),
        MoveBytecode::Ge => binary(stack, code, types, a, Operation::Ge, bool_type(), Ghost(attrs)),
        _ => false,
    }
}

impl<'a> StacklessBytecodeGenerator<'a> {
    /// The module and the identifier of the struct that a struct
    /// definition defines.
    pub fn def_struct(&self, sd: u16) -> (r: (ModuleId, StructId))
        requires
            self.wf(),
            (sd as int) < self.module.struct_defs@.len(),
        ensures
            r.0 == self.ctx().def_module(sd),
            r.1 == self.ctx().def_struct_id(sd),
    {
        assert(self.module.struct_def_ok(sd as int));
        let sh = self.module.struct_defs[sd as usize].struct_handle;
        (ModuleId::new(self.get_module_handle_index_of_struct(sh)), self.get_struct_id_by_idx(sh))
    }

    fn vec_op(&self, f: crate::move_ir::types::Symbol, tys: Vec<Type>) -> (r: Operation)
        ensures
            r@ == self.ctx().vec_op(f, types_view(tys@)),
    {
        Operation::Function(self.vec_module_id, FunId::new(f), tys)
    }

    /// The one type that the signature `sig` lists, if it lists exactly
    /// one.
    fn one_type(&self, sig: u16) -> (r: Option<Type>)
        requires
            self.wf(),
            (sig as int) < self.module.signatures@.len(),
        ensures
            r is Some <==> crate::move_ir::lowering::one_type(self.ctx(), sig) is Some,
            r matches Some(t) ==> Some(t@) == crate::move_ir::lowering::one_type(self.ctx(), sig),
    {
        let tys = self.get_type_params(sig);
        if tys.len() == 1 {
            Some(clone_type(&tys[0]))
        } else {
            None
        }
    }

    fn one(ty: &Type) -> (r: Vec<Type>)
        ensures
            types_view(r@) == seq![ty@],
    {
        let r = vec![clone_type(ty)];
        assert(types_view(r@) =~= seq![ty@]);
        r
    }

    /// Lowers one vector instruction at the source position `a`.
    fn lower_vector(
        &self,
        stack: &mut Vec<usize>,
        code: &mut Vec<Bytecode>,
        types: &mut Vec<Type>,
        a: AttrId,
        bc: MoveBytecode,
        Ghost(labels): Ghost<LabelMap>,
        Ghost(def_idx): Ghost<int>,
        Ghost(offset): Ghost<int>,
        Ghost(code_len): Ghost<nat>,
        Ghost(n_locals): Ghost<nat>,
        Ghost(attrs): Ghost<nat>,
    ) -> (ok: bool)
        requires
            self.wf(),
            is_vector(bc),
            self.module.instr_ok(bc, code_len, n_locals),
        ensures
            ok == (lower_body(
                self.ctx(),
                labels,
                def_idx,
                offset,
                bc,
                a,
                lift_state(old(code)@, old(types)@, old(stack)@, attrs),
            ) is Some),
            ok ==> Some(lift_state(final(code)@, final(types)@, final(stack)@, attrs))
                == lower_body(
                self.ctx(),
                labels,
                def_idx,
                offset,
                bc,
                a,
                lift_state(old(code)@, old(types)@, old(stack)@, attrs),
            ),
    {
        let ghost tys0 = types@;
        let depth = stack.len();
        match bc {
            MoveBytecode::VecLen(sig) => {
                let op = self.vec_op(self.vec_funs.length, self.get_type_params(sig));
                unary(stack, code, types, a, op, prim_type(PrimitiveType::U64), Ghost(attrs))
            },
            MoveBytecode::VecMutBorrow(sig) => {
                match self.one_type(sig) {
                    Some(ty) => {
                        let op = self.vec_op(self.vec_funs.borrow_mut, Self::one(&ty));
                        binary(stack, code, types, a, op, ref_type(true, ty), Ghost(attrs))
                    },
                    None => false,
                }
            },
            MoveBytecode::VecImmBorrow(sig) => {
                match self.one_type(sig) {
                    Some(ty) => {
                        let op = self.vec_op(self.vec_funs.borrow, Self::one(&ty));
                        binary(stack, code, types, a, op, ref_type(false, ty), Ghost(attrs))
                    },
                    None => false,
                }
            },
            MoveBytecode::VecPushBack(sig) => {
                let op = self.vec_op(self.vec_funs.push_back, self.get_type_params(sig));
                consume(stack, code, a, op, 2, Ghost(tys0), Ghost(attrs))
            },
            MoveBytecode::VecPopBack(sig) => {
                match self.one_type(sig) {
                    Some(ty) => {
                        let op = self.vec_op(self.vec_funs.pop_back, Self::one(&ty));
                        unary(stack, code, types, a, op, ty, Ghost(attrs))
                    },
                    None => false,
                }
            },
            MoveBytecode::VecSwap(sig) => {
                let op = self.vec_op(self.vec_funs.swap, self.get_type_params(sig));
                consume(stack, code, a, op, 3, Ghost(tys0), Ghost(attrs))
            },
            MoveBytecode::VecPack(sig, n) => {
                match self.one_type(sig) {
                    Some(ty) => {
                        if n > usize::MAX as u64 {
                            false
                        } else {
                            let empty_op = self.vec_op(self.vec_funs.empty, Self::one(&ty));
                            let push_op = self.vec_op(self.vec_funs.push_back, Self::one(&ty));
                            vec_pack(
                                stack,
                                code,
                                types,
                                a,
                                &ty,
                                n as usize,
                                empty_op,
                                &push_op,
                                Ghost(attrs),
                            )
                        }
                    },
                    None => false,
                }
            },
            MoveBytecode::VecUnpack(sig, n) => {
                match self.one_type(sig) {
                    Some(ty) => {
                        if n > usize::MAX as u64 {
                            false
                        } else {
                            let pop_op = self.vec_op(self.vec_funs.pop_back, Self::one(&ty));
                            let destroy_op = self.vec_op(
                                self.vec_funs.destroy_empty,
                                Self::one(&ty),
                            );
                            vec_unpack(
                                stack,
                                code,
                                types,
                                a,
                                &ty,
                                n as usize,
                                &pop_op,
                                destroy_op,
                                Ghost(attrs),
                            )
                        }
                    },
                    None => false,
                }
            },
            _ => false,
        }
    }
}

impl<'a> StacklessBytecodeGenerator<'a> {
    /// The struct that the instantiation `si` instantiates, and its type
    /// arguments.
    fn inst_struct(&self, si: u16) -> (r: (u16, Vec<Type>))
        requires
            self.wf(),
            (si as int) < self.module.struct_def_instantiations@.len(),
        ensures
            r.0 == self.module.struct_def_instantiations@[si as int].def,
            (r.0 as int) < self.module.struct_defs@.len(),
            types_view(r.1@) == self.ctx().type_params(
                self.module.struct_def_instantiations@[si as int].type_parameters,
            ),
    {
        assert(self.module.struct_inst_ok(si as int));
        let inst = &self.module.struct_def_instantiations[si as usize];
        (inst.def, self.get_type_params(inst.type_parameters))
    }

    fn call_function(
        &self,
        stack: &mut Vec<usize>,
        code: &mut Vec<Bytecode>,
        types: &mut Vec<Type>,
        a: AttrId,
        fh: u16,
        targs: Vec<Type>,
        Ghost(attrs): Ghost<nat>,
    ) -> (ok: bool)
        requires
            self.wf(),
            (fh as int) < self.module.function_handles@.len(),
        ensures
            ok == (crate::move_ir::lowering::lower_call(
                self.ctx(),
                a,
                lift_state(old(code)@, old(types)@, old(stack)@, attrs),
                fh,
                types_view(targs@),
            ) is Some),
            ok ==> Some(lift_state(final(code)@, final(types)@, final(stack)@, attrs))
                == crate::move_ir::lowering::lower_call(
                self.ctx(),
                a,
                lift_state(old(code)@, old(types)@, old(stack)@, attrs),
                fh,
                types_view(targs@),
            ),
    {
        assert(self.module.function_handle_ok(fh as int));
        let h = &self.module.function_handles[fh as usize];
        let nargs = self.module.signatures[h.parameters as usize].0.len();
        let rets = self.get_type_params(h.return_);
        match instantiate_types(&rets, &targs) {
            Some(v) => {
                let op = Operation::Function(
                    ModuleId::new(self.get_module_handle_index_of_func(fh)),
                    self.get_fun_id_by_idx(fh),
                    targs,
                );
                invoke(stack, code, types, a, op, nargs, v, Ghost(attrs))
            },
            None => false,
        }
    }

    fn pack(
        &self,
        stack: &mut Vec<usize>,
        code: &mut Vec<Bytecode>,
        types: &mut Vec<Type>,
        a: AttrId,
        sd: u16,
        targs: Vec<Type>,
        Ghost(attrs): Ghost<nat>,
    ) -> (ok: bool)
        requires
            self.wf(),
            (sd as int) < self.module.struct_defs@.len(),
        ensures
            ok == (crate::move_ir::lowering::lower_pack(
                self.ctx(),
                a,
                lift_state(old(code)@, old(types)@, old(stack)@, attrs),
                sd,
                types_view(targs@),
            ) is Some),
            ok ==> Some(lift_state(final(code)@, final(types)@, final(stack)@, attrs))
                == crate::move_ir::lowering::lower_pack(
                self.ctx(),
                a,
                lift_state(old(code)@, old(types)@, old(stack)@, attrs),
                sd,
                types_view(targs@),
            ),
    {
        let ghost st0 = lift_state(code@, types@, stack@, attrs);
        let n = match self.module.struct_defs[sd as usize].declared_field_count() {
            Some(n) => n,
            None => {
                return false;
            },
        };
        let fields = match pop_n(stack, n) {
            Some(v) => v,
            None => {
                return false;
            },
        };
        let (m, sid) = self.def_struct(sd);
        let t = push_fresh(stack, types, struct_type(m, sid, clone_types(&targs)));
        let dsts = vec![t];
        assert(dsts@ =~= seq![st0.fresh()]);
        emit(code, Bytecode::Call(a, dsts, Operation::Pack(m, sid, targs), fields, None));
        true
    }

    fn unpack(
        &self,
        stack: &mut Vec<usize>,
        code: &mut Vec<Bytecode>,
        types: &mut Vec<Type>,
        a: AttrId,
        sd: u16,
        targs: Vec<Type>,
        Ghost(attrs): Ghost<nat>,
    ) -> (ok: bool)
        requires
            self.wf(),
            (sd as int) < self.module.struct_defs@.len(),
        ensures
            ok == (crate::move_ir::lowering::lower_unpack(
                self.ctx(),
                a,
                lift_state(old(code)@, old(types)@, old(stack)@, attrs),
                sd,
                types_view(targs@),
            ) is Some),
            ok ==> Some(lift_state(final(code)@, final(types)@, final(stack)@, attrs))
                == crate::move_ir::lowering::lower_unpack(
                self.ctx(),
                a,
                lift_state(old(code)@, old(types)@, old(stack)@, attrs),
                sd,
                types_view(targs@),
            ),
    {
        let fields = self.get_field_types(sd);
        match instantiate_types(&fields, &targs) {
            Some(v) => {
                let (m, sid) = self.def_struct(sd);
                invoke(stack, code, types, a, Operation::Unpack(m, sid, targs), 1, v, Ghost(attrs))
            },
            None => false,
        }
    }

    fn borrow_field(
        &self,
        stack: &mut Vec<usize>,
        code: &mut Vec<Bytecode>,
        types: &mut Vec<Type>,
        a: AttrId,
        fh: u16,
        actuals: Vec<Type>,
        is_mut: bool,
        Ghost(attrs): Ghost<nat>,
    ) -> (ok: bool)
        requires
            self.wf(),
            (fh as int) < self.module.field_handles@.len(),
        ensures
            ok == (crate::move_ir::lowering::lower_borrow_field(
                self.ctx(),
                a,
                lift_state(old(code)@, old(types)@, old(stack)@, attrs),
                fh,
                types_view(actuals@),
                is_mut,
            ) is Some),
            ok ==> Some(lift_state(final(code)@, final(types)@, final(stack)@, attrs))
                == crate::move_ir::lowering::lower_borrow_field(
                self.ctx(),
                a,
                lift_state(old(code)@, old(types)@, old(stack)@, attrs),
                fh,
                types_view(actuals@),
                is_mut,
            ),
    {
        assert(self.module.field_handle_ok(fh as int));
        let owner = self.module.field_handles[fh as usize].owner;
        let (struct_id, offset, base) = self.get_field_info(fh);
        match base.try_instantiate(&actuals) {
            Some(field_type) => {
                let (m, _sid) = self.def_struct(owner);
                unary(
                    stack,
                    code,
                    types,
                    a,
                    Operation::BorrowField(m, struct_id, actuals, offset),
                    ref_type(is_mut, field_type),
                    Ghost(attrs),
                )
            },
            None => false,
        }
    }

    /// Lowers, at the source position `a`, one instruction that names a
    /// local, a constant, a function or a struct.
    fn lower_named(
        &self,
        stack: &mut Vec<usize>,
        code: &mut Vec<Bytecode>,
        types: &mut Vec<Type>,
        a: AttrId,
        bc: MoveBytecode,
        def_idx: usize,
        Ghost(labels): Ghost<LabelMap>,
        Ghost(offset): Ghost<int>,
        Ghost(code_len): Ghost<nat>,
        Ghost(attrs): Ghost<nat>,
    ) -> (ok: bool)
        requires
            self.wf(),
            !is_plain(bc),
            !is_vector(bc),
            def_idx < self.module.function_defs@.len(),
            self.module.instr_ok(bc, code_len, self.ctx().local_tokens(def_idx as int).len()),
        ensures
            ok == (lower_body(
                self.ctx(),
                labels,
                def_idx as int,
                offset,
                bc,
                a,
                lift_state(old(code)@, old(types)@, old(stack)@, attrs),
            ) is Some),
            ok ==> Some(lift_state(final(code)@, final(types)@, final(stack)@, attrs))
                == lower_body(
                self.ctx(),
                labels,
                def_idx as int,
                offset,
                bc,
                a,
                lift_state(old(code)@, old(types)@, old(stack)@, attrs),
            ),
    {
        let ghost st0 = lift_state(code@, types@, stack@, attrs);
        let ghost tys0 = types@;
        match bc {
            MoveBytecode::Ret => {
                assert(self.module.function_def_ok(def_idx as int));
                let d = &self.module.function_defs[def_idx];
                assert(self.module.function_handle_ok(d.function as int));
                let h = &self.module.function_handles[d.function as usize];
                let n = self.module.signatures[h.return_ as usize].0.len();
                match pop_n(stack, n) {
                    Some(srcs) => {
                        emit(code, Bytecode::Ret(a, srcs));
                        true
                    },
                    None => false,
                }
            },
            MoveBytecode::LdConst(i) => {
                assert(self.module.constant_ok(i as int));
                let c = &self.module.constant_pool[i as usize];
                let ty = self.globalize_signature(&c.type_);
                match translate_value(&ty, &c.value) {
                    Some(v) => load(stack, code, types, a, ty, v, Ghost(attrs)),
                    None => false,
                }
            },
            MoveBytecode::CopyLoc(i) => {
                let ty = self.get_local_type(def_idx, i as usize);
                let t = push_fresh(stack, types, ty);
                emit(code, Bytecode::Assign(a, t, i as usize, AssignKind::Copy));
                true
            },
            MoveBytecode::MoveLoc(i) => {
                let ty = self.get_local_type(def_idx, i as usize);
                let t = push_fresh(stack, types, ty);
                emit(code, Bytecode::Assign(a, t, i as usize, AssignKind::Move));
                true
            },
            MoveBytecode::MutBorrowLoc(i) => {
                let ty = self.get_local_type(def_idx, i as usize);
                let t = push_fresh(stack, types, ref_type(true, ty));
                let dsts = vec![t];
                let srcs = vec![i as usize];
                assert(dsts@ =~= seq![st0.fresh()]);
                assert(srcs@ =~= seq![i as usize]);
                emit(code, Bytecode::Call(a, dsts, Operation::BorrowLoc, srcs, None));
                true
            },
            MoveBytecode::ImmBorrowLoc(i) => {
                let ty = self.get_local_type(def_idx, i as usize);
                let t = push_fresh(stack, types, ref_type(false, ty));
                let dsts = vec![t];
                let srcs = vec![i as usize];
                assert(dsts@ =~= seq![st0.fresh()]);
                assert(srcs@ =~= seq![i as usize]);
                emit(code, Bytecode::Call(a, dsts, Operation::BorrowLoc, srcs, None));
                true
            },
            MoveBytecode::Call(fh) => self.call_function(
                stack,
                code,
                types,
                a,
                fh,
                no_types(),
                Ghost(attrs),
            ),
            MoveBytecode::CallGeneric(fi) => {
                assert(self.module.function_inst_ok(fi as int));
                let inst = &self.module.function_instantiations[fi as usize];
                let targs = self.get_type_params(inst.type_parameters);
                self.call_function(stack, code, types, a, inst.handle, targs, Ghost(attrs))
            },
            MoveBytecode::Pack(sd) => self.pack(stack, code, types, a, sd, no_types(), Ghost(attrs)),
            MoveBytecode::PackGeneric(si) => {
                let (sd, targs) = self.inst_struct(si);
                self.pack(stack, code, types, a, sd, targs, Ghost(attrs))
            },
            MoveBytecode::Unpack(sd) => self.unpack(
                stack,
                code,
                types,
                a,
                sd,
                no_types(),
                Ghost(attrs),
            ),
            MoveBytecode::UnpackGeneric(si) => {
                let (sd, targs) = self.inst_struct(si);
                self.unpack(stack, code, types, a, sd, targs, Ghost(attrs))
            },
            MoveBytecode::MutBorrowField(fh) => self.borrow_field(
                stack,
                code,
                types,
                a,
                fh,
                no_types(),
                true,
                Ghost(attrs),
            ),
            MoveBytecode::ImmBorrowField(fh) => self.borrow_field(
                stack,
                code,
                types,
                a,
                fh,
                no_types(),
                false,
                Ghost(attrs),
            ),
            MoveBytecode::MutBorrowFieldGeneric(fi) => {
                assert(self.module.field_inst_ok(fi as int));
                let inst = &self.module.field_instantiations[fi as usize];
                let actuals = self.get_type_params(inst.type_parameters);
                self.borrow_field(stack, code, types, a, inst.handle, actuals, true, Ghost(attrs))
            },
            MoveBytecode::ImmBorrowFieldGeneric(fi) => {
                assert(self.module.field_inst_ok(fi as int));
                let inst = &self.module.field_instantiations[fi as usize];
                let actuals = self.get_type_params(inst.type_parameters);
                self.borrow_field(stack, code, types, a, inst.handle, actuals, false, Ghost(attrs))
            },
            MoveBytecode::MutBorrowGlobal(sd) => {
                let (m, sid) = self.def_struct(sd);
                let ty = ref_type(true, struct_type(m, sid, no_types()));
                unary(stack, code, types, a, Operation::BorrowGlobal(m, sid, no_types()), ty, Ghost(attrs))
            },
            MoveBytecode::ImmBorrowGlobal(sd) => {
                let (m, sid) = self.def_struct(sd);
                let ty = ref_type(false, struct_type(m, sid, no_types()));
                unary(stack, code, types, a, Operation::BorrowGlobal(m, sid, no_types()), ty, Ghost(attrs))
            },
            MoveBytecode::MutBorrowGlobalGeneric(si) => {
                let (sd, targs) = self.inst_struct(si);
                let (m, sid) = self.def_struct(sd);
                let ty = ref_type(true, struct_type(m, sid, clone_types(&targs)));
                unary(stack, code, types, a, Operation::BorrowGlobal(m, sid, targs), ty, Ghost(attrs))
            },
            MoveBytecode::ImmBorrowGlobalGeneric(si) => {
                let (sd, targs) = self.inst_struct(si);
                let (m, sid) = self.def_struct(sd);
                let ty = ref_type(false, struct_type(m, sid, clone_types(&targs)));
                unary(stack, code, types, a, Operation::BorrowGlobal(m, sid, targs), ty, Ghost(attrs))
            },
            MoveBytecode::Exists(sd) => {
                let (m, sid) = self.def_struct(sd);
                unary(
                    stack,
                    code,
                    types,
                    a,
                    Operation::Exists(m, sid, no_types()),
                    bool_type(),
                    Ghost(attrs),
                )
            },
            MoveBytecode::ExistsGeneric(si) => {
                let (sd, targs) = self.inst_struct(si);
                let (m, sid) = self.def_struct(sd);
                unary(stack, code, types, a, Operation::Exists(m, sid, targs), bool_type(), Ghost(attrs))
            },
            MoveBytecode::MoveFrom(sd) => {
                let (m, sid) = self.def_struct(sd);
                let ty = struct_type(m, sid, no_types());
                unary(stack, code, types, a, Operation::MoveFrom(m, sid, no_types()), ty, Ghost(attrs))
            },
            MoveBytecode::MoveFromGeneric(si) => {
                let (sd, targs) = self.inst_struct(si);
                let (m, sid) = self.def_struct(sd);
                let ty = struct_type(m, sid, clone_types(&targs));
                unary(stack, code, types, a, Operation::MoveFrom(m, sid, targs), ty, Ghost(attrs))
            },
            MoveBytecode::MoveTo(sd) => {
                let (m, sid) = self.def_struct(sd);
                store(stack, code, a, Operation::MoveTo(m, sid, no_types()), Ghost(tys0), Ghost(attrs))
            },
            MoveBytecode::MoveToGeneric(si) => {
                let (sd, targs) = self.inst_struct(si);
                let (m, sid) = self.def_struct(sd);
                store(stack, code, a, Operation::MoveTo(m, sid, targs), Ghost(tys0), Ghost(attrs))
            },
            _ => false,
        }
    }
}

impl<'a> StacklessBytecodeGenerator<'a> {
    /// Lowers the source instruction `bytecode` at `code_offset` of the
    /// function defined at `func_def_idx`: first the label of the offset,
    /// then the instruction. Returns whether it could be lowered; where it
    /// could not, what has been emitted is left as it is.
    pub fn try_generate_bytecode(
        &mut self,
        func_def_idx: usize,
        bytecode: MoveBytecode,
        code_offset: u16,
        label_map: &LabelTable,
        function: &mut FunctionInfo,
    ) -> (ok: bool)
        requires
            old(self).wf(),
            func_def_idx < old(self).module.function_defs@.len(),
            (code_offset as int) + 1 < label_map.at@.len(),
            old(self).module.instr_ok(
                bytecode,
                (label_map.at@.len() - 1) as nat,
                old(self).ctx().local_tokens(func_def_idx as int).len(),
            ),
        ensures
            final(self).same_context(old(self)),
            final(self).wf(),
            final(function).same_frame(old(function)),
            ok == (lower(
                old(self).ctx(),
                labels_of(label_map, old(function).fallthrough_labels@),
                func_def_idx as int,
                code_offset as int,
                bytecode,
                old(function).state(old(self).temp_stack@),
            ) is Some),
            ok ==> Some(final(function).state(final(self).temp_stack@)) == lower(
                old(self).ctx(),
                labels_of(label_map, old(function).fallthrough_labels@),
                func_def_idx as int,
                code_offset as int,
                bytecode,
                old(function).state(old(self).temp_stack@),
            ),
            final(self).temp_count == final(function).local_types@.len(),
    {
        let ghost labels = labels_of(label_map, function.fallthrough_labels@);
        let ghost st0 = function.state(self.temp_stack@);
        match label_at(label_map, code_offset as usize) {
            Some(label) => {
                let label_attr = AttrId::new(function.location_table.len());
                function.location_table.push(Loc::default_loc());
                emit(&mut function.code, Bytecode::Label(label_attr, label));
            },
            None => {},
        }
        let attr_id = AttrId::new(function.location_table.len());
        function.location_table.push(Loc::default_loc());
        let ghost attrs = function.location_table@.len();
        assert(function.state(self.temp_stack@) == with_label(
            labels,
            code_offset as int,
            st0,
        ).next_attr());
        let mut stack: Vec<usize> = Vec::new();
        std::mem::swap(&mut self.temp_stack, &mut stack);
        let ok = if is_plain_exec(bytecode) {
            lower_plain(
                &mut stack,
                &mut function.code,
                &mut function.local_types,
                attr_id,
                bytecode,
                code_offset,
                label_map,
                &function.fallthrough_labels,
                Ghost(self.ctx()),
                Ghost(func_def_idx as int),
                Ghost(attrs),
            )
        } else if is_vector_exec(bytecode) {
            self.lower_vector(
                &mut stack,
                &mut function.code,
                &mut function.local_types,
                attr_id,
                bytecode,
                Ghost(labels),
                Ghost(func_def_idx as int),
                Ghost(code_offset as int),
                Ghost((label_map.at@.len() - 1) as nat),
                Ghost(self.ctx().local_tokens(func_def_idx as int).len()),
                Ghost(attrs),
            )
        } else {
            self.lower_named(
                &mut stack,
                &mut function.code,
                &mut function.local_types,
                attr_id,
                bytecode,
                func_def_idx,
                Ghost(labels),
                Ghost(code_offset as int),
                Ghost((label_map.at@.len() - 1) as nat),
                Ghost(attrs),
            )
        };
        self.temp_stack = stack;
        self.temp_count = function.local_types.len();
        ok
    }

    /// Lowers the source instruction `bytecode` at `code_offset` of the
    /// function defined at `func_def_idx`, where it can be lowered.
    pub fn generate_bytecode(
        &mut self,
        func_def_idx: usize,
        bytecode: MoveBytecode,
        code_offset: u16,
        label_map: &LabelTable,
        function: &mut FunctionInfo,
    )
        requires
            old(self).wf(),
            func_def_idx < old(self).module.function_defs@.len(),
            (code_offset as int) + 1 < label_map.at@.len(),
            old(self).module.instr_ok(
                bytecode,
                (label_map.at@.len() - 1) as nat,
                old(self).ctx().local_tokens(func_def_idx as int).len(),
            ),
            lower(
                old(self).ctx(),
                labels_of(label_map, old(function).fallthrough_labels@),
                func_def_idx as int,
                code_offset as int,
                bytecode,
                old(function).state(old(self).temp_stack@),
            ) is Some,
        ensures
            final(self).same_context(old(self)),
            final(self).wf(),
            final(function).same_frame(old(function)),
            Some(final(function).state(final(self).temp_stack@)) == lower(
                old(self).ctx(),
                labels_of(label_map, old(function).fallthrough_labels@),
                func_def_idx as int,
                code_offset as int,
                bytecode,
                old(function).state(old(self).temp_stack@),
            ),
            final(self).temp_count == final(function).local_types@.len(),
    {
        let _ok = self.try_generate_bytecode(
            func_def_idx,
            bytecode,
            code_offset,
            label_map,
            function,
        );
    }
}

} // verus!
