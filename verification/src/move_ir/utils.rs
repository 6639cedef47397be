use vstd::prelude::*;
use crate::move_ir::bytecode::{constants_view, lemma_constant_view, Constant};
use crate::move_ir::file_format::{
    token_ok, tokens_ok, MoveValue, SignatureToken, StructFieldInformation,
};
use crate::move_ir::bytecode::Bytecode;
use crate::move_ir::generate_bytecode::{FunctionInfo, StacklessBytecodeGenerator};
use crate::move_ir::lowering::translate;
use crate::move_ir::types::{
    lemma_type_view, types_view, FunId, ModuleId, PrimitiveType, StructId, Symbol, Type, TypeV,
};
use crate::move_ir::u256::U256;

verus! {

impl<'a> StacklessBytecodeGenerator<'a> {
    /// The handle of the identifier at `idx` of the module's table.
    pub fn symbol_at(&self, idx: u16) -> (r: Symbol)
        requires
            self.wf(),
            (idx as int) < self.module.identifiers@.len(),
        ensures
            r == self.ctx().symbol_at(idx),
            self.holds(r, self.module.identifiers@[idx as int]@),
    {
        self.ident_symbols[idx as usize]
    }

    pub fn get_module_handle_index_of_struct(&self, struct_handle_index: u16) -> (r: usize)
        requires
            self.wf(),
            (struct_handle_index as int) < self.module.struct_handles@.len(),
        ensures
            ModuleId(r) == self.ctx().handle_module(struct_handle_index),
            r < self.module.module_handles@.len(),
    {
        assert(self.module.struct_handle_ok(struct_handle_index as int));
        self.module.struct_handles[struct_handle_index as usize].module as usize
    }

    pub fn get_module_handle_index_of_func(&self, func_handle_index: u16) -> (r: usize)
        requires
            self.wf(),
            (func_handle_index as int) < self.module.function_handles@.len(),
        ensures
            ModuleId(r) == self.ctx().fun_module(func_handle_index),
            r < self.module.module_handles@.len(),
    {
        assert(self.module.function_handle_ok(func_handle_index as int));
        self.module.function_handles[func_handle_index as usize].module as usize
    }

    pub fn get_fun_id_by_idx(&self, idx: u16) -> (r: FunId)
        requires
            self.wf(),
            (idx as int) < self.module.function_handles@.len(),
        ensures
            r == self.ctx().fun_id(idx),
    {
        assert(self.module.function_handle_ok(idx as int));
        FunId::new(self.symbol_at(self.module.function_handles[idx as usize].name))
    }

    pub fn get_struct_id_by_idx(&self, idx: u16) -> (r: StructId)
        requires
            self.wf(),
            (idx as int) < self.module.struct_handles@.len(),
        ensures
            r == self.ctx().handle_struct_id(idx),
    {
        assert(self.module.struct_handle_ok(idx as int));
        StructId::new(self.symbol_at(self.module.struct_handles[idx as usize].name))
    }

    /// The type that a signature token of the module stands for.
    pub fn globalize_signature(&self, sig: &SignatureToken) -> (r: Type)
        requires
            self.wf(),
            token_ok(*sig, self.module.struct_handles@.len()),
        ensures
            r@ == self.ctx().globalize(*sig),
        decreases sig,
    {
        broadcast use lemma_type_view;

        match sig {
            SignatureToken::Bool => Type::Primitive(PrimitiveType::Bool),
            SignatureToken::U8 => Type::Primitive(PrimitiveType::U8),
            SignatureToken::U16 => Type::Primitive(PrimitiveType::U16),
            SignatureToken::U32 => Type::Primitive(PrimitiveType::U32),
            SignatureToken::U64 => Type::Primitive(PrimitiveType::U64),
            SignatureToken::U128 => Type::Primitive(PrimitiveType::U128),
            SignatureToken::U256 => Type::Primitive(PrimitiveType::U256),
            SignatureToken::Address => Type::Primitive(PrimitiveType::Address),
            SignatureToken::Signer => Type::Primitive(PrimitiveType::Signer),
            SignatureToken::Reference(t) => Type::Reference(
                false,
                Box::new(self.globalize_signature(t)),
            ),
            SignatureToken::MutableReference(t) => Type::Reference(
                true,
                Box::new(self.globalize_signature(t)),
            ),
            SignatureToken::TypeParameter(index) => Type::TypeParameter(*index),
            SignatureToken::Vector(bt) => Type::Vector(Box::new(self.globalize_signature(bt))),
            SignatureToken::Struct(handle_idx) => {
                let r = Type::Struct(
                    ModuleId::new(self.get_module_handle_index_of_struct(*handle_idx)),
                    self.get_struct_id_by_idx(*handle_idx),
                    Vec::new(),
                );
                assert(r@->Struct_2 =~= Seq::<TypeV>::empty());
                r
            },
            SignatureToken::StructInstantiation(handle_idx, args) => {
                let v = self.globalize_signatures(args);
                let r = Type::Struct(
                    ModuleId::new(self.get_module_handle_index_of_struct(*handle_idx)),
                    self.get_struct_id_by_idx(*handle_idx),
                    v,
                );
                assert(r@->Struct_2 =~= self.ctx().globalize(*sig)->Struct_2);
                r
            },
        }
    }

    pub fn globalize_signatures(&self, sigs: &Vec<SignatureToken>) -> (r: Vec<Type>)
        requires
            self.wf(),
            tokens_ok(sigs@, self.module.struct_handles@.len()),
        ensures
            types_view(r@) == self.ctx().globalize_all(sigs@),
        decreases sigs,
    {
        let mut out: Vec<Type> = Vec::new();
        let mut i: usize = 0;
        while i < sigs.len()
            invariant
                i <= sigs.len(),
                self.wf(),
                tokens_ok(sigs@, self.module.struct_handles@.len()),
                out.len() == i,
                forall|j: int| 0 <= j < i ==> out@[j]@ == self.ctx().globalize(sigs@[j]),
            decreases sigs.len() - i,
        {
            out.push(self.globalize_signature(&sigs[i]));
            i += 1;
        }
        assert(types_view(out@) =~= self.ctx().globalize_all(sigs@));
        out
    }

    /// The types that the signature at `type_params_index` lists.
    pub fn get_type_params(&self, type_params_index: u16) -> (r: Vec<Type>)
        requires
            self.wf(),
            (type_params_index as int) < self.module.signatures@.len(),
        ensures
            types_view(r@) == self.ctx().type_params(type_params_index),
    {
        assert(self.module.signature_ok(type_params_index as int));
        self.globalize_signatures(&self.module.signatures[type_params_index as usize].0)
    }

    /// The type of the parameter or declared local `idx` of the function
    /// defined at `def_idx`.
    pub fn get_local_type(&self, def_idx: usize, idx: usize) -> (r: Type)
        requires
            self.wf(),
            def_idx < self.module.function_defs@.len(),
            idx < self.ctx().local_tokens(def_idx as int).len(),
        ensures
            r@ == self.ctx().local_type(def_idx as int, idx as int),
    {
        let d = &self.module.function_defs[def_idx];
        assert(self.module.function_def_ok(def_idx as int));
        assert(self.module.function_handle_ok(d.function as int));
        let h = &self.module.function_handles[d.function as usize];
        assert(self.module.signature_ok(h.parameters as int));
        let params = &self.module.signatures[h.parameters as usize].0;
        if idx < params.len() {
            self.globalize_signature(&params[idx])
        } else {
            match &d.code {
                Some(unit) => {
                    assert(self.module.signature_ok(unit.locals as int));
                    let locals = &self.module.signatures[unit.locals as usize].0;
                    self.globalize_signature(&locals[idx - params.len()])
                },
                None => {
                    proof {
                        assert(false);
                    }
                    Type::Primitive(PrimitiveType::Bool)
                },
            }
        }
    }

    /// The struct, the offset and the declared type of the field behind a
    /// field handle.
    pub fn get_field_info(&self, field_handle_index: u16) -> (r: (StructId, usize, Type))
        requires
            self.wf(),
            (field_handle_index as int) < self.module.field_handles@.len(),
        ensures
            r.0 == self.ctx().def_struct_id(
                self.module.field_handles@[field_handle_index as int].owner,
            ),
            r.1 == self.module.field_handles@[field_handle_index as int].field,
            r.2@ == self.ctx().def_field_types(
                self.module.field_handles@[field_handle_index as int].owner,
            )[r.1 as int],
    {
        let field_handle = &self.module.field_handles[field_handle_index as usize];
        assert(self.module.field_handle_ok(field_handle_index as int));
        let struct_def = &self.module.struct_defs[field_handle.owner as usize];
        assert(self.module.struct_def_ok(field_handle.owner as int));
        let struct_id = self.get_struct_id_by_idx(struct_def.struct_handle);
        let offset = field_handle.field as usize;
        match &struct_def.field_information {
            StructFieldInformation::Declared(fields) => {
                assert(self.module.field_def_ok(fields@[offset as int]));
                (struct_id, offset, self.globalize_signature(&fields[offset].signature))
            },
            StructFieldInformation::Native => {
                proof {
                    assert(false);
                }
                (struct_id, offset, Type::Primitive(PrimitiveType::Bool))
            },
        }
    }

    /// The types of the declared fields of a struct definition, in the
    /// order of their offsets; none for a native struct.
    pub fn get_field_types(&self, def_idx: u16) -> (r: Vec<Type>)
        requires
            self.wf(),
            (def_idx as int) < self.module.struct_defs@.len(),
        ensures
            types_view(r@) == self.ctx().def_field_types(def_idx),
    {
        let struct_def = &self.module.struct_defs[def_idx as usize];
        assert(self.module.struct_def_ok(def_idx as int));
        let mut out: Vec<Type> = Vec::new();
        match &struct_def.field_information {
            StructFieldInformation::Declared(fields) => {
                let mut i: usize = 0;
                while i < fields.len()
                    invariant
                        i <= fields.len(),
                        self.wf(),
                        out.len() == i,
                        forall|k: int|
                            0 <= k < fields@.len() ==> self.module.field_def_ok(
                                #[trigger] fields@[k],
                            ),
                        forall|j: int|
                            0 <= j < i ==> out@[j]@ == self.ctx().globalize(fields@[j].signature),
                    decreases fields.len() - i,
                {
                    assert(self.module.field_def_ok(fields@[i as int]));
                    out.push(self.globalize_signature(&fields[i].signature));
                    i += 1;
                }
                assert(types_view(out@) =~= self.ctx().def_field_types(def_idx));
            },
            StructFieldInformation::Native => {
                assert(types_view(out@) =~= self.ctx().def_field_types(def_idx));
            },
        }
        out
    }
}

fn translate_bytes(vs: &Vec<MoveValue>) -> (r: Option<Vec<u8>>)
    ensures
        r is Some <==> forall|i: int| 0 <= i < vs@.len() ==> #[trigger] vs@[i] is U8,
        r matches Some(b) ==> b@.len() == vs@.len() && forall|i: int|
            0 <= i < vs@.len() ==> b@[i] == vs@[i]->U8_0,
{
    let mut out: Vec<u8> = Vec::new();
    let mut i: usize = 0;
    while i < vs.len()
        invariant
            i <= vs.len(),
            out.len() == i,
            forall|j: int| 0 <= j < i ==> #[trigger] vs@[j] is U8,
            forall|j: int| 0 <= j < i ==> out@[j] == vs@[j]->U8_0,
        decreases vs.len() - i,
    {
        match &vs[i] {
            MoveValue::U8(x) => {
                out.push(*x);
            },
            _ => {
                return None;
            },
        }
        i += 1;
    }
    Some(out)
}

fn translate_addresses(vs: &Vec<MoveValue>) -> (r: Option<Vec<U256>>)
    ensures
        r is Some <==> forall|i: int| 0 <= i < vs@.len() ==> #[trigger] vs@[i] is Address,
        r matches Some(b) ==> b@.len() == vs@.len() && forall|i: int|
            0 <= i < vs@.len() ==> b@[i] == vs@[i]->Address_0,
{
    let mut out: Vec<U256> = Vec::new();
    let mut i: usize = 0;
    while i < vs.len()
        invariant
            i <= vs.len(),
            out.len() == i,
            forall|j: int| 0 <= j < i ==> #[trigger] vs@[j] is Address,
            forall|j: int| 0 <= j < i ==> out@[j] == vs@[j]->Address_0,
        decreases vs.len() - i,
    {
        match &vs[i] {
            MoveValue::Address(x) => {
                out.push(*x);
            },
            _ => {
                return None;
            },
        }
        i += 1;
    }
    Some(out)
}

fn translate_values(inner: &Type, vs: &Vec<MoveValue>) -> (r: Option<Vec<Constant>>)
    ensures
        r is Some <==> forall|i: int|
            0 <= i < vs@.len() ==> translate(inner@, #[trigger] vs@[i]) is Some,
        r matches Some(b) ==> b@.len() == vs@.len() && forall|i: int|
            0 <= i < vs@.len() ==> b@[i]@ == translate(inner@, vs@[i])->0,
    decreases vs, 0nat,
{
    let mut out: Vec<Constant> = Vec::new();
    let mut i: usize = 0;
    while i < vs.len()
        invariant
            i <= vs.len(),
            out.len() == i,
            forall|j: int| 0 <= j < i ==> translate(inner@, #[trigger] vs@[j]) is Some,
            forall|j: int| 0 <= j < i ==> out@[j]@ == translate(inner@, vs@[j])->0,
        decreases vs.len() - i,
    {
        match translate_value(inner, &vs[i]) {
            Some(c) => {
                out.push(c);
            },
            None => {
                return None;
            },
        }
        i += 1;
    }
    Some(out)
}

fn translate_vector(inner: &Type, vs: &Vec<MoveValue>) -> (r: Option<Constant>)
    ensures
        r is Some <==> translate(TypeV::Vector(Box::new(inner@)), MoveValue::Vector(*vs)) is Some,
        r matches Some(c) ==> c@ == translate(
            TypeV::Vector(Box::new(inner@)),
            MoveValue::Vector(*vs),
        )->0,
    decreases vs, 1nat,
{
    broadcast use lemma_type_view, lemma_constant_view;

    let ghost ty = TypeV::Vector(Box::new(inner@));
    let ghost value = MoveValue::Vector(*vs);
    match inner {
        Type::Primitive(PrimitiveType::U8) => {
            match translate_bytes(vs) {
                Some(b) => {
                    assert forall|i: int| 0 <= i < vs@.len() implies translate(
                        inner@,
                        #[trigger] vs@[i],
                    ) is Some by {
                        assert(vs@[i] is U8);
                    }
                    assert(b@ =~= translate(ty, value)->0->ByteArray_0);
                    Some(Constant::ByteArray(b))
                },
                None => {
                    let ghost k = choose|k: int| 0 <= k < vs@.len() && !(vs@[k] is U8);
                    assert(translate(inner@, vs@[k]) is None);
                    None
                },
            }
        },
        Type::Primitive(PrimitiveType::Address) => {
            match translate_addresses(vs) {
                Some(b) => {
                    assert forall|i: int| 0 <= i < vs@.len() implies translate(
                        inner@,
                        #[trigger] vs@[i],
                    ) is Some by {
                        assert(vs@[i] is Address);
                    }
                    assert(b@ =~= translate(ty, value)->0->AddressArray_0);
                    Some(Constant::AddressArray(b))
                },
                None => {
                    let ghost k = choose|k: int| 0 <= k < vs@.len() && !(vs@[k] is Address);
                    assert(translate(inner@, vs@[k]) is None);
                    None
                },
            }
        },
        _ => {
            match translate_values(inner, vs) {
                Some(b) => {
                    assert(constants_view(b@) =~= translate(ty, value)->0->Vector_0);
                    Some(Constant::Vector(b))
                },
                None => None,
            }
        },
    }
}

/// The constant that a decoded value of the constant pool stands for, read
/// against its declared type: a vector of bytes becomes a byte array, a
/// vector of addresses an address array, any other vector a vector of
/// constants. `None` where value and type do not fit.
pub fn translate_value(ty: &Type, value: &MoveValue) -> (r: Option<Constant>)
    ensures
        r is Some <==> translate(ty@, *value) is Some,
        r matches Some(c) ==> c@ == translate(ty@, *value)->0,
    decreases value, 0nat,
{
    broadcast use lemma_type_view;

    match value {
        MoveValue::Vector(vs) => match ty {
            Type::Vector(inner) => translate_vector(inner, vs),
            _ => None,
        },
        MoveValue::Bool(b) => match ty {
            Type::Primitive(PrimitiveType::Bool) => Some(Constant::Bool(*b)),
            _ => None,
        },
        MoveValue::U8(b) => match ty {
            Type::Primitive(PrimitiveType::U8) => Some(Constant::U8(*b)),
            _ => None,
        },
        MoveValue::U16(b) => match ty {
            Type::Primitive(PrimitiveType::U16) => Some(Constant::U16(*b)),
            _ => None,
        },
        MoveValue::U32(b) => match ty {
            Type::Primitive(PrimitiveType::U32) => Some(Constant::U32(*b)),
            _ => None,
        },
        MoveValue::U64(b) => match ty {
            Type::Primitive(PrimitiveType::U64) => Some(Constant::U64(*b)),
            _ => None,
        },
        MoveValue::U128(b) => match ty {
            Type::Primitive(PrimitiveType::U128) => Some(Constant::U128(*b)),
            _ => None,
        },
        MoveValue::U256(b) => match ty {
            Type::Primitive(PrimitiveType::U256) => Some(Constant::U256(*b)),
            _ => None,
        },
        MoveValue::Address(a) => match ty {
            Type::Primitive(PrimitiveType::Address) => Some(Constant::Address(*a)),
            _ => None,
        },
        _ => None,
    }
}

/// The nearest among the first `n` of `offsets` that is below `offset`:
/// the largest such, and of equal ones the first.
pub open spec fn closest_before(offsets: Seq<usize>, offset: usize, n: nat) -> Option<usize>
    decreases n,
{
    if n == 0 {
        None
    } else {
        let prev = closest_before(offsets, offset, (n - 1) as nat);
        let x = offsets[n - 1];
        if x < offset && (prev is None || prev->0 < x) {
            Some(x)
        } else {
            prev
        }
    }
}

/// The offset of the instruction that defines the temp `sid` for a use at
/// `code_offset`: its only definition where it has just one; else its
/// nearest definition before the use; else its first definition. `None`
/// where the temp has no definition or the table of definitions does not
/// fit the code.
pub open spec fn def_offset(function: &FunctionInfo, sid: usize, code_offset: usize) -> Option<
    usize,
> {
    if sid < function.def_attrid@.len() {
        let tid = function.def_attrid@[sid as int]@;
        let pick = if tid.len() == 1 {
            Some(tid[0])
        } else {
            match closest_before(tid, code_offset, tid.len()) {
                Some(x) => Some(x),
                None => if tid.len() > 0 {
                    Some(tid[0])
                } else {
                    None
                },
            }
        };
        match pick {
            Some(x) => if x < function.code@.len() {
                Some(x)
            } else {
                None
            },
            None => None,
        }
    } else {
        None
    }
}

/// The instruction that defines the temp `sid` for a use at
/// `code_offset`.
pub fn get_def_bytecode(function: &FunctionInfo, sid: usize, code_offset: usize) -> (r: Option<
    &Bytecode,
>)
    ensures
        match def_offset(function, sid, code_offset) {
            Some(x) => r == Some(&function.code@[x as int]),
            None => r is None,
        },
{
    if sid >= function.def_attrid.len() {
        return None;
    }
    let tid = &function.def_attrid[sid];
    let pick: Option<usize> = if tid.len() == 1 {
        Some(tid[0])
    } else {
        let mut closest: Option<usize> = None;
        let mut i: usize = 0;
        while i < tid.len()
            invariant
                i <= tid.len(),
                closest == closest_before(tid@, code_offset, i as nat),
            decreases tid.len() - i,
        {
            let x = tid[i];
            let better = match closest {
                Some(c) => c < x,
                None => true,
            };
            if x < code_offset && better {
                closest = Some(x);
            }
            i += 1;
        }
        match closest {
            Some(x) => Some(x),
            None => if tid.len() > 0 {
                Some(tid[0])
            } else {
                None
            },
        }
    };
    match pick {
        Some(x) => if x < function.code.len() {
            Some(&function.code[x])
        } else {
            None
        },
        None => None,
    }
}

/// The name of the function defined at `idx`.
pub fn get_function_name(idx: usize, stbgr: &StacklessBytecodeGenerator) -> (r: String)
    requires
        stbgr.wf(),
        idx < stbgr.module.function_defs@.len(),
    ensures
        r@ == stbgr.spec_function_name(idx as int),
{
    assert(stbgr.module.function_def_ok(idx as int));
    let d = &stbgr.module.function_defs[idx];
    assert(stbgr.module.function_handle_ok(d.function as int));
    stbgr.module.identifiers[stbgr.module.function_handles[d.function as usize].name as usize].clone()
}

/// Whether the function defined at `idx` is native.
pub fn is_native(idx: usize, stbgr: &StacklessBytecodeGenerator) -> (r: bool)
    requires
        idx < stbgr.module.function_defs@.len(),
    ensures
        r == stbgr.module.function_defs@[idx as int].spec_is_native(),
{
    stbgr.module.function_defs[idx].is_native()
}

} // verus!
