use vstd::prelude::*;
use crate::move_ir::file_format::{
    check_token, check_tokens, CodeUnit, CompiledModule, FieldDefinition, MoveBytecode,
    StructFieldInformation,
};

verus! {

impl CompiledModule {
    fn check_module_handles(&self) -> (r: bool)
        ensures
            r == forall|i: int|
                0 <= i < self.module_handles@.len() ==> #[trigger] self.module_handle_ok(i),
    {
        let mut i: usize = 0;
        while i < self.module_handles.len()
            invariant
                i <= self.module_handles.len(),
                forall|j: int| 0 <= j < i ==> #[trigger] self.module_handle_ok(j),
            decreases self.module_handles.len() - i,
        {
            let h = &self.module_handles[i];
            if !((h.address as usize) < self.address_identifiers.len() && (h.name as usize)
                < self.identifiers.len()) {
                assert(!self.module_handle_ok(i as int));
                return false;
            }
            i += 1;
        }
        true
    }

    fn check_struct_handles(&self) -> (r: bool)
        ensures
            r == forall|i: int|
                0 <= i < self.struct_handles@.len() ==> #[trigger] self.struct_handle_ok(i),
    {
        let mut i: usize = 0;
        while i < self.struct_handles.len()
            invariant
                i <= self.struct_handles.len(),
                forall|j: int| 0 <= j < i ==> #[trigger] self.struct_handle_ok(j),
            decreases self.struct_handles.len() - i,
        {
            let h = &self.struct_handles[i];
            if !((h.module as usize) < self.module_handles.len() && (h.name as usize)
                < self.identifiers.len()) {
                assert(!self.struct_handle_ok(i as int));
                return false;
            }
            i += 1;
        }
        true
    }

    fn check_function_handles(&self) -> (r: bool)
        ensures
            r == forall|i: int|
                0 <= i < self.function_handles@.len() ==> #[trigger] self.function_handle_ok(i),
    {
        let mut i: usize = 0;
        while i < self.function_handles.len()
            invariant
                i <= self.function_handles.len(),
                forall|j: int| 0 <= j < i ==> #[trigger] self.function_handle_ok(j),
            decreases self.function_handles.len() - i,
        {
            let h = &self.function_handles[i];
            if !((h.module as usize) < self.module_handles.len() && (h.name as usize)
                < self.identifiers.len() && (h.parameters as usize) < self.signatures.len() && (
            h.return_ as usize) < self.signatures.len()) {
                assert(!self.function_handle_ok(i as int));
                return false;
            }
            i += 1;
        }
        true
    }

    fn check_field_handles(&self) -> (r: bool)
        ensures
            r == forall|i: int|
                0 <= i < self.field_handles@.len() ==> #[trigger] self.field_handle_ok(i),
    {
        let mut i: usize = 0;
        while i < self.field_handles.len()
            invariant
                i <= self.field_handles.len(),
                forall|j: int| 0 <= j < i ==> #[trigger] self.field_handle_ok(j),
            decreases self.field_handles.len() - i,
        {
            let h = &self.field_handles[i];
            let mut ok = false;
            if (h.owner as usize) < self.struct_defs.len() {
                match &self.struct_defs[h.owner as usize].field_information {
                    StructFieldInformation::Declared(fields) => {
                        ok = (h.field as usize) < fields.len();
                    },
                    StructFieldInformation::Native => {},
                }
            }
            if !ok {
                assert(!self.field_handle_ok(i as int));
                return false;
            }
            assert(self.field_handle_ok(i as int));
            i += 1;
        }
        true
    }

    fn check_struct_insts(&self) -> (r: bool)
        ensures
            r == forall|i: int|
                0 <= i < self.struct_def_instantiations@.len() ==> #[trigger] self.struct_inst_ok(
                    i,
                ),
    {
        let mut i: usize = 0;
        while i < self.struct_def_instantiations.len()
            invariant
                i <= self.struct_def_instantiations.len(),
                forall|j: int| 0 <= j < i ==> #[trigger] self.struct_inst_ok(j),
            decreases self.struct_def_instantiations.len() - i,
        {
            let h = &self.struct_def_instantiations[i];
            if !((h.def as usize) < self.struct_defs.len() && (h.type_parameters as usize)
                < self.signatures.len()) {
                assert(!self.struct_inst_ok(i as int));
                return false;
            }
            i += 1;
        }
        true
    }

    fn check_function_insts(&self) -> (r: bool)
        ensures
            r == forall|i: int|
                0 <= i < self.function_instantiations@.len() ==> #[trigger] self.function_inst_ok(
                    i,
                ),
    {
        let mut i: usize = 0;
        while i < self.function_instantiations.len()
            invariant
                i <= self.function_instantiations.len(),
                forall|j: int| 0 <= j < i ==> #[trigger] self.function_inst_ok(j),
            decreases self.function_instantiations.len() - i,
        {
            let h = &self.function_instantiations[i];
            if !((h.handle as usize) < self.function_handles.len() && (h.type_parameters as usize)
                < self.signatures.len()) {
                assert(!self.function_inst_ok(i as int));
                return false;
            }
            i += 1;
        }
        true
    }

    fn check_field_insts(&self) -> (r: bool)
        ensures
            r == forall|i: int|
                0 <= i < self.field_instantiations@.len() ==> #[trigger] self.field_inst_ok(i),
    {
        let mut i: usize = 0;
        while i < self.field_instantiations.len()
            invariant
                i <= self.field_instantiations.len(),
                forall|j: int| 0 <= j < i ==> #[trigger] self.field_inst_ok(j),
            decreases self.field_instantiations.len() - i,
        {
            let h = &self.field_instantiations[i];
            if !((h.handle as usize) < self.field_handles.len() && (h.type_parameters as usize)
                < self.signatures.len()) {
                assert(!self.field_inst_ok(i as int));
                return false;
            }
            i += 1;
        }
        true
    }

    fn check_signatures(&self) -> (r: bool)
        ensures
            r == forall|i: int| 0 <= i < self.signatures@.len() ==> #[trigger] self.signature_ok(i),
    {
        let mut i: usize = 0;
        while i < self.signatures.len()
            invariant
                i <= self.signatures.len(),
                forall|j: int| 0 <= j < i ==> #[trigger] self.signature_ok(j),
            decreases self.signatures.len() - i,
        {
            if !check_tokens(&self.signatures[i].0, self.struct_handles.len()) {
                assert(!self.signature_ok(i as int));
                return false;
            }
            i += 1;
        }
        true
    }

    fn check_constants(&self) -> (r: bool)
        ensures
            r == forall|i: int|
                0 <= i < self.constant_pool@.len() ==> #[trigger] self.constant_ok(i),
    {
        let mut i: usize = 0;
        while i < self.constant_pool.len()
            invariant
                i <= self.constant_pool.len(),
                forall|j: int| 0 <= j < i ==> #[trigger] self.constant_ok(j),
            decreases self.constant_pool.len() - i,
        {
            if !check_token(&self.constant_pool[i].type_, self.struct_handles.len()) {
                assert(!self.constant_ok(i as int));
                return false;
            }
            i += 1;
        }
        true
    }

    fn check_field_defs(&self, fields: &Vec<FieldDefinition>) -> (r: bool)
        ensures
            r == forall|k: int| 0 <= k < fields@.len() ==> self.field_def_ok(#[trigger] fields@[k]),
    {
        let mut k: usize = 0;
        while k < fields.len()
            invariant
                k <= fields.len(),
                forall|j: int| 0 <= j < k ==> self.field_def_ok(#[trigger] fields@[j]),
            decreases fields.len() - k,
        {
            let f = &fields[k];
            if !((f.name as usize) < self.identifiers.len() && check_token(
                &f.signature,
                self.struct_handles.len(),
            )) {
                assert(!self.field_def_ok(fields@[k as int]));
                return false;
            }
            k += 1;
        }
        true
    }

    fn check_struct_defs(&self) -> (r: bool)
        ensures
            r == forall|i: int| 0 <= i < self.struct_defs@.len() ==> #[trigger] self.struct_def_ok(i),
    {
        let mut i: usize = 0;
        while i < self.struct_defs.len()
            invariant
                i <= self.struct_defs.len(),
                forall|j: int| 0 <= j < i ==> #[trigger] self.struct_def_ok(j),
            decreases self.struct_defs.len() - i,
        {
            let d = &self.struct_defs[i];
            let mut ok = (d.struct_handle as usize) < self.struct_handles.len();
            if ok {
                match &d.field_information {
                    StructFieldInformation::Declared(fields) => {
                        ok = self.check_field_defs(fields);
                    },
                    StructFieldInformation::Native => {},
                }
            }
            if !ok {
                assert(!self.struct_def_ok(i as int));
                return false;
            }
            assert(self.struct_def_ok(i as int));
            i += 1;
        }
        true
    }

    /// Whether the operand of one instruction is in range. `cap` stands
    /// for the number of locals, cut off at 256, which no local index
    /// reaches.
    fn check_instr(&self, bc: MoveBytecode, code_len: usize, cap: usize) -> (r: bool)
        requires
            cap <= 256,
        ensures
            forall|n: nat|
                (n == cap || (cap == 256 && n >= 256)) ==> r == self.instr_ok(
                    bc,
                    code_len as nat,
                    n,
                ),
    {
        match bc {
            MoveBytecode::BrTrue(t) | MoveBytecode::BrFalse(t) | MoveBytecode::Branch(t) => (
            t as usize) < code_len,
            MoveBytecode::CopyLoc(i) | MoveBytecode::MoveLoc(i) | MoveBytecode::StLoc(i)
            | MoveBytecode::MutBorrowLoc(i) | MoveBytecode::ImmBorrowLoc(i) => (i as usize) < cap,
            MoveBytecode::LdConst(i) => (i as usize) < self.constant_pool.len(),
            MoveBytecode::Call(i) => (i as usize) < self.function_handles.len(),
            MoveBytecode::CallGeneric(i) => (i as usize) < self.function_instantiations.len(),
            MoveBytecode::Pack(i) | MoveBytecode::Unpack(i) | MoveBytecode::MutBorrowGlobal(i)
            | MoveBytecode::ImmBorrowGlobal(i) | MoveBytecode::Exists(i) | MoveBytecode::MoveFrom(
                i,
            ) | MoveBytecode::MoveTo(i) => (i as usize) < self.struct_defs.len(),
            MoveBytecode::PackGeneric(i) | MoveBytecode::UnpackGeneric(i)
            | MoveBytecode::MutBorrowGlobalGeneric(i) | MoveBytecode::ImmBorrowGlobalGeneric(i)
            | MoveBytecode::ExistsGeneric(i) | MoveBytecode::MoveFromGeneric(i)
            | MoveBytecode::MoveToGeneric(i) => (i as usize)
                < self.struct_def_instantiations.len(),
            MoveBytecode::MutBorrowField(i) | MoveBytecode::ImmBorrowField(i) => (i as usize)
                < self.field_handles.len(),
            MoveBytecode::MutBorrowFieldGeneric(i) | MoveBytecode::ImmBorrowFieldGeneric(i) => (
            i as usize) < self.field_instantiations.len(),
            MoveBytecode::VecPack(s, _) | MoveBytecode::VecLen(s) | MoveBytecode::VecImmBorrow(s)
            | MoveBytecode::VecMutBorrow(s) | MoveBytecode::VecPushBack(s)
            | MoveBytecode::VecPopBack(s) | MoveBytecode::VecUnpack(s, _) | MoveBytecode::VecSwap(
                s,
            ) => (s as usize) < self.signatures.len(),
            _ => true,
        }
    }

    fn check_code(&self, unit: &CodeUnit, cap: usize, Ghost(n): Ghost<nat>) -> (r: bool)
        requires
            cap <= 256,
            n == cap || (cap == 256 && n >= 256),
        ensures
            r == forall|pc: int|
                0 <= pc < unit.code@.len() ==> self.instr_ok(
                    #[trigger] unit.code@[pc],
                    unit.code@.len(),
                    n,
                ),
    {
        let mut pc: usize = 0;
        while pc < unit.code.len()
            invariant
                pc <= unit.code.len(),
                cap <= 256,
                n == cap || (cap == 256 && n >= 256),
                forall|j: int|
                    0 <= j < pc ==> self.instr_ok(#[trigger] unit.code@[j], unit.code@.len(), n),
            decreases unit.code.len() - pc,
        {
            if !self.check_instr(unit.code[pc], unit.code.len(), cap) {
                assert(!self.instr_ok(unit.code@[pc as int], unit.code@.len(), n));
                return false;
            }
            pc += 1;
        }
        true
    }

    fn check_function_defs(&self) -> (r: bool)
        requires
            forall|i: int|
                0 <= i < self.function_handles@.len() ==> #[trigger] self.function_handle_ok(i),
        ensures
            r == forall|i: int|
                0 <= i < self.function_defs@.len() ==> #[trigger] self.function_def_ok(i),
    {
        let mut i: usize = 0;
        while i < self.function_defs.len()
            invariant
                i <= self.function_defs.len(),
                forall|j: int|
                    0 <= j < self.function_handles@.len() ==> #[trigger] self.function_handle_ok(j),
                forall|j: int| 0 <= j < i ==> #[trigger] self.function_def_ok(j),
            decreases self.function_defs.len() - i,
        {
            let d = &self.function_defs[i];
            let mut ok = (d.function as usize) < self.function_handles.len();
            if ok {
                match &d.code {
                    Some(unit) => {
                        if unit.code.len() <= 0xffff && (unit.locals as usize)
                            < self.signatures.len() {
                            let h = &self.function_handles[d.function as usize];
                            assert(self.function_handle_ok(d.function as int));
                            let a = self.signatures[h.parameters as usize].0.len();
                            let b = self.signatures[unit.locals as usize].0.len();
                            let cap: usize = if a >= 256 || b >= 256 {
                                256
                            } else if a + b >= 256 {
                                256
                            } else {
                                a + b
                            };
                            ok = self.check_code(unit, cap, Ghost(self.spec_local_count(i as int)));
                        } else {
                            ok = false;
                        }
                    },
                    None => {},
                }
            }
            if !ok {
                assert(!self.function_def_ok(i as int));
                return false;
            }
            assert(self.function_def_ok(i as int));
            i += 1;
        }
        true
    }

    /// Checks every index of the module against the table it points into.
    pub fn check_bounds(&self) -> (r: bool)
        ensures
            r == self.bounds_ok(),
    {
        (self.self_module_handle_idx as usize) < self.module_handles.len()
            && self.check_module_handles() && self.check_struct_handles()
            && self.check_function_handles() && self.check_field_handles()
            && self.check_struct_insts() && self.check_function_insts() && self.check_field_insts()
            && self.check_signatures() && self.check_constants() && self.check_struct_defs()
            && self.check_function_defs()
    }
}

} // verus!
