use vstd::prelude::*;
use vstd::string::StringExecFns;
use crate::move_ir::bytecode::{
    constants_view, AssignKind, Bytecode, BytecodeV, Constant, ConstantV, Label, Operation,
    OperationV,
};
use crate::move_ir::bytecode::{AbortAction, BorrowNode};
use crate::move_ir::control_flow_graph::{find_label, label_offset};
use crate::move_ir::bytecode::code_view;
use crate::move_ir::file_format::StructFieldInformation;
use crate::move_ir::data_dependency::{lemma_node_view, nodes_view, Node, NodeV, Val, ValV};
use crate::move_ir::generate_bytecode::StacklessBytecodeGenerator;
use crate::move_ir::packages::{hex_digits, to_hex};
use crate::move_ir::types::{
    types_view, ModuleId, PrimitiveType, StructId, Symbol, Type, TypeV,
};
use crate::move_ir::u256::U256;
use crate::utils::utils::{dec_digits, u128_decimal, u256_decimal};

verus! {

/// How a name that a lifter does not know is written.
pub open spec fn unknown_text() -> Seq<char> {
    "??unknown??"@
}

/// How a temp is written: `$t` and its number.
pub open spec fn temp_text(t: usize) -> Seq<char> {
    "$t"@ + dec_digits(t as nat)
}

pub fn temp_str(t: usize) -> (r: String)
    ensures
        r@ == temp_text(t),
{
    let mut out = String::from_str("$t");
    out.append(u128_decimal(t as u128).as_str());
    out
}

/// How a primitive type is written.
pub open spec fn primitive_text(p: PrimitiveType) -> Seq<char> {
    match p {
        PrimitiveType::Bool => "bool"@,
        PrimitiveType::U8 => "u8"@,
        PrimitiveType::U16 => "u16"@,
        PrimitiveType::U32 => "u32"@,
        PrimitiveType::U64 => "u64"@,
        PrimitiveType::U128 => "u128"@,
        PrimitiveType::U256 => "u256"@,
        PrimitiveType::Address => "address"@,
        PrimitiveType::Signer => "signer"@,
    }
}

pub fn primitive_str(p: PrimitiveType) -> (r: &'static str)
    ensures
        r@ == primitive_text(p),
{
    match p {
        PrimitiveType::Bool => "bool",
        PrimitiveType::U8 => "u8",
        PrimitiveType::U16 => "u16",
        PrimitiveType::U32 => "u32",
        PrimitiveType::U64 => "u64",
        PrimitiveType::U128 => "u128",
        PrimitiveType::U256 => "u256",
        PrimitiveType::Address => "address",
        PrimitiveType::Signer => "signer",
    }
}

impl<'a> StacklessBytecodeGenerator<'a> {
    /// The text behind a handle of this lifter's pool.
    pub open spec fn symbol_text(&self, s: Symbol) -> Seq<char> {
        if s.0 < self.symbol_pool@.len() {
            self.symbol_pool@[s.0 as int]
        } else {
            unknown_text()
        }
    }

    /// The name of the module `m`, without its address.
    pub open spec fn module_text(&self, m: ModuleId) -> Seq<char> {
        if m.0 < self.module_names@.len() {
            self.symbol_text(self.module_names@[m.0 as int].name)
        } else {
            unknown_text()
        }
    }

    /// A struct by the name of its module and its own name.
    pub open spec fn struct_text(&self, m: ModuleId, s: StructId) -> Seq<char> {
        self.module_text(m) + "::"@ + self.symbol_text(s.0)
    }

    /// How a type is written: a primitive type by its name, a vector as
    /// `vector<T>`, a struct by its module and name with its type
    /// arguments in angle brackets, a reference as `&T` or `&mut T`, a
    /// tuple in round brackets, and a type parameter as `#` and its
    /// number.
    pub open spec fn type_text(&self, ty: TypeV) -> Seq<char>
        decreases ty,
    {
        match ty {
            TypeV::Primitive(p) => primitive_text(p),
            TypeV::Tuple(ts) => "("@ + self.types_text(ts, ts.len()) + ")"@,
            TypeV::Vector(e) => "vector<"@ + self.type_text(*e) + ">"@,
            TypeV::Struct(m, s, ts) => if ts.len() == 0 {
                self.struct_text(m, s)
            } else {
                self.struct_text(m, s) + "<"@ + self.types_text(ts, ts.len()) + ">"@
            },
            TypeV::Reference(is_mut, e) => if is_mut {
                "&mut "@ + self.type_text(*e)
            } else {
                "&"@ + self.type_text(*e)
            },
            TypeV::TypeParameter(i) => "#"@ + dec_digits(i as nat),
        }
    }

    /// The first `n` of `ts` as they are written, with a comma and a
    /// blank between them.
    pub open spec fn types_text(&self, ts: Seq<TypeV>, n: nat) -> Seq<char>
        decreases ts, n,
    {
        if n == 0 || n > ts.len() {
            Seq::empty()
        } else if n == 1 {
            self.type_text(ts[0])
        } else {
            self.types_text(ts, (n - 1) as nat) + ", "@ + self.type_text(ts[n - 1])
        }
    }

    pub fn symbol_str(&self, s: Symbol) -> (r: String)
        ensures
            r@ == self.symbol_text(s),
    {
        if s.0 < self.symbol_pool.len() {
            self.symbol_pool.string(s).clone()
        } else {
            String::from_str("??unknown??")
        }
    }

    pub fn module_str(&self, m: ModuleId) -> (r: String)
        ensures
            r@ == self.module_text(m),
    {
        if m.0 < self.module_names.len() {
            self.symbol_str(self.module_names[m.0].name)
        } else {
            String::from_str("??unknown??")
        }
    }

    pub fn struct_str(&self, m: ModuleId, s: StructId) -> (r: String)
        ensures
            r@ == self.struct_text(m, s),
    {
        let mut out = self.module_str(m);
        out.append("::");
        out.append(self.symbol_str(s.0).as_str());
        out
    }

    /// The types `ts` as they are written, with a comma and a blank
    /// between them.
    pub fn types_str(&self, ts: &Vec<Type>) -> (r: String)
        ensures
            r@ == self.types_text(types_view(ts@), ts@.len()),
        decreases ts,
    {
        let mut out = String::new();
        let mut i: usize = 0;
        while i < ts.len()
            invariant
                i <= ts.len(),
                out@ == self.types_text(types_view(ts@), i as nat),
            decreases ts.len() - i,
        {
            if i > 0 {
                out.append(", ");
            }
            let item = self.display_type(&ts[i]);
            out.append(item.as_str());
            proof {
                assert(types_view(ts@)[i as int] == ts@[i as int]@);
                if i == 0 {
                    assert(Seq::<char>::empty() + item@ =~= item@);
                }
            }
            i += 1;
        }
        out
    }

    /// The type `ty` as it is written.
    pub fn display_type(&self, ty: &Type) -> (r: String)
        ensures
            r@ == self.type_text(ty@),
        decreases ty,
    {
        broadcast use crate::move_ir::types::lemma_type_view;

        match ty {
            Type::Primitive(p) => String::from_str(primitive_str(*p)),
            Type::Tuple(ts) => {
                let mut out = String::from_str("(");
                out.append(self.types_str(ts).as_str());
                out.append(")");
                out
            },
            Type::Vector(e) => {
                let mut out = String::from_str("vector<");
                out.append(self.display_type(e).as_str());
                out.append(">");
                out
            },
            Type::Struct(m, s, ts) => {
                let mut out = self.struct_str(*m, *s);
                if ts.len() > 0 {
                    out.append("<");
                    out.append(self.types_str(ts).as_str());
                    out.append(">");
                }
                out
            },
            Type::Reference(is_mut, e) => {
                let mut out = String::from_str(
                    if *is_mut {
                        "&mut "
                    } else {
                        "&"
                    },
                );
                out.append(self.display_type(e).as_str());
                out
            },
            Type::TypeParameter(i) => {
                let mut out = String::from_str("#");
                out.append(u128_decimal(*i as u128).as_str());
                out
            },
        }
    }
}

/// The first `n` of the bytes `bs` in decimal, with a comma and a blank
/// between them.
pub open spec fn bytes_text(bs: Seq<u8>, n: nat) -> Seq<char>
    decreases n,
{
    if n == 0 || n > bs.len() {
        Seq::empty()
    } else if n == 1 {
        dec_digits(bs[0] as nat)
    } else {
        bytes_text(bs, (n - 1) as nat) + ", "@ + dec_digits(bs[n - 1] as nat)
    }
}

/// An address as it is written: in hexadecimal behind `0x`.
pub open spec fn address_text(a: U256) -> Seq<char> {
    "0x"@ + hex_digits(a@)
}

/// The first `n` of the addresses `xs`, with a comma and a blank between
/// them.
pub open spec fn addresses_text(xs: Seq<U256>, n: nat) -> Seq<char>
    decreases n,
{
    if n == 0 || n > xs.len() {
        Seq::empty()
    } else if n == 1 {
        address_text(xs[0])
    } else {
        addresses_text(xs, (n - 1) as nat) + ", "@ + address_text(xs[n - 1])
    }
}

/// How a constant is written: a truth value as `true` or `false`, a
/// number in decimal, an address in hexadecimal behind `0x`, and the
/// elements of an array or a vector in square brackets with a comma and a
/// blank between them.
pub open spec fn constant_text(c: ConstantV) -> Seq<char>
    decreases c,
{
    match c {
        ConstantV::Bool(b) => if b {
            "true"@
        } else {
            "false"@
        },
        ConstantV::U8(x) => dec_digits(x as nat),
        ConstantV::U16(x) => dec_digits(x as nat),
        ConstantV::U32(x) => dec_digits(x as nat),
        ConstantV::U64(x) => dec_digits(x as nat),
        ConstantV::U128(x) => dec_digits(x as nat),
        ConstantV::U256(x) => dec_digits(x@),
        ConstantV::Address(a) => address_text(a),
        ConstantV::ByteArray(bs) => "["@ + bytes_text(bs, bs.len()) + "]"@,
        ConstantV::AddressArray(xs) => "["@ + addresses_text(xs, xs.len()) + "]"@,
        ConstantV::Vector(cs) => "["@ + constants_text(cs, cs.len()) + "]"@,
    }
}

/// The first `n` of the constants `cs`, with a comma and a blank between
/// them.
pub open spec fn constants_text(cs: Seq<ConstantV>, n: nat) -> Seq<char>
    decreases cs, n,
{
    if n == 0 || n > cs.len() {
        Seq::empty()
    } else if n == 1 {
        constant_text(cs[0])
    } else {
        constants_text(cs, (n - 1) as nat) + ", "@ + constant_text(cs[n - 1])
    }
}

/// An address as it is written.
pub fn address_string(a: U256) -> (r: String)
    ensures
        r@ == address_text(a),
{
    let mut out = String::from_str("0x");
    out.append(to_hex(a).as_str());
    out
}

fn bytes_str(bs: &Vec<u8>) -> (r: String)
    ensures
        r@ == bytes_text(bs@, bs@.len()),
{
    let mut out = String::new();
    let mut i: usize = 0;
    while i < bs.len()
        invariant
            i <= bs.len(),
            out@ == bytes_text(bs@, i as nat),
        decreases bs.len() - i,
    {
        if i > 0 {
            out.append(", ");
        }
        let item = u128_decimal(bs[i] as u128);
        out.append(item.as_str());
        proof {
            if i == 0 {
                assert(Seq::<char>::empty() + item@ =~= item@);
            }
        }
        i += 1;
    }
    out
}

fn addresses_str(xs: &Vec<U256>) -> (r: String)
    ensures
        r@ == addresses_text(xs@, xs@.len()),
{
    let mut out = String::new();
    let mut i: usize = 0;
    while i < xs.len()
        invariant
            i <= xs.len(),
            out@ == addresses_text(xs@, i as nat),
        decreases xs.len() - i,
    {
        if i > 0 {
            out.append(", ");
        }
        let item = address_string(xs[i]);
        out.append(item.as_str());
        proof {
            if i == 0 {
                assert(Seq::<char>::empty() + item@ =~= item@);
            }
        }
        i += 1;
    }
    out
}

fn constants_str(cs: &Vec<Constant>) -> (r: String)
    ensures
        r@ == constants_text(constants_view(cs@), cs@.len()),
    decreases cs,
{
    let mut out = String::new();
    let mut i: usize = 0;
    while i < cs.len()
        invariant
            i <= cs.len(),
            out@ == constants_text(constants_view(cs@), i as nat),
        decreases cs.len() - i,
    {
        if i > 0 {
            out.append(", ");
        }
        let item = constant_str(&cs[i]);
        out.append(item.as_str());
        proof {
            assert(constants_view(cs@)[i as int] == cs@[i as int]@);
            if i == 0 {
                assert(Seq::<char>::empty() + item@ =~= item@);
            }
        }
        i += 1;
    }
    out
}

fn bracketed(body: String) -> (r: String)
    ensures
        r@ == "["@ + body@ + "]"@,
{
    let mut out = String::from_str("[");
    out.append(body.as_str());
    out.append("]");
    out
}

/// The constant `c` as it is written.
pub fn constant_str(c: &Constant) -> (r: String)
    ensures
        r@ == constant_text(c@),
    decreases c,
{
    broadcast use crate::move_ir::bytecode::lemma_constant_view;

    match c {
        Constant::Bool(b) => String::from_str(
            if *b {
                "true"
            } else {
                "false"
            },
        ),
        Constant::U8(x) => u128_decimal(*x as u128),
        Constant::U16(x) => u128_decimal(*x as u128),
        Constant::U32(x) => u128_decimal(*x as u128),
        Constant::U64(x) => u128_decimal(*x as u128),
        Constant::U128(x) => u128_decimal(*x),
        Constant::U256(x) => u256_decimal(*x),
        Constant::Address(a) => address_string(*a),
        Constant::ByteArray(bs) => bracketed(bytes_str(bs)),
        Constant::AddressArray(xs) => bracketed(addresses_str(xs)),
        Constant::Vector(cs) => bracketed(constants_str(cs)),
    }
}

/// How an operation without operands of its own is written; nothing for
/// the others.
pub open spec fn plain_operation_text(op: OperationV) -> Seq<char> {
    match op {
        OperationV::BorrowLoc => "borrow_local"@,
        OperationV::Uninit => "uninit"@,
        OperationV::Destroy => "destroy"@,
        OperationV::ReadRef => "read_ref"@,
        OperationV::WriteRef => "write_ref"@,
        OperationV::FreezeRef => "freeze_ref"@,
        OperationV::CastU8 => "(u8)"@,
        OperationV::CastU16 => "(u16)"@,
        OperationV::CastU32 => "(u32)"@,
        OperationV::CastU64 => "(u64)"@,
        OperationV::CastU128 => "(u128)"@,
        OperationV::CastU256 => "(u256)"@,
        OperationV::Not => "!"@,
        OperationV::Add => "+"@,
        OperationV::Sub => "-"@,
        OperationV::Mul => "*"@,
        OperationV::Div => "/"@,
        OperationV::Mod => "%"@,
        OperationV::BitOr => "|"@,
        OperationV::BitAnd => "&"@,
        OperationV::Xor => "^"@,
        OperationV::Shl => "<<"@,
        OperationV::Shr => ">>"@,
        OperationV::Lt => "<"@,
        OperationV::Gt => ">"@,
        OperationV::Le => "<="@,
        OperationV::Ge => ">="@,
        OperationV::Or => "||"@,
        OperationV::And => "&&"@,
        OperationV::Eq => "=="@,
        OperationV::Neq => "!="@,
        _ => ""@,
    }
}

fn plain_operation_str(op: &Operation) -> (r: &'static str)
    ensures
        r@ == plain_operation_text(op@),
{
    match op {
        Operation::BorrowLoc => "borrow_local",
        Operation::Uninit => "uninit",
        Operation::Destroy => "destroy",
        Operation::ReadRef => "read_ref",
        Operation::WriteRef => "write_ref",
        Operation::FreezeRef => "freeze_ref",
        Operation::CastU8 => "(u8)",
        Operation::CastU16 => "(u16)",
        Operation::CastU32 => "(u32)",
        Operation::CastU64 => "(u64)",
        Operation::CastU128 => "(u128)",
        Operation::CastU256 => "(u256)",
        Operation::Not => "!",
        Operation::Add => "+",
        Operation::Sub => "-",
        Operation::Mul => "*",
        Operation::Div => "/",
        Operation::Mod => "%",
        Operation::BitOr => "|",
        Operation::BitAnd => "&",
        Operation::Xor => "^",
        Operation::Shl => "<<",
        Operation::Shr => ">>",
        Operation::Lt => "<",
        Operation::Gt => ">",
        Operation::Le => "<=",
        Operation::Ge => ">=",
        Operation::Or => "||",
        Operation::And => "&&",
        Operation::Eq => "==",
        Operation::Neq => "!=",
        _ => "",
    }
}

impl<'a> StacklessBytecodeGenerator<'a> {
    /// Type arguments as they are written behind a name: nothing where
    /// there are none, else the types in angle brackets.
    pub open spec fn type_args_text(&self, targs: Seq<TypeV>) -> Seq<char> {
        if targs.len() == 0 {
            Seq::empty()
        } else {
            "<"@ + self.types_text(targs, targs.len()) + ">"@
        }
    }

    /// The name of the field at place `offset` of the first among the
    /// first `n` struct definitions of the module that is called `s` and
    /// declares that many fields.
    pub open spec fn field_name(&self, s: StructId, offset: usize, n: nat) -> Option<Seq<char>>
        decreases n,
    {
        if n == 0 {
            None
        } else {
            match self.field_name(s, offset, (n - 1) as nat) {
                Some(x) => Some(x),
                None => {
                    let d = self.module.struct_defs@[n - 1];
                    let h = self.module.struct_handles@[d.struct_handle as int];
                    if self.ident_symbols@[h.name as int] == s.0 {
                        match d.field_information {
                            StructFieldInformation::Declared(fields) => if offset < fields@.len() {
                                Some(self.module.identifiers@[fields@[offset as int].name as int]@)
                            } else {
                                None
                            },
                            StructFieldInformation::Native => None,
                        }
                    } else {
                        None
                    }
                },
            }
        }
    }

    /// A dot and the name of the field, where the module declares it.
    pub open spec fn field_text(&self, s: StructId, offset: usize) -> Seq<char> {
        match self.field_name(s, offset, self.module.struct_defs@.len()) {
            Some(x) => "."@ + x,
            None => Seq::empty(),
        }
    }

    /// `word`, and in angle brackets the struct with its type arguments.
    pub open spec fn on_struct_text(
        &self,
        word: Seq<char>,
        m: ModuleId,
        s: StructId,
        targs: Seq<TypeV>,
    ) -> Seq<char> {
        word + "<"@ + self.type_text(TypeV::Struct(m, s, targs)) + ">"@
    }

    /// How an operation is written: a function by the name of the lifted
    /// module and its own name with its type arguments, an operation on a
    /// struct with the struct behind it, a cast as the type in round
    /// brackets, and an arithmetic, logical or comparing operation by its
    /// sign.
    pub open spec fn operation_text(&self, op: OperationV) -> Seq<char> {
        match op {
            OperationV::Function(_, f, targs) => self.symbol_text(self.module_name.name) + "::"@
                + self.symbol_text(f.0) + self.type_args_text(targs),
            OperationV::Pack(m, s, targs) => "pack "@ + self.type_text(TypeV::Struct(m, s, targs)),
            OperationV::Unpack(m, s, targs) => "unpack "@ + self.type_text(
                TypeV::Struct(m, s, targs),
            ),
            OperationV::MoveTo(m, s, targs) => self.on_struct_text("move_to"@, m, s, targs),
            OperationV::MoveFrom(m, s, targs) => self.on_struct_text("move_from"@, m, s, targs),
            OperationV::Exists(m, s, targs) => self.on_struct_text("exists"@, m, s, targs),
            OperationV::BorrowGlobal(m, s, targs) => self.on_struct_text(
                "borrow_global"@,
                m,
                s,
                targs,
            ),
            OperationV::BorrowField(m, s, targs, offset) => self.on_struct_text(
                "borrow_field"@,
                m,
                s,
                targs,
            ) + self.field_text(s, offset),
            _ => plain_operation_text(op),
        }
    }

    fn struct_type_str(&self, m: ModuleId, s: StructId, targs: &Vec<Type>) -> (r: String)
        ensures
            r@ == self.type_text(TypeV::Struct(m, s, types_view(targs@))),
    {
        let mut out = self.struct_str(m, s);
        if targs.len() > 0 {
            out.append("<");
            out.append(self.types_str(targs).as_str());
            out.append(">");
        }
        out
    }

    fn on_struct_str(&self, word: &str, m: ModuleId, s: StructId, targs: &Vec<Type>) -> (r: String)
        ensures
            r@ == self.on_struct_text(word@, m, s, types_view(targs@)),
    {
        let mut out = String::from_str(word);
        out.append("<");
        out.append(self.struct_type_str(m, s, targs).as_str());
        out.append(">");
        out
    }

    fn field_name_str(&self, s: StructId, offset: usize) -> (r: Option<String>)
        requires
            self.wf(),
        ensures
            match r {
                Some(x) => self.field_name(s, offset, self.module.struct_defs@.len()) == Some(x@),
                None => self.field_name(s, offset, self.module.struct_defs@.len()) is None,
            },
    {
        let m = self.module;
        let mut i: usize = 0;
        while i < m.struct_defs.len()
            invariant
                self.wf(),
                m == self.module,
                i <= m.struct_defs@.len(),
                self.field_name(s, offset, i as nat) is None,
            decreases m.struct_defs.len() - i,
        {
            assert(m.struct_def_ok(i as int));
            let d = &m.struct_defs[i];
            assert(m.struct_handle_ok(d.struct_handle as int));
            let h = m.struct_handles[d.struct_handle as usize];
            if self.ident_symbols[h.name as usize] == s.0 {
                match &d.field_information {
                    StructFieldInformation::Declared(fields) => {
                        if offset < fields.len() {
                            assert(m.field_def_ok(fields@[offset as int]));
                            let name = m.identifiers[fields[offset].name as usize].clone();
                            proof {
                                crate::move_ir::bytecode_display::lemma_field_name_stays(
                                    self,
                                    s,
                                    offset,
                                    (i + 1) as nat,
                                    m.struct_defs@.len(),
                                );
                            }
                            return Some(name);
                        }
                    },
                    StructFieldInformation::Native => {},
                }
            }
            i += 1;
        }
        None
    }

    /// The operation `oper` as it is written.
    pub fn operation_str(&self, oper: &Operation) -> (r: String)
        requires
            self.wf(),
        ensures
            r@ == self.operation_text(oper@),
    {
        match oper {
            Operation::Function(_, f, targs) => {
                let mut out = self.symbol_str(self.module_name.name);
                out.append("::");
                out.append(self.symbol_str(f.0).as_str());
                if targs.len() > 0 {
                    let mut args = String::from_str("<");
                    args.append(self.types_str(targs).as_str());
                    args.append(">");
                    out.append(args.as_str());
                } else {
                    assert(out@ + Seq::<char>::empty() =~= out@);
                }
                out
            },
            Operation::Pack(m, s, targs) => {
                let mut out = String::from_str("pack ");
                out.append(self.struct_type_str(*m, *s, targs).as_str());
                out
            },
            Operation::Unpack(m, s, targs) => {
                let mut out = String::from_str("unpack ");
                out.append(self.struct_type_str(*m, *s, targs).as_str());
                out
            },
            Operation::MoveTo(m, s, targs) => self.on_struct_str("move_to", *m, *s, targs),
            Operation::MoveFrom(m, s, targs) => self.on_struct_str("move_from", *m, *s, targs),
            Operation::Exists(m, s, targs) => self.on_struct_str("exists", *m, *s, targs),
            Operation::BorrowGlobal(m, s, targs) => self.on_struct_str(
                "borrow_global",
                *m,
                *s,
                targs,
            ),
            Operation::BorrowField(m, s, targs, offset) => {
                let mut out = self.on_struct_str("borrow_field", *m, *s, targs);
                match self.field_name_str(*s, *offset) {
                    Some(name) => {
                        let mut field = String::from_str(".");
                        field.append(name.as_str());
                        out.append(field.as_str());
                    },
                    None => {
                        assert(out@ + Seq::<char>::empty() =~= out@);
                    },
                }
                out
            },
            _ => String::from_str(plain_operation_str(oper)),
        }
    }
}

/// A field that is found among fewer struct definitions is the one found
/// among more.
pub proof fn lemma_field_name_stays(
    g: &StacklessBytecodeGenerator,
    s: StructId,
    offset: usize,
    n: nat,
    m: nat,
)
    requires
        n <= m,
        g.field_name(s, offset, n) is Some,
    ensures
        g.field_name(s, offset, m) == g.field_name(s, offset, n),
    decreases m,
{
    if n < m {
        lemma_field_name_stays(g, s, offset, n, (m - 1) as nat);
    }
}

/// The operation `oper` as the lifter `stbgr` writes it.
pub fn oper_display(oper: &Operation, stbgr: &StacklessBytecodeGenerator) -> (r: String)
    requires
        stbgr.wf(),
    ensures
        r@ == stbgr.operation_text(oper@),
{
    stbgr.operation_str(oper)
}

/// How a borrow node is written; nothing for a global root.
pub open spec fn borrow_node_text(node: BorrowNode) -> Seq<char> {
    match node {
        BorrowNode::GlobalRoot => ""@,
        BorrowNode::LocalRoot(t) => "LocalRoot("@ + temp_text(t) + ")"@,
        BorrowNode::Reference(t) => "Reference("@ + temp_text(t) + ")"@,
        BorrowNode::ReturnPlaceholder(i) => "Return("@ + dec_digits(i as nat) + ")"@,
    }
}

#[allow(non_snake_case)]
pub fn BorrowNode_display(node: &BorrowNode) -> (r: String)
    ensures
        r@ == borrow_node_text(*node),
{
    match node {
        BorrowNode::GlobalRoot => String::from_str(""),
        BorrowNode::LocalRoot(t) => {
            let mut out = String::from_str("LocalRoot(");
            out.append(temp_str(*t).as_str());
            out.append(")");
            out
        },
        BorrowNode::Reference(t) => {
            let mut out = String::from_str("Reference(");
            out.append(temp_str(*t).as_str());
            out.append(")");
            out
        },
        BorrowNode::ReturnPlaceholder(i) => {
            let mut out = String::from_str("Return(");
            out.append(u128_decimal(*i as u128).as_str());
            out.append(")");
            out
        },
    }
}

/// The first `n` of the temps `ts`, with a comma and a blank between
/// them.
pub open spec fn temps_text(ts: Seq<usize>, n: nat) -> Seq<char>
    decreases n,
{
    if n == 0 || n > ts.len() {
        Seq::empty()
    } else if n == 1 {
        temp_text(ts[0])
    } else {
        temps_text(ts, (n - 1) as nat) + ", "@ + temp_text(ts[n - 1])
    }
}

/// A list of temps as it is written: in round brackets, but a single temp
/// without them unless `always_brace` asks for them.
pub open spec fn locals_text(ts: Seq<usize>, always_brace: bool) -> Seq<char> {
    if !always_brace && ts.len() == 1 {
        temp_text(ts[0])
    } else {
        "("@ + temps_text(ts, ts.len()) + ")"@
    }
}

/// How a jump writes its target: the offset of the label in `code`, or,
/// where the code does not hold the label, `L` and the number of the
/// label.
pub open spec fn label_text(code: Seq<BytecodeV>, l: Label) -> Seq<char> {
    match label_offset(code, l, code.len()) {
        Some(k) => dec_digits(k as nat),
        None => "L"@ + dec_digits(l.0 as nat),
    }
}

/// What is written behind a call that may abort.
pub open spec fn abort_text(code: Seq<BytecodeV>, aa: Option<AbortAction>) -> Seq<char> {
    match aa {
        Some(action) => " on_abort goto "@ + label_text(code, action.0) + " with "@ + temp_text(
            action.1,
        ),
        None => Seq::empty(),
    }
}

/// What is written before the operation of a call: its results and
/// `:=`, where it has results.
pub open spec fn results_text(dsts: Seq<usize>) -> Seq<char> {
    if dsts.len() == 0 {
        Seq::empty()
    } else {
        locals_text(dsts, false) + " := "@
    }
}

impl<'a> StacklessBytecodeGenerator<'a> {
    /// How an instruction of `code` is written.
    pub open spec fn bytecode_text(&self, code: Seq<BytecodeV>, bc: BytecodeV) -> Seq<char> {
        match bc {
            BytecodeV::Assign(_, d, s, AssignKind::Copy) => temp_text(d) + " := copy("@ + temp_text(
                s,
            ) + ")"@,
            BytecodeV::Assign(_, d, s, AssignKind::Move) => temp_text(d) + " := move("@ + temp_text(
                s,
            ) + ")"@,
            BytecodeV::Assign(_, d, s, AssignKind::Store) => temp_text(d) + " := "@ + temp_text(s),
            BytecodeV::Call(_, dsts, op, srcs, aa) => results_text(dsts) + self.operation_text(op)
                + locals_text(srcs, true) + abort_text(code, aa),
            BytecodeV::Ret(_, srcs) => "return "@ + locals_text(srcs, false),
            BytecodeV::Load(_, d, c) => temp_text(d) + " := "@ + constant_text(c),
            BytecodeV::Branch(_, t, e, c) => "if ("@ + temp_text(c) + ") goto "@ + label_text(code, t)
                + " else goto "@ + label_text(code, e),
            BytecodeV::Jump(_, l) => "goto "@ + label_text(code, l),
            BytecodeV::Label(_, l) => "label L"@ + dec_digits(l.0 as nat),
            BytecodeV::Abort(_, s) => "abort("@ + temp_text(s) + ")"@,
            BytecodeV::Nop(_) => "nop"@,
        }
    }
}

fn temps_str(ts: &Vec<usize>) -> (r: String)
    ensures
        r@ == temps_text(ts@, ts@.len()),
{
    let mut out = String::new();
    let mut i: usize = 0;
    while i < ts.len()
        invariant
            i <= ts.len(),
            out@ == temps_text(ts@, i as nat),
        decreases ts.len() - i,
    {
        if i > 0 {
            out.append(", ");
        }
        let item = temp_str(ts[i]);
        out.append(item.as_str());
        proof {
            if i == 0 {
                assert(Seq::<char>::empty() + item@ =~= item@);
            }
        }
        i += 1;
    }
    out
}

fn locals_str(ts: &Vec<usize>, always_brace: bool) -> (r: String)
    ensures
        r@ == locals_text(ts@, always_brace),
{
    if !always_brace && ts.len() == 1 {
        temp_str(ts[0])
    } else {
        let mut out = String::from_str("(");
        out.append(temps_str(ts).as_str());
        out.append(")");
        out
    }
}

fn label_str(code: &Vec<Bytecode>, l: Label) -> (r: String)
    ensures
        r@ == label_text(code_view(code@), l),
{
    match find_label(code, l) {
        Some(k) => u128_decimal(k as u128),
        None => {
            let mut out = String::from_str("L");
            out.append(u128_decimal(l.0 as u128).as_str());
            out
        },
    }
}

/// The instruction `bytecode` of `code` as the lifter `stbgr` writes it.
pub fn display(bytecode: &Bytecode, code: &Vec<Bytecode>, stbgr: &StacklessBytecodeGenerator) -> (r:
    String)
    requires
        stbgr.wf(),
    ensures
        r@ == stbgr.bytecode_text(code_view(code@), bytecode@),
{
    match bytecode {
        Bytecode::Assign(_, d, s, kind) => {
            let mut out = temp_str(*d);
            match kind {
                AssignKind::Copy => {
                    out.append(" := copy(");
                    out.append(temp_str(*s).as_str());
                    out.append(")");
                },
                AssignKind::Move => {
                    out.append(" := move(");
                    out.append(temp_str(*s).as_str());
                    out.append(")");
                },
                AssignKind::Store => {
                    out.append(" := ");
                    out.append(temp_str(*s).as_str());
                },
            }
            out
        },
        Bytecode::Call(_, dsts, op, srcs, aa) => {
            let mut out = String::new();
            if dsts.len() > 0 {
                out.append(locals_str(dsts, false).as_str());
                out.append(" := ");
                assert(out@ =~= results_text(dsts@));
            }
            out.append(stbgr.operation_str(op).as_str());
            out.append(locals_str(srcs, true).as_str());
            match aa {
                Some(action) => {
                    let mut tail = String::from_str(" on_abort goto ");
                    tail.append(label_str(code, action.0).as_str());
                    tail.append(" with ");
                    tail.append(temp_str(action.1).as_str());
                    out.append(tail.as_str());
                },
                None => {
                    assert(out@ + Seq::<char>::empty() =~= out@);
                },
            }
            out
        },
        Bytecode::Ret(_, srcs) => {
            let mut out = String::from_str("return ");
            out.append(locals_str(srcs, false).as_str());
            out
        },
        Bytecode::Load(_, d, c) => {
            let mut out = temp_str(*d);
            out.append(" := ");
            out.append(constant_str(c).as_str());
            out
        },
        Bytecode::Branch(_, t, e, c) => {
            let mut out = String::from_str("if (");
            out.append(temp_str(*c).as_str());
            out.append(") goto ");
            out.append(label_str(code, *t).as_str());
            out.append(" else goto ");
            out.append(label_str(code, *e).as_str());
            out
        },
        Bytecode::Jump(_, l) => {
            let mut out = String::from_str("goto ");
            out.append(label_str(code, *l).as_str());
            out
        },
        Bytecode::Label(_, l) => {
            let mut out = String::from_str("label L");
            out.append(u128_decimal(l.0 as u128).as_str());
            out
        },
        Bytecode::Abort(_, s) => {
            let mut out = String::from_str("abort(");
            out.append(temp_str(*s).as_str());
            out.append(")");
            out
        },
        Bytecode::Nop(_) => String::from_str("nop"),
    }
}

/// `text` behind as many blanks as it lacks to `width` characters.
pub open spec fn padded(text: Seq<char>, width: nat) -> Seq<char>
    decreases width,
{
    if text.len() >= width {
        text
    } else {
        " "@ + padded(text, (width - 1) as nat)
    }
}

fn pad(text: String, width: usize) -> (r: String)
    ensures
        r@ == padded(text@, width as nat),
    decreases width,
{
    if text.as_str().unicode_len() >= width {
        text
    } else {
        let mut out = String::from_str(" ");
        out.append(pad(text, width - 1).as_str());
        out
    }
}

/// A line of a listing: the offset, at least three characters wide, a
/// colon and a blank, and the instruction.
pub open spec fn line_text(offset: nat, instruction: Seq<char>) -> Seq<char> {
    padded(dec_digits(offset), 3) + ": "@ + instruction
}

/// The instruction `code` at `offset` of the function's `listing`, as a
/// line.
pub fn pretty_print_bytecode(
    listing: &Vec<Bytecode>,
    offset: usize,
    code: &Bytecode,
    stbgr: &StacklessBytecodeGenerator,
) -> (r: String)
    requires
        stbgr.wf(),
    ensures
        r@ == line_text(offset as nat, stbgr.bytecode_text(code_view(listing@), code@)),
{
    let mut out = pad(u128_decimal(offset as u128), 3);
    out.append(": ");
    out.append(display(code, listing, stbgr).as_str());
    out
}

impl<'a> StacklessBytecodeGenerator<'a> {
    /// How a dependency tree is written: the tree of an operation as the
    /// operation and in round brackets its subtrees, with a comma and a
    /// blank between them; the tree of a constant as the constant; that
    /// of a parameter as its type; that of an assignment as its subtrees
    /// one behind the other; that of any other instruction as nothing.
    pub open spec fn node_text(&self, n: NodeV) -> Seq<char>
        decreases n, 1nat,
    {
        match n.value {
            ValV::ByteCode(BytecodeV::Call(_, _, op, _, _)) => self.operation_text(op) + "("@
                + self.nodes_text(n, n.subnodes.len()) + ")"@,
            ValV::ByteCode(_) => Seq::empty(),
            ValV::Const(c) => constant_text(c),
            ValV::ParamType(t) => self.type_text(t),
            ValV::AssignedFrom(_) => self.nodes_joined(n, n.subnodes.len()),
        }
    }

    /// The first `k` subtrees of `n`, with a comma and a blank between
    /// them.
    pub open spec fn nodes_text(&self, n: NodeV, k: nat) -> Seq<char>
        decreases n, 0nat, k,
    {
        if k == 0 || k > n.subnodes.len() {
            Seq::empty()
        } else if k == 1 {
            self.node_text(n.subnodes[0])
        } else {
            self.nodes_text(n, (k - 1) as nat) + ", "@ + self.node_text(n.subnodes[k - 1])
        }
    }

    /// The first `k` subtrees of `n`, one behind the other.
    pub open spec fn nodes_joined(&self, n: NodeV, k: nat) -> Seq<char>
        decreases n, 0nat, k,
    {
        if k == 0 || k > n.subnodes.len() {
            Seq::empty()
        } else {
            self.nodes_joined(n, (k - 1) as nat) + self.node_text(n.subnodes[k - 1])
        }
    }
}

impl Node {
    /// The tree as the lifter `stbgr` writes it.
    pub fn text(&self, stbgr: &StacklessBytecodeGenerator) -> (r: String)
        requires
            stbgr.wf(),
        ensures
            r@ == stbgr.node_text(self@),
        decreases self,
    {
        broadcast use lemma_node_view;

        match &self.value {
            Val::ByteCode(bc) => match bc {
                Bytecode::Call(_, _, op, _, _) => {
                    let mut out = stbgr.operation_str(op);
                    out.append("(");
                    let mut list = String::new();
                    let mut i: usize = 0;
                    while i < self.subnodes.len()
                        invariant
                            stbgr.wf(),
                            i <= self.subnodes.len(),
                            self@.subnodes == nodes_view(self.subnodes@),
                            list@ == stbgr.nodes_text(self@, i as nat),
                        decreases self.subnodes.len() - i,
                    {
                        if i > 0 {
                            list.append(", ");
                        }
                        let item = self.subnodes[i].text(stbgr);
                        list.append(item.as_str());
                        proof {
                            assert(self@.subnodes[i as int] == self.subnodes@[i as int]@);
                            if i == 0 {
                                assert(Seq::<char>::empty() + item@ =~= item@);
                            }
                        }
                        i += 1;
                    }
                    out.append(list.as_str());
                    out.append(")");
                    out
                },
                _ => String::new(),
            },
            Val::Const(c) => constant_str(c),
            Val::ParamType(t) => stbgr.display_type(t),
            Val::AssignedFrom(_) => {
                let mut out = String::new();
                let mut i: usize = 0;
                while i < self.subnodes.len()
                    invariant
                        stbgr.wf(),
                        i <= self.subnodes.len(),
                        self@.subnodes == nodes_view(self.subnodes@),
                        out@ == stbgr.nodes_joined(self@, i as nat),
                    decreases self.subnodes.len() - i,
                {
                    let item = self.subnodes[i].text(stbgr);
                    out.append(item.as_str());
                    proof {
                        assert(self@.subnodes[i as int] == self.subnodes@[i as int]@);
                    }
                    i += 1;
                }
                out
            },
        }
    }

    /// Writes the tree behind what `res` holds.
    pub fn display(&self, res: &mut String, stbgr: &StacklessBytecodeGenerator)
        requires
            stbgr.wf(),
        ensures
            final(res)@ == old(res)@ + stbgr.node_text(self@),
    {
        res.append(self.text(stbgr).as_str());
    }
}

} // verus!
