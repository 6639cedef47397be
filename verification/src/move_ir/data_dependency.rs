use vstd::prelude::*;
use vstd::arithmetic::power2::pow2;
use crate::move_ir::bytecode::{
    clone_bytecode, clone_constant, AssignKind, Bytecode, BytecodeV, Constant, ConstantV,
    Operation, OperationV,
};
use crate::move_ir::bytecode::code_view;
use crate::move_ir::generate_bytecode::StacklessBytecodeGenerator;
use crate::move_ir::packages::{first_named, Packages};
use crate::move_ir::types::{clone_type, lemma_type_view, types_view, PrimitiveType, Type, TypeV};
use crate::move_ir::u256;
use crate::move_ir::u256::{two_256, U256};

verus! {

/// What a node of a dependency tree stands for.
#[derive(Debug, PartialEq, Eq)]
pub enum Val {
    /// The result of an instruction.
    ByteCode(Bytecode),
    /// A constant.
    Const(Constant),
    /// A parameter of the function, by its type.
    ParamType(Type),
    /// The destination of a copy, a move or a store.
    AssignedFrom(Bytecode),
}

pub ghost enum ValV {
    ByteCode(BytecodeV),
    Const(ConstantV),
    ParamType(TypeV),
    AssignedFrom(BytecodeV),
}

impl View for Val {
    type V = ValV;

    open spec fn view(&self) -> ValV {
        match *self {
            Val::ByteCode(bc) => ValV::ByteCode(bc@),
            Val::Const(c) => ValV::Const(c@),
            Val::ParamType(t) => ValV::ParamType(t@),
            Val::AssignedFrom(bc) => ValV::AssignedFrom(bc@),
        }
    }
}

/// The provenance of a temp: what it was computed from, an upper bound on
/// its unsigned value where it has one, and whether it is built from
/// constants alone.
#[derive(Debug, PartialEq, Eq)]
pub struct Node {
    pub value: Val,
    pub subnodes: Vec<Node>,
    pub max: Option<U256>,
    pub is_constant: bool,
}

pub ghost struct NodeV {
    pub value: ValV,
    pub subnodes: Seq<NodeV>,
    pub max: Option<nat>,
    pub is_constant: bool,
}

/// The value behind an optional bound.
pub open spec fn bound(m: Option<U256>) -> Option<nat> {
    match m {
        Some(x) => Some(x@),
        None => None,
    }
}

pub open spec fn node_view(n: Node) -> NodeV
    decreases n,
{
    NodeV {
        value: n.value@,
        subnodes: Seq::new(
            n.subnodes@.len(),
            |i: int| if 0 <= i < n.subnodes@.len() { node_view(n.subnodes@[i]) } else { arbitrary() },
        ),
        max: bound(n.max),
        is_constant: n.is_constant,
    }
}

impl View for Node {
    type V = NodeV;

    open spec fn view(&self) -> NodeV {
        node_view(*self)
    }
}

pub open spec fn nodes_view(ns: Seq<Node>) -> Seq<NodeV> {
    Seq::new(ns.len(), |i: int| ns[i]@)
}

pub broadcast proof fn lemma_node_view(n: Node)
    ensures
        #[trigger] node_view(n) == (NodeV {
            value: n.value@,
            subnodes: nodes_view(n.subnodes@),
            max: bound(n.max),
            is_constant: n.is_constant,
        }),
{
    assert(node_view(n).subnodes =~= nodes_view(n.subnodes@));
}

pub fn clone_val(v: &Val) -> (r: Val)
    ensures
        r@ == v@,
{
    match v {
        Val::ByteCode(bc) => Val::ByteCode(clone_bytecode(bc)),
        Val::Const(c) => Val::Const(clone_constant(c)),
        Val::ParamType(t) => Val::ParamType(clone_type(t)),
        Val::AssignedFrom(bc) => Val::AssignedFrom(clone_bytecode(bc)),
    }
}

pub fn clone_node(n: &Node) -> (r: Node)
    ensures
        r@ == n@,
    decreases n,
{
    broadcast use lemma_node_view;

    Node {
        value: clone_val(&n.value),
        subnodes: clone_nodes(&n.subnodes),
        max: n.max,
        is_constant: n.is_constant,
    }
}

pub fn clone_nodes(ns: &Vec<Node>) -> (r: Vec<Node>)
    ensures
        nodes_view(r@) == nodes_view(ns@),
    decreases ns,
{
    let mut out: Vec<Node> = Vec::new();
    let mut i: usize = 0;
    while i < ns.len()
        invariant
            i <= ns.len(),
            out@.len() == i,
            forall|j: int| 0 <= j < i ==> out@[j]@ == ns@[j]@,
        decreases ns.len() - i,
    {
        out.push(clone_node(&ns[i]));
        i += 1;
    }
    assert(nodes_view(out@) =~= nodes_view(ns@));
    out
}

/// Whether the tree holds constants and calls on constant trees alone: a
/// parameter is not constant, and an assignment is as constant as what it
/// was assigned from.
pub open spec fn is_const(n: NodeV) -> bool
    decreases n,
{
    match n.value {
        ValV::ByteCode(bc) => bc is Call ==> forall|i: int|
            0 <= i < n.subnodes.len() ==> is_const(#[trigger] n.subnodes[i]),
        ValV::Const(_) => true,
        ValV::ParamType(_) => false,
        ValV::AssignedFrom(_) => n.subnodes.len() > 0 && is_const(n.subnodes[0]),
    }
}

/// The locals that the tree reaches by a borrow of a local or by a copy,
/// in the order in which a walk from the root meets them.
pub open spec fn copied_locals(n: NodeV) -> Seq<usize>
    decreases n, 1nat,
{
    match n.value {
        ValV::ByteCode(BytecodeV::Call(_, _, OperationV::BorrowLoc, srcs, _)) => if srcs.len() > 0 {
            seq![srcs[0]]
        } else {
            Seq::empty()
        },
        ValV::ByteCode(_) => copied_locals_of(n, n.subnodes.len()),
        ValV::AssignedFrom(BytecodeV::Assign(_, _, src, AssignKind::Copy)) => seq![src],
        _ => Seq::empty(),
    }
}

/// The locals that the first `k` subtrees of `n` reach.
pub open spec fn copied_locals_of(n: NodeV, k: nat) -> Seq<usize>
    decreases n, 0nat, k,
{
    if k == 0 || k > n.subnodes.len() {
        Seq::empty()
    } else {
        copied_locals_of(n, (k - 1) as nat) + copied_locals(n.subnodes[k - 1])
    }
}

impl Node {
    pub fn new(value: Val, max: Option<U256>, is_constant: bool) -> (r: Self)
        ensures
            r@ == (NodeV { value: value@, subnodes: Seq::empty(), max: bound(max), is_constant }),
    {
        broadcast use lemma_node_view;

        let r = Node { value, subnodes: Vec::new(), max, is_constant };
        assert(nodes_view(r.subnodes@) =~= Seq::<NodeV>::empty());
        r
    }

    pub fn newy_with_nodes(value: Val, nodes: Vec<Node>, max: Option<U256>, is_constant: bool) -> (r:
        Self)
        ensures
            r@ == (NodeV {
                value: value@,
                subnodes: nodes_view(nodes@),
                max: bound(max),
                is_constant,
            }),
    {
        broadcast use lemma_node_view;

        Node { value, subnodes: nodes, max, is_constant }
    }

    pub fn new_with_node(value: Val, node: Node, max: Option<U256>, is_constant: bool) -> (r: Self)
        ensures
            r@ == (NodeV { value: value@, subnodes: seq![node@], max: bound(max), is_constant }),
    {
        broadcast use lemma_node_view;

        let subnodes = vec![node];
        assert(nodes_view(subnodes@) =~= seq![node@]);
        Node { value, subnodes, max, is_constant }
    }

    pub fn new_with_binary_nodes(
        value: Val,
        lnode: Node,
        rnode: Node,
        max: Option<U256>,
        is_constant: bool,
    ) -> (r: Self)
        ensures
            r@ == (NodeV {
                value: value@,
                subnodes: seq![lnode@, rnode@],
                max: bound(max),
                is_constant,
            }),
    {
        broadcast use lemma_node_view;

        let subnodes = vec![lnode, rnode];
        assert(nodes_view(subnodes@) =~= seq![lnode@, rnode@]);
        Node { value, subnodes, max, is_constant }
    }

    /// Whether the tree holds constants and calls on constant trees alone.
    pub fn is_const(&self) -> (r: bool)
        ensures
            r == is_const(self@),
        decreases self,
    {
        broadcast use lemma_node_view;

        match &self.value {
            Val::ByteCode(bc) => {
                match bc {
                    Bytecode::Call(_, _, _, _, _) => {
                        let mut i: usize = 0;
                        while i < self.subnodes.len()
                            invariant
                                i <= self.subnodes.len(),
                                forall|j: int| 0 <= j < i ==> is_const(#[trigger] self@.subnodes[j]),
                                self@.subnodes == nodes_view(self.subnodes@),
                                self@.value is ByteCode,
                                self@.value->ByteCode_0 is Call,
                            decreases self.subnodes.len() - i,
                        {
                            if !self.subnodes[i].is_const() {
                                assert(!is_const(self@.subnodes[i as int]));
                                return false;
                            }
                            i += 1;
                        }
                        true
                    },
                    _ => true,
                }
            },
            Val::Const(_) => true,
            Val::ParamType(_) => false,
            Val::AssignedFrom(_) => {
                if self.subnodes.len() > 0 {
                    self.subnodes[0].is_const()
                } else {
                    false
                }
            },
        }
    }

    /// Adds to `condtions` the locals that the tree reaches by a borrow of
    /// a local or by a copy.
    pub fn loop_condition_from_copy(&self, condtions: &mut Vec<usize>)
        ensures
            final(condtions)@ == old(condtions)@ + copied_locals(self@),
        decreases self,
    {
        broadcast use lemma_node_view;

        match &self.value {
            Val::ByteCode(bc) => {
                let borrowed: Option<Option<usize>> = match bc {
                    Bytecode::Call(_, _, op, srcs, _) => {
                        match op {
                            Operation::BorrowLoc => {
                                if srcs.len() > 0 {
                                    Some(Some(srcs[0]))
                                } else {
                                    Some(None)
                                }
                            },
                            _ => None,
                        }
                    },
                    _ => None,
                };
                match borrowed {
                    Some(Some(src)) => {
                        condtions.push(src);
                        assert(condtions@ =~= old(condtions)@ + copied_locals(self@));
                    },
                    Some(None) => {
                        assert(condtions@ =~= old(condtions)@ + copied_locals(self@));
                    },
                    None => {
                        let mut i: usize = 0;
                        assert(condtions@ =~= old(condtions)@ + copied_locals_of(self@, 0));
                        while i < self.subnodes.len()
                            invariant
                                i <= self.subnodes.len(),
                                self@.subnodes == nodes_view(self.subnodes@),
                                self@.value is ByteCode,
                                condtions@ == old(condtions)@ + copied_locals_of(self@, i as nat),
                            decreases self.subnodes.len() - i,
                        {
                            let ghost before = condtions@;
                            self.subnodes[i].loop_condition_from_copy(condtions);
                            assert(condtions@ =~= old(condtions)@ + copied_locals_of(
                                self@,
                                (i + 1) as nat,
                            ));
                            i += 1;
                        }
                    },
                }
            },
            Val::AssignedFrom(bc) => {
                match bc {
                    Bytecode::Assign(_, _, idx, kind) => {
                        match kind {
                            AssignKind::Copy => {
                                condtions.push(*idx);
                                assert(condtions@ =~= old(condtions)@ + copied_locals(self@));
                            },
                            _ => {
                                assert(condtions@ =~= old(condtions)@ + copied_locals(self@));
                            },
                        }
                    },
                    _ => {
                        assert(condtions@ =~= old(condtions)@ + copied_locals(self@));
                    },
                }
            },
            _ => {
                assert(condtions@ =~= old(condtions)@ + copied_locals(self@));
            },
        }
    }
}

/// The dependency tree of each temp of a function that has one.
pub struct DataDepent {
    pub data: Vec<Option<Node>>,
}

pub open spec fn table_view(data: Seq<Option<Node>>) -> Seq<Option<NodeV>> {
    Seq::new(
        data.len(),
        |i: int|
            match data[i] {
                Some(n) => Some(n@),
                None => None,
            },
    )
}

/// The tree of the temp `t` in a table of trees, if it has one.
pub open spec fn lookup(table: Seq<Option<NodeV>>, t: usize) -> Option<NodeV> {
    if t < table.len() {
        table[t as int]
    } else {
        None
    }
}

impl View for DataDepent {
    type V = Seq<Option<NodeV>>;

    open spec fn view(&self) -> Seq<Option<NodeV>> {
        table_view(self.data@)
    }
}

impl DataDepent {
    /// A table for `n` temps, none of which has a tree yet.
    pub fn with_temps(n: usize) -> (r: Self)
        ensures
            r@ == Seq::new(n as nat, |i: int| None::<NodeV>),
    {
        let mut data: Vec<Option<Node>> = Vec::new();
        let mut i: usize = 0;
        while i < n
            invariant
                i <= n,
                data@.len() == i,
                forall|j: int| 0 <= j < i ==> data@[j] is None,
            decreases n - i,
        {
            data.push(None);
            i += 1;
        }
        let r = DataDepent { data };
        assert(r@ =~= Seq::new(n as nat, |i: int| None::<NodeV>));
        r
    }

    /// Gives the temp `dst`, which the table has room for, the tree
    /// `node`.
    pub fn insert_or_modify(&mut self, dst: usize, node: Node)
        requires
            dst < old(self)@.len(),
        ensures
            final(self)@ == old(self)@.update(dst as int, Some(node@)),
    {
        self.data.set(dst, Some(node));
        assert(self@ =~= old(self)@.update(dst as int, Some(node@)));
    }

    /// A copy of the tree of the temp `src`, if it has one.
    pub fn get(&self, src: usize) -> (r: Option<Node>)
        ensures
            r is Some <==> lookup(self@, src) is Some,
            r matches Some(n) ==> Some(n@) == lookup(self@, src),
    {
        if src < self.data.len() {
            match &self.data[src] {
                Some(n) => Some(clone_node(n)),
                None => None,
            }
        } else {
            None
        }
    }
}

/// Whether the type is one of the six unsigned integer types.
pub open spec fn spec_is_uint(ty: TypeV) -> bool {
    ty matches TypeV::Primitive(p) && (p == PrimitiveType::U8 || p == PrimitiveType::U16 || p
        == PrimitiveType::U32 || p == PrimitiveType::U64 || p == PrimitiveType::U128 || p
        == PrimitiveType::U256)
}

/// The number of bits of an unsigned integer type, 0 for any other type.
pub open spec fn type_bits(ty: TypeV) -> nat {
    match ty {
        TypeV::Primitive(PrimitiveType::U8) => 8,
        TypeV::Primitive(PrimitiveType::U16) => 16,
        TypeV::Primitive(PrimitiveType::U32) => 32,
        TypeV::Primitive(PrimitiveType::U64) => 64,
        TypeV::Primitive(PrimitiveType::U128) => 128,
        TypeV::Primitive(PrimitiveType::U256) => 256,
        _ => 0,
    }
}

/// The largest value of an unsigned integer type, `2^bits - 1`; none for
/// any other type.
pub open spec fn type_max(ty: TypeV) -> Option<nat> {
    match ty {
        TypeV::Primitive(PrimitiveType::U8) => Some(0xffnat),
        TypeV::Primitive(PrimitiveType::U16) => Some(0xffffnat),
        TypeV::Primitive(PrimitiveType::U32) => Some(0xffff_ffffnat),
        TypeV::Primitive(PrimitiveType::U64) => Some(0xffff_ffff_ffff_ffffnat),
        TypeV::Primitive(PrimitiveType::U128) => Some(0xffff_ffff_ffff_ffff_ffff_ffff_ffff_ffffnat),
        TypeV::Primitive(PrimitiveType::U256) => Some((two_256() - 1) as nat),
        _ => None,
    }
}

/// The value of an unsigned integer constant; none for any other
/// constant.
pub open spec fn uint_of(c: ConstantV) -> Option<nat> {
    match c {
        ConstantV::U8(x) => Some(x as nat),
        ConstantV::U16(x) => Some(x as nat),
        ConstantV::U32(x) => Some(x as nat),
        ConstantV::U64(x) => Some(x as nat),
        ConstantV::U128(x) => Some(x as nat),
        ConstantV::U256(x) => Some(x@),
        _ => None,
    }
}

pub fn is_uint(ty: &Type) -> (r: bool)
    ensures
        r == spec_is_uint(ty@),
{
    broadcast use lemma_type_view;

    match ty {
        Type::Primitive(p) => match p {
            PrimitiveType::U8 | PrimitiveType::U16 | PrimitiveType::U32 | PrimitiveType::U64
            | PrimitiveType::U128 | PrimitiveType::U256 => true,
            _ => false,
        },
        _ => false,
    }
}

/// The number of bits of an unsigned integer type, 0 for any other type.
pub fn get_ubits(ty: &Type) -> (r: u32)
    ensures
        r == type_bits(ty@),
{
    broadcast use lemma_type_view;

    match ty {
        Type::Primitive(PrimitiveType::U8) => 8,
        Type::Primitive(PrimitiveType::U16) => 16,
        Type::Primitive(PrimitiveType::U32) => 32,
        Type::Primitive(PrimitiveType::U64) => 64,
        Type::Primitive(PrimitiveType::U128) => 128,
        Type::Primitive(PrimitiveType::U256) => 256,
        _ => 0,
    }
}

/// The largest value of an unsigned integer type.
pub fn get_uint_max(ty: &Type) -> (r: Option<U256>)
    ensures
        bound(r) == type_max(ty@),
{
    broadcast use lemma_type_view;

    match ty {
        Type::Primitive(PrimitiveType::U8) => Some(U256::new(0xff)),
        Type::Primitive(PrimitiveType::U16) => Some(U256::new(0xffff)),
        Type::Primitive(PrimitiveType::U32) => Some(U256::new(0xffff_ffff)),
        Type::Primitive(PrimitiveType::U64) => Some(U256::new(0xffff_ffff_ffff_ffff)),
        Type::Primitive(PrimitiveType::U128) => Some(U256::new(u128::MAX)),
        Type::Primitive(PrimitiveType::U256) => Some(U256::max_value()),
        _ => None,
    }
}

/// The value of an unsigned integer constant.
pub fn get_uint_constant(constant: &Constant) -> (r: Option<U256>)
    ensures
        bound(r) == uint_of(constant@),
{
    match constant {
        Constant::U8(c) => Some(U256::new(*c as u128)),
        Constant::U16(c) => Some(U256::new(*c as u128)),
        Constant::U32(c) => Some(U256::new(*c as u128)),
        Constant::U64(c) => Some(U256::new(*c as u128)),
        Constant::U128(c) => Some(U256::new(*c)),
        Constant::U256(c) => Some(*c),
        _ => None,
    }
}

/// The smaller of two bounds; none unless both are there.
pub fn get_min_uint(u1: Option<U256>, u2: Option<U256>) -> (r: Option<U256>)
    ensures
        r is Some <==> u1 is Some && u2 is Some,
        r matches Some(m) ==> m@ == if u1->0@ <= u2->0@ {
            u1->0@
        } else {
            u2->0@
        },
{
    match (u1, u2) {
        (Some(a), Some(b)) => Some(a.min(b)),
        _ => None,
    }
}

pub open spec fn min_nat(a: nat, b: nat) -> nat {
    if a <= b {
        a
    } else {
        b
    }
}

/// `a` shifted left by `b` within 256 bits, as the machine does it: of the
/// shift amount only the low 32 bits count, taken modulo 256, and bits
/// shifted past the top are lost.
pub open spec fn shifted(a: nat, b: nat) -> nat {
    (a * pow2(((b % 0x1_0000_0000) % 256) as nat)) % two_256()
}

/// The bound and the constant flag of the result of an arithmetic
/// operation on operands with the bounds `a` and `b` and the constant
/// flags `c1` and `c2`, for a destination of type `ty`. `None` where no
/// bound can be given: a constant remainder or a remainder bound by zero,
/// a constant difference below zero, a sum or product for a destination
/// that is no integer.
pub open spec fn binary_max(
    op: OperationV,
    a: nat,
    b: nat,
    c1: bool,
    c2: bool,
    ty: TypeV,
) -> Option<(nat, bool)> {
    match op {
        OperationV::Mod => if c1 && c2 {
            if b != 0 {
                Some(((a % b) as nat, true))
            } else {
                None
            }
        } else if a < b {
            Some((a, false))
        } else if b != 0 {
            Some(((b - 1) as nat, false))
        } else {
            None
        },
        OperationV::Sub => if c1 && c2 {
            if a >= b {
                Some(((a - b) as nat, true))
            } else {
                None
            }
        } else if c2 && a >= b {
            Some(((a - b) as nat, false))
        } else {
            Some((a, false))
        },
        OperationV::Add | OperationV::BitAnd | OperationV::BitOr | OperationV::Xor => match type_max(
            ty,
        ) {
            Some(m) => Some((min_nat(a + b, m), c1 && c2)),
            None => None,
        },
        OperationV::Mul => match type_max(ty) {
            Some(m) => Some((min_nat(a * b, m), c1 && c2)),
            None => None,
        },
        OperationV::Div | OperationV::Shr => Some((a, c1 && c2)),
        OperationV::Shl => match type_max(ty) {
            Some(m) => Some((min_nat(shifted(a, b), m), false)),
            None => Some((shifted(a, b), false)),
        },
        _ => Some((0, false)),
    }
}

/// The bound and the constant flag of the result of an arithmetic
/// operation, from those of its operands.
pub fn binary_operation_max(
    oper: &Operation,
    u1: Option<U256>,
    u2: Option<U256>,
    c1: bool,
    c2: bool,
    ty: &Type,
) -> (r: Option<(U256, bool)>)
    ensures
        r is Some <==> u1 is Some && u2 is Some && binary_max(
            oper@,
            u1->0@,
            u2->0@,
            c1,
            c2,
            ty@,
        ) is Some,
        r matches Some(x) ==> Some((x.0@, x.1)) == binary_max(oper@, u1->0@, u2->0@, c1, c2, ty@),
{
    let (uint1, uint2) = match (u1, u2) {
        (Some(a), Some(b)) => (a, b),
        _ => {
            return None;
        },
    };
    let ty_max = get_uint_max(ty);
    proof {
        U256::lemma_view_injective(uint1, uint2);
    }
    match oper {
        Operation::Mod => {
            if c1 && c2 {
                if uint2.hi == 0 && uint2.lo == 0 {
                    None
                } else {
                    Some((u256::rem(uint1, uint2), true))
                }
            } else if uint1.lt(&uint2) {
                Some((uint1, false))
            } else if uint2.hi == 0 && uint2.lo == 0 {
                None
            } else {
                Some((u256::sub(uint2, U256::new(1)), false))
            }
        },
        Operation::Sub => {
            if c1 && c2 {
                if uint2.le(&uint1) {
                    Some((u256::sub(uint1, uint2), true))
                } else {
                    None
                }
            } else if c2 && uint2.le(&uint1) {
                Some((u256::sub(uint1, uint2), false))
            } else {
                Some((uint1, false))
            }
        },
        Operation::Add | Operation::BitAnd | Operation::BitOr | Operation::Xor => {
            match ty_max {
                Some(m) => {
                    let (u, flag) = u256::overflowing_add(uint1, uint2);
                    let res = if flag {
                        m
                    } else {
                        u.min(m)
                    };
                    Some((res, c1 && c2))
                },
                None => None,
            }
        },
        Operation::Mul => {
            match ty_max {
                Some(m) => {
                    let (u, flag) = u256::overflowing_mul(uint1, uint2);
                    let res = if flag {
                        m
                    } else {
                        u.min(m)
                    };
                    Some((res, c1 && c2))
                },
                None => None,
            }
        },
        Operation::Div | Operation::Shr => Some((uint1, c1 && c2)),
        Operation::Shl => {
            let s = u256::wrapping_shl(uint1, uint2.as_u32());
            match ty_max {
                Some(m) => Some((s.min(m), false)),
                None => Some((s, false)),
            }
        },
        _ => Some((U256::zero(), false)),
    }
}

/// The trees of the temps `srcs`, if each of them has one.
pub open spec fn lookup_all(table: Seq<Option<NodeV>>, srcs: Seq<usize>) -> Option<Seq<NodeV>> {
    if forall|i: int| 0 <= i < srcs.len() ==> lookup(table, #[trigger] srcs[i]) is Some {
        Some(Seq::new(srcs.len(), |i: int| lookup(table, srcs[i])->0))
    } else {
        None
    }
}

/// The tree of the result of the instruction `instr`.
pub open spec fn result_node(
    instr: BytecodeV,
    subnodes: Seq<NodeV>,
    max: Option<nat>,
    is_constant: bool,
) -> NodeV {
    NodeV { value: ValV::ByteCode(instr), subnodes, max, is_constant }
}

/// The tree of a parameter of type `ty`.
pub open spec fn param_node(ty: TypeV) -> NodeV {
    NodeV { value: ValV::ParamType(ty), subnodes: Seq::empty(), max: type_max(ty), is_constant: false }
}

/// The table that the analysis of a function starts from: a tree for
/// each of the first `n_params` temps, none for the others.
pub open spec fn init_table(types: Seq<TypeV>, n_params: nat) -> Seq<Option<NodeV>> {
    Seq::new(
        types.len(),
        |i: int|
            if i < n_params {
                Some(param_node(types[i]))
            } else {
                None
            },
    )
}

/// The table after each of the first `k` of `dsts` is given the tree of a
/// call with the subtrees `nodes`, bounded by its own type; `None` where
/// the table has no room for one of them.
pub open spec fn set_results(
    types: Seq<TypeV>,
    table: Seq<Option<NodeV>>,
    instr: BytecodeV,
    dsts: Seq<usize>,
    nodes: Seq<NodeV>,
    k: nat,
) -> Option<Seq<Option<NodeV>>>
    decreases k,
{
    if k == 0 {
        Some(table)
    } else {
        match set_results(types, table, instr, dsts, nodes, (k - 1) as nat) {
            Some(t) => {
                let d = dsts[k - 1];
                if d < t.len() && d < types.len() {
                    Some(
                        t.update(
                            d as int,
                            Some(result_node(instr, nodes, type_max(types[d as int]), false)),
                        ),
                    )
                } else {
                    None
                }
            },
            None => None,
        }
    }
}

/// The bound of the field at place `i` of `n_fields` that an unpacking of
/// the tree `packed` yields, for a destination of type `ty`: the bound of
/// the subtree at that place where the tree has one subtree for each
/// field and that subtree has a bound, else the bound of the type.
pub open spec fn unpacked_max(packed: NodeV, n_fields: nat, i: int, ty: TypeV) -> Option<nat> {
    if packed.subnodes.len() == n_fields && packed.subnodes[i].max is Some {
        packed.subnodes[i].max
    } else {
        type_max(ty)
    }
}

/// The table after each of the first `k` of `dsts` is given the tree of
/// an unpacking of `packed`.
pub open spec fn set_unpacked(
    types: Seq<TypeV>,
    table: Seq<Option<NodeV>>,
    instr: BytecodeV,
    dsts: Seq<usize>,
    packed: NodeV,
    k: nat,
) -> Option<Seq<Option<NodeV>>>
    decreases k,
{
    if k == 0 {
        Some(table)
    } else {
        match set_unpacked(types, table, instr, dsts, packed, (k - 1) as nat) {
            Some(t) => {
                let d = dsts[k - 1];
                if d < t.len() && d < types.len() {
                    Some(
                        t.update(
                            d as int,
                            Some(
                                result_node(
                                    instr,
                                    seq![packed],
                                    unpacked_max(packed, dsts.len(), k - 1, types[d as int]),
                                    false,
                                ),
                            ),
                        ),
                    )
                } else {
                    None
                }
            },
            None => None,
        }
    }
}

/// What a call of a function contributes as subtrees.
pub ghost enum Callee {
    /// The analysis cannot go on.
    Stuck,
    /// The callee is not looked into: the trees of the arguments.
    Arguments,
    /// The trees of what the callee returns.
    Returns(Seq<NodeV>),
}

/// The table after an operation with one result, the first of `dsts`,
/// which gets the tree `node`.
pub open spec fn set_first(
    types: Seq<TypeV>,
    table: Seq<Option<NodeV>>,
    dsts: Seq<usize>,
    node: NodeV,
) -> Option<Seq<Option<NodeV>>> {
    if dsts.len() >= 1 && dsts[0] < table.len() {
        Some(table.update(dsts[0] as int, Some(node)))
    } else {
        None
    }
}

/// The type of the first of `dsts`.
pub open spec fn first_type(types: Seq<TypeV>, dsts: Seq<usize>) -> Option<TypeV> {
    if dsts.len() >= 1 && dsts[0] < types.len() {
        Some(types[dsts[0] as int])
    } else {
        None
    }
}

/// The table after a call of the operation `op`; `None` where the
/// analysis cannot go on: an operand has no tree, a result has no place or
/// no type, or an arithmetic result has no bound.
pub open spec fn step_call(
    types: Seq<TypeV>,
    table: Seq<Option<NodeV>>,
    instr: BytecodeV,
    dsts: Seq<usize>,
    op: OperationV,
    srcs: Seq<usize>,
    callee: Callee,
) -> Option<Seq<Option<NodeV>>> {
    if op is Function {
        match callee {
            Callee::Stuck => None,
            Callee::Returns(nodes) => set_results(types, table, instr, dsts, nodes, dsts.len()),
            Callee::Arguments => match lookup_all(table, srcs) {
                Some(nodes) => set_results(types, table, instr, dsts, nodes, dsts.len()),
                None => None,
            },
        }
    } else if op.is_arithmetic() {
        if srcs.len() >= 2 && lookup(table, srcs[0]) is Some && lookup(table, srcs[1]) is Some
            && first_type(types, dsts) is Some {
            let l = lookup(table, srcs[0])->0;
            let r = lookup(table, srcs[1])->0;
            if l.max is Some && r.max is Some {
                match binary_max(
                    op,
                    l.max->0,
                    r.max->0,
                    l.is_constant,
                    r.is_constant,
                    first_type(types, dsts)->0,
                ) {
                    Some((m, c)) => set_first(
                        types,
                        table,
                        dsts,
                        result_node(instr, seq![l, r], Some(m), c),
                    ),
                    None => None,
                }
            } else {
                None
            }
        } else {
            None
        }
    } else if op.is_comparison() {
        if srcs.len() >= 2 && lookup(table, srcs[0]) is Some && lookup(table, srcs[1]) is Some {
            set_first(
                types,
                table,
                dsts,
                result_node(
                    instr,
                    seq![lookup(table, srcs[0])->0, lookup(table, srcs[1])->0],
                    None,
                    false,
                ),
            )
        } else {
            None
        }
    } else if op.is_cast() {
        if srcs.len() >= 1 && lookup(table, srcs[0]) is Some && first_type(types, dsts) is Some {
            let n = lookup(table, srcs[0])->0;
            match (n.max, type_max(first_type(types, dsts)->0)) {
                (Some(a), Some(b)) => set_first(
                    types,
                    table,
                    dsts,
                    result_node(instr, seq![n], Some(min_nat(a, b)), n.is_constant),
                ),
                _ => None,
            }
        } else {
            None
        }
    } else if op is Not {
        if srcs.len() >= 1 && lookup(table, srcs[0]) is Some {
            set_first(
                types,
                table,
                dsts,
                result_node(instr, seq![lookup(table, srcs[0])->0], None, false),
            )
        } else {
            None
        }
    } else if op is Pack {
        match lookup_all(table, srcs) {
            Some(nodes) => set_first(types, table, dsts, result_node(instr, nodes, None, false)),
            None => None,
        }
    } else if op is Unpack {
        if srcs.len() >= 1 && lookup(table, srcs[0]) is Some {
            set_unpacked(types, table, instr, dsts, lookup(table, srcs[0])->0, dsts.len())
        } else {
            None
        }
    } else if op is Exists || op is FreezeRef || op is BorrowField || op is BorrowLoc
        || op is ReadRef || op is BorrowGlobal || op is MoveFrom {
        if srcs.len() >= 1 && lookup(table, srcs[0]) is Some && first_type(types, dsts) is Some {
            set_first(
                types,
                table,
                dsts,
                result_node(
                    instr,
                    seq![lookup(table, srcs[0])->0],
                    type_max(first_type(types, dsts)->0),
                    false,
                ),
            )
        } else {
            None
        }
    } else {
        Some(table)
    }
}

/// The table after the instruction `instr`.
pub open spec fn step(
    types: Seq<TypeV>,
    table: Seq<Option<NodeV>>,
    instr: BytecodeV,
    callee: Callee,
) -> Option<Seq<Option<NodeV>>> {
    match instr {
        BytecodeV::Load(_, d, c) => if d < table.len() {
            Some(
                table.update(
                    d as int,
                    Some(
                        NodeV {
                            value: ValV::Const(c),
                            subnodes: Seq::empty(),
                            max: uint_of(c),
                            is_constant: true,
                        },
                    ),
                ),
            )
        } else {
            None
        },
        BytecodeV::Assign(_, d, s, _) => if d < table.len() && lookup(table, s) is Some {
            let n = lookup(table, s)->0;
            Some(
                table.update(
                    d as int,
                    Some(
                        NodeV {
                            value: ValV::AssignedFrom(instr),
                            subnodes: seq![n],
                            max: n.max,
                            is_constant: false,
                        },
                    ),
                ),
            )
        } else {
            None
        },
        BytecodeV::Call(_, dsts, op, srcs, _) => step_call(types, table, instr, dsts, op, srcs, callee),
        _ => Some(table),
    }
}

/// What a call of a function contributes as subtrees.
pub enum CalleeNodes {
    Stuck,
    Arguments,
    Returns(Vec<Node>),
}

impl View for CalleeNodes {
    type V = Callee;

    open spec fn view(&self) -> Callee {
        match *self {
            CalleeNodes::Stuck => Callee::Stuck,
            CalleeNodes::Arguments => Callee::Arguments,
            CalleeNodes::Returns(ns) => Callee::Returns(nodes_view(ns@)),
        }
    }
}

/// The kinds of operation that the analysis tells apart.
#[derive(Clone, Copy, Debug, PartialEq, Eq, Structural)]
pub enum OpClass {
    Function,
    Arithmetic,
    Comparison,
    Cast,
    Not,
    Pack,
    Unpack,
    Unary,
    Other,
}

pub open spec fn is_unary_class(op: OperationV) -> bool {
    op is Exists || op is FreezeRef || op is BorrowField || op is BorrowLoc || op is ReadRef
        || op is BorrowGlobal || op is MoveFrom
}

pub fn op_class(op: &Operation) -> (r: OpClass)
    ensures
        (r == OpClass::Function) == (op@ is Function),
        (r == OpClass::Arithmetic) == op@.is_arithmetic(),
        (r == OpClass::Comparison) == op@.is_comparison(),
        (r == OpClass::Cast) == op@.is_cast(),
        (r == OpClass::Not) == (op@ is Not),
        (r == OpClass::Pack) == (op@ is Pack),
        (r == OpClass::Unpack) == (op@ is Unpack),
        (r == OpClass::Unary) == is_unary_class(op@),
{
    match op {
        Operation::Function(_, _, _) => OpClass::Function,
        Operation::Add | Operation::Sub | Operation::Mul | Operation::Div | Operation::Mod
        | Operation::BitOr | Operation::BitAnd | Operation::Xor | Operation::Shl
        | Operation::Shr => OpClass::Arithmetic,
        Operation::Lt | Operation::Gt | Operation::Le | Operation::Ge | Operation::Or
        | Operation::And | Operation::Eq | Operation::Neq => OpClass::Comparison,
        Operation::CastU8 | Operation::CastU16 | Operation::CastU32 | Operation::CastU64
        | Operation::CastU128 | Operation::CastU256 => OpClass::Cast,
        Operation::Not => OpClass::Not,
        Operation::Pack(_, _, _) => OpClass::Pack,
        Operation::Unpack(_, _, _) => OpClass::Unpack,
        Operation::Exists(_, _, _) | Operation::FreezeRef | Operation::BorrowField(_, _, _, _)
        | Operation::BorrowLoc | Operation::ReadRef | Operation::BorrowGlobal(_, _, _)
        | Operation::MoveFrom(_, _, _) => OpClass::Unary,
        _ => OpClass::Other,
    }
}

/// Copies of the trees of the temps `srcs`, if each of them has one.
pub fn get_all(table: &DataDepent, srcs: &Vec<usize>) -> (r: Option<Vec<Node>>)
    ensures
        r is Some <==> lookup_all(table@, srcs@) is Some,
        r matches Some(v) ==> Some(nodes_view(v@)) == lookup_all(table@, srcs@),
{
    let mut out: Vec<Node> = Vec::new();
    let mut i: usize = 0;
    while i < srcs.len()
        invariant
            i <= srcs.len(),
            out@.len() == i,
            forall|j: int| 0 <= j < i ==> lookup(table@, #[trigger] srcs@[j]) is Some,
            forall|j: int| 0 <= j < i ==> out@[j]@ == lookup(table@, srcs@[j])->0,
        decreases srcs.len() - i,
    {
        match table.get(srcs[i]) {
            Some(n) => {
                out.push(n);
            },
            None => {
                return None;
            },
        }
        i += 1;
    }
    assert(nodes_view(out@) =~= lookup_all(table@, srcs@)->0);
    Some(out)
}

fn set_results_exec(
    types: &Vec<Type>,
    table: &mut DataDepent,
    instr: &Bytecode,
    dsts: &Vec<usize>,
    nodes: &Vec<Node>,
) -> (ok: bool)
    ensures
        ok == (set_results(
            types_view(types@),
            old(table)@,
            instr@,
            dsts@,
            nodes_view(nodes@),
            dsts@.len(),
        ) is Some),
        ok ==> Some(final(table)@) == set_results(
            types_view(types@),
            old(table)@,
            instr@,
            dsts@,
            nodes_view(nodes@),
            dsts@.len(),
        ),
{
    let ghost tv = types_view(types@);
    let ghost t0 = table@;
    let ghost nv = nodes_view(nodes@);
    let mut k: usize = 0;
    while k < dsts.len()
        invariant
            k <= dsts.len(),
            tv == types_view(types@),
            nv == nodes_view(nodes@),
            t0 == old(table)@,
            Some(table@) == set_results(tv, t0, instr@, dsts@, nv, k as nat),
        decreases dsts.len() - k,
    {
        let d = dsts[k];
        if d < table.data.len() && d < types.len() {
            let node = Node::newy_with_nodes(
                Val::ByteCode(clone_bytecode(instr)),
                clone_nodes(nodes),
                get_uint_max(&types[d]),
                false,
            );
            table.insert_or_modify(d, node);
        } else {
            proof {
                assert(table@.len() == table.data@.len());
                assert(tv.len() == types@.len());
                assert(set_results(tv, t0, instr@, dsts@, nv, (k + 1) as nat) is None);
                lemma_set_results_fails(tv, t0, instr@, dsts@, nv, (k + 1) as nat, dsts@.len());
            }
            return false;
        }
        k += 1;
    }
    true
}

/// Once a destination has no place, none of the later tables is there.
proof fn lemma_set_results_fails(
    types: Seq<TypeV>,
    table: Seq<Option<NodeV>>,
    instr: BytecodeV,
    dsts: Seq<usize>,
    nodes: Seq<NodeV>,
    k: nat,
    n: nat,
)
    requires
        k <= n,
        set_results(types, table, instr, dsts, nodes, k) is None,
    ensures
        set_results(types, table, instr, dsts, nodes, n) is None,
    decreases n,
{
    if k < n {
        lemma_set_results_fails(types, table, instr, dsts, nodes, k, (n - 1) as nat);
    }
}

proof fn lemma_set_unpacked_fails(
    types: Seq<TypeV>,
    table: Seq<Option<NodeV>>,
    instr: BytecodeV,
    dsts: Seq<usize>,
    packed: NodeV,
    k: nat,
    n: nat,
)
    requires
        k <= n,
        set_unpacked(types, table, instr, dsts, packed, k) is None,
    ensures
        set_unpacked(types, table, instr, dsts, packed, n) is None,
    decreases n,
{
    if k < n {
        lemma_set_unpacked_fails(types, table, instr, dsts, packed, k, (n - 1) as nat);
    }
}

fn set_unpacked_exec(
    types: &Vec<Type>,
    table: &mut DataDepent,
    instr: &Bytecode,
    dsts: &Vec<usize>,
    packed: &Node,
) -> (ok: bool)
    ensures
        ok == (set_unpacked(types_view(types@), old(table)@, instr@, dsts@, packed@, dsts@.len())
            is Some),
        ok ==> Some(final(table)@) == set_unpacked(
            types_view(types@),
            old(table)@,
            instr@,
            dsts@,
            packed@,
            dsts@.len(),
        ),
{
    broadcast use lemma_node_view;

    let ghost tv = types_view(types@);
    let ghost t0 = table@;
    let mut k: usize = 0;
    while k < dsts.len()
        invariant
            k <= dsts.len(),
            tv == types_view(types@),
            packed@.subnodes == nodes_view(packed.subnodes@),
            t0 == old(table)@,
            Some(table@) == set_unpacked(tv, t0, instr@, dsts@, packed@, k as nat),
        decreases dsts.len() - k,
    {
        let d = dsts[k];
        if d < table.data.len() && d < types.len() {
            let ty_max = get_uint_max(&types[d]);
            let max = if packed.subnodes.len() == dsts.len() {
                match packed.subnodes[k].max {
                    Some(m) => Some(m),
                    None => ty_max,
                }
            } else {
                ty_max
            };
            assert(bound(max) == unpacked_max(packed@, dsts@.len(), k as int, tv[d as int]));
            let node = Node::new_with_node(
                Val::ByteCode(clone_bytecode(instr)),
                clone_node(packed),
                max,
                false,
            );
            table.insert_or_modify(d, node);
        } else {
            proof {
                assert(table@.len() == table.data@.len());
                assert(tv.len() == types@.len());
                assert(set_unpacked(tv, t0, instr@, dsts@, packed@, (k + 1) as nat) is None);
                lemma_set_unpacked_fails(tv, t0, instr@, dsts@, packed@, (k + 1) as nat, dsts@.len());
            }
            return false;
        }
        k += 1;
    }
    true
}

fn set_first_exec(table: &mut DataDepent, dsts: &Vec<usize>, node: Node, Ghost(types): Ghost<Seq<TypeV>>) -> (ok:
    bool)
    ensures
        ok == (set_first(types, old(table)@, dsts@, node@) is Some),
        ok ==> Some(final(table)@) == set_first(types, old(table)@, dsts@, node@),
{
    if dsts.len() >= 1 && dsts[0] < table.data.len() {
        table.insert_or_modify(dsts[0], node);
        true
    } else {
        false
    }
}

fn first_type_exec<'a>(types: &'a Vec<Type>, dsts: &Vec<usize>) -> (r: Option<&'a Type>)
    ensures
        r is Some <==> first_type(types_view(types@), dsts@) is Some,
        r matches Some(t) ==> Some(t@) == first_type(types_view(types@), dsts@),
{
    if dsts.len() >= 1 && dsts[0] < types.len() {
        Some(&types[dsts[0]])
    } else {
        None
    }
}

fn arithmetic_step(
    types: &Vec<Type>,
    table: &mut DataDepent,
    instr: &Bytecode,
    dsts: &Vec<usize>,
    op: &Operation,
    srcs: &Vec<usize>,
    Ghost(callee): Ghost<Callee>,
) -> (ok: bool)
    requires
        op@.is_arithmetic(),
    ensures
        ok == (step_call(types_view(types@), old(table)@, instr@, dsts@, op@, srcs@, callee) is Some),
        ok ==> Some(final(table)@) == step_call(
            types_view(types@),
            old(table)@,
            instr@,
            dsts@,
            op@,
            srcs@,
            callee,
        ),
{
    broadcast use lemma_node_view;

    if srcs.len() < 2 {
        return false;
    }
    let ty = match first_type_exec(types, dsts) {
        Some(t) => t,
        None => {
            return false;
        },
    };
    match (table.get(srcs[0]), table.get(srcs[1])) {
        (Some(lnode), Some(rnode)) => {
            match binary_operation_max(
                op,
                lnode.max,
                rnode.max,
                lnode.is_constant,
                rnode.is_constant,
                ty,
            ) {
                Some((max, is_constant)) => {
                    let node = Node::new_with_binary_nodes(
                        Val::ByteCode(clone_bytecode(instr)),
                        lnode,
                        rnode,
                        Some(max),
                        is_constant,
                    );
                    set_first_exec(table, dsts, node, Ghost(types_view(types@)))
                },
                None => false,
            }
        },
        _ => false,
    }
}

fn unary_step(
    types: &Vec<Type>,
    table: &mut DataDepent,
    instr: &Bytecode,
    dsts: &Vec<usize>,
    op: &Operation,
    srcs: &Vec<usize>,
    class: OpClass,
    Ghost(callee): Ghost<Callee>,
) -> (ok: bool)
    requires
        class == op_class_of(op@),
        class == OpClass::Cast || class == OpClass::Not || class == OpClass::Unary,
    ensures
        ok == (step_call(types_view(types@), old(table)@, instr@, dsts@, op@, srcs@, callee) is Some),
        ok ==> Some(final(table)@) == step_call(
            types_view(types@),
            old(table)@,
            instr@,
            dsts@,
            op@,
            srcs@,
            callee,
        ),
{
    broadcast use lemma_node_view;

    if srcs.len() < 1 {
        return false;
    }
    let node = match table.get(srcs[0]) {
        Some(n) => n,
        None => {
            return false;
        },
    };
    match class {
        OpClass::Not => {
            let r = Node::new_with_node(Val::ByteCode(clone_bytecode(instr)), node, None, false);
            set_first_exec(table, dsts, r, Ghost(types_view(types@)))
        },
        OpClass::Cast => {
            let ty = match first_type_exec(types, dsts) {
                Some(t) => t,
                None => {
                    return false;
                },
            };
            match get_min_uint(node.max, get_uint_max(ty)) {
                Some(max) => {
                    let is_constant = node.is_constant;
                    let r = Node::new_with_node(
                        Val::ByteCode(clone_bytecode(instr)),
                        node,
                        Some(max),
                        is_constant,
                    );
                    set_first_exec(table, dsts, r, Ghost(types_view(types@)))
                },
                None => false,
            }
        },
        _ => {
            let ty = match first_type_exec(types, dsts) {
                Some(t) => t,
                None => {
                    return false;
                },
            };
            let r = Node::new_with_node(
                Val::ByteCode(clone_bytecode(instr)),
                node,
                get_uint_max(ty),
                false,
            );
            set_first_exec(table, dsts, r, Ghost(types_view(types@)))
        },
    }
}

/// The class of an operation.
pub open spec fn op_class_of(op: OperationV) -> OpClass {
    if op is Function {
        OpClass::Function
    } else if op.is_arithmetic() {
        OpClass::Arithmetic
    } else if op.is_comparison() {
        OpClass::Comparison
    } else if op.is_cast() {
        OpClass::Cast
    } else if op is Not {
        OpClass::Not
    } else if op is Pack {
        OpClass::Pack
    } else if op is Unpack {
        OpClass::Unpack
    } else if is_unary_class(op) {
        OpClass::Unary
    } else {
        OpClass::Other
    }
}

fn step_call_exec(
    types: &Vec<Type>,
    table: &mut DataDepent,
    instr: &Bytecode,
    dsts: &Vec<usize>,
    op: &Operation,
    srcs: &Vec<usize>,
    callee: CalleeNodes,
) -> (ok: bool)
    ensures
        ok == (step_call(types_view(types@), old(table)@, instr@, dsts@, op@, srcs@, callee@)
            is Some),
        ok ==> Some(final(table)@) == step_call(
            types_view(types@),
            old(table)@,
            instr@,
            dsts@,
            op@,
            srcs@,
            callee@,
        ),
{
    broadcast use lemma_node_view;

    let class = op_class(op);
    assert(class == op_class_of(op@));
    match class {
        OpClass::Function => {
            match callee {
                CalleeNodes::Stuck => false,
                CalleeNodes::Returns(nodes) => set_results_exec(types, table, instr, dsts, &nodes),
                CalleeNodes::Arguments => {
                    match get_all(table, srcs) {
                        Some(nodes) => set_results_exec(types, table, instr, dsts, &nodes),
                        None => false,
                    }
                },
            }
        },
        OpClass::Arithmetic => arithmetic_step(types, table, instr, dsts, op, srcs, Ghost(callee@)),
        OpClass::Comparison => {
            if srcs.len() < 2 {
                return false;
            }
            match (table.get(srcs[0]), table.get(srcs[1])) {
                (Some(lnode), Some(rnode)) => {
                    let node = Node::new_with_binary_nodes(
                        Val::ByteCode(clone_bytecode(instr)),
                        lnode,
                        rnode,
                        None,
                        false,
                    );
                    set_first_exec(table, dsts, node, Ghost(types_view(types@)))
                },
                _ => false,
            }
        },
        OpClass::Cast | OpClass::Not | OpClass::Unary => unary_step(
            types,
            table,
            instr,
            dsts,
            op,
            srcs,
            class,
            Ghost(callee@),
        ),
        OpClass::Pack => {
            match get_all(table, srcs) {
                Some(nodes) => {
                    let node = Node::newy_with_nodes(
                        Val::ByteCode(clone_bytecode(instr)),
                        nodes,
                        None,
                        false,
                    );
                    set_first_exec(table, dsts, node, Ghost(types_view(types@)))
                },
                None => false,
            }
        },
        OpClass::Unpack => {
            if srcs.len() < 1 {
                return false;
            }
            match table.get(srcs[0]) {
                Some(packed) => set_unpacked_exec(types, table, instr, dsts, &packed),
                None => false,
            }
        },
        OpClass::Other => true,
    }
}

/// Applies the instruction `instr` to the table. Returns whether the
/// analysis can go on.
pub fn step_exec(types: &Vec<Type>, table: &mut DataDepent, instr: &Bytecode, callee: CalleeNodes) -> (ok:
    bool)
    ensures
        ok == (step(types_view(types@), old(table)@, instr@, callee@) is Some),
        ok ==> Some(final(table)@) == step(types_view(types@), old(table)@, instr@, callee@),
{
    broadcast use lemma_node_view;

    match instr {
        Bytecode::Load(_, dst, con) => {
            if *dst < table.data.len() {
                let node = Node::new(Val::Const(clone_constant(con)), get_uint_constant(con), true);
                table.insert_or_modify(*dst, node);
                true
            } else {
                false
            }
        },
        Bytecode::Assign(_, dst, src, _) => {
            if *dst >= table.data.len() {
                return false;
            }
            match table.get(*src) {
                Some(node) => {
                    let max = node.max;
                    let r = Node::new_with_node(
                        Val::AssignedFrom(clone_bytecode(instr)),
                        node,
                        max,
                        false,
                    );
                    table.insert_or_modify(*dst, r);
                    true
                },
                None => false,
            }
        },
        Bytecode::Call(_, dsts, oper, srcs, _) => step_call_exec(
            types,
            table,
            instr,
            dsts,
            oper,
            srcs,
            callee,
        ),
        _ => true,
    }
}

/// The number of parameters of the function defined at `f`.
pub open spec fn n_params(g: &StacklessBytecodeGenerator, f: int) -> nat {
    let d = g.module.function_defs@[f];
    g.module.signatures@[g.module.function_handles@[d.function as int].parameters as int].0@.len()
}

/// The module and the function that the instruction calls, where the
/// package holds a module of the callee's name with a function of the
/// callee's name.
pub open spec fn resolve(
    p: &Packages,
    g: &StacklessBytecodeGenerator,
    instr: BytecodeV,
) -> Option<(int, int)> {
    match instr {
        BytecodeV::Call(_, _, OperationV::Function(mid, fid, _), _, _) => {
            if mid.0 < g.module_names@.len() && g.module_names@[mid.0 as int].name.0
                < g.symbol_pool@.len() && fid.0.0 < g.symbol_pool@.len() {
                match first_named(
                    p.names(),
                    g.spec_module_display(g.module_names@[mid.0 as int]),
                    p.packages@.len(),
                ) {
                    Some(m) => match first_named(
                        p.packages@[m].1.function_names(),
                        g.symbol_pool@[fid.0.0 as int],
                        p.packages@[m].1.functions@.len(),
                    ) {
                        Some(f) => Some((m, f)),
                        None => None,
                    },
                    None => None,
                }
            } else {
                None
            }
        },
        _ => None,
    }
}

/// What the call `instr` contributes as subtrees when the analysis may
/// still look `depth` calls deep: with no depth left, or a callee that
/// the package does not hold, the trees of the arguments; else the trees
/// of what the callee's last instruction returns, after the callee is
/// analysed one call less deep.
pub open spec fn callee_of(
    p: &Packages,
    g: &StacklessBytecodeGenerator,
    instr: BytecodeV,
    depth: nat,
) -> Callee
    decreases depth, 0nat, 0nat,
{
    if depth == 0 {
        Callee::Arguments
    } else {
        match resolve(p, g, instr) {
            None => Callee::Arguments,
            Some((m, f)) => {
                let g2 = &p.packages@[m].1;
                let code2 = code_view(g2.functions@[f].code@);
                match analysis(p, g2, f, (depth - 1) as nat, code2.len()) {
                    None => Callee::Stuck,
                    Some(t) => if code2.len() > 0 && code2.last() is Ret {
                        match lookup_all(t, code2.last()->Ret_1) {
                            Some(nodes) => Callee::Returns(nodes),
                            None => Callee::Stuck,
                        }
                    } else {
                        Callee::Returns(Seq::empty())
                    },
                }
            },
        }
    }
}

/// The table of dependency trees of the function at place `f` of the
/// lifter `g` after its first `n` instructions, looking `depth` calls
/// deep into the package `p`. `None` where the analysis cannot go on.
pub open spec fn analysis(
    p: &Packages,
    g: &StacklessBytecodeGenerator,
    f: int,
    depth: nat,
    n: nat,
) -> Option<Seq<Option<NodeV>>>
    decreases depth, 1nat, n,
{
    let types = types_view(g.functions@[f].local_types@);
    if n == 0 {
        Some(init_table(types, n_params(g, f)))
    } else {
        match analysis(p, g, f, depth, (n - 1) as nat) {
            Some(t) => {
                let instr = code_view(g.functions@[f].code@)[n - 1];
                step(types, t, instr, callee_of(p, g, instr, depth))
            },
            None => None,
        }
    }
}

/// Once the analysis cannot go on, it cannot go on later either.
pub proof fn lemma_analysis_fails(
    p: &Packages,
    g: &StacklessBytecodeGenerator,
    f: int,
    depth: nat,
    n: nat,
    m: nat,
)
    requires
        n <= m,
        analysis(p, g, f, depth, n) is None,
    ensures
        analysis(p, g, f, depth, m) is None,
    decreases m,
{
    if n < m {
        lemma_analysis_fails(p, g, f, depth, n, (m - 1) as nat);
    }
}

/// The table that the analysis of a function starts from.
fn init_table_exec(types: &Vec<Type>, n_params: usize) -> (r: DataDepent)
    ensures
        r@ == init_table(types_view(types@), n_params as nat),
{
    broadcast use lemma_node_view;

    let mut table = DataDepent::with_temps(types.len());
    let mut i: usize = 0;
    while i < types.len() && i < n_params
        invariant
            i <= types.len(),
            i <= n_params,
            table@.len() == types@.len(),
            forall|j: int| 0 <= j < i ==> table@[j] == Some(param_node(types@[j]@)),
            forall|j: int| i <= j < types@.len() ==> table@[j] is None,
        decreases types.len() - i,
    {
        let ty = &types[i];
        let node = Node::new(Val::ParamType(clone_type(ty)), get_uint_max(ty), false);
        table.insert_or_modify(i, node);
        i += 1;
    }
    assert(table@ =~= init_table(types_view(types@), n_params as nat));
    table
}

/// What a call contributes as subtrees, looking `cnt` calls deep.
fn callee_nodes(
    packages: &Packages,
    stbgr: &StacklessBytecodeGenerator,
    instr: &Bytecode,
    cnt: usize,
) -> (r: CalleeNodes)
    requires
        packages.wf(),
        stbgr.wf(),
    ensures
        r@ == callee_of(packages, stbgr, instr@, cnt as nat),
    decreases cnt, 0nat,
{
    if cnt == 0 {
        return CalleeNodes::Arguments;
    }
    let target: Option<(usize, usize)> = match instr {
        Bytecode::Call(_, _, op, _, _) => match op {
            Operation::Function(mid, fid, _) => {
                let m = mid.to_usize();
                if m < stbgr.module_names.len() && stbgr.module_names[m].name.0
                    < stbgr.symbol_pool.len() && fid.symbol().0 < stbgr.symbol_pool.len() {
                    let mname = stbgr.module_display(&stbgr.module_names[m]);
                    match packages.find_module(&mname) {
                        Some(m2) => {
                            let fname = stbgr.symbol_pool.string(fid.symbol());
                            match packages.packages[m2].1.find_function(fname) {
                                Some(f2) => Some((m2, f2)),
                                None => None,
                            }
                        },
                        None => None,
                    }
                } else {
                    None
                }
            },
            _ => None,
        },
        _ => None,
    };
    assert(match target {
        Some(x) => resolve(packages, stbgr, instr@) == Some((x.0 as int, x.1 as int)),
        None => resolve(packages, stbgr, instr@) is None,
    });
    match target {
        None => CalleeNodes::Arguments,
        Some((m2, f2)) => {
            let other = &packages.packages[m2].1;
            let function = &other.functions[f2];
            let ghost code2 = code_view(function.code@);
            match try_data_dependency(packages, other, f2, cnt - 1) {
                None => CalleeNodes::Stuck,
                Some(other_dd) => {
                    let n = function.code.len();
                    if n > 0 {
                        assert(code2.last() == function.code@[n - 1]@);
                        match &function.code[n - 1] {
                            Bytecode::Ret(_, rets) => {
                                match get_all(&other_dd, rets) {
                                    Some(nodes) => CalleeNodes::Returns(nodes),
                                    None => CalleeNodes::Stuck,
                                }
                            },
                            _ => {
                                let none: Vec<Node> = Vec::new();
                                assert(nodes_view(none@) =~= Seq::<NodeV>::empty());
                                CalleeNodes::Returns(none)
                            },
                        }
                    } else {
                        let none: Vec<Node> = Vec::new();
                        assert(nodes_view(none@) =~= Seq::<NodeV>::empty());
                        CalleeNodes::Returns(none)
                    }
                },
            }
        },
    }
}

/// The dependency trees of the temps of the function at place `idx` of
/// the lifter `stbgr`, looking `cnt` calls deep into `packages`; `None`
/// where the analysis cannot go on.
pub fn try_data_dependency(
    packages: &Packages,
    stbgr: &StacklessBytecodeGenerator,
    idx: usize,
    cnt: usize,
) -> (r: Option<DataDepent>)
    requires
        packages.wf(),
        stbgr.wf(),
        stbgr.lifted_all(),
        idx < stbgr.functions@.len(),
    ensures
        r is Some <==> analysis(
            packages,
            stbgr,
            idx as int,
            cnt as nat,
            stbgr.functions@[idx as int].code@.len(),
        ) is Some,
        r matches Some(d) ==> Some(d@) == analysis(
            packages,
            stbgr,
            idx as int,
            cnt as nat,
            stbgr.functions@[idx as int].code@.len(),
        ),
    decreases cnt, 1nat,
{
    let function = &stbgr.functions[idx];
    let module = stbgr.module;
    assert(module.function_def_ok(idx as int));
    let d = &module.function_defs[idx];
    assert(module.function_handle_ok(d.function as int));
    let h = &module.function_handles[d.function as usize];
    let params = module.signatures[h.parameters as usize].0.len();
    let mut table = init_table_exec(&function.local_types, params);
    let ghost cv = code_view(function.code@);
    let mut k: usize = 0;
    while k < function.code.len()
        invariant
            k <= function.code.len(),
            packages.wf(),
            stbgr.wf(),
            function == &stbgr.functions@[idx as int],
            cv == code_view(function.code@),
            Some(table@) == analysis(packages, stbgr, idx as int, cnt as nat, k as nat),
        decreases function.code.len() - k,
    {
        let instr = &function.code[k];
        assert(cv[k as int] == instr@);
        let callee = callee_nodes(packages, stbgr, instr, cnt);
        if !step_exec(&function.local_types, &mut table, instr, callee) {
            proof {
                lemma_analysis_fails(
                    packages,
                    stbgr,
                    idx as int,
                    cnt as nat,
                    (k + 1) as nat,
                    function.code@.len(),
                );
            }
            return None;
        }
        k += 1;
    }
    Some(table)
}

/// The dependency trees of the temps of the function at place `idx` of
/// the lifter `stbgr`, looking `cnt` calls deep into `packages`, where
/// the analysis can be carried through.
pub fn data_dependency(
    packages: &Packages,
    stbgr: &StacklessBytecodeGenerator,
    idx: usize,
    cnt: usize,
) -> (r: DataDepent)
    requires
        packages.wf(),
        stbgr.wf(),
        stbgr.lifted_all(),
        idx < stbgr.functions@.len(),
        analysis(
            packages,
            stbgr,
            idx as int,
            cnt as nat,
            stbgr.functions@[idx as int].code@.len(),
        ) is Some,
    ensures
        Some(r@) == analysis(
            packages,
            stbgr,
            idx as int,
            cnt as nat,
            stbgr.functions@[idx as int].code@.len(),
        ),
{
    match try_data_dependency(packages, stbgr, idx, cnt) {
        Some(d) => d,
        None => {
            proof {
                assert(false);
            }
            DataDepent::with_temps(0)
        },
    }
}

} // verus!
