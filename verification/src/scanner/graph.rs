use vstd::prelude::*;

verus! {

pub struct ModuleNode {
    /// Such as `0x1::coin`.
    pub id: String,
    pub address: String,
    pub name: String,
}

pub struct FunctionNode {
    /// Such as `0x1::coin::mint`.
    pub id: String,
    pub module_id: String,
    pub name: String,
    pub visibility: String,
    pub is_native: bool,
    pub arg_count: usize,
    pub source: String,
}

pub struct StructNode {
    /// Such as `0x1::coin::Coin`.
    pub id: String,
    pub module_id: String,
    pub name: String,
    pub abilities: Vec<String>,
    /// Whether the struct has the ability `key`.
    pub is_resource: bool,
    pub source: String,
}

pub enum NodeWrapper {
    Module(ModuleNode),
    Function(FunctionNode),
    Struct(StructNode),
}

pub enum EdgeWrapper {
    /// A module defines a function or a struct.
    Defines { from: String, to: String },
    /// A function calls a function.
    Calls { from: String, to: String },
}

pub struct GraphOutput {
    pub nodes: Vec<NodeWrapper>,
    pub edges: Vec<EdgeWrapper>,
}

/// A node by its texts.
pub ghost enum NodeText {
    Module { id: Seq<char>, address: Seq<char>, name: Seq<char> },
    Function {
        id: Seq<char>,
        module_id: Seq<char>,
        name: Seq<char>,
        visibility: Seq<char>,
        is_native: bool,
        arg_count: usize,
        source: Seq<char>,
    },
    Struct {
        id: Seq<char>,
        module_id: Seq<char>,
        name: Seq<char>,
        abilities: Seq<Seq<char>>,
        is_resource: bool,
        source: Seq<char>,
    },
}

/// An edge by its texts.
pub ghost enum EdgeText {
    Defines { from: Seq<char>, to: Seq<char> },
    Calls { from: Seq<char>, to: Seq<char> },
}

impl View for NodeWrapper {
    type V = NodeText;

    open spec fn view(&self) -> NodeText {
        match *self {
            NodeWrapper::Module(n) => NodeText::Module { id: n.id@, address: n.address@, name: n.name@ },
            NodeWrapper::Function(n) => NodeText::Function {
                id: n.id@,
                module_id: n.module_id@,
                name: n.name@,
                visibility: n.visibility@,
                is_native: n.is_native,
                arg_count: n.arg_count,
                source: n.source@,
            },
            NodeWrapper::Struct(n) => NodeText::Struct {
                id: n.id@,
                module_id: n.module_id@,
                name: n.name@,
                abilities: Seq::new(n.abilities@.len(), |i: int| n.abilities@[i]@),
                is_resource: n.is_resource,
                source: n.source@,
            },
        }
    }
}

impl View for EdgeWrapper {
    type V = EdgeText;

    open spec fn view(&self) -> EdgeText {
        match *self {
            EdgeWrapper::Defines { from, to } => EdgeText::Defines { from: from@, to: to@ },
            EdgeWrapper::Calls { from, to } => EdgeText::Calls { from: from@, to: to@ },
        }
    }
}

pub open spec fn node_texts(nodes: Seq<NodeWrapper>) -> Seq<NodeText> {
    Seq::new(nodes.len(), |i: int| nodes[i]@)
}

pub open spec fn edge_texts(edges: Seq<EdgeWrapper>) -> Seq<EdgeText> {
    Seq::new(edges.len(), |i: int| edges[i]@)
}

} // verus!
