use vstd::prelude::*;
use vstd::string::{StrSliceExecFns, StringExecFns};
use vstd::utf8::{decode_utf8, encode_utf8, encode_utf8_decode_utf8, is_char_boundary};
use crate::move_ir::bytecode_display::address_text;
use crate::move_ir::call_graph::{graph_out, graph_weights, node_count, node_weight, successors};
use crate::move_ir::file_format::Visibility;
use crate::move_ir::generate_bytecode::StacklessBytecodeGenerator;
use crate::move_ir::packages::Packages;
use crate::move_ir::types::{FunId, ModuleId, QualifiedId, Symbol};
use crate::scanner::graph::{
    edge_texts, node_texts, EdgeText, EdgeWrapper, FunctionNode, GraphOutput, ModuleNode,
    NodeText, NodeWrapper, StructNode,
};


verus! {

/// Builds the graph of modules, structs and functions of a package.
pub struct GraphExporter;

/// The characters that have a meaning of their own in a regular
/// expression.
pub open spec fn is_meta_character(c: char) -> bool {
    c == '\\' || c == '.' || c == '+' || c == '*' || c == '?' || c == '(' || c == ')' || c == '|'
        || c == '[' || c == ']' || c == '{' || c == '}' || c == '^' || c == '$' || c == '#'
        || c == '&' || c == '-' || c == '~'
}

/// The text with a backslash before each of its characters that has a
/// meaning of its own in a regular expression.
pub open spec fn escaped_text(text: Seq<char>) -> Seq<char>
    decreases text.len(),
{
    if text.len() == 0 {
        Seq::empty()
    } else if is_meta_character(text.last()) {
        escaped_text(text.drop_last()).push('\\').push(text.last())
    } else {
        escaped_text(text.drop_last()).push(text.last())
    }
}

/// `regex::escape`: the text with a backslash before every character
/// that has a meaning of its own in a regular expression.
#[verifier::external_body]
fn escape(text: &str) -> (r: String)
    ensures
        r@ == escaped_text(text@),
{
    regex::escape(text)
}

/// The byte of the UTF-8 encoding of `text` at which the leftmost match
/// of the regular expression `pattern` starts; none where the pattern is
/// no regular expression or matches nowhere.
pub uninterp spec fn match_start(pattern: Seq<char>, text: Seq<char>) -> Option<nat>;

/// `regex::Regex::new` and `Regex::find`: the byte at which the leftmost
/// match of `pattern` in `text` starts. A match starts where a character
/// of the text starts, or at the end of the text.
#[verifier::external_body]
fn find_start(pattern: &str, text: &str) -> (r: Option<usize>)
    ensures
        match r {
            Some(i) => match_start(pattern@, text@) == Some(i as nat) && is_char_boundary(
                encode_utf8(text@),
                i as int,
            ),
            None => match_start(pattern@, text@) is None,
        },
{
    match regex::Regex::new(pattern) {
        Ok(re) => re.find(text).map(|m| m.start()),
        Err(_) => None,
    }
}

/// Where a definition that starts at the start of `chars` ends, looking
/// from place `i` on with `depth` curly brackets open: behind the bracket
/// that closes the first one opened, or behind the first semicolon before
/// any bracket is opened; 0 where the text ends before that.
pub open spec fn definition_end(chars: Seq<char>, i: nat, depth: int, opened: bool) -> nat
    decreases chars.len() - i,
{
    if i >= chars.len() {
        0
    } else if chars[i as int] == '{' {
        definition_end(chars, i + 1, depth + 1, true)
    } else if chars[i as int] == '}' {
        if depth - 1 == 0 && opened {
            i + 1
        } else {
            definition_end(chars, i + 1, depth - 1, opened)
        }
    } else if chars[i as int] == ';' && !opened {
        i + 1
    } else {
        definition_end(chars, i + 1, depth, opened)
    }
}

/// The length of the definition that starts at the start of `chars`: up
/// to the curly bracket that closes its body, or up to its semicolon
/// where it has no body; 0 where it has no end.
pub fn definition_len(chars: &Vec<char>) -> (r: usize)
    ensures
        r == definition_end(chars@, 0, 0, false),
        r <= chars@.len(),
{
    let mut depth: i128 = 0;
    let mut opened = false;
    let mut i: usize = 0;
    while i < chars.len()
        invariant
            i <= chars.len(),
            -(i as int) <= depth <= i as int,
            definition_end(chars@, 0, 0, false) == definition_end(chars@, i as nat, depth as int, opened),
        decreases chars.len() - i,
    {
        let c = chars[i];
        if c == '{' {
            depth += 1;
            opened = true;
        } else if c == '}' {
            depth -= 1;
            if depth == 0 && opened {
                return i + 1;
            }
        } else if c == ';' && !opened {
            return i + 1;
        }
        i += 1;
    }
    0
}

/// The pattern that finds the definition of `name`: the word `kind`,
/// blanks, and the name as a word.
pub open spec fn definition_pattern(kind: Seq<char>, name: Seq<char>) -> Seq<char> {
    "\\b"@ + kind + "\\s+"@ + escaped_text(name) + "\\b"@
}

/// The text whose UTF-8 encoding is that of `source` from the byte
/// `start` on.
pub open spec fn text_from(source: Seq<char>, start: nat) -> Seq<char> {
    let bytes = encode_utf8(source);
    decode_utf8(bytes.subrange(start as int, bytes.len() as int))
}

/// The definition of `name` in `source`: from the first match of the
/// pattern to the end of the definition; nothing where the pattern does
/// not match or the definition has no end.
pub open spec fn definition_text(source: Seq<char>, kind: Seq<char>, name: Seq<char>) -> Seq<char> {
    match match_start(definition_pattern(kind, name), source) {
        Some(start) => if is_char_boundary(encode_utf8(source), start as int) {
            let tail = text_from(source, start);
            tail.take(definition_end(tail, 0, 0, false) as int)
        } else {
            Seq::empty()
        },
        None => Seq::empty(),
    }
}

/// The characters of `text`.
pub fn chars_of(text: &str) -> (r: Vec<char>)
    ensures
        r@ == text@,
{
    let n = text.unicode_len();
    let mut out: Vec<char> = Vec::new();
    let mut i: usize = 0;
    while i < n
        invariant
            i <= n,
            n == text@.len(),
            out@ == text@.take(i as int),
        decreases n - i,
    {
        out.push(text.get_char(i));
        assert(text@.take(i + 1) =~= text@.take(i as int).push(text@[i as int]));
        i += 1;
    }
    assert(text@.take(n as int) =~= text@);
    out
}

pub fn extract_definition(source: &str, kind: &str, name: &str) -> (r: String)
    ensures
        r@ == definition_text(source@, kind@, name@),
{
    let mut pattern = String::from_str("\\b");
    pattern.append(kind);
    pattern.append("\\s+");
    pattern.append(escape(name).as_str());
    pattern.append("\\b");
    match find_start(pattern.as_str(), source) {
        Some(start) => {
            let (_, tail) = source.split_at(start);
            proof {
                encode_utf8_decode_utf8(tail@);
                assert(tail@ == text_from(source@, start as nat));
            }
            let chars = chars_of(tail);
            let end = definition_len(&chars);
            let found = tail.substring_char(0, end);
            assert(found@ =~= tail@.take(end as int));
            String::from_str(found)
        },
        None => String::new(),
    }
}

/// The definition of `name` in the source of a module, where the source
/// is at hand.
pub open spec fn source_text(source: Option<String>, kind: Seq<char>, name: Seq<char>) -> Seq<char> {
    match source {
        Some(s) => definition_text(s@, kind, name),
        None => Seq::empty(),
    }
}

fn source_of(source: &Option<String>, kind: &str, name: &str) -> (r: String)
    ensures
        r@ == source_text(*source, kind@, name@),
{
    match source {
        Some(s) => extract_definition(s.as_str(), kind, name),
        None => String::new(),
    }
}

/// The names of the abilities that the bits `bits` stand for, in the
/// order `copy`, `drop`, `store`, `key`.
pub open spec fn ability_names(bits: u8) -> Seq<Seq<char>> {
    (if bits & 1 != 0 {
        seq!["copy"@]
    } else {
        Seq::empty()
    }) + (if bits & 2 != 0 {
        seq!["drop"@]
    } else {
        Seq::empty()
    }) + (if bits & 4 != 0 {
        seq!["store"@]
    } else {
        Seq::empty()
    }) + (if bits & 8 != 0 {
        seq!["key"@]
    } else {
        Seq::empty()
    })
}

pub open spec fn texts_of(names: Seq<String>) -> Seq<Seq<char>> {
    Seq::new(names.len(), |i: int| names[i]@)
}

pub fn get_struct_abilities_strs(bits: u8) -> (r: Vec<String>)
    ensures
        texts_of(r@) == ability_names(bits),
{
    let mut out: Vec<String> = Vec::new();
    assert(texts_of(out@) =~= Seq::<Seq<char>>::empty());
    if bits & 1 != 0 {
        let ghost before = texts_of(out@);
        out.push(String::from_str("copy"));
        assert(texts_of(out@) =~= before + seq!["copy"@]);
    } else {
        assert(texts_of(out@) =~= texts_of(out@) + Seq::<Seq<char>>::empty());
    }
    if bits & 2 != 0 {
        let ghost before = texts_of(out@);
        out.push(String::from_str("drop"));
        assert(texts_of(out@) =~= before + seq!["drop"@]);
    } else {
        assert(texts_of(out@) =~= texts_of(out@) + Seq::<Seq<char>>::empty());
    }
    if bits & 4 != 0 {
        let ghost before = texts_of(out@);
        out.push(String::from_str("store"));
        assert(texts_of(out@) =~= before + seq!["store"@]);
    } else {
        assert(texts_of(out@) =~= texts_of(out@) + Seq::<Seq<char>>::empty());
    }
    if bits & 8 != 0 {
        let ghost before = texts_of(out@);
        out.push(String::from_str("key"));
        assert(texts_of(out@) =~= before + seq!["key"@]);
    } else {
        assert(texts_of(out@) =~= texts_of(out@) + Seq::<Seq<char>>::empty());
    }
    out
}

/// How a visibility is named in the graph.
pub open spec fn visibility_name(v: Visibility) -> Seq<char> {
    match v {
        Visibility::Public => "public"@,
        Visibility::Friend => "friend"@,
        Visibility::Private => "private"@,
    }
}

/// `module`, two colons and `name`.
pub open spec fn member_id(module: Seq<char>, name: Seq<char>) -> Seq<char> {
    module + "::"@ + name
}

fn member(module: &String, name: &str) -> (r: String)
    ensures
        r@ == member_id(module@, name@),
{
    let mut out = module.clone();
    out.append("::");
    out.append(name);
    out
}

impl<'a> StacklessBytecodeGenerator<'a> {
    /// The node of the module, known as `id`.
    pub open spec fn module_node(&self, id: Seq<char>) -> NodeText {
        NodeText::Module {
            id,
            address: address_text(self.module_name.address),
            name: self.symbol_text(self.module_name.name),
        }
    }

    /// The name of the struct defined at `d`.
    pub open spec fn struct_name(&self, d: int) -> Seq<char> {
        let h = self.module.struct_handles@[self.module.struct_defs@[d].struct_handle as int];
        self.module.identifiers@[h.name as int]@
    }

    /// The node of the struct defined at `d` in the module known as `id`.
    pub open spec fn struct_node(&self, id: Seq<char>, source: Option<String>, d: int) -> NodeText {
        let h = self.module.struct_handles@[self.module.struct_defs@[d].struct_handle as int];
        NodeText::Struct {
            id: member_id(id, self.struct_name(d)),
            module_id: id,
            name: self.struct_name(d),
            abilities: ability_names(h.abilities),
            is_resource: h.abilities & 8 != 0,
            source: source_text(source, "struct"@, self.struct_name(d)),
        }
    }

    /// The node of the function at `f` in the module known as `id`.
    pub open spec fn function_node(&self, id: Seq<char>, source: Option<String>, f: int) -> NodeText {
        let d = self.module.function_defs@[f];
        NodeText::Function {
            id: member_id(id, self.functions@[f].name@),
            module_id: id,
            name: self.functions@[f].name@,
            visibility: visibility_name(d.visibility),
            is_native: d.spec_is_native(),
            arg_count: self.functions@[f].args_count,
            source: source_text(source, "fun"@, self.functions@[f].name@),
        }
    }

    /// The nodes of the first `n` structs of the module.
    pub open spec fn struct_nodes(&self, id: Seq<char>, source: Option<String>, n: nat) -> Seq<
        NodeText,
    > {
        Seq::new(n, |d: int| self.struct_node(id, source, d))
    }

    /// The nodes of the first `n` functions of the module.
    pub open spec fn function_nodes(&self, id: Seq<char>, source: Option<String>, n: nat) -> Seq<
        NodeText,
    > {
        Seq::new(n, |f: int| self.function_node(id, source, f))
    }

    /// The nodes of the module: the module itself, its structs, and its
    /// functions.
    pub open spec fn nodes(&self, id: Seq<char>, source: Option<String>) -> Seq<NodeText> {
        seq![self.module_node(id)] + self.struct_nodes(id, source, self.module.struct_defs@.len())
            + self.function_nodes(id, source, self.functions@.len())
    }

    /// The function behind a node of the call graph, by the name of its
    /// module and its own name.
    pub open spec fn node_name(&self, a: int) -> Seq<char> {
        if 0 <= a < graph_weights(self.call_graph).len() {
            let w = graph_weights(self.call_graph)[a];
            self.qualified_text(QualifiedId { module_id: ModuleId(w.0), id: FunId(Symbol(w.1)) })
        } else {
            crate::move_ir::bytecode_display::unknown_text()
        }
    }

    /// The calls from the node `a` to the first `k` of its successors.
    pub open spec fn calls_from(&self, a: int, k: nat) -> Seq<EdgeText> {
        if graph_weights(self.call_graph)[a].0 == 0 {
            Seq::new(
                k,
                |i: int|
                    EdgeText::Calls {
                        from: self.node_name(a),
                        to: self.node_name(graph_out(self.call_graph)[a][i] as int),
                    },
            )
        } else {
            Seq::empty()
        }
    }

    /// The calls from the first `n` nodes of the call graph.
    pub open spec fn calls_upto(&self, n: nat) -> Seq<EdgeText>
        decreases n,
    {
        if n == 0 {
            Seq::empty()
        } else {
            self.calls_upto((n - 1) as nat) + self.calls_from(
                n - 1,
                graph_out(self.call_graph)[n - 1].len(),
            )
        }
    }

    /// The edges of the module: one from the module to each of its
    /// structs and functions, and one for each call from one of its own
    /// functions.
    pub open spec fn edges(&self, id: Seq<char>) -> Seq<EdgeText> {
        Seq::new(
            self.module.struct_defs@.len(),
            |d: int| EdgeText::Defines { from: id, to: member_id(id, self.struct_name(d)) },
        ) + Seq::new(
            self.functions@.len(),
            |f: int| EdgeText::Defines { from: id, to: member_id(id, self.functions@[f].name@) },
        ) + self.calls_upto(graph_out(self.call_graph).len())
    }
}

/// The source of the module at place `i`, where `sources` holds one.
pub open spec fn source_at(sources: Seq<Option<String>>, i: int) -> Option<String> {
    if 0 <= i < sources.len() {
        sources[i]
    } else {
        None
    }
}

/// The nodes of the first `n` modules of the package.
pub open spec fn package_nodes(p: &Packages, sources: Seq<Option<String>>, n: nat) -> Seq<NodeText>
    decreases n,
{
    if n == 0 {
        Seq::empty()
    } else {
        package_nodes(p, sources, (n - 1) as nat) + p.packages@[n - 1].1.nodes(
            p.packages@[n - 1].0@,
            source_at(sources, n - 1),
        )
    }
}

/// The edges of the first `n` modules of the package.
pub open spec fn package_edges(p: &Packages, n: nat) -> Seq<EdgeText>
    decreases n,
{
    if n == 0 {
        Seq::empty()
    } else {
        package_edges(p, (n - 1) as nat) + p.packages@[n - 1].1.edges(p.packages@[n - 1].0@)
    }
}

fn visibility_word(v: &Visibility) -> (r: &'static str)
    ensures
        r@ == visibility_name(*v),
{
    match v {
        Visibility::Public => "public",
        Visibility::Friend => "friend",
        Visibility::Private => "private",
    }
}

impl<'a> StacklessBytecodeGenerator<'a> {
    fn node_name_str(&self, a: usize) -> (r: String)
        ensures
            r@ == self.node_name(a as int),
    {
        if a < node_count(&self.call_graph) {
            let w = node_weight(&self.call_graph, a);
            self.get_fname_by_qid(&QualifiedId { module_id: ModuleId(w.0), id: FunId(Symbol(w.1)) })
        } else {
            String::from_str("??unknown??")
        }
    }

    /// Adds the nodes of the module, known as `id`, to `nodes`.
    fn push_nodes(&self, id: &String, source: &Option<String>, nodes: &mut Vec<NodeWrapper>)
        requires
            self.wf(),
            self.lifted_all(),
        ensures
            node_texts(final(nodes)@) == node_texts(old(nodes)@) + self.nodes(id@, *source),
    {
        let ghost start = node_texts(nodes@);
        let m = self.module;
        nodes.push(
            NodeWrapper::Module(
                ModuleNode {
                    id: id.clone(),
                    address: crate::move_ir::bytecode_display::address_string(
                        self.module_name.address,
                    ),
                    name: self.symbol_str(self.module_name.name),
                },
            ),
        );
        assert(node_texts(nodes@) =~= start + seq![self.module_node(id@)] + self.struct_nodes(
            id@,
            *source,
            0,
        ));
        let mut d: usize = 0;
        while d < m.struct_defs.len()
            invariant
                self.wf(),
                m == self.module,
                d <= m.struct_defs@.len(),
                node_texts(nodes@) == start + seq![self.module_node(id@)] + self.struct_nodes(
                    id@,
                    *source,
                    d as nat,
                ),
            decreases m.struct_defs.len() - d,
        {
            assert(m.struct_def_ok(d as int));
            let def = &m.struct_defs[d];
            assert(m.struct_handle_ok(def.struct_handle as int));
            let h = m.struct_handles[def.struct_handle as usize];
            let name = m.identifiers[h.name as usize].clone();
            let ghost before = node_texts(nodes@);
            let node = StructNode {
                id: member(id, name.as_str()),
                module_id: id.clone(),
                name: name.clone(),
                abilities: get_struct_abilities_strs(h.abilities),
                is_resource: h.abilities & 8 != 0,
                source: source_of(source, "struct", name.as_str()),
            };
            proof {
                assert(Seq::new(node.abilities@.len(), |i: int| node.abilities@[i]@) =~= texts_of(
                    node.abilities@,
                ));
            }
            nodes.push(NodeWrapper::Struct(node));
            assert(node_texts(nodes@) =~= before.push(self.struct_node(id@, *source, d as int)));
            assert(self.struct_nodes(id@, *source, (d + 1) as nat) =~= self.struct_nodes(
                id@,
                *source,
                d as nat,
            ).push(self.struct_node(id@, *source, d as int)));
            d += 1;
        }
        let ghost mid = node_texts(nodes@);
        assert(mid =~= mid + self.function_nodes(id@, *source, 0));
        let mut f: usize = 0;
        while f < self.functions.len()
            invariant
                self.wf(),
                self.lifted_all(),
                m == self.module,
                f <= self.functions@.len(),
                node_texts(nodes@) == mid + self.function_nodes(id@, *source, f as nat),
            decreases self.functions.len() - f,
        {
            let function = &self.functions[f];
            let def = &m.function_defs[f];
            let ghost before = node_texts(nodes@);
            let node = FunctionNode {
                id: member(id, function.name.as_str()),
                module_id: id.clone(),
                name: function.name.clone(),
                visibility: String::from_str(visibility_word(&def.visibility)),
                is_native: def.is_native(),
                arg_count: function.args_count,
                source: source_of(source, "fun", function.name.as_str()),
            };
            nodes.push(NodeWrapper::Function(node));
            assert(node_texts(nodes@) =~= before.push(self.function_node(id@, *source, f as int)));
            assert(self.function_nodes(id@, *source, (f + 1) as nat) =~= self.function_nodes(
                id@,
                *source,
                f as nat,
            ).push(self.function_node(id@, *source, f as int)));
            f += 1;
        }
    }

    /// Adds the edges of the module, known as `id`, to `edges`.
    fn push_edges(&self, id: &String, edges: &mut Vec<EdgeWrapper>)
        requires
            self.wf(),
            self.lifted_all(),
        ensures
            edge_texts(final(edges)@) == edge_texts(old(edges)@) + self.edges(id@),
    {
        let ghost start = edge_texts(edges@);
        let m = self.module;
        let ghost structs = |n: nat|
            Seq::new(
                n,
                |d: int| EdgeText::Defines { from: id@, to: member_id(id@, self.struct_name(d)) },
            );
        let ghost functions = |n: nat|
            Seq::new(
                n,
                |f: int| EdgeText::Defines { from: id@, to: member_id(id@, self.functions@[f].name@) },
            );
        assert(start =~= start + structs(0));
        let mut d: usize = 0;
        while d < m.struct_defs.len()
            invariant
                self.wf(),
                m == self.module,
                d <= m.struct_defs@.len(),
                edge_texts(edges@) == start + structs(d as nat),
                structs == |n: nat|
                    Seq::new(
                        n,
                        |d: int|
                            EdgeText::Defines { from: id@, to: member_id(id@, self.struct_name(d)) },
                    ),
            decreases m.struct_defs.len() - d,
        {
            assert(m.struct_def_ok(d as int));
            let def = &m.struct_defs[d];
            assert(m.struct_handle_ok(def.struct_handle as int));
            let h = m.struct_handles[def.struct_handle as usize];
            let ghost before = edge_texts(edges@);
            edges.push(
                EdgeWrapper::Defines {
                    from: id.clone(),
                    to: member(id, m.identifiers[h.name as usize].as_str()),
                },
            );
            assert(edge_texts(edges@) =~= before.push(
                EdgeText::Defines { from: id@, to: member_id(id@, self.struct_name(d as int)) },
            ));
            assert(structs((d + 1) as nat) =~= structs(d as nat).push(
                EdgeText::Defines { from: id@, to: member_id(id@, self.struct_name(d as int)) },
            ));
            d += 1;
        }
        let ghost mid = edge_texts(edges@);
        assert(mid =~= mid + functions(0));
        let mut f: usize = 0;
        while f < self.functions.len()
            invariant
                f <= self.functions@.len(),
                edge_texts(edges@) == mid + functions(f as nat),
                functions == |n: nat|
                    Seq::new(
                        n,
                        |f: int|
                            EdgeText::Defines {
                                from: id@,
                                to: member_id(id@, self.functions@[f].name@),
                            },
                    ),
            decreases self.functions.len() - f,
        {
            let ghost before = edge_texts(edges@);
            edges.push(
                EdgeWrapper::Defines {
                    from: id.clone(),
                    to: member(id, self.functions[f].name.as_str()),
                },
            );
            assert(edge_texts(edges@) =~= before.push(
                EdgeText::Defines { from: id@, to: member_id(id@, self.functions@[f as int].name@) },
            ));
            assert(functions((f + 1) as nat) =~= functions(f as nat).push(
                EdgeText::Defines { from: id@, to: member_id(id@, self.functions@[f as int].name@) },
            ));
            f += 1;
        }
        let ghost defined = edge_texts(edges@);
        assert(defined == start + structs(m.struct_defs@.len()) + functions(self.functions@.len()));
        assert(defined =~= defined + self.calls_upto(0));
        let n = node_count(&self.call_graph);
        let mut a: usize = 0;
        while a < n
            invariant
                n == graph_out(self.call_graph).len(),
                n == graph_weights(self.call_graph).len(),
                a <= n,
                edge_texts(edges@) == defined + self.calls_upto(a as nat),
            decreases n - a,
        {
            let w = node_weight(&self.call_graph, a);
            let targets = successors(&self.call_graph, a);
            let ghost before = edge_texts(edges@);
            if w.0 == 0 {
                let mut i: usize = 0;
                assert(before =~= before + self.calls_from(a as int, 0));
                while i < targets.len()
                    invariant
                        a < n,
                        n == graph_weights(self.call_graph).len(),
                        w == graph_weights(self.call_graph)[a as int],
                        w.0 == 0,
                        targets@ == graph_out(self.call_graph)[a as int],
                        i <= targets.len(),
                        edge_texts(edges@) == before + self.calls_from(a as int, i as nat),
                    decreases targets.len() - i,
                {
                    let ghost so_far = edge_texts(edges@);
                    edges.push(
                        EdgeWrapper::Calls {
                            from: self.node_name_str(a),
                            to: self.node_name_str(targets[i]),
                        },
                    );
                    let ghost edge = EdgeText::Calls {
                        from: self.node_name(a as int),
                        to: self.node_name(targets@[i as int] as int),
                    };
                    assert(edge_texts(edges@) =~= so_far.push(edge));
                    assert(self.calls_from(a as int, (i + 1) as nat) =~= self.calls_from(
                        a as int,
                        i as nat,
                    ).push(edge));
                    i += 1;
                }
            } else {
                assert(before =~= before + self.calls_from(a as int, targets@.len()));
            }
            assert(edge_texts(edges@) =~= defined + self.calls_upto((a + 1) as nat));
            a += 1;
        }
    }
}

impl GraphExporter {
    /// The graph of the package: for each module its node, the nodes of
    /// its structs and functions with their definitions from the source
    /// of the module, where `sources` holds it, and the edges from the
    /// module to what it defines and from its functions to what they
    /// call.
    pub fn export(packages: &Packages, sources: &Vec<Option<String>>) -> (r: GraphOutput)
        requires
            packages.wf(),
        ensures
            node_texts(r.nodes@) == package_nodes(packages, sources@, packages.packages@.len()),
            edge_texts(r.edges@) == package_edges(packages, packages.packages@.len()),
    {
        let mut nodes: Vec<NodeWrapper> = Vec::new();
        let mut edges: Vec<EdgeWrapper> = Vec::new();
        let none: Option<String> = None;
        assert(node_texts(nodes@) =~= package_nodes(packages, sources@, 0));
        assert(edge_texts(edges@) =~= package_edges(packages, 0));
        let mut i: usize = 0;
        while i < packages.packages.len()
            invariant
                packages.wf(),
                none is None,
                i <= packages.packages@.len(),
                node_texts(nodes@) == package_nodes(packages, sources@, i as nat),
                edge_texts(edges@) == package_edges(packages, i as nat),
            decreases packages.packages.len() - i,
        {
            let entry = &packages.packages[i];
            assert(entry.1.wf() && entry.1.lifted_all());
            let source = if i < sources.len() {
                &sources[i]
            } else {
                &none
            };
            entry.1.push_nodes(&entry.0, source, &mut nodes);
            entry.1.push_edges(&entry.0, &mut edges);
            i += 1;
        }
        GraphOutput { nodes, edges }
    }
}

} // verus!
