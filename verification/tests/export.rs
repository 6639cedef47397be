use move_scanner::move_ir::file_format::{
    CodeUnit, CompiledModule, FieldDefinition, FunctionDefinition, FunctionHandle, ModuleHandle,
    MoveBytecode, Signature, SignatureToken, StructDefinition, StructFieldInformation,
    StructHandle, Visibility,
};
use move_scanner::move_ir::packages::Packages;
use move_scanner::move_ir::u256::U256;
use move_scanner::scanner::exporter::{
    definition_len, extract_definition, get_struct_abilities_strs, GraphExporter,
};
use move_scanner::scanner::graph::{EdgeWrapper, NodeWrapper};

fn coin() -> CompiledModule {
    CompiledModule {
        self_module_handle_idx: 0,
        module_handles: vec![ModuleHandle { address: 0, name: 0 }],
        struct_handles: vec![StructHandle { module: 0, name: 3, abilities: 12 }],
        function_handles: vec![
            FunctionHandle { module: 0, name: 1, parameters: 1, return_: 0, type_parameters: 0 },
            FunctionHandle { module: 0, name: 2, parameters: 0, return_: 0, type_parameters: 0 },
        ],
        field_handles: vec![],
        struct_def_instantiations: vec![],
        function_instantiations: vec![],
        field_instantiations: vec![],
        signatures: vec![Signature(vec![]), Signature(vec![SignatureToken::U64])],
        identifiers: vec![
            "coin".to_string(),
            "mint".to_string(),
            "burn".to_string(),
            "Coin".to_string(),
            "value".to_string(),
        ],
        address_identifiers: vec![U256::new(1)],
        constant_pool: vec![],
        struct_defs: vec![StructDefinition {
            struct_handle: 0,
            field_information: StructFieldInformation::Declared(vec![FieldDefinition {
                name: 4,
                signature: SignatureToken::U64,
            }]),
        }],
        function_defs: vec![
            FunctionDefinition {
                function: 0,
                visibility: Visibility::Public,
                is_entry: false,
                code: Some(CodeUnit {
                    locals: 0,
                    code: vec![MoveBytecode::Call(1), MoveBytecode::Ret],
                }),
            },
            FunctionDefinition {
                function: 1,
                visibility: Visibility::Private,
                is_entry: false,
                code: None,
            },
        ],
    }
}

fn chars(s: &str) -> Vec<char> {
    s.chars().collect()
}

#[test]
fn definition_ends_with_its_body_or_its_semicolon() {
    assert_eq!(definition_len(&chars("fun f() { if (x) { y } } fun g() {}")), 24);
    assert_eq!(definition_len(&chars("native fun f(); fun g() {}")), 15);
    assert_eq!(definition_len(&chars("struct S { a: u8; b: u8 } ;")), 25);
    assert_eq!(definition_len(&chars("fun f() { { }")), 0);
    assert_eq!(definition_len(&chars("fun f()")), 0);
    assert_eq!(definition_len(&chars("")), 0);
    assert_eq!(definition_len(&chars("} fun f() {}")), 0);
    assert_eq!(definition_len(&chars("{}")), 2);
    assert_eq!(definition_len(&chars(";")), 1);
}

#[test]
fn definition_is_found_by_kind_and_name() {
    let source = "module 0x1::coin {\n    struct Coin has key { value: u64 }\n    \
                  public fun mint(x: u64) { burn() }\n    native fun burn();\n    \
                  fun mint_all() {}\n}\n";
    assert_eq!(extract_definition(source, "fun", "mint"), "fun mint(x: u64) { burn() }");
    assert_eq!(extract_definition(source, "fun", "burn"), "fun burn();");
    assert_eq!(extract_definition(source, "fun", "mint_all"), "fun mint_all() {}");
    assert_eq!(extract_definition(source, "struct", "Coin"), "struct Coin has key { value: u64 }");
    assert_eq!(extract_definition(source, "fun", "absent"), "");
    assert_eq!(extract_definition(source, "struct", "mint"), "");
    assert_eq!(extract_definition("fun  a.b() {}", "fun", "a.b"), "fun  a.b() {}");
    assert_eq!(extract_definition("fun axb() {}", "fun", "a.b"), "");
    assert_eq!(extract_definition("fun f() {", "fun", "f"), "");
}

#[test]
fn definition_is_found_behind_text_of_more_than_one_byte_a_character() {
    let source = "// prêt à émettre — 硬币\nfun mint() { burn() } // après\n";
    assert_eq!(extract_definition(source, "fun", "mint"), "fun mint() { burn() }");
    let source = "fun é() { /* ü */ } fun f() {}";
    assert_eq!(extract_definition(source, "fun", "f"), "fun f() {}");
    assert_eq!(extract_definition(source, "fun", "é"), "fun é() { /* ü */ }");
}

#[test]
fn abilities_are_named_in_a_fixed_order() {
    let names = |bits: u8| get_struct_abilities_strs(bits);
    assert!(names(0).is_empty());
    assert_eq!(names(1), vec!["copy"]);
    assert_eq!(names(2), vec!["drop"]);
    assert_eq!(names(4), vec!["store"]);
    assert_eq!(names(8), vec!["key"]);
    assert_eq!(names(15), vec!["copy", "drop", "store", "key"]);
    assert_eq!(names(12), vec!["store", "key"]);
    assert_eq!(names(16), Vec::<String>::new());
}

#[test]
fn graph_has_a_node_for_each_module_struct_and_function() {
    let cms = vec![coin()];
    let p = Packages::try_new(&cms).expect("the module can be lifted");
    let source = "module 0x1::coin {\n    struct Coin has store, key { value: u64 }\n    \
                  public fun mint(x: u64) { burn() }\n    native fun burn();\n}\n";
    let graph = GraphExporter::export(&p, &vec![Some(source.to_string())]);
    assert_eq!(graph.nodes.len(), 4);
    match &graph.nodes[0] {
        NodeWrapper::Module(m) => {
            assert_eq!(m.id, "0x1::coin");
            assert_eq!(m.address, "0x1");
            assert_eq!(m.name, "coin");
        }
        _ => panic!("a module was expected"),
    }
    match &graph.nodes[1] {
        NodeWrapper::Struct(s) => {
            assert_eq!(s.id, "0x1::coin::Coin");
            assert_eq!(s.module_id, "0x1::coin");
            assert_eq!(s.name, "Coin");
            assert_eq!(s.abilities, vec!["store", "key"]);
            assert!(s.is_resource);
            assert_eq!(s.source, "struct Coin has store, key { value: u64 }");
        }
        _ => panic!("a struct was expected"),
    }
    match &graph.nodes[2] {
        NodeWrapper::Function(f) => {
            assert_eq!(f.id, "0x1::coin::mint");
            assert_eq!(f.module_id, "0x1::coin");
            assert_eq!(f.name, "mint");
            assert_eq!(f.visibility, "public");
            assert!(!f.is_native);
            assert_eq!(f.arg_count, 1);
            assert_eq!(f.source, "fun mint(x: u64) { burn() }");
        }
        _ => panic!("a function was expected"),
    }
    match &graph.nodes[3] {
        NodeWrapper::Function(f) => {
            assert_eq!(f.id, "0x1::coin::burn");
            assert_eq!(f.visibility, "private");
            assert!(f.is_native);
            assert_eq!(f.arg_count, 0);
            assert_eq!(f.source, "fun burn();");
        }
        _ => panic!("a function was expected"),
    }
    let edges: Vec<(bool, &str, &str)> = graph
        .edges
        .iter()
        .map(|e| match e {
            EdgeWrapper::Defines { from, to } => (false, from.as_str(), to.as_str()),
            EdgeWrapper::Calls { from, to } => (true, from.as_str(), to.as_str()),
        })
        .collect();
    assert_eq!(
        edges,
        vec![
            (false, "0x1::coin", "0x1::coin::Coin"),
            (false, "0x1::coin", "0x1::coin::mint"),
            (false, "0x1::coin", "0x1::coin::burn"),
            (true, "coin::mint", "coin::burn"),
        ]
    );
}

#[test]
fn graph_without_sources_has_no_definitions() {
    let cms = vec![coin()];
    let p = Packages::try_new(&cms).expect("the module can be lifted");
    let graph = GraphExporter::export(&p, &vec![]);
    for node in graph.nodes.iter() {
        match node {
            NodeWrapper::Module(_) => {}
            NodeWrapper::Struct(s) => assert_eq!(s.source, ""),
            NodeWrapper::Function(f) => assert_eq!(f.source, ""),
        }
    }
    let none: Vec<CompiledModule> = vec![];
    let empty = Packages::try_new(&none).expect("no module, no failure");
    let graph = GraphExporter::export(&empty, &vec![]);
    assert!(graph.nodes.is_empty());
    assert!(graph.edges.is_empty());
}
