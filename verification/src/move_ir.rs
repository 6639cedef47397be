pub mod agreement;
pub mod bounds;
pub mod build_graphs;
pub mod bytecode;
pub mod bytecode_display;
pub mod call_graph;
pub mod control_flow_graph;
pub mod data_dependency;
pub mod def_use;
pub mod emit;
pub mod fatloop;
pub mod file_format;
pub mod generate_bytecode;
pub mod kept_writes;
pub mod lift;
pub mod lifted_types;
pub mod listing;
pub mod lowering;
pub mod node_bounds;
pub mod packages;
pub mod sbir_generator;
pub mod temps;
pub mod types;
pub mod u256;
pub mod utils;
