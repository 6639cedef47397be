use move_scanner::move_ir::bytecode::{AttrId, Bytecode, Label, Operation};
use move_scanner::move_ir::control_flow_graph::{
    BlockContent, StacklessControlFlowGraph, DUMMY_ENTRANCE, DUMMY_EXIT,
};
use move_scanner::move_ir::def_use::{build_def_use, eliminate_fallthrough};
use move_scanner::utils::graph::{reach, FlowGraph, NaturalLoop};

fn looping_code() -> Vec<Bytecode> {
    vec![
        Bytecode::Label(AttrId(0), Label(0)),
        Bytecode::Call(AttrId(1), vec![1], Operation::Not, vec![0], None),
        Bytecode::Branch(AttrId(2), Label(1), Label(0), 1),
        Bytecode::Label(AttrId(3), Label(1)),
        Bytecode::Ret(AttrId(4), vec![]),
    ]
}

#[test]
fn blocks_part_the_code() {
    let code = looping_code();
    let cfg = StacklessControlFlowGraph::new_forward(&code);
    assert_eq!(cfg.entry_block(), DUMMY_ENTRANCE);
    assert_eq!(cfg.exit_block(), DUMMY_EXIT);
    assert_eq!(cfg.num_blocks(), 4);
    assert_eq!(cfg.blocks(), vec![0, 1, 2, 3]);
    assert!(cfg.is_dummmy(0));
    assert!(cfg.is_dummmy(1));
    assert!(!cfg.is_dummmy(2));
    assert_eq!(*cfg.content(0), BlockContent::Dummy);
    assert_eq!(*cfg.content(1), BlockContent::Dummy);
    assert_eq!(*cfg.content(2), BlockContent::Basic { lower: 0, upper: 2 });
    assert_eq!(*cfg.content(3), BlockContent::Basic { lower: 3, upper: 4 });
    assert_eq!(cfg.successors(0), &vec![2]);
    assert!(cfg.successors(1).is_empty());
    assert_eq!(cfg.successors(2), &vec![2, 3]);
    assert_eq!(cfg.successors(3), &vec![1]);
    let mut next = 0;
    for b in 2..cfg.num_blocks() {
        match cfg.content(b) {
            BlockContent::Basic { lower, upper } => {
                assert_eq!(*lower, next);
                assert!(lower <= upper);
                next = upper + 1;
            }
            BlockContent::Dummy => panic!("a basic block was expected"),
        }
    }
    assert_eq!(next, code.len());
}

#[test]
fn code_without_instructions_has_only_the_dummies() {
    let cfg = StacklessControlFlowGraph::new_forward(&vec![]);
    assert_eq!(cfg.num_blocks(), 2);
    assert!(cfg.successors(0).is_empty());
    assert!(cfg.successors(1).is_empty());
}

#[test]
fn block_without_a_jump_falls_through_to_the_next() {
    let code = vec![
        Bytecode::Nop(AttrId(0)),
        Bytecode::Label(AttrId(1), Label(0)),
        Bytecode::Abort(AttrId(2), 0),
        Bytecode::Nop(AttrId(3)),
    ];
    let cfg = StacklessControlFlowGraph::new_forward(&code);
    assert_eq!(cfg.num_blocks(), 5);
    assert_eq!(*cfg.content(2), BlockContent::Basic { lower: 0, upper: 0 });
    assert_eq!(*cfg.content(3), BlockContent::Basic { lower: 1, upper: 2 });
    assert_eq!(*cfg.content(4), BlockContent::Basic { lower: 3, upper: 3 });
    assert_eq!(cfg.successors(2), &vec![3]);
    assert_eq!(cfg.successors(3), &vec![1]);
    assert!(cfg.successors(4).is_empty());
}

#[test]
fn jump_to_a_missing_label_leads_nowhere() {
    let code = vec![Bytecode::Jump(AttrId(0), Label(9))];
    let cfg = StacklessControlFlowGraph::new_forward(&code);
    assert_eq!(cfg.num_blocks(), 3);
    assert!(cfg.successors(2).is_empty());
}

#[test]
fn jumps_are_put_before_labels_that_are_fallen_into() {
    let code = vec![
        Bytecode::Label(AttrId(0), Label(0)),
        Bytecode::Nop(AttrId(1)),
        Bytecode::Label(AttrId(2), Label(1)),
        Bytecode::Ret(AttrId(3), vec![]),
        Bytecode::Label(AttrId(4), Label(2)),
        Bytecode::Ret(AttrId(5), vec![]),
    ];
    let out = eliminate_fallthrough(code);
    let expected = vec![
        Bytecode::Label(AttrId(0), Label(0)),
        Bytecode::Nop(AttrId(1)),
        Bytecode::Jump(AttrId(2), Label(1)),
        Bytecode::Label(AttrId(2), Label(1)),
        Bytecode::Ret(AttrId(3), vec![]),
        Bytecode::Label(AttrId(4), Label(2)),
        Bytecode::Ret(AttrId(5), vec![]),
    ];
    assert_eq!(out, expected);
    for k in 1..out.len() {
        if matches!(out[k], Bytecode::Label(_, _)) {
            assert!(out[k - 1].is_branch());
        }
    }
}

#[test]
fn definitions_and_uses_are_listed_by_temp() {
    let code = vec![
        Bytecode::Assign(AttrId(0), 1, 0, move_scanner::move_ir::bytecode::AssignKind::Copy),
        Bytecode::Call(AttrId(1), vec![2, 2], Operation::Add, vec![1, 1], None),
        Bytecode::Branch(AttrId(2), Label(0), Label(0), 2),
        Bytecode::Ret(AttrId(3), vec![9, 1]),
    ];
    let (defs, uses) = build_def_use(&code, 3);
    assert_eq!(defs, vec![vec![], vec![0], vec![1, 1]]);
    assert_eq!(uses, vec![vec![0], vec![1, 1, 3], vec![2]]);
}

#[test]
fn reachability_may_avoid_a_node() {
    let succ = vec![vec![1], vec![2], vec![3, 1], vec![]];
    assert_eq!(reach(&succ, 0, None), vec![true, true, true, true]);
    assert_eq!(reach(&succ, 0, Some(2)), vec![true, true, false, false]);
    assert_eq!(reach(&succ, 2, None), vec![false, true, true, true]);
    assert_eq!(reach(&succ, 3, None), vec![false, false, false, true]);
    assert_eq!(reach(&succ, 0, Some(0)), vec![false, false, false, false]);
    assert_eq!(reach(&succ, 7, None), vec![false, false, false, false]);
}

#[test]
fn back_edge_gives_a_natural_loop() {
    let g = FlowGraph::new(0, 4, &vec![(0, 1), (1, 2), (2, 1), (2, 3)]);
    assert_eq!(g.entry, 0);
    assert_eq!(g.successors, vec![vec![1], vec![2], vec![1, 3], vec![]]);
    let loops = g.compute_reducible();
    assert_eq!(
        loops,
        Some(vec![NaturalLoop { loop_header: 1, loop_latch: 2, loop_body: vec![1, 2] }])
    );
}

#[test]
fn self_edge_is_a_loop_of_one_node() {
    let g = FlowGraph::new(0, 2, &vec![(0, 1), (1, 1)]);
    assert_eq!(
        g.compute_reducible(),
        Some(vec![NaturalLoop { loop_header: 1, loop_latch: 1, loop_body: vec![1] }])
    );
}

#[test]
fn nested_loops_share_their_inner_nodes() {
    let g = FlowGraph::new(0, 5, &vec![(0, 1), (1, 2), (2, 3), (3, 2), (3, 1), (3, 4)]);
    let mut loops = g.compute_reducible().expect("the graph is reducible");
    loops.sort_by_key(|l| l.loop_header);
    assert_eq!(
        loops,
        vec![
            NaturalLoop { loop_header: 1, loop_latch: 3, loop_body: vec![1, 2, 3] },
            NaturalLoop { loop_header: 2, loop_latch: 3, loop_body: vec![2, 3] },
        ]
    );
}

#[test]
fn graph_without_a_cycle_has_no_loop() {
    let g = FlowGraph::new(0, 4, &vec![(0, 1), (0, 2), (1, 3), (2, 3)]);
    assert_eq!(g.compute_reducible(), Some(vec![]));
}

#[test]
fn cycle_with_two_entries_is_not_reducible() {
    let g = FlowGraph::new(0, 3, &vec![(0, 1), (0, 2), (1, 2), (2, 1)]);
    assert_eq!(g.compute_reducible(), None);
}

#[test]
fn edges_from_unknown_nodes_are_left_out() {
    let g = FlowGraph::new(0, 2, &vec![(0, 1), (5, 1), (1, 0)]);
    assert_eq!(g.successors, vec![vec![1], vec![0]]);
}
