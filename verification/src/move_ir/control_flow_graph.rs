use vstd::prelude::*;
use crate::move_ir::bytecode::{code_view, Bytecode, BytecodeV, Label};
use crate::move_ir::def_use::with_jumps;

verus! {

pub type BlockId = usize;

pub type CodeOffset = usize;

/// What a block of the graph holds: a range of code offsets, both ends
/// included, or nothing for the synthetic entry and exit.
#[derive(Clone, Copy, Debug, PartialEq, Eq, Structural)]
pub enum BlockContent {
    Basic { lower: CodeOffset, upper: CodeOffset },
    Dummy,
}

#[derive(Debug, PartialEq, Eq)]
pub struct Block {
    pub successors: Vec<BlockId>,
    pub content: BlockContent,
}

/// The forward control-flow graph of a function. Block 0 is the synthetic
/// entry, block 1 the synthetic exit, and the basic blocks follow in the
/// order of their code.
pub struct StacklessControlFlowGraph {
    pub entry_block_id: BlockId,
    pub blocks: Vec<Block>,
}

pub const DUMMY_ENTRANCE: BlockId = 0;

pub const DUMMY_EXIT: BlockId = 1;

/// A basic block starts at offset `k`: at the first instruction, at a
/// label, and behind a jump, a branch, a return or an abort.
pub open spec fn is_block_start(code: Seq<BytecodeV>, k: int) -> bool {
    k == 0 || code[k] is Label || code[k - 1].is_branch()
}

/// The number of block starts among the first `k` offsets.
pub open spec fn starts_before(code: Seq<BytecodeV>, k: nat) -> nat
    decreases k,
{
    if k == 0 {
        0
    } else {
        starts_before(code, (k - 1) as nat) + if is_block_start(code, k - 1) {
            1nat
        } else {
            0nat
        }
    }
}

/// The block that holds the instruction at offset `k`.
pub open spec fn block_of(code: Seq<BytecodeV>, k: int) -> nat {
    1 + starts_before(code, (k + 1) as nat)
}

/// The number of blocks of the graph of `code`, entry and exit included.
pub open spec fn block_count(code: Seq<BytecodeV>) -> nat {
    2 + starts_before(code, code.len())
}

/// The last offset among the first `n` that holds the label `l`.
pub open spec fn label_offset(code: Seq<BytecodeV>, l: Label, n: nat) -> Option<int>
    decreases n,
{
    if n == 0 {
        None
    } else if code[n - 1] matches BytecodeV::Label(_, x) && x == l {
        Some(n - 1)
    } else {
        label_offset(code, l, (n - 1) as nat)
    }
}

/// The block that a jump to `l` leads to; none where no instruction holds
/// the label.
pub open spec fn target_block(code: Seq<BytecodeV>, l: Label) -> Seq<BlockId> {
    match label_offset(code, l, code.len()) {
        Some(k) => seq![block_of(code, k) as usize],
        None => Seq::empty(),
    }
}

/// The successors of the basic block that ends at offset `upper`: the
/// targets of its jump or branch, those of a branch in the order of their
/// code; the exit behind a return or an abort; else the block that
/// follows, if there is one.
pub open spec fn successors_of(code: Seq<BytecodeV>, upper: int) -> Seq<BlockId> {
    match code[upper] {
        BytecodeV::Jump(_, l) => target_block(code, l),
        BytecodeV::Branch(_, t, e, _) => {
            let a = target_block(code, t);
            let b = target_block(code, e);
            if a.len() == 1 && b.len() == 1 && a[0] > b[0] {
                b + a
            } else {
                a + b
            }
        },
        BytecodeV::Ret(_, _) => seq![DUMMY_EXIT],
        BytecodeV::Abort(_, _) => seq![DUMMY_EXIT],
        _ => if upper + 1 < code.len() {
            seq![block_of(code, upper + 1) as usize]
        } else {
            Seq::empty()
        },
    }
}

/// Offset `k` is the last of its block.
pub open spec fn is_block_end(code: Seq<BytecodeV>, k: int) -> bool {
    k + 1 == code.len() || is_block_start(code, k + 1)
}

impl StacklessControlFlowGraph {
    /// The graph is the one of `code`: entry and exit are dummies, the
    /// entry leads to the first basic block, and every offset lies in the
    /// block that `block_of` gives, whose range runs from a block start to
    /// the next block end and whose successors are those of its last
    /// instruction.
    pub open spec fn is_graph_of(&self, code: Seq<BytecodeV>) -> bool {
        &&& self.entry_block_id == DUMMY_ENTRANCE
        &&& self.blocks@.len() == block_count(code)
        &&& self.blocks@[0].content == BlockContent::Dummy
        &&& self.blocks@[1].content == BlockContent::Dummy
        &&& self.blocks@[0].successors@ == if code.len() > 0 {
            seq![2usize]
        } else {
            Seq::<usize>::empty()
        }
        &&& self.blocks@[1].successors@ == Seq::<usize>::empty()
        &&& forall|k: int|
            0 <= k < code.len() ==> {
                let b = #[trigger] self.blocks@[block_of(code, k) as int];
                &&& b.content matches BlockContent::Basic { lower, upper }
                &&& lower <= k <= upper < code.len()
                &&& is_block_start(code, lower as int)
                &&& is_block_end(code, upper as int)
                &&& block_of(code, lower as int) == block_of(code, k)
                &&& block_of(code, upper as int) == block_of(code, k)
                &&& b.successors@ == successors_of(code, upper as int)
            }
    }
}

pub proof fn lemma_starts_monotone(code: Seq<BytecodeV>, i: nat, j: nat)
    requires
        i <= j,
    ensures
        starts_before(code, i) <= starts_before(code, j),
        starts_before(code, j) <= starts_before(code, i) + (j - i),
    decreases j,
{
    if i < j {
        lemma_starts_monotone(code, i, (j - 1) as nat);
    }
}

fn is_start(code: &Vec<Bytecode>, k: usize) -> (r: bool)
    requires
        k < code@.len(),
    ensures
        r == is_block_start(code_view(code@), k as int),
{
    assert(code_view(code@)[k as int] == code@[k as int]@);
    if k == 0 {
        return true;
    }
    assert(code_view(code@)[k - 1] == code@[k - 1]@);
    let at_label = match &code[k] {
        Bytecode::Label(_, _) => true,
        _ => false,
    };
    at_label || code[k - 1].is_branch()
}

pub(crate) fn find_label(code: &Vec<Bytecode>, l: Label) -> (r: Option<usize>)
    ensures
        match r {
            Some(k) => label_offset(code_view(code@), l, code@.len()) == Some(k as int) && k
                < code@.len(),
            None => label_offset(code_view(code@), l, code@.len()) is None,
        },
{
    let ghost cv = code_view(code@);
    let mut found: Option<usize> = None;
    let mut k: usize = 0;
    while k < code.len()
        invariant
            k <= code.len(),
            cv == code_view(code@),
            match found {
                Some(j) => label_offset(cv, l, k as nat) == Some(j as int) && j < k,
                None => label_offset(cv, l, k as nat) is None,
            },
        decreases code.len() - k,
    {
        assert(cv[k as int] == code@[k as int]@);
        match &code[k] {
            Bytecode::Label(_, x) => {
                if *x == l {
                    found = Some(k);
                }
            },
            _ => {},
        }
        k += 1;
    }
    found
}

fn target(code: &Vec<Bytecode>, ids: &Vec<usize>, l: Label) -> (r: Vec<BlockId>)
    requires
        ids@.len() == code@.len(),
        forall|j: int| 0 <= j < code@.len() ==> ids@[j] == block_of(code_view(code@), j),
    ensures
        r@ == target_block(code_view(code@), l),
{
    match find_label(code, l) {
        Some(k) => {
            let r = vec![ids[k]];
            assert(r@ =~= target_block(code_view(code@), l));
            r
        },
        None => Vec::new(),
    }
}

fn successors(code: &Vec<Bytecode>, ids: &Vec<usize>, upper: usize) -> (r: Vec<BlockId>)
    requires
        upper < code@.len(),
        ids@.len() == code@.len(),
        forall|j: int| 0 <= j < code@.len() ==> ids@[j] == block_of(code_view(code@), j),
    ensures
        r@ == successors_of(code_view(code@), upper as int),
{
    let ghost cv = code_view(code@);
    assert(cv[upper as int] == code@[upper as int]@);
    match &code[upper] {
        Bytecode::Jump(_, l) => target(code, ids, *l),
        Bytecode::Branch(_, t, e, _) => {
            let mut a = target(code, ids, *t);
            let mut b = target(code, ids, *e);
            let ghost a0 = a@;
            let ghost b0 = b@;
            if a.len() == 1 && b.len() == 1 && a[0] > b[0] {
                b.append(&mut a);
                assert(b@ =~= b0 + a0);
                b
            } else {
                a.append(&mut b);
                assert(a@ =~= a0 + b0);
                a
            }
        },
        Bytecode::Ret(_, _) => {
            let r = vec![DUMMY_EXIT];
            assert(r@ =~= seq![DUMMY_EXIT]);
            r
        },
        Bytecode::Abort(_, _) => {
            let r = vec![DUMMY_EXIT];
            assert(r@ =~= seq![DUMMY_EXIT]);
            r
        },
        _ => {
            if upper < code.len() - 1 {
                let r = vec![ids[upper + 1]];
                assert(r@ =~= seq![block_of(cv, upper + 1) as usize]);
                r
            } else {
                Vec::new()
            }
        },
    }
}

impl StacklessControlFlowGraph {
    /// The forward graph of `code`.
    pub fn new_forward(code: &Vec<Bytecode>) -> (r: Self)
        requires
            code@.len() + 2 <= usize::MAX,
        ensures
            r.is_graph_of(code_view(code@)),
    {
        let n = code.len();
        let ghost cv = code_view(code@);
        let mut ids: Vec<usize> = Vec::new();
        let mut count: usize = 1;
        let mut k: usize = 0;
        while k < n
            invariant
                k <= n,
                n == code@.len(),
                n + 2 <= usize::MAX,
                cv == code_view(code@),
                count == 1 + starts_before(cv, k as nat),
                count <= 1 + k,
                ids@.len() == k,
                forall|j: int| 0 <= j < k ==> ids@[j] == block_of(cv, j),
            decreases n - k,
        {
            if is_start(code, k) {
                count += 1;
            }
            ids.push(count);
            k += 1;
        }
        let mut blocks: Vec<Block> = Vec::new();
        let first: Vec<BlockId> = if n > 0 {
            vec![2]
        } else {
            Vec::new()
        };
        assert(first@ =~= if n > 0 {
            seq![2usize]
        } else {
            Seq::<usize>::empty()
        });
        blocks.push(Block { successors: first, content: BlockContent::Dummy });
        blocks.push(Block { successors: Vec::new(), content: BlockContent::Dummy });
        let ghost head = blocks@;
        let mut lower: usize = 0;
        let mut k: usize = 0;
        while k < n
            invariant
                k <= n,
                lower <= k,
                n == code@.len(),
                n + 2 <= usize::MAX,
                cv == code_view(code@),
                ids@.len() == n,
                forall|j: int| 0 <= j < n ==> ids@[j] == block_of(cv, j),
                blocks@.len() == 2 + starts_before(cv, lower as nat),
                blocks@[0] == head[0],
                blocks@[1] == head[1],
                lower < n ==> is_block_start(cv, lower as int),
                lower < k ==> !is_block_start(cv, k as int) || k == n,
                lower == k || k < n || lower == n,
                forall|j: int| lower <= j < k ==> block_of(cv, j) == block_of(cv, lower as int),
                forall|j: int|
                    0 <= j < lower ==> {
                        let b = #[trigger] blocks@[block_of(cv, j) as int];
                        &&& block_of(cv, j) < blocks@.len()
                        &&& b.content matches BlockContent::Basic { lower: lo, upper: up }
                        &&& lo <= j <= up < n
                        &&& is_block_start(cv, lo as int)
                        &&& is_block_end(cv, up as int)
                        &&& block_of(cv, lo as int) == block_of(cv, j)
                        &&& block_of(cv, up as int) == block_of(cv, j)
                        &&& b.successors@ == successors_of(cv, up as int)
                    },
            decreases n - k,
        {
            let ended = if k + 1 == n {
                true
            } else {
                is_start(code, k + 1)
            };
            proof {
                if lower < k {
                    assert(block_of(cv, k as int) == block_of(cv, k - 1));
                }
                assert(block_of(cv, k as int) == block_of(cv, lower as int));
                lemma_starts_monotone(cv, 0, lower as nat);
            }
            if ended {
                let succ = successors(code, &ids, k);
                let ghost old_blocks = blocks@;
                blocks.push(Block { successors: succ, content: BlockContent::Basic { lower, upper: k } });
                proof {
                    assert(block_of(cv, lower as int) == old_blocks.len());
                    assert(starts_before(cv, (k + 1) as nat) == starts_before(
                        cv,
                        (lower + 1) as nat,
                    ));
                    assert forall|j: int| 0 <= j < k + 1 implies {
                        let b = #[trigger] blocks@[block_of(cv, j) as int];
                        &&& block_of(cv, j) < blocks@.len()
                        &&& b.content matches BlockContent::Basic { lower: lo, upper: up }
                        &&& lo <= j <= up < n
                        &&& is_block_start(cv, lo as int)
                        &&& is_block_end(cv, up as int)
                        &&& block_of(cv, lo as int) == block_of(cv, j)
                        &&& block_of(cv, up as int) == block_of(cv, j)
                        &&& b.successors@ == successors_of(cv, up as int)
                    } by {
                        if j < lower {
                            assert(old_blocks[block_of(cv, j) as int] == blocks@[block_of(
                                cv,
                                j,
                            ) as int]);
                        }
                    }
                }
                lower = k + 1;
            }
            k += 1;
        }
        StacklessControlFlowGraph { entry_block_id: DUMMY_ENTRANCE, blocks }
    }

    pub fn entry_block(&self) -> (r: BlockId)
        ensures
            r == self.entry_block_id,
    {
        self.entry_block_id
    }

    pub fn exit_block(&self) -> (r: BlockId)
        ensures
            r == DUMMY_EXIT,
    {
        DUMMY_EXIT
    }

    pub fn num_blocks(&self) -> (r: usize)
        ensures
            r == self.blocks@.len(),
    {
        self.blocks.len()
    }

    /// The identifiers of all blocks, in ascending order.
    pub fn blocks(&self) -> (r: Vec<BlockId>)
        ensures
            r@.len() == self.blocks@.len(),
            forall|i: int| 0 <= i < r@.len() ==> r@[i] == i,
    {
        let mut out: Vec<BlockId> = Vec::new();
        let mut i: usize = 0;
        while i < self.blocks.len()
            invariant
                i <= self.blocks.len(),
                out@.len() == i,
                forall|j: int| 0 <= j < i ==> out@[j] == j,
            decreases self.blocks.len() - i,
        {
            out.push(i);
            i += 1;
        }
        out
    }

    pub fn successors(&self, block_id: BlockId) -> (r: &Vec<BlockId>)
        requires
            block_id < self.blocks@.len(),
        ensures
            r == self.blocks@[block_id as int].successors,
    {
        &self.blocks[block_id].successors
    }

    pub fn content(&self, block_id: BlockId) -> (r: &BlockContent)
        requires
            block_id < self.blocks@.len(),
        ensures
            *r == self.blocks@[block_id as int].content,
    {
        &self.blocks[block_id].content
    }

    pub fn is_dummmy(&self, block_id: BlockId) -> (r: bool)
        requires
            block_id < self.blocks@.len(),
        ensures
            r == (self.blocks@[block_id as int].content is Dummy),
    {
        match self.blocks[block_id].content {
            BlockContent::Dummy => true,
            _ => false,
        }
    }
}

/// Every number from one to the number of block starts among the first
/// `n` offsets is the number of block starts up to one of them.
pub proof fn lemma_every_block_holds(code: Seq<BytecodeV>, n: nat, v: nat)
    requires
        1 <= v <= starts_before(code, n),
    ensures
        exists|k: int| 0 <= k < n && #[trigger] block_of(code, k) == 1 + v,
    decreases n,
{
    if n > 0 {
        if starts_before(code, n) == v {
            assert(block_of(code, n - 1) == 1 + v);
        } else {
            lemma_every_block_holds(code, (n - 1) as nat, v);
        }
    }
}

/// The offsets between two offsets of one block are of that block.
pub proof fn lemma_between(code: Seq<BytecodeV>, lower: int, k: int, upper: int)
    requires
        0 <= lower <= k <= upper,
        block_of(code, lower) == block_of(code, upper),
    ensures
        block_of(code, k) == block_of(code, lower),
{
    lemma_starts_monotone(code, (lower + 1) as nat, (k + 1) as nat);
    lemma_starts_monotone(code, (k + 1) as nat, (upper + 1) as nat);
}

impl StacklessControlFlowGraph {
    /// The offset `k` lies in the range of the basic block `b`.
    pub open spec fn holds_offset(&self, b: int, k: int) -> bool {
        self.blocks@[b].content matches BlockContent::Basic { lower, upper } && lower <= k <= upper
    }
}

/// The basic blocks of a graph part its code: every basic block holds a
/// range of offsets that is not empty and lies within the code, every
/// offset lies in the range of one block, and in that of no other.
pub proof fn lemma_block_partition(cfg: &StacklessControlFlowGraph, code: Seq<BytecodeV>)
    requires
        cfg.is_graph_of(code),
    ensures
        forall|b: int|
            2 <= b < cfg.blocks@.len() ==> {
                let content = (#[trigger] cfg.blocks@[b]).content;
                &&& content is Basic
                &&& content->lower <= content->upper < code.len()
                &&& block_of(code, content->lower as int) == b
            },
        forall|k: int|
            0 <= k < code.len() ==> 2 <= #[trigger] block_of(code, k) < cfg.blocks@.len(),
        forall|b: int, k: int|
            2 <= b < cfg.blocks@.len() && 0 <= k < code.len() ==> (#[trigger] cfg.holds_offset(b, k)
                <==> block_of(code, k) == b),
{
    assert forall|k: int| 0 <= k < code.len() implies 2 <= #[trigger] block_of(code, k)
        < cfg.blocks@.len() by {
        lemma_starts_monotone(code, 1, (k + 1) as nat);
        lemma_starts_monotone(code, (k + 1) as nat, code.len());
        assert(starts_before(code, 0) == 0);
        assert(is_block_start(code, 0));
    }
    assert forall|b: int| 2 <= b < cfg.blocks@.len() implies {
        let content = (#[trigger] cfg.blocks@[b]).content;
        &&& content is Basic
        &&& content->lower <= content->upper < code.len()
        &&& block_of(code, content->lower as int) == b
    } by {
        lemma_every_block_holds(code, code.len(), (b - 1) as nat);
        let k = choose|k: int| 0 <= k < code.len() && #[trigger] block_of(code, k) == b;
        assert(cfg.blocks@[block_of(code, k) as int] == cfg.blocks@[b]);
    }
    assert forall|b: int, k: int| 2 <= b < cfg.blocks@.len() && 0 <= k < code.len() implies (
    #[trigger] cfg.holds_offset(b, k) <==> block_of(code, k) == b) by {
        let lower = cfg.blocks@[b].content->lower as int;
        let upper = cfg.blocks@[b].content->upper as int;
        if block_of(code, k) == b {
            assert(cfg.blocks@[block_of(code, k) as int] == cfg.blocks@[b]);
        }
        if lower <= k <= upper {
            assert(cfg.blocks@[block_of(code, upper) as int].content is Basic);
            assert(cfg.blocks@[block_of(code, lower) as int] == cfg.blocks@[b]);
            lemma_between(code, lower, k, upper);
        }
    }
}

/// Once jumps are put before labels, every label but one at the start
/// stands behind a jump, a branch, a return or an abort.
pub proof fn lemma_labels_follow_jumps(src: Seq<BytecodeV>, n: nat)
    requires
        n <= src.len(),
    ensures
        forall|k: int|
            1 <= k < with_jumps(src, n).len() && #[trigger] with_jumps(src, n)[k] is Label
                ==> with_jumps(src, n)[k - 1].is_branch(),
        n > 0 ==> with_jumps(src, n).len() > 0 && with_jumps(src, n).last() == src[n - 1],
    decreases n,
{
    if n > 0 {
        lemma_labels_follow_jumps(src, (n - 1) as nat);
        let prev = with_jumps(src, (n - 1) as nat);
        let out = with_jumps(src, n);
        assert forall|k: int| 1 <= k < out.len() && #[trigger] out[k] is Label implies out[k
            - 1].is_branch() by {
            if k < prev.len() {
                assert(out[k] == prev[k]);
                assert(out[k - 1] == prev[k - 1]);
            }
        }
    }
}

/// In the graph of code with jumps put before its labels, every basic
/// block but the last ends in a jump, a branch, a return or an abort, and
/// the last ends as the code ends.
pub proof fn lemma_blocks_end_in_jumps(
    cfg: &StacklessControlFlowGraph,
    src: Seq<BytecodeV>,
    b: int,
)
    requires
        cfg.is_graph_of(with_jumps(src, src.len())),
        2 <= b < cfg.blocks@.len(),
    ensures
        ({
            let code = with_jumps(src, src.len());
            let upper = cfg.blocks@[b].content->upper;
            &&& cfg.blocks@[b].content is Basic
            &&& upper < code.len()
            &&& code[upper as int].is_branch() || (upper + 1 == code.len() && code[upper as int]
                == src.last())
        }),
{
    let code = with_jumps(src, src.len());
    lemma_block_partition(cfg, code);
    lemma_labels_follow_jumps(src, src.len());
    let lower = cfg.blocks@[b].content->lower as int;
    let upper = cfg.blocks@[b].content->upper as int;
    assert(cfg.blocks@[block_of(code, lower) as int] == cfg.blocks@[b]);
    assert(is_block_end(code, upper));
    if upper + 1 < code.len() {
        assert(is_block_start(code, upper + 1));
        if code[upper + 1] is Label {
            assert(with_jumps(src, src.len())[upper + 1] is Label);
        }
    }
}

/// Two block starts of one block are one offset.
proof fn lemma_one_start(code: Seq<BytecodeV>, x: int, y: int)
    requires
        0 <= x < y,
        is_block_start(code, y),
    ensures
        block_of(code, x) < block_of(code, y),
{
    lemma_starts_monotone(code, (x + 1) as nat, y as nat);
}

/// Code has one graph: two graphs of the same code have the same blocks
/// with the same ranges and the same successors.
pub proof fn lemma_graph_unique(
    a: &StacklessControlFlowGraph,
    b: &StacklessControlFlowGraph,
    code: Seq<BytecodeV>,
)
    requires
        a.is_graph_of(code),
        b.is_graph_of(code),
    ensures
        a.entry_block_id == b.entry_block_id,
        a.blocks@.len() == b.blocks@.len(),
        forall|i: int|
            0 <= i < a.blocks@.len() ==> (#[trigger] a.blocks@[i]).content == b.blocks@[i].content
                && a.blocks@[i].successors@ == b.blocks@[i].successors@,
{
    assert forall|i: int| 0 <= i < a.blocks@.len() implies (#[trigger] a.blocks@[i]).content
        == b.blocks@[i].content && a.blocks@[i].successors@ == b.blocks@[i].successors@ by {
        if i >= 2 {
            lemma_every_block_holds(code, code.len(), (i - 1) as nat);
            let k = choose|k: int| 0 <= k < code.len() && #[trigger] block_of(code, k) == i;
            let x = a.blocks@[block_of(code, k) as int];
            let y = b.blocks@[block_of(code, k) as int];
            let la = x.content->lower as int;
            let ua = x.content->upper as int;
            let lb = y.content->lower as int;
            let ub = y.content->upper as int;
            if la < lb {
                lemma_one_start(code, la, lb);
            }
            if lb < la {
                lemma_one_start(code, lb, la);
            }
            if ua < ub {
                lemma_one_start(code, ua, ua + 1);
                lemma_starts_monotone(code, (ua + 2) as nat, (ub + 1) as nat);
            }
            if ub < ua {
                lemma_one_start(code, ub, ub + 1);
                lemma_starts_monotone(code, (ub + 2) as nat, (ua + 1) as nat);
            }
        }
    }
}

} // verus!
