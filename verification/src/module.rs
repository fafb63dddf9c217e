//! Modules: a block of nodes with the pools that own them, and what a
//! kernel or a callable adds to it.

use crate::block::{closed, nested_blocks};
use crate::node::{BasicBlock, CallableModuleRef, CpuCustomOp, Instruction, NodeRef};
use crate::pool::ModulePools;
use crate::registry::TypeRef;
use std::collections::HashSet;
use vstd::prelude::*;

verus! {

#[derive(Clone, Copy, Debug, PartialEq, Eq, Hash, Structural)]
pub enum ModuleKind {
    Block,
    Function,
    Kernel,
}

#[derive(Clone, Copy, Debug, PartialEq, Eq, Hash, Structural)]
pub struct BufferBinding {
    pub handle: u64,
    pub offset: u64,
    pub size: usize,
}

#[derive(Clone, Copy, Debug, PartialEq, Eq, Hash, Structural)]
pub struct TextureBinding {
    pub handle: u64,
    pub level: u32,
}

#[derive(Clone, Copy, Debug, PartialEq, Eq, Hash, Structural)]
pub struct BindlessArrayBinding {
    pub handle: u64,
}

#[derive(Clone, Copy, Debug, PartialEq, Eq, Hash, Structural)]
pub struct AccelBinding {
    pub handle: u64,
}

/// What a captured resource is bound to on the host.
#[derive(Clone, Copy, Debug, PartialEq, Eq, Hash, Structural)]
pub enum Binding {
    Buffer(BufferBinding),
    Texture(TextureBinding),
    BindlessArray(BindlessArrayBinding),
    Accel(AccelBinding),
}

/// A resource node with its binding.
#[derive(Clone, Copy, Debug, PartialEq, Eq, Hash, Structural)]
pub struct Capture {
    pub node: NodeRef,
    pub binding: Binding,
}

pub struct Module {
    pub kind: ModuleKind,
    pub entry: BasicBlock,
    pub pools: ModulePools,
}

pub struct CallableModule {
    pub module: Module,
    pub ret_type: TypeRef,
    pub args: Vec<NodeRef>,
    pub captures: Vec<Capture>,
    pub callables: Vec<CallableModuleRef>,
    pub cpu_custom_ops: Vec<CpuCustomOp>,
}

pub struct KernelModule {
    pub module: Module,
    pub captures: Vec<Capture>,
    pub args: Vec<NodeRef>,
    pub shared: Vec<NodeRef>,
    pub cpu_custom_ops: Vec<CpuCustomOp>,
    pub callables: Vec<CallableModuleRef>,
    pub block_size: [u32; 3],
}

pub struct BlockModule {
    pub module: Module,
}

/// Depth-first visit of the node `n`: a node that was seen is passed over;
/// a new one is recorded, and then the blocks nested in it are visited.
/// `seen` holds the nodes in the order in which they were recorded, and
/// `fuel` bounds the depth of nesting that is followed.
pub open spec fn visit_node(p: &ModulePools, n: NodeRef, seen: Seq<NodeRef>, fuel: nat) -> Seq<
    NodeRef,
>
    decreases fuel, 0nat, 0nat,
{
    if seen.contains(n) {
        seen
    } else if fuel == 0 {
        seen.push(n)
    } else {
        visit_blocks(p, nested_blocks(p.instruction(n)), seen.push(n), (fuel - 1) as nat)
    }
}

/// Depth-first visit of nodes, one after the other.
pub open spec fn visit_nodes(p: &ModulePools, nodes: Seq<NodeRef>, seen: Seq<NodeRef>, fuel: nat) -> Seq<
    NodeRef,
>
    decreases fuel, 1nat, nodes.len(),
{
    if nodes.len() == 0 {
        seen
    } else {
        visit_nodes(p, nodes.drop_first(), visit_node(p, nodes[0], seen, fuel), fuel)
    }
}

/// Depth-first visit of the nodes of blocks, one block after the other.
pub open spec fn visit_blocks(
    p: &ModulePools,
    blocks: Seq<BasicBlock>,
    seen: Seq<NodeRef>,
    fuel: nat,
) -> Seq<NodeRef>
    decreases fuel, 2nat, blocks.len(),
{
    if blocks.len() == 0 {
        seen
    } else {
        visit_blocks(
            p,
            blocks.drop_first(),
            visit_nodes(p, blocks[0].nodes_spec(p), seen, fuel),
            fuel,
        )
    }
}

impl Module {
    /// The pools have link integrity, the entry block and every nested
    /// block are well formed.
    pub open spec fn wf(&self) -> bool {
        &&& self.pools.wf()
        &&& self.entry.wf(&self.pools)
        &&& closed(&self.pools)
    }

    /// The nodes of the module in depth-first preorder: the nodes of the
    /// entry block in order, each followed by the nodes of the blocks nested
    /// in it.  Nesting cannot be deeper than there are nodes.
    pub open spec fn spec_collect_nodes(&self) -> Seq<NodeRef> {
        visit_nodes(
            &self.pools,
            self.entry.nodes_spec(&self.pools),
            Seq::empty(),
            self.pools.len(),
        )
    }

    /// A block module of a block that was built in `pools`.
    pub fn from_fragment(entry: BasicBlock, pools: ModulePools) -> (r: Self)
        ensures
            r.kind == ModuleKind::Block,
            r.entry == entry,
            r.pools == pools,
    {
        Module { kind: ModuleKind::Block, entry, pools }
    }
}

/// Distinct handles among the first `n` are at most `n`.
pub proof fn lemma_distinct_bounded(s: Seq<NodeRef>, n: nat)
    requires
        s.no_duplicates(),
        forall|i: int| 0 <= i < s.len() ==> 1 <= (#[trigger] s[i]).0 <= n,
    ensures
        s.len() <= n,
    decreases n,
{
    if s.len() == 0 {
    } else if n == 0 {
        assert(1 <= s[0].0 <= n);
    } else if exists|i: int| 0 <= i < s.len() && s[i].0 == n {
        let i = choose|i: int| 0 <= i < s.len() && s[i].0 == n;
        let t = s.remove(i);
        assert forall|j: int| 0 <= j < t.len() implies 1 <= (#[trigger] t[j]).0 <= n - 1 by {
            let jj = if j < i {
                j
            } else {
                j + 1
            };
            assert(t[j] == s[jj]);
            assert(s[jj] != s[i]);
        }
        assert(t.no_duplicates()) by {
            assert forall|a: int, b: int| 0 <= a < t.len() && 0 <= b < t.len() && a != b implies t[a]
                != t[b] by {
                let aa = if a < i {
                    a
                } else {
                    a + 1
                };
                let bb = if b < i {
                    b
                } else {
                    b + 1
                };
                assert(t[a] == s[aa]);
                assert(t[b] == s[bb]);
            }
        }
        lemma_distinct_bounded(t, (n - 1) as nat);
    } else {
        assert forall|j: int| 0 <= j < s.len() implies 1 <= (#[trigger] s[j]).0 <= n - 1 by {
            assert(1 <= s[j].0 <= n);
        }
        lemma_distinct_bounded(s, (n - 1) as nat);
    }
}

/// The nodes recorded so far, with the set of their handles for fast lookup.
struct NodeCollector {
    nodes: Vec<NodeRef>,
    unique: HashSet<usize>,
}

impl NodeCollector {
    /// No node is recorded twice, every recorded node is a node of the
    /// pool, and the set holds the recorded handles.
    spec fn inv(&self, p: &ModulePools) -> bool {
        &&& self.nodes@.no_duplicates()
        &&& forall|i: int| 0 <= i < self.nodes@.len() ==> p.contains(#[trigger] self.nodes@[i])
        &&& forall|x: usize| self.unique@.contains(x) <==> self.nodes@.contains(NodeRef(x))
    }

    fn new() -> (r: Self)
        ensures
            r.nodes@ == Seq::<NodeRef>::empty(),
            forall|p: &ModulePools| r.inv(p),
    {
        let r = NodeCollector { nodes: Vec::new(), unique: HashSet::new() };
        assert forall|p: &ModulePools| r.inv(p) by {
            assert forall|x: usize| r.unique@.contains(x) <==> r.nodes@.contains(NodeRef(x)) by {}
        }
        r
    }

    fn visit_block(&mut self, pools: &ModulePools, block: BasicBlock, Ghost(fuel): Ghost<nat>)
        requires
            old(self).inv(pools),
            pools.wf(),
            closed(pools),
            block.wf(pools),
            fuel + old(self).nodes@.len() >= pools.len(),
        ensures
            final(self).inv(pools),
            final(self).nodes@ == visit_nodes(pools, block.nodes_spec(pools), old(self).nodes@, fuel),
            final(self).nodes@.len() >= old(self).nodes@.len(),
        decreases fuel, 1nat,
    {
        let ghost s = block.nodes_spec(pools);
        let ghost seen0 = self.nodes@;
        let nodes = block.nodes(pools);
        let mut i: usize = 0;
        assert(s.skip(0) =~= s);
        while i < nodes.len()
            invariant
                i <= nodes.len(),
                nodes@ == s,
                block.chain(pools, s),
                self.inv(pools),
                pools.wf(),
                closed(pools),
                fuel + self.nodes@.len() >= pools.len(),
                self.nodes@.len() >= seen0.len(),
                visit_nodes(pools, s, seen0, fuel) == visit_nodes(
                    pools,
                    s.skip(i as int),
                    self.nodes@,
                    fuel,
                ),
            decreases nodes.len() - i,
        {
            proof {
                assert(s.skip(i as int).drop_first() =~= s.skip(i as int + 1));
                assert(s.skip(i as int)[0] == s[i as int]);
                assert(pools.contains(s[i as int]));
            }
            self.visit_node(pools, nodes[i], Ghost(fuel));
            i += 1;
        }
        assert(s.skip(s.len() as int) =~= Seq::<NodeRef>::empty());
    }

    fn visit_node(&mut self, pools: &ModulePools, node_ref: NodeRef, Ghost(fuel): Ghost<nat>)
        requires
            old(self).inv(pools),
            pools.wf(),
            closed(pools),
            pools.contains(node_ref),
            fuel + old(self).nodes@.len() >= pools.len(),
        ensures
            final(self).inv(pools),
            final(self).nodes@ == visit_node(pools, node_ref, old(self).nodes@, fuel),
            final(self).nodes@.len() >= old(self).nodes@.len(),
        decreases fuel, 0nat,
    {
        if self.unique.contains(&node_ref.0) {
            assert(self.nodes@.contains(NodeRef(node_ref.0)));
            return ;
        }
        proof {
            assert(!self.nodes@.contains(NodeRef(node_ref.0)));
            let t = self.nodes@.push(node_ref);
            assert(t.no_duplicates()) by {
                assert forall|a: int, b: int| 0 <= a < t.len() && 0 <= b < t.len() && a != b implies t[a]
                    != t[b] by {
                    if a < self.nodes@.len() {
                        assert(self.nodes@.contains(t[a]));
                    }
                    if b < self.nodes@.len() {
                        assert(self.nodes@.contains(t[b]));
                    }
                }
            }
            lemma_distinct_bounded(t, pools.len());
        }
        let ghost before = self.nodes@;
        self.unique.insert(node_ref.0);
        self.nodes.push(node_ref);
        let ghost seen = self.nodes@;
        let ghost sub = (fuel - 1) as nat;
        proof {
            assert forall|x: usize| self.unique@.contains(x) <==> self.nodes@.contains(
                NodeRef(x),
            ) by {
                if x == node_ref.0 {
                    assert(seen[seen.len() - 1] == node_ref);
                } else {
                    if before.contains(NodeRef(x)) {
                        let j = choose|j: int| 0 <= j < before.len() && before[j] == NodeRef(x);
                        assert(seen[j] == NodeRef(x));
                    }
                    if seen.contains(NodeRef(x)) {
                        let j = choose|j: int| 0 <= j < seen.len() && seen[j] == NodeRef(x);
                        assert(before[j] == NodeRef(x));
                    }
                }
            }
        }
        let ghost blocks = nested_blocks(pools.instruction(node_ref));
        proof {
            assert forall|j: int| 0 <= j < blocks.len() implies (#[trigger] blocks[j]).wf(pools) by {
                assert(nested_blocks(pools.instruction(node_ref))[j].wf(pools));
            }
        }
        match node_ref.instruction(pools) {
            Instruction::AdScope { body } => {
                assert(blocks[0] == *body);
                self.visit_block(pools, *body, Ghost(sub));
                proof {
                    lemma_visit_one(pools, blocks, seen, sub);
                }
            },
            Instruction::AdDetach(body) => {
                assert(blocks[0] == *body);
                self.visit_block(pools, *body, Ghost(sub));
                proof {
                    lemma_visit_one(pools, blocks, seen, sub);
                }
            },
            Instruction::If { cond: _, true_branch, false_branch } => {
                assert(blocks[0] == *true_branch && blocks[1] == *false_branch);
                self.visit_block(pools, *true_branch, Ghost(sub));
                let ghost mid = self.nodes@;
                self.visit_block(pools, *false_branch, Ghost(sub));
                proof {
                    lemma_visit_step(pools, blocks, seen, sub);
                    lemma_visit_one(pools, blocks.drop_first(), mid, sub);
                }
            },
            Instruction::Loop { body, cond: _ } => {
                assert(blocks[0] == *body);
                self.visit_block(pools, *body, Ghost(sub));
                proof {
                    lemma_visit_one(pools, blocks, seen, sub);
                }
            },
            Instruction::GenericLoop { prepare, cond: _, body, update } => {
                assert(blocks[0] == *prepare && blocks[1] == *body && blocks[2] == *update);
                self.visit_block(pools, *prepare, Ghost(sub));
                let ghost mid1 = self.nodes@;
                self.visit_block(pools, *body, Ghost(sub));
                let ghost mid2 = self.nodes@;
                self.visit_block(pools, *update, Ghost(sub));
                proof {
                    lemma_visit_step(pools, blocks, seen, sub);
                    lemma_visit_step(pools, blocks.drop_first(), mid1, sub);
                    lemma_visit_one(pools, blocks.drop_first().drop_first(), mid2, sub);
                }
            },
            Instruction::RayQuery { ray_query: _, on_triangle_hit, on_procedural_hit } => {
                assert(blocks[0] == *on_triangle_hit && blocks[1] == *on_procedural_hit);
                self.visit_block(pools, *on_triangle_hit, Ghost(sub));
                let ghost mid = self.nodes@;
                self.visit_block(pools, *on_procedural_hit, Ghost(sub));
                proof {
                    lemma_visit_step(pools, blocks, seen, sub);
                    lemma_visit_one(pools, blocks.drop_first(), mid, sub);
                }
            },
            Instruction::Switch { value: _, default, cases } => {
                assert(blocks[0] == *default);
                self.visit_block(pools, *default, Ghost(sub));
                proof {
                    lemma_visit_step(pools, blocks, seen, sub);
                    assert(blocks.drop_first() =~= blocks.skip(1));
                }
                let mut i: usize = 0;
                while i < cases.len()
                    invariant
                        i <= cases.len(),
                        fuel > 0,
                        sub == fuel - 1,
                        blocks.len() == cases@.len() + 1,
                        forall|j: int| 0 <= j < cases@.len() ==> blocks[j + 1] == cases@[j].block,
                        forall|j: int| 0 <= j < blocks.len() ==> (#[trigger] blocks[j]).wf(pools),
                        self.inv(pools),
                        pools.wf(),
                        closed(pools),
                        sub + self.nodes@.len() >= pools.len(),
                        self.nodes@.len() >= seen.len(),
                        visit_blocks(pools, blocks, seen, sub) == visit_blocks(
                            pools,
                            blocks.skip(i as int + 1),
                            self.nodes@,
                            sub,
                        ),
                    decreases cases.len() - i,
                {
                    let ghost now = self.nodes@;
                    let ghost rest = blocks.skip(i as int + 1);
                    assert(rest[0] == cases@[i as int].block);
                    assert(blocks[i as int + 1].wf(pools));
                    self.visit_block(pools, cases[i].block, Ghost(sub));
                    proof {
                        lemma_visit_step(pools, rest, now, sub);
                        assert(rest.drop_first() =~= blocks.skip(i as int + 2));
                    }
                    i += 1;
                }
                assert(blocks.skip(blocks.len() as int) =~= Seq::<BasicBlock>::empty());
            },
            _ => {
                assert(blocks =~= Seq::<BasicBlock>::empty());
            },
        }
    }
}

/// Visiting blocks is visiting the first and then the others.
proof fn lemma_visit_step(p: &ModulePools, blocks: Seq<BasicBlock>, seen: Seq<NodeRef>, fuel: nat)
    requires
        blocks.len() > 0,
    ensures
        visit_blocks(p, blocks, seen, fuel) == visit_blocks(
            p,
            blocks.drop_first(),
            visit_nodes(p, blocks[0].nodes_spec(p), seen, fuel),
            fuel,
        ),
{
}

/// Visiting one block is visiting its nodes.
proof fn lemma_visit_one(p: &ModulePools, blocks: Seq<BasicBlock>, seen: Seq<NodeRef>, fuel: nat)
    requires
        blocks.len() == 1,
    ensures
        visit_blocks(p, blocks, seen, fuel) == visit_nodes(p, blocks[0].nodes_spec(p), seen, fuel),
{
    reveal_with_fuel(visit_blocks, 2);
    assert(blocks.drop_first().len() == 0);
}

impl Module {
    /// The nodes of the module in depth-first preorder, each once.
    pub fn collect_nodes(&self) -> (v: Vec<NodeRef>)
        requires
            self.wf(),
        ensures
            v@ == self.spec_collect_nodes(),
            v@.no_duplicates(),
            forall|i: int| 0 <= i < v@.len() ==> self.pools.contains(#[trigger] v@[i]),
    {
        let mut collector = NodeCollector::new();
        collector.visit_block(&self.pools, self.entry, Ghost(self.pools.len()));
        collector.nodes
    }
}

} // verus!
