//! How a kernel uses its resources: which nodes it reads and which it writes.

use crate::module::{KernelModule, Module};
use crate::node::{Func, Instruction, NodeRef};
use crate::pool::ModulePools;
use crate::text::{decimal, push_unsigned};
use std::collections::HashMap;
use vstd::prelude::*;

verus! {

/// How a resource is used.
#[allow(non_camel_case_types)]
#[derive(Clone, Copy, Debug, PartialEq, Eq, Hash, Structural)]
pub enum Usage {
    NONE,
    READ,
    WRITE,
    READ_WRITE,
}

/// One use of a resource.
#[derive(Clone, Copy, Debug, PartialEq, Eq, Hash, Structural)]
pub enum UsageMark {
    READ,
    WRITE,
}

impl Usage {
    /// The usage with one more use.
    pub open spec fn spec_mark(self, usage: UsageMark) -> Usage {
        match (self, usage) {
            (Usage::NONE, UsageMark::READ) => Usage::READ,
            (Usage::NONE, UsageMark::WRITE) => Usage::WRITE,
            (Usage::READ, UsageMark::READ) => Usage::READ,
            (Usage::READ, UsageMark::WRITE) => Usage::READ_WRITE,
            (Usage::WRITE, UsageMark::READ) => Usage::READ_WRITE,
            (Usage::WRITE, UsageMark::WRITE) => Usage::WRITE,
            (Usage::READ_WRITE, _) => Usage::READ_WRITE,
        }
    }

    /// The usage is read.
    pub open spec fn reads(self) -> bool {
        self == Usage::READ || self == Usage::READ_WRITE
    }

    /// The usage is written.
    pub open spec fn writes(self) -> bool {
        self == Usage::WRITE || self == Usage::READ_WRITE
    }

    /// The order of the lattice: `NONE` below `READ` and `WRITE`, which are
    /// below `READ_WRITE`.
    pub open spec fn le(self, other: Usage) -> bool {
        (self.reads() ==> other.reads()) && (self.writes() ==> other.writes())
    }

    /// The usage of a single use.
    pub open spec fn of(mark: UsageMark) -> Usage {
        match mark {
            UsageMark::READ => Usage::READ,
            UsageMark::WRITE => Usage::WRITE,
        }
    }

    pub open spec fn spec_to_u8(self) -> u8 {
        match self {
            Usage::NONE => 0,
            Usage::READ => 1,
            Usage::WRITE => 2,
            Usage::READ_WRITE => 3,
        }
    }

    pub fn mark(&self, usage: UsageMark) -> (r: Usage)
        ensures
            r == self.spec_mark(usage),
    {
        match (self, usage) {
            (Usage::NONE, UsageMark::READ) => Usage::READ,
            (Usage::NONE, UsageMark::WRITE) => Usage::WRITE,
            (Usage::READ, UsageMark::READ) => Usage::READ,
            (Usage::READ, UsageMark::WRITE) => Usage::READ_WRITE,
            (Usage::WRITE, UsageMark::READ) => Usage::READ_WRITE,
            (Usage::WRITE, UsageMark::WRITE) => Usage::WRITE,
            (Usage::READ_WRITE, _) => Usage::READ_WRITE,
        }
    }

    /// The encoding of the usage: 0, 1, 2, 3 for none, read, write, both.
    pub fn to_u8(&self) -> (r: u8)
        ensures
            r == self.spec_to_u8(),
    {
        match self {
            Usage::NONE => 0,
            Usage::READ => 1,
            Usage::WRITE => 2,
            Usage::READ_WRITE => 3,
        }
    }
}

/// The usage after the uses `marks`, one after the other, starting from `u`.
pub open spec fn fold_marks(u: Usage, marks: Seq<UsageMark>) -> Usage
    decreases marks.len(),
{
    if marks.len() == 0 {
        u
    } else {
        fold_marks(u, marks.drop_last()).spec_mark(marks.last())
    }
}

/// Marking a resource with any sequence of uses, starting from `NONE`,
/// gives the least upper bound of `NONE` and the uses: it is above each
/// of them, and below every usage that is above each of them.  It reads
/// exactly when some use is a read and writes exactly when some use is a
/// write.
pub proof fn lemma_fold_is_least_upper_bound(marks: Seq<UsageMark>)
    ensures
        fold_marks(Usage::NONE, marks).reads() == marks.contains(UsageMark::READ),
        fold_marks(Usage::NONE, marks).writes() == marks.contains(UsageMark::WRITE),
        Usage::NONE.le(fold_marks(Usage::NONE, marks)),
        forall|i: int|
            0 <= i < marks.len() ==> Usage::of(#[trigger] marks[i]).le(
                fold_marks(Usage::NONE, marks),
            ),
        forall|u: Usage|
            (forall|i: int| 0 <= i < marks.len() ==> Usage::of(#[trigger] marks[i]).le(u))
                ==> fold_marks(Usage::NONE, marks).le(u),
    decreases marks.len(),
{
    let r = fold_marks(Usage::NONE, marks);
    if marks.len() > 0 {
        let init = marks.drop_last();
        lemma_fold_is_least_upper_bound(init);
        let last = marks.last();
        assert(marks[marks.len() - 1] == last);
        assert forall|m: UsageMark| marks.contains(m) <==> (init.contains(m) || m == last) by {
            if marks.contains(m) {
                let j = choose|j: int| 0 <= j < marks.len() && marks[j] == m;
                if j < marks.len() - 1 {
                    assert(init[j] == m);
                }
            }
            if init.contains(m) {
                let j = choose|j: int| 0 <= j < init.len() && init[j] == m;
                assert(marks[j] == m);
            }
        }
        assert(r.reads() == marks.contains(UsageMark::READ));
        assert(r.writes() == marks.contains(UsageMark::WRITE));
    }
    assert forall|i: int| 0 <= i < marks.len() implies Usage::of(#[trigger] marks[i]).le(r) by {
        assert(marks.contains(marks[i]));
    }
    assert forall|u: Usage|
        (forall|i: int| 0 <= i < marks.len() ==> Usage::of(#[trigger] marks[i]).le(u)) implies r.le(
        u,
    ) by {
        if r.reads() {
            let j = choose|j: int| 0 <= j < marks.len() && marks[j] == UsageMark::READ;
            assert(Usage::of(marks[j]).le(u));
        }
        if r.writes() {
            let j = choose|j: int| 0 <= j < marks.len() && marks[j] == UsageMark::WRITE;
            assert(Usage::of(marks[j]).le(u));
        }
    }
}

impl Usage {
    /// The least usage above both.
    pub open spec fn spec_join(self, other: Usage) -> Usage {
        if (self.reads() || other.reads()) && (self.writes() || other.writes()) {
            Usage::READ_WRITE
        } else if self.reads() || other.reads() {
            Usage::READ
        } else if self.writes() || other.writes() {
            Usage::WRITE
        } else {
            Usage::NONE
        }
    }

    /// The least usage above both.
    pub fn join(&self, other: Usage) -> (r: Usage)
        ensures
            r == self.spec_join(other),
            other == Usage::READ ==> r == self.spec_mark(UsageMark::READ),
            other == Usage::WRITE ==> r == self.spec_mark(UsageMark::WRITE),
            other == Usage::READ_WRITE ==> r == self.spec_mark(UsageMark::READ).spec_mark(
                UsageMark::WRITE,
            ),
    {
        match other {
            Usage::NONE => *self,
            Usage::READ => self.mark(UsageMark::READ),
            Usage::WRITE => self.mark(UsageMark::WRITE),
            Usage::READ_WRITE => self.mark(UsageMark::READ).mark(UsageMark::WRITE),
        }
    }
}

/// How a call of `f` uses the resource that is its first operand: the
/// reads of buffers, textures and bindless arrays, the tracing of rays and
/// the accessors of ray queries read it; the writes of buffers and textures,
/// the updates of instances and of dispatch buffers and the discarding of a
/// fragment write it; the atomic operations do both.
pub open spec fn resource_use(f: Func) -> Usage {
    match f {
        Func::BufferRead
        | Func::Texture2dRead
        | Func::Texture3dRead
        | Func::BindlessBufferRead
        | Func::BindlessTexture2dSample
        | Func::BindlessTexture2dSampleLevel
        | Func::BindlessTexture2dSampleGrad
        | Func::BindlessTexture2dSampleGradLevel
        | Func::BindlessTexture3dSample
        | Func::BindlessTexture3dSampleLevel
        | Func::BindlessTexture3dSampleGrad
        | Func::BindlessTexture3dSampleGradLevel
        | Func::BindlessTexture2dRead
        | Func::BindlessTexture3dRead
        | Func::BindlessTexture2dReadLevel
        | Func::BindlessTexture3dReadLevel
        | Func::BindlessBufferSize(_)
        | Func::BufferSize
        | Func::RayTracingTraceClosest
        | Func::RayTracingTraceAny
        | Func::RayTracingInstanceTransform
        | Func::RayQueryWorldSpaceRay
        | Func::RayQueryProceduralCandidateHit
        | Func::RayQueryTriangleCandidateHit
        | Func::RayQueryCommittedHit => Usage::READ,
        Func::BufferWrite
        | Func::Texture2dWrite
        | Func::Texture3dWrite
        | Func::RayTracingSetInstanceTransform
        | Func::RayTracingSetInstanceOpacity
        | Func::RayTracingSetInstanceVisibility
        | Func::IndirectClearDispatchBuffer
        | Func::IndirectEmplaceDispatchKernel
        | Func::RasterDiscard => Usage::WRITE,
        Func::AtomicExchange
        | Func::AtomicCompareExchange
        | Func::AtomicFetchAdd
        | Func::AtomicFetchSub
        | Func::AtomicFetchAnd
        | Func::AtomicFetchOr
        | Func::AtomicFetchXor
        | Func::AtomicFetchMin
        | Func::AtomicFetchMax => Usage::READ_WRITE,
        _ => Usage::NONE,
    }
}

/// How a call of `f` uses its first operand.
pub fn resource_use_of(f: &Func) -> (r: Usage)
    ensures
        r == resource_use(*f),
{
    match f {
        Func::BufferRead
        | Func::Texture2dRead
        | Func::Texture3dRead
        | Func::BindlessBufferRead
        | Func::BindlessTexture2dSample
        | Func::BindlessTexture2dSampleLevel
        | Func::BindlessTexture2dSampleGrad
        | Func::BindlessTexture2dSampleGradLevel
        | Func::BindlessTexture3dSample
        | Func::BindlessTexture3dSampleLevel
        | Func::BindlessTexture3dSampleGrad
        | Func::BindlessTexture3dSampleGradLevel
        | Func::BindlessTexture2dRead
        | Func::BindlessTexture3dRead
        | Func::BindlessTexture2dReadLevel
        | Func::BindlessTexture3dReadLevel
        | Func::BindlessBufferSize(_)
        | Func::BufferSize
        | Func::RayTracingTraceClosest
        | Func::RayTracingTraceAny
        | Func::RayTracingInstanceTransform
        | Func::RayQueryWorldSpaceRay
        | Func::RayQueryProceduralCandidateHit
        | Func::RayQueryTriangleCandidateHit
        | Func::RayQueryCommittedHit => Usage::READ,
        Func::BufferWrite
        | Func::Texture2dWrite
        | Func::Texture3dWrite
        | Func::RayTracingSetInstanceTransform
        | Func::RayTracingSetInstanceOpacity
        | Func::RayTracingSetInstanceVisibility
        | Func::IndirectClearDispatchBuffer
        | Func::IndirectEmplaceDispatchKernel
        | Func::RasterDiscard => Usage::WRITE,
        Func::AtomicExchange
        | Func::AtomicCompareExchange
        | Func::AtomicFetchAdd
        | Func::AtomicFetchSub
        | Func::AtomicFetchAnd
        | Func::AtomicFetchOr
        | Func::AtomicFetchXor
        | Func::AtomicFetchMin
        | Func::AtomicFetchMax => Usage::READ_WRITE,
        _ => Usage::NONE,
    }
}

/// The node at the root of the chain of component addressings that `n`
/// heads; `n` itself where it addresses no component.  At most `fuel`
/// addressings are followed.
pub open spec fn usage_root(p: &ModulePools, n: NodeRef, fuel: nat) -> NodeRef
    decreases fuel,
{
    if fuel > 0 && p.instruction(n).is_element_ptr() && p.instruction(n).operands().len() > 0
        && p.contains(p.instruction(n).operands()[0]) {
        usage_root(p, p.instruction(n).operands()[0], (fuel - 1) as nat)
    } else {
        n
    }
}

/// The usage recorded for a node; `NONE` where none is.
pub open spec fn usage_at(m: Map<usize, Usage>, r: NodeRef) -> Usage {
    if m.contains_key(r.0) {
        m[r.0]
    } else {
        Usage::NONE
    }
}

/// The map with the use `u` added to the usage of the root of `n`.
pub open spec fn marked(p: &ModulePools, m: Map<usize, Usage>, n: NodeRef, u: Usage) -> Map<
    usize,
    Usage,
> {
    let root = usage_root(p, n, p.len());
    m.insert(root.0, usage_at(m, root).spec_join(u))
}

/// Using the value of `n`: where `n` is a node that can be assigned to,
/// its root is read.
pub open spec fn loaded(p: &ModulePools, m: Map<usize, Usage>, n: NodeRef) -> Map<usize, Usage> {
    if p.contains(n) && p.instruction(n).spec_is_lvalue() {
        marked(p, m, n, Usage::READ)
    } else {
        m
    }
}

/// Using the values of the operands from index `from` on.
pub open spec fn loaded_from(p: &ModulePools, m: Map<usize, Usage>, ops: Seq<NodeRef>, from: int) -> Map<
    usize,
    Usage,
>
    decreases ops.len() - from,
{
    if 0 <= from < ops.len() {
        loaded_from(p, loaded(p, m, ops[from]), ops, from + 1)
    } else {
        m
    }
}

/// The uses that one instruction makes.  A call of a resource operation
/// uses the root of its first operand as the operation says, and the
/// values of its other operands; the addressing of a component uses the
/// values of its operands but the first; any other call uses the values of
/// all its operands.  An assignment writes the root of the variable and
/// uses the value assigned.  A variable uses the value it starts with, a
/// return the value returned, a branch or loop the value it tests.
pub open spec fn used_by(p: &ModulePools, m: Map<usize, Usage>, i: Instruction) -> Map<usize, Usage> {
    match i {
        Instruction::Call(f, args) => {
            if resource_use(f) != Usage::NONE {
                if args@.len() > 0 && p.contains(args@[0]) {
                    loaded_from(p, marked(p, m, args@[0], resource_use(f)), args@, 1)
                } else {
                    loaded_from(p, m, args@, 1)
                }
            } else if f is GetElementPtr {
                loaded_from(p, m, args@, 1)
            } else {
                loaded_from(p, m, args@, 0)
            }
        },
        Instruction::Update { var, value } => {
            if p.contains(var) {
                loaded(p, marked(p, m, var, Usage::WRITE), value)
            } else {
                loaded(p, m, value)
            }
        },
        Instruction::Local { init } => loaded(p, m, init),
        Instruction::Return(value) => loaded(p, m, value),
        Instruction::Loop { cond, .. } => loaded(p, m, cond),
        Instruction::GenericLoop { cond, .. } => loaded(p, m, cond),
        Instruction::If { cond, .. } => loaded(p, m, cond),
        Instruction::Switch { value, .. } => loaded(p, m, value),
        Instruction::RayQuery { ray_query, .. } => loaded(p, m, ray_query),
        _ => m,
    }
}

/// The uses that the nodes from index `from` on make, one node after the other.
pub open spec fn used_from(p: &ModulePools, m: Map<usize, Usage>, nodes: Seq<NodeRef>, from: int) -> Map<
    usize,
    Usage,
>
    decreases nodes.len() - from,
{
    if 0 <= from < nodes.len() {
        used_from(p, used_by(p, m, p.instruction(nodes[from])), nodes, from + 1)
    } else {
        m
    }
}

impl Module {
    /// The usage of every node that the module uses, by the handle of the node.
    pub open spec fn usage_map(&self) -> Map<usize, Usage> {
        used_from(&self.pools, Map::empty(), self.spec_collect_nodes(), 0)
    }
}

/// The root of the chain of component addressings that `n` heads.
pub fn root_of(pools: &ModulePools, n: NodeRef) -> (r: NodeRef)
    requires
        pools.contains(n),
    ensures
        r == usage_root(pools, n, pools.len()),
        pools.contains(r),
{
    let mut cur = n;
    let mut fuel = pools.node_pool.len();
    while fuel > 0
        invariant
            pools.contains(cur),
            usage_root(pools, n, pools.len()) == usage_root(pools, cur, fuel as nat),
        decreases fuel,
    {
        let mut next = cur;
        let mut moved = false;
        match cur.instruction(pools) {
            Instruction::Call(f, args) => {
                if matches!(f, Func::GetElementPtr) && args.len() > 0 && pools.has(args[0]) {
                    next = args[0];
                    moved = true;
                }
            },
            _ => {},
        }
        if !moved {
            return cur;
        }
        cur = next;
        fuel -= 1;
    }
    cur
}

/// Adds the use `u` to the usage of the root of `n`.
fn mark_root(pools: &ModulePools, map: &mut HashMap<usize, Usage>, n: NodeRef, u: Usage)
    requires
        pools.contains(n),
    ensures
        final(map)@ == marked(pools, old(map)@, n, u),
{
    let root = root_of(pools, n);
    let current = match map.get(&root.0) {
        Some(found) => *found,
        None => Usage::NONE,
    };
    map.insert(root.0, current.join(u));
}

/// Records the use of the value of `n`.
fn load(pools: &ModulePools, map: &mut HashMap<usize, Usage>, n: NodeRef)
    ensures
        final(map)@ == loaded(pools, old(map)@, n),
{
    if pools.has(n) && n.is_lvalue(pools) {
        mark_root(pools, map, n, Usage::READ);
    }
}

/// Records the use of the values of the operands from index `from` on.
fn load_from(pools: &ModulePools, map: &mut HashMap<usize, Usage>, ops: &Vec<NodeRef>, from: usize)
    ensures
        final(map)@ == loaded_from(pools, old(map)@, ops@, from as int),
{
    let mut i = from;
    while i < ops.len()
        invariant
            from <= i,
            loaded_from(pools, old(map)@, ops@, from as int) == loaded_from(
                pools,
                map@,
                ops@,
                i as int,
            ),
        decreases ops.len() - i,
    {
        load(pools, map, ops[i]);
        i += 1;
    }
}

/// Records the uses that the node `n` makes.
fn record_uses(pools: &ModulePools, map: &mut HashMap<usize, Usage>, n: NodeRef)
    requires
        pools.contains(n),
    ensures
        final(map)@ == used_by(pools, old(map)@, pools.instruction(n)),
{
    match n.instruction(pools) {
        Instruction::Call(f, args) => {
            let class = resource_use_of(f);
            match class {
                Usage::NONE => {
                    if matches!(f, Func::GetElementPtr) {
                        load_from(pools, map, args, 1);
                    } else {
                        load_from(pools, map, args, 0);
                    }
                },
                _ => {
                    if args.len() > 0 && pools.has(args[0]) {
                        mark_root(pools, map, args[0], class);
                    }
                    load_from(pools, map, args, 1);
                },
            }
        },
        Instruction::Update { var, value } => {
            if pools.has(*var) {
                mark_root(pools, map, *var, Usage::WRITE);
            }
            load(pools, map, *value);
        },
        Instruction::Local { init } => load(pools, map, *init),
        Instruction::Return(value) => load(pools, map, *value),
        Instruction::Loop { body: _, cond } => load(pools, map, *cond),
        Instruction::GenericLoop { prepare: _, cond, body: _, update: _ } => load(pools, map, *cond),
        Instruction::If { cond, true_branch: _, false_branch: _ } => load(pools, map, *cond),
        Instruction::Switch { value, default: _, cases: _ } => load(pools, map, *value),
        Instruction::RayQuery { ray_query, on_triangle_hit: _, on_procedural_hit: _ } => load(
            pools,
            map,
            *ray_query,
        ),
        _ => {},
    }
}

/// Computes how the module uses each node that it reads or writes.
pub fn detect_usage(module: &Module) -> (map: HashMap<usize, Usage>)
    requires
        module.wf(),
    ensures
        map@ == module.usage_map(),
{
    let nodes = module.collect_nodes();
    let mut map: HashMap<usize, Usage> = HashMap::new();
    let mut i: usize = 0;
    while i < nodes.len()
        invariant
            i <= nodes.len(),
            nodes@ == module.spec_collect_nodes(),
            forall|j: int| 0 <= j < nodes@.len() ==> module.pools.contains(#[trigger] nodes@[j]),
            module.usage_map() == used_from(&module.pools, map@, nodes@, i as int),
        decreases nodes.len() - i,
    {
        record_uses(&module.pools, &mut map, nodes[i]);
        i += 1;
    }
    map
}

/// A node whose usage was asked for and that has none on record.
#[derive(Clone, Copy, Debug, PartialEq, Eq, Structural)]
pub enum UsageError {
    /// A captured resource.
    MissingResource(NodeRef),
    /// An argument.
    MissingArgument(NodeRef),
}

impl UsageError {
    pub open spec fn spec_message(self) -> Seq<char> {
        match self {
            UsageError::MissingResource(n) => "Requested resource "@ + decimal(n.0 as int)
                + " not exist in usage map"@,
            UsageError::MissingArgument(n) => "Requested argument "@ + decimal(n.0 as int)
                + " not exist in usage map"@,
        }
    }

    /// The description of the error, which names the node.
    pub fn message(&self) -> (s: String)
        ensures
            s@ == self.spec_message(),
    {
        match self {
            UsageError::MissingResource(n) => {
                let mut s = String::from_str("Requested resource ");
                push_unsigned(&mut s, n.0 as u64);
                s.append(" not exist in usage map");
                s
            },
            UsageError::MissingArgument(n) => {
                let mut s = String::from_str("Requested argument ");
                push_unsigned(&mut s, n.0 as u64);
                s.append(" not exist in usage map");
                s
            },
        }
    }
}

impl KernelModule {
    /// The nodes whose usage is reported: the captured resources, then the
    /// arguments.
    pub open spec fn requested(&self) -> Seq<NodeRef> {
        Seq::new(self.captures@.len(), |i: int| self.captures@[i].node) + self.args@
    }

    /// The error that reports that the requested node at index `i` has no
    /// usage on record.
    pub open spec fn missing(&self, i: int) -> UsageError {
        if i < self.captures@.len() {
            UsageError::MissingResource(self.requested()[i])
        } else {
            UsageError::MissingArgument(self.requested()[i])
        }
    }
}

/// The requested node at index `i` has no usage left on record: the map
/// has none for it, or it was requested before.
pub open spec fn lacking(m: Map<usize, Usage>, requested: Seq<NodeRef>, i: int) -> bool {
    !m.contains_key(requested[i].0) || exists|j: int| 0 <= j < i && requested[j] == requested[i]
}

/// What is left of the usage map `m` after the usages of the first `i`
/// requested nodes were taken out.
pub open spec fn left_after(m: Map<usize, Usage>, requested: Seq<NodeRef>, i: int) -> Map<
    usize,
    Usage,
> {
    Map::new(
        |k: usize| m.contains_key(k) && forall|j: int| 0 <= j < i ==> requested[j].0 != k,
        |k: usize| m[k],
    )
}

/// The encoded usages of the captured resources of a kernel, then of its
/// arguments.  The usage of each node is reported once; asking for a node
/// that the kernel does not use, or for a node a second time, is an error
/// that names the node.
pub fn luisa_compute_ir_node_usage(kernel: &KernelModule) -> (r: Result<Vec<u8>, UsageError>)
    requires
        kernel.module.wf(),
    ensures
        match r {
            Ok(usage) => {
                &&& usage@.len() == kernel.requested().len()
                &&& forall|i: int|
                    0 <= i < kernel.requested().len() ==> !#[trigger] lacking(
                        kernel.module.usage_map(),
                        kernel.requested(),
                        i,
                    )
                &&& forall|i: int|
                    0 <= i < kernel.requested().len() ==> #[trigger] usage@[i]
                        == kernel.module.usage_map()[kernel.requested()[i].0].spec_to_u8()
            },
            Err(e) => exists|i: int|
                {
                    &&& 0 <= i < kernel.requested().len()
                    &&& lacking(kernel.module.usage_map(), kernel.requested(), i)
                    &&& forall|j: int|
                        0 <= j < i ==> !#[trigger] lacking(
                            kernel.module.usage_map(),
                            kernel.requested(),
                            j,
                        )
                    &&& e == kernel.missing(i)
                },
        },
{
    let ghost m = kernel.module.usage_map();
    let ghost req = kernel.requested();
    let mut usage_map = detect_usage(&kernel.module);
    let mut usage: Vec<u8> = Vec::new();
    let ncaptures = kernel.captures.len();
    assert(usage_map@ =~= left_after(m, req, 0));
    let mut i: usize = 0;
    while i < ncaptures
        invariant
            i <= ncaptures,
            ncaptures == kernel.captures@.len(),
            req == kernel.requested(),
            m == kernel.module.usage_map(),
            usage_map@ == left_after(m, req, i as int),
            usage@.len() == i,
            forall|j: int| 0 <= j < i ==> !#[trigger] lacking(m, req, j),
            forall|j: int| 0 <= j < i ==> #[trigger] usage@[j] == m[req[j].0].spec_to_u8(),
        decreases ncaptures - i,
    {
        let node = kernel.captures[i].node;
        assert(req[i as int] == node);
        let ghost before = usage_map@;
        let ghost reported = usage@;
        match usage_map.remove(&node.0) {
            Some(u) => {
                proof {
                    assert(before.contains_key(node.0) && before[node.0] == u);
                    assert(usage_map@ == before.remove(node.0));
                    lemma_taken(m, req, i as int);
                    assert(usage_map@ =~= left_after(m, req, i as int + 1));
                }
                usage.push(u.to_u8());
                assert forall|j: int| 0 <= j < i + 1 implies #[trigger] usage@[j] == m[req[j].0].spec_to_u8() by {
                    if j < i {
                        assert(usage@[j] == reported[j]);
                    }
                }
            },
            None => {
                proof {
                    assert(!before.contains_key(node.0));
                    lemma_not_taken(m, req, i as int);
                    assert(UsageError::MissingResource(node) == kernel.missing(i as int));
                }
                return Err(UsageError::MissingResource(node));
            },
        }
        i += 1;
    }
    let mut k: usize = 0;
    while k < kernel.args.len()
        invariant
            k <= kernel.args@.len(),
            ncaptures == kernel.captures@.len(),
            req == kernel.requested(),
            m == kernel.module.usage_map(),
            usage_map@ == left_after(m, req, ncaptures + k),
            usage@.len() == ncaptures + k,
            forall|j: int| 0 <= j < ncaptures + k ==> !#[trigger] lacking(m, req, j),
            forall|j: int|
                0 <= j < ncaptures + k ==> #[trigger] usage@[j] == m[req[j].0].spec_to_u8(),
        decreases kernel.args@.len() - k,
    {
        let node = kernel.args[k];
        assert(req[ncaptures + k] == node);
        let ghost before = usage_map@;
        let ghost reported = usage@;
        match usage_map.remove(&node.0) {
            Some(u) => {
                proof {
                    assert(before.contains_key(node.0) && before[node.0] == u);
                    assert(usage_map@ == before.remove(node.0));
                    lemma_taken(m, req, ncaptures + k);
                    assert(usage_map@ =~= left_after(m, req, ncaptures + k + 1));
                }
                usage.push(u.to_u8());
                assert forall|j: int| 0 <= j < ncaptures + k + 1 implies #[trigger] usage@[j]
                    == m[req[j].0].spec_to_u8() by {
                    if j < ncaptures + k {
                        assert(usage@[j] == reported[j]);
                    }
                }
            },
            None => {
                proof {
                    assert(!before.contains_key(node.0));
                    lemma_not_taken(m, req, ncaptures + k);
                    assert(UsageError::MissingArgument(node) == kernel.missing(ncaptures + k));
                }
                return Err(UsageError::MissingArgument(node));
            },
        }
        k += 1;
    }
    Ok(usage)
}

/// A requested node that still has a usage on record is not lacking, and
/// the usage left on record is the one of the map.
proof fn lemma_taken(m: Map<usize, Usage>, req: Seq<NodeRef>, i: int)
    requires
        0 <= i < req.len(),
        left_after(m, req, i).contains_key(req[i].0),
    ensures
        !lacking(m, req, i),
        left_after(m, req, i)[req[i].0] == m[req[i].0],
        left_after(m, req, i).remove(req[i].0) =~= left_after(m, req, i + 1),
{
    assert forall|j: int| 0 <= j < i implies req[j] != req[i] by {
        assert(req[j].0 != req[i].0);
    }
}

/// A requested node that has no usage left on record is lacking.
proof fn lemma_not_taken(m: Map<usize, Usage>, req: Seq<NodeRef>, i: int)
    requires
        0 <= i < req.len(),
        !left_after(m, req, i).contains_key(req[i].0),
    ensures
        lacking(m, req, i),
{
    if m.contains_key(req[i].0) {
        let j = choose|j: int| 0 <= j < i && req[j].0 == req[i].0;
        assert(req[j] == req[i]);
    }
}

} // verus!
