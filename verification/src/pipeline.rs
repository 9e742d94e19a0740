//! The pipeline DAG: sequential stages, parallel fan-outs and switches.
use vstd::prelude::*;
use crate::error::PipelineError;
pub use crate::text::views;

verus! {

/// One leaf stage: a role (or agent) name and an optional model override.
#[derive(Debug)]
pub struct RolePipelineStage {
    pub role: String,
    pub model: Option<String>,
}

/// How a `parallel:` node combines the outputs of its branches.
#[derive(Debug)]
pub enum MergeStrategy {
    Concatenate,
    JsonArray,
    CustomRole(String),
}

/// A `when:` predicate of a switch branch.
#[derive(Debug)]
pub enum Predicate {
    /// Matches when the input text contains the given text.
    Contains(String),
}

/// A fan-out node: every branch sees the same input.
#[derive(Debug)]
pub struct ParallelNode {
    pub branches: Vec<PipelineNode>,
    pub merge: MergeStrategy,
}

/// One arm of a switch: `when:` (a predicate) or `otherwise:` (none).
#[derive(Debug)]
pub struct SwitchBranch {
    pub predicate: Option<Predicate>,
    pub node: Box<PipelineNode>,
}

/// A routing node: the first matching `when:` arm runs, else the `otherwise:` arm.
#[derive(Debug)]
pub struct SwitchNode {
    pub branches: Vec<SwitchBranch>,
}

#[derive(Debug)]
pub enum PipelineNode {
    Stage(RolePipelineStage),
    Parallel(ParallelNode),
    Switch(SwitchNode),
}

impl RolePipelineStage {
    /// A field-by-field copy.
    pub fn duplicate(&self) -> (res: RolePipelineStage)
        ensures
            res == *self,
    {
        let model = match &self.model {
            Some(m) => Some(m.clone()),
            None => None,
        };
        RolePipelineStage { role: self.role.clone(), model }
    }
}

/// The leaf stages of a node, in document order (parallel branches and switch arms included).
pub open spec fn stages_of(n: PipelineNode) -> Seq<RolePipelineStage>
    decreases n,
{
    match n {
        PipelineNode::Stage(s) => seq![s],
        PipelineNode::Parallel(p) => stages_of_nodes(p.branches@),
        PipelineNode::Switch(sw) => stages_of_arms(sw.branches@),
    }
}

pub open spec fn stages_of_nodes(ns: Seq<PipelineNode>) -> Seq<RolePipelineStage>
    decreases ns,
{
    if ns.len() == 0 {
        seq![]
    } else {
        stages_of_nodes(ns.drop_last()) + stages_of(ns.last())
    }
}

pub open spec fn stages_of_arms(bs: Seq<SwitchBranch>) -> Seq<RolePipelineStage>
    decreases bs,
{
    if bs.len() == 0 {
        seq![]
    } else {
        stages_of_arms(bs.drop_last()) + stages_of(*bs.last().node)
    }
}

/// The names of the custom merge roles of every `parallel:` node inside a node.
pub open spec fn mergers_of(n: PipelineNode) -> Seq<Seq<char>>
    decreases n,
{
    match n {
        PipelineNode::Stage(_) => seq![],
        PipelineNode::Parallel(p) => mergers_of_nodes(p.branches@) + match p.merge {
            MergeStrategy::CustomRole(r) => seq![r@],
            _ => seq![],
        },
        PipelineNode::Switch(sw) => mergers_of_arms(sw.branches@),
    }
}

pub open spec fn mergers_of_nodes(ns: Seq<PipelineNode>) -> Seq<Seq<char>>
    decreases ns,
{
    if ns.len() == 0 {
        seq![]
    } else {
        mergers_of_nodes(ns.drop_last()) + mergers_of(ns.last())
    }
}

pub open spec fn mergers_of_arms(bs: Seq<SwitchBranch>) -> Seq<Seq<char>>
    decreases bs,
{
    if bs.len() == 0 {
        seq![]
    } else {
        mergers_of_arms(bs.drop_last()) + mergers_of(*bs.last().node)
    }
}

/// The role names a list of nodes refers to, in the order preflight visits them:
/// for each node its leaf stages, then its custom merge roles.
pub open spec fn refs_of_nodes(ns: Seq<PipelineNode>) -> Seq<Seq<char>>
    decreases ns.len(),
{
    if ns.len() == 0 {
        seq![]
    } else {
        refs_of_nodes(ns.drop_last()) + stages_of(ns.last()).map_values(
            |s: RolePipelineStage| s.role@,
        ) + mergers_of(ns.last())
    }
}

/// The view of an optional string.
pub open spec fn opt_view(o: Option<String>) -> Option<Seq<char>> {
    match o {
        Some(s) => Some(s@),
        None => None,
    }
}

fn push_stages(n: &PipelineNode, out: &mut Vec<RolePipelineStage>)
    ensures
        final(out)@ == old(out)@ + stages_of(*n),
    decreases n,
{
    match n {
        PipelineNode::Stage(s) => {
            out.push(s.duplicate());
        },
        PipelineNode::Parallel(p) => {
            let ghost start = out@;
            let mut i: usize = 0;
            while i < p.branches.len()
                invariant
                    i <= p.branches.len(),
                    out@ == start + stages_of_nodes(p.branches@.take(i as int)),
                    *n == PipelineNode::Parallel(*p),
                decreases p.branches.len() - i,
            {
                proof {
                    assert(decreases_to!(*n => (*n)->Parallel_0));
                    assert(decreases_to!(*p => p.branches));
                    assert(decreases_to!(p.branches => p.branches@));
                    assert(decreases_to!(p.branches@ => p.branches@[i as int]));
                }
                assert(p.branches@.take(i + 1).drop_last() =~= p.branches@.take(i as int));
                push_stages(&p.branches[i], out);
                i += 1;
            }
            assert(p.branches@.take(i as int) =~= p.branches@);
        },
        PipelineNode::Switch(sw) => {
            let ghost start = out@;
            let mut i: usize = 0;
            while i < sw.branches.len()
                invariant
                    i <= sw.branches.len(),
                    out@ == start + stages_of_arms(sw.branches@.take(i as int)),
                    *n == PipelineNode::Switch(*sw),
                decreases sw.branches.len() - i,
            {
                proof {
                    assert(decreases_to!(*n => (*n)->Switch_0));
                    assert(decreases_to!(*sw => sw.branches));
                    assert(decreases_to!(sw.branches => sw.branches@));
                    assert(decreases_to!(sw.branches@ => sw.branches@[i as int]));
                    assert(decreases_to!(sw.branches@[i as int] => sw.branches@[i as int].node));
                }
                assert(sw.branches@.take(i + 1).drop_last() =~= sw.branches@.take(i as int));
                push_stages(&sw.branches[i].node, out);
                i += 1;
            }
            assert(sw.branches@.take(i as int) =~= sw.branches@);
        },
    }
}

fn push_mergers(n: &PipelineNode, out: &mut Vec<String>)
    ensures
        views(final(out)@) == views(old(out)@) + mergers_of(*n),
    decreases n,
{
    match n {
        PipelineNode::Stage(_) => {
            assert(views(out@) =~= views(out@) + seq![]);
        },
        PipelineNode::Parallel(p) => {
            let ghost start = views(out@);
            let mut i: usize = 0;
            while i < p.branches.len()
                invariant
                    i <= p.branches.len(),
                    views(out@) == start + mergers_of_nodes(p.branches@.take(i as int)),
                    *n == PipelineNode::Parallel(*p),
                decreases p.branches.len() - i,
            {
                proof {
                    assert(decreases_to!(*n => (*n)->Parallel_0));
                    assert(decreases_to!(*p => p.branches));
                    assert(decreases_to!(p.branches => p.branches@));
                    assert(decreases_to!(p.branches@ => p.branches@[i as int]));
                }
                assert(p.branches@.take(i + 1).drop_last() =~= p.branches@.take(i as int));
                push_mergers(&p.branches[i], out);
                i += 1;
            }
            assert(p.branches@.take(i as int) =~= p.branches@);
            match &p.merge {
                MergeStrategy::CustomRole(r) => {
                    let ghost before = out@;
                    out.push(r.clone());
                    assert(views(out@) =~= views(before) + seq![r@]);
                },
                _ => {
                    assert(views(out@) =~= views(out@) + seq![]);
                },
            }
        },
        PipelineNode::Switch(sw) => {
            let ghost start = views(out@);
            let mut i: usize = 0;
            while i < sw.branches.len()
                invariant
                    i <= sw.branches.len(),
                    views(out@) == start + mergers_of_arms(sw.branches@.take(i as int)),
                    *n == PipelineNode::Switch(*sw),
                decreases sw.branches.len() - i,
            {
                proof {
                    assert(decreases_to!(*n => (*n)->Switch_0));
                    assert(decreases_to!(*sw => sw.branches));
                    assert(decreases_to!(sw.branches => sw.branches@));
                    assert(decreases_to!(sw.branches@ => sw.branches@[i as int]));
                    assert(decreases_to!(sw.branches@[i as int] => sw.branches@[i as int].node));
                }
                assert(sw.branches@.take(i + 1).drop_last() =~= sw.branches@.take(i as int));
                push_mergers(&sw.branches[i].node, out);
                i += 1;
            }
            assert(sw.branches@.take(i as int) =~= sw.branches@);
        },
    }
}

impl PipelineNode {
    /// Every leaf stage reachable in this node, parallel branches and switch arms included.
    pub fn all_stages(&self) -> (res: Vec<RolePipelineStage>)
        ensures
            res@ == stages_of(*self),
    {
        let mut out: Vec<RolePipelineStage> = Vec::new();
        push_stages(self, &mut out);
        assert(out@ =~= stages_of(*self));
        out
    }

    /// The custom merge roles of every `parallel:` node inside this node.
    pub fn merge_role_names(&self) -> (res: Vec<String>)
        ensures
            views(res@) == mergers_of(*self),
    {
        let mut out: Vec<String> = Vec::new();
        push_mergers(self, &mut out);
        assert(views(out@) =~= mergers_of(*self));
        out
    }
}

/// The number of `otherwise:` arms.
pub open spec fn otherwise_count(bs: Seq<SwitchBranch>) -> nat
    decreases bs.len(),
{
    if bs.len() == 0 {
        0
    } else {
        otherwise_count(bs.drop_last()) + if bs.last().predicate is None {
            1nat
        } else {
            0nat
        }
    }
}

/// The first structural defect of a node in pre-order: a `parallel:` without branches,
/// a `switch:` without branches, or a `switch:` with more than one `otherwise:`.
pub open spec fn structural_defect(n: PipelineNode) -> Option<PipelineError>
    decreases n,
{
    match n {
        PipelineNode::Stage(_) => None,
        PipelineNode::Parallel(p) => if p.branches@.len() == 0 {
            Some(PipelineError::EmptyParallel)
        } else {
            structural_defect_nodes(p.branches@)
        },
        PipelineNode::Switch(sw) => if sw.branches@.len() == 0 {
            Some(PipelineError::EmptySwitch)
        } else if otherwise_count(sw.branches@) > 1 {
            Some(PipelineError::MultipleOtherwise)
        } else {
            structural_defect_arms(sw.branches@)
        },
    }
}

pub open spec fn structural_defect_nodes(ns: Seq<PipelineNode>) -> Option<PipelineError>
    decreases ns,
{
    if ns.len() == 0 {
        None
    } else {
        match structural_defect(ns[0]) {
            Some(e) => Some(e),
            None => structural_defect_nodes(ns.drop_first()),
        }
    }
}

pub open spec fn structural_defect_arms(bs: Seq<SwitchBranch>) -> Option<PipelineError>
    decreases bs,
{
    if bs.len() == 0 {
        None
    } else {
        match structural_defect(*bs[0].node) {
            Some(e) => Some(e),
            None => structural_defect_arms(bs.drop_first()),
        }
    }
}

/// No `when:` arm comes after an `otherwise:` arm.
pub open spec fn arms_ordered(bs: Seq<SwitchBranch>) -> bool {
    forall|i: int, j: int|
        0 <= i < j < bs.len() && (#[trigger] bs[i]).predicate is None ==> (#[trigger] bs[j]).predicate is None
}

/// Every switch inside the node keeps its `otherwise:` arm last.
pub open spec fn branch_order_ok(n: PipelineNode) -> bool
    decreases n,
{
    match n {
        PipelineNode::Stage(_) => true,
        PipelineNode::Parallel(p) => branch_order_ok_nodes(p.branches@),
        PipelineNode::Switch(sw) => arms_ordered(sw.branches@) && branch_order_ok_arms(
            sw.branches@,
        ),
    }
}

pub open spec fn branch_order_ok_nodes(ns: Seq<PipelineNode>) -> bool
    decreases ns,
{
    ns.len() == 0 || (branch_order_ok(ns[0]) && branch_order_ok_nodes(ns.drop_first()))
}

pub open spec fn branch_order_ok_arms(bs: Seq<SwitchBranch>) -> bool
    decreases bs,
{
    bs.len() == 0 || (branch_order_ok(*bs[0].node) && branch_order_ok_arms(bs.drop_first()))
}

fn count_otherwise(bs: &Vec<SwitchBranch>) -> (res: usize)
    ensures
        res == otherwise_count(bs@),
{
    let mut i: usize = 0;
    let mut n: usize = 0;
    while i < bs.len()
        invariant
            i <= bs.len(),
            n == otherwise_count(bs@.take(i as int)),
            n <= i,
        decreases bs.len() - i,
    {
        assert(bs@.take(i + 1).drop_last() =~= bs@.take(i as int));
        if bs[i].predicate.is_none() {
            n += 1;
        }
        i += 1;
    }
    assert(bs@.take(i as int) =~= bs@);
    n
}

impl PipelineNode {
    /// The node's structural invariants: parallel and switch nodes have branches, and a
    /// switch has at most one `otherwise:` arm; nested nodes are checked in order.
    pub fn structural_check(&self) -> (res: Result<(), PipelineError>)
        ensures
            match structural_defect(*self) {
                None => res is Ok,
                Some(e) => res == Err::<(), PipelineError>(e),
            },
        decreases self,
    {
        match self {
            PipelineNode::Stage(_) => Ok(()),
            PipelineNode::Parallel(p) => {
                if p.branches.len() == 0 {
                    return Err(PipelineError::EmptyParallel);
                }
                let mut i: usize = 0;
                assert(p.branches@.skip(0) =~= p.branches@);
                while i < p.branches.len()
                    invariant
                        i <= p.branches.len(),
                        *self == PipelineNode::Parallel(*p),
                        structural_defect_nodes(p.branches@) == structural_defect_nodes(
                            p.branches@.skip(i as int),
                        ),
                    decreases p.branches.len() - i,
                {
                    proof {
                        assert(decreases_to!(*self => (*self)->Parallel_0));
                        assert(decreases_to!(*p => p.branches));
                        assert(decreases_to!(p.branches => p.branches@));
                        assert(decreases_to!(p.branches@ => p.branches@[i as int]));
                    }
                    assert(p.branches@.skip(i as int)[0] == p.branches@[i as int]);
                    assert(p.branches@.skip(i as int).drop_first() =~= p.branches@.skip(i + 1));
                    let r = p.branches[i].structural_check();
                    if r.is_err() {
                        return r;
                    }
                    i += 1;
                }
                Ok(())
            },
            PipelineNode::Switch(sw) => {
                if sw.branches.len() == 0 {
                    return Err(PipelineError::EmptySwitch);
                }
                if count_otherwise(&sw.branches) > 1 {
                    return Err(PipelineError::MultipleOtherwise);
                }
                let mut i: usize = 0;
                assert(sw.branches@.skip(0) =~= sw.branches@);
                while i < sw.branches.len()
                    invariant
                        i <= sw.branches.len(),
                        *self == PipelineNode::Switch(*sw),
                        otherwise_count(sw.branches@) <= 1,
                        structural_defect_arms(sw.branches@) == structural_defect_arms(
                            sw.branches@.skip(i as int),
                        ),
                    decreases sw.branches.len() - i,
                {
                    proof {
                        assert(decreases_to!(*self => (*self)->Switch_0));
                        assert(decreases_to!(*sw => sw.branches));
                        assert(decreases_to!(sw.branches => sw.branches@));
                        assert(decreases_to!(sw.branches@ => sw.branches@[i as int]));
                        assert(decreases_to!(sw.branches@[i as int] => sw.branches@[i as int].node));
                    }
                    assert(sw.branches@.skip(i as int)[0] == sw.branches@[i as int]);
                    assert(sw.branches@.skip(i as int).drop_first() =~= sw.branches@.skip(i + 1));
                    let r = sw.branches[i].node.structural_check();
                    if r.is_err() {
                        return r;
                    }
                    i += 1;
                }
                Ok(())
            },
        }
    }
}

// ----- Laws of the structural checks, over the sub-nodes of a node -----

proof fn lemma_order_nodes_all(ns: Seq<PipelineNode>)
    ensures
        branch_order_ok_nodes(ns) <==> forall|j: int|
            0 <= j < ns.len() ==> branch_order_ok(#[trigger] ns[j]),
    decreases ns.len(),
{
    if ns.len() > 0 {
        let t = ns.drop_first();
        lemma_order_nodes_all(t);
        assert forall|j: int| 0 <= j < t.len() implies t[j] == ns[j + 1] by {}
        if (forall|j: int| 0 <= j < ns.len() ==> branch_order_ok(#[trigger] ns[j])) {
            assert forall|j: int| 0 <= j < t.len() implies branch_order_ok(#[trigger] t[j]) by {
                assert(branch_order_ok(ns[j + 1]));
            }
        }
        if branch_order_ok_nodes(ns) {
            assert forall|j: int| 0 <= j < ns.len() implies branch_order_ok(#[trigger] ns[j]) by {
                if j > 0 {
                    assert(t[j - 1] == ns[j]);
                }
            }
        }
    }
}

proof fn lemma_order_arms_all(bs: Seq<SwitchBranch>)
    ensures
        branch_order_ok_arms(bs) <==> forall|j: int|
            0 <= j < bs.len() ==> branch_order_ok(*(#[trigger] bs[j]).node),
    decreases bs.len(),
{
    if bs.len() > 0 {
        let t = bs.drop_first();
        lemma_order_arms_all(t);
        if (forall|j: int| 0 <= j < bs.len() ==> branch_order_ok(*(#[trigger] bs[j]).node)) {
            assert forall|j: int| 0 <= j < t.len() implies branch_order_ok(*(#[trigger] t[j]).node) by {
                assert(t[j] == bs[j + 1]);
                assert(branch_order_ok(*bs[j + 1].node));
            }
        }
        if branch_order_ok_arms(bs) {
            assert forall|j: int| 0 <= j < bs.len() implies branch_order_ok(*(#[trigger] bs[j]).node) by {
                if j > 0 {
                    assert(t[j - 1] == bs[j]);
                }
            }
        }
    }
}

/// Law: the branch-order check holds of a node exactly when no switch anywhere inside it
/// (through parallel branches and switch arms alike) has a `when:` arm after an
/// `otherwise:` arm: a stage passes; a parallel node passes when all its branches pass;
/// a switch passes when its own arms are ordered and every arm's node passes.
pub proof fn lemma_branch_order_ok_law(n: PipelineNode)
    ensures
        match n {
            PipelineNode::Stage(_) => branch_order_ok(n),
            PipelineNode::Parallel(p) => branch_order_ok(n) <==> forall|j: int|
                0 <= j < p.branches@.len() ==> branch_order_ok(#[trigger] p.branches@[j]),
            PipelineNode::Switch(sw) => branch_order_ok(n) <==> ((forall|i: int, j: int|
                0 <= i < j < sw.branches@.len() && (#[trigger] sw.branches@[i]).predicate is None
                    ==> (#[trigger] sw.branches@[j]).predicate is None) && forall|j: int|
                0 <= j < sw.branches@.len() ==> branch_order_ok(*(#[trigger] sw.branches@[j]).node)),
        },
{
    match n {
        PipelineNode::Stage(_) => {},
        PipelineNode::Parallel(p) => {
            lemma_order_nodes_all(p.branches@);
        },
        PipelineNode::Switch(sw) => {
            lemma_order_arms_all(sw.branches@);
        },
    }
}

proof fn lemma_defect_nodes_all(ns: Seq<PipelineNode>)
    ensures
        structural_defect_nodes(ns) is None <==> forall|j: int|
            0 <= j < ns.len() ==> structural_defect(#[trigger] ns[j]) is None,
    decreases ns.len(),
{
    if ns.len() > 0 {
        let t = ns.drop_first();
        lemma_defect_nodes_all(t);
        if (forall|j: int| 0 <= j < ns.len() ==> structural_defect(#[trigger] ns[j]) is None) {
            assert forall|j: int| 0 <= j < t.len() implies structural_defect(#[trigger] t[j]) is None by {
                assert(t[j] == ns[j + 1]);
                assert(structural_defect(ns[j + 1]) is None);
            }
        }
        if structural_defect_nodes(ns) is None {
            assert forall|j: int| 0 <= j < ns.len() implies structural_defect(#[trigger] ns[j]) is None by {
                if j > 0 {
                    assert(t[j - 1] == ns[j]);
                }
            }
        }
    }
}

proof fn lemma_defect_arms_all(bs: Seq<SwitchBranch>)
    ensures
        structural_defect_arms(bs) is None <==> forall|j: int|
            0 <= j < bs.len() ==> structural_defect(*(#[trigger] bs[j]).node) is None,
    decreases bs.len(),
{
    if bs.len() > 0 {
        let t = bs.drop_first();
        lemma_defect_arms_all(t);
        if (forall|j: int| 0 <= j < bs.len() ==> structural_defect(*(#[trigger] bs[j]).node) is None) {
            assert forall|j: int| 0 <= j < t.len() implies structural_defect(*(#[trigger] t[j]).node) is None by {
                assert(t[j] == bs[j + 1]);
                assert(structural_defect(*bs[j + 1].node) is None);
            }
        }
        if structural_defect_arms(bs) is None {
            assert forall|j: int| 0 <= j < bs.len() implies structural_defect(*(#[trigger] bs[j]).node) is None by {
                if j > 0 {
                    assert(t[j - 1] == bs[j]);
                }
            }
        }
    }
}

/// No two distinct arms are both `otherwise:` arms.
pub open spec fn at_most_one_otherwise(bs: Seq<SwitchBranch>) -> bool {
    forall|i: int, j: int|
        0 <= i < j < bs.len() ==> !((#[trigger] bs[i]).predicate is None && (#[trigger] bs[j]).predicate is None)
}

proof fn lemma_otherwise_count(bs: Seq<SwitchBranch>)
    ensures
        otherwise_count(bs) == 0 <==> forall|i: int|
            0 <= i < bs.len() ==> (#[trigger] bs[i]).predicate is Some,
        otherwise_count(bs) <= 1 <==> at_most_one_otherwise(bs),
    decreases bs.len(),
{
    if bs.len() > 0 {
        let d = bs.drop_last();
        let l = bs.last();
        lemma_otherwise_count(d);
        assert forall|i: int| 0 <= i < d.len() implies d[i] == bs[i] by {}
        if l.predicate is None {
            if at_most_one_otherwise(bs) {
                assert forall|i: int| 0 <= i < d.len() implies (#[trigger] d[i]).predicate is Some by {
                    assert(bs[i] == d[i]);
                    assert(bs[bs.len() - 1] == l);
                    assert(!(bs[i].predicate is None && bs[bs.len() - 1].predicate is None));
                }
            }
            if otherwise_count(bs) <= 1 {
                assert forall|i: int, j: int|
                    0 <= i < j < bs.len() implies !((#[trigger] bs[i]).predicate is None && (#[trigger] bs[j]).predicate is None) by {
                    assert(d[i] == bs[i]);
                }
            }
            assert(bs[bs.len() - 1] == l);
        } else {
            if at_most_one_otherwise(bs) {
                assert forall|i: int, j: int|
                    0 <= i < j < d.len() implies !((#[trigger] d[i]).predicate is None && (#[trigger] d[j]).predicate is None) by {
                    assert(d[i] == bs[i]);
                    assert(d[j] == bs[j]);
                }
            }
            if at_most_one_otherwise(d) {
                assert forall|i: int, j: int|
                    0 <= i < j < bs.len() implies !((#[trigger] bs[i]).predicate is None && (#[trigger] bs[j]).predicate is None) by {
                    if j < d.len() {
                        assert(d[i] == bs[i]);
                        assert(d[j] == bs[j]);
                    } else {
                        assert(bs[j] == l);
                    }
                }
            }
            if forall|i: int| 0 <= i < d.len() ==> (#[trigger] d[i]).predicate is Some {
                assert forall|i: int| 0 <= i < bs.len() implies (#[trigger] bs[i]).predicate is Some by {
                    if i < d.len() {
                        assert(d[i] == bs[i]);
                    } else {
                        assert(bs[i] == l);
                    }
                }
            }
            if forall|i: int| 0 <= i < bs.len() ==> (#[trigger] bs[i]).predicate is Some {
                assert forall|i: int| 0 <= i < d.len() implies (#[trigger] d[i]).predicate is Some by {
                    assert(d[i] == bs[i]);
                }
            }
        }
    }
}

/// Law: a node has no structural defect exactly when no node inside it (itself, the
/// branches of its parallel nodes and the arms of its switches, at any depth) is a
/// `parallel:` or `switch:` without branches or a `switch:` with two `otherwise:` arms.
pub proof fn lemma_structural_law(n: PipelineNode)
    ensures
        structural_defect(n) is None <==> match n {
            PipelineNode::Stage(_) => true,
            PipelineNode::Parallel(p) => p.branches@.len() > 0 && forall|j: int|
                0 <= j < p.branches@.len() ==> structural_defect(#[trigger] p.branches@[j]) is None,
            PipelineNode::Switch(sw) => sw.branches@.len() > 0 && at_most_one_otherwise(
                sw.branches@,
            ) && forall|j: int|
                0 <= j < sw.branches@.len() ==> structural_defect(
                    *(#[trigger] sw.branches@[j]).node,
                ) is None,
        },
{
    match n {
        PipelineNode::Stage(_) => {},
        PipelineNode::Parallel(p) => {
            lemma_defect_nodes_all(p.branches@);
        },
        PipelineNode::Switch(sw) => {
            lemma_defect_arms_all(sw.branches@);
            lemma_otherwise_count(sw.branches@);
        },
    }
}

// ----- Laws of what a node refers to, over its sub-nodes -----

proof fn lemma_stages_nodes_contains(ns: Seq<PipelineNode>, j: int, st: RolePipelineStage)
    requires
        0 <= j < ns.len(),
        stages_of(ns[j]).contains(st),
    ensures
        stages_of_nodes(ns).contains(st),
    decreases ns.len(),
{
    let d = ns.drop_last();
    let k = choose|k: int| 0 <= k < stages_of(ns[j]).len() && stages_of(ns[j])[k] == st;
    if j == ns.len() - 1 {
        let a = stages_of_nodes(d);
        assert((a + stages_of(ns.last()))[a.len() + k] == st);
    } else {
        assert(d[j] == ns[j]);
        lemma_stages_nodes_contains(d, j, st);
        let i = choose|i: int| 0 <= i < stages_of_nodes(d).len() && stages_of_nodes(d)[i] == st;
        assert((stages_of_nodes(d) + stages_of(ns.last()))[i] == st);
    }
}

proof fn lemma_stages_arms_contains(bs: Seq<SwitchBranch>, j: int, st: RolePipelineStage)
    requires
        0 <= j < bs.len(),
        stages_of(*bs[j].node).contains(st),
    ensures
        stages_of_arms(bs).contains(st),
    decreases bs.len(),
{
    let d = bs.drop_last();
    let k = choose|k: int| 0 <= k < stages_of(*bs[j].node).len() && stages_of(*bs[j].node)[k] == st;
    if j == bs.len() - 1 {
        let a = stages_of_arms(d);
        assert((a + stages_of(*bs.last().node))[a.len() + k] == st);
    } else {
        assert(d[j] == bs[j]);
        lemma_stages_arms_contains(d, j, st);
        let i = choose|i: int| 0 <= i < stages_of_arms(d).len() && stages_of_arms(d)[i] == st;
        assert((stages_of_arms(d) + stages_of(*bs.last().node))[i] == st);
    }
}

proof fn lemma_mergers_nodes_contains(ns: Seq<PipelineNode>, j: int, m: Seq<char>)
    requires
        0 <= j < ns.len(),
        mergers_of(ns[j]).contains(m),
    ensures
        mergers_of_nodes(ns).contains(m),
    decreases ns.len(),
{
    let d = ns.drop_last();
    let k = choose|k: int| 0 <= k < mergers_of(ns[j]).len() && mergers_of(ns[j])[k] == m;
    if j == ns.len() - 1 {
        let a = mergers_of_nodes(d);
        assert((a + mergers_of(ns.last()))[a.len() + k] == m);
    } else {
        assert(d[j] == ns[j]);
        lemma_mergers_nodes_contains(d, j, m);
        let i = choose|i: int| 0 <= i < mergers_of_nodes(d).len() && mergers_of_nodes(d)[i] == m;
        assert((mergers_of_nodes(d) + mergers_of(ns.last()))[i] == m);
    }
}

proof fn lemma_mergers_arms_contains(bs: Seq<SwitchBranch>, j: int, m: Seq<char>)
    requires
        0 <= j < bs.len(),
        mergers_of(*bs[j].node).contains(m),
    ensures
        mergers_of_arms(bs).contains(m),
    decreases bs.len(),
{
    let d = bs.drop_last();
    let k = choose|k: int| 0 <= k < mergers_of(*bs[j].node).len() && mergers_of(*bs[j].node)[k] == m;
    if j == bs.len() - 1 {
        let a = mergers_of_arms(d);
        assert((a + mergers_of(*bs.last().node))[a.len() + k] == m);
    } else {
        assert(d[j] == bs[j]);
        lemma_mergers_arms_contains(d, j, m);
        let i = choose|i: int| 0 <= i < mergers_of_arms(d).len() && mergers_of_arms(d)[i] == m;
        assert((mergers_of_arms(d) + mergers_of(*bs.last().node))[i] == m);
    }
}

/// `c` is a branch of the parallel node `n` or the node of an arm of the switch `n`.
pub open spec fn is_child(n: PipelineNode, c: PipelineNode) -> bool {
    match n {
        PipelineNode::Stage(_) => false,
        PipelineNode::Parallel(p) => p.branches@.contains(c),
        PipelineNode::Switch(sw) => exists|j: int|
            0 <= j < sw.branches@.len() && *(#[trigger] sw.branches@[j]).node == c,
    }
}

/// Every leaf stage and every merge role of a child node (a parallel branch or a switch
/// arm) is one of the node's own.
pub proof fn lemma_child_parts(n: PipelineNode, c: PipelineNode, st: RolePipelineStage, m: Seq<char>)
    requires
        is_child(n, c),
    ensures
        stages_of(c).contains(st) ==> stages_of(n).contains(st),
        mergers_of(c).contains(m) ==> mergers_of(n).contains(m),
{
    match n {
        PipelineNode::Stage(_) => {},
        PipelineNode::Parallel(p) => {
            let j = choose|j: int| 0 <= j < p.branches@.len() && p.branches@[j] == c;
            if stages_of(c).contains(st) {
                lemma_stages_nodes_contains(p.branches@, j, st);
            }
            if mergers_of(c).contains(m) {
                lemma_mergers_nodes_contains(p.branches@, j, m);
                let a = mergers_of_nodes(p.branches@);
                let i = choose|i: int| 0 <= i < a.len() && a[i] == m;
                let tail = match p.merge {
                    MergeStrategy::CustomRole(r) => seq![r@],
                    _ => Seq::<Seq<char>>::empty(),
                };
                assert((a + tail)[i] == m);
            }
        },
        PipelineNode::Switch(sw) => {
            let j = choose|j: int| 0 <= j < sw.branches@.len() && *(#[trigger] sw.branches@[j]).node == c;
            if stages_of(c).contains(st) {
                lemma_stages_arms_contains(sw.branches@, j, st);
            }
            if mergers_of(c).contains(m) {
                lemma_mergers_arms_contains(sw.branches@, j, m);
            }
        },
    }
}

/// What preflight follows from one node: the roles of its leaf stages, then its merge roles.
proof fn lemma_refs_single(n: PipelineNode, x: Seq<char>)
    ensures
        refs_of_nodes(seq![n]).contains(x) <==> ((exists|k: int|
            0 <= k < stages_of(n).len() && (#[trigger] stages_of(n)[k]).role@ == x)
            || mergers_of(n).contains(x)),
{
    let one = seq![n];
    assert(one.drop_last() =~= Seq::<PipelineNode>::empty());
    assert(one.last() == n);
    let a = stages_of(n).map_values(|s: RolePipelineStage| s.role@);
    let m = mergers_of(n);
    let r = refs_of_nodes(one);
    assert(refs_of_nodes(one.drop_last()) =~= Seq::<Seq<char>>::empty());
    assert(r =~= refs_of_nodes(one.drop_last()) + a + m);
    assert(r =~= a + m);
    if r.contains(x) {
        let i = choose|i: int| 0 <= i < r.len() && r[i] == x;
        if i < a.len() {
            assert(stages_of(n)[i].role@ == x);
        } else {
            assert(m[i - a.len()] == x);
        }
    }
    if exists|k: int| 0 <= k < stages_of(n).len() && (#[trigger] stages_of(n)[k]).role@ == x {
        let k = choose|k: int| 0 <= k < stages_of(n).len() && (#[trigger] stages_of(n)[k]).role@ == x;
        assert(r[k] == x);
    } else if m.contains(x) {
        let k = choose|k: int| 0 <= k < m.len() && m[k] == x;
        assert(r[a.len() + k] == x);
    }
}

/// Law: the names preflight follows from a node include, at any depth, the role of every
/// leaf stage and every custom merge role: a stage refers to its own role; a parallel node
/// or a switch refers to everything its branches or arms refer to, and a custom merge role
/// to that role; a list of nodes refers to everything each node refers to.
pub proof fn lemma_refs_law(ns: Seq<PipelineNode>, n: PipelineNode, c: PipelineNode, x: Seq<char>)
    ensures
        n matches PipelineNode::Stage(s) ==> refs_of_nodes(seq![n]) == seq![s.role@],
        is_child(n, c) && refs_of_nodes(seq![c]).contains(x) ==> refs_of_nodes(seq![n]).contains(x),
        (n matches PipelineNode::Parallel(p) && p.merge matches MergeStrategy::CustomRole(r))
            ==> refs_of_nodes(seq![n]).contains(n->Parallel_0.merge->CustomRole_0@),
        ns.contains(n) && refs_of_nodes(seq![n]).contains(x) ==> refs_of_nodes(ns).contains(x),
{
    lemma_refs_single(n, x);
    lemma_refs_single(c, x);
    if let PipelineNode::Stage(s) = n {
        let one = seq![n];
        assert(one.drop_last() =~= Seq::<PipelineNode>::empty());
        assert(mergers_of(n) =~= Seq::<Seq<char>>::empty());
        assert(stages_of(n) =~= seq![s]);
        assert(refs_of_nodes(one.drop_last()) =~= Seq::<Seq<char>>::empty());
        assert(refs_of_nodes(one) =~= seq![s.role@]);
    }
    if is_child(n, c) && refs_of_nodes(seq![c]).contains(x) {
        if exists|k: int| 0 <= k < stages_of(c).len() && (#[trigger] stages_of(c)[k]).role@ == x {
            let k = choose|k: int| 0 <= k < stages_of(c).len() && (#[trigger] stages_of(c)[k]).role@ == x;
            let st = stages_of(c)[k];
            assert(stages_of(c).contains(st));
            lemma_child_parts(n, c, st, x);
            let i = choose|i: int| 0 <= i < stages_of(n).len() && stages_of(n)[i] == st;
            assert(stages_of(n)[i].role@ == x);
        } else {
            let any: RolePipelineStage = vstd::pervasive::arbitrary();
            lemma_child_parts(n, c, any, x);
        }
    }
    if let PipelineNode::Parallel(p) = n {
        if let MergeStrategy::CustomRole(r) = p.merge {
            lemma_refs_single(n, r@);
            let a = mergers_of_nodes(p.branches@);
            assert((a + seq![r@])[a.len() as int] == r@);
            assert(mergers_of(n).contains(r@));
        }
    }
    if ns.contains(n) && refs_of_nodes(seq![n]).contains(x) {
        let i = choose|i: int| 0 <= i < ns.len() && ns[i] == n;
        lemma_refs_nodes_contains(ns, i, x);
    }
}

proof fn lemma_refs_nodes_contains(ns: Seq<PipelineNode>, i: int, x: Seq<char>)
    requires
        0 <= i < ns.len(),
        refs_of_nodes(seq![ns[i]]).contains(x),
    ensures
        refs_of_nodes(ns).contains(x),
    decreases ns.len(),
{
    let d = ns.drop_last();
    let a = stages_of(ns.last()).map_values(|s: RolePipelineStage| s.role@);
    let m = mergers_of(ns.last());
    let base = refs_of_nodes(d);
    assert(refs_of_nodes(ns) == base + a + m);
    if i == ns.len() - 1 {
        lemma_refs_single(ns[i], x);
        if exists|k: int| 0 <= k < stages_of(ns[i]).len() && (#[trigger] stages_of(ns[i])[k]).role@ == x {
            let k = choose|k: int| 0 <= k < stages_of(ns[i]).len() && (#[trigger] stages_of(ns[i])[k]).role@ == x;
            assert((base + a + m)[base.len() + k] == x);
        } else {
            let k = choose|k: int| 0 <= k < m.len() && m[k] == x;
            assert((base + a + m)[base.len() + a.len() + k] == x);
        }
    } else {
        assert(d[i] == ns[i]);
        lemma_refs_nodes_contains(d, i, x);
        let k = choose|k: int| 0 <= k < base.len() && base[k] == x;
        assert((base + a + m)[k] == x);
    }
}

} // verus!
