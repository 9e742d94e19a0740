//! Cycle detection in the graph of pipeline roles that reference one another.
use vstd::prelude::*;
use crate::config::{has_role, role_named, Config, EntityRef};
use crate::error::PipelineError;
use crate::pipeline::{refs_of_nodes, views, PipelineNode};

verus! {

/// The role names a role's own pipeline refers to; nothing for a role that is not a pipeline.
pub open spec fn pipeline_refs(c: Config, r: Seq<char>) -> Seq<Seq<char>> {
    match role_named(c, r) {
        Some(role) => match role.pipeline {
            Some(ns) => refs_of_nodes(ns@),
            None => seq![],
        },
        None => seq![],
    }
}

/// The names of all roles.
pub open spec fn role_names(c: Config) -> Set<Seq<char>> {
    c.roles@.map_values(|r: crate::config::Role| r.name@).to_set()
}

/// How many roles are not yet on the chain: it shrinks with every step of the walk.
pub open spec fn unvisited(c: Config, chain: Seq<Seq<char>>) -> nat {
    role_names(c).difference(chain.to_set()).len()
}

/// The walk that preflight performs over the stage names `refs`, the roles on the current
/// path being `chain`: the first path that names a role already on it, or `None`.
pub open spec fn first_cycle(c: Config, refs: Seq<Seq<char>>, chain: Seq<Seq<char>>) -> Option<
    Seq<Seq<char>>,
>
    decreases unvisited(c, chain), 1nat, refs.len(),
{
    if refs.len() == 0 {
        None
    } else {
        match first_cycle_at(c, refs[0], chain) {
            Some(p) => Some(p),
            None => first_cycle(c, refs.drop_first(), chain),
        }
    }
}

/// One step of [`first_cycle`]: the stage name `s`.
pub open spec fn first_cycle_at(c: Config, s: Seq<char>, chain: Seq<Seq<char>>) -> Option<
    Seq<Seq<char>>,
>
    decreases unvisited(c, chain), 0nat, 0nat,
{
    if !has_role(c, s) {
        None
    } else if chain.contains(s) {
        Some(chain.push(s))
    } else {
        proof {
            lemma_unvisited_push(c, chain, s);
        }
        first_cycle(c, pipeline_refs(c, s), chain.push(s))
    }
}

/// `e` continues `chain` into a cycle: its first role is named in `refs`, each next role is
/// named by the pipeline of the one before, and its last role is already on the path.
pub open spec fn is_cycle_extension(
    c: Config,
    refs: Seq<Seq<char>>,
    chain: Seq<Seq<char>>,
    e: Seq<Seq<char>>,
) -> bool {
    &&& e.len() >= 1
    &&& refs.contains(e[0])
    &&& has_role(c, e[0])
    &&& forall|k: int|
        0 <= k < e.len() - 1 ==> #[trigger] pipeline_refs(c, e[k]).contains(e[k + 1]) && has_role(
            c,
            e[k + 1],
        )
    &&& (chain + e.drop_last()).contains(e.last())
}

/// Starting from `entry`, whose pipeline is `nodes`, some chain of role references
/// comes back to a role already on it.
pub open spec fn has_cycle(c: Config, entry: Seq<char>, nodes: Seq<PipelineNode>) -> bool {
    exists|e: Seq<Seq<char>>| #[trigger]
        is_cycle_extension(c, refs_of_nodes(nodes), seq![entry], e)
}

/// Putting a role that is not yet on the chain onto it leaves fewer unvisited roles.
pub proof fn lemma_unvisited_push(c: Config, chain: Seq<Seq<char>>, s: Seq<char>)
    requires
        has_role(c, s),
        !chain.contains(s),
    ensures
        unvisited(c, chain.push(s)) < unvisited(c, chain),
{
    broadcast use vstd::seq_lib::seq_to_set_is_finite;
    broadcast use vstd::set::group_set_axioms;

    let names = role_names(c);
    let i = choose|i: int| 0 <= i < c.roles@.len() && c.roles@[i].name@ == s;
    let ns = c.roles@.map_values(|r: crate::config::Role| r.name@);
    assert(ns[i] == s);
    assert(names.contains(s));
    let d = names.difference(chain.to_set());
    assert(d.contains(s));
    chain.lemma_push_to_set_commute(s);
    assert(names.difference(chain.push(s).to_set()) =~= d.remove(s));
}

/// What the walk finds is always the chain continued by a cycle, and it finds one exactly
/// when one exists.
proof fn lemma_first_cycle_refs(c: Config, refs: Seq<Seq<char>>, chain: Seq<Seq<char>>)
    ensures
        first_cycle(c, refs, chain) is None <==> !exists|e: Seq<Seq<char>>|
            #[trigger] is_cycle_extension(c, refs, chain, e),
        first_cycle(c, refs, chain) matches Some(p) ==> exists|e: Seq<Seq<char>>|
            #[trigger] is_cycle_extension(c, refs, chain, e) && p == chain + e,
    decreases unvisited(c, chain), 1nat, refs.len(),
{
    if refs.len() == 0 {
        assert forall|e: Seq<Seq<char>>| !#[trigger] is_cycle_extension(c, refs, chain, e) by {
            if e.len() >= 1 {
                assert(!refs.contains(e[0]));
            }
        }
    } else {
        let s = refs[0];
        let rest = refs.drop_first();
        lemma_first_cycle_at(c, s, chain);
        lemma_first_cycle_refs(c, rest, chain);
        match first_cycle_at(c, s, chain) {
            Some(p) => {
                let e = choose|e: Seq<Seq<char>>|
                    #[trigger] is_cycle_extension(c, seq![s], chain, e) && p == chain + e;
                assert(e[0] == s);
                assert(refs.contains(s)) by {
                    assert(refs[0] == s);
                }
                assert(is_cycle_extension(c, refs, chain, e));
            },
            None => {
                match first_cycle(c, rest, chain) {
                    Some(p) => {
                        let e = choose|e: Seq<Seq<char>>|
                            #[trigger] is_cycle_extension(c, rest, chain, e) && p == chain + e;
                        assert(refs.contains(e[0])) by {
                            let j = choose|j: int| 0 <= j < rest.len() && rest[j] == e[0];
                            assert(refs[j + 1] == e[0]);
                        }
                        assert(is_cycle_extension(c, refs, chain, e));
                    },
                    None => {
                        assert forall|e: Seq<Seq<char>>|
                            !#[trigger] is_cycle_extension(c, refs, chain, e) by {
                            if is_cycle_extension(c, refs, chain, e) {
                                let j = choose|j: int| 0 <= j < refs.len() && refs[j] == e[0];
                                if j == 0 {
                                    assert(seq![s].contains(e[0])) by {
                                        assert(seq![s][0] == s);
                                    }
                                    assert(is_cycle_extension(c, seq![s], chain, e));
                                } else {
                                    assert(rest[j - 1] == e[0]);
                                    assert(is_cycle_extension(c, rest, chain, e));
                                }
                            }
                        }
                    },
                }
            },
        }
    }
}

/// [`lemma_first_cycle_refs`] for the single stage name `s`.
proof fn lemma_first_cycle_at(c: Config, s: Seq<char>, chain: Seq<Seq<char>>)
    ensures
        first_cycle_at(c, s, chain) is None <==> !exists|e: Seq<Seq<char>>|
            #[trigger] is_cycle_extension(c, seq![s], chain, e),
        first_cycle_at(c, s, chain) matches Some(p) ==> exists|e: Seq<Seq<char>>|
            #[trigger] is_cycle_extension(c, seq![s], chain, e) && p == chain + e,
    decreases unvisited(c, chain), 0nat, 0nat,
{
    let one = seq![s];
    assert(one.contains(s)) by {
        assert(one[0] == s);
    }
    if !has_role(c, s) {
        assert forall|e: Seq<Seq<char>>| !#[trigger] is_cycle_extension(c, one, chain, e) by {
            if e.len() >= 1 && one.contains(e[0]) {
                let j = choose|j: int| 0 <= j < one.len() && one[j] == e[0];
                assert(e[0] == s);
            }
        }
    } else if chain.contains(s) {
        let e = seq![s];
        assert(e.drop_last() =~= Seq::<Seq<char>>::empty());
        assert(chain + e.drop_last() =~= chain);
        assert(is_cycle_extension(c, one, chain, e));
        assert(chain.push(s) =~= chain + e);
    } else {
        lemma_unvisited_push(c, chain, s);
        let next = pipeline_refs(c, s);
        let chain2 = chain.push(s);
        lemma_first_cycle_refs(c, next, chain2);
        match first_cycle(c, next, chain2) {
            Some(p) => {
                let e2 = choose|e: Seq<Seq<char>>|
                    #[trigger] is_cycle_extension(c, next, chain2, e) && p == chain2 + e;
                let e = seq![s] + e2;
                lemma_extension_cons(c, s, chain, e2);
                assert(p =~= chain + e);
            },
            None => {
                assert forall|e: Seq<Seq<char>>| !#[trigger] is_cycle_extension(c, one, chain, e) by {
                    if is_cycle_extension(c, one, chain, e) {
                        let j = choose|j: int| 0 <= j < one.len() && one[j] == e[0];
                        assert(e[0] == s);
                        if e.len() == 1 {
                            assert(e.drop_last() =~= Seq::<Seq<char>>::empty());
                            assert(chain + e.drop_last() =~= chain);
                        } else {
                            lemma_extension_tail(c, s, chain, e);
                        }
                    }
                }
            },
        }
    }
}

/// Dropping the first role of a cycle extension of `[s]` gives one of `s`'s own pipeline.
proof fn lemma_extension_tail(c: Config, s: Seq<char>, chain: Seq<Seq<char>>, e: Seq<Seq<char>>)
    requires
        is_cycle_extension(c, seq![s], chain, e),
        e.len() >= 2,
    ensures
        is_cycle_extension(c, pipeline_refs(c, s), chain.push(s), e.drop_first()),
{
    let one = seq![s];
    let j = choose|j: int| 0 <= j < one.len() && one[j] == e[0];
    assert(e[0] == s);
    let e2 = e.drop_first();
    let chain2 = chain.push(s);
    assert(pipeline_refs(c, e[0]).contains(e[0int + 1]));
    assert(e2[0] == e[1]);
    assert forall|k: int| 0 <= k < e2.len() - 1 implies #[trigger] pipeline_refs(
        c,
        e2[k],
    ).contains(e2[k + 1]) && has_role(c, e2[k + 1]) by {
        assert(e2[k] == e[k + 1]);
        assert(e2[k + 1] == e[(k + 1) + 1]);
        assert(pipeline_refs(c, e[k + 1]).contains(e[(k + 1) + 1]));
    }
    assert(chain2 + e2.drop_last() =~= chain + e.drop_last());
    assert(e2.last() == e.last());
}

/// A cycle extension of `s`'s own pipeline, with `s` put in front, is one of `[s]`.
proof fn lemma_extension_cons(c: Config, s: Seq<char>, chain: Seq<Seq<char>>, e2: Seq<Seq<char>>)
    requires
        has_role(c, s),
        is_cycle_extension(c, pipeline_refs(c, s), chain.push(s), e2),
    ensures
        is_cycle_extension(c, seq![s], chain, seq![s] + e2),
{
    let e = seq![s] + e2;
    let one = seq![s];
    assert(one.contains(s)) by {
        assert(one[0] == s);
    }
    assert(e[0] == s);
    assert forall|k: int| 0 <= k < e.len() - 1 implies #[trigger] pipeline_refs(
        c,
        e[k],
    ).contains(e[k + 1]) && has_role(c, e[k + 1]) by {
        if k == 0 {
            assert(e[1] == e2[0]);
        } else {
            assert(e[k] == e2[k - 1]);
            assert(e[k + 1] == e2[k]);
            assert(pipeline_refs(c, e2[k - 1]).contains(e2[(k - 1) + 1]));
        }
    }
    assert(chain + e.drop_last() =~= chain.push(s) + e2.drop_last());
    assert(e.last() == e2.last());
}

/// Law: the walk from `entry` over its pipeline `nodes` reports a cycle exactly when
/// some chain of role references from `entry` comes back to a role already on it, and
/// what it reports is such a chain.
pub proof fn lemma_cycle_walk_exact(c: Config, entry: Seq<char>, nodes: Seq<PipelineNode>)
    ensures
        first_cycle(c, refs_of_nodes(nodes), seq![entry]) is None <==> !has_cycle(c, entry, nodes),
        first_cycle(c, refs_of_nodes(nodes), seq![entry]) matches Some(p) ==> exists|
            e: Seq<Seq<char>>,
        | #[trigger] is_cycle_extension(c, refs_of_nodes(nodes), seq![entry], e) && p == seq![entry]
            + e,
{
    lemma_first_cycle_refs(c, refs_of_nodes(nodes), seq![entry]);
}

fn copy_names(v: &Vec<String>) -> (res: Vec<String>)
    ensures
        res@ == v@,
{
    let mut out: Vec<String> = Vec::new();
    let mut i: usize = 0;
    while i < v.len()
        invariant
            i <= v.len(),
            out@ == v@.take(i as int),
        decreases v.len() - i,
    {
        out.push(v[i].clone());
        i += 1;
    }
    assert(v@.take(i as int) =~= v@);
    out
}

fn contains_string(v: &Vec<String>, name: &String) -> (res: bool)
    ensures
        res == views(v@).contains(name@),
{
    let mut i: usize = 0;
    while i < v.len()
        invariant
            i <= v.len(),
            forall|j: int| 0 <= j < i ==> v@[j]@ != name@,
        decreases v.len() - i,
    {
        if v[i] == *name {
            assert(views(v@)[i as int] == name@);
            return true;
        }
        i += 1;
    }
    assert forall|j: int| 0 <= j < views(v@).len() implies views(v@)[j] != name@ by {
        assert(views(v@)[j] == v@[j]@);
    }
    false
}

/// The role names `nodes` refer to, in the order the walk visits them.
fn node_refs(nodes: &[PipelineNode]) -> (res: Vec<String>)
    ensures
        views(res@) == refs_of_nodes(nodes@),
{
    let mut out: Vec<String> = Vec::new();
    let mut i: usize = 0;
    while i < nodes.len()
        invariant
            i <= nodes.len(),
            views(out@) == refs_of_nodes(nodes@.take(i as int)),
        decreases nodes.len() - i,
    {
        let stages = nodes[i].all_stages();
        let mut j: usize = 0;
        let ghost base = views(out@);
        while j < stages.len()
            invariant
                j <= stages.len(),
                views(out@) == base + stages@.take(j as int).map_values(
                    |s: crate::pipeline::RolePipelineStage| s.role@,
                ),
            decreases stages.len() - j,
        {
            let ghost before = out@;
            out.push(stages[j].role.clone());
            assert(views(out@) =~= views(before) + seq![stages@[j as int].role@]);
            assert(stages@.take(j + 1).map_values(
                |s: crate::pipeline::RolePipelineStage| s.role@,
            ) =~= stages@.take(j as int).map_values(
                |s: crate::pipeline::RolePipelineStage| s.role@,
            ) + seq![stages@[j as int].role@]);
            j += 1;
        }
        assert(stages@.take(j as int) =~= stages@);
        let mergers = nodes[i].merge_role_names();
        let mut k: usize = 0;
        let ghost mid = views(out@);
        while k < mergers.len()
            invariant
                k <= mergers.len(),
                views(out@) == mid + views(mergers@).take(k as int),
            decreases mergers.len() - k,
        {
            let ghost before = out@;
            out.push(mergers[k].clone());
            assert(views(out@) =~= views(before) + seq![mergers@[k as int]@]);
            assert(views(mergers@).take(k + 1) =~= views(mergers@).take(k as int) + seq![
                mergers@[k as int]@,
            ]);
            k += 1;
        }
        assert(views(mergers@).take(k as int) =~= views(mergers@));
        assert(nodes@.take(i + 1).drop_last() =~= nodes@.take(i as int));
        assert(nodes@.take(i + 1).last() == nodes@[i as int]);
        i += 1;
    }
    assert(nodes@.take(i as int) =~= nodes@);
    out
}

fn walk_pipeline_nodes(config: &Config, nodes: &[PipelineNode], chain: &mut Vec<String>) -> (res:
    Result<(), PipelineError>)
    ensures
        final(chain)@ == old(chain)@,
        match first_cycle(*config, refs_of_nodes(nodes@), views(old(chain)@)) {
            None => res is Ok,
            Some(p) => res matches Err(PipelineError::PipelineCycle { path }) && views(path@) == p,
        },
    decreases unvisited(*config, views(old(chain)@)), 1nat, 0nat,
{
    let refs = node_refs(nodes);
    let ghost all = refs_of_nodes(nodes@);
    let ghost c0 = views(chain@);
    let mut i: usize = 0;
    assert(all.skip(0) =~= all);
    while i < refs.len()
        invariant
            i <= refs.len(),
            views(refs@) == all,
            all == refs_of_nodes(nodes@),
            chain@ == old(chain)@,
            c0 == views(old(chain)@),
            first_cycle(*config, all, c0) == first_cycle(*config, all.skip(i as int), c0),
        decreases refs.len() - i,
    {
        assert(all.skip(i as int)[0] == all[i as int]);
        assert(all.skip(i as int).drop_first() =~= all.skip(i + 1));
        assert(refs@[i as int]@ == all[i as int]);
        let r = check_stage_for_cycle(config, refs[i].as_str(), chain);
        if r.is_err() {
            assert(first_cycle_at(*config, all[i as int], c0) is Some);
            assert(first_cycle(*config, all.skip(i as int), c0) == first_cycle_at(
                *config,
                all[i as int],
                c0,
            ));
            return r;
        }
        i += 1;
    }
    Ok(())
}

fn check_stage_for_cycle(config: &Config, stage_role: &str, chain: &mut Vec<String>) -> (res:
    Result<(), PipelineError>)
    ensures
        final(chain)@ == old(chain)@,
        match first_cycle_at(*config, stage_role@, views(old(chain)@)) {
            None => res is Ok,
            Some(p) => res matches Err(PipelineError::PipelineCycle { path }) && views(path@) == p,
        },
    decreases unvisited(*config, views(old(chain)@)), 0nat, 0nat,
{
    let entity = match config.classify_entity(stage_role) {
        Ok(e) => e,
        Err(_) => return Ok(()),
    };
    let resolved_role_name = match entity {
        EntityRef::Role(name) => name,
        _ => return Ok(()),
    };
    if contains_string(chain, &resolved_role_name) {
        let mut path = copy_names(chain);
        path.push(resolved_role_name);
        assert(views(path@) =~= views(old(chain)@).push(stage_role@));
        return Err(PipelineError::PipelineCycle { path });
    }
    let role = match config.retrieve_role(resolved_role_name.as_str()) {
        Ok(r) => r,
        Err(_) => return Ok(()),
    };
    if !role.is_pipeline() {
        return Ok(());
    }
    let nodes = match role.pipeline() {
        Some(n) => n,
        None => return Ok(()),
    };
    proof {
        lemma_unvisited_push(*config, views(chain@), stage_role@);
    }
    let ghost before = chain@;
    chain.push(resolved_role_name);
    assert(views(chain@) =~= views(before).push(stage_role@));
    let res = walk_pipeline_nodes(config, nodes.as_slice(), chain);
    chain.pop();
    assert(chain@ =~= before);
    res
}

/// Preflight: detect a cycle in the pipeline-role reference graph before any model call.
///
/// `entry` is the role whose pipeline `nodes` is about to run. Every leaf stage and custom
/// merge role is followed into the pipeline of the role it names, extending the chain of
/// visited roles; naming a role already on the chain is a cycle.
pub fn validate_pipeline_dag_cycles(config: &Config, entry: &str, nodes: &[PipelineNode]) -> (res:
    Result<(), PipelineError>)
    ensures
        res is Ok <==> !has_cycle(*config, entry@, nodes@),
        res is Err ==> (res matches Err(PipelineError::PipelineCycle { path }) && exists|
            e: Seq<Seq<char>>,
        | #[trigger] is_cycle_extension(*config, refs_of_nodes(nodes@), seq![entry@], e)
            && views(path@) == seq![entry@] + e),
        match first_cycle(*config, refs_of_nodes(nodes@), seq![entry@]) {
            None => res is Ok,
            Some(p) => res matches Err(PipelineError::PipelineCycle { path }) && views(path@) == p,
        },
{
    let mut chain: Vec<String> = Vec::new();
    chain.push(entry.to_owned());
    assert(views(chain@) =~= seq![entry@]);
    proof {
        lemma_cycle_walk_exact(*config, entry@, nodes@);
    }
    walk_pipeline_nodes(config, nodes, &mut chain)
}

} // verus!
