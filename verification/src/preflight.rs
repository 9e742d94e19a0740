//! Pre-flight validation: deterministic checks that run before any model call.
use vstd::prelude::*;
use crate::config::{
    entity_kind, has_model, is_first_model, model_id, pipeline_stage_admissible, role_named,
    Config, EntityKind, EntityRef, FunctionDeclaration, Model, Role,
};
use crate::error::PipelineError;
use crate::pipeline::{
    arms_ordered, branch_order_ok, branch_order_ok_arms, branch_order_ok_nodes,
    opt_view, structural_defect, PipelineNode,
};

verus! {

/// Whether tools will be sent: a list of functions was given and it is not empty.
pub open spec fn sends_tools(functions: Option<&[FunctionDeclaration]>) -> bool {
    functions matches Some(f) && f@.len() > 0
}

/// Pre-flight validation of model capabilities against what the role and the input need.
///
/// Fails when tools would be sent to a model that cannot call functions, or when the input
/// holds images and the model has no vision; the tools check comes first.
pub fn validate_model_capabilities(
    model: &Model,
    role: &Role,
    functions: Option<&[FunctionDeclaration]>,
    has_images: bool,
) -> (res: Result<(), PipelineError>)
    ensures
        sends_tools(functions) && !model.data.supports_function_calling ==> (res matches Err(
            PipelineError::ToolsUnsupported { role: r, model: m },
        ) && r@ == role.name@ && m@ == model_id(*model)),
        !(sends_tools(functions) && !model.data.supports_function_calling) && has_images
            && !model.data.supports_vision ==> (res matches Err(
            PipelineError::VisionUnsupported { model: m },
        ) && m@ == model_id(*model)),
        res is Ok <==> !(sends_tools(functions) && !model.data.supports_function_calling) && !(
        has_images && !model.data.supports_vision),
{
    let will_send_tools = match functions {
        Some(f) => f.len() > 0,
        None => false,
    };
    if will_send_tools && !model.data().supports_function_calling {
        return Err(PipelineError::ToolsUnsupported { role: role.name().clone(), model: model.id() });
    }
    if has_images && !model.data().supports_vision {
        return Err(PipelineError::VisionUnsupported { model: model.id() });
    }
    Ok(())
}

/// What preflight finds wrong with one stage.
#[derive(Debug)]
pub enum StageIssue {
    UnknownEntity,
    Macro,
    UnknownModel,
    ToolsUnsupported,
}

/// The first listed model whose id is `id`.
pub open spec fn model_listed(c: Config, id: Seq<char>) -> Model {
    c.models@[choose|i: int| is_first_model(c.models@, id, i)]
}

/// The model a role stage runs on: the override when given, else the role's own model.
pub open spec fn stage_model(c: Config, name: Seq<char>, model: Option<Seq<char>>) -> Model {
    match model {
        Some(id) => model_listed(c, id),
        None => role_named(c, name)->0.model,
    }
}

/// What is wrong with the stage `name` (model override `model`), if anything. Agents pass:
/// their capabilities are only known once they are loaded.
pub open spec fn stage_issue(c: Config, name: Seq<char>, model: Option<Seq<char>>) -> Option<
    StageIssue,
> {
    match entity_kind(c, name) {
        None => Some(StageIssue::UnknownEntity),
        Some(EntityKind::Macro) => Some(StageIssue::Macro),
        Some(EntityKind::Agent) => None,
        Some(EntityKind::Role) => if model matches Some(id) && !has_model(c, id) {
            Some(StageIssue::UnknownModel)
        } else if role_named(c, name)->0.use_tools is Some && !stage_model(
            c,
            name,
            model,
        ).data.supports_function_calling {
            Some(StageIssue::ToolsUnsupported)
        } else {
            None
        },
    }
}

/// `e` is the error that reports `issue` for stage `index` (0-based) `name` with override `model`.
pub open spec fn reports_stage_issue(
    e: PipelineError,
    issue: StageIssue,
    c: Config,
    index: int,
    name: Seq<char>,
    model: Option<Seq<char>>,
) -> bool {
    match issue {
        StageIssue::UnknownEntity => e matches PipelineError::StageUnknownEntity {
            stage,
            name: n,
            cause,
        } && stage == index + 1 && n@ == name && (*cause matches PipelineError::UnknownEntity {
            name: m,
        } && m@ == name),
        StageIssue::Macro => e matches PipelineError::StageNotAdmissible { stage, cause } && stage
            == index + 1 && (*cause matches PipelineError::MacroStage { name: m } && m@ == name),
        StageIssue::UnknownModel => e matches PipelineError::StageUnknownModel { stage, model: m }
            && stage == index + 1 && Some(m@) == model,
        StageIssue::ToolsUnsupported => e matches PipelineError::StageToolsUnsupported {
            stage,
            role: r,
            model: m,
        } && stage == index + 1 && r@ == name && m@ == model_id(stage_model(c, name, model)),
    }
}

pub open spec fn stage_issue_at(c: Config, stages: Seq<(String, Option<String>)>, i: int) -> Option<
    StageIssue,
> {
    stage_issue(c, stages[i].0@, opt_view(stages[i].1))
}

/// Law: a stage passes preflight exactly when its name resolves to a role or an agent (not
/// a macro, not nothing) and, for a role, any model override names a listed model and a
/// role that uses tools runs on a model (the override's, else its own) that can call
/// functions.
pub proof fn lemma_stage_issue_law(c: Config, name: Seq<char>, model: Option<Seq<char>>)
    ensures
        stage_issue(c, name, model) is None <==> {
            &&& entity_kind(c, name) is Some
            &&& entity_kind(c, name) != Some(EntityKind::Macro)
            &&& entity_kind(c, name) == Some(EntityKind::Role) ==> {
                &&& (model matches Some(id) ==> has_model(c, id))
                &&& (role_named(c, name)->0.use_tools is Some ==> (match model {
                    Some(id) => c.models@[choose|i: int| is_first_model(c.models@, id, i)],
                    None => role_named(c, name)->0.model,
                }).data.supports_function_calling)
            }
        },
{
}

/// Pre-flight validation of a pipeline's stages, given as `(name, model override)`: each
/// name must resolve to a role or an agent, an override must name a listed model, and a
/// role that uses tools must run on a model that can call functions. The first stage at
/// fault is reported.
pub fn validate_pipeline_stages(config: &Config, stages: &[(String, Option<String>)]) -> (res:
    Result<(), PipelineError>)
    requires
        stages@.len() < usize::MAX,
    ensures
        res is Ok <==> forall|i: int| 0 <= i < stages@.len() ==> stage_issue_at(*config, stages@, i) is None,
        res matches Err(e) ==> exists|i: int|
            0 <= i < stages@.len() && (forall|j: int|
                0 <= j < i ==> stage_issue_at(*config, stages@, j) is None) && (#[trigger] stage_issue_at(
                *config,
                stages@,
                i,
            ) matches Some(issue) && reports_stage_issue(
                e,
                issue,
                *config,
                i,
                stages@[i].0@,
                opt_view(stages@[i].1),
            )),
{
    let mut index: usize = 0;
    while index < stages.len()
        invariant
            index <= stages@.len(),
            stages@.len() < usize::MAX,
            forall|j: int| 0 <= j < index ==> stage_issue_at(*config, stages@, j) is None,
        decreases stages.len() - index,
    {
        let raw_name = &stages[index].0;
        let model_override = &stages[index].1;
        let stage = index + 1;
        let entity = match config.classify_entity(raw_name.as_str()) {
            Ok(e) => e,
            Err(e) => {
                assert(stage_issue_at(*config, stages@, index as int) == Some(
                    StageIssue::UnknownEntity,
                ));
                return Err(
                    PipelineError::StageUnknownEntity {
                        stage,
                        name: raw_name.clone(),
                        cause: Box::new(e),
                    },
                );
            },
        };
        match pipeline_stage_admissible(&entity) {
            Ok(()) => {},
            Err(e) => {
                assert(stage_issue_at(*config, stages@, index as int) == Some(StageIssue::Macro));
                return Err(PipelineError::StageNotAdmissible { stage, cause: Box::new(e) });
            },
        }
        let role_name = match entity {
            EntityRef::Role(name) => name,
            EntityRef::Agent(_) => {
                index += 1;
                continue ;
            },
            EntityRef::Macro(_) => {
                index += 1;
                continue ;
            },
        };
        let role = match config.retrieve_role(role_name.as_str()) {
            Ok(r) => r,
            Err(e) => {
                return Err(
                    PipelineError::StageRoleLoad { stage, role: role_name, cause: Box::new(e) },
                );
            },
        };
        let model = match model_override {
            Some(id) => match config.find_model(id) {
                Some(m) => {
                    proof {
                        let k = choose|k: int| is_first_model(config.models@, id@, k);
                        let w = choose|w: int|
                            is_first_model(config.models@, id@, w) && config.models@[w] == *m;
                        assert(k == w) by {
                            if k < w {
                                assert(model_id(config.models@[k]) == id@);
                            } else if w < k {
                                assert(model_id(config.models@[w]) == id@);
                            }
                        }
                    }
                    m
                },
                None => {
                    assert(stage_issue_at(*config, stages@, index as int) == Some(
                        StageIssue::UnknownModel,
                    ));
                    return Err(
                        PipelineError::StageUnknownModel { stage, model: id.clone() },
                    );
                },
            },
            None => role.model(),
        };
        assert(*model == stage_model(*config, role_name@, opt_view(*model_override)));
        if role.use_tools().is_some() && !model.data().supports_function_calling {
            assert(stage_issue_at(*config, stages@, index as int) == Some(
                StageIssue::ToolsUnsupported,
            ));
            return Err(
                PipelineError::StageToolsUnsupported { stage, role: role_name, model: model.id() },
            );
        }
        assert(stage_issue_at(*config, stages@, index as int) is None);
        index += 1;
    }
    Ok(())
}

/// Every switch inside the node keeps its `otherwise:` arm last; a `when:` arm after it
/// is refused (evaluation order would make it reachable, but it reads as dead code).
pub fn check_switch_branch_order(n: &PipelineNode) -> (res: Result<(), PipelineError>)
    ensures
        res is Ok <==> branch_order_ok(*n),
        res is Err ==> res matches Err(PipelineError::SwitchOrder),
    decreases n,
{
    match n {
        PipelineNode::Stage(_) => Ok(()),
        PipelineNode::Parallel(p) => {
            let mut i: usize = 0;
            assert(p.branches@.skip(0) =~= p.branches@);
            while i < p.branches.len()
                invariant
                    i <= p.branches.len(),
                    *n == PipelineNode::Parallel(*p),
                    branch_order_ok_nodes(p.branches@) == branch_order_ok_nodes(
                        p.branches@.skip(i as int),
                    ),
                decreases p.branches.len() - i,
            {
                proof {
                    assert(decreases_to!(*n => (*n)->Parallel_0));
                    assert(decreases_to!(*p => p.branches));
                    assert(decreases_to!(p.branches => p.branches@));
                    assert(decreases_to!(p.branches@ => p.branches@[i as int]));
                }
                assert(p.branches@.skip(i as int)[0] == p.branches@[i as int]);
                assert(p.branches@.skip(i as int).drop_first() =~= p.branches@.skip(i + 1));
                let r = check_switch_branch_order(&p.branches[i]);
                if r.is_err() {
                    return r;
                }
                i += 1;
            }
            Ok(())
        },
        PipelineNode::Switch(s) => {
            let mut saw_otherwise = false;
            let mut i: usize = 0;
            assert(s.branches@.skip(0) =~= s.branches@);
            while i < s.branches.len()
                invariant
                    i <= s.branches.len(),
                    *n == PipelineNode::Switch(*s),
                    saw_otherwise <==> exists|k: int|
                        0 <= k < i && (#[trigger] s.branches@[k]).predicate is None,
                    forall|a: int, b: int|
                        0 <= a < b < i && (#[trigger] s.branches@[a]).predicate is None
                            ==> (#[trigger] s.branches@[b]).predicate is None,
                    branch_order_ok_arms(s.branches@) == branch_order_ok_arms(
                        s.branches@.skip(i as int),
                    ),
                decreases s.branches.len() - i,
            {
                proof {
                    assert(decreases_to!(*n => (*n)->Switch_0));
                    assert(decreases_to!(*s => s.branches));
                    assert(decreases_to!(s.branches => s.branches@));
                    assert(decreases_to!(s.branches@ => s.branches@[i as int]));
                    assert(decreases_to!(s.branches@[i as int] => s.branches@[i as int].node));
                }
                let b = &s.branches[i];
                if saw_otherwise && b.predicate.is_some() {
                    assert(!arms_ordered(s.branches@));
                    return Err(PipelineError::SwitchOrder);
                }
                if b.predicate.is_none() {
                    saw_otherwise = true;
                }
                assert(s.branches@.skip(i as int)[0] == s.branches@[i as int]);
                assert(s.branches@.skip(i as int).drop_first() =~= s.branches@.skip(i + 1));
                let r = check_switch_branch_order(&b.node);
                if r.is_err() {
                    return r;
                }
                i += 1;
            }
            assert(arms_ordered(s.branches@));
            Ok(())
        },
    }
}

/// The first error of the nodes in order: a structural defect of a node, else a
/// misplaced `otherwise:` in it.
pub open spec fn dag_structure_error(ns: Seq<PipelineNode>) -> Option<PipelineError>
    decreases ns.len(),
{
    if ns.len() == 0 {
        None
    } else {
        match structural_defect(ns[0]) {
            Some(e) => Some(e),
            None => if !branch_order_ok(ns[0]) {
                Some(PipelineError::SwitchOrder)
            } else {
                dag_structure_error(ns.drop_first())
            },
        }
    }
}

/// Walk the DAG: every node's structural invariants hold and no switch declares a `when:`
/// arm after its `otherwise:` arm. The first node at fault is reported.
pub fn validate_pipeline_dag_structure(nodes: &[PipelineNode]) -> (res: Result<(), PipelineError>)
    ensures
        match dag_structure_error(nodes@) {
            None => res is Ok,
            Some(e) => res == Err::<(), PipelineError>(e),
        },
        res is Ok <==> forall|i: int|
            0 <= i < nodes@.len() ==> structural_defect(#[trigger] nodes@[i]) is None
                && branch_order_ok(nodes@[i]),
{
    let mut i: usize = 0;
    assert(nodes@.skip(0) =~= nodes@);
    while i < nodes.len()
        invariant
            i <= nodes.len(),
            dag_structure_error(nodes@) == dag_structure_error(nodes@.skip(i as int)),
            forall|j: int|
                0 <= j < i ==> structural_defect(#[trigger] nodes@[j]) is None && branch_order_ok(
                    nodes@[j],
                ),
        decreases nodes.len() - i,
    {
        assert(nodes@.skip(i as int)[0] == nodes@[i as int]);
        assert(nodes@.skip(i as int).drop_first() =~= nodes@.skip(i + 1));
        let r = nodes[i].structural_check();
        if r.is_err() {
            return r;
        }
        let r2 = check_switch_branch_order(&nodes[i]);
        if r2.is_err() {
            return r2;
        }
        i += 1;
    }
    proof {
        assert(nodes@.skip(i as int).len() == 0);
    }
    Ok(())
}

} // verus!
