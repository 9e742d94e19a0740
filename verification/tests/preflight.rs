use aichat::config::{Config, FunctionDeclaration, Model, Role};
use aichat::cycles::validate_pipeline_dag_cycles;
use aichat::error::PipelineError;
use aichat::pipeline::{
    MergeStrategy, ParallelNode, PipelineNode, Predicate, RolePipelineStage, SwitchBranch,
    SwitchNode,
};
use aichat::preflight::{
    validate_model_capabilities, validate_pipeline_dag_structure, validate_pipeline_stages,
};

fn model_with(tools: bool, vision: bool) -> Model {
    let mut m = Model::new("test", "m");
    m.data_mut().supports_function_calling = tools;
    m.data_mut().supports_vision = vision;
    m
}

fn one_tool() -> Vec<FunctionDeclaration> {
    vec![FunctionDeclaration {
        name: "tool_search".to_string(),
        description: "Search for tools".to_string(),
    }]
}

#[test]
fn passes_when_no_tools_and_no_images() {
    let m = model_with(false, false);
    let r = Role::default();
    assert!(validate_model_capabilities(&m, &r, None, false).is_ok());
}

#[test]
fn rejects_tools_on_non_function_calling_model() {
    let m = model_with(false, false);
    let r = Role::default();
    let decls = one_tool();
    let err = validate_model_capabilities(&m, &r, Some(&decls), false).unwrap_err();
    assert!(err.message().contains("does not support it"));
}

#[test]
fn accepts_tools_on_function_calling_model() {
    let m = model_with(true, false);
    let r = Role::default();
    let decls = one_tool();
    assert!(validate_model_capabilities(&m, &r, Some(&decls), false).is_ok());
}

#[test]
fn rejects_images_on_non_vision_model() {
    let m = model_with(false, false);
    let r = Role::default();
    let err = validate_model_capabilities(&m, &r, None, true).unwrap_err();
    assert!(err.message().contains("does not support vision"));
}

#[test]
fn accepts_images_on_vision_model() {
    let m = model_with(false, true);
    let r = Role::default();
    assert!(validate_model_capabilities(&m, &r, None, true).is_ok());
}

// ----- DAG structural validation -----

fn stage(role: &str) -> PipelineNode {
    PipelineNode::Stage(RolePipelineStage { role: role.to_string(), model: None })
}

fn when(text: &str, node: PipelineNode) -> SwitchBranch {
    SwitchBranch {
        predicate: Some(Predicate::Contains(text.to_string())),
        node: Box::new(node),
    }
}

fn otherwise(node: PipelineNode) -> SwitchBranch {
    SwitchBranch { predicate: None, node: Box::new(node) }
}

fn switch(branches: Vec<SwitchBranch>) -> PipelineNode {
    PipelineNode::Switch(SwitchNode { branches })
}

fn parallel(branches: Vec<PipelineNode>, merge: MergeStrategy) -> PipelineNode {
    PipelineNode::Parallel(ParallelNode { branches, merge })
}

#[test]
fn dag_structural_rejects_when_after_otherwise() {
    // switch: when contains "x" -> a; otherwise -> b; when contains "y" -> c
    let n = switch(vec![
        when("x", stage("a")),
        otherwise(stage("b")),
        when("y", stage("c")),
    ]);
    let err = validate_pipeline_dag_structure(&[n]).unwrap_err();
    assert!(err.message().contains("after `otherwise:`"));
}

#[test]
fn dag_structural_accepts_otherwise_last() {
    let n = switch(vec![
        when("x", stage("a")),
        when("y", stage("b")),
        otherwise(stage("c")),
    ]);
    assert!(validate_pipeline_dag_structure(&[n]).is_ok());
}

#[test]
fn dag_structural_recurses_into_parallel_branches() {
    let n = parallel(
        vec![
            stage("a"),
            switch(vec![
                when("x", stage("b")),
                otherwise(stage("c")),
                when("y", stage("d")),
            ]),
        ],
        MergeStrategy::Concatenate,
    );
    let err = validate_pipeline_dag_structure(&[n]).unwrap_err();
    assert!(err.message().contains("after `otherwise:`"));
}

#[test]
fn dag_structural_rejects_empty_parallel_and_switch() {
    let p = parallel(vec![], MergeStrategy::Concatenate);
    assert!(matches!(
        validate_pipeline_dag_structure(&[p]),
        Err(PipelineError::EmptyParallel)
    ));
    let s = switch(vec![]);
    assert!(matches!(
        validate_pipeline_dag_structure(&[s]),
        Err(PipelineError::EmptySwitch)
    ));
}

#[test]
fn dag_structural_rejects_two_otherwise_arms() {
    let s = switch(vec![otherwise(stage("a")), otherwise(stage("b"))]);
    let err = validate_pipeline_dag_structure(&[stage("z"), s]).unwrap_err();
    assert!(matches!(err, PipelineError::MultipleOtherwise));
    assert_eq!(
        err.message(),
        "Switch node has more than one `otherwise:` branch"
    );
}

#[test]
fn dag_structural_reports_first_node_at_fault() {
    let bad_order = switch(vec![otherwise(stage("a")), when("q", stage("b"))]);
    let empty = parallel(vec![], MergeStrategy::JsonArray);
    let err = validate_pipeline_dag_structure(&[stage("x"), bad_order, empty]).unwrap_err();
    assert!(matches!(err, PipelineError::SwitchOrder));
}

// ----- Stage preflight -----

fn role(name: &str, model: Model, tools: bool, pipeline: Option<Vec<PipelineNode>>) -> Role {
    let mut r = Role::default();
    r.name = name.to_string();
    r.model = model;
    r.use_tools = if tools { Some("fs".to_string()) } else { None };
    r.pipeline = pipeline;
    r
}

fn config() -> Config {
    Config {
        roles: vec![
            role("plain", model_with(false, false), false, None),
            role("tooly", model_with(false, false), true, None),
        ],
        agents: vec!["helper".to_string()],
        macros: vec!["m1".to_string()],
        models: vec![model_with(true, false), Model::new("other", "x")],
    }
}

fn st(name: &str, model: Option<&str>) -> (String, Option<String>) {
    (name.to_string(), model.map(|m| m.to_string()))
}

#[test]
fn stages_accept_roles_agents_and_tool_capable_overrides() {
    let c = config();
    let stages = vec![st("plain", None), st("helper", None), st("tooly", Some("test:m"))];
    assert!(validate_pipeline_stages(&c, &stages).is_ok());
}

#[test]
fn stages_reject_unknown_entity_with_stage_number() {
    let c = config();
    let stages = vec![st("plain", None), st("nope", None)];
    let err = validate_pipeline_stages(&c, &stages).unwrap_err();
    assert_eq!(
        err.message(),
        "Preflight: pipeline stage 2 references unknown entity 'nope': unknown role, agent or macro 'nope'"
    );
}

#[test]
fn stages_reject_macro() {
    let c = config();
    let err = validate_pipeline_stages(&c, &[st("m1", None)]).unwrap_err();
    assert_eq!(
        err.message(),
        "Preflight: pipeline stage 1: macro 'm1' cannot be used as a pipeline stage"
    );
}

#[test]
fn stages_reject_unknown_model() {
    let c = config();
    let err = validate_pipeline_stages(&c, &[st("plain", Some("ghost:model"))]).unwrap_err();
    assert_eq!(
        err.message(),
        "Preflight: pipeline stage 1 references unknown model 'ghost:model'"
    );
}

#[test]
fn stages_reject_tools_on_role_model() {
    let c = config();
    let err = validate_pipeline_stages(&c, &[st("plain", None), st("tooly", None)]).unwrap_err();
    assert_eq!(
        err.message(),
        "Preflight: pipeline stage 2 role 'tooly' requires tool calling but model 'test:m' does not support it"
    );
    let err = validate_pipeline_stages(&c, &[st("tooly", Some("other:x"))]).unwrap_err();
    assert!(matches!(err, PipelineError::StageToolsUnsupported { stage: 1, .. }));
}

#[test]
fn stage_number_has_many_digits() {
    let c = config();
    let mut stages = Vec::new();
    for _ in 0..11 {
        stages.push(st("plain", None));
    }
    stages.push(st("missing", None));
    let err = validate_pipeline_stages(&c, &stages).unwrap_err();
    assert!(err.message().starts_with("Preflight: pipeline stage 12 references"));
}

// ----- Cycles -----

fn cyclic_config() -> Config {
    Config {
        roles: vec![
            role("a", model_with(true, true), false, Some(vec![stage("b")])),
            role(
                "b",
                model_with(true, true),
                false,
                Some(vec![parallel(
                    vec![stage("leaf"), stage("helper")],
                    MergeStrategy::CustomRole("c".to_string()),
                )]),
            ),
            role("c", model_with(true, true), false, Some(vec![stage("a")])),
            role("leaf", model_with(true, true), false, None),
            role("d", model_with(true, true), false, Some(vec![stage("leaf"), stage("leaf")])),
        ],
        agents: vec!["helper".to_string()],
        macros: vec![],
        models: vec![],
    }
}

#[test]
fn cycle_through_merge_role_is_found() {
    let c = cyclic_config();
    let err = validate_pipeline_dag_cycles(&c, "a", &[stage("b")]).unwrap_err();
    match &err {
        PipelineError::PipelineCycle { path } => {
            assert_eq!(path, &vec!["a".to_string(), "b".to_string(), "c".to_string(), "a".to_string()]);
        }
        _ => panic!("expected a cycle"),
    }
    assert!(err.message().contains("a -> b -> c -> a"));
}

#[test]
fn no_cycle_when_references_are_acyclic() {
    let c = cyclic_config();
    // `d` names `leaf` twice: visiting a role twice on different paths is no cycle.
    assert!(validate_pipeline_dag_cycles(&c, "d", &[stage("leaf"), stage("leaf")]).is_ok());
    // Unknown names and agents are skipped here.
    assert!(validate_pipeline_dag_cycles(&c, "top", &[stage("helper"), stage("nowhere")]).is_ok());
}

#[test]
fn direct_self_reference_is_a_cycle() {
    let c = cyclic_config();
    let err = validate_pipeline_dag_cycles(&c, "leaf", &[stage("leaf")]).unwrap_err();
    match err {
        PipelineError::PipelineCycle { path } => {
            assert_eq!(path, vec!["leaf".to_string(), "leaf".to_string()]);
        }
        _ => panic!("expected a cycle"),
    }
}
