use aichat::config::{Config, Model, Role};
use aichat::error::PipelineError;
use aichat::pipe::{
    branch_stamp, check_pipeline_def, check_pipeline_role, collect_preflight_stages,
    merge_branch_outputs, parse_stages, plan_stage, resolve_stage_entity, select_switch_branch,
    stage_nodes, MergeOutcome, NextStep, StageAttempts, StageEntity,
};
use aichat::pipeline::{
    MergeStrategy, ParallelNode, PipelineNode, Predicate, RolePipelineStage, SwitchBranch,
    SwitchNode,
};

fn stage(role: &str, model: Option<&str>) -> PipelineNode {
    PipelineNode::Stage(RolePipelineStage {
        role: role.to_string(),
        model: model.map(|m| m.to_string()),
    })
}

fn arm(pred: Option<&str>, node: PipelineNode) -> SwitchBranch {
    SwitchBranch {
        predicate: pred.map(|p| Predicate::Contains(p.to_string())),
        node: Box::new(node),
    }
}

#[test]
fn parse_stages_splits_at_first_at_sign() {
    let specs = vec!["writer".to_string(), "critic@openai:gpt@4".to_string(), "@m".to_string()];
    let stages = parse_stages(&specs).unwrap();
    assert_eq!(stages.len(), 3);
    assert_eq!(stages[0].role_name, "writer");
    assert_eq!(stages[0].model_id, None);
    assert_eq!(stages[1].role_name, "critic");
    assert_eq!(stages[1].model_id.as_deref(), Some("openai:gpt@4"));
    assert_eq!(stages[2].role_name, "");
    assert_eq!(stages[2].model_id.as_deref(), Some("m"));
    let nodes = stage_nodes(&stages);
    match &nodes[1] {
        PipelineNode::Stage(s) => {
            assert_eq!(s.role, "critic");
            assert_eq!(s.model.as_deref(), Some("openai:gpt@4"));
        }
        _ => panic!("expected a stage"),
    }
}

#[test]
fn preflight_stages_reach_branches_arms_and_mergers() {
    let nodes = vec![
        stage("a", Some("x:y")),
        PipelineNode::Parallel(ParallelNode {
            branches: vec![
                stage("b", None),
                PipelineNode::Switch(SwitchNode {
                    branches: vec![arm(Some("k"), stage("c", None)), arm(None, stage("d", None))],
                }),
            ],
            merge: MergeStrategy::CustomRole("merger".to_string()),
        }),
    ];
    let got = collect_preflight_stages(&nodes);
    let want: Vec<(String, Option<String>)> = vec![
        ("a".to_string(), Some("x:y".to_string())),
        ("b".to_string(), None),
        ("c".to_string(), None),
        ("d".to_string(), None),
        ("merger".to_string(), None),
    ];
    assert_eq!(got, want);
}

fn role_with(retries: Option<usize>, fallbacks: &[&str]) -> Role {
    let mut r = Role::default();
    r.name = "w".to_string();
    r.stage_retries = retries;
    r.fallback_models = fallbacks.iter().map(|s| s.to_string()).collect();
    r
}

#[test]
fn stage_attempts_retry_then_fall_back_then_fail() {
    let r = role_with(Some(1), &["fb:one"]);
    let mut s = StageAttempts::new(&Some("main:m".to_string()), Some(&r));
    assert_eq!(s.model_override().as_deref(), Some("main:m"));
    assert_eq!(s.after_failure(true), NextStep::Retry);
    assert_eq!(s.model_override().as_deref(), Some("main:m"));
    assert_eq!(s.after_failure(true), NextStep::FallBack);
    assert_eq!(s.model_override().as_deref(), Some("fb:one"));
    assert_eq!(s.after_failure(true), NextStep::Retry);
    assert_eq!(s.after_failure(true), NextStep::Fail);
}

#[test]
fn stage_attempts_fail_at_once_on_non_retryable_error() {
    let r = role_with(None, &["fb:one", "fb:two"]);
    let mut s = StageAttempts::new(&None, Some(&r));
    assert_eq!(s.max_stage_retries, 1);
    assert_eq!(s.candidates.len(), 3);
    assert_eq!(s.model_override(), None);
    assert_eq!(s.after_failure(false), NextStep::Fail);
    let mut t = StageAttempts::new(&None, None);
    assert_eq!(t.after_failure(true), NextStep::Retry);
    assert_eq!(t.after_failure(true), NextStep::Fail);
}

#[test]
fn stage_attempts_total_is_bounded() {
    // (retries + 1) x models attempts at most: 3 x 2 = 6.
    let r = role_with(Some(2), &["fb"]);
    let mut s = StageAttempts::new(&None, Some(&r));
    let mut attempts = 1;
    while s.after_failure(true) != NextStep::Fail {
        attempts += 1;
    }
    assert_eq!(attempts, 6);
}

#[test]
fn plan_stage_cache_and_schema_retries() {
    let mut r = Role::default();
    let p = plan_stage(&r, false, false);
    assert!(p.cache_enabled);
    assert!(!p.has_tools);
    assert_eq!(p.max_schema_retries, 0);
    r.has_output_schema = true;
    assert_eq!(plan_stage(&r, false, false).max_schema_retries, 1);
    r.schema_retries = Some(3);
    assert_eq!(plan_stage(&r, false, false).max_schema_retries, 3);
    r.model.data.supports_response_format_json_schema = true;
    assert_eq!(plan_stage(&r, false, false).max_schema_retries, 0);
    r.use_tools = Some("all".to_string());
    let p = plan_stage(&r, false, false);
    assert!(p.has_tools);
    assert!(!p.cache_enabled);
    assert!(!plan_stage(&Role::default(), true, false).cache_enabled);
    assert!(!plan_stage(&Role::default(), false, true).cache_enabled);
}

#[test]
fn merge_concatenates_with_separator() {
    let outputs = vec!["one".to_string(), "two".to_string()];
    match merge_branch_outputs(&MergeStrategy::Concatenate, &outputs) {
        MergeOutcome::Text(t) => assert_eq!(t, "one\n---\ntwo"),
        _ => panic!("expected text"),
    }
    match merge_branch_outputs(&MergeStrategy::CustomRole("judge".to_string()), &outputs) {
        MergeOutcome::RunMerger { role, input } => {
            assert_eq!(role, "judge");
            assert_eq!(input, "one\n---\ntwo");
        }
        _ => panic!("expected a merge role"),
    }
}

#[test]
fn merge_json_array_keeps_json_and_quotes_text() {
    let outputs = vec![
        "{\"a\": 1}".to_string(),
        "plain \"text\"".to_string(),
        " [1, 2] ".to_string(),
    ];
    match merge_branch_outputs(&MergeStrategy::JsonArray, &outputs) {
        MergeOutcome::Text(t) => assert_eq!(t, "[{\"a\":1},\"plain \\\"text\\\"\",[1,2]]"),
        _ => panic!("expected text"),
    }
    match merge_branch_outputs(&MergeStrategy::JsonArray, &Vec::new()) {
        MergeOutcome::Text(t) => assert_eq!(t, "[]"),
        _ => panic!("expected text"),
    }
}

#[test]
fn branch_stamp_keeps_outer_label() {
    assert_eq!(branch_stamp(None, 0), Some(1));
    assert_eq!(branch_stamp(None, 4), Some(5));
    assert_eq!(branch_stamp(Some(2), 4), Some(2));
}

#[test]
fn switch_picks_first_matching_when_even_after_otherwise() {
    let s = SwitchNode {
        branches: vec![
            arm(Some("alpha"), stage("a", None)),
            arm(None, stage("b", None)),
            arm(Some("beta"), stage("c", None)),
        ],
    };
    assert_eq!(select_switch_branch(&s, "xx alpha").unwrap(), 0);
    assert_eq!(select_switch_branch(&s, "beta!").unwrap(), 2);
    assert_eq!(select_switch_branch(&s, "gamma").unwrap(), 1);
    let no_default = SwitchNode { branches: vec![arm(Some("alpha"), stage("a", None))] };
    let err = select_switch_branch(&no_default, "gamma").unwrap_err();
    assert_eq!(
        err.message(),
        "Switch routed no branch: no `when:` matched and no `otherwise:` defined"
    );
}

#[test]
fn pipeline_definition_and_role_checks() {
    assert!(check_pipeline_def(false, 3).is_ok());
    assert!(check_pipeline_def(true, 0).is_ok());
    let err = check_pipeline_def(true, 1).unwrap_err();
    assert!(err.message().starts_with("Pipeline definition has both"));
    let err = check_pipeline_role(&[]).unwrap_err();
    assert_eq!(err.message(), "Pipeline role has no stages");
    let bad = PipelineNode::Switch(SwitchNode { branches: vec![] });
    match check_pipeline_role(&[bad]).unwrap_err() {
        PipelineError::DagInvalid { cause } => {
            assert!(matches!(*cause, PipelineError::EmptySwitch));
        }
        _ => panic!("expected a DAG error"),
    }
    assert!(check_pipeline_role(&[stage("a", None)]).is_ok());
}

#[test]
fn resolve_stage_entity_by_kind() {
    let mut r = Role::default();
    r.name = "writer".to_string();
    r.model = Model::new("c", "m");
    let config = Config {
        roles: vec![r],
        agents: vec!["bot".to_string()],
        macros: vec!["mac".to_string()],
        models: vec![],
    };
    match resolve_stage_entity(&config, "writer").ok().unwrap() {
        StageEntity::Role(role) => assert_eq!(role.model().id(), "c:m"),
        _ => panic!("expected a role"),
    }
    match resolve_stage_entity(&config, "bot").ok().unwrap() {
        StageEntity::Agent(name) => assert_eq!(name, "bot"),
        _ => panic!("expected an agent"),
    }
    let err = resolve_stage_entity(&config, "mac").err().unwrap();
    assert_eq!(err.message(), "macro 'mac' cannot be used as a pipeline stage");
    let err = resolve_stage_entity(&config, "zzz").err().unwrap();
    assert_eq!(err.message(), "Failed to resolve pipeline stage 'zzz'");
}
