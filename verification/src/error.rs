//! The library's error type.
use vstd::prelude::*;
use vstd::string::StringExecFns;
use crate::text::{decimal, decimal_string, join_strings, join_with, views};

verus! {

/// Everything the preflight checks and the pipeline planner can refuse.
#[derive(Debug)]
pub enum PipelineError {
    /// The role sends tools but the model cannot call functions.
    ToolsUnsupported { role: String, model: String },
    /// The input holds images but the model has no vision.
    VisionUnsupported { model: String },
    /// No role, agent or macro carries this name.
    UnknownEntity { name: String },
    /// No role carries this name.
    UnknownRole { name: String },
    /// A macro was named where a pipeline stage must be a role or an agent.
    MacroStage { name: String },
    /// Stage `stage` (1-based) names something unknown.
    StageUnknownEntity { stage: usize, name: String, cause: Box<PipelineError> },
    /// Stage `stage` (1-based) names something that cannot be a stage.
    StageNotAdmissible { stage: usize, cause: Box<PipelineError> },
    /// Stage `stage` (1-based) names a role that could not be loaded.
    StageRoleLoad { stage: usize, role: String, cause: Box<PipelineError> },
    /// Stage `stage` (1-based) overrides the model with one that is not listed.
    StageUnknownModel { stage: usize, model: String },
    /// Stage `stage` (1-based) uses tools on a model that cannot call functions.
    StageToolsUnsupported { stage: usize, role: String, model: String },
    /// A pipeline role reaches itself through the roles its stages name.
    PipelineCycle { path: Vec<String> },
    /// A `parallel:` node without branches.
    EmptyParallel,
    /// A `switch:` node without branches.
    EmptySwitch,
    /// A `switch:` node with more than one `otherwise:` arm.
    MultipleOtherwise,
    /// A `when:` arm placed after the `otherwise:` arm.
    SwitchOrder,
    /// A switch in which no `when:` matched and that has no `otherwise:`.
    NoSwitchBranch,
    /// A pipeline definition that sets both `stages:` and `pipeline:`.
    DefinitionConflict,
    /// A pipeline role without stages.
    EmptyPipelineRole,
    /// A stage name that could not be resolved.
    StageResolve { name: String, cause: Box<PipelineError> },
    /// The role of a stage could not be loaded.
    StageRoleLoadFailed { name: String, cause: Box<PipelineError> },
    /// The pipeline DAG failed its structural checks.
    DagInvalid { cause: Box<PipelineError> },
    /// A stage failed for good: no retry and no fallback model is left.
    StageFailed { stage: usize, total: usize, role: String, model: String, message: String },
}

/// The text of an error, as it is shown to the user. An error that adds context to a
/// cause shows the context only.
pub open spec fn message_of(e: PipelineError) -> Seq<char>
    decreases e,
{
    match e {
        PipelineError::ToolsUnsupported { role, model } => "Preflight: role '"@ + role@
            + "' requires tool calling but model '"@ + model@
            + "' does not support it. Remove `use_tools` from the role or switch to a function-calling model."@,
        PipelineError::VisionUnsupported { model } => "Preflight: input contains images but model '"@
            + model@ + "' does not support vision. Switch to a vision-capable model."@,
        PipelineError::UnknownEntity { name } => "unknown role, agent or macro '"@ + name@ + "'"@,
        PipelineError::UnknownRole { name } => "unknown role '"@ + name@ + "'"@,
        PipelineError::MacroStage { name } => "macro '"@ + name@
            + "' cannot be used as a pipeline stage"@,
        PipelineError::StageUnknownEntity { stage, name, cause } => "Preflight: pipeline stage "@
            + decimal(stage as nat) + " references unknown entity '"@ + name@ + "': "@
            + message_of(*cause),
        PipelineError::StageNotAdmissible { stage, cause } => "Preflight: pipeline stage "@
            + decimal(stage as nat) + ": "@ + message_of(*cause),
        PipelineError::StageRoleLoad { stage, role, cause } => "Preflight: pipeline stage "@
            + decimal(stage as nat) + " failed to load role '"@ + role@ + "': "@ + message_of(
            *cause,
        ),
        PipelineError::StageUnknownModel { stage, model } => "Preflight: pipeline stage "@
            + decimal(stage as nat) + " references unknown model '"@ + model@ + "'"@,
        PipelineError::StageToolsUnsupported { stage, role, model } =>
            "Preflight: pipeline stage "@ + decimal(stage as nat) + " role '"@ + role@
            + "' requires tool calling but model '"@ + model@ + "' does not support it"@,
        PipelineError::PipelineCycle { path } => "Preflight: pipeline cycle detected \u{2014} "@
            + join_with(views(path@), " -> "@)
            + " (a role's pipeline cannot transitively reference itself)"@,
        PipelineError::EmptyParallel => "Parallel node has no branches"@,
        PipelineError::EmptySwitch => "Switch node has no branches"@,
        PipelineError::MultipleOtherwise => "Switch node has more than one `otherwise:` branch"@,
        PipelineError::SwitchOrder =>
            "Switch branch order is misleading: a `when:` clause appears after `otherwise:`. Move `otherwise:` to the last position so reading order matches evaluation."@,
        PipelineError::NoSwitchBranch =>
            "Switch routed no branch: no `when:` matched and no `otherwise:` defined"@,
        PipelineError::DefinitionConflict =>
            "Pipeline definition has both `stages:` and `pipeline:` \u{2014} pick one. Use `pipeline:` for DAG primitives (parallel/switch) and `stages:` for purely sequential roles."@,
        PipelineError::EmptyPipelineRole => "Pipeline role has no stages"@,
        PipelineError::StageResolve { name, cause } => "Failed to resolve pipeline stage '"@
            + name@ + "'"@,
        PipelineError::StageRoleLoadFailed { name, cause } => "Failed to load role '"@ + name@
            + "' for pipeline stage"@,
        PipelineError::DagInvalid { cause } => "Pipeline DAG validation failed"@,
        PipelineError::StageFailed { stage, total, role, model, message } => "Pipeline stage "@
            + decimal(stage as nat) + "/"@ + decimal(total as nat) + " (role '"@ + role@
            + "', model '"@ + model@ + "') failed: "@ + message@,
    }
}

impl PipelineError {
    /// The text of the error.
    pub fn message(&self) -> (res: String)
        ensures
            res@ == message_of(*self),
        decreases self,
    {
        let mut s = String::new();
        match self {
            PipelineError::ToolsUnsupported { role, model } => {
                s.append("Preflight: role '");
                s.append(role.as_str());
                s.append("' requires tool calling but model '");
                s.append(model.as_str());
                s.append(
                    "' does not support it. Remove `use_tools` from the role or switch to a function-calling model.",
                );
            },
            PipelineError::VisionUnsupported { model } => {
                s.append("Preflight: input contains images but model '");
                s.append(model.as_str());
                s.append("' does not support vision. Switch to a vision-capable model.");
            },
            PipelineError::UnknownEntity { name } => {
                s.append("unknown role, agent or macro '");
                s.append(name.as_str());
                s.append("'");
            },
            PipelineError::UnknownRole { name } => {
                s.append("unknown role '");
                s.append(name.as_str());
                s.append("'");
            },
            PipelineError::MacroStage { name } => {
                s.append("macro '");
                s.append(name.as_str());
                s.append("' cannot be used as a pipeline stage");
            },
            PipelineError::StageUnknownEntity { stage, name, cause } => {
                s.append("Preflight: pipeline stage ");
                s.append(decimal_string(*stage).as_str());
                s.append(" references unknown entity '");
                s.append(name.as_str());
                s.append("': ");
                s.append(cause.message().as_str());
            },
            PipelineError::StageNotAdmissible { stage, cause } => {
                s.append("Preflight: pipeline stage ");
                s.append(decimal_string(*stage).as_str());
                s.append(": ");
                s.append(cause.message().as_str());
            },
            PipelineError::StageRoleLoad { stage, role, cause } => {
                s.append("Preflight: pipeline stage ");
                s.append(decimal_string(*stage).as_str());
                s.append(" failed to load role '");
                s.append(role.as_str());
                s.append("': ");
                s.append(cause.message().as_str());
            },
            PipelineError::StageUnknownModel { stage, model } => {
                s.append("Preflight: pipeline stage ");
                s.append(decimal_string(*stage).as_str());
                s.append(" references unknown model '");
                s.append(model.as_str());
                s.append("'");
            },
            PipelineError::StageToolsUnsupported { stage, role, model } => {
                s.append("Preflight: pipeline stage ");
                s.append(decimal_string(*stage).as_str());
                s.append(" role '");
                s.append(role.as_str());
                s.append("' requires tool calling but model '");
                s.append(model.as_str());
                s.append("' does not support it");
            },
            PipelineError::PipelineCycle { path } => {
                s.append("Preflight: pipeline cycle detected \u{2014} ");
                s.append(join_strings(path, " -> ").as_str());
                s.append(" (a role's pipeline cannot transitively reference itself)");
            },
            PipelineError::EmptyParallel => {
                s.append("Parallel node has no branches");
            },
            PipelineError::EmptySwitch => {
                s.append("Switch node has no branches");
            },
            PipelineError::MultipleOtherwise => {
                s.append("Switch node has more than one `otherwise:` branch");
            },
            PipelineError::SwitchOrder => {
                s.append(
                    "Switch branch order is misleading: a `when:` clause appears after `otherwise:`. Move `otherwise:` to the last position so reading order matches evaluation.",
                );
            },
            PipelineError::NoSwitchBranch => {
                s.append("Switch routed no branch: no `when:` matched and no `otherwise:` defined");
            },
            PipelineError::DefinitionConflict => {
                s.append(
                    "Pipeline definition has both `stages:` and `pipeline:` \u{2014} pick one. Use `pipeline:` for DAG primitives (parallel/switch) and `stages:` for purely sequential roles.",
                );
            },
            PipelineError::EmptyPipelineRole => {
                s.append("Pipeline role has no stages");
            },
            PipelineError::StageResolve { name, cause: _ } => {
                s.append("Failed to resolve pipeline stage '");
                s.append(name.as_str());
                s.append("'");
            },
            PipelineError::StageRoleLoadFailed { name, cause: _ } => {
                s.append("Failed to load role '");
                s.append(name.as_str());
                s.append("' for pipeline stage");
            },
            PipelineError::DagInvalid { cause: _ } => {
                s.append("Pipeline DAG validation failed");
            },
            PipelineError::StageFailed { stage, total, role, model, message } => {
                s.append("Pipeline stage ");
                s.append(decimal_string(*stage).as_str());
                s.append("/");
                s.append(decimal_string(*total).as_str());
                s.append(" (role '");
                s.append(role.as_str());
                s.append("', model '");
                s.append(model.as_str());
                s.append("') failed: ");
                s.append(message.as_str());
            },
        }
        proof {
            reveal_strlit("");
        }
        s
    }
}

} // verus!
