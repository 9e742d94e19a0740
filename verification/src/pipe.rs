//! The decisions of running a pipeline: which stages there are, which model a stage
//! tries next, how parallel outputs merge, which switch arm runs.
use vstd::prelude::*;
use vstd::string::StringExecFns;
use crate::config::{pipeline_stage_admissible, role_named, Config, EntityKind, EntityRef, Role, entity_kind};
use crate::error::PipelineError;
use crate::json::{json_quoted, json_reencode, json_reencoded, json_string_literal};
use crate::pipeline::{
    is_child, lemma_child_parts, mergers_of, mergers_of_nodes, opt_view, stages_of, MergeStrategy, PipelineNode, Predicate, RolePipelineStage,
    SwitchNode, views,
};
use crate::preflight::{dag_structure_error, validate_pipeline_dag_structure};
use crate::text::{char_vec, contains_chars, contains_seq, join_strings, join_with, string_from_chars};

verus! {

/// A sequential stage given as `role` or `role@model`.
#[derive(Debug)]
pub struct PipelineStage {
    pub role_name: String,
    pub model_id: Option<String>,
}

/// `i` is the first `@` of `s`.
pub open spec fn is_first_at(s: Seq<char>, i: int) -> bool {
    &&& 0 <= i < s.len()
    &&& s[i] == '@'
    &&& forall|j: int| 0 <= j < i ==> s[j] != '@'
}

/// `st` is what `role@model` (split at the first `@`) or a bare `role` gives.
pub open spec fn parses_stage_spec(s: Seq<char>, st: PipelineStage) -> bool {
    if s.contains('@') {
        exists|i: int|
            #![trigger is_first_at(s, i)]
            is_first_at(s, i) && st.role_name@ == s.take(i) && (st.model_id matches Some(m) && m@
                == s.skip(i + 1))
    } else {
        st.role_name@ == s && st.model_id is None
    }
}

fn sub_chars(v: &Vec<char>, from: usize, to: usize) -> (res: Vec<char>)
    requires
        from <= to <= v@.len(),
    ensures
        res@ == v@.subrange(from as int, to as int),
{
    let mut out: Vec<char> = Vec::new();
    let mut i = from;
    while i < to
        invariant
            from <= i <= to <= v@.len(),
            out@ == v@.subrange(from as int, i as int),
        decreases to - i,
    {
        out.push(v[i]);
        assert(v@.subrange(from as int, i + 1) =~= v@.subrange(from as int, i as int).push(
            v@[i as int],
        ));
        i += 1;
    }
    out
}

fn parse_stage_spec(spec: &String) -> (res: PipelineStage)
    ensures
        parses_stage_spec(spec@, res),
{
    let chars = char_vec(spec.as_str());
    let mut i: usize = 0;
    while i < chars.len()
        invariant
            i <= chars@.len(),
            chars@ == spec@,
            forall|j: int| 0 <= j < i ==> chars@[j] != '@',
        decreases chars.len() - i,
    {
        if chars[i] == '@' {
            let role = sub_chars(&chars, 0, i);
            let model = sub_chars(&chars, i + 1, chars.len());
            let res = PipelineStage {
                role_name: string_from_chars(&role),
                model_id: Some(string_from_chars(&model)),
            };
            assert(spec@.contains('@'));
            assert(is_first_at(spec@, i as int));
            assert(res.role_name@ =~= spec@.take(i as int));
            assert(res.model_id->0@ =~= spec@.skip(i + 1));
            return res;
        }
        i += 1;
    }
    PipelineStage { role_name: spec.clone(), model_id: None }
}

/// Parse `--stage` arguments: `role` or `role@model`, split at the first `@`.
pub fn parse_stages(stage_specs: &[String]) -> (res: Result<Vec<PipelineStage>, PipelineError>)
    ensures
        res matches Ok(v) && v@.len() == stage_specs@.len() && forall|i: int|
            0 <= i < stage_specs@.len() ==> parses_stage_spec(stage_specs@[i]@, #[trigger] v@[i]),
{
    let mut out: Vec<PipelineStage> = Vec::new();
    let mut i: usize = 0;
    while i < stage_specs.len()
        invariant
            i <= stage_specs@.len(),
            out@.len() == i,
            forall|k: int| 0 <= k < i ==> parses_stage_spec(stage_specs@[k]@, #[trigger] out@[k]),
        decreases stage_specs.len() - i,
    {
        out.push(parse_stage_spec(&stage_specs[i]));
        i += 1;
    }
    Ok(out)
}

/// Sequential stages as pipeline nodes.
pub fn stage_nodes(stages: &Vec<PipelineStage>) -> (res: Vec<PipelineNode>)
    ensures
        res@.len() == stages@.len(),
        forall|i: int|
            0 <= i < stages@.len() ==> (#[trigger] res@[i] matches PipelineNode::Stage(s) && s.role
                == stages@[i].role_name && s.model == stages@[i].model_id),
{
    let mut out: Vec<PipelineNode> = Vec::new();
    let mut i: usize = 0;
    while i < stages.len()
        invariant
            i <= stages@.len(),
            out@.len() == i,
            forall|k: int|
                0 <= k < i ==> (#[trigger] out@[k] matches PipelineNode::Stage(s) && s.role
                    == stages@[k].role_name && s.model == stages@[k].model_id),
        decreases stages.len() - i,
    {
        let model = match &stages[i].model_id {
            Some(m) => Some(m.clone()),
            None => None,
        };
        out.push(
            PipelineNode::Stage(RolePipelineStage { role: stages[i].role_name.clone(), model }),
        );
        i += 1;
    }
    out
}

/// A pipeline definition may set `stages:` or `pipeline:`, not both.
pub fn check_pipeline_def(has_pipeline: bool, stage_count: usize) -> (res: Result<(), PipelineError>)
    ensures
        res is Ok <==> !(has_pipeline && stage_count > 0),
        res is Err ==> res matches Err(PipelineError::DefinitionConflict),
{
    if has_pipeline && stage_count > 0 {
        Err(PipelineError::DefinitionConflict)
    } else {
        Ok(())
    }
}

/// The `(name, model override)` pairs preflight checks for a DAG: every leaf stage, then
/// every custom merge role (which runs on its own model), node by node.
pub open spec fn preflight_list(ns: Seq<PipelineNode>) -> Seq<(Seq<char>, Option<Seq<char>>)>
    decreases ns.len(),
{
    if ns.len() == 0 {
        seq![]
    } else {
        preflight_list(ns.drop_last()) + stages_of(ns.last()).map_values(
            |s: RolePipelineStage| (s.role@, opt_view(s.model)),
        ) + mergers_of(ns.last()).map_values(|m: Seq<char>| (m, None::<Seq<char>>))
    }
}

pub open spec fn pair_views(v: Seq<(String, Option<String>)>) -> Seq<(Seq<char>, Option<Seq<char>>)> {
    v.map_values(|p: (String, Option<String>)| (p.0@, opt_view(p.1)))
}

/// Flatten a pipeline DAG into `(role, model override)` pairs for preflight, reaching into
/// parallel branches and switch arms; custom merge roles come without an override.
pub fn collect_preflight_stages(nodes: &[PipelineNode]) -> (res: Vec<(String, Option<String>)>)
    ensures
        pair_views(res@) == preflight_list(nodes@),
{
    let mut out: Vec<(String, Option<String>)> = Vec::new();
    let mut i: usize = 0;
    while i < nodes.len()
        invariant
            i <= nodes@.len(),
            pair_views(out@) == preflight_list(nodes@.take(i as int)),
        decreases nodes.len() - i,
    {
        let stages = nodes[i].all_stages();
        let ghost base = pair_views(out@);
        let mut j: usize = 0;
        while j < stages.len()
            invariant
                j <= stages@.len(),
                pair_views(out@) == base + stages@.take(j as int).map_values(
                    |s: RolePipelineStage| (s.role@, opt_view(s.model)),
                ),
            decreases stages.len() - j,
        {
            let ghost before = out@;
            let model = match &stages[j].model {
                Some(m) => Some(m.clone()),
                None => None,
            };
            out.push((stages[j].role.clone(), model));
            assert(pair_views(out@) =~= pair_views(before) + seq![
                (stages@[j as int].role@, opt_view(stages@[j as int].model)),
            ]);
            assert(stages@.take(j + 1).map_values(
                |s: RolePipelineStage| (s.role@, opt_view(s.model)),
            ) =~= stages@.take(j as int).map_values(
                |s: RolePipelineStage| (s.role@, opt_view(s.model)),
            ) + seq![(stages@[j as int].role@, opt_view(stages@[j as int].model))]);
            j += 1;
        }
        assert(stages@.take(j as int) =~= stages@);
        let mergers = nodes[i].merge_role_names();
        let ghost mid = pair_views(out@);
        let mut k: usize = 0;
        while k < mergers.len()
            invariant
                k <= mergers@.len(),
                pair_views(out@) == mid + views(mergers@).take(k as int).map_values(
                    |m: Seq<char>| (m, None::<Seq<char>>),
                ),
            decreases mergers.len() - k,
        {
            let ghost before = out@;
            out.push((mergers[k].clone(), None));
            assert(pair_views(out@) =~= pair_views(before) + seq![
                (mergers@[k as int]@, None::<Seq<char>>),
            ]);
            assert(views(mergers@).take(k + 1).map_values(|m: Seq<char>| (m, None::<Seq<char>>))
                =~= views(mergers@).take(k as int).map_values(
                |m: Seq<char>| (m, None::<Seq<char>>),
            ) + seq![(mergers@[k as int]@, None::<Seq<char>>)]);
            k += 1;
        }
        assert(views(mergers@).take(k as int) =~= views(mergers@));
        assert(nodes@.take(i + 1).drop_last() =~= nodes@.take(i as int));
        assert(nodes@.take(i + 1).last() == nodes@[i as int]);
        i += 1;
    }
    assert(nodes@.take(i as int) =~= nodes@);
    out
}

proof fn lemma_preflight_single(n: PipelineNode, x: (Seq<char>, Option<Seq<char>>))
    ensures
        preflight_list(seq![n]).contains(x) <==> ((exists|k: int|
            0 <= k < stages_of(n).len() && x == ((#[trigger] stages_of(n)[k]).role@, opt_view(
                stages_of(n)[k].model,
            ))) || (mergers_of(n).contains(x.0) && x.1 is None)),
{
    let one = seq![n];
    assert(one.drop_last() =~= Seq::<PipelineNode>::empty());
    assert(one.last() == n);
    let a = stages_of(n).map_values(|s: RolePipelineStage| (s.role@, opt_view(s.model)));
    let m = mergers_of(n).map_values(|m: Seq<char>| (m, None::<Seq<char>>));
    let r = preflight_list(one);
    assert(preflight_list(one.drop_last()) =~= Seq::<(Seq<char>, Option<Seq<char>>)>::empty());
    assert(r =~= preflight_list(one.drop_last()) + a + m);
    assert(r =~= a + m);
    if r.contains(x) {
        let i = choose|i: int| 0 <= i < r.len() && r[i] == x;
        if i < a.len() {
            assert(a[i] == x);
        } else {
            assert(m[i - a.len()] == x);
            assert(mergers_of(n)[i - a.len()] == x.0);
        }
    }
    if exists|k: int|
        0 <= k < stages_of(n).len() && x == ((#[trigger] stages_of(n)[k]).role@, opt_view(
            stages_of(n)[k].model,
        )) {
        let k = choose|k: int|
            0 <= k < stages_of(n).len() && x == ((#[trigger] stages_of(n)[k]).role@, opt_view(
                stages_of(n)[k].model,
            ));
        assert(r[k] == x);
    } else if mergers_of(n).contains(x.0) && x.1 is None {
        let k = choose|k: int| 0 <= k < mergers_of(n).len() && mergers_of(n)[k] == x.0;
        assert(r[a.len() + k] == x);
    }
}

proof fn lemma_preflight_nodes_contains(
    ns: Seq<PipelineNode>,
    i: int,
    x: (Seq<char>, Option<Seq<char>>),
)
    requires
        0 <= i < ns.len(),
        preflight_list(seq![ns[i]]).contains(x),
    ensures
        preflight_list(ns).contains(x),
    decreases ns.len(),
{
    let d = ns.drop_last();
    let a = stages_of(ns.last()).map_values(|s: RolePipelineStage| (s.role@, opt_view(s.model)));
    let m = mergers_of(ns.last()).map_values(|m: Seq<char>| (m, None::<Seq<char>>));
    let base = preflight_list(d);
    assert(preflight_list(ns) == base + a + m);
    if i == ns.len() - 1 {
        lemma_preflight_single(ns[i], x);
        if exists|k: int|
            0 <= k < stages_of(ns[i]).len() && x == ((#[trigger] stages_of(ns[i])[k]).role@,
                opt_view(stages_of(ns[i])[k].model)) {
            let k = choose|k: int|
                0 <= k < stages_of(ns[i]).len() && x == ((#[trigger] stages_of(ns[i])[k]).role@,
                    opt_view(stages_of(ns[i])[k].model));
            assert((base + a + m)[base.len() + k] == x);
        } else {
            let k = choose|k: int| 0 <= k < mergers_of(ns[i]).len() && mergers_of(ns[i])[k] == x.0;
            assert((base + a + m)[base.len() + a.len() + k] == x);
        }
    } else {
        assert(d[i] == ns[i]);
        lemma_preflight_nodes_contains(d, i, x);
        let k = choose|k: int| 0 <= k < base.len() && base[k] == x;
        assert((base + a + m)[k] == x);
    }
}

/// Law: preflight checks every leaf stage of the DAG, at any depth, with its own model
/// override, and every custom merge role with none: a stage gives its own `(role, model)`;
/// a parallel node or switch gives everything its branches or arms give, and its merge
/// role `(role, None)`; a list of nodes gives everything each of its nodes gives.
pub proof fn lemma_preflight_list_law(
    ns: Seq<PipelineNode>,
    n: PipelineNode,
    c: PipelineNode,
    x: (Seq<char>, Option<Seq<char>>),
)
    ensures
        n matches PipelineNode::Stage(s) ==> preflight_list(seq![n]) == seq![
            (s.role@, opt_view(s.model)),
        ],
        is_child(n, c) && preflight_list(seq![c]).contains(x) ==> preflight_list(seq![n]).contains(x),
        (n matches PipelineNode::Parallel(p) && p.merge matches MergeStrategy::CustomRole(r))
            ==> preflight_list(seq![n]).contains((n->Parallel_0.merge->CustomRole_0@, None::<Seq<char>>)),
        ns.contains(n) && preflight_list(seq![n]).contains(x) ==> preflight_list(ns).contains(x),
{
    lemma_preflight_single(n, x);
    lemma_preflight_single(c, x);
    if let PipelineNode::Stage(s) = n {
        let one = seq![n];
        assert(one.drop_last() =~= Seq::<PipelineNode>::empty());
        assert(mergers_of(n) =~= Seq::<Seq<char>>::empty());
        assert(stages_of(n) =~= seq![s]);
        assert(preflight_list(one.drop_last()) =~= Seq::<(Seq<char>, Option<Seq<char>>)>::empty());
        assert(preflight_list(one) =~= seq![(s.role@, opt_view(s.model))]);
    }
    if is_child(n, c) && preflight_list(seq![c]).contains(x) {
        if exists|k: int|
            0 <= k < stages_of(c).len() && x == ((#[trigger] stages_of(c)[k]).role@, opt_view(
                stages_of(c)[k].model,
            )) {
            let k = choose|k: int|
                0 <= k < stages_of(c).len() && x == ((#[trigger] stages_of(c)[k]).role@, opt_view(
                    stages_of(c)[k].model,
                ));
            let st = stages_of(c)[k];
            assert(stages_of(c).contains(st));
            lemma_child_parts(n, c, st, x.0);
            let i = choose|i: int| 0 <= i < stages_of(n).len() && stages_of(n)[i] == st;
            assert(x == (stages_of(n)[i].role@, opt_view(stages_of(n)[i].model)));
        } else {
            let any: RolePipelineStage = vstd::pervasive::arbitrary();
            lemma_child_parts(n, c, any, x.0);
        }
    }
    if let PipelineNode::Parallel(p) = n {
        if let MergeStrategy::CustomRole(r) = p.merge {
            lemma_preflight_single(n, (r@, None::<Seq<char>>));
            let a = mergers_of_nodes(p.branches@);
            assert((a + seq![r@])[a.len() as int] == r@);
            assert(mergers_of(n).contains(r@));
        }
    }
    if ns.contains(n) && preflight_list(seq![n]).contains(x) {
        let i = choose|i: int| 0 <= i < ns.len() && ns[i] == n;
        lemma_preflight_nodes_contains(ns, i, x);
    }
}

// ----- Retries and fallback models of one stage -----

/// Where a stage stands in its chain of models and retries.
#[derive(Debug)]
pub struct StageAttempts {
    /// The models to try in order: the stage's own override (`None`: the role's model),
    /// then each fallback model of the role.
    pub candidates: Vec<Option<String>>,
    /// The candidate being tried.
    pub model_index: usize,
    /// Retries spent on that candidate.
    pub attempt: usize,
    /// Retries allowed per candidate.
    pub max_stage_retries: usize,
}

/// What to do after an attempt failed.
#[derive(PartialEq, Eq, Structural, Debug, Clone, Copy)]
pub enum NextStep {
    /// Try the same model again.
    Retry,
    /// Move on to the next model of the chain.
    FallBack,
    /// Give up: report the failure.
    Fail,
}

impl StageAttempts {
    pub open spec fn wf(self) -> bool {
        &&& self.model_index < self.candidates@.len()
        &&& self.attempt <= self.max_stage_retries
    }

    /// The attempts left after the current one, if every one fails with a retryable error.
    pub open spec fn remaining(self) -> int {
        (self.candidates@.len() - 1 - self.model_index) * (self.max_stage_retries + 1) + (
        self.max_stage_retries - self.attempt)
    }

    /// The first attempt of a stage: its model override first, then the role's fallback
    /// models; as many retries per model as the role allows (one when it says nothing or
    /// could not be loaded).
    pub fn new(primary: &Option<String>, role: Option<&Role>) -> (res: StageAttempts)
        requires
            role matches Some(r) ==> r.fallback_models@.len() < usize::MAX,
        ensures
            res.wf(),
            res.model_index == 0,
            res.attempt == 0,
            res.max_stage_retries == match role {
                Some(r) => match r.stage_retries {
                    Some(n) => n,
                    None => 1,
                },
                None => 1,
            },
            res.candidates@.len() >= 1,
            res.candidates@.map_values(|c: Option<String>| opt_view(c)) == seq![opt_view(*primary)]
                + match role {
                Some(r) => r.fallback_models@.map_values(|f: String| Some(f@)),
                None => Seq::<Option<Seq<char>>>::empty(),
            },
    {
        let first = match primary {
            Some(m) => Some(m.clone()),
            None => None,
        };
        let mut candidates: Vec<Option<String>> = Vec::new();
        candidates.push(first);
        let max_stage_retries = match role {
            Some(r) => match r.stage_retries {
                Some(n) => n,
                None => 1,
            },
            None => 1,
        };
        match role {
            Some(r) => {
                let ghost head = seq![opt_view(*primary)];
                let mut i: usize = 0;
                while i < r.fallback_models.len()
                    invariant
                        i <= r.fallback_models@.len(),
                        candidates@.len() == i + 1,
                        candidates@.map_values(|c: Option<String>| opt_view(c)) == head
                            + r.fallback_models@.take(i as int).map_values(|f: String| Some(f@)),
                    decreases r.fallback_models.len() - i,
                {
                    let ghost before = candidates@;
                    candidates.push(Some(r.fallback_models[i].clone()));
                    assert(candidates@.map_values(|c: Option<String>| opt_view(c)) =~= before.map_values(
                        |c: Option<String>| opt_view(c),
                    ).push(Some(r.fallback_models@[i as int]@)));
                    assert(r.fallback_models@.take(i + 1).map_values(|f: String| Some(f@))
                        =~= r.fallback_models@.take(i as int).map_values(|f: String| Some(f@)).push(
                        Some(r.fallback_models@[i as int]@),
                    ));
                    i += 1;
                }
                assert(r.fallback_models@.take(i as int) =~= r.fallback_models@);
            },
            None => {
                assert(candidates@.map_values(|c: Option<String>| opt_view(c)) =~= seq![
                    opt_view(*primary),
                ] + Seq::<Option<Seq<char>>>::empty());
            },
        }
        StageAttempts { candidates, model_index: 0, attempt: 0, max_stage_retries }
    }

    /// The model override of the current attempt (`None`: the role's own model).
    pub fn model_override(&self) -> (res: Option<String>)
        requires
            self.wf(),
        ensures
            opt_view(res) == opt_view(self.candidates@[self.model_index as int]),
    {
        match &self.candidates[self.model_index] {
            Some(m) => Some(m.clone()),
            None => None,
        }
    }

    /// Decide after a failed attempt: retry the same model while retries are left and the
    /// error is retryable; else fall back to the next model if the error is retryable and
    /// one is left; else fail.
    pub fn after_failure(&mut self, retryable: bool) -> (res: NextStep)
        requires
            old(self).wf(),
        ensures
            final(self).wf(),
            final(self).candidates == old(self).candidates,
            final(self).max_stage_retries == old(self).max_stage_retries,
            retryable && old(self).attempt < old(self).max_stage_retries ==> res == NextStep::Retry
                && final(self).model_index == old(self).model_index
                && final(self).attempt == old(self).attempt + 1,
            retryable && old(self).attempt >= old(self).max_stage_retries
                && old(self).model_index + 1 < old(self).candidates@.len()
                ==> res == NextStep::FallBack && final(self).model_index == old(self).model_index + 1
                && final(self).attempt == 0,
            !retryable || (old(self).attempt >= old(self).max_stage_retries
                && old(self).model_index + 1 >= old(self).candidates@.len())
                ==> res == NextStep::Fail && *final(self) == *old(self),
            res != NextStep::Fail ==> 0 <= final(self).remaining() < old(self).remaining(),
    {
        if retryable && self.attempt < self.max_stage_retries {
            self.attempt = self.attempt + 1;
            proof {
                assert(self.remaining() == old(self).remaining() - 1);
                lemma_remaining_nonneg(*self);
            }
            NextStep::Retry
        } else if retryable && self.model_index < self.candidates.len() - 1 {
            proof {
                let n = old(self).candidates@.len() - 1 - old(self).model_index;
                let m = self.max_stage_retries + 1;
                assert((n - 1) * m == n * m - m) by (nonlinear_arith);
            }
            self.model_index = self.model_index + 1;
            self.attempt = 0;
            proof {
                lemma_remaining_nonneg(*self);
            }
            NextStep::FallBack
        } else {
            NextStep::Fail
        }
    }
}

proof fn lemma_remaining_nonneg(s: StageAttempts)
    requires
        s.wf(),
    ensures
        s.remaining() >= 0,
{
    let n = s.candidates@.len() - 1 - s.model_index;
    let m = s.max_stage_retries + 1;
    assert(n * m >= 0) by (nonlinear_arith)
        requires
            n >= 0,
            m >= 1,
    ;
}

/// Law: a stage makes at most `(retries + 1) × (number of models)` attempts, whatever
/// fails: the attempts left after the first one are one fewer than that.
pub proof fn lemma_stage_attempt_budget(s: StageAttempts)
    requires
        s.wf(),
        s.model_index == 0,
        s.attempt == 0,
    ensures
        s.remaining() + 1 == s.candidates@.len() * (s.max_stage_retries + 1),
{
    let n = s.candidates@.len();
    let m = s.max_stage_retries + 1;
    assert((n - 1) * m + (m - 1) + 1 == n * m) by (nonlinear_arith);
}

// ----- What a stage needs -----

/// The per-stage decisions that depend on the role and the flags only.
#[derive(Debug)]
pub struct StagePlan {
    /// The role hands tools to the model.
    pub has_tools: bool,
    /// The stage output may come from, and goes to, the stage cache.
    pub cache_enabled: bool,
    /// How many times an output failing its schema is regenerated.
    pub max_schema_retries: usize,
}

/// Plan a stage: tool-using stages never use the cache (their side effects must not be
/// replayed), nor does `--no-cache` or a dry run; an output schema that the model does not
/// enforce natively gets the role's schema retries (one by default), else none.
pub fn plan_stage(role: &Role, no_cache: bool, dry_run: bool) -> (res: StagePlan)
    ensures
        res.has_tools == role.use_tools is Some,
        res.cache_enabled == (!no_cache && !dry_run && role.use_tools is None),
        res.max_schema_retries == if role.has_output_schema
            && !role.model.data.supports_response_format_json_schema {
            match role.schema_retries {
                Some(n) => n,
                None => 1,
            }
        } else {
            0
        },
{
    let has_tools = role.use_tools.is_some();
    let cache_enabled = !no_cache && !dry_run && !has_tools;
    let native_structured = role.has_output_schema
        && role.model.data.supports_response_format_json_schema;
    let max_schema_retries = if role.has_output_schema && !native_structured {
        match role.schema_retries {
            Some(n) => n,
            None => 1,
        }
    } else {
        0
    };
    StagePlan { has_tools, cache_enabled, max_schema_retries }
}

/// What a stage resolves to: a role of the configuration, or an agent to load.
#[derive(Debug)]
pub enum StageEntity<'a> {
    Role(&'a Role),
    Agent(String),
}

/// Resolve the stage name `raw_name`: a role is loaded, an agent is named for loading,
/// a macro is refused.
pub fn resolve_stage_entity<'a>(config: &'a Config, raw_name: &str) -> (res: Result<
    StageEntity<'a>,
    PipelineError,
>)
    ensures
        match entity_kind(*config, raw_name@) {
            None => res matches Err(PipelineError::StageResolve { name, cause }) && name@
                == raw_name@ && (*cause matches PipelineError::UnknownEntity { name: n } && n@
                == raw_name@),
            Some(EntityKind::Macro) => res matches Err(PipelineError::MacroStage { name }) && name@
                == raw_name@,
            Some(EntityKind::Agent) => res matches Ok(StageEntity::Agent(n)) && n@ == raw_name@,
            Some(EntityKind::Role) => res matches Ok(StageEntity::Role(r)) && role_named(
                *config,
                raw_name@,
            ) == Some(*r),
        },
{
    let entity = match config.classify_entity(raw_name) {
        Ok(e) => e,
        Err(e) => {
            return Err(
                PipelineError::StageResolve { name: raw_name.to_owned(), cause: Box::new(e) },
            );
        },
    };
    match pipeline_stage_admissible(&entity) {
        Ok(()) => {},
        Err(e) => {
            return Err(e);
        },
    }
    match entity {
        EntityRef::Role(name) => match config.retrieve_role(name.as_str()) {
            Ok(r) => Ok(StageEntity::Role(r)),
            Err(e) => Err(PipelineError::StageRoleLoadFailed { name, cause: Box::new(e) }),
        },
        EntityRef::Agent(name) => Ok(StageEntity::Agent(name)),
        EntityRef::Macro(name) => Err(PipelineError::MacroStage { name }),
    }
}

/// Before a pipeline role runs: it has stages, and its DAG passes the structural checks.
pub fn check_pipeline_role(nodes: &[PipelineNode]) -> (res: Result<(), PipelineError>)
    ensures
        nodes@.len() == 0 ==> res matches Err(PipelineError::EmptyPipelineRole),
        nodes@.len() > 0 ==> match dag_structure_error(nodes@) {
            None => res is Ok,
            Some(e) => res matches Err(PipelineError::DagInvalid { cause }) && *cause == e,
        },
{
    if nodes.len() == 0 {
        return Err(PipelineError::EmptyPipelineRole);
    }
    match validate_pipeline_dag_structure(nodes) {
        Ok(()) => Ok(()),
        Err(e) => Err(PipelineError::DagInvalid { cause: Box::new(e) }),
    }
}

// ----- Parallel merges -----

/// The separator between branch outputs when they are concatenated.
pub open spec fn branch_separator() -> Seq<char> {
    seq!['\n', '-', '-', '-', '\n']
}

/// One branch output as an element of a JSON array: its own JSON value when it is JSON,
/// else a JSON string.
pub open spec fn json_element(s: Seq<char>) -> Seq<char> {
    match json_reencoded(s) {
        Some(t) => t,
        None => json_quoted(s),
    }
}

/// The JSON array of the branch outputs, as serde_json writes it compactly: `[`, the
/// elements separated by `,`, `]`.
pub open spec fn json_array_text(outputs: Seq<Seq<char>>) -> Seq<char> {
    seq!['['] + join_with(outputs.map_values(|o: Seq<char>| json_element(o)), seq![',']) + seq![
        ']',
    ]
}

/// The JSON array whose elements, in order, are `elems`: `[`, the elements separated by
/// `,`, `]` (what serde_json's compact writer produces).
pub open spec fn bracketed(elems: Seq<Seq<char>>) -> Seq<char> {
    seq!['['] + join_with(elems, seq![',']) + seq![']']
}

/// `elems` are the array elements for `outputs`: an output that parses as JSON (of any
/// kind: object, array, number, boolean, null or string) keeps its re-encoded JSON; only an
/// output that does not parse becomes a JSON string.
pub open spec fn json_elements_of(outputs: Seq<Seq<char>>, elems: Seq<Seq<char>>) -> bool {
    &&& elems.len() == outputs.len()
    &&& forall|k: int|
        0 <= k < outputs.len() ==> match json_reencoded(#[trigger] outputs[k]) {
            Some(j) => elems[k] == j,
            None => elems[k] == json_quoted(outputs[k]),
        }
}

/// Law: the JSON-array merge of `outputs` is the bracketed array of exactly the elements
/// that `json_elements_of` describes: one per output, in order, native JSON kept.
pub proof fn lemma_json_array_law(outputs: Seq<Seq<char>>)
    ensures
        exists|elems: Seq<Seq<char>>|
            json_elements_of(outputs, elems) && #[trigger] bracketed(elems) == json_array_text(outputs),
        forall|elems: Seq<Seq<char>>|
            #![trigger json_elements_of(outputs, elems)]
            json_elements_of(outputs, elems) ==> elems == outputs.map_values(
                |o: Seq<char>| json_element(o),
            ),
{
    let elems = outputs.map_values(|o: Seq<char>| json_element(o));
    assert(json_elements_of(outputs, elems));
    assert(bracketed(elems) == json_array_text(outputs));
    assert forall|e2: Seq<Seq<char>>|
        #![trigger json_elements_of(outputs, e2)]
        json_elements_of(outputs, e2) implies e2 == elems by {
        assert forall|k: int| 0 <= k < e2.len() implies e2[k] == elems[k] by {
            assert(json_reencoded(outputs[k]) == json_reencoded(outputs[k]));
        }
        assert(e2 =~= elems);
    }
}

/// What a `parallel:` node yields once its branches are done.
#[derive(Debug)]
pub enum MergeOutcome {
    /// The merged text.
    Text(String),
    /// Run the merge role on this input (the branch outputs concatenated).
    RunMerger { role: String, input: String },
}

fn json_array(outputs: &Vec<String>) -> (res: String)
    ensures
        res@ == json_array_text(views(outputs@)),
{
    let mut elements: Vec<String> = Vec::new();
    let mut i: usize = 0;
    while i < outputs.len()
        invariant
            i <= outputs@.len(),
            elements@.len() == i,
            forall|k: int| 0 <= k < i ==> #[trigger] elements@[k]@ == json_element(outputs@[k]@),
        decreases outputs.len() - i,
    {
        let e = match json_reencode(outputs[i].as_str()) {
            Some(t) => t,
            None => json_string_literal(outputs[i].as_str()),
        };
        elements.push(e);
        i += 1;
    }
    assert(views(elements@) =~= views(outputs@).map_values(
        |o: Seq<char>| json_element(o),
    ));
    let mut out = String::new();
    out.append("[");
    let body = join_strings(&elements, ",");
    out.append(body.as_str());
    out.append("]");
    proof {
        reveal_strlit("[");
        reveal_strlit(",");
        reveal_strlit("]");
        assert(","@ =~= seq![',']);
        assert(out@ =~= seq!['['] + body@ + seq![']']);
    }
    out
}

/// Merge the outputs of a `parallel:` node's branches: concatenated with `\n---\n`
/// between them, as a JSON array, or handed (concatenated) to a custom merge role.
pub fn merge_branch_outputs(merge: &MergeStrategy, outputs: &Vec<String>) -> (res: MergeOutcome)
    ensures
        match *merge {
            MergeStrategy::Concatenate => res matches MergeOutcome::Text(t) && t@ == join_with(
                views(outputs@),
                branch_separator(),
            ),
            MergeStrategy::JsonArray => res matches MergeOutcome::Text(t) && t@ == json_array_text(
                views(outputs@),
            ) && exists|elems: Seq<Seq<char>>|
                json_elements_of(views(outputs@), elems) && #[trigger] bracketed(elems) == t@,
            MergeStrategy::CustomRole(r) => res matches MergeOutcome::RunMerger { role, input }
                && role@ == r@ && input@ == join_with(views(outputs@), branch_separator()),
        },
{
    proof {
        reveal_strlit("\n---\n");
        assert("\n---\n"@ =~= branch_separator());
    }
    proof {
        lemma_json_array_law(views(outputs@));
    }
    match merge {
        MergeStrategy::Concatenate => MergeOutcome::Text(join_strings(outputs, "\n---\n")),
        MergeStrategy::JsonArray => MergeOutcome::Text(json_array(outputs)),
        MergeStrategy::CustomRole(r) => MergeOutcome::RunMerger {
            role: r.clone(),
            input: join_strings(outputs, "\n---\n"),
        },
    }
}

/// The branch label stamped on the traces of branch `index` (0-based) of a fan-out: the
/// outermost fan-out's label is kept for nested fan-outs, else the 1-based branch number.
pub fn branch_stamp(branch_label: Option<usize>, index: usize) -> (res: Option<usize>)
    requires
        index < usize::MAX,
    ensures
        res == match branch_label {
            Some(outer) => Some(outer),
            None => Some((index + 1) as usize),
        },
{
    match branch_label {
        Some(outer) => Some(outer),
        None => Some(index + 1),
    }
}

// ----- Switch routing -----

/// Whether a `when:` predicate matches the input.
pub open spec fn predicate_matches(p: Predicate, input: Seq<char>) -> bool {
    match p {
        Predicate::Contains(x) => contains_seq(input, x@),
    }
}

impl Predicate {
    pub fn evaluate(&self, input: &str) -> (res: bool)
        ensures
            res == predicate_matches(*self, input@),
    {
        match self {
            Predicate::Contains(x) => {
                let hay = char_vec(input);
                let needle = char_vec(x.as_str());
                contains_chars(&hay, &needle)
            },
        }
    }
}

/// Arm `i` is a `when:` arm that matches.
pub open spec fn arm_matches(s: SwitchNode, input: Seq<char>, i: int) -> bool {
    s.branches@[i].predicate matches Some(p) && predicate_matches(p, input)
}

/// Pick the arm of a switch that runs on `input`: the first `when:` arm that matches,
/// wherever the `otherwise:` arm stands; else the first `otherwise:` arm; else none.
pub fn select_switch_branch(s: &SwitchNode, input: &str) -> (res: Result<usize, PipelineError>)
    ensures
        match res {
            Ok(i) => i < s.branches@.len() && ((arm_matches(*s, input@, i as int) && forall|j: int|
                0 <= j < i ==> !#[trigger] arm_matches(*s, input@, j)) || ((forall|j: int|
                0 <= j < s.branches@.len() ==> !#[trigger] arm_matches(*s, input@, j))
                && s.branches@[i as int].predicate is None && forall|j: int|
                0 <= j < i ==> (#[trigger] s.branches@[j]).predicate is Some)),
            Err(e) => e matches PipelineError::NoSwitchBranch && (forall|j: int|
                0 <= j < s.branches@.len() ==> !#[trigger] arm_matches(*s, input@, j)) && forall|
                j: int,
            |
                0 <= j < s.branches@.len() ==> (#[trigger] s.branches@[j]).predicate is Some,
        },
{
    let mut i: usize = 0;
    while i < s.branches.len()
        invariant
            i <= s.branches@.len(),
            forall|j: int| 0 <= j < i ==> !#[trigger] arm_matches(*s, input@, j),
        decreases s.branches.len() - i,
    {
        match &s.branches[i].predicate {
            Some(p) => {
                if p.evaluate(input) {
                    return Ok(i);
                }
            },
            None => {},
        }
        i += 1;
    }
    let mut k: usize = 0;
    while k < s.branches.len()
        invariant
            k <= s.branches@.len(),
            forall|j: int| 0 <= j < s.branches@.len() ==> !#[trigger] arm_matches(*s, input@, j),
            forall|j: int| 0 <= j < k ==> (#[trigger] s.branches@[j]).predicate is Some,
        decreases s.branches.len() - k,
    {
        if s.branches[k].predicate.is_none() {
            return Ok(k);
        }
        k += 1;
    }
    Err(PipelineError::NoSwitchBranch)
}

} // verus!
