//! The parts of the configuration that preflight reads: models, roles, agents, macros.
use vstd::prelude::*;
use vstd::string::StringExecFns;
use crate::error::PipelineError;
use crate::pipeline::PipelineNode;

verus! {

/// What a model can do.
#[derive(Debug)]
pub struct ModelData {
    pub supports_function_calling: bool,
    pub supports_vision: bool,
    pub supports_response_format_json_schema: bool,
}

/// A chat model of a client; its id is `client:name`.
#[derive(Debug)]
pub struct Model {
    pub client_name: String,
    pub name: String,
    pub data: ModelData,
}

/// A tool a role may hand to the model.
#[derive(Debug)]
pub struct FunctionDeclaration {
    pub name: String,
    pub description: String,
}

/// A role: a named prompt bound to a model, possibly a pipeline of its own.
#[derive(Debug)]
pub struct Role {
    pub name: String,
    pub model: Model,
    pub use_tools: Option<String>,
    pub pipeline: Option<Vec<PipelineNode>>,
    pub stage_retries: Option<usize>,
    pub fallback_models: Vec<String>,
    pub schema_retries: Option<usize>,
    pub has_output_schema: bool,
}

/// The configuration: the roles, agents, macros and chat models that exist.
#[derive(Debug)]
pub struct Config {
    pub roles: Vec<Role>,
    pub agents: Vec<String>,
    pub macros: Vec<String>,
    pub models: Vec<Model>,
}

/// What a name given on the command line or in a stage resolves to.
#[derive(Debug)]
pub enum EntityRef {
    Role(String),
    Agent(String),
    Macro(String),
}

/// The kind of an entity, as contracts speak of it.
#[derive(Debug)]
pub enum EntityKind {
    Role,
    Agent,
    Macro,
}

pub open spec fn model_id(m: Model) -> Seq<char> {
    m.client_name@ + seq![':'] + m.name@
}

impl Model {
    /// A model of client `client_name` with no capability set.
    pub fn new(client_name: &str, name: &str) -> (res: Model)
        ensures
            res.client_name@ == client_name@,
            res.name@ == name@,
            !res.data.supports_function_calling,
            !res.data.supports_vision,
            !res.data.supports_response_format_json_schema,
    {
        Model {
            client_name: client_name.to_owned(),
            name: name.to_owned(),
            data: ModelData {
                supports_function_calling: false,
                supports_vision: false,
                supports_response_format_json_schema: false,
            },
        }
    }

    /// `client:name`.
    pub fn id(&self) -> (res: String)
        ensures
            res@ == model_id(*self),
    {
        let mut s = self.client_name.clone();
        s.append(":");
        s.append(self.name.as_str());
        proof {
            reveal_strlit(":");
        }
        s
    }

    pub fn data(&self) -> (res: &ModelData)
        ensures
            *res == self.data,
    {
        &self.data
    }

    pub fn data_mut(&mut self) -> (res: &mut ModelData)
        ensures
            *res == old(self).data,
            final(self).client_name == old(self).client_name,
            final(self).name == old(self).name,
            final(self).data == *final(res),
    {
        &mut self.data
    }
}

impl Role {
    pub fn name(&self) -> (res: &String)
        ensures
            *res == self.name,
    {
        &self.name
    }

    pub fn model(&self) -> (res: &Model)
        ensures
            *res == self.model,
    {
        &self.model
    }

    pub fn use_tools(&self) -> (res: &Option<String>)
        ensures
            *res == self.use_tools,
    {
        &self.use_tools
    }

    /// Whether the role runs a pipeline instead of a prompt.
    pub fn is_pipeline(&self) -> (res: bool)
        ensures
            res == self.pipeline is Some,
    {
        self.pipeline.is_some()
    }

    pub fn pipeline(&self) -> (res: Option<&Vec<PipelineNode>>)
        ensures
            res is Some <==> self.pipeline is Some,
            res is Some ==> *res->0 == self.pipeline->0,
    {
        match &self.pipeline {
            Some(p) => Some(p),
            None => None,
        }
    }
}

impl Default for Role {
    fn default() -> (res: Role)
        ensures
            res.name@ == Seq::<char>::empty(),
            res.use_tools is None,
            res.pipeline is None,
            res.stage_retries is None,
            res.fallback_models@.len() == 0,
            res.schema_retries is None,
            !res.has_output_schema,
            res.model.client_name@ == Seq::<char>::empty(),
            res.model.name@ == Seq::<char>::empty(),
            !res.model.data.supports_function_calling,
            !res.model.data.supports_vision,
            !res.model.data.supports_response_format_json_schema,
    {
        proof {
            reveal_strlit("");
        }
        Role {
            name: String::new(),
            model: Model::new("", ""),
            use_tools: None,
            pipeline: None,
            stage_retries: None,
            fallback_models: Vec::new(),
            schema_retries: None,
            has_output_schema: false,
        }
    }
}

/// `i` is the first role named `name`.
pub open spec fn is_first_role(roles: Seq<Role>, name: Seq<char>, i: int) -> bool {
    &&& 0 <= i < roles.len()
    &&& roles[i].name@ == name
    &&& forall|j: int| 0 <= j < i ==> roles[j].name@ != name
}

pub open spec fn has_role(c: Config, name: Seq<char>) -> bool {
    exists|i: int| 0 <= i < c.roles@.len() && c.roles@[i].name@ == name
}

/// The first role named `name`, when there is one.
pub open spec fn role_named(c: Config, name: Seq<char>) -> Option<Role> {
    if has_role(c, name) {
        Some(c.roles@[choose|i: int| is_first_role(c.roles@, name, i)])
    } else {
        None
    }
}

/// A name resolves to a role first, then an agent, then a macro.
pub open spec fn entity_kind(c: Config, name: Seq<char>) -> Option<EntityKind> {
    if has_role(c, name) {
        Some(EntityKind::Role)
    } else if views_contain(c.agents@, name) {
        Some(EntityKind::Agent)
    } else if views_contain(c.macros@, name) {
        Some(EntityKind::Macro)
    } else {
        None
    }
}

pub open spec fn views_contain(v: Seq<String>, name: Seq<char>) -> bool {
    exists|i: int| 0 <= i < v.len() && v[i]@ == name
}

pub open spec fn entity_has_kind(e: EntityRef, k: EntityKind, name: Seq<char>) -> bool {
    match e {
        EntityRef::Role(n) => k == EntityKind::Role && n@ == name,
        EntityRef::Agent(n) => k == EntityKind::Agent && n@ == name,
        EntityRef::Macro(n) => k == EntityKind::Macro && n@ == name,
    }
}

/// The first listed model whose id is `id`, when there is one.
pub open spec fn is_first_model(models: Seq<Model>, id: Seq<char>, i: int) -> bool {
    &&& 0 <= i < models.len()
    &&& model_id(models[i]) == id
    &&& forall|j: int| 0 <= j < i ==> model_id(models[j]) != id
}

pub open spec fn has_model(c: Config, id: Seq<char>) -> bool {
    exists|i: int| 0 <= i < c.models@.len() && model_id(c.models@[i]) == id
}

proof fn lemma_first_role_unique(roles: Seq<Role>, name: Seq<char>, i: int, j: int)
    requires
        is_first_role(roles, name, i),
        is_first_role(roles, name, j),
    ensures
        i == j,
{
}

fn contains_name(v: &Vec<String>, name: &String) -> (res: bool)
    ensures
        res == views_contain(v@, name@),
{
    let mut i: usize = 0;
    while i < v.len()
        invariant
            i <= v.len(),
            forall|j: int| 0 <= j < i ==> v@[j]@ != name@,
        decreases v.len() - i,
    {
        if v[i] == *name {
            return true;
        }
        i += 1;
    }
    false
}

impl Config {
    /// The index of the first role named `name`.
    fn find_role(&self, name: &String) -> (res: Option<usize>)
        ensures
            match res {
                Some(i) => is_first_role(self.roles@, name@, i as int),
                None => !has_role(*self, name@),
            },
    {
        let mut i: usize = 0;
        while i < self.roles.len()
            invariant
                i <= self.roles.len(),
                forall|j: int| 0 <= j < i ==> self.roles@[j].name@ != name@,
            decreases self.roles.len() - i,
        {
            if self.roles[i].name == *name {
                return Some(i);
            }
            i += 1;
        }
        None
    }

    /// Resolve a name: a role first, then an agent, then a macro.
    pub fn classify_entity(&self, name: &str) -> (res: Result<EntityRef, PipelineError>)
        ensures
            match res {
                Ok(e) => entity_kind(*self, name@) matches Some(k) && entity_has_kind(e, k, name@),
                Err(e) => entity_kind(*self, name@) is None && (e matches PipelineError::UnknownEntity {
                    name: n,
                } && n@ == name@),
            },
    {
        let owned = name.to_owned();
        if self.find_role(&owned).is_some() {
            Ok(EntityRef::Role(owned))
        } else if contains_name(&self.agents, &owned) {
            Ok(EntityRef::Agent(owned))
        } else if contains_name(&self.macros, &owned) {
            Ok(EntityRef::Macro(owned))
        } else {
            Err(PipelineError::UnknownEntity { name: owned })
        }
    }

    /// Load the first role named `name`.
    pub fn retrieve_role(&self, name: &str) -> (res: Result<&Role, PipelineError>)
        ensures
            match res {
                Ok(r) => role_named(*self, name@) == Some(*r),
                Err(e) => role_named(*self, name@) is None && (e matches PipelineError::UnknownRole {
                    name: n,
                } && n@ == name@),
            },
    {
        let owned = name.to_owned();
        match self.find_role(&owned) {
            Some(i) => {
                proof {
                    let k = choose|k: int| is_first_role(self.roles@, name@, k);
                    lemma_first_role_unique(self.roles@, name@, i as int, k);
                }
                Ok(&self.roles[i])
            },
            None => Err(PipelineError::UnknownRole { name: owned }),
        }
    }

    /// The first listed chat model whose id is `id`.
    pub fn find_model(&self, id: &String) -> (res: Option<&Model>)
        ensures
            match res {
                Some(m) => exists|i: int| is_first_model(self.models@, id@, i) && self.models@[i] == *m,
                None => !has_model(*self, id@),
            },
    {
        let mut i: usize = 0;
        while i < self.models.len()
            invariant
                i <= self.models.len(),
                forall|j: int| 0 <= j < i ==> model_id(self.models@[j]) != id@,
            decreases self.models.len() - i,
        {
            if self.models[i].id() == *id {
                return Some(&self.models[i]);
            }
            i += 1;
        }
        None
    }
}

/// A macro cannot stand as a pipeline stage; roles and agents can.
pub fn pipeline_stage_admissible(entity: &EntityRef) -> (res: Result<(), PipelineError>)
    ensures
        match res {
            Ok(()) => !(entity is Macro),
            Err(e) => entity matches EntityRef::Macro(n) && (e matches PipelineError::MacroStage {
                name: m,
            } && m@ == n@),
        },
{
    match entity {
        EntityRef::Macro(n) => Err(PipelineError::MacroStage { name: n.clone() }),
        _ => Ok(()),
    }
}

} // verus!
