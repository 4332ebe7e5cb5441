//! The .bit document tree (AST) that the parser builds and the renderer,
//! formatter and indexer read.
use vstd::prelude::*;

verus! {

/// A parsed .bit document.
#[derive(Debug, PartialEq, Default)]
pub struct Document {
    pub nodes: Vec<Node>,
}

/// A parse failure with a stable error code.
#[derive(Debug, Clone, PartialEq)]
pub struct ParseError {
    pub code: String,
    pub kind: String,
    pub message: String,
    pub context: Option<String>,
    pub line: usize,
    pub col: usize,
}

/// One construct of a document.
#[derive(Debug, PartialEq)]
pub enum Node {
    Group(Group),
    Task(Task),
    Prose(Prose),
    Comment(Comment),
    Spawn(Spawn),
    Divider,
    Define(Define),
    Mutate(Mutate),
    Delete(Delete),
    Query(Query),
    Variable(Variable),
    Flow(Flow),
    States(StatesDef),
    Validate(ValidateDef),
    Form(FormDef),
    ModDef(ModDef),
    ModInvoke(ModInvoke),
    Conditional(Conditional),
    Snap(Snap),
    Diff(Diff),
    History(HistoryOp),
    StatusDef(StatusDef),
    Routine(Routine),
    Bold(Bold),
    Remember(Remember),
    Recall(RecallOp),
    EmbedMarker(EmbedMarker),
    Escalate(Escalate),
    GateDef(GateDef),
    CodeBlock(CodeBlock),
    Webhook(Webhook),
    FilesDef(FilesDef),
    PolicyDef(PolicyDef),
    SyncDef(SyncDef),
    Git(GitOp),
    Check(CheckDef),
    EntityDef(EntityDef),
    UseBlock(UseBlock),
    Serve(ServeDef),
    MetricDef(MetricDef),
    LatticeValidates(LatticeValidatesDef),
    LatticeConstraint(LatticeConstraintDef),
    LatticeSchema(LatticeSchemaDef),
    LatticeFrontier(LatticeFrontierDef),
    PressureEffect(PressureEffectDef),
    UnitCell(UnitCellDef),
    Symmetry(SymmetryDef),
    ProjectScope(ProjectScope),
}

/// `# Name :atom {gate}` with nested children.
#[derive(Debug, PartialEq)]
pub struct Group {
    pub depth: u8,
    pub name: String,
    pub atoms: Vec<Atom>,
    pub gates: Vec<Gate>,
    pub children: Vec<Node>,
}

/// `:name` or `:name:value`.
#[derive(Debug, Clone, PartialEq)]
pub struct Atom {
    pub name: String,
    pub value: Option<String>,
}

/// `{name body}`.
#[derive(Debug, Clone, PartialEq)]
pub struct Gate {
    pub name: String,
    pub body: Option<String>,
}

#[derive(Debug, Clone, Copy, PartialEq, Eq)]
pub enum TaskKind {
    Open,
    Required,
    Optional,
    Completed,
}

impl TaskKind {
    /// The variant's name, as `{:?}` writes it.
    pub open spec fn name_spec(self) -> Seq<char> {
        match self {
            TaskKind::Open => "Open"@,
            TaskKind::Required => "Required"@,
            TaskKind::Optional => "Optional"@,
            TaskKind::Completed => "Completed"@,
        }
    }

    pub fn name(&self) -> (r: &'static str)
        ensures
            r@ == self.name_spec(),
    {
        match self {
            TaskKind::Open => "Open",
            TaskKind::Required => "Required",
            TaskKind::Optional => "Optional",
            TaskKind::Completed => "Completed",
        }
    }
}

#[derive(Debug, Clone, Copy, PartialEq, Eq)]
pub enum Priority {
    Unset,
    Required,
    Optional,
    Decision,
}

#[derive(Debug, Clone, Copy, PartialEq, Eq)]
pub enum TaskPrefix {
    Unset,
    Parallel,
    ParallelSubtask,
    Subtask(u8),
}

/// The bracket marker of a task: `[!]`, `[o]`, `[x]`, `[2!]`, `+[!]`.
#[derive(Debug, Clone, Copy, PartialEq, Eq)]
pub struct TaskMarker {
    pub kind: TaskKind,
    pub priority: Priority,
    pub prefix: TaskPrefix,
    pub seq: Option<u32>,
}

/// One arm of a task's `match:` section.
#[derive(Debug, PartialEq)]
pub struct MatchArm {
    pub pattern: String,
    pub children: Vec<Node>,
}

#[derive(Debug, PartialEq)]
pub struct Task {
    pub marker: TaskMarker,
    pub label: Option<String>,
    pub text: String,
    pub inline: Vec<Inline>,
    pub gates: Vec<Gate>,
    pub children: Vec<Node>,
    pub on_pass: Option<Vec<Node>>,
    pub on_fail: Option<Vec<Node>>,
    pub match_arms: Option<Vec<MatchArm>>,
    pub closes: Option<u32>,
    pub depends: Option<String>,
    pub validate: Option<String>,
    pub status: Option<String>,
}

/// A span of inline text.
#[derive(Debug, Clone, PartialEq)]
pub enum Inline {
    Text { value: String },
    Ref(Ref),
    ModCall { name: String, args: Option<String> },
    ProjectRef { name: String },
    Channel { name: String },
    Compute(Compute),
    Bold { value: String },
    Atom(Atom),
}

/// `@Entity:id`, `@Entity(s)`, `$Mod.@Entity`, `@workspace:w.@Entity`.
#[derive(Debug, Clone, PartialEq)]
pub struct Ref {
    pub path: Vec<String>,
    pub plural: bool,
    pub mod_scope: Option<String>,
    pub workspace_scope: Option<String>,
}

/// `|expr|` (evaluated once) or `||expr||` (live).
#[derive(Debug, Clone, PartialEq)]
pub struct Compute {
    pub expr: String,
    pub live: bool,
}

#[derive(Debug, Clone, PartialEq)]
pub struct Prose {
    pub text: String,
    pub inline: Vec<Inline>,
}

#[derive(Debug, Clone, PartialEq)]
pub struct Comment {
    pub text: String,
}

#[derive(Debug, Clone, Copy, PartialEq, Eq)]
pub enum Spawn {
    Parallel,
    Sequential,
}

/// A schema field: `name: default`, `tag(s): []`.
#[derive(Debug, Clone, PartialEq)]
pub struct FieldDef {
    pub name: String,
    pub plural: bool,
    pub default: FieldDefault,
}

/// The default value of a schema field. A decimal default is kept as the
/// text that spelled it.
#[derive(Debug, Clone, PartialEq)]
pub enum FieldDefault {
    Nil,
    Bool(bool),
    List,
    Str(String),
    Timestamp(String),
    Ref(String),
    Enum(Vec<String>),
    Atom(String),
    Int(i64),
    Float(String),
}

#[derive(Debug, Clone, PartialEq)]
pub struct Define {
    pub entity: String,
    pub atoms: Vec<Atom>,
    pub fields: Vec<FieldDef>,
    pub from_scope: Option<String>,
    pub mod_scope: Option<String>,
    pub workspace_scope: Option<String>,
}

/// One record of a batch mutation.
#[derive(Debug, Clone, PartialEq)]
pub struct BatchRecord {
    pub id: String,
    pub fields: Vec<(String, String)>,
}

#[derive(Debug, Clone, PartialEq)]
pub struct Mutate {
    pub entity: String,
    pub id: Option<String>,
    pub gate: Option<Gate>,
    pub fields: Vec<(String, String)>,
    pub batch: Option<Vec<BatchRecord>>,
    pub mod_scope: Option<String>,
    pub workspace_scope: Option<String>,
}

#[derive(Debug, Clone, PartialEq)]
pub struct Delete {
    pub entity: String,
    pub id: String,
    pub mod_scope: Option<String>,
    pub workspace_scope: Option<String>,
}

#[derive(Debug, Clone, PartialEq)]
pub struct Query {
    pub entity: String,
    pub plural: bool,
    pub filter: Option<String>,
    pub sort: Option<String>,
    pub limit: Option<usize>,
    pub includes: Option<Vec<String>>,
    pub mod_scope: Option<String>,
    pub workspace_scope: Option<String>,
    pub from_snapshot: Option<String>,
}

#[derive(Debug, Clone, PartialEq)]
pub enum VarValue {
    Literal(String),
    Compute(Compute),
    Ref(Ref),
}

/// `name = value`.
#[derive(Debug, Clone, PartialEq)]
pub struct Variable {
    pub name: String,
    pub value: VarValue,
}

/// `A, B --label--> C`.
#[derive(Debug, Clone, PartialEq)]
pub struct FlowEdge {
    pub from: Vec<String>,
    pub to: Vec<String>,
    pub label: Option<String>,
    pub parallel: bool,
    pub gate: Option<String>,
    pub wait: Option<String>,
    pub timeout: Option<String>,
}

#[derive(Debug, Clone, PartialEq)]
pub struct Flow {
    pub name: Option<String>,
    pub edges: Vec<FlowEdge>,
}

#[derive(Debug, Clone, PartialEq)]
pub struct StatesDef {
    pub transitions: Vec<FlowEdge>,
}

/// `id:`, `targets:`, `requires:`, `blocks:`, `depends_on:` lines of a
/// validator.
#[derive(Debug, Clone, PartialEq, Default)]
pub struct AttachmentMeta {
    pub id: Option<String>,
    pub targets: Vec<String>,
    pub requires: Vec<String>,
    pub blocks: Vec<String>,
    pub depends_on: Vec<String>,
}

#[derive(Debug, PartialEq)]
pub struct ValidateDef {
    pub name: String,
    pub meta: AttachmentMeta,
    pub children: Vec<Node>,
}

#[derive(Debug, Clone, PartialEq, Default)]
pub struct FormStorageDef {
    pub canonical: Option<String>,
    pub entity: Option<String>,
    pub duckdb: Option<String>,
}

#[derive(Debug, Clone, PartialEq)]
pub struct FormProjectionDef {
    pub target: String,
    pub mapping: String,
}

#[derive(Debug, Clone, PartialEq)]
pub struct FormDef {
    pub name: String,
    pub schema_version: Option<u32>,
    pub ui_layout: Option<String>,
    pub ui_pages: Vec<String>,
    pub storage: FormStorageDef,
    pub projections: Vec<FormProjectionDef>,
    pub fields: Vec<FieldDef>,
}

#[derive(Debug, Clone, PartialEq)]
pub struct ModDef {
    pub name: String,
    pub kind: Option<String>,
    pub description: Option<String>,
    pub trigger: Option<Vec<String>>,
    pub body: Vec<(String, String)>,
    pub versioned: bool,
}

#[derive(Debug, Clone, PartialEq)]
pub struct ModInvoke {
    pub name: String,
    pub method: Option<String>,
    pub args: Option<String>,
}

#[derive(Debug, PartialEq)]
pub struct Conditional {
    pub condition: Compute,
    pub children: Vec<Node>,
}

#[derive(Debug, Clone, PartialEq)]
pub struct Snap {
    pub name: String,
}

#[derive(Debug, Clone, PartialEq)]
pub struct Diff {
    pub target: String,
    pub from_snapshot: Option<String>,
}

#[derive(Debug, Clone, PartialEq)]
pub struct HistoryOp {
    pub target: String,
    pub limit: Option<usize>,
}

#[derive(Debug, Clone, PartialEq)]
pub struct StatusDef {
    pub options: Vec<String>,
}

#[derive(Debug, Clone, PartialEq)]
pub struct Routine {
    pub trigger: String,
    pub expr: String,
}

#[derive(Debug, Clone, PartialEq)]
pub struct Bold {
    pub text: String,
}

#[derive(Debug, Clone, PartialEq)]
pub struct Remember {
    pub content: String,
}

#[derive(Debug, Clone, PartialEq)]
pub struct RecallOp {
    pub query: String,
}

#[derive(Debug, Clone, PartialEq)]
pub struct EmbedMarker {
    pub tag: String,
}

#[derive(Debug, Clone, PartialEq)]
pub struct Escalate {
    pub target: String,
}

#[derive(Debug, PartialEq)]
pub struct GateDef {
    pub name: String,
    pub children: Vec<Node>,
}

#[derive(Debug, Clone, PartialEq)]
pub struct CodeBlock {
    pub lang: Option<String>,
    pub content: String,
}

/// `webhook: on:|trigger| url: "..." payload: "..."`.
#[derive(Debug, Clone, PartialEq)]
pub struct Webhook {
    pub trigger: String,
    pub url: String,
    pub payload: Option<String>,
}

/// `sync:name` with its `key: value` settings.
#[derive(Debug, Clone, PartialEq)]
pub struct SyncDef {
    pub name: String,
    pub class: String,
    pub source: String,
    pub identity: String,
    pub mode: String,
    pub target: String,
    pub schedule: String,
    pub scope: String,
}

/// `git:verb args` with its `key: value` body.
#[derive(Debug, Clone, PartialEq)]
pub struct GitOp {
    pub verb: String,
    pub args: String,
    pub body: Vec<(String, String)>,
}

/// `check: name` with its settings: the attachment lines, and the other
/// `key: value` lines in order.
#[derive(Debug, PartialEq)]
pub struct CheckDef {
    pub name: String,
    pub meta: AttachmentMeta,
    pub body: Vec<(String, String)>,
}

/// `## Entity: Name` with its source settings and its `- name: type`
/// fields.
#[derive(Debug, Clone, PartialEq)]
pub struct EntityDef {
    pub name: String,
    pub source: String,
    pub namespace: String,
    pub identity: String,
    pub fields: Vec<EntityField>,
}

#[derive(Debug, Clone, PartialEq)]
pub struct EntityField {
    pub name: String,
    pub field_type: String,
}

/// `use $Mod` or `use @Entity from <source> [as @Alias]`, with its
/// `key: value` configuration lines.
#[derive(Debug, Clone, PartialEq)]
pub struct UseBlock {
    pub mod_name: String,
    pub config: Vec<(String, String)>,
    pub entity: Option<String>,
    pub from_mod: Option<String>,
    pub from_workspace: Option<String>,
    pub alias: Option<String>,
}

/// `serve:target|command|` with its `port:` and `open:` settings.
#[derive(Debug, Clone, PartialEq)]
pub struct ServeDef {
    pub target: String,
    pub command: String,
    pub port: Option<String>,
    pub open: Option<String>,
}

/// `## Metric: Name` with its settings and its formula.
#[derive(Debug, Clone, PartialEq)]
pub struct MetricDef {
    pub name: String,
    pub source: Option<String>,
    pub grain: Option<String>,
    pub dimensions: Vec<String>,
    pub formula: String,
    pub cross_source: bool,
}

/// A lattice `Validates` section: the artifacts it names, and its other
/// children.
#[derive(Debug, PartialEq)]
pub struct LatticeValidatesDef {
    pub artifacts: Vec<LatticeArtifactRef>,
    pub children: Vec<Node>,
}

/// An artifact that a lattice section validates, with its schema.
#[derive(Debug, Clone, PartialEq)]
pub struct LatticeArtifactRef {
    pub artifact: String,
    pub schema: Option<String>,
    pub checks: Vec<LatticeFieldCheck>,
}

/// A field check of a validated artifact.
#[derive(Debug, Clone, PartialEq)]
pub struct LatticeFieldCheck {
    pub field: String,
    pub required: bool,
    pub min_items: Option<usize>,
}

/// A lattice `Constraint` section: its rule and what it applies to.
#[derive(Debug, PartialEq)]
pub struct LatticeConstraintDef {
    pub constraint_type: Option<String>,
    pub rule: String,
    pub applies_to: Vec<String>,
    pub children: Vec<Node>,
}

/// A lattice `Schema` section: its fields.
#[derive(Debug, PartialEq)]
pub struct LatticeSchemaDef {
    pub fields: Vec<LatticeSchemaField>,
    pub children: Vec<Node>,
}

#[derive(Debug, Clone, PartialEq)]
pub struct LatticeSchemaField {
    pub name: String,
    pub field_type: String,
    pub required: bool,
}

/// A lattice `Frontier` section: the schema expected, the fields missing
/// and the strategies to explore.
#[derive(Debug, PartialEq)]
pub struct LatticeFrontierDef {
    pub expected_schema: Option<String>,
    pub missing_fields: Vec<String>,
    pub exploration_strategy: Vec<String>,
    pub children: Vec<Node>,
}

/// A `Pressure Effect` section: its dynamic and its target.
#[derive(Debug, Clone, PartialEq)]
pub struct PressureEffectDef {
    pub dynamic: String,
    pub target: Option<String>,
}

/// A `Unit Cell` section and its children.
#[derive(Debug, PartialEq)]
pub struct UnitCellDef {
    pub children: Vec<Node>,
}

/// A `Symmetry` section and its children.
#[derive(Debug, PartialEq)]
pub struct SymmetryDef {
    pub children: Vec<Node>,
}

/// `%Name` and the lines indented under it.
#[derive(Debug, PartialEq)]
pub struct ProjectScope {
    pub name: String,
    pub children: Vec<Node>,
}

/// `files:` with one path per body line.
#[derive(Debug, Clone, PartialEq)]
pub struct FilesDef {
    pub paths: Vec<String>,
}

/// `policy:` with one `@path: {gate}...` rule per body line.
#[derive(Debug, Clone, PartialEq)]
pub struct PolicyDef {
    pub rules: Vec<PolicyRule>,
}

/// The gates that guard a path.
#[derive(Debug, Clone, PartialEq)]
pub struct PolicyRule {
    pub path: String,
    pub gates: Vec<Gate>,
}

} // verus!
