//! Typed error hierarchy for the .bit language stack.
//!
//! Structured enums carry the exact context of what went wrong and where;
//! `to_string` gives each error's message, specified by `shown`.
use crate::bit_types::{BoundName, EntityKey, EntityName, FieldName, FlowName, FlowState, GateRef};
use crate::ir::ConstructKind;
use crate::text;
use crate::text::decimal;
use vstd::prelude::*;

verus! {

/// Top-level error that can occur anywhere in the .bit pipeline.
#[derive(Debug, Clone)]
pub enum BitError {
    Parse(ParseError),
    IR(IRValidationError),
    Exec(ExecError),
}

impl BitError {
    pub open spec fn shown(self) -> Seq<char> {
        match self {
            BitError::Parse(e) => "parse: "@ + e.shown(),
            BitError::IR(e) => "ir: "@ + e.shown(),
            BitError::Exec(e) => "exec: "@ + e.shown(),
        }
    }

    pub fn to_string(&self) -> (r: String)
        ensures
            r@ == self.shown(),
    {
        let mut v: Vec<char>;
        match self {
            BitError::Parse(e) => {
                v = text::str_chars("parse: ");
                text::append_string(&mut v, &e.to_string());
            },
            BitError::IR(e) => {
                v = text::str_chars("ir: ");
                text::append_string(&mut v, &e.to_string());
            },
            BitError::Exec(e) => {
                v = text::str_chars("exec: ");
                text::append_string(&mut v, &e.to_string());
            },
        }
        text::to_string(&v)
    }
}

// ── Parse Errors ──────────────────────────────────────────────

#[derive(Debug, Clone)]
pub struct ParseError {
    pub kind: ParseErrorKind,
    pub line: usize,
    pub col: usize,
    pub context: String,
}

#[derive(Debug, Clone)]
pub enum ParseErrorKind {
    UnexpectedToken { expected: String, found: String },
    InvalidIndentation { expected: usize, found: usize },
    UnclosedCodeBlock,
    InvalidFieldSyntax,
    UnknownConstruct { keyword: String },
}

impl ParseErrorKind {
    /// The kind as `{:?}` writes it.
    pub open spec fn debug_spec(self) -> Seq<char> {
        match self {
            ParseErrorKind::UnexpectedToken { expected, found } => "UnexpectedToken { expected: "@
                + text::debug_quoted(expected@) + ", found: "@ + text::debug_quoted(found@)
                + " }"@,
            ParseErrorKind::InvalidIndentation { expected, found } =>
                "InvalidIndentation { expected: "@ + decimal(expected as nat) + ", found: "@
                + decimal(found as nat) + " }"@,
            ParseErrorKind::UnclosedCodeBlock => "UnclosedCodeBlock"@,
            ParseErrorKind::InvalidFieldSyntax => "InvalidFieldSyntax"@,
            ParseErrorKind::UnknownConstruct { keyword } => "UnknownConstruct { keyword: "@
                + text::debug_quoted(keyword@) + " }"@,
        }
    }

    pub fn debug_text(&self) -> (r: Vec<char>)
        ensures
            r@ == self.debug_spec(),
    {
        match self {
            ParseErrorKind::UnexpectedToken { expected, found } => {
                let mut v = text::str_chars("UnexpectedToken { expected: ");
                text::append(&mut v, &text::debug_quoted_exec(&text::string_chars(expected)));
                text::append_str(&mut v, ", found: ");
                text::append(&mut v, &text::debug_quoted_exec(&text::string_chars(found)));
                text::append_str(&mut v, " }");
                v
            },
            ParseErrorKind::InvalidIndentation { expected, found } => {
                let mut v = text::str_chars("InvalidIndentation { expected: ");
                text::append_decimal(&mut v, *expected);
                text::append_str(&mut v, ", found: ");
                text::append_decimal(&mut v, *found);
                text::append_str(&mut v, " }");
                v
            },
            ParseErrorKind::UnclosedCodeBlock => text::str_chars("UnclosedCodeBlock"),
            ParseErrorKind::InvalidFieldSyntax => text::str_chars("InvalidFieldSyntax"),
            ParseErrorKind::UnknownConstruct { keyword } => {
                let mut v = text::str_chars("UnknownConstruct { keyword: ");
                text::append(&mut v, &text::debug_quoted_exec(&text::string_chars(keyword)));
                text::append_str(&mut v, " }");
                v
            },
        }
    }
}

impl ParseError {
    /// `line N: <kind as {:?}>`
    pub open spec fn shown(self) -> Seq<char> {
        "line "@ + decimal(self.line as nat) + ": "@ + self.kind.debug_spec()
    }

    pub fn to_string(&self) -> (r: String)
        ensures
            r@ == self.shown(),
    {
        let mut v = text::str_chars("line ");
        text::append_decimal(&mut v, self.line);
        text::append_str(&mut v, ": ");
        text::append(&mut v, &self.kind.debug_text());
        text::to_string(&v)
    }
}

// ── IR Validation Errors ──────────────────────────────────────

#[derive(Debug, Clone)]
pub enum IRValidationError {
    /// @Entity reference to undefined schema.
    UnresolvedEntity { name: EntityName, referenced_in: ConstructKind, line: usize },
    /// Gate referenced in flow doesn't exist.
    UnresolvedGate { gate: GateRef, referenced_in: Option<FlowName>, line: usize },
    /// Duplicate define:@Entity.
    DuplicateSchema { name: EntityName, first_line: usize, second_line: usize },
    /// Mutation sets a state that isn't reachable from current state.
    InvalidTransition {
        entity: EntityName,
        from: FlowState,
        to: FlowState,
        flow: Option<FlowName>,
        line: usize,
    },
    /// Parallel spawn contains mutations (data race).
    ParallelMutation { spawn_line: usize, mutate_target: EntityName, mutate_line: usize },
    /// Use/import with empty source.
    InvalidImport { line: usize, detail: String },
    /// Field type mismatch against schema.
    TypeMismatch {
        entity: EntityName,
        field: FieldName,
        expected: String,
        found: String,
        line: usize,
    },
    /// Required field missing in mutation.
    MissingRequiredField { entity: EntityName, field: FieldName, line: usize },
}

impl IRValidationError {
    pub open spec fn shown(self) -> Seq<char> {
        match self {
            IRValidationError::UnresolvedEntity { name, referenced_in: _, line } => "line "@
                + decimal(line as nat) + ": references undefined entity "@ + name.shown(),
            IRValidationError::UnresolvedGate { gate, referenced_in: _, line } => "line "@
                + decimal(line as nat) + ": references undefined gate "@ + gate.shown(),
            IRValidationError::DuplicateSchema { name, first_line, second_line } => "line "@
                + decimal(second_line as nat) + ": duplicate define:"@ + name.shown()
                + " (first at line "@ + decimal(first_line as nat) + ")"@,
            IRValidationError::InvalidTransition { entity, from, to, flow: _, line } => "line "@
                + decimal(line as nat) + ": invalid transition "@ + from.shown()
                + " \u{2192} "@ + to.shown() + " for "@ + entity.shown(),
            IRValidationError::ParallelMutation { spawn_line, mutate_target, mutate_line } =>
                "line "@ + decimal(spawn_line as nat)
                + ": parallel spawn (+) contains mutation of "@ + mutate_target.shown()
                + " at line "@ + decimal(mutate_line as nat)
                + " \u{2014} use sequential (++) for writes"@,
            IRValidationError::InvalidImport { line, detail } => "line "@ + decimal(line as nat)
                + ": invalid import: "@ + detail@,
            IRValidationError::TypeMismatch { entity, field, expected, found, line } => "line "@
                + decimal(line as nat) + ": "@ + entity.shown() + "."@ + field.shown()
                + ": expected "@ + expected@ + ", found "@ + found@,
            IRValidationError::MissingRequiredField { entity, field, line } => "line "@
                + decimal(line as nat) + ": "@ + entity.shown() + "."@ + field.shown()
                + " is required but missing"@,
        }
    }

    pub fn to_string(&self) -> (r: String)
        ensures
            r@ == self.shown(),
    {
        let mut v = text::str_chars("line ");
        match self {
            IRValidationError::UnresolvedEntity { name, referenced_in: _, line } => {
                text::append_decimal(&mut v, *line);
                text::append_str(&mut v, ": references undefined entity ");
                text::append_string(&mut v, &name.to_string());
            },
            IRValidationError::UnresolvedGate { gate, referenced_in: _, line } => {
                text::append_decimal(&mut v, *line);
                text::append_str(&mut v, ": references undefined gate ");
                text::append_string(&mut v, &gate.to_string());
            },
            IRValidationError::DuplicateSchema { name, first_line, second_line } => {
                text::append_decimal(&mut v, *second_line);
                text::append_str(&mut v, ": duplicate define:");
                text::append_string(&mut v, &name.to_string());
                text::append_str(&mut v, " (first at line ");
                text::append_decimal(&mut v, *first_line);
                text::append_str(&mut v, ")");
            },
            IRValidationError::InvalidTransition { entity, from, to, flow: _, line } => {
                text::append_decimal(&mut v, *line);
                text::append_str(&mut v, ": invalid transition ");
                text::append_string(&mut v, &from.to_string());
                text::append_str(&mut v, " \u{2192} ");
                text::append_string(&mut v, &to.to_string());
                text::append_str(&mut v, " for ");
                text::append_string(&mut v, &entity.to_string());
            },
            IRValidationError::ParallelMutation { spawn_line, mutate_target, mutate_line } => {
                text::append_decimal(&mut v, *spawn_line);
                text::append_str(&mut v, ": parallel spawn (+) contains mutation of ");
                text::append_string(&mut v, &mutate_target.to_string());
                text::append_str(&mut v, " at line ");
                text::append_decimal(&mut v, *mutate_line);
                text::append_str(&mut v, " \u{2014} use sequential (++) for writes");
            },
            IRValidationError::InvalidImport { line, detail } => {
                text::append_decimal(&mut v, *line);
                text::append_str(&mut v, ": invalid import: ");
                text::append_string(&mut v, detail);
            },
            IRValidationError::TypeMismatch { entity, field, expected, found, line } => {
                text::append_decimal(&mut v, *line);
                text::append_str(&mut v, ": ");
                text::append_string(&mut v, &entity.to_string());
                text::append_str(&mut v, ".");
                text::append_string(&mut v, &field.to_string());
                text::append_str(&mut v, ": expected ");
                text::append_string(&mut v, expected);
                text::append_str(&mut v, ", found ");
                text::append_string(&mut v, found);
            },
            IRValidationError::MissingRequiredField { entity, field, line } => {
                text::append_decimal(&mut v, *line);
                text::append_str(&mut v, ": ");
                text::append_string(&mut v, &entity.to_string());
                text::append_str(&mut v, ".");
                text::append_string(&mut v, &field.to_string());
                text::append_str(&mut v, " is required but missing");
            },
        }
        text::to_string(&v)
    }
}

// ── Execution Errors ──────────────────────────────────────────

#[derive(Debug, Clone)]
pub enum ExecError {
    /// Flow has no valid transition from current state.
    NoTransition { flow: Option<FlowName>, current_state: FlowState },
    /// Gate evaluation failed.
    GateFailed { gate: GateRef, missing_conditions: Vec<String> },
    /// Bound constraint violated.
    BoundViolation { bound: BoundName, field: String, limit: String, actual: String },
    /// Webhook dispatch failed.
    WebhookFailed { url: String, error: String },
    /// Conditional evaluation error.
    ConditionError { condition: String, error: String },
    /// Entity not found for mutation/deletion.
    EntityNotFound { key: EntityKey },
}

/// An optional flow name as `{:?}` writes it.
pub open spec fn debug_flow_name(flow: Option<FlowName>) -> Seq<char> {
    match flow {
        Some(f) => "Some(FlowName("@ + text::debug_quoted(f.0@) + "))"@,
        None => "None"@,
    }
}

fn debug_flow_name_exec(flow: &Option<FlowName>) -> (r: Vec<char>)
    ensures
        r@ == debug_flow_name(*flow),
{
    match flow {
        Some(f) => {
            let mut v = text::str_chars("Some(FlowName(");
            text::append(&mut v, &text::debug_quoted_exec(&text::string_chars(&f.0)));
            text::append_str(&mut v, "))");
            v
        },
        None => text::str_chars("None"),
    }
}

/// `slice::join` over `String`s.
pub fn join_strings(parts: &Vec<String>, sep: &str) -> (r: Vec<char>)
    ensures
        r@ == text::join(text::str_views(parts@), sep@),
{
    let vs = text::from_strings(parts);
    text::join_str(&vs, sep)
}

impl ExecError {
    pub open spec fn shown(self) -> Seq<char> {
        match self {
            ExecError::NoTransition { flow, current_state } => "no transition from "@
                + current_state.shown() + " in "@ + debug_flow_name(flow),
            ExecError::GateFailed { gate, missing_conditions } => "gate "@ + gate.shown()
                + " failed: missing "@ + text::join(text::str_views(missing_conditions@), ", "@),
            ExecError::BoundViolation { bound, field, limit, actual } => "bound "@
                + bound.shown() + " violated: "@ + field@ + "."@ + field@ + " (limit "@ + limit@
                + ", actual "@ + actual@ + ")"@,
            ExecError::WebhookFailed { url, error } => "webhook "@ + url@ + " failed: "@
                + error@,
            ExecError::ConditionError { condition, error } => "condition '"@ + condition@
                + "' error: "@ + error@,
            ExecError::EntityNotFound { key } => "entity "@ + key.shown() + " not found"@,
        }
    }

    pub fn to_string(&self) -> (r: String)
        ensures
            r@ == self.shown(),
    {
        let mut v: Vec<char>;
        match self {
            ExecError::NoTransition { flow, current_state } => {
                v = text::str_chars("no transition from ");
                text::append_string(&mut v, &current_state.to_string());
                text::append_str(&mut v, " in ");
                text::append(&mut v, &debug_flow_name_exec(flow));
            },
            ExecError::GateFailed { gate, missing_conditions } => {
                v = text::str_chars("gate ");
                text::append_string(&mut v, &gate.to_string());
                text::append_str(&mut v, " failed: missing ");
                text::append(&mut v, &join_strings(missing_conditions, ", "));
            },
            ExecError::BoundViolation { bound, field, limit, actual } => {
                v = text::str_chars("bound ");
                text::append_string(&mut v, &bound.to_string());
                text::append_str(&mut v, " violated: ");
                text::append_string(&mut v, field);
                text::append_str(&mut v, ".");
                text::append_string(&mut v, field);
                text::append_str(&mut v, " (limit ");
                text::append_string(&mut v, limit);
                text::append_str(&mut v, ", actual ");
                text::append_string(&mut v, actual);
                text::append_str(&mut v, ")");
            },
            ExecError::WebhookFailed { url, error } => {
                v = text::str_chars("webhook ");
                text::append_string(&mut v, url);
                text::append_str(&mut v, " failed: ");
                text::append_string(&mut v, error);
            },
            ExecError::ConditionError { condition, error } => {
                v = text::str_chars("condition '");
                text::append_string(&mut v, condition);
                text::append_str(&mut v, "' error: ");
                text::append_string(&mut v, error);
            },
            ExecError::EntityNotFound { key } => {
                v = text::str_chars("entity ");
                text::append_string(&mut v, &key.to_string());
                text::append_str(&mut v, " not found");
            },
        }
        text::to_string(&v)
    }
}

} // verus!
