//! Data types of the Debug Adapter Protocol, through which editors drive the
//! debugger.
use vstd::prelude::*;

verus! {

/// The features the debug adapter offers to its client.
#[derive(Debug, Clone)]
pub struct Capabilities {
    pub supports_configuration_done_request: bool,
    pub supports_step_back: bool,
    pub supports_restart_request: bool,
    pub supports_goto_targets_request: bool,
    pub supports_evaluate_for_hovers: bool,
    pub supports_set_variable: bool,
    pub supports_completions_request: bool,
    pub supports_exception_info_request: bool,
    pub supports_loaded_sources_request: bool,
    pub supports_terminate_request: bool,
    pub supports_reverse_request: bool,
    pub supports_time_travel: bool,
}

impl Default for Capabilities {
    /// Every feature but setting variables, which time travel does not allow.
    fn default() -> (r: Self)
        ensures
            r.supports_configuration_done_request,
            r.supports_step_back,
            r.supports_restart_request,
            r.supports_goto_targets_request,
            r.supports_evaluate_for_hovers,
            !r.supports_set_variable,
            r.supports_completions_request,
            r.supports_exception_info_request,
            r.supports_loaded_sources_request,
            r.supports_terminate_request,
            r.supports_reverse_request,
            r.supports_time_travel,
    {
        Capabilities {
            supports_configuration_done_request: true,
            supports_step_back: true,
            supports_restart_request: true,
            supports_goto_targets_request: true,
            supports_evaluate_for_hovers: true,
            supports_set_variable: false,
            supports_completions_request: true,
            supports_exception_info_request: true,
            supports_loaded_sources_request: true,
            supports_terminate_request: true,
            supports_reverse_request: true,
            supports_time_travel: true,
        }
    }
}

/// A frame of the call stack as the protocol shows it.
#[derive(Debug, Clone)]
pub struct StackFrame {
    pub id: i64,
    pub name: String,
    pub source: Option<Source>,
    pub line: i64,
    pub column: i64,
    pub end_line: Option<i64>,
    pub end_column: Option<i64>,
    pub module_id: Option<String>,
    pub presentation_hint: Option<String>,
}

/// A source file as the protocol names it.
#[derive(Debug, Clone)]
pub struct Source {
    pub name: Option<String>,
    pub path: Option<String>,
    pub source_reference: Option<i64>,
    pub presentation_hint: Option<String>,
}

/// A variable and its value as text.
#[derive(Debug, Clone)]
pub struct Variable {
    pub name: String,
    pub value: String,
    pub var_type: Option<String>,
    pub variables_reference: i64,
    pub named_variables: Option<i64>,
    pub indexed_variables: Option<i64>,
}

/// A named group of variables.
#[derive(Debug, Clone)]
pub struct Scope {
    pub name: String,
    pub presentation_hint: Option<String>,
    pub variables_reference: i64,
    pub named_variables: Option<i64>,
    pub expensive: bool,
}

/// A breakpoint as the adapter reports it.
#[derive(Debug, Clone)]
pub struct DAPBreakpoint {
    pub id: Option<i64>,
    pub verified: bool,
    pub message: Option<String>,
    pub source: Option<Source>,
    pub line: Option<i64>,
    pub column: Option<i64>,
    pub end_line: Option<i64>,
    pub end_column: Option<i64>,
}

/// A thread of execution.
#[derive(Debug, Clone)]
pub struct Thread {
    pub id: i64,
    pub name: String,
}

} // verus!
