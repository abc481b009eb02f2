//! Interpreter core of the erabasic virtual machine.

use vstd::prelude::*;

pub mod text;
pub mod fault;
pub mod value;
pub mod lookup;
pub mod memory;
pub mod program;
pub mod operand;
pub mod state;
pub mod places;
pub mod frames;
pub mod named;
pub mod fastpaths;
pub mod utf8;
pub mod basic;
pub mod terminal;
pub mod dispatch;
pub mod existvar;
pub mod faults;
pub mod diagnostics;
pub mod arithmetic;
pub mod arrays;
pub mod extended_ops;
pub mod array_ops;
pub mod sorting;
pub mod random_state;
pub mod character_query;
pub mod character_ops;
pub mod memo;
pub mod services;
pub mod calls;
pub mod user_calls;
pub mod bit_calls;
pub mod ast;
pub mod terms;
pub mod forms;
pub mod form_resources;
pub mod form_binding;
pub mod form_typing;
pub mod form_terms;
pub mod form_graph;
pub mod form_plans;
pub mod form_support;
pub mod form_checkpoints;
pub mod form_frontend;
pub mod form_methods;
pub mod form_hosts;
pub mod form_staged;
pub mod form_effects;
pub mod form_queries;
pub mod form_reduction;
pub mod form_pump;
pub mod form_symbols;
pub mod form_call_text;
pub mod form_calls;
pub mod form_services;
pub mod form_steps;
pub mod form_replies;
pub mod form_run;
pub mod form_validity;
pub mod form_laws;
pub mod bulk_laws;
pub mod bulk_code;
pub mod bulk_plans;
pub mod operator_laws;
pub mod call_laws;
pub mod instruction_laws;
pub mod array_laws;
pub mod character_laws;
pub mod flow_laws;
pub mod variable_laws;
pub mod evaluation_laws;
pub mod query_laws;
pub mod probe_laws;
pub mod user_call_laws;
pub mod form_call_laws;
pub mod service_laws;
pub mod source_laws;
pub mod reduction_laws;
pub mod scheduling_laws;
pub mod call_typing_laws;
pub mod host_laws;
pub mod staged_laws;

verus! {

} // verus!
