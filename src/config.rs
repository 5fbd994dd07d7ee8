use vstd::prelude::*;

verus! {

/// How strictly a transaction is executed. Production execution sets none of
/// these; inspection runs may allow arbitrary values and calls; bootstrap
/// execution publishes packages at predefined addresses.
#[derive(Debug, Clone, Copy, PartialEq, Eq, Structural)]
pub struct ExecutionMode {
    pub allow_arbitrary_values: bool,
    pub allow_arbitrary_function_calls: bool,
    pub packages_are_predefined: bool,
}

/// The protocol switches and limits that command execution reads.
#[derive(Debug, Clone, Copy, PartialEq, Eq)]
pub struct ProtocolConfig {
    /// The size budget for one value; none means sizes are not bounded.
    pub max_ptb_value_size: Option<u64>,
    /// The deepest a value may nest.
    pub max_move_value_depth: u64,
    /// Only values of types with `copy` are bounded.
    pub max_ptb_value_size_v2: bool,
    pub ban_entry_init: bool,
    pub validate_identifier_inputs: bool,
    pub disallow_new_modules_in_deps_only_packages: bool,
    pub better_adapter_type_resolution_errors: bool,
}

impl ExecutionMode {
    /// Execution of ordinary transactions.
    pub fn normal() -> (r: ExecutionMode)
        ensures
            !r.allow_arbitrary_values,
            !r.allow_arbitrary_function_calls,
            !r.packages_are_predefined,
    {
        ExecutionMode {
            allow_arbitrary_values: false,
            allow_arbitrary_function_calls: false,
            packages_are_predefined: false,
        }
    }
}

} // verus!
