use vstd::prelude::*;
use crate::config::{ExecutionMode, ProtocolConfig};
use crate::errors::ExecutionError;
use crate::layout::PrimitiveArgumentLayout;
use crate::types::{invariant_violation, layout_of, primitive_serialization_layout, AbilitySet, MoveType};

verus! {

/// The amplification factor of a layout as an integer of the machine: it
/// saturates at `u64::MAX`.
pub open spec fn saturated_amplification(l: PrimitiveArgumentLayout) -> nat {
    if l.spec_amplification() <= u64::MAX as nat {
        l.spec_amplification()
    } else {
        u64::MAX as nat
    }
}

/// The amplification factor of a type whose layout is `layout`: a type with no
/// primitive layout is taken to be as deep as a value may be.
pub open spec fn amplification_for(config: ProtocolConfig, layout: Option<PrimitiveArgumentLayout>) -> nat {
    match layout {
        Some(l) => saturated_amplification(l),
        None => config.max_move_value_depth as nat,
    }
}

/// The admissible byte length of a value of type `t`, before abilities are
/// taken into account: `Ok(None)` when sizes are not bounded.
pub open spec fn spec_amplification_bound(
    config: ProtocolConfig,
    mode: ExecutionMode,
    t: MoveType,
) -> Result<Option<u64>, ExecutionError> {
    if mode.packages_are_predefined {
        Ok(None)
    } else {
        match config.max_ptb_value_size {
            None => Ok(None),
            Some(budget) => match layout_of(t) {
                None => Err(invariant_violation()),
                Some(layout) => Ok(
                    Some((budget as nat / amplification_for(config, layout)) as u64),
                ),
            },
        }
    }
}

/// The admissible byte length of a value of type `t`: the size budget divided
/// by the type's amplification factor. Not bounded during bootstrap execution
/// or when the protocol sets no budget.
pub fn amplification_bound_(config: &ProtocolConfig, mode: &ExecutionMode, param_ty: &MoveType) -> (r:
    Result<Option<u64>, ExecutionError>)
    requires
        config.max_move_value_depth > 0,
    ensures
        r == spec_amplification_bound(*config, *mode, *param_ty),
{
    // Do not cap size for epoch change/genesis
    if mode.packages_are_predefined {
        return Ok(None);
    }
    let bound = match config.max_ptb_value_size {
        Some(b) => b,
        None => return Ok(None),
    };
    let amplification = match primitive_serialization_layout(param_ty)? {
        // No primitive layout: assume the worst, a value of maximal depth.
        None => config.max_move_value_depth,
        Some(layout) => layout.amplification(),
    };
    Ok(Some(bound / amplification))
}

/// Like `amplification_bound_`, but types without `copy` are not bounded once
/// the protocol bounds only values that can be duplicated.
pub fn amplification_bound(
    config: &ProtocolConfig,
    mode: &ExecutionMode,
    param_ty: &MoveType,
    abilities: AbilitySet,
) -> (r: Result<Option<u64>, ExecutionError>)
    requires
        config.max_move_value_depth > 0,
    ensures
        config.max_ptb_value_size_v2 && !abilities.copy ==> r == Ok::<Option<u64>, ExecutionError>(
            None,
        ),
        !(config.max_ptb_value_size_v2 && !abilities.copy) ==> r == spec_amplification_bound(
            *config,
            *mode,
            *param_ty,
        ),
{
    if config.max_ptb_value_size_v2 && !abilities.copy {
        return Ok(None);
    }
    amplification_bound_(config, mode, param_ty)
}

/// Wrapping a layout in one more option layer never raises the admissible
/// length of its values.
pub proof fn lemma_option_layer_never_raises_bound(budget: u64, l: PrimitiveArgumentLayout)
    ensures
        budget as nat / saturated_amplification(
            PrimitiveArgumentLayout::Option(Box::new(l)),
        ) <= budget as nat / saturated_amplification(l),
{
    crate::layout::lemma_amplification_positive(&l);
    let a = saturated_amplification(l);
    let b = saturated_amplification(PrimitiveArgumentLayout::Option(Box::new(l)));
    assert(b >= a);
    vstd::arithmetic::div_mod::lemma_div_is_ordered_by_denominator(budget as int, a as int, b as int);
}

} // verus!
