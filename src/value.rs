use vstd::prelude::*;
use crate::bound::spec_amplification_bound;
use crate::config::{ExecutionMode, ProtocolConfig};
use crate::errors::{command_argument_error, error_of, CommandArgumentError, ExecutionError, ExecutionErrorKind};
use crate::bound::amplification_bound_;
use crate::types::{
    invariant_violation, is_receiving, layout_of, primitive_serialization_layout, same_type,
    AbilitySet, MoveType,
};
use crate::wire::{bcs_argument_validate, valid_encoding};

verus! {

/// A coin: its object id and its balance.
#[derive(Debug)]
pub struct Coin {
    pub id: Vec<u8>,
    pub balance: u64,
}

/// What an object holds: a coin, or the bytes of any other struct.
#[derive(Debug)]
pub enum ObjectContents {
    Coin(Coin),
    Raw(Vec<u8>),
}

/// An object taken as an argument or produced by a command.
#[derive(Debug)]
pub struct ObjectValue {
    pub type_: MoveType,
    pub has_public_transfer: bool,
    pub used_in_non_entry_move_call: bool,
    pub contents: ObjectContents,
}

/// The type of a raw value: `Any` for bytes supplied by the transaction,
/// `Loaded` for a value produced by an earlier command.
#[derive(Debug)]
pub enum RawValueType {
    Any,
    Loaded { ty: MoveType, abilities: AbilitySet, used_in_non_entry_move_call: bool },
}

/// A resolved argument or result.
#[derive(Debug)]
pub enum Value {
    Object(ObjectValue),
    Raw(RawValueType, Vec<u8>),
    /// An object that may be received: its id, its version, and the type fixed
    /// for it by an earlier use, if any.
    Receiving(Vec<u8>, u64, Option<MoveType>),
}

/// The value came out of a call to a public function that is not `entry`.
pub open spec fn used_in_non_entry(v: Value) -> bool {
    match v {
        Value::Object(obj) => obj.used_in_non_entry_move_call,
        Value::Raw(RawValueType::Loaded { used_in_non_entry_move_call, .. }, _) => used_in_non_entry_move_call,
        _ => false,
    }
}

impl Value {
    pub fn was_used_in_non_entry_move_call(&self) -> (r: bool)
        ensures
            r == used_in_non_entry(*self),
    {
        match self {
            Value::Object(obj) => obj.used_in_non_entry_move_call,
            Value::Raw(RawValueType::Loaded { used_in_non_entry_move_call, .. }, _) => *used_in_non_entry_move_call,
            _ => false,
        }
    }
}

/// The outcome of checking value `v` against parameter type `t`, the argument
/// being at index `idx`.
pub open spec fn param_check(
    config: ProtocolConfig,
    mode: ExecutionMode,
    idx: u16,
    v: Value,
    t: MoveType,
) -> Result<(), ExecutionError> {
    match v {
        Value::Raw(RawValueType::Any, bytes) => if mode.allow_arbitrary_values {
            match spec_amplification_bound(config, mode, t) {
                Err(e) => Err(e),
                Ok(None) => Ok(()),
                Ok(Some(limit)) => if bytes@.len() > limit {
                    Err(
                        error_of(
                            ExecutionErrorKind::SizeLimitExceeded {
                                limit,
                                value_size: bytes@.len() as u64,
                            },
                        ),
                    )
                } else {
                    Ok(())
                },
            }
        } else {
            match layout_of(t) {
                None => Err(invariant_violation()),
                Some(None) => Err(
                    command_argument_error(CommandArgumentError::InvalidUsageOfPureArg, idx),
                ),
                Some(Some(l)) => if valid_encoding(l, bytes@) {
                    Ok(())
                } else {
                    Err(command_argument_error(CommandArgumentError::InvalidBCSBytes, idx))
                },
            }
        },
        Value::Raw(RawValueType::Loaded { ty, abilities, .. }, _) => if !mode.allow_arbitrary_values
            && abilities.key {
            Err(invariant_violation())
        } else if !same_type(ty, t) {
            Err(command_argument_error(CommandArgumentError::TypeMismatch, idx))
        } else {
            Ok(())
        },
        Value::Object(obj) => if !same_type(obj.type_, t) {
            Err(command_argument_error(CommandArgumentError::TypeMismatch, idx))
        } else {
            Ok(())
        },
        Value::Receiving(_, _, assigned) => {
            let fixed_ok = match assigned {
                Some(a) => same_type(a, t),
                None => true,
            };
            let shape_ok = match t {
                MoveType::DatatypeInstantiation(d, targs) => is_receiving(d) && targs@.len() == 1,
                _ => false,
            };
            if fixed_ok && shape_ok {
                Ok(())
            } else {
                Err(command_argument_error(CommandArgumentError::TypeMismatch, idx))
            }
        },
    }
}

/// Checks that the value is compatible with the parameter type. Bytes supplied
/// by the transaction are accepted only for primitive-compatible types and must
/// decode; any other value must have exactly the parameter's type.
pub fn check_param_type(
    config: &ProtocolConfig,
    mode: &ExecutionMode,
    idx: u16,
    value: &Value,
    param_ty: &MoveType,
) -> (r: Result<(), ExecutionError>)
    requires
        config.max_move_value_depth > 0,
    ensures
        r == param_check(*config, *mode, idx, *value, *param_ty),
{
    match value {
        Value::Raw(RawValueType::Any, bytes) => {
            if mode.allow_arbitrary_values {
                // Inspection runs accept any bytes, within the size bound.
                match amplification_bound_(config, mode, param_ty) {
                    Err(e) => Err(e),
                    Ok(Some(limit)) => {
                        if bytes.len() as u64 > limit {
                            Err(
                                ExecutionError::from_kind(
                                    ExecutionErrorKind::SizeLimitExceeded {
                                        limit,
                                        value_size: bytes.len() as u64,
                                    },
                                ),
                            )
                        } else {
                            Ok(())
                        }
                    },
                    Ok(None) => Ok(()),
                }
            } else {
                match primitive_serialization_layout(param_ty) {
                    Err(e) => Err(e),
                    Ok(None) => Err(
                        ExecutionError::command_argument(
                            CommandArgumentError::InvalidUsageOfPureArg,
                            idx,
                        ),
                    ),
                    Ok(Some(layout)) => bcs_argument_validate(bytes, idx, layout),
                }
            }
        },
        Value::Raw(RawValueType::Loaded { ty, abilities, .. }, _) => {
            if !mode.allow_arbitrary_values && abilities.key {
                // a raw value is never an object
                return Err(ExecutionError::from_kind(ExecutionErrorKind::InvariantViolation));
            }
            if !ty.same_as(param_ty) {
                return Err(
                    ExecutionError::command_argument(CommandArgumentError::TypeMismatch, idx),
                );
            }
            Ok(())
        },
        Value::Object(obj) => {
            if !obj.type_.same_as(param_ty) {
                return Err(
                    ExecutionError::command_argument(CommandArgumentError::TypeMismatch, idx),
                );
            }
            Ok(())
        },
        Value::Receiving(_, _, assigned_type) => {
            let fixed_ok = match assigned_type {
                Some(a) => a.same_as(param_ty),
                None => true,
            };
            let shape_ok = match param_ty {
                MoveType::DatatypeInstantiation(d, targs) => d.is(2, "transfer", "Receiving")
                    && targs.len() == 1,
                _ => false,
            };
            if fixed_ok && shape_ok {
                Ok(())
            } else {
                Err(ExecutionError::command_argument(CommandArgumentError::TypeMismatch, idx))
            }
        },
    }
}

/// The little-endian bytes of the lowest `k` bytes of `n`.
pub open spec fn le_bytes(n: nat, k: nat) -> Seq<u8>
    decreases k,
{
    if k == 0 {
        Seq::empty()
    } else {
        seq![(n % 256) as u8] + le_bytes(n / 256, (k - 1) as nat)
    }
}

/// A length as a `u64`, saturated at `u64::MAX`.
pub open spec fn saturate(n: nat) -> u64 {
    if n <= u64::MAX {
        n as u64
    } else {
        u64::MAX
    }
}

/// The wire bytes of a value.
pub open spec fn value_bytes(v: Value) -> Seq<u8> {
    match v {
        Value::Raw(_, bytes) => bytes@,
        Value::Object(obj) => match obj.contents {
            ObjectContents::Coin(c) => c.id@ + le_bytes(c.balance as nat, 8),
            ObjectContents::Raw(bytes) => bytes@,
        },
        Value::Receiving(id, version, _) => id@ + le_bytes(version as nat, 8),
    }
}

proof fn lemma_le_bytes_len(n: nat, k: nat)
    ensures
        le_bytes(n, k).len() == k,
    decreases k,
{
    if k > 0 {
        lemma_le_bytes_len(n / 256, (k - 1) as nat);
    }
}

fn push_u64_le(out: &mut Vec<u8>, n: u64)
    ensures
        final(out)@ == old(out)@ + le_bytes(n as nat, 8),
{
    let mut x: u64 = n;
    let mut i: usize = 0;
    while i < 8
        invariant
            i <= 8,
            old(out)@ + le_bytes(n as nat, 8) == out@ + le_bytes(x as nat, (8 - i) as nat),
        decreases 8 - i,
    {
        let ghost before = out@;
        out.push((x % 256) as u8);
        assert(before + le_bytes(x as nat, (8 - i) as nat) =~= out@ + le_bytes(
            (x / 256) as nat,
            (8 - i - 1) as nat,
        ));
        x = x / 256;
        i += 1;
    }
    assert(le_bytes(x as nat, 0) =~= Seq::<u8>::empty());
    assert(out@ + Seq::<u8>::empty() =~= out@);
}

fn push_all(out: &mut Vec<u8>, bytes: &Vec<u8>)
    ensures
        final(out)@ == old(out)@ + bytes@,
{
    let mut i: usize = 0;
    while i < bytes.len()
        invariant
            i <= bytes@.len(),
            out@ == old(out)@ + bytes@.take(i as int),
        decreases bytes@.len() - i,
    {
        out.push(bytes[i]);
        assert(bytes@.take(i + 1) =~= bytes@.take(i as int).push(bytes@[i as int]));
        i += 1;
    }
    assert(bytes@.take(bytes@.len() as int) =~= bytes@);
}

impl Value {
    /// Appends the value's wire bytes to `out`, failing when they exceed
    /// `bound`, if one is given.
    pub fn write_bcs_bytes(&self, out: &mut Vec<u8>, bound: Option<u64>) -> (r: Result<(), ExecutionError>)
        ensures
            match bound {
                Some(limit) if value_bytes(*self).len() > limit => r == Err::<(), ExecutionError>(
                    error_of(
                        ExecutionErrorKind::SizeLimitExceeded {
                            limit,
                            value_size: saturate(value_bytes(*self).len()),
                        },
                    ),
                ) && *final(out) == *old(out),
                _ => r == Ok::<(), ExecutionError>(()) && final(out)@ == old(out)@ + value_bytes(*self),
            },
    {
        proof {
            lemma_le_bytes_len(0, 8);
            assert forall|n: nat| #[trigger] le_bytes(n, 8).len() == 8 by {
                lemma_le_bytes_len(n, 8);
            }
        }
        let (size, fits) = match self {
            Value::Raw(_, bytes) => (bytes.len() as u64, true),
            Value::Object(obj) => match &obj.contents {
                ObjectContents::Coin(c) => match (c.id.len() as u64).checked_add(8) {
                    Some(s) => (s, true),
                    None => (u64::MAX, false),
                },
                ObjectContents::Raw(bytes) => (bytes.len() as u64, true),
            },
            Value::Receiving(id, _, _) => match (id.len() as u64).checked_add(8) {
                Some(s) => (s, true),
                None => (u64::MAX, false),
            },
        };
        assert(size == saturate(value_bytes(*self).len()));
        assert(fits <==> value_bytes(*self).len() <= u64::MAX);
        if let Some(limit) = bound {
            if size > limit || !fits {
                return Err(
                    ExecutionError::from_kind(
                        ExecutionErrorKind::SizeLimitExceeded { limit, value_size: size },
                    ),
                );
            }
        }
        match self {
            Value::Raw(_, bytes) => push_all(out, bytes),
            Value::Object(obj) => match &obj.contents {
                ObjectContents::Coin(c) => {
                    push_all(out, &c.id);
                    push_u64_le(out, c.balance);
                    assert(old(out)@ + c.id@ + le_bytes(c.balance as nat, 8) =~= old(out)@ + (c.id@
                        + le_bytes(c.balance as nat, 8)));
                },
                ObjectContents::Raw(bytes) => push_all(out, bytes),
            },
            Value::Receiving(id, version, _) => {
                push_all(out, id);
                push_u64_le(out, *version);
                assert(old(out)@ + id@ + le_bytes(*version as nat, 8) =~= old(out)@ + (id@
                    + le_bytes(*version as nat, 8)));
            },
        }
        Ok(())
    }
}

} // verus!
