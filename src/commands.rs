use vstd::prelude::*;
use crate::bound::{amplification_bound, spec_amplification_bound};
use crate::coins::{merge_coins, merge_outcome, sum};
use crate::config::{ExecutionMode, ProtocolConfig};
use crate::errors::{command_argument_error, error_of, CommandArgumentError, ExecutionError, ExecutionErrorKind};
use crate::slots::{Arg, ArgumentTable, Slot};
use crate::types::{same_type, AbilitySet, MoveType};
use crate::value::{
    check_param_type, param_check, saturate, used_in_non_entry, value_bytes, Coin, ObjectContents,
    ObjectValue, RawValueType, Value,
};
use crate::wire::{bcs_u64, le_value, uleb_encode, write_uleb128};

verus! {

/// What each value taken by a command must be.
pub enum ElemCheck {
    /// An amount: the eight bytes of a `u64`, at argument 1.
    Amount,
    /// An object, at argument `base` plus its position.
    Object { base: u16 },
    /// An element of a vector of type `elem`, at its position.
    Element { config: ProtocolConfig, mode: ExecutionMode, elem: MoveType, abilities: AbilitySet },
}

/// The argument index that the value at position `k` is reported under.
pub open spec fn elem_index(c: ElemCheck, k: int) -> u16 {
    match c {
        ElemCheck::Amount => 1,
        ElemCheck::Object { base } => (base + k) as u16,
        ElemCheck::Element { .. } => k as u16,
    }
}

/// The size bound on the elements of a vector of `elem`.
pub open spec fn elem_bound(
    config: ProtocolConfig,
    mode: ExecutionMode,
    elem: MoveType,
    abilities: AbilitySet,
) -> Result<Option<u64>, ExecutionError> {
    if config.max_ptb_value_size_v2 && !abilities.copy {
        Ok(None)
    } else {
        spec_amplification_bound(config, mode, elem)
    }
}

/// Whether the value's bytes fit the bound.
pub open spec fn size_check(bound: Option<u64>, v: Value) -> Result<(), ExecutionError> {
    match bound {
        Some(limit) => if value_bytes(v).len() > limit {
            Err(
                error_of(
                    ExecutionErrorKind::SizeLimitExceeded {
                        limit,
                        value_size: saturate(value_bytes(v).len()),
                    },
                ),
            )
        } else {
            Ok(())
        },
        None => Ok(()),
    }
}

/// The check a taken value must pass.
pub open spec fn elem_check(c: ElemCheck, v: Value, k: int) -> Result<(), ExecutionError> {
    match c {
        ElemCheck::Amount => match v {
            Value::Raw(_, b) => if b@.len() == 8 {
                Ok(())
            } else {
                Err(command_argument_error(CommandArgumentError::InvalidBCSBytes, 1))
            },
            _ => Err(command_argument_error(CommandArgumentError::TypeMismatch, 1)),
        },
        ElemCheck::Object { base } => match v {
            Value::Object(_) => Ok(()),
            _ => Err(command_argument_error(CommandArgumentError::TypeMismatch, (base + k) as u16)),
        },
        ElemCheck::Element { config, mode, elem, abilities } => match param_check(
            config,
            mode,
            k as u16,
            v,
            elem,
        ) {
            Err(e) => Err(e),
            Ok(_) => match elem_bound(config, mode, elem, abilities) {
                Err(e) => Err(e),
                Ok(b) => size_check(b, v),
            },
        },
    }
}

/// Moves the value out of the slot that `arg` names; `table` resolves the
/// argument, `slots` is what the slots hold now.
pub open spec fn take_step(table: ArgumentTable, slots: Seq<Slot>, arg: Arg, idx: u16) -> Result<
    (Seq<Slot>, Value),
    ExecutionError,
> {
    match table.spec_resolve(arg) {
        None => Err(table.unresolved_error(arg, idx)),
        Some(s) => match slots[s as int].value {
            None => Err(command_argument_error(CommandArgumentError::InvalidValueUsage, idx)),
            Some(v) => Ok((slots.update(s as int, Slot { value: None, borrowed: false }), v)),
        },
    }
}

/// Moves out the values at `args[k..]` in order, checking each as it comes:
/// the slots afterwards and the values, or the first error.
pub open spec fn take_all(
    table: ArgumentTable,
    slots: Seq<Slot>,
    args: Seq<Arg>,
    k: int,
    c: ElemCheck,
) -> Result<(Seq<Slot>, Seq<Value>), ExecutionError>
    decreases args.len() - k,
{
    if k < 0 || k >= args.len() {
        Ok((slots, Seq::empty()))
    } else {
        match take_step(table, slots, args[k], elem_index(c, k)) {
            Err(e) => Err(e),
            Ok((next, v)) => match elem_check(c, v, k) {
                Err(e) => Err(e),
                Ok(_) => match take_all(table, next, args, k + 1, c) {
                    Ok((fin, vs)) => Ok((fin, seq![v] + vs)),
                    Err(e) => Err(e),
                },
            },
        }
    }
}

proof fn lemma_take_all_frame(table: ArgumentTable, slots: Seq<Slot>, args: Seq<Arg>, k: int, c: ElemCheck)
    requires
        0 <= k <= args.len(),
        table.wf(),
        slots.len() == table.slots@.len(),
    ensures
        take_all(table, slots, args, k, c) matches Ok((fin, vs)) ==> fin.len() == slots.len()
            && vs.len() == args.len() - k && forall|x: int|
            0 <= x < slots.len() && (#[trigger] slots[x]).value is None ==> fin[x] == slots[x],
    decreases args.len() - k,
{
    if k < args.len() {
        if let Ok((next, v)) = take_step(table, slots, args[k], elem_index(c, k)) {
            lemma_take_all_frame(table, next, args, k + 1, c);
            let s = table.spec_resolve(args[k])->Some_0;
            assert forall|x: int| 0 <= x < slots.len() && (#[trigger] slots[x]).value is None implies next[x] == slots[x] by {
                assert(x != s);
            }
        }
    }
}

/// Like `take_all`, with the values taken so far in front.
pub open spec fn taken_with(
    prefix: Seq<Value>,
    rest: Result<(Seq<Slot>, Seq<Value>), ExecutionError>,
) -> Result<(Seq<Slot>, Seq<Value>), ExecutionError> {
    match rest {
        Ok((fin, vs)) => Ok((fin, prefix + vs)),
        Err(e) => Err(e),
    }
}

/// The coin an object value holds.
pub open spec fn coin_of(v: Value) -> Option<Coin> {
    match v {
        Value::Object(o) => match o.contents {
            ObjectContents::Coin(c) => Some(c),
            _ => None,
        },
        _ => None,
    }
}

/// The object a value is.
pub open spec fn object_of(v: Value) -> ObjectValue {
    match v {
        Value::Object(o) => o,
        _ => arbitrary(),
    }
}

pub open spec fn objects_of(vals: Seq<Value>) -> Seq<ObjectValue> {
    Seq::new(vals.len(), |i: int| object_of(vals[i]))
}

/// The amount a raw value of eight bytes stands for.
pub open spec fn amount_val(v: Value) -> u64 {
    match v {
        Value::Raw(_, b) => le_value(b@) as u64,
        _ => 0,
    }
}

pub open spec fn amounts_of(vals: Seq<Value>) -> Seq<u64> {
    Seq::new(vals.len(), |i: int| amount_val(vals[i]))
}

/// The coin object `v` with its balance set to `b`.
pub open spec fn with_balance(v: Value, b: nat) -> Value {
    match v {
        Value::Object(o) => Value::Object(
            ObjectValue {
                type_: o.type_,
                has_public_transfer: o.has_public_transfer,
                used_in_non_entry_move_call: o.used_in_non_entry_move_call,
                contents: match o.contents {
                    ObjectContents::Coin(c) => ObjectContents::Coin(
                        Coin { id: c.id, balance: b as u64 },
                    ),
                    other => other,
                },
            },
        ),
        other => other,
    }
}

/// `v` is a new coin object of balance `amount` and id `id`, of a type equal
/// to `ty`.
pub open spec fn new_coin_is(v: Value, amount: u64, id: Seq<u8>, ty: MoveType) -> bool {
    match v {
        Value::Object(o) => match o.contents {
            ObjectContents::Coin(c) => c.balance == amount && c.id@ == id && same_type(o.type_, ty),
            _ => false,
        },
        _ => false,
    }
}

/// The outcome of a split: the coin slot's content afterwards is given with
/// the new coins, or the error.
pub open spec fn split_post(
    before: ArgumentTable,
    after: ArgumentTable,
    coin_arg: Arg,
    amount_args: Seq<Arg>,
    fresh_ids: Seq<Vec<u8>>,
    r: Result<Seq<Value>, ExecutionError>,
) -> bool {
    match before.spec_resolve(coin_arg) {
        None => r == Err::<Seq<Value>, ExecutionError>(before.unresolved_error(coin_arg, 0)),
        Some(s) => match before.slots@[s as int].value {
            None => r == Err::<Seq<Value>, ExecutionError>(
                command_argument_error(CommandArgumentError::InvalidValueUsage, 0),
            ),
            Some(v) => match coin_of(v) {
                None => r == Err::<Seq<Value>, ExecutionError>(
                    command_argument_error(CommandArgumentError::TypeMismatch, 0),
                ),
                Some(c) => match take_all(
                    before,
                    before.slots@.update(s as int, Slot { value: None, borrowed: true }),
                    amount_args,
                    0,
                    ElemCheck::Amount,
                ) {
                    Err(e) => r == Err::<Seq<Value>, ExecutionError>(e),
                    Ok((fin, vals)) => if sum(amounts_of(vals)) > c.balance {
                        &&& r == Err::<Seq<Value>, ExecutionError>(
                            error_of(ExecutionErrorKind::InsufficientCoinBalance),
                        )
                        &&& after.slots@ == fin.update(s as int, Slot { value: Some(v), borrowed: false })
                    } else {
                        &&& r matches Ok(coins)
                        &&& coins.len() == amount_args.len()
                        &&& forall|i: int|
                            0 <= i < coins.len() ==> new_coin_is(
                                #[trigger] coins[i],
                                amounts_of(vals)[i],
                                fresh_ids[i]@,
                                object_of(v).type_,
                            )
                        &&& after.slots@ == fin.update(
                            s as int,
                            Slot {
                                value: Some(with_balance(v, (c.balance - sum(amounts_of(vals))) as nat)),
                                borrowed: false,
                            },
                        )
                    },
                },
            },
        },
    }
}

pub open spec fn seq_result(r: Result<Vec<Value>, ExecutionError>) -> Result<Seq<Value>, ExecutionError> {
    match r {
        Ok(v) => Ok(v@),
        Err(e) => Err(e),
    }
}

/// Splits one new coin per amount off the coin at `coin_arg`; the coin goes
/// back to its slot with the amounts taken off. Each new coin has the source
/// coin's type and takes the next of `fresh_ids`. Amounts that add up to more
/// than the balance split nothing and leave the coin as it was.
pub fn execute_split_coins(
    table: &mut ArgumentTable,
    coin_arg: Arg,
    amount_args: &Vec<Arg>,
    fresh_ids: Vec<Vec<u8>>,
) -> (r: Result<Vec<Value>, ExecutionError>)
    requires
        old(table).wf(),
        fresh_ids@.len() == amount_args@.len(),
    ensures
        final(table).wf(),
        final(table).num_inputs == old(table).num_inputs,
        final(table).results == old(table).results,
        split_post(*old(table), *final(table), coin_arg, amount_args@, fresh_ids@, seq_result(r)),
{
    let ghost t0 = *old(table);
    let value = match table.borrow_mut(0, coin_arg) {
        Ok(v) => v,
        Err(e) => return Err(e),
    };
    let ghost s = t0.spec_resolve(coin_arg)->Some_0;
    let ghost v0 = value;
    let mut obj = match value {
        Value::Object(o) => o,
        _ => return Err(ExecutionError::command_argument(CommandArgumentError::TypeMismatch, 0)),
    };
    match &obj.contents {
        ObjectContents::Coin(_) => {},
        _ => return Err(ExecutionError::command_argument(CommandArgumentError::TypeMismatch, 0)),
    }
    let ghost slots1 = table.slots@;
    let ghost mut vals: Seq<Value> = Seq::empty();
    let mut amounts: Vec<u64> = Vec::new();
    let mut i: usize = 0;
    while i < amount_args.len()
        invariant
            t0 == *old(table),
            t0.wf(),
            table.wf(),
            table.num_inputs == t0.num_inputs,
            table.results == t0.results,
            table.slots@.len() == t0.slots@.len(),
            t0.spec_resolve(coin_arg) == Some(s),
            s < t0.slots@.len(),
            t0.slots@[s as int].value == Some(v0),
            v0 == Value::Object(obj),
            coin_of(v0) is Some,
            slots1 == t0.slots@.update(s as int, Slot { value: None, borrowed: true }),
            i <= amount_args@.len(),
            vals.len() == i,
            amounts@ =~= amounts_of(vals),
            take_all(t0, slots1, amount_args@, 0, ElemCheck::Amount) == taken_with(
                vals,
                take_all(t0, table.slots@, amount_args@, i as int, ElemCheck::Amount),
            ),
        decreases amount_args@.len() - i,
    {
        let ghost cur = table.slots@;
        proof {
            assert(take_all(t0, cur, amount_args@, i as int, ElemCheck::Amount) == match take_step(
                t0,
                cur,
                amount_args@[i as int],
                1,
            ) {
                Err(e) => Err(e),
                Ok((next, v)) => match elem_check(ElemCheck::Amount, v, i as int) {
                    Err(e) => Err(e),
                    Ok(_) => match take_all(t0, next, amount_args@, i + 1, ElemCheck::Amount) {
                        Ok((fin, vs)) => Ok((fin, seq![v] + vs)),
                        Err(e) => Err(e),
                    },
                },
            });
        }
        let v = match table.by_value(1, amount_args[i]) {
            Ok(v) => v,
            Err(e) => return Err(e),
        };
        let n = match &v {
            Value::Raw(_, bytes) => match bcs_u64(bytes) {
                Some(n) => n,
                None => return Err(ExecutionError::command_argument(CommandArgumentError::InvalidBCSBytes, 1)),
            },
            _ => return Err(ExecutionError::command_argument(CommandArgumentError::TypeMismatch, 1)),
        };
        proof {
            let nv = vals.push(v);
            assert(seq![v] + take_all(t0, table.slots@, amount_args@, i + 1, ElemCheck::Amount)->Ok_0.1
                == seq![v] + take_all(t0, table.slots@, amount_args@, i + 1, ElemCheck::Amount)->Ok_0.1);
            match take_all(t0, table.slots@, amount_args@, i + 1, ElemCheck::Amount) {
                Ok((fin, vs)) => {
                    assert(vals + (seq![v] + vs) =~= nv + vs);
                },
                Err(_) => {},
            }
            vals = nv;
        }
        amounts.push(n);
        i += 1;
    }
    proof {
        assert(taken_with(vals, Ok((table.slots@, Seq::empty()))) == Ok::<(Seq<Slot>, Seq<Value>), ExecutionError>((table.slots@, vals + Seq::empty())));
        assert(vals + Seq::<Value>::empty() =~= vals);
        lemma_take_all_frame(t0, slots1, amount_args@, 0, ElemCheck::Amount);
        assert(take_all(t0, table.slots@, amount_args@, i as int, ElemCheck::Amount) == Ok::<
            (Seq<Slot>, Seq<Value>),
            ExecutionError,
        >((table.slots@, Seq::empty())));
        assert(take_all(t0, slots1, amount_args@, 0, ElemCheck::Amount) == Ok::<
            (Seq<Slot>, Seq<Value>),
            ExecutionError,
        >((table.slots@, vals)));
        assert(slots1[s as int].value is None);
        assert(table.slots@[s as int] == slots1[s as int]);
        assert(table.slots@[s as int].borrowed);
        assert(table.spec_resolve(coin_arg) == Some(s));
    }
    let mut coin = match obj.contents {
        ObjectContents::Coin(c) => c,
        _ => return Err(ExecutionError::command_argument(CommandArgumentError::TypeMismatch, 0)),
    };
    match coin.split_all(&amounts, fresh_ids) {
        Ok(new_coins) => {
            let mut out: Vec<Value> = Vec::new();
            let mut rest = new_coins;
            let ghost all = rest@;
            let mut rev: Vec<Value> = Vec::new();
            while rest.len() > 0
                invariant
                    obj.type_ == object_of(v0).type_,
                    rest@.len() + rev@.len() == all.len(),
                    forall|k: int| 0 <= k < rest@.len() ==> rest@[k] == all[k],
                    forall|k: int|
                        0 <= k < rev@.len() ==> new_coin_is(
                            #[trigger] rev@[k],
                            all[all.len() - 1 - k].balance,
                            all[all.len() - 1 - k].id@,
                            obj.type_,
                        ),
                decreases rest@.len(),
            {
                let c = rest.pop().unwrap();
                rev.push(
                    Value::Object(
                        ObjectValue {
                            type_: obj.type_.duplicate(),
                            has_public_transfer: obj.has_public_transfer,
                            used_in_non_entry_move_call: obj.used_in_non_entry_move_call,
                            contents: ObjectContents::Coin(c),
                        },
                    ),
                );
            }
            while rev.len() > 0
                invariant
                    out@.len() + rev@.len() == all.len(),
                    forall|k: int|
                        0 <= k < rev@.len() ==> new_coin_is(
                            #[trigger] rev@[k],
                            all[all.len() - 1 - k].balance,
                            all[all.len() - 1 - k].id@,
                            obj.type_,
                        ),
                    forall|k: int|
                        0 <= k < out@.len() ==> new_coin_is(#[trigger] out@[k], all[k].balance, all[k].id@, obj.type_),
                decreases rev@.len(),
            {
                let v = rev.pop().unwrap();
                out.push(v);
            }
            obj.contents = ObjectContents::Coin(coin);
            match table.restore(coin_arg, Value::Object(obj)) {
                Ok(()) => {},
                Err(e) => return Err(e),
            }
            Ok(out)
        },
        Err(e) => {
            obj.contents = ObjectContents::Coin(coin);
            match table.restore(coin_arg, Value::Object(obj)) {
                Ok(()) => {},
                Err(e2) => return Err(e2),
            }
            Err(e)
        },
    }
}

/// The outcome of a merge.
pub open spec fn merge_post(
    before: ArgumentTable,
    after: ArgumentTable,
    target_arg: Arg,
    coin_args: Seq<Arg>,
    r: Result<(), ExecutionError>,
) -> bool {
    match before.spec_resolve(target_arg) {
        None => r == Err::<(), ExecutionError>(before.unresolved_error(target_arg, 0)),
        Some(s) => match before.slots@[s as int].value {
            None => r == Err::<(), ExecutionError>(
                command_argument_error(CommandArgumentError::InvalidValueUsage, 0),
            ),
            Some(v) => match coin_of(v) {
                None => r == Err::<(), ExecutionError>(
                    command_argument_error(CommandArgumentError::TypeMismatch, 0),
                ),
                Some(c) => match take_all(
                    before,
                    before.slots@.update(s as int, Slot { value: None, borrowed: true }),
                    coin_args,
                    0,
                    ElemCheck::Object { base: 1 },
                ) {
                    Err(e) => r == Err::<(), ExecutionError>(e),
                    Ok((fin, vals)) => match merge_outcome(
                        object_of(v).type_,
                        c.balance as nat,
                        objects_of(vals),
                        0,
                    ) {
                        Err(e) => r == Err::<(), ExecutionError>(e),
                        Ok(b) => {
                            &&& r == Ok::<(), ExecutionError>(())
                            &&& after.slots@ == fin.update(
                                s as int,
                                Slot { value: Some(with_balance(v, b)), borrowed: false },
                            )
                        },
                    },
                },
            },
        },
    }
}

/// Merges the coins at `coin_args` into the coin at `target_arg`, which goes
/// back to its slot; the merged coins are consumed.
pub fn execute_merge_coins(table: &mut ArgumentTable, target_arg: Arg, coin_args: &Vec<Arg>) -> (r:
    Result<(), ExecutionError>)
    requires
        old(table).wf(),
        coin_args@.len() < u16::MAX,
    ensures
        final(table).wf(),
        final(table).num_inputs == old(table).num_inputs,
        final(table).results == old(table).results,
        merge_post(*old(table), *final(table), target_arg, coin_args@, r),
{
    let ghost t0 = *old(table);
    let value = match table.borrow_mut(0, target_arg) {
        Ok(v) => v,
        Err(e) => return Err(e),
    };
    let ghost s = t0.spec_resolve(target_arg)->Some_0;
    let ghost v0 = value;
    let mut target = match value {
        Value::Object(o) => o,
        _ => return Err(ExecutionError::command_argument(CommandArgumentError::TypeMismatch, 0)),
    };
    match &target.contents {
        ObjectContents::Coin(_) => {},
        _ => return Err(ExecutionError::command_argument(CommandArgumentError::TypeMismatch, 0)),
    }
    let ghost slots1 = table.slots@;
    let ghost mut vals: Seq<Value> = Seq::empty();
    let ghost c = ElemCheck::Object { base: 1 };
    let mut coins: Vec<ObjectValue> = Vec::new();
    let mut i: usize = 0;
    while i < coin_args.len()
        invariant
            t0 == *old(table),
            t0.wf(),
            c == (ElemCheck::Object { base: 1 }),
            coin_args@.len() < u16::MAX,
            table.wf(),
            table.num_inputs == t0.num_inputs,
            table.results == t0.results,
            table.slots@.len() == t0.slots@.len(),
            t0.spec_resolve(target_arg) == Some(s),
            s < t0.slots@.len(),
            t0.slots@[s as int].value == Some(v0),
            v0 == Value::Object(target),
            coin_of(v0) is Some,
            slots1 == t0.slots@.update(s as int, Slot { value: None, borrowed: true }),
            i <= coin_args@.len(),
            vals.len() == i,
            coins@ =~= objects_of(vals),
            take_all(t0, slots1, coin_args@, 0, c) == taken_with(
                vals,
                take_all(t0, table.slots@, coin_args@, i as int, c),
            ),
        decreases coin_args@.len() - i,
    {
        let ghost cur = table.slots@;
        let idx = (i + 1) as u16;
        proof {
            assert(take_all(t0, cur, coin_args@, i as int, c) == match take_step(
                t0,
                cur,
                coin_args@[i as int],
                idx,
            ) {
                Err(e) => Err(e),
                Ok((next, v)) => match elem_check(c, v, i as int) {
                    Err(e) => Err(e),
                    Ok(_) => match take_all(t0, next, coin_args@, i + 1, c) {
                        Ok((fin, vs)) => Ok((fin, seq![v] + vs)),
                        Err(e) => Err(e),
                    },
                },
            });
        }
        let v = match table.by_value(idx, coin_args[i]) {
            Ok(v) => v,
            Err(e) => return Err(e),
        };
        let ghost gv = v;
        let o = match v {
            Value::Object(o) => o,
            _ => return Err(ExecutionError::command_argument(CommandArgumentError::TypeMismatch, idx)),
        };
        proof {
            let nv = vals.push(gv);
            match take_all(t0, table.slots@, coin_args@, i + 1, c) {
                Ok((fin, vs)) => {
                    assert(vals + (seq![gv] + vs) =~= nv + vs);
                },
                Err(_) => {},
            }
            vals = nv;
        }
        coins.push(o);
        assert(coins@ =~= objects_of(vals));
        i += 1;
    }
    proof {
        lemma_take_all_frame(t0, slots1, coin_args@, 0, c);
        assert(take_all(t0, table.slots@, coin_args@, i as int, c) == Ok::<
            (Seq<Slot>, Seq<Value>),
            ExecutionError,
        >((table.slots@, Seq::empty())));
        assert(vals + Seq::<Value>::empty() =~= vals);
        assert(take_all(t0, slots1, coin_args@, 0, c) == Ok::<
            (Seq<Slot>, Seq<Value>),
            ExecutionError,
        >((table.slots@, vals)));
        assert(slots1[s as int].value is None);
        assert(table.slots@[s as int] == slots1[s as int]);
        assert(table.spec_resolve(target_arg) == Some(s));
    }
    match merge_coins(&mut target, &coins) {
        Ok(()) => {},
        Err(e) => return Err(e),
    }
    match table.restore(target_arg, Value::Object(target)) {
        Ok(()) => {},
        Err(e) => return Err(e),
    }
    Ok(())
}

/// Every object allows public transfer.
pub open spec fn all_public(objs: Seq<ObjectValue>) -> bool {
    forall|i: int| 0 <= i < objs.len() ==> (#[trigger] objs[i]).has_public_transfer
}

/// The outcome of a transfer: the objects and the recipient's address, or the
/// error.
pub open spec fn transfer_post(
    before: ArgumentTable,
    after: ArgumentTable,
    obj_args: Seq<Arg>,
    addr_arg: Arg,
    r: Result<(Seq<ObjectValue>, Seq<u8>), ExecutionError>,
) -> bool {
    match take_all(before, before.slots@, obj_args, 0, ElemCheck::Object { base: 0 }) {
        Err(e) => r == Err::<(Seq<ObjectValue>, Seq<u8>), ExecutionError>(e),
        Ok((fin, vals)) => match take_step(before, fin, addr_arg, obj_args.len() as u16) {
            Err(e) => r == Err::<(Seq<ObjectValue>, Seq<u8>), ExecutionError>(e),
            Ok((fin2, a)) => match a {
                Value::Raw(_, b) => if b@.len() != 32 {
                    r == Err::<(Seq<ObjectValue>, Seq<u8>), ExecutionError>(
                        command_argument_error(
                            CommandArgumentError::InvalidBCSBytes,
                            obj_args.len() as u16,
                        ),
                    )
                } else if all_public(objects_of(vals)) {
                    r == Ok::<(Seq<ObjectValue>, Seq<u8>), ExecutionError>((objects_of(vals), b@))
                        && after.slots@ == fin2
                } else {
                    r == Err::<(Seq<ObjectValue>, Seq<u8>), ExecutionError>(
                        error_of(ExecutionErrorKind::InvalidTransferObject),
                    )
                },
                _ => r == Err::<(Seq<ObjectValue>, Seq<u8>), ExecutionError>(
                    command_argument_error(CommandArgumentError::TypeMismatch, obj_args.len() as u16),
                ),
            },
        },
    }
}

pub open spec fn transfer_result(r: Result<(Vec<ObjectValue>, Vec<u8>), ExecutionError>) -> Result<
    (Seq<ObjectValue>, Seq<u8>),
    ExecutionError,
> {
    match r {
        Ok((o, a)) => Ok((o@, a@)),
        Err(e) => Err(e),
    }
}

/// Takes the objects at `obj_args` and the address at `addr_arg` for a
/// transfer. Every object must allow public transfer. Gives the objects and the
/// recipient's address.
pub fn execute_transfer_objects(table: &mut ArgumentTable, obj_args: &Vec<Arg>, addr_arg: Arg) -> (r:
    Result<(Vec<ObjectValue>, Vec<u8>), ExecutionError>)
    requires
        old(table).wf(),
        obj_args@.len() < u16::MAX,
    ensures
        final(table).wf(),
        final(table).num_inputs == old(table).num_inputs,
        final(table).results == old(table).results,
        transfer_post(*old(table), *final(table), obj_args@, addr_arg, transfer_result(r)),
{
    let ghost t0 = *old(table);
    let ghost c = ElemCheck::Object { base: 0 };
    let ghost mut vals: Seq<Value> = Seq::empty();
    let mut objs: Vec<ObjectValue> = Vec::new();
    let mut i: usize = 0;
    while i < obj_args.len()
        invariant
            t0 == *old(table),
            t0.wf(),
            c == (ElemCheck::Object { base: 0 }),
            obj_args@.len() < u16::MAX,
            table.wf(),
            table.num_inputs == t0.num_inputs,
            table.results == t0.results,
            table.slots@.len() == t0.slots@.len(),
            i <= obj_args@.len(),
            vals.len() == i,
            objs@ =~= objects_of(vals),
            take_all(t0, t0.slots@, obj_args@, 0, c) == taken_with(
                vals,
                take_all(t0, table.slots@, obj_args@, i as int, c),
            ),
        decreases obj_args@.len() - i,
    {
        let ghost cur = table.slots@;
        let idx = i as u16;
        proof {
            assert(take_all(t0, cur, obj_args@, i as int, c) == match take_step(
                t0,
                cur,
                obj_args@[i as int],
                idx,
            ) {
                Err(e) => Err(e),
                Ok((next, v)) => match elem_check(c, v, i as int) {
                    Err(e) => Err(e),
                    Ok(_) => match take_all(t0, next, obj_args@, i + 1, c) {
                        Ok((fin, vs)) => Ok((fin, seq![v] + vs)),
                        Err(e) => Err(e),
                    },
                },
            });
        }
        let v = match table.by_value(idx, obj_args[i]) {
            Ok(v) => v,
            Err(e) => return Err(e),
        };
        let ghost gv = v;
        let o = match v {
            Value::Object(o) => o,
            _ => return Err(ExecutionError::command_argument(CommandArgumentError::TypeMismatch, idx)),
        };
        proof {
            let nv = vals.push(gv);
            match take_all(t0, table.slots@, obj_args@, i + 1, c) {
                Ok((fin, vs)) => {
                    assert(vals + (seq![gv] + vs) =~= nv + vs);
                },
                Err(_) => {},
            }
            vals = nv;
        }
        objs.push(o);
        assert(objs@ =~= objects_of(vals));
        i += 1;
    }
    proof {
        assert(take_all(t0, table.slots@, obj_args@, i as int, c) == Ok::<
            (Seq<Slot>, Seq<Value>),
            ExecutionError,
        >((table.slots@, Seq::empty())));
        assert(vals + Seq::<Value>::empty() =~= vals);
    }
    let idx = obj_args.len() as u16;
    let addr = match table.by_value(idx, addr_arg) {
        Ok(Value::Raw(_, bytes)) => {
            if bytes.len() != 32 {
                return Err(ExecutionError::command_argument(CommandArgumentError::InvalidBCSBytes, idx));
            }
            bytes
        },
        Ok(_) => return Err(ExecutionError::command_argument(CommandArgumentError::TypeMismatch, idx)),
        Err(e) => return Err(e),
    };
    if !publicly_transferable(&objs) {
        return Err(ExecutionError::from_kind(ExecutionErrorKind::InvalidTransferObject));
    }
    Ok((objs, addr))
}

fn publicly_transferable(objs: &Vec<ObjectValue>) -> (r: bool)
    ensures
        r == all_public(objs@),
{
    let mut k: usize = 0;
    while k < objs.len()
        invariant
            k <= objs@.len(),
            forall|j: int| 0 <= j < k ==> (#[trigger] objs@[j]).has_public_transfer,
        decreases objs@.len() - k,
    {
        if !objs[k].has_public_transfer {
            return false;
        }
        k += 1;
    }
    true
}

/// The wire bytes of values, one after another.
pub open spec fn concat_bytes(vals: Seq<Value>) -> Seq<u8>
    decreases vals.len(),
{
    if vals.len() == 0 {
        Seq::empty()
    } else {
        concat_bytes(vals.drop_last()) + value_bytes(vals.last())
    }
}

/// Some value was produced by a call to a non-entry function.
pub open spec fn any_used_in_non_entry(vals: Seq<Value>) -> bool {
    exists|i: int| 0 <= i < vals.len() && used_in_non_entry(#[trigger] vals[i])
}

/// `v` is a raw vector value of element type `elem`, with the given abilities,
/// non-entry mark and bytes.
pub open spec fn vector_is(v: Value, elem: MoveType, abilities: AbilitySet, used: bool, bytes: Seq<u8>) -> bool {
    match v {
        Value::Raw(RawValueType::Loaded { ty, abilities: a, used_in_non_entry_move_call: u }, b) => {
            &&& match ty {
                MoveType::Vector(e) => same_type(*e, elem),
                _ => false,
            }
            &&& a == abilities
            &&& u == used
            &&& b@ == bytes
        },
        _ => false,
    }
}

/// The outcome of building a vector of element type `elem`.
pub open spec fn make_vec_post(
    config: ProtocolConfig,
    mode: ExecutionMode,
    before: ArgumentTable,
    after: ArgumentTable,
    elem: MoveType,
    args: Seq<Arg>,
    elem_abilities: AbilitySet,
    vec_abilities: AbilitySet,
    r: Result<Value, ExecutionError>,
) -> bool {
    match take_all(
        before,
        before.slots@,
        args,
        0,
        ElemCheck::Element { config, mode, elem, abilities: elem_abilities },
    ) {
        Err(e) => r == Err::<Value, ExecutionError>(e),
        Ok((fin, vals)) => {
            &&& after.slots@ == fin
            &&& r matches Ok(v)
            &&& vector_is(
                v,
                elem,
                vec_abilities,
                any_used_in_non_entry(vals),
                uleb_encode(args.len() as nat) + concat_bytes(vals),
            )
        },
    }
}

/// Builds a vector from the values at `args`, whose element type is
/// `elem_ty`. Each value must have that type; each is bounded in size when
/// the element type can be copied. The result is a raw value of the vector
/// type with abilities `vec_abilities`, produced by a non-entry call exactly
/// when one of its elements was.
pub fn execute_make_move_vec(
    config: &ProtocolConfig,
    mode: &ExecutionMode,
    table: &mut ArgumentTable,
    elem_ty: &MoveType,
    args: &Vec<Arg>,
    elem_abilities: AbilitySet,
    vec_abilities: AbilitySet,
) -> (r: Result<Value, ExecutionError>)
    requires
        old(table).wf(),
        config.max_move_value_depth > 0,
        args@.len() <= u16::MAX + 1,
    ensures
        final(table).wf(),
        final(table).num_inputs == old(table).num_inputs,
        final(table).results == old(table).results,
        make_vec_post(
            *config,
            *mode,
            *old(table),
            *final(table),
            *elem_ty,
            args@,
            elem_abilities,
            vec_abilities,
            r,
        ),
{
    let ghost t0 = *old(table);
    let ghost c = ElemCheck::Element { config: *config, mode: *mode, elem: *elem_ty, abilities: elem_abilities };
    let mut res: Vec<u8> = Vec::new();
    write_uleb128(&mut res, args.len() as u64);
    let ghost header = res@;
    let mut used = false;
    let ghost mut vals: Seq<Value> = Seq::empty();
    let mut i: usize = 0;
    proof {
        assert(res@ == header + concat_bytes(vals));
    }
    while i < args.len()
        invariant
            t0 == *old(table),
            t0.wf(),
            c == (ElemCheck::Element { config: *config, mode: *mode, elem: *elem_ty, abilities: elem_abilities }),
            config.max_move_value_depth > 0,
            args@.len() <= u16::MAX + 1,
            table.wf(),
            table.num_inputs == t0.num_inputs,
            table.results == t0.results,
            table.slots@.len() == t0.slots@.len(),
            0 <= i <= args@.len(),
            vals.len() == i - 0,
            res@ == header + concat_bytes(vals),
            used == ( any_used_in_non_entry(vals)),
            take_all(t0, t0.slots@, args@, 0, c) == taken_with(
                vals,
                take_all(t0, table.slots@, args@, i as int, c),
            ),
        decreases args@.len() - i,
    {
        let ghost cur = table.slots@;
        let idx = i as u16;
        proof {
            assert(take_all(t0, cur, args@, i as int, c) == match take_step(t0, cur, args@[i as int], idx) {
                Err(e) => Err(e),
                Ok((next, v)) => match elem_check(c, v, i as int) {
                    Err(e) => Err(e),
                    Ok(_) => match take_all(t0, next, args@, i + 1, c) {
                        Ok((fin, vs)) => Ok((fin, seq![v] + vs)),
                        Err(e) => Err(e),
                    },
                },
            });
        }
        let value = match table.by_value(idx, args[i]) {
            Ok(v) => v,
            Err(e) => return Err(e),
        };
        match check_param_type(config, mode, idx, &value, elem_ty) {
            Ok(()) => {},
            Err(e) => return Err(e),
        }
        let bound = match amplification_bound(config, mode, elem_ty, elem_abilities) {
            Ok(b) => b,
            Err(e) => return Err(e),
        };
        let ghost before = res@;
        match value.write_bcs_bytes(&mut res, bound) {
            Ok(()) => {},
            Err(e) => return Err(e),
        }
        proof {
            let nv = vals.push(value);
            assert(nv.drop_last() =~= vals);
            assert(before + value_bytes(value) =~= header + concat_bytes(nv));
            match take_all(t0, table.slots@, args@, i + 1, c) {
                Ok((fin, vs)) => {
                    assert(vals + (seq![value] + vs) =~= nv + vs);
                },
                Err(_) => {},
            }
            if used || used_in_non_entry(value) {
                if any_used_in_non_entry(vals) {
                    let w = choose|w: int| 0 <= w < vals.len() && used_in_non_entry(#[trigger] vals[w]);
                    assert(nv[w] == vals[w]);
                }
                if used_in_non_entry(value) {
                    assert(nv[nv.len() - 1] == value);
                }
            }
            if any_used_in_non_entry(nv) {
                let w = choose|w: int| 0 <= w < nv.len() && used_in_non_entry(#[trigger] nv[w]);
                if w < vals.len() {
                    assert(nv[w] == vals[w]);
                }
            }
            vals = nv;
        }
        used = used || value.was_used_in_non_entry_move_call();
        i += 1;
    }
    proof {
        assert(take_all(t0, table.slots@, args@, i as int, c) == Ok::<
            (Seq<Slot>, Seq<Value>),
            ExecutionError,
        >((table.slots@, Seq::empty())));
        assert(vals + Seq::<Value>::empty() =~= vals);
    }
    proof {
        crate::types::lemma_same_type_reflexive(*elem_ty);
    }
    let ty = MoveType::Vector(Box::new(elem_ty.duplicate()));
    Ok(
        Value::Raw(
            RawValueType::Loaded { ty, abilities: vec_abilities, used_in_non_entry_move_call: used },
            res,
        ),
    )
}

/// The outcome of building a vector whose element type is that of its first
/// element, an object.
pub open spec fn make_vec_of_objects_post(
    config: ProtocolConfig,
    mode: ExecutionMode,
    before: ArgumentTable,
    after: ArgumentTable,
    args: Seq<Arg>,
    elem_abilities: AbilitySet,
    vec_abilities: AbilitySet,
    r: Result<Value, ExecutionError>,
) -> bool {
    if args.len() == 0 {
        r == Err::<Value, ExecutionError>(error_of(ExecutionErrorKind::InvariantViolation))
    } else {
        match take_step(before, before.slots@, args[0], 0) {
            Err(e) => r == Err::<Value, ExecutionError>(e),
            Ok((s1, first)) => match first {
                Value::Object(o) => match elem_bound(config, mode, o.type_, elem_abilities) {
                    Err(e) => r == Err::<Value, ExecutionError>(e),
                    Ok(b) => match size_check(b, first) {
                        Err(e) => r == Err::<Value, ExecutionError>(e),
                        Ok(_) => match take_all(
                            before,
                            s1,
                            args,
                            1,
                            ElemCheck::Element { config, mode, elem: o.type_, abilities: elem_abilities },
                        ) {
                            Err(e) => r == Err::<Value, ExecutionError>(e),
                            Ok((fin, vals)) => {
                                &&& after.slots@ == fin
                                &&& r matches Ok(v)
                                &&& vector_is(
                                    v,
                                    o.type_,
                                    vec_abilities,
                                    o.used_in_non_entry_move_call || any_used_in_non_entry(vals),
                                    uleb_encode(args.len() as nat) + value_bytes(first) + concat_bytes(
                                        vals,
                                    ),
                                )
                            },
                        },
                    },
                },
                _ => r == Err::<Value, ExecutionError>(
                    command_argument_error(CommandArgumentError::TypeMismatch, 0),
                ),
            },
        }
    }
}

/// Builds a vector whose element type is not written in the command: the
/// first argument must be an object, whose type is the element type; every
/// other value must have that type.
pub fn execute_make_move_vec_of_objects(
    config: &ProtocolConfig,
    mode: &ExecutionMode,
    table: &mut ArgumentTable,
    args: &Vec<Arg>,
    elem_abilities: AbilitySet,
    vec_abilities: AbilitySet,
) -> (r: Result<Value, ExecutionError>)
    requires
        old(table).wf(),
        config.max_move_value_depth > 0,
        args@.len() <= u16::MAX + 1,
    ensures
        final(table).wf(),
        final(table).num_inputs == old(table).num_inputs,
        final(table).results == old(table).results,
        make_vec_of_objects_post(
            *config,
            *mode,
            *old(table),
            *final(table),
            args@,
            elem_abilities,
            vec_abilities,
            r,
        ),
{
    if args.len() == 0 {
        // a vector without a written type has at least one element
        return Err(ExecutionError::from_kind(ExecutionErrorKind::InvariantViolation));
    }
    let ghost t0 = *old(table);
    let v = match table.by_value(0, args[0]) {
        Ok(v) => v,
        Err(e) => return Err(e),
    };
    let ghost slots1 = table.slots@;
    assert(take_step(t0, t0.slots@, args@[0], 0) == Ok::<(Seq<Slot>, Value), ExecutionError>((slots1, v)));
    let first = match v {
        Value::Object(o) => o,
        _ => return Err(ExecutionError::command_argument(CommandArgumentError::TypeMismatch, 0)),
    };
    let first_bound = match amplification_bound(config, mode, &first.type_, elem_abilities) {
        Ok(b) => b,
        Err(e) => return Err(e),
    };
    let mut res: Vec<u8> = Vec::new();
    write_uleb128(&mut res, args.len() as u64);
    let ghost header = res@;
    let fv = Value::Object(first);
    let ghost fv0 = fv;
    match fv.write_bcs_bytes(&mut res, first_bound) {
        Ok(()) => {},
        Err(e) => return Err(e),
    }
    let first = match fv {
        Value::Object(o) => o,
        _ => return Err(ExecutionError::from_kind(ExecutionErrorKind::InvariantViolation)),
    };
    let ghost c = ElemCheck::Element { config: *config, mode: *mode, elem: first.type_, abilities: elem_abilities };
    let mut used = first.used_in_non_entry_move_call;
    let ghost mut vals: Seq<Value> = Seq::empty();
    let mut i: usize = 1;
    proof {
        assert(header + value_bytes(fv0) + concat_bytes(vals) =~= res@);
    }
    while i < args.len()
        invariant
            t0 == *old(table),
            t0.wf(),
            c == (ElemCheck::Element { config: *config, mode: *mode, elem: first.type_, abilities: elem_abilities }),
            config.max_move_value_depth > 0,
            args@.len() <= u16::MAX + 1,
            table.wf(),
            table.num_inputs == t0.num_inputs,
            table.results == t0.results,
            table.slots@.len() == t0.slots@.len(),
            fv0 == Value::Object(first),
            args@.len() > 0,
            take_step(t0, t0.slots@, args@[0], 0) == Ok::<(Seq<Slot>, Value), ExecutionError>((slots1, fv0)),
            elem_bound(*config, *mode, first.type_, elem_abilities) is Ok,
            size_check(elem_bound(*config, *mode, first.type_, elem_abilities)->Ok_0, fv0) == Ok::<(), ExecutionError>(()),
            1 <= i <= args@.len(),
            vals.len() == i - 1,
            res@ == header + value_bytes(fv0) + concat_bytes(vals),
            used == (first.used_in_non_entry_move_call || any_used_in_non_entry(vals)),
            take_all(t0, slots1, args@, 1, c) == taken_with(
                vals,
                take_all(t0, table.slots@, args@, i as int, c),
            ),
        decreases args@.len() - i,
    {
        let ghost cur = table.slots@;
        let idx = i as u16;
        proof {
            assert(take_all(t0, cur, args@, i as int, c) == match take_step(t0, cur, args@[i as int], idx) {
                Err(e) => Err(e),
                Ok((next, v)) => match elem_check(c, v, i as int) {
                    Err(e) => Err(e),
                    Ok(_) => match take_all(t0, next, args@, i + 1, c) {
                        Ok((fin, vs)) => Ok((fin, seq![v] + vs)),
                        Err(e) => Err(e),
                    },
                },
            });
        }
        let value = match table.by_value(idx, args[i]) {
            Ok(v) => v,
            Err(e) => return Err(e),
        };
        match check_param_type(config, mode, idx, &value, &first.type_) {
            Ok(()) => {},
            Err(e) => return Err(e),
        }
        let bound = match amplification_bound(config, mode, &first.type_, elem_abilities) {
            Ok(b) => b,
            Err(e) => return Err(e),
        };
        let ghost before = res@;
        match value.write_bcs_bytes(&mut res, bound) {
            Ok(()) => {},
            Err(e) => return Err(e),
        }
        proof {
            let nv = vals.push(value);
            assert(nv.drop_last() =~= vals);
            assert(before + value_bytes(value) =~= header + value_bytes(fv0) + concat_bytes(nv));
            match take_all(t0, table.slots@, args@, i + 1, c) {
                Ok((fin, vs)) => {
                    assert(vals + (seq![value] + vs) =~= nv + vs);
                },
                Err(_) => {},
            }
            if used || used_in_non_entry(value) {
                if any_used_in_non_entry(vals) {
                    let w = choose|w: int| 0 <= w < vals.len() && used_in_non_entry(#[trigger] vals[w]);
                    assert(nv[w] == vals[w]);
                }
                if used_in_non_entry(value) {
                    assert(nv[nv.len() - 1] == value);
                }
            }
            if any_used_in_non_entry(nv) {
                let w = choose|w: int| 0 <= w < nv.len() && used_in_non_entry(#[trigger] nv[w]);
                if w < vals.len() {
                    assert(nv[w] == vals[w]);
                }
            }
            vals = nv;
        }
        used = used || value.was_used_in_non_entry_move_call();
        i += 1;
    }
    proof {
        assert(take_all(t0, table.slots@, args@, i as int, c) == Ok::<
            (Seq<Slot>, Seq<Value>),
            ExecutionError,
        >((table.slots@, Seq::empty())));
        assert(vals + Seq::<Value>::empty() =~= vals);
    }
    proof {
        crate::types::lemma_same_type_reflexive(first.type_);
    }
    let ty = MoveType::Vector(Box::new(first.type_));
    Ok(
        Value::Raw(
            RawValueType::Loaded { ty, abilities: vec_abilities, used_in_non_entry_move_call: used },
            res,
        ),
    )
}

} // verus!
