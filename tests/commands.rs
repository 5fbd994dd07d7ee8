use sui_adapter::coins::merge_coins;
use sui_adapter::commands::{execute_make_move_vec, execute_make_move_vec_of_objects, execute_merge_coins, execute_split_coins, execute_transfer_objects};
use sui_adapter::config::{ExecutionMode, ProtocolConfig};
use sui_adapter::dispatch::{Dispatcher, NextStep, Timing};
use sui_adapter::errors::{CommandArgumentError, ExecutionError, ExecutionErrorKind};
use sui_adapter::slots::{Arg, ArgumentTable};
use sui_adapter::types::{AbilitySet, DatatypeIdent, MoveType};
use sui_adapter::value::{Coin, ObjectContents, ObjectValue, RawValueType, Value};

fn config() -> ProtocolConfig {
    ProtocolConfig {
        max_ptb_value_size: Some(100),
        max_move_value_depth: 128,
        max_ptb_value_size_v2: true,
        ban_entry_init: true,
        validate_identifier_inputs: true,
        disallow_new_modules_in_deps_only_packages: true,
        better_adapter_type_resolution_errors: true,
    }
}

fn coin_type(name: &str) -> MoveType {
    let mut a = vec![0u8; 32];
    a[31] = 2;
    MoveType::DatatypeInstantiation(
        DatatypeIdent { address: a, module: "coin".to_string(), name: "Coin".to_string() },
        vec![MoveType::Datatype(DatatypeIdent {
            address: vec![9u8; 32],
            module: name.to_string(),
            name: name.to_uppercase(),
        })],
    )
}

fn coin(name: &str, id: u8, balance: u64) -> Value {
    Value::Object(ObjectValue {
        type_: coin_type(name),
        has_public_transfer: true,
        used_in_non_entry_move_call: false,
        contents: ObjectContents::Coin(Coin { id: vec![id; 32], balance }),
    })
}

fn pure_u64(n: u64) -> Value {
    Value::Raw(RawValueType::Any, bcs::to_bytes(&n).unwrap())
}

fn balance_at(table: &ArgumentTable, i: usize) -> u64 {
    match &table.slots[i].value {
        Some(Value::Object(ObjectValue { contents: ObjectContents::Coin(c), .. })) => c.balance,
        _ => panic!("not a coin"),
    }
}

fn balance_of(v: &Value) -> u64 {
    match v {
        Value::Object(ObjectValue { contents: ObjectContents::Coin(c), .. }) => c.balance,
        _ => panic!("not a coin"),
    }
}

#[test]
fn split_coins_within_balance() {
    let mut table = ArgumentTable::new(vec![coin("sui", 1, 100), pure_u64(30), pure_u64(50)]);
    let ids = vec![vec![7u8; 32], vec![8u8; 32]];
    let out = execute_split_coins(&mut table, Arg::Input(0), &vec![Arg::Input(1), Arg::Input(2)], ids).unwrap();
    assert_eq!(out.len(), 2);
    assert_eq!(balance_of(&out[0]), 30);
    assert_eq!(balance_of(&out[1]), 50);
    assert_eq!(balance_at(&table, 0), 20);
    assert!(!table.slots[0].borrowed);
}

#[test]
fn split_coins_exact_balance() {
    let mut table = ArgumentTable::new(vec![coin("sui", 1, 80), pure_u64(80)]);
    let out = execute_split_coins(&mut table, Arg::Input(0), &vec![Arg::Input(1)], vec![vec![3u8; 32]]).unwrap();
    assert_eq!(balance_of(&out[0]), 80);
    assert_eq!(balance_at(&table, 0), 0);
}

#[test]
fn split_coins_over_balance_fails() {
    let mut table = ArgumentTable::new(vec![coin("sui", 1, 100), pure_u64(60), pure_u64(50)]);
    let ids = vec![vec![7u8; 32], vec![8u8; 32]];
    let e = execute_split_coins(&mut table, Arg::Input(0), &vec![Arg::Input(1), Arg::Input(2)], ids).unwrap_err();
    assert_eq!(e.kind, ExecutionErrorKind::InsufficientCoinBalance);
    // nothing was split: the coin is back in its slot with its balance
    assert_eq!(balance_at(&table, 0), 100);
    assert!(!table.slots[0].borrowed);
}

#[test]
fn split_all_leaves_coin_unchanged_on_failure() {
    let mut c = Coin { id: vec![1; 32], balance: 10 };
    assert!(c.split_all(&vec![4, 7], vec![vec![2; 32], vec![3; 32]]).is_err());
    assert_eq!(c.balance, 10);
    let parts = c.split_all(&vec![4, 6], vec![vec![2; 32], vec![3; 32]]).unwrap();
    assert_eq!(parts[0].balance, 4);
    assert_eq!(parts[1].id, vec![3; 32]);
    assert_eq!(c.balance, 0);
}

#[test]
fn merge_coins_adds_balances() {
    let mut table = ArgumentTable::new(vec![coin("sui", 1, 10), coin("sui", 2, 20), coin("sui", 3, 30)]);
    execute_merge_coins(&mut table, Arg::Input(0), &vec![Arg::Input(1), Arg::Input(2)]).unwrap();
    assert_eq!(balance_at(&table, 0), 60);
    assert!(table.slots[1].value.is_none());
    assert!(table.slots[2].value.is_none());
}

#[test]
fn merge_coins_type_mismatch_index() {
    let mut table = ArgumentTable::new(vec![coin("sui", 1, 10), coin("sui", 2, 20), coin("usd", 3, 30)]);
    let e = execute_merge_coins(&mut table, Arg::Input(0), &vec![Arg::Input(1), Arg::Input(2)]).unwrap_err();
    assert_eq!(
        e.kind,
        ExecutionErrorKind::CommandArgumentError { arg_idx: 2, kind: CommandArgumentError::TypeMismatch }
    );
}

#[test]
fn merge_coins_overflow() {
    let target = coin("sui", 1, u64::MAX);
    let mut t = match target { Value::Object(o) => o, _ => unreachable!() };
    let other = match coin("sui", 2, 1) { Value::Object(o) => o, _ => unreachable!() };
    let e = merge_coins(&mut t, &vec![other]).unwrap_err();
    assert_eq!(e.kind, ExecutionErrorKind::CoinBalanceOverflow);
    match t.contents { ObjectContents::Coin(c) => assert_eq!(c.balance, u64::MAX), _ => panic!() }
}

#[test]
fn slot_discipline() {
    let mut table = ArgumentTable::new(vec![pure_u64(1)]);
    let v = table.borrow_mut(0, Arg::Input(0)).unwrap();
    // exclusively borrowed: no other access
    assert!(table.borrow(0, Arg::Input(0)).is_err());
    assert!(table.by_value(0, Arg::Input(0)).is_err());
    table.restore(Arg::Input(0), v).unwrap();
    assert!(table.borrow(0, Arg::Input(0)).is_ok());
    let _moved = table.by_value(0, Arg::Input(0)).unwrap();
    let e = table.by_value(5, Arg::Input(0)).unwrap_err();
    assert_eq!(e.kind, ExecutionErrorKind::CommandArgumentError { arg_idx: 5, kind: CommandArgumentError::InvalidValueUsage });
    // restoring a slot that is not borrowed is an invariant violation
    assert!(table.restore(Arg::Input(0), pure_u64(2)).is_err());
    let e = table.by_value(0, Arg::Input(9)).unwrap_err();
    assert_eq!(e.kind, ExecutionErrorKind::CommandArgumentError { arg_idx: 0, kind: CommandArgumentError::IndexOutOfBounds });
}

#[test]
fn results_are_addressable() {
    let mut table = ArgumentTable::new(vec![]);
    table.push_results(vec![pure_u64(1), pure_u64(2)]).unwrap();
    table.push_results(vec![pure_u64(3)]).unwrap();
    assert!(table.borrow(0, Arg::NestedResult(0, 1)).is_ok());
    assert!(table.borrow(0, Arg::Result(1)).is_ok());
    let e = table.borrow(0, Arg::Result(0)).unwrap_err();
    assert_eq!(e.kind, ExecutionErrorKind::CommandArgumentError {
        arg_idx: 0,
        kind: CommandArgumentError::InvalidResultArity { result_idx: 0 },
    });
}

#[test]
fn transfer_requires_public_transfer() {
    let recipient = Value::Raw(RawValueType::Any, vec![4u8; 32]);
    let mut table = ArgumentTable::new(vec![coin("sui", 1, 5), recipient]);
    let (objs, addr) = execute_transfer_objects(&mut table, &vec![Arg::Input(0)], Arg::Input(1)).unwrap();
    assert_eq!(objs.len(), 1);
    assert_eq!(addr, vec![4u8; 32]);

    let mut locked = match coin("sui", 2, 5) { Value::Object(o) => o, _ => unreachable!() };
    locked.has_public_transfer = false;
    let mut table = ArgumentTable::new(vec![Value::Object(locked), Value::Raw(RawValueType::Any, vec![4u8; 32])]);
    let e = execute_transfer_objects(&mut table, &vec![Arg::Input(0)], Arg::Input(1)).unwrap_err();
    assert_eq!(e.kind, ExecutionErrorKind::InvalidTransferObject);
}

#[test]
fn make_move_vec_of_u64() {
    let mut table = ArgumentTable::new(vec![pure_u64(1), pure_u64(2)]);
    let ab = AbilitySet { copy: true, drop: true, store: true, key: false };
    let v = execute_make_move_vec(&config(), &ExecutionMode::normal(), &mut table, &MoveType::U64,
        &vec![Arg::Input(0), Arg::Input(1)], ab, ab).unwrap();
    match v {
        Value::Raw(RawValueType::Loaded { used_in_non_entry_move_call, .. }, bytes) => {
            assert!(!used_in_non_entry_move_call);
            assert_eq!(bytes, bcs::to_bytes(&vec![1u64, 2u64]).unwrap());
        }
        _ => panic!("expected a raw vector"),
    }
}

#[test]
fn make_move_vec_rejects_wrong_bytes() {
    let mut table = ArgumentTable::new(vec![Value::Raw(RawValueType::Any, vec![1, 2])]);
    let ab = AbilitySet { copy: true, drop: true, store: true, key: false };
    let e = execute_make_move_vec(&config(), &ExecutionMode::normal(), &mut table, &MoveType::U64,
        &vec![Arg::Input(0)], ab, ab).unwrap_err();
    assert_eq!(e.kind, ExecutionErrorKind::CommandArgumentError { arg_idx: 0, kind: CommandArgumentError::InvalidBCSBytes });
}

#[test]
fn dispatcher_stops_at_first_failure() {
    let mut d = Dispatcher::new(4, vec![]);
    assert_eq!(d.next_step(), NextStep::Run(0));
    d.record_success(vec![pure_u64(1)]);
    assert_eq!(d.next_step(), NextStep::Run(1));
    d.record_success(vec![]);
    assert_eq!(d.next_step(), NextStep::Run(2));
    d.record_failure(ExecutionError::from_kind(ExecutionErrorKind::InsufficientCoinBalance));
    assert_eq!(d.next_step(), NextStep::Aborted);
    assert_eq!(d.completed, 2);
    assert_eq!(d.table.results.len(), 2);
    assert_eq!(d.timings, vec![Timing::Success, Timing::Success, Timing::Abort]);
    let e = d.error.clone().unwrap();
    assert_eq!(e.command, Some(2));
    assert_eq!(e.kind, ExecutionErrorKind::InsufficientCoinBalance);
}

#[test]
fn dispatcher_finishes() {
    let mut d = Dispatcher::new(1, vec![]);
    d.record_success(vec![]);
    assert_eq!(d.next_step(), NextStep::Finished);
    assert_eq!(d.timings, vec![Timing::Success]);
}

#[test]
fn make_move_vec_of_objects_takes_first_type() {
    let mut table = ArgumentTable::new(vec![coin("sui", 1, 5), coin("sui", 2, 6)]);
    let ab = AbilitySet { copy: false, drop: false, store: true, key: true };
    let v = execute_make_move_vec_of_objects(&config(), &ExecutionMode::normal(), &mut table,
        &vec![Arg::Input(0), Arg::Input(1)], ab, ab).unwrap();
    match v {
        Value::Raw(RawValueType::Loaded { ty: MoveType::Vector(_), .. }, bytes) => {
            assert_eq!(bytes.len(), 1 + 2 * 40);
            assert_eq!(bytes[0], 2);
        }
        _ => panic!("expected a vector"),
    }
    let mut table = ArgumentTable::new(vec![coin("sui", 1, 5), coin("usd", 2, 6)]);
    let e = execute_make_move_vec_of_objects(&config(), &ExecutionMode::normal(), &mut table,
        &vec![Arg::Input(0), Arg::Input(1)], ab, ab).unwrap_err();
    assert_eq!(e.kind, ExecutionErrorKind::CommandArgumentError { arg_idx: 1, kind: CommandArgumentError::TypeMismatch });
}

#[test]
fn dispatcher_refuses_unrestored_borrow() {
    let mut d = Dispatcher::new(2, vec![pure_u64(1)]);
    let _v = d.table.borrow_mut(0, Arg::Input(0)).unwrap();
    d.record_success(vec![]);
    assert_eq!(d.next_step(), NextStep::Aborted);
    let e = d.error.clone().unwrap();
    assert_eq!(e.kind, ExecutionErrorKind::InvariantViolation);
    assert_eq!(e.command, Some(0));
}

#[test]
fn make_move_vec_keeps_non_entry_mark() {
    let produced = Value::Raw(
        RawValueType::Loaded {
            ty: MoveType::U64,
            abilities: AbilitySet { copy: true, drop: true, store: true, key: false },
            used_in_non_entry_move_call: true,
        },
        bcs::to_bytes(&3u64).unwrap(),
    );
    let mut table = ArgumentTable::new(vec![pure_u64(1), produced]);
    let ab = AbilitySet { copy: true, drop: true, store: true, key: false };
    let v = execute_make_move_vec(&config(), &ExecutionMode::normal(), &mut table, &MoveType::U64,
        &vec![Arg::Input(0), Arg::Input(1)], ab, ab).unwrap();
    match v {
        Value::Raw(RawValueType::Loaded { used_in_non_entry_move_call, .. }, _) => assert!(used_in_non_entry_move_call),
        _ => panic!("expected a raw vector"),
    }
}

#[test]
fn split_rejects_non_coin_object() {
    let obj = Value::Object(ObjectValue {
        type_: coin_type("sui"),
        has_public_transfer: true,
        used_in_non_entry_move_call: false,
        contents: ObjectContents::Raw(vec![0; 32]),
    });
    let mut table = ArgumentTable::new(vec![obj, pure_u64(1)]);
    let e = execute_split_coins(&mut table, Arg::Input(0), &vec![Arg::Input(1)], vec![vec![2; 32]]).unwrap_err();
    assert_eq!(e.kind, ExecutionErrorKind::CommandArgumentError { arg_idx: 0, kind: CommandArgumentError::TypeMismatch });
}
