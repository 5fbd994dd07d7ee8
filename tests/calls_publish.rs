use sui_adapter::config::{ExecutionMode, ProtocolConfig};
use sui_adapter::dispatch::{Dispatcher, NativeCommand, NextStep, Timing};
use sui_adapter::errors::ExecutionErrorKind;
use sui_adapter::value::{Coin, ObjectValue};
use sui_adapter::marshal::{prepare_move_call, FunctionKind, FunctionSignature};
use sui_adapter::layout::PrimitiveArgumentLayout;
use sui_adapter::marshal::{
    make_value, subst_signature, write_back_results, FunctionDefinition, LoadedFunctionInstantiation,
    ModuleView, ValueKind, Visibility,
};
use sui_adapter::publish::{modules_to_init, package_byte_size};
use sui_adapter::slots::{Arg, ArgumentTable};
use sui_adapter::types::{AbilitySet, DatatypeIdent, MoveType};
use sui_adapter::value::{ObjectContents, RawValueType, Value};

fn short(k: u8) -> Vec<u8> {
    let mut a = vec![0u8; 32];
    a[31] = k;
    a
}

fn abilities() -> AbilitySet {
    AbilitySet { copy: true, drop: true, store: true, key: false }
}

fn module_with(fns: &[&str]) -> ModuleView {
    ModuleView {
        address: short(5),
        name: "m".to_string(),
        functions: fns
            .iter()
            .map(|n| FunctionDefinition { name: n.to_string(), visibility: Visibility::Private, is_entry: false, code_len: None })
            .collect(),
    }
}

#[test]
fn layout_descriptions() {
    let l = PrimitiveArgumentLayout::Vector(Box::new(PrimitiveArgumentLayout::Option(Box::new(PrimitiveArgumentLayout::UTF8))));
    assert_eq!(l.describe(), "vector<std::option::Option<std::string::String>>");
    assert_eq!(PrimitiveArgumentLayout::Address.describe(), "address");
    assert_eq!(PrimitiveArgumentLayout::Ascii.describe(), "std::ascii::String");
}

#[test]
fn substitution_of_type_parameters() {
    let sig = LoadedFunctionInstantiation {
        parameters: vec![MoveType::Vector(Box::new(MoveType::TyParam(1))), MoveType::U8],
        return_: vec![MoveType::TyParam(0)],
    };
    let s = subst_signature(sig, &vec![MoveType::Bool, MoveType::U64]).unwrap();
    assert!(matches!(s.parameters[0], MoveType::Vector(ref b) if matches!(**b, MoveType::U64)));
    assert!(matches!(s.return_[0], MoveType::Bool));
    let bad = LoadedFunctionInstantiation { parameters: vec![MoveType::TyParam(2)], return_: vec![] };
    let e = subst_signature(bad, &vec![MoveType::Bool]).unwrap_err();
    assert_eq!(e.kind, ExecutionErrorKind::VMInvariantViolation);
}

#[test]
fn returned_coins_become_coin_objects() {
    let coin_ty = MoveType::DatatypeInstantiation(
        DatatypeIdent { address: short(2), module: "coin".to_string(), name: "Coin".to_string() },
        vec![MoveType::U8],
    );
    let mut bytes = vec![6u8; 32];
    bytes.extend(bcs::to_bytes(&77u64).unwrap());
    match make_value(ValueKind::Object { has_public_transfer: true }, coin_ty, bytes, true) {
        Value::Object(o) => match o.contents {
            ObjectContents::Coin(c) => {
                assert_eq!(c.balance, 77);
                assert_eq!(c.id, vec![6u8; 32]);
                assert!(o.used_in_non_entry_move_call);
            }
            _ => panic!("expected a coin"),
        },
        _ => panic!("expected an object"),
    }
    match make_value(ValueKind::Raw(abilities()), MoveType::U8, vec![3], false) {
        Value::Raw(RawValueType::Loaded { used_in_non_entry_move_call, .. }, b) => {
            assert!(!used_in_non_entry_move_call);
            assert_eq!(b, vec![3]);
        }
        _ => panic!("expected a raw value"),
    }
}

#[test]
fn write_back_restores_borrowed_arguments() {
    let mut table = ArgumentTable::new(vec![Value::Raw(RawValueType::Any, vec![1, 0, 0, 0, 0, 0, 0, 0])]);
    let _v = table.borrow_mut(0, Arg::Input(0)).unwrap();
    let out = write_back_results(
        &mut table,
        &vec![Arg::Input(0)],
        true,
        vec![(0, vec![9, 0, 0, 0, 0, 0, 0, 0])],
        &vec![(0, ValueKind::Raw(abilities()))],
        &vec![MoveType::U64],
        vec![vec![1]],
        &vec![ValueKind::Raw(abilities())],
        &vec![MoveType::U8],
    )
    .unwrap();
    assert_eq!(out.len(), 1);
    assert!(!table.slots[0].borrowed);
    match &table.slots[0].value {
        Some(Value::Raw(RawValueType::Loaded { used_in_non_entry_move_call, .. }, b)) => {
            assert!(*used_in_non_entry_move_call);
            assert_eq!(b[0], 9);
        }
        _ => panic!("expected the written value"),
    }
    // outputs that do not match the borrowed arguments are an invariant violation
    let e = write_back_results(&mut table, &vec![Arg::Input(0)], false, vec![], &vec![(0, ValueKind::Raw(abilities()))],
        &vec![MoveType::U64], vec![], &vec![], &vec![]).unwrap_err();
    assert_eq!(e.kind, ExecutionErrorKind::InvariantViolation);
}

#[test]
fn initializers_in_file_order() {
    let mods = vec![module_with(&["f", "init"]), module_with(&["g"]), module_with(&["init"])];
    assert_eq!(modules_to_init(&mods), vec![0, 2]);
    assert_eq!(modules_to_init(&vec![]), Vec::<usize>::new());
}

#[test]
fn package_sizes() {
    assert_eq!(package_byte_size(&vec![vec![1, 2, 3], vec![4]]).unwrap(), 4);
    assert!(package_byte_size(&vec![]).is_err());
}

#[test]
fn prepare_call_to_entry_function() {
    let cfg = ProtocolConfig {
        max_ptb_value_size: Some(100),
        max_move_value_depth: 128,
        max_ptb_value_size_v2: true,
        ban_entry_init: true,
        validate_identifier_inputs: true,
        disallow_new_modules_in_deps_only_packages: true,
        better_adapter_type_resolution_errors: true,
    };
    let module = ModuleView {
        address: short(5),
        name: "m".to_string(),
        functions: vec![FunctionDefinition { name: "go".to_string(), visibility: Visibility::Private, is_entry: true, code_len: Some(3) }],
    };
    let sig = FunctionSignature { parameters: vec![MoveType::U8], return_: vec![], return_abilities: vec![] };
    let mut table = ArgumentTable::new(vec![Value::Raw(RawValueType::Any, vec![4])]);
    let (info, args) = prepare_move_call(&cfg, &ExecutionMode::normal(), &mut table, &module, &"go".to_string(),
        &sig, &vec![abilities()], &vec![Arg::Input(0)], false).unwrap();
    assert_eq!(info.kind, FunctionKind::PrivateEntry);
    assert_eq!(args.serialized, vec![vec![4u8]]);
    // a value produced by a non-entry call is refused by a private entry function
    let produced = Value::Raw(RawValueType::Loaded { ty: MoveType::U8, abilities: abilities(), used_in_non_entry_move_call: true }, vec![4]);
    let mut table = ArgumentTable::new(vec![produced]);
    assert!(prepare_move_call(&cfg, &ExecutionMode::normal(), &mut table, &module, &"go".to_string(),
        &sig, &vec![abilities()], &vec![Arg::Input(0)], false).is_err());
}

#[test]
fn dispatcher_runs_native_commands() {
    let cfg = ProtocolConfig {
        max_ptb_value_size: Some(100),
        max_move_value_depth: 128,
        max_ptb_value_size_v2: true,
        ban_entry_init: true,
        validate_identifier_inputs: true,
        disallow_new_modules_in_deps_only_packages: true,
        better_adapter_type_resolution_errors: true,
    };
    let coin = Value::Object(ObjectValue {
        type_: MoveType::U64,
        has_public_transfer: true,
        used_in_non_entry_move_call: false,
        contents: ObjectContents::Coin(Coin { id: vec![1; 32], balance: 10 }),
    });
    let amount = |n: u64| Value::Raw(RawValueType::Any, bcs::to_bytes(&n).unwrap());
    let mut d = Dispatcher::new(3, vec![coin, amount(4), amount(20)]);
    let mode = ExecutionMode::normal();
    let t = d.execute_command(&cfg, &mode, &NativeCommand::SplitCoins(Arg::Input(0), vec![Arg::Input(1)]), vec![vec![2; 32]]);
    assert!(t.is_none());
    assert_eq!(d.next_step(), NextStep::Run(1));
    // 20 is more than the 6 left
    d.execute_command(&cfg, &mode, &NativeCommand::SplitCoins(Arg::Input(0), vec![Arg::Input(2)]), vec![vec![3; 32]]);
    assert_eq!(d.next_step(), NextStep::Aborted);
    assert_eq!(d.completed, 1);
    assert_eq!(d.table.results.len(), 1);
    assert_eq!(d.timings, vec![Timing::Success, Timing::Abort]);
    let e = d.error.clone().unwrap();
    assert_eq!(e.command, Some(1));
    assert_eq!(e.kind, ExecutionErrorKind::InsufficientCoinBalance);
}
