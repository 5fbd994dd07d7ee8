use sui_adapter::config::{ExecutionMode, ProtocolConfig};
use sui_adapter::errors::{CommandArgumentError, ExecutionErrorKind, PackageUpgradeError, TypeArgumentError};
use sui_adapter::marshal::{
    build_move_args, check_non_entry_signature, check_private_generics, check_visibility_and_signature,
    function_kind, FunctionDefinition, FunctionKind, FunctionSignature, ModuleView, ValueKind, Visibility,
};
use sui_adapter::slots::{Arg, ArgumentTable};
use sui_adapter::type_input::{to_identifier, to_type_tag_, DeclaredType, StructInput, TypeInput, TypeTag};
use sui_adapter::types::{AbilitySet, DatatypeIdent, MoveType, TxContextKind};
use sui_adapter::upgrade::{
    check_compatibility, check_upgrade, decode_upgrade_ticket, DeclKind, Declaration, NormalizedModule,
    UpgradePolicy, UpgradeTicket,
};
use sui_adapter::value::{check_param_type, ObjectContents, ObjectValue, RawValueType, Value};

fn config() -> ProtocolConfig {
    ProtocolConfig {
        max_ptb_value_size: Some(100),
        max_move_value_depth: 128,
        max_ptb_value_size_v2: true,
        ban_entry_init: true,
        validate_identifier_inputs: true,
        disallow_new_modules_in_deps_only_packages: true,
        better_adapter_type_resolution_errors: true,
    }
}

fn short(k: u8) -> Vec<u8> {
    let mut a = vec![0u8; 32];
    a[31] = k;
    a
}

fn ident(k: u8, module: &str, name: &str) -> DatatypeIdent {
    DatatypeIdent { address: short(k), module: module.to_string(), name: name.to_string() }
}

fn abilities() -> AbilitySet {
    AbilitySet { copy: true, drop: true, store: true, key: false }
}

fn def(name: &str, visibility: Visibility, is_entry: bool) -> FunctionDefinition {
    FunctionDefinition { name: name.to_string(), visibility, is_entry, code_len: Some(5) }
}

fn loaded_u64(used: bool) -> Value {
    Value::Raw(
        RawValueType::Loaded { ty: MoveType::U64, abilities: abilities(), used_in_non_entry_move_call: used },
        bcs::to_bytes(&5u64).unwrap(),
    )
}

fn ctx_param() -> MoveType {
    MoveType::MutableReference(Box::new(MoveType::Datatype(ident(2, "tx_context", "TxContext"))))
}

#[test]
fn function_kinds() {
    let cfg = config();
    let mode = ExecutionMode::normal();
    let f = "f".to_string();
    assert_eq!(function_kind(&cfg, &mode, &def("f", Visibility::Private, true), &f, false).unwrap(), FunctionKind::PrivateEntry);
    assert_eq!(function_kind(&cfg, &mode, &def("f", Visibility::Public, true), &f, false).unwrap(), FunctionKind::PublicEntry);
    assert_eq!(function_kind(&cfg, &mode, &def("f", Visibility::Public, false), &f, false).unwrap(), FunctionKind::NonEntry);
    let e = function_kind(&cfg, &mode, &def("f", Visibility::Friend, false), &f, false).unwrap_err();
    assert_eq!(e.kind, ExecutionErrorKind::NonEntryFunctionInvoked);
    let init = "init".to_string();
    assert_eq!(function_kind(&cfg, &mode, &def("init", Visibility::Private, false), &init, true).unwrap(), FunctionKind::Init);
    let e = function_kind(&cfg, &mode, &def("init", Visibility::Public, true), &init, false).unwrap_err();
    assert_eq!(e.kind, ExecutionErrorKind::NonEntryFunctionInvoked);
    let inspect = ExecutionMode { allow_arbitrary_values: true, allow_arbitrary_function_calls: true, packages_are_predefined: false };
    assert_eq!(function_kind(&cfg, &inspect, &def("f", Visibility::Private, false), &f, false).unwrap(), FunctionKind::NonEntry);
}

#[test]
fn private_framework_functions() {
    let m = |s: &str| s.to_string();
    assert!(check_private_generics(&short(2), &m("event"), &m("emit")).is_err());
    assert!(check_private_generics(&short(2), &m("transfer"), &m("transfer")).is_err());
    assert!(check_private_generics(&short(2), &m("transfer"), &m("public_transfer")).is_ok());
    assert!(check_private_generics(&short(3), &m("event"), &m("emit")).is_ok());
}

#[test]
fn reference_returns() {
    let sig = FunctionSignature {
        parameters: vec![],
        return_: vec![MoveType::U64, MoveType::Reference(Box::new(MoveType::U8))],
        return_abilities: vec![abilities(), abilities()],
    };
    let e = check_non_entry_signature(&ExecutionMode::normal(), &sig).unwrap_err();
    assert_eq!(e.kind, ExecutionErrorKind::InvalidPublicFunctionReturnType { idx: 1 });
    let inspect = ExecutionMode { allow_arbitrary_values: true, allow_arbitrary_function_calls: false, packages_are_predefined: false };
    let kinds = check_non_entry_signature(&inspect, &sig).unwrap();
    assert_eq!(kinds, vec![ValueKind::Raw(abilities()), ValueKind::Raw(abilities())]);
    let obj = AbilitySet { copy: false, drop: false, store: true, key: true };
    let sig = FunctionSignature {
        parameters: vec![],
        return_: vec![MoveType::Datatype(ident(5, "m", "Obj"))],
        return_abilities: vec![obj],
    };
    assert_eq!(check_non_entry_signature(&ExecutionMode::normal(), &sig).unwrap(), vec![ValueKind::Object { has_public_transfer: true }]);
}

#[test]
fn visibility_lookup() {
    let module = ModuleView {
        address: short(5),
        name: "m".to_string(),
        functions: vec![def("a", Visibility::Private, false), def("b", Visibility::Public, true)],
    };
    let sig = FunctionSignature { parameters: vec![], return_: vec![], return_abilities: vec![] };
    let info = check_visibility_and_signature(&config(), &ExecutionMode::normal(), &module, &"b".to_string(), &sig, false).unwrap();
    assert_eq!(info.index, 1);
    assert_eq!(info.kind, FunctionKind::PublicEntry);
    assert_eq!(info.last_instr, 4);
    let e = check_visibility_and_signature(&config(), &ExecutionMode::normal(), &module, &"zz".to_string(), &sig, false).unwrap_err();
    assert_eq!(e.kind, ExecutionErrorKind::FunctionNotFound);
}

#[test]
fn arity_counts_implicit_context() {
    let mut table = ArgumentTable::new(vec![loaded_u64(false)]);
    let params = vec![MoveType::U64, ctx_param()];
    let info = build_move_args(&config(), &ExecutionMode::normal(), &mut table, FunctionKind::PublicEntry,
        &params, &vec![abilities(), abilities()], &vec![Arg::Input(0)]).unwrap();
    assert_eq!(info.tx_context_kind, TxContextKind::Mutable);
    assert_eq!(info.serialized, vec![bcs::to_bytes(&5u64).unwrap()]);
    let mut table = ArgumentTable::new(vec![loaded_u64(false)]);
    let e = build_move_args(&config(), &ExecutionMode::normal(), &mut table, FunctionKind::PublicEntry,
        &vec![MoveType::U64, MoveType::U64], &vec![abilities(), abilities()], &vec![Arg::Input(0)]).unwrap_err();
    assert_eq!(e.kind, ExecutionErrorKind::ArityMismatch);
}

#[test]
fn init_gets_one_time_witness() {
    let mut table = ArgumentTable::new(vec![]);
    let witness = MoveType::Datatype(ident(5, "m", "M"));
    let info = build_move_args(&config(), &ExecutionMode::normal(), &mut table, FunctionKind::Init,
        &vec![witness, ctx_param()], &vec![abilities(), abilities()], &vec![]).unwrap();
    assert_eq!(info.serialized, vec![vec![1u8]]);
}

#[test]
fn non_entry_results_refused_by_private_entry() {
    for kind in [FunctionKind::PrivateEntry, FunctionKind::Init] {
        let mut table = ArgumentTable::new(vec![loaded_u64(true), loaded_u64(false)]);
        let params = vec![MoveType::U64, MoveType::U64, ctx_param()];
        let e = build_move_args(&config(), &ExecutionMode::normal(), &mut table, kind,
            &params, &vec![abilities(), abilities(), abilities()], &vec![Arg::Input(0), Arg::Input(1)]).unwrap_err();
        assert_eq!(e.kind, ExecutionErrorKind::CommandArgumentError {
            arg_idx: 0,
            kind: CommandArgumentError::InvalidArgumentToPrivateEntryFunction,
        });
    }
    let mut table = ArgumentTable::new(vec![loaded_u64(true)]);
    assert!(build_move_args(&config(), &ExecutionMode::normal(), &mut table, FunctionKind::PublicEntry,
        &vec![MoveType::U64], &vec![abilities()], &vec![Arg::Input(0)]).is_ok());
}

#[test]
fn mutable_reference_arguments_are_recorded() {
    let mut table = ArgumentTable::new(vec![loaded_u64(false)]);
    let params = vec![MoveType::MutableReference(Box::new(MoveType::U64))];
    let info = build_move_args(&config(), &ExecutionMode::normal(), &mut table, FunctionKind::PublicEntry,
        &params, &vec![abilities()], &vec![Arg::Input(0)]).unwrap();
    assert_eq!(info.by_mut_ref, vec![(0usize, ValueKind::Raw(abilities()))]);
    assert!(table.slots[0].borrowed);
}

#[test]
fn param_type_checks() {
    let cfg = config();
    let mode = ExecutionMode::normal();
    let pure = Value::Raw(RawValueType::Any, vec![1]);
    let e = check_param_type(&cfg, &mode, 2, &pure, &MoveType::Datatype(ident(5, "m", "S"))).unwrap_err();
    assert_eq!(e.kind, ExecutionErrorKind::CommandArgumentError { arg_idx: 2, kind: CommandArgumentError::InvalidUsageOfPureArg });
    assert!(check_param_type(&cfg, &mode, 0, &pure, &MoveType::Bool).is_ok());
    let e = check_param_type(&cfg, &mode, 1, &loaded_u64(false), &MoveType::U8).unwrap_err();
    assert_eq!(e.kind, ExecutionErrorKind::CommandArgumentError { arg_idx: 1, kind: CommandArgumentError::TypeMismatch });
    let receiving_ty = MoveType::DatatypeInstantiation(ident(2, "transfer", "Receiving"), vec![MoveType::Datatype(ident(5, "m", "S"))]);
    let r = Value::Receiving(vec![1; 32], 3, None);
    assert!(check_param_type(&cfg, &mode, 0, &r, &receiving_ty).is_ok());
    assert!(check_param_type(&cfg, &mode, 0, &r, &MoveType::U64).is_err());
    let obj = Value::Object(ObjectValue {
        type_: MoveType::Datatype(ident(5, "m", "S")),
        has_public_transfer: true,
        used_in_non_entry_move_call: false,
        contents: ObjectContents::Raw(vec![0; 32]),
    });
    assert!(check_param_type(&cfg, &mode, 0, &obj, &MoveType::Datatype(ident(5, "m", "S"))).is_ok());
    assert!(check_param_type(&cfg, &mode, 0, &obj, &MoveType::Datatype(ident(5, "m", "T"))).is_err());
}

fn decl(name: &str, sig: u8, public: bool) -> Declaration {
    Declaration {
        kind: DeclKind::Function,
        name: name.to_string(),
        signature: vec![sig],
        is_public: public,
        is_entry: false,
        code: vec![1, 2],
    }
}

fn module(name: &str, decls: Vec<Declaration>) -> NormalizedModule {
    NormalizedModule { name: name.to_string(), declarations: decls }
}

#[test]
fn additive_policy() {
    let old = vec![module("m", vec![decl("f", 1, true)])];
    let grown = vec![module("m", vec![decl("f", 1, true), decl("g", 2, false)])];
    assert!(check_compatibility(&config(), &old, &grown, 128).is_ok());
    let changed = vec![module("m", vec![decl("f", 3, true)])];
    let e = check_compatibility(&config(), &old, &changed, 128).unwrap_err();
    assert_eq!(e.kind, ExecutionErrorKind::PackageUpgradeError { upgrade_error: PackageUpgradeError::IncompatibleUpgrade });
    let missing = vec![module("n", vec![decl("f", 1, true)])];
    assert!(check_compatibility(&config(), &old, &missing, 128).is_err());
}

#[test]
fn compatible_and_dep_only_policies() {
    let old = vec![module("m", vec![decl("f", 1, true), decl("h", 4, false)])];
    // a private function may change or go under the compatible policy
    let next = vec![module("m", vec![decl("f", 1, true)])];
    assert!(check_compatibility(&config(), &old, &next, 0).is_ok());
    let broken = vec![module("m", vec![decl("f", 9, true)])];
    assert!(check_compatibility(&config(), &old, &broken, 0).is_err());
    assert!(check_compatibility(&config(), &old, &old_clone(), 192).is_ok());
    assert!(check_compatibility(&config(), &old, &next, 192).is_err());
    let e = check_compatibility(&config(), &old, &next, 7).unwrap_err();
    assert_eq!(e.kind, ExecutionErrorKind::PackageUpgradeError { upgrade_error: PackageUpgradeError::UnknownUpgradePolicy { policy: 7 } });
    assert_eq!(UpgradePolicy::try_from_u8(128), Some(UpgradePolicy::Additive));
}

fn old_clone() -> Vec<NormalizedModule> {
    vec![module("m", vec![decl("f", 1, true), decl("h", 4, false)])]
}

#[test]
fn upgrade_ticket_checks_come_first() {
    let ticket = UpgradeTicket { cap: vec![1; 32], package: vec![2; 32], policy: 128, digest: vec![9; 32] };
    let old = vec![module("m", vec![decl("f", 1, true)])];
    let incompatible = vec![module("m", vec![decl("f", 3, true)])];
    let e = check_upgrade(&config(), &ticket, &vec![2; 32], &vec![8; 32], &old, &incompatible).unwrap_err();
    assert_eq!(e.kind, ExecutionErrorKind::PackageUpgradeError {
        upgrade_error: PackageUpgradeError::DigestDoesNotMatch { digest: vec![8; 32] },
    });
    let e = check_upgrade(&config(), &ticket, &vec![3; 32], &vec![9; 32], &old, &old_clone()).unwrap_err();
    assert_eq!(e.kind, ExecutionErrorKind::PackageUpgradeError {
        upgrade_error: PackageUpgradeError::PackageIDDoesNotMatch { package_id: vec![3; 32], ticket_id: vec![2; 32] },
    });
    assert!(check_upgrade(&config(), &ticket, &vec![2; 32], &vec![9; 32], &old, &old_clone()).is_ok());
}

#[test]
fn ticket_decoding() {
    let mut bytes = vec![1u8; 32];
    bytes.extend(vec![2u8; 32]);
    bytes.push(0);
    bytes.extend(bcs::to_bytes(&vec![5u8, 6, 7]).unwrap());
    let t = decode_upgrade_ticket(&bytes).unwrap();
    assert_eq!(t.package, vec![2u8; 32]);
    assert_eq!(t.policy, 0);
    assert_eq!(t.digest, vec![5, 6, 7]);
    bytes.push(0);
    assert!(decode_upgrade_ticket(&bytes).is_err());
}

#[test]
fn identifiers_and_type_inputs() {
    let cfg = config();
    assert!(to_identifier(&cfg, "coin".to_string()).is_ok());
    assert!(to_identifier(&cfg, "_x1".to_string()).is_ok());
    assert!(to_identifier(&cfg, "_".to_string()).is_err());
    assert!(to_identifier(&cfg, "1abc".to_string()).is_err());
    assert!(to_identifier(&cfg, "<SELF>".to_string()).is_ok());
    assert!(to_identifier(&cfg, "<OTHER>".to_string()).is_err());
    let mut lenient = cfg;
    lenient.validate_identifier_inputs = false;
    assert!(to_identifier(&lenient, "1abc".to_string()).is_ok());

    let known = vec![DeclaredType { address: short(2), module: "sui".to_string(), name: "SUI".to_string() }];
    let input = TypeInput::Vector(Box::new(TypeInput::Struct(Box::new(StructInput {
        address: short(2),
        module: "sui".to_string(),
        name: "SUI".to_string(),
        type_params: vec![TypeInput::U8],
    }))));
    match to_type_tag_(&cfg, &input, 0, &known).unwrap() {
        TypeTag::Vector(inner) => match *inner {
            TypeTag::Struct(s) => {
                assert_eq!(s.module, "sui");
                assert!(matches!(s.type_params[0], TypeTag::U8));
            }
            _ => panic!("expected a struct tag"),
        },
        _ => panic!("expected a vector tag"),
    }
    let unknown = TypeInput::Struct(Box::new(StructInput {
        address: short(3),
        module: "x".to_string(),
        name: "Y".to_string(),
        type_params: vec![],
    }));
    let e = to_type_tag_(&cfg, &unknown, 4, &known).unwrap_err();
    assert_eq!(e.kind, ExecutionErrorKind::TypeArgumentError { argument_idx: 4, kind: TypeArgumentError::TypeNotFound });
}
