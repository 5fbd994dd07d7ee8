use sui_adapter::bound::{amplification_bound, amplification_bound_};
use sui_adapter::config::{ExecutionMode, ProtocolConfig};
use sui_adapter::errors::{CommandArgumentError, ExecutionErrorKind};
use sui_adapter::layout::PrimitiveArgumentLayout;
use sui_adapter::types::{
    is_tx_context, primitive_serialization_layout, AbilitySet, DatatypeIdent, MoveType, TxContextKind,
};
use sui_adapter::wire::bcs_argument_validate;

fn config(budget: Option<u64>) -> ProtocolConfig {
    ProtocolConfig {
        max_ptb_value_size: budget,
        max_move_value_depth: 128,
        max_ptb_value_size_v2: true,
        ban_entry_init: true,
        validate_identifier_inputs: true,
        disallow_new_modules_in_deps_only_packages: true,
        better_adapter_type_resolution_errors: true,
    }
}

fn short(k: u8) -> Vec<u8> {
    let mut a = vec![0u8; 32];
    a[31] = k;
    a
}

fn ident(k: u8, module: &str, name: &str) -> DatatypeIdent {
    DatatypeIdent { address: short(k), module: module.to_string(), name: name.to_string() }
}

fn option_of(t: MoveType) -> MoveType {
    MoveType::DatatypeInstantiation(ident(1, "option", "Option"), vec![t])
}

fn copyable() -> AbilitySet {
    AbilitySet { copy: true, drop: true, store: true, key: false }
}

fn valid(bytes: &[u8], layout: PrimitiveArgumentLayout) -> bool {
    bcs_argument_validate(&bytes.to_vec(), 3, layout).is_ok()
}

fn vec_of(l: PrimitiveArgumentLayout) -> PrimitiveArgumentLayout {
    PrimitiveArgumentLayout::Vector(Box::new(l))
}

fn opt_of(l: PrimitiveArgumentLayout) -> PrimitiveArgumentLayout {
    PrimitiveArgumentLayout::Option(Box::new(l))
}

#[test]
fn bcs_only_of_layouts() {
    assert!(PrimitiveArgumentLayout::U64.bcs_only());
    assert!(PrimitiveArgumentLayout::Address.bcs_only());
    assert!(vec_of(PrimitiveArgumentLayout::U8).bcs_only());
    assert!(!PrimitiveArgumentLayout::UTF8.bcs_only());
    assert!(!PrimitiveArgumentLayout::Ascii.bcs_only());
    assert!(!opt_of(PrimitiveArgumentLayout::U8).bcs_only());
    assert!(!vec_of(opt_of(PrimitiveArgumentLayout::U8)).bcs_only());
}

#[test]
fn amplification_factors() {
    assert_eq!(PrimitiveArgumentLayout::U8.amplification(), 1);
    assert_eq!(PrimitiveArgumentLayout::U128.amplification(), 2);
    assert_eq!(PrimitiveArgumentLayout::UTF8.amplification(), 2);
    assert_eq!(vec_of(PrimitiveArgumentLayout::U64).amplification(), 1);
    assert_eq!(opt_of(opt_of(PrimitiveArgumentLayout::Ascii)).amplification(), 4);
}

#[test]
fn amplification_bound_of_scalar_and_option() {
    let cfg = config(Some(100));
    let mode = ExecutionMode::normal();
    assert_eq!(amplification_bound_(&cfg, &mode, &MoveType::U8).unwrap(), Some(100));
    let wrapped = amplification_bound_(&cfg, &mode, &option_of(MoveType::U8)).unwrap();
    assert_eq!(wrapped, Some(50));
    assert!(wrapped.unwrap() < 100);
}

#[test]
fn amplification_bound_edges() {
    let mode = ExecutionMode::normal();
    // no budget: unbounded
    assert_eq!(amplification_bound_(&config(None), &mode, &MoveType::U8).unwrap(), None);
    // bootstrap execution: unbounded
    let genesis = ExecutionMode {
        allow_arbitrary_values: false,
        allow_arbitrary_function_calls: false,
        packages_are_predefined: true,
    };
    assert_eq!(amplification_bound_(&config(Some(100)), &genesis, &MoveType::U8).unwrap(), None);
    // a non-primitive type counts as maximally deep
    let other = MoveType::Datatype(ident(7, "m", "S"));
    assert_eq!(amplification_bound_(&config(Some(1000)), &mode, &other).unwrap(), Some(7));
    // types without copy are exempt
    let no_copy = AbilitySet { copy: false, drop: true, store: true, key: false };
    assert_eq!(amplification_bound(&config(Some(100)), &mode, &MoveType::U8, no_copy).unwrap(), None);
    assert_eq!(
        amplification_bound(&config(Some(100)), &mode, &MoveType::U128, copyable()).unwrap(),
        Some(50)
    );
    // a reference has no layout
    let r = MoveType::Reference(Box::new(MoveType::U8));
    assert!(amplification_bound_(&config(Some(100)), &mode, &r).is_err());
}

#[test]
fn layouts_of_types() {
    let l = primitive_serialization_layout(&MoveType::Vector(Box::new(MoveType::U64))).unwrap();
    assert!(matches!(l, Some(PrimitiveArgumentLayout::Vector(ref b)) if matches!(**b, PrimitiveArgumentLayout::U64)));
    let s = primitive_serialization_layout(&MoveType::Datatype(ident(1, "string", "String"))).unwrap();
    assert!(matches!(s, Some(PrimitiveArgumentLayout::UTF8)));
    let a = primitive_serialization_layout(&MoveType::Datatype(ident(1, "ascii", "String"))).unwrap();
    assert!(matches!(a, Some(PrimitiveArgumentLayout::Ascii)));
    let id = primitive_serialization_layout(&MoveType::Datatype(ident(2, "object", "ID"))).unwrap();
    assert!(matches!(id, Some(PrimitiveArgumentLayout::Address)));
    let o = primitive_serialization_layout(&option_of(MoveType::Bool)).unwrap();
    assert!(matches!(o, Some(PrimitiveArgumentLayout::Option(_))));
    assert!(primitive_serialization_layout(&MoveType::Signer).unwrap().is_none());
    assert!(primitive_serialization_layout(&MoveType::Datatype(ident(3, "m", "S"))).unwrap().is_none());
    assert!(primitive_serialization_layout(&MoveType::TyParam(0)).is_err());
}

#[test]
fn tx_context_detection() {
    let ctx = MoveType::Datatype(ident(2, "tx_context", "TxContext"));
    let m = MoveType::MutableReference(Box::new(MoveType::Datatype(ident(2, "tx_context", "TxContext"))));
    let i = MoveType::Reference(Box::new(ctx));
    assert_eq!(is_tx_context(&m), TxContextKind::Mutable);
    assert_eq!(is_tx_context(&i), TxContextKind::Immutable);
    assert_eq!(is_tx_context(&MoveType::U64), TxContextKind::NoContext);
    let other = MoveType::Reference(Box::new(MoveType::Datatype(ident(3, "tx_context", "TxContext"))));
    assert_eq!(is_tx_context(&other), TxContextKind::NoContext);
}

#[test]
fn validate_fixed_width_values() {
    assert!(valid(&bcs::to_bytes(&7u64).unwrap(), PrimitiveArgumentLayout::U64));
    assert!(!valid(&[1, 2, 3], PrimitiveArgumentLayout::U64));
    assert!(!valid(&[0; 9], PrimitiveArgumentLayout::U64));
    assert!(valid(&[0; 32], PrimitiveArgumentLayout::Address));
    assert!(valid(&[0; 32], PrimitiveArgumentLayout::U256));
    assert!(valid(&bcs::to_bytes(&true).unwrap(), PrimitiveArgumentLayout::Bool));
    assert!(!valid(&[2], PrimitiveArgumentLayout::Bool));
}

#[test]
fn validate_strings() {
    let s = bcs::to_bytes(&"hello".to_string()).unwrap();
    assert!(valid(&s, PrimitiveArgumentLayout::Ascii));
    assert!(valid(&s, PrimitiveArgumentLayout::UTF8));
    let u = bcs::to_bytes(&"h\u{e9}llo".to_string()).unwrap();
    assert!(!valid(&u, PrimitiveArgumentLayout::Ascii));
    assert!(valid(&u, PrimitiveArgumentLayout::UTF8));
    // invalid UTF-8
    assert!(!valid(&[2, 0xc3, 0x28], PrimitiveArgumentLayout::UTF8));
    // length beyond the bytes
    assert!(!valid(&[5, b'a'], PrimitiveArgumentLayout::UTF8));
}

#[test]
fn validate_options_and_vectors() {
    let some: Option<u8> = Some(9);
    let none: Option<u8> = None;
    assert!(valid(&bcs::to_bytes(&some).unwrap(), opt_of(PrimitiveArgumentLayout::U8)));
    assert!(valid(&bcs::to_bytes(&none).unwrap(), opt_of(PrimitiveArgumentLayout::U8)));
    assert!(!valid(&[2, 9], opt_of(PrimitiveArgumentLayout::U8)));
    let v: Vec<u16> = vec![1, 2, 3];
    assert!(valid(&bcs::to_bytes(&v).unwrap(), vec_of(PrimitiveArgumentLayout::U16)));
    let long: Vec<u8> = vec![7; 300];
    assert!(valid(&bcs::to_bytes(&long).unwrap(), vec_of(PrimitiveArgumentLayout::U8)));
    let empty: Vec<u64> = vec![];
    assert!(valid(&bcs::to_bytes(&empty).unwrap(), vec_of(PrimitiveArgumentLayout::U64)));
    let nested: Vec<Option<String>> = vec![Some("a".to_string()), None];
    assert!(valid(&bcs::to_bytes(&nested).unwrap(), vec_of(opt_of(PrimitiveArgumentLayout::UTF8))));
    // trailing bytes are refused
    let mut extra = bcs::to_bytes(&v).unwrap();
    extra.push(0);
    assert!(!valid(&extra, vec_of(PrimitiveArgumentLayout::U16)));
    // a non-canonical length is refused
    assert!(!valid(&[0x80, 0x00], vec_of(PrimitiveArgumentLayout::U8)));
}

#[test]
fn validation_error_carries_index() {
    let e = bcs_argument_validate(&vec![2], 4, PrimitiveArgumentLayout::Bool).unwrap_err();
    assert_eq!(
        e.kind,
        ExecutionErrorKind::CommandArgumentError { arg_idx: 4, kind: CommandArgumentError::InvalidBCSBytes }
    );
}

#[test]
fn round_trip_of_encoded_values() {
    // values written by the encoder decode against their own layout
    let cases: Vec<(Vec<u8>, PrimitiveArgumentLayout)> = vec![
        (bcs::to_bytes(&u128::MAX).unwrap(), PrimitiveArgumentLayout::U128),
        (bcs::to_bytes(&vec![vec![1u32, 2], vec![]]).unwrap(), vec_of(vec_of(PrimitiveArgumentLayout::U32))),
        (bcs::to_bytes(&Some(Some(false))).unwrap(), opt_of(opt_of(PrimitiveArgumentLayout::Bool))),
        (bcs::to_bytes(&"abc".to_string()).unwrap(), PrimitiveArgumentLayout::Ascii),
    ];
    for (bytes, layout) in cases {
        assert!(valid(&bytes, layout));
    }
}
