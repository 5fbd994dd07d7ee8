use vstd::prelude::*;
use crate::config::ProtocolConfig;
use crate::errors::{error_of, ExecutionError, ExecutionErrorKind, TypeArgumentError};
use crate::types::copy_bytes;

verus! {

/// A type as a transaction writes it, before it is resolved.
#[derive(Debug)]
pub enum TypeInput {
    Bool,
    U8,
    U16,
    U32,
    U64,
    U128,
    U256,
    Address,
    Signer,
    Vector(Box<TypeInput>),
    Struct(Box<StructInput>),
}

/// A datatype as a transaction writes it.
#[derive(Debug)]
pub struct StructInput {
    pub address: Vec<u8>,
    pub module: String,
    pub name: String,
    pub type_params: Vec<TypeInput>,
}

/// A canonical type tag.
#[derive(Debug)]
pub enum TypeTag {
    Bool,
    U8,
    U16,
    U32,
    U64,
    U128,
    U256,
    Address,
    Signer,
    Vector(Box<TypeTag>),
    Struct(Box<StructTag>),
}

/// A canonical datatype tag.
#[derive(Debug)]
pub struct StructTag {
    pub address: Vec<u8>,
    pub module: String,
    pub name: String,
    pub type_params: Vec<TypeTag>,
}

/// A datatype that a package declares: the package's address, the module and
/// the datatype's name.
#[derive(Debug)]
pub struct DeclaredType {
    pub address: Vec<u8>,
    pub module: String,
    pub name: String,
}

pub open spec fn is_ident_start(c: char) -> bool {
    ('a' <= c && c <= 'z') || ('A' <= c && c <= 'Z')
}

pub open spec fn is_ident_char(c: char) -> bool {
    c == '_' || ('a' <= c && c <= 'z') || ('A' <= c && c <= 'Z') || ('0' <= c && c <= '9')
}

/// A valid identifier: a letter followed by letters, digits and underscores,
/// or an underscore followed by at least one of those.
pub open spec fn valid_identifier(s: Seq<char>) -> bool {
    &&& s.len() >= 1
    &&& (is_ident_start(s[0]) || (s[0] == '_' && s.len() > 1))
    &&& forall|i: int| 1 <= i < s.len() ==> is_ident_char(#[trigger] s[i])
}

/// An identifier the identifier crate accepts: one of the shape
/// `valid_identifier` gives, or the special name `<SELF>`.
pub open spec fn accepted_identifier(s: Seq<char>) -> bool {
    valid_identifier(s) || s == "<SELF>"@
}

/// Relies on move_core_types::identifier::Identifier::is_valid: true exactly for
/// identifiers of the shape `valid_identifier` gives and for `<SELF>`.
#[verifier::external_body]
fn identifier_is_valid(s: &String) -> (r: bool)
    ensures
        r == accepted_identifier(s@),
{
    move_core_types::identifier::Identifier::is_valid(s)
}

pub open spec fn identifier_error() -> ExecutionError {
    error_of(ExecutionErrorKind::VMInvariantViolation)
}

/// Accepts an identifier supplied by a transaction, checking its syntax when
/// the protocol asks for it.
pub fn to_identifier(config: &ProtocolConfig, ident: String) -> (r: Result<String, ExecutionError>)
    ensures
        !config.validate_identifier_inputs || accepted_identifier(ident@) ==> (r matches Ok(s) && s@
            == ident@),
        config.validate_identifier_inputs && !accepted_identifier(ident@) ==> r == Err::<
            String,
            ExecutionError,
        >(identifier_error()),
{
    if config.validate_identifier_inputs && !identifier_is_valid(&ident) {
        return Err(ExecutionError::from_kind(ExecutionErrorKind::VMInvariantViolation));
    }
    Ok(ident)
}

/// Some entry of `known` declares `address::module::name`.
pub open spec fn is_declared(known: Seq<DeclaredType>, address: Seq<u8>, module: Seq<char>, name: Seq<char>) -> bool {
    exists|i: int|
        0 <= i < known.len() && (#[trigger] known[i]).address@ == address && known[i].module@
            == module && known[i].name@ == name
}

/// The names of a datatype input are acceptable.
pub open spec fn names_ok(config: ProtocolConfig, s: StructInput, known: Seq<DeclaredType>) -> bool {
    &&& config.validate_identifier_inputs ==> accepted_identifier(s.module@) && accepted_identifier(
        s.name@,
    )
    &&& config.better_adapter_type_resolution_errors ==> is_declared(
        known,
        s.address@,
        s.module@,
        s.name@,
    )
}

/// Every datatype named anywhere in `t` is acceptable.
pub open spec fn input_ok(config: ProtocolConfig, t: TypeInput, known: Seq<DeclaredType>) -> bool
    decreases t,
{
    match t {
        TypeInput::Vector(inner) => input_ok(config, *inner, known),
        TypeInput::Struct(s) => names_ok(config, *s, known) && forall|i: int|
            0 <= i < s.type_params@.len() ==> input_ok(config, #[trigger] s.type_params@[i], known),
        _ => true,
    }
}

/// `tag` is `t` with every name kept as written.
pub open spec fn tag_of(t: TypeInput, tag: TypeTag) -> bool
    decreases t,
{
    match (t, tag) {
        (TypeInput::Bool, TypeTag::Bool) => true,
        (TypeInput::U8, TypeTag::U8) => true,
        (TypeInput::U16, TypeTag::U16) => true,
        (TypeInput::U32, TypeTag::U32) => true,
        (TypeInput::U64, TypeTag::U64) => true,
        (TypeInput::U128, TypeTag::U128) => true,
        (TypeInput::U256, TypeTag::U256) => true,
        (TypeInput::Address, TypeTag::Address) => true,
        (TypeInput::Signer, TypeTag::Signer) => true,
        (TypeInput::Vector(a), TypeTag::Vector(b)) => tag_of(*a, *b),
        (TypeInput::Struct(s), TypeTag::Struct(g)) => {
            &&& s.address@ == g.address@
            &&& s.module@ == g.module@
            &&& s.name@ == g.name@
            &&& s.type_params@.len() == g.type_params@.len()
            &&& forall|i: int|
                0 <= i < s.type_params@.len() ==> tag_of(
                    #[trigger] s.type_params@[i],
                    g.type_params@[i],
                )
        },
        _ => false,
    }
}

fn declared(known: &Vec<DeclaredType>, address: &Vec<u8>, module: &String, name: &String) -> (r: bool)
    ensures
        r == is_declared(known@, address@, module@, name@),
{
    let mut i: usize = 0;
    while i < known.len()
        invariant
            i <= known@.len(),
            forall|j: int|
                0 <= j < i ==> !((#[trigger] known@[j]).address@ == address@ && known@[j].module@
                    == module@ && known@[j].name@ == name@),
        decreases known@.len() - i,
    {
        let k = &known[i];
        if crate::types::DatatypeIdent::bytes_match(&k.address, address) && k.module == *module
            && k.name == *name {
            return true;
        }
        i += 1;
    }
    false
}

/// Checks the names of a datatype input: their syntax, under strict identifier
/// checking, and that the package at its address declares it, when type
/// resolution errors are reported.
pub fn resolve_datatype_names(
    config: &ProtocolConfig,
    s: &StructInput,
    idx: u16,
    known: &Vec<DeclaredType>,
) -> (r: Result<(String, String), ExecutionError>)
    ensures
        names_ok(*config, *s, known@) <==> r is Ok,
        r matches Ok((m, n)) ==> m@ == s.module@ && n@ == s.name@,
        config.validate_identifier_inputs && (!accepted_identifier(s.module@) || !accepted_identifier(
            s.name@,
        )) ==> r == Err::<(String, String), ExecutionError>(identifier_error()),
        (!config.validate_identifier_inputs || (accepted_identifier(s.module@) && accepted_identifier(
            s.name@,
        ))) && config.better_adapter_type_resolution_errors && !is_declared(
            known@,
            s.address@,
            s.module@,
            s.name@,
        ) ==> r == Err::<(String, String), ExecutionError>(
            error_of(
                ExecutionErrorKind::TypeArgumentError {
                    argument_idx: idx,
                    kind: TypeArgumentError::TypeNotFound,
                },
            ),
        ),
        r matches Err(e) ==> e == identifier_error() || e == error_of(
            ExecutionErrorKind::TypeArgumentError {
                argument_idx: idx,
                kind: TypeArgumentError::TypeNotFound,
            },
        ),
{
    let module_ident = match to_identifier(config, s.module.clone()) {
        Ok(m) => m,
        Err(e) => return Err(e),
    };
    let name_ident = match to_identifier(config, s.name.clone()) {
        Ok(n) => n,
        Err(e) => return Err(e),
    };
    if config.better_adapter_type_resolution_errors && !declared(
        known,
        &s.address,
        &s.module,
        &s.name,
    ) {
        return Err(
            ExecutionError::from_kind(
                ExecutionErrorKind::TypeArgumentError {
                    argument_idx: idx,
                    kind: TypeArgumentError::TypeNotFound,
                },
            ),
        );
    }
    Ok((module_ident, name_ident))
}

/// Converts a type input into a canonical type tag, checking the names of
/// every datatype in it.
pub fn to_type_tag_(
    config: &ProtocolConfig,
    type_input: &TypeInput,
    idx: u16,
    known: &Vec<DeclaredType>,
) -> (r: Result<TypeTag, ExecutionError>)
    ensures
        input_ok(*config, *type_input, known@) <==> r is Ok,
        r matches Ok(tag) ==> tag_of(*type_input, tag),
    decreases type_input,
{
    match type_input {
        TypeInput::Bool => Ok(TypeTag::Bool),
        TypeInput::U8 => Ok(TypeTag::U8),
        TypeInput::U16 => Ok(TypeTag::U16),
        TypeInput::U32 => Ok(TypeTag::U32),
        TypeInput::U64 => Ok(TypeTag::U64),
        TypeInput::U128 => Ok(TypeTag::U128),
        TypeInput::U256 => Ok(TypeTag::U256),
        TypeInput::Address => Ok(TypeTag::Address),
        TypeInput::Signer => Ok(TypeTag::Signer),
        TypeInput::Vector(t) => match to_type_tag_(config, t, idx, known) {
            Ok(tag) => Ok(TypeTag::Vector(Box::new(tag))),
            Err(e) => Err(e),
        },
        TypeInput::Struct(s) => {
            let ps = &s.type_params;
            let mut params: Vec<TypeTag> = Vec::new();
            let mut i: usize = 0;
            while i < ps.len()
                invariant
                    *type_input == TypeInput::Struct(*s),
                    ps == &s.type_params,
                    i <= ps@.len(),
                    params@.len() == i,
                    forall|j: int|
                        0 <= j < i ==> input_ok(*config, #[trigger] ps@[j], known@) && tag_of(
                            ps@[j],
                            params@[j],
                        ),
                decreases ps@.len() - i,
            {
                proof {
                    vstd::std_specs::vec::axiom_vec_index_decreases(s.type_params, i as int);
                    assert(decreases_to!(*type_input => (*type_input)->Struct_0));
                    assert(decreases_to!(*type_input => s.type_params));
                }
                match to_type_tag_(config, &ps[i], idx, known) {
                    Ok(tag) => params.push(tag),
                    Err(e) => return Err(e),
                }
                i += 1;
            }
            let (module, name) = match resolve_datatype_names(config, s, idx, known) {
                Ok(x) => x,
                Err(e) => return Err(e),
            };
            Ok(
                TypeTag::Struct(
                    Box::new(
                        StructTag {
                            address: copy_bytes(&s.address),
                            module,
                            name,
                            type_params: params,
                        },
                    ),
                ),
            )
        },
    }
}

} // verus!
