use vstd::prelude::*;
use crate::config::{ExecutionMode, ProtocolConfig};
use crate::errors::{command_argument_error, error_of, CommandArgumentError, ExecutionError, ExecutionErrorKind};
use crate::slots::{Arg, ArgumentTable, Slot};
use crate::types::{
    invariant_violation, is_tx_context, params_below, short_address, subst_of, tx_context_kind,
    AbilitySet, MoveType, TxContextKind,
};
use crate::value::{
    check_param_type, param_check, used_in_non_entry, value_bytes, Coin, ObjectContents, ObjectValue,
    RawValueType, Value,
};
use crate::types::{copy_bytes, ident_is, same_type};
use crate::wire::{bcs_bool, bcs_u64, encode, le_value, WireValue};

verus! {

/// Declared visibility of a function.
#[derive(Debug, Clone, Copy, PartialEq, Eq, Structural)]
pub enum Visibility {
    Private,
    Friend,
    Public,
}

/// Which kind of function a call targets.
#[derive(Debug, Clone, Copy, PartialEq, Eq, Structural)]
pub enum FunctionKind {
    PrivateEntry,
    PublicEntry,
    NonEntry,
    Init,
}

/// A function definition of a loaded module.
#[derive(Debug)]
pub struct FunctionDefinition {
    pub name: String,
    pub visibility: Visibility,
    pub is_entry: bool,
    /// Number of bytecode instructions; none for a native function.
    pub code_len: Option<u64>,
}

/// A loaded module: its address, its name and its function definitions.
#[derive(Debug)]
pub struct ModuleView {
    pub address: Vec<u8>,
    pub name: String,
    pub functions: Vec<FunctionDefinition>,
}

/// A function's signature with its type arguments substituted, and the
/// abilities of each return type once references are taken off.
#[derive(Debug)]
pub struct FunctionSignature {
    pub parameters: Vec<MoveType>,
    pub return_: Vec<MoveType>,
    pub return_abilities: Vec<AbilitySet>,
}

/// How a returned or written-back value is to be kept: as an object, or as a
/// raw value with the given abilities.
#[derive(Debug, Clone, Copy, PartialEq, Eq, Structural)]
pub enum ValueKind {
    Object { has_public_transfer: bool },
    Raw(AbilitySet),
}

/// What is known of a function about to be called.
#[derive(Debug)]
pub struct LoadedFunctionInfo {
    pub kind: FunctionKind,
    pub return_value_kinds: Vec<ValueKind>,
    /// Definition index of the function.
    pub index: usize,
    /// Offset of the last instruction, or 0 for a native function.
    pub last_instr: u64,
}

/// The name of module initializers.
pub open spec fn init_name() -> Seq<char> {
    "init"@
}

/// The kind of a call to `def` named `fname`, or why it may not be called.
pub open spec fn spec_function_kind(
    config: ProtocolConfig,
    mode: ExecutionMode,
    def: FunctionDefinition,
    fname: Seq<char>,
    from_init: bool,
) -> Result<FunctionKind, ExecutionError> {
    if !from_init && fname == init_name() && config.ban_entry_init {
        Err(error_of(ExecutionErrorKind::NonEntryFunctionInvoked))
    } else if def.is_entry {
        match def.visibility {
            Visibility::Public => Ok(FunctionKind::PublicEntry),
            _ => Ok(FunctionKind::PrivateEntry),
        }
    } else if def.visibility is Public {
        Ok(FunctionKind::NonEntry)
    } else if def.visibility is Private && from_init {
        if fname == init_name() {
            Ok(FunctionKind::Init)
        } else {
            Err(invariant_violation())
        }
    } else if mode.allow_arbitrary_function_calls {
        Ok(FunctionKind::NonEntry)
    } else {
        Err(error_of(ExecutionErrorKind::NonEntryFunctionInvoked))
    }
}

/// Decides which kind of function a call targets: entry functions of any
/// visibility, public functions, and module initializers (only from publishing).
pub fn function_kind(
    config: &ProtocolConfig,
    mode: &ExecutionMode,
    def: &FunctionDefinition,
    function: &String,
    from_init: bool,
) -> (r: Result<FunctionKind, ExecutionError>)
    ensures
        r == spec_function_kind(*config, *mode, *def, function@, from_init),
{
    let is_init = *function == "init".to_string();
    // entry on init is banned, so ban invoking it
    if !from_init && is_init && config.ban_entry_init {
        return Err(ExecutionError::from_kind(ExecutionErrorKind::NonEntryFunctionInvoked));
    }
    match (def.visibility, def.is_entry) {
        (Visibility::Private, true) | (Visibility::Friend, true) => Ok(FunctionKind::PrivateEntry),
        (Visibility::Public, true) => Ok(FunctionKind::PublicEntry),
        (Visibility::Public, false) => Ok(FunctionKind::NonEntry),
        (Visibility::Private, false) if from_init => {
            if is_init {
                Ok(FunctionKind::Init)
            } else {
                Err(ExecutionError::from_kind(ExecutionErrorKind::InvariantViolation))
            }
        },
        _ => {
            if mode.allow_arbitrary_function_calls {
                Ok(FunctionKind::NonEntry)
            } else {
                Err(ExecutionError::from_kind(ExecutionErrorKind::NonEntryFunctionInvoked))
            }
        },
    }
}

/// Functions of the framework's transfer module that only their public
/// variants may reach.
pub open spec fn is_private_transfer_function(f: Seq<char>) -> bool {
    f == "transfer"@ || f == "freeze_object"@ || f == "share_object"@ || f == "receive"@ || f
        == "party_transfer"@
}

pub open spec fn spec_private_generics(address: Seq<u8>, module: Seq<char>, function: Seq<char>) -> bool {
    address == short_address(2) && (module == "event"@ || (module == "transfer"@
        && is_private_transfer_function(function)))
}

/// Refuses direct calls into the framework's event module and into the private
/// transfer functions, which must be reached through their public wrappers.
pub fn check_private_generics(address: &Vec<u8>, module: &String, function: &String) -> (r: Result<
    (),
    ExecutionError,
>)
    ensures
        spec_private_generics(address@, module@, function@) ==> r == Err::<(), ExecutionError>(
            error_of(ExecutionErrorKind::NonEntryFunctionInvoked),
        ),
        !spec_private_generics(address@, module@, function@) ==> r == Ok::<(), ExecutionError>(()),
{
    let framework = is_framework(address);
    if framework && *module == "event".to_string() {
        return Err(ExecutionError::from_kind(ExecutionErrorKind::NonEntryFunctionInvoked));
    }
    if framework && *module == "transfer".to_string() {
        let private = *function == "transfer".to_string() || *function == "freeze_object".to_string()
            || *function == "share_object".to_string() || *function == "receive".to_string()
            || *function == "party_transfer".to_string();
        if private {
            return Err(ExecutionError::from_kind(ExecutionErrorKind::NonEntryFunctionInvoked));
        }
    }
    Ok(())
}

fn is_framework(a: &Vec<u8>) -> (r: bool)
    ensures
        r == (a@ == short_address(2)),
{
    if a.len() != 32 {
        return false;
    }
    let mut i: usize = 0;
    while i < 32
        invariant
            a@.len() == 32,
            i <= 32,
            forall|j: int| 0 <= j < i ==> a@[j] == short_address(2)[j],
        decreases 32 - i,
    {
        let expected: u8 = if i == 31 {
            2
        } else {
            0
        };
        if a[i] != expected {
            assert(a@[i as int] != short_address(2)[i as int]);
            return false;
        }
        i += 1;
    }
    assert(a@ =~= short_address(2));
    true
}

/// How return value `idx` of type `t` with abilities `ab` is kept.
pub open spec fn return_kind(mode: ExecutionMode, t: MoveType, ab: AbilitySet, idx: nat) -> Result<
    ValueKind,
    ExecutionError,
> {
    let base = match t {
        MoveType::Reference(inner) => if mode.allow_arbitrary_values {
            Some(*inner)
        } else {
            None
        },
        MoveType::MutableReference(inner) => if mode.allow_arbitrary_values {
            Some(*inner)
        } else {
            None
        },
        _ => Some(t),
    };
    match base {
        None => Err(error_of(ExecutionErrorKind::InvalidPublicFunctionReturnType { idx: idx as u16 })),
        Some(b) => match b {
            MoveType::TyParam(_) | MoveType::Reference(_) | MoveType::MutableReference(_) => Err(
                invariant_violation(),
            ),
            MoveType::Datatype(_) => if ab.key {
                Ok(ValueKind::Object { has_public_transfer: ab.store })
            } else {
                Ok(ValueKind::Raw(ab))
            },
            MoveType::DatatypeInstantiation(_, _) => if ab.key {
                Ok(ValueKind::Object { has_public_transfer: ab.store })
            } else {
                Ok(ValueKind::Raw(ab))
            },
            _ => Ok(ValueKind::Raw(ab)),
        },
    }
}

/// The kinds of return values `k..`, or the first failure among them.
pub open spec fn return_kinds_from(
    mode: ExecutionMode,
    rets: Seq<MoveType>,
    abs: Seq<AbilitySet>,
    k: nat,
) -> Result<Seq<ValueKind>, ExecutionError>
    decreases rets.len() - k,
{
    if k >= rets.len() {
        Ok(Seq::empty())
    } else {
        match return_kind(mode, rets[k as int], abs[k as int], k) {
            Err(e) => Err(e),
            Ok(vk) => match return_kinds_from(mode, rets, abs, k + 1) {
                Ok(rest) => Ok(seq![vk] + rest),
                Err(e) => Err(e),
            },
        }
    }
}

/// Checks that a function callable from a transaction returns no references
/// (inspection runs dereference them) and marks each return value as an object
/// or a raw value.
pub fn check_non_entry_signature(mode: &ExecutionMode, signature: &FunctionSignature) -> (r: Result<
    Vec<ValueKind>,
    ExecutionError,
>)
    requires
        signature.return_abilities@.len() == signature.return_@.len(),
        signature.return_@.len() <= u16::MAX + 1,
    ensures
        match return_kinds_from(*mode, signature.return_@, signature.return_abilities@, 0) {
            Ok(kinds) => r matches Ok(v) && v@ == kinds,
            Err(e) => r == Err::<Vec<ValueKind>, ExecutionError>(e),
        },
{
    let rets = &signature.return_;
    let abs = &signature.return_abilities;
    let mut out: Vec<ValueKind> = Vec::new();
    let mut k: usize = 0;
    while k < rets.len()
        invariant
            rets@ == signature.return_@,
            abs@ == signature.return_abilities@,
            k <= rets@.len(),
            abs@.len() == rets@.len(),
            rets@.len() <= u16::MAX + 1,
            return_kinds_from(*mode, rets@, abs@, 0) == match return_kinds_from(
                *mode,
                rets@,
                abs@,
                k as nat,
            ) {
                Ok(rest) => Ok::<Seq<ValueKind>, ExecutionError>(out@ + rest),
                Err(e) => Err(e),
            },
        decreases rets@.len() - k,
    {
        let ab = abs[k];
        let ghost rk = return_kind(*mode, rets@[k as int], abs@[k as int], k as nat);
        proof {
            assert(return_kinds_from(*mode, rets@, abs@, k as nat) == match rk {
                Err(e) => Err(e),
                Ok(vk) => match return_kinds_from(*mode, rets@, abs@, (k + 1) as nat) {
                    Ok(rest) => Ok(seq![vk] + rest),
                    Err(e) => Err(e),
                },
            });
        }
        let base: &MoveType = match &rets[k] {
            MoveType::Reference(inner) | MoveType::MutableReference(inner) => {
                if mode.allow_arbitrary_values {
                    inner
                } else {
                    return Err(
                        ExecutionError::from_kind(
                            ExecutionErrorKind::InvalidPublicFunctionReturnType { idx: k as u16 },
                        ),
                    );
                }
            },
            t => t,
        };
        let vk = match base {
            MoveType::TyParam(_) | MoveType::Reference(_) | MoveType::MutableReference(_) => {
                return Err(ExecutionError::from_kind(ExecutionErrorKind::InvariantViolation));
            },
            MoveType::Datatype(_) | MoveType::DatatypeInstantiation(_, _) => {
                if ab.key {
                    ValueKind::Object { has_public_transfer: ab.store }
                } else {
                    ValueKind::Raw(ab)
                }
            },
            _ => ValueKind::Raw(ab),
        };
        let ghost prev = out@;
        out.push(vk);
        proof {
            match return_kinds_from(*mode, rets@, abs@, (k + 1) as nat) {
                Ok(rest) => {
                    assert(prev + (seq![vk] + rest) =~= out@ + rest);
                },
                Err(_) => {},
            }
        }
        k += 1;
    }
    assert(out@ + Seq::<ValueKind>::empty() =~= out@);
    Ok(out)
}

fn find_function(defs: &Vec<FunctionDefinition>, name: &String) -> (r: Option<usize>)
    ensures
        match r {
            Some(i) => i < defs@.len() && defs@[i as int].name@ == name@ && forall|j: int|
                0 <= j < i ==> defs@[j].name@ != name@,
            None => forall|j: int| 0 <= j < defs@.len() ==> defs@[j].name@ != name@,
        },
{
    let mut i: usize = 0;
    while i < defs.len()
        invariant
            i <= defs@.len(),
            forall|j: int| 0 <= j < i ==> defs@[j].name@ != name@,
        decreases defs@.len() - i,
    {
        if defs[i].name == *name {
            return Some(i);
        }
        i += 1;
    }
    None
}

/// A call to `def`, found under the name `fname` in `module`, may go ahead.
pub open spec fn callable(
    config: ProtocolConfig,
    mode: ExecutionMode,
    module: ModuleView,
    def: FunctionDefinition,
    fname: Seq<char>,
    signature: FunctionSignature,
    from_init: bool,
) -> bool {
    &&& !spec_private_generics(module.address@, module.name@, fname)
    &&& match spec_function_kind(config, mode, def, fname, from_init) {
        Ok(kind) => if kind is Init {
            signature.return_@.len() == 0
        } else {
            return_kinds_from(mode, signature.return_@, signature.return_abilities@, 0) is Ok
        },
        Err(_) => false,
    }
}

/// Why a call to `def`, found under the name `fname` in `module`, may not go
/// ahead, checked in this order: its kind, its return types, the framework's
/// private functions.
pub open spec fn call_refusal(
    config: ProtocolConfig,
    mode: ExecutionMode,
    module: ModuleView,
    def: FunctionDefinition,
    fname: Seq<char>,
    signature: FunctionSignature,
    from_init: bool,
) -> Option<ExecutionError> {
    let private = if spec_private_generics(module.address@, module.name@, fname) {
        Some(error_of(ExecutionErrorKind::NonEntryFunctionInvoked))
    } else {
        None
    };
    match spec_function_kind(config, mode, def, fname, from_init) {
        Err(e) => Some(e),
        Ok(kind) => if kind is Init {
            if signature.return_@.len() != 0 {
                Some(invariant_violation())
            } else {
                private
            }
        } else {
            match return_kinds_from(mode, signature.return_@, signature.return_abilities@, 0) {
                Err(e) => Some(e),
                Ok(_) => private,
            }
        },
    }
}

/// Resolves the function a call targets and checks that it may be called: an
/// entry function, a public function that returns no references, or a module
/// initializer (only from publishing); calls into the framework's private
/// functions are refused.
pub fn check_visibility_and_signature(
    config: &ProtocolConfig,
    mode: &ExecutionMode,
    module: &ModuleView,
    function: &String,
    signature: &FunctionSignature,
    from_init: bool,
) -> (r: Result<LoadedFunctionInfo, ExecutionError>)
    requires
        signature.return_abilities@.len() == signature.return_@.len(),
        signature.return_@.len() <= u16::MAX + 1,
    ensures
        (forall|j: int| 0 <= j < module.functions@.len() ==> module.functions@[j].name@ != function@)
            ==> r == Err::<LoadedFunctionInfo, ExecutionError>(
            error_of(ExecutionErrorKind::FunctionNotFound),
        ),
        forall|i: int|
            #[trigger] first_named(*module, function@, i)
                && callable(*config, *mode, *module, module.functions@[i], function@, *signature, from_init)
                ==> r is Ok,
        forall|i: int|
            #[trigger] first_named(*module, function@, i)
                && call_refusal(*config, *mode, *module, module.functions@[i], function@, *signature, from_init) is Some
                ==> r == Err::<LoadedFunctionInfo, ExecutionError>(
                call_refusal(*config, *mode, *module, module.functions@[i], function@, *signature, from_init).unwrap(),
            ),
        r matches Ok(info) ==> {
            &&& info.index < module.functions@.len()
            &&& module.functions@[info.index as int].name@ == function@
            &&& forall|j: int| 0 <= j < info.index ==> module.functions@[j].name@ != function@
            &&& spec_function_kind(
                *config,
                *mode,
                module.functions@[info.index as int],
                function@,
                from_init,
            ) == Ok::<FunctionKind, ExecutionError>(info.kind)
            &&& !spec_private_generics(module.address@, module.name@, function@)
            &&& info.kind is Init ==> signature.return_@.len() == 0 && info.return_value_kinds@.len()
                == 0
            &&& !(info.kind is Init) ==> return_kinds_from(
                *mode,
                signature.return_@,
                signature.return_abilities@,
                0,
            ) == Ok::<Seq<ValueKind>, ExecutionError>(info.return_value_kinds@)
        },
{
    let index = match find_function(&module.functions, function) {
        Some(i) => i,
        None => {
            return Err(ExecutionError::from_kind(ExecutionErrorKind::FunctionNotFound));
        },
    };
    let fdef = &module.functions[index];
    let kind = match function_kind(config, mode, fdef, function, from_init) {
        Ok(k) => k,
        Err(e) => return Err(e),
    };
    let last_instr: u64 = match fdef.code_len {
        Some(n) if n > 0 => n - 1,
        _ => 0,
    };
    let return_value_kinds = match kind {
        FunctionKind::Init => {
            if signature.return_.len() != 0 {
                // init functions have no return values
                return Err(ExecutionError::from_kind(ExecutionErrorKind::InvariantViolation));
            }
            Vec::new()
        },
        _ => match check_non_entry_signature(mode, signature) {
            Ok(v) => v,
            Err(e) => return Err(e),
        },
    };
    match check_private_generics(&module.address, &module.name, function) {
        Ok(()) => {},
        Err(e) => return Err(e),
    }
    Ok(LoadedFunctionInfo { kind, return_value_kinds, index, last_instr })
}

/// The type a parameter's value must have: the referenced type for a
/// reference parameter, the parameter type otherwise.
pub open spec fn base_type(t: MoveType) -> MoveType {
    match t {
        MoveType::MutableReference(inner) => *inner,
        MoveType::Reference(inner) => *inner,
        _ => t,
    }
}

/// A private entry function or an initializer may not take values produced by
/// a call to a non-entry function.
pub open spec fn guards_privacy(kind: FunctionKind) -> bool {
    kind is PrivateEntry || kind is Init
}

/// The outcome of checking value `v` as argument `idx` of a call to a function
/// of kind `kind` whose parameter has type `t`.
pub open spec fn arg_check(
    config: ProtocolConfig,
    mode: ExecutionMode,
    kind: FunctionKind,
    idx: u16,
    v: Value,
    t: MoveType,
) -> Result<(), ExecutionError> {
    if guards_privacy(kind) && used_in_non_entry(v) {
        Err(
            command_argument_error(
                CommandArgumentError::InvalidArgumentToPrivateEntryFunction,
                idx,
            ),
        )
    } else {
        param_check(config, mode, idx, v, t)
    }
}

fn check_and_serialize(
    config: &ProtocolConfig,
    mode: &ExecutionMode,
    kind: FunctionKind,
    idx: u16,
    value: &Value,
    param_ty: &MoveType,
) -> (r: Result<Vec<u8>, ExecutionError>)
    requires
        config.max_move_value_depth > 0,
    ensures
        match arg_check(*config, *mode, kind, idx, *value, *param_ty) {
            Ok(_) => r matches Ok(b) && b@ == value_bytes(*value),
            Err(e) => r == Err::<Vec<u8>, ExecutionError>(e),
        },
{
    let private = match kind {
        FunctionKind::PrivateEntry | FunctionKind::Init => true,
        _ => false,
    };
    if private && value.was_used_in_non_entry_move_call() {
        return Err(
            ExecutionError::command_argument(
                CommandArgumentError::InvalidArgumentToPrivateEntryFunction,
                idx,
            ),
        );
    }
    match check_param_type(config, mode, idx, value, param_ty) {
        Ok(()) => {},
        Err(e) => return Err(e),
    }
    let mut bytes: Vec<u8> = Vec::new();
    match value.write_bcs_bytes(&mut bytes, None) {
        Ok(()) => {},
        Err(e) => return Err(e),
    }
    assert(Seq::<u8>::empty() + value_bytes(*value) =~= value_bytes(*value));
    Ok(bytes)
}

/// The arguments of a call, ready for the VM: whether the transaction context
/// is appended, which arguments were borrowed mutably (to be written back),
/// and the bytes of each explicit argument.
#[derive(Debug)]
pub struct ArgInfo {
    pub tx_context_kind: TxContextKind,
    pub by_mut_ref: Vec<(usize, ValueKind)>,
    pub serialized: Vec<Vec<u8>>,
}

/// Which reference to the transaction context the last parameter is.
pub open spec fn trailing_context(params: Seq<MoveType>) -> TxContextKind {
    if params.len() == 0 {
        TxContextKind::NoContext
    } else {
        tx_context_kind(params.last())
    }
}

/// An initializer with two parameters also takes a one-time witness.
pub open spec fn has_witness(kind: FunctionKind, params: Seq<MoveType>) -> bool {
    kind is Init && params.len() == 2
}

/// Where the explicit arguments start among the serialized ones.
pub open spec fn witness_offset(kind: FunctionKind, params: Seq<MoveType>) -> int {
    if has_witness(kind, params) {
        1
    } else {
        0
    }
}

/// How many parameters a call with `n` explicit arguments fills.
pub open spec fn filled_params(kind: FunctionKind, params: Seq<MoveType>, n: nat) -> nat {
    n + (if has_witness(kind, params) {
        1nat
    } else {
        0nat
    }) + (if trailing_context(params) is NoContext {
        0nat
    } else {
        1nat
    })
}

/// The value that `arg` names in `table`, if it names a slot holding one.
pub open spec fn arg_value(table: ArgumentTable, arg: Arg) -> Option<Value> {
    match table.spec_resolve(arg) {
        Some(s) => table.slots@[s as int].value,
        None => None,
    }
}

/// What holds of explicit argument `j` once it has been marshalled.
pub open spec fn marshalled(
    config: ProtocolConfig,
    mode: ExecutionMode,
    kind: FunctionKind,
    table: ArgumentTable,
    params: Seq<MoveType>,
    args: Seq<Arg>,
    serialized: Seq<Vec<u8>>,
    offset: int,
    j: int,
) -> bool {
    match arg_value(table, args[j]) {
        Some(v) => {
            &&& serialized[j + offset]@ == value_bytes(v)
            &&& arg_check(config, mode, kind, j as u16, v, base_type(params[j])) == Ok::<
                (),
                ExecutionError,
            >(())
            &&& guards_privacy(kind) ==> !used_in_non_entry(v)
        },
        None => false,
    }
}

/// How explicit argument `i` is taken from the slots: an exclusive borrow for a
/// mutable reference parameter, a shared borrow for an immutable one, moved out
/// otherwise; or the error that stops the call there.
pub open spec fn arg_step(
    config: ProtocolConfig,
    mode: ExecutionMode,
    kind: FunctionKind,
    table: ArgumentTable,
    slots: Seq<Slot>,
    params: Seq<MoveType>,
    args: Seq<Arg>,
    i: int,
) -> Result<Seq<Slot>, ExecutionError> {
    match table.spec_resolve(args[i]) {
        None => Err(table.unresolved_error(args[i], i as u16)),
        Some(s) => match slots[s as int].value {
            None => Err(command_argument_error(CommandArgumentError::InvalidValueUsage, i as u16)),
            Some(v) => match arg_check(config, mode, kind, i as u16, v, base_type(params[i])) {
                Err(e) => Err(e),
                Ok(_) => Ok(
                    match params[i] {
                        MoveType::MutableReference(_) => slots.update(
                            s as int,
                            Slot { value: None, borrowed: true },
                        ),
                        MoveType::Reference(_) => slots,
                        _ => slots.update(s as int, Slot { value: None, borrowed: false }),
                    },
                ),
            },
        },
    }
}

/// Takes explicit arguments `i..` in order: the slots afterwards, or the first
/// error met.
pub open spec fn args_run(
    config: ProtocolConfig,
    mode: ExecutionMode,
    kind: FunctionKind,
    table: ArgumentTable,
    slots: Seq<Slot>,
    params: Seq<MoveType>,
    args: Seq<Arg>,
    i: int,
) -> Result<Seq<Slot>, ExecutionError>
    decreases args.len() - i,
{
    if i < 0 || i >= args.len() {
        Ok(slots)
    } else {
        match arg_step(config, mode, kind, table, slots, params, args, i) {
            Err(e) => Err(e),
            Ok(next) => args_run(config, mode, kind, table, next, params, args, i + 1),
        }
    }
}

/// The positions among the first `n` parameters that are mutable references.
pub open spec fn mut_ref_positions(params: Seq<MoveType>, n: int) -> Seq<usize>
    decreases n,
{
    if n <= 0 {
        Seq::empty()
    } else if params[n - 1] is MutableReference {
        mut_ref_positions(params, n - 1).push((n - 1) as usize)
    } else {
        mut_ref_positions(params, n - 1)
    }
}

pub open spec fn positions_of(entries: Seq<(usize, ValueKind)>) -> Seq<usize> {
    Seq::new(entries.len(), |k: int| entries[k].0)
}

/// Resolves and type-checks the explicit arguments of a call and serializes
/// them. Mutable reference parameters take their argument on an exclusive
/// borrow, immutable ones on a shared borrow, the rest by value. The trailing
/// transaction context and an initializer's one-time witness are implicit.
pub fn build_move_args(
    config: &ProtocolConfig,
    mode: &ExecutionMode,
    table: &mut ArgumentTable,
    function_kind: FunctionKind,
    parameters: &Vec<MoveType>,
    param_abilities: &Vec<AbilitySet>,
    args: &Vec<Arg>,
) -> (r: Result<ArgInfo, ExecutionError>)
    requires
        old(table).wf(),
        config.max_move_value_depth > 0,
        param_abilities@.len() == parameters@.len(),
        args@.len() <= u16::MAX + 1,
    ensures
        final(table).wf(),
        final(table).num_inputs == old(table).num_inputs,
        final(table).results == old(table).results,
        filled_params(function_kind, parameters@, args@.len()) != parameters@.len() ==> r
            == Err::<ArgInfo, ExecutionError>(error_of(ExecutionErrorKind::ArityMismatch))
            && *final(table) == *old(table),
        filled_params(function_kind, parameters@, args@.len()) == parameters@.len() ==> match args_run(
            *config,
            *mode,
            function_kind,
            *old(table),
            old(table).slots@,
            parameters@,
            args@,
            0,
        ) {
            Ok(s) => r is Ok && final(table).slots@ == s,
            Err(e) => r matches Err(x) && x == e,
        },
        r matches Ok(info) ==> {
            &&& positions_of(info.by_mut_ref@) == mut_ref_positions(parameters@, args@.len() as int)
            &&& filled_params(function_kind, parameters@, args@.len()) == parameters@.len()
            &&& info.tx_context_kind == trailing_context(parameters@)
            &&& info.serialized@.len() == args@.len() + witness_offset(function_kind, parameters@)
            &&& witness_offset(function_kind, parameters@) == 1 ==> info.serialized@[0]@ == encode(WireValue::Bool(true))
            &&& forall|j: int|
                0 <= j < args@.len() ==> marshalled(
                    *config,
                    *mode,
                    function_kind,
                    *old(table),
                    parameters@,
                    args@,
                    info.serialized@,
                    witness_offset(function_kind, parameters@),
                    j,
                )
        },
{
    let tx_ctx_kind = if parameters.len() > 0 {
        is_tx_context(&parameters[parameters.len() - 1])
    } else {
        TxContextKind::NoContext
    };
    let has_one_time_witness = match function_kind {
        FunctionKind::Init => parameters.len() == 2,
        _ => false,
    };
    let has_tx_context = match tx_ctx_kind {
        TxContextKind::NoContext => false,
        _ => true,
    };
    let extra: usize = (if has_one_time_witness {
        1
    } else {
        0
    }) + (if has_tx_context {
        1
    } else {
        0
    });
    if args.len() > parameters.len() || args.len() + extra != parameters.len() {
        return Err(ExecutionError::from_kind(ExecutionErrorKind::ArityMismatch));
    }
    let ghost offset: int = if has_one_time_witness {
        1
    } else {
        0
    };
    let mut by_mut_ref: Vec<(usize, ValueKind)> = Vec::new();
    let mut serialized: Vec<Vec<u8>> = Vec::new();
    if has_one_time_witness {
        // the one-time witness is a struct with a single bool field, set to true
        serialized.push(bcs_bool(true));
    }
    let mut i: usize = 0;
    while i < args.len()
        invariant
            table.wf(),
            old(table).wf(),
            table.num_inputs == old(table).num_inputs,
            table.results == old(table).results,
            table.slots@.len() == old(table).slots@.len(),
            forall|s: int|
                0 <= s < table.slots@.len() && (#[trigger] table.slots@[s]).value is Some
                    ==> table.slots@[s].value == old(table).slots@[s].value,
            args@.len() <= parameters@.len(),
            filled_params(function_kind, parameters@, args@.len()) == parameters@.len(),
            args@.len() <= u16::MAX + 1,
            param_abilities@.len() == parameters@.len(),
            config.max_move_value_depth > 0,
            i <= args@.len(),
            offset == (if has_one_time_witness {
                1int
            } else {
                0int
            }),
            serialized@.len() == i + offset,
            offset == 1 ==> serialized@[0]@ == encode(WireValue::Bool(true)),
            args_run(*config, *mode, function_kind, *old(table), old(table).slots@, parameters@, args@, 0)
                == args_run(*config, *mode, function_kind, *old(table), table.slots@, parameters@, args@, i as int),
            positions_of(by_mut_ref@) == mut_ref_positions(parameters@, i as int),
            forall|j: int|
                0 <= j < i ==> marshalled(
                    *config,
                    *mode,
                    function_kind,
                    *old(table),
                    parameters@,
                    args@,
                    serialized@,
                    offset,
                    j,
                ),
        decreases args@.len() - i,
    {
        let arg = args[i];
        let idx = i as u16;
        let ghost slots_before = table.slots@;
        proof {
            assert(args_run(*config, *mode, function_kind, *old(table), table.slots@, parameters@, args@, i as int)
                == match arg_step(*config, *mode, function_kind, *old(table), table.slots@, parameters@, args@, i as int) {
                    Err(e) => Err(e),
                    Ok(next) => args_run(*config, *mode, function_kind, *old(table), next, parameters@, args@, i + 1),
                });
        }
        let ghost prev_refs = by_mut_ref@;
        let bytes = match &parameters[i] {
            MoveType::MutableReference(inner) => {
                let value = match table.borrow_mut(idx, arg) {
                    Ok(v) => v,
                    Err(e) => return Err(e),
                };
                let info = match &value {
                    Value::Object(obj) => ValueKind::Object {
                        has_public_transfer: obj.has_public_transfer,
                    },
                    _ => ValueKind::Raw(param_abilities[i]),
                };
                by_mut_ref.push((i, info));
                match check_and_serialize(config, mode, function_kind, idx, &value, inner) {
                    Ok(b) => b,
                    Err(e) => return Err(e),
                }
            },
            MoveType::Reference(inner) => {
                let value = match table.borrow(idx, arg) {
                    Ok(v) => v,
                    Err(e) => return Err(e),
                };
                match check_and_serialize(config, mode, function_kind, idx, value, inner) {
                    Ok(b) => b,
                    Err(e) => return Err(e),
                }
            },
            t => {
                let value = match table.by_value(idx, arg) {
                    Ok(v) => v,
                    Err(e) => return Err(e),
                };
                match check_and_serialize(config, mode, function_kind, idx, &value, t) {
                    Ok(b) => b,
                    Err(e) => return Err(e),
                }
            },
        };
        let ghost prev = serialized@;
        serialized.push(bytes);
        proof {
            assert(arg_step(*config, *mode, function_kind, *old(table), slots_before, parameters@, args@, i as int)
                == Ok::<Seq<Slot>, ExecutionError>(table.slots@));
            assert(positions_of(by_mut_ref@) =~= mut_ref_positions(parameters@, i + 1)) by {
                if parameters@[i as int] is MutableReference {
                    assert(positions_of(by_mut_ref@) =~= positions_of(prev_refs).push(i));
                } else {
                    assert(by_mut_ref@ == prev_refs);
                }
            }
            assert forall|j: int| 0 <= j < i + 1 implies marshalled(
                *config,
                *mode,
                function_kind,
                *old(table),
                parameters@,
                args@,
                serialized@,
                offset,
                j,
            ) by {
                assert(serialized@[j + offset] == if j + offset < prev.len() {
                    prev[j + offset]
                } else {
                    bytes
                });
                if j < i {
                    assert(marshalled(
                        *config,
                        *mode,
                        function_kind,
                        *old(table),
                        parameters@,
                        args@,
                        prev,
                        offset,
                        j,
                    ));
                }
            }
        }
        i += 1;
    }
    Ok(ArgInfo { tx_context_kind: tx_ctx_kind, by_mut_ref, serialized })
}

/// `i` is the first definition in `module` named `fname`.
pub open spec fn first_named(module: ModuleView, fname: Seq<char>, i: int) -> bool {
    &&& 0 <= i < module.functions@.len()
    &&& module.functions@[i].name@ == fname
    &&& forall|j: int| 0 <= j < i ==> module.functions@[j].name@ != fname
}

/// The kind of a call to the definition at `i`, once it is callable.
pub open spec fn kind_at(
    config: ProtocolConfig,
    mode: ExecutionMode,
    module: ModuleView,
    fname: Seq<char>,
    i: int,
    from_init: bool,
) -> FunctionKind {
    spec_function_kind(config, mode, module.functions@[i], fname, from_init)->Ok_0
}

/// Everything a call needs before the VM runs it: the function must be
/// callable, and its arguments are resolved, checked and serialized. A call
/// from publication (`is_init`) targets a module initializer.
#[verifier::rlimit(100)]
pub fn prepare_move_call(
    config: &ProtocolConfig,
    mode: &ExecutionMode,
    table: &mut ArgumentTable,
    module: &ModuleView,
    function: &String,
    signature: &FunctionSignature,
    param_abilities: &Vec<AbilitySet>,
    args: &Vec<Arg>,
    is_init: bool,
) -> (r: Result<(LoadedFunctionInfo, ArgInfo), ExecutionError>)
    requires
        old(table).wf(),
        config.max_move_value_depth > 0,
        signature.return_abilities@.len() == signature.return_@.len(),
        signature.return_@.len() <= u16::MAX + 1,
        param_abilities@.len() == signature.parameters@.len(),
        args@.len() <= u16::MAX + 1,
    ensures
        final(table).wf(),
        final(table).num_inputs == old(table).num_inputs,
        final(table).results == old(table).results,
        forall|i: int|
            #[trigger] first_named(*module, function@, i) && call_refusal(
                *config,
                *mode,
                *module,
                module.functions@[i],
                function@,
                *signature,
                is_init,
            ) is Some ==> r == Err::<(LoadedFunctionInfo, ArgInfo), ExecutionError>(
                call_refusal(
                    *config,
                    *mode,
                    *module,
                    module.functions@[i],
                    function@,
                    *signature,
                    is_init,
                ).unwrap(),
            ),
        forall|i: int|
            #[trigger] first_named(*module, function@, i) && callable(
                *config,
                *mode,
                *module,
                module.functions@[i],
                function@,
                *signature,
                is_init,
            ) ==> {
                let kind = kind_at(*config, *mode, *module, function@, i, is_init);
                if filled_params(kind, signature.parameters@, args@.len())
                    != signature.parameters@.len() {
                    r == Err::<(LoadedFunctionInfo, ArgInfo), ExecutionError>(
                        error_of(ExecutionErrorKind::ArityMismatch),
                    )
                } else {
                    match args_run(
                        *config,
                        *mode,
                        kind,
                        *old(table),
                        old(table).slots@,
                        signature.parameters@,
                        args@,
                        0,
                    ) {
                        Ok(s) => r is Ok && final(table).slots@ == s,
                        Err(e) => r matches Err(x) && x == e,
                    }
                }
            },
        r matches Ok((info, _)) ==> first_named(*module, function@, info.index as int) && info.kind
            == kind_at(*config, *mode, *module, function@, info.index as int, is_init),
{
    let info = match check_visibility_and_signature(config, mode, module, function, signature, is_init) {
        Ok(i) => i,
        Err(e) => return Err(e),
    };
    let arg_info = match build_move_args(
        config,
        mode,
        table,
        info.kind,
        &signature.parameters,
        param_abilities,
        args,
    ) {
        Ok(a) => a,
        Err(e) => return Err(e),
    };
    Ok((info, arg_info))
}

/// A function's parameter and return types, possibly over type parameters.
#[derive(Debug)]
pub struct LoadedFunctionInstantiation {
    pub parameters: Vec<MoveType>,
    pub return_: Vec<MoveType>,
}

/// Every type of `ts` has its type parameters below `n`.
pub open spec fn all_params_below(ts: Seq<MoveType>, n: nat) -> bool {
    forall|i: int| 0 <= i < ts.len() ==> params_below(#[trigger] ts[i], n)
}

/// `rs` is `ts` with the type arguments substituted.
pub open spec fn all_subst_of(ts: Seq<MoveType>, args: Seq<MoveType>, rs: Seq<MoveType>) -> bool {
    ts.len() == rs.len() && forall|i: int| 0 <= i < ts.len() ==> subst_of(#[trigger] ts[i], args, rs[i])
}

fn subst_all(ts: &Vec<MoveType>, args: &Vec<MoveType>) -> (r: Result<Vec<MoveType>, ExecutionError>)
    ensures
        all_params_below(ts@, args@.len()) <==> r is Ok,
        r matches Ok(rs) ==> all_subst_of(ts@, args@, rs@),
        r is Err ==> r == Err::<Vec<MoveType>, ExecutionError>(
            error_of(ExecutionErrorKind::VMInvariantViolation),
        ),
{
    let mut rs: Vec<MoveType> = Vec::new();
    let mut i: usize = 0;
    while i < ts.len()
        invariant
            i <= ts@.len(),
            rs@.len() == i,
            forall|j: int|
                0 <= j < i ==> params_below(#[trigger] ts@[j], args@.len()) && subst_of(
                    ts@[j],
                    args@,
                    rs@[j],
                ),
        decreases ts@.len() - i,
    {
        match ts[i].subst(args) {
            Ok(x) => rs.push(x),
            Err(e) => return Err(e),
        }
        i += 1;
    }
    Ok(rs)
}

/// Substitutes the type arguments into the parameter and return types.
pub fn subst_signature(signature: LoadedFunctionInstantiation, type_arguments: &Vec<MoveType>) -> (r:
    Result<LoadedFunctionInstantiation, ExecutionError>)
    ensures
        all_params_below(signature.parameters@, type_arguments@.len()) && all_params_below(
            signature.return_@,
            type_arguments@.len(),
        ) <==> r is Ok,
        r matches Ok(s) ==> all_subst_of(signature.parameters@, type_arguments@, s.parameters@)
            && all_subst_of(signature.return_@, type_arguments@, s.return_@),
{
    let parameters = match subst_all(&signature.parameters, type_arguments) {
        Ok(p) => p,
        Err(e) => return Err(e),
    };
    let return_ = match subst_all(&signature.return_, type_arguments) {
        Ok(p) => p,
        Err(e) => return Err(e),
    };
    Ok(LoadedFunctionInstantiation { parameters, return_ })
}

/// A coin type: `0x2::coin::Coin<T>`.
pub open spec fn is_coin_type(t: MoveType) -> bool {
    match t {
        MoveType::DatatypeInstantiation(d, xs) => ident_is(d, 2, "coin"@, "Coin"@) && xs@.len() == 1,
        _ => false,
    }
}

/// The value that bytes returned by a call become: an object for a type with
/// `key` (a coin when the type is a coin type and the bytes a coin's), a raw
/// value otherwise.
pub open spec fn made_value(kind: ValueKind, ty: MoveType, bytes: Seq<u8>, used: bool, v: Value) -> bool {
    match kind {
        ValueKind::Raw(ab) => match v {
            Value::Raw(RawValueType::Loaded { ty: t, abilities, used_in_non_entry_move_call }, b) => same_type(
                t,
                ty,
            ) && abilities == ab && used_in_non_entry_move_call == used && b@ == bytes,
            _ => false,
        },
        ValueKind::Object { has_public_transfer } => match v {
            Value::Object(o) => {
                &&& same_type(o.type_, ty)
                &&& o.has_public_transfer == has_public_transfer
                &&& o.used_in_non_entry_move_call == used
                &&& if is_coin_type(o.type_) && bytes.len() == 40 {
                    o.contents matches ObjectContents::Coin(c) && c.id@ == bytes.take(32)
                        && c.balance as nat == le_value(bytes.skip(32))
                } else {
                    o.contents matches ObjectContents::Raw(b) && b@ == bytes
                }
            },
            _ => false,
        },
    }
}

fn is_coin(ty: &MoveType) -> (r: bool)
    ensures
        r == is_coin_type(*ty),
{
    match ty {
        MoveType::DatatypeInstantiation(d, xs) => d.is(2, "coin", "Coin") && xs.len() == 1,
        _ => false,
    }
}

fn slice_bytes(b: &Vec<u8>, start: usize, end: usize) -> (r: Vec<u8>)
    requires
        start <= end <= b@.len(),
    ensures
        r@ == b@.subrange(start as int, end as int),
{
    let mut out: Vec<u8> = Vec::new();
    let mut i = start;
    while i < end
        invariant
            start <= i <= end <= b@.len(),
            out@ == b@.subrange(start as int, i as int),
        decreases end - i,
    {
        out.push(b[i]);
        assert(b@.subrange(start as int, i + 1) =~= b@.subrange(start as int, i as int).push(b@[i as int]));
        i += 1;
    }
    out
}

/// Wraps bytes returned by a call as a value of the given kind and type.
pub fn make_value(kind: ValueKind, ty: MoveType, bytes: Vec<u8>, used_in_non_entry_move_call: bool) -> (r:
    Value)
    ensures
        made_value(kind, ty, bytes@, used_in_non_entry_move_call, r),
{
    proof {
        crate::types::lemma_same_type_reflexive(ty);
    }
    match kind {
        ValueKind::Raw(abilities) => Value::Raw(
            RawValueType::Loaded { ty, abilities, used_in_non_entry_move_call },
            bytes,
        ),
        ValueKind::Object { has_public_transfer } => {
            let contents = if is_coin(&ty) && bytes.len() == 40 {
                let id = slice_bytes(&bytes, 0, 32);
                let amount = slice_bytes(&bytes, 32, 40);
                match bcs_u64(&amount) {
                    Some(balance) => {
                        assert(bytes@.subrange(0, 32) =~= bytes@.take(32));
                        assert(bytes@.subrange(32, 40) =~= bytes@.skip(32));
                        ObjectContents::Coin(Coin { id, balance })
                    },
                    None => ObjectContents::Raw(bytes),
                }
            } else {
                ObjectContents::Raw(bytes)
            };
            Value::Object(
                ObjectValue { type_: ty, has_public_transfer, used_in_non_entry_move_call, contents },
            )
        },
    }
}

/// The slot of the argument that the `k`-th mutable reference output goes back to.
pub open spec fn write_back_slot(
    table: ArgumentTable,
    arguments: Seq<Arg>,
    by_mut_ref: Seq<(usize, ValueKind)>,
    k: int,
) -> Option<usize> {
    if (by_mut_ref[k].0 as int) < arguments.len() {
        table.spec_resolve(arguments[by_mut_ref[k].0 as int])
    } else {
        None
    }
}

/// The outputs line up with the borrowed arguments: as many of each, each
/// output for the argument recorded at its position, every such argument's slot
/// out on an exclusive borrow, and no slot named twice.
pub open spec fn write_back_ready(
    table: ArgumentTable,
    arguments: Seq<Arg>,
    mut_ref_values: Seq<(usize, Vec<u8>)>,
    by_mut_ref: Seq<(usize, ValueKind)>,
    mut_ref_types: Seq<MoveType>,
) -> bool {
    &&& mut_ref_values.len() == by_mut_ref.len()
    &&& mut_ref_types.len() == by_mut_ref.len()
    &&& forall|k: int|
        0 <= k < by_mut_ref.len() ==> mut_ref_values[k].0 == (#[trigger] by_mut_ref[k]).0
            && write_back_slot(table, arguments, by_mut_ref, k) is Some && table.slots@[write_back_slot(
            table,
            arguments,
            by_mut_ref,
            k,
        )->Some_0 as int].borrowed
    &&& forall|k1: int, k2: int|
        0 <= k1 < by_mut_ref.len() && 0 <= k2 < by_mut_ref.len() && k1 != k2 ==> #[trigger] write_back_slot(
            table,
            arguments,
            by_mut_ref,
            k1,
        ) != #[trigger] write_back_slot(table, arguments, by_mut_ref, k2)
}

/// Slot `s` holds, not borrowed, the value made of `bytes` as `kind` of `ty`.
pub open spec fn restored_with(
    table: ArgumentTable,
    s: int,
    kind: ValueKind,
    ty: MoveType,
    bytes: Seq<u8>,
    used: bool,
) -> bool {
    &&& !table.slots@[s].borrowed
    &&& match table.slots@[s].value {
        Some(v) => made_value(kind, ty, bytes, used, v),
        None => false,
    }
}

/// Takes back what a call produced: each value written through a mutable
/// reference goes back to the slot of its argument, and the return values
/// become the command's results. `mut_ref_types` gives the referenced type of
/// each mutably borrowed argument.
pub fn write_back_results(
    table: &mut ArgumentTable,
    arguments: &Vec<Arg>,
    non_entry_move_call: bool,
    mut_ref_values: Vec<(usize, Vec<u8>)>,
    by_mut_ref: &Vec<(usize, ValueKind)>,
    mut_ref_types: &Vec<MoveType>,
    return_values: Vec<Vec<u8>>,
    return_value_kinds: &Vec<ValueKind>,
    return_types: &Vec<MoveType>,
) -> (r: Result<Vec<Value>, ExecutionError>)
    requires
        old(table).wf(),
    ensures
        final(table).wf(),
        final(table).num_inputs == old(table).num_inputs,
        final(table).results == old(table).results,
        write_back_ready(*old(table), arguments@, mut_ref_values@, by_mut_ref@, mut_ref_types@)
            && return_values@.len() == return_value_kinds@.len() && return_values@.len()
            == return_types@.len() ==> r is Ok,
        !(mut_ref_values@.len() == by_mut_ref@.len() && mut_ref_types@.len() == by_mut_ref@.len()
            && return_values@.len() == return_value_kinds@.len() && return_values@.len()
            == return_types@.len()) ==> r == Err::<Vec<Value>, ExecutionError>(
            error_of(ExecutionErrorKind::InvariantViolation),
        ),
        r is Ok ==> forall|k: int|
            0 <= k < by_mut_ref@.len() ==> mut_ref_values@[k].0 == (#[trigger] by_mut_ref@[k]).0
                && write_back_slot(*old(table), arguments@, by_mut_ref@, k) is Some && restored_with(
                *final(table),
                write_back_slot(*old(table), arguments@, by_mut_ref@, k)->Some_0 as int,
                by_mut_ref@[k].1,
                mut_ref_types@[k],
                mut_ref_values@[k].1@,
                non_entry_move_call,
            ),
        r matches Ok(vals) ==> {
            &&& vals@.len() == return_values@.len()
            &&& return_values@.len() == return_value_kinds@.len()
            &&& return_values@.len() == return_types@.len()
            &&& forall|i: int|
                0 <= i < vals@.len() ==> made_value(
                    return_value_kinds@[i],
                    return_types@[i],
                    return_values@[i]@,
                    true,
                    #[trigger] vals@[i],
                )
        },
{
    if mut_ref_values.len() != by_mut_ref.len() || mut_ref_types.len() != by_mut_ref.len()
        || return_values.len() != return_value_kinds.len() || return_values.len()
        != return_types.len() {
        return Err(ExecutionError::from_kind(ExecutionErrorKind::InvariantViolation));
    }
    let mut k: usize = 0;
    while k < mut_ref_values.len()
        invariant
            table.wf(),
            old(table).wf(),
            table.num_inputs == old(table).num_inputs,
            table.results == old(table).results,
            table.slots@.len() == old(table).slots@.len(),
            mut_ref_values@.len() == by_mut_ref@.len(),
            mut_ref_types@.len() == by_mut_ref@.len(),
            return_values@.len() == return_value_kinds@.len(),
            return_values@.len() == return_types@.len(),
            k <= mut_ref_values@.len(),
            forall|k2: int|
                0 <= k2 < k ==> mut_ref_values@[k2].0 == (#[trigger] by_mut_ref@[k2]).0
                    && write_back_slot(*old(table), arguments@, by_mut_ref@, k2) is Some && restored_with(
                    *table,
                    write_back_slot(*old(table), arguments@, by_mut_ref@, k2)->Some_0 as int,
                    by_mut_ref@[k2].1,
                    mut_ref_types@[k2],
                    mut_ref_values@[k2].1@,
                    non_entry_move_call,
                ),
            write_back_ready(*old(table), arguments@, mut_ref_values@, by_mut_ref@, mut_ref_types@)
                ==> forall|k2: int|
                k <= k2 < by_mut_ref@.len() ==> table.slots@[write_back_slot(
                    *old(table),
                    arguments@,
                    by_mut_ref@,
                    k2,
                )->Some_0 as int] == old(table).slots@[write_back_slot(
                    *old(table),
                    arguments@,
                    by_mut_ref@,
                    k2,
                )->Some_0 as int],
        decreases mut_ref_values@.len() - k,
    {
        let (i, ref bytes) = mut_ref_values[k];
        let (j, kind) = by_mut_ref[k];
        if i != j || i >= arguments.len() {
            return Err(ExecutionError::from_kind(ExecutionErrorKind::InvariantViolation));
        }
        let ty = mut_ref_types[k].duplicate();
        let ghost gty = ty;
        let value = make_value(kind, ty, copy_bytes(bytes), non_entry_move_call);
        let ghost gv = value;
        let ghost before = table.slots@;
        match table.restore(arguments[i], value) {
            Ok(()) => {},
            Err(e) => return Err(e),
        }
        proof {
            let s = write_back_slot(*old(table), arguments@, by_mut_ref@, k as int)->Some_0 as int;
            assert(table.spec_resolve(arguments@[i as int]) == old(table).spec_resolve(arguments@[i as int]));
            match gv {
                Value::Raw(RawValueType::Loaded { ty: t, .. }, _) => {
                    crate::types::lemma_same_type_transitive(t, gty, mut_ref_types@[k as int]);
                },
                Value::Object(o) => {
                    crate::types::lemma_same_type_transitive(o.type_, gty, mut_ref_types@[k as int]);
                },
                _ => {},
            }
            assert(restored_with(*table, s, kind, mut_ref_types@[k as int], mut_ref_values@[k as int].1@, non_entry_move_call));
            assert forall|k2: int|
                0 <= k2 < k + 1 implies mut_ref_values@[k2].0 == (#[trigger] by_mut_ref@[k2]).0
                    && write_back_slot(*old(table), arguments@, by_mut_ref@, k2) is Some && restored_with(
                    *table,
                    write_back_slot(*old(table), arguments@, by_mut_ref@, k2)->Some_0 as int,
                    by_mut_ref@[k2].1,
                    mut_ref_types@[k2],
                    mut_ref_values@[k2].1@,
                    non_entry_move_call,
                ) by {
                if k2 < k {
                    let s2 = write_back_slot(*old(table), arguments@, by_mut_ref@, k2)->Some_0 as int;
                    assert(!before[s2].borrowed);
                    assert(before[s].borrowed);
                    assert(s2 != s);
                }
            }
            if write_back_ready(*old(table), arguments@, mut_ref_values@, by_mut_ref@, mut_ref_types@) {
                assert forall|k2: int|
                    k + 1 <= k2 < by_mut_ref@.len() implies table.slots@[write_back_slot(
                        *old(table),
                        arguments@,
                        by_mut_ref@,
                        k2,
                    )->Some_0 as int] == old(table).slots@[write_back_slot(
                        *old(table),
                        arguments@,
                        by_mut_ref@,
                        k2,
                    )->Some_0 as int] by {
                    assert(write_back_slot(*old(table), arguments@, by_mut_ref@, k2) != write_back_slot(
                        *old(table),
                        arguments@,
                        by_mut_ref@,
                        k as int,
                    ));
                }
            }
        }
        k += 1;
    }
    let mut out: Vec<Value> = Vec::new();
    let mut n: usize = 0;
    while n < return_values.len()
        invariant
            return_values@.len() == return_value_kinds@.len(),
            return_values@.len() == return_types@.len(),
            n <= return_values@.len(),
            out@.len() == n,
            forall|i: int|
                0 <= i < n ==> made_value(
                    return_value_kinds@[i],
                    return_types@[i],
                    return_values@[i]@,
                    true,
                    #[trigger] out@[i],
                ),
        decreases return_values@.len() - n,
    {
        // only non-entry functions have return values
        let ty = return_types[n].duplicate();
        let ghost gty = ty;
        let v = make_value(return_value_kinds[n], ty, copy_bytes(&return_values[n]), true);
        let ghost gv = v;
        proof {
            match gv {
                Value::Raw(RawValueType::Loaded { ty: t, .. }, _) => {
                    crate::types::lemma_same_type_transitive(t, gty, return_types@[n as int]);
                },
                Value::Object(o) => {
                    crate::types::lemma_same_type_transitive(o.type_, gty, return_types@[n as int]);
                },
                _ => {},
            }
        }
        out.push(v);
        n += 1;
    }
    Ok(out)
}

} // verus!
