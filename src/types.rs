use vstd::prelude::*;
use crate::errors::{error_of, ExecutionError, ExecutionErrorKind};
use crate::layout::PrimitiveArgumentLayout;

verus! {

broadcast use vstd::string::to_string_from_display_ensures_for_str;

/// Where a datatype was defined: the address of its package, its module and its name.
#[derive(Debug)]
pub struct DatatypeIdent {
    pub address: Vec<u8>,
    pub module: String,
    pub name: String,
}

/// A loaded runtime type, with each datatype resolved to its defining identity.
#[derive(Debug)]
pub enum MoveType {
    Bool,
    U8,
    U16,
    U32,
    U64,
    U128,
    U256,
    Address,
    Signer,
    Vector(Box<MoveType>),
    Datatype(DatatypeIdent),
    DatatypeInstantiation(DatatypeIdent, Vec<MoveType>),
    Reference(Box<MoveType>),
    MutableReference(Box<MoveType>),
    TyParam(u16),
}

/// The abilities of a type.
#[derive(Debug, Clone, Copy, PartialEq, Eq, Structural)]
pub struct AbilitySet {
    pub copy: bool,
    pub drop: bool,
    pub store: bool,
    pub key: bool,
}

/// Whether the last parameter of a function is the transaction context, and by
/// which kind of reference.
#[derive(Debug, Clone, Copy, PartialEq, Eq, Structural)]
pub enum TxContextKind {
    NoContext,
    Mutable,
    Immutable,
}

/// A 32-byte address whose last byte is `k` and all others zero.
pub open spec fn short_address(k: u8) -> Seq<u8> {
    Seq::new(32, |i: int| if i == 31 { k } else { 0u8 })
}

pub open spec fn ident_is(d: DatatypeIdent, addr: u8, module: Seq<char>, name: Seq<char>) -> bool {
    d.address@ == short_address(addr) && d.module@ == module && d.name@ == name
}

pub open spec fn is_std_option(d: DatatypeIdent) -> bool {
    ident_is(d, 1, "option"@, "Option"@)
}

pub open spec fn is_ascii_string(d: DatatypeIdent) -> bool {
    ident_is(d, 1, "ascii"@, "String"@)
}

pub open spec fn is_utf8_string(d: DatatypeIdent) -> bool {
    ident_is(d, 1, "string"@, "String"@)
}

pub open spec fn is_object_id(d: DatatypeIdent) -> bool {
    ident_is(d, 2, "object"@, "ID"@)
}

pub open spec fn is_receiving(d: DatatypeIdent) -> bool {
    ident_is(d, 2, "transfer"@, "Receiving"@)
}

pub open spec fn is_tx_context_struct(d: DatatypeIdent) -> bool {
    ident_is(d, 2, "tx_context"@, "TxContext"@)
}

/// Two identities name the same datatype.
pub open spec fn same_ident(a: DatatypeIdent, b: DatatypeIdent) -> bool {
    a.address@ == b.address@ && a.module@ == b.module@ && a.name@ == b.name@
}

/// Two types are the same type.
pub open spec fn same_type(a: MoveType, b: MoveType) -> bool
    decreases a,
{
    match (a, b) {
        (MoveType::Bool, MoveType::Bool) => true,
        (MoveType::U8, MoveType::U8) => true,
        (MoveType::U16, MoveType::U16) => true,
        (MoveType::U32, MoveType::U32) => true,
        (MoveType::U64, MoveType::U64) => true,
        (MoveType::U128, MoveType::U128) => true,
        (MoveType::U256, MoveType::U256) => true,
        (MoveType::Address, MoveType::Address) => true,
        (MoveType::Signer, MoveType::Signer) => true,
        (MoveType::Vector(x), MoveType::Vector(y)) => same_type(*x, *y),
        (MoveType::Datatype(x), MoveType::Datatype(y)) => same_ident(x, y),
        (MoveType::DatatypeInstantiation(x, xs), MoveType::DatatypeInstantiation(y, ys)) => {
            &&& same_ident(x, y)
            &&& xs@.len() == ys@.len()
            &&& forall|i: int| 0 <= i < xs@.len() ==> same_type(#[trigger] xs@[i], ys@[i])
        },
        (MoveType::Reference(x), MoveType::Reference(y)) => same_type(*x, *y),
        (MoveType::MutableReference(x), MoveType::MutableReference(y)) => same_type(*x, *y),
        (MoveType::TyParam(i), MoveType::TyParam(j)) => i == j,
        _ => false,
    }
}

fn string_is(s: &String, lit: &str) -> (r: bool)
    ensures
        r == (s@ == lit@),
{
    let l = lit.to_string();
    *s == l
}

fn bytes_equal(a: &Vec<u8>, b: &Vec<u8>) -> (r: bool)
    ensures
        r == (a@ == b@),
{
    if a.len() != b.len() {
        return false;
    }
    let mut i: usize = 0;
    while i < a.len()
        invariant
            a@.len() == b@.len(),
            i <= a@.len(),
            forall|j: int| 0 <= j < i ==> a@[j] == b@[j],
        decreases a@.len() - i,
    {
        if a[i] != b[i] {
            return false;
        }
        i += 1;
    }
    assert(a@ =~= b@);
    true
}

fn is_short_address(a: &Vec<u8>, k: u8) -> (r: bool)
    ensures
        r == (a@ == short_address(k)),
{
    if a.len() != 32 {
        return false;
    }
    let mut i: usize = 0;
    while i < 32
        invariant
            a@.len() == 32,
            i <= 32,
            forall|j: int| 0 <= j < i ==> a@[j] == short_address(k)[j],
        decreases 32 - i,
    {
        let expected: u8 = if i == 31 {
            k
        } else {
            0
        };
        if a[i] != expected {
            assert(a@[i as int] != short_address(k)[i as int]);
            return false;
        }
        i += 1;
    }
    assert(a@ =~= short_address(k));
    true
}

impl DatatypeIdent {
    /// Whether this identity is `addr::module::name`, for an address given by its
    /// last byte.
    pub fn is(&self, addr: u8, module: &str, name: &str) -> (r: bool)
        ensures
            r == ident_is(*self, addr, module@, name@),
    {
        is_short_address(&self.address, addr) && string_is(&self.module, module) && string_is(
            &self.name,
            name,
        )
    }

    /// Whether two byte strings are equal.
    pub fn bytes_match(a: &Vec<u8>, b: &Vec<u8>) -> (r: bool)
        ensures
            r == (a@ == b@),
    {
        bytes_equal(a, b)
    }

    pub fn same_as(&self, other: &DatatypeIdent) -> (r: bool)
        ensures
            r == same_ident(*self, *other),
    {
        bytes_equal(&self.address, &other.address) && *&self.module == *&other.module
            && *&self.name == *&other.name
    }
}

/// Every type parameter in `t` is below `n`.
pub open spec fn params_below(t: MoveType, n: nat) -> bool
    decreases t,
{
    match t {
        MoveType::TyParam(i) => (i as nat) < n,
        MoveType::Vector(x) => params_below(*x, n),
        MoveType::Reference(x) => params_below(*x, n),
        MoveType::MutableReference(x) => params_below(*x, n),
        MoveType::DatatypeInstantiation(_, xs) => forall|i: int|
            0 <= i < xs@.len() ==> params_below(#[trigger] xs@[i], n),
        _ => true,
    }
}

/// `r` is `t` with each type parameter `i` replaced by `args[i]`.
pub open spec fn subst_of(t: MoveType, args: Seq<MoveType>, r: MoveType) -> bool
    decreases t,
{
    match t {
        MoveType::TyParam(i) => (i as int) < args.len() && same_type(r, args[i as int]),
        MoveType::Vector(x) => match r {
            MoveType::Vector(y) => subst_of(*x, args, *y),
            _ => false,
        },
        MoveType::Reference(x) => match r {
            MoveType::Reference(y) => subst_of(*x, args, *y),
            _ => false,
        },
        MoveType::MutableReference(x) => match r {
            MoveType::MutableReference(y) => subst_of(*x, args, *y),
            _ => false,
        },
        MoveType::DatatypeInstantiation(d, xs) => match r {
            MoveType::DatatypeInstantiation(e, ys) => {
                &&& same_ident(d, e)
                &&& xs@.len() == ys@.len()
                &&& forall|i: int| 0 <= i < xs@.len() ==> subst_of(#[trigger] xs@[i], args, ys@[i])
            },
            _ => false,
        },
        _ => same_type(r, t),
    }
}

/// Every type is the same type as itself.
pub proof fn lemma_same_type_reflexive(t: MoveType)
    ensures
        same_type(t, t),
    decreases t,
{
    match t {
        MoveType::Vector(x) => lemma_same_type_reflexive(*x),
        MoveType::Reference(x) => lemma_same_type_reflexive(*x),
        MoveType::MutableReference(x) => lemma_same_type_reflexive(*x),
        MoveType::DatatypeInstantiation(d, xs) => {
            assert forall|i: int| 0 <= i < xs@.len() implies same_type(#[trigger] xs@[i], xs@[i]) by {
                vstd::std_specs::vec::axiom_vec_index_decreases(xs, i);
                assert(decreases_to!(t => t->1));
                lemma_same_type_reflexive(xs@[i]);
            }
        },
        _ => {},
    }
}

/// Type equality is transitive.
pub proof fn lemma_same_type_transitive(a: MoveType, b: MoveType, c: MoveType)
    requires
        same_type(a, b),
        same_type(b, c),
    ensures
        same_type(a, c),
    decreases a,
{
    match (a, b, c) {
        (MoveType::Vector(x), MoveType::Vector(y), MoveType::Vector(z)) => lemma_same_type_transitive(*x, *y, *z),
        (MoveType::Reference(x), MoveType::Reference(y), MoveType::Reference(z)) => lemma_same_type_transitive(*x, *y, *z),
        (MoveType::MutableReference(x), MoveType::MutableReference(y), MoveType::MutableReference(z)) => lemma_same_type_transitive(*x, *y, *z),
        (
            MoveType::DatatypeInstantiation(_, xs),
            MoveType::DatatypeInstantiation(_, ys),
            MoveType::DatatypeInstantiation(_, zs),
        ) => {
            assert forall|i: int| 0 <= i < xs@.len() implies same_type(#[trigger] xs@[i], zs@[i]) by {
                vstd::std_specs::vec::axiom_vec_index_decreases(xs, i);
                assert(decreases_to!(a => a->1));
                assert(same_type(xs@[i], ys@[i]));
                assert(same_type(ys@[i], zs@[i]));
                lemma_same_type_transitive(xs@[i], ys@[i], zs@[i]);
            }
        },
        _ => {},
    }
}

pub(crate) fn copy_bytes(b: &Vec<u8>) -> (r: Vec<u8>)
    ensures
        r@ == b@,
{
    let mut out: Vec<u8> = Vec::new();
    let mut i: usize = 0;
    while i < b.len()
        invariant
            i <= b@.len(),
            out@ == b@.take(i as int),
        decreases b@.len() - i,
    {
        out.push(b[i]);
        assert(b@.take(i + 1) =~= b@.take(i as int).push(b@[i as int]));
        i += 1;
    }
    assert(b@.take(b@.len() as int) =~= b@);
    out
}

impl DatatypeIdent {
    pub fn duplicate(&self) -> (r: DatatypeIdent)
        ensures
            same_ident(r, *self),
    {
        DatatypeIdent {
            address: copy_bytes(&self.address),
            module: self.module.clone(),
            name: self.name.clone(),
        }
    }
}

impl MoveType {
    /// Substitutes the type arguments for the type parameters. Fails when a
    /// parameter has no argument.
    pub fn subst(&self, args: &Vec<MoveType>) -> (r: Result<MoveType, ExecutionError>)
        ensures
            params_below(*self, args@.len()) <==> r is Ok,
            r matches Ok(x) ==> subst_of(*self, args@, x),
            r is Err ==> r == Err::<MoveType, ExecutionError>(
                error_of(ExecutionErrorKind::VMInvariantViolation),
            ),
        decreases self,
    {
        match self {
            MoveType::TyParam(i) => {
                if (*i as usize) < args.len() {
                    Ok(args[*i as usize].duplicate())
                } else {
                    Err(ExecutionError::from_kind(ExecutionErrorKind::VMInvariantViolation))
                }
            },
            MoveType::Vector(x) => match x.subst(args) {
                Ok(y) => Ok(MoveType::Vector(Box::new(y))),
                Err(e) => Err(e),
            },
            MoveType::Reference(x) => match x.subst(args) {
                Ok(y) => Ok(MoveType::Reference(Box::new(y))),
                Err(e) => Err(e),
            },
            MoveType::MutableReference(x) => match x.subst(args) {
                Ok(y) => Ok(MoveType::MutableReference(Box::new(y))),
                Err(e) => Err(e),
            },
            MoveType::DatatypeInstantiation(d, xs) => {
                let mut ys: Vec<MoveType> = Vec::new();
                let mut i: usize = 0;
                while i < xs.len()
                    invariant
                        *self == MoveType::DatatypeInstantiation(*d, *xs),
                        i <= xs@.len(),
                        ys@.len() == i,
                        forall|j: int|
                            0 <= j < i ==> params_below(#[trigger] xs@[j], args@.len()) && subst_of(
                                xs@[j],
                                args@,
                                ys@[j],
                            ),
                    decreases xs@.len() - i,
                {
                    proof {
                        vstd::std_specs::vec::axiom_vec_index_decreases(*xs, i as int);
                        assert(decreases_to!(*self => (*self)->1));
                    }
                    match xs[i].subst(args) {
                        Ok(y) => ys.push(y),
                        Err(e) => return Err(e),
                    }
                    i += 1;
                }
                Ok(MoveType::DatatypeInstantiation(d.duplicate(), ys))
            },
            _ => Ok(self.duplicate()),
        }
    }

    /// A copy of the type.
    pub fn duplicate(&self) -> (r: MoveType)
        ensures
            same_type(r, *self),
        decreases self,
    {
        match self {
            MoveType::Bool => MoveType::Bool,
            MoveType::U8 => MoveType::U8,
            MoveType::U16 => MoveType::U16,
            MoveType::U32 => MoveType::U32,
            MoveType::U64 => MoveType::U64,
            MoveType::U128 => MoveType::U128,
            MoveType::U256 => MoveType::U256,
            MoveType::Address => MoveType::Address,
            MoveType::Signer => MoveType::Signer,
            MoveType::Vector(x) => MoveType::Vector(Box::new(x.duplicate())),
            MoveType::Datatype(d) => MoveType::Datatype(d.duplicate()),
            MoveType::DatatypeInstantiation(d, xs) => {
                let mut ys: Vec<MoveType> = Vec::new();
                let mut i: usize = 0;
                while i < xs.len()
                    invariant
                        *self == MoveType::DatatypeInstantiation(*d, *xs),
                        i <= xs@.len(),
                        ys@.len() == i,
                        forall|j: int| 0 <= j < i ==> same_type(#[trigger] ys@[j], xs@[j]),
                    decreases xs@.len() - i,
                {
                    proof {
                        vstd::std_specs::vec::axiom_vec_index_decreases(*xs, i as int);
                        assert(decreases_to!(*self => (*self)->1));
                    }
                    ys.push(xs[i].duplicate());
                    i += 1;
                }
                MoveType::DatatypeInstantiation(d.duplicate(), ys)
            },
            MoveType::Reference(x) => MoveType::Reference(Box::new(x.duplicate())),
            MoveType::MutableReference(x) => MoveType::MutableReference(Box::new(x.duplicate())),
            MoveType::TyParam(i) => MoveType::TyParam(*i),
        }
    }

    /// Structural equality of types.
    pub fn same_as(&self, other: &MoveType) -> (r: bool)
        ensures
            r == same_type(*self, *other),
        decreases self,
    {
        match (self, other) {
            (MoveType::Bool, MoveType::Bool) => true,
            (MoveType::U8, MoveType::U8) => true,
            (MoveType::U16, MoveType::U16) => true,
            (MoveType::U32, MoveType::U32) => true,
            (MoveType::U64, MoveType::U64) => true,
            (MoveType::U128, MoveType::U128) => true,
            (MoveType::U256, MoveType::U256) => true,
            (MoveType::Address, MoveType::Address) => true,
            (MoveType::Signer, MoveType::Signer) => true,
            (MoveType::Vector(x), MoveType::Vector(y)) => x.same_as(y),
            (MoveType::Datatype(x), MoveType::Datatype(y)) => x.same_as(y),
            (MoveType::DatatypeInstantiation(x, xs), MoveType::DatatypeInstantiation(y, ys)) => {
                if !x.same_as(y) || xs.len() != ys.len() {
                    return false;
                }
                let mut i: usize = 0;
                while i < xs.len()
                    invariant
                        *self == MoveType::DatatypeInstantiation(*x, *xs),
                        *other == MoveType::DatatypeInstantiation(*y, *ys),
                        same_ident(*x, *y),
                        xs@.len() == ys@.len(),
                        i <= xs@.len(),
                        forall|j: int| 0 <= j < i ==> same_type(#[trigger] xs@[j], ys@[j]),
                    decreases xs@.len() - i,
                {
                    proof {
                        vstd::std_specs::vec::axiom_vec_index_decreases(*xs, i as int);
                        assert(decreases_to!(*self => (*self)->1));
                        assert((*self)->1 == *xs);
                        assert(decreases_to!(*self => xs[i as int]));
                    }
                    if !xs[i].same_as(&ys[i]) {
                        return false;
                    }
                    i += 1;
                }
                true
            },
            (MoveType::Reference(x), MoveType::Reference(y)) => x.same_as(y),
            (MoveType::MutableReference(x), MoveType::MutableReference(y)) => x.same_as(y),
            (MoveType::TyParam(i), MoveType::TyParam(j)) => *i == *j,
            _ => false,
        }
    }
}

/// The layout that plain bytes must have to stand for a value of `t`:
/// `Some(Some(l))` for a primitive-compatible type, `Some(None)` for any other,
/// and `None` where a reference or a type parameter stands where none can.
pub open spec fn layout_of(t: MoveType) -> Option<Option<PrimitiveArgumentLayout>>
    decreases t,
{
    match t {
        MoveType::Signer => Some(None),
        MoveType::Reference(_) => None,
        MoveType::MutableReference(_) => None,
        MoveType::TyParam(_) => None,
        MoveType::Bool => Some(Some(PrimitiveArgumentLayout::Bool)),
        MoveType::U8 => Some(Some(PrimitiveArgumentLayout::U8)),
        MoveType::U16 => Some(Some(PrimitiveArgumentLayout::U16)),
        MoveType::U32 => Some(Some(PrimitiveArgumentLayout::U32)),
        MoveType::U64 => Some(Some(PrimitiveArgumentLayout::U64)),
        MoveType::U128 => Some(Some(PrimitiveArgumentLayout::U128)),
        MoveType::U256 => Some(Some(PrimitiveArgumentLayout::U256)),
        MoveType::Address => Some(Some(PrimitiveArgumentLayout::Address)),
        MoveType::Vector(inner) => match layout_of(*inner) {
            Some(Some(l)) => Some(Some(PrimitiveArgumentLayout::Vector(Box::new(l)))),
            other => other,
        },
        MoveType::DatatypeInstantiation(d, targs) => if is_std_option(d) && targs@.len() == 1 {
            match layout_of(targs[0]) {
                Some(Some(l)) => Some(Some(PrimitiveArgumentLayout::Option(Box::new(l)))),
                other => other,
            }
        } else {
            Some(None)
        },
        MoveType::Datatype(d) => if is_object_id(d) {
            Some(Some(PrimitiveArgumentLayout::Address))
        } else if is_ascii_string(d) {
            Some(Some(PrimitiveArgumentLayout::Ascii))
        } else if is_utf8_string(d) {
            Some(Some(PrimitiveArgumentLayout::UTF8))
        } else {
            Some(None)
        },
    }
}

pub open spec fn invariant_violation() -> ExecutionError {
    error_of(ExecutionErrorKind::InvariantViolation)
}

/// Returns `Some(layout)` iff the type is a primitive, an ID, a string, or an
/// option or vector of such a type.
pub fn primitive_serialization_layout(param_ty: &MoveType) -> (r: Result<
    Option<PrimitiveArgumentLayout>,
    ExecutionError,
>)
    ensures
        match layout_of(*param_ty) {
            Some(l) => r == Ok::<Option<PrimitiveArgumentLayout>, ExecutionError>(l),
            None => r == Err::<Option<PrimitiveArgumentLayout>, ExecutionError>(
                invariant_violation(),
            ),
        },
    decreases param_ty,
{
    match param_ty {
        MoveType::Signer => Ok(None),
        MoveType::Reference(_) | MoveType::MutableReference(_) | MoveType::TyParam(_) => Err(
            ExecutionError::from_kind(ExecutionErrorKind::InvariantViolation),
        ),
        MoveType::Bool => Ok(Some(PrimitiveArgumentLayout::Bool)),
        MoveType::U8 => Ok(Some(PrimitiveArgumentLayout::U8)),
        MoveType::U16 => Ok(Some(PrimitiveArgumentLayout::U16)),
        MoveType::U32 => Ok(Some(PrimitiveArgumentLayout::U32)),
        MoveType::U64 => Ok(Some(PrimitiveArgumentLayout::U64)),
        MoveType::U128 => Ok(Some(PrimitiveArgumentLayout::U128)),
        MoveType::U256 => Ok(Some(PrimitiveArgumentLayout::U256)),
        MoveType::Address => Ok(Some(PrimitiveArgumentLayout::Address)),
        MoveType::Vector(inner) => {
            let info_opt = primitive_serialization_layout(inner)?;
            match info_opt {
                Some(layout) => Ok(Some(PrimitiveArgumentLayout::Vector(Box::new(layout)))),
                None => Ok(None),
            }
        },
        MoveType::DatatypeInstantiation(d, targs) => {
            if d.is(1, "option", "Option") && targs.len() == 1 {
                proof {
                    vstd::std_specs::vec::axiom_vec_index_decreases(*targs, 0);
                    assert(decreases_to!(*param_ty => (*param_ty)->1));
                }
                let info_opt = primitive_serialization_layout(&targs[0])?;
                match info_opt {
                    Some(layout) => Ok(Some(PrimitiveArgumentLayout::Option(Box::new(layout)))),
                    None => Ok(None),
                }
            } else {
                Ok(None)
            }
        },
        MoveType::Datatype(d) => {
            if d.is(2, "object", "ID") {
                Ok(Some(PrimitiveArgumentLayout::Address))
            } else if d.is(1, "ascii", "String") {
                Ok(Some(PrimitiveArgumentLayout::Ascii))
            } else if d.is(1, "string", "String") {
                Ok(Some(PrimitiveArgumentLayout::UTF8))
            } else {
                Ok(None)
            }
        },
    }
}

/// Which reference to the transaction context a parameter type is, if any.
pub open spec fn tx_context_kind(t: MoveType) -> TxContextKind {
    match t {
        MoveType::MutableReference(inner) => match *inner {
            MoveType::Datatype(d) => if is_tx_context_struct(d) {
                TxContextKind::Mutable
            } else {
                TxContextKind::NoContext
            },
            _ => TxContextKind::NoContext,
        },
        MoveType::Reference(inner) => match *inner {
            MoveType::Datatype(d) => if is_tx_context_struct(d) {
                TxContextKind::Immutable
            } else {
                TxContextKind::NoContext
            },
            _ => TxContextKind::NoContext,
        },
        _ => TxContextKind::NoContext,
    }
}

/// Returns `Mutable` for a mutable reference to the transaction context,
/// `Immutable` for an immutable one, and `NoContext` for every other type.
pub fn is_tx_context(t: &MoveType) -> (r: TxContextKind)
    ensures
        r == tx_context_kind(*t),
{
    let (is_mut, inner) = match t {
        MoveType::MutableReference(inner) => (true, inner),
        MoveType::Reference(inner) => (false, inner),
        _ => return TxContextKind::NoContext,
    };
    let d = match &**inner {
        MoveType::Datatype(d) => d,
        _ => return TxContextKind::NoContext,
    };
    if d.is(2, "tx_context", "TxContext") {
        if is_mut {
            TxContextKind::Mutable
        } else {
            TxContextKind::Immutable
        }
    } else {
        TxContextKind::NoContext
    }
}

} // verus!
