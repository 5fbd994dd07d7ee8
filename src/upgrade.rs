use vstd::prelude::*;
use crate::config::ProtocolConfig;
use crate::errors::{command_argument_error, error_of, CommandArgumentError, ExecutionError, ExecutionErrorKind, PackageUpgradeError};
use crate::wire::{read_length, uleb_encode, MAX_SEQUENCE_LENGTH};

verus! {

/// How much a package may change in an upgrade.
#[derive(Debug, Clone, Copy, PartialEq, Eq, Structural)]
pub enum UpgradePolicy {
    /// Existing declarations keep their signatures and layouts.
    Compatible,
    /// Existing declarations stay exactly as they are; new ones may be added.
    Additive,
    /// Only dependencies may change.
    DepOnly,
}

pub const COMPATIBLE: u8 = 0;
pub const ADDITIVE: u8 = 128;
pub const DEP_ONLY: u8 = 192;

pub open spec fn spec_policy(p: u8) -> Option<UpgradePolicy> {
    if p == COMPATIBLE {
        Some(UpgradePolicy::Compatible)
    } else if p == ADDITIVE {
        Some(UpgradePolicy::Additive)
    } else if p == DEP_ONLY {
        Some(UpgradePolicy::DepOnly)
    } else {
        None
    }
}

impl UpgradePolicy {
    /// The policy a byte stands for, if any.
    pub fn try_from_u8(p: u8) -> (r: Option<UpgradePolicy>)
        ensures
            r == spec_policy(p),
    {
        if p == COMPATIBLE {
            Some(UpgradePolicy::Compatible)
        } else if p == ADDITIVE {
            Some(UpgradePolicy::Additive)
        } else if p == DEP_ONLY {
            Some(UpgradePolicy::DepOnly)
        } else {
            None
        }
    }
}

/// What kind of item a declaration is.
#[derive(Debug, Clone, Copy, PartialEq, Eq, Structural)]
pub enum DeclKind {
    Datatype,
    Function,
}

/// One declaration of a module, normalized: its name, its signature or layout
/// in canonical bytes, and for functions their visibility and code. Upgrade
/// checks compare modules in this model: a declaration is kept when its
/// signature bytes are equal, a public function stays public and an entry
/// function stays entry.
#[derive(Debug)]
pub struct Declaration {
    pub kind: DeclKind,
    pub name: String,
    pub signature: Vec<u8>,
    pub is_public: bool,
    pub is_entry: bool,
    pub code: Vec<u8>,
}

/// A normalized module: its name and its declarations.
#[derive(Debug)]
pub struct NormalizedModule {
    pub name: String,
    pub declarations: Vec<Declaration>,
}

/// The same declaration, in every respect.
pub open spec fn same_decl(a: Declaration, b: Declaration) -> bool {
    &&& a.kind == b.kind
    &&& a.name@ == b.name@
    &&& a.signature@ == b.signature@
    &&& a.is_public == b.is_public
    &&& a.is_entry == b.is_entry
    &&& a.code@ == b.code@
}

/// `b` keeps what callers and stored values rely on in `a`: the same layout for
/// a datatype; for a function, the same signature, still public if it was, and
/// still entry if it was.
pub open spec fn keeps_interface(a: Declaration, b: Declaration) -> bool {
    &&& a.kind == b.kind
    &&& a.name@ == b.name@
    &&& a.signature@ == b.signature@
    &&& a.is_public ==> b.is_public
    &&& a.is_entry ==> b.is_entry
}

/// A declaration that an upgrade must keep: every datatype, and every function
/// reachable from outside the module.
pub open spec fn is_exposed(a: Declaration) -> bool {
    a.kind is Datatype || a.is_public || a.is_entry
}

/// Some declaration of `decls` is exactly `d`.
pub open spec fn has_same(decls: Seq<Declaration>, d: Declaration) -> bool {
    exists|j: int| 0 <= j < decls.len() && same_decl(d, #[trigger] decls[j])
}

/// Some declaration of `decls` keeps the interface of `d`.
pub open spec fn has_keeper(decls: Seq<Declaration>, d: Declaration) -> bool {
    exists|j: int| 0 <= j < decls.len() && keeps_interface(d, #[trigger] decls[j])
}

/// Every declaration of `cur` is in `next`.
pub open spec fn decl_subset(cur: Seq<Declaration>, next: Seq<Declaration>) -> bool {
    forall|i: int| 0 <= i < cur.len() ==> has_same(next, #[trigger] cur[i])
}

/// Every exposed declaration of `cur` keeps its interface in `next`.
pub open spec fn interface_kept(cur: Seq<Declaration>, next: Seq<Declaration>) -> bool {
    forall|i: int| 0 <= i < cur.len() && is_exposed(#[trigger] cur[i]) ==> has_keeper(next, cur[i])
}

/// Whether `next` may replace `cur` under `policy`.
pub open spec fn module_compatible(policy: UpgradePolicy, cur: NormalizedModule, next: NormalizedModule) -> bool {
    match policy {
        UpgradePolicy::Additive => decl_subset(cur.declarations@, next.declarations@),
        UpgradePolicy::DepOnly => decl_subset(cur.declarations@, next.declarations@) && decl_subset(
            next.declarations@,
            cur.declarations@,
        ),
        UpgradePolicy::Compatible => interface_kept(cur.declarations@, next.declarations@),
    }
}

fn bytes_eq(a: &Vec<u8>, b: &Vec<u8>) -> (r: bool)
    ensures
        r == (a@ == b@),
{
    if a.len() != b.len() {
        return false;
    }
    let mut i: usize = 0;
    while i < a.len()
        invariant
            a@.len() == b@.len(),
            i <= a@.len(),
            forall|j: int| 0 <= j < i ==> a@[j] == b@[j],
        decreases a@.len() - i,
    {
        if a[i] != b[i] {
            return false;
        }
        i += 1;
    }
    assert(a@ =~= b@);
    true
}

fn decl_equal(a: &Declaration, b: &Declaration) -> (r: bool)
    ensures
        r == same_decl(*a, *b),
{
    a.kind == b.kind && a.name == b.name && bytes_eq(&a.signature, &b.signature) && a.is_public
        == b.is_public && a.is_entry == b.is_entry && bytes_eq(&a.code, &b.code)
}

fn decl_keeps(a: &Declaration, b: &Declaration) -> (r: bool)
    ensures
        r == keeps_interface(*a, *b),
{
    a.kind == b.kind && a.name == b.name && bytes_eq(&a.signature, &b.signature) && (!a.is_public
        || b.is_public) && (!a.is_entry || b.is_entry)
}

/// Whether some declaration of `next` matches `a`, exactly or by interface.
fn find_match(a: &Declaration, next: &Vec<Declaration>, exact: bool) -> (r: bool)
    ensures
        exact ==> r == has_same(next@, *a),
        !exact ==> r == has_keeper(next@, *a),
{
    let mut j: usize = 0;
    while j < next.len()
        invariant
            j <= next@.len(),
            exact ==> forall|k: int| 0 <= k < j ==> !same_decl(*a, next@[k]),
            !exact ==> forall|k: int| 0 <= k < j ==> !keeps_interface(*a, next@[k]),
        decreases next@.len() - j,
    {
        let found = if exact {
            decl_equal(a, &next[j])
        } else {
            decl_keeps(a, &next[j])
        };
        if found {
            return true;
        }
        j += 1;
    }
    false
}

fn all_included(cur: &Vec<Declaration>, next: &Vec<Declaration>) -> (r: bool)
    ensures
        r == decl_subset(cur@, next@),
{
    let mut i: usize = 0;
    while i < cur.len()
        invariant
            i <= cur@.len(),
            forall|k: int| 0 <= k < i ==> has_same(next@, #[trigger] cur@[k]),
        decreases cur@.len() - i,
    {
        if !find_match(&cur[i], next, true) {
            return false;
        }
        i += 1;
    }
    true
}

fn interface_preserved(cur: &Vec<Declaration>, next: &Vec<Declaration>) -> (r: bool)
    ensures
        r == interface_kept(cur@, next@),
{
    let mut i: usize = 0;
    while i < cur.len()
        invariant
            i <= cur@.len(),
            forall|k: int| 0 <= k < i && is_exposed(#[trigger] cur@[k]) ==> has_keeper(next@, cur@[k]),
        decreases cur@.len() - i,
    {
        let d = &cur[i];
        let exposed = match d.kind {
            DeclKind::Datatype => true,
            DeclKind::Function => d.is_public || d.is_entry,
        };
        if exposed && !find_match(d, next, false) {
            return false;
        }
        i += 1;
    }
    true
}

/// Checks one module of a package against its next version under a policy.
pub fn check_module_compatibility(
    policy: UpgradePolicy,
    cur_module: &NormalizedModule,
    new_module: &NormalizedModule,
) -> (r: Result<(), ExecutionError>)
    ensures
        module_compatible(policy, *cur_module, *new_module) ==> r == Ok::<(), ExecutionError>(()),
        !module_compatible(policy, *cur_module, *new_module) ==> r == Err::<(), ExecutionError>(
            incompatible(),
        ),
{
    let ok = match policy {
        UpgradePolicy::Additive => all_included(&cur_module.declarations, &new_module.declarations),
        UpgradePolicy::DepOnly => all_included(&cur_module.declarations, &new_module.declarations)
            && all_included(&new_module.declarations, &cur_module.declarations),
        UpgradePolicy::Compatible => interface_preserved(
            &cur_module.declarations,
            &new_module.declarations,
        ),
    };
    if ok {
        Ok(())
    } else {
        Err(
            ExecutionError::from_kind(
                ExecutionErrorKind::PackageUpgradeError {
                    upgrade_error: PackageUpgradeError::IncompatibleUpgrade,
                },
            ),
        )
    }
}

pub open spec fn incompatible() -> ExecutionError {
    error_of(
        ExecutionErrorKind::PackageUpgradeError {
            upgrade_error: PackageUpgradeError::IncompatibleUpgrade,
        },
    )
}

/// The first module of `mods` from index `k` on that is named `name`.
pub open spec fn module_named_from(mods: Seq<NormalizedModule>, name: Seq<char>, k: int) -> Option<int>
    decreases mods.len() - k,
{
    if k < 0 || k >= mods.len() {
        None
    } else if mods[k].name@ == name {
        Some(k)
    } else {
        module_named_from(mods, name, k + 1)
    }
}

/// The first module of `mods` named `name`.
pub open spec fn module_named(mods: Seq<NormalizedModule>, name: Seq<char>) -> Option<int> {
    module_named_from(mods, name, 0)
}

/// Every existing module has a counterpart of the same name in the new
/// version that may replace it under `policy`.
pub open spec fn package_compatible(
    policy: UpgradePolicy,
    existing: Seq<NormalizedModule>,
    upgrading: Seq<NormalizedModule>,
) -> bool {
    forall|i: int| 0 <= i < existing.len() ==> replaced_compatibly(policy, #[trigger] existing[i], upgrading)
}

/// `m` has a counterpart of the same name in `upgrading` that may replace it.
pub open spec fn replaced_compatibly(
    policy: UpgradePolicy,
    m: NormalizedModule,
    upgrading: Seq<NormalizedModule>,
) -> bool {
    match module_named(upgrading, m.name@) {
        Some(j) => module_compatible(policy, m, upgrading[j]),
        None => false,
    }
}

/// Dependency-only packages may not add or remove modules, once the protocol
/// says so.
pub open spec fn module_count_refused(
    config: ProtocolConfig,
    policy: UpgradePolicy,
    existing: Seq<NormalizedModule>,
    upgrading: Seq<NormalizedModule>,
) -> bool {
    config.disallow_new_modules_in_deps_only_packages && policy is DepOnly && existing.len()
        != upgrading.len()
}

fn find_module(mods: &Vec<NormalizedModule>, name: &String) -> (r: Option<usize>)
    ensures
        match module_named(mods@, name@) {
            Some(j) => r matches Some(x) && x == j && 0 <= j < mods@.len(),
            None => r is None,
        },
{
    let mut j: usize = 0;
    while j < mods.len()
        invariant
            j <= mods@.len(),
            module_named(mods@, name@) == module_named_from(mods@, name@, j as int),
        decreases mods@.len() - j,
    {
        if mods[j].name == *name {
            return Some(j);
        }
        j += 1;
    }
    None
}

/// Checks a package's next version against the existing one under the policy
/// named by `policy`.
pub fn check_compatibility(
    config: &ProtocolConfig,
    existing: &Vec<NormalizedModule>,
    upgrading: &Vec<NormalizedModule>,
    policy: u8,
) -> (r: Result<(), ExecutionError>)
    ensures
        spec_policy(policy) is None ==> r == Err::<(), ExecutionError>(
            error_of(
                ExecutionErrorKind::PackageUpgradeError {
                    upgrade_error: PackageUpgradeError::UnknownUpgradePolicy { policy },
                },
            ),
        ),
        spec_policy(policy) matches Some(p) ==> if !module_count_refused(
            *config,
            p,
            existing@,
            upgrading@,
        ) && package_compatible(p, existing@, upgrading@) {
            r == Ok::<(), ExecutionError>(())
        } else {
            r == Err::<(), ExecutionError>(incompatible())
        },
{
    let p = match UpgradePolicy::try_from_u8(policy) {
        Some(p) => p,
        None => {
            return Err(
                ExecutionError::from_kind(
                    ExecutionErrorKind::PackageUpgradeError {
                        upgrade_error: PackageUpgradeError::UnknownUpgradePolicy { policy },
                    },
                ),
            );
        },
    };
    let disallow_new_modules = config.disallow_new_modules_in_deps_only_packages && p
        == UpgradePolicy::DepOnly;
    if disallow_new_modules && existing.len() != upgrading.len() {
        return Err(
            ExecutionError::from_kind(
                ExecutionErrorKind::PackageUpgradeError {
                    upgrade_error: PackageUpgradeError::IncompatibleUpgrade,
                },
            ),
        );
    }
    let mut i: usize = 0;
    while i < existing.len()
        invariant
            i <= existing@.len(),
            spec_policy(policy) == Some(p),
            !module_count_refused(*config, p, existing@, upgrading@),
            forall|k: int| 0 <= k < i ==> replaced_compatibly(p, #[trigger] existing@[k], upgrading@),
        decreases existing@.len() - i,
    {
        let cur = &existing[i];
        let j = match find_module(upgrading, &cur.name) {
            Some(j) => j,
            None => {
                return Err(
                    ExecutionError::from_kind(
                        ExecutionErrorKind::PackageUpgradeError {
                            upgrade_error: PackageUpgradeError::IncompatibleUpgrade,
                        },
                    ),
                );
            },
        };
        match check_module_compatibility(p, cur, &upgrading[j]) {
            Ok(()) => {},
            Err(e) => return Err(e),
        }

        i += 1;
    }
    Ok(())
}

/// Under the additive policy a package upgrade is accepted exactly when every
/// existing module has a counterpart of the same name whose declarations
/// include all of the existing module's.
pub proof fn lemma_additive_is_inclusion(
    config: ProtocolConfig,
    existing: Seq<NormalizedModule>,
    upgrading: Seq<NormalizedModule>,
)
    ensures
        !module_count_refused(config, UpgradePolicy::Additive, existing, upgrading),
        package_compatible(UpgradePolicy::Additive, existing, upgrading) <==> forall|i: int|
            0 <= i < existing.len() ==> match module_named(upgrading, #[trigger] existing[i].name@) {
                Some(j) => decl_subset(existing[i].declarations@, upgrading[j].declarations@),
                None => false,
            },
{
    assert(package_compatible(UpgradePolicy::Additive, existing, upgrading) <==> forall|i: int|
        0 <= i < existing.len() ==> match module_named(upgrading, #[trigger] existing[i].name@) {
            Some(j) => decl_subset(existing[i].declarations@, upgrading[j].declarations@),
            None => false,
        }) by {
        if package_compatible(UpgradePolicy::Additive, existing, upgrading) {
            assert forall|i: int| 0 <= i < existing.len() implies match module_named(
                upgrading,
                #[trigger] existing[i].name@,
            ) {
                Some(j) => decl_subset(existing[i].declarations@, upgrading[j].declarations@),
                None => false,
            } by {
                assert(replaced_compatibly(UpgradePolicy::Additive, existing[i], upgrading));
            }
        }
    }
}

/// Under the compatible policy a package upgrade is accepted exactly when every
/// existing module has a counterpart of the same name that keeps every datatype
/// layout and every exposed function signature.
pub proof fn lemma_compatible_keeps_interfaces(
    config: ProtocolConfig,
    existing: Seq<NormalizedModule>,
    upgrading: Seq<NormalizedModule>,
)
    ensures
        !module_count_refused(config, UpgradePolicy::Compatible, existing, upgrading),
        package_compatible(UpgradePolicy::Compatible, existing, upgrading) <==> forall|i: int|
            0 <= i < existing.len() ==> match module_named(upgrading, #[trigger] existing[i].name@) {
                Some(j) => interface_kept(existing[i].declarations@, upgrading[j].declarations@),
                None => false,
            },
{
    if package_compatible(UpgradePolicy::Compatible, existing, upgrading) {
        assert forall|i: int| 0 <= i < existing.len() implies match module_named(
            upgrading,
            #[trigger] existing[i].name@,
        ) {
            Some(j) => interface_kept(existing[i].declarations@, upgrading[j].declarations@),
            None => false,
        } by {
            assert(replaced_compatibly(UpgradePolicy::Compatible, existing[i], upgrading));
        }
    }
}

/// A single-use capability authorizing one upgrade of one package to modules
/// with one digest, under one policy.
#[derive(Debug)]
pub struct UpgradeTicket {
    pub cap: Vec<u8>,
    pub package: Vec<u8>,
    pub policy: u8,
    pub digest: Vec<u8>,
}

pub open spec fn ticket_ok(t: UpgradeTicket) -> bool {
    t.cap@.len() == 32 && t.package@.len() == 32 && t.digest@.len() <= MAX_SEQUENCE_LENGTH
}

/// The wire bytes of a ticket.
pub open spec fn ticket_bytes(t: UpgradeTicket) -> Seq<u8> {
    t.cap@ + t.package@ + seq![t.policy] + uleb_encode(t.digest@.len()) + t.digest@
}

fn copy_range(b: &Vec<u8>, start: usize, end: usize) -> (r: Vec<u8>)
    requires
        start <= end <= b@.len(),
    ensures
        r@ == b@.subrange(start as int, end as int),
{
    let mut out: Vec<u8> = Vec::new();
    let mut i = start;
    while i < end
        invariant
            start <= i <= end <= b@.len(),
            out@ == b@.subrange(start as int, i as int),
        decreases end - i,
    {
        out.push(b[i]);
        assert(b@.subrange(start as int, i + 1) =~= b@.subrange(start as int, i as int).push(b@[i as int]));
        i += 1;
    }
    out
}

/// Decodes the ticket argument of an upgrade from its wire bytes.
pub fn decode_upgrade_ticket(bytes: &Vec<u8>) -> (r: Result<UpgradeTicket, ExecutionError>)
    ensures
        r matches Ok(t) ==> ticket_ok(t) && ticket_bytes(t) == bytes@,
        (exists|t: UpgradeTicket| ticket_ok(t) && ticket_bytes(t) == bytes@) ==> r is Ok,
        r is Err ==> r == Err::<UpgradeTicket, ExecutionError>(
            command_argument_error(CommandArgumentError::InvalidBCSBytes, 0),
        ),
{
    proof {
        if exists|t: UpgradeTicket| ticket_ok(t) && ticket_bytes(t) == bytes@ {
            let t = choose|t: UpgradeTicket| ticket_ok(t) && ticket_bytes(t) == bytes@;
            let u = uleb_encode(t.digest@.len());
            assert(bytes@.skip(65) =~= u + t.digest@);
            crate::wire::lemma_length_round_trip(t.digest@.len(), t.digest@);
        }
    }
    if bytes.len() < 65 {
        return Err(ExecutionError::command_argument(CommandArgumentError::InvalidBCSBytes, 0));
    }
    let (n, p) = match read_length(bytes, 65) {
        Some(x) => x,
        None => {
            return Err(ExecutionError::command_argument(CommandArgumentError::InvalidBCSBytes, 0));
        },
    };
    if n as usize != bytes.len() - p {
        return Err(ExecutionError::command_argument(CommandArgumentError::InvalidBCSBytes, 0));
    }
    let cap = copy_range(bytes, 0, 32);
    let package = copy_range(bytes, 32, 64);
    let policy = bytes[64];
    let digest = copy_range(bytes, p, bytes.len());
    let t = UpgradeTicket { cap, package, policy, digest };
    proof {
        crate::wire::lemma_length_sound(bytes@.skip(65));
        assert(bytes@.skip(65).take(p - 65) =~= bytes@.subrange(65, p as int));
        assert(bytes@ =~= bytes@.subrange(0, 32) + bytes@.subrange(32, 64) + seq![bytes@[64]]
            + bytes@.subrange(65, p as int) + bytes@.subrange(p as int, bytes@.len() as int));
    }
    Ok(t)
}

/// `r` is the error for a ticket issued for another package.
pub open spec fn id_mismatch(r: Result<(), ExecutionError>, package_id: Seq<u8>, ticket_id: Seq<u8>) -> bool {
    match r {
        Err(e) => e.command is None && match e.kind {
            ExecutionErrorKind::PackageUpgradeError {
                upgrade_error: PackageUpgradeError::PackageIDDoesNotMatch { package_id: p, ticket_id: t },
            } => p@ == package_id && t@ == ticket_id,
            _ => false,
        },
        Ok(_) => false,
    }
}

/// `r` is the error for modules whose digest is not the ticket's.
pub open spec fn digest_mismatch(r: Result<(), ExecutionError>, digest: Seq<u8>) -> bool {
    match r {
        Err(e) => e.command is None && match e.kind {
            ExecutionErrorKind::PackageUpgradeError {
                upgrade_error: PackageUpgradeError::DigestDoesNotMatch { digest: d },
            } => d@ == digest,
            _ => false,
        },
        Ok(_) => false,
    }
}

/// Checks a ticket against the package it is for and the digest computed from
/// the new modules and their dependencies.
pub fn check_upgrade_ticket(
    ticket: &UpgradeTicket,
    current_package_id: &Vec<u8>,
    computed_digest: &Vec<u8>,
) -> (r: Result<(), ExecutionError>)
    ensures
        current_package_id@ != ticket.package@ ==> id_mismatch(
            r,
            current_package_id@,
            ticket.package@,
        ),
        current_package_id@ == ticket.package@ && computed_digest@ != ticket.digest@
            ==> digest_mismatch(r, computed_digest@),
        current_package_id@ == ticket.package@ && computed_digest@ == ticket.digest@ ==> r == Ok::<
            (),
            ExecutionError,
        >(()),
{
    if !bytes_eq(current_package_id, &ticket.package) {
        assert(current_package_id@.subrange(0, current_package_id@.len() as int) =~= current_package_id@);
        assert(ticket.package@.subrange(0, ticket.package@.len() as int) =~= ticket.package@);
        return Err(
            ExecutionError::from_kind(
                ExecutionErrorKind::PackageUpgradeError {
                    upgrade_error: PackageUpgradeError::PackageIDDoesNotMatch {
                        package_id: copy_range(current_package_id, 0, current_package_id.len()),
                        ticket_id: copy_range(&ticket.package, 0, ticket.package.len()),
                    },
                },
            ),
        );
    }
    if !bytes_eq(computed_digest, &ticket.digest) {
        assert(computed_digest@.subrange(0, computed_digest@.len() as int) =~= computed_digest@);
        return Err(
            ExecutionError::from_kind(
                ExecutionErrorKind::PackageUpgradeError {
                    upgrade_error: PackageUpgradeError::DigestDoesNotMatch {
                        digest: copy_range(computed_digest, 0, computed_digest.len()),
                    },
                },
            ),
        );
    }
    Ok(())
}

/// Decides an upgrade: the ticket must name the package and carry the digest
/// of exactly the new modules, and only then are the modules checked for
/// compatibility under the ticket's policy.
pub fn check_upgrade(
    config: &ProtocolConfig,
    ticket: &UpgradeTicket,
    current_package_id: &Vec<u8>,
    computed_digest: &Vec<u8>,
    existing: &Vec<NormalizedModule>,
    upgrading: &Vec<NormalizedModule>,
) -> (r: Result<(), ExecutionError>)
    ensures
        current_package_id@ != ticket.package@ ==> id_mismatch(
            r,
            current_package_id@,
            ticket.package@,
        ),
        current_package_id@ == ticket.package@ && computed_digest@ != ticket.digest@
            ==> digest_mismatch(r, computed_digest@),
        current_package_id@ == ticket.package@ && computed_digest@ == ticket.digest@ ==> match spec_policy(
            ticket.policy,
        ) {
            None => r == Err::<(), ExecutionError>(
                error_of(
                    ExecutionErrorKind::PackageUpgradeError {
                        upgrade_error: PackageUpgradeError::UnknownUpgradePolicy {
                            policy: ticket.policy,
                        },
                    },
                ),
            ),
            Some(p) => if !module_count_refused(*config, p, existing@, upgrading@)
                && package_compatible(p, existing@, upgrading@) {
                r == Ok::<(), ExecutionError>(())
            } else {
                r == Err::<(), ExecutionError>(incompatible())
            },
        },
{
    match check_upgrade_ticket(ticket, current_package_id, computed_digest) {
        Ok(()) => {},
        Err(e) => return Err(e),
    }
    check_compatibility(config, existing, upgrading, ticket.policy)
}

} // verus!
