use vstd::prelude::*;

verus! {

/// Why an argument of a command was refused.
#[derive(Debug, Clone, Copy, PartialEq, Eq, Structural)]
pub enum CommandArgumentError {
    TypeMismatch,
    InvalidBCSBytes,
    InvalidUsageOfPureArg,
    InvalidArgumentToPrivateEntryFunction,
    IndexOutOfBounds,
    InvalidValueUsage,
    InvalidObjectByValue,
    InvalidObjectByMutRef,
    InvalidResultArity { result_idx: u16 },
}

/// Why a type argument of a command was refused.
#[derive(Debug, Clone, Copy, PartialEq, Eq, Structural)]
pub enum TypeArgumentError {
    TypeNotFound,
    ConstraintNotSatisfied,
}

/// Why a package upgrade was refused.
#[derive(Debug, Clone, PartialEq, Eq)]
pub enum PackageUpgradeError {
    UnknownUpgradePolicy { policy: u8 },
    PackageIDDoesNotMatch { package_id: Vec<u8>, ticket_id: Vec<u8> },
    DigestDoesNotMatch { digest: Vec<u8> },
    IncompatibleUpgrade,
}

/// The kinds of failure of a command.
#[derive(Debug, Clone, PartialEq, Eq)]
#[allow(inconsistent_fields)]
pub enum ExecutionErrorKind {
    CommandArgumentError { arg_idx: u16, kind: CommandArgumentError },
    TypeArgumentError { argument_idx: u16, kind: TypeArgumentError },
    ArityMismatch,
    FunctionNotFound,
    NonEntryFunctionInvoked,
    InvalidPublicFunctionReturnType { idx: u16 },
    PackageUpgradeError { upgrade_error: PackageUpgradeError },
    PublishUpgradeMissingDependency,
    InsufficientCoinBalance,
    CoinBalanceOverflow,
    UnusedValueWithoutDrop,
    SizeLimitExceeded { limit: u64, value_size: u64 },
    InvalidTransferObject,
    VMInvariantViolation,
    /// A defect of the executor itself, never the fault of a transaction.
    InvariantViolation,
}

/// A failure, with the index of the command that failed once the dispatcher
/// has tagged it.
#[derive(Debug, Clone, PartialEq, Eq)]
pub struct ExecutionError {
    pub kind: ExecutionErrorKind,
    pub command: Option<usize>,
}

impl ExecutionError {
    pub fn from_kind(kind: ExecutionErrorKind) -> (r: ExecutionError)
        ensures
            r.kind == kind,
            r.command is None,
    {
        ExecutionError { kind, command: None }
    }

    /// An error on the argument at `idx` of the current command.
    pub fn command_argument(kind: CommandArgumentError, idx: u16) -> (r: ExecutionError)
        ensures
            r == command_argument_error(kind, idx),
    {
        ExecutionError {
            kind: ExecutionErrorKind::CommandArgumentError { arg_idx: idx, kind },
            command: None,
        }
    }

    /// Tags the error with the index of the command that failed.
    pub fn with_command_index(self, idx: usize) -> (r: ExecutionError)
        ensures
            r.kind == self.kind,
            r.command == Some(idx),
    {
        ExecutionError { kind: self.kind, command: Some(idx) }
    }
}

pub open spec fn command_argument_error(kind: CommandArgumentError, idx: u16) -> ExecutionError {
    ExecutionError {
        kind: ExecutionErrorKind::CommandArgumentError { arg_idx: idx, kind },
        command: None,
    }
}

pub open spec fn error_of(kind: ExecutionErrorKind) -> ExecutionError {
    ExecutionError { kind, command: None }
}

} // verus!
