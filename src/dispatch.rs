use vstd::prelude::*;
use crate::errors::{ExecutionError, ExecutionErrorKind};
use crate::slots::ArgumentTable;
use crate::commands::{make_vec_post, make_vec_of_objects_post, merge_post, split_post, transfer_post, execute_make_move_vec, execute_make_move_vec_of_objects, execute_merge_coins, execute_split_coins, execute_transfer_objects};
use crate::config::{ExecutionMode, ProtocolConfig};
use crate::slots::Arg;
use crate::types::{AbilitySet, MoveType};
use crate::value::{ObjectValue, Value};

verus! {

/// How an attempted command ended.
#[derive(Debug, Clone, Copy, PartialEq, Eq, Structural)]
pub enum Timing {
    Success,
    Abort,
}

/// `after` is `before` with `vals` recorded as the results of one more command,
/// each in a fresh slot, the existing slots unchanged.
pub open spec fn recorded(before: ArgumentTable, after: ArgumentTable, vals: Seq<Value>) -> bool {
    &&& after.results@.len() == before.results@.len() + 1
    &&& after.results@[before.results@.len() as int]@.len() == vals.len()
    &&& forall|k: int|
        0 <= k < vals.len() ==> #[trigger] after.result_value(before.results@.len() as int, k) == Some(
            vals[k],
        )
    &&& after.slots@.len() == before.slots@.len() + vals.len()
    &&& forall|i: int| 0 <= i < before.slots@.len() ==> #[trigger] after.slots@[i] == before.slots@[i]
    &&& after.num_inputs == before.num_inputs
}

/// What the dispatcher does next.
#[derive(Debug, Clone, Copy, PartialEq, Eq, Structural)]
pub enum NextStep {
    /// Run the command at this index.
    Run(usize),
    /// Every command succeeded.
    Finished,
    /// A command failed; no other is attempted.
    Aborted,
}

/// Drives the commands of a transaction one at a time, in order: it records
/// each command's results in the argument table and one timing entry per
/// attempted command, and stops at the first failure, tagging the error with
/// the failing command's index.
#[derive(Debug)]
pub struct Dispatcher {
    pub num_commands: usize,
    pub completed: usize,
    pub timings: Vec<Timing>,
    pub error: Option<ExecutionError>,
    pub table: ArgumentTable,
}

impl Dispatcher {
    pub open spec fn wf(&self) -> bool {
        &&& self.table.wf()
        &&& self.completed <= self.num_commands
        &&& self.table.results@.len() == self.completed
        &&& forall|i: int| 0 <= i < self.completed ==> self.timings@[i] == Timing::Success
        &&& match self.error {
            None => self.timings@.len() == self.completed && self.table.none_borrowed(),
            Some(e) => {
                &&& self.completed < self.num_commands
                &&& self.timings@.len() == self.completed + 1
                &&& self.timings@[self.completed as int] == Timing::Abort
                &&& e.command == Some(self.completed)
            },
        }
    }

    pub open spec fn spec_next_step(&self) -> NextStep {
        if self.error is Some {
            NextStep::Aborted
        } else if self.completed < self.num_commands {
            NextStep::Run(self.completed)
        } else {
            NextStep::Finished
        }
    }

    /// A dispatcher for `num_commands` commands over the given inputs.
    pub fn new(num_commands: usize, inputs: Vec<Value>) -> (r: Dispatcher)
        ensures
            r.wf(),
            r.num_commands == num_commands,
            r.completed == 0,
            r.error is None,
            r.table.num_inputs == inputs@.len(),
    {
        Dispatcher {
            num_commands,
            completed: 0,
            timings: Vec::new(),
            error: None,
            table: ArgumentTable::new(inputs),
        }
    }

    pub fn next_step(&self) -> (r: NextStep)
        ensures
            r == self.spec_next_step(),
    {
        if self.error.is_some() {
            NextStep::Aborted
        } else if self.completed < self.num_commands {
            NextStep::Run(self.completed)
        } else {
            NextStep::Finished
        }
    }

    /// Records the failure of the command being run: the error is tagged with
    /// its index and no later command is attempted.
    pub fn record_failure(&mut self, err: ExecutionError)
        requires
            old(self).table.wf(),
            old(self).completed < old(self).num_commands,
            old(self).table.results@.len() == old(self).completed,
            old(self).error is None,
            old(self).timings@.len() == old(self).completed,
            forall|i: int| 0 <= i < old(self).completed ==> old(self).timings@[i] == Timing::Success,
        ensures
            final(self).wf(),
            final(self).completed == old(self).completed,
            final(self).num_commands == old(self).num_commands,
            final(self).error == Some(
                ExecutionError { kind: err.kind, command: Some(old(self).completed) },
            ),
            final(self).timings@ == old(self).timings@.push(Timing::Abort),
            final(self).table == old(self).table,
            final(self).spec_next_step() is Aborted,
    {
        self.timings.push(Timing::Abort);
        self.error = Some(err.with_command_index(self.completed));
    }

    /// Records the success of the command being run, with its results. A
    /// command that left a value out on an exclusive borrow has not completed:
    /// that is a defect of the executor, recorded as its failure.
    pub fn record_success(&mut self, results: Vec<Value>)
        requires
            old(self).table.wf(),
            old(self).completed < old(self).num_commands,
            old(self).table.results@.len() == old(self).completed,
            old(self).error is None,
            old(self).timings@.len() == old(self).completed,
            forall|i: int| 0 <= i < old(self).completed ==> old(self).timings@[i] == Timing::Success,
        ensures
            final(self).wf(),
            final(self).num_commands == old(self).num_commands,
            !old(self).table.none_borrowed() ==> final(self).error is Some,
            old(self).table.none_borrowed() && old(self).table.slots@.len() + results@.len()
                <= usize::MAX ==> {
                &&& final(self).completed == old(self).completed + 1
                &&& final(self).error is None
                &&& final(self).timings@ == old(self).timings@.push(Timing::Success)
                &&& recorded(old(self).table, final(self).table, results@)
            },
    {
        if !self.table.all_restored() {
            self.record_failure(ExecutionError::from_kind(ExecutionErrorKind::InvariantViolation));
            return;
        }
        match self.table.push_results(results) {
            Ok(()) => {
                self.timings.push(Timing::Success);
                self.completed = self.completed + 1;
            },
            Err(e) => {
                self.record_failure(e);
            },
        }
    }
}

/// A command that runs without the VM.
#[derive(Debug)]
pub enum NativeCommand {
    /// Builds a vector of the values at the arguments, of the given element
    /// type, or else of the type of the first, an object; the abilities are
    /// those of the element and of the vector types.
    MakeMoveVec {
        elem_ty: Option<MoveType>,
        args: Vec<Arg>,
        elem_abilities: AbilitySet,
        vec_abilities: AbilitySet,
    },
    TransferObjects(Vec<Arg>, Arg),
    SplitCoins(Arg, Vec<Arg>),
    MergeCoins(Arg, Vec<Arg>),
}

/// The objects a transfer hands over and their recipient.
#[derive(Debug)]
pub struct Transfer {
    pub objects: Vec<ObjectValue>,
    pub recipient: Vec<u8>,
}

pub open spec fn invariant_error() -> ExecutionError {
    ExecutionError { kind: ExecutionErrorKind::InvariantViolation, command: None }
}

/// What running a native command did to the argument table, and its results
/// or its error.
pub open spec fn native_post(
    config: ProtocolConfig,
    mode: ExecutionMode,
    before: ArgumentTable,
    after: ArgumentTable,
    command: NativeCommand,
    fresh_ids: Seq<Vec<u8>>,
    outcome: Result<Seq<Value>, ExecutionError>,
) -> bool {
    match command {
        NativeCommand::MakeMoveVec { elem_ty, args, elem_abilities, vec_abilities } => if args@.len()
            > 65536 {
            outcome == Err::<Seq<Value>, ExecutionError>(invariant_error()) && after == before
        } else {
            let vr = match outcome {
                Ok(vs) => Ok(vs[0]),
                Err(e) => Err(e),
            };
            &&& outcome matches Ok(vs) ==> vs.len() == 1
            &&& match elem_ty {
                Some(ty) => make_vec_post(
                    config,
                    mode,
                    before,
                    after,
                    ty,
                    args@,
                    elem_abilities,
                    vec_abilities,
                    vr,
                ),
                None => make_vec_of_objects_post(
                    config,
                    mode,
                    before,
                    after,
                    args@,
                    elem_abilities,
                    vec_abilities,
                    vr,
                ),
            }
        },
        NativeCommand::TransferObjects(objs, addr) => if objs@.len() >= 65535 {
            outcome == Err::<Seq<Value>, ExecutionError>(invariant_error()) && after == before
        } else {
            exists|tr: Result<(Seq<ObjectValue>, Seq<u8>), ExecutionError>|
                #![trigger transfer_post(before, after, objs@, addr, tr)]
                transfer_post(before, after, objs@, addr, tr) && outcome == match tr {
                    Ok(_) => Ok(Seq::<Value>::empty()),
                    Err(e) => Err(e),
                }
        },
        NativeCommand::SplitCoins(coin, amounts) => if fresh_ids.len() != amounts@.len() {
            outcome == Err::<Seq<Value>, ExecutionError>(invariant_error()) && after == before
        } else {
            split_post(before, after, coin, amounts@, fresh_ids, outcome)
        },
        NativeCommand::MergeCoins(target, coins) => if coins@.len() >= 65535 {
            outcome == Err::<Seq<Value>, ExecutionError>(invariant_error()) && after == before
        } else {
            &&& outcome matches Ok(vs) ==> vs.len() == 0
            &&& merge_post(
                before,
                after,
                target,
                coins@,
                match outcome {
                    Ok(_) => Ok(()),
                    Err(e) => Err(e),
                },
            )
        },
    }
}

/// How the dispatcher records a command that left the table as `mid` with
/// the given outcome.
pub open spec fn dispatch_after(
    before: Dispatcher,
    after: Dispatcher,
    mid: ArgumentTable,
    outcome: Result<Seq<Value>, ExecutionError>,
) -> bool {
    &&& after.num_commands == before.num_commands
    &&& match outcome {
        Ok(vals) => if mid.none_borrowed() && mid.slots@.len() + vals.len() <= usize::MAX {
            &&& after.error is None
            &&& after.completed == before.completed + 1
            &&& recorded(mid, after.table, vals)
        } else {
            &&& after.error == Some(
                ExecutionError {
                    kind: ExecutionErrorKind::InvariantViolation,
                    command: Some(before.completed),
                },
            )
            &&& after.completed == before.completed
        },
        Err(e) => {
            &&& after.error == Some(ExecutionError { kind: e.kind, command: Some(before.completed) })
            &&& after.completed == before.completed
            &&& after.table == mid
        },
    }
}

impl Dispatcher {
    /// Runs the next command, which must not need the VM, and records how it
    /// ended. `fresh_ids` are the ids for the coins a split creates.
    pub fn execute_command(
        &mut self,
        config: &ProtocolConfig,
        mode: &ExecutionMode,
        command: &NativeCommand,
        fresh_ids: Vec<Vec<u8>>,
    ) -> (r: Option<Transfer>)
        requires
            old(self).wf(),
            old(self).spec_next_step() is Run,
            config.max_move_value_depth > 0,
        ensures
            final(self).wf(),
            final(self).num_commands == old(self).num_commands,
            final(self).completed == old(self).completed + 1 || (final(self).completed
                == old(self).completed && final(self).error is Some),
            r is Some ==> final(self).completed == old(self).completed + 1,
            exists|mid: ArgumentTable, outcome: Result<Seq<Value>, ExecutionError>|
                #![trigger native_post(*config, *mode, old(self).table, mid, *command, fresh_ids@, outcome)]
                native_post(*config, *mode, old(self).table, mid, *command, fresh_ids@, outcome)
                    && dispatch_after(*old(self), *final(self), mid, outcome),
    {
        let ghost ids = fresh_ids@;
        let outcome: Result<(Vec<Value>, Option<Transfer>), ExecutionError> = match command {
            NativeCommand::MakeMoveVec { elem_ty, args, elem_abilities, vec_abilities } => {
                if args.len() > 65536 {
                    Err(ExecutionError::from_kind(ExecutionErrorKind::InvariantViolation))
                } else {
                    let made = match elem_ty {
                        Some(ty) => execute_make_move_vec(
                            config,
                            mode,
                            &mut self.table,
                            ty,
                            args,
                            *elem_abilities,
                            *vec_abilities,
                        ),
                        None => execute_make_move_vec_of_objects(
                            config,
                            mode,
                            &mut self.table,
                            args,
                            *elem_abilities,
                            *vec_abilities,
                        ),
                    };
                    match made {
                        Ok(v) => Ok((vec![v], None)),
                        Err(e) => Err(e),
                    }
                }
            },
            NativeCommand::TransferObjects(objs, addr) => {
                if objs.len() >= 65535 {
                    Err(ExecutionError::from_kind(ExecutionErrorKind::InvariantViolation))
                } else {
                    match execute_transfer_objects(&mut self.table, objs, *addr) {
                        Ok((objects, recipient)) => Ok((Vec::new(), Some(Transfer { objects, recipient }))),
                        Err(e) => Err(e),
                    }
                }
            },
            NativeCommand::SplitCoins(coin, amounts) => {
                if fresh_ids.len() != amounts.len() {
                    Err(ExecutionError::from_kind(ExecutionErrorKind::InvariantViolation))
                } else {
                    match execute_split_coins(&mut self.table, *coin, amounts, fresh_ids) {
                        Ok(coins) => Ok((coins, None)),
                        Err(e) => Err(e),
                    }
                }
            },
            NativeCommand::MergeCoins(target, coins) => {
                if coins.len() >= 65535 {
                    Err(ExecutionError::from_kind(ExecutionErrorKind::InvariantViolation))
                } else {
                    match execute_merge_coins(&mut self.table, *target, coins) {
                        Ok(()) => Ok((Vec::new(), None)),
                        Err(e) => Err(e),
                    }
                }
            },
        };
        let ghost mid = self.table;
        let ghost gout = outcome;
        let ghost out_seq: Result<Seq<Value>, ExecutionError> = match gout {
            Ok((rs, _)) => Ok(rs@),
            Err(e) => Err(e),
        };
        proof {
            assert(native_post(*config, *mode, old(self).table, mid, *command, ids, out_seq));
        }
        match outcome {
            Ok((results, transfer)) => {
                if results.len() > usize::MAX - self.table.slots.len() || !self.table.all_restored() {
                    self.record_failure(ExecutionError::from_kind(ExecutionErrorKind::InvariantViolation));
                    return None;
                }
                self.record_success(results);
                transfer
            },
            Err(e) => {
                self.record_failure(e);
                None
            },
        }
    }
}

/// Once a command has failed, the results of exactly the commands before it
/// are recorded, each of them with a success timing, the failing one with an
/// abort timing, the error reports its index, and no command is attempted
/// after it.
pub proof fn lemma_failure_stops_dispatch(d: Dispatcher)
    requires
        d.wf(),
        d.error is Some,
    ensures
        d.error.unwrap().command == Some(d.completed),
        d.table.results@.len() == d.completed,
        d.timings@.len() == d.completed + 1,
        forall|i: int| 0 <= i < d.completed ==> d.timings@[i] == Timing::Success,
        d.timings@[d.completed as int] == Timing::Abort,
        d.spec_next_step() == NextStep::Aborted,
{
}

} // verus!
