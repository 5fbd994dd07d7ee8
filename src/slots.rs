use vstd::prelude::*;
use crate::errors::{command_argument_error, error_of, CommandArgumentError, ExecutionError, ExecutionErrorKind};
use crate::value::Value;

verus! {

/// A symbolic reference to a value: a transaction input, the single result of
/// an earlier command, or one of the results of an earlier command.
#[derive(Debug, Clone, Copy, PartialEq, Eq, Structural)]
pub enum Arg {
    Input(u16),
    Result(u16),
    NestedResult(u16, u16),
}

/// One slot of the argument table: the value it holds, if it has not been
/// moved out, and whether that value is out on an exclusive borrow.
#[derive(Debug)]
pub struct Slot {
    pub value: Option<Value>,
    pub borrowed: bool,
}

/// The inputs and the results of the commands run so far, kept in one arena of
/// slots. The first `num_inputs` slots are the inputs; `results[j]` lists the
/// slots that hold the results of command `j`.
#[derive(Debug)]
pub struct ArgumentTable {
    pub slots: Vec<Slot>,
    pub num_inputs: usize,
    pub results: Vec<Vec<usize>>,
}

/// What a slot's access state is: a borrowed slot holds its value out on loan,
/// so a value is present exactly when the slot is neither moved nor borrowed.
pub open spec fn slot_ok(s: Slot) -> bool {
    s.borrowed ==> s.value is None
}

impl ArgumentTable {
    pub open spec fn wf(&self) -> bool {
        &&& self.num_inputs <= self.slots@.len()
        &&& forall|j: int, k: int|
            0 <= j < self.results@.len() && 0 <= k < self.results@[j]@.len() ==> #[trigger] self.results@[j]@[k]
                < self.slots@.len()
        &&& forall|i: int| 0 <= i < self.slots@.len() ==> slot_ok(#[trigger] self.slots@[i])
    }

    /// What slot `k` of the results of command `j` holds.
    pub open spec fn result_value(&self, j: int, k: int) -> Option<Value> {
        self.slots@[self.results@[j]@[k] as int].value
    }

    /// The slot that `arg` names, if it names one.
    pub open spec fn spec_resolve(&self, arg: Arg) -> Option<usize> {
        match arg {
            Arg::Input(i) => if (i as int) < self.num_inputs {
                Some(i as usize)
            } else {
                None
            },
            Arg::Result(j) => if (j as int) < self.results@.len() && self.results@[j as int]@.len()
                == 1 {
                Some(self.results@[j as int]@[0])
            } else {
                None
            },
            Arg::NestedResult(j, k) => if (j as int) < self.results@.len() && (k as int)
                < self.results@[j as int]@.len() {
                Some(self.results@[j as int]@[k as int])
            } else {
                None
            },
        }
    }

    /// The error for an argument that names no slot.
    pub open spec fn unresolved_error(&self, arg: Arg, idx: u16) -> ExecutionError {
        match arg {
            Arg::Result(j) => if (j as int) < self.results@.len() {
                command_argument_error(CommandArgumentError::InvalidResultArity { result_idx: j }, idx)
            } else {
                command_argument_error(CommandArgumentError::IndexOutOfBounds, idx)
            },
            _ => command_argument_error(CommandArgumentError::IndexOutOfBounds, idx),
        }
    }

    /// A table of the given inputs, with no results yet.
    pub fn new(inputs: Vec<Value>) -> (r: ArgumentTable)
        ensures
            r.wf(),
            r.num_inputs == inputs@.len(),
            r.slots@.len() == inputs@.len(),
            forall|i: int|
                0 <= i < inputs@.len() ==> (#[trigger] r.slots@[i]).value == Some(inputs@[i])
                    && !r.slots@[i].borrowed,
            r.results@.len() == 0,
    {
        let n = inputs.len();
        let mut slots: Vec<Slot> = Vec::new();
        let mut inputs = inputs;
        let ghost orig = inputs@;
        let mut rev: Vec<Slot> = Vec::new();
        while inputs.len() > 0
            invariant
                inputs@.len() + rev@.len() == orig.len(),
                forall|i: int| 0 <= i < inputs@.len() ==> inputs@[i] == orig[i],
                forall|i: int|
                    0 <= i < rev@.len() ==> (#[trigger] rev@[i]).value == Some(
                        orig[orig.len() - 1 - i],
                    ) && !rev@[i].borrowed,
            decreases inputs@.len(),
        {
            let v = inputs.pop().unwrap();
            rev.push(Slot { value: Some(v), borrowed: false });
        }
        while rev.len() > 0
            invariant
                slots@.len() + rev@.len() == orig.len(),
                forall|i: int|
                    0 <= i < rev@.len() ==> (#[trigger] rev@[i]).value == Some(
                        orig[orig.len() - 1 - i],
                    ) && !rev@[i].borrowed,
                forall|i: int|
                    0 <= i < slots@.len() ==> (#[trigger] slots@[i]).value == Some(orig[i])
                        && !slots@[i].borrowed,
            decreases rev@.len(),
        {
            let s = rev.pop().unwrap();
            slots.push(s);
        }
        ArgumentTable { slots, num_inputs: n, results: Vec::new() }
    }

    /// Finds the slot that `arg` names; `idx` is the argument's position in its
    /// command, for the error.
    pub fn resolve(&self, arg: Arg, idx: u16) -> (r: Result<usize, ExecutionError>)
        requires
            self.wf(),
        ensures
            match self.spec_resolve(arg) {
                Some(i) => r == Ok::<usize, ExecutionError>(i) && i < self.slots@.len(),
                None => r == Err::<usize, ExecutionError>(self.unresolved_error(arg, idx)),
            },
    {
        match arg {
            Arg::Input(i) => {
                if (i as usize) < self.num_inputs {
                    Ok(i as usize)
                } else {
                    Err(ExecutionError::command_argument(CommandArgumentError::IndexOutOfBounds, idx))
                }
            },
            Arg::Result(j) => {
                if (j as usize) < self.results.len() {
                    if self.results[j as usize].len() == 1 {
                        Ok(self.results[j as usize][0])
                    } else {
                        Err(
                            ExecutionError::command_argument(
                                CommandArgumentError::InvalidResultArity { result_idx: j },
                                idx,
                            ),
                        )
                    }
                } else {
                    Err(ExecutionError::command_argument(CommandArgumentError::IndexOutOfBounds, idx))
                }
            },
            Arg::NestedResult(j, k) => {
                if (j as usize) < self.results.len() && (k as usize) < self.results[j as usize].len() {
                    Ok(self.results[j as usize][k as usize])
                } else {
                    Err(ExecutionError::command_argument(CommandArgumentError::IndexOutOfBounds, idx))
                }
            },
        }
    }

    /// Moves the value out of the slot that `arg` names, which is consumed.
    /// Fails if the value was already moved or is out on a borrow.
    pub fn by_value(&mut self, idx: u16, arg: Arg) -> (r: Result<Value, ExecutionError>)
        requires
            old(self).wf(),
        ensures
            final(self).wf(),
            match old(self).spec_resolve(arg) {
                None => r == Err::<Value, ExecutionError>(old(self).unresolved_error(arg, idx))
                    && *final(self) == *old(self),
                Some(i) => match old(self).slots@[i as int].value {
                    Some(v) => r == Ok::<Value, ExecutionError>(v) && final(self).slots@
                        == old(self).slots@.update(i as int, Slot { value: None, borrowed: false })
                        && final(self).num_inputs == old(self).num_inputs && final(self).results
                        == old(self).results,
                    None => r == Err::<Value, ExecutionError>(
                        command_argument_error(CommandArgumentError::InvalidValueUsage, idx),
                    ) && *final(self) == *old(self),
                },
            },
    {
        let i = match self.resolve(arg, idx) {
            Ok(i) => i,
            Err(e) => return Err(e),
        };
        if self.slots[i].value.is_none() {
            return Err(ExecutionError::command_argument(CommandArgumentError::InvalidValueUsage, idx));
        }
        let mut out: Option<Value> = None;
        std::mem::swap(&mut self.slots[i].value, &mut out);
        match out {
            Some(v) => Ok(v),
            None => Err(ExecutionError::command_argument(CommandArgumentError::InvalidValueUsage, idx)),
        }
    }

    /// Takes the value of the slot that `arg` names out on an exclusive borrow:
    /// the slot stays reserved until the value is restored.
    pub fn borrow_mut(&mut self, idx: u16, arg: Arg) -> (r: Result<Value, ExecutionError>)
        requires
            old(self).wf(),
        ensures
            final(self).wf(),
            match old(self).spec_resolve(arg) {
                None => r == Err::<Value, ExecutionError>(old(self).unresolved_error(arg, idx))
                    && *final(self) == *old(self),
                Some(i) => match old(self).slots@[i as int].value {
                    Some(v) => r == Ok::<Value, ExecutionError>(v) && final(self).slots@
                        == old(self).slots@.update(i as int, Slot { value: None, borrowed: true })
                        && final(self).num_inputs == old(self).num_inputs && final(self).results
                        == old(self).results,
                    None => r == Err::<Value, ExecutionError>(
                        command_argument_error(CommandArgumentError::InvalidValueUsage, idx),
                    ) && *final(self) == *old(self),
                },
            },
    {
        let i = match self.resolve(arg, idx) {
            Ok(i) => i,
            Err(e) => return Err(e),
        };
        if self.slots[i].value.is_none() {
            return Err(ExecutionError::command_argument(CommandArgumentError::InvalidValueUsage, idx));
        }
        let mut out: Option<Value> = None;
        std::mem::swap(&mut self.slots[i].value, &mut out);
        self.slots[i].borrowed = true;
        match out {
            Some(v) => Ok(v),
            None => Err(ExecutionError::command_argument(CommandArgumentError::InvalidValueUsage, idx)),
        }
    }

    /// A shared view of the value in the slot that `arg` names. Fails if the
    /// value was moved or is out on an exclusive borrow.
    pub fn borrow(&self, idx: u16, arg: Arg) -> (r: Result<&Value, ExecutionError>)
        requires
            self.wf(),
        ensures
            match self.spec_resolve(arg) {
                None => r == Err::<&Value, ExecutionError>(self.unresolved_error(arg, idx)),
                Some(i) => match self.slots@[i as int].value {
                    Some(v) => r matches Ok(x) && *x == v,
                    None => r == Err::<&Value, ExecutionError>(
                        command_argument_error(CommandArgumentError::InvalidValueUsage, idx),
                    ),
                },
            },
    {
        let i = match self.resolve(arg, idx) {
            Ok(i) => i,
            Err(e) => return Err(e),
        };
        match &self.slots[i].value {
            Some(v) => Ok(v),
            None => Err(ExecutionError::command_argument(CommandArgumentError::InvalidValueUsage, idx)),
        }
    }

    /// Writes a value back into the exclusively borrowed slot that `arg` names,
    /// making it available to later commands. A slot that is not out on a
    /// borrow cannot be restored.
    pub fn restore(&mut self, arg: Arg, value: Value) -> (r: Result<(), ExecutionError>)
        requires
            old(self).wf(),
        ensures
            final(self).wf(),
            match old(self).spec_resolve(arg) {
                Some(i) => if old(self).slots@[i as int].borrowed {
                    r == Ok::<(), ExecutionError>(()) && final(self).slots@ == old(self).slots@.update(
                        i as int,
                        Slot { value: Some(value), borrowed: false },
                    ) && final(self).num_inputs == old(self).num_inputs && final(self).results
                        == old(self).results
                } else {
                    r == Err::<(), ExecutionError>(error_of(ExecutionErrorKind::InvariantViolation))
                        && *final(self) == *old(self)
                },
                None => r == Err::<(), ExecutionError>(error_of(ExecutionErrorKind::InvariantViolation))
                    && *final(self) == *old(self),
            },
    {
        let i = match self.resolve(arg, 0) {
            Ok(i) => i,
            Err(_) => return Err(ExecutionError::from_kind(ExecutionErrorKind::InvariantViolation)),
        };
        if !self.slots[i].borrowed {
            return Err(ExecutionError::from_kind(ExecutionErrorKind::InvariantViolation));
        }
        self.slots.set(i, Slot { value: Some(value), borrowed: false });
        Ok(())
    }

    /// Records the results of the next command, each in a fresh slot.
    pub fn push_results(&mut self, values: Vec<Value>) -> (r: Result<(), ExecutionError>)
        requires
            old(self).wf(),
        ensures
            final(self).wf(),
            final(self).num_inputs == old(self).num_inputs,
            r is Ok ==> final(self).results@.len() == old(self).results@.len() + 1
                && final(self).results@[old(self).results@.len() as int]@.len() == values@.len()
                && forall|k: int|
                0 <= k < values@.len() ==> #[trigger] final(self).result_value(
                    old(self).results@.len() as int,
                    k,
                ) == Some(values@[k]),
            r is Err ==> *final(self) == *old(self),
            r is Err <==> old(self).slots@.len() + values@.len() > usize::MAX,
            old(self).none_borrowed() ==> final(self).none_borrowed(),
            r is Ok ==> final(self).slots@.len() == old(self).slots@.len() + values@.len() && forall|i: int|
                0 <= i < old(self).slots@.len() ==> #[trigger] final(self).slots@[i] == old(self).slots@[i],
            r is Ok ==> forall|j: int|
                0 <= j < old(self).results@.len() ==> #[trigger] final(self).results@[j] == old(self).results@[j],
    {
        if values.len() > usize::MAX - self.slots.len() {
            return Err(ExecutionError::from_kind(ExecutionErrorKind::InvariantViolation));
        }
        let start = self.slots.len();
        let mut indices: Vec<usize> = Vec::new();
        let mut values = values;
        let ghost vals = values@;
        let mut rev: Vec<Value> = Vec::new();
        while values.len() > 0
            invariant
                values@.len() + rev@.len() == vals.len(),
                forall|i: int| 0 <= i < values@.len() ==> values@[i] == vals[i],
                forall|i: int| 0 <= i < rev@.len() ==> #[trigger] rev@[i] == vals[vals.len() - 1 - i],
            decreases values@.len(),
        {
            let v = values.pop().unwrap();
            rev.push(v);
        }
        let ghost old_slots = self.slots@;
        while rev.len() > 0
            invariant
                self.num_inputs <= old_slots.len(),
                self.num_inputs == old(self).num_inputs,
                self.results@ == old(self).results@,
                old(self).wf(),
                old(self).slots@ == old_slots,
                start == old_slots.len(),
                start + vals.len() <= usize::MAX,
                indices@.len() + rev@.len() == vals.len(),
                self.slots@.len() == start + indices@.len(),
                forall|i: int| 0 <= i < start ==> self.slots@[i] == old_slots[i],
                forall|i: int| 0 <= i < rev@.len() ==> #[trigger] rev@[i] == vals[vals.len() - 1 - i],
                forall|k: int|
                    0 <= k < indices@.len() ==> #[trigger] indices@[k] == start + k && (
                    self.slots@[start + k]).value == Some(vals[k]) && !self.slots@[start + k].borrowed,
            decreases rev@.len(),
        {
            let v = rev.pop().unwrap();
            assert(v == vals[indices@.len() as int]);
            let ghost prev_idx = indices@;
            let ghost prev_slots = self.slots@;
            indices.push(self.slots.len());
            self.slots.push(Slot { value: Some(v), borrowed: false });
            assert forall|k: int| 0 <= k < indices@.len() implies #[trigger] indices@[k] == start + k
                && (self.slots@[start + k]).value == Some(vals[k]) && !self.slots@[start
                + k].borrowed by {
                if k < prev_idx.len() {
                    assert(indices@[k] == prev_idx[k]);
                    assert(self.slots@[start + k] == prev_slots[start + k]);
                }
            }
        }
        self.results.push(indices);
        proof {
            assert forall|i: int| 0 <= i < self.slots@.len() implies slot_ok(#[trigger] self.slots@[i]) by {
                if i < start {
                    assert(slot_ok(old_slots[i]));
                } else {
                    assert(indices@[i - start] == i);
                }
            }
            if old(self).none_borrowed() {
                assert forall|i: int| 0 <= i < self.slots@.len() implies !(#[trigger] self.slots@[i]).borrowed by {
                    if i < start {
                        assert(self.slots@[i] == old_slots[i]);
                    } else {
                        assert(indices@[i - start] == i);
                    }
                }
            }
            assert forall|j: int, k: int|
                0 <= j < self.results@.len() && 0 <= k < self.results@[j]@.len() implies #[trigger] self.results@[j]@[k]
                < self.slots@.len() by {
                if j < old(self).results@.len() {
                    assert(self.results@[j] == old(self).results@[j]);
                }
            }
        }
        Ok(())
    }

    /// No value is out on an exclusive borrow.
    pub open spec fn none_borrowed(&self) -> bool {
        forall|i: int| 0 <= i < self.slots@.len() ==> !(#[trigger] self.slots@[i]).borrowed
    }

    pub fn all_restored(&self) -> (r: bool)
        ensures
            r == self.none_borrowed(),
    {
        let mut i: usize = 0;
        while i < self.slots.len()
            invariant
                i <= self.slots@.len(),
                forall|j: int| 0 <= j < i ==> !(#[trigger] self.slots@[j]).borrowed,
            decreases self.slots@.len() - i,
        {
            if self.slots[i].borrowed {
                return false;
            }
            i += 1;
        }
        true
    }
}

} // verus!
