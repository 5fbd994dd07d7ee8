use vstd::prelude::*;
use crate::errors::{command_argument_error, error_of, CommandArgumentError, ExecutionError, ExecutionErrorKind};
use crate::types::{invariant_violation, same_type, MoveType};
use crate::value::{Coin, ObjectContents, ObjectValue};

verus! {

/// The sum of a sequence of amounts.
pub open spec fn sum(s: Seq<u64>) -> nat
    decreases s.len(),
{
    if s.len() == 0 {
        0
    } else {
        sum(s.drop_last()) + s.last() as nat
    }
}

/// The balance of a coin object; zero for any other object.
pub open spec fn balance_of(o: ObjectValue) -> nat {
    match o.contents {
        ObjectContents::Coin(c) => c.balance as nat,
        _ => 0,
    }
}

/// The sum of the balances of a sequence of coin objects.
pub open spec fn balance_sum(s: Seq<ObjectValue>) -> nat
    decreases s.len(),
{
    if s.len() == 0 {
        0
    } else {
        balance_of(s[0]) + balance_sum(s.drop_first())
    }
}

impl Coin {
    /// Splits off one new coin of each amount, in order, with the given ids. The
    /// amounts must add up to no more than the balance; otherwise nothing is
    /// split.
    pub fn split_all(&mut self, amounts: &Vec<u64>, ids: Vec<Vec<u8>>) -> (r: Result<
        Vec<Coin>,
        ExecutionError,
    >)
        requires
            ids@.len() == amounts@.len(),
        ensures
            sum(amounts@) <= old(self).balance ==> r is Ok,
            sum(amounts@) > old(self).balance ==> r == Err::<Vec<Coin>, ExecutionError>(
                error_of(ExecutionErrorKind::InsufficientCoinBalance),
            ) && *final(self) == *old(self),
            r matches Ok(coins) ==> {
                &&& final(self).balance == old(self).balance - sum(amounts@)
                &&& final(self).id == old(self).id
                &&& coins@.len() == amounts@.len()
                &&& forall|i: int|
                    0 <= i < amounts@.len() ==> (#[trigger] coins@[i]).balance == amounts@[i]
                        && coins@[i].id == ids@[i]
            },
    {
        let mut remaining: u64 = self.balance;
        let mut i: usize = 0;
        while i < amounts.len()
            invariant
                i <= amounts@.len(),
                remaining as nat + sum(amounts@.take(i as int)) == self.balance as nat,
            decreases amounts@.len() - i,
        {
            assert(amounts@.take(i + 1).drop_last() =~= amounts@.take(i as int));
            if amounts[i] > remaining {
                proof {
                    lemma_sum_prefix_le(amounts@, i + 1);
                    assert(amounts@.take(amounts@.len() as int) =~= amounts@);
                }
                return Err(ExecutionError::from_kind(ExecutionErrorKind::InsufficientCoinBalance));
            }
            remaining = remaining - amounts[i];
            i += 1;
        }
        assert(amounts@.take(amounts@.len() as int) =~= amounts@);
        let mut coins: Vec<Coin> = Vec::new();
        let mut ids = ids;
        let ghost all_ids = ids@;
        let mut j: usize = amounts.len();
        let mut rev: Vec<Coin> = Vec::new();
        while j > 0
            invariant
                j <= amounts@.len(),
                ids@.len() == j,
                forall|k: int| 0 <= k < j ==> ids@[k] == all_ids[k],
                rev@.len() == amounts@.len() - j,
                forall|k: int|
                    0 <= k < rev@.len() ==> (#[trigger] rev@[k]).balance == amounts@[amounts@.len() - 1
                        - k] && rev@[k].id == all_ids[amounts@.len() - 1 - k],
            decreases j,
        {
            let id = ids.pop().unwrap();
            j -= 1;
            rev.push(Coin { id, balance: amounts[j] });
        }
        while rev.len() > 0
            invariant
                coins@.len() + rev@.len() == amounts@.len(),
                forall|k: int|
                    0 <= k < rev@.len() ==> (#[trigger] rev@[k]).balance == amounts@[amounts@.len() - 1
                        - k] && rev@[k].id == all_ids[amounts@.len() - 1 - k],
                forall|k: int|
                    0 <= k < coins@.len() ==> (#[trigger] coins@[k]).balance == amounts@[k]
                        && coins@[k].id == all_ids[k],
            decreases rev@.len(),
        {
            let c = rev.pop().unwrap();
            coins.push(c);
        }
        self.balance = remaining;
        Ok(coins)
    }
}

proof fn lemma_sum_prefix_le(s: Seq<u64>, n: int)
    requires
        0 <= n <= s.len(),
    ensures
        sum(s.take(n)) <= sum(s),
    decreases s.len() - n,
{
    if n < s.len() {
        lemma_sum_prefix_le(s, n + 1);
        assert(s.take(n + 1).drop_last() =~= s.take(n));
    } else {
        assert(s.take(n) =~= s);
    }
}

/// The outcome of merging `coins[k..]` into a coin of type `ty` holding `bal`:
/// the final balance, or the first failure met.
pub open spec fn merge_outcome(ty: MoveType, bal: nat, coins: Seq<ObjectValue>, k: nat) -> Result<
    nat,
    ExecutionError,
>
    decreases coins.len() - k,
{
    if k >= coins.len() {
        Ok(bal)
    } else if !same_type(coins[k as int].type_, ty) {
        Err(command_argument_error(CommandArgumentError::TypeMismatch, (k + 1) as u16))
    } else if !(coins[k as int].contents is Coin) {
        Err(invariant_violation())
    } else if bal + balance_of(coins[k as int]) > u64::MAX {
        Err(error_of(ExecutionErrorKind::CoinBalanceOverflow))
    } else {
        merge_outcome(ty, bal + balance_of(coins[k as int]), coins, k + 1)
    }
}

/// Merges the coins into `target`, in order. Each must have the target's type
/// exactly; the first that does not fails the merge at its argument index
/// (the target is argument 0).
pub fn merge_coins(target: &mut ObjectValue, coins: &Vec<ObjectValue>) -> (r: Result<(), ExecutionError>)
    requires
        coins@.len() < u16::MAX,
    ensures
        !(old(target).contents is Coin) ==> r == Err::<(), ExecutionError>(
            command_argument_error(CommandArgumentError::TypeMismatch, 0),
        ) && *final(target) == *old(target),
        old(target).contents is Coin ==> match merge_outcome(
            old(target).type_,
            balance_of(*old(target)),
            coins@,
            0,
        ) {
            Ok(b) => r == Ok::<(), ExecutionError>(()) && balance_of(*final(target)) == b
                && final(target).contents is Coin && final(target).contents->Coin_0.id == old(
                target,
            ).contents->Coin_0.id && final(target).type_ == old(target).type_
                && final(target).has_public_transfer == old(target).has_public_transfer
                && final(target).used_in_non_entry_move_call == old(target).used_in_non_entry_move_call,
            Err(e) => r == Err::<(), ExecutionError>(e) && *final(target) == *old(target),
        },
{
    let mut bal: u64 = match &target.contents {
        ObjectContents::Coin(c) => c.balance,
        _ => {
            return Err(ExecutionError::command_argument(CommandArgumentError::TypeMismatch, 0));
        },
    };
    let mut k: usize = 0;
    while k < coins.len()
        invariant
            coins@.len() < u16::MAX,
            k <= coins@.len(),
            old(target).contents is Coin,
            *target == *old(target),
            merge_outcome(target.type_, balance_of(*old(target)), coins@, 0) == merge_outcome(
                target.type_,
                bal as nat,
                coins@,
                k as nat,
            ),
        decreases coins@.len() - k,
    {
        let coin = &coins[k];
        if !target.type_.same_as(&coin.type_) {
            proof {
                lemma_same_type_symmetric(target.type_, coin.type_);
            }
            return Err(
                ExecutionError::command_argument(CommandArgumentError::TypeMismatch, (k + 1) as u16),
            );
        }
        proof {
            lemma_same_type_symmetric(target.type_, coin.type_);
        }
        let add = match &coin.contents {
            ObjectContents::Coin(c) => c.balance,
            _ => {
                return Err(ExecutionError::from_kind(ExecutionErrorKind::InvariantViolation));
            },
        };
        match bal.checked_add(add) {
            Some(b) => {
                bal = b;
            },
            None => {
                return Err(ExecutionError::from_kind(ExecutionErrorKind::CoinBalanceOverflow));
            },
        }
        k += 1;
    }
    if let ObjectContents::Coin(c) = &mut target.contents {
        c.balance = bal;
    }
    Ok(())
}

proof fn lemma_merge_from(ty: MoveType, bal: nat, coins: Seq<ObjectValue>, k: nat)
    requires
        k <= coins.len(),
        forall|i: int|
            k <= i < coins.len() ==> same_type(#[trigger] coins[i].type_, ty) && coins[i].contents is Coin,
        bal + balance_sum(coins.skip(k as int)) <= u64::MAX,
    ensures
        merge_outcome(ty, bal, coins, k) == Ok::<nat, ExecutionError>(
            bal + balance_sum(coins.skip(k as int)),
        ),
    decreases coins.len() - k,
{
    if k < coins.len() {
        assert(coins.skip(k as int).drop_first() =~= coins.skip((k + 1) as int));
        assert(coins.skip(k as int)[0] == coins[k as int]);
        lemma_merge_from(ty, bal + balance_of(coins[k as int]), coins, k + 1);
    }
}

/// Merging coins that all have the target's type, with no overflow, leaves the
/// target holding exactly its balance plus the balances merged into it.
pub proof fn lemma_merge_preserves_balance(ty: MoveType, bal: nat, coins: Seq<ObjectValue>)
    requires
        forall|i: int|
            0 <= i < coins.len() ==> same_type(#[trigger] coins[i].type_, ty) && coins[i].contents is Coin,
        bal + balance_sum(coins) <= u64::MAX,
    ensures
        merge_outcome(ty, bal, coins, 0) == Ok::<nat, ExecutionError>(bal + balance_sum(coins)),
{
    assert(coins.skip(0) =~= coins);
    lemma_merge_from(ty, bal, coins, 0);
}

proof fn lemma_mismatch_from(ty: MoveType, bal: nat, coins: Seq<ObjectValue>, k: nat, i: nat)
    requires
        k <= i < coins.len(),
        !same_type(coins[i as int].type_, ty),
        forall|j: int|
            k <= j < i ==> same_type(#[trigger] coins[j].type_, ty) && coins[j].contents is Coin,
        bal + balance_sum(coins.subrange(k as int, i as int)) <= u64::MAX,
    ensures
        merge_outcome(ty, bal, coins, k) == Err::<nat, ExecutionError>(
            command_argument_error(CommandArgumentError::TypeMismatch, (i + 1) as u16),
        ),
    decreases i - k,
{
    if k < i {
        assert(coins.subrange(k as int, i as int).drop_first() =~= coins.subrange((k + 1) as int, i as int));
        assert(coins.subrange(k as int, i as int)[0] == coins[k as int]);
        lemma_mismatch_from(ty, bal + balance_of(coins[k as int]), coins, k + 1, i);
    }
}

/// A merge fails at the argument index of the first coin whose type differs
/// from the target's, when the coins before it merge without overflow.
pub proof fn lemma_merge_mismatch_index(ty: MoveType, bal: nat, coins: Seq<ObjectValue>, i: nat)
    requires
        i < coins.len(),
        !same_type(coins[i as int].type_, ty),
        forall|j: int|
            0 <= j < i ==> same_type(#[trigger] coins[j].type_, ty) && coins[j].contents is Coin,
        bal + balance_sum(coins.take(i as int)) <= u64::MAX,
    ensures
        merge_outcome(ty, bal, coins, 0) == Err::<nat, ExecutionError>(
            command_argument_error(CommandArgumentError::TypeMismatch, (i + 1) as u16),
        ),
{
    assert(coins.subrange(0, i as int) =~= coins.take(i as int));
    lemma_mismatch_from(ty, bal, coins, 0, i);
}

/// Type equality is symmetric.
pub proof fn lemma_same_type_symmetric(a: MoveType, b: MoveType)
    ensures
        same_type(a, b) == same_type(b, a),
    decreases a,
{
    match (a, b) {
        (MoveType::Vector(x), MoveType::Vector(y)) => lemma_same_type_symmetric(*x, *y),
        (MoveType::Reference(x), MoveType::Reference(y)) => lemma_same_type_symmetric(*x, *y),
        (MoveType::MutableReference(x), MoveType::MutableReference(y)) => lemma_same_type_symmetric(
            *x,
            *y,
        ),
        (MoveType::DatatypeInstantiation(x, xs), MoveType::DatatypeInstantiation(y, ys)) => {
            assert forall|i: int| 0 <= i < xs@.len() && xs@.len() == ys@.len() implies same_type(
                #[trigger] xs@[i],
                ys@[i],
            ) == same_type(ys@[i], xs@[i]) by {
                vstd::std_specs::vec::axiom_vec_index_decreases(xs, i);
                assert(decreases_to!(a => a->1));
                lemma_same_type_symmetric(xs@[i], ys@[i]);
            }
        },
        _ => {},
    }
}

} // verus!
