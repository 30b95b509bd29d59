//! Transactions: what a caller that leaves one open gets.
use vstd::prelude::*;

verus! {

/// State of a transaction.
#[derive(Debug, Clone, Copy, PartialEq, Eq, Structural)]
pub enum TxState {
    Active,
    Closed,
}

/// What is sent to the database.
#[derive(Debug, Clone, Copy, PartialEq, Eq, Structural)]
pub enum TxCommand {
    /// Takes the write lock at once.
    Begin,
    Insert,
    Commit,
    Rollback,
}

impl TxState {
    /// A transaction after an attempt to commit: it stays open if that failed.
    pub fn after_commit(self, succeeded: bool) -> (r: TxState)
        ensures
            r == (if succeeded {
                TxState::Closed
            } else {
                self
            }),
    {
        if succeeded {
            TxState::Closed
        } else {
            self
        }
    }

    /// A transaction after an explicit rollback: closed, whether or not the
    /// rollback succeeded.
    pub fn after_rollback(self) -> (r: TxState)
        ensures
            r == TxState::Closed,
    {
        TxState::Closed
    }

    /// What is sent when a transaction is dropped: one that is open is undone.
    pub fn on_drop(self) -> (r: Option<TxCommand>)
        ensures
            r == (if self == TxState::Active {
                Some(TxCommand::Rollback)
            } else {
                None
            }),
    {
        if self == TxState::Active {
            Some(TxCommand::Rollback)
        } else {
            None
        }
    }
}

/// The commands of a batch of `n` insertions of which `good` succeed before
/// one fails, or all of them.
pub open spec fn batch_commands(n: nat, good: nat) -> Seq<TxCommand> {
    if n == 0 {
        seq![]
    } else if good >= n {
        seq![TxCommand::Begin] + Seq::new(n, |i: int| TxCommand::Insert) + seq![TxCommand::Commit]
    } else {
        seq![TxCommand::Begin] + Seq::new(good + 1, |i: int| TxCommand::Insert)
            + seq![TxCommand::Rollback]
    }
}

/// What a batch does next: `sent` commands were sent so far, and `failed`
/// tells whether the last one failed.
pub fn batch_next(n: usize, sent: usize, failed: bool) -> (r: Option<TxCommand>)
    requires
        sent <= n + 2,
        n < usize::MAX,
    ensures
        !failed && sent < batch_commands(n as nat, n as nat).len() ==> r == Some(
            batch_commands(n as nat, n as nat)[sent as int],
        ),
        !failed && sent >= batch_commands(n as nat, n as nat).len() ==> r is None,
        failed && 2 <= sent <= n + 1 ==> r == Some(
            batch_commands(n as nat, (sent - 2) as nat)[sent as int],
        ),
        failed && !(2 <= sent <= n + 1) ==> r is None,
{
    if failed {
        if sent >= 2 && sent <= n + 1 {
            return Some(TxCommand::Rollback);
        }
        return None;
    }
    if n == 0 || sent > n + 1 {
        return None;
    }
    if sent == 0 {
        Some(TxCommand::Begin)
    } else if sent <= n {
        Some(TxCommand::Insert)
    } else {
        Some(TxCommand::Commit)
    }
}

/// An empty batch sends nothing; any other batch that fails on an insertion
/// ends with a rollback, and one that does not ends with a commit.
pub proof fn law_batch_is_all_or_nothing(n: nat, good: nat)
    ensures
        n == 0 ==> batch_commands(n, good).len() == 0,
        n > 0 ==> batch_commands(n, good)[0] == TxCommand::Begin,
        n > 0 ==> batch_commands(n, good).last() == (if good >= n {
            TxCommand::Commit
        } else {
            TxCommand::Rollback
        }),
{
}

/// Between its two ends a batch sends insertions and nothing else: all of them,
/// or those up to the one that fails.
pub proof fn law_batch_sends_insertions(n: nat, good: nat)
    requires
        n > 0,
    ensures
        good >= n ==> batch_commands(n, good).len() == n + 2,
        good < n ==> batch_commands(n, good).len() == good + 3,
        forall|k: int|
            1 <= k < batch_commands(n, good).len() - 1 ==> #[trigger] batch_commands(n, good)[k]
                == TxCommand::Insert,
{
}

} // verus!
