//! The account store: one fiat balance and one daily-reward date per user.

use vstd::prelude::*;
use crate::error::ModelError;
use crate::money::fits;

verus! {

/// A user's account.
#[derive(Debug, Clone, Copy, PartialEq, Eq)]
pub struct Account {
    /// Who owns the account.
    pub user_id: u64,
    /// The fiat balance.
    pub balance: i64,
    /// The day of the last daily reward, or `None` if none was ever claimed.
    pub last_daily_claim: Option<u64>,
}

impl Account {
    /// The account as it is on creation.
    pub open spec fn fresh(user_id: u64) -> Account {
        Account { user_id, balance: 0, last_daily_claim: None }
    }

    /// This account with another balance.
    pub open spec fn with_balance(self, balance: i64) -> Account {
        Account { user_id: self.user_id, balance, last_daily_claim: self.last_daily_claim }
    }

    /// This account with another balance and the daily reward claimed on
    /// `today`.
    pub open spec fn rewarded(self, balance: i64, today: u64) -> Account {
        Account { user_id: self.user_id, balance, last_daily_claim: Some(today) }
    }
}

/// Whether `user_id` has an account among `accounts`.
pub open spec fn has_account(accounts: Seq<Account>, user_id: u64) -> bool {
    exists|i: int| 0 <= i < accounts.len() && #[trigger] accounts[i].user_id == user_id
}

/// Where the account of `user_id` stands among `accounts`.
pub open spec fn position_of(accounts: Seq<Account>, user_id: u64) -> int {
    choose|i: int| 0 <= i < accounts.len() && #[trigger] accounts[i].user_id == user_id
}

/// The account of `user_id`.
pub open spec fn account_of(accounts: Seq<Account>, user_id: u64) -> Account {
    accounts[position_of(accounts, user_id)]
}

/// The balance of `user_id`.
pub open spec fn balance_of(accounts: Seq<Account>, user_id: u64) -> int {
    account_of(accounts, user_id).balance as int
}

/// No two accounts belong to the same user.
pub open spec fn distinct_ids(accounts: Seq<Account>) -> bool {
    forall|i: int, j: int|
        0 <= i < j < accounts.len() ==> #[trigger] accounts[i].user_id
            != #[trigger] accounts[j].user_id
}

/// No balance is negative.
pub open spec fn no_debt(accounts: Seq<Account>) -> bool {
    forall|i: int| 0 <= i < accounts.len() ==> #[trigger] accounts[i].balance >= 0
}

/// The sum of all balances.
pub open spec fn total_balance(accounts: Seq<Account>) -> int
    decreases accounts.len(),
{
    if accounts.len() == 0 {
        0
    } else {
        total_balance(accounts.drop_last()) + accounts.last().balance
    }
}

/// `accounts` with the account of `updated.user_id` replaced by `updated`.
pub open spec fn with_account(accounts: Seq<Account>, updated: Account) -> Seq<Account> {
    Seq::new(
        accounts.len(),
        |i: int|
            if accounts[i].user_id == updated.user_id {
                updated
            } else {
                accounts[i]
            },
    )
}

/// What an adjustment of `balance` by `delta` leaves: with `floor_at_zero`
/// a result below zero becomes zero; without it such a result is refused.
/// A result above what an amount can hold is a fault either way.
pub open spec fn adjusted_balance(balance: int, delta: int, floor_at_zero: bool) -> Result<
    i64,
    ModelError,
> {
    let target = balance + delta;
    if target < 0 {
        if floor_at_zero {
            Ok(0i64)
        } else {
            Err(ModelError::InsufficientFunds)
        }
    } else if !fits(target) {
        Err(ModelError::Unexpected)
    } else {
        Ok(target as i64)
    }
}

/// The accounts after an adjustment whose outcome was `outcome`.
pub open spec fn after_adjust(
    accounts: Seq<Account>,
    user_id: u64,
    outcome: Result<i64, ModelError>,
) -> Seq<Account> {
    match outcome {
        Ok(balance) => with_account(accounts, account_of(accounts, user_id).with_balance(balance)),
        Err(_) => accounts,
    }
}

/// Whether the row `first` stands before the row `second` on the
/// leaderboard: it does if its balance is higher, and among equal balances
/// if its account is the older one.
pub open spec fn ranks_before(accounts: Seq<Account>, first: (u64, i64), second: (u64, i64))
    -> bool {
    first.1 > second.1 || (first.1 == second.1 && position_of(accounts, first.0) < position_of(
        accounts,
        second.0,
    ))
}

/// Whether `board` has a row for `user_id`.
pub open spec fn on_board(board: Seq<(u64, i64)>, user_id: u64) -> bool {
    exists|k: int| 0 <= k < board.len() && (#[trigger] board[k]).0 == user_id
}

/// Whether `board` is the leaderboard of `accounts`: one row per account,
/// with the account's user and balance, ordered by balance from the
/// highest down, accounts of equal balance in the order of their creation.
pub open spec fn is_leaderboard(accounts: Seq<Account>, board: Seq<(u64, i64)>) -> bool {
    &&& board.len() == accounts.len()
    &&& forall|k: int|
        0 <= k < board.len() ==> has_account(accounts, (#[trigger] board[k]).0) && board[k].1
            == account_of(accounts, board[k].0).balance
    &&& forall|i: int| 0 <= i < accounts.len() ==> #[trigger] on_board(board, accounts[i].user_id)
    &&& forall|k: int, l: int|
        0 <= k < l < board.len() ==> ranks_before(accounts, #[trigger] board[k], #[trigger] board[l])
}

/// With distinct ids, an account that stands at `i` is the account of its
/// user.
pub proof fn lemma_position_of(accounts: Seq<Account>, i: int)
    requires
        distinct_ids(accounts),
        0 <= i < accounts.len(),
    ensures
        has_account(accounts, accounts[i].user_id),
        position_of(accounts, accounts[i].user_id) == i,
        account_of(accounts, accounts[i].user_id) == accounts[i],
{
    let id = accounts[i].user_id;
    let p = position_of(accounts, id);
    assert(0 <= p < accounts.len() && accounts[p].user_id == id);
    if p < i {
        assert(accounts[p].user_id != accounts[i].user_id);
    } else if i < p {
        assert(accounts[i].user_id != accounts[p].user_id);
    }
}

/// Replacing an account by one of the same user is an update in place.
pub proof fn lemma_with_account_is_update(accounts: Seq<Account>, i: int, updated: Account)
    requires
        distinct_ids(accounts),
        0 <= i < accounts.len(),
        accounts[i].user_id == updated.user_id,
    ensures
        with_account(accounts, updated) == accounts.update(i, updated),
        distinct_ids(with_account(accounts, updated)),
{
    let replaced = with_account(accounts, updated);
    assert forall|k: int| 0 <= k < accounts.len() implies replaced[k] == accounts.update(
        i,
        updated,
    )[k] by {
        if k < i {
            assert(accounts[k].user_id != accounts[i].user_id);
        } else if i < k {
            assert(accounts[i].user_id != accounts[k].user_id);
        }
    }
    assert(replaced =~= accounts.update(i, updated));
    assert forall|a: int, b: int| 0 <= a < b < replaced.len() implies #[trigger] replaced[a].user_id
        != #[trigger] replaced[b].user_id by {
        assert(replaced[a].user_id == accounts[a].user_id);
        assert(replaced[b].user_id == accounts[b].user_id);
    }
}

/// Replacing the account of one user leaves every other account as it was,
/// and opens or closes none.
pub proof fn lemma_with_account_lookup(accounts: Seq<Account>, updated: Account, user_id: u64)
    requires
        distinct_ids(accounts),
        has_account(accounts, updated.user_id),
    ensures
        distinct_ids(with_account(accounts, updated)),
        has_account(with_account(accounts, updated), user_id) == has_account(accounts, user_id),
        has_account(accounts, user_id) ==> account_of(with_account(accounts, updated), user_id)
            == (if user_id == updated.user_id {
            updated
        } else {
            account_of(accounts, user_id)
        }),
        no_debt(accounts) && updated.balance >= 0 ==> no_debt(with_account(accounts, updated)),
{
    let replaced = with_account(accounts, updated);
    lemma_with_account_is_update(accounts, position_of(accounts, updated.user_id), updated);
    if has_account(accounts, user_id) {
        let p = position_of(accounts, user_id);
        assert(replaced[p].user_id == user_id);
        lemma_position_of(replaced, p);
        lemma_position_of(accounts, p);
    }
    if has_account(replaced, user_id) {
        let p = position_of(replaced, user_id);
        assert(accounts[p].user_id == user_id);
    }
    if no_debt(accounts) && updated.balance >= 0 {
        assert forall|i: int| 0 <= i < replaced.len() implies #[trigger] replaced[i].balance
            >= 0 by {
            assert(accounts[i].balance >= 0);
        }
    }
}

/// A new account leaves every other account as it was.
pub proof fn lemma_push_lookup(accounts: Seq<Account>, added: Account, user_id: u64)
    requires
        distinct_ids(accounts),
        !has_account(accounts, added.user_id),
    ensures
        distinct_ids(accounts.push(added)),
        has_account(accounts.push(added), user_id) == (user_id == added.user_id || has_account(
            accounts,
            user_id,
        )),
        has_account(accounts.push(added), user_id) ==> account_of(accounts.push(added), user_id)
            == (if user_id == added.user_id {
            added
        } else {
            account_of(accounts, user_id)
        }),
{
    let grown = accounts.push(added);
    assert forall|i: int, j: int| 0 <= i < j < grown.len() implies #[trigger] grown[i].user_id
        != #[trigger] grown[j].user_id by {
        if j == accounts.len() {
            assert(accounts[i].user_id != added.user_id);
        } else {
            assert(accounts[i].user_id != accounts[j].user_id);
        }
    }
    assert(grown[accounts.len() as int].user_id == added.user_id);
    if has_account(accounts, user_id) {
        let p = position_of(accounts, user_id);
        assert(grown[p].user_id == user_id);
        lemma_position_of(grown, p);
        lemma_position_of(accounts, p);
    }
    if has_account(grown, user_id) {
        let p = position_of(grown, user_id);
        lemma_position_of(grown, p);
        if p < accounts.len() {
            assert(accounts[p].user_id == user_id);
        }
    }
}

/// A new account adds its balance to the total.
pub proof fn lemma_total_push(accounts: Seq<Account>, added: Account)
    ensures
        total_balance(accounts.push(added)) == total_balance(accounts) + added.balance,
{
    assert(accounts.push(added).drop_last() =~= accounts);
}

/// An update in place changes the total by the change of that one balance.
pub proof fn lemma_total_update(accounts: Seq<Account>, i: int, updated: Account)
    requires
        0 <= i < accounts.len(),
    ensures
        total_balance(accounts.update(i, updated)) == total_balance(accounts)
            - accounts[i].balance + updated.balance,
    decreases accounts.len(),
{
    let after = accounts.update(i, updated);
    if i == accounts.len() - 1 {
        assert(after.drop_last() =~= accounts.drop_last());
    } else {
        assert(after.drop_last() =~= accounts.drop_last().update(i, updated));
        lemma_total_update(accounts.drop_last(), i, updated);
    }
}

/// Replacing the account of a user changes the total by the change of that
/// user's balance.
pub proof fn lemma_total_with_account(accounts: Seq<Account>, updated: Account)
    requires
        distinct_ids(accounts),
        has_account(accounts, updated.user_id),
    ensures
        total_balance(with_account(accounts, updated)) == total_balance(accounts) - balance_of(
            accounts,
            updated.user_id,
        ) + updated.balance,
{
    let i = position_of(accounts, updated.user_id);
    lemma_with_account_is_update(accounts, i, updated);
    lemma_total_update(accounts, i, updated);
}

/// The store of all accounts, in the order of their creation.
pub struct AccountStore {
    accounts: Vec<Account>,
}

impl View for AccountStore {
    type V = Seq<Account>;

    closed spec fn view(&self) -> Seq<Account> {
        self.accounts@
    }
}

impl AccountStore {
    /// What holds of every store: one account per user, and no debt.
    pub open spec fn wf(&self) -> bool {
        distinct_ids(self@) && no_debt(self@)
    }

    /// An empty store.
    pub fn new() -> (store: AccountStore)
        ensures
            store@ == Seq::<Account>::empty(),
            store.wf(),
    {
        AccountStore { accounts: Vec::new() }
    }

    /// A store of the given accounts, in their order, if they can be the
    /// accounts of a store: no two of one user, and none in debt.
    pub fn from_accounts(accounts: Vec<Account>) -> (store: Option<AccountStore>)
        ensures
            store matches Some(restored) ==> restored@ == accounts@ && restored.wf(),
            store is Some == (distinct_ids(accounts@) && no_debt(accounts@)),
    {
        let mut j: usize = 0;
        while j < accounts.len()
            invariant
                j <= accounts.len(),
                distinct_ids(accounts@.take(j as int)),
                no_debt(accounts@.take(j as int)),
            decreases accounts.len() - j,
        {
            if accounts[j].balance < 0 {
                return None;
            }
            let mut i: usize = 0;
            while i < j
                invariant
                    i <= j < accounts.len(),
                    forall|k: int| 0 <= k < i ==> accounts@[k].user_id != accounts@[j as int].user_id,
                decreases j - i,
            {
                if accounts[i].user_id == accounts[j].user_id {
                    return None;
                }
                i += 1;
            }
            proof {
                let longer = accounts@.take(j + 1);
                assert forall|a: int, b: int| 0 <= a < b < longer.len() implies #[trigger] longer[a].user_id
                    != #[trigger] longer[b].user_id by {
                    if b < j {
                        assert(accounts@.take(j as int)[a].user_id != accounts@.take(
                            j as int,
                        )[b].user_id);
                    }
                }
                assert forall|a: int| 0 <= a < longer.len() implies #[trigger] longer[a].balance
                    >= 0 by {
                    if a < j {
                        assert(accounts@.take(j as int)[a].balance >= 0);
                    }
                }
            }
            j += 1;
        }
        assert(accounts@.take(j as int) =~= accounts@);
        Some(AccountStore { accounts })
    }

    /// Looks up where the account of `user_id` stands.
    fn find(&self, user_id: u64) -> (found: Option<usize>)
        requires
            self.wf(),
        ensures
            found is Some == has_account(self@, user_id),
            found matches Some(i) ==> i < self@.len() && self@[i as int].user_id == user_id
                && position_of(self@, user_id) == i,
    {
        let mut i: usize = 0;
        while i < self.accounts.len()
            invariant
                self.wf(),
                i <= self.accounts.len(),
                forall|k: int| 0 <= k < i ==> self.accounts@[k].user_id != user_id,
            decreases self.accounts.len() - i,
        {
            if self.accounts[i].user_id == user_id {
                proof {
                    lemma_position_of(self@, i as int);
                }
                return Some(i);
            }
            i += 1;
        }
        None
    }

    /// How many accounts there are.
    pub fn len(&self) -> (n: usize)
        ensures
            n == self@.len(),
    {
        self.accounts.len()
    }

    /// The account that was created `i`-th, counting from zero.
    pub fn get(&self, i: usize) -> (account: Option<Account>)
        ensures
            account == (if i < self@.len() {
                Some(self@[i as int])
            } else {
                None
            }),
    {
        if i < self.accounts.len() {
            Some(self.accounts[i])
        } else {
            None
        }
    }

    /// Whether `user_id` has an account.
    pub fn contains(&self, user_id: u64) -> (found: bool)
        requires
            self.wf(),
        ensures
            found == has_account(self@, user_id),
    {
        self.find(user_id).is_some()
    }

    /// All accounts as rows of user and balance, ordered by balance from
    /// the highest down; accounts of equal balance keep the order of their
    /// creation.
    pub fn leaderboard(&self) -> (board: Vec<(u64, i64)>)
        requires
            self.wf(),
        ensures
            is_leaderboard(self@, board@),
    {
        let mut board: Vec<(u64, i64)> = Vec::new();
        let ghost mut origin: Seq<int> = Seq::empty();
        let mut i: usize = 0;
        while i < self.accounts.len()
            invariant
                self.wf(),
                i <= self.accounts.len(),
                board@.len() == i,
                origin.len() == i,
                forall|k: int|
                    0 <= k < i ==> 0 <= (#[trigger] origin[k]) < i && board@[k] == (
                        self@[origin[k]].user_id,
                        self@[origin[k]].balance,
                    ),
                forall|j: int| 0 <= j < i ==> #[trigger] origin.contains(j),
                forall|k: int, l: int|
                    0 <= k < l < i ==> (#[trigger] board@[k]).1 > (#[trigger] board@[l]).1 || (
                    board@[k].1 == board@[l].1 && origin[k] < origin[l]),
            decreases self.accounts.len() - i,
        {
            let account = self.accounts[i];
            let mut p: usize = 0;
            while p < board.len() && board[p].1 >= account.balance
                invariant
                    p <= board.len(),
                    forall|k: int| 0 <= k < p ==> (#[trigger] board@[k]).1 >= account.balance,
                decreases board.len() - p,
            {
                p += 1;
            }
            let ghost old_board = board@;
            let ghost old_origin = origin;
            board.insert(p, (account.user_id, account.balance));
            proof {
                origin = old_origin.insert(p as int, i as int);
                assert forall|k: int| 0 <= k < i + 1 implies 0 <= (#[trigger] origin[k]) < i + 1
                    && board@[k] == (self@[origin[k]].user_id, self@[origin[k]].balance) by {
                    if k < p {
                        assert(origin[k] == old_origin[k] && board@[k] == old_board[k]);
                    } else if k > p {
                        assert(origin[k] == old_origin[k - 1] && board@[k] == old_board[k - 1]);
                    }
                }
                assert forall|j: int| 0 <= j < i + 1 implies #[trigger] origin.contains(j) by {
                    if j < i {
                        assert(old_origin.contains(j));
                        let k = choose|k: int| 0 <= k < i && old_origin[k] == j;
                        if k < p {
                            assert(origin[k] == j);
                        } else {
                            assert(origin[k + 1] == j);
                        }
                    } else {
                        assert(origin[p as int] == j);
                    }
                }
                assert forall|k: int, l: int| 0 <= k < l < i + 1 implies (#[trigger] board@[k]).1 > (
                #[trigger] board@[l]).1 || (board@[k].1 == board@[l].1 && origin[k]
                    < origin[l]) by {
                    if l < p {
                        assert(board@[k] == old_board[k] && board@[l] == old_board[l]);
                        assert(origin[k] == old_origin[k] && origin[l] == old_origin[l]);
                    } else if l == p {
                        assert(board@[k] == old_board[k]);
                        assert(origin[k] == old_origin[k]);
                    } else if k < p {
                        assert(board@[k] == old_board[k] && board@[l] == old_board[l - 1]);
                        assert(origin[k] == old_origin[k] && origin[l] == old_origin[l - 1]);
                    } else if k == p {
                        assert(board@[l] == old_board[l - 1]);
                        assert(old_board[p as int].1 < account.balance);
                        if l - 1 > p {
                            assert(old_board[p as int].1 >= old_board[l - 1].1);
                        }
                    } else {
                        assert(board@[k] == old_board[k - 1] && board@[l] == old_board[l - 1]);
                        assert(origin[k] == old_origin[k - 1] && origin[l] == old_origin[l - 1]);
                    }
                }
            }
            i += 1;
        }
        proof {
            assert forall|k: int| 0 <= k < board@.len() implies has_account(
                self@,
                (#[trigger] board@[k]).0,
            ) && board@[k].1 == account_of(self@, board@[k].0).balance by {
                lemma_position_of(self@, origin[k]);
            }
            assert forall|j: int| 0 <= j < self@.len() implies #[trigger] on_board(
                board@,
                self@[j].user_id,
            ) by {
                assert(origin.contains(j));
                let k = choose|k: int| 0 <= k < i && origin[k] == j;
                assert(board@[k].0 == self@[j].user_id);
            }
            assert forall|k: int, l: int| 0 <= k < l < board@.len() implies ranks_before(
                self@,
                #[trigger] board@[k],
                #[trigger] board@[l],
            ) by {
                lemma_position_of(self@, origin[k]);
                lemma_position_of(self@, origin[l]);
            }
        }
        board
    }

    /// Opens an account for `user_id`, with no money and no reward claimed.
    /// A user who has one keeps it as it is.
    pub fn create(&mut self, user_id: u64) -> (outcome: Result<(), ModelError>)
        requires
            old(self).wf(),
        ensures
            final(self).wf(),
            has_account(old(self)@, user_id) ==> outcome == Err::<(), ModelError>(
                ModelError::AlreadyExists(user_id),
            ) && final(self)@ == old(self)@,
            !has_account(old(self)@, user_id) ==> outcome == Ok::<(), ModelError>(())
                && final(self)@ == old(self)@.push(Account::fresh(user_id)),
    {
        match self.find(user_id) {
            Some(_) => Err(ModelError::AlreadyExists(user_id)),
            None => {
                self.accounts.push(Account { user_id, balance: 0, last_daily_claim: None });
                Ok(())
            },
        }
    }

    /// The balance of `user_id`.
    pub fn get_balance(&self, user_id: u64) -> (outcome: Result<i64, ModelError>)
        requires
            self.wf(),
        ensures
            outcome == (if has_account(self@, user_id) {
                Ok::<i64, ModelError>(account_of(self@, user_id).balance)
            } else {
                Err::<i64, ModelError>(ModelError::NotFound(user_id))
            }),
    {
        match self.find(user_id) {
            Some(i) => Ok(self.accounts[i].balance),
            None => Err(ModelError::NotFound(user_id)),
        }
    }

    /// Adds `delta` to the balance of `user_id` and returns the new balance.
    ///
    /// With `floor_at_zero` a balance that would fall below zero becomes
    /// zero. Without it the adjustment takes place only if the balance stays
    /// at or above zero, and is otherwise refused with `InsufficientFunds`.
    /// Whenever an error is returned, nothing has changed.
    pub fn adjust(&mut self, user_id: u64, delta: i64, floor_at_zero: bool) -> (outcome: Result<
        i64,
        ModelError,
    >)
        requires
            old(self).wf(),
        ensures
            final(self).wf(),
            !has_account(old(self)@, user_id) ==> outcome == Err::<i64, ModelError>(
                ModelError::NotFound(user_id),
            ) && final(self)@ == old(self)@,
            has_account(old(self)@, user_id) ==> outcome == adjusted_balance(
                balance_of(old(self)@, user_id),
                delta as int,
                floor_at_zero,
            ) && final(self)@ == after_adjust(old(self)@, user_id, outcome),
    {
        let i = match self.find(user_id) {
            Some(i) => i,
            None => {
                return Err(ModelError::NotFound(user_id));
            },
        };
        let account = self.accounts[i];
        let target: i128 = account.balance as i128 + delta as i128;
        let balance: i64 = if target < 0 {
            if floor_at_zero {
                0
            } else {
                return Err(ModelError::InsufficientFunds);
            }
        } else if target > i64::MAX as i128 {
            return Err(ModelError::Unexpected);
        } else {
            target as i64
        };
        let updated = Account {
            user_id: account.user_id,
            balance,
            last_daily_claim: account.last_daily_claim,
        };
        proof {
            lemma_with_account_is_update(self@, i as int, updated);
        }
        self.accounts.set(i, updated);
        Ok(balance)
    }

    /// Sets the balance of `user_id` to `balance`.
    pub(crate) fn set_balance(&mut self, user_id: u64, balance: i64)
        requires
            old(self).wf(),
            has_account(old(self)@, user_id),
            balance >= 0,
        ensures
            final(self).wf(),
            final(self)@ == with_account(
                old(self)@,
                account_of(old(self)@, user_id).with_balance(balance),
            ),
    {
        let i = match self.find(user_id) {
            Some(i) => i,
            None => {
                return ;
            },
        };
        let account = self.accounts[i];
        let updated = Account {
            user_id: account.user_id,
            balance,
            last_daily_claim: account.last_daily_claim,
        };
        proof {
            lemma_with_account_is_update(self@, i as int, updated);
        }
        self.accounts.set(i, updated);
    }

    /// Pays the daily reward to `user_id` unless it was already claimed on
    /// the day `today`, and says whether it was paid.
    ///
    /// Days are compared as calendar dates, not as elapsed time: a reward
    /// claimed late on one day can be claimed again early on the next. A
    /// negative reward is refused, and so is one that the balance cannot
    /// hold; whenever an error is returned, nothing has changed.
    pub fn try_claim_daily(&mut self, user_id: u64, reward: i64, today: u64) -> (outcome: Result<
        bool,
        ModelError,
    >)
        requires
            old(self).wf(),
        ensures
            final(self).wf(),
            outcome == claim_outcome(old(self)@, user_id, reward, today),
            final(self)@ == after_claim(old(self)@, user_id, reward, today),
    {
        let i = match self.find(user_id) {
            Some(i) => i,
            None => {
                return Err(ModelError::NotFound(user_id));
            },
        };
        if reward < 0 {
            return Err(ModelError::InvalidAmount);
        }
        let account = self.accounts[i];
        let claimed_today = match account.last_daily_claim {
            Some(day) => day == today,
            None => false,
        };
        if claimed_today {
            return Ok(false);
        }
        let target: i128 = account.balance as i128 + reward as i128;
        if target > i64::MAX as i128 {
            return Err(ModelError::Unexpected);
        }
        let updated = Account {
            user_id: account.user_id,
            balance: target as i64,
            last_daily_claim: Some(today),
        };
        proof {
            lemma_with_account_is_update(self@, i as int, updated);
        }
        self.accounts.set(i, updated);
        Ok(true)
    }
}

/// What a claim of the daily reward reports.
pub open spec fn claim_outcome(accounts: Seq<Account>, user_id: u64, reward: i64, today: u64)
    -> Result<bool, ModelError> {
    if !has_account(accounts, user_id) {
        Err(ModelError::NotFound(user_id))
    } else if reward < 0 {
        Err(ModelError::InvalidAmount)
    } else if account_of(accounts, user_id).last_daily_claim == Some(today) {
        Ok(false)
    } else if !fits(balance_of(accounts, user_id) + reward) {
        Err(ModelError::Unexpected)
    } else {
        Ok(true)
    }
}

/// The accounts after a claim of the daily reward: changed only where the
/// claim reports `Ok(true)`.
pub open spec fn after_claim(accounts: Seq<Account>, user_id: u64, reward: i64, today: u64)
    -> Seq<Account> {
    if claim_outcome(accounts, user_id, reward, today) == Ok::<bool, ModelError>(true) {
        with_account(
            accounts,
            account_of(accounts, user_id).rewarded(
                (balance_of(accounts, user_id) + reward) as i64,
                today,
            ),
        )
    } else {
        accounts
    }
}

} // verus!
