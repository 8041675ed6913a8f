//! A small in-memory bank: users with a balance and a credit line, transfers
//! between them, interest, and the merging of two banks.

use crate::calc::div_toward_zero;
use vstd::prelude::*;

verus! {

/// One account holder.
pub struct User {
    pub name: String,
    pub credit_line: u64,
    pub balance: i64,
}

impl User {
    /// A user with the given name, credit line and balance.
    pub fn new(name: String, credit_line: u64, balance: i64) -> (user: Self)
        ensures
            user.name == name,
            user.credit_line == credit_line,
            user.balance == balance,
    {
        User { name, credit_line, balance }
    }
}

/// A bank: its users in the order they were entered, and the two interest
/// rates, each in hundredths of a percent.
pub struct Bank {
    pub users: Vec<User>,
    pub name: String,
    pub credit_interest: u64,
    pub debit_interest: u64,
}

/// What a bank owes and owns: the sum of the negative balances, taken
/// positive, and the sum of the others.
pub struct BalanceSheet {
    pub liabilities: u64,
    pub assets: u64,
}

/// Why a transfer was refused.
#[derive(Debug, Copy, Clone, PartialEq, Eq)]
pub enum TransferFundsError {
    SenderNotExistsError,
    ReceiverNotExistsError,
    SenderNotEnoughBalance,
}

/// The position of the first user called `name`, if there is one.
pub open spec fn first_named(users: Seq<User>, name: Seq<char>) -> Option<int>
    decreases users.len(),
{
    if users.len() == 0 {
        None
    } else {
        match first_named(users.drop_last(), name) {
            Some(i) => Some(i),
            None => if users.last().name@ == name {
                Some(users.len() - 1)
            } else {
                None
            },
        }
    }
}

/// `first_named` finds a user of the name, and none of that name stands
/// before it; it finds nothing only where no user has the name.
pub proof fn lemma_first_named(users: Seq<User>, name: Seq<char>)
    ensures
        match first_named(users, name) {
            Some(i) => 0 <= i < users.len() && users[i].name@ == name && forall|j: int|
                0 <= j < i ==> users[j].name@ != name,
            None => forall|j: int| 0 <= j < users.len() ==> users[j].name@ != name,
        },
    decreases users.len(),
{
    if users.len() > 0 {
        lemma_first_named(users.drop_last(), name);
        assert forall|j: int| 0 <= j < users.len() - 1 implies users[j] == users.drop_last()[j] by {}
    }
}

/// What `first_named` finds in a prefix it finds in the whole.
pub proof fn lemma_first_named_extends(users: Seq<User>, name: Seq<char>, count: int)
    requires
        0 <= count <= users.len(),
        first_named(users.take(count), name) is Some,
    ensures
        first_named(users, name) == first_named(users.take(count), name),
    decreases users.len() - count,
{
    if count == users.len() {
        assert(users.take(count) =~= users);
    } else {
        assert(users.take(count + 1).drop_last() =~= users.take(count));
        lemma_first_named_extends(users, name, count + 1);
    }
}

/// The user with another balance.
pub open spec fn with_balance(user: User, balance: i64) -> User {
    User { name: user.name, credit_line: user.credit_line, balance }
}

/// The rate that applies to a balance: the debit rate for a balance that is
/// not negative, the credit rate for a negative one. The rate is read as a
/// signed number of 64 bits, so one of `2^63` or more counts as negative.
pub open spec fn applicable_interest(balance: i64, credit_interest: u64, debit_interest: u64) -> i64 {
    if balance >= 0 {
        debit_interest as i64
    } else {
        credit_interest as i64
    }
}

/// The interest on a balance for one period: the balance times the rate, in
/// hundredths of a percent, rounded toward zero.
pub open spec fn interest_on(balance: i64, credit_interest: u64, debit_interest: u64) -> int {
    div_toward_zero(balance * applicable_interest(balance, credit_interest, debit_interest), 10_000)
}

/// True when the interest on a balance can be computed and added within the
/// range of an `i64`.
pub open spec fn interest_in_range(balance: i64, credit_interest: u64, debit_interest: u64) -> bool {
    &&& i64::MIN <= balance * applicable_interest(balance, credit_interest, debit_interest)
        <= i64::MAX
    &&& i64::MIN <= balance + interest_on(balance, credit_interest, debit_interest) <= i64::MAX
}

/// What a user can spend: the balance plus the credit line. The balance is
/// read as an unsigned number of 64 bits, so a negative one counts as `2^64`
/// more than it is.
pub open spec fn funds_of(user: User) -> int {
    (user.balance as u64) + user.credit_line
}

/// How a transfer ends: refused where the receiver is unknown, then where
/// the sender is unknown, then where the sender's funds are below the
/// amount; made otherwise. The amount is read as an unsigned number of 64
/// bits, as the balance is in `funds_of`.
pub open spec fn transfer_outcome(
    users: Seq<User>,
    sender: Seq<char>,
    receiver: Seq<char>,
    amount: i64,
) -> Result<(), TransferFundsError> {
    match first_named(users, receiver) {
        None => Err(TransferFundsError::ReceiverNotExistsError),
        Some(_) => match first_named(users, sender) {
            None => Err(TransferFundsError::SenderNotExistsError),
            Some(s) => if funds_of(users[s]) < (amount as u64) {
                Err(TransferFundsError::SenderNotEnoughBalance)
            } else {
                Ok(())
            },
        },
    }
}

/// The users after the amount has left the balance at position `sender` and
/// then reached the one at position `receiver`.
pub open spec fn after_transfer(users: Seq<User>, sender: int, receiver: int, amount: i64) -> Seq<
    User,
> {
    let debited = users.update(
        sender,
        with_balance(users[sender], (users[sender].balance - amount) as i64),
    );
    debited.update(
        receiver,
        with_balance(debited[receiver], (debited[receiver].balance + amount) as i64),
    )
}

/// True when a transfer between two known users stays within the range of
/// the numbers it is computed with: the sender's funds fit in a `u64`, and,
/// where the transfer is made, both new balances fit in an `i64`.
pub open spec fn transfer_in_range(
    users: Seq<User>,
    sender: Seq<char>,
    receiver: Seq<char>,
    amount: i64,
) -> bool {
    match (first_named(users, receiver), first_named(users, sender)) {
        (Some(r), Some(s)) => {
            &&& funds_of(users[s]) <= u64::MAX
            &&& funds_of(users[s]) >= (amount as u64) ==> {
                &&& i64::MIN <= users[s].balance - amount <= i64::MAX
                &&& r != s ==> i64::MIN <= users[r].balance + amount <= i64::MAX
            }
        },
        _ => true,
    }
}

/// The users that are not called `name`, in their order.
pub open spec fn without_name(users: Seq<User>, name: Seq<char>) -> Seq<User>
    decreases users.len(),
{
    if users.len() == 0 {
        Seq::empty()
    } else if users.last().name@ == name {
        without_name(users.drop_last(), name)
    } else {
        without_name(users.drop_last(), name).push(users.last())
    }
}

/// The balance that a user called `name` takes over from the users of
/// another bank: that of the first one of the same name, or nothing.
pub open spec fn taken_over(theirs: Seq<User>, name: Seq<char>) -> int {
    match first_named(theirs, name) {
        Some(i) => theirs[i].balance as int,
        None => 0,
    }
}

/// The users of two banks merged into one.
///
/// Each user of `mine`, in order, takes over the balance of the first user
/// of the same name that is still among `theirs`, and every user of that
/// name leaves `theirs`. Those of `theirs` that are left follow at the end.
pub open spec fn merged_users(mine: Seq<User>, theirs: Seq<User>) -> Seq<User>
    decreases mine.len(),
{
    if mine.len() == 0 {
        theirs
    } else {
        let first = mine.first();
        seq![
            with_balance(first, (first.balance + taken_over(theirs, first.name@)) as i64),
        ] + merged_users(mine.drop_first(), without_name(theirs, first.name@))
    }
}

/// True when every balance that a merge adds up fits in an `i64`.
pub open spec fn merge_in_range(mine: Seq<User>, theirs: Seq<User>) -> bool
    decreases mine.len(),
{
    mine.len() == 0 || {
        let first = mine.first();
        &&& i64::MIN <= first.balance + taken_over(theirs, first.name@) <= i64::MAX
        &&& merge_in_range(mine.drop_first(), without_name(theirs, first.name@))
    }
}

/// The position of the first user called `name`.
fn position_of(users: &Vec<User>, name: &String) -> (position: Option<usize>)
    ensures
        match position {
            Some(i) => first_named(users@, name@) == Some(i as int),
            None => first_named(users@, name@) is None,
        },
{
    let mut i: usize = 0;
    while i < users.len()
        invariant
            i <= users@.len(),
            first_named(users@.take(i as int), name@) is None,
        decreases users@.len() - i,
    {
        proof {
            assert(users@.take(i + 1).drop_last() =~= users@.take(i as int));
        }
        if users[i].name == *name {
            proof {
                lemma_first_named_extends(users@, name@, i + 1);
            }
            return Some(i);
        }
        i += 1;
    }
    proof {
        assert(users@.take(i as int) =~= users@);
    }
    None
}

/// Removes every user called `name`, keeping the others in their order.
fn remove_named(users: &mut Vec<User>, name: &String)
    ensures
        final(users)@ == without_name(old(users)@, name@),
{
    let ghost all = users@;
    let ghost mut seen: int = 0;
    let mut i: usize = 0;
    while i < users.len()
        invariant
            0 <= seen <= all.len(),
            i <= users@.len(),
            i == without_name(all.take(seen), name@).len(),
            users@ == without_name(all.take(seen), name@) + all.skip(seen),
        decreases users@.len() - i,
    {
        proof {
            assert(all.take(seen + 1).drop_last() =~= all.take(seen));
            assert(users@[i as int] == all[seen]);
        }
        if users[i].name == *name {
            users.remove(i);
            proof {
                assert(users@ =~= without_name(all.take(seen + 1), name@) + all.skip(seen + 1));
            }
        } else {
            i += 1;
            proof {
                assert(users@ =~= without_name(all.take(seen + 1), name@) + all.skip(seen + 1));
            }
        }
        proof {
            seen = seen + 1;
        }
    }
    proof {
        assert(all.skip(seen) =~= Seq::<User>::empty()) by {
            assert(users@.len() == i + all.skip(seen).len());
        }
        assert(all.take(seen) =~= all);
        assert(users@ =~= without_name(all, name@));
    }
}

/// The sum of the balances that are not negative.
pub open spec fn assets_of(users: Seq<User>) -> int
    decreases users.len(),
{
    if users.len() == 0 {
        0
    } else {
        assets_of(users.drop_last()) + if users.last().balance >= 0 {
            users.last().balance as int
        } else {
            0
        }
    }
}

/// The sum of the negative balances, each taken positive.
pub open spec fn liabilities_of(users: Seq<User>) -> int
    decreases users.len(),
{
    if users.len() == 0 {
        0
    } else {
        liabilities_of(users.drop_last()) + if users.last().balance < 0 {
            -(users.last().balance as int)
        } else {
            0
        }
    }
}

/// Neither sum decreases when more users are counted.
pub proof fn lemma_sums_monotonic(users: Seq<User>, count: int)
    requires
        0 <= count <= users.len(),
    ensures
        0 <= assets_of(users.take(count)) <= assets_of(users),
        0 <= liabilities_of(users.take(count)) <= liabilities_of(users),
    decreases users.len() - count,
{
    if count == users.len() {
        assert(users.take(count) =~= users);
        lemma_sums_nonnegative(users);
    } else {
        lemma_sums_monotonic(users, count + 1);
        assert(users.take(count + 1).drop_last() =~= users.take(count));
        lemma_sums_nonnegative(users.take(count));
    }
}

/// Both sums are at least zero.
pub proof fn lemma_sums_nonnegative(users: Seq<User>)
    ensures
        0 <= assets_of(users),
        0 <= liabilities_of(users),
    decreases users.len(),
{
    if users.len() > 0 {
        lemma_sums_nonnegative(users.drop_last());
    }
}

impl Bank {
    /// A bank with the given users, name and interest rates.
    pub fn new(users: Vec<User>, name: String, credit_interest: u64, debit_interest: u64) -> (bank:
        Self)
        ensures
            bank.users == users,
            bank.name == name,
            bank.credit_interest == credit_interest,
            bank.debit_interest == debit_interest,
    {
        Bank { users, name, credit_interest, debit_interest }
    }

    /// The position of the first user with the given name.
    pub fn index_of_user_by_username(&self, username: &str) -> (position: Option<usize>)
        ensures
            match position {
                Some(i) => first_named(self.users@, username@) == Some(i as int),
                None => first_named(self.users@, username@) is None,
            },
    {
        let wanted = username.to_owned();
        position_of(&self.users, &wanted)
    }

    /// Takes over the users of another bank.
    ///
    /// A user of this bank keeps its name and credit line and adds to its
    /// balance that of the first user of the same name in the other bank;
    /// the users of the other bank whose names this bank does not know
    /// follow, unchanged. See `merged_users`.
    ///
    /// Every balance that is added up has to fit in an `i64`.
    pub fn merge_bank(&mut self, other: Bank)
        requires
            merge_in_range(old(self).users@, other.users@),
        ensures
            final(self).users@ == merged_users(old(self).users@, other.users@),
            final(self).name == old(self).name,
            final(self).credit_interest == old(self).credit_interest,
            final(self).debit_interest == old(self).debit_interest,
    {
        let mut merged_users_so_far: Vec<User> = Vec::new();
        let mut theirs = other.users;
        let mut i: usize = 0;
        proof {
            assert(self.users@.skip(0) =~= self.users@);
            assert(merged_users_so_far@ + merged_users(self.users@, theirs@) =~= merged_users(
                self.users@,
                theirs@,
            ));
        }
        while i < self.users.len()
            invariant
                *self == *old(self),
                i <= self.users@.len(),
                merge_in_range(self.users@.skip(i as int), theirs@),
                merged_users_so_far@ + merged_users(self.users@.skip(i as int), theirs@)
                    == merged_users(self.users@, other.users@),
            decreases self.users@.len() - i,
        {
            let ghost before = merged_users_so_far@;
            let ghost theirs_before = theirs@;
            proof {
                assert(self.users@.skip(i as int).drop_first() =~= self.users@.skip(i + 1));
                assert(self.users@.skip(i as int).first() == self.users@[i as int]);
                lemma_first_named(theirs@, self.users@[i as int].name@);
            }
            let user = &self.users[i];
            let mut balance = user.balance;
            if let Some(position) = position_of(&theirs, &user.name) {
                balance += theirs[position].balance;
            }
            remove_named(&mut theirs, &user.name);
            merged_users_so_far.push(User::new(user.name.clone(), user.credit_line, balance));
            proof {
                let taken = merged_users_so_far@.last();
                assert(taken == with_balance(
                    self.users@[i as int],
                    (self.users@[i as int].balance + taken_over(
                        theirs_before,
                        self.users@[i as int].name@,
                    )) as i64,
                ));
                assert(merged_users_so_far@ + merged_users(self.users@.skip(i + 1), theirs@)
                    =~= before + (seq![taken] + merged_users(
                    self.users@.skip(i + 1),
                    theirs@,
                )));
            }
            i += 1;
        }
        proof {
            assert(self.users@.skip(i as int) =~= Seq::<User>::empty());
        }
        merged_users_so_far.append(&mut theirs);
        self.users = merged_users_so_far;
    }

    /// Adds one period of interest to every balance: the debit rate on a
    /// balance that is not negative, the credit rate on a negative one.
    ///
    /// Every product and every new balance has to fit in an `i64`.
    pub fn accrue_interest(&mut self)
        requires
            forall|i: int|
                0 <= i < old(self).users@.len() ==> interest_in_range(
                    (#[trigger] old(self).users@[i]).balance,
                    old(self).credit_interest,
                    old(self).debit_interest,
                ),
        ensures
            final(self).name == old(self).name,
            final(self).credit_interest == old(self).credit_interest,
            final(self).debit_interest == old(self).debit_interest,
            final(self).users@.len() == old(self).users@.len(),
            forall|i: int|
                0 <= i < old(self).users@.len() ==> (#[trigger] final(self).users@[i])
                    == with_balance(
                    old(self).users@[i],
                    (old(self).users@[i].balance + interest_on(
                        old(self).users@[i].balance,
                        old(self).credit_interest,
                        old(self).debit_interest,
                    )) as i64,
                ),
    {
        let mut i: usize = 0;
        while i < self.users.len()
            invariant
                self.name == old(self).name,
                self.credit_interest == old(self).credit_interest,
                self.debit_interest == old(self).debit_interest,
                self.users@.len() == old(self).users@.len(),
                i <= self.users@.len(),
                forall|j: int|
                    0 <= j < old(self).users@.len() ==> interest_in_range(
                        (#[trigger] old(self).users@[j]).balance,
                        old(self).credit_interest,
                        old(self).debit_interest,
                    ),
                forall|j: int| i <= j < self.users@.len() ==> self.users@[j] == old(self).users@[j],
                forall|j: int|
                    0 <= j < i ==> (#[trigger] self.users@[j]) == with_balance(
                        old(self).users@[j],
                        (old(self).users@[j].balance + interest_on(
                            old(self).users@[j].balance,
                            old(self).credit_interest,
                            old(self).debit_interest,
                        )) as i64,
                    ),
            decreases self.users@.len() - i,
        {
            let balance = self.users[i].balance;
            assert(interest_in_range(
                old(self).users@[i as int].balance,
                old(self).credit_interest,
                old(self).debit_interest,
            ));
            let applicable_interest = if balance >= 0 {
                #[verifier::truncate]
                (self.debit_interest as i64)
            } else {
                #[verifier::truncate]
                (self.credit_interest as i64)
            };
            self.users[i].balance = balance + balance * applicable_interest / 10_000;
            i += 1;
        }
    }

    /// Moves `amount` from the first user called `sender` to the first user
    /// called `receiver`.
    ///
    /// The transfer is refused, and the bank left as it was, where one of the
    /// two is unknown (the receiver is looked up first) or the sender's
    /// balance and credit line together do not cover the amount.
    pub fn transfer_funds(&mut self, sender: &str, receiver: &str, amount: i64) -> (result: Result<
        (),
        TransferFundsError,
    >)
        requires
            transfer_in_range(old(self).users@, sender@, receiver@, amount),
        ensures
            result == transfer_outcome(old(self).users@, sender@, receiver@, amount),
            final(self).name == old(self).name,
            final(self).credit_interest == old(self).credit_interest,
            final(self).debit_interest == old(self).debit_interest,
            result is Err ==> final(self).users@ == old(self).users@,
            result is Ok ==> final(self).users@ == after_transfer(
                old(self).users@,
                first_named(old(self).users@, sender@)->Some_0,
                first_named(old(self).users@, receiver@)->Some_0,
                amount,
            ),
    {
        let receiver_position = match self.index_of_user_by_username(receiver) {
            Some(position) => position,
            None => {
                return Err(TransferFundsError::ReceiverNotExistsError);
            },
        };
        let sender_position = match self.index_of_user_by_username(sender) {
            Some(position) => position,
            None => {
                return Err(TransferFundsError::SenderNotExistsError);
            },
        };
        proof {
            lemma_first_named(self.users@, sender@);
            lemma_first_named(self.users@, receiver@);
        }
        let funds = #[verifier::truncate]
        (self.users[sender_position].balance as u64) + self.users[sender_position].credit_line;
        if funds < #[verifier::truncate]
        (amount as u64) {
            return Err(TransferFundsError::SenderNotEnoughBalance);
        }
        self.users[sender_position].balance -= amount;
        self.users[receiver_position].balance += amount;
        proof {
            assert(self.users@ =~= after_transfer(
                old(self).users@,
                sender_position as int,
                receiver_position as int,
                amount,
            ));
        }
        Ok(())
    }

    /// The balance sheet of the bank.
    ///
    /// Each of the two sums has to fit in an `i64`.
    pub fn calc_balance(&self) -> (sheet: BalanceSheet)
        requires
            assets_of(self.users@) <= i64::MAX,
            liabilities_of(self.users@) <= i64::MAX,
        ensures
            sheet.assets == assets_of(self.users@),
            sheet.liabilities == liabilities_of(self.users@),
    {
        let mut liabilities: i64 = 0;
        let mut assets: i64 = 0;
        let mut i: usize = 0;
        while i < self.users.len()
            invariant
                i <= self.users@.len(),
                assets_of(self.users@) <= i64::MAX,
                liabilities_of(self.users@) <= i64::MAX,
                assets == assets_of(self.users@.take(i as int)),
                liabilities == liabilities_of(self.users@.take(i as int)),
            decreases self.users@.len() - i,
        {
            proof {
                assert(self.users@.take(i + 1).drop_last() =~= self.users@.take(i as int));
                assert(self.users@.take(i + 1).last() == self.users@[i as int]);
                lemma_sums_monotonic(self.users@, i + 1);
                lemma_sums_nonnegative(self.users@.take(i as int));
            }
            let balance = self.users[i].balance;
            if balance >= 0 {
                assets += balance;
            } else {
                liabilities += -balance;
            }
            i += 1;
        }
        proof {
            assert(self.users@.take(i as int) =~= self.users@);
            lemma_sums_nonnegative(self.users@);
        }
        BalanceSheet { liabilities: liabilities as u64, assets: assets as u64 }
    }
}

} // verus!
