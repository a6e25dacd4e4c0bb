use vstd::prelude::*;

verus! {

#[derive(Debug)]
pub struct CurrencyInfo {
    pub id: u64,
    pub name: String,
}

#[derive(Debug)]
pub struct AccountInfo {
    pub id: u64,
    pub display_name: String,
    pub currency_id: u64,
}

#[derive(Debug)]
pub struct CategoryInfo {
    pub id: u64,
    pub display_name: String,
}

#[derive(Debug)]
pub struct UserInfo {
    pub telegram_id: u64,
    pub telegram_name: String,
    pub display_name: String,
}

/// A committed expense. The amount is in hundredths of the account's
/// currency; the timestamp is in seconds since the Unix epoch.
#[derive(Debug)]
pub struct Expense {
    pub id: u64,
    pub account_id: u64,
    pub category_id: u64,
    pub user_id: u64,
    pub timestamp: i64,
    pub amount: u64,
    pub comments: String,
}

/// An expense under edit, not yet committed. The amount is in hundredths;
/// the timestamp is in seconds since the Unix epoch.
#[derive(Debug)]
pub struct ActiveTransaction {
    pub amount: u64,
    pub comments: String,
    pub user_id: u64,
    pub user_name: String,
    pub timestamp: i64,
    pub account_info: AccountInfo,
    pub category_info: CategoryInfo,
    pub currency: CurrencyInfo,
}

/// A reference that a draft holds and a commit checks.
#[derive(Debug, PartialEq, Eq, Structural, Clone, Copy)]
pub enum Reference {
    Account,
    Category,
    Currency,
    User,
}

#[derive(Debug, PartialEq, Eq, Structural, Clone, Copy)]
pub enum StoreError {
    /// The draft points to a row that does not exist; nothing was written.
    DanglingReference(Reference),
    /// Every expense id has been used.
    ExpenseIdsExhausted,
    /// A draft needs at least one account, category and currency.
    NoReferenceData,
    /// Sample data may only be loaded into an ephemeral store.
    FixturesDisabled,
    /// Sample data may only be loaded into a store that holds no rows yet.
    StoreNotEmpty,
}

impl CurrencyInfo {
    pub fn duplicate(&self) -> (r: CurrencyInfo)
        ensures
            r == *self,
    {
        CurrencyInfo { id: self.id, name: self.name.clone() }
    }
}

impl AccountInfo {
    pub fn duplicate(&self) -> (r: AccountInfo)
        ensures
            r == *self,
    {
        AccountInfo {
            id: self.id,
            display_name: self.display_name.clone(),
            currency_id: self.currency_id,
        }
    }
}

impl CategoryInfo {
    pub fn duplicate(&self) -> (r: CategoryInfo)
        ensures
            r == *self,
    {
        CategoryInfo { id: self.id, display_name: self.display_name.clone() }
    }
}

impl UserInfo {
    pub fn duplicate(&self) -> (r: UserInfo)
        ensures
            r == *self,
    {
        UserInfo {
            telegram_id: self.telegram_id,
            telegram_name: self.telegram_name.clone(),
            display_name: self.display_name.clone(),
        }
    }
}

impl Expense {
    pub fn duplicate(&self) -> (r: Expense)
        ensures
            r == *self,
    {
        Expense {
            id: self.id,
            account_id: self.account_id,
            category_id: self.category_id,
            user_id: self.user_id,
            timestamp: self.timestamp,
            amount: self.amount,
            comments: self.comments.clone(),
        }
    }
}

impl ActiveTransaction {
    pub fn duplicate(&self) -> (r: ActiveTransaction)
        ensures
            r == *self,
    {
        ActiveTransaction {
            amount: self.amount,
            comments: self.comments.clone(),
            user_id: self.user_id,
            user_name: self.user_name.clone(),
            timestamp: self.timestamp,
            account_info: self.account_info.duplicate(),
            category_info: self.category_info.duplicate(),
            currency: self.currency.duplicate(),
        }
    }
}

/// The first element of `s` that satisfies `p`.
pub open spec fn first_match<T>(s: Seq<T>, p: spec_fn(T) -> bool) -> Option<T>
    decreases s.len(),
{
    if s.len() == 0 {
        None
    } else if p(s[0]) {
        Some(s[0])
    } else {
        first_match(s.drop_first(), p)
    }
}

proof fn lemma_first_match_at<T>(s: Seq<T>, p: spec_fn(T) -> bool, i: int)
    requires
        0 <= i < s.len(),
        p(s[i]),
        forall|j: int| 0 <= j < i ==> !p(#[trigger] s[j]),
    ensures
        first_match(s, p) == Some(s[i]),
    decreases i,
{
    if i > 0 {
        assert(!p(s[0]));
        assert forall|j: int| 0 <= j < i - 1 implies !p(#[trigger] s.drop_first()[j]) by {
            assert(s.drop_first()[j] == s[j + 1]);
        }
        lemma_first_match_at(s.drop_first(), p, i - 1);
    }
}

proof fn lemma_first_match_none<T>(s: Seq<T>, p: spec_fn(T) -> bool)
    requires
        forall|j: int| 0 <= j < s.len() ==> !p(#[trigger] s[j]),
    ensures
        first_match(s, p) is None,
    decreases s.len(),
{
    if s.len() > 0 {
        assert(!p(s[0]));
        assert forall|j: int| 0 <= j < s.len() - 1 implies !p(#[trigger] s.drop_first()[j]) by {
            assert(s.drop_first()[j] == s[j + 1]);
        }
        lemma_first_match_none(s.drop_first(), p);
    }
}

/// The first listed account with this id.
pub open spec fn account_with_id(s: Seq<AccountInfo>, id: u64) -> Option<AccountInfo> {
    first_match(s, |a: AccountInfo| a.id == id)
}

/// The first listed category with this id.
pub open spec fn category_with_id(s: Seq<CategoryInfo>, id: u64) -> Option<CategoryInfo> {
    first_match(s, |c: CategoryInfo| c.id == id)
}

/// The first listed currency with this id.
pub open spec fn currency_with_id(s: Seq<CurrencyInfo>, id: u64) -> Option<CurrencyInfo> {
    first_match(s, |c: CurrencyInfo| c.id == id)
}

/// No two currencies share an id.
pub open spec fn currency_ids_distinct(s: Seq<CurrencyInfo>) -> bool {
    forall|i: int, j: int| 0 <= i < j < s.len() ==> (#[trigger] s[i]).id != (#[trigger] s[j]).id
}

/// No two accounts share an id.
pub open spec fn account_ids_distinct(s: Seq<AccountInfo>) -> bool {
    forall|i: int, j: int| 0 <= i < j < s.len() ==> (#[trigger] s[i]).id != (#[trigger] s[j]).id
}

/// No two categories share an id.
pub open spec fn category_ids_distinct(s: Seq<CategoryInfo>) -> bool {
    forall|i: int, j: int| 0 <= i < j < s.len() ==> (#[trigger] s[i]).id != (#[trigger] s[j]).id
}

/// No two users share an id.
pub open spec fn user_ids_distinct(s: Seq<UserInfo>) -> bool {
    forall|i: int, j: int|
        0 <= i < j < s.len() ==> (#[trigger] s[i]).telegram_id != (#[trigger] s[j]).telegram_id
}

/// The expense that committing `d` under `id` writes.
pub open spec fn expense_of(d: ActiveTransaction, id: u64) -> Expense {
    Expense {
        id,
        account_id: d.account_info.id,
        category_id: d.category_info.id,
        user_id: d.user_id,
        timestamp: d.timestamp,
        amount: d.amount,
        comments: d.comments,
    }
}

/// A draft as a conversation starts it: the amount, user and time given, no
/// comments, and the first account, category and currency that `m` lists.
pub open spec fn is_fresh_draft(
    d: ActiveTransaction,
    m: Model,
    amount: u64,
    user_id: u64,
    user_name: String,
    timestamp: i64,
) -> bool {
    &&& d.amount == amount
    &&& d.comments@.len() == 0
    &&& d.user_id == user_id
    &&& d.user_name == user_name
    &&& d.timestamp == timestamp
    &&& d.account_info == m.accounts()[0]
    &&& d.category_info == m.categories()[0]
    &&& d.currency == m.currencies()[0]
}

/// The store's reference data and its committed expenses. `ephemeral` marks
/// a store that lives only as long as the process, the one kind into which
/// sample data may be loaded.
pub struct Model {
    ephemeral: bool,
    currencies: Vec<CurrencyInfo>,
    accounts: Vec<AccountInfo>,
    categories: Vec<CategoryInfo>,
    users: Vec<UserInfo>,
    expenses: Vec<Expense>,
    next_expense_id: u64,
}

impl Model {
    pub closed spec fn is_ephemeral(&self) -> bool {
        self.ephemeral
    }

    pub closed spec fn currencies(&self) -> Seq<CurrencyInfo> {
        self.currencies@
    }

    pub closed spec fn accounts(&self) -> Seq<AccountInfo> {
        self.accounts@
    }

    pub closed spec fn categories(&self) -> Seq<CategoryInfo> {
        self.categories@
    }

    pub closed spec fn users(&self) -> Seq<UserInfo> {
        self.users@
    }

    pub closed spec fn expenses(&self) -> Seq<Expense> {
        self.expenses@
    }

    /// The id that the next committed expense gets.
    pub closed spec fn next_expense_id(&self) -> u64 {
        self.next_expense_id
    }

    /// Reference ids are primary keys, and every expense id is below the
    /// next one, so a new id is fresh.
    pub open spec fn wf(&self) -> bool {
        &&& currency_ids_distinct(self.currencies())
        &&& account_ids_distinct(self.accounts())
        &&& category_ids_distinct(self.categories())
        &&& user_ids_distinct(self.users())
        &&& forall|i: int|
            0 <= i < self.expenses().len() ==> (#[trigger] self.expenses()[i]).id
                < self.next_expense_id()
    }

    pub open spec fn has_account(&self, id: u64) -> bool {
        exists|i: int| 0 <= i < self.accounts().len() && (#[trigger] self.accounts()[i]).id == id
    }

    pub open spec fn has_category(&self, id: u64) -> bool {
        exists|i: int|
            0 <= i < self.categories().len() && (#[trigger] self.categories()[i]).id == id
    }

    pub open spec fn has_currency(&self, id: u64) -> bool {
        exists|i: int|
            0 <= i < self.currencies().len() && (#[trigger] self.currencies()[i]).id == id
    }

    pub open spec fn has_user(&self, id: u64) -> bool {
        exists|i: int|
            0 <= i < self.users().len() && (#[trigger] self.users()[i]).telegram_id == id
    }

    /// The first reference of `d`, in the order account, category, currency,
    /// user, that does not resolve in this store.
    pub open spec fn dangling_reference(&self, d: ActiveTransaction) -> Option<Reference> {
        if !self.has_account(d.account_info.id) {
            Some(Reference::Account)
        } else if !self.has_category(d.category_info.id) {
            Some(Reference::Category)
        } else if !self.has_currency(d.currency.id) {
            Some(Reference::Currency)
        } else if !self.has_user(d.user_id) {
            Some(Reference::User)
        } else {
            None
        }
    }

    /// What committing `d` returns.
    pub open spec fn commit_result(&self, d: ActiveTransaction) -> Result<u64, StoreError> {
        match self.dangling_reference(d) {
            Some(f) => Err(StoreError::DanglingReference(f)),
            None => if self.next_expense_id() == u64::MAX {
                Err(StoreError::ExpenseIdsExhausted)
            } else {
                Ok(self.next_expense_id())
            },
        }
    }

    /// An empty store; `in_memory` marks it ephemeral.
    pub fn new(in_memory: bool) -> (r: Model)
        ensures
            r.wf(),
            r.is_ephemeral() == in_memory,
            r.currencies().len() == 0,
            r.accounts().len() == 0,
            r.categories().len() == 0,
            r.users().len() == 0,
            r.expenses().len() == 0,
            r.next_expense_id() == 1,
    {
        Model {
            ephemeral: in_memory,
            currencies: Vec::new(),
            accounts: Vec::new(),
            categories: Vec::new(),
            users: Vec::new(),
            expenses: Vec::new(),
            next_expense_id: 1,
        }
    }

    /// A store over reference data read from elsewhere; committed expenses
    /// get ids from `next_expense_id` on.
    pub fn from_rows(
        ephemeral: bool,
        currencies: Vec<CurrencyInfo>,
        accounts: Vec<AccountInfo>,
        categories: Vec<CategoryInfo>,
        users: Vec<UserInfo>,
        next_expense_id: u64,
    ) -> (r: Model)
        requires
            currency_ids_distinct(currencies@),
            account_ids_distinct(accounts@),
            category_ids_distinct(categories@),
            user_ids_distinct(users@),
        ensures
            r.wf(),
            r.is_ephemeral() == ephemeral,
            r.currencies() == currencies@,
            r.accounts() == accounts@,
            r.categories() == categories@,
            r.users() == users@,
            r.expenses().len() == 0,
            r.next_expense_id() == next_expense_id,
    {
        Model {
            ephemeral,
            currencies,
            accounts,
            categories,
            users,
            expenses: Vec::new(),
            next_expense_id,
        }
    }

    fn find_account(&self, id: u64) -> (r: Option<usize>)
        ensures
            r matches Some(i) ==> i < self.accounts().len() && self.accounts()[i as int].id == id
                && forall|j: int| 0 <= j < i ==> (#[trigger] self.accounts()[j]).id != id,
            r is None <==> !self.has_account(id),
    {
        let mut i: usize = 0;
        while i < self.accounts.len()
            invariant
                i <= self.accounts@.len(),
                forall|j: int| 0 <= j < i ==> (#[trigger] self.accounts@[j]).id != id,
            decreases self.accounts@.len() - i,
        {
            if self.accounts[i].id == id {
                assert(self.accounts()[i as int].id == id);
                return Some(i);
            }
            i = i + 1;
        }
        None
    }

    fn find_category(&self, id: u64) -> (r: Option<usize>)
        ensures
            r matches Some(i) ==> i < self.categories().len() && self.categories()[i as int].id
                == id && forall|j: int| 0 <= j < i ==> (#[trigger] self.categories()[j]).id != id,
            r is None <==> !self.has_category(id),
    {
        let mut i: usize = 0;
        while i < self.categories.len()
            invariant
                i <= self.categories@.len(),
                forall|j: int| 0 <= j < i ==> (#[trigger] self.categories@[j]).id != id,
            decreases self.categories@.len() - i,
        {
            if self.categories[i].id == id {
                assert(self.categories()[i as int].id == id);
                return Some(i);
            }
            i = i + 1;
        }
        None
    }

    fn find_currency(&self, id: u64) -> (r: Option<usize>)
        ensures
            r matches Some(i) ==> i < self.currencies().len() && self.currencies()[i as int].id
                == id && forall|j: int| 0 <= j < i ==> (#[trigger] self.currencies()[j]).id != id,
            r is None <==> !self.has_currency(id),
    {
        let mut i: usize = 0;
        while i < self.currencies.len()
            invariant
                i <= self.currencies@.len(),
                forall|j: int| 0 <= j < i ==> (#[trigger] self.currencies@[j]).id != id,
            decreases self.currencies@.len() - i,
        {
            if self.currencies[i].id == id {
                assert(self.currencies()[i as int].id == id);
                return Some(i);
            }
            i = i + 1;
        }
        None
    }

    fn find_user(&self, id: u64) -> (r: bool)
        ensures
            r == self.has_user(id),
    {
        let mut i: usize = 0;
        while i < self.users.len()
            invariant
                i <= self.users@.len(),
                forall|j: int| 0 <= j < i ==> (#[trigger] self.users@[j]).telegram_id != id,
            decreases self.users@.len() - i,
        {
            if self.users[i].telegram_id == id {
                assert(self.users()[i as int].telegram_id == id);
                return true;
            }
            i = i + 1;
        }
        false
    }

    /// Commits a draft: every reference must resolve, or nothing is written
    /// and the first dangling one is named. On success one expense is added
    /// under a fresh id, which is returned.
    pub fn commit_expense(&mut self, d: &ActiveTransaction) -> (r: Result<u64, StoreError>)
        requires
            old(self).wf(),
        ensures
            final(self).wf(),
            r == old(self).commit_result(*d),
            r is Err ==> *final(self) == *old(self),
            r matches Ok(id) ==> {
                &&& final(self).expenses() == old(self).expenses().push(expense_of(*d, id))
                &&& final(self).next_expense_id() == id + 1
                &&& final(self).is_ephemeral() == old(self).is_ephemeral()
                &&& final(self).currencies() == old(self).currencies()
                &&& final(self).accounts() == old(self).accounts()
                &&& final(self).categories() == old(self).categories()
                &&& final(self).users() == old(self).users()
            },
    {
        if self.find_account(d.account_info.id).is_none() {
            return Err(StoreError::DanglingReference(Reference::Account));
        }
        if self.find_category(d.category_info.id).is_none() {
            return Err(StoreError::DanglingReference(Reference::Category));
        }
        if self.find_currency(d.currency.id).is_none() {
            return Err(StoreError::DanglingReference(Reference::Currency));
        }
        if !self.find_user(d.user_id) {
            return Err(StoreError::DanglingReference(Reference::User));
        }
        if self.next_expense_id == u64::MAX {
            return Err(StoreError::ExpenseIdsExhausted);
        }
        let id = self.next_expense_id;
        let e = Expense {
            id,
            account_id: d.account_info.id,
            category_id: d.category_info.id,
            user_id: d.user_id,
            timestamp: d.timestamp,
            amount: d.amount,
            comments: d.comments.clone(),
        };
        let ghost before = self.expenses@;
        self.expenses.push(e);
        self.next_expense_id = id + 1;
        assert forall|i: int| 0 <= i < self.expenses().len() implies (
        #[trigger] self.expenses()[i]).id < self.next_expense_id() by {
            if i < before.len() {
                assert(self.expenses()[i] == before[i]);
                assert(old(self).expenses()[i].id < old(self).next_expense_id());
            }
        }
        Ok(id)
    }

    /// How many expenses the store holds.
    pub fn expense_count(&self) -> (r: usize)
        ensures
            r == self.expenses().len(),
    {
        self.expenses.len()
    }

    /// The users, in the order the store lists them.
    pub fn get_users(&self) -> (r: Vec<UserInfo>)
        ensures
            r@ == self.users(),
    {
        let mut r: Vec<UserInfo> = Vec::new();
        let mut i: usize = 0;
        while i < self.users.len()
            invariant
                i <= self.users@.len(),
                r@ == self.users@.take(i as int),
            decreases self.users@.len() - i,
        {
            r.push(self.users[i].duplicate());
            i = i + 1;
            assert(r@ =~= self.users@.take(i as int));
        }
        assert(self.users@.take(i as int) =~= self.users@);
        r
    }

    /// The committed expenses, oldest first.
    pub fn get_expenses(&self) -> (r: Vec<Expense>)
        ensures
            r@ == self.expenses(),
    {
        let mut r: Vec<Expense> = Vec::new();
        let mut i: usize = 0;
        while i < self.expenses.len()
            invariant
                i <= self.expenses@.len(),
                r@ == self.expenses@.take(i as int),
            decreases self.expenses@.len() - i,
        {
            r.push(self.expenses[i].duplicate());
            i = i + 1;
            assert(r@ =~= self.expenses@.take(i as int));
        }
        assert(self.expenses@.take(i as int) =~= self.expenses@);
        r
    }

    /// The accounts, in the order the store lists them.
    pub fn get_accounts(&self) -> (r: Vec<AccountInfo>)
        ensures
            r@ == self.accounts(),
    {
        let mut r: Vec<AccountInfo> = Vec::new();
        let mut i: usize = 0;
        while i < self.accounts.len()
            invariant
                i <= self.accounts@.len(),
                r@ == self.accounts@.take(i as int),
            decreases self.accounts@.len() - i,
        {
            r.push(self.accounts[i].duplicate());
            i = i + 1;
            assert(r@ =~= self.accounts@.take(i as int));
        }
        assert(self.accounts@.take(i as int) =~= self.accounts@);
        r
    }

    /// The categories, in the order the store lists them.
    pub fn get_categories(&self) -> (r: Vec<CategoryInfo>)
        ensures
            r@ == self.categories(),
    {
        let mut r: Vec<CategoryInfo> = Vec::new();
        let mut i: usize = 0;
        while i < self.categories.len()
            invariant
                i <= self.categories@.len(),
                r@ == self.categories@.take(i as int),
            decreases self.categories@.len() - i,
        {
            r.push(self.categories[i].duplicate());
            i = i + 1;
            assert(r@ =~= self.categories@.take(i as int));
        }
        assert(self.categories@.take(i as int) =~= self.categories@);
        r
    }

    /// The currencies, in the order the store lists them.
    pub fn get_currencies(&self) -> (r: Vec<CurrencyInfo>)
        ensures
            r@ == self.currencies(),
    {
        let mut r: Vec<CurrencyInfo> = Vec::new();
        let mut i: usize = 0;
        while i < self.currencies.len()
            invariant
                i <= self.currencies@.len(),
                r@ == self.currencies@.take(i as int),
            decreases self.currencies@.len() - i,
        {
            r.push(self.currencies[i].duplicate());
            i = i + 1;
            assert(r@ =~= self.currencies@.take(i as int));
        }
        assert(self.currencies@.take(i as int) =~= self.currencies@);
        r
    }

    /// The first account with this id, if any.
    pub fn get_account_info(&self, id: u64) -> (r: Option<AccountInfo>)
        ensures
            r == account_with_id(self.accounts(), id),
            r is None <==> !self.has_account(id),
    {
        match self.find_account(id) {
            Some(i) => {
                proof {
                    lemma_first_match_at(self.accounts(), |x: AccountInfo| x.id == id, i as int);
                }
                Some(self.accounts[i].duplicate())
            },
            None => {
                proof {
                    lemma_first_match_none(self.accounts(), |x: AccountInfo| x.id == id);
                }
                None
            },
        }
    }

    /// The first category with this id, if any.
    pub fn get_category_info(&self, id: u64) -> (r: Option<CategoryInfo>)
        ensures
            r == category_with_id(self.categories(), id),
            r is None <==> !self.has_category(id),
    {
        match self.find_category(id) {
            Some(i) => {
                proof {
                    lemma_first_match_at(self.categories(), |x: CategoryInfo| x.id == id, i as int);
                }
                Some(self.categories[i].duplicate())
            },
            None => {
                proof {
                    lemma_first_match_none(self.categories(), |x: CategoryInfo| x.id == id);
                }
                None
            },
        }
    }

    /// The first currency with this id, if any.
    pub fn get_currency_info(&self, id: u64) -> (r: Option<CurrencyInfo>)
        ensures
            r == currency_with_id(self.currencies(), id),
            r is None <==> !self.has_currency(id),
    {
        match self.find_currency(id) {
            Some(i) => {
                proof {
                    lemma_first_match_at(self.currencies(), |x: CurrencyInfo| x.id == id, i as int);
                }
                Some(self.currencies[i].duplicate())
            },
            None => {
                proof {
                    lemma_first_match_none(self.currencies(), |x: CurrencyInfo| x.id == id);
                }
                None
            },
        }
    }

    /// True where a draft can be made: there is an account, a category and a
    /// currency to default to.
    pub open spec fn has_defaults(&self) -> bool {
        self.accounts().len() > 0 && self.categories().len() > 0 && self.currencies().len() > 0
    }

    /// A new draft with the first listed account, category and currency, and
    /// no comments.
    pub fn new_draft(&self, amount: u64, user_id: u64, user_name: String, timestamp: i64) -> (r:
        Result<ActiveTransaction, StoreError>)
        ensures
            !self.has_defaults() ==> r == Err::<ActiveTransaction, StoreError>(
                StoreError::NoReferenceData,
            ),
            self.has_defaults() ==> (r matches Ok(d) && is_fresh_draft(
                d,
                *self,
                amount,
                user_id,
                user_name,
                timestamp,
            )),
    {
        if self.accounts.len() == 0 || self.categories.len() == 0 || self.currencies.len() == 0 {
            return Err(StoreError::NoReferenceData);
        }
        Ok(
            ActiveTransaction {
                amount,
                comments: String::new(),
                user_id,
                user_name,
                timestamp,
                account_info: self.accounts[0].duplicate(),
                category_info: self.categories[0].duplicate(),
                currency: self.currencies[0].duplicate(),
            },
        )
    }

    /// A sample draft stamped with `timestamp`: 123.00, the comments
    /// "My comments", the user "My user" (id 0), and the first listed
    /// account, category and currency.
    pub fn make_active_transaction(&self, timestamp: i64) -> (r: Result<ActiveTransaction, StoreError>)
        ensures
            !self.has_defaults() ==> r == Err::<ActiveTransaction, StoreError>(
                StoreError::NoReferenceData,
            ),
            self.has_defaults() ==> (r matches Ok(d) && {
                &&& d.amount == 12300
                &&& d.comments@ == "My comments"@
                &&& d.user_id == 0
                &&& d.user_name@ == "My user"@
                &&& d.timestamp == timestamp
                &&& d.account_info == self.accounts()[0]
                &&& d.category_info == self.categories()[0]
                &&& d.currency == self.currencies()[0]
            }),
    {
        let r = self.new_draft(12300, 0, String::from_str("My user"), timestamp);
        match r {
            Ok(mut d) => {
                d.comments = String::from_str("My comments");
                Ok(d)
            },
            Err(e) => Err(e),
        }
    }

    pub open spec fn is_empty(&self) -> bool {
        &&& self.currencies().len() == 0
        &&& self.accounts().len() == 0
        &&& self.categories().len() == 0
        &&& self.users().len() == 0
        &&& self.expenses().len() == 0
    }

    /// Loads the sample reference data and expenses: currencies EUR, USD,
    /// BYN; users 1001 and 1002; three accounts; four categories; four
    /// expenses. Only an ephemeral, empty store accepts them; any other is
    /// left as it was.
    pub fn fill_test_data(&mut self) -> (r: Result<(), StoreError>)
        requires
            old(self).wf(),
        ensures
            final(self).wf(),
            !old(self).is_ephemeral() ==> r == Err::<(), StoreError>(StoreError::FixturesDisabled),
            old(self).is_ephemeral() && !old(self).is_empty() ==> r == Err::<(), StoreError>(
                StoreError::StoreNotEmpty,
            ),
            old(self).is_ephemeral() && old(self).is_empty() ==> r is Ok,
            r is Err ==> *final(self) == *old(self),
            r is Ok ==> {
                &&& old(self).is_ephemeral() && old(self).is_empty()
                &&& final(self).is_ephemeral()
                &&& final(self).currencies().map_values(|c: CurrencyInfo| c.id) == seq![1u64, 2, 3]
                &&& final(self).currencies().map_values(|c: CurrencyInfo| c.name@) == seq![
                    "EUR"@,
                    "USD"@,
                    "BYN"@,
                ]
                &&& final(self).users().map_values(|u: UserInfo| u.telegram_id) == seq![
                    1001u64,
                    1002,
                ]
                &&& final(self).users().map_values(|u: UserInfo| u.telegram_name@) == seq![
                    "alex_bot"@,
                    "hanna_bot"@,
                ]
                &&& final(self).users().map_values(|u: UserInfo| u.display_name@) == seq![
                    "Alex"@,
                    "Hanna"@,
                ]
                &&& final(self).accounts().map_values(|a: AccountInfo| a.id) == seq![1u64, 2, 3]
                &&& final(self).accounts().map_values(|a: AccountInfo| a.display_name@) == seq![
                    "Alex Savings"@,
                    "Hanna Daily"@,
                    "Family BYN"@,
                ]
                &&& final(self).accounts().map_values(|a: AccountInfo| a.currency_id) == seq![
                    1u64,
                    2,
                    3,
                ]
                &&& final(self).categories().map_values(|c: CategoryInfo| c.id) == seq![
                    1u64,
                    2,
                    3,
                    4,
                ]
                &&& final(self).categories().map_values(|c: CategoryInfo| c.display_name@)
                    == seq!["Groceries"@, "Transportation"@, "Entertainment"@, "Utilities"@]
                &&& final(self).expenses().map_values(|e: Expense| e.id) == seq![1u64, 2, 3, 4]
                &&& final(self).expenses().map_values(
                    |e: Expense| (e.account_id, e.category_id, e.user_id),
                ) == seq![(1u64, 1u64, 1001u64), (2, 2, 1002), (3, 3, 1001), (2, 4, 1002)]
                &&& final(self).expenses().map_values(|e: Expense| (e.timestamp, e.amount))
                    == seq![
                    (1701424800i64, 5075u64),
                    (1701520200, 2000),
                    (1701626400, 3000),
                    (1701720000, 10000),
                ]
                &&& final(self).expenses().map_values(|e: Expense| e.comments@) == seq![
                    "Bought groceries for the week"@,
                    "Taxi ride to the office"@,
                    "Cinema tickets for family"@,
                    "Paid electricity bill"@,
                ]
                &&& final(self).next_expense_id() == 5
            },
    {
        if !self.ephemeral {
            return Err(StoreError::FixturesDisabled);
        }
        if self.currencies.len() != 0 || self.accounts.len() != 0 || self.categories.len() != 0
            || self.users.len() != 0 || self.expenses.len() != 0 {
            return Err(StoreError::StoreNotEmpty);
        }
        self.currencies = vec![
            CurrencyInfo { id: 1, name: String::from_str("EUR") },
            CurrencyInfo { id: 2, name: String::from_str("USD") },
            CurrencyInfo { id: 3, name: String::from_str("BYN") },
        ];
        self.users = vec![
            UserInfo {
                telegram_id: 1001,
                telegram_name: String::from_str("alex_bot"),
                display_name: String::from_str("Alex"),
            },
            UserInfo {
                telegram_id: 1002,
                telegram_name: String::from_str("hanna_bot"),
                display_name: String::from_str("Hanna"),
            },
        ];
        self.accounts = vec![
            AccountInfo { id: 1, display_name: String::from_str("Alex Savings"), currency_id: 1 },
            AccountInfo { id: 2, display_name: String::from_str("Hanna Daily"), currency_id: 2 },
            AccountInfo { id: 3, display_name: String::from_str("Family BYN"), currency_id: 3 },
        ];
        self.categories = vec![
            CategoryInfo { id: 1, display_name: String::from_str("Groceries") },
            CategoryInfo { id: 2, display_name: String::from_str("Transportation") },
            CategoryInfo { id: 3, display_name: String::from_str("Entertainment") },
            CategoryInfo { id: 4, display_name: String::from_str("Utilities") },
        ];
        self.expenses = vec![
            Expense {
                id: 1,
                account_id: 1,
                category_id: 1,
                user_id: 1001,
                timestamp: 1701424800,
                amount: 5075,
                comments: String::from_str("Bought groceries for the week"),
            },
            Expense {
                id: 2,
                account_id: 2,
                category_id: 2,
                user_id: 1002,
                timestamp: 1701520200,
                amount: 2000,
                comments: String::from_str("Taxi ride to the office"),
            },
            Expense {
                id: 3,
                account_id: 3,
                category_id: 3,
                user_id: 1001,
                timestamp: 1701626400,
                amount: 3000,
                comments: String::from_str("Cinema tickets for family"),
            },
            Expense {
                id: 4,
                account_id: 2,
                category_id: 4,
                user_id: 1002,
                timestamp: 1701720000,
                amount: 10000,
                comments: String::from_str("Paid electricity bill"),
            },
        ];
        self.next_expense_id = 5;
        assert(self.currencies().map_values(|c: CurrencyInfo| c.id) =~= seq![1u64, 2, 3]);
        assert(self.currencies().map_values(|c: CurrencyInfo| c.name@) =~= seq![
            "EUR"@,
            "USD"@,
            "BYN"@,
        ]);
        assert(self.users().map_values(|u: UserInfo| u.telegram_id) =~= seq![1001u64, 1002]);
        assert(self.accounts().map_values(|a: AccountInfo| a.id) =~= seq![1u64, 2, 3]);
        assert(self.users().map_values(|u: UserInfo| u.telegram_name@) =~= seq![
            "alex_bot"@,
            "hanna_bot"@,
        ]);
        assert(self.users().map_values(|u: UserInfo| u.display_name@) =~= seq!["Alex"@, "Hanna"@]);
        assert(self.accounts().map_values(|a: AccountInfo| a.display_name@) =~= seq![
            "Alex Savings"@,
            "Hanna Daily"@,
            "Family BYN"@,
        ]);
        assert(self.accounts().map_values(|a: AccountInfo| a.currency_id) =~= seq![1u64, 2, 3]);
        assert(self.categories().map_values(|c: CategoryInfo| c.display_name@) =~= seq![
            "Groceries"@,
            "Transportation"@,
            "Entertainment"@,
            "Utilities"@,
        ]);
        assert(self.expenses().map_values(|e: Expense| (e.account_id, e.category_id, e.user_id))
            =~= seq![(1u64, 1u64, 1001u64), (2, 2, 1002), (3, 3, 1001), (2, 4, 1002)]);
        assert(self.expenses().map_values(|e: Expense| (e.timestamp, e.amount)) =~= seq![
            (1701424800i64, 5075u64),
            (1701520200, 2000),
            (1701626400, 3000),
            (1701720000, 10000),
        ]);
        assert(self.expenses().map_values(|e: Expense| e.comments@) =~= seq![
            "Bought groceries for the week"@,
            "Taxi ride to the office"@,
            "Cinema tickets for family"@,
            "Paid electricity bill"@,
        ]);
        assert(self.categories().map_values(|c: CategoryInfo| c.id) =~= seq![1u64, 2, 3, 4]);
        assert(self.expenses().map_values(|e: Expense| e.id) =~= seq![1u64, 2, 3, 4]);
        Ok(())
    }
}

/// A draft with a reference that does not resolve is refused with that
/// reference named; the commit then writes nothing.
pub proof fn lemma_dangling_reference_refused(m: Model, d: ActiveTransaction)
    requires
        m.dangling_reference(d) is Some,
    ensures
        m.commit_result(d) == Err::<u64, StoreError>(
            StoreError::DanglingReference(m.dangling_reference(d)->Some_0),
        ),
{
}

} // verus!
