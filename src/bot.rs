use vstd::prelude::*;
use crate::clock::{parse_rfc3339, rfc3339_seconds};
use crate::model::{
    account_with_id,
    is_fresh_draft,
    category_with_id,
    currency_with_id,
    AccountInfo,
    ActiveTransaction,
    CategoryInfo,
    CurrencyInfo,
    Model,
    StoreError,
};
use crate::text::{amount_of, id_of, parse_amount, parse_id};

verus! {

/// Identifies one bound draft: the user, and the prompt message that carries
/// the draft's edit controls.
#[derive(Debug, PartialEq, Eq, Structural, Clone, Copy, Hash)]
pub struct TransactionKey {
    pub telegram_user_id: u64,
    pub message_id: u64,
}

/// A field of a draft that the user may edit.
#[derive(Debug, PartialEq, Eq, Structural, Clone, Copy)]
pub enum Field {
    Amount,
    Timestamp,
    Account,
    Category,
    Currency,
}

/// Where a conversation stands in the edit protocol.
#[derive(Debug, PartialEq, Eq, Structural, Clone, Copy)]
pub enum TransactionState {
    /// No field is being edited.
    AwaitingFieldChoice,
    /// The next text is the new value of this field.
    AwaitingFieldValue(Field),
    /// The draft was stored; the conversation is over.
    Committed,
}

/// The actions that a draft's buttons carry.
#[derive(Debug, PartialEq, Eq, Structural, Clone, Copy)]
pub enum CallbackAction {
    Edit(Field),
    Commit,
}

#[derive(Debug, PartialEq, Eq, Structural, Clone, Copy)]
pub enum BotError {
    /// A field name outside the editable set.
    UnknownField,
    /// A callback identifier outside the closed set of actions.
    UnknownCallbackAction,
    /// The text is not a valid value for the field.
    InvalidValue(Field),
    /// No draft is bound to the key, or waits under the token.
    NoSuchDraft,
    /// The input does not fit the state the draft is in; nothing changed.
    InputNotExpected,
    /// Another draft is already bound to the key.
    KeyInUse,
    /// Every pending-draft token has been used.
    TokensExhausted,
    /// The store refused the operation.
    Store(StoreError),
}

/// A new value for one field, resolved against the store.
#[derive(Debug)]
pub enum FieldValue {
    Amount(u64),
    Timestamp(i64),
    Account(AccountInfo),
    Category(CategoryInfo),
    Currency(CurrencyInfo),
}

pub open spec fn field_of(v: FieldValue) -> Field {
    match v {
        FieldValue::Amount(_) => Field::Amount,
        FieldValue::Timestamp(_) => Field::Timestamp,
        FieldValue::Account(_) => Field::Account,
        FieldValue::Category(_) => Field::Category,
        FieldValue::Currency(_) => Field::Currency,
    }
}

/// The draft with one field replaced.
pub open spec fn with_value(d: ActiveTransaction, v: FieldValue) -> ActiveTransaction {
    match v {
        FieldValue::Amount(a) => ActiveTransaction { amount: a, ..d },
        FieldValue::Timestamp(t) => ActiveTransaction { timestamp: t, ..d },
        FieldValue::Account(a) => ActiveTransaction { account_info: a, ..d },
        FieldValue::Category(c) => ActiveTransaction { category_info: c, ..d },
        FieldValue::Currency(c) => ActiveTransaction { currency: c, ..d },
    }
}

/// The value that `text` gives field `f`: an amount, an RFC 3339 time, or the
/// id of an existing account, category or currency.
pub open spec fn value_for(f: Field, text: Seq<char>, m: Model) -> Option<FieldValue> {
    match f {
        Field::Amount => match amount_of(text) {
            Some(a) => Some(FieldValue::Amount(a)),
            None => None,
        },
        Field::Timestamp => match rfc3339_seconds(text) {
            Some(t) => Some(FieldValue::Timestamp(t)),
            None => None,
        },
        Field::Account => match id_of(text) {
            Some(id) => match account_with_id(m.accounts(), id) {
                Some(a) => Some(FieldValue::Account(a)),
                None => None,
            },
            None => None,
        },
        Field::Category => match id_of(text) {
            Some(id) => match category_with_id(m.categories(), id) {
                Some(c) => Some(FieldValue::Category(c)),
                None => None,
            },
            None => None,
        },
        Field::Currency => match id_of(text) {
            Some(id) => match currency_with_id(m.currencies(), id) {
                Some(c) => Some(FieldValue::Currency(c)),
                None => None,
            },
            None => None,
        },
    }
}

/// The editable field that a name denotes.
pub open spec fn field_named(s: Seq<char>) -> Option<Field> {
    if s == "amount"@ {
        Some(Field::Amount)
    } else if s == "timestamp"@ {
        Some(Field::Timestamp)
    } else if s == "account"@ {
        Some(Field::Account)
    } else if s == "category"@ {
        Some(Field::Category)
    } else if s == "currency"@ {
        Some(Field::Currency)
    } else {
        None
    }
}

/// The action that a callback identifier denotes.
pub open spec fn action_named(s: Seq<char>) -> Option<CallbackAction> {
    if s == "edit_amount"@ {
        Some(CallbackAction::Edit(Field::Amount))
    } else if s == "edit_timestamp"@ {
        Some(CallbackAction::Edit(Field::Timestamp))
    } else if s == "edit_account"@ {
        Some(CallbackAction::Edit(Field::Account))
    } else if s == "edit_category"@ {
        Some(CallbackAction::Edit(Field::Category))
    } else if s == "edit_currency"@ {
        Some(CallbackAction::Edit(Field::Currency))
    } else if s == "commit"@ {
        Some(CallbackAction::Commit)
    } else {
        None
    }
}

fn same_text(a: &str, b: &str) -> (r: bool)
    ensures
        r == (a@ == b@),
{
    let n = a.unicode_len();
    if n != b.unicode_len() {
        return false;
    }
    let mut i: usize = 0;
    while i < n
        invariant
            n == a@.len() == b@.len(),
            i <= n,
            forall|j: int| 0 <= j < i ==> a@[j] == b@[j],
        decreases n - i,
    {
        if a.get_char(i) != b.get_char(i) {
            return false;
        }
        i = i + 1;
    }
    assert(a@ =~= b@);
    true
}

/// Parses an editable field's name.
pub fn parse_field(name: &str) -> (r: Result<Field, BotError>)
    ensures
        r == (match field_named(name@) {
            Some(f) => Ok(f),
            None => Err(BotError::UnknownField),
        }),
{
    if same_text(name, "amount") {
        Ok(Field::Amount)
    } else if same_text(name, "timestamp") {
        Ok(Field::Timestamp)
    } else if same_text(name, "account") {
        Ok(Field::Account)
    } else if same_text(name, "category") {
        Ok(Field::Category)
    } else if same_text(name, "currency") {
        Ok(Field::Currency)
    } else {
        Err(BotError::UnknownField)
    }
}

/// Parses a callback identifier.
pub fn parse_callback(action: &str) -> (r: Result<CallbackAction, BotError>)
    ensures
        r == (match action_named(action@) {
            Some(a) => Ok(a),
            None => Err(BotError::UnknownCallbackAction),
        }),
{
    if same_text(action, "edit_amount") {
        Ok(CallbackAction::Edit(Field::Amount))
    } else if same_text(action, "edit_timestamp") {
        Ok(CallbackAction::Edit(Field::Timestamp))
    } else if same_text(action, "edit_account") {
        Ok(CallbackAction::Edit(Field::Account))
    } else if same_text(action, "edit_category") {
        Ok(CallbackAction::Edit(Field::Category))
    } else if same_text(action, "edit_currency") {
        Ok(CallbackAction::Edit(Field::Currency))
    } else if same_text(action, "commit") {
        Ok(CallbackAction::Commit)
    } else {
        Err(BotError::UnknownCallbackAction)
    }
}

/// Resolves `text` as a new value for field `f`.
pub fn parse_value(f: Field, text: &str, m: &Model) -> (r: Option<FieldValue>)
    ensures
        r == value_for(f, text@, *m),
{
    match f {
        Field::Amount => match parse_amount(text) {
            Some(a) => Some(FieldValue::Amount(a)),
            None => None,
        },
        Field::Timestamp => match parse_rfc3339(text) {
            Some(t) => Some(FieldValue::Timestamp(t)),
            None => None,
        },
        Field::Account => match parse_id(text) {
            Some(id) => match m.get_account_info(id) {
                Some(a) => Some(FieldValue::Account(a)),
                None => None,
            },
            None => None,
        },
        Field::Category => match parse_id(text) {
            Some(id) => match m.get_category_info(id) {
                Some(c) => Some(FieldValue::Category(c)),
                None => None,
            },
            None => None,
        },
        Field::Currency => match parse_id(text) {
            Some(id) => match m.get_currency_info(id) {
                Some(c) => Some(FieldValue::Currency(c)),
                None => None,
            },
            None => None,
        },
    }
}

/// A draft and where its conversation stands. `last_activity` is the time,
/// in seconds, of the last event that changed it.
#[derive(Debug)]
pub struct Conversation {
    pub draft: ActiveTransaction,
    pub state: TransactionState,
    pub last_activity: u64,
}

/// What a callback did.
#[derive(Debug, PartialEq, Eq, Structural, Clone, Copy)]
pub enum CallbackOutcome {
    FieldSelected(Field),
    Committed(u64),
}

/// Entries keyed uniquely, that `m` maps key by key.
pub open spec fn table_wf<K>(s: Seq<(K, Conversation)>, m: Map<K, Conversation>) -> bool {
    &&& forall|i: int, j: int| 0 <= i < j < s.len() ==> (#[trigger] s[i]).0 != (#[trigger] s[j]).0
    &&& forall|i: int|
        0 <= i < s.len() ==> m.contains_key((#[trigger] s[i]).0) && m[s[i].0] == s[i].1
    &&& forall|k: K| m.contains_key(k) ==> exists|i: int| 0 <= i < s.len() && (#[trigger] s[i]).0 == k
}

proof fn lemma_table_update<K>(s: Seq<(K, Conversation)>, m: Map<K, Conversation>, i: int, c: Conversation)
    requires
        table_wf(s, m),
        0 <= i < s.len(),
    ensures
        table_wf(s.update(i, (s[i].0, c)), m.insert(s[i].0, c)),
{
    let t = s.update(i, (s[i].0, c));
    let n = m.insert(s[i].0, c);
    assert forall|k: K| n.contains_key(k) implies exists|j: int| 0 <= j < t.len() && (#[trigger] t[j]).0 == k by {
        if k == s[i].0 {
            assert(t[i].0 == k);
        } else {
            let j = choose|j: int| 0 <= j < s.len() && (#[trigger] s[j]).0 == k;
            assert(t[j].0 == k);
        }
    }
    assert forall|a: int| 0 <= a < t.len() implies n.contains_key((#[trigger] t[a]).0) && n[t[a].0] == t[a].1 by {
        if a != i {
            assert(s[a].0 != s[i].0) by {
                if a < i { assert(s[a].0 != s[i].0); } else { assert(s[i].0 != s[a].0); }
            }
        }
    }
}

proof fn lemma_table_push<K>(s: Seq<(K, Conversation)>, m: Map<K, Conversation>, k: K, c: Conversation)
    requires
        table_wf(s, m),
        !m.contains_key(k),
    ensures
        table_wf(s.push((k, c)), m.insert(k, c)),
{
    let t = s.push((k, c));
    let n = m.insert(k, c);
    assert forall|x: K| n.contains_key(x) implies exists|j: int| 0 <= j < t.len() && (#[trigger] t[j]).0 == x by {
        if x == k {
            assert(t[s.len() as int].0 == x);
        } else {
            let j = choose|j: int| 0 <= j < s.len() && (#[trigger] s[j]).0 == x;
            assert(t[j].0 == x);
        }
    }
    assert forall|a: int, b: int| 0 <= a < b < t.len() implies (#[trigger] t[a]).0 != (#[trigger] t[b]).0 by {
        if b == s.len() {
            assert(m.contains_key(s[a].0));
        } else {
            assert(s[a].0 != s[b].0);
        }
    }
    assert forall|a: int| 0 <= a < t.len() implies n.contains_key((#[trigger] t[a]).0) && n[t[a].0] == t[a].1 by {
        if a < s.len() {
            assert(m.contains_key(s[a].0));
        }
    }
}

proof fn lemma_table_remove<K>(s: Seq<(K, Conversation)>, m: Map<K, Conversation>, i: int)
    requires
        table_wf(s, m),
        0 <= i < s.len(),
    ensures
        table_wf(s.remove(i), m.remove(s[i].0)),
{
    let t = s.remove(i);
    let n = m.remove(s[i].0);
    assert forall|x: K| n.contains_key(x) implies exists|j: int| 0 <= j < t.len() && (#[trigger] t[j]).0 == x by {
        let j = choose|j: int| 0 <= j < s.len() && (#[trigger] s[j]).0 == x;
        if j < i {
            assert(t[j].0 == x);
        } else {
            assert(j != i);
            assert(t[j - 1].0 == x);
        }
    }
    assert forall|a: int, b: int| 0 <= a < b < t.len() implies (#[trigger] t[a]).0 != (#[trigger] t[b]).0 by {
        let a2 = if a < i { a } else { a + 1 };
        let b2 = if b < i { b } else { b + 1 };
        assert(t[a] == s[a2] && t[b] == s[b2]);
        assert(s[a2].0 != s[b2].0);
    }
    assert forall|a: int| 0 <= a < t.len() implies n.contains_key((#[trigger] t[a]).0) && n[t[a].0] == t[a].1 by {
        let a2 = if a < i { a } else { a + 1 };
        assert(t[a] == s[a2]);
        if a2 < i {
            assert(s[a2].0 != s[i].0);
        } else {
            assert(s[i].0 != s[a2].0);
        }
    }
}

/// Open drafts: those bound to a key, and those still waiting for the prompt
/// message that will carry them, by token. Each event acts on one draft as a
/// single step: it is applied whole or, where it fails, not at all.
pub struct SpendingTrackerBot {
    transactions: Vec<(TransactionKey, Conversation)>,
    bound: Ghost<Map<TransactionKey, Conversation>>,
    pending: Vec<(u64, Conversation)>,
    waiting: Ghost<Map<u64, Conversation>>,
    next_token: u64,
}

/// Selecting field `f` on the draft under `key`.
pub open spec fn select_step(
    cs: Map<TransactionKey, Conversation>,
    key: TransactionKey,
    f: Field,
    now: u64,
) -> Result<Map<TransactionKey, Conversation>, BotError> {
    if !cs.contains_key(key) {
        Err(BotError::NoSuchDraft)
    } else if cs[key].state != TransactionState::AwaitingFieldChoice {
        Err(BotError::InputNotExpected)
    } else {
        Ok(
            cs.insert(
                key,
                Conversation {
                    draft: cs[key].draft,
                    state: TransactionState::AwaitingFieldValue(f),
                    last_activity: now,
                },
            ),
        )
    }
}

/// Giving the draft under `key`, which must be waiting for that field, the
/// resolved value `v`.
pub open spec fn apply_step(
    cs: Map<TransactionKey, Conversation>,
    key: TransactionKey,
    v: FieldValue,
    now: u64,
) -> Result<Map<TransactionKey, Conversation>, BotError> {
    if !cs.contains_key(key) {
        Err(BotError::NoSuchDraft)
    } else if cs[key].state != TransactionState::AwaitingFieldValue(field_of(v)) {
        Err(BotError::InputNotExpected)
    } else {
        Ok(
            cs.insert(
                key,
                Conversation {
                    draft: with_value(cs[key].draft, v),
                    state: TransactionState::AwaitingFieldChoice,
                    last_activity: now,
                },
            ),
        )
    }
}

/// Giving the draft under `key` the value that `text` denotes.
pub open spec fn receive_step(
    cs: Map<TransactionKey, Conversation>,
    key: TransactionKey,
    text: Seq<char>,
    m: Model,
    now: u64,
) -> Result<Map<TransactionKey, Conversation>, BotError> {
    if !cs.contains_key(key) {
        Err(BotError::NoSuchDraft)
    } else {
        match cs[key].state {
            TransactionState::AwaitingFieldValue(f) => match value_for(f, text, m) {
                Some(v) => apply_step(cs, key, v, now),
                None => Err(BotError::InvalidValue(f)),
            },
            _ => Err(BotError::InputNotExpected),
        }
    }
}

/// What committing the draft under `key` returns.
pub open spec fn commit_step(
    cs: Map<TransactionKey, Conversation>,
    key: TransactionKey,
    m: Model,
) -> Result<u64, BotError> {
    if !cs.contains_key(key) {
        Err(BotError::NoSuchDraft)
    } else if cs[key].state != TransactionState::AwaitingFieldChoice {
        Err(BotError::InputNotExpected)
    } else {
        match m.commit_result(cs[key].draft) {
            Ok(id) => Ok(id),
            Err(e) => Err(BotError::Store(e)),
        }
    }
}

/// True while a conversation that last changed at `c.last_activity` is
/// younger than `ttl` seconds at time `now`.
pub open spec fn is_live(c: Conversation, now: u64, ttl: u64) -> bool {
    now < c.last_activity + ttl
}

/// The entries of `m` that are still live at `now`.
pub open spec fn live_part<K>(m: Map<K, Conversation>, now: u64, ttl: u64) -> Map<K, Conversation> {
    Map::new(|k: K| m.contains_key(k) && is_live(m[k], now, ttl), |k: K| m[k])
}

fn evict_table<K>(v: &mut Vec<(K, Conversation)>, m: Ghost<Map<K, Conversation>>, now: u64, ttl: u64) -> (r: Ghost<Map<K, Conversation>>)
    requires
        table_wf(old(v)@, m@),
    ensures
        table_wf(final(v)@, r@),
        r@ == live_part(m@, now, ttl),
{
    let mut i: usize = 0;
    let ghost mut cur = m@;
    while i < v.len()
        invariant
            i <= v@.len(),
            table_wf(v@, cur),
            forall|k: K| #[trigger] cur.contains_key(k) ==> m@.contains_key(k) && cur[k] == m@[k],
            forall|k: K| #[trigger] m@.contains_key(k) && is_live(m@[k], now, ttl) ==> cur.contains_key(k),
            forall|j: int| 0 <= j < i ==> is_live((#[trigger] v@[j]).1, now, ttl),
        decreases v@.len() - i,
    {
        let last = v[i].1.last_activity;
        if now < last || now - last < ttl {
            i = i + 1;
        } else {
            proof {
                let k = v@[i as int].0;
                assert(cur[k] == v@[i as int].1);
                lemma_table_remove(v@, cur, i as int);
                cur = cur.remove(k);
                assert forall|j: int| 0 <= j < i implies is_live((#[trigger] v@.remove(i as int)[j]).1, now, ttl) by {
                    assert(v@.remove(i as int)[j] == v@[j]);
                }
            }
            v.remove(i);
        }
    }
    proof {
        assert forall|k: K| cur.contains_key(k) implies is_live(#[trigger] m@[k], now, ttl) by {
            let j = choose|j: int| 0 <= j < v@.len() && (#[trigger] v@[j]).0 == k;
            assert(cur[k] == v@[j].1);
        }
        assert(cur =~= live_part(m@, now, ttl));
    }
    Ghost(cur)
}

impl SpendingTrackerBot {
    /// The drafts bound to a key.
    pub closed spec fn conversations(&self) -> Map<TransactionKey, Conversation> {
        self.bound@
    }

    /// The drafts that wait for a key, by token.
    pub closed spec fn pending(&self) -> Map<u64, Conversation> {
        self.waiting@
    }

    /// The token that the next new draft gets.
    pub closed spec fn next_token(&self) -> u64 {
        self.next_token
    }

    pub closed spec fn wf(&self) -> bool {
        &&& table_wf(self.transactions@, self.bound@)
        &&& table_wf(self.pending@, self.waiting@)
        &&& forall|t: u64| #[trigger] self.waiting@.contains_key(t) ==> t < self.next_token
            && self.waiting@[t].state == TransactionState::AwaitingFieldChoice
        &&& forall|k: TransactionKey| #[trigger] self.bound@.contains_key(k)
            ==> self.bound@[k].state != TransactionState::Committed
    }

    pub fn new() -> (r: Self)
        ensures
            r.wf(),
            r.conversations() == Map::<TransactionKey, Conversation>::empty(),
            r.pending() == Map::<u64, Conversation>::empty(),
    {
        SpendingTrackerBot {
            transactions: Vec::new(),
            bound: Ghost(Map::empty()),
            pending: Vec::new(),
            waiting: Ghost(Map::empty()),
            next_token: 0,
        }
    }

    fn find_key(&self, key: TransactionKey) -> (r: Option<usize>)
        requires
            self.wf(),
        ensures
            r matches Some(i) ==> i < self.transactions@.len() && self.transactions@[i as int].0
                == key,
            r is None <==> !self.conversations().contains_key(key),
    {
        let mut i: usize = 0;
        while i < self.transactions.len()
            invariant
                self.wf(),
                i <= self.transactions@.len(),
                forall|j: int| 0 <= j < i ==> (#[trigger] self.transactions@[j]).0 != key,
            decreases self.transactions@.len() - i,
        {
            if self.transactions[i].0 == key {
                return Some(i);
            }
            i = i + 1;
        }
        None
    }

    fn find_token(&self, token: u64) -> (r: Option<usize>)
        requires
            self.wf(),
        ensures
            r matches Some(i) ==> i < self.pending@.len() && self.pending@[i as int].0 == token,
            r is None <==> !self.pending().contains_key(token),
    {
        let mut i: usize = 0;
        while i < self.pending.len()
            invariant
                self.wf(),
                i <= self.pending@.len(),
                forall|j: int| 0 <= j < i ==> (#[trigger] self.pending@[j]).0 != token,
            decreases self.pending@.len() - i,
        {
            if self.pending[i].0 == token {
                return Some(i);
            }
            i = i + 1;
        }
        None
    }

    /// Puts the draft under `key` into editing of field `f`.
    pub fn select(&mut self, key: TransactionKey, f: Field, now: u64) -> (r: Result<Field, BotError>)
        requires
            old(self).wf(),
        ensures
            final(self).wf(),
            match select_step(old(self).conversations(), key, f, now) {
                Ok(cs) => r == Ok::<Field, BotError>(f) && final(self).conversations() == cs
                    && final(self).pending() == old(self).pending() && final(self).next_token()
                    == old(self).next_token(),
                Err(e) => r == Err::<Field, BotError>(e) && *final(self) == *old(self),
            },
    {
        match self.find_key(key) {
            None => Err(BotError::NoSuchDraft),
            Some(i) => {
                proof {
                    assert(self.bound@[key] == self.transactions@[i as int].1);
                }
                if self.transactions[i].1.state != TransactionState::AwaitingFieldChoice {
                    return Err(BotError::InputNotExpected);
                }
                let c = Conversation {
                    draft: self.transactions[i].1.draft.duplicate(),
                    state: TransactionState::AwaitingFieldValue(f),
                    last_activity: now,
                };
                proof {
                    lemma_table_update(self.transactions@, self.bound@, i as int, c);
                    self.bound@ = self.bound@.insert(key, c);
                }
                self.transactions[i] = (key, c);
                Ok(f)
            },
        }
    }

    /// Puts the draft under `key` into editing of the named field. An unknown
    /// name is refused and nothing changes.
    pub fn select_field(&mut self, key: TransactionKey, name: &str, now: u64) -> (r: Result<
        Field,
        BotError,
    >)
        requires
            old(self).wf(),
        ensures
            final(self).wf(),
            field_named(name@) is None ==> r == Err::<Field, BotError>(BotError::UnknownField)
                && *final(self) == *old(self),
            field_named(name@) matches Some(f) ==> match select_step(
                old(self).conversations(),
                key,
                f,
                now,
            ) {
                Ok(cs) => r == Ok::<Field, BotError>(f) && final(self).conversations() == cs
                    && final(self).pending() == old(self).pending() && final(self).next_token()
                    == old(self).next_token(),
                Err(e) => r == Err::<Field, BotError>(e) && *final(self) == *old(self),
            },
    {
        match parse_field(name) {
            Err(e) => Err(e),
            Ok(f) => self.select(key, f, now),
        }
    }

    /// Gives the draft under `key` a resolved value for the field it is
    /// waiting for, and returns it to waiting for a field choice.
    pub fn apply_value(&mut self, key: TransactionKey, v: FieldValue, now: u64) -> (r: Result<
        (),
        BotError,
    >)
        requires
            old(self).wf(),
        ensures
            final(self).wf(),
            match apply_step(old(self).conversations(), key, v, now) {
                Ok(cs) => r == Ok::<(), BotError>(()) && final(self).conversations() == cs
                    && final(self).pending() == old(self).pending() && final(self).next_token()
                    == old(self).next_token(),
                Err(e) => r == Err::<(), BotError>(e) && *final(self) == *old(self),
            },
    {
        let i = match self.find_key(key) {
            Some(i) => i,
            None => {
                return Err(BotError::NoSuchDraft);
            },
        };
        proof {
            assert(self.bound@[key] == self.transactions@[i as int].1);
        }
        let f = match v {
            FieldValue::Amount(_) => Field::Amount,
            FieldValue::Timestamp(_) => Field::Timestamp,
            FieldValue::Account(_) => Field::Account,
            FieldValue::Category(_) => Field::Category,
            FieldValue::Currency(_) => Field::Currency,
        };
        if self.transactions[i].1.state != TransactionState::AwaitingFieldValue(f) {
            return Err(BotError::InputNotExpected);
        }
        let mut d = self.transactions[i].1.draft.duplicate();
        match v {
            FieldValue::Amount(a) => {
                d.amount = a;
            },
            FieldValue::Timestamp(t) => {
                d.timestamp = t;
            },
            FieldValue::Account(a) => {
                d.account_info = a;
            },
            FieldValue::Category(c) => {
                d.category_info = c;
            },
            FieldValue::Currency(c) => {
                d.currency = c;
            },
        }
        let c = Conversation { draft: d, state: TransactionState::AwaitingFieldChoice, last_activity: now };
        proof {
            lemma_table_update(self.transactions@, self.bound@, i as int, c);
            self.bound@ = self.bound@.insert(key, c);
        }
        self.transactions[i] = (key, c);
        Ok(())
    }

    /// Takes `text` as the new value of the field that the draft under `key`
    /// is waiting for. A text that is no valid value is refused with that
    /// field named, and nothing changes.
    pub fn receive_value(&mut self, key: TransactionKey, text: &str, m: &Model, now: u64) -> (r:
        Result<(), BotError>)
        requires
            old(self).wf(),
        ensures
            final(self).wf(),
            match receive_step(old(self).conversations(), key, text@, *m, now) {
                Ok(cs) => r == Ok::<(), BotError>(()) && final(self).conversations() == cs
                    && final(self).pending() == old(self).pending() && final(self).next_token()
                    == old(self).next_token(),
                Err(e) => r == Err::<(), BotError>(e) && *final(self) == *old(self),
            },
    {
        match self.state(key) {
            None => Err(BotError::NoSuchDraft),
            Some(TransactionState::AwaitingFieldValue(f)) => match parse_value(f, text, m) {
                Some(v) => self.apply_value(key, v, now),
                None => Err(BotError::InvalidValue(f)),
            },
            Some(_) => Err(BotError::InputNotExpected),
        }
    }

    /// Commits the draft under `key` to the store. On success the draft is
    /// removed and the new expense id returned; where the store refuses it,
    /// the draft stays as it was, waiting for a field choice.
    pub fn commit(&mut self, key: TransactionKey, m: &mut Model) -> (r: Result<u64, BotError>)
        requires
            old(self).wf(),
            old(m).wf(),
        ensures
            final(self).wf(),
            final(m).wf(),
            r == commit_step(old(self).conversations(), key, *old(m)),
            r matches Ok(id) ==> {
                &&& final(self).conversations() == old(self).conversations().remove(key)
                &&& final(self).pending() == old(self).pending()
                &&& final(self).next_token() == old(self).next_token()
                &&& final(m).expenses() == old(m).expenses().push(
                    crate::model::expense_of(old(self).conversations()[key].draft, id),
                )
                &&& final(m).next_expense_id() == id + 1
                &&& final(m).is_ephemeral() == old(m).is_ephemeral()
                &&& final(m).currencies() == old(m).currencies()
                &&& final(m).accounts() == old(m).accounts()
                &&& final(m).categories() == old(m).categories()
                &&& final(m).users() == old(m).users()
            },
            r is Err ==> *final(self) == *old(self) && *final(m) == *old(m),
    {
        match self.find_key(key) {
            None => Err(BotError::NoSuchDraft),
            Some(i) => {
                proof {
                    assert(self.bound@[key] == self.transactions@[i as int].1);
                }
                if self.transactions[i].1.state != TransactionState::AwaitingFieldChoice {
                    return Err(BotError::InputNotExpected);
                }
                match m.commit_expense(&self.transactions[i].1.draft) {
                    Err(e) => Err(BotError::Store(e)),
                    Ok(id) => {
                        proof {
                            lemma_table_remove(self.transactions@, self.bound@, i as int);
                            self.bound@ = self.bound@.remove(key);
                        }
                        self.transactions.remove(i);
                        Ok(id)
                    },
                }
            },
        }
    }

    /// Acts on a callback identifier: an edit action selects its field, and
    /// commit commits. An identifier outside the set is refused and nothing
    /// changes.
    pub fn handle_callback(&mut self, key: TransactionKey, action: &str, m: &mut Model, now: u64) -> (r:
        Result<CallbackOutcome, BotError>)
        requires
            old(self).wf(),
            old(m).wf(),
        ensures
            final(self).wf(),
            final(m).wf(),
            action_named(action@) is None ==> r == Err::<CallbackOutcome, BotError>(
                BotError::UnknownCallbackAction,
            ),
            action_named(action@) matches Some(CallbackAction::Edit(f)) ==> *final(m) == *old(m)
                && match select_step(old(self).conversations(), key, f, now) {
                Ok(cs) => r == Ok::<CallbackOutcome, BotError>(CallbackOutcome::FieldSelected(f))
                    && final(self).conversations() == cs && final(self).pending() == old(
                    self,
                ).pending() && final(self).next_token() == old(self).next_token(),
                Err(e) => r == Err::<CallbackOutcome, BotError>(e),
            },
            action_named(action@) == Some(CallbackAction::Commit) ==> match commit_step(
                old(self).conversations(),
                key,
                *old(m),
            ) {
                Ok(id) => r == Ok::<CallbackOutcome, BotError>(CallbackOutcome::Committed(id)) && {
                    &&& final(self).conversations() == old(self).conversations().remove(key)
                    &&& final(self).pending() == old(self).pending()
                    &&& final(self).next_token() == old(self).next_token()
                    &&& final(m).expenses() == old(m).expenses().push(
                        crate::model::expense_of(old(self).conversations()[key].draft, id),
                    )
                    &&& final(m).next_expense_id() == id + 1
                    &&& final(m).is_ephemeral() == old(m).is_ephemeral()
                    &&& final(m).currencies() == old(m).currencies()
                    &&& final(m).accounts() == old(m).accounts()
                    &&& final(m).categories() == old(m).categories()
                    &&& final(m).users() == old(m).users()
                },
                Err(e) => r == Err::<CallbackOutcome, BotError>(e),
            },
            r is Err ==> *final(self) == *old(self) && *final(m) == *old(m),
    {
        match parse_callback(action) {
            Err(e) => Err(e),
            Ok(CallbackAction::Edit(f)) => match self.select(key, f, now) {
                Ok(f) => Ok(CallbackOutcome::FieldSelected(f)),
                Err(e) => Err(e),
            },
            Ok(CallbackAction::Commit) => match self.commit(key, m) {
                Ok(id) => Ok(CallbackOutcome::Committed(id)),
                Err(e) => Err(e),
            },
        }
    }

    /// Makes a draft from a text that reads as an amount, and keeps it under a
    /// new token until `bind_draft` gives it a key. Nothing changes where the
    /// text is no amount or the store has no defaults to offer.
    pub fn start_draft(
        &mut self,
        m: &Model,
        text: &str,
        user_id: u64,
        user_name: String,
        timestamp: i64,
        now: u64,
    ) -> (r: Result<u64, BotError>)
        requires
            old(self).wf(),
        ensures
            final(self).wf(),
            amount_of(text@) is None ==> r == Err::<u64, BotError>(
                BotError::InvalidValue(Field::Amount),
            ),
            amount_of(text@) is Some && !m.has_defaults() ==> r == Err::<u64, BotError>(
                BotError::Store(StoreError::NoReferenceData),
            ),
            amount_of(text@) is Some && m.has_defaults() && old(self).next_token() == u64::MAX
                ==> r == Err::<u64, BotError>(BotError::TokensExhausted),
            r is Err ==> *final(self) == *old(self),
            r is Ok <==> (amount_of(text@) is Some && m.has_defaults() && old(self).next_token()
                < u64::MAX),
            r matches Ok(t) ==> {
                &&& t == old(self).next_token()
                &&& !old(self).pending().contains_key(t)
                &&& final(self).next_token() == t + 1
                &&& final(self).conversations() == old(self).conversations()
                &&& final(self).pending().dom() == old(self).pending().dom().insert(t)
                &&& forall|x: u64| #[trigger]
                    old(self).pending().contains_key(x) ==> final(self).pending()[x] == old(
                        self,
                    ).pending()[x]
                &&& final(self).pending()[t].state == TransactionState::AwaitingFieldChoice
                &&& final(self).pending()[t].last_activity == now
                &&& is_fresh_draft(
                    final(self).pending()[t].draft,
                    *m,
                    amount_of(text@).unwrap(),
                    user_id,
                    user_name,
                    timestamp,
                )
            },
    {
        let amount = match parse_amount(text) {
            Some(a) => a,
            None => {
                return Err(BotError::InvalidValue(Field::Amount));
            },
        };
        let d = match m.new_draft(amount, user_id, user_name, timestamp) {
            Ok(d) => d,
            Err(e) => {
                return Err(BotError::Store(e));
            },
        };
        if self.next_token == u64::MAX {
            return Err(BotError::TokensExhausted);
        }
        let t = self.next_token;
        let c = Conversation { draft: d, state: TransactionState::AwaitingFieldChoice, last_activity: now };
        proof {
            lemma_table_push(self.pending@, self.waiting@, t, c);
            self.waiting@ = self.waiting@.insert(t, c);
        }
        self.pending.push((t, c));
        self.next_token = t + 1;
        assert(!old(self).waiting@.contains_key(t));
        proof {
            assert(self.waiting@.dom() =~= old(self).waiting@.dom().insert(t));
        }
        Ok(t)
    }

    /// Binds the draft waiting under `token` to the prompt message that now
    /// carries it: its key is the draft's user and that message.
    pub fn bind_draft(&mut self, token: u64, message_id: u64) -> (r: Result<TransactionKey, BotError>)
        requires
            old(self).wf(),
        ensures
            final(self).wf(),
            !old(self).pending().contains_key(token) ==> r == Err::<TransactionKey, BotError>(
                BotError::NoSuchDraft,
            ),
            old(self).pending().contains_key(token) && old(self).conversations().contains_key(
                TransactionKey {
                    telegram_user_id: old(self).pending()[token].draft.user_id,
                    message_id,
                },
            ) ==> r == Err::<TransactionKey, BotError>(BotError::KeyInUse),
            old(self).pending().contains_key(token) && !old(self).conversations().contains_key(
                TransactionKey {
                    telegram_user_id: old(self).pending()[token].draft.user_id,
                    message_id,
                },
            ) ==> r is Ok,
            r is Err ==> *final(self) == *old(self),
            r matches Ok(k) ==> {
                &&& old(self).pending().contains_key(token)
                &&& k == (TransactionKey {
                    telegram_user_id: old(self).pending()[token].draft.user_id,
                    message_id,
                })
                &&& !old(self).conversations().contains_key(k)
                &&& final(self).conversations() == old(self).conversations().insert(
                    k,
                    old(self).pending()[token],
                )
                &&& final(self).pending() == old(self).pending().remove(token)
                &&& final(self).next_token() == old(self).next_token()
            },
    {
        let i = match self.find_token(token) {
            Some(i) => i,
            None => {
                return Err(BotError::NoSuchDraft);
            },
        };
        proof {
            assert(self.waiting@[token] == self.pending@[i as int].1);
        }
        let key = TransactionKey {
            telegram_user_id: self.pending[i].1.draft.user_id,
            message_id,
        };
        if self.find_key(key).is_some() {
            return Err(BotError::KeyInUse);
        }
        proof {
            lemma_table_remove(self.pending@, self.waiting@, i as int);
            lemma_table_push(self.transactions@, self.bound@, key, self.pending@[i as int].1);
        }
        let (_, c) = self.pending.remove(i);
        proof {
            self.waiting@ = self.waiting@.remove(token);
            self.bound@ = self.bound@.insert(key, c);
            assert(old(self).waiting@.contains_key(token));
        }
        self.transactions.push((key, c));
        Ok(key)
    }

    /// Discards every draft, bound or waiting, that has had no activity for
    /// `ttl` seconds at time `now`, and releases its key or token.
    pub fn evict_expired(&mut self, now: u64, ttl: u64)
        requires
            old(self).wf(),
        ensures
            final(self).wf(),
            final(self).conversations() == live_part(old(self).conversations(), now, ttl),
            final(self).pending() == live_part(old(self).pending(), now, ttl),
            final(self).next_token() == old(self).next_token(),
    {
        let b = evict_table(&mut self.transactions, self.bound, now, ttl);
        let w = evict_table(&mut self.pending, self.waiting, now, ttl);
        self.bound = b;
        self.waiting = w;
    }

    /// A key of this user's that waits for a field value, if there is one.
    pub fn awaiting_value_key(&self, user_id: u64) -> (r: Option<TransactionKey>)
        requires
            self.wf(),
        ensures
            r matches Some(k) ==> k.telegram_user_id == user_id && self.conversations().contains_key(k)
                && self.conversations()[k].state is AwaitingFieldValue,
            r is None ==> forall|k: TransactionKey| #[trigger] self.conversations().contains_key(k)
                && k.telegram_user_id == user_id ==> !(self.conversations()[k].state is AwaitingFieldValue),
    {
        let mut i: usize = 0;
        while i < self.transactions.len()
            invariant
                self.wf(),
                i <= self.transactions@.len(),
                forall|j: int| 0 <= j < i ==> (#[trigger] self.transactions@[j]).0.telegram_user_id != user_id
                    || !(self.transactions@[j].1.state is AwaitingFieldValue),
            decreases self.transactions@.len() - i,
        {
            let k = self.transactions[i].0;
            if k.telegram_user_id == user_id {
                if let TransactionState::AwaitingFieldValue(_) = self.transactions[i].1.state {
                    return Some(k);
                }
            }
            i = i + 1;
        }
        proof {
            assert forall|k: TransactionKey| #[trigger] self.conversations().contains_key(k)
                && k.telegram_user_id == user_id implies !(self.conversations()[k].state is AwaitingFieldValue) by {
                let j = choose|j: int| 0 <= j < self.transactions@.len() && (#[trigger] self.transactions@[j]).0 == k;
            }
        }
        None
    }

    /// The draft bound to `key`.
    pub fn draft(&self, key: TransactionKey) -> (r: Option<ActiveTransaction>)
        requires
            self.wf(),
        ensures
            r is None <==> !self.conversations().contains_key(key),
            r matches Some(d) ==> d == self.conversations()[key].draft,
    {
        match self.find_key(key) {
            Some(i) => Some(self.transactions[i].1.draft.duplicate()),
            None => None,
        }
    }

    /// Where the conversation under `key` stands.
    pub fn state(&self, key: TransactionKey) -> (r: Option<TransactionState>)
        requires
            self.wf(),
        ensures
            r is None <==> !self.conversations().contains_key(key),
            r matches Some(st) ==> st == self.conversations()[key].state,
    {
        match self.find_key(key) {
            Some(i) => Some(self.transactions[i].1.state),
            None => None,
        }
    }

    /// The draft waiting under `token`.
    pub fn pending_draft(&self, token: u64) -> (r: Option<ActiveTransaction>)
        requires
            self.wf(),
        ensures
            r is None <==> !self.pending().contains_key(token),
            r matches Some(d) ==> d == self.pending()[token].draft,
    {
        match self.find_token(token) {
            Some(i) => Some(self.pending[i].1.draft.duplicate()),
            None => None,
        }
    }
}

/// The drafts that the conversations hold.
pub open spec fn drafts_of(cs: Map<TransactionKey, Conversation>) -> Map<TransactionKey, ActiveTransaction> {
    cs.map_values(|c: Conversation| c.draft)
}

/// One edit: the draft under `k`, if any, gets value `v`.
pub open spec fn edit_step(
    ds: Map<TransactionKey, ActiveTransaction>,
    k: TransactionKey,
    v: FieldValue,
) -> Map<TransactionKey, ActiveTransaction> {
    if ds.contains_key(k) {
        ds.insert(k, with_value(ds[k], v))
    } else {
        ds
    }
}

/// The drafts after a run of edits, over any keys, each applied as one step
/// in arrival order.
pub open spec fn run_edits(
    ds: Map<TransactionKey, ActiveTransaction>,
    evs: Seq<(TransactionKey, FieldValue)>,
) -> Map<TransactionKey, ActiveTransaction>
    decreases evs.len(),
{
    if evs.len() == 0 {
        ds
    } else {
        edit_step(run_edits(ds, evs.drop_last()), evs.last().0, evs.last().1)
    }
}

/// A draft with values applied in order.
pub open spec fn apply_values(d: ActiveTransaction, vs: Seq<FieldValue>) -> ActiveTransaction
    decreases vs.len(),
{
    if vs.len() == 0 {
        d
    } else {
        with_value(apply_values(d, vs.drop_last()), vs.last())
    }
}

/// The values addressed to `k`, in arrival order.
pub open spec fn edits_for(evs: Seq<(TransactionKey, FieldValue)>, k: TransactionKey) -> Seq<FieldValue>
    decreases evs.len(),
{
    if evs.len() == 0 {
        Seq::empty()
    } else if evs.last().0 == k {
        edits_for(evs.drop_last(), k).push(evs.last().1)
    } else {
        edits_for(evs.drop_last(), k)
    }
}

/// A value accepted for a draft is exactly one edit step on the drafts, and
/// touches no other key.
pub proof fn lemma_received_value_is_one_edit(
    cs: Map<TransactionKey, Conversation>,
    key: TransactionKey,
    text: Seq<char>,
    m: Model,
    now: u64,
)
    requires
        receive_step(cs, key, text, m, now) is Ok,
    ensures
        cs.contains_key(key),
        cs[key].state is AwaitingFieldValue,
        value_for(cs[key].state->AwaitingFieldValue_0, text, m) is Some,
        drafts_of(receive_step(cs, key, text, m, now)->Ok_0) == edit_step(
            drafts_of(cs),
            key,
            value_for(cs[key].state->AwaitingFieldValue_0, text, m)->Some_0,
        ),
{
    assert(drafts_of(receive_step(cs, key, text, m, now)->Ok_0) =~= edit_step(
        drafts_of(cs),
        key,
        value_for(cs[key].state->AwaitingFieldValue_0, text, m)->Some_0,
    ));
}

/// Selecting a field changes no draft.
pub proof fn lemma_select_keeps_drafts(
    cs: Map<TransactionKey, Conversation>,
    key: TransactionKey,
    f: Field,
    now: u64,
)
    requires
        select_step(cs, key, f, now) is Ok,
    ensures
        drafts_of(select_step(cs, key, f, now)->Ok_0) == drafts_of(cs),
{
    assert(drafts_of(select_step(cs, key, f, now)->Ok_0) =~= drafts_of(cs));
}

/// Whatever the interleaving of edits across keys, each draft ends as its
/// own edits applied in the order they arrived; drafts under other keys
/// have no effect on it.
pub proof fn lemma_edits_per_key(
    ds: Map<TransactionKey, ActiveTransaction>,
    evs: Seq<(TransactionKey, FieldValue)>,
    k: TransactionKey,
)
    requires
        ds.contains_key(k),
    ensures
        run_edits(ds, evs).contains_key(k),
        run_edits(ds, evs)[k] == apply_values(ds[k], edits_for(evs, k)),
    decreases evs.len(),
{
    if evs.len() > 0 {
        lemma_edits_per_key(ds, evs.drop_last(), k);
        let vs = edits_for(evs, k);
        if evs.last().0 == k {
            assert(vs.drop_last() =~= edits_for(evs.drop_last(), k));
        }
    }
}

/// Two edits of one draft never mix: on the same field the later replaces
/// the earlier whole, and on different fields each keeps its own value.
pub proof fn lemma_same_key_edits_do_not_mix(d: ActiveTransaction, v1: FieldValue, v2: FieldValue)
    ensures
        field_of(v1) == field_of(v2) ==> with_value(with_value(d, v1), v2) == with_value(d, v2),
        field_of(v1) != field_of(v2) ==> with_value(with_value(d, v1), v2) == with_value(
            with_value(d, v2),
            v1,
        ),
{
}

/// An event addressed to one conversation, as its handler receives it: a
/// field selection, or a text taken as a field value, each with its time.
pub ghost enum Event {
    Select(TransactionKey, Field, u64),
    Value(TransactionKey, Seq<char>, u64),
}

pub open spec fn event_key(e: Event) -> TransactionKey {
    match e {
        Event::Select(k, _, _) => k,
        Event::Value(k, _, _) => k,
    }
}

/// One event as `select` or `receive_value` applies it: whole, or where it
/// is refused, not at all.
pub open spec fn event_step(
    cs: Map<TransactionKey, Conversation>,
    e: Event,
    m: Model,
) -> Map<TransactionKey, Conversation> {
    match e {
        Event::Select(k, f, now) => match select_step(cs, k, f, now) {
            Ok(n) => n,
            Err(_) => cs,
        },
        Event::Value(k, text, now) => match receive_step(cs, k, text, m, now) {
            Ok(n) => n,
            Err(_) => cs,
        },
    }
}

/// The conversations after a run of events, applied one at a time in
/// arrival order.
pub open spec fn run_events(
    cs: Map<TransactionKey, Conversation>,
    evs: Seq<Event>,
    m: Model,
) -> Map<TransactionKey, Conversation>
    decreases evs.len(),
{
    if evs.len() == 0 {
        cs
    } else {
        event_step(run_events(cs, evs.drop_last(), m), evs.last(), m)
    }
}

/// The events addressed to `k`, in arrival order.
pub open spec fn events_for(evs: Seq<Event>, k: TransactionKey) -> Seq<Event>
    decreases evs.len(),
{
    if evs.len() == 0 {
        Seq::empty()
    } else if event_key(evs.last()) == k {
        events_for(evs.drop_last(), k).push(evs.last())
    } else {
        events_for(evs.drop_last(), k)
    }
}

pub open spec fn agree_at(
    a: Map<TransactionKey, Conversation>,
    b: Map<TransactionKey, Conversation>,
    k: TransactionKey,
) -> bool {
    &&& a.contains_key(k) == b.contains_key(k)
    &&& a.contains_key(k) ==> a[k] == b[k]
}

proof fn lemma_event_step_local(
    a: Map<TransactionKey, Conversation>,
    b: Map<TransactionKey, Conversation>,
    e: Event,
    m: Model,
    k: TransactionKey,
)
    requires
        agree_at(a, b, k),
    ensures
        event_key(e) == k ==> agree_at(event_step(a, e, m), event_step(b, e, m), k),
        event_key(e) != k ==> agree_at(event_step(a, e, m), a, k),
{
}

/// Whatever events for other conversations are interleaved with them, the
/// conversation under `k` ends exactly as its own events alone, applied in
/// arrival order, leave it.
pub proof fn lemma_events_per_key(
    cs: Map<TransactionKey, Conversation>,
    evs: Seq<Event>,
    m: Model,
    k: TransactionKey,
)
    ensures
        agree_at(run_events(cs, evs, m), run_events(cs, events_for(evs, k), m), k),
    decreases evs.len(),
{
    if evs.len() > 0 {
        lemma_events_per_key(cs, evs.drop_last(), m, k);
        let a = run_events(cs, evs.drop_last(), m);
        let b = run_events(cs, events_for(evs.drop_last(), k), m);
        let e = evs.last();
        lemma_event_step_local(a, b, e, m, k);
        if event_key(e) == k {
            let f = events_for(evs, k);
            assert(f.drop_last() =~= events_for(evs.drop_last(), k));
        }
    }
}

/// Two events for one conversation, the first arriving first, leave it as
/// the second applied whole to what the first left whole.
pub proof fn lemma_two_events_in_order(
    cs: Map<TransactionKey, Conversation>,
    e1: Event,
    e2: Event,
    m: Model,
)
    requires
        event_key(e1) == event_key(e2),
    ensures
        run_events(cs, seq![e1, e2], m) == event_step(event_step(cs, e1, m), e2, m),
{
    let one = seq![e1];
    let two = seq![e1, e2];
    assert(two.drop_last() =~= one);
    assert(one.drop_last() =~= Seq::<Event>::empty());
    assert(run_events(cs, one.drop_last(), m) == cs);
    assert(run_events(cs, one, m) == event_step(cs, e1, m));
    assert(run_events(cs, two, m) == event_step(run_events(cs, one, m), e2, m));
}

proof fn lemma_run_events_concat(
    cs: Map<TransactionKey, Conversation>,
    a: Seq<Event>,
    b: Seq<Event>,
    m: Model,
)
    ensures
        run_events(cs, a + b, m) == run_events(run_events(cs, a, m), b, m),
    decreases b.len(),
{
    if b.len() == 0 {
        assert(a + b =~= a);
    } else {
        lemma_run_events_concat(cs, a, b.drop_last(), m);
        assert((a + b).drop_last() =~= a + b.drop_last());
    }
}

/// The events of a run of edits on `k`: for each edit, the selection of its
/// field, then its text, both at its time.
pub open spec fn edit_events(k: TransactionKey, es: Seq<(Field, Seq<char>, u64)>) -> Seq<Event>
    decreases es.len(),
{
    if es.len() == 0 {
        Seq::empty()
    } else {
        edit_events(k, es.drop_last()) + seq![
            Event::Select(k, es.last().0, es.last().2),
            Event::Value(k, es.last().1, es.last().2),
        ]
    }
}

/// The values that the texts of a run of edits resolve to.
pub open spec fn edit_values(es: Seq<(Field, Seq<char>, u64)>, m: Model) -> Seq<FieldValue> {
    es.map_values(|e: (Field, Seq<char>, u64)| value_for(e.0, e.1, m)->Some_0)
}

/// A run of edits on a draft waiting for a field choice, each choosing a
/// field and then sending a valid value for it, leaves the draft with every
/// value applied in arrival order, waiting for a field choice again.
pub proof fn lemma_edit_run(
    cs: Map<TransactionKey, Conversation>,
    k: TransactionKey,
    es: Seq<(Field, Seq<char>, u64)>,
    m: Model,
)
    requires
        cs.contains_key(k),
        cs[k].state == TransactionState::AwaitingFieldChoice,
        forall|i: int| 0 <= i < es.len() ==> value_for((#[trigger] es[i]).0, es[i].1, m) is Some,
    ensures
        run_events(cs, edit_events(k, es), m).contains_key(k),
        run_events(cs, edit_events(k, es), m)[k].draft == apply_values(
            cs[k].draft,
            edit_values(es, m),
        ),
        run_events(cs, edit_events(k, es), m)[k].state == TransactionState::AwaitingFieldChoice,
    decreases es.len(),
{
    if es.len() > 0 {
        let init = es.drop_last();
        assert forall|i: int| 0 <= i < init.len() implies value_for(
            (#[trigger] init[i]).0,
            init[i].1,
            m,
        ) is Some by {
            assert(init[i] == es[i]);
        }
        lemma_edit_run(cs, k, init, m);
        let (f, t, n) = es.last();
        assert(value_for(es[es.len() - 1].0, es[es.len() - 1].1, m) is Some);
        let pair = seq![Event::Select(k, f, n), Event::Value(k, t, n)];
        lemma_run_events_concat(cs, edit_events(k, init), pair, m);
        let before = run_events(cs, edit_events(k, init), m);
        lemma_two_events_in_order(before, Event::Select(k, f, n), Event::Value(k, t, n), m);
        let vs = edit_values(es, m);
        assert(vs.drop_last() =~= edit_values(init, m));
        assert(vs.last() == value_for(f, t, m)->Some_0);
    }
}

} // verus!
