//! The strict payments engine: routes each typed transaction against
//! the ledger, the transaction store and the dispute tracker, and
//! reports a typed error for every rejected transaction. A rejected
//! transaction mutates nothing, except that a rejected deposit or
//! withdrawal may still have created the (empty) account it named.

use std::collections::{HashMap, HashSet};

use vstd::prelude::*;

use crate::client::client_account::ClientAccount;
use crate::engine::error::EngineError;
use crate::storage::TransactionsDatabase;
use crate::transaction::{Transaction, TransactionView, Type};
use crate::types::{AccountView, Amount, ClientId, TransactionId};

verus! {

broadcast use {vstd::std_specs::hash::group_hash_axioms, crate::types::lemma_amount_fits_i64};

/// The mathematical state of the engine: the ledger of accounts, the
/// order in which clients first appeared, the stored deposits, and the
/// set of transaction ids currently under dispute.
#[verifier::ext_equal]
pub ghost struct EngineView {
    pub clients: Map<ClientId, AccountView>,
    pub order: Seq<ClientId>,
    pub store: Map<TransactionId, (ClientId, int)>,
    pub disputes: Set<TransactionId>,
}

impl EngineView {
    /// The state of a freshly created engine: nothing known.
    pub open spec fn initial() -> EngineView {
        EngineView {
            clients: Map::empty(),
            order: Seq::empty(),
            store: Map::empty(),
            disputes: Set::empty(),
        }
    }

    /// Well-formedness, maintained by every engine operation: every
    /// account is balanced, the client order lists exactly the known
    /// clients once each, every stored deposit is non-negative and
    /// owned by a known client, and every disputed id is stored.
    pub open spec fn wf(self) -> bool {
        &&& forall|c: ClientId|
            self.clients.contains_key(c) ==> (#[trigger] self.clients[c]).balanced()
        &&& self.order.no_duplicates()
        &&& forall|c: ClientId|
            #![trigger self.clients.contains_key(c)]
            #![trigger self.order.contains(c)]
            self.clients.contains_key(c) <==> self.order.contains(c)
        &&& forall|t: TransactionId|
            self.store.contains_key(t) ==> ((#[trigger] self.store[t]).1 >= 0
                && self.clients.contains_key(self.store[t].0))
        &&& forall|t: TransactionId| #[trigger]
            self.disputes.contains(t) ==> self.store.contains_key(t)
    }
}

/// The account of client `c`, or a fresh account if `c` is unknown.
pub open spec fn account_or_new(s: EngineView, c: ClientId) -> AccountView {
    if s.clients.contains_key(c) {
        s.clients[c]
    } else {
        AccountView::new_account()
    }
}

/// The state with client `c` present: unchanged if already known,
/// otherwise extended with a fresh account at the end of the order.
pub open spec fn with_account(s: EngineView, c: ClientId) -> EngineView {
    if s.clients.contains_key(c) {
        s
    } else {
        EngineView {
            clients: s.clients.insert(c, AccountView::new_account()),
            order: s.order.push(c),
            ..s
        }
    }
}

/// Outcome of a deposit transaction. The id must be unused, the amount
/// present; the named account is created if missing (and stays created
/// even when it then rejects the deposit); on success the deposit is
/// recorded in the store.
pub open spec fn deposit_step(s: EngineView, t: TransactionView) -> (EngineView, Result<
    (),
    EngineError,
>) {
    if s.store.contains_key(t.tx) {
        (s, Err(EngineError::TransactionAlreadyExists))
    } else {
        match t.amount {
            None => (s, Err(EngineError::InvalidLedger(t.tx))),
            Some(a) => {
                let s1 = with_account(s, t.client);
                let (acct, r) = ClientAccount::deposit_spec(account_or_new(s, t.client), a);
                match r {
                    Err(e) => (s1, Err(EngineError::ClientAccountError(e))),
                    Ok(_) => (
                        EngineView {
                            clients: s1.clients.insert(t.client, acct),
                            store: s1.store.insert(t.tx, (t.client, a)),
                            ..s1
                        },
                        Ok(()),
                    ),
                }
            },
        }
    }
}

/// Outcome of a withdrawal transaction. Like a deposit, but nothing is
/// ever stored: withdrawals cannot be disputed.
pub open spec fn withdrawal_step(s: EngineView, t: TransactionView) -> (EngineView, Result<
    (),
    EngineError,
>) {
    if s.store.contains_key(t.tx) {
        (s, Err(EngineError::TransactionAlreadyExists))
    } else {
        match t.amount {
            None => (s, Err(EngineError::InvalidLedger(t.tx))),
            Some(a) => {
                let s1 = with_account(s, t.client);
                let (acct, r) = ClientAccount::withdrawal_spec(account_or_new(s, t.client), a);
                match r {
                    Err(e) => (s1, Err(EngineError::ClientAccountError(e))),
                    Ok(_) => (EngineView { clients: s1.clients.insert(t.client, acct), ..s1 }, Ok(
                        (),
                    )),
                }
            },
        }
    }
}

/// The shared lookup of the dispute lifecycle: the stored deposit must
/// exist, belong to the requesting client, and that client must have
/// an account. On success, the stored amount and the account.
pub open spec fn lookup_target(s: EngineView, t: TransactionView) -> Result<
    (int, AccountView),
    EngineError,
> {
    if !s.store.contains_key(t.tx) {
        Err(EngineError::TransactionNotFound(t.tx))
    } else if s.store[t.tx].0 != t.client {
        Err(EngineError::NotClientOwnedTransaction(t.tx, t.client))
    } else if !s.clients.contains_key(t.client) {
        Err(EngineError::ClientNotFound)
    } else {
        Ok((s.store[t.tx].1, s.clients[t.client]))
    }
}

/// Outcome of a dispute transaction. The id must not already be under
/// dispute; the lookup checks follow; on success the stored amount
/// moves from available to held and the id joins the dispute set.
pub open spec fn dispute_step(s: EngineView, t: TransactionView) -> (EngineView, Result<
    (),
    EngineError,
>) {
    if s.disputes.contains(t.tx) {
        (s, Err(EngineError::TransactionAlreadyDisputed(t.tx)))
    } else {
        match lookup_target(s, t) {
            Err(e) => (s, Err(e)),
            Ok((a, acct0)) => {
                let (acct, r) = ClientAccount::dispute_spec(acct0, a);
                match r {
                    Err(e) => (s, Err(EngineError::ClientAccountError(e))),
                    Ok(_) => (
                        EngineView {
                            clients: s.clients.insert(t.client, acct),
                            disputes: s.disputes.insert(t.tx),
                            ..s
                        },
                        Ok(()),
                    ),
                }
            },
        }
    }
}

/// Outcome of a resolve transaction. The id must be under dispute; the
/// lookup checks follow; on success the stored amount moves back from
/// held to available and the id leaves the dispute set.
pub open spec fn resolve_step(s: EngineView, t: TransactionView) -> (EngineView, Result<
    (),
    EngineError,
>) {
    if !s.disputes.contains(t.tx) {
        (s, Err(EngineError::TransactionNotDisputed(t.tx)))
    } else {
        match lookup_target(s, t) {
            Err(e) => (s, Err(e)),
            Ok((a, acct0)) => {
                let (acct, r) = ClientAccount::resolve_spec(acct0, a);
                match r {
                    Err(e) => (s, Err(EngineError::ClientAccountError(e))),
                    Ok(_) => (
                        EngineView {
                            clients: s.clients.insert(t.client, acct),
                            disputes: s.disputes.remove(t.tx),
                            ..s
                        },
                        Ok(()),
                    ),
                }
            },
        }
    }
}

/// Outcome of a chargeback transaction. The id must be under dispute;
/// the lookup checks follow; on success the stored amount leaves the
/// held and total funds, the account is frozen, and the id leaves the
/// dispute set for good.
pub open spec fn chargeback_step(s: EngineView, t: TransactionView) -> (EngineView, Result<
    (),
    EngineError,
>) {
    if !s.disputes.contains(t.tx) {
        (s, Err(EngineError::TransactionNotDisputed(t.tx)))
    } else {
        match lookup_target(s, t) {
            Err(e) => (s, Err(e)),
            Ok((a, acct0)) => {
                let (acct, r) = ClientAccount::chargeback_spec(acct0, a);
                match r {
                    Err(e) => (s, Err(EngineError::ClientAccountError(e))),
                    Ok(_) => (
                        EngineView {
                            clients: s.clients.insert(t.client, acct),
                            disputes: s.disputes.remove(t.tx),
                            ..s
                        },
                        Ok(()),
                    ),
                }
            },
        }
    }
}

/// Outcome of any transaction: dispatch on its kind.
pub open spec fn handle_step(s: EngineView, t: TransactionView) -> (EngineView, Result<
    (),
    EngineError,
>) {
    match t.kind {
        Type::Deposit => deposit_step(s, t),
        Type::Withdrawal => withdrawal_step(s, t),
        Type::Dispute => dispute_step(s, t),
        Type::Resolve => resolve_step(s, t),
        Type::Chargeback => chargeback_step(s, t),
    }
}

/// Machine-limit bound for a deposit transaction: when the deposit
/// reaches the account, the grown balances must fit.
pub open spec fn deposit_tx_fits(s: EngineView, t: TransactionView) -> bool {
    (!s.store.contains_key(t.tx) && t.amount is Some) ==> ClientAccount::deposit_fits(
        account_or_new(s, t.client),
        t.amount->Some_0,
    )
}

/// Machine-limit bound for a withdrawal transaction.
pub open spec fn withdrawal_tx_fits(s: EngineView, t: TransactionView) -> bool {
    (!s.store.contains_key(t.tx) && t.amount is Some) ==> ClientAccount::withdrawal_fits(
        account_or_new(s, t.client),
        t.amount->Some_0,
    )
}

/// Machine-limit bound for a dispute transaction.
pub open spec fn dispute_tx_fits(s: EngineView, t: TransactionView) -> bool {
    (!s.disputes.contains(t.tx) && lookup_target(s, t) is Ok) ==> ClientAccount::dispute_fits(
        lookup_target(s, t)->Ok_0.1,
        lookup_target(s, t)->Ok_0.0,
    )
}

/// Machine-limit bound for a resolve transaction.
pub open spec fn resolve_tx_fits(s: EngineView, t: TransactionView) -> bool {
    (s.disputes.contains(t.tx) && lookup_target(s, t) is Ok) ==> ClientAccount::resolve_fits(
        lookup_target(s, t)->Ok_0.1,
        lookup_target(s, t)->Ok_0.0,
    )
}

/// Machine-limit bound for a chargeback transaction.
pub open spec fn chargeback_tx_fits(s: EngineView, t: TransactionView) -> bool {
    (s.disputes.contains(t.tx) && lookup_target(s, t) is Ok) ==> ClientAccount::chargeback_fits(
        lookup_target(s, t)->Ok_0.1,
        lookup_target(s, t)->Ok_0.0,
    )
}

/// Machine-limit bound for any transaction: dispatch on its kind.
pub open spec fn tx_fits(s: EngineView, t: TransactionView) -> bool {
    match t.kind {
        Type::Deposit => deposit_tx_fits(s, t),
        Type::Withdrawal => withdrawal_tx_fits(s, t),
        Type::Dispute => dispute_tx_fits(s, t),
        Type::Resolve => resolve_tx_fits(s, t),
        Type::Chargeback => chargeback_tx_fits(s, t),
    }
}

/// The views of the accounts held in a ledger map.
pub open spec fn account_views(m: Map<ClientId, ClientAccount>) -> Map<ClientId, AccountView> {
    m.map_values(|a: ClientAccount| a@)
}

/// The views of the records held in a store map.
pub open spec fn store_views(m: Map<TransactionId, (ClientId, Amount)>) -> Map<
    TransactionId,
    (ClientId, int),
> {
    m.map_values(|p: (ClientId, Amount)| (p.0, p.1@))
}

proof fn lemma_account_views_insert(m: Map<ClientId, ClientAccount>, c: ClientId, a: ClientAccount)
    ensures
        account_views(m.insert(c, a)) == account_views(m).insert(c, a@),
{
    assert(account_views(m.insert(c, a)) =~= account_views(m).insert(c, a@));
}

proof fn lemma_store_views_insert(
    m: Map<TransactionId, (ClientId, Amount)>,
    t: TransactionId,
    p: (ClientId, Amount),
)
    ensures
        store_views(m.insert(t, p)) == store_views(m).insert(t, (p.0, p.1@)),
{
    assert(store_views(m.insert(t, p)) =~= store_views(m).insert(t, (p.0, p.1@)));
}

/// The payments engine: the ledger of accounts, the client order, the
/// transaction store and the dispute tracker, mutated as one unit by
/// strictly sequential dispatch.
pub struct PaymentsEngine {
    clients: HashMap<ClientId, ClientAccount>,
    order: Vec<ClientId>,
    transactions_database: TransactionsDatabase,
    disputes: HashSet<TransactionId>,
}

impl View for PaymentsEngine {
    type V = EngineView;

    closed spec fn view(&self) -> EngineView {
        EngineView {
            clients: account_views(self.clients@),
            order: self.order@,
            store: store_views(self.transactions_database@),
            disputes: self.disputes@,
        }
    }
}

impl PaymentsEngine {
    /// A fresh engine: no accounts, no stored deposits, no disputes.
    pub fn new() -> (r: PaymentsEngine)
        ensures
            r@ == EngineView::initial(),
            r@.wf(),
    {
        let r = PaymentsEngine {
            clients: HashMap::new(),
            order: Vec::new(),
            transactions_database: TransactionsDatabase::new(),
            disputes: HashSet::new(),
        };
        proof {
            assert(r@.clients =~= Map::<ClientId, AccountView>::empty());
            assert(r@.store =~= Map::<TransactionId, (ClientId, int)>::empty());
            assert(r@ =~= EngineView::initial());
        }
        r
    }

    /// Reads the account of `client`, creating it at the end of the
    /// order if missing, and returns a copy.
    fn fetch_or_create_account(&mut self, client: ClientId) -> (r: ClientAccount)
        ensures
            final(self)@ == with_account(old(self)@, client),
            r@ == account_or_new(old(self)@, client),
    {
        let existing = match self.clients.get(&client) {
            Some(a) => Some(*a),
            None => None,
        };
        match existing {
            Some(account) => account,
            None => {
                self.order.push(client);
                let account = ClientAccount::new();
                let ghost m0 = self.clients@;
                self.clients.insert(client, account);
                proof {
                    lemma_account_views_insert(m0, client, account);
                    assert(self@ =~= with_account(old(self)@, client));
                }
                account
            },
        }
    }

    /// Applies a deposit; see [`deposit_step`] for the exact outcome.
    pub fn handle_deposit(&mut self, transaction: Transaction) -> (r: Result<(), EngineError>)
        requires
            deposit_tx_fits(old(self)@, transaction@),
        ensures
            (final(self)@, r) == deposit_step(old(self)@, transaction@),
    {
        if self.transactions_database.contains_key(transaction.transaction_id) {
            return Err(EngineError::TransactionAlreadyExists);
        }
        match transaction.amount {
            None => Err(EngineError::InvalidLedger(transaction.transaction_id)),
            Some(amount) => {
                let mut account = self.fetch_or_create_account(transaction.t_client_id);
                match account.deposit(amount) {
                    Err(e) => Err(EngineError::ClientAccountError(e)),
                    Ok(_) => {
                        let ghost m1 = self.clients@;
                        let ghost db1 = self.transactions_database@;
                        self.clients.insert(transaction.t_client_id, account);
                        self.transactions_database.insert(
                            transaction.transaction_id,
                            (transaction.t_client_id, amount),
                        );
                        proof {
                            lemma_account_views_insert(m1, transaction@.client, account);
                            lemma_store_views_insert(
                                db1,
                                transaction@.tx,
                                (transaction.t_client_id, amount),
                            );
                            assert(self@ =~= deposit_step(old(self)@, transaction@).0);
                        }
                        Ok(())
                    },
                }
            },
        }
    }

    /// Applies a withdrawal; see [`withdrawal_step`] for the exact
    /// outcome.
    pub fn handle_withdrawals(&mut self, transaction: Transaction) -> (r: Result<(), EngineError>)
        requires
            withdrawal_tx_fits(old(self)@, transaction@),
        ensures
            (final(self)@, r) == withdrawal_step(old(self)@, transaction@),
    {
        if self.transactions_database.contains_key(transaction.transaction_id) {
            return Err(EngineError::TransactionAlreadyExists);
        }
        match transaction.amount {
            None => Err(EngineError::InvalidLedger(transaction.transaction_id)),
            Some(amount) => {
                let mut account = self.fetch_or_create_account(transaction.t_client_id);
                match account.withdrawal(amount) {
                    Err(e) => Err(EngineError::ClientAccountError(e)),
                    Ok(_) => {
                        let ghost m1 = self.clients@;
                        self.clients.insert(transaction.t_client_id, account);
                        proof {
                            lemma_account_views_insert(m1, transaction@.client, account);
                            assert(self@ =~= withdrawal_step(old(self)@, transaction@).0);
                        }
                        Ok(())
                    },
                }
            },
        }
    }

    /// Reads the dispute-lifecycle target of `transaction`: the stored
    /// amount and the owning account; see [`lookup_target`].
    fn fetch_target(&self, transaction: &Transaction) -> (r: Result<
        (Amount, ClientAccount),
        EngineError,
    >)
        ensures
            match r {
                Ok((a, acct)) => lookup_target(self@, transaction@) == Ok::<
                    (int, AccountView),
                    EngineError,
                >((a@, acct@)),
                Err(e) => lookup_target(self@, transaction@) == Err::<
                    (int, AccountView),
                    EngineError,
                >(e),
            },
    {
        match self.transactions_database.get(transaction.transaction_id) {
            None => Err(EngineError::TransactionNotFound(transaction.transaction_id)),
            Some((owner, amount)) => {
                if owner != transaction.t_client_id {
                    Err(
                        EngineError::NotClientOwnedTransaction(
                            transaction.transaction_id,
                            transaction.t_client_id,
                        ),
                    )
                } else {
                    match self.clients.get(&transaction.t_client_id) {
                        None => Err(EngineError::ClientNotFound),
                        Some(a) => Ok((amount, *a)),
                    }
                }
            },
        }
    }

    /// Applies a dispute; see [`dispute_step`] for the exact outcome.
    pub fn handle_dispute(&mut self, transaction: Transaction) -> (r: Result<(), EngineError>)
        requires
            dispute_tx_fits(old(self)@, transaction@),
        ensures
            (final(self)@, r) == dispute_step(old(self)@, transaction@),
    {
        if self.disputes.contains(&transaction.transaction_id) {
            return Err(EngineError::TransactionAlreadyDisputed(transaction.transaction_id));
        }
        match self.fetch_target(&transaction) {
            Err(e) => Err(e),
            Ok((amount, mut account)) => {
                match account.dispute(amount) {
                    Err(e) => Err(EngineError::ClientAccountError(e)),
                    Ok(_) => {
                        let ghost m1 = self.clients@;
                        self.clients.insert(transaction.t_client_id, account);
                        self.disputes.insert(transaction.transaction_id);
                        proof {
                            lemma_account_views_insert(m1, transaction@.client, account);
                            assert(self@ =~= dispute_step(old(self)@, transaction@).0);
                        }
                        Ok(())
                    },
                }
            },
        }
    }

    /// Applies a resolve; see [`resolve_step`] for the exact outcome.
    pub fn handle_resolve(&mut self, transaction: Transaction) -> (r: Result<(), EngineError>)
        requires
            resolve_tx_fits(old(self)@, transaction@),
        ensures
            (final(self)@, r) == resolve_step(old(self)@, transaction@),
    {
        if !self.disputes.contains(&transaction.transaction_id) {
            return Err(EngineError::TransactionNotDisputed(transaction.transaction_id));
        }
        match self.fetch_target(&transaction) {
            Err(e) => Err(e),
            Ok((amount, mut account)) => {
                match account.resolve(amount) {
                    Err(e) => Err(EngineError::ClientAccountError(e)),
                    Ok(_) => {
                        let ghost m1 = self.clients@;
                        self.clients.insert(transaction.t_client_id, account);
                        self.disputes.remove(&transaction.transaction_id);
                        proof {
                            lemma_account_views_insert(m1, transaction@.client, account);
                            assert(self@ =~= resolve_step(old(self)@, transaction@).0);
                        }
                        Ok(())
                    },
                }
            },
        }
    }

    /// Applies a chargeback; see [`chargeback_step`] for the exact
    /// outcome.
    pub fn handle_chargeback(&mut self, transaction: Transaction) -> (r: Result<(), EngineError>)
        requires
            chargeback_tx_fits(old(self)@, transaction@),
        ensures
            (final(self)@, r) == chargeback_step(old(self)@, transaction@),
    {
        if !self.disputes.contains(&transaction.transaction_id) {
            return Err(EngineError::TransactionNotDisputed(transaction.transaction_id));
        }
        match self.fetch_target(&transaction) {
            Err(e) => Err(e),
            Ok((amount, mut account)) => {
                match account.chargeback(amount) {
                    Err(e) => Err(EngineError::ClientAccountError(e)),
                    Ok(_) => {
                        let ghost m1 = self.clients@;
                        self.clients.insert(transaction.t_client_id, account);
                        self.disputes.remove(&transaction.transaction_id);
                        proof {
                            lemma_account_views_insert(m1, transaction@.client, account);
                            assert(self@ =~= chargeback_step(old(self)@, transaction@).0);
                        }
                        Ok(())
                    },
                }
            },
        }
    }

    /// Whether `transaction` stays within the machine limits of the
    /// fixed-point representation in the current state: exactly the
    /// condition [`handle_transaction`](Self::handle_transaction)
    /// requires of its caller.
    pub fn transaction_fits(&self, transaction: &Transaction) -> (r: bool)
        ensures
            r == tx_fits(self@, transaction@),
    {
        match transaction.t_type {
            Type::Deposit | Type::Withdrawal => {
                if self.transactions_database.contains_key(transaction.transaction_id) {
                    return true;
                }
                match transaction.amount {
                    None => true,
                    Some(amount) => {
                        let account = match self.clients.get(&transaction.t_client_id) {
                            Some(a) => *a,
                            None => ClientAccount::new(),
                        };
                        if matches!(transaction.t_type, Type::Deposit) {
                            account.deposit_in_bounds(amount)
                        } else {
                            account.withdrawal_in_bounds(amount)
                        }
                    },
                }
            },
            Type::Dispute => {
                if self.disputes.contains(&transaction.transaction_id) {
                    return true;
                }
                match self.fetch_target(transaction) {
                    Err(_) => true,
                    Ok((amount, account)) => account.dispute_in_bounds(amount),
                }
            },
            Type::Resolve | Type::Chargeback => {
                if !self.disputes.contains(&transaction.transaction_id) {
                    return true;
                }
                match self.fetch_target(transaction) {
                    Err(_) => true,
                    Ok((amount, account)) => {
                        if matches!(transaction.t_type, Type::Resolve) {
                            account.resolve_in_bounds(amount)
                        } else {
                            account.chargeback_in_bounds(amount)
                        }
                    },
                }
            },
        }
    }

    /// Renders the final balance report: the header line, then one
    /// line per known client in order of first appearance, each amount
    /// with exactly four fraction digits.
    #[verifier::rlimit(50)]
    pub fn write_state(&self) -> (r: String)
        ensures
            r@ == crate::report::report_chars(self@.clients, self@.order),
    {
        let mut buffer = String::from_str("client,available,held,total,locked\n");
        let ghost header = "client,available,held,total,locked\n"@;
        let mut i: usize = 0;
        while i < self.order.len()
            invariant
                i <= self.order.len(),
                buffer@ == header + crate::report::report_lines(
                    self@.clients,
                    self@.order.take(i as int),
                ),
            decreases self.order.len() - i,
        {
            let ghost buf0 = buffer@;
            let c = self.order[i];
            match self.clients.get(&c) {
                Some(a) => {
                    let account = *a;
                    buffer.append(crate::report::format_u64(c as u64).as_str());
                    buffer.append(",");
                    buffer.append(crate::report::format_amount(account.available).as_str());
                    buffer.append(",");
                    buffer.append(crate::report::format_amount(account.held).as_str());
                    buffer.append(",");
                    buffer.append(crate::report::format_amount(account.total).as_str());
                    buffer.append(",");
                    buffer.append(crate::report::bool_str(account.locked));
                    buffer.append("\n");
                    proof {
                        assert(self@.clients.contains_key(c));
                        assert(buffer@ =~= buf0 + crate::report::report_line(
                            c,
                            self@.clients[c],
                        ));
                    }
                },
                None => {
                    proof {
                        assert(!self@.clients.contains_key(c));
                        assert(buffer@ =~= buf0 + Seq::<char>::empty());
                    }
                },
            }
            proof {
                let ghost taken = self@.order.take(i + 1 as int);
                assert(taken.drop_last() =~= self@.order.take(i as int));
                assert(taken.last() == c);
                assert(buffer@ =~= header + crate::report::report_lines(self@.clients, taken));
            }
            i = i + 1;
        }
        proof {
            assert(self@.order.take(self.order.len() as int) =~= self@.order);
        }
        buffer
    }

    /// Routes `transaction` by its declared kind; see [`handle_step`]
    /// for the exact outcome.
    pub fn handle_transaction(&mut self, transaction: Transaction) -> (r: Result<(), EngineError>)
        requires
            tx_fits(old(self)@, transaction@),
        ensures
            (final(self)@, r) == handle_step(old(self)@, transaction@),
    {
        match transaction.t_type {
            Type::Deposit => self.handle_deposit(transaction),
            Type::Withdrawal => self.handle_withdrawals(transaction),
            Type::Dispute => self.handle_dispute(transaction),
            Type::Resolve => self.handle_resolve(transaction),
            Type::Chargeback => self.handle_chargeback(transaction),
        }
    }
}

/// The state after a whole stream of transactions, applied in order.
pub open spec fn handle_stream(s: EngineView, ts: Seq<TransactionView>) -> EngineView
    decreases ts.len(),
{
    if ts.len() == 0 {
        s
    } else {
        handle_stream(handle_step(s, ts[0]).0, ts.drop_first())
    }
}

proof fn lemma_with_account_wf(s: EngineView, c: ClientId)
    requires
        s.wf(),
    ensures
        with_account(s, c).wf(),
        with_account(s, c).clients.contains_key(c),
        account_or_new(s, c) == with_account(s, c).clients[c],
        account_or_new(s, c).balanced(),
{
    if !s.clients.contains_key(c) {
        let s1 = with_account(s, c);
        assert(!s.order.contains(c));
        assert forall|i: int, j: int| 0 <= i < j < s1.order.len() implies s1.order[i]
            != s1.order[j] by {
            if j < s.order.len() {
            } else {
                assert(s1.order[j] == c);
                assert(s.order.contains(s1.order[i]));
            }
        }
        assert forall|x: ClientId| s1.clients.contains_key(x) implies s1.order.contains(x) by {
            if x == c {
                assert(s1.order[s.order.len() as int] == c);
            } else {
                let i = choose|i: int| 0 <= i < s.order.len() && s.order[i] == x;
                assert(s1.order[i] == x);
            }
        }
        assert forall|x: ClientId| s1.order.contains(x) implies s1.clients.contains_key(x) by {
            let i = choose|i: int| 0 <= i < s1.order.len() && s1.order[i] == x;
            if i < s.order.len() {
                assert(s.order.contains(x));
            }
        }
    }
}

/// Every single engine step preserves well-formedness, and with it the
/// balance invariant `total == available + held` of every account.
pub proof fn lemma_handle_step_preserves_wf(s: EngineView, t: TransactionView)
    requires
        s.wf(),
    ensures
        handle_step(s, t).0.wf(),
{
    crate::client::client_account::lemma_account_ops_preserve_balance(
        account_or_new(s, t.client),
        match t.amount {
            Some(a) => a,
            None => 0,
        },
    );
    lemma_with_account_wf(s, t.client);
    match t.kind {
        Type::Deposit => {
            if !s.store.contains_key(t.tx) && t.amount is Some {
                let a = t.amount->Some_0;
                let s1 = with_account(s, t.client);
                let (acct, r) = ClientAccount::deposit_spec(account_or_new(s, t.client), a);
                if r is Ok {
                    let s2 = deposit_step(s, t).0;
                    assert(s2.order.contains(t.client));
                    assert forall|x: TransactionId| s2.store.contains_key(x) implies ((
                    #[trigger] s2.store[x]).1 >= 0 && s2.clients.contains_key(s2.store[x].0)) by {
                        if x != t.tx {
                            assert(s1.store[x] == s.store[x]);
                        }
                    }
                    assert(s2.wf());
                }
            }
        },
        Type::Withdrawal => {
            if !s.store.contains_key(t.tx) && t.amount is Some {
                let a = t.amount->Some_0;
                let s1 = with_account(s, t.client);
                let (acct, r) = ClientAccount::withdrawal_spec(account_or_new(s, t.client), a);
                if r is Ok {
                    assert(withdrawal_step(s, t).0.wf());
                }
            }
        },
        Type::Dispute => {
            if !s.disputes.contains(t.tx) && lookup_target(s, t) is Ok {
                crate::client::client_account::lemma_account_ops_preserve_balance(
                    s.clients[t.client],
                    s.store[t.tx].1,
                );
                assert(dispute_step(s, t).0.wf());
            }
        },
        Type::Resolve => {
            if s.disputes.contains(t.tx) && lookup_target(s, t) is Ok {
                crate::client::client_account::lemma_account_ops_preserve_balance(
                    s.clients[t.client],
                    s.store[t.tx].1,
                );
                assert(resolve_step(s, t).0.wf());
            }
        },
        Type::Chargeback => {
            if s.disputes.contains(t.tx) && lookup_target(s, t) is Ok {
                crate::client::client_account::lemma_account_ops_preserve_balance(
                    s.clients[t.client],
                    s.store[t.tx].1,
                );
                assert(chargeback_step(s, t).0.wf());
            }
        },
    }
}

/// The balance invariant holds at every point of processing: a
/// well-formed state stays well-formed under any stream of
/// transactions, whatever mix of successes and rejections it brings.
pub proof fn lemma_handle_stream_preserves_wf(s: EngineView, ts: Seq<TransactionView>)
    requires
        s.wf(),
    ensures
        handle_stream(s, ts).wf(),
    decreases ts.len(),
{
    if ts.len() > 0 {
        lemma_handle_step_preserves_wf(s, ts[0]);
        lemma_handle_stream_preserves_wf(handle_step(s, ts[0]).0, ts.drop_first());
    }
}

/// Depositing an amount and then withdrawing exactly that amount
/// restores the client's available and total funds to what they were
/// before the deposit, and never touches the held funds, whenever the
/// two transactions use fresh ids, the account is not locked and its
/// available funds are not negative.
pub proof fn lemma_deposit_withdrawal_round_trip(
    s: EngineView,
    c: ClientId,
    tx1: TransactionId,
    tx2: TransactionId,
    a: int,
)
    requires
        s.wf(),
        !s.store.contains_key(tx1),
        !s.store.contains_key(tx2),
        tx1 != tx2,
        a >= 0,
        !account_or_new(s, c).locked,
        account_or_new(s, c).available >= 0,
    ensures
        ({
            let t1 = TransactionView { kind: Type::Deposit, client: c, tx: tx1, amount: Some(a) };
            let t2 = TransactionView {
                kind: Type::Withdrawal,
                client: c,
                tx: tx2,
                amount: Some(a),
            };
            let (s1, r1) = handle_step(s, t1);
            let (s2, r2) = handle_step(s1, t2);
            &&& r1 == Ok::<(), EngineError>(())
            &&& r2 == Ok::<(), EngineError>(())
            &&& s1.clients[c].held == account_or_new(s, c).held
            &&& s2.clients[c] == account_or_new(s, c)
        }),
{
}

/// A transaction id can be under dispute at most once at a time: a
/// dispute of an id already in the dispute set is rejected and changes
/// nothing.
pub proof fn lemma_dispute_at_most_once(s: EngineView, t: TransactionView)
    requires
        t.kind == Type::Dispute,
        s.disputes.contains(t.tx),
    ensures
        handle_step(s, t).0 == s,
        handle_step(s, t).1 == Err::<(), EngineError>(
            EngineError::TransactionAlreadyDisputed(t.tx),
        ),
{
}

/// What a completed chargeback leaves behind: the deposit is still on
/// record for its owner, the owner's account is frozen, and the id is
/// no longer under dispute.
pub open spec fn charged_back(s: EngineView, tx: TransactionId, owner: ClientId) -> bool {
    &&& s.clients.contains_key(owner) && s.clients[owner].locked
    &&& s.store.contains_key(tx) && s.store[tx].0 == owner
    &&& !s.disputes.contains(tx)
}

/// A successful chargeback of `t.tx` leaves the state marked
/// [`charged_back`] for the stored owner of the deposit.
pub proof fn lemma_chargeback_locks_out(s: EngineView, t: TransactionView)
    requires
        s.wf(),
        t.kind == Type::Chargeback,
        handle_step(s, t).1 is Ok,
    ensures
        s.store.contains_key(t.tx),
        charged_back(handle_step(s, t).0, t.tx, s.store[t.tx].0),
{
}

/// No later transaction, of any kind and for any client, undoes a
/// chargeback: the deposit stays on record, the owner stays frozen,
/// and the id stays out of the dispute set.
pub proof fn lemma_charged_back_preserved(
    s: EngineView,
    t: TransactionView,
    tx: TransactionId,
    owner: ClientId,
)
    requires
        charged_back(s, tx, owner),
    ensures
        charged_back(handle_step(s, t).0, tx, owner),
{
}

/// [`charged_back`] survives any whole stream of later transactions.
pub proof fn lemma_charged_back_preserved_stream(
    s: EngineView,
    ts: Seq<TransactionView>,
    tx: TransactionId,
    owner: ClientId,
)
    requires
        charged_back(s, tx, owner),
    ensures
        charged_back(handle_stream(s, ts), tx, owner),
    decreases ts.len(),
{
    if ts.len() > 0 {
        lemma_charged_back_preserved(s, ts[0], tx, owner);
        lemma_charged_back_preserved_stream(handle_step(s, ts[0]).0, ts.drop_first(), tx, owner);
    }
}

/// A chargeback removes its transaction id from the dispute set
/// permanently: however many transactions follow, a later resolve or
/// chargeback of that id fails with `TransactionNotDisputed`, a later
/// dispute of it fails too, and none of them changes the state.
pub proof fn lemma_chargeback_terminal(
    s: EngineView,
    t: TransactionView,
    ts: Seq<TransactionView>,
    t2: TransactionView,
)
    requires
        s.wf(),
        t.kind == Type::Chargeback,
        handle_step(s, t).1 is Ok,
        t2.tx == t.tx,
        t2.kind == Type::Dispute || t2.kind == Type::Resolve || t2.kind == Type::Chargeback,
    ensures
        ({
            let later = handle_stream(handle_step(s, t).0, ts);
            &&& handle_step(later, t2).0 == later
            &&& handle_step(later, t2).1 is Err
            &&& (t2.kind == Type::Resolve || t2.kind == Type::Chargeback) ==> handle_step(
                later,
                t2,
            ).1 == Err::<(), EngineError>(EngineError::TransactionNotDisputed(t.tx))
        }),
{
    let owner = s.store[t.tx].0;
    lemma_chargeback_locks_out(s, t);
    lemma_charged_back_preserved_stream(handle_step(s, t).0, ts, t.tx, owner);
    lemma_charged_back_rejects(handle_stream(handle_step(s, t).0, ts), t2, t.tx, owner);
}

/// One step of the terminal-chargeback argument: in a [`charged_back`]
/// state, any dispute, resolve or chargeback of that id is rejected
/// and changes nothing. A resolve or chargeback fails with
/// `TransactionNotDisputed`; a dispute fails against the frozen owner
/// account, or as not owned when another client asks.
pub proof fn lemma_charged_back_rejects(
    s: EngineView,
    t: TransactionView,
    tx: TransactionId,
    owner: ClientId,
)
    requires
        charged_back(s, tx, owner),
        t.tx == tx,
        t.kind == Type::Dispute || t.kind == Type::Resolve || t.kind == Type::Chargeback,
    ensures
        handle_step(s, t).0 == s,
        handle_step(s, t).1 is Err,
        (t.kind == Type::Resolve || t.kind == Type::Chargeback) ==> handle_step(s, t).1 == Err::<
            (),
            EngineError,
        >(EngineError::TransactionNotDisputed(tx)),
        (t.kind == Type::Dispute && t.client == owner) ==> handle_step(s, t).1 == Err::<
            (),
            EngineError,
        >(
            EngineError::ClientAccountError(
                crate::client::error::ClientAccountError::Locked,
            ),
        ),
        (t.kind == Type::Dispute && t.client != owner) ==> handle_step(s, t).1 == Err::<
            (),
            EngineError,
        >(EngineError::NotClientOwnedTransaction(tx, t.client)),
{
}

} // verus!
