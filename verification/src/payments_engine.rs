//! The lenient payments engine: routes each typed transaction against
//! [`Client`] accounts and applies what it can, silently dropping
//! whatever does not apply. Deposits are recorded per client, so a
//! dispute implicitly checks ownership by looking the id up under the
//! requesting client alone.

use std::collections::{HashMap, HashSet};
use std::io::ErrorKind;

use vstd::prelude::*;

use crate::client::Client;
use crate::transaction::{Transaction, TransactionView, Type};
use crate::types::{AccountView, Amount, ClientId, TransactionId};

verus! {

broadcast use {vstd::std_specs::hash::group_hash_axioms, crate::types::lemma_amount_fits_i64};

/// Declares `std::io::ErrorKind`, the error type this store reports,
/// as an opaque outside type.
#[verifier::external_type_specification]
#[verifier::external_body]
pub struct ExErrorKind(ErrorKind);

/// Relies on `std::io::ErrorKind::NotFound` being a plain unit
/// variant: builds the error value this store reports for a missing
/// record.
#[verifier::external_body]
fn error_kind_not_found() -> ErrorKind {
    ErrorKind::NotFound
}

/// The views of the amounts held in a per-client record map.
pub open spec fn amounts_view(m: Map<TransactionId, Amount>) -> Map<TransactionId, int> {
    m.map_values(|a: Amount| a@)
}

/// The inner record map of client `c`, or the empty map if none.
pub open spec fn inner_of(
    v: Map<ClientId, Map<TransactionId, int>>,
    c: ClientId,
) -> Map<TransactionId, int> {
    if v.contains_key(c) {
        v[c]
    } else {
        Map::empty()
    }
}

/// Per-client records of deposit amounts, keyed first by the owning
/// client and then by transaction id.
pub struct TransactionsDatabase {
    transactions: HashMap<ClientId, HashMap<TransactionId, Amount>>,
}

impl View for TransactionsDatabase {
    type V = Map<ClientId, Map<TransactionId, int>>;

    closed spec fn view(&self) -> Map<ClientId, Map<TransactionId, int>> {
        self.transactions@.map_values(|m: HashMap<TransactionId, Amount>| amounts_view(m@))
    }
}

impl TransactionsDatabase {
    /// An empty database.
    pub fn new() -> (r: TransactionsDatabase)
        ensures
            r@ == Map::<ClientId, Map<TransactionId, int>>::empty(),
    {
        let r = TransactionsDatabase { transactions: HashMap::new() };
        proof {
            assert(r@ =~= Map::<ClientId, Map<TransactionId, int>>::empty());
        }
        r
    }

    /// Records `amount` under `(t_client_id, transaction_id)`. A
    /// repeated id for the same client replaces the earlier record.
    pub fn insert_transaction(
        &mut self,
        t_client_id: ClientId,
        transaction_id: TransactionId,
        amount: Amount,
    )
        ensures
            final(self)@ == old(self)@.insert(
                t_client_id,
                inner_of(old(self)@, t_client_id).insert(transaction_id, amount@),
            ),
    {
        let mut inner = match self.transactions.remove(&t_client_id) {
            Some(m) => m,
            None => HashMap::new(),
        };
        let ghost inner0 = inner@;
        inner.insert(transaction_id, amount);
        self.transactions.insert(t_client_id, inner);
        proof {
            assert(amounts_view(inner0.insert(transaction_id, amount)) =~= amounts_view(
                inner0,
            ).insert(transaction_id, amount@));
            if !old(self)@.contains_key(t_client_id) {
                assert(amounts_view(inner0) =~= Map::<TransactionId, int>::empty());
            }
            assert(self@ =~= old(self)@.insert(
                t_client_id,
                inner_of(old(self)@, t_client_id).insert(transaction_id, amount@),
            ));
        }
    }

    /// Looks up the amount recorded under `(t_client_id,
    /// transaction_id)`; a missing record is reported as an error. The
    /// database itself is never changed.
    pub fn read_transaction_amount(
        &mut self,
        t_client_id: ClientId,
        transaction_id: TransactionId,
    ) -> (r: Result<Amount, ErrorKind>)
        ensures
            final(self)@ == old(self)@,
            r is Ok <==> (old(self)@.contains_key(t_client_id)
                && old(self)@[t_client_id].contains_key(transaction_id)),
            r matches Ok(a) ==> a@ == old(self)@[t_client_id][transaction_id],
    {
        match self.transactions.get(&t_client_id) {
            Some(inner) => match inner.get(&transaction_id) {
                Some(a) => Ok(*a),
                None => Err(error_kind_not_found()),
            },
            None => Err(error_kind_not_found()),
        }
    }
}

/// The mathematical state of the lenient engine.
#[verifier::ext_equal]
pub ghost struct EngineView {
    pub clients: Map<ClientId, AccountView>,
    pub order: Seq<ClientId>,
    pub transactions: Map<ClientId, Map<TransactionId, int>>,
    pub disputes: Set<TransactionId>,
}

impl EngineView {
    /// The state of a freshly created engine: nothing known.
    pub open spec fn initial() -> EngineView {
        EngineView {
            clients: Map::empty(),
            order: Seq::empty(),
            transactions: Map::empty(),
            disputes: Set::empty(),
        }
    }

    /// Well-formedness, maintained by every engine operation: every
    /// account is balanced and the client order lists exactly the
    /// known clients once each.
    pub open spec fn wf(self) -> bool {
        &&& forall|c: ClientId|
            self.clients.contains_key(c) ==> (#[trigger] self.clients[c]).balanced()
        &&& self.order.no_duplicates()
        &&& forall|c: ClientId|
            #![trigger self.clients.contains_key(c)]
            #![trigger self.order.contains(c)]
            self.clients.contains_key(c) <==> self.order.contains(c)
    }
}

/// The account of client `c`, or a fresh account if `c` is unknown.
pub open spec fn account_or_new(s: EngineView, c: ClientId) -> AccountView {
    if s.clients.contains_key(c) {
        s.clients[c]
    } else {
        AccountView::new_account()
    }
}

/// The state with client `c` present: unchanged if already known,
/// otherwise extended with a fresh account at the end of the order.
pub open spec fn with_account(s: EngineView, c: ClientId) -> EngineView {
    if s.clients.contains_key(c) {
        s
    } else {
        EngineView {
            clients: s.clients.insert(c, AccountView::new_account()),
            order: s.order.push(c),
            ..s
        }
    }
}

/// The amount a dispute-lifecycle transaction acts on: present exactly
/// when the client has an account and recorded this transaction id.
pub open spec fn lookup_amount(s: EngineView, t: TransactionView) -> Option<int> {
    if s.clients.contains_key(t.client) && s.transactions.contains_key(t.client)
        && s.transactions[t.client].contains_key(t.tx) {
        Some(s.transactions[t.client][t.tx])
    } else {
        None
    }
}

/// Outcome of a deposit: dropped without an amount; the named account
/// is created if missing; a locked account ignores it; otherwise the
/// account grows and the deposit is recorded under the client.
pub open spec fn deposit_step(s: EngineView, t: TransactionView) -> EngineView {
    match t.amount {
        None => s,
        Some(a) => {
            let s1 = with_account(s, t.client);
            let acct = account_or_new(s, t.client);
            if acct.locked {
                s1
            } else {
                EngineView {
                    clients: s1.clients.insert(t.client, Client::deposit_spec(acct, a)),
                    transactions: s1.transactions.insert(
                        t.client,
                        inner_of(s1.transactions, t.client).insert(t.tx, a),
                    ),
                    ..s1
                }
            }
        },
    }
}

/// Outcome of a withdrawal: like a deposit but nothing is recorded,
/// and an uncovered withdrawal leaves the account as it was.
pub open spec fn withdrawal_step(s: EngineView, t: TransactionView) -> EngineView {
    match t.amount {
        None => s,
        Some(a) => {
            let s1 = with_account(s, t.client);
            let acct = account_or_new(s, t.client);
            if acct.locked {
                s1
            } else {
                EngineView {
                    clients: s1.clients.insert(t.client, Client::withdrawal_spec(acct, a)),
                    ..s1
                }
            }
        },
    }
}

/// Outcome of a dispute: when the recorded amount is found for the
/// requesting client, it moves from available to held; the id joins
/// the dispute set either way.
pub open spec fn dispute_step(s: EngineView, t: TransactionView) -> EngineView {
    let s1 = match lookup_amount(s, t) {
        Some(a) => EngineView {
            clients: s.clients.insert(t.client, Client::dispute_spec(s.clients[t.client], a)),
            ..s
        },
        None => s,
    };
    EngineView { disputes: s1.disputes.insert(t.tx), ..s1 }
}

/// Outcome of a resolve: only acts on an id under dispute; the
/// recorded amount, when found, moves back from held to available,
/// and the id leaves the dispute set.
pub open spec fn resolve_step(s: EngineView, t: TransactionView) -> EngineView {
    if !s.disputes.contains(t.tx) {
        s
    } else {
        let s1 = match lookup_amount(s, t) {
            Some(a) => EngineView {
                clients: s.clients.insert(t.client, Client::resolve_spec(s.clients[t.client], a)),
                ..s
            },
            None => s,
        };
        EngineView { disputes: s1.disputes.remove(t.tx), ..s1 }
    }
}

/// Outcome of a chargeback: only acts on an id under dispute; the
/// recorded amount, when found, leaves the held and total funds and
/// the account is frozen; the id leaves the dispute set.
pub open spec fn chargeback_step(s: EngineView, t: TransactionView) -> EngineView {
    if !s.disputes.contains(t.tx) {
        s
    } else {
        let s1 = match lookup_amount(s, t) {
            Some(a) => EngineView {
                clients: s.clients.insert(
                    t.client,
                    Client::chargeback_spec(s.clients[t.client], a),
                ),
                ..s
            },
            None => s,
        };
        EngineView { disputes: s1.disputes.remove(t.tx), ..s1 }
    }
}

/// Outcome of any transaction: dispatch on its kind.
pub open spec fn handle_step(s: EngineView, t: TransactionView) -> EngineView {
    match t.kind {
        Type::Deposit => deposit_step(s, t),
        Type::Withdrawal => withdrawal_step(s, t),
        Type::Dispute => dispute_step(s, t),
        Type::Resolve => resolve_step(s, t),
        Type::Chargeback => chargeback_step(s, t),
    }
}

/// Machine-limit bound for a deposit transaction.
pub open spec fn deposit_tx_fits(s: EngineView, t: TransactionView) -> bool {
    (t.amount is Some && !account_or_new(s, t.client).locked) ==> Client::deposit_fits(
        account_or_new(s, t.client),
        t.amount->Some_0,
    )
}

/// Machine-limit bound for a withdrawal transaction.
pub open spec fn withdrawal_tx_fits(s: EngineView, t: TransactionView) -> bool {
    (t.amount is Some && !account_or_new(s, t.client).locked) ==> Client::withdrawal_fits(
        account_or_new(s, t.client),
        t.amount->Some_0,
    )
}

/// Machine-limit bound for a dispute transaction.
pub open spec fn dispute_tx_fits(s: EngineView, t: TransactionView) -> bool {
    lookup_amount(s, t) is Some ==> Client::dispute_fits(
        s.clients[t.client],
        lookup_amount(s, t)->Some_0,
    )
}

/// Machine-limit bound for a resolve transaction.
pub open spec fn resolve_tx_fits(s: EngineView, t: TransactionView) -> bool {
    (s.disputes.contains(t.tx) && lookup_amount(s, t) is Some) ==> Client::resolve_fits(
        s.clients[t.client],
        lookup_amount(s, t)->Some_0,
    )
}

/// Machine-limit bound for a chargeback transaction.
pub open spec fn chargeback_tx_fits(s: EngineView, t: TransactionView) -> bool {
    (s.disputes.contains(t.tx) && lookup_amount(s, t) is Some) ==> Client::chargeback_fits(
        s.clients[t.client],
        lookup_amount(s, t)->Some_0,
    )
}

/// Machine-limit bound for any transaction: dispatch on its kind.
pub open spec fn tx_fits(s: EngineView, t: TransactionView) -> bool {
    match t.kind {
        Type::Deposit => deposit_tx_fits(s, t),
        Type::Withdrawal => withdrawal_tx_fits(s, t),
        Type::Dispute => dispute_tx_fits(s, t),
        Type::Resolve => resolve_tx_fits(s, t),
        Type::Chargeback => chargeback_tx_fits(s, t),
    }
}

/// The views of the accounts held in a ledger map.
pub open spec fn account_views(m: Map<ClientId, Client>) -> Map<ClientId, AccountView> {
    m.map_values(|a: Client| a@)
}

proof fn lemma_account_views_insert(m: Map<ClientId, Client>, c: ClientId, a: Client)
    ensures
        account_views(m.insert(c, a)) == account_views(m).insert(c, a@),
{
    assert(account_views(m.insert(c, a)) =~= account_views(m).insert(c, a@));
}

/// The lenient payments engine: the ledger of accounts, the client
/// order, the per-client deposit records and the dispute tracker.
pub struct PaymentsEngine {
    clients: HashMap<ClientId, Client>,
    order: Vec<ClientId>,
    transactions_database: TransactionsDatabase,
    disputes: HashSet<TransactionId>,
}

impl View for PaymentsEngine {
    type V = EngineView;

    closed spec fn view(&self) -> EngineView {
        EngineView {
            clients: account_views(self.clients@),
            order: self.order@,
            transactions: self.transactions_database@,
            disputes: self.disputes@,
        }
    }
}

impl PaymentsEngine {
    /// A fresh engine: no accounts, no records, no disputes.
    pub fn new() -> (r: PaymentsEngine)
        ensures
            r@ == EngineView::initial(),
            r@.wf(),
    {
        let r = PaymentsEngine {
            clients: HashMap::new(),
            order: Vec::new(),
            transactions_database: TransactionsDatabase::new(),
            disputes: HashSet::new(),
        };
        proof {
            assert(r@.clients =~= Map::<ClientId, AccountView>::empty());
            assert(r@ =~= EngineView::initial());
        }
        r
    }

    /// Reads the account of `client`, creating it at the end of the
    /// order if missing, and returns a copy.
    fn fetch_or_create_account(&mut self, client: ClientId) -> (r: Client)
        ensures
            final(self)@ == with_account(old(self)@, client),
            r@ == account_or_new(old(self)@, client),
    {
        let existing = match self.clients.get(&client) {
            Some(a) => Some(*a),
            None => None,
        };
        match existing {
            Some(account) => account,
            None => {
                self.order.push(client);
                let account = Client::new();
                let ghost m0 = self.clients@;
                self.clients.insert(client, account);
                proof {
                    lemma_account_views_insert(m0, client, account);
                    assert(self@ =~= with_account(old(self)@, client));
                }
                account
            },
        }
    }

    /// Routes `transaction` by its declared kind and applies whatever
    /// part of it fits the current state; see [`handle_step`] for the
    /// exact outcome.
    pub fn handle_transaction(&mut self, transaction: Transaction)
        requires
            tx_fits(old(self)@, transaction@),
        ensures
            final(self)@ == handle_step(old(self)@, transaction@),
    {
        match transaction.t_type {
            Type::Deposit => {
                if let Some(amount) = transaction.amount {
                    let mut account = self.fetch_or_create_account(transaction.t_client_id);
                    if !account.locked() {
                        account.deposit(amount);
                        let ghost m1 = self.clients@;
                        self.clients.insert(transaction.t_client_id, account);
                        self.transactions_database.insert_transaction(
                            transaction.t_client_id,
                            transaction.transaction_id,
                            amount,
                        );
                        proof {
                            lemma_account_views_insert(m1, transaction@.client, account);
                            assert(self@ =~= deposit_step(old(self)@, transaction@));
                        }
                    }
                }
            },
            Type::Withdrawal => {
                if let Some(amount) = transaction.amount {
                    let mut account = self.fetch_or_create_account(transaction.t_client_id);
                    if !account.locked() {
                        account.withdrawal(amount);
                        let ghost m1 = self.clients@;
                        self.clients.insert(transaction.t_client_id, account);
                        proof {
                            lemma_account_views_insert(m1, transaction@.client, account);
                            assert(self@ =~= withdrawal_step(old(self)@, transaction@));
                        }
                    }
                }
            },
            Type::Dispute => {
                self.apply_dispute_action(transaction, Type::Dispute);
                self.disputes.insert(transaction.transaction_id);
                proof {
                    assert(self@ =~= dispute_step(old(self)@, transaction@));
                }
            },
            Type::Resolve => {
                if self.disputes.contains(&transaction.transaction_id) {
                    self.apply_dispute_action(transaction, Type::Resolve);
                    self.disputes.remove(&transaction.transaction_id);
                    proof {
                        assert(self@ =~= resolve_step(old(self)@, transaction@));
                    }
                }
            },
            Type::Chargeback => {
                if self.disputes.contains(&transaction.transaction_id) {
                    self.apply_dispute_action(transaction, Type::Chargeback);
                    self.disputes.remove(&transaction.transaction_id);
                    proof {
                        assert(self@ =~= chargeback_step(old(self)@, transaction@));
                    }
                }
            },
        }
    }

    /// Applies the account mutation of a dispute-lifecycle transaction
    /// when the requesting client and the recorded amount exist; the
    /// dispute set is left to the caller.
    fn apply_dispute_action(&mut self, transaction: Transaction, action: Type)
        requires
            action == Type::Dispute || action == Type::Resolve || action == Type::Chargeback,
            action == Type::Dispute ==> dispute_tx_fits(old(self)@, transaction@),
            action == Type::Resolve ==> (lookup_amount(old(self)@, transaction@) is Some
                ==> Client::resolve_fits(
                old(self)@.clients[transaction@.client],
                lookup_amount(old(self)@, transaction@)->Some_0,
            )),
            action == Type::Chargeback ==> (lookup_amount(old(self)@, transaction@) is Some
                ==> Client::chargeback_fits(
                old(self)@.clients[transaction@.client],
                lookup_amount(old(self)@, transaction@)->Some_0,
            )),
        ensures
            final(self)@ == (match lookup_amount(old(self)@, transaction@) {
                Some(a) => EngineView {
                    clients: old(self)@.clients.insert(
                        transaction@.client,
                        match action {
                            Type::Dispute => Client::dispute_spec(
                                old(self)@.clients[transaction@.client],
                                a,
                            ),
                            Type::Resolve => Client::resolve_spec(
                                old(self)@.clients[transaction@.client],
                                a,
                            ),
                            _ => Client::chargeback_spec(
                                old(self)@.clients[transaction@.client],
                                a,
                            ),
                        },
                    ),
                    ..old(self)@
                },
                None => old(self)@,
            }),
    {
        let existing = match self.clients.get(&transaction.t_client_id) {
            Some(a) => Some(*a),
            None => None,
        };
        if let Some(mut account) = existing {
            match self.transactions_database.read_transaction_amount(
                transaction.t_client_id,
                transaction.transaction_id,
            ) {
                Ok(amount) => {
                    match action {
                        Type::Dispute => account.dispute(amount),
                        Type::Resolve => account.resolve(amount),
                        _ => account.chargeback(amount),
                    }
                    let ghost m1 = self.clients@;
                    self.clients.insert(transaction.t_client_id, account);
                    proof {
                        lemma_account_views_insert(m1, transaction@.client, account);
                        assert(self@ =~= (match lookup_amount(old(self)@, transaction@) {
                            Some(a) => EngineView {
                                clients: old(self)@.clients.insert(
                                    transaction@.client,
                                    match action {
                                        Type::Dispute => Client::dispute_spec(
                                            old(self)@.clients[transaction@.client],
                                            a,
                                        ),
                                        Type::Resolve => Client::resolve_spec(
                                            old(self)@.clients[transaction@.client],
                                            a,
                                        ),
                                        _ => Client::chargeback_spec(
                                            old(self)@.clients[transaction@.client],
                                            a,
                                        ),
                                    },
                                ),
                                ..old(self)@
                            },
                            None => old(self)@,
                        }));
                    }
                },
                Err(_) => {},
            }
        }
    }

    /// Renders the final balance report: the header line, then one
    /// line per known client in order of first appearance, each amount
    /// with exactly four fraction digits.
    #[verifier::rlimit(50)]
    pub fn write_state(&self) -> (r: String)
        ensures
            r@ == crate::report::report_chars(self@.clients, self@.order),
    {
        let mut buffer = String::from_str("client,available,held,total,locked\n");
        let ghost header = "client,available,held,total,locked\n"@;
        let mut i: usize = 0;
        while i < self.order.len()
            invariant
                i <= self.order.len(),
                buffer@ == header + crate::report::report_lines(
                    self@.clients,
                    self@.order.take(i as int),
                ),
            decreases self.order.len() - i,
        {
            let ghost buf0 = buffer@;
            let c = self.order[i];
            match self.clients.get(&c) {
                Some(a) => {
                    let account = *a;
                    buffer.append(crate::report::format_u64(c as u64).as_str());
                    buffer.append(",");
                    buffer.append(crate::report::format_amount(account.available()).as_str());
                    buffer.append(",");
                    buffer.append(crate::report::format_amount(account.held()).as_str());
                    buffer.append(",");
                    buffer.append(crate::report::format_amount(account.total()).as_str());
                    buffer.append(",");
                    buffer.append(crate::report::bool_str(account.locked()));
                    buffer.append("\n");
                    proof {
                        assert(self@.clients.contains_key(c));
                        assert(buffer@ =~= buf0 + crate::report::report_line(
                            c,
                            self@.clients[c],
                        ));
                    }
                },
                None => {
                    proof {
                        assert(!self@.clients.contains_key(c));
                        assert(buffer@ =~= buf0 + Seq::<char>::empty());
                    }
                },
            }
            proof {
                let ghost taken = self@.order.take(i + 1 as int);
                assert(taken.drop_last() =~= self@.order.take(i as int));
                assert(taken.last() == c);
                assert(buffer@ =~= header + crate::report::report_lines(self@.clients, taken));
            }
            i = i + 1;
        }
        proof {
            assert(self@.order.take(self.order.len() as int) =~= self@.order);
        }
        buffer
    }
}

proof fn lemma_with_account_wf(s: EngineView, c: ClientId)
    requires
        s.wf(),
    ensures
        with_account(s, c).wf(),
        with_account(s, c).clients.contains_key(c),
        account_or_new(s, c) == with_account(s, c).clients[c],
        account_or_new(s, c).balanced(),
{
    if !s.clients.contains_key(c) {
        let s1 = with_account(s, c);
        assert(!s.order.contains(c));
        assert forall|i: int, j: int| 0 <= i < j < s1.order.len() implies s1.order[i]
            != s1.order[j] by {
            if j < s.order.len() {
            } else {
                assert(s1.order[j] == c);
                assert(s.order.contains(s1.order[i]));
            }
        }
        assert forall|x: ClientId| s1.clients.contains_key(x) implies s1.order.contains(x) by {
            if x == c {
                assert(s1.order[s.order.len() as int] == c);
            } else {
                let i = choose|i: int| 0 <= i < s.order.len() && s.order[i] == x;
                assert(s1.order[i] == x);
            }
        }
        assert forall|x: ClientId| s1.order.contains(x) implies s1.clients.contains_key(x) by {
            let i = choose|i: int| 0 <= i < s1.order.len() && s1.order[i] == x;
            if i < s.order.len() {
                assert(s.order.contains(x));
            }
        }
    }
}

/// Every single step of the lenient engine preserves well-formedness,
/// and with it the balance invariant `total == available + held` of
/// every account.
pub proof fn lemma_handle_step_preserves_wf(s: EngineView, t: TransactionView)
    requires
        s.wf(),
    ensures
        handle_step(s, t).wf(),
{
    lemma_with_account_wf(s, t.client);
    let amt = match t.amount {
        Some(a) => a,
        None => 0,
    };
    crate::client::lemma_client_ops_preserve_balance(account_or_new(s, t.client), amt);
    match lookup_amount(s, t) {
        Some(a) => {
            crate::client::lemma_client_ops_preserve_balance(s.clients[t.client], a);
        },
        None => {},
    }
}

/// The state after a whole stream of transactions, applied in order.
pub open spec fn handle_stream(s: EngineView, ts: Seq<TransactionView>) -> EngineView
    decreases ts.len(),
{
    if ts.len() == 0 {
        s
    } else {
        handle_stream(handle_step(s, ts[0]), ts.drop_first())
    }
}

/// The balance invariant holds at every point of processing: a
/// well-formed state stays well-formed under any stream of
/// transactions.
pub proof fn lemma_handle_stream_preserves_wf(s: EngineView, ts: Seq<TransactionView>)
    requires
        s.wf(),
    ensures
        handle_stream(s, ts).wf(),
    decreases ts.len(),
{
    if ts.len() > 0 {
        lemma_handle_step_preserves_wf(s, ts[0]);
        lemma_handle_stream_preserves_wf(handle_step(s, ts[0]), ts.drop_first());
    }
}

} // verus!
