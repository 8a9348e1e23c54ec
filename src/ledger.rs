//! The per-account ledger: which events an account accepts, given what it
//! has already recorded for a transaction id and whether it is locked, and
//! how each accepted event moves its available and held funds.
use std::collections::HashMap;
use vstd::prelude::*;

use crate::amount::Amount;

verus! {

broadcast use vstd::std_specs::hash::group_hash_axioms;

/// Largest magnitude, in ten-thousandths, that a balance may reach; an event
/// that would take a balance beyond it is refused.
pub const BALANCE_LIMIT: i128 = 1_000_000_000_000_000_000_000_000_000_000_000_000;

pub open spec fn in_range(x: int) -> bool {
    -BALANCE_LIMIT <= x <= BALANCE_LIMIT
}

#[derive(Clone, Copy, Debug, PartialEq, Eq, Structural)]
pub enum TransactionType {
    Withdrawal,
    Deposit,
    Dispute,
    Resolve,
    Chargeback,
}

/// Deposits and withdrawals post a transaction; the other kinds refer to one.
pub open spec fn is_posting(k: TransactionType) -> bool {
    k == TransactionType::Deposit || k == TransactionType::Withdrawal
}

/// One event of the input.
#[derive(Clone, Copy, Debug, PartialEq, Eq, Structural)]
pub struct Record {
    pub transaction_type: TransactionType,
    pub client_id: u16,
    pub transaction_id: u32,
    /// Meaningful for deposits and withdrawals only.
    pub amount: Amount,
}

/// An event together with its position in the input.
#[derive(Clone, Copy, Debug, PartialEq, Eq, Structural)]
pub struct SituatedRecord {
    pub monotonic_counter: usize,
    pub record: Record,
}

/// Why an event was dropped.
#[derive(Clone, Copy, Debug, PartialEq, Eq, Structural)]
pub enum Rejection {
    /// A deposit or withdrawal reuses a transaction id already recorded.
    DuplicateTransaction,
    /// A withdrawal, dispute, resolve or chargeback on a locked account.
    AccountLocked,
    /// A dispute of a transaction that is unknown or already disputed.
    NotDisputable,
    /// A resolve or chargeback of a transaction that is not under dispute.
    NotDisputed,
    /// The history of the transaction holds no deposit or withdrawal.
    MissingPosting,
    /// A balance would leave the range that the ledger keeps.
    Overflow,
}

/// What became of one event.
#[derive(Clone, Copy, Debug, PartialEq, Eq, Structural)]
pub enum Outcome {
    /// Recorded, and its effect on the balances made.
    Applied,
    /// A withdrawal beyond the available funds: recorded, balances unchanged.
    InsufficientFunds,
    /// Dropped: neither recorded nor applied.
    Rejected(Rejection),
}

impl Outcome {
    pub open spec fn recorded(self) -> bool {
        !(self is Rejected)
    }

    /// Whether the event joins the history of its transaction id.
    pub fn is_recorded(&self) -> (r: bool)
        ensures
            r == self.recorded(),
    {
        match self {
            Outcome::Rejected(_) => false,
            _ => true,
        }
    }
}

/// The state of one account as mathematics: balances in ten-thousandths,
/// the lock, and for each transaction id the events recorded for it.
pub struct LedgerModel {
    pub client_id: u16,
    pub available: int,
    pub held: int,
    pub locked: bool,
    pub history: Map<u32, Seq<SituatedRecord>>,
}

impl LedgerModel {
    /// The account as first seen: zero balances, unlocked, no history.
    pub open spec fn fresh(client_id: u16) -> LedgerModel {
        LedgerModel {
            client_id,
            available: 0,
            held: 0,
            locked: false,
            history: Map::empty(),
        }
    }

    pub open spec fn total(self) -> int {
        self.available + self.held
    }

    /// The events recorded for `tx`, oldest first.
    pub open spec fn entries(self, tx: u32) -> Seq<SituatedRecord> {
        if self.history.contains_key(tx) {
            self.history[tx]
        } else {
            Seq::empty()
        }
    }

    /// 0: nothing posted; 1: posted; 2: disputed; 3: resolved or charged back.
    pub open spec fn stage(self, tx: u32) -> nat {
        self.entries(tx).len()
    }

    /// The deposit or withdrawal that opened the history of `tx`.
    pub open spec fn posting(self, tx: u32) -> Record {
        self.entries(tx)[0].record
    }

    /// Each history runs posting, dispute, then resolve or chargeback, and
    /// only holds events of its own id; balances stay within range.
    pub open spec fn wf(self) -> bool {
        &&& in_range(self.available)
        &&& in_range(self.held)
        &&& forall|tx: u32| #[trigger]
            self.history.contains_key(tx) ==> {
                let h = self.history[tx];
                &&& 1 <= h.len() <= 3
                &&& is_posting(h[0].record.transaction_type)
                &&& h.len() >= 2 ==> h[1].record.transaction_type == TransactionType::Dispute
                &&& h.len() == 3 ==> (h[2].record.transaction_type == TransactionType::Resolve
                    || h[2].record.transaction_type == TransactionType::Chargeback)
                &&& forall|i: int| 0 <= i < h.len() ==> #[trigger] h[i].record.transaction_id == tx
            }
    }

    /// The verdict on one event.
    pub open spec fn outcome(self, sr: SituatedRecord) -> Outcome {
        let r = sr.record;
        let tx = r.transaction_id;
        let a = r.amount.units as int;
        let p = self.posting(tx).amount.units as int;
        match r.transaction_type {
            TransactionType::Deposit => if self.stage(tx) != 0 {
                Outcome::Rejected(Rejection::DuplicateTransaction)
            } else if !in_range(self.available + a) {
                Outcome::Rejected(Rejection::Overflow)
            } else {
                Outcome::Applied
            },
            TransactionType::Withdrawal => if self.stage(tx) != 0 {
                Outcome::Rejected(Rejection::DuplicateTransaction)
            } else if self.locked {
                Outcome::Rejected(Rejection::AccountLocked)
            } else if a > self.available {
                Outcome::InsufficientFunds
            } else if !in_range(self.available - a) {
                Outcome::Rejected(Rejection::Overflow)
            } else {
                Outcome::Applied
            },
            TransactionType::Dispute => if self.locked {
                Outcome::Rejected(Rejection::AccountLocked)
            } else if self.stage(tx) != 1 {
                Outcome::Rejected(Rejection::NotDisputable)
            } else if !in_range(self.held + p) || (self.posting(tx).transaction_type
                == TransactionType::Deposit && !in_range(self.available - p)) {
                Outcome::Rejected(Rejection::Overflow)
            } else {
                Outcome::Applied
            },
            TransactionType::Resolve => if self.locked {
                Outcome::Rejected(Rejection::AccountLocked)
            } else if self.stage(tx) != 2 {
                Outcome::Rejected(Rejection::NotDisputed)
            } else if !in_range(self.held - p) || !in_range(self.available + p) {
                Outcome::Rejected(Rejection::Overflow)
            } else {
                Outcome::Applied
            },
            TransactionType::Chargeback => if self.locked {
                Outcome::Rejected(Rejection::AccountLocked)
            } else if self.stage(tx) != 2 {
                Outcome::Rejected(Rejection::NotDisputed)
            } else if !in_range(self.held - p) {
                Outcome::Rejected(Rejection::Overflow)
            } else {
                Outcome::Applied
            },
        }
    }

    /// The balances and lock after one event; the history is left as it is.
    pub open spec fn after_funds(self, sr: SituatedRecord) -> LedgerModel {
        let r = sr.record;
        let a = r.amount.units as int;
        let p = self.posting(r.transaction_id).amount.units as int;
        if self.outcome(sr) != Outcome::Applied {
            self
        } else {
            match r.transaction_type {
                TransactionType::Deposit => LedgerModel { available: self.available + a, ..self },
                TransactionType::Withdrawal => LedgerModel { available: self.available - a, ..self },
                TransactionType::Dispute => if self.posting(r.transaction_id).transaction_type
                    == TransactionType::Deposit {
                    LedgerModel { available: self.available - p, held: self.held + p, ..self }
                } else {
                    LedgerModel { held: self.held + p, ..self }
                },
                TransactionType::Resolve => LedgerModel {
                    available: self.available + p,
                    held: self.held - p,
                    ..self
                },
                TransactionType::Chargeback => LedgerModel {
                    held: self.held - p,
                    locked: true,
                    ..self
                },
            }
        }
    }

    /// The history with `sr` appended to that of its transaction id.
    pub open spec fn record(self, sr: SituatedRecord) -> LedgerModel {
        let tx = sr.record.transaction_id;
        LedgerModel { history: self.history.insert(tx, self.entries(tx).push(sr)), ..self }
    }

    /// The account after one event.
    pub open spec fn apply(self, sr: SituatedRecord) -> LedgerModel {
        if self.outcome(sr).recorded() {
            self.after_funds(sr).record(sr)
        } else {
            self.after_funds(sr)
        }
    }

    /// The account after a sequence of events, in order.
    pub open spec fn apply_all(self, events: Seq<SituatedRecord>) -> LedgerModel
        decreases events.len(),
    {
        if events.len() == 0 {
            self
        } else {
            self.apply(events[0]).apply_all(events.subrange(1, events.len() as int))
        }
    }
}

/// Every event keeps an account well formed.
pub proof fn lemma_apply_preserves_wf(m: LedgerModel, sr: SituatedRecord)
    requires
        m.wf(),
    ensures
        m.apply(sr).wf(),
{
    let tx = sr.record.transaction_id;
    let n = m.after_funds(sr);
    assert(n.history == m.history);
    if m.outcome(sr).recorded() {
        let h = m.entries(tx).push(sr);
        let k = sr.record.transaction_type;
        assert(m.outcome(sr) is Applied || m.outcome(sr) is InsufficientFunds);
        if m.stage(tx) == 0 {
            assert(is_posting(k));
        } else if m.stage(tx) == 1 {
            assert(k == TransactionType::Dispute);
        } else {
            assert(m.stage(tx) == 2);
            assert(k == TransactionType::Resolve || k == TransactionType::Chargeback);
        }
        assert forall|i: int| 0 <= i < h.len() implies #[trigger] h[i].record.transaction_id
            == tx by {
            if i < h.len() - 1 {
                assert(m.history.contains_key(tx));
                assert(h[i] == m.history[tx][i]);
            }
        }
        let n2 = n.record(sr);
        assert forall|t: u32| #[trigger] n2.history.contains_key(t) implies {
            let g = n2.history[t];
            &&& 1 <= g.len() <= 3
            &&& is_posting(g[0].record.transaction_type)
            &&& g.len() >= 2 ==> g[1].record.transaction_type == TransactionType::Dispute
            &&& g.len() == 3 ==> (g[2].record.transaction_type == TransactionType::Resolve
                || g[2].record.transaction_type == TransactionType::Chargeback)
            &&& forall|i: int| 0 <= i < g.len() ==> #[trigger] g[i].record.transaction_id == t
        } by {
            if t == tx {
                assert(n2.history[t] == h);
                if m.stage(tx) > 0 {
                    assert(h[0] == m.history[tx][0]);
                }
                if m.stage(tx) > 1 {
                    assert(h[1] == m.history[tx][1]);
                }
            } else {
                assert(n2.history[t] == m.history[t]);
            }
        }
    }
}

/// Any sequence of events keeps an account well formed.
pub proof fn lemma_apply_all_preserves_wf(m: LedgerModel, events: Seq<SituatedRecord>)
    requires
        m.wf(),
    ensures
        m.apply_all(events).wf(),
    decreases events.len(),
{
    if events.len() > 0 {
        lemma_apply_preserves_wf(m, events[0]);
        lemma_apply_all_preserves_wf(m.apply(events[0]), events.subrange(1, events.len() as int));
    }
}

/// A locked account accepts deposits only: any other event is rejected and
/// leaves the account as it was, and no event unlocks it.
pub proof fn lemma_locked_refuses(m: LedgerModel, sr: SituatedRecord)
    requires
        m.wf(),
        m.locked,
    ensures
        m.apply(sr).locked,
        sr.record.transaction_type != TransactionType::Deposit ==> m.outcome(sr) is Rejected
            && m.apply(sr) == m,
{
}

/// Once locked, an account stays locked whatever events follow.
pub proof fn lemma_lock_is_permanent(m: LedgerModel, events: Seq<SituatedRecord>)
    requires
        m.wf(),
        m.locked,
    ensures
        m.apply_all(events).locked,
    decreases events.len(),
{
    if events.len() > 0 {
        lemma_apply_preserves_wf(m, events[0]);
        lemma_locked_refuses(m, events[0]);
        lemma_lock_is_permanent(m.apply(events[0]), events.subrange(1, events.len() as int));
    }
}

/// Of the events that follow a lock, every one but a deposit is rejected.
pub proof fn lemma_locked_run_refuses(m: LedgerModel, events: Seq<SituatedRecord>, i: int)
    requires
        m.wf(),
        m.locked,
        0 <= i < events.len(),
        events[i].record.transaction_type != TransactionType::Deposit,
    ensures
        m.apply_all(events.take(i)).locked,
        m.apply_all(events.take(i)).outcome(events[i]) is Rejected,
{
    lemma_apply_all_preserves_wf(m, events.take(i));
    lemma_lock_is_permanent(m, events.take(i));
    lemma_locked_refuses(m.apply_all(events.take(i)), events[i]);
}

/// A deposit or withdrawal whose transaction id is already recorded is
/// rejected as a duplicate and changes nothing.
pub proof fn lemma_no_duplicate_posting(m: LedgerModel, sr: SituatedRecord)
    requires
        m.wf(),
        is_posting(sr.record.transaction_type),
        m.stage(sr.record.transaction_id) > 0,
    ensures
        m.outcome(sr) == Outcome::Rejected(Rejection::DuplicateTransaction),
        m.apply(sr) == m,
{
}

/// Whatever events an account takes, each transaction id has its deposit or
/// withdrawal first and no other one after it.
pub proof fn lemma_single_posting(m: LedgerModel, events: Seq<SituatedRecord>, tx: u32)
    requires
        m.wf(),
    ensures
        ({
            let n = m.apply_all(events);
            n.stage(tx) > 0 ==> is_posting(n.entries(tx)[0].record.transaction_type)
                && forall|i: int|
                0 < i < n.stage(tx) ==> !is_posting(#[trigger] n.entries(tx)[i].record.transaction_type)
        }),
{
    lemma_apply_all_preserves_wf(m, events);
    let n = m.apply_all(events);
    if n.stage(tx) > 0 {
        assert(n.history.contains_key(tx));
        assert forall|i: int| 0 < i < n.stage(tx) implies !is_posting(
            #[trigger] n.entries(tx)[i].record.transaction_type,
        ) by {
            assert(i == 1 || i == 2);
        }
    }
}

/// A deposit put under dispute and then resolved leaves the available and
/// held funds exactly as they were before the dispute.
pub proof fn lemma_dispute_resolve_restores(
    m: LedgerModel,
    dispute: SituatedRecord,
    resolve: SituatedRecord,
)
    requires
        m.wf(),
        dispute.record.transaction_type == TransactionType::Dispute,
        resolve.record.transaction_type == TransactionType::Resolve,
        dispute.record.transaction_id == resolve.record.transaction_id,
        m.outcome(dispute) == Outcome::Applied,
        m.apply(dispute).outcome(resolve) == Outcome::Applied,
        m.posting(dispute.record.transaction_id).transaction_type == TransactionType::Deposit,
    ensures
        m.apply(dispute).apply(resolve).available == m.available,
        m.apply(dispute).apply(resolve).held == m.held,
{
    let tx = dispute.record.transaction_id;
    let n = m.apply(dispute);
    assert(n.entries(tx) == m.entries(tx).push(dispute));
    assert(n.posting(tx) == m.posting(tx));
}

/// `x + y` where that stays within range.
fn add_in_range(x: i128, y: i128) -> (r: Option<i128>)
    requires
        in_range(x as int),
    ensures
        match r {
            Some(v) => in_range(x + y) && v == x + y,
            None => !in_range(x + y),
        },
{
    match x.checked_add(y) {
        Some(v) => if -BALANCE_LIMIT <= v && v <= BALANCE_LIMIT {
            Some(v)
        } else {
            None
        },
        None => None,
    }
}

/// `x - y` where that stays within range.
fn sub_in_range(x: i128, y: i128) -> (r: Option<i128>)
    requires
        in_range(x as int),
    ensures
        match r {
            Some(v) => in_range(x - y) && v == x - y,
            None => !in_range(x - y),
        },
{
    match x.checked_sub(y) {
        Some(v) => if -BALANCE_LIMIT <= v && v <= BALANCE_LIMIT {
            Some(v)
        } else {
            None
        },
        None => None,
    }
}

/// The first deposit or withdrawal among the events of one transaction id.
fn find_posting(entries: &Vec<SituatedRecord>) -> (r: Option<Record>)
    ensures
        match r {
            Some(rec) => exists|i: int|
                0 <= i < entries@.len() && entries@[i].record == rec && is_posting(
                    rec.transaction_type,
                ) && forall|j: int| 0 <= j < i ==> !is_posting(#[trigger] entries@[j].record.transaction_type),
            None => forall|j: int|
                0 <= j < entries@.len() ==> !is_posting(#[trigger] entries@[j].record.transaction_type),
        },
{
    let mut i: usize = 0;
    while i < entries.len()
        invariant
            i <= entries@.len(),
            forall|j: int| 0 <= j < i ==> !is_posting(#[trigger] entries@[j].record.transaction_type),
        decreases entries@.len() - i,
    {
        let rec = entries[i].record;
        match rec.transaction_type {
            TransactionType::Withdrawal | TransactionType::Deposit => {
                return Some(rec);
            },
            _ => {},
        }
        i = i + 1;
    }
    None
}

/// One account: its balances, its lock, and the events recorded for each of
/// its transaction ids.
pub struct ClientState {
    client_id: u16,
    available_funds: Amount,
    held_funds: Amount,
    locked: bool,
    client_transactions: HashMap<u32, Vec<SituatedRecord>>,
}

impl View for ClientState {
    type V = LedgerModel;

    closed spec fn view(&self) -> LedgerModel {
        LedgerModel {
            client_id: self.client_id,
            available: self.available_funds.units as int,
            held: self.held_funds.units as int,
            locked: self.locked,
            history: self.client_transactions@.map_values(|v: Vec<SituatedRecord>| v@),
        }
    }
}

impl ClientState {
    /// A fresh account: zero balances, unlocked, nothing recorded.
    pub fn new(client_id: u16) -> (r: ClientState)
        ensures
            r@ == LedgerModel::fresh(client_id),
            r@.wf(),
    {
        let r = ClientState {
            client_id,
            available_funds: Amount::zero(),
            held_funds: Amount::zero(),
            locked: false,
            client_transactions: HashMap::new(),
        };
        assert(r@.history =~= Map::empty());
        r
    }

    pub fn get_client_id(&self) -> (r: u16)
        ensures
            r == self@.client_id,
    {
        self.client_id
    }

    pub fn get_available_funds(&self) -> (r: Amount)
        ensures
            r.units == self@.available,
    {
        self.available_funds
    }

    pub fn get_held_funds(&self) -> (r: Amount)
        ensures
            r.units == self@.held,
    {
        self.held_funds
    }

    /// Available plus held funds.
    pub fn get_total_funds(&self) -> (r: Amount)
        requires
            self@.wf(),
        ensures
            r.units == self@.total(),
    {
        Amount { units: self.held_funds.units + self.available_funds.units }
    }

    pub fn is_locked(&self) -> (r: bool)
        ensures
            r == self@.locked,
    {
        self.locked
    }

    /// The number of events recorded for `tx`.
    pub fn transaction_len(&self, tx: u32) -> (r: usize)
        ensures
            r == self@.stage(tx),
    {
        match self.client_transactions.get(&tx) {
            Some(v) => v.len(),
            None => 0,
        }
    }

    /// The events recorded for `tx`, oldest first.
    pub fn transaction_history(&self, tx: u32) -> (r: Vec<SituatedRecord>)
        ensures
            r@ == self@.entries(tx),
    {
        match self.client_transactions.get(&tx) {
            Some(v) => v.clone(),
            None => Vec::new(),
        }
    }

    /// Appends `record` to the history of `tx`.
    fn push_transaction(&mut self, tx_id: u32, record: SituatedRecord)
        requires
            record.record.transaction_id == tx_id,
        ensures
            final(self)@ == old(self)@.record(record),
    {
        let mut v = match self.client_transactions.remove(&tx_id) {
            Some(v) => v,
            None => Vec::new(),
        };
        v.push(record);
        self.client_transactions.insert(tx_id, v);
        assert(self@.history =~= old(self)@.record(record).history);
    }

    /// The first deposit or withdrawal recorded for `tx`, if any.
    fn prior_posting(&self, tx: u32) -> (r: Option<Record>)
        requires
            self@.wf(),
        ensures
            self@.stage(tx) > 0 ==> r == Some(self@.posting(tx)),
    {
        match self.client_transactions.get(&tx) {
            Some(v) => {
                let r = find_posting(v);
                proof {
                    assert(self@.history.contains_key(tx));
                    assert(self@.history[tx] == v@);
                    assert(is_posting(v@[0].record.transaction_type));
                    if let Some(rec) = r {
                        let i = choose|i: int|
                            0 <= i < v@.len() && v@[i].record == rec && is_posting(
                                rec.transaction_type,
                            ) && forall|j: int|
                                0 <= j < i ==> !is_posting(#[trigger] v@[j].record.transaction_type);
                        if i > 0 {
                            assert(!is_posting(v@[0].record.transaction_type));
                        }
                    }
                }
                r
            },
            None => None,
        }
    }

    /// Posts a deposit or withdrawal whose id is new to the account.
    fn transact_withdrawal_or_deposit(&mut self, situated_record: SituatedRecord) -> (r: Outcome)
        requires
            old(self)@.wf(),
            old(self)@.stage(situated_record.record.transaction_id) == 0,
            is_posting(situated_record.record.transaction_type),
        ensures
            r == old(self)@.outcome(situated_record),
            final(self)@ == old(self)@.after_funds(situated_record),
    {
        let amount = situated_record.record.amount.units;
        match (situated_record.record.transaction_type, self.locked) {
            (TransactionType::Withdrawal, false) => {
                if amount <= self.available_funds.units {
                    match sub_in_range(self.available_funds.units, amount) {
                        Some(v) => {
                            self.available_funds = Amount { units: v };
                            Outcome::Applied
                        },
                        None => Outcome::Rejected(Rejection::Overflow),
                    }
                } else {
                    Outcome::InsufficientFunds
                }
            },
            (TransactionType::Withdrawal, true) => Outcome::Rejected(Rejection::AccountLocked),
            (TransactionType::Deposit, _) => {
                match add_in_range(self.available_funds.units, amount) {
                    Some(v) => {
                        self.available_funds = Amount { units: v };
                        Outcome::Applied
                    },
                    None => Outcome::Rejected(Rejection::Overflow),
                }
            },
            (_, _) => Outcome::Rejected(Rejection::DuplicateTransaction),
        }
    }

    /// Puts the posting of a transaction with one recorded event under
    /// dispute.
    fn transact_dispute(&mut self, dispute: SituatedRecord) -> (r: Outcome)
        requires
            old(self)@.wf(),
            !old(self)@.locked,
            old(self)@.stage(dispute.record.transaction_id) == 1,
            dispute.record.transaction_type == TransactionType::Dispute,
        ensures
            r == old(self)@.outcome(dispute),
            final(self)@ == old(self)@.after_funds(dispute),
    {
        let tx_id = dispute.record.transaction_id;
        match self.prior_posting(tx_id) {
            Some(target) => {
                let prev_amount = target.amount.units;
                match target.transaction_type {
                    TransactionType::Withdrawal => {
                        match add_in_range(self.held_funds.units, prev_amount) {
                            Some(h) => {
                                self.held_funds = Amount { units: h };
                                Outcome::Applied
                            },
                            None => Outcome::Rejected(Rejection::Overflow),
                        }
                    },
                    TransactionType::Deposit => {
                        match (
                            sub_in_range(self.available_funds.units, prev_amount),
                            add_in_range(self.held_funds.units, prev_amount),
                        ) {
                            (Some(a), Some(h)) => {
                                self.available_funds = Amount { units: a };
                                self.held_funds = Amount { units: h };
                                Outcome::Applied
                            },
                            _ => Outcome::Rejected(Rejection::Overflow),
                        }
                    },
                    _ => Outcome::Rejected(Rejection::MissingPosting),
                }
            },
            None => Outcome::Rejected(Rejection::MissingPosting),
        }
    }

    /// Releases held funds of a disputed `prev_type` posting of `tx_amount`
    /// back to the available funds.
    fn transact_resolve(&mut self, prev_type: TransactionType, tx_amount: Amount) -> (r: Outcome)
        requires
            old(self)@.wf(),
        ensures
            r == if !is_posting(prev_type) {
                Outcome::Rejected(Rejection::MissingPosting)
            } else if !in_range(old(self)@.held - tx_amount.units) || !in_range(
                old(self)@.available + tx_amount.units,
            ) {
                Outcome::Rejected(Rejection::Overflow)
            } else {
                Outcome::Applied
            },
            final(self)@ == if r == Outcome::Applied {
                LedgerModel {
                    available: old(self)@.available + tx_amount.units,
                    held: old(self)@.held - tx_amount.units,
                    ..old(self)@
                }
            } else {
                old(self)@
            },
    {
        match prev_type {
            TransactionType::Withdrawal | TransactionType::Deposit => {
                match (
                    sub_in_range(self.held_funds.units, tx_amount.units),
                    add_in_range(self.available_funds.units, tx_amount.units),
                ) {
                    (Some(h), Some(a)) => {
                        self.held_funds = Amount { units: h };
                        self.available_funds = Amount { units: a };
                        Outcome::Applied
                    },
                    _ => Outcome::Rejected(Rejection::Overflow),
                }
            },
            _ => Outcome::Rejected(Rejection::MissingPosting),
        }
    }

    /// Removes the held funds of a disputed `prev_type` posting of
    /// `tx_amount` and locks the account.
    fn transact_chargeback(&mut self, prev_type: TransactionType, tx_amount: Amount) -> (r: Outcome)
        requires
            old(self)@.wf(),
        ensures
            r == if !is_posting(prev_type) {
                Outcome::Rejected(Rejection::MissingPosting)
            } else if !in_range(old(self)@.held - tx_amount.units) {
                Outcome::Rejected(Rejection::Overflow)
            } else {
                Outcome::Applied
            },
            final(self)@ == if r == Outcome::Applied {
                LedgerModel { held: old(self)@.held - tx_amount.units, locked: true, ..old(self)@ }
            } else {
                old(self)@
            },
    {
        match prev_type {
            TransactionType::Withdrawal | TransactionType::Deposit => {
                match sub_in_range(self.held_funds.units, tx_amount.units) {
                    Some(h) => {
                        self.held_funds = Amount { units: h };
                        self.locked = true;
                        Outcome::Applied
                    },
                    None => Outcome::Rejected(Rejection::Overflow),
                }
            },
            _ => Outcome::Rejected(Rejection::MissingPosting),
        }
    }

    /// Settles a disputed transaction by a resolve or a chargeback.
    fn transaction_resolution(&mut self, resolution: SituatedRecord) -> (r: Outcome)
        requires
            old(self)@.wf(),
            !old(self)@.locked,
            old(self)@.stage(resolution.record.transaction_id) == 2,
            resolution.record.transaction_type == TransactionType::Resolve
                || resolution.record.transaction_type == TransactionType::Chargeback,
        ensures
            r == old(self)@.outcome(resolution),
            final(self)@ == old(self)@.after_funds(resolution),
    {
        let tx_id = resolution.record.transaction_id;
        match self.prior_posting(tx_id) {
            Some(prev) => match resolution.record.transaction_type {
                TransactionType::Resolve => self.transact_resolve(prev.transaction_type, prev.amount),
                TransactionType::Chargeback => self.transact_chargeback(
                    prev.transaction_type,
                    prev.amount,
                ),
                _ => Outcome::Rejected(Rejection::MissingPosting),
            },
            None => Outcome::Rejected(Rejection::MissingPosting),
        }
    }

    /// Decides on one event and makes its effect on the balances and the
    /// lock; the history is left to the caller.
    fn transact(&mut self, situated_record: SituatedRecord) -> (r: Outcome)
        requires
            old(self)@.wf(),
        ensures
            r == old(self)@.outcome(situated_record),
            final(self)@ == old(self)@.after_funds(situated_record),
    {
        let tx_id = situated_record.record.transaction_id;
        let len = self.transaction_len(tx_id);
        match (situated_record.record.transaction_type, self.locked) {
            (TransactionType::Withdrawal, _) | (TransactionType::Deposit, _) => {
                if len == 0 {
                    self.transact_withdrawal_or_deposit(situated_record)
                } else {
                    Outcome::Rejected(Rejection::DuplicateTransaction)
                }
            },
            (TransactionType::Dispute, false) => {
                if len == 1 {
                    self.transact_dispute(situated_record)
                } else {
                    Outcome::Rejected(Rejection::NotDisputable)
                }
            },
            (TransactionType::Resolve, false) | (TransactionType::Chargeback, false) => {
                if len == 2 {
                    self.transaction_resolution(situated_record)
                } else {
                    Outcome::Rejected(Rejection::NotDisputed)
                }
            },
            (TransactionType::Resolve, true) | (TransactionType::Chargeback, true) | (
                TransactionType::Dispute,
                true,
            ) => Outcome::Rejected(Rejection::AccountLocked),
        }
    }

    /// Applies one event to the account: decides on it, moves the balances,
    /// and records it in the history of its transaction id unless it was
    /// rejected.
    pub fn add_transaction(&mut self, situated_record: SituatedRecord) -> (r: Outcome)
        requires
            old(self)@.wf(),
        ensures
            r == old(self)@.outcome(situated_record),
            final(self)@ == old(self)@.apply(situated_record),
            final(self)@.wf(),
    {
        proof {
            lemma_apply_preserves_wf(self@, situated_record);
        }
        let tx_id = situated_record.record.transaction_id;
        let r = self.transact(situated_record);
        if r.is_recorded() {
            self.push_transaction(tx_id, situated_record);
        }
        r
    }

}

} // verus!
