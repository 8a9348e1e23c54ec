//! The accounts of one run: each event goes to the account it names, which is
//! opened on first sight; at the end every account can be listed.
use std::collections::HashMap;
use vstd::prelude::*;

use crate::amount::Amount;
use crate::ledger::{lemma_apply_preserves_wf, ClientState, LedgerModel, Outcome, SituatedRecord};

verus! {

broadcast use vstd::std_specs::hash::group_hash_axioms;

/// The accounts as mathematics, with the order in which they were opened.
pub struct StoreModel {
    pub accounts: Map<u16, LedgerModel>,
    pub order: Seq<u16>,
}

impl StoreModel {
    /// The account `id` as it stands, or a fresh one if none was opened yet.
    pub open spec fn account(self, id: u16) -> LedgerModel {
        if self.accounts.contains_key(id) {
            self.accounts[id]
        } else {
            LedgerModel::fresh(id)
        }
    }

    /// The store after one event.
    pub open spec fn apply(self, sr: SituatedRecord) -> StoreModel {
        let id = sr.record.client_id;
        StoreModel {
            accounts: self.accounts.insert(id, self.account(id).apply(sr)),
            order: if self.accounts.contains_key(id) {
                self.order
            } else {
                self.order.push(id)
            },
        }
    }

    /// The store after a sequence of events, in order.
    pub open spec fn apply_all(self, events: Seq<SituatedRecord>) -> StoreModel
        decreases events.len(),
    {
        if events.len() == 0 {
            self
        } else {
            self.apply(events[0]).apply_all(events.subrange(1, events.len() as int))
        }
    }

    /// Every account is well formed and filed under its own id, and `order`
    /// lists each id once.
    pub open spec fn wf(self) -> bool {
        &&& forall|id: u16| #[trigger]
            self.accounts.contains_key(id) ==> self.accounts[id].wf() && self.accounts[id].client_id
                == id
        &&& self.order.no_duplicates()
        &&& forall|id: u16| #[trigger] self.accounts.contains_key(id) <==> self.order.contains(id)
    }
}

/// One line of the final listing.
#[derive(Clone, Copy, Debug, PartialEq, Eq, Structural)]
pub struct AccountSummary {
    pub client_id: u16,
    pub available: Amount,
    pub held: Amount,
    pub total: Amount,
    pub locked: bool,
}

impl AccountSummary {
    /// Whether this line describes the account `m`.
    pub open spec fn describes(self, m: LedgerModel) -> bool {
        &&& self.client_id == m.client_id
        &&& self.available.units == m.available
        &&& self.held.units == m.held
        &&& self.total.units == m.total()
        &&& self.locked == m.locked
    }
}

/// The accounts of one run.
pub struct LedgerStore {
    clients: HashMap<u16, ClientState>,
    order: Vec<u16>,
}

impl View for LedgerStore {
    type V = StoreModel;

    closed spec fn view(&self) -> StoreModel {
        StoreModel {
            accounts: self.clients@.map_values(|c: ClientState| c@),
            order: self.order@,
        }
    }
}

impl LedgerStore {
    /// A store with no account.
    pub fn new() -> (r: LedgerStore)
        ensures
            r@.accounts == Map::<u16, LedgerModel>::empty(),
            r@.order == Seq::<u16>::empty(),
            r@.wf(),
    {
        let r = LedgerStore { clients: HashMap::new(), order: Vec::new() };
        assert(r@.accounts =~= Map::empty());
        r
    }

    /// The account `id`, if it was opened.
    pub fn get(&self, id: u16) -> (r: Option<&ClientState>)
        ensures
            match r {
                Some(c) => self@.accounts.contains_key(id) && c@ == self@.accounts[id],
                None => !self@.accounts.contains_key(id),
            },
    {
        self.clients.get(&id)
    }

    /// The number of accounts opened.
    pub fn len(&self) -> (r: usize)
        requires
            self@.wf(),
        ensures
            r == self@.order.len(),
    {
        self.order.len()
    }

    /// Every account, in the order in which they were opened.
    pub fn snapshot(&self) -> (r: Vec<AccountSummary>)
        requires
            self@.wf(),
        ensures
            r@.len() == self@.order.len(),
            forall|i: int|
                0 <= i < r@.len() ==> #[trigger] r@[i].describes(
                    self@.accounts[self@.order[i]],
                ),
    {
        let mut r: Vec<AccountSummary> = Vec::new();
        let mut i: usize = 0;
        while i < self.order.len()
            invariant
                self@.wf(),
                i <= self@.order.len(),
                r@.len() == i,
                forall|j: int|
                    0 <= j < i ==> #[trigger] r@[j].describes(self@.accounts[self@.order[j]]),
            decreases self@.order.len() - i,
        {
            let id = self.order[i];
            assert(self@.order.contains(id));
            assert(self@.accounts.contains_key(id));
            match self.clients.get(&id) {
                Some(c) => {
                    r.push(
                        AccountSummary {
                            client_id: c.get_client_id(),
                            available: c.get_available_funds(),
                            held: c.get_held_funds(),
                            total: c.get_total_funds(),
                            locked: c.is_locked(),
                        },
                    );
                },
                None => {},
            }
            i = i + 1;
        }
        r
    }
}

/// Hands one event to the account it names, opening that account first if
/// it is new.
pub fn process_record(situated_record: SituatedRecord, clients: &mut LedgerStore) -> (r: Outcome)
    requires
        old(clients)@.wf(),
    ensures
        r == old(clients)@.account(situated_record.record.client_id).outcome(situated_record),
        final(clients)@ == old(clients)@.apply(situated_record),
        final(clients)@.wf(),
{
    let client_id = situated_record.record.client_id;
    let ghost old_store = clients@;
    let (mut client_state, is_new) = match clients.clients.remove(&client_id) {
        Some(c) => (c, false),
        None => (ClientState::new(client_id), true),
    };
    assert(client_state@ == old_store.account(client_id));
    let r = client_state.add_transaction(situated_record);
    clients.clients.insert(client_id, client_state);
    if is_new {
        clients.order.push(client_id);
    }
    proof {
        lemma_store_apply_preserves_wf(old_store, situated_record);
        assert(clients@.accounts =~= old_store.apply(situated_record).accounts);
        assert(clients@.order =~= old_store.apply(situated_record).order);
    }
    r
}

/// Every event keeps the store well formed.
pub proof fn lemma_store_apply_preserves_wf(s: StoreModel, sr: SituatedRecord)
    requires
        s.wf(),
    ensures
        s.apply(sr).wf(),
{
    let client_id = sr.record.client_id;
    let new_store = s.apply(sr);
    lemma_apply_preserves_wf(s.account(client_id), sr);
    assert forall|id: u16| #[trigger] new_store.accounts.contains_key(id) implies new_store.accounts[id].wf()
        && new_store.accounts[id].client_id == id by {
        if id != client_id {
            assert(s.accounts.contains_key(id));
        }
    }
    assert forall|id: u16| #[trigger] new_store.accounts.contains_key(id) <==> new_store.order.contains(id) by {
        if !s.accounts.contains_key(client_id) {
            if id != client_id && new_store.order.contains(id) {
                let k = choose|k: int| 0 <= k < new_store.order.len() && new_store.order[k] == id;
                assert(s.order[k] == id);
            }
            if s.order.contains(id) {
                let k = choose|k: int| 0 <= k < s.order.len() && s.order[k] == id;
                assert(new_store.order[k] == id);
            }
            assert(new_store.order[s.order.len() as int] == client_id);
        }
    }
}

/// Whatever events arrive, every account stays well formed, so that its
/// total is at every point its available plus its held funds, and each
/// account is listed once.
pub proof fn lemma_store_apply_all_preserves_wf(s: StoreModel, events: Seq<SituatedRecord>)
    requires
        s.wf(),
    ensures
        s.apply_all(events).wf(),
    decreases events.len(),
{
    if events.len() > 0 {
        lemma_store_apply_preserves_wf(s, events[0]);
        lemma_store_apply_all_preserves_wf(s.apply(events[0]), events.subrange(1, events.len() as int));
    }
}

/// An event touches only the account it names.
pub proof fn lemma_accounts_independent(s: StoreModel, sr: SituatedRecord, id: u16)
    requires
        id != sr.record.client_id,
    ensures
        s.apply(sr).account(id) == s.account(id),
{
}

} // verus!
