//! The crank: a bounded-batch consumer that drains up to `limit` entries
//! of an externally maintained, continuously growing event queue per
//! invocation, while its open-resource list grows append-only.

use vstd::prelude::*;

use crate::resource::{absorb, lemma_absorb_grows, lemma_absorb_snoc, ResourceHandle, ResourceSet};
use crate::task::Operation;

verus! {

/// The opaque operation code of a settlement emitted by the crank.
pub const SETTLE_OP_CODE: u64 = 7;

/// One queue entry; opaque beyond the counterparty it names.
#[derive(Clone, Copy, PartialEq, Eq, Structural, Debug)]
pub struct QueueEntry {
    pub counterparty: ResourceHandle,
}

/// The counterparty handles of a queue slice, in order.
pub open spec fn counterparties(entries: Seq<QueueEntry>) -> Seq<ResourceHandle> {
    entries.map_values(|e: QueueEntry| e.counterparty)
}

/// The crank's account state: the queue it drains, its market and
/// settlement accounts, the per-invocation limit, and the append-only
/// list of counterparty resources seen so far.
pub struct Crank {
    pub authority: ResourceHandle,
    pub event_queue: ResourceHandle,
    pub id: String,
    pub limit: u16,
    pub market: ResourceHandle,
    pub mint_a_vault: ResourceHandle,
    pub mint_a_wallet: ResourceHandle,
    pub mint_b_vault: ResourceHandle,
    pub mint_b_wallet: ResourceHandle,
    pub open_orders: ResourceSet,
    pub vault_signer: ResourceHandle,
}

/// The ordered account list of the settlement operation for one drained
/// entry: vaults, wallets and signer, plus the entry's counterparty.
pub open spec fn settlement_accounts(c: Crank, h: ResourceHandle) -> Seq<ResourceHandle> {
    seq![
        c.event_queue,
        c.market,
        c.mint_a_vault,
        c.mint_a_wallet,
        c.mint_b_vault,
        c.mint_b_wallet,
        c.vault_signer,
        h,
    ]
}

impl Crank {
    pub open spec fn wf(&self) -> bool {
        self.open_orders.wf()
    }

    /// A fresh crank over `event_queue` for `market`, with an empty
    /// open-resource list.
    pub fn new(
        authority: ResourceHandle,
        event_queue: ResourceHandle,
        id: String,
        limit: u16,
        market: ResourceHandle,
        mint_a_vault: ResourceHandle,
        mint_a_wallet: ResourceHandle,
        mint_b_vault: ResourceHandle,
        mint_b_wallet: ResourceHandle,
        vault_signer: ResourceHandle,
    ) -> (c: Crank)
        ensures
            c.authority == authority,
            c.event_queue == event_queue,
            c.id == id,
            c.limit == limit,
            c.market == market,
            c.mint_a_vault == mint_a_vault,
            c.mint_a_wallet == mint_a_wallet,
            c.mint_b_vault == mint_b_vault,
            c.mint_b_wallet == mint_b_wallet,
            c.open_orders@ == Seq::<ResourceHandle>::empty(),
            c.vault_signer == vault_signer,
            c.wf(),
    {
        Crank {
            authority,
            event_queue,
            id,
            limit,
            market,
            mint_a_vault,
            mint_a_wallet,
            mint_b_vault,
            mint_b_wallet,
            open_orders: ResourceSet::new(),
            vault_signer,
        }
    }

    /// Drains up to `limit` oldest entries of the queue snapshot: emits
    /// one settlement operation per drained entry and absorbs each new
    /// counterparty into the open-resource list, which only ever grows.
    /// Excess entries stay for the next fire; an empty queue drains zero
    /// entries, a valid no-op.
    pub fn drain(&mut self, queue: &Vec<QueueEntry>) -> (ops: Vec<Operation>)
        requires
            old(self).wf(),
        ensures
            ops@.len() == if queue@.len() <= old(self).limit as int {
                queue@.len() as int
            } else {
                old(self).limit as int
            },
            forall|j: int| 0 <= j < ops@.len() ==> (#[trigger] ops@[j]).code == SETTLE_OP_CODE
                && ops@[j].accounts@ == settlement_accounts(*old(self), queue@[j].counterparty),
            final(self).open_orders@ == absorb(
                old(self).open_orders@,
                counterparties(queue@.subrange(0, ops@.len() as int)),
            ),
            old(self).open_orders@.is_prefix_of(final(self).open_orders@),
            old(self).open_orders@.len() <= final(self).open_orders@.len(),
            final(self).wf(),
            final(self).authority == old(self).authority,
            final(self).event_queue == old(self).event_queue,
            final(self).id == old(self).id,
            final(self).limit == old(self).limit,
            final(self).market == old(self).market,
            final(self).mint_a_vault == old(self).mint_a_vault,
            final(self).mint_a_wallet == old(self).mint_a_wallet,
            final(self).mint_b_vault == old(self).mint_b_vault,
            final(self).mint_b_wallet == old(self).mint_b_wallet,
            final(self).vault_signer == old(self).vault_signer,
    {
        let n: usize = if queue.len() <= self.limit as usize {
            queue.len()
        } else {
            self.limit as usize
        };
        let ghost orig = self.open_orders@;
        let mut ops: Vec<Operation> = Vec::new();
        let mut i: usize = 0;
        proof {
            assert(counterparties(queue@.subrange(0, 0)) =~= Seq::<ResourceHandle>::empty());
        }
        while i < n
            invariant
                i <= n,
                n <= queue@.len(),
                self.authority == old(self).authority,
                self.event_queue == old(self).event_queue,
                self.id == old(self).id,
                self.limit == old(self).limit,
                self.market == old(self).market,
                self.mint_a_vault == old(self).mint_a_vault,
                self.mint_a_wallet == old(self).mint_a_wallet,
                self.mint_b_vault == old(self).mint_b_vault,
                self.mint_b_wallet == old(self).mint_b_wallet,
                self.vault_signer == old(self).vault_signer,
                orig == old(self).open_orders@,
                ops@.len() == i,
                forall|j: int| 0 <= j < i ==> (#[trigger] ops@[j]).code == SETTLE_OP_CODE
                    && ops@[j].accounts@ == settlement_accounts(*old(self), queue@[j].counterparty),
                self.open_orders@ == absorb(orig, counterparties(queue@.subrange(0, i as int))),
                self.open_orders.wf(),
            decreases n - i,
        {
            let e = queue[i];
            let mut accounts: Vec<ResourceHandle> = Vec::new();
            accounts.push(self.event_queue);
            accounts.push(self.market);
            accounts.push(self.mint_a_vault);
            accounts.push(self.mint_a_wallet);
            accounts.push(self.mint_b_vault);
            accounts.push(self.mint_b_wallet);
            accounts.push(self.vault_signer);
            accounts.push(e.counterparty);
            proof {
                assert(accounts@ =~= settlement_accounts(*old(self), e.counterparty));
            }
            ops.push(Operation { code: SETTLE_OP_CODE, accounts });
            self.open_orders.insert(e.counterparty);
            proof {
                assert(queue@.subrange(0, i + 1)
                    =~= queue@.subrange(0, i as int).push(queue@[i as int]));
                assert(counterparties(queue@.subrange(0, i + 1))
                    =~= counterparties(queue@.subrange(0, i as int)).push(queue@[i as int].counterparty));
                lemma_absorb_snoc(orig, counterparties(queue@.subrange(0, i as int)),
                    queue@[i as int].counterparty);
            }
            i = i + 1;
        }
        proof {
            lemma_absorb_grows(orig, counterparties(queue@.subrange(0, n as int)));
        }
        ops
    }
}

} // verus!
