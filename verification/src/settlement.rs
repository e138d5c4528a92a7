//! Settlement logs: the tokens that wait for their owners after trades.
use crate::crit_map::CritMapData;
use crate::hash::hash_bytes;
use crate::market::ErrorCode;
use crate::math::plus;
use crate::node::{CritMapHeader, OwnedLeaf};
use crate::pubkey::Pubkey;
use crate::records::{AccountEntry, AccountsHeader};
use crate::shelf::{Kept, Shelf};
use crate::slab::SlabPageAlloc;
use crate::slab_vec::SlotVec;
use vstd::prelude::*;

verus! {

/// The account of a settlement log.
#[derive(Debug)]
pub struct SettleLog {
    pub key: Pubkey,
    pub header: AccountsHeader,
    pub slab: SlabPageAlloc,
}

/// What a settlement log holds: its head, the accounts by the hashes of their owners, and how
/// many nodes its map can have before nodes or accounts run out.
#[verifier::ext_equal]
pub struct LogView {
    pub key: Pubkey,
    pub header: AccountsHeader,
    pub entries: Map<u128, Kept<AccountEntry>>,
    pub slots: nat,
}

/// The key of an owner's account in a settlement log.
pub open spec fn owner_id(owner: Pubkey) -> u128 {
    crate::hash::murmur3_128(owner.bytes@, 0)
}

impl AccountEntry {
    /// The balance of one of the two tokens.
    pub open spec fn balance(self, mkt_token: bool) -> u64 {
        if mkt_token {
            self.mkt_token_balance
        } else {
            self.prc_token_balance
        }
    }

    pub open spec fn with_balance(self, mkt_token: bool, amount: u64) -> AccountEntry {
        if mkt_token {
            AccountEntry { mkt_token_balance: amount, ..self }
        } else {
            AccountEntry { prc_token_balance: amount, ..self }
        }
    }

    /// A new account with a balance of one of the two tokens.
    pub open spec fn opened(mkt_token: bool, amount: u64, ts: i64) -> AccountEntry {
        (AccountEntry { mkt_token_balance: 0, prc_token_balance: 0, ts_updated: ts }).with_balance(
            mkt_token,
            amount,
        )
    }
}

impl LogView {
    /// Whether the log takes one more account.
    pub open spec fn has_room(self) -> bool {
        SlabPageAlloc::takes_one_more(self.entries.len(), self.slots)
    }

    /// The log after tokens are added to the account of `id`, which is opened for `owner` if there
    /// is none. A log without room for a new account is full.
    pub open spec fn credit(self, id: u128, owner: Pubkey, mkt_token: bool, amount: u64, ts: i64) -> Result<
        LogView,
        ErrorCode,
    > {
        if self.entries.contains_key(id) {
            let kept = self.entries[id];
            match crate::math::as_amount(kept.value.balance(mkt_token) + amount) {
                Ok(sum) => Ok(
                    LogView {
                        entries: self.entries.insert(
                            id,
                            Kept { owner: kept.owner, value: kept.value.with_balance(mkt_token, sum) },
                        ),
                        ..self
                    },
                ),
                Err(e) => Err(e),
            }
        } else if !self.has_room() {
            Err(ErrorCode::SettlementLogFull)
        } else if self.header.items == u32::MAX {
            Err(ErrorCode::Overflow)
        } else {
            Ok(
                LogView {
                    header: AccountsHeader { items: (self.header.items + 1) as u32, ..self.header },
                    entries: self.entries.insert(
                        id,
                        Kept { owner, value: AccountEntry::opened(mkt_token, amount, ts) },
                    ),
                    ..self
                },
            )
        }
    }

    /// The log without the account of `id`.
    pub open spec fn close(self, id: u128) -> Result<LogView, ErrorCode> {
        if !self.entries.contains_key(id) {
            Err(ErrorCode::RecordNotFound)
        } else if self.header.items == 0 {
            Err(ErrorCode::Overflow)
        } else {
            Ok(
                LogView {
                    header: AccountsHeader { items: (self.header.items - 1) as u32, ..self.header },
                    entries: self.entries.remove(id),
                    ..self
                },
            )
        }
    }
}

impl SettleLog {
    #[verifier::opaque]
    pub open spec fn wf(self) -> bool {
        self.slab.has_shelf::<AccountEntry>(0, 1, Set::empty())
    }

    pub open spec fn view(self) -> LogView {
        LogView {
            key: self.key,
            header: self.header,
            entries: self.slab.shelf::<AccountEntry>(0, 1),
            slots: self.slots(),
        }
    }

    /// The nodes that the map can have: as many as there are slots for, and no more than the slots
    /// for accounts allow, `2 n - 1` nodes for `n` accounts.
    pub open spec fn slots(self) -> nat {
        let accounts = 2 * self.slab.items::<AccountEntry>(1).len() - 1;
        if accounts < self.slab.slots::<Pubkey>(0) {
            accounts as nat
        } else {
            self.slab.slots::<Pubkey>(0)
        }
    }

    /// The accounts of a well-formed log are finitely many.
    pub proof fn lemma_size(self)
        requires
            self.wf(),
        ensures
            self.view().entries.dom().finite(),
            self.view().entries.dom() == self.slab.map::<Pubkey>(0).dom(),
            self.view().entries.len() == self.slab.pool::<Pubkey>(0).head.leaf_count,
    {
        reveal(SettleLog::wf);
        self.slab.pool::<Pubkey>(0).lemma_map();
        assert(self.view().entries.dom() =~= self.slab.map::<Pubkey>(0).dom());
    }

    /// Whether the log takes one more account.
    pub fn has_room(&self) -> (r: bool)
        requires
            self.wf(),
        ensures
            r == self.view().has_room(),
    {
        proof {
            reveal(SettleLog::wf);
        }
        proof {
            self.lemma_size();
        }
        let head: CritMapHeader = CritMapData::header::<Pubkey>(&self.slab, 0);
        let slots: usize = CritMapData::len::<Pubkey>(&self.slab, 0);
        let accounts: usize = self.slab.usable_len::<SlotVec, AccountEntry>(1);
        proof {
            self.slab.lemma_usable::<SlotVec, AccountEntry>(1);
            self.slab.pool::<Pubkey>(0).lemma_map();
        }
        2 * head.leaf_count + 1 <= slots as u64 && head.leaf_count < accounts as u64
    }

    /// The account of an owner, by the hash of the owner's address.
    pub fn account(&self, id: u128) -> (r: Option<(OwnedLeaf, AccountEntry)>)
        requires
            self.wf(),
        ensures
            r is Some <==> self.view().entries.contains_key(id),
            r matches Some((leaf, entry)) ==> self.view().entries[id] == (Kept {
                owner: leaf.owner,
                value: entry,
            }) && leaf.key == id && leaf == self.slab.map::<Pubkey>(0)[id],
    {
        proof {
            reveal(SettleLog::wf);
        }
        Shelf::get::<AccountEntry>(&self.slab, 0, 1, id)
    }

    /// Adds tokens to the account of an owner, and returns the new balance.
    pub fn settle_account(&mut self, id: u128, owner: &Pubkey, mkt_token: bool, amount: u64, ts: i64) -> (r: Result<
        u64,
        ErrorCode,
    >)
        requires
            old(self).wf(),
        ensures
            final(self).wf(),
            match old(self).view().credit(id, *owner, mkt_token, amount, ts) {
                Ok(after) => r == Ok::<u64, ErrorCode>(after.entries[id].value.balance(mkt_token))
                    && final(self).view() == after,
                Err(e) => r == Err::<u64, ErrorCode>(e) && *final(self) == *old(self),
            },
    {
        proof {
            reveal(SettleLog::wf);
        }
        let ghost before = self.view();
        match self.account(id) {
            None => {
                if !self.has_room() {
                    return Err(ErrorCode::SettlementLogFull);
                }
                if self.header.items == u32::MAX {
                    return Err(ErrorCode::Overflow);
                }
                let entry = AccountEntry {
                    mkt_token_balance: if mkt_token {
                        amount
                    } else {
                        0
                    },
                    prc_token_balance: if mkt_token {
                        0
                    } else {
                        amount
                    },
                    ts_updated: ts,
                };
                proof {
                    self.lemma_size();
                    self.slab.lemma_usable::<SlotVec, AccountEntry>(1);
                }
                let slot: u32 = Shelf::next_slot::<AccountEntry>(&mut self.slab, 0, 1);
                Shelf::put::<AccountEntry>(&mut self.slab, 0, 1, id, owner, slot, &entry);
                self.header.items = self.header.items + 1;
                assert(self.view() =~= before.credit(id, *owner, mkt_token, amount, ts)->Ok_0);
                Ok(amount)
            },
            Some((leaf, found)) => {
                let mut entry: AccountEntry = found;
                let new_balance: u64;
                if mkt_token {
                    new_balance = plus(entry.mkt_token_balance(), amount)?;
                    entry.set_mkt_token_balance(new_balance);
                } else {
                    new_balance = plus(entry.prc_token_balance(), amount)?;
                    entry.set_prc_token_balance(new_balance);
                }
                proof {
                    self.lemma_size();
                }
                Shelf::set::<AccountEntry>(&mut self.slab, 0, 1, &leaf, &entry);
                assert(self.view() =~= before.credit(id, *owner, mkt_token, amount, ts)->Ok_0);
                Ok(new_balance)
            },
        }
    }

    /// Removes the account of an owner.
    pub fn close_account(&mut self, id: u128) -> (r: Result<(), ErrorCode>)
        requires
            old(self).wf(),
        ensures
            final(self).wf(),
            match old(self).view().close(id) {
                Ok(after) => r is Ok && final(self).view() == after,
                Err(e) => r == Err::<(), ErrorCode>(e) && *final(self) == *old(self),
            },
    {
        proof {
            reveal(SettleLog::wf);
        }
        let ghost before = self.view();
        match self.account(id) {
            None => {
                return Err(ErrorCode::RecordNotFound);
            },
            Some(_) => {},
        }
        if self.header.items == 0 {
            return Err(ErrorCode::Overflow);
        }
        Shelf::remove::<AccountEntry>(&mut self.slab, 0, 1, id, Ghost(Set::empty()));
        self.header.items = self.header.items - 1;
        assert(self.view() =~= before.close(id)->Ok_0);
        Ok(())
    }
}

/// The key of an owner's account in a settlement log.
pub fn owner_key(owner: &Pubkey) -> (r: u128)
    ensures
        r == owner_id(*owner),
{
    hash_bytes(vstd::array::array_as_slice(&owner.bytes))
}

} // verus!
