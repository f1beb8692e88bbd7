//! The connection-pool policy.
//!
//! In direct-proxy mode every forwarded request goes through a client
//! pinned to one `(address, HTTP/2-pinned)` pair.  Clients are kept in a
//! bounded least-recently-used cache: a lookup refreshes an entry, a new
//! entry evicts the stalest when the pool is full (so its idle sockets can
//! close).  The policy — who is kept, who is evicted — lives here, over
//! opaque client handles; the clients themselves live in the I/O shell,
//! filed under those handles.

use vstd::prelude::*;
use crate::aggregate::copy_bytes;
use crate::bytes_order::{lex_cmp, ByteOrder};

verus! {

broadcast use crate::views::lemma_bytes_deep_view;

/// How many clients the pool keeps at most.
pub const POOL_CAPACITY: usize = 65535;

/// One pooled client: its key and the shell's handle for it.
pub struct PoolSlot {
    pub ip: Vec<u8>,
    pub http2_only: bool,
    pub handle: u64,
}

/// Mathematical value of a [`PoolSlot`].
pub ghost struct PoolSlotV {
    pub ip: Seq<u8>,
    pub http2_only: bool,
    pub handle: u64,
}

impl DeepView for PoolSlot {
    type V = PoolSlotV;

    open spec fn deep_view(&self) -> PoolSlotV {
        PoolSlotV { ip: self.ip.deep_view(), http2_only: self.http2_only, handle: self.handle }
    }
}

/// The pool: slots most recently used first.
pub struct Pool {
    pub entries: Vec<PoolSlot>,
}

/// The first slot with this key, or `-1`.
pub open spec fn find_slot(s: Seq<PoolSlotV>, ip: Seq<u8>, http2_only: bool) -> int
    decreases s.len(),
{
    if s.len() == 0 {
        -1
    } else if s[0].ip == ip && s[0].http2_only == http2_only {
        0
    } else {
        let r = find_slot(s.drop_first(), ip, http2_only);
        if r < 0 {
            -1
        } else {
            r + 1
        }
    }
}

/// The first match is where the scan says, when everything before differs.
proof fn lemma_find_slot_at(s: Seq<PoolSlotV>, ip: Seq<u8>, http2_only: bool, k: int)
    requires
        0 <= k <= s.len(),
        forall|j: int|
            0 <= j < k ==> !((#[trigger] s[j]).ip == ip && s[j].http2_only == http2_only),
        k < s.len() ==> s[k].ip == ip && s[k].http2_only == http2_only,
    ensures
        k < s.len() ==> find_slot(s, ip, http2_only) == k,
        k == s.len() ==> find_slot(s, ip, http2_only) == -1,
    decreases k,
{
    if k == 0 {
    } else {
        lemma_find_slot_at(s.drop_first(), ip, http2_only, k - 1);
    }
}

impl Pool {
    /// The pool never holds more than its capacity.
    pub open spec fn wf(&self) -> bool {
        self.entries@.len() <= POOL_CAPACITY
    }

    /// An empty pool.
    pub fn new() -> (r: Self)
        ensures
            r.wf(),
            r.entries.deep_view() == Seq::<PoolSlotV>::empty(),
    {
        let r = Pool { entries: Vec::new() };
        proof {
            assert(r.entries.deep_view() =~= Seq::<PoolSlotV>::empty());
        }
        r
    }

    /// Looks a key up.  A hit hands its handle back and refreshes the
    /// entry — it moves to the front, everything else keeps its order.  A
    /// miss changes nothing.
    pub fn get(&mut self, ip: &[u8], http2_only: bool) -> (r: Option<u64>)
        requires
            old(self).wf(),
        ensures
            final(self).wf(),
            match r {
                Some(h) => {
                    let s = old(self).entries.deep_view();
                    let k = find_slot(s, ip@, http2_only);
                    &&& k >= 0
                    &&& h == s[k].handle
                    &&& final(self).entries.deep_view() == seq![s[k]] + s.remove(k)
                },
                None => {
                    &&& find_slot(old(self).entries.deep_view(), ip@, http2_only) == -1
                    &&& final(self).entries.deep_view() == old(self).entries.deep_view()
                },
            },
    {
        let ghost s = self.entries.deep_view();
        let mut k: usize = 0;
        while k < self.entries.len()
            invariant
                0 <= k <= self.entries@.len(),
                s == self.entries.deep_view(),
                s == old(self).entries.deep_view(),
                self.entries@.len() == s.len(),
                old(self).wf(),
                self.wf(),
                forall|j: int|
                    0 <= j < k ==> !((#[trigger] s[j]).ip == ip@ && s[j].http2_only
                        == http2_only),
            decreases self.entries@.len() - k,
        {
            proof {
                assert(self.entries.deep_view()[k as int] == self.entries@[k as int].deep_view());
            }
            if self.entries[k].http2_only == http2_only && crate::resources::bytes_eq(
                self.entries[k].ip.as_slice(),
                ip,
            ) {
                proof {
                    lemma_find_slot_at(s, ip@, http2_only, k as int);
                }
                let ghost before = self.entries;
                let slot = self.entries.remove(k);
                let ghost after_remove = self.entries;
                let handle = slot.handle;
                proof {
                    crate::views::lemma_remove_deep(self.entries, before, k as int);
                }
                self.entries.insert(0, slot);
                proof {
                    crate::views::lemma_insert_deep(self.entries, after_remove, 0, slot);
                    assert(self.entries.deep_view() =~= seq![s[k as int]] + s.remove(k as int));
                }
                return Some(handle);
            }
            k = k + 1;
        }
        proof {
            lemma_find_slot_at(s, ip@, http2_only, s.len() as int);
        }
        None
    }

    /// Files a new client under its key: the entry becomes the freshest,
    /// and when the pool was full the stalest entry leaves — its handle is
    /// returned so the shell can drop that client.  The key must not be
    /// pooled yet; `get` decides that.
    pub fn put(&mut self, ip: &[u8], http2_only: bool, handle: u64) -> (evicted: Option<u64>)
        requires
            old(self).wf(),
            find_slot(old(self).entries.deep_view(), ip@, http2_only) == -1,
        ensures
            final(self).wf(),
            ({
                let s = old(self).entries.deep_view();
                let fresh = PoolSlotV { ip: ip@, http2_only, handle };
                if s.len() < POOL_CAPACITY {
                    evicted is None && final(self).entries.deep_view() == seq![fresh] + s
                } else {
                    evicted == Some(s.last().handle) && final(self).entries.deep_view() == seq![
                        fresh,
                    ] + s.drop_last()
                }
            }),
    {
        let ghost s = self.entries.deep_view();
        let mut evicted: Option<u64> = None;
        if self.entries.len() >= POOL_CAPACITY {
            let ghost before = self.entries;
            let last = self.entries.remove(self.entries.len() - 1);
            proof {
                crate::views::lemma_remove_deep(self.entries, before, s.len() - 1);
                assert(s.remove(s.len() - 1) =~= s.drop_last());
            }
            evicted = Some(last.handle);
        }
        let ghost mid = self.entries;
        let slot = PoolSlot { ip: copy_bytes(ip), http2_only, handle };
        proof {
            assert(slot.deep_view() == PoolSlotV { ip: ip@, http2_only, handle });
        }
        self.entries.insert(0, slot);
        proof {
            crate::views::lemma_insert_deep(self.entries, mid, 0, slot);
            if s.len() < POOL_CAPACITY {
                assert(self.entries.deep_view() =~= seq![
                    PoolSlotV { ip: ip@, http2_only, handle },
                ] + s);
            } else {
                assert(self.entries.deep_view() =~= seq![
                    PoolSlotV { ip: ip@, http2_only, handle },
                ] + s.drop_last());
            }
        }
        evicted
    }
}

} // verus!
