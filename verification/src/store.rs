//! The fabric-scoped entry table: CRUD, fabric-relative indexing, and the
//! authorization decision.

use vstd::prelude::*;

use crate::accessor::AuthMode;
use crate::entry::{spec_entry_allows, spec_entry_wf, AclEntry, AclEntryView};
use crate::error::Error;
use crate::request::{AccessDesc, AccessReq};
use crate::{ENTRIES_PER_FABRIC, MAX_ACL_ENTRIES};

verus! {

/// The mathematical value of the slot array: each slot either empty or one
/// entry value.
pub open spec fn spec_slots_view(entries: Seq<Option<AclEntry>>) -> Seq<Option<AclEntryView>> {
    Seq::new(
        entries.len(),
        |i: int|
            match entries[i] {
                Some(e) => Some(e@),
                None => None,
            },
    )
}

/// The table respects its fixed capacity and every occupied slot holds a
/// well-formed entry.
pub open spec fn spec_store_wf(s: Seq<Option<AclEntryView>>) -> bool {
    &&& s.len() == MAX_ACL_ENTRIES
    &&& forall|i: int| 0 <= i < s.len() ==> (#[trigger] s[i] matches Some(e) ==> spec_entry_wf(e))
}

/// Does the slot hold an entry owned by fabric `fab`?
pub open spec fn spec_is_fab(slot: Option<AclEntryView>, fab: Option<u8>) -> bool {
    slot matches Some(e) && e.fab_idx == fab
}

/// How many slots hold an entry owned by fabric `fab`.
pub open spec fn spec_fab_count(s: Seq<Option<AclEntryView>>, fab: Option<u8>) -> nat
    decreases s.len(),
{
    if s.len() == 0 {
        0
    } else {
        spec_fab_count(s.drop_last(), fab) + if spec_is_fab(s.last(), fab) {
            1nat
        } else {
            0nat
        }
    }
}

/// Absolute slot `j` is where fabric-relative index `index` of fabric `f`
/// lives: the slot is owned by `f`, and exactly `index` slots owned by `f`
/// precede it in store order.
pub open spec fn spec_resolves_at(
    s: Seq<Option<AclEntryView>>,
    f: u8,
    index: int,
    j: int,
) -> bool {
    &&& 0 <= j < s.len()
    &&& spec_is_fab(s[j], Some(f))
    &&& spec_fab_count(s.take(j), Some(f)) == index
}

/// Scanning one more slot raises the fabric count by one exactly when that
/// slot is owned by the fabric.
pub proof fn lemma_fab_count_step(s: Seq<Option<AclEntryView>>, fab: Option<u8>, j: int)
    requires
        0 <= j < s.len(),
    ensures
        spec_fab_count(s.take(j + 1), fab) == spec_fab_count(s.take(j), fab) + if spec_is_fab(
            s[j],
            fab,
        ) {
            1nat
        } else {
            0nat
        },
{
    assert(s.take(j + 1).drop_last() =~= s.take(j));
    assert(s.take(j + 1).last() == s[j]);
}

/// The fabric count over a whole table equals the count over its full
/// prefix.
pub proof fn lemma_fab_count_full(s: Seq<Option<AclEntryView>>, fab: Option<u8>)
    ensures
        spec_fab_count(s.take(s.len() as int), fab) == spec_fab_count(s, fab),
{
    assert(s.take(s.len() as int) =~= s);
}

/// Scanning further never lowers the fabric count.
pub proof fn lemma_fab_count_mono_prefix(
    s: Seq<Option<AclEntryView>>,
    fab: Option<u8>,
    j1: int,
    j2: int,
)
    requires
        0 <= j1 <= j2 <= s.len(),
    ensures
        spec_fab_count(s.take(j2), fab) >= spec_fab_count(s.take(j1), fab),
    decreases j2 - j1,
{
    if j1 < j2 {
        lemma_fab_count_mono_prefix(s, fab, j1, j2 - 1);
        lemma_fab_count_step(s, fab, j2 - 1);
    }
}

/// A fabric-relative index resolves to at most one absolute slot.
pub proof fn lemma_resolves_at_unique(
    s: Seq<Option<AclEntryView>>,
    f: u8,
    index: int,
    j1: int,
    j2: int,
)
    requires
        spec_resolves_at(s, f, index, j1),
        spec_resolves_at(s, f, index, j2),
    ensures
        j1 == j2,
{
    if j1 < j2 {
        lemma_fab_count_monotone(s, Some(f), j1, j2);
    }
    if j2 < j1 {
        lemma_fab_count_monotone(s, Some(f), j2, j1);
    }
}

/// Between two scan positions the fabric count grows by at least one when
/// the earlier position is owned by the fabric.
pub proof fn lemma_fab_count_monotone(s: Seq<Option<AclEntryView>>, fab: Option<u8>, j1: int, j2: int)
    requires
        0 <= j1 < j2 <= s.len(),
        spec_is_fab(s[j1], fab),
    ensures
        spec_fab_count(s.take(j2), fab) > spec_fab_count(s.take(j1), fab),
    decreases j2 - j1,
{
    if j2 == j1 + 1 {
        lemma_fab_count_step(s, fab, j1);
    } else {
        lemma_fab_count_monotone(s, fab, j1, j2 - 1);
        lemma_fab_count_step(s, fab, j2 - 1);
    }
}

/// Does any occupied slot authorize the request?  A provisional (PASE)
/// session is granted implicitly.
pub open spec fn spec_allow(
    s: Seq<Option<AclEntryView>>,
    fab_idx: u8,
    accessor_subjects: Seq<u64>,
    auth_mode: AuthMode,
    d: AccessDesc,
) -> bool {
    auth_mode == AuthMode::Pase || exists|i: int|
        0 <= i < s.len() && (#[trigger] s[i] matches Some(e) && spec_entry_allows(
            e,
            fab_idx,
            accessor_subjects,
            auth_mode,
            d,
        ))
}

/// The entry table and the operations the engine runs on it.
pub struct AclMgrInner {
    pub entries: Vec<Option<AclEntry>>,
}

impl View for AclMgrInner {
    type V = Seq<Option<AclEntryView>>;

    open spec fn view(&self) -> Seq<Option<AclEntryView>> {
        spec_slots_view(self.entries@)
    }
}

impl AclMgrInner {
    /// An empty table: every slot free.
    pub fn new_empty() -> (r: Self)
        ensures
            spec_store_wf(r@),
            forall|i: int| 0 <= i < r@.len() ==> r@[i] is None,
    {
        let mut entries: Vec<Option<AclEntry>> = Vec::new();
        while entries.len() < MAX_ACL_ENTRIES
            invariant
                entries.len() <= MAX_ACL_ENTRIES,
                forall|k: int| 0 <= k < entries@.len() ==> entries@[k] is None,
            decreases MAX_ACL_ENTRIES - entries.len(),
        {
            entries.push(None);
        }
        AclMgrInner { entries }
    }

    /// Resolve a fabric-relative index to the absolute slot holding the
    /// `index`-th entry of fabric `fab_idx`, counted in store order.  Fails
    /// with `NotFound` when the fabric holds no such entry.
    ///
    /// If the table has three entries with fabric indexes 1, 2, 1, then
    /// fabric-relative index 1 for fabric 1 resolves to absolute slot 2.
    pub fn for_index_in_fabric(&self, index: u8, fab_idx: u8) -> (r: Result<usize, Error>)
        ensures
            r matches Ok(j) ==> spec_resolves_at(self@, fab_idx, index as int, j as int),
            r is Err <==> spec_fab_count(self@, Some(fab_idx)) <= index as int,
            r is Err ==> r == Err::<usize, Error>(Error::NotFound),
    {
        let n = self.entries.len();
        let mut curr: usize = 0;
        let mut j: usize = 0;
        while j < n
            invariant
                n == self.entries@.len(),
                n == self@.len(),
                j <= n,
                curr <= index as int,
                curr == spec_fab_count(self@.take(j as int), Some(fab_idx)),
            decreases n - j,
        {
            let matches_fab = match &self.entries[j] {
                Some(e) => match e.fab_idx {
                    Some(f) => f == fab_idx,
                    None => false,
                },
                None => false,
            };
            proof {
                assert(matches_fab == spec_is_fab(self@[j as int], Some(fab_idx)));
                lemma_fab_count_step(self@, Some(fab_idx), j as int);
            }
            if matches_fab {
                if curr as u8 == index {
                    proof {
                        lemma_fab_count_step(self@, Some(fab_idx), j as int);
                        lemma_fab_count_mono_prefix(self@, Some(fab_idx), j as int + 1, n as int);
                        lemma_fab_count_full(self@, Some(fab_idx));
                    }
                    return Ok(j);
                }
                curr = curr + 1;
            }
            j = j + 1;
        }
        proof {
            lemma_fab_count_full(self@, Some(fab_idx));
        }
        Err(Error::NotFound)
    }

    /// Serialize the table into the persisted record handed to the durable
    /// key-value store.  The record always fits the fixed buffer bound.
    pub fn store(&self) -> (r: Vec<u8>)
        requires
            spec_store_wf(self@),
        ensures
            r@ == crate::codec::spec_enc_store(self@),
            r@.len() <= crate::codec::ACL_KV_MAX_SIZE,
    {
        crate::codec::encode_store(&self.entries)
    }

    /// Rebuild a table from a persisted record.  Malformed bytes are an
    /// input error, never a panic; the caller falls back to an empty table.
    pub fn load(bytes: &[u8]) -> (r: Result<Self, Error>)
        ensures
            r is Ok <==> crate::codec::spec_dec_store(bytes@) is Some,
            r matches Ok(inner) ==> crate::codec::spec_dec_store(bytes@) == Some(inner@)
                && spec_store_wf(inner@),
            r is Err ==> r == Err::<AclMgrInner, Error>(Error::Invalid),
    {
        match crate::codec::decode_store(bytes) {
            Ok(entries) => Ok(AclMgrInner { entries }),
            Err(e) => Err(e),
        }
    }
}

/// The engine: owns the entry table and exposes CRUD and the authorization
/// decision.  The embedder serializes shared access around it and replays
/// the persisted bytes (see [`crate::codec`]) after every mutation.
pub struct AclMgr {
    pub inner: AclMgrInner,
}

impl View for AclMgr {
    type V = Seq<Option<AclEntryView>>;

    open spec fn view(&self) -> Seq<Option<AclEntryView>> {
        self.inner@
    }
}

impl AclMgr {
    /// A fresh engine with an empty table.
    pub fn new() -> (r: Result<Self, Error>)
        ensures
            r is Ok,
            r matches Ok(m) ==> spec_store_wf(m@) && forall|i: int|
                0 <= i < m@.len() ==> m@[i] is None,
    {
        AclMgr::new_with(true)
    }

    /// A fresh engine with an empty table.
    ///
    /// The flag mirrors whether the embedder intends to persist the table;
    /// construction itself is the same either way, and an embedder that
    /// holds previously persisted bytes rebuilds the table through
    /// [`AclMgrInner::load`].
    pub fn new_with(psm_support: bool) -> (r: Result<Self, Error>)
        ensures
            r is Ok,
            r matches Ok(m) ==> spec_store_wf(m@) && forall|i: int|
                0 <= i < m@.len() ==> m@[i] is None,
    {
        let _ = psm_support;
        Ok(AclMgr { inner: AclMgrInner::new_empty() })
    }

    /// Build the engine from the persisted record, when durable storage
    /// holds one: a missing or malformed record yields an empty table
    /// (best-effort load, as at engine construction).
    pub fn new_from(bytes: Option<&[u8]>) -> (r: Self)
        ensures
            spec_store_wf(r@),
            bytes is None ==> forall|i: int| 0 <= i < r@.len() ==> r@[i] is None,
            bytes matches Some(b) ==> (crate::codec::spec_dec_store(b@) is None ==> forall|i: int|
                0 <= i < r@.len() ==> r@[i] is None),
            bytes matches Some(b) ==> (crate::codec::spec_dec_store(b@) matches Some(s)
                ==> r@ == s),
    {
        match bytes {
            Some(b) => match AclMgrInner::load(b) {
                Ok(inner) => AclMgr { inner },
                Err(_) => AclMgr { inner: AclMgrInner::new_empty() },
            },
            None => AclMgr { inner: AclMgrInner::new_empty() },
        }
    }

    /// Clear every slot unconditionally.
    pub fn erase_all(&mut self)
        requires
            spec_store_wf(old(self)@),
        ensures
            spec_store_wf(final(self)@),
            final(self)@.len() == old(self)@.len(),
            forall|i: int| 0 <= i < final(self)@.len() ==> final(self)@[i] is None,
    {
        let n = self.inner.entries.len();
        let mut i: usize = 0;
        while i < n
            invariant
                n == self.inner.entries@.len(),
                spec_store_wf(old(self)@),
                self@.len() == old(self)@.len(),
                i <= n,
                forall|k: int| 0 <= k < i ==> self@[k] is None,
            decreases n - i,
        {
            let ghost prev = self@;
            self.inner.entries[i] = None;
            proof {
                assert(self@ =~= prev.update(i as int, None::<AclEntryView>));
            }
            i = i + 1;
        }
    }

    /// Insert `entry` at the first free slot.  Fails with `NoSpace` when the
    /// owning fabric already holds its per-fabric limit of entries, or when
    /// no free slot remains.
    pub fn add(&mut self, entry: AclEntry) -> (r: Result<(), Error>)
        requires
            spec_store_wf(old(self)@),
            spec_entry_wf(entry@),
        ensures
            spec_store_wf(final(self)@),
            r is Ok <==> spec_fab_count(old(self)@, entry.fab_idx) < ENTRIES_PER_FABRIC
                && exists|j: int| 0 <= j < old(self)@.len() && old(self)@[j] is None,
            r is Ok ==> exists|j: int|
                {
                    &&& 0 <= j < old(self)@.len()
                    &&& old(self)@[j] is None
                    &&& forall|k: int| 0 <= k < j ==> old(self)@[k] is Some
                    &&& final(self)@ == old(self)@.update(j, Some(entry@))
                },
            r is Err ==> r == Err::<(), Error>(Error::NoSpace) && final(self)@ == old(self)@,
    {
        let n = self.inner.entries.len();
        // Count the entries the owning fabric already holds.
        let mut cnt: usize = 0;
        let mut j: usize = 0;
        while j < n
            invariant
                n == self.inner.entries@.len(),
                n == self@.len(),
                j <= n,
                cnt == spec_fab_count(self@.take(j as int), entry.fab_idx),
                cnt <= j,
            decreases n - j,
        {
            let matches_fab = match &self.inner.entries[j] {
                Some(e) => match (e.fab_idx, entry.fab_idx) {
                    (Some(f), Some(g)) => f == g,
                    (None, None) => true,
                    _ => false,
                },
                None => false,
            };
            proof {
                assert(matches_fab == spec_is_fab(self@[j as int], entry.fab_idx));
                lemma_fab_count_step(self@, entry.fab_idx, j as int);
            }
            if matches_fab {
                cnt = cnt + 1;
            }
            j = j + 1;
        }
        proof {
            lemma_fab_count_full(self@, entry.fab_idx);
        }
        if cnt >= ENTRIES_PER_FABRIC {
            return Err(Error::NoSpace);
        }
        // Find the first free slot.
        let mut i: usize = 0;
        while i < n
            invariant
                n == self.inner.entries@.len(),
                n == self@.len(),
                self@ == old(self)@,
                spec_store_wf(old(self)@),
                spec_entry_wf(entry@),
                spec_fab_count(old(self)@, entry.fab_idx) < ENTRIES_PER_FABRIC,
                i <= n,
                forall|k: int| 0 <= k < i ==> self@[k] is Some,
            decreases n - i,
        {
            let free = self.inner.entries[i].is_none();
            if free {
                proof {
                    assert(old(self)@[i as int] is None);
                }
                self.inner.entries[i] = Some(entry);
                proof {
                    assert(self@ =~= old(self)@.update(i as int, Some(entry@)));
                }
                return Ok(());
            }
            proof {
                assert(self@[i as int] is Some);
            }
            i = i + 1;
        }
        Err(Error::NoSpace)
    }

    /// Overwrite the entry at fabric-relative `index` of fabric `fab_idx`
    /// with `new`.  Fails with `NotFound` when the fabric holds no entry at
    /// that index.
    pub fn edit(&mut self, index: u8, fab_idx: u8, new: AclEntry) -> (r: Result<(), Error>)
        requires
            spec_store_wf(old(self)@),
            spec_entry_wf(new@),
        ensures
            spec_store_wf(final(self)@),
            r is Ok <==> spec_fab_count(old(self)@, Some(fab_idx)) > index as int,
            r is Ok ==> exists|j: int|
                {
                    &&& spec_resolves_at(old(self)@, fab_idx, index as int, j)
                    &&& final(self)@ == old(self)@.update(j, Some(new@))
                },
            r is Err ==> r == Err::<(), Error>(Error::NotFound) && final(self)@ == old(self)@,
    {
        let j = match self.inner.for_index_in_fabric(index, fab_idx) {
            Ok(j) => j,
            Err(e) => {
                return Err(e);
            },
        };
        self.inner.entries[j] = Some(new);
        proof {
            assert(self@ =~= old(self)@.update(j as int, Some(new@)));
        }
        Ok(())
    }

    /// Clear the entry at fabric-relative `index` of fabric `fab_idx`.
    /// Fails with `NotFound` when the fabric holds no entry at that index.
    pub fn delete(&mut self, index: u8, fab_idx: u8) -> (r: Result<(), Error>)
        requires
            spec_store_wf(old(self)@),
        ensures
            spec_store_wf(final(self)@),
            r is Ok <==> spec_fab_count(old(self)@, Some(fab_idx)) > index as int,
            r is Ok ==> exists|j: int|
                {
                    &&& spec_resolves_at(old(self)@, fab_idx, index as int, j)
                    &&& final(self)@ == old(self)@.update(j, None::<AclEntryView>)
                },
            r is Err ==> r == Err::<(), Error>(Error::NotFound) && final(self)@ == old(self)@,
    {
        let j = match self.inner.for_index_in_fabric(index, fab_idx) {
            Ok(j) => j,
            Err(e) => {
                return Err(e);
            },
        };
        self.inner.entries[j] = None;
        proof {
            assert(self@ =~= old(self)@.update(j as int, None::<AclEntryView>));
        }
        Ok(())
    }

    /// Clear exactly the slots owned by fabric `fab_idx`, leaving all others
    /// untouched.
    pub fn delete_for_fabric(&mut self, fab_idx: u8) -> (r: Result<(), Error>)
        requires
            spec_store_wf(old(self)@),
        ensures
            spec_store_wf(final(self)@),
            r is Ok,
            final(self)@.len() == old(self)@.len(),
            forall|i: int| 0 <= i < old(self)@.len() ==> final(self)@[i] == (
                if spec_is_fab(old(self)@[i], Some(fab_idx)) {
                    None::<AclEntryView>
                } else {
                    old(self)@[i]
                }
            ),
    {
        let n = self.inner.entries.len();
        let mut i: usize = 0;
        while i < n
            invariant
                n == self.inner.entries@.len(),
                n == self@.len(),
                spec_store_wf(old(self)@),
                self@.len() == old(self)@.len(),
                i <= n,
                forall|k: int| 0 <= k < i ==> self@[k] == (
                    if spec_is_fab(old(self)@[k], Some(fab_idx)) {
                        None::<AclEntryView>
                    } else {
                        old(self)@[k]
                    }
                ),
                forall|k: int| i <= k < n ==> self@[k] == old(self)@[k],
            decreases n - i,
        {
            let matches_fab = match &self.inner.entries[i] {
                Some(e) => match e.fab_idx {
                    Some(f) => f == fab_idx,
                    None => false,
                },
                None => false,
            };
            proof {
                assert(matches_fab == spec_is_fab(self@[i as int], Some(fab_idx)));
                assert(self@[i as int] == old(self)@[i as int]);
            }
            if matches_fab {
                let ghost prev = self@;
                self.inner.entries[i] = None;
                proof {
                    assert(self@ =~= prev.update(i as int, None::<AclEntryView>));
                }
            }
            i = i + 1;
        }
        Ok(())
    }

    /// Run `f` on every occupied entry, in store order.  Read-only: the
    /// table never changes under it.
    pub fn for_each_acl<F: Fn(&AclEntry)>(&self, f: F) -> (r: Result<(), Error>)
        requires
            forall|e: &AclEntry| #[trigger] f.requires((e,)),
        ensures
            r is Ok,
    {
        let n = self.inner.entries.len();
        let mut i: usize = 0;
        while i < n
            invariant
                n == self.inner.entries@.len(),
                forall|e: &AclEntry| #[trigger] f.requires((e,)),
                i <= n,
            decreases n - i,
        {
            match &self.inner.entries[i] {
                Some(e) => f(e),
                None => (),
            }
            i = i + 1;
        }
        Ok(())
    }

    /// The authorization decision: a provisional (PASE) session is granted
    /// implicitly; otherwise the request is granted iff some occupied entry
    /// authorizes it.
    pub fn allow(&self, req: &AccessReq<'_>) -> (r: bool)
        ensures
            r == spec_allow(
                self@,
                req.accessor.fab_idx,
                req.accessor.subjects@,
                req.accessor.auth_mode,
                req.object,
            ),
    {
        // PASE sessions have an implicit access grant.
        if req.accessor.auth_mode == AuthMode::Pase {
            return true;
        }
        let n = self.inner.entries.len();
        let mut i: usize = 0;
        while i < n
            invariant
                n == self.inner.entries@.len(),
                n == self@.len(),
                i <= n,
                forall|k: int| 0 <= k < i ==> !(#[trigger] self@[k] matches Some(e)
                    && spec_entry_allows(
                    e,
                    req.accessor.fab_idx,
                    req.accessor.subjects@,
                    req.accessor.auth_mode,
                    req.object,
                )),
            decreases n - i,
        {
            match &self.inner.entries[i] {
                Some(e) => {
                    proof {
                        assert(self@[i as int] == Some(e@));
                    }
                    if e.allow(req) {
                        return true;
                    }
                },
                None => (),
            }
            i = i + 1;
        }
        false
    }
}

} // verus!
