//! Deduplicated blob storage with reference counts.
//!
//! The store keeps two keyspaces per logical store, data and refcount, and
//! every mutation crosses both at once.  The decision logic of each
//! operation lives here, verified; a disk-backed engine applies the same
//! decisions transactionally.
use vstd::prelude::*;
use vstd::arithmetic::power::pow;
use crate::asset_id::AssetId;
use crate::asset_id::content_digest;
use crate::textops::be_value;

verus! {

/// Storage faults, as the callers see them.
#[derive(Clone, Copy, PartialEq, Eq, Structural, Debug)]
pub enum BlobStorageError {
    /// The backing engine failed.
    StorageError,
    /// A transaction could not commit; retryable.
    StorageTransactionError,
    /// A refcount row does not hold exactly eight bytes.
    InvalidRefCountData,
    /// No free identifier could be generated in the allowed retries.
    UuidGenerationFailed,
}

// ---------------------------------------------------------------------------
// Decision logic shared by every backend
// ---------------------------------------------------------------------------
/// What `save` must do, given the refcount found under the content hash.
pub enum SaveAction {
    /// The hash is new: write the data and a count of one.
    Insert,
    /// The hash exists: leave the data alone, write the bumped count.
    Bump(u64),
}

/// Decide a `save`: dedup on an existing count, insert otherwise.
pub fn save_decision(existing: Option<u64>) -> (r: SaveAction)
    requires
        existing matches Some(rc) ==> rc < u64::MAX,
    ensures
        match existing {
            None => r is Insert,
            Some(rc) => r matches SaveAction::Bump(n) && n == rc + 1,
        },
{
    match existing {
        None => SaveAction::Insert,
        Some(rc) => SaveAction::Bump(rc + 1),
    }
}

/// What `release` must do, given the refcount found under the id.
pub enum ReleaseAction {
    /// Nothing is stored: leave everything alone, report not deleted.
    Ignore,
    /// The count reaches zero: erase data and count, report deleted.
    Erase,
    /// Write the decremented count, report not deleted.
    Decrement(u64),
}

/// Decide a `release`: erase at a count of one or less, else decrement.
pub fn release_decision(existing: Option<u64>) -> (r: ReleaseAction)
    ensures
        match existing {
            None => r is Ignore,
            Some(rc) => if rc <= 1 {
                r is Erase
            } else {
                r matches ReleaseAction::Decrement(n) && n == rc - 1
            },
        },
{
    match existing {
        None => ReleaseAction::Ignore,
        Some(rc) => if rc <= 1 {
            ReleaseAction::Erase
        } else {
            ReleaseAction::Decrement(rc - 1)
        },
    }
}

/// Decide a `retain`: an absent counter counts as zero and is created.
pub fn retain_decision(existing: Option<u64>) -> (r: u64)
    requires
        (match existing {
            None => 0u64,
            Some(rc) => rc,
        }) < u64::MAX,
    ensures
        r == (match existing {
            None => 0u64,
            Some(rc) => rc,
        }) + 1,
{
    match existing {
        None => 1,
        Some(rc) => rc + 1,
    }
}

// ---------------------------------------------------------------------------
// The refcount row codec: u64 as eight big-endian bytes
// ---------------------------------------------------------------------------
/// Encode a count as eight big-endian bytes.
pub fn rc_to_be_bytes(v: u64) -> (r: Vec<u8>)
    ensures
        r@.len() == 8,
        be_value(r@) == v,
{
    proof {
        reveal(pow);
    }
    let mut ds: Vec<u8> = Vec::new();
    let mut cur: u64 = v;
    let mut i: usize = 0;
    proof {
        assert(pow(256, 0) == 1) by {
            reveal(pow);
        }
    }
    while i < 8
        invariant
            i <= 8,
            ds@.len() == i,
            cur == v as int / pow(256, i as nat),
            v == cur * pow(256, i as nat) + be_value(ds@),
            be_value(ds@) < pow(256, i as nat),
        decreases 8 - i,
    {
        let b: u8 = (cur % 256) as u8;
        let nxt: u64 = cur / 256;
        proof {
            reveal(pow);
            vstd::arithmetic::div_mod::lemma_fundamental_div_mod(cur as int, 256);
            let p = pow(256, i as nat);
            vstd::arithmetic::power::lemma_pow_positive(256, i as nat);
            let newds = ds@.insert(0, b);
            assert(newds.subrange(1, newds.len() as int) =~= ds@);
            if newds.len() > 0 {
                AssetId::lemma_be_value_head(newds);
            }
            assert(newds[0] == b);
            assert(be_value(newds) == b * p + be_value(ds@));
            assert((256 * nxt + b) * p == nxt * (256 * p) + b * p) by (nonlinear_arith);
            assert(b * p + be_value(ds@) < 256 * p) by (nonlinear_arith)
                requires
                    b < 256,
                    be_value(ds@) < p,
                    p > 0,
            ;
            vstd::arithmetic::div_mod::lemma_div_denominator(v as int, p, 256);
        }
        ds.insert(0, b);
        cur = nxt;
        i = i + 1;
    }
    proof {
        assert(pow(256, 8) == 0x10000000000000000) by {
            reveal_with_fuel(pow, 9);
        }
        assert(cur == 0);
    }
    ds
}

/// Decode a refcount row: exactly eight big-endian bytes.
pub fn rc_from_be_bytes(b: &Vec<u8>) -> (r: Result<u64, BlobStorageError>)
    ensures
        b@.len() == 8 ==> (r matches Ok(v) && v == be_value(b@)),
        b@.len() != 8 ==> r == Err::<u64, BlobStorageError>(BlobStorageError::InvalidRefCountData),
{
    if b.len() != 8 {
        return Err(BlobStorageError::InvalidRefCountData);
    }
    let mut acc: u64 = 0;
    let mut i: usize = 0;
    proof {
        assert(b@.subrange(0, 0) =~= Seq::<u8>::empty());
        assert(pow(256, 0) == 1) by {
            reveal(pow);
        }
    }
    while i < 8
        invariant
            i <= 8,
            b@.len() == 8,
            acc == be_value(b@.subrange(0, i as int)),
            acc < pow(256, i as nat),
            pow(256, i as nat) <= 0x10000000000000000,
        decreases 8 - i,
    {
        proof {
            reveal_with_fuel(pow, 9);
            let pre = b@.subrange(0, i as int);
            let nxt = b@.subrange(0, i + 1);
            assert(nxt.subrange(0, nxt.len() - 1) =~= pre);
            assert(nxt[nxt.len() - 1] == b@[i as int]);
            let p = pow(256, i as nat);
            assert(acc * 256 + b@[i as int] < 256 * p) by (nonlinear_arith)
                requires
                    acc < p,
                    b@[i as int] < 256,
                    p > 0,
            ;
            assert(pow(256, (i + 1) as nat) == 256 * p);
        }
        acc = acc * 256 + (b[i] as u64);
        i = i + 1;
    }
    proof {
        assert(b@.subrange(0, 8) =~= b@);
    }
    Ok(acc)
}

// ---------------------------------------------------------------------------
// The verified in-memory store
// ---------------------------------------------------------------------------
/// One keyed row: the id, the payload if any, and the count.  A row with a
/// count of zero stands for an erased id.
pub struct BlobEntry {
    pub id: AssetId,
    pub data: Option<Vec<u8>>,
    pub rc: u64,
}

/// Index of the row holding `key`, scanning from `i`.
pub open spec fn eidx_from(s: Seq<BlobEntry>, key: Seq<u8>, i: int) -> Option<int>
    decreases s.len() - i,
{
    if i < 0 || i >= s.len() {
        None
    } else if s[i].id@ == key {
        Some(i)
    } else {
        eidx_from(s, key, i + 1)
    }
}

pub open spec fn eidx(s: Seq<BlobEntry>, key: Seq<u8>) -> Option<int> {
    eidx_from(s, key, 0)
}

pub proof fn lemma_eidx_props(s: Seq<BlobEntry>, key: Seq<u8>, i: int)
    requires
        0 <= i,
    ensures
        match eidx_from(s, key, i) {
            Some(j) => i <= j < s.len() && s[j].id@ == key && forall|k: int|
                i <= k < j ==> s[k].id@ != key,
            None => forall|k: int| i <= k < s.len() ==> s[k].id@ != key,
        },
    decreases s.len() - i,
{
    if i < s.len() && s[i].id@ != key {
        lemma_eidx_props(s, key, i + 1);
    }
}

/// Rows with the same ids in the same places are found alike.
pub proof fn lemma_eidx_same_ids(s: Seq<BlobEntry>, t: Seq<BlobEntry>, key: Seq<u8>, i: int)
    requires
        s.len() == t.len(),
        forall|k: int| 0 <= k < s.len() ==> s[k].id@ == t[k].id@,
    ensures
        eidx_from(s, key, i) == eidx_from(t, key, i),
    decreases s.len() - i,
{
    if 0 <= i < s.len() {
        lemma_eidx_same_ids(s, t, key, i + 1);
    }
}

/// Appending a fresh row only adds a hit for its own id.
pub proof fn lemma_eidx_push(s: Seq<BlobEntry>, e: BlobEntry, key: Seq<u8>, i: int)
    requires
        0 <= i,
    ensures
        eidx_from(s, key, i) matches Some(j) ==> eidx_from(s.push(e), key, i) == Some(j),
        eidx_from(s, key, i) is None && key == e.id@ && i <= s.len() ==> eidx_from(
            s.push(e),
            key,
            i,
        ) == Some(s.len() as int),
        eidx_from(s, key, i) is None && key != e.id@ ==> eidx_from(s.push(e), key, i) is None,
    decreases s.len() - i,
{
    if i < s.len() {
        lemma_eidx_push(s, e, key, i + 1);
    } else {
        assert(s.push(e)[s.len() as int] == e);
        if i == s.len() {
            assert(eidx_from(s.push(e), key, i + 1) is None);
        } else {
            assert(i >= s.push(e).len());
        }
    }
}

/// A deduplicating, reference-counted store held in memory.
pub struct MemBlobStore {
    pub entries: Vec<BlobEntry>,
}

impl MemBlobStore {
    /// The count stored under `key`; zero when absent.
    pub open spec fn rc_of(&self, key: Seq<u8>) -> nat {
        match eidx(self.entries@, key) {
            None => 0,
            Some(i) => self.entries@[i].rc as nat,
        }
    }

    /// The payload stored under `key`.
    pub open spec fn data_of(&self, key: Seq<u8>) -> Option<Seq<u8>> {
        match eidx(self.entries@, key) {
            None => None,
            Some(i) => match self.entries@[i].data {
                None => None,
                Some(d) => Some(d@),
            },
        }
    }

    /// Ids are unique, and a stored payload implies a live count.
    pub open spec fn wf(&self) -> bool {
        &&& forall|i: int, j: int|
            0 <= i < j < self.entries@.len() ==> self.entries@[i].id@ != self.entries@[j].id@
        &&& forall|i: int|
            0 <= i < self.entries@.len() && (#[trigger] self.entries@[i].data) is Some
                ==> self.entries@[i].rc >= 1
    }

    /// An empty store.
    pub fn new() -> (r: MemBlobStore)
        ensures
            r.wf(),
            forall|k: Seq<u8>| r.rc_of(k) == 0,
            forall|k: Seq<u8>| r.data_of(k) is None,
    {
        MemBlobStore { entries: Vec::new() }
    }

    /// Find the row of `key`.
    fn find_row(&self, key: &Vec<u8>) -> (r: Option<usize>)
        ensures
            match r {
                Some(i) => eidx(self.entries@, key@) == Some(i as int),
                None => eidx(self.entries@, key@) is None,
            },
    {
        let mut i: usize = 0;
        while i < self.entries.len()
            invariant
                i <= self.entries@.len(),
                eidx_from(self.entries@, key@, 0) == eidx_from(self.entries@, key@, i as int),
            decreases self.entries@.len() - i,
        {
            if crate::textops::eq_bytes(self.entries[i].id.as_bytes(), key) {
                return Some(i);
            }
            i = i + 1;
        }
        None
    }

    /// Overwrite row `i` with a row of the same id; every lookup is kept.
    fn replace_row(&mut self, i: usize, data: Option<Vec<u8>>, rc: u64)
        requires
            i < old(self).entries@.len(),
        ensures
            final(self).entries@.len() == old(self).entries@.len(),
            final(self).entries@[i as int].id@ == old(self).entries@[i as int].id@,
            final(self).entries@[i as int].rc == rc,
            final(self).entries@[i as int].data == data,
            forall|k: int|
                0 <= k < old(self).entries@.len() && k != i ==> final(self).entries@[k]
                    == old(self).entries@[k],
            forall|key: Seq<u8>| eidx(final(self).entries@, key) == eidx(old(self).entries@, key),
    {
        let nid = self.entries[i].id.clone();
        let ghost olds = self.entries@;
        self.entries[i] = BlobEntry { id: nid, data, rc };
        proof {
            assert forall|key: Seq<u8>|
                eidx(self.entries@, key) == eidx(olds, key) by {
                lemma_eidx_same_ids(self.entries@, olds, key, 0);
            }
        }
    }

    /// Store `data`, deduplicating on its content address: a fresh hash is
    /// inserted with a count of one, a known hash only gains a count.
    pub fn save(&mut self, data: &Vec<u8>) -> (r: AssetId)
        requires
            old(self).wf(),
            old(self).rc_of(content_digest(data@)) < u64::MAX,
        ensures
            save_post(*old(self), *final(self), data@, r),
            r.wf(),
    {
        let id = AssetId::from_data(data.as_slice());
        let ghost key = content_digest(data@);
        let ghost olds = self.entries@;
        match self.find_row(id.as_bytes()) {
            Some(i) => {
                proof {
                    lemma_eidx_props(olds, key, 0);
                }
                let has_data = self.entries[i].data.is_some();
                let ghost tkey = key;
                if has_data {
                    let rc = self.entries[i].rc;
                    let d = match &self.entries[i].data {
                        Some(d) => Some(crate::textops::sub_bytes(d, 0, d.len())),
                        None => None,
                    };
                    proof {
                        match self.entries@[i as int].data {
                            Some(od) => {
                                assert(d matches Some(nd) && nd@ =~= od@);
                            },
                            None => {},
                        }
                    }
                    self.replace_row(i, d, rc + 1);
                } else {
                    self.replace_row(i, Some(crate::textops::sub_bytes(data, 0, data.len())), 1);
                    proof {
                        assert(data@.subrange(0, data@.len() as int) =~= data@);
                    }
                }
                proof {
                    assert forall|k: Seq<u8>| k != key implies self.rc_of(k) == old(self).rc_of(
                        k,
                    ) && self.data_of(k) == old(self).data_of(k) by {
                        lemma_eidx_props(olds, k, 0);
                        assert(eidx(self.entries@, k) == eidx(olds, k));
                    }
                }
                id
            },
            None => {
                let e = BlobEntry {
                    id: id.clone(),
                    data: Some(crate::textops::sub_bytes(data, 0, data.len())),
                    rc: 1,
                };
                proof {
                    assert(data@.subrange(0, data@.len() as int) =~= data@);
                    lemma_eidx_props(olds, key, 0);
                }
                self.entries.push(e);
                proof {
                    assert forall|k: Seq<u8>|
                        k != key implies self.rc_of(k) == old(self).rc_of(k) && self.data_of(k)
                        == old(self).data_of(k) by {
                        lemma_eidx_push(olds, e, k, 0);
                        lemma_eidx_props(olds, k, 0);
                        lemma_eidx_props(self.entries@, k, 0);
                        assert(eidx(self.entries@, k) == eidx(olds, k));
                    }
                    lemma_eidx_push(olds, e, key, 0);
                    assert(self.entries@[olds.len() as int] == e);
                    lemma_eidx_props(olds, key, 0);
                    assert forall|i: int, j: int|
                        0 <= i < j < self.entries@.len() implies self.entries@[i].id@
                        != self.entries@[j].id@ by {
                        if j == olds.len() {
                            assert(self.entries@[i] == olds[i]);
                        }
                    }
                }
                id
            },
        }
    }

    /// Store `data` unless its counter is already saturated: the total
    /// entry point around `save`.  `None` reports the saturated counter and
    /// leaves the store unchanged.
    pub fn try_save(&mut self, data: &Vec<u8>) -> (r: Option<AssetId>)
        requires
            old(self).wf(),
        ensures
            final(self).wf(),
            r is None <==> old(self).rc_of(content_digest(data@)) == u64::MAX,
            r is None ==> *final(self) == *old(self),
            r matches Some(id) ==> save_post(*old(self), *final(self), data@, id) && id.wf(),
    {
        let id = AssetId::from_data(data.as_slice());
        let saturated = match self.find_row(id.as_bytes()) {
            Some(i) => {
                proof {
                    lemma_eidx_props(self.entries@, id@, 0);
                }
                self.entries[i].rc == u64::MAX
            },
            None => false,
        };
        if saturated {
            None
        } else {
            Some(self.save(data))
        }
    }

    /// Read the stored bytes.
    pub fn get(&self, id: &AssetId) -> (r: Option<Vec<u8>>)
        ensures
            match r {
                Some(d) => self.data_of(id@) == Some(d@),
                None => self.data_of(id@) is None,
            },
    {
        match self.find_row(id.as_bytes()) {
            None => None,
            Some(i) => {
                proof {
                    lemma_eidx_props(self.entries@, id@, 0);
                }
                match &self.entries[i].data {
                    None => None,
                    Some(d) => {
                        let c = crate::textops::sub_bytes(d, 0, d.len());
                        proof {
                            assert(c@ =~= d@);
                        }
                        Some(c)
                    },
                }
            },
        }
    }

    /// First `n` bytes of the stored data and its full length.
    pub fn peek(&self, id: &AssetId, n: usize) -> (r: Option<(Vec<u8>, usize)>)
        ensures
            match r {
                Some(p) => {
                    &&& self.data_of(id@) matches Some(d)
                    &&& p.1 == d.len()
                    &&& p.0@ == d.subrange(0, if n <= d.len() {
                        n as int
                    } else {
                        d.len() as int
                    })
                },
                None => self.data_of(id@) is None,
            },
    {
        match self.find_row(id.as_bytes()) {
            None => None,
            Some(i) => {
                proof {
                    lemma_eidx_props(self.entries@, id@, 0);
                }
                match &self.entries[i].data {
                    None => None,
                    Some(d) => {
                        let cut = if n <= d.len() {
                            n
                        } else {
                            d.len()
                        };
                        Some((crate::textops::sub_bytes(d, 0, cut), d.len()))
                    },
                }
            },
        }
    }

    /// Raise the count by one; an absent id gets a counter of one and no
    /// data.
    pub fn retain(&mut self, id: &AssetId)
        requires
            old(self).wf(),
            old(self).rc_of(id@) < u64::MAX,
        ensures
            final(self).wf(),
            final(self).rc_of(id@) == old(self).rc_of(id@) + 1,
            final(self).data_of(id@) == old(self).data_of(id@),
            forall|k: Seq<u8>|
                k != id@ ==> final(self).rc_of(k) == old(self).rc_of(k) && final(self).data_of(k)
                    == old(self).data_of(k),
    {
        let ghost olds = self.entries@;
        match self.find_row(id.as_bytes()) {
            Some(i) => {
                proof {
                    lemma_eidx_props(olds, id@, 0);
                }
                let rc = self.entries[i].rc;
                let d = match &self.entries[i].data {
                    Some(d) => Some(crate::textops::sub_bytes(d, 0, d.len())),
                    None => None,
                };
                proof {
                    match self.entries@[i as int].data {
                        Some(od) => {
                            assert(d matches Some(nd) && nd@ =~= od@);
                        },
                        None => {},
                    }
                }
                self.replace_row(i, d, rc + 1);
                proof {
                    assert forall|k: Seq<u8>| k != id@ implies self.rc_of(k) == old(self).rc_of(
                        k,
                    ) && self.data_of(k) == old(self).data_of(k) by {
                        lemma_eidx_props(olds, k, 0);
                        assert(eidx(self.entries@, k) == eidx(olds, k));
                    }
                }
            },
            None => {
                let e = BlobEntry { id: id.clone(), data: None, rc: 1 };
                proof {
                    lemma_eidx_props(olds, id@, 0);
                }
                self.entries.push(e);
                proof {
                    assert forall|k: Seq<u8>|
                        k != id@ implies self.rc_of(k) == old(self).rc_of(k) && self.data_of(k)
                        == old(self).data_of(k) by {
                        lemma_eidx_push(olds, e, k, 0);
                        lemma_eidx_props(olds, k, 0);
                        lemma_eidx_props(self.entries@, k, 0);
                        assert(eidx(self.entries@, k) == eidx(olds, k));
                    }
                    lemma_eidx_push(olds, e, id@, 0);
                    assert(self.entries@[olds.len() as int] == e);
                    assert forall|i: int, j: int|
                        0 <= i < j < self.entries@.len() implies self.entries@[i].id@
                        != self.entries@[j].id@ by {
                        if j == olds.len() {
                            assert(self.entries@[i] == olds[i]);
                        }
                    }
                }
            },
        }
    }

    /// Lower the count by one; at one or below, erase the data and the
    /// counter and report the physical deletion.  An absent id is left
    /// alone.
    pub fn release(&mut self, id: &AssetId) -> (deleted: bool)
        requires
            old(self).wf(),
        ensures
            final(self).wf(),
            deleted == (old(self).rc_of(id@) == 1),
            final(self).rc_of(id@) == if old(self).rc_of(id@) <= 1 {
                0nat
            } else {
                (old(self).rc_of(id@) - 1) as nat
            },
            final(self).data_of(id@) == if old(self).rc_of(id@) == 0 {
                old(self).data_of(id@)
            } else if old(self).rc_of(id@) == 1 {
                None::<Seq<u8>>
            } else {
                old(self).data_of(id@)
            },
            forall|k: Seq<u8>|
                k != id@ ==> final(self).rc_of(k) == old(self).rc_of(k) && final(self).data_of(k)
                    == old(self).data_of(k),
    {
        let ghost olds = self.entries@;
        match self.find_row(id.as_bytes()) {
            None => {
                proof {
                    lemma_eidx_props(olds, id@, 0);
                }
                false
            },
            Some(i) => {
                proof {
                    lemma_eidx_props(olds, id@, 0);
                }
                let rc = self.entries[i].rc;
                if rc == 0 {
                    return false;
                }
                if rc == 1 {
                    self.replace_row(i, None, 0);
                    proof {
                        assert forall|k: Seq<u8>| k != id@ implies self.rc_of(k) == old(
                            self,
                        ).rc_of(k) && self.data_of(k) == old(self).data_of(k) by {
                            lemma_eidx_props(olds, k, 0);
                            assert(eidx(self.entries@, k) == eidx(olds, k));
                        }
                    }
                    true
                } else {
                    let d = match &self.entries[i].data {
                        Some(d) => Some(crate::textops::sub_bytes(d, 0, d.len())),
                        None => None,
                    };
                    proof {
                        match self.entries@[i as int].data {
                            Some(od) => {
                                assert(d matches Some(nd) && nd@ =~= od@);
                            },
                            None => {},
                        }
                    }
                    self.replace_row(i, d, rc - 1);
                    proof {
                        assert forall|k: Seq<u8>| k != id@ implies self.rc_of(k) == old(
                            self,
                        ).rc_of(k) && self.data_of(k) == old(self).data_of(k) by {
                            lemma_eidx_props(olds, k, 0);
                            assert(eidx(self.entries@, k) == eidx(olds, k));
                        }
                    }
                    false
                }
            },
        }
    }
}

// ---------------------------------------------------------------------------
// The refcount laws
// ---------------------------------------------------------------------------
/// What `save` promises of a store transition, as a single predicate: the
/// returned id is the content address, the touched key gains exactly one
/// count, its data is written once, and every other key is untouched.
pub open spec fn save_post(pre: MemBlobStore, post: MemBlobStore, data: Seq<u8>, id: AssetId) -> bool {
    let k = content_digest(data);
    &&& post.wf()
    &&& id@ == k
    &&& post.rc_of(k) == (if pre.data_of(k) is Some {
        pre.rc_of(k) + 1
    } else {
        1nat
    })
    &&& post.data_of(k) == (if pre.data_of(k) is Some {
        pre.data_of(k)
    } else {
        Some(data)
    })
    &&& forall|o: Seq<u8>|
        o != k ==> post.rc_of(o) == pre.rc_of(o) && post.data_of(o) == pre.data_of(o)
}

/// Content addressing: two saves of the same bytes return the same id; the
/// second only raises the count by one and leaves the single stored copy,
/// and every other key, exactly as the first save left them.
pub proof fn lemma_content_addressing(
    s0: MemBlobStore,
    s1: MemBlobStore,
    s2: MemBlobStore,
    data: Seq<u8>,
    id1: AssetId,
    id2: AssetId,
)
    requires
        save_post(s0, s1, data, id1),
        save_post(s1, s2, data, id2),
    ensures
        id1@ == id2@,
        s2.rc_of(content_digest(data)) == s1.rc_of(content_digest(data)) + 1,
        s1.data_of(content_digest(data)) == Some(data) || s1.data_of(content_digest(data))
            == s0.data_of(content_digest(data)),
        s2.data_of(content_digest(data)) == s1.data_of(content_digest(data)),
        forall|o: Seq<u8>|
            o != content_digest(data) ==> s2.rc_of(o) == s1.rc_of(o) && s2.data_of(o)
                == s1.data_of(o),
{
}

/// An operation as it touches one particular id.
pub enum BlobOp {
    /// A `save` of bytes hashing to the id.
    Save,
    /// A `retain` of the id.
    Retain,
    /// A `release` of the id.
    Release,
}

/// How one operation moves the (count, data present) pair of its id.  This
/// is exactly what the contracts of `save`, `retain` and `release` say of
/// the touched id.
pub open spec fn blob_step(st: (nat, bool), op: BlobOp) -> (nat, bool) {
    match op {
        BlobOp::Save => (if st.1 {
            st.0 + 1
        } else {
            1nat
        }, true),
        BlobOp::Retain => (st.0 + 1, st.1),
        BlobOp::Release => if st.0 <= 1 {
            (0nat, false)
        } else {
            ((st.0 - 1) as nat, st.1)
        },
    }
}

/// The state of an id after a sequence of operations on it.
pub open spec fn blob_run(st: (nat, bool), ops: Seq<BlobOp>) -> (nat, bool)
    decreases ops.len(),
{
    if ops.len() == 0 {
        st
    } else {
        blob_step(blob_run(st, ops.subrange(0, ops.len() - 1)), ops[ops.len() - 1])
    }
}

/// The algebraic sum of a sequence of operations: +1 for save and retain,
/// -1 for release.
pub open spec fn blob_net(ops: Seq<BlobOp>) -> int
    decreases ops.len(),
{
    if ops.len() == 0 {
        0
    } else {
        blob_net(ops.subrange(0, ops.len() - 1)) + (match ops[ops.len() - 1] {
            BlobOp::Save => 1int,
            BlobOp::Retain => 1int,
            BlobOp::Release => -1int,
        })
    }
}

/// Refcount integrity: starting from an absent id, a sequence of operations
/// whose retains and releases only ever touch a live count leaves the count
/// at the algebraic sum of the sequence, and the id is physically present
/// exactly when that sum is positive.  (A retain of an absent id would
/// create a dangling counter without data; such sequences are excluded.)
pub proof fn lemma_refcount_integrity(ops: Seq<BlobOp>)
    requires
        forall|i: int|
            0 <= i < ops.len() && !((#[trigger] ops[i]) is Save) ==> blob_run(
                (0nat, false),
                ops.subrange(0, i),
            ).0 > 0,
    ensures
        blob_run((0nat, false), ops).0 == blob_net(ops),
        blob_run((0nat, false), ops).1 == (blob_net(ops) > 0),
    decreases ops.len(),
{
    if ops.len() > 0 {
        let pre = ops.subrange(0, ops.len() - 1);
        assert forall|i: int|
            0 <= i < pre.len() && !((#[trigger] pre[i]) is Save) implies blob_run(
            (0nat, false),
            pre.subrange(0, i),
        ).0 > 0 by {
            assert(pre[i] == ops[i]);
            assert(pre.subrange(0, i) =~= ops.subrange(0, i));
        }
        lemma_refcount_integrity(pre);
        let st = blob_run((0nat, false), pre);
        let last = ops[ops.len() - 1];
        if !(last is Save) {
            assert(ops.subrange(0, ops.len() - 1) == pre);
            assert(st.0 > 0);
        }
    }
}

} // verus!
