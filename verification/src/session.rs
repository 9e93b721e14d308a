//! The session store: meta and data rows keyed by a time-ordered 128-bit
//! identifier, with newest-first listing.  The verified store here carries
//! the semantics; a disk-backed engine mirrors it row for row.
use vstd::prelude::*;

verus! {

/// Session store faults.
#[derive(Clone, Copy, PartialEq, Eq, Structural, Debug)]
pub enum SessionStoreError {
    /// Ten fresh identifiers in a row were already taken.
    UuidCollision,
    /// The backing engine failed.
    StorageError,
    /// A transaction could not commit; retryable.
    TransactionError,
    /// The read-modify-write closure rejected the stored value.
    CASInnerError,
}

/// One session row: identifier, listing row, payload row.
pub struct SessionRow {
    pub id: u128,
    pub meta: Vec<u8>,
    pub data: Vec<u8>,
}

/// Index of the row holding `id`, scanning from `i`.
pub open spec fn sidx_from(s: Seq<SessionRow>, id: u128, i: int) -> Option<int>
    decreases s.len() - i,
{
    if i < 0 || i >= s.len() {
        None
    } else if s[i].id == id {
        Some(i)
    } else {
        sidx_from(s, id, i + 1)
    }
}

pub open spec fn sidx(s: Seq<SessionRow>, id: u128) -> Option<int> {
    sidx_from(s, id, 0)
}

pub proof fn lemma_sidx_props(s: Seq<SessionRow>, id: u128, i: int)
    requires
        0 <= i,
    ensures
        match sidx_from(s, id, i) {
            Some(j) => i <= j < s.len() && s[j].id == id && forall|k: int|
                i <= k < j ==> s[k].id != id,
            None => forall|k: int| i <= k < s.len() ==> s[k].id != id,
        },
    decreases s.len() - i,
{
    if 0 <= i < s.len() && s[i].id != id {
        lemma_sidx_props(s, id, i + 1);
    }
}

proof fn lemma_sidx_same_ids(s: Seq<SessionRow>, t: Seq<SessionRow>, id: u128, i: int)
    requires
        s.len() == t.len(),
        forall|k: int| 0 <= k < s.len() ==> s[k].id == t[k].id,
    ensures
        sidx_from(s, id, i) == sidx_from(t, id, i),
    decreases s.len() - i,
{
    if 0 <= i < s.len() {
        lemma_sidx_same_ids(s, t, id, i + 1);
    }
}

proof fn lemma_sidx_push(s: Seq<SessionRow>, e: SessionRow, id: u128, i: int)
    requires
        0 <= i,
    ensures
        sidx_from(s, id, i) matches Some(j) ==> sidx_from(s.push(e), id, i) == Some(j),
        sidx_from(s, id, i) is None && id == e.id && i <= s.len() ==> sidx_from(s.push(e), id, i)
            == Some(s.len() as int),
        sidx_from(s, id, i) is None && id != e.id ==> sidx_from(s.push(e), id, i) is None,
    decreases s.len() - i,
{
    if i < s.len() {
        lemma_sidx_push(s, e, id, i + 1);
    } else {
        assert(s.push(e)[s.len() as int] == e);
        if i == s.len() {
            assert(sidx_from(s.push(e), id, i + 1) is None);
        } else {
            assert(i >= s.push(e).len());
        }
    }
}

/// A session store held in memory, rows in append order.  Identifiers are
/// time ordered, so append order is creation order; listing walks it
/// backwards.
pub struct MemSessionStore {
    pub rows: Vec<SessionRow>,
}

impl MemSessionStore {
    /// The listing row under `id`.
    pub open spec fn meta_of(&self, id: u128) -> Option<Seq<u8>> {
        match sidx(self.rows@, id) {
            None => None,
            Some(i) => Some(self.rows@[i].meta@),
        }
    }

    /// The payload row under `id`.
    pub open spec fn data_of(&self, id: u128) -> Option<Seq<u8>> {
        match sidx(self.rows@, id) {
            None => None,
            Some(i) => Some(self.rows@[i].data@),
        }
    }

    /// Identifiers are unique.
    pub open spec fn wf(&self) -> bool {
        forall|i: int, j: int|
            0 <= i < j < self.rows@.len() ==> self.rows@[i].id != self.rows@[j].id
    }

    /// An empty store.
    pub fn new() -> (r: MemSessionStore)
        ensures
            r.wf(),
            r.rows@.len() == 0,
    {
        MemSessionStore { rows: Vec::new() }
    }

    fn find_row(&self, id: u128) -> (r: Option<usize>)
        ensures
            match r {
                Some(i) => sidx(self.rows@, id) == Some(i as int),
                None => sidx(self.rows@, id) is None,
            },
    {
        let mut i: usize = 0;
        while i < self.rows.len()
            invariant
                i <= self.rows@.len(),
                sidx_from(self.rows@, id, 0) == sidx_from(self.rows@, id, i as int),
            decreases self.rows@.len() - i,
        {
            if self.rows[i].id == id {
                return Some(i);
            }
            i = i + 1;
        }
        None
    }

    /// Insert both rows under a caller-minted fresh id.  Fails on a
    /// collision, which the caller retries with a new id, up to ten times.
    pub fn append(&mut self, id: u128, meta: Vec<u8>, data: Vec<u8>) -> (r: Result<
        (),
        SessionStoreError,
    >)
        requires
            old(self).wf(),
        ensures
            final(self).wf(),
            old(self).meta_of(id) is Some ==> r == Err::<(), SessionStoreError>(
                SessionStoreError::UuidCollision,
            ) && *final(self) == *old(self),
            old(self).meta_of(id) is None ==> {
                &&& r is Ok
                &&& final(self).rows@ == old(self).rows@.push(
                    SessionRow { id, meta, data },
                )
                &&& final(self).meta_of(id) == Some(meta@)
                &&& final(self).data_of(id) == Some(data@)
                &&& forall|k: u128|
                    k != id ==> final(self).meta_of(k) == old(self).meta_of(k)
                        && final(self).data_of(k) == old(self).data_of(k)
            },
    {
        let ghost olds = self.rows@;
        match self.find_row(id) {
            Some(_) => Err(SessionStoreError::UuidCollision),
            None => {
                let e = SessionRow { id, meta, data };
                proof {
                    lemma_sidx_props(olds, id, 0);
                }
                self.rows.push(e);
                proof {
                    lemma_sidx_push(olds, e, id, 0);
                    assert(self.rows@[olds.len() as int] == e);
                    assert forall|k: u128|
                        k != id implies self.meta_of(k) == (match sidx(olds, k) {
                        None => None::<Seq<u8>>,
                        Some(i) => Some(olds[i].meta@),
                    }) && self.data_of(k) == (match sidx(olds, k) {
                        None => None::<Seq<u8>>,
                        Some(i) => Some(olds[i].data@),
                    }) by {
                        lemma_sidx_push(olds, e, k, 0);
                        lemma_sidx_props(olds, k, 0);
                        lemma_sidx_props(self.rows@, k, 0);
                    }
                    assert forall|i: int, j: int|
                        0 <= i < j < self.rows@.len() implies self.rows@[i].id
                        != self.rows@[j].id by {
                        if j == olds.len() {
                            lemma_sidx_props(olds, id, 0);
                            assert(self.rows@[i] == olds[i]);
                        }
                    }
                }
                Ok(())
            },
        }
    }

    /// Overwrite both rows, inserting if absent.
    pub fn update(&mut self, id: u128, meta: Vec<u8>, data: Vec<u8>)
        requires
            old(self).wf(),
        ensures
            final(self).wf(),
            final(self).meta_of(id) == Some(meta@),
            final(self).data_of(id) == Some(data@),
            forall|k: u128|
                k != id ==> final(self).meta_of(k) == old(self).meta_of(k) && final(self).data_of(
                    k,
                ) == old(self).data_of(k),
    {
        let ghost olds = self.rows@;
        match self.find_row(id) {
            Some(i) => {
                proof {
                    lemma_sidx_props(olds, id, 0);
                }
                self.rows[i] = SessionRow { id, meta, data };
                proof {
                    assert forall|k: u128|
                        sidx(self.rows@, k) == sidx(olds, k) by {
                        lemma_sidx_same_ids(self.rows@, olds, k, 0);
                    }
                    assert forall|k: u128|
                        k != id implies self.meta_of(k) == (match sidx(olds, k) {
                        None => None::<Seq<u8>>,
                        Some(j) => Some(olds[j].meta@),
                    }) && self.data_of(k) == (match sidx(olds, k) {
                        None => None::<Seq<u8>>,
                        Some(j) => Some(olds[j].data@),
                    }) by {
                        lemma_sidx_props(olds, k, 0);
                    }
                }
            },
            None => {
                let e = SessionRow { id, meta, data };
                proof {
                    lemma_sidx_props(olds, id, 0);
                }
                self.rows.push(e);
                proof {
                    lemma_sidx_push(olds, e, id, 0);
                    assert(self.rows@[olds.len() as int] == e);
                    assert forall|k: u128|
                        k != id implies self.meta_of(k) == (match sidx(olds, k) {
                        None => None::<Seq<u8>>,
                        Some(j) => Some(olds[j].meta@),
                    }) && self.data_of(k) == (match sidx(olds, k) {
                        None => None::<Seq<u8>>,
                        Some(j) => Some(olds[j].data@),
                    }) by {
                        lemma_sidx_push(olds, e, k, 0);
                        lemma_sidx_props(olds, k, 0);
                        lemma_sidx_props(self.rows@, k, 0);
                    }
                    assert forall|i: int, j: int|
                        0 <= i < j < self.rows@.len() implies self.rows@[i].id
                        != self.rows@[j].id by {
                        if j == olds.len() {
                            assert(self.rows@[i] == olds[i]);
                        }
                    }
                }
            },
        }
    }

    /// Point read of the listing row.
    pub fn get_meta(&self, id: u128) -> (r: Option<Vec<u8>>)
        ensures
            match r {
                Some(v) => self.meta_of(id) == Some(v@),
                None => self.meta_of(id) is None,
            },
    {
        match self.find_row(id) {
            None => None,
            Some(i) => {
                proof {
                    lemma_sidx_props(self.rows@, id, 0);
                }
                let m = &self.rows[i].meta;
                let c = crate::textops::sub_bytes(m, 0, m.len());
                proof {
                    assert(c@ =~= self.rows@[i as int].meta@);
                }
                Some(c)
            },
        }
    }

    /// Point read of the payload row.
    pub fn get_data(&self, id: u128) -> (r: Option<Vec<u8>>)
        ensures
            match r {
                Some(v) => self.data_of(id) == Some(v@),
                None => self.data_of(id) is None,
            },
    {
        match self.find_row(id) {
            None => None,
            Some(i) => {
                proof {
                    lemma_sidx_props(self.rows@, id, 0);
                }
                let m = &self.rows[i].data;
                let c = crate::textops::sub_bytes(m, 0, m.len());
                proof {
                    assert(c@ =~= self.rows@[i as int].data@);
                }
                Some(c)
            },
        }
    }

    /// Newest-first page of (id, meta) pairs: skip `offset`, take `limit`.
    pub fn list(&self, limit: Option<usize>, offset: Option<usize>) -> (r: Vec<(u128, Vec<u8>)>)
        ensures
            forall|q: int|
                0 <= q < r@.len() ==> {
                    let i = self.rows@.len() - 1 - (match offset {
                        Some(o) => o as int,
                        None => 0int,
                    }) - q;
                    &&& 0 <= i < self.rows@.len()
                    &&& (#[trigger] r@[q]).0 == self.rows@[i].id
                    &&& r@[q].1@ == self.rows@[i].meta@
                },
            r@.len() == {
                let o = (match offset {
                    Some(o) => o as int,
                    None => 0int,
                });
                let avail = if o >= self.rows@.len() {
                    0int
                } else {
                    self.rows@.len() - o
                };
                match limit {
                    Some(l) => if l as int <= avail {
                        l as int
                    } else {
                        avail
                    },
                    None => avail,
                }
            },
    {
        let o: usize = match offset {
            Some(o) => o,
            None => 0,
        };
        let mut out: Vec<(u128, Vec<u8>)> = Vec::new();
        let n = self.rows.len();
        if o >= n {
            return out;
        }
        let avail: usize = n - o;
        let want: usize = match limit {
            Some(l) => if l <= avail {
                l
            } else {
                avail
            },
            None => avail,
        };
        let mut q: usize = 0;
        while q < want
            invariant
                n == self.rows@.len(),
                o + want <= n,
                o as int + want <= self.rows@.len(),
                q <= want,
                out@.len() == q,
                forall|p: int|
                    0 <= p < q ==> {
                        let i = self.rows@.len() - 1 - o - p;
                        &&& 0 <= i < self.rows@.len()
                        &&& (#[trigger] out@[p]).0 == self.rows@[i].id
                        &&& out@[p].1@ == self.rows@[i].meta@
                    },
            decreases want - q,
        {
            let i: usize = n - 1 - o - q;
            let m = &self.rows[i].meta;
            let c = crate::textops::sub_bytes(m, 0, m.len());
            proof {
                assert(c@ =~= self.rows@[i as int].meta@);
            }
            out.push((self.rows[i].id, c));
            q = q + 1;
        }
        out
    }

    /// Remove both rows; hand back the payload that was stored.
    pub fn delete(&mut self, id: u128) -> (r: Option<Vec<u8>>)
        requires
            old(self).wf(),
        ensures
            final(self).wf(),
            match r {
                Some(v) => old(self).data_of(id) == Some(v@),
                None => old(self).data_of(id) is None,
            },
            final(self).meta_of(id) is None,
            final(self).data_of(id) is None,
            forall|k: u128|
                k != id ==> final(self).meta_of(k) == old(self).meta_of(k) && final(self).data_of(
                    k,
                ) == old(self).data_of(k),
    {
        let ghost olds = self.rows@;
        match self.find_row(id) {
            None => {
                proof {
                    lemma_sidx_props(olds, id, 0);
                }
                None
            },
            Some(i) => {
                proof {
                    lemma_sidx_props(olds, id, 0);
                }
                let row = self.rows.remove(i);
                proof {
                    let news = self.rows@;
                    assert forall|k: u128|
                        k != id implies (match #[trigger] sidx(news, k) {
                        None => None::<Seq<u8>>,
                        Some(j) => Some(news[j].meta@),
                    }) == (match sidx(olds, k) {
                        None => None::<Seq<u8>>,
                        Some(j) => Some(olds[j].meta@),
                    }) && (match sidx(news, k) {
                        None => None::<Seq<u8>>,
                        Some(j) => Some(news[j].data@),
                    }) == (match sidx(olds, k) {
                        None => None::<Seq<u8>>,
                        Some(j) => Some(olds[j].data@),
                    }) by {
                        lemma_sidx_props(olds, k, 0);
                        lemma_sidx_props(news, k, 0);
                        match sidx(olds, k) {
                            Some(j) => {
                                if j < i {
                                    assert(news[j] == olds[j]);
                                    if sidx(news, k) is None {
                                        assert(news[j].id == k);
                                    }
                                } else {
                                    assert(news[j - 1] == olds[j]);
                                    if sidx(news, k) is None {
                                        assert(news[j - 1].id == k);
                                    }
                                }
                                match sidx(news, k) {
                                    Some(m) => {
                                        if m < i {
                                            assert(olds[m] == news[m]);
                                        } else {
                                            assert(olds[m + 1] == news[m]);
                                        }
                                    },
                                    None => {},
                                }
                            },
                            None => {
                                match sidx(news, k) {
                                    Some(m) => {
                                        if m < i {
                                            assert(olds[m] == news[m]);
                                        } else {
                                            assert(olds[m + 1] == news[m]);
                                        }
                                    },
                                    None => {},
                                }
                            },
                        }
                    }
                    assert forall|ii: int, j: int|
                        0 <= ii < j < self.rows@.len() implies self.rows@[ii].id
                        != self.rows@[j].id by {
                        let a = if ii < i {
                            ii
                        } else {
                            ii + 1
                        };
                        let b = if j < i {
                            j
                        } else {
                            j + 1
                        };
                        assert(self.rows@[ii] == olds[a]);
                        assert(self.rows@[j] == olds[b]);
                    }
                    if sidx(self.rows@, id) is Some {
                        lemma_sidx_props(self.rows@, id, 0);
                        let m = sidx(self.rows@, id).unwrap();
                        let b = if m < i {
                            m
                        } else {
                            m + 1
                        };
                        assert(self.rows@[m] == olds[b]);
                    }
                }
                Some(row.data)
            },
        }
    }
}

} // verus!
