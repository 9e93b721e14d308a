//! The per-connection request multiplexer's bookkeeping: which request ids
//! are active, and whether an event may still be delivered.  The transport
//! loop spawns and aborts tasks; this table decides, and its law says that
//! after an accepted abort no event of that request is delivered again.
use vstd::prelude::*;

verus! {

/// The table of active request ids of one client connection.
pub struct RequestTable {
    pub active: Vec<u128>,
}

/// What the transport loop does to the table.
pub enum MuxOp {
    /// A chat, regenerate or edit request starts.
    Start(u128),
    /// The client aborts the request.
    Abort(u128),
    /// The request's task ended on its own.
    Finish(u128),
}

/// The table's contents after one operation.
pub open spec fn mux_step(s: Set<u128>, op: MuxOp) -> Set<u128> {
    match op {
        MuxOp::Start(r) => s.insert(r),
        MuxOp::Abort(r) => s.remove(r),
        MuxOp::Finish(r) => s.remove(r),
    }
}

/// The table's contents after a sequence of operations.
pub open spec fn mux_run(s: Set<u128>, ops: Seq<MuxOp>) -> Set<u128>
    decreases ops.len(),
{
    if ops.len() == 0 {
        s
    } else {
        mux_step(mux_run(s, ops.subrange(0, ops.len() - 1)), ops[ops.len() - 1])
    }
}

/// After an abort of `r` is accepted, no later operation short of a fresh
/// start of `r` makes `r` active again: no further event of `r` is
/// delivered.
pub proof fn lemma_no_events_after_abort(s: Set<u128>, ops: Seq<MuxOp>, r: u128)
    requires
        !s.contains(r),
        forall|i: int| 0 <= i < ops.len() ==> ops[i] != MuxOp::Start(r),
    ensures
        !mux_run(s, ops).contains(r),
    decreases ops.len(),
{
    if ops.len() > 0 {
        let pre = ops.subrange(0, ops.len() - 1);
        assert forall|i: int| 0 <= i < pre.len() implies pre[i] != MuxOp::Start(r) by {
            assert(pre[i] == ops[i]);
        }
        lemma_no_events_after_abort(s, pre, r);
        assert(ops[ops.len() - 1] != MuxOp::Start(r));
    }
}

impl RequestTable {
    /// The set of active ids.
    pub open spec fn view_set(&self) -> Set<u128> {
        self.active@.to_set()
    }

    /// Ids are listed once.
    pub open spec fn wf(&self) -> bool {
        forall|i: int, j: int|
            0 <= i < j < self.active@.len() ==> self.active@[i] != self.active@[j]
    }

    /// An empty table.
    pub fn new() -> (r: RequestTable)
        ensures
            r.wf(),
            r.view_set() =~= Set::<u128>::empty(),
    {
        let r = RequestTable { active: Vec::new() };
        proof {
            assert(r.active@.to_set() =~= Set::<u128>::empty());
        }
        r
    }

    /// Whether an event of `r` may still be forwarded to the client.
    pub fn should_deliver(&self, r: u128) -> (b: bool)
        ensures
            b == self.view_set().contains(r),
    {
        let mut i: usize = 0;
        while i < self.active.len()
            invariant
                i <= self.active@.len(),
                forall|k: int| 0 <= k < i ==> self.active@[k] != r,
            decreases self.active@.len() - i,
        {
            if self.active[i] == r {
                proof {
                    assert(self.active@.contains(r));
                }
                return true;
            }
            i = i + 1;
        }
        proof {
            if self.active@.to_set().contains(r) {
                assert(self.active@.contains(r));
                let k = choose|k: int| 0 <= k < self.active@.len() && self.active@[k] == r;
                assert(false);
            }
        }
        false
    }

    /// A request starts: record it.
    pub fn start(&mut self, r: u128)
        requires
            old(self).wf(),
        ensures
            final(self).wf(),
            final(self).view_set() =~= mux_step(old(self).view_set(), MuxOp::Start(r)),
    {
        let present = self.should_deliver(r);
        if !present {
            self.active.push(r);
            proof {
                assert(self.active@.to_set() =~= old(self).active@.to_set().insert(r)) by {
                    assert forall|x: u128| self.active@.to_set().contains(x) implies old(
                        self,
                    ).active@.to_set().insert(r).contains(x) by {
                        let k = choose|k: int|
                            0 <= k < self.active@.len() && self.active@[k] == x;
                        if k < old(self).active@.len() {
                            assert(old(self).active@[k] == x);
                            assert(old(self).active@.contains(x));
                        }
                    }
                    assert forall|x: u128|
                        old(self).active@.to_set().insert(r).contains(x) implies self
                        .active@.to_set().contains(x) by {
                        if x == r {
                            assert(self.active@[old(self).active@.len() as int] == r);
                            assert(self.active@.contains(r));
                        } else {
                            let k = choose|k: int|
                                0 <= k < old(self).active@.len() && old(self).active@[k] == x;
                            assert(self.active@[k] == x);
                            assert(self.active@.contains(x));
                        }
                    }
                }
                assert forall|i: int, j: int|
                    0 <= i < j < self.active@.len() implies self.active@[i]
                    != self.active@[j] by {
                    if j == old(self).active@.len() {
                        assert(self.active@[i] == old(self).active@[i]);
                        assert(old(self).active@.contains(old(self).active@[i])) by {}
                    }
                }
            }
        } else {
            proof {
                assert(old(self).view_set().insert(r) =~= old(self).view_set());
            }
        }
    }

    /// Remove a request id, for an abort or a natural finish.
    pub fn remove_id(&mut self, r: u128)
        requires
            old(self).wf(),
        ensures
            final(self).wf(),
            final(self).view_set() =~= mux_step(old(self).view_set(), MuxOp::Abort(r)),
            !final(self).view_set().contains(r),
    {
        let ghost olds = self.active@;
        let mut i: usize = 0;
        while i < self.active.len()
            invariant
                old(self).wf(),
                i <= self.active@.len(),
                self.active@ == olds,
                olds == old(self).active@,
                forall|k: int| 0 <= k < i ==> olds[k] != r,
            decreases self.active@.len() - i,
        {
            if self.active[i] == r {
                self.active.remove(i);
                proof {
                    let news = self.active@;
                    assert(news =~= olds.remove(i as int));
                    assert forall|ii: int, j: int|
                        0 <= ii < j < news.len() implies news[ii] != news[j] by {
                        let a = if ii < i {
                            ii
                        } else {
                            ii + 1
                        };
                        let b = if j < i {
                            j
                        } else {
                            j + 1
                        };
                        assert(news[ii] == olds[a]);
                        assert(news[j] == olds[b]);
                    }
                    assert(news.to_set() =~= olds.to_set().remove(r)) by {
                        assert forall|x: u128| news.to_set().contains(x) implies olds
                            .to_set().remove(r).contains(x) by {
                            let k = choose|k: int| 0 <= k < news.len() && news[k] == x;
                            let a = if k < i {
                                k
                            } else {
                                k + 1
                            };
                            assert(olds[a] == x);
                            assert(olds.contains(x));
                            assert(olds[i as int] == r);
                            if x == r {
                                assert(a != i);
                                assert(false);
                            }
                        }
                        assert forall|x: u128|
                            olds.to_set().remove(r).contains(x) implies news.to_set().contains(
                            x,
                        ) by {
                            let k = choose|k: int| 0 <= k < olds.len() && olds[k] == x;
                            if k < i {
                                assert(news[k] == x);
                            } else if k > i {
                                assert(news[k - 1] == x);
                            }
                            assert(news.contains(x));
                        }
                    }
                }
                return ;
            }
            i = i + 1;
        }
        proof {
            assert(!olds.contains(r));
            if olds.to_set().contains(r) {
                let k = choose|k: int| 0 <= k < olds.len() && olds[k] == r;
                assert(false);
            }
            assert(olds.to_set().remove(r) =~= olds.to_set());
        }
    }
}

} // verus!
