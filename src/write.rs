use vstd::prelude::*;

use std::collections::VecDeque;

use slab::Slab;

use crate::epochs::{insert_slot, new_table, remove_slot, set_slot, slab_epochs, slot_bound, slot_epoch};

verus! {

/// A data structure that the writer keeps in two copies and changes through operations of type `O`.
pub trait Absorb<O>: Sized + View {
    /// What applying `op` makes of a copy in state `state`.
    spec fn absorbed(state: <Self as View>::V, op: O) -> <Self as View>::V;

    /// Whether `op` can be applied to a copy.
    spec fn accepts(op: O) -> bool;

    /// The internal invariant of a copy.
    spec fn wf(&self) -> bool;

    /// What operations leave as it was in a copy, such as how it was configured when built.
    spec fn setup_kept(before: Self, after: Self) -> bool;

    /// Applies `operation` to the copy that readers do not see, keeping the operation for the
    /// other copy.
    fn absorb_first(&mut self, operation: &O, other: &Self)
        requires
            old(self).wf(),
            other.wf(),
            Self::accepts(*operation),
        ensures
            final(self).wf(),
            final(self)@ == Self::absorbed(old(self)@, *operation),
            Self::setup_kept(*old(self), *final(self)),
    ;

    /// Applies `operation` to the copy that readers do not see, for the last time: the operation
    /// is used up.
    fn absorb_second(&mut self, operation: O, other: &Self)
        requires
            old(self).wf(),
            other.wf(),
            Self::accepts(operation),
        ensures
            final(self).wf(),
            final(self)@ == Self::absorbed(old(self)@, operation),
            Self::setup_kept(*old(self), *final(self)),
    ;

    /// Makes this copy equal to `first`.
    fn sync_with(&mut self, first: &Self)
        requires
            old(self).wf(),
            first.wf(),
        ensures
            final(self).wf(),
            final(self)@ == first@,
            Self::setup_kept(*old(self), *final(self)),
    ;
}

/// The state reached from `state` by applying `ops` in order.
pub open spec fn absorb_all<T: Absorb<O>, O>(state: T::V, ops: Seq<O>) -> T::V
    decreases ops.len(),
{
    if ops.len() == 0 {
        state
    } else {
        T::absorbed(absorb_all::<T, O>(state, ops.drop_last()), ops.last())
    }
}

/// Applying `a` and then `b` is applying `a + b`.
pub proof fn lemma_absorb_all_concat<T: Absorb<O>, O>(state: T::V, a: Seq<O>, b: Seq<O>)
    ensures
        absorb_all::<T, O>(absorb_all::<T, O>(state, a), b) == absorb_all::<T, O>(state, a + b),
    decreases b.len(),
{
    if b.len() == 0 {
        assert(a + b =~= a);
    } else {
        lemma_absorb_all_concat::<T, O>(state, a, b.drop_last());
        assert((a + b).drop_last() =~= a + b.drop_last());
        assert((a + b).last() == b.last());
    }
}

/// Applying one more operation after `ops` is applying `ops.push(op)`.
pub proof fn lemma_absorb_all_push<T: Absorb<O>, O>(state: T::V, ops: Seq<O>, op: O)
    ensures
        absorb_all::<T, O>(state, ops.push(op)) == T::absorbed(absorb_all::<T, O>(state, ops), op),
{
    assert(ops.push(op).drop_last() =~= ops);
}

/// The epoch that follows an odd epoch when its reader leaves.
pub open spec fn next_epoch(epoch: u64) -> u64 {
    if epoch == u64::MAX {
        0
    } else {
        (epoch + 1) as u64
    }
}

/// The writer's end of a structure kept in two copies: one that readers see, and one that the
/// writer brings up to date before the two are swapped.
pub struct WriteHandle<T, O> {
    w_handle: T,
    r_handle: T,
    oplog: VecDeque<O>,
    swap_index: usize,
    epochs: Slab<u64>,
    last_epochs: Vec<u64>,
    refreshes: usize,
    first: bool,
    second: bool,
    early: Ghost<Seq<O>>,
}

impl<T: Absorb<O>, O> WriteHandle<T, O> {
    /// The state that readers see.
    pub closed spec fn published(&self) -> T::V {
        self.r_handle@
    }

    /// The operations appended since the last publish, in order.
    pub closed spec fn pending(&self) -> Seq<O> {
        if self.first {
            self.early@
        } else {
            self.oplog@.subrange(self.swap_index as int, self.oplog@.len() as int)
        }
    }

    /// The state that readers will see after the next publish.
    pub open spec fn current(&self) -> T::V {
        absorb_all::<T, O>(self.published(), self.pending())
    }

    /// The operations the writer keeps: those the write copy still lacks, then those readers do
    /// not see yet.
    pub closed spec fn log(&self) -> Seq<O> {
        self.oplog@
    }

    /// No publish has happened yet.
    pub closed spec fn is_first(&self) -> bool {
        self.first
    }

    /// The registered readers and the epoch counter of each.
    pub closed spec fn readers(&self) -> Map<usize, u64> {
        slab_epochs(self.epochs)
    }

    /// The epoch of `reader` recorded right after the last swap.
    pub closed spec fn last_epoch(&self, reader: usize) -> u64 {
        if reader < self.last_epochs@.len() {
            self.last_epochs@[reader as int]
        } else {
            0
        }
    }

    /// The number of publishes so far.
    pub closed spec fn publishes(&self) -> nat {
        self.refreshes as nat
    }

    /// The copy the writer works on.
    pub closed spec fn write_copy(&self) -> T {
        self.w_handle
    }

    /// The copy readers see.
    pub closed spec fn read_copy(&self) -> T {
        self.r_handle
    }

    /// `reader` was inside a read when the copies were last swapped and has not moved since, so
    /// it may still be reading the copy the writer is about to change.
    pub open spec fn blocks(&self, reader: usize) -> bool {
        &&& self.readers().contains_key(reader)
        &&& self.last_epoch(reader) % 2 == 1
        &&& self.readers()[reader] == self.last_epoch(reader)
    }

    /// No reader may still be reading the copy the writer is about to change.
    pub open spec fn readers_gone(&self) -> bool {
        forall|reader: usize| !#[trigger] self.blocks(reader)
    }

    /// The invariant of the handle.
    pub closed spec fn wf(&self) -> bool {
        &&& self.w_handle.wf()
        &&& self.r_handle.wf()
        &&& self.swap_index <= self.oplog@.len()
        &&& forall|i: int| 0 <= i < self.oplog@.len() ==> T::accepts(#[trigger] self.oplog@[i])
        &&& self.first ==> {
            &&& self.second
            &&& self.oplog@.len() == 0
            &&& self.swap_index == 0
            &&& self.w_handle@ == absorb_all::<T, O>(self.r_handle@, self.early@)
        }
        &&& !self.first && self.second ==> self.swap_index == 0
        &&& !self.first && !self.second ==> absorb_all::<T, O>(
            self.w_handle@,
            self.oplog@.subrange(0, self.swap_index as int),
        ) == self.r_handle@
    }

    /// Builds a handle over two equal copies; readers see `r_handle` until the first publish.
    pub fn new(w_handle: T, r_handle: T) -> (r: Self)
        requires
            w_handle.wf(),
            r_handle.wf(),
            w_handle@ == r_handle@,
        ensures
            r.wf(),
            r.is_first(),
            r.published() == r_handle@,
            r.pending() == Seq::<O>::empty(),
            r.readers().dom().is_empty(),
            r.publishes() == 0,
            r.log() == Seq::<O>::empty(),
            r.write_copy() == w_handle,
            r.read_copy() == r_handle,
            forall|q: usize| #[trigger] r.last_epoch(q) == 0,
    {
        WriteHandle {
            w_handle,
            r_handle,
            oplog: VecDeque::new(),
            swap_index: 0,
            epochs: new_table(),
            last_epochs: Vec::new(),
            refreshes: 0,
            first: true,
            second: true,
            early: Ghost(Seq::empty()),
        }
    }

    /// Appends an operation. Readers do not see it until the next publish.
    pub fn append(&mut self, op: O)
        requires
            old(self).wf(),
            T::accepts(op),
        ensures
            final(self).wf(),
            final(self).published() == old(self).published(),
            final(self).pending() == old(self).pending().push(op),
            final(self).current() == T::absorbed(old(self).current(), op),
            final(self).is_first() == old(self).is_first(),
            final(self).readers() == old(self).readers(),
            final(self).publishes() == old(self).publishes(),
            forall|q: usize| #[trigger] final(self).last_epoch(q) == old(self).last_epoch(q),
            final(self).read_copy() == old(self).read_copy(),
            !old(self).is_first() ==> final(self).log() == old(self).log().push(op),
            !old(self).is_first() ==> final(self).write_copy() == old(self).write_copy(),
            old(self).is_first() ==> final(self).log() == old(self).log(),
            old(self).is_first() ==> T::setup_kept(old(self).write_copy(), final(self).write_copy()),
    {
        proof {
            lemma_absorb_all_push::<T, O>(self.published(), self.pending(), op);
        }
        if self.first {
            // No reader has ever seen the write copy: change it in place, for good.
            T::absorb_second(&mut self.w_handle, op, &self.r_handle);
            proof {
                assert(self.early@.push(op).drop_last() =~= self.early@);
            }
            self.early = Ghost(self.early@.push(op));
        } else {
            let ghost before = self.oplog@;
            self.oplog.push_back(op);
            proof {
                assert forall|i: int| 0 <= i < self.oplog@.len() implies T::accepts(
                    #[trigger] self.oplog@[i],
                ) by {
                    if i < before.len() {
                        assert(self.oplog@[i] == before[i]);
                    }
                }
                assert(self.oplog@.subrange(0, self.swap_index as int) =~= before.subrange(
                    0,
                    self.swap_index as int,
                ));
                assert(self.oplog@.subrange(self.swap_index as int, self.oplog@.len() as int)
                    =~= before.subrange(self.swap_index as int, before.len() as int).push(op));
            }
        }
    }

    /// Appends operations in order.
    pub fn extend(&mut self, ops: Vec<O>)
        requires
            old(self).wf(),
            forall|i: int| 0 <= i < ops@.len() ==> T::accepts(#[trigger] ops@[i]),
        ensures
            final(self).wf(),
            final(self).published() == old(self).published(),
            final(self).pending() == old(self).pending() + ops@,
            final(self).is_first() == old(self).is_first(),
            final(self).readers() == old(self).readers(),
            final(self).publishes() == old(self).publishes(),
            forall|q: usize| #[trigger] final(self).last_epoch(q) == old(self).last_epoch(q),
            final(self).read_copy() == old(self).read_copy(),
            !old(self).is_first() ==> final(self).log() == old(self).log() + ops@,
            !old(self).is_first() ==> final(self).write_copy() == old(self).write_copy(),
            old(self).is_first() ==> final(self).log() == old(self).log(),
    {
        let ghost all = ops@;
        let mut rest = ops;
        let mut ops: Vec<O> = Vec::new();
        while rest.len() > 0
            invariant
                rest@.len() + ops@.len() == all.len(),
                forall|i: int| 0 <= i < rest@.len() ==> rest@[i] == all[i],
                forall|i: int| 0 <= i < ops@.len() ==> ops@[i] == all[all.len() - 1 - i],
            decreases rest@.len(),
        {
            let op = rest.pop().unwrap();
            ops.push(op);
        }
        let n = ops.len();
        while ops.len() > 0
            invariant
                self.wf(),
                n == all.len(),
                ops@.len() <= n,
                forall|i: int| 0 <= i < ops@.len() ==> ops@[i] == all[n - 1 - i],
                forall|i: int| 0 <= i < all.len() ==> T::accepts(#[trigger] all[i]),
                self.published() == old(self).published(),
                self.pending() == old(self).pending() + all.subrange(0, n - ops@.len()),
                self.is_first() == old(self).is_first(),
                self.readers() == old(self).readers(),
                self.publishes() == old(self).publishes(),
                forall|q: usize| #[trigger] self.last_epoch(q) == old(self).last_epoch(q),
                self.read_copy() == old(self).read_copy(),
                !old(self).is_first() ==> self.log() == old(self).log() + all.subrange(
                    0,
                    n - ops@.len(),
                ),
                !old(self).is_first() ==> self.write_copy() == old(self).write_copy(),
                old(self).is_first() ==> self.log() == old(self).log(),
            decreases ops@.len(),
        {
            let ghost k = n - ops@.len();
            let op = ops.pop().unwrap();
            proof {
                assert(op == all[k]);
                assert(all.subrange(0, k + 1) =~= all.subrange(0, k).push(op));
                assert(old(self).pending() + all.subrange(0, k + 1) =~= (old(self).pending()
                    + all.subrange(0, k)).push(op));
                assert(old(self).log() + all.subrange(0, k + 1) =~= (old(self).log()
                    + all.subrange(0, k)).push(op));
            }
            self.append(op);
        }
        proof {
            assert(all.subrange(0, n as int) =~= all);
        }
    }

    /// Whether some appended operation is not yet visible to readers. Before the first publish
    /// operations change the write copy directly, and none counts as pending here.
    pub fn has_pending_operations(&self) -> (r: bool)
        requires
            self.wf(),
        ensures
            r == (!self.is_first() && self.pending().len() > 0),
    {
        self.swap_index < self.oplog.len()
    }

    /// The copy the writer works on, which readers do not see.
    pub fn raw_write_handle(&self) -> (r: &T)
        requires
            self.wf(),
        ensures
            *r == self.write_copy(),
            self.is_first() ==> r@ == self.current(),
    {
        proof {
            if self.first {
                assert(self.pending() == self.early@);
            }
        }
        &self.w_handle
    }

    /// The copy that readers see.
    pub fn read(&self) -> (r: &T)
        requires
            self.wf(),
        ensures
            r@ == self.published(),
            r.wf(),
    {
        &self.r_handle
    }

    /// The number of publishes so far.
    pub fn refreshes(&self) -> (r: usize)
        ensures
            r == self.publishes(),
    {
        self.refreshes
    }

    /// Whether no publish has happened yet.
    pub fn is_first_phase(&self) -> (r: bool)
        ensures
            r == self.is_first(),
    {
        self.first
    }

    /// The number of operations the writer still keeps, visible or not.
    pub fn oplog_len(&self) -> (r: usize)
        requires
            self.wf(),
        ensures
            r == self.log().len(),
            self.is_first() ==> r == 0,
            !self.is_first() ==> self.pending().len() <= r && self.pending() == self.log().subrange(
                r - self.pending().len(),
                r as int,
            ),
    {
        self.oplog.len()
    }

    /// Registers a new reader, outside any read, and returns its slot.
    pub fn register_reader(&mut self) -> (r: usize)
        requires
            old(self).wf(),
        ensures
            final(self).wf(),
            !old(self).readers().contains_key(r),
            final(self).readers() == old(self).readers().insert(r, 0),
            final(self).published() == old(self).published(),
            final(self).pending() == old(self).pending(),
            final(self).is_first() == old(self).is_first(),
            final(self).publishes() == old(self).publishes(),
            forall|q: usize| #[trigger] final(self).last_epoch(q) == old(self).last_epoch(q),
            final(self).read_copy() == old(self).read_copy(),
            final(self).write_copy() == old(self).write_copy(),
            final(self).log() == old(self).log(),
    {
        insert_slot(&mut self.epochs, 0)
    }

    /// Removes a reader's slot; tells whether it was registered.
    pub fn deregister_reader(&mut self, reader: usize) -> (r: bool)
        requires
            old(self).wf(),
        ensures
            final(self).wf(),
            r == old(self).readers().contains_key(reader),
            final(self).readers() == old(self).readers().remove(reader),
            final(self).published() == old(self).published(),
            final(self).pending() == old(self).pending(),
            final(self).is_first() == old(self).is_first(),
            final(self).publishes() == old(self).publishes(),
            forall|q: usize| #[trigger] final(self).last_epoch(q) == old(self).last_epoch(q),
            final(self).read_copy() == old(self).read_copy(),
            final(self).write_copy() == old(self).write_copy(),
            final(self).log() == old(self).log(),
    {
        remove_slot(&mut self.epochs, reader).is_some()
    }

    /// A reader starts a read: its epoch goes from even to odd. Tells whether the reader was
    /// registered and outside any read; otherwise nothing changes.
    pub fn enter(&mut self, reader: usize) -> (r: bool)
        requires
            old(self).wf(),
        ensures
            final(self).wf(),
            r == (old(self).readers().contains_key(reader) && old(self).readers()[reader] % 2 == 0),
            r ==> final(self).readers() == old(self).readers().insert(
                reader,
                (old(self).readers()[reader] + 1) as u64,
            ),
            !r ==> final(self).readers() == old(self).readers(),
            final(self).published() == old(self).published(),
            final(self).pending() == old(self).pending(),
            final(self).is_first() == old(self).is_first(),
            final(self).publishes() == old(self).publishes(),
            forall|q: usize| #[trigger] final(self).last_epoch(q) == old(self).last_epoch(q),
            final(self).read_copy() == old(self).read_copy(),
            final(self).write_copy() == old(self).write_copy(),
            final(self).log() == old(self).log(),
    {
        match slot_epoch(&self.epochs, reader) {
            Some(epoch) => {
                if epoch % 2 == 0 {
                    set_slot(&mut self.epochs, reader, epoch + 1);
                    true
                } else {
                    false
                }
            },
            None => false,
        }
    }

    /// A reader ends a read: its epoch goes from odd to the next even value, wrapping to 0 after
    /// the largest. Tells whether the reader was registered and inside a read; otherwise nothing
    /// changes.
    pub fn exit(&mut self, reader: usize) -> (r: bool)
        requires
            old(self).wf(),
        ensures
            final(self).wf(),
            r == (old(self).readers().contains_key(reader) && old(self).readers()[reader] % 2 == 1),
            r ==> final(self).readers() == old(self).readers().insert(
                reader,
                next_epoch(old(self).readers()[reader]),
            ),
            !r ==> final(self).readers() == old(self).readers(),
            final(self).published() == old(self).published(),
            final(self).pending() == old(self).pending(),
            final(self).is_first() == old(self).is_first(),
            final(self).publishes() == old(self).publishes(),
            forall|q: usize| #[trigger] final(self).last_epoch(q) == old(self).last_epoch(q),
            final(self).read_copy() == old(self).read_copy(),
            final(self).write_copy() == old(self).write_copy(),
            final(self).log() == old(self).log(),
    {
        match slot_epoch(&self.epochs, reader) {
            Some(epoch) => {
                if epoch % 2 == 1 {
                    let next = if epoch == u64::MAX {
                        0
                    } else {
                        epoch + 1
                    };
                    set_slot(&mut self.epochs, reader, next);
                    true
                } else {
                    false
                }
            },
            None => false,
        }
    }

    /// A reader that may still be reading the copy the writer is about to change, if any.
    pub fn blocking_reader(&self) -> (r: Option<usize>)
        requires
            self.wf(),
        ensures
            r matches Some(reader) ==> self.blocks(reader),
            r is None ==> self.readers_gone(),
    {
        let bound = slot_bound(&self.epochs);
        let mut i: usize = 0;
        while i < bound
            invariant
                0 <= i <= bound,
                forall|k: usize| self.readers().contains_key(k) ==> k < bound,
                forall|j: usize| j < i ==> !#[trigger] self.blocks(j),
            decreases bound - i,
        {
            match slot_epoch(&self.epochs, i) {
                Some(now) => {
                    let last = if i < self.last_epochs.len() {
                        self.last_epochs[i]
                    } else {
                        0
                    };
                    if last % 2 == 1 && now == last {
                        return Some(i);
                    }
                },
                None => {},
            }
            i += 1;
        }
        None
    }

    /// Records the epoch of every reader slot below `bound` as of now.
    fn snapshot_epochs(&mut self)
        requires
            old(self).wf(),
        ensures
            final(self).wf(),
            forall|q: usize| #[trigger]
                final(self).last_epoch(q) == (if old(self).readers().contains_key(q) {
                    old(self).readers()[q]
                } else {
                    0
                }),
            final(self).w_handle == old(self).w_handle,
            final(self).r_handle == old(self).r_handle,
            final(self).oplog == old(self).oplog,
            final(self).swap_index == old(self).swap_index,
            final(self).epochs == old(self).epochs,
            final(self).refreshes == old(self).refreshes,
            final(self).first == old(self).first,
            final(self).second == old(self).second,
            final(self).early == old(self).early,
    {
        let bound = slot_bound(&self.epochs);
        let mut last: Vec<u64> = Vec::with_capacity(bound);
        let mut i: usize = 0;
        while i < bound
            invariant
                0 <= i <= bound,
                last@.len() == i,
                forall|k: usize| slab_epochs(self.epochs).contains_key(k) ==> k < bound,
                forall|j: int|
                    0 <= j < i ==> #[trigger] last@[j] == (if slab_epochs(
                        self.epochs,
                    ).contains_key(j as usize) {
                        slab_epochs(self.epochs)[j as usize]
                    } else {
                        0
                    }),
            decreases bound - i,
        {
            let e = match slot_epoch(&self.epochs, i) {
                Some(now) => now,
                None => 0,
            };
            last.push(e);
            i += 1;
        }
        self.last_epochs = last;
        proof {
            assert forall|q: usize| #[trigger]
                self.last_epoch(q) == (if old(self).readers().contains_key(q) {
                    old(self).readers()[q]
                } else {
                    0
                }) by {
                if q < bound {
                    assert(self.last_epochs@[q as int] == (if slab_epochs(
                        self.epochs,
                    ).contains_key(q) {
                        slab_epochs(self.epochs)[q]
                    } else {
                        0
                    }));
                }
            }
        }
    }

    /// Brings the write copy up to date, swaps the copies and records the readers' epochs.
    /// Every reader must have left the write copy.
    pub fn publish(&mut self)
        requires
            old(self).wf(),
            old(self).readers_gone(),
        ensures
            final(self).wf(),
            final(self).published() == old(self).current(),
            final(self).pending() == Seq::<O>::empty(),
            final(self).published() == absorb_all::<T, O>(
                final(self).write_copy()@,
                old(self).pending(),
            ),
            final(self).write_copy() == old(self).read_copy(),
            final(self).write_copy()@ == old(self).published(),
            final(self).log() == (if old(self).is_first() {
                Seq::<O>::empty()
            } else {
                old(self).pending()
            }),
            !final(self).is_first(),
            final(self).readers() == old(self).readers(),
            final(self).publishes() == (if old(self).publishes() < usize::MAX {
                old(self).publishes() + 1
            } else {
                old(self).publishes()
            }),
            forall|q: usize| #[trigger]
                final(self).last_epoch(q) == (if old(self).readers().contains_key(q) {
                    old(self).readers()[q]
                } else {
                    0
                }),
    {
        if !self.first {
            if self.second {
                self.w_handle.sync_with(&self.r_handle);
                self.second = false;
            }
            let ghost log = self.oplog@;
            let ghost w0 = self.w_handle@;
            let swap_index = self.swap_index;
            proof {
                assert(log.subrange(0, 0) =~= Seq::<O>::empty());
            }
            // Operations that readers already see in the other copy: replay them for the last
            // time.
            let mut k: usize = 0;
            while k < swap_index
                invariant
                    0 <= k <= swap_index,
                    swap_index <= log.len(),
                    self.oplog@ == log.subrange(k as int, log.len() as int),
                    self.w_handle.wf(),
                    self.r_handle.wf(),
                    self.r_handle == old(self).r_handle,
                    self.epochs == old(self).epochs,
                    self.refreshes == old(self).refreshes,
                    self.first == old(self).first,
                    !self.first,
                    !self.second,
                    self.swap_index == swap_index,
                    self.w_handle@ == absorb_all::<T, O>(w0, log.subrange(0, k as int)),
                    forall|i: int| 0 <= i < log.len() ==> T::accepts(#[trigger] log[i]),
                decreases swap_index - k,
            {
                let op = self.oplog.pop_front().unwrap();
                proof {
                    assert(op == log[k as int]);
                    assert(log.subrange(0, k + 1).drop_last() =~= log.subrange(0, k as int));
                }
                T::absorb_second(&mut self.w_handle, op, &self.r_handle);
                proof {
                    assert(self.oplog@ =~= log.subrange(k + 1, log.len() as int));
                }
                k += 1;
            }
            let ghost rest = self.oplog@;
            let ghost w1 = self.w_handle@;
            proof {
                assert(log.subrange(0, swap_index as int) =~= old(self).oplog@.subrange(
                    0,
                    old(self).swap_index as int,
                ));
                if old(self).second {
                    assert(log.subrange(0, 0) =~= Seq::<O>::empty());
                }
                assert(w1 == old(self).r_handle@);
            }
            let m = self.oplog.len();
            proof {
                assert(rest.subrange(0, 0) =~= Seq::<O>::empty());
                assert(rest =~= rest.subrange(0, m as int) + rest.subrange(0, 0));
            }
            // Operations that readers do not see yet: apply them and keep them for the other copy.
            let mut j: usize = 0;
            while j < m
                invariant
                    0 <= j <= m,
                    m == rest.len(),
                    self.oplog@ == rest.subrange(j as int, m as int) + rest.subrange(0, j as int),
                    self.w_handle.wf(),
                    self.r_handle.wf(),
                    self.r_handle == old(self).r_handle,
                    self.epochs == old(self).epochs,
                    self.refreshes == old(self).refreshes,
                    !self.first,
                    !self.second,
                    self.w_handle@ == absorb_all::<T, O>(w1, rest.subrange(0, j as int)),
                    forall|i: int| 0 <= i < rest.len() ==> T::accepts(#[trigger] rest[i]),
                decreases m - j,
            {
                let op = self.oplog.pop_front().unwrap();
                proof {
                    assert(op == rest[j as int]);
                    assert(rest.subrange(0, j + 1).drop_last() =~= rest.subrange(0, j as int));
                }
                T::absorb_first(&mut self.w_handle, &op, &self.r_handle);
                self.oplog.push_back(op);
                proof {
                    assert(self.oplog@ =~= rest.subrange(j + 1, m as int) + rest.subrange(
                        0,
                        j + 1,
                    ));
                }
                j += 1;
            }
            self.swap_index = m;
            proof {
                assert(self.oplog@ =~= rest);
                assert(rest.subrange(0, m as int) =~= rest);
                assert(log.subrange(0, swap_index as int) == old(self).oplog@.subrange(
                    0,
                    old(self).swap_index as int,
                ));
                assert(rest =~= old(self).pending());
                assert(self.oplog@.subrange(0, self.swap_index as int) =~= rest);
            }
        } else {
            self.first = false;
            self.early = Ghost(Seq::empty());
        }
        std::mem::swap(&mut self.w_handle, &mut self.r_handle);
        if self.refreshes < usize::MAX {
            self.refreshes = self.refreshes + 1;
        }
        proof {
            assert(self.oplog@.subrange(self.swap_index as int, self.oplog@.len() as int)
                =~= Seq::<O>::empty());
        }
        self.snapshot_epochs();
    }

    /// Publishes if every reader has left the write copy; otherwise changes nothing and names a
    /// reader that is still there.
    pub fn try_publish(&mut self) -> (r: Result<(), usize>)
        requires
            old(self).wf(),
        ensures
            final(self).wf(),
            r is Ok <==> old(self).readers_gone(),
            r matches Err(reader) ==> old(self).blocks(reader) && *final(self) == *old(self),
            r is Ok ==> {
                &&& final(self).published() == old(self).current()
                &&& final(self).pending() == Seq::<O>::empty()
                &&& final(self).write_copy() == old(self).read_copy()
                &&& final(self).log() == (if old(self).is_first() {
                    Seq::<O>::empty()
                } else {
                    old(self).pending()
                })
                &&& !final(self).is_first()
                &&& final(self).readers() == old(self).readers()
                &&& final(self).publishes() == (if old(self).publishes() < usize::MAX {
                    old(self).publishes() + 1
                } else {
                    old(self).publishes()
                })
                &&& forall|q: usize| #[trigger]
                    final(self).last_epoch(q) == (if old(self).readers().contains_key(q) {
                        old(self).readers()[q]
                    } else {
                        0
                    })
            },
    {
        match self.blocking_reader() {
            Some(reader) => Err(reader),
            None => {
                self.publish();
                Ok(())
            },
        }
    }

    /// Publishes only if some appended operation is not yet visible to readers.
    pub fn flush(&mut self)
        requires
            old(self).wf(),
            !old(self).is_first() && old(self).pending().len() > 0 ==> old(self).readers_gone(),
        ensures
            final(self).wf(),
            final(self).current() == old(self).current(),
            final(self).readers() == old(self).readers(),
            !old(self).is_first() ==> final(self).pending() == Seq::<O>::empty(),
            !old(self).is_first() ==> final(self).published() == old(self).current(),
            old(self).is_first() || old(self).pending().len() == 0 ==> *final(self) == *old(self),
    {
        if self.has_pending_operations() {
            self.publish();
        }
        proof {
            if !old(self).is_first() && old(self).pending().len() == 0 {
                assert(old(self).pending() =~= Seq::<O>::empty());
            }
        }
    }

    /// The number of operations appended since the last publish that readers do not see yet.
    pub fn pending_operations(&self) -> (r: usize)
        requires
            self.wf(),
        ensures
            r == (if self.is_first() {
                0
            } else {
                self.pending().len()
            }),
    {
        self.oplog.len() - self.swap_index
    }

    /// Shuts the handle down: publishes until both copies hold every operation, and gives back
    /// the write copy and the read copy. No reader may be inside a read.
    pub fn close(self) -> (r: (T, T))
        requires
            self.wf(),
            forall|q: usize| #[trigger] self.readers().contains_key(q) ==> self.readers()[q] % 2 == 0,
        ensures
            r.0@ == self.current(),
            r.1@ == self.current(),
    {
        let mut w = self;
        w.publish();
        w.publish();
        (w.w_handle, w.r_handle)
    }
}

} // verus!
