use crate::slot::Callback;
use crate::slot::Slot;
use crate::slot::Status;
use vstd::prelude::*;

verus! {

/// True of the statuses whose slot `add` may overwrite: `Used` or `Empty`.
pub open spec fn reusable(s: Status) -> bool {
    s == Status::Used || s == Status::Empty
}

/// True of the statuses from which `exec` runs a slot, that is `Pending`
/// or `Used`; `Busy` guards against re-entry and `Empty` has nothing to run.
pub open spec fn runnable(s: Status) -> bool {
    s != Status::Busy && s != Status::Empty
}

/// The index `add` assigns on a sequence of slots: the lowest reusable
/// index, or the length when no slot is reusable (an append).
pub open spec fn assign_index(slots: Seq<Slot>) -> int
    decreases slots.len(),
{
    if slots.len() == 0 {
        0
    } else if reusable(slots[0].used) {
        0
    } else {
        1 + assign_index(slots.drop_first())
    }
}

/// The indices below `n` whose slot `exec_all` skips (status `Busy` or
/// `Empty`), in ascending order.
pub open spec fn skipped_prefix(slots: Seq<Slot>, n: int) -> Seq<usize>
    decreases n,
{
    if n <= 0 {
        Seq::empty()
    } else if runnable(slots[n - 1].used) {
        skipped_prefix(slots, n - 1)
    } else {
        skipped_prefix(slots, n - 1).push((n - 1) as usize)
    }
}

/// The indices `exec_all` reports as skipped, in ascending order.
pub open spec fn skipped(slots: Seq<Slot>) -> Seq<usize> {
    skipped_prefix(slots, slots.len() as int)
}

/// The owning registry of slots: an ordered, index-addressable sequence,
/// providing allocation with reuse, status transitions and execution.
pub struct Manager {
    list: Vec<Slot>,
}

impl View for Manager {
    type V = Seq<Slot>;

    closed spec fn view(&self) -> Seq<Slot> {
        self.list@
    }
}

impl Manager {
    /// Builds an empty registry; `cap` is a pre-allocation hint, not a
    /// hard limit.
    pub fn new(cap: usize) -> (m: Manager)
        ensures
            m@ == Seq::<Slot>::empty(),
    {
        Manager { list: Vec::with_capacity(cap) }
    }

    /// The number of slots currently stored.
    pub fn len(&self) -> (n: usize)
        ensures
            n == self@.len(),
    {
        self.list.len()
    }

    /// Direct read access to the slot at `id`, bypassing the higher-level
    /// operations.
    pub fn get(&self, id: usize) -> (s: &Slot)
        requires
            id < self@.len(),
        ensures
            *s == self@[id as int],
    {
        &self.list[id]
    }

    /// Stores a slot and returns its index.
    ///
    /// The lowest slot whose status is `Used` or `Empty` is overwritten in
    /// place — its previous callable and status are discarded without
    /// warning — and its index returned; with no such slot the new slot is
    /// appended at the end.
    pub fn add(&mut self, func: Slot) -> (id: usize)
        ensures
            id as int == assign_index(old(self)@),
            id <= old(self)@.len(),
            id < old(self)@.len() ==> final(self)@ == old(self)@.update(id as int, func),
            id == old(self)@.len() ==> final(self)@ == old(self)@.push(func),
    {
        let mut i: usize = 0;
        while i < self.list.len()
            invariant
                self.list == old(self).list,
                i <= self.list.len(),
                forall|j: int| 0 <= j < i ==> !reusable(self.list@[j].used),
            decreases self.list@.len() - i,
        {
            let st = self.list[i].used;
            if st == Status::Used || st == Status::Empty {
                proof {
                    lemma_assign_index_bounds(self@);
                    if assign_index(self@) < i as int {
                        assert(!reusable(self@[assign_index(self@)].used));
                    }
                }
                self.list[i] = func;
                return i;
            }
            i = i + 1;
        }
        proof {
            lemma_assign_index_bounds(self@);
            if assign_index(self@) < self@.len() {
                assert(!reusable(self@[assign_index(self@)].used));
            }
        }
        self.list.push(func);
        self.list.len() - 1
    }

    /// Vacates slot `id`: its callable becomes the no-op and its status
    /// `Empty`, whatever they were before, so a future `add` may reuse the
    /// index.
    pub fn rem(&mut self, id: usize)
        requires
            id < old(self)@.len(),
        ensures
            final(self)@.len() == old(self)@.len(),
            final(self)@[id as int].used == Status::Empty,
            final(self)@[id as int].closure is NoOp,
            forall|j: int| 0 <= j < old(self)@.len() && j != id ==> final(self)@[j] == old(
                self,
            )@[j],
    {
        self.list[id].closure = Callback::NoOp;
        self.list[id].used = Status::Empty;
    }

    /// Marks slot `id` ready to run again: its status becomes `Pending`,
    /// whatever it was before, and its callable is left untouched.
    pub fn reload(&mut self, id: usize)
        requires
            id < old(self)@.len(),
        ensures
            final(self)@.len() == old(self)@.len(),
            final(self)@[id as int].used == Status::Pending,
            final(self)@[id as int].closure == old(self)@[id as int].closure,
            forall|j: int| 0 <= j < old(self)@.len() && j != id ==> final(self)@[j] == old(
                self,
            )@[j],
    {
        self.list[id].used = Status::Pending;
    }

    /// Marks every slot `Pending`, the `Empty` ones included (their no-op
    /// then "succeeds" trivially if executed); no callable is touched.
    pub fn reload_all(&mut self)
        ensures
            final(self)@.len() == old(self)@.len(),
            forall|j: int| 0 <= j < old(self)@.len() ==> final(self)@[j].used == Status::Pending
                && final(self)@[j].closure == old(self)@[j].closure,
    {
        let mut i: usize = 0;
        while i < self.list.len()
            invariant
                i <= self.list@.len(),
                self.list@.len() == old(self)@.len(),
                forall|j: int| 0 <= j < i ==> self.list@[j].used == Status::Pending
                    && self.list@[j].closure == old(self)@[j].closure,
                forall|j: int| i <= j < old(self)@.len() ==> self.list@[j] == old(self)@[j],
            decreases self.list@.len() - i,
        {
            self.list[i].used = Status::Pending;
            i = i + 1;
        }
    }

    /// Runs slot `id` once when its status allows it.
    ///
    /// A `Pending` or `Used` slot transitions to `Busy`, has its callable
    /// invoked synchronously, ends up `Used`, and `true` is returned. A
    /// `Busy` or `Empty` slot is left untouched, nothing is invoked, and
    /// `false` is returned.
    pub fn exec(&mut self, id: usize) -> (r: bool)
        requires
            id < old(self)@.len(),
        ensures
            r == runnable(old(self)@[id as int].used),
            final(self)@.len() == old(self)@.len(),
            r ==> final(self)@[id as int].used == Status::Used && final(self)@[id as int].closure
                == old(self)@[id as int].closure,
            forall|j: int| 0 <= j < old(self)@.len() && j != id ==> final(self)@[j] == old(
                self,
            )@[j],
            !r ==> final(self)@ == old(self)@,
    {
        if self.list[id].used != Status::Busy && self.list[id].used != Status::Empty {
            self.list[id].used = Status::Busy;
            self.list[id].invoke();
            self.list[id].used = Status::Used;
            true
        } else {
            false
        }
    }

    /// Runs every eligible slot once, in index order, and reports the rest.
    ///
    /// Each `Pending` or `Used` slot goes through `Busy`, is invoked, and
    /// ends up `Used`, exactly as in `exec`. Each `Busy` or `Empty` slot is
    /// skipped with no invocation and no status change, and its index
    /// recorded. `Ok(())` comes back when nothing was skipped, otherwise
    /// `Err` with the skipped indices in ascending order; the eligible
    /// slots have run either way.
    pub fn exec_all(&mut self) -> (r: Result<(), Vec<usize>>)
        ensures
            final(self)@.len() == old(self)@.len(),
            forall|j: int|
                0 <= j < old(self)@.len() && runnable(old(self)@[j].used)
                    ==> final(self)@[j].used == Status::Used
                    && final(self)@[j].closure == old(self)@[j].closure,
            forall|j: int|
                0 <= j < old(self)@.len() && !runnable(old(self)@[j].used) ==> final(self)@[j]
                    == old(self)@[j],
            r is Ok <==> (forall|j: int|
                0 <= j < old(self)@.len() ==> runnable(old(self)@[j].used)),
            r matches Err(e) ==> e@ == skipped(old(self)@),
    {
        let mut errs: Vec<usize> = Vec::new();
        let mut i: usize = 0;
        while i < self.list.len()
            invariant
                i <= self.list@.len(),
                self.list@.len() == old(self)@.len(),
                errs@ == skipped_prefix(old(self)@, i as int),
                forall|j: int|
                    0 <= j < i && runnable(old(self)@[j].used) ==> self.list@[j].used
                        == Status::Used && self.list@[j].closure == old(self)@[j].closure,
                forall|j: int|
                    0 <= j < i && !runnable(old(self)@[j].used) ==> self.list@[j] == old(
                        self,
                    )@[j],
                forall|j: int| i <= j < old(self)@.len() ==> self.list@[j] == old(self)@[j],
            decreases self.list@.len() - i,
        {
            let st = self.list[i].used;
            if st == Status::Busy || st == Status::Empty {
                errs.push(i);
            } else {
                self.list[i].used = Status::Busy;
                self.list[i].invoke();
                self.list[i].used = Status::Used;
            }
            i = i + 1;
        }
        proof {
            lemma_skipped_correct(old(self)@);
        }
        if errs.len() != 0 {
            Err(errs)
        } else {
            Ok(())
        }
    }

    /// Appends a slot at the end, bypassing the reuse policy of `add`.
    pub fn push_back(&mut self, func: Slot)
        ensures
            final(self)@ == old(self)@.push(func),
    {
        self.list.push(func);
    }
}

/// The assigned index is the lowest reusable index, or the length when no
/// slot is reusable: it never passes over a reusable slot and never lands
/// on a slot that is not.
pub proof fn lemma_assign_index_bounds(slots: Seq<Slot>)
    ensures
        0 <= assign_index(slots) <= slots.len(),
        assign_index(slots) < slots.len() ==> reusable(slots[assign_index(slots)].used),
        forall|j: int| 0 <= j < assign_index(slots) ==> !reusable(slots[j].used),
        forall|k: int| 0 <= k < slots.len() && reusable(slots[k].used) ==> assign_index(slots) <= k,
    decreases slots.len(),
{
    if slots.len() == 0 {
    } else if reusable(slots[0].used) {
    } else {
        let rest = slots.drop_first();
        lemma_assign_index_bounds(rest);
        assert forall|j: int| 0 <= j < assign_index(slots) implies !reusable(slots[j].used) by {
            if j > 0 {
                assert(slots[j] == rest[j - 1]);
            }
        };
        assert forall|k: int| 0 <= k < slots.len() && reusable(slots[k].used) implies assign_index(
            slots,
        ) <= k by {
            if k > 0 {
                assert(rest[k - 1] == slots[k]);
            }
        };
        if assign_index(slots) < slots.len() {
            assert(slots[assign_index(slots)] == rest[assign_index(slots) - 1]);
        }
    }
}

/// Law: adding to an empty manager, whatever its capacity, always
/// assigns index 0.
pub proof fn lemma_add_to_empty_assigns_zero(slots: Seq<Slot>)
    requires
        slots.len() == 0,
    ensures
        assign_index(slots) == 0,
{
}

/// Law: with no reusable slot, `add` appends at the length; and once a
/// slot that is itself not reusable has been appended there, the next
/// `add` assigns the next index.
pub proof fn lemma_add_appends_in_order(slots: Seq<Slot>, func: Slot)
    requires
        forall|j: int| 0 <= j < slots.len() ==> !reusable(slots[j].used),
        !reusable(func.used),
    ensures
        assign_index(slots) == slots.len(),
        assign_index(slots.push(func)) == slots.len() + 1,
{
    lemma_assign_index_bounds(slots);
    if assign_index(slots) < slots.len() {
        assert(!reusable(slots[assign_index(slots)].used));
    }
    let grown = slots.push(func);
    assert forall|j: int| 0 <= j < grown.len() implies !reusable(grown[j].used) by {
        if j < slots.len() {
            assert(grown[j] == slots[j]);
        } else {
            assert(grown[j] == func);
        }
    };
    lemma_assign_index_bounds(grown);
    if assign_index(grown) < grown.len() {
        assert(!reusable(grown[assign_index(grown)].used));
    }
}

/// Law: with a reusable slot (`Used` or `Empty`) at some index `k`, `add`
/// reuses the lowest reusable index — never an index above `k`, and never
/// an append.
pub proof fn lemma_add_reuses_lowest(slots: Seq<Slot>, k: int)
    requires
        0 <= k < slots.len(),
        reusable(slots[k].used),
    ensures
        assign_index(slots) <= k,
        assign_index(slots) < slots.len(),
        reusable(slots[assign_index(slots)].used),
        forall|j: int| 0 <= j < assign_index(slots) ==> !reusable(slots[j].used),
{
    lemma_assign_index_bounds(slots);
}

/// The skipped indices below `n` are exactly the in-range indices whose
/// slot is not runnable, listed in ascending order.
proof fn lemma_skipped_prefix_correct(slots: Seq<Slot>, n: int)
    requires
        0 <= n <= slots.len(),
        slots.len() <= usize::MAX,
    ensures
        forall|k: int|
            0 <= k < skipped_prefix(slots, n).len() ==> ((#[trigger] skipped_prefix(slots, n)[k])
                as int) < n && !runnable(slots[skipped_prefix(slots, n)[k] as int].used),
        forall|k1: int, k2: int|
            0 <= k1 < k2 < skipped_prefix(slots, n).len() ==> skipped_prefix(slots, n)[k1]
                < skipped_prefix(slots, n)[k2],
        forall|j: int|
            0 <= j < n && !runnable(slots[j].used) ==> skipped_prefix(slots, n).contains(
                j as usize,
            ),
        skipped_prefix(slots, n).len() == 0 <==> (forall|j: int|
            0 <= j < n ==> runnable(slots[j].used)),
    decreases n,
{
    if n <= 0 {
    } else {
        lemma_skipped_prefix_correct(slots, n - 1);
        let prev = skipped_prefix(slots, n - 1);
        let cur = skipped_prefix(slots, n);
        if runnable(slots[n - 1].used) {
            assert(cur == prev);
            assert forall|j: int| 0 <= j < n && !runnable(slots[j].used) implies cur.contains(
                j as usize,
            ) by {
                assert(j < n - 1);
            };
            if prev.len() == 0 {
                assert forall|j: int| 0 <= j < n implies runnable(slots[j].used) by {
                    if j < n - 1 {
                        assert(runnable(slots[j].used));
                    }
                };
            }
        } else {
            assert(cur == prev.push((n - 1) as usize));
            assert forall|k: int|
                0 <= k < cur.len() implies ((#[trigger] cur[k]) as int) < n && !runnable(
                    slots[cur[k] as int].used,
                ) by {
                if k < prev.len() {
                    assert(cur[k] == prev[k]);
                    assert((prev[k] as int) < n - 1);
                    assert(!runnable(slots[prev[k] as int].used));
                } else {
                    assert(cur[k] == (n - 1) as usize);
                }
            };
            assert forall|k1: int, k2: int|
                0 <= k1 < k2 < cur.len() implies cur[k1] < cur[k2] by {
                if k2 == prev.len() {
                    assert(cur[k2] == (n - 1) as usize);
                    assert(cur[k1] == prev[k1]);
                    assert((prev[k1] as int) < n - 1);
                } else {
                    assert(cur[k1] == prev[k1]);
                    assert(cur[k2] == prev[k2]);
                }
            };
            assert forall|j: int| 0 <= j < n && !runnable(slots[j].used) implies cur.contains(
                j as usize,
            ) by {
                if j < n - 1 {
                    let w = choose|w: int| 0 <= w < prev.len() && prev[w] == j as usize;
                    assert(cur[w] == j as usize);
                } else {
                    assert(cur[prev.len() as int] == (n - 1) as usize);
                }
            };
        }
    }
}

/// Law: `exec_all`'s reported list holds exactly the indices of the
/// `Busy` or `Empty` slots, each once, in ascending order, and is empty
/// exactly when every slot is runnable.
pub proof fn lemma_skipped_correct(slots: Seq<Slot>)
    requires
        slots.len() <= usize::MAX,
    ensures
        forall|k: int|
            0 <= k < skipped(slots).len() ==> ((#[trigger] skipped(slots)[k]) as int)
                < slots.len() && !runnable(slots[skipped(slots)[k] as int].used),
        forall|k1: int, k2: int|
            0 <= k1 < k2 < skipped(slots).len() ==> skipped(slots)[k1] < skipped(slots)[k2],
        forall|j: int|
            0 <= j < slots.len() && !runnable(slots[j].used) ==> skipped(slots).contains(
                j as usize,
            ),
        skipped(slots).len() == 0 <==> (forall|j: int|
            0 <= j < slots.len() ==> runnable(slots[j].used)),
{
    lemma_skipped_prefix_correct(slots, slots.len() as int);
}

} // verus!
