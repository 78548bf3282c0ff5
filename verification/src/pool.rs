use vstd::prelude::*;
use crate::layout::{
    checked_pool_layout, pool_layout, spec_objects_offset, spec_required_size, PoolLayout,
};
use vstd::layout::{align_of, layout_for_type_is_valid, size_of};

verus! {

/// A claim ticket for one pool slot. A `PoolSlot` is created only by a
/// successful acquisition and destroyed only by `Pool::release`, which
/// consumes it; ownership transfer makes a second release of the same claim
/// unrepresentable.
pub struct PoolSlot {
    index: usize,
}

impl View for PoolSlot {
    type V = int;

    /// A slot guard is abstractly the index of the slot it owns.
    closed spec fn view(&self) -> int {
        self.index as int
    }
}

impl PoolSlot {
    /// The index of the slot this guard owns.
    pub fn index(&self) -> (i: usize)
        ensures
            i as int == self@,
    {
        self.index
    }
}

/// Index of the first unclaimed flag at or after position `i`, if any.
pub open spec fn first_free_from(flags: Seq<bool>, i: int) -> Option<int>
    decreases flags.len() - i,
    when 0 <= i <= flags.len()
{
    if i >= flags.len() {
        None
    } else if !flags[i] {
        Some(i)
    } else {
        first_free_from(flags, i + 1)
    }
}

/// Index of the first unclaimed flag, if any: the slot a scan in index order
/// claims next.
pub open spec fn first_free(flags: Seq<bool>) -> Option<int> {
    first_free_from(flags, 0)
}

/// A fixed-capacity object pool: one claim flag and one storage cell per
/// slot. A slot's object may be read or written only while the slot's flag is
/// claimed, and each claim is represented by exactly one live `PoolSlot`.
pub struct Pool<T> {
    n_elem: usize,
    used_list: Vec<bool>,
    objects: Vec<T>,
}

impl<T: Copy> Pool<T> {
    /// Number of slots in the pool.
    pub closed spec fn capacity(&self) -> int {
        self.n_elem as int
    }

    /// The claim flags, one per slot: `true` means claimed.
    pub closed spec fn flags(&self) -> Seq<bool> {
        self.used_list@
    }

    /// The stored objects, one per slot.
    pub closed spec fn elems(&self) -> Seq<T> {
        self.objects@
    }

    /// Well-formedness: one flag and one storage cell per slot.
    pub open spec fn wf(&self) -> bool {
        &&& self.flags().len() == self.capacity()
        &&& self.elems().len() == self.capacity()
    }

    /// Every slot is currently claimed.
    pub open spec fn all_claimed(&self) -> bool {
        forall|i: int| 0 <= i < self.capacity() ==> self.flags()[i]
    }

    /// How one acquisition attempt relates the pool before the attempt, the
    /// pool after it, and its outcome: on success the returned guard owns the
    /// first slot that was unclaimed, whose flag is now claimed; on failure
    /// every slot was claimed and nothing changed. Objects are never touched.
    pub open spec fn acquire_step(pre: Self, post: Self, r: Option<PoolSlot>) -> bool {
        &&& post.wf()
        &&& post.capacity() == pre.capacity()
        &&& post.elems() == pre.elems()
        &&& match r {
            Some(slot) => {
                &&& 0 <= slot@ < pre.capacity()
                &&& !pre.flags()[slot@]
                &&& forall|j: int| 0 <= j < slot@ ==> pre.flags()[j]
                &&& first_free(pre.flags()) == Some(slot@)
                &&& post.flags() == pre.flags().update(slot@, true)
            },
            None => {
                &&& pre.all_claimed()
                &&& first_free(pre.flags()) is None
                &&& post.flags() == pre.flags()
            },
        }
    }

    /// Creates a pool of `n_elements` slots, all unclaimed, each storage cell
    /// holding `fill`.
    pub fn new(n_elements: usize, fill: T) -> (p: Pool<T>)
        ensures
            p.wf(),
            p.capacity() == n_elements,
            forall|i: int| 0 <= i < n_elements ==> !p.flags()[i],
            forall|i: int| 0 <= i < n_elements ==> p.elems()[i] == fill,
    {
        let mut used_list: Vec<bool> = Vec::new();
        let mut objects: Vec<T> = Vec::new();
        let mut i: usize = 0;
        while i < n_elements
            invariant
                i <= n_elements,
                used_list@.len() == i,
                objects@.len() == i,
                forall|j: int| 0 <= j < i ==> !used_list@[j],
                forall|j: int| 0 <= j < i ==> objects@[j] == fill,
            decreases n_elements - i,
        {
            used_list.push(false);
            objects.push(fill);
            i += 1;
        }
        Pool { n_elem: n_elements, used_list, objects }
    }

    /// Total byte size a shared region must provide for a pool of `size`
    /// elements of type `T`, laid out as a flags array followed by an aligned
    /// object array. Both the creator and every joiner of a region run this
    /// to agree on the region's size.
    pub fn required_size(size: usize) -> (r: usize)
        requires
            spec_required_size(size as int, size_of::<T>() as int, align_of::<T>() as int)
                <= usize::MAX,
        ensures
            r as int == spec_required_size(
                size as int,
                size_of::<T>() as int,
                align_of::<T>() as int,
            ),
    {
        Self::layout(size).total_size
    }

    /// Alignment the start of the pool's byte range must satisfy.
    pub fn required_align() -> (r: usize)
        ensures
            r as int == align_of::<T>() as int,
    {
        layout_for_type_is_valid::<T>();
        core::mem::align_of::<T>()
    }

    /// The full layout of a pool of `size` elements of type `T`.
    pub fn layout(size: usize) -> (l: PoolLayout)
        requires
            spec_required_size(size as int, size_of::<T>() as int, align_of::<T>() as int)
                <= usize::MAX,
        ensures
            l.objects_offset as int == spec_objects_offset(size as int, align_of::<T>() as int),
            l.total_size as int == spec_required_size(
                size as int,
                size_of::<T>() as int,
                align_of::<T>() as int,
            ),
            l.total_align as int == align_of::<T>() as int,
    {
        layout_for_type_is_valid::<T>();
        pool_layout(size, core::mem::size_of::<T>(), core::mem::align_of::<T>())
    }

    /// The layout for `size` elements of `T` if it fits in `usize`; `None`
    /// exactly when it would overflow. Unlike `layout`, this can be called
    /// without first ruling the overflow out.
    pub fn try_layout(size: usize) -> (r: Option<PoolLayout>)
        ensures
            match r {
                Some(l) => {
                    &&& spec_required_size(
                        size as int,
                        size_of::<T>() as int,
                        align_of::<T>() as int,
                    ) <= usize::MAX
                    &&& l.objects_offset as int == spec_objects_offset(
                        size as int,
                        align_of::<T>() as int,
                    )
                    &&& l.total_size as int == spec_required_size(
                        size as int,
                        size_of::<T>() as int,
                        align_of::<T>() as int,
                    )
                    &&& l.total_align as int == align_of::<T>() as int
                },
                None => spec_required_size(
                    size as int,
                    size_of::<T>() as int,
                    align_of::<T>() as int,
                ) > usize::MAX,
            },
    {
        layout_for_type_is_valid::<T>();
        checked_pool_layout(size, core::mem::size_of::<T>(), core::mem::align_of::<T>())
    }

    /// Scans the slots in index order and claims the first unclaimed one,
    /// returning a guard that owns it; returns `None`, changing nothing, if
    /// every slot is claimed. Capacity exhaustion is a normal outcome, not an
    /// error. The scan has no fairness guarantee.
    pub fn acquire(&mut self) -> (r: Option<PoolSlot>)
        requires
            old(self).wf(),
        ensures
            Self::acquire_step(*old(self), *final(self), r),
    {
        let n = self.n_elem;
        let mut i: usize = 0;
        while i < n
            invariant
                self.wf(),
                *self == *old(self),
                n == self.n_elem,
                i <= n,
                forall|j: int| 0 <= j < i ==> self.flags()[j],
                first_free(self.flags()) == first_free_from(self.flags(), i as int),
            decreases n - i,
        {
            if !self.used_list[i] {
                self.used_list.set(i, true);
                return Some(PoolSlot { index: i });
            }
            i += 1;
        }
        None
    }

    /// Releases a claimed slot, consuming its guard: the slot's flag is
    /// cleared and the slot is immediately eligible for a new acquisition.
    /// The stored objects are untouched.
    pub fn release(&mut self, slot: PoolSlot)
        requires
            old(self).wf(),
            0 <= slot@ < old(self).capacity(),
            old(self).flags()[slot@],
        ensures
            final(self).wf(),
            final(self).capacity() == old(self).capacity(),
            final(self).elems() == old(self).elems(),
            final(self).flags() == old(self).flags().update(slot@, false),
    {
        self.used_list.set(slot.index, false);
    }

    /// Reads the object stored in a claimed slot.
    pub fn read_slot(&self, slot: &PoolSlot) -> (v: T)
        requires
            self.wf(),
            0 <= slot@ < self.capacity(),
            self.flags()[slot@],
        ensures
            v == self.elems()[slot@],
    {
        self.objects[slot.index]
    }

    /// Writes the object stored in a claimed slot.
    pub fn write_slot(&mut self, slot: &PoolSlot, v: T)
        requires
            old(self).wf(),
            0 <= slot@ < old(self).capacity(),
            old(self).flags()[slot@],
        ensures
            final(self).wf(),
            final(self).capacity() == old(self).capacity(),
            final(self).flags() == old(self).flags(),
            final(self).elems() == old(self).elems().update(slot@, v),
    {
        self.objects.set(slot.index, v);
    }

    /// Constructs a suspending acquisition: a task that, each time it is
    /// polled, performs exactly one acquisition attempt, completing with the
    /// guard on success and reporting "not yet ready" otherwise. No blocking
    /// or sleeping occurs inside the task; readiness is discovered only by
    /// re-polling, so the poller's frequency determines latency and cost.
    pub fn wait_acquire(&self) -> (f: PoolFuture)
        ensures
            !f.is_completed(),
    {
        PoolFuture { completed: false }
    }
}

/// A suspending acquisition: an awaitable unit of work that repeatedly
/// attempts a synchronous acquisition until one succeeds. Once it has
/// completed it must not be polled again.
pub struct PoolFuture {
    completed: bool,
}

impl PoolFuture {
    /// Whether the task has already completed and yielded its guard.
    pub closed spec fn is_completed(&self) -> bool {
        self.completed
    }

    /// Makes one acquisition attempt on `pool`. Returns the guard and marks
    /// the task complete if a slot was free; returns `None`, leaving the task
    /// pending and the pool unchanged, if every slot is claimed.
    pub fn poll<T: Copy>(&mut self, pool: &mut Pool<T>) -> (r: Option<PoolSlot>)
        requires
            !old(self).is_completed(),
            old(pool).wf(),
        ensures
            Pool::<T>::acquire_step(*old(pool), *final(pool), r),
            final(self).is_completed() == r is Some,
    {
        let r = pool.acquire();
        if r.is_some() {
            self.completed = true;
        }
        r
    }
}

/// Number of claimed flags.
pub open spec fn count_claimed(flags: Seq<bool>) -> int
    decreases flags.len(),
{
    if flags.len() == 0 {
        0
    } else {
        count_claimed(flags.drop_last()) + if flags.last() {
            1int
        } else {
            0int
        }
    }
}

/// The number of claimed flags lies between zero and the capacity.
pub proof fn lemma_count_claimed_le_len(flags: Seq<bool>)
    ensures
        0 <= count_claimed(flags) <= flags.len(),
    decreases flags.len(),
{
    if flags.len() > 0 {
        lemma_count_claimed_le_len(flags.drop_last());
    }
}

/// Claiming or clearing one flag changes the claimed count by exactly one.
pub proof fn lemma_count_claimed_update(flags: Seq<bool>, i: int, b: bool)
    requires
        0 <= i < flags.len(),
    ensures
        count_claimed(flags.update(i, b)) == count_claimed(flags) + if b == flags[i] {
            0int
        } else if b {
            1int
        } else {
            -1int
        },
    decreases flags.len(),
{
    let updated = flags.update(i, b);
    if i == flags.len() - 1 {
        assert(updated.drop_last() =~= flags.drop_last());
    } else {
        assert(updated.drop_last() =~= flags.drop_last().update(i, b));
        lemma_count_claimed_update(flags.drop_last(), i, b);
    }
}

/// A fully claimed pool has exactly `capacity` live claims.
pub proof fn lemma_all_claimed_count(flags: Seq<bool>)
    requires
        forall|i: int| 0 <= i < flags.len() ==> flags[i],
    ensures
        count_claimed(flags) == flags.len(),
    decreases flags.len(),
{
    if flags.len() > 0 {
        assert(forall|i: int| 0 <= i < flags.drop_last().len() ==> flags.drop_last()[i]);
        lemma_all_claimed_count(flags.drop_last());
    }
}

/// An unclaimed slot keeps the claimed count strictly below the capacity.
pub proof fn lemma_unclaimed_undercounts(flags: Seq<bool>, i: int)
    requires
        0 <= i < flags.len(),
        !flags[i],
    ensures
        count_claimed(flags) < flags.len(),
    decreases flags.len(),
{
    if i == flags.len() - 1 {
        lemma_count_claimed_le_len(flags.drop_last());
    } else {
        lemma_unclaimed_undercounts(flags.drop_last(), i);
    }
}

/// What a scan's outcome means: a found index is the first unclaimed one, and
/// no found index means every slot is claimed.
pub proof fn lemma_first_free_from_spec(flags: Seq<bool>, j: int)
    requires
        0 <= j <= flags.len(),
    ensures
        match first_free_from(flags, j) {
            Some(k) => j <= k < flags.len() && !flags[k] && forall|m: int| j <= m < k ==> flags[m],
            None => forall|m: int| j <= m < flags.len() ==> flags[m],
        },
    decreases flags.len() - j,
{
    if j < flags.len() && flags[j] {
        lemma_first_free_from_spec(flags, j + 1);
    }
}

/// Law: at most `capacity` claims can be live at once, an acquisition on a
/// fully claimed pool returns `None` rather than fabricating a slot, and a
/// successful acquisition raises the number of live claims by exactly one.
pub proof fn lemma_claims_bounded<T: Copy>(pre: Pool<T>, post: Pool<T>, r: Option<PoolSlot>)
    requires
        pre.wf(),
        Pool::<T>::acquire_step(pre, post, r),
    ensures
        0 <= count_claimed(post.flags()) <= post.capacity(),
        count_claimed(pre.flags()) == pre.capacity() ==> r is None,
        r is Some ==> count_claimed(post.flags()) == count_claimed(pre.flags()) + 1,
        r is None ==> count_claimed(post.flags()) == count_claimed(pre.flags()),
{
    lemma_count_claimed_le_len(post.flags());
    match r {
        Some(slot) => {
            lemma_unclaimed_undercounts(pre.flags(), slot@);
            lemma_count_claimed_update(pre.flags(), slot@, true);
        },
        None => {},
    }
}

/// Law: exactly one owner per slot: a slot whose flag is claimed is never
/// returned by a scan, so no second guard for it can come into being until
/// the one live guard releases it.
pub proof fn lemma_exactly_once_owner(flags: Seq<bool>, i: int)
    requires
        0 <= i < flags.len(),
        flags[i],
    ensures
        first_free(flags) != Some(i),
{
    lemma_first_free_from_spec(flags, 0);
}

/// Law: releasing a slot makes it immediately eligible: once flag `i` is
/// cleared, the very next scan finds a free slot at or before `i`, and finds
/// exactly `i` when every other slot is claimed.
pub proof fn lemma_release_eligible(flags: Seq<bool>, i: int)
    requires
        0 <= i < flags.len(),
    ensures
        match first_free(flags.update(i, false)) {
            Some(k) => 0 <= k <= i,
            None => false,
        },
        (forall|j: int| 0 <= j < flags.len() && j != i ==> flags[j]) ==> first_free(
            flags.update(i, false),
        ) == Some(i),
{
    let cleared = flags.update(i, false);
    lemma_first_free_from_spec(cleared, 0);
    assert(!cleared[i]);
    match first_free(cleared) {
        Some(k) => {
            assert(k <= i) by {
                if k > i {
                    assert(cleared[i]);
                }
            }
            if forall|j: int| 0 <= j < flags.len() && j != i ==> flags[j] {
                if k < i {
                    assert(flags[k]);
                    assert(false);
                }
            }
        },
        None => {
            assert(cleared[i]);
        },
    }
}

} // verus!
