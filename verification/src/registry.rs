use vstd::prelude::*;

verus! {

/// A sparse collection keyed by small integers that stay put.
///
/// An element keeps the index it was given until it is removed. Removing an
/// element leaves a hole, and the lowest hole is handed out again by the next
/// `push`. There is no generation counter: an index names whatever occupies
/// its slot now.
#[derive(Debug)]
pub struct Registry<T> {
    slots: Vec<Option<T>>,
}

impl<T> View for Registry<T> {
    type V = Map<usize, T>;

    closed spec fn view(&self) -> Map<usize, T> {
        Map::new(
            |i: usize| i < self.slots@.len() && self.slots@[i as int] is Some,
            |i: usize| self.slots@[i as int]->0,
        )
    }
}

/// `id` is the lowest index that `m` does not hold: `m` does not hold it and
/// holds every index below it, the one just below it in particular.
pub open spec fn is_lowest_free<T>(m: Map<usize, T>, id: usize) -> bool {
    &&& !m.contains_key(id)
    &&& forall|j: usize| j < id ==> m.contains_key(j)
    &&& id > 0 ==> m.contains_key((id - 1) as usize)
}

/// A map has one lowest free index.
pub proof fn lemma_lowest_free_is_one<T>(m: Map<usize, T>, a: usize, b: usize)
    requires
        is_lowest_free(m, a),
        is_lowest_free(m, b),
    ensures
        a == b,
{
}

/// An index that was freed is handed out again before any index above it.
pub proof fn lemma_freed_index_comes_back<T>(m: Map<usize, T>, freed: usize, next: usize)
    requires
        is_lowest_free(m.remove(freed), next),
    ensures
        next <= freed,
{
    if freed < next {
        assert(m.remove(freed).contains_key(freed));
    }
}

/// The members of `ids` that are below `bound`, in ascending order.
pub open spec fn indices_below(ids: Set<usize>, bound: nat) -> Seq<usize>
    decreases bound,
{
    if bound == 0 {
        Seq::empty()
    } else {
        let lower = indices_below(ids, (bound - 1) as nat);
        if bound - 1 <= usize::MAX && ids.contains((bound - 1) as usize) {
            lower.push((bound - 1) as usize)
        } else {
            lower
        }
    }
}

/// The members of `ids` in ascending order.
pub open spec fn sorted_indices(ids: Set<usize>) -> Seq<usize> {
    indices_below(ids, usize::MAX as nat + 1)
}

/// `indices_below` holds exactly the members below the bound, each once, the
/// smaller before the larger.
pub proof fn lemma_indices_below(ids: Set<usize>, bound: nat)
    ensures
        forall|i: int, j: int|
            0 <= i < j < indices_below(ids, bound).len() ==> indices_below(ids, bound)[i]
                < indices_below(ids, bound)[j],
        forall|i: int|
            0 <= i < indices_below(ids, bound).len() ==> ids.contains(
                #[trigger] indices_below(ids, bound)[i],
            ) && indices_below(ids, bound)[i] < bound,
        forall|k: usize| ids.contains(k) && k < bound ==> indices_below(ids, bound).contains(k),
    decreases bound,
{
    if bound > 0 {
        lemma_indices_below(ids, (bound - 1) as nat);
        let lower = indices_below(ids, (bound - 1) as nat);
        let all = indices_below(ids, bound);
        assert forall|k: usize| ids.contains(k) && k < bound implies all.contains(k) by {
            if k < bound - 1 {
                let a = choose|a: int| 0 <= a < lower.len() && lower[a] == k;
                assert(all[a] == k);
            } else {
                assert(all[all.len() - 1] == k);
            }
        }
    }
}

/// Nothing is added by raising the bound past every member.
pub proof fn lemma_indices_below_stable(ids: Set<usize>, low: nat, high: nat)
    requires
        low <= high,
        forall|k: usize| ids.contains(k) ==> k < low,
    ensures
        indices_below(ids, high) == indices_below(ids, low),
    decreases high,
{
    if low < high {
        lemma_indices_below_stable(ids, low, (high - 1) as nat);
    }
}

/// `sorted_indices` lists every member once, the smaller before the larger.
pub proof fn lemma_sorted_indices(ids: Set<usize>)
    ensures
        forall|i: int, j: int|
            0 <= i < j < sorted_indices(ids).len() ==> sorted_indices(ids)[i] < sorted_indices(
                ids,
            )[j],
        forall|i: int|
            0 <= i < sorted_indices(ids).len() ==> ids.contains(#[trigger] sorted_indices(ids)[i]),
        forall|k: usize| ids.contains(k) ==> sorted_indices(ids).contains(k),
{
    lemma_indices_below(ids, usize::MAX as nat + 1);
}

impl<T> Registry<T> {
    /// A registry that holds nothing.
    pub fn new() -> (r: Self)
        ensures
            r@ == Map::<usize, T>::empty(),
    {
        let r = Registry { slots: Vec::new() };
        r
    }

    /// Stores `value` in the lowest free slot and returns that slot's index.
    pub fn push(&mut self, value: T) -> (id: usize)
        ensures
            is_lowest_free(old(self)@, id),
            final(self)@ == old(self)@.insert(id, value),
    {
        let n = self.slots.len();
        let mut i: usize = 0;
        while i < n && self.slots[i].is_some()
            invariant
                n == self.slots@.len(),
                i <= n,
                *self == *old(self),
                forall|j: usize| j < i ==> self@.contains_key(j),
            decreases n - i,
        {
            i += 1;
        }
        if i < n {
            self.slots[i] = Some(value);
        } else {
            self.slots.push(Some(value));
        }
        i
    }

    /// Whether there is an element at `id`.
    pub fn contains_index(&self, id: usize) -> (r: bool)
        ensures
            r == self@.contains_key(id),
    {
        id < self.slots.len() && self.slots[id].is_some()
    }

    /// The element at `id`, `None` where there is none.
    pub fn get(&self, id: usize) -> (r: Option<&T>)
        ensures
            r is Some == self@.contains_key(id),
            r is Some ==> *r->0 == self@[id],
    {
        if id < self.slots.len() {
            self.slots[id].as_ref()
        } else {
            None
        }
    }

    /// The element at `id`, to be changed in place.
    pub fn get_mut(&mut self, id: usize) -> (r: Option<&mut T>)
        ensures
            r is Some == old(self)@.contains_key(id),
            r is Some ==> *r.unwrap() == old(self)@[id] && final(self)@ == old(self)@.insert(
                id,
                *final(r.unwrap()),
            ),
            r is None ==> final(self)@ == old(self)@,
    {
        if id < self.slots.len() {
            self.slots[id].as_mut()
        } else {
            None
        }
    }

    /// Takes the element at `id` out, leaving its slot free for reuse.
    pub fn remove(&mut self, id: usize) -> (r: Option<T>)
        ensures
            r is Some == old(self)@.contains_key(id),
            r is Some ==> r->0 == old(self)@[id],
            final(self)@ == old(self)@.remove(id),
            !final(self)@.contains_key(id),
    {
        if id < self.slots.len() {
            let r = self.slots[id].take();
            r
        } else {
            None
        }
    }

    /// Every element with its index, in ascending order of index.
    pub fn iter_index(&self) -> (r: Vec<(usize, &T)>)
        ensures
            r@.len() == sorted_indices(self@.dom()).len(),
            forall|k: int|
                0 <= k < r@.len() ==> (#[trigger] r@[k]).0 == sorted_indices(self@.dom())[k]
                    && self@.contains_key(r@[k].0) && *r@[k].1 == self@[r@[k].0],
    {
        let n = self.slots.len();
        let mut found: Vec<(usize, &T)> = Vec::new();
        let mut i: usize = 0;
        while i < n
            invariant
                n == self.slots@.len(),
                i <= n,
                found@.len() == indices_below(self@.dom(), i as nat).len(),
                forall|k: int|
                    0 <= k < found@.len() ==> (#[trigger] found@[k]).0 == indices_below(
                        self@.dom(),
                        i as nat,
                    )[k] && self@.contains_key(found@[k].0) && *found@[k].1 == self@[found@[k].0],
            decreases n - i,
        {
            match &self.slots[i] {
                Some(element) => {
                    found.push((i, element));
                },
                None => {},
            }
            i += 1;
        }
        proof {
            lemma_indices_below_stable(self@.dom(), n as nat, usize::MAX as nat + 1);
        }
        found
    }
}

} // verus!
