//! The bounded clipboard: a fixed-capacity first-in-first-out store of
//! anonymous entries. Adding to a full store evicts the oldest entry, so
//! the store never holds more than `capacity` entries.

use vstd::prelude::*;

verus! {

/// Capacity of the clipboard a service gets by default.
pub const CLIPBOARD_SIZE: usize = 10;

/// A single unit of clipboard content. It has no identity beyond its
/// position in the queue.
#[derive(Debug)]
pub struct Entry {
    pub data: String,
}

impl View for Entry {
    type V = Seq<char>;

    open spec fn view(&self) -> Seq<char> {
        self.data@
    }
}

impl Clone for Entry {
    fn clone(&self) -> (r: Self)
        ensures
            r@ == self@,
    {
        Entry { data: self.data.clone() }
    }
}

impl Entry {
    pub fn new(data: String) -> (e: Entry)
        ensures
            e@ == data@,
    {
        Entry { data }
    }
}

/// The contents of a sequence of entries, as sequences of characters.
pub open spec fn views_of(s: Seq<Entry>) -> Seq<Seq<char>> {
    s.map_values(|e: Entry| e@)
}

/// The effect of one `add` of `e` on the stored contents `q` under the
/// given capacity: appended at the tail, with the oldest entry evicted
/// first when the store is full. A store of capacity zero stays empty.
pub open spec fn pushed(q: Seq<Seq<char>>, capacity: nat, e: Seq<char>) -> Seq<Seq<char>> {
    if capacity == 0 {
        q
    } else if q.len() >= capacity {
        q.drop_first().push(e)
    } else {
        q.push(e)
    }
}

/// The smaller of two lengths.
pub open spec fn min_nat(a: nat, b: nat) -> nat {
    if a <= b {
        a
    } else {
        b
    }
}

/// Running a whole sequence `s` of adds over the contents `q`, in order.
pub open spec fn added_all(q: Seq<Seq<char>>, capacity: nat, s: Seq<Seq<char>>) -> Seq<Seq<char>>
    decreases s.len(),
{
    if s.len() == 0 {
        q
    } else {
        pushed(added_all(q, capacity, s.drop_last()), capacity, s.last())
    }
}

/// Law: a sequence `s` of adds over contents `q` that fit the capacity
/// leaves the last `min(|q| + |s|, capacity)` of the combined sequence,
/// oldest first.
pub proof fn lemma_added_all(q: Seq<Seq<char>>, capacity: nat, s: Seq<Seq<char>>)
    requires
        q.len() <= capacity,
    ensures
        added_all(q, capacity, s) == (q + s).skip(
            q.len() + s.len() - min_nat(q.len() + s.len(), capacity),
        ),
    decreases s.len(),
{
    let total = q.len() + s.len();
    let keep = min_nat(total, capacity);
    if s.len() == 0 {
        assert((q + s).skip(total - keep) =~= q);
    } else {
        let s0 = s.drop_last();
        lemma_added_all(q, capacity, s0);
        assert(added_all(q, capacity, s) =~= (q + s).skip(total - keep));
    }
}

/// Law: after any sequence `s` of adds into an empty store of the given
/// capacity, the contents are exactly the last `min(|s|, capacity)` entries
/// added, oldest first; so the length is `min(|s|, capacity)`, every kept
/// entry is one of the added entries, unchanged, and none is duplicated.
pub proof fn lemma_add_sequence(capacity: nat, s: Seq<Seq<char>>)
    ensures
        added_all(Seq::<Seq<char>>::empty(), capacity, s).len() == min_nat(s.len(), capacity),
        added_all(Seq::<Seq<char>>::empty(), capacity, s) == s.skip(
            s.len() - min_nat(s.len(), capacity),
        ),
        forall|i: int|
            0 <= i < min_nat(s.len(), capacity) ==> added_all(
                Seq::<Seq<char>>::empty(),
                capacity,
                s,
            )[i] == s[s.len() - min_nat(s.len(), capacity) + i],
{
    lemma_added_all(Seq::<Seq<char>>::empty(), capacity, s);
    assert(Seq::<Seq<char>>::empty() + s =~= s);
}

/// The bounded store: an oldest-first queue of at most `capacity` entries.
#[derive(Debug)]
pub struct Clipboard {
    queue: Vec<Entry>,
    capacity: usize,
}

impl View for Clipboard {
    type V = Seq<Seq<char>>;

    closed spec fn view(&self) -> Seq<Seq<char>> {
        views_of(self.queue@)
    }
}

impl Default for Clipboard {
    fn default() -> (c: Self)
        ensures
            c.wf(),
            c@ == Seq::<Seq<char>>::empty(),
            c.capacity_spec() == CLIPBOARD_SIZE,
    {
        Clipboard { queue: Vec::new(), capacity: CLIPBOARD_SIZE }
    }
}

impl Clipboard {
    /// How many entries this store may hold at once.
    pub closed spec fn capacity_spec(&self) -> nat {
        self.capacity as nat
    }

    /// The store never holds more entries than its capacity.
    pub open spec fn wf(&self) -> bool {
        self@.len() <= self.capacity_spec()
    }

    pub fn new(capacity: usize) -> (c: Clipboard)
        ensures
            c.wf(),
            c@ == Seq::<Seq<char>>::empty(),
            c.capacity_spec() == capacity,
    {
        Clipboard { queue: Vec::new(), capacity }
    }

    pub fn capacity(&self) -> (c: usize)
        ensures
            c == self.capacity_spec(),
    {
        self.capacity
    }

    pub fn len(&self) -> (n: usize)
        ensures
            n == self@.len(),
    {
        self.queue.len()
    }

    /// Append `entry` at the tail; if the store is already full, the
    /// oldest entry is evicted first. Never fails.
    pub fn add(&mut self, entry: Entry)
        requires
            old(self).wf(),
        ensures
            final(self).wf(),
            final(self).capacity_spec() == old(self).capacity_spec(),
            final(self)@ == pushed(old(self)@, old(self).capacity_spec(), entry@),
    {
        if self.capacity == 0 {
            return ;
        }
        if self.queue.len() == self.capacity {
            self.queue.remove(0);
        }
        self.queue.push(entry);
        assert(self@ =~= pushed(old(self)@, old(self).capacity_spec(), entry@));
    }

    /// A copy of all current entries, oldest first. Never fails. The
    /// contract pins the contents of the copy by the store alone, so two
    /// snapshots without an intervening `add` observe identical contents.
    pub fn get_entries(&self) -> (r: Vec<Entry>)
        ensures
            views_of(r@) == self@,
    {
        let mut r: Vec<Entry> = Vec::new();
        let mut i: usize = 0;
        while i < self.queue.len()
            invariant
                i <= self.queue.len(),
                r@.len() == i,
                forall|j: int| 0 <= j < i ==> #[trigger] r@[j]@ == self.queue@[j]@,
            decreases self.queue.len() - i,
        {
            let e = self.queue[i].clone();
            r.push(e);
            i = i + 1;
        }
        assert(views_of(r@) =~= self@);
        r
    }
}

} // verus!
