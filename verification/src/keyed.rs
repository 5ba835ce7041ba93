//! The keyed store: unboundedly many entries, each addressed by a
//! 128-bit identifier minted at insertion. Lookups are by identifier,
//! either directly or through the identifier's canonical text.

use std::collections::HashMap;
use vstd::prelude::*;
use vstd::set_lib::lemma_len_subset;
use crate::ident::parse_id;
use crate::ident::spec_parse_id;

verus! {

broadcast use vstd::std_specs::hash::group_hash_axioms;

/// Relies on rand::random: draws a 128-bit value from the thread-local
/// cryptographically strong generator. Nothing is promised of the
/// result; callers must cope with every value.
#[verifier::external_body]
fn random_id() -> u128 {
    rand::random()
}

/// Why a lookup by identifier text failed.
#[derive(Debug, Clone, Copy, PartialEq, Eq, Structural)]
pub enum LookupError {
    /// The text is not a well-formed identifier.
    BadRequest,
    /// The identifier is well formed, but no entry has it.
    NotFound,
}

/// An entry of the keyed store, as handed back by a lookup.
#[derive(Debug)]
pub struct FoundEntry {
    pub id: u128,
    pub data: String,
}

/// The set of identifiers up to and including `b`.
spec fn ids_through(b: u128) -> Set<u128> {
    Set::new(|i: u128| i <= b)
}

proof fn lemma_ids_through(b: u128)
    ensures
        ids_through(b).finite(),
        ids_through(b).len() == b as nat + 1,
    decreases b,
{
    if b == 0 {
        assert(ids_through(0) =~= Set::empty().insert(0u128));
    } else {
        lemma_ids_through((b - 1) as u128);
        assert(ids_through(b) =~= ids_through((b - 1) as u128).insert(b));
        assert(!ids_through((b - 1) as u128).contains(b));
    }
}

/// The keyed store: a mapping from identifier to entry data, with no
/// size bound.
#[derive(Debug)]
pub struct KeyedStore {
    map: HashMap<u128, String>,
}

impl View for KeyedStore {
    type V = Map<u128, String>;

    closed spec fn view(&self) -> Map<u128, String> {
        self.map@
    }
}

impl KeyedStore {
    pub fn new() -> (s: KeyedStore)
        ensures
            s@ == Map::<u128, String>::empty(),
    {
        KeyedStore { map: HashMap::new() }
    }

    pub fn len(&self) -> (n: usize)
        ensures
            n == self@.len(),
    {
        self.map.len()
    }

    /// An identifier that no current entry has. The first draw is
    /// random; only absence from the store is promised of the result.
    fn fresh_id(&self) -> (id: u128)
        ensures
            !self@.contains_key(id),
    {
        let base = random_id();
        if !self.map.contains_key(&base) {
            return base;
        }
        let n = self.map.len();
        let mut k: u128 = 0;
        while k <= n as u128
            invariant
                n == self@.len(),
                k <= n as u128 + 1,
                forall|j: u128| j < k ==> self@.contains_key(j),
            decreases n as u128 + 1 - k,
        {
            if !self.map.contains_key(&k) {
                return k;
            }
            k = k + 1;
        }
        proof {
            lemma_ids_through(n as u128);
            assert(ids_through(n as u128).subset_of(self@.dom()));
            lemma_len_subset(ids_through(n as u128), self@.dom());
            assert(false);
        }
        0
    }

    /// Insert `data` under a freshly minted identifier absent from the
    /// store, and return that identifier. Never fails.
    pub fn add(&mut self, data: String) -> (id: u128)
        ensures
            !old(self)@.contains_key(id),
            final(self)@ == old(self)@.insert(id, data),
    {
        let id = self.fresh_id();
        self.map.insert(id, data);
        id
    }

    pub fn contains(&self, id: u128) -> (r: bool)
        ensures
            r == self@.contains_key(id),
    {
        self.map.contains_key(&id)
    }

    /// The data of the entry with identifier `id`, if any entry has it.
    pub fn get(&self, id: u128) -> (r: Option<&String>)
        ensures
            match r {
                Some(d) => self@.contains_key(id) && *d == self@[id],
                None => !self@.contains_key(id),
            },
    {
        self.map.get(&id)
    }

    /// Look up an entry by identifier text. The result is `BadRequest`
    /// exactly when the text is not a well-formed identifier, `NotFound`
    /// exactly when it is well formed but no entry has it, and otherwise
    /// the entry together with its identifier.
    pub fn fetch(&self, id_text: &[u8]) -> (r: Result<FoundEntry, LookupError>)
        ensures
            match r {
                Ok(e) => spec_parse_id(id_text@) == Some(e.id) && self@.contains_key(e.id)
                    && e.data == self@[e.id],
                Err(err) => match err {
                    LookupError::BadRequest => spec_parse_id(id_text@) == None::<u128>,
                    LookupError::NotFound => spec_parse_id(id_text@) matches Some(k)
                        && !self@.contains_key(k),
                },
            },
    {
        match parse_id(id_text) {
            None => Err(LookupError::BadRequest),
            Some(k) => match self.map.get(&k) {
                None => Err(LookupError::NotFound),
                Some(d) => Ok(FoundEntry { id: k, data: d.clone() }),
            },
        }
    }
}

/// Law: an identifier returned by `add` is subsequently retrievable and
/// yields the exact data submitted — in the store state an add leaves
/// behind, the returned identifier is present and maps to that data.
pub proof fn lemma_added_is_retrievable(m: Map<u128, String>, id: u128, data: String)
    ensures
        m.insert(id, data).contains_key(id),
        m.insert(id, data)[id] == data,
{
}

/// The store contents after inserting each of `pairs`, in order.
pub open spec fn inserted_all(m: Map<u128, String>, pairs: Seq<(u128, String)>) -> Map<
    u128,
    String,
>
    decreases pairs.len(),
{
    if pairs.len() == 0 {
        m
    } else {
        inserted_all(m, pairs.drop_last()).insert(pairs.last().0, pairs.last().1)
    }
}

proof fn lemma_key_persists(m: Map<u128, String>, pairs: Seq<(u128, String)>, i: int, t: int)
    requires
        0 <= i < t <= pairs.len(),
    ensures
        inserted_all(m, pairs.take(t)).contains_key(pairs[i].0),
    decreases t,
{
    if t == i + 1 {
        assert(pairs.take(t).drop_last() =~= pairs.take(i));
        assert(pairs.take(t).last() == pairs[i]);
    } else {
        lemma_key_persists(m, pairs, i, t - 1);
        assert(pairs.take(t).drop_last() =~= pairs.take(t - 1));
    }
}

/// Law: an identifier stays retrievable, with the exact data submitted,
/// across any number of later adds. If each of `pairs` records the
/// identifier and data of one add, in order, with the identifier fresh
/// for the store of that moment — which is what `add` ensures — then the
/// final store maps every recorded identifier to its recorded data.
pub proof fn lemma_retrievable_after_later_adds(m: Map<u128, String>, pairs: Seq<(u128, String)>)
    requires
        forall|i: int|
            0 <= i < pairs.len() ==> !inserted_all(m, pairs.take(i)).contains_key(
                #[trigger] pairs[i].0,
            ),
    ensures
        forall|i: int|
            0 <= i < pairs.len() ==> inserted_all(m, pairs).contains_key(#[trigger] pairs[i].0)
                && inserted_all(m, pairs)[pairs[i].0] == pairs[i].1,
    decreases pairs.len(),
{
    if pairs.len() > 0 {
        let p = pairs.drop_last();
        let n = pairs.len() - 1;
        let last = pairs[n];
        assert(pairs.take(n) =~= p);
        assert forall|i: int| 0 <= i < p.len() implies !inserted_all(m, p.take(i)).contains_key(
            #[trigger] p[i].0,
        ) by {
            assert(p.take(i) =~= pairs.take(i));
            assert(p[i] == pairs[i]);
        };
        lemma_retrievable_after_later_adds(m, p);
        assert(!inserted_all(m, p).contains_key(last.0));
        assert(inserted_all(m, pairs) == inserted_all(m, p).insert(last.0, last.1));
        assert forall|i: int| 0 <= i < pairs.len() implies inserted_all(m, pairs).contains_key(
            #[trigger] pairs[i].0,
        ) && inserted_all(m, pairs)[pairs[i].0] == pairs[i].1 by {
            if i < n {
                assert(p[i] == pairs[i]);
                assert(inserted_all(m, p).contains_key(pairs[i].0) && inserted_all(m, p)[pairs[i].0]
                    == pairs[i].1);
                assert(pairs[i].0 != last.0);
            }
        };
    }
}

/// Law: identifiers minted by a run of adds are pairwise distinct.
/// Each `add` returns an identifier absent from the store it acts on and
/// leaves it present, and no operation removes entries; so if each of
/// `pairs` records the identifier and data of one add, in order, with
/// the identifier fresh for the store of that moment — which is what
/// `add` ensures — then no identifier repeats.
pub proof fn lemma_ids_unique(m: Map<u128, String>, pairs: Seq<(u128, String)>)
    requires
        forall|i: int|
            0 <= i < pairs.len() ==> !inserted_all(m, pairs.take(i)).contains_key(
                #[trigger] pairs[i].0,
            ),
    ensures
        forall|i: int, j: int| 0 <= i < j < pairs.len() ==> pairs[i].0 != pairs[j].0,
{
    assert forall|i: int, j: int| 0 <= i < j < pairs.len() implies pairs[i].0 != pairs[j].0 by {
        lemma_key_persists(m, pairs, i, j);
    };
}

} // verus!
