//! Destination resolution: the datastore's named destinations as a map from
//! name to id, built once from one enumeration.

use vstd::prelude::*;
use vstd::string::*;

verus! {

/// Names that begin with this character belong to the datastore itself.
pub const INTERNAL_MARKER: char = '_';

/// Whether a destination name is one of the datastore's own.
pub open spec fn is_internal(name: Seq<char>) -> bool {
    name.len() > 0 && name[0] == INTERNAL_MARKER
}

/// An enumeration as plain text.
pub open spec fn listing_text(listing: Seq<(u32, String)>) -> Seq<(u32, Seq<char>)> {
    Seq::new(listing.len(), |i: int| (listing[i].0, listing[i].1@))
}

/// The map that an enumeration resolves to: every name that is not internal,
/// with its id; where a name is listed twice, the later id.
pub open spec fn resolved(listing: Seq<(u32, Seq<char>)>) -> Map<Seq<char>, u32>
    decreases listing.len(),
{
    if listing.len() == 0 {
        Map::empty()
    } else {
        let rest = resolved(listing.drop_last());
        if is_internal(listing.last().1) {
            rest
        } else {
            rest.insert(listing.last().1, listing.last().0)
        }
    }
}

/// No name occurs twice among the entries.
spec fn distinct_names(entries: Seq<(String, u32)>) -> bool {
    forall|i: int, j: int|
        0 <= i < entries.len() && 0 <= j < entries.len() && i != j ==> (#[trigger] entries[i]).0@
            != (#[trigger] entries[j]).0@
}

/// The map that a list of entries with distinct names stands for.
spec fn entries_map(entries: Seq<(String, u32)>) -> Map<Seq<char>, u32> {
    Map::new(
        |name: Seq<char>| exists|i: int| 0 <= i < entries.len() && (#[trigger] entries[i]).0@ == name,
        |name: Seq<char>|
            entries[choose|i: int| 0 <= i < entries.len() && (#[trigger] entries[i]).0@ == name].1,
    )
}

/// The destinations of the datastore, by name. Read-only once built.
pub struct DestinationMap {
    entries: Vec<(String, u32)>,
}

impl View for DestinationMap {
    type V = Map<Seq<char>, u32>;

    closed spec fn view(&self) -> Map<Seq<char>, u32> {
        entries_map(self.entries@)
    }
}

/// Whether a name begins with the internal marker.
fn has_marker(name: &str) -> (r: bool)
    ensures
        r == is_internal(name@),
{
    name.unicode_len() > 0 && name.get_char(0) == INTERNAL_MARKER
}

/// Position of `name` among the entries.
fn position(entries: &Vec<(String, u32)>, name: &String) -> (r: Option<usize>)
    ensures
        r matches Some(i) ==> i < entries.len() && entries[i as int].0@ == name@,
        r is None ==> forall|i: int| 0 <= i < entries.len() ==> (#[trigger] entries[i]).0@ != name@,
{
    let mut i: usize = 0;
    while i < entries.len()
        invariant
            i <= entries.len(),
            forall|k: int| 0 <= k < i ==> (#[trigger] entries[k]).0@ != name@,
        decreases entries.len() - i,
    {
        if entries[i].0 == *name {
            return Some(i);
        }
        i += 1;
    }
    None
}

impl DestinationMap {
    #[verifier::type_invariant]
    spec fn inv(self) -> bool {
        distinct_names(self.entries@)
    }

    /// A map without destinations.
    pub fn new() -> (r: DestinationMap)
        ensures
            r@ == Map::<Seq<char>, u32>::empty(),
    {
        let r = DestinationMap { entries: Vec::new() };
        assert(r@ =~= Map::<Seq<char>, u32>::empty());
        r
    }

    /// Builds the map from one enumeration of `(id, name)` entries, leaving
    /// out the datastore's internal names.
    pub fn from_listing(listing: &Vec<(u32, String)>) -> (r: DestinationMap)
        ensures
            r@ == resolved(listing_text(listing@)),
    {
        let ghost text = listing_text(listing@);
        let mut entries: Vec<(String, u32)> = Vec::new();
        let mut i: usize = 0;
        assert(text.take(0) =~= Seq::empty());
        assert(entries_map(entries@) =~= Map::<Seq<char>, u32>::empty());
        while i < listing.len()
            invariant
                i <= listing.len(),
                text == listing_text(listing@),
                distinct_names(entries@),
                entries_map(entries@) == resolved(text.take(i as int)),
            decreases listing.len() - i,
        {
            let id: u32 = listing[i].0;
            let name = listing[i].1.clone();
            let ghost before = entries@;
            proof {
                assert(text.take(i + 1).drop_last() =~= text.take(i as int));
                assert(text.take(i + 1).last() == (id, name@));
            }
            if !has_marker(name.as_str()) {
                match position(&entries, &name) {
                    Some(at) => {
                        entries.set(at, (name, id));
                        proof {
                            assert forall|a: int, b: int|
                                0 <= a < entries.len() && 0 <= b < entries.len() && a != b implies (
                            #[trigger] entries@[a]).0@ != (#[trigger] entries@[b]).0@ by {
                                assert(entries@[a].0@ == before[a].0@);
                                assert(entries@[b].0@ == before[b].0@);
                            }
                            lemma_replace(before, entries@, at as int);
                        }
                    },
                    None => {
                        entries.push((name, id));
                        proof {
                            lemma_append(before, entries@);
                        }
                    },
                }
            }
            i += 1;
        }
        assert(text.take(i as int) =~= text);
        DestinationMap { entries }
    }

    /// The id of the destination called `name`, if there is one.
    pub fn get(&self, name: &String) -> (r: Option<u32>)
        ensures
            r == if self@.contains_key(name@) {
                Some(self@[name@])
            } else {
                None
            },
    {
        proof {
            use_type_invariant(self);
        }
        match position(&self.entries, name) {
            Some(i) => {
                proof {
                    lemma_entry_found(self.entries@, i as int);
                }
                Some(self.entries[i].1)
            },
            None => None,
        }
    }

    /// Number of destinations.
    pub fn len(&self) -> (r: usize)
        ensures
            self@.dom().finite(),
            r == self@.dom().len(),
    {
        proof {
            use_type_invariant(self);
            lemma_domain_size(self.entries@);
        }
        self.entries.len()
    }
}

/// With distinct names, every entry is found under its own name.
proof fn lemma_entry_found(entries: Seq<(String, u32)>, i: int)
    requires
        distinct_names(entries),
        0 <= i < entries.len(),
    ensures
        entries_map(entries).contains_key(entries[i].0@),
        entries_map(entries)[entries[i].0@] == entries[i].1,
{
    let name = entries[i].0@;
    let j = choose|j: int| 0 <= j < entries.len() && (#[trigger] entries[j]).0@ == name;
    assert(j == i);
}

/// Giving a listed name a new id changes the map at that name alone.
proof fn lemma_replace(before: Seq<(String, u32)>, after: Seq<(String, u32)>, at: int)
    requires
        distinct_names(before),
        distinct_names(after),
        0 <= at < before.len(),
        after.len() == before.len(),
        after[at].0@ == before[at].0@,
        forall|k: int| 0 <= k < before.len() && k != at ==> after[k] == before[k],
    ensures
        entries_map(after) == entries_map(before).insert(after[at].0@, after[at].1),
{
    let target = entries_map(before).insert(after[at].0@, after[at].1);
    assert forall|name: Seq<char>| entries_map(after).contains_key(name) implies #[trigger]
        target.contains_key(name) && target[name] == entries_map(after)[name] by {
        let k = choose|k: int| 0 <= k < after.len() && (#[trigger] after[k]).0@ == name;
        lemma_entry_found(after, k);
        if k != at {
            assert(before[k].0@ == name);
            lemma_entry_found(before, k);
        }
    }
    assert forall|name: Seq<char>| target.contains_key(name) implies #[trigger] entries_map(
        after,
    ).contains_key(name) by {
        if name != after[at].0@ {
            let k = choose|k: int| 0 <= k < before.len() && (#[trigger] before[k]).0@ == name;
            assert(after[k].0@ == name);
        } else {
            assert(after[at].0@ == name);
        }
    }
    assert(entries_map(after) =~= target);
}

/// Adding an entry under a new name adds that name to the map.
proof fn lemma_append(before: Seq<(String, u32)>, after: Seq<(String, u32)>)
    requires
        distinct_names(before),
        after.len() == before.len() + 1,
        forall|k: int| 0 <= k < before.len() ==> after[k] == before[k],
        forall|k: int| 0 <= k < before.len() ==> (#[trigger] before[k]).0@ != after.last().0@,
    ensures
        distinct_names(after),
        entries_map(after) == entries_map(before).insert(after.last().0@, after.last().1),
{
    let last = after.len() - 1;
    assert forall|a: int, b: int|
        0 <= a < after.len() && 0 <= b < after.len() && a != b implies (#[trigger] after[a]).0@ != (
    #[trigger] after[b]).0@ by {
        if a < last {
            assert(after[a] == before[a]);
        }
        if b < last {
            assert(after[b] == before[b]);
        }
    }
    let target = entries_map(before).insert(after.last().0@, after.last().1);
    assert forall|name: Seq<char>| entries_map(after).contains_key(name) implies #[trigger]
        target.contains_key(name) && target[name] == entries_map(after)[name] by {
        let k = choose|k: int| 0 <= k < after.len() && (#[trigger] after[k]).0@ == name;
        lemma_entry_found(after, k);
        if k != last {
            assert(before[k].0@ == name);
            lemma_entry_found(before, k);
        }
    }
    assert forall|name: Seq<char>| target.contains_key(name) implies #[trigger] entries_map(
        after,
    ).contains_key(name) by {
        if name != after.last().0@ {
            let k = choose|k: int| 0 <= k < before.len() && (#[trigger] before[k]).0@ == name;
            assert(after[k].0@ == name);
        } else {
            assert(after[last].0@ == name);
        }
    }
    assert(entries_map(after) =~= target);
}

/// A list of entries with distinct names stands for a map of as many names.
proof fn lemma_domain_size(entries: Seq<(String, u32)>)
    requires
        distinct_names(entries),
    ensures
        entries_map(entries).dom().finite(),
        entries_map(entries).dom().len() == entries.len(),
    decreases entries.len(),
{
    if entries.len() == 0 {
        assert(entries_map(entries).dom() =~= Set::empty());
    } else {
        let front = entries.drop_last();
        assert(distinct_names(front)) by {
            assert forall|a: int, b: int|
                0 <= a < front.len() && 0 <= b < front.len() && a != b implies (
            #[trigger] front[a]).0@ != (#[trigger] front[b]).0@ by {
                assert(front[a] == entries[a]);
                assert(front[b] == entries[b]);
            }
        }
        lemma_domain_size(front);
        assert forall|k: int| 0 <= k < front.len() implies (#[trigger] front[k]).0@
            != entries.last().0@ by {
            assert(front[k] == entries[k]);
        }
        lemma_append(front, entries);
        let name = entries.last().0@;
        assert(!entries_map(front).dom().contains(name)) by {
            if entries_map(front).dom().contains(name) {
                let k = choose|k: int| 0 <= k < front.len() && (#[trigger] front[k]).0@ == name;
                assert(front[k].0@ != name);
            }
        }
        assert(entries_map(entries).dom() =~= entries_map(front).dom().insert(name));
    }
}

} // verus!
