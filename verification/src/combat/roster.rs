//! The party roster, keyed by character name.

use vstd::prelude::*;

use crate::combat::skill::PartyMember;

verus! {

/// The party, each member once, by character name.
#[derive(Debug)]
pub struct PartyRoster {
    entries: Vec<(String, PartyMember)>,
}

/// Whether no name occurs twice in `entries`.
pub open spec fn names_differ(entries: Seq<(String, PartyMember)>) -> bool {
    forall|i: int, j: int|
        #![trigger entries[i], entries[j]]
        0 <= i < j < entries.len() ==> entries[i].0@ != entries[j].0@
}

/// Where `name` stands in `entries`.
pub open spec fn named_at(entries: Seq<(String, PartyMember)>, name: Seq<char>, i: int) -> bool {
    0 <= i < entries.len() && entries[i].0@ == name
}

/// The members of `entries` by name.
pub open spec fn members(entries: Seq<(String, PartyMember)>) -> Map<Seq<char>, PartyMember> {
    Map::new(
        |name: Seq<char>| exists|i: int| named_at(entries, name, i),
        |name: Seq<char>| entries[choose|i: int| named_at(entries, name, i)].1,
    )
}

/// What `roster` is once each of `entries` has been entered, in their order.
pub open spec fn entered(
    roster: Map<Seq<char>, PartyMember>,
    entries: Seq<(String, PartyMember)>,
) -> Map<Seq<char>, PartyMember>
    decreases entries.len(),
{
    if entries.len() == 0 {
        roster
    } else {
        entered(roster, entries.drop_last()).insert(entries.last().0@, entries.last().1)
    }
}

impl View for PartyRoster {
    type V = Map<Seq<char>, PartyMember>;

    closed spec fn view(&self) -> Map<Seq<char>, PartyMember> {
        members(self.entries@)
    }
}

impl PartyRoster {
    /// No member is entered twice.
    pub closed spec fn wf(self) -> bool {
        names_differ(self.entries@)
    }

    /// An empty roster.
    pub fn new() -> (roster: PartyRoster)
        ensures
            roster.wf(),
            roster@ == Map::<Seq<char>, PartyMember>::empty(),
    {
        let roster = PartyRoster { entries: Vec::new() };
        assert(roster@ =~= Map::<Seq<char>, PartyMember>::empty());
        roster
    }

    /// Enters one member, in place of the one of that name if there is one.
    pub fn insert(&mut self, name: String, member: PartyMember)
        requires
            old(self).wf(),
        ensures
            final(self).wf(),
            final(self)@ == old(self)@.insert(name@, member),
    {
        let ghost before = self.entries@;
        let ghost n = name@;
        let mut i: usize = 0;
        while i < self.entries.len()
            invariant
                i <= self.entries.len(),
                n == name@,
                self.entries@ == before,
                before == old(self).entries@,
                names_differ(before),
                forall|j: int| 0 <= j < i ==> (#[trigger] before[j]).0@ != n,
            decreases self.entries.len() - i,
        {
            if self.entries[i].0 == name {
                self.entries.set(i, (name, member));
                proof {
                    let after = self.entries@;
                    assert forall|m: Seq<char>, j: int|
                        named_at(after, m, j) == named_at(before, m, j) by {}
                    assert forall|m: Seq<char>| #[trigger]
                        members(after).contains_key(m) == members(before).insert(
                            n,
                            member,
                        ).contains_key(m) by {
                        assert(named_at(before, n, i as int));
                        if exists|j: int| named_at(after, m, j) {
                            let j = choose|j: int| named_at(after, m, j);
                            assert(named_at(before, m, j));
                        }
                        if exists|j: int| named_at(before, m, j) {
                            let j = choose|j: int| named_at(before, m, j);
                            assert(named_at(after, m, j));
                        }
                    }
                    assert(members(after) =~= members(before).insert(n, member));
                }
                return;
            }
            i += 1;
        }
        self.entries.push((name, member));
        proof {
            let after = self.entries@;
            assert forall|m: Seq<char>, j: int| named_at(before, m, j) implies named_at(
                after,
                m,
                j,
            ) by {}
            assert forall|m: Seq<char>| #[trigger]
                members(after).contains_key(m) == members(before).insert(n, member).contains_key(
                m,
            ) by {
                assert(named_at(after, n, before.len() as int));
                if exists|j: int| named_at(after, m, j) {
                    let j = choose|j: int| named_at(after, m, j);
                    if j < before.len() {
                        assert(named_at(before, m, j));
                    }
                }
                if exists|j: int| named_at(before, m, j) {
                    let j = choose|j: int| named_at(before, m, j);
                    assert(named_at(after, m, j));
                }
            }
            assert(members(after) =~= members(before).insert(n, member));
        }
    }

    /// Leaves nobody in the roster.
    pub fn clear(&mut self)
        ensures
            final(self).wf(),
            final(self)@ == Map::<Seq<char>, PartyMember>::empty(),
    {
        self.entries.clear();
        assert(self@ =~= Map::<Seq<char>, PartyMember>::empty());
    }

    /// The member of that name.
    pub fn get(&self, name: &str) -> (member: Option<PartyMember>)
        requires
            self.wf(),
        ensures
            member == (if self@.contains_key(name@) { Some(self@[name@]) } else { None }),
    {
        let wanted: String = name.to_owned();
        let mut i: usize = 0;
        while i < self.entries.len()
            invariant
                i <= self.entries.len(),
                wanted@ == name@,
                names_differ(self.entries@),
                forall|j: int| 0 <= j < i ==> (#[trigger] self.entries@[j]).0@ != name@,
            decreases self.entries.len() - i,
        {
            if self.entries[i].0 == wanted {
                assert(named_at(self.entries@, name@, i as int));
                return Some(self.entries[i].1);
            }
            i += 1;
        }
        assert(forall|j: int| !named_at(self.entries@, name@, j));
        None
    }

    /// How many members there are.
    pub fn len(&self) -> (n: usize)
        requires
            self.wf(),
        ensures
            n == self@.len(),
    {
        proof {
            lemma_member_count(self.entries@);
        }
        self.entries.len()
    }

    /// The members with their names, each once, in no particular order.
    pub fn to_vec(&self) -> (list: Vec<(String, PartyMember)>)
        requires
            self.wf(),
        ensures
            names_differ(list@),
            members(list@) == self@,
    {
        copy_entries(&self.entries)
    }

    /// A copy of the roster.
    pub fn copy(&self) -> (roster: PartyRoster)
        requires
            self.wf(),
        ensures
            roster.wf(),
            roster@ == self@,
    {
        PartyRoster { entries: copy_entries(&self.entries) }
    }
}

/// A copy of a list of members.
fn copy_entries(entries: &Vec<(String, PartyMember)>) -> (list: Vec<(String, PartyMember)>)
    ensures
        list@ == entries@,
{
    let mut list: Vec<(String, PartyMember)> = Vec::new();
    let mut i: usize = 0;
    while i < entries.len()
        invariant
            i <= entries.len(),
            list@ == entries@.take(i as int),
        decreases entries.len() - i,
    {
        list.push((entries[i].0.clone(), entries[i].1));
        assert(list@ =~= entries@.take(i + 1));
        i += 1;
    }
    assert(list@ =~= entries@);
    list
}

/// A roster list has as many members as entries.
proof fn lemma_member_count(entries: Seq<(String, PartyMember)>)
    requires
        names_differ(entries),
    ensures
        members(entries).dom().finite(),
        members(entries).len() == entries.len(),
    decreases entries.len(),
{
    if entries.len() == 0 {
        assert(members(entries).dom() =~= Set::<Seq<char>>::empty());
    } else {
        let rest = entries.drop_last();
        let name = entries.last().0@;
        lemma_member_count(rest);
        assert forall|m: Seq<char>| members(entries).dom().contains(m) == members(rest).dom().insert(
            name,
        ).contains(m) by {
            assert(named_at(entries, name, entries.len() - 1));
            if exists|j: int| named_at(entries, m, j) {
                let j = choose|j: int| named_at(entries, m, j);
                if j < rest.len() {
                    assert(named_at(rest, m, j));
                }
            }
            if exists|j: int| named_at(rest, m, j) {
                let j = choose|j: int| named_at(rest, m, j);
                assert(named_at(entries, m, j));
            }
        }
        assert(members(entries).dom() =~= members(rest).dom().insert(name));
        assert(!members(rest).dom().contains(name)) by {
            if exists|j: int| named_at(rest, name, j) {
                let j = choose|j: int| named_at(rest, name, j);
                assert(entries[j].0@ == entries.last().0@);
            }
        }
    }
}

} // verus!
