//! Subsystem identities and requirement lists.
//!
//! A subsystem is known to the scheduler by a stable 64-bit identifier. A
//! command declares the subsystems it needs as a list of identifiers; what
//! matters for admission is the *set* of identifiers in that list.

use std::collections::HashSet;
use vstd::prelude::*;
use vstd::std_specs::hash::*;
use vstd::std_specs::iter::IteratorSpec;

verus! {

broadcast use vstd::std_specs::hash::group_hash_axioms;

/// The stable identity of a registered subsystem.
pub type SubsystemSUID = u64;

/// Anything that can name the subsystem it stands for.
///
/// Implemented by clients for their subsystem handles. The identifier must be
/// stable for the life of the handle, but nothing here can check that.
pub trait SubsystemRequirement {
    fn suid(&self) -> SubsystemSUID;
}

/// A subsystem that a command requires, by handle.
pub type Requirement<'a> = &'a dyn SubsystemRequirement;

/// The subsystems that a command requires, by handle.
pub type Requirements<'a, 'b> = &'a [Requirement<'b>];

/// Adds every identifier of `list` to `set`.
pub fn insert_all(set: &mut HashSet<SubsystemSUID>, list: &Vec<SubsystemSUID>)
    ensures
        final(set)@ == old(set)@.union(list@.to_set()),
{
    let mut i: usize = 0;
    proof {
        assert(list@.take(0).to_set() =~= Set::<SubsystemSUID>::empty());
        assert(set@ =~= old(set)@.union(list@.take(0).to_set()));
    }
    while i < list.len()
        invariant
            i <= list@.len(),
            set@ == old(set)@.union(list@.take(i as int).to_set()),
        decreases list@.len() - i,
    {
        let suid = list[i];
        set.insert(suid);
        proof {
            let seen = list@.take(i as int);
            let next = list@.take(i + 1);
            assert(next =~= seen.push(suid));
            assert forall|s: SubsystemSUID| next.to_set().contains(s) <==> seen.to_set().insert(
                suid,
            ).contains(s) by {
                if next.contains(s) {
                    let k = choose|k: int| 0 <= k < next.len() && next[k] == s;
                    if k < i {
                        assert(seen[k] == s);
                    }
                }
                if seen.contains(s) {
                    let k = choose|k: int| 0 <= k < seen.len() && seen[k] == s;
                    assert(next[k] == s);
                }
                assert(next[i as int] == suid);
            }
            assert(next.to_set() =~= seen.to_set().insert(suid));
            assert(set@ =~= old(set)@.union(next.to_set()));
        }
        i += 1;
    }
    proof {
        assert(list@.take(list@.len() as int) =~= list@);
    }
}

/// The identifiers of `list` as a set.
pub fn set_of(list: &Vec<SubsystemSUID>) -> (set: HashSet<SubsystemSUID>)
    ensures
        set@ == list@.to_set(),
{
    let mut set: HashSet<SubsystemSUID> = HashSet::new();
    insert_all(&mut set, list);
    proof {
        assert(set@ =~= list@.to_set());
    }
    set
}

/// The identifiers of `set` as a list, each once, in the order in which the
/// set hands them out.
pub fn list_of(set: &HashSet<SubsystemSUID>) -> (list: Vec<SubsystemSUID>)
    ensures
        list@.to_set() == set@,
        list@.no_duplicates(),
{
    let mut list: Vec<SubsystemSUID> = Vec::new();
    for suid in it: set.iter()
        invariant
            list@.len() == it.index(),
            forall|j: int| 0 <= j < it.index() ==> list@[j] == *#[trigger] it.seq()[j],
    {
        list.push(*suid);
    }
    proof {
        let all = set.iter().remaining();
        assert(list@ =~= all.unref());
        assert forall|a: int, b: int|
            0 <= a < list@.len() && 0 <= b < list@.len() && a != b implies list@[a]
            != list@[b] by {
            assert(all[a] != all[b]);
        }
    }
    list
}

/// Asks each subsystem for its identifier, in order.
///
/// The identifiers are whatever the handles answer; only their number is
/// known here.
pub fn suids_of(subsystems: Requirements) -> (suids: Vec<SubsystemSUID>)
    ensures
        suids@.len() == subsystems@.len(),
{
    let mut suids: Vec<SubsystemSUID> = Vec::new();
    let mut i: usize = 0;
    while i < subsystems.len()
        invariant
            i <= subsystems@.len(),
            suids@.len() == i,
        decreases subsystems@.len() - i,
    {
        suids.push(subsystems[i].suid());
        i += 1;
    }
    suids
}

} // verus!
