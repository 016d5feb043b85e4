//! The hash tables of the scheduler.
//!
//! The scheduler keeps its books in hash tables hashed with `fxhash`, a fast
//! hash that is stable within a process: which command owns which subsystem,
//! which commands are marked to be interrupted, which are initialised and
//! which run as orphans. The tables that are about commands are keyed by a
//! pair of integers that stands for the handle.
//!
//! Verus knows the standard `HashMap` and `HashSet` only through their views
//! as a mathematical map and set, and it knows nothing of the hasher, so
//! every operation on a table goes through one of the trusted functions
//! below. Each states, over the view, what the standard library documents for
//! the operation it names.

use fxhash::{FxHashMap, FxHashSet, FxHasher};
use std::hash::BuildHasherDefault;
use vstd::prelude::*;

use crate::state::CommandIndex;
use crate::requirement::SubsystemSUID;

verus! {

/// `fxhash::FxHasher`, the hasher of the table. Opaque.
#[verifier::external_type_specification]
#[verifier::external_body]
pub struct ExFxHasher(FxHasher);

/// `std::hash::BuildHasherDefault`, which builds a hasher by `Default`.
/// Opaque.
#[verifier::external_type_specification]
#[verifier::external_body]
#[verifier::reject_recursive_types(H)]
pub struct ExBuildHasherDefault<H>(BuildHasherDefault<H>);

/// Subsystem identifier to owning command.
pub type OwnerTable = FxHashMap<SubsystemSUID, CommandIndex>;

/// An empty table.
pub(crate) fn empty_table() -> (table: OwnerTable)
    ensures
        table@ == Map::<SubsystemSUID, CommandIndex>::empty(),
{
    FxHashMap::default()
}

/// Trusted: `HashMap::get`, copied out. The owner recorded for `suid`, if
/// there is one.
#[verifier::external_body]
pub(crate) fn owner_of(table: &OwnerTable, suid: SubsystemSUID) -> (owner: Option<CommandIndex>)
    ensures
        owner == if table@.contains_key(suid) {
            Some(table@[suid])
        } else {
            None::<CommandIndex>
        },
{
    table.get(&suid).copied()
}

/// Trusted: `HashMap::insert`. Records `owner` for `suid`, replacing any
/// owner recorded before.
#[verifier::external_body]
pub(crate) fn set_owner(table: &mut OwnerTable, suid: SubsystemSUID, owner: CommandIndex)
    ensures
        final(table)@ == old(table)@.insert(suid, owner),
{
    table.insert(suid, owner);
}

/// Trusted: `HashMap::remove`. Forgets the owner of `suid`, if one is
/// recorded.
#[verifier::external_body]
pub(crate) fn clear_owner(table: &mut OwnerTable, suid: SubsystemSUID)
    ensures
        final(table)@ == old(table)@.remove(suid),
{
    table.remove(&suid);
}

/// Trusted: `HashMap::iter`, copied out. The entries of the table, all of
/// them and nothing else, in an order that is not specified.
#[verifier::external_body]
pub(crate) fn entries_of(table: &OwnerTable) -> (entries: Vec<(SubsystemSUID, CommandIndex)>)
    ensures
        forall|i: int|
            0 <= i < entries@.len() ==> table@.contains_pair(
                (#[trigger] entries@[i]).0,
                entries@[i].1,
            ),
        forall|suid: SubsystemSUID| #[trigger]
            table@.contains_key(suid) ==> exists|i: int|
                0 <= i < entries@.len() && (#[trigger] entries@[i]).0 == suid,
{
    table.iter().map(|(suid, owner)| (*suid, *owner)).collect()
}


/// The key that stands for a handle in a table: the kind of the handle as a
/// number, and its position.
pub type SlotKey = (u8, usize);

/// Handle, by key, to whether the command is marked to be interrupted.
pub type FlagTable = FxHashMap<SlotKey, bool>;

/// A set of handles, by key.
pub type KeySet = FxHashSet<SlotKey>;

/// The key that stands for `index`. Different handles have different keys.
pub open spec fn key_of(index: CommandIndex) -> SlotKey {
    match index {
        CommandIndex::DefaultCommand(position) => (0u8, position),
        CommandIndex::Command(position) => (1u8, position),
        CommandIndex::PreservedCommand(position) => (2u8, position),
    }
}

/// The key that stands for `index`.
pub fn slot_key(index: CommandIndex) -> (key: SlotKey)
    ensures
        key == key_of(index),
{
    match index {
        CommandIndex::DefaultCommand(position) => (0u8, position),
        CommandIndex::Command(position) => (1u8, position),
        CommandIndex::PreservedCommand(position) => (2u8, position),
    }
}

/// An empty table of marks.
pub(crate) fn empty_flags() -> (table: FlagTable)
    ensures
        table@ == Map::<SlotKey, bool>::empty(),
{
    FxHashMap::default()
}

/// An empty set of handles.
pub(crate) fn empty_keys() -> (set: KeySet)
    ensures
        set@ == Set::<SlotKey>::empty(),
{
    FxHashSet::default()
}

/// Trusted: `HashMap::get`, copied out. The mark recorded under `key`, if
/// there is one.
#[verifier::external_body]
pub(crate) fn flag_of(table: &FlagTable, key: SlotKey) -> (flag: Option<bool>)
    ensures
        flag == if table@.contains_key(key) {
            Some(table@[key])
        } else {
            None::<bool>
        },
{
    table.get(&key).copied()
}

/// Trusted: `HashMap::insert`. Records `flag` under `key`, replacing any
/// mark recorded before.
#[verifier::external_body]
pub(crate) fn set_flag(table: &mut FlagTable, key: SlotKey, flag: bool)
    ensures
        final(table)@ == old(table)@.insert(key, flag),
{
    table.insert(key, flag);
}

/// Trusted: `HashMap::remove`. Forgets the mark under `key`, if one is
/// recorded.
#[verifier::external_body]
pub(crate) fn clear_flag(table: &mut FlagTable, key: SlotKey)
    ensures
        final(table)@ == old(table)@.remove(key),
{
    table.remove(&key);
}

/// Trusted: `HashSet::contains`. Whether `key` is in the set.
#[verifier::external_body]
pub(crate) fn holds_key(set: &KeySet, key: SlotKey) -> (found: bool)
    ensures
        found == set@.contains(key),
{
    set.contains(&key)
}

/// Trusted: `HashSet::insert`. Puts `key` in the set.
#[verifier::external_body]
pub(crate) fn put_key(set: &mut KeySet, key: SlotKey)
    ensures
        final(set)@ == old(set)@.insert(key),
{
    set.insert(key);
}

/// Trusted: `HashSet::remove`. Takes `key` out of the set.
#[verifier::external_body]
pub(crate) fn drop_key(set: &mut KeySet, key: SlotKey)
    ensures
        final(set)@ == old(set)@.remove(key),
{
    set.remove(&key);
}

} // verus!
