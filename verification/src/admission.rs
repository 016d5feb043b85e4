//! Admission: who may take a subsystem.
//!
//! A command that needs nothing runs as an orphan. Otherwise, if one of the
//! subsystems it needs is owned by a scheduled command that refuses to be
//! cancelled, the newcomer is refused: it is ended as interrupted at once
//! and is no longer tracked. If none refuses, the scheduled owners are
//! marked to be interrupted, defaults are displaced without a mark, and the
//! newcomer owns all it needs.

use vstd::prelude::*;

use crate::commands::Command;
use crate::history::{lemma_end_alone, HookCall};
use crate::leaves::LifecycleCall;
use crate::manager::CommandManager;
use crate::requirement::SubsystemSUID;
use crate::state::{CommandIndex, Slot};

verus! {

impl CommandManager {
    /// The requirements of the command under `index`.
    fn requirements_of(&self, index: CommandIndex) -> (needs: Vec<SubsystemSUID>)
        requires
            self@.holds(index),
        ensures
            needs@.to_set() == self@.needs(index),
    {
        match self.command_ref(index) {
            Some(command) => command.get_requirements(),
            None => vstd::pervasive::unreached(),
        }
    }

    /// Whether the command that owns `suid`, if it is no default and not
    /// the command under `index` itself, refuses to be cancelled.
    fn owner_refuses(&self, suid: SubsystemSUID, index: CommandIndex) -> (refused: bool)
        requires
            self.wf(),
        ensures
            refused == (self@.owners.contains_key(suid) && self@.owners[suid] != index
                && !self@.owners[suid].is_default() && self@.command_at(
                self@.owners[suid],
            ).cancels_incoming()),
    {
        match self.owner(suid) {
            Some(owner) => {
                if owner.names_default() || owner == index {
                    false
                } else {
                    proof {
                        assert(self@.owner_consistent(suid));
                    }
                    match self.command_ref(owner) {
                        Some(command) => command.cancel_incoming(),
                        None => vstd::pervasive::unreached(),
                    }
                }
            },
            None => false,
        }
    }

    /// Whether the command under `index`, which needs `needs`, is refused.
    fn is_refused(&self, needs: &Vec<SubsystemSUID>, index: CommandIndex) -> (refused: bool)
        requires
            self.wf(),
        ensures
            refused == self@.refuses(needs@.to_set(), index),
    {
        let mut k: usize = 0;
        while k < needs.len()
            invariant
                k <= needs@.len(),
                self.wf(),
                forall|j: int|
                    0 <= j < k ==> !(self@.owners.contains_key(#[trigger] needs@[j])
                        && self@.owners[needs@[j]] != index
                        && !self@.owners[needs@[j]].is_default() && self@.command_at(
                        self@.owners[needs@[j]],
                    ).cancels_incoming()),
            decreases needs@.len() - k,
        {
            if self.owner_refuses(needs[k], index) {
                proof {
                    let suid = needs@[k as int];
                    let owner = self@.owners[suid];
                    assert(needs@.to_set().contains(suid));
                    assert(self@.owners.contains_pair(suid, owner));
                    assert(self@.incumbent(needs@.to_set(), owner));
                }
                return true;
            }
            k += 1;
        }
        proof {
            if self@.refuses(needs@.to_set(), index) {
                let owner = choose|owner: CommandIndex|
                    owner != index && self@.incumbent(needs@.to_set(), owner)
                        && !owner.is_default() && self@.command_at(owner).cancels_incoming();
                let suid = choose|suid: SubsystemSUID|
                    needs@.to_set().contains(suid) && self@.owners.contains_pair(suid, owner);
                let j = choose|j: int| 0 <= j < needs@.len() && needs@[j] == suid;
                assert(self@.owners.contains_key(needs@[j]));
            }
        }
        false
    }

    /// Makes `index` the owner of every subsystem in `needs`, marking the
    /// scheduled commands that owned one of them to be interrupted.
    fn claim(&mut self, index: CommandIndex, needs: &Vec<SubsystemSUID>)
        requires
            old(self).wf(),
            old(self)@.holds(index),
            !index.is_default(),
            needs@.to_set() == old(self)@.needs(index),
        ensures
            final(self)@ == old(self)@.claimed(index),
    {
        let ghost before = self@;
        let mut k: usize = 0;
        while k < needs.len()
            invariant
                k <= needs@.len(),
                before == old(self)@,
                before.wf(),
                before.holds(index),
                !index.is_default(),
                self@.defaults == before.defaults,
                self@.registered == before.registered,
                self@.conditions == before.conditions,
                self@.history == before.history,
                self@.hooks == before.hooks,
                self@.subsystem_runs == before.subsystem_runs,
                self@.slots.dom() == before.slots.dom(),
                forall|suid: SubsystemSUID|
                    #![trigger self@.owners.contains_key(suid)]
                    self@.owners.contains_key(suid) <==> before.owners.contains_key(suid)
                        || needs@.take(k as int).contains(suid),
                forall|suid: SubsystemSUID|
                    self@.owners.contains_key(suid) ==> #[trigger] self@.owners[suid] == if needs@.take(
                        k as int,
                    ).contains(suid) {
                        index
                    } else {
                        before.owners[suid]
                    },
                forall|other: CommandIndex|
                    other != index && before.in_range(other) ==> #[trigger] self@.slot(other)
                        == if before.incumbent(needs@.take(k as int).to_set(), other)
                        && !other.is_default() {
                        before.slot(other).marked(true)
                    } else {
                        before.slot(other)
                    },
                self@.slot(index) == before.slot(index) || self@.slot(index) == before.slot(
                    index,
                ).marked(true),
            decreases needs@.len() - k,
        {
            let suid = needs[k];
            let ghost done = needs@.take(k as int);
            let ghost next = needs@.take(k + 1);
            let ghost prev = self@;
            let owner = self.owner(suid);
            proof {
                assert(next =~= done.push(suid));
                assert forall|s: SubsystemSUID| next.contains(s) <==> done.contains(s) || s
                    == suid by {
                    if done.contains(s) {
                        let j = choose|j: int| 0 <= j < done.len() && done[j] == s;
                        assert(next[j] == s);
                    }
                    if next.contains(s) {
                        let j = choose|j: int| 0 <= j < next.len() && next[j] == s;
                        if j < done.len() {
                            assert(done[j] == s);
                        }
                    }
                    assert(next[k as int] == suid);
                }
                assert(owner is Some ==> self@.owners.contains_key(suid));
                assert(owner is Some ==> owner->0 == self@.owners[suid]);
                assert(done == needs@.take(k as int));
                assert(owner is Some && done.contains(suid) ==> self@.owners[suid] == index);
                if owner is Some && owner->0 != index {
                    assert(!done.contains(suid));
                    assert(before.owners.contains_pair(suid, owner->0));
                    assert(before.owner_consistent(suid));
                }
            }
            match owner {
                Some(incumbent) => {
                    if !incumbent.names_default() {
                        self.mark(incumbent, true);
                    }
                },
                None => {},
            }
            let ghost marked = self@;
            self.give(suid, index);
            proof {
                let flagged = owner is Some && !owner->0.is_default();
                if flagged {
                    assert(prev.slots.dom().contains(owner->0));
                    assert(marked == prev.with_slot(owner->0, prev.slot(owner->0).marked(true)));
                } else {
                    assert(marked == prev);
                }
                assert(marked.slots.dom() =~= prev.slots.dom());
                assert(self@.slots == marked.slots);
                assert(self@.owners == prev.owners.insert(suid, index));
                assert forall|other: CommandIndex|
                    other != index && before.in_range(other) implies #[trigger] self@.slot(other)
                    == if before.incumbent(next.to_set(), other) && !other.is_default() {
                    before.slot(other).marked(true)
                } else {
                    before.slot(other)
                } by {
                    let was = before.incumbent(done.to_set(), other);
                    let is = before.incumbent(next.to_set(), other);
                    assert(prev.slot(other) == if was && !other.is_default() {
                        before.slot(other).marked(true)
                    } else {
                        before.slot(other)
                    });
                    assert(self@.slot(other) == if flagged && owner->0 == other {
                        prev.slot(other).marked(true)
                    } else {
                        prev.slot(other)
                    });
                    if was {
                        let s = choose|s: SubsystemSUID|
                            done.to_set().contains(s) && before.owners.contains_pair(s, other);
                        assert(next.contains(s));
                        assert(next.to_set().contains(s));
                        assert(is);
                    }
                    if is && !was {
                        let s = choose|s: SubsystemSUID|
                            next.to_set().contains(s) && before.owners.contains_pair(s, other);
                        assert(next.contains(s));
                        if done.contains(s) {
                            assert(done.to_set().contains(s));
                            assert(was);
                        }
                        assert(s == suid);
                        assert(!done.contains(suid));
                        assert(prev.owners.contains_key(suid));
                        assert(prev.owners[suid] == before.owners[suid]);
                        assert(owner == Some(other));
                    }
                    if flagged && owner->0 == other {
                        assert(!done.contains(suid));
                        assert(next.contains(suid));
                        assert(next.to_set().contains(suid));
                        assert(before.owners.contains_pair(suid, other));
                        assert(is);
                    }
                }
                if flagged && owner->0 == index {
                    assert(self@.slot(index) == prev.slot(index).marked(true));
                } else {
                    assert(self@.slot(index) == prev.slot(index));
                }
            }
            k += 1;
        }
        let ghost swept = self@;
        self.mark(index, false);
        proof {
            assert(needs@.take(needs@.len() as int) =~= needs@);
            let target = old(self)@.claimed(index);
            assert(swept.slots.dom().contains(index));
            assert(self@.slots.dom() =~= target.slots.dom());
            assert forall|other: CommandIndex| self@.slots.contains_key(other) implies #[trigger]
                self@.slots[other] == target.slots[other] by {
                if other != index {
                    assert(before.in_range(other));
                    assert(swept.slot(other) == target.slot(other));
                    assert(self@.slot(other) == swept.slot(other));
                }
            }
            assert(self@.slots =~= target.slots);
            assert forall|suid: SubsystemSUID| self@.owners.contains_key(suid)
                <==> target.owners.contains_key(suid) by {
                if needs@.contains(suid) {
                    assert(needs@.to_set().contains(suid));
                }
            }
            assert forall|suid: SubsystemSUID| self@.owners.contains_key(suid) implies #[trigger]
                self@.owners[suid] == target.owners[suid] by {
                if needs@.contains(suid) {
                    assert(needs@.to_set().contains(suid));
                }
            }
            assert(self@.owners =~= target.owners);
        }
    }

    /// Ends the command under `index` as interrupted and stops tracking it.
    fn retire(&mut self, index: CommandIndex)
        requires
            old(self).wf(),
            old(self)@.holds(index),
        ensures
            final(self).wf(),
            exists|left: Command|
                {
                    &&& #[trigger] left.same_declaration(&old(self)@.command_at(index))
                    &&& left.follows(&old(self)@.command_at(index), LifecycleCall::End(true))
                    &&& final(self)@ == old(self)@.retired(index, left)
                },
    {
        let Slot { command, interrupt, initialized, orphaned } = self.take_slot(index);
        let mut command = command.unwrap();
        command.end(true);
        let ghost left = command;
        let ghost calls = seq![HookCall::End(true)];
        self.log(index, Ghost(calls));
        self.put_slot(index, Slot { command: Some(command), interrupt, initialized: false, orphaned });
        proof {
            let stopped = Slot { initialized: false, ..old(self)@.slot(index).holding(left) };
            let halted = old(self)@.logged(index, calls).with_slot(index, stopped);
            assert(self@.slots =~= halted.slots);
            assert(self@ == halted);
            assert(old(self)@.slot_consistent(index));
            if old(self)@.owns_some(index) {
                let suid = choose|suid: SubsystemSUID| old(self)@.owners.contains_pair(suid, index);
                assert(old(self)@.owner_consistent(suid));
            }
            lemma_end_alone(old(self)@.slot(index).initialized);
            old(self)@.lemma_logged_wf(index, calls, stopped);
        }
        self.remove_command(index);
        proof {
            let target = old(self)@.retired(index, left);
            assert(self@.slots =~= target.slots);
            assert(self@.owners =~= target.owners);
            assert(left.same_declaration(&old(self)@.command_at(index)));
        }
    }

    /// Admission: decides whether the command under `index` may take the
    /// subsystems it needs.
    ///
    /// A command that needs nothing runs as an orphan. Otherwise, if one of
    /// the subsystems is owned by a scheduled command that refuses to be
    /// cancelled, the newcomer is refused: it is ended as interrupted at
    /// once and no longer tracked. If none refuses, the scheduled owners are
    /// marked to be interrupted, defaults are displaced without a mark, and
    /// the newcomer owns all it needs.
    pub(crate) fn inner_schedule(&mut self, index: CommandIndex) -> (admitted: bool)
        requires
            old(self).wf(),
            old(self)@.holds(index),
            !index.is_default(),
        ensures
            final(self).wf(),
            admitted == !old(self)@.refuses_admission(index),
            exists|left: Command|
                {
                    &&& #[trigger] left.same_declaration(&old(self)@.command_at(index))
                    &&& !admitted ==> left.follows(
                        &old(self)@.command_at(index),
                        LifecycleCall::End(true),
                    )
                    &&& final(self)@ == old(self)@.admitted_or_retired(index, left)
                },
            final(self)@.slots.dom() == old(self)@.slots.dom(),
            final(self)@.defaults == old(self)@.defaults,
            final(self)@.registered == old(self)@.registered,
            final(self)@.conditions == old(self)@.conditions,
    {
        let needs = self.requirements_of(index);
        if needs.len() == 0 {
            proof {
                assert(needs@.to_set() =~= Set::<SubsystemSUID>::empty());
                self@.lemma_admitted_wf(index);
            }
            self.mark_orphan(index);
            proof {
                assert(self@.slots.dom() =~= old(self)@.slots.dom());
                let same = old(self)@.command_at(index);
                assert(same.same_declaration(&old(self)@.command_at(index)));
                assert(self@ == old(self)@.admitted_or_retired(index, same));
            }
            return true;
        }
        proof {
            assert(needs@.to_set().contains(needs@[0]));
        }
        if self.is_refused(&needs, index) {
            self.retire(index);
            proof {
                assert(self@.slots.dom() =~= old(self)@.slots.dom());
                let left = choose|left: Command|
                    {
                        &&& #[trigger] left.same_declaration(&old(self)@.command_at(index))
                        &&& left.follows(&old(self)@.command_at(index), LifecycleCall::End(true))
                        &&& self@ == old(self)@.retired(index, left)
                    };
                assert(self@ == old(self)@.admitted_or_retired(index, left));
            }
            false
        } else {
            proof {
                self@.lemma_admitted_wf(index);
            }
            self.claim(index, &needs);
            proof {
                assert(self@.slots.dom() =~= old(self)@.slots.dom());
                let same = old(self)@.command_at(index);
                assert(same.same_declaration(&old(self)@.command_at(index)));
                assert(self@ == old(self)@.admitted_or_retired(index, same));
            }
            true
        }
    }
}

} // verus!
