use std::time::{Duration, Instant};

use frclib_commands::manager::elapsed_since;
use frclib_commands::requirement::{insert_all, list_of, set_of, suids_of};
use frclib_commands::{
    Command, CommandIndex, Slot, SubsystemRequirement, SubsystemSUID, Visit,
};

fn slot(interrupt: Option<bool>, initialized: bool) -> Slot {
    Slot { command: Some(Command::empty()), interrupt, initialized, orphaned: false }
}

#[test]
fn marked_command_is_interrupted_whatever_else_is_noted() {
    assert_eq!(Visit::plan(&slot(Some(true), false)), Visit::Interrupt);
    assert_eq!(Visit::plan(&slot(Some(true), true)), Visit::Interrupt);
}

#[test]
fn command_is_started_once() {
    assert_eq!(Visit::plan(&slot(Some(false), false)), Visit::Start);
    assert_eq!(Visit::plan(&slot(Some(false), true)), Visit::Continue);
    assert_eq!(Visit::plan(&slot(None, false)), Visit::Start);
    assert_eq!(Visit::plan(&slot(None, true)), Visit::Continue);
}

#[test]
fn handles_know_their_kind() {
    assert!(CommandIndex::DefaultCommand(0).names_default());
    assert!(!CommandIndex::Command(0).names_default());
    assert!(!CommandIndex::PreservedCommand(0).names_default());
    assert_ne!(CommandIndex::Command(1), CommandIndex::PreservedCommand(1));
    assert_ne!(CommandIndex::Command(1), CommandIndex::Command(2));
    assert_eq!(CommandIndex::DefaultCommand(7), CommandIndex::DefaultCommand(7));
}

#[test]
fn requirement_sets() {
    let set = set_of(&vec![3, 1, 3, 2, 1]);
    assert_eq!(set.len(), 3);
    assert!(set.contains(&1) && set.contains(&2) && set.contains(&3));
    let mut list = list_of(&set);
    list.sort();
    assert_eq!(list, vec![1, 2, 3]);

    let mut into = set_of(&vec![5, 1]);
    insert_all(&mut into, &vec![1, 7, 5, 7, 9]);
    let mut all = list_of(&into);
    all.sort();
    assert_eq!(all, vec![1, 5, 7, 9]);
    insert_all(&mut into, &Vec::new());
    assert_eq!(into.len(), 4);
    assert!(list_of(&set_of(&Vec::new())).is_empty());
}

struct Handle(SubsystemSUID);

impl SubsystemRequirement for Handle {
    fn suid(&self) -> SubsystemSUID {
        self.0
    }
}

#[test]
fn handles_are_asked_in_order() {
    let first = Handle(9);
    let second = Handle(4);
    assert_eq!(suids_of(&[&first, &second, &first]), vec![9, 4, 9]);
    assert!(suids_of(&[]).is_empty());
}

#[test]
fn elapsed_time_is_zero_before_the_first_run() {
    assert_eq!(elapsed_since(&None), Duration::from_secs(0));
    let earlier = Instant::now();
    let start = Instant::now();
    while start.elapsed() < Duration::from_millis(5) {
        std::hint::spin_loop();
    }
    assert!(elapsed_since(&Some(earlier)) >= Duration::from_millis(5));
}
