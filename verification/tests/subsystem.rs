use std::time::Duration;

use frclib_commands::{Command, Subsystem, SubsystemSUID};

struct Arm;

impl Subsystem for Arm {
    fn name(&self) -> &'static str {
        "Arm"
    }

    fn construct() -> Self {
        Arm
    }
}

struct Drive {
    default_given: bool,
}

impl Subsystem for Drive {
    fn name(&self) -> &'static str {
        "Drive"
    }

    fn construct() -> Self {
        Drive { default_given: false }
    }

    fn default_command(&mut self) -> Option<Command> {
        self.default_given = true;
        Some(Command::empty())
    }
}

struct Numbered;

impl Subsystem for Numbered {
    fn name(&self) -> &'static str {
        "Numbered"
    }

    fn construct() -> Self {
        Numbered
    }

    fn suid(&self) -> SubsystemSUID {
        42
    }
}

#[test]
fn suid_is_the_hash_of_the_name() {
    let arm = Arm::construct();
    assert_eq!(arm.suid(), fxhash::hash("Arm") as u64);
    assert_eq!(arm.suid(), arm.suid());
    assert_eq!(Arm::construct().suid(), arm.suid());
    let drive = Drive::construct();
    assert_eq!(drive.suid(), fxhash::hash("Drive") as u64);
    assert_ne!(arm.suid(), drive.suid());
}

#[test]
fn suid_can_be_assigned_by_hand() {
    assert_eq!(Numbered.suid(), 42);
}

#[test]
fn defaults_of_the_trait() {
    let mut arm = Arm::construct();
    arm.periodic(Duration::from_secs(0));
    arm.log();
    assert!(arm.default_command().is_none());
    let mut drive = Drive::construct();
    assert!(drive.default_command().is_some());
    assert!(drive.default_given);
}
