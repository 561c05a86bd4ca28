use slot_registry::Callable;
use slot_registry::Manager;
use slot_registry::Slot;
use slot_registry::Status;

struct Quiet;

impl Callable for Quiet {
    fn call(&self) {}
}

#[test]
fn build() {
    let mut list = Manager::new(5);
    let slot_01 = Slot::new(Box::new(Quiet));
    let id1 = list.add(slot_01);
    assert_eq!(id1, 0);
}

#[test]
fn test_inserts() {
    let mut list = Manager::new(5);
    let slot_01 = Slot::new(Box::new(Quiet));
    let mut slot_02 = Slot::new(Box::new(Quiet));
    slot_02.used = Status::Busy;
    let _id1 = list.add(slot_01);
    list.push_back(slot_02);
    assert_eq!(list.get(1).used, Status::Busy);
}

#[test]
fn exec_ok() {
    let mut list = Manager::new(5);
    let slot_01 = Slot::new(Box::new(Quiet));
    let slot_02 = Slot::new(Box::new(Quiet));
    list.add(slot_01);
    list.push_back(slot_02);
    assert_eq!(list.exec(1), true);
}

#[test]
fn exec_err() {
    let mut list = Manager::new(5);
    let slot_01 = Slot::new(Box::new(Quiet));
    let mut slot_02 = Slot::new(Box::new(Quiet));
    slot_02.used = Status::Busy;
    let _id1 = list.add(slot_01);
    list.push_back(slot_02);
    assert_eq!(list.exec(1), false);
}

#[test]
fn exec_all() {
    let mut list = Manager::new(5);
    let slot_01 = Slot::new(Box::new(Quiet));
    let mut slot_02 = Slot::new(Box::new(Quiet));
    slot_02.used = Status::Busy;
    let _id1 = list.add(slot_01);
    list.push_back(slot_02);
    let l = list.exec_all();
    assert_eq!(l.is_ok(), false);
    assert_eq!(l.unwrap_err().len(), 1);
}

#[test]
fn remove() {
    let mut list = Manager::new(5);
    let slot_01 = Slot::new(Box::new(Quiet));
    let mut slot_02 = Slot::new(Box::new(Quiet));
    slot_02.used = Status::Busy;
    let _id1 = list.add(slot_01);
    list.push_back(slot_02);
    list.rem(0);
    assert_eq!(list.get(0).used, Status::Empty);
}
