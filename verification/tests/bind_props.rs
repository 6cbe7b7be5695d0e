use crank_scheduler::resource::ResourceHandle;
use crank_scheduler::task::ScheduledTask;
use crank_scheduler::triggers::Trigger;
use crank_scheduler::{SchedulerError, EXEC_FEE, TABLE_CAPACITY};

fn h(id: u64) -> ResourceHandle {
    ResourceHandle { id }
}

fn bare_task() -> ScheduledTask {
    ScheduledTask::new(
        "bound".to_string(),
        11,
        h(990),
        EXEC_FEE,
        Trigger::Immediate,
        Vec::new(),
        0,
    )
    .unwrap()
}

#[test]
fn bind_without_tables_grows_the_set_only() {
    let mut task = bare_task();
    task.bind(&vec![h(1), h(2), h(1)], 0).unwrap();
    assert_eq!(task.resources.len(), 2, "duplicates are silently elided");
    assert_eq!(task.resources.get(0), h(1));
    assert_eq!(task.resources.get(1), h(2));
    assert!(task.lookup_tables.is_empty());
}

#[test]
fn bind_extends_the_most_recent_table_in_order() {
    let mut task = bare_task();
    task.add_table(40, 0);
    task.bind(&vec![h(1), h(2)], 3).unwrap();
    task.bind(&vec![h(2), h(3)], 5).unwrap();
    let t = &task.lookup_tables[0];
    assert_eq!(t.id, 40);
    assert_eq!(t.members.len(), 3);
    assert_eq!(t.members.get(0), h(1));
    assert_eq!(t.members.get(1), h(2));
    assert_eq!(t.members.get(2), h(3));
    assert_eq!(t.last_extended_epoch, 5);
}

#[test]
fn binding_nothing_new_keeps_the_extension_epoch() {
    let mut task = bare_task();
    task.add_table(41, 0);
    task.bind(&vec![h(1)], 3).unwrap();
    task.bind(&vec![h(1)], 9).unwrap();
    assert_eq!(task.lookup_tables[0].last_extended_epoch, 3);
}

#[test]
fn a_full_table_rejects_further_handles() {
    let mut task = bare_task();
    task.add_table(42, 0);
    let fill: Vec<ResourceHandle> = (0..TABLE_CAPACITY as u64).map(h).collect();
    task.bind(&fill, 1).unwrap();
    assert_eq!(task.lookup_tables[0].members.len(), TABLE_CAPACITY);
    let overflow = task.bind(&vec![h(1_000_000)], 2);
    assert_eq!(overflow, Err(SchedulerError::CapacityExceeded));
    assert_eq!(task.lookup_tables[0].members.len(), TABLE_CAPACITY, "nothing changed");
    assert_eq!(task.resources.len(), TABLE_CAPACITY, "nothing changed");
    // Allocating an additional table restores capacity.
    task.add_table(43, 2);
    task.bind(&vec![h(1_000_000)], 2).unwrap();
    assert_eq!(task.lookup_tables[1].members.len(), 1);
    assert_eq!(task.resources.len(), TABLE_CAPACITY + 1);
}

#[test]
fn handles_already_in_an_earlier_table_are_not_duplicated() {
    let mut task = bare_task();
    task.add_table(44, 0);
    task.bind(&vec![h(1), h(2)], 1).unwrap();
    task.add_table(45, 1);
    task.bind(&vec![h(2), h(9)], 2).unwrap();
    assert_eq!(task.lookup_tables[1].members.len(), 1);
    assert_eq!(task.lookup_tables[1].members.get(0), h(9));
}
