use doomsday_rs::duration::Duration;
use doomsday_rs::scheduler::Scheduler;
use doomsday_rs::types::{Task, TaskInfo, TaskStatus};
use doomsday_rs::DoomsdayError;

fn refresh(name: &str) -> Task {
    Task::RefreshBackend { backend_name: name.to_string() }
}

fn count(scheduler: &Scheduler, wanted: fn(&TaskStatus) -> bool) -> usize {
    scheduler.list_tasks().iter().filter(|t| wanted(&t.status)).count()
}

fn is_running(s: &TaskStatus) -> bool {
    matches!(s, TaskStatus::Running)
}

fn is_completed(s: &TaskStatus) -> bool {
    matches!(s, TaskStatus::Completed)
}

#[test]
fn ten_tasks_on_two_workers() {
    let mut scheduler = Scheduler::new(2);
    for i in 0..10 {
        scheduler.schedule_task(refresh(&format!("b{}", i))).unwrap();
    }
    assert_eq!(scheduler.get_info().pending_tasks, 10);
    let mut rounds = 0;
    let mut finished = 0;
    loop {
        let mut running: Vec<TaskInfo> = Vec::new();
        while let Some(task) = scheduler.next_task() {
            running.push(task);
            let info = scheduler.get_info();
            assert!(info.running_tasks <= 2);
            assert_eq!(info.workers, 2);
            assert!(count(&scheduler, is_running) <= 2);
        }
        if running.is_empty() {
            break;
        }
        assert!(running.len() <= 2);
        rounds += 1;
        for task in running {
            scheduler.complete_task(task, Ok(())).unwrap();
            finished += 1;
            assert!(scheduler.get_info().running_tasks <= 2);
        }
    }
    assert_eq!(finished, 10);
    assert!(rounds >= 5);
    assert_eq!(count(&scheduler, is_completed), 10);
    let info = scheduler.get_info();
    assert_eq!(info.pending_tasks, 0);
    assert_eq!(info.running_tasks, 0);
}

#[test]
fn default_scheduler_has_four_workers() {
    let scheduler = Scheduler::default();
    let info = scheduler.get_info();
    assert_eq!(info.workers, 4);
    assert_eq!(info.pending_tasks, 0);
    assert_eq!(info.running_tasks, 0);
    assert!(scheduler.list_tasks().is_empty());
}

#[test]
fn scheduled_task_is_pending_under_a_fresh_id() {
    let mut scheduler = Scheduler::new(1);
    let before = chrono::Utc::now().timestamp();
    let first = scheduler.schedule_task(refresh("a")).unwrap();
    let second = scheduler.schedule_task(refresh("a")).unwrap();
    let after = chrono::Utc::now().timestamp();
    assert_ne!(first, second);
    assert_eq!(first.len(), 36);
    assert_eq!(first.matches('-').count(), 4);
    let info = scheduler.get_task(&first).unwrap();
    assert_eq!(info.id, first);
    assert!(matches!(info.status, TaskStatus::Pending));
    assert!(matches!(&info.task, Task::RefreshBackend { backend_name } if backend_name == "a"));
    assert!(before <= info.created_at && info.created_at <= after);
    assert!(info.started_at.is_none());
    assert!(info.completed_at.is_none());
    assert!(info.error.is_none());
    assert!(scheduler.get_task("unknown").is_none());
    assert_eq!(scheduler.list_tasks().len(), 2);
}

#[test]
fn tasks_start_in_the_order_scheduled() {
    let mut scheduler = Scheduler::new(3);
    scheduler.schedule_task_as(refresh("a"), "1".to_string(), 100).unwrap();
    scheduler.schedule_task_as(refresh("b"), "2".to_string(), 101).unwrap();
    scheduler.schedule_task_as(refresh("c"), "3".to_string(), 102).unwrap();
    let first = scheduler.next_task_at(200).unwrap();
    assert_eq!(first.id, "1");
    assert_eq!(first.created_at, 100);
    assert_eq!(first.started_at, Some(200));
    assert!(matches!(first.status, TaskStatus::Running));
    assert_eq!(scheduler.next_task_at(201).unwrap().id, "2");
    assert_eq!(scheduler.next_task_at(202).unwrap().id, "3");
    assert!(scheduler.next_task_at(203).is_none());
    let recorded = scheduler.get_task("2").unwrap();
    assert!(matches!(recorded.status, TaskStatus::Running));
    assert_eq!(recorded.started_at, Some(201));
}

#[test]
fn no_task_starts_while_all_workers_are_busy() {
    let mut scheduler = Scheduler::new(1);
    scheduler.schedule_task_as(refresh("a"), "1".to_string(), 0).unwrap();
    scheduler.schedule_task_as(refresh("b"), "2".to_string(), 0).unwrap();
    let first = scheduler.next_task_at(1).unwrap();
    assert!(scheduler.next_task_at(2).is_none());
    assert_eq!(scheduler.get_info().running_tasks, 1);
    assert_eq!(scheduler.get_info().pending_tasks, 1);
    scheduler.complete_task_at(first, Ok(()), 3).unwrap();
    assert_eq!(scheduler.next_task_at(4).unwrap().id, "2");
}

#[test]
fn scheduler_without_workers_starts_nothing() {
    let mut scheduler = Scheduler::new(0);
    scheduler.schedule_task(refresh("a")).unwrap();
    assert!(scheduler.next_task().is_none());
    let info = scheduler.get_info();
    assert_eq!(info.workers, 0);
    assert_eq!(info.pending_tasks, 1);
    assert_eq!(info.running_tasks, 0);
}

#[test]
fn ended_tasks_are_completed_or_failed() {
    let mut scheduler = Scheduler::new(2);
    scheduler.schedule_task_as(refresh("a"), "good".to_string(), 0).unwrap();
    scheduler.schedule_task_as(refresh("b"), "bad".to_string(), 0).unwrap();
    let good = scheduler.next_task_at(10).unwrap();
    let bad = scheduler.next_task_at(11).unwrap();
    scheduler.complete_task_at(good, Ok(()), 20).unwrap();
    scheduler.complete_task_at(bad, Err("it broke".to_string()), 21).unwrap();
    let good = scheduler.get_task("good").unwrap();
    assert!(matches!(good.status, TaskStatus::Completed));
    assert_eq!(good.started_at, Some(10));
    assert_eq!(good.completed_at, Some(20));
    assert!(good.error.is_none());
    let bad = scheduler.get_task("bad").unwrap();
    assert!(matches!(bad.status, TaskStatus::Failed));
    assert_eq!(bad.completed_at, Some(21));
    assert_eq!(bad.error.as_deref(), Some("it broke"));
    assert_eq!(scheduler.get_info().running_tasks, 0);
}

#[test]
fn ending_a_task_that_is_not_running_is_refused() {
    let mut scheduler = Scheduler::new(2);
    scheduler.schedule_task_as(refresh("a"), "1".to_string(), 0).unwrap();
    let pending = scheduler.get_task("1").unwrap();
    match scheduler.complete_task_at(pending, Ok(()), 5) {
        Err(DoomsdayError::Scheduler(m)) => assert_eq!(m, "Task is not running"),
        other => panic!("unexpected {:?}", other),
    }
    assert!(matches!(scheduler.get_task("1").unwrap().status, TaskStatus::Pending));
    let running = scheduler.next_task_at(6).unwrap();
    let again = running.clone();
    scheduler.complete_task_at(running, Ok(()), 7).unwrap();
    assert!(scheduler.complete_task_at(again, Ok(()), 8).is_err());
    assert_eq!(scheduler.get_task("1").unwrap().completed_at, Some(7));
}

#[test]
fn shutdown_refuses_new_tasks_and_starts_none() {
    let mut scheduler = Scheduler::new(2);
    scheduler.schedule_task_as(refresh("a"), "1".to_string(), 0).unwrap();
    scheduler.schedule_task_as(refresh("b"), "2".to_string(), 0).unwrap();
    let running = scheduler.next_task_at(1).unwrap();
    scheduler.shutdown();
    match scheduler.schedule_task(refresh("c")) {
        Err(DoomsdayError::Scheduler(m)) => {
            assert_eq!(m, "Failed to schedule task: channel closed")
        }
        other => panic!("unexpected {:?}", other),
    }
    assert!(scheduler.schedule_task_as(refresh("c"), "3".to_string(), 2).is_err());
    assert!(scheduler.get_task("3").is_none());
    assert!(scheduler.next_task_at(3).is_none());
    scheduler.complete_task_at(running, Ok(()), 4).unwrap();
    assert!(matches!(scheduler.get_task("1").unwrap().status, TaskStatus::Completed));
    assert!(matches!(scheduler.get_task("2").unwrap().status, TaskStatus::Pending));
}

#[test]
fn cleanup_forgets_tasks_that_ended_long_ago() {
    let mut scheduler = Scheduler::new(4);
    for id in ["old ok", "old bad", "recent", "running", "pending"] {
        scheduler.schedule_task_as(refresh(id), id.to_string(), 0).unwrap();
    }
    let old_ok = scheduler.next_task_at(1).unwrap();
    let old_bad = scheduler.next_task_at(1).unwrap();
    let recent = scheduler.next_task_at(1).unwrap();
    let _running = scheduler.next_task_at(1).unwrap();
    scheduler.complete_task_at(old_ok, Ok(()), 100).unwrap();
    scheduler.complete_task_at(old_bad, Err("x".to_string()), 399).unwrap();
    scheduler.complete_task_at(recent, Ok(()), 400).unwrap();
    scheduler.cleanup_completed_at(Duration::seconds(600), 1000);
    let mut left: Vec<String> = scheduler.list_tasks().into_iter().map(|t| t.id).collect();
    left.sort();
    assert_eq!(left, vec!["pending", "recent", "running"]);
    scheduler.cleanup_completed_at(Duration::zero(), i64::MAX);
    assert_eq!(scheduler.list_tasks().len(), 2);
    scheduler.cleanup_completed_tasks(Duration::hours(1));
    assert_eq!(scheduler.list_tasks().len(), 2);
}

#[test]
fn same_id_scheduled_twice_keeps_the_later_record() {
    let mut scheduler = Scheduler::new(1);
    scheduler.schedule_task_as(refresh("first"), "same".to_string(), 1).unwrap();
    let running = scheduler.next_task_at(2).unwrap();
    scheduler.schedule_task_as(refresh("second"), "same".to_string(), 3).unwrap();
    assert_eq!(scheduler.list_tasks().len(), 1);
    assert!(matches!(scheduler.get_task("same").unwrap().status, TaskStatus::Pending));
    let info = scheduler.get_info();
    assert_eq!(info.running_tasks, 0);
    assert_eq!(info.pending_tasks, 1);
    assert!(scheduler.next_task_at(4).is_none());
    scheduler.complete_task_at(running, Ok(()), 5).unwrap();
    let next = scheduler.next_task_at(6).unwrap();
    assert!(matches!(&next.task, Task::RefreshBackend { backend_name } if backend_name == "second"));
    assert!(scheduler.get_info().running_tasks <= 1);
}

#[test]
fn ended_record_is_made_from_the_one_kept() {
    let mut scheduler = Scheduler::new(1);
    scheduler.schedule_task_as(refresh("real"), "id".to_string(), 100).unwrap();
    let running = scheduler.next_task_at(200).unwrap();
    let doctored = TaskInfo {
        id: running.id.clone(),
        task: refresh("other"),
        created_at: 1,
        started_at: Some(2),
        completed_at: Some(3),
        status: TaskStatus::Failed,
        error: Some("made up".to_string()),
    };
    scheduler.complete_task_at(doctored, Ok(()), 300).unwrap();
    let kept = scheduler.get_task("id").unwrap();
    assert!(matches!(&kept.task, Task::RefreshBackend { backend_name } if backend_name == "real"));
    assert_eq!(kept.created_at, 100);
    assert_eq!(kept.started_at, Some(200));
    assert_eq!(kept.completed_at, Some(300));
    assert!(matches!(kept.status, TaskStatus::Completed));
    assert!(kept.error.is_none());
    assert_eq!(scheduler.get_info().running_tasks, 0);
}

#[test]
fn ending_leaves_a_record_that_is_not_running_alone() {
    let mut scheduler = Scheduler::new(2);
    scheduler.schedule_task_as(refresh("first"), "same".to_string(), 1).unwrap();
    let first = scheduler.next_task_at(2).unwrap();
    scheduler.schedule_task_as(refresh("second"), "same".to_string(), 3).unwrap();
    scheduler.complete_task_at(first, Err("late".to_string()), 4).unwrap();
    let kept = scheduler.get_task("same").unwrap();
    assert!(matches!(kept.status, TaskStatus::Pending));
    assert_eq!(kept.created_at, 3);
    assert!(kept.completed_at.is_none());
    assert!(kept.error.is_none());
    let second = scheduler.next_task_at(5).unwrap();
    scheduler.complete_task_at(second.clone(), Ok(()), 6).unwrap();
    scheduler.cleanup_completed_at(Duration::zero(), 100);
    assert!(scheduler.get_task("same").is_none());
    assert!(scheduler.complete_task_at(second, Ok(()), 7).is_err());
}

#[test]
fn all_tasks_of_a_run_end_completed() {
    let mut scheduler = Scheduler::new(2);
    let mut ids = Vec::new();
    for i in 0..10 {
        ids.push(scheduler.schedule_task(refresh(&format!("b{}", i))).unwrap());
    }
    loop {
        let mut running = Vec::new();
        while let Some(task) = scheduler.next_task() {
            running.push(task);
        }
        if running.is_empty() {
            break;
        }
        for task in running {
            scheduler.complete_task(task, Ok(())).unwrap();
        }
    }
    let tasks = scheduler.list_tasks();
    assert_eq!(tasks.len(), 10);
    let mut seen: Vec<String> = tasks.iter().map(|t| t.id.clone()).collect();
    seen.sort();
    ids.sort();
    assert_eq!(seen, ids);
    for t in &tasks {
        assert!(matches!(t.status, TaskStatus::Completed));
        assert!(t.started_at.is_some());
        assert!(t.completed_at.is_some());
        assert!(t.error.is_none());
    }
}
