use clockwise::model::{SessionKind, Status, TaskError};
use clockwise::store::Store;
use clockwise::ui::UiState;

const T0: i64 = 1_700_000_000;

#[test]
fn test_task_lifecycle() {
    let mut store = Store::new();

    let task = store.add_task(
        "Teste".to_string(),
        "Usuario".to_string(),
        7200,
        20240314,
        T0,
    );
    assert_eq!(task.status, Status::Pending, "Deveria criar tarefa com sucesso");
    assert_eq!(task.id, 1);

    let start_result = store.start_task(task.id, false, T0 + 10);
    assert!(start_result.is_ok(), "Deveria iniciar tarefa com sucesso");

    let another = store.add_task(
        "Outra".to_string(),
        "Usuario".to_string(),
        3600,
        20240314,
        T0 + 20,
    );
    let start_another = store.start_task(another.id, false, T0 + 30);
    assert!(start_another.is_err(), "Nao deveria permitir iniciar outra tarefa");

    let complete_result = store.complete_task(task.id, T0 + 40);
    assert!(complete_result.is_ok(), "Deveria completar tarefa com sucesso");

    let delete_result = store.delete_task(task.id);
    assert!(delete_result.is_ok(), "Deveria deletar tarefa com sucesso");
    assert!(!store.has_task(task.id));
}

#[test]
fn test_get_today_tasks() {
    let mut store = Store::new();
    let today: i64 = 20240314;
    let yesterday: i64 = 20240313;

    store.add_task("Hoje".to_string(), "Usuario".to_string(), 3600, today, T0);
    store.add_task(
        "Ontem".to_string(),
        "Usuario".to_string(),
        3600,
        yesterday,
        T0 + 1,
    );

    let today_tasks = store.get_today_tasks(today);
    assert_eq!(today_tasks.len(), 1, "Deveria retornar apenas uma tarefa de hoje");
    assert_eq!(today_tasks[0].scheduled_date, today);
    assert_eq!(today_tasks[0].name, "Hoje");
}

#[test]
fn template_has_eight_fixed_stages() {
    let mut store = Store::new();
    let task = store.add_task("t".to_string(), "u".to_string(), 1800, 20240101, T0);
    let views = store.load_tasks_with_sessions();
    assert_eq!(views.len(), 1);
    let sessions = &views[0].pomodoro_sessions;
    assert_eq!(sessions.len(), 8);
    let expected = [
        (SessionKind::Work, 1500),
        (SessionKind::Break, 300),
        (SessionKind::Work, 1500),
        (SessionKind::Break, 300),
        (SessionKind::Work, 1500),
        (SessionKind::Break, 300),
        (SessionKind::Work, 1500),
        (SessionKind::Break, 900),
    ];
    for (i, (kind, duration)) in expected.iter().enumerate() {
        assert_eq!(sessions[i].session_number, (i + 1) as i64);
        assert_eq!(sessions[i].session_type, *kind);
        assert_eq!(sessions[i].duration_seconds, *duration);
        assert!(!sessions[i].is_active);
    }
    assert!(views[0].active_session.is_none());
    let _ = task;
}

#[test]
fn scenario_start_opens_first_work_session() {
    // A task estimated at half an hour (1800 s) starts into session #1.
    let mut store = Store::new();
    let task = store.add_task("a".to_string(), "u".to_string(), 1800, 20240101, T0);
    assert!(store.start_task(task.id, false, T0).is_ok());

    let views = store.load_tasks_with_sessions();
    assert_eq!(views[0].task.status, Status::InProgress);
    let active = views[0].active_session.as_ref().expect("an active session");
    assert_eq!(active.session_type, SessionKind::Work);
    assert_eq!(active.duration_seconds, 1500);
    assert_eq!(active.started_at, T0);
    assert_eq!(active.ends_at, T0 + 1500);
    assert!(views[0].pomodoro_sessions[0].is_active);
    assert_eq!(views[0].pomodoro_sessions[0].started_at, Some(T0));
    assert_eq!(views[0].task.started_at, Some(T0));

    assert_eq!(store.get_task_remaining_time(task.id, T0), Ok(1800));
}

#[test]
fn scenario_elapsed_work_session_advances_to_break() {
    // After 1500 s the poll moves the task into the 300 s break; the log is
    // closed at the session's nominal end.
    let mut store = Store::new();
    let task = store.add_task("a".to_string(), "u".to_string(), 1800, 20240101, T0);
    assert!(store.start_task(task.id, false, T0).is_ok());

    let advanced = store.check_pomodoro_sessions(T0 + 1500);
    assert_eq!(advanced, vec![task.id]);

    let views = store.load_tasks_with_sessions();
    assert_eq!(views[0].task.status, Status::Waiting);
    let active = views[0].active_session.as_ref().expect("an active session");
    assert_eq!(active.session_type, SessionKind::Break);
    assert_eq!(active.duration_seconds, 300);
    assert!(views[0].pomodoro_sessions[1].is_active);

    assert_eq!(store.get_task_remaining_time(task.id, T0 + 1500), Ok(300));
    // The break accrues no work time.
    assert_eq!(store.get_task_remaining_time(task.id, T0 + 1600), Ok(300));
}

#[test]
fn scenario_second_task_needs_force() {
    let mut store = Store::new();
    let first = store.add_task("a".to_string(), "u".to_string(), 1800, 20240101, T0);
    let second = store.add_task("b".to_string(), "u".to_string(), 1800, 20240101, T0);
    assert!(store.start_task(first.id, false, T0).is_ok());

    let refused = store.start_task(second.id, false, T0 + 10);
    assert_eq!(refused, Err(TaskError::OnlyOneTaskAtATime));
    assert_eq!(
        refused.unwrap_err().message(),
        "only one task may run at a time"
    );

    assert!(store.start_task(second.id, true, T0 + 20).is_ok());
    let tasks = store.load_tasks();
    let first_row = tasks.iter().find(|t| t.id == first.id).unwrap();
    let second_row = tasks.iter().find(|t| t.id == second.id).unwrap();
    assert_eq!(first_row.status, Status::Paused);
    assert_eq!(second_row.status, Status::InProgress);
    // The forced pause closed the first task's log after 20 s of work.
    assert_eq!(store.get_task_remaining_time(first.id, T0 + 50), Ok(1780));
}

#[test]
fn scenario_pause_without_active_session_fails() {
    let mut store = Store::new();
    let task = store.add_task("a".to_string(), "u".to_string(), 1800, 20240101, T0);

    let refused = store.pause_task(task.id, T0 + 10);
    assert_eq!(refused, Err(TaskError::NoActiveSessionToPause));
    assert_eq!(
        refused.unwrap_err().message(),
        "no active session to pause"
    );

    // The store is untouched: still pending, nothing worked.
    let tasks = store.load_tasks();
    assert_eq!(tasks.len(), 1);
    assert_eq!(tasks[0].status, Status::Pending);
    assert_eq!(store.get_task_remaining_time(task.id, T0 + 10), Ok(1800));
}

#[test]
fn scenario_all_sessions_consumed_completes_task() {
    // Work 1500, break 300, three more times, then the 900 s long break:
    // eight advancements in all, the last one completing the task.
    let mut store = Store::new();
    let task = store.add_task("a".to_string(), "u".to_string(), 21600, 20240101, T0);
    assert!(store.start_task(task.id, false, T0).is_ok());

    let durations = [1500, 300, 1500, 300, 1500, 300, 1500, 900];
    let mut now = T0;
    for d in durations.iter() {
        now += d;
        let advanced = store.check_pomodoro_sessions(now);
        assert_eq!(advanced, vec![task.id]);
    }

    let tasks = store.load_tasks();
    assert_eq!(tasks[0].status, Status::Completed);
    assert_eq!(tasks[0].completed_at, Some(now));

    // A later poll is a no-op for the completed task.
    let advanced = store.check_pomodoro_sessions(now + 5000);
    assert!(advanced.is_empty());
    let tasks = store.load_tasks();
    assert_eq!(tasks[0].status, Status::Completed);
    assert_eq!(tasks[0].completed_at, Some(now));

    // Four full work sessions were logged.
    assert_eq!(
        store.get_task_remaining_time(task.id, now + 5000),
        Ok(21600 - 4 * 1500)
    );
}

#[test]
fn polling_twice_at_one_instant_advances_nothing_more() {
    let mut store = Store::new();
    let task = store.add_task("a".to_string(), "u".to_string(), 1800, 20240101, T0);
    assert!(store.start_task(task.id, false, T0).is_ok());

    let first = store.check_pomodoro_sessions(T0 + 1500);
    assert_eq!(first, vec![task.id]);
    let second = store.check_pomodoro_sessions(T0 + 1500);
    assert!(second.is_empty());

    let views = store.load_tasks_with_sessions();
    assert_eq!(views[0].task.status, Status::Waiting);
    assert!(views[0].pomodoro_sessions[1].is_active);
}

#[test]
fn pause_then_resume_keeps_worked_seconds() {
    // 600 s of work are logged by the pause; the gap until the resume adds
    // nothing, and at the resume instant nothing further has accrued.
    let mut store = Store::new();
    let task = store.add_task("a".to_string(), "u".to_string(), 1800, 20240101, T0);
    assert!(store.start_task(task.id, false, T0).is_ok());

    assert!(store.pause_task(task.id, T0 + 600).is_ok());
    assert_eq!(store.get_task_remaining_time(task.id, T0 + 600), Ok(1200));
    // Time passing while paused is not counted.
    assert_eq!(store.get_task_remaining_time(task.id, T0 + 900), Ok(1200));

    assert!(store.resume_task(task.id, T0 + 900).is_ok());
    assert_eq!(store.get_task_remaining_time(task.id, T0 + 900), Ok(1200));

    // The resume consumed the next session of the cycle (the first break).
    let views = store.load_tasks_with_sessions();
    assert_eq!(views[0].task.status, Status::Waiting);
    assert!(views[0].pomodoro_sessions[1].is_active);
}

#[test]
fn over_estimate_goes_negative() {
    let mut store = Store::new();
    let task = store.add_task("a".to_string(), "u".to_string(), 60, 20240101, T0);
    assert!(store.start_task(task.id, false, T0).is_ok());
    let advanced = store.check_pomodoro_sessions(T0 + 1500);
    assert_eq!(advanced, vec![task.id]);
    assert_eq!(store.get_task_remaining_time(task.id, T0 + 1500), Ok(60 - 1500));
}

#[test]
fn missing_task_is_reported_by_every_operation() {
    let mut store = Store::new();
    assert_eq!(store.start_task(7, false, T0), Err(TaskError::TaskNotFound));
    assert_eq!(store.pause_task(7, T0), Err(TaskError::TaskNotFound));
    assert_eq!(store.resume_task(7, T0), Err(TaskError::TaskNotFound));
    assert_eq!(store.complete_task(7, T0), Err(TaskError::TaskNotFound));
    assert_eq!(store.delete_task(7), Err(TaskError::TaskNotFound));
    assert_eq!(store.ensure_sessions(7, T0), Err(TaskError::TaskNotFound));
    assert_eq!(store.get_task_remaining_time(7, T0), Err(TaskError::TaskNotFound));
    assert_eq!(TaskError::TaskNotFound.message(), "task not found");
}

#[test]
fn starting_a_task_with_an_open_log_fails() {
    let mut store = Store::new();
    let task = store.add_task("a".to_string(), "u".to_string(), 1800, 20240101, T0);
    assert!(store.start_task(task.id, false, T0).is_ok());
    let refused = store.start_task(task.id, false, T0 + 10);
    assert_eq!(refused, Err(TaskError::TaskAlreadyActive));
    assert_eq!(refused.unwrap_err().message(), "task already active");
}

#[test]
fn resuming_a_task_that_is_not_paused_fails() {
    let mut store = Store::new();
    let task = store.add_task("a".to_string(), "u".to_string(), 1800, 20240101, T0);
    let refused = store.resume_task(task.id, T0 + 10);
    assert_eq!(refused, Err(TaskError::TaskNotPaused));
    assert_eq!(refused.unwrap_err().message(), "task is not paused");
    assert_eq!(
        TaskError::TaskAlreadyHasActiveSession.message(),
        "task already has an active session"
    );
}

#[test]
fn ensure_sessions_is_idempotent() {
    let mut store = Store::new();
    let task = store.add_task("a".to_string(), "u".to_string(), 1800, 20240101, T0);
    assert_eq!(store.ensure_sessions(task.id, T0 + 5), Ok(()));
    assert_eq!(store.ensure_sessions(task.id, T0 + 9), Ok(()));
    let views = store.load_tasks_with_sessions();
    assert_eq!(views[0].pomodoro_sessions.len(), 8);
}

#[test]
fn load_tasks_orders_by_date_then_creation() {
    let mut store = Store::new();
    let late = store.add_task("late".to_string(), "u".to_string(), 10, 20240320, T0);
    let early_b = store.add_task("b".to_string(), "u".to_string(), 10, 20240310, T0 + 1);
    let early_a = store.add_task("a".to_string(), "u".to_string(), 10, 20240310, T0 + 2);
    let tasks = store.load_tasks();
    assert_eq!(tasks.len(), 3);
    assert_eq!(tasks[0].id, early_b.id);
    assert_eq!(tasks[1].id, early_a.id);
    assert_eq!(tasks[2].id, late.id);
}

#[test]
fn load_tasks_with_sessions_puts_running_tasks_first() {
    let mut store = Store::new();
    let first = store.add_task("a".to_string(), "u".to_string(), 10, 20240310, T0);
    let second = store.add_task("b".to_string(), "u".to_string(), 10, 20240320, T0 + 1);
    assert!(store.start_task(second.id, false, T0 + 2).is_ok());
    let views = store.load_tasks_with_sessions();
    assert_eq!(views.len(), 2);
    assert_eq!(views[0].task.id, second.id);
    assert_eq!(views[1].task.id, first.id);
    assert!(views[0].active_session.is_some());
    assert!(views[1].active_session.is_none());
}

#[test]
fn completing_short_circuits_the_cycle() {
    let mut store = Store::new();
    let task = store.add_task("a".to_string(), "u".to_string(), 1800, 20240101, T0);
    assert!(store.start_task(task.id, false, T0).is_ok());
    assert!(store.complete_task(task.id, T0 + 100).is_ok());
    let tasks = store.load_tasks();
    assert_eq!(tasks[0].status, Status::Completed);
    assert_eq!(tasks[0].completed_at, Some(T0 + 100));
    // The open log was closed at the completion instant.
    assert_eq!(store.get_task_remaining_time(task.id, T0 + 500), Ok(1700));
    // Nothing is running anymore, so the poll finds nothing due.
    assert!(store.check_pomodoro_sessions(T0 + 5000).is_empty());
}

#[test]
fn observe_now_fits_the_engine() {
    let store = Store::new();
    let n = store.observe_now();
    assert!(n >= 0);
    assert!(n <= 253402300799);
}

#[test]
fn date_key_orders_dates() {
    let a = clockwise::clock::date_key(2024, 3, 14);
    let b = clockwise::clock::date_key(2024, 3, 15);
    let c = clockwise::clock::date_key(2024, 12, 1);
    assert_eq!(a, 20240314);
    assert!(a < b && b < c);
}

#[test]
fn ui_collapse_and_debounce() {
    let mut ui = UiState::new();
    assert!(!ui.collapsed_state());
    assert_eq!(ui.set_collapsed(true), 1);
    assert!(ui.collapsed_state());
    assert_eq!(ui.set_collapsed(false), 70);

    assert!(ui.should_process_hotkey(1000));
    assert!(!ui.should_process_hotkey(1200));
    assert!(!ui.should_process_hotkey(1499));
    assert!(ui.should_process_hotkey(1500));
    assert!(ui.should_process_hotkey(2100));
}
