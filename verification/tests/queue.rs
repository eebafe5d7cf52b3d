use std::time::Duration;

use ftp_slint::ftp::types::{ConnectConfig, FtpEvent, Outcome};
use ftp_slint::queue::{
    can_transition, CancelHandle, Direction, QueueCommand, QueueEffect, Scheduler, TaskState,
    TransferRequest, DEFAULT_CONCURRENCY,
};
use ftp_slint::transfer::speed_of;

#[test]
fn cancel_handle_flags_once() {
    let h = CancelHandle::new();
    assert!(!h.is_cancelled());
    h.cancel();
    assert!(h.is_cancelled());
    let h2 = h.clone();
    assert!(h2.is_cancelled());
}

#[test]
fn state_machine_happy_path() {
    assert!(can_transition(TaskState::Pending, TaskState::Running));
    assert!(can_transition(TaskState::Running, TaskState::Paused));
    assert!(can_transition(TaskState::Paused, TaskState::Running));
    assert!(can_transition(TaskState::Running, TaskState::Done));
}

#[test]
fn state_machine_retry_and_cancel() {
    assert!(can_transition(TaskState::Running, TaskState::Failed));
    assert!(can_transition(TaskState::Failed, TaskState::Pending));
    assert!(can_transition(TaskState::Running, TaskState::Canceled));
    assert!(can_transition(TaskState::Paused, TaskState::Canceled));
}

#[test]
fn state_machine_rejects_illegal() {
    assert!(!can_transition(TaskState::Pending, TaskState::Done));
    assert!(!can_transition(TaskState::Done, TaskState::Running));
    assert!(!can_transition(TaskState::Canceled, TaskState::Pending));
    assert!(!can_transition(TaskState::Failed, TaskState::Done));
    assert!(!can_transition(TaskState::Paused, TaskState::Done));
}

#[test]
fn transfer_request_shape() {
    let req = TransferRequest {
        task_id: 7,
        direction: Direction::Upload,
        remote: "/a/b.txt".to_string(),
        local: "C:/tmp/b.txt".to_string(),
        size: 123,
    };
    assert_eq!(req.task_id, 7);
    assert_eq!(req.direction, Direction::Upload);
}

#[test]
fn speed_of_scales_to_seconds() {
    assert_eq!(
        speed_of(1500, Duration::from_millis(500).as_millis()),
        3000,
        "500ms 传 1500B 应折算 3000B/s"
    );
    assert_eq!(speed_of(0, Duration::from_millis(0).as_millis()), 0);
}

fn request(task_id: u64) -> TransferRequest {
    TransferRequest {
        task_id,
        direction: Direction::Download,
        remote: format!("/{task_id}"),
        local: format!("/tmp/{task_id}"),
        size: 0,
    }
}

fn config(host: &str) -> ConnectConfig {
    ConnectConfig {
        host: host.to_string(),
        ..ConnectConfig::default()
    }
}

fn started(effects: &[QueueEffect]) -> Vec<u64> {
    effects
        .iter()
        .filter_map(|e| match e {
            QueueEffect::Start { req, .. } => Some(req.task_id),
            _ => None,
        })
        .collect()
}

#[test]
fn every_transition_is_decided() {
    let all = [
        TaskState::Pending,
        TaskState::Running,
        TaskState::Paused,
        TaskState::Done,
        TaskState::Failed,
        TaskState::Canceled,
    ];
    let allowed = [
        (TaskState::Pending, TaskState::Running),
        (TaskState::Running, TaskState::Paused),
        (TaskState::Paused, TaskState::Running),
        (TaskState::Running, TaskState::Done),
        (TaskState::Running, TaskState::Failed),
        (TaskState::Running, TaskState::Canceled),
        (TaskState::Paused, TaskState::Canceled),
        (TaskState::Failed, TaskState::Pending),
    ];
    for from in all {
        for to in all {
            assert_eq!(can_transition(from, to), allowed.contains(&(from, to)));
        }
    }
}

#[test]
fn handles_share_one_flag() {
    let a = CancelHandle::new();
    let b = a.clone();
    b.cancel();
    assert!(a.is_cancelled());
    assert!(!CancelHandle::default().is_cancelled());
}

#[test]
fn nothing_starts_without_a_server() {
    let mut s = Scheduler::new();
    let effects = s.handle(QueueCommand::Enqueue(vec![request(1)]));
    assert_eq!(effects.len(), 1);
    match &effects[0] {
        QueueEffect::Emit(FtpEvent::Error { context, message }) => {
            assert_eq!(context, "传输队列");
            assert_eq!(message, "未连接服务器，无法开始传输");
        }
        _ => panic!("an error is told"),
    }
    assert!(s.handle(QueueCommand::SetConfig(config("h"))).is_empty());
    assert!(s.handle(QueueCommand::TaskDone(1)).is_empty());
}

#[test]
fn transfers_start_in_order_and_within_bounds() {
    assert_eq!(DEFAULT_CONCURRENCY, 2);
    let mut s = Scheduler::new();
    s.handle(QueueCommand::SetConfig(config("h")));
    let effects = s.handle(QueueCommand::Enqueue(vec![
        request(1),
        request(2),
        request(3),
        request(4),
    ]));
    assert_eq!(started(&effects), [1, 2]);
    match &effects[0] {
        QueueEffect::Start { cfg, req, cancel } => {
            assert_eq!(cfg.host, "h");
            assert_eq!(req.remote, "/1");
            assert!(!cancel.is_cancelled());
        }
        _ => panic!("a transfer starts"),
    }
    assert_eq!(started(&s.handle(QueueCommand::Enqueue(vec![request(5)]))), []);
    assert_eq!(started(&s.handle(QueueCommand::TaskDone(2))), [3]);
    assert_eq!(started(&s.handle(QueueCommand::TaskDone(9))), []);
    assert_eq!(started(&s.handle(QueueCommand::TaskDone(1))), [4]);
    assert_eq!(started(&s.handle(QueueCommand::TaskDone(3))), [5]);
}

#[test]
fn later_transfers_use_the_later_server() {
    let mut s = Scheduler::new();
    s.handle(QueueCommand::SetConfig(config("old")));
    s.handle(QueueCommand::Enqueue(vec![request(1), request(2), request(3)]));
    s.handle(QueueCommand::SetConfig(config("new")));
    match &s.handle(QueueCommand::TaskDone(1))[0] {
        QueueEffect::Start { cfg, .. } => assert_eq!(cfg.host, "new"),
        _ => panic!("a transfer starts"),
    }
}

#[test]
fn waiting_tasks_are_canceled_at_once() {
    let mut s = Scheduler::new();
    s.handle(QueueCommand::SetConfig(config("h")));
    s.handle(QueueCommand::Enqueue(vec![request(1), request(2), request(3), request(4)]));
    let effects = s.handle(QueueCommand::Cancel(3));
    assert_eq!(effects.len(), 1);
    match &effects[0] {
        QueueEffect::Emit(FtpEvent::TaskFinished { task_id, outcome }) => {
            assert_eq!(*task_id, 3);
            assert_eq!(*outcome, Outcome::Canceled);
        }
        _ => panic!("the cancellation is told"),
    }
    assert!(s.handle(QueueCommand::Cancel(3)).is_empty());
    assert_eq!(started(&s.handle(QueueCommand::TaskDone(1))), [4]);
}

#[test]
fn running_tasks_are_canceled_by_their_flag() {
    let mut s = Scheduler::new();
    s.handle(QueueCommand::SetConfig(config("h")));
    let effects = s.handle(QueueCommand::Enqueue(vec![request(1), request(2)]));
    let flags: Vec<CancelHandle> = effects
        .iter()
        .filter_map(|e| match e {
            QueueEffect::Start { cancel, .. } => Some(cancel.clone()),
            _ => None,
        })
        .collect();
    match &s.handle(QueueCommand::Cancel(2))[..] {
        [QueueEffect::Raise(handle)] => handle.cancel(),
        _ => panic!("a flag is set"),
    }
    assert!(!flags[0].is_cancelled());
    assert!(flags[1].is_cancelled());
}

#[test]
fn speeds_are_rounded_down() {
    assert_eq!(speed_of(1, 3), 333);
    assert_eq!(speed_of(7, 0), 7000);
    assert_eq!(speed_of(7, u128::from(u64::MAX) + 1), 7000);
    assert_eq!(speed_of(u64::MAX / 1000, 1), u64::MAX / 1000 * 1000);
}

#[test]
fn free_places_are_filled() {
    for waiting in 0..6u64 {
        let mut queue = Scheduler::new();
        queue.handle(QueueCommand::SetConfig(config("h")));
        let first = queue.handle(QueueCommand::Enqueue(vec![request(100)]));
        assert_eq!(started(&first), [100]);
        let later = queue.handle(QueueCommand::Enqueue((0..waiting).map(request).collect()));
        let places = waiting.min(DEFAULT_CONCURRENCY as u64 - 1);
        assert_eq!(started(&later), (0..places).collect::<Vec<u64>>());
        for effect in later {
            match effect {
                QueueEffect::Start { cancel, .. } => assert!(!cancel.is_cancelled()),
                _ => panic!("nothing else happens"),
            }
        }
    }
}

#[test]
fn default_handles_begin_unset() {
    let handle = CancelHandle::default();
    assert!(!handle.is_cancelled());
    handle.cancel();
    assert!(handle.is_cancelled());
}

#[test]
fn every_transfer_has_a_flag_of_its_own() {
    let mut queue = Scheduler::new();
    queue.handle(QueueCommand::SetConfig(config("h")));
    let flags: Vec<CancelHandle> = queue
        .handle(QueueCommand::Enqueue(vec![request(1), request(2)]))
        .into_iter()
        .map(|effect| match effect {
            QueueEffect::Start { cancel, .. } => cancel,
            _ => panic!("both start"),
        })
        .collect();
    for effect in queue.handle(QueueCommand::Cancel(2)) {
        match effect {
            QueueEffect::Raise(flag) => flag.cancel(),
            _ => panic!("only its flag is raised"),
        }
    }
    assert!(!flags[0].is_cancelled());
    assert!(flags[1].is_cancelled());
    let (a, b) = (CancelHandle::for_task(3), CancelHandle::for_task(4));
    a.cancel();
    assert!(a.is_cancelled() && !b.is_cancelled());
}
