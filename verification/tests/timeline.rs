use sched_model::descriptor::{cpu_descriptor_from_socket_size, ResourceDescriptor};
use sched_model::ids::WorkerId;
use sched_model::time_based_vec::{TimeBasedVec, TimeRange};
use sched_model::worker_timeline::{
    LostWorkerReason, MonitoringEvent, MonitoringEventPayload, WorkerConfiguration, WorkerOverview,
    WorkerTimeline,
};

fn config(host: &str, sockets: u32) -> Box<WorkerConfiguration> {
    Box::new(WorkerConfiguration {
        resources: ResourceDescriptor::new(cpu_descriptor_from_socket_size(sockets, 2), Vec::new()),
        listen_address: format!("{host}:1234"),
        hostname: host.to_string(),
    })
}

fn connected(time: u64, id: u32, host: &str) -> MonitoringEvent {
    MonitoringEvent {
        time,
        payload: MonitoringEventPayload::WorkerConnected(WorkerId::new(id), config(host, 1)),
    }
}

fn lost(time: u64, id: u32, reason: LostWorkerReason) -> MonitoringEvent {
    MonitoringEvent { time, payload: MonitoringEventPayload::WorkerLost(WorkerId::new(id), reason) }
}

fn overview(time: u64, id: u32, running_tasks: u32) -> MonitoringEvent {
    MonitoringEvent {
        time,
        payload: MonitoringEventPayload::WorkerOverviewReceived(WorkerOverview {
            id: WorkerId::new(id),
            running_tasks,
        }),
    }
}

fn ids(values: &[u32]) -> Vec<WorkerId> {
    values.iter().map(|v| WorkerId::new(*v)).collect()
}

fn sample() -> WorkerTimeline {
    let mut timeline = WorkerTimeline::default();
    let events = vec![
        connected(10, 1, "alpha"),
        connected(20, 2, "beta"),
        overview(25, 1, 3),
        overview(30, 2, 1),
        overview(30, 1, 4),
        lost(40, 1, LostWorkerReason::HeartbeatLost),
        overview(50, 2, 7),
        overview(55, 9, 1),
        lost(60, 9, LostWorkerReason::Stopped),
    ];
    assert!(timeline.follows_history(&events));
    timeline.handle_new_events(&events);
    timeline
}

#[test]
fn test_timeline_empty() {
    let mut timeline = WorkerTimeline::default();
    assert!(timeline.follows_history(&[]));
    timeline.handle_new_events(&[]);
    assert!(timeline.get_worker_ids().is_empty());
    assert!(timeline.get_connected_worker_ids_at(100).is_empty());
    assert!(timeline.get_worker_config_for(WorkerId::new(1)).is_none());
    assert!(timeline.get_worker_disconnect_info(WorkerId::new(1)).is_none());
    assert!(timeline.get_worker_overview_at(WorkerId::new(1), 5).is_none());
    assert!(timeline.get_worker_overviews_at(WorkerId::new(1), TimeRange::new(0, 9)).is_none());
}

#[test]
fn test_timeline_worker_ids() {
    let timeline = sample();
    assert_eq!(timeline.get_worker_ids(), ids(&[1, 2]));
}

#[test]
fn test_timeline_config() {
    let timeline = sample();
    let c = timeline.get_worker_config_for(WorkerId::new(2)).unwrap();
    assert_eq!(c.hostname, "beta");
    assert_eq!(c.listen_address, "beta:1234");
    assert_eq!(c.resources.full_describe(), "[0, 1]");
    assert!(timeline.get_worker_config_for(WorkerId::new(9)).is_none());
}

#[test]
fn test_timeline_disconnect_info() {
    let timeline = sample();
    let info = timeline.get_worker_disconnect_info(WorkerId::new(1)).unwrap();
    assert_eq!(info.time, 40);
    assert_eq!(info.reason, LostWorkerReason::HeartbeatLost);
    assert!(timeline.get_worker_disconnect_info(WorkerId::new(2)).is_none());
    assert!(timeline.get_worker_disconnect_info(WorkerId::new(9)).is_none());
}

#[test]
fn test_timeline_connected_at() {
    let timeline = sample();
    assert_eq!(timeline.get_connected_worker_ids_at(9), ids(&[]));
    assert_eq!(timeline.get_connected_worker_ids_at(10), ids(&[1]));
    assert_eq!(timeline.get_connected_worker_ids_at(19), ids(&[1]));
    assert_eq!(timeline.get_connected_worker_ids_at(20), ids(&[1, 2]));
    assert_eq!(timeline.get_connected_worker_ids_at(39), ids(&[1, 2]));
    assert_eq!(timeline.get_connected_worker_ids_at(40), ids(&[2]));
    assert_eq!(timeline.get_connected_worker_ids_at(u64::MAX), ids(&[2]));
}

#[test]
fn test_timeline_overview_at() {
    let timeline = sample();
    let one = WorkerId::new(1);
    assert!(timeline.get_worker_overview_at(one, 24).is_none());
    let item = timeline.get_worker_overview_at(one, 25).unwrap();
    assert_eq!((item.time, item.item.running_tasks), (25, 3));
    let item = timeline.get_worker_overview_at(one, 29).unwrap();
    assert_eq!((item.time, item.item.running_tasks), (25, 3));
    let item = timeline.get_worker_overview_at(one, 1000).unwrap();
    assert_eq!((item.time, item.item.running_tasks), (30, 4));
    let item = timeline.get_worker_overview_at(WorkerId::new(2), 50).unwrap();
    assert_eq!((item.time, item.item.running_tasks), (50, 7));
    assert!(timeline.get_worker_overview_at(WorkerId::new(9), 1000).is_none());
}

#[test]
fn test_timeline_overviews_in_range() {
    let timeline = sample();
    let two = WorkerId::new(2);
    let times = |range: TimeRange| {
        timeline
            .get_worker_overviews_at(two, range)
            .unwrap()
            .iter()
            .map(|item| (item.time, item.item.running_tasks))
            .collect::<Vec<_>>()
    };
    assert_eq!(times(TimeRange::new(0, 100)), vec![(30, 1), (50, 7)]);
    assert_eq!(times(TimeRange::new(30, 50)), vec![(30, 1), (50, 7)]);
    assert_eq!(times(TimeRange::new(31, 50)), vec![(50, 7)]);
    assert_eq!(times(TimeRange::new(30, 49)), vec![(30, 1)]);
    assert_eq!(times(TimeRange::new(31, 49)), vec![]);
    assert_eq!(times(TimeRange::new(60, 20)), vec![]);
    assert!(timeline.get_worker_overviews_at(WorkerId::new(9), TimeRange::new(0, 100)).is_none());
}

#[test]
fn test_timeline_reconnect_replaces_record() {
    let mut timeline = sample();
    let events = vec![connected(70, 1, "gamma"), overview(80, 1, 2)];
    assert!(timeline.follows_history(&events));
    timeline.handle_new_events(&events);
    assert_eq!(timeline.get_worker_ids(), ids(&[1, 2]));
    assert_eq!(timeline.get_worker_config_for(WorkerId::new(1)).unwrap().hostname, "gamma");
    assert!(timeline.get_worker_disconnect_info(WorkerId::new(1)).is_none());
    assert!(timeline.get_worker_overview_at(WorkerId::new(1), 79).is_none());
    assert_eq!(timeline.get_worker_overview_at(WorkerId::new(1), 80).unwrap().item.running_tasks, 2);
    assert_eq!(timeline.get_connected_worker_ids_at(69), ids(&[2]));
    assert_eq!(timeline.get_connected_worker_ids_at(70), ids(&[1, 2]));
}

#[test]
fn test_timeline_loss_is_recorded_once() {
    let mut timeline = sample();
    let events = vec![lost(90, 1, LostWorkerReason::Stopped)];
    assert!(timeline.follows_history(&events));
    timeline.handle_new_events(&events);
    let info = timeline.get_worker_disconnect_info(WorkerId::new(1)).unwrap();
    assert_eq!(info.time, 40);
    assert_eq!(info.reason, LostWorkerReason::HeartbeatLost);
}

#[test]
fn test_timeline_follows_history() {
    let timeline = sample();
    assert!(timeline.follows_history(&[overview(50, 1, 1), overview(50, 2, 1)]));
    assert!(!timeline.follows_history(&[overview(49, 2, 1)]));
    assert!(!timeline.follows_history(&[overview(60, 2, 1), overview(59, 2, 1)]));
    assert!(timeline.follows_history(&[]));
}

#[test]
fn test_time_based_vec() {
    let mut v: TimeBasedVec<u32> = TimeBasedVec::new();
    assert_eq!(v.len(), 0);
    assert_eq!(v.last_time(), None);
    assert!(v.get_most_recent_at(5).is_none());
    assert!(v.get_time_range(TimeRange::new(0, 10)).is_empty());
    for (time, item) in [(1, 10), (3, 30), (3, 31), (3, 32), (7, 70), (9, 90)] {
        v.push(time, item);
    }
    assert_eq!(v.len(), 6);
    assert_eq!(v.last_time(), Some(9));
    assert!(v.get_most_recent_at(0).is_none());
    assert_eq!(v.get_most_recent_at(1).unwrap().item, 10);
    assert_eq!(v.get_most_recent_at(2).unwrap().item, 10);
    assert_eq!(v.get_most_recent_at(3).unwrap().item, 32);
    assert_eq!(v.get_most_recent_at(8).unwrap().item, 70);
    assert_eq!(v.get_most_recent_at(u64::MAX).unwrap().item, 90);
    let items = |start: u64, end: u64| {
        v.get_time_range(TimeRange::new(start, end)).iter().map(|i| i.item).collect::<Vec<_>>()
    };
    assert_eq!(items(0, 0), vec![]);
    assert_eq!(items(3, 3), vec![30, 31, 32]);
    assert_eq!(items(2, 7), vec![30, 31, 32, 70]);
    assert_eq!(items(4, 6), vec![]);
    assert_eq!(items(0, u64::MAX), vec![10, 30, 31, 32, 70, 90]);
    assert_eq!(items(9, 1), vec![]);
}

#[test]
fn test_timeline_try_handle_new_events() {
    let mut timeline = sample();
    assert!(!timeline.try_handle_new_events(&[overview(49, 2, 1)]));
    assert!(!timeline.try_handle_new_events(&[connected(70, 5, "e"), connected(69, 6, "f")]));
    assert_eq!(timeline.get_worker_ids(), ids(&[1, 2]));
    assert_eq!(timeline.get_worker_overview_at(WorkerId::new(2), 100).unwrap().time, 50);
    assert!(timeline.try_handle_new_events(&[overview(50, 2, 9), connected(70, 5, "e")]));
    assert_eq!(timeline.get_worker_ids(), ids(&[1, 2, 5]));
    assert_eq!(timeline.get_worker_overview_at(WorkerId::new(2), 100).unwrap().item.running_tasks, 9);
    assert!(timeline.try_handle_new_events(&[]));
}
