//! The history of the workers: when each one connected, what it offered,
//! what it reported and when it was lost.

use vstd::prelude::*;
use crate::descriptor::{ResourceDescriptor, ResourceDescriptorView};
use crate::ids::WorkerId;
use crate::time_based_vec::{
    items_within, most_recent_at, time_ordered, ItemWithTime, Time, TimeBasedVec, TimeRange,
};

verus! {

/// Why a worker is no longer connected.
#[derive(Clone, Copy, Debug, PartialEq, Eq, Structural)]
pub enum LostWorkerReason {
    Stopped,
    ConnectionLost,
    HeartbeatLost,
    IdleTimeout,
    TimeLimitReached,
}

/// What a worker tells about itself when it connects.
#[derive(Debug)]
pub struct WorkerConfiguration {
    pub resources: ResourceDescriptor,
    pub listen_address: String,
    pub hostname: String,
}

/// Mathematical value of a [`WorkerConfiguration`].
pub struct WorkerConfigurationView {
    pub resources: ResourceDescriptorView,
    pub listen_address: Seq<char>,
    pub hostname: Seq<char>,
}

impl View for WorkerConfiguration {
    type V = WorkerConfigurationView;

    open spec fn view(&self) -> WorkerConfigurationView {
        WorkerConfigurationView {
            resources: self.resources@,
            listen_address: self.listen_address@,
            hostname: self.hostname@,
        }
    }
}

impl Clone for WorkerConfiguration {
    fn clone(&self) -> (copy: Self)
        ensures
            copy@ == self@,
    {
        WorkerConfiguration {
            resources: self.resources.clone(),
            listen_address: self.listen_address.clone(),
            hostname: self.hostname.clone(),
        }
    }
}

/// What a worker reports from time to time while it is connected.
#[derive(Clone, Copy, Debug, PartialEq, Eq, Structural)]
pub struct WorkerOverview {
    pub id: WorkerId,
    pub running_tasks: u32,
}

/// When and why a worker was lost.
#[derive(Clone, Copy, Debug)]
pub struct WorkerDisconnectInfo {
    pub reason: LostWorkerReason,
    pub time: Time,
}

/// What happened to a worker.
#[derive(Debug)]
pub enum MonitoringEventPayload {
    WorkerConnected(WorkerId, Box<WorkerConfiguration>),
    WorkerLost(WorkerId, LostWorkerReason),
    WorkerOverviewReceived(WorkerOverview),
}

/// Something that happened to a worker, and when.
#[derive(Debug)]
pub struct MonitoringEvent {
    pub time: Time,
    pub payload: MonitoringEventPayload,
}

/// Mathematical value of a [`MonitoringEventPayload`].
pub enum MonitoringEventPayloadView {
    WorkerConnected(WorkerId, WorkerConfigurationView),
    WorkerLost(WorkerId, LostWorkerReason),
    WorkerOverviewReceived(WorkerOverview),
}

/// Mathematical value of a [`MonitoringEvent`].
pub struct MonitoringEventView {
    pub time: Time,
    pub payload: MonitoringEventPayloadView,
}

impl View for MonitoringEventPayload {
    type V = MonitoringEventPayloadView;

    open spec fn view(&self) -> MonitoringEventPayloadView {
        match self {
            MonitoringEventPayload::WorkerConnected(id, config) => {
                MonitoringEventPayloadView::WorkerConnected(*id, config@)
            },
            MonitoringEventPayload::WorkerLost(id, reason) => {
                MonitoringEventPayloadView::WorkerLost(*id, *reason)
            },
            MonitoringEventPayload::WorkerOverviewReceived(overview) => {
                MonitoringEventPayloadView::WorkerOverviewReceived(*overview)
            },
        }
    }
}

impl View for MonitoringEvent {
    type V = MonitoringEventView;

    open spec fn view(&self) -> MonitoringEventView {
        MonitoringEventView { time: self.time, payload: self.payload@ }
    }
}

/// Mathematical value of a batch of events.
pub open spec fn events_view(events: Seq<MonitoringEvent>) -> Seq<MonitoringEventView> {
    events.map_values(|event: MonitoringEvent| event@)
}

/// What the history holds of one worker.
pub struct WorkerRecord {
    id: WorkerId,
    connection_time: Time,
    worker_config: WorkerConfiguration,
    worker_overviews: TimeBasedVec<WorkerOverview>,
    disconnect_info: Option<WorkerDisconnectInfo>,
}

/// Mathematical value of a [`WorkerRecord`].
pub struct WorkerRecordView {
    pub id: WorkerId,
    pub connection_time: Time,
    pub worker_config: WorkerConfigurationView,
    pub worker_overviews: Seq<ItemWithTime<WorkerOverview>>,
    pub disconnect_info: Option<WorkerDisconnectInfo>,
}

impl WorkerRecordView {
    /// The record of a worker that has just connected.
    pub open spec fn connected(id: WorkerId, time: Time, config: WorkerConfigurationView) -> Self {
        WorkerRecordView {
            id,
            connection_time: time,
            worker_config: config,
            worker_overviews: Seq::empty(),
            disconnect_info: None,
        }
    }

    /// The record after the worker was lost. What is known of an earlier
    /// loss stays as it is.
    pub open spec fn lost(self, time: Time, reason: LostWorkerReason) -> Self {
        if self.disconnect_info is Some {
            self
        } else {
            WorkerRecordView {
                disconnect_info: Some(WorkerDisconnectInfo { reason, time }),
                ..self
            }
        }
    }

    /// The record after the worker reported an overview.
    pub open spec fn reported(self, time: Time, overview: WorkerOverview) -> Self {
        WorkerRecordView {
            worker_overviews: self.worker_overviews.push(ItemWithTime { time, item: overview }),
            ..self
        }
    }

    /// Whether an overview that is reported at `time` comes in order: not
    /// before the last one that the record holds.
    pub open spec fn in_order(self, time: Time) -> bool {
        self.worker_overviews.len() == 0 || self.worker_overviews.last().time <= time
    }

    /// Whether the worker was connected at `time`: it had connected by then
    /// and had not been lost by then.
    pub open spec fn connected_at(self, time: Time) -> bool {
        &&& self.connection_time <= time
        &&& match self.disconnect_info {
            Some(info) => info.time > time,
            None => true,
        }
    }
}

impl View for WorkerRecord {
    type V = WorkerRecordView;

    closed spec fn view(&self) -> WorkerRecordView {
        WorkerRecordView {
            id: self.id,
            connection_time: self.connection_time,
            worker_config: self.worker_config@,
            worker_overviews: self.worker_overviews@,
            disconnect_info: self.disconnect_info,
        }
    }
}

impl WorkerRecord {
    /// Notes that the worker was lost. What is known of an earlier loss
    /// stays as it is: the loss of a worker is recorded once.
    pub fn set_loss_details(&mut self, loss_time: Time, loss_reason: LostWorkerReason)
        ensures
            final(self)@ == old(self)@.lost(loss_time, loss_reason),
    {
        if self.disconnect_info.is_none() {
            self.disconnect_info = Some(
                WorkerDisconnectInfo { reason: loss_reason, time: loss_time },
            );
        }
    }
}

/// Mathematical value of the records of a history.
pub open spec fn records_view(records: Seq<WorkerRecord>) -> Seq<WorkerRecordView> {
    records.map_values(|record: WorkerRecord| record@)
}

/// No two records are of the same worker.
pub open spec fn ids_distinct(records: Seq<WorkerRecordView>) -> bool {
    forall|i: int, j: int|
        0 <= i < records.len() && 0 <= j < records.len() && i != j ==> (#[trigger] records[i]).id
            != (#[trigger] records[j]).id
}

/// The overviews of every record are in the order of their times.
pub open spec fn overviews_ordered(records: Seq<WorkerRecordView>) -> bool {
    forall|i: int| 0 <= i < records.len() ==> time_ordered((#[trigger] records[i]).worker_overviews)
}

/// Whether there is a record of the worker.
pub open spec fn knows(records: Seq<WorkerRecordView>, id: WorkerId) -> bool {
    exists|i: int| 0 <= i < records.len() && (#[trigger] records[i]).id == id
}

/// The place of the record of a worker of which there is a record.
pub open spec fn position(records: Seq<WorkerRecordView>, id: WorkerId) -> int {
    choose|i: int| 0 <= i < records.len() && (#[trigger] records[i]).id == id
}

/// The records after one event. A worker that connects gets a new record,
/// which takes the place of an earlier record of that worker. The loss of a
/// worker and an overview are noted in the record of the worker, and change
/// nothing where there is none.
pub open spec fn apply_event(records: Seq<WorkerRecordView>, event: MonitoringEventView) -> Seq<
    WorkerRecordView,
> {
    match event.payload {
        MonitoringEventPayloadView::WorkerConnected(id, config) => {
            let record = WorkerRecordView::connected(id, event.time, config);
            if knows(records, id) {
                records.update(position(records, id), record)
            } else {
                records.push(record)
            }
        },
        MonitoringEventPayloadView::WorkerLost(id, reason) => {
            if knows(records, id) {
                let at = position(records, id);
                records.update(at, records[at].lost(event.time, reason))
            } else {
                records
            }
        },
        MonitoringEventPayloadView::WorkerOverviewReceived(overview) => {
            if knows(records, overview.id) {
                let at = position(records, overview.id);
                records.update(at, records[at].reported(event.time, overview))
            } else {
                records
            }
        },
    }
}

/// The records after a batch of events, taken one after the other.
pub open spec fn apply_events(
    records: Seq<WorkerRecordView>,
    events: Seq<MonitoringEventView>,
) -> Seq<WorkerRecordView>
    decreases events.len(),
{
    if events.len() == 0 {
        records
    } else {
        apply_events(apply_event(records, events[0]), events.drop_first())
    }
}

/// Whether the event comes in order: an overview of a known worker is not
/// older than the last overview of that worker.
pub open spec fn event_in_order(records: Seq<WorkerRecordView>, event: MonitoringEventView) -> bool {
    match event.payload {
        MonitoringEventPayloadView::WorkerOverviewReceived(overview) => knows(records, overview.id)
            ==> records[position(records, overview.id)].in_order(event.time),
        _ => true,
    }
}

/// Whether every event of the batch comes in order when the batch is taken
/// event after event.
pub open spec fn events_in_order(
    records: Seq<WorkerRecordView>,
    events: Seq<MonitoringEventView>,
) -> bool
    decreases events.len(),
{
    events.len() == 0 || (event_in_order(records, events[0]) && events_in_order(
        apply_event(records, events[0]),
        events.drop_first(),
    ))
}

/// The place of the record of a worker among the records.
fn find_record(records: &Vec<WorkerRecord>, id: WorkerId) -> (r: Option<usize>)
    ensures
        match r {
            Some(at) => at < records@.len() && records_view(records@)[at as int].id == id,
            None => !knows(records_view(records@), id),
        },
{
    let mut i: usize = 0;
    while i < records.len()
        invariant
            i <= records@.len(),
            forall|k: int| 0 <= k < i ==> (#[trigger] records_view(records@)[k]).id != id,
        decreases records@.len() - i,
    {
        if records[i].id == id {
            return Some(i);
        }
        i += 1;
    }
    None
}

/// Among records of distinct workers, the record of a worker stands at one
/// place only.
proof fn lemma_position(records: Seq<WorkerRecordView>, id: WorkerId, at: int)
    requires
        ids_distinct(records),
        0 <= at < records.len(),
        records[at].id == id,
    ensures
        knows(records, id),
        position(records, id) == at,
{
}

/// An event leaves the records those of distinct workers.
pub proof fn lemma_apply_event_keeps_ids_distinct(
    records: Seq<WorkerRecordView>,
    event: MonitoringEventView,
)
    requires
        ids_distinct(records),
    ensures
        ids_distinct(apply_event(records, event)),
{
    let after = apply_event(records, event);
    assert forall|i: int, j: int|
        0 <= i < after.len() && 0 <= j < after.len() && i != j implies (#[trigger] after[i]).id != (
    #[trigger] after[j]).id by {
        if i < records.len() && j < records.len() {
            assert(after[i].id == records[i].id);
            assert(after[j].id == records[j].id);
        } else if i < records.len() {
            assert(after[i].id == records[i].id);
        } else {
            assert(after[j].id == records[j].id);
        }
    }
}

/// An event that comes in order leaves the overviews of every record in
/// the order of their times.
pub proof fn lemma_apply_event_keeps_overviews_ordered(
    records: Seq<WorkerRecordView>,
    event: MonitoringEventView,
)
    requires
        overviews_ordered(records),
        event_in_order(records, event),
    ensures
        overviews_ordered(apply_event(records, event)),
{
    let after = apply_event(records, event);
    assert forall|i: int| 0 <= i < after.len() implies time_ordered(
        (#[trigger] after[i]).worker_overviews,
    ) by {
        if i < records.len() {
            assert(time_ordered(records[i].worker_overviews));
        }
    }
}

/// A batch that comes in order leaves the records those of distinct
/// workers, and the overviews of every record in the order of their
/// times.
pub proof fn lemma_apply_events_keeps_order(
    records: Seq<WorkerRecordView>,
    events: Seq<MonitoringEventView>,
)
    requires
        ids_distinct(records),
        overviews_ordered(records),
        events_in_order(records, events),
    ensures
        ids_distinct(apply_events(records, events)),
        overviews_ordered(apply_events(records, events)),
    decreases events.len(),
{
    if events.len() > 0 {
        lemma_apply_event_keeps_ids_distinct(records, events[0]);
        lemma_apply_event_keeps_overviews_ordered(records, events[0]);
        lemma_apply_events_keeps_order(apply_event(records, events[0]), events.drop_first());
    }
}

/// The ids of the workers of the records, in the order of the records.
pub open spec fn worker_ids(records: Seq<WorkerRecordView>) -> Seq<WorkerId> {
    records.map_values(|record: WorkerRecordView| record.id)
}

/// The ids of the workers that were connected at `time`, in the order of
/// the records.
pub open spec fn connected_worker_ids(records: Seq<WorkerRecordView>, time: Time) -> Seq<WorkerId> {
    worker_ids(records.filter(|record: WorkerRecordView| record.connected_at(time)))
}

/// The history of the workers. The records stand in the order in which the
/// workers first connected, and no two of them are of the same worker.
pub struct WorkerTimeline {
    workers: Vec<WorkerRecord>,
}

impl View for WorkerTimeline {
    type V = Seq<WorkerRecordView>;

    closed spec fn view(&self) -> Seq<WorkerRecordView> {
        records_view(self.workers@)
    }
}

impl Default for WorkerTimeline {
    fn default() -> (timeline: Self)
        ensures
            timeline@ == Seq::<WorkerRecordView>::empty(),
    {
        let timeline = WorkerTimeline { workers: Vec::new() };
        proof {
            assert(timeline@ =~= Seq::<WorkerRecordView>::empty());
        }
        timeline
    }
}

impl WorkerTimeline {
    #[verifier::type_invariant]
    spec fn well_formed(self) -> bool {
        &&& ids_distinct(records_view(self.workers@))
        &&& overviews_ordered(records_view(self.workers@))
    }

    /// Takes a batch of events, one after the other.
    ///
    /// The events must come in order: an overview of a worker must not be
    /// older than the last overview that the history holds of that worker
    /// when the event is taken. A batch that is sorted by time and does not
    /// reach back before the overviews of the history is in order.
    pub fn handle_new_events(&mut self, events: &[MonitoringEvent])
        requires
            events_in_order(old(self)@, events_view(events@)),
        ensures
            final(self)@ == apply_events(old(self)@, events_view(events@)),
            ids_distinct(final(self)@),
            overviews_ordered(final(self)@),
    {
        proof {
            use_type_invariant(&*self);
        }
        let ghost all = events_view(events@);
        let ghost initial = self@;
        let mut workers: Vec<WorkerRecord> = Vec::new();
        core::mem::swap(&mut self.workers, &mut workers);
        let mut n: usize = 0;
        proof {
            assert(all.skip(0) =~= all);
        }
        while n < events.len()
            invariant
                n <= events@.len(),
                all == events_view(events@),
                self.workers@.len() == 0,
                ids_distinct(records_view(workers@)),
                overviews_ordered(records_view(workers@)),
                events_in_order(records_view(workers@), all.skip(n as int)),
                apply_events(records_view(workers@), all.skip(n as int)) == apply_events(
                    initial,
                    all,
                ),
            decreases events@.len() - n,
        {
            let event = &events[n];
            let ghost before = records_view(workers@);
            proof {
                assert(all.skip(n as int)[0] == event@);
                assert(all.skip(n as int).drop_first() =~= all.skip(n + 1));
                lemma_apply_event_keeps_ids_distinct(before, event@);
                lemma_apply_event_keeps_overviews_ordered(before, event@);
            }
            match &event.payload {
                MonitoringEventPayload::WorkerConnected(id, info) => {
                    let record = WorkerRecord {
                        id: *id,
                        connection_time: event.time,
                        worker_config: (**info).clone(),
                        worker_overviews: TimeBasedVec::new(),
                        disconnect_info: None,
                    };
                    match find_record(&workers, *id) {
                        Some(at) => {
                            proof {
                                lemma_position(before, *id, at as int);
                            }
                            workers.set(at, record);
                        },
                        None => {
                            workers.push(record);
                        },
                    }
                },
                MonitoringEventPayload::WorkerLost(id, reason) => {
                    match find_record(&workers, *id) {
                        Some(at) => {
                            proof {
                                lemma_position(before, *id, at as int);
                            }
                            workers[at].set_loss_details(event.time, *reason);
                        },
                        None => {},
                    }
                },
                MonitoringEventPayload::WorkerOverviewReceived(overview) => {
                    match find_record(&workers, overview.id) {
                        Some(at) => {
                            proof {
                                lemma_position(before, overview.id, at as int);
                            }
                            workers[at].worker_overviews.push(event.time, *overview);
                        },
                        None => {},
                    }
                },
            }
            proof {
                assert(records_view(workers@) =~= apply_event(before, event@));
            }
            n += 1;
        }
        core::mem::swap(&mut self.workers, &mut workers);
    }

    /// Whether the batch is sorted by time and none of its events is older
    /// than an overview of the history. Such a batch is in order, so it can
    /// be handed to `handle_new_events`.
    pub fn follows_history(&self, events: &[MonitoringEvent]) -> (ok: bool)
        ensures
            ok == (sorted_by_time(events_view(events@)) && (events@.len() > 0 ==> overviews_until(
                self@,
                events@[0].time,
            ))),
            ok ==> events_in_order(self@, events_view(events@)),
    {
        let ghost all = events_view(events@);
        if events.len() == 0 {
            return true;
        }
        let mut n: usize = 1;
        while n < events.len()
            invariant
                1 <= n <= events@.len(),
                all == events_view(events@),
                forall|i: int, j: int|
                    0 <= i <= j < n ==> (#[trigger] all[i]).time <= (#[trigger] all[j]).time,
            decreases events@.len() - n,
        {
            if events[n - 1].time > events[n].time {
                proof {
                    assert(all[n - 1].time > all[n as int].time);
                }
                return false;
            }
            proof {
                assert forall|i: int, j: int| 0 <= i <= j < n + 1 implies (#[trigger] all[i]).time <= (
                #[trigger] all[j]).time by {
                    if j == n && i < n {
                        assert(all[i].time <= all[n - 1].time);
                    }
                }
            }
            n += 1;
        }
        assert(sorted_by_time(all));
        let first = events[0].time;
        let mut r: usize = 0;
        while r < self.workers.len()
            invariant
                r <= self.workers@.len(),
                events@.len() > 0,
                first == events@[0].time,
                sorted_by_time(events_view(events@)),
                forall|i: int, k: int|
                    0 <= i < r && 0 <= k < self@[i].worker_overviews.len() ==> (#[trigger] (
                    #[trigger] self@[i]).worker_overviews[k]).time <= first,
            decreases self.workers@.len() - r,
        {
            let count = self.workers[r].worker_overviews.len();
            match self.workers[r].worker_overviews.last_time() {
                Some(last) => {
                    if last > first {
                        proof {
                            assert(self@[r as int].worker_overviews[count - 1].time > first);
                            assert(!overviews_until(self@, first));
                        }
                        return false;
                    }
                },
                None => {},
            }
            proof {
                let overviews = self@[r as int].worker_overviews;
                assert forall|k: int| 0 <= k < overviews.len() implies (#[trigger] overviews[k]).time
                    <= first by {
                    assert(overviews[k].time <= overviews[count - 1].time);
                }
            }
            r += 1;
        }
        proof {
            lemma_sorted_batch_in_order(self@, all, first);
        }
        true
    }

    /// Takes a batch of events if it follows the history: if it is sorted
    /// by time and none of its events is older than an overview of the
    /// history. Says whether the batch was taken; a batch that was not
    /// taken leaves the history as it was.
    pub fn try_handle_new_events(&mut self, events: &[MonitoringEvent]) -> (taken: bool)
        ensures
            taken == (sorted_by_time(events_view(events@)) && (events@.len() > 0
                ==> overviews_until(old(self)@, events@[0].time))),
            taken ==> final(self)@ == apply_events(old(self)@, events_view(events@)),
            !taken ==> final(self)@ == old(self)@,
    {
        if self.follows_history(events) {
            self.handle_new_events(events);
            true
        } else {
            false
        }
    }

    /// The ids of the workers of which there is a record, in the order in
    /// which they first connected.
    pub fn get_worker_ids(&self) -> (ids: Vec<WorkerId>)
        ensures
            ids@ == worker_ids(self@),
            ids_distinct(self@),
            overviews_ordered(self@),
    {
        proof {
            use_type_invariant(self);
        }
        let mut ids: Vec<WorkerId> = Vec::new();
        let mut i: usize = 0;
        while i < self.workers.len()
            invariant
                i <= self.workers@.len(),
                ids@ == worker_ids(self@.take(i as int)),
            decreases self.workers@.len() - i,
        {
            ids.push(self.workers[i].id);
            proof {
                assert(ids@ =~= worker_ids(self@.take(i + 1)));
            }
            i += 1;
        }
        proof {
            assert(self@.take(i as int) =~= self@);
        }
        ids
    }

    /// What the worker told about itself when it last connected.
    pub fn get_worker_config_for(&self, worker_id: WorkerId) -> (r: Option<&WorkerConfiguration>)
        ensures
            match r {
                Some(config) => knows(self@, worker_id) && config@ == self@[position(
                    self@,
                    worker_id,
                )].worker_config,
                None => !knows(self@, worker_id),
            },
    {
        proof {
            use_type_invariant(self);
        }
        match find_record(&self.workers, worker_id) {
            Some(at) => {
                proof {
                    lemma_position(self@, worker_id, at as int);
                }
                Some(&self.workers[at].worker_config)
            },
            None => None,
        }
    }

    /// When and why the worker was lost, if there is a record of it and it
    /// was lost.
    pub fn get_worker_disconnect_info(&self, worker_id: WorkerId) -> (r: Option<
        WorkerDisconnectInfo,
    >)
        ensures
            r == if knows(self@, worker_id) {
                self@[position(self@, worker_id)].disconnect_info
            } else {
                None
            },
    {
        proof {
            use_type_invariant(self);
        }
        match find_record(&self.workers, worker_id) {
            Some(at) => {
                proof {
                    lemma_position(self@, worker_id, at as int);
                }
                self.workers[at].disconnect_info
            },
            None => None,
        }
    }

    /// The ids of the workers that were connected at `time`: those that had
    /// connected by then and had not been lost by then.
    pub fn get_connected_worker_ids_at(&self, time: Time) -> (ids: Vec<WorkerId>)
        ensures
            ids@ == connected_worker_ids(self@, time),
    {
        let mut ids: Vec<WorkerId> = Vec::new();
        let mut i: usize = 0;
        proof {
            reveal(Seq::filter);
            assert(ids@ =~= connected_worker_ids(self@.take(0), time));
        }
        while i < self.workers.len()
            invariant
                i <= self.workers@.len(),
                ids@ == connected_worker_ids(self@.take(i as int), time),
            decreases self.workers@.len() - i,
        {
            let worker = &self.workers[i];
            let has_started = worker.connection_time <= time;
            let has_finished = match worker.disconnect_info {
                Some(info) => info.time <= time,
                None => false,
            };
            proof {
                reveal(Seq::filter);
                assert(self@.take(i + 1).drop_last() =~= self@.take(i as int));
                assert(self@.take(i + 1).last() == worker@);
            }
            if has_started && !has_finished {
                ids.push(worker.id);
                proof {
                    assert(ids@ =~= connected_worker_ids(self@.take(i + 1), time));
                }
            }
            i += 1;
        }
        proof {
            assert(self@.take(i as int) =~= self@);
        }
        ids
    }

    /// The last overview that the worker reported at `time` or before it.
    pub fn get_worker_overview_at(&self, worker_id: WorkerId, time: Time) -> (r: Option<
        &ItemWithTime<WorkerOverview>,
    >)
        ensures
            r == if knows(self@, worker_id) {
                let overviews = self@[position(self@, worker_id)].worker_overviews;
                match most_recent_at(overviews, time) {
                    Some(k) => Some(&overviews[k]),
                    None => None,
                }
            } else {
                None
            },
    {
        proof {
            use_type_invariant(self);
        }
        match find_record(&self.workers, worker_id) {
            Some(at) => {
                proof {
                    lemma_position(self@, worker_id, at as int);
                }
                self.workers[at].worker_overviews.get_most_recent_at(time)
            },
            None => None,
        }
    }

    /// The overviews that the worker reported within the span of time, in
    /// their order.
    pub fn get_worker_overviews_at(&self, worker_id: WorkerId, range: TimeRange) -> (r: Option<
        &[ItemWithTime<WorkerOverview>],
    >)
        ensures
            match r {
                Some(overviews) => knows(self@, worker_id) && overviews@ == items_within(
                    self@[position(self@, worker_id)].worker_overviews,
                    range,
                ),
                None => !knows(self@, worker_id),
            },
    {
        proof {
            use_type_invariant(self);
        }
        match find_record(&self.workers, worker_id) {
            Some(at) => {
                proof {
                    lemma_position(self@, worker_id, at as int);
                }
                Some(self.workers[at].worker_overviews.get_time_range(range))
            },
            None => None,
        }
    }
}

/// No event of the batch is older than an event that precedes it.
pub open spec fn sorted_by_time(events: Seq<MonitoringEventView>) -> bool {
    forall|i: int, j: int|
        0 <= i <= j < events.len() ==> (#[trigger] events[i]).time <= (#[trigger] events[j]).time
}

/// No overview of the records is younger than `horizon`.
pub open spec fn overviews_until(records: Seq<WorkerRecordView>, horizon: Time) -> bool {
    forall|r: int, k: int|
        0 <= r < records.len() && 0 <= k < records[r].worker_overviews.len() ==> (
        #[trigger] (#[trigger] records[r]).worker_overviews[k]).time <= horizon
}

/// A batch that is sorted by time, and whose events are not older than any
/// overview of the records, is in order. After it no overview is younger
/// than its last event.
pub proof fn lemma_sorted_batch_in_order(
    records: Seq<WorkerRecordView>,
    events: Seq<MonitoringEventView>,
    horizon: Time,
)
    requires
        sorted_by_time(events),
        overviews_until(records, horizon),
        events.len() > 0 ==> horizon <= events[0].time,
    ensures
        events_in_order(records, events),
        overviews_until(
            apply_events(records, events),
            if events.len() > 0 {
                events.last().time
            } else {
                horizon
            },
        ),
    decreases events.len(),
{
    if events.len() > 0 {
        let event = events[0];
        let rest = events.drop_first();
        let after = apply_event(records, event);
        assert(event_in_order(records, event)) by {
            if let MonitoringEventPayloadView::WorkerOverviewReceived(overview) = event.payload {
                if knows(records, overview.id) {
                    let at = position(records, overview.id);
                    let overviews = records[at].worker_overviews;
                    if overviews.len() > 0 {
                        assert(records[at].worker_overviews[overviews.len() - 1].time <= horizon);
                    }
                }
            }
        }
        assert(overviews_until(after, event.time)) by {
            assert forall|r: int, k: int|
                0 <= r < after.len() && 0 <= k < after[r].worker_overviews.len() implies (
            #[trigger] (#[trigger] after[r]).worker_overviews[k]).time <= event.time by {
                if r < records.len() && k < records[r].worker_overviews.len() {
                    assert(records[r].worker_overviews[k].time <= horizon);
                    if after[r].worker_overviews.len() >= records[r].worker_overviews.len() {
                        assert(after[r].worker_overviews[k] == records[r].worker_overviews[k]);
                    }
                }
            }
        }
        assert(sorted_by_time(rest)) by {
            assert forall|i: int, j: int| 0 <= i <= j < rest.len() implies (#[trigger] rest[i]).time
                <= (#[trigger] rest[j]).time by {
                assert(rest[i] == events[i + 1]);
                assert(rest[j] == events[j + 1]);
            }
        }
        if rest.len() > 0 {
            assert(rest[0] == events[1]);
            assert(rest.last() == events.last());
        }
        lemma_sorted_batch_in_order(after, rest, event.time);
    }
}

} // verus!
