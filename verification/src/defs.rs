//! The definition of a job, as it is written by the person who submits it,
//! and the rules of its shape.

use vstd::prelude::*;
use smallvec::SmallVec;
use crate::array::{total_count, IntArray, IntRange};
use crate::error::ModelError;
use crate::human_time::Duration;
use crate::ids::{JobTaskCount, JobTaskId, NumOfNodes, Priority};
use crate::request::{ResourceRequest, ResourceRequestEntries, ResourceRequestEntryView};

verus! {

/// How the CPUs of a task are made known to its process, as a job
/// definition says it.
#[derive(Clone, Copy, Debug, PartialEq, Eq, Structural)]
pub enum PinMode {
    Unpinned,
    TaskSet,
    OpenMP,
}

impl Default for PinMode {
    fn default() -> (mode: Self)
        ensures
            mode == PinMode::Unpinned,
    {
        PinMode::Unpinned
    }
}

impl PinMode {
    /// The mode as it is handed on to the scheduler.
    pub open spec fn message(self) -> crate::messages::PinMode {
        match self {
            PinMode::Unpinned => crate::messages::PinMode::Unpinned,
            PinMode::TaskSet => crate::messages::PinMode::TaskSet,
            PinMode::OpenMP => crate::messages::PinMode::OpenMP,
        }
    }

    /// The mode as it is handed on to the scheduler.
    pub fn into(&self) -> (mode: crate::messages::PinMode)
        ensures
            mode == self.message(),
    {
        match self {
            PinMode::Unpinned => crate::messages::PinMode::Unpinned,
            PinMode::TaskSet => crate::messages::PinMode::TaskSet,
            PinMode::OpenMP => crate::messages::PinMode::OpenMP,
        }
    }
}

/// One way of meeting what a task asks for, as a job definition gives it.
#[derive(Debug)]
pub struct ResourceRequestDef {
    /// The number of workers; zero where the definition names none.
    pub n_nodes: NumOfNodes,
    /// The time that a worker must still have; zero where the definition
    /// names none.
    pub time_request: Duration,
    pub resources: ResourceRequestEntries,
}

/// Mathematical value of a [`ResourceRequestDef`].
pub struct ResourceRequestDefView {
    pub n_nodes: NumOfNodes,
    pub time_request: Duration,
    pub resources: Seq<ResourceRequestEntryView>,
}

impl View for ResourceRequestDef {
    type V = ResourceRequestDefView;

    open spec fn view(&self) -> ResourceRequestDefView {
        ResourceRequestDefView {
            n_nodes: self.n_nodes,
            time_request: self.time_request,
            resources: self.resources@,
        }
    }
}

impl ResourceRequestDef {
    /// The request as the scheduler takes it: the same number of workers,
    /// the same time and the same resources.
    pub fn into_request(self) -> (request: ResourceRequest)
        ensures
            request.n_nodes == self.n_nodes,
            request.resources == self.resources,
            request.min_time == self.time_request,
    {
        ResourceRequest {
            n_nodes: self.n_nodes,
            resources: self.resources,
            min_time: self.time_request,
        }
    }
}

/// The ways of meeting what a task asks for: any one of them will do. Most
/// tasks name one, and a `SmallVec` keeps one without a heap allocation.
#[verifier::external_body]
#[derive(Debug)]
pub struct ResourceRequestDefs {
    items: SmallVec<[ResourceRequestDef; 1]>,
}

/// The requests that a [`ResourceRequestDefs`] holds, first to last.
pub uninterp spec fn request_defs(requests: ResourceRequestDefs) -> Seq<ResourceRequestDef>;

impl View for ResourceRequestDefs {
    type V = Seq<ResourceRequestDefView>;

    open spec fn view(&self) -> Seq<ResourceRequestDefView> {
        request_defs(*self).map_values(|request: ResourceRequestDef| request@)
    }
}

impl ResourceRequestDefs {
    /// Calls `SmallVec::from_vec`, which takes the items of a `Vec` over as
    /// they stand.
    ///
    /// Trusted: the result holds the items of `items`, in their order.
    #[verifier::external_body]
    fn from_vec(items: Vec<ResourceRequestDef>) -> (requests: Self)
        ensures
            request_defs(requests) == items@,
    {
        ResourceRequestDefs { items: SmallVec::from_vec(items) }
    }

    /// Calls `SmallVec::as_slice`, which lends the items as a slice.
    ///
    /// Trusted: the slice holds the requests, in their order.
    #[verifier::external_body]
    fn as_slice(&self) -> (items: &[ResourceRequestDef])
        ensures
            items@ == request_defs(*self),
    {
        self.items.as_slice()
    }

    /// Calls `SmallVec::into_vec`, which hands the items out as a `Vec`.
    ///
    /// Trusted: the `Vec` holds the requests, in their order.
    #[verifier::external_body]
    fn to_vec(self) -> (items: Vec<ResourceRequestDef>)
        ensures
            items@ == request_defs(self),
    {
        self.items.into_vec()
    }

    /// The given requests, in their order.
    pub fn new(items: Vec<ResourceRequestDef>) -> (requests: Self)
        ensures
            request_defs(requests) == items@,
    {
        Self::from_vec(items)
    }

    /// The number of requests.
    pub fn len(&self) -> (n: usize)
        ensures
            n == self@.len(),
    {
        self.as_slice().len()
    }

    /// The request at place `i`, if there are that many.
    pub fn get(&self, i: usize) -> (r: Option<&ResourceRequestDef>)
        ensures
            match r {
                Some(request) => i < self@.len() && *request == request_defs(*self)[i as int],
                None => i >= self@.len(),
            },
    {
        let items = self.as_slice();
        if i < items.len() {
            Some(&items[i])
        } else {
            None
        }
    }

    /// The requests as the scheduler takes them, in their order.
    pub fn into_requests(self) -> (requests: Vec<ResourceRequest>)
        ensures
            requests@.len() == request_defs(self).len(),
            forall|i: int|
                0 <= i < requests@.len() ==> {
                    &&& (#[trigger] requests@[i]).n_nodes == request_defs(self)[i].n_nodes
                    &&& requests@[i].resources == request_defs(self)[i].resources
                    &&& requests@[i].min_time == request_defs(self)[i].time_request
                },
    {
        let mut items = self.to_vec();
        let ghost all = items@;
        let mut reversed: Vec<ResourceRequest> = Vec::new();
        while items.len() > 0
            invariant
                items@ == all.take(items@.len() as int),
                items@.len() + reversed@.len() == all.len(),
                forall|i: int|
                    0 <= i < reversed@.len() ==> {
                        &&& (#[trigger] reversed@[i]).n_nodes == all[all.len() - 1 - i].n_nodes
                        &&& reversed@[i].resources == all[all.len() - 1 - i].resources
                        &&& reversed@[i].min_time == all[all.len() - 1 - i].time_request
                    },
            decreases items@.len(),
        {
            let ghost k = items@.len() - 1;
            let def = items.pop().unwrap();
            proof {
                assert(items@ =~= all.take(k));
                assert(def == all[k]);
            }
            reversed.push(def.into_request());
        }
        let mut requests: Vec<ResourceRequest> = Vec::new();
        let ghost turned = reversed@;
        while reversed.len() > 0
            invariant
                reversed@ == turned.take(reversed@.len() as int),
                reversed@.len() + requests@.len() == turned.len(),
                forall|i: int|
                    0 <= i < requests@.len() ==> #[trigger] requests@[i] == turned[turned.len() - 1
                        - i],
            decreases reversed@.len(),
        {
            let ghost k = reversed@.len() - 1;
            let request = reversed.pop().unwrap();
            proof {
                assert(reversed@ =~= turned.take(k));
            }
            requests.push(request);
        }
        requests
    }
}

#[verifier::external_type_specification]
#[verifier::external_body]
pub struct ExBString(bstr::BString);

/// The bytes that a `BString` holds, first to last.
pub uninterp spec fn bstring_bytes(text: bstr::BString) -> Seq<u8>;

/// Calls `BString::from` on a `String`, which takes the bytes of the
/// `String` over as they stand.
///
/// Trusted: the result holds the UTF-8 encoding of the text.
#[verifier::external_body]
pub(crate) fn bstring_from(text: String) -> (bytes: bstr::BString)
    ensures
        bstring_bytes(bytes) == vstd::utf8::encode_utf8(text@),
{
    bstr::BString::from(text)
}

/// What a job definition says of a task, or of every task of an array.
#[derive(Debug)]
pub struct TaskConfigDef {
    pub command: Vec<String>,
    /// The environment of the task: names with their values.
    pub env: Vec<(bstr::BString, bstr::BString)>,
    pub request: ResourceRequestDefs,
    pub stdout: Option<String>,
    pub stderr: Option<String>,
    pub cwd: Option<String>,
    pub pin: PinMode,
    pub task_dir: bool,
    pub time_limit: Option<Duration>,
    pub priority: Priority,
    pub crash_limit: u32,
    pub stdin: Option<String>,
}

/// One task of a job, as its definition gives it.
#[derive(Debug)]
pub struct TaskDef {
    /// The id of the task; one is assigned later where none is given.
    pub id: Option<JobTaskId>,
    pub config: TaskConfigDef,
    /// The ids of the tasks that have to finish before this one starts.
    pub deps: Vec<JobTaskId>,
}

/// The tasks of an array job, as its definition gives them: all of one
/// making, told apart by an id and, where given, an entry.
#[derive(Debug)]
pub struct ArrayDef {
    pub ids: Option<IntArray>,
    pub entries: Vec<String>,
    pub config: TaskConfigDef,
}

/// The definition of a job.
#[derive(Debug)]
pub struct JobDef {
    pub name: String,
    pub max_fails: Option<JobTaskCount>,
    pub tasks: Vec<TaskDef>,
    pub array: Option<ArrayDef>,
    pub stream_log: Option<String>,
}

/// The characters of some texts.
pub open spec fn texts_view(texts: Seq<String>) -> Seq<Seq<char>> {
    texts.map_values(|text: String| text@)
}

/// The characters of a text that may be missing.
pub open spec fn text_view(text: Option<String>) -> Option<Seq<char>> {
    match text {
        Some(text) => Some(text@),
        None => None,
    }
}

/// The bytes of the names and values of an environment.
pub open spec fn env_view(env: Seq<(bstr::BString, bstr::BString)>) -> Seq<(Seq<u8>, Seq<u8>)> {
    env.map_values(
        |pair: (bstr::BString, bstr::BString)| (bstring_bytes(pair.0), bstring_bytes(pair.1)),
    )
}

/// Mathematical value of a [`TaskConfigDef`].
pub struct TaskConfigDefView {
    pub command: Seq<Seq<char>>,
    pub env: Seq<(Seq<u8>, Seq<u8>)>,
    pub request: Seq<ResourceRequestDefView>,
    pub stdout: Option<Seq<char>>,
    pub stderr: Option<Seq<char>>,
    pub cwd: Option<Seq<char>>,
    pub pin: PinMode,
    pub task_dir: bool,
    pub time_limit: Option<Duration>,
    pub priority: Priority,
    pub crash_limit: u32,
    pub stdin: Option<Seq<char>>,
}

impl View for TaskConfigDef {
    type V = TaskConfigDefView;

    open spec fn view(&self) -> TaskConfigDefView {
        TaskConfigDefView {
            command: texts_view(self.command@),
            env: env_view(self.env@),
            request: self.request@,
            stdout: text_view(self.stdout),
            stderr: text_view(self.stderr),
            cwd: text_view(self.cwd),
            pin: self.pin,
            task_dir: self.task_dir,
            time_limit: self.time_limit,
            priority: self.priority,
            crash_limit: self.crash_limit,
            stdin: text_view(self.stdin),
        }
    }
}

/// Mathematical value of a [`TaskDef`].
pub struct TaskDefView {
    pub id: Option<JobTaskId>,
    pub config: TaskConfigDefView,
    pub deps: Seq<JobTaskId>,
}

impl View for TaskDef {
    type V = TaskDefView;

    open spec fn view(&self) -> TaskDefView {
        TaskDefView { id: self.id, config: self.config@, deps: self.deps@ }
    }
}

/// Mathematical value of an [`ArrayDef`].
pub struct ArrayDefView {
    pub ids: Option<Seq<IntRange>>,
    pub entries: Seq<Seq<char>>,
    pub config: TaskConfigDefView,
}

impl View for ArrayDef {
    type V = ArrayDefView;

    open spec fn view(&self) -> ArrayDefView {
        ArrayDefView {
            ids: match self.ids {
                Some(ids) => Some(ids@),
                None => None,
            },
            entries: texts_view(self.entries@),
            config: self.config@,
        }
    }
}

/// Mathematical value of the tasks of a job.
pub open spec fn tasks_view(tasks: Seq<TaskDef>) -> Seq<TaskDefView> {
    tasks.map_values(|task: TaskDef| task@)
}

/// Mathematical value of a [`JobDef`].
pub struct JobDefView {
    pub name: Seq<char>,
    pub max_fails: Option<JobTaskCount>,
    pub tasks: Seq<TaskDefView>,
    pub array: Option<ArrayDefView>,
    pub stream_log: Option<Seq<char>>,
}

impl View for JobDef {
    type V = JobDefView;

    open spec fn view(&self) -> JobDefView {
        JobDefView {
            name: self.name@,
            max_fails: self.max_fails,
            tasks: tasks_view(self.tasks@),
            array: match self.array {
                Some(array) => Some(array@),
                None => None,
            },
            stream_log: text_view(self.stream_log),
        }
    }
}

impl JobDefView {
    /// The message of the first rule of shape that the definition breaks,
    /// if it breaks one. A job has tasks or an array, and not both; an
    /// array names ids or entries; where it names both, there are as many
    /// ids as entries.
    pub open spec fn shape_violation(self) -> Option<Seq<char>> {
        match self.array {
            None => if self.tasks.len() == 0 {
                Some("No tasks defined"@)
            } else {
                None
            },
            Some(array) => if self.tasks.len() != 0 {
                Some("Definition of array job and individual task cannot be mixed"@)
            } else {
                match array.ids {
                    None => if array.entries.len() == 0 {
                        Some("One of attributes of array must be defined: 'ids', 'entries'"@)
                    } else {
                        None
                    },
                    Some(ids) => if array.entries.len() != 0 && total_count(ids)
                        != array.entries.len() {
                        Some("Items 'ids' and 'entries' does not match"@)
                    } else {
                        None
                    },
                }
            },
        }
    }
}

impl JobDef {
    /// Checks the rules of the shape of a job definition. The error tells
    /// the first rule that is broken.
    pub fn validate(&self) -> (r: Result<(), ModelError>)
        ensures
            match self@.shape_violation() {
                None => r is Ok,
                Some(message) => r matches Err(ModelError::DeserializationError(text)) && text@
                    == message,
            },
    {
        if self.tasks.len() == 0 && self.array.is_none() {
            return Err(ModelError::DeserializationError("No tasks defined".to_owned()));
        }
        if let Some(array) = &self.array {
            if self.tasks.len() != 0 {
                return Err(
                    ModelError::DeserializationError(
                        "Definition of array job and individual task cannot be mixed".to_owned(),
                    ),
                );
            }
            if array.ids.is_none() && array.entries.len() == 0 {
                return Err(
                    ModelError::DeserializationError(
                        "One of attributes of array must be defined: 'ids', 'entries'".to_owned(),
                    ),
                );
            }
            if let Some(ids) = &array.ids {
                if array.entries.len() != 0 && ids.id_count() as usize != array.entries.len() {
                    return Err(
                        ModelError::DeserializationError(
                            "Items 'ids' and 'entries' does not match".to_owned(),
                        ),
                    );
                }
            }
        }
        Ok(())
    }
}

/// A job that names neither tasks nor an array is rejected, whatever else
/// it holds.
pub proof fn lemma_job_without_tasks_rejected(job: JobDefView)
    requires
        job.tasks.len() == 0,
        job.array is None,
    ensures
        job.shape_violation() == Some("No tasks defined"@),
{
}

/// An array job that names ids and entries is accepted exactly if there
/// are as many ids as entries.
pub proof fn lemma_array_needs_as_many_ids_as_entries(job: JobDefView)
    requires
        job.tasks.len() == 0,
        job.array is Some,
        job.array->0.ids is Some,
        job.array->0.entries.len() > 0,
    ensures
        job.shape_violation() is None <==> total_count(job.array->0.ids->0)
            == job.array->0.entries.len(),
        job.shape_violation() is Some ==> job.shape_violation() == Some(
            "Items 'ids' and 'entries' does not match"@,
        ),
{
}

} // verus!
