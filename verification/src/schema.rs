//! The schema of a job definition: which keys a document may hold, what
//! kind of value stands under each, and what a missing key stands for.

use vstd::prelude::*;
use crate::array::{array_of, invalid_array_message, parse_array, IntArray, IntRange};
use crate::defs::{
    bstring_bytes, bstring_from, env_view, tasks_view, text_view, texts_view,
    ArrayDef, ArrayDefView, JobDef, JobDefView, PinMode, ResourceRequestDef, ResourceRequestDefView,
    ResourceRequestDefs, TaskConfigDef, TaskConfigDefView, TaskDef, TaskDefView,
};
use crate::document::{
    check_known, find, first_unknown, invalid_field, invalid_field_message, keys_view, lookup,
    missing_field, missing_field_message, parse_document, toml_document, unknown_field_message,
    Node,
};
use crate::error::ModelError;
use crate::human_time::{human_time, invalid_duration_message, parse_human_time, Duration};
use crate::ids::{JobTaskCount, JobTaskId, Priority};
use crate::request::{
    deserialize_resource_entries, resolve_entries, IntOrString, ResourceRequestEntries,
    ResourceRequestEntryView,
};
use crate::text::str_eq;

verus! {

/// Whether a result is the error of a definition with the given message.
pub open spec fn fails_with<T>(r: Result<T, ModelError>, message: Seq<char>) -> bool {
    r matches Err(ModelError::DeserializationError(text)) && text@ == message
}

/// What was read under a key, or the error for a value that could not be
/// read.
pub open spec fn or_invalid<T>(read: Option<T>, key: Seq<char>) -> Result<T, Seq<char>> {
    match read {
        Some(x) => Ok(x),
        None => Err(invalid_field_message(key)),
    }
}

/// The text of a value that is a text.
pub open spec fn text_of(node: Node) -> Option<Seq<char>> {
    match node {
        Node::String(text) => Some(text@),
        _ => None,
    }
}

/// The number of a value that is a whole number from `low` to `high`.
pub open spec fn number_of(node: Node, low: int, high: int) -> Option<int> {
    match node {
        Node::Integer(number) => if low <= number <= high {
            Some(number as int)
        } else {
            None
        },
        _ => None,
    }
}

/// The truth value of a value that is one.
pub open spec fn truth_of(node: Node) -> Option<bool> {
    match node {
        Node::Boolean(truth) => Some(truth),
        _ => None,
    }
}

/// The pin mode that a value names: one of the texts `none`, `taskset` and
/// `omp`.
pub open spec fn pin_of(node: Node) -> Option<PinMode> {
    match node {
        Node::String(text) => if text@ == "none"@ {
            Some(PinMode::Unpinned)
        } else if text@ == "taskset"@ {
            Some(PinMode::TaskSet)
        } else if text@ == "omp"@ {
            Some(PinMode::OpenMP)
        } else {
            None
        },
        _ => None,
    }
}

/// The texts of a value that is a list of texts.
pub open spec fn texts_of(node: Node) -> Option<Seq<Seq<char>>> {
    match node {
        Node::Array(items) => if forall|i: int|
            0 <= i < items@.len() ==> text_of(#[trigger] items@[i]) is Some {
            Some(items@.map_values(|item: Node| text_of(item)->0))
        } else {
            None
        },
        _ => None,
    }
}

/// The task ids of a value that is a list of whole numbers of 32 bits.
pub open spec fn task_ids_of(node: Node) -> Option<Seq<JobTaskId>> {
    match node {
        Node::Array(items) => if forall|i: int|
            0 <= i < items@.len() ==> number_of(#[trigger] items@[i], 0, u32::MAX as int) is Some {
            Some(
                items@.map_values(
                    |item: Node| JobTaskId(number_of(item, 0, u32::MAX as int)->0 as u32),
                ),
            )
        } else {
            None
        },
        _ => None,
    }
}

/// The environment that a value gives: a table of texts. The names and
/// the values are kept as the bytes of their UTF-8 encodings.
pub open spec fn env_of(node: Node) -> Option<Seq<(Seq<u8>, Seq<u8>)>> {
    match node {
        Node::Table(entries) => if forall|i: int|
            0 <= i < entries@.len() ==> text_of((#[trigger] entries@[i]).1) is Some {
            Some(
                entries@.map_values(
                    |entry: (String, Node)|
                        (
                            vstd::utf8::encode_utf8(entry.0@),
                            vstd::utf8::encode_utf8(text_of(entry.1)->0),
                        ),
                ),
            )
        } else {
            None
        },
        _ => None,
    }
}

/// The amount that a value gives: a whole number that is not negative, or
/// a text.
pub open spec fn amount_of(node: Node) -> Option<IntOrString> {
    match node {
        Node::Integer(number) => if number >= 0 {
            Some(IntOrString::Int(number as u64))
        } else {
            None
        },
        Node::String(text) => Some(IntOrString::String(text)),
        _ => None,
    }
}

/// The named amounts that a value gives: a table of amounts.
pub open spec fn amounts_of(node: Node) -> Option<Seq<(String, IntOrString)>> {
    match node {
        Node::Table(entries) => if forall|i: int|
            0 <= i < entries@.len() ==> amount_of((#[trigger] entries@[i]).1) is Some {
            Some(entries@.map_values(|entry: (String, Node)| (entry.0, amount_of(entry.1)->0)))
        } else {
            None
        },
        _ => None,
    }
}

/// The span of time that a value gives: a text that stands for one.
pub open spec fn duration_of(node: Node, key: Seq<char>) -> Result<Duration, Seq<char>> {
    match node {
        Node::String(text) => match human_time(text@) {
            Some(d) => Ok(d),
            None => Err(invalid_duration_message(text@)),
        },
        _ => Err(invalid_field_message(key)),
    }
}

/// The text under a key, if the table holds the key.
pub open spec fn text_at(table: Seq<(String, Node)>, key: Seq<char>) -> Result<
    Option<Seq<char>>,
    Seq<char>,
> {
    match lookup(table, key) {
        None => Ok(None),
        Some(node) => match text_of(node) {
            Some(text) => Ok(Some(text)),
            None => Err(invalid_field_message(key)),
        },
    }
}

/// The whole number from `low` to `high` under a key, if the table holds
/// the key.
pub open spec fn number_at(table: Seq<(String, Node)>, key: Seq<char>, low: int, high: int) -> Result<
    Option<int>,
    Seq<char>,
> {
    match lookup(table, key) {
        None => Ok(None),
        Some(node) => match number_of(node, low, high) {
            Some(number) => Ok(Some(number)),
            None => Err(invalid_field_message(key)),
        },
    }
}

/// The truth value under a key; `false` where the table does not hold the
/// key.
pub open spec fn truth_at(table: Seq<(String, Node)>, key: Seq<char>) -> Result<bool, Seq<char>> {
    match lookup(table, key) {
        None => Ok(false),
        Some(node) => or_invalid(truth_of(node), key),
    }
}

/// The pin mode under a key; none where the table does not hold the key.
pub open spec fn pin_at(table: Seq<(String, Node)>, key: Seq<char>) -> Result<PinMode, Seq<char>> {
    match lookup(table, key) {
        None => Ok(PinMode::Unpinned),
        Some(node) => or_invalid(pin_of(node), key),
    }
}

/// The texts under a key, if the table holds the key.
pub open spec fn texts_at(table: Seq<(String, Node)>, key: Seq<char>) -> Result<
    Option<Seq<Seq<char>>>,
    Seq<char>,
> {
    match lookup(table, key) {
        None => Ok(None),
        Some(node) => match texts_of(node) {
            Some(texts) => Ok(Some(texts)),
            None => Err(invalid_field_message(key)),
        },
    }
}

/// The task ids under a key; none where the table does not hold the key.
pub open spec fn task_ids_at(table: Seq<(String, Node)>, key: Seq<char>) -> Result<
    Seq<JobTaskId>,
    Seq<char>,
> {
    match lookup(table, key) {
        None => Ok(Seq::empty()),
        Some(node) => or_invalid(task_ids_of(node), key),
    }
}

/// The environment under a key; an empty one where the table does not
/// hold the key.
pub open spec fn env_at(table: Seq<(String, Node)>, key: Seq<char>) -> Result<
    Seq<(Seq<u8>, Seq<u8>)>,
    Seq<char>,
> {
    match lookup(table, key) {
        None => Ok(Seq::empty()),
        Some(node) => or_invalid(env_of(node), key),
    }
}

/// The span of time under a key, if the table holds the key.
pub open spec fn duration_at(table: Seq<(String, Node)>, key: Seq<char>) -> Result<
    Option<Duration>,
    Seq<char>,
> {
    match lookup(table, key) {
        None => Ok(None),
        Some(node) => match duration_of(node, key) {
            Ok(d) => Ok(Some(d)),
            Err(message) => Err(message),
        },
    }
}

/// The resources under a key; none where the table does not hold the key.
/// An amount that is a number asks for that many units, taken compactly;
/// one that is a text is read as an allocation request.
pub open spec fn resources_at(table: Seq<(String, Node)>, key: Seq<char>) -> Result<
    Seq<ResourceRequestEntryView>,
    Seq<char>,
> {
    match lookup(table, key) {
        None => Ok(Seq::empty()),
        Some(node) => match amounts_of(node) {
            Some(amounts) => resolve_entries(amounts),
            None => Err(invalid_field_message(key)),
        },
    }
}

/// The ids of an array job under a key, if the table holds the key: a text
/// that stands for runs of ids.
pub open spec fn array_ids_at(table: Seq<(String, Node)>, key: Seq<char>) -> Result<
    Option<Seq<IntRange>>,
    Seq<char>,
> {
    match lookup(table, key) {
        None => Ok(None),
        Some(Node::String(text)) => match array_of(text@) {
            Some(ranges) => Ok(Some(ranges)),
            None => Err(invalid_array_message(text@)),
        },
        Some(_) => Err(invalid_field_message(key)),
    }
}

/// Reads the text under a key.
pub fn read_text(table: &Vec<(String, Node)>, key: &str) -> (r: Result<Option<String>, ModelError>)
    ensures
        match text_at(table@, key@) {
            Ok(text) => r matches Ok(read) && text_view(read) == text,
            Err(message) => fails_with(r, message),
        },
{
    match find(table, key) {
        None => Ok(None),
        Some(Node::String(text)) => Ok(Some(text.clone())),
        Some(_) => Err(invalid_field(key)),
    }
}

/// Reads the whole number from `low` to `high` under a key.
pub fn read_number(table: &Vec<(String, Node)>, key: &str, low: i64, high: i64) -> (r: Result<
    Option<i64>,
    ModelError,
>)
    ensures
        match number_at(table@, key@, low as int, high as int) {
            Ok(Some(number)) => r == Ok::<Option<i64>, ModelError>(Some(number as i64)) && low
                <= number <= high,
            Ok(None) => r == Ok::<Option<i64>, ModelError>(None),
            Err(message) => fails_with(r, message),
        },
{
    match find(table, key) {
        None => Ok(None),
        Some(Node::Integer(number)) => {
            if low <= *number && *number <= high {
                Ok(Some(*number))
            } else {
                Err(invalid_field(key))
            }
        },
        Some(_) => Err(invalid_field(key)),
    }
}

/// Reads the truth value under a key.
pub fn read_truth(table: &Vec<(String, Node)>, key: &str) -> (r: Result<bool, ModelError>)
    ensures
        match truth_at(table@, key@) {
            Ok(truth) => r == Ok::<bool, ModelError>(truth),
            Err(message) => fails_with(r, message),
        },
{
    match find(table, key) {
        None => Ok(false),
        Some(Node::Boolean(truth)) => Ok(*truth),
        Some(_) => Err(invalid_field(key)),
    }
}

/// Reads the pin mode under a key.
pub fn read_pin(table: &Vec<(String, Node)>, key: &str) -> (r: Result<PinMode, ModelError>)
    ensures
        match pin_at(table@, key@) {
            Ok(pin) => r == Ok::<PinMode, ModelError>(pin),
            Err(message) => fails_with(r, message),
        },
{
    match find(table, key) {
        None => Ok(PinMode::Unpinned),
        Some(Node::String(text)) => {
            if str_eq(text.as_str(), "none") {
                Ok(PinMode::Unpinned)
            } else if str_eq(text.as_str(), "taskset") {
                Ok(PinMode::TaskSet)
            } else if str_eq(text.as_str(), "omp") {
                Ok(PinMode::OpenMP)
            } else {
                Err(invalid_field(key))
            }
        },
        Some(_) => Err(invalid_field(key)),
    }
}

/// Reads the texts under a key.
#[verifier::loop_isolation(false)]
pub fn read_texts(table: &Vec<(String, Node)>, key: &str) -> (r: Result<
    Option<Vec<String>>,
    ModelError,
>)
    ensures
        match texts_at(table@, key@) {
            Ok(Some(texts)) => r matches Ok(Some(read)) && texts_view(read@) == texts,
            Ok(None) => r matches Ok(None),
            Err(message) => fails_with(r, message),
        },
{
    match find(table, key) {
        None => Ok(None),
        Some(Node::Array(items)) => {
            let mut texts: Vec<String> = Vec::new();
            let mut i: usize = 0;
            while i < items.len()
                invariant
                    i <= items@.len(),
                    forall|k: int| 0 <= k < i ==> text_of(#[trigger] items@[k]) is Some,
                    texts@.len() == i,
                    forall|k: int| 0 <= k < i ==> (#[trigger] texts@[k])@ == text_of(items@[k])->0,
                decreases items@.len() - i,
            {
                match &items[i] {
                    Node::String(text) => {
                        texts.push(text.clone());
                    },
                    _ => {
                        assert(text_of(items@[i as int]) is None);
                        return Err(invalid_field(key));
                    },
                }
                i += 1;
            }
            proof {
                assert(texts_view(texts@) =~= items@.map_values(|item: Node| text_of(item)->0));
            }
            Ok(Some(texts))
        },
        Some(_) => Err(invalid_field(key)),
    }
}

/// Reads the task ids under a key.
#[verifier::loop_isolation(false)]
pub fn read_task_ids(table: &Vec<(String, Node)>, key: &str) -> (r: Result<
    Vec<JobTaskId>,
    ModelError,
>)
    ensures
        match task_ids_at(table@, key@) {
            Ok(ids) => r matches Ok(read) && read@ == ids,
            Err(message) => fails_with(r, message),
        },
{
    match find(table, key) {
        None => Ok(Vec::new()),
        Some(Node::Array(items)) => {
            let mut ids: Vec<JobTaskId> = Vec::new();
            let mut i: usize = 0;
            while i < items.len()
                invariant
                    i <= items@.len(),
                    forall|k: int|
                        0 <= k < i ==> number_of(#[trigger] items@[k], 0, u32::MAX as int) is Some,
                    ids@.len() == i,
                    forall|k: int|
                        0 <= k < i ==> #[trigger] ids@[k] == JobTaskId(
                            number_of(items@[k], 0, u32::MAX as int)->0 as u32,
                        ),
                decreases items@.len() - i,
            {
                match &items[i] {
                    Node::Integer(number) => {
                        if 0 <= *number && *number <= 0xffff_ffff {
                            ids.push(JobTaskId::new(*number as u32));
                        } else {
                            assert(number_of(items@[i as int], 0, u32::MAX as int) is None);
                            return Err(invalid_field(key));
                        }
                    },
                    _ => {
                        assert(number_of(items@[i as int], 0, u32::MAX as int) is None);
                        return Err(invalid_field(key));
                    },
                }
                i += 1;
            }
            proof {
                assert(ids@ =~= items@.map_values(
                    |item: Node| JobTaskId(number_of(item, 0, u32::MAX as int)->0 as u32),
                ));
            }
            Ok(ids)
        },
        Some(_) => Err(invalid_field(key)),
    }
}

/// Reads the environment under a key.
#[verifier::loop_isolation(false)]
pub fn read_env(table: &Vec<(String, Node)>, key: &str) -> (r: Result<
    Vec<(bstr::BString, bstr::BString)>,
    ModelError,
>)
    ensures
        match env_at(table@, key@) {
            Ok(env) => r matches Ok(read) && env_view(read@) == env,
            Err(message) => fails_with(r, message),
        },
{
    match find(table, key) {
        None => {
            let env: Vec<(bstr::BString, bstr::BString)> = Vec::new();
            proof {
                assert(env_view(env@) =~= Seq::empty());
            }
            Ok(env)
        },
        Some(Node::Table(entries)) => {
            let mut env: Vec<(bstr::BString, bstr::BString)> = Vec::new();
            let mut i: usize = 0;
            while i < entries.len()
                invariant
                    i <= entries@.len(),
                    forall|k: int| 0 <= k < i ==> text_of((#[trigger] entries@[k]).1) is Some,
                    env@.len() == i,
                    forall|k: int|
                        0 <= k < i ==> bstring_bytes((#[trigger] env@[k]).0)
                            == vstd::utf8::encode_utf8(entries@[k].0@) && bstring_bytes(env@[k].1)
                            == vstd::utf8::encode_utf8(text_of(entries@[k].1)->0),
                decreases entries@.len() - i,
            {
                match &entries[i].1 {
                    Node::String(text) => {
                        let name = bstring_from(entries[i].0.clone());
                        let value = bstring_from(text.clone());
                        env.push((name, value));
                    },
                    _ => {
                        assert(text_of(entries@[i as int].1) is None);
                        return Err(invalid_field(key));
                    },
                }
                i += 1;
            }
            proof {
                assert(env_view(env@) =~= entries@.map_values(
                    |entry: (String, Node)|
                        (
                            vstd::utf8::encode_utf8(entry.0@),
                            vstd::utf8::encode_utf8(text_of(entry.1)->0),
                        ),
                ));
            }
            Ok(env)
        },
        Some(_) => Err(invalid_field(key)),
    }
}

/// Reads the span of time under a key.
pub fn read_duration(table: &Vec<(String, Node)>, key: &str) -> (r: Result<
    Option<Duration>,
    ModelError,
>)
    ensures
        match duration_at(table@, key@) {
            Ok(d) => r == Ok::<Option<Duration>, ModelError>(d),
            Err(message) => fails_with(r, message),
        },
{
    match find(table, key) {
        None => Ok(None),
        Some(Node::String(text)) => match parse_human_time(text.as_str()) {
            Ok(d) => Ok(Some(d)),
            Err(e) => Err(e),
        },
        Some(_) => Err(invalid_field(key)),
    }
}

/// Reads the resources under a key.
#[verifier::loop_isolation(false)]
pub fn read_resources(table: &Vec<(String, Node)>, key: &str) -> (r: Result<
    ResourceRequestEntries,
    ModelError,
>)
    ensures
        match resources_at(table@, key@) {
            Ok(entries) => r matches Ok(read) && read@ == entries,
            Err(message) => fails_with(r, message),
        },
{
    match find(table, key) {
        None => Ok(ResourceRequestEntries::new()),
        Some(Node::Table(entries)) => {
            let mut amounts: Vec<(String, IntOrString)> = Vec::new();
            let mut i: usize = 0;
            while i < entries.len()
                invariant
                    i <= entries@.len(),
                    forall|k: int| 0 <= k < i ==> amount_of((#[trigger] entries@[k]).1) is Some,
                    amounts@.len() == i,
                    forall|k: int|
                        0 <= k < i ==> #[trigger] amounts@[k] == (
                            entries@[k].0,
                            amount_of(entries@[k].1)->0,
                        ),
                decreases entries@.len() - i,
            {
                let amount = match &entries[i].1 {
                    Node::Integer(number) => {
                        if *number >= 0 {
                            IntOrString::Int(*number as u64)
                        } else {
                            assert(amount_of(entries@[i as int].1) is None);
                            return Err(invalid_field(key));
                        }
                    },
                    Node::String(text) => IntOrString::String(text.clone()),
                    _ => {
                        assert(amount_of(entries@[i as int].1) is None);
                        return Err(invalid_field(key));
                    },
                };
                amounts.push((entries[i].0.clone(), amount));
                i += 1;
            }
            proof {
                assert(amounts@ =~= entries@.map_values(
                    |entry: (String, Node)| (entry.0, amount_of(entry.1)->0),
                ));
            }
            deserialize_resource_entries(amounts)
        },
        Some(_) => Err(invalid_field(key)),
    }
}

/// Reads the ids of an array job under a key.
pub fn read_array_ids(table: &Vec<(String, Node)>, key: &str) -> (r: Result<
    Option<IntArray>,
    ModelError,
>)
    ensures
        match array_ids_at(table@, key@) {
            Ok(Some(ranges)) => r matches Ok(Some(read)) && read@ == ranges,
            Ok(None) => r matches Ok(None),
            Err(message) => fails_with(r, message),
        },
{
    match find(table, key) {
        None => Ok(None),
        Some(Node::String(text)) => match parse_array(text.as_str()) {
            Ok(ids) => Ok(Some(ids)),
            Err(e) => Err(e),
        },
        Some(_) => Err(invalid_field(key)),
    }
}

/// All that was read, if every reading went well; else the first error.
pub open spec fn collect<T>(results: Seq<Result<T, Seq<char>>>) -> Result<Seq<T>, Seq<char>>
    decreases results.len(),
{
    if results.len() == 0 {
        Ok(Seq::empty())
    } else {
        match collect(results.drop_last()) {
            Err(message) => Err(message),
            Ok(front) => match results.last() {
                Err(message) => Err(message),
                Ok(x) => Ok(front.push(x)),
            },
        }
    }
}

/// What one more reading adds to what was collected.
pub proof fn lemma_collect_next<T>(results: Seq<Result<T, Seq<char>>>, i: int)
    requires
        0 <= i < results.len(),
    ensures
        collect(results.take(i + 1)) == match collect(results.take(i)) {
            Err(message) => Err(message),
            Ok(front) => match results[i] {
                Err(message) => Err(message),
                Ok(x) => Ok(front.push(x)),
            },
        },
{
    assert(results.take(i + 1).drop_last() =~= results.take(i));
    assert(results.take(i + 1).last() == results[i]);
}

/// An error among the first readings is the error of all of them.
pub proof fn lemma_collect_error<T>(results: Seq<Result<T, Seq<char>>>, k: int)
    requires
        0 <= k <= results.len(),
        collect(results.take(k)) is Err,
    ensures
        collect(results) == collect(results.take(k)),
    decreases results.len() - k,
{
    if k < results.len() {
        lemma_collect_next(results, k);
        lemma_collect_error(results, k + 1);
    } else {
        assert(results.take(k) =~= results);
    }
}

/// The keys that a request may hold.
pub open spec fn request_keys() -> Seq<Seq<char>> {
    seq!["n_nodes"@, "time_request"@, "resources"@]
}

/// The keys that say how a task is run.
pub open spec fn config_keys() -> Seq<Seq<char>> {
    seq![
        "command"@,
        "env"@,
        "request"@,
        "stdout"@,
        "stderr"@,
        "cwd"@,
        "pin"@,
        "task_dir"@,
        "time_limit"@,
        "priority"@,
        "crash_limit"@,
        "stdin"@,
    ]
}

/// The keys that a task may hold.
pub open spec fn task_keys() -> Seq<Seq<char>> {
    seq!["id"@, "deps"@] + config_keys()
}

/// The keys that an array may hold.
pub open spec fn array_keys() -> Seq<Seq<char>> {
    seq!["ids"@, "entries"@] + config_keys()
}

/// The keys that a job may hold.
pub open spec fn job_keys() -> Seq<Seq<char>> {
    seq!["name"@, "max_fails"@, "task"@, "array"@, "stream_log"@]
}

/// The request that a value gives: a table with the keys of a request and
/// no others. A request without a number of workers names none; one
/// without a time asks for none; one without resources asks for none.
pub open spec fn request_of(node: Node) -> Result<ResourceRequestDefView, Seq<char>> {
    match node {
        Node::Table(entries) => {
            let table = entries@;
            let unknown = first_unknown(table, request_keys());
            let n_nodes = number_at(table, "n_nodes"@, 0, u32::MAX as int);
            let time_request = duration_at(table, "time_request"@);
            let resources = resources_at(table, "resources"@);
            if unknown is Some {
                Err(unknown_field_message(unknown->0))
            } else if n_nodes is Err {
                Err(n_nodes->Err_0)
            } else if time_request is Err {
                Err(time_request->Err_0)
            } else if resources is Err {
                Err(resources->Err_0)
            } else {
                Ok(
                    ResourceRequestDefView {
                        n_nodes: match n_nodes->Ok_0 {
                            Some(n) => n as u32,
                            None => 0,
                        },
                        time_request: match time_request->Ok_0 {
                            Some(d) => d,
                            None => Duration { secs: 0, nanos: 0 },
                        },
                        resources: resources->Ok_0,
                    },
                )
            }
        },
        _ => Err(invalid_field_message("request"@)),
    }
}

/// What each value of a list gives when it is read as a request.
pub open spec fn request_results(items: Seq<Node>) -> Seq<
    Result<ResourceRequestDefView, Seq<char>>,
> {
    items.map_values(|item: Node| request_of(item))
}

/// The requests under a key: a list of requests; none where the table
/// does not hold the key.
pub open spec fn requests_at(table: Seq<(String, Node)>, key: Seq<char>) -> Result<
    Seq<ResourceRequestDefView>,
    Seq<char>,
> {
    match lookup(table, key) {
        None => Ok(Seq::empty()),
        Some(Node::Array(items)) => collect(request_results(items@)),
        Some(_) => Err(invalid_field_message(key)),
    }
}

/// How a task is run, as a table says it. The command must be given; what
/// else is missing stands for nothing, for no, or for zero.
pub open spec fn config_of(table: Seq<(String, Node)>) -> Result<TaskConfigDefView, Seq<char>> {
    let command = texts_at(table, "command"@);
    let env = env_at(table, "env"@);
    let request = requests_at(table, "request"@);
    let stdout = text_at(table, "stdout"@);
    let stderr = text_at(table, "stderr"@);
    let cwd = text_at(table, "cwd"@);
    let pin = pin_at(table, "pin"@);
    let task_dir = truth_at(table, "task_dir"@);
    let time_limit = duration_at(table, "time_limit"@);
    let priority = number_at(table, "priority"@, i32::MIN as int, i32::MAX as int);
    let crash_limit = number_at(table, "crash_limit"@, 0, u32::MAX as int);
    let stdin = text_at(table, "stdin"@);
    if command is Err {
        Err(command->Err_0)
    } else if command->Ok_0 is None {
        Err(missing_field_message("command"@))
    } else if env is Err {
        Err(env->Err_0)
    } else if request is Err {
        Err(request->Err_0)
    } else if stdout is Err {
        Err(stdout->Err_0)
    } else if stderr is Err {
        Err(stderr->Err_0)
    } else if cwd is Err {
        Err(cwd->Err_0)
    } else if pin is Err {
        Err(pin->Err_0)
    } else if task_dir is Err {
        Err(task_dir->Err_0)
    } else if time_limit is Err {
        Err(time_limit->Err_0)
    } else if priority is Err {
        Err(priority->Err_0)
    } else if crash_limit is Err {
        Err(crash_limit->Err_0)
    } else if stdin is Err {
        Err(stdin->Err_0)
    } else {
        Ok(
            TaskConfigDefView {
                command: command->Ok_0->0,
                env: env->Ok_0,
                request: request->Ok_0,
                stdout: stdout->Ok_0,
                stderr: stderr->Ok_0,
                cwd: cwd->Ok_0,
                pin: pin->Ok_0,
                task_dir: task_dir->Ok_0,
                time_limit: time_limit->Ok_0,
                priority: match priority->Ok_0 {
                    Some(n) => n as i32,
                    None => 0,
                },
                crash_limit: match crash_limit->Ok_0 {
                    Some(n) => n as u32,
                    None => 0,
                },
                stdin: stdin->Ok_0,
            },
        )
    }
}

/// The task that a value gives: a table with the keys of a task and no
/// others.
pub open spec fn task_of(node: Node) -> Result<TaskDefView, Seq<char>> {
    match node {
        Node::Table(entries) => {
            let table = entries@;
            let unknown = first_unknown(table, task_keys());
            let id = number_at(table, "id"@, 0, u32::MAX as int);
            let deps = task_ids_at(table, "deps"@);
            let config = config_of(table);
            if unknown is Some {
                Err(unknown_field_message(unknown->0))
            } else if id is Err {
                Err(id->Err_0)
            } else if deps is Err {
                Err(deps->Err_0)
            } else if config is Err {
                Err(config->Err_0)
            } else {
                Ok(
                    TaskDefView {
                        id: match id->Ok_0 {
                            Some(n) => Some(JobTaskId(n as u32)),
                            None => None,
                        },
                        config: config->Ok_0,
                        deps: deps->Ok_0,
                    },
                )
            }
        },
        _ => Err(invalid_field_message("task"@)),
    }
}

/// What each value of a list gives when it is read as a task.
pub open spec fn task_results(items: Seq<Node>) -> Seq<Result<TaskDefView, Seq<char>>> {
    items.map_values(|item: Node| task_of(item))
}

/// The tasks under a key: a list of tasks; none where the table does not
/// hold the key.
pub open spec fn tasks_at(table: Seq<(String, Node)>, key: Seq<char>) -> Result<
    Seq<TaskDefView>,
    Seq<char>,
> {
    match lookup(table, key) {
        None => Ok(Seq::empty()),
        Some(Node::Array(items)) => collect(task_results(items@)),
        Some(_) => Err(invalid_field_message(key)),
    }
}

/// The array that a value gives: a table with the keys of an array and no
/// others.
pub open spec fn array_def_of(node: Node) -> Result<ArrayDefView, Seq<char>> {
    match node {
        Node::Table(entries) => {
            let table = entries@;
            let unknown = first_unknown(table, array_keys());
            let ids = array_ids_at(table, "ids"@);
            let array_entries = texts_at(table, "entries"@);
            let config = config_of(table);
            if unknown is Some {
                Err(unknown_field_message(unknown->0))
            } else if ids is Err {
                Err(ids->Err_0)
            } else if array_entries is Err {
                Err(array_entries->Err_0)
            } else if config is Err {
                Err(config->Err_0)
            } else {
                Ok(
                    ArrayDefView {
                        ids: ids->Ok_0,
                        entries: match array_entries->Ok_0 {
                            Some(texts) => texts,
                            None => Seq::empty(),
                        },
                        config: config->Ok_0,
                    },
                )
            }
        },
        _ => Err(invalid_field_message("array"@)),
    }
}

/// The array under a key, if the table holds the key.
pub open spec fn array_at(table: Seq<(String, Node)>, key: Seq<char>) -> Result<
    Option<ArrayDefView>,
    Seq<char>,
> {
    match lookup(table, key) {
        None => Ok(None),
        Some(node) => match array_def_of(node) {
            Ok(array) => Ok(Some(array)),
            Err(message) => Err(message),
        },
    }
}

/// The job that a document defines: a table with the keys of a job and no
/// others. A job without a name has the empty name.
pub open spec fn job_of(document: Node) -> Result<JobDefView, Seq<char>> {
    match document {
        Node::Table(entries) => {
            let table = entries@;
            let unknown = first_unknown(table, job_keys());
            let name = text_at(table, "name"@);
            let max_fails = number_at(table, "max_fails"@, 0, u32::MAX as int);
            let tasks = tasks_at(table, "task"@);
            let array = array_at(table, "array"@);
            let stream_log = text_at(table, "stream_log"@);
            if unknown is Some {
                Err(unknown_field_message(unknown->0))
            } else if name is Err {
                Err(name->Err_0)
            } else if max_fails is Err {
                Err(max_fails->Err_0)
            } else if tasks is Err {
                Err(tasks->Err_0)
            } else if array is Err {
                Err(array->Err_0)
            } else if stream_log is Err {
                Err(stream_log->Err_0)
            } else {
                Ok(
                    JobDefView {
                        name: match name->Ok_0 {
                            Some(text) => text,
                            None => Seq::empty(),
                        },
                        max_fails: match max_fails->Ok_0 {
                            Some(n) => Some(n as u32),
                            None => None,
                        },
                        tasks: tasks->Ok_0,
                        array: array->Ok_0,
                        stream_log: stream_log->Ok_0,
                    },
                )
            }
        },
        _ => Err(invalid_field_message("job"@)),
    }
}

/// The job that a document defines, if the definition keeps to the schema
/// and to the rules of the shape of a job.
pub open spec fn valid_job_of(document: Node) -> Result<JobDefView, Seq<char>> {
    match job_of(document) {
        Err(message) => Err(message),
        Ok(job) => match job.shape_violation() {
            Some(message) => Err(message),
            None => Ok(job),
        },
    }
}

/// The keys that a request may hold.
fn request_key_list() -> (keys: Vec<&'static str>)
    ensures
        keys_view(keys@) == request_keys(),
{
    let keys = vec!["n_nodes", "time_request", "resources"];
    proof {
        assert(keys_view(keys@) =~= request_keys());
    }
    keys
}

/// The keys that a task may hold, or an array: the two keys of its own
/// and those that say how a task is run.
fn config_key_list(first: &'static str, second: &'static str) -> (keys: Vec<&'static str>)
    ensures
        keys_view(keys@) == seq![first@, second@] + config_keys(),
{
    let keys = vec![
        first,
        second,
        "command",
        "env",
        "request",
        "stdout",
        "stderr",
        "cwd",
        "pin",
        "task_dir",
        "time_limit",
        "priority",
        "crash_limit",
        "stdin",
    ];
    proof {
        assert(keys_view(keys@) =~= seq![first@, second@] + config_keys());
    }
    keys
}

/// The keys that a job may hold.
fn job_key_list() -> (keys: Vec<&'static str>)
    ensures
        keys_view(keys@) == job_keys(),
{
    let keys = vec!["name", "max_fails", "task", "array", "stream_log"];
    proof {
        assert(keys_view(keys@) =~= job_keys());
    }
    keys
}

/// Reads a value as a request.
pub fn read_request(node: &Node) -> (r: Result<ResourceRequestDef, ModelError>)
    ensures
        match request_of(*node) {
            Ok(request) => r matches Ok(read) && read@ == request,
            Err(message) => fails_with(r, message),
        },
{
    match node {
        Node::Table(entries) => {
            let known = request_key_list();
            match check_known(entries, &known) {
                Ok(_) => {},
                Err(e) => {
                    return Err(e);
                },
            }
            let n_nodes = match read_number(entries, "n_nodes", 0, 0xffff_ffff) {
                Ok(n_nodes) => n_nodes,
                Err(e) => {
                    return Err(e);
                },
            };
            let time_request = match read_duration(entries, "time_request") {
                Ok(time_request) => time_request,
                Err(e) => {
                    return Err(e);
                },
            };
            let resources = match read_resources(entries, "resources") {
                Ok(resources) => resources,
                Err(e) => {
                    return Err(e);
                },
            };
            Ok(
                ResourceRequestDef {
                    n_nodes: match n_nodes {
                        Some(n) => n as u32,
                        None => 0,
                    },
                    time_request: match time_request {
                        Some(d) => d,
                        None => Duration::zero(),
                    },
                    resources,
                },
            )
        },
        _ => Err(invalid_field("request")),
    }
}

/// Reads the requests under a key.
#[verifier::loop_isolation(false)]
pub fn read_requests(table: &Vec<(String, Node)>, key: &str) -> (r: Result<
    ResourceRequestDefs,
    ModelError,
>)
    ensures
        match requests_at(table@, key@) {
            Ok(requests) => r matches Ok(read) && read@ == requests,
            Err(message) => fails_with(r, message),
        },
{
    match find(table, key) {
        None => {
            let requests = ResourceRequestDefs::new(Vec::new());
            proof {
                assert(requests@ =~= Seq::empty());
            }
            Ok(requests)
        },
        Some(Node::Array(items)) => {
            let ghost results = request_results(items@);
            let mut requests: Vec<ResourceRequestDef> = Vec::new();
            let mut i: usize = 0;
            proof {
                assert(results.take(0) =~= Seq::empty());
                assert(requests@.map_values(|request: ResourceRequestDef| request@)
                    =~= Seq::empty());
            }
            while i < items.len()
                invariant
                    i <= items@.len(),
                    collect(results.take(i as int)) == Ok::<
                        Seq<ResourceRequestDefView>,
                        Seq<char>,
                    >(requests@.map_values(|request: ResourceRequestDef| request@)),
                decreases items@.len() - i,
            {
                proof {
                    lemma_collect_next(results, i as int);
                }
                let ghost before = requests@.map_values(|request: ResourceRequestDef| request@);
                match read_request(&items[i]) {
                    Ok(request) => {
                        requests.push(request);
                        proof {
                            assert(requests@.map_values(|request: ResourceRequestDef| request@)
                                =~= before.push(request@));
                        }
                    },
                    Err(e) => {
                        proof {
                            lemma_collect_error(results, i + 1);
                        }
                        return Err(e);
                    },
                }
                i += 1;
            }
            proof {
                assert(results.take(i as int) =~= results);
            }
            Ok(ResourceRequestDefs::new(requests))
        },
        Some(_) => Err(invalid_field(key)),
    }
}

/// Reads from a table how a task is run.
pub fn read_config(table: &Vec<(String, Node)>) -> (r: Result<TaskConfigDef, ModelError>)
    ensures
        match config_of(table@) {
            Ok(config) => r matches Ok(read) && read@ == config,
            Err(message) => fails_with(r, message),
        },
{
    let command = match read_texts(table, "command") {
        Ok(Some(command)) => command,
        Ok(None) => {
            return Err(missing_field("command"));
        },
        Err(e) => {
            return Err(e);
        },
    };
    let env = match read_env(table, "env") {
        Ok(env) => env,
        Err(e) => {
            return Err(e);
        },
    };
    let request = match read_requests(table, "request") {
        Ok(request) => request,
        Err(e) => {
            return Err(e);
        },
    };
    let stdout = match read_text(table, "stdout") {
        Ok(stdout) => stdout,
        Err(e) => {
            return Err(e);
        },
    };
    let stderr = match read_text(table, "stderr") {
        Ok(stderr) => stderr,
        Err(e) => {
            return Err(e);
        },
    };
    let cwd = match read_text(table, "cwd") {
        Ok(cwd) => cwd,
        Err(e) => {
            return Err(e);
        },
    };
    let pin = match read_pin(table, "pin") {
        Ok(pin) => pin,
        Err(e) => {
            return Err(e);
        },
    };
    let task_dir = match read_truth(table, "task_dir") {
        Ok(task_dir) => task_dir,
        Err(e) => {
            return Err(e);
        },
    };
    let time_limit = match read_duration(table, "time_limit") {
        Ok(time_limit) => time_limit,
        Err(e) => {
            return Err(e);
        },
    };
    let priority = match read_number(table, "priority", -0x8000_0000, 0x7fff_ffff) {
        Ok(priority) => priority,
        Err(e) => {
            return Err(e);
        },
    };
    let crash_limit = match read_number(table, "crash_limit", 0, 0xffff_ffff) {
        Ok(crash_limit) => crash_limit,
        Err(e) => {
            return Err(e);
        },
    };
    let stdin = match read_text(table, "stdin") {
        Ok(stdin) => stdin,
        Err(e) => {
            return Err(e);
        },
    };
    Ok(
        TaskConfigDef {
            command,
            env,
            request,
            stdout,
            stderr,
            cwd,
            pin,
            task_dir,
            time_limit,
            priority: match priority {
                Some(n) => n as Priority,
                None => 0,
            },
            crash_limit: match crash_limit {
                Some(n) => n as u32,
                None => 0,
            },
            stdin,
        },
    )
}

/// Reads a value as a task.
pub fn read_task(node: &Node) -> (r: Result<TaskDef, ModelError>)
    ensures
        match task_of(*node) {
            Ok(task) => r matches Ok(read) && read@ == task,
            Err(message) => fails_with(r, message),
        },
{
    match node {
        Node::Table(entries) => {
            let known = config_key_list("id", "deps");
            match check_known(entries, &known) {
                Ok(_) => {},
                Err(e) => {
                    return Err(e);
                },
            }
            let id = match read_number(entries, "id", 0, 0xffff_ffff) {
                Ok(id) => id,
                Err(e) => {
                    return Err(e);
                },
            };
            let deps = match read_task_ids(entries, "deps") {
                Ok(deps) => deps,
                Err(e) => {
                    return Err(e);
                },
            };
            let config = match read_config(entries) {
                Ok(config) => config,
                Err(e) => {
                    return Err(e);
                },
            };
            Ok(
                TaskDef {
                    id: match id {
                        Some(n) => Some(JobTaskId::new(n as u32)),
                        None => None,
                    },
                    config,
                    deps,
                },
            )
        },
        _ => Err(invalid_field("task")),
    }
}

/// Reads the tasks under a key.
#[verifier::loop_isolation(false)]
pub fn read_tasks(table: &Vec<(String, Node)>, key: &str) -> (r: Result<Vec<TaskDef>, ModelError>)
    ensures
        match tasks_at(table@, key@) {
            Ok(tasks) => r matches Ok(read) && tasks_view(read@) == tasks,
            Err(message) => fails_with(r, message),
        },
{
    match find(table, key) {
        None => {
            let tasks: Vec<TaskDef> = Vec::new();
            proof {
                assert(tasks_view(tasks@) =~= Seq::empty());
            }
            Ok(tasks)
        },
        Some(Node::Array(items)) => {
            let ghost results = task_results(items@);
            let mut tasks: Vec<TaskDef> = Vec::new();
            let mut i: usize = 0;
            proof {
                assert(results.take(0) =~= Seq::empty());
                assert(tasks_view(tasks@) =~= Seq::empty());
            }
            while i < items.len()
                invariant
                    i <= items@.len(),
                    collect(results.take(i as int)) == Ok::<Seq<TaskDefView>, Seq<char>>(
                        tasks_view(tasks@),
                    ),
                decreases items@.len() - i,
            {
                proof {
                    lemma_collect_next(results, i as int);
                }
                let ghost before = tasks_view(tasks@);
                match read_task(&items[i]) {
                    Ok(task) => {
                        tasks.push(task);
                        proof {
                            assert(tasks_view(tasks@) =~= before.push(task@));
                        }
                    },
                    Err(e) => {
                        proof {
                            lemma_collect_error(results, i + 1);
                        }
                        return Err(e);
                    },
                }
                i += 1;
            }
            proof {
                assert(results.take(i as int) =~= results);
            }
            Ok(tasks)
        },
        Some(_) => Err(invalid_field(key)),
    }
}

/// Reads a value as an array.
pub fn read_array(node: &Node) -> (r: Result<ArrayDef, ModelError>)
    ensures
        match array_def_of(*node) {
            Ok(array) => r matches Ok(read) && read@ == array,
            Err(message) => fails_with(r, message),
        },
{
    match node {
        Node::Table(entries) => {
            let known = config_key_list("ids", "entries");
            match check_known(entries, &known) {
                Ok(_) => {},
                Err(e) => {
                    return Err(e);
                },
            }
            let ids = match read_array_ids(entries, "ids") {
                Ok(ids) => ids,
                Err(e) => {
                    return Err(e);
                },
            };
            let array_entries = match read_texts(entries, "entries") {
                Ok(Some(array_entries)) => array_entries,
                Ok(None) => {
                    let none: Vec<String> = Vec::new();
                    proof {
                        assert(texts_view(none@) =~= Seq::empty());
                    }
                    none
                },
                Err(e) => {
                    return Err(e);
                },
            };
            let config = match read_config(entries) {
                Ok(config) => config,
                Err(e) => {
                    return Err(e);
                },
            };
            Ok(ArrayDef { ids, entries: array_entries, config })
        },
        _ => Err(invalid_field("array")),
    }
}

impl JobDef {
    /// Reads a job definition from a document, by the schema alone: the
    /// rules of the shape of a job are not checked.
    pub fn read(document: &Node) -> (r: Result<JobDef, ModelError>)
        ensures
            match job_of(*document) {
                Ok(job) => r matches Ok(read) && read@ == job,
                Err(message) => fails_with(r, message),
            },
    {
        match document {
            Node::Table(entries) => {
                let known = job_key_list();
                match check_known(entries, &known) {
                    Ok(_) => {},
                    Err(e) => {
                        return Err(e);
                    },
                }
                let name = match read_text(entries, "name") {
                    Ok(Some(name)) => name,
                    Ok(None) => String::new(),
                    Err(e) => {
                        return Err(e);
                    },
                };
                let max_fails = match read_number(entries, "max_fails", 0, 0xffff_ffff) {
                    Ok(max_fails) => max_fails,
                    Err(e) => {
                        return Err(e);
                    },
                };
                let tasks = match read_tasks(entries, "task") {
                    Ok(tasks) => tasks,
                    Err(e) => {
                        return Err(e);
                    },
                };
                let array = match find(entries, "array") {
                    None => None,
                    Some(node) => match read_array(node) {
                        Ok(array) => Some(array),
                        Err(e) => {
                            return Err(e);
                        },
                    },
                };
                let stream_log = match read_text(entries, "stream_log") {
                    Ok(stream_log) => stream_log,
                    Err(e) => {
                        return Err(e);
                    },
                };
                Ok(
                    JobDef {
                        name,
                        max_fails: match max_fails {
                            Some(n) => Some(n as JobTaskCount),
                            None => None,
                        },
                        tasks,
                        array,
                        stream_log,
                    },
                )
            },
            _ => Err(invalid_field("job")),
        }
    }

    /// Reads a job definition from a document and checks the rules of its
    /// shape. The error is that of the schema where the document does not
    /// keep to it, else that of the first rule of shape that is broken.
    pub fn from_document(document: &Node) -> (r: Result<JobDef, ModelError>)
        ensures
            match valid_job_of(*document) {
                Ok(job) => r matches Ok(read) && read@ == job,
                Err(message) => fails_with(r, message),
            },
    {
        let job = match JobDef::read(document) {
            Ok(job) => job,
            Err(e) => {
                return Err(e);
            },
        };
        match job.validate() {
            Ok(_) => Ok(job),
            Err(e) => Err(e),
        }
    }

    /// Reads a job definition from TOML text and checks the rules of its
    /// shape. A text that is not TOML is an error, as is a document that
    /// does not keep to the schema or to the rules of shape.
    pub fn parse(text: &str) -> (r: Result<JobDef, ModelError>)
        ensures
            match toml_document(text@) {
                None => r matches Err(ModelError::DeserializationError(_)),
                Some(document) => match valid_job_of(document) {
                    Ok(job) => r matches Ok(read) && read@ == job,
                    Err(message) => fails_with(r, message),
                },
            },
    {
        match parse_document(text) {
            Ok(document) => JobDef::from_document(&document),
            Err(e) => Err(e),
        }
    }
}

/// Where one reading fails, all that was to be read is not collected.
pub proof fn lemma_collect_fails<T>(results: Seq<Result<T, Seq<char>>>, k: int)
    requires
        0 <= k < results.len(),
        results[k] is Err,
    ensures
        collect(results) is Err,
{
    lemma_collect_next(results, k);
    lemma_collect_error(results, k + 1);
}

/// A document with a key that a job may not hold defines no job: the
/// error names the first such key.
pub proof fn lemma_unknown_key_rejected(document: Node)
    requires
        document is Table,
        first_unknown(document->Table_0@, job_keys()) is Some,
    ensures
        job_of(document) == Err::<JobDefView, Seq<char>>(
            unknown_field_message(first_unknown(document->Table_0@, job_keys())->0),
        ),
        valid_job_of(document) == job_of(document),
{
}

/// A document with a task that holds a key that a task may not hold
/// defines no job, whatever else the task and the document hold.
pub proof fn lemma_unknown_task_key_rejected(document: Node, k: int)
    requires
        document is Table,
        lookup(document->Table_0@, "task"@) is Some,
        lookup(document->Table_0@, "task"@)->0 is Array,
        0 <= k < lookup(document->Table_0@, "task"@)->0->Array_0@.len(),
        lookup(document->Table_0@, "task"@)->0->Array_0@[k] is Table,
        first_unknown(
            lookup(document->Table_0@, "task"@)->0->Array_0@[k]->Table_0@,
            task_keys(),
        ) is Some,
    ensures
        valid_job_of(document) is Err,
{
    let items = lookup(document->Table_0@, "task"@)->0->Array_0@;
    assert(task_results(items)[k] == task_of(items[k]));
    lemma_collect_fails(task_results(items), k);
}

} // verus!
