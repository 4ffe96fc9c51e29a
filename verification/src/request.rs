//! What a task asks for: the resources, each with the way in which it is to
//! be taken from what a worker offers.

use vstd::prelude::*;
use vstd::string::StringExecFns;
use smallvec::SmallVec;
use crate::error::ModelError;
use crate::human_time::Duration;
use crate::ids::{GenericResourceAmount, NumOfNodes};
use crate::text::{chars_of, decimal_value, leading_digits, read_number, rest_is};

verus! {

/// How much of a resource a task asks for, and how it is to be taken.
#[derive(Clone, Copy, Debug, PartialEq, Eq, Structural)]
pub enum AllocationRequest {
    /// The given amount, from as few groups as can be.
    Compact(GenericResourceAmount),
    /// The given amount, from the fewest groups that can hold it, or not at
    /// all.
    ForceCompact(GenericResourceAmount),
    /// The given amount, from as many groups as can be.
    Scatter(GenericResourceAmount),
    /// All that the worker offers.
    All,
}

/// What a text asks for, if it is written as an allocation request: the
/// word `all`, or an amount in decimal digits, alone or followed by one
/// space and one of the words `compact`, `compact!` and `scatter`. An
/// amount alone is taken compactly. The amount must fit in 64 bits.
pub open spec fn allocation_request(text: Seq<char>) -> Option<AllocationRequest> {
    let n = leading_digits(text) as int;
    let amount = decimal_value(text.take(n));
    let policy = text.skip(n);
    if n == 0 {
        if text == "all"@ {
            Some(AllocationRequest::All)
        } else {
            None
        }
    } else if amount > u64::MAX {
        None
    } else if policy.len() == 0 || policy == " compact"@ {
        Some(AllocationRequest::Compact(amount as u64))
    } else if policy == " compact!"@ {
        Some(AllocationRequest::ForceCompact(amount as u64))
    } else if policy == " scatter"@ {
        Some(AllocationRequest::Scatter(amount as u64))
    } else {
        None
    }
}

/// The message of the error for a text that is no allocation request.
pub open spec fn invalid_request_message(text: Seq<char>) -> Seq<char> {
    "Invalid allocation request: "@ + text
}

/// Reads an allocation request; for a text that is none, the error names
/// the text.
pub fn parse_allocation_request(text: &str) -> (r: Result<AllocationRequest, ModelError>)
    ensures
        match allocation_request(text@) {
            Some(request) => r == Ok::<AllocationRequest, ModelError>(request),
            None => r matches Err(ModelError::DeserializationError(message)) && message@
                == invalid_request_message(text@),
        },
{
    let chars = chars_of(text);
    let (read, n) = read_number(&chars, 0);
    proof {
        assert(chars@.skip(0) =~= chars@);
        assert(chars@.subrange(0, n as int) =~= chars@.take(n as int));
        reveal_strlit("all");
        reveal_strlit(" compact");
        reveal_strlit(" compact!");
        reveal_strlit(" scatter");
    }
    let request = match read {
        None => if n == 0 {
            if rest_is(&chars, 0, "all") {
                Some(AllocationRequest::All)
            } else {
                None
            }
        } else {
            None
        },
        Some(amount) => if n == chars.len() || rest_is(&chars, n, " compact") {
            Some(AllocationRequest::Compact(amount))
        } else if rest_is(&chars, n, " compact!") {
            Some(AllocationRequest::ForceCompact(amount))
        } else if rest_is(&chars, n, " scatter") {
            Some(AllocationRequest::Scatter(amount))
        } else {
            None
        },
    };
    match request {
        Some(request) => Ok(request),
        None => {
            let mut message = "Invalid allocation request: ".to_owned();
            message.append(text);
            Err(ModelError::DeserializationError(message))
        },
    }
}

/// One resource that a task asks for.
#[derive(Debug)]
pub struct ResourceRequestEntry {
    pub resource: String,
    pub policy: AllocationRequest,
}

/// Mathematical value of a [`ResourceRequestEntry`].
pub struct ResourceRequestEntryView {
    pub resource: Seq<char>,
    pub policy: AllocationRequest,
}

impl View for ResourceRequestEntry {
    type V = ResourceRequestEntryView;

    open spec fn view(&self) -> ResourceRequestEntryView {
        ResourceRequestEntryView { resource: self.resource@, policy: self.policy }
    }
}

/// The resources that a task asks for, in the order in which they were
/// given. Most tasks ask for very few, and a `SmallVec` keeps up to three
/// without a heap allocation.
#[verifier::external_body]
#[derive(Debug)]
pub struct ResourceRequestEntries {
    items: SmallVec<[ResourceRequestEntry; 3]>,
}

/// The entries that a [`ResourceRequestEntries`] holds, first to last.
pub uninterp spec fn request_entries(entries: ResourceRequestEntries) -> Seq<ResourceRequestEntry>;

impl View for ResourceRequestEntries {
    type V = Seq<ResourceRequestEntryView>;

    open spec fn view(&self) -> Seq<ResourceRequestEntryView> {
        request_entries(*self).map_values(|entry: ResourceRequestEntry| entry@)
    }
}

impl ResourceRequestEntries {
    /// Calls `SmallVec::from_vec`, which takes the items of a `Vec` over as
    /// they stand.
    ///
    /// Trusted: the result holds the items of `items`, in their order.
    #[verifier::external_body]
    fn from_vec(items: Vec<ResourceRequestEntry>) -> (entries: Self)
        ensures
            request_entries(entries) == items@,
    {
        ResourceRequestEntries { items: SmallVec::from_vec(items) }
    }

    /// Calls `SmallVec::as_slice`, which lends the items as a slice.
    ///
    /// Trusted: the slice holds the entries, in their order.
    #[verifier::external_body]
    fn as_slice(&self) -> (items: &[ResourceRequestEntry])
        ensures
            items@ == request_entries(*self),
    {
        self.items.as_slice()
    }

    /// No entries.
    pub fn new() -> (entries: Self)
        ensures
            entries@ == Seq::<ResourceRequestEntryView>::empty(),
    {
        let entries = Self::from_vec(Vec::new());
        proof {
            assert(entries@ =~= Seq::<ResourceRequestEntryView>::empty());
        }
        entries
    }

    /// The number of entries.
    pub fn len(&self) -> (n: usize)
        ensures
            n == self@.len(),
    {
        self.as_slice().len()
    }

    /// The entry at place `i`, if there are that many.
    pub fn get(&self, i: usize) -> (r: Option<&ResourceRequestEntry>)
        ensures
            match r {
                Some(entry) => i < self@.len() && entry@ == self@[i as int],
                None => i >= self@.len(),
            },
    {
        let items = self.as_slice();
        if i < items.len() {
            Some(&items[i])
        } else {
            None
        }
    }
}

/// What a task asks of the workers that run it.
#[derive(Debug)]
pub struct ResourceRequest {
    /// The number of workers that the task needs; zero where it names none.
    pub n_nodes: NumOfNodes,
    pub resources: ResourceRequestEntries,
    /// The time that a worker must still have before it takes the task.
    pub min_time: Duration,
}

/// An amount as a job definition gives it: a number, or a text that is read
/// as an allocation request.
#[derive(Debug)]
pub enum IntOrString {
    Int(u64),
    String(String),
}

impl IntOrString {
    /// What the amount asks for: a number asks for that many units, taken
    /// compactly; a text is read as an allocation request.
    pub open spec fn policy(self) -> Option<AllocationRequest> {
        match self {
            IntOrString::Int(n) => Some(AllocationRequest::Compact(n)),
            IntOrString::String(text) => allocation_request(text@),
        }
    }

    /// The text of a textual amount; the empty text for a number.
    pub open spec fn text(self) -> Seq<char> {
        match self {
            IntOrString::Int(_) => Seq::empty(),
            IntOrString::String(text) => text@,
        }
    }
}

/// The entries that named amounts stand for, or the message of the error
/// for the first amount that is no allocation request.
pub open spec fn resolve_entries(items: Seq<(String, IntOrString)>) -> Result<
    Seq<ResourceRequestEntryView>,
    Seq<char>,
>
    decreases items.len(),
{
    if items.len() == 0 {
        Ok(Seq::empty())
    } else {
        match items[0].1.policy() {
            None => Err(invalid_request_message(items[0].1.text())),
            Some(policy) => match resolve_entries(items.drop_first()) {
                Ok(rest) => Ok(
                    seq![ResourceRequestEntryView { resource: items[0].0@, policy }] + rest,
                ),
                Err(message) => Err(message),
            },
        }
    }
}

/// Turns named amounts, as a job definition gives them, into the entries
/// of a resource request, in their order. A number asks for that many
/// units, taken compactly; a text is read as an allocation request.
pub fn deserialize_resource_entries(items: Vec<(String, IntOrString)>) -> (r: Result<
    ResourceRequestEntries,
    ModelError,
>)
    ensures
        match resolve_entries(items@) {
            Ok(entries) => r matches Ok(resolved) && resolved@ == entries,
            Err(message) => r matches Err(ModelError::DeserializationError(text)) && text@ == message,
        },
{
    let mut result: Vec<ResourceRequestEntry> = Vec::new();
    let mut i: usize = 0;
    proof {
        assert(items@.skip(0) =~= items@);
    }
    while i < items.len()
        invariant
            i <= items@.len(),
            resolve_entries(items@) == match resolve_entries(items@.skip(i as int)) {
                Ok(rest) => Ok::<Seq<ResourceRequestEntryView>, Seq<char>>(
                    result@.map_values(|entry: ResourceRequestEntry| entry@) + rest,
                ),
                Err(message) => Err(message),
            },
        decreases items@.len() - i,
    {
        proof {
            assert(items@.skip(i as int).drop_first() =~= items@.skip(i + 1));
            assert(items@.skip(i as int)[0] == items@[i as int]);
        }
        let policy = match &items[i].1 {
            IntOrString::Int(n) => AllocationRequest::Compact(*n),
            IntOrString::String(text) => {
                match parse_allocation_request(text.as_str()) {
                    Ok(policy) => policy,
                    Err(e) => {
                        return Err(e);
                    },
                }
            },
        };
        let ghost before = result@.map_values(|entry: ResourceRequestEntry| entry@);
        let entry = ResourceRequestEntry { resource: items[i].0.clone(), policy };
        result.push(entry);
        proof {
            let after = result@.map_values(|entry: ResourceRequestEntry| entry@);
            assert(after =~= before.push(entry@));
            match resolve_entries(items@.skip(i + 1)) {
                Ok(rest) => {
                    assert(before + (seq![entry@] + rest) =~= after + rest);
                },
                Err(_) => {},
            }
        }
        i += 1;
    }
    proof {
        assert(result@.map_values(|entry: ResourceRequestEntry| entry@) + Seq::empty()
            =~= result@.map_values(|entry: ResourceRequestEntry| entry@));
    }
    Ok(ResourceRequestEntries::from_vec(result))
}

} // verus!
