//! The ids of the tasks of an array job.

use vstd::prelude::*;
use vstd::string::StringExecFns;
use crate::error::ModelError;
use crate::ids::JobTaskCount;
use crate::text::{chars_of, decimal_value, leading_digits, read_number};

verus! {

/// A run of consecutive ids: `count` ids from `start` on.
#[derive(Clone, Copy, Debug, PartialEq, Eq, Structural)]
pub struct IntRange {
    pub start: u32,
    pub count: u32,
}

impl IntRange {
    /// The run holds an id, and its ids fit in 32 bits.
    pub open spec fn valid(self) -> bool {
        self.count >= 1 && self.start + self.count - 1 <= u32::MAX
    }
}

/// The number of ids of some runs, taken together.
pub open spec fn total_count(ranges: Seq<IntRange>) -> nat
    decreases ranges.len(),
{
    if ranges.len() == 0 {
        0
    } else {
        total_count(ranges.drop_last()) + ranges.last().count as nat
    }
}

/// Whether runs can make up the ids of an array job: each holds an id and
/// fits in 32 bits, and so does their number of ids taken together.
pub open spec fn ranges_valid(ranges: Seq<IntRange>) -> bool {
    &&& forall|i: int| 0 <= i < ranges.len() ==> (#[trigger] ranges[i]).valid()
    &&& total_count(ranges) <= u32::MAX
}

/// The ids of the tasks of an array job, as runs of consecutive ids.
#[derive(Debug)]
pub struct IntArray {
    ranges: Vec<IntRange>,
}

impl View for IntArray {
    type V = Seq<IntRange>;

    closed spec fn view(&self) -> Seq<IntRange> {
        self.ranges@
    }
}

/// The first runs hold no more ids than all of them.
proof fn lemma_total_count_grows(ranges: Seq<IntRange>, k: int)
    requires
        0 <= k <= ranges.len(),
    ensures
        total_count(ranges.take(k)) <= total_count(ranges),
    decreases ranges.len(),
{
    if k < ranges.len() {
        lemma_total_count_grows(ranges.drop_last(), k);
        assert(ranges.drop_last().take(k) =~= ranges.take(k));
    } else {
        assert(ranges.take(k) =~= ranges);
    }
}

impl IntArray {
    #[verifier::type_invariant]
    spec fn well_formed(self) -> bool {
        ranges_valid(self.ranges@)
    }

    /// The ids of the given runs, if the runs can make up the ids of an
    /// array job.
    pub fn new(ranges: Vec<IntRange>) -> (r: Option<Self>)
        ensures
            match r {
                Some(array) => ranges_valid(ranges@) && array@ == ranges@,
                None => !ranges_valid(ranges@),
            },
    {
        let mut total: u32 = 0;
        let mut i: usize = 0;
        proof {
            assert(ranges@.take(0) =~= Seq::empty());
        }
        while i < ranges.len()
            invariant
                i <= ranges@.len(),
                total == total_count(ranges@.take(i as int)),
                forall|k: int| 0 <= k < i ==> (#[trigger] ranges@[k]).valid(),
            decreases ranges@.len() - i,
        {
            let range = ranges[i];
            proof {
                assert(ranges@.take(i + 1).drop_last() =~= ranges@.take(i as int));
                assert(ranges@.take(i + 1).last() == range);
                lemma_total_count_grows(ranges@, i + 1);
            }
            if range.count == 0 || range.start > u32::MAX - (range.count - 1) {
                return None;
            }
            if total > u32::MAX - range.count {
                return None;
            }
            total += range.count;
            i += 1;
        }
        proof {
            assert(ranges@.take(i as int) =~= ranges@);
        }
        Some(IntArray { ranges })
    }

    /// The number of ids.
    pub fn id_count(&self) -> (n: JobTaskCount)
        ensures
            n == total_count(self@),
            ranges_valid(self@),
    {
        proof {
            use_type_invariant(self);
        }
        let mut total: u32 = 0;
        let mut i: usize = 0;
        proof {
            assert(self.ranges@.take(0) =~= Seq::empty());
        }
        while i < self.ranges.len()
            invariant
                i <= self.ranges@.len(),
                total == total_count(self.ranges@.take(i as int)),
                total_count(self.ranges@) <= u32::MAX,
            decreases self.ranges@.len() - i,
        {
            proof {
                assert(self.ranges@.take(i + 1).drop_last() =~= self.ranges@.take(i as int));
                assert(self.ranges@.take(i + 1).last() == self.ranges@[i as int]);
                lemma_total_count_grows(self.ranges@, i + 1);
            }
            total += self.ranges[i].count;
            i += 1;
        }
        proof {
            assert(self.ranges@.take(i as int) =~= self.ranges@);
        }
        total
    }
}

/// The pieces of a text that its commas part: one more than it has commas.
pub open spec fn pieces(text: Seq<char>) -> Seq<Seq<char>>
    decreases text.len(),
{
    if text.len() == 0 {
        seq![Seq::empty()]
    } else {
        let before = pieces(text.drop_last());
        if text.last() == ',' {
            before.push(Seq::empty())
        } else {
            before.update(before.len() - 1, before.last().push(text.last()))
        }
    }
}

/// The run of ids that a piece of text stands for, if it stands for one: a
/// number in decimal digits stands for that id alone; two numbers with a
/// hyphen between them stand for the ids from the first to the second. The
/// ids must fit in 32 bits, the second must not be smaller than the first,
/// and so must the number of ids.
pub open spec fn range_of(piece: Seq<char>) -> Option<IntRange> {
    let n = leading_digits(piece) as int;
    let first = decimal_value(piece.take(n));
    if n == 0 || first > u32::MAX {
        None
    } else if n == piece.len() {
        Some(IntRange { start: first as u32, count: 1 })
    } else if piece[n] != '-' {
        None
    } else {
        let rest = piece.skip(n + 1);
        let last = decimal_value(rest);
        if rest.len() == 0 || leading_digits(rest) != rest.len() || last > u32::MAX || last < first
            || last - first + 1 > u32::MAX {
            None
        } else {
            Some(IntRange { start: first as u32, count: (last - first + 1) as u32 })
        }
    }
}

/// The runs of ids that a text stands for, if it stands for some: runs
/// with commas between them, which hold no more ids together than fit in
/// 32 bits.
pub open spec fn array_of(text: Seq<char>) -> Option<Seq<IntRange>> {
    let parts = pieces(text);
    let ranges = parts.map_values(|piece: Seq<char>| range_of(piece)->0);
    if (forall|i: int| 0 <= i < parts.len() ==> range_of(#[trigger] parts[i]) is Some)
        && ranges_valid(ranges) {
        Some(ranges)
    } else {
        None
    }
}

/// The message of the error for a text that stands for no ids.
pub open spec fn invalid_array_message(text: Seq<char>) -> Seq<char> {
    "Invalid array specification: "@ + text
}

/// The characters of some pieces of text.
spec fn texts(parts: Seq<Vec<char>>) -> Seq<Seq<char>> {
    parts.map_values(|part: Vec<char>| part@)
}

/// Parts a text at its commas.
fn split_at_commas(chars: &Vec<char>) -> (parts: Vec<Vec<char>>)
    ensures
        texts(parts@) == pieces(chars@),
{
    let mut parts: Vec<Vec<char>> = Vec::new();
    let mut current: Vec<char> = Vec::new();
    let mut i: usize = 0;
    proof {
        assert(chars@.take(0) =~= Seq::empty());
        assert(texts(parts@).push(current@) =~= pieces(chars@.take(0)));
    }
    while i < chars.len()
        invariant
            i <= chars@.len(),
            texts(parts@).push(current@) == pieces(chars@.take(i as int)),
        decreases chars@.len() - i,
    {
        let ghost before = texts(parts@);
        let ghost piece = current@;
        let c = chars[i];
        proof {
            assert(chars@.take(i + 1).drop_last() =~= chars@.take(i as int));
            assert(chars@.take(i + 1).last() == c);
        }
        if c == ',' {
            parts.push(current);
            current = Vec::new();
            proof {
                assert(texts(parts@) =~= before.push(piece));
            }
        } else {
            current.push(c);
            proof {
                assert(before.push(current@) =~= before.push(piece).update(
                    before.len() as int,
                    piece.push(c),
                ));
            }
        }
        i += 1;
    }
    proof {
        assert(chars@.take(i as int) =~= chars@);
    }
    let ghost before = texts(parts@);
    parts.push(current);
    proof {
        assert(texts(parts@) =~= before.push(current@));
    }
    parts
}

/// Reads a piece of text as a run of ids.
fn parse_range(piece: &Vec<char>) -> (r: Option<IntRange>)
    ensures
        r == range_of(piece@),
{
    let (first, n) = read_number(piece, 0);
    proof {
        assert(piece@.skip(0) =~= piece@);
        assert(piece@.subrange(0, n as int) =~= piece@.take(n as int));
    }
    let first = match first {
        Some(first) => first,
        None => {
            return None;
        },
    };
    if first > 0xffff_ffff {
        return None;
    }
    if n == piece.len() {
        return Some(IntRange { start: first as u32, count: 1 });
    }
    if piece[n] != '-' {
        return None;
    }
    let (last, m) = read_number(piece, n + 1);
    proof {
        if m == piece@.len() {
            assert(piece@.subrange(n + 1, m as int) =~= piece@.skip(n + 1));
        }
    }
    if m != piece.len() {
        return None;
    }
    let last = match last {
        Some(last) => last,
        None => {
            return None;
        },
    };
    if last > 0xffff_ffff || last < first || last - first + 1 > 0xffff_ffff {
        return None;
    }
    Some(IntRange { start: first as u32, count: (last - first + 1) as u32 })
}

/// Reads the ids of an array job: runs of ids with commas between them,
/// such as `5`, `1-10` or `1-3,8,20-29`. For a text that stands for no
/// ids, the error names the text.
pub fn parse_array(text: &str) -> (r: Result<IntArray, ModelError>)
    ensures
        match array_of(text@) {
            Some(ranges) => r matches Ok(array) && array@ == ranges,
            None => r matches Err(ModelError::DeserializationError(message)) && message@
                == invalid_array_message(text@),
        },
{
    let chars = chars_of(text);
    let parts = split_at_commas(&chars);
    let ghost all = pieces(text@);
    let mut ranges: Vec<IntRange> = Vec::new();
    let mut valid = true;
    let mut i: usize = 0;
    while i < parts.len() && valid
        invariant
            i <= parts@.len(),
            all == texts(parts@),
            valid ==> ranges@.len() == i,
            valid ==> forall|k: int|
                0 <= k < i ==> range_of(#[trigger] all[k]) == Some(ranges@[k]),
            !valid ==> exists|k: int| 0 <= k < all.len() && range_of(#[trigger] all[k]) is None,
        decreases parts@.len() - i + if valid { 1int } else { 0int },
    {
        proof {
            assert(all[i as int] == parts@[i as int]@);
        }
        match parse_range(&parts[i]) {
            Some(range) => {
                ranges.push(range);
                i += 1;
            },
            None => {
                valid = false;
            },
        }
    }
    let array = if valid {
        proof {
            assert(ranges@ =~= all.map_values(|piece: Seq<char>| range_of(piece)->0));
        }
        IntArray::new(ranges)
    } else {
        None
    };
    match array {
        Some(array) => Ok(array),
        None => {
            let mut message = "Invalid array specification: ".to_owned();
            message.append(text);
            Err(ModelError::DeserializationError(message))
        },
    }
}

} // verus!
