//! From the segments of a transcription to its text.

use crate::text::{trim, trimmed};
use vstd::prelude::*;
use vstd::string::StringExecFns;

verus! {

/// The texts of the segments that could be read, one after the other.
pub open spec fn readable(segments: Seq<Result<String, String>>) -> Seq<char>
    decreases segments.len(),
{
    if segments.len() == 0 {
        seq![]
    } else {
        match segments.last() {
            Ok(text) => readable(segments.drop_last()) + text@,
            Err(_) => readable(segments.drop_last()),
        }
    }
}

/// The text of a transcription: its readable segments, without the white space
/// at the two ends.
pub fn transcript(segments: &Vec<Result<String, String>>) -> (text: String)
    ensures
        text@ == trimmed(readable(segments@)),
{
    let mut result = String::new();
    let mut i: usize = 0;
    while i < segments.len()
        invariant
            i <= segments@.len(),
            result@ == readable(segments@.take(i as int)),
        decreases segments@.len() - i,
    {
        assert(segments@.take(i + 1).drop_last() =~= segments@.take(i as int));
        match &segments[i] {
            Ok(text) => {
                result.append(text.as_str());
            },
            Err(_) => {},
        }
        i += 1;
    }
    assert(segments@.take(i as int) =~= segments@);
    trim(result.as_str())
}

/// Segments are read one after the other: the text of two runs of segments is the
/// text of the first and then that of the second.
pub proof fn segments_are_read_in_order(
    first: Seq<Result<String, String>>,
    second: Seq<Result<String, String>>,
)
    ensures
        readable(first + second) == readable(first) + readable(second),
    decreases second.len(),
{
    if second.len() == 0 {
        assert(first + second =~= first);
        assert(readable(first) + readable(second) =~= readable(first));
    } else {
        assert((first + second).drop_last() =~= first + second.drop_last());
        segments_are_read_in_order(first, second.drop_last());
        assert(readable(first + second) =~= readable(first) + readable(second));
    }
}

/// A segment that can be read is read as its text, one that cannot as nothing.
pub proof fn segment_is_read_as_its_text(segment: Result<String, String>)
    ensures
        readable(seq![segment]) == match segment {
            Ok(text) => text@,
            Err(_) => seq![],
        },
{
    assert(seq![segment].drop_last() =~= seq![]);
    assert(readable(seq![]) =~= seq![]);
    assert(readable(seq![segment]) =~= match segment {
        Ok(text) => text@,
        Err(_) => seq![],
    });
}

} // verus!
