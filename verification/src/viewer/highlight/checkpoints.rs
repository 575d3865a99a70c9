//! Remembered highlighting states along long lines, so that a window far into
//! a line need not be highlighted from its start.
use vstd::prelude::*;

use super::xml::XmlPairState;

verus! {

/// A state is remembered at most once per this many chars.
pub const HIGHLIGHT_CHECKPOINT_INTERVAL: usize = 4096;

/// The pairing state of XML tags at a position of a line.
#[derive(Debug)]
pub struct XmlHighlightCheckpoint {
    pub at: usize,
    pub state: XmlPairState,
}

/// Checkpoints in increasing order of position, each with no more open
/// elements than chars before it.
pub open spec fn checkpoints_wf(cps: Seq<XmlHighlightCheckpoint>) -> bool {
    &&& forall|i: int, j: int| 0 <= i < j < cps.len() ==> cps[i].at < cps[j].at
    &&& forall|i: int| 0 <= i < cps.len() ==> (#[trigger] cps[i]).state.open_tags().len() <= cps[i].at
}

/// The checkpoints of one line: inside JSON string values, and along XML.
#[derive(Debug)]
pub struct HighlightCheckpointIndex {
    pub json_value_strings: Vec<XmlHighlightCheckpoint>,
    pub xml_lines: Vec<XmlHighlightCheckpoint>,
}

impl HighlightCheckpointIndex {
    pub open spec fn wf(&self) -> bool {
        checkpoints_wf(self.json_value_strings@) && checkpoints_wf(self.xml_lines@)
    }

    /// An index with nothing remembered.
    pub fn new() -> (index: Self)
        ensures
            index.wf(),
            index.json_value_strings@.len() == 0,
            index.xml_lines@.len() == 0,
    {
        HighlightCheckpointIndex { json_value_strings: Vec::new(), xml_lines: Vec::new() }
    }

    /// The last checkpoint inside JSON string values at or before `at`.
    pub fn json_value_before(&self, at: usize) -> (r: Option<XmlHighlightCheckpoint>)
        requires
            self.wf(),
        ensures
            checkpoint_found(self.json_value_strings@, at, r),
    {
        checkpoint_before(self.json_value_strings.as_slice(), at)
    }

    /// The last checkpoint along XML at or before `at`.
    pub fn xml_line_before(&self, at: usize) -> (r: Option<XmlHighlightCheckpoint>)
        requires
            self.wf(),
        ensures
            checkpoint_found(self.xml_lines@, at, r),
    {
        checkpoint_before(self.xml_lines.as_slice(), at)
    }

    /// Remembers `state` at `at` inside JSON string values, if due.
    pub fn remember_json_value(&mut self, at: usize, state: &XmlPairState)
        requires
            old(self).wf(),
            state.open_tags().len() <= at,
        ensures
            final(self).wf(),
            final(self).xml_lines@ == old(self).xml_lines@,
            remembered(old(self).json_value_strings@, final(self).json_value_strings@, at, state),
    {
        remember_xml_checkpoint(&mut self.json_value_strings, at, state);
    }

    /// Remembers `state` at `at` along XML, if due.
    pub fn remember_xml_line(&mut self, at: usize, state: &XmlPairState)
        requires
            old(self).wf(),
            state.open_tags().len() <= at,
        ensures
            final(self).wf(),
            final(self).json_value_strings@ == old(self).json_value_strings@,
            remembered(old(self).xml_lines@, final(self).xml_lines@, at, state),
    {
        remember_xml_checkpoint(&mut self.xml_lines, at, state);
    }
}

/// `r` is a copy of the last of `cps` at or before `at`, or `None` if there
/// is none.
pub open spec fn checkpoint_found(
    cps: Seq<XmlHighlightCheckpoint>,
    at: usize,
    r: Option<XmlHighlightCheckpoint>,
) -> bool {
    match r {
        None => forall|i: int| 0 <= i < cps.len() ==> (#[trigger] cps[i]).at > at,
        Some(c) => exists|i: int|
            0 <= i < cps.len() && (#[trigger] cps[i]).at == c.at && c.at <= at
                && c.state.open_tags() == cps[i].state.open_tags() && forall|j: int|
                i < j < cps.len() ==> (#[trigger] cps[j]).at > at,
    }
}

/// Checkpoint `i` of `cps` is the last one at or before `at`.
pub open spec fn is_last_before(cps: Seq<XmlHighlightCheckpoint>, at: usize, i: int) -> bool {
    &&& 0 <= i < cps.len()
    &&& cps[i].at <= at
    &&& forall|j: int| i < j < cps.len() ==> (#[trigger] cps[j]).at > at
}

/// Where colouring resumes for a window from `at`: at the last checkpoint
/// at or before it, with its open elements, or at the start of the line
/// with nothing remembered.
pub open spec fn resume_point(cps: Seq<XmlHighlightCheckpoint>, at: usize) -> (
    int,
    Option<Seq<(Seq<char>, usize)>>,
) {
    if exists|i: int| is_last_before(cps, at, i) {
        let i = choose|i: int| is_last_before(cps, at, i);
        (cps[i].at as int, Some(cps[i].state.open_tags()))
    } else {
        (0, None)
    }
}

/// What `checkpoint_before` finds is where colouring resumes.
pub proof fn lemma_found_is_resume_point(
    cps: Seq<XmlHighlightCheckpoint>,
    at: usize,
    r: Option<XmlHighlightCheckpoint>,
)
    requires
        checkpoints_wf(cps),
        checkpoint_found(cps, at, r),
    ensures
        resume_point(cps, at) == (match r {
            Some(c) => (c.at as int, Some(c.state.open_tags())),
            None => (0int, None),
        }),
{
    match r {
        Some(c) => {
            let i = choose|i: int|
                0 <= i < cps.len() && (#[trigger] cps[i]).at == c.at && c.at <= at
                    && c.state.open_tags() == cps[i].state.open_tags() && forall|j: int|
                    i < j < cps.len() ==> (#[trigger] cps[j]).at > at;
            assert(is_last_before(cps, at, i));
            let k = choose|k: int| is_last_before(cps, at, k);
            if k < i {
                assert(cps[i].at > at);
            } else if i < k {
                assert(cps[k].at > at);
            }
            assert(k == i);
        },
        None => {
            assert forall|i: int| !is_last_before(cps, at, i) by {
                if 0 <= i < cps.len() {
                    assert(cps[i].at > at);
                }
            }
        },
    }
}

/// The last checkpoint at or before `at`.
pub fn checkpoint_before(cps: &[XmlHighlightCheckpoint], at: usize) -> (r: Option<
    XmlHighlightCheckpoint,
>)
    requires
        checkpoints_wf(cps@),
    ensures
        checkpoint_found(cps@, at, r),
        r matches Some(c) ==> c.state.open_tags().len() <= c.at,
{
    let mut i = cps.len();
    while i > 0
        invariant
            i <= cps@.len(),
            checkpoints_wf(cps@),
            forall|j: int| i <= j < cps@.len() ==> (#[trigger] cps@[j]).at > at,
        decreases i,
    {
        if cps[i - 1].at <= at {
            let state = cps[i - 1].state.duplicate();
            let found = XmlHighlightCheckpoint { at: cps[i - 1].at, state };
            assert(cps@[i - 1].state.open_tags().len() <= cps@[i - 1].at);
            return Some(found);
        }
        i -= 1;
    }
    None
}

/// `after` is `before` with `state` remembered at `at` when that is at least
/// one interval past the last checkpoint (and not already there).
pub open spec fn remembered(
    before: Seq<XmlHighlightCheckpoint>,
    after: Seq<XmlHighlightCheckpoint>,
    at: usize,
    state: &XmlPairState,
) -> bool {
    let next = if before.len() == 0 {
        HIGHLIGHT_CHECKPOINT_INTERVAL as int
    } else if before.last().at + HIGHLIGHT_CHECKPOINT_INTERVAL > usize::MAX {
        usize::MAX as int
    } else {
        before.last().at + HIGHLIGHT_CHECKPOINT_INTERVAL
    };
    if at < next || (before.len() > 0 && before.last().at == at) {
        after == before
    } else {
        &&& after.len() == before.len() + 1
        &&& after.drop_last() == before
        &&& after.last().at == at
        &&& after.last().state.open_tags() == state.open_tags()
    }
}

/// Remembers `state` at `at` if that is at least one interval past the last
/// checkpoint.
pub fn remember_xml_checkpoint(cps: &mut Vec<XmlHighlightCheckpoint>, at: usize, state: &XmlPairState)
    requires
        checkpoints_wf(old(cps)@),
        state.open_tags().len() <= at,
    ensures
        checkpoints_wf(final(cps)@),
        remembered(old(cps)@, final(cps)@, at, state),
{
    let len = cps.len();
    let next = if len == 0 {
        HIGHLIGHT_CHECKPOINT_INTERVAL
    } else if cps[len - 1].at > usize::MAX - HIGHLIGHT_CHECKPOINT_INTERVAL {
        usize::MAX
    } else {
        cps[len - 1].at + HIGHLIGHT_CHECKPOINT_INTERVAL
    };
    if at < next {
        return;
    }
    if len > 0 && cps[len - 1].at == at {
        return;
    }
    let ghost before = cps@;
    let copy = state.duplicate();
    cps.push(XmlHighlightCheckpoint { at, state: copy });
    proof {
        assert(cps@.drop_last() =~= before);
        assert forall|i: int, j: int| 0 <= i < j < cps@.len() implies cps@[i].at < cps@[j].at by {
            if j == cps@.len() - 1 && i < j {
                assert(before[i].at <= before.last().at);
            }
        }
        assert forall|i: int| 0 <= i < cps@.len() implies (#[trigger] cps@[i]).state.open_tags().len()
            <= cps@[i].at by {
            if i < before.len() {
                assert(cps@[i] == before[i]);
            }
        }
    }
}

} // verus!
