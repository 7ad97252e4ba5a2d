//! Testing whether a frame is one that the wire can carry and give back.

use crate::resp::{
    entries_view, entries_wf, frame_wf, frames_view, frames_wf, lemma_entries_view,
    lemma_frames_view, RespFrame,
};
use crate::resp::map::sorted_keys;
use crate::resp::text::{is_plain_line, key_before, lemma_text_lt_order, plain_text, text_lt};
use vstd::prelude::*;

verus! {

/// Whether each key of `m` comes before the next.
pub open spec fn stepwise_sorted<V>(m: Seq<(Seq<char>, V)>) -> bool {
    forall|i: int| 0 < i < m.len() ==> text_lt(m[i - 1].0, (#[trigger] m[i]).0)
}

/// Keys of which each comes before the next ascend.
pub proof fn lemma_stepwise_sorted<V>(m: Seq<(Seq<char>, V)>, i: int, j: int)
    requires
        stepwise_sorted(m),
        0 <= i < j < m.len(),
    ensures
        text_lt(m[i].0, m[j].0),
    decreases j - i,
{
    if i < j - 1 {
        lemma_stepwise_sorted(m, i, j - 1);
        lemma_text_lt_order(m[i].0, m[j - 1].0, m[j].0);
    }
}

/// Tests whether every frame of `v` is well formed.
pub fn are_well_formed(v: &Vec<RespFrame>) -> (r: bool)
    ensures
        r == frames_wf(frames_view(v@)),
    decreases v,
{
    proof {
        lemma_frames_view(v@);
    }
    let mut i: usize = 0;
    while i < v.len()
        invariant
            i <= v.len(),
            frames_view(v@).len() == v.len(),
            forall|j: int| 0 <= j < v.len() ==> (#[trigger] frames_view(v@)[j]) == v@[j]@,
            forall|j: int| 0 <= j < i ==> frame_wf(#[trigger] frames_view(v@)[j]),
        decreases v.len() - i,
    {
        let item = &v[i];
        if !is_well_formed(item) {
            proof {
                assert(!frame_wf(frames_view(v@)[i as int]));
            }
            return false;
        }
        i += 1;
    }
    true
}

/// Tests whether the entries of a map ascend by their keys, and each has a
/// key that fits on a line and a value that is well formed.
pub fn are_well_formed_entries(v: &Vec<(String, RespFrame)>) -> (r: bool)
    ensures
        r == (sorted_keys(entries_view(v@)) && entries_wf(entries_view(v@))),
    decreases v,
{
    let ghost m = entries_view(v@);
    proof {
        lemma_entries_view(v@);
    }
    let mut i: usize = 0;
    while i < v.len()
        invariant
            i <= v.len(),
            m == entries_view(v@),
            m.len() == v.len(),
            forall|j: int| 0 <= j < v.len() ==> (#[trigger] m[j]) == (v@[j].0@, v@[j].1@),
            forall|j: int| 0 <= j < i ==> plain_text((#[trigger] m[j]).0) && frame_wf(m[j].1),
            forall|j: int| 0 < j < i ==> text_lt(m[j - 1].0, (#[trigger] m[j]).0),
        decreases v.len() - i,
    {
        let entry = &v[i];
        if i > 0 && !key_before(v[i - 1].0.as_str(), entry.0.as_str()) {
            proof {
                assert(!text_lt(m[i - 1].0, m[i as int].0));
            }
            return false;
        }
        if !is_plain_line(entry.0.as_str().as_bytes()) || !is_well_formed(&entry.1) {
            proof {
                assert(!(plain_text(m[i as int].0) && frame_wf(m[i as int].1)));
            }
            return false;
        }
        i += 1;
    }
    proof {
        assert forall|a: int, b: int| 0 <= a < b < m.len() implies text_lt(
            #[trigger] m[a].0,
            #[trigger] m[b].0,
        ) by {
            lemma_stepwise_sorted(m, a, b);
        }
    }
    true
}

/// Tests whether `frame` is well formed: whether its bytes on the wire are
/// read back as the frame itself.
pub fn is_well_formed(frame: &RespFrame) -> (r: bool)
    ensures
        r == frame_wf(frame@),
    decreases frame,
{
    match frame {
        RespFrame::SimpleSting(s) => is_plain_line(s.0.as_str().as_bytes()),
        RespFrame::Error(e) => is_plain_line(e.0.as_str().as_bytes()),
        RespFrame::BulkString(b) => {
            proof {
                assert(b.0.len() <= usize::MAX);
            }
            true
        },
        RespFrame::Array(a) => {
            proof {
                lemma_frames_view(a.0@);
                assert(a.0.len() <= usize::MAX);
            }
            are_well_formed(&a.0)
        },
        RespFrame::Double(d) => {
            d.canonical_form();
            true
        },
        RespFrame::RespMap(m) => {
            proof {
                lemma_entries_view(m.entries@);
                assert(m.entries.len() <= usize::MAX);
            }
            are_well_formed_entries(&m.entries)
        },
        RespFrame::RespSet(s) => {
            proof {
                lemma_frames_view(s.0@);
                assert(s.0.len() <= usize::MAX);
            }
            are_well_formed(&s.0)
        },
        _ => true,
    }
}

impl RespFrame {
    /// Tests whether the frame is well formed: whether its bytes on the
    /// wire are read back as the frame itself.
    pub fn is_well_formed(&self) -> (r: bool)
        ensures
            r == frame_wf(self@),
    {
        is_well_formed(self)
    }
}

} // verus!
