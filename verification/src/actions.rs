//! The action vocabulary of the tool, and the repository-wide part of the
//! `start` action: stopping every currently active document.

use vstd::prelude::*;
use crate::datetime::Timestamp;
use crate::model::{DiaryDoc, DocView, spec_is_active, stop_spec};

verus! {

/// What a query prints.
#[derive(Clone, Copy, PartialEq, Eq, Structural, Debug)]
pub enum QueryOutput {
    /// A table of documents and time spent.
    Table,
    /// The matched paths alone.
    Paths,
    /// A table of tags and time spent, with ticket-like tags left out.
    Tags,
}

/// An action on a selected document.
#[derive(Clone, Copy, PartialEq, Eq, Structural, Debug)]
pub enum ActionKind {
    /// Begin tracking: insert a new start timestamp.
    Start,
    /// End tracking: close the open entry with a stop timestamp.
    Stop,
    /// Send the document's closed ranges to the remote tracker.
    SyncWorklog,
}

/// The active documents, each stopped at `now`, in order.
pub open spec fn spec_stop_active(s: Seq<DocView>, now: Timestamp) -> Seq<DocView>
    decreases s.len(),
{
    if s.len() == 0 {
        Seq::empty()
    } else {
        spec_stop_active(s.drop_last(), now) + if spec_is_active(s.last()) {
            seq![stop_spec(s.last(), now)]
        } else {
            Seq::empty()
        }
    }
}

/// Stops every active document at `now` and returns the stopped copies; the
/// caller writes them back.
pub fn stop_active_docs(data: Vec<DiaryDoc>, now: Timestamp) -> (r: Vec<DiaryDoc>)
    requires
        now.wf(),
    ensures
        crate::query::docs_view(r@) == spec_stop_active(crate::query::docs_view(data@), now),
{
    let ghost views = crate::query::docs_view(data@);
    let n = data.len();
    let mut r: Vec<DiaryDoc> = Vec::new();
    let mut i: usize = 0;
    proof {
        assert(crate::query::docs_view(r@) =~= spec_stop_active(views.take(0), now));
    }
    while i < n
        invariant
            i <= n,
            n == data@.len(),
            now.wf(),
            views == crate::query::docs_view(data@),
            crate::query::docs_view(r@) == spec_stop_active(views.take(i as int), now),
        decreases n - i,
    {
        let ghost prev = r@;
        proof {
            assert(views.take(i as int + 1).drop_last() =~= views.take(i as int));
            assert(views.take(i as int + 1).last() == data@[i as int]@);
        }
        if data[i].is_active() {
            let mut d = data[i].clone();
            let res = d.stop(now);
            proof {
                assert(res is Ok);
            }
            r.push(d);
            proof {
                assert(crate::query::docs_view(r@) =~= crate::query::docs_view(prev).push(
                    stop_spec(data@[i as int]@, now)));
            }
        }
        proof {
            assert(crate::query::docs_view(r@) =~= spec_stop_active(
                views.take(i as int + 1), now));
        }
        i = i + 1;
    }
    proof {
        assert(views.take(n as int) =~= views);
    }
    r
}

} // verus!
