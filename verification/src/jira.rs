//! The sync-target boundary: the shapes of remote ticket data, and the pure
//! planning of a worklog upload. The library decides which ranges to send;
//! transmitting them is the caller's affair.

use vstd::prelude::*;
use crate::datetime::{Timestamp, spec_total_seconds, total_seconds, spec_parse_ts};
use crate::model::{DiaryDoc, WorklogRange, spec_ranges, spec_parse_entry};
use crate::text::{has_ch, last_ix, is_last_ix, lemma_last_ix, chars_of, find_char_last,
    copy_range};

verus! {

/// One worklog entry as the remote tracker reports it.
pub struct JiraWorklog {
    pub time_spent_seconds: i64,
    pub started: String,
    pub id: String,
}

/// A remote ticket.
pub struct JiraTicket {
    pub url: String,
    pub key: String,
    pub fields: JiraTicketFields,
}

pub struct JiraTicketFields {
    pub description: Option<String>,
    pub summary: String,
    pub comment: JiraCommentHolder,
    pub creator: JiraAuthor,
    pub timetracking: JiraTimetracking,
}

pub struct JiraCommentHolder {
    pub comments: Vec<JiraComment>,
}

pub struct JiraComment {
    pub author: JiraAuthor,
    pub body: String,
}

pub struct JiraAuthor {
    pub display_name: String,
}

pub struct JiraTimetracking {
    pub original_estimate: Option<String>,
}

/// A failure reported by the remote tracker.
pub struct JiraError {
    pub message: String,
}

impl JiraError {
    /// The error text, prefixed as the tracker boundary reports it.
    pub fn text(&self) -> (r: String)
        ensures
            r@ == "JiraError: "@ + self.message@,
    {
        proof {
            reveal_strlit("JiraError: ");
        }
        let mut s = String::from_str("JiraError: ");
        s.append(self.message.as_str());
        s
    }
}

/// The worklog resource path of a ticket.
pub fn worklog_uri(key: &str) -> (r: String)
    ensures
        r@ == "/rest/api/2/issue/"@ + key@ + "/worklog"@,
{
    proof {
        reveal_strlit("/rest/api/2/issue/");
        reveal_strlit("/worklog");
    }
    let mut s = String::from_str("/rest/api/2/issue/");
    s.append(key);
    s.append("/worklog");
    s
}

/// The ticket key named by a document path: the file name without its
/// extension. `None` when the path has no directory separator or the file
/// name no dot.
pub open spec fn spec_jira_key(path: Seq<char>) -> Option<Seq<char>> {
    if has_ch(path, '/') {
        let fname = path.skip(last_ix(path, '/') + 1);
        if has_ch(fname, '.') {
            Some(fname.take(last_ix(fname, '.')))
        } else {
            None
        }
    } else {
        None
    }
}

/// The ticket key a document's path names.
pub fn jira_key(doc: &DiaryDoc) -> (r: Option<String>)
    ensures
        match r {
            Some(k) => spec_jira_key(doc@.path) == Some(k@),
            None => spec_jira_key(doc@.path) is None,
        },
{
    let v = chars_of(doc.path.as_str());
    let n = v.len();
    let slash = match find_char_last(&v, '/') {
        Some(i) => i,
        None => {
            return None;
        },
    };
    proof {
        lemma_last_ix(v@, '/', slash as int);
    }
    let fname = copy_range(&v, slash + 1, n);
    proof {
        assert(fname@ =~= v@.skip(slash as int + 1));
    }
    let dot = match find_char_last(&fname, '.') {
        Some(i) => i,
        None => {
            return None;
        },
    };
    proof {
        lemma_last_ix(fname@, '.', dot as int);
    }
    let key = doc.path.as_str().substring_char(slash + 1, slash + 1 + dot);
    proof {
        assert(key@ =~= fname@.take(dot as int));
    }
    Some(key.to_owned())
}

/// One range to upload: its local start and its length in seconds.
#[derive(Clone, Copy, PartialEq, Eq, Structural, Debug)]
pub struct WorklogUpload {
    pub started: Timestamp,
    pub seconds: i64,
}

/// The upload a closed range calls for.
pub open spec fn upload_of(r: WorklogRange) -> WorklogUpload {
    WorklogUpload {
        started: r.start,
        seconds: (spec_total_seconds(r.end) - spec_total_seconds(r.start)) as i64,
    }
}

/// The ranges to send: every derived range whose start is not already among
/// the remote entries, in worklog order.
pub open spec fn spec_sync_plan(rs: Seq<WorklogRange>, existing: Seq<Timestamp>) -> Seq<
    WorklogUpload,
>
    decreases rs.len(),
{
    if rs.len() == 0 {
        Seq::empty()
    } else {
        spec_sync_plan(rs.drop_last(), existing) + if !existing.contains(rs.last().start) {
            seq![upload_of(rs.last())]
        } else {
            Seq::empty()
        }
    }
}

/// Every timestamp a worklog entry parses to is valid.
pub proof fn lemma_ranges_wf(w: Seq<Seq<char>>)
    ensures
        forall|i: int|
            0 <= i < spec_ranges(w).len() ==> (#[trigger] spec_ranges(w)[i]).start.wf()
                && spec_ranges(w)[i].end.wf(),
    decreases w.len(),
{
    if w.len() > 0 {
        lemma_ranges_wf(w.drop_last());
        match spec_parse_entry(w.last()) {
            Some(r) => {
                assert(r.start.wf() && r.end.wf());
                assert(spec_ranges(w) =~= spec_ranges(w.drop_last()).push(r));
            },
            None => {
                assert(spec_ranges(w) =~= spec_ranges(w.drop_last()));
            },
        }
    }
}

fn ts_in(existing: &Vec<Timestamp>, t: &Timestamp) -> (r: bool)
    ensures
        r == existing@.contains(*t),
{
    let n = existing.len();
    let mut i: usize = 0;
    while i < n
        invariant
            i <= n,
            n == existing@.len(),
            forall|j: int| 0 <= j < i ==> existing@[j] != *t,
        decreases n - i,
    {
        if existing[i] == *t {
            return true;
        }
        i = i + 1;
    }
    false
}

/// Plans a worklog sync for one document: the derived ranges whose start
/// timestamp is not yet among `existing` (the remote entries, already brought
/// to local time), each with its duration in seconds.
pub fn sync_worklogs(doc: &DiaryDoc, existing: &Vec<Timestamp>) -> (r: Vec<WorklogUpload>)
    ensures
        r@ == spec_sync_plan(spec_ranges(doc@.meta.worklog), existing@),
{
    let ranges = doc.worklog_range();
    proof {
        lemma_ranges_wf(doc@.meta.worklog);
    }
    let ghost rs = ranges@;
    let n = ranges.len();
    let mut out: Vec<WorklogUpload> = Vec::new();
    let mut i: usize = 0;
    proof {
        assert(out@ =~= spec_sync_plan(rs.take(0), existing@));
    }
    while i < n
        invariant
            i <= n,
            n == rs.len(),
            rs == ranges@,
            ranges@ == spec_ranges(doc@.meta.worklog),
            forall|j: int|
                0 <= j < rs.len() ==> (#[trigger] rs[j]).start.wf() && rs[j].end.wf(),
            out@ == spec_sync_plan(rs.take(i as int), existing@),
        decreases n - i,
    {
        proof {
            assert(rs.take(i as int + 1).drop_last() =~= rs.take(i as int));
            assert(rs.take(i as int + 1).last() == rs[i as int]);
        }
        if !ts_in(existing, &ranges[i].start) {
            proof {
                crate::datetime::lemma_total_seconds_bound(rs[i as int].start);
                crate::datetime::lemma_total_seconds_bound(rs[i as int].end);
            }
            let secs = total_seconds(&ranges[i].end) as i64 - total_seconds(&ranges[i].start)
                as i64;
            out.push(WorklogUpload { started: ranges[i].start, seconds: secs });
        }
        proof {
            assert(out@ =~= spec_sync_plan(rs.take(i as int + 1), existing@));
        }
        i = i + 1;
    }
    proof {
        assert(rs.take(n as int) =~= rs);
    }
    out
}

} // verus!
