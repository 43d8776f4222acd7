//! Pure building blocks of the reporting consumers: the tag-ticket
//! heuristic, display names, and durations.

use vstd::prelude::*;
use crate::datetime::{is_digit, spec_total_seconds, total_seconds, lemma_total_seconds_bound};
use crate::model::{DiaryDoc, WorklogRange, spec_ranges};
use crate::jira::lemma_ranges_wf;
use crate::text::{has_ch, first_ix, last_ix, lemma_first_ix, lemma_last_ix, chars_of,
    find_char_from, find_char_last};

verus! {

/// A character the ticket-prefix class admits: an upper-case letter or a
/// decimal digit.
pub open spec fn is_ticket_char(c: char) -> bool {
    (65 <= c as int <= 90) || is_digit(c)
}

/// A tag that looks like a ticket identifier: an upper-case-alphanumeric
/// prefix (possibly empty), a hyphen, and a numeric suffix (possibly empty).
pub open spec fn spec_looks_like_ticket(s: Seq<char>) -> bool {
    &&& has_ch(s, '-')
    &&& forall|j: int| 0 <= j < first_ix(s, '-') ==> is_ticket_char(#[trigger] s[j])
    &&& forall|j: int| first_ix(s, '-') < j < s.len() ==> is_digit(#[trigger] s[j])
}

fn is_ticket_char_exec(c: char) -> (r: bool)
    ensures
        r == is_ticket_char(c),
{
    let u = c as u32;
    (65 <= u && u <= 90) || (48 <= u && u <= 57)
}

fn is_digit_exec(c: char) -> (r: bool)
    ensures
        r == is_digit(c),
{
    let u = c as u32;
    48 <= u && u <= 57
}

/// Whether a tag looks like a ticket identifier, such as `ABC-123` or `-7`.
pub fn looks_like_ticket(tag: &str) -> (r: bool)
    ensures
        r == spec_looks_like_ticket(tag@),
{
    let v = chars_of(tag);
    let n = v.len();
    let i = match find_char_from(&v, 0, '-') {
        Some(i) => i,
        None => {
            proof {
                assert(!has_ch(v@, '-'));
            }
            return false;
        },
    };
    proof {
        lemma_first_ix(v@, '-', i as int);
    }
    let mut j: usize = 0;
    while j < i
        invariant
            j <= i < n,
            n == v@.len(),
            v@ == tag@,
            has_ch(tag@, '-'),
            first_ix(tag@, '-') == i as int,
            forall|k: int| 0 <= k < j ==> is_ticket_char(#[trigger] v@[k]),
        decreases i - j,
    {
        if !is_ticket_char_exec(v[j]) {
            proof {
                assert(!is_ticket_char(tag@[j as int]));
            }
            return false;
        }
        j = j + 1;
    }
    let mut k: usize = i + 1;
    while k < n
        invariant
            i < k <= n,
            n == v@.len(),
            v@ == tag@,
            has_ch(tag@, '-'),
            first_ix(tag@, '-') == i as int,
            forall|m: int| 0 <= m < i ==> is_ticket_char(#[trigger] v@[m]),
            forall|m: int| i < m < k ==> is_digit(#[trigger] v@[m]),
        decreases n - k,
    {
        if !is_digit_exec(v[k]) {
            proof {
                assert(!is_digit(tag@[k as int]));
            }
            return false;
        }
        k = k + 1;
    }
    true
}

/// The display name of a document: the last segment of its path.
pub open spec fn spec_fname(path: Seq<char>) -> Seq<char> {
    if has_ch(path, '/') {
        path.skip(last_ix(path, '/') + 1)
    } else {
        path
    }
}

/// The display name of a document: the last segment of its path.
pub fn fname(doc: &DiaryDoc) -> (r: String)
    ensures
        r@ == spec_fname(doc@.path),
{
    let v = chars_of(doc.path.as_str());
    let n = v.len();
    match find_char_last(&v, '/') {
        Some(i) => {
            proof {
                lemma_last_ix(v@, '/', i as int);
            }
            let tail = doc.path.as_str().substring_char(i + 1, n);
            proof {
                assert(tail@ =~= v@.skip(i as int + 1));
            }
            tail.to_owned()
        },
        None => doc.path.clone(),
    }
}

/// The length of a closed range in seconds; negative when the range ends
/// before it starts.
pub open spec fn spec_duration_seconds(r: WorklogRange) -> int {
    spec_total_seconds(r.end) - spec_total_seconds(r.start)
}

/// The length of one range in seconds.
pub fn duration_seconds(r: &WorklogRange) -> (d: i64)
    requires
        r.start.wf(),
        r.end.wf(),
    ensures
        d as int == spec_duration_seconds(*r),
{
    proof {
        lemma_total_seconds_bound(r.start);
        lemma_total_seconds_bound(r.end);
    }
    total_seconds(&r.end) as i64 - total_seconds(&r.start) as i64
}

/// Addition on `i64` that stops at the bounds instead of wrapping.
pub open spec fn sat_add_i64(a: int, b: int) -> int {
    if a + b > i64::MAX {
        i64::MAX as int
    } else if a + b < i64::MIN {
        i64::MIN as int
    } else {
        a + b
    }
}

fn sat_add(a: i64, b: i64) -> (r: i64)
    ensures
        r as int == sat_add_i64(a as int, b as int),
{
    if b >= 0 {
        if a > i64::MAX - b {
            i64::MAX
        } else {
            a + b
        }
    } else {
        if a < i64::MIN - b {
            i64::MIN
        } else {
            a + b
        }
    }
}

/// The seconds of a document's derived ranges, summed with saturation at the
/// `i64` bounds.
pub open spec fn spec_doc_seconds(rs: Seq<WorklogRange>) -> int
    decreases rs.len(),
{
    if rs.len() == 0 {
        0
    } else {
        sat_add_i64(spec_doc_seconds(rs.drop_last()), spec_duration_seconds(rs.last()))
    }
}

/// The total tracked seconds of one document.
pub fn doc_seconds(doc: &DiaryDoc) -> (s: i64)
    ensures
        s as int == spec_doc_seconds(spec_ranges(doc@.meta.worklog)),
{
    let ranges = doc.worklog_range();
    proof {
        lemma_ranges_wf(doc@.meta.worklog);
    }
    let ghost rs = ranges@;
    let n = ranges.len();
    let mut acc: i64 = 0;
    let mut i: usize = 0;
    proof {
        assert(rs.take(0) =~= Seq::<WorklogRange>::empty());
    }
    while i < n
        invariant
            i <= n,
            n == rs.len(),
            rs == ranges@,
            ranges@ == spec_ranges(doc@.meta.worklog),
            forall|j: int|
                0 <= j < rs.len() ==> (#[trigger] rs[j]).start.wf() && rs[j].end.wf(),
            acc as int == spec_doc_seconds(rs.take(i as int)),
        decreases n - i,
    {
        proof {
            assert(rs.take(i as int + 1).drop_last() =~= rs.take(i as int));
            assert(rs.take(i as int + 1).last() == rs[i as int]);
        }
        let d = duration_seconds(&ranges[i]);
        acc = sat_add(acc, d);
        i = i + 1;
    }
    proof {
        assert(rs.take(n as int) =~= rs);
    }
    acc
}

} // verus!
