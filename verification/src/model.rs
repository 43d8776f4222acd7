//! One tracked document: structured metadata with a worklog of start/stop
//! timestamp pairs, and the start/stop state machine.
//!
//! A raw worklog entry is a string `"<start>, <end>"` in the fixed timestamp
//! pattern, where the end may be absent (the entry is then open and the
//! document active). Entries that fail to parse are dropped from the derived
//! ranges, never fatal.

use vstd::prelude::*;
use crate::datetime::{Timestamp, spec_parse_ts, spec_ts_chars, spec_ts_lt, parse_ts, format_ts,
    ts_lt, is_digit, digit_char};
use crate::text::{has_ch, first_ix, is_first_ix, lemma_first_ix, spec_trim, trim_chars, chars_of,
    find_char_from, copy_range, is_space_char};

verus! {

/// Structured metadata of one tracked document.
pub struct Metadata {
    pub author: Option<String>,
    pub date: Option<String>,
    pub tags: Vec<String>,
    pub estimate: Option<String>,
    pub worklog: Vec<String>,
}

/// One tracked document: metadata plus its stable path.
pub struct DiaryDoc {
    pub metadata: Metadata,
    pub path: String,
}

/// A derived closed work interval `[start, end)`.
#[derive(Clone, Copy, PartialEq, Eq, Structural, Debug)]
pub struct WorklogRange {
    pub start: Timestamp,
    pub end: Timestamp,
}

/// The mathematical value of a document's metadata.
#[verifier::ext_equal]
pub struct MetaView {
    pub author: Option<Seq<char>>,
    pub date: Option<Seq<char>>,
    pub tags: Seq<Seq<char>>,
    pub estimate: Option<Seq<char>>,
    pub worklog: Seq<Seq<char>>,
}

/// The mathematical value of one tracked document.
#[verifier::ext_equal]
pub struct DocView {
    pub path: Seq<char>,
    pub meta: MetaView,
}

pub open spec fn opt_str_view(o: Option<String>) -> Option<Seq<char>> {
    match o {
        Some(s) => Some(s@),
        None => None,
    }
}

pub open spec fn strs_view(v: Seq<String>) -> Seq<Seq<char>> {
    v.map_values(|s: String| s@)
}

impl View for Metadata {
    type V = MetaView;

    open spec fn view(&self) -> MetaView {
        MetaView {
            author: opt_str_view(self.author),
            date: opt_str_view(self.date),
            tags: strs_view(self.tags@),
            estimate: opt_str_view(self.estimate),
            worklog: strs_view(self.worklog@),
        }
    }
}

impl View for DiaryDoc {
    type V = DocView;

    open spec fn view(&self) -> DocView {
        DocView { path: self.path@, meta: self.metadata@ }
    }
}

/// The text of an entry before its first separator: the raw start field.
pub open spec fn entry_first(s: Seq<char>) -> Seq<char> {
    if has_ch(s, ',') {
        s.take(first_ix(s, ','))
    } else {
        s
    }
}

/// The text of an entry between its first and second separators (or to its
/// end): the raw end field. `None` when the entry has no separator.
pub open spec fn entry_second(s: Seq<char>) -> Option<Seq<char>> {
    if has_ch(s, ',') {
        let rest = s.skip(first_ix(s, ',') + 1);
        if has_ch(rest, ',') {
            Some(rest.take(first_ix(rest, ',')))
        } else {
            Some(rest)
        }
    } else {
        None
    }
}

/// A complete (closed) entry: it has a separator, and its end field is not
/// empty or all whitespace.
pub open spec fn spec_entry_complete(s: Seq<char>) -> bool {
    has_ch(s, ',') && spec_trim(entry_second(s).unwrap()).len() > 0
}

/// The closed range denoted by an entry: both trimmed fields read in the fixed
/// timestamp pattern. `None` for open, malformed or unparsable entries.
pub open spec fn spec_parse_entry(s: Seq<char>) -> Option<WorklogRange> {
    if spec_entry_complete(s) {
        let st = spec_parse_ts(spec_trim(entry_first(s)));
        let en = spec_parse_ts(spec_trim(entry_second(s).unwrap()));
        if st is Some && en is Some {
            Some(WorklogRange { start: st.unwrap(), end: en.unwrap() })
        } else {
            None
        }
    } else {
        None
    }
}

/// The derived ranges of a worklog, in entry order, unparsable entries
/// dropped.
pub open spec fn spec_ranges(w: Seq<Seq<char>>) -> Seq<WorklogRange>
    decreases w.len(),
{
    if w.len() == 0 {
        Seq::empty()
    } else {
        spec_ranges(w.drop_last()) + match spec_parse_entry(w.last()) {
            Some(r) => seq![r],
            None => Seq::empty(),
        }
    }
}

/// The entries that yield no range, each with the reason, in entry order.
pub open spec fn spec_diagnostics(w: Seq<Seq<char>>) -> Seq<(Seq<char>, WorklogParseError)>
    decreases w.len(),
{
    if w.len() == 0 {
        Seq::empty()
    } else {
        spec_diagnostics(w.drop_last()) + if !spec_entry_complete(w.last()) {
            seq![(w.last(), WorklogParseError::Incomplete)]
        } else if spec_parse_entry(w.last()) is None {
            seq![(w.last(), WorklogParseError::BadTimestamp)]
        } else {
            Seq::empty()
        }
    }
}

/// An active document: some raw entry is not complete.
pub open spec fn spec_is_active(d: DocView) -> bool {
    exists|i: int| 0 <= i < d.meta.worklog.len() && !spec_entry_complete(d.meta.worklog[i])
}

/// Some derived range ends strictly after `t`.
pub open spec fn spec_has_work_after(d: DocView, t: Timestamp) -> bool {
    exists|i: int|
        0 <= i < spec_ranges(d.meta.worklog).len() && spec_ts_lt(
            t, spec_ranges(d.meta.worklog)[i].end)
}

/// Some derived range starts strictly before `t`.
pub open spec fn spec_has_work_before(d: DocView, t: Timestamp) -> bool {
    exists|i: int|
        0 <= i < spec_ranges(d.meta.worklog).len() && spec_ts_lt(
            spec_ranges(d.meta.worklog)[i].start, t)
}

/// Why a raw worklog entry yields no range.
#[derive(Clone, Copy, PartialEq, Eq, Structural, Debug)]
pub enum WorklogParseError {
    /// The entry has no end field: it is still open (or empty).
    Incomplete,
    /// A field does not follow the fixed timestamp pattern.
    BadTimestamp,
}

/// An illegal start/stop transition.
#[derive(Clone, Copy, PartialEq, Eq, Structural, Debug)]
pub enum TransitionError {
    /// `start` was requested on an already-active document.
    AlreadyActive,
    /// `stop` was requested on an inactive document.
    NotActive,
}

impl TransitionError {
    /// A human-readable description of the refused transition.
    pub fn message(&self) -> (r: &'static str)
        ensures
            *self == TransitionError::AlreadyActive ==> r@ == "Requested doc is already active"@,
            *self == TransitionError::NotActive ==> r@ == "Requested doc is not active"@,
    {
        proof {
            reveal_strlit("Requested doc is already active");
            reveal_strlit("Requested doc is not active");
        }
        match self {
            TransitionError::AlreadyActive => "Requested doc is already active",
            TransitionError::NotActive => "Requested doc is not active",
        }
    }
}

fn clone_strings(v: &Vec<String>) -> (r: Vec<String>)
    ensures
        r@ =~= v@,
{
    let n = v.len();
    let mut r: Vec<String> = Vec::new();
    let mut i: usize = 0;
    while i < n
        invariant
            i <= n,
            n == v@.len(),
            r@ == v@.take(i as int),
        decreases n - i,
    {
        r.push(v[i].clone());
        proof {
            assert(v@.take(i as int).push(v@[i as int]) =~= v@.take(i as int + 1));
        }
        i = i + 1;
    }
    proof {
        assert(v@.take(n as int) =~= v@);
    }
    r
}

fn clone_opt_string(o: &Option<String>) -> (r: Option<String>)
    ensures
        r == o,
{
    match o {
        Some(s) => Some(s.clone()),
        None => None,
    }
}

impl Clone for Metadata {
    /// A clone carries the same mathematical value.
    fn clone(&self) -> (res: Metadata)
        ensures
            res@ == self@,
    {
        Metadata {
            author: clone_opt_string(&self.author),
            date: clone_opt_string(&self.date),
            tags: clone_strings(&self.tags),
            estimate: clone_opt_string(&self.estimate),
            worklog: clone_strings(&self.worklog),
        }
    }
}

impl Clone for DiaryDoc {
    /// A clone carries the same mathematical value.
    fn clone(&self) -> (res: DiaryDoc)
        ensures
            res@ == self@,
    {
        DiaryDoc { metadata: self.metadata.clone(), path: self.path.clone() }
    }
}

/// The trimmed start and end fields of a raw entry.
fn entry_fields(entry: &str) -> (r: (Vec<char>, Option<Vec<char>>))
    ensures
        r.0@ == spec_trim(entry_first(entry@)),
        match r.1 {
            Some(sec) => entry_second(entry@) is Some && sec@ == spec_trim(
                entry_second(entry@).unwrap()),
            None => entry_second(entry@) is None,
        },
{
    let v = chars_of(entry);
    let n = v.len();
    match find_char_from(&v, 0, ',') {
        None => {
            proof {
                assert(!has_ch(v@, ','));
            }
            (trim_chars(&v), None)
        },
        Some(i) => {
            proof {
                lemma_first_ix(v@, ',', i as int);
            }
            let first_raw = copy_range(&v, 0, i);
            proof {
                assert(first_raw@ =~= entry_first(entry@));
            }
            let first = trim_chars(&first_raw);
            let ghost rest: Seq<char> = v@.skip(i as int + 1);
            let second_raw = match find_char_from(&v, i + 1, ',') {
                None => {
                    proof {
                        assert forall|m: int| 0 <= m < rest.len() implies rest[m] != ',' by {
                            assert(rest[m] == v@[i + 1 + m]);
                        }
                        assert(!has_ch(rest, ','));
                    }
                    let sr = copy_range(&v, i + 1, n);
                    proof {
                        assert(sr@ =~= rest);
                    }
                    sr
                },
                Some(j) => {
                    proof {
                        assert(rest[j - i - 1] == v@[j as int]);
                        assert forall|m: int| 0 <= m < j - i - 1 implies rest[m] != ',' by {
                            assert(rest[m] == v@[i + 1 + m]);
                        }
                        assert(is_first_ix(rest, ',', j - i - 1));
                        lemma_first_ix(rest, ',', j - i - 1);
                    }
                    let sr = copy_range(&v, i + 1, j);
                    proof {
                        assert(sr@ =~= rest.take(j - i - 1));
                    }
                    sr
                },
            };
            (first, Some(trim_chars(&second_raw)))
        },
    }
}

/// The closed range denoted by one raw entry, or why there is none.
pub fn parse_worklog_entry(worklog: &str) -> (r: Result<WorklogRange, WorklogParseError>)
    ensures
        match r {
            Ok(range) => spec_parse_entry(worklog@) == Some(range),
            Err(WorklogParseError::Incomplete) => !spec_entry_complete(worklog@),
            Err(WorklogParseError::BadTimestamp) => spec_entry_complete(worklog@)
                && spec_parse_entry(worklog@) is None,
        },
{
    let (first, second) = entry_fields(worklog);
    let second = match second {
        Some(sec) => sec,
        None => {
            return Err(WorklogParseError::Incomplete);
        },
    };
    if second.len() == 0 {
        return Err(WorklogParseError::Incomplete);
    }
    let st = parse_ts(&first);
    let en = parse_ts(&second);
    match (st, en) {
        (Some(start), Some(end)) => Ok(WorklogRange { start, end }),
        _ => Err(WorklogParseError::BadTimestamp),
    }
}

impl DiaryDoc {
    /// A raw entry is complete: it has a separator and a non-blank end field.
    pub fn is_worklog_entry_complete(&self, entry: &str) -> (r: bool)
        ensures
            r == spec_entry_complete(entry@),
    {
        let (_, second) = entry_fields(entry);
        match second {
            Some(sec) => sec.len() > 0,
            None => false,
        }
    }

    /// A document is active iff some raw worklog entry is not complete.
    pub fn is_active(&self) -> (r: bool)
        ensures
            r == spec_is_active(self@),
    {
        let n = self.metadata.worklog.len();
        let mut i: usize = 0;
        while i < n
            invariant
                i <= n,
                n == self.metadata.worklog@.len(),
                forall|j: int|
                    0 <= j < i ==> spec_entry_complete(#[trigger] self@.meta.worklog[j]),
            decreases n - i,
        {
            if !self.is_worklog_entry_complete(self.metadata.worklog[i].as_str()) {
                proof {
                    assert(self@.meta.worklog[i as int] == self.metadata.worklog@[i as int]@);
                    assert(!spec_entry_complete(self@.meta.worklog[i as int]));
                }
                return true;
            }
            i = i + 1;
        }
        false
    }

    /// The closed range denoted by one raw entry, or why there is none.
    pub fn worklog_to_date_range(&self, worklog: &str) -> (r: Result<
        WorklogRange,
        WorklogParseError,
    >)
        ensures
            match r {
                Ok(range) => spec_parse_entry(worklog@) == Some(range),
                Err(WorklogParseError::Incomplete) => !spec_entry_complete(worklog@),
                Err(WorklogParseError::BadTimestamp) => spec_entry_complete(worklog@)
                    && spec_parse_entry(worklog@) is None,
            },
    {
        parse_worklog_entry(worklog)
    }

    /// All derived ranges of this document, in entry order.
    pub fn worklog_range(&self) -> (r: Vec<WorklogRange>)
        ensures
            r@ == spec_ranges(self@.meta.worklog),
    {
        let n = self.metadata.worklog.len();
        let mut r: Vec<WorklogRange> = Vec::new();
        let mut i: usize = 0;
        while i < n
            invariant
                i <= n,
                n == self.metadata.worklog@.len(),
                r@ == spec_ranges(self@.meta.worklog.take(i as int)),
            decreases n - i,
        {
            let ghost w = self@.meta.worklog;
            proof {
                assert(w.take(i as int + 1).drop_last() =~= w.take(i as int));
                assert(w.take(i as int + 1).last() == w[i as int]);
            }
            match self.worklog_to_date_range(self.metadata.worklog[i].as_str()) {
                Ok(range) => {
                    r.push(range);
                },
                Err(_) => {},
            }
            i = i + 1;
        }
        proof {
            assert(self@.meta.worklog.take(n as int) =~= self@.meta.worklog);
        }
        r
    }

    /// The entries of this document that yield no range, each with the
    /// reason: the recoverable-error channel beside `worklog_range`.
    pub fn worklog_diagnostics(&self) -> (r: Vec<(String, WorklogParseError)>)
        ensures
            r@.map_values(|p: (String, WorklogParseError)| (p.0@, p.1)) == spec_diagnostics(
                self@.meta.worklog),
    {
        let n = self.metadata.worklog.len();
        let mut r: Vec<(String, WorklogParseError)> = Vec::new();
        let mut i: usize = 0;
        proof {
            assert(r@.map_values(|p: (String, WorklogParseError)| (p.0@, p.1))
                =~= spec_diagnostics(self@.meta.worklog.take(0)));
        }
        while i < n
            invariant
                i <= n,
                n == self.metadata.worklog@.len(),
                r@.map_values(|p: (String, WorklogParseError)| (p.0@, p.1)) == spec_diagnostics(
                    self@.meta.worklog.take(i as int)),
            decreases n - i,
        {
            let ghost w = self@.meta.worklog;
            let ghost prev = r@;
            proof {
                assert(w.take(i as int + 1).drop_last() =~= w.take(i as int));
                assert(w.take(i as int + 1).last() == w[i as int]);
            }
            match self.worklog_to_date_range(self.metadata.worklog[i].as_str()) {
                Ok(_) => {},
                Err(e) => {
                    r.push((self.metadata.worklog[i].clone(), e));
                    proof {
                        assert(r@.map_values(|p: (String, WorklogParseError)| (p.0@, p.1))
                            =~= prev.map_values(
                            |p: (String, WorklogParseError)| (p.0@, p.1)).push(
                            (w[i as int], e)));
                    }
                },
            }
            proof {
                assert(r@.map_values(|p: (String, WorklogParseError)| (p.0@, p.1))
                    =~= spec_diagnostics(w.take(i as int + 1)));
            }
            i = i + 1;
        }
        proof {
            assert(self@.meta.worklog.take(n as int) =~= self@.meta.worklog);
        }
        r
    }

    /// Some derived range ends strictly after `datetime`.
    pub fn has_work_after(&self, datetime: &Timestamp) -> (r: bool)
        ensures
            r == spec_has_work_after(self@, *datetime),
    {
        let ranges = self.worklog_range();
        let n = ranges.len();
        let mut i: usize = 0;
        while i < n
            invariant
                i <= n,
                n == ranges@.len(),
                ranges@ == spec_ranges(self@.meta.worklog),
                forall|j: int| 0 <= j < i ==> !spec_ts_lt(*datetime, ranges@[j].end),
            decreases n - i,
        {
            if ts_lt(datetime, &ranges[i].end) {
                return true;
            }
            i = i + 1;
        }
        false
    }

    /// Some derived range starts strictly before `datetime`.
    pub fn has_work_before(&self, datetime: &Timestamp) -> (r: bool)
        ensures
            r == spec_has_work_before(self@, *datetime),
    {
        let ranges = self.worklog_range();
        let n = ranges.len();
        let mut i: usize = 0;
        while i < n
            invariant
                i <= n,
                n == ranges@.len(),
                ranges@ == spec_ranges(self@.meta.worklog),
                forall|j: int| 0 <= j < i ==> !spec_ts_lt(ranges@[j].start, *datetime),
            decreases n - i,
        {
            if ts_lt(&ranges[i].start, datetime) {
                return true;
            }
            i = i + 1;
        }
        false
    }

    /// Begins a work session at `now`: appends a new open entry. Refused, with
    /// the document unchanged, when the document is already active.
    pub fn start(&mut self, now: Timestamp) -> (r: Result<(), TransitionError>)
        requires
            now.wf(),
        ensures
            match r {
                Ok(()) => !spec_is_active(old(self)@) && final(self)@ == start_spec(
                    old(self)@, now),
                Err(e) => e == TransitionError::AlreadyActive && spec_is_active(old(self)@)
                    && *final(self) == *old(self),
            },
    {
        if self.is_active() {
            return Err(TransitionError::AlreadyActive);
        }
        proof {
            reveal_strlit(",");
        }
        let mut entry = format_ts(&now);
        entry.append(",");
        proof {
            assert(entry@ =~= spec_ts_chars(now) + seq![',']);
        }
        self.metadata.worklog.push(entry);
        proof {
            assert(self@.meta.worklog =~= start_spec(old(self)@, now).meta.worklog);
            assert(self@ =~~= start_spec(old(self)@, now));
        }
        Ok(())
    }

    /// Ends the open work session at `now`: appends the end timestamp to the
    /// last raw entry. Refused, with the document unchanged, when the document
    /// is not active.
    pub fn stop(&mut self, now: Timestamp) -> (r: Result<(), TransitionError>)
        requires
            now.wf(),
        ensures
            match r {
                Ok(()) => spec_is_active(old(self)@) && final(self)@ == stop_spec(
                    old(self)@, now),
                Err(e) => e == TransitionError::NotActive && !spec_is_active(old(self)@)
                    && *final(self) == *old(self),
            },
    {
        if !self.is_active() {
            return Err(TransitionError::NotActive);
        }
        let n = self.metadata.worklog.len();
        assert(n > 0) by {
            assert(spec_is_active(self@));
        }
        let mut last_entry = self.metadata.worklog.pop().unwrap();
        let end_part = format_ts(&now);
        last_entry.append(end_part.as_str());
        self.metadata.worklog.push(last_entry);
        proof {
            assert(self@.meta.worklog =~= stop_spec(old(self)@, now).meta.worklog);
            assert(self@ =~~= stop_spec(old(self)@, now));
        }
        Ok(())
    }
}

/// The number of complete (closed) entries of a worklog.
pub open spec fn spec_count_complete(w: Seq<Seq<char>>) -> int
    decreases w.len(),
{
    if w.len() == 0 {
        0
    } else {
        spec_count_complete(w.drop_last()) + if spec_entry_complete(w.last()) {
            1int
        } else {
            0int
        }
    }
}

proof fn lemma_count_complete_le_len(w: Seq<Seq<char>>)
    ensures
        0 <= spec_count_complete(w) <= w.len(),
    decreases w.len(),
{
    if w.len() > 0 {
        lemma_count_complete_le_len(w.drop_last());
    }
}

/// A document is active exactly when its worklog holds strictly fewer
/// complete entries than raw entries: the only way an entry goes missing from
/// the closed count is an open (incomplete) one.
pub proof fn lemma_active_iff_incomplete_count(d: DocView)
    ensures
        spec_is_active(d) <==> spec_count_complete(d.meta.worklog) < d.meta.worklog.len(),
{
    lemma_active_iff_count(d.meta.worklog);
}

proof fn lemma_active_iff_count(w: Seq<Seq<char>>)
    ensures
        (exists|i: int| 0 <= i < w.len() && !spec_entry_complete(w[i])) <==> spec_count_complete(
            w) < w.len(),
    decreases w.len(),
{
    if w.len() > 0 {
        let w2 = w.drop_last();
        lemma_active_iff_count(w2);
        lemma_count_complete_le_len(w2);
        if spec_entry_complete(w.last()) {
            if exists|i: int| 0 <= i < w2.len() && !spec_entry_complete(w2[i]) {
                let i = choose|i: int| 0 <= i < w2.len() && !spec_entry_complete(w2[i]);
                assert(w[i] == w2[i]);
                assert(!spec_entry_complete(w[i]));
            }
            if exists|i: int| 0 <= i < w.len() && !spec_entry_complete(w[i]) {
                let i = choose|i: int| 0 <= i < w.len() && !spec_entry_complete(w[i]);
                assert(i < w2.len() && w2[i] == w[i]);
            }
        } else {
            assert(!spec_entry_complete(w[w.len() - 1]));
        }
    }
}

/// No character of the fixed timestamp pattern is a separator or whitespace.
proof fn lemma_ts_chars_plain(t: Timestamp)
    ensures
        spec_ts_chars(t).len() == 19,
        forall|j: int|
            0 <= j < 19 ==> #[trigger] spec_ts_chars(t)[j] != ',' && !is_space_char(
                spec_ts_chars(t)[j]),
{
    let s = spec_ts_chars(t);
    assert forall|j: int| 0 <= j < 19 implies #[trigger] s[j] != ',' && !is_space_char(
        s[j]) by {
        assert(s[4] == '-' && s[7] == '-' && s[10] == 'T' && s[13] == ':' && s[16] == ':');
        if j != 4 && j != 7 && j != 10 && j != 13 && j != 16 {
            assert(is_digit(s[j])) by {
                digit_is_digit(t.date.year as int / 1000);
                digit_is_digit(t.date.year as int / 100 % 10);
                digit_is_digit(t.date.year as int / 10 % 10);
                digit_is_digit(t.date.year as int % 10);
                digit_is_digit(t.date.month as int / 10);
                digit_is_digit(t.date.month as int % 10);
                digit_is_digit(t.date.day as int / 10);
                digit_is_digit(t.date.day as int % 10);
                digit_is_digit(t.hour as int / 10);
                digit_is_digit(t.hour as int % 10);
                digit_is_digit(t.minute as int / 10);
                digit_is_digit(t.minute as int % 10);
                digit_is_digit(t.second as int / 10);
                digit_is_digit(t.second as int % 10);
            }
        }
    }
}

proof fn digit_is_digit(d: int)
    ensures
        is_digit(digit_char(d)),
{
}

/// Trimming does not touch a sequence that neither begins nor ends with
/// whitespace.
proof fn lemma_trim_plain(s: Seq<char>)
    requires
        s.len() > 0,
        !is_space_char(s[0]),
        !is_space_char(s.last()),
    ensures
        spec_trim(s) == s,
{
}

/// The entry `start` writes is open, and the entry `stop` closes it into
/// parses exactly as the pair of timestamps written.
proof fn lemma_fresh_entry(t1: Timestamp, t2: Timestamp)
    requires
        t1.wf(),
        t2.wf(),
    ensures
        !spec_entry_complete(spec_ts_chars(t1) + seq![',']),
        spec_entry_complete(spec_ts_chars(t1) + seq![','] + spec_ts_chars(t2)),
        spec_parse_entry(spec_ts_chars(t1) + seq![','] + spec_ts_chars(t2)) == Some(
            WorklogRange { start: t1, end: t2 },
        ),
{
    lemma_ts_chars_plain(t1);
    lemma_ts_chars_plain(t2);
    let e1 = spec_ts_chars(t1) + seq![','];
    let e2 = spec_ts_chars(t1) + seq![','] + spec_ts_chars(t2);
    // The open entry: its end field is empty.
    assert(e1[19] == ',');
    assert(is_first_ix(e1, ',', 19));
    crate::text::lemma_first_ix(e1, ',', 19);
    let rest1 = e1.skip(20);
    assert(rest1.len() == 0);
    assert(!has_ch(rest1, ','));
    assert(entry_second(e1) == Some(rest1));
    assert(spec_trim(rest1).len() == 0);
    // The closed entry: fields are the two timestamps, which parse back.
    assert(e2[19] == ',');
    assert(forall|j: int| 0 <= j < 19 ==> e2[j] == spec_ts_chars(t1)[j]);
    assert(is_first_ix(e2, ',', 19));
    crate::text::lemma_first_ix(e2, ',', 19);
    let rest2 = e2.skip(20);
    assert(rest2 =~= spec_ts_chars(t2));
    assert(!has_ch(rest2, ','));
    assert(entry_second(e2) == Some(rest2));
    let first2 = e2.take(19);
    assert(first2 =~= spec_ts_chars(t1));
    assert(entry_first(e2) == first2);
    lemma_trim_plain(spec_ts_chars(t1));
    lemma_trim_plain(spec_ts_chars(t2));
    crate::datetime::lemma_ts_round_trip(t1);
    crate::datetime::lemma_ts_round_trip(t2);
    assert(spec_parse_ts(spec_trim(entry_first(e2))) == Some(t1));
    assert(spec_parse_ts(spec_trim(entry_second(e2).unwrap())) == Some(t2));
}

/// Starting then stopping an inactive document leaves it inactive again and
/// adds exactly one derived range, from the first call's time to the
/// second's; when the clock moved forward, that range ends after it starts.
pub proof fn lemma_start_then_stop(d: DocView, t1: Timestamp, t2: Timestamp)
    requires
        !spec_is_active(d),
        t1.wf(),
        t2.wf(),
    ensures
        spec_is_active(start_spec(d, t1)),
        !spec_is_active(stop_spec(start_spec(d, t1), t2)),
        spec_ranges(stop_spec(start_spec(d, t1), t2).meta.worklog) == spec_ranges(
            d.meta.worklog).push(WorklogRange { start: t1, end: t2 }),
        spec_ts_lt(t1, t2) ==> spec_ts_lt(
            spec_ranges(stop_spec(start_spec(d, t1), t2).meta.worklog).last().start,
            spec_ranges(stop_spec(start_spec(d, t1), t2).meta.worklog).last().end,
        ),
{
    lemma_fresh_entry(t1, t2);
    let w = d.meta.worklog;
    let e1 = spec_ts_chars(t1) + seq![','];
    let e2 = spec_ts_chars(t1) + seq![','] + spec_ts_chars(t2);
    let d1 = start_spec(d, t1);
    assert(d1.meta.worklog == w.push(e1));
    assert(d1.meta.worklog[w.len() as int] == e1);
    assert(spec_is_active(d1));
    let d2 = stop_spec(d1, t2);
    assert(d2.meta.worklog =~= w.push(e2)) by {
        assert(w.push(e1).last() == e1);
        assert(e1 + spec_ts_chars(t2) =~= e2);
    }
    assert forall|i: int| 0 <= i < w.push(e2).len() implies spec_entry_complete(
        #[trigger] w.push(e2)[i]) by {
        if i < w.len() {
            assert(w.push(e2)[i] == w[i]);
            assert(spec_entry_complete(w[i]));
        }
    }
    assert(!spec_is_active(d2));
    assert(spec_ranges(w.push(e2)) =~= spec_ranges(w).push(
        WorklogRange { start: t1, end: t2 })) by {
        assert(w.push(e2).drop_last() =~= w);
        assert(w.push(e2).last() == e2);
    }
}

/// The document after `start` at `now`: one new open entry at the end.
pub open spec fn start_spec(d: DocView, now: Timestamp) -> DocView {
    DocView {
        meta: MetaView {
            worklog: d.meta.worklog.push(spec_ts_chars(now) + seq![',']),
            ..d.meta
        },
        ..d
    }
}

/// The document after `stop` at `now`: the end timestamp appended to the last
/// raw entry.
pub open spec fn stop_spec(d: DocView, now: Timestamp) -> DocView {
    DocView {
        meta: MetaView {
            worklog: d.meta.worklog.update(
                d.meta.worklog.len() - 1,
                d.meta.worklog.last() + spec_ts_chars(now),
            ),
            ..d.meta
        },
        ..d
    }
}

} // verus!
