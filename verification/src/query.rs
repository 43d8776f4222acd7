//! The query engine: pure selection, date clipping and ordering over a
//! snapshot of the document repository, which every function takes as an
//! explicit input.

use vstd::prelude::*;
use crate::datetime::{Date, Timestamp, spec_ts_lt, ts_lt};
use crate::model::{DiaryDoc, DocView, MetaView, Metadata, parse_worklog_entry, spec_is_active,
    spec_has_work_after, spec_has_work_before, spec_parse_entry, spec_ranges};
use crate::text::{contains_seq, contains_str};

verus! {

/// The mathematical value of a repository snapshot.
pub open spec fn docs_view(s: Seq<DiaryDoc>) -> Seq<DocView> {
    s.map_values(|d: DiaryDoc| d@)
}

/// The documents with an open worklog entry, in order.
pub open spec fn keep_active(s: Seq<DocView>) -> Seq<DocView> {
    s.filter(|d: DocView| spec_is_active(d))
}

/// Every document of the repository, unchanged and in order.
pub fn all(data: Vec<DiaryDoc>) -> (r: Vec<DiaryDoc>)
    ensures
        r == data,
{
    data
}

/// The documents with an open worklog entry, in order.
pub fn active(data: Vec<DiaryDoc>) -> (r: Vec<DiaryDoc>)
    ensures
        docs_view(r@) == keep_active(docs_view(data@)),
{
    let n = data.len();
    let mut r: Vec<DiaryDoc> = Vec::new();
    let mut i: usize = 0;
    proof {
        reveal(Seq::filter);
        assert(docs_view(r@) =~= keep_active(docs_view(data@).take(0)));
    }
    while i < n
        invariant
            i <= n,
            n == data@.len(),
            docs_view(r@) == keep_active(docs_view(data@).take(i as int)),
        decreases n - i,
    {
        let ghost views = docs_view(data@);
        let ghost prev = r@;
        proof {
            reveal(Seq::filter);
            assert(views.take(i as int + 1).drop_last() =~= views.take(i as int));
            assert(views.take(i as int + 1).last() == data@[i as int]@);
        }
        if data[i].is_active() {
            r.push(data[i].clone());
            proof {
                assert(docs_view(r@) =~= docs_view(prev).push(data@[i as int]@));
            }
        }
        proof {
            assert(docs_view(r@) =~= keep_active(views.take(i as int + 1)));
        }
        i = i + 1;
    }
    proof {
        assert(docs_view(data@).take(n as int) =~= docs_view(data@));
    }
    r
}

/// Some document tag equals some query tag (OR semantics across tags).
pub open spec fn spec_tags_match(doc_tags: Seq<Seq<char>>, tags: Seq<Seq<char>>) -> bool {
    exists|i: int, j: int| 0 <= i < doc_tags.len() && 0 <= j < tags.len() && doc_tags[i] == tags[j]
}

/// The documents carrying at least one of the query tags, in order.
pub open spec fn keep_tagged(s: Seq<DocView>, tags: Seq<Seq<char>>) -> Seq<DocView> {
    s.filter(|d: DocView| spec_tags_match(d.meta.tags, tags))
}

/// The documents whose path contains `pat`, in order.
pub open spec fn keep_path(s: Seq<DocView>, pat: Seq<char>) -> Seq<DocView> {
    s.filter(|d: DocView| contains_seq(d.path, pat))
}

fn tag_in(tags: &Vec<String>, t: &String) -> (r: bool)
    ensures
        r == exists|j: int| 0 <= j < tags@.len() && tags@[j]@ == t@,
{
    let n = tags.len();
    let mut j: usize = 0;
    while j < n
        invariant
            j <= n,
            n == tags@.len(),
            forall|k: int| 0 <= k < j ==> tags@[k]@ != t@,
        decreases n - j,
    {
        if tags[j].eq(t) {
            return true;
        }
        j = j + 1;
    }
    false
}

fn tags_match(doc_tags: &Vec<String>, tags: &Vec<String>) -> (r: bool)
    ensures
        r == spec_tags_match(
            doc_tags@.map_values(|s: String| s@),
            tags@.map_values(|s: String| s@),
        ),
{
    let ghost dv = doc_tags@.map_values(|s: String| s@);
    let ghost tv = tags@.map_values(|s: String| s@);
    let n = doc_tags.len();
    let mut i: usize = 0;
    while i < n
        invariant
            i <= n,
            n == doc_tags@.len(),
            forall|k: int, j: int| 0 <= k < i && 0 <= j < tv.len() ==> dv[k] != tv[j],
            dv == doc_tags@.map_values(|s: String| s@),
            tv == tags@.map_values(|s: String| s@),
        decreases n - i,
    {
        if tag_in(tags, &doc_tags[i]) {
            proof {
                let j = choose|j: int| 0 <= j < tags@.len() && tags@[j]@ == doc_tags@[i as int]@;
                assert(dv[i as int] == tv[j]);
            }
            return true;
        }
        i = i + 1;
    }
    false
}

/// The documents carrying at least one of the query tags, in order.
pub fn by_tags(tags: Vec<String>, data: Vec<DiaryDoc>) -> (r: Vec<DiaryDoc>)
    ensures
        docs_view(r@) == keep_tagged(docs_view(data@), tags@.map_values(|s: String| s@)),
{
    let ghost tv = tags@.map_values(|s: String| s@);
    let n = data.len();
    let mut r: Vec<DiaryDoc> = Vec::new();
    let mut i: usize = 0;
    proof {
        reveal(Seq::filter);
        assert(docs_view(r@) =~= keep_tagged(docs_view(data@).take(0), tv));
    }
    while i < n
        invariant
            i <= n,
            n == data@.len(),
            tv == tags@.map_values(|s: String| s@),
            docs_view(r@) == keep_tagged(docs_view(data@).take(i as int), tv),
        decreases n - i,
    {
        let ghost views = docs_view(data@);
        let ghost prev = r@;
        proof {
            reveal(Seq::filter);
            assert(views.take(i as int + 1).drop_last() =~= views.take(i as int));
            assert(views.take(i as int + 1).last() == data@[i as int]@);
        }
        if tags_match(&data[i].metadata.tags, &tags) {
            r.push(data[i].clone());
            proof {
                assert(docs_view(r@) =~= docs_view(prev).push(data@[i as int]@));
            }
        }
        proof {
            assert(docs_view(r@) =~= keep_tagged(views.take(i as int + 1), tv));
        }
        i = i + 1;
    }
    proof {
        assert(docs_view(data@).take(n as int) =~= docs_view(data@));
    }
    r
}

/// The documents whose path contains `path` as a substring, in order.
pub fn by_path(path: &str, data: Vec<DiaryDoc>) -> (r: Vec<DiaryDoc>)
    ensures
        docs_view(r@) == keep_path(docs_view(data@), path@),
{
    let n = data.len();
    let mut r: Vec<DiaryDoc> = Vec::new();
    let mut i: usize = 0;
    proof {
        reveal(Seq::filter);
        assert(docs_view(r@) =~= keep_path(docs_view(data@).take(0), path@));
    }
    while i < n
        invariant
            i <= n,
            n == data@.len(),
            docs_view(r@) == keep_path(docs_view(data@).take(i as int), path@),
        decreases n - i,
    {
        let ghost views = docs_view(data@);
        let ghost prev = r@;
        proof {
            reveal(Seq::filter);
            assert(views.take(i as int + 1).drop_last() =~= views.take(i as int));
            assert(views.take(i as int + 1).last() == data@[i as int]@);
        }
        if contains_str(self_path(&data[i]), path) {
            r.push(data[i].clone());
            proof {
                assert(docs_view(r@) =~= docs_view(prev).push(data@[i as int]@));
            }
        }
        proof {
            assert(docs_view(r@) =~= keep_path(views.take(i as int + 1), path@));
        }
        i = i + 1;
    }
    proof {
        assert(docs_view(data@).take(n as int) =~= docs_view(data@));
    }
    r
}

fn self_path(d: &DiaryDoc) -> (r: &str)
    ensures
        r@ == d@.path,
{
    d.path.as_str()
}

/// The lower edge of a query window: the start date at local midnight.
pub open spec fn window_start(d: Date) -> Timestamp {
    Timestamp { date: d, hour: 0, minute: 0, second: 0 }
}

/// The upper edge of a query window: the end date at 23:59:59.
pub open spec fn window_end(d: Date) -> Timestamp {
    Timestamp { date: d, hour: 23, minute: 59, second: 59 }
}

/// The upper window edge of an optional end date; `None` means unbounded.
pub open spec fn end_ts_view(end: Option<Date>) -> Option<Timestamp> {
    match end {
        Some(d) => Some(window_end(d)),
        None => None,
    }
}

/// An entry survives the clip: it parses, starts strictly after the window
/// start, and (when the window is bounded) ends strictly before the window
/// end. Boundary-equal timestamps are excluded.
pub open spec fn keep_entry(e: Seq<char>, ws: Timestamp, we: Option<Timestamp>) -> bool {
    match spec_parse_entry(e) {
        Some(r) => spec_ts_lt(ws, r.start) && (we is Some ==> spec_ts_lt(r.end, we.unwrap())),
        None => false,
    }
}

/// A worklog reduced to the entries strictly inside the window.
pub open spec fn clip_worklog(w: Seq<Seq<char>>, ws: Timestamp, we: Option<Timestamp>) -> Seq<
    Seq<char>,
> {
    w.filter(|e: Seq<char>| keep_entry(e, ws, we))
}

/// A document with its worklog clipped to the window; all else unchanged.
pub open spec fn clip_doc(d: DocView, ws: Timestamp, we: Option<Timestamp>) -> DocView {
    DocView { meta: MetaView { worklog: clip_worklog(d.meta.worklog, ws, we), ..d.meta }, ..d }
}

/// The coarse existence test: some range ends after the window start and, for
/// a bounded window, some range starts before the window end.
pub open spec fn coarse_keep(d: DocView, ws: Timestamp, we: Option<Timestamp>) -> bool {
    spec_has_work_after(d, ws) && (we is Some ==> spec_has_work_before(d, we.unwrap()))
}

pub open spec fn keep_coarse(s: Seq<DocView>, ws: Timestamp, we: Option<Timestamp>) -> Seq<
    DocView,
> {
    s.filter(|d: DocView| coarse_keep(d, ws, we))
}

pub open spec fn clip_all(s: Seq<DocView>, ws: Timestamp, we: Option<Timestamp>) -> Seq<DocView> {
    s.map_values(|d: DocView| clip_doc(d, ws, we))
}

/// The documents still holding at least one worklog entry.
pub open spec fn keep_nonempty(s: Seq<DocView>) -> Seq<DocView> {
    s.filter(|d: DocView| d.meta.worklog.len() > 0)
}

/// The sort key of a document: the start of its first derived range;
/// documents without ranges sort first.
pub open spec fn doc_sort_key(d: DocView) -> Option<Timestamp> {
    if spec_ranges(d.meta.worklog).len() == 0 {
        None
    } else {
        Some(spec_ranges(d.meta.worklog)[0].start)
    }
}

/// Sort-key order: no-range documents first, then ascending by first start.
pub open spec fn key_le(a: DocView, b: DocView) -> bool {
    match (doc_sort_key(a), doc_sort_key(b)) {
        (Option::None, _) => true,
        (Option::Some(x), Option::None) => false,
        (Option::Some(x), Option::Some(y)) => !spec_ts_lt(y, x),
    }
}

/// Inserts `x` after every element whose key is less than or equal to its
/// own, keeping the order of equal keys stable.
pub open spec fn insert_sorted(x: DocView, s: Seq<DocView>) -> Seq<DocView>
    decreases s.len(),
{
    if s.len() == 0 {
        seq![x]
    } else if key_le(s[0], x) {
        seq![s[0]] + insert_sorted(x, s.drop_first())
    } else {
        seq![x] + s
    }
}

/// Stable insertion sort by `doc_sort_key`, ascending.
pub open spec fn sort_by_date_spec(s: Seq<DocView>) -> Seq<DocView>
    decreases s.len(),
{
    if s.len() == 0 {
        s
    } else {
        insert_sorted(s.last(), sort_by_date_spec(s.drop_last()))
    }
}

/// The full date filter: coarse existence test, per-entry clip, removal of
/// emptied documents, and a stable sort by first range start.
pub open spec fn spec_filter_date(s: Seq<DocView>, ws: Timestamp, we: Option<Timestamp>) -> Seq<
    DocView,
> {
    sort_by_date_spec(keep_nonempty(clip_all(keep_coarse(s, ws, we), ws, we)))
}

proof fn lemma_insert_at(x: DocView, s: Seq<DocView>, j: int)
    requires
        0 <= j <= s.len(),
        forall|i: int| 0 <= i < j ==> key_le(#[trigger] s[i], x),
        j < s.len() ==> !key_le(s[j], x),
    ensures
        insert_sorted(x, s) == s.take(j) + seq![x] + s.skip(j),
    decreases s.len(),
{
    if s.len() == 0 {
        assert(insert_sorted(x, s) =~= s.take(j) + seq![x] + s.skip(j));
    } else if j == 0 {
        assert(insert_sorted(x, s) =~= s.take(0) + seq![x] + s.skip(0));
    } else {
        assert(key_le(s[0], x));
        lemma_insert_at(x, s.drop_first(), j - 1);
        assert(seq![s[0]] + (s.drop_first().take(j - 1) + seq![x] + s.drop_first().skip(j - 1))
            =~= s.take(j) + seq![x] + s.skip(j));
    }
}

fn doc_key(d: &DiaryDoc) -> (r: Option<Timestamp>)
    ensures
        r == doc_sort_key(d@),
{
    let ranges = d.worklog_range();
    if ranges.len() == 0 {
        None
    } else {
        Some(ranges[0].start)
    }
}

fn key_le_exec(a: &DiaryDoc, b: &DiaryDoc) -> (r: bool)
    ensures
        r == key_le(a@, b@),
{
    match (doc_key(a), doc_key(b)) {
        (Option::None, _) => true,
        (Option::Some(_), Option::None) => false,
        (Option::Some(x), Option::Some(y)) => !ts_lt(&y, &x),
    }
}

/// Sorts documents by the start of their first derived range, ascending, with
/// documents lacking ranges first; the order of equal keys is kept.
pub fn sort_by_date(data: Vec<DiaryDoc>) -> (r: Vec<DiaryDoc>)
    ensures
        docs_view(r@) == sort_by_date_spec(docs_view(data@)),
{
    let n = data.len();
    let mut out: Vec<DiaryDoc> = Vec::new();
    let mut i: usize = 0;
    proof {
        assert(docs_view(out@) =~= sort_by_date_spec(docs_view(data@).take(0)));
    }
    while i < n
        invariant
            i <= n,
            n == data@.len(),
            docs_view(out@) == sort_by_date_spec(docs_view(data@).take(i as int)),
        decreases n - i,
    {
        let ghost views = docs_view(data@);
        let x = data[i].clone();
        let ghost prev = docs_view(out@);
        let mut j: usize = 0;
        let m = out.len();
        while j < m && key_le_exec(&out[j], &x)
            invariant
                j <= m,
                m == out@.len(),
                x@ == views[i as int],
                prev == docs_view(out@),
                forall|k: int| 0 <= k < j ==> key_le(#[trigger] prev[k], x@),
            decreases m - j,
        {
            j = j + 1;
        }
        proof {
            lemma_insert_at(x@, prev, j as int);
        }
        out.insert(j, x);
        proof {
            assert(docs_view(out@) =~= prev.take(j as int) + seq![views[i as int]] + prev.skip(
                j as int));
            assert(views.take(i as int + 1).drop_last() =~= views.take(i as int));
            assert(views.take(i as int + 1).last() == views[i as int]);
            assert(docs_view(out@) =~= sort_by_date_spec(views.take(i as int + 1)));
        }
        i = i + 1;
    }
    proof {
        assert(docs_view(data@).take(n as int) =~= docs_view(data@));
    }
    out
}

fn window_start_exec(d: &Date) -> (r: Timestamp)
    ensures
        r == window_start(*d),
{
    Timestamp { date: *d, hour: 0, minute: 0, second: 0 }
}

fn window_end_exec(d: &Date) -> (r: Timestamp)
    ensures
        r == window_end(*d),
{
    Timestamp { date: *d, hour: 23, minute: 59, second: 59 }
}

fn keep_entry_exec(entry: &str, ws: &Timestamp, we: &Option<Timestamp>) -> (r: bool)
    ensures
        r == keep_entry(entry@, *ws, *we),
{
    match parse_worklog_entry(entry) {
        Ok(range) => ts_lt(ws, &range.start) && (match we {
            Some(en) => ts_lt(&range.end, en),
            None => true,
        }),
        Err(_) => false,
    }
}

/// One document with its raw worklog rebuilt to the entries strictly inside
/// the window.
fn clip_doc_exec(doc: DiaryDoc, ws: &Timestamp, we: &Option<Timestamp>) -> (r: DiaryDoc)
    ensures
        r@ == clip_doc(doc@, *ws, *we),
{
    let DiaryDoc { metadata, path } = doc;
    let Metadata { author, date, tags, estimate, worklog } = metadata;
    let ghost wv = worklog@.map_values(|s: String| s@);
    let n = worklog.len();
    let mut kept: Vec<String> = Vec::new();
    let mut i: usize = 0;
    proof {
        reveal(Seq::filter);
        assert(kept@.map_values(|s: String| s@) =~= clip_worklog(wv.take(0), *ws, *we));
    }
    while i < n
        invariant
            i <= n,
            n == worklog@.len(),
            wv == worklog@.map_values(|s: String| s@),
            kept@.map_values(|s: String| s@) == clip_worklog(wv.take(i as int), *ws, *we),
        decreases n - i,
    {
        let ghost prev = kept@;
        proof {
            reveal(Seq::filter);
            assert(wv.take(i as int + 1).drop_last() =~= wv.take(i as int));
            assert(wv.take(i as int + 1).last() == worklog@[i as int]@);
        }
        if keep_entry_exec(worklog[i].as_str(), ws, we) {
            kept.push(worklog[i].clone());
            proof {
                assert(kept@.map_values(|s: String| s@) =~= prev.map_values(
                    |s: String| s@).push(worklog@[i as int]@));
            }
        }
        proof {
            assert(kept@.map_values(|s: String| s@) =~= clip_worklog(
                wv.take(i as int + 1), *ws, *we));
        }
        i = i + 1;
    }
    proof {
        assert(wv.take(n as int) =~= wv);
    }
    let r = DiaryDoc {
        metadata: Metadata { author, date, tags, estimate, worklog: kept },
        path,
    };
    proof {
        assert(r@ =~~= clip_doc(DocView { path: path@, meta: MetaView {
            author: crate::model::opt_str_view(author),
            date: crate::model::opt_str_view(date),
            tags: tags@.map_values(|s: String| s@),
            estimate: crate::model::opt_str_view(estimate),
            worklog: wv,
        } }, *ws, *we));
    }
    r
}

fn coarse_keep_exec(d: &DiaryDoc, ws: &Timestamp, we: &Option<Timestamp>) -> (r: bool)
    ensures
        r == coarse_keep(d@, *ws, *we),
{
    if !d.has_work_after(ws) {
        return false;
    }
    match we {
        Some(en) => d.has_work_before(en),
        None => true,
    }
}

/// Selects and clips documents against a half-open date window and sorts the
/// survivors by the start of their first remaining range.
pub fn filter_date(data: Vec<DiaryDoc>, start_date: &Date, end_date: &Option<Date>) -> (r: Vec<
    DiaryDoc,
>)
    ensures
        docs_view(r@) == spec_filter_date(
            docs_view(data@),
            window_start(*start_date),
            end_ts_view(*end_date),
        ),
{
    let ws = window_start_exec(start_date);
    let we: Option<Timestamp> = match end_date {
        Some(d) => Some(window_end_exec(d)),
        None => None,
    };
    let n = data.len();
    let mut coarse: Vec<DiaryDoc> = Vec::new();
    let mut i: usize = 0;
    proof {
        reveal(Seq::filter);
        assert(docs_view(coarse@) =~= keep_coarse(docs_view(data@).take(0), ws, we));
    }
    while i < n
        invariant
            i <= n,
            n == data@.len(),
            ws == window_start(*start_date),
            we == end_ts_view(*end_date),
            docs_view(coarse@) == keep_coarse(docs_view(data@).take(i as int), ws, we),
        decreases n - i,
    {
        let ghost views = docs_view(data@);
        let ghost prev = coarse@;
        proof {
            reveal(Seq::filter);
            assert(views.take(i as int + 1).drop_last() =~= views.take(i as int));
            assert(views.take(i as int + 1).last() == data@[i as int]@);
        }
        if coarse_keep_exec(&data[i], &ws, &we) {
            coarse.push(data[i].clone());
            proof {
                assert(docs_view(coarse@) =~= docs_view(prev).push(data@[i as int]@));
            }
        }
        proof {
            assert(docs_view(coarse@) =~= keep_coarse(views.take(i as int + 1), ws, we));
        }
        i = i + 1;
    }
    proof {
        assert(docs_view(data@).take(n as int) =~= docs_view(data@));
    }
    let ghost coarse_views = docs_view(coarse@);
    let m = coarse.len();
    let mut clipped: Vec<DiaryDoc> = Vec::new();
    let mut k: usize = 0;
    proof {
        assert(docs_view(clipped@) =~= clip_all(coarse_views.take(0), ws, we));
    }
    while k < m
        invariant
            k <= m,
            m == coarse@.len(),
            ws == window_start(*start_date),
            we == end_ts_view(*end_date),
            coarse_views == docs_view(coarse@),
            docs_view(clipped@) == clip_all(coarse_views.take(k as int), ws, we),
        decreases m - k,
    {
        let ghost prev = clipped@;
        let c = clip_doc_exec(coarse[k].clone(), &ws, &we);
        clipped.push(c);
        proof {
            assert(docs_view(clipped@) =~= docs_view(prev).push(
                clip_doc(coarse_views[k as int], ws, we)));
            assert(clip_all(coarse_views.take(k as int + 1), ws, we) =~= clip_all(
                coarse_views.take(k as int), ws, we).push(clip_doc(
                coarse_views[k as int], ws, we)));
        }
        k = k + 1;
    }
    proof {
        assert(coarse_views.take(m as int) =~= coarse_views);
    }
    let ghost clipped_views = docs_view(clipped@);
    let p = clipped.len();
    let mut nonempty: Vec<DiaryDoc> = Vec::new();
    let mut q: usize = 0;
    proof {
        reveal(Seq::filter);
        assert(docs_view(nonempty@) =~= keep_nonempty(clipped_views.take(0)));
    }
    while q < p
        invariant
            q <= p,
            p == clipped@.len(),
            clipped_views == docs_view(clipped@),
            docs_view(nonempty@) == keep_nonempty(clipped_views.take(q as int)),
        decreases p - q,
    {
        let ghost prev = nonempty@;
        proof {
            reveal(Seq::filter);
            assert(clipped_views.take(q as int + 1).drop_last() =~= clipped_views.take(q as int));
            assert(clipped_views.take(q as int + 1).last() == clipped@[q as int]@);
        }
        if clipped[q].metadata.worklog.len() > 0 {
            nonempty.push(clipped[q].clone());
            proof {
                assert(docs_view(nonempty@) =~= docs_view(prev).push(clipped@[q as int]@));
            }
        }
        proof {
            assert(docs_view(nonempty@) =~= keep_nonempty(clipped_views.take(q as int + 1)));
        }
        q = q + 1;
    }
    proof {
        assert(clipped_views.take(p as int) =~= clipped_views);
    }
    sort_by_date(nonempty)
}

/// Documents selected and clipped by date window alone.
pub fn by_date(start_date: &Date, end_date: &Option<Date>, data: Vec<DiaryDoc>) -> (r: Vec<
    DiaryDoc,
>)
    ensures
        docs_view(r@) == spec_filter_date(
            docs_view(data@),
            window_start(*start_date),
            end_ts_view(*end_date),
        ),
{
    filter_date(data, start_date, end_date)
}

/// The tag filter composed with the date clip.
pub fn by_tags_and_date(
    tags: Vec<String>,
    start_date: &Date,
    end_date: &Option<Date>,
    data: Vec<DiaryDoc>,
) -> (r: Vec<DiaryDoc>)
    ensures
        docs_view(r@) == spec_filter_date(
            keep_tagged(docs_view(data@), tags@.map_values(|s: String| s@)),
            window_start(*start_date),
            end_ts_view(*end_date),
        ),
{
    let selected = by_tags(tags, data);
    filter_date(selected, start_date, end_date)
}

/// The path filter composed with the date clip.
pub fn by_path_and_date(
    path: &str,
    start_date: &Date,
    end_date: &Option<Date>,
    data: Vec<DiaryDoc>,
) -> (r: Vec<DiaryDoc>)
    ensures
        docs_view(r@) == spec_filter_date(
            keep_path(docs_view(data@), path@),
            window_start(*start_date),
            end_ts_view(*end_date),
        ),
{
    let selected = by_path(path, data);
    filter_date(selected, start_date, end_date)
}

} // verus!
