use diary::datetime::{Date, Timestamp};
use diary::model::{DiaryDoc, Metadata};
use diary::query::{all, active, by_tags, by_path, by_date, by_tags_and_date, by_path_and_date,
    filter_date, sort_by_date};

fn doc_with_tags(path: &str, tags: Vec<&str>, worklog: Vec<&str>) -> DiaryDoc {
    DiaryDoc {
        metadata: Metadata {
            author: None,
            date: None,
            tags: tags.into_iter().map(String::from).collect(),
            estimate: None,
            worklog: worklog.into_iter().map(String::from).collect(),
        },
        path: String::from(path),
    }
}

fn paths(docs: &[DiaryDoc]) -> Vec<&str> {
    docs.iter().map(|d| d.path.as_str()).collect()
}

#[test]
fn all_returns_repository_unchanged_twice() {
    let data = vec![
        doc_with_tags("a.md", vec!["X"], vec!["2023-04-01T09:00:00,2023-04-01T10:00:00"]),
        doc_with_tags("b.md", vec!["Y"], vec![]),
    ];
    let first = all(data);
    let first_paths: Vec<String> = first.iter().map(|d| d.path.clone()).collect();
    let second = all(first);
    let second_paths: Vec<String> = second.iter().map(|d| d.path.clone()).collect();
    assert_eq!(first_paths, vec!["a.md", "b.md"]);
    assert_eq!(first_paths, second_paths);
    assert_eq!(second[0].metadata.worklog.len(), 1);
}

#[test]
fn by_tags_keeps_overlapping_tag_sets() {
    let data = vec![
        doc_with_tags("xy.md", vec!["X", "Y"], vec![]),
        doc_with_tags("z.md", vec!["Z"], vec![]),
    ];
    let r = by_tags(vec![String::from("X")], data);
    assert_eq!(paths(&r), vec!["xy.md"]);
}

#[test]
fn by_path_matches_substrings() {
    let data = vec![
        doc_with_tags("work/PROJ-1.md", vec![], vec![]),
        doc_with_tags("home/note.md", vec![], vec![]),
    ];
    let r = by_path("PROJ", data);
    assert_eq!(paths(&r), vec!["work/PROJ-1.md"]);
    let data2 = vec![doc_with_tags("work/PROJ-1.md", vec![], vec![])];
    let everything = by_path("", data2);
    assert_eq!(everything.len(), 1);
}

#[test]
fn active_filters_open_documents() {
    let a = doc_with_tags("a.md", vec![], vec!["2023-04-01T09:00:00,2023-04-01T10:00:00"]);
    let b = doc_with_tags("b.md", vec![], vec!["2023-04-02T09:00:00,"]);
    let r = active(vec![a, b]);
    assert_eq!(paths(&r), vec!["b.md"]);
}

#[test]
fn date_scenario_two_documents() {
    // A holds one closed range, B only an open entry: a date query keeps A
    // with its range intact and drops B, which has nothing to clip.
    let a = doc_with_tags("a.md", vec![], vec!["2023-04-01T09:00:00,2023-04-01T10:00:00"]);
    let b = doc_with_tags("b.md", vec![], vec!["2023-04-02T09:00:00,"]);
    let r = by_date(&Date { year: 2023, month: 4, day: 1 }, &None, vec![a, b]);
    assert_eq!(paths(&r), vec!["a.md"]);
    assert_eq!(r[0].metadata.worklog, vec![String::from("2023-04-01T09:00:00,2023-04-01T10:00:00")]);
}

#[test]
fn clip_boundaries_are_strict() {
    // A range starting exactly at the window edge is excluded; moving the
    // window one second earlier includes it.
    let entry = "2023-04-01T00:00:00,2023-04-01T01:00:00";
    let on_edge = doc_with_tags("edge.md", vec![], vec![entry]);
    let r = filter_date(vec![on_edge], &Date { year: 2023, month: 4, day: 1 }, &None);
    assert!(r.is_empty());

    let inside = doc_with_tags("edge.md", vec![], vec![entry]);
    let r2 = filter_date(vec![inside], &Date { year: 2023, month: 3, day: 31 }, &None);
    assert_eq!(r2.len(), 1);
    assert_eq!(r2[0].metadata.worklog, vec![String::from(entry)]);
}

#[test]
fn clip_end_boundary_is_strict_too() {
    // The window end lies at 23:59:59: a range ending exactly there is
    // excluded, one ending a second earlier survives.
    let exact = doc_with_tags("x.md", vec![], vec!["2023-04-01T09:00:00,2023-04-01T23:59:59"]);
    let earlier = doc_with_tags("y.md", vec![], vec!["2023-04-01T09:00:00,2023-04-01T23:59:58"]);
    let window = Some(Date { year: 2023, month: 4, day: 1 });
    let r = filter_date(vec![exact, earlier], &Date { year: 2023, month: 3, day: 31 }, &window);
    assert_eq!(paths(&r), vec!["y.md"]);
}

#[test]
fn clip_rewrites_worklogs_and_drops_emptied_documents() {
    let d = doc_with_tags("mix.md", vec![], vec![
        "2023-03-01T09:00:00,2023-03-01T10:00:00",
        "2023-04-02T09:00:00,2023-04-02T10:00:00",
        "nonsense entry",
    ]);
    let r = filter_date(vec![d], &Date { year: 2023, month: 4, day: 1 }, &None);
    assert_eq!(r.len(), 1);
    assert_eq!(r[0].metadata.worklog, vec![
        String::from("2023-04-02T09:00:00,2023-04-02T10:00:00"),
    ]);
    let only_march = doc_with_tags("m.md", vec![], vec!["2023-03-01T09:00:00,2023-03-01T10:00:00"]);
    let empty = filter_date(vec![only_march], &Date { year: 2023, month: 4, day: 1 }, &None);
    assert!(empty.is_empty());
}

#[test]
fn results_sort_by_first_range_start() {
    let later = doc_with_tags("later.md", vec![], vec!["2023-04-03T09:00:00,2023-04-03T10:00:00"]);
    let earlier = doc_with_tags("earlier.md", vec![], vec!["2023-04-02T09:00:00,2023-04-02T10:00:00"]);
    let r = by_date(&Date { year: 2023, month: 4, day: 1 }, &None, vec![later, earlier]);
    assert_eq!(paths(&r), vec!["earlier.md", "later.md"]);
}

#[test]
fn sort_keeps_equal_keys_stable_and_no_range_docs_first() {
    let a = doc_with_tags("a.md", vec![], vec!["2023-04-02T09:00:00,2023-04-02T10:00:00"]);
    let b = doc_with_tags("b.md", vec![], vec!["2023-04-02T09:00:00,2023-04-02T11:00:00"]);
    let none = doc_with_tags("none.md", vec![], vec![]);
    let r = sort_by_date(vec![a, b, none]);
    assert_eq!(paths(&r), vec!["none.md", "a.md", "b.md"]);
}

#[test]
fn tag_and_path_compositions() {
    let tagged = doc_with_tags("t.md", vec!["X"], vec!["2023-04-02T09:00:00,2023-04-02T10:00:00"]);
    let other = doc_with_tags("o.md", vec!["Z"], vec!["2023-04-02T09:00:00,2023-04-02T10:00:00"]);
    let start = Date { year: 2023, month: 4, day: 1 };
    let r = by_tags_and_date(vec![String::from("X")], &start, &None, vec![tagged, other]);
    assert_eq!(paths(&r), vec!["t.md"]);

    let p1 = doc_with_tags("work/a.md", vec![], vec!["2023-04-02T09:00:00,2023-04-02T10:00:00"]);
    let p2 = doc_with_tags("home/b.md", vec![], vec!["2023-04-02T09:00:00,2023-04-02T10:00:00"]);
    let r2 = by_path_and_date("work", &start, &None, vec![p1, p2]);
    assert_eq!(paths(&r2), vec!["work/a.md"]);
}

#[test]
fn bounded_window_requires_work_before_end() {
    let d = doc_with_tags("late.md", vec![], vec!["2023-05-10T09:00:00,2023-05-10T10:00:00"]);
    let r = by_date(
        &Date { year: 2023, month: 4, day: 1 },
        &Some(Date { year: 2023, month: 4, day: 30 }),
        vec![d],
    );
    assert!(r.is_empty());
}
