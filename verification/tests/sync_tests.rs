use diary::actions::stop_active_docs;
use diary::datetime::{Date, Timestamp};
use diary::jira::{JiraAuthor, JiraComment, JiraCommentHolder, JiraError, JiraTicket,
    JiraTicketFields, JiraTimetracking, jira_key, sync_worklogs, worklog_uri};
use diary::model::{DiaryDoc, Metadata};
use diary::report::{doc_seconds, duration_seconds, fname, looks_like_ticket};
use diary::storage::{comments_block, create_entry_plan, replace_frontmatter};

fn doc(path: &str, worklog: Vec<&str>) -> DiaryDoc {
    DiaryDoc {
        metadata: Metadata {
            author: None,
            date: None,
            tags: vec![],
            estimate: None,
            worklog: worklog.into_iter().map(String::from).collect(),
        },
        path: String::from(path),
    }
}

fn ts(y: u16, mo: u8, day: u8, h: u8, mi: u8, s: u8) -> Timestamp {
    Timestamp { date: Date { year: y, month: mo, day }, hour: h, minute: mi, second: s }
}

fn ticket(key: &str) -> JiraTicket {
    JiraTicket {
        url: String::from("https://tracker.example/PROJ-7"),
        key: String::from(key),
        fields: JiraTicketFields {
            description: Some(String::from("a description")),
            summary: String::from("a summary"),
            comment: JiraCommentHolder {
                comments: vec![
                    JiraComment {
                        author: JiraAuthor { display_name: String::from("Alice") },
                        body: String::from("first comment"),
                    },
                    JiraComment {
                        author: JiraAuthor { display_name: String::from("Bob") },
                        body: String::from("second comment"),
                    },
                ],
            },
            creator: JiraAuthor { display_name: String::from("Alice") },
            timetracking: JiraTimetracking { original_estimate: Some(String::from("3d")) },
        },
    }
}

#[test]
fn ticket_heuristic_examples() {
    assert!(looks_like_ticket("ABC-123"));
    assert!(looks_like_ticket("-123"));
    assert!(!looks_like_ticket("my tag"));
    assert!(!looks_like_ticket("abc-123"));
    assert!(!looks_like_ticket("ABC-12x"));
    assert!(looks_like_ticket("A1B2-"));
    assert!(!looks_like_ticket("ABC"));
}

#[test]
fn fname_takes_last_segment() {
    assert_eq!(fname(&doc("work/area/PROJ-7.md", vec![])), "PROJ-7.md");
    assert_eq!(fname(&doc("alone.md", vec![])), "alone.md");
}

#[test]
fn jira_key_strips_directory_and_extension() {
    assert_eq!(jira_key(&doc("work/PROJ-7.md", vec![])), Some(String::from("PROJ-7")));
    assert_eq!(jira_key(&doc("no_directory.md", vec![])), None);
    assert_eq!(jira_key(&doc("dir/no_extension", vec![])), None);
}

#[test]
fn worklog_uri_shape() {
    assert_eq!(worklog_uri("PROJ-7"), "/rest/api/2/issue/PROJ-7/worklog");
}

#[test]
fn jira_error_text() {
    let e = JiraError { message: String::from("boom") };
    assert_eq!(e.text(), "JiraError: boom");
}

#[test]
fn durations_in_seconds() {
    let d = doc("a.md", vec![
        "2023-04-01T09:00:00,2023-04-01T10:00:00",
        "2023-04-01T11:00:00,2023-04-01T11:30:00",
        "broken entry",
    ]);
    let ranges = d.worklog_range();
    assert_eq!(duration_seconds(&ranges[0]), 3600);
    assert_eq!(duration_seconds(&ranges[1]), 1800);
    assert_eq!(doc_seconds(&d), 5400);
}

#[test]
fn negative_durations_are_kept() {
    let d = doc("a.md", vec!["2023-04-01T10:00:00,2023-04-01T09:00:00"]);
    assert_eq!(doc_seconds(&d), -3600);
}

#[test]
fn sync_plan_skips_existing_starts() {
    let d = doc("work/PROJ-7.md", vec![
        "2023-04-01T09:00:00,2023-04-01T10:00:00",
        "2023-04-02T09:00:00,2023-04-02T09:45:00",
        "2023-04-03T09:00:00,",
    ]);
    let existing = vec![ts(2023, 4, 1, 9, 0, 0)];
    let plan = sync_worklogs(&d, &existing);
    assert_eq!(plan.len(), 1);
    assert_eq!(plan[0].started, ts(2023, 4, 2, 9, 0, 0));
    assert_eq!(plan[0].seconds, 2700);
}

#[test]
fn sync_plan_empty_when_all_exist() {
    let d = doc("work/PROJ-7.md", vec!["2023-04-01T09:00:00,2023-04-01T10:00:00"]);
    let existing = vec![ts(2023, 4, 1, 9, 0, 0)];
    assert!(sync_worklogs(&d, &existing).is_empty());
}

#[test]
fn stop_active_docs_stops_only_active() {
    let open = doc("open.md", vec!["2023-04-01T09:00:00,"]);
    let closed = doc("closed.md", vec!["2023-04-01T09:00:00,2023-04-01T10:00:00"]);
    let stopped = stop_active_docs(vec![open, closed], ts(2023, 4, 1, 11, 0, 0));
    assert_eq!(stopped.len(), 1);
    assert_eq!(stopped[0].path, "open.md");
    assert!(!stopped[0].is_active());
    assert_eq!(stopped[0].metadata.worklog[0], "2023-04-01T09:00:00,2023-04-01T11:00:00");
}

#[test]
fn frontmatter_is_replaced_in_place() {
    let content = "---\nold: value\n---\n# Body\ntext";
    let r = replace_frontmatter(content, "new: value");
    assert_eq!(r, "---\nnew: value\n---\n# Body\ntext");
}

#[test]
fn frontmatter_is_prepended_when_absent_or_unterminated() {
    assert_eq!(replace_frontmatter("# Body", "a: 1"), "---\na: 1\n---# Body");
    assert_eq!(replace_frontmatter("---\nnever closed", "a: 1"), "---\na: 1\n------\nnever closed");
}

#[test]
fn create_entry_plan_derives_tags_and_path() {
    let t = ticket("PROJ-7");
    let (meta, path) = create_entry_plan(&t, None, "/data/diary");
    assert_eq!(meta.tags, vec![String::from("PROJ"), String::from("PROJ-7")]);
    assert_eq!(meta.author, Some(String::from("Alice")));
    assert_eq!(meta.estimate, Some(String::from("3d")));
    assert!(meta.worklog.is_empty());
    assert_eq!(path, "/data/diary/PROJ/PROJ-7.md");

    let (meta2, path2) = create_entry_plan(&t, Some("clients"), "/data/diary");
    assert_eq!(
        meta2.tags,
        vec![String::from("PROJ"), String::from("PROJ-7"), String::from("clients")]
    );
    assert_eq!(path2, "/data/diary/clients/PROJ/PROJ-7.md");
}

#[test]
fn comments_join_with_blank_lines() {
    let t = ticket("PROJ-7");
    let block = comments_block(&t.fields.comment.comments);
    assert_eq!(block, "## Alice\nfirst comment\n\n## Bob\nsecond comment");
    assert_eq!(comments_block(&vec![]), "");
}
