//! Pure pieces of the storage boundary: splicing a fresh structured header
//! into a document's text, and planning a new document for a fetched ticket.
//! Reading and writing files, and rendering the header itself, stay with the
//! caller.

use vstd::prelude::*;
use crate::jira::{JiraTicket, JiraComment};
use crate::model::{Metadata, MetaView, opt_str_view};
use crate::text::{has_ch, first_ix, lemma_first_ix, has_match_from, first_match_from,
    lemma_first_match_from, matches_at, chars_of, find_char_from, find_sub_from};

verus! {

/// A document text wrapped around a fresh header block.
pub open spec fn spec_wrap_frontmatter(new_fm: Seq<char>, rest: Seq<char>) -> Seq<char> {
    "---\n"@ + new_fm + "\n---"@ + rest
}

/// The document text with its header block replaced by `new_fm`: when the
/// text opens with a delimiter and closes it, everything up to the closing
/// delimiter is replaced; otherwise the new header is prepended.
pub open spec fn spec_replace_frontmatter(content: Seq<char>, new_fm: Seq<char>) -> Seq<char> {
    if matches_at(content, "---"@, 0) && has_match_from(content, "---"@, 3) {
        spec_wrap_frontmatter(new_fm, content.skip(first_match_from(content, "---"@, 3) + 3))
    } else {
        spec_wrap_frontmatter(new_fm, content)
    }
}

/// Splices a fresh header into a document's text.
pub fn replace_frontmatter(content: &str, new_fm: &str) -> (r: String)
    ensures
        r@ == spec_replace_frontmatter(content@, new_fm@),
{
    proof {
        reveal_strlit("---");
        reveal_strlit("---\n");
        reveal_strlit("\n---");
    }
    let v = chars_of(content);
    let n = v.len();
    let pat = chars_of("---");
    let mut out = String::from_str("---\n");
    out.append(new_fm);
    out.append("\n---");
    let starts = n >= 3 && v[0] == '-' && v[1] == '-' && v[2] == '-';
    proof {
        if n >= 3 {
            assert(content@.subrange(0, 3)[0] == content@[0] && content@.subrange(0, 3)[1]
                == content@[1] && content@.subrange(0, 3)[2] == content@[2]);
            if v@[0] == '-' && v@[1] == '-' && v@[2] == '-' {
                assert(content@.subrange(0, 3) =~= "---"@);
            }
        }
        assert(starts == matches_at(content@, "---"@, 0));
    }
    if starts {
        match find_sub_from(&v, &pat, 3) {
            Some(e) => {
                proof {
                    lemma_first_match_from(content@, "---"@, 3, e as int);
                }
                let tail = content.substring_char(e + 3, n);
                out.append(tail);
                proof {
                    assert(out@ =~= spec_replace_frontmatter(content@, new_fm@));
                }
                return out;
            },
            None => {
                proof {
                    assert(!has_match_from(content@, "---"@, 3));
                }
            },
        }
    }
    out.append(content);
    proof {
        assert(out@ =~= spec_replace_frontmatter(content@, new_fm@));
    }
    out
}

/// The ticket-tag prefix of a key: the text before its first hyphen, or the
/// whole key without one.
pub open spec fn spec_key_prefix(key: Seq<char>) -> Seq<char> {
    if has_ch(key, '-') {
        key.take(first_ix(key, '-'))
    } else {
        key
    }
}

fn key_prefix(key: &str) -> (r: String)
    ensures
        r@ == spec_key_prefix(key@),
{
    let v = chars_of(key);
    let n = v.len();
    match find_char_from(&v, 0, '-') {
        Some(i) => {
            proof {
                lemma_first_ix(v@, '-', i as int);
            }
            let head = key.substring_char(0, i);
            proof {
                assert(head@ =~= v@.take(i as int));
            }
            head.to_owned()
        },
        None => key.to_owned(),
    }
}

/// The metadata a fresh document for `ticket` carries: the key prefix, the
/// key itself, and the base path when given, as tags; the creator as author;
/// the original estimate; an empty worklog.
pub open spec fn spec_new_entry_meta(ticket: JiraTicket, base_path: Option<Seq<char>>) -> MetaView {
    MetaView {
        author: Some(ticket.fields.creator.display_name@),
        date: None,
        tags: match base_path {
            Some(b) => seq![spec_key_prefix(ticket.key@), ticket.key@, b],
            None => seq![spec_key_prefix(ticket.key@), ticket.key@],
        },
        estimate: opt_str_view(ticket.fields.timetracking.original_estimate),
        worklog: Seq::empty(),
    }
}

/// The storage path of a fresh document: under the key prefix (below the base
/// path when given), named by the key.
pub open spec fn spec_new_entry_path(root: Seq<char>, key: Seq<char>, base_path: Option<
    Seq<char>,
>) -> Seq<char> {
    let dir = match base_path {
        Some(b) => b + "/"@ + spec_key_prefix(key),
        None => spec_key_prefix(key),
    };
    root + "/"@ + dir + "/"@ + key + ".md"@
}

/// Plans a fresh document for a fetched ticket: its metadata and its path.
pub fn create_entry_plan(ticket: &JiraTicket, base_path: Option<&str>, root: &str) -> (r: (
    Metadata,
    String,
))
    ensures
        r.0@ == spec_new_entry_meta(*ticket, match base_path {
            Some(b) => Some(b@),
            None => None,
        }),
        r.1@ == spec_new_entry_path(root@, ticket.key@, match base_path {
            Some(b) => Some(b@),
            None => None,
        }),
{
    proof {
        reveal_strlit("/");
        reveal_strlit(".md");
    }
    let prefix = key_prefix(ticket.key.as_str());
    let mut tags: Vec<String> = Vec::new();
    tags.push(prefix.clone());
    tags.push(ticket.key.clone());
    let mut dir = String::new();
    match base_path {
        Some(b) => {
            tags.push(String::from_str(b));
            dir.append(b);
            dir.append("/");
            dir.append(prefix.as_str());
        },
        None => {
            dir.append(prefix.as_str());
        },
    }
    let metadata = Metadata {
        author: Some(ticket.fields.creator.display_name.clone()),
        date: None,
        tags,
        estimate: match &ticket.fields.timetracking.original_estimate {
            Some(e) => Some(e.clone()),
            None => None,
        },
        worklog: Vec::new(),
    };
    let mut path = String::from_str(root);
    path.append("/");
    path.append(dir.as_str());
    path.append("/");
    path.append(ticket.key.as_str());
    path.append(".md");
    proof {
        assert(metadata@.tags =~= spec_new_entry_meta(*ticket, match base_path {
            Some(b) => Some(b@),
            None => None,
        }).tags);
        assert(metadata@.worklog =~= Seq::<Seq<char>>::empty());
        assert(metadata@ =~~= spec_new_entry_meta(*ticket, match base_path {
            Some(b) => Some(b@),
            None => None,
        }));
    }
    (metadata, path)
}

/// One comment as a section: its author as a heading, then its body.
pub open spec fn spec_comment_item(c: JiraComment) -> Seq<char> {
    "## "@ + c.author.display_name@ + "\n"@ + c.body@
}

/// All comments of a ticket as blank-line-separated sections.
pub open spec fn spec_comments_block(cs: Seq<JiraComment>) -> Seq<char>
    decreases cs.len(),
{
    if cs.len() == 0 {
        Seq::empty()
    } else if cs.len() == 1 {
        spec_comment_item(cs[0])
    } else {
        spec_comments_block(cs.drop_last()) + "\n\n"@ + spec_comment_item(cs.last())
    }
}

/// Renders a ticket's comments as blank-line-separated sections.
pub fn comments_block(comments: &Vec<JiraComment>) -> (r: String)
    ensures
        r@ == spec_comments_block(comments@),
{
    proof {
        reveal_strlit("## ");
        reveal_strlit("\n");
        reveal_strlit("\n\n");
    }
    let n = comments.len();
    let mut out = String::new();
    let mut i: usize = 0;
    proof {
        assert(out@ =~= spec_comments_block(comments@.take(0)));
    }
    while i < n
        invariant
            i <= n,
            n == comments@.len(),
            out@ == spec_comments_block(comments@.take(i as int)),
        decreases n - i,
    {
        proof {
            assert(comments@.take(i as int + 1).drop_last() =~= comments@.take(i as int));
            assert(comments@.take(i as int + 1).last() == comments@[i as int]);
        }
        if i > 0 {
            out.append("\n\n");
        }
        out.append("## ");
        out.append(comments[i].author.display_name.as_str());
        out.append("\n");
        out.append(comments[i].body.as_str());
        proof {
            assert(out@ =~= spec_comments_block(comments@.take(i as int + 1)));
        }
        i = i + 1;
    }
    proof {
        assert(comments@.take(n as int) =~= comments@);
    }
    out
}

} // verus!
