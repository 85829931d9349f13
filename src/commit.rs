//! Commits as plain values, and the markup of the commit log and of each commit's page.

use vstd::prelude::*;
use vstd::utf8::{decode_utf8, valid_utf8};
use crate::error::{Failure, SiteError};
use crate::markup::{decimal, decimal_text, escape_html, escaped};
use crate::text::decode_text;
use crate::url::{joined, UrlResolver};

verus! {

/// The difference between a commit's tree and its first parent's tree, or the empty
/// tree for a commit without parents.
pub struct ChangeSet {
    pub files_changed: usize,
    pub insertions: usize,
    pub deletions: usize,
    /// The full diffstat, laid out for a width of 72 columns.
    pub stat_text: Vec<u8>,
    /// One entry per changed file, in stored order: its unified patch, or `None` where
    /// there is no textual patch (binary content, a mode change, unchanged content).
    pub patches: Vec<Option<Vec<u8>>>,
}

/// One commit, as read from the repository.
pub struct CommitInfo {
    pub id: String,
    pub parents: Vec<String>,
    pub author_name: Vec<u8>,
    pub author_email: Vec<u8>,
    pub committer_name: Vec<u8>,
    pub committer_email: Vec<u8>,
    /// Seconds since the UNIX epoch.
    pub seconds: i64,
    /// The committer's offset from UTC, in minutes.
    pub offset_minutes: i32,
    /// The first paragraph of the message; `None` where the repository could not tell it.
    pub summary: Option<Vec<u8>>,
    pub message: Vec<u8>,
    pub changes: ChangeSet,
}

/// What chrono writes for the instant `seconds` seen at `offset_seconds` east of UTC,
/// following `pattern`; `None` where chrono cannot represent that instant.
pub uninterp spec fn formatted_time(seconds: i64, offset_seconds: i32, pattern: Seq<char>) -> Option<
    Seq<char>,
>;

pub open spec fn date_pattern() -> Seq<char> {
    "%Y-%m-%d"@
}

pub open spec fn stamp_pattern() -> Seq<char> {
    "%Y-%m-%d %H:%M:%S %:z"@
}

/// Relies on chrono: `FixedOffset::east_opt`, which refuses offsets of a day or more,
/// `TimeZone::timestamp_opt`, which refuses instants out of chrono's range, and
/// `DateTime::format`, here with one of two well-formed patterns.
#[verifier::external_body]
fn format_time(seconds: i64, offset_seconds: i32, pattern: &str) -> (r: Option<String>)
    requires
        pattern@ == date_pattern() || pattern@ == stamp_pattern(),
    ensures
        r matches Some(s) ==> formatted_time(seconds, offset_seconds, pattern@) == Some(s@),
        r is None ==> formatted_time(seconds, offset_seconds, pattern@) is None,
        offset_seconds <= -86400 || offset_seconds >= 86400 ==> r is None,
{
    chrono::FixedOffset::east_opt(offset_seconds).and_then(
        |zone| chrono::TimeZone::timestamp_opt(&zone, seconds, 0).single(),
    ).map(|time| time.format(pattern).to_string())
}

/// The commit time written with `pattern`, at the committer's offset.
pub open spec fn time_text(seconds: i64, offset_minutes: i32, pattern: Seq<char>) -> Option<
    Seq<char>,
> {
    if offset_minutes <= -1440 || offset_minutes >= 1440 {
        None
    } else {
        formatted_time(seconds, (offset_minutes * 60) as i32, pattern)
    }
}

fn commit_time(seconds: i64, offset_minutes: i32, pattern: &str) -> (r: Option<String>)
    requires
        pattern@ == date_pattern() || pattern@ == stamp_pattern(),
    ensures
        r matches Some(s) ==> time_text(seconds, offset_minutes, pattern@) == Some(s@),
        r is None ==> time_text(seconds, offset_minutes, pattern@) is None,
{
    if offset_minutes <= -1440 || offset_minutes >= 1440 {
        None
    } else {
        format_time(seconds, offset_minutes * 60, pattern)
    }
}

impl CommitInfo {
    /// The commit time with its date, time of day and offset, such as
    /// `2021-03-04 05:06:07 +01:00`; `None` where it cannot be represented.
    pub fn time(&self) -> (r: Option<String>)
        ensures
            r matches Some(s) ==> time_text(self.seconds, self.offset_minutes, stamp_pattern())
                == Some(s@),
            r is None ==> time_text(self.seconds, self.offset_minutes, stamp_pattern()) is None,
    {
        commit_time(self.seconds, self.offset_minutes, "%Y-%m-%d %H:%M:%S %:z")
    }
}

/// The pieces of `parts`, one after the other.
pub open spec fn concat_all(parts: Seq<Seq<char>>) -> Seq<char>
    decreases parts.len(),
{
    if parts.len() == 0 {
        Seq::empty()
    } else {
        concat_all(parts.drop_last()) + parts.last()
    }
}

/// Appends `s`, escaped, to `out`.
pub fn push_escaped(out: &mut String, s: &str)
    ensures
        final(out)@ == old(out)@ + escaped(s@),
{
    let e = escape_html(s);
    out.append(e.as_str());
}

/// The link, seen from a page whose way back to the root is `root`, to the page of
/// the commit `id`.
pub open spec fn commit_link(root: Seq<Seq<char>>, id: Seq<char>) -> Seq<char> {
    joined(root.push("commit"@).push(id + ".html"@))
}

/// One row of the commit log.
#[verifier::opaque]
pub open spec fn log_row_markup(
    ci: CommitInfo,
    root: Seq<Seq<char>>,
    stamp: Seq<char>,
    date: Seq<char>,
    summary: Seq<char>,
    author: Seq<char>,
) -> Seq<char> {
    "<tr><td><abbr title=\""@ + escaped(stamp) + "\">"@ + escaped(date) + "</abbr></td><td><a href=\""@
        + escaped(commit_link(root, ci.id@)) + "\">"@ + escaped(summary) + "</a></td><td>"@
        + escaped(author) + "</td><td class=\"numeric\">"@ + decimal(
        ci.changes.files_changed as nat,
    ) + "</td><td class=\"numeric\">"@ + decimal(ci.changes.insertions as nat)
        + "</td><td class=\"numeric\">"@ + decimal(ci.changes.deletions as nat) + "</td></tr>"@
}

/// The row of the commit log for `ci`, or why it cannot be written: a time out of
/// range, then a summary or an author name that is not text.
pub open spec fn log_row(ci: CommitInfo, root: Seq<Seq<char>>) -> Result<Seq<char>, Failure> {
    let stamp = time_text(ci.seconds, ci.offset_minutes, stamp_pattern());
    let date = time_text(ci.seconds, ci.offset_minutes, date_pattern());
    if stamp is None || date is None {
        Err(Failure::ObjectRead(ci.id@))
    } else if ci.summary is None || !valid_utf8(ci.summary->Some_0@) || !valid_utf8(
        ci.author_name@,
    ) {
        Err(Failure::InvalidText(ci.id@))
    } else {
        Ok(
            log_row_markup(
                ci,
                root,
                stamp->Some_0,
                date->Some_0,
                decode_utf8(ci.summary->Some_0@),
                decode_utf8(ci.author_name@),
            ),
        )
    }
}

/// The rows of the commit log, in the order of `cis`, or the first failure.
pub open spec fn log_rows(cis: Seq<CommitInfo>, root: Seq<Seq<char>>) -> Result<Seq<Seq<char>>, Failure>
    decreases cis.len(),
{
    if cis.len() == 0 {
        Ok(Seq::empty())
    } else {
        match log_rows(cis.drop_last(), root) {
            Err(e) => Err(e),
            Ok(rows) => match log_row(cis.last(), root) {
                Err(e) => Err(e),
                Ok(row) => Ok(rows.push(row)),
            },
        }
    }
}

pub open spec fn log_head() -> Seq<char> {
    "<table><thead><tr><th>Date</th><th>Commit message</th><th>Author</th><th class=\"numeric\">Files</th><th class=\"numeric\">+</th><th class=\"numeric\">-</th></tr></thead><tbody>"@
}

/// The commit log table around `rows`.
pub open spec fn log_table(rows: Seq<Seq<char>>) -> Seq<char> {
    log_head() + concat_all(rows) + "</tbody></table>"@
}

fn log_row_text(
    ci: &CommitInfo,
    link: &str,
    stamp: &str,
    date: &str,
    summary: &str,
    author: &str,
    Ghost(root): Ghost<Seq<Seq<char>>>,
) -> (r: String)
    requires
        link@ == commit_link(root, ci.id@),
    ensures
        r@ == log_row_markup(*ci, root, stamp@, date@, summary@, author@),
{
    let mut row = String::new();
    row.append("<tr><td><abbr title=\"");
    push_escaped(&mut row, stamp);
    row.append("\">");
    push_escaped(&mut row, date);
    row.append("</abbr></td><td><a href=\"");
    push_escaped(&mut row, link);
    row.append("\">");
    push_escaped(&mut row, summary);
    row.append("</a></td><td>");
    push_escaped(&mut row, author);
    row.append("</td><td class=\"numeric\">");
    row.append(decimal_text(ci.changes.files_changed).as_str());
    row.append("</td><td class=\"numeric\">");
    row.append(decimal_text(ci.changes.insertions).as_str());
    row.append("</td><td class=\"numeric\">");
    row.append(decimal_text(ci.changes.deletions).as_str());
    row.append("</td></tr>");
    reveal(log_row_markup);
    assert(row@ =~= log_row_markup(*ci, root, stamp@, date@, summary@, author@));
    row
}

fn log_row_exec(ci: &CommitInfo, root: &UrlResolver) -> (r: Result<String, SiteError>)
    ensures
        r is Ok <==> log_row(*ci, root@) is Ok,
        r matches Err(e) ==> log_row(*ci, root@) == Err::<Seq<char>, Failure>(e@),
        r matches Ok(row) ==> log_row(*ci, root@) == Ok::<Seq<char>, Failure>(row@),
{
    let stamp = match commit_time(ci.seconds, ci.offset_minutes, "%Y-%m-%d %H:%M:%S %:z") {
        Some(s) => s,
        None => return Err(SiteError::ObjectRead(ci.id.clone())),
    };
    let date = match commit_time(ci.seconds, ci.offset_minutes, "%Y-%m-%d") {
        Some(s) => s,
        None => return Err(SiteError::ObjectRead(ci.id.clone())),
    };
    let summary = match &ci.summary {
        Some(b) => match decode_text(b) {
            Ok(s) => s,
            Err(_) => return Err(SiteError::InvalidText(ci.id.clone())),
        },
        None => return Err(SiteError::InvalidText(ci.id.clone())),
    };
    let author = match decode_text(&ci.author_name) {
        Ok(s) => s,
        Err(_) => return Err(SiteError::InvalidText(ci.id.clone())),
    };
    let link = root.commit_file(ci.id.as_str()).to_text();
    Ok(log_row_text(ci, link.as_str(), stamp.as_str(), date.as_str(), summary.as_str(), author.as_str(), Ghost(root@)))
}

/// The commit log table for `cis`, newest first as given, seen from a page whose way
/// back to the root is `root`.
pub fn log_markup(cis: &Vec<CommitInfo>, root: &UrlResolver) -> (r: Result<String, SiteError>)
    ensures
        r is Ok <==> log_rows(cis@, root@) is Ok,
        r matches Err(e) ==> log_rows(cis@, root@) == Err::<Seq<Seq<char>>, Failure>(e@),
        r matches Ok(s) ==> s@ == log_table(log_rows(cis@, root@)->Ok_0),
{
    let mut out = String::new();
    out.append("<table><thead><tr><th>Date</th><th>Commit message</th><th>Author</th><th class=\"numeric\">Files</th><th class=\"numeric\">+</th><th class=\"numeric\">-</th></tr></thead><tbody>");
    let n = cis.len();
    for i in 0..n
        invariant
            n == cis@.len(),
            log_rows(cis@.take(i as int), root@) is Ok,
            out@ == log_head() + concat_all(log_rows(cis@.take(i as int), root@)->Ok_0),
    {
        assert(cis@.take(i + 1).drop_last() =~= cis@.take(i as int));
        assert(cis@.take(i + 1).last() == cis@[i as int]);
        match log_row_exec(&cis[i], root) {
            Ok(row) => {
                let ghost rows = log_rows(cis@.take(i as int), root@)->Ok_0;
                out.append(row.as_str());
                assert(rows.push(row@).drop_last() =~= rows);
                assert(out@ =~= log_head() + concat_all(rows.push(row@)));
            },
            Err(e) => {
                proof {
                    lemma_log_rows_err_extends(cis@, root@, (i + 1) as nat);
                }
                return Err(e);
            },
        }
    }
    out.append("</tbody></table>");
    assert(cis@.take(n as int) =~= cis@);
    Ok(out)
}

proof fn lemma_log_rows_err_extends(cis: Seq<CommitInfo>, root: Seq<Seq<char>>, k: nat)
    requires
        k <= cis.len(),
        log_rows(cis.take(k as int), root) is Err,
    ensures
        log_rows(cis, root) == log_rows(cis.take(k as int), root),
    decreases cis.len(),
{
    if k < cis.len() {
        assert(cis.drop_last().take(k as int) =~= cis.take(k as int));
        lemma_log_rows_err_extends(cis.drop_last(), root, k);
    } else {
        assert(cis.take(k as int) =~= cis);
    }
}

/// The parent entries of a commit page, each a link to the parent's own page.
pub open spec fn parents_markup(parents: Seq<String>, root: Seq<Seq<char>>) -> Seq<char>
    decreases parents.len(),
{
    if parents.len() == 0 {
        Seq::empty()
    } else {
        parents_markup(parents.drop_last(), root) + "<dt>parent</dt><dd><a href=\""@ + escaped(
            commit_link(root, parents.last()@),
        ) + "\">"@ + escaped(parents.last()@) + "</a></dd>"@
    }
}

/// Whether every patch that is there is text.
pub open spec fn patches_readable(patches: Seq<Option<Vec<u8>>>) -> bool {
    forall|i: int| 0 <= i < patches.len() && (#[trigger] patches[i]) is Some ==> valid_utf8(
        patches[i]->Some_0@,
    )
}

/// Each patch as a preformatted block, or the marker for a change without one.
pub open spec fn patches_markup(patches: Seq<Option<Vec<u8>>>) -> Seq<char>
    decreases patches.len(),
{
    if patches.len() == 0 {
        Seq::empty()
    } else {
        patches_markup(patches.drop_last()) + match patches.last() {
            Some(b) => "<pre>"@ + escaped(decode_utf8(b@)) + "</pre>"@,
            None => "unchanged or binary"@,
        }
    }
}

/// A person's name followed by a mail link to their address.
pub open spec fn signature_markup(name: Seq<char>, email: Seq<char>) -> Seq<char> {
    escaped(name) + " &lt;<a href=\"mailto:"@ + escaped(email) + "\">"@ + escaped(email)
        + "</a>&gt;"@
}

/// Whether every field that a commit page shows as text is text.
pub open spec fn commit_readable(ci: CommitInfo) -> bool {
    &&& valid_utf8(ci.author_name@)
    &&& valid_utf8(ci.author_email@)
    &&& valid_utf8(ci.committer_name@)
    &&& valid_utf8(ci.committer_email@)
    &&& valid_utf8(ci.message@)
    &&& valid_utf8(ci.changes.stat_text@)
    &&& patches_readable(ci.changes.patches@)
}

/// The content of the page of `ci`: its id, its parents, author, committer, message and
/// diffstat, then each file's patch.
#[verifier::opaque]
pub open spec fn commit_markup(ci: CommitInfo, root: Seq<Seq<char>>) -> Seq<char> {
    "<dl><dt>commit</dt><dd>"@ + escaped(ci.id@) + "</dd>"@ + parents_markup(ci.parents@, root)
        + "<dt>author</dt><dd>"@ + signature_markup(
        decode_utf8(ci.author_name@),
        decode_utf8(ci.author_email@),
    ) + "</dd><dt>committer</dt><dd>"@ + signature_markup(
        decode_utf8(ci.committer_name@),
        decode_utf8(ci.committer_email@),
    ) + "</dd><dt>message</dt><dd><pre>"@ + escaped(decode_utf8(ci.message@))
        + "</pre></dd><dt>diffstat</dt><dd><pre>"@ + escaped(decode_utf8(ci.changes.stat_text@))
        + "</pre></dd></dl>"@ + patches_markup(ci.changes.patches@)
}

/// The content of the page of `ci`, or the failure to read one of its texts.
pub open spec fn commit_content(ci: CommitInfo, root: Seq<Seq<char>>) -> Result<Seq<char>, Failure> {
    if commit_readable(ci) {
        Ok(commit_markup(ci, root))
    } else {
        Err(Failure::InvalidText(ci.id@))
    }
}

fn text_or_invalid(bytes: &Vec<u8>, id: &String) -> (r: Result<String, SiteError>)
    ensures
        r is Ok <==> valid_utf8(bytes@),
        r matches Ok(s) ==> s@ == decode_utf8(bytes@),
        r matches Err(e) ==> e@ == Failure::InvalidText(id@),
{
    match decode_text(bytes) {
        Ok(s) => Ok(s),
        Err(_) => Err(SiteError::InvalidText(id.clone())),
    }
}

fn signature_text(out: &mut String, name: &str, email: &str)
    ensures
        final(out)@ == old(out)@ + signature_markup(name@, email@),
{
    let ghost start = out@;
    push_escaped(out, name);
    out.append(" &lt;<a href=\"mailto:");
    push_escaped(out, email);
    out.append("\">");
    push_escaped(out, email);
    out.append("</a>&gt;");
    assert(out@ =~= start + signature_markup(name@, email@));
}

fn parents_text(out: &mut String, parents: &Vec<String>, root: &UrlResolver)
    ensures
        final(out)@ == old(out)@ + parents_markup(parents@, root@),
{
    let ghost start = out@;
    let n = parents.len();
    for i in 0..n
        invariant
            n == parents@.len(),
            out@ == start + parents_markup(parents@.take(i as int), root@),
    {
        let link = root.commit_file(parents[i].as_str()).to_text();
        out.append("<dt>parent</dt><dd><a href=\"");
        push_escaped(out, link.as_str());
        out.append("\">");
        push_escaped(out, parents[i].as_str());
        out.append("</a></dd>");
        assert(parents@.take(i + 1).drop_last() =~= parents@.take(i as int));
        assert(out@ =~= start + parents_markup(parents@.take(i + 1), root@));
    }
    assert(parents@.take(n as int) =~= parents@);
}

fn patches_text(out: &mut String, patches: &Vec<Option<Vec<u8>>>, id: &String) -> (r: Result<
    (),
    SiteError,
>)
    ensures
        r is Ok <==> patches_readable(patches@),
        r matches Err(e) ==> e@ == Failure::InvalidText(id@),
        r is Ok ==> final(out)@ == old(out)@ + patches_markup(patches@),
{
    let ghost start = out@;
    let n = patches.len();
    for i in 0..n
        invariant
            n == patches@.len(),
            patches_readable(patches@.take(i as int)),
            out@ == start + patches_markup(patches@.take(i as int)),
    {
        assert(patches@.take(i + 1).drop_last() =~= patches@.take(i as int));
        match &patches[i] {
            Some(b) => {
                let text = text_or_invalid(b, id)?;
                out.append("<pre>");
                push_escaped(out, text.as_str());
                out.append("</pre>");
            },
            None => {
                out.append("unchanged or binary");
            },
        }
        assert(out@ =~= start + patches_markup(patches@.take(i + 1)));
        assert(patches_readable(patches@.take(i + 1))) by {
            assert forall|j: int|
                0 <= j < patches@.take(i + 1).len() && (#[trigger] patches@.take(
                    i + 1,
                )[j]) is Some implies valid_utf8(patches@.take(i + 1)[j]->Some_0@) by {
                if j < i {
                    assert(patches@.take(i + 1)[j] == patches@.take(i as int)[j]);
                }
            }
        }
    }
    assert(patches@.take(n as int) =~= patches@);
    Ok(())
}

/// The content of the page of `ci`, seen from a page whose way back to the root is
/// `root`, or `InvalidText` naming the commit where one of its texts is not text.
pub fn commit_markup_text(ci: &CommitInfo, root: &UrlResolver) -> (r: Result<String, SiteError>)
    ensures
        r is Ok <==> commit_content(*ci, root@) is Ok,
        r matches Err(e) ==> commit_content(*ci, root@) == Err::<Seq<char>, Failure>(e@),
        r matches Ok(s) ==> commit_content(*ci, root@) == Ok::<Seq<char>, Failure>(s@),
{
    let author_name = text_or_invalid(&ci.author_name, &ci.id)?;
    let author_email = text_or_invalid(&ci.author_email, &ci.id)?;
    let committer_name = text_or_invalid(&ci.committer_name, &ci.id)?;
    let committer_email = text_or_invalid(&ci.committer_email, &ci.id)?;
    let message = text_or_invalid(&ci.message, &ci.id)?;
    let stat = text_or_invalid(&ci.changes.stat_text, &ci.id)?;
    let mut out = String::new();
    out.append("<dl><dt>commit</dt><dd>");
    push_escaped(&mut out, ci.id.as_str());
    out.append("</dd>");
    parents_text(&mut out, &ci.parents, root);
    out.append("<dt>author</dt><dd>");
    signature_text(&mut out, author_name.as_str(), author_email.as_str());
    out.append("</dd><dt>committer</dt><dd>");
    signature_text(&mut out, committer_name.as_str(), committer_email.as_str());
    out.append("</dd><dt>message</dt><dd><pre>");
    push_escaped(&mut out, message.as_str());
    out.append("</pre></dd><dt>diffstat</dt><dd><pre>");
    push_escaped(&mut out, stat.as_str());
    out.append("</pre></dd></dl>");
    patches_text(&mut out, &ci.changes.patches, &ci.id)?;
    reveal(commit_markup);
    assert(out@ =~= commit_markup(*ci, root@));
    Ok(out)
}

} // verus!
