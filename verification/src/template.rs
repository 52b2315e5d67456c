use crate::error::ReportError;
use crate::text::{chars_of, find_from, first_index_of, join_range, joined, text_of_range, texts};
use vstd::prelude::*;

verus! {

/// What stands between two lines of a section, and between two entries of a
/// report.
pub const EOL: &'static str = "\n";

/// A line as it ends before a line feed: without the carriage return that
/// may stand in front of the line feed.
pub open spec fn without_carriage_return(line: Seq<char>) -> Seq<char> {
    if line.len() > 0 && line.last() == '\r' {
        line.drop_last()
    } else {
        line
    }
}

/// The lines of a text. A line ends at a line feed, or at a carriage return
/// directly followed by one; neither belongs to the line. What follows the
/// last line feed is a line too, unless it is empty.
pub open spec fn lines_of(s: Seq<char>) -> Seq<Seq<char>>
    decreases s.len(),
{
    if s.len() == 0 {
        Seq::empty()
    } else {
        let end = first_index_of(s, '\n');
        if 0 <= end < s.len() {
            seq![without_carriage_return(s.take(end))] + lines_of(s.skip(end + 1))
        } else {
            seq![s]
        }
    }
}

/// The lines of `text`.
pub fn split_lines(text: &str) -> (lines: Vec<String>)
    ensures
        texts(lines@) == lines_of(text@),
{
    let chars = chars_of(text);
    let mut lines: Vec<String> = Vec::new();
    let mut i: usize = 0;
    assert(chars@.skip(0) =~= chars@);
    while i < chars.len()
        invariant
            i <= chars.len(),
            chars@ == text@,
            texts(lines@) + lines_of(chars@.skip(i as int)) == lines_of(text@),
        decreases chars.len() - i,
    {
        let ghost rest = chars@.skip(i as int);
        let end = find_from(&chars, i, '\n');
        if end >= chars.len() {
            lines.push(text_of_range(&chars, i, chars.len()));
            i = chars.len();
        } else {
            let stop: usize = if end > i && chars[end - 1] == '\r' {
                end - 1
            } else {
                end
            };
            let line = text_of_range(&chars, i, stop);
            assert(line@ =~= without_carriage_return(rest.take(end - i)));
            lines.push(line);
            i = end + 1;
            assert(rest.skip(first_index_of(rest, '\n') + 1) =~= chars@.skip(i as int));
        }
    }
    lines
}

/// A template in its three parts.
#[derive(Debug, Clone)]
pub struct TemplateSections {
    /// What opens the report; may be empty.
    pub header: String,
    /// What is written once for each entry, with the entry's fields in the
    /// place of the placeholders.
    pub body: String,
    /// What closes the report; may be empty.
    pub footer: String,
}

/// What a `TemplateSections` holds, as mathematical values.
pub ghost struct SectionsModel {
    pub header: Seq<char>,
    pub body: Seq<char>,
    pub footer: Seq<char>,
}

impl View for TemplateSections {
    type V = SectionsModel;

    open spec fn view(&self) -> SectionsModel {
        SectionsModel { header: self.header@, body: self.body@, footer: self.footer@ }
    }
}

/// Whether a template of `total` lines has room for a header and a footer
/// of these line counts.
pub open spec fn sections_fit(total: nat, header_lines: nat, footer_lines: nat) -> bool {
    header_lines + footer_lines <= total
}

/// The three parts of a template's lines: the first `header_lines` lines,
/// the last `footer_lines` lines, and what lies between. The lines of each
/// part are joined by line feeds.
pub open spec fn sections_of(lines: Seq<Seq<char>>, header_lines: nat, footer_lines: nat) -> SectionsModel
    recommends
        sections_fit(lines.len(), header_lines, footer_lines),
{
    SectionsModel {
        header: joined(lines.subrange(0, header_lines as int), EOL@),
        body: joined(lines.subrange(header_lines as int, lines.len() - footer_lines), EOL@),
        footer: joined(lines.subrange(lines.len() - footer_lines, lines.len() as int), EOL@),
    }
}

/// Splits a template into header, body and footer by line counts. A
/// template with fewer lines than header and footer take together is
/// refused.
pub fn split_template(text: &str, header_lines: usize, footer_lines: usize) -> (sections: Result<
    TemplateSections,
    ReportError,
>)
    ensures
        sections is Ok <==> sections_fit(
            lines_of(text@).len(),
            header_lines as nat,
            footer_lines as nat,
        ),
        sections is Ok ==> sections->Ok_0@ == sections_of(
            lines_of(text@),
            header_lines as nat,
            footer_lines as nat,
        ),
        sections is Err ==> sections->Err_0 == ReportError::LineRangeError,
{
    let lines = split_lines(text);
    if header_lines > lines.len() || footer_lines > lines.len() - header_lines {
        return Err(ReportError::LineRangeError);
    }
    let body_end: usize = lines.len() - footer_lines;
    Ok(
        TemplateSections {
            header: join_range(&lines, 0, header_lines, EOL),
            body: join_range(&lines, header_lines, body_end, EOL),
            footer: join_range(&lines, body_end, lines.len(), EOL),
        },
    )
}

} // verus!
