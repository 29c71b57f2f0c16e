//! The text of a note: the fenced block at its top, the body behind it, and
//! the layout of a block that is written back.
//!
//! A delimiter line is a line that holds `---` and nothing else. A note has a
//! frontmatter block when its first line is a delimiter line and a later line
//! is one too; the block is the text between the two lines, the body is
//! everything behind the second.

use crate::text::{
    find_line_end, find_line_stop, join_lines, lemma_line_end, lemma_line_end_is, line_after,
    line_at, line_end, line_stop, lines, lines_from, slice_text, to_chars,
};
use vstd::prelude::*;
use vstd::string::{StrSliceExecFns, StringExecFns};

verus! {

/// The text of a delimiter line.
pub open spec fn delimiter() -> Seq<char> {
    seq!['-', '-', '-']
}

/// A delimiter line as it is written: the delimiter and a line feed.
pub open spec fn fence() -> Seq<char> {
    seq!['-', '-', '-', '\n']
}

/// The line that starts at `start` is a delimiter line.
pub open spec fn is_delimiter_line(s: Seq<char>, start: int) -> bool {
    line_at(s, start) == delimiter()
}

/// Start of the first delimiter line among the lines from `start` on.
pub open spec fn closing_from(s: Seq<char>, start: int) -> Option<int>
    decreases s.len() - start,
{
    if start < 0 || start >= s.len() {
        None
    } else if is_delimiter_line(s, start) {
        Some(start)
    } else {
        proof {
            lemma_line_end(s, start);
        }
        closing_from(s, line_after(s, start))
    }
}

/// The frontmatter block and the body of a note; `None` where the note has no
/// such block.
pub open spec fn document_parts(s: Seq<char>) -> Option<(Seq<char>, Seq<char>)> {
    if s.len() > 0 && is_delimiter_line(s, 0) {
        let open = line_after(s, 0);
        match closing_from(s, open) {
            Some(close) => Some(
                (s.subrange(open, close), s.subrange(line_after(s, close), s.len() as int)),
            ),
            None => None,
        }
    } else {
        None
    }
}

/// A line as it is written back: a line that begins a sequence item gains two
/// leading spaces.
pub open spec fn indent_line(line: Seq<char>) -> Seq<char> {
    if line.len() >= 2 && line[0] == '-' && line[1] == ' ' {
        seq![' ', ' '] + line
    } else {
        line
    }
}

/// Every line as it is written back.
pub open spec fn indent_lines(lines: Seq<Seq<char>>) -> Seq<Seq<char>> {
    lines.map_values(|line: Seq<char>| indent_line(line))
}

/// `text`, with a line feed added unless it ends in one.
pub open spec fn with_final_newline(text: Seq<char>) -> Seq<char> {
    if text.len() > 0 && text.last() == '\n' {
        text
    } else {
        text.push('\n')
    }
}

/// The layout of a YAML block: its lines, sequence items indented, joined by
/// line feeds and closed by one.
pub open spec fn indented_yaml(yaml: Seq<char>) -> Seq<char> {
    with_final_newline(join_lines(indent_lines(lines(yaml))))
}

/// A note written from a block and a body: the block between two fences, the
/// body behind them.
pub open spec fn rendered(yaml: Seq<char>, body: Seq<char>) -> Seq<char> {
    fence() + yaml + fence() + body
}

/// In a written note, the lines of the block are not taken for the closing
/// delimiter line: from any line of a block without a delimiter line, the
/// next delimiter line is the one behind the block.
proof fn lemma_closing_behind_block(yaml: Seq<char>, body: Seq<char>, start: int)
    requires
        yaml.len() == 0 || yaml.last() == '\n',
        0 <= start <= yaml.len(),
        closing_from(yaml, start) is None,
    ensures
        closing_from(rendered(yaml, body), 4 + start) == Some(4 + yaml.len() as int),
    decreases yaml.len() - start,
{
    let s = rendered(yaml, body);
    let n = yaml.len() as int;
    assert(s.len() == 8 + n + body.len());
    assert forall|i: int| 0 <= i < n implies s[4 + i] == yaml[i] by {}
    assert(s[4 + n] == '-' && s[5 + n] == '-' && s[6 + n] == '-' && s[7 + n] == '\n');
    if start == n {
        lemma_line_end_is(s, 4 + n, 7 + n);
        assert(line_at(s, 4 + n) =~= delimiter());
    } else {
        lemma_line_end(yaml, start);
        let end = line_end(yaml, start);
        assert(end < n) by {
            if end == n {
                assert(yaml[n - 1] == '\n');
            }
        }
        assert forall|i: int| 4 + start <= i < 4 + end implies s[i] != '\n' by {
            assert(s[i] == yaml[i - 4]);
        }
        assert(s[4 + end] == yaml[end]);
        lemma_line_end_is(s, 4 + start, 4 + end);
        if start < end {
            assert(s[4 + end - 1] == yaml[end - 1]);
        }
        assert(line_stop(s, 4 + start) == 4 + line_stop(yaml, start));
        assert(line_at(s, 4 + start) =~= line_at(yaml, start));
        assert(line_after(s, 4 + start) == 4 + line_after(yaml, start));
        lemma_closing_behind_block(yaml, body, line_after(yaml, start));
    }
}

/// A block that a note is written with ends in a line feed.
pub proof fn lemma_indented_yaml_ends(yaml: Seq<char>)
    ensures
        indented_yaml(yaml).len() > 0,
        indented_yaml(yaml).last() == '\n',
{
}

/// A note written from a block and a body splits into that block and that
/// body again, where the block is empty or ends in a line feed and none of
/// its lines is a delimiter line.
pub proof fn lemma_split_rendered(yaml: Seq<char>, body: Seq<char>)
    requires
        yaml.len() == 0 || yaml.last() == '\n',
        closing_from(yaml, 0) is None,
    ensures
        document_parts(rendered(yaml, body)) == Some((yaml, body)),
{
    let s = rendered(yaml, body);
    let n = yaml.len() as int;
    assert(s.len() == 8 + n + body.len());
    assert(s[0] == '-' && s[1] == '-' && s[2] == '-' && s[3] == '\n');
    assert(s[4 + n] == '-' && s[5 + n] == '-' && s[6 + n] == '-' && s[7 + n] == '\n');
    lemma_line_end_is(s, 0, 3);
    assert(line_at(s, 0) =~= delimiter());
    lemma_closing_behind_block(yaml, body, 0);
    lemma_line_end_is(s, 4 + n, 7 + n);
    assert(s.subrange(4, 4 + n) =~= yaml);
    assert(s.subrange(8 + n, s.len() as int) =~= body);
}

/// Whether the characters from `start` up to `stop` are a delimiter.
fn is_delimiter(chars: &Vec<char>, start: usize, stop: usize) -> (found: bool)
    requires
        start <= stop <= chars.len(),
    ensures
        found == (chars@.subrange(start as int, stop as int) == delimiter()),
{
    let found = stop - start == 3 && chars[start] == '-' && chars[start + 1] == '-' && chars[start
        + 2] == '-';
    proof {
        let part = chars@.subrange(start as int, stop as int);
        assert(part.len() == stop - start);
        assert(delimiter().len() == 3);
        if found {
            assert(part =~= delimiter());
        } else if part == delimiter() {
            assert(part[0] == chars@[start as int]);
            assert(part[1] == chars@[start + 1]);
            assert(part[2] == chars@[start + 2]);
            assert(delimiter()[0] == '-' && delimiter()[1] == '-' && delimiter()[2] == '-');
        }
    }
    found
}

/// Splits a note into its frontmatter block and its body.
///
/// Returns `None` unless the first line is a delimiter line and a later line
/// is one too. The block is the text between these two lines, the body the
/// text behind the second, both unchanged.
pub fn split_document(content: &str) -> (parts: Option<(String, String)>)
    ensures
        match parts {
            Some((block, body)) => document_parts(content@) == Some((block@, body@)),
            None => document_parts(content@) is None,
        },
{
    let chars = to_chars(content);
    let n = chars.len();
    if n == 0 {
        return None;
    }
    let first_end = find_line_end(&chars, 0);
    let first_stop = find_line_stop(&chars, 0, first_end);
    if !is_delimiter(&chars, 0, first_stop) {
        return None;
    }
    if first_end >= n {
        return None;
    }
    let open: usize = first_end + 1;
    let mut start: usize = open;
    while start < n
        invariant
            chars@ == content@,
            n == chars.len(),
            n > 0,
            open <= start <= n,
            is_delimiter_line(content@, 0),
            open == line_after(content@, 0),
            closing_from(content@, open as int) == closing_from(content@, start as int),
        decreases n - start,
    {
        let end = find_line_end(&chars, start);
        let stop = find_line_stop(&chars, start, end);
        if is_delimiter(&chars, start, stop) {
            let after: usize = if end < n {
                end + 1
            } else {
                n
            };
            return Some((slice_text(content, open, start), slice_text(content, after, n)));
        }
        start = if end < n {
            end + 1
        } else {
            n
        };
    }
    None
}

/// Lays out a YAML block as it is written into a note: every line that begins
/// with `- ` gains two leading spaces, the lines are joined by line feeds, and
/// the text ends in a line feed.
pub fn indent_yaml(yaml: &str) -> (indented: String)
    ensures
        indented@ == indented_yaml(yaml@),
{
    let chars = to_chars(yaml);
    let n = chars.len();
    let mut out = String::new();
    let mut start: usize = 0;
    let mut first = true;
    let ghost mut done: Seq<Seq<char>> = Seq::empty();
    assert(indent_lines(done) =~= Seq::empty());
    while start < n
        invariant
            chars@ == yaml@,
            n == chars.len(),
            start <= n,
            lines(yaml@) == done + lines_from(yaml@, start as int),
            out@ == join_lines(indent_lines(done)),
            first == (done.len() == 0),
        decreases n - start,
    {
        let end = find_line_end(&chars, start);
        let stop = find_line_stop(&chars, start, end);
        let ghost line = line_at(yaml@, start as int);
        let ghost joined = out@;
        if !first {
            out.append("\n");
        }
        if stop - start >= 2 && chars[start] == '-' && chars[start + 1] == ' ' {
            out.append("  ");
        }
        out.append(yaml.substring_char(start, stop));
        proof {
            reveal_strlit("\n");
            reveal_strlit("  ");
            assert("\n"@ =~= seq!['\n']);
            assert("  "@ =~= seq![' ', ' ']);
            let grown = done.push(line);
            assert(indent_lines(grown) =~= indent_lines(done).push(indent_line(line)));
            assert(indent_lines(grown).drop_last() =~= indent_lines(done));
            assert(out@ =~= if first {
                indent_line(line)
            } else {
                joined + seq!['\n'] + indent_line(line)
            });
            assert(lines(yaml@) =~= grown + lines_from(yaml@, line_after(yaml@, start as int)));
            done = grown;
        }
        first = false;
        start = if end < n {
            end + 1
        } else {
            n
        };
    }
    assert(lines(yaml@) =~= done);
    let len = out.as_str().unicode_len();
    if len == 0 || out.as_str().get_char(len - 1) != '\n' {
        out.append("\n");
        proof {
            reveal_strlit("\n");
            assert("\n"@ =~= seq!['\n']);
        }
    }
    assert(out@ =~= indented_yaml(yaml@));
    out
}

/// Writes a note from a YAML block and a body: a fence, the block, a fence,
/// the body.
pub fn render_document(yaml: &str, body: &str) -> (content: String)
    ensures
        content@ == rendered(yaml@, body@),
{
    let mut content = String::new();
    content.append("---\n");
    content.append(yaml);
    content.append("---\n");
    content.append(body);
    proof {
        reveal_strlit("---\n");
        assert("---\n"@ =~= fence());
        assert(content@ =~= rendered(yaml@, body@));
    }
    content
}

} // verus!
