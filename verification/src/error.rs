//! Diagnostics in the style of rustc/gcc: a `file:line:col: kind: message`
//! header, optionally followed by the offending source line and a caret
//! underline, with or without ANSI colours.
use vstd::prelude::*;
use vstd::utf8::*;
use vstd::string::StringSliceAdditionalSpecFns;
use crate::text::{lemma_split_at_ascii, utf8_to_str, pow10, lemma_digits_len, append_int, append_nat, append_repeat, int_decimal, nat_digits, repeat_char};
use crate::token::Token;

verus! {

broadcast use vstd::string::group_string_axioms;

// ==================== splitting the source into lines ====================

/// Index of the first newline byte at or after `i`, or the length.
pub open spec fn newline_index(b: Seq<u8>, i: nat) -> nat
    decreases b.len() - i,
{
    if i >= b.len() {
        b.len()
    } else if b[i as int] == 10 {
        i
    } else {
        newline_index(b, i + 1)
    }
}

/// The lines of a text, as `str::lines` splits it: at each `\n`, dropping a
/// `\r` just before the `\n`; a final line ending adds no empty line.
pub open spec fn byte_lines(b: Seq<u8>) -> Seq<Seq<u8>>
    decreases b.len(),
{
    if b.len() == 0 {
        seq![]
    } else {
        let k = newline_index(b, 0);
        if k < b.len() {
            let line = b.subrange(0, k as int);
            let line = if line.len() > 0 && line.last() == 13 {
                line.drop_last()
            } else {
                line
            };
            seq![line] + byte_lines(b.subrange(k + 1 as int, b.len() as int))
        } else {
            seq![b]
        }
    }
}

/// The lines of a text as character sequences.
pub open spec fn text_lines(b: Seq<u8>) -> Seq<Seq<char>> {
    byte_lines(b).map_values(|l: Seq<u8>| decode_utf8(l))
}

proof fn lemma_newline_index(b: Seq<u8>, i: nat)
    requires
        i <= b.len(),
    ensures
        i <= newline_index(b, i) <= b.len(),
        newline_index(b, i) < b.len() ==> b[newline_index(b, i) as int] == 10,
        forall|j: int| i <= j < newline_index(b, i) ==> b[j] != 10,
    decreases b.len() - i,
{
    if i < b.len() && b[i as int] != 10 {
        lemma_newline_index(b, i + 1);
    }
}

/// Splits UTF-8 bytes into lines (as `str::lines` does), each as a string.
fn split_lines(bytes: &[u8]) -> (lines: Vec<String>)
    requires
        valid_utf8(bytes@),
    ensures
        lines@.len() == byte_lines(bytes@).len(),
        forall|i: int| 0 <= i < lines@.len() ==> #[trigger] lines@[i]@ == decode_utf8(byte_lines(bytes@)[i]),
{
    let ghost b = bytes@;
    let mut lines: Vec<String> = Vec::new();
    let mut start: usize = 0;
    assert(b.subrange(0, b.len() as int) =~= b);
    while start < bytes.len()
        invariant
            b == bytes@,
            start <= b.len(),
            valid_utf8(b.subrange(start as int, b.len() as int)),
            byte_lines(b).len() == lines@.len() + byte_lines(b.subrange(start as int, b.len() as int)).len(),
            forall|i: int| 0 <= i < lines@.len() ==> #[trigger] lines@[i]@ == decode_utf8(byte_lines(b)[i]),
            forall|i: int| 0 <= i < byte_lines(b.subrange(start as int, b.len() as int)).len()
                ==> byte_lines(b)[lines@.len() + i] == #[trigger] byte_lines(b.subrange(start as int, b.len() as int))[i],
        decreases b.len() - start,
    {
        let ghost rest = b.subrange(start as int, b.len() as int);
        let mut k: usize = start;
        while k < bytes.len() && bytes[k] != 10
            invariant
                b == bytes@,
                start <= k <= b.len(),
                newline_index(rest, (k - start) as nat) == newline_index(rest, 0),
                rest == b.subrange(start as int, b.len() as int),
            decreases b.len() - k,
        {
            k = k + 1;
        }
        proof {
            lemma_newline_index(rest, 0);
            assert(newline_index(rest, 0) == k - start);
        }
        let ghost rest_lines = byte_lines(rest);
        if k < bytes.len() {
            let mut end = k;
            if end > start && bytes[end - 1] == 13 {
                end = end - 1;
            }
            proof {
                lemma_split_at_ascii(rest, (k - start) as int);
                let line = rest.subrange(0, (k - start) as int);
                if end < k {
                    lemma_split_at_ascii(line, (end - start) as int);
                    assert(line.drop_last() =~= line.subrange(0, (end - start) as int));
                }
                assert(b.subrange(start as int, end as int) =~= rest.subrange(0, (end - start) as int));
                assert(b.subrange(k + 1, b.len() as int) =~= rest.subrange((k - start) + 1, rest.len() as int));
                assert(rest_lines[0] =~= b.subrange(start as int, end as int));
            }
            let text = match utf8_to_str(&bytes[start..end]) {
                Some(t) => t.to_string(),
                None => String::new(),
            };
            let ghost old_len = lines@.len();
            lines.push(text);
            start = k + 1;
            proof {
                let new_rest = b.subrange(start as int, b.len() as int);
                assert(rest_lines =~= seq![rest_lines[0]] + byte_lines(new_rest));
                assert(byte_lines(b)[old_len as int] == rest_lines[0]);
                assert forall|i: int| 0 <= i < byte_lines(new_rest).len() implies byte_lines(b)[lines@.len() + i]
                    == #[trigger] byte_lines(new_rest)[i] by {
                    assert(rest_lines[1 + i] == byte_lines(new_rest)[i]);
                    assert(byte_lines(b)[old_len + (1 + i)] == rest_lines[1 + i]);
                }
            }
        } else {
            proof {
                assert(rest_lines =~= seq![rest]);
                assert(b.subrange(start as int, b.len() as int) =~= rest);
            }
            let text = match utf8_to_str(&bytes[start..bytes.len()]) {
                Some(t) => t.to_string(),
                None => String::new(),
            };
            let ghost old_len = lines@.len();
            lines.push(text);
            proof {
                assert(byte_lines(b)[old_len as int] == rest_lines[0]);
            }
            start = bytes.len();
            proof {
                assert(b.subrange(start as int, b.len() as int) =~= Seq::<u8>::empty());
            }
        }
    }
    lines
}

// ==================== the formatter ====================

/// The header line of a diagnostic.
pub open spec fn header_text(
    file: Seq<char>,
    line: i32,
    col: i32,
    kind: Seq<char>,
    msg: Seq<char>,
    color: bool,
) -> Seq<char> {
    if color {
        if line > 0 {
            "\u{1b}[1m"@ + file + ":"@ + int_decimal(line as int) + ":"@ + int_decimal(col + 1)
                + ": \u{1b}[31m"@ + kind + "\u{1b}[0m\u{1b}[1m: "@ + msg + "\u{1b}[0m"@
        } else {
            "\u{1b}[1m"@ + file + ": \u{1b}[31m"@ + kind + "\u{1b}[0m\u{1b}[1m: "@ + msg + "\u{1b}[0m"@
        }
    } else {
        if line > 0 {
            file + ":"@ + int_decimal(line as int) + ":"@ + int_decimal(col + 1) + ": "@ + kind + ": "@
                + msg
        } else {
            file + ": "@ + kind + ": "@ + msg
        }
    }
}

/// The gutter before a quoted source line: `  <line> | `.
pub open spec fn gutter(line: i32) -> Seq<char> {
    "  "@ + int_decimal(line as int) + " | "@
}

/// Whether `line` names a line of the source (lines are numbered from 1).
pub open spec fn line_in_range(line: i32, n_lines: nat) -> bool {
    !(line < 1 || line > (n_lines as i32))
}

/// The quoted source line `text` with a caret under column `col` and `~`
/// under the rest of a span of `span` characters (at least one).
pub open spec fn snippet_text(line: i32, col: i32, span: nat, text: Seq<char>, color: bool) -> Seq<char> {
    let span = if span == 0 { 1 } else { span };
    let pad = repeat_char(' ', (gutter(line).len() + col) as nat);
    let marks = "^"@ + repeat_char('~', (span - 1) as nat);
    if color {
        "\u{1b}[34m"@ + gutter(line) + "\u{1b}[0m"@ + text + "\n"@ + pad + "\u{1b}[31m"@ + marks
            + "\u{1b}[0m\n"@
    } else {
        gutter(line) + text + "\n"@ + pad + marks + "\n"@
    }
}

/// The note line of a diagnostic.
pub open spec fn note_text(msg: Seq<char>, color: bool) -> Seq<char> {
    if color {
        "  \u{1b}[36m= note:\u{1b}[0m "@ + msg
    } else {
        "  = note: "@ + msg
    }
}

/// The lines of a text, as `str::lines` splits it (see `byte_lines`).
pub fn lines_of(text: &str) -> (lines: Vec<String>)
    ensures
        lines@.len() == text_lines(text.spec_bytes()).len(),
        forall|i: int| 0 <= i < lines@.len() ==> #[trigger] lines@[i]@ == text_lines(text.spec_bytes())[i],
{
    let bytes = text.as_bytes();
    proof {
        encode_utf8_valid_utf8(text@);
    }
    split_lines(bytes)
}

/// Formats compiler diagnostics for one source file.
#[derive(Clone)]
pub struct ErrorFormatter {
    file: String,
    source: String,
    lines: Vec<String>,
}

impl ErrorFormatter {
    /// The name of the file the diagnostics are about.
    pub closed spec fn file_name(&self) -> Seq<char> {
        self.file@
    }

    /// The lines of the source text.
    pub closed spec fn source_lines(&self) -> Seq<Seq<char>> {
        self.lines@.map_values(|l: String| l@)
    }

    /// The snippet for (`line`, `col`) can be formatted: the line is out of
    /// range (no snippet), or the column is not negative.
    pub open spec fn snippet_defined(&self, line: i32, col: i32) -> bool {
        !line_in_range(line, self.source_lines().len()) || col >= 0
    }

    /// The quoted snippet for a position, empty when the line is out of range.
    pub open spec fn snippet_spec(&self, line: i32, col: i32, span: nat, color: bool) -> Seq<char> {
        if !line_in_range(line, self.source_lines().len()) {
            Seq::empty()
        } else {
            snippet_text(line, col, span, self.source_lines()[line - 1], color)
        }
    }

    /// A full diagnostic: the header, then (for a positive line in range)
    /// the quoted snippet on the following lines.
    pub open spec fn error_spec(
        &self,
        line: i32,
        col: i32,
        span: nat,
        kind: Seq<char>,
        msg: Seq<char>,
        color: bool,
    ) -> Seq<char> {
        let header = header_text(self.file_name(), line, col, kind, msg, color);
        let snippet = if line > 0 {
            self.snippet_spec(line, col, span, color)
        } else {
            Seq::empty()
        };
        if snippet.len() == 0 {
            header
        } else {
            header + "\n"@ + snippet
        }
    }

    /// A formatter for the file named `file` whose text is `source`.
    pub fn new(file: &str, source: &str) -> (f: ErrorFormatter)
        ensures
            f.file_name() == file@,
            f.source_lines() == text_lines(source.spec_bytes()),
    {
        let bytes = source.as_bytes();
        proof {
            encode_utf8_valid_utf8(source@);
        }
        let lines = split_lines(bytes);
        let f = ErrorFormatter { file: file.to_string(), source: source.to_string(), lines };
        assert(f.source_lines() =~= text_lines(source.spec_bytes()));
        f
    }

    /// The header `file:line:col: kind: message` (column shown from 1),
    /// or `file: kind: message` when `line` is not positive; in bold, with
    /// the kind in red.
    pub fn format_header(&self, line: i32, col: i32, kind: &str, msg: &str) -> (s: String)
        ensures
            s@ == header_text(self.file_name(), line, col, kind@, msg@, true),
    {
        let mut s = String::new();
        s.append("\u{1b}[1m");
        s.append(self.file.as_str());
        if line > 0 {
            s.append(":");
            append_int(&mut s, line as i64);
            s.append(":");
            append_int(&mut s, col as i64 + 1);
        }
        s.append(": \u{1b}[31m");
        s.append(kind);
        s.append("\u{1b}[0m\u{1b}[1m: ");
        s.append(msg);
        s.append("\u{1b}[0m");
        assert(s@ =~= header_text(self.file_name(), line, col, kind@, msg@, true));
        s
    }

    /// The header `file:line:col: kind: message` without colours.
    pub fn format_header_plain(&self, line: i32, col: i32, kind: &str, msg: &str) -> (s: String)
        ensures
            s@ == header_text(self.file_name(), line, col, kind@, msg@, false),
    {
        let mut s = String::new();
        s.append(self.file.as_str());
        if line > 0 {
            s.append(":");
            append_int(&mut s, line as i64);
            s.append(":");
            append_int(&mut s, col as i64 + 1);
        }
        s.append(": ");
        s.append(kind);
        s.append(": ");
        s.append(msg);
        assert(s@ =~= header_text(self.file_name(), line, col, kind@, msg@, false));
        s
    }

    /// The source line `line` quoted after a gutter, and under it a caret at
    /// column `col` followed by `~` for the rest of `span`; empty when the
    /// line does not exist.
    pub fn format_snippet(&self, line: i32, col: i32, span: usize) -> (s: String)
        requires
            self.snippet_defined(line, col),
        ensures
            s@ == self.snippet_spec(line, col, span as nat, true),
    {
        self.snippet(line, col, span, true)
    }

    /// The quoted source line and caret, without colours.
    pub fn format_snippet_plain(&self, line: i32, col: i32, span: usize) -> (s: String)
        requires
            self.snippet_defined(line, col),
        ensures
            s@ == self.snippet_spec(line, col, span as nat, false),
    {
        self.snippet(line, col, span, false)
    }

    fn snippet(&self, line: i32, col: i32, span: usize, color: bool) -> (s: String)
        requires
            self.snippet_defined(line, col),
        ensures
            s@ == self.snippet_spec(line, col, span as nat, color),
    {
        if line < 1 || line > self.lines.len() as i32 {
            return String::new();
        }
        let source_line = &self.lines[(line - 1) as usize];
        let span = if span == 0 {
            1
        } else {
            span
        };
        let mut prefix = String::new();
        prefix.append("  ");
        append_int(&mut prefix, line as i64);
        prefix.append(" | ");
        let prefix_len = prefix.as_str().unicode_len();
        proof {
            reveal_strlit(" ");
            reveal_strlit("~");
            reveal_strlit("  ");
            reveal_strlit(" | ");
            reveal_with_fuel(pow10, 11);
            assert(pow10(10) == 10000000000nat);
            lemma_digits_len(line as nat, 10);
        }
        let mut out = String::new();
        if color {
            out.append("\u{1b}[34m");
            out.append(prefix.as_str());
            out.append("\u{1b}[0m");
        } else {
            out.append(prefix.as_str());
        }
        out.append(source_line.as_str());
        out.append("\n");
        append_repeat(&mut out, " ", prefix_len + col as usize);
        if color {
            out.append("\u{1b}[31m");
        }
        out.append("^");
        append_repeat(&mut out, "~", span - 1);
        if color {
            out.append("\u{1b}[0m\n");
        } else {
            out.append("\n");
        }
        proof {
            assert(self.source_lines()[line - 1] == source_line@);
        }
        assert(out@ =~= self.snippet_spec(line, col, span as nat, color));
        out
    }

    /// A full diagnostic: the header, and for a positive line in range the
    /// quoted line and caret after a newline; coloured when `use_color`.
    pub fn format_error(
        &self,
        line: i32,
        col: i32,
        span: usize,
        kind: &str,
        msg: &str,
        use_color: bool,
    ) -> (s: String)
        requires
            self.snippet_defined(line, col),
        ensures
            s@ == self.error_spec(line, col, span as nat, kind@, msg@, use_color),
            s@ == if 1 <= line && line <= (self.source_lines().len() as i32) {
                header_text(self.file_name(), line, col, kind@, msg@, use_color) + "\n"@ + self.snippet_spec(
                    line,
                    col,
                    span as nat,
                    use_color,
                )
            } else {
                header_text(self.file_name(), line, col, kind@, msg@, use_color)
            },
    {
        proof {
            lemma_error_is_header_then_snippet(*self, line, col, span as nat, kind@, msg@, use_color);
        }
        let mut header = if use_color {
            self.format_header(line, col, kind, msg)
        } else {
            self.format_header_plain(line, col, kind, msg)
        };
        let snippet = if line > 0 {
            if use_color {
                self.format_snippet(line, col, span)
            } else {
                self.format_snippet_plain(line, col, span)
            }
        } else {
            String::new()
        };
        if snippet.as_str().is_empty() {
            header
        } else {
            header.append("\n");
            header.append(snippet.as_str());
            header
        }
    }

    /// A coloured diagnostic at the position of `token`.
    pub fn format_error_at(&self, token: &Token, span: usize, kind: &str, msg: &str) -> (s: String)
        requires
            self.snippet_defined(token.line, token.col),
        ensures
            s@ == self.error_spec(token.line, token.col, span as nat, kind@, msg@, true),
    {
        self.format_error(token.line, token.col, span, kind, msg, true)
    }

    /// A note line `  = note: message`, the marker in cyan when `use_color`.
    pub fn format_note(&self, msg: &str, use_color: bool) -> (s: String)
        ensures
            s@ == note_text(msg@, use_color),
    {
        let mut s = String::new();
        if use_color {
            s.append("  \u{1b}[36m= note:\u{1b}[0m ");
        } else {
            s.append("  = note: ");
        }
        s.append(msg);
        s
    }
}

/// A quoted snippet is never empty: it ends with a newline.
proof fn lemma_snippet_text_nonempty(line: i32, col: i32, span: nat, text: Seq<char>, color: bool)
    ensures
        snippet_text(line, col, span, text, color).len() > 0,
{
    reveal_strlit("\n");
    reveal_strlit("\u{1b}[0m\n");
}

/// A diagnostic is its header alone when its line is not a line of the
/// source (zero, negative or past the end), and otherwise the header, a
/// newline and the quoted snippet of that line.
pub proof fn lemma_error_is_header_then_snippet(
    f: ErrorFormatter,
    line: i32,
    col: i32,
    span: nat,
    kind: Seq<char>,
    msg: Seq<char>,
    color: bool,
)
    ensures
        f.error_spec(line, col, span, kind, msg, color) == if 1 <= line && line <= (f.source_lines().len() as i32) {
            header_text(f.file_name(), line, col, kind, msg, color) + "\n"@ + f.snippet_spec(line, col, span, color)
        } else {
            header_text(f.file_name(), line, col, kind, msg, color)
        },
{
    if 1 <= line && line <= (f.source_lines().len() as i32) {
        lemma_snippet_text_nonempty(line, col, span, f.source_lines()[line - 1], color);
    }
}

} // verus!
