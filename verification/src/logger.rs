//! The pure part of the application's logging: formatting log lines and
//! naming dated log files. The surrounding program supplies the timestamp
//! and performs the file writes.

use vstd::prelude::*;
use vstd::string::StrSliceExecFns;
use vstd::string::StringExecFns;

use crate::primitives::{char_is_whitespace, whitespace_char};

verus! {

/// The text of one log line: `[timestamp] [level] message` and a newline.
pub open spec fn log_line(timestamp: Seq<char>, level: Seq<char>, message: Seq<char>) -> Seq<char> {
    "["@ + timestamp + "] ["@ + level + "] "@ + message + "\n"@
}

/// Formats one log line from a timestamp, a level and a message.
pub fn format_log_entry(timestamp: &str, level: &str, message: &str) -> (r: String)
    ensures
        r@ == log_line(timestamp@, level@, message@),
{
    let mut s = String::new();
    s.append("[");
    s.append(timestamp);
    s.append("] [");
    s.append(level);
    s.append("] ");
    s.append(message);
    s.append("\n");
    proof {
        reveal_strlit("[");
        reveal_strlit("] [");
        reveal_strlit("] ");
        reveal_strlit("\n");
        assert(s@ =~= log_line(timestamp@, level@, message@));
    }
    s
}

/// The log line for a message at level INFO.
pub fn log_info(timestamp: &str, message: &str) -> (r: String)
    ensures
        r@ == log_line(timestamp@, "INFO"@, message@),
{
    format_log_entry(timestamp, "INFO", message)
}

/// The log line for a message at level WARN.
pub fn log_warn(timestamp: &str, message: &str) -> (r: String)
    ensures
        r@ == log_line(timestamp@, "WARN"@, message@),
{
    format_log_entry(timestamp, "WARN", message)
}

/// The log line for a message at level ERROR.
pub fn log_error(timestamp: &str, message: &str) -> (r: String)
    ensures
        r@ == log_line(timestamp@, "ERROR"@, message@),
{
    format_log_entry(timestamp, "ERROR", message)
}

/// The log line for a message at level DEBUG.
pub fn log_debug(timestamp: &str, message: &str) -> (r: String)
    ensures
        r@ == log_line(timestamp@, "DEBUG"@, message@),
{
    format_log_entry(timestamp, "DEBUG", message)
}

/// The name of a dated file: `prefix-date.extension`.
pub open spec fn dated_file_name_of(prefix: Seq<char>, date: Seq<char>, extension: Seq<char>) -> Seq<char> {
    prefix + "-"@ + date + "."@ + extension
}

/// Builds the name of a dated file, such as a daily log or audit file.
pub fn dated_file_name(prefix: &str, date: &str, extension: &str) -> (r: String)
    ensures
        r@ == dated_file_name_of(prefix@, date@, extension@),
{
    let mut s = String::new();
    s.append(prefix);
    s.append("-");
    s.append(date);
    s.append(".");
    s.append(extension);
    proof {
        reveal_strlit("-");
        reveal_strlit(".");
        assert(s@ =~= dated_file_name_of(prefix@, date@, extension@));
    }
    s
}

/// The file name of the backend log for a given day, `backend-<date>.log`;
/// the surrounding program joins it onto its platform log directory.
pub fn get_log_path(date: &str) -> (r: String)
    ensures
        r@ == dated_file_name_of("backend"@, date@, "log"@),
{
    dated_file_name("backend", date, "log")
}

/// `text` carries `pattern` starting at its first position.
pub open spec fn starts_with_spec(text: Seq<char>, pattern: Seq<char>) -> bool {
    text.len() >= pattern.len() && text.subrange(0, pattern.len() as int) == pattern
}

/// `text` with every occurrence of `pattern` removed, scanning left to
/// right over non-overlapping occurrences, as `str::replace` with an empty
/// replacement does.
pub open spec fn remove_all_spec(text: Seq<char>, pattern: Seq<char>) -> Seq<char>
    decreases text.len(),
{
    if pattern.len() == 0 || text.len() == 0 {
        text
    } else if text.len() >= pattern.len() && text.subrange(0, pattern.len() as int) == pattern {
        remove_all_spec(text.skip(pattern.len() as int), pattern)
    } else {
        seq![text[0]] + remove_all_spec(text.skip(1), pattern)
    }
}

/// `pattern` occurs in `text` starting at position `at`.
pub open spec fn pattern_at_spec(text: Seq<char>, pattern: Seq<char>, at: int) -> bool {
    at + pattern.len() <= text.len() && text.subrange(at, at + pattern.len() as int) == pattern
}

/// Whether `pattern` occurs in `text` at position `at`. The two lengths are
/// passed in so that callers scanning a text do not recount it.
pub(crate) fn pattern_at(text: &str, text_len: usize, pattern: &str, pattern_len: usize, at: usize) -> (r: bool)
    requires
        text_len == text@.len(),
        pattern_len == pattern@.len(),
        at <= text_len,
    ensures
        r == pattern_at_spec(text@, pattern@, at as int),
{
    if pattern_len > text_len - at {
        return false;
    }
    let mut j: usize = 0;
    while j < pattern_len
        invariant
            text_len == text@.len(),
            pattern_len == pattern@.len(),
            at + pattern_len <= text_len,
            j <= pattern_len,
            forall|k: int| 0 <= k < j ==> text@[at + k] == pattern@[k],
        decreases pattern_len - j,
    {
        if text.get_char(at + j) != pattern.get_char(j) {
            proof {
                if text@.subrange(at as int, at + pattern@.len()) == pattern@ {
                    assert(text@.subrange(at as int, at + pattern@.len())[j as int]
                        == text@[at + j]);
                }
            }
            return false;
        }
        j = j + 1;
    }
    proof {
        assert(text@.subrange(at as int, at + pattern@.len()) =~= pattern@);
    }
    true
}

proof fn lemma_remove_all_at_match(text: Seq<char>, pattern: Seq<char>, at: int)
    requires
        pattern.len() >= 1,
        0 <= at,
        pattern_at_spec(text, pattern, at),
    ensures
        remove_all_spec(text.skip(at), pattern)
            == remove_all_spec(text.skip(at + pattern.len()), pattern),
{
    let rest = text.skip(at);
    assert(rest.subrange(0, pattern.len() as int) =~= text.subrange(at, at + pattern.len() as int));
    assert(rest.skip(pattern.len() as int) =~= text.skip(at + pattern.len()));
}

proof fn lemma_remove_all_at_copy(text: Seq<char>, pattern: Seq<char>, at: int)
    requires
        pattern.len() >= 1,
        0 <= at < text.len(),
        !pattern_at_spec(text, pattern, at),
    ensures
        remove_all_spec(text.skip(at), pattern)
            == seq![text[at]] + remove_all_spec(text.skip(at + 1), pattern),
{
    let rest = text.skip(at);
    if rest.len() >= pattern.len() {
        assert(rest.subrange(0, pattern.len() as int)
            =~= text.subrange(at, at + pattern.len() as int));
    }
    assert(rest.skip(1) =~= text.skip(at + 1));
    assert(seq![rest[0]] =~= seq![text[at]]);
}

/// `text` with every occurrence of `pattern` removed, scanning left to
/// right, as `str::replace` with an empty replacement does.
pub fn remove_all(text: &str, pattern: &str) -> (r: String)
    requires
        pattern@.len() >= 1,
    ensures
        r@ == remove_all_spec(text@, pattern@),
{
    let text_len = text.unicode_len();
    let pattern_len = pattern.unicode_len();
    let mut out = String::new();
    let mut i: usize = 0;
    proof {
        assert(text@.skip(0) =~= text@);
        assert(out@ + remove_all_spec(text@, pattern@) =~= remove_all_spec(text@, pattern@));
    }
    while i < text_len
        invariant
            text_len == text@.len(),
            pattern_len == pattern@.len(),
            pattern@.len() >= 1,
            i <= text_len,
            out@ + remove_all_spec(text@.skip(i as int), pattern@)
                == remove_all_spec(text@, pattern@),
        decreases text_len - i,
    {
        if pattern_at(text, text_len, pattern, pattern_len, i) {
            proof {
                lemma_remove_all_at_match(text@, pattern@, i as int);
            }
            i = i + pattern_len;
        } else {
            let ghost old_out = out@;
            let piece = text.substring_char(i, i + 1);
            out.append(piece);
            proof {
                lemma_remove_all_at_copy(text@, pattern@, i as int);
                assert(piece@ =~= seq![text@[i as int]]);
                assert(out@ + remove_all_spec(text@.skip(i + 1), pattern@)
                    =~= old_out + remove_all_spec(text@.skip(i as int), pattern@));
            }
            i = i + 1;
        }
    }
    proof {
        assert(text@.skip(i as int) =~= Seq::<char>::empty());
        assert(out@ + remove_all_spec(text@.skip(i as int), pattern@) =~= out@);
    }
    out
}

/// The date that a daily log file name carries: what is left of a name
/// beginning `frontend-` or `backend-` once that prefix and the `.log` and
/// `.json` extensions are removed (every occurrence of each); empty for any
/// other name.
pub open spec fn extracted_date_of(filename: Seq<char>) -> Seq<char> {
    if starts_with_spec(filename, "frontend-"@) {
        remove_all_spec(
            remove_all_spec(remove_all_spec(filename, "frontend-"@), ".log"@),
            ".json"@,
        )
    } else if starts_with_spec(filename, "backend-"@) {
        remove_all_spec(
            remove_all_spec(remove_all_spec(filename, "backend-"@), ".log"@),
            ".json"@,
        )
    } else {
        Seq::<char>::empty()
    }
}

/// A message split into lines as std's `str::lines` splits it: lines end at
/// `\n` or `\r\n`, the terminator is not part of the line, and a final line
/// needs no terminator.
pub open spec fn split_lines(s: Seq<char>) -> Seq<Seq<char>>
    decreases s.len(),
{
    if s.len() == 0 {
        Seq::empty()
    } else if s[0] == '\n' {
        seq![Seq::<char>::empty()] + split_lines(s.skip(1))
    } else if s.len() >= 2 && s[0] == '\r' && s[1] == '\n' {
        seq![Seq::<char>::empty()] + split_lines(s.skip(2))
    } else {
        let rest = split_lines(s.skip(1));
        if rest.len() == 0 {
            seq![seq![s[0]]]
        } else {
            seq![seq![s[0]] + rest[0]] + rest.skip(1)
        }
    }
}

/// `lines` with `c` joined onto the front of its first line; when there is
/// no line, `c` alone forms one unless it is empty.
pub open spec fn prepend_first(c: Seq<char>, lines: Seq<Seq<char>>) -> Seq<Seq<char>> {
    if lines.len() == 0 {
        if c.len() == 0 {
            Seq::empty()
        } else {
            seq![c]
        }
    } else {
        seq![c + lines[0]] + lines.skip(1)
    }
}

proof fn lemma_prepend_first_concat(c: Seq<char>, d: Seq<char>, lines: Seq<Seq<char>>)
    ensures
        prepend_first(c, prepend_first(d, lines)) == prepend_first(c + d, lines),
{
    if lines.len() == 0 {
        if d.len() == 0 {
            assert(c + d =~= c);
            if c.len() == 0 {
            } else {
                assert(prepend_first(c, prepend_first(d, lines)) =~= prepend_first(c + d, lines));
            }
        } else {
            assert(seq![d].skip(1) =~= Seq::<Seq<char>>::empty());
            assert(prepend_first(c, prepend_first(d, lines)) =~= seq![c + d]);
        }
    } else {
        assert((seq![d + lines[0]] + lines.skip(1)).skip(1) =~= lines.skip(1));
        assert(c + (d + lines[0]) =~= (c + d) + lines[0]);
        assert(prepend_first(c, prepend_first(d, lines)) =~= prepend_first(c + d, lines));
    }
}

/// Splits a message into its lines, as std's `str::lines` does.
pub fn split_message_lines(message: &str) -> (r: Vec<String>)
    ensures
        r.deep_view() == split_lines(message@),
{
    let n = message.unicode_len();
    let mut lines: Vec<String> = Vec::new();
    let mut line_start: usize = 0;
    let mut i: usize = 0;
    proof {
        assert(message@.subrange(0, 0) =~= Seq::<char>::empty());
        assert(message@.skip(0) =~= message@);
        assert(lines.deep_view() =~= Seq::<Seq<char>>::empty());
    }
    while i < n
        invariant
            n == message@.len(),
            line_start <= i <= n,
            split_lines(message@) == lines.deep_view() + prepend_first(
                message@.subrange(line_start as int, i as int),
                split_lines(message@.skip(i as int)),
            ),
        decreases n - i,
    {
        let ghost current = message@.subrange(line_start as int, i as int);
        let ghost tail = split_lines(message@.skip(i as int));
        let c = message.get_char(i);
        if c == '\n' {
            let piece = message.substring_char(line_start, i);
            let ghost old_lines = lines.deep_view();
            lines.push(piece.to_owned());
            proof {
                let t2 = split_lines(message@.skip(i + 1));
                assert(message@.skip(i as int)[0] == '\n');
                assert(message@.skip(i as int).skip(1) =~= message@.skip(i + 1));
                assert(tail == seq![Seq::<char>::empty()] + t2);
                assert(current + Seq::<char>::empty() =~= current);
                assert((seq![Seq::<char>::empty()] + t2).skip(1) =~= t2);
                assert(prepend_first(current, tail) =~= seq![current] + t2);
                assert(lines.deep_view() =~= old_lines + seq![current]);
                assert(message@.subrange((i + 1) as int, (i + 1) as int) =~= Seq::<char>::empty());
                assert(lines.deep_view() + prepend_first(Seq::<char>::empty(), t2)
                    =~= old_lines + prepend_first(current, tail));
            }
            i = i + 1;
            line_start = i;
        } else if c == '\r' && i + 1 < n && message.get_char(i + 1) == '\n' {
            let piece = message.substring_char(line_start, i);
            let ghost old_lines = lines.deep_view();
            lines.push(piece.to_owned());
            proof {
                let t2 = split_lines(message@.skip(i + 2));
                assert(message@.skip(i as int)[0] == '\r');
                assert(message@.skip(i as int)[1] == '\n');
                assert(message@.skip(i as int).len() >= 2);
                assert(message@.skip(i as int).skip(2) =~= message@.skip(i + 2));
                assert(tail == seq![Seq::<char>::empty()] + t2);
                assert(current + Seq::<char>::empty() =~= current);
                assert((seq![Seq::<char>::empty()] + t2).skip(1) =~= t2);
                assert(prepend_first(current, tail) =~= seq![current] + t2);
                assert(lines.deep_view() =~= old_lines + seq![current]);
                assert(message@.subrange((i + 2) as int, (i + 2) as int) =~= Seq::<char>::empty());
                assert(lines.deep_view() + prepend_first(Seq::<char>::empty(), t2)
                    =~= old_lines + prepend_first(current, tail));
            }
            i = i + 2;
            line_start = i;
        } else {
            proof {
                let t2 = split_lines(message@.skip(i + 1));
                assert(message@.skip(i as int)[0] == message@[i as int]);
                assert(message@.skip(i as int)[0] != '\n');
                if message@.skip(i as int).len() >= 2 {
                    assert(message@.skip(i as int)[1] == message@[i + 1]);
                }
                assert(message@.skip(i as int).skip(1) =~= message@.skip(i + 1));
                assert(tail == prepend_first(seq![message@[i as int]], t2));
                lemma_prepend_first_concat(current, seq![message@[i as int]], t2);
                assert(current + seq![message@[i as int]]
                    =~= message@.subrange(line_start as int, i + 1));
            }
            i = i + 1;
        }
    }
    proof {
        assert(message@.skip(i as int) =~= Seq::<char>::empty());
    }
    if line_start < n {
        let piece = message.substring_char(line_start, n);
        let ghost old_lines = lines.deep_view();
        lines.push(piece.to_owned());
        proof {
            assert(lines.deep_view()
                =~= old_lines + seq![message@.subrange(line_start as int, n as int)]);
            assert(lines.deep_view() =~= split_lines(message@));
        }
    } else {
        proof {
            assert(message@.subrange(line_start as int, i as int) =~= Seq::<char>::empty());
            assert(lines.deep_view() =~= split_lines(message@));
        }
    }
    lines
}

/// A line of nothing but white space, which the multi-line log writer
/// skips.
pub open spec fn blank_line(line: Seq<char>) -> bool {
    forall|i: int| 0 <= i < line.len() ==> whitespace_char(#[trigger] line[i])
}

/// Whether a line consists of white space alone.
fn is_blank_line(line: &str) -> (r: bool)
    ensures
        r == blank_line(line@),
{
    let n = line.unicode_len();
    let mut i: usize = 0;
    while i < n
        invariant
            n == line@.len(),
            i <= n,
            forall|j: int| 0 <= j < i ==> whitespace_char(#[trigger] line@[j]),
        decreases n - i,
    {
        let c = line.get_char(i);
        if !char_is_whitespace(c) {
            proof {
                assert(!whitespace_char(line@[i as int]));
            }
            return false;
        }
        i = i + 1;
    }
    true
}

/// The lines of `lines` that are not blank.
pub open spec fn nonblank_lines(lines: Seq<Seq<char>>) -> Seq<Seq<char>> {
    lines.filter(|l: Seq<char>| !blank_line(l))
}

/// Each of `lines` formatted as a log line under one timestamp and level.
pub open spec fn formatted_lines(
    timestamp: Seq<char>,
    level: Seq<char>,
    lines: Seq<Seq<char>>,
) -> Seq<Seq<char>> {
    lines.map_values(|l: Seq<char>| log_line(timestamp, level, l))
}

proof fn lemma_nonblank_lines_push(lines: Seq<Seq<char>>, l: Seq<char>)
    ensures
        !blank_line(l) ==> nonblank_lines(lines.push(l)) == nonblank_lines(lines).push(l),
        blank_line(l) ==> nonblank_lines(lines.push(l)) == nonblank_lines(lines),
{
    reveal(Seq::filter);
    assert(lines.push(l).drop_last() =~= lines);
    assert(lines.push(l).last() == l);
}

proof fn lemma_formatted_lines_push(
    timestamp: Seq<char>,
    level: Seq<char>,
    lines: Seq<Seq<char>>,
    l: Seq<char>,
)
    ensures
        formatted_lines(timestamp, level, lines.push(l)) == formatted_lines(
            timestamp,
            level,
            lines,
        ).push(log_line(timestamp, level, l)),
{
    assert(formatted_lines(timestamp, level, lines.push(l)) =~= formatted_lines(
        timestamp,
        level,
        lines,
    ).push(log_line(timestamp, level, l)));
}

/// The log entries that one message produces at a given timestamp and
/// level: a message of at most one line gives one entry holding the whole
/// message; a message of several lines gives one entry per line that is not
/// blank, each under the same timestamp.
pub open spec fn frontend_log_entries_of(
    timestamp: Seq<char>,
    level: Seq<char>,
    message: Seq<char>,
) -> Seq<Seq<char>> {
    let lines = split_lines(message);
    if lines.len() <= 1 {
        seq![log_line(timestamp, level, message)]
    } else {
        formatted_lines(timestamp, level, nonblank_lines(lines))
    }
}

/// Formats a message into its log entries: one entry for a single-line
/// message, one entry per non-blank line for a multi-line one.
pub fn frontend_log_entries(timestamp: &str, level: &str, message: &str) -> (r: Vec<String>)
    ensures
        r.deep_view() == frontend_log_entries_of(timestamp@, level@, message@),
{
    let lines = split_message_lines(message);
    proof {
        assert(lines.deep_view().len() == lines@.len());
    }
    if lines.len() <= 1 {
        let mut out: Vec<String> = Vec::new();
        out.push(format_log_entry(timestamp, level, message));
        proof {
            assert(out.deep_view() =~= seq![log_line(timestamp@, level@, message@)]);
        }
        out
    } else {
        let mut out: Vec<String> = Vec::new();
        let mut i: usize = 0;
        proof {
            assert(lines.deep_view().take(0) =~= Seq::<Seq<char>>::empty());
            reveal(Seq::filter);
            assert(nonblank_lines(Seq::<Seq<char>>::empty()) =~= Seq::<Seq<char>>::empty());
            assert(out.deep_view() =~= formatted_lines(
                timestamp@,
                level@,
                nonblank_lines(lines.deep_view().take(0)),
            ));
        }
        while i < lines.len()
            invariant
                lines.deep_view() == split_lines(message@),
                lines.deep_view().len() == lines@.len(),
                lines@.len() > 1,
                i <= lines@.len(),
                out.deep_view() == formatted_lines(
                    timestamp@,
                    level@,
                    nonblank_lines(lines.deep_view().take(i as int)),
                ),
            decreases lines@.len() - i,
        {
            let ghost taken = lines.deep_view().take(i as int);
            let ghost line_seq = lines.deep_view()[i as int];
            proof {
                assert(lines.deep_view().take(i + 1) =~= taken.push(line_seq));
                lemma_nonblank_lines_push(taken, line_seq);
            }
            let line = &lines[i];
            proof {
                assert(line@ == line_seq);
            }
            if !is_blank_line(line.as_str()) {
                let ghost old_out = out.deep_view();
                out.push(format_log_entry(timestamp, level, line.as_str()));
                proof {
                    lemma_formatted_lines_push(timestamp@, level@, nonblank_lines(taken), line_seq);
                    assert(out.deep_view()
                        =~= old_out.push(log_line(timestamp@, level@, line_seq)));
                }
            }
            i = i + 1;
        }
        proof {
            assert(lines.deep_view().take(lines@.len() as int) =~= lines.deep_view());
        }
        out
    }
}

/// Extracts the date from a daily log file name such as
/// `frontend-2024-01-15.log` or `backend-2024-01-15.json`.
pub fn extract_date_from_filename(filename: &str) -> (r: String)
    ensures
        r@ == extracted_date_of(filename@),
{
    proof {
        reveal_strlit("frontend-");
        reveal_strlit("backend-");
        reveal_strlit(".log");
        reveal_strlit(".json");
    }
    let n = filename.unicode_len();
    let front = "frontend-";
    let front_len = front.unicode_len();
    let back = "backend-";
    let back_len = back.unicode_len();
    if front_len <= n && pattern_at(filename, n, front, front_len, 0) {
        let a = remove_all(filename, front);
        let b = remove_all(a.as_str(), ".log");
        remove_all(b.as_str(), ".json")
    } else if back_len <= n && pattern_at(filename, n, back, back_len, 0) {
        let a = remove_all(filename, back);
        let b = remove_all(a.as_str(), ".log");
        remove_all(b.as_str(), ".json")
    } else {
        String::new()
    }
}

} // verus!
