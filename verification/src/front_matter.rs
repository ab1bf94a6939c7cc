//! The metadata block at the head of a document.
//!
//! A document has front matter when its very first line is `---` and a later
//! line is `---` or `...`. After the three characters either line may carry
//! blanks, or blanks and then a comment that starts with `#`. The opening
//! line starts with its marker, at the very start of the document; before
//! the marker of the closing line blanks may stand. The block is what stands
//! between the two lines, the body what follows the second.

use crate::text::chars_of;
use vstd::prelude::*;
use vstd::string::StrSliceExecFns;

verus! {

/// A space or a tab.
pub open spec fn is_blank(c: char) -> bool {
    c == ' ' || c == '\t'
}

/// The number of characters from index `from` up to the next line feed, or to
/// the end where none follows.
pub open spec fn line_len(s: Seq<char>, from: int) -> nat
    decreases s.len() - from,
{
    if 0 <= from < s.len() && s[from] != '\n' {
        1 + line_len(s, from + 1)
    } else {
        0
    }
}

/// The index of the line feed that ends the line starting at `from`;
/// `s.len()` where the line runs to the end.
pub open spec fn line_end(s: Seq<char>, from: int) -> int {
    from + line_len(s, from)
}

/// The line that starts at `from`, without its terminator. The terminator is
/// a line feed, with the carriage return before it if there is one.
pub open spec fn line_at(s: Seq<char>, from: int) -> Seq<char> {
    let end = line_end(s, from);
    if end < s.len() && from < end && s[end - 1] == '\r' {
        s.subrange(from, end - 1)
    } else {
        s.subrange(from, end)
    }
}

/// What may follow a marker on its line: nothing but blanks, or at least one
/// blank and then a comment, which starts with `#` and runs to the end of the
/// line.
pub open spec fn is_marker_tail(tail: Seq<char>) -> bool {
    exists|k: int| #[trigger] starts_blank(tail, k) && (k == tail.len() || (k >= 1 && tail[k] == '#'))
}

/// Whether the first `k` characters of `tail` are blanks.
pub open spec fn starts_blank(tail: Seq<char>, k: int) -> bool {
    0 <= k <= tail.len() && forall|i: int| 0 <= i < k ==> is_blank(#[trigger] tail[i])
}

/// Whether `line` is a delimiter line with the marker `mark mark mark`.
pub open spec fn has_marker(line: Seq<char>, mark: char) -> bool {
    &&& line.len() >= 3
    &&& line[0] == mark
    &&& line[1] == mark
    &&& line[2] == mark
    &&& is_marker_tail(line.subrange(3, line.len() as int))
}

/// Whether `line` opens front matter: `---`.
pub open spec fn is_begin_line(line: Seq<char>) -> bool {
    has_marker(line, '-')
}

/// Whether `line` is a delimiter line with the marker `mark mark mark` once
/// the blanks that it starts with are taken off.
pub open spec fn has_indented_marker(line: Seq<char>, mark: char) -> bool {
    exists|k: int| #[trigger] starts_blank(line, k) && has_marker(line.skip(k), mark)
}

/// Whether `line` closes front matter: `---` or `...`, after blanks or none.
pub open spec fn is_end_line(line: Seq<char>) -> bool {
    has_indented_marker(line, '-') || has_indented_marker(line, '.')
}

/// The start of the first closing line among the lines that start at `from`
/// and after it.
pub open spec fn find_end(s: Seq<char>, from: int) -> Option<int>
    decreases s.len() - from,
{
    if from < 0 || from >= s.len() {
        None
    } else if is_end_line(line_at(s, from)) {
        Some(from)
    } else if line_end(s, from) < s.len() {
        find_end(s, line_end(s, from) + 1)
    } else {
        None
    }
}

/// The index at which the line after the one starting at `from` starts;
/// `s.len()` where there is none.
pub open spec fn after_line(s: Seq<char>, from: int) -> int {
    if line_end(s, from) < s.len() {
        line_end(s, from) + 1
    } else {
        s.len() as int
    }
}

/// The block and the body of `s`, or `None` where `s` has no front matter:
/// where its first line does not open one, or no later line closes it.
pub open spec fn front_matter(s: Seq<char>) -> Option<(Seq<char>, Seq<char>)> {
    if !is_begin_line(line_at(s, 0)) {
        None
    } else {
        match find_end(s, line_end(s, 0) + 1) {
            None => None,
            Some(close) => Some(
                (
                    s.subrange(line_end(s, 0) + 1, close),
                    s.subrange(after_line(s, close), s.len() as int),
                ),
            ),
        }
    }
}

/// What `line_len` computes, said without recursion.
pub proof fn lemma_line_end(s: Seq<char>, from: int)
    requires
        0 <= from <= s.len(),
    ensures
        from <= line_end(s, from) <= s.len(),
        forall|i: int| from <= i < line_end(s, from) ==> #[trigger] s[i] != '\n',
        line_end(s, from) < s.len() ==> s[line_end(s, from)] == '\n',
    decreases s.len() - from,
{
    if from < s.len() && s[from] != '\n' {
        lemma_line_end(s, from + 1);
    }
}

/// Whether a line starts at index `at`, given that one starts at `from`.
pub open spec fn starts_line(s: Seq<char>, from: int, at: int) -> bool {
    at == from || (from < at && s[at - 1] == '\n')
}

/// What `find_end` finds is the first closing line: it starts a line, it
/// closes, and no line before it does. Where it finds none, no line closes.
pub proof fn lemma_find_end(s: Seq<char>, from: int)
    requires
        0 <= from <= s.len(),
    ensures
        match find_end(s, from) {
            Some(close) => {
                &&& from <= close < s.len()
                &&& starts_line(s, from, close)
                &&& is_end_line(line_at(s, close))
                &&& forall|at: int|
                    from <= at < close && starts_line(s, from, at) ==> !is_end_line(
                        #[trigger] line_at(s, at),
                    )
            },
            None => forall|at: int|
                from <= at < s.len() && starts_line(s, from, at) ==> !is_end_line(
                    #[trigger] line_at(s, at),
                ),
        },
    decreases s.len() - from,
{
    if from < s.len() && !is_end_line(line_at(s, from)) {
        lemma_line_end(s, from);
        let end = line_end(s, from);
        if end < s.len() {
            lemma_find_end(s, end + 1);
            assert forall|at: int| from <= at && starts_line(s, from, at) implies at == from
                || starts_line(s, end + 1, at) by {
                if from < at <= end {
                    assert(s[at - 1] != '\n');
                }
            }
        } else {
            assert forall|at: int| from <= at < s.len() && starts_line(s, from, at) implies at
                == from by {
                if from < at {
                    assert(s[at - 1] != '\n');
                }
            }
        }
    }
}

/// Front matter, said without recursion. The first line opens; the block
/// runs from the line after it to the first line that closes; the body is
/// what follows that line. Both stand in the input where they stood: the
/// opening line, the block, the closing line and the body make up the input.
pub proof fn lemma_front_matter(s: Seq<char>)
    ensures
        match front_matter(s) {
            Some((block, body)) => {
                let open = line_end(s, 0) + 1;
                let close = open + block.len();
                let rest = s.len() - body.len();
                &&& is_begin_line(line_at(s, 0))
                &&& open <= close < s.len()
                &&& starts_line(s, open, close)
                &&& is_end_line(line_at(s, close))
                &&& forall|at: int|
                    open <= at < close && starts_line(s, open, at) ==> !is_end_line(
                        #[trigger] line_at(s, at),
                    )
                &&& close < rest <= s.len()
                &&& rest == after_line(s, close)
                &&& s == s.subrange(0, open) + block + s.subrange(close, rest) + body
            },
            None => !is_begin_line(line_at(s, 0)) || forall|at: int|
                line_end(s, 0) < at < s.len() && starts_line(s, line_end(s, 0) + 1, at)
                    ==> !is_end_line(#[trigger] line_at(s, at)),
        },
{
    lemma_line_end(s, 0);
    let open = line_end(s, 0) + 1;
    if is_begin_line(line_at(s, 0)) {
        if open <= s.len() {
            lemma_find_end(s, open);
            if let Some(close) = find_end(s, open) {
                lemma_line_end(s, close);
                let rest = after_line(s, close);
                let block = s.subrange(open, close);
                let body = s.subrange(rest, s.len() as int);
                assert(line_at(s, close).len() >= 3);
                assert(s =~= s.subrange(0, open) + block + s.subrange(close, rest) + body);
            }
        }
    }
}

/// The index of the line feed that ends the line starting at `from`, or the
/// length where the line runs to the end.
fn scan_line(chars: &Vec<char>, from: usize) -> (end: usize)
    requires
        from <= chars.len(),
    ensures
        end == line_end(chars@, from as int),
        from <= end <= chars.len(),
{
    let mut end = from;
    while end < chars.len() && chars[end] != '\n'
        invariant
            from <= end <= chars.len(),
            line_end(chars@, from as int) == line_end(chars@, end as int),
        decreases chars.len() - end,
    {
        end += 1;
    }
    end
}

/// Whether the characters from `from` to `to` are only blanks, or blanks and
/// a comment.
fn tail_is_clear(chars: &Vec<char>, from: usize, to: usize) -> (b: bool)
    requires
        from <= to <= chars.len(),
    ensures
        b == is_marker_tail(chars@.subrange(from as int, to as int)),
{
    let ghost tail = chars@.subrange(from as int, to as int);
    let mut at = from;
    while at < to && (chars[at] == ' ' || chars[at] == '\t')
        invariant
            from <= at <= to <= chars.len(),
            tail == chars@.subrange(from as int, to as int),
            forall|i: int| 0 <= i < at - from ==> is_blank(#[trigger] tail[i]),
        decreases to - at,
    {
        at += 1;
    }
    let clear = at == to || (at > from && chars[at] == '#');
    proof {
        let k = at - from;
        assert(starts_blank(tail, k));
        if !clear {
            assert(!is_blank(tail[k]));
            assert forall|j: int| #[trigger] starts_blank(tail, j) implies !(j == tail.len() || (j
                >= 1 && tail[j] == '#')) by {
                if j > k {
                    assert(is_blank(tail[k]));
                }
                if j < k {
                    assert(is_blank(tail[j]));
                }
            }
        }
    }
    clear
}

/// The index at which the line that starts at `from` stops, its terminator
/// left out. `end` is the index of its line feed, or the length of the text.
fn line_stop(chars: &Vec<char>, from: usize, end: usize) -> (stop: usize)
    requires
        from <= chars.len(),
        end == line_end(chars@, from as int),
    ensures
        from <= stop <= chars.len(),
        line_at(chars@, from as int) == chars@.subrange(from as int, stop as int),
{
    proof {
        lemma_line_end(chars@, from as int);
    }
    if end < chars.len() && from < end && chars[end - 1] == '\r' {
        end - 1
    } else {
        end
    }
}

/// Whether the characters from `from` to `stop` are a delimiter line with the
/// marker `mark mark mark`.
fn marker_at(chars: &Vec<char>, from: usize, stop: usize, mark: char) -> (b: bool)
    requires
        from <= stop <= chars.len(),
    ensures
        b == has_marker(chars@.subrange(from as int, stop as int), mark),
{
    let ghost line = chars@.subrange(from as int, stop as int);
    if stop - from < 3 {
        return false;
    }
    assert(line[0] == chars@[from as int]);
    assert(line[1] == chars@[from + 1]);
    assert(line[2] == chars@[from + 2]);
    if chars[from] != mark || chars[from + 1] != mark || chars[from + 2] != mark {
        return false;
    }
    assert(line.subrange(3, line.len() as int) =~= chars@.subrange(from + 3, stop as int));
    tail_is_clear(chars, from + 3, stop)
}

/// Whether the line that starts at `from` opens front matter. `end` is the
/// index of its line feed, or the length of the text.
fn line_opens(chars: &Vec<char>, from: usize, end: usize) -> (b: bool)
    requires
        from <= chars.len(),
        end == line_end(chars@, from as int),
    ensures
        b == is_begin_line(line_at(chars@, from as int)),
{
    let stop = line_stop(chars, from, end);
    marker_at(chars, from, stop, '-')
}

/// Whether the line that starts at `from` closes front matter. `end` is the
/// index of its line feed, or the length of the text.
fn line_closes(chars: &Vec<char>, from: usize, end: usize) -> (b: bool)
    requires
        from <= chars.len(),
        end == line_end(chars@, from as int),
    ensures
        b == is_end_line(line_at(chars@, from as int)),
{
    let stop = line_stop(chars, from, end);
    let ghost line = line_at(chars@, from as int);
    let mut at = from;
    while at < stop && (chars[at] == ' ' || chars[at] == '\t')
        invariant
            from <= at <= stop <= chars.len(),
            line == chars@.subrange(from as int, stop as int),
            forall|i: int| 0 <= i < at - from ==> is_blank(#[trigger] line[i]),
        decreases stop - at,
    {
        at += 1;
    }
    let dashes = marker_at(chars, at, stop, '-');
    let dots = marker_at(chars, at, stop, '.');
    proof {
        let run = at - from;
        assert(starts_blank(line, run));
        assert(line.skip(run) =~= chars@.subrange(at as int, stop as int));
        assert forall|k: int, mark: char|
            (mark == '-' || mark == '.') && #[trigger] starts_blank(line, k) && #[trigger] has_marker(
                line.skip(k),
                mark,
            ) implies k == run by {
            assert(line.skip(k)[0] == line[k]);
            if k < run {
                assert(is_blank(line[k]));
            }
            if k > run {
                assert(is_blank(line[run]));
            }
        }
    }
    dashes || dots
}

/// Splits `input` into its metadata block and its body. `None` says that the
/// document has no front matter; the whole input is then its body.
pub fn extract_metadata(input: &str) -> (r: Option<(&str, &str)>)
    ensures
        match r {
            Some((block, body)) => front_matter(input@) == Some((block@, body@)),
            None => front_matter(input@) is None,
        },
{
    let chars = chars_of(input);
    let n = chars.len();
    let first_end = scan_line(&chars, 0);
    if !line_opens(&chars, 0, first_end) {
        return None;
    }
    if first_end >= n {
        return None;
    }
    assert(chars@ == input@);
    let open = first_end + 1;
    let mut at = open;
    while at < n
        invariant
            open <= at <= n,
            n == chars@.len(),
            chars@ == input@,
            is_begin_line(line_at(chars@, 0)),
            open == line_end(chars@, 0) + 1,
            find_end(chars@, open as int) == find_end(chars@, at as int),
        decreases n - at,
    {
        let end = scan_line(&chars, at);
        assert(find_end(chars@, at as int) == if is_end_line(line_at(chars@, at as int)) {
            Some(at as int)
        } else if end < n {
            find_end(chars@, end + 1)
        } else {
            None
        });
        if line_closes(&chars, at, end) {
            let rest = if end < n {
                end + 1
            } else {
                n
            };
            return Some((input.substring_char(open, at), input.substring_char(rest, n)));
        }
        if end >= n {
            return None;
        }
        at = end + 1;
    }
    None
}

} // verus!
