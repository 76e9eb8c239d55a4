//! Splitting a text into lines.

use vstd::prelude::*;

verus! {

/// The position of the first line feed of `text`, or its length if it has none.
pub open spec fn line_end(text: Seq<char>) -> int
    decreases text.len(),
{
    if text.len() == 0 || text[0] == '\n' {
        0
    } else {
        1 + line_end(text.drop_first())
    }
}

/// `line` without the carriage return at its end, if it has one there.
pub open spec fn without_cr(line: Seq<char>) -> Seq<char> {
    if line.len() > 0 && line.last() == '\r' {
        line.drop_last()
    } else {
        line
    }
}

/// The lines of a text.
///
/// A line ends at a line feed, or at the end of the text. The line feed is
/// not part of the line, and neither is a carriage return that stands
/// directly before it. The empty text has no lines, and a line feed at the
/// very end of the text starts no further line: `"a\n"` is the one line
/// `"a"`, and `"a\n\n"` is the lines `"a"` and `""`. A carriage return
/// anywhere else stays in its line.
pub open spec fn lines_of(text: Seq<char>) -> Seq<Seq<char>>
    decreases text.len(),
{
    let end = line_end(text);
    if text.len() == 0 {
        Seq::empty()
    } else if 0 <= end < text.len() {
        seq![without_cr(text.take(end))] + lines_of(text.skip(end + 1))
    } else {
        seq![text]
    }
}

/// No character of `text` is a line feed.
pub open spec fn has_no_line_feed(text: Seq<char>) -> bool {
    forall|k: int| 0 <= k < text.len() ==> text[k] != '\n'
}

/// A text that holds `head`, a line feed and `tail` has its first line
/// end behind `head`, where `head` holds no line feed itself.
proof fn lemma_line_end_at(head: Seq<char>, tail: Seq<char>)
    requires
        has_no_line_feed(head),
    ensures
        line_end(head + seq!['\n'] + tail) == head.len(),
    decreases head.len(),
{
    let text = head + seq!['\n'] + tail;
    if head.len() > 0 {
        assert(text.drop_first() =~= head.drop_first() + seq!['\n'] + tail);
        lemma_line_end_at(head.drop_first(), tail);
    }
}

/// A text without a line feed has no line end before its own end.
proof fn lemma_line_end_none(text: Seq<char>)
    requires
        has_no_line_feed(text),
    ensures
        line_end(text) == text.len(),
    decreases text.len(),
{
    if text.len() > 0 {
        lemma_line_end_none(text.drop_first());
    }
}

/// The lines of a text whose first line feed stands behind `head`: the
/// line `head`, then the lines of what follows the line feed.
pub proof fn lemma_lines_of_terminated(head: Seq<char>, tail: Seq<char>)
    requires
        has_no_line_feed(head),
    ensures
        lines_of(head + seq!['\n'] + tail) == seq![without_cr(head)] + lines_of(tail),
{
    let text = head + seq!['\n'] + tail;
    lemma_line_end_at(head, tail);
    assert(text.take(head.len() as int) =~= head);
    assert(text.skip(head.len() as int + 1) =~= tail);
}

/// The lines of a text without a line feed: the text itself, unless it is empty.
pub proof fn lemma_lines_of_unterminated(text: Seq<char>)
    requires
        has_no_line_feed(text),
    ensures
        lines_of(text) == (if text.len() == 0 {
            Seq::<Seq<char>>::empty()
        } else {
            seq![text]
        }),
{
    lemma_line_end_none(text);
}

/// `String::push` of std: appends the character `c` to the end of `s`.
#[verifier::external_body]
fn push_char(s: &mut String, c: char)
    ensures
        final(s)@ == old(s)@.push(c),
{
    s.push(c);
}

/// What the scanner holds of the line it is reading: the characters in
/// `line`, and behind them a carriage return that is not yet known to
/// belong to the line or to its terminator.
spec fn held(line: Seq<char>, pending_cr: bool) -> Seq<char> {
    if pending_cr {
        line.push('\r')
    } else {
        line
    }
}

/// Splits `text` into its lines.
pub fn split_lines(text: &str) -> (lines: Vec<String>)
    ensures
        lines.deep_view() == lines_of(text@),
{
    let mut lines: Vec<String> = Vec::new();
    let mut line = String::new();
    let mut pending_cr = false;
    proof {
        assert(held(line@, pending_cr) + text@.skip(0) =~= text@);
        assert(lines.deep_view() =~= Seq::<Seq<char>>::empty());
    }
    for c in it: text.chars()
        invariant
            it.seq() == text@,
            has_no_line_feed(held(line@, pending_cr)),
            !pending_cr && line@.len() > 0 ==> line@.last() != '\r',
            lines_of(text@) == lines.deep_view() + lines_of(
                held(line@, pending_cr) + text@.skip(it.index()),
            ),
    {
        let ghost before = held(line@, pending_cr);
        let ghost rest = text@.skip(it.index() + 1);
        let ghost done = lines.deep_view();
        assert(c == text@[it.index()]);
        assert(text@.skip(it.index()) =~= seq![c] + rest);
        if c == '\n' {
            proof {
                assert(before + text@.skip(it.index()) =~= before + seq!['\n'] + rest);
                lemma_lines_of_terminated(before, rest);
                assert(without_cr(before) =~= line@);
            }
            lines.push(line);
            line = String::new();
            pending_cr = false;
            proof {
                assert(lines.deep_view() =~= done + seq![without_cr(before)]);
                assert(held(line@, pending_cr) + rest =~= rest);
            }
        } else {
            if pending_cr {
                push_char(&mut line, '\r');
            }
            if c == '\r' {
                pending_cr = true;
            } else {
                push_char(&mut line, c);
                pending_cr = false;
            }
            proof {
                assert(held(line@, pending_cr) =~= before.push(c));
                assert(held(line@, pending_cr) + rest =~= before + text@.skip(it.index()));
            }
        }
    }
    proof {
        assert(text@.skip(text@.len() as int) =~= Seq::<char>::empty());
        assert(held(line@, pending_cr) + Seq::<char>::empty() =~= held(line@, pending_cr));
        lemma_lines_of_unterminated(held(line@, pending_cr));
    }
    if pending_cr {
        push_char(&mut line, '\r');
    }
    if !line.as_str().is_empty() {
        let ghost done = lines.deep_view();
        let ghost last = line@;
        lines.push(line);
        proof {
            assert(lines.deep_view() =~= done + seq![last]);
        }
    }
    lines
}

} // verus!
