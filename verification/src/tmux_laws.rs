//! What the lines of a control client mean, said of how they are put together.

use crate::text;
use crate::text_laws;
use crate::tmux;
use crate::tmux::Notice;
use crate::tmux::Phase;
use crate::tmux::Reply;
use crate::tmux::TmuxError;
use vstd::prelude::*;

verus! {

/// A word: characters without white space, at least one.
pub open spec fn word(w: Seq<char>) -> bool {
    w.len() > 0 && text_laws::no_white(w)
}

/// The number of a block is the second word behind its mark: the time stands
/// before it, the flags behind it. With fewer words it is empty.
pub proof fn the_number_is_the_second_word(t: Seq<char>, n: Seq<char>, f: Seq<char>)
    requires
        word(t),
        word(n),
        word(f),
    ensures
        tmux::number_of(t + seq![' '] + n + seq![' '] + f) == n,
        tmux::number_of(t + seq![' '] + n) == n,
        tmux::number_of(t).len() == 0,
        tmux::number_of(Seq::empty()).len() == 0,
{
    let sp = seq![' '];
    let none = Seq::<char>::empty();
    assert(text_laws::all_white(sp));
    text_laws::words_lie_between_white_space(none, t, none);
    text_laws::words_lie_between_white_space(sp, n, none);
    text_laws::words_lie_between_white_space(none, t, sp + n + none);
    text_laws::words_lie_between_white_space(sp, n, sp + f);
    text_laws::words_lie_between_white_space(none, t, sp + n + (sp + f));
    assert(none + t + none =~= t);
    assert(t + sp + n =~= none + t + (sp + n + none));
    assert(t + sp + n + sp + f =~= none + t + (sp + n + (sp + f)));
    let three = text::words(t + sp + n + sp + f);
    assert(three == seq![t] + (seq![n] + text::words(sp + f)));
    assert(three[1] == n);
    let two = text::words(t + sp + n);
    assert(two == seq![t] + (seq![n] + text::words(none)));
    assert(two[1] == n);
}

/// A block is opened by its mark, in front of the line; from there to its end
/// every line is part of what was printed, with one line break each, whatever
/// breaks it came with.
pub proof fn a_block_is_opened_by_its_mark(
    t: Seq<char>,
    n: Seq<char>,
    f: Seq<char>,
    body: Seq<char>,
    line: Seq<char>,
)
    requires
        word(t),
        word(n),
        word(f),
    ensures
        tmux::after_line(Phase::Waiting, "%begin "@ + (t + seq![' '] + n + seq![' '] + f) + seq!['\n']) == (
            Phase::Inside(n, Seq::empty()),
            None::<Reply>,
        ),
        tmux::after_line(Phase::Inside(n, body), "%end "@ + (t + seq![' '] + n + seq![' '] + f) + seq!['\n']).1 == Some(
            Reply::Body(body),
        ),
        tmux::after_line(Phase::Inside(n, body), "%error "@ + (t + seq![' '] + n + seq![' '] + f) + seq!['\n']).1
            == Some(Reply::Refusal(text::trim_end(body))),
        (line.len() == 0 || line[0] != '%') && (line.len() > 0 ==> line.last() != '\n' && line.last() != '\r')
            ==> tmux::after_line(Phase::Inside(n, body), line + seq!['\n']) == (
            Phase::Inside(n, body + line + seq!['\n']),
            None::<Reply>,
        ),
{
    let sp = seq![' '];
    let rest = t + sp + n + sp + f;
    the_number_is_the_second_word(t, n, f);
    reveal_strlit("%begin ");
    reveal_strlit("%end ");
    reveal_strlit("%error ");
    lemma_word_ends(f);
    assert(rest.last() == f.last());
    lemma_marked("%begin "@, rest);
    lemma_marked("%end "@, rest);
    lemma_marked("%error "@, rest);
    let e = "%error "@ + rest;
    assert(!text::stands_at(e, "%end "@, 0)) by {
        if text::stands_at(e, "%end "@, 0) {
            assert(e.subrange(0, 5)[2] == "%end "@[2]);
            assert(e[2] == 'r');
        }
    }
    if (line.len() == 0 || line[0] != '%') && (line.len() > 0 ==> line.last() != '\n' && line.last() != '\r') {
        text_laws::line_breaks_are_dropped_from_the_end(line, seq!['\n']);
        assert(!text::stands_at(line, "%end "@, 0)) by {
            if text::stands_at(line, "%end "@, 0) {
                assert(line.subrange(0, 5)[0] == "%end "@[0]);
            }
        }
        assert(!text::stands_at(line, "%error "@, 0)) by {
            if text::stands_at(line, "%error "@, 0) {
                assert(line.subrange(0, 7)[0] == "%error "@[0]);
            }
        }
    }
}

proof fn lemma_word_ends(f: Seq<char>)
    requires
        word(f),
    ensures
        f.last() != '\n' && f.last() != '\r',
{
    assert(!text::white(f[f.len() - 1]));
}

proof fn lemma_marked(mark: Seq<char>, rest: Seq<char>)
    requires
        mark.len() > 0,
        rest.len() > 0,
        rest.last() != '\n' && rest.last() != '\r',
    ensures
        text::chomp(mark + rest + seq!['\n']) == mark + rest,
        text::stands_at(mark + rest, mark, 0),
        (mark + rest).skip(mark.len() as int) == rest,
{
    let s = mark + rest;
    assert(s.last() == rest.last());
    text_laws::line_breaks_are_dropped_from_the_end(s, seq!['\n']);
    assert(s.subrange(0, mark.len() as int) =~= mark);
    assert(s.skip(mark.len() as int) =~= rest);
}

/// The end of another block does not close this one: its line is printed text.
pub proof fn another_number_closes_nothing(
    t: Seq<char>,
    n: Seq<char>,
    f: Seq<char>,
    tag: Seq<char>,
    body: Seq<char>,
)
    requires
        word(t),
        word(n),
        word(f),
        n != tag,
    ensures
        tmux::after_line(Phase::Inside(tag, body), "%end "@ + (t + seq![' '] + n + seq![' '] + f) + seq!['\n']) == (
            Phase::Inside(tag, body + ("%end "@ + (t + seq![' '] + n + seq![' '] + f)) + seq!['\n']),
            None::<Reply>,
        ),
        tmux::after_line(Phase::Inside(tag, body), "%error "@ + (t + seq![' '] + n + seq![' '] + f) + seq!['\n']) == (
            Phase::Inside(tag, body + ("%error "@ + (t + seq![' '] + n + seq![' '] + f)) + seq!['\n']),
            None::<Reply>,
        ),
{
    let rest = t + seq![' '] + n + seq![' '] + f;
    the_number_is_the_second_word(t, n, f);
    reveal_strlit("%end ");
    reveal_strlit("%error ");
    lemma_word_ends(f);
    assert(rest.last() == f.last());
    lemma_marked("%end "@, rest);
    lemma_marked("%error "@, rest);
    let x = "%end "@ + rest;
    let e = "%error "@ + rest;
    assert(!text::stands_at(e, "%end "@, 0)) by {
        if text::stands_at(e, "%end "@, 0) {
            assert(e.subrange(0, 5)[2] == "%end "@[2]);
            assert(e[2] == 'r');
        }
    }
    assert(!text::stands_at(x, "%error "@, 0)) by {
        if text::stands_at(x, "%error "@, 0) {
            assert(x.subrange(0, 7)[2] == "%error "@[2]);
            assert(x[2] == 'n');
        }
    }
}

/// The end of the client is told outside a block, by its mark; within one the
/// mark is printed text.
pub proof fn the_end_of_the_client_is_told(rest: Seq<char>)
    requires
        rest.len() > 0 ==> rest.last() != '\n' && rest.last() != '\r',
    ensures
        tmux::after_line(Phase::Waiting, "%exit"@ + rest + seq!['\n']).1 == Some(Reply::Exited),
        tmux::tells("%exit"@ + rest + seq!['\n']) == Notice::Exit,
{
    reveal_strlit("%exit");
    reveal_strlit("%begin ");
    let s = "%exit"@ + rest;
    if rest.len() > 0 {
        assert(s.last() == rest.last());
    }
    text_laws::line_breaks_are_dropped_from_the_end(s, seq!['\n']);
    assert(s.subrange(0, 5) =~= "%exit"@);
    assert(!text::stands_at(s, "%begin "@, 0)) by {
        if text::stands_at(s, "%begin "@, 0) {
            assert(s.subrange(0, 7)[1] == "%begin "@[1]);
            assert(s[1] == 'e');
        }
    }
}

/// A line tells of a change of focus where it starts with one of four marks.
pub proof fn these_lines_tell_of_the_focus(rest: Seq<char>)
    requires
        rest.len() > 0 ==> rest.last() != '\n' && rest.last() != '\r',
    ensures
        tmux::tells("%window-pane-changed"@ + rest + seq!['\n']) == Notice::Focus,
        tmux::tells("%session-window-changed"@ + rest + seq!['\n']) == Notice::Focus,
        tmux::tells("%session-changed"@ + rest + seq!['\n']) == Notice::Focus,
        tmux::tells("%client-session-changed"@ + rest + seq!['\n']) == Notice::Focus,
{
    reveal_strlit("%exit");
    reveal_strlit("%window-pane-changed");
    reveal_strlit("%session-window-changed");
    reveal_strlit("%session-changed");
    reveal_strlit("%client-session-changed");
    lemma_notice("%window-pane-changed"@, rest);
    lemma_notice("%session-window-changed"@, rest);
    lemma_notice("%session-changed"@, rest);
    lemma_notice("%client-session-changed"@, rest);
}

proof fn lemma_notice(mark: Seq<char>, rest: Seq<char>)
    requires
        mark.len() > 1,
        mark.last() == 'd',
        mark[1] != 'e',
        rest.len() > 0 ==> rest.last() != '\n' && rest.last() != '\r',
    ensures
        text::chomp(mark + rest + seq!['\n']) == mark + rest,
        text::stands_at(mark + rest, mark, 0),
        !text::stands_at(mark + rest, "%exit"@, 0),
{
    reveal_strlit("%exit");
    let s = mark + rest;
    if rest.len() > 0 {
        assert(s.last() == rest.last());
    } else {
        assert(s.last() == mark.last());
    }
    text_laws::line_breaks_are_dropped_from_the_end(s, seq!['\n']);
    assert(s.subrange(0, mark.len() as int) =~= mark);
    if text::stands_at(s, "%exit"@, 0) {
        assert(s.subrange(0, 5)[1] == "%exit"@[1]);
        assert(s[1] == mark[1]);
    }
}

/// A line that starts with no per cent sign tells of nothing.
pub proof fn other_lines_tell_of_nothing(line: Seq<char>)
    requires
        line.len() == 0 || line[0] != '%',
        line.len() > 0 ==> line.last() != '\n' && line.last() != '\r',
    ensures
        tmux::tells(line + seq!['\n']) == Notice::Other,
{
    text_laws::line_breaks_are_dropped_from_the_end(line, seq!['\n']);
    reveal_strlit("%exit");
    reveal_strlit("%window-pane-changed");
    reveal_strlit("%session-window-changed");
    reveal_strlit("%session-changed");
    reveal_strlit("%client-session-changed");
    if line.len() >= 5 {
        assert(line.subrange(0, 5)[0] == line[0]);
    }
    if line.len() >= 16 {
        assert(line.subrange(0, 16)[0] == line[0]);
    }
    if line.len() >= 20 {
        assert(line.subrange(0, 20)[0] == line[0]);
    }
    if line.len() >= 23 {
        assert(line.subrange(0, 23)[0] == line[0]);
    }
}

/// What is said of a failure: the end of the client, what tmux has against a
/// command, or what broke the pipe.
pub proof fn failures_are_told_apart(e: String)
    ensures
        TmuxError::Exited.said() == "tmux exited"@,
        TmuxError::Error(e).said() == "tmux: "@ + e@,
        TmuxError::Io(e).said() == "tmux pipe: "@ + e@,
{
}

/// What a block printed is its lines in order, one line break behind each.
pub proof fn printed_lines_come_in_order(lines: Seq<Seq<char>>, line: Seq<char>)
    ensures
        tmux::printed(Seq::<Seq<char>>::empty()).len() == 0,
        tmux::printed(lines.push(line)) == tmux::printed(lines) + text::chomp(line) + seq!['\n'],
{
    assert(lines.push(line).drop_last() =~= lines);
}

} // verus!
