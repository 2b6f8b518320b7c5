//! tmux's control mode: commands go in, framed replies and notifications come
//! out, line by line.

use crate::text;
use vstd::prelude::*;
use vstd::string::*;

verus! {

/// What can go wrong with the control client.
pub enum TmuxError {
    /// The server is gone or the client was detached: clean up and leave.
    Exited,
    /// tmux refused the command.
    Error(String),
    /// The pipe failed.
    Io(String),
}

impl TmuxError {
    /// What happened, in words.
    pub open spec fn said(self) -> Seq<char> {
        match self {
            TmuxError::Exited => "tmux exited"@,
            TmuxError::Error(e) => "tmux: "@ + e@,
            TmuxError::Io(e) => "tmux pipe: "@ + e@,
        }
    }

    /// What happened, in words.
    pub fn message(&self) -> (r: String)
        ensures
            r@ == self.said(),
    {
        match self {
            TmuxError::Exited => text::owned("tmux exited"),
            TmuxError::Error(e) => {
                let mut s = text::owned("tmux: ");
                s.append(e.as_str());
                s
            },
            TmuxError::Io(e) => {
                let mut s = text::owned("tmux pipe: ");
                s.append(e.as_str());
                s
            },
        }
    }
}

// ---------------------------------------------------------------------------
// Replies

/// The number of a block, out of what follows `%begin`, `%end` or `%error`: the
/// second word.
pub open spec fn number_of(rest: Seq<char>) -> Seq<char> {
    if text::words(rest).len() > 1 {
        text::words(rest)[1]
    } else {
        Seq::empty()
    }
}

/// The number of a block, out of what follows `%begin`, `%end` or `%error`.
pub fn block_tag(rest: &str) -> (r: String)
    ensures
        r@ == number_of(rest@),
{
    let w = text::words_of(rest);
    assert(text::words(rest@) == text::views(w@));
    if w.len() > 1 {
        w[1].clone()
    } else {
        String::new()
    }
}

/// Is the line `mark`, with the number `tag` behind it?
pub open spec fn numbered(line: Seq<char>, mark: Seq<char>, tag: Seq<char>) -> bool {
    text::stands_at(line, mark, 0) && number_of(line.skip(mark.len() as int)) == tag
}

/// How far the reading of a reply has come.
pub enum Phase {
    /// No block has begun.
    Waiting,
    /// Within the block with the number, after some of its lines.
    Inside(Seq<char>, Seq<char>),
}

/// How a reply ends.
pub enum Reply {
    /// With what the command printed.
    Body(Seq<char>),
    /// With what tmux has against the command.
    Refusal(Seq<char>),
    /// With the end of the client.
    Exited,
}

/// What one more line from the pipe does. Outside a block only its beginning
/// and the client's end count. Within one, everything up to the end with its
/// own number is what the command printed: a pane may show lines that look like
/// the end of a block.
pub open spec fn after_line(phase: Phase, raw: Seq<char>) -> (Phase, Option<Reply>) {
    let line = text::chomp(raw);
    match phase {
        Phase::Waiting => if text::stands_at(line, "%begin "@, 0) {
            (
                Phase::Inside(number_of(line.skip("%begin "@.len() as int)), Seq::empty()),
                None,
            )
        } else if text::stands_at(line, "%exit"@, 0) {
            (phase, Some(Reply::Exited))
        } else {
            (phase, None)
        },
        Phase::Inside(tag, body) => if numbered(line, "%end "@, tag) {
            (phase, Some(Reply::Body(body)))
        } else if !text::stands_at(line, "%end "@, 0) && numbered(line, "%error "@, tag) {
            (phase, Some(Reply::Refusal(text::trim_end(body))))
        } else {
            (Phase::Inside(tag, body + line + seq!['\n']), None)
        },
    }
}

/// How the reply ends when the lines come in, from the `i`-th on, if it does.
pub open spec fn reply_from(phase: Phase, lines: Seq<Seq<char>>, i: int) -> Option<Reply>
    decreases lines.len() - i,
{
    if i >= lines.len() {
        None
    } else {
        match after_line(phase, lines[i]) {
            (_, Some(r)) => Some(r),
            (next, None) => reply_from(next, lines, i + 1),
        }
    }
}

/// Reads one reply: a complete block, and what stands before it.
pub struct BlockReader {
    inside: bool,
    tag: String,
    body: String,
}

impl View for BlockReader {
    type V = Phase;

    closed spec fn view(&self) -> Phase {
        if self.inside {
            Phase::Inside(self.tag@, self.body@)
        } else {
            Phase::Waiting
        }
    }
}

/// Does `r` say how the reply ended?
pub open spec fn ends_as(r: Result<String, TmuxError>, reply: Reply) -> bool {
    match reply {
        Reply::Body(b) => r is Ok && r->Ok_0@ == b,
        Reply::Refusal(e) => r is Err && r->Err_0 is Error && r->Err_0->Error_0@ == e,
        Reply::Exited => r is Err && r->Err_0 is Exited,
    }
}

impl BlockReader {
    /// A reader that waits for a block.
    pub fn new() -> (r: BlockReader)
        ensures
            r@ == Phase::Waiting,
    {
        BlockReader { inside: false, tag: String::new(), body: String::new() }
    }

    /// Takes one line from the pipe, and says how the reply ended if it did.
    pub fn feed(&mut self, raw: &str) -> (r: Option<Result<String, TmuxError>>)
        ensures
            final(self)@ == after_line(old(self)@, raw@).0,
            match r {
                Some(end) => after_line(old(self)@, raw@).1 is Some && ends_as(
                    end,
                    after_line(old(self)@, raw@).1->0,
                ),
                None => after_line(old(self)@, raw@).1 is None,
            },
    {
        let line = text::chomped(raw);
        let l = line.as_str();
        if !self.inside {
            match text::strip_prefix(l, "%begin ") {
                Some(rest) => {
                    self.inside = true;
                    self.tag = block_tag(rest);
                    self.body = String::new();
                    return None;
                },
                None => {},
            }
            if text::starts_with(l, "%exit") {
                return Some(Err(TmuxError::Exited));
            }
            return None;
        }
        match text::strip_prefix(l, "%end ") {
            Some(rest) => {
                let tag = block_tag(rest);
                if text::same(tag.as_str(), self.tag.as_str()) {
                    return Some(Ok(self.body.clone()));
                }
            },
            None => match text::strip_prefix(l, "%error ") {
                Some(rest) => {
                    let tag = block_tag(rest);
                    if text::same(tag.as_str(), self.tag.as_str()) {
                        return Some(Err(TmuxError::Error(text::trimmed_end(self.body.as_str()))));
                    }
                },
                None => {},
            },
        }
        let ghost was = self.body@;
        self.body.append(l);
        self.body.push('\n');
        assert(self.body@ =~= was + l@ + seq!['\n']);
        None
    }

    /// How the reply ends when the pipe does.
    pub fn eof(&self) -> (r: Result<String, TmuxError>)
        ensures
            r is Err,
            r->Err_0 is Exited,
    {
        Err(TmuxError::Exited)
    }
}

/// What a command printed, out of the lines that the pipe gives: each of them
/// with one line end.
pub open spec fn printed(raw: Seq<Seq<char>>) -> Seq<char>
    decreases raw.len(),
{
    if raw.len() == 0 {
        Seq::empty()
    } else {
        printed(raw.drop_last()) + text::chomp(raw.last()) + seq!['\n']
    }
}

/// Is the line, as the pipe gives it, none that closes the block with the number?
pub open spec fn is_content(raw: Seq<char>, tag: Seq<char>) -> bool {
    &&& !numbered(text::chomp(raw), "%end "@, tag)
    &&& !numbered(text::chomp(raw), "%error "@, tag)
}

proof fn lemma_inside(tag: Seq<char>, lines: Seq<Seq<char>>, i: int, n: int)
    requires
        0 <= i <= n <= lines.len(),
        forall|k: int| i <= k < n ==> is_content(#[trigger] lines[k], tag),
    ensures
        reply_from(Phase::Inside(tag, printed(lines.subrange(0, i))), lines, i) == reply_from(
            Phase::Inside(tag, printed(lines.subrange(0, n))),
            lines,
            n,
        ),
    decreases n - i,
{
    if i < n {
        assert(is_content(lines[i], tag));
        assert(lines.subrange(0, i + 1).drop_last() =~= lines.subrange(0, i));
        assert(lines.subrange(0, i + 1).last() == lines[i]);
        lemma_inside(tag, lines, i + 1, n);
    }
}

/// A command's output comes out of its block line by line as it was printed,
/// whatever it looks like, unless a line closes the block with its own number.
pub proof fn a_block_carries_what_was_printed(
    tag: Seq<char>,
    content: Seq<Seq<char>>,
    closing: Seq<char>,
    more: Seq<Seq<char>>,
)
    requires
        forall|k: int| 0 <= k < content.len() ==> is_content(#[trigger] content[k], tag),
        numbered(text::chomp(closing), "%end "@, tag),
    ensures
        reply_from(
            Phase::Inside(tag, Seq::empty()),
            content + seq![closing] + more,
            0,
        ) == Some(Reply::Body(printed(content))),
{
    let all = content + seq![closing] + more;
    let n = content.len() as int;
    assert forall|k: int| 0 <= k < n implies is_content(#[trigger] all[k], tag) by {
        assert(all[k] == content[k]);
    }
    assert(all.subrange(0, 0) =~= Seq::<Seq<char>>::empty());
    lemma_inside(tag, all, 0, n);
    assert(all.subrange(0, n) =~= content);
    assert(all[n] == closing);
}

/// A refused command is answered with what tmux printed against it.
pub proof fn a_refused_command_is_told(
    tag: Seq<char>,
    content: Seq<Seq<char>>,
    closing: Seq<char>,
    more: Seq<Seq<char>>,
)
    requires
        forall|k: int| 0 <= k < content.len() ==> is_content(#[trigger] content[k], tag),
        numbered(text::chomp(closing), "%error "@, tag),
    ensures
        reply_from(
            Phase::Inside(tag, Seq::empty()),
            content + seq![closing] + more,
            0,
        ) == Some(Reply::Refusal(text::trim_end(printed(content)))),
{
    let all = content + seq![closing] + more;
    let n = content.len() as int;
    assert forall|k: int| 0 <= k < n implies is_content(#[trigger] all[k], tag) by {
        assert(all[k] == content[k]);
    }
    assert(all.subrange(0, 0) =~= Seq::<Seq<char>>::empty());
    lemma_inside(tag, all, 0, n);
    assert(all.subrange(0, n) =~= content);
    assert(all[n] == closing);
    let line = text::chomp(closing);
    assert(!text::stands_at(line, "%end "@, 0)) by {
        reveal_strlit("%end ");
        reveal_strlit("%error ");
        if text::stands_at(line, "%end "@, 0) {
            assert(line.subrange(0, "%end "@.len() as int)[2] == 'n');
            assert(line.subrange(0, "%error "@.len() as int)[2] == 'r');
        }
    }
}

/// Notifications that come before a block do not disturb its reading.
pub proof fn notifications_are_passed_over(
    before: Seq<Seq<char>>,
    lines: Seq<Seq<char>>,
)
    requires
        forall|k: int|
            0 <= k < before.len() ==> !text::stands_at(
                text::chomp(#[trigger] before[k]),
                "%begin "@,
                0,
            ) && !text::stands_at(text::chomp(before[k]), "%exit"@, 0),
    ensures
        reply_from(Phase::Waiting, before + lines, 0) == reply_from(Phase::Waiting, lines, 0),
{
    lemma_waiting(before, lines, 0);
}

proof fn lemma_waiting(before: Seq<Seq<char>>, lines: Seq<Seq<char>>, i: int)
    requires
        0 <= i <= before.len(),
        forall|k: int|
            0 <= k < before.len() ==> !text::stands_at(
                text::chomp(#[trigger] before[k]),
                "%begin "@,
                0,
            ) && !text::stands_at(text::chomp(before[k]), "%exit"@, 0),
    ensures
        reply_from(Phase::Waiting, before + lines, i) == reply_from(Phase::Waiting, lines, 0),
    decreases before.len() - i,
{
    if i < before.len() {
        assert((before + lines)[i] == before[i]);
        lemma_waiting(before, lines, i + 1);
    } else {
        lemma_reply_shifts(before, lines, Phase::Waiting, 0);
    }
}

proof fn lemma_reply_shifts(a: Seq<Seq<char>>, b: Seq<Seq<char>>, phase: Phase, i: int)
    requires
        0 <= i <= b.len(),
    ensures
        reply_from(phase, a + b, a.len() + i) == reply_from(phase, b, i),
    decreases b.len() - i,
{
    if i < b.len() {
        assert((a + b)[a.len() + i] == b[i]);
        lemma_reply_shifts(a, b, after_line(phase, b[i]).0, i + 1);
    }
}

/// A command's reply is what it printed, whatever notifications come before its
/// block and whatever follows it.
pub proof fn a_reply_is_what_the_command_printed(
    before: Seq<Seq<char>>,
    opening: Seq<char>,
    content: Seq<Seq<char>>,
    closing: Seq<char>,
    more: Seq<Seq<char>>,
)
    requires
        forall|k: int|
            0 <= k < before.len() ==> !text::stands_at(
                text::chomp(#[trigger] before[k]),
                "%begin "@,
                0,
            ) && !text::stands_at(text::chomp(before[k]), "%exit"@, 0),
        text::stands_at(text::chomp(opening), "%begin "@, 0),
        forall|k: int|
            0 <= k < content.len() ==> is_content(
                #[trigger] content[k],
                number_of(text::chomp(opening).skip("%begin "@.len() as int)),
            ),
        numbered(
            text::chomp(closing),
            "%end "@,
            number_of(text::chomp(opening).skip("%begin "@.len() as int)),
        ),
    ensures
        reply_from(
            Phase::Waiting,
            before + (seq![opening] + (content + seq![closing] + more)),
            0,
        ) == Some(Reply::Body(printed(content))),
{
    let tag = number_of(text::chomp(opening).skip("%begin "@.len() as int));
    let block = content + seq![closing] + more;
    let rest = seq![opening] + block;
    notifications_are_passed_over(before, rest);
    assert(rest[0] == opening);
    lemma_reply_shifts(seq![opening], block, Phase::Inside(tag, Seq::empty()), 0);
    a_block_carries_what_was_printed(tag, content, closing, more);
}

/// A refused command is answered with what tmux printed against it, whatever
/// notifications come before its block and whatever follows it.
pub proof fn a_refusal_is_what_tmux_has_against_the_command(
    before: Seq<Seq<char>>,
    opening: Seq<char>,
    content: Seq<Seq<char>>,
    closing: Seq<char>,
    more: Seq<Seq<char>>,
)
    requires
        forall|k: int|
            0 <= k < before.len() ==> !text::stands_at(
                text::chomp(#[trigger] before[k]),
                "%begin "@,
                0,
            ) && !text::stands_at(text::chomp(before[k]), "%exit"@, 0),
        text::stands_at(text::chomp(opening), "%begin "@, 0),
        forall|k: int|
            0 <= k < content.len() ==> is_content(
                #[trigger] content[k],
                number_of(text::chomp(opening).skip("%begin "@.len() as int)),
            ),
        numbered(
            text::chomp(closing),
            "%error "@,
            number_of(text::chomp(opening).skip("%begin "@.len() as int)),
        ),
    ensures
        reply_from(
            Phase::Waiting,
            before + (seq![opening] + (content + seq![closing] + more)),
            0,
        ) == Some(Reply::Refusal(text::trim_end(printed(content)))),
{
    let tag = number_of(text::chomp(opening).skip("%begin "@.len() as int));
    let block = content + seq![closing] + more;
    let rest = seq![opening] + block;
    notifications_are_passed_over(before, rest);
    assert(rest[0] == opening);
    lemma_reply_shifts(seq![opening], block, Phase::Inside(tag, Seq::empty()), 0);
    a_refused_command_is_told(tag, content, closing, more);
}

// ---------------------------------------------------------------------------
// The barrier, and notifications

/// The command whose echo realigns commands and replies.
pub const SYNC_COMMAND: &'static str = "display-message -p am-sync";

/// Is the reply the echo of the barrier? Whatever comes before it is stale.
pub fn is_sync_echo(body: &str) -> (r: bool)
    ensures
        r == (body@ == "am-sync\n"@),
{
    text::same(body, "am-sync\n")
}

/// What a line outside a reply tells.
#[derive(Clone, Copy, Debug, PartialEq, Eq, Structural)]
pub enum Notice {
    /// The client is at its end.
    Exit,
    /// The active pane, window or session moved.
    Focus,
    /// Nothing that matters here.
    Other,
}

/// What a line outside a reply tells.
pub open spec fn tells(raw: Seq<char>) -> Notice {
    let line = text::chomp(raw);
    if text::stands_at(line, "%exit"@, 0) {
        Notice::Exit
    } else if text::stands_at(line, "%window-pane-changed"@, 0) || text::stands_at(
        line,
        "%session-window-changed"@,
        0,
    ) || text::stands_at(line, "%session-changed"@, 0) || text::stands_at(
        line,
        "%client-session-changed"@,
        0,
    ) {
        Notice::Focus
    } else {
        Notice::Other
    }
}

/// What a line outside a reply tells.
pub fn notice(raw: &str) -> (r: Notice)
    ensures
        r == tells(raw@),
{
    let line = text::chomped(raw);
    let l = line.as_str();
    if text::starts_with(l, "%exit") {
        Notice::Exit
    } else if text::starts_with(l, "%window-pane-changed") || text::starts_with(
        l,
        "%session-window-changed",
    ) || text::starts_with(l, "%session-changed") || text::starts_with(
        l,
        "%client-session-changed",
    ) {
        Notice::Focus
    } else {
        Notice::Other
    }
}

/// The server's socket, out of the value of `TMUX`: what stands before the first
/// comma, where there is anything.
pub fn socket(tmux_env: &str) -> (r: Option<String>)
    ensures
        match r {
            Some(s) => s@ == text::before(tmux_env@, ',') && s@.len() > 0,
            None => text::before(tmux_env@, ',').len() == 0,
        },
{
    let s = text::before_char(tmux_env, ',');
    if s.as_str().is_empty() {
        None
    } else {
        Some(s)
    }
}

} // verus!
