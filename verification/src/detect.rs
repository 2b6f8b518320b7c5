//! The state of an agent, and the subject line shown below it.

use crate::conf::{AgentConf, Check};
use crate::pattern;
use crate::pattern::{Hit, Pattern};
use crate::text;
use crate::unicode;
use vstd::prelude::*;
use vstd::string::*;
use vstd::utf8::*;

verus! {

// ---------------------------------------------------------------------------
// State

/// Which of a conf's rules found something.
#[derive(Clone, Copy)]
pub struct Hits {
    pub blocked_title: bool,
    pub blocked_screen: bool,
    pub working_title: bool,
    pub working_screen: bool,
    pub idle_screen: bool,
}

/// Did the rule of the step find something?
pub open spec fn hit(c: Check, h: Hits) -> bool {
    match c {
        Check::Bt => h.blocked_title,
        Check::Bs => h.blocked_screen,
        Check::Wt => h.working_title,
        Check::Ws => h.working_screen,
        Check::Is => h.idle_screen,
    }
}

/// The state that a step stands for.
pub open spec fn state_of(c: Check) -> Seq<char> {
    match c {
        Check::Bt | Check::Bs => "blocked"@,
        Check::Wt | Check::Ws => "working"@,
        Check::Is => "idle"@,
    }
}

/// The state of the first step from `i` on whose rule found something, or idle.
pub open spec fn verdict_from(order: Seq<Check>, h: Hits, i: int) -> Seq<char>
    decreases order.len() - i,
{
    if i >= order.len() {
        "idle"@
    } else if hit(order[i], h) {
        state_of(order[i])
    } else {
        verdict_from(order, h, i + 1)
    }
}

/// How many lines at the bottom of the screen are looked at.
pub const TAIL_LINES: usize = 20;

/// The last lines of a list.
pub open spec fn bottom(lines: Seq<Seq<char>>) -> Seq<Seq<char>> {
    lines.skip(text::over(lines.len() as int, TAIL_LINES as int))
}

/// The part of the screen that the rules look at: its last lines, with each
/// no-break space turned into a space.
pub open spec fn looked_at(screen: Seq<char>) -> Seq<char> {
    text::recolour(text::join(bottom(text::lines(screen)), "\n"@), '\u{a0}', ' ')
}

/// Does the rule find something in `t`? An unset one never does.
pub open spec fn finds(p: Option<Pattern>, t: Seq<char>) -> bool {
    p is Some && pattern::regex_captures(p->0@, t) is Some
}

/// What the rules of a conf find.
pub open spec fn hits_of(conf: AgentConf, title: Seq<char>, screen: Seq<char>) -> Hits {
    Hits {
        blocked_title: finds(conf.blocked_title, title),
        blocked_screen: finds(conf.blocked_screen, looked_at(screen)),
        working_title: finds(conf.working_title, title),
        working_screen: finds(conf.working_screen, looked_at(screen)),
        idle_screen: finds(conf.idle_screen, looked_at(screen)),
    }
}

/// The state that a conf reads off a pane's title and screen.
pub open spec fn state_read(conf: AgentConf, title: Seq<char>, screen: Seq<char>) -> Seq<char> {
    verdict_from(conf.check_order@, hits_of(conf, title, screen), 0)
}

fn m(p: &Option<Pattern>, t: &str) -> (r: bool)
    ensures
        r == finds(*p, t@),
{
    match p {
        Some(q) => pattern::is_match(q, t),
        None => false,
    }
}

/// The part of the screen that the rules look at.
pub fn screen_tail(screen: &str) -> (r: String)
    ensures
        r@ == looked_at(screen@),
{
    let lines = text::lines_of(screen);
    let start: usize = if lines.len() > TAIL_LINES {
        lines.len() - TAIL_LINES
    } else {
        0
    };
    let joined = text::join_from(&lines, start, "\n");
    text::swapped(joined.as_str(), '\u{a0}', ' ')
}

/// The state of the first step in `order` whose rule found something, or idle.
pub fn verdict(order: &Vec<Check>, hits: &Hits) -> (r: &'static str)
    ensures
        r@ == verdict_from(order@, *hits, 0),
{
    let mut i: usize = 0;
    while i < order.len()
        invariant
            i <= order@.len(),
            verdict_from(order@, *hits, 0) == verdict_from(order@, *hits, i as int),
        decreases order@.len() - i,
    {
        match order[i] {
            Check::Bt => {
                if hits.blocked_title {
                    return "blocked";
                }
            },
            Check::Bs => {
                if hits.blocked_screen {
                    return "blocked";
                }
            },
            Check::Wt => {
                if hits.working_title {
                    return "working";
                }
            },
            Check::Ws => {
                if hits.working_screen {
                    return "working";
                }
            },
            Check::Is => {
                if hits.idle_screen {
                    return "idle";
                }
            },
        }
        i += 1;
    }
    "idle"
}

/// The state that `conf` reads off a pane's title and the bottom of its screen:
/// the steps of its order are tried in turn, and the first hit wins.
pub fn detect_state(conf: &AgentConf, title: &str, screen: &str) -> (r: &'static str)
    ensures
        r@ == state_read(*conf, title@, screen@),
{
    let tail = screen_tail(screen);
    let hits = Hits {
        blocked_title: m(&conf.blocked_title, title),
        blocked_screen: m(&conf.blocked_screen, tail.as_str()),
        working_title: m(&conf.working_title, title),
        working_screen: m(&conf.working_screen, tail.as_str()),
        idle_screen: m(&conf.idle_screen, tail.as_str()),
    };
    verdict(&conf.check_order, &hits)
}

/// The first step of the order whose rule finds something decides.
pub proof fn first_hit_wins(order: Seq<Check>, h: Hits, k: int)
    requires
        0 <= k < order.len(),
        hit(order[k], h),
        forall|i: int| 0 <= i < k ==> !hit(#[trigger] order[i], h),
    ensures
        verdict_from(order, h, 0) == state_of(order[k]),
{
    lemma_skips(order, h, 0, k);
}

/// Where no step of the order finds anything, the agent is idle.
pub proof fn no_hit_is_idle(order: Seq<Check>, h: Hits)
    requires
        forall|i: int| 0 <= i < order.len() ==> !hit(#[trigger] order[i], h),
    ensures
        verdict_from(order, h, 0) == "idle"@,
{
    lemma_skips(order, h, 0, order.len() as int);
}

/// A state is one of three.
pub proof fn a_state_is_one_of_three(order: Seq<Check>, h: Hits, i: int)
    ensures
        ({
            let s = verdict_from(order, h, i);
            s == "blocked"@ || s == "working"@ || s == "idle"@
        }),
    decreases order.len() - i,
{
    if i < order.len() && !hit(order[i], h) {
        a_state_is_one_of_three(order, h, i + 1);
    }
}

proof fn lemma_skips(order: Seq<Check>, h: Hits, i: int, k: int)
    requires
        0 <= i <= k <= order.len(),
        forall|j: int| i <= j < k ==> !hit(#[trigger] order[j], h),
    ensures
        verdict_from(order, h, i) == verdict_from(order, h, k),
    decreases k - i,
{
    if i < k {
        lemma_skips(order, h, i + 1, k);
    }
}

/// What scrolled up past the bottom lines has no say in the state.
pub proof fn only_the_bottom_lines_matter(
    conf: AgentConf,
    title: Seq<char>,
    above: Seq<char>,
    screen: Seq<char>,
)
    requires
        above.len() > 0,
        above.last() == '\n',
        text::lines(screen).len() >= TAIL_LINES,
    ensures
        state_read(conf, title, above + screen) == state_read(conf, title, screen),
{
    text::lemma_lines_of_two(above, screen, 0);
    let a = text::lines(above);
    let b = text::lines(screen);
    assert(text::lines(above + screen) == a + b);
    assert(bottom(a + b) =~= bottom(b));
}

// ---------------------------------------------------------------------------
// Subject

/// A line with its matched span replaced by what the first group matched.
pub open spec fn splice(line: Seq<char>, start: int, end: int, group: Option<Seq<char>>) -> Seq<
    char,
> {
    decode_utf8(encode_utf8(line).take(start)) + (match group {
        Some(g) => g,
        None => Seq::empty(),
    }) + decode_utf8(encode_utf8(line).skip(end))
}

/// May the span be cut out of the line?
pub open spec fn cuts(line: Seq<char>, start: int, end: int) -> bool {
    &&& 0 <= start <= end <= encode_utf8(line).len()
    &&& is_char_boundary(encode_utf8(line), start)
    &&& is_char_boundary(encode_utf8(line), end)
}

/// What the last line that matches the expression becomes, or nothing.
pub open spec fn scraped(expression: Seq<char>, lines: Seq<Seq<char>>) -> Seq<char>
    decreases lines.len(),
{
    if lines.len() == 0 {
        Seq::empty()
    } else {
        match pattern::regex_captures(expression, lines.last()) {
            Some((start, end, group)) => splice(lines.last(), start as int, end as int, group),
            None => scraped(expression, lines.drop_last()),
        }
    }
}

/// What the last line that was hit becomes, or nothing.
pub open spec fn last_spliced(lines: Seq<Seq<char>>, hits: Seq<Option<Hit>>) -> Seq<char>
    decreases lines.len(),
{
    if lines.len() == 0 {
        Seq::empty()
    } else {
        match hits.last() {
            Some(h) => splice(lines.last(), h.start as int, h.end as int, group_of(h)),
            None => last_spliced(lines.drop_last(), hits.drop_last()),
        }
    }
}

/// What the first group of a match holds.
pub open spec fn group_of(h: Hit) -> Option<Seq<char>> {
    match h.group {
        Some(g) => Some(g@),
        None => None,
    }
}

/// The line with the matched span replaced by what the first group matched.
pub fn spliced(line: &str, h: &Hit) -> (r: String)
    requires
        cuts(line@, h.start as int, h.end as int),
    ensures
        r@ == splice(line@, h.start as int, h.end as int, group_of(*h)),
{
    let (before, _) = line.split_at(h.start);
    let (_, after) = line.split_at(h.end);
    let mut out = String::new();
    out.append(before);
    match &h.group {
        Some(g) => {
            out.append(g.as_str());
        },
        None => {},
    }
    out.append(after);
    proof {
        encode_utf8_decode_utf8(before@);
        encode_utf8_decode_utf8(after@);
        assert(encode_utf8(before@) =~= encode_utf8(line@).take(h.start as int));
        assert(encode_utf8(after@) =~= encode_utf8(line@).skip(h.end as int));
        assert(out@ =~= splice(line@, h.start as int, h.end as int, group_of(*h)));
    }
    out
}

/// What the last line that was hit becomes, or nothing.
pub fn splice_last(lines: &Vec<String>, hits: &Vec<Option<Hit>>) -> (r: String)
    requires
        lines@.len() == hits@.len(),
        forall|i: int|
            0 <= i < hits@.len() && (#[trigger] hits@[i]) is Some ==> cuts(
                lines@[i]@,
                hits@[i]->0.start as int,
                hits@[i]->0.end as int,
            ),
    ensures
        r@ == last_spliced(text::views(lines@), hits@),
{
    let ghost all = text::views(lines@);
    let mut i: usize = lines.len();
    assert(all.take(i as int) =~= all);
    assert(hits@.take(i as int) =~= hits@);
    while i > 0
        invariant
            lines@.len() == hits@.len(),
            all == text::views(lines@),
            i <= lines@.len(),
            forall|i: int|
                0 <= i < hits@.len() && (#[trigger] hits@[i]) is Some ==> cuts(
                    lines@[i]@,
                    hits@[i]->0.start as int,
                    hits@[i]->0.end as int,
                ),
            last_spliced(all, hits@) == last_spliced(
                all.take(i as int),
                hits@.take(i as int),
            ),
        decreases i,
    {
        proof {
            assert(all.take(i as int).last() == lines@[i - 1]@);
            assert(hits@.take(i as int).last() == hits@[i - 1]);
            assert(all.take(i as int).drop_last() =~= all.take(i - 1));
            assert(hits@.take(i as int).drop_last() =~= hits@.take(i - 1));
        }
        match &hits[i - 1] {
            Some(h) => {
                return spliced(lines[i - 1].as_str(), h);
            },
            None => {},
        }
        i -= 1;
    }
    String::new()
}

/// What the last line of the screen that matches becomes, or nothing.
fn scrape(p: &Pattern, screen: &str) -> (r: String)
    ensures
        r@ == scraped(p@, text::lines(screen@)),
{
    let lines = text::lines_of(screen);
    let ghost all = text::views(lines@);
    let mut hits: Vec<Option<Hit>> = Vec::new();
    let mut i: usize = 0;
    while i < lines.len()
        invariant
            all == text::views(lines@),
            i <= lines@.len(),
            hits@.len() == i,
            forall|k: int|
                0 <= k < i && (#[trigger] hits@[k]) is Some ==> cuts(
                    lines@[k]@,
                    hits@[k]->0.start as int,
                    hits@[k]->0.end as int,
                ),
            last_spliced(all.take(i as int), hits@) == scraped(p@, all.take(i as int)),
        decreases lines@.len() - i,
    {
        let ghost was = hits@;
        let h = pattern::captures(p, lines[i].as_str());
        hits.push(h);
        proof {
            assert(all.take(i + 1).last() == lines@[i as int]@);
            assert(all.take(i + 1).drop_last() =~= all.take(i as int));
            assert(hits@.drop_last() =~= was);
        }
        i += 1;
    }
    assert(all.take(i as int) =~= all);
    splice_last(&lines, &hits)
}

/// A title without the decoration that the conf strips from it.
pub open spec fn stripped(p: Option<Pattern>, title: Seq<char>) -> Seq<char> {
    match p {
        Some(q) => match pattern::regex_captures(q@, title) {
            Some((start, end, _)) => decode_utf8(
                encode_utf8(title).take(start as int) + encode_utf8(title).skip(end as int),
            ),
            None => title,
        },
        None => title,
    }
}

/// A title without the directory that it echoes: a ` - dir` at its end goes, and
/// nothing is left of one that says only the directory or the agent's name.
pub open spec fn without_echo(t: Seq<char>, dir: Seq<char>, name: Seq<char>) -> Seq<char> {
    let echo = " - "@ + dir;
    let u = if text::ends(t, echo) {
        t.take(t.len() - echo.len())
    } else {
        t
    };
    if u == dir || u == name {
        Seq::empty()
    } else {
        u
    }
}

/// A title, stripped already, without the directory that it echoes.
pub fn drop_echo(t: &str, path: &str, name: &str) -> (r: String)
    ensures
        r@ == without_echo(t@, text::tail(path@, '/'), name@),
{
    let dir = text::tail_of(path, '/');
    let mut echo = String::new();
    echo.append(" - ");
    echo.append(dir);
    assert(echo@ =~= " - "@ + dir@);
    let u = match text::strip_suffix(t, echo.as_str()) {
        Some(p) => p,
        None => t,
    };
    if text::same(u, dir) || text::same(u, name) {
        String::new()
    } else {
        text::owned(u)
    }
}

/// Where the subject of a pane comes from.
pub enum Subject {
    /// The subject itself.
    Text(String),
    /// The shell command whose output is the subject; its `$path` is the pane's
    /// directory.
    Ask(String),
}

/// The subject that title and screen give, before tabs are replaced.
pub open spec fn seen_subject(
    conf: AgentConf,
    title: Seq<char>,
    screen: Seq<char>,
    path: Seq<char>,
) -> Seq<char> {
    let t = without_echo(stripped(conf.title_strip, title), text::tail(path, '/'), conf.name@);
    if t.len() == 0 && conf.subject_screen is Some {
        scraped(conf.subject_screen->0@, text::lines(screen))
    } else {
        t
    }
}

/// Does `s` say where the subject comes from: the cleaned title, what the screen
/// shows where that is empty, and the conf's command where both are?
pub open spec fn resolves(
    s: Subject,
    conf: AgentConf,
    title: Seq<char>,
    screen: Seq<char>,
    path: Seq<char>,
) -> bool {
    let seen = seen_subject(conf, title, screen, path);
    match s {
        Subject::Text(t) => {
            &&& seen.len() > 0 || conf.subject_cmd is None
            &&& t@ == text::recolour(seen, '\t', ' ')
        },
        Subject::Ask(cmd) => {
            &&& seen.len() == 0
            &&& conf.subject_cmd is Some
            &&& cmd@ == conf.subject_cmd->0@
        },
    }
}

/// The subject line of a pane: its title without the agent's decoration, else
/// what the conf scrapes off the screen, else what the conf's command prints.
pub fn subject(conf: &AgentConf, title: &str, screen: &str, path: &str) -> (r: Subject)
    ensures
        resolves(r, *conf, title@, screen@, path@),
{
    let bare = match &conf.title_strip {
        Some(p) => {
            let b = pattern::without_match(p, title);
            proof {
                encode_utf8_decode_utf8(b@);
            }
            b
        },
        None => text::owned(title),
    };
    let mut t = drop_echo(bare.as_str(), path, conf.name.as_str());
    if t.as_str().is_empty() {
        match &conf.subject_screen {
            Some(p) => {
                t = scrape(p, screen);
            },
            None => {},
        }
    }
    if t.as_str().is_empty() {
        match &conf.subject_cmd {
            Some(cmd) => {
                return Subject::Ask(cmd.clone());
            },
            None => {},
        }
    }
    Subject::Text(text::swapped(t.as_str(), '\t', ' '))
}

/// The subject that a command printed: without the line ends at its end, tabs
/// turned into spaces.
pub open spec fn printed_subject(out: Seq<char>) -> Seq<char> {
    text::recolour(out.take(text::run_tail(out, '\n', out.len() as int)), '\t', ' ')
}

/// The subject that a command printed, as text.
pub fn subject_from_text(out: &str) -> (r: String)
    ensures
        r@ == printed_subject(out@),
{
    let t = text::without_tail(out, '\n');
    text::swapped(t.as_str(), '\t', ' ')
}

/// The subject that a command printed. One that could not be run gives none.
pub fn subject_from_command(stdout: Option<Vec<u8>>) -> (r: String)
    ensures
        match stdout {
            Some(bytes) => r@ == printed_subject(unicode::lossy(bytes@)),
            None => r@ == Seq::<char>::empty(),
        },
{
    match stdout {
        Some(bytes) => {
            let t = unicode::decoded_lossy(bytes.as_slice());
            subject_from_text(t.as_str())
        },
        None => String::new(),
    }
}

/// No subject holds a tab, wherever it comes from, so that it can stand in a
/// tab-separated row.
pub proof fn subjects_hold_no_tab(
    conf: AgentConf,
    title: Seq<char>,
    screen: Seq<char>,
    path: Seq<char>,
    subject: String,
    out: Seq<char>,
)
    ensures
        resolves(Subject::Text(subject), conf, title, screen, path) ==> !subject@.contains('\t'),
        !printed_subject(out).contains('\t'),
{
    let seen = seen_subject(conf, title, screen, path);
    lemma_recoloured(seen);
    lemma_recoloured(out.take(text::run_tail(out, '\n', out.len() as int)));
}

proof fn lemma_recoloured(s: Seq<char>)
    ensures
        !text::recolour(s, '\t', ' ').contains('\t'),
{
    let t = text::recolour(s, '\t', ' ');
    if t.contains('\t') {
        let i = choose|i: int| 0 <= i < t.len() && t[i] == '\t';
        assert(t[i] != '\t');
    }
}

} // verus!
