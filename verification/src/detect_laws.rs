//! What an agent's state and subject come from, said of the expressions of its
//! conf and the texts that they are held against.

use crate::conf::AgentConf;
use crate::conf::Check;
use crate::detect;
use crate::detect::Subject;
use crate::pattern;
use crate::pattern::Pattern;
use crate::text;
use vstd::prelude::*;
use vstd::utf8::{decode_utf8, encode_utf8};

verus! {

/// Does an expression of a conf match somewhere in a text? One that is not set
/// matches nothing.
pub open spec fn matches_in(p: Option<Pattern>, t: Seq<char>) -> bool {
    match p {
        Some(q) => pattern::regex_captures(q@, t) is Some,
        None => false,
    }
}

/// Does the expression of a step match the text that the step looks at: the
/// title or the bottom of the screen?
pub open spec fn step_matches(conf: AgentConf, c: Check, title: Seq<char>, bottom: Seq<char>) -> bool {
    match c {
        Check::Bt => matches_in(conf.blocked_title, title),
        Check::Bs => matches_in(conf.blocked_screen, bottom),
        Check::Wt => matches_in(conf.working_title, title),
        Check::Ws => matches_in(conf.working_screen, bottom),
        Check::Is => matches_in(conf.idle_screen, bottom),
    }
}

/// The bottom of a screen is its last twenty lines, or all where it has no more,
/// with a line break between them; a no-break space counts as a space, and every
/// other character stands for itself.
pub proof fn the_bottom_is_the_last_twenty_lines(screen: Seq<char>, i: int)
    ensures
        ({
            let lines = text::lines(screen);
            let tail = text::join(
                if lines.len() > 20 {
                    lines.subrange(lines.len() - 20, lines.len() as int)
                } else {
                    lines
                },
                seq!['\n'],
            );
            &&& detect::looked_at(screen).len() == tail.len()
            &&& 0 <= i < tail.len() && tail[i] == '\u{a0}' ==> detect::looked_at(screen)[i] == ' '
            &&& 0 <= i < tail.len() && tail[i] != '\u{a0}' ==> detect::looked_at(screen)[i] == tail[i]
        }),
{
    reveal_strlit("\n");
    let lines = text::lines(screen);
    if lines.len() > 20 {
        assert(lines.skip(lines.len() - 20) =~= lines.subrange(lines.len() - 20, lines.len() as int));
    } else {
        assert(lines.skip(0) =~= lines);
    }
    assert("\n"@ =~= seq!['\n']);
}

/// The first step of the order whose expression matches its text decides: the
/// blocked ones say blocked, the working ones working, the idle one idle.
pub proof fn the_first_step_that_matches_decides(
    conf: AgentConf,
    title: Seq<char>,
    screen: Seq<char>,
    k: int,
)
    requires
        0 <= k < conf.check_order@.len(),
        step_matches(conf, conf.check_order@[k], title, detect::looked_at(screen)),
        forall|j: int|
            0 <= j < k ==> !step_matches(
                conf,
                #[trigger] conf.check_order@[j],
                title,
                detect::looked_at(screen),
            ),
    ensures
        conf.check_order@[k] is Bt || conf.check_order@[k] is Bs ==> detect::state_read(conf, title, screen)
            == "blocked"@,
        conf.check_order@[k] is Wt || conf.check_order@[k] is Ws ==> detect::state_read(conf, title, screen)
            == "working"@,
        conf.check_order@[k] is Is ==> detect::state_read(conf, title, screen) == "idle"@,
{
    let h = detect::hits_of(conf, title, screen);
    assert forall|i: int| 0 <= i < k implies !detect::hit(#[trigger] conf.check_order@[i], h) by {
        assert(!step_matches(conf, conf.check_order@[i], title, detect::looked_at(screen)));
    }
    detect::first_hit_wins(conf.check_order@, h, k);
}

/// An agent that no step says anything of is idle.
pub proof fn an_agent_that_shows_nothing_is_idle(conf: AgentConf, title: Seq<char>, screen: Seq<char>)
    requires
        forall|j: int|
            0 <= j < conf.check_order@.len() ==> !step_matches(
                conf,
                #[trigger] conf.check_order@[j],
                title,
                detect::looked_at(screen),
            ),
    ensures
        detect::state_read(conf, title, screen) == "idle"@,
{
    let h = detect::hits_of(conf, title, screen);
    assert forall|i: int| 0 <= i < conf.check_order@.len() implies !detect::hit(
        #[trigger] conf.check_order@[i],
        h,
    ) by {
        assert(!step_matches(conf, conf.check_order@[i], title, detect::looked_at(screen)));
    }
    detect::no_hit_is_idle(conf.check_order@, h);
}

/// An agent is blocked only where one of its blocked expressions matches, and
/// working only where one of its working expressions does.
pub proof fn a_state_has_its_reason(conf: AgentConf, title: Seq<char>, screen: Seq<char>)
    ensures
        detect::state_read(conf, title, screen) == "blocked"@ ==> matches_in(conf.blocked_title, title) || matches_in(
            conf.blocked_screen,
            detect::looked_at(screen),
        ),
        detect::state_read(conf, title, screen) == "working"@ ==> matches_in(conf.working_title, title) || matches_in(
            conf.working_screen,
            detect::looked_at(screen),
        ),
{
    lemma_reason(conf, title, screen, 0);
    reveal_strlit("blocked");
    reveal_strlit("working");
    reveal_strlit("idle");
    assert("blocked"@[0] == 'b' && "working"@[0] == 'w' && "idle"@[0] == 'i');
}

proof fn lemma_reason(conf: AgentConf, title: Seq<char>, screen: Seq<char>, i: int)
    requires
        0 <= i,
    ensures
        ({
            let v = detect::verdict_from(conf.check_order@, detect::hits_of(conf, title, screen), i);
            ||| v == "idle"@
            ||| v == "blocked"@ && (matches_in(conf.blocked_title, title) || matches_in(
                conf.blocked_screen,
                detect::looked_at(screen),
            ))
            ||| v == "working"@ && (matches_in(conf.working_title, title) || matches_in(
                conf.working_screen,
                detect::looked_at(screen),
            ))
        }),
    decreases conf.check_order@.len() - i,
{
    if i < conf.check_order@.len() && !detect::hit(conf.check_order@[i], detect::hits_of(conf, title, screen)) {
        lemma_reason(conf, title, screen, i + 1);
    }
}

/// Without a rule to strip, or where the rule matches nothing, the title is taken
/// as it is; where it matches, what it matched is cut out and the rest stays.
pub proof fn stripping_cuts_the_match_out(p: Pattern, title: Seq<char>)
    ensures
        detect::stripped(None, title) == title,
        pattern::regex_captures(p@, title) is None ==> detect::stripped(Some(p), title) == title,
        pattern::regex_captures(p@, title) matches Some((start, end, _)) ==> detect::stripped(Some(p), title)
            == decode_utf8(encode_utf8(title).take(start as int) + encode_utf8(title).skip(end as int)),
{
}

/// A title loses the echo of the pane's directory at its end, and one that says
/// no more than the directory or the agent's name is empty; any other title is
/// itself.
pub proof fn a_title_loses_its_echo(t: Seq<char>, dir: Seq<char>, name: Seq<char>)
    requires
        t != dir,
        t != name,
    ensures
        detect::without_echo(dir, dir, name).len() == 0 || text::ends(dir, seq![' ', '-', ' '] + dir),
        !text::ends(name, seq![' ', '-', ' '] + dir) ==> detect::without_echo(name, dir, name).len() == 0,
        !text::ends(t, seq![' ', '-', ' '] + dir) ==> detect::without_echo(t, dir, name) == t,
        detect::without_echo(t + seq![' ', '-', ' '] + dir, dir, name) == t,
        detect::without_echo(dir + seq![' ', '-', ' '] + dir, dir, name).len() == 0,
        detect::without_echo(name + seq![' ', '-', ' '] + dir, dir, name).len() == 0,
{
    reveal_strlit(" - ");
    assert(" - "@ =~= seq![' ', '-', ' ']);
    let echo = seq![' ', '-', ' '] + dir;
    lemma_echo(t, echo);
    lemma_echo(dir, echo);
    lemma_echo(name, echo);
    assert(t + seq![' ', '-', ' '] + dir =~= t + echo);
    assert(dir + seq![' ', '-', ' '] + dir =~= dir + echo);
    assert(name + seq![' ', '-', ' '] + dir =~= name + echo);
}

proof fn lemma_echo(t: Seq<char>, echo: Seq<char>)
    ensures
        text::ends(t + echo, echo),
        (t + echo).take((t + echo).len() - echo.len()) == t,
{
    crate::text_laws::a_text_stands_in_its_surroundings(t, echo, Seq::empty());
    assert((t + echo).take((t + echo).len() - echo.len()) =~= t);
}

/// The title as it is shown: stripped, and without the echo of the directory.
pub open spec fn tidied(conf: AgentConf, title: Seq<char>, path: Seq<char>) -> Seq<char> {
    detect::without_echo(detect::stripped(conf.title_strip, title), text::tail(path, '/'), conf.name@)
}

/// A title that says something is the subject, with its tabs as spaces, whatever
/// the screen shows: nothing is scraped and no command is run.
pub proof fn a_title_that_says_something_is_the_subject(
    conf: AgentConf,
    title: Seq<char>,
    screen: Seq<char>,
    path: Seq<char>,
    s: Subject,
    i: int,
)
    requires
        detect::resolves(s, conf, title, screen, path),
        tidied(conf, title, path).len() > 0,
    ensures
        s is Text,
        s->Text_0@.len() == tidied(conf, title, path).len(),
        0 <= i < s->Text_0@.len() && tidied(conf, title, path)[i] == '\t' ==> s->Text_0@[i] == ' ',
        0 <= i < s->Text_0@.len() && tidied(conf, title, path)[i] != '\t' ==> s->Text_0@[i] == tidied(
            conf,
            title,
            path,
        )[i],
{
}

/// Two screens make no difference to the subject of a title that says something.
pub proof fn the_screen_does_not_change_such_a_subject(
    conf: AgentConf,
    title: Seq<char>,
    one: Seq<char>,
    other: Seq<char>,
    path: Seq<char>,
    s: Subject,
    t: Subject,
)
    requires
        detect::resolves(s, conf, title, one, path),
        detect::resolves(t, conf, title, other, path),
        tidied(conf, title, path).len() > 0,
    ensures
        s is Text,
        t is Text,
        s->Text_0@ == t->Text_0@,
{
}

/// Where the title says nothing, the last line of the screen that the conf's
/// expression matches is the subject: what was matched gives way to the group's
/// text, and the rest of the line stays. Lines above and below have no say.
pub proof fn the_last_matching_line_is_scraped(
    conf: AgentConf,
    title: Seq<char>,
    screen: Seq<char>,
    path: Seq<char>,
    s: Subject,
    k: int,
)
    requires
        detect::resolves(s, conf, title, screen, path),
        tidied(conf, title, path).len() == 0,
        conf.subject_screen is Some,
        0 <= k < text::lines(screen).len(),
        pattern::regex_captures(conf.subject_screen->0@, text::lines(screen)[k]) is Some,
        forall|j: int|
            k < j < text::lines(screen).len() ==> pattern::regex_captures(
                conf.subject_screen->0@,
                #[trigger] text::lines(screen)[j],
            ) is None,
    ensures
        ({
            let line = text::lines(screen)[k];
            let (start, end, group) = pattern::regex_captures(conf.subject_screen->0@, line)->0;
            let made = decode_utf8(encode_utf8(line).take(start as int)) + (if group is Some {
                group->0
            } else {
                Seq::empty()
            }) + decode_utf8(encode_utf8(line).skip(end as int));
            &&& made.len() > 0 ==> s is Text && s->Text_0@ == text::recolour(made, '\t', ' ')
            &&& made.len() == 0 && conf.subject_cmd is Some ==> s is Ask && s->Ask_0@ == conf.subject_cmd->0@
            &&& made.len() == 0 && conf.subject_cmd is None ==> s is Text && s->Text_0@.len() == 0
        }),
{
    lemma_scraped(conf.subject_screen->0@, text::lines(screen), k);
}

proof fn lemma_scraped(expression: Seq<char>, lines: Seq<Seq<char>>, k: int)
    requires
        0 <= k < lines.len(),
        pattern::regex_captures(expression, lines[k]) is Some,
        forall|j: int| k < j < lines.len() ==> pattern::regex_captures(expression, #[trigger] lines[j]) is None,
    ensures
        ({
            let (start, end, group) = pattern::regex_captures(expression, lines[k])->0;
            detect::scraped(expression, lines) == detect::splice(lines[k], start as int, end as int, group)
        }),
    decreases lines.len(),
{
    if k < lines.len() - 1 {
        assert(pattern::regex_captures(expression, lines[lines.len() - 1]) is None);
        let rest = lines.drop_last();
        assert forall|j: int| k < j < rest.len() implies pattern::regex_captures(expression, #[trigger] rest[j]) is None by {
            assert(pattern::regex_captures(expression, lines[j]) is None);
        }
        lemma_scraped(expression, rest, k);
    }
}

/// Where neither the title nor the screen says anything, the conf's command is
/// asked; without one the subject is empty.
pub proof fn the_command_is_asked_last(
    conf: AgentConf,
    title: Seq<char>,
    screen: Seq<char>,
    path: Seq<char>,
    s: Subject,
)
    requires
        detect::resolves(s, conf, title, screen, path),
        tidied(conf, title, path).len() == 0,
        conf.subject_screen is None || forall|j: int|
            0 <= j < text::lines(screen).len() ==> pattern::regex_captures(
                conf.subject_screen->0@,
                #[trigger] text::lines(screen)[j],
            ) is None,
    ensures
        conf.subject_cmd is Some ==> s is Ask && s->Ask_0@ == conf.subject_cmd->0@,
        conf.subject_cmd is None ==> s is Text && s->Text_0@.len() == 0,
{
    if conf.subject_screen is Some {
        lemma_unscraped(conf.subject_screen->0@, text::lines(screen));
    }
}

proof fn lemma_unscraped(expression: Seq<char>, lines: Seq<Seq<char>>)
    requires
        forall|j: int| 0 <= j < lines.len() ==> pattern::regex_captures(expression, #[trigger] lines[j]) is None,
    ensures
        detect::scraped(expression, lines).len() == 0,
    decreases lines.len(),
{
    if lines.len() > 0 {
        assert(pattern::regex_captures(expression, lines[lines.len() - 1]) is None);
        let rest = lines.drop_last();
        assert forall|j: int| 0 <= j < rest.len() implies pattern::regex_captures(expression, #[trigger] rest[j]) is None by {
            assert(pattern::regex_captures(expression, lines[j]) is None);
        }
        lemma_unscraped(expression, rest);
    }
}

/// What a command printed is the subject without the line breaks at its end,
/// with its tabs as spaces; a line break inside stays.
pub proof fn printed_output_is_cut_at_its_end(m: Seq<char>, n: int)
    requires
        0 <= n,
        m.len() > 0 ==> m.last() != '\n',
    ensures
        detect::printed_subject(m + text::fill('\n', n)) == text::recolour(m, '\t', ' '),
{
    lemma_run(m, n, n);
    assert((m + text::fill('\n', n)).take(m.len() as int) =~= m);
}

proof fn lemma_run(m: Seq<char>, n: int, i: int)
    requires
        0 <= i <= n,
        m.len() > 0 ==> m.last() != '\n',
    ensures
        text::run_tail(m + text::fill('\n', n), '\n', m.len() + i) == m.len(),
    decreases i,
{
    let s = m + text::fill('\n', n);
    if i > 0 {
        assert(s[m.len() + i - 1] == '\n');
        lemma_run(m, n, i - 1);
    } else if m.len() > 0 {
        assert(s[m.len() - 1] == m.last());
    }
}

/// Each step looks at its own finding, and stands for its own state.
pub proof fn each_step_has_its_finding(h: crate::detect::Hits)
    ensures
        detect::hit(Check::Bt, h) == h.blocked_title,
        detect::hit(Check::Bs, h) == h.blocked_screen,
        detect::hit(Check::Wt, h) == h.working_title,
        detect::hit(Check::Ws, h) == h.working_screen,
        detect::hit(Check::Is, h) == h.idle_screen,
        detect::state_of(Check::Bt) == "blocked"@,
        detect::state_of(Check::Bs) == "blocked"@,
        detect::state_of(Check::Wt) == "working"@,
        detect::state_of(Check::Ws) == "working"@,
        detect::state_of(Check::Is) == "idle"@,
{
}

/// Of several lines with their findings the last that was matched counts: the
/// match gives way to its group's text.
pub proof fn the_last_finding_counts(lines: Seq<Seq<char>>, hits: Seq<Option<pattern::Hit>>, k: int)
    requires
        lines.len() == hits.len(),
    ensures
        0 <= k < lines.len() && hits[k] is Some && (forall|j: int| k < j < lines.len() ==> #[trigger] hits[j] is None)
            ==> detect::last_spliced(lines, hits) == decode_utf8(encode_utf8(lines[k]).take(hits[k]->0.start as int)) + (
        match hits[k]->0.group {
            Some(g) => g@,
            None => Seq::empty(),
        }) + decode_utf8(encode_utf8(lines[k]).skip(hits[k]->0.end as int)),
        (forall|j: int| 0 <= j < lines.len() ==> #[trigger] hits[j] is None) ==> detect::last_spliced(lines, hits).len()
            == 0,
    decreases lines.len(),
{
    if lines.len() > 0 {
        let n = lines.len() - 1;
        assert(hits[n] == hits.last() && lines[n] == lines.last());
        let rest = hits.drop_last();
        the_last_finding_counts(lines.drop_last(), rest, k);
        if hits[n] is None {
            if forall|j: int| 0 <= j < lines.len() ==> #[trigger] hits[j] is None {
                assert forall|j: int| 0 <= j < n implies #[trigger] rest[j] is None by {
                    assert(hits[j] is None);
                }
            }
            if 0 <= k < n && (forall|j: int| k < j < lines.len() ==> #[trigger] hits[j] is None) {
                assert forall|j: int| k < j < n implies #[trigger] rest[j] is None by {
                    assert(hits[j] is None);
                }
            }
        }
    }
}

} // verus!
