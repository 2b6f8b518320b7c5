//! Agent detection rules, read from shell-syntax `agents/*.conf` files. The
//! engine knows no agent by itself: everything comes from here.

use crate::pattern;
use crate::pattern::Pattern;
use crate::text;
use vstd::prelude::*;
use vstd::string::*;

verus! {

/// One step of a conf's `CHECK_ORDER`.
#[derive(Clone, Copy, Debug, PartialEq, Eq, Structural)]
pub enum Check {
    /// Blocked, by the pane's title.
    Bt,
    /// Blocked, by the screen.
    Bs,
    /// Working, by the pane's title.
    Wt,
    /// Working, by the screen.
    Ws,
    /// Idle, by the screen.
    Is,
}

/// What a conf file says of one agent.
pub struct AgentConf {
    pub name: String,
    pub bins: Vec<String>,
    pub path_hints: Vec<String>,
    pub blocked_title: Option<Pattern>,
    pub blocked_screen: Option<Pattern>,
    pub working_title: Option<Pattern>,
    pub working_screen: Option<Pattern>,
    pub idle_screen: Option<Pattern>,
    pub check_order: Vec<Check>,
    pub title_strip: Option<Pattern>,
    pub subject_screen: Option<Pattern>,
    pub subject_cmd: Option<String>,
}

// ---------------------------------------------------------------------------
// The grammar

/// May `c` stand in the name of a variable?
pub open spec fn name_char(c: char) -> bool {
    text::alphanumeric(c) || c == '_'
}

/// Where the run of name characters that starts at `i` ends.
pub open spec fn name_end(s: Seq<char>, i: int) -> int
    decreases s.len() - i,
{
    if i >= s.len() {
        s.len() as int
    } else if name_char(s[i]) {
        name_end(s, i + 1)
    } else {
        i
    }
}

/// Where the line after the one that holds `i` starts. Past the end there is no
/// other place.
pub open spec fn next_line(s: Seq<char>, i: int) -> int {
    if i >= s.len() {
        i
    } else {
        let e = text::index_from(s, '\n', i);
        if e < s.len() {
            e + 1
        } else {
            s.len() as int
        }
    }
}

/// Does a backslash within double quotes escape `c`?
pub open spec fn escapable(c: char) -> bool {
    c == '"' || c == '\\' || c == '`' || c == '$'
}

/// Does `c` end an unquoted value?
pub open spec fn ends_value(c: char) -> bool {
    c == '\n' || c == ' ' || c == '\t' || c == '#'
}

/// The text within double quotes from `i` on, and where what follows the
/// closing quote starts. One that is missing counts as if it stood at the end.
pub open spec fn quoted_from(s: Seq<char>, i: int) -> (Seq<char>, int)
    decreases s.len() - i,
{
    if i >= s.len() {
        (Seq::empty(), i + 1)
    } else if s[i] == '"' {
        (Seq::empty(), i + 1)
    } else if s[i] == '\\' && i + 1 < s.len() && escapable(s[i + 1]) {
        (seq![s[i + 1]] + quoted_from(s, i + 2).0, quoted_from(s, i + 2).1)
    } else {
        (seq![s[i]] + quoted_from(s, i + 1).0, quoted_from(s, i + 1).1)
    }
}

/// Where what follows the single-quoted text from `i` on starts. A closing quote
/// that is missing counts as if it stood at the end.
pub open spec fn verbatim_end(s: Seq<char>, i: int) -> int {
    text::index_from(s, '\'', i) + 1
}

/// The value that starts at `i`, and where it stops: quoted and unquoted parts
/// follow each other until a blank, a line end or a comment.
pub open spec fn value_from(s: Seq<char>, i: int) -> (Seq<char>, int)
    decreases s.len() + 1 - i,
{
    if i < 0 || i >= s.len() {
        (Seq::empty(), i)
    } else if s[i] == '\'' {
        proof {
            text::lemma_index_from(s, '\'', i + 1);
        }
        let (rest, stop) = value_from(s, verbatim_end(s, i + 1));
        (s.subrange(i + 1, text::index_from(s, '\'', i + 1)) + rest, stop)
    } else if s[i] == '"' {
        proof {
            lemma_quoted_from(s, i + 1);
        }
        let (rest, stop) = value_from(s, quoted_from(s, i + 1).1);
        (quoted_from(s, i + 1).0 + rest, stop)
    } else if ends_value(s[i]) {
        (Seq::empty(), i)
    } else {
        let (rest, stop) = value_from(s, i + 1);
        (seq![s[i]] + rest, stop)
    }
}

/// The assignments in `s` from the line start `i` on: a line that does not
/// begin with a name and `=` is passed over.
pub open spec fn assignments_from(s: Seq<char>, i: int) -> Seq<(Seq<char>, Seq<char>)>
    decreases s.len() + 1 - i,
{
    if i < 0 || i >= s.len() {
        Seq::empty()
    } else {
        let j = name_end(s, i);
        proof {
            lemma_name_end(s, i);
            text::lemma_index_from(s, '\n', i);
            if i < j < s.len() {
                lemma_value_from(s, j + 1);
                lemma_next_line(s, value_from(s, j + 1).1);
            }
        }
        if i < j < s.len() && s[j] == '=' {
            seq![(s.subrange(i, j), value_from(s, j + 1).0)] + assignments_from(
                s,
                next_line(s, value_from(s, j + 1).1),
            )
        } else {
            assignments_from(s, next_line(s, i))
        }
    }
}

/// The assignments in a conf text.
pub open spec fn assignments(s: Seq<char>) -> Seq<(Seq<char>, Seq<char>)> {
    assignments_from(s, 0)
}

pub proof fn lemma_name_end(s: Seq<char>, i: int)
    requires
        0 <= i <= s.len(),
    ensures
        i <= name_end(s, i) <= s.len(),
        forall|k: int| i <= k < name_end(s, i) ==> name_char(s[k]),
        name_end(s, i) < s.len() ==> !name_char(s[name_end(s, i)]),
    decreases s.len() - i,
{
    if i < s.len() && name_char(s[i]) {
        lemma_name_end(s, i + 1);
    }
}

pub proof fn lemma_quoted_from(s: Seq<char>, i: int)
    requires
        0 <= i <= s.len(),
    ensures
        i < quoted_from(s, i).1 <= s.len() + 1,
    decreases s.len() - i,
{
    if i >= s.len() || s[i] == '"' {
    } else if s[i] == '\\' && i + 1 < s.len() && escapable(s[i + 1]) {
        lemma_quoted_from(s, i + 2);
    } else {
        lemma_quoted_from(s, i + 1);
    }
}

pub proof fn lemma_value_from(s: Seq<char>, i: int)
    requires
        0 <= i,
    ensures
        i <= value_from(s, i).1,
        i <= s.len() + 1 ==> value_from(s, i).1 <= s.len() + 1,
    decreases s.len() + 1 - i,
{
    if i >= s.len() {
    } else if s[i] == '\'' {
        text::lemma_index_from(s, '\'', i + 1);
        lemma_value_from(s, verbatim_end(s, i + 1));
    } else if s[i] == '"' {
        lemma_quoted_from(s, i + 1);
        lemma_value_from(s, quoted_from(s, i + 1).1);
    } else if ends_value(s[i]) {
    } else {
        lemma_value_from(s, i + 1);
    }
}

pub proof fn lemma_next_line(s: Seq<char>, i: int)
    requires
        0 <= i,
    ensures
        i <= next_line(s, i),
        i < s.len() ==> i < next_line(s, i) <= s.len(),
        i <= s.len() + 1 ==> next_line(s, i) <= s.len() + 1,
{
    if i < s.len() {
        text::lemma_index_from(s, '\n', i);
    }
}

// ---------------------------------------------------------------------------
// The parser

/// A place, cut to what a `usize` holds. No text in memory is long enough to be
/// cut.
pub open spec fn place(i: int) -> int {
    if i > usize::MAX {
        usize::MAX as int
    } else {
        i
    }
}

fn past(i: usize) -> (r: usize)
    ensures
        r == place(i + 1),
{
    if i < usize::MAX {
        i + 1
    } else {
        i
    }
}

/// The contents of a list of assignments.
pub open spec fn pairs(v: Seq<(String, String)>) -> Seq<(Seq<char>, Seq<char>)> {
    v.map_values(|p: (String, String)| (p.0@, p.1@))
}

/// The `KEY=value` assignments of a conf text, in order, without running it:
/// `'...'` is verbatim and may span lines, `"..."` knows the escapes `\"`, `\\`,
/// `` \` `` and `\$`, and a `#` outside quotes starts a comment.
pub fn parse_assignments(src: &str) -> (r: Vec<(String, String)>)
    ensures
        pairs(r@) == assignments(src@),
{
    let b = text::chars_of(src);
    let mut out: Vec<(String, String)> = Vec::new();
    let mut i: usize = 0;
    assert(pairs(out@) + assignments_from(b@, 0) =~= assignments(src@));
    while i < b.len()
        invariant
            b@ == src@,
            pairs(out@) + assignments_from(b@, i as int) == assignments(src@),
        decreases (if i < b@.len() {
            b@.len() - i
        } else {
            0
        }),
    {
        let mut j: usize = i;
        while j < b.len() && (text::is_alphanumeric(b[j]) || b[j] == '_')
            invariant
                i <= j <= b@.len(),
                name_end(b@, i as int) == name_end(b@, j as int),
            decreases b@.len() - j,
        {
            j += 1;
        }
        if j > i && j < b.len() && b[j] == '=' {
            let key = text::string_of(&b, i, j);
            let (val, next) = parse_value(&b, j + 1);
            let ghost was = out@;
            let ghost pair = (key@, val@);
            out.push((key, val));
            proof {
                let stop = value_from(b@, j + 1).1;
                lemma_value_from(b@, j + 1);
                lemma_next_line(b@, stop);
                assert(assignments_from(b@, next as int) == assignments_from(
                    b@,
                    next_line(b@, stop),
                ));
                assert(pairs(out@) =~= pairs(was).push(pair));
                assert(pairs(was).push(pair) + assignments_from(b@, next as int) =~= pairs(was) + (
                seq![pair] + assignments_from(b@, next as int)));
            }
            i = next;
        } else {
            let e: usize = text::find(&b, '\n', i);
            i = if e < b.len() {
                e + 1
            } else {
                e
            };
        }
    }
    assert(pairs(out@) + assignments_from(b@, i as int) =~= pairs(out@));
    out
}

/// The value that starts at `start`, and where the line after it starts. Behind a
/// quote that is never closed that is one past the end.
pub fn parse_value(src: &Vec<char>, start: usize) -> (r: (String, usize))
    ensures
        r.0@ == value_from(src@, start as int).0,
        r.1 == place(next_line(src@, value_from(src@, start as int).1)),
{
    let ghost total = value_from(src@, start as int);
    let mut val = String::new();
    let mut i: usize = start;
    assert(val@ + total.0 =~= total.0);
    while i < src.len() && src[i] != '\n' && src[i] != ' ' && src[i] != '\t' && src[i] != '#'
        invariant
            start <= i,
            total == value_from(src@, start as int),
            val@ + value_from(src@, i as int).0 == total.0,
            place(value_from(src@, i as int).1) == place(total.1),
            value_from(src@, i as int).1 == total.1 || i >= src@.len() && total.1 > usize::MAX,
        decreases (if i < src@.len() {
            src@.len() - i
        } else {
            0
        }),
    {
        let ghost was = val@;
        let ghost here = i as int;
        if src[i] == '\'' {
            let e: usize = text::find(src, '\'', i + 1);
            let part = text::string_of(src, i + 1, e);
            val.append(part.as_str());
            i = past(e);
            assert(val@ + value_from(src@, i as int).0 =~= was + (part@ + value_from(
                src@,
                e + 1,
            ).0));
        } else if src[i] == '"' {
            let (part, next) = parse_quoted(src, i + 1);
            val.append(part.as_str());
            proof {
                lemma_quoted_from(src@, here + 1);
            }
            i = next;
            assert(val@ + value_from(src@, i as int).0 =~= was + (part@ + value_from(
                src@,
                quoted_from(src@, here + 1).1,
            ).0));
        } else {
            val.push(src[i]);
            i += 1;
            assert(val@ + value_from(src@, i as int).0 =~= was + (seq![src@[here]] + value_from(
                src@,
                i as int,
            ).0));
        }
    }
    assert(val@ + value_from(src@, i as int).0 =~= val@);
    if i >= src.len() {
        return (val, i);
    }
    let e: usize = text::find(src, '\n', i);
    let next: usize = if e < src.len() {
        e + 1
    } else {
        e
    };
    (val, next)
}

/// The double-quoted text that starts at `start`, and where what follows its
/// closing quote starts.
fn parse_quoted(src: &Vec<char>, start: usize) -> (r: (String, usize))
    requires
        start <= src@.len(),
    ensures
        r.0@ == quoted_from(src@, start as int).0,
        r.1 == place(quoted_from(src@, start as int).1),
{
    let ghost total = quoted_from(src@, start as int);
    let mut val = String::new();
    let mut i: usize = start;
    assert(val@ + total.0 =~= total.0);
    while i < src.len() && src[i] != '"'
        invariant
            start <= i <= src@.len(),
            total == quoted_from(src@, start as int),
            val@ + quoted_from(src@, i as int).0 == total.0,
            quoted_from(src@, i as int).1 == total.1,
        decreases src@.len() - i,
    {
        let ghost was = val@;
        if src[i] == '\\' && i + 1 < src.len() && (src[i + 1] == '"' || src[i + 1] == '\\' || src[i
            + 1] == '`' || src[i + 1] == '$') {
            val.push(src[i + 1]);
            i += 2;
            assert(val@ + quoted_from(src@, i as int).0 =~= was + (seq![src@[i - 1]] + quoted_from(
                src@,
                i as int,
            ).0));
        } else {
            val.push(src[i]);
            i += 1;
            assert(val@ + quoted_from(src@, i as int).0 =~= was + (seq![src@[i - 1]] + quoted_from(
                src@,
                i as int,
            ).0));
        }
    }
    assert(val@ + quoted_from(src@, i as int).0 =~= val@);
    (val, past(i))
}

// ---------------------------------------------------------------------------
// From assignments to rules

/// The value in force for `key`: the last one assigned that is not empty.
pub open spec fn setting(a: Seq<(Seq<char>, Seq<char>)>, key: Seq<char>) -> Option<Seq<char>>
    decreases a.len(),
{
    if a.len() == 0 {
        None
    } else if a.last().0 == key && a.last().1.len() > 0 {
        Some(a.last().1)
    } else {
        setting(a.drop_last(), key)
    }
}

/// The expression that finds what `grep -Ei` would: in any case, with `^` and
/// `$` at each line.
pub open spec fn grep(val: Seq<char>) -> Seq<char> {
    "(?im)"@ + val
}

/// The expression that the value of `key` is compiled to, if it is one.
pub open spec fn expression(key: Seq<char>, val: Seq<char>) -> Option<Seq<char>> {
    if key == "BLOCKED_TITLE"@ || key == "BLOCKED_SCREEN"@ || key == "WORKING_TITLE"@ || key
        == "WORKING_SCREEN"@ || key == "IDLE_SCREEN"@ {
        Some(grep(val))
    } else if key == "TITLE_STRIP"@ || key == "SUBJECT_SCREEN"@ {
        Some(val)
    } else {
        None
    }
}

/// The words of an unset or set list.
pub open spec fn word_list(val: Option<Seq<char>>) -> Seq<Seq<char>> {
    match val {
        Some(v) => text::words(v),
        None => Seq::empty(),
    }
}

/// Is `p` what an unset or set expression compiles to? A bad one counts as
/// unset.
pub open spec fn compiles_to(p: Option<Pattern>, e: Option<Seq<char>>) -> bool {
    match p {
        Some(q) => e == Some(q@) && pattern::regex_fault(q@) is None,
        None => e is None || pattern::regex_fault(e->0) is Some,
    }
}

/// The expression for an unset or set `grep` rule.
pub open spec fn grep_rule(val: Option<Seq<char>>) -> Option<Seq<char>> {
    match val {
        Some(v) => Some(grep(v)),
        None => None,
    }
}

/// The step that a word of `CHECK_ORDER` names.
pub open spec fn check_named(word: Seq<char>) -> Option<Check> {
    if word == "bt"@ {
        Some(Check::Bt)
    } else if word == "bs"@ {
        Some(Check::Bs)
    } else if word == "wt"@ {
        Some(Check::Wt)
    } else if word == "ws"@ {
        Some(Check::Ws)
    } else if word == "is"@ {
        Some(Check::Is)
    } else {
        None
    }
}

/// The steps that the words name; a word that names none is passed over.
pub open spec fn checks_named(words: Seq<Seq<char>>) -> Seq<Check>
    decreases words.len(),
{
    if words.len() == 0 {
        Seq::empty()
    } else {
        match check_named(words.last()) {
            Some(c) => checks_named(words.drop_last()).push(c),
            None => checks_named(words.drop_last()),
        }
    }
}

/// The order of checks where `CHECK_ORDER` is unset or set.
pub open spec fn order_of(val: Option<Seq<char>>) -> Seq<Check> {
    match val {
        Some(v) => checks_named(text::words(v)),
        None => seq![Check::Bt, Check::Wt, Check::Bs, Check::Ws],
    }
}

/// Does `c` hold the rules that the assignments `a` set for the agent `name`?
pub open spec fn follows(c: AgentConf, name: Seq<char>, a: Seq<(Seq<char>, Seq<char>)>) -> bool {
    &&& c.name@ == name
    &&& text::views(c.bins@) == word_list(setting(a, "AGENT_BINS"@))
    &&& text::views(c.path_hints@) == word_list(setting(a, "AGENT_PATH_HINTS"@))
    &&& compiles_to(c.blocked_title, grep_rule(setting(a, "BLOCKED_TITLE"@)))
    &&& compiles_to(c.blocked_screen, grep_rule(setting(a, "BLOCKED_SCREEN"@)))
    &&& compiles_to(c.working_title, grep_rule(setting(a, "WORKING_TITLE"@)))
    &&& compiles_to(c.working_screen, grep_rule(setting(a, "WORKING_SCREEN"@)))
    &&& compiles_to(c.idle_screen, grep_rule(setting(a, "IDLE_SCREEN"@)))
    &&& c.check_order@ == order_of(setting(a, "CHECK_ORDER"@))
    &&& compiles_to(c.title_strip, setting(a, "TITLE_STRIP"@))
    &&& compiles_to(c.subject_screen, setting(a, "SUBJECT_SCREEN"@))
    &&& match c.subject_cmd {
        Some(cmd) => setting(a, "SUBJECT_CMD"@) == Some(cmd@),
        None => setting(a, "SUBJECT_CMD"@) is None,
    }
}

/// The line that tells of a bad expression.
pub open spec fn note(name: Seq<char>, key: Seq<char>, fault: Seq<char>) -> Seq<char> {
    "agents-mon: "@ + name + ".conf "@ + key + ": bad regex: "@ + fault
}

/// The lines that tell of the bad expressions among the assignments, in order.
pub open spec fn notes(name: Seq<char>, a: Seq<(Seq<char>, Seq<char>)>) -> Seq<Seq<char>>
    decreases a.len(),
{
    if a.len() == 0 {
        Seq::empty()
    } else {
        let (key, val) = a.last();
        let rest = notes(name, a.drop_last());
        match expression(key, val) {
            Some(e) => if val.len() > 0 && pattern::regex_fault(e) is Some {
                rest.push(note(name, key, pattern::regex_fault(e)->0))
            } else {
                rest
            },
            None => rest,
        }
    }
}

/// The expression that finds what `grep -Ei` would.
fn re_grep(val: &str) -> (r: String)
    ensures
        r@ == grep(val@),
{
    let mut e = String::new();
    e.append("(?im)");
    e.append(val);
    assert(e@ =~= grep(val@));
    e
}

/// The line that tells of a bad expression.
pub fn bad_regex(name: &str, key: &str, fault: &str) -> (r: String)
    ensures
        r@ == note(name@, key@, fault@),
{
    let mut line = text::owned("agents-mon: ");
    line.append(name);
    line.append(".conf ");
    line.append(key);
    line.append(": bad regex: ");
    line.append(fault);
    line
}

/// Compiles an expression; a bad one is told of in `told`.
fn compile(name: &str, key: &str, e: &str, told: &mut Vec<String>) -> (r: Option<Pattern>)
    ensures
        compiles_to(r, Some(e@)),
        r is None <==> pattern::regex_fault(e@) is Some,
        r is Some ==> final(told)@ == old(told)@,
        r is None ==> text::views(final(told)@) == text::views(old(told)@).push(
            note(name@, key@, pattern::regex_fault(e@)->0),
        ),
{
    match pattern::compile(e) {
        Ok(p) => Some(p),
        Err(fault) => {
            let line = bad_regex(name, key, fault.as_str());
            told.push(line);
            assert(text::views(told@) =~= text::views(old(told)@).push(line@));
            None
        },
    }
}

/// The steps that the words of `val` name.
fn check_order(val: &str) -> (r: Vec<Check>)
    ensures
        r@ == checks_named(text::words(val@)),
{
    let words = text::words_of(val);
    let mut out: Vec<Check> = Vec::new();
    let mut i: usize = 0;
    while i < words.len()
        invariant
            text::views(words@) == text::words(val@),
            i <= words@.len(),
            out@ == checks_named(text::views(words@).take(i as int)),
        decreases words@.len() - i,
    {
        let w = words[i].as_str();
        proof {
            let head = text::views(words@).take(i + 1);
            assert(head.drop_last() =~= text::views(words@).take(i as int));
            assert(head.last() == w@);
        }
        if text::same(w, "bt") {
            out.push(Check::Bt);
        } else if text::same(w, "bs") {
            out.push(Check::Bs);
        } else if text::same(w, "wt") {
            out.push(Check::Wt);
        } else if text::same(w, "ws") {
            out.push(Check::Ws);
        } else if text::same(w, "is") {
            out.push(Check::Is);
        }
        i += 1;
    }
    assert(text::views(words@).take(i as int) =~= text::views(words@));
    out
}

/// The rules for the agent `name` in the conf text `src`, and a line for each
/// bad expression in it.
pub fn load_conf(name: &str, src: &str) -> (r: (AgentConf, Vec<String>))
    ensures
        follows(r.0, name@, assignments(src@)),
        text::views(r.1@) == notes(name@, assignments(src@)),
{
    let mut order: Vec<Check> = Vec::new();
    order.push(Check::Bt);
    order.push(Check::Wt);
    order.push(Check::Bs);
    order.push(Check::Ws);
    let mut c = AgentConf {
        name: text::owned(name),
        bins: Vec::new(),
        path_hints: Vec::new(),
        blocked_title: None,
        blocked_screen: None,
        working_title: None,
        working_screen: None,
        idle_screen: None,
        check_order: order,
        title_strip: None,
        subject_screen: None,
        subject_cmd: None,
    };
    let mut told: Vec<String> = Vec::new();
    let list = parse_assignments(src);
    let ghost a = assignments(src@);
    let mut i: usize = 0;
    proof {
        assert(a.take(0) =~= Seq::<(Seq<char>, Seq<char>)>::empty());
        assert(text::views(c.bins@) =~= Seq::<Seq<char>>::empty());
        assert(text::views(c.path_hints@) =~= Seq::<Seq<char>>::empty());
        assert(c.check_order@ =~= seq![Check::Bt, Check::Wt, Check::Bs, Check::Ws]);
        assert(text::views(told@) =~= Seq::<Seq<char>>::empty());
    }
    while i < list.len()
        invariant
            a == assignments(src@),
            pairs(list@) == a,
            i <= list@.len(),
            follows(c, name@, a.take(i as int)),
            text::views(told@) == notes(name@, a.take(i as int)),
        decreases list@.len() - i,
    {
        let key = list[i].0.as_str();
        let val = list[i].1.as_str();
        let ghost was = a.take(i as int);
        let ghost now = a.take(i + 1);
        proof {
            assert(now.drop_last() =~= was);
            assert(now.last() == pairs(list@)[i as int]);
            assert(now.last() == (key@, val@));
        }
        // an empty value is an unset one
        if !val.is_empty() {
            if text::same(key, "AGENT_BINS") {
                c.bins = text::words_of(val);
            } else if text::same(key, "AGENT_PATH_HINTS") {
                c.path_hints = text::words_of(val);
            } else if text::same(key, "CHECK_ORDER") {
                c.check_order = check_order(val);
            } else if text::same(key, "SUBJECT_CMD") {
                c.subject_cmd = Some(text::owned(val));
            } else if text::same(key, "TITLE_STRIP") {
                c.title_strip = compile(name, key, val, &mut told);
            } else if text::same(key, "SUBJECT_SCREEN") {
                c.subject_screen = compile(name, key, val, &mut told);
            } else if text::same(key, "BLOCKED_TITLE") {
                c.blocked_title = compile(name, key, re_grep(val).as_str(), &mut told);
            } else if text::same(key, "BLOCKED_SCREEN") {
                c.blocked_screen = compile(name, key, re_grep(val).as_str(), &mut told);
            } else if text::same(key, "WORKING_TITLE") {
                c.working_title = compile(name, key, re_grep(val).as_str(), &mut told);
            } else if text::same(key, "WORKING_SCREEN") {
                c.working_screen = compile(name, key, re_grep(val).as_str(), &mut told);
            } else if text::same(key, "IDLE_SCREEN") {
                c.idle_screen = compile(name, key, re_grep(val).as_str(), &mut told);
            }
        }
        proof {
            lemma_keys();
        }
        i += 1;
    }
    assert(a.take(i as int) =~= a);
    (c, told)
}

/// The keys of a conf differ in length or in their first letter.
proof fn lemma_keys()
    ensures
        "AGENT_BINS"@.len() == 10 && "AGENT_BINS"@[0] == 'A',
        "AGENT_PATH_HINTS"@.len() == 16 && "AGENT_PATH_HINTS"@[0] == 'A',
        "BLOCKED_TITLE"@.len() == 13 && "BLOCKED_TITLE"@[0] == 'B',
        "BLOCKED_SCREEN"@.len() == 14 && "BLOCKED_SCREEN"@[0] == 'B',
        "WORKING_TITLE"@.len() == 13 && "WORKING_TITLE"@[0] == 'W',
        "WORKING_SCREEN"@.len() == 14 && "WORKING_SCREEN"@[0] == 'W',
        "IDLE_SCREEN"@.len() == 11 && "IDLE_SCREEN"@[0] == 'I',
        "CHECK_ORDER"@.len() == 11 && "CHECK_ORDER"@[0] == 'C',
        "TITLE_STRIP"@.len() == 11 && "TITLE_STRIP"@[0] == 'T',
        "SUBJECT_SCREEN"@.len() == 14 && "SUBJECT_SCREEN"@[0] == 'S',
        "SUBJECT_CMD"@.len() == 11 && "SUBJECT_CMD"@[0] == 'S',
{
    reveal_strlit("AGENT_BINS");
    reveal_strlit("AGENT_PATH_HINTS");
    reveal_strlit("BLOCKED_TITLE");
    reveal_strlit("BLOCKED_SCREEN");
    reveal_strlit("WORKING_TITLE");
    reveal_strlit("WORKING_SCREEN");
    reveal_strlit("IDLE_SCREEN");
    reveal_strlit("CHECK_ORDER");
    reveal_strlit("TITLE_STRIP");
    reveal_strlit("SUBJECT_SCREEN");
    reveal_strlit("SUBJECT_CMD");
}

// ---------------------------------------------------------------------------
// All confs

/// The names in a list of named texts.
pub open spec fn heads(list: Seq<(Seq<char>, Seq<char>)>) -> Seq<Seq<char>> {
    list.map_values(|p: (Seq<char>, Seq<char>)| p.0)
}

/// `list` with the conf `f` in it: it takes the place of the one with its name,
/// or comes last.
pub open spec fn placed(
    list: Seq<(Seq<char>, Seq<char>)>,
    f: (Seq<char>, Seq<char>),
) -> Seq<(Seq<char>, Seq<char>)> {
    match text::position_of(heads(list), f.0, 0) {
        Some(p) => list.update(p, f),
        None => list.push(f),
    }
}

/// The confs in force after the files were read in order, each as its name and
/// its text.
pub open spec fn in_force(files: Seq<(Seq<char>, Seq<char>)>) -> Seq<(Seq<char>, Seq<char>)>
    decreases files.len(),
{
    if files.len() == 0 {
        Seq::empty()
    } else {
        placed(in_force(files.drop_last()), files.last())
    }
}

/// The lines that tell of the bad expressions in the files, in order.
pub open spec fn all_notes(files: Seq<(Seq<char>, Seq<char>)>) -> Seq<Seq<char>>
    decreases files.len(),
{
    if files.len() == 0 {
        Seq::empty()
    } else {
        all_notes(files.drop_last()) + notes(files.last().0, assignments(files.last().1))
    }
}

/// Do the confs hold the rules of the named texts, one for one?
pub open spec fn follow_all(
    confs: Seq<AgentConf>,
    list: Seq<(Seq<char>, Seq<char>)>,
) -> bool {
    &&& confs.len() == list.len()
    &&& forall|i: int|
        0 <= i < confs.len() ==> follows(
            #[trigger] confs[i],
            list[i].0,
            assignments(list[i].1),
        )
}

/// The names of confs.
pub open spec fn names(confs: Seq<AgentConf>) -> Seq<Seq<char>> {
    confs.map_values(|c: AgentConf| c.name@)
}

/// Where the conf of the agent `name` stands.
pub fn conf_index(confs: &Vec<AgentConf>, name: &str) -> (r: Option<usize>)
    ensures
        match r {
            Some(i) => i < confs@.len() && text::position_of(names(confs@), name@, 0) == Some(
                i as int,
            ),
            None => text::position_of(names(confs@), name@, 0) is None,
        },
{
    let mut i: usize = 0;
    while i < confs.len()
        invariant
            i <= confs@.len(),
            text::position_of(names(confs@), name@, 0) == text::position_of(
                names(confs@),
                name@,
                i as int,
            ),
        decreases confs@.len() - i,
    {
        if text::same(confs[i].name.as_str(), name) {
            return Some(i);
        }
        i += 1;
    }
    None
}

/// The confs in the files, given as names and texts in the order of reading,
/// and a line for each bad expression. A later file replaces the earlier one
/// with its name, in its place.
pub fn load_all(files: &Vec<(String, String)>) -> (r: (Vec<AgentConf>, Vec<String>))
    ensures
        follow_all(r.0@, in_force(pairs(files@))),
        text::views(r.1@) == all_notes(pairs(files@)),
{
    let mut confs: Vec<AgentConf> = Vec::new();
    let mut told: Vec<String> = Vec::new();
    let ghost all = pairs(files@);
    let mut i: usize = 0;
    proof {
        assert(all.take(0) =~= Seq::<(Seq<char>, Seq<char>)>::empty());
        assert(text::views(told@) =~= Seq::<Seq<char>>::empty());
    }
    while i < files.len()
        invariant
            all == pairs(files@),
            i <= files@.len(),
            follow_all(confs@, in_force(all.take(i as int))),
            text::views(told@) == all_notes(all.take(i as int)),
        decreases files@.len() - i,
    {
        let ghost was = in_force(all.take(i as int));
        proof {
            assert(all.take(i + 1).drop_last() =~= all.take(i as int));
            assert(all.take(i + 1).last() == (files@[i as int].0@, files@[i as int].1@));
            assert(names(confs@) =~= heads(was));
        }
        let (c, mut more) = load_conf(files[i].0.as_str(), files[i].1.as_str());
        let ghost before = told@;
        let ghost added = more@;
        told.append(&mut more);
        assert(text::views(told@) =~= text::views(before) + text::views(added));
        match conf_index(&confs, c.name.as_str()) {
            Some(k) => {
                confs[k] = c;
            },
            None => {
                confs.push(c);
            },
        }
        i += 1;
    }
    assert(all.take(i as int) =~= all);
    (confs, told)
}

/// Each agent has one conf, and it is that of the last file with its name.
pub proof fn last_file_of_a_name_is_in_force(files: Seq<(Seq<char>, Seq<char>)>)
    ensures
        forall|i: int, j: int|
            0 <= i < j < in_force(files).len() ==> in_force(files)[i].0 != in_force(files)[j].0,
        forall|k: int|
            #![trigger files[k]]
            0 <= k < files.len() && (forall|m: int|
                k < m < files.len() ==> files[m].0 != files[k].0) ==> in_force(files).contains(
                files[k],
            ),
        forall|i: int|
            0 <= i < in_force(files).len() ==> exists|k: int|
                0 <= k < files.len() && files[k] == #[trigger] in_force(files)[i],
    decreases files.len(),
{
    if files.len() > 0 {
        let head = files.drop_last();
        let old = in_force(head);
        let f = files.last();
        last_file_of_a_name_is_in_force(head);
        text::lemma_position_of(heads(old), f.0, 0);
        let p = text::position_of(heads(old), f.0, 0);
        let new = in_force(files);
        assert forall|i: int, j: int| 0 <= i < j < new.len() implies new[i].0 != new[j].0 by {
            if p is Some && i == p->0 {
                assert(heads(old)[p->0] == old[p->0].0);
            } else if p is Some && j == p->0 {
                assert(heads(old)[p->0] == old[p->0].0);
            } else if p is None {
                assert(heads(old)[i] == old[i].0);
            }
        }
        assert forall|k: int|
            #![trigger files[k]]
            0 <= k < files.len() && (forall|m: int|
                k < m < files.len() ==> files[m].0 != files[k].0) implies new.contains(
            files[k],
        ) by {
            if k == files.len() - 1 {
                assert(new[if p is Some {
                    p->0
                } else {
                    old.len() as int
                }] == f);
            } else {
                assert(files[files.len() - 1].0 != files[k].0);
                assert(head[k] == files[k]);
                assert forall|m: int| k < m < head.len() implies head[m].0 != head[k].0 by {
                    assert(files[m].0 != files[k].0);
                }
                assert(old.contains(head[k]));
                let q = choose|q: int| 0 <= q < old.len() && old[q] == head[k];
                if p is Some && q == p->0 {
                    assert(heads(old)[q] == old[q].0);
                }
                assert(new[q] == files[k]);
            }
        }
        assert forall|i: int| 0 <= i < new.len() implies exists|k: int|
            0 <= k < files.len() && files[k] == #[trigger] new[i] by {
            if new[i] == f {
                assert(files[files.len() - 1] == new[i]);
            } else {
                assert(new[i] == old[i]);
                let k = choose|k: int| 0 <= k < head.len() && head[k] == old[i];
                assert(files[k] == new[i]);
            }
        }
    }
}

/// A file whose name is known already leaves every other conf where it was.
pub proof fn a_known_name_keeps_its_place(
    files: Seq<(Seq<char>, Seq<char>)>,
    f: (Seq<char>, Seq<char>),
    p: int,
)
    requires
        0 <= p < in_force(files).len(),
        in_force(files)[p].0 == f.0,
    ensures
        in_force(files.push(f)) == in_force(files).update(p, f),
{
    let old = in_force(files);
    assert(files.push(f).drop_last() =~= files);
    last_file_of_a_name_is_in_force(files);
    text::lemma_position_of(heads(old), f.0, 0);
    assert(heads(old)[p] == f.0);
    let q = text::position_of(heads(old), f.0, 0)->0;
    assert(heads(old)[q] == old[q].0);
    assert(q == p);
}

/// A file with a new name comes after every conf there is.
pub proof fn a_new_name_comes_last(
    files: Seq<(Seq<char>, Seq<char>)>,
    f: (Seq<char>, Seq<char>),
)
    requires
        forall|i: int| 0 <= i < in_force(files).len() ==> (#[trigger] in_force(files)[i]).0 != f.0,
    ensures
        in_force(files.push(f)) == in_force(files).push(f),
{
    let old = in_force(files);
    assert(files.push(f).drop_last() =~= files);
    text::lemma_position_of(heads(old), f.0, 0);
    if text::position_of(heads(old), f.0, 0) is Some {
        let q = text::position_of(heads(old), f.0, 0)->0;
        assert(heads(old)[q] == old[q].0);
    }
}

} // verus!
