//! Which setting of a conf file rules what, and which files are read.

use crate::conf;
use crate::conf::AgentConf;
use crate::conf::Check;
use crate::conf_files;
use crate::conf_laws;
use crate::pattern;
use crate::pattern::Pattern;
use crate::text;
use vstd::prelude::*;

verus! {

/// A setting holds the value that was given to it last, of those that are not
/// empty; a setting without such a value is not set.
pub proof fn the_last_value_counts(a: Seq<(Seq<char>, Seq<char>)>, key: Seq<char>, k: int)
    ensures
        0 <= k < a.len() && a[k].0 == key && a[k].1.len() > 0 && (forall|j: int|
            k < j < a.len() ==> (#[trigger] a[j]).0 != key || a[j].1.len() == 0) ==> conf::setting(a, key) == Some(a[k].1),
        (forall|j: int| 0 <= j < a.len() ==> (#[trigger] a[j]).0 != key || a[j].1.len() == 0) ==> conf::setting(a, key)
            is None,
    decreases a.len(),
{
    if a.len() > 0 {
        let rest = a.drop_last();
        let n = rest.len() as int;
        assert(a[n] == a.last());
        the_last_value_counts(rest, key, k);
        assert forall|j: int| 0 <= j < n implies rest[j] == a[j] by {}
        if forall|j: int| 0 <= j < a.len() ==> (#[trigger] a[j]).0 != key || a[j].1.len() == 0 {
            assert forall|j: int| 0 <= j < rest.len() implies (#[trigger] rest[j]).0 != key || rest[j].1.len() == 0 by {
                assert(a[j].0 != key || a[j].1.len() == 0);
            }
        }
        if 0 <= k < n && (forall|j: int| k < j < a.len() ==> (#[trigger] a[j]).0 != key || a[j].1.len() == 0) {
            assert forall|j: int| k < j < rest.len() implies (#[trigger] rest[j]).0 != key || rest[j].1.len() == 0 by {
                assert(a[j].0 != key || a[j].1.len() == 0);
            }
        }
    }
}

/// Is this what a rule with this text comes to: the compiled expression, where it
/// compiles, and nothing else?
pub open spec fn ruled(p: Option<Pattern>, expression: Option<Seq<char>>) -> bool {
    match expression {
        Some(e) => {
            &&& pattern::regex_fault(e) is None ==> p is Some && p->0@ == e
            &&& pattern::regex_fault(e) is Some ==> p is None
        },
        None => p is None,
    }
}

/// Each expression of a conf is that of the setting of its name. Those that are
/// held against titles and screens ignore case and read line by line; those that
/// cut a title or a line are taken as they are.
pub proof fn each_expression_has_its_setting(c: AgentConf, name: Seq<char>, a: Seq<(Seq<char>, Seq<char>)>)
    requires
        conf::follows(c, name, a),
    ensures
        c.name@ == name,
        conf::setting(a, "BLOCKED_TITLE"@) matches Some(v) ==> ruled(c.blocked_title, Some("(?im)"@ + v)),
        conf::setting(a, "BLOCKED_SCREEN"@) matches Some(v) ==> ruled(c.blocked_screen, Some("(?im)"@ + v)),
        conf::setting(a, "WORKING_TITLE"@) matches Some(v) ==> ruled(c.working_title, Some("(?im)"@ + v)),
        conf::setting(a, "WORKING_SCREEN"@) matches Some(v) ==> ruled(c.working_screen, Some("(?im)"@ + v)),
        conf::setting(a, "IDLE_SCREEN"@) matches Some(v) ==> ruled(c.idle_screen, Some("(?im)"@ + v)),
        conf::setting(a, "TITLE_STRIP"@) matches Some(v) ==> ruled(c.title_strip, Some(v)),
        conf::setting(a, "SUBJECT_SCREEN"@) matches Some(v) ==> ruled(c.subject_screen, Some(v)),
        conf::setting(a, "SUBJECT_CMD"@) matches Some(v) ==> c.subject_cmd is Some && c.subject_cmd->0@ == v,
        conf::setting(a, "BLOCKED_TITLE"@) is None ==> c.blocked_title is None,
        conf::setting(a, "BLOCKED_SCREEN"@) is None ==> c.blocked_screen is None,
        conf::setting(a, "WORKING_TITLE"@) is None ==> c.working_title is None,
        conf::setting(a, "WORKING_SCREEN"@) is None ==> c.working_screen is None,
        conf::setting(a, "IDLE_SCREEN"@) is None ==> c.idle_screen is None,
        conf::setting(a, "TITLE_STRIP"@) is None ==> c.title_strip is None,
        conf::setting(a, "SUBJECT_SCREEN"@) is None ==> c.subject_screen is None,
        conf::setting(a, "SUBJECT_CMD"@) is None ==> c.subject_cmd is None,
{
}

/// The programs and the path hints of a conf are the words of their settings.
pub proof fn programs_and_hints_are_words(c: AgentConf, name: Seq<char>, a: Seq<(Seq<char>, Seq<char>)>, i: int)
    requires
        conf::follows(c, name, a),
    ensures
        conf::setting(a, "AGENT_BINS"@) is None ==> c.bins@.len() == 0,
        conf::setting(a, "AGENT_PATH_HINTS"@) is None ==> c.path_hints@.len() == 0,
        conf::setting(a, "AGENT_BINS"@) matches Some(v) ==> c.bins@.len() == text::words(v).len() && (0 <= i
            < c.bins@.len() ==> c.bins@[i]@ == text::words(v)[i]),
        conf::setting(a, "AGENT_PATH_HINTS"@) matches Some(v) ==> c.path_hints@.len() == text::words(v).len() && (0 <= i
            < c.path_hints@.len() ==> c.path_hints@[i]@ == text::words(v)[i]),
{
    assert(text::views(c.bins@).len() == c.bins@.len());
    assert(text::views(c.path_hints@).len() == c.path_hints@.len());
    if 0 <= i < c.bins@.len() {
        assert(text::views(c.bins@)[i] == c.bins@[i]@);
    }
    if 0 <= i < c.path_hints@.len() {
        assert(text::views(c.path_hints@)[i] == c.path_hints@[i]@);
    }
}

/// Without an order of its own a conf asks for blocked before working, the title
/// before the screen.
pub proof fn the_order_without_a_setting(c: AgentConf, name: Seq<char>, a: Seq<(Seq<char>, Seq<char>)>)
    requires
        conf::follows(c, name, a),
        conf::setting(a, "CHECK_ORDER"@) is None,
    ensures
        c.check_order@ == seq![Check::Bt, Check::Wt, Check::Bs, Check::Ws],
{
}

/// The order of a conf is the steps that its setting names, word by word; a word
/// that names none is passed over.
pub proof fn the_order_is_what_the_words_name(words: Seq<Seq<char>>, w: Seq<char>)
    ensures
        conf::checks_named(Seq::<Seq<char>>::empty()).len() == 0,
        conf::checks_named(words.push(seq!['b', 't'])) == conf::checks_named(words).push(Check::Bt),
        conf::checks_named(words.push(seq!['b', 's'])) == conf::checks_named(words).push(Check::Bs),
        conf::checks_named(words.push(seq!['w', 't'])) == conf::checks_named(words).push(Check::Wt),
        conf::checks_named(words.push(seq!['w', 's'])) == conf::checks_named(words).push(Check::Ws),
        conf::checks_named(words.push(seq!['i', 's'])) == conf::checks_named(words).push(Check::Is),
        w != seq!['b', 't'] && w != seq!['b', 's'] && w != seq!['w', 't'] && w != seq!['w', 's'] && w != seq!['i', 's']
            ==> conf::checks_named(words.push(w)) == conf::checks_named(words),
{
    reveal_strlit("bt");
    reveal_strlit("bs");
    reveal_strlit("wt");
    reveal_strlit("ws");
    reveal_strlit("is");
    assert("bt"@ =~= seq!['b', 't']);
    assert("bs"@ =~= seq!['b', 's']);
    assert("wt"@ =~= seq!['w', 't']);
    assert("ws"@ =~= seq!['w', 's']);
    assert("is"@ =~= seq!['i', 's']);
    assert("bt"@[0] == 'b' && "bt"@[1] == 't' && "bs"@[0] == 'b' && "bs"@[1] == 's');
    assert("wt"@[0] == 'w' && "wt"@[1] == 't' && "ws"@[0] == 'w' && "ws"@[1] == 's');
    assert("is"@[0] == 'i' && "is"@[1] == 's');
    assert(words.push(w).drop_last() =~= words);
    assert(words.push("bt"@).drop_last() =~= words);
    assert(words.push("bs"@).drop_last() =~= words);
    assert(words.push("wt"@).drop_last() =~= words);
    assert(words.push("ws"@).drop_last() =~= words);
    assert(words.push("is"@).drop_last() =~= words);
}

/// With an order of its own a conf follows it.
pub proof fn the_order_with_a_setting(c: AgentConf, name: Seq<char>, a: Seq<(Seq<char>, Seq<char>)>, v: Seq<char>)
    requires
        conf::follows(c, name, a),
        conf::setting(a, "CHECK_ORDER"@) == Some(v),
    ensures
        c.check_order@ == conf::checks_named(text::words(v)),
{
}

/// A complaint names the file, the setting, and what is wrong with the
/// expression.
pub proof fn a_complaint_names_file_and_setting(name: Seq<char>, key: Seq<char>, fault: Seq<char>)
    ensures
        conf::note(name, key, fault) == "agents-mon: "@ + name + ".conf "@ + key + ": bad regex: "@ + fault,
{
}

/// Each assignment of an expression that does not compile is complained of, in
/// order, and nothing else is.
pub proof fn bad_expressions_are_complained_of(
    name: Seq<char>,
    a: Seq<(Seq<char>, Seq<char>)>,
    key: Seq<char>,
    v: Seq<char>,
)
    ensures
        ({
            let grep = key == "BLOCKED_TITLE"@ || key == "BLOCKED_SCREEN"@ || key == "WORKING_TITLE"@ || key
                == "WORKING_SCREEN"@ || key == "IDLE_SCREEN"@;
            let plain = key == "TITLE_STRIP"@ || key == "SUBJECT_SCREEN"@;
            let rest = conf::notes(name, a);
            let all = conf::notes(name, a.push((key, v)));
            &&& conf::notes(name, Seq::empty()).len() == 0
            &&& v.len() > 0 && grep && pattern::regex_fault("(?im)"@ + v) is Some ==> all == rest.push(
                conf::note(name, key, pattern::regex_fault("(?im)"@ + v)->0),
            )
            &&& v.len() > 0 && !grep && plain && pattern::regex_fault(v) is Some ==> all == rest.push(
                conf::note(name, key, pattern::regex_fault(v)->0),
            )
            &&& v.len() == 0 || !(grep || plain) ==> all == rest
            &&& grep && pattern::regex_fault("(?im)"@ + v) is None ==> all == rest
            &&& !grep && plain && pattern::regex_fault(v) is None ==> all == rest
        }),
{
    assert(a.push((key, v)).drop_last() =~= a);
}

/// A value without quotes goes up to the first space, tab, line break or hash
/// sign, and is taken as it is.
pub proof fn unquoted_values_end_at_white_space(
    key: Seq<char>,
    v: Seq<char>,
    line_tail: Seq<char>,
    rest: Seq<char>,
)
    requires
        conf_laws::is_name(key),
        forall|i: int|
            0 <= i < v.len() ==> #[trigger] v[i] != ' ' && v[i] != '\t' && v[i] != '\n' && v[i] != '#' && v[i] != '\''
                && v[i] != '"',
        conf_laws::is_line_tail(line_tail),
    ensures
        conf::assignments(key + seq!['='] + v + line_tail + seq!['\n'] + rest) == seq![(key, v)] + conf::assignments(rest),
{
    let line = key + seq!['='] + v + line_tail + seq!['\n'];
    let s = line + rest;
    let n = key.len() as int;
    let stop = n + 1 + v.len();
    assert(s =~= key + seq!['='] + v + line_tail + seq!['\n'] + rest);
    assert(line.take(n) =~= key);
    assert(s.subrange(n + 1, stop as int) =~= v);
    if line_tail.len() > 0 {
        assert(s[stop as int] == line_tail[0]);
    } else {
        assert(s[stop as int] == '\n');
    }
    lemma_bare(s, n + 1, v, 0);
    assert(v.skip(0) =~= v);
    assert forall|k: int| stop <= k < line.len() - 1 implies #[trigger] line[k] != '\n' by {
        assert(line[k] == line_tail[k - stop]);
    }
    conf_laws::lemma_one_line(line, rest, n, v, stop as int);
}

proof fn lemma_bare(s: Seq<char>, from: int, v: Seq<char>, i: int)
    requires
        0 <= i <= v.len(),
        0 <= from,
        from + v.len() < s.len(),
        s.subrange(from, from + v.len()) == v,
        conf::ends_value(s[from + v.len()]),
        forall|i: int|
            0 <= i < v.len() ==> #[trigger] v[i] != ' ' && v[i] != '\t' && v[i] != '\n' && v[i] != '#' && v[i] != '\''
                && v[i] != '"',
    ensures
        conf::value_from(s, from + i) == (v.skip(i), from + v.len()),
    decreases v.len() - i,
{
    if i < v.len() {
        assert(s[from + i] == s.subrange(from, from + v.len())[i]);
        assert(s[from + i] == v[i]);
        lemma_bare(s, from, v, i + 1);
        assert(v.skip(i) =~= seq![v[i]] + v.skip(i + 1));
    } else {
        assert(v.skip(i) =~= Seq::<char>::empty());
    }
}

/// A name is letters, digits and underscores.
pub proof fn names_are_made_of_these(c: char)
    ensures
        conf::name_char(c) <==> ('a' <= c <= 'z' || 'A' <= c <= 'Z' || '0' <= c <= '9' || c == '_'),
        conf::escapable(c) <==> (c == '"' || c == '\\' || c == '`' || c == '$'),
{
}

/// A conf file ends in `.conf` and has something before it: that is the agent's
/// name. Any other file is not read.
pub proof fn a_conf_file_is_told_by_its_ending(name: Seq<char>, other: Seq<char>)
    ensures
        name.len() > 0 ==> conf_files::stem(name + ".conf"@) == Some(name),
        conf_files::stem(".conf"@) is None,
        !text::ends(other, ".conf"@) ==> conf_files::stem(other) is None,
{
    reveal_strlit(".conf");
    let s = name + ".conf"@;
    crate::text_laws::a_text_stands_in_its_surroundings(name, ".conf"@, Seq::empty());
    assert(s.take(s.len() - 5) =~= name);
}

/// Files are read in the order of their names: the first character that differs
/// decides, and a name comes before a longer one that starts with it.
pub proof fn names_are_in_order_by_their_characters(
    a: Seq<char>,
    x: char,
    b: Seq<char>,
    y: char,
    c: Seq<char>,
)
    ensures
        x < y ==> conf_files::ordered(a + seq![x] + b, a + seq![y] + c) && !conf_files::ordered(
            a + seq![y] + c,
            a + seq![x] + b,
        ),
        conf_files::ordered(a, a + b),
        !conf_files::ordered(a + seq![x] + b, a),
{
    let p = a + seq![x] + b;
    let q = a + seq![y] + c;
    lemma_same_start(p, q, a.len() as int, 0);
    lemma_same_start(q, p, a.len() as int, 0);
    assert(p[a.len() as int] == x && q[a.len() as int] == y);
    lemma_same_start(a, a + b, a.len() as int, 0);
    lemma_same_start(p, a, a.len() as int, 0);
}

proof fn lemma_same_start(p: Seq<char>, q: Seq<char>, n: int, i: int)
    requires
        0 <= i <= n <= p.len(),
        n <= q.len(),
        forall|k: int| 0 <= k < n ==> p[k] == q[k],
    ensures
        conf_files::ordered_from(p, q, i) == conf_files::ordered_from(p, q, n),
    decreases n - i,
{
    if i < n {
        lemma_same_start(p, q, n, i + 1);
    }
}

/// The complaints of all files come file by file, those of files that are no
/// longer in force too.
pub proof fn complaints_come_file_by_file(files: Seq<(Seq<char>, Seq<char>)>, f: (Seq<char>, Seq<char>))
    ensures
        conf::all_notes(Seq::<(Seq<char>, Seq<char>)>::empty()).len() == 0,
        conf::all_notes(files.push(f)) == conf::all_notes(files) + conf::notes(f.0, conf::assignments(f.1)),
{
    assert(files.push(f).drop_last() =~= files);
}

/// The files are read in the order of their names, each conf file once, and no
/// other file.
pub proof fn conf_files_are_read_by_name(names: Seq<Seq<char>>, order: Seq<usize>, j: int, k: int, i: usize)
    requires
        conf_files::is_reading_order(names, order),
    ensures
        0 <= k < order.len() ==> order[k] < names.len() && text::ends(names[order[k] as int], ".conf"@),
        0 <= j < k < order.len() ==> conf_files::ordered(names[order[j] as int], names[order[k] as int]) && order[j]
            != order[k],
        i < names.len() && conf_files::stem(names[i as int]) is Some ==> order.contains(i),
{
    if 0 <= j < k < order.len() {
        assert(conf_files::read_before(names, order[j] as int, order[k] as int));
    }
    if i < names.len() && conf_files::stem(names[i as int]) is Some {
        assert(order.contains(i as int as usize));
    }
}

/// A value is put together from its parts: what stands in single quotes as it is,
/// what stands in double quotes with its escapes undone, and single characters. A
/// quote that is not closed goes on to the end of the text.
pub proof fn values_are_put_together(s: Seq<char>, i: int, e: int)
    requires
        0 <= i < s.len(),
    ensures
        s[i] == '\'' && i < e < s.len() && s[e] == '\'' && (forall|k: int| i < k < e ==> #[trigger] s[k] != '\'')
            ==> conf::value_from(s, i).0 == s.subrange(i + 1, e) + conf::value_from(s, e + 1).0 && conf::value_from(s, i).1
            == conf::value_from(s, e + 1).1,
        s[i] == '\'' && (forall|k: int| i < k < s.len() ==> #[trigger] s[k] != '\'') ==> conf::value_from(s, i).0
            == s.skip(i + 1),
        s[i] == '"' ==> conf::value_from(s, i).0 == conf::quoted_from(s, i + 1).0 + conf::value_from(
            s,
            conf::quoted_from(s, i + 1).1,
        ).0,
        s[i] == ' ' || s[i] == '\t' || s[i] == '\n' || s[i] == '#' ==> conf::value_from(s, i) == (
            Seq::<char>::empty(),
            i,
        ),
        s[i] != ' ' && s[i] != '\t' && s[i] != '\n' && s[i] != '#' && s[i] != '\'' && s[i] != '"' ==> conf::value_from(
            s,
            i,
        ).0 == seq![s[i]] + conf::value_from(s, i + 1).0 && conf::value_from(s, i).1 == conf::value_from(s, i + 1).1,
        conf::value_from(s, s.len() as int) == (Seq::<char>::empty(), s.len() as int),
{
    text::lemma_index_from(s, '\'', i + 1);
    let x = text::index_from(s, '\'', i + 1);
    if s[i] == '\'' && i < e < s.len() && s[e] == '\'' && (forall|k: int| i < k < e ==> #[trigger] s[k] != '\'') {
        assert(x == e) by {
            if x < e {
                assert(s[x] != '\'');
            }
        }
    }
    if s[i] == '\'' && (forall|k: int| i < k < s.len() ==> #[trigger] s[k] != '\'') {
        assert(x == s.len()) by {
            if x < s.len() {
                assert(s[x] != '\'');
            }
        }
        assert(conf::value_from(s, x + 1).0 =~= Seq::<char>::empty());
        assert(conf::value_from(s, i).0 =~= s.skip(i + 1));
    }
}

/// Within double quotes a backslash takes its meaning from one of four
/// characters and stands for itself before any other.
pub proof fn double_quotes_are_read_character_by_character(s: Seq<char>, i: int)
    requires
        0 <= i < s.len(),
    ensures
        s[i] == '"' ==> conf::quoted_from(s, i) == (Seq::<char>::empty(), i + 1),
        s[i] == '\\' && i + 1 < s.len() && (s[i + 1] == '"' || s[i + 1] == '\\' || s[i + 1] == '`' || s[i + 1] == '$')
            ==> conf::quoted_from(s, i).0 == seq![s[i + 1]] + conf::quoted_from(s, i + 2).0 && conf::quoted_from(s, i).1
            == conf::quoted_from(s, i + 2).1,
        s[i] == '\\' && !(i + 1 < s.len() && (s[i + 1] == '"' || s[i + 1] == '\\' || s[i + 1] == '`' || s[i + 1]
            == '$')) ==> conf::quoted_from(s, i).0 == seq!['\\'] + conf::quoted_from(s, i + 1).0 && conf::quoted_from(
            s,
            i,
        ).1 == conf::quoted_from(s, i + 1).1,
        s[i] != '"' && s[i] != '\\' ==> conf::quoted_from(s, i).0 == seq![s[i]] + conf::quoted_from(s, i + 1).0
            && conf::quoted_from(s, i).1 == conf::quoted_from(s, i + 1).1,
        conf::quoted_from(s, s.len() as int).0.len() == 0,
{
}

/// A line that is no assignment, because no name stands before an equals sign at
/// its start, is passed over.
pub proof fn other_lines_are_passed_over(line: Seq<char>, n: int, rest: Seq<char>)
    requires
        0 <= n <= line.len(),
        !line.contains('\n'),
        forall|k: int| 0 <= k < n ==> conf::name_char(#[trigger] line[k]),
        n < line.len() ==> !conf::name_char(line[n]) && (n == 0 || line[n] != '='),
    ensures
        conf::assignments(line + seq!['\n'] + rest) == conf::assignments(rest),
{
    let head = line + seq!['\n'];
    let s = head + rest;
    conf::lemma_name_end(s, 0);
    let j = conf::name_end(s, 0);
    assert(j == n) by {
        if j < n {
            assert(s[j] == line[j]);
        }
        if n < line.len() {
            assert(s[n] == line[n]);
        } else {
            assert(s[n] == '\n');
        }
    }
    text::lemma_index_from(s, '\n', 0);
    let e = text::index_from(s, '\n', 0);
    assert(s[line.len() as int] == '\n');
    assert(e == line.len()) by {
        if e < line.len() {
            assert(line[e] == s[e]);
            assert(line.contains('\n'));
        }
    }
    assert(conf::next_line(s, 0) == head.len());
    conf_laws::lemma_assignments_shift(head, rest, 0);
}

/// The last line of a text needs no line break.
pub proof fn the_last_line_needs_no_break(key: Seq<char>, v: Seq<char>)
    requires
        conf_laws::is_name(key),
        forall|i: int|
            0 <= i < v.len() ==> #[trigger] v[i] != ' ' && v[i] != '\t' && v[i] != '\n' && v[i] != '#' && v[i] != '\''
                && v[i] != '"',
    ensures
        conf::assignments(key + seq!['='] + v) == seq![(key, v)],
{
    let s = key + seq!['='] + v;
    let n = key.len() as int;
    conf::lemma_name_end(s, 0);
    assert(s[n] == '=');
    assert(conf::name_end(s, 0) == n) by {
        let j = conf::name_end(s, 0);
        if j < n {
            assert(s[j] == key[j]);
        }
    }
    assert(s.subrange(0, n) =~= key);
    assert(s.skip(n + 1) =~= v);
    lemma_last(s, n + 1, v, 0);
    assert(v.skip(0) =~= v);
    assert(conf::next_line(s, s.len() as int) == s.len());
    assert(conf::assignments_from(s, s.len() as int) =~= Seq::<(Seq<char>, Seq<char>)>::empty());
    assert(conf::assignments(s) =~= seq![(key, v)]);
}

proof fn lemma_last(s: Seq<char>, from: int, v: Seq<char>, i: int)
    requires
        0 <= i <= v.len(),
        0 <= from,
        from + v.len() == s.len(),
        s.skip(from) == v,
        forall|i: int|
            0 <= i < v.len() ==> #[trigger] v[i] != ' ' && v[i] != '\t' && v[i] != '\n' && v[i] != '#' && v[i] != '\''
                && v[i] != '"',
    ensures
        conf::value_from(s, from + i) == (v.skip(i), from + v.len()),
    decreases v.len() - i,
{
    if i < v.len() {
        assert(s[from + i] == s.skip(from)[i]);
        assert(s[from + i] == v[i]);
        lemma_last(s, from, v, i + 1);
        assert(v.skip(i) =~= seq![v[i]] + v.skip(i + 1));
    } else {
        assert(v.skip(i) =~= Seq::<char>::empty());
    }
}

/// The confs are those of the files in force, one each, in their order.
pub proof fn each_file_in_force_is_a_conf(
    confs: Seq<AgentConf>,
    list: Seq<(Seq<char>, Seq<char>)>,
    i: int,
)
    requires
        conf::follow_all(confs, list),
    ensures
        confs.len() == list.len(),
        0 <= i < list.len() ==> conf::follows(confs[i], list[i].0, conf::assignments(list[i].1)) && confs[i].name@
            == list[i].0,
{
}

} // verus!
