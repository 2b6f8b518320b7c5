//! What the conf grammar promises: quoting carries any text, and comments and
//! line ends separate the assignments.

use crate::conf;
use crate::text;
use vstd::prelude::*;

verus! {

/// Is `key` a name that can be assigned to?
pub open spec fn is_name(key: Seq<char>) -> bool {
    key.len() > 0 && forall|i: int| 0 <= i < key.len() ==> conf::name_char(#[trigger] key[i])
}

/// Does `c` stand nowhere in `s`?
pub open spec fn lacks(s: Seq<char>, c: char) -> bool {
    forall|i: int| 0 <= i < s.len() ==> #[trigger] s[i] != c
}

/// What may follow a value on its line: nothing, or a blank or a comment.
pub open spec fn is_line_tail(s: Seq<char>) -> bool {
    lacks(s, '\n') && (s.len() > 0 ==> s[0] == ' ' || s[0] == '\t' || s[0] == '#')
}

/// `v` as it is written within double quotes.
pub open spec fn escaped(v: Seq<char>) -> Seq<char>
    decreases v.len(),
{
    if v.len() == 0 {
        Seq::empty()
    } else if conf::escapable(v[0]) {
        seq!['\\', v[0]] + escaped(v.skip(1))
    } else {
        seq![v[0]] + escaped(v.skip(1))
    }
}

proof fn lemma_index_is(s: Seq<char>, c: char, i: int, e: int)
    requires
        0 <= i <= e <= s.len(),
        forall|k: int| i <= k < e ==> #[trigger] s[k] != c,
        e < s.len() ==> s[e] == c,
    ensures
        text::index_from(s, c, i) == e,
    decreases e - i,
{
    if i < e {
        lemma_index_is(s, c, i + 1, e);
    }
}

proof fn lemma_name_is(s: Seq<char>, i: int, e: int)
    requires
        0 <= i <= e < s.len(),
        forall|k: int| i <= k < e ==> conf::name_char(#[trigger] s[k]),
        !conf::name_char(s[e]),
    ensures
        conf::name_end(s, i) == e,
    decreases e - i,
{
    if i < e {
        lemma_name_is(s, i + 1, e);
    }
}

proof fn lemma_name_shifts(a: Seq<char>, b: Seq<char>, i: int)
    requires
        0 <= i <= b.len(),
    ensures
        conf::name_end(a + b, a.len() + i) == a.len() + conf::name_end(b, i),
    decreases b.len() - i,
{
    if i < b.len() {
        assert((a + b)[a.len() + i] == b[i]);
        lemma_name_shifts(a, b, i + 1);
    }
}

proof fn lemma_quoted_shifts(a: Seq<char>, b: Seq<char>, i: int)
    requires
        0 <= i <= b.len(),
    ensures
        conf::quoted_from(a + b, a.len() + i) == (
            conf::quoted_from(b, i).0,
            a.len() + conf::quoted_from(b, i).1,
        ),
    decreases b.len() - i,
{
    if i < b.len() {
        assert((a + b)[a.len() + i] == b[i]);
        if i + 1 < b.len() {
            assert((a + b)[a.len() + i + 1] == b[i + 1]);
        }
        if b[i] == '"' {
        } else if b[i] == '\\' && i + 1 < b.len() && conf::escapable(b[i + 1]) {
            lemma_quoted_shifts(a, b, i + 2);
        } else {
            lemma_quoted_shifts(a, b, i + 1);
        }
    }
}

proof fn lemma_value_shifts(a: Seq<char>, b: Seq<char>, i: int)
    requires
        0 <= i,
    ensures
        conf::value_from(a + b, a.len() + i) == (
            conf::value_from(b, i).0,
            a.len() + conf::value_from(b, i).1,
        ),
    decreases b.len() + 1 - i,
{
    if i < b.len() {
        assert((a + b)[a.len() + i] == b[i]);
        if b[i] == '\'' {
            text::lemma_index_shifts(a, b, '\'', i + 1);
            text::lemma_index_from(b, '\'', i + 1);
            let e = text::index_from(b, '\'', i + 1);
            assert((a + b).subrange(a.len() + i + 1, a.len() + e) =~= b.subrange(i + 1, e));
            lemma_value_shifts(a, b, conf::verbatim_end(b, i + 1));
        } else if b[i] == '"' {
            lemma_quoted_shifts(a, b, i + 1);
            conf::lemma_quoted_from(b, i + 1);
            lemma_value_shifts(a, b, conf::quoted_from(b, i + 1).1);
        } else if conf::ends_value(b[i]) {
        } else {
            lemma_value_shifts(a, b, i + 1);
        }
    }
}

proof fn lemma_next_line_shifts(a: Seq<char>, b: Seq<char>, i: int)
    requires
        0 <= i,
    ensures
        conf::next_line(a + b, a.len() + i) == a.len() + conf::next_line(b, i),
{
    if i < b.len() {
        text::lemma_index_shifts(a, b, '\n', i);
    }
}

pub proof fn lemma_assignments_shift(a: Seq<char>, b: Seq<char>, i: int)
    requires
        0 <= i,
    ensures
        conf::assignments_from(a + b, a.len() + i) == conf::assignments_from(b, i),
    decreases b.len() + 1 - i,
{
    if i < b.len() {
        let s = a + b;
        let n = a.len() as int;
        let j = conf::name_end(b, i);
        lemma_name_shifts(a, b, i);
        conf::lemma_name_end(b, i);
        if i < j < b.len() && b[j] == '=' {
            assert(s[n + j] == b[j]);
            assert(s.subrange(n + i, n + j) =~= b.subrange(i, j));
            lemma_value_shifts(a, b, j + 1);
            conf::lemma_value_from(b, j + 1);
            let stop = conf::value_from(b, j + 1).1;
            lemma_next_line_shifts(a, b, stop);
            conf::lemma_next_line(b, stop);
            lemma_assignments_shift(a, b, conf::next_line(b, stop));
        } else {
            if j < b.len() {
                assert(s[n + j] == b[j]);
            }
            lemma_next_line_shifts(a, b, i);
            conf::lemma_next_line(b, i);
            lemma_assignments_shift(a, b, conf::next_line(b, i));
        }
    }
}

/// The text before the rest is one line, which assigns what stands at its `=`.
pub proof fn lemma_one_line(line: Seq<char>, rest: Seq<char>, n: int, v: Seq<char>, stop: int)
    requires
        0 < n < stop < line.len(),
        is_name(line.take(n)),
        line[n] == '=',
        conf::value_from(line + rest, n + 1) == (v, stop),
        forall|k: int| stop <= k < line.len() - 1 ==> #[trigger] line[k] != '\n',
        line[line.len() - 1] == '\n',
    ensures
        conf::assignments(line + rest) == seq![(line.take(n), v)] + conf::assignments(rest),
{
    let s = line + rest;
    assert forall|k: int| 0 <= k < n implies conf::name_char(#[trigger] s[k]) by {
        assert(s[k] == line.take(n)[k]);
    }
    assert(s[n] == '=');
    lemma_name_is(s, 0, n);
    assert(s.subrange(0, n) =~= line.take(n));
    assert forall|k: int| stop <= k < line.len() - 1 implies #[trigger] s[k] != '\n' by {
        assert(s[k] == line[k]);
    }
    lemma_index_is(s, '\n', stop, line.len() - 1);
    lemma_assignments_shift(line, rest, 0);
}

/// What single quotes enclose is assigned as it stands, line ends included, and
/// a blank or a comment may follow on the line.
pub proof fn single_quotes_are_verbatim(
    key: Seq<char>,
    v: Seq<char>,
    line_tail: Seq<char>,
    rest: Seq<char>,
)
    requires
        is_name(key),
        lacks(v, '\''),
        is_line_tail(line_tail),
    ensures
        conf::assignments(key + seq!['=', '\''] + v + seq!['\''] + line_tail + seq!['\n'] + rest)
            == seq![(key, v)] + conf::assignments(rest),
{
    let line = key + seq!['=', '\''] + v + seq!['\''] + line_tail + seq!['\n'];
    let s = line + rest;
    let n = key.len() as int;
    let e = n + 2 + v.len();
    assert(s[n + 1] == '\'');
    assert forall|k: int| n + 2 <= k < e implies #[trigger] s[k] != '\'' by {
        assert(s[k] == v[k - n - 2]);
    }
    assert(s[e] == '\'');
    lemma_index_is(s, '\'', n + 2, e);
    assert(s.subrange(n + 2, e) =~= v);
    assert(conf::ends_value(s[e + 1])) by {
        if line_tail.len() > 0 {
            assert(s[e + 1] == line_tail[0]);
        } else {
            assert(s[e + 1] == '\n');
        }
    }
    assert(conf::value_from(s, e + 1) == (Seq::<char>::empty(), e + 1));
    assert(v + Seq::<char>::empty() =~= v);
    assert(line.take(n) =~= key);
    assert forall|k: int| e + 1 <= k < line.len() - 1 implies #[trigger] line[k] != '\n' by {
        assert(line[k] == line_tail[k - e - 1]);
    }
    lemma_one_line(line, rest, n, v, e + 1);
}

proof fn lemma_escaped(s: Seq<char>, i: int, v: Seq<char>)
    requires
        0 <= i,
        i + escaped(v).len() < s.len(),
        s.subrange(i, i + escaped(v).len()) == escaped(v),
        s[i + escaped(v).len()] == '"',
    ensures
        conf::quoted_from(s, i) == (v, i + escaped(v).len() + 1),
    decreases v.len(),
{
    let w = escaped(v);
    if v.len() == 0 {
        assert(v =~= Seq::<char>::empty());
    } else {
        let more = escaped(v.skip(1));
        let head: int = if conf::escapable(v[0]) {
            2
        } else {
            1
        };
        assert(s[i] == w[0]) by {
            assert(s.subrange(i, i + w.len())[0] == w[0]);
        }
        if head == 2 {
            assert(s[i + 1] == v[0]) by {
                assert(s.subrange(i, i + w.len())[1] == w[1]);
            }
        }
        assert(s.subrange(i + head, i + head + more.len()) =~= more) by {
            assert forall|k: int| 0 <= k < more.len() implies s[i + head + k] == more[k] by {
                assert(s.subrange(i, i + w.len())[head + k] == w[head + k]);
            }
        }
        lemma_escaped(s, i + head, v.skip(1));
        assert(seq![v[0]] + v.skip(1) =~= v);
    }
}

/// Any text can be assigned within double quotes, with a backslash before each
/// quote, backslash, backtick and dollar sign.
pub proof fn double_quotes_undo_escapes(
    key: Seq<char>,
    v: Seq<char>,
    line_tail: Seq<char>,
    rest: Seq<char>,
)
    requires
        is_name(key),
        is_line_tail(line_tail),
    ensures
        conf::assignments(
            key + seq!['=', '"'] + escaped(v) + seq!['"'] + line_tail + seq!['\n'] + rest,
        ) == seq![(key, v)] + conf::assignments(rest),
{
    let w = escaped(v);
    let line = key + seq!['=', '"'] + w + seq!['"'] + line_tail + seq!['\n'];
    let s = line + rest;
    let n = key.len() as int;
    let e = n + 2 + w.len();
    assert(s[n + 1] == '"');
    assert(s.subrange(n + 2, e) =~= w);
    assert(s[e] == '"');
    lemma_escaped(s, n + 2, v);
    assert(conf::ends_value(s[e + 1])) by {
        if line_tail.len() > 0 {
            assert(s[e + 1] == line_tail[0]);
        } else {
            assert(s[e + 1] == '\n');
        }
    }
    assert(conf::value_from(s, e + 1) == (Seq::<char>::empty(), e + 1));
    assert(v + Seq::<char>::empty() =~= v);
    assert(line.take(n) =~= key);
    assert forall|k: int| e + 1 <= k < line.len() - 1 implies #[trigger] line[k] != '\n' by {
        assert(line[k] == line_tail[k - e - 1]);
    }
    lemma_one_line(line, rest, n, v, e + 1);
}

/// A comment line assigns nothing.
pub proof fn comment_lines_are_passed_over(comment: Seq<char>, rest: Seq<char>)
    requires
        lacks(comment, '\n'),
    ensures
        conf::assignments(seq!['#'] + comment + seq!['\n'] + rest) == conf::assignments(rest),
{
    let line = seq!['#'] + comment + seq!['\n'];
    let s = line + rest;
    assert(s[0] == '#');
    lemma_name_is(s, 0, 0);
    let e = line.len() - 1;
    assert forall|k: int| 0 <= k < e implies #[trigger] s[k] != '\n' by {
        if k > 0 {
            assert(s[k] == comment[k - 1]);
        }
    }
    assert(s[e] == '\n');
    lemma_index_is(s, '\n', 0, e);
    lemma_assignments_shift(line, rest, 0);
}

// ---------------------------------------------------------------------------
// Two texts

/// Is every quote closed in the assignments from the line start `i` on, so that
/// no value runs past the last line?
pub open spec fn closed_from(s: Seq<char>, i: int) -> bool
    decreases s.len() + 1 - i,
{
    if i < 0 || i >= s.len() {
        true
    } else {
        let j = conf::name_end(s, i);
        proof {
            conf::lemma_name_end(s, i);
            conf::lemma_next_line(s, i);
            if i < j < s.len() {
                conf::lemma_value_from(s, j + 1);
                conf::lemma_next_line(s, conf::value_from(s, j + 1).1);
            }
        }
        if i < j < s.len() && s[j] == '=' {
            conf::value_from(s, j + 1).1 < s.len() && closed_from(
                s,
                conf::next_line(s, conf::value_from(s, j + 1).1),
            )
        } else {
            closed_from(s, conf::next_line(s, i))
        }
    }
}

/// Is the text made of whole lines, with every quote closed?
pub open spec fn whole_lines(s: Seq<char>) -> bool {
    (s.len() > 0 ==> s.last() == '\n') && closed_from(s, 0)
}

proof fn lemma_index_stays(a: Seq<char>, b: Seq<char>, c: char, i: int)
    requires
        0 <= i <= a.len(),
        text::index_from(a, c, i) < a.len(),
    ensures
        text::index_from(a + b, c, i) == text::index_from(a, c, i),
    decreases a.len() - i,
{
    if i < a.len() {
        assert((a + b)[i] == a[i]);
        if a[i] != c {
            lemma_index_stays(a, b, c, i + 1);
        }
    }
}

proof fn lemma_name_stays(a: Seq<char>, b: Seq<char>, i: int)
    requires
        0 <= i <= a.len(),
        conf::name_end(a, i) < a.len(),
    ensures
        conf::name_end(a + b, i) == conf::name_end(a, i),
    decreases a.len() - i,
{
    if i < a.len() {
        assert((a + b)[i] == a[i]);
        if conf::name_char(a[i]) {
            lemma_name_stays(a, b, i + 1);
        }
    }
}

proof fn lemma_quoted_stays(a: Seq<char>, b: Seq<char>, i: int)
    requires
        0 <= i <= a.len(),
        conf::quoted_from(a, i).1 <= a.len(),
    ensures
        conf::quoted_from(a + b, i) == conf::quoted_from(a, i),
    decreases a.len() - i,
{
    if i < a.len() {
        assert((a + b)[i] == a[i]);
        if a[i] == '"' {
        } else if a[i] == '\\' && i + 1 < a.len() && conf::escapable(a[i + 1]) {
            assert((a + b)[i + 1] == a[i + 1]);
            lemma_quoted_stays(a, b, i + 2);
        } else {
            if a[i] == '\\' && i + 1 < a.len() {
                assert((a + b)[i + 1] == a[i + 1]);
            }
            conf::lemma_quoted_from(a, i + 1);
            lemma_quoted_stays(a, b, i + 1);
        }
    }
}

proof fn lemma_value_stays(a: Seq<char>, b: Seq<char>, i: int)
    requires
        0 <= i,
        conf::value_from(a, i).1 < a.len(),
    ensures
        conf::value_from(a + b, i) == conf::value_from(a, i),
    decreases a.len() + 1 - i,
{
    if i < a.len() {
        let s = a + b;
        assert(s[i] == a[i]);
        if a[i] == '\'' {
            text::lemma_index_from(a, '\'', i + 1);
            let e = text::index_from(a, '\'', i + 1);
            conf::lemma_value_from(a, e + 1);
            lemma_index_stays(a, b, '\'', i + 1);
            assert(s.subrange(i + 1, e) =~= a.subrange(i + 1, e));
            lemma_value_stays(a, b, e + 1);
        } else if a[i] == '"' {
            conf::lemma_quoted_from(a, i + 1);
            conf::lemma_value_from(a, conf::quoted_from(a, i + 1).1);
            lemma_quoted_stays(a, b, i + 1);
            lemma_value_stays(a, b, conf::quoted_from(a, i + 1).1);
        } else if conf::ends_value(a[i]) {
        } else {
            lemma_value_stays(a, b, i + 1);
        }
    }
}

proof fn lemma_next_line_stays(a: Seq<char>, b: Seq<char>, i: int)
    requires
        0 <= i < a.len(),
        a.last() == '\n',
    ensures
        conf::next_line(a + b, i) == conf::next_line(a, i) <= a.len(),
{
    text::lemma_index_from(a, '\n', i);
    assert(text::index_from(a, '\n', i) < a.len()) by {
        if text::index_from(a, '\n', i) == a.len() {
            assert(a[a.len() - 1] != '\n');
        }
    }
    lemma_index_stays(a, b, '\n', i);
}

proof fn lemma_assignments_of_two(a: Seq<char>, b: Seq<char>, i: int)
    requires
        a.len() > 0,
        a.last() == '\n',
        0 <= i <= a.len(),
        closed_from(a, i),
    ensures
        conf::assignments_from(a + b, i) == conf::assignments_from(a, i) + conf::assignments(b),
    decreases a.len() - i,
{
    let s = a + b;
    let rest = conf::assignments(b);
    if i == a.len() {
        lemma_assignments_shift(a, b, 0);
        assert(conf::assignments_from(a, i) + rest =~= rest);
    } else {
        let j = conf::name_end(a, i);
        conf::lemma_name_end(a, i);
        assert(j < a.len()) by {
            if j == a.len() {
                assert(conf::name_char(a[a.len() - 1]));
            }
        }
        lemma_name_stays(a, b, i);
        assert(s[j] == a[j]);
        if i < j && a[j] == '=' {
            let stop = conf::value_from(a, j + 1).1;
            lemma_value_stays(a, b, j + 1);
            conf::lemma_value_from(a, j + 1);
            lemma_next_line_stays(a, b, stop);
            conf::lemma_next_line(a, stop);
            lemma_assignments_of_two(a, b, conf::next_line(a, stop));
            assert(s.subrange(i, j) =~= a.subrange(i, j));
            assert(conf::assignments_from(s, i) =~= conf::assignments_from(a, i) + rest);
        } else {
            lemma_next_line_stays(a, b, i);
            conf::lemma_next_line(a, i);
            lemma_assignments_of_two(a, b, conf::next_line(a, i));
        }
    }
}

/// Two texts one after the other assign what each of them does, where the first
/// is made of whole lines with every quote closed.
pub proof fn texts_are_read_one_after_the_other(a: Seq<char>, b: Seq<char>)
    requires
        whole_lines(a),
    ensures
        conf::assignments(a + b) == conf::assignments(a) + conf::assignments(b),
{
    if a.len() == 0 {
        assert(a + b =~= b);
        assert(conf::assignments(a) + conf::assignments(b) =~= conf::assignments(b));
    } else {
        lemma_assignments_of_two(a, b, 0);
    }
}

} // verus!
