//! What cutting, trimming and numbering a text gives, said by how the text is
//! put together.

use crate::text;
use vstd::prelude::*;

verus! {

/// Are these characters all white space?
pub open spec fn all_white(s: Seq<char>) -> bool {
    forall|i: int| 0 <= i < s.len() ==> text::white(#[trigger] s[i])
}

/// Is none of these characters white space?
pub open spec fn no_white(s: Seq<char>) -> bool {
    forall|i: int| 0 <= i < s.len() ==> !text::white(#[trigger] s[i])
}

/// The characters that count as white space, one by one.
pub proof fn white_space_is_this(c: char)
    ensures
        text::white(c) <==> seq![
            '\t', '\n', '\u{b}', '\u{c}', '\r', ' ', '\u{85}', '\u{a0}', '\u{1680}', '\u{2000}', '\u{2001}',
            '\u{2002}', '\u{2003}', '\u{2004}', '\u{2005}', '\u{2006}', '\u{2007}', '\u{2008}', '\u{2009}',
            '\u{200a}', '\u{2028}', '\u{2029}', '\u{202f}', '\u{205f}', '\u{3000}',
        ].contains(c),
{
    let all = seq![
        '\t', '\n', '\u{b}', '\u{c}', '\r', ' ', '\u{85}', '\u{a0}', '\u{1680}', '\u{2000}', '\u{2001}',
        '\u{2002}', '\u{2003}', '\u{2004}', '\u{2005}', '\u{2006}', '\u{2007}', '\u{2008}', '\u{2009}',
        '\u{200a}', '\u{2028}', '\u{2029}', '\u{202f}', '\u{205f}', '\u{3000}',
    ];
    assert(all.len() == 25);
    assert(all[0] == '\t' && all[1] == '\n' && all[2] == '\u{b}' && all[3] == '\u{c}' && all[4] == '\r');
    assert(all[5] == ' ' && all[6] == '\u{85}' && all[7] == '\u{a0}' && all[8] == '\u{1680}');
    assert(all[9] == '\u{2000}' && all[10] == '\u{2001}' && all[11] == '\u{2002}' && all[12] == '\u{2003}');
    assert(all[13] == '\u{2004}' && all[14] == '\u{2005}' && all[15] == '\u{2006}' && all[16] == '\u{2007}');
    assert(all[17] == '\u{2008}' && all[18] == '\u{2009}' && all[19] == '\u{200a}' && all[20] == '\u{2028}');
    assert(all[21] == '\u{2029}' && all[22] == '\u{202f}' && all[23] == '\u{205f}' && all[24] == '\u{3000}');
}

/// Control characters are those below the space and those from delete to
/// `\u{9f}`; nothing else is.
pub proof fn control_characters_are_these(c: char)
    ensures
        text::control(c) <==> ((c as u32) < 32 || (127 <= (c as u32) && (c as u32) < 160)),
{
}

/// Cutting to `n` characters gives a beginning of the text, of `n` characters or
/// of all there are.
pub proof fn a_clipped_text_is_a_beginning(s: Seq<char>, n: int)
    ensures
        s.len() <= n ==> text::clip(s, n) == s,
        0 <= n <= s.len() ==> text::clip(s, n).len() == n,
        forall|i: int| 0 <= i < text::clip(s, n).len() ==> text::clip(s, n)[i] == s[i],
{
}

/// A run holds one character, as often as is asked for.
pub proof fn a_run_is_one_character_over_and_over(c: char, n: int)
    ensures
        n >= 0 ==> text::fill(c, n).len() == n,
        n < 0 ==> text::fill(c, n).len() == 0,
        forall|i: int| 0 <= i < text::fill(c, n).len() ==> text::fill(c, n)[i] == c,
{
}

/// A text is cut in two at the first separator: what stands before it, and what
/// stands after it.
pub proof fn a_text_is_cut_at_the_first_separator(a: Seq<char>, c: char, b: Seq<char>)
    requires
        !a.contains(c),
    ensures
        text::before(a, c) == a,
        text::after(a, c) is None,
        text::before(a + seq![c] + b, c) == a,
        text::after(a + seq![c] + b, c) == Some(b),
{
    lemma_separator(a, c, b);
    lemma_no_separator(a, c);
    let s = a + seq![c] + b;
    assert(s.take(a.len() as int) =~= a);
    assert(s.skip(a.len() as int + 1) =~= b);
    assert(a.take(a.len() as int) =~= a);
}

proof fn lemma_separator(a: Seq<char>, c: char, b: Seq<char>)
    requires
        !a.contains(c),
    ensures
        text::index_from(a + seq![c] + b, c, 0) == a.len(),
{
    let s = a + seq![c] + b;
    text::lemma_index_from(s, c, 0);
    let e = text::index_from(s, c, 0);
    assert(s[a.len() as int] == c);
    if e < a.len() {
        assert(a[e] == s[e]);
        assert(a.contains(c));
    }
}

proof fn lemma_no_separator(a: Seq<char>, c: char)
    requires
        !a.contains(c),
    ensures
        text::index_from(a, c, 0) == a.len(),
{
    text::lemma_index_from(a, c, 0);
    let e = text::index_from(a, c, 0);
    if e < a.len() {
        assert(a.contains(a[e]));
    }
}

/// The tail of a text is what follows its last separator.
pub proof fn a_tail_follows_the_last_separator(a: Seq<char>, c: char, b: Seq<char>)
    requires
        !b.contains(c),
    ensures
        text::tail(b, c) == b,
        text::tail(a + seq![c] + b, c) == b,
{
    let s = a + seq![c] + b;
    lemma_tail(s, c, s.len() as int);
    lemma_tail(b, c, b.len() as int);
    let t = text::tail_start(s, c, s.len() as int);
    assert(t == a.len() + 1) by {
        if t < a.len() + 1 {
            assert(s[a.len() as int] == c);
        }
        if t > a.len() + 1 {
            assert(b[t - 1 - a.len() - 1] == s[t - 1]);
            assert(b.contains(c));
        }
    }
    assert(s.skip(t) =~= b);
    let u = text::tail_start(b, c, b.len() as int);
    assert(u == 0) by {
        if u > 0 {
            assert(b.contains(b[u - 1]));
        }
    }
    assert(b.skip(0) =~= b);
}

proof fn lemma_tail(s: Seq<char>, c: char, i: int)
    requires
        0 <= i <= s.len(),
    ensures
        0 <= text::tail_start(s, c, i) <= i,
        text::tail_start(s, c, i) > 0 ==> s[text::tail_start(s, c, i) - 1] == c,
        forall|k: int| text::tail_start(s, c, i) <= k < i ==> s[k] != c,
    decreases i,
{
    if i > 0 && s[i - 1] != c {
        lemma_tail(s, c, i - 1);
    }
}

/// A text stands in another where the other is made of something, that text, and
/// something.
pub proof fn a_text_stands_in_its_surroundings(a: Seq<char>, t: Seq<char>, b: Seq<char>)
    ensures
        text::occurs(a + t + b, t),
        text::ends(a + t, t),
{
    assert((a + t + b).subrange(a.len() as int, (a.len() + t.len()) as int) =~= t);
    assert(text::stands_at(a + t + b, t, a.len() as int));
    assert((a + t).subrange(a.len() as int, (a.len() + t.len()) as int) =~= t);
}

/// Where a text stands in another, the other is made of something, that text,
/// and something; where it ends another, of something and that text.
pub proof fn what_stands_in_a_text_splits_it(s: Seq<char>, t: Seq<char>)
    ensures
        text::occurs(s, t) ==> exists|a: Seq<char>, b: Seq<char>| s == #[trigger] (a + t + b),
        text::ends(s, t) ==> exists|a: Seq<char>| s == #[trigger] (a + t),
{
    if text::occurs(s, t) {
        let i = choose|i: int| text::stands_at(s, t, i);
        let a = s.take(i);
        let b = s.skip(i + t.len());
        assert(s =~= a + t + b);
    }
    if text::ends(s, t) {
        let a = s.take(s.len() - t.len());
        assert(s =~= a + t);
    }
}

/// Trimming takes the white space off both ends and leaves what lies between
/// whole.
pub proof fn trimming_takes_the_ends_off(a: Seq<char>, m: Seq<char>, b: Seq<char>)
    requires
        all_white(a),
        all_white(b),
        m.len() > 0 ==> !text::white(m[0]) && !text::white(m.last()),
    ensures
        text::trim(a + m + b) == m,
        text::trim_end(m + b) == m,
{
    let s = a + m + b;
    text::lemma_skip_white(s, 0);
    text::lemma_white_tail(s, s.len() as int);
    let i = text::skip_white(s, 0);
    let j = text::white_tail(s, s.len() as int);
    if m.len() > 0 {
        assert(s[a.len() as int] == m[0]);
        assert(s[a.len() + m.len() - 1] == m.last());
        assert(i == a.len()) by {
            if i < a.len() {
                assert(s[i] == a[i]);
            }
        }
        assert(j == a.len() + m.len()) by {
            if j > a.len() + m.len() {
                assert(s[j - 1] == b[j - 1 - a.len() - m.len()]);
            }
        }
        assert(s.subrange(i, j) =~= m);
    } else {
        assert(forall|k: int| 0 <= k < s.len() ==> text::white(s[k])) by {
            assert forall|k: int| 0 <= k < s.len() implies text::white(s[k]) by {
                if k < a.len() {
                    assert(s[k] == a[k]);
                } else {
                    assert(s[k] == b[k - a.len()]);
                }
            }
        }
        assert(text::trim(s) =~= m);
    }
    let t = m + b;
    text::lemma_white_tail(t, t.len() as int);
    let e = text::white_tail(t, t.len() as int);
    assert(e == m.len()) by {
        if e > m.len() {
            assert(t[e - 1] == b[e - 1 - m.len()]);
        }
        if e < m.len() {
            assert(t[m.len() - 1] == m.last());
        }
    }
    assert(t.take(e) =~= m);
}

/// The words of a text are the runs without white space, in order: white space
/// alone holds none, and a word is followed by the words of the rest.
pub proof fn words_lie_between_white_space(a: Seq<char>, w: Seq<char>, rest: Seq<char>)
    requires
        all_white(a),
        w.len() > 0,
        no_white(w),
        rest.len() > 0 ==> text::white(rest[0]),
    ensures
        text::words(a) == Seq::<Seq<char>>::empty(),
        text::words(a + w + rest) == seq![w] + text::words(rest),
{
    text::lemma_skip_white(a, 0);
    assert(text::skip_white(a, 0) == a.len());
    let s = a + w + rest;
    text::lemma_skip_white(s, 0);
    let i = text::skip_white(s, 0);
    assert(s[a.len() as int] == w[0]);
    assert(i == a.len()) by {
        if i < a.len() {
            assert(s[i] == a[i]);
        }
    }
    text::lemma_skip_word(s, i);
    let j = text::skip_word(s, i);
    assert(j == a.len() + w.len()) by {
        if j < a.len() + w.len() {
            assert(s[j] == w[j - a.len()]);
        }
        if j > a.len() + w.len() {
            assert(s[(a.len() + w.len()) as int] == rest[0]);
        }
    }
    assert(s.subrange(i, j) =~= w);
    lemma_words_shift(a + w, rest, 0);
}

proof fn lemma_words_shift(a: Seq<char>, b: Seq<char>, i: int)
    requires
        0 <= i <= b.len(),
    ensures
        text::words_from(a + b, a.len() + i) == text::words_from(b, i),
    decreases b.len() - i,
{
    let s = a + b;
    lemma_skips_shift(a, b, i);
    text::lemma_skip_white(b, i);
    let p = text::skip_white(b, i);
    lemma_skips_shift(a, b, p);
    text::lemma_skip_word(b, p);
    let q = text::skip_word(b, p);
    if p < b.len() {
        assert(q > p);
        lemma_words_shift(a, b, q);
        assert(s.subrange(a.len() + p, a.len() + q) =~= b.subrange(p, q));
    }
}

proof fn lemma_skips_shift(a: Seq<char>, b: Seq<char>, i: int)
    requires
        0 <= i <= b.len(),
    ensures
        text::skip_white(a + b, a.len() + i) == a.len() + text::skip_white(b, i),
        text::skip_word(a + b, a.len() + i) == a.len() + text::skip_word(b, i),
    decreases b.len() - i,
{
    if i < b.len() {
        assert((a + b)[a.len() + i] == b[i]);
        lemma_skips_shift(a, b, i + 1);
    }
}

/// The line breaks at the end of a text are dropped, all of them and nothing
/// else.
pub proof fn line_breaks_are_dropped_from_the_end(m: Seq<char>, b: Seq<char>)
    requires
        m.len() > 0 ==> m.last() != '\n' && m.last() != '\r',
        forall|i: int| 0 <= i < b.len() ==> #[trigger] b[i] == '\n' || b[i] == '\r',
    ensures
        text::chomp(m + b) == m,
{
    let s = m + b;
    lemma_breaks(m, b, b.len() as int);
    assert(s.take(m.len() as int) =~= m);
}

proof fn lemma_breaks(m: Seq<char>, b: Seq<char>, i: int)
    requires
        m.len() > 0 ==> m.last() != '\n' && m.last() != '\r',
        forall|i: int| 0 <= i < b.len() ==> #[trigger] b[i] == '\n' || b[i] == '\r',
        0 <= i <= b.len(),
    ensures
        text::break_tail(m + b, m.len() + i) == m.len(),
    decreases i,
{
    if i > 0 {
        assert((m + b)[m.len() + i - 1] == b[i - 1]);
        lemma_breaks(m, b, i - 1);
    } else if m.len() > 0 {
        assert((m + b)[m.len() - 1] == m.last());
    }
}

/// A run of one character is taken off the start of a text whole.
pub proof fn a_leading_run_is_dropped(c: char, n: int, m: Seq<char>)
    requires
        0 <= n,
        m.len() > 0 ==> m[0] != c,
    ensures
        text::unled(text::fill(c, n) + m, c) == m,
{
    let s = text::fill(c, n) + m;
    lemma_leading(c, n, m, 0);
    assert(s.skip(n) =~= m);
}

proof fn lemma_leading(c: char, n: int, m: Seq<char>, i: int)
    requires
        0 <= i <= n,
        m.len() > 0 ==> m[0] != c,
    ensures
        text::run_end(text::fill(c, n) + m, c, i) == n,
    decreases n - i,
{
    let s = text::fill(c, n) + m;
    if i < n {
        assert(s[i] == c);
        lemma_leading(c, n, m, i + 1);
    } else if m.len() > 0 {
        assert(s[n] == m[0]);
    }
}

/// A text is its first line and the lines after its first line break; a carriage
/// return before the break belongs to the break.
pub proof fn a_text_is_cut_at_its_line_breaks(a: Seq<char>, b: Seq<char>)
    requires
        !a.contains('\n'),
    ensures
        text::lines(Seq::<char>::empty()) == Seq::<Seq<char>>::empty(),
        a.len() > 0 ==> text::lines(a) == seq![a],
        a.len() == 0 || a.last() != '\r' ==> text::lines(a + seq!['\n'] + b) == seq![a] + text::lines(b),
        a.len() > 0 && a.last() == '\r' ==> text::lines(a + seq!['\n'] + b) == seq![a.drop_last()] + text::lines(b),
{
    let s = a + seq!['\n'] + b;
    let first = a + seq!['\n'];
    lemma_separator(a, '\n', b);
    lemma_no_separator(a, '\n');
    lemma_separator(a, '\n', Seq::empty());
    assert(first + Seq::<char>::empty() =~= first);
    assert(a.subrange(0, a.len() as int) =~= a);
    assert(first.subrange(0, a.len() as int) =~= a);
    text::lemma_lines_of_two(first, b, 0);
    reveal_with_fuel(text::lines_from, 2);
    assert(text::lines_from(first, 0) =~= seq![text::uncarried(a)]);
}

/// Cutting at a separator gives the first field and the fields after it, and
/// with a limit the last field holds all that is left.
pub proof fn fields_lie_between_separators(a: Seq<char>, c: char, b: Seq<char>, n: int)
    requires
        !a.contains(c),
        n >= 1,
    ensures
        text::split(a, c) == seq![a],
        text::split(a + seq![c] + b, c) == seq![a] + text::split(b, c),
        text::pieces(b, c, 1) == seq![b],
        text::pieces(a, c, n) == seq![a],
        text::pieces(a + seq![c] + b, c, n + 1) == seq![a] + text::pieces(b, c, n),
{
    let s = a + seq![c] + b;
    lemma_separator(a, c, b);
    lemma_no_separator(a, c);
    assert(a.subrange(0, a.len() as int) =~= a);
    assert(b.subrange(0, b.len() as int) =~= b);
    assert(s.subrange(0, a.len() as int) =~= a);
    assert(s =~= (a + seq![c]) + b);
    lemma_pieces_shift(a + seq![c], c, b, 0, n);
    lemma_pieces_shift(a + seq![c], c, b, 0, s.len() as int);
    text::lemma_pieces_enough(b, c, 0, s.len() as int, b.len() as int + 1);
}

proof fn lemma_pieces_shift(a: Seq<char>, c: char, b: Seq<char>, i: int, n: int)
    requires
        0 <= i <= b.len(),
    ensures
        text::pieces_from(a + b, c, a.len() + i, n) == text::pieces_from(b, c, i, n),
    decreases n,
{
    if n > 0 {
        let s = a + b;
        text::lemma_index_shifts(a, b, c, i);
        text::lemma_index_from(b, c, i);
        let e = text::index_from(b, c, i);
        if n > 1 && e < b.len() {
            lemma_pieces_shift(a, c, b, e + 1, n - 1);
            assert(s.subrange(a.len() + i, a.len() + e) =~= b.subrange(i, e));
        } else {
            assert(s.subrange(a.len() + i, s.len() as int) =~= b.subrange(i, b.len() as int));
        }
    }
}

/// Joining puts the separator between neighbours and nowhere else.
pub proof fn joining_puts_the_separator_between(list: Seq<Seq<char>>, x: Seq<char>, sep: Seq<char>)
    ensures
        text::join(Seq::<Seq<char>>::empty(), sep) == Seq::<char>::empty(),
        text::join(seq![x], sep) == x,
        list.len() > 0 ==> text::join(list.push(x), sep) == text::join(list, sep) + sep + x,
{
    assert(list.push(x).drop_last() =~= list);
}

/// Replacing swaps the first place where `t` stands for `u` and goes on behind
/// it; a text without `t` stays as it is.
pub proof fn replacing_swaps_each_place(a: Seq<char>, t: Seq<char>, u: Seq<char>, b: Seq<char>)
    requires
        t.len() > 0,
        forall|i: int| 0 <= i < a.len() ==> !#[trigger] text::stands_at(a + t + b, t, i),
        !text::occurs(a, t),
    ensures
        text::replace(a, t, u) == a,
        text::replace(a + t + b, t, u) == a + u + text::replace(b, t, u),
{
    lemma_replace_none(a, t, u, 0);
    assert(a.skip(0) =~= a);
    lemma_replace_first(a, t, u, b, 0);
    assert(a.skip(0) + u + text::replace(b, t, u) =~= a + u + text::replace(b, t, u));
}

proof fn lemma_replace_none(a: Seq<char>, t: Seq<char>, u: Seq<char>, i: int)
    requires
        0 <= i <= a.len(),
        !text::occurs(a, t),
    ensures
        text::replace_from(a, t, u, i) == a.skip(i),
    decreases a.len() - i,
{
    if i < a.len() {
        assert(!text::stands_at(a, t, i));
        lemma_replace_none(a, t, u, i + 1);
        assert(a.skip(i) =~= seq![a[i]] + a.skip(i + 1));
    } else {
        assert(a.skip(i) =~= Seq::<char>::empty());
    }
}

proof fn lemma_replace_first(a: Seq<char>, t: Seq<char>, u: Seq<char>, b: Seq<char>, i: int)
    requires
        0 <= i <= a.len(),
        t.len() > 0,
        forall|i: int| 0 <= i < a.len() ==> !#[trigger] text::stands_at(a + t + b, t, i),
    ensures
        text::replace_from(a + t + b, t, u, i) == a.skip(i) + u + text::replace(b, t, u),
    decreases a.len() - i,
{
    let s = a + t + b;
    if i < a.len() {
        assert(!text::stands_at(s, t, i));
        lemma_replace_first(a, t, u, b, i + 1);
        assert(a.skip(i) =~= seq![a[i]] + a.skip(i + 1));
        assert(a.skip(i) + u + text::replace(b, t, u) =~= seq![s[i]] + (a.skip(i + 1) + u + text::replace(b, t, u)));
    } else {
        assert(s.subrange(a.len() as int, (a.len() + t.len()) as int) =~= t);
        lemma_replace_shift(a + t, t, u, b, 0);
        assert(a.skip(i) =~= Seq::<char>::empty());
        assert(a.skip(i) + u + text::replace(b, t, u) =~= u + text::replace(b, t, u));
    }
}

proof fn lemma_replace_shift(a: Seq<char>, t: Seq<char>, u: Seq<char>, b: Seq<char>, i: int)
    requires
        0 <= i,
        t.len() > 0,
    ensures
        text::replace_from(a + b, t, u, a.len() + i) == text::replace_from(b, t, u, i),
    decreases b.len() - i,
{
    let s = a + b;
    if i < b.len() {
        assert(s[a.len() + i] == b[i]);
        if i + t.len() <= b.len() {
            assert(s.subrange(a.len() + i, a.len() + i + t.len()) =~= b.subrange(i, i + t.len()));
        }
        if text::stands_at(b, t, i) {
            lemma_replace_shift(a, t, u, b, i + t.len());
        } else {
            lemma_replace_shift(a, t, u, b, i + 1);
        }
    }
}

/// Turning one character into another changes that character everywhere and no
/// other.
pub proof fn recolouring_changes_one_character(s: Seq<char>, a: char, b: char)
    ensures
        text::recolour(s, a, b).len() == s.len(),
        forall|i: int| 0 <= i < s.len() && s[i] == a ==> text::recolour(s, a, b)[i] == b,
        forall|i: int| 0 <= i < s.len() && s[i] != a ==> text::recolour(s, a, b)[i] == s[i],
{
}

/// Only control characters are left out of a printed text: any other character
/// stays, in its place among the rest.
pub proof fn printing_leaves_out_control_characters(a: Seq<char>, c: char)
    ensures
        text::printable(Seq::<char>::empty()) == Seq::<char>::empty(),
        text::control(c) ==> text::printable(a.push(c)) == text::printable(a),
        !text::control(c) ==> text::printable(a.push(c)) == text::printable(a).push(c),
{
    reveal(Seq::filter);
    assert(a.push(c).drop_last() =~= a);
}

/// In decimal the last digit of a number is what is left of it after the tens,
/// and the tens stand before it.
pub proof fn decimal_is_written_by_tens(n: nat, d: nat)
    requires
        d < 10,
    ensures
        text::decimal(d) == seq![seq!['0', '1', '2', '3', '4', '5', '6', '7', '8', '9'][d as int]],
        n > 0 ==> text::decimal(10 * n + d) == text::decimal(n) + text::decimal(d),
{
    let all = seq!['0', '1', '2', '3', '4', '5', '6', '7', '8', '9'];
    assert(all[d as int] == text::figure(d as int)) by {
        if d == 0 {} else if d == 1 {} else if d == 2 {} else if d == 3 {} else if d == 4 {} else if d == 5 {}
        else if d == 6 {} else if d == 7 {} else if d == 8 {} else {}
    }
    if n > 0 {
        let m: nat = 10 * n + d;
        assert(m / 10 == n && m % 10 == d) by (nonlinear_arith)
            requires
                m == 10 * n + d,
                d < 10,
        ;
        assert(text::decimal(m) =~= text::decimal(n) + text::decimal(d));
    }
}

/// A numeral is one or more digits, behind a plus sign or not: nothing else is
/// read as a number, and neither is a value over the limit.
pub proof fn numbers_are_digits(s: Seq<char>, max: nat)
    ensures
        text::number(Seq::<char>::empty(), max) is None,
        text::number(s, max) is Some ==> forall|i: int| 0 <= i < s.len() ==> '0' <= #[trigger] s[i] <= '9' || (i == 0
            && s[i] == '+'),
        text::number(s, max) matches Some(n) ==> n <= max,
        s.len() > 0 && s[0] != '+' ==> text::number(seq!['+'] + s, max) == text::number(s, max),
{
    let t = text::unsigned(s);
    if text::number(s, max) is Some {
        assert forall|i: int| 0 <= i < s.len() implies '0' <= #[trigger] s[i] <= '9' || (i == 0 && s[i] == '+') by {
            if s[0] == '+' {
                if i > 0 {
                    assert(t[i - 1] == s[i]);
                }
            } else {
                assert(t[i] == s[i]);
            }
        }
    }
    assert((seq!['+'] + s).skip(1) =~= s);
}

/// Each digit that is added makes a number ten times as large, and larger by the
/// digit; leading zeros change nothing.
pub proof fn numbers_are_read_by_tens(s: Seq<char>, n: nat, d: nat, max: nat)
    requires
        text::number(s, max) == Some(n),
        d < 10,
        10 * n + d <= max,
    ensures
        text::number(s + text::decimal(d), max) == Some((10 * n + d) as nat),
        d <= max,
        text::number(text::decimal(d), max) == Some(d),
{
    let c = text::figure(d as int);
    let u = s + text::decimal(d);
    assert(text::decimal(d) =~= seq![c]);
    assert(c as nat - '0' as nat == d);
    let t = text::unsigned(s);
    assert(text::unsigned(u) =~= t.push(c));
    assert(t.push(c).drop_last() =~= t);
    assert(text::digits(t.push(c))) by {
        assert forall|i: int| 0 <= i < t.push(c).len() implies text::digit(#[trigger] t.push(c)[i]) by {
            if i < t.len() {
                assert(t[i] == t.push(c)[i]);
            }
        }
    }
    text::decimal_reads_back(d, max);
}

/// The place of a text in a list is the first at which it stands.
pub proof fn a_text_is_found_where_it_first_stands(list: Seq<Seq<char>>, s: Seq<char>, p: int)
    requires
        0 <= p < list.len(),
        list[p] == s,
        forall|k: int| 0 <= k < p ==> list[k] != s,
    ensures
        text::position_of(list, s, 0) == Some(p),
{
    text::lemma_position_of(list, s, 0);
}

} // verus!
