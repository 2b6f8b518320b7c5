//! Characters, lines, fields and numbers: the string operations that the rest
//! of the crate is written in, stated over sequences of characters.

use vstd::prelude::*;
use vstd::string::*;

verus! {

/// `String::push` appends one character to the string.
pub assume_specification[ String::push ](s: &mut String, c: char)
    ensures
        final(s)@ == old(s)@.push(c),
;

// ---------------------------------------------------------------------------
// Character classes

/// The Unicode `White_Space` property.
pub open spec fn white(c: char) -> bool {
    ||| '\u{9}' <= c <= '\u{d}'
    ||| c == ' '
    ||| c == '\u{85}'
    ||| c == '\u{a0}'
    ||| c == '\u{1680}'
    ||| '\u{2000}' <= c <= '\u{200a}'
    ||| c == '\u{2028}'
    ||| c == '\u{2029}'
    ||| c == '\u{202f}'
    ||| c == '\u{205f}'
    ||| c == '\u{3000}'
}

/// Is `c` white space?
pub fn is_white(c: char) -> (r: bool)
    ensures
        r == white(c),
{
    ('\u{9}' <= c && c <= '\u{d}') || c == ' ' || c == '\u{85}' || c == '\u{a0}' || c == '\u{1680}'
        || ('\u{2000}' <= c && c <= '\u{200a}') || c == '\u{2028}' || c == '\u{2029}' || c
        == '\u{202f}' || c == '\u{205f}' || c == '\u{3000}'
}

/// The Unicode general category `Cc`.
pub open spec fn control(c: char) -> bool {
    c <= '\u{1f}' || '\u{7f}' <= c <= '\u{9f}'
}

/// Is `c` a control character?
pub fn is_control(c: char) -> (r: bool)
    ensures
        r == control(c),
{
    c <= '\u{1f}' || ('\u{7f}' <= c && c <= '\u{9f}')
}

/// `0` to `9`.
pub open spec fn digit(c: char) -> bool {
    '0' <= c <= '9'
}

/// ASCII letters and digits.
pub open spec fn alphanumeric(c: char) -> bool {
    digit(c) || 'a' <= c <= 'z' || 'A' <= c <= 'Z'
}

/// Is `c` an ASCII letter or digit?
pub fn is_alphanumeric(c: char) -> (r: bool)
    ensures
        r == alphanumeric(c),
{
    ('0' <= c && c <= '9') || ('a' <= c && c <= 'z') || ('A' <= c && c <= 'Z')
}

// ---------------------------------------------------------------------------
// Strings and vectors of characters

/// The contents of a list of strings.
pub open spec fn views(v: Seq<String>) -> Seq<Seq<char>> {
    v.map_values(|s: String| s@)
}

/// The characters of `s`.
pub fn chars_of(s: &str) -> (r: Vec<char>)
    ensures
        r@ == s@,
{
    let mut out: Vec<char> = Vec::new();
    for c in it: s.chars()
        invariant
            out@ == s@.take(it.index() as int),
            it.seq() == s@,
    {
        out.push(c);
        assert(s@.take(it.index() as int).push(c) =~= s@.take(it.index() + 1));
    }
    assert(s@.take(s@.len() as int) =~= s@);
    out
}

/// The string made of `v[from..to]`.
pub fn string_of(v: &Vec<char>, from: usize, to: usize) -> (r: String)
    requires
        from <= to <= v@.len(),
    ensures
        r@ == v@.subrange(from as int, to as int),
{
    let mut out = String::new();
    let mut i: usize = from;
    while i < to
        invariant
            from <= i <= to <= v@.len(),
            out@ == v@.subrange(from as int, i as int),
        decreases to - i,
    {
        out.push(v[i]);
        i += 1;
        assert(v@.subrange(from as int, i as int) =~= v@.subrange(from as int, i - 1).push(
            v@[i - 1],
        ));
    }
    out
}

/// Do the two strings hold the same characters?
pub fn same(a: &str, b: &str) -> (r: bool)
    ensures
        r == (a@ == b@),
{
    let x = chars_of(a);
    let y = chars_of(b);
    if x.len() != y.len() {
        return false;
    }
    let mut i: usize = 0;
    while i < x.len()
        invariant
            x@ == a@,
            y@ == b@,
            x@.len() == y@.len(),
            i <= x@.len(),
            forall|k: int| 0 <= k < i ==> x@[k] == y@[k],
        decreases x@.len() - i,
    {
        if x[i] != y[i] {
            return false;
        }
        i += 1;
    }
    assert(a@ =~= b@);
    true
}

/// An owned copy of `s`.
pub fn owned(s: &str) -> (r: String)
    ensures
        r@ == s@,
{
    let mut out = String::new();
    out.append(s);
    assert(Seq::<char>::empty() + s@ =~= s@);
    out
}

/// The position of the first string in `list` that holds the characters `s`.
pub open spec fn position_of(list: Seq<Seq<char>>, s: Seq<char>, i: int) -> Option<int>
    decreases list.len() - i,
{
    if i >= list.len() {
        None
    } else if list[i] == s {
        Some(i)
    } else {
        position_of(list, s, i + 1)
    }
}

/// Where `s` first occurs in `list`.
pub fn position(list: &Vec<String>, s: &str) -> (r: Option<usize>)
    ensures
        match r {
            Some(i) => position_of(views(list@), s@, 0) == Some(i as int) && i < list@.len(),
            None => position_of(views(list@), s@, 0) is None,
        },
{
    let mut i: usize = 0;
    while i < list.len()
        invariant
            i <= list@.len(),
            position_of(views(list@), s@, 0) == position_of(views(list@), s@, i as int),
        decreases list@.len() - i,
    {
        if same(list[i].as_str(), s) {
            return Some(i);
        }
        i += 1;
    }
    None
}

/// The first position at which `s` stands in `list`, said without recursion.
pub proof fn lemma_position_of(list: Seq<Seq<char>>, s: Seq<char>, i: int)
    requires
        0 <= i,
    ensures
        match position_of(list, s, i) {
            Some(p) => i <= p < list.len() && list[p] == s && forall|k: int| i <= k < p ==> list[k] != s,
            None => forall|k: int| i <= k < list.len() ==> list[k] != s,
        },
    decreases list.len() - i,
{
    if i < list.len() && list[i] != s {
        lemma_position_of(list, s, i + 1);
    }
}

/// The first `n` characters of `s`, or all of it.
pub open spec fn clip(s: Seq<char>, n: int) -> Seq<char> {
    if n <= 0 {
        Seq::empty()
    } else if n < s.len() {
        s.take(n)
    } else {
        s
    }
}

/// The first `n` characters of `s`, or all of it.
pub fn clipped(s: &str, n: usize) -> (r: String)
    ensures
        r@ == clip(s@, n as int),
{
    let v = chars_of(s);
    let m: usize = if n < v.len() {
        n
    } else {
        v.len()
    };
    let r = string_of(&v, 0, m);
    assert(r@ =~= clip(s@, n as int));
    r
}

/// `n` copies of `c`.
pub open spec fn fill(c: char, n: int) -> Seq<char> {
    Seq::new(
        (if n > 0 {
            n
        } else {
            0
        }) as nat,
        |i: int| c,
    )
}

/// `n` spaces.
pub fn blanks(n: usize) -> (r: String)
    ensures
        r@ == fill(' ', n as int),
{
    let mut out = String::new();
    let mut i: usize = 0;
    while i < n
        invariant
            i <= n,
            out@ == fill(' ', i as int),
        decreases n - i,
    {
        out.push(' ');
        i += 1;
        assert(fill(' ', i as int) =~= fill(' ', i - 1).push(' '));
    }
    out
}

/// How far `a` exceeds `b`, or zero.
pub open spec fn over(a: int, b: int) -> int {
    if a > b {
        a - b
    } else {
        0
    }
}

// ---------------------------------------------------------------------------
// Searching

/// The first position from `i` on that holds `c`, or the length of `s`.
pub open spec fn index_from(s: Seq<char>, c: char, i: int) -> int
    decreases s.len() - i,
{
    if i >= s.len() {
        s.len() as int
    } else if s[i] == c {
        i
    } else {
        index_from(s, c, i + 1)
    }
}

pub proof fn lemma_index_from(s: Seq<char>, c: char, i: int)
    requires
        0 <= i <= s.len(),
    ensures
        i <= index_from(s, c, i) <= s.len(),
        index_from(s, c, i) < s.len() ==> s[index_from(s, c, i)] == c,
        forall|k: int| i <= k < index_from(s, c, i) ==> s[k] != c,
    decreases s.len() - i,
{
    if i < s.len() && s[i] != c {
        lemma_index_from(s, c, i + 1);
    }
}

/// The first position from `from` on that holds `c`, or the length of `v`.
pub fn find(v: &Vec<char>, c: char, from: usize) -> (r: usize)
    requires
        from <= v@.len(),
    ensures
        r == index_from(v@, c, from as int),
        from <= r <= v@.len(),
        r < v@.len() ==> v@[r as int] == c,
{
    let mut i: usize = from;
    while i < v.len() && v[i] != c
        invariant
            from <= i <= v@.len(),
            index_from(v@, c, from as int) == index_from(v@, c, i as int),
        decreases v@.len() - i,
    {
        i += 1;
    }
    i
}

/// What stands before the first `c`: all of `s` where there is none.
pub open spec fn before(s: Seq<char>, c: char) -> Seq<char> {
    s.take(index_from(s, c, 0))
}

/// What stands after the first `c`, if there is one.
pub open spec fn after(s: Seq<char>, c: char) -> Option<Seq<char>> {
    if index_from(s, c, 0) < s.len() {
        Some(s.skip(index_from(s, c, 0) + 1))
    } else {
        None
    }
}

/// What stands before the first `c`: all of `s` where there is none.
pub fn before_char(s: &str, c: char) -> (r: String)
    ensures
        r@ == before(s@, c),
{
    let v = chars_of(s);
    let e: usize = find(&v, c, 0);
    string_of(&v, 0, e)
}

/// What stands after the first `c`, if there is one.
pub fn after_char(s: &str, c: char) -> (r: Option<String>)
    ensures
        match r {
            Some(t) => after(s@, c) == Some(t@),
            None => after(s@, c) is None,
        },
{
    let v = chars_of(s);
    let e: usize = find(&v, c, 0);
    if e < v.len() {
        let t = string_of(&v, e + 1, v.len());
        assert(t@ =~= s@.skip(e + 1));
        Some(t)
    } else {
        None
    }
}

/// Where what follows the last `c` in `s[..i]` starts.
pub open spec fn tail_start(s: Seq<char>, c: char, i: int) -> int
    decreases i,
{
    if i <= 0 {
        0
    } else if s[i - 1] == c {
        i
    } else {
        tail_start(s, c, i - 1)
    }
}

/// What stands after the last `c`: all of `s` where there is none.
pub open spec fn tail(s: Seq<char>, c: char) -> Seq<char> {
    s.skip(tail_start(s, c, s.len() as int))
}

/// Where what follows the last `c` of `v` starts.
pub fn tail_index(v: &Vec<char>, c: char) -> (r: usize)
    ensures
        r == tail_start(v@, c, v@.len() as int),
        r <= v@.len(),
{
    let mut i: usize = v.len();
    while i > 0 && v[i - 1] != c
        invariant
            i <= v@.len(),
            tail_start(v@, c, v@.len() as int) == tail_start(v@, c, i as int),
        decreases i,
    {
        i -= 1;
    }
    i
}

/// What stands after the last `c`: all of `s` where there is none.
pub fn tail_of<'a>(s: &'a str, c: char) -> (r: &'a str)
    ensures
        r@ == tail(s@, c),
{
    let v = chars_of(s);
    let i: usize = tail_index(&v, c);
    let r = s.substring_char(i, v.len());
    assert(r@ =~= tail(s@, c));
    r
}

/// Does `t` stand in `s` at position `i`?
pub open spec fn stands_at(s: Seq<char>, t: Seq<char>, i: int) -> bool {
    0 <= i && i + t.len() <= s.len() && s.subrange(i, i + t.len()) == t
}

/// Does `t` stand in `v` at position `i`?
pub fn at(v: &Vec<char>, t: &Vec<char>, i: usize) -> (r: bool)
    requires
        i <= v@.len(),
    ensures
        r == stands_at(v@, t@, i as int),
{
    if v.len() - i < t.len() {
        return false;
    }
    let mut k: usize = 0;
    while k < t.len()
        invariant
            i + t@.len() <= v.len(),
            k <= t@.len(),
            forall|j: int| 0 <= j < k ==> v@[i + j] == t@[j],
        decreases t@.len() - k,
    {
        if v[i + k] != t[k] {
            proof {
                if stands_at(v@, t@, i as int) {
                    assert(v@.subrange(i as int, i + t@.len())[k as int] == t@[k as int]);
                }
            }
            return false;
        }
        k += 1;
    }
    assert(v@.subrange(i as int, i + t@.len()) =~= t@);
    true
}

/// Does `t` stand anywhere in `s`?
pub open spec fn occurs(s: Seq<char>, t: Seq<char>) -> bool {
    exists|i: int| stands_at(s, t, i)
}

/// Does `t` stand anywhere in `s`?
pub fn contains(s: &str, t: &str) -> (r: bool)
    ensures
        r == occurs(s@, t@),
{
    let v = chars_of(s);
    let w = chars_of(t);
    let mut i: usize = 0;
    loop
        invariant
            v@ == s@,
            w@ == t@,
            i <= v@.len(),
            forall|k: int| 0 <= k < i ==> !stands_at(s@, t@, k),
        decreases v@.len() - i,
    {
        if at(&v, &w, i) {
            return true;
        }
        if i == v.len() {
            assert forall|k: int| !stands_at(s@, t@, k) by {};
            return false;
        }
        i += 1;
    }
}

/// Does `s` begin with `t`?
pub fn starts_with(s: &str, t: &str) -> (r: bool)
    ensures
        r == stands_at(s@, t@, 0),
{
    let v = chars_of(s);
    let w = chars_of(t);
    at(&v, &w, 0)
}

/// Does `s` end with `t`?
pub open spec fn ends(s: Seq<char>, t: Seq<char>) -> bool {
    stands_at(s, t, s.len() - t.len())
}

/// `s` without the `t` that it ends with, if it ends so.
pub fn strip_suffix<'a>(s: &'a str, t: &str) -> (r: Option<&'a str>)
    ensures
        match r {
            Some(p) => ends(s@, t@) && p@ == s@.take(s@.len() - t@.len()),
            None => !ends(s@, t@),
        },
{
    let v = chars_of(s);
    let w = chars_of(t);
    if w.len() > v.len() {
        return None;
    }
    let m: usize = v.len() - w.len();
    if at(&v, &w, m) {
        let p = s.substring_char(0, m);
        assert(p@ =~= s@.take(m as int));
        Some(p)
    } else {
        None
    }
}

/// `s` without the `t` that it begins with, if it begins so.
pub fn strip_prefix<'a>(s: &'a str, t: &str) -> (r: Option<&'a str>)
    ensures
        match r {
            Some(p) => stands_at(s@, t@, 0) && p@ == s@.skip(t@.len() as int),
            None => !stands_at(s@, t@, 0),
        },
{
    let v = chars_of(s);
    let w = chars_of(t);
    if at(&v, &w, 0) {
        let p = s.substring_char(w.len(), v.len());
        assert(p@ =~= s@.skip(w@.len() as int));
        Some(p)
    } else {
        None
    }
}

// ---------------------------------------------------------------------------
// Trimming

/// The first position from `i` on that holds no white space.
pub open spec fn skip_white(s: Seq<char>, i: int) -> int
    decreases s.len() - i,
{
    if i >= s.len() {
        s.len() as int
    } else if white(s[i]) {
        skip_white(s, i + 1)
    } else {
        i
    }
}

/// The first position from `i` on that holds white space.
pub open spec fn skip_word(s: Seq<char>, i: int) -> int
    decreases s.len() - i,
{
    if i >= s.len() {
        s.len() as int
    } else if white(s[i]) {
        i
    } else {
        skip_word(s, i + 1)
    }
}

pub proof fn lemma_skip_white(s: Seq<char>, i: int)
    requires
        0 <= i <= s.len(),
    ensures
        i <= skip_white(s, i) <= s.len(),
        forall|k: int| i <= k < skip_white(s, i) ==> white(s[k]),
        skip_white(s, i) < s.len() ==> !white(s[skip_white(s, i)]),
    decreases s.len() - i,
{
    if i < s.len() && white(s[i]) {
        lemma_skip_white(s, i + 1);
    }
}

pub proof fn lemma_skip_word(s: Seq<char>, i: int)
    requires
        0 <= i <= s.len(),
    ensures
        i <= skip_word(s, i) <= s.len(),
        forall|k: int| i <= k < skip_word(s, i) ==> !white(s[k]),
        skip_word(s, i) < s.len() ==> white(s[skip_word(s, i)]),
    decreases s.len() - i,
{
    if i < s.len() && !white(s[i]) {
        lemma_skip_word(s, i + 1);
    }
}

/// Where the white space that ends `s[..i]` starts.
pub open spec fn white_tail(s: Seq<char>, i: int) -> int
    decreases i,
{
    if i <= 0 {
        0
    } else if white(s[i - 1]) {
        white_tail(s, i - 1)
    } else {
        i
    }
}

pub proof fn lemma_white_tail(s: Seq<char>, i: int)
    requires
        0 <= i <= s.len(),
    ensures
        0 <= white_tail(s, i) <= i,
        forall|k: int| white_tail(s, i) <= k < i ==> white(s[k]),
        white_tail(s, i) > 0 ==> !white(s[white_tail(s, i) - 1]),
    decreases i,
{
    if i > 0 && white(s[i - 1]) {
        lemma_white_tail(s, i - 1);
    }
}

/// `s` without the white space at both ends.
pub open spec fn trim(s: Seq<char>) -> Seq<char> {
    if skip_white(s, 0) <= white_tail(s, s.len() as int) {
        s.subrange(skip_white(s, 0), white_tail(s, s.len() as int))
    } else {
        Seq::empty()
    }
}

/// `s` without the white space at its end.
pub open spec fn trim_end(s: Seq<char>) -> Seq<char> {
    s.take(white_tail(s, s.len() as int))
}

fn next_solid(v: &Vec<char>, from: usize) -> (r: usize)
    requires
        from <= v@.len(),
    ensures
        r == skip_white(v@, from as int),
        from <= r <= v@.len(),
{
    let mut i: usize = from;
    while i < v.len() && is_white(v[i])
        invariant
            from <= i <= v@.len(),
            skip_white(v@, from as int) == skip_white(v@, i as int),
        decreases v@.len() - i,
    {
        i += 1;
    }
    i
}

fn next_white(v: &Vec<char>, from: usize) -> (r: usize)
    requires
        from <= v@.len(),
    ensures
        r == skip_word(v@, from as int),
        from <= r <= v@.len(),
{
    let mut i: usize = from;
    while i < v.len() && !is_white(v[i])
        invariant
            from <= i <= v@.len(),
            skip_word(v@, from as int) == skip_word(v@, i as int),
        decreases v@.len() - i,
    {
        i += 1;
    }
    i
}

fn solid_end(v: &Vec<char>) -> (r: usize)
    ensures
        r == white_tail(v@, v@.len() as int),
        r <= v@.len(),
{
    let mut i: usize = v.len();
    while i > 0 && is_white(v[i - 1])
        invariant
            i <= v@.len(),
            white_tail(v@, v@.len() as int) == white_tail(v@, i as int),
        decreases i,
    {
        i -= 1;
    }
    i
}

/// `s` without the white space at both ends.
pub fn trimmed(s: &str) -> (r: String)
    ensures
        r@ == trim(s@),
{
    let v = chars_of(s);
    let a: usize = next_solid(&v, 0);
    let b: usize = solid_end(&v);
    if a <= b {
        string_of(&v, a, b)
    } else {
        String::new()
    }
}

/// `s` without the white space at its end.
pub fn trimmed_end(s: &str) -> (r: String)
    ensures
        r@ == trim_end(s@),
{
    let v = chars_of(s);
    let b: usize = solid_end(&v);
    string_of(&v, 0, b)
}

/// Where the run of `\n` and `\r` that ends `s[..i]` starts.
pub open spec fn break_tail(s: Seq<char>, i: int) -> int
    decreases i,
{
    if i <= 0 {
        0
    } else if s[i - 1] == '\n' || s[i - 1] == '\r' {
        break_tail(s, i - 1)
    } else {
        i
    }
}

/// `s` without the `\n` and `\r` characters at its end.
pub open spec fn chomp(s: Seq<char>) -> Seq<char> {
    s.take(break_tail(s, s.len() as int))
}

/// `s` without the `\n` and `\r` characters at its end.
pub fn chomped(s: &str) -> (r: String)
    ensures
        r@ == chomp(s@),
{
    let v = chars_of(s);
    let mut i: usize = v.len();
    while i > 0 && (v[i - 1] == '\n' || v[i - 1] == '\r')
        invariant
            i <= v@.len(),
            break_tail(v@, v@.len() as int) == break_tail(v@, i as int),
        decreases i,
    {
        i -= 1;
    }
    string_of(&v, 0, i)
}

/// Where the run of `c` that ends `s[..i]` starts.
pub open spec fn run_tail(s: Seq<char>, c: char, i: int) -> int
    decreases i,
{
    if i <= 0 {
        0
    } else if s[i - 1] == c {
        run_tail(s, c, i - 1)
    } else {
        i
    }
}

/// `s` without every `c` at its end.
pub fn without_tail(s: &str, c: char) -> (r: String)
    ensures
        r@ == s@.take(run_tail(s@, c, s@.len() as int)),
{
    let v = chars_of(s);
    let mut i: usize = v.len();
    while i > 0 && v[i - 1] == c
        invariant
            i <= v@.len(),
            run_tail(v@, c, v@.len() as int) == run_tail(v@, c, i as int),
        decreases i,
    {
        i -= 1;
    }
    string_of(&v, 0, i)
}

/// Where the run of `c` that starts at `i` ends.
pub open spec fn run_end(s: Seq<char>, c: char, i: int) -> int
    decreases s.len() - i,
{
    if i >= s.len() {
        s.len() as int
    } else if s[i] == c {
        run_end(s, c, i + 1)
    } else {
        i
    }
}

pub proof fn lemma_run_end(s: Seq<char>, c: char, i: int)
    requires
        0 <= i <= s.len(),
    ensures
        i <= run_end(s, c, i) <= s.len(),
    decreases s.len() - i,
{
    if i < s.len() && s[i] == c {
        lemma_run_end(s, c, i + 1);
    }
}

/// `s` without every `c` at its start.
pub open spec fn unled(s: Seq<char>, c: char) -> Seq<char> {
    s.skip(run_end(s, c, 0))
}

/// `s` without every `c` at its start.
pub fn without_lead(s: &str, c: char) -> (r: String)
    ensures
        r@ == unled(s@, c),
{
    let v = chars_of(s);
    let mut i: usize = 0;
    while i < v.len() && v[i] == c
        invariant
            i <= v@.len(),
            run_end(v@, c, 0) == run_end(v@, c, i as int),
        decreases v@.len() - i,
    {
        i += 1;
    }
    let r = string_of(&v, i, v.len());
    assert(r@ =~= unled(s@, c));
    r
}

// ---------------------------------------------------------------------------
// Cutting into pieces

/// A line without the `\r` that stood before its `\n`.
pub open spec fn uncarried(line: Seq<char>) -> Seq<char> {
    if line.len() > 0 && line.last() == '\r' {
        line.drop_last()
    } else {
        line
    }
}

/// The lines of `s` from position `i` on, without their line ends.
pub open spec fn lines_from(s: Seq<char>, i: int) -> Seq<Seq<char>>
    decreases s.len() - i,
{
    if i < 0 || i >= s.len() {
        Seq::empty()
    } else {
        let e = index_from(s, '\n', i);
        proof {
            lemma_index_from(s, '\n', i);
        }
        if e >= s.len() {
            seq![s.subrange(i, s.len() as int)]
        } else {
            seq![uncarried(s.subrange(i, e))] + lines_from(s, e + 1)
        }
    }
}

/// The lines of `s`: it is cut at each `\n` and `\r\n`, and nothing follows the
/// last line end.
pub open spec fn lines(s: Seq<char>) -> Seq<Seq<char>> {
    lines_from(s, 0)
}

proof fn lemma_step<A>(a: Seq<A>, x: A, b: Seq<A>)
    ensures
        a.push(x) + b == a + (seq![x] + b),
{
    assert(a.push(x) + b =~= a + (seq![x] + b));
}

proof fn lemma_views_push(v: Seq<String>, x: String)
    ensures
        views(v.push(x)) == views(v).push(x@),
{
    assert(views(v.push(x)) =~= views(v).push(x@));
}

/// The lines of `s`.
pub fn lines_of(s: &str) -> (r: Vec<String>)
    ensures
        views(r@) == lines(s@),
{
    let v = chars_of(s);
    let mut out: Vec<String> = Vec::new();
    let mut i: usize = 0;
    assert(views(out@) + lines_from(v@, 0) =~= lines_from(v@, 0));
    while i < v.len()
        invariant
            v@ == s@,
            i <= v@.len(),
            views(out@) + lines_from(v@, i as int) == lines(s@),
        decreases v@.len() - i,
    {
        let e: usize = find(&v, '\n', i);
        let ghost was = out@;
        if e == v.len() {
            let last = string_of(&v, i, e);
            out.push(last);
            proof {
                lemma_views_push(was, last);
                assert(lines_from(v@, i as int) == seq![last@]);
                assert(views(out@) + lines_from(v@, e as int) =~= views(was) + seq![last@]);
            }
            i = e;
        } else {
            let to: usize = if e > i && v[e - 1] == '\r' {
                e - 1
            } else {
                e
            };
            let line = string_of(&v, i, to);
            assert(line@ =~= uncarried(v@.subrange(i as int, e as int)));
            out.push(line);
            proof {
                lemma_views_push(was, line);
                lemma_step(views(was), line@, lines_from(v@, e + 1));
            }
            i = e + 1;
        }
    }
    assert(views(out@) + lines_from(v@, i as int) =~= views(out@));
    out
}

/// The lines of a text that ends with a line end and of what follows it are the
/// lines of both.
pub proof fn lemma_lines_of_two(a: Seq<char>, b: Seq<char>, i: int)
    requires
        a.len() > 0,
        a.last() == '\n',
        0 <= i <= a.len(),
    ensures
        lines_from(a + b, i) == lines_from(a, i) + lines_from(b, 0),
    decreases a.len() - i,
{
    let s = a + b;
    if i == a.len() {
        lemma_lines_shift(a, b, 0);
        assert(lines_from(a, i) + lines_from(b, 0) =~= lines_from(b, 0));
    } else {
        lemma_index_from(a, '\n', i);
        lemma_index_of_two(a, b, '\n', i);
        let e = index_from(a, '\n', i);
        assert(e < a.len()) by {
            if e == a.len() {
                assert(a[a.len() - 1] != '\n');
            }
        }
        assert(s.subrange(i, e) =~= a.subrange(i, e));
        lemma_lines_of_two(a, b, e + 1);
        assert(lines_from(s, i) =~= lines_from(a, i) + lines_from(b, 0));
    }
}

proof fn lemma_index_of_two(a: Seq<char>, b: Seq<char>, c: char, i: int)
    requires
        0 <= i <= a.len(),
    ensures
        index_from(a, c, i) < a.len() ==> index_from(a + b, c, i) == index_from(a, c, i),
    decreases a.len() - i,
{
    if i < a.len() && a[i] != c {
        lemma_index_of_two(a, b, c, i + 1);
    }
}

pub proof fn lemma_index_shifts(a: Seq<char>, b: Seq<char>, c: char, i: int)
    requires
        0 <= i <= b.len(),
    ensures
        index_from(a + b, c, a.len() + i) == a.len() + index_from(b, c, i),
    decreases b.len() - i,
{
    if i < b.len() {
        assert((a + b)[a.len() + i] == b[i]);
        lemma_index_shifts(a, b, c, i + 1);
    }
}

proof fn lemma_lines_shift(a: Seq<char>, b: Seq<char>, i: int)
    requires
        0 <= i <= b.len(),
    ensures
        lines_from(a + b, a.len() + i) == lines_from(b, i),
    decreases b.len() - i,
{
    if i < b.len() {
        lemma_index_shifts(a, b, '\n', i);
        lemma_index_from(b, '\n', i);
        let e = index_from(b, '\n', i);
        let n = a.len() as int;
        assert((a + b).subrange(n + i, n + e) =~= b.subrange(i, e));
        if e < b.len() {
            lemma_lines_shift(a, b, e + 1);
        } else {
            assert((a + b).subrange(n + i, (a + b).len() as int) =~= b.subrange(i, b.len() as int));
        }
    }
}

/// The pieces of `s` from position `i` on, cut at `c`, at most `n` of them: the
/// last piece holds what is left.
pub open spec fn pieces_from(s: Seq<char>, c: char, i: int, n: int) -> Seq<Seq<char>>
    decreases n,
{
    if n <= 0 {
        Seq::empty()
    } else {
        let e = index_from(s, c, i);
        if n == 1 || e >= s.len() {
            seq![s.subrange(i, s.len() as int)]
        } else {
            seq![s.subrange(i, e)] + pieces_from(s, c, e + 1, n - 1)
        }
    }
}

/// `s` cut at its first `n - 1` occurrences of `c`.
pub open spec fn pieces(s: Seq<char>, c: char, n: int) -> Seq<Seq<char>> {
    pieces_from(s, c, 0, n)
}

/// `s` cut at every `c`.
pub open spec fn split(s: Seq<char>, c: char) -> Seq<Seq<char>> {
    pieces_from(s, c, 0, s.len() as int + 1)
}

/// `s` cut at its first `n - 1` occurrences of `c`.
pub fn pieces_of(s: &str, c: char, n: usize) -> (r: Vec<String>)
    ensures
        views(r@) == pieces(s@, c, n as int),
{
    let v = chars_of(s);
    let mut out: Vec<String> = Vec::new();
    let mut i: usize = 0;
    let mut left: usize = n;
    assert(views(out@) + pieces_from(v@, c, 0, n as int) =~= pieces_from(v@, c, 0, n as int));
    while left > 0
        invariant
            v@ == s@,
            i <= v@.len(),
            views(out@) + pieces_from(v@, c, i as int, left as int) == pieces(s@, c, n as int),
        decreases left,
    {
        let e: usize = find(&v, c, i);
        let ghost was = out@;
        if left == 1 || e == v.len() {
            let last = string_of(&v, i, v.len());
            out.push(last);
            proof {
                lemma_views_push(was, last);
                assert(views(was) + seq![last@] =~= views(out@));
            }
            return out;
        }
        let piece = string_of(&v, i, e);
        out.push(piece);
        proof {
            lemma_views_push(was, piece);
            lemma_step(
                views(was),
                piece@,
                pieces_from(v@, c, e + 1, left - 1),
            );
        }
        i = e + 1;
        left -= 1;
    }
    assert(views(out@) + pieces_from(v@, c, i as int, 0) =~= views(out@));
    out
}

pub proof fn lemma_pieces_enough(s: Seq<char>, c: char, i: int, n: int, m: int)
    requires
        0 <= i <= s.len(),
        n > s.len() - i,
        m > s.len() - i,
    ensures
        pieces_from(s, c, i, n) == pieces_from(s, c, i, m),
    decreases s.len() - i,
{
    lemma_index_from(s, c, i);
    let e = index_from(s, c, i);
    if e < s.len() {
        lemma_pieces_enough(s, c, e + 1, n - 1, m - 1);
    } else {
        assert(pieces_from(s, c, i, n) =~= seq![s.subrange(i, s.len() as int)]);
        assert(pieces_from(s, c, i, m) =~= seq![s.subrange(i, s.len() as int)]);
    }
}

/// `s` cut at every `c`.
pub fn split_of(s: &str, c: char) -> (r: Vec<String>)
    ensures
        views(r@) == split(s@, c),
{
    let v = chars_of(s);
    let mut out: Vec<String> = Vec::new();
    let mut i: usize = 0;
    assert(views(out@) + pieces_from(v@, c, 0, v@.len() as int + 1) =~= split(s@, c));
    loop
        invariant
            v@ == s@,
            i <= v@.len(),
            views(out@) + pieces_from(v@, c, i as int, v@.len() + 1 - i) == split(s@, c),
        decreases v@.len() - i,
    {
        let e: usize = find(&v, c, i);
        let ghost was = out@;
        if e == v.len() {
            let last = string_of(&v, i, e);
            out.push(last);
            proof {
                lemma_views_push(was, last);
                assert(views(was) + seq![last@] =~= views(out@));
            }
            return out;
        }
        let piece = string_of(&v, i, e);
        out.push(piece);
        proof {
            lemma_views_push(was, piece);
            lemma_pieces_enough(v@, c, e + 1, v@.len() - i, v@.len() + 1 - (e + 1));
            lemma_step(
                views(was),
                piece@,
                pieces_from(v@, c, e + 1, v@.len() + 1 - (e + 1)),
            );
        }
        i = e + 1;
    }
}

/// The words of `s` from position `i` on: the runs between white space.
pub open spec fn words_from(s: Seq<char>, i: int) -> Seq<Seq<char>>
    decreases s.len() - i,
{
    if i < 0 || i > s.len() {
        Seq::empty()
    } else {
        let a = skip_white(s, i);
        let b = skip_word(s, a);
        proof {
            lemma_skip_white(s, i);
            lemma_skip_word(s, a);
        }
        if a >= s.len() {
            Seq::empty()
        } else {
            seq![s.subrange(a, b)] + words_from(s, b)
        }
    }
}

/// The words of `s`: the runs between white space.
pub open spec fn words(s: Seq<char>) -> Seq<Seq<char>> {
    words_from(s, 0)
}

/// The words of `s`.
pub fn words_of(s: &str) -> (r: Vec<String>)
    ensures
        views(r@) == words(s@),
{
    let v = chars_of(s);
    let mut out: Vec<String> = Vec::new();
    let mut i: usize = 0;
    assert(views(out@) + words_from(v@, 0) =~= words_from(v@, 0));
    loop
        invariant
            v@ == s@,
            i <= v@.len(),
            views(out@) + words_from(v@, i as int) == words(s@),
        decreases v@.len() - i,
    {
        let a: usize = next_solid(&v, i);
        if a == v.len() {
            assert(views(out@) + words_from(v@, i as int) =~= views(out@));
            return out;
        }
        let b: usize = next_white(&v, a);
        let ghost was = out@;
        let word = string_of(&v, a, b);
        out.push(word);
        proof {
            lemma_skip_white(v@, i as int);
            lemma_skip_word(v@, a as int);
            lemma_views_push(was, word);
            lemma_step(views(was), word@, words_from(v@, b as int));
        }
        i = b;
    }
}

/// The strings of `list` with `sep` between them.
pub open spec fn join(list: Seq<Seq<char>>, sep: Seq<char>) -> Seq<char>
    decreases list.len(),
{
    if list.len() == 0 {
        Seq::empty()
    } else if list.len() == 1 {
        list[0]
    } else {
        join(list.drop_last(), sep) + sep + list.last()
    }
}

/// The strings `list[from..]` with `sep` between them.
pub fn join_from(list: &Vec<String>, from: usize, sep: &str) -> (r: String)
    requires
        from <= list@.len(),
    ensures
        r@ == join(views(list@).skip(from as int), sep@),
{
    let ghost all = views(list@).skip(from as int);
    let mut out = String::new();
    let mut i: usize = from;
    while i < list.len()
        invariant
            all == views(list@).skip(from as int),
            from <= i <= list@.len(),
            out@ == join(all.take(i - from), sep@),
        decreases list@.len() - i,
    {
        let ghost head = all.take(i + 1 - from);
        assert(head.drop_last() =~= all.take(i - from));
        assert(head.last() == list@[i as int]@);
        if i > from {
            out.append(sep);
        } else {
            assert(Seq::<char>::empty() + list@[i as int]@ =~= list@[i as int]@);
        }
        out.append(list[i].as_str());
        i += 1;
    }
    assert(all.take(list@.len() - from) =~= all);
    out
}

// ---------------------------------------------------------------------------
// Replacing

/// `s` from position `i` on, with each `t` met from the left replaced by `u`.
pub open spec fn replace_from(s: Seq<char>, t: Seq<char>, u: Seq<char>, i: int) -> Seq<char>
    decreases s.len() - i,
{
    if i < 0 || i >= s.len() {
        Seq::empty()
    } else if t.len() > 0 && stands_at(s, t, i) {
        u + replace_from(s, t, u, i + t.len())
    } else {
        seq![s[i]] + replace_from(s, t, u, i + 1)
    }
}

/// `s` with each `t`, met from the left without overlap, replaced by `u`.
pub open spec fn replace(s: Seq<char>, t: Seq<char>, u: Seq<char>) -> Seq<char> {
    replace_from(s, t, u, 0)
}

/// `s` with each `t`, met from the left without overlap, replaced by `u`.
pub fn replaced(s: &str, t: &str, u: &str) -> (r: String)
    requires
        t@.len() > 0,
    ensures
        r@ == replace(s@, t@, u@),
{
    let v = chars_of(s);
    let w = chars_of(t);
    let mut out = String::new();
    let mut i: usize = 0;
    assert(out@ + replace_from(v@, w@, u@, 0) =~= replace(s@, t@, u@));
    while i < v.len()
        invariant
            v@ == s@,
            w@ == t@,
            w@.len() > 0,
            i <= v@.len(),
            out@ + replace_from(v@, w@, u@, i as int) == replace(s@, t@, u@),
        decreases v@.len() - i,
    {
        let ghost was = out@;
        if at(&v, &w, i) {
            out.append(u);
            assert(out@ + replace_from(v@, w@, u@, i + w@.len()) =~= was + (u@ + replace_from(
                v@,
                w@,
                u@,
                i + w@.len(),
            )));
            i += w.len();
        } else {
            out.push(v[i]);
            proof {
                lemma_step(was, v@[i as int], replace_from(v@, w@, u@, i + 1));
            }
            i += 1;
        }
    }
    assert(out@ + replace_from(v@, w@, u@, i as int) =~= out@);
    out
}

/// `s` with every `a` turned into `b`.
pub open spec fn recolour(s: Seq<char>, a: char, b: char) -> Seq<char> {
    s.map_values(
        |c: char|
            if c == a {
                b
            } else {
                c
            },
    )
}

/// `s` with every `a` turned into `b`.
pub fn swapped(s: &str, a: char, b: char) -> (r: String)
    ensures
        r@ == recolour(s@, a, b),
{
    let v = chars_of(s);
    let mut out = String::new();
    let mut i: usize = 0;
    while i < v.len()
        invariant
            v@ == s@,
            i <= v@.len(),
            out@ == recolour(s@, a, b).take(i as int),
        decreases v@.len() - i,
    {
        if v[i] == a {
            out.push(b);
        } else {
            out.push(v[i]);
        }
        i += 1;
        assert(recolour(s@, a, b).take(i as int) =~= recolour(s@, a, b).take(i - 1).push(
            recolour(s@, a, b)[i - 1],
        ));
    }
    assert(recolour(s@, a, b).take(i as int) =~= recolour(s@, a, b));
    out
}

/// `s` without its control characters.
pub open spec fn printable(s: Seq<char>) -> Seq<char> {
    s.filter(|c: char| !control(c))
}

/// `s` without its control characters.
pub fn printable_of(s: &str) -> (r: String)
    ensures
        r@ == printable(s@),
{
    let v = chars_of(s);
    let mut out = String::new();
    let mut i: usize = 0;
    let ghost keep = |c: char| !control(c);
    assert(v@.take(0).filter(keep) =~= Seq::<char>::empty()) by {
        reveal(Seq::filter);
    }
    while i < v.len()
        invariant
            v@ == s@,
            keep == (|c: char| !control(c)),
            i <= v@.len(),
            out@ == v@.take(i as int).filter(keep),
        decreases v@.len() - i,
    {
        proof {
            reveal(Seq::filter);
            assert(v@.take(i + 1).drop_last() =~= v@.take(i as int));
        }
        if !is_control(v[i]) {
            out.push(v[i]);
        }
        i += 1;
    }
    assert(v@.take(i as int) =~= v@);
    out
}

// ---------------------------------------------------------------------------
// Numbers

/// The digit for `d`.
pub open spec fn figure(d: int) -> char {
    ('0' as u8 + d) as char
}

/// `n` in decimal.
pub open spec fn decimal(n: nat) -> Seq<char>
    decreases n,
{
    if n < 10 {
        seq![figure(n as int)]
    } else {
        decimal(n / 10).push(figure((n % 10) as int))
    }
}

/// Appends `n` in decimal to `out`.
pub fn append_decimal(out: &mut String, n: u64)
    ensures
        final(out)@ == old(out)@ + decimal(n as nat),
    decreases n,
{
    let ghost was = out@;
    let d: u8 = (n % 10) as u8;
    if n >= 10 {
        append_decimal(out, n / 10);
    } else {
        assert(was + Seq::<char>::empty() =~= was);
    }
    out.push((48u8 + d) as char);
    assert(out@ =~= was + decimal(n as nat));
}

/// `n` in decimal.
pub fn decimal_of(n: u64) -> (r: String)
    ensures
        r@ == decimal(n as nat),
{
    let mut out = String::new();
    append_decimal(&mut out, n);
    assert(Seq::<char>::empty() + decimal(n as nat) =~= decimal(n as nat));
    out
}

/// The value of a run of digits.
pub open spec fn value(s: Seq<char>) -> nat
    decreases s.len(),
{
    if s.len() == 0 {
        0
    } else {
        value(s.drop_last()) * 10 + (s.last() as nat - '0' as nat) as nat
    }
}

/// Is `s` made of digits?
pub open spec fn digits(s: Seq<char>) -> bool {
    forall|i: int| 0 <= i < s.len() ==> digit(#[trigger] s[i])
}

/// A numeral without the plus sign that it may start with.
pub open spec fn unsigned(s: Seq<char>) -> Seq<char> {
    if s.len() > 0 && s[0] == '+' {
        s.skip(1)
    } else {
        s
    }
}

/// The number that `s` stands for: one or more digits, behind a plus sign or
/// not, whose value is at most `max`.
pub open spec fn number(s: Seq<char>, max: nat) -> Option<nat> {
    let t = unsigned(s);
    if t.len() > 0 && digits(t) && value(t) <= max {
        Some(value(t))
    } else {
        None
    }
}

proof fn lemma_value_grows(s: Seq<char>, n: int)
    requires
        digits(s),
        0 <= n <= s.len(),
    ensures
        value(s.take(n)) <= value(s),
    decreases s.len(),
{
    if n == s.len() {
        assert(s.take(n) =~= s);
    } else {
        assert(s.drop_last().take(n) =~= s.take(n));
        assert forall|i: int| 0 <= i < s.drop_last().len() implies digit(
            #[trigger] s.drop_last()[i],
        ) by {
            assert(digit(s[i]));
        }
        lemma_value_grows(s.drop_last(), n);
    }
}

/// The number that `s` stands for, if it does for one of at most `max`.
pub fn parse_number(s: &str, max: u64) -> (r: Option<u64>)
    ensures
        match r {
            Some(n) => number(s@, max as nat) == Some(n as nat),
            None => number(s@, max as nat) is None,
        },
{
    let v = chars_of(s);
    let start: usize = if v.len() > 0 && v[0] == '+' {
        1
    } else {
        0
    };
    let ghost t = unsigned(s@);
    assert(t =~= v@.skip(start as int));
    if start == v.len() {
        return None;
    }
    let mut n: u64 = 0;
    let mut i: usize = start;
    while i < v.len()
        invariant
            t == v@.skip(start as int),
            t == unsigned(s@),
            start <= i <= v@.len(),
            start < v@.len(),
            n == value(t.take(i - start)),
            n <= max,
            forall|k: int| 0 <= k < i - start ==> digit(#[trigger] t[k]),
        decreases v@.len() - i,
    {
        let c: char = v[i];
        assert(t[i - start] == c);
        if !('0' <= c && c <= '9') {
            return None;
        }
        let d: u64 = c as u64 - 48;
        proof {
            assert(t.take(i + 1 - start).drop_last() =~= t.take(i - start));
            assert(t.take(i + 1 - start).last() == c);
            assert(value(t.take(i + 1 - start)) == n * 10 + d);
            if digits(t) {
                lemma_value_grows(t, i + 1 - start);
            }
        }
        if n > max / 10 {
            assert(n * 10 > max) by {
                assert(max / 10 * 10 + max % 10 == max);
            }
            return None;
        }
        if d > max - n * 10 {
            return None;
        }
        n = n * 10 + d;
        i += 1;
    }
    assert(t.take(i - start) =~= t);
    Some(n)
}

proof fn lemma_decimal(n: nat)
    ensures
        decimal(n).len() > 0,
        digits(decimal(n)),
        value(decimal(n)) == n,
        decimal(n)[0] != '+',
    decreases n,
{
    if n < 10 {
        assert(decimal(n).drop_last() =~= Seq::<char>::empty());
        assert(value(Seq::<char>::empty()) == 0);
    } else {
        lemma_decimal(n / 10);
        assert(decimal(n).drop_last() =~= decimal(n / 10));
        assert forall|i: int| 0 <= i < decimal(n).len() implies digit(#[trigger] decimal(n)[i]) by {
            if i < decimal(n / 10).len() {
                assert(digit(decimal(n / 10)[i]));
            }
        }
    }
}

/// Reading back a number that was written in decimal gives the number.
pub proof fn decimal_reads_back(n: nat, max: nat)
    requires
        n <= max,
    ensures
        number(decimal(n), max) == Some(n),
{
    lemma_decimal(n);
}

} // verus!
