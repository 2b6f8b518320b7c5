//! The preserved panes: how they are measured, kept one to a window and at one
//! width, and which of them are in sight.

use crate::text;
use vstd::prelude::*;
use vstd::string::*;

verus! {

/// The command that lists the preserved panes.
pub const LIST_MIRRORS: &'static str =
    "list-panes -a -f '#{==:#{pane_title},agents-mon}' -F '#{pane_id}\t#{window_id}\t#{pane_width}\t#{pane_height}\t#{window_width} #{window_height}\t#{window_panes}\t#{window_active}\t#{session_id}'";

/// The command that reads the width that the sidebars should have.
pub const SHOW_WIDTH: &'static str = "show-option -gqv @agents-mon-width";

/// One preserved pane as measured.
pub struct M {
    pub pane: String,
    pub win: String,
    pub sess: String,
    pub w: usize,
    pub h: usize,
    pub win_size: (usize, usize),
    pub panes: usize,
    pub active: bool,
}

/// What a measurement says of a pane.
#[verifier::ext_equal]
pub struct Mirror {
    pub pane: Seq<char>,
    pub win: Seq<char>,
    pub sess: Seq<char>,
    pub w: int,
    pub h: int,
    pub win_size: (int, int),
    pub panes: int,
    pub active: bool,
}

impl View for M {
    type V = Mirror;

    open spec fn view(&self) -> Mirror {
        Mirror {
            pane: self.pane@,
            win: self.win@,
            sess: self.sess@,
            w: self.w as int,
            h: self.h as int,
            win_size: (self.win_size.0 as int, self.win_size.1 as int),
            panes: self.panes as int,
            active: self.active,
        }
    }
}

/// What a list of measurements says.
pub open spec fn mirrors(ms: Seq<M>) -> Seq<Mirror> {
    ms.map_values(|m: M| m@)
}

proof fn lemma_mirrors_push(ms: Seq<M>, m: M)
    ensures
        mirrors(ms.push(m)) == mirrors(ms).push(m@),
{
    assert(mirrors(ms.push(m)) =~= mirrors(ms).push(m@));
}

impl M {
    /// A copy of the measurement with another width.
    fn at_width(&self, w: usize) -> (r: M)
        ensures
            r@ == (Mirror { w: w as int, ..self@ }),
    {
        M {
            pane: self.pane.clone(),
            win: self.win.clone(),
            sess: self.sess.clone(),
            w,
            h: self.h,
            win_size: self.win_size,
            panes: self.panes,
            active: self.active,
        }
    }
}

// ---------------------------------------------------------------------------
// Reading the measurements

/// The number that a field says.
pub open spec fn size_said(s: Seq<char>) -> Option<nat> {
    text::number(s, usize::MAX as nat)
}

/// The measurement that a line says: eight fields, with numbers where they are
/// due.
pub open spec fn mirror_on(line: Seq<char>) -> Option<Mirror> {
    let f = text::split(line, '\t');
    if f.len() != 8 {
        None
    } else {
        match (size_said(f[2]), size_said(f[3]), size_said(f[5]), text::after(f[4], ' ')) {
            (Some(w), Some(h), Some(panes), Some(height)) => match (
                size_said(text::before(f[4], ' ')),
                size_said(height),
            ) {
                (Some(ww), Some(wh)) => Some(
                    Mirror {
                        pane: f[0],
                        win: f[1],
                        sess: f[7],
                        w: w as int,
                        h: h as int,
                        win_size: (ww as int, wh as int),
                        panes: panes as int,
                        active: f[6] == "1"@,
                    },
                ),
                _ => None,
            },
            _ => None,
        }
    }
}

/// The measurements that the lines say; a line that says none is passed over.
pub open spec fn mirrors_on(lines: Seq<Seq<char>>) -> Seq<Mirror>
    decreases lines.len(),
{
    if lines.len() == 0 {
        Seq::empty()
    } else {
        match mirror_on(lines.last()) {
            Some(m) => mirrors_on(lines.drop_last()).push(m),
            None => mirrors_on(lines.drop_last()),
        }
    }
}

fn parse_size(s: &str) -> (r: Option<usize>)
    ensures
        match r {
            Some(n) => size_said(s@) == Some(n as nat),
            None => size_said(s@) is None,
        },
{
    match text::parse_number(s, usize::MAX as u64) {
        Some(n) => Some(n as usize),
        None => None,
    }
}

fn parse_mirror(line: &str) -> (r: Option<M>)
    ensures
        match r {
            Some(m) => mirror_on(line@) == Some(m@),
            None => mirror_on(line@) is None,
        },
{
    let f = text::split_of(line, '\t');
    let ghost all = text::split(line@, '\t');
    assert(all == text::views(f@));
    if f.len() != 8 {
        return None;
    }
    assert forall|k: int| 0 <= k < 8 implies all[k] == #[trigger] f@[k]@ by {}
    let height = match text::after_char(f[4].as_str(), ' ') {
        Some(b) => b,
        None => {
            return None;
        },
    };
    let width = text::before_char(f[4].as_str(), ' ');
    match (
        parse_size(f[2].as_str()),
        parse_size(f[3].as_str()),
        parse_size(f[5].as_str()),
        parse_size(width.as_str()),
        parse_size(height.as_str()),
    ) {
        (Some(w), Some(h), Some(panes), Some(ww), Some(wh)) => Some(
            M {
                pane: f[0].clone(),
                win: f[1].clone(),
                sess: f[7].clone(),
                w,
                h,
                win_size: (ww, wh),
                panes,
                active: text::same(f[6].as_str(), "1"),
            },
        ),
        _ => None,
    }
}

/// The measurements, out of tmux's list of the preserved panes.
pub fn parse_mirrors(list: &str) -> (r: Vec<M>)
    ensures
        mirrors(r@) == mirrors_on(text::lines(list@)),
{
    let lines = text::lines_of(list);
    let ghost all = text::lines(list@);
    let mut out: Vec<M> = Vec::new();
    let mut i: usize = 0;
    assert(mirrors(out@) =~= Seq::<Mirror>::empty());
    while i < lines.len()
        invariant
            all == text::views(lines@),
            i <= lines@.len(),
            mirrors(out@) == mirrors_on(all.take(i as int)),
        decreases lines@.len() - i,
    {
        proof {
            assert(all.take(i + 1).drop_last() =~= all.take(i as int));
            assert(all.take(i + 1).last() == lines@[i as int]@);
        }
        match parse_mirror(lines[i].as_str()) {
            Some(m) => {
                proof {
                    lemma_mirrors_push(out@, m);
                }
                out.push(m);
            },
            None => {},
        }
        i += 1;
    }
    assert(all.take(i as int) =~= all);
    out
}

/// The width that an option's value asks for: thirty where it says none.
pub open spec fn width_said(value: Option<Seq<char>>) -> nat {
    match value {
        Some(s) => match size_said(text::trim(s)) {
            Some(n) => n,
            None => 30,
        },
        None => 30,
    }
}

/// The width that the option asks for.
pub fn asked_width(value: Option<&str>) -> (r: usize)
    ensures
        r == width_said(
            match value {
                Some(s) => Some(s@),
                None => None,
            },
        ),
{
    match value {
        Some(s) => {
            let t = text::trimmed(s);
            match parse_size(t.as_str()) {
                Some(n) => n,
                None => 30,
            }
        },
        None => 30,
    }
}

// ---------------------------------------------------------------------------
// The height of the frame

/// The first pane from the `i`-th on in the active window of the session.
pub open spec fn watched(ms: Seq<Mirror>, sess: Seq<char>, i: int) -> Option<int>
    decreases ms.len() - i,
{
    if i >= ms.len() {
        None
    } else if ms[i].active && ms[i].sess == sess {
        Some(i)
    } else {
        watched(ms, sess, i + 1)
    }
}

/// The greatest height, of all panes or of those in active windows alone.
pub open spec fn tallest(ms: Seq<Mirror>, active_only: bool) -> Option<int>
    decreases ms.len(),
{
    if ms.len() == 0 {
        None
    } else {
        let rest = tallest(ms.drop_last(), active_only);
        let m = ms.last();
        if active_only && !m.active {
            rest
        } else {
            match rest {
                Some(h) => Some(
                    if h > m.h {
                        h
                    } else {
                        m.h
                    },
                ),
                None => Some(m.h),
            }
        }
    }
}

/// The height to draw for: that of the pane the user watches, else of the
/// tallest in an active window, else of the tallest.
pub open spec fn frame_height(ms: Seq<Mirror>, active_session: Seq<char>) -> int {
    match watched(ms, active_session, 0) {
        Some(i) => ms[i].h,
        None => match tallest(ms, true) {
            Some(h) => h,
            None => match tallest(ms, false) {
                Some(h) => h,
                None => 24,
            },
        },
    }
}

fn tallest_of(ms: &Vec<M>, active_only: bool) -> (r: Option<usize>)
    ensures
        match r {
            Some(h) => tallest(mirrors(ms@), active_only) == Some(h as int),
            None => tallest(mirrors(ms@), active_only) is None,
        },
{
    let ghost all = mirrors(ms@);
    let mut best: Option<usize> = None;
    let mut i: usize = 0;
    while i < ms.len()
        invariant
            all == mirrors(ms@),
            i <= ms@.len(),
            match best {
                Some(h) => tallest(all.take(i as int), active_only) == Some(h as int),
                None => tallest(all.take(i as int), active_only) is None,
            },
        decreases ms@.len() - i,
    {
        proof {
            assert(all.take(i + 1).drop_last() =~= all.take(i as int));
            assert(all.take(i + 1).last() == ms@[i as int]@);
        }
        if !active_only || ms[i].active {
            let h: usize = ms[i].h;
            best = match best {
                Some(b) => Some(
                    if b > h {
                        b
                    } else {
                        h
                    },
                ),
                None => Some(h),
            };
        }
        i += 1;
    }
    assert(all.take(i as int) =~= all);
    best
}

/// The height to draw for. It is not the least: every pane in sight shows the
/// same frame, and one short window that nobody looks at would clip the list
/// everywhere.
pub fn watched_height(ms: &Vec<M>, active_session: &str) -> (r: usize)
    ensures
        r == frame_height(mirrors(ms@), active_session@),
{
    let ghost all = mirrors(ms@);
    let mut i: usize = 0;
    while i < ms.len()
        invariant
            all == mirrors(ms@),
            i <= ms@.len(),
            watched(all, active_session@, 0) == watched(all, active_session@, i as int),
        decreases ms@.len() - i,
    {
        assert(all[i as int] == ms@[i as int]@);
        if ms[i].active && text::same(ms[i].sess.as_str(), active_session) {
            return ms[i].h;
        }
        i += 1;
    }
    match tallest_of(ms, true) {
        Some(h) => h,
        None => match tallest_of(ms, false) {
            Some(h) => h,
            None => 24,
        },
    }
}

/// While the user watches a pane, no other pane has a say in the height.
pub proof fn only_the_watched_pane_counts(ms: Seq<Mirror>, sess: Seq<char>, i: int)
    requires
        0 <= i < ms.len(),
        ms[i].active,
        ms[i].sess == sess,
        forall|j: int|
            0 <= j < ms.len() && j != i ==> !((#[trigger] ms[j]).active && ms[j].sess == sess),
    ensures
        frame_height(ms, sess) == ms[i].h,
{
    lemma_watched(ms, sess, 0);
}

proof fn lemma_watched(ms: Seq<Mirror>, sess: Seq<char>, i: int)
    requires
        0 <= i,
    ensures
        match watched(ms, sess, i) {
            Some(k) => i <= k < ms.len() && ms[k].active && ms[k].sess == sess,
            None => forall|k: int|
                i <= k < ms.len() ==> !((#[trigger] ms[k]).active && ms[k].sess == sess),
        },
    decreases ms.len() - i,
{
    if i < ms.len() && !(ms[i].active && ms[i].sess == sess) {
        lemma_watched(ms, sess, i + 1);
    }
}

// ---------------------------------------------------------------------------
// The width of the frame

/// The least width.
pub open spec fn narrowest(ms: Seq<Mirror>) -> int
    decreases ms.len(),
{
    if ms.len() == 0 {
        usize::MAX as int
    } else {
        let rest = narrowest(ms.drop_last());
        if rest < ms.last().w {
            rest
        } else {
            ms.last().w
        }
    }
}

/// The least width: a frame wider than some pane would wrap there, and shift
/// every row below.
pub fn least_width(ms: &Vec<M>) -> (r: usize)
    ensures
        r == narrowest(mirrors(ms@)),
{
    let ghost all = mirrors(ms@);
    let mut w: usize = usize::MAX;
    let mut i: usize = 0;
    while i < ms.len()
        invariant
            all == mirrors(ms@),
            i <= ms@.len(),
            w == narrowest(all.take(i as int)),
        decreases ms@.len() - i,
    {
        proof {
            assert(all.take(i + 1).drop_last() =~= all.take(i as int));
            assert(all.take(i + 1).last() == ms@[i as int]@);
        }
        if !(w < ms[i].w) {
            w = ms[i].w;
        }
        i += 1;
    }
    assert(all.take(i as int) =~= all);
    w
}

/// No pane is narrower than the frame.
pub proof fn no_pane_is_narrower(ms: Seq<Mirror>, i: int)
    requires
        0 <= i < ms.len(),
    ensures
        narrowest(ms) <= ms[i].w,
    decreases ms.len(),
{
    if i < ms.len() - 1 {
        assert(ms.drop_last()[i] == ms[i]);
        no_pane_is_narrower(ms.drop_last(), i);
    }
}

// ---------------------------------------------------------------------------
// One sidebar to a window

/// Is one of the panes in the window?
pub open spec fn has_win(ms: Seq<Mirror>, win: Seq<char>) -> bool {
    exists|i: int| 0 <= i < ms.len() && (#[trigger] ms[i]).win == win
}

/// The first pane of each window.
pub open spec fn firsts(ms: Seq<Mirror>) -> Seq<Mirror>
    decreases ms.len(),
{
    if ms.len() == 0 {
        Seq::empty()
    } else if has_win(ms.drop_last(), ms.last().win) {
        firsts(ms.drop_last())
    } else {
        firsts(ms.drop_last()).push(ms.last())
    }
}

/// The panes behind the first of their window.
pub open spec fn extras(ms: Seq<Mirror>) -> Seq<Mirror>
    decreases ms.len(),
{
    if ms.len() == 0 {
        Seq::empty()
    } else if has_win(ms.drop_last(), ms.last().win) {
        extras(ms.drop_last()).push(ms.last())
    } else {
        extras(ms.drop_last())
    }
}

/// A pane that stays: one that had company goes back to the width asked for.
pub open spec fn settled_pane(m: Mirror, extra: Seq<Mirror>, width: int) -> Mirror {
    if has_win(extra, m.win) {
        Mirror { w: width, ..m }
    } else {
        m
    }
}

/// The panes that stay, one to a window.
pub open spec fn settled(ms: Seq<Mirror>, width: int) -> Seq<Mirror> {
    Seq::new(
        firsts(ms).len(),
        |i: int| settled_pane(firsts(ms)[i], extras(ms), width),
    )
}

/// The arguments that close the panes.
pub open spec fn kills(ms: Seq<Mirror>) -> Seq<Seq<char>>
    decreases ms.len(),
{
    if ms.len() == 0 {
        Seq::empty()
    } else {
        let rest = kills(ms.drop_last());
        let one = seq!["kill-pane"@, "-t"@, ms.last().pane];
        if rest.len() == 0 {
            one
        } else {
            rest.push(";"@) + one
        }
    }
}

/// The arguments that resize one pane.
pub open spec fn resize(pane: Seq<char>, width: int) -> Seq<Seq<char>> {
    seq!["resize-pane"@, "-t"@, pane, "-x"@, text::decimal(width as nat)]
}

/// The arguments that put those of the first `n` panes that had company back to
/// the width.
pub open spec fn restores(ms: Seq<Mirror>, extra: Seq<Mirror>, width: int, n: int) -> Seq<Seq<char>>
    decreases n,
{
    if n <= 0 {
        Seq::empty()
    } else {
        let rest = restores(ms, extra, width, n - 1);
        if has_win(extra, ms[n - 1].win) {
            rest.push(";"@) + resize(ms[n - 1].pane, width)
        } else {
            rest
        }
    }
}

/// The arguments that leave one pane to a window: none where none has company.
pub open spec fn settling(ms: Seq<Mirror>, width: int) -> Seq<Seq<char>> {
    kills(extras(ms)) + restores(firsts(ms), extras(ms), width, firsts(ms).len() as int)
}

fn has_window(ms: &Vec<M>, win: &str) -> (r: bool)
    ensures
        r == has_win(mirrors(ms@), win@),
{
    let ghost all = mirrors(ms@);
    let mut i: usize = 0;
    while i < ms.len()
        invariant
            all == mirrors(ms@),
            i <= ms@.len(),
            forall|k: int| 0 <= k < i ==> (#[trigger] all[k]).win != win@,
        decreases ms@.len() - i,
    {
        assert(all[i as int] == ms@[i as int]@);
        if text::same(ms[i].win.as_str(), win) {
            assert(all[i as int].win == win@);
            return true;
        }
        i += 1;
    }
    false
}

proof fn lemma_firsts_hold_the_windows(ms: Seq<Mirror>, win: Seq<char>)
    ensures
        has_win(firsts(ms), win) == has_win(ms, win),
    decreases ms.len(),
{
    if ms.len() > 0 {
        let head = ms.drop_last();
        let last = ms.last();
        lemma_firsts_hold_the_windows(head, win);
        lemma_has_win_push(head, last, win);
        assert(ms =~= head.push(last));
        if !has_win(head, last.win) {
            lemma_has_win_push(firsts(head), last, win);
        }
    } else {
        assert(firsts(ms) =~= ms);
    }
}

proof fn lemma_has_win_push(ms: Seq<Mirror>, m: Mirror, win: Seq<char>)
    ensures
        has_win(ms.push(m), win) == (has_win(ms, win) || m.win == win),
{
    let all = ms.push(m);
    if has_win(ms, win) {
        let i = choose|i: int| 0 <= i < ms.len() && (#[trigger] ms[i]).win == win;
        assert(all[i].win == win);
    }
    if m.win == win {
        assert(all[ms.len() as int].win == win);
    }
    if has_win(all, win) {
        let i = choose|i: int| 0 <= i < all.len() && (#[trigger] all[i]).win == win;
        if i < ms.len() {
            assert(ms[i].win == win);
        }
    }
}

fn push_text(argv: &mut Vec<String>, s: &str)
    ensures
        text::views(final(argv)@) == text::views(old(argv)@).push(s@),
{
    let t = text::owned(s);
    argv.push(t);
    assert(text::views(argv@) =~= text::views(old(argv)@).push(s@));
}

fn push_resize(argv: &mut Vec<String>, pane: &str, width: usize)
    ensures
        text::views(final(argv)@) == text::views(old(argv)@) + resize(pane@, width as int),
{
    let ghost was = text::views(argv@);
    push_text(argv, "resize-pane");
    push_text(argv, "-t");
    push_text(argv, pane);
    push_text(argv, "-x");
    let n = text::decimal_of(width as u64);
    push_text(argv, n.as_str());
    assert(text::views(argv@) =~= was + resize(pane@, width as int));
}

/// Leaves one sidebar to a window, the first, and puts one that had company back
/// to the width asked for: each extra split squeezed it, and the squeezed width
/// would look like a border that the user dragged. Gives the panes that stay, and
/// tmux's arguments.
pub fn settle(ms: Vec<M>, width: usize) -> (r: (Vec<M>, Vec<String>))
    ensures
        mirrors(r.0@) == settled(mirrors(ms@), width as int),
        text::views(r.1@) == settling(mirrors(ms@), width as int),
{
    let ghost all = mirrors(ms@);
    let mut first: Vec<M> = Vec::new();
    let mut extra: Vec<M> = Vec::new();
    let mut argv: Vec<String> = Vec::new();
    let mut i: usize = 0;
    assert(mirrors(first@) =~= Seq::<Mirror>::empty());
    assert(mirrors(extra@) =~= Seq::<Mirror>::empty());
    assert(text::views(argv@) =~= Seq::<Seq<char>>::empty());
    while i < ms.len()
        invariant
            all == mirrors(ms@),
            i <= ms@.len(),
            mirrors(first@) == firsts(all.take(i as int)),
            mirrors(extra@) == extras(all.take(i as int)),
            text::views(argv@) == kills(mirrors(extra@)),
        decreases ms@.len() - i,
    {
        let m = ms[i].at_width(ms[i].w);
        proof {
            assert(all.take(i + 1).drop_last() =~= all.take(i as int));
            assert(all.take(i + 1).last() == ms@[i as int]@);
            assert(m@ =~= ms@[i as int]@);
            lemma_firsts_hold_the_windows(all.take(i as int), m.win@);
        }
        if has_window(&first, m.win.as_str()) {
            if argv.len() > 0 {
                push_text(&mut argv, ";");
            }
            push_text(&mut argv, "kill-pane");
            push_text(&mut argv, "-t");
            push_text(&mut argv, m.pane.as_str());
            proof {
                lemma_mirrors_push(extra@, m);
                let grown = mirrors(extra@).push(m@);
                assert(grown.drop_last() =~= mirrors(extra@));
                assert(grown.last() == m@);
                assert(text::views(argv@) =~= kills(grown));
            }
            extra.push(m);
        } else {
            proof {
                lemma_mirrors_push(first@, m);
            }
            first.push(m);
        }
        i += 1;
    }
    assert(all.take(i as int) =~= all);
    let ghost start = text::views(argv@);
    let ghost f = mirrors(first@);
    let ghost x = mirrors(extra@);
    let mut out: Vec<M> = Vec::new();
    let mut k: usize = 0;
    assert(start + restores(f, x, width as int, 0) =~= start);
    assert(mirrors(out@) =~= settled(all, width as int).take(0));
    while k < first.len()
        invariant
            f == mirrors(first@),
            f == firsts(all),
            x == mirrors(extra@),
            x == extras(all),
            k <= first@.len(),
            mirrors(out@) == settled(all, width as int).take(k as int),
            text::views(argv@) == start + restores(f, x, width as int, k as int),
        decreases first@.len() - k,
    {
        assert(f[k as int] == first@[k as int]@);
        let company = has_window(&extra, first[k].win.as_str());
        let w: usize = if company {
            width
        } else {
            first[k].w
        };
        let m = first[k].at_width(w);
        if company {
            push_text(&mut argv, ";");
            push_resize(&mut argv, m.pane.as_str(), width);
            assert(text::views(argv@) =~= start + restores(f, x, width as int, k + 1));
        }
        proof {
            lemma_mirrors_push(out@, m);
            assert(m@ =~= settled(all, width as int)[k as int]);
            assert(settled(all, width as int).take(k + 1) =~= settled(all, width as int).take(
                k as int,
            ).push(m@));
        }
        out.push(m);
        k += 1;
    }
    assert(settled(all, width as int).take(k as int) =~= settled(all, width as int));
    (out, argv)
}

/// After the settling no window has two sidebars.
pub proof fn one_sidebar_to_a_window(ms: Seq<Mirror>, width: int)
    ensures
        forall|i: int, j: int|
            0 <= i < j < settled(ms, width).len() ==> (#[trigger] settled(ms, width)[i]).win != (
            #[trigger] settled(ms, width)[j]).win,
{
    lemma_firsts_differ(ms);
    let s = settled(ms, width);
    let f = firsts(ms);
    assert forall|i: int, j: int| 0 <= i < j < s.len() implies (#[trigger] s[i]).win != (
    #[trigger] s[j]).win by {
        assert(s[i].win == f[i].win);
        assert(s[j].win == f[j].win);
    }
}

proof fn lemma_firsts_differ(ms: Seq<Mirror>)
    ensures
        forall|i: int, j: int|
            0 <= i < j < firsts(ms).len() ==> (#[trigger] firsts(ms)[i]).win != (
            #[trigger] firsts(ms)[j]).win,
    decreases ms.len(),
{
    if ms.len() > 0 {
        let head = ms.drop_last();
        let f = firsts(ms);
        let rest = firsts(head);
        lemma_firsts_differ(head);
        if !has_win(head, ms.last().win) {
            lemma_firsts_hold_the_windows(head, ms.last().win);
            assert forall|i: int, j: int| 0 <= i < j < f.len() implies (#[trigger] f[i]).win != (
            #[trigger] f[j]).win by {
                assert(f[i] == rest[i]);
                if j < rest.len() {
                    assert(f[j] == rest[j]);
                }
            }
        }
    }
}

/// Every window with a sidebar keeps one.
pub proof fn every_window_keeps_a_sidebar(ms: Seq<Mirror>, width: int, i: int)
    requires
        0 <= i < ms.len(),
    ensures
        has_win(settled(ms, width), ms[i].win),
{
    assert(has_win(ms, ms[i].win));
    lemma_firsts_hold_the_windows(ms, ms[i].win);
    let f = firsts(ms);
    let k = choose|k: int| 0 <= k < f.len() && (#[trigger] f[k]).win == ms[i].win;
    assert(settled(ms, width)[k].win == ms[i].win);
}

/// Where no window has two sidebars, the settling does nothing.
pub proof fn single_sidebars_are_left_alone(ms: Seq<Mirror>, width: int)
    requires
        forall|i: int, j: int|
            0 <= i < j < ms.len() ==> (#[trigger] ms[i]).win != (#[trigger] ms[j]).win,
    ensures
        settled(ms, width) == ms,
        settling(ms, width).len() == 0,
{
    lemma_singles(ms);
    assert(settled(ms, width) =~= ms);
    assert(extras(ms) =~= Seq::empty());
    lemma_no_restores(ms, width, ms.len() as int);
}

proof fn lemma_singles(ms: Seq<Mirror>)
    requires
        forall|i: int, j: int|
            0 <= i < j < ms.len() ==> (#[trigger] ms[i]).win != (#[trigger] ms[j]).win,
    ensures
        firsts(ms) == ms,
        extras(ms).len() == 0,
    decreases ms.len(),
{
    if ms.len() > 0 {
        let head = ms.drop_last();
        lemma_singles(head);
        assert(!has_win(head, ms.last().win)) by {
            if has_win(head, ms.last().win) {
                let i = choose|i: int|
                    0 <= i < head.len() && (#[trigger] head[i]).win == ms.last().win;
                assert(ms[i].win != ms[ms.len() - 1].win);
            }
        }
        assert(firsts(ms) =~= ms);
    } else {
        assert(firsts(ms) =~= ms);
    }
}

proof fn lemma_no_restores(ms: Seq<Mirror>, width: int, n: int)
    ensures
        restores(ms, Seq::empty(), width, n).len() == 0,
    decreases n,
{
    if n > 0 {
        lemma_no_restores(ms, width, n - 1);
    }
}

// ---------------------------------------------------------------------------
// Dragged borders

/// A window as it was at the last measurement.
pub struct WinSize {
    pub win: String,
    pub size: (usize, usize),
    pub panes: usize,
}

/// What is known of a window.
#[verifier::ext_equal]
pub struct WinKnown {
    pub win: Seq<char>,
    pub size: (int, int),
    pub panes: int,
}

impl View for WinSize {
    type V = WinKnown;

    open spec fn view(&self) -> WinKnown {
        WinKnown {
            win: self.win@,
            size: (self.size.0 as int, self.size.1 as int),
            panes: self.panes as int,
        }
    }
}

/// What is known of the windows.
pub open spec fn windows(v: Seq<WinSize>) -> Seq<WinKnown> {
    v.map_values(|w: WinSize| w@)
}

/// The first entry from the `i`-th on for the window.
pub open spec fn known(v: Seq<WinKnown>, win: Seq<char>, i: int) -> Option<WinKnown>
    decreases v.len() - i,
{
    if i >= v.len() {
        None
    } else if v[i].win == win {
        Some(v[i])
    } else {
        known(v, win, i + 1)
    }
}

/// Did the user drag the border of the pane? Its width is not what was asked
/// for, in a window in sight whose size and whose number of panes stayed the
/// same.
pub open spec fn is_dragged(m: Mirror, width: int, sizes: Seq<WinKnown>) -> bool {
    &&& m.active
    &&& m.w != width
    &&& known(sizes, m.win, 0) == Some(
        WinKnown { win: m.win, size: m.win_size, panes: m.panes },
    )
}

/// The first pane from the `i`-th on whose border was dragged.
pub open spec fn dragged_from(
    ms: Seq<Mirror>,
    width: int,
    sizes: Seq<WinKnown>,
    i: int,
) -> Option<int>
    decreases ms.len() - i,
{
    if i >= ms.len() {
        None
    } else if is_dragged(ms[i], width, sizes) {
        Some(i)
    } else {
        dragged_from(ms, width, sizes, i + 1)
    }
}

fn stayed(sizes: &Vec<WinSize>, m: &M) -> (r: bool)
    ensures
        r == (known(windows(sizes@), m.win@, 0) == Some(
            WinKnown { win: m.win@, size: m@.win_size, panes: m@.panes },
        )),
{
    let ghost all = windows(sizes@);
    let mut i: usize = 0;
    while i < sizes.len()
        invariant
            all == windows(sizes@),
            i <= sizes@.len(),
            known(all, m.win@, 0) == known(all, m.win@, i as int),
        decreases sizes@.len() - i,
    {
        assert(all[i as int] == sizes@[i as int]@);
        let w = &sizes[i];
        if text::same(w.win.as_str(), m.win.as_str()) {
            return w.size.0 == m.win_size.0 && w.size.1 == m.win_size.1 && w.panes == m.panes;
        }
        i += 1;
    }
    false
}

/// The pane whose border the user dragged, if there is one. The number of panes
/// counts: a pane that closes hands its columns on without a change of the
/// window's size.
pub fn dragged(ms: &Vec<M>, width: usize, sizes: &Vec<WinSize>) -> (r: Option<usize>)
    ensures
        match r {
            Some(i) => dragged_from(mirrors(ms@), width as int, windows(sizes@), 0) == Some(
                i as int,
            ),
            None => dragged_from(mirrors(ms@), width as int, windows(sizes@), 0) is None,
        },
{
    let ghost all = mirrors(ms@);
    let mut i: usize = 0;
    while i < ms.len()
        invariant
            all == mirrors(ms@),
            i <= ms@.len(),
            dragged_from(all, width as int, windows(sizes@), 0) == dragged_from(
                all,
                width as int,
                windows(sizes@),
                i as int,
            ),
        decreases ms@.len() - i,
    {
        assert(all[i as int] == ms@[i as int]@);
        if ms[i].active && ms[i].w != width && stayed(sizes, &ms[i]) {
            return Some(i);
        }
        i += 1;
    }
    None
}

/// What `dragged_from` finds.
pub proof fn lemma_dragged(ms: Seq<Mirror>, width: int, sizes: Seq<WinKnown>, i: int)
    requires
        0 <= i,
    ensures
        match dragged_from(ms, width, sizes, i) {
            Some(k) => i <= k < ms.len() && is_dragged(ms[k], width, sizes),
            None => forall|k: int|
                i <= k < ms.len() ==> !is_dragged(#[trigger] ms[k], width, sizes),
        },
    decreases ms.len() - i,
{
    if i < ms.len() && !is_dragged(ms[i], width, sizes) {
        lemma_dragged(ms, width, sizes, i + 1);
    }
}

/// A sidebar that had company is never taken for one that the user dragged.
pub proof fn squeezed_sidebars_are_not_dragged(
    ms: Seq<Mirror>,
    width: int,
    sizes: Seq<WinKnown>,
)
    ensures
        dragged_from(settled(ms, width), width, sizes, 0) matches Some(k) ==> !has_win(
            extras(ms),
            settled(ms, width)[k].win,
        ),
{
    lemma_dragged(settled(ms, width), width, sizes, 0);
}

/// The command that makes a width the one asked for.
pub open spec fn adoption(width: int) -> Seq<char> {
    "set-option -g @agents-mon-width "@ + text::decimal(width as nat)
}

/// The command that makes a width the one asked for.
pub fn adopt_command(width: usize) -> (r: String)
    ensures
        r@ == adoption(width as int),
{
    let mut s = text::owned("set-option -g @agents-mon-width ");
    text::append_decimal(&mut s, width as u64);
    s
}

/// The panes to resize to a dragged width: all of another width but the one
/// that was dragged.
pub open spec fn followers(ms: Seq<Mirror>, src: Seq<char>, width: int) -> Seq<Seq<char>>
    decreases ms.len(),
{
    if ms.len() == 0 {
        Seq::empty()
    } else {
        let rest = followers(ms.drop_last(), src, width);
        if ms.last().pane != src && ms.last().w != width {
            rest.push(ms.last().pane)
        } else {
            rest
        }
    }
}

/// The arguments that resize the panes.
pub open spec fn resizes(panes: Seq<Seq<char>>, width: int) -> Seq<Seq<char>>
    decreases panes.len(),
{
    if panes.len() == 0 {
        Seq::empty()
    } else {
        let rest = resizes(panes.drop_last(), width);
        if rest.len() == 0 {
            resize(panes.last(), width)
        } else {
            rest.push(";"@) + resize(panes.last(), width)
        }
    }
}

/// tmux's arguments that bring the other sidebars to a dragged width: none where
/// all have it.
pub fn spread(ms: &Vec<M>, src: &str, width: usize) -> (r: Vec<String>)
    ensures
        text::views(r@) == resizes(followers(mirrors(ms@), src@, width as int), width as int),
{
    let ghost all = mirrors(ms@);
    let mut argv: Vec<String> = Vec::new();
    let mut i: usize = 0;
    assert(text::views(argv@) =~= Seq::<Seq<char>>::empty());
    while i < ms.len()
        invariant
            all == mirrors(ms@),
            i <= ms@.len(),
            text::views(argv@) == resizes(
                followers(all.take(i as int), src@, width as int),
                width as int,
            ),
        decreases ms@.len() - i,
    {
        proof {
            assert(all.take(i + 1).drop_last() =~= all.take(i as int));
            assert(all.take(i + 1).last() == ms@[i as int]@);
        }
        if !text::same(ms[i].pane.as_str(), src) && ms[i].w != width {
            let ghost before = followers(all.take(i as int), src@, width as int);
            if argv.len() > 0 {
                push_text(&mut argv, ";");
            }
            push_resize(&mut argv, ms[i].pane.as_str(), width);
            proof {
                let grown = before.push(ms@[i as int].pane@);
                assert(grown.drop_last() =~= before);
                assert(text::views(argv@) =~= resizes(grown, width as int));
            }
        }
        i += 1;
    }
    assert(all.take(i as int) =~= all);
    argv
}

/// The pane that the user drags is never resized, so nothing fights the drag.
pub proof fn the_dragged_pane_is_left_alone(ms: Seq<Mirror>, src: Seq<char>, width: int)
    ensures
        !followers(ms, src, width).contains(src),
    decreases ms.len(),
{
    let f = followers(ms, src, width);
    if ms.len() > 0 {
        the_dragged_pane_is_left_alone(ms.drop_last(), src, width);
        let rest = followers(ms.drop_last(), src, width);
        if f.contains(src) {
            let i = choose|i: int| 0 <= i < f.len() && f[i] == src;
            if i < rest.len() {
                assert(rest[i] == src);
            }
        }
    }
}

// ---------------------------------------------------------------------------
// Panes in sight

/// The panes in active windows of the sessions.
pub open spec fn attached_panes(ms: Seq<Mirror>, sessions: Seq<Seq<char>>) -> Seq<Seq<char>>
    decreases ms.len(),
{
    if ms.len() == 0 {
        Seq::empty()
    } else {
        let rest = attached_panes(ms.drop_last(), sessions);
        if ms.last().active && sessions.contains(ms.last().sess) {
            rest.push(ms.last().pane)
        } else {
            rest
        }
    }
}

/// The first pane from the `i`-th on in an active window.
pub open spec fn first_active(ms: Seq<Mirror>, i: int) -> Seq<Seq<char>>
    decreases ms.len() - i,
{
    if i >= ms.len() {
        Seq::empty()
    } else if ms[i].active {
        seq![ms[i].pane]
    } else {
        first_active(ms, i + 1)
    }
}

/// The panes to draw in: those in sight of a client, and with no client attached
/// one that is kept warm.
pub open spec fn in_sight(ms: Seq<Mirror>, sessions: Seq<Seq<char>>) -> Seq<Seq<char>> {
    if sessions.len() == 0 {
        first_active(ms, 0)
    } else {
        attached_panes(ms, sessions)
    }
}

/// The panes to draw in, out of tmux's list of the sessions that clients are
/// attached to.
pub fn visible_panes(ms: &Vec<M>, sessions: &str) -> (r: Vec<String>)
    ensures
        text::views(r@) == in_sight(mirrors(ms@), text::lines(sessions@)),
{
    let names = text::lines_of(sessions);
    let ghost all = mirrors(ms@);
    let ghost listed = text::lines(sessions@);
    let mut out: Vec<String> = Vec::new();
    let mut i: usize = 0;
    assert(text::views(out@) =~= Seq::<Seq<char>>::empty());
    if names.len() == 0 {
        while i < ms.len()
            invariant
                all == mirrors(ms@),
                i <= ms@.len(),
                text::views(out@) == Seq::<Seq<char>>::empty(),
                first_active(all, 0) == first_active(all, i as int),
                in_sight(all, listed) == first_active(all, 0),
                listed == text::lines(sessions@),
            decreases ms@.len() - i,
        {
            assert(all[i as int] == ms@[i as int]@);
            if ms[i].active {
                out.push(ms[i].pane.clone());
                assert(text::views(out@) =~= seq![all[i as int].pane]);
                return out;
            }
            i += 1;
        }
        return out;
    }
    while i < ms.len()
        invariant
            all == mirrors(ms@),
            listed == text::views(names@),
            i <= ms@.len(),
            text::views(out@) == attached_panes(all.take(i as int), listed),
        decreases ms@.len() - i,
    {
        proof {
            assert(all.take(i + 1).drop_last() =~= all.take(i as int));
            assert(all.take(i + 1).last() == ms@[i as int]@);
            text::lemma_position_of(listed, ms@[i as int].sess@, 0);
        }
        let at = text::position(&names, ms[i].sess.as_str());
        if ms[i].active && at.is_some() {
            let ghost was = out@;
            assert(listed[at->0 as int] == ms@[i as int].sess@);
            out.push(ms[i].pane.clone());
            assert(text::views(out@) =~= text::views(was).push(all[i as int].pane));
        } else if ms[i].active {
            assert(!listed.contains(ms@[i as int].sess@));
        }
        i += 1;
    }
    assert(all.take(i as int) =~= all);
    out
}

/// With no client attached one pane is kept warm, if any window is active.
pub proof fn one_pane_is_kept_warm(ms: Seq<Mirror>)
    ensures
        in_sight(ms, Seq::empty()).len() <= 1,
        in_sight(ms, Seq::empty()).len() == 1 <==> exists|i: int|
            0 <= i < ms.len() && (#[trigger] ms[i]).active,
{
    lemma_first_active(ms, 0);
}

proof fn lemma_first_active(ms: Seq<Mirror>, i: int)
    requires
        0 <= i,
    ensures
        first_active(ms, i).len() <= 1,
        first_active(ms, i).len() == 1 <==> exists|k: int|
            i <= k < ms.len() && (#[trigger] ms[k]).active,
    decreases ms.len() - i,
{
    if i < ms.len() && !ms[i].active {
        lemma_first_active(ms, i + 1);
        if exists|k: int| i <= k < ms.len() && (#[trigger] ms[k]).active {
            let k = choose|k: int| i <= k < ms.len() && (#[trigger] ms[k]).active;
            assert(i + 1 <= k < ms.len() && ms[k].active);
        }
    }
}

/// With clients attached a pane is drawn in just where it is in the active window
/// of a session that one of them is attached to.
pub proof fn hidden_panes_are_not_drawn_in(
    ms: Seq<Mirror>,
    sessions: Seq<Seq<char>>,
    pane: Seq<char>,
)
    requires
        sessions.len() > 0,
    ensures
        in_sight(ms, sessions).contains(pane) <==> exists|i: int|
            0 <= i < ms.len() && (#[trigger] ms[i]).pane == pane && ms[i].active
                && sessions.contains(ms[i].sess),
    decreases ms.len(),
{
    if ms.len() > 0 {
        let head = ms.drop_last();
        let rest = attached_panes(head, sessions);
        let all = attached_panes(ms, sessions);
        hidden_panes_are_not_drawn_in(head, sessions, pane);
        if all.contains(pane) {
            let k = choose|k: int| 0 <= k < all.len() && all[k] == pane;
            if k < rest.len() {
                assert(rest[k] == pane);
                let i = choose|i: int|
                    0 <= i < head.len() && (#[trigger] head[i]).pane == pane && head[i].active
                        && sessions.contains(head[i].sess);
                assert(ms[i] == head[i]);
            } else {
                assert(ms[ms.len() - 1].pane == pane);
            }
        }
        if exists|i: int|
            0 <= i < ms.len() && (#[trigger] ms[i]).pane == pane && ms[i].active
                && sessions.contains(ms[i].sess) {
            let i = choose|i: int|
                0 <= i < ms.len() && (#[trigger] ms[i]).pane == pane && ms[i].active
                    && sessions.contains(ms[i].sess);
            if i < head.len() {
                assert(head[i] == ms[i]);
                let k = choose|k: int| 0 <= k < rest.len() && rest[k] == pane;
                assert(all[k] == pane);
            } else {
                assert(all[all.len() - 1] == pane);
            }
        }
    }
}

// ---------------------------------------------------------------------------
// The daemon

/// Should the daemon give up after it found no pane `empty_ticks` times in a
/// row? Only once there was one, or the time to start is over, and only after the
/// second time.
pub open spec fn gives_up(seen_mirror: bool, since_start: int, empty_ticks: int) -> bool {
    (seen_mirror || since_start >= 30) && empty_ticks >= 2
}

/// Should the daemon give up? `since_start` counts whole seconds.
pub fn suicide(seen_mirror: bool, since_start: u64, empty_ticks: u32) -> (r: bool)
    ensures
        r == gives_up(seen_mirror, since_start as int, empty_ticks as int),
{
    (seen_mirror || since_start >= 30) && empty_ticks >= 2
}

/// What the daemon remembers between measurements.
pub struct Daemon {
    /// The width and the height to draw for.
    pub size: (usize, usize),
    pub seen_mirror: bool,
    pub empty_ticks: u32,
    /// Its control client.
    pub client: String,
    pub win_sizes: Vec<WinSize>,
    /// The session that the control client is attached to.
    pub attached: String,
}

/// What the daemon remembers.
#[verifier::ext_equal]
pub struct Memory {
    pub size: (int, int),
    pub seen_mirror: bool,
    pub empty_ticks: int,
    pub client: Seq<char>,
    pub win_sizes: Seq<WinKnown>,
    pub attached: Seq<char>,
}

impl View for Daemon {
    type V = Memory;

    open spec fn view(&self) -> Memory {
        Memory {
            size: (self.size.0 as int, self.size.1 as int),
            seen_mirror: self.seen_mirror,
            empty_ticks: self.empty_ticks as int,
            client: self.client@,
            win_sizes: windows(self.win_sizes@),
            attached: self.attached@,
        }
    }
}

/// What a measurement found.
pub enum Measured {
    /// No pane, and the daemon waits on.
    Nothing,
    /// No pane, and the daemon gives up.
    Gone,
    /// These panes.
    Panes(Vec<M>),
}

/// How the daemon's memory is after a measurement that found no pane.
pub open spec fn found_none(d: Memory) -> Memory {
    Memory {
        empty_ticks: if d.empty_ticks < u32::MAX {
            d.empty_ticks + 1
        } else {
            d.empty_ticks
        },
        ..d
    }
}

/// What the windows of the panes are like.
pub open spec fn sizes_of(ms: Seq<Mirror>) -> Seq<WinKnown> {
    ms.map_values(
        |m: Mirror| WinKnown { win: m.win, size: m.win_size, panes: m.panes },
    )
}

/// What is to be done about the panes that were measured.
pub struct Arrangement {
    /// The panes that stay.
    pub panes: Vec<M>,
    /// tmux's arguments that leave one pane to a window.
    pub settle: Vec<String>,
    /// The command that makes a dragged width the one asked for.
    pub adopt: Option<String>,
    /// tmux's arguments that bring the other panes to the dragged width.
    pub spread: Vec<String>,
}

/// The pane whose border the user dragged, out of the panes that stay.
pub open spec fn drag_in(d: Memory, ms: Seq<Mirror>, width: int) -> Option<int> {
    dragged_from(settled(ms, width), width, d.win_sizes, 0)
}

/// How the daemon's memory is after it arranged the panes: it draws for the
/// width of the narrowest, or for the dragged one.
pub open spec fn arranged(
    d: Memory,
    ms: Seq<Mirror>,
    width: int,
    active_session: Seq<char>,
) -> Memory {
    let stay = settled(ms, width);
    let w = match drag_in(d, ms, width) {
        Some(k) => stay[k].w,
        None => narrowest(stay),
    };
    Memory {
        size: (w, frame_height(stay, active_session)),
        seen_mirror: true,
        empty_ticks: 0,
        win_sizes: sizes_of(stay),
        ..d
    }
}

fn record(ms: &Vec<M>) -> (r: Vec<WinSize>)
    ensures
        windows(r@) == sizes_of(mirrors(ms@)),
{
    let ghost all = sizes_of(mirrors(ms@));
    let mut out: Vec<WinSize> = Vec::new();
    let mut i: usize = 0;
    while i < ms.len()
        invariant
            all == sizes_of(mirrors(ms@)),
            i <= ms@.len(),
            out@.len() == i,
            forall|k: int| 0 <= k < i ==> (#[trigger] out@[k])@ == all[k],
        decreases ms@.len() - i,
    {
        let m = &ms[i];
        out.push(WinSize { win: m.win.clone(), size: m.win_size, panes: m.panes });
        assert(out@[i as int]@ =~= all[i as int]);
        i += 1;
    }
    assert(windows(out@) =~= all);
    out
}

impl Daemon {
    /// A daemon that has measured nothing yet.
    pub fn new(client: String) -> (r: Daemon)
        ensures
            r@ == (Memory {
                size: (30, 24),
                seen_mirror: false,
                empty_ticks: 0,
                client: client@,
                win_sizes: Seq::empty(),
                attached: Seq::empty(),
            }),
    {
        let d = Daemon {
            size: (30, 24),
            seen_mirror: false,
            empty_ticks: 0,
            client,
            win_sizes: Vec::new(),
            attached: String::new(),
        };
        assert(d@.win_sizes =~= Seq::<WinKnown>::empty());
        d
    }

    /// Takes a measurement in, `since_start` whole seconds after the daemon's
    /// start.
    pub fn measure(&mut self, list: &str, since_start: u64) -> (r: Measured)
        ensures
            ({
                let found = mirrors_on(text::lines(list@));
                let none = found_none(old(self)@);
                match r {
                    Measured::Panes(ms) => mirrors(ms@) == found && found.len() > 0
                        && final(self)@ == old(self)@,
                    Measured::Nothing => found.len() == 0 && final(self)@ == none && !gives_up(
                        none.seen_mirror,
                        since_start as int,
                        none.empty_ticks,
                    ),
                    Measured::Gone => found.len() == 0 && final(self)@ == none && gives_up(
                        none.seen_mirror,
                        since_start as int,
                        none.empty_ticks,
                    ),
                }
            }),
    {
        let ms = parse_mirrors(list);
        if ms.len() > 0 {
            assert(mirrors(ms@).len() == ms@.len());
            return Measured::Panes(ms);
        }
        if self.empty_ticks < u32::MAX {
            self.empty_ticks = self.empty_ticks + 1;
        }
        if suicide(self.seen_mirror, since_start, self.empty_ticks) {
            Measured::Gone
        } else {
            Measured::Nothing
        }
    }

    /// Arranges the panes that were measured: one to a window, all at one width.
    /// `width` is the value of the option that asks for one.
    pub fn arrange(&mut self, ms: Vec<M>, width: Option<&str>, active_session: &str) -> (r:
        Arrangement)
        requires
            ms@.len() > 0,
        ensures
            ({
                let asked = width_said(
                    match width {
                        Some(s) => Some(s@),
                        None => None,
                    },
                ) as int;
                let all = mirrors(ms@);
                let stay = settled(all, asked);
                &&& final(self)@ == arranged(old(self)@, all, asked, active_session@)
                &&& mirrors(r.panes@) == stay
                &&& text::views(r.settle@) == settling(all, asked)
                &&& match drag_in(old(self)@, all, asked) {
                    Some(k) => {
                        &&& r.adopt is Some
                        &&& r.adopt->0@ == adoption(stay[k].w)
                        &&& text::views(r.spread@) == resizes(
                            followers(stay, stay[k].pane, stay[k].w),
                            stay[k].w,
                        )
                    },
                    None => r.adopt is None && r.spread@.len() == 0,
                }
            }),
    {
        let asked: usize = asked_width(width);
        let (stay, settle_argv) = settle(ms, asked);
        let h: usize = watched_height(&stay, active_session);
        let mut w: usize = least_width(&stay);
        let mut adopt: Option<String> = None;
        let mut follow: Vec<String> = Vec::new();
        let ghost view = mirrors(stay@);
        if let Some(k) = dragged(&stay, asked, &self.win_sizes) {
            proof {
                lemma_dragged(view, asked as int, windows(self.win_sizes@), 0);
                assert(view[k as int] == stay@[k as int]@);
            }
            w = stay[k].w;
            adopt = Some(adopt_command(w));
            follow = spread(&stay, stay[k].pane.as_str(), w);
        }
        self.win_sizes = record(&stay);
        self.empty_ticks = 0;
        self.seen_mirror = true;
        self.size = (w, h);
        Arrangement { panes: stay, settle: settle_argv, adopt, spread: follow }
    }

    /// Notes the session that the control client was switched to.
    pub fn switched(&mut self, session: String)
        ensures
            final(self)@ == (Memory { attached: session@, ..old(self)@ }),
    {
        self.attached = session;
    }
}

/// One measurement that finds nothing never ends the daemon.
pub proof fn one_empty_measurement_is_survived(d: Memory, since_start: int)
    requires
        d.empty_ticks == 0,
    ensures
        !gives_up(d.seen_mirror, since_start, found_none(d).empty_ticks),
{
}

/// After an arrangement the daemon knows each window once.
pub proof fn windows_are_known_once(d: Memory, ms: Seq<Mirror>, width: int, sess: Seq<char>)
    ensures
        ({
            let v = arranged(d, ms, width, sess).win_sizes;
            forall|i: int, j: int|
                0 <= i < j < v.len() ==> (#[trigger] v[i]).win != (#[trigger] v[j]).win
        }),
{
    one_sidebar_to_a_window(ms, width);
    let v = arranged(d, ms, width, sess).win_sizes;
    let s = settled(ms, width);
    assert forall|i: int, j: int| 0 <= i < j < v.len() implies (#[trigger] v[i]).win != (
    #[trigger] v[j]).win by {
        assert(v[i].win == s[i].win);
        assert(v[j].win == s[j].win);
    }
}

} // verus!
