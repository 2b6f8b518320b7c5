//! Which panes stay, how wide and high they are drawn, and which are drawn in.

use crate::mirrors;
use crate::mirrors::Memory;
use crate::mirrors::Mirror;
use crate::mirrors::WinKnown;
use crate::scan_laws::tabbed;
use crate::text;
use vstd::prelude::*;

verus! {

/// A line of eight fields is a pane: its id, its window, its width and height,
/// the size of the window, how many panes that has, whether it is in front, and
/// its session.
pub proof fn a_pane_is_measured_field_by_field(
    m: Mirror,
    flag: Seq<char>,
)
    requires
        !m.pane.contains('\t'),
        !m.win.contains('\t'),
        !m.sess.contains('\t'),
        !flag.contains('\t'),
        0 <= m.w <= usize::MAX,
        0 <= m.h <= usize::MAX,
        0 <= m.win_size.0 <= usize::MAX,
        0 <= m.win_size.1 <= usize::MAX,
        0 <= m.panes <= usize::MAX,
        m.active == (flag == seq!['1']),
    ensures
        mirrors::mirror_on(
            tabbed(
                m.pane,
                tabbed(
                    m.win,
                    tabbed(
                        text::decimal(m.w as nat),
                        tabbed(
                            text::decimal(m.h as nat),
                            tabbed(
                                text::decimal(m.win_size.0 as nat) + seq![' '] + text::decimal(m.win_size.1 as nat),
                                tabbed(text::decimal(m.panes as nat), tabbed(flag, m.sess)),
                            ),
                        ),
                    ),
                ),
            ),
        ) == Some(m),
{
    reveal_strlit("1");
    assert("1"@ =~= seq!['1']);
    let w = text::decimal(m.w as nat);
    let h = text::decimal(m.h as nat);
    let ww = text::decimal(m.win_size.0 as nat);
    let wh = text::decimal(m.win_size.1 as nat);
    let n = text::decimal(m.panes as nat);
    let size = ww + seq![' '] + wh;
    text::decimal_reads_back(m.w as nat, usize::MAX as nat);
    text::decimal_reads_back(m.h as nat, usize::MAX as nat);
    text::decimal_reads_back(m.win_size.0 as nat, usize::MAX as nat);
    text::decimal_reads_back(m.win_size.1 as nat, usize::MAX as nat);
    text::decimal_reads_back(m.panes as nat, usize::MAX as nat);
    lemma_numeral(w);
    lemma_numeral(h);
    lemma_numeral(ww);
    lemma_numeral(wh);
    lemma_numeral(n);
    assert(!size.contains('\t')) by {
        assert forall|i: int| 0 <= i < size.len() implies size[i] != '\t' by {
            if i < ww.len() {
                assert(ww.contains(ww[i]));
            } else if i > ww.len() {
                assert(wh.contains(wh[i - ww.len() - 1]));
            }
        }
    }
    crate::text_laws::a_text_is_cut_at_the_first_separator(ww, ' ', wh);
    lemma_cut(m.sess, m.sess);
    lemma_cut(flag, m.sess);
    lemma_cut(n, tabbed(flag, m.sess));
    lemma_cut(size, tabbed(n, tabbed(flag, m.sess)));
    lemma_cut(h, tabbed(size, tabbed(n, tabbed(flag, m.sess))));
    lemma_cut(w, tabbed(h, tabbed(size, tabbed(n, tabbed(flag, m.sess)))));
    lemma_cut(m.win, tabbed(w, tabbed(h, tabbed(size, tabbed(n, tabbed(flag, m.sess))))));
    lemma_cut(m.pane, tabbed(m.win, tabbed(w, tabbed(h, tabbed(size, tabbed(n, tabbed(flag, m.sess)))))));
    let line = tabbed(m.pane, tabbed(m.win, tabbed(w, tabbed(h, tabbed(size, tabbed(n, tabbed(flag, m.sess)))))));
    let f = text::split(line, '\t');
    assert(f =~= seq![m.pane, m.win, w, h, size, n, flag, m.sess]);
    assert(f[0] == m.pane && f[1] == m.win && f[2] == w && f[3] == h && f[4] == size && f[5] == n && f[6] == flag
        && f[7] == m.sess);
}

proof fn lemma_numeral(n: Seq<char>)
    requires
        text::number(n, usize::MAX as nat) is Some,
    ensures
        !n.contains('\t'),
        !n.contains(' '),
{
    crate::text_laws::numbers_are_digits(n, usize::MAX as nat);
    if n.contains('\t') {
        let i = choose|i: int| 0 <= i < n.len() && n[i] == '\t';
        assert('0' <= n[i] <= '9' || n[i] == '+');
    }
    if n.contains(' ') {
        let i = choose|i: int| 0 <= i < n.len() && n[i] == ' ';
        assert('0' <= n[i] <= '9' || n[i] == '+');
    }
}

proof fn lemma_cut(a: Seq<char>, rest: Seq<char>)
    requires
        !a.contains('\t'),
    ensures
        text::split(a, '\t') == seq![a],
        text::split(tabbed(a, rest), '\t') == seq![a] + text::split(rest, '\t'),
{
    crate::text_laws::fields_lie_between_separators(a, '\t', rest, 1);
}

/// Lines that are no panes are passed over; the others come out in order.
pub proof fn panes_are_measured_in_order(lines: Seq<Seq<char>>, line: Seq<char>)
    ensures
        mirrors::mirrors_on(Seq::<Seq<char>>::empty()).len() == 0,
        mirrors::mirror_on(line) is None ==> mirrors::mirrors_on(lines.push(line)) == mirrors::mirrors_on(lines),
        mirrors::mirror_on(line) matches Some(m) ==> mirrors::mirrors_on(lines.push(line)) == mirrors::mirrors_on(
            lines,
        ).push(m),
{
    assert(lines.push(line).drop_last() =~= lines);
}

/// The width that is asked for is the number that is said; where none is said it
/// is thirty.
pub proof fn the_width_is_what_is_said(n: nat, s: Seq<char>)
    requires
        n <= usize::MAX,
    ensures
        mirrors::width_said(None) == 30,
        text::trim(s) == text::decimal(n) ==> mirrors::width_said(Some(s)) == n,
        text::number(text::trim(s), usize::MAX as nat) is None ==> mirrors::width_said(Some(s)) == 30,
{
    text::decimal_reads_back(n, usize::MAX as nat);
}

/// The first pane in front of the active session decides the height; where there
/// is none, the tallest pane that is in front; where none is, the tallest; and
/// where there are no panes, twenty-four.
pub proof fn the_watched_pane_decides_the_height(ms: Seq<Mirror>, sess: Seq<char>, i: int)
    ensures
        ms.len() == 0 ==> mirrors::frame_height(ms, sess) == 24,
        0 <= i < ms.len() && ms[i].active && ms[i].sess == sess && (forall|j: int|
            0 <= j < i ==> !((#[trigger] ms[j]).active && ms[j].sess == sess)) ==> mirrors::frame_height(ms, sess)
            == ms[i].h,
        0 <= i < ms.len() && ms[i].active && (forall|j: int|
            0 <= j < ms.len() ==> !((#[trigger] ms[j]).active && ms[j].sess == sess)) ==> {
            &&& mirrors::frame_height(ms, sess) >= ms[i].h
            &&& exists|k: int| 0 <= k < ms.len() && (#[trigger] ms[k]).active && ms[k].h == mirrors::frame_height(ms, sess)
        },
        0 <= i < ms.len() && (forall|j: int| 0 <= j < ms.len() ==> !(#[trigger] ms[j]).active) ==> {
            &&& mirrors::frame_height(ms, sess) >= ms[i].h
            &&& exists|k: int| 0 <= k < ms.len() && (#[trigger] ms[k]).h == mirrors::frame_height(ms, sess)
        },
{
    lemma_watched_first(ms, sess, 0);
    lemma_tallest(ms, true);
    lemma_tallest(ms, false);
}

proof fn lemma_watched_first(ms: Seq<Mirror>, sess: Seq<char>, i: int)
    requires
        0 <= i,
    ensures
        match mirrors::watched(ms, sess, i) {
            Some(k) => i <= k < ms.len() && ms[k].active && ms[k].sess == sess && forall|j: int|
                i <= j < k ==> !((#[trigger] ms[j]).active && ms[j].sess == sess),
            None => forall|j: int| i <= j < ms.len() ==> !((#[trigger] ms[j]).active && ms[j].sess == sess),
        },
    decreases ms.len() - i,
{
    if i < ms.len() && !(ms[i].active && ms[i].sess == sess) {
        lemma_watched_first(ms, sess, i + 1);
    }
}

proof fn lemma_tallest(ms: Seq<Mirror>, only: bool)
    ensures
        match mirrors::tallest(ms, only) {
            Some(h) => {
                &&& forall|j: int| 0 <= j < ms.len() && (!only || (#[trigger] ms[j]).active) ==> ms[j].h <= h
                &&& exists|k: int| 0 <= k < ms.len() && (#[trigger] ms[k]).h == h && (!only || ms[k].active)
            },
            None => forall|j: int| 0 <= j < ms.len() ==> only && !(#[trigger] ms[j]).active,
        },
    decreases ms.len(),
{
    if ms.len() > 0 {
        let rest = ms.drop_last();
        let n = rest.len() as int;
        lemma_tallest(rest, only);
        assert(ms[n] == ms.last());
        assert forall|j: int| 0 <= j < n implies ms[j] == rest[j] by {}
        match mirrors::tallest(ms, only) {
            Some(h) => {
                if mirrors::tallest(rest, only) == Some(h) {
                    let k = choose|k: int| 0 <= k < rest.len() && (#[trigger] rest[k]).h == h && (!only || rest[k].active);
                    assert(ms[k].h == h && (!only || ms[k].active));
                } else {
                    assert(ms[n].h == h);
                }
                assert forall|j: int| 0 <= j < ms.len() && (!only || (#[trigger] ms[j]).active) implies ms[j].h <= h by {
                    if j < n {
                        assert(rest[j] == ms[j]);
                    }
                }
            },
            None => {
                assert forall|j: int| 0 <= j < ms.len() implies only && !(#[trigger] ms[j]).active by {
                    if j < n {
                        assert(rest[j] == ms[j]);
                    }
                }
            },
        }
    }
}

/// The width to draw for is that of the narrowest pane: no pane is narrower, and
/// some pane is as narrow.
pub proof fn the_narrowest_pane_decides_the_width(ms: Seq<Mirror>, i: int)
    requires
        0 <= i < ms.len(),
        forall|j: int| 0 <= j < ms.len() ==> (#[trigger] ms[j]).w <= usize::MAX,
    ensures
        mirrors::narrowest(ms) <= ms[i].w,
        exists|k: int| 0 <= k < ms.len() && (#[trigger] ms[k]).w == mirrors::narrowest(ms),
{
    mirrors::no_pane_is_narrower(ms, i);
    lemma_narrowest(ms);
}

proof fn lemma_narrowest(ms: Seq<Mirror>)
    requires
        ms.len() > 0,
        forall|j: int| 0 <= j < ms.len() ==> (#[trigger] ms[j]).w <= usize::MAX,
    ensures
        exists|k: int| 0 <= k < ms.len() && (#[trigger] ms[k]).w == mirrors::narrowest(ms),
    decreases ms.len(),
{
    let rest = ms.drop_last();
    let n = rest.len() as int;
    if rest.len() == 0 {
        assert(mirrors::narrowest(rest) == usize::MAX);
        assert(ms[0].w == mirrors::narrowest(ms));
    } else {
        assert forall|j: int| 0 <= j < rest.len() implies (#[trigger] rest[j]).w <= usize::MAX by {
            assert(ms[j] == rest[j]);
        }
        lemma_narrowest(rest);
        let k = choose|k: int| 0 <= k < rest.len() && (#[trigger] rest[k]).w == mirrors::narrowest(rest);
        assert(ms[k] == rest[k]);
        assert(ms[n] == ms.last());
    }
}

/// Does a pane of this window stand in the list?
pub open spec fn holds_window(ms: Seq<Mirror>, win: Seq<char>) -> bool {
    exists|i: int| 0 <= i < ms.len() && (#[trigger] ms[i]).win == win
}

/// The first pane of a window stays, and any later one of it is too much.
pub proof fn the_first_pane_of_a_window_stays(ms: Seq<Mirror>, m: Mirror)
    ensures
        mirrors::firsts(Seq::<Mirror>::empty()).len() == 0,
        mirrors::extras(Seq::<Mirror>::empty()).len() == 0,
        holds_window(ms, m.win) ==> mirrors::firsts(ms.push(m)) == mirrors::firsts(ms) && mirrors::extras(ms.push(m))
            == mirrors::extras(ms).push(m),
        !holds_window(ms, m.win) ==> mirrors::firsts(ms.push(m)) == mirrors::firsts(ms).push(m) && mirrors::extras(
            ms.push(m),
        ) == mirrors::extras(ms),
{
    assert(ms.push(m).drop_last() =~= ms);
    assert(mirrors::has_win(ms, m.win) == holds_window(ms, m.win));
}

/// A pane that stays keeps all it has, but for its width where its window had
/// another pane: that is the width that is asked for.
pub proof fn a_pane_that_stays_is_as_wide_as_asked(ms: Seq<Mirror>, width: int, i: int)
    requires
        0 <= i < mirrors::firsts(ms).len(),
    ensures
        mirrors::settled(ms, width).len() == mirrors::firsts(ms).len(),
        ({
            let was = mirrors::firsts(ms)[i];
            let is = mirrors::settled(ms, width)[i];
            &&& (Mirror { w: was.w, ..is }) == was
            &&& holds_window(mirrors::extras(ms), was.win) ==> is.w == width
            &&& !holds_window(mirrors::extras(ms), was.win) ==> is.w == was.w
        }),
{
    assert(mirrors::has_win(mirrors::extras(ms), mirrors::firsts(ms)[i].win) == holds_window(
        mirrors::extras(ms),
        mirrors::firsts(ms)[i].win,
    ));
}

/// Each pane that is too much is killed, in order, with a semicolon between the
/// commands.
pub proof fn each_extra_pane_is_killed(ms: Seq<Mirror>, m: Mirror)
    ensures
        mirrors::kills(Seq::<Mirror>::empty()).len() == 0,
        mirrors::kills(seq![m]) == seq!["kill-pane"@, "-t"@, m.pane],
        ms.len() > 0 ==> mirrors::kills(ms.push(m)) == mirrors::kills(ms) + seq![";"@, "kill-pane"@, "-t"@, m.pane],
{
    assert(ms.push(m).drop_last() =~= ms);
    assert(seq![m].drop_last() =~= Seq::<Mirror>::empty());
    assert(mirrors::kills(Seq::<Mirror>::empty()).len() == 0);
    assert(mirrors::kills(seq![m]) =~= seq!["kill-pane"@, "-t"@, m.pane]);
    if ms.len() > 0 {
        lemma_kills(ms);
        assert(mirrors::kills(ms.push(m)) =~= mirrors::kills(ms) + seq![";"@, "kill-pane"@, "-t"@, m.pane]);
    }
}

proof fn lemma_kills(ms: Seq<Mirror>)
    requires
        ms.len() > 0,
    ensures
        mirrors::kills(ms).len() > 0,
{
}

/// A pane is brought to a width by naming it and the width.
pub proof fn a_pane_is_resized_by_name(pane: Seq<char>, width: nat)
    ensures
        mirrors::resize(pane, width as int) == seq!["resize-pane"@, "-t"@, pane, "-x"@, text::decimal(width)],
{
}

/// The commands that settle the panes kill those that are too much, and then
/// bring back to the width that is asked for each pane that stays in a window
/// which had one; other panes are not touched.
pub proof fn settling_kills_and_then_restores(ms: Seq<Mirror>, stay: Seq<Mirror>, extra: Seq<Mirror>, width: int, n: int)
    requires
        0 <= n < stay.len(),
    ensures
        mirrors::settling(ms, width) == mirrors::kills(mirrors::extras(ms)) + mirrors::restores(
            mirrors::firsts(ms),
            mirrors::extras(ms),
            width,
            mirrors::firsts(ms).len() as int,
        ),
        mirrors::restores(stay, extra, width, 0).len() == 0,
        holds_window(extra, stay[n].win) ==> mirrors::restores(stay, extra, width, n + 1) == mirrors::restores(
            stay,
            extra,
            width,
            n,
        ) + seq![";"@, "resize-pane"@, "-t"@, stay[n].pane, "-x"@, text::decimal(width as nat)],
        !holds_window(extra, stay[n].win) ==> mirrors::restores(stay, extra, width, n + 1) == mirrors::restores(
            stay,
            extra,
            width,
            n,
        ),
{
    assert(mirrors::has_win(extra, stay[n].win) == holds_window(extra, stay[n].win));
    let rest = mirrors::restores(stay, extra, width, n);
    if holds_window(extra, stay[n].win) {
        assert(mirrors::restores(stay, extra, width, n + 1) =~= rest + seq![
            ";"@, "resize-pane"@, "-t"@, stay[n].pane, "-x"@, text::decimal(width as nat),
        ]);
    }
}

/// The user dragged a pane where it is in front, is not as wide as asked, and its
/// window is as large and has as many panes as when it was last measured. The
/// first such pane counts.
pub proof fn a_drag_is_a_new_width_in_an_old_window(
    ms: Seq<Mirror>,
    width: int,
    sizes: Seq<WinKnown>,
    k: int,
    i: int,
)
    requires
        0 <= k < ms.len(),
    ensures
        mirrors::is_dragged(ms[k], width, sizes) ==> ms[k].active && ms[k].w != width,
        ms[k].active && ms[k].w != width && 0 <= i < sizes.len() && sizes[i].win == ms[k].win && (forall|j: int|
            0 <= j < i ==> (#[trigger] sizes[j]).win != ms[k].win) ==> (mirrors::is_dragged(ms[k], width, sizes) <==> (
        sizes[i].size == ms[k].win_size && sizes[i].panes == ms[k].panes)),
        (forall|j: int| 0 <= j < sizes.len() ==> (#[trigger] sizes[j]).win != ms[k].win) ==> !mirrors::is_dragged(
            ms[k],
            width,
            sizes,
        ),
        mirrors::is_dragged(ms[k], width, sizes) && (forall|j: int|
            0 <= j < k ==> !mirrors::is_dragged(#[trigger] ms[j], width, sizes)) ==> mirrors::dragged_from(
            ms,
            width,
            sizes,
            0,
        ) == Some(k),
        (forall|j: int| 0 <= j < ms.len() ==> !mirrors::is_dragged(#[trigger] ms[j], width, sizes))
            ==> mirrors::dragged_from(ms, width, sizes, 0) is None,
{
    lemma_known(sizes, ms[k].win, 0);
    lemma_first_dragged(ms, width, sizes, 0);
}

proof fn lemma_known(v: Seq<WinKnown>, win: Seq<char>, i: int)
    requires
        0 <= i,
    ensures
        match mirrors::known(v, win, i) {
            Some(w) => exists|k: int|
                i <= k < v.len() && #[trigger] v[k] == w && w.win == win && forall|j: int|
                    i <= j < k ==> (#[trigger] v[j]).win != win,
            None => forall|j: int| i <= j < v.len() ==> (#[trigger] v[j]).win != win,
        },
    decreases v.len() - i,
{
    if i < v.len() {
        if v[i].win == win {
            assert(v[i] == mirrors::known(v, win, i)->0);
        } else {
            lemma_known(v, win, i + 1);
            if mirrors::known(v, win, i) is Some {
                let w = mirrors::known(v, win, i)->0;
                let k = choose|k: int|
                    i + 1 <= k < v.len() && #[trigger] v[k] == w && w.win == win && forall|j: int|
                        i + 1 <= j < k ==> (#[trigger] v[j]).win != win;
                assert(v[k] == w);
            }
        }
    }
}

proof fn lemma_first_dragged(ms: Seq<Mirror>, width: int, sizes: Seq<WinKnown>, i: int)
    requires
        0 <= i,
    ensures
        match mirrors::dragged_from(ms, width, sizes, i) {
            Some(k) => i <= k < ms.len() && mirrors::is_dragged(ms[k], width, sizes) && forall|j: int|
                i <= j < k ==> !mirrors::is_dragged(#[trigger] ms[j], width, sizes),
            None => forall|j: int| i <= j < ms.len() ==> !mirrors::is_dragged(#[trigger] ms[j], width, sizes),
        },
    decreases ms.len() - i,
{
    if i < ms.len() && !mirrors::is_dragged(ms[i], width, sizes) {
        lemma_first_dragged(ms, width, sizes, i + 1);
    }
}

/// A dragged width is made the one asked for, and every other pane that is not as
/// wide is brought to it, in order.
pub proof fn other_panes_follow_a_drag(
    ms: Seq<Mirror>,
    m: Mirror,
    src: Seq<char>,
    width: nat,
    panes: Seq<Seq<char>>,
    p: Seq<char>,
)
    ensures
        mirrors::adoption(width as int) == "set-option -g @agents-mon-width "@ + text::decimal(width),
        mirrors::followers(Seq::<Mirror>::empty(), src, width as int).len() == 0,
        m.pane != src && m.w != width ==> mirrors::followers(ms.push(m), src, width as int) == mirrors::followers(
            ms,
            src,
            width as int,
        ).push(m.pane),
        m.pane == src || m.w == width ==> mirrors::followers(ms.push(m), src, width as int) == mirrors::followers(
            ms,
            src,
            width as int,
        ),
        mirrors::resizes(Seq::<Seq<char>>::empty(), width as int).len() == 0,
        mirrors::resizes(seq![p], width as int) == seq!["resize-pane"@, "-t"@, p, "-x"@, text::decimal(width)],
        panes.len() > 0 ==> mirrors::resizes(panes.push(p), width as int) == mirrors::resizes(panes, width as int)
            + seq![";"@, "resize-pane"@, "-t"@, p, "-x"@, text::decimal(width)],
{
    assert(ms.push(m).drop_last() =~= ms);
    assert(panes.push(p).drop_last() =~= panes);
    assert(seq![p].drop_last() =~= Seq::<Seq<char>>::empty());
    assert(mirrors::resizes(Seq::<Seq<char>>::empty(), width as int).len() == 0);
    assert(mirrors::resizes(seq![p], width as int) =~= seq!["resize-pane"@, "-t"@, p, "-x"@, text::decimal(width)]);
    if panes.len() > 0 {
        assert(mirrors::resizes(panes, width as int).len() > 0);
        assert(mirrors::resizes(panes.push(p), width as int) =~= mirrors::resizes(panes, width as int) + seq![
            ";"@, "resize-pane"@, "-t"@, p, "-x"@, text::decimal(width),
        ]);
    }
}

/// Frames are drawn in the panes that are in front of a session which a client is
/// attached to, in order; while no client is, in the first that is in front.
pub proof fn frames_go_where_they_are_seen(ms: Seq<Mirror>, m: Mirror, sessions: Seq<Seq<char>>, k: int)
    requires
        sessions.len() > 0,
    ensures
        mirrors::in_sight(Seq::<Mirror>::empty(), sessions).len() == 0,
        m.active && sessions.contains(m.sess) ==> mirrors::in_sight(ms.push(m), sessions) == mirrors::in_sight(
            ms,
            sessions,
        ).push(m.pane),
        !(m.active && sessions.contains(m.sess)) ==> mirrors::in_sight(ms.push(m), sessions) == mirrors::in_sight(
            ms,
            sessions,
        ),
        0 <= k < ms.len() && ms[k].active && (forall|j: int| 0 <= j < k ==> !(#[trigger] ms[j]).active)
            ==> mirrors::in_sight(ms, Seq::empty()) == seq![ms[k].pane],
        (forall|j: int| 0 <= j < ms.len() ==> !(#[trigger] ms[j]).active) ==> mirrors::in_sight(ms, Seq::empty()).len()
            == 0,
{
    assert(ms.push(m).drop_last() =~= ms);
    lemma_front(ms, 0);
}

proof fn lemma_front(ms: Seq<Mirror>, i: int)
    requires
        0 <= i,
    ensures
        mirrors::first_active(ms, i).len() == 0 <==> forall|j: int| i <= j < ms.len() ==> !(#[trigger] ms[j]).active,
        mirrors::first_active(ms, i).len() > 0 ==> exists|k: int|
            i <= k < ms.len() && (#[trigger] ms[k]).active && mirrors::first_active(ms, i) == seq![ms[k].pane] && forall|
                j: int,
            |
                i <= j < k ==> !(#[trigger] ms[j]).active,
    decreases ms.len() - i,
{
    if i < ms.len() {
        if ms[i].active {
            assert(mirrors::first_active(ms, i) == seq![ms[i].pane]);
        } else {
            lemma_front(ms, i + 1);
            if mirrors::first_active(ms, i).len() > 0 {
                let k = choose|k: int|
                    i + 1 <= k < ms.len() && (#[trigger] ms[k]).active && mirrors::first_active(ms, i + 1) == seq![
                        ms[k].pane,
                    ] && forall|j: int| i + 1 <= j < k ==> !(#[trigger] ms[j]).active;
                assert(ms[k].active);
            }
        }
    }
}

/// A daemon gives up when it found no pane twice in a row, once it had one or has
/// waited for half a minute.
pub proof fn a_daemon_gives_up_without_panes(seen: bool, waited: int, empty: int)
    ensures
        empty < 2 ==> !mirrors::gives_up(seen, waited, empty),
        empty >= 2 && seen ==> mirrors::gives_up(seen, waited, empty),
        empty >= 2 && !seen ==> (mirrors::gives_up(seen, waited, empty) <==> waited >= 30),
{
}

/// A measurement without panes counts as one more, and changes nothing else.
pub proof fn an_empty_measurement_is_counted(d: Memory)
    ensures
        0 <= d.empty_ticks < u32::MAX ==> mirrors::found_none(d) == (Memory { empty_ticks: d.empty_ticks + 1, ..d }),
        d.empty_ticks == u32::MAX ==> mirrors::found_none(d) == d,
{
}

/// After panes were found the daemon knows their windows, counts anew, and draws
/// for the dragged width, or for the narrowest pane, and for the height that
/// counts; its client and session stay.
pub proof fn an_arrangement_is_remembered(d: Memory, ms: Seq<Mirror>, width: int, sess: Seq<char>, i: int)
    ensures
        ({
            let stay = mirrors::settled(ms, width);
            let after = mirrors::arranged(d, ms, width, sess);
            &&& after.seen_mirror
            &&& after.empty_ticks == 0
            &&& after.client == d.client
            &&& after.attached == d.attached
            &&& after.size.1 == mirrors::frame_height(stay, sess)
            &&& mirrors::dragged_from(stay, width, d.win_sizes, 0) is None ==> after.size.0 == mirrors::narrowest(stay)
            &&& mirrors::dragged_from(stay, width, d.win_sizes, 0) matches Some(k) ==> after.size.0 == stay[k].w
            &&& after.win_sizes.len() == stay.len()
            &&& 0 <= i < stay.len() ==> after.win_sizes[i] == (WinKnown {
                win: stay[i].win,
                size: stay[i].win_size,
                panes: stay[i].panes,
            })
        }),
{
}

/// What tmux is asked for stands in the order in which it is read.
pub proof fn panes_are_asked_for_in_this_order()
    ensures
        mirrors::LIST_MIRRORS@
            == "list-panes -a -f '#{==:#{pane_title},agents-mon}' -F '#{pane_id}\t#{window_id}\t#{pane_width}\t#{pane_height}\t#{window_width} #{window_height}\t#{window_panes}\t#{window_active}\t#{session_id}'"@,
        mirrors::SHOW_WIDTH@ == "show-option -gqv @agents-mon-width"@,
        crate::scan::LIST_FMT@
            == "list-panes -a -F '#{pane_id}\t#{pane_pid}\t#{pane_current_command}\t#{pane_current_path}\t#{session_name}:#{window_index}.#{pane_index}\t#{pane_title}'"@,
{
}

/// A line with another number of fields, or with a size that is no number, is no
/// pane.
pub proof fn other_lines_are_no_panes(line: Seq<char>)
    ensures
        text::split(line, '\t').len() != 8 ==> mirrors::mirror_on(line) is None,
        text::split(line, '\t').len() == 8 && (text::number(text::split(line, '\t')[2], usize::MAX as nat) is None
            || text::number(text::split(line, '\t')[3], usize::MAX as nat) is None || text::number(
            text::split(line, '\t')[5],
            usize::MAX as nat,
        ) is None || text::after(text::split(line, '\t')[4], ' ') is None || text::number(
            text::before(text::split(line, '\t')[4], ' '),
            usize::MAX as nat,
        ) is None || text::number(text::after(text::split(line, '\t')[4], ' ')->0, usize::MAX as nat) is None)
            ==> mirrors::mirror_on(line) is None,
{
}

} // verus!
