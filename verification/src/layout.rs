//! Sheet layout: which cards are printed and where each one sits on the
//! US-Letter pages. All lengths are in hundredths of a millimetre.

use vstd::prelude::*;

verus! {

/// Width of a US-Letter sheet (215.9 mm).
pub const PAGE_W: u64 = 21590;

/// Height of a US-Letter sheet (279.4 mm).
pub const PAGE_H: u64 = 27940;

/// Margin kept free on every side of the sheet (0.25 in).
pub const MARGIN: u64 = 635;

/// Space left between neighbouring cards, for the cut lines (5 mm).
pub const GAP: u64 = 500;

/// Tolerance granted when testing whether a card still fits (0.01 mm).
pub const SLACK: u64 = 1;

/// The two card formats.
#[derive(Clone, Copy, Debug, PartialEq, Eq, Structural)]
pub enum Variant {
    /// 3.75 x 5.5 in, for the home coach, the scorekeeper and the manager.
    Large,
    /// 3.5 x 5 in, sized for a standard umpire lineup-card holder.
    Umpire,
}

impl Variant {
    pub open spec fn width(self) -> int {
        match self {
            Variant::Large => 9525,
            Variant::Umpire => 8890,
        }
    }

    pub open spec fn height(self) -> int {
        match self {
            Variant::Large => 13970,
            Variant::Umpire => 12700,
        }
    }

    /// Width and height of the card.
    pub fn size(self) -> (r: (u64, u64))
        ensures
            r.0 == self.width(),
            r.1 == self.height(),
    {
        match self {
            Variant::Large => (9525, 13970),
            Variant::Umpire => (8890, 12700),
        }
    }
}

/// Where one card lands: its index among the cards, its page, and the
/// position of its lower-left corner, measured from the lower-left corner of
/// the page.
#[derive(Clone, Copy, Debug, PartialEq, Eq, Structural)]
pub struct Placement {
    pub card_index: usize,
    pub page: usize,
    pub x: u64,
    pub y: u64,
}

/// The packing cursor: page, horizontal cursor, top of the current shelf
/// (measured down from the top edge) and height of the current shelf.
pub open spec fn start_state() -> (int, int, int, int) {
    (0, MARGIN as int, MARGIN as int, 0)
}

/// The cursor once a card of format `v` has to be placed: moved to a new
/// shelf when the card would pass the right margin, and to a new page when
/// it would pass the bottom margin.
pub open spec fn wrapped(s: (int, int, int, int), v: Variant) -> (int, int, int, int) {
    let (page, cx, top, shelf) = s;
    let (cx1, top1, shelf1) = if cx + v.width() > (PAGE_W - MARGIN) + SLACK {
        (MARGIN as int, top + shelf + GAP, 0int)
    } else {
        (cx, top, shelf)
    };
    if top1 + v.height() > (PAGE_H - MARGIN) + SLACK {
        (page + 1, MARGIN as int, MARGIN as int, 0int)
    } else {
        (page, cx1, top1, shelf1)
    }
}

/// The cursor after a card of format `v` was placed.
pub open spec fn advanced(s: (int, int, int, int), v: Variant) -> (int, int, int, int) {
    let w = wrapped(s, v);
    (w.0, w.1 + v.width() + GAP, w.2, if w.3 < v.height() { v.height() } else { w.3 })
}

/// Shelf packing of a sequence of card formats, in order: the final cursor,
/// and for each card its page, its left edge and its top edge (measured down
/// from the top of the page).
pub open spec fn packing(vs: Seq<Variant>) -> ((int, int, int, int), Seq<(int, int, int)>)
    decreases vs.len(),
{
    if vs.len() == 0 {
        (start_state(), Seq::empty())
    } else {
        let (s, ps) = packing(vs.drop_last());
        let w = wrapped(s, vs.last());
        (advanced(s, vs.last()), ps.push((w.0, w.1, w.2)))
    }
}

/// Two rectangles, each given by left edge, top edge, width and height, lie
/// at least `GAP` apart, side by side or one above the other.
pub open spec fn apart(x1: int, t1: int, w1: int, h1: int, x2: int, t2: int, w2: int, h2: int) -> bool {
    x1 + w1 + GAP <= x2 || x2 + w2 + GAP <= x1 || t1 + h1 + GAP <= t2 || t2 + h2 + GAP <= t1
}

/// What holds of every packing and of its final cursor.
pub open spec fn packing_inv(vs: Seq<Variant>) -> bool {
    let (s, ps) = packing(vs);
    let (page, cx, top, shelf) = s;
    &&& ps.len() == vs.len()
    &&& 0 <= page <= vs.len()
    &&& MARGIN <= cx <= PAGE_W
    &&& MARGIN <= top
    &&& 0 <= shelf <= 13970
    &&& vs.len() > 0 ==> ps.last().0 == page
    &&& vs.len() == 0 ==> s == start_state()
    &&& vs.len() > 0 ==> ps[0].0 == 0
    &&& forall|i: int| 0 <= i < vs.len() - 1 ==> #[trigger] ps[i + 1].0 <= ps[i].0 + 1
    &&& forall|i: int|
        0 <= i < vs.len() ==> {
            &&& 0 <= #[trigger] ps[i].0 <= page
            &&& ps[i].0 <= i
            &&& MARGIN <= ps[i].1
            &&& ps[i].1 + vs[i].width() <= (PAGE_W - MARGIN) + SLACK
            &&& MARGIN <= ps[i].2
            &&& ps[i].2 + vs[i].height() <= (PAGE_H - MARGIN) + SLACK
            &&& ps[i].0 == page ==> {
                ||| (ps[i].2 == top && ps[i].1 + vs[i].width() + GAP <= cx && vs[i].height() <= shelf)
                ||| ps[i].2 + vs[i].height() + GAP <= top
            }
        }
    &&& forall|i: int, j: int|
        0 <= i < j < vs.len() ==> #[trigger] ps[i].0 <= #[trigger] ps[j].0
    &&& forall|i: int, j: int|
        0 <= i < j < vs.len() && #[trigger] ps[i].0 == #[trigger] ps[j].0 ==> apart(
            ps[i].1,
            ps[i].2,
            vs[i].width(),
            vs[i].height(),
            ps[j].1,
            ps[j].2,
            vs[j].width(),
            vs[j].height(),
        )
}

proof fn lemma_packing_inv(vs: Seq<Variant>)
    ensures
        packing_inv(vs),
    decreases vs.len(),
{
    if vs.len() > 0 {
        let pre = vs.drop_last();
        lemma_packing_inv(pre);
        let (s, ps) = packing(pre);
        let v = vs.last();
        let w = wrapped(s, v);
        let (s2, ps2) = packing(vs);
        assert(ps2 == ps.push((w.0, w.1, w.2)));
        assert forall|i: int| 0 <= i < pre.len() implies vs[i] == #[trigger] pre[i] by {}
        let n = pre.len() as int;
        assert(vs[n] == v);
        if n > 0 {
            assert(ps2[0] == ps[0]);
        }
        assert forall|i: int, j: int|
            0 <= i < j < vs.len() && #[trigger] ps2[i].0 == #[trigger] ps2[j].0 implies apart(
            ps2[i].1,
            ps2[i].2,
            vs[i].width(),
            vs[i].height(),
            ps2[j].1,
            ps2[j].2,
            vs[j].width(),
            vs[j].height(),
        ) by {
            if j < n {
                assert(pre[i] == vs[i] && pre[j] == vs[j]);
            } else {
                assert(ps[i].0 == ps2[i].0);
                assert(pre[i] == vs[i]);
            }
        }
    }
}


/// Each card's page, left edge and top edge (measured down from the top of
/// the page), read off the placements.
pub open spec fn placed(out: Seq<Placement>, vs: Seq<Variant>) -> Seq<(int, int, int)> {
    Seq::new(
        out.len(),
        |i: int| (out[i].page as int, out[i].x as int, PAGE_H - out[i].y - vs[i].height()),
    )
}

/// Card `j` is card `i` or an earlier card on the same shelf as card `i`.
pub open spec fn on_shelf_of(ps: Seq<(int, int, int)>, i: int, j: int) -> bool {
    0 <= j <= i && ps[j].0 == ps[i].0 && ps[j].2 == ps[i].2
}

/// Where the card after card `i` goes, read off the placements: to the right
/// of card `i` when it fits there in width and height; else below the
/// tallest card of card `i`'s shelf when it fits there; and only when it
/// fits in neither place, to the top left corner of the next page.
pub open spec fn follows(ps: Seq<(int, int, int)>, vs: Seq<Variant>, i: int) -> bool {
    let (p, x, t) = ps[i];
    let (p2, x2, t2) = ps[i + 1];
    let h2 = vs[i + 1].height();
    let bottom = (PAGE_H - MARGIN) + SLACK;
    let on_new_page = p2 == p + 1 && x2 == MARGIN && t2 == MARGIN;
    if x + vs[i].width() + GAP + vs[i + 1].width() <= (PAGE_W - MARGIN) + SLACK {
        if t + h2 <= bottom {
            p2 == p && x2 == x + vs[i].width() + GAP && t2 == t
        } else {
            on_new_page
        }
    } else if forall|j: int| #[trigger] on_shelf_of(ps, i, j) ==> t + vs[j].height() + GAP + h2 <= bottom {
        &&& p2 == p
        &&& x2 == MARGIN
        &&& exists|j: int| #[trigger] on_shelf_of(ps, i, j) && t2 == t + vs[j].height() + GAP
        &&& forall|j: int| #[trigger] on_shelf_of(ps, i, j) ==> t + vs[j].height() + GAP <= t2
    } else {
        on_new_page
    }
}

/// Cards flow in order: the first card at the top left corner of the first
/// page, and each next card where `follows` puts it.
pub open spec fn flows(ps: Seq<(int, int, int)>, vs: Seq<Variant>) -> bool {
    &&& ps.len() > 0 ==> ps[0] == (0int, MARGIN as int, MARGIN as int)
    &&& forall|i: int| 0 <= i < ps.len() - 1 ==> #[trigger] follows(ps, vs, i)
}

/// What the packing cursor holds after the last card: it stands right of
/// that card, at its shelf's top, with the height of the shelf's tallest card.
pub open spec fn cursor_inv(vs: Seq<Variant>) -> bool {
    let (s, ps) = packing(vs);
    let n = vs.len() as int;
    n > 0 ==> {
        &&& s.1 == ps[n - 1].1 + vs[n - 1].width() + GAP
        &&& s.2 == ps[n - 1].2
        &&& exists|j: int| #[trigger] on_shelf_of(ps, n - 1, j) && vs[j].height() == s.3
        &&& forall|j: int| #[trigger] on_shelf_of(ps, n - 1, j) ==> vs[j].height() <= s.3
    }
}

proof fn lemma_follows_prefix(
    ps: Seq<(int, int, int)>,
    vs: Seq<Variant>,
    ps2: Seq<(int, int, int)>,
    vs2: Seq<Variant>,
    i: int,
)
    requires
        0 <= i,
        i + 2 <= ps.len(),
        i + 2 <= ps2.len(),
        i + 2 <= vs.len(),
        i + 2 <= vs2.len(),
        forall|k: int| 0 <= k < i + 2 ==> ps[k] == ps2[k] && vs[k] == vs2[k],
        follows(ps, vs, i),
    ensures
        follows(ps2, vs2, i),
{
    assert forall|j: int| on_shelf_of(ps, i, j) == on_shelf_of(ps2, i, j) by {
        if 0 <= j <= i {
            assert(ps[j] == ps2[j]);
        }
    }
    assert forall|j: int| #[trigger] on_shelf_of(ps2, i, j) implies vs[j] == vs2[j] by {}
    assert(ps[i] == ps2[i] && ps[i + 1] == ps2[i + 1]);
    assert(vs[i] == vs2[i] && vs[i + 1] == vs2[i + 1]);
    let (p, x, t) = ps[i];
    let h2 = vs[i + 1].height();
    let bottom = (PAGE_H - MARGIN) + SLACK;
    if !(x + vs[i].width() + GAP + vs[i + 1].width() <= (PAGE_W - MARGIN) + SLACK) {
        let all1 = forall|j: int| #[trigger] on_shelf_of(ps, i, j) ==> t + vs[j].height() + GAP + h2 <= bottom;
        let all2 = forall|j: int| #[trigger] on_shelf_of(ps2, i, j) ==> t + vs2[j].height() + GAP + h2 <= bottom;
        assert(all1 == all2) by {
            if all1 {
                assert forall|j: int| #[trigger] on_shelf_of(ps2, i, j) implies t + vs2[j].height() + GAP + h2 <= bottom by {
                    assert(on_shelf_of(ps, i, j));
                }
            }
            if all2 {
                assert forall|j: int| #[trigger] on_shelf_of(ps, i, j) implies t + vs[j].height() + GAP + h2 <= bottom by {
                    assert(on_shelf_of(ps2, i, j));
                }
            }
        }
        if all1 {
            let t2 = ps[i + 1].2;
            let j0 = choose|j: int| #[trigger] on_shelf_of(ps, i, j) && t2 == t + vs[j].height() + GAP;
            assert(on_shelf_of(ps2, i, j0));
            assert forall|j: int| #[trigger] on_shelf_of(ps2, i, j) implies t + vs2[j].height() + GAP <= t2 by {
                assert(on_shelf_of(ps, i, j));
            }
        }
    }
}

proof fn lemma_flows(vs: Seq<Variant>)
    ensures
        flows(packing(vs).1, vs),
        cursor_inv(vs),
    decreases vs.len(),
{
    lemma_packing_inv(vs);
    let n = vs.len() as int;
    if n > 0 {
        let pre = vs.drop_last();
        lemma_flows(pre);
        lemma_packing_inv(pre);
        let (s, ps) = packing(pre);
        let v = vs.last();
        let w = wrapped(s, v);
        let (s2, ps2) = packing(vs);
        assert(ps2 == ps.push((w.0, w.1, w.2)));
        assert(s2 == advanced(s, v));
        assert forall|k: int| 0 <= k < n - 1 implies vs[k] == #[trigger] pre[k] by {}
        assert(vs[n - 1] == v);
        // cards before the last keep their places and their rule
        assert forall|i: int| 0 <= i < n - 2 implies #[trigger] follows(ps2, vs, i) by {
            assert(follows(ps, pre, i));
            assert forall|k: int| 0 <= k < i + 2 implies ps[k] == ps2[k] && pre[k] == vs[k] by {}
            lemma_follows_prefix(ps, pre, ps2, vs, i);
        }
        if n == 1 {
            assert(ps2[0] == (0int, MARGIN as int, MARGIN as int));
        } else {
            assert(ps2[0] == ps[0]);
            let i = n - 2;
            assert(ps2[i] == ps[i]);
            assert(ps2[i + 1] == (w.0, w.1, w.2));
            assert(pre[i] == vs[i]);
            assert forall|j: int| #[trigger] on_shelf_of(ps2, i, j) == on_shelf_of(ps, i, j) by {
                if 0 <= j <= i {
                    assert(ps2[j] == ps[j]);
                }
            }
            assert forall|j: int| #[trigger] on_shelf_of(ps2, i, j) implies vs[j] == pre[j] by {}
            let (p, x, t) = ps[i];
            let h2 = v.height();
            let bottom = (PAGE_H - MARGIN) + SLACK;
            if !(x + vs[i].width() + GAP + v.width() <= (PAGE_W - MARGIN) + SLACK) {
                let jm = choose|j: int| #[trigger] on_shelf_of(ps, i, j) && pre[j].height() == s.3;
                if forall|j: int| #[trigger] on_shelf_of(ps2, i, j) ==> t + vs[j].height() + GAP + h2 <= bottom {
                    assert(on_shelf_of(ps2, i, jm));
                    assert(on_shelf_of(ps2, i, jm) && w.2 == t + vs[jm].height() + GAP);
                    assert forall|j: int| #[trigger] on_shelf_of(ps2, i, j) implies t + vs[j].height() + GAP <= w.2 by {
                        assert(on_shelf_of(ps, i, j));
                    }
                } else {
                    let jb = choose|j: int| #[trigger] on_shelf_of(ps2, i, j) && !(t + vs[j].height() + GAP + h2 <= bottom);
                    assert(on_shelf_of(ps, i, jb));
                }
            }
            assert(follows(ps2, vs, i));
        }
        assert forall|i: int| 0 <= i < n - 1 implies #[trigger] follows(ps2, vs, i) by {
            if i < n - 2 {
            }
        }
        // the cursor after the new card
        let last = n - 1;
        assert(ps2[last] == (w.0, w.1, w.2));
        if w.3 == 0 {
            assert(on_shelf_of(ps2, last, last));
            assert forall|j: int| #[trigger] on_shelf_of(ps2, last, j) implies vs[j].height() <= s2.3 by {
                if j < last {
                    assert(ps2[j] == ps[j]);
                    if w.0 == s.0 {
                        assert(w.2 == s.2 + s.3 + GAP);
                    }
                }
            }
        } else {
            assert(w == s);
            assert(n > 1);
            let jm = choose|j: int| #[trigger] on_shelf_of(ps, n - 2, j) && pre[j].height() == s.3;
            if s.3 < v.height() {
                assert(on_shelf_of(ps2, last, last));
            } else {
                assert(ps2[jm] == ps[jm]);
                assert(on_shelf_of(ps2, last, jm));
            }
            assert forall|j: int| #[trigger] on_shelf_of(ps2, last, j) implies vs[j].height() <= s2.3 by {
                if j < last {
                    assert(ps2[j] == ps[j]);
                    assert(on_shelf_of(ps, n - 2, j));
                }
            }
        }
    }
}

/// Law of the shelf packing, for every sequence of card formats: the first
/// card sits at the top left corner of the first page; each later card goes
/// to the right of the card before it when it fits there in width and height,
/// else below the tallest card of that card's shelf when it fits there, and
/// starts a new page only when it fits in neither place.
pub proof fn lemma_packing_flows(vs: Seq<Variant>)
    ensures
        flows(packing(vs).1, vs),
{
    lemma_flows(vs);
}

/// Cards by format, in order.
pub open spec fn card_variants(cards: Seq<Card>) -> Seq<Variant> {
    cards.map_values(|c: Card| c.variant)
}

/// One card to print: its format and the recipient named on it.
#[derive(Debug)]
pub struct Card {
    pub variant: Variant,
    pub recipient: String,
}

/// Place the cards, in order, shelf by shelf and page by page on US-Letter
/// sheets: a card goes to the right of the previous one, or starts a new
/// shelf below the tallest card of the current shelf when it would pass the
/// right margin, or starts a new page when it would pass the bottom margin.
pub fn pack(cards: &[Card]) -> (out: Vec<Placement>)
    ensures
        out@.len() == cards@.len(),
        forall|i: int|
            #![trigger out@[i]]
            0 <= i < out@.len() ==> {
                let vs = card_variants(cards@);
                let p = packing(vs).1[i];
                &&& out@[i].card_index == i
                &&& out@[i].page == p.0
                &&& out@[i].x == p.1
                &&& out@[i].y == PAGE_H - p.2 - vs[i].height()
            },
        // every card lies on the sheet, inside its margins up to the slack
        forall|i: int|
            #![trigger out@[i]]
            0 <= i < out@.len() ==> {
                let (w, h) = (cards@[i].variant.width(), cards@[i].variant.height());
                &&& MARGIN <= out@[i].x
                &&& out@[i].x + w <= (PAGE_W - MARGIN) + SLACK
                &&& MARGIN - SLACK <= out@[i].y
                &&& out@[i].y + h <= PAGE_H - MARGIN
            },
        // cards fill the pages in order, starting on the first page
        out@.len() > 0 ==> out@[0].page == 0,
        forall|i: int| 0 <= i < out@.len() ==> #[trigger] out@[i].page <= i,
        forall|i: int, j: int|
            0 <= i < j < out@.len() ==> #[trigger] out@[i].page <= #[trigger] out@[j].page,
        forall|i: int|
            0 <= i < out@.len() - 1 ==> #[trigger] out@[i + 1].page <= out@[i].page + 1,
        // cards flow shelf by shelf: a card goes right of the previous one when
        // it fits there, else below the current shelf when it fits there, and
        // starts a new page only when it fits in neither place
        flows(placed(out@, card_variants(cards@)), card_variants(cards@)),
        forall|i: int|
            #![trigger out@[i + 1]]
            0 <= i < out@.len() - 1 ==> {
                let (wi, hi) = (cards@[i].variant.width(), cards@[i].variant.height());
                let (wn, hn) = (cards@[i + 1].variant.width(), cards@[i + 1].variant.height());
                out@[i].x + wi + GAP + wn <= (PAGE_W - MARGIN) + SLACK && (PAGE_H - out@[i].y
                    - hi) + hn <= (PAGE_H - MARGIN) + SLACK ==> out@[i + 1].page == out@[i].page
                    && out@[i + 1].x == out@[i].x + wi + GAP && out@[i + 1].y + hn == out@[i].y
                    + hi
            },
        // no two cards on the same page overlap: they lie at least the 5 mm
        // gap apart, for the cut lines
        forall|i: int, j: int|
            0 <= i < j < out@.len() && #[trigger] out@[i].page == #[trigger] out@[j].page
                ==> {
                let (wi, hi) = (cards@[i].variant.width(), cards@[i].variant.height());
                let (wj, hj) = (cards@[j].variant.width(), cards@[j].variant.height());
                out@[i].x + wi + GAP <= out@[j].x || out@[j].x + wj + GAP <= out@[i].x || out@[i].y
                    + hi + GAP <= out@[j].y || out@[j].y + hj + GAP <= out@[i].y
            },
{
    let ghost vs = card_variants(cards@);
    let mut out: Vec<Placement> = Vec::new();
    let mut page: usize = 0;
    let mut cursor_x: u64 = MARGIN;
    let mut cursor_top: u64 = MARGIN;
    let mut shelf_h: u64 = 0;
    let n = cards.len();
    let mut i: usize = 0;
    while i < n
        invariant
            n == cards@.len(),
            vs == card_variants(cards@),
            0 <= i <= n,
            (page as int, cursor_x as int, cursor_top as int, shelf_h as int) == packing(
                vs.take(i as int),
            ).0,
            out@.len() == i,
            forall|k: int|
                #![trigger out@[k]]
                0 <= k < i ==> {
                    let p = packing(vs.take(i as int)).1[k];
                    &&& out@[k].card_index == k
                    &&& out@[k].page == p.0
                    &&& out@[k].x == p.1
                    &&& out@[k].y == PAGE_H - p.2 - vs[k].height()
                },
        decreases n - i,
    {
        proof {
            lemma_packing_inv(vs.take(i as int));
            assert(vs.take(i + 1).drop_last() =~= vs.take(i as int));
            assert(vs.take(i + 1).last() == vs[i as int]);
        }
        let (w, h) = cards[i].variant.size();
        if cursor_x + w > (PAGE_W - MARGIN) + SLACK {
            cursor_x = MARGIN;
            cursor_top = cursor_top + shelf_h + GAP;
            shelf_h = 0;
        }
        if cursor_top + h > (PAGE_H - MARGIN) + SLACK {
            page = page + 1;
            cursor_x = MARGIN;
            cursor_top = MARGIN;
            shelf_h = 0;
        }
        let y_bottom = PAGE_H - cursor_top - h;
        out.push(Placement { card_index: i, page, x: cursor_x, y: y_bottom });
        cursor_x = cursor_x + w + GAP;
        if shelf_h < h {
            shelf_h = h;
        }
        i = i + 1;
    }
    proof {
        assert(vs.take(n as int) =~= vs);
        lemma_packing_inv(vs);
        lemma_flows(vs);
        assert(placed(out@, vs) =~= packing(vs).1);
        assert forall|i: int| 0 <= i < out@.len() - 1 implies #[trigger] follows(
            placed(out@, vs),
            vs,
            i,
        ) by {
            assert(follows(packing(vs).1, vs, i));
        }
        assert forall|i: int| #![trigger out@[i + 1]] 0 <= i < out@.len() - 1 implies {
            let (wi, hi) = (cards@[i].variant.width(), cards@[i].variant.height());
            let (wn, hn) = (cards@[i + 1].variant.width(), cards@[i + 1].variant.height());
            out@[i].x + wi + GAP + wn <= (PAGE_W - MARGIN) + SLACK && (PAGE_H - out@[i].y - hi) + hn
                <= (PAGE_H - MARGIN) + SLACK ==> out@[i + 1].page == out@[i].page && out@[i + 1].x
                == out@[i].x + wi + GAP && out@[i + 1].y + hn == out@[i].y + hi
        } by {
            assert(follows(packing(vs).1, vs, i));
            assert(vs[i] == cards@[i].variant && vs[i + 1] == cards@[i + 1].variant);
        }
    }
    out
}


/// How many copies of each card to print.
#[derive(Clone, Copy, Debug, PartialEq, Eq, Structural)]
pub struct PdfRequest {
    pub coach: u32,
    pub scorekeeper: u32,
    pub self_copy: u32,
    pub umpire: u32,
}

/// The format and recipient of the `i`-th card of a request: the home coach's
/// copies first, then the scorekeeper's, the manager's, and last the umpire's.
pub open spec fn requested_card(req: PdfRequest, i: int) -> (Variant, Seq<char>) {
    if i < req.coach {
        (Variant::Large, "HOME COACH"@)
    } else if i < req.coach + req.scorekeeper {
        (Variant::Large, "SCOREKEEPER"@)
    } else if i < req.coach + req.scorekeeper + req.self_copy {
        (Variant::Large, "MANAGER COPY"@)
    } else {
        (Variant::Umpire, "UMPIRE"@)
    }
}

/// Total number of cards a request asks for.
pub open spec fn requested_count(req: PdfRequest) -> int {
    req.coach + req.scorekeeper + req.self_copy + req.umpire
}

fn push_copies(cards: &mut Vec<Card>, variant: Variant, label: &str, n: u32)
    ensures
        final(cards)@.len() == old(cards)@.len() + n,
        forall|i: int|
            0 <= i < old(cards)@.len() ==> #[trigger] final(cards)@[i] == old(cards)@[i],
        forall|i: int|
            old(cards)@.len() <= i < final(cards)@.len() ==> #[trigger] final(cards)@[i].variant
                == variant && final(cards)@[i].recipient@ == label@,
{
    let ghost start = cards@;
    let mut k: u32 = 0;
    while k < n
        invariant
            0 <= k <= n,
            cards@.len() == start.len() + k,
            forall|i: int| 0 <= i < start.len() ==> #[trigger] cards@[i] == start[i],
            forall|i: int|
                start.len() <= i < cards@.len() ==> #[trigger] cards@[i].variant == variant
                    && cards@[i].recipient@ == label@,
        decreases n - k,
    {
        cards.push(Card { variant, recipient: String::from_str(label) });
        k = k + 1;
    }
}

/// The place of a recipient in printing order.
pub open spec fn recipient_rank(label: Seq<char>) -> int {
    if label == "HOME COACH"@ {
        0
    } else if label == "SCOREKEEPER"@ {
        1
    } else if label == "MANAGER COPY"@ {
        2
    } else {
        3
    }
}

/// The recipients a download prints for.
pub open spec fn is_recipient(label: Seq<char>) -> bool {
    label == "HOME COACH"@ || label == "SCOREKEEPER"@ || label == "MANAGER COPY"@ || label
        == "UMPIRE"@
}

/// Every card of a request: its format follows from its recipient (the
/// umpire gets the umpire-size card, everyone else a large one), only the
/// four recipients occur, and they come in printing order.
pub proof fn lemma_requested_cards(req: PdfRequest)
    ensures
        forall|i: int|
            0 <= i < requested_count(req) ==> {
                let (v, label) = #[trigger] requested_card(req, i);
                &&& is_recipient(label)
                &&& (v == Variant::Umpire <==> label == "UMPIRE"@)
            },
        forall|i: int, j: int|
            0 <= i <= j < requested_count(req) ==> recipient_rank(
                #[trigger] requested_card(req, i).1,
            ) <= recipient_rank(#[trigger] requested_card(req, j).1),
{
    lemma_recipients_distinct();
}

proof fn lemma_recipients_distinct()
    ensures
        "HOME COACH"@ != "UMPIRE"@,
        "SCOREKEEPER"@ != "UMPIRE"@,
        "MANAGER COPY"@ != "UMPIRE"@,
        "HOME COACH"@ != "SCOREKEEPER"@,
        "HOME COACH"@ != "MANAGER COPY"@,
        "SCOREKEEPER"@ != "MANAGER COPY"@,
{
    reveal_strlit("HOME COACH");
    reveal_strlit("SCOREKEEPER");
    reveal_strlit("MANAGER COPY");
    reveal_strlit("UMPIRE");
    assert("HOME COACH"@.len() != "UMPIRE"@.len());
    assert("SCOREKEEPER"@.len() != "UMPIRE"@.len());
    assert("MANAGER COPY"@.len() != "UMPIRE"@.len());
    assert("HOME COACH"@.len() != "SCOREKEEPER"@.len());
    assert("HOME COACH"@.len() != "MANAGER COPY"@.len());
    assert("SCOREKEEPER"@.len() != "MANAGER COPY"@.len());
}

/// The cards a request asks for, in printing order.
pub fn build_cards(req: &PdfRequest) -> (cards: Vec<Card>)
    ensures
        cards@.len() == requested_count(*req),
        forall|i: int|
            0 <= i < cards@.len() ==> (#[trigger] cards@[i]).variant == requested_card(*req, i).0
                && cards@[i].recipient@ == requested_card(*req, i).1,
        // a card's format follows from its recipient
        forall|i: int|
            0 <= i < cards@.len() ==> (#[trigger] cards@[i]).variant == (if cards@[i].recipient@
                == "UMPIRE"@ {
                Variant::Umpire
            } else {
                Variant::Large
            }),
        // only the four recipients, in printing order
        forall|i: int| 0 <= i < cards@.len() ==> is_recipient((#[trigger] cards@[i]).recipient@),
        forall|i: int, j: int|
            0 <= i <= j < cards@.len() ==> recipient_rank((#[trigger] cards@[i]).recipient@)
                <= recipient_rank((#[trigger] cards@[j]).recipient@),
        // the first cards are the home coach's copies and the last the umpire's
        forall|i: int|
            0 <= i < cards@.len() ==> ((#[trigger] cards@[i]).recipient@ == "HOME COACH"@ <==> i
                < req.coach),
        forall|i: int|
            0 <= i < cards@.len() ==> ((#[trigger] cards@[i]).recipient@ == "UMPIRE"@ <==> i
                >= cards@.len() - req.umpire),
{
    proof {
        lemma_recipients_distinct();
        lemma_requested_cards(*req);
    }
    let mut cards: Vec<Card> = Vec::new();
    push_copies(&mut cards, Variant::Large, "HOME COACH", req.coach);
    push_copies(&mut cards, Variant::Large, "SCOREKEEPER", req.scorekeeper);
    push_copies(&mut cards, Variant::Large, "MANAGER COPY", req.self_copy);
    push_copies(&mut cards, Variant::Umpire, "UMPIRE", req.umpire);
    proof {
        assert forall|i: int| 0 <= i < cards@.len() implies (#[trigger] cards@[i]).variant
            == requested_card(*req, i).0 && cards@[i].recipient@ == requested_card(*req, i).1 by {
            let (c, s, m) = (req.coach as int, req.scorekeeper as int, req.self_copy as int);
            if i < c {
            } else if i < c + s {
            } else if i < c + s + m {
            } else {
            }
        }
        assert forall|i: int| 0 <= i < cards@.len() implies is_recipient(
            (#[trigger] cards@[i]).recipient@,
        ) by {
            assert(cards@[i].recipient@ == requested_card(*req, i).1);
            assert(is_recipient(requested_card(*req, i).1));
        }
        assert forall|i: int, j: int| 0 <= i <= j < cards@.len() implies recipient_rank(
            (#[trigger] cards@[i]).recipient@,
        ) <= recipient_rank((#[trigger] cards@[j]).recipient@) by {
            assert(cards@[i].recipient@ == requested_card(*req, i).1);
            assert(cards@[j].recipient@ == requested_card(*req, j).1);
            assert(recipient_rank(requested_card(*req, i).1) <= recipient_rank(
                requested_card(*req, j).1,
            ));
        }
    }
    cards
}

/// Number of pages that the placements use: one past the highest page, and
/// one page for an empty sheet.
pub fn page_count(placements: &[Placement]) -> (n: usize)
    requires
        forall|i: int| 0 <= i < placements@.len() ==> #[trigger] placements@[i].page < usize::MAX,
    ensures
        n >= 1,
        forall|i: int| 0 <= i < placements@.len() ==> #[trigger] placements@[i].page < n,
        placements@.len() == 0 ==> n == 1,
        placements@.len() > 0 ==> exists|i: int|
            0 <= i < placements@.len() && #[trigger] placements@[i].page + 1 == n,
{
    let mut best: Option<usize> = None;
    let mut i: usize = 0;
    while i < placements.len()
        invariant
            0 <= i <= placements@.len(),
            forall|k: int| 0 <= k < placements@.len() ==> #[trigger] placements@[k].page < usize::MAX,
            i == 0 <==> best is None,
            best matches Some(b) ==> {
                &&& forall|k: int| 0 <= k < i ==> #[trigger] placements@[k].page < b
                &&& exists|k: int| 0 <= k < i && #[trigger] placements@[k].page + 1 == b
            },
        decreases placements@.len() - i,
    {
        let candidate = placements[i].page + 1;
        match best {
            Some(b) => {
                if b < candidate {
                    best = Some(candidate);
                }
            },
            None => {
                best = Some(candidate);
            },
        }
        i = i + 1;
    }
    match best {
        Some(b) => b,
        None => 1,
    }
}

} // verus!
