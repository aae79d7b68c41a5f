//! The icons of the home screen: the slots they slide to, and arrange mode, in
//! which they are dragged to new ones.
use vstd::prelude::*;

use crate::input_dispatch::IconSource;
use crate::library::{page_count_of, page_total};
use crate::text::{copy, is_listed, same, texts};
use crate::time::{elapsed, since, Nanos};
use crate::ui_state::AppRef;

verus! {

/// How long a press on an icon lasts before arrange mode engages.
pub const HOLD: Nanos = 500_000_000;

/// How long an icon is held against an edge before the page flips.
pub const EDGE_DWELL: Nanos = 400_000_000;

/// How many icons a page holds.
pub const PAGE_CAP: usize = 24;

/// What stands in the gap that the icons open for the one being dragged. It is
/// no app: no id starts with a zero character.
pub const HOLE: &'static str = "\u{0}hole";

// ---------------------------------------------------------------------------
// The order of the icons
// ---------------------------------------------------------------------------

/// What a list of pages holds.
pub open spec fn page_texts(pages: Seq<Vec<String>>) -> Seq<Seq<Seq<char>>> {
    pages.map_values(|p: Vec<String>| texts(p@))
}

/// The apps of a page other than `dragged`.
pub open spec fn others_on(page: Seq<Seq<char>>, dragged: Seq<char>) -> Seq<Seq<char>>
    decreases page.len(),
{
    if page.len() == 0 {
        Seq::empty()
    } else {
        let rest = others_on(page.drop_last(), dragged);
        if page.last() == dragged {
            rest
        } else {
            rest.push(page.last())
        }
    }
}

/// The apps of all pages other than `dragged`, in one row.
pub open spec fn others(pages: Seq<Seq<Seq<char>>>, dragged: Seq<char>) -> Seq<Seq<char>>
    decreases pages.len(),
{
    if pages.len() == 0 {
        Seq::empty()
    } else {
        others(pages.drop_last(), dragged) + others_on(pages.last(), dragged)
    }
}

/// Where in the row of `len` icons a hole for the slot `index` of `page` opens.
pub open spec fn hole_at(page: usize, index: usize, len: nat) -> int {
    if page * PAGE_CAP + index <= len {
        page * PAGE_CAP + index
    } else {
        len as int
    }
}

/// A row cut into pages.
pub open spec fn chunked(row: Seq<Seq<char>>) -> Seq<Seq<Seq<char>>>
    decreases row.len(),
{
    if row.len() == 0 {
        Seq::empty()
    } else if row.len() <= PAGE_CAP {
        seq![row]
    } else {
        seq![row.take(PAGE_CAP as int)] + chunked(row.skip(PAGE_CAP as int))
    }
}

/// The row of icons while `dragged` is in the air: without it, and with a hole
/// where it hovers.
pub open spec fn parted(
    pages: Seq<Seq<Seq<char>>>,
    dragged: Seq<char>,
    hover: Option<(usize, usize)>,
) -> Seq<Seq<char>> {
    let row = others(pages, dragged);
    match hover {
        Some((page, index)) => row.insert(hole_at(page, index, row.len()), HOLE@),
        None => row,
    }
}

fn append_others(row: &mut Vec<String>, page: &Vec<String>, dragged: &str)
    ensures
        texts(final(row)@) == texts(old(row)@) + others_on(texts(page@), dragged@),
{
    let ghost before = texts(row@);
    let ghost all = texts(page@);
    let mut i: usize = 0;
    proof {
        assert(all.take(0) =~= Seq::<Seq<char>>::empty());
    }
    while i < page.len()
        invariant
            i <= page.len(),
            all == texts(page@),
            texts(row@) =~= before + others_on(all.take(i as int), dragged@),
        decreases page.len() - i,
    {
        let ghost so_far = texts(row@);
        proof {
            assert(all.take(i + 1).drop_last() =~= all.take(i as int));
            assert(all.take(i + 1).last() == page@[i as int]@);
        }
        if !same(page[i].as_str(), dragged) {
            row.push(copy(page[i].as_str()));
            proof {
                assert(texts(row@) =~= so_far.push(page@[i as int]@));
            }
        }
        i = i + 1;
    }
    proof {
        assert(all.take(i as int) =~= all);
    }
}

fn chunk(row: &Vec<String>) -> (out: Vec<Vec<String>>)
    ensures
        page_texts(out@) == chunked(texts(row@)),
{
    let ghost all = texts(row@);
    let mut out: Vec<Vec<String>> = Vec::new();
    let mut i: usize = 0;
    proof {
        assert(all.skip(0) =~= all);
    }
    while i < row.len()
        invariant
            i <= row.len(),
            all == texts(row@),
            page_texts(out@) + chunked(all.skip(i as int)) == chunked(all),
        decreases row.len() - i,
    {
        let end: usize = if row.len() - i <= PAGE_CAP {
            row.len()
        } else {
            i + PAGE_CAP
        };
        let mut page: Vec<String> = Vec::new();
        let mut j: usize = i;
        while j < end
            invariant
                i <= j <= end <= row.len(),
                all == texts(row@),
                texts(page@) =~= all.subrange(i as int, j as int),
            decreases end - j,
        {
            let ghost so_far = texts(page@);
            page.push(copy(row[j].as_str()));
            proof {
                assert(texts(page@) =~= so_far.push(row@[j as int]@));
                assert(all[j as int] == row@[j as int]@);
            }
            j = j + 1;
        }
        let ghost before = page_texts(out@);
        out.push(page);
        proof {
            let rest = all.skip(i as int);
            let this = texts(page@);
            assert(page_texts(out@) =~= before.push(this));
            assert(rest.skip(end - i) =~= all.skip(end as int));
            assert(rest.take(end - i) =~= all.subrange(i as int, end as int));
            if rest.len() <= PAGE_CAP {
                assert(this =~= rest);
                assert(chunked(all.skip(end as int)) =~= Seq::<Seq<Seq<char>>>::empty());
            }
            assert(before + (seq![this] + chunked(all.skip(end as int))) =~= before.push(this)
                + chunked(all.skip(end as int)));
            assert(chunked(rest) =~= seq![this] + chunked(all.skip(end as int)));
        }
        i = end;
    }
    proof {
        assert(page_texts(out@) + chunked(all.skip(i as int)) =~= page_texts(out@));
    }
    out
}

/// The order of the icons while `dragged` is in the air: without it, and with a
/// hole where it hovers, so that the others part for it.
pub fn working_order(
    pages: &Vec<Vec<String>>,
    dragged: &str,
    hover: Option<(usize, usize)>,
) -> (out: Vec<Vec<String>>)
    ensures
        page_texts(out@) == chunked(parted(page_texts(pages@), dragged@, hover)),
{
    let ghost all = page_texts(pages@);
    let mut row: Vec<String> = Vec::new();
    let mut i: usize = 0;
    proof {
        assert(all.take(0) =~= Seq::<Seq<Seq<char>>>::empty());
        assert(texts(row@) =~= Seq::<Seq<char>>::empty());
    }
    while i < pages.len()
        invariant
            i <= pages.len(),
            all == page_texts(pages@),
            texts(row@) == others(all.take(i as int), dragged@),
        decreases pages.len() - i,
    {
        proof {
            assert(all.take(i + 1).drop_last() =~= all.take(i as int));
            assert(all.take(i + 1).last() == texts(pages@[i as int]@));
        }
        append_others(&mut row, &pages[i], dragged);
        i = i + 1;
    }
    proof {
        assert(all.take(i as int) =~= all);
        assert(texts(row@).len() == row@.len());
    }
    match hover {
        Some((page, index)) => {
            let at: usize = if page > row.len() / PAGE_CAP || index > row.len() - page * PAGE_CAP {
                row.len()
            } else {
                page * PAGE_CAP + index
            };
            let ghost before = texts(row@);
            row.insert(at, copy(HOLE));
            proof {
                assert(at == hole_at(page, index, before.len()));
                assert(texts(row@) =~= before.insert(at as int, HOLE@));
            }
        },
        None => {},
    }
    chunk(&row)
}

/// All the pages in one row.
pub open spec fn in_a_row(pages: Seq<Seq<Seq<char>>>) -> Seq<Seq<char>>
    decreases pages.len(),
{
    if pages.len() == 0 {
        Seq::empty()
    } else {
        pages[0] + in_a_row(pages.skip(1))
    }
}

/// Cutting a row into pages loses and moves nothing, no page is empty, and none
/// holds more than a page does.
pub proof fn law_pages_hold_the_row(row: Seq<Seq<char>>)
    ensures
        in_a_row(chunked(row)) == row,
        forall|p: int|
            0 <= p < chunked(row).len() ==> 0 < (#[trigger] chunked(row)[p]).len() <= PAGE_CAP,
    decreases row.len(),
{
    if row.len() > PAGE_CAP {
        let head = row.take(PAGE_CAP as int);
        let rest = row.skip(PAGE_CAP as int);
        law_pages_hold_the_row(rest);
        assert(chunked(row).skip(1) =~= chunked(rest));
        assert(in_a_row(chunked(row)) =~= head + rest);
        assert forall|p: int| 0 <= p < chunked(row).len() implies 0 < (#[trigger] chunked(
            row,
        )[p]).len() <= PAGE_CAP by {
            if p > 0 {
                assert(chunked(row)[p] == chunked(rest)[p - 1]);
            }
        }
    } else if row.len() > 0 {
        assert(chunked(row).skip(1) =~= Seq::<Seq<Seq<char>>>::empty());
        assert(in_a_row(chunked(row).skip(1)) =~= Seq::<Seq<char>>::empty());
        assert(in_a_row(chunked(row)) =~= row);
    }
}

/// The icon in the air is nowhere in the row, and every other icon that was on a
/// page still is.
pub proof fn law_only_the_dragged_icon_leaves(pages: Seq<Seq<Seq<char>>>, dragged: Seq<char>, app: Seq<char>)
    ensures
        others(pages, dragged).contains(app) <==> app != dragged && exists|p: int|
            0 <= p < pages.len() && (#[trigger] pages[p]).contains(app),
    decreases pages.len(),
{
    if pages.len() > 0 {
        let less = pages.drop_last();
        law_only_the_dragged_icon_leaves(less, dragged, app);
        lemma_others_on(pages.last(), dragged, app);
        let a = others(less, dragged);
        let b = others_on(pages.last(), dragged);
        assert(others(pages, dragged) == a + b);
        if (a + b).contains(app) {
            let k = choose|k: int| 0 <= k < (a + b).len() && (a + b)[k] == app;
            if k < a.len() {
                assert(a[k] == app);
                let p = choose|p: int| 0 <= p < less.len() && (#[trigger] less[p]).contains(app);
                assert(pages[p].contains(app));
            } else {
                assert(b[k - a.len()] == app);
                assert(pages[pages.len() - 1].contains(app));
            }
        }
        if app != dragged && exists|p: int| 0 <= p < pages.len() && (#[trigger] pages[p]).contains(app) {
            let p = choose|p: int| 0 <= p < pages.len() && (#[trigger] pages[p]).contains(app);
            if p < less.len() {
                assert(less[p].contains(app));
                let k = choose|k: int| 0 <= k < a.len() && a[k] == app;
                assert((a + b)[k] == app);
            } else {
                let k = choose|k: int| 0 <= k < b.len() && b[k] == app;
                assert((a + b)[a.len() + k] == app);
            }
        }
    }
}

proof fn lemma_others_on(page: Seq<Seq<char>>, dragged: Seq<char>, app: Seq<char>)
    ensures
        others_on(page, dragged).contains(app) <==> app != dragged && page.contains(app),
    decreases page.len(),
{
    if page.len() > 0 {
        let less = page.drop_last();
        lemma_others_on(less, dragged, app);
        let rest = others_on(less, dragged);
        let now = others_on(page, dragged);
        if now.contains(app) {
            let k = choose|k: int| 0 <= k < now.len() && now[k] == app;
            if k < rest.len() {
                assert(rest[k] == app);
                let j = choose|j: int| 0 <= j < less.len() && less[j] == app;
                assert(page[j] == app);
            } else {
                assert(page[page.len() - 1] == app);
            }
        }
        if app != dragged && page.contains(app) {
            let j = choose|j: int| 0 <= j < page.len() && page[j] == app;
            if j < less.len() {
                assert(less[j] == app);
                let k = choose|k: int| 0 <= k < rest.len() && rest[k] == app;
                assert(now[k] == app);
            } else {
                assert(now[rest.len() as int] == app);
            }
        }
    }
}

// ---------------------------------------------------------------------------
// Sliding to the slots
// ---------------------------------------------------------------------------

/// Where an icon belongs.
#[derive(Debug)]
pub struct Slot {
    pub app_id: String,
    pub page: usize,
    pub index: usize,
}

/// What a list of slots holds.
pub open spec fn slot_views(slots: Seq<Slot>) -> Seq<(Seq<char>, int, int)> {
    slots.map_values(|s: Slot| (s.app_id@, s.page as int, s.index as int))
}

/// The slots of the icons of one page, without the hole.
pub open spec fn slots_on(page: Seq<Seq<char>>, number: int) -> Seq<(Seq<char>, int, int)>
    decreases page.len(),
{
    if page.len() == 0 {
        Seq::empty()
    } else {
        let rest = slots_on(page.drop_last(), number);
        if page.last() == HOLE@ {
            rest
        } else {
            rest.push((page.last(), number, page.len() - 1))
        }
    }
}

/// The slots of the icons of all pages, without the hole.
pub open spec fn slots_of(pages: Seq<Seq<Seq<char>>>) -> Seq<(Seq<char>, int, int)>
    decreases pages.len(),
{
    if pages.len() == 0 {
        Seq::empty()
    } else {
        slots_of(pages.drop_last()) + slots_on(pages.last(), pages.len() - 1)
    }
}

fn list_slots(pages: &Vec<Vec<String>>) -> (out: Vec<Slot>)
    ensures
        slot_views(out@) == slots_of(page_texts(pages@)),
{
    let ghost all = page_texts(pages@);
    let mut out: Vec<Slot> = Vec::new();
    let mut p: usize = 0;
    proof {
        assert(all.take(0) =~= Seq::<Seq<Seq<char>>>::empty());
        assert(slot_views(out@) =~= slots_of(all.take(0)));
    }
    while p < pages.len()
        invariant
            p <= pages.len(),
            all == page_texts(pages@),
            slot_views(out@) == slots_of(all.take(p as int)),
        decreases pages.len() - p,
    {
        let page: &Vec<String> = &pages[p];
        let ghost before = slot_views(out@);
        let ghost here = texts(page@);
        let mut i: usize = 0;
        proof {
            assert(here.take(0) =~= Seq::<Seq<char>>::empty());
            assert(before + slots_on(here.take(0), p as int) =~= before);
        }
        while i < page.len()
            invariant
                i <= page.len(),
                here == texts(page@),
                slot_views(out@) == before + slots_on(here.take(i as int), p as int),
            decreases page.len() - i,
        {
            proof {
                assert(here.take(i + 1).drop_last() =~= here.take(i as int));
                assert(here.take(i + 1).last() == page@[i as int]@);
            }
            let ghost so_far = slot_views(out@);
            if !same(page[i].as_str(), HOLE) {
                out.push(Slot { app_id: copy(page[i].as_str()), page: p, index: i });
                proof {
                    assert(slot_views(out@) =~= so_far.push((page@[i as int]@, p as int, i as int)));
                    assert(slot_views(out@) =~= before + slots_on(here.take(i + 1), p as int));
                }
            }
            i = i + 1;
        }
        proof {
            assert(here.take(i as int) =~= here);
            assert(all.take(p + 1).drop_last() =~= all.take(p as int));
            assert(all.take(p + 1).last() == here);
        }
        p = p + 1;
    }
    proof {
        assert(all.take(p as int) =~= all);
    }
    out
}

/// An icon in the air and where it hovers.
#[derive(Clone, Copy, Debug)]
pub struct Lifted<'a> {
    pub app_id: &'a str,
    pub hover: Option<(usize, usize)>,
}

/// The pages as they are laid out: parted for the icon in the air, if there is
/// one.
pub open spec fn laid_out(pages: Seq<Seq<Seq<char>>>, lifted: Option<Lifted>) -> Seq<Seq<Seq<char>>> {
    match lifted {
        Some(l) => chunked(parted(pages, l.app_id@, l.hover)),
        None => pages,
    }
}

/// Where each icon of the grid belongs now. The icon in the air has no slot.
pub fn reflow_targets(pages: &Vec<Vec<String>>, lifted: Option<Lifted>) -> (out: Vec<Slot>)
    ensures
        slot_views(out@) == slots_of(laid_out(page_texts(pages@), lifted)),
{
    match lifted {
        Some(l) => list_slots(&working_order(pages, l.app_id, l.hover)),
        None => list_slots(pages),
    }
}

/// Which icons of the dock are laid out: all but the one that was lifted from it,
/// so that the others close the gap.
pub fn dock_targets(dock: &Vec<String>, lifted_from_dock: Option<&str>) -> (out: Vec<String>)
    ensures
        texts(out@) == match lifted_from_dock {
            Some(app) => others_on(texts(dock@), app@),
            None => texts(dock@),
        },
{
    match lifted_from_dock {
        Some(app) => {
            let mut out: Vec<String> = Vec::new();
            append_others(&mut out, dock, app);
            proof {
                assert(texts(out@) =~= others_on(texts(dock@), app@));
            }
            out
        },
        None => crate::text::copies(dock),
    }
}

/// The places of `a` whose text is, or is not, in `b`.
pub open spec fn places_in(a: Seq<Seq<char>>, b: Seq<Seq<char>>, inside: bool) -> Seq<int>
    decreases a.len(),
{
    if a.len() == 0 {
        Seq::empty()
    } else {
        let rest = places_in(a.drop_last(), b, inside);
        if b.contains(a.last()) == inside {
            rest.push(a.len() - 1)
        } else {
            rest
        }
    }
}

/// The places of `a` whose text is, or is not, in `b`.
pub fn list_places_in(a: &Vec<String>, b: &Vec<String>, inside: bool) -> (out: Vec<usize>)
    ensures
        crate::sorting::places(out@) == places_in(texts(a@), texts(b@), inside),
{
    let ghost all = texts(a@);
    let mut out: Vec<usize> = Vec::new();
    let mut i: usize = 0;
    proof {
        assert(all.take(0) =~= Seq::<Seq<char>>::empty());
        assert(crate::sorting::places(out@) =~= Seq::<int>::empty());
    }
    while i < a.len()
        invariant
            i <= a.len(),
            all == texts(a@),
            crate::sorting::places(out@) == places_in(all.take(i as int), texts(b@), inside),
        decreases a.len() - i,
    {
        proof {
            assert(all.take(i + 1).drop_last() =~= all.take(i as int));
            assert(all.take(i + 1).last() == a@[i as int]@);
        }
        let ghost so_far = crate::sorting::places(out@);
        if is_listed(b, a[i].as_str()) == inside {
            out.push(i);
            proof {
                assert(crate::sorting::places(out@) =~= so_far.push(i as int));
            }
        }
        i = i + 1;
    }
    proof {
        assert(all.take(i as int) =~= all);
    }
    out
}

/// What becomes of the springs that move the icons.
#[derive(Debug)]
pub struct Reflow {
    /// Places in the wanted list whose icon has a spring: it gets a new target.
    pub retarget: Vec<usize>,
    /// Places in the wanted list whose icon has none: one is started at rest.
    pub seed: Vec<usize>,
    /// Places in the list of springs whose icon is not wanted: it is dropped.
    pub drop: Vec<usize>,
}

/// What becomes of the springs of `have` when the icons of `want` are laid out.
pub fn reflow(have: &Vec<String>, want: &Vec<String>) -> (r: Reflow)
    ensures
        crate::sorting::places(r.retarget@) == places_in(texts(want@), texts(have@), true),
        crate::sorting::places(r.seed@) == places_in(texts(want@), texts(have@), false),
        crate::sorting::places(r.drop@) == places_in(texts(have@), texts(want@), false),
{
    Reflow {
        retarget: list_places_in(want, have, true),
        seed: list_places_in(want, have, false),
        drop: list_places_in(have, want, false),
    }
}

/// Every place is on exactly one of the two lists.
pub proof fn law_every_icon_is_retargeted_or_seeded(a: Seq<Seq<char>>, b: Seq<Seq<char>>, inside: bool, i: int)
    ensures
        places_in(a, b, inside).contains(i) <==> 0 <= i < a.len() && b.contains(a[i]) == inside,
    decreases a.len(),
{
    if a.len() > 0 {
        let less = a.drop_last();
        law_every_icon_is_retargeted_or_seeded(less, b, inside, i);
        let rest = places_in(less, b, inside);
        let now = places_in(a, b, inside);
        if now.contains(i) {
            let k = choose|k: int| 0 <= k < now.len() && now[k] == i;
            if k < rest.len() {
                assert(rest[k] == i);
                assert(less[i] == a[i]);
            }
        }
        if 0 <= i < a.len() && b.contains(a[i]) == inside {
            if i < less.len() {
                assert(less[i] == a[i]);
                let k = choose|k: int| 0 <= k < rest.len() && rest[k] == i;
                assert(now[k] == i);
            } else {
                assert(now[rest.len() as int] == i);
            }
        }
    }
}

// ---------------------------------------------------------------------------
// Arrange mode
// ---------------------------------------------------------------------------

#[derive(Clone, Copy, Debug, PartialEq, Eq, Structural)]
pub enum EdgeSide {
    Left,
    Right,
}

/// A finger held on an icon of the home screen. It may become a tap, a swipe or
/// a long press.
#[derive(Clone, Copy, Debug, PartialEq, Eq, Structural)]
pub struct IconPress {
    pub app: AppRef,
    pub source: IconSource,
    pub at: Nanos,
}

/// An icon in the air.
#[derive(Clone, Copy, Debug)]
pub struct DragItem {
    pub app: AppRef,
    pub source: IconSource,
    /// The page and the place on it where the grid opens a hole; none over the
    /// dock, and before the finger first moved.
    pub hover: Option<(usize, usize)>,
    /// Since when the finger has been at an edge, and at which.
    pub edge_since: Option<(Nanos, EdgeSide)>,
}

/// Arrange mode.
#[derive(Clone, Copy, Debug)]
pub struct ArrangeState {
    pub drag: Option<DragItem>,
    /// The finger that engaged it has not come up yet: its release is no tap
    /// that leaves it.
    pub just_engaged: bool,
}

/// An icon as it is picked up.
pub open spec fn lifted(app: AppRef, source: IconSource) -> DragItem {
    DragItem { app, source, hover: None, edge_since: None }
}

/// Whether a press on an icon has lasted long enough for arrange mode.
pub open spec fn hold_engages(
    arranging: bool,
    pointer_down: bool,
    press: Option<IconPress>,
    now: Nanos,
) -> bool {
    !arranging && pointer_down && press is Some && elapsed(press->0.at, now) >= HOLD
}

/// Arrange mode, when a press on an icon has lasted long enough for it. The icon
/// is picked up at once: the finger need not move first. A launch, a page drag
/// and the press itself are over then.
pub fn maybe_engage_arrange_hold(
    arranging: bool,
    pointer_down: bool,
    press: Option<IconPress>,
    now: Nanos,
) -> (r: Option<ArrangeState>)
    ensures
        r == (if hold_engages(arranging, pointer_down, press, now) {
            Some(
                ArrangeState {
                    drag: Some(lifted(press->0.app, press->0.source)),
                    just_engaged: false,
                },
            )
        } else {
            None
        }),
{
    if arranging || !pointer_down {
        return None;
    }
    match press {
        Some(p) => {
            if since(p.at, now) >= HOLD {
                Some(
                    ArrangeState {
                        drag: Some(
                            DragItem {
                                app: p.app,
                                source: p.source,
                                hover: None,
                                edge_since: None,
                            },
                        ),
                        just_engaged: false,
                    },
                )
            } else {
                None
            }
        },
        None => None,
    }
}

/// Since when the finger is at an edge, given that it now is at `side`, and
/// whether the page flips. A flip starts the wait anew, so it repeats.
pub open spec fn dwelled(
    edge_since: Option<(Nanos, EdgeSide)>,
    side: Option<EdgeSide>,
    now: Nanos,
) -> (Option<(Nanos, EdgeSide)>, Option<EdgeSide>) {
    match side {
        None => (None, None),
        Some(s) => match edge_since {
            Some((at, prev)) => if prev != s {
                (Some((now, s)), None)
            } else if elapsed(at, now) >= EDGE_DWELL {
                (Some((now, s)), Some(s))
            } else {
                (edge_since, None)
            },
            None => (Some((now, s)), None),
        },
    }
}

/// Whether the last of the pages is there and empty.
pub open spec fn ends_empty(pages: Seq<Vec<String>>) -> bool {
    pages.len() > 0 && pages.last()@.len() == 0
}

/// The page that a flip leads to, and whether a page is added at the end.
pub open spec fn flipped(
    side: EdgeSide,
    cur_page: usize,
    pages: Seq<Vec<String>>,
) -> (int, bool) {
    match side {
        EdgeSide::Left => (
            if cur_page > 0 {
                cur_page - 1
            } else {
                0
            },
            false,
        ),
        EdgeSide::Right => if cur_page + 1 < pages.len() {
            (cur_page + 1, false)
        } else if ends_empty(pages) {
            // There is an empty page to drop on already.
            (pages.len() - 1, false)
        } else {
            (pages.len() as int, true)
        },
    }
}

/// The page that is shown after a flip, and how many there are.
#[derive(Clone, Copy, Debug, PartialEq, Eq, Structural)]
pub struct Flip {
    pub page: usize,
    pub page_count: usize,
}

/// Whether the pages are as before, but for an empty one at the end if `added`.
pub open spec fn grown(before: Seq<Vec<String>>, after: Seq<Vec<String>>, added: bool) -> bool {
    if added {
        after.len() == before.len() + 1 && after.drop_last() == before && after.last()@.len() == 0
    } else {
        after == before
    }
}

/// Holding an icon against an edge of the screen flips the page, again and
/// again. At the last page an empty one is added. `side` is the edge the finger
/// is at.
pub fn tick_edge_page_flip(
    drag: &mut Option<DragItem>,
    side: Option<EdgeSide>,
    now: Nanos,
    cur_page: usize,
    pages: &mut Vec<Vec<String>>,
) -> (r: Option<Flip>)
    requires
        cur_page < usize::MAX,
        old(pages)@.len() + 2 < usize::MAX,
    ensures
        match *old(drag) {
            None => *final(drag) is None && r is None && final(pages)@ == old(pages)@,
            Some(d) => {
                let (edge_since, flip) = dwelled(d.edge_since, side, now);
                &&& *final(drag) == Some(DragItem { edge_since, ..d })
                &&& match flip {
                    None => r is None && final(pages)@ == old(pages)@,
                    Some(s) => {
                        let (page, added) = flipped(s, cur_page, old(pages)@);
                        &&& grown(old(pages)@, final(pages)@, added)
                        &&& r is Some
                        &&& r->0.page == page
                        &&& r->0.page_count == page_total(final(pages)@.len())
                    },
                }
            },
        },
{
    let d: DragItem = match *drag {
        Some(d) => d,
        None => {
            return None;
        },
    };
    let mut edge_since: Option<(Nanos, EdgeSide)> = d.edge_since;
    let mut flip: Option<EdgeSide> = None;
    match side {
        None => {
            edge_since = None;
        },
        Some(s) => {
            match d.edge_since {
                Some((at, prev)) => {
                    if prev != s {
                        edge_since = Some((now, s));
                    } else if since(at, now) >= EDGE_DWELL {
                        flip = Some(s);
                        edge_since = Some((now, s));
                    }
                },
                None => {
                    edge_since = Some((now, s));
                },
            }
        },
    }
    *drag = Some(DragItem { app: d.app, source: d.source, hover: d.hover, edge_since });
    match flip {
        None => None,
        Some(s) => {
            let page: usize = match s {
                EdgeSide::Left => {
                    if cur_page > 0 {
                        cur_page - 1
                    } else {
                        0
                    }
                },
                EdgeSide::Right => {
                    if cur_page + 1 < pages.len() {
                        cur_page + 1
                    } else if pages.len() > 0 && pages[pages.len() - 1].len() == 0 {
                        pages.len() - 1
                    } else {
                        let ghost before = pages@;
                        pages.push(Vec::new());
                        proof {
                            assert(pages@.drop_last() =~= before);
                        }
                        pages.len() - 1
                    }
                },
            };
            Some(Flip { page, page_count: page_count_of(pages.len()) })
        },
    }
}

/// A held icon flips a page each time the dwell has passed, and not before.
pub proof fn law_dwell_repeats(at: Nanos, side: EdgeSide, now: Nanos)
    ensures
        elapsed(at, now) < EDGE_DWELL ==> dwelled(Some((at, side)), Some(side), now) == (
            Some((at, side)),
            None::<EdgeSide>,
        ),
        elapsed(at, now) >= EDGE_DWELL ==> dwelled(Some((at, side)), Some(side), now) == (
            Some((now, side)),
            Some(side),
        ),
{
}

/// A press on an icon that lasts half a second picks that icon up, as long as
/// the finger is down and no icon is being moved already.
pub proof fn law_long_press_picks_the_icon_up(
    arranging: bool,
    pointer_down: bool,
    press: Option<IconPress>,
    now: Nanos,
    r: Option<ArrangeState>,
)
    requires
        call_ensures(maybe_engage_arrange_hold, (arranging, pointer_down, press, now), r),
    ensures
        r is Some <==> !arranging && pointer_down && press is Some && now - press->0.at >= 500_000_000,
        r is Some ==> r->0.drag is Some && r->0.drag->0.app == press->0.app && r->0.drag->0.source
            == press->0.source && r->0.drag->0.hover is None && !r->0.just_engaged,
{
}

/// What a cut row holds at a place of a page is what the row holds there.
proof fn lemma_place_on_a_page(row: Seq<Seq<char>>, page: int, index: int)
    requires
        0 <= page,
        0 <= index < PAGE_CAP,
        page * 24 + index < row.len(),
    ensures
        page < chunked(row).len(),
        index < chunked(row)[page].len(),
        chunked(row)[page][index] == row[page * 24 + index],
    decreases row.len(),
{
    if row.len() > PAGE_CAP {
        if page > 0 {
            lemma_place_on_a_page(row.skip(PAGE_CAP as int), page - 1, index);
            assert(chunked(row)[page] == chunked(row.skip(PAGE_CAP as int))[page - 1]);
        }
    }
}

/// The icons part for the one in the air: the slot that it hovers over is free,
/// those before it stay, and those behind it move one on.
pub proof fn law_hole_opens_where_it_hovers(
    pages: Vec<Vec<String>>,
    dragged: &str,
    page: usize,
    index: usize,
    out: Vec<Vec<String>>,
    p: int,
    i: int,
)
    requires
        call_ensures(working_order, (&pages, dragged, Some((page, index))), out),
        index < 24,
        page * 24 + index <= others(page_texts(pages@), dragged@).len(),
        0 <= p,
        0 <= i < 24,
        p * 24 + i <= others(page_texts(pages@), dragged@).len(),
    ensures
        p < out@.len(),
        i < out@[p]@.len(),
        ({
            let row = others(page_texts(pages@), dragged@);
            let here = p * 24 + i;
            let hole = page * 24 + index;
            out@[p]@[i]@ == if here < hole {
                row[here]
            } else if here == hole {
                HOLE@
            } else {
                row[here - 1]
            }
        }),
{
    let row = others(page_texts(pages@), dragged@);
    let with_hole = parted(page_texts(pages@), dragged@, Some((page, index)));
    lemma_place_on_a_page(with_hole, p, i);
    assert(page_texts(out@).len() == out@.len());
    assert(page_texts(out@)[p] == texts(out@[p]@));
    assert(texts(out@[p]@)[i] == out@[p]@[i]@);
}

/// A slot beyond the last icon is the one right behind it.
pub proof fn law_hole_closes_up_to_the_icons(
    pages: Vec<Vec<String>>,
    dragged: &str,
    page: usize,
    index: usize,
    out: Vec<Vec<String>>,
)
    requires
        call_ensures(working_order, (&pages, dragged, Some((page, index))), out),
        page * 24 + index > others(page_texts(pages@), dragged@).len(),
    ensures
        in_a_row(page_texts(out@)) == others(page_texts(pages@), dragged@).push(HOLE@),
{
    let row = others(page_texts(pages@), dragged@);
    let with_hole = parted(page_texts(pages@), dragged@, Some((page, index)));
    law_pages_hold_the_row(with_hole);
    assert(with_hole =~= row.push(HOLE@));
}

/// The icons that stay keep their order: they are those of the pages, one after
/// the other, without the one in the air.
pub proof fn law_icons_keep_their_order(pages: Seq<Seq<Seq<char>>>, dragged: Seq<char>)
    ensures
        others(pages, dragged) == in_a_row(pages).filter(|a: Seq<char>| a != dragged),
    decreases pages.len(),
{
    reveal(Seq::filter);
    let keeps = |a: Seq<char>| a != dragged;
    if pages.len() > 0 {
        let less = pages.drop_last();
        law_icons_keep_their_order(less, dragged);
        lemma_others_filter(pages.last(), dragged);
        lemma_row_end(pages);
        Seq::<Seq<char>>::filter_distributes_over_add(in_a_row(less), pages.last(), keeps);
    } else {
        assert(in_a_row(pages).filter(keeps) =~= Seq::<Seq<char>>::empty());
    }
}

proof fn lemma_others_filter(page: Seq<Seq<char>>, dragged: Seq<char>)
    ensures
        others_on(page, dragged) == page.filter(|a: Seq<char>| a != dragged),
    decreases page.len(),
{
    reveal(Seq::filter);
    if page.len() > 0 {
        lemma_others_filter(page.drop_last(), dragged);
    } else {
        assert(page.filter(|a: Seq<char>| a != dragged) =~= Seq::<Seq<char>>::empty());
    }
}

/// The last page ends the row.
proof fn lemma_row_end(pages: Seq<Seq<Seq<char>>>)
    requires
        pages.len() > 0,
    ensures
        in_a_row(pages) == in_a_row(pages.drop_last()) + pages.last(),
    decreases pages.len(),
{
    if pages.len() == 1 {
        assert(pages.skip(1) =~= Seq::<Seq<Seq<char>>>::empty());
        assert(pages.drop_last() =~= Seq::<Seq<Seq<char>>>::empty());
        assert(in_a_row(pages.skip(1)) =~= Seq::<Seq<char>>::empty());
        assert(in_a_row(pages) =~= pages.last());
        assert(in_a_row(pages.drop_last()) + pages.last() =~= pages.last());
    } else {
        lemma_row_end(pages.skip(1));
        assert(pages.skip(1).drop_last() =~= pages.drop_last().skip(1));
        assert(pages.drop_last()[0] == pages[0]);
        assert(in_a_row(pages) =~= in_a_row(pages.drop_last()) + pages.last());
    }
}

/// An icon belongs to the page and the place where it stands, and the hole to
/// none.
pub proof fn law_slot_is_where_the_icon_stands(
    pages: Seq<Seq<Seq<char>>>,
    app: Seq<char>,
    page: int,
    index: int,
)
    ensures
        slots_of(pages).contains((app, page, index)) <==> 0 <= page < pages.len() && 0 <= index
            < pages[page].len() && pages[page][index] == app && app != HOLE@,
    decreases pages.len(),
{
    if pages.len() > 0 {
        let less = pages.drop_last();
        let a = slots_of(less);
        let b = slots_on(pages.last(), pages.len() - 1);
        law_slot_is_where_the_icon_stands(less, app, page, index);
        lemma_slots_on(pages.last(), pages.len() - 1, app, page, index);
        if (a + b).contains((app, page, index)) {
            let k = choose|k: int| 0 <= k < (a + b).len() && (a + b)[k] == (app, page, index);
            if k < a.len() {
                assert(a[k] == (app, page, index));
                assert(less[page] == pages[page]);
            } else {
                assert(b[k - a.len()] == (app, page, index));
            }
        }
        if 0 <= page < pages.len() && 0 <= index < pages[page].len() && pages[page][index] == app && app
            != HOLE@ {
            if page < less.len() {
                assert(less[page] == pages[page]);
                let k = choose|k: int| 0 <= k < a.len() && a[k] == (app, page, index);
                assert((a + b)[k] == (app, page, index));
            } else {
                let k = choose|k: int| 0 <= k < b.len() && b[k] == (app, page, index);
                assert((a + b)[a.len() + k] == (app, page, index));
            }
        }
    }
}

proof fn lemma_slots_on(page: Seq<Seq<char>>, number: int, app: Seq<char>, at: int, index: int)
    ensures
        slots_on(page, number).contains((app, at, index)) <==> at == number && 0 <= index < page.len()
            && page[index] == app && app != HOLE@,
    decreases page.len(),
{
    if page.len() > 0 {
        let less = page.drop_last();
        let rest = slots_on(less, number);
        let now = slots_on(page, number);
        lemma_slots_on(less, number, app, at, index);
        if now.contains((app, at, index)) {
            let k = choose|k: int| 0 <= k < now.len() && now[k] == (app, at, index);
            if k < rest.len() {
                assert(rest[k] == (app, at, index));
                assert(less[index] == page[index]);
            }
        }
        if at == number && 0 <= index < page.len() && page[index] == app && app != HOLE@ {
            if index < less.len() {
                assert(less[index] == app);
                let k = choose|k: int| 0 <= k < rest.len() && rest[k] == (app, at, index);
                assert(now[k] == (app, at, index));
            } else {
                assert(now[rest.len() as int] == (app, at, index));
            }
        }
    }
}

/// With no icon in the air, each belongs where it stands; with one, that one
/// belongs nowhere.
pub proof fn law_targets_follow_the_pages(
    pages: Vec<Vec<String>>,
    lifted: Option<Lifted>,
    out: Vec<Slot>,
    app: Seq<char>,
    page: int,
    index: int,
)
    requires
        call_ensures(reflow_targets, (&pages, lifted), out),
    ensures
        lifted is None ==> (slot_views(out@).contains((app, page, index)) <==> 0 <= page < pages@.len()
            && 0 <= index < pages@[page]@.len() && pages@[page]@[index]@ == app && app != HOLE@),
        lifted is Some && lifted->0.app_id@ == app ==> !slot_views(out@).contains((app, page, index)),
{
    let all = page_texts(pages@);
    match lifted {
        None => {
            law_slot_is_where_the_icon_stands(all, app, page, index);
            if 0 <= page < pages@.len() {
                assert(all[page] == texts(pages@[page]@));
                if 0 <= index < pages@[page]@.len() {
                    assert(all[page][index] == pages@[page]@[index]@);
                }
            }
        },
        Some(l) => {
            let row = parted(all, l.app_id@, l.hover);
            law_slot_is_where_the_icon_stands(chunked(row), app, page, index);
            if l.app_id@ == app && slots_of(chunked(row)).contains((app, page, index)) {
                lemma_on_a_page(row, page, index);
                law_only_the_dragged_icon_leaves(all, app, app);
                let k = choose|k: int| 0 <= k < row.len() && row[k] == app;
                let plain = others(all, app);
                match l.hover {
                    Some((p, i)) => {
                        let h = hole_at(p, i, plain.len());
                        if k < h {
                            assert(plain[k] == app);
                        } else if k > h {
                            assert(plain[k - 1] == app);
                        }
                    },
                    None => {
                        assert(plain[k] == app);
                    },
                }
            }
        },
    }
}

/// What stands on a page stands in the row.
proof fn lemma_on_a_page(row: Seq<Seq<char>>, page: int, index: int)
    requires
        0 <= page < chunked(row).len(),
        0 <= index < chunked(row)[page].len(),
    ensures
        row.contains(chunked(row)[page][index]),
    decreases row.len(),
{
    if row.len() > PAGE_CAP {
        let rest = row.skip(PAGE_CAP as int);
        if page == 0 {
            assert(chunked(row)[0][index] == row[index]);
        } else {
            assert(chunked(row)[page] == chunked(rest)[page - 1]);
            lemma_on_a_page(rest, page - 1, index);
            let k = choose|k: int| 0 <= k < rest.len() && rest[k] == chunked(row)[page][index];
            assert(row[k + PAGE_CAP] == rest[k]);
        }
    } else {
        assert(chunked(row)[page][index] == row[index]);
    }
}

/// The dock lays out all its icons but the one that was lifted from it.
pub proof fn law_dock_closes_the_gap(
    dock: Vec<String>,
    lifted_from_dock: Option<&str>,
    out: Vec<String>,
    app: Seq<char>,
)
    requires
        call_ensures(dock_targets, (&dock, lifted_from_dock), out),
    ensures
        texts(out@).contains(app) <==> texts(dock@).contains(app) && !(lifted_from_dock is Some
            && lifted_from_dock->0@ == app),
        lifted_from_dock is None ==> texts(out@) == texts(dock@),
{
    match lifted_from_dock {
        Some(l) => {
            lemma_others_on(texts(dock@), l@, app);
        },
        None => {},
    }
}

/// A wanted icon that has a spring gets a new target, one without gets a spring,
/// and the spring of an icon that is not wanted is dropped.
pub proof fn law_springs_follow_the_wanted_icons(
    have: Vec<String>,
    want: Vec<String>,
    r: Reflow,
    i: int,
)
    requires
        call_ensures(reflow, (&have, &want), r),
    ensures
        crate::sorting::places(r.retarget@).contains(i) <==> 0 <= i < want@.len() && texts(have@).contains(
            want@[i]@,
        ),
        crate::sorting::places(r.seed@).contains(i) <==> 0 <= i < want@.len() && !texts(have@).contains(
            want@[i]@,
        ),
        crate::sorting::places(r.drop@).contains(i) <==> 0 <= i < have@.len() && !texts(want@).contains(
            have@[i]@,
        ),
{
    law_every_icon_is_retargeted_or_seeded(texts(want@), texts(have@), true, i);
    law_every_icon_is_retargeted_or_seeded(texts(want@), texts(have@), false, i);
    law_every_icon_is_retargeted_or_seeded(texts(have@), texts(want@), false, i);
    if 0 <= i < want@.len() {
        assert(texts(want@)[i] == want@[i]@);
    }
    if 0 <= i < have@.len() {
        assert(texts(have@)[i] == have@[i]@);
    }
}

/// An icon that has been held against one edge for four tenths of a second flips
/// the page, and the wait starts anew. Before that nothing changes, and at
/// another edge it starts anew without a flip.
pub proof fn law_held_icon_flips_the_page(
    drag: &mut Option<DragItem>,
    d: DragItem,
    at: Nanos,
    edge: EdgeSide,
    side: EdgeSide,
    now: Nanos,
    cur_page: usize,
    pages: &mut Vec<Vec<String>>,
    r: Option<Flip>,
)
    requires
        call_ensures(tick_edge_page_flip, (drag, Some(side), now, cur_page, pages), r),
        *old(drag) == Some(d),
        d.edge_since == Some((at, edge)),
    ensures
        r is Some <==> edge == side && now - at >= 400_000_000,
        *final(drag) is Some,
        (*final(drag))->0.edge_since == (if edge == side && now - at < 400_000_000 {
            Some((at, edge))
        } else {
            Some((now, side))
        }),
        (*final(drag))->0.app == d.app && (*final(drag))->0.source == d.source && (*final(drag))->0.hover
            == d.hover,
        r is None ==> final(pages)@ == old(pages)@,
{
}

/// Nothing flips without an icon in the air, away from the edges, or at the
/// moment that an edge is reached.
pub proof fn law_wait_starts_at_the_edge(
    drag: &mut Option<DragItem>,
    side: Option<EdgeSide>,
    now: Nanos,
    cur_page: usize,
    pages: &mut Vec<Vec<String>>,
    r: Option<Flip>,
)
    requires
        call_ensures(tick_edge_page_flip, (drag, side, now, cur_page, pages), r),
        match *old(drag) {
            Some(d) => side is None || d.edge_since is None,
            None => true,
        },
    ensures
        r is None,
        final(pages)@ == old(pages)@,
        *final(drag) is Some <==> *old(drag) is Some,
        *final(drag) is Some ==> (*final(drag))->0.edge_since == (match side {
            Some(s) => Some((now, s)),
            None => None,
        }),
{
}

/// The left edge leads one page back, the right one leads one page on. Behind
/// the last page lies an empty one, which is made only where there is none.
pub proof fn law_flip_goes_to_its_side(
    drag: &mut Option<DragItem>,
    side: EdgeSide,
    now: Nanos,
    cur_page: usize,
    pages: &mut Vec<Vec<String>>,
    r: Option<Flip>,
)
    requires
        call_ensures(tick_edge_page_flip, (drag, Some(side), now, cur_page, pages), r),
        r is Some,
    ensures
        side == EdgeSide::Left ==> final(pages)@ == old(pages)@ && r->0.page == (if cur_page > 0 {
            cur_page - 1
        } else {
            0
        }),
        side == EdgeSide::Right && cur_page + 1 < old(pages)@.len() ==> final(pages)@ == old(pages)@
            && r->0.page == cur_page + 1,
        side == EdgeSide::Right && cur_page + 1 >= old(pages)@.len() ==> r->0.page == final(pages)@.len()
            - 1 && final(pages)@.last()@.len() == 0 && (final(pages)@.len() == old(pages)@.len()
            <==> old(pages)@.len() > 0 && old(pages)@.last()@.len() == 0),
        final(pages)@.len() > 0 ==> r->0.page_count == final(pages)@.len() + 1,
{
}

} // verus!
