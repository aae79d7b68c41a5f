//! The order in which apps were last used.
use vstd::prelude::*;

verus! {

/// The slot of a window.
pub type ToplevelId = usize;

/// The apps, most recently used first, and where the quick-switch walk stands.
#[derive(Debug)]
pub struct AppHistory {
    /// The front is the app that last came to the foreground.
    pub stack: Vec<ToplevelId>,
    /// Where the quick-switch walk stands. A swipe moves it through the stack
    /// without reordering, so repeated swipes walk the whole list instead of
    /// bouncing between the last two apps.
    pub cursor: usize,
}

impl Default for AppHistory {
    fn default() -> (r: Self)
        ensures
            r.wf(),
            r.stack@.len() == 0,
    {
        AppHistory { stack: Vec::new(), cursor: 0 }
    }
}

/// `s` without `id`.
pub open spec fn without(s: Seq<ToplevelId>, id: ToplevelId) -> Seq<ToplevelId> {
    s.filter(|x: ToplevelId| x != id)
}

/// A list without `id`.
pub fn list_without(v: &Vec<ToplevelId>, id: ToplevelId) -> (out: Vec<ToplevelId>)
    ensures
        out@ == without(v@, id),
{
    let mut out: Vec<ToplevelId> = Vec::new();
    let mut i: usize = 0;
    proof {
        reveal(Seq::filter);
        assert(v@.take(0) =~= Seq::<ToplevelId>::empty());
        assert(without(v@.take(0), id) =~= Seq::<ToplevelId>::empty());
    }
    while i < v.len()
        invariant
            i <= v.len(),
            out@ == without(v@.take(i as int), id),
        decreases v.len() - i,
    {
        proof {
            reveal(Seq::filter);
            assert(v@.take(i + 1).drop_last() =~= v@.take(i as int));
        }
        if v[i] != id {
            out.push(v[i]);
        }
        i = i + 1;
    }
    proof {
        assert(v@.take(v@.len() as int) =~= v@);
    }
    out
}

pub proof fn lemma_without(s: Seq<ToplevelId>, id: ToplevelId)
    ensures
        forall|x: ToplevelId| #[trigger] without(s, id).contains(x) <==> s.contains(x) && x != id,
        s.no_duplicates() ==> without(s, id).no_duplicates(),
        without(s, id).len() <= s.len(),
    decreases s.len(),
{
    reveal(Seq::filter);
    if s.len() > 0 {
        let less = s.drop_last();
        lemma_without(less, id);
        let w = without(s, id);
        let wl = without(less, id);
        assert forall|x: ToplevelId| #[trigger] w.contains(x) <==> s.contains(x) && x != id by {
            assert(s =~= less.push(s.last()));
            assert(less.contains(x) ==> s.contains(x)) by {
                if less.contains(x) {
                    let k = choose|k: int| 0 <= k < less.len() && less[k] == x;
                    assert(s[k] == x);
                }
            }
            assert(s.contains(x) ==> less.contains(x) || x == s.last()) by {
                if s.contains(x) {
                    let k = choose|k: int| 0 <= k < s.len() && s[k] == x;
                    if k < less.len() {
                        assert(less[k] == x);
                    }
                }
            }
            assert(s[s.len() - 1] == s.last());
            if s.last() != id {
                assert(w =~= wl.push(s.last()));
                assert(wl.contains(x) ==> w.contains(x)) by {
                    if wl.contains(x) {
                        let k = choose|k: int| 0 <= k < wl.len() && wl[k] == x;
                        assert(w[k] == x);
                    }
                }
                assert(w[wl.len() as int] == s.last());
                assert(w.contains(x) ==> wl.contains(x) || x == s.last()) by {
                    if w.contains(x) {
                        let k = choose|k: int| 0 <= k < w.len() && w[k] == x;
                        if k < wl.len() {
                            assert(wl[k] == x);
                        }
                    }
                }
            }
        }
        if s.no_duplicates() {
            assert(less.no_duplicates());
            if s.last() != id {
                assert(!less.contains(s.last()));
                assert(!wl.contains(s.last()));
                assert(w =~= wl.push(s.last()));
            }
        }
    }
}

impl AppHistory {
    /// No app is listed twice, and the walk stands on the stack.
    pub open spec fn wf(self) -> bool {
        &&& self.stack@.no_duplicates()
        &&& self.cursor < self.stack@.len() || (self.cursor == 0 && self.stack@.len() == 0)
    }

    /// Where one step of the walk leads, if it leads anywhere.
    pub open spec fn step(self, dir: i32) -> Option<int> {
        let to = if dir > 0 {
            self.cursor + 1
        } else {
            self.cursor - 1
        };
        if dir != 0 && 0 <= to < self.stack@.len() {
            Some(to)
        } else {
            None
        }
    }

    /// The app on screen, then the others in the order of the stack.
    pub open spec fn deck(self) -> Seq<ToplevelId> {
        if self.stack@.len() == 0 {
            Seq::empty()
        } else {
            seq![self.stack@[self.cursor as int]] + without(
                self.stack@,
                self.stack@[self.cursor as int],
            )
        }
    }

    pub fn new() -> (r: Self)
        ensures
            r.wf(),
            r.stack@.len() == 0,
    {
        AppHistory { stack: Vec::new(), cursor: 0 }
    }

    /// An app came to the foreground: it moves to the front, and the walk
    /// starts there. Only deliberate activations count; a quick-switch does
    /// not.
    pub fn push_foreground(&mut self, id: ToplevelId)
        requires
            old(self).wf(),
        ensures
            final(self).wf(),
            final(self).stack@ == seq![id] + without(old(self).stack@, id),
            final(self).cursor == 0,
    {
        let mut rest: Vec<ToplevelId> = list_without(&self.stack, id);
        let mut stack: Vec<ToplevelId> = Vec::new();
        stack.push(id);
        proof {
            lemma_without(self.stack@, id);
            assert(seq![id] + rest@ =~= seq![id].add(rest@));
            let all = seq![id] + rest@;
            assert forall|i: int, j: int|
                0 <= i < all.len() && 0 <= j < all.len() && i != j implies all[i] != all[j] by {
                if i == 0 {
                    assert(rest@.contains(rest@[j - 1]));
                } else if j == 0 {
                    assert(rest@.contains(rest@[i - 1]));
                }
            }
        }
        stack.append(&mut rest);
        self.stack = stack;
        self.cursor = 0;
    }

    /// A window closed.
    pub fn remove(&mut self, id: ToplevelId)
        requires
            old(self).wf(),
        ensures
            final(self).wf(),
            final(self).stack@ == without(old(self).stack@, id),
            final(self).cursor == (if old(self).cursor < final(self).stack@.len() {
                old(self).cursor
            } else {
                0
            }),
    {
        proof {
            lemma_without(self.stack@, id);
        }
        self.stack = list_without(&self.stack, id);
        if self.cursor >= self.stack.len() {
            self.cursor = 0;
        }
    }

    /// The app one step from where the walk stands (negative: back, positive:
    /// on), or `None` at the ends of the stack.
    pub fn peek(&self, dir: i32) -> (r: Option<ToplevelId>)
        requires
            self.wf(),
        ensures
            r == (match self.step(dir) {
                Some(i) => Some(self.stack@[i]),
                None => None,
            }),
    {
        if dir == 0 {
            return None;
        }
        if dir > 0 {
            if self.stack.len() > 0 && self.cursor < self.stack.len() - 1 {
                return Some(self.stack[self.cursor + 1]);
            }
            return None;
        }
        if self.cursor > 0 {
            return Some(self.stack[self.cursor - 1]);
        }
        None
    }

    /// Walk one step and return the app there. A step past either end is
    /// refused and moves nothing; no step reorders the stack.
    pub fn quick_switch(&mut self, dir: i32) -> (r: Option<ToplevelId>)
        requires
            old(self).wf(),
        ensures
            final(self).wf(),
            final(self).stack@ == old(self).stack@,
            match old(self).step(dir) {
                Some(i) => r == Some(old(self).stack@[i]) && final(self).cursor == i,
                None => r is None && final(self).cursor == old(self).cursor,
            },
    {
        let len: usize = self.stack.len();
        if len <= 1 || dir == 0 {
            return None;
        }
        let next: usize = if dir > 0 {
            self.cursor + 1
        } else if self.cursor > 0 {
            self.cursor - 1
        } else {
            return None;
        };
        if next >= len {
            return None;
        }
        self.cursor = next;
        Some(self.stack[next])
    }

    /// The order of the switcher deck: the app on screen, which is the one that
    /// the walk stands on, then the others, most recently used first.
    pub fn deck_order(&self) -> (r: Vec<ToplevelId>)
        requires
            self.wf(),
        ensures
            r@ == self.deck(),
    {
        if self.stack.len() == 0 {
            return Vec::new();
        }
        let cur: ToplevelId = self.stack[self.cursor];
        let mut v: Vec<ToplevelId> = Vec::new();
        v.push(cur);
        let mut rest: Vec<ToplevelId> = list_without(&self.stack, cur);
        proof {
            assert(v@ =~= seq![cur]);
        }
        v.append(&mut rest);
        v
    }
}

/// Every card of the deck is there once, and the deck holds just the apps of
/// the history.
pub proof fn law_deck_lists_each_app_once(h: AppHistory)
    requires
        h.wf(),
    ensures
        h.deck().no_duplicates(),
        forall|x: ToplevelId| #[trigger] h.deck().contains(x) <==> h.stack@.contains(x),
{
    if h.stack@.len() > 0 {
        let cur = h.stack@[h.cursor as int];
        let rest = without(h.stack@, cur);
        lemma_without(h.stack@, cur);
        let d = h.deck();
        assert(d[0] == cur);
        assert forall|i: int, j: int| 0 <= i < d.len() && 0 <= j < d.len() && i != j implies d[i]
            != d[j] by {
            if i == 0 {
                assert(rest.contains(rest[j - 1]));
            } else if j == 0 {
                assert(rest.contains(rest[i - 1]));
            }
        }
        assert forall|x: ToplevelId| #[trigger] d.contains(x) <==> h.stack@.contains(x) by {
            if d.contains(x) {
                let k = choose|k: int| 0 <= k < d.len() && d[k] == x;
                if k > 0 {
                    assert(rest[k - 1] == x);
                    assert(rest.contains(x));
                }
            }
            if h.stack@.contains(x) && x != cur {
                assert(rest.contains(x));
                let k = choose|k: int| 0 <= k < rest.len() && rest[k] == x;
                assert(d[k + 1] == x);
            }
        }
    }
}

/// What was brought to the foreground is the first card.
pub proof fn law_foreground_leads_the_deck(before: AppHistory, after: AppHistory, id: ToplevelId)
    requires
        before.wf(),
        after.wf(),
        after.stack@ == seq![id] + without(before.stack@, id),
        after.cursor == 0,
    ensures
        after.deck() == after.stack@,
        after.deck()[0] == id,
{
    let rest = without(before.stack@, id);
    lemma_without(before.stack@, id);
    lemma_without_absent(rest, id);
    let s = seq![id] + rest;
    lemma_without_front(id, rest);
    assert(after.deck() =~= s);
}

proof fn lemma_without_absent(s: Seq<ToplevelId>, id: ToplevelId)
    requires
        !s.contains(id),
    ensures
        without(s, id) == s,
    decreases s.len(),
{
    reveal(Seq::filter);
    if s.len() > 0 {
        assert(s[s.len() - 1] == s.last());
        assert(!s.drop_last().contains(id)) by {
            if s.drop_last().contains(id) {
                let k = choose|k: int| 0 <= k < s.drop_last().len() && s.drop_last()[k] == id;
                assert(s[k] == id);
            }
        }
        lemma_without_absent(s.drop_last(), id);
        assert(s.drop_last().push(s.last()) =~= s);
    }
}

proof fn lemma_without_front(id: ToplevelId, rest: Seq<ToplevelId>)
    ensures
        without(seq![id] + rest, id) == without(rest, id),
    decreases rest.len(),
{
    reveal(Seq::filter);
    let s = seq![id] + rest;
    if rest.len() == 0 {
        assert(s.drop_last() =~= Seq::<ToplevelId>::empty());
        assert(without(s.drop_last(), id) =~= Seq::<ToplevelId>::empty());
        assert(without(rest, id) =~= Seq::<ToplevelId>::empty());
    } else {
        assert(s.drop_last() =~= seq![id] + rest.drop_last());
        assert(s.last() == rest.last());
        lemma_without_front(id, rest.drop_last());
    }
}

/// A step and a step the other way lead to where the walk stood, whichever way
/// it went first.
pub proof fn law_walk_is_reversible(h: AppHistory, there: AppHistory, delta: i32)
    requires
        h.wf(),
        delta == 1 || delta == -1,
        h.step(delta) is Some,
        there.stack@ == h.stack@,
        there.cursor == h.step(delta)->0,
    ensures
        there.step((-delta) as i32) == Some(h.cursor as int),
{
}

/// What is brought to the front is the most recent app; no app is lost by it, none
/// comes twice, and the others keep their order.
pub proof fn law_foreground_is_the_most_recent(h: &mut AppHistory, id: ToplevelId, x: ToplevelId)
    requires
        call_ensures(AppHistory::push_foreground, (h, id), ()),
        old(h).wf(),
    ensures
        final(h).stack@[0] == id,
        final(h).stack@.contains(x) <==> x == id || old(h).stack@.contains(x),
        final(h).stack@.no_duplicates(),
        final(h).stack@.skip(1) == old(h).stack@.filter(|y: ToplevelId| y != id),
        final(h).cursor == 0,
{
    let rest = without(old(h).stack@, id);
    lemma_without(old(h).stack@, id);
    lemma_without_is_filter(old(h).stack@, id);
    assert(final(h).stack@.skip(1) =~= rest);
    assert(final(h).stack@[0] == id);
    if x != id && old(h).stack@.contains(x) {
        assert(rest.contains(x));
        let k = choose|k: int| 0 <= k < rest.len() && rest[k] == x;
        assert(final(h).stack@[k + 1] == x);
    }
    if final(h).stack@.contains(x) && x != id {
        let k = choose|k: int| 0 <= k < final(h).stack@.len() && final(h).stack@[k] == x;
        assert(rest[k - 1] == x);
        assert(rest.contains(x));
    }
}

/// A window that closed is gone, and no other is.
pub proof fn law_closed_window_is_forgotten(h: &mut AppHistory, id: ToplevelId, x: ToplevelId)
    requires
        call_ensures(AppHistory::remove, (h, id), ()),
        old(h).wf(),
    ensures
        final(h).stack@.contains(x) <==> x != id && old(h).stack@.contains(x),
        final(h).stack@ == old(h).stack@.filter(|y: ToplevelId| y != id),
        old(h).cursor < final(h).stack@.len() ==> final(h).cursor == old(h).cursor,
        old(h).cursor >= final(h).stack@.len() ==> final(h).cursor == 0,
{
    lemma_without(old(h).stack@, id);
    lemma_without_is_filter(old(h).stack@, id);
}

/// A step on leads to the app used before the one on screen, and a step back to
/// the one used after it. A look leads where the step does, and a step reorders
/// nothing.
pub proof fn law_walk_goes_through_the_stack(
    h: &mut AppHistory,
    dir: i32,
    seen: Option<ToplevelId>,
    r: Option<ToplevelId>,
)
    requires
        call_ensures(AppHistory::peek, (old(h), dir), seen),
        call_ensures(AppHistory::quick_switch, (h, dir), r),
        old(h).wf(),
    ensures
        seen == r,
        r is Some <==> (dir > 0 && old(h).cursor + 1 < old(h).stack@.len()) || (dir < 0 && old(h).cursor
            > 0),
        r is Some && dir > 0 ==> r->0 == old(h).stack@[old(h).cursor + 1] && final(h).cursor == old(h).cursor + 1,
        r is Some && dir < 0 ==> r->0 == old(h).stack@[old(h).cursor - 1] && final(h).cursor == old(h).cursor - 1,
        r is None ==> final(h).cursor == old(h).cursor,
        final(h).stack@ == old(h).stack@,
{
}

/// The deck starts with the app on screen, and goes on with the others, most
/// recently used first.
pub proof fn law_deck_starts_with_the_app_on_screen(h: AppHistory, r: Vec<ToplevelId>)
    requires
        call_ensures(AppHistory::deck_order, (&h,), r),
        h.wf(),
        h.stack@.len() > 0,
    ensures
        r@[0] == h.stack@[h.cursor as int],
        r@.skip(1) == h.stack@.filter(|y: ToplevelId| y != r@[0]),
{
    let cur = h.stack@[h.cursor as int];
    lemma_without_is_filter(h.stack@, cur);
    assert(r@.skip(1) =~= without(h.stack@, cur));
}

proof fn lemma_without_is_filter(s: Seq<ToplevelId>, id: ToplevelId)
    ensures
        without(s, id) == s.filter(|y: ToplevelId| y != id),
    decreases s.len(),
{
    reveal(Seq::filter);
    if s.len() > 0 {
        lemma_without_is_filter(s.drop_last(), id);
    } else {
        assert(without(s, id) =~= Seq::<ToplevelId>::empty());
        assert(s.filter(|y: ToplevelId| y != id) =~= Seq::<ToplevelId>::empty());
    }
}

/// A list without a window holds all its other windows, and not that one.
pub proof fn law_other_windows_stay_listed(v: &Vec<ToplevelId>, id: ToplevelId, out: Vec<ToplevelId>, other: ToplevelId)
    requires
        call_ensures(list_without, (v, id), out),
    ensures
        !out@.contains(id),
        other != id ==> (out@.contains(other) <==> v@.contains(other)),
{
    lemma_without_keeps(v@, id, other);
    lemma_without_keeps(v@, id, id);
}

proof fn lemma_without_keeps(v: Seq<ToplevelId>, id: ToplevelId, x: ToplevelId)
    ensures
        without(v, id).contains(x) <==> v.contains(x) && x != id,
    decreases v.len(),
{
    reveal(Seq::filter);
    if v.len() > 0 {
        let front = v.drop_last();
        let rest = without(front, id);
        lemma_without_keeps(front, id, x);
        let all = without(v, id);
        if all.contains(x) {
            let k = choose|k: int| 0 <= k < all.len() && all[k] == x;
            if k < rest.len() {
                assert(rest[k] == x);
                let j = choose|j: int| 0 <= j < front.len() && front[j] == x;
                assert(v[j] == x);
            } else {
                assert(v[v.len() - 1] == x);
            }
        }
        if v.contains(x) && x != id {
            let j = choose|j: int| 0 <= j < v.len() && v[j] == x;
            if j < front.len() {
                assert(front[j] == x);
                let k = choose|k: int| 0 <= k < rest.len() && rest[k] == x;
                assert(all[k] == x);
            } else {
                assert(all[rest.len() as int] == x);
            }
        }
    }
}

} // verus!
