//! Clients that hold off idle while one of their surfaces is visible.
//!
//! An app behind the foreground one must not keep the phone awake, so an
//! inhibitor counts only on the surface of the foreground app, or on a layer
//! surface that is mapped: a shell relays the inhibits that it collects from
//! other places onto one of its own.
use vstd::prelude::*;

verus! {

/// The surfaces that hold an inhibitor, each once. A surface is known by its
/// number.
#[derive(Debug)]
pub struct IdleInhibit {
    pub surfaces: Vec<u64>,
}

/// Whether `f` can be asked about each of the surfaces.
pub open spec fn knows_surfaces<F: Fn(u64) -> bool>(f: F, surfaces: Seq<u64>) -> bool {
    forall|i: int| 0 <= i < surfaces.len() ==> call_requires(f, (#[trigger] surfaces[i],))
}

/// Whether the surface of the foreground app holds an inhibitor.
pub open spec fn foreground_inhibits(surfaces: Seq<u64>, visible: Option<u64>) -> bool {
    visible is Some && surfaces.contains(visible->0)
}

/// The surfaces whose mark is set, in their order.
pub open spec fn kept(surfaces: Seq<u64>, marks: Seq<bool>) -> Seq<u64>
    decreases surfaces.len(),
{
    if surfaces.len() == 0 || marks.len() == 0 {
        Seq::empty()
    } else {
        let rest = kept(surfaces.drop_last(), marks.drop_last());
        if marks.last() {
            rest.push(surfaces.last())
        } else {
            rest
        }
    }
}

/// Whether `marks` holds an answer of `f` for each of the surfaces.
pub open spec fn are_answers<F: Fn(u64) -> bool>(f: F, surfaces: Seq<u64>, marks: Seq<bool>) -> bool {
    &&& marks.len() == surfaces.len()
    &&& forall|i: int|
        0 <= i < surfaces.len() ==> call_ensures(f, (#[trigger] surfaces[i],), marks[i])
}

/// Whether `f` answered with no for each of the surfaces.
pub open spec fn refuses_all<F: Fn(u64) -> bool>(f: F, surfaces: Seq<u64>) -> bool {
    forall|i: int| 0 <= i < surfaces.len() ==> call_ensures(f, (#[trigger] surfaces[i],), false)
}

/// Whether `f` answered with yes for one of the surfaces.
pub open spec fn accepts_one<F: Fn(u64) -> bool>(f: F, surfaces: Seq<u64>) -> bool {
    exists|i: int| 0 <= i < surfaces.len() && call_ensures(f, (#[trigger] surfaces[i],), true)
}

/// What keeps no duplicate out of a list keeps none out of its part.
proof fn lemma_kept_has_no_duplicates(surfaces: Seq<u64>, marks: Seq<bool>)
    requires
        surfaces.no_duplicates(),
        marks.len() == surfaces.len(),
    ensures
        kept(surfaces, marks).no_duplicates(),
        forall|s: u64| kept(surfaces, marks).contains(s) ==> #[trigger] surfaces.contains(s),
    decreases surfaces.len(),
{
    if surfaces.len() > 0 {
        let rest = kept(surfaces.drop_last(), marks.drop_last());
        lemma_kept_has_no_duplicates(surfaces.drop_last(), marks.drop_last());
        assert forall|s: u64| kept(surfaces, marks).contains(s) implies #[trigger] surfaces.contains(
            s,
        ) by {
            if rest.contains(s) {
                assert(surfaces.drop_last().contains(s));
                let k = choose|k: int| 0 <= k < surfaces.len() - 1 && surfaces.drop_last()[k] == s;
                assert(surfaces[k] == s);
            } else {
                let k = choose|k: int|
                    0 <= k < kept(surfaces, marks).len() && kept(surfaces, marks)[k] == s;
                if k < rest.len() {
                    assert(rest[k] == s);
                }
                assert(surfaces[surfaces.len() - 1] == s);
            }
        }
        if rest.contains(surfaces.last()) {
            assert(surfaces.drop_last().contains(surfaces.last()));
            let k = choose|k: int|
                0 <= k < surfaces.len() - 1 && surfaces.drop_last()[k] == surfaces.last();
            assert(surfaces[k] == surfaces[surfaces.len() - 1]);
        }
    }
}

fn holds(surfaces: &Vec<u64>, surface: u64) -> (r: bool)
    ensures
        r == surfaces@.contains(surface),
{
    let mut i: usize = 0;
    while i < surfaces.len()
        invariant
            i <= surfaces.len(),
            forall|k: int| 0 <= k < i ==> surfaces@[k] != surface,
        decreases surfaces.len() - i,
    {
        if surfaces[i] == surface {
            return true;
        }
        i = i + 1;
    }
    false
}

/// Whether anything visible holds an inhibitor: the surface of the foreground
/// app, or one that `mapped_layer` accepts. It is asked about surfaces that hold
/// one only, and about none if the foreground app's does.
pub fn inhibited_by<F: Fn(u64) -> bool>(
    inhibiting: &Vec<u64>,
    visible: Option<u64>,
    mapped_layer: F,
) -> (r: bool)
    requires
        !foreground_inhibits(inhibiting@, visible) ==> knows_surfaces(mapped_layer, inhibiting@),
    ensures
        foreground_inhibits(inhibiting@, visible) ==> r,
        !foreground_inhibits(inhibiting@, visible) ==> if r {
            accepts_one(mapped_layer, inhibiting@)
        } else {
            refuses_all(mapped_layer, inhibiting@)
        },
{
    match visible {
        Some(s) => {
            if holds(inhibiting, s) {
                return true;
            }
        },
        None => {},
    }
    let mut i: usize = 0;
    while i < inhibiting.len()
        invariant
            i <= inhibiting.len(),
            knows_surfaces(mapped_layer, inhibiting@),
            forall|k: int|
                0 <= k < i ==> call_ensures(mapped_layer, (#[trigger] inhibiting@[k],), false),
        decreases inhibiting.len() - i,
    {
        let s: u64 = inhibiting[i];
        proof {
            assert(inhibiting@[i as int] == s);
        }
        if mapped_layer(s) {
            return true;
        }
        i = i + 1;
    }
    false
}

impl IdleInhibit {
    /// Each surface is listed once.
    pub open spec fn wf(self) -> bool {
        self.surfaces@.no_duplicates()
    }

    pub fn new() -> (r: Self)
        ensures
            r.surfaces@ == Seq::<u64>::empty(),
            r.wf(),
    {
        IdleInhibit { surfaces: Vec::new() }
    }

    /// A client created an inhibitor on `surface`.
    pub fn inhibit(&mut self, surface: u64)
        requires
            old(self).wf(),
        ensures
            final(self).wf(),
            final(self).surfaces@ == (if old(self).surfaces@.contains(surface) {
                old(self).surfaces@
            } else {
                old(self).surfaces@.push(surface)
            }),
    {
        if !holds(&self.surfaces, surface) {
            self.surfaces.push(surface);
        }
    }

    /// A client destroyed the inhibitor on `surface`.
    pub fn uninhibit(&mut self, surface: u64)
        requires
            old(self).wf(),
        ensures
            final(self).wf(),
            !final(self).surfaces@.contains(surface),
            forall|s: u64|
                s != surface ==> (#[trigger] final(self).surfaces@.contains(s) <==> old(self).surfaces@.contains(s)),
    {
        let ghost was = self.surfaces@;
        let mut i: usize = 0;
        while i < self.surfaces.len()
            invariant
                i <= self.surfaces.len(),
                self.surfaces@ == was,
                was == old(self).surfaces@,
                was.no_duplicates(),
                forall|k: int| 0 <= k < i ==> was[k] != surface,
            decreases self.surfaces.len() - i,
        {
            if self.surfaces[i] == surface {
                self.surfaces.remove(i);
                proof {
                    let now = self.surfaces@;
                    assert(now =~= was.remove(i as int));
                    assert forall|s: u64| s != surface implies (#[trigger] now.contains(s)
                        <==> was.contains(s)) by {
                        if was.contains(s) {
                            let k = choose|k: int| 0 <= k < was.len() && was[k] == s;
                            if k < i {
                                assert(now[k] == s);
                            } else {
                                assert(now[k - 1] == s);
                            }
                        }
                        if now.contains(s) {
                            let k = choose|k: int| 0 <= k < now.len() && now[k] == s;
                            if k < i {
                                assert(was[k] == s);
                            } else {
                                assert(was[k + 1] == s);
                            }
                        }
                    }
                }
                return;
            }
            i = i + 1;
        }
    }

    /// Whether anything visible holds an inhibitor. A client that crashed never
    /// destroyed its inhibitor, so the surfaces that are gone leave the set
    /// first: `mapped_layer` is asked about none of those.
    pub fn is_inhibited<A: Fn(u64) -> bool, F: Fn(u64) -> bool>(
        &mut self,
        visible: Option<u64>,
        alive: A,
        mapped_layer: F,
    ) -> (r: bool)
        requires
            old(self).wf(),
            knows_surfaces(alive, old(self).surfaces@),
            forall|marks: Seq<bool>| #[trigger]
                are_answers(alive, old(self).surfaces@, marks) ==> {
                    let left = kept(old(self).surfaces@, marks);
                    !foreground_inhibits(left, visible) ==> knows_surfaces(mapped_layer, left)
                },
        ensures
            final(self).wf(),
            exists|marks: Seq<bool>| #[trigger]
                are_answers(alive, old(self).surfaces@, marks) && final(self).surfaces@ == kept(
                    old(self).surfaces@,
                    marks,
                ),
            foreground_inhibits(final(self).surfaces@, visible) ==> r,
            !foreground_inhibits(final(self).surfaces@, visible) ==> if r {
                accepts_one(mapped_layer, final(self).surfaces@)
            } else {
                refuses_all(mapped_layer, final(self).surfaces@)
            },
    {
        let ghost was = self.surfaces@;
        let ghost mut marks: Seq<bool> = Seq::empty();
        let mut left: Vec<u64> = Vec::new();
        let mut i: usize = 0;
        while i < self.surfaces.len()
            invariant
                i <= self.surfaces.len(),
                self.surfaces@ == was,
                knows_surfaces(alive, was),
                marks.len() == i,
                forall|k: int| 0 <= k < i ==> call_ensures(alive, (#[trigger] was[k],), marks[k]),
                left@ == kept(was.take(i as int), marks),
            decreases self.surfaces.len() - i,
        {
            let s: u64 = self.surfaces[i];
            proof {
                assert(was[i as int] == s);
            }
            let keep: bool = alive(s);
            proof {
                let more = marks.push(keep);
                assert(was.take(i + 1).drop_last() =~= was.take(i as int));
                assert(was.take(i + 1).last() == s);
                assert(more.drop_last() =~= marks);
                marks = more;
            }
            if keep {
                left.push(s);
            }
            i = i + 1;
        }
        proof {
            assert(was.take(i as int) =~= was);
            assert(are_answers(alive, was, marks));
            lemma_kept_has_no_duplicates(was, marks);
        }
        self.surfaces = left;
        inhibited_by(&self.surfaces, visible, mapped_layer)
    }
}

/// An inhibitor on the surface of the app in front counts, whatever else there
/// is, and one behind it does not.
pub proof fn law_visible_inhibitor_counts<F: Fn(u64) -> bool>(
    inhibiting: Vec<u64>,
    visible: Option<u64>,
    mapped_layer: F,
    r: bool,
)
    requires
        call_ensures(inhibited_by::<F>, (&inhibiting, visible, mapped_layer), r),
        forall|s: u64| !call_ensures(mapped_layer, (s,), true),
    ensures
        r <==> exists|k: int| 0 <= k < inhibiting@.len() && Some(#[trigger] inhibiting@[k]) == visible,
{
    if foreground_inhibits(inhibiting@, visible) {
        let k = choose|k: int| 0 <= k < inhibiting@.len() && inhibiting@[k] == visible->0;
        assert(Some(inhibiting@[k]) == visible);
    }
}

/// An inhibitor on a layer surface counts exactly if that surface is mapped.
pub proof fn law_mapped_layer_counts<F: Fn(u64) -> bool>(
    inhibiting: Vec<u64>,
    mapped_layer: F,
    mapped: spec_fn(u64) -> bool,
    r: bool,
)
    requires
        call_ensures(inhibited_by::<F>, (&inhibiting, None, mapped_layer), r),
        forall|s: u64, b: bool| #[trigger] call_ensures(mapped_layer, (s,), b) ==> b == mapped(s),
    ensures
        r <==> exists|k: int| 0 <= k < inhibiting@.len() && mapped(#[trigger] inhibiting@[k]),
{
    if r {
        let k = choose|k: int|
            0 <= k < inhibiting@.len() && call_ensures(mapped_layer, (#[trigger] inhibiting@[k],), true);
        assert(mapped(inhibiting@[k]));
    } else {
        assert forall|k: int| 0 <= k < inhibiting@.len() implies !mapped(#[trigger] inhibiting@[k]) by {
            assert(call_ensures(mapped_layer, (inhibiting@[k],), false));
        }
    }
}

/// A surface holds an inhibitor from its creation until its end.
pub proof fn law_inhibitor_ends_with_its_destruction(
    a: &mut IdleInhibit,
    b: &mut IdleInhibit,
    surface: u64,
    other: u64,
)
    requires
        call_ensures(IdleInhibit::inhibit, (a, surface), ()),
        *final(a) == *old(b),
        call_ensures(IdleInhibit::uninhibit, (b, other), ()),
    ensures
        final(a).surfaces@.contains(surface),
        final(b).surfaces@.contains(surface) <==> surface != other,
{
    if !old(a).surfaces@.contains(surface) {
        assert(final(a).surfaces@[old(a).surfaces@.len() as int] == surface);
    }
}

/// The surface in front keeps the panel lit while it holds an inhibitor and lives;
/// where it does not, a layer that is mapped does, and nothing else. No surface
/// comes up that held none before.
pub proof fn law_panel_stays_lit_for_what_is_seen<A: Fn(u64) -> bool, F: Fn(u64) -> bool>(
    held: &mut IdleInhibit,
    visible: Option<u64>,
    alive: A,
    mapped_layer: F,
    r: bool,
)
    requires
        call_ensures(IdleInhibit::is_inhibited::<A, F>, (held, visible, alive, mapped_layer), r),
    ensures
        visible matches Some(s) ==> (final(held).surfaces@.contains(s) ==> r),
        r ==> (visible matches Some(s) && final(held).surfaces@.contains(s)) || exists|i: int|
            0 <= i < final(held).surfaces@.len() && call_ensures(
                mapped_layer,
                (#[trigger] final(held).surfaces@[i],),
                true,
            ),
        !r ==> forall|i: int|
            0 <= i < final(held).surfaces@.len() ==> call_ensures(
                mapped_layer,
                (#[trigger] final(held).surfaces@[i],),
                false,
            ),
        final(held).surfaces@.len() <= old(held).surfaces@.len(),
        forall|s: u64| #[trigger]
            final(held).surfaces@.contains(s) ==> old(held).surfaces@.contains(s),
{
    let was = old(held).surfaces@;
    let marks = choose|marks: Seq<bool>| #[trigger]
        are_answers(alive, was, marks) && final(held).surfaces@ == kept(was, marks);
    lemma_kept_is_part(was, marks);
}

proof fn lemma_kept_is_part(surfaces: Seq<u64>, marks: Seq<bool>)
    ensures
        kept(surfaces, marks).len() <= surfaces.len(),
        forall|s: u64| #[trigger] kept(surfaces, marks).contains(s) ==> surfaces.contains(s),
    decreases surfaces.len(),
{
    let all = kept(surfaces, marks);
    if surfaces.len() > 0 && marks.len() > 0 {
        let front = surfaces.drop_last();
        let rest = kept(front, marks.drop_last());
        lemma_kept_is_part(front, marks.drop_last());
        assert forall|s: u64| #[trigger] all.contains(s) implies surfaces.contains(s) by {
            let k = choose|k: int| 0 <= k < all.len() && all[k] == s;
            if k < rest.len() {
                assert(rest.contains(s));
                assert(front.contains(s));
                let j = choose|j: int| 0 <= j < front.len() && front[j] == s;
                assert(surfaces[j] == s);
            } else {
                assert(surfaces[surfaces.len() - 1] == s);
            }
        }
    }
}

} // verus!
