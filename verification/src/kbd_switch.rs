//! Switching apps with a held modifier.
//!
//! Each press steps the deck by a card, and letting the modifier go opens the
//! card in front. The deck takes a few frames to come up, and the modifier may
//! be let go before it is: so steps and the release wait here until the deck
//! exists.
use vstd::prelude::*;

use crate::app_history::ToplevelId;
use crate::input_common::InputStep;
use crate::ui_state::{NavTarget, UiEvent, UiKind};

verus! {

/// A session: the modifier is held, or was.
#[derive(Clone, Copy, Debug, PartialEq, Eq, Structural)]
pub struct KbdSwitch {
    /// Steps that wait for the deck.
    pub pending: i32,
    /// The modifier came up: open the card in front once the deck is there.
    pub commit: bool,
}

/// What the shell does about it.
#[derive(Clone, Copy, Debug, PartialEq, Eq, Structural)]
pub enum SwitchStep {
    /// What is shown changes.
    Transition(UiEvent),
    /// The card in front is opened, by [`open_focused_card`].
    OpenFocusedCard,
    /// A frame is due.
    Redraw,
}

impl Default for KbdSwitch {
    fn default() -> (r: Self)
        ensures
            r == (KbdSwitch { pending: 0, commit: false }),
    {
        KbdSwitch { pending: 0, commit: false }
    }
}

/// The windows of `deck` that are still there.
pub open spec fn live(deck: Seq<ToplevelId>, alive: Seq<bool>) -> Seq<ToplevelId>
    decreases deck.len(),
{
    if deck.len() == 0 {
        Seq::empty()
    } else {
        let rest = live(deck.drop_last(), alive);
        if deck.last() < alive.len() && alive[deck.last() as int] {
            rest.push(deck.last())
        } else {
            rest
        }
    }
}

/// The deck as it would be entered now: the most recent window first, without
/// those that have gone. `alive` says of each window whether it is there.
pub fn live_deck(deck: &Vec<ToplevelId>, alive: &Vec<bool>) -> (out: Vec<ToplevelId>)
    ensures
        out@ == live(deck@, alive@),
{
    let mut out: Vec<ToplevelId> = Vec::new();
    let mut i: usize = 0;
    while i < deck.len()
        invariant
            i <= deck.len(),
            out@ == live(deck@.take(i as int), alive@),
        decreases deck.len() - i,
    {
        proof {
            assert(deck@.take(i + 1).drop_last() =~= deck@.take(i as int));
            assert(deck@.take(i + 1).last() == deck@[i as int]);
        }
        let tid: ToplevelId = deck[i];
        if tid < alive.len() && alive[tid] {
            out.push(tid);
        }
        i = i + 1;
    }
    proof {
        assert(deck@.take(i as int) =~= deck@);
    }
    out
}

/// Nothing but windows that are there is in the deck.
pub proof fn law_deck_holds_live_windows(deck: Seq<ToplevelId>, alive: Seq<bool>)
    ensures
        forall|i: int|
            0 <= i < live(deck, alive).len() ==> (#[trigger] live(deck, alive)[i]) < alive.len()
                && alive[live(deck, alive)[i] as int],
        live(deck, alive).len() <= deck.len(),
    decreases deck.len(),
{
    if deck.len() > 0 {
        law_deck_holds_live_windows(deck.drop_last(), alive);
    }
}

/// What a step of the deck does while `ui` is shown, where `cards` windows could
/// be switched to.
pub open spec fn stepped(
    session: Option<KbdSwitch>,
    ui: UiKind,
    cards: nat,
    delta: i32,
) -> (Option<KbdSwitch>, Seq<SwitchStep>) {
    match ui {
        // The deck is up: step it, and adopt the session, so that letting the
        // modifier go opens a card.
        UiKind::Switcher => (
            Some(
                match session {
                    Some(s) => s,
                    None => KbdSwitch { pending: 0, commit: false },
                },
            ),
            seq![SwitchStep::Transition(UiEvent::SwitcherStep { delta }), SwitchStep::Redraw],
        ),
        UiKind::App => if cards == 0 {
            (session, Seq::empty())
        } else {
            (
                Some(KbdSwitch { pending: delta, commit: false }),
                seq![SwitchStep::Transition(UiEvent::OpenSwitcherFromApp), SwitchStep::Redraw],
            )
        },
        UiKind::Home => if cards == 0 {
            (session, seq![SwitchStep::Transition(UiEvent::HomeBounce)])
        } else {
            (
                Some(KbdSwitch { pending: delta, commit: false }),
                seq![SwitchStep::Transition(UiEvent::OpenSwitcherFromHome), SwitchStep::Redraw],
            )
        },
        // Something moves. When that is the deck of this session coming up, the
        // step waits for it.
        _ => match session {
            Some(s) => (
                Some(KbdSwitch { pending: (s.pending + delta) as i32, ..s }),
                seq![SwitchStep::Redraw],
            ),
            None => (None, Seq::empty()),
        },
    }
}

/// Whether a step waits for what moves, while `ui` is shown.
pub open spec fn step_waits(session: Option<KbdSwitch>, ui: UiKind) -> bool {
    session is Some && ui != UiKind::Switcher && ui != UiKind::App && ui != UiKind::Home
}

/// Step the deck by `delta` cards, bringing it up first when it is not there.
pub fn switcher_step(session: &mut Option<KbdSwitch>, ui: UiKind, cards: usize, delta: i32) -> (out: Vec<
    SwitchStep,
>)
    requires
        step_waits(*old(session), ui) ==> i32::MIN <= (*old(session))->0.pending + delta
            <= i32::MAX,
    ensures
        (*final(session), out@) == stepped(*old(session), ui, cards as nat, delta),
{
    let mut out: Vec<SwitchStep> = Vec::new();
    match ui {
        UiKind::Switcher => {
            out.push(SwitchStep::Transition(UiEvent::SwitcherStep { delta }));
            if session.is_none() {
                *session = Some(KbdSwitch { pending: 0, commit: false });
            }
        },
        UiKind::App => {
            if cards == 0 {
                return out;
            }
            out.push(SwitchStep::Transition(UiEvent::OpenSwitcherFromApp));
            *session = Some(KbdSwitch { pending: delta, commit: false });
        },
        UiKind::Home => {
            if cards == 0 {
                out.push(SwitchStep::Transition(UiEvent::HomeBounce));
                return out;
            }
            out.push(SwitchStep::Transition(UiEvent::OpenSwitcherFromHome));
            *session = Some(KbdSwitch { pending: delta, commit: false });
        },
        _ => {
            match *session {
                Some(s) => {
                    *session = Some(KbdSwitch { pending: s.pending + delta, commit: s.commit });
                },
                None => {
                    return out;
                },
            }
        },
    }
    out.push(SwitchStep::Redraw);
    out
}

/// What a session owes while `ui` is shown.
pub open spec fn polled(session: Option<KbdSwitch>, ui: UiKind) -> (Option<KbdSwitch>, Seq<SwitchStep>) {
    match session {
        None => (None, Seq::empty()),
        Some(s) => match ui {
            UiKind::Switcher => {
                let steps = if s.pending != 0 {
                    seq![SwitchStep::Transition(UiEvent::SwitcherStep { delta: s.pending })]
                } else {
                    Seq::empty()
                };
                if s.commit {
                    (None, steps.push(SwitchStep::OpenFocusedCard))
                } else {
                    (Some(KbdSwitch { pending: 0, commit: false }), steps)
                }
            },
            // The deck is still coming up.
            UiKind::Settling(NavTarget::Switcher) => (session, Seq::empty()),
            // The deck was left some other way: the session is over.
            _ => (None, Seq::empty()),
        },
    }
}

/// Once per frame: do what the session still owes.
pub fn poll_kbd_switch(session: &mut Option<KbdSwitch>, ui: UiKind) -> (out: Vec<SwitchStep>)
    ensures
        (*final(session), out@) == polled(*old(session), ui),
{
    let mut out: Vec<SwitchStep> = Vec::new();
    let s: KbdSwitch = match *session {
        None => {
            return out;
        },
        Some(s) => s,
    };
    match ui {
        UiKind::Switcher => {},
        UiKind::Settling(NavTarget::Switcher) => {
            return out;
        },
        _ => {
            *session = None;
            return out;
        },
    }
    if s.pending != 0 {
        out.push(SwitchStep::Transition(UiEvent::SwitcherStep { delta: s.pending }));
    }
    if s.commit {
        *session = None;
        out.push(SwitchStep::OpenFocusedCard);
    } else {
        *session = Some(KbdSwitch { pending: 0, commit: false });
    }
    out
}

/// The session once the modifier came up.
pub open spec fn committed(session: Option<KbdSwitch>) -> Option<KbdSwitch> {
    match session {
        Some(s) => Some(KbdSwitch { commit: true, ..s }),
        None => None,
    }
}

/// The modifier came up: the card in front is opened, now or once the deck is
/// there. Without a session nothing happens.
pub fn switcher_release(session: &mut Option<KbdSwitch>, ui: UiKind) -> (out: Vec<SwitchStep>)
    ensures
        (*final(session), out@) == polled(committed(*old(session)), ui),
{
    match *session {
        Some(s) => {
            *session = Some(KbdSwitch { pending: s.pending, commit: true });
        },
        None => {
            return Vec::new();
        },
    }
    poll_kbd_switch(session, ui)
}

/// The place of the card that is opened: the one that the deck rests on, which is
/// `nearest` as far as there is such a card.
pub open spec fn focus_of(cards: Seq<ToplevelId>, nearest: i32) -> Option<usize> {
    if cards.len() == 0 {
        None
    } else if nearest < 0 {
        Some(0usize)
    } else if nearest >= cards.len() {
        Some((cards.len() - 1) as usize)
    } else {
        Some(nearest as usize)
    }
}

/// The place of the card that is opened.
pub fn focused_card(cards: &Vec<ToplevelId>, nearest: i32) -> (r: Option<usize>)
    requires
        cards@.len() <= i32::MAX,
    ensures
        r == focus_of(cards@, nearest),
{
    if cards.len() == 0 {
        return None;
    }
    if nearest < 0 {
        return Some(0);
    }
    if nearest as usize >= cards.len() {
        return Some(cards.len() - 1);
    }
    Some(nearest as usize)
}

/// Open the card that the deck rests on. It becomes the most recent window, as a
/// tap on it would make it. Without cards nothing happens.
pub fn open_focused_card(cards: &Vec<ToplevelId>, nearest: i32) -> (out: Vec<InputStep>)
    requires
        cards@.len() <= i32::MAX,
    ensures
        out@ == (match focus_of(cards@, nearest) {
            Some(i) => seq![
                InputStep::PushForeground(cards@[i as int]),
                InputStep::Transition(UiEvent::SwitcherTapCard { toplevel: cards@[i as int] }),
                InputStep::Redraw,
            ],
            None => Seq::empty(),
        }),
{
    let mut out: Vec<InputStep> = Vec::new();
    match focused_card(cards, nearest) {
        Some(i) => {
            let toplevel: ToplevelId = cards[i];
            out.push(InputStep::PushForeground(toplevel));
            out.push(InputStep::Transition(UiEvent::SwitcherTapCard { toplevel }));
            out.push(InputStep::Redraw);
        },
        None => {},
    }
    out
}

/// A session ends: once the modifier is up, the first frame that shows the deck,
/// or anything but the deck coming up, ends it.
pub proof fn law_released_session_ends(s: KbdSwitch, ui: UiKind)
    requires
        s.commit,
        ui != UiKind::Settling(NavTarget::Switcher),
    ensures
        polled(Some(s), ui).0 is None,
        ui == UiKind::Switcher ==> polled(Some(s), ui).1.last() == SwitchStep::OpenFocusedCard,
{
}

/// No step is lost: what was asked while the deck came up is done in one step
/// when it is there.
pub proof fn law_steps_wait_for_the_deck(s: KbdSwitch, delta: i32, cards: nat)
    requires
        i32::MIN <= s.pending + delta <= i32::MAX,
        s.pending + delta != 0,
        !s.commit,
    ensures
        ({
            let coming = UiKind::Settling(NavTarget::Switcher);
            let after = stepped(Some(s), coming, cards, delta).0;
            &&& polled(after, coming).0 == after
            &&& polled(after, UiKind::Switcher).1 == seq![
                SwitchStep::Transition(
                    UiEvent::SwitcherStep { delta: (s.pending + delta) as i32 },
                ),
            ]
        }),
{
}

/// A window is in the deck exactly if it is in the history and there.
pub proof fn law_deck_is_the_live_history(deck: Seq<ToplevelId>, alive: Seq<bool>, tid: ToplevelId)
    ensures
        live(deck, alive).contains(tid) <==> deck.contains(tid) && tid < alive.len() && alive[tid as int],
    decreases deck.len(),
{
    if deck.len() > 0 {
        let init = deck.drop_last();
        let rest = live(init, alive);
        law_deck_is_the_live_history(init, alive, tid);
        if deck.contains(tid) && tid < alive.len() && alive[tid as int] {
            let k = choose|k: int| 0 <= k < deck.len() && deck[k] == tid;
            if k < init.len() {
                assert(init[k] == tid);
                let j = choose|j: int| 0 <= j < rest.len() && rest[j] == tid;
                assert(live(deck, alive)[j] == tid);
            } else {
                assert(live(deck, alive)[rest.len() as int] == tid);
            }
        }
        if live(deck, alive).contains(tid) {
            let j = choose|j: int| 0 <= j < live(deck, alive).len() && live(deck, alive)[j] == tid;
            if j < rest.len() {
                assert(rest[j] == tid);
                let k = choose|k: int| 0 <= k < init.len() && init[k] == tid;
                assert(deck[k] == tid);
            } else {
                assert(deck[deck.len() - 1] == tid);
            }
        }
    }
}

/// Where every window is there, the deck is the history in its order.
pub proof fn law_deck_keeps_the_order(deck: Seq<ToplevelId>, alive: Seq<bool>)
    requires
        forall|i: int| 0 <= i < deck.len() ==> #[trigger] deck[i] < alive.len() && alive[deck[i] as int],
    ensures
        live(deck, alive) == deck,
    decreases deck.len(),
{
    if deck.len() > 0 {
        assert forall|i: int| 0 <= i < deck.drop_last().len() implies #[trigger] deck.drop_last()[i]
            < alive.len() && alive[deck.drop_last()[i] as int] by {
            assert(deck[i] == deck.drop_last()[i]);
        }
        law_deck_keeps_the_order(deck.drop_last(), alive);
        assert(deck[deck.len() - 1] == deck.last());
        assert(live(deck, alive) =~= deck);
    }
}

/// A press steps the deck by what was asked where it is up, and brings it up
/// where an app or the home screen is shown and there is a window to switch to;
/// the step then waits. Without one, the home screen bounces and an app stays.
pub proof fn law_press_brings_the_deck_up(
    session: &mut Option<KbdSwitch>,
    ui: UiKind,
    cards: usize,
    delta: i32,
    out: Vec<SwitchStep>,
)
    requires
        call_ensures(switcher_step, (session, ui, cards, delta), out),
    ensures
        out@.contains(SwitchStep::Transition(UiEvent::SwitcherStep { delta })) <==> ui == UiKind::Switcher,
        out@.contains(SwitchStep::Transition(UiEvent::OpenSwitcherFromApp)) <==> ui == UiKind::App && cards > 0,
        out@.contains(SwitchStep::Transition(UiEvent::OpenSwitcherFromHome)) <==> ui == UiKind::Home
            && cards > 0,
        out@.contains(SwitchStep::Transition(UiEvent::HomeBounce)) <==> ui == UiKind::Home && cards == 0,
        (ui == UiKind::App || ui == UiKind::Home) && cards > 0 ==> *final(session) == Some(
            KbdSwitch { pending: delta, commit: false },
        ),
        (ui == UiKind::App || ui == UiKind::Home) && cards == 0 ==> *final(session) == *old(session),
        ui == UiKind::Switcher ==> *final(session) is Some,
        ui == UiKind::Switcher && *old(session) is Some ==> *final(session) == *old(session),
        ui == UiKind::Switcher && *old(session) is None ==> (*final(session))->0.pending == 0
            && !(*final(session))->0.commit,
        !out@.contains(SwitchStep::OpenFocusedCard),
        ui == UiKind::Switcher ==> out@.contains(SwitchStep::Redraw),
        (ui == UiKind::App || ui == UiKind::Home) && cards > 0 ==> out@.contains(SwitchStep::Redraw),
{
    let s = stepped(*old(session), ui, cards as nat, delta).1;
    assert(s == out@);
    if s.len() > 0 {
        assert(out@[0] == s[0]);
    }
    if s.len() > 1 {
        assert(out@[1] == s[1]);
    }
}

/// Steps that come while the deck moves up add to those that wait, and none is
/// kept where no session is on.
pub proof fn law_waiting_steps_add_up(
    session: &mut Option<KbdSwitch>,
    target: NavTarget,
    cards: usize,
    delta: i32,
    out: Vec<SwitchStep>,
)
    requires
        call_ensures(switcher_step, (session, UiKind::Settling(target), cards, delta), out),
        match *old(session) {
            Some(s) => i32::MIN <= s.pending + delta <= i32::MAX,
            None => true,
        },
    ensures
        *old(session) is None ==> *final(session) is None && out@.len() == 0,
        *old(session) is Some ==> *final(session) is Some && (*final(session))->0.pending == (*old(session))->0.pending + delta && (*final(session))->0.commit == (*old(session))->0.commit && out@.contains(
            SwitchStep::Redraw,
        ),
{
    if *old(session) is Some {
        assert(out@[0] == SwitchStep::Redraw);
    }
}

/// Once the deck is up, what waited is done: the steps, and the card in front is
/// opened exactly if the modifier was let go. While it comes up all of it waits,
/// and anywhere else the session is over.
pub proof fn law_deck_does_what_waited(session: &mut Option<KbdSwitch>, ui: UiKind, out: Vec<SwitchStep>)
    requires
        call_ensures(poll_kbd_switch, (session, ui), out),
        *old(session) is Some,
    ensures
        out@.contains(SwitchStep::OpenFocusedCard) <==> ui == UiKind::Switcher && (*old(session))->0.commit,
        (*old(session))->0.pending != 0 ==> (out@.contains(
            SwitchStep::Transition(
                UiEvent::SwitcherStep { delta: (*old(session))->0.pending },
            ),
        ) <==> ui == UiKind::Switcher),
        (*old(session))->0.pending == 0 && !(*old(session))->0.commit ==> out@.len() == 0,
        *final(session) is Some <==> (ui == UiKind::Switcher && !(*old(session))->0.commit) || ui
            == UiKind::Settling(NavTarget::Switcher),
        ui == UiKind::Settling(NavTarget::Switcher) ==> *final(session) == *old(session) && out@.len() == 0,
        ui == UiKind::Switcher && *final(session) is Some ==> (*final(session))->0.pending == 0,
{
    let s = polled(*old(session), ui).1;
    assert(s == out@);
    if s.len() > 0 {
        assert(out@[0] == s[0]);
    }
    if s.len() > 1 {
        assert(out@[1] == s[1]);
    }
}

/// Letting the modifier go opens the card in front at once where the deck is up,
/// later where it is coming up, and does nothing without a session.
pub proof fn law_release_opens_the_card(session: &mut Option<KbdSwitch>, ui: UiKind, out: Vec<SwitchStep>)
    requires
        call_ensures(switcher_release, (session, ui), out),
    ensures
        out@.contains(SwitchStep::OpenFocusedCard) <==> ui == UiKind::Switcher && *old(session) is Some,
        *final(session) is Some <==> *old(session) is Some && ui == UiKind::Settling(NavTarget::Switcher),
        *final(session) is Some ==> (*final(session))->0.commit && (*final(session))->0.pending == (*old(session))->0.pending,
{
    let s = polled(committed(*old(session)), ui).1;
    assert(s == out@);
    if s.len() > 0 {
        assert(out@[0] == s[0]);
    }
    if s.len() > 1 {
        assert(out@[1] == s[1]);
    }
}

/// The card that is opened is the one closest to where the deck rests, and it
/// becomes the most recent window.
pub proof fn law_closest_card_is_opened(
    cards: Vec<ToplevelId>,
    nearest: i32,
    out: Vec<InputStep>,
    k: int,
    j: int,
)
    requires
        call_ensures(open_focused_card, (&cards, nearest), out),
        cards@.len() <= i32::MAX,
        cards@.no_duplicates(),
        0 <= k < cards@.len(),
        0 <= j < cards@.len(),
        out@.contains(InputStep::PushForeground(cards@[k])),
    ensures
        (if k >= nearest {
            k - nearest
        } else {
            nearest - k
        }) <= (if j >= nearest {
            j - nearest
        } else {
            nearest - j
        }),
        out@.contains(InputStep::Transition(UiEvent::SwitcherTapCard { toplevel: cards@[k] })),
        out@.contains(InputStep::Redraw),
{
    assert(out@[1] == InputStep::Transition(
        UiEvent::SwitcherTapCard { toplevel: cards@[focus_of(cards@, nearest)->0 as int] },
    ));
    assert(out@[2] == InputStep::Redraw);
}

/// A deck without cards opens nothing, and any other opens a card.
pub proof fn law_some_card_is_opened(cards: Vec<ToplevelId>, nearest: i32, out: Vec<InputStep>)
    requires
        call_ensures(open_focused_card, (&cards, nearest), out),
        cards@.len() <= i32::MAX,
    ensures
        out@.len() == 0 <==> cards@.len() == 0,
        cards@.len() > 0 ==> out@[0] is PushForeground && cards@.contains(out@[0]->PushForeground_0),
{
}

/// The deck holds each window of the history that is there, and no other; where all
/// are there it is the history.
pub proof fn law_deck_is_entered_with_what_is_there(
    deck: &Vec<ToplevelId>,
    alive: &Vec<bool>,
    out: Vec<ToplevelId>,
    tid: ToplevelId,
)
    requires
        call_ensures(live_deck, (deck, alive), out),
    ensures
        out@.contains(tid) <==> deck@.contains(tid) && tid < alive@.len() && alive@[tid as int],
        (forall|i: int|
            0 <= i < deck@.len() ==> #[trigger] deck@[i] < alive@.len() && alive@[deck@[i] as int])
            ==> out@ == deck@,
{
    law_deck_is_the_live_history(deck@, alive@, tid);
    if forall|i: int|
        0 <= i < deck@.len() ==> #[trigger] deck@[i] < alive@.len() && alive@[deck@[i] as int] {
        law_deck_keeps_the_order(deck@, alive@);
    }
}

/// The card in front is the one that the deck rests on, and the nearest there is
/// where it rests on none.
pub proof fn law_focus_stays_on_a_card(cards: &Vec<ToplevelId>, nearest: i32, r: Option<usize>, k: int)
    requires
        call_ensures(focused_card, (cards, nearest), r),
        cards@.len() <= i32::MAX,
        0 <= k < cards@.len(),
    ensures
        r is Some && r->0 < cards@.len(),
        0 <= nearest < cards@.len() ==> r->0 == nearest,
        nearest <= r->0 ==> k <= nearest || r->0 <= k,
        nearest >= r->0 ==> k <= r->0 || nearest <= k,
{
}

} // verus!
