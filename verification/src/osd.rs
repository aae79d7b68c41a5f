//! The volume display: what it shows, and for how long.
use vstd::prelude::*;

use crate::debug_input::Coord;
use crate::text::{
    answers, chars_of, has_prefix, has_text, is_space_char, lines, lines_of, occurs, part, rows,
    starts_with, total, trim, trim_start, trimmed, whole, words, words_of,
};
use crate::time::{elapsed, share_left, left, since, Nanos, Share};

verus! {

/// How long the display stays after a change, and how long it takes to fade.
pub const HOLD: Nanos = 1_500_000_000;

pub const FADE: Nanos = 300_000_000;

/// The volume as last read, and when it was last shown. The level is a
/// single-precision number and is carried as its bit pattern.
#[derive(Clone, Copy, Debug)]
pub struct Osd {
    pub level: Coord,
    pub muted: bool,
    pub shown_at: Option<Nanos>,
}

/// How much of the display there is to see.
#[derive(Clone, Copy, Debug, PartialEq, Eq, Structural)]
pub enum Opacity {
    Gone,
    Full,
    /// Fading out, for so long.
    Fading(Nanos),
}

impl Default for Osd {
    fn default() -> (r: Self)
        ensures
            r.level == 0 && !r.muted && r.shown_at is None,
    {
        Osd { level: 0, muted: false, shown_at: None }
    }
}

impl Osd {
    /// How much there is to see at `now`.
    pub open spec fn opacity_at(self, now: Nanos) -> Opacity {
        match self.shown_at {
            None => Opacity::Gone,
            Some(shown) => {
                let age = elapsed(shown, now);
                if age <= HOLD {
                    Opacity::Full
                } else if age - HOLD >= FADE {
                    Opacity::Gone
                } else {
                    Opacity::Fading((age - HOLD) as Nanos)
                }
            },
        }
    }

    pub fn new() -> (r: Self)
        ensures
            r.level == 0 && !r.muted && r.shown_at is None,
    {
        Osd { level: 0, muted: false, shown_at: None }
    }

    /// The volume was read: show it, from now on.
    pub fn show(&mut self, level: Coord, muted: bool, now: Nanos)
        ensures
            *final(self) == (Osd { level, muted, shown_at: Some(now) }),
    {
        self.level = level;
        self.muted = muted;
        self.shown_at = Some(now);
    }

    /// How much there is to see at `now`.
    pub fn opacity(&self, now: Nanos) -> (r: Opacity)
        ensures
            r == self.opacity_at(now),
    {
        match self.shown_at {
            None => Opacity::Gone,
            Some(shown) => {
                let age: Nanos = since(shown, now);
                if age <= HOLD {
                    Opacity::Full
                } else if age - HOLD >= FADE {
                    Opacity::Gone
                } else {
                    Opacity::Fading(age - HOLD)
                }
            },
        }
    }

    /// How much of the display is drawn at `now`.
    pub fn alpha(&self, now: Nanos) -> (r: Share)
        ensures
            r == (match self.opacity_at(now) {
                Opacity::Gone => Share::nothing(),
                Opacity::Full => Share::all(),
                Opacity::Fading(t) => left(t, FADE),
            }),
            r.wf(),
    {
        match self.opacity(now) {
            Opacity::Gone => Share::none_of_it(),
            Opacity::Full => Share::all_of_it(),
            Opacity::Fading(t) => share_left(t, FADE),
        }
    }

    /// Whether there is still something to draw.
    pub fn is_active(&self, now: Nanos) -> (r: bool)
        ensures
            r == (self.opacity_at(now) != Opacity::Gone),
    {
        match self.opacity(now) {
            Opacity::Gone => false,
            _ => true,
        }
    }
}

/// What is shown at a moment is whole then, holds, and is gone after the hold
/// and the fade.
pub proof fn law_display_fades_away(level: Coord, muted: bool, shown: Nanos, now: Nanos)
    requires
        now >= shown,
    ensures
        ({
            let osd = Osd { level, muted, shown_at: Some(shown) };
            &&& now - shown <= HOLD <==> osd.opacity_at(now) == Opacity::Full
            &&& now - shown >= HOLD + FADE <==> osd.opacity_at(now) == Opacity::Gone
        }),
{
}

/// The first of the lines `ls` that tells the volume, without the space before
/// it.
pub open spec fn volume_line(ls: Seq<Seq<char>>) -> Option<Seq<char>>
    decreases ls.len(),
{
    if ls.len() == 0 {
        None
    } else if starts_with(trim_start(ls[0]), "Volume:"@) {
        Some(trim_start(ls[0]))
    } else {
        volume_line(ls.skip(1))
    }
}

/// What stands behind the word on the line that tells the volume.
pub open spec fn volume_text(output: Seq<char>) -> Option<Seq<char>> {
    match volume_line(lines(output)) {
        Some(line) => Some(trim(line.skip("Volume:"@.len() as int))),
        None => None,
    }
}

/// A line without the space at its start.
fn without_indent(line: &Vec<char>) -> (out: Vec<char>)
    ensures
        out@ == trim_start(line@),
{
    let mut i: usize = 0;
    proof {
        assert(line@.skip(0) =~= line@);
    }
    while i < line.len() && is_space_char(line[i])
        invariant
            i <= line.len(),
            trim_start(line@.skip(i as int)) == trim_start(line@),
        decreases line.len() - i,
    {
        proof {
            assert(line@.skip(i as int)[0] == line@[i as int]);
            assert(line@.skip(i as int).skip(1) =~= line@.skip(i + 1));
        }
        i = i + 1;
    }
    proof {
        if i < line.len() {
            assert(line@.skip(i as int)[0] == line@[i as int]);
        }
        assert(line@.skip(i as int) =~= line@.subrange(i as int, line@.len() as int));
    }
    part(line, i, line.len())
}

fn told_volume(output: &str) -> (r: Option<Vec<char>>)
    ensures
        match r {
            Some(v) => volume_text(output@) == Some(v@),
            None => volume_text(output@) is None,
        },
{
    let ls: Vec<Vec<char>> = lines_of(&chars_of(output));
    let n: usize = chars_of("Volume:").len();
    let ghost all = rows(ls@);
    let mut i: usize = 0;
    proof {
        assert(all.skip(0) =~= all);
    }
    while i < ls.len()
        invariant
            i <= ls.len(),
            n == "Volume:"@.len(),
            all == rows(ls@),
            all == lines(output@),
            volume_line(all.skip(i as int)) == volume_line(all),
        decreases ls.len() - i,
    {
        proof {
            assert(all.skip(i as int)[0] == ls@[i as int]@);
            assert(all.skip(i as int).skip(1) =~= all.skip(i + 1));
        }
        let line: Vec<char> = without_indent(&ls[i]);
        if has_prefix(&line, "Volume:") {
            proof {
                assert(line@.skip(n as int) =~= line@.subrange(n as int, line@.len() as int));
            }
            return Some(trimmed(&part(&line, n, line.len())));
        }
        i = i + 1;
    }
    None
}

/// Read what the mixer prints of the volume: `Volume: 0.45`, with `[MUTED]`
/// behind it when it is muted. `number` reads a word as a single-precision
/// number.
pub fn parse_wpctl_volume<F: Fn(&str) -> Option<Coord>>(output: &str, number: F) -> (r: Option<
    (Coord, bool),
>)
    requires
        total(number),
    ensures
        match volume_text(output@) {
            None => r is None,
            Some(t) => if words(t).len() == 0 {
                r is None
            } else {
                exists|level: Option<Coord>| #[trigger]
                    answers(number, words(t)[0], level) && r == match level {
                        Some(l) => Some((l, occurs(t, "[MUTED]"@))),
                        None => None,
                    }
            },
        },
{
    match told_volume(output) {
        None => None,
        Some(t) => {
            let ws: Vec<Vec<char>> = words_of(&t);
            proof {
                assert(rows(ws@).len() == ws@.len());
            }
            if ws.len() == 0 {
                return None;
            }
            let word: String = whole(&ws[0]);
            proof {
                assert(rows(ws@)[0] == ws@[0]@);
            }
            let level: Option<Coord> = number(word.as_str());
            proof {
                assert(answers(number, words(t@)[0], level));
            }
            match level {
                Some(l) => Some((l, has_text(&t, &chars_of("[MUTED]")))),
                None => None,
            }
        },
    }
}

/// A reading is shown as it was read, whole for a second and a half, then fading
/// for three tenths of a second, then no longer.
pub proof fn law_reading_is_shown_for_its_time(
    osd: &mut Osd,
    level: Coord,
    muted: bool,
    shown: Nanos,
    now: Nanos,
    active: bool,
    r: Share,
)
    requires
        call_ensures(Osd::show, (osd, level, muted, shown), ()),
        call_ensures(Osd::is_active, (final(osd), now), active),
        call_ensures(Osd::alpha, (final(osd), now), r),
        now >= shown,
    ensures
        final(osd).level == level,
        final(osd).muted == muted,
        active <==> now - shown < 1_800_000_000,
        now - shown <= 1_500_000_000 ==> r.part == r.whole,
        1_500_000_000 < now - shown < 1_800_000_000 ==> r.whole == 300_000_000 && r.part == 1_800_000_000
            - (now - shown),
        now - shown >= 1_800_000_000 ==> r.part == 0,
{
}

/// Before anything was read nothing is shown.
pub proof fn law_nothing_is_shown_at_first(osd: Osd, now: Nanos, active: bool)
    requires
        call_ensures(Osd::new, (), osd),
        call_ensures(Osd::is_active, (&osd, now), active),
    ensures
        !active,
{
}

proof fn lemma_first_volume_line(ls: Seq<Seq<char>>, k: int)
    requires
        0 <= k < ls.len(),
        starts_with(trim_start(ls[k]), "Volume:"@),
        forall|j: int| 0 <= j < k ==> !starts_with(trim_start(#[trigger] ls[j]), "Volume:"@),
    ensures
        volume_line(ls) == Some(trim_start(ls[k])),
    decreases k,
{
    if k > 0 {
        assert(!starts_with(trim_start(ls[0]), "Volume:"@));
        assert(ls.skip(1)[k - 1] == ls[k]);
        assert forall|j: int| 0 <= j < k - 1 implies !starts_with(
            trim_start(#[trigger] ls.skip(1)[j]),
            "Volume:"@,
        ) by {
            assert(ls.skip(1)[j] == ls[j + 1]);
        }
        lemma_first_volume_line(ls.skip(1), k - 1);
    }
}

proof fn lemma_no_volume_line(ls: Seq<Seq<char>>)
    requires
        forall|j: int| 0 <= j < ls.len() ==> !starts_with(trim_start(#[trigger] ls[j]), "Volume:"@),
    ensures
        volume_line(ls) is None,
    decreases ls.len(),
{
    if ls.len() > 0 {
        assert(!starts_with(trim_start(ls[0]), "Volume:"@));
        assert forall|j: int| 0 <= j < ls.skip(1).len() implies !starts_with(
            trim_start(#[trigger] ls.skip(1)[j]),
            "Volume:"@,
        ) by {
            assert(ls.skip(1)[j] == ls[j + 1]);
        }
        lemma_no_volume_line(ls.skip(1));
    }
}

/// The level is the first word behind `Volume:` on the first line that says so,
/// and it is muted if that line says so too.
pub proof fn law_first_volume_line_is_read<F: Fn(&str) -> Option<Coord>>(
    output: &str,
    number: F,
    r: Option<(Coord, bool)>,
    k: int,
    text: Seq<char>,
)
    requires
        call_ensures(parse_wpctl_volume::<F>, (output, number), r),
        0 <= k < lines(output@).len(),
        starts_with(trim_start(lines(output@)[k]), "Volume:"@),
        forall|j: int|
            0 <= j < k ==> !starts_with(trim_start(#[trigger] lines(output@)[j]), "Volume:"@),
        text == trim(trim_start(lines(output@)[k]).skip(7)),
    ensures
        words(text).len() == 0 ==> r is None,
        r is Some ==> (r->0).1 == occurs(text, "[MUTED]"@) && answers(
            number,
            words(text)[0],
            Some((r->0).0),
        ),
        words(text).len() > 0 && r is None ==> answers(number, words(text)[0], None),
{
    reveal_strlit("Volume:");
    assert("Volume:"@.len() == 7);
    lemma_first_volume_line(lines(output@), k);
}

/// Where no line tells the volume nothing is read.
pub proof fn law_no_volume_without_its_line<F: Fn(&str) -> Option<Coord>>(
    output: &str,
    number: F,
    r: Option<(Coord, bool)>,
)
    requires
        call_ensures(parse_wpctl_volume::<F>, (output, number), r),
        forall|j: int|
            0 <= j < lines(output@).len() ==> !starts_with(
                trim_start(#[trigger] lines(output@)[j]),
                "Volume:"@,
            ),
    ensures
        r is None,
{
    lemma_no_volume_line(lines(output@));
}

/// A reading is whole for a second and a half, then fades for three tenths, and is
/// then gone.
pub proof fn law_reading_fades_in_its_time(osd: &Osd, now: Nanos, r: Opacity, shown: Nanos)
    requires
        call_ensures(Osd::opacity, (osd, now), r),
        osd.shown_at == Some(shown),
        now >= shown,
    ensures
        r is Full <==> now - shown <= 1_500_000_000,
        r is Gone <==> now - shown >= 1_800_000_000,
        r matches Opacity::Fading(t) ==> shown + 1_500_000_000 + t == now,
{
}

} // verus!
