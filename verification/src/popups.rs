//! Where popups go, and which of them a press dismisses.
use vstd::prelude::*;

verus! {

/// The position that keeps `extent` pixels from `pos` on within `bound`; what
/// does not fit is shown from its near edge.
pub open spec fn clamped(pos: int, extent: int, bound: int) -> int {
    let fits = if pos < bound - extent {
        pos
    } else {
        bound - extent
    };
    if fits > 0 {
        fits
    } else {
        0
    }
}

fn clamp(pos: i32, extent: i32, bound: i32) -> (r: i32)
    requires
        i32::MIN <= bound - extent <= i32::MAX,
    ensures
        r == clamped(pos as int, extent as int, bound as int),
{
    let far: i32 = bound - extent;
    let fits: i32 = if pos < far {
        pos
    } else {
        far
    };
    if fits > 0 {
        fits
    } else {
        0
    }
}

/// Clamp a popup's origin so that it stays on the output. A popup that is larger
/// than the output is shown from its top left.
pub fn clamp_origin(origin: (i32, i32), size: (i32, i32), output: (i32, i32)) -> (r: (i32, i32))
    requires
        i32::MIN <= output.0 - size.0 <= i32::MAX,
        i32::MIN <= output.1 - size.1 <= i32::MAX,
    ensures
        r.0 == clamped(origin.0 as int, size.0 as int, output.0 as int),
        r.1 == clamped(origin.1 as int, size.1 as int, output.1 as int),
{
    (clamp(origin.0, size.0, output.0), clamp(origin.1, size.1, output.1))
}

/// A popup that fits on the output lies on it once it is clamped, and one that
/// lay on it already is not moved.
pub proof fn law_clamped_popup_is_on_screen(pos: int, extent: int, bound: int)
    requires
        0 <= extent <= bound,
    ensures
        0 <= clamped(pos, extent, bound) && clamped(pos, extent, bound) + extent <= bound,
        0 <= pos && pos + extent <= bound ==> clamped(pos, extent, bound) == pos,
{
}

/// Clamping twice is clamping once.
pub proof fn law_clamp_settles(pos: int, extent: int, bound: int)
    ensures
        clamped(clamped(pos, extent, bound), extent, bound) == clamped(pos, extent, bound),
{
}

/// The popups to dismiss, deepest first: all of a chain when the press missed
/// it, else those below the popup that was hit.
pub open spec fn dismissed(chain_len: int, hit: Option<usize>) -> Seq<usize> {
    let first = match hit {
        Some(i) => i + 1,
        None => 0,
    };
    Seq::new(
        if first < chain_len {
            (chain_len - first) as nat
        } else {
            0
        },
        |k: int| (chain_len - 1 - k) as usize,
    )
}

/// The popups of a chain, root first, that a press dismisses, deepest first.
/// `hit` is the popup that the press landed on; that one and its ancestors stay.
pub fn popups_to_dismiss(chain_len: usize, hit: Option<usize>) -> (r: Vec<usize>)
    requires
        hit is Some ==> hit->0 < usize::MAX,
    ensures
        r@ == dismissed(chain_len as int, hit),
{
    let first: usize = match hit {
        Some(i) => i + 1,
        None => 0,
    };
    let mut out: Vec<usize> = Vec::new();
    let mut i: usize = chain_len;
    while i > first
        invariant
            i <= chain_len,
            first <= chain_len ==> first <= i,
            first > chain_len ==> i == chain_len,
            out@.len() == chain_len - i,
            forall|k: int| 0 <= k < out@.len() ==> out@[k] == chain_len - 1 - k,
        decreases i,
    {
        i = i - 1;
        out.push(i);
    }
    proof {
        assert(out@ =~= dismissed(chain_len as int, hit));
    }
    out
}

/// A press on a popup never dismisses that popup, nor one above it; a press
/// beside the chain dismisses all of it.
pub proof fn law_press_keeps_what_it_hit(chain_len: usize, hit: Option<usize>, p: usize)
    requires
        hit is Some ==> hit->0 < chain_len,
        p < chain_len,
    ensures
        dismissed(chain_len as int, hit).contains(p) <==> (hit is None || p > hit->0),
{
    let d = dismissed(chain_len as int, hit);
    if hit is None || p > hit->0 {
        assert(d[chain_len - 1 - p] == p);
    }
}

/// A popup that fits lies on the output in both directions, as close to where it
/// was asked to be as that allows, and one that does not fit starts at the edge.
pub proof fn law_popup_is_moved_no_further_than_needed(
    origin: (i32, i32),
    size: (i32, i32),
    output: (i32, i32),
    r: (i32, i32),
    x: int,
    y: int,
)
    requires
        call_ensures(clamp_origin, (origin, size, output), r),
        0 <= x && x + size.0 <= output.0,
        0 <= y && y + size.1 <= output.1,
    ensures
        0 <= r.0 && r.0 + size.0 <= output.0,
        0 <= r.1 && r.1 + size.1 <= output.1,
        origin.0 <= r.0 ==> r.0 - origin.0 <= (if x >= origin.0 {
            x - origin.0
        } else {
            origin.0 - x
        }),
        origin.0 >= r.0 ==> origin.0 - r.0 <= (if x >= origin.0 {
            x - origin.0
        } else {
            origin.0 - x
        }),
        origin.1 <= r.1 ==> r.1 - origin.1 <= (if y >= origin.1 {
            y - origin.1
        } else {
            origin.1 - y
        }),
        origin.1 >= r.1 ==> origin.1 - r.1 <= (if y >= origin.1 {
            y - origin.1
        } else {
            origin.1 - y
        }),
{
}

/// A popup larger than the output is shown from its near edge.
pub proof fn law_large_popup_shows_its_near_edge(
    origin: (i32, i32),
    size: (i32, i32),
    output: (i32, i32),
    r: (i32, i32),
)
    requires
        call_ensures(clamp_origin, (origin, size, output), r),
    ensures
        size.0 >= output.0 ==> r.0 == 0,
        size.1 >= output.1 ==> r.1 == 0,
{
}

/// Popups go deepest first, each once.
pub proof fn law_deepest_popup_goes_first(chain_len: usize, hit: Option<usize>, r: Vec<usize>, a: int, b: int)
    requires
        call_ensures(popups_to_dismiss, (chain_len, hit), r),
        0 <= a < b < r@.len(),
    ensures
        r@[a] > r@[b],
{
}

/// A press keeps the popup that it hit and those above it, and dismisses the
/// rest.
pub proof fn law_press_dismisses_the_rest(chain_len: usize, hit: Option<usize>, r: Vec<usize>, p: usize)
    requires
        call_ensures(popups_to_dismiss, (chain_len, hit), r),
        p < chain_len,
        hit is Some ==> hit->0 < chain_len,
    ensures
        r@.contains(p) <==> (hit is None || p > hit->0),
{
    law_press_keeps_what_it_hit(chain_len, hit, p);
}

} // verus!
