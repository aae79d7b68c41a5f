//! Other displays that show what the panel shows.
use vstd::prelude::*;

verus! {

/// A place and a size on a display.
#[derive(Clone, Copy, Debug, PartialEq, Eq, Structural)]
pub struct Area {
    pub x: i32,
    pub y: i32,
    pub w: i32,
    pub h: i32,
}

// Pictures are scaled in double precision. A double-precision number keeps 53
// binary digits: what a step computes is rounded to so many, to the nearest such
// number, and to the even one of two that are equally near. The least whole number
// of 53 digits is 0x10_0000_0000_0000, and 0x20_0000_0000_0000 is the first beyond.

/// `p / q` as the nearest whole number, the even one halfway between two.
pub open spec fn nearest(p: int, q: int) -> int {
    let floor = p / q;
    let over = 2 * (p % q);
    if over < q || (over == q && floor % 2 == 0) {
        floor
    } else {
        floor + 1
    }
}

/// `p / q` in double precision, as a fraction whose lower part is a power of two.
/// The quotient is less than 0x20_0000_0000_0000.
pub open spec fn quotient(p: int, q: int) -> (int, int)
    decreases
        if p < q * 0x10_0000_0000_0000 {
            q * 0x10_0000_0000_0000 - p
        } else {
            0
        },
{
    if p <= 0 || q <= 0 || p >= q * 0x10_0000_0000_0000 {
        (nearest(p, q), 1)
    } else {
        let (n, d) = quotient(2 * p, q);
        (n, 2 * d)
    }
}

/// The whole number `n` in double precision, of which as many of the last digits
/// are given up as it takes, and at least those that `unit` counts in.
pub open spec fn kept(n: int, unit: int) -> int
    decreases
        if n >= 0x20_0000_0000_0000 * unit {
            n - 0x20_0000_0000_0000 * unit + 1
        } else {
            0
        },
{
    if unit > 0 && n >= 0x20_0000_0000_0000 * unit {
        kept(n, 2 * unit)
    } else {
        nearest(n, unit) * unit
    }
}

/// `n / d` as the nearest whole number, the greater one halfway between two.
pub open spec fn rounded(n: int, d: int) -> int {
    (2 * n + d) / (2 * d)
}

/// The length `s`, scaled by the number `scale`, in double precision and then to
/// the nearest pixel.
pub open spec fn scaled(s: int, scale: (int, int)) -> int {
    rounded(kept(s * scale.0, 1), scale.1)
}

/// How much larger a picture of `sw` by `sh` becomes when it is made as large as
/// fits in `dw` by `dh`: the lesser of the two quotients.
pub open spec fn scale_of(sw: int, sh: int, dw: int, dh: int) -> (int, int) {
    if dw * sh <= dh * sw {
        quotient(dw, sw)
    } else {
        quotient(dh, sh)
    }
}

/// Where a picture of `sw` by `sh` goes on a display of `dw` by `dh`: as large as
/// fits with its shape kept, in the middle. Nowhere when either has no size.
pub open spec fn fit_of(sw: int, sh: int, dw: int, dh: int) -> Area {
    if sw <= 0 || sh <= 0 || dw <= 0 || dh <= 0 {
        Area { x: 0, y: 0, w: 0, h: 0 }
    } else {
        let scale = scale_of(sw, sh, dw, dh);
        let w = scaled(sw, scale);
        let h = scaled(sh, scale);
        Area { x: ((dw - w) / 2) as i32, y: ((dh - h) / 2) as i32, w: w as i32, h: h as i32 }
    }
}

proof fn lemma_nearest(p: int, q: int)
    requires
        0 <= p,
        0 < q,
    ensures
        0 <= nearest(p, q),
        -q <= 2 * (nearest(p, q) * q - p) <= q,
{
    vstd::arithmetic::div_mod::lemma_fundamental_div_mod(p, q);
    vstd::arithmetic::div_mod::lemma_mod_bound(p, q);
    vstd::arithmetic::div_mod::lemma_div_pos_is_pos(p, q);
    let f = p / q;
    assert((f + 1) * q == q * f + q) by (nonlinear_arith);
    assert(f * q == q * f) by (nonlinear_arith);
}

proof fn lemma_quotient(p: int, q: int)
    requires
        0 < p < q * 0x20_0000_0000_0000,
        0 < q,
    ensures
        ({
            let (n, d) = quotient(p, q);
            &&& 0 <= n
            &&& 1 <= d
            &&& q * 0x10_0000_0000_0000 <= p * d < q * 0x20_0000_0000_0000
            &&& -q <= 2 * (n * q - p * d) <= q
        }),
    decreases
        if p < q * 0x10_0000_0000_0000 {
            q * 0x10_0000_0000_0000 - p
        } else {
            0
        },
{
    if p >= q * 0x10_0000_0000_0000 {
        lemma_nearest(p, q);
    } else {
        lemma_quotient(2 * p, q);
        let (n, d) = quotient(2 * p, q);
        assert((2 * p) * d == p * (2 * d)) by (nonlinear_arith);
    }
}

proof fn lemma_kept(n: int, unit: int)
    requires
        0 <= n,
        unit == 1 || (1 < unit && 0x10_0000_0000_0000 * unit <= n),
    ensures
        0 <= kept(n, unit),
        -n <= 0x20_0000_0000_0000 * (kept(n, unit) - n) <= n,
    decreases
        if n >= 0x20_0000_0000_0000 * unit {
            n - 0x20_0000_0000_0000 * unit + 1
        } else {
            0
        },
{
    if n >= 0x20_0000_0000_0000 * unit {
        lemma_kept(n, 2 * unit);
    } else {
        lemma_nearest(n, unit);
        let k = nearest(n, unit) * unit;
        assert(k >= 0) by (nonlinear_arith)
            requires
                k == nearest(n, unit) * unit,
                nearest(n, unit) >= 0,
                unit >= 1,
        ;
    }
}

/// A product with a bounded factor is bounded.
proof fn lemma_at_most(a: int, d: int)
    requires
        0 <= a <= i32::MAX,
        0 <= d,
    ensures
        0 <= a * d <= 0x7fff_ffff * d,
{
    assert(0 <= a * d <= 0x7fff_ffff * d) by (nonlinear_arith)
        requires
            0 <= a <= 0x7fff_ffff,
            0 <= d,
    ;
}

/// A length that is scaled by how much larger the picture becomes along it fills
/// the display.
proof fn lemma_fills(p: int, q: int)
    requires
        0 < p <= i32::MAX,
        0 < q <= i32::MAX,
    ensures
        scaled(q, quotient(p, q)) == p,
{
    lemma_quotient(p, q);
    let (n, d) = quotient(p, q);
    let prod = q * n;
    assert(n * q == prod) by (nonlinear_arith)
        requires
            prod == q * n,
    ;
    assert(prod >= 0) by (nonlinear_arith)
        requires
            prod == q * n,
            q > 0,
            n >= 0,
    ;
    lemma_kept(prod, 1);
    let k = kept(prod, 1);
    lemma_at_most(p, d);
    assert(-d < 2 * (k - p * d) < d);
    assert((2 * k + d) / (2 * d) == p) by {
        let r = 2 * k + d - p * (2 * d);
        assert(p * (2 * d) == 2 * (p * d)) by (nonlinear_arith);
        vstd::arithmetic::div_mod::lemma_fundamental_div_mod_converse(2 * k + d, 2 * d, p, r);
    }
}

/// A length that fits by its shape fits when it is scaled.
proof fn lemma_fits(s: int, t: int, p: int, q: int)
    requires
        0 < p <= i32::MAX,
        0 < q <= i32::MAX,
        0 < s <= i32::MAX,
        0 < t <= i32::MAX,
        s * p <= t * q,
    ensures
        0 <= scaled(s, quotient(p, q)) <= t,
{
    lemma_quotient(p, q);
    let (n, d) = quotient(p, q);
    let prod = s * n;
    let b = t * d;
    assert(prod >= 0) by (nonlinear_arith)
        requires
            prod == s * n,
            s > 0,
            n >= 0,
    ;
    assert(2 * prod <= 2 * b + s) by (nonlinear_arith)
        requires
            prod == s * n,
            b == t * d,
            2 * (n * q - p * d) <= q,
            s * p <= t * q,
            s > 0,
            q > 0,
            d >= 1,
    {
        assert(s * (2 * (n * q - p * d)) <= s * q);
        assert(s * (2 * (n * q - p * d)) == 2 * prod * q - 2 * (s * p) * d);
        assert((s * p) * d <= (t * q) * d);
        assert((t * q) * d == b * q);
        assert(2 * prod * q <= (2 * b + s) * q);
    }
    assert(s * 0x10_0000_0000_0000 <= b) by (nonlinear_arith)
        requires
            b == t * d,
            q * 0x10_0000_0000_0000 <= p * d,
            s * p <= t * q,
            s > 0,
            t > 0,
            p > 0,
            d >= 1,
    {
        assert((s * p) * 0x10_0000_0000_0000 <= (t * q) * 0x10_0000_0000_0000);
        assert((t * q) * 0x10_0000_0000_0000 == t * (q * 0x10_0000_0000_0000));
        assert(t * (q * 0x10_0000_0000_0000) <= t * (p * d));
        assert((s * 0x10_0000_0000_0000) * p <= b * p);
    }
    lemma_kept(prod, 1);
    let k = kept(prod, 1);
    lemma_at_most(t, d);
    assert(2 * k < 2 * b + d);
    assert((2 * k + d) / (2 * d) <= t) by (nonlinear_arith)
        requires
            2 * k < 2 * b + d,
            b == t * d,
            d >= 1,
    ;
    assert((2 * k + d) / (2 * d) >= 0) by (nonlinear_arith)
        requires
            k >= 0,
            d >= 1,
    ;
}

fn nearest_to(p: u128, q: u128) -> (r: u128)
    requires
        0 < q <= 0x1000_0000_0000_0000_0000_0000,
        p <= 0x1000_0000_0000_0000_0000_0000,
    ensures
        r == nearest(p as int, q as int),
{
    let floor: u128 = p / q;
    let over: u128 = 2 * (p % q);
    proof {
        assert(p / q <= p) by (nonlinear_arith)
            requires
                q >= 1,
        ;
    }
    if over < q || (over == q && floor % 2 == 0) {
        floor
    } else {
        floor + 1
    }
}

/// `p / q` in double precision.
fn divide(p: u128, q: u128) -> (r: (u128, u128))
    requires
        0 < p <= i32::MAX,
        0 < q <= i32::MAX,
    ensures
        (r.0 as int, r.1 as int) == quotient(p as int, q as int),
        r.0 <= 0x20_0000_0000_0000,
        1 <= r.1 <= 0x10_0000_0000_0000_0000_0000,
{
    let mut num: u128 = p;
    let mut d: u128 = 1;
    while num < q * 0x10_0000_0000_0000
        invariant
            0 < p <= i32::MAX,
            0 < q <= i32::MAX,
            1 <= d,
            num == p * d,
            0 < num < q * 0x20_0000_0000_0000,
            quotient(p as int, q as int) == (
                quotient(num as int, q as int).0,
                quotient(num as int, q as int).1 * d,
            ),
        decreases
            if num < q * 0x10_0000_0000_0000 {
                q * 0x10_0000_0000_0000 - num
            } else {
                0
            },
    {
        proof {
            let later = quotient(2 * num, q as int);
            assert(quotient(num as int, q as int) == (later.0, 2 * later.1));
            assert((2 * later.1) * d == later.1 * (2 * d)) by (nonlinear_arith);
            assert(p * (2 * d) == 2 * (p * d)) by (nonlinear_arith);
            assert(d <= p * d) by (nonlinear_arith)
                requires
                    p >= 1,
            ;
        }
        num = 2 * num;
        d = 2 * d;
    }
    proof {
        lemma_quotient(p as int, q as int);
        assert(d <= p * d) by (nonlinear_arith)
            requires
                p >= 1,
        ;
        let n = nearest(num as int, q as int);
        lemma_nearest(num as int, q as int);
        assert(n <= 0x20_0000_0000_0000) by (nonlinear_arith)
            requires
                2 * (n * q - num) <= q,
                num < q * 0x20_0000_0000_0000,
                q >= 1,
        ;
    }
    (nearest_to(num, q), d)
}

/// A whole number in double precision.
fn keep(n: u128) -> (r: u128)
    requires
        n <= 0x40_0000_0000_0000_0000_0000,
    ensures
        r == kept(n as int, 1),
{
    let mut unit: u128 = 1;
    while n >= 0x20_0000_0000_0000 * unit
        invariant
            n <= 0x40_0000_0000_0000_0000_0000,
            unit == 1 || (1 < unit && 0x10_0000_0000_0000 * unit <= n),
            kept(n as int, 1) == kept(n as int, unit as int),
        decreases
            if n >= 0x20_0000_0000_0000 * unit {
                n - 0x20_0000_0000_0000 * unit + 1
            } else {
                0
            },
    {
        unit = 2 * unit;
    }
    proof {
        lemma_kept(n as int, unit as int);
    }
    nearest_to(n, unit) * unit
}

fn scale_length(s: u128, scale: (u128, u128)) -> (r: u128)
    requires
        0 < s <= i32::MAX,
        scale.0 <= 0x20_0000_0000_0000,
        1 <= scale.1 <= 0x10_0000_0000_0000_0000_0000,
    ensures
        r == scaled(s as int, (scale.0 as int, scale.1 as int)),
{
    proof {
        assert(0 <= s * scale.0 <= 0x7fff_ffff * 0x20_0000_0000_0000) by (nonlinear_arith)
            requires
                0 < s <= 0x7fff_ffff,
                0 <= scale.0 <= 0x20_0000_0000_0000,
        ;
        lemma_kept(s * scale.0, 1);
    }
    let k: u128 = keep(s * scale.0);
    (2 * k + scale.1) / (2 * scale.1)
}

/// Where a picture goes on a display.
pub fn fit(sw: i32, sh: i32, dw: i32, dh: i32) -> (r: Area)
    ensures
        r == fit_of(sw as int, sh as int, dw as int, dh as int),
{
    if sw <= 0 || sh <= 0 || dw <= 0 || dh <= 0 {
        return Area { x: 0, y: 0, w: 0, h: 0 };
    }
    proof {
        lemma_product(dw as int, sh as int);
        lemma_product(dh as int, sw as int);
        lemma_sizes(sw as int, sh as int, dw as int, dh as int);
    }
    let wide: bool = dw as i128 * sh as i128 <= dh as i128 * sw as i128;
    let scale: (u128, u128) = if wide {
        divide(dw as u128, sw as u128)
    } else {
        divide(dh as u128, sh as u128)
    };
    let w: i32 = scale_length(sw as u128, scale) as i32;
    let h: i32 = scale_length(sh as u128, scale) as i32;
    Area { x: (dw - w) / 2, y: (dh - h) / 2, w, h }
}

proof fn lemma_product(a: int, b: int)
    requires
        0 < a <= i32::MAX,
        0 < b <= i32::MAX,
    ensures
        0 < a * b <= 0x4000_0000_0000_0000,
{
    assert(0 < a * b <= 0x4000_0000_0000_0000) by (nonlinear_arith)
        requires
            0 < a <= 0x7fff_ffff,
            0 < b <= 0x7fff_ffff,
    ;
}

proof fn lemma_sizes(sw: int, sh: int, dw: int, dh: int)
    requires
        0 < sw <= i32::MAX,
        0 < sh <= i32::MAX,
        0 < dw <= i32::MAX,
        0 < dh <= i32::MAX,
    ensures
        ({
            let scale = scale_of(sw, sh, dw, dh);
            &&& 0 <= scaled(sw, scale) <= dw
            &&& 0 <= scaled(sh, scale) <= dh
            &&& scaled(sw, scale) == dw || scaled(sh, scale) == dh
        }),
{
    if dw * sh <= dh * sw {
        lemma_fills(dw, sw);
        assert(sh * dw == dw * sh) by (nonlinear_arith);
        lemma_fits(sh, dh, dw, sw);
    } else {
        lemma_fills(dh, sh);
        assert(sw * dh == dh * sw) by (nonlinear_arith);
        lemma_fits(sw, dw, dh, sh);
    }
}

/// What is mirrored stays on the display, touches two of its edges, and is as
/// far from the one as from the other on each axis, but for half a pixel.
pub proof fn law_mirror_fills_one_axis(sw: int, sh: int, dw: int, dh: int)
    requires
        0 < sw <= i32::MAX,
        0 < sh <= i32::MAX,
        0 < dw <= i32::MAX,
        0 < dh <= i32::MAX,
    ensures
        ({
            let a = fit_of(sw, sh, dw, dh);
            &&& 0 <= a.x && a.x + a.w <= dw
            &&& 0 <= a.y && a.y + a.h <= dh
            &&& a.w == dw || a.h == dh
            &&& 0 <= dw - (2 * a.x + a.w) <= 1
            &&& 0 <= dh - (2 * a.y + a.h) <= 1
        }),
{
    lemma_sizes(sw, sh, dw, dh);
}

// ---------------------------------------------------------------------------
// Connectors
// ---------------------------------------------------------------------------

/// A connector as the device reports it.
#[derive(Debug)]
pub struct Connector {
    pub handle: u32,
    pub connected: bool,
    /// Of each of its modes, whether the display prefers it.
    pub preferred: Vec<bool>,
    /// The pipes that can drive it, in the order of its encoders.
    pub crtcs: Vec<u32>,
}

/// A display that can be driven: by which pipe, and in which of its modes.
#[derive(Clone, Copy, Debug, PartialEq, Eq, Structural)]
pub struct Candidate {
    pub connector: u32,
    pub crtc: u32,
    pub mode: usize,
}

/// The first mode that the display prefers, or the first one.
pub open spec fn mode_of(preferred: Seq<bool>) -> int {
    if preferred.contains(true) {
        preferred.index_of_first(true)->0
    } else {
        0
    }
}

/// The first pipe that is not in use.
pub open spec fn free_crtc(crtcs: Seq<u32>, used: Seq<u32>) -> Option<u32>
    decreases crtcs.len(),
{
    if crtcs.len() == 0 {
        None
    } else if !used.contains(crtcs[0]) {
        Some(crtcs[0])
    } else {
        free_crtc(crtcs.skip(1), used)
    }
}

/// Whether a connector is one that a display could be driven at.
pub open spec fn is_usable(c: Connector, skip: Seq<u32>) -> bool {
    !skip.contains(c.handle) && c.connected && c.preferred@.len() > 0
}

/// The displays that can be driven, one pipe each.
pub open spec fn scanned(conns: Seq<Connector>, used: Seq<u32>, skip: Seq<u32>) -> Seq<Candidate>
    decreases conns.len(),
{
    if conns.len() == 0 {
        Seq::empty()
    } else {
        let c = conns[0];
        let pipe = if is_usable(c, skip) {
            free_crtc(c.crtcs@, used)
        } else {
            None
        };
        match pipe {
            Some(crtc) => seq![
                Candidate { connector: c.handle, crtc, mode: mode_of(c.preferred@) as usize },
            ] + scanned(conns.skip(1), used.push(crtc), skip),
            None => scanned(conns.skip(1), used, skip),
        }
    }
}

fn holds(list: &Vec<u32>, v: u32) -> (r: bool)
    ensures
        r == list@.contains(v),
{
    let mut i: usize = 0;
    while i < list.len()
        invariant
            i <= list.len(),
            forall|k: int| 0 <= k < i ==> list@[k] != v,
        decreases list.len() - i,
    {
        if list[i] == v {
            return true;
        }
        i = i + 1;
    }
    false
}

fn pick_mode(preferred: &Vec<bool>) -> (r: usize)
    ensures
        r == mode_of(preferred@),
{
    let mut i: usize = 0;
    while i < preferred.len()
        invariant
            i <= preferred.len(),
            forall|k: int| 0 <= k < i ==> !preferred@[k],
        decreases preferred.len() - i,
    {
        if preferred[i] {
            proof {
                assert(preferred@[i as int] == true);
                preferred@.index_of_first_ensures(true);
            }
            return i;
        }
        i = i + 1;
    }
    proof {
        if preferred@.contains(true) {
            let k = choose|k: int| 0 <= k < preferred@.len() && preferred@[k] == true;
            assert(!preferred@[k]);
        }
    }
    0
}

fn pick_crtc(crtcs: &Vec<u32>, used: &Vec<u32>) -> (r: Option<u32>)
    ensures
        r == free_crtc(crtcs@, used@),
{
    let mut i: usize = 0;
    proof {
        assert(crtcs@.skip(0) =~= crtcs@);
    }
    while i < crtcs.len()
        invariant
            i <= crtcs.len(),
            free_crtc(crtcs@.skip(i as int), used@) == free_crtc(crtcs@, used@),
        decreases crtcs.len() - i,
    {
        proof {
            assert(crtcs@.skip(i as int)[0] == crtcs@[i as int]);
            assert(crtcs@.skip(i as int).skip(1) =~= crtcs@.skip(i + 1));
        }
        if !holds(used, crtcs[i]) {
            return Some(crtcs[i]);
        }
        i = i + 1;
    }
    None
}

/// Pair each connected display with a free pipe and the mode it prefers. `taken`
/// are the pipes in use, and `skip` the connectors that are driven already. A
/// display for which no pipe is left is passed over.
pub fn scan(conns: &Vec<Connector>, taken: &Vec<u32>, skip: &Vec<u32>) -> (out: Vec<Candidate>)
    ensures
        out@ == scanned(conns@, taken@, skip@),
{
    let mut used: Vec<u32> = Vec::new();
    let mut t: usize = 0;
    while t < taken.len()
        invariant
            t <= taken.len(),
            used@ =~= taken@.take(t as int),
        decreases taken.len() - t,
    {
        used.push(taken[t]);
        t = t + 1;
    }
    proof {
        assert(taken@.take(t as int) =~= taken@);
    }
    let mut out: Vec<Candidate> = Vec::new();
    let mut i: usize = 0;
    proof {
        assert(conns@.skip(0) =~= conns@);
    }
    while i < conns.len()
        invariant
            i <= conns.len(),
            out@ + scanned(conns@.skip(i as int), used@, skip@) == scanned(conns@, taken@, skip@),
        decreases conns.len() - i,
    {
        let ghost rest = conns@.skip(i as int);
        proof {
            assert(rest[0] == conns@[i as int]);
            assert(rest.skip(1) =~= conns@.skip(i + 1));
        }
        let c: &Connector = &conns[i];
        if !holds(skip, c.handle) && c.connected && c.preferred.len() > 0 {
            match pick_crtc(&c.crtcs, &used) {
                Some(crtc) => {
                    let cand: Candidate = Candidate {
                        connector: c.handle,
                        crtc,
                        mode: pick_mode(&c.preferred),
                    };
                    let ghost before = out@;
                    let ghost used_before = used@;
                    used.push(crtc);
                    out.push(cand);
                    proof {
                        assert(before + (seq![cand] + scanned(conns@.skip(i + 1), used@, skip@))
                            =~= out@ + scanned(conns@.skip(i + 1), used@, skip@));
                    }
                },
                None => {},
            }
        }
        i = i + 1;
    }
    proof {
        assert(out@ + scanned(conns@.skip(i as int), used@, skip@) =~= out@);
    }
    out
}

/// No pipe drives two displays, none that was in use is given out, and no
/// display that is driven already is reported.
pub proof fn law_no_pipe_is_shared(conns: Seq<Connector>, used: Seq<u32>, skip: Seq<u32>)
    ensures
        forall|i: int|
            0 <= i < scanned(conns, used, skip).len() ==> !used.contains(
                (#[trigger] scanned(conns, used, skip)[i]).crtc,
            ) && !skip.contains(scanned(conns, used, skip)[i].connector),
        forall|i: int, j: int|
            0 <= i < j < scanned(conns, used, skip).len() ==> (#[trigger] scanned(
                conns,
                used,
                skip,
            )[i]).crtc != (#[trigger] scanned(conns, used, skip)[j]).crtc,
    decreases conns.len(),
{
    if conns.len() > 0 {
        let c = conns[0];
        let all = scanned(conns, used, skip);
        let pipe = if is_usable(c, skip) {
            free_crtc(c.crtcs@, used)
        } else {
            None
        };
        match pipe {
            Some(crtc) => {
                let more = used.push(crtc);
                let rest = scanned(conns.skip(1), more, skip);
                lemma_free_crtc(c.crtcs@, used);
                law_no_pipe_is_shared(conns.skip(1), more, skip);
                assert forall|i: int| 0 <= i < all.len() implies !used.contains(
                    (#[trigger] all[i]).crtc,
                ) && !skip.contains(all[i].connector) by {
                    if i > 0 {
                        assert(all[i] == rest[i - 1]);
                        if used.contains(rest[i - 1].crtc) {
                            let k = choose|k: int| 0 <= k < used.len() && used[k] == rest[i - 1].crtc;
                            assert(more[k] == rest[i - 1].crtc);
                        }
                    }
                }
                assert forall|i: int, j: int| 0 <= i < j < all.len() implies (#[trigger] all[i]).crtc
                    != (#[trigger] all[j]).crtc by {
                    assert(all[j] == rest[j - 1]);
                    if i == 0 {
                        assert(more[used.len() as int] == crtc);
                    } else {
                        assert(all[i] == rest[i - 1]);
                    }
                }
            },
            None => {
                let rest = scanned(conns.skip(1), used, skip);
                law_no_pipe_is_shared(conns.skip(1), used, skip);
                assert(all == rest);
            },
        }
    } else {
        assert(scanned(conns, used, skip).len() == 0);
    }
}

proof fn lemma_free_crtc(crtcs: Seq<u32>, used: Seq<u32>)
    ensures
        free_crtc(crtcs, used) is Some ==> !used.contains(free_crtc(crtcs, used)->0),
    decreases crtcs.len(),
{
    if crtcs.len() > 0 && used.contains(crtcs[0]) {
        lemma_free_crtc(crtcs.skip(1), used);
    }
}

/// A display that shows what the panel shows.
#[derive(Clone, Copy, Debug, PartialEq, Eq, Structural)]
pub struct Mirror {
    pub connector: u32,
    pub crtc: u32,
    /// It has not shown the last frame yet, and is passed over for this one: a
    /// slower display must not slow the panel down.
    pub pending_flip: bool,
}

/// The mirrors whose display is still there, in order.
pub open spec fn still_there(mirrors: Seq<Mirror>, connected: Seq<u32>) -> Seq<Mirror>
    decreases mirrors.len(),
{
    if mirrors.len() == 0 {
        Seq::empty()
    } else {
        let rest = still_there(mirrors.drop_last(), connected);
        if connected.contains(mirrors.last().connector) {
            rest.push(mirrors.last())
        } else {
            rest
        }
    }
}

pub open spec fn pipes(mirrors: Seq<Mirror>) -> Seq<u32> {
    mirrors.map_values(|m: Mirror| m.crtc)
}

pub open spec fn plugs(mirrors: Seq<Mirror>) -> Seq<u32> {
    mirrors.map_values(|m: Mirror| m.connector)
}

/// Something was plugged in or out. The mirrors whose display went away are
/// dropped; the result is the displays to start one for. The panel's own pipe
/// and connector are never given out.
pub fn refresh(
    mirrors: &mut Vec<Mirror>,
    connected: &Vec<u32>,
    conns: &Vec<Connector>,
    primary_conn: u32,
    primary_crtc: u32,
) -> (out: Vec<Candidate>)
    ensures
        final(mirrors)@ == still_there(old(mirrors)@, connected@),
        out@ == scanned(
            conns@,
            seq![primary_crtc] + pipes(final(mirrors)@),
            seq![primary_conn] + plugs(final(mirrors)@),
        ),
{
    let ghost was = mirrors@;
    let mut left: Vec<Mirror> = Vec::new();
    let mut taken: Vec<u32> = Vec::new();
    let mut skip: Vec<u32> = Vec::new();
    taken.push(primary_crtc);
    skip.push(primary_conn);
    let mut i: usize = 0;
    while i < mirrors.len()
        invariant
            i <= mirrors.len(),
            mirrors@ == was,
            left@ == still_there(was.take(i as int), connected@),
            taken@ =~= seq![primary_crtc] + pipes(left@),
            skip@ =~= seq![primary_conn] + plugs(left@),
        decreases mirrors.len() - i,
    {
        proof {
            assert(was.take(i + 1).drop_last() =~= was.take(i as int));
            assert(was.take(i + 1).last() == was[i as int]);
        }
        let m: Mirror = mirrors[i];
        if holds(connected, m.connector) {
            left.push(m);
            taken.push(m.crtc);
            skip.push(m.connector);
        }
        i = i + 1;
    }
    proof {
        assert(was.take(i as int) =~= was);
    }
    *mirrors = left;
    scan(conns, &taken, &skip)
}

/// A length that is scaled keeps its share of the other one, to within a pixel.
proof fn lemma_keeps_shape(s: int, t: int, p: int, q: int)
    requires
        0 < p <= i32::MAX,
        0 < q <= i32::MAX,
        0 < s <= i32::MAX,
        0 < t <= i32::MAX,
        s * p <= t * q,
    ensures
        -q <= scaled(s, quotient(p, q)) * q - s * p <= q,
{
    lemma_quotient(p, q);
    let (n, d) = quotient(p, q);
    let prod = s * n;
    assert(prod >= 0) by (nonlinear_arith)
        requires
            prod == s * n,
            s > 0,
            n >= 0,
    ;
    assert(s * 0x10_0000_0000_0000 <= t * d) by (nonlinear_arith)
        requires
            q * 0x10_0000_0000_0000 <= p * d,
            s * p <= t * q,
            s > 0,
            t > 0,
            p > 0,
            d >= 1,
    {
        assert((s * p) * 0x10_0000_0000_0000 <= (t * q) * 0x10_0000_0000_0000);
        assert((t * q) * 0x10_0000_0000_0000 == t * (q * 0x10_0000_0000_0000));
        assert(t * (q * 0x10_0000_0000_0000) <= t * (p * d));
        assert((s * 0x10_0000_0000_0000) * p <= (t * d) * p);
    }
    lemma_at_most(t, d);
    assert(8 * s <= d);
    assert(n <= 0x20_0000_0000_0000) by (nonlinear_arith)
        requires
            2 * (n * q - p * d) <= q,
            p * d < q * 0x20_0000_0000_0000,
            q >= 1,
    ;
    lemma_kept(prod, 1);
    let k = kept(prod, 1);
    assert(prod <= s * 0x20_0000_0000_0000) by (nonlinear_arith)
        requires
            prod == s * n,
            n <= 0x20_0000_0000_0000,
            s > 0,
    ;
    assert(-s <= k - prod <= s);
    let h = (2 * k + d) / (2 * d);
    vstd::arithmetic::div_mod::lemma_fundamental_div_mod(2 * k + d, 2 * d);
    vstd::arithmetic::div_mod::lemma_mod_bound(2 * k + d, 2 * d);
    let hd = h * d;
    assert((2 * d) * h == 2 * hd) by (nonlinear_arith)
        requires
            hd == h * d,
    ;
    assert(-d <= 2 * hd - 2 * k <= d);
    let nq = n * q;
    let pd = p * d;
    let e = h * q - s * p;
    assert(2 * (e * d) <= 2 * (q * d) && -(2 * (q * d)) <= 2 * (e * d)) by (nonlinear_arith)
        requires
            e == h * q - s * p,
            hd == h * d,
            prod == s * n,
            -d <= 2 * hd - 2 * k <= d,
            -s <= k - prod <= s,
            -q <= 2 * (n * q - p * d) <= q,
            8 * s <= d,
            s > 0,
            q > 0,
            d >= 1,
    {
        assert(e * d == hd * q - (s * p) * d);
        assert(prod * q == s * (n * q));
        assert((s * p) * d == s * (p * d));
        assert(2 * (hd * q) - 2 * (k * q) == (2 * hd - 2 * k) * q);
        assert(-(d * q) <= (2 * hd - 2 * k) * q <= d * q);
        assert(-(s * q) <= (k - prod) * q <= s * q);
        assert((k - prod) * q == k * q - prod * q);
        assert(s * (2 * (n * q - p * d)) == 2 * (s * (n * q)) - 2 * (s * (p * d)));
        assert(-(s * q) <= s * (2 * (n * q - p * d)) <= s * q);
        assert(8 * (s * q) <= d * q);
    }
    assert(-q <= e <= q) by (nonlinear_arith)
        requires
            2 * (e * d) <= 2 * (q * d),
            -(2 * (q * d)) <= 2 * (e * d),
            d >= 1,
    ;
}

/// A mirrored picture keeps its shape, to within a pixel: its sides are to each
/// other as those of the panel are. It fills the display along one axis and does
/// not leave it along the other, and lies in the middle.
pub proof fn law_mirror_keeps_the_shape(sw: i32, sh: i32, dw: i32, dh: i32, r: Area)
    requires
        call_ensures(fit, (sw, sh, dw, dh), r),
        sw > 0,
        sh > 0,
        dw > 0,
        dh > 0,
    ensures
        r.w == dw || r.h == dh,
        0 <= r.w <= dw && 0 <= r.h <= dh,
        r.w == dw && dw * sh <= dh * sw ==> -sw <= r.h * sw - sh * dw <= sw,
        dw * sh > dh * sw ==> r.h == dh && -sh <= r.w * sh - sw * dh <= sh,
        dw * sh <= dh * sw ==> r.w == dw,
        0 <= dw - (2 * r.x + r.w) <= 1,
        0 <= dh - (2 * r.y + r.h) <= 1,
{
    law_mirror_fills_one_axis(sw as int, sh as int, dw as int, dh as int);
    lemma_sizes(sw as int, sh as int, dw as int, dh as int);
    if dw * sh <= dh * sw {
        lemma_fills(dw as int, sw as int);
        assert(sh * dw == dw * sh) by (nonlinear_arith);
        lemma_keeps_shape(sh as int, dh as int, dw as int, sw as int);
    } else {
        lemma_fills(dh as int, sh as int);
        assert(sw * dh == dh * sw) by (nonlinear_arith);
        lemma_keeps_shape(sw as int, dw as int, dh as int, sh as int);
    }
}

/// Nothing is shown of a picture without a size, or on a display without one.
pub proof fn law_nothing_fits_nowhere(sw: i32, sh: i32, dw: i32, dh: i32, r: Area)
    requires
        call_ensures(fit, (sw, sh, dw, dh), r),
        sw <= 0 || sh <= 0 || dw <= 0 || dh <= 0,
    ensures
        r.w == 0 && r.h == 0,
{
}

/// A display is driven in the first mode that it prefers, and in its first where
/// it prefers none.
pub proof fn law_preferred_mode_is_taken(preferred: Seq<bool>, k: int)
    requires
        0 <= k < preferred.len(),
    ensures
        preferred[k] && (forall|j: int| 0 <= j < k ==> !#[trigger] preferred[j]) ==> mode_of(preferred)
            == k,
        (forall|j: int| 0 <= j < preferred.len() ==> !#[trigger] preferred[j]) ==> mode_of(preferred)
            == 0,
{
    if preferred.contains(true) {
        preferred.index_of_first_ensures(true);
        let m = preferred.index_of_first(true)->0;
        assert(preferred[m]);
        if m > k {
            assert(preferred[k] != true);
        }
    }
    if preferred[k] {
        assert(preferred[k] == true);
        assert(preferred.contains(true));
    }
}

/// A pipe is the first of the connector's that is free.
proof fn lemma_first_free(crtcs: Seq<u32>, used: Seq<u32>)
    ensures
        match free_crtc(crtcs, used) {
            Some(c) => exists|k: int|
                0 <= k < crtcs.len() && #[trigger] crtcs[k] == c && !used.contains(c) && forall|j: int|
                    0 <= j < k ==> used.contains(#[trigger] crtcs[j]),
            None => forall|k: int| 0 <= k < crtcs.len() ==> used.contains(#[trigger] crtcs[k]),
        },
    decreases crtcs.len(),
{
    if crtcs.len() > 0 {
        if !used.contains(crtcs[0]) {
            assert(crtcs[0] == free_crtc(crtcs, used)->0);
        } else {
            let rest = crtcs.skip(1);
            lemma_first_free(rest, used);
            match free_crtc(rest, used) {
                Some(c) => {
                    let k = choose|k: int|
                        0 <= k < rest.len() && #[trigger] rest[k] == c && !used.contains(c) && forall|
                            j: int,
                        |
                            0 <= j < k ==> used.contains(#[trigger] rest[j]);
                    assert(crtcs[k + 1] == c);
                    assert forall|j: int| 0 <= j < k + 1 implies used.contains(#[trigger] crtcs[j]) by {
                        if j > 0 {
                            assert(crtcs[j] == rest[j - 1]);
                        }
                    }
                },
                None => {
                    assert forall|k: int| 0 <= k < crtcs.len() implies used.contains(
                        #[trigger] crtcs[k],
                    ) by {
                        if k > 0 {
                            assert(crtcs[k] == rest[k - 1]);
                        }
                    }
                },
            }
        }
    }
}

/// Whether `c` drives the display at the connector `conn` by one of its pipes and
/// in the mode that it takes.
pub open spec fn drives(c: Candidate, conn: Connector) -> bool {
    c.connector == conn.handle && conn.crtcs@.contains(c.crtc) && c.mode == mode_of(conn.preferred@)
}

/// Every display that is driven is connected, has a mode and was not driven
/// before; it gets one of its own pipes.
pub proof fn law_driven_displays_are_connected(
    conns: Seq<Connector>,
    used: Seq<u32>,
    skip: Seq<u32>,
    i: int,
)
    requires
        0 <= i < scanned(conns, used, skip).len(),
        forall|k: int| 0 <= k < conns.len() ==> (#[trigger] conns[k]).preferred@.len() <= usize::MAX,
    ensures
        exists|k: int|
            0 <= k < conns.len() && drives(scanned(conns, used, skip)[i], #[trigger] conns[k])
                && conns[k].connected && conns[k].preferred@.len() > 0 && !skip.contains(
                conns[k].handle,
            ),
    decreases conns.len(),
{
    if conns.len() > 0 {
        let c = conns[0];
        let all = scanned(conns, used, skip);
        let rest = conns.skip(1);
        assert forall|k: int| 0 <= k < rest.len() implies (#[trigger] rest[k]).preferred@.len()
            <= usize::MAX by {
            assert(rest[k] == conns[k + 1]);
        }
        let pipe = if is_usable(c, skip) {
            free_crtc(c.crtcs@, used)
        } else {
            None
        };
        match pipe {
            Some(crtc) => {
                if i == 0 {
                    lemma_first_free(c.crtcs@, used);
                    if c.preferred@.contains(true) {
                        c.preferred@.index_of_first_ensures(true);
                    }
                    assert(conns[0].preferred@.len() <= usize::MAX);
                    assert(drives(all[0], conns[0]));
                } else {
                    let more = used.push(crtc);
                    law_driven_displays_are_connected(rest, more, skip, i - 1);
                    assert(all[i] == scanned(rest, more, skip)[i - 1]);
                    let k = choose|k: int|
                        0 <= k < rest.len() && drives(scanned(rest, more, skip)[i - 1], #[trigger] rest[k])
                            && rest[k].connected && rest[k].preferred@.len() > 0 && !skip.contains(
                            rest[k].handle,
                        );
                    assert(conns[k + 1] == rest[k]);
                }
            },
            None => {
                law_driven_displays_are_connected(rest, used, skip, i);
                let k = choose|k: int|
                    0 <= k < rest.len() && drives(scanned(rest, used, skip)[i], #[trigger] rest[k])
                        && rest[k].connected && rest[k].preferred@.len() > 0 && !skip.contains(
                        rest[k].handle,
                    );
                assert(conns[k + 1] == rest[k]);
            },
        }
    }
}

/// The first display that can be driven is, by the first of its pipes that is
/// free.
pub proof fn law_first_display_gets_its_first_pipe(
    conns: Seq<Connector>,
    used: Seq<u32>,
    skip: Seq<u32>,
    k: int,
    p: int,
)
    requires
        0 <= k < conns.len(),
        conns[k].connected,
        conns[k].preferred@.len() > 0,
        !skip.contains(conns[k].handle),
        forall|j: int|
            0 <= j < k ==> !(#[trigger] conns[j]).connected || conns[j].preferred@.len() == 0
                || skip.contains(conns[j].handle),
        0 <= p < conns[k].crtcs@.len(),
        !used.contains(conns[k].crtcs@[p]),
        forall|j: int| 0 <= j < p ==> used.contains(#[trigger] conns[k].crtcs@[j]),
    ensures
        scanned(conns, used, skip).len() > 0,
        scanned(conns, used, skip)[0].connector == conns[k].handle,
        scanned(conns, used, skip)[0].crtc == conns[k].crtcs@[p],
    decreases k,
{
    if k == 0 {
        let crtcs = conns[0].crtcs@;
        lemma_first_free(crtcs, used);
        match free_crtc(crtcs, used) {
            Some(c) => {
                let q = choose|q: int|
                    0 <= q < crtcs.len() && #[trigger] crtcs[q] == c && !used.contains(c) && forall|j: int|
                        0 <= j < q ==> used.contains(#[trigger] crtcs[j]);
                if q < p {
                    assert(used.contains(conns[k].crtcs@[q]));
                } else if p < q {
                    assert(used.contains(crtcs[p]));
                }
            },
            None => {
                assert(used.contains(crtcs[p]));
            },
        }
    } else {
        let rest = conns.skip(1);
        assert(!is_usable(conns[0], skip));
        assert(rest[k - 1] == conns[k]);
        assert forall|j: int| 0 <= j < k - 1 implies !(#[trigger] rest[j]).connected
            || rest[j].preferred@.len() == 0 || skip.contains(rest[j].handle) by {
            assert(rest[j] == conns[j + 1]);
        }
        law_first_display_gets_its_first_pipe(rest, used, skip, k - 1, p);
    }
}

/// A display that could be driven is passed over only where none of its pipes is
/// left.
pub proof fn law_display_without_a_pipe_is_passed_over(
    conns: Seq<Connector>,
    used: Seq<u32>,
    skip: Seq<u32>,
    k: int,
    pipe: u32,
)
    requires
        0 <= k < conns.len(),
        is_usable(conns[k], skip),
        conns[k].crtcs@.contains(pipe),
    ensures
        used.contains(pipe) || exists|i: int|
            0 <= i < scanned(conns, used, skip).len() && ((#[trigger] scanned(
                conns,
                used,
                skip,
            )[i]).connector == conns[k].handle || scanned(conns, used, skip)[i].crtc == pipe),
    decreases conns.len(),
{
    let c = conns[0];
    let all = scanned(conns, used, skip);
    let rest = conns.skip(1);
    let free = if is_usable(c, skip) {
        free_crtc(c.crtcs@, used)
    } else {
        None
    };
    lemma_first_free(c.crtcs@, used);
    if k == 0 {
        if free is Some {
            assert(all[0].connector == c.handle);
        } else {
            let q = choose|q: int| 0 <= q < c.crtcs@.len() && c.crtcs@[q] == pipe;
            assert(used.contains(c.crtcs@[q]));
        }
    } else {
        assert(rest[k - 1] == conns[k]);
        match free {
            Some(crtc) => {
                let more = used.push(crtc);
                law_display_without_a_pipe_is_passed_over(rest, more, skip, k - 1, pipe);
                if more.contains(pipe) {
                    let q = choose|q: int| 0 <= q < more.len() && more[q] == pipe;
                    if q < used.len() {
                        assert(used[q] == pipe);
                    } else {
                        assert(all[0].crtc == pipe);
                    }
                } else {
                    let later = scanned(rest, more, skip);
                    let i = choose|i: int|
                        0 <= i < later.len() && ((#[trigger] later[i]).connector == rest[k - 1].handle
                            || later[i].crtc == pipe);
                    assert(all[i + 1] == later[i]);
                }
            },
            None => {
                law_display_without_a_pipe_is_passed_over(rest, used, skip, k - 1, pipe);
                assert(all == scanned(rest, used, skip));
            },
        }
    }
}

/// A mirror stays exactly while its display is there.
proof fn lemma_still_there(mirrors: Seq<Mirror>, connected: Seq<u32>, m: Mirror)
    ensures
        still_there(mirrors, connected).contains(m) <==> mirrors.contains(m) && connected.contains(
            m.connector,
        ),
    decreases mirrors.len(),
{
    if mirrors.len() > 0 {
        let less = mirrors.drop_last();
        let rest = still_there(less, connected);
        let now = still_there(mirrors, connected);
        lemma_still_there(less, connected, m);
        if now.contains(m) {
            let j = choose|j: int| 0 <= j < now.len() && now[j] == m;
            if j < rest.len() {
                assert(rest[j] == m);
                let k = choose|k: int| 0 <= k < less.len() && less[k] == m;
                assert(mirrors[k] == m);
            } else {
                assert(mirrors[mirrors.len() - 1] == m);
            }
        }
        if mirrors.contains(m) && connected.contains(m.connector) {
            let k = choose|k: int| 0 <= k < mirrors.len() && mirrors[k] == m;
            if k < less.len() {
                assert(less[k] == m);
                let j = choose|j: int| 0 <= j < rest.len() && rest[j] == m;
                assert(now[j] == m);
            } else {
                assert(now[rest.len() as int] == m);
            }
        }
    }
}

/// What was plugged out is dropped and what stayed goes on. Nothing that is
/// started takes the panel's pipe or connector, or those of a mirror that goes
/// on.
pub proof fn law_replugging_keeps_what_stayed(
    mirrors: &mut Vec<Mirror>,
    connected: Vec<u32>,
    conns: Vec<Connector>,
    primary_conn: u32,
    primary_crtc: u32,
    out: Vec<Candidate>,
    m: Mirror,
    i: int,
)
    requires
        call_ensures(refresh, (mirrors, &connected, &conns, primary_conn, primary_crtc), out),
        0 <= i < out@.len(),
    ensures
        final(mirrors)@.contains(m) <==> old(mirrors)@.contains(m) && connected@.contains(m.connector),
        out@[i].crtc != primary_crtc,
        out@[i].connector != primary_conn,
        final(mirrors)@.contains(m) ==> out@[i].crtc != m.crtc && out@[i].connector != m.connector,
{
    lemma_still_there(old(mirrors)@, connected@, m);
    let used = seq![primary_crtc] + pipes(final(mirrors)@);
    let skip = seq![primary_conn] + plugs(final(mirrors)@);
    law_no_pipe_is_shared(conns@, used, skip);
    assert(!used.contains(scanned(conns@, used, skip)[i].crtc));
    assert(used[0] == primary_crtc);
    assert(skip[0] == primary_conn);
    if final(mirrors)@.contains(m) {
        let k = choose|k: int| 0 <= k < final(mirrors)@.len() && final(mirrors)@[k] == m;
        assert(used[k + 1] == m.crtc);
        assert(skip[k + 1] == m.connector);
    }
}

} // verus!
