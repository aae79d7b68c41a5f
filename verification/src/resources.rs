//! What the focused app gets, and what the apps behind it are squeezed to.
//!
//! Each app is launched into a scope of its own, so a tier is nothing but a
//! change of that scope's properties: no process is ever moved.
use vstd::prelude::*;

use crate::sorting::{is_sorted_order, key_views, places, sorted_order, KeyView, SortKey};
use crate::text::{
    after_prefix, all_digits, chars_of, concat, concat3, copy, decimal, decimal_of, digits_value,
    ends_with, find, has_suffix, is_digit, is_text, join, joined, law_decimal_reads_back,
    law_joined_pieces_split_back, line_after, lines, pieces, rows, same, spells, spells_word, split,
    split_once, texts, whole, words, words_of,
};

verus! {

#[derive(Clone, Copy, Debug, PartialEq, Eq, Structural)]
pub enum Tier {
    Foreground,
    Background,
}

/// An app that can be put in a tier: the scope to address it by, and the path of
/// its control group.
#[derive(Debug)]
pub struct AppCgroup {
    pub unit: String,
    pub path: String,
}

/// The limits of the two tiers.
#[derive(Debug)]
pub struct Resources {
    pub enable: bool,
    pub fg_cpu_weight: u64,
    pub bg_cpu_weight: u64,
    pub bg_memory_high: String,
    pub bg_cpu_quota: String,
    pub bg_allowed_cpus: String,
}

// ---------------------------------------------------------------------------
// Control groups
// ---------------------------------------------------------------------------

/// The scope and path that the body of a process's control group file names:
/// those of the unified hierarchy, whose line starts with `0::`, when the last
/// part of the path is a scope.
pub open spec fn scope_in(body: Seq<char>) -> Option<(Seq<char>, Seq<char>)> {
    match after_prefix(lines(body), "0::"@) {
        Some(path) => {
            let leaf = split(path, '/').last();
            if ends_with(leaf, ".scope"@) {
                Some((leaf, path))
            } else {
                None
            }
        },
        None => None,
    }
}

proof fn lemma_split_is_not_empty(s: Seq<char>, cur: Seq<char>, sep: char)
    ensures
        crate::text::split_from(s, cur, sep).len() > 0,
    decreases s.len(),
{
    if s.len() > 0 {
        if s[0] != sep {
            lemma_split_is_not_empty(s.skip(1), cur.push(s[0]), sep);
        }
    }
}

/// The app that the body of a process's control group file tells of. Only
/// scopes are tiered: the shell's own helpers are services, and squeezing a
/// keyboard because a dialog lost the focus would be wrong.
pub fn unit_from_cgroup(body: &str) -> (r: Option<AppCgroup>)
    ensures
        match r {
            Some(app) => scope_in(body@) == Some((app.unit@, app.path@)),
            None => scope_in(body@) is None,
        },
{
    match line_after(&chars_of(body), "0::") {
        Some(path) => {
            let parts: Vec<Vec<char>> = pieces(&path, '/');
            proof {
                lemma_split_is_not_empty(path@, Seq::empty(), '/');
                assert(rows(parts@).len() == parts@.len());
                assert(rows(parts@).last() == parts@.last()@);
            }
            let leaf: &Vec<char> = &parts[parts.len() - 1];
            if has_suffix(leaf, ".scope") {
                Some(AppCgroup { unit: whole(leaf), path: whole(&path) })
            } else {
                None
            }
        },
        None => None,
    }
}

/// Whether a list of controllers holds the one that pins to CPUs.
pub fn lists_cpuset(controllers: &str) -> (r: bool)
    ensures
        r == words(controllers@).contains("cpuset"@),
{
    let ws: Vec<Vec<char>> = words_of(&chars_of(controllers));
    let ghost all = rows(ws@);
    let mut i: usize = 0;
    while i < ws.len()
        invariant
            i <= ws.len(),
            all == rows(ws@),
            all == words(controllers@),
            forall|k: int| 0 <= k < i ==> all[k] != "cpuset"@,
        decreases ws.len() - i,
    {
        proof {
            assert(all[i as int] == ws@[i as int]@);
        }
        if is_text(&ws[i], "cpuset") {
            return true;
        }
        i = i + 1;
    }
    false
}

// ---------------------------------------------------------------------------
// CPUs
// ---------------------------------------------------------------------------

/// Whether `low` is the lowest capacity above zero.
pub open spec fn is_lowest(caps: Seq<(u32, u32)>, low: u32) -> bool {
    &&& low > 0
    &&& exists|k: int| 0 <= k < caps.len() && (#[trigger] caps[k]).1 == low
    &&& forall|k: int| 0 <= k < caps.len() && (#[trigger] caps[k]).1 > 0 ==> low <= caps[k].1
}

/// Whether some CPU has a capacity above `low`.
pub open spec fn some_above(caps: Seq<(u32, u32)>, low: u32) -> bool {
    exists|k: int| 0 <= k < caps.len() && (#[trigger] caps[k]).1 > low
}

/// Whether no CPU exceeds one of the lowest capacity.
pub open spec fn all_alike(caps: Seq<(u32, u32)>) -> bool {
    forall|low: u32| #[trigger] is_lowest(caps, low) ==> !some_above(caps, low)
}

/// The CPUs of capacity `low`, as listed.
pub open spec fn at_capacity(caps: Seq<(u32, u32)>, low: u32) -> Seq<u32>
    decreases caps.len(),
{
    if caps.len() == 0 {
        Seq::empty()
    } else {
        let rest = at_capacity(caps.drop_last(), low);
        if caps.last().1 == low {
            rest.push(caps.last().0)
        } else {
            rest
        }
    }
}

/// What CPUs are sorted by.
pub open spec fn cpu_key(cpu: u32) -> KeyView {
    KeyView { number: cpu as u64, first: Seq::empty(), second: Seq::empty() }
}

pub open spec fn cpu_keys(cpus: Seq<u32>) -> Seq<KeyView> {
    cpus.map_values(|c: u32| cpu_key(c))
}

/// The CPUs at the places of `order`.
pub open spec fn picked(cpus: Seq<u32>, order: Seq<int>) -> Seq<u32> {
    order.map_values(|i: int| cpus[i])
}

/// Whether `r` lists what `cpus` lists, in the order of their numbers.
pub open spec fn is_sorted_list(cpus: Seq<u32>, r: Seq<u32>) -> bool {
    exists|order: Seq<int>| #[trigger]
        is_sorted_order(cpu_keys(cpus), order) && r == picked(cpus, order)
}

fn in_number_order(cpus: &Vec<u32>) -> (out: Vec<u32>)
    ensures
        is_sorted_list(cpus@, out@),
{
    let mut keys: Vec<SortKey> = Vec::new();
    let mut i: usize = 0;
    while i < cpus.len()
        invariant
            i <= cpus.len(),
            keys.len() == i,
            forall|k: int| 0 <= k < i ==> (#[trigger] keys@[k])@ == cpu_key(cpus@[k]),
        decreases cpus.len() - i,
    {
        keys.push(SortKey { number: cpus[i] as u64, first: String::new(), second: String::new() });
        i = i + 1;
    }
    let order: Vec<usize> = sorted_order(&keys);
    proof {
        assert(key_views(keys@) =~= cpu_keys(cpus@));
    }
    let mut out: Vec<u32> = Vec::new();
    let mut j: usize = 0;
    while j < order.len()
        invariant
            j <= order.len(),
            is_sorted_order(cpu_keys(cpus@), places(order@)),
            out@ =~= picked(cpus@, places(order@).take(j as int)),
        decreases order.len() - j,
    {
        proof {
            assert(places(order@)[j as int] == order@[j as int]);
            assert(places(order@).take(j + 1) =~= places(order@).take(j as int).push(
                order@[j as int] as int,
            ));
        }
        out.push(cpus[order[j]]);
        j = j + 1;
    }
    proof {
        assert(places(order@).take(j as int) =~= places(order@));
    }
    out
}

/// The CPUs of the efficiency cluster, which are those of the lowest capacity.
/// `None` when every CPU is of the same size: pinning would only take cores
/// away.
pub fn little_cluster(caps: &[(u32, u32)]) -> (r: Option<Vec<u32>>)
    ensures
        match r {
            Some(cpus) => exists|low: u32| #[trigger]
                is_lowest(caps@, low) && some_above(caps@, low) && is_sorted_list(
                    at_capacity(caps@, low),
                    cpus@,
                ),
            None => all_alike(caps@),
        },
{
    let mut low: u32 = 0;
    let mut high: u32 = 0;
    let mut i: usize = 0;
    while i < caps.len()
        invariant
            i <= caps@.len(),
            low == 0 ==> forall|k: int| 0 <= k < i ==> (#[trigger] caps@[k]).1 == 0,
            low > 0 ==> is_lowest(caps@.take(i as int), low),
            forall|k: int| 0 <= k < i ==> (#[trigger] caps@[k]).1 <= high,
            high > 0 ==> exists|k: int| 0 <= k < i && (#[trigger] caps@[k]).1 == high,
        decreases caps@.len() - i,
    {
        let c: u32 = caps[i].1;
        let ghost before = caps@.take(i as int);
        let ghost now = caps@.take(i + 1);
        proof {
            assert(now =~= before.push(caps@[i as int]));
            assert(now[i as int] == caps@[i as int]);
            assert forall|k: int| 0 <= k < i implies now[k] == before[k] && before[k] == caps@[k] by {}
            if low > 0 {
                let k = choose|k: int| 0 <= k < before.len() && (#[trigger] before[k]).1 == low;
                assert(now[k].1 == low);
            }
        }
        if c > 0 && (low == 0 || c < low) {
            low = c;
        }
        if c > high {
            high = c;
        }
        i = i + 1;
    }
    proof {
        assert(caps@.take(i as int) =~= caps@);
    }
    if low == 0 || low >= high {
        proof {
            assert forall|l: u32| #[trigger] is_lowest(caps@, l) implies !some_above(caps@, l) by {
                let k = choose|k: int| 0 <= k < caps@.len() && (#[trigger] caps@[k]).1 == l;
                if low > 0 {
                    let m = choose|m: int| 0 <= m < caps@.len() && (#[trigger] caps@[m]).1 == low;
                    assert(l == low);
                }
            }
        }
        return None;
    }
    let mut cpus: Vec<u32> = Vec::new();
    let mut j: usize = 0;
    while j < caps.len()
        invariant
            j <= caps@.len(),
            cpus@ == at_capacity(caps@.take(j as int), low),
        decreases caps@.len() - j,
    {
        proof {
            assert(caps@.take(j + 1).drop_last() =~= caps@.take(j as int));
            assert(caps@.take(j + 1).last() == caps@[j as int]);
        }
        if caps[j].1 == low {
            cpus.push(caps[j].0);
        }
        j = j + 1;
    }
    proof {
        assert(caps@.take(j as int) =~= caps@);
        assert(is_lowest(caps@, low));
        let k = choose|k: int| 0 <= k < caps@.len() && (#[trigger] caps@[k]).1 == high;
        assert(some_above(caps@, low));
    }
    Some(in_number_order(&cpus))
}

/// The last place of the run of consecutive numbers that starts at `i`.
pub open spec fn run_end(cpus: Seq<u32>, i: int) -> int
    decreases cpus.len() - i,
{
    if 0 <= i && i + 1 < cpus.len() && cpus[i + 1] == cpus[i] + 1 {
        run_end(cpus, i + 1)
    } else {
        i
    }
}

/// How the run from `a` to `b` is written.
pub open spec fn range_text(a: u32, b: u32) -> Seq<char> {
    if a == b {
        decimal(a as nat)
    } else {
        decimal(a as nat) + "-"@ + decimal(b as nat)
    }
}

/// How the runs of `cpus` from place `i` on are written.
pub open spec fn range_texts(cpus: Seq<u32>, i: int) -> Seq<Seq<char>>
    decreases cpus.len() - i,
{
    if i < 0 || i >= cpus.len() {
        Seq::empty()
    } else {
        let j = run_end(cpus, i);
        if j < i || j >= cpus.len() {
            Seq::empty()
        } else {
            seq![range_text(cpus[i], cpus[j])] + range_texts(cpus, j + 1)
        }
    }
}

/// A run holds the numbers from its first to its last, without a gap, and does
/// not go on after its last.
pub proof fn law_run_has_no_gap(cpus: Seq<u32>, i: int)
    requires
        0 <= i < cpus.len(),
    ensures
        i <= run_end(cpus, i) < cpus.len(),
        forall|k: int| i <= k <= run_end(cpus, i) ==> #[trigger] cpus[k] == cpus[i] + (k - i),
        run_end(cpus, i) + 1 < cpus.len() ==> cpus[run_end(cpus, i) + 1] != cpus[run_end(cpus, i)]
            + 1,
    decreases cpus.len() - i,
{
    if i + 1 < cpus.len() && cpus[i + 1] == cpus[i] + 1 {
        law_run_has_no_gap(cpus, i + 1);
    }
}

/// A sorted list of CPUs the way the service manager wants it: `0-3`, `0-1,4`.
pub fn cpu_ranges(cpus: &[u32]) -> (out: String)
    ensures
        out@ == join(range_texts(cpus@, 0), ","@),
{
    let mut ranges: Vec<String> = Vec::new();
    let n: usize = cpus.len();
    let mut i: usize = 0;
    while i < n
        invariant
            i <= n,
            n == cpus@.len(),
            texts(ranges@) + range_texts(cpus@, i as int) == range_texts(cpus@, 0),
        decreases cpus@.len() - i,
    {
        let from: usize = i;
        let start: u32 = cpus[i];
        let mut end: u32 = start;
        proof {
            law_run_has_no_gap(cpus@, from as int);
        }
        while i + 1 < n && end < u32::MAX && cpus[i + 1] == end + 1
            invariant
                from <= i < n,
                n == cpus@.len(),
                end == cpus@[i as int],
                run_end(cpus@, i as int) == run_end(cpus@, from as int),
            decreases cpus@.len() - i,
        {
            i = i + 1;
            end = cpus[i];
        }
        let text: String = if start == end {
            decimal_of(start as u64)
        } else {
            concat3(
                decimal_of(start as u64).as_str(),
                "-",
                decimal_of(end as u64).as_str(),
            )
        };
        let ghost before = texts(ranges@);
        ranges.push(text);
        proof {
            assert(run_end(cpus@, i as int) == i);
            assert(texts(ranges@) =~= before.push(range_text(start, end)));
            assert(before + (seq![range_text(start, end)] + range_texts(cpus@, i + 1))
                =~= before.push(range_text(start, end)) + range_texts(cpus@, i + 1));
        }
        i = i + 1;
    }
    proof {
        assert(texts(ranges@) + range_texts(cpus@, i as int) =~= texts(ranges@));
    }
    joined(&ranges, ",")
}

/// The numbers from `a` to `b`.
pub open spec fn numbers(a: int, b: int) -> Seq<int> {
    Seq::new(
        if a <= b {
            (b - a + 1) as nat
        } else {
            0
        },
        |k: int| a + k,
    )
}

/// The CPUs that a piece of a list names: one, or those from one to another.
pub open spec fn expanded(piece: Seq<char>) -> Seq<int> {
    match split_once(piece, '-') {
        Some((a, b)) => numbers(digits_value(a) as int, digits_value(b) as int),
        None => numbers(digits_value(piece) as int, digits_value(piece) as int),
    }
}

pub open spec fn all_expanded(list: Seq<Seq<char>>) -> Seq<int>
    decreases list.len(),
{
    if list.len() == 0 {
        Seq::empty()
    } else {
        expanded(list[0]) + all_expanded(list.skip(1))
    }
}

/// The CPUs that a list names.
pub open spec fn named_cpus(text: Seq<char>) -> Seq<int> {
    if text.len() == 0 {
        Seq::empty()
    } else {
        all_expanded(split(text, ','))
    }
}

/// A list of CPUs, from place `i` on.
pub open spec fn cpus_from(cpus: Seq<u32>, i: int) -> Seq<int> {
    cpus.skip(i).map_values(|c: u32| c as int)
}

/// The first and the last number of each run of `cpus` from place `i` on.
pub open spec fn runs(cpus: Seq<u32>, i: int) -> Seq<(u32, u32)>
    decreases cpus.len() - i,
{
    if i < 0 || i >= cpus.len() {
        Seq::empty()
    } else {
        let j = run_end(cpus, i);
        if j < i || j >= cpus.len() {
            Seq::empty()
        } else {
            seq![(cpus[i], cpus[j])] + runs(cpus, j + 1)
        }
    }
}

proof fn lemma_range_text(a: u32, b: u32)
    requires
        a <= b,
    ensures
        range_text(a, b).len() > 0,
        !range_text(a, b).contains(','),
        expanded(range_text(a, b)) == numbers(a as int, b as int),
{
    law_decimal_reads_back(a as nat);
    law_decimal_reads_back(b as nat);
    let x = decimal(a as nat);
    let y = decimal(b as nat);
    let t = range_text(a, b);
    reveal_strlit("-");
    assert forall|k: int| 0 <= k < t.len() implies t[k] != ',' by {
        if a == b || k < x.len() {
            assert(is_digit(x[k]));
        } else if k > x.len() {
            assert(is_digit(y[k - x.len() - 1]));
        }
    }
    if a == b {
        lemma_find_past(x, Seq::empty(), '-');
        assert(x + Seq::<char>::empty() =~= x);
    } else {
        let rest = "-"@ + y;
        lemma_find_past(x, rest, '-');
        assert(t =~= x + rest);
        assert(rest[0] == '-');
        assert(t.take(x.len() as int) =~= x);
        assert(t.skip(x.len() as int + 1) =~= y);
    }
}

/// Digits are passed over when looking for what is none.
proof fn lemma_find_past(x: Seq<char>, t: Seq<char>, c: char)
    requires
        all_digits(x),
        !is_digit(c),
    ensures
        find(x + t, c) == x.len() + find(t, c),
    decreases x.len(),
{
    if x.len() == 0 {
        assert(x + t =~= t);
    } else {
        assert(is_digit(x[0]));
        assert((x + t).skip(1) =~= x.skip(1) + t);
        assert forall|i: int| 0 <= i < x.skip(1).len() implies is_digit(#[trigger] x.skip(1)[i]) by {
            assert(is_digit(x[i + 1]));
        }
        lemma_find_past(x.skip(1), t, c);
    }
}

proof fn lemma_ranges(cpus: Seq<u32>, i: int)
    requires
        0 <= i <= cpus.len(),
        forall|a: int, b: int| 0 <= a < b < cpus.len() ==> cpus[a] < cpus[b],
    ensures
        ({
            let list = range_texts(cpus, i);
            let rs = runs(cpus, i);
            &&& list.len() == rs.len()
            &&& list.len() == 0 <==> i == cpus.len()
            &&& i < cpus.len() ==> rs[0].0 == cpus[i]
            &&& forall|k: int|
                0 <= k < list.len() ==> (#[trigger] list[k]).len() > 0 && !list[k].contains(',')
                    && list[k] == range_text(rs[k].0, rs[k].1)
            &&& forall|k: int| 0 <= k < rs.len() ==> (#[trigger] rs[k]).0 <= rs[k].1
            &&& forall|k: int|
                0 < k < rs.len() ==> (#[trigger] rs[k]).0 > rs[k - 1].1 + 1
            &&& all_expanded(list) == cpus_from(cpus, i)
        }),
    decreases cpus.len() - i,
{
    if i == cpus.len() {
        assert(cpus_from(cpus, i) =~= Seq::<int>::empty());
    } else {
        law_run_has_no_gap(cpus, i);
        let j = run_end(cpus, i);
        lemma_ranges(cpus, j + 1);
        lemma_range_text(cpus[i], cpus[j]);
        let first = range_text(cpus[i], cpus[j]);
        let more = range_texts(cpus, j + 1);
        let list = range_texts(cpus, i);
        let rs = runs(cpus, i);
        let later = runs(cpus, j + 1);
        assert(list =~= seq![first] + more);
        assert(rs =~= seq![(cpus[i], cpus[j])] + later);
        assert(list.skip(1) =~= more);
        assert forall|k: int| 0 <= k < list.len() implies (#[trigger] list[k]).len() > 0
            && !list[k].contains(',') && list[k] == range_text(rs[k].0, rs[k].1) by {
            if k > 0 {
                assert(list[k] == more[k - 1]);
                assert(rs[k] == later[k - 1]);
            }
        }
        assert forall|k: int| 0 <= k < rs.len() implies (#[trigger] rs[k]).0 <= rs[k].1 by {
            if k > 0 {
                assert(rs[k] == later[k - 1]);
            }
        }
        assert forall|k: int| 0 < k < rs.len() implies (#[trigger] rs[k]).0 > rs[k - 1].1 + 1 by {
            assert(rs[k] == later[k - 1]);
            if k > 1 {
                assert(rs[k - 1] == later[k - 2]);
            } else {
                assert(later[0].0 == cpus[j + 1]);
                assert(cpus[j] < cpus[j + 1]);
            }
        }
        assert(cpus[j] == cpus[i] + (j - i));
        let here = numbers(cpus[i] as int, cpus[j] as int);
        let whole = cpus_from(cpus, i);
        assert(all_expanded(list) == here + cpus_from(cpus, j + 1));
        assert forall|k: int| 0 <= k < whole.len() implies #[trigger] whole[k] == (here + cpus_from(
            cpus,
            j + 1,
        ))[k] by {
            assert(whole[k] == cpus[i + k]);
            if k <= j - i {
                assert(cpus[i + k] == cpus[i] + k);
            } else {
                assert(cpus_from(cpus, j + 1)[k - (j - i + 1)] == cpus[j + 1 + (k - (j - i + 1))]);
            }
        }
        assert(whole =~= here + cpus_from(cpus, j + 1));
    }
}

/// What is written of a sorted list of CPUs names those CPUs again. The pieces
/// between the commas are its runs: each from one number to no smaller one, and
/// further than one above the end of the piece before. Only an empty list is
/// written as nothing.
pub proof fn law_ranges_read_back(cpus: Seq<u32>)
    requires
        forall|a: int, b: int| 0 <= a < b < cpus.len() ==> cpus[a] < cpus[b],
    ensures
        ({
            let text = join(range_texts(cpus, 0), ","@);
            let rs = runs(cpus, 0);
            &&& named_cpus(text) == cpus.map_values(|c: u32| c as int)
            &&& text.len() == 0 <==> cpus.len() == 0
            &&& cpus.len() > 0 ==> split(text, ',') == rs.map_values(
                |r: (u32, u32)| range_text(r.0, r.1),
            )
            &&& forall|k: int| 0 <= k < rs.len() ==> (#[trigger] rs[k]).0 <= rs[k].1
            &&& forall|k: int| 0 < k < rs.len() ==> (#[trigger] rs[k]).0 > rs[k - 1].1 + 1
        }),
{
    let list = range_texts(cpus, 0);
    let rs = runs(cpus, 0);
    let text = join(list, ","@);
    lemma_ranges(cpus, 0);
    reveal_strlit(",");
    assert(","@ =~= seq![',']);
    assert(cpus.skip(0) =~= cpus);
    assert(list =~= rs.map_values(|r: (u32, u32)| range_text(r.0, r.1)));
    if cpus.len() == 0 {
        assert(cpus.map_values(|c: u32| c as int) =~= Seq::<int>::empty());
    } else {
        law_joined_pieces_split_back(list, ',');
        if text.len() == 0 {
            assert(split(text, ',') =~= seq![Seq::<char>::empty()]);
            assert(list[0].len() > 0);
        }
    }
}

/// The numbers of a list of ranges.
pub open spec fn covered(ranges: Seq<(int, int)>) -> Seq<int>
    decreases ranges.len(),
{
    if ranges.len() == 0 {
        Seq::empty()
    } else {
        numbers(ranges[0].0, ranges[0].1) + covered(ranges.skip(1))
    }
}

/// No list of ranges that names the same CPUs in the same order is shorter than
/// the one that is written.
pub proof fn law_ranges_are_fewest(cpus: Seq<u32>, ranges: Seq<(int, int)>)
    requires
        covered(ranges) == cpus.map_values(|c: u32| c as int),
    ensures
        runs(cpus, 0).len() <= ranges.len(),
{
    assert(cpus.skip(0) =~= cpus);
    lemma_fewest(cpus, 0, ranges);
}

proof fn lemma_fewest(cpus: Seq<u32>, i: int, ranges: Seq<(int, int)>)
    requires
        0 <= i <= cpus.len(),
        covered(ranges) == cpus_from(cpus, i),
    ensures
        runs(cpus, i).len() <= ranges.len(),
    decreases ranges.len(),
{
    let all = cpus_from(cpus, i);
    if ranges.len() == 0 {
        assert(all.len() == cpus.len() - i);
    } else {
        let here = numbers(ranges[0].0, ranges[0].1);
        let rest = covered(ranges.skip(1));
        let n = here.len() as int;
        assert(all == here + rest);
        assert(all.len() == cpus.len() - i);
        assert forall|k: int| 0 <= k < n implies #[trigger] cpus[i + k] == ranges[0].0 + k by {
            assert(all[k] == cpus[i + k]);
            assert(all[k] == here[k]);
        }
        let more = cpus_from(cpus, i + n);
        assert forall|k: int| 0 <= k < rest.len() implies #[trigger] rest[k] == more[k] by {
            assert(rest[k] == all[n + k]);
            assert(all[n + k] == cpus[i + n + k]);
        }
        assert(rest =~= more);
        lemma_fewest(cpus, i + n, ranges.skip(1));
        if n > 0 {
            assert forall|a: int| i < a <= i + n - 1 implies #[trigger] cpus[a] == cpus[a - 1] + 1 by {
                assert(cpus[i + (a - i)] == ranges[0].0 + (a - i));
                assert(cpus[i + (a - 1 - i)] == ranges[0].0 + (a - 1 - i));
            }
            lemma_run_reaches(cpus, i, i + n - 1);
            let j = run_end(cpus, i);
            law_run_has_no_gap(cpus, i);
            assert(runs(cpus, i) =~= seq![(cpus[i], cpus[j])] + runs(cpus, j + 1));
            if i + n <= j {
                lemma_run_reaches(cpus, i, i + n);
                assert(runs(cpus, i + n) =~= seq![(cpus[i + n], cpus[j])] + runs(cpus, j + 1));
            }
        }
    }
}

/// A run that holds the places from `i` to `k` ends where the run from `k` does.
proof fn lemma_run_reaches(cpus: Seq<u32>, i: int, k: int)
    requires
        0 <= i <= k < cpus.len(),
        k <= run_end(cpus, i) || forall|a: int|
            i < a <= k ==> #[trigger] cpus[a] == cpus[a - 1] + 1,
    ensures
        run_end(cpus, k) == run_end(cpus, i),
        k <= run_end(cpus, i),
    decreases k - i,
{
    law_run_has_no_gap(cpus, i);
    if i < k {
        if k <= run_end(cpus, i) {
            assert(cpus[i + 1] == cpus[i] + 1);
        }
        lemma_run_reaches(cpus, i + 1, k);
    }
}

/// What background apps are pinned to: nothing for `off`, the efficiency cluster
/// of a machine with the capacities `caps` for `auto`, and otherwise the list
/// that is given.
pub fn resolve_allowed_cpus(cfg: &str, caps: &[(u32, u32)]) -> (r: Option<String>)
    ensures
        cfg@ == "off"@ ==> r is None,
        cfg@ != "off"@ && cfg@ != "auto"@ ==> r is Some && r->0@ == cfg@,
        cfg@ == "auto"@ && cfg@ != "off"@ ==> match r {
            Some(text) => exists|low: u32, cpus: Seq<u32>| #[trigger]
                is_lowest(caps@, low) && some_above(caps@, low) && #[trigger] is_sorted_list(
                    at_capacity(caps@, low),
                    cpus,
                ) && text@ == join(range_texts(cpus, 0), ","@),
            None => all_alike(caps@),
        },
{
    if same(cfg, "off") {
        return None;
    }
    if same(cfg, "auto") {
        return match little_cluster(caps) {
            Some(cpus) => Some(cpu_ranges(cpus.as_slice())),
            None => None,
        };
    }
    Some(copy(cfg))
}

// ---------------------------------------------------------------------------
// Tiers
// ---------------------------------------------------------------------------

/// How a CPU quota is written: no limit is the empty text, which is the only
/// spelling that is accepted.
pub open spec fn quota_text(quota: Seq<char>) -> Seq<char> {
    if spells(quota, "infinity"@) {
        ""@
    } else {
        quota
    }
}

fn clear_infinity(quota: &str) -> (out: String)
    ensures
        out@ == quota_text(quota@),
{
    if spells_word(quota, "infinity") {
        copy("")
    } else {
        copy(quota)
    }
}

/// The words that set properties of `unit`, before the properties.
pub open spec fn set_property(unit: Seq<char>) -> Seq<Seq<char>> {
    seq!["--user"@, "--quiet"@, "--runtime"@, "set-property"@, unit]
}

/// The words that put `unit` in `tier`. Every limit is set in both tiers: what is
/// not mentioned would keep its old value.
pub open spec fn tier_words(unit: Seq<char>, tier: Tier, res: Resources) -> Seq<Seq<char>> {
    set_property(unit) + match tier {
        Tier::Foreground => seq![
            "CPUWeight="@ + decimal(res.fg_cpu_weight as nat),
            "MemoryHigh="@ + "infinity"@,
            "CPUQuota="@ + quota_text("infinity"@),
        ],
        Tier::Background => seq![
            "CPUWeight="@ + decimal(res.bg_cpu_weight as nat),
            "MemoryHigh="@ + res.bg_memory_high@,
            "CPUQuota="@ + quota_text(res.bg_cpu_quota@),
        ],
    }
}

/// The words that pin `unit` to `cpus`.
pub open spec fn pin_words(unit: Seq<char>, cpus: Seq<char>) -> Seq<Seq<char>> {
    set_property(unit).push("AllowedCPUs="@ + cpus)
}

fn set_property_args(unit: &str) -> (out: Vec<String>)
    ensures
        texts(out@) == set_property(unit@),
{
    let mut out: Vec<String> = Vec::new();
    out.push(copy("--user"));
    out.push(copy("--quiet"));
    // Not persisted: a tier is a fact about the focus of this session.
    out.push(copy("--runtime"));
    out.push(copy("set-property"));
    out.push(copy(unit));
    proof {
        assert(texts(out@) =~= set_property(unit@));
    }
    out
}

/// The words that put `unit` in `tier`.
pub fn args(unit: &str, tier: Tier, res: &Resources) -> (out: Vec<String>)
    ensures
        texts(out@) == tier_words(unit@, tier, *res),
{
    let mut out: Vec<String> = set_property_args(unit);
    let ghost head = texts(out@);
    match tier {
        Tier::Foreground => {
            out.push(concat("CPUWeight=", decimal_of(res.fg_cpu_weight).as_str()));
            out.push(concat("MemoryHigh=", "infinity"));
            out.push(concat("CPUQuota=", clear_infinity("infinity").as_str()));
        },
        Tier::Background => {
            out.push(concat("CPUWeight=", decimal_of(res.bg_cpu_weight).as_str()));
            out.push(concat("MemoryHigh=", res.bg_memory_high.as_str()));
            out.push(concat("CPUQuota=", clear_infinity(res.bg_cpu_quota.as_str()).as_str()));
        },
    }
    proof {
        assert(texts(out@) =~= tier_words(unit@, tier, *res));
    }
    out
}

/// What a list of commands holds.
pub open spec fn commands(v: Seq<Vec<String>>) -> Seq<Seq<Seq<char>>> {
    v.map_values(|c: Vec<String>| texts(c@))
}

/// What the app is pinned to in `tier`: nothing at all in the foreground, and
/// nothing new in the background when pinning is off.
pub open spec fn pin_in(tier: Tier, cpus: Option<Seq<char>>) -> Option<Seq<char>> {
    match tier {
        Tier::Foreground => Some(""@),
        Tier::Background => cpus,
    }
}

/// The content of an optional text.
pub open spec fn given(cpus: Option<&str>) -> Option<Seq<char>> {
    match cpus {
        Some(c) => Some(c@),
        None => None,
    }
}

/// The commands that put `app` in `tier`. Pinning is a command of its own: one
/// refused property makes its whole command fail, and the limits would be lost
/// with it. It is left out where CPUs cannot be pinned to.
pub fn apply(
    app: &AppCgroup,
    tier: Tier,
    res: &Resources,
    cpus: Option<&str>,
    cpuset_available: bool,
) -> (out: Vec<Vec<String>>)
    ensures
        commands(out@) == seq![tier_words(app.unit@, tier, *res)] + match pin_in(tier, given(cpus)) {
            Some(pin) if cpuset_available => seq![pin_words(app.unit@, pin)],
            _ => Seq::empty(),
        },
{
    let mut out: Vec<Vec<String>> = Vec::new();
    out.push(args(app.unit.as_str(), tier, res));
    let pin: Option<&str> = match tier {
        Tier::Foreground => Some(""),
        Tier::Background => cpus,
    };
    proof {
        assert(commands(out@) =~= seq![tier_words(app.unit@, tier, *res)]);
    }
    match pin {
        Some(pin) => {
            if cpuset_available {
                let mut words: Vec<String> = set_property_args(app.unit.as_str());
                words.push(concat("AllowedCPUs=", pin));
                proof {
                    assert(texts(words@) =~= pin_words(app.unit@, pin@));
                }
                out.push(words);
            }
        },
        None => {},
    }
    proof {
        assert(commands(out@) =~= seq![tier_words(app.unit@, tier, *res)] + match pin_in(
            tier,
            given(cpus),
        ) {
            Some(pin) if cpuset_available => seq![pin_words(app.unit@, pin)],
            _ => Seq::empty(),
        });
    }
    out
}

/// Promoting an app clears what demoting it set: the foreground names the same
/// properties, with no ceiling, no quota and no pinning.
pub proof fn law_promotion_clears_the_ceiling(unit: Seq<char>, res: Resources, cpus: Option<Seq<char>>)
    ensures
        tier_words(unit, Tier::Foreground, res).len() == tier_words(unit, Tier::Background, res).len(),
        tier_words(unit, Tier::Foreground, res).contains("MemoryHigh="@ + "infinity"@),
        tier_words(unit, Tier::Foreground, res).contains("CPUQuota="@ + ""@),
        pin_in(Tier::Foreground, cpus) == Some(""@),
{
    let fg = tier_words(unit, Tier::Foreground, res);
    assert(spells("infinity"@, "infinity"@));
    assert(fg[6] == "MemoryHigh="@ + "infinity"@);
    assert(fg[7] == "CPUQuota="@ + ""@);
}

/// What stands behind the last separator is the last piece.
proof fn lemma_last_piece(a: Seq<char>, b: Seq<char>, cur: Seq<char>, sep: char)
    requires
        !b.contains(sep),
    ensures
        crate::text::split_from(a + seq![sep] + b, cur, sep).last() == b,
    decreases a.len(),
{
    let s = a + seq![sep] + b;
    if a.len() == 0 {
        assert(s[0] == sep);
        assert(s.skip(1) =~= b);
        lemma_one_piece(b, Seq::empty(), sep);
        assert(Seq::<char>::empty() + b =~= b);
    } else {
        assert(s[0] == a[0]);
        assert(s.skip(1) =~= a.skip(1) + seq![sep] + b);
        if a[0] == sep {
            lemma_last_piece(a.skip(1), b, Seq::empty(), sep);
            lemma_split_is_not_empty(s.skip(1), Seq::empty(), sep);
        } else {
            lemma_last_piece(a.skip(1), b, cur.push(a[0]), sep);
        }
    }
}

proof fn lemma_one_piece(b: Seq<char>, cur: Seq<char>, sep: char)
    requires
        !b.contains(sep),
    ensures
        crate::text::split_from(b, cur, sep) == seq![cur + b],
    decreases b.len(),
{
    if b.len() == 0 {
        assert(cur + b =~= cur);
    } else {
        assert(b.contains(b[0]));
        assert forall|c: char| b.skip(1).contains(c) implies b.contains(c) by {
            let k = choose|k: int| 0 <= k < b.skip(1).len() && b.skip(1)[k] == c;
            assert(b[k + 1] == c);
        }
        lemma_one_piece(b.skip(1), cur.push(b[0]), sep);
        assert(cur.push(b[0]) + b.skip(1) =~= cur + b);
    }
}

/// An app is known by the last part of the path on the line of the unified
/// hierarchy, the one that starts with `0::`, if that part is a scope; and its
/// path is all of it.
pub proof fn law_scope_is_the_last_part_of_the_path(
    body: &str,
    r: Option<AppCgroup>,
    k: int,
    dir: Seq<char>,
    leaf: Seq<char>,
)
    requires
        call_ensures(unit_from_cgroup, (body,), r),
        0 <= k < lines(body@).len(),
        lines(body@)[k] == "0::"@ + (dir + seq!['/'] + leaf),
        forall|j: int|
            0 <= j < k ==> !crate::text::starts_with(#[trigger] lines(body@)[j], "0::"@),
        !leaf.contains('/'),
    ensures
        r is Some <==> ends_with(leaf, ".scope"@),
        r is Some ==> r->0.unit@ == leaf && r->0.path@ == dir + seq!['/'] + leaf,
{
    let line = lines(body@)[k];
    let path = dir + seq!['/'] + leaf;
    assert(line.take("0::"@.len() as int) =~= "0::"@);
    assert(line.skip("0::"@.len() as int) =~= path);
    crate::text::law_first_line_with_the_prefix_counts(lines(body@), "0::"@, k);
    lemma_last_piece(dir, leaf, Seq::empty(), '/');
}

/// CPUs can be pinned to where one of the controllers is called `cpuset`.
pub proof fn law_controller_is_found_by_name(controllers: &str, r: bool)
    requires
        call_ensures(lists_cpuset, (controllers,), r),
    ensures
        r <==> exists|k: int| 0 <= k < words(controllers@).len() && #[trigger] words(controllers@)[k]
            == "cpuset"@,
{
    if r {
        let k = choose|k: int|
            0 <= k < words(controllers@).len() && words(controllers@)[k] == "cpuset"@;
        assert(words(controllers@)[k] == "cpuset"@);
    }
}

proof fn lemma_at_capacity(caps: Seq<(u32, u32)>, low: u32, c: u32)
    ensures
        at_capacity(caps, low).contains(c) <==> exists|k: int|
            0 <= k < caps.len() && #[trigger] caps[k] == (c, low),
    decreases caps.len(),
{
    if caps.len() > 0 {
        let less = caps.drop_last();
        let rest = at_capacity(less, low);
        let now = at_capacity(caps, low);
        lemma_at_capacity(less, low, c);
        if now.contains(c) {
            let j = choose|j: int| 0 <= j < now.len() && now[j] == c;
            if j < rest.len() {
                assert(rest[j] == c);
                let k = choose|k: int| 0 <= k < less.len() && #[trigger] less[k] == (c, low);
                assert(caps[k] == (c, low));
            } else {
                assert(caps[caps.len() - 1] == (c, low));
            }
        }
        if exists|k: int| 0 <= k < caps.len() && #[trigger] caps[k] == (c, low) {
            let k = choose|k: int| 0 <= k < caps.len() && #[trigger] caps[k] == (c, low);
            if k < less.len() {
                assert(less[k] == (c, low));
                let j = choose|j: int| 0 <= j < rest.len() && rest[j] == c;
                assert(now[j] == c);
            } else {
                assert(now[rest.len() as int] == c);
            }
        }
    }
}

proof fn lemma_sorted_list(cpus: Seq<u32>, r: Seq<u32>, c: u32)
    requires
        is_sorted_list(cpus, r),
    ensures
        r.contains(c) <==> cpus.contains(c),
        forall|a: int, b: int| 0 <= a < b < r.len() ==> r[a] <= r[b],
        r.len() == cpus.len(),
{
    let keys = cpu_keys(cpus);
    let o = choose|order: Seq<int>| #[trigger]
        is_sorted_order(keys, order) && r == picked(cpus, order);
    if r.contains(c) {
        let a = choose|a: int| 0 <= a < r.len() && r[a] == c;
        assert(0 <= o[a] < keys.len());
        assert(cpus[o[a]] == c);
    }
    if cpus.contains(c) {
        let v = choose|v: int| 0 <= v < cpus.len() && cpus[v] == c;
        crate::sorting::law_every_place_is_listed(keys, o, v);
        let a = choose|a: int| 0 <= a < o.len() && o[a] == v;
        assert(r[a] == c);
    }
    assert forall|a: int, b: int| 0 <= a < b < r.len() implies r[a] <= r[b] by {
        assert(0 <= o[a] < keys.len() && 0 <= o[b] < keys.len());
        assert(keys[o[a]] == cpu_key(cpus[o[a]]));
        assert(keys[o[b]] == cpu_key(cpus[o[b]]));
        assert(!crate::sorting::goes_before(keys[o[b]], keys[o[a]]));
    }
}

/// The efficiency cluster is there exactly if two CPUs of known capacity differ
/// in it.
pub proof fn law_cluster_needs_a_difference(caps: &[(u32, u32)], r: Option<Vec<u32>>, i: int, j: int)
    requires
        call_ensures(little_cluster, (caps,), r),
        0 <= i < caps@.len(),
        0 <= j < caps@.len(),
    ensures
        0 < caps@[i].1 && caps@[i].1 < caps@[j].1 ==> r is Some,
        r is Some ==> exists|m: int, h: int|
            0 <= m < caps@.len() && 0 <= h < caps@.len() && 0 < (#[trigger] caps@[m]).1 && caps@[m].1 < (
            #[trigger] caps@[h]).1,
{
    if r is Some {
        let low = choose|low: u32| #[trigger]
            is_lowest(caps@, low) && some_above(caps@, low) && is_sorted_list(
                at_capacity(caps@, low),
                r->0@,
            );
        let m = choose|m: int| 0 <= m < caps@.len() && (#[trigger] caps@[m]).1 == low;
        let h = choose|h: int| 0 <= h < caps@.len() && (#[trigger] caps@[h]).1 > low;
        assert(0 < caps@[m].1 && caps@[m].1 < caps@[h].1);
    } else if 0 < caps@[i].1 && caps@[i].1 < caps@[j].1 {
        let low = lemma_lowest(caps@, i, caps@.len() as int);
        assert(is_lowest(caps@, low));
        assert(caps@[j].1 > low);
        assert(some_above(caps@, low));
    }
}

/// It holds the CPUs of the lowest known capacity and no others, in the order of
/// their numbers.
pub proof fn law_little_cluster_is_the_weakest(caps: &[(u32, u32)], cpus: Vec<u32>, c: u32)
    requires
        call_ensures(little_cluster, (caps,), Some(cpus)),
    ensures
        cpus@.contains(c) <==> exists|k: int|
            0 <= k < caps@.len() && (#[trigger] caps@[k]).0 == c && caps@[k].1 > 0 && forall|j: int|
                0 <= j < caps@.len() && (#[trigger] caps@[j]).1 > 0 ==> caps@[k].1 <= caps@[j].1,
        forall|a: int, b: int| 0 <= a < b < cpus@.len() ==> cpus@[a] <= cpus@[b],
{
    let low = choose|low: u32| #[trigger]
        is_lowest(caps@, low) && some_above(caps@, low) && is_sorted_list(
            at_capacity(caps@, low),
            cpus@,
        );
    lemma_sorted_list(at_capacity(caps@, low), cpus@, c);
    lemma_at_capacity(caps@, low, c);
    let m = choose|m: int| 0 <= m < caps@.len() && (#[trigger] caps@[m]).1 == low;
    if cpus@.contains(c) {
        let k = choose|k: int| 0 <= k < caps@.len() && #[trigger] caps@[k] == (c, low);
        assert(caps@[k].0 == c && caps@[k].1 == low);
    }
    if exists|k: int|
        0 <= k < caps@.len() && (#[trigger] caps@[k]).0 == c && caps@[k].1 > 0 && forall|j: int|
            0 <= j < caps@.len() && (#[trigger] caps@[j]).1 > 0 ==> caps@[k].1 <= caps@[j].1 {
        let k = choose|k: int|
            0 <= k < caps@.len() && (#[trigger] caps@[k]).0 == c && caps@[k].1 > 0 && forall|j: int|
                0 <= j < caps@.len() && (#[trigger] caps@[j]).1 > 0 ==> caps@[k].1 <= caps@[j].1;
        assert(caps@[m].1 > 0);
        assert(caps@[k] == (c, low));
    }
}

/// Of capacities of which one is known there is a lowest.
proof fn lemma_lowest(caps: Seq<(u32, u32)>, i: int, n: int) -> (low: u32)
    requires
        0 <= i < caps.len(),
        caps[i].1 > 0,
        0 <= n <= caps.len(),
    ensures
        low > 0,
        exists|k: int| 0 <= k < caps.len() && (#[trigger] caps[k]).1 == low,
        low <= caps[i].1,
        forall|k: int| 0 <= k < n && (#[trigger] caps[k]).1 > 0 ==> low <= caps[k].1,
        n == caps.len() ==> is_lowest(caps, low),
    decreases n,
{
    if n == 0 {
        caps[i].1
    } else {
        let low = lemma_lowest(caps, i, n - 1);
        let last = caps[n - 1].1;
        if last > 0 && last < low {
            last
        } else {
            low
        }
    }
}

/// A run of CPUs is written with a dash between its ends, and a single one by its
/// number.
pub proof fn law_run_is_written_with_a_dash(cpus: &[u32], out: String)
    requires
        call_ensures(cpu_ranges, (cpus,), out),
        cpus@.len() > 0,
        forall|k: int| 0 <= k < cpus@.len() ==> #[trigger] cpus@[k] == cpus@[0] + k,
    ensures
        cpus@.len() == 1 ==> out@ == decimal(cpus@[0] as nat),
        cpus@.len() > 1 ==> out@ == decimal(cpus@[0] as nat) + "-"@ + decimal(cpus@.last() as nat),
{
    let n = cpus@.len() as int;
    assert forall|a: int| 0 < a <= n - 1 implies #[trigger] cpus@[a] == cpus@[a - 1] + 1 by {
        assert(cpus@[a - 1] == cpus@[0] + (a - 1));
    }
    lemma_run_reaches(cpus@, 0, n - 1);
    law_run_has_no_gap(cpus@, 0);
    assert(run_end(cpus@, 0) == n - 1);
    assert(range_texts(cpus@, n) =~= Seq::<Seq<char>>::empty());
    assert(range_texts(cpus@, 0) =~= seq![range_text(cpus@[0], cpus@[n - 1])]);
}

/// What is written of a sorted list names the CPUs of the list and no others.
pub proof fn law_written_cpus_are_the_listed(cpus: &[u32], out: String)
    requires
        call_ensures(cpu_ranges, (cpus,), out),
        forall|a: int, b: int| 0 <= a < b < cpus@.len() ==> cpus@[a] < cpus@[b],
    ensures
        named_cpus(out@) == cpus@.map_values(|c: u32| c as int),
{
    law_ranges_read_back(cpus@);
}

/// Pinning can be turned off, left to the machine, or given as a list, which is
/// taken as it is.
pub proof fn law_setting_decides_the_pinning(cfg: &str, caps: &[(u32, u32)], r: Option<String>)
    requires
        call_ensures(resolve_allowed_cpus, (cfg, caps), r),
    ensures
        cfg@ == "off"@ ==> r is None,
        cfg@ != "off"@ && cfg@ != "auto"@ ==> r is Some && r->0@ == cfg@,
        cfg@ == "auto"@ && r is Some ==> exists|i: int, j: int|
            0 <= i < caps@.len() && 0 <= j < caps@.len() && 0 < (#[trigger] caps@[i]).1 < (
            #[trigger] caps@[j]).1,
{
    reveal_strlit("off");
    reveal_strlit("auto");
    assert("off"@.len() == 3);
    assert("auto"@.len() == 4);
    if cfg@ == "auto"@ && r is Some {
        let (low, cpus) = choose|low: u32, cpus: Seq<u32>| #[trigger]
            is_lowest(caps@, low) && some_above(caps@, low) && #[trigger] is_sorted_list(
                at_capacity(caps@, low),
                cpus,
            ) && r->0@ == join(range_texts(cpus, 0), ","@);
        let m = choose|m: int| 0 <= m < caps@.len() && (#[trigger] caps@[m]).1 == low;
        let h = choose|h: int| 0 <= h < caps@.len() && (#[trigger] caps@[h]).1 > low;
        assert(0 < caps@[m].1 < caps@[h].1);
    }
}

/// Each tier gets its own weight. The foreground has no ceiling and no quota; the
/// background has those that are set, where a quota of infinity is left empty.
/// The scope is named right after the verb, and nothing outlives the session.
pub proof fn law_tier_gets_its_limits(unit: &str, tier: Tier, res: Resources, out: Vec<String>)
    requires
        call_ensures(args, (unit, tier, &res), out),
    ensures
        out@.len() == 8,
        out@[0]@ == "--user"@ && out@[1]@ == "--quiet"@ && out@[2]@ == "--runtime"@,
        out@[3]@ == "set-property"@ && out@[4]@ == unit@,
        tier == Tier::Foreground ==> out@[5]@ == "CPUWeight="@ + decimal(res.fg_cpu_weight as nat)
            && out@[6]@ == "MemoryHigh="@ + "infinity"@ && out@[7]@ == "CPUQuota="@ + ""@,
        tier == Tier::Background ==> out@[5]@ == "CPUWeight="@ + decimal(res.bg_cpu_weight as nat)
            && out@[6]@ == "MemoryHigh="@ + res.bg_memory_high@,
        tier == Tier::Background && res.bg_cpu_quota@ == "infinity"@ ==> out@[7]@ == "CPUQuota="@ + ""@,
        tier == Tier::Background && res.bg_cpu_quota@.len() != 8 ==> out@[7]@ == "CPUQuota="@
            + res.bg_cpu_quota@,
{
    reveal_strlit("infinity");
    assert("infinity"@.len() == 8);
    assert(spells("infinity"@, "infinity"@));
    let t = texts(out@);
    assert(t == tier_words(unit@, tier, res));
    assert(t.len() == out@.len());
    assert(t[0] == out@[0]@ && t[1] == out@[1]@ && t[2] == out@[2]@ && t[3] == out@[3]@);
    assert(t[4] == out@[4]@ && t[5] == out@[5]@ && t[6] == out@[6]@ && t[7] == out@[7]@);
}

/// The limits are set by a command of their own, and the pinning by another where
/// CPUs can be pinned to: none in front, and those that are given behind.
pub proof fn law_pinning_is_a_command_of_its_own(
    app: AppCgroup,
    tier: Tier,
    res: Resources,
    cpus: Option<&str>,
    cpuset_available: bool,
    out: Vec<Vec<String>>,
)
    requires
        call_ensures(apply, (&app, tier, &res, cpus, cpuset_available), out),
    ensures
        out@.len() == 2 <==> cpuset_available && (tier == Tier::Foreground || cpus is Some),
        out@.len() == 1 || out@.len() == 2,
        out@[0]@.len() == 8 && out@[0]@[4]@ == app.unit@,
        out@.len() == 2 ==> out@[1]@.len() == 6 && out@[1]@[4]@ == app.unit@,
        out@.len() == 2 && tier == Tier::Foreground ==> out@[1]@[5]@ == "AllowedCPUs="@ + ""@,
        out@.len() == 2 && tier == Tier::Background ==> out@[1]@[5]@ == "AllowedCPUs="@ + cpus->0@,
{
    let v = commands(out@);
    assert(v.len() == out@.len());
    assert(v[0] == texts(out@[0]@));
    assert(v[0].len() == out@[0]@.len());
    assert(v[0][4] == out@[0]@[4]@);
    if out@.len() == 2 {
        assert(v[1] == texts(out@[1]@));
        assert(v[1].len() == out@[1]@.len());
        assert(v[1][4] == out@[1]@[4]@);
        assert(v[1][5] == out@[1]@[5]@);
    }
}

/// Where the setting leaves it to the machine, background apps are pinned as soon as
/// two CPUs of known capacity differ in it.
pub proof fn law_machine_with_two_clusters_pins(cfg: &str, caps: &[(u32, u32)], r: Option<String>, i: int, j: int)
    requires
        call_ensures(resolve_allowed_cpus, (cfg, caps), r),
        cfg@ == "auto"@,
        0 <= i < caps@.len(),
        0 <= j < caps@.len(),
        0 < caps@[i].1 && caps@[i].1 < caps@[j].1,
    ensures
        r is Some,
{
    reveal_strlit("off");
    reveal_strlit("auto");
    assert("off"@.len() == 3);
    assert("auto"@.len() == 4);
    if r is None {
        let low = lemma_lowest(caps@, i, caps@.len() as int);
        assert(is_lowest(caps@, low));
        assert(caps@[j].1 > low);
        assert(some_above(caps@, low));
    }
}

} // verus!
