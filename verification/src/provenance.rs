//! Attributing a window to the launch that produced it.
//!
//! What a client says of itself does not tell which launch it came from: a
//! terminal entry reports the terminal. The ancestry of the client's process
//! does, and it is what is walked here.
use vstd::prelude::*;

use crate::text::{after_prefix, chars_of, line_after, lines, read_i32, trim, trimmed, written_within};

verus! {

/// How many parent links are followed from the client's process. Enough for a
/// terminal that runs a shell that runs the app, and too short to reach a
/// launch through a long chain of unrelated ancestors.
pub const MAX_DEPTH: usize = 6;

/// The parent that the body of a process's status file names.
pub open spec fn ppid(status: Seq<char>) -> Option<int> {
    match after_prefix(lines(status), "PPid:"@) {
        Some(v) => written_within(trim(v), i32::MIN as int, i32::MAX as int),
        None => None,
    }
}

/// The parent that the body of a process's status file names.
pub fn parse_ppid(status: &str) -> (r: Option<i32>)
    ensures
        match r {
            Some(p) => ppid(status@) == Some(p as int),
            None => ppid(status@) is None,
        },
{
    match line_after(&chars_of(status), "PPid:") {
        Some(v) => read_i32(&trimmed(&v)),
        None => None,
    }
}

/// Whether each process of `chain` after the first is what `parent_of` named as
/// the parent of the one before it, and is not the init process.
pub open spec fn is_ancestry<F: Fn(i32) -> Option<i32>>(
    parent_of: F,
    pid: i32,
    chain: Seq<i32>,
) -> bool {
    &&& chain.len() > 0
    &&& chain[0] == pid
    &&& forall|k: int|
        1 <= k < chain.len() ==> #[trigger] chain[k] > 1 && call_ensures(
            parent_of,
            (chain[k - 1],),
            Some(chain[k]),
        )
}

/// Whether `parent_of` can be asked about each process that its own answers lead
/// to from `pid` over fewer than `max_depth` links.
pub open spec fn knows_ancestry<F: Fn(i32) -> Option<i32>>(
    parent_of: F,
    pid: i32,
    max_depth: int,
) -> bool {
    forall|chain: Seq<i32>| #[trigger]
        is_ancestry(parent_of, pid, chain) && chain.len() <= max_depth ==> call_requires(
            parent_of,
            (chain.last(),),
        )
}

/// Whether `parent_of` answered for `pid` with no parent, or with init.
pub open spec fn has_no_parent<F: Fn(i32) -> Option<i32>>(parent_of: F, pid: i32) -> bool {
    exists|p: Option<i32>|
        #[trigger] call_ensures(parent_of, (pid,), p) && (p matches Some(q) ==> q <= 1)
}

/// The process, its parent, its grandparent and so on: at most `max_depth`
/// links. Init is never part of it: every launch shares init, so any client
/// would match any launch. `parent_of` is asked about members of the chain only.
pub fn ancestry_with<F: Fn(i32) -> Option<i32>>(
    pid: i32,
    max_depth: usize,
    parent_of: F,
) -> (chain: Vec<i32>)
    requires
        knows_ancestry(parent_of, pid, max_depth as int),
    ensures
        is_ancestry(parent_of, pid, chain@),
        chain@.len() <= max_depth + 1,
        chain@.len() <= max_depth ==> has_no_parent(parent_of, chain@.last()),
{
    let mut chain: Vec<i32> = Vec::new();
    chain.push(pid);
    let mut cur: i32 = pid;
    let mut links: usize = 0;
    while links < max_depth
        invariant
            links <= max_depth,
            knows_ancestry(parent_of, pid, max_depth as int),
            is_ancestry(parent_of, pid, chain@),
            chain@.len() == links + 1,
            cur == chain@.last(),
        decreases max_depth - links,
    {
        match parent_of(cur) {
            Some(p) => {
                if p <= 1 {
                    return chain;
                }
                chain.push(p);
                cur = p;
            },
            None => {
                return chain;
            },
        }
        links = links + 1;
    }
    chain
}

/// [`ancestry_with`], as deep as windows are attributed.
pub fn ancestry<F: Fn(i32) -> Option<i32>>(pid: i32, parent_of: F) -> (chain: Vec<i32>)
    requires
        knows_ancestry(parent_of, pid, MAX_DEPTH as int),
    ensures
        is_ancestry(parent_of, pid, chain@),
        chain@.len() <= MAX_DEPTH + 1,
        chain@.len() <= MAX_DEPTH ==> has_no_parent(parent_of, chain@.last()),
{
    ancestry_with(pid, MAX_DEPTH, parent_of)
}

/// The first of the launches that the nearest process of `chain` with a launch
/// belongs to.
pub open spec fn launch_of(launch_pids: Seq<i32>, chain: Seq<i32>) -> Option<int>
    decreases chain.len(),
{
    if chain.len() == 0 {
        None
    } else if launch_pids.contains(chain[0]) {
        Some(launch_pids.index_of_first(chain[0])->0)
    } else {
        launch_of(launch_pids, chain.skip(1))
    }
}

/// The place of `pid` in `pids`, if it is there.
fn place_of(pids: &[i32], pid: i32) -> (r: Option<usize>)
    ensures
        match r {
            Some(i) => pids@.contains(pid) && pids@.index_of_first(pid) == Some(i as int),
            None => !pids@.contains(pid),
        },
{
    let mut i: usize = 0;
    while i < pids.len()
        invariant
            i <= pids@.len(),
            forall|k: int| 0 <= k < i ==> pids@[k] != pid,
        decreases pids@.len() - i,
    {
        if pids[i] == pid {
            proof {
                assert(pids@[i as int] == pid);
                pids@.index_of_first_ensures(pid);
            }
            return Some(i);
        }
        i = i + 1;
    }
    None
}

/// The launch that a client belongs to, by the ancestry of its process. The
/// nearest ancestor that is a launch wins: an app started from a launched
/// terminal belongs to the inner launch.
pub fn match_ancestry(launch_pids: &[i32], chain: &[i32]) -> (r: Option<usize>)
    ensures
        match r {
            Some(i) => launch_of(launch_pids@, chain@) == Some(i as int),
            None => launch_of(launch_pids@, chain@) is None,
        },
{
    let mut k: usize = 0;
    proof {
        assert(chain@.skip(0) =~= chain@);
    }
    while k < chain.len()
        invariant
            k <= chain@.len(),
            launch_of(launch_pids@, chain@.skip(k as int)) == launch_of(launch_pids@, chain@),
        decreases chain@.len() - k,
    {
        proof {
            assert(chain@.skip(k as int)[0] == chain@[k as int]);
            assert(chain@.skip(k as int).skip(1) =~= chain@.skip(k + 1));
        }
        match place_of(launch_pids, chain[k]) {
            Some(i) => {
                return Some(i);
            },
            None => {},
        }
        k = k + 1;
    }
    None
}

/// A client is attributed to a launch exactly when one of its processes is that
/// of a launch, and no process nearer to the client is.
pub proof fn law_nearest_launch_wins(launch_pids: Seq<i32>, chain: Seq<i32>)
    ensures
        match launch_of(launch_pids, chain) {
            Some(i) => exists|k: int|
                0 <= k < chain.len() && 0 <= i < launch_pids.len() && launch_pids[i]
                    == #[trigger] chain[k] && (forall|j: int|
                    0 <= j < k ==> !launch_pids.contains(#[trigger] chain[j])),
            None => forall|k: int|
                0 <= k < chain.len() ==> !launch_pids.contains(#[trigger] chain[k]),
        },
    decreases chain.len(),
{
    if chain.len() > 0 {
        if launch_pids.contains(chain[0]) {
            launch_pids.index_of_first_ensures(chain[0]);
        } else {
            let rest = chain.skip(1);
            law_nearest_launch_wins(launch_pids, rest);
            match launch_of(launch_pids, rest) {
                Some(i) => {
                    let k = choose|k: int|
                        0 <= k < rest.len() && 0 <= i < launch_pids.len() && launch_pids[i]
                            == #[trigger] rest[k] && (forall|j: int|
                            0 <= j < k ==> !launch_pids.contains(#[trigger] rest[j]));
                    assert(chain[k + 1] == rest[k]);
                    assert forall|j: int| 0 <= j < k + 1 implies !launch_pids.contains(
                        #[trigger] chain[j],
                    ) by {
                        if j > 0 {
                            assert(chain[j] == rest[j - 1]);
                        }
                    }
                },
                None => {
                    assert forall|k: int| 0 <= k < chain.len() implies !launch_pids.contains(
                        #[trigger] chain[k],
                    ) by {
                        if k > 0 {
                            assert(chain[k] == rest[k - 1]);
                        }
                    }
                },
            }
        }
    }
}

/// The parent is the number on the first line that starts with `PPid:`.
pub proof fn law_first_parent_line_counts(status: &str, r: Option<i32>, before: Seq<Seq<char>>, v: Seq<char>, rest: Seq<Seq<char>>)
    requires
        call_ensures(parse_ppid, (status,), r),
        lines(status@) == before + seq!["PPid:"@ + v] + rest,
        forall|j: int|
            0 <= j < before.len() ==> !crate::text::starts_with(#[trigger] before[j], "PPid:"@),
    ensures
        match r {
            Some(p) => written_within(trim(v), i32::MIN as int, i32::MAX as int) == Some(p as int),
            None => written_within(trim(v), i32::MIN as int, i32::MAX as int) is None,
        },
{
    lemma_parent_line(before, v, rest);
}

proof fn lemma_parent_line(before: Seq<Seq<char>>, v: Seq<char>, rest: Seq<Seq<char>>)
    requires
        forall|j: int|
            0 <= j < before.len() ==> !crate::text::starts_with(#[trigger] before[j], "PPid:"@),
    ensures
        after_prefix(before + seq!["PPid:"@ + v] + rest, "PPid:"@) == Some(v),
    decreases before.len(),
{
    let all = before + seq!["PPid:"@ + v] + rest;
    let line = "PPid:"@ + v;
    if before.len() == 0 {
        assert(all[0] == line);
        assert(line.take("PPid:"@.len() as int) =~= "PPid:"@);
        assert(line.skip("PPid:"@.len() as int) =~= v);
    } else {
        assert(all[0] == before[0]);
        assert(all.skip(1) =~= before.skip(1) + seq![line] + rest);
        assert forall|j: int| 0 <= j < before.skip(1).len() implies !crate::text::starts_with(
            #[trigger] before.skip(1)[j],
            "PPid:"@,
        ) by {
            assert(before.skip(1)[j] == before[j + 1]);
        }
        lemma_parent_line(before.skip(1), v, rest);
    }
}

/// A chain starts with the process, holds no init, and goes from each process to
/// its parent, over six links at most.
pub proof fn law_chain_goes_from_child_to_parent<F: Fn(i32) -> Option<i32>>(
    pid: i32,
    parent_of: F,
    parent: spec_fn(i32) -> Option<i32>,
    chain: Vec<i32>,
    k: int,
)
    requires
        call_ensures(ancestry::<F>, (pid, parent_of), chain),
        forall|p: i32, r: Option<i32>| #[trigger]
            call_ensures(parent_of, (p,), r) ==> r == parent(p),
        1 <= k < chain@.len(),
    ensures
        chain@[0] == pid,
        chain@[k] > 1,
        parent(chain@[k - 1]) == Some(chain@[k]),
        chain@.len() <= 7,
{
    assert(chain@[k] > 1);
}

/// A chain ends early only at a process without a parent but init.
pub proof fn law_chain_ends_at_init<F: Fn(i32) -> Option<i32>>(
    pid: i32,
    parent_of: F,
    parent: spec_fn(i32) -> Option<i32>,
    chain: Vec<i32>,
)
    requires
        call_ensures(ancestry::<F>, (pid, parent_of), chain),
        forall|p: i32, r: Option<i32>| #[trigger]
            call_ensures(parent_of, (p,), r) ==> r == parent(p),
        chain@.len() < 7,
    ensures
        parent(chain@.last()) is None || parent(chain@.last())->0 <= 1,
{
    let p = choose|p: Option<i32>|
        #[trigger] call_ensures(parent_of, (chain@.last(),), p) && (p matches Some(q) ==> q <= 1);
    assert(p == parent(chain@.last()));
}

/// A client belongs to the launch of the process nearest to it, and to the first
/// of several of one process.
pub proof fn law_client_belongs_to_the_nearest_launch(
    launch_pids: &[i32],
    chain: &[i32],
    r: Option<usize>,
    k: int,
    i: int,
)
    requires
        call_ensures(match_ancestry, (launch_pids, chain), r),
        0 <= k < chain@.len(),
        0 <= i < launch_pids@.len(),
        launch_pids@[i] == chain@[k],
        forall|j: int| 0 <= j < i ==> #[trigger] launch_pids@[j] != chain@[k],
        forall|j: int| 0 <= j < k ==> !launch_pids@.contains(#[trigger] chain@[j]),
    ensures
        r is Some,
        r->0 == i,
{
    lemma_nearest(launch_pids@, chain@, k, i);
}

proof fn lemma_nearest(pids: Seq<i32>, chain: Seq<i32>, k: int, i: int)
    requires
        0 <= k < chain.len(),
        0 <= i < pids.len(),
        pids[i] == chain[k],
        forall|j: int| 0 <= j < i ==> #[trigger] pids[j] != chain[k],
        forall|j: int| 0 <= j < k ==> !pids.contains(#[trigger] chain[j]),
    ensures
        launch_of(pids, chain) == Some(i),
    decreases k,
{
    if k == 0 {
        assert(pids.contains(chain[0]));
        pids.index_of_first_ensures(chain[0]);
        let f = pids.index_of_first(chain[0])->0;
        if f < i {
            assert(pids[f] != chain[k]);
        }
    } else {
        assert(!pids.contains(chain[0]));
        assert(chain.skip(1)[k - 1] == chain[k]);
        assert forall|j: int| 0 <= j < k - 1 implies !pids.contains(#[trigger] chain.skip(1)[j]) by {
            assert(chain.skip(1)[j] == chain[j + 1]);
        }
        lemma_nearest(pids, chain.skip(1), k - 1, i);
    }
}

} // verus!
