//! Ranking for the pull-down search.
//!
//! With nothing typed, the apps that are used most come first; typing filters
//! the whole catalog by a part of the name, without regard to case. Apps with
//! the same score are ordered by name, so the result is stable.
use vstd::prelude::*;

use crate::sorting::{
    goes_before, is_sorted_order, key_views, lemma_different_numbers, places, sorted_order, KeyView,
    SortKey,
};
use crate::text::{
    before, chars_of, copy, has_text, lemma_before_total, occurs, texts, trim, trimmed, whole,
};

verus! {

/// An app that may be found. The score orders as its frecency does.
#[derive(Debug)]
pub struct Candidate {
    pub id: String,
    pub name: String,
    pub score: u64,
}

/// What a [`Candidate`] holds.
pub struct CandidateView {
    pub id: Seq<char>,
    pub name: Seq<char>,
    pub score: u64,
}

impl View for Candidate {
    type V = CandidateView;

    open spec fn view(&self) -> CandidateView {
        CandidateView { id: self.id@, name: self.name@, score: self.score }
    }
}

pub open spec fn candidate_views(cs: Seq<Candidate>) -> Seq<CandidateView> {
    cs.map_values(|c: Candidate| c@)
}

/// A text in lower case.
pub uninterp spec fn lowercase(s: Seq<char>) -> Seq<char>;

/// `str::to_lowercase`: the lower-case form of a text, by the Unicode tables.
/// Nothing is claimed of it but that it depends on the text alone.
#[verifier::external_body]
fn to_lower(s: &str) -> (r: String)
    ensures
        r@ == lowercase(s@),
{
    s.to_lowercase()
}

/// Whether `found` are the places of the candidates whose name holds `query`.
pub open spec fn are_matches(cs: Seq<CandidateView>, query: Seq<char>, found: Seq<int>) -> bool {
    &&& forall|a: int|
        0 <= a < found.len() ==> 0 <= #[trigger] found[a] < cs.len() && occurs(
            cs[found[a]].name,
            query,
        )
    &&& forall|a: int, b: int|
        0 <= a < b < found.len() ==> #[trigger] found[a] < #[trigger] found[b]
    &&& forall|i: int|
        0 <= i < cs.len() && occurs((#[trigger] cs[i]).name, query) ==> found.contains(i)
}

/// What a match is sorted by: the score, the highest first, then the name, then
/// the id.
pub open spec fn match_key(c: CandidateView) -> KeyView {
    KeyView { number: (u64::MAX - c.score) as u64, first: c.name, second: c.id }
}

/// What the candidates at the places `found` are sorted by.
pub open spec fn match_keys(cs: Seq<CandidateView>, found: Seq<int>) -> Seq<KeyView> {
    found.map_values(|i: int| match_key(cs[i]))
}

/// Whether `ids` are the ids of the first `limit` matches.
pub open spec fn is_ranking(
    cs: Seq<CandidateView>,
    query: Seq<char>,
    limit: int,
    ids: Seq<Seq<char>>,
) -> bool {
    exists|found: Seq<int>, order: Seq<int>|
        {
            &&& #[trigger] are_matches(cs, query, found)
            &&& #[trigger] is_sorted_order(match_keys(cs, found), order)
            &&& ids == order.take(
                if limit < order.len() {
                    limit
                } else {
                    order.len() as int
                },
            ).map_values(|a: int| cs[found[a]].id)
        }
}

fn matches_of(cs: &Vec<Candidate>, query: &Vec<char>) -> (r: Vec<usize>)
    ensures
        are_matches(candidate_views(cs@), query@, places(r@)),
{
    let ghost vs = candidate_views(cs@);
    let mut out: Vec<usize> = Vec::new();
    let mut i: usize = 0;
    while i < cs.len()
        invariant
            i <= cs.len(),
            vs == candidate_views(cs@),
            forall|a: int|
                0 <= a < out.len() ==> 0 <= #[trigger] out@[a] < i && occurs(
                    vs[out@[a] as int].name,
                    query@,
                ),
            forall|a: int, b: int|
                0 <= a < b < out.len() ==> #[trigger] out@[a] < #[trigger] out@[b],
            forall|j: int|
                0 <= j < i && occurs((#[trigger] vs[j]).name, query@) ==> places(out@).contains(j),
        decreases cs.len() - i,
    {
        let ghost before = out@;
        proof {
            assert(vs[i as int] == cs@[i as int]@);
        }
        if has_text(&chars_of(cs[i].name.as_str()), query) {
            out.push(i);
            proof {
                assert(places(out@)[before.len() as int] == i);
                assert forall|j: int|
                    0 <= j < i + 1 && occurs((#[trigger] vs[j]).name, query@) implies places(
                    out@,
                ).contains(j) by {
                    if j < i {
                        let k = choose|k: int|
                            0 <= k < places(before).len() && places(before)[k] == j;
                        assert(places(out@)[k] == j);
                    }
                }
            }
        }
        i = i + 1;
    }
    proof {
        let m = places(out@);
        assert forall|a: int| 0 <= a < m.len() implies 0 <= #[trigger] m[a] < vs.len() && occurs(
            vs[m[a]].name,
            query@,
        ) by {
            assert(m[a] == out@[a]);
        }
        assert forall|a: int, b: int| 0 <= a < b < m.len() implies #[trigger] m[a] < #[trigger] m[b] by {
            assert(m[a] == out@[a] && m[b] == out@[b]);
        }
    }
    out
}

/// Rank candidates whose names are in lower case for a query in lower case.
pub fn rank_lowered(cs: &Vec<Candidate>, query: &Vec<char>, limit: usize) -> (r: Vec<String>)
    ensures
        is_ranking(candidate_views(cs@), query@, limit as int, texts(r@)),
{
    let ghost vs = candidate_views(cs@);
    let found: Vec<usize> = matches_of(cs, query);
    let mut keys: Vec<SortKey> = Vec::new();
    let mut i: usize = 0;
    while i < found.len()
        invariant
            i <= found.len(),
            vs == candidate_views(cs@),
            are_matches(vs, query@, places(found@)),
            keys.len() == i,
            forall|a: int| 0 <= a < i ==> (#[trigger] keys@[a])@ == match_key(vs[found@[a] as int]),
        decreases found.len() - i,
    {
        proof {
            assert(places(found@)[i as int] == found@[i as int]);
            assert(vs[found@[i as int] as int] == cs@[found@[i as int] as int]@);
        }
        let c: &Candidate = &cs[found[i]];
        keys.push(
            SortKey {
                number: u64::MAX - c.score,
                first: copy(c.name.as_str()),
                second: copy(c.id.as_str()),
            },
        );
        i = i + 1;
    }
    let order: Vec<usize> = sorted_order(&keys);
    let ghost m = places(found@);
    let ghost o = places(order@);
    proof {
        assert(key_views(keys@) =~= match_keys(vs, m));
    }
    let shown: usize = if limit < order.len() {
        limit
    } else {
        order.len()
    };
    let mut out: Vec<String> = Vec::new();
    let mut k: usize = 0;
    while k < shown
        invariant
            k <= shown <= order.len(),
            vs == candidate_views(cs@),
            m == places(found@),
            o == places(order@),
            are_matches(vs, query@, m),
            is_sorted_order(match_keys(vs, m), o),
            out.len() == k,
            forall|a: int| 0 <= a < k ==> (#[trigger] out@[a])@ == vs[m[o[a]]].id,
        decreases shown - k,
    {
        proof {
            assert(o[k as int] == order@[k as int]);
            assert(m[o[k as int]] == found@[order@[k as int] as int]);
            assert(vs[m[o[k as int]]] == cs@[m[o[k as int]]]@);
        }
        out.push(copy(cs[found[order[k]]].id.as_str()));
        k = k + 1;
    }
    proof {
        assert(texts(out@) =~= o.take(shown as int).map_values(|a: int| vs[m[a]].id));
    }
    out
}

/// The candidates with their names in lower case.
pub open spec fn lowered(cs: Seq<CandidateView>) -> Seq<CandidateView> {
    cs.map_values(|c: CandidateView| CandidateView { name: lowercase(c.name), ..c })
}

/// Order the catalog for the search view: the apps whose name holds what was
/// typed, at most `limit` of them. Apps that were never launched are found too,
/// and come last.
pub fn rank(cs: &Vec<Candidate>, query: &str, limit: usize) -> (r: Vec<String>)
    ensures
        is_ranking(
            lowered(candidate_views(cs@)),
            lowercase(trim(query@)),
            limit as int,
            texts(r@),
        ),
{
    let typed: String = whole(&trimmed(&chars_of(query)));
    let q: Vec<char> = chars_of(to_lower(typed.as_str()).as_str());
    let mut low: Vec<Candidate> = Vec::new();
    let mut i: usize = 0;
    while i < cs.len()
        invariant
            i <= cs.len(),
            low.len() == i,
            forall|a: int|
                0 <= a < i ==> (#[trigger] low@[a])@ == (CandidateView {
                    name: lowercase(cs@[a]@.name),
                    ..cs@[a]@
                }),
        decreases cs.len() - i,
    {
        let c: &Candidate = &cs[i];
        low.push(
            Candidate { id: copy(c.id.as_str()), name: to_lower(c.name.as_str()), score: c.score },
        );
        i = i + 1;
    }
    proof {
        assert(candidate_views(low@) =~= lowered(candidate_views(cs@)));
    }
    rank_lowered(&low, &q, limit)
}

/// An empty query finds every app.
pub proof fn law_empty_query_finds_all(cs: Seq<CandidateView>, found: Seq<int>, i: int)
    requires
        are_matches(cs, Seq::empty(), found),
        0 <= i < cs.len(),
    ensures
        found.contains(i),
{
    assert(cs[i].name.subrange(0, 0) =~= Seq::<char>::empty());
    assert(crate::text::occurs_at(cs[i].name, Seq::empty(), 0));
}

/// A limit cuts the ranking short and changes nothing else.
pub proof fn law_limit_is_a_prefix(
    cs: Seq<CandidateView>,
    query: Seq<char>,
    found: Seq<int>,
    order: Seq<int>,
    limit: int,
)
    requires
        are_matches(cs, query, found),
        is_sorted_order(match_keys(cs, found), order),
        0 <= limit <= order.len(),
    ensures
        is_ranking(cs, query, limit, order.map_values(|a: int| cs[found[a]].id).take(limit)),
{
    let ids = |a: int| cs[found[a]].id;
    assert(order.map_values(ids).take(limit) =~= order.take(limit).map_values(ids));
}

/// Whether a candidate may stand before another one: it is used more, or as much
/// and its name does not come later, or that is equal too and its id does not.
pub open spec fn may_lead(x: CandidateView, y: CandidateView) -> bool {
    ||| x.score > y.score
    ||| x.score == y.score && before(x.name, y.name)
    ||| x.score == y.score && x.name == y.name && !before(y.id, x.id)
}

/// Whether `row` are candidates whose name holds the query, in the order of their
/// use, and `ids` are theirs.
pub open spec fn is_row_of(
    cs: Seq<CandidateView>,
    query: Seq<char>,
    ids: Seq<Seq<char>>,
    row: Seq<CandidateView>,
) -> bool {
    &&& row.len() == ids.len()
    &&& forall|a: int|
        0 <= a < row.len() ==> cs.contains(#[trigger] row[a]) && occurs(row[a].name, query)
            && row[a].id == ids[a]
    &&& forall|a: int, b: int|
        0 <= a < b < row.len() ==> may_lead(#[trigger] row[a], #[trigger] row[b])
}

/// What is found holds what was typed, and goes from the most used to the least, by
/// name where two are used alike. No more than the limit is shown, and nothing that
/// matches is left out while there is room: what is left out may not lead what is
/// shown.
pub proof fn law_most_used_matches_come_first(
    cs: Seq<CandidateView>,
    query: Seq<char>,
    limit: int,
    ids: Seq<Seq<char>>,
    i: int,
)
    requires
        is_ranking(cs, query, limit, ids),
        0 <= limit,
        0 <= i < cs.len(),
        occurs(cs[i].name, query),
    ensures
        ids.len() <= limit,
        exists|row: Seq<CandidateView>| #[trigger]
            is_row_of(cs, query, ids, row) && (row.contains(cs[i]) || (ids.len() == limit && forall|
                a: int,
            |
                0 <= a < row.len() ==> may_lead(#[trigger] row[a], cs[i]))),
{
    let (found, order) = choose|found: Seq<int>, order: Seq<int>|
        {
            &&& #[trigger] are_matches(cs, query, found)
            &&& #[trigger] is_sorted_order(match_keys(cs, found), order)
            &&& ids == order.take(
                if limit < order.len() {
                    limit
                } else {
                    order.len() as int
                },
            ).map_values(|a: int| cs[found[a]].id)
        };
    let keys = match_keys(cs, found);
    let row = Seq::new(ids.len(), |a: int| cs[found[order[a]]]);
    assert forall|a: int| 0 <= a < row.len() implies cs.contains(#[trigger] row[a]) && occurs(
        row[a].name,
        query,
    ) && row[a].id == ids[a] by {
        assert(0 <= order[a] < keys.len());
        assert(0 <= found[order[a]] < cs.len());
    }
    assert forall|a: int, b: int| 0 <= a < b < row.len() implies may_lead(
        #[trigger] row[a],
        #[trigger] row[b],
    ) by {
        assert(0 <= order[a] < keys.len() && 0 <= order[b] < keys.len());
        assert(!goes_before(keys[order[b]], keys[order[a]]));
        lemma_may_lead(row[a], row[b]);
    }
    assert(is_row_of(cs, query, ids, row));
    assert(found.contains(i));
    let f = choose|f: int| 0 <= f < found.len() && found[f] == i;
    lemma_different_numbers(order, keys.len() as int);
    assert(order.contains(f));
    let k = choose|k: int| 0 <= k < order.len() && order[k] == f;
    if k < ids.len() {
        assert(row[k] == cs[i]);
    } else {
        assert forall|a: int| 0 <= a < row.len() implies may_lead(#[trigger] row[a], cs[i]) by {
            assert(0 <= order[a] < keys.len());
            assert(!goes_before(keys[order[k]], keys[order[a]]));
            lemma_may_lead(row[a], cs[i]);
        }
    }
}

proof fn lemma_may_lead(x: CandidateView, y: CandidateView)
    requires
        !goes_before(match_key(y), match_key(x)),
    ensures
        may_lead(x, y),
{
    lemma_before_total(x.name, y.name);
}

/// What is shown for a text that was typed are apps whose name holds it, whatever
/// the case and the white space around it.
pub proof fn law_typed_text_is_in_the_name(
    cs: &Vec<Candidate>,
    query: &str,
    limit: usize,
    r: Vec<String>,
    a: int,
)
    requires
        call_ensures(rank, (cs, query, limit), r),
        0 <= a < r@.len(),
    ensures
        r@.len() <= limit,
        exists|i: int|
            0 <= i < cs@.len() && (#[trigger] cs@[i]).id@ == r@[a]@ && occurs(
                lowercase(cs@[i].name@),
                lowercase(trim(query@)),
            ),
{
    let low = lowered(candidate_views(cs@));
    let q = lowercase(trim(query@));
    let ids = texts(r@);
    let (found, order) = choose|found: Seq<int>, order: Seq<int>|
        {
            &&& #[trigger] are_matches(low, q, found)
            &&& #[trigger] is_sorted_order(match_keys(low, found), order)
            &&& ids == order.take(
                if limit < order.len() {
                    limit as int
                } else {
                    order.len() as int
                },
            ).map_values(|a: int| low[found[a]].id)
        };
    assert(ids.len() == r@.len());
    assert(ids[a] == r@[a]@);
    assert(0 <= order[a] < match_keys(low, found).len());
    let i = found[order[a]];
    assert(0 <= i < low.len());
    assert(low[i].id == cs@[i].id@);
    assert(low[i].name == lowercase(cs@[i].name@));
}

} // verus!
