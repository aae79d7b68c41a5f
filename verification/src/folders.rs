//! The category folders of the app library: one folder per app, in a fixed
//! order. They are derived from every catalog scan and never stored.
use vstd::prelude::*;

use crate::catalog::{entry_views, AppEntry, EntryView};
use crate::sorting::{
    goes_before, is_sorted_order, key_views, law_sorted_keys_are_decided, lemma_different_numbers,
    places, sorted_order, KeyView, SortKey,
};
use crate::text::{copy, is_listed, same, texts};

verus! {

/// A folder of the library.
#[derive(Debug, PartialEq)]
pub struct Folder {
    pub name: &'static str,
    /// App ids, sorted by display name.
    pub apps: Vec<String>,
}

/// The folders in the order in which they are shown. The last one takes what
/// fits nowhere else.
pub open spec fn folder_names() -> Seq<Seq<char>> {
    seq![
        "Media"@,
        "Network"@,
        "Office"@,
        "Graphics"@,
        "Development"@,
        "Game"@,
        "Science"@,
        "Utility"@,
        "System"@,
        "Settings"@,
        "Other"@,
    ]
}

/// The folder at place `i` in the order in which they are shown.
pub fn folder_name(i: usize) -> (r: &'static str)
    requires
        i < 11,
    ensures
        r@ == folder_names()[i as int],
{
    if i == 0 {
        "Media"
    } else if i == 1 {
        "Network"
    } else if i == 2 {
        "Office"
    } else if i == 3 {
        "Graphics"
    } else if i == 4 {
        "Development"
    } else if i == 5 {
        "Game"
    } else if i == 6 {
        "Science"
    } else if i == 7 {
        "Utility"
    } else if i == 8 {
        "System"
    } else if i == 9 {
        "Settings"
    } else {
        "Other"
    }
}

/// The main categories and their folders, best match first: an app that is both
/// `AudioVideo` and `Utility` goes to Media. Office stands above Graphics,
/// since a document viewer declares both and is an office app to its user.
pub open spec fn main_categories() -> Seq<(Seq<char>, Seq<char>)> {
    seq![
        ("AudioVideo"@, "Media"@),
        ("Audio"@, "Media"@),
        ("Video"@, "Media"@),
        ("Game"@, "Game"@),
        ("Office"@, "Office"@),
        ("Graphics"@, "Graphics"@),
        ("Development"@, "Development"@),
        ("Science"@, "Science"@),
        ("Education"@, "Science"@),
        ("Network"@, "Network"@),
        ("Settings"@, "Settings"@),
        ("System"@, "System"@),
        ("Utility"@, "Utility"@),
    ]
}

fn main_category(i: usize) -> (r: (&'static str, &'static str))
    requires
        i < 13,
    ensures
        (r.0@, r.1@) == main_categories()[i as int],
{
    if i == 0 {
        ("AudioVideo", "Media")
    } else if i == 1 {
        ("Audio", "Media")
    } else if i == 2 {
        ("Video", "Media")
    } else if i == 3 {
        ("Game", "Game")
    } else if i == 4 {
        ("Office", "Office")
    } else if i == 5 {
        ("Graphics", "Graphics")
    } else if i == 6 {
        ("Development", "Development")
    } else if i == 7 {
        ("Science", "Science")
    } else if i == 8 {
        ("Education", "Science")
    } else if i == 9 {
        ("Network", "Network")
    } else if i == 10 {
        ("Settings", "Settings")
    } else if i == 11 {
        ("System", "System")
    } else {
        ("Utility", "Utility")
    }
}

/// Apps whose categories put them somewhere useless, and the folder that they
/// belong in.
pub open spec fn overrides() -> Seq<(Seq<char>, Seq<char>)> {
    seq![("Music Assistant"@, "Media"@)]
}

/// How many apps have their folder overridden.
pub const OVERRIDE_COUNT: usize = 1;

/// The app at place `i` of the overrides, and its folder.
pub fn folder_override(i: usize) -> (r: (&'static str, &'static str))
    requires
        i < OVERRIDE_COUNT,
    ensures
        (r.0@, r.1@) == overrides()[i as int],
{
    ("Music Assistant", "Media")
}

/// The folder of the first main category, from `i` on, that is declared.
pub open spec fn folder_of_main(declared: Seq<Seq<char>>, i: int) -> Seq<char>
    decreases 13 - i,
{
    if i >= 13 || i < 0 {
        "Other"@
    } else if declared.contains(main_categories()[i].0) {
        main_categories()[i].1
    } else {
        folder_of_main(declared, i + 1)
    }
}

/// The folder that an app belongs in.
pub open spec fn folder_of(e: EntryView) -> Seq<char> {
    if e.id == overrides()[0].0 {
        overrides()[0].1
    } else {
        folder_of_main(e.categories, 0)
    }
}

/// The folder that an app belongs in.
pub fn folder_for(entry: &AppEntry) -> (r: &'static str)
    ensures
        r@ == folder_of(entry@),
{
    let (app, folder) = folder_override(0);
    if same(app, entry.id.as_str()) {
        return folder;
    }
    let mut i: usize = 0;
    while i < 13
        invariant
            i <= 13,
            folder_of(entry@) == folder_of_main(texts(entry.categories@), i as int),
        decreases 13 - i,
    {
        let (category, folder) = main_category(i);
        if is_listed(&entry.categories, category) {
            return folder;
        }
        i = i + 1;
    }
    "Other"
}

proof fn lemma_main_folder_is_a_folder(declared: Seq<Seq<char>>, i: int)
    requires
        0 <= i <= 13,
    ensures
        folder_names().contains(folder_of_main(declared, i)),
    decreases 13 - i,
{
    let f = folder_names();
    assert(f[0] == "Media"@ && f[1] == "Network"@ && f[2] == "Office"@ && f[3] == "Graphics"@);
    assert(f[4] == "Development"@ && f[5] == "Game"@ && f[6] == "Science"@ && f[7] == "Utility"@);
    assert(f[8] == "System"@ && f[9] == "Settings"@ && f[10] == "Other"@);
    if i < 13 && !declared.contains(main_categories()[i].0) {
        lemma_main_folder_is_a_folder(declared, i + 1);
    }
}

/// Every app belongs in one of the folders.
pub proof fn law_every_app_has_a_folder(e: EntryView)
    ensures
        folder_names().contains(folder_of(e)),
{
    lemma_main_folder_is_a_folder(e.categories, 0);
    assert(folder_names()[0] == "Media"@);
}

/// What the members of a folder are sorted by: their names, then their ids.
pub open spec fn member_key(e: EntryView) -> KeyView {
    KeyView { number: 0, first: e.name, second: e.id }
}

/// What the apps at the places `members` are sorted by.
pub open spec fn member_keys(es: Seq<EntryView>, members: Seq<int>) -> Seq<KeyView> {
    members.map_values(|i: int| member_key(es[i]))
}

/// Whether `members` are the places of the apps of a folder.
pub open spec fn are_members(es: Seq<EntryView>, name: Seq<char>, members: Seq<int>) -> bool {
    &&& forall|a: int|
        0 <= a < members.len() ==> 0 <= #[trigger] members[a] < es.len() && folder_of(
            es[members[a]],
        ) == name
    &&& forall|a: int, b: int|
        0 <= a < b < members.len() ==> #[trigger] members[a] < #[trigger] members[b]
    &&& forall|i: int|
        0 <= i < es.len() && folder_of(#[trigger] es[i]) == name ==> members.contains(i)
}

/// Whether `apps` are the ids of the apps of a folder, sorted by name.
pub open spec fn are_sorted_apps(es: Seq<EntryView>, name: Seq<char>, apps: Seq<Seq<char>>) -> bool {
    exists|members: Seq<int>, order: Seq<int>|
        {
            &&& #[trigger] are_members(es, name, members)
            &&& #[trigger] is_sorted_order(member_keys(es, members), order)
            &&& apps == order.map_values(|a: int| es[members[a]].id)
        }
}

/// Whether any app belongs in a folder.
pub open spec fn has_apps(es: Seq<EntryView>, name: Seq<char>) -> bool {
    exists|i: int| 0 <= i < es.len() && folder_of(#[trigger] es[i]) == name
}

/// What a list of folders is called.
pub open spec fn names_of(fs: Seq<Folder>) -> Seq<Seq<char>> {
    fs.map_values(|f: Folder| f.name@)
}

fn members_of(entries: &[AppEntry], name: &'static str) -> (r: Vec<usize>)
    ensures
        are_members(entry_views(entries@), name@, places(r@)),
{
    let ghost es = entry_views(entries@);
    let mut out: Vec<usize> = Vec::new();
    let mut i: usize = 0;
    while i < entries.len()
        invariant
            i <= entries.len(),
            es == entry_views(entries@),
            forall|a: int|
                0 <= a < out.len() ==> 0 <= #[trigger] out@[a] < i && folder_of(es[out@[a] as int])
                    == name@,
            forall|a: int, b: int|
                0 <= a < b < out.len() ==> #[trigger] out@[a] < #[trigger] out@[b],
            forall|j: int|
                0 <= j < i && folder_of(#[trigger] es[j]) == name@ ==> places(out@).contains(j),
        decreases entries.len() - i,
    {
        let ghost before = out@;
        proof {
            assert(es[i as int] == entries@[i as int]@);
        }
        if same(folder_for(&entries[i]), name) {
            out.push(i);
            proof {
                assert(places(out@)[before.len() as int] == i);
                assert forall|j: int|
                    0 <= j < i + 1 && folder_of(#[trigger] es[j]) == name@ implies places(
                    out@,
                ).contains(j) by {
                    if j < i {
                        let k = choose|k: int|
                            0 <= k < places(before).len() && places(before)[k] == j;
                        assert(places(out@)[k] == j);
                    }
                }
            }
        }
        i = i + 1;
    }
    proof {
        let m = places(out@);
        assert forall|a: int| 0 <= a < m.len() implies 0 <= #[trigger] m[a] < es.len() && folder_of(
            es[m[a]],
        ) == name@ by {
            assert(m[a] == out@[a]);
        }
        assert forall|a: int, b: int| 0 <= a < b < m.len() implies #[trigger] m[a] < #[trigger] m[b] by {
            assert(m[a] == out@[a] && m[b] == out@[b]);
        }
    }
    out
}

fn sorted_apps(entries: &[AppEntry], name: &'static str) -> (r: Vec<String>)
    ensures
        are_sorted_apps(entry_views(entries@), name@, texts(r@)),
        r.len() > 0 <==> has_apps(entry_views(entries@), name@),
{
    let ghost es = entry_views(entries@);
    let members: Vec<usize> = members_of(entries, name);
    let mut keys: Vec<SortKey> = Vec::new();
    let mut i: usize = 0;
    while i < members.len()
        invariant
            i <= members.len(),
            es == entry_views(entries@),
            are_members(es, name@, places(members@)),
            keys.len() == i,
            forall|a: int|
                0 <= a < i ==> (#[trigger] keys@[a])@ == member_key(es[members@[a] as int]),
        decreases members.len() - i,
    {
        proof {
            assert(places(members@)[i as int] == members@[i as int]);
            assert(es[members@[i as int] as int] == entries@[members@[i as int] as int]@);
        }
        let e: &AppEntry = &entries[members[i]];
        keys.push(SortKey { number: 0, first: copy(e.name.as_str()), second: copy(e.id.as_str()) });
        i = i + 1;
    }
    let order: Vec<usize> = sorted_order(&keys);
    let ghost m = places(members@);
    let ghost o = places(order@);
    proof {
        assert(key_views(keys@) =~= member_keys(es, m));
    }
    let mut out: Vec<String> = Vec::new();
    let mut k: usize = 0;
    while k < order.len()
        invariant
            k <= order.len(),
            es == entry_views(entries@),
            m == places(members@),
            o == places(order@),
            are_members(es, name@, m),
            is_sorted_order(member_keys(es, m), o),
            out.len() == k,
            forall|a: int| 0 <= a < k ==> (#[trigger] out@[a])@ == es[m[o[a]]].id,
        decreases order.len() - k,
    {
        proof {
            assert(o[k as int] == order@[k as int]);
            assert(m[o[k as int]] == members@[order@[k as int] as int]);
            assert(es[m[o[k as int]]] == entries@[m[o[k as int]]]@);
        }
        out.push(copy(entries[members[order[k]]].id.as_str()));
        k = k + 1;
    }
    proof {
        assert(texts(out@) =~= o.map_values(|a: int| es[m[a]].id));
        assert(are_sorted_apps(es, name@, texts(out@)));
        if out.len() > 0 {
            assert(0 <= m[0] < es.len() && folder_of(es[m[0]]) == name@);
        }
        if has_apps(es, name@) {
            let i = choose|i: int| 0 <= i < es.len() && folder_of(#[trigger] es[i]) == name@;
            assert(m.contains(i));
        }
    }
    out
}

/// Group the catalog into folders, in the order in which they are shown. Empty
/// folders are left out; the apps of a folder are sorted by name, and those of
/// one name by id.
pub fn folders(entries: &[AppEntry]) -> (r: Vec<Folder>)
    ensures
        names_of(r@) == folder_names().filter(
            |n: Seq<char>| has_apps(entry_views(entries@), n),
        ),
        forall|k: int|
            0 <= k < r.len() ==> are_sorted_apps(
                entry_views(entries@),
                (#[trigger] r@[k]).name@,
                texts(r@[k].apps@),
            ),
{
    let ghost es = entry_views(entries@);
    let ghost keep = |n: Seq<char>| has_apps(entry_views(entries@), n);
    let mut out: Vec<Folder> = Vec::new();
    let mut i: usize = 0;
    proof {
        reveal(Seq::filter);
        assert(folder_names().take(0) =~= Seq::<Seq<char>>::empty());
    }
    while i < 11
        invariant
            i <= 11,
            es == entry_views(entries@),
            keep == (|n: Seq<char>| has_apps(entry_views(entries@), n)),
            names_of(out@) == folder_names().take(i as int).filter(keep),
            forall|k: int|
                0 <= k < out.len() ==> are_sorted_apps(
                    es,
                    (#[trigger] out@[k]).name@,
                    texts(out@[k].apps@),
                ),
        decreases 11 - i,
    {
        let ghost before = out@;
        let name: &'static str = folder_name(i);
        let apps: Vec<String> = sorted_apps(entries, name);
        proof {
            reveal(Seq::filter);
            let next = folder_names().take(i + 1);
            assert(next.drop_last() =~= folder_names().take(i as int));
            assert(next.last() == name@);
        }
        if apps.len() > 0 {
            out.push(Folder { name, apps });
            proof {
                assert(names_of(out@) =~= names_of(before).push(name@));
            }
        }
        i = i + 1;
    }
    proof {
        assert(folder_names().take(11) =~= folder_names());
    }
    out
}

/// Whether `fs` lists what `es` lists in another order: at each place what `es`
/// has at the place that `from` tells.
pub open spec fn is_rearranged(es: Seq<EntryView>, fs: Seq<EntryView>, from: Seq<int>) -> bool {
    &&& fs.len() == es.len() && from.len() == es.len()
    &&& forall|i: int|
        0 <= i < from.len() ==> 0 <= #[trigger] from[i] < es.len() && fs[i] == es[from[i]]
    &&& forall|i: int, j: int| 0 <= i < j < from.len() ==> #[trigger] from[i] != #[trigger] from[j]
}

proof fn lemma_rearranged_back(es: Seq<EntryView>, fs: Seq<EntryView>, from: Seq<int>) -> (back: Seq<
    int,
>)
    requires
        is_rearranged(es, fs, from),
    ensures
        is_rearranged(fs, es, back),
{
    lemma_different_numbers(from, es.len() as int);
    let back = Seq::new(es.len(), |v: int| choose|k: int| 0 <= k < from.len() && from[k] == v);
    assert forall|v: int| 0 <= v < back.len() implies 0 <= #[trigger] back[v] < fs.len()
        && from[back[v]] == v && es[v] == fs[back[v]] by {
        assert(from.contains(v));
    }
    back
}

/// Where the members of a folder stand among its members in another order.
proof fn lemma_members_rearranged(
    es: Seq<EntryView>,
    fs: Seq<EntryView>,
    from: Seq<int>,
    name: Seq<char>,
    m: Seq<int>,
    n: Seq<int>,
) -> (at: Seq<int>)
    requires
        is_rearranged(es, fs, from),
        are_members(es, name, m),
        are_members(fs, name, n),
    ensures
        at.len() == n.len(),
        forall|a: int|
            0 <= a < n.len() ==> 0 <= #[trigger] at[a] < m.len() && es[m[at[a]]] == fs[n[a]],
        forall|a: int, b: int| 0 <= a < b < at.len() ==> #[trigger] at[a] != #[trigger] at[b],
        n.len() <= m.len(),
{
    let at = Seq::new(n.len(), |a: int| choose|k: int| 0 <= k < m.len() && m[k] == from[n[a]]);
    assert forall|a: int| 0 <= a < n.len() implies 0 <= #[trigger] at[a] < m.len() && m[at[a]]
        == from[n[a]] && es[m[at[a]]] == fs[n[a]] by {
        assert(0 <= n[a] < fs.len() && folder_of(fs[n[a]]) == name);
        assert(0 <= from[n[a]] < es.len());
        assert(folder_of(es[from[n[a]]]) == name);
        assert(m.contains(from[n[a]]));
    }
    assert forall|a: int, b: int| 0 <= a < b < at.len() implies #[trigger] at[a] != #[trigger] at[b] by {
        assert(n[a] < n[b]);
        assert(0 <= n[a] && n[b] < fs.len());
        assert(from[n[a]] != from[n[b]]);
        assert(m[at[a]] == from[n[a]] && m[at[b]] == from[n[b]]);
    }
    lemma_different_numbers(at, m.len() as int);
    at
}

proof fn lemma_sorted_apps_rearranged(
    es: Seq<EntryView>,
    fs: Seq<EntryView>,
    from: Seq<int>,
    name: Seq<char>,
    x: Seq<Seq<char>>,
    y: Seq<Seq<char>>,
)
    requires
        is_rearranged(es, fs, from),
        are_sorted_apps(es, name, x),
        are_sorted_apps(fs, name, y),
    ensures
        x == y,
{
    let (m, o) = choose|m: Seq<int>, o: Seq<int>|
        {
            &&& #[trigger] are_members(es, name, m)
            &&& #[trigger] is_sorted_order(member_keys(es, m), o)
            &&& x == o.map_values(|a: int| es[m[a]].id)
        };
    let (n, u) = choose|n: Seq<int>, u: Seq<int>|
        {
            &&& #[trigger] are_members(fs, name, n)
            &&& #[trigger] is_sorted_order(member_keys(fs, n), u)
            &&& y == u.map_values(|a: int| fs[n[a]].id)
        };
    let back = lemma_rearranged_back(es, fs, from);
    let at = lemma_members_rearranged(es, fs, from, name, m, n);
    let _ = lemma_members_rearranged(fs, es, back, name, n, m);
    assert(m.len() == n.len());
    let keys = member_keys(es, m);
    let other = member_keys(fs, n);
    let q = u.map_values(|a: int| at[a]);
    assert forall|a: int| 0 <= a < q.len() implies 0 <= #[trigger] q[a] < keys.len() && keys[q[a]]
        == other[u[a]] by {
        assert(0 <= u[a] < other.len());
        assert(q[a] == at[u[a]]);
    }
    assert forall|a: int, b: int| 0 <= a < b < q.len() implies #[trigger] q[a] != #[trigger] q[b] by {
        assert(u[a] != u[b]);
        assert(0 <= u[a] < other.len() && 0 <= u[b] < other.len());
        assert(q[a] == at[u[a]] && q[b] == at[u[b]]);
        if u[a] < u[b] {
            assert(at[u[a]] != at[u[b]]);
        } else {
            assert(at[u[b]] != at[u[a]]);
        }
    }
    assert forall|a: int, b: int| 0 <= a < b < q.len() implies !goes_before(
        keys[#[trigger] q[b]],
        keys[#[trigger] q[a]],
    ) by {
        assert(!goes_before(other[u[b]], other[u[a]]));
    }
    assert(is_sorted_order(keys, q));
    assert forall|a: int| 0 <= a < x.len() implies x[a] == y[a] by {
        law_sorted_keys_are_decided(keys, o, q, a);
        assert(0 <= o[a] < keys.len());
        assert(0 <= u[a] < other.len());
        assert(keys[o[a]].second == es[m[o[a]]].id);
        assert(other[u[a]].second == fs[n[u[a]]].id);
        assert(keys[q[a]] == other[u[a]]);
    }
    assert(x =~= y);
}

/// The order in which a scan found the apps does not show: from the same apps in
/// another order come the same folders, each with the same row of apps.
pub proof fn law_order_of_the_scan_is_invisible(
    es: Seq<EntryView>,
    fs: Seq<EntryView>,
    from: Seq<int>,
)
    requires
        is_rearranged(es, fs, from),
    ensures
        folder_names().filter(|n: Seq<char>| has_apps(es, n)) == folder_names().filter(
            |n: Seq<char>| has_apps(fs, n),
        ),
        forall|name: Seq<char>, x: Seq<Seq<char>>, y: Seq<Seq<char>>| #[trigger]
            are_sorted_apps(es, name, x) && #[trigger] are_sorted_apps(fs, name, y) ==> x == y,
{
    let back = lemma_rearranged_back(es, fs, from);
    assert forall|name: Seq<char>| has_apps(es, name) == has_apps(fs, name) by {
        if has_apps(es, name) {
            let i = choose|i: int| 0 <= i < es.len() && folder_of(#[trigger] es[i]) == name;
            assert(0 <= back[i] < fs.len() && es[i] == fs[back[i]]);
        }
        if has_apps(fs, name) {
            let i = choose|i: int| 0 <= i < fs.len() && folder_of(#[trigger] fs[i]) == name;
            assert(0 <= from[i] < es.len() && fs[i] == es[from[i]]);
        }
    }
    let a = |n: Seq<char>| has_apps(es, n);
    let b = |n: Seq<char>| has_apps(fs, n);
    assert(a =~= b);
    assert forall|name: Seq<char>, x: Seq<Seq<char>>, y: Seq<Seq<char>>| #[trigger]
        are_sorted_apps(es, name, x) && #[trigger] are_sorted_apps(fs, name, y) implies x == y by {
        lemma_sorted_apps_rearranged(es, fs, from, name, x, y);
    }
}

/// An app goes to the folder of the best of the main categories that it declares:
/// sound and film before games, those before office, graphics, development,
/// science, the network, settings, the system and utilities; to the last folder
/// if it declares none of them.
pub proof fn law_best_category_decides_the_folder(e: AppEntry, r: &'static str)
    requires
        call_ensures(folder_for, (&e,), r),
        e.id@ != "Music Assistant"@,
    ensures
        ({
            let c = texts(e.categories@);
            &&& (c.contains("AudioVideo"@) || c.contains("Audio"@) || c.contains("Video"@)) ==> r@ == "Media"@
            &&& c.contains("Game"@) && !c.contains("AudioVideo"@) && !c.contains("Audio"@) && !c.contains("Video"@) ==> r@ == "Game"@
            &&& c.contains("Office"@) && !c.contains("AudioVideo"@) && !c.contains("Audio"@) && !c.contains("Video"@) && !c.contains("Game"@) ==> r@ == "Office"@
            &&& c.contains("Graphics"@) && !c.contains("AudioVideo"@) && !c.contains("Audio"@) && !c.contains("Video"@) && !c.contains("Game"@) && !c.contains("Office"@) ==> r@ == "Graphics"@
            &&& c.contains("Development"@) && !c.contains("AudioVideo"@) && !c.contains("Audio"@) && !c.contains("Video"@) && !c.contains("Game"@) && !c.contains("Office"@) && !c.contains("Graphics"@) ==> r@ == "Development"@
            &&& (c.contains("Science"@) || c.contains("Education"@)) && !c.contains("AudioVideo"@) && !c.contains("Audio"@) && !c.contains("Video"@) && !c.contains("Game"@) && !c.contains("Office"@) && !c.contains("Graphics"@) && !c.contains("Development"@) ==> r@ == "Science"@
            &&& c.contains("Network"@) && !c.contains("AudioVideo"@) && !c.contains("Audio"@) && !c.contains("Video"@) && !c.contains("Game"@) && !c.contains("Office"@) && !c.contains("Graphics"@) && !c.contains("Development"@) && !c.contains("Science"@) && !c.contains("Education"@) ==> r@ == "Network"@
            &&& c.contains("Settings"@) && !c.contains("AudioVideo"@) && !c.contains("Audio"@) && !c.contains("Video"@) && !c.contains("Game"@) && !c.contains("Office"@) && !c.contains("Graphics"@) && !c.contains("Development"@) && !c.contains("Science"@) && !c.contains("Education"@) && !c.contains("Network"@) ==> r@ == "Settings"@
            &&& c.contains("System"@) && !c.contains("AudioVideo"@) && !c.contains("Audio"@) && !c.contains("Video"@) && !c.contains("Game"@) && !c.contains("Office"@) && !c.contains("Graphics"@) && !c.contains("Development"@) && !c.contains("Science"@) && !c.contains("Education"@) && !c.contains("Network"@) && !c.contains("Settings"@) ==> r@ == "System"@
            &&& c.contains("Utility"@) && !c.contains("AudioVideo"@) && !c.contains("Audio"@) && !c.contains("Video"@) && !c.contains("Game"@) && !c.contains("Office"@) && !c.contains("Graphics"@) && !c.contains("Development"@) && !c.contains("Science"@) && !c.contains("Education"@) && !c.contains("Network"@) && !c.contains("Settings"@) && !c.contains("System"@) ==> r@ == "Utility"@
            &&& !c.contains("AudioVideo"@) && !c.contains("Audio"@) && !c.contains("Video"@) && !c.contains("Game"@) && !c.contains("Office"@) && !c.contains("Graphics"@) && !c.contains("Development"@) && !c.contains("Science"@) && !c.contains("Education"@) && !c.contains("Network"@) && !c.contains("Settings"@) && !c.contains("System"@) && !c.contains("Utility"@) ==> r@ == "Other"@
        }),
{
    let c = texts(e.categories@);
    assert(e@.categories == c);
    reveal_with_fuel(folder_of_main, 15);
}

/// An app that its categories would put somewhere useless has a folder of its
/// own accord.
pub proof fn law_overridden_app_has_its_folder(e: AppEntry, r: &'static str)
    requires
        call_ensures(folder_for, (&e,), r),
        e.id@ == "Music Assistant"@,
    ensures
        r@ == "Media"@,
{
}

/// A folder lists an app exactly if the app belongs in it.
pub proof fn law_folder_lists_its_apps(entries: &[AppEntry], r: Vec<Folder>, k: int, id: Seq<char>)
    requires
        call_ensures(folders, (entries,), r),
        0 <= k < r@.len(),
    ensures
        texts(r@[k].apps@).contains(id) <==> exists|i: int|
            0 <= i < entries@.len() && (#[trigger] entries@[i])@.id == id && folder_of(entries@[i]@)
                == r@[k].name@,
{
    let es = entry_views(entries@);
    let name = r@[k].name@;
    let apps = texts(r@[k].apps@);
    let (m, o) = choose|m: Seq<int>, o: Seq<int>|
        {
            &&& #[trigger] are_members(es, name, m)
            &&& #[trigger] is_sorted_order(member_keys(es, m), o)
            &&& apps == o.map_values(|a: int| es[m[a]].id)
        };
    if apps.contains(id) {
        let a = choose|a: int| 0 <= a < apps.len() && apps[a] == id;
        assert(0 <= o[a] < member_keys(es, m).len());
        assert(0 <= m[o[a]] < es.len() && folder_of(es[m[o[a]]]) == name);
        assert(es[m[o[a]]] == entries@[m[o[a]]]@);
    }
    if exists|i: int|
        0 <= i < entries@.len() && (#[trigger] entries@[i])@.id == id && folder_of(entries@[i]@) == name {
        let i = choose|i: int|
            0 <= i < entries@.len() && (#[trigger] entries@[i])@.id == id && folder_of(entries@[i]@)
                == name;
        assert(es[i] == entries@[i]@);
        assert(m.contains(i));
        let j = choose|j: int| 0 <= j < m.len() && m[j] == i;
        crate::sorting::law_every_place_is_listed(member_keys(es, m), o, j);
        let a = choose|a: int| 0 <= a < o.len() && o[a] == j;
        assert(apps[a] == id);
    }
}

/// The apps of a folder come by their names, and those of one name by their ids.
pub proof fn law_apps_come_by_name(entries: &[AppEntry], r: Vec<Folder>, k: int, a: int, b: int)
    requires
        call_ensures(folders, (entries,), r),
        0 <= k < r@.len(),
        0 <= a < b < r@[k].apps@.len(),
    ensures
        exists|i: int, j: int|
            0 <= i < entries@.len() && 0 <= j < entries@.len() && (#[trigger] entries@[i])@.id
                == r@[k].apps@[a]@ && (#[trigger] entries@[j])@.id == r@[k].apps@[b]@ && !crate::text::before(
                entries@[j]@.name,
                entries@[i]@.name,
            ) && (entries@[i]@.name == entries@[j]@.name ==> !crate::text::before(
                entries@[j]@.id,
                entries@[i]@.id,
            )),
{
    let es = entry_views(entries@);
    let name = r@[k].name@;
    let apps = texts(r@[k].apps@);
    let (m, o) = choose|m: Seq<int>, o: Seq<int>|
        {
            &&& #[trigger] are_members(es, name, m)
            &&& #[trigger] is_sorted_order(member_keys(es, m), o)
            &&& apps == o.map_values(|a: int| es[m[a]].id)
        };
    let keys = member_keys(es, m);
    assert(apps.len() == r@[k].apps@.len() && o.len() == apps.len());
    assert(apps[a] == r@[k].apps@[a]@ && apps[b] == r@[k].apps@[b]@);
    assert(0 <= o[a] < keys.len() && 0 <= o[b] < keys.len());
    assert(0 <= m[o[a]] < es.len() && 0 <= m[o[b]] < es.len());
    assert(!goes_before(keys[o[b]], keys[o[a]]));
    assert(keys[o[a]] == member_key(es[m[o[a]]]));
    assert(keys[o[b]] == member_key(es[m[o[b]]]));
    let i = m[o[a]];
    let j = m[o[b]];
    assert(es[i] == entries@[i]@ && es[j] == entries@[j]@);
}

/// A folder is shown exactly if an app belongs in it, and no folder twice.
pub proof fn law_folder_with_an_app_is_shown(entries: &[AppEntry], r: Vec<Folder>, i: int)
    requires
        call_ensures(folders, (entries,), r),
        0 <= i < entries@.len(),
    ensures
        exists|k: int| 0 <= k < r@.len() && (#[trigger] r@[k]).name@ == folder_of(entries@[i]@),
        forall|k: int| 0 <= k < r@.len() ==> (#[trigger] r@[k]).apps@.len() > 0,
{
    let es = entry_views(entries@);
    let keep = |n: Seq<char>| has_apps(entry_views(entries@), n);
    let name = folder_of(entries@[i]@);
    assert(es[i] == entries@[i]@);
    law_every_app_has_a_folder(es[i]);
    assert(has_apps(es, name));
    assert(keep(name));
    let at = choose|at: int| 0 <= at < folder_names().len() && folder_names()[at] == name;
    folder_names().lemma_filter_contains(keep, at);
    let shown = folder_names().filter(keep);
    let k = choose|k: int| 0 <= k < shown.len() && shown[k] == name;
    assert(names_of(r@)[k] == r@[k].name@);
    assert forall|k: int| 0 <= k < r@.len() implies (#[trigger] r@[k]).apps@.len() > 0 by {
        assert(names_of(r@)[k] == r@[k].name@);
        folder_names().lemma_filter_pred(keep, k);
        assert(has_apps(es, r@[k].name@));
        let j = choose|j: int| 0 <= j < es.len() && folder_of(#[trigger] es[j]) == r@[k].name@;
        law_folder_lists_its_apps(entries, r, k, es[j].id);
        assert(es[j] == entries@[j]@);
        assert(entries@[j]@.id == es[j].id);
        assert(texts(r@[k].apps@).contains(es[j].id));
        assert(texts(r@[k].apps@).len() == r@[k].apps@.len());
    }
}

/// The folders come in their order: media, the network, office, graphics,
/// development, games, science, utilities, the system, settings, and the rest.
pub proof fn law_folders_come_in_their_order(i: usize, r: &'static str)
    requires
        i < 11,
        call_ensures(folder_name, (i,), r),
    ensures
        r@ == (if i == 0 {
            "Media"@
        } else if i == 1 {
            "Network"@
        } else if i == 2 {
            "Office"@
        } else if i == 3 {
            "Graphics"@
        } else if i == 4 {
            "Development"@
        } else if i == 5 {
            "Game"@
        } else if i == 6 {
            "Science"@
        } else if i == 7 {
            "Utility"@
        } else if i == 8 {
            "System"@
        } else if i == 9 {
            "Settings"@
        } else {
            "Other"@
        }),
{
}

} // verus!
