//! Entry projection and diff engine.
//!
//! The projection keeps only the entries of a fragment sequence, in order,
//! and sorts them ascending by id, ties keeping their original order. The
//! diff engine reports, for a pair of such projections, the ids duplicated
//! within each one and the symmetric set difference of their id sets; every
//! reported list is strictly ascending.

use vstd::prelude::*;
use vstd::seq_lib::group_to_multiset_ensures;
use crate::tra_structs::{
    SpecEntry, SpecFragment, SpecEntryContent, SpecExplicitEntry, SpecStringLit, SpecWeiduString,
    TraComment, TraEntry, TraEntryContent, ExplicitTraEntry, TraFragment, WeiduString,
    WeiduStringLit,
};

verus! {

/// View of an entry list.
pub open spec fn view_entries(s: Seq<TraEntry>) -> Seq<SpecEntry> {
    s.map_values(|e: TraEntry| e@)
}

/// The entries of a fragment sequence, in order; comments and error
/// placeholders are discarded.
pub open spec fn spec_entries_of(frags: Seq<SpecFragment>) -> Seq<SpecEntry>
    decreases frags.len(),
{
    if frags.len() == 0 {
        Seq::empty()
    } else {
        let rest = spec_entries_of(frags.drop_last());
        match frags.last() {
            SpecFragment::Entry(e) => rest.push(e),
            _ => rest,
        }
    }
}

/// `e` inserted into `sorted` after every element whose id is at most
/// `e.id`: the insertion step of a stable sort by ascending id.
pub open spec fn spec_insert_sorted(sorted: Seq<SpecEntry>, e: SpecEntry) -> Seq<SpecEntry>
    decreases sorted.len(),
{
    if sorted.len() == 0 {
        seq![e]
    } else if sorted.last().id <= e.id {
        sorted.push(e)
    } else {
        spec_insert_sorted(sorted.drop_last(), e).push(sorted.last())
    }
}

/// The stable sort of an entry sequence by ascending id: each element in
/// turn inserted after its equals.
pub open spec fn spec_sort_entries(s: Seq<SpecEntry>) -> Seq<SpecEntry>
    decreases s.len(),
{
    if s.len() == 0 {
        Seq::empty()
    } else {
        spec_insert_sorted(spec_sort_entries(s.drop_last()), s.last())
    }
}

/// Ascending (not necessarily strict) order on entry ids.
pub open spec fn sorted_by_id(s: Seq<SpecEntry>) -> bool {
    forall|i: int, j: int| 0 <= i < j < s.len() ==> s[i].id <= s[j].id
}

/// Strictly ascending order on an id list.
pub open spec fn strictly_sorted(s: Seq<i64>) -> bool {
    forall|i: int, j: int| 0 <= i < j < s.len() ==> s[i] < s[j]
}

/// How many entries of `s` carry the id `id`.
pub open spec fn count_id(s: Seq<SpecEntry>, id: int) -> nat
    decreases s.len(),
{
    if s.len() == 0 {
        0
    } else {
        count_id(s.drop_last(), id) + if s.last().id == id {
            1nat
        } else {
            0nat
        }
    }
}

/// The set of distinct ids present in an entry sequence.
pub open spec fn id_set(s: Seq<SpecEntry>) -> Set<int> {
    Set::new(|id: int| exists|j: int| 0 <= j < s.len() && s[j].id == id)
}

/// Ids present in the second sequence but not in the first.
pub open spec fn added_id_set(first: Seq<SpecEntry>, second: Seq<SpecEntry>) -> Set<int> {
    id_set(second).difference(id_set(first))
}

/// Ids present in the first sequence but not in the second.
pub open spec fn removed_id_set(first: Seq<SpecEntry>, second: Seq<SpecEntry>) -> Set<int> {
    id_set(first).difference(id_set(second))
}

/// Inserting keeps every element and adds the new one: the sort changes no
/// entry, only the order.
pub proof fn lemma_insert_sorted_multiset(sorted: Seq<SpecEntry>, e: SpecEntry)
    ensures
        spec_insert_sorted(sorted, e).to_multiset() =~= sorted.to_multiset().insert(e),
    decreases sorted.len(),
{
    broadcast use group_to_multiset_ensures;

    if sorted.len() == 0 {
        assert(seq![e] =~= Seq::<SpecEntry>::empty().push(e));
    } else if sorted.last().id <= e.id {
    } else {
        lemma_insert_sorted_multiset(sorted.drop_last(), e);
        assert(sorted =~= sorted.drop_last().push(sorted.last()));
        assert(spec_insert_sorted(sorted.drop_last(), e).push(sorted.last()).to_multiset()
            =~= sorted.drop_last().to_multiset().insert(e).insert(sorted.last()));
        assert(sorted.drop_last().to_multiset().insert(e).insert(sorted.last())
            =~= sorted.drop_last().to_multiset().insert(sorted.last()).insert(e));
    }
}

/// Inserting into a sorted sequence keeps it sorted.
pub proof fn lemma_insert_sorted_sorted(sorted: Seq<SpecEntry>, e: SpecEntry)
    requires
        sorted_by_id(sorted),
    ensures
        sorted_by_id(spec_insert_sorted(sorted, e)),
    decreases sorted.len(),
{
    if sorted.len() == 0 {
    } else if sorted.last().id <= e.id {
    } else {
        assert(sorted_by_id(sorted.drop_last()));
        lemma_insert_sorted_sorted(sorted.drop_last(), e);
        lemma_insert_sorted_multiset(sorted.drop_last(), e);
        broadcast use group_to_multiset_ensures;

        let r = spec_insert_sorted(sorted.drop_last(), e);
        assert forall|x: SpecEntry| r.contains(x) implies x.id <= sorted.last().id by {
            assert(r.to_multiset().count(x) > 0);
            assert(sorted.drop_last().to_multiset().insert(e).count(x) > 0);
            if x != e {
                assert(sorted.drop_last().to_multiset().count(x) > 0);
                assert(sorted.drop_last().contains(x));
                let j = choose|j: int|
                    0 <= j < sorted.drop_last().len() && sorted.drop_last()[j] == x;
                assert(sorted[j] == x);
                assert(x.id <= sorted.last().id);
            } else {
                assert(e.id <= sorted.last().id);
            }
        }
        assert forall|i: int, j: int|
            0 <= i < j < spec_insert_sorted(sorted, e).len() implies spec_insert_sorted(
            sorted,
            e,
        )[i].id <= spec_insert_sorted(sorted, e)[j].id by {
            let rr = spec_insert_sorted(sorted, e);
            assert(rr == r.push(sorted.last()));
            if j < r.len() {
            } else {
                assert(rr[j] == sorted.last());
                assert(r.contains(r[i]));
            }
        }
    }
}

/// The sorted projection is sorted ascending by id: in particular no two
/// adjacent entries are out of order.
pub proof fn lemma_sort_entries_sorted(s: Seq<SpecEntry>)
    ensures
        sorted_by_id(spec_sort_entries(s)),
        forall|i: int|
            0 <= i && i + 1 < spec_sort_entries(s).len() ==> #[trigger] spec_sort_entries(
                s,
            )[i].id <= spec_sort_entries(s)[i + 1].id,
    decreases s.len(),
{
    if s.len() > 0 {
        lemma_sort_entries_sorted(s.drop_last());
        lemma_insert_sorted_sorted(spec_sort_entries(s.drop_last()), s.last());
    }
}

/// Sorting keeps exactly the original entries.
pub proof fn lemma_sort_entries_multiset(s: Seq<SpecEntry>)
    ensures
        spec_sort_entries(s).to_multiset() =~= s.to_multiset(),
    decreases s.len(),
{
    broadcast use group_to_multiset_ensures;

    if s.len() > 0 {
        lemma_sort_entries_multiset(s.drop_last());
        lemma_insert_sorted_multiset(spec_sort_entries(s.drop_last()), s.last());
        assert(s =~= s.drop_last().push(s.last()));
        assert(s.drop_last().push(s.last()).to_multiset() =~= s.drop_last().to_multiset().insert(
            s.last(),
        ));
    }
}

/// Comparing an entry list with itself yields no added and no removed ids.
pub proof fn lemma_diff_self(s: Seq<SpecEntry>)
    ensures
        added_id_set(s, s) =~= Set::<int>::empty(),
        removed_id_set(s, s) =~= Set::<int>::empty(),
{
}

/// Any strictly ascending id list whose members are exactly the members of
/// the empty set is itself empty: the reported lists of a self-comparison
/// are empty.
pub proof fn lemma_empty_characterization(s: Seq<SpecEntry>, r: Seq<i64>)
    requires
        forall|id: i64| r.contains(id) <==> added_id_set(s, s).contains(id as int),
    ensures
        r =~= Seq::<i64>::empty(),
{
    lemma_diff_self(s);
    if r.len() > 0 {
        assert(r.contains(r[0]));
    }
}

/// The set difference is antisymmetric: what one order reports as added,
/// the other reports as removed, and the other way round.
pub proof fn lemma_diff_antisymmetric(a: Seq<SpecEntry>, b: Seq<SpecEntry>)
    ensures
        added_id_set(a, b) =~= removed_id_set(b, a),
        removed_id_set(a, b) =~= added_id_set(b, a),
{
}

/// An exact copy of a string literal.
fn clone_lit(l: &WeiduStringLit) -> (r: WeiduStringLit)
    ensures
        r@ == l@,
{
    match l {
        WeiduStringLit::Tilde(s) => WeiduStringLit::Tilde(s.clone()),
        WeiduStringLit::DoubleQuote(s) => WeiduStringLit::DoubleQuote(s.clone()),
        WeiduStringLit::Percent(s) => WeiduStringLit::Percent(s.clone()),
        WeiduStringLit::FiveTildes(s) => WeiduStringLit::FiveTildes(s.clone()),
    }
}

/// An exact copy of a string value.
fn clone_ws(w: &WeiduString) -> (r: WeiduString)
    ensures
        r@ == w@,
    decreases w,
{
    match w {
        WeiduString::Literal(l) => WeiduString::Literal(clone_lit(l)),
        WeiduString::At(id) => WeiduString::At(*id),
        WeiduString::Ref(n) => WeiduString::Ref(*n),
        WeiduString::Concat(left, lit) => WeiduString::Concat(
            Box::new(clone_ws(left)),
            Box::new(clone_lit(lit)),
        ),
    }
}

fn clone_opt_string(o: &Option<String>) -> (r: Option<String>)
    ensures
        match (o, &r) {
            (Some(a), Some(b)) => a@ == b@,
            (None, None) => true,
            _ => false,
        },
{
    match o {
        Some(s) => Some(s.clone()),
        None => None,
    }
}

/// An exact copy of an entry.
fn clone_entry(e: &TraEntry) -> (r: TraEntry)
    ensures
        r@ == e@,
{
    let content = match &e.content {
        TraEntryContent::At(id) => TraEntryContent::At(*id),
        TraEntryContent::Tlk(n) => TraEntryContent::Tlk(*n),
        TraEntryContent::Explicit(x) => TraEntryContent::Explicit(
            ExplicitTraEntry {
                value: clone_ws(&x.value),
                sound: clone_opt_string(&x.sound),
                alt_value: match &x.alt_value {
                    Some(w) => Some(clone_ws(w)),
                    None => None,
                },
                alt_sound: clone_opt_string(&x.alt_sound),
            },
        ),
    };
    TraEntry { id: e.id, content }
}

/// Keeps only the entries of a fragment list, in their original order.
pub fn entries_of(fragments: &Vec<TraFragment>) -> (entries: Vec<TraEntry>)
    ensures
        view_entries(entries@) == spec_entries_of(
            fragments@.map_values(|f: TraFragment| f@),
        ),
{
    let ghost gf = fragments@.map_values(|f: TraFragment| f@);
    let mut entries: Vec<TraEntry> = Vec::new();
    let mut i: usize = 0;
    proof {
        assert(view_entries(entries@) =~= spec_entries_of(gf.take(0)));
    }
    loop
        invariant
            i <= fragments@.len(),
            gf == fragments@.map_values(|f: TraFragment| f@),
            view_entries(entries@) == spec_entries_of(gf.take(i as int)),
        decreases fragments@.len() - i,
    {
        if i >= fragments.len() {
            proof {
                assert(gf.take(i as int) =~= gf);
            }
            return entries;
        }
        let ghost ev = view_entries(entries@);
        proof {
            assert(gf.take(i + 1).drop_last() =~= gf.take(i as int));
            assert(gf.take(i + 1).last() == gf[i as int]);
        }
        match fragments[i].as_entry() {
            Some(e) => {
                let ghost evv = e@;
                entries.push(clone_entry(e));
                proof {
                    assert(view_entries(entries@) =~= ev.push(evv));
                }
            },
            None => {},
        }
        i = i + 1;
    }
}

/// Inserts an entry into a vector sorted ascending by id, after every
/// element whose id is at most its own.
fn insert_entry_sorted(entries: &mut Vec<TraEntry>, e: TraEntry)
    ensures
        view_entries(final(entries)@) == spec_insert_sorted(view_entries(old(entries)@), e@),
{
    let ghost s = view_entries(entries@);
    let ghost ev = e@;
    let mut k: usize = entries.len();
    proof {
        assert(s.take(k as int) =~= s);
        assert(s.skip(k as int) =~= Seq::<SpecEntry>::empty());
        assert(spec_insert_sorted(s, ev) + s.skip(k as int) =~= spec_insert_sorted(s, ev));
    }
    loop
        invariant
            k <= entries@.len(),
            s == view_entries(entries@),
            entries@ == old(entries)@,
            ev == e@,
            spec_insert_sorted(s, ev) == spec_insert_sorted(s.take(k as int), ev) + s.skip(
                k as int,
            ),
        ensures
            k <= entries@.len(),
            s == view_entries(entries@),
            entries@ == old(entries)@,
            spec_insert_sorted(s, ev) == s.take(k as int).push(ev) + s.skip(k as int),
        decreases k,
    {
        if k == 0 {
            proof {
                assert(s.take(0int) =~= Seq::<SpecEntry>::empty());
                assert(spec_insert_sorted(s.take(0int), ev) =~= seq![ev]);
                assert(seq![ev] =~= s.take(0int).push(ev));
            }
            break ;
        }
        proof {
            assert(s.take(k as int).drop_last() =~= s.take(k - 1));
            assert(s.take(k as int).last() == s[k - 1]);
        }
        if entries[k - 1].id <= e.id {
            proof {
                assert(spec_insert_sorted(s.take(k as int), ev) == s.take(k as int).push(ev));
            }
            break ;
        }
        proof {
            assert(spec_insert_sorted(s.take(k as int), ev) == spec_insert_sorted(
                s.take(k - 1),
                ev,
            ).push(s[k - 1]));
            assert(spec_insert_sorted(s.take(k - 1), ev).push(s[k - 1]) + s.skip(k as int)
                =~= spec_insert_sorted(s.take(k - 1), ev) + s.skip(k - 1));
        }
        k = k - 1;
    }
    entries.insert(k, e);
    proof {
        assert(view_entries(entries@) =~= s.take(k as int).push(ev) + s.skip(k as int));
    }
}

/// Sorts an entry list ascending by id; entries with equal ids keep their
/// original order, and no entry is added, dropped or changed.
pub fn sort_entries(entries: Vec<TraEntry>) -> (sorted: Vec<TraEntry>)
    ensures
        view_entries(sorted@) == spec_sort_entries(view_entries(entries@)),
        sorted_by_id(view_entries(sorted@)),
        view_entries(sorted@).to_multiset() == view_entries(entries@).to_multiset(),
{
    let ghost s = view_entries(entries@);
    let mut sorted: Vec<TraEntry> = Vec::new();
    let mut i: usize = 0;
    proof {
        assert(view_entries(sorted@) =~= spec_sort_entries(s.take(0)));
    }
    let n = entries.len();
    let mut input = entries;
    // Consume the input from the front so each element moves, never clones.
    loop
        invariant
            i <= n,
            n == s.len(),
            input@.len() == n - i,
            view_entries(input@) == s.skip(i as int),
            view_entries(sorted@) == spec_sort_entries(s.take(i as int)),
        ensures
            i == n,
            view_entries(sorted@) == spec_sort_entries(s.take(i as int)),
        decreases n - i,
    {
        if i >= n {
            break ;
        }
        let ghost iv = view_entries(input@);
        let e = input.remove(0);
        proof {
            assert(e@ == iv[0]);
            assert(iv[0] == s.skip(i as int)[0]);
            assert(s.skip(i as int)[0] == s[i as int]);
            assert(view_entries(input@) =~= iv.drop_first());
            assert(iv.drop_first() =~= s.skip(i + 1));
            assert(s.take(i + 1).drop_last() =~= s.take(i as int));
            assert(s.take(i + 1).last() == s[i as int]);
        }
        insert_entry_sorted(&mut sorted, e);
        i = i + 1;
    }
    proof {
        assert(s.take(n as int) =~= s);
        lemma_sort_entries_sorted(s);
        lemma_sort_entries_multiset(s);
    }
    sorted
}

/// The sorted entry projection of a fragment list: only the entries, in
/// ascending id order, ties keeping their original order.
pub fn project_entries(fragments: &Vec<TraFragment>) -> (entries: Vec<TraEntry>)
    ensures
        view_entries(entries@) == spec_sort_entries(
            spec_entries_of(fragments@.map_values(|f: TraFragment| f@)),
        ),
        sorted_by_id(view_entries(entries@)),
{
    let kept = entries_of(fragments);
    proof {
        lemma_sort_entries_sorted(view_entries(kept@));
    }
    sort_entries(kept)
}


/// A pushed element joins the members; nothing else changes.
proof fn lemma_push_contains_i64(s: Seq<i64>, x: i64)
    ensures
        forall|y: i64| #[trigger] s.push(x).contains(y) <==> s.contains(y) || y == x,
{
    assert forall|y: i64| #[trigger] s.push(x).contains(y) <==> s.contains(y) || y == x by {
        if s.push(x).contains(y) {
            let k = choose|k: int| 0 <= k < s.push(x).len() && s.push(x)[k] == y;
            if k < s.len() {
                assert(s[k] == y);
            }
        }
        if s.contains(y) {
            let k = choose|k: int| 0 <= k < s.len() && s[k] == y;
            assert(s.push(x)[k] == y);
        }
        if y == x {
            assert(s.push(x)[s.len() as int] == y);
        }
    }
}

/// Two entries with this id stand next to each other somewhere before
/// offset `upto`.
pub open spec fn has_adjacent_dup(s: Seq<SpecEntry>, upto: int, id: int) -> bool {
    exists|j: int| 0 <= j && j + 1 < upto && #[trigger] s[j].id == id && s[j + 1].id == id
}

/// No id occurs more often than the sequence is long.
pub proof fn lemma_count_le(s: Seq<SpecEntry>, id: int)
    ensures
        count_id(s, id) <= s.len(),
    decreases s.len(),
{
    if s.len() > 0 {
        lemma_count_le(s.drop_last(), id);
    }
}

/// An entry with the id makes its count positive.
pub proof fn lemma_count_one(s: Seq<SpecEntry>, id: int, j: int)
    requires
        0 <= j < s.len(),
        s[j].id == id,
    ensures
        count_id(s, id) >= 1,
    decreases s.len(),
{
    if j < s.len() - 1 {
        lemma_count_one(s.drop_last(), id, j);
    }
}

/// Two entries with the id make its count at least two.
pub proof fn lemma_count_two(s: Seq<SpecEntry>, id: int, j: int, k: int)
    requires
        0 <= j < k < s.len(),
        s[j].id == id,
        s[k].id == id,
    ensures
        count_id(s, id) >= 2,
    decreases s.len(),
{
    if k == s.len() - 1 {
        lemma_count_one(s.drop_last(), id, j);
    } else {
        lemma_count_two(s.drop_last(), id, j, k);
    }
}

/// A positive count names an entry with the id.
pub proof fn lemma_count_pos(s: Seq<SpecEntry>, id: int)
    requires
        count_id(s, id) >= 1,
    ensures
        exists|j: int| 0 <= j < s.len() && s[j].id == id,
    decreases s.len(),
{
    if s.len() > 0 {
        if s.last().id == id {
            assert(s[s.len() - 1].id == id);
        } else {
            lemma_count_pos(s.drop_last(), id);
            let j = choose|j: int| 0 <= j < s.drop_last().len() && #[trigger] s.drop_last()[j].id == id;
            assert(s[j].id == id);
        }
    }
}

/// In a sequence sorted by id, a duplicated id occurs at two adjacent
/// offsets.
pub proof fn lemma_sorted_dup_adjacent(s: Seq<SpecEntry>, id: int)
    requires
        sorted_by_id(s),
        count_id(s, id) >= 2,
    ensures
        has_adjacent_dup(s, s.len() as int, id),
    decreases s.len(),
{
    lemma_count_le(s, id);
    if s.last().id == id {
        lemma_count_pos(s.drop_last(), id);
        let j = choose|j: int| 0 <= j < s.drop_last().len() && #[trigger] s.drop_last()[j].id == id;
        assert(s[j].id == id);
        assert(s[s.len() - 2].id == id);
        assert(s[s.len() - 2].id == id && s[s.len() - 1].id == id);
    } else {
        assert(sorted_by_id(s.drop_last()));
        lemma_sorted_dup_adjacent(s.drop_last(), id);
        let j = choose|j: int|
            0 <= j && j + 1 < s.drop_last().len() && #[trigger] s.drop_last()[j].id == id
                && s.drop_last()[j + 1].id == id;
        assert(0 <= j && j + 1 < s.len() && s[j].id == id && s[j + 1].id == id);
    }
}

/// The distinct ids of one more entry: the previous ids plus its own.
pub proof fn lemma_id_set_take_step(s: Seq<SpecEntry>, i: int)
    requires
        0 <= i < s.len(),
    ensures
        forall|id: int|
            #[trigger] id_set(s.take(i + 1)).contains(id) <==> id_set(s.take(i)).contains(id)
                || id == s[i].id,
{
    assert forall|id: int|
        #[trigger] id_set(s.take(i + 1)).contains(id) <==> id_set(s.take(i)).contains(id) || id
            == s[i].id by {
        if id_set(s.take(i + 1)).contains(id) {
            let j = choose|j: int| 0 <= j < s.take(i + 1).len() && #[trigger] s.take(i + 1)[j].id == id;
            if j < i {
                assert(s.take(i)[j].id == id);
            } else {
                assert(id == s[i].id);
            }
        }
        if id_set(s.take(i)).contains(id) {
            let j = choose|j: int| 0 <= j < s.take(i).len() && #[trigger] s.take(i)[j].id == id;
            assert(s.take(i + 1)[j].id == id);
        }
        if id == s[i].id {
            assert(s.take(i + 1)[i].id == id);
        }
    }
}

/// The ids duplicated in an entry list sorted ascending by id: every id
/// carried by more than one entry, each reported once, in ascending order.
pub fn duplicated_ids(entries: &Vec<TraEntry>) -> (dups: Vec<i64>)
    requires
        sorted_by_id(view_entries(entries@)),
    ensures
        strictly_sorted(dups@),
        forall|id: i64|
            #[trigger] dups@.contains(id) <==> count_id(view_entries(entries@), id as int) >= 2,
{
    let ghost s = view_entries(entries@);
    let mut dups: Vec<i64> = Vec::new();
    let n = entries.len();
    if n < 2 {
        proof {
            assert forall|id: i64| !(count_id(s, id as int) >= 2) by {
                lemma_count_le(s, id as int);
            }
        }
        return dups;
    }
    let mut i: usize = 1;
    loop
        invariant
            1 <= i <= n,
            n == s.len(),
            s == view_entries(entries@),
            sorted_by_id(s),
            strictly_sorted(dups@),
            forall|id: i64| #[trigger] dups@.contains(id) <==> has_adjacent_dup(s, i as int, id as int),
            dups@.len() > 0 ==> dups@.last() <= s[i - 1].id,
        ensures
            i == n,
            strictly_sorted(dups@),
            forall|id: i64| #[trigger] dups@.contains(id) <==> has_adjacent_dup(s, i as int, id as int),
        decreases n - i,
    {
        if i >= n {
            break ;
        }
        let ghost dv = dups@;
        let prev = entries[i - 1].id;
        let cur = entries[i].id;
        if prev == cur && (dups.len() == 0 || dups[dups.len() - 1] != cur) {
            dups.push(cur);
            proof {
                lemma_push_contains_i64(dv, cur);
                assert(s[i - 1].id == cur as int && s[i as int].id == cur as int);
                assert forall|id: i64|
                    #[trigger] dups@.contains(id) <==> has_adjacent_dup(
                    s,
                    i + 1,
                    id as int,
                ) by {
                    if dups@.contains(id) {
                        if dv.contains(id) {
                            let j = choose|j: int|
                                0 <= j && j + 1 < i && #[trigger] s[j].id == id as int && s[j + 1].id
                                    == id as int;
                            assert(has_adjacent_dup(s, i + 1, id as int));
                        } else {
                            assert(id == cur);
                            assert(has_adjacent_dup(s, i + 1, id as int));
                        }
                    }
                    if has_adjacent_dup(s, i + 1, id as int) {
                        let j = choose|j: int|
                            0 <= j && j + 1 < i + 1 && #[trigger] s[j].id == id as int && s[j + 1].id
                                == id as int;
                        if j + 1 < i {
                            assert(dv.contains(id));
                            assert(dups@.contains(id));
                        } else {
                            assert(id == cur);
                            assert(dups@[dups@.len() - 1] == cur);
                            assert(dups@.contains(cur));
                        }
                    }
                }
            }
        } else {
            proof {
                assert forall|id: i64|
                    #[trigger] dups@.contains(id) <==> has_adjacent_dup(
                    s,
                    i + 1,
                    id as int,
                ) by {
                    if dups@.contains(id) {
                        let j = choose|j: int|
                            0 <= j && j + 1 < i && #[trigger] s[j].id == id as int && s[j + 1].id == id as int;
                        assert(has_adjacent_dup(s, i + 1, id as int));
                    }
                    if has_adjacent_dup(s, i + 1, id as int) {
                        let j = choose|j: int|
                            0 <= j && j + 1 < i + 1 && #[trigger] s[j].id == id as int && s[j + 1].id
                                == id as int;
                        if j + 1 < i {
                            assert(dups@.contains(id));
                        } else {
                            assert(s[i - 1].id == id as int && s[i as int].id == id as int);
                            if prev == cur {
                                assert(dups@[dups@.len() - 1] == cur);
                                assert(dups@.contains(id));
                            }
                        }
                    }
                }
            }
        }
        i = i + 1;
    }
    proof {
        assert forall|id: i64|
            #[trigger] dups@.contains(id) <==> count_id(s, id as int) >= 2 by {
            if dups@.contains(id) {
                let j = choose|j: int|
                    0 <= j && j + 1 < s.len() && #[trigger] s[j].id == id as int && s[j + 1].id == id as int;
                lemma_count_two(s, id as int, j, j + 1);
            }
            if count_id(s, id as int) >= 2 {
                lemma_sorted_dup_adjacent(s, id as int);
            }
        }
    }
    dups
}

/// Whether any entry of the list carries the id.
fn contains_id(entries: &Vec<TraEntry>, id: i64) -> (b: bool)
    ensures
        b == id_set(view_entries(entries@)).contains(id as int),
{
    let ghost s = view_entries(entries@);
    let mut i: usize = 0;
    loop
        invariant
            i <= entries@.len(),
            s == view_entries(entries@),
            forall|j: int| 0 <= j < i ==> s[j].id != id as int,
        decreases entries@.len() - i,
    {
        if i >= entries.len() {
            proof {
                if id_set(s).contains(id as int) {
                    let j = choose|j: int| 0 <= j < s.len() && #[trigger] s[j].id == id as int;
                }
            }
            return false;
        }
        if entries[i].id == id {
            proof {
                assert(s[i as int].id == id as int);
            }
            return true;
        }
        i = i + 1;
    }
}

/// The ids present in the second entry list but not in the first, each
/// reported once, in ascending order. The second list must be sorted
/// ascending by id.
pub fn added_ids(first: &Vec<TraEntry>, second: &Vec<TraEntry>) -> (added: Vec<i64>)
    requires
        sorted_by_id(view_entries(second@)),
    ensures
        strictly_sorted(added@),
        forall|id: i64|
            #[trigger] added@.contains(id) <==> added_id_set(
                view_entries(first@),
                view_entries(second@),
            ).contains(id as int),
{
    let ghost s1 = view_entries(first@);
    let ghost s2 = view_entries(second@);
    let mut added: Vec<i64> = Vec::new();
    let n = second.len();
    let mut i: usize = 0;
    proof {
        assert(s2.take(0int) =~= Seq::<SpecEntry>::empty());
    }
    loop
        invariant
            i <= n,
            n == s2.len(),
            s1 == view_entries(first@),
            s2 == view_entries(second@),
            sorted_by_id(s2),
            strictly_sorted(added@),
            forall|id: i64|
                #[trigger] added@.contains(id) <==> (id_set(s2.take(i as int)).contains(id as int)
                    && !id_set(s1).contains(id as int)),
            added@.len() > 0 ==> i > 0 && added@.last() <= s2[i - 1].id,
        ensures
            i == n,
            strictly_sorted(added@),
            forall|id: i64|
                #[trigger] added@.contains(id) <==> (id_set(s2.take(i as int)).contains(id as int)
                    && !id_set(s1).contains(id as int)),
        decreases n - i,
    {
        if i >= n {
            break ;
        }
        proof {
            lemma_id_set_take_step(s2, i as int);
        }
        let ghost av = added@;
        let cur = second[i].id;
        proof {
            assert(s2[i as int].id == cur as int);
        }
        if !contains_id(first, cur) && (added.len() == 0 || added[added.len() - 1] != cur) {
            added.push(cur);
            proof {
                lemma_push_contains_i64(av, cur);
                assert forall|id: i64|
                    #[trigger] added@.contains(id) <==> (id_set(s2.take(i + 1)).contains(id as int)
                        && !id_set(s1).contains(id as int)) by {
                    if added@.contains(id) && !av.contains(id) {
                        assert(id == cur);
                    }
                    if id == cur {
                        assert(added@[added@.len() - 1] == cur);
                        assert(added@.contains(cur));
                    }
                }
            }
        } else {
            proof {
                assert forall|id: i64|
                    #[trigger] added@.contains(id) <==> (id_set(s2.take(i + 1)).contains(id as int)
                        && !id_set(s1).contains(id as int)) by {
                    if id == cur && id_set(s1).contains(id as int) {
                    }
                    if id == cur && !id_set(s1).contains(id as int) {
                        assert(added@[added@.len() - 1] == cur);
                        assert(added@.contains(cur));
                    }
                }
            }
        }
        i = i + 1;
    }
    proof {
        assert(s2.take(n as int) =~= s2);
    }
    added
}

/// The ids present in the first entry list but not in the second, each
/// reported once, in ascending order. The first list must be sorted
/// ascending by id.
pub fn removed_ids(first: &Vec<TraEntry>, second: &Vec<TraEntry>) -> (removed: Vec<i64>)
    requires
        sorted_by_id(view_entries(first@)),
    ensures
        strictly_sorted(removed@),
        forall|id: i64|
            #[trigger] removed@.contains(id) <==> removed_id_set(
                view_entries(first@),
                view_entries(second@),
            ).contains(id as int),
{
    proof {
        lemma_diff_antisymmetric(view_entries(first@), view_entries(second@));
    }
    added_ids(second, first)
}

/// What the comparison of two entry lists reports: the ids duplicated
/// within each list, and the ids added to or removed from the first list by
/// the second. Every list is strictly ascending.
pub struct TraDiffReport {
    pub first_duplicates: Vec<i64>,
    pub second_duplicates: Vec<i64>,
    pub added: Vec<i64>,
    pub removed: Vec<i64>,
}

/// Compares two sorted entry lists: duplicate ids within each list, and the
/// symmetric difference of their id sets, all reported ascending.
pub fn diff_entries(first: &Vec<TraEntry>, second: &Vec<TraEntry>) -> (r: TraDiffReport)
    requires
        sorted_by_id(view_entries(first@)),
        sorted_by_id(view_entries(second@)),
    ensures
        strictly_sorted(r.first_duplicates@),
        forall|id: i64|
            #[trigger] r.first_duplicates@.contains(id) <==> count_id(
                view_entries(first@),
                id as int,
            ) >= 2,
        strictly_sorted(r.second_duplicates@),
        forall|id: i64|
            #[trigger] r.second_duplicates@.contains(id) <==> count_id(
                view_entries(second@),
                id as int,
            ) >= 2,
        strictly_sorted(r.added@),
        forall|id: i64|
            #[trigger] r.added@.contains(id) <==> added_id_set(
                view_entries(first@),
                view_entries(second@),
            ).contains(id as int),
        strictly_sorted(r.removed@),
        forall|id: i64|
            #[trigger] r.removed@.contains(id) <==> removed_id_set(
                view_entries(first@),
                view_entries(second@),
            ).contains(id as int),
{
    TraDiffReport {
        first_duplicates: duplicated_ids(first),
        second_duplicates: duplicated_ids(second),
        added: added_ids(first, second),
        removed: removed_ids(first, second),
    }
}

} // verus!
