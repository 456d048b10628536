//! Keeping the displayed rows in step with a selection: which rows to drop,
//! and where to put each wanted row, so that the list ends up holding exactly
//! the selection's user IDs in its order while rows of users still shown are
//! reused.
use vstd::prelude::*;

use crate::participants::{row_ids, rows_to_remove, stale_ids, string_views};
use crate::protocol::Participant;
use crate::text::str_eq;

verus! {

/// One change to the displayed list of rows, which holds user IDs.
#[derive(Debug)]
pub enum RowOp {
    /// Drop the row of this user.
    Remove(String),
    /// Put the row of this user at this index, creating it when absent and
    /// taking it out of its old place otherwise.
    Place(String, usize),
}

/// A row change as plain values.
pub enum RowOpView {
    Remove(Seq<char>),
    Place(Seq<char>, int),
}

impl View for RowOp {
    type V = RowOpView;

    open spec fn view(&self) -> RowOpView {
        match self {
            RowOp::Remove(id) => RowOpView::Remove(id@),
            RowOp::Place(id, i) => RowOpView::Place(id@, *i as int),
        }
    }
}

/// No ID occurs twice.
pub open spec fn distinct(s: Seq<Seq<char>>) -> bool {
    forall|a: int, b: int| 0 <= a < b < s.len() ==> s[a] != s[b]
}

/// The list without the given ID (which occurs at most once).
pub open spec fn without(list: Seq<Seq<char>>, id: Seq<char>) -> Seq<Seq<char>> {
    if exists|p: int| 0 <= p < list.len() && list[p] == id {
        list.remove(choose|p: int| 0 <= p < list.len() && list[p] == id)
    } else {
        list
    }
}

/// The list after one change.
pub open spec fn apply_op(list: Seq<Seq<char>>, op: RowOpView) -> Seq<Seq<char>> {
    match op {
        RowOpView::Remove(id) => without(list, id),
        RowOpView::Place(id, i) => without(list, id).insert(i, id),
    }
}

/// The list after a sequence of changes, applied in order.
pub open spec fn apply_ops(list: Seq<Seq<char>>, ops: Seq<RowOpView>) -> Seq<Seq<char>>
    decreases ops.len(),
{
    if ops.len() == 0 {
        list
    } else {
        apply_op(apply_ops(list, ops.drop_last()), ops.last())
    }
}

/// The changes as plain values.
pub open spec fn op_views(ops: Seq<RowOp>) -> Seq<RowOpView> {
    ops.map_values(|op: RowOp| op@)
}

/// Removing an element keeps a list without repetitions so, and the rest in order.
proof fn lemma_remove_distinct(list: Seq<Seq<char>>, p: int)
    requires
        distinct(list),
        0 <= p < list.len(),
    ensures
        distinct(list.remove(p)),
        forall|x: Seq<char>| list.remove(p).contains(x) <==> (list.contains(x) && x != list[p]),
{
    list.remove_ensures(p);
    let r = list.remove(p);
    assert forall|a: int, b: int| 0 <= a < b < r.len() implies r[a] != r[b] by {
        let a0 = if a < p { a } else { a + 1 };
        let b0 = if b < p { b } else { b + 1 };
        assert(r[a] == list[a0] && r[b] == list[b0]);
    }
    assert forall|x: Seq<char>| r.contains(x) <==> (list.contains(x) && x != list[p]) by {
        if r.contains(x) {
            let k = choose|k: int| 0 <= k < r.len() && r[k] == x;
            let k0 = if k < p { k } else { k + 1 };
            assert(list[k0] == x);
        }
        if list.contains(x) && x != list[p] {
            let k = choose|k: int| 0 <= k < list.len() && list[k] == x;
            if k < p {
                assert(r[k] == x);
            } else {
                assert(r[k - 1] == x);
            }
        }
    }
}

/// Inserting an ID that a list without repetitions lacks keeps it so.
proof fn lemma_insert_distinct(list: Seq<Seq<char>>, k: int, id: Seq<char>)
    requires
        distinct(list),
        !list.contains(id),
        0 <= k <= list.len(),
    ensures
        distinct(list.insert(k, id)),
        forall|x: Seq<char>| list.insert(k, id).contains(x) <==> (list.contains(x) || x == id),
{
    list.insert_ensures(k, id);
    let r = list.insert(k, id);
    assert forall|i: int| 0 <= i < r.len() && i != k implies r[i] == list[if i < k { i } else { i - 1 }] by {
        if i > k {
            assert(r[(i - 1) + 1] == list[i - 1]);
        }
    }
    assert forall|a: int, b: int| 0 <= a < b < r.len() implies r[a] != r[b] by {
        if a == k {
            assert(list.contains(r[b]));
        } else if b == k {
            assert(list.contains(r[a]));
        }
    }
    assert forall|x: Seq<char>| r.contains(x) <==> (list.contains(x) || x == id) by {
        if r.contains(x) {
            let i = choose|i: int| 0 <= i < r.len() && r[i] == x;
            if i != k {
                assert(list.contains(x));
            }
        }
        if list.contains(x) {
            let j = choose|j: int| 0 <= j < list.len() && list[j] == x;
            if j < k {
                assert(r[j] == x);
            } else {
                assert(r[j + 1] == x);
            }
        }
        if x == id {
            assert(r[k] == x);
        }
    }
}

/// What dropping an ID does to a list without repetitions.
proof fn lemma_without(list: Seq<Seq<char>>, id: Seq<char>)
    requires
        distinct(list),
    ensures
        distinct(without(list, id)),
        forall|x: Seq<char>| without(list, id).contains(x) <==> (list.contains(x) && x != id),
        !list.contains(id) ==> without(list, id) == list,
        forall|p: int| 0 <= p < list.len() && list[p] == id ==> without(list, id) == list.remove(p),
{
    if exists|p: int| 0 <= p < list.len() && list[p] == id {
        let q = choose|p: int| 0 <= p < list.len() && list[p] == id;
        lemma_remove_distinct(list, q);
        assert forall|p: int| 0 <= p < list.len() && list[p] == id implies without(list, id)
            == list.remove(p) by {
            assert(p == q);
        }
    } else {
        assert forall|x: Seq<char>| list.contains(x) implies x != id by {
            let j = choose|j: int| 0 <= j < list.len() && list[j] == x;
        }
    }
}

/// Applying two runs of changes one after the other.
pub proof fn lemma_apply_concat(list: Seq<Seq<char>>, a: Seq<RowOpView>, b: Seq<RowOpView>)
    ensures
        apply_ops(list, a + b) == apply_ops(apply_ops(list, a), b),
    decreases b.len(),
{
    if b.len() == 0 {
        assert(a + b =~= a);
    } else {
        assert((a + b).drop_last() =~= a + b.drop_last());
        assert((a + b).last() == b.last());
        lemma_apply_concat(list, a, b.drop_last());
    }
}

/// The removals of a plan: one for each given ID, in order.
pub open spec fn removals(ids: Seq<Seq<char>>) -> Seq<RowOpView> {
    ids.map_values(|id: Seq<char>| RowOpView::Remove(id))
}

/// The placements of a plan: each wanted ID at its index, in order.
pub open spec fn placements(wanted: Seq<Seq<char>>) -> Seq<RowOpView> {
    Seq::new(wanted.len(), |i: int| RowOpView::Place(wanted[i], i))
}

/// The changes that turn the displayed list into the wanted one: drop the
/// rows that are not wanted, then put each wanted row at its index.
pub open spec fn row_plan(current: Seq<Seq<char>>, wanted: Seq<Seq<char>>) -> Seq<RowOpView> {
    removals(stale_ids(current, wanted)) + placements(wanted)
}

/// An ID is stale when the list shows it and the selection does not hold it.
proof fn lemma_stale_ids(existing: Seq<Seq<char>>, wanted: Seq<Seq<char>>)
    ensures
        forall|x: Seq<char>| stale_ids(existing, wanted).contains(x) <==> (existing.contains(x)
            && !wanted.contains(x)),
    decreases existing.len(),
{
    if existing.len() > 0 {
        let init = existing.drop_last();
        lemma_stale_ids(init, wanted);
        assert forall|x: Seq<char>| existing.contains(x) <==> (init.contains(x) || x
            == existing.last()) by {
            if existing.contains(x) {
                let j = choose|j: int| 0 <= j < existing.len() && existing[j] == x;
                if j < existing.len() - 1 {
                    assert(init[j] == x);
                }
            }
            if init.contains(x) {
                let j = choose|j: int| 0 <= j < init.len() && init[j] == x;
                assert(existing[j] == x);
            }
            if x == existing.last() {
                assert(existing[existing.len() - 1] == x);
            }
        }
        let rest = stale_ids(init, wanted);
        if !wanted.contains(existing.last()) {
            assert forall|x: Seq<char>| rest.push(existing.last()).contains(x) <==> (rest.contains(
                x,
            ) || x == existing.last()) by {
                if rest.push(existing.last()).contains(x) {
                    let j = choose|j: int|
                        0 <= j < rest.len() + 1 && rest.push(existing.last())[j] == x;
                    if j < rest.len() {
                        assert(rest[j] == x);
                    }
                }
                if rest.contains(x) {
                    let j = choose|j: int| 0 <= j < rest.len() && rest[j] == x;
                    assert(rest.push(existing.last())[j] == x);
                }
                if x == existing.last() {
                    assert(rest.push(existing.last())[rest.len() as int] == x);
                }
            }
        }
    }
}

/// After the first `j` removals, a list without repetitions lacks exactly
/// the removed IDs.
proof fn lemma_removals(list: Seq<Seq<char>>, ids: Seq<Seq<char>>, j: int)
    requires
        distinct(list),
        0 <= j <= ids.len(),
    ensures
        distinct(apply_ops(list, removals(ids).take(j))),
        forall|x: Seq<char>| apply_ops(list, removals(ids).take(j)).contains(x) <==> (list.contains(
            x,
        ) && !ids.take(j).contains(x)),
    decreases j,
{
    if j == 0 {
        assert(removals(ids).take(0) =~= Seq::<RowOpView>::empty());
        assert forall|x: Seq<char>| !ids.take(0).contains(x) by {}
    } else {
        lemma_removals(list, ids, j - 1);
        let before = apply_ops(list, removals(ids).take(j - 1));
        assert(removals(ids).take(j).drop_last() =~= removals(ids).take(j - 1));
        assert(removals(ids).take(j).last() == RowOpView::Remove(ids[j - 1]));
        lemma_without(before, ids[j - 1]);
        assert forall|x: Seq<char>| ids.take(j).contains(x) <==> (ids.take(j - 1).contains(x) || x
            == ids[j - 1]) by {
            if ids.take(j).contains(x) {
                let i = choose|i: int| 0 <= i < j && #[trigger] ids.take(j)[i] == x;
                if i < j - 1 {
                    assert(ids.take(j - 1)[i] == x);
                }
            }
            if ids.take(j - 1).contains(x) {
                let i = choose|i: int| 0 <= i < j - 1 && #[trigger] ids.take(j - 1)[i] == x;
                assert(ids.take(j)[i] == x);
            }
            if x == ids[j - 1] {
                assert(ids.take(j)[j - 1] == x);
            }
        }
    }
}

/// After the first `k` placements, a list without repetitions that holds only
/// wanted IDs starts with the first `k` wanted IDs and still holds only wanted
/// IDs, each once.
proof fn lemma_placements(list: Seq<Seq<char>>, wanted: Seq<Seq<char>>, k: int)
    requires
        distinct(list),
        distinct(wanted),
        forall|x: Seq<char>| list.contains(x) ==> wanted.contains(x),
        0 <= k <= wanted.len(),
    ensures
        distinct(apply_ops(list, placements(wanted).take(k))),
        forall|x: Seq<char>| apply_ops(list, placements(wanted).take(k)).contains(x)
            ==> wanted.contains(x),
        apply_ops(list, placements(wanted).take(k)).len() >= k,
        forall|i: int| 0 <= i < k ==> apply_ops(list, placements(wanted).take(k))[i] == wanted[i],
    decreases k,
{
    if k == 0 {
        assert(placements(wanted).take(0) =~= Seq::<RowOpView>::empty());
    } else {
        lemma_placements(list, wanted, k - 1);
        let before = apply_ops(list, placements(wanted).take(k - 1));
        let id = wanted[k - 1];
        assert(placements(wanted).take(k).drop_last() =~= placements(wanted).take(k - 1));
        assert(placements(wanted).take(k).last() == RowOpView::Place(id, k - 1));
        lemma_without(before, id);
        let w = without(before, id);
        if before.contains(id) {
            let p = choose|p: int| 0 <= p < before.len() && before[p] == id;
            if p < k - 1 {
                assert(before[p] == wanted[p]);
                assert(false);
            }
            assert(w == before.remove(p));
            before.remove_ensures(p);
            assert(w.len() >= k - 1);
            assert forall|i: int| 0 <= i < k - 1 implies w[i] == wanted[i] by {}
        } else {
            assert(w == before);
        }
        assert(!w.contains(id));
        lemma_insert_distinct(w, k - 1, id);
        w.insert_ensures(k - 1, id);
    }
}

/// Carrying out the plan turns a list of distinct IDs into exactly the wanted
/// list of distinct IDs, in its order.
pub proof fn lemma_plan_reaches_wanted(current: Seq<Seq<char>>, wanted: Seq<Seq<char>>)
    requires
        distinct(current),
        distinct(wanted),
    ensures
        apply_ops(current, row_plan(current, wanted)) == wanted,
{
    let stale = stale_ids(current, wanted);
    lemma_apply_concat(current, removals(stale), placements(wanted));
    lemma_removals(current, stale, stale.len() as int);
    assert(removals(stale).take(stale.len() as int) =~= removals(stale));
    assert(stale.take(stale.len() as int) =~= stale);
    lemma_stale_ids(current, wanted);
    let kept = apply_ops(current, removals(stale));
    lemma_placements(kept, wanted, wanted.len() as int);
    assert(placements(wanted).take(wanted.len() as int) =~= placements(wanted));
    let result = apply_ops(kept, placements(wanted));
    if result.len() > wanted.len() {
        let n = wanted.len() as int;
        let extra = result[n];
        assert(result.contains(extra));
        assert(wanted.contains(extra));
        let m = choose|m: int| 0 <= m < wanted.len() && wanted[m] == extra;
        assert(result[m] == wanted[m]);
        assert(result[m] != result[n]);
    }
    assert(result =~= wanted);
}

/// The changes that bring the displayed rows, listed by user ID, in step with
/// a selection: first one removal for each displayed user the selection
/// lacks, in display order, then for each selected user, in order, one
/// placement at its index. Where neither list repeats an ID, carrying them
/// out leaves exactly the selection's IDs in its order.
pub fn plan_rows(current: &Vec<String>, desired: &Vec<(String, Participant)>) -> (res: Vec<RowOp>)
    ensures
        op_views(res@) == row_plan(string_views(current@), row_ids(desired@)),
        distinct(string_views(current@)) && distinct(row_ids(desired@)) ==> apply_ops(
            string_views(current@),
            op_views(res@),
        ) == row_ids(desired@),
{
    let stale = rows_to_remove(current, desired);
    let ghost sv = string_views(stale@);
    let ghost wanted = row_ids(desired@);
    let mut res: Vec<RowOp> = Vec::new();
    let mut j: usize = 0;
    while j < stale.len()
        invariant
            j <= stale.len(),
            sv == string_views(stale@),
            op_views(res@) =~= removals(sv.take(j as int)),
        decreases stale.len() - j,
    {
        let ghost before = res@;
        let id = stale[j].clone();
        res.push(RowOp::Remove(id));
        assert(op_views(res@) =~= op_views(before).push(RowOpView::Remove(sv[j as int])));
        assert(removals(sv.take(j + 1)) =~= removals(sv.take(j as int)).push(
            RowOpView::Remove(sv[j as int]),
        ));
        j += 1;
    }
    assert(sv.take(stale.len() as int) =~= sv);
    let mut i: usize = 0;
    while i < desired.len()
        invariant
            i <= desired.len(),
            wanted == row_ids(desired@),
            op_views(res@) =~= removals(sv) + placements(wanted).take(i as int),
        decreases desired.len() - i,
    {
        let ghost before = res@;
        let id = desired[i].0.clone();
        res.push(RowOp::Place(id, i));
        assert(op_views(res@) =~= op_views(before).push(RowOpView::Place(wanted[i as int], i as int)));
        assert(placements(wanted).take(i + 1) =~= placements(wanted).take(i as int).push(
            RowOpView::Place(wanted[i as int], i as int),
        ));
        i += 1;
    }
    assert(placements(wanted).take(desired.len() as int) =~= placements(wanted));
    proof {
        if distinct(string_views(current@)) && distinct(wanted) {
            lemma_plan_reaches_wanted(string_views(current@), wanted);
        }
    }
    res
}


/// Law: a plan never drops the row of a user who stays, and drops the row of
/// every user who leaves; rows that stay are only moved, so they are reused.
pub proof fn lemma_plan_keeps_staying_rows(current: Seq<Seq<char>>, wanted: Seq<Seq<char>>)
    ensures
        forall|k: int|
            0 <= k < row_plan(current, wanted).len() ==> (#[trigger] row_plan(current, wanted)[k]
                matches RowOpView::Remove(x) ==> current.contains(x) && !wanted.contains(x)),
        forall|x: Seq<char>|
            current.contains(x) && !wanted.contains(x) ==> #[trigger] row_plan(current, wanted).contains(
                RowOpView::Remove(x),
            ),
{
    let stale = stale_ids(current, wanted);
    let plan = row_plan(current, wanted);
    lemma_stale_ids(current, wanted);
    let rm = removals(stale);
    let pl = placements(wanted);
    assert forall|k: int|
        0 <= k < plan.len() && #[trigger] plan[k] is Remove implies current.contains(plan[k]->Remove_0)
            && !wanted.contains(plan[k]->Remove_0) by {
        if k < rm.len() {
            assert(plan[k] == rm[k]);
            assert(stale.contains(stale[k]));
        } else {
            assert(plan[k] == pl[k - rm.len()]);
        }
    }
    assert forall|x: Seq<char>| current.contains(x) && !wanted.contains(x) implies #[trigger] plan.contains(
        RowOpView::Remove(x),
    ) by {
        assert(stale.contains(x));
        let k = choose|k: int| 0 <= k < stale.len() && stale[k] == x;
        assert(plan[k] == rm[k]);
    }
}

/// Whether a selection repeats no user ID.
pub fn ids_distinct(rows: &Vec<(String, Participant)>) -> (res: bool)
    ensures
        res == distinct(row_ids(rows@)),
{
    let ghost ids = row_ids(rows@);
    let mut b: usize = 0;
    while b < rows.len()
        invariant
            b <= rows.len(),
            ids == row_ids(rows@),
            forall|i: int, j: int| 0 <= i < j < b ==> ids[i] != ids[j],
        decreases rows.len() - b,
    {
        let mut a: usize = 0;
        while a < b
            invariant
                a <= b < rows.len(),
                ids == row_ids(rows@),
                forall|i: int| 0 <= i < a ==> ids[i] != ids[b as int],
            decreases b - a,
        {
            if str_eq(rows[a].0.as_str(), rows[b].0.as_str()) {
                assert(ids[a as int] == ids[b as int]);
                return false;
            }
            a += 1;
        }
        b += 1;
    }
    true
}

/// The user IDs of the rows on screen, top to bottom; no ID occurs twice.
pub struct ShownRows {
    ids: Vec<String>,
}

impl View for ShownRows {
    type V = Seq<Seq<char>>;

    closed spec fn view(&self) -> Seq<Seq<char>> {
        string_views(self.ids@)
    }
}

impl ShownRows {
    #[verifier::type_invariant]
    closed spec fn inv(self) -> bool {
        distinct(string_views(self.ids@))
    }

    /// No row on screen.
    pub fn new() -> (res: ShownRows)
        ensures
            res@ == Seq::<Seq<char>>::empty(),
    {
        let res = ShownRows { ids: Vec::new() };
        assert(res@ =~= Seq::<Seq<char>>::empty());
        res
    }

    /// How many rows are on screen.
    pub fn len(&self) -> (res: usize)
        ensures
            res == self@.len(),
            distinct(self@),
    {
        proof {
            use_type_invariant(self);
        }
        self.ids.len()
    }

    /// Brings the rows on screen in step with a selection. For a selection
    /// that repeats no user ID it returns the changes to carry out (see
    /// `plan_rows`): they leave exactly the selection's IDs in its order,
    /// dropping only rows of users who left and moving the others, and the
    /// rows on screen are then the selection's. A selection that repeats an
    /// ID is refused and nothing changes.
    pub fn reconcile(&mut self, desired: &Vec<(String, Participant)>) -> (res: Option<Vec<RowOp>>)
        ensures
            distinct(row_ids(desired@)) ==> (res matches Some(ops) && op_views(ops@) == row_plan(
                old(self)@,
                row_ids(desired@),
            ) && apply_ops(old(self)@, op_views(ops@)) == row_ids(desired@)),
            distinct(row_ids(desired@)) ==> final(self)@ == row_ids(desired@),
            !distinct(row_ids(desired@)) ==> res is None && final(self)@ == old(self)@,
            distinct(final(self)@),
    {
        proof {
            use_type_invariant(&*self);
        }
        if !ids_distinct(desired) {
            return None;
        }
        let ops = plan_rows(&self.ids, desired);
        let mut ids: Vec<String> = Vec::new();
        let mut i: usize = 0;
        while i < desired.len()
            invariant
                i <= desired.len(),
                string_views(ids@) =~= row_ids(desired@).take(i as int),
            decreases desired.len() - i,
        {
            let ghost before = ids@;
            ids.push(desired[i].0.clone());
            assert(string_views(ids@) =~= string_views(before).push(desired@[i as int].0@));
            assert(row_ids(desired@).take(i + 1) =~= row_ids(desired@).take(i as int).push(
                desired@[i as int].0@,
            ));
            i += 1;
        }
        assert(row_ids(desired@).take(desired.len() as int) =~= row_ids(desired@));
        self.ids = ids;
        Some(ops)
    }

    /// All rows removed from the screen.
    pub fn reset(&mut self)
        ensures
            final(self)@ == Seq::<Seq<char>>::empty(),
    {
        self.ids = Vec::new();
        assert(self@ =~= Seq::<Seq<char>>::empty());
    }
}

/// Law: what one change does to a list of distinct IDs. A removal drops
/// that ID and keeps the others in order; a placement puts the ID at the
/// given index, keeping every other ID and their order, so no ID repeats.
pub proof fn lemma_row_op_meaning(list: Seq<Seq<char>>, id: Seq<char>, i: int)
    requires
        distinct(list),
    ensures
        forall|x: Seq<char>| apply_op(list, RowOpView::Remove(id)).contains(x) <==> (list.contains(x)
            && x != id),
        forall|p: int| 0 <= p < list.len() && list[p] == id ==> apply_op(list, RowOpView::Remove(id))
            == list.remove(p),
        !list.contains(id) ==> apply_op(list, RowOpView::Remove(id)) == list,
        0 <= i <= without(list, id).len() ==> {
            let r = apply_op(list, RowOpView::Place(id, i));
            &&& r[i] == id
            &&& distinct(r)
            &&& forall|x: Seq<char>| r.contains(x) <==> (list.contains(x) || x == id)
            &&& r.remove(i) == without(list, id)
        },
{
    lemma_without(list, id);
    let w = without(list, id);
    if 0 <= i <= w.len() {
        assert(!w.contains(id));
        lemma_insert_distinct(w, i, id);
        w.insert_ensures(i, id);
        assert(w.insert(i, id).remove(i) =~= w);
    }
}

} // verus!
