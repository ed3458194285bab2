use vstd::prelude::*;
use std::collections::HashMap;
use itertools::Itertools;
use crate::models::{InventoryBundle, InventoryBundleItem, NewInventoryBundle, NewInventoryBundleItem};

verus! {

broadcast use vstd::std_specs::hash::group_hash_axioms;

/// A bundle as the API presents it: its columns and the ids of its items.
#[derive(Clone, Debug, PartialEq, Eq)]
pub struct InventoryBundleObj {
    pub id: i32,
    pub name: String,
    pub price: i32,
    pub image_url: Option<String>,
    pub item_ids: Vec<i32>,
}

/// A bundle as the API receives it for creation or update.
#[derive(Clone, Debug, PartialEq, Eq)]
pub struct NewInventoryBundleObj {
    pub name: String,
    pub price: i32,
    pub image_url: Option<String>,
    pub item_ids: Vec<i32>,
}

/// The mathematical content of an `InventoryBundleObj`.
pub struct InventoryBundleObjView {
    pub id: i32,
    pub name: String,
    pub price: i32,
    pub image_url: Option<String>,
    pub item_ids: Seq<i32>,
}

impl View for InventoryBundleObj {
    type V = InventoryBundleObjView;

    open spec fn view(&self) -> InventoryBundleObjView {
        InventoryBundleObjView {
            id: self.id,
            name: self.name,
            price: self.price,
            image_url: self.image_url,
            item_ids: self.item_ids@,
        }
    }
}

/// The stored columns of a bundle received from the API.
pub fn new_bundle_row(bundle: NewInventoryBundleObj) -> (res: (NewInventoryBundle, Vec<i32>))
    ensures
        res.0 == (NewInventoryBundle { name: bundle.name, price: bundle.price, image_url: bundle.image_url }),
        res.1@ == bundle.item_ids@,
{
    (NewInventoryBundle { name: bundle.name, price: bundle.price, image_url: bundle.image_url }, bundle.item_ids)
}

/// The memberships that put each of `item_ids`, in order, into bundle `bundle_id`.
pub fn bundle_item_rows(bundle_id: i32, item_ids: &Vec<i32>) -> (res: Vec<NewInventoryBundleItem>)
    ensures
        res@.len() == item_ids@.len(),
        forall|i: int| 0 <= i < item_ids@.len() ==> #[trigger] res@[i] == (NewInventoryBundleItem { bundle_id, item_id: item_ids@[i] }),
        res@ == spec_bundle_item_rows(bundle_id, item_ids@),
{
    let mut res: Vec<NewInventoryBundleItem> = Vec::new();
    for i in 0..item_ids.len()
        invariant
            res@.len() == i,
            forall|j: int| 0 <= j < i ==> #[trigger] res@[j] == (NewInventoryBundleItem { bundle_id, item_id: item_ids@[j] }),
    {
        res.push(NewInventoryBundleItem { bundle_id, item_id: item_ids[i] });
    }
    assert(res@ =~= spec_bundle_item_rows(bundle_id, item_ids@));
    res
}

/// A row of bundles left-joined with their memberships.
pub type BundleRow = (InventoryBundle, Option<InventoryBundleItem>);

pub open spec fn row_key(r: BundleRow) -> i32 {
    r.0.id
}

/// Whether `groups` splits `rows` into its runs: non-empty groups of
/// consecutive rows of one bundle, neighbouring groups being of different
/// bundles, that together are `rows` in order.
pub open spec fn is_run_split(rows: Seq<BundleRow>, groups: Seq<Seq<BundleRow>>) -> bool {
    &&& groups.flatten() == rows
    &&& forall|g: int| 0 <= g < groups.len() ==> (#[trigger] groups[g]).len() > 0
    &&& forall|g: int, j: int|
        0 <= g < groups.len() && 0 <= j < groups[g].len() ==> row_key(#[trigger] groups[g][j]) == row_key(groups[g][0])
    &&& forall|g: int|
        0 <= g < groups.len() - 1 ==> row_key((#[trigger] groups[g])[0]) != row_key(groups[g + 1][0])
}

pub open spec fn vec_views<T>(s: Seq<Vec<T>>) -> Seq<Seq<T>> {
    s.map_values(|v: Vec<T>| v@)
}

/// Splits `rows` into runs of consecutive rows of the same bundle with
/// `Itertools::chunk_by`, which assigns consecutive elements with the same
/// key to one group. The contract states exactly that: the groups are the
/// runs of `rows` with respect to the bundle id.
#[verifier::external_body]
fn chunk_by_bundle(rows: Vec<BundleRow>) -> (res: Vec<Vec<BundleRow>>)
    ensures
        is_run_split(rows@, vec_views(res@)),
{
    let chunks = rows.into_iter().chunk_by(|row| row.0.id);
    chunks.into_iter().map(|(_, group)| group.collect()).collect()
}

/// The ids of the items that the rows `s` put into their bundle, in order.
pub open spec fn run_item_ids(s: Seq<BundleRow>) -> Seq<i32>
    decreases s.len(),
{
    if s.len() == 0 {
        Seq::empty()
    } else {
        run_item_ids(s.drop_last()) + match s.last().1 {
            Some(item) => seq![item.item_id],
            None => Seq::empty(),
        }
    }
}

/// The bundle that a run of rows describes.
pub open spec fn bundle_of_run(run: Seq<BundleRow>) -> InventoryBundleObjView {
    InventoryBundleObjView {
        id: run[0].0.id,
        name: run[0].0.name,
        price: run[0].0.price,
        image_url: run[0].0.image_url,
        item_ids: run_item_ids(run),
    }
}

pub open spec fn bundle_views(s: Seq<InventoryBundleObj>) -> Seq<InventoryBundleObjView> {
    s.map_values(|b: InventoryBundleObj| b@)
}

/// The bundle described by one non-empty run of rows.
fn bundle_from_run(run: Vec<BundleRow>) -> (res: InventoryBundleObj)
    requires
        run@.len() > 0,
    ensures
        res@ == bundle_of_run(run@),
{
    let ghost all = run@;
    let mut head: Option<InventoryBundle> = None;
    let mut item_ids: Vec<i32> = Vec::new();
    proof {
        assert(all.take(0) =~= Seq::<BundleRow>::empty());
    }
    for row in it: run.into_iter()
        invariant
            it.seq() == all,
            all.len() > 0,
            it.index() == 0 ==> head is None,
            it.index() > 0 ==> head == Some(all[0].0),
            item_ids@ == run_item_ids(all.take(it.index() as int)),
    {
        proof {
            let k = it.index() as int;
            assert(all.take(k + 1).drop_last() =~= all.take(k));
            assert(all.take(k + 1).last() == all[k]);
        }
        let (bundle, item) = row;
        if head.is_none() {
            head = Some(bundle);
        }
        match item {
            Some(item) => {
                item_ids.push(item.item_id);
            },
            None => {},
        }
    }
    proof {
        assert(all.take(all.len() as int) =~= all);
    }
    let head = head.unwrap();
    InventoryBundleObj {
        id: head.id,
        name: head.name,
        price: head.price,
        image_url: head.image_url,
        item_ids,
    }
}

/// The bundles described by `rows`, bundles left-joined with their
/// memberships: one bundle per run of consecutive rows of the same bundle,
/// holding the item ids of the run's memberships in order.
pub fn group_bundles(rows: Vec<BundleRow>) -> (res: Vec<InventoryBundleObj>)
    ensures
        exists|groups: Seq<Seq<BundleRow>>|
            #![trigger is_run_split(rows@, groups)]
            is_run_split(rows@, groups) && bundle_views(res@) == groups.map_values(
                |run: Seq<BundleRow>| bundle_of_run(run),
            ),
{
    let ghost all = rows@;
    let groups = chunk_by_bundle(rows);
    let ghost gs = vec_views(groups@);
    let mut res: Vec<InventoryBundleObj> = Vec::new();
    for run in it: groups.into_iter()
        invariant
            is_run_split(all, gs),
            it.seq().map_values(|v: Vec<BundleRow>| v@) == gs,
            bundle_views(res@) == gs.take(it.index() as int).map_values(
                |run: Seq<BundleRow>| bundle_of_run(run),
            ),
    {
        let ghost k = it.index() as int;
        proof {
            assert(it.seq()[k]@ == gs[k]);
            assert(gs[k].len() > 0);
        }
        let ghost run_view = run@;
        let bundle = bundle_from_run(run);
        let ghost prev = res@;
        res.push(bundle);
        proof {
            assert(run_view == gs[k]);
            assert(bundle@ == bundle_of_run(gs[k]));
            assert(bundle_views(res@) =~= bundle_views(prev).push(bundle@));
            assert(gs.take(k + 1) =~= gs.take(k).push(gs[k]));
            assert(bundle_views(res@) =~= gs.take(k + 1).map_values(
                |run: Seq<BundleRow>| bundle_of_run(run),
            ));
        }
    }
    proof {
        assert(gs.take(gs.len() as int) =~= gs);
    }
    res
}

proof fn lemma_run_split_rest(rows: Seq<BundleRow>, groups: Seq<Seq<BundleRow>>)
    requires
        is_run_split(rows, groups),
        groups.len() > 0,
    ensures
        rows == groups[0] + groups.drop_first().flatten(),
        is_run_split(rows.skip(groups[0].len() as int), groups.drop_first()),
{
    let rest = groups.drop_first();
    assert(groups.flatten() == groups[0] + rest.flatten());
    assert(rows.skip(groups[0].len() as int) =~= rest.flatten());
    assert forall|g: int| 0 <= g < rest.len() implies (#[trigger] rest[g]).len() > 0 by {
        assert(rest[g] == groups[g + 1]);
    }
    assert forall|g: int, j: int|
        0 <= g < rest.len() && 0 <= j < rest[g].len() implies row_key(#[trigger] rest[g][j]) == row_key(rest[g][0]) by {
        assert(rest[g] == groups[g + 1]);
    }
    assert forall|g: int| 0 <= g < rest.len() - 1 implies row_key((#[trigger] rest[g])[0]) != row_key(rest[g + 1][0]) by {
        assert(rest[g] == groups[g + 1]);
        assert(rest[g + 1] == groups[g + 2]);
    }
}

/// The runs of a sequence of rows are unique: two splits into runs are the
/// same, so `group_bundles` determines its result from its rows.
pub proof fn lemma_run_split_unique(rows: Seq<BundleRow>, g1: Seq<Seq<BundleRow>>, g2: Seq<Seq<BundleRow>>)
    requires
        is_run_split(rows, g1),
        is_run_split(rows, g2),
    ensures
        g1 == g2,
    decreases rows.len(),
{
    if g1.len() == 0 || g2.len() == 0 {
        if g1.len() > 0 {
            lemma_run_split_rest(rows, g1);
            assert(g1[0].len() > 0);
            assert(g2.flatten() =~= Seq::<BundleRow>::empty());
        } else if g2.len() > 0 {
            lemma_run_split_rest(rows, g2);
            assert(g2[0].len() > 0);
            assert(g1.flatten() =~= Seq::<BundleRow>::empty());
        }
        assert(g1 =~= g2);
    } else {
        lemma_run_split_rest(rows, g1);
        lemma_run_split_rest(rows, g2);
        let a = g1[0].len() as int;
        let b = g2[0].len() as int;
        assert(g1[0].len() > 0);
        assert(g2[0].len() > 0);
        assert(rows[0] == g1[0][0]);
        assert(rows[0] == g2[0][0]);
        if a < b {
            let r1 = g1.drop_first();
            assert(rows[a] == g2[0][a]);
            assert(row_key(g2[0][a]) == row_key(g2[0][0]));
            if r1.len() == 0 {
                assert(r1.flatten() =~= Seq::<BundleRow>::empty());
                assert(rows.len() == a);
            } else {
                lemma_run_split_rest(rows.skip(a), r1);
                assert(r1[0] == g1[1]);
                assert(g1[1].len() > 0);
                assert(rows[a] == r1.flatten()[0]);
                assert(r1.flatten()[0] == g1[1][0]);
                assert(row_key(g1[0][0]) != row_key(g1[1][0]));
            }
            assert(false);
        } else if b < a {
            let r2 = g2.drop_first();
            assert(rows[b] == g1[0][b]);
            assert(row_key(g1[0][b]) == row_key(g1[0][0]));
            if r2.len() == 0 {
                assert(r2.flatten() =~= Seq::<BundleRow>::empty());
                assert(rows.len() == b);
            } else {
                lemma_run_split_rest(rows.skip(b), r2);
                assert(r2[0] == g2[1]);
                assert(g2[1].len() > 0);
                assert(rows[b] == r2.flatten()[0]);
                assert(r2.flatten()[0] == g2[1][0]);
                assert(row_key(g2[0][0]) != row_key(g2[1][0]));
            }
            assert(false);
        }
        assert(g1[0] =~= rows.take(a));
        assert(g2[0] =~= rows.take(a));
        lemma_run_split_unique(rows.skip(a), g1.drop_first(), g2.drop_first());
        assert(g1 =~= seq![g1[0]] + g1.drop_first());
        assert(g2 =~= seq![g2[0]] + g2.drop_first());
    }
}

proof fn lemma_run_item_ids_append(a: Seq<BundleRow>, b: Seq<BundleRow>)
    ensures
        run_item_ids(a + b) == run_item_ids(a) + run_item_ids(b),
    decreases b.len(),
{
    if b.len() == 0 {
        assert(a + b =~= a);
        assert(run_item_ids(a) + run_item_ids(b) =~= run_item_ids(a));
    } else {
        lemma_run_item_ids_append(a, b.drop_last());
        assert((a + b).drop_last() =~= a + b.drop_last());
        assert((a + b).last() == b.last());
        assert(run_item_ids(a + b) =~= run_item_ids(a) + run_item_ids(b));
    }
}

/// Grouping loses no membership: the item ids of the bundles, one bundle
/// after the other, are the item ids of all rows in order.
pub proof fn lemma_group_keeps_items(rows: Seq<BundleRow>, groups: Seq<Seq<BundleRow>>)
    requires
        is_run_split(rows, groups),
    ensures
        groups.map_values(|run: Seq<BundleRow>| bundle_of_run(run).item_ids).flatten() == run_item_ids(rows),
    decreases groups.len(),
{
    let ids = groups.map_values(|run: Seq<BundleRow>| bundle_of_run(run).item_ids);
    if groups.len() == 0 {
        assert(groups.flatten() =~= Seq::<BundleRow>::empty());
        assert(rows =~= Seq::<BundleRow>::empty());
        assert(ids.flatten() =~= Seq::<i32>::empty());
    } else {
        lemma_run_split_rest(rows, groups);
        let rest = groups.drop_first();
        let tail_rows = rows.skip(groups[0].len() as int);
        lemma_group_keeps_items(tail_rows, rest);
        assert(tail_rows == rest.flatten());
        lemma_run_item_ids_append(groups[0], rest.flatten());
        assert(ids.drop_first() =~= rest.map_values(|run: Seq<BundleRow>| bundle_of_run(run).item_ids));
        assert(ids.flatten() == ids[0] + ids.drop_first().flatten());
    }
}

/// Neighbouring bundles that grouping produces are different bundles.
pub proof fn lemma_group_neighbours_differ(rows: Seq<BundleRow>, groups: Seq<Seq<BundleRow>>, g: int)
    requires
        is_run_split(rows, groups),
        0 <= g < groups.len() - 1,
    ensures
        bundle_of_run(groups[g]).id != bundle_of_run(groups[g + 1]).id,
{
}

/// The map from key to value that `entries` builds when inserted in order:
/// a later entry replaces an earlier one with the same key.
pub open spec fn keyed<T>(entries: Seq<(i32, T)>) -> Map<i32, T>
    decreases entries.len(),
{
    if entries.len() == 0 {
        Map::empty()
    } else {
        keyed(entries.drop_last()).insert(entries.last().0, entries.last().1)
    }
}

/// Collects `entries` into a map from id to value, a later entry replacing
/// an earlier one with the same id.
pub fn index_by_id<T>(entries: Vec<(i32, T)>) -> (res: HashMap<i32, T>)
    ensures
        res@ == keyed(entries@),
{
    let ghost all = entries@;
    let mut res: HashMap<i32, T> = HashMap::new();
    proof {
        assert(all.take(0) =~= Seq::<(i32, T)>::empty());
    }
    for entry in it: entries.into_iter()
        invariant
            it.seq() == all,
            res@ == keyed(all.take(it.index() as int)),
    {
        proof {
            let k = it.index() as int;
            assert(all.take(k + 1).drop_last() =~= all.take(k));
            assert(all.take(k + 1).last() == all[k]);
        }
        let (id, value) = entry;
        res.insert(id, value);
    }
    proof {
        assert(all.take(all.len() as int) =~= all);
    }
    res
}

/// The joined rows that reading back a bundle stored as `row` under id
/// `bundle_id` with the memberships `items` gives, membership `k` having been
/// stored under the id `membership_ids[k]`: one row per membership, or a
/// single row without membership when there is none.
pub open spec fn stored_bundle_rows(
    bundle_id: i32,
    row: NewInventoryBundle,
    items: Seq<NewInventoryBundleItem>,
    membership_ids: Seq<i32>,
) -> Seq<BundleRow> {
    let bundle = InventoryBundle { id: bundle_id, name: row.name, price: row.price, image_url: row.image_url };
    if items.len() == 0 {
        seq![(bundle, None)]
    } else {
        Seq::new(
            items.len(),
            |k: int|
                (
                    bundle,
                    Some(
                        InventoryBundleItem {
                            id: membership_ids[k],
                            bundle_id: items[k].bundle_id,
                            item_id: items[k].item_id,
                        },
                    ),
                ),
        )
    }
}

/// The memberships that `bundle_item_rows` makes for `item_ids`.
pub open spec fn spec_bundle_item_rows(bundle_id: i32, item_ids: Seq<i32>) -> Seq<NewInventoryBundleItem> {
    Seq::new(item_ids.len(), |k: int| NewInventoryBundleItem { bundle_id, item_id: item_ids[k] })
}

proof fn lemma_run_item_ids_of_memberships(rows: Seq<BundleRow>, item_ids: Seq<i32>)
    requires
        rows.len() == item_ids.len(),
        forall|k: int| 0 <= k < rows.len() ==> (#[trigger] rows[k]).1 is Some && rows[k].1->0.item_id == item_ids[k],
    ensures
        run_item_ids(rows) == item_ids,
    decreases rows.len(),
{
    if rows.len() > 0 {
        assert forall|k: int| 0 <= k < rows.drop_last().len() implies (#[trigger] rows.drop_last()[k]).1 is Some
            && rows.drop_last()[k].1->0.item_id == item_ids.drop_last()[k] by {
            assert(rows.drop_last()[k] == rows[k]);
        }
        lemma_run_item_ids_of_memberships(rows.drop_last(), item_ids.drop_last());
        assert(rows.last() == rows[rows.len() - 1]);
        assert(run_item_ids(rows) =~= item_ids);
    }
}

/// A stored bundle reads back as it was posted: the rows that storing the
/// columns from `new_bundle_row` and the memberships from `bundle_item_rows`
/// give form one run, which `group_bundles` turns into the posted bundle
/// (with its id) and nothing else.
pub proof fn lemma_posted_bundle_reads_back(
    bundle_id: i32,
    posted: NewInventoryBundleObj,
    membership_ids: Seq<i32>,
)
    requires
        membership_ids.len() >= posted.item_ids@.len(),
    ensures
        ({
            let row = NewInventoryBundle { name: posted.name, price: posted.price, image_url: posted.image_url };
            let rows = stored_bundle_rows(
                bundle_id,
                row,
                spec_bundle_item_rows(bundle_id, posted.item_ids@),
                membership_ids,
            );
            &&& is_run_split(rows, seq![rows])
            &&& forall|groups: Seq<Seq<BundleRow>>| #[trigger] is_run_split(rows, groups) ==> groups == seq![rows]
            &&& bundle_of_run(rows) == InventoryBundleObjView {
                id: bundle_id,
                name: posted.name,
                price: posted.price,
                image_url: posted.image_url,
                item_ids: posted.item_ids@,
            }
        }),
{
    let row = NewInventoryBundle { name: posted.name, price: posted.price, image_url: posted.image_url };
    let ids = posted.item_ids@;
    let rows = stored_bundle_rows(bundle_id, row, spec_bundle_item_rows(bundle_id, ids), membership_ids);
    let one = seq![rows];
    assert(one.drop_first() =~= Seq::<Seq<BundleRow>>::empty());
    assert(one.flatten() =~= rows) by {
        assert(one.flatten() == one[0] + one.drop_first().flatten());
    }
    assert(is_run_split(rows, one));
    assert forall|groups: Seq<Seq<BundleRow>>| #[trigger] is_run_split(rows, groups) implies groups == one by {
        lemma_run_split_unique(rows, groups, one);
    }
    if ids.len() == 0 {
        reveal_with_fuel(run_item_ids, 2);
        assert(rows.drop_last() =~= Seq::<BundleRow>::empty());
        assert(rows.last().1 is None);
        assert(run_item_ids(rows) =~= ids);
    } else {
        lemma_run_item_ids_of_memberships(rows, ids);
    }
}

/// The runs of `rows`, built from the front.
pub open spec fn runs(rows: Seq<BundleRow>) -> Seq<Seq<BundleRow>>
    decreases rows.len(),
{
    if rows.len() == 0 {
        Seq::empty()
    } else {
        let r = runs(rows.drop_last());
        let x = rows.last();
        if r.len() > 0 && row_key(r.last()[0]) == row_key(x) {
            r.update(r.len() - 1, r.last().push(x))
        } else {
            r.push(seq![x])
        }
    }
}

/// Every sequence of rows has a split into runs, and every row of a run is a
/// row of the sequence.
pub proof fn lemma_runs_split(rows: Seq<BundleRow>)
    ensures
        is_run_split(rows, runs(rows)),
        forall|g: int, j: int|
            0 <= g < runs(rows).len() && 0 <= j < runs(rows)[g].len() ==> rows.contains(#[trigger] runs(rows)[g][j]),
    decreases rows.len(),
{
    if rows.len() == 0 {
        assert(runs(rows).flatten() =~= rows);
    } else {
        let init = rows.drop_last();
        let r = runs(init);
        let x = rows.last();
        lemma_runs_split(init);
        let n = r.len();
        assert(rows =~= init.push(x));
        assert forall|g: int, j: int| 0 <= g < r.len() && 0 <= j < r[g].len() implies rows.contains(#[trigger] r[g][j]) by {
            assert(init.contains(r[g][j]));
            let k = choose|k: int| 0 <= k < init.len() && init[k] == r[g][j];
            assert(rows[k] == init[k]);
        }
        assert(rows[rows.len() - 1] == x);
        if n > 0 && row_key(r.last()[0]) == row_key(x) {
            let last = r.last().push(x);
            let new = r.update(n - 1, last);
            assert(r =~= r.drop_last().push(r.last()));
            assert(new =~= r.drop_last().push(last));
            r.drop_last().lemma_flatten_push(r.last());
            r.drop_last().lemma_flatten_push(last);
            assert(new.flatten() =~= rows);
            assert forall|g: int| 0 <= g < new.len() implies (#[trigger] new[g]).len() > 0 by {
                if g < n - 1 {
                    assert(new[g] == r[g]);
                }
            }
            assert forall|g: int, j: int|
                0 <= g < new.len() && 0 <= j < new[g].len() implies row_key(#[trigger] new[g][j]) == row_key(new[g][0]) by {
                if g < n - 1 {
                    assert(new[g] == r[g]);
                } else {
                    assert(new[g] == last);
                    if j < r.last().len() {
                        assert(last[j] == r[n - 1][j]);
                    }
                }
            }
            assert forall|g: int| 0 <= g < new.len() - 1 implies row_key((#[trigger] new[g])[0]) != row_key(new[g + 1][0]) by {
                assert(new[g] == r[g]);
                if g + 1 < n - 1 {
                    assert(new[g + 1] == r[g + 1]);
                } else {
                    assert(new[g + 1][0] == r[g + 1][0]);
                }
            }
            assert forall|g: int, j: int|
                0 <= g < new.len() && 0 <= j < new[g].len() implies rows.contains(#[trigger] new[g][j]) by {
                if g < n - 1 {
                    assert(new[g] == r[g]);
                } else if j < r.last().len() {
                    assert(new[g][j] == r[n - 1][j]);
                } else {
                    assert(new[g][j] == x);
                }
            }
        } else {
            let new = r.push(seq![x]);
            r.lemma_flatten_push(seq![x]);
            assert(new.flatten() =~= rows);
            assert forall|g: int| 0 <= g < new.len() implies (#[trigger] new[g]).len() > 0 by {
                if g < n {
                    assert(new[g] == r[g]);
                }
            }
            assert forall|g: int, j: int|
                0 <= g < new.len() && 0 <= j < new[g].len() implies row_key(#[trigger] new[g][j]) == row_key(new[g][0]) by {
                if g < n {
                    assert(new[g] == r[g]);
                }
            }
            assert forall|g: int| 0 <= g < new.len() - 1 implies row_key((#[trigger] new[g])[0]) != row_key(new[g + 1][0]) by {
                assert(new[g] == r[g]);
                if g + 1 < n {
                    assert(new[g + 1] == r[g + 1]);
                } else {
                    assert(row_key(r[n - 1][0]) == row_key(r.last()[0]));
                }
            }
            assert forall|g: int, j: int|
                0 <= g < new.len() && 0 <= j < new[g].len() implies rows.contains(#[trigger] new[g][j]) by {
                if g < n {
                    assert(new[g] == r[g]);
                } else {
                    assert(new[g][j] == x);
                }
            }
        }
    }
}

/// The first and the last row of rows split into runs are the first row of
/// the first run and the last row of the last run.
proof fn lemma_run_split_ends(rows: Seq<BundleRow>, groups: Seq<Seq<BundleRow>>)
    requires
        is_run_split(rows, groups),
        groups.len() > 0,
    ensures
        rows.len() > 0,
        rows[0] == groups[0][0],
        rows.last() == groups.last().last(),
{
    lemma_run_split_rest(rows, groups);
    assert(groups[0].len() > 0);
    let n = groups.len();
    assert(groups =~= groups.drop_last().push(groups.last()));
    groups.drop_last().lemma_flatten_push(groups.last());
    assert(groups[n - 1].len() > 0);
}

/// A bundle whose rows form one run among the rows of other bundles reads
/// back on its own: in the split of the whole join into runs, the bundle's
/// rows are exactly one run, which `group_bundles` turns into that bundle.
pub proof fn lemma_run_among_others(
    before: Seq<BundleRow>,
    mine: Seq<BundleRow>,
    after: Seq<BundleRow>,
    groups: Seq<Seq<BundleRow>>,
)
    requires
        is_run_split(mine, seq![mine]),
        before.len() > 0 ==> row_key(before.last()) != row_key(mine[0]),
        after.len() > 0 ==> row_key(after[0]) != row_key(mine[0]),
        is_run_split(before + mine + after, groups),
    ensures
        groups == runs(before) + seq![mine] + runs(after),
        groups[runs(before).len() as int] == mine,
{
    let gb = runs(before);
    let ga = runs(after);
    let one = seq![mine];
    lemma_runs_split(before);
    lemma_runs_split(after);
    let cand = gb + one + ga;
    let rows = before + mine + after;
    assert(mine.len() > 0) by {
        assert(one[0] == mine);
    }
    vstd::seq_lib::lemma_flatten_concat(gb, one);
    vstd::seq_lib::lemma_flatten_concat(gb + one, ga);
    one.lemma_flatten_singleton();
    assert(cand.flatten() =~= rows);
    let nb = gb.len() as int;
    if nb > 0 {
        lemma_run_split_ends(before, gb);
    }
    if ga.len() > 0 {
        lemma_run_split_ends(after, ga);
    }
    assert forall|g: int| 0 <= g < cand.len() implies (#[trigger] cand[g]).len() > 0 by {
        if g < nb {
            assert(cand[g] == gb[g]);
        } else if g == nb {
            assert(cand[g] == mine);
        } else {
            assert(cand[g] == ga[g - nb - 1]);
        }
    }
    assert forall|g: int, j: int|
        0 <= g < cand.len() && 0 <= j < cand[g].len() implies row_key(#[trigger] cand[g][j]) == row_key(cand[g][0]) by {
        if g < nb {
            assert(cand[g] == gb[g]);
        } else if g == nb {
            assert(cand[g] == one[0]);
        } else {
            assert(cand[g] == ga[g - nb - 1]);
        }
    }
    assert forall|g: int| 0 <= g < cand.len() - 1 implies row_key((#[trigger] cand[g])[0]) != row_key(cand[g + 1][0]) by {
        if g < nb - 1 {
            assert(cand[g] == gb[g]);
            assert(cand[g + 1] == gb[g + 1]);
        } else if g == nb - 1 {
            assert(cand[g] == gb[nb - 1]);
            assert(cand[g + 1] == mine);
            assert(gb.last().last() == gb[nb - 1][gb[nb - 1].len() - 1]);
            assert(row_key(gb[nb - 1][gb[nb - 1].len() - 1]) == row_key(gb[nb - 1][0]));
        } else if g == nb {
            assert(cand[g] == mine);
            assert(cand[g + 1] == ga[0]);
        } else {
            assert(cand[g] == ga[g - nb - 1]);
            assert(cand[g + 1] == ga[g - nb]);
        }
    }
    assert(is_run_split(rows, cand));
    lemma_run_split_unique(rows, groups, cand);
    assert(cand[nb] == mine);
}

/// A posted bundle reads back from the whole join: when the rows that storing
/// it gives form one run among the rows of other bundles, and no other row
/// is of its id, reading the bundles by id gives the posted bundle under its id.
pub proof fn lemma_posted_bundle_reads_back_among_others(
    bundle_id: i32,
    posted: NewInventoryBundleObj,
    membership_ids: Seq<i32>,
    before: Seq<BundleRow>,
    after: Seq<BundleRow>,
    groups: Seq<Seq<BundleRow>>,
)
    requires
        membership_ids.len() >= posted.item_ids@.len(),
        forall|k: int| 0 <= k < before.len() ==> row_key(#[trigger] before[k]) != bundle_id,
        forall|k: int| 0 <= k < after.len() ==> row_key(#[trigger] after[k]) != bundle_id,
        is_run_split(
            before + stored_bundle_rows(
                bundle_id,
                NewInventoryBundle { name: posted.name, price: posted.price, image_url: posted.image_url },
                spec_bundle_item_rows(bundle_id, posted.item_ids@),
                membership_ids,
            ) + after,
            groups,
        ),
    ensures
        ({
            let entries = groups.map_values(|run: Seq<BundleRow>| (bundle_of_run(run).id, bundle_of_run(run)));
            &&& keyed(entries).contains_key(bundle_id)
            &&& keyed(entries)[bundle_id] == InventoryBundleObjView {
                id: bundle_id,
                name: posted.name,
                price: posted.price,
                image_url: posted.image_url,
                item_ids: posted.item_ids@,
            }
        }),
{
    let row = NewInventoryBundle { name: posted.name, price: posted.price, image_url: posted.image_url };
    let mine = stored_bundle_rows(bundle_id, row, spec_bundle_item_rows(bundle_id, posted.item_ids@), membership_ids);
    lemma_posted_bundle_reads_back(bundle_id, posted, membership_ids);
    assert(mine.len() > 0);
    assert(row_key(mine[0]) == bundle_id);
    if before.len() > 0 {
        assert(row_key(before[before.len() - 1]) != bundle_id);
    }
    if after.len() > 0 {
        assert(row_key(after[0]) != bundle_id);
    }
    lemma_run_among_others(before, mine, after, groups);
    lemma_runs_split(before);
    lemma_runs_split(after);
    let gb = runs(before);
    let ga = runs(after);
    let nb = gb.len() as int;
    let entries = groups.map_values(|run: Seq<BundleRow>| (bundle_of_run(run).id, bundle_of_run(run)));
    assert forall|j: int| nb < j < entries.len() implies (#[trigger] entries[j]).0 != entries[nb].0 by {
        assert(groups[j] == ga[j - nb - 1]);
        assert(ga[j - nb - 1].len() > 0);
        assert(after.contains(ga[j - nb - 1][0]));
        let k = choose|k: int| 0 <= k < after.len() && after[k] == ga[j - nb - 1][0];
        assert(row_key(after[k]) != bundle_id);
    }
    lemma_keyed_last_wins(entries, nb);
}

/// An id is in the map exactly when some entry has it, and it maps to the
/// value of the last such entry.
pub proof fn lemma_keyed_last_wins<T>(entries: Seq<(i32, T)>, i: int)
    requires
        0 <= i < entries.len(),
        forall|j: int| i < j < entries.len() ==> (#[trigger] entries[j]).0 != entries[i].0,
    ensures
        keyed(entries).contains_key(entries[i].0),
        keyed(entries)[entries[i].0] == entries[i].1,
    decreases entries.len(),
{
    if i < entries.len() - 1 {
        let init = entries.drop_last();
        assert forall|j: int| i < j < init.len() implies (#[trigger] init[j]).0 != init[i].0 by {
            assert(init[j] == entries[j]);
        }
        lemma_keyed_last_wins(init, i);
        assert(entries.last() == entries[entries.len() - 1]);
    }
}

/// Only ids of entries are in the map.
pub proof fn lemma_keyed_domain<T>(entries: Seq<(i32, T)>, id: i32)
    requires
        keyed(entries).contains_key(id),
    ensures
        exists|j: int| 0 <= j < entries.len() && (#[trigger] entries[j]).0 == id,
    decreases entries.len(),
{
    if entries.len() > 0 && entries.last().0 != id {
        lemma_keyed_domain(entries.drop_last(), id);
        let j = choose|j: int| 0 <= j < entries.drop_last().len() && (#[trigger] entries.drop_last()[j]).0 == id;
        assert(entries[j] == entries.drop_last()[j]);
    } else if entries.len() > 0 {
        assert(entries[entries.len() - 1].0 == id);
    }
}

} // verus!
