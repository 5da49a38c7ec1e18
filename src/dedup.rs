//! Duplicate detection: photos of one owner's view that share a content hash.
use vstd::prelude::*;
use vstd::string::StringExecFns;
use crate::index::{IndexRow, PhotoLibrary, Query, RowView, ids_unique, query_pred, row_views};

verus! {

broadcast use vstd::seq_lib::group_seq_lib_default, vstd::seq::Seq::lemma_filter_push;

/// The ids of the rows of `rows` whose content hash is `h`, in order.
pub open spec fn ids_with_hash(rows: Seq<RowView>, h: Option<Seq<u8>>) -> Seq<i64> {
    rows.filter(|r: RowView| r.hash == h).map_values(|r: RowView| r.photo.id)
}

/// `groups` lists, once each and as disjoint groups, the ids of every set of
/// two or more rows of `rows` sharing a content hash.
pub open spec fn is_duplicate_grouping(groups: Seq<Seq<i64>>, rows: Seq<RowView>) -> bool {
    &&& forall|g: int|
        0 <= g < groups.len() ==> #[trigger] groups[g].len() >= 2 && exists|k: int|
            0 <= k < rows.len() && groups[g] == ids_with_hash(rows, #[trigger] rows[k].hash)
    &&& forall|k: int|
        0 <= k < rows.len() && #[trigger] ids_with_hash(rows, rows[k].hash).len() >= 2
            ==> exists|g: int| 0 <= g < groups.len() && #[trigger] groups[g] == ids_with_hash(rows, rows[k].hash)
    &&& forall|g1: int, g2: int, a: int, b: int|
        0 <= g1 < groups.len() && 0 <= g2 < groups.len() && g1 != g2 && 0 <= a < groups[g1].len()
            && 0 <= b < groups[g2].len() ==> #[trigger] groups[g1][a] != #[trigger] groups[g2][b]
}

/// A hashed, non-trashed row owned by `owner` or public.
pub open spec fn candidate_pred(owner: Seq<char>) -> spec_fn(RowView) -> bool {
    |r: RowView| r.photo.visible_to(owner) && r.photo.trashed_on is None && r.hash is Some
}

/// The rows from which the duplicate groups of `owner` are formed.
pub open spec fn duplicate_candidates(rows: Seq<RowView>, owner: Seq<char>) -> Seq<RowView> {
    rows.filter(candidate_pred(owner))
}

/// Every member of `ids_with_hash(rows, h)` is the id of a row of `rows` with hash `h`.
pub proof fn lemma_ids_with_hash_member(rows: Seq<RowView>, h: Option<Seq<u8>>, a: int)
    requires
        0 <= a < ids_with_hash(rows, h).len(),
    ensures
        exists|k: int|
            0 <= k < rows.len() && rows[k].hash == h && #[trigger] rows[k].photo.id == ids_with_hash(rows, h)[a],
{
    let pred = |r: RowView| r.hash == h;
    let f = rows.filter(pred);
    assert(pred(f[a]));
    rows.lemma_filter_contains_rev(pred, f[a]);
    let k = choose|k: int| 0 <= k < rows.len() && rows[k] == f[a];
    assert(rows[k].photo.id == ids_with_hash(rows, h)[a]);
}

fn same_opt_bytes(a: &Option<Vec<u8>>, b: &Option<Vec<u8>>) -> (r: bool)
    ensures
        r == (crate::photo::opt_bytes(*a) == crate::photo::opt_bytes(*b)),
{
    match (a, b) {
        (Some(x), Some(y)) => crate::index::same_bytes(x, y),
        (None, None) => true,
        _ => false,
    }
}

/// The ids of the rows of `rows` whose hash equals that of `rows[i]`.
fn group_of(rows: &Vec<IndexRow>, i: usize) -> (r: Vec<i64>)
    requires
        i < rows@.len(),
    ensures
        r@ == ids_with_hash(row_views(rows@), rows@[i as int]@.hash),
{
    let ghost rv = row_views(rows@);
    let ghost h = rows@[i as int]@.hash;
    let ghost pred = |r: RowView| r.hash == h;
    let mut group: Vec<i64> = Vec::new();
    let mut k: usize = 0;
    while k < rows.len()
        invariant
            k <= rows@.len(),
            i < rows@.len(),
            rv == row_views(rows@),
            h == rows@[i as int]@.hash,
            pred == (|r: RowView| r.hash == h),
            group@ == ids_with_hash(rv.subrange(0, k as int), h),
        decreases rows@.len() - k,
    {
        proof {
            assert(rv.subrange(0, k + 1) == rv.subrange(0, k as int).push(rv[k as int]));
            let f = rv.subrange(0, k as int).filter(pred);
            assert(f.push(rv[k as int]).map_values(|r: RowView| r.photo.id) =~= f.map_values(
                |r: RowView| r.photo.id,
            ).push(rv[k as int].photo.id));
        }
        if same_opt_bytes(&rows[k].hash, &rows[i].hash) {
            group.push(rows[k].photo.id);
        }
        k = k + 1;
    }
    proof {
        assert(rv.subrange(0, rows@.len() as int) == rv);
    }
    group
}

/// Whether no row before `i` has the hash of row `i`.
fn first_of_hash(rows: &Vec<IndexRow>, i: usize) -> (r: bool)
    requires
        i < rows@.len(),
    ensures
        r == forall|j: int| 0 <= j < i ==> #[trigger] rows@[j]@.hash != rows@[i as int]@.hash,
{
    let mut j: usize = 0;
    while j < i
        invariant
            j <= i < rows@.len(),
            forall|m: int| 0 <= m < j ==> #[trigger] rows@[m]@.hash != rows@[i as int]@.hash,
        decreases i - j,
    {
        if same_opt_bytes(&rows[j].hash, &rows[i].hash) {
            proof {
                assert(rows@[j as int]@.hash == rows@[i as int]@.hash);
            }
            return false;
        }
        j = j + 1;
    }
    true
}

/// Members of groups formed for different hashes are different ids.
proof fn lemma_groups_disjoint(rv: Seq<RowView>, h1: Option<Seq<u8>>, h2: Option<Seq<u8>>, a: int, b: int)
    requires
        ids_unique(rv),
        h1 != h2,
        0 <= a < ids_with_hash(rv, h1).len(),
        0 <= b < ids_with_hash(rv, h2).len(),
    ensures
        ids_with_hash(rv, h1)[a] != ids_with_hash(rv, h2)[b],
{
    lemma_ids_with_hash_member(rv, h1, a);
    lemma_ids_with_hash_member(rv, h2, b);
    let k1 = choose|k: int|
        0 <= k < rv.len() && rv[k].hash == h1 && #[trigger] rv[k].photo.id == ids_with_hash(rv, h1)[a];
    let k2 = choose|k: int|
        0 <= k < rv.len() && rv[k].hash == h2 && #[trigger] rv[k].photo.id == ids_with_hash(rv, h2)[b];
    if k1 != k2 {
        assert(rv[k1].photo.id != rv[k2].photo.id);
    }
}

/// The invariant of the grouping loop, once every row has been seen, gives
/// the grouping.
proof fn lemma_grouping_from_firsts(gv: Seq<Seq<i64>>, rv: Seq<RowView>, firsts: Seq<int>)
    requires
        ids_unique(rv),
        firsts.len() == gv.len(),
        forall|g: int|
            0 <= g < gv.len() ==> 0 <= #[trigger] firsts[g] < rv.len() && gv[g] == ids_with_hash(
                rv,
                rv[firsts[g]].hash,
            ) && gv[g].len() >= 2,
        forall|g1: int, g2: int|
            0 <= g1 < gv.len() && 0 <= g2 < gv.len() && g1 != g2
                ==> rv[#[trigger] firsts[g1]].hash != rv[#[trigger] firsts[g2]].hash,
        forall|k: int|
            0 <= k < rv.len() && #[trigger] ids_with_hash(rv, rv[k].hash).len() >= 2 ==> exists|g: int|
                0 <= g < gv.len() && rv[firsts[g]].hash == rv[k].hash,
    ensures
        is_duplicate_grouping(gv, rv),
{
    lemma_groups_sound(gv, rv, firsts);
    lemma_groups_complete(gv, rv, firsts);
    lemma_groups_apart(gv, rv, firsts);
}

proof fn lemma_groups_apart(gv: Seq<Seq<i64>>, rv: Seq<RowView>, firsts: Seq<int>)
    requires
        ids_unique(rv),
        firsts.len() == gv.len(),
        forall|g: int|
            0 <= g < gv.len() ==> 0 <= #[trigger] firsts[g] < rv.len() && gv[g] == ids_with_hash(
                rv,
                rv[firsts[g]].hash,
            ),
        forall|g1: int, g2: int|
            0 <= g1 < gv.len() && 0 <= g2 < gv.len() && g1 != g2
                ==> rv[#[trigger] firsts[g1]].hash != rv[#[trigger] firsts[g2]].hash,
    ensures
        forall|g1: int, g2: int, a: int, b: int|
            0 <= g1 < gv.len() && 0 <= g2 < gv.len() && g1 != g2 && 0 <= a < gv[g1].len()
                && 0 <= b < gv[g2].len() ==> #[trigger] gv[g1][a] != #[trigger] gv[g2][b],
{
    assert forall|g1: int, g2: int, a: int, b: int|
        0 <= g1 < gv.len() && 0 <= g2 < gv.len() && g1 != g2 && 0 <= a < gv[g1].len()
            && 0 <= b < gv[g2].len() implies #[trigger] gv[g1][a] != #[trigger] gv[g2][b] by {
        assert(gv[g1] == ids_with_hash(rv, rv[firsts[g1]].hash));
        assert(gv[g2] == ids_with_hash(rv, rv[firsts[g2]].hash));
        lemma_groups_disjoint(rv, rv[firsts[g1]].hash, rv[firsts[g2]].hash, a, b);
    }
}

proof fn lemma_groups_sound(gv: Seq<Seq<i64>>, rv: Seq<RowView>, firsts: Seq<int>)
    requires
        firsts.len() == gv.len(),
        forall|g: int|
            0 <= g < gv.len() ==> 0 <= #[trigger] firsts[g] < rv.len() && gv[g] == ids_with_hash(
                rv,
                rv[firsts[g]].hash,
            ) && gv[g].len() >= 2,
    ensures
        forall|g: int|
            0 <= g < gv.len() ==> #[trigger] gv[g].len() >= 2 && exists|k: int|
                0 <= k < rv.len() && gv[g] == ids_with_hash(rv, #[trigger] rv[k].hash),
{
    assert forall|g: int| 0 <= g < gv.len() implies #[trigger] gv[g].len() >= 2 && exists|k: int|
        0 <= k < rv.len() && gv[g] == ids_with_hash(rv, #[trigger] rv[k].hash) by {
        let k = firsts[g];
        assert(0 <= k < rv.len() && gv[g] == ids_with_hash(rv, rv[k].hash));
    }
}

proof fn lemma_groups_complete(gv: Seq<Seq<i64>>, rv: Seq<RowView>, firsts: Seq<int>)
    requires
        firsts.len() == gv.len(),
        forall|g: int|
            0 <= g < gv.len() ==> 0 <= #[trigger] firsts[g] < rv.len() && gv[g] == ids_with_hash(
                rv,
                rv[firsts[g]].hash,
            ),
        forall|k: int|
            0 <= k < rv.len() && #[trigger] ids_with_hash(rv, rv[k].hash).len() >= 2 ==> exists|g: int|
                0 <= g < gv.len() && rv[firsts[g]].hash == rv[k].hash,
    ensures
        forall|k: int|
            0 <= k < rv.len() && #[trigger] ids_with_hash(rv, rv[k].hash).len() >= 2 ==> exists|g: int|
                0 <= g < gv.len() && #[trigger] gv[g] == ids_with_hash(rv, rv[k].hash),
{
    assert forall|k: int|
        0 <= k < rv.len() && #[trigger] ids_with_hash(rv, rv[k].hash).len() >= 2 implies exists|g: int|
            0 <= g < gv.len() && #[trigger] gv[g] == ids_with_hash(rv, rv[k].hash) by {
        let g = choose|g: int| 0 <= g < gv.len() && rv[firsts[g]].hash == rv[k].hash;
        assert(gv[g] == ids_with_hash(rv, rv[firsts[g]].hash));
    }
}

/// Groups the candidate rows by content hash, keeping groups of two or more.
pub fn group_duplicates(rows: &Vec<IndexRow>) -> (r: Vec<Vec<i64>>)
    requires
        ids_unique(row_views(rows@)),
    ensures
        is_duplicate_grouping(r@.map_values(|g: Vec<i64>| g@), row_views(rows@)),
{
    let ghost rv = row_views(rows@);
    let mut groups: Vec<Vec<i64>> = Vec::new();
    let ghost mut firsts: Seq<int> = Seq::empty();
    let mut i: usize = 0;
    while i < rows.len()
        invariant
            i <= rows@.len(),
            rv == row_views(rows@),
            ids_unique(rv),
            firsts.len() == groups@.len(),
            forall|g: int|
                0 <= g < groups@.len() ==> 0 <= #[trigger] firsts[g] < i && groups@[g]@ == ids_with_hash(
                    rv,
                    rv[firsts[g]].hash,
                ) && groups@[g]@.len() >= 2,
            forall|g1: int, g2: int|
                0 <= g1 < groups@.len() && 0 <= g2 < groups@.len() && g1 != g2
                    ==> rv[#[trigger] firsts[g1]].hash != rv[#[trigger] firsts[g2]].hash,
            forall|k: int|
                0 <= k < i && #[trigger] ids_with_hash(rv, rv[k].hash).len() >= 2 ==> exists|g: int|
                    0 <= g < groups@.len() && rv[firsts[g]].hash == rv[k].hash,
        decreases rows@.len() - i,
    {
        let ghost h = rv[i as int].hash;
        let ghost old_firsts = firsts;
        let ghost old_len = groups@.len();
        let first = first_of_hash(rows, i);
        if first {
            let group = group_of(rows, i);
            if group.len() >= 2 {
                proof {
                    assert forall|g: int| 0 <= g < groups@.len() implies rv[firsts[g]].hash != h by {
                        assert(rows@[firsts[g]]@.hash != rows@[i as int]@.hash);
                    }
                    firsts = firsts.push(i as int);
                }
                groups.push(group);
                proof {
                    assert(rv[firsts[groups@.len() - 1]].hash == h);
                }
            }
        } else {
            proof {
                let j = choose|j: int| 0 <= j < i && #[trigger] rows@[j]@.hash == rows@[i as int]@.hash;
                assert(rv[j].hash == h);
                if ids_with_hash(rv, h).len() >= 2 {
                    assert(ids_with_hash(rv, rv[j].hash).len() >= 2);
                    let g = choose|g: int| 0 <= g < groups@.len() && rv[firsts[g]].hash == rv[j].hash;
                    assert(rv[firsts[g]].hash == h);
                }
            }
        }
        proof {
            assert forall|k: int|
                0 <= k < i + 1 && #[trigger] ids_with_hash(rv, rv[k].hash).len() >= 2 implies exists|g: int|
                    0 <= g < groups@.len() && rv[firsts[g]].hash == rv[k].hash by {
                if k < i {
                    let g = choose|g: int| 0 <= g < old_len && rv[old_firsts[g]].hash == rv[k].hash;
                    assert(firsts[g] == old_firsts[g]);
                } else if first {
                    assert(groups@.len() == old_len + 1);
                    assert(rv[firsts[old_len as int]].hash == rv[k].hash);
                } else {
                    let j = choose|j: int| 0 <= j < i && #[trigger] rows@[j]@.hash == rows@[i as int]@.hash;
                    assert(rv[j].hash == h);
                    assert(ids_with_hash(rv, rv[j].hash).len() >= 2);
                    let g = choose|g: int| 0 <= g < old_len && rv[old_firsts[g]].hash == rv[j].hash;
                    assert(rv[firsts[g]].hash == rv[k].hash);
                }
            }
        }
        i = i + 1;
    }
    proof {
        let gv = groups@.map_values(|g: Vec<i64>| g@);
        lemma_grouping_from_firsts(gv, rv, firsts);
    }
    groups
}

impl PhotoLibrary {
    /// The duplicate groups of `user_id`: the ids of the hashed, non-trashed
    /// photos owned by `user_id` or public, grouped by content hash, keeping
    /// groups of two or more. Neither the order of the groups nor the order
    /// inside a group means anything.
    pub fn get_duplicates_for_user(&self, user_id: &str) -> (r: Vec<Vec<i64>>)
        requires
            self@.wf(),
        ensures
            is_duplicate_grouping(
                r@.map_values(|g: Vec<i64>| g@),
                duplicate_candidates(self@.rows, user_id@),
            ),
    {
        let q = Query::DuplicateCandidates(String::from_str(user_id));
        let cands = self.select_index_rows(&q);
        proof {
            assert(query_pred(q) == candidate_pred(user_id@));
        }
        group_duplicates(&cands)
    }
}

} // verus!
