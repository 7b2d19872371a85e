use vstd::prelude::*;
use crate::error::LoadError;
use crate::row::{Row, column_pos, find_column};
use crate::value::{RawValue, same_id, same_identifier};

verus! {

/// A batch of relationship rows that touch pairwise different identifiers.
///
/// `members` are the positions of the rows in the input, in input order;
/// `used` lists the start and end identifier of each member, in the same order.
#[derive(Debug, Clone, PartialEq, Eq)]
pub struct ColorGroup {
    pub members: Vec<usize>,
    pub used: Vec<RawValue>,
}

/// The identifier pair (start, end) of every row.
pub type IdPairs = Seq<(RawValue, RawValue)>;

/// The row has no column named `s` or none named `e`.
pub open spec fn lacks_id(row: Row, s: Seq<char>, e: Seq<char>) -> bool {
    column_pos(row.columns@, s) >= row.columns@.len() || column_pos(row.columns@, e)
        >= row.columns@.len()
}

/// The start and end identifiers of a row: the values of its columns `s` and `e`.
pub open spec fn id_pair(row: Row, s: Seq<char>, e: Seq<char>) -> (RawValue, RawValue) {
    (row.columns@[column_pos(row.columns@, s)].value, row.columns@[column_pos(row.columns@, e)].value)
}

/// The identifier pairs of all rows.
pub open spec fn ids_of(rows: Seq<Row>, s: Seq<char>, e: Seq<char>) -> IdPairs {
    Seq::new(rows.len(), |i: int| id_pair(rows[i], s, e))
}

/// Two rows share an identifier (`p` the earlier one, `q` the later one).
pub open spec fn shares(p: (RawValue, RawValue), q: (RawValue, RawValue)) -> bool {
    same_id(p.0, q.0) || same_id(p.1, q.0) || same_id(p.0, q.1) || same_id(p.1, q.1)
}

/// Row `i` shares an identifier with a member of `g`.
pub open spec fn conflicts(ids: IdPairs, g: Seq<usize>, i: int) -> bool {
    exists|k: int| 0 <= k < g.len() && shares(ids[#[trigger] g[k] as int], ids[i])
}

/// The first group at or after `from` that row `i` does not conflict with, or
/// the number of groups where there is none.
pub open spec fn first_fit(ids: IdPairs, groups: Seq<Seq<usize>>, i: int, from: int) -> int
    decreases groups.len() - from,
{
    if from < 0 || from >= groups.len() {
        groups.len() as int
    } else if !conflicts(ids, groups[from], i) {
        from
    } else {
        first_fit(ids, groups, i, from + 1)
    }
}

/// The groups of the first `n` rows under greedy first-fit: each row joins the
/// earliest group it does not conflict with, or opens a new group at the end.
pub open spec fn greedy(ids: IdPairs, n: nat) -> Seq<Seq<usize>>
    decreases n,
{
    if n == 0 {
        Seq::empty()
    } else {
        let gs = greedy(ids, (n - 1) as nat);
        let i = n - 1;
        let k = first_fit(ids, gs, i, 0);
        if k < gs.len() {
            gs.update(k, gs[k].push(i as usize))
        } else {
            gs.push(seq![i as usize])
        }
    }
}

/// The identifiers of the members of `g`: start then end of each, in order.
pub open spec fn id_list(ids: IdPairs, g: Seq<usize>) -> Seq<RawValue> {
    Seq::new(
        2 * g.len(),
        |j: int|
            if j % 2 == 0 {
                ids[g[j / 2] as int].0
            } else {
                ids[g[j / 2] as int].1
            },
    )
}

/// Row `i` is a member of one of `groups`.
pub open spec fn placed_in(groups: Seq<Seq<usize>>, i: int) -> bool {
    exists|g: int, p: int| 0 <= g < groups.len() && 0 <= p < groups[g].len() && #[trigger] groups[g][p] == i
}

/// The member lists of a sequence of groups.
pub open spec fn members_of(groups: Seq<ColorGroup>) -> Seq<Seq<usize>> {
    Seq::new(groups.len(), |g: int| groups[g]@)
}

impl View for ColorGroup {
    type V = Seq<usize>;

    open spec fn view(&self) -> Seq<usize> {
        self.members@
    }
}

/// `err` reports the missing identifier column of the first row that lacks one
/// (the start column where both are missing).
pub open spec fn missing_column_error(rows: Seq<Row>, s: Seq<char>, e: Seq<char>, err: LoadError) -> bool {
    exists|i: int|
        0 <= i < rows.len() && lacks_id(#[trigger] rows[i], s, e) && (forall|j: int|
            0 <= j < i ==> !lacks_id(#[trigger] rows[j], s, e)) && (err matches LoadError::MissingColumn(
            c,
        ) && c@ == (if column_pos(rows[i].columns@, s) >= rows[i].columns@.len() {
            s
        } else {
            e
        }))
}

/// What partitioning `rows` by the columns `s` and `e` returns: an error for the
/// first row that lacks an identifier column, and otherwise the greedy groups,
/// each listing the identifiers its members use.
pub open spec fn partition_post(
    rows: Seq<Row>,
    s: Seq<char>,
    e: Seq<char>,
    r: Result<Vec<ColorGroup>, LoadError>,
) -> bool {
    &&& (forall|i: int| 0 <= i < rows.len() ==> !lacks_id(#[trigger] rows[i], s, e)) <==> r is Ok
    &&& r matches Err(err) ==> missing_column_error(rows, s, e, err)
    &&& r matches Ok(gs) ==> {
        &&& members_of(gs@) == greedy(ids_of(rows, s, e), rows.len())
        &&& forall|g: int|
            0 <= g < gs@.len() ==> (#[trigger] gs@[g]).used@ == id_list(ids_of(rows, s, e), gs@[g]@)
    }
}

/// Whether `x` is one of the identifiers in `used`.
fn holds_id(used: &Vec<RawValue>, x: &RawValue) -> (r: bool)
    ensures
        r == exists|j: int| 0 <= j < used@.len() && same_id(#[trigger] used@[j], *x),
{
    let mut j: usize = 0;
    while j < used.len()
        invariant
            j <= used@.len(),
            forall|k: int| 0 <= k < j ==> !same_id(#[trigger] used@[k], *x),
        decreases used.len() - j,
    {
        if same_identifier(&used[j], x) {
            return true;
        }
        j += 1;
    }
    false
}

/// Row `i` conflicts with a group exactly when the group's used identifiers
/// hold its start or its end identifier.
proof fn lemma_conflict_by_used(ids: IdPairs, g: Seq<usize>, i: int)
    requires
        forall|k: int| 0 <= k < g.len() ==> 0 <= #[trigger] g[k] < ids.len(),
        0 <= i < ids.len(),
    ensures
        conflicts(ids, g, i) <==> ((exists|j: int|
            0 <= j < id_list(ids, g).len() && same_id(#[trigger] id_list(ids, g)[j], ids[i].0)) || (
        exists|j: int|
            0 <= j < id_list(ids, g).len() && same_id(#[trigger] id_list(ids, g)[j], ids[i].1))),
{
    let l = id_list(ids, g);
    if conflicts(ids, g, i) {
        let k = choose|k: int| 0 <= k < g.len() && shares(ids[#[trigger] g[k] as int], ids[i]);
        assert(l[2 * k] == ids[g[k] as int].0);
        assert(l[2 * k + 1] == ids[g[k] as int].1);
    }
    if exists|j: int| 0 <= j < l.len() && same_id(#[trigger] l[j], ids[i].0) {
        let j = choose|j: int| 0 <= j < l.len() && same_id(#[trigger] l[j], ids[i].0);
        let k = j / 2;
        assert(0 <= k < g.len() && shares(ids[g[k] as int], ids[i]));
    }
    if exists|j: int| 0 <= j < l.len() && same_id(#[trigger] l[j], ids[i].1) {
        let j = choose|j: int| 0 <= j < l.len() && same_id(#[trigger] l[j], ids[i].1);
        let k = j / 2;
        assert(0 <= k < g.len() && shares(ids[g[k] as int], ids[i]));
    }
}

/// First-fit answers a group at or after `from`, or the number of groups.
proof fn lemma_first_fit_range(ids: IdPairs, groups: Seq<Seq<usize>>, i: int, from: int)
    requires
        0 <= from,
    ensures
        from <= first_fit(ids, groups, i, from) <= groups.len() || (from > groups.len()
            && first_fit(ids, groups, i, from) == groups.len()),
    decreases groups.len() - from,
{
    if from < groups.len() && conflicts(ids, groups[from], i) {
        lemma_first_fit_range(ids, groups, i, from + 1);
    }
}

/// Every member of the greedy groups of the first `n` rows is below `n`.
proof fn lemma_members_below(ids: IdPairs, n: nat)
    requires
        n <= usize::MAX,
    ensures
        forall|g: int, p: int|
            0 <= g < greedy(ids, n).len() && 0 <= p < greedy(ids, n)[g].len() ==> #[trigger] greedy(
                ids,
                n,
            )[g][p] < n,
    decreases n,
{
    if n > 0 {
        lemma_members_below(ids, (n - 1) as nat);
        let gs = greedy(ids, (n - 1) as nat);
        let k = first_fit(ids, gs, n - 1, 0);
        lemma_first_fit_range(ids, gs, n - 1, 0);
        assert forall|g: int, p: int|
            0 <= g < greedy(ids, n).len() && 0 <= p < greedy(ids, n)[g].len() implies #[trigger] greedy(
                ids,
                n,
            )[g][p] < n by {
            if k < gs.len() {
                assert(greedy(ids, n) == gs.update(k, gs[k].push((n - 1) as usize)));
                if g != k {
                    assert(greedy(ids, n)[g] == gs[g]);
                    assert(gs[g][p] < n - 1);
                } else if p < gs[g].len() {
                    assert(greedy(ids, n)[g][p] == gs[g][p]);
                    assert(gs[g][p] < n - 1);
                }
            } else {
                assert(greedy(ids, n) == gs.push(seq![(n - 1) as usize]));
                if g < gs.len() {
                    assert(gs[g][p] < n - 1);
                }
            }
        }
    }
}

/// Two rows placed in one greedy group never share an identifier.
proof fn lemma_greedy_pairwise(ids: IdPairs, n: nat)
    requires
        n <= usize::MAX,
    ensures
        forall|g: int, p: int, q: int|
            0 <= g < greedy(ids, n).len() && 0 <= p < q < greedy(ids, n)[g].len() ==> !shares(
                ids[#[trigger] greedy(ids, n)[g][p] as int],
                ids[#[trigger] greedy(ids, n)[g][q] as int],
            ),
    decreases n,
{
    if n > 0 {
        lemma_greedy_pairwise(ids, (n - 1) as nat);
        let gs = greedy(ids, (n - 1) as nat);
        let i = n - 1;
        let k = first_fit(ids, gs, i, 0);
        lemma_first_fit_range(ids, gs, i, 0);
        let G = greedy(ids, n);
        if k < gs.len() {
            lemma_first_fit_found(ids, gs, i, 0);
            assert(G == gs.update(k, gs[k].push(i as usize)));
            assert forall|g: int, p: int, q: int|
                0 <= g < G.len() && 0 <= p < q < G[g].len() implies !shares(
                ids[#[trigger] G[g][p] as int],
                ids[#[trigger] G[g][q] as int],
            ) by {
                if g == k && q == gs[k].len() {
                    assert(G[g][q] == i);
                    assert(G[g][p] == gs[k][p]);
                    if shares(ids[gs[k][p] as int], ids[i]) {
                        assert(conflicts(ids, gs[k], i));
                    }
                } else if g == k {
                    assert(G[g][p] == gs[g][p] && G[g][q] == gs[g][q]);
                } else {
                    assert(G[g] == gs[g]);
                }
            }
        } else {
            assert(G == gs.push(seq![i as usize]));
            assert forall|g: int, p: int, q: int|
                0 <= g < G.len() && 0 <= p < q < G[g].len() implies !shares(
                ids[#[trigger] G[g][p] as int],
                ids[#[trigger] G[g][q] as int],
            ) by {
                if g < gs.len() {
                    assert(G[g] == gs[g]);
                }
            }
        }
    }
}

/// A group that first-fit answers, below the number of groups, does not
/// conflict with the row.
proof fn lemma_first_fit_found(ids: IdPairs, groups: Seq<Seq<usize>>, i: int, from: int)
    requires
        0 <= from,
        first_fit(ids, groups, i, from) < groups.len(),
    ensures
        !conflicts(ids, groups[first_fit(ids, groups, i, from)], i),
    decreases groups.len() - from,
{
    if from < groups.len() && conflicts(ids, groups[from], i) {
        lemma_first_fit_found(ids, groups, i, from + 1);
    }
}

/// Same identifiers are the same in either order.
proof fn lemma_same_id_symmetric(a: RawValue, b: RawValue)
    ensures
        same_id(a, b) == same_id(b, a),
{
}

/// Each row of the first `n` lands in exactly one greedy group, once, and a
/// group lists its rows in input order.
proof fn lemma_greedy_complete(ids: IdPairs, n: nat)
    requires
        n <= usize::MAX,
    ensures
        forall|i: int| 0 <= i < n ==> #[trigger] placed_in(greedy(ids, n), i),
        forall|g: int, p: int, q: int|
            0 <= g < greedy(ids, n).len() && 0 <= p < q < greedy(ids, n)[g].len() ==> #[trigger] greedy(
                ids,
                n,
            )[g][p] < #[trigger] greedy(ids, n)[g][q],
        forall|ga: int, pa: int, gb: int, pb: int|
            0 <= ga < greedy(ids, n).len() && 0 <= pa < greedy(ids, n)[ga].len() && 0 <= gb
                < greedy(ids, n).len() && 0 <= pb < greedy(ids, n)[gb].len() && ga != gb ==> #[trigger] greedy(
                ids,
                n,
            )[ga][pa] != #[trigger] greedy(ids, n)[gb][pb],
    decreases n,
{
    if n > 0 {
        lemma_greedy_complete(ids, (n - 1) as nat);
        lemma_members_below(ids, (n - 1) as nat);
        let gs = greedy(ids, (n - 1) as nat);
        let i = n - 1;
        let k = first_fit(ids, gs, i, 0);
        lemma_first_fit_range(ids, gs, i, 0);
        let G = greedy(ids, n);
        if k < gs.len() {
            assert(G == gs.update(k, gs[k].push(i as usize)));
            assert forall|g: int, p: int| 0 <= g < gs.len() && 0 <= p < gs[g].len() implies
                #[trigger] G[g][p] == gs[g][p] by {
                if g == k {
                    assert(G[g] == gs[g].push(i as usize));
                }
            }
            assert(G[k][gs[k].len() as int] == i);
        } else {
            assert(G == gs.push(seq![i as usize]));
            assert forall|g: int, p: int| 0 <= g < gs.len() && 0 <= p < gs[g].len() implies
                #[trigger] G[g][p] == gs[g][p] by {
                assert(G[g] == gs[g]);
            }
            assert(G[gs.len() as int][0] == i);
        }
        assert forall|j: int| 0 <= j < n implies #[trigger] placed_in(G, j) by {
            if j < i {
                assert(placed_in(gs, j));
                let (g, p) = choose|g: int, p: int|
                    0 <= g < gs.len() && 0 <= p < gs[g].len() && #[trigger] gs[g][p] == j;
                assert(G[g][p] == j);
            } else if k < gs.len() {
                assert(G[k][gs[k].len() as int] == j);
            } else {
                assert(G[gs.len() as int][0] == j);
            }
        }
        assert forall|g: int, p: int, q: int|
            0 <= g < G.len() && 0 <= p < q < G[g].len() implies #[trigger] G[g][p] < #[trigger] G[g][q] by {
            if g < gs.len() && q < gs[g].len() {
                assert(G[g][p] == gs[g][p] && G[g][q] == gs[g][q]);
            } else if g < gs.len() {
                assert(G[g][p] == gs[g][p]);
                assert(gs[g][p] < i);
            }
        }
        assert forall|ga: int, pa: int, gb: int, pb: int|
            0 <= ga < G.len() && 0 <= pa < G[ga].len() && 0 <= gb < G.len() && 0 <= pb < G[gb].len()
                && ga != gb implies #[trigger] G[ga][pa] != #[trigger] G[gb][pb] by {
            let old_a = ga < gs.len() && pa < gs[ga].len();
            let old_b = gb < gs.len() && pb < gs[gb].len();
            if old_a {
                assert(G[ga][pa] == gs[ga][pa] && gs[ga][pa] < i);
            } else {
                assert(G[ga][pa] == i);
            }
            if old_b {
                assert(G[gb][pb] == gs[gb][pb] && gs[gb][pb] < i);
            } else {
                assert(G[gb][pb] == i);
            }
        }
    }
}

/// Within every group that partitioning returns, the identifiers its rows use
/// (start and end of each) are pairwise different, provided no row uses one
/// identifier as both its start and its end.
pub proof fn lemma_partition_disjoint(
    rows: Seq<Row>,
    s: Seq<char>,
    e: Seq<char>,
    r: Result<Vec<ColorGroup>, LoadError>,
)
    requires
        rows.len() <= usize::MAX,
        partition_post(rows, s, e, r),
        r is Ok,
        forall|i: int|
            0 <= i < rows.len() ==> !same_id(
                (#[trigger] id_pair(rows[i], s, e)).0,
                id_pair(rows[i], s, e).1,
            ),
    ensures
        forall|g: int, ja: int, jb: int|
            0 <= g < r->Ok_0@.len() && 0 <= ja < jb < r->Ok_0@[g].used@.len() ==> !same_id(
                #[trigger] r->Ok_0@[g].used@[ja],
                #[trigger] r->Ok_0@[g].used@[jb],
            ),
{
    let gs = r->Ok_0@;
    let ids = ids_of(rows, s, e);
    let G = greedy(ids, rows.len());
    lemma_greedy_pairwise(ids, rows.len());
    lemma_members_below(ids, rows.len());
    assert forall|g: int, ja: int, jb: int|
        0 <= g < gs.len() && 0 <= ja < jb < gs[g].used@.len() implies !same_id(
        #[trigger] gs[g].used@[ja],
        #[trigger] gs[g].used@[jb],
    ) by {
        assert(members_of(gs)[g] == G[g]);
        let l = id_list(ids, G[g]);
        assert(gs[g].used@ == l);
        let pa = ja / 2;
        let pb = jb / 2;
        let ma = G[g][pa] as int;
        let mb = G[g][pb] as int;
        assert(ma < rows.len() && mb < rows.len());
        assert(ids[ma] == id_pair(rows[ma], s, e));
        if pa == pb {
            lemma_same_id_symmetric(ids[ma].0, ids[ma].1);
        } else {
            assert(!shares(ids[G[g][pa] as int], ids[G[g][pb] as int]));
        }
    }
}

/// Partitioning puts every input row in exactly one group, exactly once, and
/// nothing else: each member is the position of an input row.
pub proof fn lemma_partition_complete(
    rows: Seq<Row>,
    s: Seq<char>,
    e: Seq<char>,
    r: Result<Vec<ColorGroup>, LoadError>,
)
    requires
        rows.len() <= usize::MAX,
        partition_post(rows, s, e, r),
        r is Ok,
    ensures
        forall|i: int| 0 <= i < rows.len() ==> #[trigger] placed_in(members_of(r->Ok_0@), i),
        forall|g: int, p: int|
            0 <= g < r->Ok_0@.len() && 0 <= p < r->Ok_0@[g]@.len() ==> #[trigger] r->Ok_0@[g]@[p]
                < rows.len(),
        forall|ga: int, pa: int, gb: int, pb: int|
            0 <= ga < r->Ok_0@.len() && 0 <= pa < r->Ok_0@[ga]@.len() && 0 <= gb < r->Ok_0@.len()
                && 0 <= pb < r->Ok_0@[gb]@.len() && #[trigger] r->Ok_0@[ga]@[pa]
                == #[trigger] r->Ok_0@[gb]@[pb] ==> ga == gb && pa == pb,
{
    let gs = r->Ok_0@;
    let ids = ids_of(rows, s, e);
    let G = greedy(ids, rows.len());
    lemma_greedy_complete(ids, rows.len());
    lemma_members_below(ids, rows.len());
    assert forall|g: int| 0 <= g < gs.len() implies #[trigger] gs[g]@ == G[g] by {
        assert(members_of(gs)[g] == G[g]);
    }
    assert forall|i: int| 0 <= i < rows.len() implies #[trigger] placed_in(members_of(gs), i) by {
        assert(placed_in(G, i));
    }
    assert forall|g: int, p: int| 0 <= g < gs.len() && 0 <= p < gs[g]@.len() implies #[trigger] gs[g]@[p]
        < rows.len() by {
        assert(G[g][p] < rows.len());
    }
    assert forall|ga: int, pa: int, gb: int, pb: int|
        0 <= ga < gs.len() && 0 <= pa < gs[ga]@.len() && 0 <= gb < gs.len() && 0 <= pb < gs[gb]@.len()
            && #[trigger] gs[ga]@[pa] == #[trigger] gs[gb]@[pb] implies ga == gb && pa == pb by {
        assert(G[ga][pa] == G[gb][pb]);
        if ga == gb && pa < pb {
            assert(G[ga][pa] < G[ga][pb]);
        } else if ga == gb && pb < pa {
            assert(G[ga][pb] < G[ga][pa]);
        }
    }
}

/// Partitioning is deterministic: two runs on the same rows either both fail,
/// naming the same column, or both give the same groups, with the same members
/// in the same order and the same used identifiers.
pub proof fn lemma_partition_deterministic(
    rows: Seq<Row>,
    s: Seq<char>,
    e: Seq<char>,
    r1: Result<Vec<ColorGroup>, LoadError>,
    r2: Result<Vec<ColorGroup>, LoadError>,
)
    requires
        partition_post(rows, s, e, r1),
        partition_post(rows, s, e, r2),
    ensures
        r1 is Ok <==> r2 is Ok,
        r1 is Ok ==> members_of(r1->Ok_0@) == members_of(r2->Ok_0@) && forall|g: int|
            0 <= g < r1->Ok_0@.len() ==> (#[trigger] r1->Ok_0@[g]).used@ == r2->Ok_0@[g].used@,
        r1 is Err ==> (r1->Err_0 is MissingColumn && r2->Err_0 is MissingColumn
            && r1->Err_0->MissingColumn_0@ == r2->Err_0->MissingColumn_0@),
{
    if r1 is Ok {
        let a = r1->Ok_0@;
        let b = r2->Ok_0@;
        assert(members_of(a).len() == members_of(b).len());
        assert forall|g: int| 0 <= g < a.len() implies (#[trigger] a[g]).used@ == b[g].used@ by {
            assert(members_of(a)[g] == members_of(b)[g]);
            assert(a[g]@ == b[g]@);
            assert(a[g].used@ == id_list(ids_of(rows, s, e), a[g]@));
            assert(b[g].used@ == id_list(ids_of(rows, s, e), b[g]@));
        }
    } else {
        let ia = choose|i: int|
            0 <= i < rows.len() && lacks_id(#[trigger] rows[i], s, e) && (forall|j: int|
                0 <= j < i ==> !lacks_id(#[trigger] rows[j], s, e)) && (r1->Err_0 matches LoadError::MissingColumn(
                c,
            ) && c@ == (if column_pos(rows[i].columns@, s) >= rows[i].columns@.len() {
                s
            } else {
                e
            }));
        let ib = choose|i: int|
            0 <= i < rows.len() && lacks_id(#[trigger] rows[i], s, e) && (forall|j: int|
                0 <= j < i ==> !lacks_id(#[trigger] rows[j], s, e)) && (r2->Err_0 matches LoadError::MissingColumn(
                c,
            ) && c@ == (if column_pos(rows[i].columns@, s) >= rows[i].columns@.len() {
                s
            } else {
                e
            }));
        if ia < ib {
            assert(!lacks_id(rows[ia], s, e));
        } else if ib < ia {
            assert(!lacks_id(rows[ib], s, e));
        }
    }
}

/// Splits relationship rows into groups whose rows touch pairwise different
/// identifiers, by greedy first-fit in input order. The identifiers of a row
/// are the values of its columns `start_col` and `end_col`; a row without one
/// of them fails the whole partition and no group is returned.
pub fn partition(rows: &Vec<Row>, start_col: &str, end_col: &str) -> (r: Result<
    Vec<ColorGroup>,
    LoadError,
>)
    ensures
        partition_post(rows@, start_col@, end_col@, r),
{
    let ghost ids = ids_of(rows@, start_col@, end_col@);
    let start = start_col.to_owned();
    let end = end_col.to_owned();
    let mut groups: Vec<ColorGroup> = Vec::new();
    let mut i: usize = 0;
    while i < rows.len()
        invariant
            i <= rows@.len(),
            ids == ids_of(rows@, start_col@, end_col@),
            start@ == start_col@,
            end@ == end_col@,
            forall|j: int| 0 <= j < i ==> !lacks_id(#[trigger] rows@[j], start_col@, end_col@),
            members_of(groups@) == greedy(ids, i as nat),
            forall|g: int| 0 <= g < groups@.len() ==> (#[trigger] groups@[g]).used@ == id_list(ids, groups@[g]@),
        decreases rows.len() - i,
    {
        let row = &rows[i];
        let si = match find_column(row, &start) {
            Some(x) => x,
            None => {
                assert(missing_column_error(rows@, start_col@, end_col@, LoadError::MissingColumn(start))
                    ) by {
                    assert(lacks_id(rows@[i as int], start_col@, end_col@));
                };
                return Err(LoadError::MissingColumn(start));
            },
        };
        let ei = match find_column(row, &end) {
            Some(x) => x,
            None => {
                assert(missing_column_error(rows@, start_col@, end_col@, LoadError::MissingColumn(end))
                    ) by {
                    assert(lacks_id(rows@[i as int], start_col@, end_col@));
                };
                return Err(LoadError::MissingColumn(end));
            },
        };
        let sv = &row.columns[si].value;
        let ev = &row.columns[ei].value;
        assert(*sv == ids[i as int].0 && *ev == ids[i as int].1);
        let ghost gs = members_of(groups@);
        proof {
            lemma_members_below(ids, i as nat);
        }
        let mut g: usize = 0;
        let mut placed = false;
        while g < groups.len() && !placed
            invariant
                g <= groups@.len(),
                !placed ==> gs == members_of(groups@),
                !placed ==> first_fit(ids, gs, i as int, 0) == first_fit(ids, gs, i as int, g as int),
                !placed ==> forall|h: int| 0 <= h < groups@.len() ==> (#[trigger] groups@[h]).used@ == id_list(ids, groups@[h]@),
                placed ==> members_of(groups@) == greedy(ids, (i + 1) as nat),
                placed ==> forall|h: int| 0 <= h < groups@.len() ==> (#[trigger] groups@[h]).used@ == id_list(ids, groups@[h]@),
                i < rows@.len(),
                ids == ids_of(rows@, start_col@, end_col@),
                gs == greedy(ids, i as nat),
                *sv == ids[i as int].0,
                *ev == ids[i as int].1,
                forall|h: int, p: int| 0 <= h < gs.len() && 0 <= p < gs[h].len() ==> #[trigger] gs[h][p] < i,
            decreases groups.len() - g + (if placed { 0int } else { 1int }),
        {
            proof {
                lemma_conflict_by_used(ids, gs[g as int], i as int);
            }
            if !holds_id(&groups[g].used, sv) && !holds_id(&groups[g].used, ev) {
                let ghost old_groups = groups@;
                groups[g].members.push(i);
                groups[g].used.push(sv.duplicate());
                groups[g].used.push(ev.duplicate());
                proof {
                    assert(members_of(groups@) =~= gs.update(g as int, gs[g as int].push(i)));
                    assert forall|h: int| 0 <= h < groups@.len() implies (#[trigger] groups@[h]).used@ == id_list(ids, groups@[h]@) by {
                        if h == g {
                            assert(groups@[h].used@ =~= id_list(ids, groups@[h]@));
                        } else {
                            assert(groups@[h] == old_groups[h]);
                        }
                    }
                }
                placed = true;
            } else {
                g += 1;
            }
        }
        if !placed {
            let mut members: Vec<usize> = Vec::new();
            members.push(i);
            let mut used: Vec<RawValue> = Vec::new();
            used.push(sv.duplicate());
            used.push(ev.duplicate());
            let ghost old_groups = groups@;
            groups.push(ColorGroup { members, used });
            proof {
                assert(members_of(groups@) =~= gs.push(seq![i]));
                assert forall|h: int| 0 <= h < groups@.len() implies (#[trigger] groups@[h]).used@ == id_list(ids, groups@[h]@) by {
                    if h == old_groups.len() {
                        assert(groups@[h].used@ =~= id_list(ids, groups@[h]@));
                    } else {
                        assert(groups@[h] == old_groups[h]);
                    }
                }
            }
        }
        i += 1;
    }
    Ok(groups)
}

/// The number of rows in each group, in group order.
pub fn group_sizes(groups: &Vec<ColorGroup>) -> (r: Vec<usize>)
    ensures
        r@.len() == groups@.len(),
        forall|g: int| 0 <= g < groups@.len() ==> r@[g] == (#[trigger] groups@[g])@.len(),
{
    let mut out: Vec<usize> = Vec::new();
    let mut g: usize = 0;
    while g < groups.len()
        invariant
            g <= groups@.len(),
            out@.len() == g,
            forall|h: int| 0 <= h < g ==> out@[h] == (#[trigger] groups@[h])@.len(),
        decreases groups.len() - g,
    {
        out.push(groups[g].members.len());
        g += 1;
    }
    out
}

} // verus!
