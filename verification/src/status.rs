//! Project status figures: item counts by status and blocked items grouped
//! with their blockers.

use vstd::prelude::*;

use crate::text::{lemma_seq_lt_irreflexive, lemma_seq_lt_total, lemma_seq_lt_transitive, seq_lt, str_eq, str_lt};

verus! {

/// Number of items in each status.
#[derive(Debug, Clone, Copy, PartialEq, Eq, Structural)]
pub struct StatusCounts {
    pub todo: i64,
    pub in_progress: i64,
    pub done: i64,
}

/// The count that the rows give for status `name`: the last row for it,
/// 0 when there is none.
pub open spec fn count_for(rows: Seq<(String, i64)>, name: Seq<char>) -> i64
    decreases rows.len(),
{
    if rows.len() == 0 {
        0
    } else if rows.last().0@ == name {
        rows.last().1
    } else {
        count_for(rows.drop_last(), name)
    }
}

impl StatusCounts {
    /// The counts from `(status, count)` rows; a status with no row counts
    /// 0.
    pub fn from_rows(rows: &Vec<(String, i64)>) -> (r: StatusCounts)
        ensures
            r.todo == count_for(rows@, "todo"@),
            r.in_progress == count_for(rows@, "in_progress"@),
            r.done == count_for(rows@, "done"@),
    {
        let mut c = StatusCounts { todo: 0, in_progress: 0, done: 0 };
        let mut i: usize = 0;
        while i < rows.len()
            invariant
                i <= rows@.len(),
                c.todo == count_for(rows@.take(i as int), "todo"@),
                c.in_progress == count_for(rows@.take(i as int), "in_progress"@),
                c.done == count_for(rows@.take(i as int), "done"@),
            decreases rows.len() - i,
        {
            proof {
                assert(rows@.take(i + 1).drop_last() =~= rows@.take(i as int));
                reveal_strlit("todo");
                reveal_strlit("in_progress");
                reveal_strlit("done");
                assert("todo"@.len() == 4 && "in_progress"@.len() == 11 && "done"@.len() == 4);
                assert("todo"@ != "done"@) by {
                    assert("todo"@[0] != "done"@[0]);
                }
            }
            let name = rows[i].0.as_str();
            let n = rows[i].1;
            if str_eq(name, "todo") {
                c.todo = n;
            } else if str_eq(name, "in_progress") {
                c.in_progress = n;
            } else if str_eq(name, "done") {
                c.done = n;
            }
            i = i + 1;
        }
        proof {
            assert(rows@.take(i as int) =~= rows@);
        }
        c
    }

    /// All items.
    pub fn total(&self) -> (r: i64)
        requires
            i64::MIN <= self.todo + self.in_progress + self.done <= i64::MAX,
            i64::MIN <= self.todo + self.in_progress <= i64::MAX,
        ensures
            r == self.todo + self.in_progress + self.done,
    {
        self.todo + self.in_progress + self.done
    }
}

/// An item that waits on an unfinished item, one row per blocker.
#[derive(Debug, Clone)]
pub struct BlockedItemRow {
    pub item_type: String,
    pub item_id: String,
    pub title: String,
    pub blocker_id: String,
}

/// A blocked item with all of its unfinished blockers.
#[derive(Debug, Clone)]
pub struct BlockedGroup {
    pub item_type: String,
    pub item_id: String,
    pub title: String,
    pub blocked_by: Vec<String>,
}

/// The key of a row: its item type and identifier.
pub open spec fn row_key(r: BlockedItemRow) -> (Seq<char>, Seq<char>) {
    (r.item_type@, r.item_id@)
}

/// The key of a group.
pub open spec fn group_key(g: BlockedGroup) -> (Seq<char>, Seq<char>) {
    (g.item_type@, g.item_id@)
}

/// Keys ordered by type, then identifier.
pub open spec fn key_lt(a: (Seq<char>, Seq<char>), b: (Seq<char>, Seq<char>)) -> bool {
    seq_lt(a.0, b.0) || (a.0 == b.0 && seq_lt(a.1, b.1))
}

/// Some row has key `k`.
pub open spec fn has_key(rows: Seq<BlockedItemRow>, k: (Seq<char>, Seq<char>)) -> bool {
    exists|i: int| 0 <= i < rows.len() && row_key(#[trigger] rows[i]) == k
}

/// The blockers of the rows with key `k`, in row order.
pub open spec fn blockers_of(rows: Seq<BlockedItemRow>, k: (Seq<char>, Seq<char>)) -> Seq<Seq<char>>
    decreases rows.len(),
{
    if rows.len() == 0 {
        Seq::empty()
    } else if row_key(rows.last()) == k {
        blockers_of(rows.drop_last(), k).push(rows.last().blocker_id@)
    } else {
        blockers_of(rows.drop_last(), k)
    }
}

/// The title of the first row with key `k`.
pub open spec fn first_title(rows: Seq<BlockedItemRow>, k: (Seq<char>, Seq<char>)) -> Seq<char>
    decreases rows.len(),
{
    if rows.len() == 0 {
        Seq::empty()
    } else if has_key(rows.drop_last(), k) {
        first_title(rows.drop_last(), k)
    } else {
        rows.last().title@
    }
}

/// `gs` groups `rows`: one group per key, in increasing key order, each
/// with the title of its first row and the blockers of its rows in order.
pub open spec fn groups_rows(gs: Seq<BlockedGroup>, rows: Seq<BlockedItemRow>) -> bool {
    &&& forall|i: int, j: int| 0 <= i < j < gs.len() ==> key_lt(group_key(#[trigger] gs[i]), group_key(#[trigger] gs[j]))
    &&& forall|i: int| 0 <= i < gs.len() ==> has_key(rows, group_key(#[trigger] gs[i]))
    &&& forall|i: int| 0 <= i < rows.len() ==> exists|j: int| 0 <= j < gs.len() && group_key(#[trigger] gs[j]) == row_key(#[trigger] rows[i])
    &&& forall|i: int| 0 <= i < gs.len() ==> (#[trigger] gs[i]).blocked_by@.map_values(|s: String| s@) == blockers_of(rows, group_key(gs[i]))
    &&& forall|i: int| 0 <= i < gs.len() ==> (#[trigger] gs[i]).title@ == first_title(rows, group_key(gs[i]))
}

proof fn lemma_key_lt_irreflexive(a: (Seq<char>, Seq<char>))
    ensures
        !key_lt(a, a),
{
    lemma_seq_lt_irreflexive(a.0);
    lemma_seq_lt_irreflexive(a.1);
}

proof fn lemma_key_lt_transitive(a: (Seq<char>, Seq<char>), b: (Seq<char>, Seq<char>), c: (Seq<char>, Seq<char>))
    requires
        key_lt(a, b),
        key_lt(b, c),
    ensures
        key_lt(a, c),
{
    if seq_lt(a.0, b.0) && seq_lt(b.0, c.0) {
        lemma_seq_lt_transitive(a.0, b.0, c.0);
    } else if a.0 == b.0 && b.0 == c.0 {
        lemma_seq_lt_transitive(a.1, b.1, c.1);
    }
}

proof fn lemma_key_lt_total(a: (Seq<char>, Seq<char>), b: (Seq<char>, Seq<char>))
    ensures
        a == b || key_lt(a, b) || key_lt(b, a),
{
    lemma_seq_lt_total(a.0, b.0);
    lemma_seq_lt_total(a.1, b.1);
}

fn key_less(t1: &str, i1: &str, t2: &str, i2: &str) -> (r: bool)
    ensures
        r == key_lt((t1@, i1@), (t2@, i2@)),
{
    str_lt(t1, t2) || (str_eq(t1, t2) && str_lt(i1, i2))
}

fn copy_str(s: &String) -> (r: String)
    ensures
        r@ == s@,
{
    String::from_str(s.as_str())
}

proof fn lemma_blockers_push(rows: Seq<BlockedItemRow>, r: BlockedItemRow, k: (Seq<char>, Seq<char>))
    ensures
        blockers_of(rows.push(r), k) == if row_key(r) == k {
            blockers_of(rows, k).push(r.blocker_id@)
        } else {
            blockers_of(rows, k)
        },
{
    assert(rows.push(r).drop_last() =~= rows);
}

proof fn lemma_has_key_push(rows: Seq<BlockedItemRow>, r: BlockedItemRow, k: (Seq<char>, Seq<char>))
    ensures
        has_key(rows.push(r), k) == (has_key(rows, k) || row_key(r) == k),
{
    if has_key(rows, k) {
        let i = choose|i: int| 0 <= i < rows.len() && row_key(#[trigger] rows[i]) == k;
        assert(rows.push(r)[i] == rows[i]);
    }
    if row_key(r) == k {
        assert(rows.push(r)[rows.len() as int] == r);
    }
    if has_key(rows.push(r), k) {
        let i = choose|i: int| 0 <= i < rows.push(r).len() && row_key(#[trigger] rows.push(r)[i]) == k;
        if i < rows.len() {
            assert(rows.push(r)[i] == rows[i]);
        }
    }
}

proof fn lemma_first_title_push(rows: Seq<BlockedItemRow>, r: BlockedItemRow, k: (Seq<char>, Seq<char>))
    ensures
        first_title(rows.push(r), k) == if has_key(rows, k) {
            first_title(rows, k)
        } else {
            r.title@
        },
{
    assert(rows.push(r).drop_last() =~= rows);
}

/// Adds one row to groups of the rows before it.
#[verifier::rlimit(100)]
fn add_row(gs: &mut Vec<BlockedGroup>, row: &BlockedItemRow, Ghost(before): Ghost<Seq<BlockedItemRow>>)
    requires
        groups_rows(old(gs)@, before),
    ensures
        groups_rows(final(gs)@, before.push(*row)),
{
    let ghost gs0 = gs@;
    let ghost now = before.push(*row);
    let ghost k = row_key(*row);
    let mut p: usize = 0;
    while p < gs.len() && key_less(
        gs[p].item_type.as_str(),
        gs[p].item_id.as_str(),
        row.item_type.as_str(),
        row.item_id.as_str(),
    )
        invariant
            p <= gs@.len(),
            gs@ == gs0,
            k == (row.item_type@, row.item_id@),
            forall|j: int| 0 <= j < p ==> key_lt(group_key(#[trigger] gs@[j]), k),
        decreases gs.len() - p,
    {
        p = p + 1;
    }
    let found = p < gs.len() && str_eq(gs[p].item_type.as_str(), row.item_type.as_str()) && str_eq(
        gs[p].item_id.as_str(),
        row.item_id.as_str(),
    );
    proof {
        lemma_has_key_push(before, *row, k);
        lemma_first_title_push(before, *row, k);
        lemma_blockers_push(before, *row, k);
        assert forall|j: int| 0 <= j < gs0.len() implies ({
            &&& blockers_of(now, group_key(#[trigger] gs0[j])) == if group_key(gs0[j]) == k {
                blockers_of(before, group_key(gs0[j])).push(row.blocker_id@)
            } else {
                blockers_of(before, group_key(gs0[j]))
            }
            &&& first_title(now, group_key(gs0[j])) == first_title(before, group_key(gs0[j]))
            &&& has_key(now, group_key(gs0[j]))
        }) by {
            lemma_blockers_push(before, *row, group_key(gs0[j]));
            lemma_first_title_push(before, *row, group_key(gs0[j]));
            lemma_has_key_push(before, *row, group_key(gs0[j]));
        }
    }
    if found {
        let blocker = copy_str(&row.blocker_id);
        let mut g = gs.remove(p);
        g.blocked_by.push(blocker);
        gs.insert(p, g);
        proof {
            assert forall|j: int| 0 <= j < gs@.len() implies (#[trigger] gs@[j]).blocked_by@.map_values(|s: String| s@)
                == blockers_of(now, group_key(gs@[j])) by {
                if j == p {
                    assert(gs@[j].blocked_by@.map_values(|s: String| s@) =~= gs0[j].blocked_by@.map_values(
                        |s: String| s@,
                    ).push(row.blocker_id@));
                } else {
                    assert(gs@[j] == gs0[j]);
                    if group_key(gs0[j]) == k {
                        lemma_key_lt_irreflexive(k);
                        if j < p {
                            assert(key_lt(group_key(gs0[j]), group_key(gs0[p as int])));
                        } else {
                            assert(key_lt(group_key(gs0[p as int]), group_key(gs0[j])));
                        }
                    }
                }
            }
            assert forall|j: int| 0 <= j < gs@.len() implies (#[trigger] gs@[j]).title@ == first_title(
                now,
                group_key(gs@[j]),
            ) by {
                if j != p {
                    assert(gs@[j] == gs0[j]);
                }
            }
            assert forall|a: int, b: int| 0 <= a < b < gs@.len() implies key_lt(
                group_key(#[trigger] gs@[a]),
                group_key(#[trigger] gs@[b]),
            ) by {
                assert(group_key(gs@[a]) == group_key(gs0[a]));
                assert(group_key(gs@[b]) == group_key(gs0[b]));
            }
            assert forall|j: int| 0 <= j < gs@.len() implies has_key(now, group_key(#[trigger] gs@[j])) by {
                assert(group_key(gs@[j]) == group_key(gs0[j]));
            }
            assert forall|a: int| 0 <= a < now.len() implies exists|j: int|
                0 <= j < gs@.len() && group_key(#[trigger] gs@[j]) == row_key(#[trigger] now[a]) by {
                if a < before.len() {
                    assert(now[a] == before[a]);
                    let j = choose|j: int| 0 <= j < gs0.len() && group_key(#[trigger] gs0[j]) == row_key(before[a]);
                    assert(group_key(gs@[j]) == group_key(gs0[j]));
                } else {
                    assert(group_key(gs@[p as int]) == k);
                }
            }
        }
    } else {
        proof {
            // the key is new
            if has_key(before, k) {
                let a = choose|a: int| 0 <= a < before.len() && row_key(#[trigger] before[a]) == k;
                let j = choose|j: int| 0 <= j < gs0.len() && group_key(#[trigger] gs0[j]) == row_key(before[a]);
                if j < p {
                    lemma_key_lt_irreflexive(k);
                } else if j > p {
                    lemma_key_lt_total(group_key(gs0[p as int]), k);
                    lemma_key_lt_transitive(k, group_key(gs0[p as int]), group_key(gs0[j]));
                    lemma_key_lt_irreflexive(k);
                }
            }
            if p < gs0.len() {
                lemma_key_lt_total(group_key(gs0[p as int]), k);
            }
        }
        let mut blocked_by: Vec<String> = Vec::new();
        blocked_by.push(copy_str(&row.blocker_id));
        let g = BlockedGroup {
            item_type: copy_str(&row.item_type),
            item_id: copy_str(&row.item_id),
            title: copy_str(&row.title),
            blocked_by,
        };
        gs.insert(p, g);
        proof {
            assert(blockers_of(before, k) =~= Seq::<Seq<char>>::empty()) by {
                lemma_blockers_empty(before, k);
            }
            assert forall|j: int| 0 <= j < gs@.len() implies (#[trigger] gs@[j]).blocked_by@.map_values(|s: String| s@)
                == blockers_of(now, group_key(gs@[j])) by {
                if j == p {
                    assert(gs@[j].blocked_by@.map_values(|s: String| s@) =~= seq![row.blocker_id@]);
                    assert(blockers_of(before, k).push(row.blocker_id@) =~= seq![row.blocker_id@]);
                } else {
                    let j0 = if j < p {
                        j
                    } else {
                        j - 1
                    };
                    assert(gs@[j] == gs0[j0]);
                    if group_key(gs0[j0]) == k {
                        assert(has_key(before, k));
                    }
                }
            }
            assert forall|j: int| 0 <= j < gs@.len() implies (#[trigger] gs@[j]).title@ == first_title(
                now,
                group_key(gs@[j]),
            ) by {
                if j != p {
                    let j0 = if j < p {
                        j
                    } else {
                        j - 1
                    };
                    assert(gs@[j] == gs0[j0]);
                }
            }
            assert forall|a: int, b: int| 0 <= a < b < gs@.len() implies key_lt(
                group_key(#[trigger] gs@[a]),
                group_key(#[trigger] gs@[b]),
            ) by {
                if b < p {
                    assert(gs@[a] == gs0[a] && gs@[b] == gs0[b]);
                } else if b == p {
                    assert(gs@[a] == gs0[a]);
                } else if a == p {
                    assert(gs@[b] == gs0[b - 1]);
                    if b - 1 > p {
                        lemma_key_lt_transitive(k, group_key(gs0[p as int]), group_key(gs0[b - 1]));
                    }
                } else if a < p {
                    assert(gs@[a] == gs0[a] && gs@[b] == gs0[b - 1]);
                } else {
                    assert(gs@[a] == gs0[a - 1] && gs@[b] == gs0[b - 1]);
                }
            }
            assert forall|j: int| 0 <= j < gs@.len() implies has_key(now, group_key(#[trigger] gs@[j])) by {
                if j != p {
                    let j0 = if j < p {
                        j
                    } else {
                        j - 1
                    };
                    assert(gs@[j] == gs0[j0]);
                }
            }
            assert forall|a: int| 0 <= a < now.len() implies exists|j: int|
                0 <= j < gs@.len() && group_key(#[trigger] gs@[j]) == row_key(#[trigger] now[a]) by {
                if a < before.len() {
                    assert(now[a] == before[a]);
                    let j = choose|j: int| 0 <= j < gs0.len() && group_key(#[trigger] gs0[j]) == row_key(before[a]);
                    if j < p {
                        assert(gs@[j] == gs0[j]);
                    } else {
                        assert(gs@[j + 1] == gs0[j]);
                    }
                } else {
                    assert(group_key(gs@[p as int]) == k);
                }
            }
        }
    }
}

/// Group blocked-item rows by item: one group per (type, identifier), in
/// increasing key order, each with the title of its first row and its
/// blockers in row order.
pub fn group_blocked(rows: Vec<BlockedItemRow>) -> (r: Vec<BlockedGroup>)
    ensures
        groups_rows(r@, rows@),
{
    let mut gs: Vec<BlockedGroup> = Vec::new();
    let mut i: usize = 0;
    while i < rows.len()
        invariant
            i <= rows@.len(),
            groups_rows(gs@, rows@.take(i as int)),
        decreases rows.len() - i,
    {
        proof {
            assert(rows@.take(i + 1) =~= rows@.take(i as int).push(rows@[i as int]));
        }
        add_row(&mut gs, &rows[i], Ghost(rows@.take(i as int)));
        i = i + 1;
    }
    proof {
        assert(rows@.take(i as int) =~= rows@);
    }
    gs
}

proof fn lemma_blockers_empty(rows: Seq<BlockedItemRow>, k: (Seq<char>, Seq<char>))
    requires
        !has_key(rows, k),
    ensures
        blockers_of(rows, k) =~= Seq::<Seq<char>>::empty(),
    decreases rows.len(),
{
    if rows.len() > 0 {
        assert(row_key(rows[rows.len() - 1]) != k);
        if has_key(rows.drop_last(), k) {
            let i = choose|i: int| 0 <= i < rows.drop_last().len() && row_key(#[trigger] rows.drop_last()[i]) == k;
            assert(rows[i] == rows.drop_last()[i]);
        }
        lemma_blockers_empty(rows.drop_last(), k);
    }
}

} // verus!
