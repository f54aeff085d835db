use vstd::prelude::*;
use crate::models::{Note, WipGroup};

verus! {

/// A row of a table keyed by an integer id and ordered by a position.
pub trait Row: Sized {
    spec fn row_id(&self) -> i64;

    spec fn row_position(&self) -> i64;

    fn id_of(&self) -> (r: i64)
        ensures
            r == self.row_id(),
    ;

    fn position_of(&self) -> (r: i64)
        ensures
            r == self.row_position(),
    ;

    fn copy_row(&self) -> (r: Self)
        ensures
            r == *self,
    ;
}

impl Row for Note {
    open spec fn row_id(&self) -> i64 {
        self.id
    }

    open spec fn row_position(&self) -> i64 {
        self.position
    }

    fn id_of(&self) -> (r: i64) {
        self.id
    }

    fn position_of(&self) -> (r: i64) {
        self.position
    }

    fn copy_row(&self) -> (r: Self) {
        self.clone()
    }
}

impl Row for WipGroup {
    open spec fn row_id(&self) -> i64 {
        self.id
    }

    open spec fn row_position(&self) -> i64 {
        self.position
    }

    fn id_of(&self) -> (r: i64) {
        self.id
    }

    fn position_of(&self) -> (r: i64) {
        self.position
    }

    fn copy_row(&self) -> (r: Self) {
        self.clone()
    }
}

pub open spec fn has_id<R: Row>(rows: Seq<R>, id: i64) -> bool {
    exists|i: int| 0 <= i < rows.len() && #[trigger] rows[i].row_id() == id
}

pub open spec fn unique_ids<R: Row>(rows: Seq<R>) -> bool {
    forall|i: int, j: int|
        0 <= i < rows.len() && 0 <= j < rows.len() && i != j ==> #[trigger] rows[i].row_id()
            != #[trigger] rows[j].row_id()
}

pub open spec fn ids_below<R: Row>(rows: Seq<R>, bound: i64) -> bool {
    forall|i: int| 0 <= i < rows.len() ==> #[trigger] rows[i].row_id() < bound
}

/// The row that carries `id`; meaningful where `has_id(rows, id)`.
pub open spec fn row_with_id<R: Row>(rows: Seq<R>, id: i64) -> R {
    rows[choose|i: int| 0 <= i < rows.len() && #[trigger] rows[i].row_id() == id]
}

/// Adds `r` at the end unless a row with its id is already present.
pub open spec fn insert_row<R: Row>(rows: Seq<R>, r: R) -> Seq<R> {
    if has_id(rows, r.row_id()) {
        rows
    } else {
        rows.push(r)
    }
}

/// Puts `r` in place of every row that carries its id.
pub open spec fn replace_row<R: Row>(rows: Seq<R>, r: R) -> Seq<R> {
    Seq::new(rows.len(), |i: int| if rows[i].row_id() == r.row_id() { r } else { rows[i] })
}

/// The rows, in order, without those that carry `id`.
pub open spec fn remove_row<R: Row>(rows: Seq<R>, id: i64) -> Seq<R>
    decreases rows.len(),
{
    if rows.len() == 0 {
        rows
    } else {
        let rest = remove_row(rows.drop_last(), id);
        if rows.last().row_id() == id {
            rest
        } else {
            rest.push(rows.last())
        }
    }
}

/// The highest position among the rows, if there is a row.
pub open spec fn top_position<R: Row>(rows: Seq<R>) -> Option<i64>
    decreases rows.len(),
{
    if rows.len() == 0 {
        None
    } else {
        let p = rows.last().row_position();
        match top_position(rows.drop_last()) {
            None => Some(p),
            Some(m) => Some(if m < p { p } else { m }),
        }
    }
}

/// The position one past the highest, or 1 when there is no row.
pub open spec fn position_after(top: Option<i64>) -> int {
    match top {
        None => 1,
        Some(m) => m + 1,
    }
}

/// Inserts `r` into `sorted` after every row whose position is not above its own.
pub open spec fn insert_by_position<R: Row>(sorted: Seq<R>, r: R) -> Seq<R>
    decreases sorted.len(),
{
    if sorted.len() == 0 {
        seq![r]
    } else if sorted.last().row_position() <= r.row_position() {
        sorted.push(r)
    } else {
        insert_by_position(sorted.drop_last(), r).push(sorted.last())
    }
}

/// The rows ordered by position; rows of equal position keep their order.
pub open spec fn by_position<R: Row>(rows: Seq<R>) -> Seq<R>
    decreases rows.len(),
{
    if rows.len() == 0 {
        rows
    } else {
        insert_by_position(by_position(rows.drop_last()), rows.last())
    }
}

pub proof fn lemma_row_with_id<R: Row>(rows: Seq<R>, i: int)
    requires
        unique_ids(rows),
        0 <= i < rows.len(),
    ensures
        row_with_id(rows, rows[i].row_id()) == rows[i],
{
    let id = rows[i].row_id();
    assert(rows[i].row_id() == id);
    let j = choose|j: int| 0 <= j < rows.len() && #[trigger] rows[j].row_id() == id;
    assert(j == i);
}

pub proof fn lemma_update_is_replace<R: Row>(rows: Seq<R>, i: int, r: R)
    requires
        unique_ids(rows),
        0 <= i < rows.len(),
        rows[i].row_id() == r.row_id(),
    ensures
        rows.update(i, r) == replace_row(rows, r),
        unique_ids(rows.update(i, r)),
{
    assert(rows.update(i, r) =~= replace_row(rows, r));
}

pub proof fn lemma_remove_row<R: Row>(rows: Seq<R>, id: i64)
    ensures
        remove_row(rows, id).len() <= rows.len(),
        forall|j: int|
            0 <= j < remove_row(rows, id).len() ==> exists|i: int|
                0 <= i < rows.len() && #[trigger] remove_row(rows, id)[j] == rows[i],
        forall|j: int|
            0 <= j < remove_row(rows, id).len() ==> #[trigger] remove_row(rows, id)[j].row_id()
                != id,
        unique_ids(rows) ==> unique_ids(remove_row(rows, id)),
    decreases rows.len(),
{
    if rows.len() > 0 {
        let init = rows.drop_last();
        lemma_remove_row(init, id);
        let rest = remove_row(init, id);
        if rows.last().row_id() != id {
            let out = rest.push(rows.last());
            assert forall|j: int| 0 <= j < out.len() implies exists|i: int|
                0 <= i < rows.len() && #[trigger] out[j] == rows[i] by {
                if j == rest.len() {
                    assert(out[j] == rows[rows.len() - 1]);
                } else {
                    let i = choose|i: int| 0 <= i < init.len() && #[trigger] rest[j] == init[i];
                    assert(out[j] == rows[i]);
                }
            }
            if unique_ids(rows) {
                assert forall|a: int, b: int|
                    0 <= a < out.len() && 0 <= b < out.len() && a != b implies #[trigger] out[a].row_id()
                        != #[trigger] out[b].row_id() by {
                    if a == rest.len() || b == rest.len() {
                        let k = if a == rest.len() { b } else { a };
                        let i = choose|i: int| 0 <= i < init.len() && #[trigger] rest[k] == init[i];
                        assert(rows[i] == init[i]);
                        assert(rows[rows.len() - 1].row_id() != rows[i].row_id());
                    } else {
                        assert(unique_ids(init));
                    }
                }
            }
        } else {
            if unique_ids(rows) {
                assert(unique_ids(init));
            }
        }
    }
}

pub proof fn lemma_push_fresh<R: Row>(rows: Seq<R>, r: R, bound: i64)
    requires
        unique_ids(rows),
        ids_below(rows, bound),
        !has_id(rows, r.row_id()),
        r.row_id() < bound,
    ensures
        unique_ids(rows.push(r)),
        ids_below(rows.push(r), bound),
{
    let out = rows.push(r);
    assert forall|a: int, b: int|
        0 <= a < out.len() && 0 <= b < out.len() && a != b implies #[trigger] out[a].row_id()
            != #[trigger] out[b].row_id() by {
        if a < rows.len() {
            assert(out[a] == rows[a]);
        }
        if b < rows.len() {
            assert(out[b] == rows[b]);
        }
    }
    assert forall|k: int| 0 <= k < out.len() implies #[trigger] out[k].row_id() < bound by {
        if k < rows.len() {
            assert(out[k] == rows[k]);
        }
    }
}

pub proof fn lemma_remove_row_below<R: Row>(rows: Seq<R>, id: i64, bound: i64)
    requires
        unique_ids(rows),
        ids_below(rows, bound),
    ensures
        unique_ids(remove_row(rows, id)),
        ids_below(remove_row(rows, id), bound),
{
    lemma_remove_row(rows, id);
    let out = remove_row(rows, id);
    assert forall|k: int| 0 <= k < out.len() implies #[trigger] out[k].row_id() < bound by {
        let i = choose|i: int| 0 <= i < rows.len() && #[trigger] out[k] == rows[i];
        assert(rows[i].row_id() < bound);
    }
}

pub proof fn lemma_insert_at<R: Row>(sorted: Seq<R>, r: R, k: int)
    requires
        0 <= k <= sorted.len(),
        forall|j: int| k <= j < sorted.len() ==> #[trigger] sorted[j].row_position() > r.row_position(),
        k == 0 || sorted[k - 1].row_position() <= r.row_position(),
    ensures
        insert_by_position(sorted, r) == sorted.insert(k, r),
    decreases sorted.len(),
{
    if sorted.len() == 0 {
        assert(sorted.insert(k, r) =~= seq![r]);
    } else if k == sorted.len() {
        assert(sorted.insert(k, r) =~= sorted.push(r));
    } else {
        let init = sorted.drop_last();
        lemma_insert_at(init, r, k);
        assert(sorted.insert(k, r) =~= init.insert(k, r).push(sorted.last()));
    }
}

/// The index of the row that carries `id`.
pub fn find_row<R: Row>(rows: &Vec<R>, id: i64) -> (r: Option<usize>)
    ensures
        match r {
            Some(i) => i < rows@.len() && rows@[i as int].row_id() == id,
            None => !has_id(rows@, id),
        },
{
    let mut i: usize = 0;
    while i < rows.len()
        invariant
            i <= rows@.len(),
            forall|k: int| 0 <= k < i ==> #[trigger] rows@[k].row_id() != id,
        decreases rows@.len() - i,
    {
        if rows[i].id_of() == id {
            return Some(i);
        }
        i = i + 1;
    }
    None
}

/// A copy of the rows without those that carry `id`.
pub fn without_row<R: Row>(rows: &Vec<R>, id: i64) -> (r: Vec<R>)
    ensures
        r@ == remove_row(rows@, id),
{
    let mut out: Vec<R> = Vec::new();
    let mut i: usize = 0;
    while i < rows.len()
        invariant
            i <= rows@.len(),
            out@ == remove_row(rows@.take(i as int), id),
        decreases rows@.len() - i,
    {
        assert(rows@.take(i + 1).drop_last() =~= rows@.take(i as int));
        if rows[i].id_of() != id {
            out.push(rows[i].copy_row());
        }
        i = i + 1;
    }
    assert(rows@.take(rows@.len() as int) =~= rows@);
    out
}

/// The highest position among the rows, if there is a row.
pub fn highest_position<R: Row>(rows: &Vec<R>) -> (r: Option<i64>)
    ensures
        r == top_position(rows@),
{
    let mut top: Option<i64> = None;
    let mut i: usize = 0;
    while i < rows.len()
        invariant
            i <= rows@.len(),
            top == top_position(rows@.take(i as int)),
        decreases rows@.len() - i,
    {
        assert(rows@.take(i + 1).drop_last() =~= rows@.take(i as int));
        let p = rows[i].position_of();
        top = match top {
            None => Some(p),
            Some(m) => Some(if m < p { p } else { m }),
        };
        i = i + 1;
    }
    assert(rows@.take(rows@.len() as int) =~= rows@);
    top
}

/// Copies of the rows ordered by position, equal positions in table order.
pub fn sorted_by_position<R: Row>(rows: &Vec<R>) -> (r: Vec<R>)
    ensures
        r@ == by_position(rows@),
{
    let mut out: Vec<R> = Vec::new();
    let mut i: usize = 0;
    while i < rows.len()
        invariant
            i <= rows@.len(),
            out@ == by_position(rows@.take(i as int)),
        decreases rows@.len() - i,
    {
        assert(rows@.take(i + 1).drop_last() =~= rows@.take(i as int));
        let r = rows[i].copy_row();
        let p = r.position_of();
        let mut k: usize = out.len();
        while k > 0 && out[k - 1].position_of() > p
            invariant
                k <= out@.len(),
                forall|j: int| k <= j < out@.len() ==> #[trigger] out@[j].row_position() > p,
            decreases k,
        {
            k = k - 1;
        }
        proof {
            lemma_insert_at(out@, r, k as int);
        }
        out.insert(k, r);
        i = i + 1;
    }
    assert(rows@.take(rows@.len() as int) =~= rows@);
    out
}

} // verus!
