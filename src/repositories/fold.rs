use vstd::prelude::*;

use crate::models::label::Label;
use crate::models::todo::{TodoEntity, TodoView};

verus! {

/// One row of the left outer join of todos with their labels: the todo's
/// fields, and the fields of one associated label, or none of them when the
/// todo has no label.
#[derive(Debug, PartialEq, Eq)]
pub struct TodoWithLabelFromRow {
    pub id: i32,
    pub text: String,
    pub completed: bool,
    pub user_id: i32,
    pub label_id: Option<i32>,
    pub label_name: Option<String>,
    pub label_user_id: Option<i32>,
}

/// The label that a row carries: only when all three label fields are there.
pub open spec fn row_label(row: TodoWithLabelFromRow) -> Option<Label> {
    match (row.label_id, row.label_name, row.label_user_id) {
        (Some(id), Some(name), Some(user_id)) => Some(Label { id, name, user_id }),
        _ => None,
    }
}

/// The distinct todo ids of `rows`, in the order in which each first appears.
pub open spec fn first_ids(rows: Seq<TodoWithLabelFromRow>) -> Seq<i32>
    decreases rows.len(),
{
    if rows.len() == 0 {
        Seq::empty()
    } else {
        let ids = first_ids(rows.drop_last());
        if ids.contains(rows.last().id) {
            ids
        } else {
            ids.push(rows.last().id)
        }
    }
}

/// The first row of the todo `id`, if it has one.
pub open spec fn first_row(rows: Seq<TodoWithLabelFromRow>, id: i32) -> Option<
    TodoWithLabelFromRow,
>
    decreases rows.len(),
{
    if rows.len() == 0 {
        None
    } else {
        match first_row(rows.drop_last(), id) {
            Some(r) => Some(r),
            None => if rows.last().id == id {
                Some(rows.last())
            } else {
                None
            },
        }
    }
}

/// The labels that the rows of the todo `id` carry, in row order.
pub open spec fn labels_of(rows: Seq<TodoWithLabelFromRow>, id: i32) -> Seq<Label>
    decreases rows.len(),
{
    if rows.len() == 0 {
        Seq::empty()
    } else {
        let prev = labels_of(rows.drop_last(), id);
        if rows.last().id == id {
            match row_label(rows.last()) {
                Some(l) => prev.push(l),
                None => prev,
            }
        } else {
            prev
        }
    }
}

/// The aggregate of the todo `id`: the fields of its first row, and all the
/// labels of its rows.
pub open spec fn aggregate(rows: Seq<TodoWithLabelFromRow>, id: i32) -> TodoView {
    let head = first_row(rows, id)->Some_0;
    TodoView {
        id,
        text: head.text,
        completed: head.completed,
        labels: labels_of(rows, id),
        user_id: head.user_id,
    }
}

/// The aggregates of all the todos of `rows`, in order of first appearance.
pub open spec fn folded(rows: Seq<TodoWithLabelFromRow>) -> Seq<TodoView> {
    first_ids(rows).map_values(|id: i32| aggregate(rows, id))
}

/// The views of a sequence of todo entities.
pub open spec fn todo_views(todos: Seq<TodoEntity>) -> Seq<TodoView> {
    todos.map_values(|t: TodoEntity| t@)
}

/// A todo has a first row exactly when its id is among the first ids.
pub proof fn lemma_first_row_iff_listed(rows: Seq<TodoWithLabelFromRow>, id: i32)
    ensures
        first_row(rows, id) is Some <==> first_ids(rows).contains(id),
        first_row(rows, id) is Some ==> first_row(rows, id)->Some_0.id == id,
    decreases rows.len(),
{
    if rows.len() > 0 {
        let prev = rows.drop_last();
        let last = rows.last();
        lemma_first_row_iff_listed(prev, id);
        let ids = first_ids(prev);
        let pushed = ids.push(last.id);
        assert(pushed[ids.len() as int] == last.id);
        assert forall|k: int| 0 <= k < ids.len() implies pushed[k] == ids[k] by {}
        if first_row(prev, id) is Some {
            let k = choose|k: int| 0 <= k < ids.len() && ids[k] == id;
            assert(pushed[k] == id);
        } else if !ids.contains(last.id) {
            if pushed.contains(id) && id != last.id {
                let k = choose|k: int| 0 <= k < pushed.len() && pushed[k] == id;
                assert(ids[k] == id);
            }
        } else {
            if last.id == id {
                assert(ids.contains(id));
            }
        }
    }
}

/// No todo id is listed twice.
pub proof fn lemma_first_ids_distinct(rows: Seq<TodoWithLabelFromRow>)
    ensures
        first_ids(rows).no_duplicates(),
    decreases rows.len(),
{
    if rows.len() > 0 {
        lemma_first_ids_distinct(rows.drop_last());
        let ids = first_ids(rows.drop_last());
        let pushed = ids.push(rows.last().id);
        if !ids.contains(rows.last().id) {
            assert forall|a: int, b: int|
                0 <= a < pushed.len() && 0 <= b < pushed.len() && a != b implies pushed[a]
                != pushed[b] by {
                if a < ids.len() && b < ids.len() {
                    assert(pushed[a] == ids[a] && pushed[b] == ids[b]);
                } else if a < ids.len() {
                    assert(pushed[a] == ids[a]);
                } else if b < ids.len() {
                    assert(pushed[b] == ids[b]);
                }
            }
        }
    }
}

/// A todo without rows has no labels.
pub proof fn lemma_unlisted_has_no_labels(rows: Seq<TodoWithLabelFromRow>, id: i32)
    requires
        first_row(rows, id) is None,
    ensures
        labels_of(rows, id) == Seq::<Label>::empty(),
    decreases rows.len(),
{
    if rows.len() > 0 {
        lemma_unlisted_has_no_labels(rows.drop_last(), id);
    }
}

/// Picks from a row the label that it attaches to the todo `id`.
pub open spec fn picks_label_of(id: i32) -> spec_fn(TodoWithLabelFromRow) -> Option<Label> {
    |r: TodoWithLabelFromRow|
        if r.id == id {
            row_label(r)
        } else {
            None
        }
}

/// An id is listed exactly when some row carries it.
pub proof fn lemma_listed_iff_present(rows: Seq<TodoWithLabelFromRow>, id: i32)
    ensures
        first_ids(rows).contains(id) <==> exists|j: int| 0 <= j < rows.len() && rows[j].id == id,
    decreases rows.len(),
{
    if rows.len() > 0 {
        let prev = rows.drop_last();
        lemma_listed_iff_present(prev, id);
        lemma_first_row_iff_listed(rows, id);
        lemma_first_row_iff_listed(prev, id);
        if exists|j: int| 0 <= j < rows.len() && rows[j].id == id {
            let j = choose|j: int| 0 <= j < rows.len() && rows[j].id == id;
            if j < prev.len() {
                assert(prev[j].id == id);
            }
        }
        if exists|j: int| 0 <= j < prev.len() && prev[j].id == id {
            let j = choose|j: int| 0 <= j < prev.len() && prev[j].id == id;
            assert(rows[j].id == id);
        }
    }
}

/// Some row before index `j` belongs to the todo `id`.
pub open spec fn appears_before(rows: Seq<TodoWithLabelFromRow>, id: i32, j: int) -> bool {
    exists|i: int| 0 <= i < j && rows[i].id == id
}

/// The order of first appearance: of two listed ids, the earlier one has a
/// row before every row of the later one.
pub proof fn lemma_first_ids_ordered(rows: Seq<TodoWithLabelFromRow>)
    ensures
        forall|a: int, b: int, j: int|
            #![trigger first_ids(rows)[a], first_ids(rows)[b], rows[j]]
            0 <= a < b < first_ids(rows).len() && 0 <= j < rows.len() && rows[j].id == first_ids(rows)[b]
                ==> appears_before(rows, first_ids(rows)[a], j),
    decreases rows.len(),
{
    if rows.len() > 0 {
        let prev = rows.drop_last();
        let ids = first_ids(prev);
        let last = rows.last();
        lemma_first_ids_ordered(prev);
        let all = first_ids(rows);
        assert forall|a: int, b: int, j: int|
            #![trigger all[a], all[b], rows[j]]
            0 <= a < b < all.len() && 0 <= j < rows.len() && rows[j].id == all[b] implies appears_before(
                rows,
                all[a],
                j,
            ) by {
            assert(all[a] == ids[a]);
            assert(ids.contains(ids[a]));
            lemma_listed_iff_present(prev, ids[a]);
            let i0 = choose|i: int| 0 <= i < prev.len() && prev[i].id == ids[a];
            assert(rows[i0].id == all[a]);
            if j < prev.len() {
                assert(prev[j].id == rows[j].id);
                if b < ids.len() {
                    assert(all[b] == ids[b]);
                    assert(appears_before(prev, ids[a], j));
                    let i1 = choose|i: int| 0 <= i < j && prev[i].id == ids[a];
                    assert(rows[i1].id == all[a]);
                } else {
                    assert(all[b] == last.id);
                    assert(!ids.contains(last.id));
                    lemma_listed_iff_present(prev, last.id);
                    assert(prev[j].id == last.id);
                }
            } else {
                assert(rows[i0].id == all[a] && i0 < j);
            }
        }
    }
}

/// The output of the fold lists each todo id of the input once, in the
/// order in which each id first appears in the input, whatever the rows of
/// labels in between.
pub proof fn lemma_fold_order(rows: Seq<TodoWithLabelFromRow>)
    ensures
        folded(rows).len() == first_ids(rows).len(),
        forall|k: int| 0 <= k < folded(rows).len() ==> #[trigger] folded(rows)[k].id
            == first_ids(rows)[k],
        first_ids(rows).no_duplicates(),
        forall|id: i32|
            #[trigger] first_ids(rows).contains(id) <==> exists|j: int|
                0 <= j < rows.len() && rows[j].id == id,
        forall|a: int, b: int, j: int|
            #![trigger first_ids(rows)[a], first_ids(rows)[b], rows[j]]
            0 <= a < b < first_ids(rows).len() && 0 <= j < rows.len() && rows[j].id == first_ids(rows)[b]
                ==> appears_before(rows, first_ids(rows)[a], j),
{
    lemma_first_ids_distinct(rows);
    lemma_first_ids_ordered(rows);
    assert forall|id: i32|
        #[trigger] first_ids(rows).contains(id) <==> exists|j: int|
            0 <= j < rows.len() && rows[j].id == id by {
        lemma_listed_iff_present(rows, id);
    }
}

/// The labels of the todo `id` are exactly those that its rows carry, in
/// row order.
proof fn lemma_labels_are_picked(rows: Seq<TodoWithLabelFromRow>, id: i32)
    ensures
        labels_of(rows, id) == rows.filter_map(picks_label_of(id)),
    decreases rows.len(),
{
    if rows.len() > 0 {
        lemma_labels_are_picked(rows.drop_last(), id);
        let prev = labels_of(rows.drop_last(), id);
        match (picks_label_of(id))(rows.last()) {
            Some(l) => {
                assert(prev.push(l) =~= prev + seq![l]);
            },
            None => {},
        }
    }
}

/// Each aggregate of the fold carries exactly the labels that the input
/// rows of its todo carry, in row order: none lost, none added.
pub proof fn lemma_fold_labels(rows: Seq<TodoWithLabelFromRow>)
    ensures
        forall|k: int|
            0 <= k < folded(rows).len() ==> #[trigger] folded(rows)[k].labels == rows.filter_map(
                picks_label_of(folded(rows)[k].id),
            ),
{
    assert forall|k: int| 0 <= k < folded(rows).len() implies #[trigger] folded(rows)[k].labels
        == rows.filter_map(picks_label_of(folded(rows)[k].id)) by {
        lemma_labels_are_picked(rows, first_ids(rows)[k]);
    }
}

/// The label of a row, built from its fields.
fn label_of_row(row: &TodoWithLabelFromRow) -> (r: Option<Label>)
    ensures
        r == row_label(*row),
{
    match (row.label_id, &row.label_name, row.label_user_id) {
        (Some(id), Some(name), Some(user_id)) => Some(Label { id, name: name.clone(), user_id }),
        _ => None,
    }
}

/// Folds the rows of a todo/label join into todo aggregates: one per
/// distinct todo id, in order of first appearance, each with the labels of
/// its rows in row order.
pub fn fold_entities(rows: Vec<TodoWithLabelFromRow>) -> (r: Vec<TodoEntity>)
    ensures
        todo_views(r@) == folded(rows@),
{
    let mut accum: Vec<TodoEntity> = Vec::new();
    let mut i: usize = 0;
    assert(rows@.take(0) =~= Seq::<TodoWithLabelFromRow>::empty());
    while i < rows.len()
        invariant
            0 <= i <= rows.len(),
            accum.len() == first_ids(rows@.take(i as int)).len(),
            forall|k: int|
                0 <= k < accum.len() ==> #[trigger] accum[k]@ == aggregate(
                    rows@.take(i as int),
                    first_ids(rows@.take(i as int))[k],
                ),
            forall|k: int|
                0 <= k < accum.len() ==> first_row(
                    rows@.take(i as int),
                    #[trigger] first_ids(rows@.take(i as int))[k],
                ) is Some,
        decreases rows.len() - i,
    {
        let ghost prev = rows@.take(i as int);
        let ghost next = rows@.take(i + 1);
        assert(next.drop_last() =~= prev);
        assert(next.last() == rows@[i as int]);
        let ghost ids = first_ids(prev);
        let row = &rows[i];
        let label = label_of_row(row);
        let mut k: usize = 0;
        let mut found = false;
        while k < accum.len()
            invariant
                0 <= k <= accum.len(),
                forall|j: int| 0 <= j < k ==> accum[j].id != row.id,
                found ==> k < accum.len() && accum[k as int].id == row.id,
            ensures
                found ==> k < accum.len() && accum[k as int].id == row.id,
                !found ==> forall|j: int| 0 <= j < accum.len() ==> accum[j].id != row.id,
            decreases accum.len() - k,
        {
            if accum[k].id == row.id {
                found = true;
                break;
            }
            k = k + 1;
        }
        proof {
            assert forall|j: int| 0 <= j < accum.len() implies accum[j].id == ids[j] by {
                assert(accum[j]@ == aggregate(prev, ids[j]));
            }
        }
        if found {
            assert(ids.contains(row.id)) by {
                assert(ids[k as int] == row.id);
            }
            assert(first_ids(next) == ids);
            proof {
                lemma_first_ids_distinct(prev);
            }
            let ghost before = accum@;
            match label {
                Some(l) => {
                    accum[k].labels.push(l);
                },
                None => {},
            }
            assert forall|m: int| 0 <= m < accum.len() implies #[trigger] accum[m]@ == aggregate(
                next,
                first_ids(next)[m],
            ) && first_row(next, first_ids(next)[m]) is Some by {
                assert(first_row(prev, ids[m]) is Some);
                assert(before[m]@ == aggregate(prev, ids[m]));
                if m != k {
                    assert(ids[m] != ids[k as int]);
                    assert(accum[m] == before[m]);
                } else {
                    assert(accum[m]@.labels =~= labels_of(next, ids[m]));
                }
            }
        } else {
            assert(!ids.contains(row.id)) by {
                if ids.contains(row.id) {
                    let j = choose|j: int| 0 <= j < ids.len() && ids[j] == row.id;
                    assert(accum[j].id == ids[j]);
                }
            }
            assert(first_ids(next) == ids.push(row.id));
            proof {
                lemma_first_row_iff_listed(prev, row.id);
                lemma_unlisted_has_no_labels(prev, row.id);
            }
            let labels = match label {
                Some(l) => vec![l],
                None => Vec::new(),
            };
            let entity = TodoEntity {
                id: row.id,
                text: row.text.clone(),
                completed: row.completed,
                labels,
                user_id: row.user_id,
            };
            assert(entity@.labels =~= labels_of(next, row.id));
            accum.push(entity);
            assert forall|m: int| 0 <= m < accum.len() implies #[trigger] accum[m]@ == aggregate(
                next,
                first_ids(next)[m],
            ) && first_row(next, first_ids(next)[m]) is Some by {
                if m < ids.len() {
                    assert(first_row(prev, ids[m]) is Some);
                    assert(ids[m] != row.id);
                }
            }
        }
        i = i + 1;
    }
    assert(rows@.take(rows.len() as int) =~= rows@);
    assert(todo_views(accum@) =~= folded(rows@));
    accum
}

} // verus!
