use vstd::prelude::*;

use crate::models::label::Label;
use crate::models::todo::{CreateTodo, TodoEntity, TodoView, UpdateTodo};
use crate::repositories::fold::todo_views;
use crate::repositories::outcome::merged_fields;
use crate::repositories::RepositoryError;

pub use crate::repositories::fold::{fold_entities, TodoWithLabelFromRow};

verus! {

/// The first label of `known` with the id `id`.
pub open spec fn label_with_id(known: Seq<Label>, id: i32) -> Option<Label>
    decreases known.len(),
{
    if known.len() == 0 {
        None
    } else if known[0].id == id {
        Some(known[0])
    } else {
        label_with_id(known.drop_first(), id)
    }
}

/// Looks a label id up among the labels `known`.
pub open spec fn lookup_in(known: Seq<Label>) -> spec_fn(i32) -> Option<Label> {
    |id: i32| label_with_id(known, id)
}

/// The labels that the ids `ids` name among `known`, in the order of `ids`;
/// an id that names no label is left out.
pub open spec fn resolved_labels(known: Seq<Label>, ids: Seq<i32>) -> Seq<Label> {
    ids.filter_map(lookup_in(known))
}

/// Whether a todo of `todos` has the id `id`.
pub open spec fn has_todo(todos: Seq<TodoView>, id: i32) -> bool {
    exists|i: int| 0 <= i < todos.len() && todos[i].id == id
}

/// The todo that a creation payload makes, with the id `id`.
pub open spec fn created_todo(payload: CreateTodo, known: Seq<Label>, id: i32) -> TodoView {
    TodoView {
        id,
        text: payload.text,
        completed: false,
        labels: resolved_labels(known, payload.label_ids@),
        user_id: payload.user_id,
    }
}

/// The todo `old` after the partial update `payload`: each field given
/// replaces the current one; label ids, when given, replace all the labels.
pub open spec fn updated_todo(old: TodoView, payload: UpdateTodo, known: Seq<Label>) -> TodoView {
    TodoView {
        id: old.id,
        text: match payload.text {
            Some(t) => t,
            None => old.text,
        },
        completed: match payload.completed {
            Some(c) => c,
            None => old.completed,
        },
        labels: match payload.label_ids {
            Some(ids) => resolved_labels(known, ids@),
            None => old.labels,
        },
        user_id: old.user_id,
    }
}

/// The todos of the user `user_id`, newest (highest id, last stored) first.
pub open spec fn newest_first(todos: Seq<TodoView>, user_id: i32) -> Seq<TodoView>
    decreases todos.len(),
{
    if todos.len() == 0 {
        Seq::empty()
    } else {
        let rest = newest_first(todos.drop_first(), user_id);
        if todos[0].user_id == user_id {
            rest.push(todos[0])
        } else {
            rest
        }
    }
}

/// A store of todos: ids are positive, strictly increasing in storage
/// order, and below the id that the next todo gets.
pub open spec fn todo_store_ok(todos: Seq<TodoView>, next_id: i32) -> bool {
    &&& 1 <= next_id
    &&& forall|i: int| 0 <= i < todos.len() ==> 1 <= #[trigger] todos[i].id < next_id
    &&& forall|i: int, j: int|
        0 <= i < j < todos.len() ==> #[trigger] todos[i].id < #[trigger] todos[j].id
}

/// The operations on todos. Labels are materialised from the labels the
/// repository knows; an id that names none of them is dropped.
pub trait TodoRepository: Sized {
    /// The todos held, in ascending id order.
    spec fn todos(&self) -> Seq<TodoView>;

    /// The labels that label ids are resolved against.
    spec fn known_labels(&self) -> Seq<Label>;

    /// The id that the next new todo gets.
    spec fn next_todo_id(&self) -> i32;

    spec fn well_formed(&self) -> bool;

    /// A well-formed repository holds its todos by ascending, positive ids
    /// below the next one.
    proof fn lemma_todos_ordered(&self)
        requires
            self.well_formed(),
        ensures
            todo_store_ok(self.todos(), self.next_todo_id()),
    ;

    /// Creates a todo that is not completed, with the labels that
    /// `payload.label_ids` names, and returns it as stored. Fails with
    /// `Unexpected` only when the ids are used up.
    fn create(&mut self, payload: CreateTodo) -> (r: Result<TodoEntity, RepositoryError>)
        requires
            old(self).well_formed(),
        ensures
            final(self).well_formed(),
            final(self).known_labels() == old(self).known_labels(),
            old(self).next_todo_id() < i32::MAX ==> {
                &&& r is Ok
                &&& r->Ok_0@ == created_todo(
                    payload,
                    old(self).known_labels(),
                    old(self).next_todo_id(),
                )
                &&& final(self).todos() == old(self).todos().push(r->Ok_0@)
                &&& final(self).next_todo_id() == old(self).next_todo_id() + 1
            },
            old(self).next_todo_id() == i32::MAX ==> {
                &&& r matches Err(RepositoryError::Unexpected(_))
                &&& final(self).todos() == old(self).todos()
                &&& final(self).next_todo_id() == old(self).next_todo_id()
            },
    ;

    /// The todo `id`; `NotFound` when there is none.
    fn find(&self, id: i32) -> (r: Result<TodoEntity, RepositoryError>)
        requires
            self.well_formed(),
        ensures
            has_todo(self.todos(), id) ==> r is Ok && exists|i: int|
                0 <= i < self.todos().len() && self.todos()[i].id == id && r->Ok_0@
                    == self.todos()[i],
            !has_todo(self.todos(), id) ==> r == Err::<TodoEntity, RepositoryError>(
                RepositoryError::NotFound(id),
            ),
    ;

    /// The todos of the user `user_id`, newest first.
    fn all(&self, user_id: i32) -> (r: Vec<TodoEntity>)
        requires
            self.well_formed(),
        ensures
            todo_views(r@) == newest_first(self.todos(), user_id),
    ;

    /// Applies the partial update `payload` to the todo `id` and returns it
    /// as stored; `NotFound` when there is no such todo.
    fn update(&mut self, id: i32, payload: UpdateTodo) -> (r: Result<TodoEntity, RepositoryError>)
        requires
            old(self).well_formed(),
        ensures
            final(self).well_formed(),
            final(self).known_labels() == old(self).known_labels(),
            final(self).next_todo_id() == old(self).next_todo_id(),
            has_todo(old(self).todos(), id) ==> r is Ok && exists|i: int|
                #![trigger old(self).todos()[i]]
                0 <= i < old(self).todos().len() && old(self).todos()[i].id == id && r->Ok_0@
                    == updated_todo(old(self).todos()[i], payload, old(self).known_labels())
                    && final(self).todos() == old(self).todos().update(i, r->Ok_0@),
            !has_todo(old(self).todos(), id) ==> r == Err::<TodoEntity, RepositoryError>(
                RepositoryError::NotFound(id),
            ) && final(self).todos() == old(self).todos(),
    ;

    /// Deletes the todo `id`, and with it its labels; `NotFound` when there
    /// is no such todo.
    fn delete(&mut self, id: i32) -> (r: Result<(), RepositoryError>)
        requires
            old(self).well_formed(),
        ensures
            final(self).well_formed(),
            final(self).known_labels() == old(self).known_labels(),
            final(self).next_todo_id() == old(self).next_todo_id(),
            has_todo(old(self).todos(), id) ==> r is Ok && exists|i: int|
                0 <= i < old(self).todos().len() && old(self).todos()[i].id == id
                    && final(self).todos() == old(self).todos().remove(i),
            !has_todo(old(self).todos(), id) ==> r == Err::<(), RepositoryError>(
                RepositoryError::NotFound(id),
            ) && final(self).todos() == old(self).todos(),
    ;
}

/// Todos held in memory, in ascending id order, with the labels that their
/// label ids are resolved against.
#[derive(Debug)]
pub struct TodoRepositoryForMemory {
    store: Vec<TodoEntity>,
    labels: Vec<Label>,
    next_id: i32,
}

impl TodoRepositoryForMemory {
    pub fn new(labels: Vec<Label>) -> (r: Self)
        ensures
            r.well_formed(),
            r.todos() == Seq::<TodoView>::empty(),
            r.known_labels() == labels@,
            r.next_todo_id() == 1,
    {
        let r = TodoRepositoryForMemory { store: Vec::new(), labels, next_id: 1 };
        assert(todo_views(r.store@) =~= Seq::<TodoView>::empty());
        r
    }

    /// The known label with the id `id`, if any.
    fn label_for(&self, id: i32) -> (r: Option<Label>)
        ensures
            r == label_with_id(self.labels@, id),
    {
        let mut j: usize = 0;
        assert(self.labels@.subrange(0, self.labels@.len() as int) =~= self.labels@);
        while j < self.labels.len()
            invariant
                0 <= j <= self.labels.len(),
                label_with_id(self.labels@, id) == label_with_id(
                    self.labels@.subrange(j as int, self.labels@.len() as int),
                    id,
                ),
            decreases self.labels.len() - j,
        {
            let ghost rest = self.labels@.subrange(j as int, self.labels@.len() as int);
            assert(rest.drop_first() =~= self.labels@.subrange(j + 1, self.labels@.len() as int));
            assert(rest[0] == self.labels@[j as int]);
            if self.labels[j].id == id {
                return Some(self.labels[j].clone());
            }
            j = j + 1;
        }
        None
    }

    /// The known labels that `ids` names, in the order of `ids`; ids that
    /// name no known label are dropped.
    pub fn resolve_labels(&self, ids: &Vec<i32>) -> (r: Vec<Label>)
        ensures
            r@ == resolved_labels(self.known_labels(), ids@),
    {
        let mut out: Vec<Label> = Vec::new();
        let mut i: usize = 0;
        assert(ids@.take(0) =~= Seq::<i32>::empty());
        while i < ids.len()
            invariant
                0 <= i <= ids.len(),
                out@ == resolved_labels(self.labels@, ids@.take(i as int)),
            decreases ids.len() - i,
        {
            assert(ids@.take(i + 1).drop_last() =~= ids@.take(i as int));
            assert(ids@.take(i + 1).last() == ids@[i as int]);
            match self.label_for(ids[i]) {
                Some(l) => {
                    let ghost before = out@;
                    out.push(l);
                    assert(out@ =~= before + seq![l]);
                },
                None => {},
            }
            i = i + 1;
        }
        assert(ids@.take(ids.len() as int) =~= ids@);
        out
    }

    /// The index of the todo `id`, if it is held.
    fn position_of(&self, id: i32) -> (r: Option<usize>)
        ensures
            match r {
                Some(i) => i < self.store@.len() && self.store@[i as int].id == id,
                None => !has_todo(todo_views(self.store@), id),
            },
    {
        let mut i: usize = 0;
        while i < self.store.len()
            invariant
                0 <= i <= self.store.len(),
                forall|j: int| 0 <= j < i ==> self.store@[j].id != id,
            decreases self.store.len() - i,
        {
            if self.store[i].id == id {
                return Some(i);
            }
            i = i + 1;
        }
        assert(!has_todo(todo_views(self.store@), id)) by {
            if has_todo(todo_views(self.store@), id) {
                let j = choose|j: int|
                    0 <= j < todo_views(self.store@).len() && todo_views(self.store@)[j].id == id;
                assert(todo_views(self.store@)[j] == self.store@[j]@);
            }
        }
        None
    }
}

impl TodoRepository for TodoRepositoryForMemory {
    closed spec fn todos(&self) -> Seq<TodoView> {
        todo_views(self.store@)
    }

    closed spec fn known_labels(&self) -> Seq<Label> {
        self.labels@
    }

    closed spec fn next_todo_id(&self) -> i32 {
        self.next_id
    }

    closed spec fn well_formed(&self) -> bool {
        todo_store_ok(todo_views(self.store@), self.next_id)
    }

    proof fn lemma_todos_ordered(&self) {
    }

    fn create(&mut self, payload: CreateTodo) -> (r: Result<TodoEntity, RepositoryError>) {
        if self.next_id == i32::MAX {
            return Err(RepositoryError::Unexpected("todo ids are used up".to_owned()));
        }
        let labels = self.resolve_labels(&payload.label_ids);
        let todo = TodoEntity::new(self.next_id, payload.text, labels, payload.user_id);
        let ghost before = self.store@;
        self.store.push(todo.clone());
        assert(todo_views(self.store@) =~= todo_views(before).push(todo@));
        self.next_id = self.next_id + 1;
        Ok(todo)
    }

    fn find(&self, id: i32) -> (r: Result<TodoEntity, RepositoryError>) {
        match self.position_of(id) {
            Some(i) => {
                let t = self.store[i].clone();
                assert(todo_views(self.store@)[i as int] == self.store@[i as int]@);
                Ok(t)
            },
            None => Err(RepositoryError::NotFound(id)),
        }
    }

    fn all(&self, user_id: i32) -> (r: Vec<TodoEntity>) {
        let mut out: Vec<TodoEntity> = Vec::new();
        let mut k: usize = self.store.len();
        let ghost views = todo_views(self.store@);
        assert(views.subrange(views.len() as int, views.len() as int) =~= Seq::<TodoView>::empty());
        assert(todo_views(out@) =~= Seq::<TodoView>::empty());
        while k > 0
            invariant
                0 <= k <= self.store.len(),
                views == todo_views(self.store@),
                todo_views(out@) == newest_first(
                    views.subrange(k as int, views.len() as int),
                    user_id,
                ),
            decreases k,
        {
            let ghost rest = views.subrange(k - 1, views.len() as int);
            assert(rest.drop_first() =~= views.subrange(k as int, views.len() as int));
            assert(rest[0] == self.store@[k - 1]@);
            if self.store[k - 1].user_id == user_id {
                let ghost before = out@;
                out.push(self.store[k - 1].clone());
                assert(todo_views(out@) =~= todo_views(before).push(self.store@[k - 1]@));
            }
            k = k - 1;
        }
        assert(views.subrange(0, views.len() as int) =~= views);
        out
    }

    fn update(&mut self, id: i32, payload: UpdateTodo) -> (r: Result<TodoEntity, RepositoryError>) {
        match self.position_of(id) {
            None => Err(RepositoryError::NotFound(id)),
            Some(i) => {
                let ghost before = self.store@;
                let ghost old_view = self.store@[i as int]@;
                let (text, completed) = merged_fields(&self.store[i], &payload);
                let labels = match &payload.label_ids {
                    Some(ids) => self.resolve_labels(ids),
                    None => {
                        let l = self.store[i].labels.clone();
                        assert(l@ =~= self.store@[i as int].labels@);
                        l
                    },
                };
                let todo = TodoEntity {
                    id,
                    text,
                    completed,
                    labels,
                    user_id: self.store[i].user_id,
                };
                assert(todo@ == updated_todo(old_view, payload, self.labels@));
                self.store.set(i, todo.clone());
                assert(todo_views(self.store@) =~= todo_views(before).update(i as int, todo@));
                assert(todo_views(before)[i as int] == old_view);
                assert(old_view.id == id);
                assert(todo_store_ok(todo_views(self.store@), self.next_id)) by {
                    assert forall|a: int| 0 <= a < self.store@.len() implies #[trigger] todo_views(
                        self.store@,
                    )[a].id == todo_views(before)[a].id by {}
                }
                Ok(todo)
            },
        }
    }

    fn delete(&mut self, id: i32) -> (r: Result<(), RepositoryError>) {
        match self.position_of(id) {
            None => Err(RepositoryError::NotFound(id)),
            Some(i) => {
                let ghost before = self.store@;
                self.store.remove(i);
                assert(todo_views(self.store@) =~= todo_views(before).remove(i as int));
                assert(todo_views(before)[i as int] == before[i as int]@);
                Ok(())
            },
        }
    }
}

/// In a well-formed store, the todo at `i` is the only one with its id.
proof fn lemma_id_unique(todos: Seq<TodoView>, next_id: i32, i: int)
    requires
        todo_store_ok(todos, next_id),
        0 <= i < todos.len(),
    ensures
        forall|j: int| 0 <= j < todos.len() && todos[j].id == todos[i].id ==> j == i,
{
    assert forall|j: int| 0 <= j < todos.len() && todos[j].id == todos[i].id implies j == i by {
        if j < i {
            assert(todos[j].id < todos[i].id);
        } else if i < j {
            assert(todos[i].id < todos[j].id);
        }
    }
}

/// Round trip: once a todo is created, it is the one todo with its id, so
/// finding that id returns it as created, with the labels that its label
/// ids name among the known labels.
pub proof fn lemma_created_todo_is_found(
    todos: Seq<TodoView>,
    next_id: i32,
    payload: CreateTodo,
    known: Seq<Label>,
)
    requires
        todo_store_ok(todos, next_id),
        next_id < i32::MAX,
    ensures
        todo_store_ok(todos.push(created_todo(payload, known, next_id)), (next_id + 1) as i32),
        has_todo(todos.push(created_todo(payload, known, next_id)), next_id),
        forall|i: int|
            0 <= i <= todos.len() && #[trigger] todos.push(
                created_todo(payload, known, next_id),
            )[i].id == next_id ==> todos.push(created_todo(payload, known, next_id))[i]
                == created_todo(payload, known, next_id),
        created_todo(payload, known, next_id).labels == resolved_labels(known, payload.label_ids@),
{
    let c = created_todo(payload, known, next_id);
    let after = todos.push(c);
    assert(after[todos.len() as int] == c);
    assert forall|i: int| 0 <= i < after.len() implies 1 <= #[trigger] after[i].id < next_id + 1 by {
        if i < todos.len() {
            assert(after[i] == todos[i]);
        }
    }
    assert forall|i: int, j: int|
        0 <= i < j < after.len() implies #[trigger] after[i].id < #[trigger] after[j].id by {
        assert(after[i] == todos[i]);
        if j < todos.len() {
            assert(after[j] == todos[j]);
        }
    }
    lemma_id_unique(after, (next_id + 1) as i32, todos.len() as int);
}

/// Resolving label ids keeps their order: the labels of two runs of ids
/// are those of the first run followed by those of the second.
pub proof fn lemma_resolve_keeps_order(known: Seq<Label>, a: Seq<i32>, b: Seq<i32>)
    ensures
        resolved_labels(known, a + b) == resolved_labels(known, a) + resolved_labels(known, b),
    decreases b.len(),
{
    if b.len() == 0 {
        assert(a + b =~= a);
        assert(resolved_labels(known, a) + resolved_labels(known, b) =~= resolved_labels(known, a));
    } else {
        lemma_resolve_keeps_order(known, a, b.drop_last());
        assert((a + b).drop_last() =~= a + b.drop_last());
        assert((a + b).last() == b.last());
        match label_with_id(known, b.last()) {
            Some(l) => {
                assert(resolved_labels(known, a + b) =~= resolved_labels(known, a)
                    + resolved_labels(known, b));
            },
            None => {},
        }
    }
}

/// A single label id resolves to the known label that it names, or to
/// nothing when it names none: unknown ids are dropped.
pub proof fn lemma_resolve_one(known: Seq<Label>, id: i32)
    ensures
        resolved_labels(known, seq![id]) == match label_with_id(known, id) {
            Some(l) => seq![l],
            None => Seq::<Label>::empty(),
        },
{
    assert(seq![id].drop_last() =~= Seq::<i32>::empty());
    assert(Seq::<i32>::empty().filter_map(lookup_in(known)) == Seq::<Label>::empty());
    assert(seq![id].last() == id);
    match label_with_id(known, id) {
        Some(l) => {
            assert(Seq::<Label>::empty() + seq![l] =~= seq![l]);
        },
        None => {},
    }
}

/// After an update of the todo at `i`, it is the one todo with its id, so
/// finding that id returns the updated todo.
pub proof fn lemma_updated_todo_is_found(
    todos: Seq<TodoView>,
    next_id: i32,
    i: int,
    payload: UpdateTodo,
    known: Seq<Label>,
)
    requires
        todo_store_ok(todos, next_id),
        0 <= i < todos.len(),
    ensures
        todo_store_ok(todos.update(i, updated_todo(todos[i], payload, known)), next_id),
        has_todo(todos.update(i, updated_todo(todos[i], payload, known)), todos[i].id),
        forall|j: int|
            0 <= j < todos.len() && #[trigger] todos.update(
                i,
                updated_todo(todos[i], payload, known),
            )[j].id == todos[i].id ==> todos.update(i, updated_todo(todos[i], payload, known))[j]
                == updated_todo(todos[i], payload, known),
{
    let v = updated_todo(todos[i], payload, known);
    let after = todos.update(i, v);
    assert forall|j: int| 0 <= j < after.len() implies #[trigger] after[j].id == todos[j].id by {}
    assert(after[i].id == todos[i].id);
    lemma_id_unique(after, next_id, i);
}

/// A partial update that gives only the completion flag leaves the text
/// and the labels as they were, and a later lookup finds them so.
pub proof fn lemma_completion_only_keeps_the_rest(
    todos: Seq<TodoView>,
    next_id: i32,
    i: int,
    payload: UpdateTodo,
    known: Seq<Label>,
)
    requires
        todo_store_ok(todos, next_id),
        0 <= i < todos.len(),
        payload.text is None,
        payload.label_ids is None,
    ensures
        updated_todo(todos[i], payload, known).text == todos[i].text,
        updated_todo(todos[i], payload, known).labels == todos[i].labels,
        has_todo(todos.update(i, updated_todo(todos[i], payload, known)), todos[i].id),
        updated_todo(todos[i], payload, known).completed == match payload.completed {
            Some(c) => c,
            None => todos[i].completed,
        },
        forall|j: int|
            0 <= j < todos.len() && #[trigger] todos.update(
                i,
                updated_todo(todos[i], payload, known),
            )[j].id == todos[i].id ==> todos.update(i, updated_todo(todos[i], payload, known))[j].text
                == todos[i].text && todos.update(i, updated_todo(todos[i], payload, known))[j].labels
                == todos[i].labels,
{
    lemma_updated_todo_is_found(todos, next_id, i, payload, known);
}

/// An update that gives an empty list of label ids removes every label of
/// the todo, and a later lookup finds it without labels.
pub proof fn lemma_empty_label_ids_clear_labels(
    todos: Seq<TodoView>,
    next_id: i32,
    i: int,
    payload: UpdateTodo,
    known: Seq<Label>,
)
    requires
        todo_store_ok(todos, next_id),
        0 <= i < todos.len(),
        payload.label_ids is Some,
        payload.label_ids->Some_0@.len() == 0,
    ensures
        has_todo(todos.update(i, updated_todo(todos[i], payload, known)), todos[i].id),
        updated_todo(todos[i], payload, known).labels == Seq::<Label>::empty(),
        forall|j: int|
            0 <= j < todos.len() && #[trigger] todos.update(
                i,
                updated_todo(todos[i], payload, known),
            )[j].id == todos[i].id ==> todos.update(i, updated_todo(todos[i], payload, known))[j].labels
                == Seq::<Label>::empty(),
{
    lemma_updated_todo_is_found(todos, next_id, i, payload, known);
}

/// Once the todo at `i` is deleted, no todo has its id: a later lookup,
/// update or deletion of that id fails with `NotFound`.
pub proof fn lemma_deleted_todo_is_gone(todos: Seq<TodoView>, next_id: i32, i: int)
    requires
        todo_store_ok(todos, next_id),
        0 <= i < todos.len(),
    ensures
        !has_todo(todos.remove(i), todos[i].id),
{
    lemma_id_unique(todos, next_id, i);
    let after = todos.remove(i);
    if has_todo(after, todos[i].id) {
        let j = choose|j: int| 0 <= j < after.len() && after[j].id == todos[i].id;
        if j < i {
            assert(after[j] == todos[j]);
        } else {
            assert(after[j] == todos[j + 1]);
        }
    }
}

/// Listing the todos of a user who has none gives an empty list, not an
/// error.
pub proof fn lemma_user_without_todos_lists_nothing(todos: Seq<TodoView>, user_id: i32)
    requires
        forall|i: int| 0 <= i < todos.len() ==> #[trigger] todos[i].user_id != user_id,
    ensures
        newest_first(todos, user_id) == Seq::<TodoView>::empty(),
    decreases todos.len(),
{
    if todos.len() > 0 {
        assert forall|i: int| 0 <= i < todos.drop_first().len() implies #[trigger] todos.drop_first()[i].user_id != user_id by {
            assert(todos.drop_first()[i] == todos[i + 1]);
        }
        lemma_user_without_todos_lists_nothing(todos.drop_first(), user_id);
        assert(todos[0].user_id != user_id);
    }
}

} // verus!
