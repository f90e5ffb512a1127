use vstd::prelude::*;

use crate::models::label::{CreateLabel, Label};
use crate::repositories::RepositoryError;

verus! {

/// Whether a label belongs to the user `user_id`.
pub open spec fn label_owned_by(user_id: i32) -> spec_fn(Label) -> bool {
    |l: Label| l.user_id == user_id
}

/// The first label of `labels` that `user_id` owns under the name `name`.
pub open spec fn label_named(labels: Seq<Label>, user_id: i32, name: Seq<char>) -> Option<Label>
    decreases labels.len(),
{
    if labels.len() == 0 {
        None
    } else if labels[0].user_id == user_id && labels[0].name@ == name {
        Some(labels[0])
    } else {
        label_named(labels.drop_first(), user_id, name)
    }
}

/// Whether `labels` holds the label `id` of the user `user_id`.
pub open spec fn has_label(labels: Seq<Label>, id: i32, user_id: i32) -> bool {
    exists|i: int| 0 <= i < labels.len() && labels[i].id == id && labels[i].user_id == user_id
}

/// A store of labels: ids are positive, strictly increasing in storage
/// order, and below the id that the next label gets.
pub open spec fn label_store_ok(labels: Seq<Label>, next_id: i32) -> bool {
    &&& 1 <= next_id
    &&& forall|i: int| 0 <= i < labels.len() ==> 1 <= #[trigger] labels[i].id < next_id
    &&& forall|i: int, j: int|
        0 <= i < j < labels.len() ==> #[trigger] labels[i].id < #[trigger] labels[j].id
}

/// The operations on labels. A label name is unique per owner: creating a
/// label under a name that its owner already uses returns that label.
pub trait LabelRepository: Sized {
    /// The labels held, in ascending id order.
    spec fn labels(&self) -> Seq<Label>;

    /// The id that the next new label gets.
    spec fn next_label_id(&self) -> i32;

    spec fn well_formed(&self) -> bool;

    /// A well-formed repository holds its labels by ascending, positive ids
    /// below the next one.
    proof fn lemma_labels_ordered(&self)
        requires
            self.well_formed(),
        ensures
            label_store_ok(self.labels(), self.next_label_id()),
    ;

    /// Creates the label `payload.name` of the user `user_id`, or returns
    /// the one that this user already has under that name. Fails with
    /// `Unexpected` only when the ids are used up.
    fn create(&mut self, user_id: i32, payload: CreateLabel) -> (r: Result<
        Label,
        RepositoryError,
    >)
        requires
            old(self).well_formed(),
        ensures
            final(self).well_formed(),
            match label_named(old(self).labels(), user_id, payload.name@) {
                Some(l) => r == Ok::<Label, RepositoryError>(l) && final(self).labels()
                    == old(self).labels() && final(self).next_label_id()
                    == old(self).next_label_id(),
                None => if old(self).next_label_id() < i32::MAX {
                    &&& r == Ok::<Label, RepositoryError>(
                        Label { id: old(self).next_label_id(), name: payload.name, user_id },
                    )
                    &&& final(self).labels() == old(self).labels().push(
                        Label { id: old(self).next_label_id(), name: payload.name, user_id },
                    )
                    &&& final(self).next_label_id() == old(self).next_label_id() + 1
                } else {
                    &&& r matches Err(RepositoryError::Unexpected(_))
                    &&& final(self).labels() == old(self).labels()
                    &&& final(self).next_label_id() == old(self).next_label_id()
                },
            },
    ;

    /// The labels of the user `user_id`, in ascending id order.
    fn all(&self, user_id: i32) -> (r: Vec<Label>)
        requires
            self.well_formed(),
        ensures
            r@ == self.labels().filter(label_owned_by(user_id)),
    ;

    /// Deletes the label `id` of the user `user_id`; `NotFound` when there
    /// is no such label, also when another user owns it.
    fn delete(&mut self, id: i32, user_id: i32) -> (r: Result<(), RepositoryError>)
        requires
            old(self).well_formed(),
        ensures
            final(self).well_formed(),
            final(self).next_label_id() == old(self).next_label_id(),
            has_label(old(self).labels(), id, user_id) ==> r is Ok && exists|i: int|
                0 <= i < old(self).labels().len() && old(self).labels()[i].id == id
                    && old(self).labels()[i].user_id == user_id && final(self).labels()
                    == old(self).labels().remove(i),
            !has_label(old(self).labels(), id, user_id) ==> r == Err::<(), RepositoryError>(
                RepositoryError::NotFound(id),
            ) && final(self).labels() == old(self).labels(),
    ;
}

/// Labels held in memory, in ascending id order.
#[derive(Debug)]
pub struct LabelRepositoryForMemory {
    store: Vec<Label>,
    next_id: i32,
}

impl LabelRepositoryForMemory {
    pub fn new() -> (r: Self)
        ensures
            r.well_formed(),
            r.labels() == Seq::<Label>::empty(),
            r.next_label_id() == 1,
    {
        LabelRepositoryForMemory { store: Vec::new(), next_id: 1 }
    }
}

impl LabelRepository for LabelRepositoryForMemory {
    closed spec fn labels(&self) -> Seq<Label> {
        self.store@
    }

    closed spec fn next_label_id(&self) -> i32 {
        self.next_id
    }

    closed spec fn well_formed(&self) -> bool {
        label_store_ok(self.store@, self.next_id)
    }

    proof fn lemma_labels_ordered(&self) {
    }

    fn create(&mut self, user_id: i32, payload: CreateLabel) -> (r: Result<Label, RepositoryError>) {
        let mut i: usize = 0;
        assert(self.store@.subrange(0, self.store@.len() as int) =~= self.store@);
        while i < self.store.len()
            invariant
                0 <= i <= self.store.len(),
                self.store@ == old(self).store@,
                self.next_id == old(self).next_id,
                label_store_ok(self.store@, self.next_id),
                label_named(self.store@, user_id, payload.name@) == label_named(
                    self.store@.subrange(i as int, self.store@.len() as int),
                    user_id,
                    payload.name@,
                ),
            decreases self.store.len() - i,
        {
            let ghost rest = self.store@.subrange(i as int, self.store@.len() as int);
            assert(rest.drop_first() =~= self.store@.subrange(i + 1, self.store@.len() as int));
            assert(rest[0] == self.store@[i as int]);
            if self.store[i].user_id == user_id && self.store[i].name == payload.name {
                return Ok(self.store[i].clone());
            }
            i = i + 1;
        }
        if self.next_id == i32::MAX {
            return Err(RepositoryError::Unexpected("label ids are used up".to_owned()));
        }
        let label = Label { id: self.next_id, name: payload.name, user_id };
        self.store.push(label.clone());
        self.next_id = self.next_id + 1;
        Ok(label)
    }

    fn all(&self, user_id: i32) -> (r: Vec<Label>) {
        let mut out: Vec<Label> = Vec::new();
        let mut i: usize = 0;
        assert(self.store@.take(0) =~= Seq::<Label>::empty());
        proof {
            reveal(Seq::filter);
        }
        while i < self.store.len()
            invariant
                0 <= i <= self.store.len(),
                out@ == self.store@.take(i as int).filter(label_owned_by(user_id)),
            decreases self.store.len() - i,
        {
            proof {
                let taken = self.store@.take(i as int);
                assert(self.store@.take(i + 1) =~= taken.push(self.store@[i as int]));
                taken.lemma_filter_push(self.store@[i as int], label_owned_by(user_id));
            }
            if self.store[i].user_id == user_id {
                out.push(self.store[i].clone());
            }
            i = i + 1;
        }
        assert(self.store@.take(self.store.len() as int) =~= self.store@);
        out
    }

    fn delete(&mut self, id: i32, user_id: i32) -> (r: Result<(), RepositoryError>) {
        let mut i: usize = 0;
        while i < self.store.len()
            invariant
                0 <= i <= self.store.len(),
                self.store@ == old(self).store@,
                self.next_id == old(self).next_id,
                label_store_ok(self.store@, self.next_id),
                forall|j: int|
                    0 <= j < i ==> !(self.store@[j].id == id && self.store@[j].user_id == user_id),
            decreases self.store.len() - i,
        {
            if self.store[i].id == id && self.store[i].user_id == user_id {
                let ghost before = self.store@;
                self.store.remove(i);
                assert(self.store@ == before.remove(i as int));
                assert forall|a: int, b: int|
                    0 <= a < b < self.store@.len() implies #[trigger] self.store@[a].id
                    < #[trigger] self.store@[b].id by {
                    if a >= i {
                        assert(self.store@[a] == before[a + 1]);
                    } else {
                        assert(self.store@[a] == before[a]);
                    }
                    if b >= i {
                        assert(self.store@[b] == before[b + 1]);
                    } else {
                        assert(self.store@[b] == before[b]);
                    }
                }
                assert forall|a: int| 0 <= a < self.store@.len() implies 1
                    <= #[trigger] self.store@[a].id < self.next_id by {
                    if a >= i {
                        assert(self.store@[a] == before[a + 1]);
                    } else {
                        assert(self.store@[a] == before[a]);
                    }
                }
                return Ok(());
            }
            i = i + 1;
        }
        Err(RepositoryError::NotFound(id))
    }
}

} // verus!
