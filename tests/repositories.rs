use todo_back::models::label::{CreateLabel, Label};
use todo_back::models::todo::{CreateTodo, TodoEntity, UpdateTodo};
use todo_back::models::user::{CreateUser, User};
use todo_back::repositories::label::{LabelRepository, LabelRepositoryForMemory};
use todo_back::repositories::todo::{TodoRepository, TodoRepositoryForMemory};
use todo_back::repositories::user::{UserRepository, UserRepositoryForMemory};
use todo_back::repositories::RepositoryError;

#[test]
fn label_crud_scenario() {
    let name = "label name".to_string();
    let id = 1;
    let user_id = 1;
    let expected = Label::new(id, name.clone(), user_id);

    // create
    let mut repository = LabelRepositoryForMemory::new();
    let label = repository
        .create(user_id, CreateLabel::new(name))
        .expect("failed create label");
    assert_eq!(expected, label);

    // all
    let label = repository.all(user_id);
    assert_eq!(vec![expected], label);

    // delete
    let res = repository.delete(id, user_id);
    assert!(res.is_ok())
}

#[test]
fn todo_crud_scenario() {
    let text = "todo text".to_string();
    let id = 1;
    let user_id = 1;
    let label = Label::new(id, "test label".to_string(), user_id);
    let labels = vec![label.clone()];
    let expected = TodoEntity::new(id, text.clone(), labels.clone(), user_id);

    // create
    let mut repository = TodoRepositoryForMemory::new(labels.clone());
    let todo = repository
        .create(CreateTodo::new(text, vec![label.id], user_id))
        .expect("failed create todo");
    assert_eq!(expected, todo);

    let todo = repository.find(todo.id).unwrap();
    assert_eq!(expected, todo);

    let todo = repository.all(user_id);
    assert_eq!(vec![expected], todo);

    let text = "update todo text".to_string();
    let todo = repository
        .update(
            1,
            UpdateTodo {
                text: Some(text.clone()),
                completed: Some(true),
                label_ids: Some(vec![]),
            },
        )
        .expect("failed update todo.");
    assert_eq!(
        TodoEntity {
            id,
            text,
            completed: true,
            labels: vec![],
            user_id,
        },
        todo
    );

    let res = repository.delete(id);
    assert!(res.is_ok())
}

#[test]
fn user_crud_scenario() {
    let name = "test user".to_string();
    let id = 1;
    let expected = User::new(id, name.clone());

    // create
    let mut repository = UserRepositoryForMemory::new();
    let user = repository
        .create(CreateUser::new(name.clone()))
        .expect("failed create user");
    assert_eq!(expected, user);

    // all
    let users = repository.all();
    assert_eq!(vec![expected.clone()], users);

    // find_by_name
    let user = repository
        .find_by_name(name.clone())
        .expect("failed find_by_name");
    assert_eq!(expected, user);

    // duplicate check
    let res = repository.create(CreateUser::new(name));
    assert!(res.is_err());
}

#[test]
fn user_duplicate_reports_the_existing_id() {
    let mut repository = UserRepositoryForMemory::new();
    repository.create(CreateUser::new("a".to_string())).unwrap();
    repository.create(CreateUser::new("b".to_string())).unwrap();
    let res = repository.create(CreateUser::new("b".to_string()));
    assert_eq!(res, Err(RepositoryError::Duplicate(2)));
    assert_eq!(repository.all().len(), 2);
}

#[test]
fn user_find_by_name_is_exact() {
    let mut repository = UserRepositoryForMemory::new();
    repository.create(CreateUser::new("Alice".to_string())).unwrap();
    assert_eq!(
        repository.find_by_name("alice".to_string()),
        Err(RepositoryError::NotFound(0))
    );
    assert_eq!(
        repository.find_by_name("Ali".to_string()),
        Err(RepositoryError::NotFound(0))
    );
    assert_eq!(
        repository.find_by_name("Alice".to_string()),
        Ok(User::new(1, "Alice".to_string()))
    );
}

#[test]
fn label_create_with_a_used_name_returns_the_existing_label() {
    let mut repository = LabelRepositoryForMemory::new();
    let first = repository.create(1, CreateLabel::new("work".to_string())).unwrap();
    let other_user = repository.create(2, CreateLabel::new("work".to_string())).unwrap();
    let again = repository.create(1, CreateLabel::new("work".to_string())).unwrap();
    assert_eq!(first, again);
    assert_eq!(other_user, Label::new(2, "work".to_string(), 2));
    assert_eq!(repository.all(1), vec![first]);
}

#[test]
fn label_all_lists_the_owner_labels_by_ascending_id() {
    let mut repository = LabelRepositoryForMemory::new();
    repository.create(1, CreateLabel::new("a".to_string())).unwrap();
    repository.create(2, CreateLabel::new("b".to_string())).unwrap();
    repository.create(1, CreateLabel::new("c".to_string())).unwrap();
    let ids: Vec<i32> = repository.all(1).iter().map(|l| l.id).collect();
    assert_eq!(ids, vec![1, 3]);
    assert_eq!(repository.all(3), vec![]);
}

#[test]
fn label_delete_of_another_users_label_is_not_found() {
    let mut repository = LabelRepositoryForMemory::new();
    repository.create(1, CreateLabel::new("a".to_string())).unwrap();
    assert_eq!(repository.delete(1, 2), Err(RepositoryError::NotFound(1)));
    assert_eq!(repository.delete(5, 1), Err(RepositoryError::NotFound(5)));
    assert_eq!(repository.all(1).len(), 1);
    assert_eq!(repository.delete(1, 1), Ok(()));
    assert_eq!(repository.all(1), vec![]);
}

#[test]
fn label_ids_are_not_reused_after_delete() {
    let mut repository = LabelRepositoryForMemory::new();
    repository.create(1, CreateLabel::new("a".to_string())).unwrap();
    repository.create(1, CreateLabel::new("b".to_string())).unwrap();
    repository.delete(1, 1).unwrap();
    let c = repository.create(1, CreateLabel::new("c".to_string())).unwrap();
    assert_eq!(c.id, 3);
}

fn known_labels() -> Vec<Label> {
    vec![
        Label::new(1, "one".to_string(), 1),
        Label::new(2, "two".to_string(), 1),
    ]
}

#[test]
fn todo_create_then_find_resolves_labels_in_order_and_drops_unknown_ids() {
    let mut repository = TodoRepositoryForMemory::new(known_labels());
    let created = repository
        .create(CreateTodo::new("t".to_string(), vec![2, 999, 1], 1))
        .unwrap();
    let found = repository.find(created.id).unwrap();
    assert_eq!(created, found);
    assert_eq!(
        found.labels,
        vec![
            Label::new(2, "two".to_string(), 1),
            Label::new(1, "one".to_string(), 1)
        ]
    );
    assert!(!found.completed);
}

#[test]
fn todo_resolve_labels_drops_unknown_ids() {
    let repository = TodoRepositoryForMemory::new(known_labels());
    assert_eq!(
        repository.resolve_labels(&vec![999, 1, 1000]),
        vec![Label::new(1, "one".to_string(), 1)]
    );
    assert_eq!(repository.resolve_labels(&vec![]), vec![]);
}

#[test]
fn todo_update_of_completion_only_keeps_text_and_labels() {
    let mut repository = TodoRepositoryForMemory::new(known_labels());
    let created = repository
        .create(CreateTodo::new("keep me".to_string(), vec![1, 2], 1))
        .unwrap();
    let updated = repository
        .update(
            created.id,
            UpdateTodo {
                text: None,
                completed: Some(true),
                label_ids: None,
            },
        )
        .unwrap();
    assert_eq!(updated.text, "keep me");
    assert_eq!(updated.labels, created.labels);
    assert!(updated.completed);
    assert_eq!(repository.find(created.id).unwrap(), updated);
}

#[test]
fn todo_update_with_empty_label_ids_clears_labels() {
    let mut repository = TodoRepositoryForMemory::new(known_labels());
    let created = repository
        .create(CreateTodo::new("t".to_string(), vec![1, 2], 1))
        .unwrap();
    repository
        .update(
            created.id,
            UpdateTodo {
                text: None,
                completed: None,
                label_ids: Some(vec![]),
            },
        )
        .unwrap();
    let found = repository.find(created.id).unwrap();
    assert_eq!(found.labels, vec![]);
    assert_eq!(found.text, "t");
}

#[test]
fn todo_operations_on_a_missing_id_are_not_found() {
    let mut repository = TodoRepositoryForMemory::new(known_labels());
    repository
        .create(CreateTodo::new("t".to_string(), vec![], 1))
        .unwrap();
    assert_eq!(repository.find(42), Err(RepositoryError::NotFound(42)));
    assert_eq!(
        repository.update(
            42,
            UpdateTodo {
                text: Some("x".to_string()),
                completed: None,
                label_ids: None,
            }
        ),
        Err(RepositoryError::NotFound(42))
    );
    assert_eq!(repository.delete(42), Err(RepositoryError::NotFound(42)));
    assert_eq!(repository.all(2), vec![]);
}

#[test]
fn todo_deleted_is_gone() {
    let mut repository = TodoRepositoryForMemory::new(known_labels());
    let created = repository
        .create(CreateTodo::new("t".to_string(), vec![1], 1))
        .unwrap();
    assert_eq!(repository.delete(created.id), Ok(()));
    assert_eq!(repository.find(created.id), Err(RepositoryError::NotFound(created.id)));
    assert_eq!(repository.delete(created.id), Err(RepositoryError::NotFound(created.id)));
}

#[test]
fn todo_all_lists_newest_first() {
    let mut repository = TodoRepositoryForMemory::new(known_labels());
    repository.create(CreateTodo::new("a".to_string(), vec![], 1)).unwrap();
    repository.create(CreateTodo::new("b".to_string(), vec![], 2)).unwrap();
    repository.create(CreateTodo::new("c".to_string(), vec![], 1)).unwrap();
    let ids: Vec<i32> = repository.all(1).iter().map(|t| t.id).collect();
    assert_eq!(ids, vec![3, 1]);
}

#[test]
fn alice_ships_it() {
    let mut users = UserRepositoryForMemory::new();
    let alice = users.create(CreateUser::new("alice".to_string())).unwrap();
    let mut labels = LabelRepositoryForMemory::new();
    let work = labels
        .create(alice.id, CreateLabel::new("work".to_string()))
        .unwrap();
    assert_eq!(work.id, 1);
    let mut todos = TodoRepositoryForMemory::new(labels.all(alice.id));
    todos
        .create(CreateTodo::new("ship it".to_string(), vec![1], alice.id))
        .unwrap();
    let listed = todos.all(alice.id);
    assert_eq!(listed.len(), 1);
    assert_eq!(listed[0].text, "ship it");
    assert!(!listed[0].completed);
    assert_eq!(listed[0].labels, vec![Label::new(1, "work".to_string(), alice.id)]);
}
