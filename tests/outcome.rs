use todo_back::models::label::Label;
use todo_back::models::todo::{TodoEntity, UpdateTodo};
use todo_back::models::user::User;
use todo_back::repositories::outcome::{
    check_name_free, classify_failure, found_user, merged_fields, removal_outcome,
    todo_from_rows, StoreFailure,
};
use todo_back::repositories::todo::TodoWithLabelFromRow;
use todo_back::repositories::RepositoryError;

#[test]
fn removal_of_nothing_is_not_found() {
    assert_eq!(removal_outcome(7, 0), Err(RepositoryError::NotFound(7)));
    assert_eq!(removal_outcome(7, 1), Ok(()));
    assert_eq!(removal_outcome(7, 3), Ok(()));
}

#[test]
fn failures_are_classified() {
    assert_eq!(
        classify_failure(4, StoreFailure::RowNotFound),
        RepositoryError::NotFound(4)
    );
    assert_eq!(
        classify_failure(4, StoreFailure::Other("down".to_string())),
        RepositoryError::Unexpected("down".to_string())
    );
}

#[test]
fn todo_from_rows_takes_the_first_aggregate() {
    assert_eq!(todo_from_rows(3, vec![]), Err(RepositoryError::NotFound(3)));
    let rows = vec![
        TodoWithLabelFromRow {
            id: 3,
            text: "t".to_string(),
            completed: true,
            user_id: 1,
            label_id: Some(8),
            label_name: Some("l".to_string()),
            label_user_id: Some(1),
        },
        TodoWithLabelFromRow {
            id: 3,
            text: "t".to_string(),
            completed: true,
            user_id: 1,
            label_id: None,
            label_name: None,
            label_user_id: None,
        },
    ];
    let todo = todo_from_rows(3, rows).unwrap();
    assert_eq!(
        todo,
        TodoEntity {
            id: 3,
            text: "t".to_string(),
            completed: true,
            labels: vec![Label::new(8, "l".to_string(), 1)],
            user_id: 1,
        }
    );
}

#[test]
fn user_decisions() {
    let u = User::new(5, "x".to_string());
    assert_eq!(check_name_free(Some(u.clone())), Err(RepositoryError::Duplicate(5)));
    assert_eq!(check_name_free(None), Ok(()));
    assert_eq!(found_user(Some(u.clone())), Ok(u));
    assert_eq!(found_user(None), Err(RepositoryError::NotFound(0)));
}

#[test]
fn merged_fields_prefer_the_payload() {
    let current = TodoEntity::new(1, "old".to_string(), vec![], 1);
    let keep = UpdateTodo {
        text: None,
        completed: None,
        label_ids: None,
    };
    assert_eq!(merged_fields(&current, &keep), ("old".to_string(), false));
    let change = UpdateTodo {
        text: Some("new".to_string()),
        completed: Some(true),
        label_ids: None,
    };
    assert_eq!(merged_fields(&current, &change), ("new".to_string(), true));
}
