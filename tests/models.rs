use todo_back::models::label::{CreateLabel, DeleteLabel, Label};
use todo_back::models::todo::{CreateTodo, TodoEntity, UpdateTodo};
use todo_back::models::user::{CreateUser, User};
use todo_back::models::validation::is_valid_text;

#[test]
fn constructors_fill_the_fields() {
    let label = Label::new(3, "x".to_string(), 4);
    assert_eq!((label.id, label.name.as_str(), label.user_id), (3, "x", 4));
    let todo = TodoEntity::new(5, "t".to_string(), vec![label.clone()], 4);
    assert!(!todo.completed);
    assert_eq!(todo.labels, vec![label]);
    assert_eq!(DeleteLabel::new(1, 2), DeleteLabel { id: 1, user_id: 2 });
    assert_eq!(User::new(1, "u".to_string()).name, "u");
    assert_eq!(CreateTodo::new("t".to_string(), vec![1], 9).user_id, 9);
}

#[test]
fn text_length_is_checked_in_characters() {
    assert!(!is_valid_text(&String::new()));
    assert!(is_valid_text(&"a".to_string()));
    assert!(is_valid_text(&"a".repeat(100)));
    assert!(!is_valid_text(&"a".repeat(101)));
    // 100 characters of three bytes each
    assert!(is_valid_text(&"日".repeat(100)));
    assert!(!is_valid_text(&"日".repeat(101)));
}

#[test]
fn payloads_validate_their_text() {
    assert!(CreateUser::new("bob".to_string()).validate());
    assert!(!CreateUser::new(String::new()).validate());
    assert!(CreateLabel::new("l".to_string()).validate());
    assert!(!CreateLabel::new("l".repeat(101)).validate());
    assert!(CreateTodo::new("t".to_string(), vec![], 1).validate());
    assert!(!CreateTodo::new(String::new(), vec![], 1).validate());
    let none = UpdateTodo {
        text: None,
        completed: Some(true),
        label_ids: None,
    };
    assert!(none.validate());
    let empty = UpdateTodo {
        text: Some(String::new()),
        completed: None,
        label_ids: None,
    };
    assert!(!empty.validate());
}
