use leptos_demos::todo::{ToDo, ToDos};

#[test]
fn new_todo() {
    let new_todo = ToDo::new("Task".to_string());

    assert_eq!(new_todo.title, "Task");
    assert_eq!(new_todo.completed, false);
}

#[test]
fn toggle_todo() {
    let mut new_todo = ToDo::new("Task 2".to_string());
    new_todo.toggle();

    assert_eq!(new_todo.title, "Task 2");
    assert_eq!(new_todo.completed, true);
}

#[test]
fn count_todos_remaining() {
    let todos = ToDos(Vec::new());
    assert_eq!(todos.num_remaining(), 0);
}

#[test]
fn add_todo() {
    let mut todos = ToDos(Vec::new());
    todos.new_todo("Task 3".to_string());

    assert_eq!(todos.num_remaining(), 1);
}

#[test]
fn get_todos_list() {
    let mut todos = ToDos(Vec::new());
    todos.new_todo("Task 4".to_string());
    todos.new_todo("Task 5".to_string());

    assert_eq!(
        todos.get(),
        vec![ToDo::new("Task 4".to_string()), ToDo::new("Task 5".to_string())]
    );
}

#[test]
fn completed_todos_are_not_counted() {
    let mut todos = ToDos(Vec::new());
    todos.new_todo("a".to_string());
    todos.new_todo("b".to_string());
    todos.new_todo("c".to_string());
    todos.0[1].toggle();
    assert_eq!(todos.num_remaining(), 2);
    todos.0[1].toggle();
    assert_eq!(todos.num_remaining(), 3);
}
