use convey::select::{NavigationDirection, Select, SelectItem};

fn item<T>(key: &str, label: &str, value: T) -> SelectItem<T> {
    SelectItem::new(key.to_owned(), label.to_owned(), value)
}

fn type_query<T>(select: &mut Select<T>, query: &str) {
    let chars: Vec<char> = query.chars().collect();
    select.set_query(&chars);
}

#[test]
fn searches_items_by_prefix() {
    let mut select = Select::new();
    select.replace_items(vec![item("one", "first", 1), item("two", "second", 2)]);

    type_query(&mut select, "sec");

    assert_eq!(select.selected(), Some(&2));
}

#[test]
fn preserves_the_defined_item_order() {
    let mut select = Select::new();
    select.replace_items(vec![
        item("pod", "pod", 1),
        item("deployment", "deployment", 2),
        item("daemonset", "daemonset", 3),
    ]);

    assert_eq!(select.selected(), Some(&1));
    select.navigate(NavigationDirection::Next);
    assert_eq!(select.selected(), Some(&2));
}

#[test]
fn uses_the_query_when_there_are_no_candidates() {
    let mut select = Select::new();
    select.replace_items(vec![item("known", "known", "known".to_owned())]);

    type_query(&mut select, "custom");

    assert_eq!(select.selected(), None);
    assert_eq!(select.value().as_deref(), Some("custom"));
}

#[test]
fn does_not_create_a_value_from_an_empty_query() {
    let select = Select::<String>::new();

    assert_eq!(select.value(), None);
}

#[test]
fn keeps_selection_when_items_are_refreshed() {
    let mut select = Select::new();
    select.replace_items(vec![item("one", "first", 1), item("two", "second", 2)]);
    select.navigate(NavigationDirection::Next);

    select.replace_items(vec![item("two", "second", 2), item("one", "first", 1)]);

    assert_eq!(select.selected(), Some(&2));
}

#[test]
fn selects_a_clicked_suggestion() {
    let mut select = Select::new();
    select.replace_items(vec![item("one", "first", 1), item("two", "second", 2)]);

    assert!(select.select_at(1));

    assert_eq!(select.selected(), Some(&2));
}

#[test]
fn lists_the_labels_of_the_suggestions() {
    let mut select = Select::new();
    select.replace_items(vec![item("a", "alpha", 1), item("b", "beta", 2), item("c", "alphabet", 3)]);
    type_query(&mut select, "alp");

    let (labels, selected) = select.suggestion_labels();
    assert_eq!(labels, vec!["alpha".to_owned(), "alphabet".to_owned()]);
    assert_eq!(selected, Some(0));
    assert!(!select.select_at(2));
}

#[test]
fn keeps_the_query_typed() {
    let mut select: Select<String> = Select::new();
    select.replace_items(vec![item("a", "alpha", "alpha".to_owned())]);
    type_query(&mut select, "al");

    assert_eq!(select.query_text().iter().collect::<String>(), "al");
}
