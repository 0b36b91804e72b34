use rsgit::sorted::{insert_sorted, sort_by_name};

fn words(list: &[&str]) -> Vec<String> {
    list.iter().map(|s| s.to_string()).collect()
}

#[test]
fn lists_are_sorted_by_name() {
    assert_eq!(sort_by_name(words(&["b", "a", "", "ab", "B", "a"])), ["", "B", "a", "a", "ab", "b"]);
    assert!(sort_by_name(words(&[])).is_empty());
}

#[test]
fn what_is_inserted_takes_its_place() {
    let mut list = words(&["a", "c"]);
    insert_sorted(&mut list, "b".to_string());
    insert_sorted(&mut list, "d".to_string());
    insert_sorted(&mut list, "".to_string());
    assert_eq!(list, ["", "a", "b", "c", "d"]);
}
