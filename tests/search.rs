use learn_1::search::{binary_search, search};

#[test]
fn it_should_return_target_index_when_found() {
    let numbers_list = vec![1, 2, 3, 4, 5, 6, 7, 8, 9, 10, 11];
    let target = 8;

    let result = binary_search(&numbers_list, target, 0, numbers_list.len() - 1);

    assert_eq!(result, Some(7));
}

#[test]
fn it_should_return_none_when_target_not_found() {
    let numbers_list = vec![1, 2, 3, 4, 5, 6, 7, 8, 9, 10, 11];
    let target = 12;

    let result = binary_search(&numbers_list, target, 0, numbers_list.len() - 1);

    assert_eq!(result, None);
}

#[test]
fn every_element_is_found_at_an_equal_position() {
    let list = vec![-4, -4, 0, 2, 2, 2, 7, 9, 9, 30];
    for i in 0..list.len() {
        let j = binary_search(&list, list[i], 0, list.len() - 1).unwrap();
        assert_eq!(list[j], list[i]);
    }
}

#[test]
fn absent_values_are_not_found() {
    let list = vec![-4, -4, 0, 2, 2, 2, 7, 9, 9, 30];
    for v in [-100, -5, -3, 1, 3, 8, 10, 29, 31, i32::MIN, i32::MAX] {
        assert_eq!(binary_search(&list, v, 0, list.len() - 1), None);
    }
}

#[test]
fn value_below_the_first_element_is_not_found() {
    let list = vec![5, 6, 7];
    assert_eq!(binary_search(&list, 1, 0, 2), None);
    assert_eq!(binary_search(&list, 4, 0, 0), None);
}

#[test]
fn empty_range_finds_nothing() {
    let list = vec![1, 2, 3];
    assert_eq!(binary_search(&list, 2, 2, 1), None);
    assert_eq!(binary_search(&list, 2, 3, 0), None);
}

#[test]
fn search_stays_inside_the_range() {
    let list = vec![1, 2, 3, 4, 5, 6];
    assert_eq!(binary_search(&list, 5, 0, 2), None);
    assert_eq!(binary_search(&list, 2, 3, 5), None);
    assert_eq!(binary_search(&list, 5, 3, 5), Some(4));
    assert_eq!(binary_search(&list, 1, 0, 0), Some(0));
}

#[test]
fn whole_list_search_on_empty_list() {
    let list: Vec<i32> = Vec::new();
    assert_eq!(search(&list, 0), None);
}

#[test]
fn whole_list_search_finds_and_misses() {
    let list = vec![1, 2, 3, 4, 5, 6, 7, 8, 9, 10, 11];
    assert_eq!(search(&list, 8), Some(7));
    assert_eq!(search(&list, 1), Some(0));
    assert_eq!(search(&list, 11), Some(10));
    assert_eq!(search(&list, 12), None);
    assert_eq!(search(&list, 0), None);
    assert_eq!(search(&vec![3], 3), Some(0));
    assert_eq!(search(&vec![3], 2), None);
}
