use xuanmi_base_support::qsort::{Permute, QuickSort};

#[test]
fn test_qsort() {
    println!("Test sorting Vec<i32>");
    let mut data = vec![11, 4, 5, 14, 19, 19, 8, 10, 89, 3];
    println!("Original: {:?}", data);
    let order = data.quicksort();
    println!("Sorted: {:?}", data);
    println!("Argsort: {:?}\n", order);

    println!("Test sorting Vec<&str>");
    let mut data = vec!["甲", "乙", "丙", "丁", "戊", "己", "庚", "辛"];
    println!("Original: {:?}", data);
    let order = data.quicksort();
    println!("Sorted: {:?}", data);
    println!("Argsort: {:?}\n", order);
}

#[test]
fn test_premute() {
    println!("Test permuting Vec<&str>");
    let mut data = vec!["甲", "乙", "丙", "丁", "戊", "己", "庚", "辛"];
    let order: Vec<usize> = vec![5, 3, 1, 7, 2, 0, 4, 6];
    println!("Original: {:?}", data);
    println!("PermuteBy: {:?}", order);
    data.permute_by(&order).unwrap();
    println!("Permuted: {:?}", data);
}

#[test]
fn quicksort_sorts_and_records_origins() {
    let original = vec![11, 4, 5, 14, 19, 19, 8, 10, 89, 3];
    let mut data = original.clone();
    let order = data.quicksort();
    assert_eq!(data, vec![3, 4, 5, 8, 10, 11, 14, 19, 19, 89]);
    assert_eq!(order.len(), original.len());
    for i in 0..data.len() {
        assert_eq!(data[i], original[order[i]]);
    }
    let mut seen = order.clone();
    seen.sort();
    assert_eq!(seen, (0..original.len()).collect::<Vec<usize>>());
}

#[test]
fn quicksort_handles_small_and_repeated_inputs() {
    let mut empty: Vec<i32> = vec![];
    assert_eq!(empty.quicksort(), Vec::<usize>::new());
    let mut one = vec![7];
    assert_eq!(one.quicksort(), vec![0]);
    assert_eq!(one, vec![7]);
    let mut two = vec![2, 1];
    assert_eq!(two.quicksort(), vec![1, 0]);
    assert_eq!(two, vec![1, 2]);
    let mut same = vec![1, 1, 1];
    let order = same.quicksort();
    assert_eq!(same, vec![1, 1, 1]);
    let mut seen = order.clone();
    seen.sort();
    assert_eq!(seen, vec![0, 1, 2]);
}

#[test]
fn quicksort_orders_text() {
    let mut data = vec!["pear", "apple", "fig", "banana"];
    let order = data.quicksort();
    assert_eq!(data, vec!["apple", "banana", "fig", "pear"]);
    assert_eq!(order, vec![1, 3, 2, 0]);
}

#[test]
fn permute_by_places_each_item() {
    let mut data = vec!["a", "b", "c", "d", "e", "f", "g", "h"];
    let order: Vec<usize> = vec![5, 3, 1, 7, 2, 0, 4, 6];
    assert_eq!(data.permute_by(&order), Ok(()));
    assert_eq!(data, vec!["f", "d", "b", "h", "c", "a", "e", "g"]);
}

#[test]
fn permute_by_undoes_nothing_on_identity() {
    let mut data = vec![10, 20, 30];
    assert_eq!(data.permute_by(&vec![0, 1, 2]), Ok(()));
    assert_eq!(data, vec![10, 20, 30]);
}

#[test]
fn permute_by_refuses_what_is_no_permutation() {
    let mut data = vec![10, 20, 30];
    assert_eq!(data.permute_by(&vec![0, 1]), Err(()));
    assert_eq!(data.permute_by(&vec![0, 1, 3]), Err(()));
    assert_eq!(data.permute_by(&vec![0, 1, 1]), Err(()));
    assert_eq!(data, vec![10, 20, 30]);
}

#[test]
fn permute_by_follows_quicksort_order() {
    let original = vec![9, 3, 7, 1];
    let mut sorted = original.clone();
    let order = sorted.quicksort();
    let mut again = original.clone();
    assert_eq!(again.permute_by(&order), Ok(()));
    assert_eq!(again, sorted);
}
