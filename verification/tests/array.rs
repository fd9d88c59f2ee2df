use multivec::array::{arr_split_first, arr_split_first_mut};

#[test]
fn test_arr_split_first_1() {
    let arr = [123];
    let (first, remaining) = arr_split_first(&arr);
    assert_eq!(*first, 123);
    assert_eq!(*remaining, []);
}

#[test]
fn test_arr_split_first() {
    let arr = [1, 2, 3, 4];
    let (first, remaining) = arr_split_first(&arr);
    assert_eq!(*first, 1);
    assert_eq!(*remaining, [2, 3, 4]);
}

#[test]
fn test_arr_split_first_mut_1() {
    let mut arr = [123];
    let (first, remaining) = arr_split_first_mut(&mut arr);
    assert_eq!(*first, 123);
    assert_eq!(*remaining, []);

    *first = 456;
    assert_eq!(arr, [456]);
}

#[test]
fn test_arr_split_first_mut() {
    let mut arr = [1, 2, 3, 4];
    let (first, remaining) = arr_split_first_mut(&mut arr);
    assert_eq!(*first, 1);
    assert_eq!(*remaining, [2, 3, 4]);

    *first = 123;
    remaining[1] = 456;
    assert_eq!(arr, [123, 2, 456, 4]);
}
