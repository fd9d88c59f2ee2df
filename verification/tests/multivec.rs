use multivec::view::split_rows;
use multivec::{MultiVec, MultiVecMut, MultiVecRef};

#[derive(Debug, PartialEq)]
struct NonClone<T>(T);

fn assert_send<T: Send>() {}

fn assert_sync<T: Sync>() {}

#[test]
fn container_is_send_and_sync() {
    assert_send::<MultiVec<0, u8>>();
    assert_sync::<MultiVec<0, u8>>();
    assert_send::<MultiVec<2, u8>>();
    assert_sync::<MultiVec<2, u8>>();
}

#[test]
fn test_from_fn_0() {
    for n in 0..10usize {
        let m = MultiVec::<0, _>::from_fn(n, [], |i, _| i);
        assert_eq!(m.as_slice().len(), n);
        for (i, v) in m.as_slice().iter().enumerate() {
            assert_eq!(i, *v);
        }
        for i in 0..n {
            assert_eq!(*m.as_view().index(i), i);
        }
    }
}

#[test]
fn test_from_fn_1() {
    for n1 in 0..10usize {
        for n2 in 0..10usize {
            let m = MultiVec::<1, _>::from_fn(n1, [n2], |i1, [i2]| (i1, i2));
            for i1 in 0..n1 {
                for i2 in 0..n2 {
                    assert_eq!((i1, i2), *m.as_view().index(i1).index(i2));
                }
            }
        }
    }
}

#[test]
fn test_from_fn_2() {
    for outer_size in 0..10usize {
        for s0 in 0..10usize {
            for s1 in 0..10usize {
                let sizes = [s0, s1];
                let m1 = MultiVec::<2, _>::from_fn(outer_size, sizes, |i1, [i2, i3]| (i1, i2, i3));
                for i1 in 0..outer_size {
                    for i2 in 0..sizes[0] {
                        for i3 in 0..sizes[1] {
                            assert_eq!((i1, i2, i3), *m1.as_view().index(i1).index(i2).index(i3));
                        }
                    }
                }

                let mut m2 = MultiVec::<2, (usize, usize, usize)>::default(outer_size, sizes);
                for i1 in 0..outer_size {
                    for i2 in 0..sizes[0] {
                        for i3 in 0..sizes[1] {
                            *m2.as_view_mut().index_mut(i1).index_mut(i2).index_mut(i3) = (i1, i2, i3);
                        }
                    }
                }

                assert!(m1 == m2);
            }
        }
    }
}

#[test]
fn from_fn_accepts_elements_without_clone() {
    let m = MultiVec::<2, _>::from_fn(3, [4, 5], |i, [j, k]| NonClone((i, j, k)));
    assert_eq!(*m.as_view().index(2).index(3).index(4), NonClone((2, 3, 4)));
}

#[test]
fn concrete_scenario_three_by_four_by_five() {
    let m = MultiVec::<2, (usize, usize, usize)>::from_fn(3, [4, 5], |o, [i, j]| (o, i, j));
    let top = m.as_view();
    assert_eq!(*top.index(1).index(2).index(3), (1, 2, 3));
    assert_eq!(m.size(), 3);
    assert_eq!(top.size(), 3);
    assert_eq!(top.index(1).size(), 4);
    assert_eq!(top.index(1).index(2).size(), 5);
    assert!(3 >= top.size());
}

#[test]
fn storage_is_row_major() {
    let m = MultiVec::<2, (usize, usize, usize)>::from_fn(3, [4, 5], |o, [i, j]| (o, i, j));
    assert_eq!(m.as_slice().len(), 60);
    assert_eq!(m.offsets(), &[20, 5]);
    assert_eq!(m.as_slice()[33], (1, 2, 3));
    assert_eq!(m.as_slice()[0], (0, 0, 0));
    assert_eq!(m.as_slice()[1], (0, 0, 1));
    assert_eq!(m.as_slice()[5], (0, 1, 0));
    assert_eq!(m.as_slice()[20], (1, 0, 0));
    assert_eq!(m.as_slice()[59], (2, 3, 4));
    assert_eq!(m.elements().len(), 60);
}

#[test]
fn generator_is_called_once_per_tuple_in_order() {
    let calls = std::cell::RefCell::new(Vec::new());
    let m = MultiVec::<1, usize>::from_fn(2, [3], |o, [i]| {
        calls.borrow_mut().push((o, i));
        o * 10 + i
    });
    assert_eq!(*calls.borrow(), vec![(0, 0), (0, 1), (0, 2), (1, 0), (1, 1), (1, 2)]);
    assert_eq!(m.as_slice(), &[0, 1, 2, 10, 11, 12]);
}

#[test]
fn empty_outer_extent_has_no_rows() {
    let m = MultiVec::<2, u8>::from_fn(0, [4, 5], |_, _| 1);
    assert_eq!(m.size(), 0);
    assert_eq!(m.as_view().size(), 0);
    assert!(m.as_slice().is_empty());
    assert_eq!(m.offsets(), &[20, 5]);
}

#[test]
fn empty_inner_extent_has_empty_rows() {
    let m = MultiVec::<2, u8>::from_fn(3, [4, 0], |_, _| 1);
    assert!(m.as_slice().is_empty());
    assert_eq!(m.offsets(), &[0, 0]);
    let m = MultiVec::<2, u8>::from_fn(3, [0, 5], |_, _| 1);
    assert!(m.as_slice().is_empty());
    assert_eq!(m.offsets(), &[0, 5]);
    assert_eq!(m.size(), 0);
    assert_eq!(m.as_view().size(), 0);
}

#[test]
fn empty_last_extent_has_no_rows() {
    let mut m = MultiVec::<1, u8>::from_fn(3, [0], |_, _| 1);
    assert!(m.as_slice().is_empty());
    assert_eq!(m.offsets(), &[0]);
    assert_eq!(m.size(), 0);
    assert_eq!(m.as_view_mut().size(), 0);
}

#[test]
fn default_fills_with_default_value() {
    let m = MultiVec::<1, u32>::default(2, [3]);
    assert_eq!(m.as_slice(), &[0, 0, 0, 0, 0, 0]);
    assert_eq!(m.offsets(), &[3]);
    assert_eq!(m.size(), 2);
    let s = MultiVec::<1, String>::default(1, [2]);
    assert_eq!(s.as_slice(), &[String::new(), String::new()]);
}

#[test]
fn write_then_read_leaves_others_alone() {
    let mut m = MultiVec::<2, (usize, usize, usize)>::from_fn(3, [4, 5], |o, [i, j]| (o, i, j));
    *m.as_view_mut().index_mut(1).index_mut(2).index_mut(3) = (9, 9, 9);
    for o in 0..3 {
        for i in 0..4 {
            for j in 0..5 {
                let expected = if (o, i, j) == (1, 2, 3) { (9, 9, 9) } else { (o, i, j) };
                assert_eq!(*m.as_view().index(o).index(i).index(j), expected);
            }
        }
    }
    assert_eq!(m.as_slice()[33], (9, 9, 9));
    assert_eq!(m.offsets(), &[20, 5]);
}

#[test]
fn mutable_view_reports_sizes() {
    let mut m = MultiVec::<2, u8>::from_fn(3, [4, 5], |_, _| 0);
    assert_eq!(m.as_view_mut().size(), 3);
    assert_eq!(m.as_view_mut().index_mut(0).size(), 4);
    assert_eq!(m.as_view_mut().index_mut(0).index_mut(1).size(), 5);
}

#[test]
fn write_in_flat_array() {
    let mut m = MultiVec::<0, u8>::from_fn(4, [], |i, _| i as u8);
    *m.as_view_mut().index_mut(2) = 77;
    assert_eq!(m.as_slice(), &[0, 1, 77, 3]);
    assert_eq!(m.size(), 4);
}

#[test]
fn clone_is_equal_and_independent() {
    let m = MultiVec::<1, u32>::from_fn(2, [3], |o, [i]| (o * 3 + i) as u32);
    let mut c = m.clone();
    assert!(m == c);
    *c.as_view_mut().index_mut(1).index_mut(1) = 100;
    assert!(m != c);
    assert_eq!(m.as_slice(), &[0, 1, 2, 3, 4, 5]);
    assert_eq!(c.as_slice(), &[0, 1, 2, 3, 100, 5]);
}

#[test]
fn equality_looks_at_strides() {
    let a = MultiVec::<1, u8>::from_fn(2, [3], |_, _| 1);
    let b = MultiVec::<1, u8>::from_fn(3, [2], |_, _| 1);
    assert_eq!(a.as_slice(), b.as_slice());
    assert!(a != b);
}

#[test]
fn equality_looks_at_elements() {
    let a = MultiVec::<1, u8>::from_fn(2, [3], |_, _| 1);
    let b = MultiVec::<1, u8>::from_fn(2, [3], |o, _| o as u8);
    let c = MultiVec::<1, u8>::from_fn(2, [3], |_, _| 1);
    assert!(a != b);
    assert!(a == c);
}

#[test]
fn view_over_plain_slices() {
    let data = [1, 2, 3, 4, 5, 6];
    let strides = [3usize];
    let v = MultiVecRef::<1, i32>::new(&data, &strides);
    assert_eq!(v.size(), 2);
    assert_eq!(v.index(1).as_slice(), &[4, 5, 6]);
    assert_eq!(v.index(1).size(), 3);
    assert_eq!(*v.index(1).index(0), 4);
    assert!(v.index(0).offsets().is_empty());
    let copy = v;
    assert_eq!(copy.as_slice(), v.as_slice());
}

#[test]
fn deep_array_addresses_every_element() {
    let m = MultiVec::<4, usize>::from_fn(2, [2, 3, 2, 2], |o, [a, b, c, d]| {
        (((o * 2 + a) * 3 + b) * 2 + c) * 2 + d
    });
    assert_eq!(m.offsets(), &[24, 12, 4, 2]);
    let mut expected = 0;
    for o in 0..2 {
        for a in 0..2 {
            for b in 0..3 {
                for c in 0..2 {
                    for d in 0..2 {
                        let got = *m.as_view().index(o).index(a).index(b).index(c).index(d);
                        assert_eq!(got, expected);
                        expected += 1;
                    }
                }
            }
        }
    }
}

#[test]
fn split_rows_cuts_whole_rows() {
    let data = [1, 2, 3, 4, 5, 6];
    let rows = split_rows(&data, 2);
    assert_eq!(rows, vec![&[1, 2][..], &[3, 4][..], &[5, 6][..]]);
    let none = split_rows(&data, 0);
    assert!(none.is_empty());
    let empty: [i32; 0] = [];
    assert!(split_rows(&empty, 3).is_empty());
}

#[test]
fn mutable_view_can_be_read() {
    let mut m = MultiVec::<1, u8>::from_fn(2, [2], |o, [i]| (o * 2 + i) as u8);
    let mut row: MultiVecMut<'_, 0, u8> = m.as_view_mut().index_mut(1);
    assert_eq!(*row.as_view().index(0), 2);
    row.slice[1] = 9;
    assert_eq!(row.as_view().as_slice(), &[2, 9]);
    assert_eq!(m.as_slice(), &[0, 1, 2, 9]);
}
