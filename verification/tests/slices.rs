use biguint4096::slices::{f1, f2, f3, f4};

#[test]
fn f1_true() {
    let i0 = 0;
    let i1 = 1;
    let tuple = &mut (i0, i1);

    let result = f1(tuple, true);

    assert_eq!(*result, 1);
}

#[test]
fn f1_false() {
    let i0 = 0;
    let i1 = 1;
    let tuple = &mut (i0, i1);

    let result = f1(tuple, false);

    assert_eq!(*result, 0);
}

#[test]
fn f2_0() {
    let mut vec1 = vec![0, 1, 2, 3];
    let slice = vec1.as_mut_slice();

    let result = f2(slice, 0);

    assert_eq!(*result, 0);
}

#[test]
fn f2_2() {
    let mut vec1 = vec![0, 1, 2, 3];
    let slice = vec1.as_mut_slice();

    let result = f2(slice, 2);

    assert_eq!(*result, 2);
}

#[test]
fn f3_0() {
    let mut vec1 = vec![0, 1, 2, 3];
    vec1.reverse();
    let vec1 = vec1.as_mut_slice();
    let slice = vec1;

    let result = f3(slice, 0);

    assert_eq!(*result, 0);
}

#[test]
#[allow(clippy::useless_vec)]
fn f3_2() {
    let mut vec1 = vec![0, 1, 2, 3];
    vec1.reverse();
    let slice = &mut vec1[0..=3];

    let result = f3(slice, 2);

    assert_eq!(*result, 2);
}

#[test]
fn f4_equal_parts() {
    let vec1 = vec![0, 1, 2, 3];
    let slice = vec1.as_slice();

    let (slice1, slice2, slice3, slice4) = f4(slice);

    assert_eq!(slice1, [0].as_slice());
    assert_eq!(slice2, [1].as_slice());
    assert_eq!(slice3, [2].as_slice());
    assert_eq!(slice4, [3].as_slice());
}

#[test]
fn f4_smaller_than_4() {
    let vec1 = vec![0, 1];
    let slice = vec1.as_slice();

    let (slice1, slice2, slice3, slice4) = f4(slice);

    assert_eq!(slice1, [0].as_slice());
    assert_eq!(slice2, [].as_slice());
    assert_eq!(slice3, [1].as_slice());
    assert_eq!(slice4, [].as_slice());
}

#[test]
fn f4_smaller_than_6() {
    let vec1: Vec<u32> = (0..6).collect();
    let slice = vec1.as_slice();

    let (slice1, slice2, slice3, slice4) = f4(slice);

    assert_eq!(slice1, [0, 1].as_slice());
    assert_eq!(slice2, [2].as_slice());
    assert_eq!(slice3, [3, 4].as_slice());
    assert_eq!(slice4, [5].as_slice());
}

#[test]
fn f1_writes_through_to_the_chosen_field() {
    let mut pair = (10, 20);
    *f1(&mut pair, false) = 11;
    assert_eq!(pair, (11, 20));
    *f1(&mut pair, true) = 21;
    assert_eq!(pair, (11, 21));
}

#[test]
fn f2_and_f3_write_through_to_the_slice() {
    let mut data = [0, 1, 2, 3, 4];
    *f2(&mut data, 1) = 10;
    assert_eq!(data, [0, 10, 2, 3, 4]);
    *f3(&mut data, 1) = 30;
    assert_eq!(data, [0, 10, 2, 30, 4]);
    *f3(&mut data, 4) = 50;
    assert_eq!(data, [50, 10, 2, 30, 4]);
}

#[test]
fn f4_of_every_remainder() {
    let empty: [u32; 0] = [];
    let (a, b, c, d) = f4(&empty);
    assert!(a.is_empty() && b.is_empty() && c.is_empty() && d.is_empty());

    let one = [9];
    let (a, b, c, d) = f4(&one);
    assert_eq!(a, [9].as_slice());
    assert!(b.is_empty() && c.is_empty() && d.is_empty());

    let three = [1, 2, 3];
    let (a, b, c, d) = f4(&three);
    assert_eq!(a, [1].as_slice());
    assert!(b.is_empty());
    assert_eq!(c, [2].as_slice());
    assert_eq!(d, [3].as_slice());

    let seven: Vec<u32> = (0..7).collect();
    let (a, b, c, d) = f4(&seven);
    assert_eq!(a, [0, 1].as_slice());
    assert_eq!(b, [2].as_slice());
    assert_eq!(c, [3, 4].as_slice());
    assert_eq!(d, [5, 6].as_slice());
}

#[test]
fn f4_parts_put_together_are_the_slice() {
    for len in 0..40u32 {
        let data: Vec<u32> = (0..len).collect();
        let (a, b, c, d) = f4(&data);
        let mut joined = a.to_vec();
        joined.extend_from_slice(b);
        joined.extend_from_slice(c);
        joined.extend_from_slice(d);
        assert_eq!(joined, data);
    }
}
