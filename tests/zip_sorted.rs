use dnsfuzz::zip_sorted::zip_sorted;
use std::collections::BTreeMap;

type Joined = (i32, Option<i32>, Option<i32>);

fn pairs(m: &BTreeMap<i32, i32>) -> Vec<(i32, i32)> {
    m.iter().map(|(k, v)| (*k, *v)).collect()
}

#[test]
fn empty_iters() {
    let left: BTreeMap<i32, i32> = BTreeMap::new();
    let right: BTreeMap<i32, i32> = BTreeMap::new();
    let merged: Vec<Joined> = zip_sorted(&pairs(&left), &pairs(&right));
    let expected: Vec<Joined> = [].to_vec();
    assert_eq!(expected, merged);
}

#[test]
fn only_left() {
    let left: BTreeMap<i32, i32> = BTreeMap::from([(0, 0), (1, 11), (2, 22), (5, 55), (9, 99)]);
    let right: BTreeMap<i32, i32> = BTreeMap::new();
    let merged: Vec<Joined> = zip_sorted(&pairs(&left), &pairs(&right));
    let expected: Vec<Joined> = [
        (0, Some(0), None),
        (1, Some(11), None),
        (2, Some(22), None),
        (5, Some(55), None),
        (9, Some(99), None),
    ]
    .to_vec();
    assert_eq!(expected, merged);
}

#[test]
fn only_right() {
    let left: BTreeMap<i32, i32> = BTreeMap::new();
    let right: BTreeMap<i32, i32> = BTreeMap::from([
        (0, 0),
        (2, 222),
        (3, 333),
        (5, 555),
        (7, 777),
        (9, 999),
        (10, 0),
    ]);
    let merged: Vec<Joined> = zip_sorted(&pairs(&left), &pairs(&right));
    let expected: Vec<Joined> = [
        (0, None, Some(0)),
        (2, None, Some(222)),
        (3, None, Some(333)),
        (5, None, Some(555)),
        (7, None, Some(777)),
        (9, None, Some(999)),
        (10, None, Some(0)),
    ]
    .to_vec();
    assert_eq!(expected, merged);
}

#[test]
fn merge_simple_right_longer() {
    let left: BTreeMap<i32, i32> = BTreeMap::from([(0, 0), (1, 11), (2, 22), (5, 55), (9, 99)]);
    let right: BTreeMap<i32, i32> = BTreeMap::from([
        (0, 0),
        (2, 222),
        (3, 333),
        (5, 555),
        (7, 777),
        (9, 999),
        (10, 0),
    ]);
    let merged: Vec<Joined> = zip_sorted(&pairs(&left), &pairs(&right));
    let expected: Vec<Joined> = [
        (0, Some(0), Some(0)),
        (1, Some(11), None),
        (2, Some(22), Some(222)),
        (3, None, Some(333)),
        (5, Some(55), Some(555)),
        (7, None, Some(777)),
        (9, Some(99), Some(999)),
        (10, None, Some(0)),
    ]
    .to_vec();
    assert_eq!(expected, merged);
}

#[test]
fn merge_simple_left_longer() {
    let left: BTreeMap<i32, i32> = BTreeMap::from([(0, 0), (1, 11), (2, 22), (5, 55), (9, 99)]);
    let right: BTreeMap<i32, i32> = BTreeMap::from([(0, 0), (2, 222), (3, 333)]);
    let merged: Vec<Joined> = zip_sorted(&pairs(&left), &pairs(&right));
    let expected: Vec<Joined> = [
        (0, Some(0), Some(0)),
        (1, Some(11), None),
        (2, Some(22), Some(222)),
        (3, None, Some(333)),
        (5, Some(55), None),
        (9, Some(99), None),
    ]
    .to_vec();
    assert_eq!(expected, merged);
}

#[test]
fn merge_keys_strictly_increase_and_keep_every_item() {
    let left = vec![(-3, 1), (4, 2), (8, 3)];
    let right = vec![(-5, 10), (4, 20), (6, 30)];
    let merged = zip_sorted(&left, &right);
    let keys: Vec<i32> = merged.iter().map(|t| t.0).collect();
    assert_eq!(keys, vec![-5, -3, 4, 6, 8]);
    assert_eq!(merged.iter().filter(|t| t.1.is_some()).count(), left.len());
    assert_eq!(merged.iter().filter(|t| t.2.is_some()).count(), right.len());
}
