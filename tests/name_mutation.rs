use dnsfuzz::name_mutation::{apply_name_mutation, name_mutation_choices, NameMutation};

fn name(s: &str) -> Vec<Vec<u8>> {
    s.split('.').filter(|l| !l.is_empty()).map(|l| l.as_bytes().to_vec()).collect()
}

#[test]
fn choices_depend_on_the_zone() {
    let inside = name("a.b.test.fuzz.");
    let c = name_mutation_choices(&inside);
    assert_eq!(
        c,
        vec![
            (NameMutation::PushLabel, 20),
            (NameMutation::ZeroByte, 1),
            (NameMutation::ZeroByteDuplicate, 1),
            (NameMutation::PopLabel, 30),
            (NameMutation::MutateLabel { index: 0 }, 20),
            (NameMutation::MutateLabel { index: 1 }, 20),
            (NameMutation::MergeLabels { index: 0 }, 1),
            (NameMutation::MergeLabels { index: 1 }, 1),
            (NameMutation::MergeLabels { index: 2 }, 1),
        ]
    );
    let zone = name_mutation_choices(&name("test.fuzz."));
    assert!(!zone.contains(&(NameMutation::PopLabel, 30)));
    assert_eq!(zone.len(), 4);
}

#[test]
fn mutations_change_the_labels() {
    let n = name("a.test.fuzz.");
    let mut set: Vec<Vec<u8>> = vec![];
    let l = b"xyz".to_vec();
    assert_eq!(apply_name_mutation(&n, NameMutation::PushLabel, &l, &mut set), name("xyz.a.test.fuzz."));
    assert_eq!(apply_name_mutation(&n, NameMutation::PopLabel, &l, &mut set), name("test.fuzz."));
    assert_eq!(
        apply_name_mutation(&n, NameMutation::MutateLabel { index: 0 }, &l, &mut set),
        name("xyz.test.fuzz.")
    );
    assert!(set.is_empty());
    let merged = apply_name_mutation(&n, NameMutation::MergeLabels { index: 0 }, &l, &mut set);
    assert_eq!(merged, vec![b"a.test".to_vec(), b"fuzz".to_vec()]);
    assert_eq!(set, vec![b"a.test".to_vec()]);
    let zero = apply_name_mutation(&n, NameMutation::ZeroByte, &l, &mut set);
    assert_eq!(zero, vec![b"a".to_vec(), b"test".to_vec(), b"fuzz\0".to_vec()]);
    let dup = apply_name_mutation(&n, NameMutation::ZeroByteDuplicate, &l, &mut set);
    assert_eq!(dup.len(), 6);
    assert_eq!(dup[2], b"fuzz\0".to_vec());
    assert_eq!(dup[3..].to_vec(), n);
    assert_eq!(set.len(), 3);
}

#[test]
fn long_labels_are_not_merged() {
    let long = vec![vec![b'a'; 40], vec![b'b'; 30]];
    let mut set: Vec<Vec<u8>> = vec![];
    assert_eq!(apply_name_mutation(&long, NameMutation::MergeLabels { index: 0 }, &vec![], &mut set), long);
    assert!(set.is_empty());
}
