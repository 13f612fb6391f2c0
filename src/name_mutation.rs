//! Mutations of DNS names, each label as raw bytes, root label left out.

use vstd::prelude::*;

verus! {

/// The longest label this mutator builds by merging or by appending a zero byte.
pub const MAX_LABEL_LEN: usize = 63;

/// One way of changing a name.
#[derive(Clone, Copy, Debug, PartialEq, Eq, Structural)]
pub enum NameMutation {
    /// Put a label in front.
    PushLabel,
    /// Drop the first label.
    PopLabel,
    /// Replace the label at `index`.
    MutateLabel { index: usize },
    /// Join the labels at `index` and `index + 1` with a dot inside one label.
    MergeLabels { index: usize },
    /// Append a zero byte to the last label.
    ZeroByte,
    /// Append a zero byte to the last label, then append the original name.
    ZeroByteDuplicate,
}

/// The zone of the fuzzed names, `test.fuzz.`.
pub open spec fn fuzz_zone() -> Seq<Seq<u8>> {
    seq![seq![116u8, 101u8, 115u8, 116u8], seq![102u8, 117u8, 122u8, 122u8]]
}

pub open spec fn name_view(n: Seq<Vec<u8>>) -> Seq<Seq<u8>> {
    n.map_values(|l: Vec<u8>| l@)
}

/// `name` lies strictly below `test.fuzz.`.
pub open spec fn strictly_in_fuzz_zone(name: Seq<Seq<u8>>) -> bool {
    name.len() > 2 && name.subrange(name.len() - 2, name.len() as int) == fuzz_zone()
}

/// The weighted choices of mutation for a name: pushing a label (weight 20), the two zero-byte
/// mutations (1 each), popping a label below `test.fuzz.` (30), replacing each label in front
/// of the last two (20 each), and merging each pair of neighbouring labels (1 each).
pub open spec fn mutation_menu(name: Seq<Seq<u8>>) -> Seq<(NameMutation, u32)> {
    seq![(NameMutation::PushLabel, 20u32), (NameMutation::ZeroByte, 1u32), (NameMutation::ZeroByteDuplicate, 1u32)]
        + (if strictly_in_fuzz_zone(name) {
        seq![(NameMutation::PopLabel, 30u32)]
    } else {
        Seq::empty()
    }) + Seq::new(
        if name.len() >= 2 {
            (name.len() - 2) as nat
        } else {
            0
        },
        |i: int| (NameMutation::MutateLabel { index: i as usize }, 20u32),
    ) + Seq::new(
        if name.len() >= 1 {
            (name.len() - 1) as nat
        } else {
            0
        },
        |i: int| (NameMutation::MergeLabels { index: i as usize }, 1u32),
    )
}

fn bytes_equal(a: &Vec<u8>, b: &Vec<u8>) -> (r: bool)
    ensures
        r == (a@ == b@),
{
    if a.len() != b.len() {
        return false;
    }
    let mut i: usize = 0;
    while i < a.len()
        invariant
            a@.len() == b@.len(),
            i <= a@.len(),
            forall|j: int| 0 <= j < i ==> a@[j] == b@[j],
        decreases a@.len() - i,
    {
        if a[i] != b[i] {
            return false;
        }
        i = i + 1;
    }
    proof {
        assert(a@ =~= b@);
    }
    true
}

fn in_fuzz_zone(name: &Vec<Vec<u8>>) -> (r: bool)
    ensures
        r == strictly_in_fuzz_zone(name_view(name@)),
{
    let n = name.len();
    if n <= 2 {
        return false;
    }
    let test = vec![116u8, 101u8, 115u8, 116u8];
    let fuzz = vec![102u8, 117u8, 122u8, 122u8];
    let r = bytes_equal(&name[n - 2], &test) && bytes_equal(&name[n - 1], &fuzz);
    proof {
        let tail = name_view(name@).subrange(n - 2, n as int);
        assert(test@ =~= fuzz_zone()[0]);
        assert(fuzz@ =~= fuzz_zone()[1]);
        if r {
            assert(tail =~= fuzz_zone());
        } else {
            if tail == fuzz_zone() {
                assert(tail[0] == fuzz_zone()[0]);
                assert(tail[1] == fuzz_zone()[1]);
            }
        }
    }
    r
}

/// The weighted choices of mutation for `name`, see [`mutation_menu`].
pub fn name_mutation_choices(name: &Vec<Vec<u8>>) -> (r: Vec<(NameMutation, u32)>)
    ensures
        r@ == mutation_menu(name_view(name@)),
{
    let n = name.len();
    let mut out: Vec<(NameMutation, u32)> = Vec::new();
    out.push((NameMutation::PushLabel, 20));
    out.push((NameMutation::ZeroByte, 1));
    out.push((NameMutation::ZeroByteDuplicate, 1));
    if in_fuzz_zone(name) {
        out.push((NameMutation::PopLabel, 30));
    }
    let ghost base = out@;
    let replaceable: usize = if n >= 2 {
        n - 2
    } else {
        0
    };
    let mut i: usize = 0;
    while i < replaceable
        invariant
            i <= replaceable,
            out@ == base + Seq::new(i as nat, |j: int| (NameMutation::MutateLabel { index: j as usize }, 20u32)),
        decreases replaceable - i,
    {
        out.push((NameMutation::MutateLabel { index: i }, 20));
        proof {
            assert(out@ =~= base + Seq::new((i + 1) as nat, |j: int| (NameMutation::MutateLabel { index: j as usize }, 20u32)));
        }
        i = i + 1;
    }
    let ghost base2 = out@;
    let mergeable: usize = if n >= 1 {
        n - 1
    } else {
        0
    };
    let mut k: usize = 0;
    while k < mergeable
        invariant
            k <= mergeable,
            out@ == base2 + Seq::new(k as nat, |j: int| (NameMutation::MergeLabels { index: j as usize }, 1u32)),
        decreases mergeable - k,
    {
        out.push((NameMutation::MergeLabels { index: k }, 1));
        proof {
            assert(out@ =~= base2 + Seq::new((k + 1) as nat, |j: int| (NameMutation::MergeLabels { index: j as usize }, 1u32)));
        }
        k = k + 1;
    }
    proof {
        assert(out@ =~= mutation_menu(name_view(name@)));
    }
    out
}

/// The name after mutation `m`, where `new_label` is the label drawn for a push or a replacement;
/// merges and zero bytes that would make a label of 63 bytes or more leave the name as it is.
pub open spec fn mutated_name(name: Seq<Seq<u8>>, m: NameMutation, new_label: Seq<u8>) -> Seq<Seq<u8>> {
    match m {
        NameMutation::PushLabel => seq![new_label] + name,
        NameMutation::PopLabel => name.skip(1),
        NameMutation::MutateLabel { index } => name.update(index as int, new_label),
        NameMutation::MergeLabels { index } => {
            let i = index as int;
            if name[i].len() + 1 + name[i + 1].len() < 63 {
                name.subrange(0, i).push(name[i] + seq![46u8] + name[i + 1]) + name.subrange(i + 2, name.len() as int)
            } else {
                name
            }
        },
        NameMutation::ZeroByte => if name.last().len() < 63 {
            name.drop_last().push(name.last().push(0u8))
        } else {
            name
        },
        NameMutation::ZeroByteDuplicate => if name.last().len() < 63 {
            name.drop_last().push(name.last().push(0u8)) + name
        } else {
            name
        },
    }
}

/// The label that a mutation adds to the set of labels to draw from, if any.
pub open spec fn learned_label(name: Seq<Seq<u8>>, m: NameMutation) -> Option<Seq<u8>> {
    match m {
        NameMutation::MergeLabels { index } => {
            let i = index as int;
            if name[i].len() + 1 + name[i + 1].len() < 63 {
                Some(name[i] + seq![46u8] + name[i + 1])
            } else {
                None
            }
        },
        NameMutation::ZeroByte | NameMutation::ZeroByteDuplicate => if name.last().len() < 63 {
            Some(name.last().push(0u8))
        } else {
            None
        },
        _ => None,
    }
}

/// Whether mutation `m` applies to a name of `len` labels.
pub open spec fn applicable(len: nat, m: NameMutation) -> bool {
    match m {
        NameMutation::PushLabel => true,
        NameMutation::PopLabel => len >= 1,
        NameMutation::MutateLabel { index } => index < len,
        NameMutation::MergeLabels { index } => index + 1 < len,
        NameMutation::ZeroByte | NameMutation::ZeroByteDuplicate => len >= 1,
    }
}

fn copy_labels(name: &Vec<Vec<u8>>, from: usize, to: usize, out: &mut Vec<Vec<u8>>)
    requires
        from <= to <= name@.len(),
    ensures
        name_view(final(out)@) == name_view(old(out)@) + name_view(name@).subrange(from as int, to as int),
{
    let mut i: usize = from;
    while i < to
        invariant
            from <= i <= to,
            to <= name@.len(),
            name_view(out@) == name_view(old(out)@) + name_view(name@).subrange(from as int, i as int),
        decreases to - i,
    {
        let l = name[i].clone();
        proof {
            assert(l@ =~= name@[i as int]@);
        }
        let ghost prev = out@;
        out.push(l);
        proof {
            assert(name_view(out@) =~= name_view(prev).push(name@[i as int]@));
            assert(name_view(out@) =~= name_view(old(out)@) + name_view(name@).subrange(from as int, i + 1));
        }
        i = i + 1;
    }
}

fn copy_bytes(b: &Vec<u8>) -> (r: Vec<u8>)
    ensures
        r@ == b@,
{
    let r = b.clone();
    proof {
        assert(r@ =~= b@);
    }
    r
}

/// Applies mutation `m` to `name`; `new_label` is the label drawn for a push or a replacement.
/// A label built by merging or by a zero byte is added to `label_set`.
pub fn apply_name_mutation(
    name: &Vec<Vec<u8>>,
    m: NameMutation,
    new_label: &Vec<u8>,
    label_set: &mut Vec<Vec<u8>>,
) -> (r: Vec<Vec<u8>>)
    requires
        applicable(name@.len(), m),
    ensures
        name_view(r@) == mutated_name(name_view(name@), m, new_label@),
        match learned_label(name_view(name@), m) {
            Some(l) => name_view(final(label_set)@) == name_view(old(label_set)@).push(l),
            None => final(label_set)@ == old(label_set)@,
        },
{
    let n = name.len();
    let ghost nv = name_view(name@);
    let mut out: Vec<Vec<u8>> = Vec::new();
    match m {
        NameMutation::PushLabel => {
            out.push(copy_bytes(new_label));
            copy_labels(name, 0, n, &mut out);
            proof {
                assert(nv.subrange(0, n as int) =~= nv);
                assert(name_view(out@) =~= mutated_name(nv, m, new_label@));
            }
        },
        NameMutation::PopLabel => {
            copy_labels(name, 1, n, &mut out);
            proof {
                assert(name_view(out@) =~= mutated_name(nv, m, new_label@));
            }
        },
        NameMutation::MutateLabel { index } => {
            copy_labels(name, 0, index, &mut out);
            let ghost mid = out@;
            out.push(copy_bytes(new_label));
            proof {
                assert(name_view(out@) =~= name_view(mid).push(new_label@));
            }
            copy_labels(name, index + 1, n, &mut out);
            proof {
                assert(name_view(out@) =~= mutated_name(nv, m, new_label@));
            }
        },
        NameMutation::MergeLabels { index } => {
            let a = &name[index];
            let b = &name[index + 1];
            if a.len() < MAX_LABEL_LEN && b.len() < MAX_LABEL_LEN && a.len() + 1 + b.len() < MAX_LABEL_LEN {
                let mut merged = copy_bytes(a);
                merged.push(46u8);
                let mut tail = copy_bytes(b);
                merged.append(&mut tail);
                proof {
                    assert(merged@ =~= nv[index as int] + seq![46u8] + nv[index + 1]);
                }
                copy_labels(name, 0, index, &mut out);
                let ghost mid = out@;
                let learned = copy_bytes(&merged);
                out.push(merged);
                proof {
                    assert(name_view(out@) =~= name_view(mid).push(learned@));
                }
                copy_labels(name, index + 2, n, &mut out);
                let ghost before = label_set@;
                label_set.push(learned);
                proof {
                    assert(name_view(label_set@) =~= name_view(before).push(learned@));
                    assert(name_view(out@) =~= mutated_name(nv, m, new_label@));
                }
            } else {
                copy_labels(name, 0, n, &mut out);
                proof {
                    assert(nv.subrange(0, n as int) =~= nv);
                    assert(name_view(out@) =~= mutated_name(nv, m, new_label@));
                }
            }
        },
        NameMutation::ZeroByte | NameMutation::ZeroByteDuplicate => {
            let last = &name[n - 1];
            if last.len() < MAX_LABEL_LEN {
                let mut extended = copy_bytes(last);
                extended.push(0u8);
                copy_labels(name, 0, n - 1, &mut out);
                let ghost mid = out@;
                let learned = copy_bytes(&extended);
                out.push(extended);
                proof {
                    assert(name_view(out@) =~= name_view(mid).push(learned@));
                    assert(nv.last() == name@[n - 1]@);
                }
                match m {
                    NameMutation::ZeroByteDuplicate => {
                        copy_labels(name, 0, n, &mut out);
                        proof {
                            assert(nv.subrange(0, n as int) =~= nv);
                        }
                    },
                    _ => {},
                }
                let ghost before = label_set@;
                label_set.push(learned);
                proof {
                    assert(name_view(label_set@) =~= name_view(before).push(learned@));
                    assert(nv.subrange(0, n - 1) =~= nv.drop_last());
                    assert(name_view(out@) =~= mutated_name(nv, m, new_label@));
                }
            } else {
                copy_labels(name, 0, n, &mut out);
                proof {
                    assert(nv.subrange(0, n as int) =~= nv);
                    assert(name_view(out@) =~= mutated_name(nv, m, new_label@));
                }
            }
        },
    }
    out
}

} // verus!
