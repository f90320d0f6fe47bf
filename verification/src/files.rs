//! Selection and ordering of the rule files found in a directory.

use vstd::prelude::*;
use crate::text::chars_of;
use crate::types::{has_md_suffix, ends_with_md};

verus! {

/// Strict lexicographic order of character sequences, comparing characters
/// by code point. This is the order of `String`'s `Ord`: UTF-8 byte order
/// and code-point order agree.
pub open spec fn seq_lt(a: Seq<char>, b: Seq<char>) -> bool
    decreases a.len(),
{
    if a.len() == 0 {
        b.len() > 0
    } else if b.len() == 0 {
        false
    } else if a[0] != b[0] {
        (a[0] as int) < (b[0] as int)
    } else {
        seq_lt(a.drop_first(), b.drop_first())
    }
}

pub proof fn lemma_seq_lt_irreflexive(a: Seq<char>)
    ensures
        !seq_lt(a, a),
    decreases a.len(),
{
    if a.len() > 0 {
        lemma_seq_lt_irreflexive(a.drop_first());
    }
}

pub proof fn lemma_seq_lt_transitive(a: Seq<char>, b: Seq<char>, c: Seq<char>)
    requires
        seq_lt(a, b),
        seq_lt(b, c),
    ensures
        seq_lt(a, c),
    decreases a.len(),
{
    if a.len() > 0 && b.len() > 0 && c.len() > 0 {
        if a[0] == b[0] && b[0] == c[0] {
            lemma_seq_lt_transitive(a.drop_first(), b.drop_first(), c.drop_first());
        }
    }
}

pub proof fn lemma_seq_lt_total(a: Seq<char>, b: Seq<char>)
    requires
        a != b,
    ensures
        seq_lt(a, b) || seq_lt(b, a),
    decreases a.len(),
{
    if a.len() > 0 && b.len() > 0 && a[0] == b[0] {
        if a.drop_first() == b.drop_first() {
            assert(a =~= seq![a[0]] + a.drop_first());
            assert(b =~= seq![b[0]] + b.drop_first());
        }
        lemma_seq_lt_total(a.drop_first(), b.drop_first());
    } else if a.len() == 0 && b.len() == 0 {
        assert(a =~= b);
    } else if a.len() > 0 && b.len() > 0 {
        assert((a[0] as int) != (b[0] as int));
    }
}

pub proof fn lemma_seq_lt_asymmetric(a: Seq<char>, b: Seq<char>)
    requires
        seq_lt(a, b),
    ensures
        !seq_lt(b, a),
{
    if seq_lt(b, a) {
        lemma_seq_lt_transitive(a, b, a);
        lemma_seq_lt_irreflexive(a);
    }
}

proof fn lemma_seq_lt_skip(a: Seq<char>, b: Seq<char>, i: int)
    requires
        0 <= i < a.len(),
        i < b.len(),
        a[i] == b[i],
    ensures
        seq_lt(a.skip(i), b.skip(i)) == seq_lt(a.skip(i + 1), b.skip(i + 1)),
{
    assert(a.skip(i).drop_first() =~= a.skip(i + 1));
    assert(b.skip(i).drop_first() =~= b.skip(i + 1));
}

/// Whether `a` comes strictly before `b` in [`seq_lt`] order.
pub fn chars_lt(a: &Vec<char>, b: &Vec<char>) -> (r: bool)
    ensures
        r == seq_lt(a@, b@),
{
    let mut i: usize = 0;
    assert(a@.skip(0) =~= a@);
    assert(b@.skip(0) =~= b@);
    while i < a.len() && i < b.len() && a[i] == b[i]
        invariant
            i <= a.len(),
            i <= b.len(),
            seq_lt(a@, b@) == seq_lt(a@.skip(i as int), b@.skip(i as int)),
        decreases a.len() - i,
    {
        proof {
            lemma_seq_lt_skip(a@, b@, i as int);
        }
        i = i + 1;
    }
    assert(a@.skip(i as int).len() == a.len() - i);
    assert(b@.skip(i as int).len() == b.len() - i);
    if i == a.len() {
        i < b.len()
    } else if i == b.len() {
        false
    } else {
        assert(a@.skip(i as int)[0] == a@[i as int]);
        assert(b@.skip(i as int)[0] == b@[i as int]);
        a[i] < b[i]
    }
}

/// Entry `i` of `names` is listed before entry `j`: its name is smaller, or
/// the names are equal and it came first.
pub open spec fn listed_before(names: Seq<Seq<char>>, i: int, j: int) -> bool {
    seq_lt(names[i], names[j]) || (names[i] == names[j] && i < j)
}

/// The characters of each name.
pub open spec fn name_chars(names: Seq<String>) -> Seq<Seq<char>> {
    names.map_values(|s: String| s@)
}

/// The rule files among the directory entries `names`, in listing order:
/// the indices of the names that end with `.md`, sorted by name (a stable
/// sort, so equal names keep their order).
pub fn md_file_order(names: &Vec<String>) -> (order: Vec<usize>)
    ensures
        forall|a: int, b: int|
            0 <= a < b < order.len() ==> listed_before(name_chars(names@), order[a] as int, order[b] as int),
        forall|a: int|
            0 <= a < order.len() ==> order[a] < names.len() && has_md_suffix(#[trigger] names@[order[a] as int]@),
        forall|i: int|
            0 <= i < names.len() && has_md_suffix(#[trigger] names@[i]@) ==> order@.contains(i as usize),
{
    let n = names.len();
    let ghost nm = name_chars(names@);
    let mut keys: Vec<Vec<char>> = Vec::new();
    for k in 0..n
        invariant
            n == names.len(),
            nm == name_chars(names@),
            keys.len() == k,
            forall|j: int| 0 <= j < k ==> (#[trigger] keys@[j])@ == nm[j],
    {
        keys.push(chars_of(names[k].as_str()));
    }
    let mut order: Vec<usize> = Vec::new();
    for i in 0..n
        invariant
            n == names.len() == keys.len(),
            nm == name_chars(names@),
            forall|j: int| 0 <= j < n ==> (#[trigger] keys@[j])@ == nm[j],
            forall|a: int, b: int|
                0 <= a < b < order.len() ==> listed_before(nm, order[a] as int, order[b] as int),
            forall|a: int| 0 <= a < order.len() ==> #[trigger] order[a] < i,
            forall|a: int| 0 <= a < order.len() ==> has_md_suffix(#[trigger] nm[order[a] as int]),
            forall|j: int| 0 <= j < i && has_md_suffix(#[trigger] nm[j]) ==> order@.contains(j as usize),
    {
        if ends_with_md(&keys[i]) {
            let mut p = order.len();
            while p > 0 && chars_lt(&keys[i], &keys[order[p - 1]])
                invariant
                    p <= order.len(),
                    n == keys.len(),
                    i < n,
                    forall|j: int| 0 <= j < n ==> (#[trigger] keys@[j])@ == nm[j],
                    forall|a: int| 0 <= a < order.len() ==> order[a] < i,
                    forall|a: int| p <= a < order.len() ==> seq_lt(nm[i as int], #[trigger] nm[order[a] as int]),
                decreases p,
            {
                p = p - 1;
            }
            let ghost prev = order@;
            proof {
                assert forall|a: int| 0 <= a < p implies listed_before(nm, #[trigger] prev[a] as int, i as int) by {
                    let last = prev[p - 1] as int;
                    assert(!seq_lt(nm[i as int], nm[last]));
                    if a < p - 1 {
                        assert(listed_before(nm, prev[a] as int, last));
                    }
                    if seq_lt(nm[i as int], nm[prev[a] as int]) {
                        if a < p - 1 {
                            if seq_lt(nm[prev[a] as int], nm[last]) {
                                lemma_seq_lt_transitive(nm[i as int], nm[prev[a] as int], nm[last]);
                            }
                        }
                    } else if nm[i as int] != nm[prev[a] as int] {
                        lemma_seq_lt_total(nm[i as int], nm[prev[a] as int]);
                    }
                }
            }
            order.insert(p, i);
            proof {
                assert forall|a: int, b: int|
                    0 <= a < b < order.len() implies listed_before(nm, order[a] as int, order[b] as int) by {
                    if b < p {
                        assert(order[a] == prev[a] && order[b] == prev[b]);
                    } else if b == p {
                        assert(order[a] == prev[a]);
                    } else if a == p {
                        assert(order[b] == prev[b - 1]);
                    } else if a < p {
                        assert(order[a] == prev[a] && order[b] == prev[b - 1]);
                    } else {
                        assert(order[a] == prev[a - 1] && order[b] == prev[b - 1]);
                    }
                }
                assert(order@[p as int] == i);
                assert forall|j: int| 0 <= j < i + 1 && has_md_suffix(#[trigger] nm[j]) implies order@.contains(j as usize) by {
                    if j < i {
                        assert(prev.contains(j as usize));
                        let k = choose|k: int| 0 <= k < prev.len() && prev[k] == j as usize;
                        if k < p {
                            assert(order@[k] == j as usize);
                        } else {
                            assert(order@[k + 1] == j as usize);
                        }
                    }
                }
            }
        }
    }
    assert forall|a: int| 0 <= a < order.len() implies order[a] < names.len() && has_md_suffix(
        #[trigger] names@[order[a] as int]@,
    ) by {
        assert(nm[order[a] as int] == names@[order[a] as int]@);
    }
    assert forall|i: int| 0 <= i < names.len() && has_md_suffix(#[trigger] names@[i]@) implies order@.contains(
        i as usize,
    ) by {
        assert(nm[i] == names@[i]@);
    }
    order
}

/// Whether `name` names a rule file, that is, ends with `.md`.
pub fn is_rule_file_name(name: &str) -> (r: bool)
    ensures
        r == has_md_suffix(name@),
{
    let chars = chars_of(name);
    ends_with_md(&chars)
}

} // verus!
