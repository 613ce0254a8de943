//! Prefixing the column names of a dataframe before it is joined to
//! another one.
//!
//! The columns are renamed one at a time, longest name first, so that no
//! column is ever renamed to the name of a column that is still to be
//! renamed.
use vstd::prelude::*;
use vstd::relations::{sorted_by, total_ordering};
use vstd::set_lib::set_int_range;
use vstd::string::StringExecFns;

verus! {

/// Column `i` is renamed before column `j`: its name is longer, or as long
/// and it comes later.
pub open spec fn renamed_before(names: Seq<Seq<char>>, i: int, j: int) -> bool {
    names[i].len() > names[j].len() || (names[i].len() == names[j].len() && i > j)
}

/// `order` is the order in which the columns are renamed: it has one entry
/// per column, each a column index, and every column comes before those it
/// is renamed before.
pub open spec fn is_rename_order(names: Seq<Seq<char>>, order: Seq<int>) -> bool {
    &&& order.len() == names.len()
    &&& forall|k: int| 0 <= k < order.len() ==> 0 <= #[trigger] order[k] < names.len()
    &&& forall|a: int, b: int| 0 <= a < b < order.len() ==> renamed_before(names, #[trigger] order[a], #[trigger] order[b])
}

/// The order in which the columns are renamed (see [`is_rename_order`]).
pub open spec fn rename_order(names: Seq<Seq<char>>) -> Seq<int> {
    choose|order: Seq<int>| is_rename_order(names, order)
}

/// The names of a list of columns.
pub open spec fn names_view(names: Seq<String>) -> Seq<Seq<char>> {
    names.map_values(|s: String| s@)
}

/// Renaming before, or being the same column: a total order on column indexes.
spec fn renamed_no_later(names: Seq<Seq<char>>) -> spec_fn(int, int) -> bool {
    |i: int, j: int| i == j || renamed_before(names, i, j)
}

/// A rename order lists every column exactly once.
proof fn lemma_rename_order_permutes(names: Seq<Seq<char>>, order: Seq<int>)
    requires
        is_rename_order(names, order),
    ensures
        order.no_duplicates(),
        order.to_set() == set_int_range(0, names.len() as int),
{
    assert forall|a: int, b: int| 0 <= a < order.len() && 0 <= b < order.len() && a != b implies order[a]
        != order[b] by {
        if a < b {
            assert(renamed_before(names, order[a], order[b]));
        } else {
            assert(renamed_before(names, order[b], order[a]));
        }
    }
    order.unique_seq_to_set();
    vstd::set_lib::lemma_int_range(0, names.len() as int);
    assert forall|x: int| #[trigger] order.to_set().contains(x) implies set_int_range(0, names.len() as int).contains(x) by {
        let k = choose|k: int| 0 <= k < order.len() && order[k] == x;
        assert(0 <= order[k] < names.len());
    }
    vstd::set_lib::lemma_subset_equality(order.to_set(), set_int_range(0, names.len() as int));
}

/// The rename order of the columns is unique: two orders satisfying
/// [`is_rename_order`] are the same.
pub proof fn lemma_rename_order_unique(names: Seq<Seq<char>>, o1: Seq<int>, o2: Seq<int>)
    requires
        is_rename_order(names, o1),
        is_rename_order(names, o2),
    ensures
        o1 == o2,
{
    let leq = renamed_no_later(names);
    lemma_rename_order_permutes(names, o1);
    lemma_rename_order_permutes(names, o2);
    assert(total_ordering(leq));
    assert(sorted_by(o1, leq)) by {
        assert forall|i: int, j: int| 0 <= i < j < o1.len() implies #[trigger] leq(o1[i], o1[j]) by {
            assert(renamed_before(names, o1[i], o1[j]));
        }
    }
    assert(sorted_by(o2, leq)) by {
        assert forall|i: int, j: int| 0 <= i < j < o2.len() implies #[trigger] leq(o2[i], o2[j]) by {
            assert(renamed_before(names, o2[i], o2[j]));
        }
    }
    o1.lemma_multiset_has_no_duplicates();
    o2.lemma_multiset_has_no_duplicates();
    assert forall|x: int| o1.to_multiset().count(x) == o2.to_multiset().count(x) by {
        broadcast use vstd::seq_lib::group_to_multiset_ensures;
        assert(o1.to_set().contains(x) == o2.to_set().contains(x));
        assert(o1.contains(x) == o1.to_set().contains(x));
        assert(o2.contains(x) == o2.to_set().contains(x));
    }
    assert(o1.to_multiset() =~= o2.to_multiset());
    vstd::seq_lib::lemma_sorted_unique(o1, o2, leq);
}

/// Renaming the columns longest name first never gives a column the name of
/// another one: for distinct column names and a nonempty prefix, no column
/// is renamed to the name of a column still to be renamed, and no two
/// columns get the same new name.
pub proof fn lemma_prefix_renames_never_collide(names: Seq<Seq<char>>, order: Seq<int>, prefix: Seq<char>)
    requires
        is_rename_order(names, order),
        names.no_duplicates(),
        prefix.len() > 0,
    ensures
        forall|a: int, b: int| 0 <= a < b < order.len() ==> prefix + names[#[trigger] order[a]] != names[#[trigger] order[b]],
        forall|a: int, b: int| 0 <= a < order.len() && 0 <= b < order.len() && a != b ==> prefix + names[#[trigger] order[a]]
            != prefix + names[#[trigger] order[b]],
{
    lemma_rename_order_permutes(names, order);
    assert forall|a: int, b: int| 0 <= a < b < order.len() implies prefix + names[#[trigger] order[a]]
        != names[#[trigger] order[b]] by {
        assert(renamed_before(names, order[a], order[b]));
        assert((prefix + names[order[a]]).len() > names[order[b]].len());
    }
    assert forall|a: int, b: int| 0 <= a < order.len() && 0 <= b < order.len() && a != b implies prefix
        + names[#[trigger] order[a]] != prefix + names[#[trigger] order[b]] by {
        assert(order[a] != order[b]);
        if prefix + names[order[a]] == prefix + names[order[b]] {
            assert(names[order[a]] =~= (prefix + names[order[a]]).skip(prefix.len() as int));
            assert(names[order[b]] =~= (prefix + names[order[b]]).skip(prefix.len() as int));
        }
    }
}

/// The order in which the columns are renamed (see [`is_rename_order`]).
fn column_rename_order(names: &Vec<String>) -> (r: Vec<usize>)
    ensures
        is_rename_order(names_view(names@), r@.map_values(|k: usize| k as int)),
{
    let ghost nv = names_view(names@);
    let n = names.len();
    let mut lens: Vec<usize> = Vec::new();
    for i in 0..n
        invariant
            n == names@.len(),
            nv == names_view(names@),
            lens@.len() == i,
            forall|k: int| 0 <= k < i ==> #[trigger] lens@[k] == nv[k].len(),
    {
        lens.push(names[i].as_str().unicode_len());
    }
    let mut order: Vec<usize> = Vec::new();
    for i in 0..n
        invariant
            n == names@.len(),
            nv == names_view(names@),
            lens@.len() == n,
            forall|k: int| 0 <= k < n ==> #[trigger] lens@[k] == nv[k].len(),
            order@.len() == i,
            forall|k: int| 0 <= k < order@.len() ==> #[trigger] order@[k] < i,
            forall|a: int, b: int| 0 <= a < b < order@.len() ==> renamed_before(nv, #[trigger] order@[a] as int, #[trigger] order@[b] as int),
    {
        let li = lens[i];
        let mut p: usize = 0;
        while p < order.len() && lens[order[p]] > li
            invariant
                p <= order@.len(),
                lens@.len() == n,
                order@.len() == i,
                i < n,
                li == lens@[i as int],
                forall|k: int| 0 <= k < order@.len() ==> #[trigger] order@[k] < i,
                forall|k: int| 0 <= k < p ==> lens@[#[trigger] order@[k] as int] > li,
            decreases order@.len() - p,
        {
            p = p + 1;
        }
        let ghost before = order@;
        order.insert(p, i);
        assert forall|a: int, b: int| 0 <= a < b < order@.len() implies renamed_before(nv, #[trigger] order@[a] as int, #[trigger] order@[b] as int) by {
            if b < p {
                assert(order@[a] == before[a] && order@[b] == before[b]);
            } else if b == p {
                assert(order@[a] == before[a]);
                assert(lens@[before[a] as int] > li);
            } else if a == p {
                assert(order@[b] == before[b - 1]);
                assert(before[b - 1] < i);
                if p < before.len() {
                    assert(!(lens@[before[p as int] as int] > li));
                    if b - 1 > p {
                        assert(renamed_before(nv, before[p as int] as int, before[b - 1] as int));
                    }
                }
            } else if a < p {
                assert(order@[a] == before[a] && order@[b] == before[b - 1]);
            } else {
                assert(order@[a] == before[a - 1] && order@[b] == before[b - 1]);
            }
        }
    }
    proof {
        let ov = order@.map_values(|k: usize| k as int);
        assert forall|a: int, b: int| 0 <= a < b < ov.len() implies renamed_before(nv, #[trigger] ov[a], #[trigger] ov[b]) by {
            assert(renamed_before(nv, order@[a] as int, order@[b] as int));
        }
    }
    order
}

/// The renamings that prefix every column name with `prefix`, in the order
/// they are applied: each column's name and new name, longest name first and,
/// among names of one length, the later column first.
pub fn prefix_column_names(names: &Vec<String>, prefix: &str) -> (r: Vec<(String, String)>)
    ensures
        is_rename_order(names_view(names@), rename_order(names_view(names@))),
        r@.len() == names@.len(),
        forall|k: int| 0 <= k < r@.len() ==> {
            let c = #[trigger] rename_order(names_view(names@))[k];
            &&& r@[k].0@ == names@[c]@
            &&& r@[k].1@ == prefix@ + names@[c]@
        },
{
    let ghost nv = names_view(names@);
    let order = column_rename_order(names);
    let ghost ov = order@.map_values(|k: usize| k as int);
    proof {
        lemma_rename_order_unique(nv, ov, rename_order(nv));
    }
    let mut out: Vec<(String, String)> = Vec::new();
    let n = order.len();
    for k in 0..n
        invariant
            n == order@.len(),
            n == names@.len(),
            nv == names_view(names@),
            ov == order@.map_values(|k: usize| k as int),
            ov == rename_order(nv),
            is_rename_order(nv, ov),
            out@.len() == k,
            forall|j: int| 0 <= j < k ==> {
                let c = #[trigger] ov[j];
                &&& out@[j].0@ == names@[c]@
                &&& out@[j].1@ == prefix@ + names@[c]@
            },
    {
        let c = order[k];
        assert(ov[k as int] == c as int);
        assert(0 <= ov[k as int] < nv.len());
        let name = names[c].clone();
        let mut renamed = String::from_str(prefix);
        renamed.append(name.as_str());
        out.push((name, renamed));
    }
    out
}

} // verus!
