//! The weight report as a mathematical object: which weights it states, in
//! which order, and what holds of every such report.

use crate::tally::{
    object_count, shared_count, shared_size, total_size, unique_count, unique_size, ObjectTable,
};
use vstd::prelude::*;

verus! {

/// The weight of one branch, as the report states it.
pub struct WeightRecord {
    pub branch: Seq<char>,
    pub unique_size: nat,
    pub shared_size: nat,
    pub total_size: nat,
    pub object_count: nat,
    pub unique_count: nat,
    pub shared_count: nat,
}

impl WeightRecord {
    /// The total is the sum of its two parts, in bytes and in objects.
    pub open spec fn is_consistent(self) -> bool {
        &&& self.total_size == self.unique_size + self.shared_size
        &&& self.object_count == self.unique_count + self.shared_count
    }
}

/// The weight of branch `b`, named `names[b]`, over `table`.
pub open spec fn weight_of(names: Seq<Seq<char>>, table: ObjectTable, b: int) -> WeightRecord {
    WeightRecord {
        branch: names[b],
        unique_size: unique_size(table, b as nat),
        shared_size: shared_size(table, b as nat),
        total_size: total_size(table, b as nat),
        object_count: object_count(table, b as nat),
        unique_count: unique_count(table, b as nat),
        shared_count: shared_count(table, b as nat),
    }
}

/// Whether every branch's total byte size can be held in 64 bits.
pub open spec fn weights_fit(table: ObjectTable, branches: nat) -> bool {
    forall|b: nat| b < branches ==> #[trigger] total_size(table, b) <= u64::MAX
}

/// Whether branch `a` stands before branch `b` in the report: it is heavier,
/// or as heavy and listed earlier.
pub open spec fn outranks(table: ObjectTable, a: int, b: int) -> bool {
    total_size(table, a as nat) > total_size(table, b as nat) || (total_size(table, a as nat)
        == total_size(table, b as nat) && a < b)
}

/// `order` is the ranking of `branches` branches over `table`: it holds the
/// branches that contribute at least one object, and only those, each standing
/// before all that follow it.
pub open spec fn is_ranking(table: ObjectTable, branches: nat, order: Seq<int>) -> bool {
    &&& forall|k: int|
        #![trigger order[k]]
        0 <= k < order.len() ==> 0 <= order[k] < branches && object_count(table, order[k] as nat)
            > 0
    &&& forall|b: int|
        0 <= b < branches && #[trigger] object_count(table, b as nat) > 0 ==> order.contains(b)
    &&& forall|j: int, k: int|
        #![trigger order[j], order[k]]
        0 <= j < k < order.len() ==> outranks(table, order[j], order[k])
}

/// `out` states the weights of the branches of `order`, place by place.
pub open spec fn states_weights(
    names: Seq<Seq<char>>,
    table: ObjectTable,
    order: Seq<int>,
    out: Seq<WeightRecord>,
) -> bool {
    &&& out.len() == order.len()
    &&& forall|k: int| 0 <= k < out.len() ==> #[trigger] out[k] == weight_of(names, table, order[k])
}

/// `out` is the weight report of the branches `names` over `table`: the
/// weights of the ranked branches, in ranking order.
pub open spec fn is_weight_report(
    names: Seq<Seq<char>>,
    table: ObjectTable,
    out: Seq<WeightRecord>,
) -> bool {
    exists|order: Seq<int>| #[trigger]
        is_ranking(table, names.len(), order) && states_weights(names, table, order, out)
}

/// Each index of `order` stands before all that follow it.
pub open spec fn is_descending(table: ObjectTable, order: Seq<int>) -> bool {
    forall|j: int, k: int|
        #![trigger order[j], order[k]]
        0 <= j < k < order.len() ==> outranks(table, order[j], order[k])
}

/// Two descending sequences that hold the same indices are the same sequence.
pub proof fn lemma_descending_unique(table: ObjectTable, first: Seq<int>, second: Seq<int>)
    requires
        is_descending(table, first),
        is_descending(table, second),
        forall|b: int| first.contains(b) <==> second.contains(b),
    ensures
        first == second,
    decreases first.len(),
{
    if first.len() == 0 {
        if second.len() > 0 {
            assert(second.contains(second[0]));
        }
        assert(first =~= second);
    } else {
        assert(first.contains(first[0]));
        let m2 = choose|m: int| 0 <= m < second.len() && second[m] == first[0];
        assert(second.contains(second[0]));
        let m1 = choose|m: int| 0 <= m < first.len() && first[m] == second[0];
        if m1 > 0 && m2 > 0 {
            assert(outranks(table, first[0], first[m1]));
            assert(outranks(table, second[0], second[m2]));
        }
        assert(first[0] == second[0]);
        let rest1 = first.skip(1);
        let rest2 = second.skip(1);
        assert forall|b: int| rest1.contains(b) <==> rest2.contains(b) by {
            if rest1.contains(b) {
                let i = choose|i: int| 0 <= i < rest1.len() && rest1[i] == b;
                assert(first[i + 1] == b);
                assert(outranks(table, first[0], first[i + 1]));
                assert(first.contains(b));
                let p = choose|p: int| 0 <= p < second.len() && second[p] == b;
                assert(rest2[p - 1] == b);
            }
            if rest2.contains(b) {
                let i = choose|i: int| 0 <= i < rest2.len() && rest2[i] == b;
                assert(second[i + 1] == b);
                assert(outranks(table, second[0], second[i + 1]));
                assert(second.contains(b));
                let p = choose|p: int| 0 <= p < first.len() && first[p] == b;
                assert(rest1[p - 1] == b);
            }
        }
        assert forall|j: int, k: int|
            #![trigger rest1[j], rest1[k]]
            0 <= j < k < rest1.len() implies outranks(table, rest1[j], rest1[k]) by {
            assert(outranks(table, first[j + 1], first[k + 1]));
        }
        assert forall|j: int, k: int|
            #![trigger rest2[j], rest2[k]]
            0 <= j < k < rest2.len() implies outranks(table, rest2[j], rest2[k]) by {
            assert(outranks(table, second[j + 1], second[k + 1]));
        }
        lemma_descending_unique(table, rest1, rest2);
        assert(first =~= seq![first[0]] + rest1);
        assert(second =~= seq![second[0]] + rest2);
    }
}

/// A table and a number of branches have one ranking and no other.
pub proof fn lemma_ranking_unique(
    table: ObjectTable,
    branches: nat,
    first: Seq<int>,
    second: Seq<int>,
)
    requires
        is_ranking(table, branches, first),
        is_ranking(table, branches, second),
    ensures
        first == second,
{
    assert forall|b: int| first.contains(b) <==> second.contains(b) by {
        if first.contains(b) {
            let i = choose|i: int| 0 <= i < first.len() && first[i] == b;
            assert(object_count(table, first[i] as nat) > 0);
        }
        if second.contains(b) {
            let i = choose|i: int| 0 <= i < second.len() && second[i] == b;
            assert(object_count(table, second[i] as nat) > 0);
        }
    }
    lemma_descending_unique(table, first, second);
}

/// Two analyses of the same branches over the same reports state the same
/// weights in the same order: the weight report is a function of its input.
pub proof fn lemma_weight_report_unique(
    names: Seq<Seq<char>>,
    table: ObjectTable,
    first: Seq<WeightRecord>,
    second: Seq<WeightRecord>,
)
    requires
        is_weight_report(names, table, first),
        is_weight_report(names, table, second),
    ensures
        first == second,
{
    let o1 = choose|order: Seq<int>| #[trigger]
        is_ranking(table, names.len(), order) && states_weights(names, table, order, first);
    let o2 = choose|order: Seq<int>| #[trigger]
        is_ranking(table, names.len(), order) && states_weights(names, table, order, second);
    lemma_ranking_unique(table, names.len(), o1, o2);
    assert(first =~= second);
}

/// In every stated weight the total is the sum of the unique and the shared
/// part, in bytes and in objects.
pub proof fn lemma_weights_consistent(
    names: Seq<Seq<char>>,
    table: ObjectTable,
    out: Seq<WeightRecord>,
)
    requires
        is_weight_report(names, table, out),
    ensures
        forall|k: int| 0 <= k < out.len() ==> (#[trigger] out[k]).is_consistent(),
{
    let order = choose|order: Seq<int>| #[trigger]
        is_ranking(table, names.len(), order) && states_weights(names, table, order, out);
    assert forall|k: int| 0 <= k < out.len() implies (#[trigger] out[k]).is_consistent() by {
        assert(out[k] == weight_of(names, table, order[k]));
    }
}

/// A weight report is sorted by falling total size; where two branches are
/// equally heavy, the one that was listed first is stated first.
pub proof fn lemma_report_sorted(names: Seq<Seq<char>>, table: ObjectTable, out: Seq<WeightRecord>)
    requires
        is_weight_report(names, table, out),
    ensures
        forall|j: int, k: int|
            0 <= j < k < out.len() ==> (#[trigger] out[j]).total_size >= (
            #[trigger] out[k]).total_size,
        exists|order: Seq<int>|
            {
                &&& #[trigger] states_weights(names, table, order, out)
                &&& forall|j: int, k: int|
                    #![trigger order[j], order[k]]
                    0 <= j < k < out.len() && out[j].total_size == out[k].total_size ==> order[j]
                        < order[k]
            },
{
    let order = choose|order: Seq<int>| #[trigger]
        is_ranking(table, names.len(), order) && states_weights(names, table, order, out);
    assert forall|j: int, k: int| 0 <= j < k < out.len() implies (#[trigger] out[j]).total_size
        >= (#[trigger] out[k]).total_size by {
        assert(outranks(table, order[j], order[k]));
    }
    assert forall|j: int, k: int|
        #![trigger order[j], order[k]]
        0 <= j < k < out.len() && out[j].total_size == out[k].total_size implies order[j]
        < order[k] by {
        assert(outranks(table, order[j], order[k]));
    }
    assert(states_weights(names, table, order, out));
}

/// A branch appears in the weight report exactly when it contributes an
/// object: every stated weight counts at least one object, and a branch that
/// contributes none is the subject of no stated weight.
pub proof fn lemma_report_members(
    names: Seq<Seq<char>>,
    table: ObjectTable,
    out: Seq<WeightRecord>,
    order: Seq<int>,
)
    requires
        is_ranking(table, names.len(), order),
        states_weights(names, table, order, out),
    ensures
        forall|k: int| 0 <= k < out.len() ==> (#[trigger] out[k]).object_count > 0,
        forall|b: int|
            0 <= b < names.len() ==> (order.contains(b) <==> #[trigger] object_count(
                table,
                b as nat,
            ) > 0),
{
    assert forall|k: int| 0 <= k < out.len() implies (#[trigger] out[k]).object_count > 0 by {
        assert(out[k] == weight_of(names, table, order[k]));
    }
    assert forall|b: int| 0 <= b < names.len() implies (order.contains(b)
        <==> #[trigger] object_count(table, b as nat) > 0) by {
        if order.contains(b) {
            let k = choose|k: int| 0 <= k < order.len() && order[k] == b;
            assert(object_count(table, order[k] as nat) > 0);
        }
    }
}

/// With no branches the weight report is empty.
pub proof fn lemma_no_branches_no_weights(
    names: Seq<Seq<char>>,
    table: ObjectTable,
    out: Seq<WeightRecord>,
)
    requires
        names.len() == 0,
        is_weight_report(names, table, out),
    ensures
        out.len() == 0,
{
    let order = choose|order: Seq<int>| #[trigger]
        is_ranking(table, names.len(), order) && states_weights(names, table, order, out);
    assert(is_ranking(table, names.len(), order));
    if order.len() > 0 {
        assert(0 <= order[0]);
        assert(order[0] < names.len());
    }
}

/// What holds of every weight report, whatever the branches reported: each
/// weight is consistent and counts at least one object, and the weights stand
/// in the order of falling total size.
pub open spec fn is_sound_report(out: Seq<WeightRecord>) -> bool {
    &&& forall|k: int|
        0 <= k < out.len() ==> (#[trigger] out[k]).is_consistent() && out[k].object_count > 0
    &&& forall|j: int, k: int|
        0 <= j < k < out.len() ==> (#[trigger] out[j]).total_size >= (#[trigger] out[k]).total_size
}

/// Every weight report is sound.
pub proof fn lemma_report_sound(names: Seq<Seq<char>>, table: ObjectTable, out: Seq<WeightRecord>)
    requires
        is_weight_report(names, table, out),
    ensures
        is_sound_report(out),
{
    let order = choose|order: Seq<int>| #[trigger]
        is_ranking(table, names.len(), order) && states_weights(names, table, order, out);
    lemma_weights_consistent(names, table, out);
    lemma_report_sorted(names, table, out);
    lemma_report_members(names, table, out, order);
}

} // verus!
