use vstd::prelude::*;
use vstd::multiset::Multiset;
use vstd::seq_lib::{to_multiset_build, to_multiset_insert};
use crate::amount::{amount_value, parse_amount, AmountError};

verus! {

/// What one service cost in the reported month, in units.
#[derive(Clone, Debug)]
pub struct ServiceCost {
    pub service_name: String,
    pub cost: u64,
}

impl View for ServiceCost {
    type V = (Seq<char>, u64);

    open spec fn view(&self) -> (Seq<char>, u64) {
        (self.service_name@, self.cost)
    }
}

/// One group of a cost query's answer: a service name and its amount as
/// decimal text, either of which the answer may lack.
#[derive(Clone, Debug)]
pub struct CostGroup {
    pub service: Option<String>,
    pub amount: Option<String>,
}

/// Why an account's costs could not be read from a query's answer.
#[derive(Clone, Copy, Debug, PartialEq, Eq, Structural)]
pub enum CostError {
    MissingService,
    MissingAmount,
    BadAmount(AmountError),
}

/// The (name, cost) that a group stands for, or why it cannot be read.
pub open spec fn group_cost(g: CostGroup) -> Result<(Seq<char>, u64), CostError> {
    match g.service {
        None => Err(CostError::MissingService),
        Some(name) => match g.amount {
            None => Err(CostError::MissingAmount),
            Some(a) => match amount_value(a@) {
                None => Err(CostError::BadAmount(AmountError::Malformed)),
                Some(v) => if v > u64::MAX {
                    Err(CostError::BadAmount(AmountError::OutOfRange))
                } else {
                    Ok((name@, v as u64))
                },
            },
        },
    }
}

/// All groups of all time buckets, bucket after bucket.
pub open spec fn flatten_buckets(b: Seq<Vec<CostGroup>>) -> Seq<CostGroup>
    decreases b.len(),
{
    if b.len() == 0 {
        Seq::empty()
    } else {
        flatten_buckets(b.drop_last()) + b.last()@
    }
}

pub open spec fn all_groups_readable(groups: Seq<CostGroup>) -> bool {
    forall|k: int| 0 <= k < groups.len() ==> (#[trigger] group_cost(groups[k])) is Ok
}

/// `e` is what the first unreadable group of `groups` gives.
pub open spec fn first_group_error(groups: Seq<CostGroup>, e: CostError) -> bool {
    exists|k: int|
        0 <= k < groups.len() && group_cost(groups[k]) == Err::<(Seq<char>, u64), CostError>(e)
            && forall|j: int| 0 <= j < k ==> (#[trigger] group_cost(groups[j])) is Ok
}

/// The (name, cost) pairs of readable groups, in order.
pub open spec fn group_costs(groups: Seq<CostGroup>) -> Seq<(Seq<char>, u64)> {
    groups.map_values(|g: CostGroup| group_cost(g)->Ok_0)
}

pub open spec fn cost_views(s: Seq<ServiceCost>) -> Seq<(Seq<char>, u64)> {
    s.map_values(|c: ServiceCost| c@)
}

/// Costs never increase along `s`.
pub open spec fn is_ranked(s: Seq<(Seq<char>, u64)>) -> bool {
    forall|i: int, j: int| 0 <= i < j < s.len() ==> s[i].1 >= s[j].1
}

proof fn lemma_flatten_prefix(b: Seq<Vec<CostGroup>>, i: int)
    requires
        0 <= i <= b.len(),
    ensures
        flatten_buckets(b.take(i)).len() <= flatten_buckets(b).len(),
        forall|k: int|
            0 <= k < flatten_buckets(b.take(i)).len() ==> flatten_buckets(b.take(i))[k]
                == flatten_buckets(b)[k],
    decreases b.len() - i,
{
    if i == b.len() {
        assert(b.take(i) =~= b);
    } else {
        lemma_flatten_prefix(b, i + 1);
        assert(b.take(i + 1).drop_last() =~= b.take(i));
    }
}

/// Reads every group of every bucket, in order, into (name, cost) entries.
pub fn collect_costs(buckets: &Vec<Vec<CostGroup>>) -> (r: Result<Vec<ServiceCost>, CostError>)
    ensures
        r is Ok <==> all_groups_readable(flatten_buckets(buckets@)),
        r matches Ok(v) ==> cost_views(v@) == group_costs(flatten_buckets(buckets@)),
        r matches Err(e) ==> first_group_error(flatten_buckets(buckets@), e),
{
    let ghost flat = flatten_buckets(buckets@);
    let mut out: Vec<ServiceCost> = Vec::new();
    let mut i: usize = 0;
    while i < buckets.len()
        invariant
            i <= buckets@.len(),
            flat == flatten_buckets(buckets@),
            cost_views(out@) == group_costs(flatten_buckets(buckets@.take(i as int))),
            all_groups_readable(flatten_buckets(buckets@.take(i as int))),
        decreases buckets@.len() - i,
    {
        let bucket = &buckets[i];
        let ghost before = flatten_buckets(buckets@.take(i as int));
        proof {
            lemma_flatten_prefix(buckets@, i + 1);
            assert(buckets@.take(i + 1).drop_last() =~= buckets@.take(i as int));
            assert(flatten_buckets(buckets@.take(i + 1)) == before + bucket@);
        }
        let mut j: usize = 0;
        while j < bucket.len()
            invariant
                i < buckets@.len(),
                bucket == buckets@[i as int],
                j <= bucket@.len(),
                flat == flatten_buckets(buckets@),
                before == flatten_buckets(buckets@.take(i as int)),
                flatten_buckets(buckets@.take(i + 1)) == before + bucket@,
                before.len() + bucket@.len() <= flat.len(),
                forall|k: int|
                    0 <= k < before.len() + bucket@.len() ==> (before + bucket@)[k] == flat[k],
                cost_views(out@) == group_costs(before + bucket@.take(j as int)),
                all_groups_readable(before + bucket@.take(j as int)),
            decreases bucket@.len() - j,
        {
            let g = &bucket[j];
            let ghost seen = before + bucket@.take(j as int);
            let ghost pos = before.len() + j;
            assert(flat[pos] == *g);
            assert(forall|k: int| 0 <= k < pos ==> seen[k] == flat[k]);
            assert(forall|k: int| 0 <= k < pos ==> (#[trigger] group_cost(seen[k])) is Ok);
            assert forall|k: int| 0 <= k < pos implies (#[trigger] group_cost(flat[k])) is Ok by {
                assert(seen[k] == flat[k]);
                assert(group_cost(seen[k]) is Ok);
            }
            let name = match &g.service {
                None => {
                    assert(group_cost(flat[pos]) == Err::<(Seq<char>, u64), CostError>(
                        CostError::MissingService,
                    ));
                    return Err(CostError::MissingService);
                },
                Some(name) => name,
            };
            let text = match &g.amount {
                None => {
                    assert(group_cost(flat[pos]) == Err::<(Seq<char>, u64), CostError>(
                        CostError::MissingAmount,
                    ));
                    return Err(CostError::MissingAmount);
                },
                Some(text) => text,
            };
            let cost = match parse_amount(text.as_str()) {
                Err(e) => {
                    assert(group_cost(flat[pos]) == Err::<(Seq<char>, u64), CostError>(
                        CostError::BadAmount(e),
                    ));
                    return Err(CostError::BadAmount(e));
                },
                Ok(cost) => cost,
            };
            let entry = ServiceCost { service_name: name.clone(), cost };
            assert(group_cost(*g) == Ok::<(Seq<char>, u64), CostError>(entry@));
            let ghost out_before = out@;
            out.push(entry);
            j = j + 1;
            proof {
                let now = before + bucket@.take(j as int);
                assert(now =~= seen.push(*g));
                out_before.lemma_push_map_commute(|c: ServiceCost| c@, entry);
                seen.lemma_push_map_commute(|g: CostGroup| group_cost(g)->Ok_0, *g);
                assert(cost_views(out@) =~= group_costs(now));
                assert forall|k: int| 0 <= k < now.len() implies (#[trigger] group_cost(
                    now[k],
                )) is Ok by {
                    if k < seen.len() {
                        assert(now[k] == seen[k]);
                    }
                }
            }
        }
        assert(bucket@.take(j as int) =~= bucket@);
        i = i + 1;
    }
    assert(buckets@.take(i as int) =~= buckets@);
    Ok(out)
}

/// Orders entries by cost, highest first. Entries of equal cost come out in
/// no promised order.
pub fn rank_costs(costs: Vec<ServiceCost>) -> (r: Vec<ServiceCost>)
    ensures
        is_ranked(cost_views(r@)),
        cost_views(r@).to_multiset() == cost_views(costs@).to_multiset(),
{
    broadcast use vstd::seq_lib::group_to_multiset_ensures, vstd::multiset::group_multiset_axioms;

    let ghost original = cost_views(costs@).to_multiset();
    let mut rest = costs;
    let mut out: Vec<ServiceCost> = Vec::new();
    assert(cost_views(out@) =~= Seq::<(Seq<char>, u64)>::empty());
    assert(cost_views(out@).to_multiset().add(cost_views(rest@).to_multiset()) =~= original);
    while rest.len() > 0
        invariant
            is_ranked(cost_views(out@)),
            cost_views(out@).to_multiset().add(cost_views(rest@).to_multiset()) == original,
        decreases rest@.len(),
    {
        let ghost before_rest = rest@;
        let x = rest.pop().unwrap();
        proof {
            assert(before_rest =~= rest@.push(x));
            rest@.lemma_push_map_commute(|c: ServiceCost| c@, x);
            to_multiset_build(cost_views(rest@), x@);
        }
        let mut p: usize = 0;
        while p < out.len() && out[p].cost >= x.cost
            invariant
                p <= out@.len(),
                forall|k: int| 0 <= k < p ==> out@[k].cost >= x.cost,
            decreases out@.len() - p,
        {
            p = p + 1;
        }
        let ghost before_out = out@;
        out.insert(p, x);
        proof {
            assert(cost_views(out@) =~= cost_views(before_out).insert(p as int, x@));
            to_multiset_insert(cost_views(before_out), p as int, x@);
            let v = cost_views(out@);
            let w = cost_views(before_out);
            assert forall|a: int, b: int| 0 <= a < b < v.len() implies v[a].1 >= v[b].1 by {
                if b < p {
                    assert(v[a] == w[a] && v[b] == w[b]);
                } else if b == p {
                    assert(v[a] == w[a]);
                } else if a < p {
                    assert(v[a] == w[a] && v[b] == w[b - 1]);
                    assert(w[p as int].1 < x.cost);
                    if b - 1 > p {
                        assert(w[p as int].1 >= w[b - 1].1);
                    }
                } else if a == p {
                    assert(v[b] == w[b - 1]);
                    assert(w[p as int].1 < x.cost);
                    if b - 1 > p {
                        assert(w[p as int].1 >= w[b - 1].1);
                    }
                } else {
                    assert(v[a] == w[a - 1] && v[b] == w[b - 1]);
                }
            }
        }
    }
    proof {
        assert(cost_views(rest@) =~= Seq::<(Seq<char>, u64)>::empty());
        assert(cost_views(rest@).to_multiset() =~= Multiset::empty());
        assert(cost_views(out@).to_multiset().add(Multiset::empty()) =~= cost_views(
            out@,
        ).to_multiset());
    }
    out
}

/// An account's costs for the period, read from the time buckets of a cost
/// query's answer and ranked by cost, highest first. The first group that
/// cannot be read makes the whole account fail.
pub fn calculate_top_cost_categories(buckets: &Vec<Vec<CostGroup>>) -> (r: Result<
    Vec<ServiceCost>,
    CostError,
>)
    ensures
        r is Ok <==> all_groups_readable(flatten_buckets(buckets@)),
        r matches Ok(v) ==> is_ranked(cost_views(v@)) && cost_views(v@).to_multiset()
            == group_costs(flatten_buckets(buckets@)).to_multiset(),
        r matches Err(e) ==> first_group_error(flatten_buckets(buckets@), e),
{
    match collect_costs(buckets) {
        Ok(costs) => Ok(rank_costs(costs)),
        Err(e) => Err(e),
    }
}

} // verus!
