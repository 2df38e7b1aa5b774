use vstd::prelude::*;
use vstd::string::StringExecFns;
use crate::calendar::ReportPeriod;
use crate::ranking::{cost_views, ServiceCost};
use crate::text::{date_text, money_text, push_date, push_money};

verus! {

/// How many services an alert lists when nothing else is asked for.
pub const DEFAULT_SERVICES_TO_REPORT: usize = 10;

/// Sum of the costs of `s`.
pub open spec fn sum_costs(s: Seq<(Seq<char>, u64)>) -> nat
    decreases s.len(),
{
    if s.len() == 0 {
        0
    } else {
        sum_costs(s.drop_last()) + s.last().1 as nat
    }
}

/// An account's total for the period and whether it is over the threshold.
#[derive(Clone, Copy, Debug, PartialEq, Eq, Structural)]
pub struct Evaluation {
    pub total_cost: u128,
    pub exceeded: bool,
}

/// Adds up every entry of `ranked` (not only those an alert would list) and
/// compares the total with `threshold`: only a total strictly above it counts.
pub fn evaluate(ranked: &Vec<ServiceCost>, threshold: u64) -> (r: Evaluation)
    ensures
        r.total_cost == sum_costs(cost_views(ranked@)),
        r.exceeded == (r.total_cost > threshold),
{
    let mut total: u128 = 0;
    let mut i: usize = 0;
    while i < ranked.len()
        invariant
            i <= ranked@.len(),
            total == sum_costs(cost_views(ranked@.take(i as int))),
            total <= i * (u64::MAX as int),
        decreases ranked@.len() - i,
    {
        let c = ranked[i].cost;
        assert(cost_views(ranked@.take(i + 1)).drop_last() =~= cost_views(ranked@.take(i as int)));
        assert(total + c <= (i + 1) * (u64::MAX as int) <= u128::MAX) by (nonlinear_arith)
            requires
                total <= i * (u64::MAX as int),
                c <= u64::MAX,
                i < usize::MAX,
        ;
        total = total + c as u128;
        i = i + 1;
    }
    assert(ranked@.take(i as int) =~= ranked@);
    Evaluation { total_cost: total, exceeded: total > threshold as u128 }
}

/// Subject and body of an alert.
#[derive(Clone, Debug)]
pub struct AlertMessage {
    pub subject: String,
    pub body: String,
}

/// How many entries of `len` an alert lists: at most `max_services`.
pub open spec fn reported_count(len: nat, max_services: nat) -> nat {
    if len < max_services { len } else { max_services }
}

pub open spec fn service_line(e: (Seq<char>, u64)) -> Seq<char> {
    " - "@ + e.0 + " - $"@ + money_text(e.1 as nat) + "\n"@
}

/// One line per entry, in order.
pub open spec fn service_lines(s: Seq<(Seq<char>, u64)>) -> Seq<char>
    decreases s.len(),
{
    if s.len() == 0 {
        Seq::empty()
    } else {
        service_lines(s.drop_last()) + service_line(s.last())
    }
}

pub open spec fn alert_subject(account_id: Seq<char>, period: ReportPeriod) -> Seq<char> {
    "AWS Account #"@ + account_id + " spend from "@ + date_text(period.start) + " - "@ + date_text(
        period.end,
    )
}

pub open spec fn alert_body(
    account_id: Seq<char>,
    period: ReportPeriod,
    total: nat,
    ranked: Seq<(Seq<char>, u64)>,
    max_services: nat,
) -> Seq<char> {
    "Below is the spend for account # "@ + account_id + " from "@ + date_text(period.start)
        + " to "@ + date_text(period.end) + "\n"@
        + "Your account had a total monthly spend of $"@ + money_text(total) + "\n"@
        + "For your information, the following are the top-costing services in this account:\n\n"@
        + service_lines(ranked.take(reported_count(ranked.len(), max_services) as int))
}

/// Writes the alert for one account: a subject naming the account and the
/// period, and a body with the period, the total and the first
/// `max_services` entries of `ranked`, amounts with two decimals.
pub fn compose(
    account_id: &str,
    period: &ReportPeriod,
    total_cost: u128,
    ranked: &Vec<ServiceCost>,
    max_services: usize,
) -> (r: AlertMessage)
    requires
        period.wf(),
    ensures
        r.subject@ == alert_subject(account_id@, *period),
        r.body@ == alert_body(account_id@, *period, total_cost as nat, cost_views(ranked@), max_services as nat),
{
    let mut body = String::new();
    body.append("Below is the spend for account # ");
    body.append(account_id);
    body.append(" from ");
    push_date(&mut body, period.start);
    body.append(" to ");
    push_date(&mut body, period.end);
    body.append("\n");
    body.append("Your account had a total monthly spend of $");
    push_money(&mut body, total_cost);
    body.append("\n");
    body.append("For your information, the following are the top-costing services in this account:\n\n");
    let ghost header = body@;
    let count: usize = if ranked.len() < max_services { ranked.len() } else { max_services };
    let mut i: usize = 0;
    while i < count
        invariant
            count <= ranked@.len(),
            i <= count,
            body@ == header + service_lines(cost_views(ranked@).take(i as int)),
        decreases count - i,
    {
        let entry = &ranked[i];
        body.append(" - ");
        body.append(entry.service_name.as_str());
        body.append(" - $");
        push_money(&mut body, entry.cost as u128);
        body.append("\n");
        assert(cost_views(ranked@).take(i + 1).drop_last() =~= cost_views(ranked@).take(i as int));
        i = i + 1;
        assert(body@ =~= header + service_lines(cost_views(ranked@).take(i as int)));
    }
    let mut subject = String::new();
    subject.append("AWS Account #");
    subject.append(account_id);
    subject.append(" spend from ");
    push_date(&mut subject, period.start);
    subject.append(" - ");
    push_date(&mut subject, period.end);
    assert(subject@ =~= alert_subject(account_id@, *period));
    assert(body@ =~= alert_body(account_id@, *period, total_cost as nat, cost_views(ranked@), max_services as nat));
    AlertMessage { subject, body }
}


proof fn lemma_sum_remove(s: Seq<(Seq<char>, u64)>, k: int)
    requires
        0 <= k < s.len(),
    ensures
        sum_costs(s) == sum_costs(s.remove(k)) + s[k].1,
    decreases s.len(),
{
    if k < s.len() - 1 {
        lemma_sum_remove(s.drop_last(), k);
        assert(s.remove(k).drop_last() =~= s.drop_last().remove(k));
        assert(s.remove(k).last() == s.last());
    } else {
        assert(s.remove(k) =~= s.drop_last());
    }
}

/// The total of a list of costs does not depend on their order: two lists
/// that hold the same entries, ranked or not, add up to the same total.
pub proof fn lemma_total_independent_of_order(a: Seq<(Seq<char>, u64)>, b: Seq<(Seq<char>, u64)>)
    requires
        a.to_multiset() == b.to_multiset(),
    ensures
        sum_costs(a) == sum_costs(b),
    decreases a.len(),
{
    broadcast use vstd::seq_lib::group_to_multiset_ensures, vstd::multiset::group_multiset_axioms;

    if a.len() == 0 {
        assert(a.to_multiset().len() == 0);
        assert(b.to_multiset().len() == b.len());
    } else {
        let x = a.last();
        assert(a =~= a.drop_last().push(x));
        assert(a.to_multiset().count(x) > 0);
        assert(b.contains(x));
        let k = choose|k: int| 0 <= k < b.len() && b[k] == x;
        lemma_sum_remove(b, k);
        assert(b.remove(k).to_multiset() =~= a.drop_last().to_multiset());
        lemma_total_independent_of_order(a.drop_last(), b.remove(k));
    }
}

/// The total covers every entry, those an alert lists and those it leaves out.
pub proof fn lemma_total_covers_unreported(s: Seq<(Seq<char>, u64)>, max_services: nat)
    ensures
        sum_costs(s) == sum_costs(s.take(reported_count(s.len(), max_services) as int))
            + sum_costs(s.skip(reported_count(s.len(), max_services) as int)),
{
    lemma_sum_split(s, reported_count(s.len(), max_services) as int);
}

proof fn lemma_sum_split(s: Seq<(Seq<char>, u64)>, k: int)
    requires
        0 <= k <= s.len(),
    ensures
        sum_costs(s) == sum_costs(s.take(k)) + sum_costs(s.skip(k)),
    decreases s.len(),
{
    if s.len() == k {
        assert(s.take(k) =~= s);
        assert(s.skip(k) =~= Seq::<(Seq<char>, u64)>::empty());
    } else {
        lemma_sum_split(s.drop_last(), k);
        assert(s.drop_last().take(k) =~= s.take(k));
        assert(s.skip(k).drop_last() =~= s.drop_last().skip(k));
    }
}

} // verus!
