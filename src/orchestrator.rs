use vstd::prelude::*;
use crate::alert::{
    alert_body, alert_subject, compose, evaluate, lemma_total_independent_of_order, sum_costs,
    AlertMessage,
};
use crate::calendar::{compute_report_period, Date, ReportPeriod};
use crate::ranking::{
    all_groups_readable, calculate_top_cost_categories, cost_views, first_group_error,
    flatten_buckets, group_costs, is_ranked, CostError, CostGroup, ServiceCost,
};

verus! {

/// An account is alerted on when its costs add up to strictly more than the threshold.
pub open spec fn alert_due(costs: Seq<(Seq<char>, u64)>, threshold: u64) -> bool {
    sum_costs(costs) > threshold
}

/// The alert for one account whose ranked costs are `ranked`, if one is due.
pub fn alert_for_account(
    account_id: &str,
    period: &ReportPeriod,
    ranked: &Vec<ServiceCost>,
    threshold: u64,
    max_services: usize,
) -> (r: Option<AlertMessage>)
    requires
        period.wf(),
    ensures
        r is Some <==> alert_due(cost_views(ranked@), threshold),
        r matches Some(m) ==> m.subject@ == alert_subject(account_id@, *period) && m.body@
            == alert_body(
            account_id@,
            *period,
            sum_costs(cost_views(ranked@)),
            cost_views(ranked@),
            max_services as nat,
        ),
{
    let evaluation = evaluate(ranked, threshold);
    if evaluation.exceeded {
        Some(compose(account_id, period, evaluation.total_cost, ranked, max_services))
    } else {
        None
    }
}

/// What the run asks of the world next.
#[derive(Clone, Debug)]
pub enum Step {
    /// Query the costs of this account for the run's period.
    QueryCosts(String),
    /// Every account has been handled.
    Finished,
}

/// One run over the accounts of an organization, in the order they were
/// listed: for each, the caller queries its costs and hands the answer to
/// `on_costs`, which says whether to send an alert.
#[derive(Clone, Debug)]
pub struct Orchestrator {
    pub period: ReportPeriod,
    pub threshold: u64,
    pub max_services: usize,
    pub accounts: Vec<String>,
    pub next: usize,
}

impl Orchestrator {
    pub open spec fn wf(&self) -> bool {
        &&& self.period.wf()
        &&& self.next <= self.accounts@.len()
    }

    pub open spec fn is_finished(&self) -> bool {
        self.next >= self.accounts@.len()
    }

    /// Starts a run on day `now`: the period is the calendar month before it.
    pub fn new(now: Date, threshold: u64, max_services: usize, accounts: Vec<String>) -> (r: Self)
        requires
            now.wf(),
            now.year >= 1 || now.month > 1,
        ensures
            r.wf(),
            r.period == ReportPeriod::previous_month_of(now),
            r.threshold == threshold,
            r.max_services == max_services,
            r.accounts@ == accounts@,
            r.next == 0,
    {
        let period = compute_report_period(now);
        Orchestrator { period, threshold, max_services, accounts, next: 0 }
    }

    /// The account to query next, or `Finished` once all have been handled.
    pub fn next_step(&self) -> (r: Step)
        requires
            self.wf(),
        ensures
            r is Finished <==> self.is_finished(),
            r matches Step::QueryCosts(id) ==> id@ == self.accounts@[self.next as int]@,
    {
        if self.next < self.accounts.len() {
            Step::QueryCosts(self.accounts[self.next].clone())
        } else {
            Step::Finished
        }
    }

    /// Takes the answer of the cost query for the current account and moves
    /// on to the next one. Returns the alert to send, if the account's total
    /// is over the threshold, or the error that made its costs unreadable.
    pub fn on_costs(&mut self, buckets: &Vec<Vec<CostGroup>>) -> (r: Result<
        Option<AlertMessage>,
        CostError,
    >)
        requires
            old(self).wf(),
            !old(self).is_finished(),
        ensures
            final(self).wf(),
            final(self).next == old(self).next + 1,
            final(self).period == old(self).period,
            final(self).threshold == old(self).threshold,
            final(self).max_services == old(self).max_services,
            final(self).accounts@ == old(self).accounts@,
            r is Ok <==> all_groups_readable(flatten_buckets(buckets@)),
            r matches Err(e) ==> first_group_error(flatten_buckets(buckets@), e),
            r matches Ok(alert) ==> (alert is Some <==> alert_due(
                group_costs(flatten_buckets(buckets@)),
                old(self).threshold,
            )),
            r matches Ok(Some(m)) ==> m.subject@ == alert_subject(
                old(self).accounts@[old(self).next as int]@,
                old(self).period,
            ) && exists|ranked: Seq<(Seq<char>, u64)>|
                is_ranked(ranked) && ranked.to_multiset() == group_costs(
                    flatten_buckets(buckets@),
                ).to_multiset() && m.body@ == alert_body(
                    old(self).accounts@[old(self).next as int]@,
                    old(self).period,
                    sum_costs(group_costs(flatten_buckets(buckets@))),
                    ranked,
                    old(self).max_services as nat,
                ),
    {
        let index = self.next;
        let count = self.accounts.len();
        assert(index < count);
        self.next = index + 1;
        match calculate_top_cost_categories(buckets) {
            Err(e) => Err(e),
            Ok(ranked) => {
                proof {
                    lemma_total_independent_of_order(
                        cost_views(ranked@),
                        group_costs(flatten_buckets(buckets@)),
                    );
                }
                let alert = alert_for_account(
                    self.accounts[index].as_str(),
                    &self.period,
                    &ranked,
                    self.threshold,
                    self.max_services,
                );
                Ok(alert)
            },
        }
    }
}

/// With no accounts to go through, a run is finished from its start: no
/// cost is queried and no alert is sent.
pub proof fn lemma_no_accounts_no_alerts(o: Orchestrator)
    requires
        o.wf(),
        o.next == 0,
        o.accounts@.len() == 0,
    ensures
        o.is_finished(),
{
}

/// An account whose total equals the threshold exactly gets no alert.
pub proof fn lemma_threshold_reached_not_exceeded(costs: Seq<(Seq<char>, u64)>, threshold: u64)
    requires
        sum_costs(costs) == threshold,
    ensures
        !alert_due(costs, threshold),
{
}

} // verus!
