use cost_alerts::alert::{compose, evaluate, AlertMessage, DEFAULT_SERVICES_TO_REPORT};
use cost_alerts::amount::{parse_amount, AmountError};
use cost_alerts::calendar::{compute_report_period, Date, ReportPeriod};
use cost_alerts::orchestrator::{alert_for_account, Orchestrator, Step};
use cost_alerts::ranking::{
    calculate_top_cost_categories, collect_costs, rank_costs, CostError, CostGroup, ServiceCost,
};
use cost_alerts::text::{format_date, UNITS_PER_DOLLAR};

fn date(year: i32, month: u32, day: u32) -> Date {
    Date::new(year, month, day).expect("valid date")
}

fn dollars(d: u64) -> u64 {
    d * UNITS_PER_DOLLAR
}

fn cost(name: &str, units: u64) -> ServiceCost {
    ServiceCost { service_name: name.to_string(), cost: units }
}

fn group(name: &str, amount: &str) -> CostGroup {
    CostGroup { service: Some(name.to_string()), amount: Some(amount.to_string()) }
}

fn january_2024() -> ReportPeriod {
    ReportPeriod { start: date(2024, 1, 1), end: date(2024, 1, 31) }
}

#[test]
fn period_january_rolls_back_to_december() {
    let p = compute_report_period(date(2024, 1, 15));
    assert_eq!(p.start, date(2023, 12, 1));
    assert_eq!(p.end, date(2023, 12, 31));
}

#[test]
fn period_march_leap_year_february() {
    let p = compute_report_period(date(2024, 3, 31));
    assert_eq!(p.start, date(2024, 2, 1));
    assert_eq!(p.end, date(2024, 2, 29));
}

#[test]
fn period_march_common_year_february() {
    let p = compute_report_period(date(2023, 3, 1));
    assert_eq!(p.start, date(2023, 2, 1));
    assert_eq!(p.end, date(2023, 2, 28));
}

#[test]
fn period_every_month_of_a_year() {
    let lengths = [31u32, 28, 31, 30, 31, 30, 31, 31, 30, 31, 30, 31];
    for month in 2u32..=12 {
        let p = compute_report_period(date(2025, month, 10));
        assert_eq!(p.start, date(2025, month - 1, 1));
        assert_eq!(p.end, date(2025, month - 1, lengths[(month - 2) as usize]));
    }
    let p = compute_report_period(date(2000, 3, 5));
    assert_eq!(p.end, date(2000, 2, 29));
    let p = compute_report_period(date(1900, 3, 5));
    assert_eq!(p.end, date(1900, 2, 28));
}

#[test]
fn date_new_rejects_impossible_days() {
    assert!(Date::new(2023, 2, 29).is_none());
    assert!(Date::new(2024, 2, 29).is_some());
    assert!(Date::new(2024, 13, 1).is_none());
    assert!(Date::new(2024, 4, 31).is_none());
    assert!(Date::new(10000, 1, 1).is_none());
}

#[test]
fn parse_amount_reads_decimals() {
    assert_eq!(parse_amount("500"), Ok(dollars(500)));
    assert_eq!(parse_amount("12.34"), Ok(12_340_000_000_0));
    assert_eq!(parse_amount("0.0000000001"), Ok(1));
    assert_eq!(parse_amount("0.00000000019"), Ok(1));
    assert_eq!(parse_amount(".5"), Ok(dollars(1) / 2));
    assert_eq!(parse_amount("7."), Ok(dollars(7)));
    assert_eq!(parse_amount("0"), Ok(0));
}

#[test]
fn parse_amount_rejects_malformed_text() {
    for text in ["", ".", "abc", "-1", "1e5", "1.2.3", " 1", "1,5"] {
        assert_eq!(parse_amount(text), Err(AmountError::Malformed), "{}", text);
    }
}

#[test]
fn parse_amount_rejects_out_of_range() {
    assert_eq!(parse_amount("2000000000"), Err(AmountError::OutOfRange));
    assert_eq!(parse_amount("99999999999999999999999"), Err(AmountError::OutOfRange));
    assert_eq!(parse_amount("1844674407.3709551615"), Ok(u64::MAX));
    assert_eq!(parse_amount("1844674407.3709551616"), Err(AmountError::OutOfRange));
}

#[test]
fn aggregate_sorts_descending_across_buckets() {
    let buckets = vec![
        vec![group("S3", "300.0"), group("RDS", "10.0")],
        vec![group("EC2", "500.0"), group("S3", "5")],
    ];
    let ranked = calculate_top_cost_categories(&buckets).expect("readable");
    let names: Vec<&str> = ranked.iter().map(|c| c.service_name.as_str()).collect();
    assert_eq!(names, vec!["EC2", "S3", "RDS", "S3"]);
    for w in ranked.windows(2) {
        assert!(w[0].cost >= w[1].cost);
    }
}

#[test]
fn aggregate_keeps_every_entry() {
    let buckets = vec![vec![group("A", "1"), group("B", "1"), group("C", "2")]];
    let ranked = calculate_top_cost_categories(&buckets).expect("readable");
    assert_eq!(ranked.len(), 3);
    assert_eq!(ranked[0].service_name, "C");
    let mut rest: Vec<&str> = ranked[1..].iter().map(|c| c.service_name.as_str()).collect();
    rest.sort();
    assert_eq!(rest, vec!["A", "B"]);
}

#[test]
fn aggregate_of_no_data_is_empty() {
    let none: Vec<Vec<CostGroup>> = vec![];
    assert_eq!(calculate_top_cost_categories(&none).expect("readable").len(), 0);
    let empty_bucket = vec![vec![]];
    assert_eq!(calculate_top_cost_categories(&empty_bucket).expect("readable").len(), 0);
}

#[test]
fn aggregate_reports_first_unreadable_group() {
    let missing_name = vec![vec![
        group("EC2", "1"),
        CostGroup { service: None, amount: Some("2".to_string()) },
        group("S3", "x"),
    ]];
    assert!(matches!(calculate_top_cost_categories(&missing_name), Err(CostError::MissingService)));
    let missing_amount = vec![vec![CostGroup { service: Some("EC2".to_string()), amount: None }]];
    assert!(matches!(collect_costs(&missing_amount), Err(CostError::MissingAmount)));
    let bad = vec![vec![group("EC2", "1")], vec![group("S3", "1.5x"), group("RDS", "")]];
    assert!(matches!(
        calculate_top_cost_categories(&bad),
        Err(CostError::BadAmount(AmountError::Malformed))
    ));
    let huge = vec![vec![group("EC2", "5000000000")]];
    assert!(matches!(
        calculate_top_cost_categories(&huge),
        Err(CostError::BadAmount(AmountError::OutOfRange))
    ));
}

#[test]
fn rank_costs_orders_by_cost() {
    let ranked = rank_costs(vec![cost("a", 1), cost("b", 3), cost("c", 2), cost("d", 3)]);
    let costs: Vec<u64> = ranked.iter().map(|c| c.cost).collect();
    assert_eq!(costs, vec![3, 3, 2, 1]);
    assert_eq!(ranked[3].service_name, "a");
}

#[test]
fn evaluate_sums_every_entry() {
    let ranked: Vec<ServiceCost> = (0..15).map(|i| cost("svc", dollars(i))).collect();
    let e = evaluate(&ranked, dollars(104));
    assert_eq!(e.total_cost, dollars(105) as u128);
    assert!(e.exceeded);
}

#[test]
fn evaluate_equal_threshold_does_not_trigger() {
    let ranked = vec![cost("EC2", dollars(500)), cost("S3", dollars(310))];
    let e = evaluate(&ranked, dollars(810));
    assert_eq!(e.total_cost, dollars(810) as u128);
    assert!(!e.exceeded);
    let e = evaluate(&ranked, dollars(810) - 1);
    assert!(e.exceeded);
}

#[test]
fn evaluate_sum_does_not_overflow() {
    let ranked = vec![cost("a", u64::MAX), cost("b", u64::MAX)];
    let e = evaluate(&ranked, u64::MAX);
    assert_eq!(e.total_cost, 2 * (u64::MAX as u128));
    assert!(e.exceeded);
}

#[test]
fn compose_lists_services_in_rank_order() {
    let ranked = vec![
        cost("EC2", dollars(500)),
        cost("S3", dollars(300)),
        cost("RDS", dollars(10)),
    ];
    let m: AlertMessage =
        compose("111", &january_2024(), dollars(810) as u128, &ranked, DEFAULT_SERVICES_TO_REPORT);
    assert_eq!(m.subject, "AWS Account #111 spend from 2024-01-01 - 2024-01-31");
    assert_eq!(
        m.body,
        "Below is the spend for account # 111 from 2024-01-01 to 2024-01-31\n\
         Your account had a total monthly spend of $810.00\n\
         For your information, the following are the top-costing services in this account:\n\n \
         - EC2 - $500.00\n - S3 - $300.00\n - RDS - $10.00\n"
    );
    let ec2 = m.body.find(" - EC2 - $500.00").unwrap();
    let s3 = m.body.find(" - S3 - $300.00").unwrap();
    let rds = m.body.find(" - RDS - $10.00").unwrap();
    assert!(ec2 < s3 && s3 < rds);
}

#[test]
fn compose_lists_at_most_the_limit() {
    let ranked: Vec<ServiceCost> =
        (0..12u64).map(|i| cost(&format!("svc{}", i), dollars(100 - i))).collect();
    let m = compose("9", &january_2024(), 0, &ranked, DEFAULT_SERVICES_TO_REPORT);
    assert_eq!(m.body.matches("\n - ").count(), DEFAULT_SERVICES_TO_REPORT);
    assert!(m.body.contains(" - svc9 - $91.00\n"));
    assert!(!m.body.contains("svc10"));
    let m = compose("9", &january_2024(), 0, &ranked, 0);
    assert!(m.body.ends_with("in this account:\n\n"));
}

#[test]
fn compose_rounds_to_cents() {
    let ranked = vec![
        cost("half", 50_000_000),
        cost("under", 49_999_999),
        cost("whole", 12_345_678_900_00),
    ];
    let m = compose("1", &january_2024(), 5, &ranked, 10);
    assert!(m.body.contains(" - half - $0.01\n"));
    assert!(m.body.contains(" - under - $0.00\n"));
    assert!(m.body.contains(" - whole - $123.46\n"));
    assert!(m.body.contains("spend of $0.00\n"));
}

#[test]
fn compose_pads_dates() {
    let period = compute_report_period(date(5, 10, 3));
    let m = compose("7", &period, 0, &vec![], 10);
    assert_eq!(m.subject, "AWS Account #7 spend from 0005-09-01 - 0005-09-30");
}

#[test]
fn alert_only_above_threshold() {
    let ranked = vec![cost("EC2", dollars(500)), cost("S3", dollars(300))];
    assert!(alert_for_account("1", &january_2024(), &ranked, dollars(800), 10).is_none());
    let m = alert_for_account("1", &january_2024(), &ranked, dollars(799), 10).unwrap();
    assert!(m.body.contains("$800.00"));
}

#[test]
fn orchestrator_with_no_accounts_sends_nothing() {
    let o = Orchestrator::new(date(2024, 2, 1), 0, 10, vec![]);
    assert!(matches!(o.next_step(), Step::Finished));
}

#[test]
fn orchestrator_skips_account_at_threshold() {
    let mut o = Orchestrator::new(date(2024, 2, 1), dollars(810), 10, vec!["111".to_string()]);
    match o.next_step() {
        Step::QueryCosts(id) => assert_eq!(id, "111"),
        Step::Finished => panic!("one account to go"),
    }
    let buckets = vec![vec![group("EC2", "500"), group("S3", "310.0")]];
    assert!(o.on_costs(&buckets).unwrap().is_none());
    assert!(matches!(o.next_step(), Step::Finished));
}

#[test]
fn orchestrator_walks_accounts_in_order() {
    let accounts = vec!["111".to_string(), "222".to_string(), "333".to_string()];
    let mut o = Orchestrator::new(date(2024, 2, 14), dollars(100), 10, accounts);
    let answers = vec![
        vec![vec![group("EC2", "500.0"), group("S3", "300.0"), group("RDS", "10.0")]],
        vec![vec![group("EC2", "5")]],
        vec![vec![group("EC2", "oops")]],
    ];
    let mut seen = Vec::new();
    let mut alerts = Vec::new();
    let mut errors = Vec::new();
    let mut k = 0;
    while let Step::QueryCosts(id) = o.next_step() {
        seen.push(id);
        match o.on_costs(&answers[k]) {
            Ok(Some(m)) => alerts.push(m),
            Ok(None) => {}
            Err(e) => errors.push(e),
        }
        k += 1;
    }
    assert_eq!(seen, vec!["111", "222", "333"]);
    assert_eq!(alerts.len(), 1);
    assert_eq!(alerts[0].subject, "AWS Account #111 spend from 2024-01-01 - 2024-01-31");
    assert!(alerts[0].body.contains("total monthly spend of $810.00\n"));
    assert_eq!(errors, vec![CostError::BadAmount(AmountError::Malformed)]);
}

#[test]
fn day_after_period_crosses_year() {
    let p = compute_report_period(date(2024, 1, 20));
    assert_eq!(p.day_after(), date(2024, 1, 1));
    let p = compute_report_period(date(2024, 3, 2));
    assert_eq!(p.day_after(), date(2024, 3, 1));
}

#[test]
fn format_date_writes_iso_days() {
    assert_eq!(format_date(date(2023, 12, 31)), "2023-12-31");
    assert_eq!(format_date(date(987, 2, 3)), "0987-02-03");
}
