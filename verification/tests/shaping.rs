use data_collector::appender::render_append;
use data_collector::collect::{collect_all, CollectError, LogLine};
use data_collector::snapshot::{
    build_snapshot, build_snapshot_at, FieldName, FinancialData, KeyStatistics, QuoteSummary,
    SectionName, SnapshotError, SummaryDetail,
};

fn complete_payload() -> QuoteSummary {
    QuoteSummary {
        asset_profile_present: true,
        summary_detail: Some(SummaryDetail {
            market_cap: Some(2_800_000_000_000),
            ex_dividend_date: Some(1_707_350_400),
            trailing_pe: Some("29.5".to_string()),
            dividend_yield: Some("0.005".to_string()),
        }),
        default_key_statistics: Some(KeyStatistics {
            forward_pe: Some("27.1".to_string()),
            trailing_eps: Some("6.43".to_string()),
            forward_eps: Some("7.1".to_string()),
            beta: Some("1.29".to_string()),
            held_percent_insiders: Some("0.00071".to_string()),
            held_percent_institutions: Some("0.615".to_string()),
            shares_outstanding: Some(15_500_000_000),
            float_shares: Some(15_480_000_000),
        }),
        quote_type_present: true,
        financial_data: Some(FinancialData {
            current_price: Some("189.41".to_string()),
            target_mean_price: Some("201.3".to_string()),
            recommendation_mean: Some("2.1".to_string()),
        }),
    }
}

#[test]
fn builds_snapshot_from_complete_payload() {
    let payload = complete_payload();
    let snapshot =
        build_snapshot_at("AAPL", "2024-02-08T12:00:00+00:00".to_string(), &payload).unwrap();
    assert_eq!(snapshot.timestamp, "2024-02-08T12:00:00+00:00");
    assert_eq!(snapshot.ticker, "AAPL");
    assert_eq!(snapshot.price, "189.41");
    assert_eq!(snapshot.market_cap, 2_800_000_000_000);
    assert_eq!(snapshot.shares_outstanding, 15_500_000_000);
    assert_eq!(snapshot.float_shares, 15_480_000_000);
    assert_eq!(snapshot.trailing_pe, "29.5");
    assert_eq!(snapshot.forward_pe, "27.1");
    assert_eq!(snapshot.trailing_eps, "6.43");
    assert_eq!(snapshot.forward_eps, "7.1");
    assert_eq!(snapshot.dividend_yield, "0.005");
    assert_eq!(snapshot.ex_dividend_date, 1_707_350_400);
    assert_eq!(snapshot.target_mean_price, "201.3");
    assert_eq!(snapshot.recommendation_mean, "2.1");
    assert_eq!(snapshot.beta, "1.29");
    assert_eq!(snapshot.held_percent_insiders, "0.00071");
    assert_eq!(snapshot.held_percent_institutions, "0.615");
}

#[test]
fn missing_price_is_a_named_fault() {
    let mut payload = complete_payload();
    payload.financial_data.as_mut().unwrap().current_price = None;
    let r = build_snapshot_at("AAPL", "t".to_string(), &payload);
    assert_eq!(r.unwrap_err(), SnapshotError::MissingField(FieldName::Price));
}

#[test]
fn missing_dividend_yield_is_a_named_fault() {
    let mut payload = complete_payload();
    payload.summary_detail.as_mut().unwrap().dividend_yield = None;
    let r = build_snapshot_at("AAPL", "t".to_string(), &payload);
    assert_eq!(r.unwrap_err(), SnapshotError::MissingField(FieldName::DividendYield));
}

#[test]
fn first_missing_field_in_fixed_order_wins() {
    let mut payload = complete_payload();
    payload.default_key_statistics.as_mut().unwrap().forward_pe = None;
    payload.summary_detail.as_mut().unwrap().dividend_yield = None;
    let r = build_snapshot_at("AAPL", "t".to_string(), &payload);
    assert_eq!(r.unwrap_err(), SnapshotError::MissingField(FieldName::ForwardPe));
}

#[test]
fn missing_sections_are_named_faults() {
    let mut payload = complete_payload();
    payload.asset_profile_present = false;
    let r = build_snapshot_at("AAPL", "t".to_string(), &payload);
    assert_eq!(r.unwrap_err(), SnapshotError::MissingSection(SectionName::AssetProfile));

    let mut payload = complete_payload();
    payload.financial_data = None;
    let r = build_snapshot_at("AAPL", "t".to_string(), &payload);
    assert_eq!(r.unwrap_err(), SnapshotError::MissingSection(SectionName::FinancialData));

    let mut payload = complete_payload();
    payload.quote_type_present = false;
    let r = build_snapshot_at("AAPL", "t".to_string(), &payload);
    assert_eq!(r.unwrap_err(), SnapshotError::MissingSection(SectionName::QuoteType));
}

#[test]
fn stamped_timestamp_is_nonempty_and_row_safe() {
    let payload = complete_payload();
    let snapshot = build_snapshot("AAPL", &payload).unwrap();
    assert!(!snapshot.timestamp.is_empty());
    assert!(!snapshot.timestamp.contains(','));
    assert!(!snapshot.timestamp.contains('"'));
    assert!(!snapshot.timestamp.contains('\n'));
}

#[test]
fn collect_isolates_one_failing_ticker() {
    let tickers = vec!["AAPL".to_string(), "MSFT".to_string(), "GOOGL".to_string()];
    let outcomes = vec![
        Ok(complete_payload()),
        Err("request failed".to_string()),
        Ok(complete_payload()),
    ];
    let (snapshots, logs) = collect_all(&tickers, outcomes);
    assert_eq!(snapshots.len(), 2);
    assert_eq!(snapshots[0].ticker, "AAPL");
    assert_eq!(snapshots[1].ticker, "GOOGL");
    assert_eq!(logs.len(), 3);
    assert!(matches!(&logs[0], LogLine::Success { ticker } if ticker == "AAPL"));
    match &logs[1] {
        LogLine::Failure { ticker, error: CollectError::Provider { message } } => {
            assert_eq!(ticker, "MSFT");
            assert_eq!(message, "request failed");
        },
        other => panic!("unexpected log line: {:?}", line_kind(other)),
    }
    assert!(matches!(&logs[2], LogLine::Success { ticker } if ticker == "GOOGL"));

    // The file gains exactly two data rows, for AAPL and GOOGL, in that order.
    let text = render_append(&snapshots, false).unwrap();
    let lines: Vec<&str> = text.lines().collect();
    assert_eq!(lines.len(), 2);
    assert!(lines[0].contains(",AAPL,"));
    assert!(lines[1].contains(",GOOGL,"));
}

fn line_kind(line: &LogLine) -> &'static str {
    match line {
        LogLine::Success { .. } => "success",
        LogLine::Failure { .. } => "failure",
    }
}

#[test]
fn collect_reports_shaping_faults() {
    let tickers = vec!["AAPL".to_string()];
    let mut payload = complete_payload();
    payload.default_key_statistics.as_mut().unwrap().beta = None;
    let outcomes = vec![Ok(payload)];
    let (snapshots, logs) = collect_all(&tickers, outcomes);
    assert!(snapshots.is_empty());
    match &logs[0] {
        LogLine::Failure { ticker, error: CollectError::Build { fault } } => {
            assert_eq!(ticker, "AAPL");
            assert_eq!(*fault, SnapshotError::MissingField(FieldName::Beta));
        },
        other => panic!("unexpected log line: {:?}", line_kind(other)),
    }
}

#[test]
fn empty_ticker_list_writes_nothing() {
    let tickers: Vec<String> = Vec::new();
    let outcomes: Vec<Result<QuoteSummary, String>> = Vec::new();
    let (snapshots, logs) = collect_all(&tickers, outcomes);
    assert!(snapshots.is_empty());
    assert!(logs.is_empty());
    assert!(render_append(&snapshots, true).is_none());
    assert!(render_append(&snapshots, false).is_none());
}

#[test]
fn all_failures_write_nothing() {
    let tickers = vec!["AAPL".to_string(), "MSFT".to_string()];
    let outcomes = vec![Err("down".to_string()), Err("down".to_string())];
    let (snapshots, logs) = collect_all(&tickers, outcomes);
    assert!(snapshots.is_empty());
    assert_eq!(logs.len(), 2);
    assert!(render_append(&snapshots, true).is_none());
}
