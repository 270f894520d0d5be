use data_collector::appender::{
    header_fields, needs_header, render_append, snapshot_fields, snapshot_from_fields,
};
use data_collector::digits::{format_i64, format_u64, parse_i64, parse_u64};
use data_collector::rows::{encode_field, encode_row, field_has_special, parse_row};
use data_collector::snapshot::{
    build_snapshot_at, FinancialData, KeyStatistics, QuoteSummary, Snapshot, SummaryDetail,
};

fn sample_snapshot() -> Snapshot {
    let payload = QuoteSummary {
        asset_profile_present: true,
        summary_detail: Some(SummaryDetail {
            market_cap: Some(2_800_000_000_000),
            ex_dividend_date: Some(1_707_350_400),
            trailing_pe: Some("29.5".to_string()),
            dividend_yield: Some("0.005".to_string()),
        }),
        default_key_statistics: Some(KeyStatistics {
            forward_pe: Some("27.1".to_string()),
            trailing_eps: Some("6.43".to_string()),
            forward_eps: Some("7.1".to_string()),
            beta: Some("1.29".to_string()),
            held_percent_insiders: Some("0.00071".to_string()),
            held_percent_institutions: Some("0.615".to_string()),
            shares_outstanding: Some(15_500_000_000),
            float_shares: Some(15_480_000_000),
        }),
        quote_type_present: true,
        financial_data: Some(FinancialData {
            current_price: Some("189.41".to_string()),
            target_mean_price: Some("201.3".to_string()),
            recommendation_mean: Some("2.1".to_string()),
        }),
    };
    build_snapshot_at("AAPL", "2024-02-08T12:00:00+00:00".to_string(), &payload).unwrap()
}

#[test]
fn plain_fields_are_verbatim() {
    assert_eq!(encode_field("abc"), "abc");
    assert_eq!(encode_field(""), "");
    assert_eq!(encode_field("189.41"), "189.41");
}

#[test]
fn special_fields_are_quoted() {
    assert_eq!(encode_field("a,b"), "\"a,b\"");
    assert_eq!(encode_field("a\"b"), "\"a\"\"b\"");
    assert_eq!(encode_field("a\nb"), "\"a\nb\"");
    assert!(field_has_special("a,b"));
    assert!(!field_has_special("ab"));
}

#[test]
fn row_round_trip_recovers_fields() {
    let fields = vec![
        "plain".to_string(),
        "with,comma".to_string(),
        "with\"quote".to_string(),
        "".to_string(),
        "line\nbreak".to_string(),
    ];
    let row = encode_row(&fields);
    let parsed = parse_row(&row).unwrap();
    assert_eq!(parsed, fields);
}

#[test]
fn parse_reads_plain_rows() {
    let parsed = parse_row("a,b,c").unwrap();
    assert_eq!(parsed, vec!["a".to_string(), "b".to_string(), "c".to_string()]);
}

#[test]
fn parse_rejects_malformed_rows() {
    assert!(parse_row("\"abc").is_none());
    assert!(parse_row("ab\"c").is_none());
    assert!(parse_row("\"a\"b").is_none());
}

#[test]
fn decimal_rendering_is_exact() {
    assert_eq!(format_u64(0), "0");
    assert_eq!(format_u64(42), "42");
    assert_eq!(format_u64(18_446_744_073_709_551_615), "18446744073709551615");
    assert_eq!(format_i64(0), "0");
    assert_eq!(format_i64(-5), "-5");
    assert_eq!(format_i64(1_707_350_400), "1707350400");
    assert_eq!(format_i64(i64::MIN), "-9223372036854775808");
}

#[test]
fn header_row_matches_fixed_column_order() {
    let header = encode_row(&header_fields());
    assert_eq!(
        header,
        "timestamp,ticker,price,market_cap,shares_outstanding,float_shares,trailing_pe,\
         forward_pe,trailing_eps,forward_eps,dividend_yield,ex_dividend_date,\
         target_mean_price,recommendation_mean,beta,held_percent_insiders,\
         held_percent_institutions"
    );
}

#[test]
fn snapshot_row_reparses_to_all_field_values() {
    let snapshot = sample_snapshot();
    let fields = snapshot_fields(&snapshot);
    let row = encode_row(&fields);
    let parsed = parse_row(&row).unwrap();
    assert_eq!(parsed, fields);
    assert_eq!(parsed[0], "2024-02-08T12:00:00+00:00");
    assert_eq!(parsed[1], "AAPL");
    assert_eq!(parsed[2], "189.41");
    assert_eq!(parsed[3].parse::<u64>().unwrap(), 2_800_000_000_000);
    assert_eq!(parsed[4].parse::<u64>().unwrap(), 15_500_000_000);
    assert_eq!(parsed[5].parse::<u64>().unwrap(), 15_480_000_000);
    assert_eq!(parsed[11].parse::<i64>().unwrap(), 1_707_350_400);
}

#[test]
fn decimal_parsing_is_exact() {
    assert_eq!(parse_u64("0"), Some(0));
    assert_eq!(parse_u64("2800000000000"), Some(2_800_000_000_000));
    assert_eq!(parse_u64("18446744073709551615"), Some(u64::MAX));
    assert_eq!(parse_u64("18446744073709551616"), None);
    assert_eq!(parse_u64(""), None);
    assert_eq!(parse_u64("12a"), None);
    assert_eq!(parse_i64("-5"), Some(-5));
    assert_eq!(parse_i64("-9223372036854775808"), Some(i64::MIN));
    assert_eq!(parse_i64("-9223372036854775809"), None);
    assert_eq!(parse_i64("9223372036854775807"), Some(i64::MAX));
    assert_eq!(parse_i64("9223372036854775808"), None);
    assert_eq!(parse_i64("-"), None);
    assert_eq!(parse_i64("--3"), None);
}

#[test]
fn row_rebuilds_into_a_snapshot() {
    let snapshot = sample_snapshot();
    let row = encode_row(&snapshot_fields(&snapshot));
    let parsed = parse_row(&row).unwrap();
    let rebuilt = snapshot_from_fields(&parsed).unwrap();
    assert_eq!(rebuilt.timestamp, snapshot.timestamp);
    assert_eq!(rebuilt.ticker, snapshot.ticker);
    assert_eq!(rebuilt.price, snapshot.price);
    assert_eq!(rebuilt.market_cap, snapshot.market_cap);
    assert_eq!(rebuilt.shares_outstanding, snapshot.shares_outstanding);
    assert_eq!(rebuilt.float_shares, snapshot.float_shares);
    assert_eq!(rebuilt.trailing_pe, snapshot.trailing_pe);
    assert_eq!(rebuilt.forward_pe, snapshot.forward_pe);
    assert_eq!(rebuilt.trailing_eps, snapshot.trailing_eps);
    assert_eq!(rebuilt.forward_eps, snapshot.forward_eps);
    assert_eq!(rebuilt.dividend_yield, snapshot.dividend_yield);
    assert_eq!(rebuilt.ex_dividend_date, snapshot.ex_dividend_date);
    assert_eq!(rebuilt.target_mean_price, snapshot.target_mean_price);
    assert_eq!(rebuilt.recommendation_mean, snapshot.recommendation_mean);
    assert_eq!(rebuilt.beta, snapshot.beta);
    assert_eq!(rebuilt.held_percent_insiders, snapshot.held_percent_insiders);
    assert_eq!(rebuilt.held_percent_institutions, snapshot.held_percent_institutions);
}

#[test]
fn rebuild_rejects_bad_rows() {
    assert!(snapshot_from_fields(&vec!["x".to_string()]).is_none());
    let mut fields = snapshot_fields(&sample_snapshot());
    fields[3] = "not-a-number".to_string();
    assert!(snapshot_from_fields(&fields).is_none());
}

#[test]
fn csv_reader_agrees_with_encoder() {
    let fields = vec![
        "2024-02-08T12:00:00+00:00".to_string(),
        "A,B".to_string(),
        "need \"quotes\"".to_string(),
        "42".to_string(),
    ];
    let row = encode_row(&fields);
    let mut reader = csv::ReaderBuilder::new()
        .has_headers(false)
        .from_reader(row.as_bytes());
    let record = reader.records().next().unwrap().unwrap();
    let read_back: Vec<String> = record.iter().map(|f| f.to_string()).collect();
    assert_eq!(read_back, fields);
}

#[test]
fn first_append_writes_header_once_and_later_appends_none() {
    let snapshot = sample_snapshot();
    let batch = vec![snapshot];
    // The file is absent: the needs-header condition holds.
    let wants_header = needs_header(false, 0);
    assert!(wants_header);
    let first = render_append(&batch, wants_header).unwrap();
    let header = encode_row(&header_fields());
    let lines: Vec<&str> = first.lines().collect();
    assert_eq!(lines.len(), 2);
    assert_eq!(lines[0], header);
    assert!(lines[1].starts_with("2024-02-08T12:00:00+00:00,AAPL,189.41,"));

    // The file now holds the first append: no second header.
    let wants_header_again = needs_header(true, first.len() as u64);
    assert!(!wants_header_again);
    let batch2 = vec![sample_snapshot()];
    let second = render_append(&batch2, wants_header_again).unwrap();
    let file = format!("{}{}", first, second);
    let header_count = file.lines().filter(|l| *l == header).count();
    assert_eq!(header_count, 1);
    assert_eq!(file.lines().count(), 3);
}

#[test]
fn snapshot_rows_keep_batch_order() {
    let mut a = sample_snapshot();
    a.ticker = "AAPL".to_string();
    let mut b = sample_snapshot();
    b.ticker = "GOOGL".to_string();
    let text = render_append(&vec![a, b], false).unwrap();
    let lines: Vec<&str> = text.lines().collect();
    assert_eq!(lines.len(), 2);
    assert!(lines[0].contains(",AAPL,"));
    assert!(lines[1].contains(",GOOGL,"));
}
