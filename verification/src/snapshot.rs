//! Shaping one provider payload into an immutable `Snapshot`.
//!
//! The provider hands back a quote summary holding five named sub-sections,
//! each optional, and inside them the individual metrics, each optional
//! again. A snapshot is built only when every sub-section and every required
//! metric is present; the first absence, in a fixed checking order, is the
//! reported fault. Metrics that the provider reports as floating-point
//! numbers are carried as their decimal text, exactly as handed in.

use vstd::prelude::*;

verus! {

/// The price and summary-detail sub-section of a quote summary.
pub struct SummaryDetail {
    pub market_cap: Option<u64>,
    pub ex_dividend_date: Option<i64>,
    pub trailing_pe: Option<String>,
    pub dividend_yield: Option<String>,
}

/// The key-statistics sub-section of a quote summary.
pub struct KeyStatistics {
    pub forward_pe: Option<String>,
    pub trailing_eps: Option<String>,
    pub forward_eps: Option<String>,
    pub beta: Option<String>,
    pub held_percent_insiders: Option<String>,
    pub held_percent_institutions: Option<String>,
    pub shares_outstanding: Option<u64>,
    pub float_shares: Option<u64>,
}

/// The financial-data sub-section of a quote summary.
pub struct FinancialData {
    pub current_price: Option<String>,
    pub target_mean_price: Option<String>,
    pub recommendation_mean: Option<String>,
}

/// One provider payload for one ticker. The asset-profile and quote-type
/// sub-sections must be present for a payload to count as complete, but no
/// field of theirs is read, so only their presence is carried.
pub struct QuoteSummary {
    pub asset_profile_present: bool,
    pub summary_detail: Option<SummaryDetail>,
    pub default_key_statistics: Option<KeyStatistics>,
    pub quote_type_present: bool,
    pub financial_data: Option<FinancialData>,
}

/// A sub-section of the provider payload, named for a missing-section fault.
#[derive(Clone, Copy, PartialEq, Eq, Structural, Debug)]
pub enum SectionName {
    AssetProfile,
    SummaryDetail,
    DefaultKeyStatistics,
    QuoteType,
    FinancialData,
}

/// A required metric, named for a missing-field fault.
#[derive(Clone, Copy, PartialEq, Eq, Structural, Debug)]
pub enum FieldName {
    Price,
    MarketCap,
    SharesOutstanding,
    FloatShares,
    TrailingPe,
    ForwardPe,
    TrailingEps,
    ForwardEps,
    DividendYield,
    ExDividendDate,
    TargetMeanPrice,
    RecommendationMean,
    Beta,
    HeldPercentInsiders,
    HeldPercentInstitutions,
}

/// Why a payload could not be shaped into a snapshot.
#[derive(Clone, Copy, PartialEq, Eq, Structural, Debug)]
pub enum SnapshotError {
    MissingSection(SectionName),
    MissingField(FieldName),
}

/// The first absent sub-section, in the fixed checking order.
pub open spec fn missing_section(q: QuoteSummary) -> Option<SectionName> {
    if !q.asset_profile_present {
        Some(SectionName::AssetProfile)
    } else if q.summary_detail is None {
        Some(SectionName::SummaryDetail)
    } else if q.default_key_statistics is None {
        Some(SectionName::DefaultKeyStatistics)
    } else if !q.quote_type_present {
        Some(SectionName::QuoteType)
    } else if q.financial_data is None {
        Some(SectionName::FinancialData)
    } else {
        None
    }
}

/// The first absent metric, in the fixed checking order, once every
/// sub-section is present.
pub open spec fn missing_field(q: QuoteSummary) -> Option<FieldName>
    recommends
        missing_section(q) is None,
{
    let sd = q.summary_detail.unwrap();
    let ks = q.default_key_statistics.unwrap();
    let fd = q.financial_data.unwrap();
    if fd.current_price is None {
        Some(FieldName::Price)
    } else if sd.market_cap is None {
        Some(FieldName::MarketCap)
    } else if ks.forward_pe is None {
        Some(FieldName::ForwardPe)
    } else if ks.trailing_eps is None {
        Some(FieldName::TrailingEps)
    } else if ks.forward_eps is None {
        Some(FieldName::ForwardEps)
    } else if ks.beta is None {
        Some(FieldName::Beta)
    } else if ks.held_percent_insiders is None {
        Some(FieldName::HeldPercentInsiders)
    } else if ks.held_percent_institutions is None {
        Some(FieldName::HeldPercentInstitutions)
    } else if ks.shares_outstanding is None {
        Some(FieldName::SharesOutstanding)
    } else if ks.float_shares is None {
        Some(FieldName::FloatShares)
    } else if sd.ex_dividend_date is None {
        Some(FieldName::ExDividendDate)
    } else if sd.trailing_pe is None {
        Some(FieldName::TrailingPe)
    } else if sd.dividend_yield is None {
        Some(FieldName::DividendYield)
    } else if fd.target_mean_price is None {
        Some(FieldName::TargetMeanPrice)
    } else if fd.recommendation_mean is None {
        Some(FieldName::RecommendationMean)
    } else {
        None
    }
}

/// The fault a payload would be rejected with, if any: a missing sub-section
/// first, the first missing metric after that.
pub open spec fn first_fault(q: QuoteSummary) -> Option<SnapshotError> {
    match missing_section(q) {
        Some(s) => Some(SnapshotError::MissingSection(s)),
        None => match missing_field(q) {
            Some(f) => Some(SnapshotError::MissingField(f)),
            None => None,
        },
    }
}

/// A payload is complete when every sub-section and every required metric is
/// present.
pub open spec fn complete(q: QuoteSummary) -> bool {
    first_fault(q) is None
}

/// One immutable record of a ticker's metrics at capture time. Metrics the
/// provider reports as floating-point numbers are held as their decimal
/// text; the integral metrics are held as integers.
#[derive(Debug)]
pub struct Snapshot {
    pub timestamp: String,
    pub ticker: String,
    pub price: String,
    pub market_cap: u64,
    pub shares_outstanding: u64,
    pub float_shares: u64,
    pub trailing_pe: String,
    pub forward_pe: String,
    pub trailing_eps: String,
    pub forward_eps: String,
    pub dividend_yield: String,
    pub ex_dividend_date: i64,
    pub target_mean_price: String,
    pub recommendation_mean: String,
    pub beta: String,
    pub held_percent_insiders: String,
    pub held_percent_institutions: String,
}

impl Snapshot {
    /// Every non-timestamp field equals the corresponding provider field
    /// exactly: no conversion, no rounding.
    pub open spec fn matches_data(self, ticker: Seq<char>, q: QuoteSummary) -> bool
        recommends
            complete(q),
    {
        let sd = q.summary_detail.unwrap();
        let ks = q.default_key_statistics.unwrap();
        let fd = q.financial_data.unwrap();
        &&& self.ticker@ == ticker
        &&& self.price@ == fd.current_price.unwrap()@
        &&& self.market_cap == sd.market_cap.unwrap()
        &&& self.shares_outstanding == ks.shares_outstanding.unwrap()
        &&& self.float_shares == ks.float_shares.unwrap()
        &&& self.trailing_pe@ == sd.trailing_pe.unwrap()@
        &&& self.forward_pe@ == ks.forward_pe.unwrap()@
        &&& self.trailing_eps@ == ks.trailing_eps.unwrap()@
        &&& self.forward_eps@ == ks.forward_eps.unwrap()@
        &&& self.dividend_yield@ == sd.dividend_yield.unwrap()@
        &&& self.ex_dividend_date == sd.ex_dividend_date.unwrap()
        &&& self.target_mean_price@ == fd.target_mean_price.unwrap()@
        &&& self.recommendation_mean@ == fd.recommendation_mean.unwrap()@
        &&& self.beta@ == ks.beta.unwrap()@
        &&& self.held_percent_insiders@ == ks.held_percent_insiders.unwrap()@
        &&& self.held_percent_institutions@ == ks.held_percent_institutions.unwrap()@
    }
}

/// Clones the string out of an optional metric, or names the missing field.
fn take_text(v: &Option<String>, f: FieldName) -> (r: Result<String, SnapshotError>)
    ensures
        v is Some ==> r is Ok && r.unwrap()@ == v.unwrap()@,
        v is None ==> r == Err::<String, SnapshotError>(SnapshotError::MissingField(f)),
{
    match v {
        Some(s) => Ok(s.clone()),
        None => Err(SnapshotError::MissingField(f)),
    }
}

/// Shapes one payload into a snapshot stamped with the given capture time.
///
/// Succeeds exactly on complete payloads, copying every metric verbatim;
/// on an incomplete payload it reports the first fault in the fixed
/// checking order.
pub fn build_snapshot_at(ticker: &str, timestamp: String, q: &QuoteSummary) -> (r: Result<
    Snapshot,
    SnapshotError,
>)
    ensures
        complete(*q) ==> {
            &&& r is Ok
            &&& r.unwrap().matches_data(ticker@, *q)
            &&& r.unwrap().timestamp@ == timestamp@
        },
        !complete(*q) ==> r == Err::<Snapshot, SnapshotError>(first_fault(*q).unwrap()),
{
    if !q.asset_profile_present {
        return Err(SnapshotError::MissingSection(SectionName::AssetProfile));
    }
    let sd = match &q.summary_detail {
        Some(sd) => sd,
        None => { return Err(SnapshotError::MissingSection(SectionName::SummaryDetail)) },
    };
    let ks = match &q.default_key_statistics {
        Some(ks) => ks,
        None => { return Err(SnapshotError::MissingSection(SectionName::DefaultKeyStatistics)) },
    };
    if !q.quote_type_present {
        return Err(SnapshotError::MissingSection(SectionName::QuoteType));
    }
    let fd = match &q.financial_data {
        Some(fd) => fd,
        None => { return Err(SnapshotError::MissingSection(SectionName::FinancialData)) },
    };
    let price = match take_text(&fd.current_price, FieldName::Price) {
        Ok(s) => s,
        Err(e) => { return Err(e) },
    };
    let market_cap = match &sd.market_cap {
        Some(v) => *v,
        None => { return Err(SnapshotError::MissingField(FieldName::MarketCap)) },
    };
    let forward_pe = match take_text(&ks.forward_pe, FieldName::ForwardPe) {
        Ok(s) => s,
        Err(e) => { return Err(e) },
    };
    let trailing_eps = match take_text(&ks.trailing_eps, FieldName::TrailingEps) {
        Ok(s) => s,
        Err(e) => { return Err(e) },
    };
    let forward_eps = match take_text(&ks.forward_eps, FieldName::ForwardEps) {
        Ok(s) => s,
        Err(e) => { return Err(e) },
    };
    let beta = match take_text(&ks.beta, FieldName::Beta) {
        Ok(s) => s,
        Err(e) => { return Err(e) },
    };
    let held_percent_insiders = match take_text(
        &ks.held_percent_insiders,
        FieldName::HeldPercentInsiders,
    ) {
        Ok(s) => s,
        Err(e) => { return Err(e) },
    };
    let held_percent_institutions = match take_text(
        &ks.held_percent_institutions,
        FieldName::HeldPercentInstitutions,
    ) {
        Ok(s) => s,
        Err(e) => { return Err(e) },
    };
    let shares_outstanding = match &ks.shares_outstanding {
        Some(v) => *v,
        None => { return Err(SnapshotError::MissingField(FieldName::SharesOutstanding)) },
    };
    let float_shares = match &ks.float_shares {
        Some(v) => *v,
        None => { return Err(SnapshotError::MissingField(FieldName::FloatShares)) },
    };
    let ex_dividend_date = match &sd.ex_dividend_date {
        Some(v) => *v,
        None => { return Err(SnapshotError::MissingField(FieldName::ExDividendDate)) },
    };
    let trailing_pe = match take_text(&sd.trailing_pe, FieldName::TrailingPe) {
        Ok(s) => s,
        Err(e) => { return Err(e) },
    };
    let dividend_yield = match take_text(&sd.dividend_yield, FieldName::DividendYield) {
        Ok(s) => s,
        Err(e) => { return Err(e) },
    };
    let target_mean_price = match take_text(&fd.target_mean_price, FieldName::TargetMeanPrice) {
        Ok(s) => s,
        Err(e) => { return Err(e) },
    };
    let recommendation_mean = match take_text(
        &fd.recommendation_mean,
        FieldName::RecommendationMean,
    ) {
        Ok(s) => s,
        Err(e) => { return Err(e) },
    };
    Ok(
        Snapshot {
            timestamp,
            ticker: ticker.to_owned(),
            price,
            market_cap,
            shares_outstanding,
            float_shares,
            trailing_pe,
            forward_pe,
            trailing_eps,
            forward_eps,
            dividend_yield,
            ex_dividend_date,
            target_mean_price,
            recommendation_mean,
            beta,
            held_percent_insiders,
            held_percent_institutions,
        },
    )
}

/// Shapes one payload into a snapshot stamped with the current UTC time.
pub fn build_snapshot(ticker: &str, q: &QuoteSummary) -> (r: Result<Snapshot, SnapshotError>)
    ensures
        complete(*q) ==> {
            &&& r is Ok
            &&& r.unwrap().matches_data(ticker@, *q)
            &&& r.unwrap().timestamp@.len() > 0
            &&& !crate::rows::field_needs_quoting(r.unwrap().timestamp@)
        },
        !complete(*q) ==> r == Err::<Snapshot, SnapshotError>(first_fault(*q).unwrap()),
{
    let timestamp = crate::clock::now_rfc3339();
    build_snapshot_at(ticker, timestamp, q)
}

} // verus!
