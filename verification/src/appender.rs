//! Rendering a batch of snapshots as append-safe CSV text: a fixed column
//! order, a header row owed only to an absent or empty file, and one data
//! row per snapshot in batch order.

use vstd::prelude::*;
use vstd::string::StringExecFns;
use crate::digits::{all_digits, dec_digits, dec_int, dec_val, format_i64, format_u64,
    is_signed_digits, lemma_dec_digits_val, lemma_dec_int_val, parse_i64, parse_u64, signed_val};
use crate::rows::{encode_row, encoded_row, lemma_parse_encoded_row, parsed_row, views_of};
use crate::snapshot::Snapshot;

verus! {

/// The fixed column names, in the one order every row uses.
pub open spec fn header_texts() -> Seq<Seq<char>> {
    seq![
        "timestamp"@,
        "ticker"@,
        "price"@,
        "market_cap"@,
        "shares_outstanding"@,
        "float_shares"@,
        "trailing_pe"@,
        "forward_pe"@,
        "trailing_eps"@,
        "forward_eps"@,
        "dividend_yield"@,
        "ex_dividend_date"@,
        "target_mean_price"@,
        "recommendation_mean"@,
        "beta"@,
        "held_percent_insiders"@,
        "held_percent_institutions"@,
    ]
}

/// The field texts of one snapshot, in the fixed column order: the text
/// metrics verbatim, the integral metrics in decimal.
pub open spec fn field_texts(s: Snapshot) -> Seq<Seq<char>> {
    seq![
        s.timestamp@,
        s.ticker@,
        s.price@,
        dec_digits(s.market_cap as nat),
        dec_digits(s.shares_outstanding as nat),
        dec_digits(s.float_shares as nat),
        s.trailing_pe@,
        s.forward_pe@,
        s.trailing_eps@,
        s.forward_eps@,
        s.dividend_yield@,
        dec_int(s.ex_dividend_date as int),
        s.target_mean_price@,
        s.recommendation_mean@,
        s.beta@,
        s.held_percent_insiders@,
        s.held_percent_institutions@,
    ]
}

/// One row as written to the file: the encoded fields and a line feed.
pub open spec fn row_text(fields: Seq<Seq<char>>) -> Seq<char> {
    encoded_row(fields) + seq!['\n']
}

/// The header row as written to the file.
pub open spec fn header_text() -> Seq<char> {
    row_text(header_texts())
}

/// The data rows of a batch, in batch order.
pub open spec fn rows_text(snaps: Seq<Snapshot>) -> Seq<char>
    decreases snaps.len(),
{
    if snaps.len() == 0 {
        Seq::empty()
    } else {
        row_text(field_texts(snaps[0])) + rows_text(snaps.skip(1))
    }
}

/// The column names, as strings for one header row.
pub fn header_fields() -> (r: Vec<String>)
    ensures
        views_of(r@) == header_texts(),
{
    let mut v: Vec<String> = Vec::new();
    v.push("timestamp".to_owned());
    v.push("ticker".to_owned());
    v.push("price".to_owned());
    v.push("market_cap".to_owned());
    v.push("shares_outstanding".to_owned());
    v.push("float_shares".to_owned());
    v.push("trailing_pe".to_owned());
    v.push("forward_pe".to_owned());
    v.push("trailing_eps".to_owned());
    v.push("forward_eps".to_owned());
    v.push("dividend_yield".to_owned());
    v.push("ex_dividend_date".to_owned());
    v.push("target_mean_price".to_owned());
    v.push("recommendation_mean".to_owned());
    v.push("beta".to_owned());
    v.push("held_percent_insiders".to_owned());
    v.push("held_percent_institutions".to_owned());
    proof {
        assert(views_of(v@) =~= header_texts());
    }
    v
}

/// The field strings of one snapshot, in the fixed column order.
pub fn snapshot_fields(s: &Snapshot) -> (r: Vec<String>)
    ensures
        views_of(r@) == field_texts(*s),
{
    let mut v: Vec<String> = Vec::new();
    v.push(s.timestamp.clone());
    v.push(s.ticker.clone());
    v.push(s.price.clone());
    v.push(format_u64(s.market_cap));
    v.push(format_u64(s.shares_outstanding));
    v.push(format_u64(s.float_shares));
    v.push(s.trailing_pe.clone());
    v.push(s.forward_pe.clone());
    v.push(s.trailing_eps.clone());
    v.push(s.forward_eps.clone());
    v.push(s.dividend_yield.clone());
    v.push(format_i64(s.ex_dividend_date));
    v.push(s.target_mean_price.clone());
    v.push(s.recommendation_mean.clone());
    v.push(s.beta.clone());
    v.push(s.held_percent_insiders.clone());
    v.push(s.held_percent_institutions.clone());
    proof {
        assert(views_of(v@) =~= field_texts(*s));
    }
    v
}

/// The needs-header condition: the target file is absent or empty.
pub fn needs_header(file_exists: bool, file_len: u64) -> (r: bool)
    ensures
        r == (!file_exists || file_len == 0),
{
    !file_exists || file_len == 0
}

/// Appends one row, terminated by a line feed.
fn append_row(out: &mut String, fields: &Vec<String>)
    ensures
        final(out)@ == old(out)@ + row_text(views_of(fields@)),
{
    let piece = encode_row(fields);
    out.append(piece.as_str());
    proof {
        reveal_strlit("\n");
    }
    out.append("\n");
    proof {
        assert(out@ =~= old(out)@ + (encoded_row(views_of(fields@)) + seq!['\n']));
    }
}

/// One more data row at the end of a batch's text.
proof fn lemma_rows_text_push(a: Seq<Snapshot>, x: Snapshot)
    ensures
        rows_text(a.push(x)) == rows_text(a) + row_text(field_texts(x)),
    decreases a.len(),
{
    if a.len() == 0 {
        reveal_with_fuel(rows_text, 2);
        assert(a.push(x)[0] == x);
        assert(a.push(x).skip(1) =~= Seq::<Snapshot>::empty());
        assert(row_text(field_texts(x)) + Seq::<char>::empty() =~= row_text(field_texts(x)));
        assert(rows_text(a) + row_text(field_texts(x)) =~= row_text(field_texts(x)));
    } else {
        lemma_rows_text_push(a.skip(1), x);
        assert(a.push(x)[0] == a[0]);
        assert(a.push(x).skip(1) =~= a.skip(1).push(x));
        assert(row_text(field_texts(a[0])) + (rows_text(a.skip(1)) + row_text(field_texts(x)))
            =~= (row_text(field_texts(a[0])) + rows_text(a.skip(1))) + row_text(field_texts(x)));
    }
}

/// A batch's text splits at any division of the batch.
pub proof fn lemma_rows_text_append(a: Seq<Snapshot>, b: Seq<Snapshot>)
    ensures
        rows_text(a + b) == rows_text(a) + rows_text(b),
    decreases a.len(),
{
    if a.len() == 0 {
        assert(a + b =~= b);
        assert(rows_text(a) + rows_text(b) =~= rows_text(b));
    } else {
        lemma_rows_text_append(a.skip(1), b);
        assert((a + b)[0] == a[0]);
        assert((a + b).skip(1) =~= a.skip(1) + b);
        assert(row_text(field_texts(a[0])) + (rows_text(a.skip(1)) + rows_text(b)) =~= (row_text(
            field_texts(a[0]),
        ) + rows_text(a.skip(1))) + rows_text(b));
    }
}

/// The text one append operation adds to the file: nothing at all for an
/// empty batch — an empty batch must touch no file — otherwise the header
/// row exactly when the caller's needs-header condition holds, followed by
/// one data row per snapshot, in batch order.
pub fn render_append(snapshots: &Vec<Snapshot>, include_header: bool) -> (r: Option<String>)
    ensures
        snapshots@.len() == 0 <==> r is None,
        r matches Some(text) ==> text@ == (if include_header {
            header_text()
        } else {
            Seq::<char>::empty()
        }) + rows_text(snapshots@),
{
    if snapshots.len() == 0 {
        return None;
    }
    let ghost prefix: Seq<char> = if include_header {
        header_text()
    } else {
        Seq::empty()
    };
    let mut out = String::new();
    if include_header {
        let header = header_fields();
        append_row(&mut out, &header);
    }
    proof {
        assert(out@ =~= prefix);
    }
    let n = snapshots.len();
    let mut i: usize = 0;
    proof {
        assert(snapshots@.take(0) =~= Seq::<Snapshot>::empty());
        assert(out@ + Seq::<char>::empty() =~= out@);
    }
    while i < n
        invariant
            n == snapshots@.len(),
            i <= n,
            out@ == prefix + rows_text(snapshots@.take(i as int)),
        decreases n - i,
    {
        let fields = snapshot_fields(&snapshots[i]);
        append_row(&mut out, &fields);
        proof {
            assert(snapshots@.take(i as int).push(snapshots@[i as int]) =~= snapshots@.take(
                i + 1,
            ));
            lemma_rows_text_push(snapshots@.take(i as int), snapshots@[i as int]);
            assert((prefix + rows_text(snapshots@.take(i as int))) + row_text(
                field_texts(snapshots@[i as int]),
            ) =~= prefix + rows_text(snapshots@.take(i + 1)));
        }
        i = i + 1;
    }
    proof {
        assert(snapshots@.take(n as int) =~= snapshots@);
    }
    Some(out)
}

/// Header idempotence: the first append to an absent or empty file writes
/// the header row once and leaves the file nonempty, so the needs-header
/// condition is false for every later append; the text of the two appends
/// together is one header row followed by all data rows, in order.
pub proof fn lemma_header_written_once(first: Seq<Snapshot>, second: Seq<Snapshot>)
    ensures
        (header_text() + rows_text(first)).len() > 0,
        header_text() + rows_text(first) + rows_text(second) == header_text() + rows_text(
            first + second,
        ),
{
    lemma_rows_text_append(first, second);
    assert(header_text() + rows_text(first) + rows_text(second) =~= header_text() + (rows_text(
        first,
    ) + rows_text(second)));
}

/// When a row's parsed fields rebuild into a snapshot: seventeen fields,
/// with each integral text well formed and its value in range.
pub open spec fn fields_rebuild(fs: Seq<Seq<char>>) -> bool {
    &&& fs.len() == 17
    &&& fs[3].len() >= 1 && all_digits(fs[3]) && dec_val(fs[3]) <= u64::MAX
    &&& fs[4].len() >= 1 && all_digits(fs[4]) && dec_val(fs[4]) <= u64::MAX
    &&& fs[5].len() >= 1 && all_digits(fs[5]) && dec_val(fs[5]) <= u64::MAX
    &&& is_signed_digits(fs[11]) && i64::MIN <= signed_val(fs[11]) <= i64::MAX
}

/// Rebuilds a snapshot from the parsed fields of one row, in the fixed
/// column order. Succeeds exactly on seventeen fields whose integral texts
/// denote in-range values, and recovers every field value.
pub fn snapshot_from_fields(fields: &Vec<String>) -> (r: Option<Snapshot>)
    ensures
        r is Some <==> fields_rebuild(views_of(fields@)),
        r matches Some(s) ==> {
            let fs = views_of(fields@);
            &&& s.timestamp@ == fs[0]
            &&& s.ticker@ == fs[1]
            &&& s.price@ == fs[2]
            &&& s.market_cap == dec_val(fs[3])
            &&& s.shares_outstanding == dec_val(fs[4])
            &&& s.float_shares == dec_val(fs[5])
            &&& s.trailing_pe@ == fs[6]
            &&& s.forward_pe@ == fs[7]
            &&& s.trailing_eps@ == fs[8]
            &&& s.forward_eps@ == fs[9]
            &&& s.dividend_yield@ == fs[10]
            &&& s.ex_dividend_date == signed_val(fs[11])
            &&& s.target_mean_price@ == fs[12]
            &&& s.recommendation_mean@ == fs[13]
            &&& s.beta@ == fs[14]
            &&& s.held_percent_insiders@ == fs[15]
            &&& s.held_percent_institutions@ == fs[16]
        },
{
    if fields.len() != 17 {
        return None;
    }
    let market_cap = match parse_u64(fields[3].as_str()) {
        Some(v) => v,
        None => { return None },
    };
    let shares_outstanding = match parse_u64(fields[4].as_str()) {
        Some(v) => v,
        None => { return None },
    };
    let float_shares = match parse_u64(fields[5].as_str()) {
        Some(v) => v,
        None => { return None },
    };
    let ex_dividend_date = match parse_i64(fields[11].as_str()) {
        Some(v) => v,
        None => { return None },
    };
    Some(
        Snapshot {
            timestamp: fields[0].clone(),
            ticker: fields[1].clone(),
            price: fields[2].clone(),
            market_cap,
            shares_outstanding,
            float_shares,
            trailing_pe: fields[6].clone(),
            forward_pe: fields[7].clone(),
            trailing_eps: fields[8].clone(),
            forward_eps: fields[9].clone(),
            dividend_yield: fields[10].clone(),
            ex_dividend_date,
            target_mean_price: fields[12].clone(),
            recommendation_mean: fields[13].clone(),
            beta: fields[14].clone(),
            held_percent_insiders: fields[15].clone(),
            held_percent_institutions: fields[16].clone(),
        },
    )
}

/// Round trip: a snapshot's encoded row parses back to exactly its field
/// texts, those fields rebuild, and the decimal texts of the integral
/// metrics denote exactly their values — every field value is recovered
/// from the row.
pub proof fn lemma_snapshot_round_trip(s: Snapshot)
    ensures
        parsed_row(encoded_row(field_texts(s))) == Some(field_texts(s)),
        fields_rebuild(field_texts(s)),
        dec_val(field_texts(s)[3]) == s.market_cap,
        dec_val(field_texts(s)[4]) == s.shares_outstanding,
        dec_val(field_texts(s)[5]) == s.float_shares,
        signed_val(field_texts(s)[11]) == s.ex_dividend_date,
{
    lemma_parse_encoded_row(field_texts(s));
    lemma_dec_digits_val(s.market_cap as nat);
    lemma_dec_digits_val(s.shares_outstanding as nat);
    lemma_dec_digits_val(s.float_shares as nat);
    lemma_dec_int_val(s.ex_dividend_date as int);
}

} // verus!
