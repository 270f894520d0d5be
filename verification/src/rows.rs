//! CSV row text: which fields must be quoted, how a field is escaped, how a
//! comma-separated row is parsed back into its fields, and the proof that
//! parsing an encoded row recovers the fields exactly.

use vstd::prelude::*;
use vstd::string::StrSliceExecFns;
use vstd::string::StringExecFns;

verus! {

/// A character that forces a CSV field into quotes.
pub open spec fn is_special(c: char) -> bool {
    c == ',' || c == '"' || c == '\n' || c == '\r'
}

/// A field needs quoting when any of its characters is special.
pub open spec fn field_needs_quoting(s: Seq<char>) -> bool {
    exists|i: int| 0 <= i < s.len() && is_special(#[trigger] s[i])
}

/// The body of a quoted field: every double quote is doubled.
pub open spec fn escaped(s: Seq<char>) -> Seq<char>
    decreases s.len(),
{
    if s.len() == 0 {
        Seq::empty()
    } else {
        (if s[0] == '"' {
            seq!['"', '"']
        } else {
            seq![s[0]]
        }) + escaped(s.skip(1))
    }
}

/// A field as it stands in a row: quoted and escaped when needed, verbatim
/// otherwise.
pub open spec fn encoded_field(s: Seq<char>) -> Seq<char> {
    if field_needs_quoting(s) {
        seq!['"'] + escaped(s) + seq!['"']
    } else {
        s
    }
}

/// A row without its line terminator: the encoded fields joined by commas.
pub open spec fn encoded_row(fields: Seq<Seq<char>>) -> Seq<char>
    decreases fields.len(),
{
    if fields.len() == 0 {
        Seq::empty()
    } else if fields.len() == 1 {
        encoded_field(fields[0])
    } else {
        encoded_field(fields[0]) + seq![','] + encoded_row(fields.skip(1))
    }
}

/// The views of a vector of field strings.
pub open spec fn views_of(fields: Seq<String>) -> Seq<Seq<char>> {
    fields.map_values(|s: String| s@)
}

/// Reads the body of a quoted field, the input starting just after the
/// opening quote: a doubled quote stands for one quote character, a lone
/// quote closes the field, and an unterminated body fails. Returns the
/// field text and the input left after the closing quote.
pub open spec fn scan_quoted(s: Seq<char>) -> Option<(Seq<char>, Seq<char>)>
    decreases s.len(),
{
    if s.len() == 0 {
        None
    } else if s[0] == '"' {
        if s.len() >= 2 && s[1] == '"' {
            match scan_quoted(s.skip(2)) {
                Some(p) => Some((seq!['"'] + p.0, p.1)),
                None => None,
            }
        } else {
            Some((Seq::empty(), s.skip(1)))
        }
    } else {
        match scan_quoted(s.skip(1)) {
            Some(p) => Some((seq![s[0]] + p.0, p.1)),
            None => None,
        }
    }
}

/// The input up to the first comma.
pub open spec fn unquoted_prefix(s: Seq<char>) -> Seq<char>
    decreases s.len(),
{
    if s.len() == 0 || s[0] == ',' {
        Seq::empty()
    } else {
        seq![s[0]] + unquoted_prefix(s.skip(1))
    }
}

/// One field read from the front of the input: a quoted field when the
/// input opens with a quote, otherwise the text up to the first comma,
/// which must hold no special character. Returns the field and what is
/// left after it.
pub open spec fn parsed_field(s: Seq<char>) -> Option<(Seq<char>, Seq<char>)> {
    if s.len() > 0 && s[0] == '"' {
        scan_quoted(s.skip(1))
    } else {
        let f = unquoted_prefix(s);
        if field_needs_quoting(f) {
            None
        } else {
            Some((f, s.skip(f.len() as int)))
        }
    }
}

proof fn lemma_scan_quoted_rest(s: Seq<char>)
    ensures
        scan_quoted(s) matches Some(p) ==> p.1.len() < s.len(),
    decreases s.len(),
{
    if s.len() == 0 {
    } else if s[0] == '"' {
        if s.len() >= 2 && s[1] == '"' {
            lemma_scan_quoted_rest(s.skip(2));
        }
    } else {
        lemma_scan_quoted_rest(s.skip(1));
    }
}

proof fn lemma_unquoted_prefix_len(s: Seq<char>)
    ensures
        unquoted_prefix(s).len() <= s.len(),
    decreases s.len(),
{
    if s.len() == 0 || s[0] == ',' {
    } else {
        lemma_unquoted_prefix_len(s.skip(1));
    }
}

/// A field never reads past the input.
proof fn lemma_parsed_field_rest(s: Seq<char>)
    ensures
        parsed_field(s) matches Some(p) ==> p.1.len() <= s.len(),
{
    if s.len() > 0 && s[0] == '"' {
        lemma_scan_quoted_rest(s.skip(1));
    } else {
        lemma_unquoted_prefix_len(s);
    }
}

/// A whole row split into its fields: fields separated by commas, read to
/// the end of the input. Malformed input gives nothing.
pub open spec fn parsed_row(s: Seq<char>) -> Option<Seq<Seq<char>>>
    decreases s.len(),
    via parsed_row_decreases
{
    match parsed_field(s) {
        None => None,
        Some(p) => {
            if p.1.len() == 0 {
                Some(seq![p.0])
            } else if p.1[0] == ',' {
                match parsed_row(p.1.skip(1)) {
                    Some(rest) => Some(seq![p.0] + rest),
                    None => None,
                }
            } else {
                None
            }
        },
    }
}

#[via_fn]
proof fn parsed_row_decreases(s: Seq<char>) {
    lemma_parsed_field_rest(s);
}

/// Escaping distributes over concatenation.
pub proof fn lemma_escaped_append(a: Seq<char>, b: Seq<char>)
    ensures
        escaped(a + b) == escaped(a) + escaped(b),
    decreases a.len(),
{
    if a.len() == 0 {
        assert(a + b =~= b);
        assert(escaped(a) + escaped(b) =~= escaped(b));
    } else {
        lemma_escaped_append(a.skip(1), b);
        assert((a + b)[0] == a[0]);
        assert((a + b).skip(1) =~= a.skip(1) + b);
        let head = if a[0] == '"' {
            seq!['"', '"']
        } else {
            seq![a[0]]
        };
        assert(escaped(a + b) =~= head + (escaped(a.skip(1)) + escaped(b)));
        assert(escaped(a) + escaped(b) =~= head + (escaped(a.skip(1)) + escaped(b)));
    }
}

/// Reading a quoted body undoes escaping: the escaped text, a closing
/// quote and any continuation that does not open with a quote scan back to
/// the original text and the continuation.
pub proof fn lemma_scan_escaped(s: Seq<char>, rest: Seq<char>)
    requires
        rest.len() == 0 || rest[0] != '"',
    ensures
        scan_quoted(escaped(s) + seq!['"'] + rest) == Some((s, rest)),
    decreases s.len(),
{
    let t = escaped(s) + seq!['"'] + rest;
    if s.len() == 0 {
        assert(t =~= seq!['"'] + rest);
        assert(t[0] == '"');
        assert(!(t.len() >= 2 && t[1] == '"'));
        assert(t.skip(1) =~= rest);
    } else if s[0] == '"' {
        lemma_scan_escaped(s.skip(1), rest);
        assert(escaped(s) =~= seq!['"', '"'] + escaped(s.skip(1)));
        assert(t =~= seq!['"', '"'] + (escaped(s.skip(1)) + seq!['"'] + rest));
        assert(t.len() >= 2 && t[0] == '"' && t[1] == '"');
        assert(t.skip(2) =~= escaped(s.skip(1)) + seq!['"'] + rest);
        assert(seq!['"'] + s.skip(1) =~= s);
    } else {
        lemma_scan_escaped(s.skip(1), rest);
        assert(escaped(s) =~= seq![s[0]] + escaped(s.skip(1)));
        assert(t =~= seq![s[0]] + (escaped(s.skip(1)) + seq!['"'] + rest));
        assert(t[0] == s[0] && t[0] != '"' && t.len() > 0);
        assert(t.skip(1) =~= escaped(s.skip(1)) + seq!['"'] + rest);
        assert(seq![s[0]] + s.skip(1) =~= s);
    }
}

/// The unquoted prefix of an input whose first comma stands at `m`.
proof fn lemma_unquoted_of(t: Seq<char>, m: int)
    requires
        0 <= m <= t.len(),
        forall|j: int| 0 <= j < m ==> t[j] != ',',
        m == t.len() || t[m] == ',',
    ensures
        unquoted_prefix(t) == t.take(m),
    decreases m,
{
    if m == 0 {
        assert(t.take(0) =~= Seq::<char>::empty());
        if t.len() != 0 {
            assert(t[0] == ',');
        }
    } else {
        assert(t[0] != ',');
        lemma_unquoted_of(t.skip(1), m - 1);
        assert(forall|j: int| 0 <= j < m - 1 ==> t.skip(1)[j] == t[j + 1]);
        assert(seq![t[0]] + t.skip(1).take(m - 1) =~= t.take(m));
    }
}

/// A field followed by a comma or by the end of the row parses back to
/// itself, leaving exactly the continuation.
pub proof fn lemma_parse_encoded_field(s: Seq<char>, rest: Seq<char>)
    requires
        rest.len() == 0 || rest[0] == ',',
    ensures
        parsed_field(encoded_field(s) + rest) == Some((s, rest)),
{
    let t = encoded_field(s) + rest;
    if field_needs_quoting(s) {
        assert(t =~= seq!['"'] + (escaped(s) + seq!['"'] + rest));
        assert(t[0] == '"' && t.len() > 0);
        assert(t.skip(1) =~= escaped(s) + seq!['"'] + rest);
        lemma_scan_escaped(s, rest);
    } else {
        assert(t =~= s + rest);
        assert(forall|j: int| 0 <= j < s.len() ==> t[j] == s[j]);
        assert(forall|j: int| 0 <= j < s.len() ==> !is_special(t[j]));
        if t.len() > 0 && t[0] == '"' {
            if s.len() > 0 {
                assert(is_special(s[0]));
                assert(false);
            } else {
                assert(t[0] == rest[0]);
                assert(false);
            }
        }
        lemma_unquoted_of(t, s.len() as int);
        assert(t.take(s.len() as int) =~= s);
        assert(t.skip(s.len() as int) =~= rest);
    }
}

/// Parsing inverts encoding: any nonempty field sequence is recovered
/// exactly from its encoded row.
pub proof fn lemma_parse_encoded_row(fields: Seq<Seq<char>>)
    requires
        fields.len() >= 1,
    ensures
        parsed_row(encoded_row(fields)) == Some(fields),
    decreases fields.len(),
{
    if fields.len() == 1 {
        let t = encoded_row(fields);
        assert(t == encoded_field(fields[0]));
        lemma_parse_encoded_field(fields[0], Seq::empty());
        assert(encoded_field(fields[0]) + Seq::<char>::empty() =~= t);
        assert(parsed_field(t) == Some((fields[0], Seq::<char>::empty())));
        assert(seq![fields[0]] =~= fields);
    } else {
        lemma_parse_encoded_row(fields.skip(1));
        let tail = encoded_row(fields.skip(1));
        let rest = seq![','] + tail;
        let t = encoded_row(fields);
        assert(t =~= encoded_field(fields[0]) + rest);
        assert(rest[0] == ',');
        lemma_parse_encoded_field(fields[0], rest);
        assert(parsed_field(t) == Some((fields[0], rest)));
        assert(rest.skip(1) =~= tail);
        assert(seq![fields[0]] + fields.skip(1) =~= fields);
    }
}

fn is_special_char(c: char) -> (b: bool)
    ensures
        b == is_special(c),
{
    c == ',' || c == '"' || c == '\n' || c == '\r'
}

/// Whether any character of the string forces quoting.
pub fn field_has_special(s: &str) -> (b: bool)
    ensures
        b == field_needs_quoting(s@),
{
    let n = s.unicode_len();
    let mut i: usize = 0;
    let mut found = false;
    while i < n
        invariant
            i <= n,
            n == s@.len(),
            found == exists|j: int| 0 <= j < i && is_special(#[trigger] s@[j]),
        decreases n - i,
    {
        let c = s.get_char(i);
        if is_special_char(c) {
            found = true;
        }
        i = i + 1;
    }
    found
}

/// Encodes one field: verbatim when safe, quoted with doubled quotes when
/// it holds a special character.
pub fn encode_field(s: &str) -> (r: String)
    ensures
        r@ == encoded_field(s@),
{
    if !field_has_special(s) {
        return s.to_owned();
    }
    let n = s.unicode_len();
    let mut r = String::new();
    proof {
        reveal_strlit("\"");
        reveal_strlit("\"\"");
    }
    r.append("\"");
    let mut i: usize = 0;
    while i < n
        invariant
            n == s@.len(),
            i <= n,
            r@ =~= seq!['"'] + escaped(s@.take(i as int)),
            "\""@ =~= seq!['"'],
            "\"\""@ =~= seq!['"', '"'],
        decreases n - i,
    {
        let ghost pre = s@.take(i as int);
        proof {
            assert(s@.take(i + 1) =~= pre + seq![s@[i as int]]);
            lemma_escaped_append(pre, seq![s@[i as int]]);
            reveal_with_fuel(escaped, 2);
            assert(seq![s@[i as int]].len() == 1 && seq![s@[i as int]][0] == s@[i as int]);
            assert(seq![s@[i as int]].skip(1) =~= Seq::<char>::empty());
            assert(seq!['"', '"'] + Seq::<char>::empty() =~= seq!['"', '"']);
            assert(seq![s@[i as int]] + Seq::<char>::empty() =~= seq![s@[i as int]]);
            assert(escaped(seq![s@[i as int]]) =~= (if s@[i as int] == '"' {
                seq!['"', '"']
            } else {
                seq![s@[i as int]]
            }));
        }
        let c = s.get_char(i);
        if c == '"' {
            r.append("\"\"");
        } else {
            let piece = s.substring_char(i, i + 1);
            proof {
                assert(s@.subrange(i as int, i + 1) =~= seq![s@[i as int]]);
            }
            r.append(piece);
        }
        i = i + 1;
        proof {
            assert(r@ =~= seq!['"'] + escaped(s@.take(i as int)));
        }
    }
    r.append("\"");
    proof {
        assert(s@.take(n as int) =~= s@);
        assert(r@ =~= seq!['"'] + escaped(s@) + seq!['"']);
    }
    r
}

/// Appending one more field to a joined row.
proof fn lemma_encoded_row_push(a: Seq<Seq<char>>, x: Seq<char>)
    requires
        a.len() >= 1,
    ensures
        encoded_row(a.push(x)) == encoded_row(a) + seq![','] + encoded_field(x),
    decreases a.len(),
{
    if a.len() == 1 {
        assert(a.push(x).skip(1) =~= seq![x]);
        assert(a.push(x)[0] == a[0]);
        assert(encoded_row(seq![x]) == encoded_field(x));
    } else {
        lemma_encoded_row_push(a.skip(1), x);
        assert(a.push(x).skip(1) =~= a.skip(1).push(x));
        assert(a.push(x)[0] == a[0]);
        assert(encoded_field(a[0]) + seq![','] + (encoded_row(a.skip(1)) + seq![',']
            + encoded_field(x)) =~= (encoded_field(a[0]) + seq![','] + encoded_row(a.skip(1)))
            + seq![','] + encoded_field(x));
    }
}

/// Encodes a whole row: the fields, each encoded, joined by commas.
pub fn encode_row(fields: &Vec<String>) -> (r: String)
    ensures
        r@ == encoded_row(views_of(fields@)),
{
    let ghost vs = views_of(fields@);
    let mut r = String::new();
    let n = fields.len();
    proof {
        reveal_strlit(",");
    }
    let mut i: usize = 0;
    while i < n
        invariant
            n == fields@.len(),
            i <= n,
            vs == views_of(fields@),
            vs.len() == n,
            i == 0 ==> r@ =~= Seq::<char>::empty(),
            i >= 1 ==> r@ =~= encoded_row(vs.take(i as int)),
            ","@ =~= seq![','],
        decreases n - i,
    {
        if i > 0 {
            r.append(",");
        }
        let piece = encode_field(fields[i].as_str());
        proof {
            assert(vs[i as int] == fields@[i as int]@);
        }
        r.append(piece.as_str());
        proof {
            if i == 0 {
                assert(vs.take(1) =~= seq![vs[0]]);
                assert(encoded_row(seq![vs[0]]) == encoded_field(vs[0]));
            } else {
                assert(vs.take(i as int).push(vs[i as int]) =~= vs.take(i + 1));
                lemma_encoded_row_push(vs.take(i as int), vs[i as int]);
            }
        }
        i = i + 1;
        proof {
            assert(r@ =~= encoded_row(vs.take(i as int)));
        }
    }
    proof {
        if n == 0 {
            assert(encoded_row(vs) =~= Seq::<char>::empty());
        } else {
            assert(vs.take(n as int) =~= vs);
        }
    }
    r
}

spec fn prepend_scan(a: Seq<char>, o: Option<(Seq<char>, Seq<char>)>) -> Option<
    (Seq<char>, Seq<char>),
> {
    match o {
        Some(p) => Some((a + p.0, p.1)),
        None => None,
    }
}

proof fn lemma_prepend_scan_compose(a: Seq<char>, b: Seq<char>, o: Option<(Seq<char>, Seq<char>)>)
    ensures
        prepend_scan(a, prepend_scan(b, o)) == prepend_scan(a + b, o),
{
    match o {
        Some(p) => {
            assert(a + (b + p.0) =~= (a + b) + p.0);
        },
        None => {},
    }
}

proof fn lemma_scan_unfold_pair(t: Seq<char>)
    requires
        t.len() >= 2,
        t[0] == '"',
        t[1] == '"',
    ensures
        scan_quoted(t) == prepend_scan(seq!['"'], scan_quoted(t.skip(2))),
{
    match scan_quoted(t.skip(2)) {
        Some(p) => {},
        None => {},
    }
}

proof fn lemma_scan_unfold_char(t: Seq<char>)
    requires
        t.len() >= 1,
        t[0] != '"',
    ensures
        scan_quoted(t) == prepend_scan(seq![t[0]], scan_quoted(t.skip(1))),
{
    match scan_quoted(t.skip(1)) {
        Some(p) => {},
        None => {},
    }
}

/// Reads one field of the input from the given position. On success hands
/// back the field and the position just after it; fails exactly where the
/// field grammar does.
fn parse_field_at(s: &str, from: usize) -> (r: Option<(String, usize)>)
    requires
        from <= s@.len(),
    ensures
        r is None ==> parsed_field(s@.skip(from as int)) is None,
        r matches Some(p) ==> {
            &&& from <= p.1 <= s@.len()
            &&& parsed_field(s@.skip(from as int)) == Some((p.0@, s@.skip(p.1 as int)))
        },
{
    let n = s.unicode_len();
    proof {
        reveal_strlit("\"");
    }
    if from < n && s.get_char(from) == '"' {
        proof {
            assert(s@.skip(from as int)[0] == s@[from as int]);
            assert(s@.skip(from as int).skip(1) =~= s@.skip(from + 1));
        }
        let mut acc = String::new();
        let mut k: usize = from + 1;
        proof {
            match scan_quoted(s@.skip(from + 1)) {
                Some(p) => {
                    assert(Seq::<char>::empty() + p.0 =~= p.0);
                },
                None => {},
            }
        }
        loop
            invariant
                from + 1 <= k <= n,
                n == s@.len(),
                from < n,
                s@[from as int] == '"',
                "\""@ =~= seq!['"'],
                scan_quoted(s@.skip(from + 1)) == prepend_scan(
                    acc@,
                    scan_quoted(s@.skip(k as int)),
                ),
            decreases n - k,
        {
            if k == n {
                proof {
                    assert(s@.skip(k as int) =~= Seq::<char>::empty());
                    assert(s@.skip(from as int)[0] == s@[from as int]);
                    assert(s@.skip(from as int).len() > 0);
                    assert(s@.skip(from as int).skip(1) =~= s@.skip(from + 1));
                }
                return None;
            }
            let ghost t = s@.skip(k as int);
            proof {
                assert(t.len() == n - k);
                assert(t[0] == s@[k as int]);
            }
            let c = s.get_char(k);
            if c == '"' {
                if k + 1 < n && s.get_char(k + 1) == '"' {
                    let ghost old_acc = acc@;
                    proof {
                        assert(t[1] == s@[k + 1]);
                        assert(t.skip(2) =~= s@.skip(k + 2));
                        lemma_scan_unfold_pair(t);
                        lemma_prepend_scan_compose(
                            old_acc,
                            seq!['"'],
                            scan_quoted(s@.skip(k + 2)),
                        );
                    }
                    acc.append("\"");
                    k = k + 2;
                } else {
                    proof {
                        if t.len() >= 2 {
                            assert(t[1] == s@[k + 1]);
                        }
                        assert(!(t.len() >= 2 && t[1] == '"'));
                        assert(t.skip(1) =~= s@.skip(k + 1));
                        assert(scan_quoted(t) == Some(
                            (Seq::<char>::empty(), s@.skip(k + 1)),
                        ));
                        assert(acc@ + Seq::<char>::empty() =~= acc@);
                        assert(s@.skip(from as int)[0] == s@[from as int]);
                        assert(s@.skip(from as int).len() > 0);
                        assert(s@.skip(from as int).skip(1) =~= s@.skip(from + 1));
                    }
                    return Some((acc, k + 1));
                }
            } else {
                let piece = s.substring_char(k, k + 1);
                let ghost old_acc = acc@;
                proof {
                    assert(t.skip(1) =~= s@.skip(k + 1));
                    lemma_scan_unfold_char(t);
                    lemma_prepend_scan_compose(old_acc, seq![t[0]], scan_quoted(s@.skip(k + 1)));
                    assert(s@.subrange(k as int, k + 1) =~= seq![t[0]]);
                }
                acc.append(piece);
                k = k + 1;
            }
        }
    } else {
        let mut k: usize = from;
        while k < n && s.get_char(k) != ','
            invariant
                from <= k <= n,
                n == s@.len(),
                forall|j: int| from <= j < k ==> s@[j] != ',',
            decreases n - k,
        {
            k = k + 1;
        }
        let f = s.substring_char(from, k);
        proof {
            let t = s@.skip(from as int);
            assert(forall|j: int| 0 <= j < k - from ==> t[j] == s@[j + from]);
            if (k as int) - (from as int) < t.len() {
                assert(t[k - from] == s@[k as int]);
            }
            lemma_unquoted_of(t, k - from);
            assert(t.take(k - from) =~= s@.subrange(from as int, k as int));
        }
        if field_has_special(f) {
            return None;
        }
        proof {
            let t = s@.skip(from as int);
            assert(t.skip(k - from) =~= s@.skip(k as int));
        }
        Some((f.to_owned(), k))
    }
}

spec fn prepend_row(a: Seq<Seq<char>>, o: Option<Seq<Seq<char>>>) -> Option<Seq<Seq<char>>> {
    match o {
        Some(fs) => Some(a + fs),
        None => None,
    }
}

proof fn lemma_prepend_row_compose(a: Seq<Seq<char>>, b: Seq<Seq<char>>, o: Option<Seq<Seq<char>>>)
    ensures
        prepend_row(a, prepend_row(b, o)) == prepend_row(a + b, o),
{
    match o {
        Some(fs) => {
            assert(a + (b + fs) =~= (a + b) + fs);
        },
        None => {},
    }
}

/// Splits one row, without its line terminator, into its fields. Succeeds
/// exactly on well-formed rows, recovering each field's text.
pub fn parse_row(s: &str) -> (r: Option<Vec<String>>)
    ensures
        r is None ==> parsed_row(s@) is None,
        r matches Some(fields) ==> parsed_row(s@) == Some(views_of(fields@)),
{
    let n = s.unicode_len();
    let mut fields: Vec<String> = Vec::new();
    let mut pos: usize = 0;
    proof {
        assert(s@.skip(0) =~= s@);
        match parsed_row(s@) {
            Some(fs) => {
                assert(views_of(Seq::<String>::empty()) + fs =~= fs);
            },
            None => {},
        }
        assert(views_of(Seq::<String>::empty()) =~= Seq::<Seq<char>>::empty());
    }
    loop
        invariant
            pos <= n,
            n == s@.len(),
            parsed_row(s@) == prepend_row(views_of(fields@), parsed_row(s@.skip(pos as int))),
        decreases n - pos,
    {
        let ghost t = s@.skip(pos as int);
        match parse_field_at(s, pos) {
            None => {
                return None;
            },
            Some((f, j)) => {
                proof {
                    assert(parsed_field(t) == Some((f@, s@.skip(j as int))));
                }
                if j == n {
                    proof {
                        assert(s@.skip(j as int) =~= Seq::<char>::empty());
                        assert(parsed_row(t) == Some(seq![f@]));
                        assert(views_of(fields@.push(f)) =~= views_of(fields@) + seq![f@]);
                        assert(views_of(fields@) + seq![f@] =~= views_of(fields@.push(f)));
                    }
                    fields.push(f);
                    return Some(fields);
                }
                let c = s.get_char(j);
                if c == ',' {
                    let ghost rest = s@.skip(j as int);
                    proof {
                        assert(rest[0] == s@[j as int]);
                        assert(rest.len() > 0);
                        assert(rest.skip(1) =~= s@.skip(j + 1));
                        match parsed_row(rest.skip(1)) {
                            Some(fs) => {
                                assert(parsed_row(t) == Some(seq![f@] + fs));
                            },
                            None => {
                                assert(parsed_row(t) is None);
                            },
                        }
                        assert(parsed_row(t) == prepend_row(
                            seq![f@],
                            parsed_row(s@.skip(j + 1)),
                        ));
                        lemma_prepend_row_compose(
                            views_of(fields@),
                            seq![f@],
                            parsed_row(s@.skip(j + 1)),
                        );
                        assert(views_of(fields@) + seq![f@] =~= views_of(fields@.push(f)));
                    }
                    fields.push(f);
                    pos = j + 1;
                } else {
                    proof {
                        let rest = s@.skip(j as int);
                        assert(rest[0] == s@[j as int]);
                        assert(rest.len() > 0 && rest[0] != ',');
                        assert(parsed_row(t) is None);
                    }
                    return None;
                }
            },
        }
    }
}

} // verus!
