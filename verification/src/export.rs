//! CSV export of the recorded history: one line per row, fields joined by
//! commas, text quoted only where it must be.
use vstd::prelude::*;
use vstd::string::StringExecFns;
use vstd::string::StrSliceExecFns;
use crate::text::{signed_decimal, decimal_i64};

verus! {

pub struct ExportReport {
    pub blocks: usize,
    pub transactions: usize,
    pub inputs: usize,
    pub outputs: usize,
    pub addresses: usize,
}

/// Whether a value needs quoting: it holds a comma, a quote or a newline.
pub open spec fn needs_quoting(s: Seq<char>) -> bool {
    exists|i: int| 0 <= i < s.len() && (s[i] == ',' || s[i] == '"' || s[i] == '\n')
}

/// One character inside a quoted field: a quote doubled, a newline as the
/// two characters `\n`, anything else as it is.
pub open spec fn escape_char(c: char) -> Seq<char> {
    if c == '"' {
        seq!['"', '"']
    } else if c == '\n' {
        seq!['\\', 'n']
    } else {
        seq![c]
    }
}

/// Every character escaped.
pub open spec fn escaped(s: Seq<char>) -> Seq<char>
    decreases s.len(),
{
    if s.len() == 0 {
        seq![]
    } else {
        escaped(s.drop_last()) + escape_char(s.last())
    }
}

/// A value as a CSV field: quoted where it must be, with its quotes doubled
/// and its newlines written as `\n`.
pub open spec fn csv_field(s: Seq<char>) -> Seq<char> {
    if needs_quoting(s) { seq!['"'] + escaped(s) + seq!['"'] } else { s }
}

proof fn lemma_escaped_split(a: Seq<char>, b: Seq<char>)
    ensures
        escaped(a + b) == escaped(a) + escaped(b),
    decreases b.len(),
{
    if b.len() == 0 {
        assert(a + b == a);
    } else {
        assert((a + b).drop_last() == a + b.drop_last());
        lemma_escaped_split(a, b.drop_last());
    }
}

proof fn lemma_nothing_to_escape(s: Seq<char>)
    requires
        forall|i: int| 0 <= i < s.len() ==> s[i] != '"' && s[i] != '\n',
    ensures
        escaped(s) == s,
    decreases s.len(),
{
    if s.len() > 0 {
        lemma_nothing_to_escape(s.drop_last());
    }
}

proof fn lemma_escaped_has_no_newline(s: Seq<char>)
    ensures
        forall|i: int| 0 <= i < escaped(s).len() ==> escaped(s)[i] != '\n',
    decreases s.len(),
{
    if s.len() > 0 {
        lemma_escaped_has_no_newline(s.drop_last());
        let a = escaped(s.drop_last());
        let e = escape_char(s.last());
        assert forall|i: int| 0 <= i < (a + e).len() implies (a + e)[i] != '\n' by {
            if i >= a.len() {
                assert((a + e)[i] == e[i - a.len()]);
            }
        }
    }
}

/// A field never holds a raw newline.
proof fn lemma_field_has_no_newline(s: Seq<char>)
    ensures
        !csv_field(s).contains('\n'),
{
    lemma_escaped_has_no_newline(s);
    if needs_quoting(s) {
        let f = seq!['"'] + escaped(s) + seq!['"'];
        assert forall|i: int| 0 <= i < f.len() implies f[i] != '\n' by {
            if 1 <= i < f.len() - 1 {
                assert(f[i] == escaped(s)[i - 1]);
            }
        }
    } else {
        assert forall|i: int| 0 <= i < s.len() implies s[i] != '\n' by {
            if s[i] == '\n' {
                assert(needs_quoting(s));
            }
        }
    }
}

/// Quotes a field for CSV only where needed (a comma, a quote or a newline
/// in it), doubling the quotes inside and writing a newline as the two
/// characters `\n`: a field never holds a raw newline, so every row stays
/// on one line.
pub fn field(value: &str) -> (s: String)
    ensures
        s@ == csv_field(value@),
        !s@.contains('\n'),
{
    proof {
        lemma_field_has_no_newline(value@);
    }
    let n = value.unicode_len();
    let mut special = false;
    let mut i: usize = 0;
    while i < n
        invariant
            n == value@.len(),
            i <= n,
            special == exists|j: int| 0 <= j < i && (value@[j] == ',' || value@[j] == '"' || value@[j] == '\n'),
        decreases n - i,
    {
        let c = value.get_char(i);
        if c == ',' || c == '"' || c == '\n' {
            special = true;
        }
        i += 1;
    }
    if !special {
        return String::from_str(value);
    }
    proof {
        reveal_strlit("\"");
        reveal_strlit("\"\"");
        reveal_strlit("\\n");
    }
    let mut out = String::from_str("\"");
    let mut seg: usize = 0;
    let mut k: usize = 0;
    while k < n
        invariant
            n == value@.len(),
            seg <= k <= n,
            out@ == seq!['"'] + escaped(value@.subrange(0, seg as int)),
            forall|j: int| seg <= j < k ==> value@[j] != '"' && value@[j] != '\n',
        decreases n - k,
    {
        let c = value.get_char(k);
        if c == '"' || c == '\n' {
            let piece = value.substring_char(seg, k);
            proof {
                lemma_nothing_to_escape(value@.subrange(seg as int, k as int));
                lemma_escaped_split(value@.subrange(0, seg as int), value@.subrange(seg as int, k as int));
                assert(value@.subrange(0, seg as int) + value@.subrange(seg as int, k as int) == value@.subrange(0, k as int));
                lemma_escaped_split(value@.subrange(0, k as int), seq![c]);
                assert(value@.subrange(0, k as int) + seq![c] == value@.subrange(0, k + 1));
                assert(escaped(seq![c]) == escape_char(c)) by {
                    assert(seq![c].drop_last() == Seq::<char>::empty());
                    assert(escaped(Seq::<char>::empty()) == Seq::<char>::empty());
                }
            }
            let ghost before = out@;
            out.append(piece);
            if c == '"' {
                out.append("\"\"");
            } else {
                out.append("\\n");
            }
            proof {
                reveal_strlit("\"\"");
                reveal_strlit("\\n");
                assert(out@ == before + value@.subrange(seg as int, k as int) + escape_char(c));
                assert(out@ =~= seq!['"'] + escaped(value@.subrange(0, k + 1)));
            }
            seg = k + 1;
        }
        k += 1;
    }
    let rest = value.substring_char(seg, n);
    let ghost before = out@;
    out.append(rest);
    out.append("\"");
    proof {
        assert(out@ == before + value@.subrange(seg as int, n as int) + seq!['"']);
        lemma_nothing_to_escape(value@.subrange(seg as int, n as int));
        lemma_escaped_split(value@.subrange(0, seg as int), value@.subrange(seg as int, n as int));
        assert(value@.subrange(0, seg as int) + value@.subrange(seg as int, n as int) == value@);
    }
    out
}

/// A column value as the database hands it out; floating-point values
/// arrive already formatted.
pub enum CsvValue {
    Null,
    Integer(i64),
    Real(String),
    Text(String),
    Blob,
}

pub open spec fn csv_value_text(v: CsvValue) -> Seq<char> {
    match v {
        CsvValue::Null => seq![],
        CsvValue::Integer(i) => signed_decimal(i as int),
        CsvValue::Real(t) => t@,
        CsvValue::Text(t) => csv_field(t@),
        CsvValue::Blob => seq![],
    }
}

/// The fields of a row joined by commas.
pub open spec fn csv_line_text(values: Seq<CsvValue>) -> Seq<char>
    decreases values.len(),
{
    if values.len() == 0 {
        seq![]
    } else if values.len() == 1 {
        csv_value_text(values[0])
    } else {
        csv_line_text(values.drop_last()) + seq![','] + csv_value_text(values.last())
    }
}

/// One row of a CSV file (without its line break).
pub fn csv_line(values: &Vec<CsvValue>) -> (s: String)
    ensures
        s@ == csv_line_text(values@),
{
    let mut line = String::new();
    let mut i: usize = 0;
    proof {
        reveal_strlit(",");
    }
    while i < values.len()
        invariant
            i <= values@.len(),
            line@ == csv_line_text(values@.take(i as int)),
        decreases values.len() - i,
    {
        proof {
            assert(values@.take(i + 1).drop_last() == values@.take(i as int));
            assert(values@.take(i + 1).last() == values@[i as int]);
        }
        let ghost before = line@;
        proof {
            reveal_strlit(",");
        }
        if i > 0 {
            line.append(",");
        }
        let text = match &values[i] {
            CsvValue::Null => String::new(),
            CsvValue::Integer(v) => decimal_i64(*v),
            CsvValue::Real(t) => t.clone(),
            CsvValue::Text(t) => field(t.as_str()),
            CsvValue::Blob => String::new(),
        };
        line.append(text.as_str());
        proof {
            assert(text@ == csv_value_text(values@[i as int]));
            if i == 0 {
                assert(before == Seq::<char>::empty());
                assert(line@ =~= csv_line_text(values@.take(1)));
            } else {
                assert(line@ =~= before + seq![','] + csv_value_text(values@[i as int]));
            }
        }
        i += 1;
    }
    proof {
        assert(values@.take(i as int) == values@);
    }
    line
}


/// A quoted field is escaped character by character: a quote becomes two
/// quotes, a newline the two characters `\n`, any other character stays;
/// escaping two pieces and joining them is escaping the joined text.
pub proof fn law_escaping_goes_char_by_char(s: Seq<char>, c: char, more: Seq<char>)
    ensures
        escaped(Seq::<char>::empty()) == Seq::<char>::empty(),
        escaped(s.push(c)) == escaped(s) + (if c == '"' {
            seq!['"', '"']
        } else if c == '\n' {
            seq!['\\', 'n']
        } else {
            seq![c]
        }),
        escaped(s + more) == escaped(s) + escaped(more),
{
    assert(s.push(c).drop_last() == s);
    lemma_escaped_split(s, more);
}


/// A row's fields joined by commas: no fields give an empty line, one
/// field its text alone, and one more field a comma and its text.
pub proof fn law_line_joins_fields_with_commas(values: Seq<CsvValue>, v: CsvValue)
    ensures
        csv_line_text(Seq::<CsvValue>::empty()) == Seq::<char>::empty(),
        csv_line_text(values.push(v)) == (if values.len() == 0 {
            csv_value_text(v)
        } else {
            csv_line_text(values) + seq![','] + csv_value_text(v)
        }),
{
    assert(values.push(v).drop_last() == values);
    if values.len() == 0 {
        assert(values.push(v)[0] == v);
    }
}

} // verus!
