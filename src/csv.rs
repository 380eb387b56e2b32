//! Delimited text: records separated by line feeds, fields by commas; a field
//! may be enclosed in double quotes, within which a doubled quote stands for
//! one quote and commas and line breaks are plain content. Outside quotes a
//! carriage return is dropped, and blank lines hold no record.

use vstd::prelude::*;
use crate::text::{chars_of, push_char};

verus! {

/// Where the scanner stands within the current field.
#[derive(PartialEq, Eq, Structural, Clone, Copy)]
pub enum FieldMode {
    /// Nothing of the field read yet.
    Start,
    /// Inside a field that is not quoted.
    Plain,
    /// Inside quotes.
    Quoted,
    /// Just after a quote that ended quoted content or starts a doubled quote.
    QuoteSeen,
}

/// The scanner's state: the records completed, the fields completed in the
/// current record, the current field, and the mode.
pub struct ScanState {
    pub records: Seq<Seq<Seq<char>>>,
    pub fields: Seq<Seq<char>>,
    pub field: Seq<char>,
    pub mode: FieldMode,
}

pub open spec fn scan_start() -> ScanState {
    ScanState { records: Seq::empty(), fields: Seq::empty(), field: Seq::empty(), mode: FieldMode::Start }
}

/// The current record holds nothing at all: it was a blank line.
pub open spec fn record_is_blank(st: ScanState) -> bool {
    st.fields.len() == 0 && st.field.len() == 0 && st.mode == FieldMode::Start
}

/// Ends the current record, keeping it unless it is blank.
pub open spec fn end_record(st: ScanState) -> ScanState {
    ScanState {
        records: if record_is_blank(st) {
            st.records
        } else {
            st.records.push(st.fields.push(st.field))
        },
        fields: Seq::empty(),
        field: Seq::empty(),
        mode: FieldMode::Start,
    }
}

/// The scanner's move on one character.
pub open spec fn scan_step(st: ScanState, c: char) -> ScanState {
    if st.mode == FieldMode::Quoted {
        if c == '"' {
            ScanState { mode: FieldMode::QuoteSeen, ..st }
        } else {
            ScanState { field: st.field.push(c), ..st }
        }
    } else if c == '"' && st.mode == FieldMode::Start {
        ScanState { mode: FieldMode::Quoted, ..st }
    } else if c == '"' && st.mode == FieldMode::QuoteSeen {
        ScanState { field: st.field.push('"'), mode: FieldMode::Quoted, ..st }
    } else if c == ',' {
        ScanState { fields: st.fields.push(st.field), field: Seq::empty(), mode: FieldMode::Start, ..st }
    } else if c == '\n' {
        end_record(st)
    } else if c == '\r' {
        st
    } else {
        ScanState { field: st.field.push(c), mode: FieldMode::Plain, ..st }
    }
}

/// The scanner's state after reading `text` from `st`.
pub open spec fn scan_from(st: ScanState, text: Seq<char>) -> ScanState
    decreases text.len(),
{
    if text.len() == 0 {
        st
    } else {
        scan_step(scan_from(st, text.drop_last()), text.last())
    }
}

/// The records of `text`, each a sequence of fields.
pub open spec fn csv_records(text: Seq<char>) -> Seq<Seq<Seq<char>>> {
    end_record(scan_from(scan_start(), text)).records
}

/// Splits delimited text into records of fields.
pub fn parse_records(text: &str) -> (r: Vec<Vec<String>>)
    ensures
        r.deep_view() == csv_records(text@),
{
    let chars = chars_of(text);
    let mut records: Vec<Vec<String>> = Vec::new();
    let mut fields: Vec<String> = Vec::new();
    let mut field = String::new();
    let mut mode = FieldMode::Start;
    let mut i: usize = 0;
    assert(chars@.take(0) =~= Seq::<char>::empty());
    assert(records.deep_view() =~= Seq::<Seq<Seq<char>>>::empty());
    assert(fields.deep_view() =~= Seq::<Seq<char>>::empty());
    while i < chars.len()
        invariant
            i <= chars@.len(),
            chars@ == text@,
            (ScanState { records: records.deep_view(), fields: fields.deep_view(), field: field@, mode })
                == scan_from(scan_start(), chars@.take(i as int)),
        decreases chars@.len() - i,
    {
        let ghost st = ScanState { records: records.deep_view(), fields: fields.deep_view(), field: field@, mode };
        let c = chars[i];
        assert(chars@.take(i + 1).drop_last() =~= chars@.take(i as int));
        if mode == FieldMode::Quoted {
            if c == '"' {
                mode = FieldMode::QuoteSeen;
            } else {
                push_char(&mut field, c);
            }
        } else if c == '"' && mode == FieldMode::Start {
            mode = FieldMode::Quoted;
        } else if c == '"' && mode == FieldMode::QuoteSeen {
            push_char(&mut field, '"');
            mode = FieldMode::Quoted;
        } else if c == ',' {
            fields.push(field);
            field = String::new();
            mode = FieldMode::Start;
            assert(fields.deep_view() =~= st.fields.push(st.field));
        } else if c == '\n' {
            if !(fields.len() == 0 && field.as_str().is_empty() && mode == FieldMode::Start) {
                fields.push(field);
                assert(fields.deep_view() =~= st.fields.push(st.field));
                records.push(fields);
                assert(records.deep_view() =~= st.records.push(st.fields.push(st.field)));
            }
            fields = Vec::new();
            field = String::new();
            mode = FieldMode::Start;
            assert(fields.deep_view() =~= Seq::<Seq<char>>::empty());
        } else if c == '\r' {
        } else {
            push_char(&mut field, c);
            mode = FieldMode::Plain;
        }
        i = i + 1;
    }
    assert(chars@.take(i as int) =~= chars@);
    let ghost st = ScanState { records: records.deep_view(), fields: fields.deep_view(), field: field@, mode };
    if !(fields.len() == 0 && field.as_str().is_empty() && mode == FieldMode::Start) {
        fields.push(field);
        assert(fields.deep_view() =~= st.fields.push(st.field));
        records.push(fields);
        assert(records.deep_view() =~= st.records.push(st.fields.push(st.field)));
    }
    records
}

/// A field is written in quotes when it holds a comma, a quote or a line break.
pub open spec fn needs_quotes(v: Seq<char>) -> bool {
    exists|i: int| 0 <= i < v.len() && (v[i] == ',' || v[i] == '"' || v[i] == '\n' || v[i] == '\r')
}

/// The content of a quoted field: every quote doubled.
pub open spec fn escaped(v: Seq<char>) -> Seq<char>
    decreases v.len(),
{
    if v.len() == 0 {
        Seq::empty()
    } else {
        escaped(v.drop_last()) + if v.last() == '"' {
            seq!['"', '"']
        } else {
            seq![v.last()]
        }
    }
}

pub open spec fn field_text(v: Seq<char>) -> Seq<char> {
    if needs_quotes(v) {
        seq!['"'] + escaped(v) + seq!['"']
    } else {
        v
    }
}

/// The fields of one record, separated by commas.
pub open spec fn fields_text(fs: Seq<Seq<char>>) -> Seq<char>
    decreases fs.len(),
{
    if fs.len() == 0 {
        Seq::empty()
    } else if fs.len() == 1 {
        field_text(fs[0])
    } else {
        fields_text(fs.drop_last()) + seq![','] + field_text(fs.last())
    }
}

/// The text of a table: each record on a line of its own.
pub open spec fn table_text(rs: Seq<Seq<Seq<char>>>) -> Seq<char>
    decreases rs.len(),
{
    if rs.len() == 0 {
        Seq::empty()
    } else {
        table_text(rs.drop_last()) + fields_text(rs.last()) + seq!['\n']
    }
}

fn needs_quoting(v: &Vec<char>) -> (r: bool)
    ensures
        r == needs_quotes(v@),
{
    let mut i: usize = 0;
    while i < v.len()
        invariant
            i <= v@.len(),
            forall|k: int| 0 <= k < i ==> !(v@[k] == ',' || v@[k] == '"' || v@[k] == '\n' || v@[k] == '\r'),
        decreases v@.len() - i,
    {
        let c = v[i];
        if c == ',' || c == '"' || c == '\n' || c == '\r' {
            return true;
        }
        i = i + 1;
    }
    false
}

/// Appends one field, quoted where it must be.
pub fn push_field(out: &mut String, v: &str)
    ensures
        final(out)@ == old(out)@ + field_text(v@),
{
    let chars = chars_of(v);
    if needs_quoting(&chars) {
        push_char(out, '"');
        let ghost start = out@;
        let mut j: usize = 0;
        assert(chars@.take(0) =~= Seq::<char>::empty());
        assert(out@ =~= start + escaped(chars@.take(0)));
        while j < chars.len()
            invariant
                j <= chars@.len(),
                out@ == start + escaped(chars@.take(j as int)),
            decreases chars@.len() - j,
        {
            let c = chars[j];
            assert(chars@.take(j + 1).drop_last() =~= chars@.take(j as int));
            if c == '"' {
                push_char(out, '"');
            }
            push_char(out, c);
            assert(out@ =~= start + escaped(chars@.take(j + 1)));
            j = j + 1;
        }
        assert(chars@.take(j as int) =~= chars@);
        push_char(out, '"');
        assert(final(out)@ =~= old(out)@ + field_text(v@));
    } else {
        let mut j: usize = 0;
        while j < chars.len()
            invariant
                j <= chars@.len(),
                out@ == old(out)@ + chars@.take(j as int),
            decreases chars@.len() - j,
        {
            push_char(out, chars[j]);
            assert(chars@.take(j + 1) =~= chars@.take(j as int).push(chars@[j as int]));
            assert(out@ =~= old(out)@ + chars@.take(j + 1));
            j = j + 1;
        }
        assert(chars@.take(j as int) =~= chars@);
    }
}

/// Writes records as delimited text, one line per record.
pub fn render_table(records: &Vec<Vec<String>>) -> (r: String)
    ensures
        r@ == table_text(records.deep_view()),
{
    let mut out = String::new();
    let mut i: usize = 0;
    assert(records.deep_view().take(0) =~= Seq::<Seq<Seq<char>>>::empty());
    while i < records.len()
        invariant
            i <= records@.len(),
            out@ == table_text(records.deep_view().take(i as int)),
        decreases records@.len() - i,
    {
        let record = &records[i];
        let ghost before = out@;
        let mut j: usize = 0;
        assert(record.deep_view().take(0) =~= Seq::<Seq<char>>::empty());
        assert(out@ =~= before + fields_text(record.deep_view().take(0)));
        while j < record.len()
            invariant
                j <= record@.len(),
                out@ == before + fields_text(record.deep_view().take(j as int)),
            decreases record@.len() - j,
        {
            if j > 0 {
                push_char(&mut out, ',');
            }
            push_field(&mut out, record[j].as_str());
            let ghost fs = record.deep_view().take(j + 1);
            assert(fs.drop_last() =~= record.deep_view().take(j as int));
            assert(j == 0 ==> fs =~= seq![record@[0]@]);
            assert(out@ =~= before + fields_text(fs));
            j = j + 1;
        }
        assert(record.deep_view().take(j as int) =~= record.deep_view());
        push_char(&mut out, '\n');
        let ghost rs = records.deep_view().take(i + 1);
        assert(rs.drop_last() =~= records.deep_view().take(i as int));
        assert(out@ =~= table_text(rs));
        i = i + 1;
    }
    assert(records.deep_view().take(i as int) =~= records.deep_view());
    out
}

proof fn lemma_scan_concat(st: ScanState, a: Seq<char>, b: Seq<char>)
    ensures
        scan_from(st, a + b) == scan_from(scan_from(st, a), b),
    decreases b.len(),
{
    if b.len() == 0 {
        assert(a + b =~= a);
    } else {
        assert((a + b).drop_last() =~= a + b.drop_last());
        lemma_scan_concat(st, a, b.drop_last());
    }
}

proof fn lemma_scan_one(st: ScanState, c: char)
    ensures
        scan_from(st, seq![c]) == scan_step(st, c),
{
    assert(seq![c].drop_last() =~= Seq::<char>::empty());
    assert(scan_from(st, Seq::<char>::empty()) == st);
    assert(seq![c].last() == c);
    assert(scan_from(st, seq![c]) == scan_step(scan_from(st, seq![c].drop_last()), c));
}

/// Inside quotes, the doubled content reads back as the content.
proof fn lemma_scan_escaped(st: ScanState, v: Seq<char>)
    requires
        st.mode == FieldMode::Quoted,
    ensures
        scan_from(st, escaped(v)) == (ScanState { field: st.field + v, ..st }),
    decreases v.len(),
{
    if v.len() == 0 {
        assert(st.field + v =~= st.field);
    } else {
        let init = v.drop_last();
        lemma_scan_escaped(st, init);
        let mid = ScanState { field: st.field + init, ..st };
        let c = v.last();
        if c == '"' {
            lemma_scan_concat(st, escaped(init), seq!['"', '"']);
            lemma_scan_concat(mid, seq!['"'], seq!['"']);
            assert(seq!['"', '"'] =~= seq!['"'] + seq!['"']);
            lemma_scan_one(mid, '"');
            lemma_scan_one(ScanState { mode: FieldMode::QuoteSeen, ..mid }, '"');
        } else {
            lemma_scan_concat(st, escaped(init), seq![c]);
            lemma_scan_one(mid, c);
        }
        assert(st.field + init.push(c) =~= (st.field + init).push(c));
        assert(init.push(c) =~= v);
    }
}

/// Content without special characters reads back as itself.
proof fn lemma_scan_plain(st: ScanState, v: Seq<char>)
    requires
        st.mode != FieldMode::Quoted,
        st.field.len() == 0,
        !needs_quotes(v),
        v.len() == 0 || v[0] != '"',
    ensures
        scan_from(st, v).records == st.records,
        scan_from(st, v).fields == st.fields,
        scan_from(st, v).field == v,
        scan_from(st, v).mode != FieldMode::Quoted,
        v.len() > 0 ==> scan_from(st, v).mode == FieldMode::Plain,
        v.len() == 0 ==> scan_from(st, v) == st,
    decreases v.len(),
{
    if v.len() > 0 {
        let init = v.drop_last();
        assert(!needs_quotes(init)) by {
            if needs_quotes(init) {
                let i = choose|i: int| 0 <= i < init.len() && (init[i] == ',' || init[i] == '"' || init[i] == '\n' || init[i] == '\r');
                assert(v[i] == init[i]);
            }
        }
        assert(init.len() == 0 || init[0] == v[0]);
        lemma_scan_plain(st, init);
        let c = v.last();
        assert(!(c == ',' || c == '"' || c == '\n' || c == '\r')) by {
            assert(c == v[v.len() - 1]);
        }
        assert(init.push(c) =~= v);
    }
}

/// A written field reads back as the field.
proof fn lemma_scan_field(st: ScanState, v: Seq<char>)
    requires
        st.mode == FieldMode::Start,
        st.field.len() == 0,
    ensures
        scan_from(st, field_text(v)).records == st.records,
        scan_from(st, field_text(v)).fields == st.fields,
        scan_from(st, field_text(v)).field == v,
        scan_from(st, field_text(v)).mode != FieldMode::Quoted,
        v.len() == 0 ==> scan_from(st, field_text(v)) == st,
{
    if needs_quotes(v) {
        lemma_scan_concat(st, seq!['"'] + escaped(v), seq!['"']);
        lemma_scan_concat(st, seq!['"'], escaped(v));
        lemma_scan_one(st, '"');
        let q = ScanState { mode: FieldMode::Quoted, ..st };
        lemma_scan_escaped(q, v);
        assert(st.field + v =~= v);
        lemma_scan_one(ScanState { field: v, ..q }, '"');
    } else {
        if v.len() > 0 && v[0] == '"' {
            assert(needs_quotes(v));
        }
        lemma_scan_plain(st, v);
    }
}

/// A written record's fields read back as its fields; the scanner stands
/// within the last one.
proof fn lemma_scan_fields(st: ScanState, fs: Seq<Seq<char>>)
    requires
        st.mode == FieldMode::Start,
        st.field.len() == 0,
        st.fields.len() == 0,
        fs.len() >= 1,
    ensures
        scan_from(st, fields_text(fs)).records == st.records,
        scan_from(st, fields_text(fs)).fields == fs.drop_last(),
        scan_from(st, fields_text(fs)).field == fs.last(),
        scan_from(st, fields_text(fs)).mode != FieldMode::Quoted,
        fs.len() == 1 && fs[0].len() == 0 ==> scan_from(st, fields_text(fs)) == st,
    decreases fs.len(),
{
    if fs.len() == 1 {
        lemma_scan_field(st, fs[0]);
        assert(fs.drop_last() =~= Seq::<Seq<char>>::empty());
    } else {
        let init = fs.drop_last();
        lemma_scan_fields(st, init);
        let a = scan_from(st, fields_text(init));
        lemma_scan_concat(st, fields_text(init) + seq![','], field_text(fs.last()));
        lemma_scan_concat(st, fields_text(init), seq![',']);
        lemma_scan_one(a, ',');
        let b = scan_step(a, ',');
        assert(init.drop_last().push(init.last()) =~= init);
        lemma_scan_field(b, fs.last());
    }
}

/// The records that a table was written from, when no record is empty and
/// none is one empty field (which would be written as a blank line).
pub open spec fn readable_records(rs: Seq<Seq<Seq<char>>>) -> bool {
    forall|i: int| 0 <= i < rs.len() ==> (#[trigger] rs[i]).len() >= 2 || (rs[i].len() == 1 && rs[i][0].len() > 0)
}

proof fn lemma_scan_table(rs: Seq<Seq<Seq<char>>>)
    requires
        readable_records(rs),
    ensures
        scan_from(scan_start(), table_text(rs)) == (ScanState { records: rs, ..scan_start() }),
    decreases rs.len(),
{
    if rs.len() == 0 {
        assert(rs =~= Seq::<Seq<Seq<char>>>::empty());
    } else {
        let init = rs.drop_last();
        assert(readable_records(init)) by {
            assert forall|i: int| 0 <= i < init.len() implies (#[trigger] init[i]).len() >= 2 || (init[i].len() == 1 && init[i][0].len() > 0) by {
                assert(init[i] == rs[i]);
            }
        }
        lemma_scan_table(init);
        let st = ScanState { records: init, ..scan_start() };
        let fs = rs.last();
        assert(fs == rs[rs.len() - 1]);
        lemma_scan_concat(scan_start(), table_text(init) + fields_text(fs), seq!['\n']);
        lemma_scan_concat(scan_start(), table_text(init), fields_text(fs));
        lemma_scan_fields(st, fs);
        let a = scan_from(st, fields_text(fs));
        lemma_scan_one(a, '\n');
        assert(fs.drop_last().push(fs.last()) =~= fs);
        assert(!record_is_blank(a)) by {
            if fs.len() == 1 {
                assert(fs.last() == fs[0]);
            }
        }
        assert(init.push(fs) =~= rs);
    }
}

/// Round trip: reading back a written table gives the records it was
/// written from.
pub proof fn lemma_table_round_trip(rs: Seq<Seq<Seq<char>>>)
    requires
        readable_records(rs),
    ensures
        csv_records(table_text(rs)) == rs,
{
    lemma_scan_table(rs);
}

} // verus!
