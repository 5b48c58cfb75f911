//! CSV tables.  The bytes of a CSV file are parsed by the `csv` crate into a
//! header record and data records; the verified part zips each record against
//! the headers into a row of keyed cells, in file order.  A record shorter
//! than the header list simply lacks the trailing keys, and excess cells are
//! dropped; every cell stays plain text.

use vstd::prelude::*;

verus! {

/// Metadata of one table column: `key` is the raw header token and `name`
/// a display label; for CSV-derived columns the two are equal.
#[derive(Debug)]
pub struct ColumnInfo {
    pub key: String,
    pub name: String,
}

impl ColumnInfo {
    /// A column with the given key and display name.
    pub fn new(key: &str, name: &str) -> (r: ColumnInfo)
        ensures
            r.key@ == key@,
            r.name@ == name@,
    {
        ColumnInfo { key: key.to_owned(), name: name.to_owned() }
    }
}

/// One data row: its cells as key-value pairs, in column order.  A key is
/// looked up by scanning the pairs; a file with repeated header tokens
/// yields repeated keys here.
#[derive(Debug)]
pub struct TableRow {
    pub cells: Vec<(String, String)>,
}

/// A whole CSV file in memory: the columns in header order and the rows in
/// file order.
#[derive(Debug)]
pub struct CsvTable {
    pub columns: Vec<ColumnInfo>,
    pub rows: Vec<TableRow>,
}

/// The static demo table's metadata.
#[derive(Debug)]
pub struct TableInfo {
    pub columns: Vec<ColumnInfo>,
}

pub open spec fn min_len(a: int, b: int) -> int {
    if a <= b {
        a
    } else {
        b
    }
}

/// The row built from one record: cell `j` pairs header `j` with the
/// record's `j`-th field, for as long as both exist.
pub open spec fn row_matches(row: TableRow, hs: Seq<Seq<char>>, cs: Seq<Seq<char>>) -> bool {
    &&& row.cells@.len() == min_len(hs.len() as int, cs.len() as int)
    &&& forall|j: int|
        0 <= j < row.cells@.len() ==> row.cells@[j].0@ == hs[j] && row.cells@[j].1@ == cs[j]
}

/// One column per header token, in order, key and name both the raw token.
pub open spec fn columns_match(cols: Seq<ColumnInfo>, hs: Seq<Seq<char>>) -> bool {
    &&& cols.len() == hs.len()
    &&& forall|i: int| 0 <= i < cols.len() ==> cols[i].key@ == hs[i] && cols[i].name@ == hs[i]
}

/// The table built from a header record `hs` and data records `rs`.
pub open spec fn table_matches(t: CsvTable, hs: Seq<Seq<char>>, rs: Seq<Seq<Seq<char>>>) -> bool {
    &&& columns_match(t.columns@, hs)
    &&& t.rows@.len() == rs.len()
    &&& forall|i: int| 0 <= i < rs.len() ==> row_matches(t.rows@[i], hs, rs[i])
}

/// What the `csv` crate's reader yields on given bytes, when the first
/// record is taken as the header row and records of uneven length are
/// accepted: the header fields and the data records, or nothing when the
/// bytes are malformed.  The parse depends on the bytes alone.
pub uninterp spec fn csv_parse_of(bytes: Seq<u8>) -> Option<(Seq<Seq<char>>, Seq<Seq<Seq<char>>>)>;

/// Relies on the `csv` crate: `Reader::headers` yields the fields of the
/// first record, `Reader::records` the following records in file order, and
/// with `ReaderBuilder::flexible` the records may differ in length.  The
/// result is a function of the bytes alone.
#[verifier::external_body]
fn parse_csv_bytes(bytes: &[u8]) -> (r: Result<(Vec<String>, Vec<Vec<String>>), String>)
    ensures
        r is Ok <==> csv_parse_of(bytes@) is Some,
        r matches Ok(p) ==> csv_parse_of(bytes@) == Some((p.0.deep_view(), p.1.deep_view())),
{
    let mut rdr = csv::ReaderBuilder::new().flexible(true).from_reader(bytes);
    let headers: Vec<String> = match rdr.headers() {
        Ok(h) => h.iter().map(|f| f.to_owned()).collect(),
        Err(e) => return Err(e.to_string()),
    };
    let mut records: Vec<Vec<String>> = Vec::new();
    for record in rdr.records() {
        match record {
            Ok(row) => records.push(row.iter().map(|f| f.to_owned()).collect()),
            Err(e) => return Err(e.to_string()),
        }
    }
    Ok((headers, records))
}

/// Zips already-parsed CSV parts into a table: one column per header and
/// one row per record, each record's cells keyed by the headers, unmatched
/// trailing headers or cells dropped.
pub fn csv_table_from_parts(headers: &Vec<String>, records: &Vec<Vec<String>>) -> (t: CsvTable)
    ensures
        table_matches(t, headers.deep_view(), records.deep_view()),
{
    let ghost hs = headers.deep_view();
    let ghost rs = records.deep_view();
    let mut columns: Vec<ColumnInfo> = Vec::new();
    let mut i: usize = 0;
    while i < headers.len()
        invariant
            i <= headers.len(),
            hs == headers.deep_view(),
            columns@.len() == i,
            forall|k: int| 0 <= k < i ==> columns@[k].key@ == hs[k] && columns@[k].name@ == hs[k],
        decreases headers.len() - i,
    {
        proof {
            assert(hs[i as int] == headers@[i as int]@);
        }
        let tok = headers[i].as_str();
        columns.push(ColumnInfo::new(tok, tok));
        i = i + 1;
    }
    let mut rows: Vec<TableRow> = Vec::new();
    let mut r: usize = 0;
    while r < records.len()
        invariant
            r <= records.len(),
            hs == headers.deep_view(),
            rs == records.deep_view(),
            rows@.len() == r,
            forall|k: int| 0 <= k < r ==> row_matches(rows@[k], hs, rs[k]),
        decreases records.len() - r,
    {
        let record = &records[r];
        proof {
            assert(rs[r as int] == records@[r as int].deep_view());
        }
        let width = if headers.len() <= record.len() {
            headers.len()
        } else {
            record.len()
        };
        let mut cells: Vec<(String, String)> = Vec::new();
        let mut j: usize = 0;
        while j < width
            invariant
                j <= width,
                hs == headers.deep_view(),
                width == min_len(hs.len() as int, record.deep_view().len() as int),
                width <= headers.len(),
                width <= record.len(),
                cells@.len() == j,
                forall|k: int|
                    0 <= k < j ==> cells@[k].0@ == hs[k] && cells@[k].1@ == record.deep_view()[k],
            decreases width - j,
        {
            proof {
                assert(hs[j as int] == headers@[j as int]@);
                assert(record.deep_view()[j as int] == record@[j as int]@);
            }
            cells.push((headers[j].clone(), record[j].clone()));
            j = j + 1;
        }
        let ghost gcells = cells@;
        let ghost grec = record.deep_view();
        rows.push(TableRow { cells });
        proof {
            assert(rows@[r as int].cells@ == gcells);
            assert(grec == rs[r as int]);
            assert(gcells.len() == min_len(hs.len() as int, grec.len() as int));
            assert(row_matches(rows@[r as int], hs, rs[r as int]));
        }
        r = r + 1;
    }
    proof {
        assert(columns@.len() == hs.len());
        assert(rows@.len() == rs.len());
    }
    CsvTable { columns, rows }
}

/// Reads a whole CSV file, already loaded as `bytes`, into a table, or
/// reports the underlying parse error's message.
pub fn read_csv_bytes(bytes: &[u8]) -> (r: Result<CsvTable, String>)
    ensures
        r is Ok <==> csv_parse_of(bytes@) is Some,
        r matches Ok(t) ==> csv_parse_of(bytes@) matches Some(p) && table_matches(t, p.0, p.1),
{
    match parse_csv_bytes(bytes) {
        Ok((headers, records)) => Ok(csv_table_from_parts(&headers, &records)),
        Err(e) => Err(e),
    }
}

/// The fixed metadata of the demo table.
pub fn demo_table_info() -> (r: TableInfo)
    ensures
        r.columns@.len() == 5,
        r.columns@[0].key@ == "id"@ && r.columns@[0].name@ == "ID"@,
        r.columns@[1].key@ == "title"@ && r.columns@[1].name@ == "Title"@,
        r.columns@[2].key@ == "product_type"@ && r.columns@[2].name@ == "Product type"@,
        r.columns@[3].key@ == "price"@ && r.columns@[3].name@ == "Price"@,
        r.columns@[4].key@ == "stock"@ && r.columns@[4].name@ == "Stock"@,
{
    let mut columns: Vec<ColumnInfo> = Vec::new();
    columns.push(ColumnInfo::new("id", "ID"));
    columns.push(ColumnInfo::new("title", "Title"));
    columns.push(ColumnInfo::new("product_type", "Product type"));
    columns.push(ColumnInfo::new("price", "Price"));
    columns.push(ColumnInfo::new("stock", "Stock"));
    TableInfo { columns }
}

} // verus!
