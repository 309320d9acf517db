//! The dataset: records of four string fields, read out of comma-separated
//! text with a header row naming the columns.

use vstd::prelude::*;

verus! {

/// One vocabulary entry of the dataset. Loaded once, never mutated.
#[derive(Debug)]
pub struct CSVStruct {
    /// English meaning of the word.
    pub english: String,
    /// Japanese meaning of the word.
    pub japanese: String,
    /// Romaji writing of the Japanese.
    pub romaji: String,
    /// Extra notes for the word.
    pub notes: String,
}

/// The mathematical value of a record: its four fields as character sequences.
pub ghost struct CsvView {
    pub english: Seq<char>,
    pub japanese: Seq<char>,
    pub romaji: Seq<char>,
    pub notes: Seq<char>,
}

impl View for CSVStruct {
    type V = CsvView;

    open spec fn view(&self) -> CsvView {
        CsvView {
            english: self.english@,
            japanese: self.japanese@,
            romaji: self.romaji@,
            notes: self.notes@,
        }
    }
}

impl Clone for CSVStruct {
    fn clone(&self) -> (r: Self)
        ensures
            r@ == self@,
    {
        CSVStruct {
            english: self.english.clone(),
            japanese: self.japanese.clone(),
            romaji: self.romaji.clone(),
            notes: self.notes.clone(),
        }
    }
}

impl PartialEq for CSVStruct {
    fn eq(&self, other: &Self) -> (r: bool) {
        self.english == other.english && self.japanese == other.japanese
            && self.romaji == other.romaji && self.notes == other.notes
    }
}

impl vstd::std_specs::cmp::PartialEqSpecImpl for CSVStruct {
    open spec fn obeys_eq_spec() -> bool {
        true
    }

    open spec fn eq_spec(&self, other: &Self) -> bool {
        self@ == other@
    }
}

/// Why a dataset could not be loaded.
#[derive(Debug, Clone, PartialEq)]
pub enum LoadError {
    /// The text is not well-formed comma-separated data; carries the
    /// parser's message.
    Parse(String),
    /// The text holds no rows at all, so no header row either.
    MissingHeader,
    /// A required column name is absent from the header row.
    MissingColumn,
    /// A row is too short to hold every required column.
    ShortRow,
}

/// What the comma-separated text parses to: its rows of fields, or nothing
/// when the text is malformed.
pub uninterp spec fn csv_rows(text: Seq<char>) -> Option<Seq<Seq<Seq<char>>>>;

/// Relies on the csv crate (ReaderBuilder, Reader::records): the text is
/// split into rows of fields, a function of the text alone; in the default
/// strict mode a row whose field count differs from the first row's is an
/// error, so on success all rows are equally long.
#[verifier::external_body]
fn parse_csv_text(text: &str) -> (r: Result<Vec<Vec<String>>, String>)
    ensures
        match r {
            Ok(rows) => csv_rows(text@) == Some(rows.deep_view()) && (forall|i: int, j: int|
                0 <= i < rows.deep_view().len() && 0 <= j < rows.deep_view().len()
                    ==> rows.deep_view()[i].len() == rows.deep_view()[j].len()),
            Err(_) => csv_rows(text@) is None,
        },
{
    let mut reader = csv::ReaderBuilder::new().has_headers(false).from_reader(text.as_bytes());
    let mut rows: Vec<Vec<String>> = Vec::new();
    for record in reader.records() {
        match record {
            Ok(fields) => rows.push(fields.iter().map(String::from).collect()),
            Err(e) => {
                return Err(e.to_string());
            },
        }
    }
    Ok(rows)
}

/// The first index at which `name` stands in `header`, or `-1`.
pub open spec fn col_index(header: Seq<Seq<char>>, name: Seq<char>) -> int
    decreases header.len(),
{
    if header.len() == 0 {
        -1
    } else if header[0] == name {
        0
    } else {
        let rest = col_index(header.subrange(1, header.len() as int), name);
        if rest < 0 {
            -1
        } else {
            rest + 1
        }
    }
}

/// The header row names all four required columns.
pub open spec fn header_ok(header: Seq<Seq<char>>) -> bool {
    col_index(header, "english"@) >= 0 && col_index(header, "japanese"@) >= 0 && col_index(
        header,
        "romaji"@,
    ) >= 0 && col_index(header, "notes"@) >= 0
}

/// The row reaches every column the header names.
pub open spec fn row_long_enough(header: Seq<Seq<char>>, row: Seq<Seq<char>>) -> bool {
    col_index(header, "english"@) < row.len() && col_index(header, "japanese"@) < row.len()
        && col_index(header, "romaji"@) < row.len() && col_index(header, "notes"@) < row.len()
}

/// The record a data row yields under the given header.
pub open spec fn row_to_record(header: Seq<Seq<char>>, row: Seq<Seq<char>>) -> CsvView {
    CsvView {
        english: row[col_index(header, "english"@)],
        japanese: row[col_index(header, "japanese"@)],
        romaji: row[col_index(header, "romaji"@)],
        notes: row[col_index(header, "notes"@)],
    }
}

/// What a parsed table yields: the first row is the header and must name
/// every required column; each further row yields one record, read at the
/// header's column positions.
pub open spec fn records_of_rows(rows: Seq<Seq<Seq<char>>>) -> Result<Seq<CsvView>, LoadError> {
    if rows.len() == 0 {
        Err(LoadError::MissingHeader)
    } else if !header_ok(rows[0]) {
        Err(LoadError::MissingColumn)
    } else if exists|i: int| 1 <= i < rows.len() && !row_long_enough(rows[0], #[trigger] rows[i]) {
        Err(LoadError::ShortRow)
    } else {
        Ok(Seq::new((rows.len() - 1) as nat, |i: int| row_to_record(rows[0], rows[i + 1])))
    }
}

/// The views of a sequence of records.
pub open spec fn record_views(recs: Seq<CSVStruct>) -> Seq<CsvView> {
    Seq::new(recs.len(), |i: int| recs[i]@)
}

/// `col_index` returns `-1` exactly when no field matches, and otherwise the
/// least index of a matching field.
pub proof fn lemma_col_index(header: Seq<Seq<char>>, name: Seq<char>)
    ensures
        col_index(header, name) == -1 <==> (forall|i: int|
            0 <= i < header.len() ==> header[i] != name),
        col_index(header, name) != -1 ==> 0 <= col_index(header, name) < header.len() && header[
            col_index(header, name)
        ] == name && (forall|i: int| 0 <= i < col_index(header, name) ==> header[i] != name),
    decreases header.len(),
{
    if header.len() != 0 && header[0] != name {
        let sub = header.subrange(1, header.len() as int);
        lemma_col_index(sub, name);
        assert(forall|i: int| 0 <= i < sub.len() ==> sub[i] == header[i + 1]);
        assert(forall|i: int| 1 <= i < header.len() ==> #[trigger] header[i] == sub[i - 1]);
    }
}

/// The first position of `name` in the header row, searched left to right
/// as `col_index` counts.
fn find_col(header: &Vec<String>, name: &String) -> (r: Option<usize>)
    ensures
        match r {
            Some(i) => i < header@.len() && col_index(header.deep_view(), name@) == i,
            None => col_index(header.deep_view(), name@) == -1,
        },
{
    let mut j: usize = 0;
    while j < header.len()
        invariant
            j <= header@.len(),
            forall|k: int| 0 <= k < j ==> #[trigger] header.deep_view()[k] != name@,
        decreases header@.len() - j,
    {
        if header[j] == *name {
            proof {
                lemma_col_index(header.deep_view(), name@);
                assert(header.deep_view()[j as int] == header@[j as int]@);
                assert(col_index(header.deep_view(), name@) == j);
            }
            return Some(j);
        }
        proof {
            assert(header.deep_view()[j as int] == header@[j as int]@);
        }
        j += 1;
    }
    proof {
        lemma_col_index(header.deep_view(), name@);
    }
    None
}

/// Reads the parsed table into records: the first row must name all four
/// columns, and every further row yields one record, exactly as
/// `records_of_rows` says.
pub fn records_from_rows(rows: &Vec<Vec<String>>) -> (r: Result<Vec<CSVStruct>, LoadError>)
    ensures
        match r {
            Ok(recs) => records_of_rows(rows.deep_view()) == Ok::<_, LoadError>(
                record_views(recs@),
            ),
            Err(e) => records_of_rows(rows.deep_view()) == Err::<Seq<CsvView>, _>(e),
        },
{
    let ghost rv = rows.deep_view();
    if rows.len() == 0 {
        return Err(LoadError::MissingHeader);
    }
    let header = &rows[0];
    proof {
        assert(rv[0] == rows@[0].deep_view());
    }
    let name_e = "english".to_owned();
    let name_j = "japanese".to_owned();
    let name_r = "romaji".to_owned();
    let name_n = "notes".to_owned();
    let col_e = match find_col(header, &name_e) {
        None => {
            return Err(LoadError::MissingColumn);
        },
        Some(i) => i,
    };
    let col_j = match find_col(header, &name_j) {
        None => {
            return Err(LoadError::MissingColumn);
        },
        Some(i) => i,
    };
    let col_r = match find_col(header, &name_r) {
        None => {
            return Err(LoadError::MissingColumn);
        },
        Some(i) => i,
    };
    let col_n = match find_col(header, &name_n) {
        None => {
            return Err(LoadError::MissingColumn);
        },
        Some(i) => i,
    };
    let mut recs: Vec<CSVStruct> = Vec::new();
    let mut k: usize = 1;
    while k < rows.len()
        invariant
            1 <= k <= rv.len(),
            rv == rows.deep_view(),
            rv.len() == rows@.len(),
            recs@.len() == k - 1,
            header_ok(rv[0]),
            col_index(rv[0], "english"@) == col_e as int,
            col_index(rv[0], "japanese"@) == col_j as int,
            col_index(rv[0], "romaji"@) == col_r as int,
            col_index(rv[0], "notes"@) == col_n as int,
            forall|i: int| 1 <= i < k ==> row_long_enough(rv[0], #[trigger] rv[i]),
            forall|i: int|
                0 <= i < k - 1 ==> (#[trigger] recs@[i])@ == row_to_record(rv[0], rv[i + 1]),
        decreases rv.len() - k,
    {
        let row = &rows[k];
        proof {
            assert(rv[k as int] == rows@[k as int].deep_view());
        }
        if col_e >= row.len() || col_j >= row.len() || col_r >= row.len() || col_n
            >= row.len() {
            return Err(LoadError::ShortRow);
        }
        proof {
            assert(rv[k as int][col_e as int] == row@[col_e as int]@);
            assert(rv[k as int][col_j as int] == row@[col_j as int]@);
            assert(rv[k as int][col_r as int] == row@[col_r as int]@);
            assert(rv[k as int][col_n as int] == row@[col_n as int]@);
        }
        recs.push(
            CSVStruct {
                english: row[col_e].clone(),
                japanese: row[col_j].clone(),
                romaji: row[col_r].clone(),
                notes: row[col_n].clone(),
            },
        );
        k += 1;
    }
    proof {
        assert(record_views(recs@) =~= Seq::new(
            (rv.len() - 1) as nat,
            |i: int| row_to_record(rv[0], rv[i + 1]),
        ));
    }
    Ok(recs)
}

/// Loads records out of comma-separated text: the text is parsed into rows,
/// and the rows are read under their header row. Malformed text is a
/// `Parse` error; a table without the required columns is refused as
/// `records_of_rows` says.
pub fn read_data(text: &str) -> (r: Result<Vec<CSVStruct>, LoadError>)
    ensures
        match r {
            Ok(recs) => csv_rows(text@) matches Some(rows) && records_of_rows(rows) == Ok::<
                _,
                LoadError,
            >(record_views(recs@)),
            Err(e) => match e {
                LoadError::Parse(_) => csv_rows(text@) is None,
                _ => csv_rows(text@) matches Some(rows) && records_of_rows(rows) == Err::<
                    Seq<CsvView>,
                    _,
                >(e),
            },
        },
{
    match parse_csv_text(text) {
        Err(msg) => Err(LoadError::Parse(msg)),
        Ok(rows) => records_from_rows(&rows),
    }
}

} // verus!
