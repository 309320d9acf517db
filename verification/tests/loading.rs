use vocab_drill::csv_struct::{read_data, records_from_rows, CSVStruct, LoadError};
use vocab_drill::training::{answer_side, prompt_side, Language, Training};

fn row(fields: &[&str]) -> Vec<String> {
    fields.iter().map(|f| f.to_string()).collect()
}

#[test]
fn loads_records_in_order() {
    let text = "english,japanese,romaji,notes\n\
                dog,inu,inu,\n\
                cat,neko,neko,a pet\n";
    let records = read_data(text).expect("well-formed text must load");
    assert_eq!(records.len(), 2);
    assert_eq!(records[0].english, "dog");
    assert_eq!(records[0].japanese, "inu");
    assert_eq!(records[0].romaji, "inu");
    assert_eq!(records[0].notes, "");
    assert_eq!(records[1].english, "cat");
    assert_eq!(records[1].notes, "a pet");
}

#[test]
fn columns_may_stand_in_any_order() {
    let text = "notes,japanese,english,romaji\n\
                greeting,konnichiwa,hello,konnichiwa\n";
    let records = read_data(text).expect("reordered columns must load");
    assert_eq!(records.len(), 1);
    assert_eq!(records[0].english, "hello");
    assert_eq!(records[0].japanese, "konnichiwa");
    assert_eq!(records[0].romaji, "konnichiwa");
    assert_eq!(records[0].notes, "greeting");
}

#[test]
fn quoted_fields_keep_their_commas() {
    let text = "english,japanese,romaji,notes\n\
                \"hello, world\",konnichiwa,konnichiwa,\"a, note\"\n";
    let records = read_data(text).expect("quoted fields must load");
    assert_eq!(records[0].english, "hello, world");
    assert_eq!(records[0].notes, "a, note");
}

#[test]
fn extra_columns_are_ignored() {
    let text = "id,english,japanese,romaji,notes\n\
                7,dog,inu,inu,\n";
    let records = read_data(text).expect("extra columns must load");
    assert_eq!(records.len(), 1);
    assert_eq!(records[0].english, "dog");
}

#[test]
fn missing_notes_column_is_a_load_error() {
    let text = "english,japanese,romaji\n\
                dog,inu,inu\n";
    assert_eq!(read_data(text), Err(LoadError::MissingColumn));
}

#[test]
fn empty_text_has_no_header() {
    assert_eq!(read_data(""), Err(LoadError::MissingHeader));
}

#[test]
fn ragged_rows_are_a_parse_error() {
    let text = "english,japanese,romaji,notes\n\
                dog,inu\n";
    match read_data(text) {
        Err(LoadError::Parse(_)) => {},
        other => panic!("expected a parse error, got {:?}", other),
    }
}

#[test]
fn short_rows_are_refused() {
    let rows = vec![row(&["english", "japanese", "romaji", "notes"]), row(&["dog", "inu"])];
    assert_eq!(records_from_rows(&rows), Err(LoadError::ShortRow));
}

#[test]
fn rows_without_any_data_load_nothing() {
    let rows = vec![row(&["english", "japanese", "romaji", "notes"])];
    let records = records_from_rows(&rows).expect("a bare header must load");
    assert_eq!(records.len(), 0);
}

#[test]
fn session_from_csv_text() {
    let text = "english,japanese,romaji,notes\n\
                dog,inu,inu,\n\
                cat,neko,neko,\n";
    let t = Training::from_csv(text).expect("well-formed text must load");
    assert_eq!(t.len(), 2);
    assert!(!t.training_data[0].done.japanese);
    assert!(!t.training_data[0].done.english);
}

#[test]
fn session_from_csv_surfaces_load_errors() {
    let text = "english,japanese,romaji\ndog,inu,inu\n";
    assert_eq!(Training::from_csv(text).unwrap_err(), LoadError::MissingColumn);
}

#[test]
fn prompt_shows_the_untested_side() {
    let c = CSVStruct {
        english: "dog".to_string(),
        japanese: "inu".to_string(),
        romaji: "inu".to_string(),
        notes: "".to_string(),
    };
    assert_eq!(prompt_side(&c, Language::Japanese), "inu");
    assert_eq!(answer_side(&c, Language::Japanese), "dog");
    assert_eq!(prompt_side(&c, Language::English), "dog");
    assert_eq!(answer_side(&c, Language::English), "inu");
}
