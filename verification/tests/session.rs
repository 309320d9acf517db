use vocab_drill::csv_struct::CSVStruct;
use vocab_drill::training::{
    answer_matches, policy_for, Done, Language, MarkError, MatchPolicy, Training, TrainingData,
};

fn record(english: &str, japanese: &str, romaji: &str, notes: &str) -> CSVStruct {
    CSVStruct {
        english: english.to_string(),
        japanese: japanese.to_string(),
        romaji: romaji.to_string(),
        notes: notes.to_string(),
    }
}

fn flag(done: &Done, lang: Language) -> bool {
    match lang {
        Language::Japanese => done.japanese,
        Language::English => done.english,
    }
}

fn other(lang: Language) -> Language {
    match lang {
        Language::Japanese => Language::English,
        Language::English => Language::Japanese,
    }
}

#[test]
fn fresh_item_has_no_flags() {
    let item = TrainingData::from_csvdata(record("dog", "inu", "inu", ""));
    assert!(!item.done.japanese);
    assert!(!item.done.english);
    assert!(!item.is_done());
    assert_eq!(item.csv_data.english, "dog");
}

#[test]
fn item_mark_done_sets_one_flag() {
    let mut item = TrainingData::from_csvdata(record("dog", "inu", "inu", ""));
    assert_eq!(item.mark_done(Language::Japanese), Ok(()));
    assert!(item.done.japanese);
    assert!(!item.done.english);
    assert!(!item.is_done());
    assert_eq!(item.mark_done(Language::English), Ok(()));
    assert!(item.is_done());
}

#[test]
fn item_mark_done_twice_is_already_done() {
    let mut item = TrainingData::from_csvdata(record("dog", "inu", "inu", ""));
    assert_eq!(item.mark_done(Language::English), Ok(()));
    assert_eq!(item.mark_done(Language::English), Err("Already done"));
    assert!(item.done.english);
    assert!(!item.done.japanese);
}

#[test]
fn construction_size_matches_records() {
    let t = Training::from_records(vec![
        record("dog", "inu", "inu", ""),
        record("cat", "neko", "neko", ""),
        record("bird", "tori", "tori", ""),
    ]);
    assert_eq!(t.len(), 3);
    for item in &t.training_data {
        assert!(!item.done.japanese);
        assert!(!item.done.english);
    }
}

#[test]
fn single_record_drill() {
    let mut t = Training::from_records(vec![record("dog", "inu", "inu", "")]);
    assert_eq!(t.len(), 1);

    let (item, first) = t.get_random().expect("non-empty session must offer an item");
    assert_eq!(item.csv_data.english, "dog");
    assert!(!flag(&item.done, first));
    assert_eq!(t.mark_done(&item, first), Ok(()));
    assert_eq!(t.len(), 1);

    let (item2, second) = t.get_random().expect("one direction is still open");
    assert_eq!(second, other(first));
    assert!(flag(&item2.done, first));
    assert!(!flag(&item2.done, second));
    assert_eq!(t.mark_done(&item2, second), Ok(()));
    assert_eq!(t.len(), 0);

    assert!(t.get_random().is_none());
}

#[test]
fn never_offers_done_direction() {
    let mut t = Training::from_records(vec![
        record("dog", "inu", "inu", ""),
        record("cat", "neko", "neko", ""),
        record("bird", "tori", "tori", ""),
    ]);
    let mut marks = 0;
    while t.len() > 0 {
        let (item, lang) = t.get_random().expect("non-empty session must offer an item");
        assert!(!flag(&item.done, lang));
        assert_eq!(t.mark_done(&item, lang), Ok(()));
        marks += 1;
        assert!(marks <= 6);
    }
    assert_eq!(marks, 6);
}

#[test]
fn mark_sets_flag_and_keeps_item_until_second() {
    let mut t = Training::from_records(vec![
        record("dog", "inu", "inu", ""),
        record("cat", "neko", "neko", ""),
    ]);
    let fresh_dog = TrainingData::from_csvdata(record("dog", "inu", "inu", ""));

    assert_eq!(t.mark_done(&fresh_dog, Language::Japanese), Ok(()));
    assert_eq!(t.len(), 2);
    assert!(t.training_data[0].done.japanese);
    assert!(!t.training_data[0].done.english);

    let half_dog = TrainingData {
        csv_data: record("dog", "inu", "inu", ""),
        done: Done { japanese: true, english: false },
    };
    assert_eq!(t.mark_done(&half_dog, Language::English), Ok(()));
    assert_eq!(t.len(), 1);
    assert_eq!(t.training_data[0].csv_data.english, "cat");
}

#[test]
fn already_done_direction_fails_and_changes_nothing() {
    let mut t = Training::from_records(vec![record("dog", "inu", "inu", "")]);
    let fresh = TrainingData::from_csvdata(record("dog", "inu", "inu", ""));
    assert_eq!(t.mark_done(&fresh, Language::Japanese), Ok(()));

    let half = TrainingData {
        csv_data: record("dog", "inu", "inu", ""),
        done: Done { japanese: true, english: false },
    };
    assert_eq!(t.mark_done(&half, Language::Japanese), Err(MarkError::AlreadyDone));
    assert_eq!(t.len(), 1);
    assert!(t.training_data[0].done.japanese);
    assert!(!t.training_data[0].done.english);
}

#[test]
fn missing_item_fails_and_changes_nothing() {
    let mut t = Training::from_records(vec![record("dog", "inu", "inu", "")]);
    let stranger = TrainingData::from_csvdata(record("cat", "neko", "neko", ""));
    assert_eq!(t.mark_done(&stranger, Language::Japanese), Err(MarkError::NotFound));
    assert_eq!(t.len(), 1);
    assert!(!t.training_data[0].done.japanese);
    assert!(!t.training_data[0].done.english);

    // The flags take part in the match: a fresh copy of a half-done item is
    // no longer "the same item".
    let fresh = TrainingData::from_csvdata(record("dog", "inu", "inu", ""));
    assert_eq!(t.mark_done(&fresh, Language::English), Ok(()));
    assert_eq!(t.mark_done(&fresh, Language::Japanese), Err(MarkError::NotFound));
}

#[test]
fn size_drops_by_one_per_second_completion() {
    let mut t = Training::from_records(vec![
        record("dog", "inu", "inu", ""),
        record("cat", "neko", "neko", ""),
        record("bird", "tori", "tori", ""),
    ]);
    assert_eq!(t.len(), 3);

    let fresh = |e: &str, j: &str| TrainingData::from_csvdata(record(e, j, j, ""));
    let half = |e: &str, j: &str, lang: Language| TrainingData {
        csv_data: record(e, j, j, ""),
        done: Done {
            japanese: matches!(lang, Language::Japanese),
            english: matches!(lang, Language::English),
        },
    };

    // First directions, in a mixed order: the size never moves.
    assert_eq!(t.mark_done(&fresh("cat", "neko"), Language::English), Ok(()));
    assert_eq!(t.len(), 3);
    assert_eq!(t.mark_done(&fresh("dog", "inu"), Language::Japanese), Ok(()));
    assert_eq!(t.len(), 3);
    assert_eq!(t.mark_done(&fresh("bird", "tori"), Language::English), Ok(()));
    assert_eq!(t.len(), 3);

    // Second directions: each mark removes exactly one item.
    assert_eq!(t.mark_done(&half("bird", "tori", Language::English), Language::Japanese), Ok(()));
    assert_eq!(t.len(), 2);
    assert_eq!(t.mark_done(&half("cat", "neko", Language::English), Language::Japanese), Ok(()));
    assert_eq!(t.len(), 1);
    assert_eq!(t.mark_done(&half("dog", "inu", Language::Japanese), Language::English), Ok(()));
    assert_eq!(t.len(), 0);
    assert!(t.get_random().is_none());
}

#[test]
fn duplicate_records_are_marked_one_at_a_time() {
    let mut t = Training::from_records(vec![
        record("dog", "inu", "inu", ""),
        record("dog", "inu", "inu", ""),
    ]);
    let fresh = TrainingData::from_csvdata(record("dog", "inu", "inu", ""));
    assert_eq!(t.mark_done(&fresh, Language::Japanese), Ok(()));
    assert!(t.training_data[0].done.japanese);
    assert!(!t.training_data[1].done.japanese);
    assert_eq!(t.mark_done(&fresh, Language::Japanese), Ok(()));
    assert!(t.training_data[1].done.japanese);
}

#[test]
fn policy_is_case_tolerant_only_for_english_answers() {
    assert_eq!(policy_for(Language::Japanese), MatchPolicy::IgnoreCase);
    assert_eq!(policy_for(Language::English), MatchPolicy::Exact);
}

#[test]
fn answer_matching_follows_the_policy() {
    let expected = "Dog".to_string();
    assert!(answer_matches(&expected, &"dOG".to_string(), MatchPolicy::IgnoreCase));
    assert!(!answer_matches(&expected, &"dOG".to_string(), MatchPolicy::Exact));
    assert!(answer_matches(&expected, &"Dog".to_string(), MatchPolicy::Exact));
    assert!(!answer_matches(&expected, &"cat".to_string(), MatchPolicy::IgnoreCase));
}
