use split_server::dataset::{Dataset, Record};
use split_server::split::DataSplit;

fn two_records() -> Dataset {
    let r1 = Record::new("r1".to_string(), DataSplit::Train);
    let r2 = Record::new("r2".to_string(), DataSplit::Test);
    Dataset::new(vec![r1, r2])
}

#[test]
fn test_get_splits() {
    let r1 = Record::new("r1".to_string(), DataSplit::Train);
    let r2 = Record::new("r2".to_string(), DataSplit::Test);
    let list = vec![r1, r2];
    let dataset = Dataset::new(list);
    assert_eq!(dataset.get_splits_for("r2"), vec![DataSplit::Test]);
}

#[test]
fn test_get_unknown_splits() {
    let r1 = Record::new("r1".to_string(), DataSplit::Train);
    let r2 = Record::new("r2".to_string(), DataSplit::Test);
    let list = vec![r1, r2];
    let dataset = Dataset::new(list);
    assert_eq!(dataset.get_splits_for("r3"), vec![]);
}

#[test]
fn test_get_empty_splits() {
    let list = Vec::<Record>::new();
    let dataset = Dataset::new(list);
    assert_eq!(dataset.get_splits_for("r2"), vec![]);
}

#[test]
fn test_get_names() {
    let r1 = Record::new("r1".to_string(), DataSplit::Train);
    let r2 = Record::new("r2".to_string(), DataSplit::Test);
    let list = vec![r1, r2];
    let dataset = Dataset::new(list);
    assert_eq!(
        dataset.get_names_for(DataSplit::Test),
        vec!["r2".to_string()]
    );
}

#[test]
fn test_get_empty_names() {
    let list = Vec::<Record>::new();
    let dataset = Dataset::new(list);
    assert_eq!(
        dataset.get_names_for(DataSplit::Train),
        Vec::<String>::new()
    );
}

#[test]
fn test_from_str() {
    assert_eq!(DataSplit::from("train"), DataSplit::Train);
    assert_eq!(DataSplit::from("Train"), DataSplit::Train);
    assert_eq!(DataSplit::from("training"), DataSplit::Train);
    assert_eq!(DataSplit::from("Training"), DataSplit::Train);
    assert_eq!(DataSplit::from("test"), DataSplit::Test);
    assert_eq!(DataSplit::from("Test"), DataSplit::Test);
    assert_eq!(DataSplit::from("validation"), DataSplit::Validation);
    assert_eq!(DataSplit::from("Validation"), DataSplit::Validation);
    assert_eq!(DataSplit::from("val"), DataSplit::Validation);
    assert_eq!(DataSplit::from("Val"), DataSplit::Validation);
    assert_eq!(DataSplit::from("sdf"), DataSplit::Unknown);
    assert_eq!(DataSplit::from("asdf123-__!^&*("), DataSplit::Unknown);
    assert_eq!(DataSplit::from(""), DataSplit::Unknown);
}

#[test]
fn classify_does_not_fold_case_or_trim() {
    assert_eq!(DataSplit::from("TRAIN"), DataSplit::Unknown);
    assert_eq!(DataSplit::from("tRain"), DataSplit::Unknown);
    assert_eq!(DataSplit::from("TEST"), DataSplit::Unknown);
    assert_eq!(DataSplit::from("VAL"), DataSplit::Unknown);
    assert_eq!(DataSplit::from(" train"), DataSplit::Unknown);
    assert_eq!(DataSplit::from("train "), DataSplit::Unknown);
    assert_eq!(DataSplit::from("trai"), DataSplit::Unknown);
    assert_eq!(DataSplit::from("trainn"), DataSplit::Unknown);
    assert_eq!(DataSplit::from("unknown"), DataSplit::Unknown);
    assert_eq!(DataSplit::from("Unknown"), DataSplit::Unknown);
}

#[test]
fn two_records_by_name_and_by_split() {
    let dataset = two_records();
    assert_eq!(dataset.get_splits_for("r2"), vec![DataSplit::Test]);
    assert_eq!(dataset.get_splits_for("r3"), Vec::<DataSplit>::new());
    assert_eq!(dataset.get_names_for(DataSplit::Test), vec!["r2".to_string()]);
    assert_eq!(dataset.get_names_for(DataSplit::Train), vec!["r1".to_string()]);
    assert_eq!(dataset.get_names_for(DataSplit::Validation), Vec::<String>::new());
    assert_eq!(dataset.get_names_for(DataSplit::Unknown), Vec::<String>::new());
}

#[test]
fn empty_dataset_answers_nothing() {
    let dataset = Dataset::new(Vec::new());
    for name in ["", "r1", "r2", "train", " "] {
        assert_eq!(dataset.get_splits_for(name), Vec::<DataSplit>::new());
    }
    for split in [DataSplit::Train, DataSplit::Validation, DataSplit::Test, DataSplit::Unknown] {
        assert_eq!(dataset.get_names_for(split), Vec::<String>::new());
    }
}

#[test]
fn shared_names_keep_their_order() {
    let dataset = Dataset::new(vec![
        Record::new("a".to_string(), DataSplit::Test),
        Record::new("b".to_string(), DataSplit::Train),
        Record::new("a".to_string(), DataSplit::Train),
        Record::new("a".to_string(), DataSplit::Test),
        Record::new("c".to_string(), DataSplit::Unknown),
    ]);
    assert_eq!(
        dataset.get_splits_for("a"),
        vec![DataSplit::Test, DataSplit::Train, DataSplit::Test]
    );
    assert_eq!(dataset.get_splits_for("b"), vec![DataSplit::Train]);
    assert_eq!(dataset.get_names_for(DataSplit::Test), vec!["a".to_string(), "a".to_string()]);
    assert_eq!(dataset.get_names_for(DataSplit::Train), vec!["b".to_string(), "a".to_string()]);
    assert_eq!(dataset.get_names_for(DataSplit::Unknown), vec!["c".to_string()]);
}

#[test]
fn name_is_compared_exactly() {
    let dataset = two_records();
    assert_eq!(dataset.get_splits_for("R1"), Vec::<DataSplit>::new());
    assert_eq!(dataset.get_splits_for(" r1"), Vec::<DataSplit>::new());
    assert_eq!(dataset.get_splits_for("r1 "), Vec::<DataSplit>::new());
    assert_eq!(dataset.get_splits_for("r"), Vec::<DataSplit>::new());
    assert_eq!(dataset.get_splits_for("r1"), vec![DataSplit::Train]);
}

#[test]
fn lookups_leave_the_dataset_as_it_was() {
    let dataset = two_records();
    let before = format!("{:?}", dataset);
    let first = dataset.get_splits_for("r1");
    let names = dataset.get_names_for(DataSplit::Test);
    assert_eq!(dataset.get_splits_for("r1"), first);
    assert_eq!(dataset.get_names_for(DataSplit::Test), names);
    assert_eq!(format!("{:?}", dataset), before);
}

#[test]
fn listings_read_as_lists() {
    let dataset = two_records();
    assert_eq!(format!("{:?}", dataset.get_splits_for("r1")), "[Train]");
    assert_eq!(format!("{:?}", dataset.get_splits_for("r3")), "[]");
    assert_eq!(format!("{:?}", dataset.get_names_for(DataSplit::Test)), "[\"r2\"]");
}
