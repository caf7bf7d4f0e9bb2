//! The data splits and the classification of split labels.

use vstd::prelude::*;
use crate::text::str_eq;

verus! {

/// The part of the data that a record belongs to. `Unknown` stands for every
/// label that is not recognized; it is a value like the others, no failure.
#[derive(Debug, Clone, Copy, PartialEq, Eq, Hash, Structural)]
pub enum DataSplit {
    Train,
    Validation,
    Test,
    Unknown,
}

/// The spellings that name the training split.
pub open spec fn is_train_label(raw: Seq<char>) -> bool {
    raw == "train"@ || raw == "Train"@ || raw == "training"@ || raw == "Training"@
}

/// The spellings that name the test split.
pub open spec fn is_test_label(raw: Seq<char>) -> bool {
    raw == "test"@ || raw == "Test"@
}

/// The spellings that name the validation split.
pub open spec fn is_validation_label(raw: Seq<char>) -> bool {
    raw == "validation"@ || raw == "Validation"@ || raw == "val"@ || raw == "Val"@
}

/// The split that a label names. Only the listed spellings are recognized:
/// the label is neither trimmed nor folded to one case.
pub open spec fn classify(raw: Seq<char>) -> DataSplit {
    if is_train_label(raw) {
        DataSplit::Train
    } else if is_test_label(raw) {
        DataSplit::Test
    } else if is_validation_label(raw) {
        DataSplit::Validation
    } else {
        DataSplit::Unknown
    }
}

/// No spelling names two splits: a label of one of the three lists is
/// classified as the split of that list, and every other string, the empty
/// one too, as `Unknown`.
pub proof fn lemma_classify_by_list(raw: Seq<char>)
    ensures
        is_train_label(raw) <==> classify(raw) == DataSplit::Train,
        is_test_label(raw) <==> classify(raw) == DataSplit::Test,
        is_validation_label(raw) <==> classify(raw) == DataSplit::Validation,
        !is_train_label(raw) && !is_test_label(raw) && !is_validation_label(raw) <==> classify(raw)
            == DataSplit::Unknown,
        raw.len() == 0 ==> classify(raw) == DataSplit::Unknown,
{
    reveal_strlit("train");
    reveal_strlit("Train");
    reveal_strlit("training");
    reveal_strlit("Training");
    reveal_strlit("test");
    reveal_strlit("Test");
    reveal_strlit("validation");
    reveal_strlit("Validation");
    reveal_strlit("val");
    reveal_strlit("Val");
    assert("train"@.len() == 5 && "Train"@.len() == 5);
    assert("training"@.len() == 8 && "Training"@.len() == 8);
    assert("test"@.len() == 4 && "Test"@.len() == 4);
    assert("validation"@.len() == 10 && "Validation"@.len() == 10);
    assert("val"@.len() == 3 && "Val"@.len() == 3);
}

impl<'a> From<&'a str> for DataSplit {
    /// Classifies a label; every string has a split.
    fn from(s: &'a str) -> (split: DataSplit) {
        if str_eq(s, "train") || str_eq(s, "Train") || str_eq(s, "training")
            || str_eq(s, "Training") {
            DataSplit::Train
        } else if str_eq(s, "test") || str_eq(s, "Test") {
            DataSplit::Test
        } else if str_eq(s, "validation") || str_eq(s, "Validation") || str_eq(s, "val")
            || str_eq(s, "Val") {
            DataSplit::Validation
        } else {
            DataSplit::Unknown
        }
    }
}

impl<'a> vstd::std_specs::convert::FromSpecImpl<&'a str> for DataSplit {
    open spec fn obeys_from_spec() -> bool {
        true
    }

    open spec fn from_spec(s: &'a str) -> DataSplit {
        classify(s@)
    }
}

} // verus!
