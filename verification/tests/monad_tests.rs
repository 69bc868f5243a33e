use merge_rs::Merge;
use merge_rs::MergeError;

#[derive(Clone)]
struct MergeSpy(&'static str, bool);

impl MergeSpy {
    fn new() -> Self {
        Self::with_label("spy")
    }

    fn with_label(label: &'static str) -> Self {
        MergeSpy(label, false)
    }

    fn is_merge_called(&self) -> bool {
        self.1
    }

    fn label(&self) -> &str {
        self.0
    }
}

impl Merge for MergeSpy {
    fn merge_req(&self, _: &Self) -> bool {
        true
    }

    fn merge_rel(&self, _: &Self, _: Result<Self, MergeError>) -> bool {
        true
    }

    fn merge(&self, _: &Self) -> Result<Self, MergeError> {
        Ok(MergeSpy("merged", true))
    }
}

#[test]
fn monad_test_option_merge_both_none() {
    let left: Option<MergeSpy> = None;
    let right: Option<MergeSpy> = None;

    let actual = left.merge(&right).unwrap();
    assert!(actual.is_none());
}

#[test]
fn monad_test_option_merge_left_none() {
    let left = None;
    let right = Some(MergeSpy::new());

    let actual = left.merge(&right).unwrap();
    assert!(matches!(actual, Some(res) if !res.is_merge_called()));
}

#[test]
fn monad_test_option_merge_right_none() {
    let left = Some(MergeSpy::new());
    let right = None;

    let actual = left.merge(&right).unwrap();
    assert!(matches!(actual, Some(res) if !res.is_merge_called()));
}

#[test]
fn monad_test_option_merge_both_some() {
    let left = Some(MergeSpy::new());
    let right = Some(MergeSpy::new());

    let actual = left.merge(&right).unwrap();
    assert!(matches!(actual, Some(res) if res.is_merge_called()));
}

#[test]
fn monad_test_result_merge_left_err() {
    let left = Err(MergeSpy::with_label("left"));
    let right = Ok(MergeSpy::with_label("right"));

    let actual = left.merge(&right).unwrap();
    assert!(matches!(actual, Err(res) if res.label() == "left" && !res.is_merge_called()));
}

#[test]
fn monad_test_result_merge_left_both_err() {
    let left: Result<MergeSpy, MergeSpy> = Err(MergeSpy::with_label("left"));
    let right: Result<MergeSpy, MergeSpy> = Err(MergeSpy::with_label("right"));

    let actual = left.merge(&right).unwrap();
    assert!(matches!(actual, Err(res) if res.label() == "right" && !res.is_merge_called()));
}

#[test]
fn monad_test_result_merge_right_err() {
    let left = Ok(MergeSpy::with_label("left"));
    let right = Err(MergeSpy::with_label("right"));

    let actual = left.merge(&right).unwrap();
    assert!(matches!(actual, Err(res) if res.label() == "right" && !res.is_merge_called()));
}

#[test]
fn monad_test_result_merge_both_ok() {
    let left: Result<MergeSpy, MergeSpy> = Ok(MergeSpy::with_label("left"));
    let right: Result<MergeSpy, MergeSpy> = Ok(MergeSpy::with_label("right"));

    let actual = left.merge(&right).unwrap();
    assert!(matches!(actual, Ok(res) if res.is_merge_called()));
}
