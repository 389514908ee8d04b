use tacc_sync::boolify;
use tacc_sync::config::{after_cycle, truthy, AfterCycle};

#[test]
fn boolify_accepts_the_truthy_words() {
    for word in ["true", "t", "yes", "y", "1"] {
        assert!(boolify(word), "{}", word);
    }
}

#[test]
fn boolify_ignores_case() {
    for word in ["TRUE", "True", "T", "YES", "Yes", "Y"] {
        assert!(boolify(word), "{}", word);
    }
}

#[test]
fn boolify_rejects_the_falsy_words() {
    for word in ["false", "f", "no", "n", "0", "FALSE", "F", "NO", "N"] {
        assert!(!boolify(word), "{}", word);
    }
}

#[test]
fn boolify_rejects_everything_else() {
    for word in ["", " true", "true ", "on", "2", "yess", "tr ue", "oui"] {
        assert!(!boolify(word), "{}", word);
    }
}

#[test]
fn truthy_expects_lower_case() {
    assert!(truthy("yes"));
    assert!(!truthy("YES"));
    assert!(!truthy("no"));
}

#[test]
fn after_cycle_exits_or_sleeps() {
    assert_eq!(after_cycle(true, 30), AfterCycle::Exit);
    assert_eq!(after_cycle(false, 30), AfterCycle::Sleep { seconds: 30 });
}
