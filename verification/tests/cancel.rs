use zudb_js::cancel::Watch;
use zudb_js::js::Kind;

#[test]
fn whichever_is_second_sees_what_the_other_did() {
    let mut first = Watch::new(false);
    assert!(!first.shared.ask());
    assert!(!first.enter());
    let mut second = Watch::new(false);
    assert!(second.enter());
    assert!(second.shared.ask());
    assert!(second.asked());
}

#[test]
fn a_signal_that_fires_late_stops_nothing() {
    let mut watch = Watch::new(false);
    assert!(watch.enter());
    watch.leave();
    assert!(!watch.shared.ask());
    assert!(watch.asked());
}

#[test]
fn a_signal_that_already_fired_is_still_watched() {
    let mut watch = Watch::new(true);
    assert!(watch.asked());
    assert!(!watch.enter());
}

#[test]
fn a_reason_is_something() {
    assert!(Watch::reason(&Ok(Kind::Object)));
    assert!(Watch::reason(&Ok(Kind::Text)));
    assert!(!Watch::reason(&Ok(Kind::Undefined)));
    assert!(!Watch::reason(&Ok(Kind::Null)));
    assert!(!Watch::reason(&Err("gone".to_string())));
}

#[test]
fn a_stop_is_heard_by_the_statement_it_was_meant_for_and_no_other() {
    let mut raised = false;
    let mut one = Watch::new(false);
    let mut two = Watch::new(false);
    assert!(one.enter());
    raised |= one.shared.ask();
    assert!(raised);
    one.leave();
    raised = false;
    assert!(two.enter());
    raised |= one.shared.ask();
    assert!(!raised);
    raised |= two.shared.ask();
    assert!(raised);
}
