use smoke::interval::Interval;
use smoke::reading::{Error, ReadStep, Reading};

#[test]
fn an_error_carries_its_message() {
    let error = Error::new("unable to connect to host");
    assert_eq!(error.message(), "unable to connect to host");
    assert_eq!(error.clone().message(), "unable to connect to host");
}

#[test]
fn bytes_are_data() {
    match Reading::classify(Ok(vec![1, 2, 3])) {
        ReadStep::Data(bytes) => assert_eq!(bytes, vec![1, 2, 3]),
        _ => panic!("bytes were not taken for data"),
    }
}

#[test]
fn no_bytes_are_the_end() {
    assert!(matches!(Reading::classify(Ok(Vec::new())), ReadStep::End));
}

#[test]
fn a_failed_read_is_reported_with_its_message() {
    match Reading::classify(Err(())) {
        ReadStep::Failed(error) => assert_eq!(error.message(), "error reading from the socket"),
        _ => panic!("a failed read was not reported"),
    }
}

#[test]
fn only_the_first_resume_starts_the_read_loop() {
    let mut state = Reading::new();
    assert!(!state.reading());
    assert!(state.resume());
    assert!(state.reading());
    assert!(!state.resume());
    assert!(state.reading());
    state.pause();
    assert!(!state.reading());
    state.pause();
    assert!(!state.reading());
    assert!(state.resume());
    assert!(state.reading());
}

#[test]
fn a_timer_runs_until_it_is_cleared() {
    let mut timer = Interval::new(250);
    assert_eq!(timer.interval(), 250);
    assert!(timer.running());
    timer.clear();
    assert!(!timer.running());
    assert_eq!(timer.interval(), 250);
    timer.clear();
    assert!(!timer.running());
}
