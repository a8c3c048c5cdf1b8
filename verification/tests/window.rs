use cellular_automaton::window::{step, Phase, WindowEvent};

#[test]
fn quit_closes_the_window() {
    assert_eq!(step(Phase::Showing, WindowEvent::Quit), Phase::Closed);
}

#[test]
fn escape_closes_the_window() {
    assert_eq!(step(Phase::Showing, WindowEvent::EscapeDown), Phase::Closed);
}

#[test]
fn other_events_leave_the_window_open() {
    assert_eq!(step(Phase::Showing, WindowEvent::Other), Phase::Showing);
}

#[test]
fn a_closed_window_stays_closed() {
    assert_eq!(step(Phase::Closed, WindowEvent::Other), Phase::Closed);
    assert_eq!(step(Phase::Closed, WindowEvent::Quit), Phase::Closed);
    assert_eq!(step(Phase::Closed, WindowEvent::EscapeDown), Phase::Closed);
}

#[test]
fn a_run_of_events_closes_at_the_first_request() {
    let events = [
        WindowEvent::Other,
        WindowEvent::Other,
        WindowEvent::EscapeDown,
        WindowEvent::Other,
    ];
    let mut phase = Phase::Showing;
    let mut seen = Vec::new();
    for event in events {
        phase = step(phase, event);
        seen.push(phase);
    }
    assert_eq!(seen, vec![Phase::Showing, Phase::Showing, Phase::Closed, Phase::Closed]);
}
