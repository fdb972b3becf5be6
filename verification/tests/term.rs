use daylight::term::{exit_code_for_signal, TermGuard};

#[test]
fn guard_restores_once_per_entry() {
    let mut g = TermGuard::entered();
    assert!(g.is_active());
    assert!(g.restore(), "first restore performs the teardown");
    assert!(!g.is_active());
    assert!(!g.restore(), "second restore has nothing to do");
    g.resumed();
    assert!(g.is_active());
    assert!(g.restore());
    assert!(!g.restore());
}

#[test]
fn signal_exit_codes() {
    assert_eq!(exit_code_for_signal(2), 130); // INT
    assert_eq!(exit_code_for_signal(15), 143); // TERM
    assert_eq!(exit_code_for_signal(1), 129); // HUP
    assert_eq!(exit_code_for_signal(3), 131); // QUIT
    assert_eq!(exit_code_for_signal(0), 128);
}

#[test]
fn guard_owns_exactly_after_entry_or_resume() {
    let mut g = TermGuard::entered();
    // restore, restore, resume, restore (a suspension), resume
    let mut dues = Vec::new();
    dues.push(g.restore());
    dues.push(g.restore());
    g.resumed();
    assert!(g.is_active());
    dues.push(g.restore());
    assert!(!g.is_active());
    g.resumed();
    assert!(g.is_active());
    assert_eq!(dues, vec![true, false, true]);
}
