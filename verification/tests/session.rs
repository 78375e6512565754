use factorr::session::{
    answer, select_mode, Diagnostic, Exit, Input, Reply, Session, SessionConfig, SessionMode,
    Stage,
};

fn config(is_terminal: bool, interactive: bool) -> SessionConfig {
    SessionConfig { is_terminal, interactive }
}

fn line(text: &str) -> Input {
    Input::Line(text.to_string())
}

fn output(text: &str) -> Reply {
    Reply::Output(text.to_string())
}

fn not_a_number(text: &str) -> Reply {
    Reply::Complaint(Diagnostic::NotANumber(text.to_string()))
}

fn started(is_terminal: bool, interactive: bool, has_numbers: bool) -> Session {
    let mut session = Session::new();
    session.start(config(is_terminal, interactive), has_numbers);
    session
}

#[test]
fn numbers_make_a_batch_whatever_else_is_set() {
    assert_eq!(select_mode(config(false, false), true), Some(SessionMode::Batch));
    assert_eq!(select_mode(config(false, true), true), Some(SessionMode::Batch));
    assert_eq!(select_mode(config(true, false), true), Some(SessionMode::Batch));
    assert_eq!(select_mode(config(true, true), true), Some(SessionMode::Batch));
}

#[test]
fn a_terminal_without_the_flag_is_a_misuse() {
    assert_eq!(select_mode(config(true, false), false), None);
}

#[test]
fn the_flag_makes_the_session_interactive() {
    assert_eq!(select_mode(config(true, true), false), Some(SessionMode::Interactive));
    assert_eq!(select_mode(config(false, true), false), Some(SessionMode::Interactive));
}

#[test]
fn a_stream_without_the_flag_is_piped() {
    assert_eq!(select_mode(config(false, false), false), Some(SessionMode::Piped));
}

#[test]
fn a_new_session_waits_at_the_start() {
    let session = Session::new();
    assert_eq!(session.stage(), Stage::Start);
    assert!(!session.is_running());
    assert_eq!(session.history_len(), 0);
    assert_eq!(session.recall(0), None);
}

#[test]
fn a_session_that_has_not_started_takes_no_input() {
    let mut session = Session::new();
    assert_eq!(session.feed(line("12")), Reply::Silent);
    assert_eq!(session.feed(Input::Number(12)), Reply::Silent);
    assert_eq!(session.feed(Input::End), Reply::Silent);
    assert_eq!(session.stage(), Stage::Start);
}

#[test]
fn starting_chooses_the_mode() {
    let mut batch = Session::new();
    assert_eq!(batch.start(config(true, false), true), Reply::Silent);
    assert_eq!(batch.stage(), Stage::Running(SessionMode::Batch));
    let mut piped = Session::new();
    assert_eq!(piped.start(config(false, false), false), Reply::Silent);
    assert_eq!(piped.stage(), Stage::Running(SessionMode::Piped));
    assert!(piped.is_running());
}

#[test]
fn starting_an_interactive_session_welcomes() {
    let mut session = Session::new();
    assert_eq!(session.start(config(true, true), false), Reply::Welcome);
    assert_eq!(session.stage(), Stage::Running(SessionMode::Interactive));
}

#[test]
fn misuse_ends_the_session_before_any_work() {
    let mut session = Session::new();
    assert_eq!(session.start(config(true, false), false), Reply::Complaint(Diagnostic::Usage));
    assert_eq!(session.stage(), Stage::Terminated(Exit::Failure));
    assert_eq!(session.feed(line("12")), Reply::Silent);
    assert_eq!(session.stage(), Stage::Terminated(Exit::Failure));
}

#[test]
fn starting_twice_changes_nothing() {
    let mut session = started(false, false, false);
    assert_eq!(session.start(config(true, true), false), Reply::Silent);
    assert_eq!(session.stage(), Stage::Running(SessionMode::Piped));
    session.feed(Input::End);
    assert_eq!(session.start(config(true, true), false), Reply::Silent);
    assert_eq!(session.stage(), Stage::Terminated(Exit::Success));
}

#[test]
fn batch_of_two_numbers_gives_two_lines() {
    let mut session = started(true, false, true);
    let mut lines: Vec<Reply> = Vec::new();
    for n in [127u128, 581u128] {
        lines.push(session.feed(Input::Number(n)));
    }
    assert_eq!(lines, vec![output("127"), output("7 83")]);
    assert!(session.is_running());
    assert_eq!(session.feed(Input::End), Reply::Silent);
    assert_eq!(session.stage(), Stage::Terminated(Exit::Success));
}

#[test]
fn batch_stops_at_zero() {
    let mut session = started(false, false, true);
    assert_eq!(session.feed(Input::Number(12)), output("2 2 3"));
    assert_eq!(session.feed(Input::Number(0)), Reply::Complaint(Diagnostic::InvalidInput));
    assert_eq!(session.stage(), Stage::Terminated(Exit::Failure));
    assert_eq!(session.feed(Input::Number(12)), Reply::Silent);
}

#[test]
fn batch_answers_one_with_an_empty_line() {
    let mut session = started(false, false, true);
    assert_eq!(session.feed(Input::Number(1)), output(""));
    assert!(session.is_running());
}

#[test]
fn piped_session_fails_fast_on_a_bad_line() {
    let mut session = started(false, false, false);
    assert_eq!(session.feed(line("12")), output("2 2 3"));
    assert!(session.is_running());
    assert_eq!(session.feed(line("abc")), not_a_number("abc"));
    assert_eq!(session.stage(), Stage::Terminated(Exit::Failure));
    assert_eq!(session.feed(line("360")), Reply::Silent);
    assert_eq!(session.stage(), Stage::Terminated(Exit::Failure));
}

#[test]
fn piped_session_ends_with_its_input() {
    let mut session = started(false, false, false);
    assert_eq!(session.feed(line("360")), output("2 2 2 3 3 5"));
    assert_eq!(session.feed(Input::End), Reply::Silent);
    assert_eq!(session.stage(), Stage::Terminated(Exit::Success));
}

#[test]
fn piped_session_takes_lines_as_they_are() {
    let mut session = started(false, false, false);
    assert_eq!(session.feed(line(" 12")), not_a_number(" 12"));
    assert_eq!(session.stage(), Stage::Terminated(Exit::Failure));
}

#[test]
fn piped_session_does_not_know_the_quit_command() {
    let mut session = started(false, false, false);
    assert_eq!(session.feed(line("exit")), not_a_number("exit"));
    assert_eq!(session.stage(), Stage::Terminated(Exit::Failure));
}

#[test]
fn piped_session_stops_at_zero() {
    let mut session = started(false, false, false);
    assert_eq!(session.feed(line("0")), Reply::Complaint(Diagnostic::InvalidInput));
    assert_eq!(session.stage(), Stage::Terminated(Exit::Failure));
}

#[test]
fn piped_session_remembers_nothing() {
    let mut session = started(false, false, false);
    session.feed(line("12"));
    assert_eq!(session.history_len(), 0);
}

#[test]
fn interactive_session_forgives_a_bad_line() {
    let mut session = Session::new();
    assert_eq!(session.start(config(true, true), false), Reply::Welcome);
    assert_eq!(session.feed(line("12")), output("=> 2 2 3"));
    assert_eq!(session.feed(line("abc")), not_a_number("abc"));
    assert_eq!(session.stage(), Stage::Running(SessionMode::Interactive));
    assert_eq!(session.feed(line("exit")), Reply::Silent);
    assert_eq!(session.stage(), Stage::Terminated(Exit::Success));
}

#[test]
fn interactive_session_forgives_zero() {
    let mut session = started(true, true, false);
    assert_eq!(session.feed(line("0")), Reply::Complaint(Diagnostic::InvalidInput));
    assert!(session.is_running());
    assert_eq!(session.feed(line("7")), output("=> 7"));
}

#[test]
fn interactive_session_trims_the_line() {
    let mut session = started(true, true, false);
    assert_eq!(session.feed(line("  581\t")), output("=> 7 83"));
    assert_eq!(session.feed(line(" x ")), not_a_number(" x "));
    assert_eq!(session.feed(line("  EXIT ")), Reply::Silent);
    assert_eq!(session.stage(), Stage::Terminated(Exit::Success));
}

#[test]
fn interactive_session_answers_one_with_the_marker_alone() {
    let mut session = started(true, true, false);
    assert_eq!(session.feed(line("1")), output("=>"));
}

#[test]
fn interactive_session_ends_on_end_of_input_and_on_interrupt() {
    let mut ended = started(true, true, false);
    assert_eq!(ended.feed(Input::End), Reply::Silent);
    assert_eq!(ended.stage(), Stage::Terminated(Exit::Success));
    let mut interrupted = started(true, true, false);
    assert_eq!(interrupted.feed(Input::Interrupt), Reply::Silent);
    assert_eq!(interrupted.stage(), Stage::Terminated(Exit::Success));
}

#[test]
fn interactive_session_remembers_lines_most_recent_first() {
    let mut session = started(true, true, false);
    session.feed(line("12"));
    session.feed(line("abc"));
    session.feed(line(" 7 "));
    assert_eq!(session.history_len(), 3);
    assert_eq!(session.recall(0), Some(&" 7 ".to_string()));
    assert_eq!(session.recall(1), Some(&"abc".to_string()));
    assert_eq!(session.recall(2), Some(&"12".to_string()));
    assert_eq!(session.recall(3), None);
}

#[test]
fn interactive_session_does_not_remember_the_quit_command() {
    let mut session = started(true, true, false);
    session.feed(line("12"));
    session.feed(line("exit"));
    assert_eq!(session.history_len(), 1);
    assert_eq!(session.recall(0), Some(&"12".to_string()));
}

#[test]
fn a_failed_read_ends_every_session() {
    for (interactive, has_numbers) in [(false, false), (true, false), (false, true)] {
        let mut session = started(false, interactive, has_numbers);
        assert_eq!(
            session.feed(Input::Failure("broken pipe".to_string())),
            Reply::Complaint(Diagnostic::ReadFailure("broken pipe".to_string()))
        );
        assert_eq!(session.stage(), Stage::Terminated(Exit::Failure));
    }
}

#[test]
fn a_session_that_is_over_stays_over() {
    let mut session = started(true, true, false);
    session.feed(line("exit"));
    assert_eq!(session.feed(line("12")), Reply::Silent);
    assert_eq!(session.feed(Input::Failure("late".to_string())), Reply::Silent);
    assert_eq!(session.stage(), Stage::Terminated(Exit::Success));
    assert_eq!(session.history_len(), 0);
}

#[test]
fn numbers_are_answered_by_mode() {
    assert_eq!(answer(SessionMode::Batch, 12), output("2 2 3"));
    assert_eq!(answer(SessionMode::Piped, 12), output("2 2 3"));
    assert_eq!(answer(SessionMode::Interactive, 12), output("=> 2 2 3"));
    assert_eq!(answer(SessionMode::Piped, 0), Reply::Complaint(Diagnostic::InvalidInput));
}
