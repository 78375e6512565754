//! The session driver: which mode a run is in, and what each piece of input
//! does to it.
//!
//! A session begins in [`Stage::Start`], is put into one of the three modes
//! by [`Session::start`], and is then fed its input one item at a time with
//! [`Session::feed`]. Each item gets a [`Reply`] that says what to write, and
//! the session says whether it still runs. The session itself reads and
//! writes nothing.

use crate::decimal::{
    factor_line, format_factors, format_marked_factors, marked_factor_line, number_of,
    parse_digits, parse_number,
};
use crate::factorizer::{factor, prime_factors};
use crate::text::{chars_of, is_quit_command, spells_quit, trim_chars, trimmed};
use vstd::prelude::*;

verus! {

/// What the surroundings of a run look like.
#[derive(Debug, Clone, Copy, PartialEq, Eq, Structural)]
pub struct SessionConfig {
    /// Standard input is attached to a terminal.
    pub is_terminal: bool,
    /// An interactive session was asked for.
    pub interactive: bool,
}

/// How a session takes its input.
#[derive(Debug, Clone, Copy, PartialEq, Eq, Structural)]
pub enum SessionMode {
    /// A fixed list of numbers, given up front.
    Batch,
    /// Lines from a stream that nobody attends; the first bad line ends it.
    Piped,
    /// Lines from a person, who may retry after a bad line.
    Interactive,
}

/// How a session ended.
#[derive(Debug, Clone, Copy, PartialEq, Eq, Structural)]
pub enum Exit {
    /// All input was handled, or the user left.
    Success,
    /// The session stopped early: misuse, bad input, or a failed read.
    Failure,
}

/// Where a session stands.
#[derive(Debug, Clone, Copy, PartialEq, Eq, Structural)]
pub enum Stage {
    /// No mode has been chosen yet.
    Start,
    /// The session takes input in the given mode.
    Running(SessionMode),
    /// The session is over.
    Terminated(Exit),
}

/// One item of input.
#[derive(Debug, PartialEq, Eq)]
pub enum Input {
    /// A number that was given as such.
    Number(u128),
    /// A line of text, without its line ending.
    Line(String),
    /// The input has ended.
    End,
    /// The user interrupted the read.
    Interrupt,
    /// The read failed for another reason, described by the text.
    Failure(String),
}

/// Something to tell the user on the error stream.
#[derive(Debug, PartialEq, Eq)]
pub enum Diagnostic {
    /// Nothing says where the numbers are to come from.
    Usage,
    /// The line, given here as it was read, is not a number.
    NotANumber(String),
    /// The number is zero, which has no factorization.
    InvalidInput,
    /// Reading failed, as the text describes.
    ReadFailure(String),
}

/// What a session answers to one step.
#[derive(Debug, PartialEq, Eq)]
pub enum Reply {
    /// Nothing is to be written.
    Silent,
    /// An interactive session has begun: greet the user and name the ways to
    /// quit.
    Welcome,
    /// A line for the output stream.
    Output(String),
    /// A diagnostic for the error stream.
    Complaint(Diagnostic),
}

/// An [`Input`] with its texts as character sequences.
pub enum InputView {
    Number(u128),
    Line(Seq<char>),
    End,
    Interrupt,
    Failure(Seq<char>),
}

/// A [`Diagnostic`] with its texts as character sequences.
pub enum DiagnosticView {
    Usage,
    NotANumber(Seq<char>),
    InvalidInput,
    ReadFailure(Seq<char>),
}

/// A [`Reply`] with its texts as character sequences.
pub enum ReplyView {
    Silent,
    Welcome,
    Output(Seq<char>),
    Complaint(DiagnosticView),
}

impl View for Input {
    type V = InputView;

    open spec fn view(&self) -> InputView {
        match self {
            Input::Number(n) => InputView::Number(*n),
            Input::Line(text) => InputView::Line(text@),
            Input::End => InputView::End,
            Input::Interrupt => InputView::Interrupt,
            Input::Failure(what) => InputView::Failure(what@),
        }
    }
}

impl View for Diagnostic {
    type V = DiagnosticView;

    open spec fn view(&self) -> DiagnosticView {
        match self {
            Diagnostic::Usage => DiagnosticView::Usage,
            Diagnostic::NotANumber(text) => DiagnosticView::NotANumber(text@),
            Diagnostic::InvalidInput => DiagnosticView::InvalidInput,
            Diagnostic::ReadFailure(what) => DiagnosticView::ReadFailure(what@),
        }
    }
}

impl View for Reply {
    type V = ReplyView;

    open spec fn view(&self) -> ReplyView {
        match self {
            Reply::Silent => ReplyView::Silent,
            Reply::Welcome => ReplyView::Welcome,
            Reply::Output(line) => ReplyView::Output(line@),
            Reply::Complaint(diagnostic) => ReplyView::Complaint(diagnostic@),
        }
    }
}

/// The mode that a run starts in, if it can start at all.
///
/// Numbers given up front make a batch, whatever else is set. Without them,
/// a terminal on standard input is only good for an interactive session, and
/// one that was not asked for is a misuse. Otherwise the session is
/// interactive where that was asked for, and piped where not.
pub open spec fn mode_for(config: SessionConfig, has_numbers: bool) -> Option<SessionMode> {
    if has_numbers {
        Some(SessionMode::Batch)
    } else if config.is_terminal && !config.interactive {
        None
    } else if config.interactive {
        Some(SessionMode::Interactive)
    } else {
        Some(SessionMode::Piped)
    }
}

/// The number that a line stands for in the given mode. An interactive
/// session forgives white space around the number; the other modes take the
/// line as it is.
pub open spec fn number_in(mode: SessionMode, line: Seq<char>) -> Option<u128> {
    if mode == SessionMode::Interactive {
        number_of(trimmed(line))
    } else {
        number_of(line)
    }
}

/// Whether a line ends the session in the given mode: the quit command does,
/// in an interactive session.
pub open spec fn quits(mode: SessionMode, line: Seq<char>) -> bool {
    mode == SessionMode::Interactive && is_quit_command(line)
}

/// The answer to a number: its factor line, opened by the result marker in
/// an interactive session, or the complaint that zero cannot be factored.
pub open spec fn answer_to(mode: SessionMode, n: u128) -> ReplyView {
    if n == 0 {
        ReplyView::Complaint(DiagnosticView::InvalidInput)
    } else if mode == SessionMode::Interactive {
        ReplyView::Output(marked_factor_line(prime_factors(n as nat)))
    } else {
        ReplyView::Output(factor_line(prime_factors(n as nat)))
    }
}

/// The reply that a session at `stage` gives to `input`.
pub open spec fn reply_to(stage: Stage, input: InputView) -> ReplyView {
    match stage {
        Stage::Running(mode) => match input {
            InputView::Number(n) => answer_to(mode, n),
            InputView::Line(text) => if quits(mode, text) {
                ReplyView::Silent
            } else {
                match number_in(mode, text) {
                    Some(n) => answer_to(mode, n),
                    None => ReplyView::Complaint(DiagnosticView::NotANumber(text)),
                }
            },
            InputView::End => ReplyView::Silent,
            InputView::Interrupt => ReplyView::Silent,
            InputView::Failure(what) => ReplyView::Complaint(DiagnosticView::ReadFailure(what)),
        },
        _ => ReplyView::Silent,
    }
}

/// The stage that a session at `stage` is in after `input`.
///
/// A session that is not running stays as it is. A running one ends well
/// when the input ends, the user interrupts or quits, and ends badly when
/// the read fails. A number or line that gets an output line keeps it
/// running; one that gets a complaint ends every session but an interactive
/// one.
pub open spec fn stage_after(stage: Stage, input: InputView) -> Stage {
    match stage {
        Stage::Running(mode) => match input {
            InputView::End => Stage::Terminated(Exit::Success),
            InputView::Interrupt => Stage::Terminated(Exit::Success),
            InputView::Failure(_) => Stage::Terminated(Exit::Failure),
            InputView::Line(text) if quits(mode, text) => Stage::Terminated(Exit::Success),
            _ => if mode == SessionMode::Interactive || reply_to(stage, input) is Output {
                stage
            } else {
                Stage::Terminated(Exit::Failure)
            },
        },
        _ => stage,
    }
}

/// The input history after `input`: an interactive session remembers every
/// line it is given, but for the quit command.
pub open spec fn history_after(
    stage: Stage,
    history: Seq<Seq<char>>,
    input: InputView,
) -> Seq<Seq<char>> {
    match input {
        InputView::Line(text) => if stage == Stage::Running(SessionMode::Interactive)
            && !is_quit_command(text) {
            history.push(text)
        } else {
            history
        },
        _ => history,
    }
}

/// A session that is not running takes no input: whatever it is fed, it
/// stays where it is, says nothing and remembers nothing.
pub proof fn lemma_only_a_running_session_moves(
    stage: Stage,
    history: Seq<Seq<char>>,
    input: InputView,
)
    requires
        !(stage is Running),
    ensures
        stage_after(stage, input) == stage,
        reply_to(stage, input) == ReplyView::Silent,
        history_after(stage, history, input) == history,
{
}

/// The mode of a session is fixed once chosen: a running session either
/// goes on in the mode it has or ends.
pub proof fn lemma_mode_is_fixed(mode: SessionMode, input: InputView)
    ensures
        stage_after(Stage::Running(mode), input) == Stage::Running(mode) || stage_after(
            Stage::Running(mode),
            input,
        ) is Terminated,
{
}

/// The history is only ever added to, at its end and one line at a time.
pub proof fn lemma_history_grows(stage: Stage, history: Seq<Seq<char>>, input: InputView)
    ensures
        ({
            let after = history_after(stage, history, input);
            after == history || (input matches InputView::Line(text) && after == history.push(text))
        }),
{
}

/// Exactly the numbers above zero get an output line, whether given as
/// numbers or spelled on a line, and every such line is the factor line of
/// its number: opened by the result marker in an interactive session, bare
/// otherwise.
pub proof fn lemma_one_line_per_number(mode: SessionMode, input: InputView)
    ensures
        ({
            let number = match input {
                InputView::Number(n) => Some(n),
                InputView::Line(text) => if quits(mode, text) {
                    None
                } else {
                    number_in(mode, text)
                },
                _ => None,
            };
            match reply_to(Stage::Running(mode), input) {
                ReplyView::Output(line) => number is Some && number->0 > 0 && line == (if mode
                    == SessionMode::Interactive {
                    marked_factor_line(prime_factors(number->0 as nat))
                } else {
                    factor_line(prime_factors(number->0 as nat))
                }),
                _ => number is None || number->0 == 0,
            }
        }),
{
}

/// A batch or piped session fails fast: the first line that is no number,
/// and the first zero, end it in failure with the complaint.
pub proof fn lemma_unattended_session_fails_fast(mode: SessionMode, input: InputView)
    requires
        mode != SessionMode::Interactive,
        reply_to(Stage::Running(mode), input) is Complaint,
    ensures
        stage_after(Stage::Running(mode), input) == Stage::Terminated(Exit::Failure),
{
}

/// An interactive session forgives: a line that is no number, and a zero,
/// get their complaint and the session goes on.
pub proof fn lemma_interactive_session_forgives(input: InputView)
    requires
        input is Number || input is Line,
        reply_to(Stage::Running(SessionMode::Interactive), input) is Complaint,
    ensures
        stage_after(Stage::Running(SessionMode::Interactive), input) == Stage::Running(
            SessionMode::Interactive,
        ),
{
}

/// An interactive session never ends in failure but on a failed read.
pub proof fn lemma_interactive_session_ends_well(input: InputView)
    requires
        !(input is Failure),
    ensures
        stage_after(Stage::Running(SessionMode::Interactive), input) != Stage::Terminated(
            Exit::Failure,
        ),
{
}

/// Chooses the mode for a run; `None` where the run is a misuse.
pub fn select_mode(config: SessionConfig, has_numbers: bool) -> (mode: Option<SessionMode>)
    ensures
        mode == mode_for(config, has_numbers),
{
    if has_numbers {
        Some(SessionMode::Batch)
    } else if config.is_terminal && !config.interactive {
        None
    } else if config.interactive {
        Some(SessionMode::Interactive)
    } else {
        Some(SessionMode::Piped)
    }
}

/// Answers a number in the given mode.
pub fn answer(mode: SessionMode, n: u128) -> (reply: Reply)
    ensures
        reply@ == answer_to(mode, n),
{
    match factor(n) {
        Ok(factors) => match mode {
            SessionMode::Interactive => Reply::Output(format_marked_factors(&factors)),
            _ => Reply::Output(format_factors(&factors)),
        },
        Err(_) => Reply::Complaint(Diagnostic::InvalidInput),
    }
}

/// A session and what it has seen so far.
pub struct Session {
    stage: Stage,
    history: Vec<String>,
}

/// A [`Session`] as its stage and the lines it remembers, oldest first.
pub struct SessionView {
    pub stage: Stage,
    pub history: Seq<Seq<char>>,
}

impl View for Session {
    type V = SessionView;

    closed spec fn view(&self) -> SessionView {
        SessionView { stage: self.stage, history: self.history@.map_values(|line: String| line@) }
    }
}

impl Session {
    /// A session that has not started.
    pub fn new() -> (session: Session)
        ensures
            session@.stage == Stage::Start,
            session@.history == Seq::<Seq<char>>::empty(),
    {
        let session = Session { stage: Stage::Start, history: Vec::new() };
        proof {
            assert(session@.history =~= Seq::<Seq<char>>::empty());
        }
        session
    }

    /// Where the session stands.
    pub fn stage(&self) -> (stage: Stage)
        ensures
            stage == self@.stage,
    {
        self.stage
    }

    /// Whether the session takes input.
    pub fn is_running(&self) -> (running: bool)
        ensures
            running == (self@.stage is Running),
    {
        match self.stage {
            Stage::Running(_) => true,
            _ => false,
        }
    }

    /// How many lines the session remembers.
    pub fn history_len(&self) -> (len: usize)
        ensures
            len == self@.history.len(),
    {
        self.history.len()
    }

    /// A remembered line, counted back from the most recent, which is line 0.
    pub fn recall(&self, back: usize) -> (line: Option<&String>)
        ensures
            back < self@.history.len() <==> line is Some,
            line matches Some(text) ==> text@ == self@.history[self@.history.len() - 1 - back],
    {
        let len = self.history.len();
        if back < len {
            Some(&self.history[len - 1 - back])
        } else {
            None
        }
    }

    /// Starts the session: chooses its mode from the configuration and from
    /// whether numbers were given up front.
    ///
    /// An interactive session answers with the welcome. Where no mode fits,
    /// the session ends at once in failure with the usage complaint. A
    /// session that has started already is left as it is.
    pub fn start(&mut self, config: SessionConfig, has_numbers: bool) -> (reply: Reply)
        ensures
            final(self)@.history == old(self)@.history,
            old(self)@.stage != Stage::Start ==> final(self)@.stage == old(self)@.stage && reply@
                == ReplyView::Silent,
            old(self)@.stage == Stage::Start ==> match mode_for(config, has_numbers) {
                Some(mode) => final(self)@.stage == Stage::Running(mode) && reply@ == (if mode
                    == SessionMode::Interactive {
                    ReplyView::Welcome
                } else {
                    ReplyView::Silent
                }),
                None => final(self)@.stage == Stage::Terminated(Exit::Failure) && reply@
                    == ReplyView::Complaint(DiagnosticView::Usage),
            },
    {
        match self.stage {
            Stage::Start => match select_mode(config, has_numbers) {
                Some(mode) => {
                    self.stage = Stage::Running(mode);
                    match mode {
                        SessionMode::Interactive => Reply::Welcome,
                        _ => Reply::Silent,
                    }
                },
                None => {
                    self.stage = Stage::Terminated(Exit::Failure);
                    Reply::Complaint(Diagnostic::Usage)
                },
            },
            _ => Reply::Silent,
        }
    }

    /// Gives the session its next item of input and returns what to write.
    pub fn feed(&mut self, input: Input) -> (reply: Reply)
        ensures
            reply@ == reply_to(old(self)@.stage, input@),
            final(self)@.stage == stage_after(old(self)@.stage, input@),
            final(self)@.history == history_after(old(self)@.stage, old(self)@.history, input@),
    {
        let mode = match self.stage {
            Stage::Running(mode) => mode,
            _ => {
                return Reply::Silent;
            },
        };
        match input {
            Input::Number(n) => {
                let reply = answer(mode, n);
                self.settle(mode, &reply);
                reply
            },
            Input::Line(text) => {
                let number = match mode {
                    SessionMode::Interactive => {
                        let chars = chars_of(text.as_str());
                        let inner = trim_chars(chars.as_slice());
                        if spells_quit(inner) {
                            self.stage = Stage::Terminated(Exit::Success);
                            return Reply::Silent;
                        }
                        let number = parse_digits(inner);
                        self.history.push(text.clone());
                        proof {
                            assert(self@.history =~= old(self)@.history.push(text@));
                        }
                        number
                    },
                    _ => parse_number(text.as_str()),
                };
                let reply = match number {
                    Some(n) => answer(mode, n),
                    None => Reply::Complaint(Diagnostic::NotANumber(text)),
                };
                self.settle(mode, &reply);
                reply
            },
            Input::End => {
                self.stage = Stage::Terminated(Exit::Success);
                Reply::Silent
            },
            Input::Interrupt => {
                self.stage = Stage::Terminated(Exit::Success);
                Reply::Silent
            },
            Input::Failure(what) => {
                self.stage = Stage::Terminated(Exit::Failure);
                Reply::Complaint(Diagnostic::ReadFailure(what))
            },
        }
    }

    /// Ends a session that does not forgive once its reply is a complaint.
    fn settle(&mut self, mode: SessionMode, reply: &Reply)
        requires
            old(self).stage == Stage::Running(mode),
        ensures
            final(self).history == old(self).history,
            final(self).stage == (if mode == SessionMode::Interactive || reply@ is Output {
                old(self).stage
            } else {
                Stage::Terminated(Exit::Failure)
            }),
    {
        match mode {
            SessionMode::Interactive => {},
            _ => match reply {
                Reply::Output(_) => {},
                _ => {
                    self.stage = Stage::Terminated(Exit::Failure);
                },
            },
        }
    }
}

} // verus!
