//! The error type shared by all models.
use crate::text;
use vstd::prelude::*;

verus! {

/// What went wrong, with a message for the user.
#[derive(Debug)]
pub enum Error {
    /// A checkpoint or its configuration cannot be used.
    Config { message: String },
    /// A request cannot be served.
    InvalidInput { message: String },
}

/// An [`Error`] with its message as a sequence of characters.
pub enum ErrorView {
    Config(Seq<char>),
    InvalidInput(Seq<char>),
}

impl View for Error {
    type V = ErrorView;

    open spec fn view(&self) -> ErrorView {
        match self {
            Error::Config { message } => ErrorView::Config(message@),
            Error::InvalidInput { message } => ErrorView::InvalidInput(message@),
        }
    }
}

impl Error {
    /// A configuration error.
    pub fn config(message: &str) -> (e: Error)
        ensures
            e@ == ErrorView::Config(message@),
    {
        Error::Config { message: message.to_owned() }
    }

    /// A request error.
    pub fn invalid_input(message: &str) -> (e: Error)
        ensures
            e@ == ErrorView::InvalidInput(message@),
    {
        Error::InvalidInput { message: message.to_owned() }
    }

    /// The text for the user.
    pub fn message(&self) -> (text: &str)
        ensures
            self@ == ErrorView::Config(text@) || self@ == ErrorView::InvalidInput(text@),
    {
        match self {
            Error::Config { message } => message.as_str(),
            Error::InvalidInput { message } => message.as_str(),
        }
    }
}

/// A message under construction.
#[derive(Debug)]
pub struct Message {
    pub text: String,
}

impl View for Message {
    type V = Seq<char>;

    open spec fn view(&self) -> Seq<char> {
        self.text@
    }
}

impl Message {
    /// Starts a message.
    pub fn new(start: &str) -> (m: Message)
        ensures
            m@ == start@,
    {
        Message { text: start.to_owned() }
    }

    /// Adds text.
    pub fn text(self, more: &str) -> (m: Message)
        ensures
            m@ == self@ + more@,
    {
        Message { text: self.text.concat(more) }
    }

    /// Adds a number in decimal.
    pub fn num(self, n: u64) -> (m: Message)
        ensures
            m@ == self@ + text::dec(n as nat),
    {
        let mut text = self.text;
        text::push_dec(&mut text, n);
        Message { text }
    }

    /// Adds a list of numbers, `[1, 2, 3]`.
    pub fn nums(self, list: &Vec<usize>) -> (m: Message)
        ensures
            m@ == self@ + text::dec_list(list@),
    {
        let mut text = self.text;
        text::push_list(&mut text, list);
        Message { text }
    }

    /// Adds three numbers in round brackets.
    pub fn triple(self, t: (usize, usize, usize)) -> (m: Message)
        ensures
            m@ == self@ + text::dec_triple(t),
    {
        let m = self.text("(").num(t.0 as u64).text(", ").num(t.1 as u64).text(", ").num(
            t.2 as u64,
        ).text(")");
        proof {
            assert(m@ =~= self@ + text::dec_triple(t));
        }
        m
    }

    /// Adds a quoted string.
    pub fn quoted(self, token: &str) -> (m: Message)
        ensures
            m@ == self@ + text::debug_quoted(token@),
    {
        let token = text::quote(token);
        Message { text: self.text.concat(token.as_str()) }
    }

    /// The finished text.
    pub fn finish(self) -> (s: String)
        ensures
            s@ == self@,
    {
        self.text
    }

    /// A configuration error with this message.
    pub fn config(self) -> (e: Error)
        ensures
            e@ == ErrorView::Config(self@),
    {
        Error::Config { message: self.text }
    }

    /// A request error with this message.
    pub fn invalid_input(self) -> (e: Error)
        ensures
            e@ == ErrorView::InvalidInput(self@),
    {
        Error::InvalidInput { message: self.text }
    }
}

/// The first of two problems.
pub open spec fn first_of(a: Option<ErrorView>, b: Option<ErrorView>) -> Option<ErrorView> {
    if a is Some {
        a
    } else {
        b
    }
}

/// A check that fails with the first of `errors`, if there is one.
pub open spec fn verdict(errors: Option<ErrorView>, result: Result<(), Error>) -> bool {
    match result {
        Ok(_) => errors is None,
        Err(e) => errors == Some(e@),
    }
}

/// What a check finds wrong: an error that is told word for word, or one of which only
/// the kind is told.
pub enum Fault {
    Told(ErrorView),
    /// Some error of a configuration.
    Config,
}

/// The fault that `error` is, word for word.
pub open spec fn told(error: Option<ErrorView>) -> Option<Fault> {
    match error {
        Some(error) => Some(Fault::Told(error)),
        None => None,
    }
}

/// An error is the one that `fault` tells.
pub open spec fn is_fault(e: ErrorView, fault: Fault) -> bool {
    match fault {
        Fault::Told(error) => e == error,
        Fault::Config => e is Config,
    }
}

/// A check that fails with `fault`, if there is one.
pub open spec fn finds(fault: Option<Fault>, result: Result<(), Error>) -> bool {
    match result {
        Ok(_) => fault is None,
        Err(e) => fault is Some && is_fault(e@, fault->0),
    }
}

/// Whether a result is the one that its model tells, where it may tell only the kind
/// of an error.
pub open spec fn reports<T>(result: Result<T, Error>, model: Result<T, Fault>) -> bool {
    match (result, model) {
        (Ok(a), Ok(b)) => a == b,
        (Err(e), Err(fault)) => is_fault(e@, fault),
        _ => false,
    }
}

/// Whether a result is the one that its model tells.
pub open spec fn tells<T>(result: Result<T, Error>, model: Result<T, ErrorView>) -> bool {
    match (result, model) {
        (Ok(a), Ok(b)) => a == b,
        (Err(e), Err(m)) => e@ == m,
        _ => false,
    }
}

/// A check passes when nothing is wrong, and otherwise fails with what is wrong, word
/// for word; of two things the first counts.
pub proof fn law_check_tells_what_is_wrong(
    a: Option<ErrorView>,
    b: Option<ErrorView>,
    result: Result<(), Error>,
    fault: Option<Fault>,
)
    ensures
        verdict(a, result) <==> match a {
            None => result is Ok,
            Some(problem) => result matches Err(e) && e@ == problem,
        },
        finds(fault, result) <==> match fault {
            None => result is Ok,
            Some(Fault::Told(problem)) => result matches Err(e) && e@ == problem,
            Some(Fault::Config) => result matches Err(e) && e@ is Config,
        },
        first_of(a, b) is None <==> a is None && b is None,
        a is Some ==> first_of(a, b) == a,
        a is None ==> first_of(a, b) == b,
        told(a) is None <==> a is None,
        a matches Some(problem) ==> told(a) == Some(Fault::Told(problem)),
{
}

/// A result is the one of its model: the same value, or an error that says the same.
pub proof fn law_result_is_that_of_its_model<T>(
    result: Result<T, Error>,
    value: T,
    problem: ErrorView,
)
    ensures
        tells(result, Ok::<T, ErrorView>(value)) <==> result == Ok::<T, Error>(value),
        tells(result, Err::<T, ErrorView>(problem)) <==> (result matches Err(e) && e@ == problem),
        reports(result, Ok::<T, Fault>(value)) <==> result == Ok::<T, Error>(value),
        reports(result, Err::<T, Fault>(Fault::Told(problem))) <==> (result matches Err(e) && e@
            == problem),
        reports(result, Err::<T, Fault>(Fault::Config)) <==> (result matches Err(e) && e@ is Config),
{
}

} // verus!
