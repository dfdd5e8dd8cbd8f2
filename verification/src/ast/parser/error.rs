//! Ranked syntax errors.

use crate::ast::Localization;
use vstd::prelude::*;

verus! {

/// How much an error tells the user: of several candidate errors the one with
/// the greatest priority is reported.
pub type Priority = u8;

/// A syntax error: what went wrong, where, and how specific the diagnosis is.
#[derive(Debug, Clone, PartialEq, Eq)]
pub struct ErrorMessage {
    pub message: String,
    pub localization: Localization,
    pub priority: Priority,
}

/// The text of a "leftover input" message for the given unconsumed input.
pub open spec fn leftover_text(leftover: Seq<char>) -> Seq<char> {
    "expected end of input, '"@ + leftover + "' was left"@
}

/// The text of a "missing function arguments" message for the given input.
pub open spec fn empty_arguments_text(input: Seq<char>) -> Seq<char> {
    "expected function arguments, got "@ + input
}

/// Whether `i` is the position in `messages` of the error that is reported:
/// the first one among those of greatest priority.
pub open spec fn is_most_important(messages: Seq<ErrorMessage>, i: int) -> bool {
    &&& 0 <= i < messages.len()
    &&& forall|j: int| 0 <= j < messages.len() ==> messages[j].priority() <= messages[i].priority()
    &&& forall|j: int| 0 <= j < i ==> messages[j].priority() < messages[i].priority()
}

impl ErrorMessage {
    /// The rank of this error.
    pub open spec fn priority(&self) -> Priority {
        self.priority
    }

    /// Whether this error has the given parts.
    pub open spec fn is(&self, message: Seq<char>, priority: Priority, localization: Localization) -> bool {
        &&& self.message@ == message
        &&& self.priority() == priority
        &&& self.localization == localization
    }

    pub fn new(message: String, priority: Priority, localization: Localization) -> (r: Self)
        ensures
            r.is(message@, priority, localization),
            r.message == message,
    {
        ErrorMessage { message, priority, localization }
    }

    /// The rank of this error.
    pub fn rank(&self) -> (p: Priority)
        ensures
            p == self.priority(),
    {
        self.priority
    }

    pub fn forgot_comma(message: String) -> (r: Self)
        ensures
            r.is(message@, 121, Localization { line: 0, column: 0 }),
    {
        ErrorMessage::new(message, 121, Localization::new())
    }

    pub fn sign_failed(message: String, localization: Localization) -> (r: Self)
        ensures
            r.is(message@, 70, localization),
    {
        ErrorMessage::new(message, 70, localization)
    }

    pub fn missing_opening_parenthesis(message: String, localization: Localization) -> (r: Self)
        ensures
            r.is(message@, 40, localization),
    {
        ErrorMessage::new(message, 40, localization)
    }

    pub fn missing_closing_parenthesis(message: String, localization: Localization) -> (r: Self)
        ensures
            r.is(message@, 120, localization),
    {
        ErrorMessage::new(message, 120, localization)
    }

    pub fn empty_expression(message: String, localization: Localization) -> (r: Self)
        ensures
            r.is(message@, 99, localization),
    {
        ErrorMessage::new(message, 99, localization)
    }

    pub fn atom_failed(message: String, localization: Localization) -> (r: Self)
        ensures
            r.is(message@, 10, localization),
    {
        ErrorMessage::new(message, 10, localization)
    }

    pub fn term_failed(message: String, localization: Localization) -> (r: Self)
        ensures
            r.is(message@, 15, localization),
    {
        ErrorMessage::new(message, 15, localization)
    }

    pub fn expression_failed(message: String) -> (r: Self)
        ensures
            r.is(message@, 20, Localization { line: 0, column: 0 }),
    {
        ErrorMessage::new(message, 20, Localization::new())
    }

    pub fn exponentiation_failed(message: String, localization: Localization) -> (r: Self)
        ensures
            r.is(message@, 25, localization),
    {
        ErrorMessage::new(message, 25, localization)
    }

    pub fn expected_end_of_input(message: String) -> (r: Self)
        ensures
            r.is(message@, 110, Localization { line: 0, column: 0 }),
    {
        ErrorMessage::new(message, 110, Localization::new())
    }

    pub fn assignment_error(message: String) -> (r: Self)
        ensures
            r.is(message@, 120, Localization { line: 0, column: 0 }),
    {
        ErrorMessage::new(message, 120, Localization::new())
    }

    pub fn no_assignment_found(message: String) -> (r: Self)
        ensures
            r.is(message@, 0, Localization { line: 0, column: 0 }),
    {
        ErrorMessage::new(message, 0, Localization::new())
    }

    pub fn missing_tuple_comma() -> (r: Self)
        ensures
            r.is("expected ',' for tuple"@, 0, Localization { line: 0, column: 0 }),
    {
        ErrorMessage::new(String::from_str("expected ',' for tuple"), 0, Localization::new())
    }

    pub fn empty_function_arguments(input: &str) -> (r: Self)
        ensures
            r.is(empty_arguments_text(input@), 80, Localization { line: 0, column: 0 }),
    {
        let message = String::from_str("expected function arguments, got ").concat(input);
        ErrorMessage::new(message, 80, Localization::new())
    }

    pub fn leftover(leftover: String, localization: Localization) -> (r: Self)
        ensures
            r.is(leftover_text(leftover@), 0, localization),
    {
        let message = String::from_str("expected end of input, '").concat(leftover.as_str()).concat(
            "' was left",
        );
        ErrorMessage { message, localization, priority: 0 }
    }

    /// Replaces the message by what `mapper` makes of it; rank and position stay.
    pub fn map_message<F: FnOnce(String) -> String>(self, mapper: F) -> (r: Self)
        requires
            call_requires(mapper, (self.message,)),
        ensures
            call_ensures(mapper, (self.message,), r.message),
            r.priority() == self.priority(),
            r.localization == self.localization,
    {
        let ErrorMessage { message, localization, priority } = self;
        let message = mapper(message);
        ErrorMessage { message, localization, priority }
    }

    /// The message, without rank and position.
    pub fn into_message(self) -> (r: String)
        ensures
            r == self.message,
    {
        self.message
    }

    /// Whether this error is reported rather than `other` when both are
    /// candidates and this one was listed first.
    pub fn outranks(&self, other: &ErrorMessage) -> (r: bool)
        ensures
            r == (self.priority() >= other.priority()),
    {
        self.priority >= other.priority
    }
}

/// Picks, among candidate errors, the one with the strictly greatest priority;
/// among equals the one listed first.
pub fn most_important_of(messages: Vec<ErrorMessage>) -> (r: ErrorMessage)
    requires
        messages@.len() > 0,
    ensures
        exists|i: int| is_most_important(messages@, i) && r == messages@[i],
{
    let mut messages = messages;
    let ghost candidates = messages@;
    let mut best: usize = 0;
    let mut i: usize = 1;
    while i < messages.len()
        invariant
            messages@ == candidates,
            1 <= i <= messages@.len(),
            best < i,
            forall|j: int| 0 <= j < i ==> messages@[j].priority() <= messages@[best as int].priority(),
            forall|j: int| 0 <= j < best ==> messages@[j].priority() < messages@[best as int].priority(),
        decreases messages@.len() - i,
    {
        if messages[i].priority > messages[best].priority {
            best = i;
        }
        i = i + 1;
    }
    assert(is_most_important(candidates, best as int));
    messages.swap_remove(best)
}

} // verus!
