use vstd::prelude::*;

verus! {

/// Errors that can occur in the event system.
#[derive(Debug)]
pub enum EventError {
    /// Adding a listener to an event that already has `max_listeners` listeners.
    OverloadedEvent,
    /// Removing a listener that is not registered to the event.
    ListenerNotFound,
    /// Removing from, or emitting, an event that has not been registered.
    EventNotFound,
    /// Any other error: a message and a code.
    Other(&'static str, u16),
}

/// `==` on two string slices (`<str as PartialEq>::eq`): true exactly when
/// they hold the same characters.
#[verifier::external_body]
fn str_equal(a: &str, b: &str) -> (same: bool)
    ensures
        same == (a@ == b@),
{
    a == b
}

impl EventError {
    /// Equality of errors: same variant, and for `Other` the same message and code.
    pub open spec fn same_error(&self, other: &EventError) -> bool {
        match (*self, *other) {
            (EventError::OverloadedEvent, EventError::OverloadedEvent) => true,
            (EventError::ListenerNotFound, EventError::ListenerNotFound) => true,
            (EventError::EventNotFound, EventError::EventNotFound) => true,
            (EventError::Other(m1, c1), EventError::Other(m2, c2)) => m1@ == m2@ && c1 == c2,
            _ => false,
        }
    }
}

/// The decimal digit for `d` (below ten).
pub open spec fn digit_char(d: nat) -> char {
    ((48 + d) as u32) as char
}

/// The decimal numeral of `n`, without leading zeros.
pub open spec fn decimal_text(n: nat) -> Seq<char>
    decreases n,
{
    if n < 10 {
        seq![digit_char(n)]
    } else {
        decimal_text(n / 10).push(digit_char(n % 10))
    }
}

/// `u16::to_string`: the code in decimal, as `u16`'s `Display` writes it.
#[verifier::external_body]
fn decimal(code: u16) -> (text: String)
    ensures
        text@ == decimal_text(code as nat),
{
    code.to_string()
}

impl EventError {
    /// The text of the error, as its `Display` shows it.
    pub open spec fn spec_message(&self) -> Seq<char> {
        match *self {
            EventError::OverloadedEvent => "Too many listeners for event"@,
            EventError::ListenerNotFound => "Listener not found"@,
            EventError::EventNotFound => "Event not found"@,
            EventError::Other(message, code) => "Error: "@ + message@ + " (code "@ + decimal_text(
                code as nat,
            ) + ")"@,
        }
    }

    /// The text of the error: a fixed sentence for each kind, and for `Other`
    /// the message with its code.
    pub fn message(&self) -> (text: String)
        ensures
            text@ == self.spec_message(),
    {
        match self {
            EventError::OverloadedEvent => "Too many listeners for event".to_owned(),
            EventError::ListenerNotFound => "Listener not found".to_owned(),
            EventError::EventNotFound => "Event not found".to_owned(),
            EventError::Other(message, code) => {
                let mut text = "Error: ".to_owned();
                text.append(message);
                text.append(" (code ");
                let digits = decimal(*code);
                text.append(digits.as_str());
                text.append(")");
                text
            },
        }
    }
}

impl PartialEq for EventError {
    fn eq(&self, other: &Self) -> (same: bool) {
        match (self, other) {
            (EventError::OverloadedEvent, EventError::OverloadedEvent) => true,
            (EventError::ListenerNotFound, EventError::ListenerNotFound) => true,
            (EventError::EventNotFound, EventError::EventNotFound) => true,
            (EventError::Other(m1, c1), EventError::Other(m2, c2)) => str_equal(m1, m2) && *c1 == *c2,
            _ => false,
        }
    }
}

impl vstd::std_specs::cmp::PartialEqSpecImpl for EventError {
    open spec fn obeys_eq_spec() -> bool {
        true
    }

    open spec fn eq_spec(&self, other: &Self) -> bool {
        self.same_error(other)
    }
}

impl Eq for EventError {
}

} // verus!
