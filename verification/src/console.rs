//! Delivery of conversation messages to an output sink.

use vstd::prelude::*;
use std::io::Write;

verus! {

/// A role-tagged piece of conversation text.
pub struct Message {
    pub role: String,
    pub content: String,
}

/// A sink that messages are handed to for delivery.
pub trait Consumer {
    fn consume_message(&self, message: &Message);
}

/// A consumer that prints each message to standard output.
pub struct ConsoleConsumer;

impl ConsoleConsumer {
    pub fn new() -> (r: ConsoleConsumer)
        ensures
            r == ConsoleConsumer,
    {
        ConsoleConsumer
    }
}

impl Consumer for ConsoleConsumer {
    fn consume_message(&self, message: &Message) {
        print_line(message.content.as_str());
    }
}

/// Relies on std's stdout/writeln for terminal output; nothing is promised
/// of the outside world it writes to.
#[verifier::external_body]
fn print_line(s: &str) {
    let _ = writeln!(std::io::stdout(), "\n{}", s);
}

} // verus!
