//! Log messages as the log view receives them.

use vstd::prelude::*;

verus! {

/// How important a log message is.
#[derive(Debug, PartialEq, Eq, Clone, Copy, Structural)]
pub enum Level {
    Error,
    Warn,
    Info,
    Debug,
    Trace,
}

/// Something that takes in log messages.
pub trait EventLoggerSubscriber {
    fn receive(&mut self, message: &str, level: Level);
}

/// The log messages received so far, in order.
pub struct LogReceiver {
    messages: Vec<(String, Level)>,
}

/// The values of received messages.
pub open spec fn message_views(s: Seq<(String, Level)>) -> Seq<(Seq<char>, Level)> {
    s.map_values(|m: (String, Level)| (m.0@, m.1))
}

impl LogReceiver {
    pub closed spec fn received(&self) -> Seq<(Seq<char>, Level)> {
        message_views(self.messages@)
    }

    /// A receiver that has received nothing.
    pub fn new() -> (r: LogReceiver)
        ensures
            r.received() == Seq::<(Seq<char>, Level)>::empty(),
    {
        let r = LogReceiver { messages: Vec::new() };
        proof {
            assert(r.received() =~= Seq::<(Seq<char>, Level)>::empty());
        }
        r
    }

    /// The messages received, in order.
    pub fn messages(&self) -> (r: &[(String, Level)])
        ensures
            message_views(r@) == self.received(),
    {
        self.messages.as_slice()
    }
}

impl EventLoggerSubscriber for LogReceiver {
    /// Keeps the message last.
    fn receive(&mut self, message: &str, level: Level)
        ensures
            final(self).received() == old(self).received().push((message@, level)),
    {
        let ghost before = self.received();
        let m = crate::text::string_from_chars(crate::text::str_chars(message).as_slice());
        self.messages.push((m, level));
        proof {
            assert(self.received() =~= before.push((message@, level)));
        }
    }
}

} // verus!
