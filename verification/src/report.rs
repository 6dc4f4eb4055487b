//! What validation has to say about one file.

use vstd::prelude::*;

verus! {

/// One finding.
#[derive(Clone, Debug, PartialEq, Eq)]
pub enum Message {
    /// The data breaks a rule.
    Error(String),
    /// The data looks wrong, but breaks no rule.
    Warning(String),
}

/// The findings about one file, in the order in which they were made.
#[derive(Clone, Debug, PartialEq, Eq)]
pub struct Report {
    /// The file that the findings are about.
    pub path: String,
    pub messages: Vec<Message>,
}

/// The number of errors among the messages.
pub open spec fn errors_in(messages: Seq<Message>) -> nat
    decreases messages.len(),
{
    if messages.len() == 0 {
        0
    } else {
        errors_in(messages.drop_last()) + if messages.last() is Error {
            1nat
        } else {
            0nat
        }
    }
}

/// The number of warnings among the messages.
pub open spec fn warnings_in(messages: Seq<Message>) -> nat
    decreases messages.len(),
{
    if messages.len() == 0 {
        0
    } else {
        warnings_in(messages.drop_last()) + if messages.last() is Warning {
            1nat
        } else {
            0nat
        }
    }
}

/// Every message is an error or a warning.
pub proof fn lemma_counts_cover(messages: Seq<Message>)
    ensures
        errors_in(messages) + warnings_in(messages) == messages.len(),
    decreases messages.len(),
{
    if messages.len() > 0 {
        lemma_counts_cover(messages.drop_last());
    }
}

impl Report {
    /// A report about the file at `path`, without findings so far.
    pub fn new(path: String) -> (r: Report)
        ensures
            r.path == path,
            r.messages@ == Seq::<Message>::empty(),
    {
        Report { path, messages: Vec::new() }
    }

    /// Adds an error.
    pub fn error(&mut self, text: String)
        ensures
            final(self).path == old(self).path,
            final(self).messages@ == old(self).messages@.push(Message::Error(text)),
    {
        self.messages.push(Message::Error(text));
    }

    /// Adds a warning.
    pub fn warning(&mut self, text: String)
        ensures
            final(self).path == old(self).path,
            final(self).messages@ == old(self).messages@.push(Message::Warning(text)),
    {
        self.messages.push(Message::Warning(text));
    }

    /// Whether there is any finding.
    pub fn has_messages(&self) -> (r: bool)
        ensures
            r == (self.messages@.len() > 0),
    {
        self.messages.len() > 0
    }

    /// The number of errors and the number of warnings.
    pub fn count_messages(&self) -> (r: (usize, usize))
        ensures
            r.0 == errors_in(self.messages@),
            r.1 == warnings_in(self.messages@),
            r.0 + r.1 == self.messages@.len(),
    {
        let mut errors: usize = 0;
        let mut warnings: usize = 0;
        let mut i: usize = 0;
        while i < self.messages.len()
            invariant
                0 <= i <= self.messages@.len(),
                errors == errors_in(self.messages@.take(i as int)),
                warnings == warnings_in(self.messages@.take(i as int)),
                errors + warnings == i,
            decreases self.messages@.len() - i,
        {
            proof {
                assert(self.messages@.take(i + 1).drop_last() =~= self.messages@.take(i as int));
            }
            match &self.messages[i] {
                Message::Error(_) => {
                    errors += 1;
                },
                Message::Warning(_) => {
                    warnings += 1;
                },
            }
            i += 1;
        }
        proof {
            assert(self.messages@.take(i as int) =~= self.messages@);
        }
        (errors, warnings)
    }
}

} // verus!
