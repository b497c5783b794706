//! Expectations for driving a server end to end: a request line and the
//! reply lines that are accepted for it.

use vstd::prelude::*;
use vstd::string::*;

verus! {

/// One step of an end-to-end run.
pub struct Test {
    /// The request line, without its line feed.
    pub command: &'static str,
    /// The replies that are accepted, each without its line feed.
    pub expected: Vec<&'static str>,
}

/// Whether one of `accepted` has the text of `response`.
pub open spec fn accepts(accepted: Seq<&'static str>, response: Seq<char>) -> bool {
    exists|i: int| 0 <= i < accepted.len() && (#[trigger] accepted[i])@ == response
}

impl Test {
    /// A step with a single accepted reply.
    pub fn new(command: &'static str, expected: &'static str) -> (r: Test)
        ensures
            r.command == command,
            r.expected@ == seq![expected],
    {
        let mut accepted: Vec<&'static str> = Vec::new();
        accepted.push(expected);
        assert(accepted@ =~= seq![expected]);
        Test { command, expected: accepted }
    }

    /// A step with several accepted replies, for replies whose order of
    /// items is not fixed.
    pub fn with_multiple(command: &'static str, expected: Vec<&'static str>) -> (r: Test)
        ensures
            r.command == command,
            r.expected == expected,
    {
        Test { command, expected }
    }

    /// Whether `response` is one of the accepted replies.
    pub fn matches(&self, response: &str) -> (r: bool)
        ensures
            r == accepts(self.expected@, response@),
    {
        let got = String::from_str(response);
        let mut i: usize = 0;
        while i < self.expected.len()
            invariant
                i <= self.expected.len(),
                got@ == response@,
                forall|j: int| 0 <= j < i ==> (#[trigger] self.expected@[j])@ != response@,
            decreases self.expected.len() - i,
        {
            if String::from_str(self.expected[i]) == got {
                return true;
            }
            i += 1;
        }
        false
    }
}

} // verus!
