//! A sorting rule: a file-name pattern, a directory to read and a directory
//! to move matches into.
use vstd::prelude::*;
use vstd::string::StringExecFns;
use crate::pattern::{regex_builds, regex_valid};

verus! {

/// What a rule holds, as text.
pub ghost struct RuleView {
    pub matching: Seq<char>,
    pub input: Seq<char>,
    pub output: Seq<char>,
}

/// The stored text of one rule: its three fields on three lines.
pub open spec fn rule_text(r: RuleView) -> Seq<char> {
    r.matching + seq!['\n'] + r.input + seq!['\n'] + r.output
}

/// One sorting rule. Paths are kept in their displayed text form.
#[derive(Debug)]
pub struct Rule {
    matching: String,
    input: String,
    output: String,
}

impl View for Rule {
    type V = RuleView;

    closed spec fn view(&self) -> RuleView {
        RuleView { matching: self.matching@, input: self.input@, output: self.output@ }
    }
}

impl Clone for Rule {
    fn clone(&self) -> (r: Rule)
        ensures
            r@ == self@,
    {
        Rule {
            matching: self.matching.clone(),
            input: self.input.clone(),
            output: self.output.clone(),
        }
    }
}

impl Rule {
    /// A rule whose pattern is a valid regular expression; `None` otherwise.
    pub fn new(matching: String, input: String, output: String) -> (r: Option<Rule>)
        ensures
            r is Some <==> regex_valid(matching@),
            r matches Some(rule) ==> rule@ == (RuleView {
                matching: matching@,
                input: input@,
                output: output@,
            }),
    {
        if regex_builds(matching.as_str()) {
            Some(Rule { matching, input, output })
        } else {
            None
        }
    }

    /// A rule read back from stored text; its pattern is checked only when
    /// it is used.
    pub(crate) fn from_stored(matching: String, input: String, output: String) -> (r: Rule)
        ensures
            r@ == (RuleView { matching: matching@, input: input@, output: output@ }),
    {
        Rule { matching, input, output }
    }

    /// The stored text of this rule.
    pub fn to_text(&self) -> (r: String)
        ensures
            r@ == rule_text(self@),
    {
        proof {
            reveal_strlit("\n");
        }
        let mut out = self.matching.clone();
        out.append("\n");
        out.append(self.input.as_str());
        out.append("\n");
        out.append(self.output.as_str());
        out
    }

    /// The file-name pattern.
    pub fn matching(&self) -> (r: &str)
        ensures
            r@ == self@.matching,
    {
        self.matching.as_str()
    }

    /// The directory that files are taken from.
    pub fn input(&self) -> (r: &str)
        ensures
            r@ == self@.input,
    {
        self.input.as_str()
    }

    /// The directory that matching files are moved into.
    pub fn output(&self) -> (r: &str)
        ensures
            r@ == self@.output,
    {
        self.output.as_str()
    }
}

} // verus!
