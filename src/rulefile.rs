//! The rule file: an ordered list of rules and its text form.
use vstd::prelude::*;
use vstd::string::StringExecFns;
use vstd::utf8::{decode_utf8, valid_utf8};
use crate::pattern::regex_valid;
use crate::rule::{rule_text, Rule, RuleView};
use crate::text::{
    blank_split_ranges, chars_of, line_ranges, lines_of, pieces, ranges_within, split_blank,
};

verus! {

broadcast use vstd::string::group_string_axioms;

/// The three lines of a stored rule.
#[derive(Debug, Clone, Copy, PartialEq, Eq, Structural)]
pub enum RuleField {
    Matching,
    Input,
    Output,
}

/// Why the rule file could not be found, read, written or understood.
#[derive(Debug, Clone, PartialEq, Eq)]
pub enum RulefileError {
    /// The per-user data directory could not be determined.
    Find,
    /// The rule file's location could not be prepared.
    Check(String),
    /// The rule file could not be opened or read.
    Read(String),
    /// The rule file could not be written.
    Write(String),
    /// The rule file is not valid UTF-8.
    UTF8Parse,
    /// The chunk at this zero-based index lacks this line.
    Parse(RuleField, usize),
}

/// The rule that a chunk of at least three lines describes.
pub open spec fn rule_of_lines(ls: Seq<Seq<char>>) -> RuleView {
    RuleView { matching: ls[0], input: ls[1], output: ls[2] }
}

/// The first field missing from a chunk of `n` lines.
pub open spec fn missing_field(n: int) -> RuleField {
    if n == 0 {
        RuleField::Matching
    } else if n == 1 {
        RuleField::Input
    } else {
        RuleField::Output
    }
}

/// Whether a chunk holds all three lines of a rule.
pub open spec fn chunk_complete(c: Seq<char>) -> bool {
    lines_of(c).len() >= 3
}

/// Whether chunk `k` is the first incomplete one.
pub open spec fn first_incomplete(cs: Seq<Seq<char>>, k: int) -> bool {
    &&& 0 <= k < cs.len()
    &&& !chunk_complete(cs[k])
    &&& forall|j: int| 0 <= j < k ==> chunk_complete(#[trigger] cs[j])
}

/// What a rule-file text describes: the rules, or the missing field and the
/// index of the first chunk that lacks one.
pub open spec fn parsed(text: Seq<char>) -> Result<Seq<RuleView>, (RuleField, int)> {
    if text.len() == 0 {
        Ok(Seq::empty())
    } else {
        let cs = split_blank(text);
        if forall|k: int| 0 <= k < cs.len() ==> chunk_complete(#[trigger] cs[k]) {
            Ok(cs.map_values(|c: Seq<char>| rule_of_lines(lines_of(c))))
        } else {
            let k = choose|k: int| first_incomplete(cs, k);
            Err((missing_field(lines_of(cs[k]).len() as int), k))
        }
    }
}

/// The pieces `cs` joined with a blank line between each two.
pub open spec fn join_blank(cs: Seq<Seq<char>>) -> Seq<char>
    decreases cs.len(),
{
    if cs.len() == 0 {
        Seq::empty()
    } else if cs.len() == 1 {
        cs[0]
    } else {
        join_blank(cs.drop_last()) + seq!['\n', '\n'] + cs.last()
    }
}

/// The stored text of a list of rules.
pub open spec fn serialized(rules: Seq<RuleView>) -> Seq<char> {
    join_blank(rules.map_values(|r: RuleView| rule_text(r)))
}

/// The rules left after dropping those whose 1-based position, among the
/// first `n`, is listed in `numbers`.
pub open spec fn kept(rules: Seq<RuleView>, numbers: Seq<usize>, n: int) -> Seq<RuleView>
    decreases n,
{
    if n <= 0 {
        Seq::empty()
    } else if numbers.contains(n as usize) {
        kept(rules, numbers, n - 1)
    } else {
        kept(rules, numbers, n - 1).push(rules[n - 1])
    }
}

/// The 1-based positions up to `n` that `numbers` lists, in increasing order.
pub open spec fn listed_positions(numbers: Seq<usize>, n: int) -> Seq<usize>
    decreases n,
{
    if n <= 0 {
        Seq::empty()
    } else if numbers.contains(n as usize) {
        listed_positions(numbers, n - 1).push(n as usize)
    } else {
        listed_positions(numbers, n - 1)
    }
}

/// What `Rulefile::load` gives for the bytes of a rule file.
pub open spec fn loaded(bytes: Seq<u8>, r: Result<Rulefile, RulefileError>) -> bool {
    if !valid_utf8(bytes) {
        r == Err::<Rulefile, RulefileError>(RulefileError::UTF8Parse)
    } else {
        match r {
            Ok(f) => parsed(decode_utf8(bytes)) == Ok::<Seq<RuleView>, (RuleField, int)>(f@),
            Err(e) => parsed(decode_utf8(bytes)) matches Err((field, k)) && e
                == RulefileError::Parse(field, k as usize),
        }
    }
}

/// Relies on `String::from_utf8`: it succeeds exactly on valid UTF-8, and
/// the string then holds the decoded characters.
#[verifier::external_body]
fn decode_text(bytes: Vec<u8>) -> (r: Option<String>)
    ensures
        r is Some <==> valid_utf8(bytes@),
        r matches Some(s) ==> s@ == decode_utf8(bytes@),
{
    String::from_utf8(bytes).ok()
}

/// Whether `pos` occurs in `numbers`.
fn lists(numbers: &Vec<usize>, pos: usize) -> (r: bool)
    ensures
        r == numbers@.contains(pos),
{
    let mut i: usize = 0;
    while i < numbers.len()
        invariant
            i <= numbers@.len(),
            forall|j: int| 0 <= j < i ==> numbers@[j] != pos,
        decreases numbers@.len() - i,
    {
        if numbers[i] == pos {
            return true;
        }
        i = i + 1;
    }
    false
}

/// An ordered list of rules; the order is display order and the order in
/// which rules are applied.
#[derive(Debug, Clone)]
pub struct Rulefile {
    rules: Vec<Rule>,
}

impl View for Rulefile {
    type V = Seq<RuleView>;

    closed spec fn view(&self) -> Seq<RuleView> {
        self.rules@.map_values(|r: Rule| r@)
    }
}

impl Default for Rulefile {
    fn default() -> (r: Rulefile)
        ensures
            r@ == Seq::<RuleView>::empty(),
    {
        Rulefile::new()
    }
}

impl Rulefile {
    /// An empty rule list.
    pub fn new() -> (r: Rulefile)
        ensures
            r@ == Seq::<RuleView>::empty(),
    {
        let r = Rulefile { rules: Vec::new() };
        assert(r@ =~= Seq::<RuleView>::empty());
        r
    }

    /// Reads a rule-file text.
    pub fn parse(text: &str) -> (r: Result<Rulefile, RulefileError>)
        ensures
            match r {
                Ok(f) => parsed(text@) == Ok::<Seq<RuleView>, (RuleField, int)>(f@),
                Err(e) => parsed(text@) matches Err((field, k)) && e == RulefileError::Parse(
                    field,
                    k as usize,
                ),
            },
    {
        let chars = chars_of(text);
        if chars.len() == 0 {
            return Ok(Rulefile::new());
        }
        let chunks = blank_split_ranges(&chars);
        let ghost cs = split_blank(text@);
        let mut rules: Vec<Rule> = Vec::new();
        let mut k: usize = 0;
        while k < chunks.len()
            invariant
                chars@ == text@,
                chars@.len() > 0,
                ranges_within(chunks@, chars@.len() as int),
                pieces(chars@, chunks@) == cs,
                cs == split_blank(text@),
                k <= chunks@.len(),
                rules@.len() == k,
                forall|j: int| 0 <= j < k ==> chunk_complete(#[trigger] cs[j]),
                rules@.map_values(|r: Rule| r@) == cs.take(k as int).map_values(
                    |c: Seq<char>| rule_of_lines(lines_of(c)),
                ),
            decreases chunks@.len() - k,
        {
            let (a, b) = chunks[k];
            assert(chars@.subrange(a as int, b as int) == cs[k as int]);
            let ls = line_ranges(&chars, a, b);
            let ghost lv = lines_of(cs[k as int]);
            if ls.len() < 3 {
                let field = if ls.len() == 0 {
                    RuleField::Matching
                } else if ls.len() == 1 {
                    RuleField::Input
                } else {
                    RuleField::Output
                };
                proof {
                    assert(first_incomplete(cs, k as int));
                    let c = choose|c: int| first_incomplete(cs, c);
                    if c < k {
                        assert(chunk_complete(cs[c]));
                    }
                    if c > k {
                        assert(chunk_complete(cs[k as int]));
                    }
                    assert(c == k);
                    assert(lv.len() == ls@.len());
                    assert(!(forall|j: int| 0 <= j < cs.len() ==> chunk_complete(#[trigger] cs[j])));
                    assert(missing_field(lv.len() as int) == field);
                }
                return Err(RulefileError::Parse(field, k));
            }
            let matching = text.substring_char(ls[0].0, ls[0].1).to_string();
            let input = text.substring_char(ls[1].0, ls[1].1).to_string();
            let output = text.substring_char(ls[2].0, ls[2].1).to_string();
            assert(matching@ == lv[0]);
            assert(input@ == lv[1]);
            assert(output@ == lv[2]);
            let ghost before = rules@;
            rules.push(Rule::from_stored(matching, input, output));
            assert(rules@.drop_last() == before);
            assert(cs.take(k + 1) == cs.take(k as int).push(cs[k as int]));
            proof {
                let prev = cs.take(k as int).map_values(|c: Seq<char>| rule_of_lines(lines_of(c)));
                let next = cs.take(k + 1).map_values(|c: Seq<char>| rule_of_lines(lines_of(c)));
                assert(rules@[k as int]@ == rule_of_lines(lv));
                assert forall|j: int| 0 <= j < k + 1 implies rules@.map_values(|r: Rule| r@)[j]
                    == next[j] by {
                    if j < k {
                        assert(before.map_values(|r: Rule| r@)[j] == prev[j]);
                        assert(rules@[j] == before[j]);
                    }
                }
            }
            assert(rules@.map_values(|r: Rule| r@) =~= cs.take(k + 1).map_values(
                |c: Seq<char>| rule_of_lines(lines_of(c)),
            ));
            k = k + 1;
        }
        assert(cs.take(k as int) == cs);
        let f = Rulefile { rules };
        Ok(f)
    }

    /// The stored text of the rules: each rule as its three lines, with a
    /// blank line between two rules.
    pub fn to_text(&self) -> (r: String)
        ensures
            r@ == serialized(self@),
    {
        let ghost texts = self@.map_values(|r: RuleView| rule_text(r));
        let mut out = String::new();
        let mut i: usize = 0;
        proof {
            reveal_strlit("\n");
            reveal_strlit("\n\n");
            assert(texts.take(0).len() == 0);
        }
        while i < self.rules.len()
            invariant
                i <= self.rules@.len(),
                texts == self@.map_values(|r: RuleView| rule_text(r)),
                out@ == join_blank(texts.take(i as int)),
            decreases self.rules@.len() - i,
        {
            let ghost prev = out@;
            if i > 0 {
                out.append("\n\n");
            }
            let r = &self.rules[i];
            let piece = r.to_text();
            out.append(piece.as_str());
            proof {
                reveal_strlit("\n");
                reveal_strlit("\n\n");
                assert("\n"@ =~= seq!['\n']);
                assert("\n\n"@ =~= seq!['\n', '\n']);
                assert(self@[i as int] == r@);
                assert(texts[i as int] == rule_text(r@));
                assert(texts.take(i + 1).drop_last() == texts.take(i as int));
                if i == 0 {
                    assert(prev.len() == 0);
                    assert(out@ =~= texts[0]);
                } else {
                    assert(out@ =~= prev + seq!['\n', '\n'] + texts[i as int]);
                }
            }
            i = i + 1;
        }
        assert(texts.take(i as int) == texts);
        out
    }

    /// Reads the bytes of a rule file: they must be UTF-8 text in the rule
    /// file format.
    pub fn load(bytes: Vec<u8>) -> (r: Result<Rulefile, RulefileError>)
        ensures
            loaded(bytes@, r),
    {
        match decode_text(bytes) {
            None => Err(RulefileError::UTF8Parse),
            Some(text) => Rulefile::parse(text.as_str()),
        }
    }

    /// The number of rules.
    pub fn len(&self) -> (r: usize)
        ensures
            r == self@.len(),
    {
        self.rules.len()
    }

    /// Whether there are no rules.
    pub fn is_empty(&self) -> (r: bool)
        ensures
            r == (self@.len() == 0),
    {
        self.rules.len() == 0
    }

    /// The rule at zero-based index `i`.
    pub fn get(&self, i: usize) -> (r: &Rule)
        requires
            i < self@.len(),
        ensures
            r@ == self@[i as int],
    {
        &self.rules[i]
    }

    /// Appends a rule; returns its 1-based position, the new length.
    pub fn push(&mut self, rule: Rule) -> (n: usize)
        ensures
            final(self)@ == old(self)@.push(rule@),
            n == final(self)@.len(),
    {
        let ghost before = self@;
        self.rules.push(rule);
        assert(self@ =~= before.push(rule@));
        self.rules.len()
    }

    /// Appends a rule made of these fields if the pattern is a valid regular
    /// expression, and returns its 1-based position; otherwise leaves the
    /// list as it was and returns `None`.
    pub fn add(&mut self, matching: String, input: String, output: String) -> (r: Option<usize>)
        ensures
            r is Some <==> regex_valid(matching@),
            r is Some ==> final(self)@ == old(self)@.push(
                RuleView { matching: matching@, input: input@, output: output@ },
            ) && r == Some(final(self)@.len() as usize),
            r is None ==> final(self)@ == old(self)@,
    {
        match Rule::new(matching, input, output) {
            Some(rule) => Some(self.push(rule)),
            None => None,
        }
    }

    /// Drops every rule whose 1-based position is listed in `numbers`; the
    /// others keep their order. Returns the positions dropped, in order.
    pub fn remove(&mut self, numbers: &Vec<usize>) -> (r: Vec<usize>)
        ensures
            final(self)@ == kept(old(self)@, numbers@, old(self)@.len() as int),
            r@ == listed_positions(numbers@, old(self)@.len() as int),
    {
        let ghost before = self@;
        let n = self.rules.len();
        let mut rest: Vec<Rule> = Vec::new();
        let mut dropped: Vec<usize> = Vec::new();
        let mut i: usize = 0;
        assert(rest@.map_values(|r: Rule| r@) =~= kept(before, numbers@, 0));
        while i < n
            invariant
                i <= n,
                n == self.rules@.len(),
                before == self@,
                rest@.map_values(|r: Rule| r@) == kept(before, numbers@, i as int),
                dropped@ == listed_positions(numbers@, i as int),
            decreases n - i,
        {
            let pos = i + 1;
            if lists(numbers, pos) {
                dropped.push(pos);
            } else {
                let ghost prev = rest@;
                rest.push(self.rules[i].clone());
                assert(self@[i as int] == self.rules@[i as int]@);
                assert(rest@.map_values(|r: Rule| r@) =~= prev.map_values(|r: Rule| r@).push(
                    before[i as int],
                ));
            }
            i = i + 1;
        }
        self.rules = rest;
        dropped
    }

    /// Drops every rule.
    pub fn clear(&mut self)
        ensures
            final(self)@ == Seq::<RuleView>::empty(),
    {
        self.rules.clear();
        assert(self@ =~= Seq::<RuleView>::empty());
    }
}

} // verus!
