//! Laws of the rule-file text format.
use vstd::prelude::*;
use crate::rule::RuleView;
use crate::rule::rule_text;
use crate::rulefile::{RuleField, chunk_complete, first_incomplete, join_blank, parsed, rule_of_lines, serialized};
use crate::text::{blank_at, lines_acc, lines_of, split_blank, split_blank_acc, strip_cr};

verus! {

/// Whether `s` holds no line feed.
pub open spec fn single_line(s: Seq<char>) -> bool {
    forall|i: int| 0 <= i < s.len() ==> #[trigger] s[i] != '\n'
}

/// Whether a rule's stored text reads back as the same rule: no field holds
/// a line feed, the input and output are not empty (else a blank line would
/// appear inside the rule, or its last line would vanish), and neither the
/// pattern nor the input ends in a carriage return (a `"\r\n"` line ending
/// is dropped whole).
pub open spec fn storable(r: RuleView) -> bool {
    &&& single_line(r.matching)
    &&& single_line(r.input)
    &&& single_line(r.output)
    &&& r.input.len() > 0
    &&& r.output.len() > 0
    &&& strip_cr(r.matching) == r.matching
    &&& strip_cr(r.input) == r.input
}

/// Whether `c` can stand between two separators: it is not empty, has no
/// blank line inside and does not end in a line feed.
spec fn separable(c: Seq<char>) -> bool {
    &&& c.len() > 0
    &&& c.last() != '\n'
    &&& forall|i: int| !blank_at(c, i)
}

proof fn lemma_split_skip(c: Seq<char>, t: Seq<char>, cur: Seq<char>)
    requires
        forall|i: int| 0 <= i < c.len() ==> !blank_at(c + t, i),
    ensures
        split_blank_acc(c + t, cur) == split_blank_acc(t, cur + c),
    decreases c.len(),
{
    if c.len() == 0 {
        assert(c + t == t);
        assert(cur + c == cur);
    } else {
        let s = c + t;
        assert(!blank_at(s, 0));
        let c2 = c.subrange(1, c.len() as int);
        assert(s.subrange(1, s.len() as int) == c2 + t);
        assert forall|i: int| 0 <= i < c2.len() implies !blank_at(c2 + t, i) by {
            assert(!blank_at(s, i + 1));
            assert((c2 + t)[i] == s[i + 1]);
            if i + 1 < (c2 + t).len() {
                assert((c2 + t)[i + 1] == s[i + 2]);
            }
        }
        lemma_split_skip(c2, t, cur.push(c[0]));
        assert(cur.push(c[0]) + c2 == cur + c);
    }
}

proof fn lemma_join_front(cs: Seq<Seq<char>>)
    requires
        cs.len() >= 2,
    ensures
        join_blank(cs) == cs[0] + (seq!['\n', '\n'] + join_blank(cs.drop_first())),
    decreases cs.len(),
{
    if cs.len() == 2 {
        assert(cs.drop_last() =~= seq![cs[0]]);
        assert(cs.drop_first() =~= seq![cs[1]]);
        assert(join_blank(cs.drop_last()) == cs[0]);
        assert(join_blank(cs.drop_first()) == cs[1]);
        assert(join_blank(cs) =~= cs[0] + (seq!['\n', '\n'] + cs[1]));
    } else {
        lemma_join_front(cs.drop_last());
        assert(cs.drop_last().drop_first() =~= cs.drop_first().drop_last());
        assert(cs.drop_first().last() == cs.last());
        assert(join_blank(cs) =~= cs[0] + (seq!['\n', '\n'] + join_blank(cs.drop_first())));
    }
}

proof fn lemma_split_join(cs: Seq<Seq<char>>, cur: Seq<char>)
    requires
        cs.len() >= 1,
        forall|k: int| 0 <= k < cs.len() ==> separable(#[trigger] cs[k]),
    ensures
        split_blank_acc(join_blank(cs), cur) == seq![cur + cs[0]] + cs.drop_first(),
    decreases cs.len(),
{
    let c = cs[0];
    assert(separable(c));
    if cs.len() == 1 {
        assert(c + Seq::<char>::empty() == c);
        lemma_split_skip(c, Seq::empty(), cur);
        assert(split_blank_acc(Seq::<char>::empty(), cur + c) == seq![cur + c]);
        assert(cs.drop_first() =~= Seq::<Seq<char>>::empty());
        assert(seq![cur + c] + Seq::<Seq<char>>::empty() == seq![cur + c]);
    } else {
        lemma_join_front(cs);
        let rest = cs.drop_first();
        let t = seq!['\n', '\n'] + join_blank(rest);
        assert forall|i: int| 0 <= i < c.len() implies !blank_at(c + t, i) by {
            assert(!blank_at(c, i));
            if i + 1 < c.len() {
                assert((c + t)[i + 1] == c[i + 1]);
            } else {
                assert((c + t)[i] == c.last());
            }
        }
        lemma_split_skip(c, t, cur);
        assert(blank_at(t, 0));
        assert(t.subrange(2, t.len() as int) =~= join_blank(rest));
        assert forall|k: int| 0 <= k < rest.len() implies separable(#[trigger] rest[k]) by {
            assert(rest[k] == cs[k + 1]);
        }
        lemma_split_join(rest, Seq::empty());
        assert(Seq::<char>::empty() + rest[0] == rest[0]);
        assert(seq![rest[0]] + rest.drop_first() =~= rest);
        assert(seq![cur + c] + (seq![rest[0]] + rest.drop_first()) =~= seq![cur + c] + rest);
    }
}

proof fn lemma_lines_skip(c: Seq<char>, t: Seq<char>, cur: Seq<char>)
    requires
        single_line(c),
    ensures
        lines_acc(c + t, cur) == lines_acc(t, cur + c),
    decreases c.len(),
{
    if c.len() == 0 {
        assert(c + t == t);
        assert(cur + c == cur);
    } else {
        let s = c + t;
        let c2 = c.subrange(1, c.len() as int);
        assert(s[0] == c[0]);
        assert(s.subrange(1, s.len() as int) == c2 + t);
        assert(single_line(c2)) by {
            assert forall|i: int| 0 <= i < c2.len() implies c2[i] != '\n' by {
                assert(c2[i] == c[i + 1]);
            }
        }
        lemma_lines_skip(c2, t, cur.push(c[0]));
        assert(cur.push(c[0]) + c2 == cur + c);
    }
}

proof fn lemma_rule_lines(r: RuleView)
    requires
        storable(r),
    ensures
        lines_of(rule_text(r)) == seq![r.matching, r.input, r.output],
{
    let nl = seq!['\n'];
    let e = Seq::<char>::empty();
    let tail2 = nl + r.output;
    let tail1 = nl + (r.input + tail2);
    assert(rule_text(r) =~= r.matching + tail1);
    lemma_lines_skip(r.matching, tail1, e);
    assert(e + r.matching == r.matching);
    assert(tail1.subrange(1, tail1.len() as int) =~= r.input + tail2);
    lemma_lines_skip(r.input, tail2, e);
    assert(e + r.input == r.input);
    assert(tail2.subrange(1, tail2.len() as int) =~= r.output);
    assert(r.output == r.output + e);
    lemma_lines_skip(r.output, e, e);
    assert(e + r.output == r.output);
    assert(lines_acc(e, r.output) == seq![r.output]);
    assert(lines_acc(r.output, e) == seq![r.output]);
    assert(lines_acc(tail2, r.input) == seq![r.input] + seq![r.output]);
    assert(lines_acc(r.input + tail2, e) == lines_acc(tail2, r.input));
    assert(lines_acc(tail1, r.matching) == seq![r.matching] + lines_acc(r.input + tail2, e));
    assert(seq![r.matching] + (seq![r.input] + seq![r.output]) =~= seq![
        r.matching,
        r.input,
        r.output,
    ]);
}

proof fn lemma_rule_text_separable(r: RuleView)
    requires
        storable(r),
    ensures
        separable(rule_text(r)),
{
    let c = rule_text(r);
    let a = r.matching.len();
    let b = a + 1 + r.input.len();
    assert(c.last() == r.output.last());
    assert forall|i: int| !blank_at(c, i) by {
        if blank_at(c, i) {
            if i < a {
                assert(c[i] == r.matching[i]);
            } else if i == a {
                assert(c[i + 1] == r.input[0]);
            } else if i < b {
                assert(c[i] == r.input[i - a - 1]);
            } else if i == b {
                assert(c[i + 1] == r.output[0]);
            } else {
                assert(c[i] == r.output[i - b - 1]);
            }
        }
    }
}

/// Reading back the stored text of a list of storable rules gives the same
/// rules, in the same order.
pub proof fn lemma_round_trip(rules: Seq<RuleView>)
    requires
        forall|k: int| 0 <= k < rules.len() ==> storable(#[trigger] rules[k]),
    ensures
        parsed(serialized(rules)) == Ok::<Seq<RuleView>, (RuleField, int)>(rules),
{
    let texts = rules.map_values(|r: RuleView| rule_text(r));
    if rules.len() == 0 {
        assert(texts.len() == 0);
        assert(serialized(rules).len() == 0);
        assert(Seq::<RuleView>::empty() == rules);
    } else {
        assert forall|k: int| 0 <= k < texts.len() implies separable(#[trigger] texts[k]) by {
            lemma_rule_text_separable(rules[k]);
        }
        lemma_split_join(texts, Seq::empty());
        assert(Seq::<char>::empty() + texts[0] == texts[0]);
        assert(seq![texts[0]] + texts.drop_first() =~= texts);
        let cs = split_blank(serialized(rules));
        assert(cs == texts);
        assert(texts[0].len() > 0);
        lemma_join_len(texts);
        assert forall|k: int| 0 <= k < cs.len() implies chunk_complete(#[trigger] cs[k]) by {
            lemma_rule_lines(rules[k]);
        }
        assert forall|k: int| 0 <= k < rules.len() implies #[trigger] rule_of_lines(
            lines_of(cs[k]),
        ) == rules[k] by {
            lemma_rule_lines(rules[k]);
        }
        assert(cs.map_values(|c: Seq<char>| rule_of_lines(lines_of(c))) =~= rules);
    }
}

proof fn lemma_join_len(cs: Seq<Seq<char>>)
    requires
        cs.len() >= 1,
        cs[0].len() > 0,
    ensures
        join_blank(cs).len() > 0,
    decreases cs.len(),
{
    if cs.len() > 1 {
        lemma_join_len(cs.drop_last());
    }
}

/// Saving is idempotent: storing storable rules, reading them back and
/// storing the result again writes the same text as the first time.
pub proof fn lemma_resave_same_text(rules: Seq<RuleView>)
    requires
        forall|k: int| 0 <= k < rules.len() ==> storable(#[trigger] rules[k]),
    ensures
        parsed(serialized(rules)) matches Ok(back) && serialized(back) == serialized(rules),
{
    lemma_round_trip(rules);
}

/// An empty text reads as no rules, and no rules are stored as an empty
/// text.
pub proof fn lemma_empty()
    ensures
        parsed(Seq::empty()) == Ok::<Seq<RuleView>, (RuleField, int)>(Seq::empty()),
        serialized(Seq::empty()).len() == 0,
{
    assert(Seq::<RuleView>::empty().map_values(|r: RuleView| rule_text(r)).len() == 0);
}

/// Once the rules are cleared, what is stored reads back as no rules.
pub proof fn lemma_clear_then_load()
    ensures
        parsed(serialized(Seq::empty())) == Ok::<Seq<RuleView>, (RuleField, int)>(Seq::empty()),
{
    lemma_empty();
    assert(serialized(Seq::<RuleView>::empty()) =~= Seq::<char>::empty());
}

/// Adding a storable rule to storable rules and storing them, then reading
/// them back, gives the old rules followed by the new one.
pub proof fn lemma_add_then_load(rules: Seq<RuleView>, r: RuleView)
    requires
        forall|k: int| 0 <= k < rules.len() ==> storable(#[trigger] rules[k]),
        storable(r),
    ensures
        parsed(serialized(rules.push(r))) == Ok::<Seq<RuleView>, (RuleField, int)>(rules.push(r)),
{
    let all = rules.push(r);
    assert forall|k: int| 0 <= k < all.len() implies storable(#[trigger] all[k]) by {
        if k < rules.len() {
            assert(all[k] == rules[k]);
        }
    }
    lemma_round_trip(all);
}

/// When the first incomplete chunk of a text has just two lines, reading the
/// text fails on the output line of that chunk.
pub proof fn lemma_two_line_chunk(text: Seq<char>, k: int)
    requires
        text.len() > 0,
        first_incomplete(split_blank(text), k),
        lines_of(split_blank(text)[k]).len() == 2,
    ensures
        parsed(text) == Err::<Seq<RuleView>, (RuleField, int)>((RuleField::Output, k)),
{
    let cs = split_blank(text);
    assert(!chunk_complete(cs[k]));
    let c = choose|c: int| first_incomplete(cs, c);
    if c < k {
        assert(chunk_complete(cs[c]));
    }
    if c > k {
        assert(chunk_complete(cs[k]));
    }
}

} // verus!
