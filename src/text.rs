//! The two layers of the rule-file text format: blank-line separated chunks,
//! and lines within a chunk.
use vstd::prelude::*;
use vstd::std_specs::iter::IteratorSpec;

verus! {

broadcast use vstd::string::group_string_axioms;

/// Whether a blank-line separator (`"\n\n"`) starts at position `i` of `s`.
pub open spec fn blank_at(s: Seq<char>, i: int) -> bool {
    0 <= i && i + 1 < s.len() && s[i] == '\n' && s[i + 1] == '\n'
}

/// Splits `s` on `"\n\n"` from left to right, as `str::split("\n\n")` does;
/// `cur` is the piece collected so far.
pub open spec fn split_blank_acc(s: Seq<char>, cur: Seq<char>) -> Seq<Seq<char>>
    decreases s.len(),
{
    if s.len() == 0 {
        seq![cur]
    } else if blank_at(s, 0) {
        seq![cur] + split_blank_acc(s.subrange(2, s.len() as int), Seq::empty())
    } else {
        split_blank_acc(s.subrange(1, s.len() as int), cur.push(s[0]))
    }
}

/// The pieces of `s` between blank-line separators.
pub open spec fn split_blank(s: Seq<char>) -> Seq<Seq<char>> {
    split_blank_acc(s, Seq::empty())
}

/// Drops one trailing carriage return.
pub open spec fn strip_cr(l: Seq<char>) -> Seq<char> {
    if l.len() > 0 && l.last() == '\r' {
        l.drop_last()
    } else {
        l
    }
}

/// The lines of `s` as `str::lines` gives them; `cur` is the line collected
/// so far. A line ended by `"\n"` or `"\r\n"` loses that ending, and a final
/// empty line is not produced.
pub open spec fn lines_acc(s: Seq<char>, cur: Seq<char>) -> Seq<Seq<char>>
    decreases s.len(),
{
    if s.len() == 0 {
        if cur.len() == 0 {
            Seq::empty()
        } else {
            seq![cur]
        }
    } else if s[0] == '\n' {
        seq![strip_cr(cur)] + lines_acc(s.subrange(1, s.len() as int), Seq::empty())
    } else {
        lines_acc(s.subrange(1, s.len() as int), cur.push(s[0]))
    }
}

/// The lines of `s`.
pub open spec fn lines_of(s: Seq<char>) -> Seq<Seq<char>> {
    lines_acc(s, Seq::empty())
}

/// The characters of `s`, in order.
pub fn chars_of(s: &str) -> (r: Vec<char>)
    ensures
        r@ == s@,
{
    let n = s.unicode_len();
    let mut it = s.chars();
    let mut r: Vec<char> = Vec::new();
    while r.len() < n
        invariant
            it.obeys_prophetic_iter_laws(),
            r@ + it.remaining() == s@,
            n == s@.len(),
        ensures
            r@ == s@,
        decreases n - r.len(),
    {
        match it.next() {
            Some(c) => {
                r.push(c);
            },
            None => {
                break;
            },
        }
    }
    r
}

/// Whether every range in `rs` is ordered and lies within a sequence of length `n`.
pub open spec fn ranges_within(rs: Seq<(usize, usize)>, n: int) -> bool {
    forall|k: int| 0 <= k < rs.len() ==> #[trigger] rs[k].0 <= rs[k].1 <= n
}

/// The parts of `s` that the ranges `rs` select, in order.
pub open spec fn pieces(s: Seq<char>, rs: Seq<(usize, usize)>) -> Seq<Seq<char>> {
    rs.map_values(|p: (usize, usize)| s.subrange(p.0 as int, p.1 as int))
}

/// Where each blank-line separated piece of `chars` lies.
pub fn blank_split_ranges(chars: &Vec<char>) -> (r: Vec<(usize, usize)>)
    ensures
        ranges_within(r@, chars@.len() as int),
        pieces(chars@, r@) == split_blank(chars@),
{
    let n = chars.len();
    let mut r: Vec<(usize, usize)> = Vec::new();
    let mut start: usize = 0;
    let mut i: usize = 0;
    assert(chars@.subrange(0, n as int) == chars@);
    assert(chars@.subrange(0, 0) == Seq::<char>::empty());
    assert(pieces(chars@, r@) == Seq::<Seq<char>>::empty());
    assert(Seq::<Seq<char>>::empty() + split_blank(chars@) == split_blank(chars@));
    while i < n
        invariant
            start <= i <= n,
            n == chars@.len(),
            ranges_within(r@, start as int),
            split_blank(chars@) == pieces(chars@, r@) + split_blank_acc(
                chars@.subrange(i as int, n as int),
                chars@.subrange(start as int, i as int),
            ),
        decreases n - i,
    {
        let ghost rest = chars@.subrange(i as int, n as int);
        let ghost cur = chars@.subrange(start as int, i as int);
        if i + 1 < n && chars[i] == '\n' && chars[i + 1] == '\n' {
            assert(blank_at(rest, 0));
            assert(rest.subrange(2, rest.len() as int) == chars@.subrange(i + 2, n as int));
            assert(chars@.subrange((i + 2) as int, (i + 2) as int) == Seq::<char>::empty());
            r.push((start, i));
            assert(pieces(chars@, r@) == pieces(chars@, r@.drop_last()).push(cur));
            i = i + 2;
            start = i;
        } else {
            assert(!blank_at(rest, 0));
            assert(rest.subrange(1, rest.len() as int) == chars@.subrange(i + 1, n as int));
            assert(cur.push(rest[0]) == chars@.subrange(start as int, i + 1));
            i = i + 1;
        }
    }
    assert(chars@.subrange(n as int, n as int).len() == 0);
    r.push((start, n));
    assert(pieces(chars@, r@) == pieces(chars@, r@.drop_last()).push(
        chars@.subrange(start as int, n as int),
    ));
    r
}

/// Where each line of `chars[lo..hi]` lies, as `str::lines` finds them.
pub fn line_ranges(chars: &Vec<char>, lo: usize, hi: usize) -> (r: Vec<(usize, usize)>)
    requires
        lo <= hi <= chars@.len(),
    ensures
        ranges_within(r@, chars@.len() as int),
        pieces(chars@, r@) == lines_of(chars@.subrange(lo as int, hi as int)),
{
    let mut r: Vec<(usize, usize)> = Vec::new();
    let mut start: usize = lo;
    let mut i: usize = lo;
    assert(chars@.subrange(lo as int, lo as int) == Seq::<char>::empty());
    assert(pieces(chars@, r@) == Seq::<Seq<char>>::empty());
    assert(Seq::<Seq<char>>::empty() + lines_of(chars@.subrange(lo as int, hi as int))
        == lines_of(chars@.subrange(lo as int, hi as int)));
    while i < hi
        invariant
            lo <= start <= i <= hi <= chars@.len(),
            ranges_within(r@, start as int),
            lines_of(chars@.subrange(lo as int, hi as int)) == pieces(chars@, r@) + lines_acc(
                chars@.subrange(i as int, hi as int),
                chars@.subrange(start as int, i as int),
            ),
        decreases hi - i,
    {
        let ghost rest = chars@.subrange(i as int, hi as int);
        let ghost cur = chars@.subrange(start as int, i as int);
        assert(rest.subrange(1, rest.len() as int) == chars@.subrange(i + 1, hi as int));
        if chars[i] == '\n' {
            let end = if i > start && chars[i - 1] == '\r' {
                i - 1
            } else {
                i
            };
            assert(strip_cr(cur) == chars@.subrange(start as int, end as int));
            r.push((start, end));
            assert(pieces(chars@, r@) == pieces(chars@, r@.drop_last()).push(strip_cr(cur)));
            assert(chars@.subrange(i + 1, i + 1) == Seq::<char>::empty());
            i = i + 1;
            start = i;
        } else {
            assert(cur.push(rest[0]) == chars@.subrange(start as int, i + 1));
            i = i + 1;
        }
    }
    assert(chars@.subrange(hi as int, hi as int).len() == 0);
    if start < hi {
        r.push((start, hi));
        assert(pieces(chars@, r@) == pieces(chars@, r@.drop_last()).push(
            chars@.subrange(start as int, hi as int),
        ));
    } else {
        assert(pieces(chars@, r@) + Seq::<Seq<char>>::empty() == pieces(chars@, r@));
    }
    r
}

} // verus!
