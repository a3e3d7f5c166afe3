//! Splitting decoded text into lines.
//!
//! A line is ended by a line feed, which may be preceded by a carriage return;
//! neither belongs to the line. Text after the last line feed forms one more
//! line when it is not empty.
use vstd::prelude::*;
use vstd::std_specs::iter::IteratorSpec;

verus! {

broadcast use vstd::string::group_string_axioms;

/// The line `l` without the carriage return that may close it.
pub open spec fn without_cr(l: Seq<char>) -> Seq<char> {
    if l.len() > 0 && l.last() == '\r' {
        l.drop_last()
    } else {
        l
    }
}

/// The state reached after reading `t` from the left: the lines that a line
/// feed has ended so far, and the characters of the line still open.
pub open spec fn line_state(t: Seq<char>) -> (Seq<Seq<char>>, Seq<char>)
    decreases t.len(),
{
    if t.len() == 0 {
        (seq![], seq![])
    } else {
        let prev = line_state(t.drop_last());
        if t.last() == '\n' {
            (prev.0.push(without_cr(prev.1)), seq![])
        } else {
            (prev.0, prev.1.push(t.last()))
        }
    }
}

/// The lines of the text `t`, in order.
pub open spec fn lines_of(t: Seq<char>) -> Seq<Seq<char>> {
    let st = line_state(t);
    if st.1.len() == 0 {
        st.0
    } else {
        st.0.push(st.1)
    }
}

/// The text made of each line of `ls` followed by the terminator `end`.
pub open spec fn terminated(ls: Seq<Seq<char>>, end: Seq<char>) -> Seq<char>
    decreases ls.len(),
{
    if ls.len() == 0 {
        seq![]
    } else {
        terminated(ls.drop_last(), end) + ls.last() + end
    }
}

/// Whether `l` holds no line feed.
pub open spec fn no_line_feed(l: Seq<char>) -> bool {
    forall|i: int| 0 <= i < l.len() ==> l[i] != '\n'
}

/// Reading characters other than a line feed only extends the open line.
proof fn lemma_state_extend(a: Seq<char>, b: Seq<char>)
    requires
        no_line_feed(b),
    ensures
        line_state(a + b) == (line_state(a).0, line_state(a).1 + b),
    decreases b.len(),
{
    if b.len() == 0 {
        assert(a + b =~= a);
        assert(line_state(a).1 + b =~= line_state(a).1);
    } else {
        lemma_state_extend(a, b.drop_last());
        assert((a + b).drop_last() =~= a + b.drop_last());
        assert((line_state(a).1 + b.drop_last()).push(b.last()) =~= line_state(a).1 + b);
    }
}

/// Reading lines that each end in `s` and a line feed closes every one of
/// them, with its closing carriage return removed, and leaves no line open.
proof fn lemma_state_terminated(ls: Seq<Seq<char>>, s: Seq<char>)
    requires
        no_line_feed(s),
        forall|i: int| 0 <= i < ls.len() ==> no_line_feed(#[trigger] ls[i]),
    ensures
        line_state(terminated(ls, s.push('\n'))).0 == ls.map_values(
            |l: Seq<char>| without_cr(l + s),
        ),
        line_state(terminated(ls, s.push('\n'))).1 == Seq::<char>::empty(),
    decreases ls.len(),
{
    let end = s.push('\n');
    if ls.len() == 0 {
        assert(ls.map_values(|l: Seq<char>| without_cr(l + s)) =~= seq![]);
    } else {
        let prefix = ls.drop_last();
        assert forall|i: int| 0 <= i < prefix.len() implies no_line_feed(#[trigger] prefix[i]) by {
            assert(prefix[i] == ls[i]);
        }
        lemma_state_terminated(prefix, s);
        let a = terminated(prefix, end);
        let b = ls.last() + s;
        assert(no_line_feed(ls[ls.len() - 1]));
        assert(no_line_feed(b));
        lemma_state_extend(a, b);
        let t = terminated(ls, end);
        assert(t =~= (a + b).push('\n'));
        assert(t.drop_last() =~= a + b);
        assert(Seq::<char>::empty() + b =~= b);
        assert(ls.map_values(|l: Seq<char>| without_cr(l + s)) =~= prefix.map_values(
            |l: Seq<char>| without_cr(l + s),
        ).push(without_cr(b)));
    }
}

/// A line ends at its terminator whether that is a line feed alone or a
/// carriage return and a line feed: lines that hold no line feed, and do not
/// themselves end in a carriage return, come back unchanged from a text
/// written with either terminator.
pub proof fn lemma_line_terminators(ls: Seq<Seq<char>>)
    requires
        forall|i: int| 0 <= i < ls.len() ==> no_line_feed(#[trigger] ls[i]),
        forall|i: int| 0 <= i < ls.len() ==> without_cr(#[trigger] ls[i]) == ls[i],
    ensures
        lines_of(terminated(ls, seq!['\n'])) == ls,
        lines_of(terminated(ls, seq!['\r', '\n'])) == ls,
{
    let lf: Seq<char> = seq![];
    let cr: Seq<char> = seq!['\r'];
    assert(no_line_feed(cr));
    assert(lf.push('\n') =~= seq!['\n']);
    assert(cr.push('\n') =~= seq!['\r', '\n']);
    lemma_state_terminated(ls, lf);
    lemma_state_terminated(ls, cr);
    assert forall|i: int| 0 <= i < ls.len() implies ls[i] + lf == ls[i] by {
        assert(ls[i] + lf =~= ls[i]);
    }
    assert forall|i: int| 0 <= i < ls.len() implies without_cr(ls[i] + cr) == ls[i] by {
        assert((ls[i] + cr).drop_last() =~= ls[i]);
    }
    assert(ls.map_values(|l: Seq<char>| without_cr(l + lf)) =~= ls);
    assert(ls.map_values(|l: Seq<char>| without_cr(l + cr)) =~= ls);
}

/// No line, closed or open, holds a line feed.
proof fn lemma_state_no_line_feed(t: Seq<char>)
    ensures
        forall|i: int|
            0 <= i < line_state(t).0.len() ==> no_line_feed(#[trigger] line_state(t).0[i]),
        no_line_feed(line_state(t).1),
    decreases t.len(),
{
    if t.len() > 0 {
        lemma_state_no_line_feed(t.drop_last());
        let prev = line_state(t.drop_last());
        if t.last() == '\n' {
            let w = without_cr(prev.1);
            assert(no_line_feed(w)) by {
                if prev.1.len() > 0 && prev.1.last() == '\r' {
                    assert forall|i: int| 0 <= i < w.len() implies w[i] != '\n' by {
                        assert(w[i] == prev.1[i]);
                    }
                }
            }
            assert forall|i: int| 0 <= i < line_state(t).0.len() implies no_line_feed(
                #[trigger] line_state(t).0[i],
            ) by {
                if i < prev.0.len() {
                    assert(line_state(t).0[i] == prev.0[i]);
                }
            }
        }
    }
}

/// A line never holds its terminator: no line of any text holds a line feed.
pub proof fn lemma_lines_without_terminator(t: Seq<char>)
    ensures
        forall|i: int| 0 <= i < lines_of(t).len() ==> no_line_feed(#[trigger] lines_of(t)[i]),
{
    lemma_state_no_line_feed(t);
    let st = line_state(t);
    assert forall|i: int| 0 <= i < lines_of(t).len() implies no_line_feed(
        #[trigger] lines_of(t)[i],
    ) by {
        if i < st.0.len() {
            assert(lines_of(t)[i] == st.0[i]);
        }
    }
}

/// The characters of each string, in order.
pub open spec fn string_views(v: Seq<String>) -> Seq<Seq<char>> {
    v.map_values(|s: String| s@)
}

/// Relies on `FromIterator<&char>` for `String`: the string holds the
/// characters in the order given.
#[verifier::external_body]
fn string_from_chars(cs: &[char]) -> (r: String)
    ensures
        r@ == cs@,
{
    cs.iter().collect()
}

/// Splits `text` into its lines, each without its line terminator.
pub fn split_lines(text: &str) -> (r: Vec<String>)
    ensures
        string_views(r@) == lines_of(text@),
{
    let mut it = text.chars();
    let mut lines: Vec<String> = Vec::new();
    let mut open: Vec<char> = Vec::new();
    let ghost mut seen: Seq<char> = seq![];
    loop
        invariant
            seen + it.remaining() == text@,
            string_views(lines@) == line_state(seen).0,
            open@ == line_state(seen).1,
        ensures
            seen == text@,
            string_views(lines@) == line_state(seen).0,
            open@ == line_state(seen).1,
        decreases text@.len() - seen.len(),
    {
        let next = it.next();
        match next {
            None => {
                assert(seen =~= text@);
                break ;
            },
            Some(c) => {
                let ghost prev = seen;
                proof {
                    seen = seen.push(c);
                    assert(seen.drop_last() =~= prev);
                }
                if c == '\n' {
                    if open.len() > 0 && open[open.len() - 1] == '\r' {
                        open.pop();
                    }
                    let line = string_from_chars(open.as_slice());
                    lines.push(line);
                    open = Vec::new();
                    assert(string_views(lines@) =~= line_state(seen).0);
                } else {
                    open.push(c);
                }
            },
        }
    }
    if open.len() > 0 {
        let line = string_from_chars(open.as_slice());
        lines.push(line);
    }
    assert(string_views(lines@) =~= lines_of(text@));
    lines
}

} // verus!
