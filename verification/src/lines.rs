//! A text as a list of lines, each with its line ending.

use crate::seqs::first_where;
use crate::text::chars_of;
use vstd::prelude::*;

verus! {

/// The length of the first line, its line feed included.
pub open spec fn first_line_len(s: Seq<char>) -> int {
    let k = first_where(s, |c: char| c == '\n', 0);
    if k < s.len() {
        k + 1
    } else {
        s.len() as int
    }
}

/// The lines of a text, each with its line feed where it has one.
pub open spec fn lines(s: Seq<char>) -> Seq<Seq<char>>
    decreases s.len(),
    via lines_decreases
{
    if s.len() == 0 {
        Seq::empty()
    } else {
        seq![s.take(first_line_len(s))] + lines(s.skip(first_line_len(s)))
    }
}

#[via_fn]
proof fn lines_decreases(s: Seq<char>) {
    broadcast use crate::seqs::first_where_range;

}

/// The lines one after the other.
pub open spec fn unlines(ls: Seq<Seq<char>>) -> Seq<char>
    decreases ls.len(),
{
    if ls.len() == 0 {
        Seq::empty()
    } else {
        unlines(ls.drop_last()) + ls.last()
    }
}

/// One line: not empty, with no line feed but at its end.
pub open spec fn one_line(l: Seq<char>) -> bool {
    &&& l.len() > 0
    &&& forall|i: int| 0 <= i < l.len() - 1 ==> l[i] != '\n'
}

/// A line that ends in a line feed.
pub open spec fn ended(l: Seq<char>) -> bool {
    l.len() > 0 && l.last() == '\n'
}

/// A list of lines that a text has: only the last may lack its line feed.
pub open spec fn well_cut(ls: Seq<Seq<char>>) -> bool {
    &&& forall|i: int| 0 <= i < ls.len() ==> one_line(#[trigger] ls[i])
    &&& forall|i: int| 0 <= i < ls.len() - 1 ==> ended(#[trigger] ls[i])
}

/// The lines of a text are well cut and make up the text.
pub proof fn lines_make_the_text(s: Seq<char>)
    ensures
        well_cut(lines(s)),
        unlines(lines(s)) == s,
        lines(s).len() == 0 <==> s.len() == 0,
    decreases s.len(),
{
    if s.len() > 0 {
        let feed = |c: char| c == '\n';
        crate::seqs::first_where_is_first(s, feed, 0);
        let n = first_line_len(s);
        let head = s.take(n);
        let rest = s.skip(n);
        lines_make_the_text(rest);
        let ls = lines(s);
        assert(one_line(head)) by {
            assert forall|i: int| 0 <= i < head.len() - 1 implies head[i] != '\n' by {
                assert(!feed(s[i]));
            }
        }
        assert forall|i: int| 0 <= i < ls.len() implies one_line(#[trigger] ls[i]) by {
            if i > 0 {
                assert(ls[i] == lines(rest)[i - 1]);
            }
        }
        assert forall|i: int| 0 <= i < ls.len() - 1 implies ended(#[trigger] ls[i]) by {
            if i > 0 {
                assert(ls[i] == lines(rest)[i - 1]);
            } else {
                assert(rest.len() > 0);
            }
        }
        unlines_of_front(head, lines(rest));
        assert(head + rest =~= s);
    }
}

/// A line before a list of lines.
pub proof fn unlines_of_front(l: Seq<char>, ls: Seq<Seq<char>>)
    ensures
        unlines(seq![l] + ls) == l + unlines(ls),
    decreases ls.len(),
{
    if ls.len() == 0 {
        let front = (seq![l] + ls).drop_last();
        assert(front =~= Seq::<Seq<char>>::empty());
        assert(unlines(front) =~= Seq::<char>::empty());
        assert((seq![l] + ls).last() == l);
        assert(unlines(seq![l] + ls) =~= l);
        assert(l + unlines(ls) =~= l);
    } else {
        assert((seq![l] + ls).drop_last() =~= seq![l] + ls.drop_last());
        unlines_of_front(l, ls.drop_last());
        assert(unlines(seq![l] + ls) =~= l + unlines(ls));
    }
}

/// A list of lines in two parts.
pub proof fn unlines_of_parts(a: Seq<Seq<char>>, b: Seq<Seq<char>>)
    ensures
        unlines(a + b) == unlines(a) + unlines(b),
    decreases b.len(),
{
    if b.len() == 0 {
        assert(a + b =~= a);
        assert(unlines(a) + unlines(b) =~= unlines(a));
    } else {
        assert((a + b).drop_last() =~= a + b.drop_last());
        unlines_of_parts(a, b.drop_last());
        assert(unlines(a + b) =~= unlines(a) + unlines(b));
    }
}

/// A well-cut list is the list of lines of the text that it makes up.
pub proof fn lines_of_unlines(ls: Seq<Seq<char>>)
    requires
        well_cut(ls),
    ensures
        lines(unlines(ls)) == ls,
    decreases ls.len(),
{
    if ls.len() > 0 {
        let head = ls[0];
        let rest = ls.drop_first();
        assert(one_line(head));
        assert forall|i: int| 0 <= i < rest.len() implies one_line(#[trigger] rest[i]) by {
            assert(rest[i] == ls[i + 1]);
        }
        assert forall|i: int| 0 <= i < rest.len() - 1 implies ended(#[trigger] rest[i]) by {
            assert(rest[i] == ls[i + 1]);
        }
        lines_of_unlines(rest);
        assert(ls =~= seq![head] + rest);
        unlines_of_front(head, rest);
        let s = unlines(ls);
        let feed = |c: char| c == '\n';
        crate::seqs::first_where_is_first(s, feed, 0);
        let k = first_where(s, feed, 0);
        assert(s == head + unlines(rest));
        assert(first_line_len(s) == head.len()) by {
            if ended(head) {
                assert(feed(s[head.len() - 1]));
                assert(forall|i: int| 0 <= i < head.len() - 1 ==> s[i] == head[i]);
                if k < head.len() - 1 {
                    assert(feed(s[k]));
                }
                if k > head.len() - 1 {
                    assert(!feed(s[head.len() - 1]));
                }
            } else {
                assert(ls.len() == 1) by {
                    if ls.len() > 1 {
                        assert(ended(ls[0]));
                    }
                }
                assert(rest.len() == 0);
                assert(s =~= head);
                if k < s.len() {
                    assert(feed(s[k]));
                    assert(s[k] == head[k]);
                    assert(k == head.len() - 1);
                }
            }
        }
        assert(s.take(head.len() as int) =~= head);
        assert(s.skip(head.len() as int) =~= unlines(rest));
        assert(lines(s) =~= seq![head] + rest);
    } else {
        assert(unlines(ls) =~= Seq::<char>::empty());
    }
}

/// The line without its line ending.
pub open spec fn line_content(l: Seq<char>) -> Seq<char> {
    if l.len() > 0 && l.last() == '\n' {
        if l.len() > 1 && l[l.len() - 2] == '\r' {
            l.take(l.len() - 2)
        } else {
            l.take(l.len() - 1)
        }
    } else {
        l
    }
}

/// The line ending of a line: a line feed with or without a carriage return,
/// or nothing.
pub open spec fn line_ending(l: Seq<char>) -> Seq<char> {
    l.skip(line_content(l).len() as int)
}

/// The views of a list of lines.
pub open spec fn line_views(ls: Seq<Vec<char>>) -> Seq<Seq<char>> {
    ls.map_values(|l: Vec<char>| l@)
}

/// The lines of a text, each with its line feed where it has one.
pub fn split_lines(source: &str) -> (r: Vec<Vec<char>>)
    ensures
        line_views(r@) == lines(source@),
{
    let s = chars_of(source);
    let ghost feed = |c: char| c == '\n';
    let mut r: Vec<Vec<char>> = Vec::new();
    let mut start: usize = 0;
    proof {
        assert(line_views(r@) + lines(s@.skip(0)) =~= lines(s@.skip(0)));
        assert(s@.skip(0) =~= s@);
    }
    while start < s.len()
        invariant
            start <= s@.len(),
            feed == (|c: char| c == '\n'),
            line_views(r@) + lines(s@.skip(start as int)) == lines(s@),
        decreases s@.len() - start,
    {
        let ghost rest = s@.skip(start as int);
        let mut line: Vec<char> = Vec::new();
        let mut i: usize = start;
        let mut open = true;
        while open && i < s.len()
            invariant
                start <= i <= s@.len(),
                rest == s@.skip(start as int),
                start < s@.len(),
                feed == (|c: char| c == '\n'),
                line@ == rest.take(i - start),
                open ==> first_where(rest, feed, 0) == first_where(rest, feed, i - start),
                !open ==> i > start && first_where(rest, feed, 0) == i - start - 1,
            decreases s@.len() - i,
        {
            let c = s[i];
            assert(rest[i - start] == c);
            line.push(c);
            if c == '\n' {
                open = false;
            }
            i += 1;
            assert(line@ =~= rest.take(i - start));
        }
        proof {
            assert(i - start == first_line_len(rest));
            assert(rest.skip(i - start) =~= s@.skip(i as int));
        }
        let ghost before = r@;
        r.push(line);
        proof {
            assert(line_views(r@) =~= line_views(before).push(line@));
            assert(line_views(r@) + lines(s@.skip(i as int)) =~= line_views(before) + lines(rest));
        }
        start = i;
    }
    assert(s@.skip(start as int) =~= Seq::<char>::empty());
    assert(line_views(r@) + lines(s@.skip(start as int)) =~= line_views(r@));
    r
}

/// How many characters a line has before its line ending.
pub fn content_len(l: &[char]) -> (r: usize)
    ensures
        r == line_content(l@).len(),
        r <= l@.len(),
        l@.take(r as int) == line_content(l@),
        l@.skip(r as int) == line_ending(l@),
{
    let n: usize = l.len();
    let r: usize = if n > 0 && l[n - 1] == '\n' {
        if n > 1 && l[n - 2] == '\r' {
            n - 2
        } else {
            n - 1
        }
    } else {
        n
    };
    assert(l@.take(r as int) =~= line_content(l@));
    r
}

/// A line is its content and its ending: nothing, a line feed, or a carriage return
/// with one. What has an ending has the whole of it, and every content can have any.
pub proof fn lines_are_content_and_ending(l: Seq<char>, content: Seq<char>)
    ensures
        line_content(l) + line_ending(l) == l,
        line_ending(l) == Seq::<char>::empty() || line_ending(l) == seq!['\n'] || line_ending(l)
            == seq!['\r', '\n'],
        l.len() > 0 && l.last() == '\n' ==> line_ending(l).len() > 0,
        line_content(content + seq!['\r', '\n']) == content,
        !(content.len() > 0 && content.last() == '\r') ==> line_content(content + seq!['\n'])
            == content,
        !(content.len() > 0 && content.last() == '\n') ==> line_content(content) == content,
{
    assert(line_content(l) + line_ending(l) =~= l);
    let n = l.len() as int;
    if n > 0 && l.last() == '\n' {
        if n > 1 && l[n - 2] == '\r' {
            assert(line_ending(l) =~= seq!['\r', '\n']);
        } else {
            assert(line_ending(l) =~= seq!['\n']);
        }
    } else {
        assert(line_ending(l) =~= Seq::<char>::empty());
    }
    let k = content.len() as int;
    let long = content + seq!['\r', '\n'];
    assert(long[k] == '\r' && long[k + 1] == '\n');
    assert(line_content(long) =~= content);
    let short = content + seq!['\n'];
    assert(short[k] == '\n');
    if !(k > 0 && content.last() == '\r') {
        assert(line_content(short) =~= content);
    }
}

} // verus!
