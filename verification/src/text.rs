//! Splitting program text into grid rows.
//!
//! One line per row, characters as cells. Lines end at a line feed; a
//! carriage return directly before a line feed belongs to the ending and is
//! dropped. A final line without a line ending still counts; a trailing line
//! ending adds no empty row.

use vstd::prelude::*;
use crate::grid::grid_view;

verus! {

/// Index of the first line feed in `s`, or `s.len()` when there is none.
pub open spec fn find_nl(s: Seq<char>) -> int
    decreases s.len(),
{
    if s.len() == 0 {
        0
    } else if s[0] == '\n' {
        0
    } else {
        1 + find_nl(s.drop_first())
    }
}

/// A trailing carriage return is dropped; anything else stays.
pub open spec fn strip_cr(t: Seq<char>) -> Seq<char> {
    if t.len() > 0 && t.last() == '\r' {
        t.drop_last()
    } else {
        t
    }
}

/// `find_nl` stays within the sequence, and what precedes it holds no line
/// feed.
pub proof fn lemma_find_nl_bounds(s: Seq<char>)
    ensures
        0 <= find_nl(s) <= s.len(),
        forall|j: int| 0 <= j < find_nl(s) ==> s[j] != '\n',
        find_nl(s) < s.len() ==> s[find_nl(s)] == '\n',
    decreases s.len(),
{
    if s.len() > 0 && s[0] != '\n' {
        lemma_find_nl_bounds(s.drop_first());
        assert forall|j: int| 0 <= j < find_nl(s) implies s[j] != '\n' by {
            if j > 0 {
                assert(s.drop_first()[j - 1] == s[j]);
            }
        }
    }
}

#[via_fn]
proof fn lines_of_dec(s: Seq<char>)
{
    lemma_find_nl_bounds(s);
}

/// The rows that `s` denotes, in order.
pub open spec fn lines_of(s: Seq<char>) -> Seq<Seq<char>>
    decreases s.len() via lines_of_dec
{
    if s.len() == 0 {
        Seq::empty()
    } else if find_nl(s) >= s.len() {
        seq![s]
    } else {
        seq![strip_cr(s.take(find_nl(s)))] + lines_of(s.skip(find_nl(s) + 1))
    }
}

/// A prefix without line feeds moves `find_nl` past itself.
proof fn lemma_find_nl_concat(pre: Seq<char>, tail: Seq<char>)
    requires
        forall|j: int| 0 <= j < pre.len() ==> pre[j] != '\n',
        tail.len() > 0,
        tail[0] == '\n',
    ensures
        find_nl(pre + tail) == pre.len(),
    decreases pre.len(),
{
    if pre.len() == 0 {
        assert(pre + tail =~= tail);
    } else {
        assert((pre + tail)[0] == pre[0]);
        assert((pre + tail).drop_first() =~= pre.drop_first() + tail);
        lemma_find_nl_concat(pre.drop_first(), tail);
    }
}

/// Text without a line feed is one single row.
proof fn lemma_lines_of_whole(s: Seq<char>)
    requires
        s.len() > 0,
        forall|j: int| 0 <= j < s.len() ==> s[j] != '\n',
    ensures
        lines_of(s) == seq![s],
    decreases s.len(),
{
    lemma_find_nl_bounds(s);
    if find_nl(s) < s.len() {
        assert(s[find_nl(s)] == '\n');
        assert(false);
    }
}

/// Peeling one full line off the front: the text up to the first line feed
/// becomes a row (its trailing carriage return dropped), and the rest splits
/// on its own.
proof fn lemma_lines_of_step(pre: Seq<char>, rest: Seq<char>)
    requires
        forall|j: int| 0 <= j < pre.len() ==> pre[j] != '\n',
    ensures
        lines_of(pre + seq!['\n'] + rest) == seq![strip_cr(pre)] + lines_of(rest),
{
    let s = pre + seq!['\n'] + rest;
    assert(s.len() > 0);
    assert(pre + seq!['\n'] =~= (pre + seq!['\n']));
    assert(s =~= pre + (seq!['\n'] + rest));
    assert((seq!['\n'] + rest)[0] == '\n');
    lemma_find_nl_concat(pre, seq!['\n'] + rest);
    assert(find_nl(s) == pre.len());
    assert(find_nl(s) < s.len());
    assert(s.take(pre.len() as int) =~= pre);
    assert(s.skip(pre.len() as int + 1) =~= rest);
    assert(lines_of(s) == seq![strip_cr(pre)] + lines_of(rest));
}

/// One more row at the end of a grid view.
proof fn lemma_grid_view_push(rs: Seq<Vec<char>>, v: Vec<char>)
    ensures
        grid_view(rs.push(v)) == grid_view(rs).push(v@),
{
    assert(grid_view(rs.push(v)) =~= grid_view(rs).push(v@));
}

/// Associativity, specialized to a grid view extended by one row.
proof fn lemma_rows_assoc(gv: Seq<Seq<char>>, line: Seq<char>, rest: Seq<Seq<char>>)
    ensures
        gv + (seq![line] + rest) == gv.push(line) + rest,
{
    assert(gv + (seq![line] + rest) =~= gv.push(line) + rest);
}

/// An empty tail of rows changes nothing.
proof fn lemma_rows_empty(gv: Seq<Seq<char>>)
    ensures
        gv + Seq::<Seq<char>>::empty() == gv,
{
    assert(gv + Seq::<Seq<char>>::empty() =~= gv);
}

/// One final row closes the grid.
proof fn lemma_rows_last(gv: Seq<Seq<char>>, line: Seq<char>)
    ensures
        gv + seq![line] == gv.push(line),
{
    assert(gv + seq![line] =~= gv.push(line));
}

/// Build the program grid from raw text, one row per line.
pub fn grid_from_text(text: &Vec<char>) -> (g: Vec<Vec<char>>)
    ensures
        grid_view(g@) == lines_of(text@),
{
    let mut rows: Vec<Vec<char>> = Vec::new();
    let mut cur: Vec<char> = Vec::new();
    let mut i: usize = 0;
    proof {
        assert(cur@ + text@.skip(0) =~= text@);
    }
    while i < text.len()
        invariant
            i <= text@.len(),
            forall|j: int| 0 <= j < cur@.len() ==> cur@[j] != '\n',
            lines_of(text@) == grid_view(rows@) + lines_of(cur@ + text@.skip(i as int)),
        decreases text@.len() - i,
    {
        let ch = text[i];
        if ch == '\n' {
            let ghost pre = cur@;
            if cur.len() > 0 && cur[cur.len() - 1] == '\r' {
                cur.pop();
            }
            let line = cur;
            cur = Vec::new();
            let ghost rs0 = rows@;
            let ghost gv = grid_view(rs0);
            rows.push(line);
            proof {
                assert(line@ == strip_cr(pre));
                assert(pre + text@.skip(i as int) =~= pre + seq!['\n'] + text@.skip(i + 1));
                lemma_lines_of_step(pre, text@.skip(i + 1));
                lemma_grid_view_push(rs0, line);
                lemma_rows_assoc(gv, strip_cr(pre), lines_of(text@.skip(i + 1)));
                assert(cur@ + text@.skip(i + 1) =~= text@.skip(i + 1));
            }
        } else {
            let ghost pre = cur@;
            cur.push(ch);
            proof {
                assert(cur@ + text@.skip(i + 1) =~= pre + text@.skip(i as int));
            }
        }
        i = i + 1;
    }
    proof {
        assert(cur@ + text@.skip(i as int) =~= cur@);
    }
    if cur.len() > 0 {
        let ghost rs0 = rows@;
        let ghost gv = grid_view(rs0);
        let ghost last = cur@;
        rows.push(cur);
        proof {
            lemma_lines_of_whole(last);
            lemma_grid_view_push(rs0, rows@.last());
            lemma_rows_last(gv, last);
        }
        rows
    } else {
        proof {
            lemma_rows_empty(grid_view(rows@));
        }
        rows
    }
}

} // verus!
