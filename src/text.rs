//! A model of a text body as characters and lines, and the primitive
//! operations on it.
use vstd::prelude::*;

verus! {

/// `line` holds `query` as a contiguous run of characters.
pub open spec fn has_sub(line: Seq<char>, query: Seq<char>) -> bool {
    exists|i: int|
        0 <= i && i + query.len() <= line.len() && #[trigger] line.subrange(i, i + query.len())
            == query
}

/// Index of the first line feed in `t` at or after `from`, or `t.len()` if
/// there is none.
pub open spec fn next_break(t: Seq<char>, from: int) -> int
    decreases t.len() - from,
{
    if from < 0 || from >= t.len() {
        t.len() as int
    } else if t[from] == '\n' {
        from
    } else {
        next_break(t, from + 1)
    }
}

/// The line that starts at `start` and ends before the break at `end`. A
/// carriage return just before a line feed belongs to the terminator.
pub open spec fn line_between(t: Seq<char>, start: int, end: int) -> Seq<char> {
    if start < end && end < t.len() && t[end - 1] == '\r' {
        t.subrange(start, end - 1)
    } else {
        t.subrange(start, end)
    }
}

/// The lines of `t` from position `start` on.
pub open spec fn lines_from(t: Seq<char>, start: int) -> Seq<Seq<char>>
    decreases t.len() - start,
{
    if start < 0 || start >= t.len() {
        Seq::empty()
    } else {
        let end = next_break(t, start);
        proof {
            lemma_next_break(t, start);
        }
        if end < t.len() {
            seq![line_between(t, start, end)] + lines_from(t, end + 1)
        } else {
            seq![line_between(t, start, end)]
        }
    }
}

/// The lines of `t`: segments separated by line feeds, with no extra empty
/// line after a final terminator.
pub open spec fn lines_of(t: Seq<char>) -> Seq<Seq<char>> {
    lines_from(t, 0)
}

/// Where the next line feed lies, and that none comes before it.
pub proof fn lemma_next_break(t: Seq<char>, from: int)
    requires
        0 <= from <= t.len(),
    ensures
        from <= next_break(t, from) <= t.len(),
        next_break(t, from) < t.len() ==> t[next_break(t, from)] == '\n',
        forall|k: int| from <= k < next_break(t, from) ==> t[k] != '\n',
    decreases t.len() - from,
{
    if from < t.len() && t[from] != '\n' {
        lemma_next_break(t, from + 1);
    }
}

/// The span `(start, end)` of each line of `t`, in order: the characters
/// `t[start..end]` are the line, without its terminator.
pub fn line_spans(t: &Vec<char>) -> (r: Vec<(usize, usize)>)
    ensures
        r@.len() == lines_of(t@).len(),
        forall|i: int| 0 <= i < r@.len() ==> r@[i].0 <= (#[trigger] r@[i]).1 <= t@.len(),
        forall|i: int|
            0 <= i < r@.len() ==> t@.subrange(r@[i].0 as int, r@[i].1 as int)
                == #[trigger] lines_of(t@)[i],
{
    let n = t.len();
    let mut r: Vec<(usize, usize)> = Vec::new();
    let ghost mut done: Seq<Seq<char>> = Seq::empty();
    let mut start: usize = 0;
    assert(lines_of(t@) =~= done + lines_from(t@, 0));
    while start < n
        invariant
            n == t@.len(),
            start <= n,
            r@.len() == done.len(),
            lines_of(t@) == done + lines_from(t@, start as int),
            forall|i: int| 0 <= i < r@.len() ==> r@[i].0 <= (#[trigger] r@[i]).1 <= t@.len(),
            forall|i: int|
                0 <= i < r@.len() ==> t@.subrange(r@[i].0 as int, r@[i].1 as int)
                    == #[trigger] done[i],
        decreases n - start,
    {
        let end = find_break(t, start);
        proof {
            lemma_next_break(t@, start as int);
        }
        let stop = if start < end && end < n && t[end - 1] == '\r' {
            end - 1
        } else {
            end
        };
        let ghost line = line_between(t@, start as int, end as int);
        assert(t@.subrange(start as int, stop as int) == line);
        r.push((start, stop));
        proof {
            let old_done = done;
            done = done.push(line);
            assert forall|i: int| 0 <= i < r@.len() implies t@.subrange(
                r@[i].0 as int,
                r@[i].1 as int,
            ) == #[trigger] done[i] by {
                if i < old_done.len() {
                    assert(done[i] == old_done[i]);
                }
            }
            if end < n {
                assert(lines_from(t@, start as int) == seq![line] + lines_from(t@, end + 1));
                assert(old_done + lines_from(t@, start as int) =~= done + lines_from(
                    t@,
                    end + 1,
                ));
            } else {
                assert(lines_from(t@, start as int) == seq![line]);
                assert(lines_from(t@, n as int) =~= Seq::<Seq<char>>::empty());
                assert(old_done + lines_from(t@, start as int) =~= done + lines_from(
                    t@,
                    n as int,
                ));
            }
        }
        start = if end < n {
            end + 1
        } else {
            n
        };
    }
    assert(lines_of(t@) =~= done);
    assert forall|i: int| 0 <= i < r@.len() implies t@.subrange(r@[i].0 as int, r@[i].1 as int)
        == #[trigger] lines_of(t@)[i] by {
        assert(lines_of(t@)[i] == done[i]);
    }
    r
}

/// Position of the first line feed of `t` at or after `from`, or the length.
pub fn find_break(t: &Vec<char>, from: usize) -> (r: usize)
    requires
        from <= t@.len(),
    ensures
        r == next_break(t@, from as int),
{
    let mut i: usize = from;
    while i < t.len() && t[i] != '\n'
        invariant
            from <= i <= t@.len(),
            next_break(t@, i as int) == next_break(t@, from as int),
        decreases t@.len() - i,
    {
        i += 1;
    }
    i
}

/// Whether `needle` occurs in the window `hay[lo..hi]`.
pub fn occurs_in(hay: &Vec<char>, lo: usize, hi: usize, needle: &Vec<char>) -> (r: bool)
    requires
        lo <= hi <= hay@.len(),
    ensures
        r == has_sub(hay@.subrange(lo as int, hi as int), needle@),
{
    let ghost w = hay@.subrange(lo as int, hi as int);
    let m = needle.len();
    if m > hi - lo {
        return false;
    }
    let mut i: usize = lo;
    while i <= hi - m
        invariant
            lo <= i <= hi - m + 1,
            m == needle@.len(),
            m <= hi - lo,
            lo <= hi <= hay@.len(),
            w == hay@.subrange(lo as int, hi as int),
            forall|k: int| 0 <= k < i - lo ==> #[trigger] w.subrange(k, k + m) != needle@,
        decreases hi - i,
    {
        let mut j: usize = 0;
        while j < m && hay[i + j] == needle[j]
            invariant
                j <= m,
                m == needle@.len(),
                lo <= i <= hi - m,
                hi <= hay@.len(),
                forall|x: int| 0 <= x < j ==> hay@[i + x] == needle@[x],
            decreases m - j,
        {
            j += 1;
        }
        let ghost k = i - lo;
        if j == m {
            assert(w.subrange(k, k + m) =~= needle@);
            return true;
        }
        assert(w.subrange(k, k + m)[j as int] != needle@[j as int]);
        i += 1;
    }
    false
}

/// The characters of `s`, in order.
pub fn chars_of(s: &str) -> (r: Vec<char>)
    ensures
        r@ == s@,
{
    let mut r: Vec<char> = Vec::new();
    for c in it: s.chars()
        invariant
            r@ == it.seq().take(it.index() as int),
    {
        r.push(c);
    }
    r
}

} // verus!
