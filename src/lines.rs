use vstd::prelude::*;

verus! {

/// Byte value of a line feed.
pub const LF: u8 = 10;

/// Byte value of a carriage return.
pub const CR: u8 = 13;

/// A line ended by `\r\n` loses its carriage return.
pub open spec fn strip_cr(l: Seq<u8>) -> Seq<u8> {
    if l.len() > 0 && l.last() == CR {
        l.drop_last()
    } else {
        l
    }
}

/// The lines of `s` from position `i` on, where the current line began at `start`.
/// A line ends at `\n` (or `\r\n`); the last line ending is optional, and an empty
/// tail after the last `\n` is no line.
pub open spec fn lines_from(s: Seq<u8>, i: int, start: int) -> Seq<Seq<u8>>
    decreases s.len() - i,
{
    if i >= s.len() {
        if start < s.len() {
            seq![s.subrange(start, s.len() as int)]
        } else {
            seq![]
        }
    } else if s[i] == LF {
        seq![strip_cr(s.subrange(start, i))] + lines_from(s, i + 1, i + 1)
    } else {
        lines_from(s, i + 1, start)
    }
}

/// The lines of a text.
pub open spec fn lines(s: Seq<u8>) -> Seq<Seq<u8>> {
    lines_from(s, 0, 0)
}

/// Lines written back one after another, each followed by `\n`.
pub open spec fn join_lines(ls: Seq<Seq<u8>>) -> Seq<u8>
    decreases ls.len(),
{
    if ls.len() == 0 {
        seq![]
    } else {
        join_lines(ls.drop_last()) + ls.last() + seq![LF]
    }
}

/// The views of a vector of lines.
pub open spec fn views(v: Seq<Vec<u8>>) -> Seq<Seq<u8>> {
    v.map_values(|l: Vec<u8>| l@)
}

/// Copies `s[from..to]` into a new vector.
pub fn copy_range(s: &[u8], from: usize, to: usize) -> (r: Vec<u8>)
    requires
        from <= to <= s@.len(),
    ensures
        r@ == s@.subrange(from as int, to as int),
{
    let mut r: Vec<u8> = Vec::new();
    let mut k: usize = from;
    while k < to
        invariant
            from <= k <= to <= s@.len(),
            r@ == s@.subrange(from as int, k as int),
        decreases to - k,
    {
        r.push(s[k]);
        k = k + 1;
    }
    r
}

/// Splits a text into its lines.
pub fn split_lines(s: &[u8]) -> (r: Vec<Vec<u8>>)
    ensures
        views(r@) == lines(s@),
        forall|k: int| 0 <= k < r@.len() ==> r@[k]@.len() <= s@.len(),
{
    let mut out: Vec<Vec<u8>> = Vec::new();
    let mut i: usize = 0;
    let mut start: usize = 0;
    while i < s.len()
        invariant
            start <= i <= s@.len(),
            views(out@) + lines_from(s@, i as int, start as int) == lines(s@),
            forall|k: int| 0 <= k < out@.len() ==> out@[k]@.len() <= s@.len(),
        decreases s@.len() - i,
    {
        if s[i] == LF {
            let mut end: usize = i;
            if end > start && s[end - 1] == CR {
                end = end - 1;
            }
            let line = copy_range(s, start, end);
            proof {
                assert(line@ == strip_cr(s@.subrange(start as int, i as int)));
                assert(views(out@.push(line)) == views(out@).push(line@));
                assert(lines_from(s@, i as int, start as int) == seq![line@] + lines_from(
                    s@,
                    i + 1,
                    i + 1,
                ));
                assert(views(out@).push(line@) + lines_from(s@, i + 1, i + 1) == views(out@)
                    + lines_from(s@, i as int, start as int));
            }
            out.push(line);
            start = i + 1;
        }
        i = i + 1;
    }
    if start < s.len() {
        let line = copy_range(s, start, s.len());
        proof {
            assert(views(out@.push(line)) == views(out@).push(line@));
        }
        out.push(line);
    }
    proof {
        assert(views(out@) == lines(s@));
    }
    out
}

/// Writes lines back, each followed by `\n`.
pub fn join(ls: &Vec<Vec<u8>>) -> (r: Vec<u8>)
    ensures
        r@ == join_lines(views(ls@)),
{
    let mut r: Vec<u8> = Vec::new();
    let mut k: usize = 0;
    while k < ls.len()
        invariant
            k <= ls@.len(),
            r@ == join_lines(views(ls@.subrange(0, k as int))),
        decreases ls@.len() - k,
    {
        let line = &ls[k];
        let mut j: usize = 0;
        let ghost before = r@;
        while j < line.len()
            invariant
                j <= line@.len(),
                r@ == before + line@.subrange(0, j as int),
            decreases line@.len() - j,
        {
            r.push(line[j]);
            j = j + 1;
        }
        r.push(LF);
        proof {
            let vk = views(ls@.subrange(0, k + 1));
            assert(vk.drop_last() == views(ls@.subrange(0, k as int)));
            assert(vk.last() == line@);
            assert(line@.subrange(0, line@.len() as int) == line@);
        }
        k = k + 1;
    }
    proof {
        assert(ls@.subrange(0, ls@.len() as int) == ls@);
    }
    r
}

} // verus!

verus! {

/// `l` holds no line feed.
pub open spec fn no_lf(l: Seq<u8>) -> bool {
    forall|j: int| 0 <= j < l.len() ==> l[j] != LF
}

/// Scanning over bytes that are no line feed changes no line boundary.
proof fn lemma_scan_line(s: Seq<u8>, i: int, j: int, start: int)
    requires
        0 <= start <= i <= j <= s.len(),
        forall|m: int| i <= m < j ==> s[m] != LF,
    ensures
        lines_from(s, i, start) == lines_from(s, j, start),
    decreases j - i,
{
    if i < j {
        lemma_scan_line(s, i + 1, j, start);
    }
}

/// No line of a text holds a line feed.
pub proof fn lemma_lines_no_lf(s: Seq<u8>, i: int, start: int)
    requires
        0 <= start <= i <= s.len(),
        forall|m: int| start <= m < i ==> s[m] != LF,
    ensures
        forall|k: int|
            0 <= k < lines_from(s, i, start).len() ==> no_lf(#[trigger] lines_from(s, i, start)[k]),
    decreases s.len() - i,
{
    if i < s.len() {
        if s[i] == LF {
            lemma_lines_no_lf(s, i + 1, i + 1);
            let l = strip_cr(s.subrange(start, i));
            assert(no_lf(l));
            assert forall|k: int| 0 <= k < lines_from(s, i, start).len() implies no_lf(
                #[trigger] lines_from(s, i, start)[k],
            ) by {
                if k > 0 {
                    assert(lines_from(s, i, start)[k] == lines_from(s, i + 1, i + 1)[k - 1]);
                } else {
                    assert(lines_from(s, i, start)[k] == l);
                }
            }
        } else {
            lemma_lines_no_lf(s, i + 1, start);
            assert(lines_from(s, i, start) == lines_from(s, i + 1, start));
        }
    } else if start < s.len() {
        assert(no_lf(s.subrange(start, s.len() as int)));
        assert(lines_from(s, i, start) == seq![s.subrange(start, s.len() as int)]);
    }
}

/// Writing the first `m` lines gives a prefix of writing them all.
proof fn lemma_join_prefix(ls: Seq<Seq<u8>>, m: int)
    requires
        0 <= m <= ls.len(),
    ensures
        join_lines(ls.take(m)).len() <= join_lines(ls).len(),
        join_lines(ls) .take(join_lines(ls.take(m)).len() as int) == join_lines(ls.take(m)),
    decreases ls.len(),
{
    if m < ls.len() {
        assert(ls.drop_last().take(m) == ls.take(m));
        lemma_join_prefix(ls.drop_last(), m);
        let p = join_lines(ls.take(m));
        let d = join_lines(ls.drop_last());
        assert(join_lines(ls) == d + ls.last() + seq![LF]);
        assert((d + ls.last() + seq![LF]).take(p.len() as int) =~= d.take(p.len() as int));
    } else {
        assert(ls.take(m) == ls);
        assert(join_lines(ls).take(join_lines(ls).len() as int) =~= join_lines(ls));
    }
}

/// Reading written lines back from the start of line `k` on.
proof fn lemma_lines_of_join_from(ls: Seq<Seq<u8>>, k: int)
    requires
        0 <= k <= ls.len(),
        forall|i: int| 0 <= i < ls.len() ==> no_lf(#[trigger] ls[i]),
    ensures
        ({
            let s = join_lines(ls);
            let p = join_lines(ls.take(k)).len() as int;
            lines_from(s, p, p) == ls.skip(k).map_values(|l: Seq<u8>| strip_cr(l))
        }),
    decreases ls.len() - k,
{
    let s = join_lines(ls);
    let p = join_lines(ls.take(k)).len() as int;
    lemma_join_prefix(ls, k);
    if k == ls.len() {
        assert(ls.take(k) == ls);
        assert(ls.skip(k).map_values(|l: Seq<u8>| strip_cr(l)) =~= seq![]);
    } else {
        lemma_join_prefix(ls, k + 1);
        lemma_lines_of_join_from(ls, k + 1);
        let l = ls[k];
        assert(ls.take(k + 1).drop_last() == ls.take(k));
        assert(ls.take(k + 1).last() == l);
        let q = join_lines(ls.take(k + 1));
        assert(q == join_lines(ls.take(k)) + l + seq![LF]);
        let e = p + l.len();
        assert(s.take(q.len() as int) == q);
        assert forall|m: int| p <= m < e implies s[m] != LF by {
            assert(s[m] == s.take(q.len() as int)[m]);
            assert(q[m] == l[m - p]);
        }
        assert(s[e] == s.take(q.len() as int)[e]);
        assert(s[e] == LF);
        lemma_scan_line(s, p, e, p);
        assert(s.subrange(p, e) =~= l) by {
            assert forall|m: int| 0 <= m < l.len() implies s.subrange(p, e)[m] == l[m] by {
                assert(s[p + m] == s.take(q.len() as int)[p + m]);
            }
        }
        assert(ls.skip(k).map_values(|l: Seq<u8>| strip_cr(l)) =~= seq![strip_cr(l)] + ls.skip(
            k + 1,
        ).map_values(|l: Seq<u8>| strip_cr(l)));
    }
}

/// Reading back written lines gives the lines again, each without a carriage
/// return at its end.
pub proof fn lemma_lines_of_join(ls: Seq<Seq<u8>>)
    requires
        forall|i: int| 0 <= i < ls.len() ==> no_lf(#[trigger] ls[i]),
    ensures
        lines(join_lines(ls)) == ls.map_values(|l: Seq<u8>| strip_cr(l)),
{
    lemma_lines_of_join_from(ls, 0);
    assert(ls.take(0) =~= seq![]);
    assert(ls.skip(0) == ls);
}

} // verus!
