use vstd::prelude::*;

use vstd::string::StringSliceAdditionalSpecFns;

use crate::lines::{
    join, join_lines, lemma_lines_no_lf, lemma_lines_of_join, lines, no_lf, split_lines, strip_cr,
    views, LF,
};

verus! {

/// Byte value of `'`.
pub const QUOTE: u8 = 39;

/// A whitespace character of one byte: tab, line feed, vertical tab, form feed,
/// carriage return or space.
pub open spec fn is_ascii_space(b: u8) -> bool {
    b == 9 || b == 10 || b == 11 || b == 12 || b == 13 || b == 32
}

/// The UTF-8 encoding of a whitespace character of three bytes: U+1680,
/// U+2000 to U+200A, U+2028, U+2029, U+202F, U+205F or U+3000.
pub open spec fn is_wide_space(a: u8, b: u8, c: u8) -> bool {
    (a == 0xE1 && b == 0x9A && c == 0x80) || (a == 0xE2 && b == 0x80 && ((0x80 <= c && c
        <= 0x8A) || c == 0xA8 || c == 0xA9 || c == 0xAF)) || (a == 0xE2 && b == 0x81 && c
        == 0x9F) || (a == 0xE3 && b == 0x80 && c == 0x80)
}

/// The number of bytes of the whitespace character that ends `l`, or 0. The
/// characters are those of Unicode's White_Space property; U+0085 and U+00A0 take
/// two bytes.
pub open spec fn space_suffix_len(l: Seq<u8>) -> int {
    let n = l.len() as int;
    if n >= 1 && is_ascii_space(l[n - 1]) {
        1
    } else if n >= 2 && l[n - 2] == 0xC2 && (l[n - 1] == 0x85 || l[n - 1] == 0xA0) {
        2
    } else if n >= 3 && is_wide_space(l[n - 3], l[n - 2], l[n - 1]) {
        3
    } else {
        0
    }
}

/// `l` without its trailing whitespace.
pub open spec fn trim_end(l: Seq<u8>) -> Seq<u8>
    decreases l.len(),
{
    let k = space_suffix_len(l);
    if k > 0 && k <= l.len() {
        trim_end(l.subrange(0, l.len() - k))
    } else {
        l
    }
}

/// The header of the version accessor.
pub open spec fn header() -> Seq<u8> {
    seq![
        100u8, 101u8, 102u8, 32u8, 103u8, 101u8, 116u8, 95u8, 118u8, 101u8, 114u8, 115u8,
        105u8, 111u8, 110u8, 40u8, 41u8, 58u8,
    ]
}

/// The single statement of the rewritten accessor: it returns `version` quoted.
pub open spec fn return_line(version: Seq<u8>) -> Seq<u8> {
    seq![32u8, 32u8, 32u8, 32u8, 114u8, 101u8, 116u8, 117u8, 114u8, 110u8, 32u8, 39u8]
        + version + seq![QUOTE]
}

/// A line that is the header, up to trailing whitespace.
pub open spec fn is_header_line(l: Seq<u8>) -> bool {
    trim_end(l) == header()
}

/// The first header line at or after `i`.
pub open spec fn first_header(ls: Seq<Seq<u8>>, i: int) -> Option<int>
    decreases ls.len() - i,
{
    if i < 0 || i >= ls.len() {
        None
    } else if is_header_line(ls[i]) {
        Some(i)
    } else {
        first_header(ls, i + 1)
    }
}

/// The lines after the rewrite: the header and the three lines after it become the
/// header and a return of the version.
pub open spec fn rewritten_lines(ls: Seq<Seq<u8>>, i: int, version: Seq<u8>) -> Seq<Seq<u8>> {
    ls.subrange(0, i) + seq![header(), return_line(version)] + ls.subrange(i + 4, ls.len() as int)
}

/// The file with its version accessor rewritten, or `None` where it has no header
/// line or fewer than three lines after the first one.
pub open spec fn version_rewrite(content: Seq<u8>, version: Seq<u8>) -> Option<Seq<u8>> {
    let ls = lines(content);
    match first_header(ls, 0) {
        None => None,
        Some(i) => if ls.len() < i + 4 {
            None
        } else {
            Some(join_lines(rewritten_lines(ls, i, version)))
        },
    }
}

/// The number of bytes of the whitespace character that ends `l[..end]`, or 0.
fn space_suffix(l: &Vec<u8>, end: usize) -> (r: usize)
    requires
        end <= l@.len(),
    ensures
        r as int == space_suffix_len(l@.subrange(0, end as int)),
{
    if end >= 1 {
        let c = l[end - 1];
        if c == 9 || c == 10 || c == 11 || c == 12 || c == 13 || c == 32 {
            return 1;
        }
    }
    if end >= 2 {
        let b = l[end - 2];
        let c = l[end - 1];
        if b == 0xC2 && (c == 0x85 || c == 0xA0) {
            return 2;
        }
    }
    if end >= 3 {
        let a = l[end - 3];
        let b = l[end - 2];
        let c = l[end - 1];
        if (a == 0xE1 && b == 0x9A && c == 0x80) || (a == 0xE2 && b == 0x80 && ((0x80 <= c && c
            <= 0x8A) || c == 0xA8 || c == 0xA9 || c == 0xAF)) || (a == 0xE2 && b == 0x81 && c
            == 0x9F) || (a == 0xE3 && b == 0x80 && c == 0x80) {
            return 3;
        }
    }
    0
}

/// Whether `l` is the header line, up to trailing whitespace.
fn header_line(l: &Vec<u8>, hdr: &Vec<u8>) -> (r: bool)
    requires
        hdr@ == header(),
    ensures
        r == is_header_line(l@),
{
    let mut end: usize = l.len();
    proof {
        assert(l@.subrange(0, end as int) == l@);
    }
    let mut trimmed = false;
    while !trimmed
        invariant
            end <= l@.len(),
            trim_end(l@.subrange(0, end as int)) == trim_end(l@),
            trimmed ==> trim_end(l@.subrange(0, end as int)) == l@.subrange(0, end as int),
        decreases end + (if trimmed { 0int } else { 1int }),
    {
        let k = space_suffix(l, end);
        if k == 0 {
            trimmed = true;
        } else {
            proof {
                let s = l@.subrange(0, end as int);
                assert(s.subrange(0, s.len() - k) == l@.subrange(0, end - k));
            }
            end = end - k;
        }
    }
    let ghost t = l@.subrange(0, end as int);
    assert(trim_end(l@) == t);
    if end != hdr.len() {
        return false;
    }
    let mut j: usize = 0;
    while j < end
        invariant
            end == hdr@.len() <= l@.len(),
            t == l@.subrange(0, end as int),
            trim_end(l@) == t,
            hdr@ == header(),
            j <= end,
            forall|m: int| 0 <= m < j ==> l@[m] == hdr@[m],
        decreases end - j,
    {
        if l[j] != hdr[j] {
            assert(t[j as int] != hdr@[j as int]);
            assert(t != header());
            return false;
        }
        j = j + 1;
    }
    assert(t =~= hdr@);
    true
}

fn header_bytes() -> (r: Vec<u8>)
    ensures
        r@ == header(),
{
    let r = vec![
        100u8, 101u8, 102u8, 32u8, 103u8, 101u8, 116u8, 95u8, 118u8, 101u8, 114u8, 115u8,
        105u8, 111u8, 110u8, 40u8, 41u8, 58u8,
    ];
    proof {
        assert(r@ =~= header());
    }
    r
}

fn return_line_bytes(version: &[u8]) -> (r: Vec<u8>)
    ensures
        r@ == return_line(version@),
{
    let mut r = vec![32u8, 32u8, 32u8, 32u8, 114u8, 101u8, 116u8, 117u8, 114u8, 110u8, 32u8, 39u8];
    let ghost lead = r@;
    let mut j: usize = 0;
    while j < version.len()
        invariant
            j <= version@.len(),
            r@ == lead + version@.subrange(0, j as int),
        decreases version@.len() - j,
    {
        r.push(version[j]);
        j = j + 1;
    }
    r.push(QUOTE);
    proof {
        assert(version@.subrange(0, version@.len() as int) == version@);
        assert(r@ =~= return_line(version@));
    }
    r
}

/// Rewrites the version accessor of a build script so that it returns `version`.
/// Returns the new content, or `None` where the file is left as it is.
pub fn patch_get_version_function(content: &[u8], version: &str) -> (r: Option<Vec<u8>>)
    ensures
        match r {
            Some(v) => version_rewrite(content@, version.spec_bytes()) == Some(v@),
            None => version_rewrite(content@, version.spec_bytes()) is None,
        },
{
    let ls = split_lines(content);
    let hdr = header_bytes();
    let mut i: usize = 0;
    let mut found = false;
    while i < ls.len() && !found
        invariant
            hdr@ == header(),
            views(ls@) == lines(content@),
            i <= ls@.len(),
            first_header(views(ls@), 0) == if found {
                Some(i as int)
            } else {
                first_header(views(ls@), i as int)
            },
            found ==> i < ls@.len(),
        decreases ls@.len() - i + (if found { 0int } else { 1int }),
    {
        if header_line(&ls[i], &hdr) {
            found = true;
        } else {
            i = i + 1;
        }
    }
    if !found {
        return None;
    }
    if ls.len() < 4 || i > ls.len() - 4 {
        return None;
    }
    let mut out: Vec<Vec<u8>> = Vec::new();
    let mut k: usize = 0;
    while k < i
        invariant
            i + 4 <= ls@.len(),
            k <= i,
            views(out@) == views(ls@).subrange(0, k as int),
        decreases i - k,
    {
        let line = ls[k].clone();
        proof {
            assert(line@ =~= ls@[k as int]@);
            assert(views(ls@)[k as int] == ls@[k as int]@);
            assert(views(out@.push(line)) =~= views(out@).push(line@));
            assert(views(out@.push(line)) =~= views(ls@).subrange(0, k + 1));
        }
        out.push(line);
        k = k + 1;
    }
    let ret = return_line_bytes(version.as_bytes());
    proof {
        assert(views(out@.push(hdr)) =~= views(out@).push(header()));
    }
    out.push(hdr);
    proof {
        assert(views(out@.push(ret)) =~= views(out@).push(ret@));
    }
    out.push(ret);
    let mut k: usize = i + 4;
    while k < ls.len()
        invariant
            i + 4 <= k <= ls@.len(),
            views(out@) == views(ls@).subrange(0, i as int) + seq![
                header(),
                return_line(version.spec_bytes()),
            ] + views(ls@).subrange(i + 4, k as int),
        decreases ls@.len() - k,
    {
        let line = ls[k].clone();
        proof {
            assert(line@ =~= ls@[k as int]@);
            assert(views(out@.push(line)) =~= views(out@).push(line@));
        }
        out.push(line);
        k = k + 1;
    }
    proof {
        assert(views(out@) =~= rewritten_lines(views(ls@), i as int, version.spec_bytes()));
    }
    Some(join(&out))
}

} // verus!

verus! {

proof fn lemma_first_header_at(ls: Seq<Seq<u8>>, i: int, h: int)
    requires
        0 <= i <= h < ls.len(),
        is_header_line(ls[h]),
        forall|j: int| 0 <= j < h ==> !is_header_line(#[trigger] ls[j]),
    ensures
        first_header(ls, i) == Some(h),
    decreases h - i,
{
    if i < h {
        lemma_first_header_at(ls, i + 1, h);
    }
}

/// A file whose lines are `before`, a four-line accessor that starts with the
/// header, and `after`, where `before` holds no header: the accessor becomes the
/// header and one line that returns the version quoted, and the other lines stay.
pub proof fn lemma_version_rewrite_shape(
    content: Seq<u8>,
    before: Seq<Seq<u8>>,
    accessor: Seq<Seq<u8>>,
    after: Seq<Seq<u8>>,
    version: Seq<u8>,
)
    requires
        lines(content) == before + accessor + after,
        accessor.len() == 4,
        is_header_line(accessor[0]),
        forall|j: int| 0 <= j < before.len() ==> !is_header_line(#[trigger] before[j]),
    ensures
        version_rewrite(content, version) == Some(
            join_lines(before + seq![header(), return_line(version)] + after),
        ),
{
    let ls = lines(content);
    let h = before.len() as int;
    assert(ls[h] == accessor[0]);
    assert forall|j: int| 0 <= j < h implies !is_header_line(#[trigger] ls[j]) by {
        assert(ls[j] == before[j]);
    }
    lemma_first_header_at(ls, 0, h);
    assert(ls.subrange(0, h) =~= before);
    assert(ls.subrange(h + 4, ls.len() as int) =~= after);
}

} // verus!

verus! {

/// Under the same conditions, read back line by line, the rewritten file has two
/// lines fewer: the accessor's four lines became the header and the return of the
/// version. (Lines written with `\r\n` are read back without the `\r`.)
pub proof fn lemma_version_rewrite_lines(
    content: Seq<u8>,
    before: Seq<Seq<u8>>,
    accessor: Seq<Seq<u8>>,
    after: Seq<Seq<u8>>,
    version: Seq<u8>,
)
    requires
        lines(content) == before + accessor + after,
        accessor.len() == 4,
        is_header_line(accessor[0]),
        forall|j: int| 0 <= j < before.len() ==> !is_header_line(#[trigger] before[j]),
        no_lf(version),
    ensures
        version_rewrite(content, version) matches Some(r) && lines(r) == (before + seq![
            header(),
            return_line(version),
        ] + after).map_values(|l: Seq<u8>| strip_cr(l)) && lines(r).len() + 2 == lines(
            content,
        ).len(),
{
    lemma_version_rewrite_shape(content, before, accessor, after, version);
    let ls = before + seq![header(), return_line(version)] + after;
    lemma_lines_no_lf(content, 0, 0);
    assert forall|i: int| 0 <= i < ls.len() implies no_lf(#[trigger] ls[i]) by {
        if i < before.len() {
            assert(ls[i] == lines(content)[i]);
        } else if i == before.len() {
            assert(no_lf(header()));
        } else if i == before.len() + 1 {
            assert(return_line(version)[return_line(version).len() - 1] == QUOTE);
            assert forall|j: int| 0 <= j < return_line(version).len() implies return_line(
                version,
            )[j] != LF by {
                if 12 <= j < 12 + version.len() {
                    assert(return_line(version)[j] == version[j - 12]);
                }
            }
        } else {
            assert(ls[i] == lines(content)[i + 2]);
        }
    }
    lemma_lines_of_join(ls);
}

} // verus!
