use vstd::prelude::*;

use crate::lines::{
    copy_range, join, join_lines, lemma_lines_no_lf, lemma_lines_of_join, lines, no_lf, split_lines,
    strip_cr, views, CR, LF,
};
use crate::search::{
    agree_below, contains, find, find_byte, find_byte_from, find_from, lemma_find_byte_from,
    lemma_find_byte_from_agree, lemma_find_byte_from_is, lemma_find_from, lemma_find_from_agree,
    lemma_find_from_is, matches_at,
};

verus! {

/// Byte value of `)`.
pub const CLOSE_PAREN: u8 = 41;

/// The callee name of the deserialization call, with its opening parenthesis.
#[verifier::opaque]
pub open spec fn call_open() -> Seq<u8> {
    seq![116u8, 111u8, 114u8, 99u8, 104u8, 46u8, 108u8, 111u8, 97u8, 100u8, 40u8]
}

/// The keyword-argument marker that a patched call carries.
#[verifier::opaque]
pub open spec fn weights_marker() -> Seq<u8> {
    seq![119u8, 101u8, 105u8, 103u8, 104u8, 116u8, 115u8, 95u8, 111u8, 110u8, 108u8, 121u8, 61u8]
}

/// The text inserted before the closing parenthesis of an unpatched call.
#[verifier::opaque]
pub open spec fn injected() -> Seq<u8> {
    seq![44u8, 32u8] + weights_marker() + seq![70u8, 97u8, 108u8, 115u8, 101u8]
}

/// The sizes of the fixed texts, and that the inserted text is a comma, a space,
/// the marker and `False`.
pub proof fn lemma_fixed_texts()
    ensures
        call_open().len() == 11,
        call_open()[10] == 40,
        weights_marker().len() == 13,
        injected().len() == 20,
        injected() == seq![44u8, 32u8] + weights_marker() + seq![70u8, 97u8, 108u8, 115u8, 101u8],
        forall|j: int| 0 <= j < injected().len() ==> injected()[j] != CLOSE_PAREN,
{
    reveal(call_open);
    reveal(weights_marker);
    reveal(injected);
    assert forall|j: int| 0 <= j < injected().len() implies injected()[j] != CLOSE_PAREN by {
        if 2 <= j < 15 {
            assert(injected()[j] == weights_marker()[j - 2]);
        }
    }
}

/// `l` with `injected()` placed at position `at`.
pub open spec fn insert_at(l: Seq<u8>, at: int) -> Seq<u8> {
    l.subrange(0, at) + injected() + l.subrange(at, l.len() as int)
}

/// The line `l` after patching every call found from position `from` on, and whether
/// anything was inserted. The arguments of a call run from its `(` to the first `)`
/// after it; a call whose arguments hold the marker is left as it is.
pub open spec fn inject_from(l: Seq<u8>, from: int) -> (Seq<u8>, bool)
    decreases l.len() - from,
{
    if from < 0 {
        (l, false)
    } else {
        match find_from(l, call_open(), from) {
            None => (l, false),
            Some(start) => match find_byte_from(l, CLOSE_PAREN, start + 11) {
                None => (l, false),
                Some(close) => {
                    proof {
                        lemma_fixed_texts();
                        lemma_find_from(l, call_open(), from);
                        lemma_find_byte_from(l, CLOSE_PAREN, start + 11);
                    }
                    if contains(l.subrange(start + 11, close), weights_marker()) {
                        inject_from(l, close + 1)
                    } else {
                        (inject_from(insert_at(l, close), close + 21).0, true)
                    }
                },
            },
        }
    }
}

/// A line with every call to the deserialization function given the marker argument.
pub open spec fn inject_line(l: Seq<u8>) -> (Seq<u8>, bool) {
    inject_from(l, 0)
}

/// The patched file, or `None` where no line needed an insertion.
pub open spec fn torch_load_patch(content: Seq<u8>) -> Option<Seq<u8>> {
    let ps = lines(content).map_values(|l: Seq<u8>| inject_line(l));
    if exists|i: int| 0 <= i < ps.len() && #[trigger] ps[i].1 {
        Some(join_lines(ps.map_values(|p: (Seq<u8>, bool)| p.0)))
    } else {
        None
    }
}

/// The callee name with its opening parenthesis, as bytes.
fn call_open_bytes() -> (r: Vec<u8>)
    ensures
        r@ == call_open(),
{
    let r = vec![116u8, 111u8, 114u8, 99u8, 104u8, 46u8, 108u8, 111u8, 97u8, 100u8, 40u8];
    proof {
        reveal(call_open);
        assert(r@ =~= call_open());
    }
    r
}

/// The keyword-argument marker, as bytes.
fn weights_marker_bytes() -> (r: Vec<u8>)
    ensures
        r@ == weights_marker(),
{
    let r = vec![119u8, 101u8, 105u8, 103u8, 104u8, 116u8, 115u8, 95u8, 111u8, 110u8, 108u8, 121u8, 61u8];
    proof {
        reveal(weights_marker);
        assert(r@ =~= weights_marker());
    }
    r
}

/// The inserted keyword argument, as bytes.
fn injected_bytes() -> (r: Vec<u8>)
    ensures
        r@ == injected(),
{
    let r = vec![
        44u8,
        32u8,
        119u8,
        101u8,
        105u8,
        103u8,
        104u8,
        116u8,
        115u8,
        95u8,
        111u8,
        110u8,
        108u8,
        121u8,
        61u8,
        70u8,
        97u8,
        108u8,
        115u8,
        101u8,
    ];
    proof {
        reveal(injected);
        reveal(weights_marker);
        assert(r@ =~= injected());
    }
    r
}

/// `v` with `ins` placed at position `at`.
fn splice_in(v: &Vec<u8>, at: usize, ins: &Vec<u8>) -> (r: Vec<u8>)
    requires
        at <= v@.len(),
        v@.len() + ins@.len() <= usize::MAX,
    ensures
        r@ == v@.subrange(0, at as int) + ins@ + v@.subrange(at as int, v@.len() as int),
{
    let mut r: Vec<u8> = Vec::new();
    let mut k: usize = 0;
    while k < at
        invariant
            at <= v@.len(),
            k <= at,
            r@ == v@.subrange(0, k as int),
        decreases at - k,
    {
        r.push(v[k]);
        k = k + 1;
    }
    let mut j: usize = 0;
    while j < ins.len()
        invariant
            j <= ins@.len(),
            r@ == v@.subrange(0, at as int) + ins@.subrange(0, j as int),
        decreases ins@.len() - j,
    {
        r.push(ins[j]);
        j = j + 1;
    }
    let mut k: usize = at;
    while k < v.len()
        invariant
            at <= k <= v@.len(),
            r@ == v@.subrange(0, at as int) + ins@ + v@.subrange(at as int, k as int),
        decreases v@.len() - k,
    {
        r.push(v[k]);
        k = k + 1;
    }
    proof {
        assert(ins@.subrange(0, ins@.len() as int) == ins@);
    }
    r
}

/// Gives every call to the deserialization function on `line` the marker argument,
/// and tells whether anything was inserted.
pub fn inject_weights_only(line: &Vec<u8>) -> (r: (Vec<u8>, bool))
    requires
        line@.len() <= usize::MAX / 32,
    ensures
        (r.0@, r.1) == inject_line(line@),
{
    let call = call_open_bytes();
    let marker = weights_marker_bytes();
    let ins = injected_bytes();
    let mut current: Vec<u8> = line.clone();
    proof {
        assert(current@ =~= line@);
    }
    let mut from: usize = 0;
    let mut replaced = false;
    let mut done = false;
    while !done
        invariant
            call@ == call_open(),
            marker@ == weights_marker(),
            ins@ == injected(),
            line@.len() <= usize::MAX / 32,
            from <= current@.len(),
            12 * current@.len() + 20 * (current@.len() - from) <= 32 * line@.len(),
            inject_line(line@) == (
                inject_from(current@, from as int).0,
                inject_from(current@, from as int).1 || replaced,
            ),
            done ==> inject_from(current@, from as int) == (current@, false),
        decreases current@.len() - from + (if done { 0int } else { 1int }),
    {
        proof {
            lemma_fixed_texts();
        }
        match find(current.as_slice(), call.as_slice(), from) {
            None => {
                done = true;
            },
            Some(start) => {
                proof {
                    lemma_find_from(current@, call_open(), from as int);
                }
                let open = start + 10;
                match find_byte(current.as_slice(), CLOSE_PAREN, open + 1) {
                    None => {
                        done = true;
                    },
                    Some(close) => {
                        proof {
                            lemma_find_byte_from(current@, CLOSE_PAREN, open + 1);
                        }
                        let args = copy_range(current.as_slice(), open + 1, close);
                        if find(args.as_slice(), marker.as_slice(), 0).is_some() {
                            proof {
                                lemma_find_from(args@, weights_marker(), 0);
                            }
                            from = close + 1;
                        } else {
                            proof {
                                lemma_find_from(args@, weights_marker(), 0);
                            }
                            current = splice_in(&current, close, &ins);
                            replaced = true;
                            from = close + 21;
                        }
                    },
                }
            },
        }
    }
    (current, replaced)
}

/// Gives every call to the deserialization function in a file the marker argument.
/// Returns the new content, or `None` where the file needs no change.
pub fn patch_torch_load_single_line(content: &[u8]) -> (r: Option<Vec<u8>>)
    requires
        content@.len() <= usize::MAX / 32,
    ensures
        match r {
            Some(v) => torch_load_patch(content@) == Some(v@),
            None => torch_load_patch(content@) is None,
        },
{
    let ls = split_lines(content);
    let ghost ps = lines(content@).map_values(|l: Seq<u8>| inject_line(l));
    let mut patched: Vec<Vec<u8>> = Vec::new();
    let mut replaced_any = false;
    let mut k: usize = 0;
    while k < ls.len()
        invariant
            views(ls@) == lines(content@),
            forall|i: int| 0 <= i < ls@.len() ==> ls@[i]@.len() <= content@.len(),
            content@.len() <= usize::MAX / 32,
            ps == lines(content@).map_values(|l: Seq<u8>| inject_line(l)),
            k <= ls@.len(),
            patched@.len() == k,
            forall|i: int| 0 <= i < k ==> patched@[i]@ == #[trigger] ps[i].0,
            replaced_any <==> exists|i: int| 0 <= i < k && #[trigger] ps[i].1,
        decreases ls@.len() - k,
    {
        assert(ls@[k as int]@ == lines(content@)[k as int]);
        let (line, any) = inject_weights_only(&ls[k]);
        proof {
            assert(ps[k as int] == (line@, any));
            if any {
                assert(0 <= k < k + 1 && ps[k as int].1);
            } else if replaced_any {
                let i = choose|i: int| 0 <= i < k && #[trigger] ps[i].1;
                assert(0 <= i < k + 1 && ps[i].1);
            } else {
                assert forall|i: int| 0 <= i < k + 1 implies !#[trigger] ps[i].1 by {
                    if i < k {
                    }
                }
            }
        }
        patched.push(line);
        if any {
            replaced_any = true;
        }
        k = k + 1;
    }
    if !replaced_any {
        return None;
    }
    proof {
        assert(views(patched@) =~= ps.map_values(|p: (Seq<u8>, bool)| p.0));
    }
    Some(join(&patched))
}

} // verus!

verus! {

/// The inserted text holds no `)`, and arguments followed by it hold the marker.
proof fn lemma_injected_facts(l: Seq<u8>, a: int, close: int)
    requires
        0 <= a <= close <= l.len(),
    ensures
        forall|j: int| 0 <= j < injected().len() ==> injected()[j] != CLOSE_PAREN,
        contains(l.subrange(a, close) + injected(), weights_marker()),
{
    lemma_fixed_texts();
    let args = l.subrange(a, close) + injected();
    let m = close - a + 2;
    assert(args.subrange(m, m + weights_marker().len()) =~= weights_marker());
    assert(matches_at(args, weights_marker(), m));
}

/// Patching from `from` on keeps the bytes before `from` and never shortens the line.
proof fn lemma_inject_keeps_prefix(l: Seq<u8>, from: int)
    requires
        0 <= from <= l.len(),
    ensures
        agree_below(l, inject_from(l, from).0, from),
        inject_from(l, from).0.len() >= l.len(),
    decreases l.len() - from,
{
    lemma_fixed_texts();
    lemma_find_from(l, call_open(), from);
    if let Some(start) = find_from(l, call_open(), from) {
        lemma_find_byte_from(l, CLOSE_PAREN, start + 11);
        if let Some(close) = find_byte_from(l, CLOSE_PAREN, start + 11) {
            if contains(l.subrange(start + 11, close), weights_marker()) {
                lemma_inject_keeps_prefix(l, close + 1);
            } else {
                let l2 = insert_at(l, close);
                lemma_inject_keeps_prefix(l2, close + 21);
            }
        }
    }
}

/// Patching a line a second time, from the same place, inserts nothing and changes
/// nothing.
pub proof fn lemma_inject_from_idempotent(l: Seq<u8>, from: int)
    requires
        0 <= from,
    ensures
        inject_from(inject_from(l, from).0, from) == (inject_from(l, from).0, false),
    decreases l.len() - from,
{
    lemma_fixed_texts();
    let r = inject_from(l, from).0;
    lemma_find_from(l, call_open(), from);
    if let Some(start) = find_from(l, call_open(), from) {
        lemma_find_byte_from(l, CLOSE_PAREN, start + 11);
        if let Some(close) = find_byte_from(l, CLOSE_PAREN, start + 11) {
            if contains(l.subrange(start + 11, close), weights_marker()) {
                lemma_inject_keeps_prefix(l, close + 1);
                lemma_find_from_agree(l, r, call_open(), from, close + 1);
                lemma_find_byte_from_agree(l, r, CLOSE_PAREN, start + 11, close + 1);
                assert(r.subrange(start + 11, close) =~= l.subrange(start + 11, close));
                lemma_inject_from_idempotent(l, close + 1);
            } else {
                let l2 = insert_at(l, close);
                lemma_inject_keeps_prefix(l2, close + 21);
                lemma_injected_facts(l, start + 11, close);
                assert(agree_below(l, l2, close));
                lemma_find_from_agree(l, l2, call_open(), from, close);
                lemma_find_from_agree(l2, r, call_open(), from, close + 21);
                lemma_find_byte_from_is(l2, CLOSE_PAREN, start + 11, Some(close + 20));
                lemma_find_byte_from_agree(l2, r, CLOSE_PAREN, start + 11, close + 21);
                assert(r.subrange(start + 11, close + 20) =~= l.subrange(start + 11, close)
                    + injected());
                lemma_inject_from_idempotent(l2, close + 21);
            }
        }
    }
}

/// Patching a line twice gives what patching it once gives, and the second pass
/// inserts nothing.
pub proof fn lemma_inject_idempotent(l: Seq<u8>)
    ensures
        inject_line(inject_line(l).0) == (inject_line(l).0, false),
{
    lemma_inject_from_idempotent(l, 0);
}

/// A line with one unpatched call, whose arguments hold no `)` and no marker, and
/// no other call: the marker argument is inserted right before the call's `)`, and
/// nothing else changes.
pub proof fn lemma_single_call_patched(pre: Seq<u8>, arg: Seq<u8>, post: Seq<u8>)
    requires
        forall|j: int| 0 <= j < pre.len() ==> !matches_at(pre + call_open(), call_open(), j),
        forall|j: int| 0 <= j < arg.len() ==> arg[j] != CLOSE_PAREN,
        !contains(arg, weights_marker()),
        !contains(post, call_open()),
    ensures
        inject_line(pre + call_open() + arg + seq![CLOSE_PAREN] + post) == (pre + call_open()
            + arg + injected() + seq![CLOSE_PAREN] + post, true),
{
    lemma_fixed_texts();
    let l = pre + call_open() + arg + seq![CLOSE_PAREN] + post;
    let start = pre.len() as int;
    let close = start + 11 + arg.len();
    assert forall|j: int| 0 <= j < start implies !matches_at(l, call_open(), j) by {
        assert(!matches_at(pre + call_open(), call_open(), j));
        assert(l.subrange(j, j + 11) =~= (pre + call_open()).subrange(j, j + 11));
    }
    assert(l.subrange(start, start + 11) =~= call_open());
    lemma_find_from_is(l, call_open(), 0, Some(start));
    assert forall|j: int| start + 11 <= j < close implies l[j] != CLOSE_PAREN by {
        assert(l[j] == arg[j - start - 11]);
    }
    lemma_find_byte_from_is(l, CLOSE_PAREN, start + 11, Some(close));
    assert(l.subrange(start + 11, close) =~= arg);
    let l2 = insert_at(l, close);
    assert(l2 =~= pre + call_open() + arg + injected() + seq![CLOSE_PAREN] + post);
    let tail = close + 21;
    assert forall|j: int| tail <= j implies !matches_at(l2, call_open(), j) by {
        if matches_at(l2, call_open(), j) {
            assert(l2.subrange(j, j + 11) =~= post.subrange(j - tail, j - tail + 11));
            assert(matches_at(post, call_open(), j - tail));
        }
    }
    lemma_find_from_is(l2, call_open(), tail, None);
    assert(inject_from(l2, tail) == (l2, false));
    assert(!contains(l.subrange(start + 11, close), weights_marker()));
    assert(inject_from(l, 0) == (inject_from(l2, tail).0, true));
}

} // verus!

verus! {

/// Patching a line that holds no line feed gives a line that holds none.
proof fn lemma_inject_no_lf(l: Seq<u8>, from: int)
    requires
        0 <= from,
        no_lf(l),
    ensures
        no_lf(inject_from(l, from).0),
    decreases l.len() - from,
{
    lemma_fixed_texts();
    reveal(injected);
    reveal(weights_marker);
    lemma_find_from(l, call_open(), from);
    if let Some(start) = find_from(l, call_open(), from) {
        lemma_find_byte_from(l, CLOSE_PAREN, start + 11);
        if let Some(close) = find_byte_from(l, CLOSE_PAREN, start + 11) {
            if contains(l.subrange(start + 11, close), weights_marker()) {
                lemma_inject_no_lf(l, close + 1);
            } else {
                let l2 = insert_at(l, close);
                assert(no_lf(l2)) by {
                    assert forall|j: int| 0 <= j < l2.len() implies l2[j] != LF by {
                        if close <= j < close + 20 {
                            assert(l2[j] == injected()[j - close]);
                        }
                    }
                }
                lemma_inject_no_lf(l2, close + 21);
            }
        }
    }
}

/// Where patching `t` inserts something, patching `t` with more text after it does too.
proof fn lemma_inject_any_extends(t: Seq<u8>, x: Seq<u8>, from: int)
    requires
        0 <= from,
        inject_from(t, from).1,
    ensures
        inject_from(t + x, from).1,
    decreases t.len() - from,
{
    lemma_fixed_texts();
    let u = t + x;
    assert(agree_below(t, u, t.len() as int));
    lemma_find_from(t, call_open(), from);
    let start = find_from(t, call_open(), from)->0;
    lemma_find_from_agree(t, u, call_open(), from, t.len() as int);
    lemma_find_byte_from(t, CLOSE_PAREN, start + 11);
    let close = find_byte_from(t, CLOSE_PAREN, start + 11)->0;
    lemma_find_byte_from_agree(t, u, CLOSE_PAREN, start + 11, t.len() as int);
    assert(u.subrange(start + 11, close) =~= t.subrange(start + 11, close));
    if contains(t.subrange(start + 11, close), weights_marker()) {
        lemma_inject_any_extends(t, x, close + 1);
    }
}

/// Patching a file a second time leaves it as it is: where the first pass rewrote
/// it, the second finds nothing to insert.
pub proof fn lemma_torch_load_patch_idempotent(content: Seq<u8>)
    ensures
        torch_load_patch(content) matches Some(c2) ==> torch_load_patch(c2) is None,
{
    let ls = lines(content);
    let ps = ls.map_values(|l: Seq<u8>| inject_line(l));
    let rs = ps.map_values(|p: (Seq<u8>, bool)| p.0);
    if let Some(c2) = torch_load_patch(content) {
        lemma_lines_no_lf(content, 0, 0);
        assert forall|i: int| 0 <= i < rs.len() implies no_lf(#[trigger] rs[i]) by {
            assert(no_lf(ls[i]));
            lemma_inject_no_lf(ls[i], 0);
        }
        lemma_lines_of_join(rs);
        let ls2 = lines(c2);
        assert(ls2 == rs.map_values(|l: Seq<u8>| strip_cr(l)));
        let ps2 = ls2.map_values(|l: Seq<u8>| inject_line(l));
        assert forall|i: int| 0 <= i < ps2.len() implies !(#[trigger] ps2[i]).1 by {
            let r = rs[i];
            lemma_inject_idempotent(ls[i]);
            assert(inject_line(r).1 == false);
            if r.len() > 0 && r.last() == CR {
                let t = r.drop_last();
                assert(t + seq![CR] =~= r);
                if inject_line(t).1 {
                    lemma_inject_any_extends(t, seq![CR], 0);
                }
            }
            assert(ps2[i] == inject_line(strip_cr(r)));
        }
    }
}

} // verus!
