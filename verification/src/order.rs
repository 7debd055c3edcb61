//! Ordering paths so that the longest come first: a path inside a directory is
//! then renamed before the directory itself.

use vstd::prelude::*;
use vstd::utf8::encode_utf8;
use crate::paths::texts;

verus! {

/// The length of a text in bytes, as `str::len` counts it.
pub open spec fn byte_len(s: Seq<char>) -> nat {
    encode_utf8(s).len()
}

/// No text is longer, in bytes, than one before it.
pub open spec fn longest_first(s: Seq<Seq<char>>) -> bool {
    forall|i: int, j: int| 0 <= i < j < s.len() ==> byte_len(s[j]) <= byte_len(s[i])
}

/// `order[k]` is the position in `input` of `output[k]`: `order` is a one-to-one
/// choice of input positions, and texts of equal length keep their input order.
pub open spec fn is_stable_order(
    input: Seq<Seq<char>>,
    output: Seq<Seq<char>>,
    order: Seq<int>,
) -> bool {
    &&& order.len() == input.len()
    &&& output.len() == input.len()
    &&& forall|k: int| 0 <= k < order.len() ==> 0 <= #[trigger] order[k] < input.len()
    &&& forall|k: int| 0 <= k < order.len() ==> output[k] == input[#[trigger] order[k]]
    &&& forall|k: int, l: int| 0 <= k < l < order.len() ==> order[k] != order[l]
    &&& forall|j: int| 0 <= j < input.len() ==> #[trigger] order.contains(j)
    &&& forall|k: int, l: int|
        0 <= k < l < order.len() && byte_len(output[k]) == byte_len(output[l]) ==> order[k]
            < order[l]
}

/// `output` is `input` sorted by decreasing byte length, stably.
pub open spec fn is_stable_sort_by_len(input: Seq<Seq<char>>, output: Seq<Seq<char>>) -> bool {
    &&& longest_first(output)
    &&& exists|order: Seq<int>| is_stable_order(input, output, order)
}

/// Sorts the paths by decreasing length in bytes, keeping the input order among
/// paths of equal length (as the stable `sort_by` does).
pub fn sort_longest_first(paths: &mut Vec<String>)
    ensures
        is_stable_sort_by_len(texts(old(paths)@), texts(final(paths)@)),
{
    let n = paths.len();
    let ghost input = texts(paths@);
    let mut lens: Vec<usize> = Vec::new();
    for j in 0..n
        invariant
            n == paths.len(),
            input == texts(paths@),
            lens.len() == j,
            forall|q: int| 0 <= q < j ==> lens[q] == byte_len(#[trigger] input[q]),
    {
        let l = paths[j].as_str().as_bytes().len();
        assert(input[j as int] == paths@[j as int]@);
        lens.push(l);
    }
    let mut order: Vec<usize> = Vec::new();
    for i in 0..n
        invariant
            lens.len() == n,
            order.len() == i,
            forall|k: int| 0 <= k < order.len() ==> #[trigger] order[k] < i,
            forall|k: int, l: int| 0 <= k < l < order.len() ==> order[k] != order[l],
            forall|j: usize| j < i ==> #[trigger] order@.contains(j),
            forall|k: int, l: int|
                0 <= k < l < order.len() ==> lens[order[l] as int] <= lens[order[k] as int],
            forall|k: int, l: int|
                0 <= k < l < order.len() && lens[order[k] as int] == lens[order[l] as int]
                    ==> order[k] < order[l],
    {
        let mut p = order.len();
        while p > 0 && lens[order[p - 1]] < lens[i]
            invariant
                lens.len() == n,
                i < n,
                p <= order.len(),
                order.len() == i,
                forall|k: int| 0 <= k < order.len() ==> #[trigger] order[k] < i,
                forall|q: int| p <= q < order.len() ==> lens[order[q] as int] < lens[i as int],
            decreases p,
        {
            p = p - 1;
        }
        let ghost before = order@;
        order.insert(p, i);
        assert forall|j: usize| j < i + 1 implies #[trigger] order@.contains(j) by {
            if j < i {
                assert(before.contains(j));
                let w = choose|w: int| 0 <= w < before.len() && before[w] == j;
                if w < p {
                    assert(order@[w] == j);
                } else {
                    assert(order@[w + 1] == j);
                }
            } else {
                assert(order@[p as int] == i);
            }
        }
        assert forall|k: int, l: int| 0 <= k < l < order.len() implies lens[order[l] as int]
            <= lens[order[k] as int] by {
            if k < p && l == p {
                assert(lens[before[k] as int] >= lens[before[p - 1] as int]);
            }
        }
    }
    let mut out: Vec<String> = Vec::new();
    for k in 0..n
        invariant
            n == paths.len(),
            input == texts(paths@),
            order.len() == n,
            forall|q: int| 0 <= q < n ==> #[trigger] order[q] < n,
            forall|j: usize| j < n ==> #[trigger] order@.contains(j),
            out.len() == k,
            forall|q: int| 0 <= q < k ==> (#[trigger] out[q])@ == input[order[q] as int],
    {
        let s = paths[order[k]].clone();
        out.push(s);
    }
    let ghost ord = order@.map_values(|x: usize| x as int);
    assert forall|j: int| 0 <= j < input.len() implies #[trigger] ord.contains(j) by {
        assert(order@.contains(j as usize));
        let w = choose|w: int| 0 <= w < order@.len() && order@[w] == j as usize;
        assert(ord[w] == j);
    }
    assert(is_stable_order(input, texts(out@), ord));
    *paths = out;
}

/// The encoding of a concatenation is the concatenation of the encodings.
proof fn lemma_encode_concat(a: Seq<char>, b: Seq<char>)
    ensures
        encode_utf8(a + b) == encode_utf8(a) + encode_utf8(b),
    decreases a.len(),
{
    if a.len() > 0 {
        lemma_encode_concat(a.drop_first(), b);
        assert((a + b).drop_first() =~= a.drop_first() + b);
        assert(encode_utf8(a + b) =~= encode_utf8(a) + encode_utf8(b));
    } else {
        assert(a + b =~= b);
    }
}

/// A text that is not empty takes at least one byte.
proof fn lemma_encode_nonempty(s: Seq<char>)
    requires
        s.len() > 0,
    ensures
        byte_len(s) > 0,
{
    let c = s[0] as u32;
    assert(vstd::utf8::encode_scalar(c).len() > 0);
}

/// In a list sorted longest first, a path that lies below another one (the other
/// is a proper prefix of it) comes before it: what a directory holds is renamed
/// before the directory.
pub proof fn lemma_inner_paths_first(input: Seq<Seq<char>>, output: Seq<Seq<char>>, i: int, j: int)
    requires
        is_stable_sort_by_len(input, output),
        0 <= i < output.len(),
        0 <= j < output.len(),
        output[i].len() < output[j].len(),
        output[j].take(output[i].len() as int) == output[i],
    ensures
        j < i,
{
    let outer = output[i];
    let inner = output[j];
    let rest = inner.skip(outer.len() as int);
    assert(inner =~= outer + rest);
    lemma_encode_concat(outer, rest);
    lemma_encode_nonempty(rest);
    assert(byte_len(inner) > byte_len(outer));
}

/// A stable sort by length keeps exactly the texts it was given.
pub proof fn lemma_sort_keeps_texts(input: Seq<Seq<char>>, output: Seq<Seq<char>>)
    requires
        is_stable_sort_by_len(input, output),
    ensures
        forall|x: Seq<char>| input.contains(x) <==> output.contains(x),
{
    let order = choose|order: Seq<int>| is_stable_order(input, output, order);
    assert forall|x: Seq<char>| input.contains(x) <==> output.contains(x) by {
        if input.contains(x) {
            let j = choose|j: int| 0 <= j < input.len() && input[j] == x;
            assert(order.contains(j));
            let k = choose|k: int| 0 <= k < order.len() && order[k] == j;
            assert(output[k] == x);
        }
        if output.contains(x) {
            let k = choose|k: int| 0 <= k < output.len() && output[k] == x;
            assert(input[order[k]] == x);
        }
    }
}

} // verus!
