//! Mixing of simultaneously triggered notes.
//!
//! Each decoded note is a finite sequence of PCM samples, every sample in
//! `[-SAMPLE_AMPLITUDE_LIMIT, SAMPLE_AMPLITUDE_LIMIT]`.  Mixing sums the
//! sequences sample by sample and truncates the result to the shortest
//! contributing sequence: excess tail samples of longer sequences are
//! discarded by design, not by accident.

use vstd::prelude::*;

verus! {

use vstd::multiset::Multiset;

/// The largest amplitude a decoded sample can carry: decoded audio is
/// normalised 16-bit PCM.
pub const SAMPLE_AMPLITUDE_LIMIT: i64 = 32767;

/// Every sample of `s` lies within `[-SAMPLE_AMPLITUDE_LIMIT, SAMPLE_AMPLITUDE_LIMIT]`.
pub open spec fn frames_bounded(s: Seq<i64>) -> bool {
    forall|i: int|
        0 <= i < s.len() ==> -SAMPLE_AMPLITUDE_LIMIT <= #[trigger] s[i] <= SAMPLE_AMPLITUDE_LIMIT
}

/// Every sequence of `arrays` satisfies [`frames_bounded`].
pub open spec fn all_frames_bounded(arrays: Seq<Seq<i64>>) -> bool {
    forall|j: int| 0 <= j < arrays.len() ==> frames_bounded(#[trigger] arrays[j])
}

/// The sum of all sequences' samples at index `i`.
pub open spec fn sum_at(arrays: Seq<Seq<i64>>, i: int) -> int
    decreases arrays.len(),
{
    if arrays.len() == 0 {
        0
    } else {
        arrays[0][i] + sum_at(arrays.drop_first(), i)
    }
}

/// The sequences are ordered ascending by length.
pub open spec fn sorted_by_len(arrays: Seq<Seq<i64>>) -> bool {
    forall|j: int, k: int|
        0 <= j <= k < arrays.len() ==> #[trigger] arrays[j].len() <= #[trigger] arrays[k].len()
}

/// Sums taken over any collection of amplitude-bounded sequences stay
/// within `len * SAMPLE_AMPLITUDE_LIMIT` of zero.
pub proof fn lemma_sum_at_bounded(arrays: Seq<Seq<i64>>, i: int)
    requires
        all_frames_bounded(arrays),
        forall|j: int| 0 <= j < arrays.len() ==> i < #[trigger] arrays[j].len(),
        0 <= i,
    ensures
        -(arrays.len() * SAMPLE_AMPLITUDE_LIMIT) <= sum_at(arrays, i) <= arrays.len()
            * SAMPLE_AMPLITUDE_LIMIT,
    decreases arrays.len(),
{
    if arrays.len() == 0 {
    } else {
        assert(frames_bounded(arrays[0]));
        assert(all_frames_bounded(arrays.drop_first())) by {
            assert(forall|j: int|
                0 <= j < arrays.drop_first().len() ==> #[trigger] arrays.drop_first()[j]
                    == arrays[j + 1]);
        }
        lemma_sum_at_bounded(arrays.drop_first(), i);
        let n = arrays.len() as int;
        let rest_n = arrays.drop_first().len() as int;
        assert(n * SAMPLE_AMPLITUDE_LIMIT == rest_n * SAMPLE_AMPLITUDE_LIMIT
            + SAMPLE_AMPLITUDE_LIMIT) by (nonlinear_arith)
            requires
                rest_n == n - 1,
        ;
    }
}

/// The sample sequences a vector of buffers holds.
pub open spec fn frame_views(arrays: Seq<Vec<i64>>) -> Seq<Seq<i64>> {
    arrays.map_values(|v: Vec<i64>| v@)
}

/// Summing any prefix of two or more of the sequences stays within `i64`
/// range at every index of the shortest sequence.  This is exactly what
/// the pairwise merge needs to run without overflow.
pub open spec fn prefix_sums_fit(arrays: Seq<Seq<i64>>) -> bool {
    forall|k: int, i: int|
        2 <= k <= arrays.len() && 0 <= i < arrays[0].len() ==> i64::MIN <= #[trigger] sum_at(
            arrays.take(k),
            i,
        ) <= i64::MAX
}

/// Unfolds [`sum_at`] across the first two sequences.
proof fn lemma_sum_at_two_head(arrays: Seq<Seq<i64>>, i: int)
    requires
        arrays.len() >= 2,
    ensures
        sum_at(arrays, i) == arrays[0][i] + arrays[1][i] + sum_at(
            arrays.drop_first().drop_first(),
            i,
        ),
{
    assert(sum_at(arrays, i) == arrays[0][i] + sum_at(arrays.drop_first(), i));
    assert(sum_at(arrays.drop_first(), i) == arrays.drop_first()[0][i] + sum_at(
        arrays.drop_first().drop_first(),
        i,
    ));
    assert(arrays.drop_first()[0] == arrays[1]);
}

/// Sums two sample sequences pointwise over their overlapping prefix.
/// The result is as long as the shorter input; the longer input's tail is
/// discarded.
pub fn merge_arrays(shortest: Vec<i64>, longest: Vec<i64>) -> (merged: Vec<i64>)
    requires
        forall|i: int|
            0 <= i < shortest@.len() && i < longest@.len() ==> i64::MIN <= #[trigger] shortest@[i]
                + longest@[i] <= i64::MAX,
    ensures
        merged@.len() == if shortest@.len() <= longest@.len() {
            shortest@.len()
        } else {
            longest@.len()
        },
        forall|i: int| 0 <= i < merged@.len() ==> #[trigger] merged@[i] == shortest@[i] + longest@[i],
{
    let limit = if shortest.len() <= longest.len() {
        shortest.len()
    } else {
        longest.len()
    };
    let mut merged: Vec<i64> = Vec::new();
    let mut i: usize = 0;
    while i < limit
        invariant
            i <= limit,
            limit == if shortest@.len() <= longest@.len() {
                shortest@.len()
            } else {
                longest@.len()
            },
            merged@.len() == i,
            forall|k: int|
                0 <= k < i ==> #[trigger] merged@[k] == shortest@[k] + longest@[k],
            forall|k: int|
                0 <= k < shortest@.len() && k < longest@.len() ==> i64::MIN
                    <= #[trigger] shortest@[k] + longest@[k] <= i64::MAX,
        decreases limit - i,
    {
        merged.push(shortest[i] + longest[i]);
        i = i + 1;
    }
    merged
}

/// The length of the shortest sequence in the collection.
pub open spec fn min_frame_len(arrays: Seq<Seq<i64>>) -> int
    decreases arrays.len(),
{
    if arrays.len() <= 1 {
        if arrays.len() == 0 {
            0
        } else {
            arrays[0].len() as int
        }
    } else {
        let rest = min_frame_len(arrays.drop_first());
        if arrays[0].len() <= rest {
            arrays[0].len() as int
        } else {
            rest
        }
    }
}

/// [`min_frame_len`] is a lower bound on every length and is attained.
pub proof fn lemma_min_frame_len(arrays: Seq<Seq<i64>>)
    requires
        arrays.len() >= 1,
    ensures
        forall|j: int| 0 <= j < arrays.len() ==> min_frame_len(arrays) <= #[trigger] arrays[j].len(),
        exists|j: int| 0 <= j < arrays.len() && min_frame_len(arrays) == #[trigger] arrays[j].len(),
    decreases arrays.len(),
{
    if arrays.len() == 1 {
        assert(min_frame_len(arrays) == arrays[0].len());
    } else {
        lemma_min_frame_len(arrays.drop_first());
        assert(forall|j: int|
            0 <= j < arrays.drop_first().len() ==> #[trigger] arrays.drop_first()[j] == arrays[j
                + 1]);
        if arrays[0].len() <= min_frame_len(arrays.drop_first()) {
            assert(min_frame_len(arrays) == arrays[0].len());
        } else {
            let j = choose|j: int|
                0 <= j < arrays.drop_first().len() && min_frame_len(arrays.drop_first())
                    == #[trigger] arrays.drop_first()[j].len();
            assert(min_frame_len(arrays) == arrays[j + 1].len());
        }
        assert forall|j: int|
            0 <= j < arrays.len() implies min_frame_len(arrays) <= #[trigger] arrays[j].len() by {
            if j > 0 {
                assert(arrays.drop_first()[j - 1] == arrays[j]);
                assert(min_frame_len(arrays.drop_first()) <= arrays.drop_first()[j - 1].len());
            }
        }
    }
}

/// The mixed sequence a collection of sample sequences yields: as long
/// as the shortest contributor, holding at each index the sum of all
/// contributors' samples there.
pub open spec fn spec_mixed_frames(arrays: Seq<Seq<i64>>) -> Seq<i64> {
    Seq::new(min_frame_len(arrays) as nat, |i: int| sum_at(arrays, i) as i64)
}

/// Replacing the two shortest sequences by their pointwise sum leaves
/// every prefix sum over the collection unchanged.
proof fn lemma_sum_after_merge(pre: Seq<Seq<i64>>, post: Seq<Seq<i64>>, k: int, i: int)
    requires
        pre.len() >= 2,
        post.len() == pre.len() - 1,
        post[0].len() == pre[0].len(),
        forall|x: int| 0 <= x < pre[0].len() ==> #[trigger] post[0][x] == pre[0][x] + pre[1][x],
        forall|j: int| 1 <= j < post.len() ==> #[trigger] post[j] == pre[j + 1],
        1 <= k <= post.len(),
        0 <= i < pre[0].len(),
    ensures
        sum_at(post.take(k), i) == sum_at(pre.take(k + 1), i),
{
    lemma_sum_at_two_head(pre.take(k + 1), i);
    assert(pre.take(k + 1)[0] == pre[0]);
    assert(pre.take(k + 1)[1] == pre[1]);
    assert(post.take(k).drop_first() =~= pre.take(k + 1).drop_first().drop_first()) by {
        assert(forall|j: int|
            0 <= j < k - 1 ==> #[trigger] post.take(k).drop_first()[j] == post[j + 1]);
        assert(forall|j: int|
            0 <= j < k - 1 ==> #[trigger] pre.take(k + 1).drop_first().drop_first()[j] == pre[j
                + 2]);
    }
    assert(sum_at(post.take(k), i) == post.take(k)[0][i] + sum_at(post.take(k).drop_first(), i));
    assert(post.take(k)[0] == post[0]);
}

/// Merges an ascending-by-length collection of sample sequences down to a
/// single sequence: the two shortest remaining sequences are summed over
/// their shared prefix and the result takes their place, until one
/// sequence is left.  The output is as long as the shortest input and
/// holds, at each index, the sum of all inputs at that index.
pub fn merge_all_arrays(arrays: Vec<Vec<i64>>) -> (mixed: Vec<i64>)
    requires
        arrays@.len() >= 1,
        sorted_by_len(frame_views(arrays@)),
        prefix_sums_fit(frame_views(arrays@)),
    ensures
        mixed@.len() == arrays@[0]@.len(),
        forall|j: int| 0 <= j < arrays@.len() ==> mixed@.len() <= #[trigger] arrays@[j]@.len(),
        exists|j: int| 0 <= j < arrays@.len() && mixed@.len() == #[trigger] arrays@[j]@.len(),
        forall|i: int|
            0 <= i < mixed@.len() ==> #[trigger] mixed@[i] == sum_at(frame_views(arrays@), i),
    decreases arrays@.len(),
{
    let ghost arr0 = arrays@;
    let ghost pre = frame_views(arrays@);
    let mut arrays = arrays;
    if arrays.len() == 1 {
        let only = arrays.pop().unwrap();
        proof {
            assert(pre[0] == only@);
            assert(only@.len() == arr0[0]@.len());
            assert forall|j: int|
                0 <= j < arr0.len() implies only@.len() <= #[trigger] arr0[j]@.len() by {
                assert(pre[j] == arr0[j]@);
                assert(pre[0].len() <= pre[j].len());
            }
            assert forall|i: int| 0 <= i < only@.len() implies #[trigger] only@[i] == sum_at(
                pre,
                i,
            ) by {
                assert(sum_at(pre, i) == pre[0][i] + sum_at(pre.drop_first(), i));
                assert(pre.drop_first().len() == 0);
                assert(sum_at(pre.drop_first(), i) == 0);
            }
        }
        only
    } else {
        let shortest = arrays.remove(0);
        let longest = arrays.remove(0);
        proof {
            assert(shortest@ == pre[0]);
            assert(longest@ == pre[1]);
            assert(pre[0].len() <= pre[1].len());
            assert forall|i: int|
                0 <= i < shortest@.len() && i < longest@.len() implies i64::MIN
                <= #[trigger] shortest@[i] + longest@[i] <= i64::MAX by {
                assert(i64::MIN <= sum_at(pre.take(2), i) <= i64::MAX);
                lemma_sum_at_two_head(pre.take(2), i);
                assert(pre.take(2)[0] == pre[0]);
                assert(pre.take(2)[1] == pre[1]);
                assert(pre.take(2).drop_first().drop_first().len() == 0);
                assert(sum_at(pre.take(2).drop_first().drop_first(), i) == 0);
            }
        }
        let merged = merge_arrays(shortest, longest);
        arrays.insert(0, merged);
        let ghost post = frame_views(arrays@);
        proof {
            assert(post.len() == pre.len() - 1);
            assert(post[0] == merged@);
            assert(forall|j: int| 1 <= j < post.len() ==> #[trigger] post[j] == pre[j + 1]);
            assert(merged@.len() == pre[0].len());
            assert(sorted_by_len(post)) by {
                assert forall|j: int, k: int|
                    0 <= j <= k < post.len() implies #[trigger] post[j].len()
                    <= #[trigger] post[k].len() by {
                    if j == 0 {
                        assert(post[0].len() == pre[0].len());
                        if k > 0 {
                            assert(post[k] == pre[k + 1]);
                            assert(pre[0].len() <= pre[k + 1].len());
                        }
                    } else {
                        assert(post[j] == pre[j + 1]);
                        assert(post[k] == pre[k + 1]);
                        assert(pre[j + 1].len() <= pre[k + 1].len());
                    }
                }
            }
            assert(prefix_sums_fit(post)) by {
                assert forall|k: int, i: int|
                    2 <= k <= post.len() && 0 <= i < post[0].len() implies i64::MIN
                    <= #[trigger] sum_at(post.take(k), i) <= i64::MAX by {
                    lemma_sum_after_merge(pre, post, k, i);
                    assert(i64::MIN <= sum_at(pre.take(k + 1), i) <= i64::MAX);
                }
            }
        }
        let mixed = merge_all_arrays(arrays);
        proof {
            assert forall|i: int| 0 <= i < mixed@.len() implies #[trigger] mixed@[i] == sum_at(
                pre,
                i,
            ) by {
                lemma_sum_after_merge(pre, post, post.len() as int, i);
                assert(post.take(post.len() as int) =~= post);
                assert(pre.take(post.len() as int + 1) =~= pre);
            }
            assert(mixed@.len() == pre[0].len());
            assert(mixed@.len() == arr0[0]@.len());
            assert forall|j: int|
                0 <= j < arr0.len() implies mixed@.len() <= #[trigger] arr0[j]@.len() by {
                assert(pre[j] == arr0[j]@);
                assert(pre[0].len() <= pre[j].len());
            }
        }
        mixed
    }
}

/// Removing the sequence at index `k` removes exactly its contribution
/// from the sum at every index.
proof fn lemma_sum_at_remove(s: Seq<Seq<i64>>, k: int, i: int)
    requires
        0 <= k < s.len(),
    ensures
        sum_at(s.remove(k), i) == sum_at(s, i) - s[k][i],
    decreases k,
{
    if k == 0 {
        assert(s.remove(0) =~= s.drop_first());
        assert(sum_at(s, i) == s[0][i] + sum_at(s.drop_first(), i));
    } else {
        lemma_sum_at_remove(s.drop_first(), k - 1, i);
        assert(s.remove(k).drop_first() =~= s.drop_first().remove(k - 1));
        assert(sum_at(s, i) == s[0][i] + sum_at(s.drop_first(), i));
        assert(sum_at(s.remove(k), i) == s.remove(k)[0][i] + sum_at(s.remove(k).drop_first(), i));
        assert(s.remove(k)[0] == s[0]);
        assert(s.drop_first()[k - 1] == s[k]);
    }
}

/// Reordering the sequences does not change the sum at any index.
pub proof fn lemma_sum_at_permutation(a: Seq<Seq<i64>>, b: Seq<Seq<i64>>, i: int)
    requires
        a.to_multiset() == b.to_multiset(),
    ensures
        sum_at(a, i) == sum_at(b, i),
    decreases a.len(),
{
    broadcast use vstd::seq_lib::group_to_multiset_ensures;

    if a.len() == 0 {
        assert(b.len() == b.to_multiset().len());
        assert(sum_at(b, i) == 0);
    } else {
        let x = a[0];
        assert(a.contains(x));
        assert(a.to_multiset().count(x) > 0);
        assert(b.to_multiset().count(x) > 0);
        assert(b.contains(x));
        let k = choose|k: int| 0 <= k < b.len() && b[k] == x;
        lemma_sum_at_remove(b, k, i);
        assert(a.remove(0) =~= a.drop_first());
        lemma_sum_at_permutation(a.drop_first(), b.remove(k), i);
        assert(sum_at(a, i) == a[0][i] + sum_at(a.drop_first(), i));
    }
}

/// Every sequence of `a` occurs somewhere in `b` when the two hold the
/// same sequences.
proof fn lemma_permutation_index(a: Seq<Seq<i64>>, b: Seq<Seq<i64>>, j: int)
    requires
        a.to_multiset() == b.to_multiset(),
        0 <= j < a.len(),
    ensures
        exists|k: int| 0 <= k < b.len() && b[k] == a[j],
{
    broadcast use vstd::seq_lib::group_to_multiset_ensures;

    assert(a.contains(a[j]));
    assert(a.to_multiset().count(a[j]) > 0);
    assert(b.contains(a[j]));
}

pub(crate) proof fn lemma_frame_views_remove(s: Seq<Vec<i64>>, m: int)
    requires
        0 <= m < s.len(),
    ensures
        frame_views(s.remove(m)) =~= frame_views(s).remove(m),
{
}

pub(crate) proof fn lemma_frame_views_push(s: Seq<Vec<i64>>, x: Vec<i64>)
    ensures
        frame_views(s.push(x)) =~= frame_views(s).push(x@),
{
}

pub(crate) proof fn lemma_frame_views_update(s: Seq<Vec<i64>>, m: int, x: Vec<i64>)
    requires
        0 <= m < s.len(),
    ensures
        frame_views(s.update(m, x)) =~= frame_views(s).update(m, x@),
{
}

/// Mixes the sample sequences of two or more simultaneously triggered
/// notes (a single note passes through unchanged).  The sequences are
/// ordered ascending by length and merged pairwise shortest-first, so the
/// output is exactly as long as the shortest input and each output sample
/// is the sum of all inputs' samples at that index.
pub fn mix_notes(frames: Vec<Vec<i64>>) -> (mixed: Vec<i64>)
    requires
        frames@.len() >= 1,
        all_frames_bounded(frame_views(frames@)),
        frames@.len() * SAMPLE_AMPLITUDE_LIMIT <= i64::MAX,
    ensures
        forall|j: int| 0 <= j < frames@.len() ==> mixed@.len() <= #[trigger] frames@[j]@.len(),
        exists|j: int| 0 <= j < frames@.len() && mixed@.len() == #[trigger] frames@[j]@.len(),
        forall|i: int|
            0 <= i < mixed@.len() ==> #[trigger] mixed@[i] == sum_at(frame_views(frames@), i),
        mixed@ == spec_mixed_frames(frame_views(frames@)),
        frames@.len() == 1 ==> mixed@ == frames@[0]@,
{
    broadcast use vstd::seq_lib::group_to_multiset_ensures;

    let ghost all = frame_views(frames@);
    let mut rest = frames;
    let mut in_order: Vec<Vec<i64>> = Vec::new();
    while rest.len() > 0
        invariant
            frame_views(in_order@).to_multiset().add(frame_views(rest@).to_multiset())
                == all.to_multiset(),
            sorted_by_len(frame_views(in_order@)),
            forall|p: int, q: int|
                0 <= p < in_order@.len() && 0 <= q < rest@.len() ==> #[trigger] in_order@[p]@.len()
                    <= #[trigger] rest@[q]@.len(),
        decreases rest@.len(),
    {
        let mut m: usize = 0;
        let mut k: usize = 1;
        while k < rest.len()
            invariant
                m < k <= rest@.len(),
                rest@.len() >= 1,
                forall|t: int| 0 <= t < k ==> rest@[m as int]@.len() <= #[trigger] rest@[t]@.len(),
            decreases rest@.len() - k,
        {
            if rest[k].len() < rest[m].len() {
                m = k;
            }
            k = k + 1;
        }
        let ghost old_rest = rest@;
        let ghost old_sorted = in_order@;
        let x = rest.remove(m);
        in_order.push(x);
        proof {
            broadcast use vstd::seq_lib::group_to_multiset_ensures;

            lemma_frame_views_remove(old_rest, m as int);
            lemma_frame_views_push(old_sorted, x);
            assert(x@ == frame_views(old_rest)[m as int]);
            assert(frame_views(in_order@).to_multiset() =~= frame_views(
                old_sorted,
            ).to_multiset().insert(x@));
            assert(frame_views(rest@).to_multiset() =~= frame_views(old_rest).to_multiset().remove(
                x@,
            ));
            assert(frame_views(in_order@).to_multiset().add(frame_views(rest@).to_multiset())
                =~= all.to_multiset());
            assert(sorted_by_len(frame_views(in_order@))) by {
                assert(forall|p: int|
                    0 <= p < old_sorted.len() ==> #[trigger] frame_views(in_order@)[p]
                        == frame_views(old_sorted)[p]);
            }
        }
    }
    let ghost svs = frame_views(in_order@);
    proof {
        assert(frame_views(rest@).to_multiset() =~= Multiset::empty());
        assert(svs.to_multiset() =~= all.to_multiset()) by {
            assert forall|w: Seq<i64>| #![auto] true implies svs.to_multiset().count(w)
                == all.to_multiset().count(w) by {
                assert(svs.to_multiset().add(frame_views(rest@).to_multiset()).count(w)
                    == all.to_multiset().count(w));
            }
        }
        assert(svs.len() == svs.to_multiset().len());
        assert(all.len() == all.to_multiset().len());
        assert(svs.len() == frames@.len());
        assert(all_frames_bounded(svs)) by {
            assert forall|j: int| 0 <= j < svs.len() implies frames_bounded(#[trigger] svs[j]) by {
                lemma_permutation_index(svs, all, j);
                let k = choose|k: int| 0 <= k < all.len() && all[k] == svs[j];
                assert(frames_bounded(all[k]));
            }
        }
        assert(prefix_sums_fit(svs)) by {
            assert forall|k: int, i: int|
                2 <= k <= svs.len() && 0 <= i < svs[0].len() implies i64::MIN <= #[trigger] sum_at(
                svs.take(k),
                i,
            ) <= i64::MAX by {
                assert(all_frames_bounded(svs.take(k))) by {
                    assert(forall|j: int|
                        0 <= j < k ==> #[trigger] svs.take(k)[j] == svs[j]);
                }
                assert(forall|j: int| 0 <= j < k ==> i < #[trigger] svs.take(k)[j].len()) by {
                    assert(forall|j: int| 0 <= j < k ==> svs[0].len() <= #[trigger] svs[j].len());
                }
                lemma_sum_at_bounded(svs.take(k), i);
                let n = svs.len() as int;
                assert(k * SAMPLE_AMPLITUDE_LIMIT <= n * SAMPLE_AMPLITUDE_LIMIT)
                    by (nonlinear_arith)
                    requires
                        k <= n,
                        SAMPLE_AMPLITUDE_LIMIT >= 0,
                ;
                assert(n * SAMPLE_AMPLITUDE_LIMIT <= i64::MAX);
            }
        }
    }
    let mixed = merge_all_arrays(in_order);
    proof {
        assert(mixed@.len() == svs[0].len());
        assert forall|j: int| 0 <= j < frames@.len() implies mixed@.len()
            <= #[trigger] frames@[j]@.len() by {
            lemma_permutation_index(all, svs, j);
            let k = choose|k: int| 0 <= k < svs.len() && svs[k] == all[j];
            assert(svs[0].len() <= svs[k].len());
            assert(all[j] == frames@[j]@);
        }
        assert(exists|j: int| 0 <= j < frames@.len() && mixed@.len() == #[trigger] frames@[j]@.len())
            by {
            lemma_permutation_index(svs, all, 0);
            let k = choose|k: int| 0 <= k < all.len() && all[k] == svs[0];
            assert(frames@[k]@.len() == mixed@.len());
        }
        assert forall|i: int| 0 <= i < mixed@.len() implies #[trigger] mixed@[i] == sum_at(
            all,
            i,
        ) by {
            lemma_sum_at_permutation(svs, all, i);
        }
        assert(mixed@ =~= spec_mixed_frames(all)) by {
            lemma_min_frame_len(all);
            let jm = choose|j: int|
                0 <= j < all.len() && min_frame_len(all) == #[trigger] all[j].len();
            assert(frames@[jm]@.len() >= mixed@.len());
            let ja = choose|j: int|
                0 <= j < frames@.len() && mixed@.len() == #[trigger] frames@[j]@.len();
            assert(min_frame_len(all) <= all[ja].len());
            assert(mixed@.len() == min_frame_len(all));
        }
        if frames@.len() == 1 {
            lemma_permutation_index(svs, all, 0);
            assert(all[0] == svs[0]);
            assert(sum_at(all, 0) == all[0][0] + sum_at(all.drop_first(), 0));
            assert forall|i: int| 0 <= i < mixed@.len() implies mixed@[i] == frames@[0]@[i] by {
                assert(sum_at(all, i) == all[0][i] + sum_at(all.drop_first(), i));
                assert(all.drop_first().len() == 0);
                assert(sum_at(all.drop_first(), i) == 0);
            }
            assert(mixed@ =~= frames@[0]@);
        }
    }
    mixed
}

} // verus!
