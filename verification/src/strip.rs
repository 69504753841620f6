//! Strip triangulation: two runs of vertices in one buffer are stitched into
//! a ladder of triangles, two per step along the left run.

use crate::mesh::INDEX_LIMIT;
use vstd::prelude::*;

verus! {

/// The number of steps along a left run of `left_len` vertices.
pub open spec fn strip_steps(left_len: int) -> nat {
    if left_len >= 1 {
        (left_len - 1) as nat
    } else {
        0
    }
}

/// The right vertex that position `pos` of the left run is paired with: the
/// position itself, counted from the start of the right run or, mirrored,
/// from its end, and held inside the right run.
pub open spec fn strip_right(right_start: int, right_len: int, pos: int, reverse_right: bool) -> int {
    let last = right_start + right_len - 1;
    let wanted = if reverse_right {
        last - pos
    } else {
        right_start + pos
    };
    if wanted < right_start {
        right_start
    } else if wanted > last {
        last
    } else {
        wanted
    }
}

/// The two triangles of step `step`.
pub open spec fn strip_step(
    left_start: int,
    right_start: int,
    right_len: int,
    reverse_right: bool,
    step: int,
) -> Seq<u16> {
    let near = strip_right(right_start, right_len, step, reverse_right);
    let far = strip_right(right_start, right_len, step + 1, reverse_right);
    seq![
        (left_start + step) as u16,
        near as u16,
        (left_start + step + 1) as u16,
        (left_start + step + 1) as u16,
        near as u16,
        far as u16,
    ]
}

/// The triangles of the first `steps` steps, in order.
pub open spec fn strip_prefix(
    left_start: int,
    right_start: int,
    right_len: int,
    reverse_right: bool,
    steps: nat,
) -> Seq<u16>
    decreases steps,
{
    if steps == 0 {
        Seq::empty()
    } else {
        strip_prefix(left_start, right_start, right_len, reverse_right, (steps - 1) as nat)
            + strip_step(left_start, right_start, right_len, reverse_right, steps - 1)
    }
}

/// The whole strip between a left run and a right run.
pub open spec fn strip_spec(
    left_start: int,
    left_len: int,
    right_start: int,
    right_len: int,
    reverse_right: bool,
) -> Seq<u16> {
    strip_prefix(left_start, right_start, right_len, reverse_right, strip_steps(left_len))
}

/// What a strip needs of its runs: a left run of two or more vertices has a
/// right run to pair with, and both runs lie below the index limit.
pub open spec fn strip_fits(left_start: int, left_len: int, right_start: int, right_len: int) -> bool {
    left_len >= 2 ==> right_len >= 1 && left_start + left_len <= INDEX_LIMIT && right_start
        + right_len <= INDEX_LIMIT
}

/// A paired right vertex lies in the right run.
pub proof fn lemma_strip_right_in_run(right_start: int, right_len: int, pos: int, reverse_right: bool)
    requires
        right_len >= 1,
    ensures
        right_start <= strip_right(right_start, right_len, pos, reverse_right) < right_start
            + right_len,
{
}

/// Between runs of equal length the mirrored pairing is the plain pairing
/// read from the other end.
pub proof fn lemma_strip_reverse_mirrors(right_start: int, len: int, pos: int)
    requires
        0 <= pos < len,
    ensures
        strip_right(right_start, len, pos, true) == strip_right(
            right_start,
            len,
            len - 1 - pos,
            false,
        ),
        strip_right(right_start, len, pos, false) == right_start + pos,
{
}

/// Between runs of equal length a step of the plain strip takes the right
/// vertex in step with its left vertex and the next one, and the same step
/// of the mirrored strip takes the right vertex as far from the end of the
/// right run and the one before it.
pub proof fn lemma_strip_step_mirrors(left_start: int, right_start: int, len: int, step: int)
    requires
        0 <= left_start,
        0 <= right_start,
        right_start + len <= INDEX_LIMIT,
        0 <= step < len - 1,
    ensures
        strip_step(left_start, right_start, len, false, step)[1] == right_start + step,
        strip_step(left_start, right_start, len, false, step)[5] == right_start + step + 1,
        strip_step(left_start, right_start, len, true, step)[1] == right_start + len - 1 - step,
        strip_step(left_start, right_start, len, true, step)[5] == right_start + len - 2 - step,
{
    lemma_strip_reverse_mirrors(right_start, len, step);
    lemma_strip_reverse_mirrors(right_start, len, step + 1);
}

/// A strip holds six indices per step, and index `k` is the corner `k % 6`
/// of step `k / 6`.
pub proof fn lemma_strip_prefix_index(
    left_start: int,
    right_start: int,
    right_len: int,
    reverse_right: bool,
    steps: nat,
)
    ensures
        strip_prefix(left_start, right_start, right_len, reverse_right, steps).len() == 6 * steps,
        forall|k: int|
            0 <= k < 6 * steps ==> #[trigger] strip_prefix(
                left_start,
                right_start,
                right_len,
                reverse_right,
                steps,
            )[k] == strip_step(left_start, right_start, right_len, reverse_right, k / 6)[k % 6],
    decreases steps,
{
    if steps > 0 {
        let before = (steps - 1) as nat;
        lemma_strip_prefix_index(left_start, right_start, right_len, reverse_right, before);
        let head = strip_prefix(left_start, right_start, right_len, reverse_right, before);
        let tail = strip_step(left_start, right_start, right_len, reverse_right, steps - 1);
        let whole = strip_prefix(left_start, right_start, right_len, reverse_right, steps);
        assert(whole == head + tail);
        assert forall|k: int| 0 <= k < 6 * steps implies #[trigger] whole[k] == strip_step(
            left_start,
            right_start,
            right_len,
            reverse_right,
            k / 6,
        )[k % 6] by {
            if k < 6 * before {
                assert(whole[k] == head[k]);
            } else {
                assert(whole[k] == tail[k - 6 * before]);
                assert(k / 6 == steps - 1 && k % 6 == k - 6 * before);
            }
        }
    }
}

/// Every index of a strip whose runs fit points into one of the two runs.
pub proof fn lemma_strip_in_runs(
    left_start: int,
    left_len: int,
    right_start: int,
    right_len: int,
    reverse_right: bool,
)
    requires
        0 <= left_start,
        0 <= right_start,
        strip_fits(left_start, left_len, right_start, right_len),
    ensures
        strip_spec(left_start, left_len, right_start, right_len, reverse_right).len() == 6
            * strip_steps(left_len),
        forall|k: int|
            0 <= k < 6 * strip_steps(left_len) ==> {
                let index = #[trigger] strip_spec(
                    left_start,
                    left_len,
                    right_start,
                    right_len,
                    reverse_right,
                )[k];
                ||| left_start <= index < left_start + left_len
                ||| right_start <= index < right_start + right_len
            },
{
    let steps = strip_steps(left_len);
    lemma_strip_prefix_index(left_start, right_start, right_len, reverse_right, steps);
    assert forall|k: int| 0 <= k < 6 * steps implies {
        let index = #[trigger] strip_spec(
            left_start,
            left_len,
            right_start,
            right_len,
            reverse_right,
        )[k];
        ||| left_start <= index < left_start + left_len
        ||| right_start <= index < right_start + right_len
    } by {
        let step = k / 6;
        lemma_strip_right_in_run(right_start, right_len, step, reverse_right);
        lemma_strip_right_in_run(right_start, right_len, step + 1, reverse_right);
        assert(0 <= step < steps);
        assert(0 <= k % 6 < 6);
    }
}

/// The right vertex paired with position `pos`, computed.
fn right_index(right_start_i: usize, right_len: usize, pos: usize, reverse_right: bool) -> (index: u16)
    requires
        right_len >= 1,
        right_start_i + right_len <= INDEX_LIMIT,
    ensures
        index == strip_right(right_start_i as int, right_len as int, pos as int, reverse_right),
{
    let last: usize = right_start_i + right_len - 1;
    let offset: usize = if pos < right_len {
        pos
    } else {
        right_len - 1
    };
    if reverse_right {
        (last - offset) as u16
    } else {
        (right_start_i + offset) as u16
    }
}

/// Stitches the run of `left_len` vertices from `left_start_i` on to the run
/// of `right_len` vertices from `right_start_i` on: two triangles for each
/// step along the left run, the right corners taken in step with the left
/// ones, forwards or (`reverse_right`) from the far end, and held on the last
/// vertex of the right run once it is used up.
pub fn strip_indices(
    left_start_i: usize,
    left_len: usize,
    right_start_i: usize,
    right_len: usize,
    reverse_right: bool,
) -> (indices: Vec<u16>)
    requires
        strip_fits(left_start_i as int, left_len as int, right_start_i as int, right_len as int),
    ensures
        indices@ == strip_spec(
            left_start_i as int,
            left_len as int,
            right_start_i as int,
            right_len as int,
            reverse_right,
        ),
{
    let mut indices: Vec<u16> = Vec::new();
    if left_len < 2 {
        return indices;
    }
    let steps: usize = left_len - 1;
    let mut step: usize = 0;
    while step < steps
        invariant
            left_len >= 2,
            steps == left_len - 1,
            step <= steps,
            right_len >= 1,
            left_start_i + left_len <= INDEX_LIMIT,
            right_start_i + right_len <= INDEX_LIMIT,
            indices@ == strip_prefix(
                left_start_i as int,
                right_start_i as int,
                right_len as int,
                reverse_right,
                step as nat,
            ),
        decreases steps - step,
    {
        let left_i: u16 = (left_start_i + step) as u16;
        let near: u16 = right_index(right_start_i, right_len, step, reverse_right);
        let far: u16 = right_index(right_start_i, right_len, step + 1, reverse_right);
        let ghost before = indices@;
        indices.push(left_i);
        indices.push(near);
        indices.push(left_i + 1);
        indices.push(left_i + 1);
        indices.push(near);
        indices.push(far);
        proof {
            assert(indices@ =~= before + strip_step(
                left_start_i as int,
                right_start_i as int,
                right_len as int,
                reverse_right,
                step as int,
            ));
        }
        step = step + 1;
    }
    indices
}

} // verus!
