//! Decoding of the landmark model's raw output: picking the output tensor,
//! locating the run of landmark coordinates inside it, and grouping the
//! coordinates into (x, y, z) triples.
use vstd::prelude::*;

verus! {

/// How many (x, y, z) triples are taken from `len` values when at most
/// `max_points` are wanted: every complete triple up to `max_points`, but
/// never fewer than one when a complete triple exists.
pub open spec fn triple_count(len: int, max_points: int) -> int {
    let complete = len / 3;
    if complete == 0 {
        0
    } else if max_points < 1 {
        1
    } else if complete < max_points {
        complete
    } else {
        max_points
    }
}

/// Groups `values` into consecutive (x, y, z) triples, stopping as soon as
/// `max_points` triples have been taken (after the first one); a trailing
/// incomplete triple is dropped.
pub fn split_xyz_triples<T: Copy>(values: &[T], max_points: usize) -> (r: Vec<(T, T, T)>)
    ensures
        r.len() == triple_count(values.len() as int, max_points as int),
        forall|i: int| 0 <= i < r.len() ==>
            #[trigger] r@[i] == (values@[3 * i], values@[3 * i + 1], values@[3 * i + 2]),
{
    let mut out: Vec<(T, T, T)> = Vec::new();
    let mut k: usize = 0;
    while k < values.len() / 3
        invariant
            0 <= k <= values.len() / 3,
            out.len() == k,
            k > 0 ==> k < max_points,
            forall|i: int| 0 <= i < out.len() ==>
                #[trigger] out@[i] == (values@[3 * i], values@[3 * i + 1], values@[3 * i + 2]),
        decreases values.len() / 3 - k,
    {
        let base = 3 * k;
        out.push((values[base], values[base + 1], values[base + 2]));
        k = k + 1;
        if out.len() >= max_points {
            return out;
        }
    }
    out
}

/// Score of the window of `count` landmark triples starting at `start`: the
/// sum of the per-position scores at `start`, `start + 3`, ...
pub open spec fn window_score(scores: Seq<u8>, start: int, count: int) -> int
    decreases count,
{
    if count <= 0 {
        0
    } else {
        window_score(scores, start, count - 1) + scores[start + 3 * (count - 1)] as int
    }
}

/// The last window start that is tried: 64 positions at most, and never so
/// far that the window would run past the end of the raw output.
pub open spec fn last_window_start(raw_len: int, count: int) -> int {
    let room = raw_len - 3 * count;
    if room < 64 { room } else { 64 }
}

/// `start` is the first window start, among those tried, with the highest score.
pub open spec fn is_best_window(scores: Seq<u8>, raw_len: int, count: int, start: int) -> bool {
    &&& 0 <= start <= last_window_start(raw_len, count)
    &&& forall|t: int| 0 <= t < start ==> #[trigger] window_score(scores, t, count) < window_score(scores, start, count)
    &&& forall|t: int| start < t <= last_window_start(raw_len, count) ==>
        #[trigger] window_score(scores, t, count) <= window_score(scores, start, count)
}

/// A window of one triple scores the pair at its start.
pub proof fn lemma_window_score_single(scores: Seq<u8>, start: int)
    ensures
        window_score(scores, start, 1) == scores[start] as int,
{
    assert(window_score(scores, start, 0) == 0);
}

/// Window scores add up: the score of `a + b` triples from `start` is the
/// score of the first `a` plus the score of the `b` that follow them, so a
/// window's score is the sum over all its triples.
pub proof fn lemma_window_score_additive(scores: Seq<u8>, start: int, a: nat, b: nat)
    ensures
        window_score(scores, start, a + b as int) == window_score(scores, start, a as int)
            + window_score(scores, start + 3 * a, b as int),
    decreases b,
{
    if b > 0 {
        lemma_window_score_additive(scores, start, a, (b - 1) as nat);
        assert(start + 3 * (a + b - 1) == start + 3 * a + 3 * (b - 1));
    } else {
        assert(window_score(scores, start + 3 * a, 0) == 0);
    }
}

fn score_window(scores: &[u8], start: usize, count: usize) -> (s: u128)
    requires
        count > 0 ==> start + 3 * (count - 1) < scores.len(),
    ensures
        s == window_score(scores@, start as int, count as int),
{
    let mut sum: u128 = 0;
    let mut j: usize = 0;
    while j < count
        invariant
            0 <= j <= count,
            count > 0 ==> start + 3 * (count - 1) < scores.len(),
            sum == window_score(scores@, start as int, j as int),
            sum <= 255 * j,
        decreases count - j,
    {
        sum = sum + scores[start + 3 * j] as u128;
        j = j + 1;
    }
    sum
}

/// Where the landmark coordinates most likely start in a raw output of
/// `raw_len` values.  `pair_scores[i]` rates the pair (raw[i], raw[i + 1]) as
/// an (x, y) coordinate; the window of `count` triples with the highest total
/// is chosen, the earliest on ties.  `None` when the output is too short for
/// `count` triples.
pub fn best_landmark_window(pair_scores: &[u8], raw_len: usize, count: usize) -> (r: Option<usize>)
    requires
        count * 3 <= usize::MAX,
        raw_len <= pair_scores.len() + 1,
    ensures
        raw_len < 3 * count ==> r is None,
        raw_len >= 3 * count ==> (r matches Some(start)
            && is_best_window(pair_scores@, raw_len as int, count as int, start as int)),
        r matches Some(start) ==> start <= 64 && start + 3 * count <= raw_len,
{
    let need = count * 3;
    if raw_len < need {
        return None;
    }
    let room = raw_len - need;
    let max_start = if room < 64 { room } else { 64 };
    let mut best_start: usize = 0;
    let mut best_score = score_window(pair_scores, 0, count);
    let mut start: usize = 1;
    while start <= max_start
        invariant
            raw_len >= need,
            need == 3 * count,
            raw_len <= pair_scores.len() + 1,
            max_start == last_window_start(raw_len as int, count as int),
            1 <= start <= max_start + 1,
            0 <= best_start < start,
            best_score == window_score(pair_scores@, best_start as int, count as int),
            forall|t: int| 0 <= t < best_start ==>
                #[trigger] window_score(pair_scores@, t, count as int) < best_score,
            forall|t: int| best_start < t < start ==>
                #[trigger] window_score(pair_scores@, t, count as int) <= best_score,
        decreases max_start + 1 - start,
    {
        let score = score_window(pair_scores, start, count);
        if score > best_score {
            best_score = score;
            best_start = start;
        }
        start = start + 1;
    }
    Some(best_start)
}

/// Output length `o` is a float tensor holding at least `need` values.
pub open spec fn is_eligible_output(o: Option<usize>, need: usize) -> bool {
    o matches Some(l) && l >= need
}

/// Number of values of an output, zero for a non-float output.
pub open spec fn output_len(o: Option<usize>) -> int {
    match o {
        Some(l) => l as int,
        None => 0,
    }
}

/// `i` names the output to read landmarks from: among the outputs that are
/// float tensors with at least `need` values, the first of the largest.
pub open spec fn is_best_output(lengths: Seq<Option<usize>>, need: usize, i: int) -> bool {
    &&& 0 <= i < lengths.len()
    &&& is_eligible_output(lengths[i], need)
    &&& forall|j: int| 0 <= j < i && is_eligible_output(#[trigger] lengths[j], need)
        ==> output_len(lengths[j]) < output_len(lengths[i])
    &&& forall|j: int| i < j < lengths.len() && is_eligible_output(#[trigger] lengths[j], need)
        ==> output_len(lengths[j]) <= output_len(lengths[i])
}

/// Picks the model output that holds the landmarks.  `lengths[i]` is the
/// number of values of output `i`, or `None` when it is not a float tensor.
/// `None` when no float output holds at least `need` values.
pub fn select_landmark_output(lengths: &[Option<usize>], need: usize) -> (r: Option<usize>)
    ensures
        r is None <==> forall|j: int| 0 <= j < lengths.len() ==>
            !is_eligible_output(#[trigger] lengths@[j], need),
        r matches Some(i) ==> is_best_output(lengths@, need, i as int),
{
    let mut best: Option<usize> = None;
    let mut i: usize = 0;
    while i < lengths.len()
        invariant
            0 <= i <= lengths.len(),
            best is None <==> forall|j: int| 0 <= j < i ==>
                !is_eligible_output(#[trigger] lengths@[j], need),
            best matches Some(b) ==> {
                &&& b < i
                &&& is_eligible_output(lengths@[b as int], need)
                &&& forall|j: int| 0 <= j < b && is_eligible_output(#[trigger] lengths@[j], need)
                    ==> output_len(lengths@[j]) < output_len(lengths@[b as int])
                &&& forall|j: int| b < j < i && is_eligible_output(#[trigger] lengths@[j], need)
                    ==> output_len(lengths@[j]) <= output_len(lengths@[b as int])
            },
        decreases lengths.len() - i,
    {
        if let Some(len) = lengths[i] {
            if len >= need {
                let replace = match best {
                    None => true,
                    Some(b) => match lengths[b] {
                        Some(current) => len > current,
                        None => true,
                    },
                };
                if replace {
                    best = Some(i);
                }
            }
        }
        i = i + 1;
    }
    best
}

} // verus!
