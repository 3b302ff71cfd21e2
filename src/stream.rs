//! Assembly of the looped, channel-interleaved sample stream.

use vstd::prelude::*;
use crate::geom::Point;
use crate::SynthError;

verus! {

/// The `k`-th value of the stream made of the buffer `s`: even positions hold
/// x and odd positions hold y, and the buffer starts over after each pass.
pub open spec fn stream_value(s: Seq<Point>, k: int) -> i64 {
    let p = s[(k / 2) % (s.len() as int)];
    if k % 2 == 0 {
        p.x
    } else {
        p.y
    }
}

/// The buffer repeated `loops` times, each point giving its x then its y.
pub open spec fn interleaved(s: Seq<Point>, loops: nat) -> Seq<i64> {
    Seq::new(2 * loops * s.len(), |k: int| stream_value(s, k))
}

/// What assembling gives: an error for an empty buffer or a loop count of
/// zero, else the interleaved, repeated buffer.
pub open spec fn assemble_result(s: Seq<Point>, loops: nat) -> Result<Seq<i64>, SynthError> {
    if s.len() == 0 {
        Err(SynthError::EmptyGeometryError)
    } else if loops == 0 {
        Err(SynthError::ConfigurationError)
    } else {
        Ok(interleaved(s, loops))
    }
}

/// The stream holds exactly `2 * loops * len` values, and pass `l` gives
/// point `i` at positions `2 * (l * len + i)` and the one after.
pub proof fn lemma_stream_layout(s: Seq<Point>, loops: nat, l: int, i: int)
    requires
        0 <= l < loops,
        0 <= i < s.len(),
    ensures
        interleaved(s, loops).len() == 2 * loops * s.len(),
        0 <= 2 * (l * s.len() + i) && 2 * (l * s.len() + i) + 1 < interleaved(s, loops).len(),
        interleaved(s, loops)[2 * (l * s.len() + i)] == s[i].x,
        interleaved(s, loops)[2 * (l * s.len() + i) + 1] == s[i].y,
{
    let n = s.len() as int;
    let k = 2 * (l * n + i);
    assert(0 <= k && k + 1 < 2 * loops * n && (k / 2) % n == i && ((k + 1) / 2) % n == i && k % 2 == 0 && (k
        + 1) % 2 == 1) by (nonlinear_arith)
        requires
            k == 2 * (l * n + i),
            0 <= l < loops,
            0 <= i < n,
    ;
}

/// Repeats the buffer `loops` times and interleaves each point's x and y
/// into one flat sequence of `2 * loops * len` values. Fails on an empty
/// buffer and on a loop count of zero.
pub fn assemble(pts: &Vec<Point>, loops: u32) -> (r: Result<Vec<i64>, SynthError>)
    ensures
        match r {
            Ok(v) => assemble_result(pts@, loops as nat) == Ok::<Seq<i64>, SynthError>(v@),
            Err(err) => assemble_result(pts@, loops as nat) == Err::<Seq<i64>, SynthError>(err),
        },
{
    if pts.len() == 0 {
        return Err(SynthError::EmptyGeometryError);
    }
    if loops == 0 {
        return Err(SynthError::ConfigurationError);
    }
    let ghost n = pts@.len() as int;
    let mut out: Vec<i64> = Vec::new();
    let mut l: u32 = 0;
    assert(2 * (l as int) * n == 0) by (nonlinear_arith)
        requires
            l == 0,
    ;
    while l < loops
        invariant
            n == pts@.len(),
            n > 0,
            l <= loops,
            out@.len() == 2 * l * n,
            forall|k: int| 0 <= k < out@.len() ==> out@[k] == stream_value(pts@, k),
        decreases loops - l,
    {
        let mut i: usize = 0;
        assert(2 * (l * n + i) == 2 * l * n) by (nonlinear_arith)
            requires
                i == 0,
        ;
        while i < pts.len()
            invariant
                n == pts@.len(),
                n > 0,
                l < loops,
                i <= n,
                out@.len() == 2 * (l * n + i),
                forall|k: int| 0 <= k < out@.len() ==> out@[k] == stream_value(pts@, k),
            decreases n - i,
        {
            let p = pts[i];
            let ghost k = 2 * (l * n + i);
            assert((k / 2) % n == i && ((k + 1) / 2) % n == i && k % 2 == 0 && (k + 1) % 2 == 1) by (nonlinear_arith)
                requires
                    k == 2 * (l * n + i),
                    0 <= l,
                    0 <= i < n,
            ;
            out.push(p.x);
            out.push(p.y);
            i = i + 1;
        }
        assert(2 * (l * n + n) == 2 * (l + 1) * n) by (nonlinear_arith);
        l = l + 1;
    }
    assert(out@ =~= interleaved(pts@, loops as nat));
    Ok(out)
}

} // verus!
