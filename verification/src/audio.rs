//! Blocks of sound, as the device asks for them.
use vstd::prelude::*;

verus! {

/// Frames in a block of `samples` samples.
pub fn frames_in(samples: usize, channels: usize) -> (n: usize)
    requires
        channels > 0,
    ensures
        n == samples as int / channels as int,
{
    samples / channels
}

/// What channel `c` of a frame gets: the first channel the left sample, the second the right one,
/// each shaped, and the others silence.
pub open spec fn is_sample<T, F: Fn(T) -> T>(
    out: T,
    c: int,
    left: T,
    right: T,
    silence: T,
    shape: F,
) -> bool {
    if c == 0 {
        call_ensures(shape, (left,), out)
    } else if c == 1 {
        call_ensures(shape, (right,), out)
    } else {
        out == silence
    }
}

/// Lays the left and the right samples into the frames of a block.
pub fn lay_frames<T: Copy, F: Fn(T) -> T>(
    data: &mut [T],
    channels: usize,
    left: &Vec<T>,
    right: &Vec<T>,
    silence: T,
    shape: F,
)
    requires
        channels > 0,
        old(data)@.len() == left.len() * channels,
        right.len() == left.len(),
        forall|x: T| #[trigger] call_requires(shape, (x,)),
    ensures
        final(data)@.len() == old(data)@.len(),
        forall|i: int, c: int|
            0 <= i < left.len() && 0 <= c < channels ==> is_sample(
                #[trigger] final(data)@[i * channels + c],
                c,
                left[i],
                right[i],
                silence,
                shape,
            ),
{
    let n = left.len();
    let total = data.len();
    let mut i: usize = 0;
    let mut at: usize = 0;
    while i < n
        invariant
            channels > 0,
            i <= n,
            n == left.len(),
            n == right.len(),
            total == n * channels,
            data@.len() == total,
            at == i * channels,
            forall|x: T| #[trigger] call_requires(shape, (x,)),
            forall|j: int, c: int|
                0 <= j < i && 0 <= c < channels ==> is_sample(
                    #[trigger] data@[j * channels + c],
                    c,
                    left[j],
                    right[j],
                    silence,
                    shape,
                ),
        decreases n - i,
    {
        assert((i + 1) * channels == at + channels && (i + 1) * channels <= total) by (nonlinear_arith)
            requires
                at == i * channels,
                i + 1 <= n,
                total == n * channels,
        ;
        let mut c: usize = 0;
        while c < channels
            invariant
                channels > 0,
                c <= channels,
                i < n,
                n == left.len(),
                n == right.len(),
                total == n * channels,
                data@.len() == total,
                at == i * channels,
                at + channels <= total,
                forall|x: T| #[trigger] call_requires(shape, (x,)),
                forall|j: int, d: int|
                    0 <= j < i && 0 <= d < channels ==> is_sample(
                        #[trigger] data@[j * channels + d],
                        d,
                        left[j],
                        right[j],
                        silence,
                        shape,
                    ),
                forall|d: int|
                    0 <= d < c ==> is_sample(
                        #[trigger] data@[at + d],
                        d,
                        left[i as int],
                        right[i as int],
                        silence,
                        shape,
                    ),
            decreases channels - c,
        {
            let s = if c == 0 {
                shape(left[i])
            } else if c == 1 {
                shape(right[i])
            } else {
                silence
            };
            let ghost before = data@;
            data[at + c] = s;
            proof {
                assert forall|j: int, d: int|
                    0 <= j < i && 0 <= d < channels implies is_sample(
                    #[trigger] data@[j * channels + d],
                    d,
                    left[j],
                    right[j],
                    silence,
                    shape,
                ) by {
                    assert(0 <= j * channels + d < at) by (nonlinear_arith)
                        requires
                            0 <= j < i,
                            0 <= d < channels,
                            at == i * channels,
                    ;
                    assert(before[j * channels + d] == data@[j * channels + d]);
                }
            }
            c += 1;
        }
        proof {
            assert forall|j: int, d: int|
                0 <= j < i + 1 && 0 <= d < channels implies is_sample(
                #[trigger] data@[j * channels + d],
                d,
                left[j],
                right[j],
                silence,
                shape,
            ) by {
                if j == i {
                    assert(data@[at + d] == data@[j * channels + d]);
                }
            }
        }
        i += 1;
        at += channels;
    }
}

/// Law: the first channel of a frame is the left sample, the second the right one, and every other
/// is silent.
pub proof fn left_comes_first<T, F: Fn(T) -> T>(
    out: T,
    c: int,
    left: T,
    right: T,
    silence: T,
    shape: F,
)
    ensures
        c == 0 ==> (is_sample(out, c, left, right, silence, shape) <==> shape.ensures(
            (left,),
            out,
        )),
        c == 1 ==> (is_sample(out, c, left, right, silence, shape) <==> shape.ensures(
            (right,),
            out,
        )),
        c >= 2 ==> (is_sample(out, c, left, right, silence, shape) <==> out == silence),
{
}

} // verus!
