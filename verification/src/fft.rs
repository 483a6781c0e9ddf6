//! Capture-side pipeline: the sliding sample buffer and the windowed
//! analysis frame.
//!
//! The buffer keeps the most recent `N` samples as blocks of arbitrary
//! positive size arrive.  Its behaviour is captured by one spec
//! function, [`slide_spec`]: the new contents are always the last `N`
//! elements of the old contents followed by the block.  The chunking
//! lemmas below show that this is exactly "the last `N` samples
//! delivered", however the stream was split into blocks.

use vstd::prelude::*;

use crate::fixed::{fp_in_range, fp_mul, fp_mul_spec};
use crate::window::{
    blackman_window, coef_in_range, hann_window, window_coef_spec, WindowKind, MAX_N,
};

verus! {

/// Contents of a sliding buffer after one block is ingested: the last
/// `buf.len()` elements of `buf + block`.
pub open spec fn slide_spec(buf: Seq<i64>, block: Seq<i64>) -> Seq<i64> {
    (buf + block).skip(block.len() as int)
}

/// Ingesting block after block is the same as ingesting the
/// concatenated stream: the buffer holds the last `N` samples
/// delivered no matter how the stream was chunked.
pub proof fn lemma_slide_chunked(buf: Seq<i64>, first: Seq<i64>, second: Seq<i64>)
    ensures
        slide_spec(slide_spec(buf, first), second) == slide_spec(buf, first + second),
{
    let lhs = slide_spec(slide_spec(buf, first), second);
    let rhs = slide_spec(buf, first + second);
    assert(lhs.len() == buf.len());
    assert(rhs.len() == buf.len());
    assert forall|l: int| 0 <= l < buf.len() implies lhs[l] == rhs[l] by {
        let n = buf.len() as int;
        let f = first.len() as int;
        let s = second.len() as int;
        assert(lhs[l] == (slide_spec(buf, first) + second)[l + s]);
        if l + s < n {
            assert(lhs[l] == (buf + first)[l + s + f]);
        } else {
            assert(lhs[l] == second[l + s - n]);
        }
        assert(rhs[l] == (buf + (first + second))[l + f + s]);
    };
    assert(lhs =~= rhs);
}

/// A block shorter than the buffer slides: the oldest `block.len()`
/// samples leave the front and the block is appended at the back.
pub proof fn lemma_slide_small(buf: Seq<i64>, block: Seq<i64>)
    requires
        block.len() <= buf.len(),
    ensures
        slide_spec(buf, block) == buf.subrange(block.len() as int, buf.len() as int) + block,
{
    assert(slide_spec(buf, block) =~= buf.subrange(block.len() as int, buf.len() as int) + block);
}

/// A block at least as long as the buffer replaces it entirely with
/// the block's tail; the leading excess is dropped.
pub proof fn lemma_slide_oversized(buf: Seq<i64>, block: Seq<i64>)
    requires
        block.len() >= buf.len(),
    ensures
        slide_spec(buf, block) == block.subrange(
            block.len() - buf.len(),
            block.len() as int,
        ),
{
    assert(slide_spec(buf, block) =~= block.subrange(
        block.len() - buf.len(),
        block.len() as int,
    ));
}

/// Ingest one block into `buf` in place, without reallocation.
pub fn slide_ingest(buf: &mut Vec<i64>, block: &Vec<i64>)
    ensures
        final(buf)@ == slide_spec(old(buf)@, block@),
        final(buf).len() == old(buf).len(),
{
    let n = buf.len();
    let k = block.len();
    if k < n {
        let mut i: usize = 0;
        while i < n - k
            invariant
                k < n,
                buf.len() == n,
                k == block.len(),
                i <= n - k,
                forall|j: int| 0 <= j < i ==> buf@[j] == old(buf)@[j + k],
                forall|j: int| i <= j < n ==> buf@[j] == old(buf)@[j],
            decreases n - k - i,
        {
            let v: i64 = buf[i + k];
            buf[i] = v;
            i += 1;
        }
        let mut j: usize = 0;
        while j < k
            invariant
                k < n,
                buf.len() == n,
                k == block.len(),
                j <= k,
                forall|l: int| 0 <= l < n - k ==> buf@[l] == old(buf)@[l + k],
                forall|l: int| 0 <= l < j ==> buf@[n - k + l] == block@[l],
            decreases k - j,
        {
            let v: i64 = block[j];
            buf[n - k + j] = v;
            j += 1;
        }
        proof {
            assert(buf@ =~= slide_spec(old(buf)@, block@));
        }
    } else {
        let mut i: usize = 0;
        while i < n
            invariant
                n <= k,
                buf.len() == n,
                k == block.len(),
                i <= n,
                forall|j: int| 0 <= j < i ==> buf@[j] == block@[k - n + j],
            decreases n - i,
        {
            let v: i64 = block[k - n + i];
            buf[i] = v;
            i += 1;
        }
        proof {
            assert(buf@ =~= slide_spec(old(buf)@, block@));
        }
    }
}

/// Elementwise product of the window coefficients and the buffer, the
/// transient frame handed to the spectral transform.
pub fn apply_window(coefs: &Vec<i64>, samples: &Vec<i64>, out: &mut Vec<i64>)
    requires
        coefs.len() == samples.len(),
        old(out).len() == samples.len(),
        forall|i: int| 0 <= i < coefs.len() ==> coef_in_range(coefs@[i] as int),
        forall|i: int| 0 <= i < samples.len() ==> fp_in_range(samples@[i] as int),
    ensures
        final(out).len() == old(out).len(),
        forall|i: int|
            0 <= i < final(out).len() ==> final(out)@[i] == fp_mul_spec(
                coefs@[i] as int,
                samples@[i] as int,
            ),
{
    let n = samples.len();
    let mut i: usize = 0;
    while i < n
        invariant
            n == samples.len(),
            coefs.len() == n,
            out.len() == n,
            i <= n,
            forall|j: int| 0 <= j < n ==> coef_in_range(coefs@[j] as int),
            forall|j: int| 0 <= j < n ==> fp_in_range(samples@[j] as int),
            forall|j: int|
                0 <= j < i ==> out@[j] == fp_mul_spec(coefs@[j] as int, samples@[j] as int),
        decreases n - i,
    {
        let v: i64 = fp_mul(coefs[i], samples[i]);
        out[i] = v;
        i += 1;
    }
}

/// Capture-side state: sliding buffer, coefficient table and the
/// windowed frame, all preallocated at construction and reused for
/// every block.
pub struct FftCompute {
    sliding: Vec<i64>,
    window: Vec<i64>,
    coefs: Vec<i64>,
}

impl FftCompute {
    /// The samples currently held, oldest first.
    pub closed spec fn sliding_spec(self) -> Seq<i64> {
        self.sliding@
    }

    /// The windowed frame produced by the last block.
    pub closed spec fn frame_spec(self) -> Seq<i64> {
        self.window@
    }

    /// The window coefficient table.
    pub closed spec fn coefs_spec(self) -> Seq<i64> {
        self.coefs@
    }

    /// The transform size `N`.
    pub closed spec fn size(self) -> int {
        self.sliding@.len() as int
    }

    /// Structural invariant: all three tables have length `N`, the
    /// samples are in fixed-point range and the coefficients in the
    /// window range.
    pub open spec fn wf(self) -> bool {
        &&& 0 < self.size() <= MAX_N
        &&& self.sliding_spec().len() == self.size()
        &&& self.frame_spec().len() == self.size()
        &&& self.coefs_spec().len() == self.size()
        &&& forall|i: int| 0 <= i < self.size() ==> fp_in_range(self.sliding_spec()[i] as int)
        &&& forall|i: int| 0 <= i < self.size() ==> coef_in_range(self.coefs_spec()[i] as int)
    }

    /// Build the capture-side state for transform size `len`: a zeroed
    /// history and the coefficient table of the chosen window.
    pub fn new(len: usize, kind: WindowKind) -> (r: FftCompute)
        requires
            0 < len <= MAX_N,
        ensures
            r.wf(),
            r.size() == len,
            forall|i: int| 0 <= i < len ==> r.sliding_spec()[i] == 0i64,
            forall|i: int| 0 <= i < len ==> r.frame_spec()[i] == 0i64,
            forall|i: int| 0 <= i < len ==> r.coefs_spec()[i] == window_coef_spec(
                kind,
                i,
                len as int,
            ),
    {
        let sliding: Vec<i64> = vec![0i64; len];
        let window: Vec<i64> = vec![0i64; len];
        let mut coefs: Vec<i64> = vec![0i64; len];
        match kind {
            WindowKind::Hann => hann_window(&mut coefs),
            WindowKind::Blackman => blackman_window(&mut coefs),
        }
        FftCompute { sliding, window, coefs }
    }

    /// Per-block work: slide the buffer and recompute the windowed
    /// frame.  The spectral transform itself consumes the frame
    /// outside this type.
    pub fn callback(&mut self, samples: &Vec<i64>)
        requires
            old(self).wf(),
            forall|j: int| 0 <= j < samples.len() ==> fp_in_range(samples@[j] as int),
        ensures
            final(self).wf(),
            final(self).size() == old(self).size(),
            final(self).coefs_spec() == old(self).coefs_spec(),
            final(self).sliding_spec() == slide_spec(old(self).sliding_spec(), samples@),
            forall|i: int|
                0 <= i < final(self).size() ==> final(self).frame_spec()[i] == fp_mul_spec(
                    final(self).coefs_spec()[i] as int,
                    final(self).sliding_spec()[i] as int,
                ),
    {
        slide_ingest(&mut self.sliding, samples);
        proof {
            let merged = old(self).sliding@ + samples@;
            let k = samples@.len() as int;
            let n = old(self).sliding@.len() as int;
            assert forall|i: int| 0 <= i < self.sliding@.len() implies fp_in_range(
                self.sliding@[i] as int,
            ) by {
                assert(self.sliding@[i] == merged[i + k]);
                if i + k < n {
                    assert(merged[i + k] == old(self).sliding_spec()[i + k]);
                    assert(fp_in_range(old(self).sliding_spec()[i + k] as int));
                } else {
                    assert(merged[i + k] == samples@[i + k - n]);
                }
            };
        }
        apply_window(&self.coefs, &self.sliding, &mut self.window);
    }

    /// Read access to the windowed frame, for the transform stage.
    pub fn frame(&self) -> (r: &Vec<i64>)
        ensures
            r@ == self.frame_spec(),
    {
        &self.window
    }

    /// Read access to the sample history, oldest first.
    pub fn sliding(&self) -> (r: &Vec<i64>)
        ensures
            r@ == self.sliding_spec(),
    {
        &self.sliding
    }

    /// Read access to the window coefficient table.
    pub fn coefs(&self) -> (r: &Vec<i64>)
        ensures
            r@ == self.coefs_spec(),
    {
        &self.coefs
    }

    /// The transform size `N`.
    pub fn len(&self) -> (r: usize)
        ensures
            r as int == self.size(),
    {
        self.sliding.len()
    }
}

} // verus!
