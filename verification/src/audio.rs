use vstd::prelude::*;

verus! {

/// Where captured audio comes from.
#[derive(Debug, Clone, Copy, PartialEq, Eq, Structural)]
pub enum AudioInputKind {
    Live,
    Mock,
}

/// Framing settings of an audio capture: frame length, hop between frame
/// starts, and sample rate, each in samples or samples per second.
#[derive(Debug, Clone, Copy, PartialEq, Eq, Structural)]
pub struct CaptureConfig {
    pub frame_size: usize,
    pub hop_size: usize,
    pub sample_rate_hz: u32,
}

impl CaptureConfig {
    /// Settings for a capture; a hop or a sample rate of zero is taken as one.
    pub fn new(frame_size: usize, hop_size: usize, sample_rate_hz: u32) -> (r: CaptureConfig)
        ensures
            r.frame_size == frame_size,
            r.hop_size == (if hop_size == 0 { 1 } else { hop_size }),
            r.sample_rate_hz == (if sample_rate_hz == 0 { 1 } else { sample_rate_hz }),
    {
        CaptureConfig {
            frame_size,
            hop_size: if hop_size == 0 { 1 } else { hop_size },
            sample_rate_hz: if sample_rate_hz == 0 { 1 } else { sample_rate_hz },
        }
    }
}

/// The hop actually used: a hop of zero advances by one sample.
pub open spec fn effective_hop(hop: nat) -> nat {
    if hop == 0 {
        1
    } else {
        hop
    }
}

/// How many frames of `frame` samples, starting every `hop` samples, fit in
/// `len` samples.
pub open spec fn frame_count(len: nat, frame: nat, hop: nat) -> nat {
    if frame == 0 || len < frame {
        0
    } else {
        ((len - frame) as nat / effective_hop(hop) + 1) as nat
    }
}

/// How many samples are dropped from the front of the buffer once its frames
/// have been taken: one hop per frame, never more than the buffer holds, and
/// everything when frames are empty.
pub open spec fn consumed_samples(len: nat, frame: nat, hop: nat) -> nat {
    if frame == 0 {
        len
    } else {
        let c = frame_count(len, frame, hop) * effective_hop(hop);
        if c < len {
            c
        } else {
            len
        }
    }
}

/// The frames of a sample stream, as `extract_sliding_frames` takes them.
pub open spec fn window_frames<T>(s: Seq<T>, frame: nat, hop: nat) -> Seq<Seq<T>> {
    Seq::new(
        frame_count(s.len(), frame, hop),
        |j: int| s.subrange(j * effective_hop(hop), j * effective_hop(hop) + frame),
    )
}

/// What remains of a sample stream once its frames have been taken.
pub open spec fn window_rest<T>(s: Seq<T>, frame: nat, hop: nat) -> Seq<T> {
    s.skip(consumed_samples(s.len(), frame, hop) as int)
}

proof fn lemma_frame_count(n: int, f: int, h: int, k: int)
    requires
        f >= 1,
        h >= 1,
        k >= 1,
        (k - 1) * h + f <= n,
        n - f < k * h,
    ensures
        k == (n - f) / h + 1,
{
    let q = (n - f) / h;
    let r = (n - f) % h;
    assert(n - f == q * h + r && 0 <= r < h) by (nonlinear_arith)
        requires
            h >= 1,
            n - f >= 0,
            q == (n - f) / h,
            r == (n - f) % h,
    ;
    assert(k - 1 == q) by (nonlinear_arith)
        requires
            (k - 1) * h <= q * h + r,
            q * h + r < k * h,
            0 <= r < h,
            h >= 1,
    ;
}

fn copy_range<T: Copy>(v: &Vec<T>, start: usize, end: usize) -> (r: Vec<T>)
    requires
        start <= end <= v@.len(),
    ensures
        r@ == v@.subrange(start as int, end as int),
{
    let mut r: Vec<T> = Vec::new();
    let mut i: usize = start;
    while i < end
        invariant
            start <= i <= end <= v@.len(),
            r@ == v@.subrange(start as int, i as int),
        decreases end - i,
    {
        r.push(v[i]);
        i = i + 1;
        assert(r@ =~= v@.subrange(start as int, i as int));
    }
    r
}

/// Takes every full frame from the front of `buffer`: frame `j` is the
/// `frame_size` samples that start at `j` hops, and the samples that frames
/// have consumed are removed from the buffer. A hop of zero advances one
/// sample; a frame size of zero gives no frames and empties the buffer.
pub fn extract_sliding_frames<T: Copy>(
    buffer: &mut Vec<T>,
    frame_size: usize,
    hop_size: usize,
) -> (frames: Vec<Vec<T>>)
    ensures
        frames@.len() == frame_count(old(buffer)@.len(), frame_size as nat, hop_size as nat),
        forall|j: int|
            0 <= j < frames@.len() ==> (#[trigger] frames@[j])@ == old(buffer)@.subrange(
                j * effective_hop(hop_size as nat),
                j * effective_hop(hop_size as nat) + frame_size,
            ),
        final(buffer)@ == old(buffer)@.skip(
            consumed_samples(old(buffer)@.len(), frame_size as nat, hop_size as nat) as int,
        ),
        frame_size > 0 ==> final(buffer)@.len() < frame_size,
        frames@.map_values(|v: Vec<T>| v@) == window_frames(
            old(buffer)@,
            frame_size as nat,
            hop_size as nat,
        ),
        final(buffer)@ == window_rest(old(buffer)@, frame_size as nat, hop_size as nat),
{
    let ghost original = buffer@;
    if frame_size == 0 {
        buffer.clear();
        assert(original.skip(original.len() as int) =~= Seq::<T>::empty());
        let none: Vec<Vec<T>> = Vec::new();
        assert(none@.map_values(|v: Vec<T>| v@) =~= window_frames(
            original,
            frame_size as nat,
            hop_size as nat,
        ));
        return none;
    }
    let hop: usize = if hop_size == 0 { 1 } else { hop_size };
    let n = buffer.len();
    let mut frames: Vec<Vec<T>> = Vec::new();
    let mut start: usize = 0;
    assert(frames@.len() * hop == 0) by (nonlinear_arith)
        requires
            frames@.len() == 0,
    ;
    while n - start >= frame_size
        invariant
            n == buffer@.len(),
            buffer@ == original,
            frame_size >= 1,
            hop == effective_hop(hop_size as nat),
            start <= n,
            start == frames@.len() * hop || (start == n && frames@.len() * hop >= n),
            frames@.len() >= 1 ==> (frames@.len() - 1) * hop + frame_size <= n,
            forall|j: int|
                0 <= j < frames@.len() ==> (#[trigger] frames@[j])@ == original.subrange(
                    j * hop,
                    j * hop + frame_size,
                ),
        decreases n - start,
    {
        let ghost k = frames@.len();
        assert(start == k * hop);
        let frame = copy_range(buffer, start, start + frame_size);
        frames.push(frame);
        let step = if hop < n - start { hop } else { n - start };
        start = start + step;
        assert((k + 1) * hop == k * hop + hop) by (nonlinear_arith);
    }
    proof {
        let k = frames@.len() as int;
        if k >= 1 {
            assert(n - frame_size < k * hop) by {
                if start == n {
                } else {
                    assert(start == k * hop);
                }
            }
            lemma_frame_count(n as int, frame_size as int, hop as int, k);
        } else {
            assert(n < frame_size);
        }
    }
    let rest = buffer.split_off(start);
    *buffer = rest;
    assert(frames@.map_values(|v: Vec<T>| v@) =~= window_frames(
        original,
        frame_size as nat,
        hop_size as nat,
    ));
    frames
}


proof fn lemma_consumed_is_hops(n: int, f: int, h: int)
    requires
        1 <= h <= f,
        n >= 0,
    ensures
        consumed_samples(n as nat, f as nat, h as nat) == frame_count(n as nat, f as nat, h as nat)
            * h,
        frame_count(n as nat, f as nat, h as nat) * h <= n,
{
    let c = frame_count(n as nat, f as nat, h as nat) as int;
    if n < f {
        assert(c == 0);
        assert(c * h == 0) by (nonlinear_arith)
            requires
                c == 0,
        ;
    } else {
        let q = (n - f) / h;
        assert(c == q + 1);
        assert(q * h <= n - f) by (nonlinear_arith)
            requires
                h >= 1,
                n - f >= 0,
                q == (n - f) / h,
        ;
        assert(c * h == q * h + h) by (nonlinear_arith)
            requires
                c == q + 1,
        ;
    }
}

/// Taking frames from a stream in two pieces gives the frames of the whole
/// stream, and leaves the same samples waiting, when the hop is at least one
/// sample and at most a frame: the frames of `a + b` are the frames of `a`
/// followed by the frames of what `a` left waiting followed by `b`.
pub proof fn lemma_streaming_frames<T>(a: Seq<T>, b: Seq<T>, frame: nat, hop: nat)
    requires
        1 <= hop <= frame,
    ensures
        window_frames(a + b, frame, hop) == window_frames(a, frame, hop) + window_frames(
            window_rest(a, frame, hop) + b,
            frame,
            hop,
        ),
        window_rest(a + b, frame, hop) == window_rest(window_rest(a, frame, hop) + b, frame, hop),
{
    let f = frame as int;
    let h = hop as int;
    let n = a.len() as int;
    let whole = a + b;
    let big_n = whole.len() as int;
    let c = frame_count(a.len(), frame, hop) as int;
    lemma_consumed_is_hops(n, f, h);
    let ch = c * h;
    let r = window_rest(a, frame, hop);
    let rb = r + b;
    assert(rb =~= whole.skip(ch));
    let c2 = frame_count(rb.len(), frame, hop) as int;
    assert(rb.len() == big_n - ch);
    let cw = frame_count(whole.len(), frame, hop) as int;
    if big_n - ch < f {
        assert(c2 == 0);
        if c >= 1 {
            assert((c - 1) * h + f <= n) by (nonlinear_arith)
                requires
                    c == (n - f) / h + 1,
                    h >= 1,
                    n - f >= 0,
            ;
            lemma_frame_count(big_n, f, h, c);
        }
        assert(cw == c);
    } else {
        let x = big_n - ch - f;
        assert(c2 == x / h + 1);
        assert((x + c * h) / h == x / h + c) by (nonlinear_arith)
            requires
                h >= 1,
                x >= 0,
        ;
        assert(cw == c + c2);
    }
    assert(cw == c + c2);
    let left = window_frames(whole, frame, hop);
    let right = window_frames(a, frame, hop) + window_frames(rb, frame, hop);
    assert forall|j: int| 0 <= j < cw implies #[trigger] left[j] == right[j] by {
        if j < c {
            assert(j * h <= (c - 1) * h) by (nonlinear_arith)
                requires
                    j <= c - 1,
                    h >= 1,
            ;
            assert((c - 1) * h + f <= n) by (nonlinear_arith)
                requires
                    c == (n - f) / h + 1,
                    h >= 1,
                    n - f >= 0,
            ;
            assert(j * h >= 0) by (nonlinear_arith)
                requires
                    j >= 0,
                    h >= 1,
            ;
            assert(whole.subrange(j * h, j * h + f) =~= a.subrange(j * h, j * h + f));
        } else {
            let jj = j - c;
            assert(j * h == ch + jj * h) by (nonlinear_arith)
                requires
                    jj == j - c,
                    ch == c * h,
            ;
            assert(jj * h >= 0) by (nonlinear_arith)
                requires
                    jj >= 0,
                    h >= 1,
            ;
            let m = rb.len() as int;
            assert(m >= f);
            assert(c2 == (m - f) / h + 1);
            assert((c2 - 1) * h <= m - f) by (nonlinear_arith)
                requires
                    c2 == (m - f) / h + 1,
                    h >= 1,
                    m - f >= 0,
            ;
            assert(jj * h <= (c2 - 1) * h) by (nonlinear_arith)
                requires
                    jj <= c2 - 1,
                    h >= 1,
            ;
            assert(whole.subrange(j * h, j * h + f) =~= rb.subrange(jj * h, jj * h + f));
        }
    }
    assert(left =~= right);
    lemma_consumed_is_hops(big_n, f, h);
    lemma_consumed_is_hops(big_n - ch, f, h);
    assert(cw * h == ch + c2 * h) by (nonlinear_arith)
        requires
            cw == c + c2,
            ch == c * h,
    ;
    assert(window_rest(whole, frame, hop) =~= window_rest(rb, frame, hop));
}

} // verus!
