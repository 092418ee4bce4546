use vstd::prelude::*;

verus! {

/// Samples whose magnitude stays below this count as near-silence.
pub const SILENCE_THRESHOLD: i16 = 500;

/// Number of samples over which two clips are crossfaded.
pub const CROSSFADE_LEN: usize = 500;

/// Whether a sample is near-silent.
pub open spec fn is_quiet(x: i16) -> bool {
    -(SILENCE_THRESHOLD as int) < x as int && (x as int) < SILENCE_THRESHOLD as int
}

/// One past the last loud sample among the first `k` samples of `s` (0 if none).
pub open spec fn loud_end(s: Seq<i16>, k: int) -> int
    decreases k,
{
    if k <= 0 {
        0
    } else if is_quiet(s[k - 1]) {
        loud_end(s, k - 1)
    } else {
        k
    }
}

/// Index of the first loud sample of `s` at or after `k` (the length if none).
pub open spec fn loud_start(s: Seq<i16>, k: int) -> int
    decreases s.len() - k,
{
    if k >= s.len() {
        s.len() as int
    } else if is_quiet(s[k]) {
        loud_start(s, k + 1)
    } else {
        k
    }
}

/// The number of samples kept when trailing near-silence is trimmed.
pub open spec fn trailing_edge_of(s: Seq<i16>) -> int {
    loud_end(s, s.len() as int)
}

/// The onset: where leading near-silence ends.
pub open spec fn leading_edge_of(s: Seq<i16>) -> int {
    loud_start(s, 0)
}

proof fn lemma_loud_end(s: Seq<i16>, k: int)
    requires
        0 <= k <= s.len(),
    ensures
        0 <= loud_end(s, k) <= k,
        forall|j: int| loud_end(s, k) <= j < k ==> is_quiet(#[trigger] s[j]),
        loud_end(s, k) == 0 || !is_quiet(s[loud_end(s, k) - 1]),
    decreases k,
{
    if k > 0 && is_quiet(s[k - 1]) {
        lemma_loud_end(s, k - 1);
    }
}

proof fn lemma_loud_start(s: Seq<i16>, k: int)
    requires
        0 <= k <= s.len(),
    ensures
        k <= loud_start(s, k) <= s.len(),
        forall|j: int| k <= j < loud_start(s, k) ==> is_quiet(#[trigger] s[j]),
        loud_start(s, k) == s.len() || !is_quiet(s[loud_start(s, k)]),
    decreases s.len() - k,
{
    if k < s.len() && is_quiet(s[k]) {
        lemma_loud_start(s, k + 1);
    }
}

fn quiet(x: i16) -> (r: bool)
    ensures
        r == is_quiet(x),
{
    -SILENCE_THRESHOLD < x && x < SILENCE_THRESHOLD
}

/// The count of samples to keep once trailing near-silence is trimmed: one
/// past the last loud sample, or 0 when every sample is near-silent.
pub fn trailing_edge(samples: &Vec<i16>) -> (r: usize)
    ensures
        r == trailing_edge_of(samples@),
        r <= samples@.len(),
        forall|j: int| r <= j < samples@.len() ==> is_quiet(#[trigger] samples@[j]),
        r == 0 || !is_quiet(samples@[r - 1]),
{
    proof {
        lemma_loud_end(samples@, samples@.len() as int);
    }
    let mut end = samples.len();
    while end > 0 && quiet(samples[end - 1])
        invariant
            end <= samples@.len(),
            loud_end(samples@, end as int) == trailing_edge_of(samples@),
        decreases end,
    {
        end = end - 1;
    }
    end
}

/// The onset of `samples`: the index of the first loud sample, or the length
/// when every sample is near-silent.
pub fn leading_edge(samples: &Vec<i16>) -> (r: usize)
    ensures
        r == leading_edge_of(samples@),
        r <= samples@.len(),
        forall|j: int| 0 <= j < r ==> is_quiet(#[trigger] samples@[j]),
        r == samples@.len() || !is_quiet(samples@[r as int]),
{
    proof {
        lemma_loud_start(samples@, 0);
    }
    let mut start: usize = 0;
    while start < samples.len() && quiet(samples[start])
        invariant
            start <= samples@.len(),
            loud_start(samples@, start as int) == leading_edge_of(samples@),
        decreases samples@.len() - start,
    {
        start = start + 1;
    }
    start
}

/// Division that truncates toward zero, as integer division in Rust does.
pub open spec fn div_trunc(n: int, d: int) -> int {
    if n >= 0 {
        n / d
    } else {
        -((-n) / d)
    }
}

/// The blended sample at step `i` of a window of `w` steps: `a` weighted by
/// `(w - i) / w` plus `b` weighted by `i / w`, truncated to an integer.
pub open spec fn mix(a: i16, b: i16, w: int, i: int) -> int {
    div_trunc(a as int * (w - i) + b as int * i, w)
}

/// Where the crossfade starts in the first clip: `w` samples before its
/// trailing edge, or at 0.
pub open spec fn crossfade_start(a: Seq<i16>, w: int) -> int {
    let end = trailing_edge_of(a);
    if end > w {
        end - w
    } else {
        0
    }
}

pub open spec fn min(x: int, y: int) -> int {
    if x <= y {
        x
    } else {
        y
    }
}

/// How many window steps find a sample in both clips.
pub open spec fn window_count(a: Seq<i16>, b: Seq<i16>, w: int) -> int {
    min(w, min(a.len() - crossfade_start(a, w), b.len() - leading_edge_of(b)))
}

/// The blended samples of the window.
pub open spec fn window_of(a: Seq<i16>, b: Seq<i16>, w: int) -> Seq<i16> {
    let cs = crossfade_start(a, w);
    let s2 = leading_edge_of(b);
    Seq::new(window_count(a, b, w) as nat, |i: int| mix(a[cs + i], b[s2 + i], w, i) as i16)
}

/// What follows the window: the second clip from `w` samples past its onset.
pub open spec fn tail_of(b: Seq<i16>, w: int) -> Seq<i16> {
    b.subrange(min(leading_edge_of(b) + w, b.len() as int), b.len() as int)
}

/// The spliced clip: the first clip up to the crossfade, the window, then
/// the rest of the second clip.
pub open spec fn blend_of(a: Seq<i16>, b: Seq<i16>, w: int) -> Seq<i16> {
    a.subrange(0, crossfade_start(a, w)) + window_of(a, b, w) + tail_of(b, w)
}

proof fn lemma_mix_range(a: i16, b: i16, w: int, i: int)
    requires
        0 <= i < w,
    ensures
        i16::MIN <= mix(a, b, w, i) <= i16::MAX,
{
    let n = a as int * (w - i) + b as int * i;
    assert(-32768 * w <= n <= 32767 * w) by (nonlinear_arith)
        requires
            n == a as int * (w - i) + b as int * i,
            0 <= i < w,
            -32768 <= a <= 32767,
            -32768 <= b <= 32767,
    ;
    if n >= 0 {
        assert(n / w <= 32767) by (nonlinear_arith)
            requires
                0 <= n <= 32767 * w,
                w > 0,
        ;
        assert(n / w >= 0) by (nonlinear_arith)
            requires
                0 <= n,
                w > 0,
        ;
    } else {
        assert((-n) / w <= 32768) by (nonlinear_arith)
            requires
                0 < -n <= 32768 * w,
                w > 0,
        ;
        assert((-n) / w >= 0) by (nonlinear_arith)
            requires
                0 < -n,
                w > 0,
        ;
    }
}

/// One blended window sample.
fn mix_sample(a: i16, b: i16, w: usize, i: usize) -> (r: i16)
    requires
        i < w,
    ensures
        r as int == mix(a, b, w as int, i as int),
{
    proof {
        lemma_mix_range(a, b, w as int, i as int);
    }
    assert(-32768 * (w - i) <= a as int * (w - i) <= 32767 * (w - i)) by (nonlinear_arith)
        requires
            -32768 <= a <= 32767,
            i < w,
    ;
    assert(-32768 * i <= b as int * i <= 32767 * i) by (nonlinear_arith)
        requires
            -32768 <= b <= 32767,
            0 <= i,
    ;
    let n: i128 = a as i128 * (w - i) as i128 + b as i128 * i as i128;
    let q: i128 = if n >= 0 {
        n / w as i128
    } else {
        -((-n) / w as i128)
    };
    q as i16
}

/// Splices `second` onto `first` across a crossfade of `window_len` samples.
///
/// The first clip is kept up to `window_len` samples before its trailing
/// edge; then, for as long as both clips have samples, the window blends the
/// first clip from there with the second clip from its onset, with linear
/// weights; then the second clip follows from `window_len` samples past its
/// onset.
pub fn blend(first: &Vec<i16>, second: &Vec<i16>, window_len: usize) -> (r: Vec<i16>)
    ensures
        r@ == blend_of(first@, second@, window_len as int),
        r@.len() == crossfade_start(first@, window_len as int) + window_count(
            first@,
            second@,
            window_len as int,
        ) + tail_of(second@, window_len as int).len(),
{
    let end1 = trailing_edge(first);
    let start2 = leading_edge(second);
    let cs: usize = if end1 > window_len {
        end1 - window_len
    } else {
        0
    };
    let ghost a = first@;
    let ghost b = second@;
    let ghost w = window_len as int;
    let mut out: Vec<i16> = Vec::new();
    let mut i: usize = 0;
    while i < cs
        invariant
            cs == crossfade_start(a, w),
            cs <= a.len(),
            i <= cs,
            a == first@,
            out@ == a.subrange(0, i as int),
        decreases cs - i,
    {
        out.push(first[i]);
        i = i + 1;
    }
    let room1 = first.len() - cs;
    let room2 = second.len() - start2;
    let mut m = window_len;
    if room1 < m {
        m = room1;
    }
    if room2 < m {
        m = room2;
    }
    assert(m == window_count(a, b, w));
    let mut k: usize = 0;
    while k < m
        invariant
            a == first@,
            b == second@,
            w == window_len,
            cs == crossfade_start(a, w),
            start2 == leading_edge_of(b),
            m == window_count(a, b, w),
            m <= w,
            cs + m <= first.len(),
            start2 + m <= second.len(),
            k <= m,
            out@ == a.subrange(0, cs as int) + window_of(a, b, w).take(k as int),
        decreases m - k,
    {
        let x = mix_sample(first[cs + k], second[start2 + k], window_len, k);
        proof {
            lemma_mix_range(a[cs + k], b[start2 + k], w, k as int);
        }
        out.push(x);
        assert(window_of(a, b, w).take(k + 1) == window_of(a, b, w).take(k as int).push(x));
        k = k + 1;
    }
    assert(window_of(a, b, w).take(m as int) == window_of(a, b, w));
    let from: usize = if window_len < room2 {
        start2 + window_len
    } else {
        second.len()
    };
    let mut j: usize = from;
    while j < second.len()
        invariant
            a == first@,
            b == second@,
            from == min(leading_edge_of(b) + w, b.len() as int),
            from <= j <= b.len(),
            cs == crossfade_start(a, w),
            cs <= a.len(),
            out@ == a.subrange(0, cs as int) + window_of(a, b, w) + b.subrange(
                from as int,
                j as int,
            ),
        decreases b.len() - j,
    {
        out.push(second[j]);
        assert(b.subrange(from as int, j + 1) == b.subrange(from as int, j as int).push(b[j as int]));
        j = j + 1;
    }
    out
}

/// Splices two letter clips with the standard crossfade window.
pub fn murph_sound(first: &Vec<i16>, second: &Vec<i16>) -> (r: Vec<i16>)
    ensures
        r@ == blend_of(first@, second@, CROSSFADE_LEN as int),
{
    blend(first, second, CROSSFADE_LEN)
}

pub open spec fn abs(x: int) -> int {
    if x < 0 {
        -x
    } else {
        x
    }
}

/// When both clips are longer than the window and the second clip keeps a
/// whole window after its onset, the spliced clip is as long as the part of
/// the first clip before the crossfade, plus the window, plus the rest of
/// the second clip after the window.
pub proof fn lemma_blend_length(a: Seq<i16>, b: Seq<i16>, w: usize)
    requires
        a.len() > w,
        b.len() > w,
        leading_edge_of(b) + w <= b.len(),
    ensures
        blend_of(a, b, w as int).len() == crossfade_start(a, w as int) + w + (b.len()
            - leading_edge_of(b) - w),
{
    lemma_loud_end(a, a.len() as int);
    lemma_loud_start(b, 0);
}

proof fn lemma_last_step_closer(a: i16, b: i16, w: int)
    requires
        w >= 3,
        a == b || (w - 2) * abs(b - a) >= 2 * w,
    ensures
        abs(mix(a, b, w, w - 1) - b) <= abs(mix(a, b, w, w - 1) - a),
{
    let n = a as int * (w - (w - 1)) + b as int * (w - 1);
    let v = mix(a, b, w, w - 1);
    let d = b - a;
    assert(n == w * b - d) by (nonlinear_arith)
        requires
            n == a as int * (w - (w - 1)) + b as int * (w - 1),
            d == b - a,
    ;
    if n >= 0 {
        assert(w * (n / w) <= n < w * (n / w) + w) by (nonlinear_arith)
            requires
                n >= 0,
                w > 0,
        ;
        assert(v == n / w);
        assert(-w < w * v - n < w) by (nonlinear_arith)
            requires
                v == n / w,
                w * (n / w) <= n < w * (n / w) + w,
        ;
    } else {
        assert(w * ((-n) / w) <= -n < w * ((-n) / w) + w) by (nonlinear_arith)
            requires
                n < 0,
                w > 0,
        ;
        assert(v == -((-n) / w));
        assert(-w < w * v - n < w) by (nonlinear_arith)
            requires
                v == -((-n) / w),
                w * ((-n) / w) <= -n < w * ((-n) / w) + w,
        ;
    }
    let e = w * v - n;
    let x = v - b;
    let y = v - a;
    assert(w * x == e - d && w * y == e + (w - 1) * d) by (nonlinear_arith)
        requires
            e == w * v - n,
            n == w * b - d,
            x == v - b,
            y == v - a,
            d == b - a,
    ;
    assert(abs(e - d) <= abs(e + (w - 1) * d)) by (nonlinear_arith)
        requires
            -w < e < w,
            w >= 3,
            d == 0 || (w - 2) * abs(d) >= 2 * w,
    ;
    assert(abs(x) <= abs(y)) by (nonlinear_arith)
        requires
            abs(w * x) <= abs(w * y),
            w > 0,
    ;
}

/// At the first window position the blended sample is the first clip's own
/// sample, so it lies at least as close to that sample as to the second
/// clip's. At the last position of a full window it lies at least as close to
/// the second clip's sample as to the first clip's, as long as the two
/// samples are equal or far enough apart that truncation cannot swap the
/// order: `(w - 2) * |b - a| >= 2 * w`.
pub proof fn lemma_window_edges(a: Seq<i16>, b: Seq<i16>, w: usize)
    requires
        w >= 3,
        window_count(a, b, w as int) == w,
    ensures
        ({
            let cs = crossfade_start(a, w as int);
            let s2 = leading_edge_of(b);
            let out = blend_of(a, b, w as int);
            &&& out[cs] == a[cs]
            &&& abs(out[cs] - a[cs]) <= abs(out[cs] - b[s2])
            &&& (a[cs + w - 1] == b[s2 + w - 1] || (w - 2) * abs(b[s2 + w - 1] - a[cs + w - 1])
                >= 2 * w) ==> abs(out[cs + w - 1] - b[s2 + w - 1]) <= abs(
                out[cs + w - 1] - a[cs + w - 1],
            )
        }),
{
    let cs = crossfade_start(a, w as int);
    let s2 = leading_edge_of(b);
    let out = blend_of(a, b, w as int);
    let win = window_of(a, b, w as int);
    lemma_loud_end(a, a.len() as int);
    lemma_loud_start(b, 0);
    assert(out[cs] == win[0]);
    assert(out[cs + w - 1] == win[w - 1]);
    lemma_mix_range(a[cs], b[s2], w as int, 0);
    lemma_mix_range(a[cs + w - 1], b[s2 + w - 1], w as int, w - 1);
    assert(mix(a[cs], b[s2], w as int, 0) == a[cs]) by (nonlinear_arith)
        requires
            w > 0,
    ;
    if a[cs + w - 1] == b[s2 + w - 1] || (w - 2) * abs(b[s2 + w - 1] - a[cs + w - 1]) >= 2 * w {
        lemma_last_step_closer(a[cs + w - 1], b[s2 + w - 1], w as int);
    }
}

} // verus!
