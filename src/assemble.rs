use vstd::prelude::*;
use vstd::string::StringExecFns;
use crate::parser::LetterLiteral;
use crate::sound::{blend_of, murph_sound, CROSSFADE_LEN};

verus! {

/// Whether a letter is a Maltese vowel: a, e, i, ie, o or u.
pub open spec fn vowel(l: LetterLiteral) -> bool {
    l is A || l is E || l is I || l is IE || l is O || l is U
}

/// Whether `letter` is a vowel.
pub fn is_vowel(letter: &LetterLiteral) -> (r: bool)
    ensures
        r == vowel(*letter),
{
    matches!(
        letter,
        LetterLiteral::A | LetterLiteral::E | LetterLiteral::I | LetterLiteral::IE
            | LetterLiteral::O | LetterLiteral::U
    )
}

/// Whether `letter` is a consonant, that is, no vowel.
pub fn is_consonant(letter: &LetterLiteral) -> (r: bool)
    ensures
        r == !vowel(*letter),
{
    !is_vowel(letter)
}

/// One decision of the assembler.
#[derive(Debug, Clone, Copy, PartialEq, Eq, Structural)]
pub enum Step {
    /// Blend the clip of the letter at this position with the next one's.
    Blend(usize),
    /// Append the clip of the letter at this position unchanged.
    Copy(usize),
}

/// Whether the letters at `i` and `i + 1` are a consonant and a vowel.
pub open spec fn pairs_at(word: Seq<LetterLiteral>, i: int) -> bool {
    i + 1 < word.len() && !vowel(word[i]) && vowel(word[i + 1])
}

/// The decisions taken from position `i` to the end of the word.
pub open spec fn plan_from(word: Seq<LetterLiteral>, i: int) -> Seq<Step>
    decreases word.len() - i,
{
    if i < 0 || i >= word.len() {
        Seq::empty()
    } else if pairs_at(word, i) {
        seq![Step::Blend(i as usize)] + plan_from(word, i + 2)
    } else {
        seq![Step::Copy(i as usize)] + plan_from(word, i + 1)
    }
}

/// One transition of the assembler at position `i`: the decision taken
/// there and the position that follows.
pub fn next_step(word: &Vec<LetterLiteral>, i: usize) -> (r: (Step, usize))
    requires
        i < word@.len(),
    ensures
        pairs_at(word@, i as int) ==> r == (Step::Blend(i), (i + 2) as usize),
        !pairs_at(word@, i as int) ==> r == (Step::Copy(i), (i + 1) as usize),
{
    if i < word.len() - 1 && is_consonant(&word[i]) && is_vowel(&word[i + 1]) {
        (Step::Blend(i), i + 2)
    } else {
        (Step::Copy(i), i + 1)
    }
}

/// Every decision the assembler takes on a word, in order.
pub fn plan_word(word: &Vec<LetterLiteral>) -> (r: Vec<Step>)
    ensures
        r@ == plan_from(word@, 0),
{
    let mut out: Vec<Step> = Vec::new();
    let mut i: usize = 0;
    while i < word.len()
        invariant
            i <= word@.len() + 1,
            plan_from(word@, 0) == out@ + plan_from(word@, i as int),
        decreases word@.len() + 1 - i,
    {
        let (s, next) = next_step(word, i);
        let ghost before = out@;
        out.push(s);
        assert(before + plan_from(word@, i as int) == out@ + plan_from(word@, next as int));
        i = next;
    }
    out
}

/// How the samples of a clip are encoded.
#[derive(Debug, Clone, Copy, PartialEq, Eq, Structural)]
pub enum SampleFormat {
    Float,
    Int,
}

/// The format of a clip.
#[derive(Debug, Clone, Copy, PartialEq, Eq, Structural)]
pub struct ClipFormat {
    pub channels: u16,
    pub sample_rate: u32,
    pub bits_per_sample: u16,
    pub sample_format: SampleFormat,
}

/// A clip: its format and its samples.
#[derive(Debug)]
pub struct Clip {
    pub format: ClipFormat,
    pub samples: Vec<i16>,
}

/// Appending needs the same channel count, sample rate, bit depth and
/// sample format.
pub open spec fn same_layout(a: ClipFormat, b: ClipFormat) -> bool {
    a.channels == b.channels && a.sample_rate == b.sample_rate && a.bits_per_sample
        == b.bits_per_sample && a.sample_format == b.sample_format
}

/// Whether a clip of format `b` can be appended to one of format `a`.
pub fn layouts_match(a: &ClipFormat, b: &ClipFormat) -> (r: bool)
    ensures
        r == same_layout(*a, *b),
{
    a.channels == b.channels && a.sample_rate == b.sample_rate && a.bits_per_sample
        == b.bits_per_sample && a.sample_format == b.sample_format
}

/// Whether two formats differ in any field.
pub fn formats_differ(a: &ClipFormat, b: &ClipFormat) -> (r: bool)
    ensures
        r == (*a != *b),
{
    !(a == b)
}

/// Why appending a clip to a word failed.
#[derive(Debug, PartialEq, Eq, Structural)]
pub enum AppendError {
    /// The clip's layout differs from the word's.
    FormatMismatch,
}

impl AppendError {
    /// The human-readable message of this error.
    pub fn to_string(&self) -> (r: String)
        ensures
            r@ == "Source and target WAV files have different specifications"@,
    {
        String::from_str("Source and target WAV files have different specifications")
    }
}

/// A word's buffer as a model: its format and samples, once it exists.
pub open spec fn buffer_of(b: Option<Clip>) -> Option<(ClipFormat, Seq<i16>)> {
    match b {
        Some(c) => Some((c.format, c.samples@)),
        None => None,
    }
}

/// Appending a clip of format `f` and samples `s` to a buffer: a missing
/// buffer is created with the clip's format; an existing one must have the
/// same layout, and then takes the clip's format and grows by its samples.
pub open spec fn append_to(
    acc: Option<(ClipFormat, Seq<i16>)>,
    f: ClipFormat,
    s: Seq<i16>,
) -> Result<Option<(ClipFormat, Seq<i16>)>, AppendError> {
    match acc {
        None => Ok(Some((f, s))),
        Some((g, t)) => if same_layout(f, g) {
            Ok(Some((f, t + s)))
        } else {
            Err(AppendError::FormatMismatch)
        },
    }
}

fn copy_samples(v: &Vec<i16>) -> (r: Vec<i16>)
    ensures
        r@ == v@,
{
    let mut out: Vec<i16> = Vec::new();
    let mut i: usize = 0;
    while i < v.len()
        invariant
            i <= v@.len(),
            out@ == v@.take(i as int),
        decreases v@.len() - i,
    {
        out.push(v[i]);
        i = i + 1;
        assert(out@ == v@.take(i as int));
    }
    assert(v@.take(v@.len() as int) == v@);
    out
}

/// Appends a clip to a word's buffer. On a format mismatch the buffer is
/// left as it was.
pub fn append_clip(buffer: &mut Option<Clip>, format: ClipFormat, samples: &Vec<i16>) -> (r: Result<
    (),
    AppendError,
>)
    ensures
        match append_to(buffer_of(*old(buffer)), format, samples@) {
            Ok(b) => r is Ok && buffer_of(*final(buffer)) == b,
            Err(e) => r == Err::<(), AppendError>(e) && buffer_of(*final(buffer)) == buffer_of(
                *old(buffer),
            ),
        },
{
    match buffer {
        None => {
            *buffer = Some(Clip { format, samples: copy_samples(samples) });
            Ok(())
        },
        Some(target) => {
            if !layouts_match(&format, &target.format) {
                return Err(AppendError::FormatMismatch);
            }
            let mut i: usize = 0;
            let ghost start = target.samples@;
            while i < samples.len()
                invariant
                    i <= samples@.len(),
                    target.samples@ == start + samples@.take(i as int),
                decreases samples@.len() - i,
            {
                target.samples.push(samples[i]);
                i = i + 1;
                assert(start + samples@.take(i as int) == target.samples@);
            }
            assert(samples@.take(samples@.len() as int) == samples@);
            target.format = format;
            Ok(())
        },
    }
}

/// The format and samples that one decision appends.
pub open spec fn step_output(clips: Seq<Clip>, s: Step) -> (ClipFormat, Seq<i16>) {
    match s {
        Step::Blend(i) => (
            clips[i as int].format,
            blend_of(clips[i as int].samples@, clips[i + 1].samples@, CROSSFADE_LEN as int),
        ),
        Step::Copy(i) => (clips[i as int].format, clips[i as int].samples@),
    }
}

/// The buffer after carrying out `steps` in order, starting from `acc`.
pub open spec fn run_steps(
    clips: Seq<Clip>,
    steps: Seq<Step>,
    acc: Option<(ClipFormat, Seq<i16>)>,
) -> Result<Option<(ClipFormat, Seq<i16>)>, AppendError>
    decreases steps.len(),
{
    if steps.len() == 0 {
        Ok(acc)
    } else {
        let (f, s) = step_output(clips, steps[0]);
        match append_to(acc, f, s) {
            Ok(next) => run_steps(clips, steps.drop_first(), next),
            Err(e) => Err(e),
        }
    }
}

/// The buffer that a word assembles to, from an empty start.
pub open spec fn assembled(word: Seq<LetterLiteral>, clips: Seq<Clip>) -> Result<
    Option<(ClipFormat, Seq<i16>)>,
    AppendError,
> {
    run_steps(clips, plan_from(word, 0), None)
}

proof fn lemma_plan_positions(word: Seq<LetterLiteral>, i: int)
    requires
        0 <= i,
        word.len() <= usize::MAX,
    ensures
        forall|k: int|
            0 <= k < plan_from(word, i).len() ==> match #[trigger] plan_from(word, i)[k] {
                Step::Blend(j) => i <= j && j + 1 < word.len(),
                Step::Copy(j) => i <= j && j < word.len(),
            },
    decreases word.len() - i,
{
    if i < word.len() {
        let next = if pairs_at(word, i) {
            i + 2
        } else {
            i + 1
        };
        lemma_plan_positions(word, next);
        let p = plan_from(word, i);
        assert forall|k: int| 0 < k < p.len() implies #[trigger] p[k] == plan_from(word, next)[k
            - 1] by {}
    }
}

/// Assembles one word: walks its decisions in order, blending each
/// consonant with the vowel after it and copying every other letter, and
/// appends each result to the word's buffer. `clips[k]` is the clip of the
/// letter at position `k`. The buffer stays empty for an empty word.
pub fn assemble_word(word: &Vec<LetterLiteral>, clips: &Vec<Clip>) -> (r: Result<
    Option<Clip>,
    AppendError,
>)
    requires
        clips@.len() == word@.len(),
    ensures
        match assembled(word@, clips@) {
            Ok(b) => r matches Ok(c) && buffer_of(c) == b,
            Err(e) => r == Err::<Option<Clip>, AppendError>(e),
        },
{
    let steps = plan_word(word);
    let nw = word.len();
    proof {
        lemma_plan_positions(word@, 0);
    }
    let mut buffer: Option<Clip> = None;
    let mut k: usize = 0;
    assert(steps@.skip(0) == steps@);
    while k < steps.len()
        invariant
            steps@ == plan_from(word@, 0),
            clips@.len() == word@.len(),
            nw == word@.len(),
            k <= steps@.len(),
            forall|m: int|
                0 <= m < steps@.len() ==> match #[trigger] steps@[m] {
                    Step::Blend(j) => j + 1 < word@.len(),
                    Step::Copy(j) => j < word@.len(),
                },
            assembled(word@, clips@) == run_steps(clips@, steps@.skip(k as int), buffer_of(buffer)),
        decreases steps@.len() - k,
    {
        let ghost rest = steps@.skip(k as int);
        assert(rest[0] == steps@[k as int]);
        assert(rest.drop_first() == steps@.skip(k + 1));
        let res = match steps[k] {
            Step::Blend(j) => {
                let mixed = murph_sound(&clips[j].samples, &clips[j + 1].samples);
                append_clip(&mut buffer, clips[j].format, &mixed)
            },
            Step::Copy(j) => append_clip(&mut buffer, clips[j].format, &clips[j].samples),
        };
        if let Err(e) = res {
            return Err(e);
        }
        k = k + 1;
    }
    Ok(buffer)
}

/// For a consonant, a vowel and a consonant, the assembler blends the first
/// two letters into one unit, jumps to the third and appends it alone: the
/// word's buffer is the blended pair followed by the third letter's clip, or
/// a format mismatch when the third clip's layout differs from the first's.
pub proof fn lemma_pairing(l: LetterLiteral, a: LetterLiteral, n: LetterLiteral, clips: Seq<Clip>)
    requires
        !vowel(l),
        vowel(a),
        !vowel(n),
        clips.len() == 3,
    ensures
        plan_from(seq![l, a, n], 0) == seq![Step::Blend(0), Step::Copy(2)],
        same_layout(clips[2].format, clips[0].format) ==> assembled(seq![l, a, n], clips) == Ok::<
            Option<(ClipFormat, Seq<i16>)>,
            AppendError,
        >(
            Some(
                (
                    clips[2].format,
                    blend_of(clips[0].samples@, clips[1].samples@, CROSSFADE_LEN as int)
                        + clips[2].samples@,
                ),
            ),
        ),
        !same_layout(clips[2].format, clips[0].format) ==> assembled(seq![l, a, n], clips)
            == Err::<Option<(ClipFormat, Seq<i16>)>, AppendError>(AppendError::FormatMismatch),
{
    let word = seq![l, a, n];
    assert(plan_from(word, 3) == Seq::<Step>::empty());
    assert(plan_from(word, 2) == seq![Step::Copy(2)]);
    assert(plan_from(word, 0) == seq![Step::Blend(0)] + plan_from(word, 2));
    let steps = seq![Step::Blend(0), Step::Copy(2)];
    assert(steps.drop_first() == seq![Step::Copy(2)]);
    assert(seq![Step::Copy(2)].drop_first() == Seq::<Step>::empty());
    assert(plan_from(word, 0) == steps);
    assert(assembled(word, clips) == run_steps(clips, steps, None));
    let first = step_output(clips, Step::Blend(0));
    let acc = Some(first);
    assert(run_steps(clips, steps, None) == run_steps(clips, seq![Step::Copy(2)], acc));
    let third = step_output(clips, Step::Copy(2));
    match append_to(acc, third.0, third.1) {
        Ok(b) => {
            assert(run_steps(clips, seq![Step::Copy(2)], acc) == run_steps(
                clips,
                Seq::<Step>::empty(),
                b,
            ));
        },
        Err(e) => {
            assert(run_steps(clips, seq![Step::Copy(2)], acc) == Err::<
                Option<(ClipFormat, Seq<i16>)>,
                AppendError,
            >(e));
        },
    }
}

} // verus!
