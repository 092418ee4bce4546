use maltese_speech::assemble::{
    append_clip, assemble_word, formats_differ, is_consonant, is_vowel, layouts_match, next_step,
    plan_word, AppendError, Clip, ClipFormat, SampleFormat, Step,
};
use maltese_speech::parser::{parse, LetterLiteral};
use maltese_speech::sound::murph_sound;

fn mono() -> ClipFormat {
    ClipFormat {
        channels: 1,
        sample_rate: 16000,
        bits_per_sample: 16,
        sample_format: SampleFormat::Int,
    }
}

fn clip(samples: Vec<i16>) -> Clip {
    Clip { format: mono(), samples }
}

fn word(text: &str) -> Vec<LetterLiteral> {
    parse(text).unwrap().iter().map(|l| l.letter).collect()
}

#[test]
fn vowels_and_consonants() {
    for l in [
        LetterLiteral::A,
        LetterLiteral::E,
        LetterLiteral::I,
        LetterLiteral::IE,
        LetterLiteral::O,
        LetterLiteral::U,
    ] {
        assert!(is_vowel(&l));
        assert!(!is_consonant(&l));
    }
    for l in [LetterLiteral::B, LetterLiteral::GHBar, LetterLiteral::HBar, LetterLiteral::Y] {
        assert!(!is_vowel(&l));
        assert!(is_consonant(&l));
    }
}

#[test]
fn consonant_vowel_consonant_pairs_first_two() {
    let w = vec![LetterLiteral::L, LetterLiteral::A, LetterLiteral::N];
    assert_eq!(next_step(&w, 0), (Step::Blend(0), 2));
    assert_eq!(next_step(&w, 2), (Step::Copy(2), 3));
    assert_eq!(plan_word(&w), vec![Step::Blend(0), Step::Copy(2)]);

    let clips = vec![
        clip(vec![1000, 1000]),
        clip(vec![2000, 2000]),
        clip(vec![5, 6, 7]),
    ];
    let out = assemble_word(&w, &clips).unwrap().unwrap();
    let mut expected = murph_sound(&clips[0].samples, &clips[1].samples);
    assert_eq!(expected, vec![1000, 1002]);
    expected.extend(vec![5, 6, 7]);
    assert_eq!(out.samples, expected);
    assert_eq!(out.format, mono());
}

#[test]
fn malti_decisions() {
    let w = word("malti");
    assert_eq!(
        w,
        vec![
            LetterLiteral::M,
            LetterLiteral::A,
            LetterLiteral::L,
            LetterLiteral::T,
            LetterLiteral::I
        ]
    );
    assert_eq!(plan_word(&w), vec![Step::Blend(0), Step::Copy(2), Step::Blend(3)]);
}

#[test]
fn vowel_first_and_consonant_runs_copy() {
    let w = word("abba");
    assert_eq!(plan_word(&w), vec![Step::Copy(0), Step::Copy(1), Step::Blend(2)]);
    assert_eq!(plan_word(&vec![]), vec![]);
    assert_eq!(plan_word(&vec![LetterLiteral::B]), vec![Step::Copy(0)]);
}

#[test]
fn append_creates_then_grows() {
    let mut buffer: Option<Clip> = None;
    assert!(append_clip(&mut buffer, mono(), &vec![1, 2]).is_ok());
    assert!(append_clip(&mut buffer, mono(), &vec![3]).is_ok());
    let b = buffer.unwrap();
    assert_eq!(b.samples, vec![1, 2, 3]);
    assert_eq!(b.format, mono());
}

#[test]
fn append_rejects_other_layout() {
    let mut buffer: Option<Clip> = Some(clip(vec![1, 2]));
    let stereo = ClipFormat { channels: 2, ..mono() };
    let r = append_clip(&mut buffer, stereo, &vec![3]);
    assert_eq!(r, Err(AppendError::FormatMismatch));
    assert_eq!(
        r.unwrap_err().to_string(),
        "Source and target WAV files have different specifications"
    );
    assert_eq!(buffer.unwrap().samples, vec![1, 2]);
}

#[test]
fn append_rejects_other_bit_depth() {
    let mut buffer: Option<Clip> = Some(clip(vec![1]));
    let deeper = ClipFormat { bits_per_sample: 24, ..mono() };
    assert_eq!(append_clip(&mut buffer, deeper, &vec![2]), Err(AppendError::FormatMismatch));
    let b = buffer.unwrap();
    assert_eq!(b.samples, vec![1]);
    assert_eq!(b.format, mono());
}

#[test]
fn format_checks() {
    let a = mono();
    let b = ClipFormat { sample_rate: 44100, ..mono() };
    let c = ClipFormat { bits_per_sample: 8, ..mono() };
    assert!(!formats_differ(&a, &a));
    assert!(formats_differ(&a, &b));
    assert!(formats_differ(&a, &c));
    assert!(!layouts_match(&a, &c));
    assert!(layouts_match(&a, &a));
    assert!(!layouts_match(&a, &b));
}

#[test]
fn assemble_fails_on_mismatch() {
    let w = word("bab");
    let clips = vec![
        clip(vec![1000]),
        clip(vec![2000]),
        Clip {
            format: ClipFormat { sample_format: SampleFormat::Float, ..mono() },
            samples: vec![1],
        },
    ];
    assert!(matches!(assemble_word(&w, &clips), Err(AppendError::FormatMismatch)));
}

#[test]
fn assemble_empty_word_has_no_buffer() {
    assert!(assemble_word(&vec![], &vec![]).unwrap().is_none());
}
