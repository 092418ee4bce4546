use vstd::prelude::*;
use vstd::std_specs::iter::IteratorSpec;
use vstd::string::StringExecFns;

verus! {

/// Why a piece of text could not be segmented into letters.
#[derive(Debug)]
pub enum ParseError {
    /// A character (or a `c` without its dot) that is no Maltese letter.
    UnknownLetter(String),
    /// The text is empty, or holds whitespace only.
    InvalidInput(String),
}

/// One letter of the Maltese alphabet, digraphs included.
#[derive(Debug, Clone, Copy, PartialEq, Eq, Structural)]
pub enum LetterLiteral {
    A,
    B,
    CDot,
    D,
    E,
    F,
    G,
    GDot,
    HBar,
    H,
    GHBar,
    I,
    J,
    IE,
    K,
    L,
    M,
    N,
    O,
    P,
    Q,
    R,
    S,
    T,
    U,
    V,
    W,
    X,
    Y,
    ZDot,
    Z,
}

/// A letter of a word together with the clip that pronounces it.
#[derive(Debug)]
pub struct Letter {
    pub letter: LetterLiteral,
    pub pronunciation: String,
}

/// Name of the clip file of each letter, relative to the clip directory.
pub open spec fn sound_file(l: LetterLiteral) -> Seq<char> {
    match l {
        LetterLiteral::A => "a.wav"@,
        LetterLiteral::B => "b.wav"@,
        LetterLiteral::CDot => "c-dot.wav"@,
        LetterLiteral::D => "d.wav"@,
        LetterLiteral::E => "e.wav"@,
        LetterLiteral::F => "f.wav"@,
        LetterLiteral::G => "g.wav"@,
        LetterLiteral::GDot => "g-dot.wav"@,
        LetterLiteral::HBar => "h-bar.wav"@,
        LetterLiteral::H => "h.wav"@,
        LetterLiteral::GHBar => "gh.wav"@,
        LetterLiteral::I => "i.wav"@,
        LetterLiteral::J => "j.wav"@,
        LetterLiteral::IE => "ie.wav"@,
        LetterLiteral::K => "k.wav"@,
        LetterLiteral::L => "l.wav"@,
        LetterLiteral::M => "m.wav"@,
        LetterLiteral::N => "n.wav"@,
        LetterLiteral::O => "o.wav"@,
        LetterLiteral::P => "p.wav"@,
        LetterLiteral::Q => "q.wav"@,
        LetterLiteral::R => "r.wav"@,
        LetterLiteral::S => "s.wav"@,
        LetterLiteral::T => "t.wav"@,
        LetterLiteral::U => "u.wav"@,
        LetterLiteral::V => "v.wav"@,
        LetterLiteral::W => "w.wav"@,
        LetterLiteral::X => "x.wav"@,
        LetterLiteral::Y => "y.wav"@,
        LetterLiteral::ZDot => "z-dot.wav"@,
        LetterLiteral::Z => "z.wav"@,
    }
}

/// Path of a letter's clip: the file name under the `sounds` directory.
pub open spec fn sound_path(l: LetterLiteral) -> Seq<char> {
    "sounds/"@ + sound_file(l)
}

impl LetterLiteral {
    fn file_name(&self) -> (r: &'static str)
        ensures
            r@ == sound_file(*self),
    {
        match self {
            LetterLiteral::A => "a.wav",
            LetterLiteral::B => "b.wav",
            LetterLiteral::CDot => "c-dot.wav",
            LetterLiteral::D => "d.wav",
            LetterLiteral::E => "e.wav",
            LetterLiteral::F => "f.wav",
            LetterLiteral::G => "g.wav",
            LetterLiteral::GDot => "g-dot.wav",
            LetterLiteral::HBar => "h-bar.wav",
            LetterLiteral::H => "h.wav",
            LetterLiteral::GHBar => "gh.wav",
            LetterLiteral::I => "i.wav",
            LetterLiteral::J => "j.wav",
            LetterLiteral::IE => "ie.wav",
            LetterLiteral::K => "k.wav",
            LetterLiteral::L => "l.wav",
            LetterLiteral::M => "m.wav",
            LetterLiteral::N => "n.wav",
            LetterLiteral::O => "o.wav",
            LetterLiteral::P => "p.wav",
            LetterLiteral::Q => "q.wav",
            LetterLiteral::R => "r.wav",
            LetterLiteral::S => "s.wav",
            LetterLiteral::T => "t.wav",
            LetterLiteral::U => "u.wav",
            LetterLiteral::V => "v.wav",
            LetterLiteral::W => "w.wav",
            LetterLiteral::X => "x.wav",
            LetterLiteral::Y => "y.wav",
            LetterLiteral::ZDot => "z-dot.wav",
            LetterLiteral::Z => "z.wav",
        }
    }

    /// The path of the clip that pronounces this letter.
    pub fn get_sound_path(&self) -> (r: String)
        ensures
            r@ == sound_path(*self),
    {
        String::from_str("sounds/").concat(self.file_name())
    }
}

/// The characters that separate letters and are otherwise ignored.
pub open spec fn is_space(c: char) -> bool {
    c == ' ' || c == '\t' || c == '\n' || c == '\r'
}

/// The Unicode combining dot above, which turns a `c` into `ċ`.
pub const COMBINING_DOT: char = '\u{0307}';

/// The letter that a character stands for by itself, for the characters that
/// never start a longer grapheme.
pub open spec fn plain_letter(c: char) -> Option<LetterLiteral> {
    if c == 'a' || c == 'A' { Some(LetterLiteral::A) }
    else if c == 'b' || c == 'B' { Some(LetterLiteral::B) }
    else if c == 'ċ' || c == 'Ċ' { Some(LetterLiteral::CDot) }
    else if c == 'd' || c == 'D' { Some(LetterLiteral::D) }
    else if c == 'f' || c == 'F' { Some(LetterLiteral::F) }
    else if c == 'ġ' || c == 'Ġ' { Some(LetterLiteral::GDot) }
    else if c == 'h' || c == 'H' { Some(LetterLiteral::H) }
    else if c == 'ħ' || c == 'Ħ' { Some(LetterLiteral::HBar) }
    else if c == 'j' || c == 'J' { Some(LetterLiteral::J) }
    else if c == 'k' || c == 'K' { Some(LetterLiteral::K) }
    else if c == 'l' || c == 'L' { Some(LetterLiteral::L) }
    else if c == 'm' || c == 'M' { Some(LetterLiteral::M) }
    else if c == 'n' || c == 'N' { Some(LetterLiteral::N) }
    else if c == 'o' || c == 'O' { Some(LetterLiteral::O) }
    else if c == 'p' || c == 'P' { Some(LetterLiteral::P) }
    else if c == 'q' || c == 'Q' { Some(LetterLiteral::Q) }
    else if c == 'r' || c == 'R' { Some(LetterLiteral::R) }
    else if c == 's' || c == 'S' { Some(LetterLiteral::S) }
    else if c == 't' || c == 'T' { Some(LetterLiteral::T) }
    else if c == 'u' || c == 'U' { Some(LetterLiteral::U) }
    else if c == 'v' || c == 'V' { Some(LetterLiteral::V) }
    else if c == 'w' || c == 'W' { Some(LetterLiteral::W) }
    else if c == 'x' || c == 'X' { Some(LetterLiteral::X) }
    else if c == 'y' || c == 'Y' { Some(LetterLiteral::Y) }
    else if c == 'z' || c == 'Z' { Some(LetterLiteral::Z) }
    else if c == 'ż' || c == 'Ż' { Some(LetterLiteral::ZDot) }
    else { None }
}

/// Whether the character after position `i` exists and is `x` or `y`.
pub open spec fn followed_by(s: Seq<char>, i: int, x: char, y: char) -> bool {
    i + 1 < s.len() && (s[i + 1] == x || s[i + 1] == y)
}

/// The grapheme that starts at a non-space position `i`: its letter, and
/// whether it takes two characters. `None` when no letter starts there.
/// The longest grapheme wins.
pub open spec fn grapheme_at(s: Seq<char>, i: int) -> Option<(LetterLiteral, bool)> {
    let c = s[i];
    if c == 'c' || c == 'C' {
        if i + 1 < s.len() && s[i + 1] == COMBINING_DOT {
            Some((LetterLiteral::CDot, true))
        } else {
            None
        }
    } else if c == 'e' || c == 'E' {
        if followed_by(s, i, 'i', 'I') {
            Some((LetterLiteral::IE, true))
        } else {
            Some((LetterLiteral::E, false))
        }
    } else if c == 'i' || c == 'I' {
        if followed_by(s, i, 'e', 'E') {
            Some((LetterLiteral::IE, true))
        } else {
            Some((LetterLiteral::I, false))
        }
    } else if c == 'g' || c == 'G' {
        if followed_by(s, i, 'ħ', 'Ħ') {
            Some((LetterLiteral::GHBar, true))
        } else {
            Some((LetterLiteral::G, false))
        }
    } else {
        match plain_letter(c) {
            Some(l) => Some((l, false)),
            None => None,
        }
    }
}

/// Segments `s` from position `i` on: the letters in order, or the first
/// character at which no letter starts.
pub open spec fn segment_from(s: Seq<char>, i: int) -> Result<Seq<LetterLiteral>, char>
    decreases s.len() - i,
{
    if i < 0 || i >= s.len() {
        Ok(Seq::empty())
    } else if is_space(s[i]) {
        segment_from(s, i + 1)
    } else {
        match grapheme_at(s, i) {
            None => Err(s[i]),
            Some((l, two)) => match segment_from(s, if two { i + 2 } else { i + 1 }) {
                Ok(rest) => Ok(seq![l] + rest),
                Err(c) => Err(c),
            },
        }
    }
}

/// Segmentation of a whole text.
pub open spec fn segment(s: Seq<char>) -> Result<Seq<LetterLiteral>, char> {
    segment_from(s, 0)
}

/// The letters of a parsed word.
pub open spec fn letters_of(v: Seq<Letter>) -> Seq<LetterLiteral> {
    v.map_values(|l: Letter| l.letter)
}

/// `done` followed by the segmentation `rest` of what is left.
pub open spec fn after(done: Seq<LetterLiteral>, rest: Result<Seq<LetterLiteral>, char>) -> Result<
    Seq<LetterLiteral>,
    char,
> {
    match rest {
        Ok(t) => Ok(done + t),
        Err(c) => Err(c),
    }
}

impl ParseError {
    /// The message that describes this error.
    pub open spec fn message(&self) -> Seq<char> {
        match self {
            ParseError::UnknownLetter(s) => "Unknown letter sequence: "@ + s@,
            ParseError::InvalidInput(s) => "Invalid input: "@ + s@,
        }
    }

    /// The human-readable message of this error.
    pub fn to_string(&self) -> (r: String)
        ensures
            r@ == self.message(),
    {
        match self {
            ParseError::UnknownLetter(s) => String::from_str("Unknown letter sequence: ").concat(
                s.as_str(),
            ),
            ParseError::InvalidInput(s) => String::from_str("Invalid input: ").concat(s.as_str()),
        }
    }
}

fn chars_of(s: &str) -> (v: Vec<char>)
    ensures
        v@ == s@,
{
    let mut v: Vec<char> = Vec::new();
    let mut it = s.chars();
    assert(it.remaining() == s@);
    loop
        invariant
            it.obeys_prophetic_iter_laws(),
            it.decrease() is Some,
            v@ + it.remaining() == s@,
        ensures
            v@ == s@,
        decreases it.decrease()->0,
    {
        match it.next() {
            Some(c) => {
                v.push(c);
            },
            None => {
                break;
            },
        }
    }
    v
}

/// Relies on `char`'s `ToString`: the string of one character holds that
/// character alone.
#[verifier::external_body]
fn char_to_string(c: char) -> (r: String)
    ensures
        r@ == seq![c],
{
    c.to_string()
}

fn lookup_plain(c: char) -> (r: Option<LetterLiteral>)
    ensures
        r == plain_letter(c),
{
    match c {
        'a' | 'A' => Some(LetterLiteral::A),
        'b' | 'B' => Some(LetterLiteral::B),
        'ċ' | 'Ċ' => Some(LetterLiteral::CDot),
        'd' | 'D' => Some(LetterLiteral::D),
        'f' | 'F' => Some(LetterLiteral::F),
        'ġ' | 'Ġ' => Some(LetterLiteral::GDot),
        'h' | 'H' => Some(LetterLiteral::H),
        'ħ' | 'Ħ' => Some(LetterLiteral::HBar),
        'j' | 'J' => Some(LetterLiteral::J),
        'k' | 'K' => Some(LetterLiteral::K),
        'l' | 'L' => Some(LetterLiteral::L),
        'm' | 'M' => Some(LetterLiteral::M),
        'n' | 'N' => Some(LetterLiteral::N),
        'o' | 'O' => Some(LetterLiteral::O),
        'p' | 'P' => Some(LetterLiteral::P),
        'q' | 'Q' => Some(LetterLiteral::Q),
        'r' | 'R' => Some(LetterLiteral::R),
        's' | 'S' => Some(LetterLiteral::S),
        't' | 'T' => Some(LetterLiteral::T),
        'u' | 'U' => Some(LetterLiteral::U),
        'v' | 'V' => Some(LetterLiteral::V),
        'w' | 'W' => Some(LetterLiteral::W),
        'x' | 'X' => Some(LetterLiteral::X),
        'y' | 'Y' => Some(LetterLiteral::Y),
        'z' | 'Z' => Some(LetterLiteral::Z),
        'ż' | 'Ż' => Some(LetterLiteral::ZDot),
        _ => None,
    }
}

fn next_is(v: &Vec<char>, i: usize, x: char, y: char) -> (r: bool)
    requires
        i < v@.len(),
    ensures
        r == followed_by(v@, i as int, x, y),
{
    i < v.len() - 1 && (v[i + 1] == x || v[i + 1] == y)
}

/// The grapheme that starts at position `i` of `v`.
fn scan_grapheme(v: &Vec<char>, i: usize) -> (r: Option<(LetterLiteral, bool)>)
    requires
        i < v@.len(),
    ensures
        r == grapheme_at(v@, i as int),
{
    let c = v[i];
    if c == 'c' || c == 'C' {
        if i < v.len() - 1 && v[i + 1] == COMBINING_DOT {
            Some((LetterLiteral::CDot, true))
        } else {
            None
        }
    } else if c == 'e' || c == 'E' {
        if next_is(v, i, 'i', 'I') {
            Some((LetterLiteral::IE, true))
        } else {
            Some((LetterLiteral::E, false))
        }
    } else if c == 'i' || c == 'I' {
        if next_is(v, i, 'e', 'E') {
            Some((LetterLiteral::IE, true))
        } else {
            Some((LetterLiteral::I, false))
        }
    } else if c == 'g' || c == 'G' {
        if next_is(v, i, 'ħ', 'Ħ') {
            Some((LetterLiteral::GHBar, true))
        } else {
            Some((LetterLiteral::G, false))
        }
    } else {
        match lookup_plain(c) {
            Some(l) => Some((l, false)),
            None => None,
        }
    }
}

/// Splits a word into its letters, left to right, skipping whitespace.
///
/// Empty text and text without letters are invalid input; a character at
/// which no letter starts is an unknown letter, named in the error.
pub fn parse(input: &str) -> (r: Result<Vec<Letter>, ParseError>)
    ensures
        input@.len() == 0 ==> (r matches Err(ParseError::InvalidInput(m)) && m@
            == "Input string is empty"@),
        input@.len() > 0 ==> match segment(input@) {
            Err(c) => r matches Err(ParseError::UnknownLetter(m)) && m@ == seq![c],
            Ok(t) => if t.len() == 0 {
                r matches Err(ParseError::InvalidInput(m)) && m@ == "No valid letters found"@
            } else {
                r matches Ok(v) && letters_of(v@) == t && forall|k: int|
                    0 <= k < v@.len() ==> #[trigger] v@[k].pronunciation@ == sound_path(
                        v@[k].letter,
                    )
            },
        },
{
    if input.is_empty() {
        return Err(ParseError::InvalidInput(String::from_str("Input string is empty")));
    }
    let chars = chars_of(input);
    let n = chars.len();
    let mut letters: Vec<Letter> = Vec::new();
    let mut i: usize = 0;
    while i < n
        invariant
            chars@ == input@,
            n == chars@.len(),
            i <= n,
            segment(input@) == after(letters_of(letters@), segment_from(input@, i as int)),
            forall|k: int|
                0 <= k < letters@.len() ==> #[trigger] letters@[k].pronunciation@ == sound_path(
                    letters@[k].letter,
                ),
        decreases n - i,
    {
        let c = chars[i];
        if c == ' ' || c == '\t' || c == '\n' || c == '\r' {
            i = i + 1;
        } else {
            match scan_grapheme(&chars, i) {
                None => {
                    return Err(ParseError::UnknownLetter(char_to_string(c)));
                },
                Some((l, two)) => {
                    let ghost before = letters@;
                    letters.push(Letter { letter: l, pronunciation: l.get_sound_path() });
                    assert(letters_of(letters@) == letters_of(before) + seq![l]);
                    let next = if two { i + 2 } else { i + 1 };
                    proof {
                        if let Ok(t) = segment_from(input@, next as int) {
                            assert(letters_of(before) + (seq![l] + t) == letters_of(letters@) + t);
                        }
                    }
                    i = next;
                },
            }
        }
    }
    if letters.len() == 0 {
        return Err(ParseError::InvalidInput(String::from_str("No valid letters found")));
    }
    Ok(letters)
}

/// The supported alphabet in precomposed form: whitespace, the letters that
/// stand alone, and those that may begin a digraph (`e`, `i`, `g`).
pub open spec fn supported(c: char) -> bool {
    is_space(c) || plain_letter(c) is Some || c == 'e' || c == 'E' || c == 'i' || c == 'I'
        || c == 'g' || c == 'G'
}

proof fn lemma_total_from(s: Seq<char>, i: int)
    requires
        0 <= i,
        forall|k: int| 0 <= k < s.len() ==> supported(#[trigger] s[k]),
    ensures
        segment_from(s, i) is Ok,
    decreases s.len() - i,
{
    if i < s.len() {
        assert(supported(s[i]));
        if is_space(s[i]) {
            lemma_total_from(s, i + 1);
        } else {
            if let Some((_, two)) = grapheme_at(s, i) {
                lemma_total_from(s, if two { i + 2 } else { i + 1 });
            }
        }
    }
}

/// Segmentation is total over the supported alphabet: a text made of its
/// characters always segments into letters.
pub proof fn lemma_segment_total(s: Seq<char>)
    requires
        forall|k: int| 0 <= k < s.len() ==> supported(#[trigger] s[k]),
    ensures
        segment(s) is Ok,
{
    lemma_total_from(s, 0);
}

/// Whether `u` is the capital of the lower-case letter `l`: the ASCII
/// letters and the four letters with a diacritic.
pub open spec fn capital_of(l: char, u: char) -> bool {
    ('a' as u32 <= l as u32 <= 'z' as u32 && u as u32 + 32 == l as u32) || (l == 'ċ' && u == 'Ċ')
        || (l == 'ġ' && u == 'Ġ') || (l == 'ħ' && u == 'Ħ') || (l == 'ż' && u == 'Ż')
}

/// Whether two characters are equal up to letter case.
pub open spec fn same_ignoring_case(x: char, y: char) -> bool {
    x == y || capital_of(x, y) || capital_of(y, x)
}

proof fn lemma_case_char(x: char, y: char)
    requires
        same_ignoring_case(x, y),
    ensures
        is_space(x) == is_space(y),
        plain_letter(x) == plain_letter(y),
        (x == 'c' || x == 'C') == (y == 'c' || y == 'C'),
        (x == 'e' || x == 'E') == (y == 'e' || y == 'E'),
        (x == 'i' || x == 'I') == (y == 'i' || y == 'I'),
        (x == 'g' || x == 'G') == (y == 'g' || y == 'G'),
        (x == 'ħ' || x == 'Ħ') == (y == 'ħ' || y == 'Ħ'),
        (x == COMBINING_DOT) == (y == COMBINING_DOT),
{
}

proof fn lemma_case_from(s: Seq<char>, t: Seq<char>, i: int)
    requires
        0 <= i,
        s.len() == t.len(),
        forall|k: int| 0 <= k < s.len() ==> same_ignoring_case(#[trigger] s[k], t[k]),
    ensures
        (segment_from(s, i) is Ok) == (segment_from(t, i) is Ok),
        segment_from(s, i) is Ok ==> segment_from(s, i) == segment_from(t, i),
    decreases s.len() - i,
{
    if i < s.len() {
        lemma_case_char(s[i], t[i]);
        if i + 1 < s.len() {
            lemma_case_char(s[i + 1], t[i + 1]);
            lemma_case_from(s, t, i + 2);
        }
        assert(grapheme_at(s, i) == grapheme_at(t, i));
        lemma_case_from(s, t, i + 1);
    }
}

/// Segmentation ignores letter case: two texts that differ only in the case
/// of their letters both segment, or both fail, and when they segment they
/// give the same letters.
pub proof fn lemma_segment_ignores_case(s: Seq<char>, t: Seq<char>)
    requires
        s.len() == t.len(),
        forall|k: int| 0 <= k < s.len() ==> same_ignoring_case(#[trigger] s[k], t[k]),
    ensures
        (segment(s) is Ok) == (segment(t) is Ok),
        segment(s) is Ok ==> segment(s) == segment(t),
{
    lemma_case_from(s, t, 0);
}

} // verus!
