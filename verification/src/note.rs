use vstd::prelude::*;

use crate::text::{
    ascii_upper, lemma_trim_upper, chars_of, decimal_text, is_ascii_digit, is_ascii_lower, lemma_parse_decimal,
    parse_i32_chars, parse_i32_text, push_decimal, trim, trim_chars, trim_end, trim_start, upper,
    upper_chars,
};

verus! {

/// The twelve pitch classes of the chromatic scale, named with sharps.
#[derive(Debug, Clone, Copy, PartialEq, Eq, Structural)]
pub enum NoteName {
    C,
    CSharp,
    D,
    DSharp,
    E,
    F,
    FSharp,
    G,
    GSharp,
    A,
    ASharp,
    B,
}

/// The pitch classes in order from C, indexed by semitone above C.
pub const NOTE_NAMES: [NoteName; 12] = [
    NoteName::C,
    NoteName::CSharp,
    NoteName::D,
    NoteName::DSharp,
    NoteName::E,
    NoteName::F,
    NoteName::FSharp,
    NoteName::G,
    NoteName::GSharp,
    NoteName::A,
    NoteName::ASharp,
    NoteName::B,
];

impl NoteName {
    /// Semitones above C within the octave: C is 0 and B is 11.
    pub open spec fn semitone(self) -> int {
        match self {
            NoteName::C => 0,
            NoteName::CSharp => 1,
            NoteName::D => 2,
            NoteName::DSharp => 3,
            NoteName::E => 4,
            NoteName::F => 5,
            NoteName::FSharp => 6,
            NoteName::G => 7,
            NoteName::GSharp => 8,
            NoteName::A => 9,
            NoteName::ASharp => 10,
            NoteName::B => 11,
        }
    }

    /// The written name: the letter, then `'#'` for a sharp.
    pub open spec fn text(self) -> Seq<char> {
        match self {
            NoteName::C => seq!['C'],
            NoteName::CSharp => seq!['C', '#'],
            NoteName::D => seq!['D'],
            NoteName::DSharp => seq!['D', '#'],
            NoteName::E => seq!['E'],
            NoteName::F => seq!['F'],
            NoteName::FSharp => seq!['F', '#'],
            NoteName::G => seq!['G'],
            NoteName::GSharp => seq!['G', '#'],
            NoteName::A => seq!['A'],
            NoteName::ASharp => seq!['A', '#'],
            NoteName::B => seq!['B'],
        }
    }

    /// The written name, such as `"C#"`.
    pub fn as_str(self) -> (s: &'static str)
        ensures
            s@ == self.text(),
    {
        match self {
            NoteName::C => {
                proof {
                    reveal_strlit("C");
                }
                "C"
            },
            NoteName::CSharp => {
                proof {
                    reveal_strlit("C#");
                }
                "C#"
            },
            NoteName::D => {
                proof {
                    reveal_strlit("D");
                }
                "D"
            },
            NoteName::DSharp => {
                proof {
                    reveal_strlit("D#");
                }
                "D#"
            },
            NoteName::E => {
                proof {
                    reveal_strlit("E");
                }
                "E"
            },
            NoteName::F => {
                proof {
                    reveal_strlit("F");
                }
                "F"
            },
            NoteName::FSharp => {
                proof {
                    reveal_strlit("F#");
                }
                "F#"
            },
            NoteName::G => {
                proof {
                    reveal_strlit("G");
                }
                "G"
            },
            NoteName::GSharp => {
                proof {
                    reveal_strlit("G#");
                }
                "G#"
            },
            NoteName::A => {
                proof {
                    reveal_strlit("A");
                }
                "A"
            },
            NoteName::ASharp => {
                proof {
                    reveal_strlit("A#");
                }
                "A#"
            },
            NoteName::B => {
                proof {
                    reveal_strlit("B");
                }
                "B"
            },
        }
    }

    fn semitone_offset(self) -> (r: i32)
        ensures
            r == self.semitone(),
    {
        match self {
            NoteName::C => 0,
            NoteName::CSharp => 1,
            NoteName::D => 2,
            NoteName::DSharp => 3,
            NoteName::E => 4,
            NoteName::F => 5,
            NoteName::FSharp => 6,
            NoteName::G => 7,
            NoteName::GSharp => 8,
            NoteName::A => 9,
            NoteName::ASharp => 10,
            NoteName::B => 11,
        }
    }
}

/// The natural named by a letter.
pub open spec fn letter_name(c: char) -> Option<NoteName> {
    if c == 'C' {
        Some(NoteName::C)
    } else if c == 'D' {
        Some(NoteName::D)
    } else if c == 'E' {
        Some(NoteName::E)
    } else if c == 'F' {
        Some(NoteName::F)
    } else if c == 'G' {
        Some(NoteName::G)
    } else if c == 'A' {
        Some(NoteName::A)
    } else if c == 'B' {
        Some(NoteName::B)
    } else {
        None
    }
}

/// The sharp written with a letter and `'#'`.
pub open spec fn sharp_name(c: char) -> Option<NoteName> {
    if c == 'C' {
        Some(NoteName::CSharp)
    } else if c == 'D' {
        Some(NoteName::DSharp)
    } else if c == 'F' {
        Some(NoteName::FSharp)
    } else if c == 'G' {
        Some(NoteName::GSharp)
    } else if c == 'A' {
        Some(NoteName::ASharp)
    } else {
        None
    }
}

/// The pitch class whose written name is exactly `t`.
pub open spec fn name_from_text(t: Seq<char>) -> Option<NoteName> {
    if t.len() == 1 {
        letter_name(t[0])
    } else if t.len() == 2 && t[1] == '#' {
        sharp_name(t[0])
    } else {
        None
    }
}

/// Where a label's octave starts: a digit or a minus sign.
pub open spec fn is_split_char(c: char) -> bool {
    is_ascii_digit(c) || c == '-'
}

/// The position of the first digit or minus sign in `s`.
pub open spec fn first_split(s: Seq<char>) -> Option<int>
    decreases s.len(),
{
    if s.len() == 0 {
        None
    } else if is_split_char(s[0]) {
        Some(0)
    } else {
        match first_split(s.drop_first()) {
            Some(k) => Some(k + 1),
            None => None,
        }
    }
}

/// A note label read as a pitch class and an octave: surrounding white space
/// is dropped, letters are taken in either case, and the octave is the integer
/// that starts at the first digit or minus sign.
pub open spec fn parse_label(s: Seq<char>) -> Option<(NoteName, i32)> {
    let t = upper(trim(s));
    match first_split(t) {
        None => None,
        Some(k) => match name_from_text(t.take(k)) {
            None => None,
            Some(n) => match parse_i32_text(t.skip(k)) {
                None => None,
                Some(o) => Some((n, o)),
            },
        },
    }
}

/// The MIDI number of a pitch class in an octave; octave -1 starts at 0.
pub open spec fn label_midi(n: NoteName, octave: i32) -> int {
    (octave + 1) * 12 + n.semitone()
}

/// A label whose note number can be computed in `i32` arithmetic.
pub open spec fn label_fits(s: Seq<char>) -> bool {
    parse_label(s) matches Some((n, o)) ==> {
        &&& o + 1 <= i32::MAX
        &&& i32::MIN <= (o + 1) * 12 <= i32::MAX
        &&& label_midi(n, o) <= i32::MAX
    }
}

/// Integer division rounded toward zero, as `/` on `i32` does.
pub open spec fn trunc_div(a: int, b: int) -> int {
    if a >= 0 {
        a / b
    } else {
        -((-a) / b)
    }
}

/// The octave of a MIDI note number; MIDI 60 is C4.
pub open spec fn octave_of(midi: int) -> int {
    trunc_div(midi, 12) - 1
}

/// The pitch class of a MIDI note number.
pub open spec fn name_of(midi: int) -> NoteName {
    NOTE_NAMES[midi % 12]
}

/// The label of a MIDI note number, such as `"A4"` for 69.
pub open spec fn label_text(midi: int) -> Seq<char> {
    name_of(midi).text() + decimal_text(octave_of(midi))
}

/// A note of the equal-tempered scale, held as its MIDI note number.
#[derive(Debug, Clone, Copy, PartialEq, Eq, Structural)]
pub struct Note {
    midi: i32,
}

impl View for Note {
    type V = int;

    closed spec fn view(&self) -> int {
        self.midi as int
    }
}

impl Note {
    /// The note with MIDI number `midi`.
    pub closed spec fn spec_from_midi(midi: i32) -> Note {
        Note { midi }
    }

    /// What the library knows of a note made from a MIDI number: its view is
    /// that number, and two notes with the same view are equal.
    pub proof fn lemma_view(midi: i32)
        ensures
            Note::spec_from_midi(midi)@ == midi,
            forall|a: Note, b: Note| a@ == b@ ==> a == b,
            forall|a: Note| #![trigger a@] i32::MIN <= a@ <= i32::MAX,
    {
    }

    /// The note with MIDI number `midi`; 69 is A4.
    pub fn from_midi(midi: i32) -> (r: Note)
        ensures
            r@ == midi,
            r == Note::spec_from_midi(midi),
    {
        Note { midi }
    }

    /// Reads a label such as `"E2"`, `"a#3"` or `" C-1 "`.
    pub fn from_label(label: &str) -> (r: Option<Note>)
        requires
            label_fits(label@),
        ensures
            r == (match parse_label(label@) {
                None => None,
                Some((n, o)) => Some(Note::spec_from_midi(label_midi(n, o) as i32)),
            }),
    {
        let (note_name, octave) = match read_label(label) {
            Some(parts) => parts,
            None => {
                return None;
            },
        };
        let midi = (octave + 1) * 12 + note_name.semitone_offset();
        Some(Note::from_midi(midi))
    }

    /// Whether the note number of `label` can be computed in `i32`, so that
    /// `from_label` may be called on it: true for every label that does not
    /// read as a note, and for those whose note number lies in `i32`.
    pub fn label_in_range(label: &str) -> (r: bool)
        ensures
            r == label_fits(label@),
    {
        match read_label(label) {
            None => true,
            Some((note_name, octave)) => {
                let next = octave as i64 + 1;
                let start = next * 12;
                let midi = start + note_name.semitone_offset() as i64;
                next <= 2147483647 && -2147483648 <= start && start <= 2147483647 && midi
                    <= 2147483647
            },
        }
    }

    /// The MIDI note number.
    pub fn midi(self) -> (r: i32)
        ensures
            r == self@,
    {
        self.midi
    }

    /// The pitch class: the MIDI number modulo 12, counted from C, also for
    /// negative numbers.
    pub fn note_name(self) -> (r: NoteName)
        ensures
            r == name_of(self@),
            r.semitone() == self@ % 12,
    {
        let index = self.midi.checked_rem_euclid(12).unwrap() as usize;
        proof {
            lemma_note_names_semitone();
        }
        NOTE_NAMES[index]
    }

    /// The octave, with the MIDI number divided by 12 rounding toward zero,
    /// less one; MIDI 0 to 11 are octave -1.
    pub fn octave(self) -> (r: i32)
        ensures
            r == octave_of(self@),
    {
        (self.midi / 12) - 1
    }

    /// The pitch class and octave, such as `"E2"` or `"A#3"`.
    pub fn label(self) -> (r: String)
        ensures
            r@ == label_text(self@),
    {
        let mut out = String::new();
        out.append(self.note_name().as_str());
        push_decimal(&mut out, self.octave());
        out
    }
}

proof fn lemma_note_names_semitone()
    ensures
        forall|i: int| 0 <= i < 12 ==> (#[trigger] NOTE_NAMES[i]).semitone() == i,
{
    assert forall|i: int| 0 <= i < 12 implies (#[trigger] NOTE_NAMES[i]).semitone() == i by {
        if i == 0 {} else if i == 1 {} else if i == 2 {} else if i == 3 {} else if i == 4 {}
        else if i == 5 {} else if i == 6 {} else if i == 7 {} else if i == 8 {} else if i == 9 {}
        else if i == 10 {} else {}
    }
}

proof fn lemma_short_label(s: Seq<char>)
    requires
        trim(s).len() < 2,
    ensures
        parse_label(s) is None,
{
    let t = upper(trim(s));
    if t.len() == 1 {
        if is_split_char(t[0]) {
            assert(t.take(0).len() == 0);
        } else {
            assert(first_split(t.drop_first()) is None);
        }
    }
}

proof fn lemma_first_split_at(s: Seq<char>, i: int)
    requires
        0 <= i < s.len(),
        forall|k: int| 0 <= k < i ==> !is_split_char(#[trigger] s[k]),
        is_split_char(s[i]),
    ensures
        first_split(s) == Some(i),
    decreases i,
{
    if i > 0 {
        let t = s.drop_first();
        assert forall|k: int| 0 <= k < i - 1 implies !is_split_char(#[trigger] t[k]) by {
            assert(t[k] == s[k + 1]);
        }
        assert(!is_split_char(s[0]));
        lemma_first_split_at(t, i - 1);
    }
}

proof fn lemma_first_split_none(s: Seq<char>)
    requires
        forall|k: int| 0 <= k < s.len() ==> !is_split_char(#[trigger] s[k]),
    ensures
        first_split(s) is None,
    decreases s.len(),
{
    if s.len() > 0 {
        let t = s.drop_first();
        assert forall|k: int| 0 <= k < t.len() implies !is_split_char(#[trigger] t[k]) by {
            assert(t[k] == s[k + 1]);
        }
        assert(!is_split_char(s[0]));
        lemma_first_split_none(t);
    }
}

/// A label read as a pitch class and an octave.
fn read_label(label: &str) -> (r: Option<(NoteName, i32)>)
    ensures
        r == parse_label(label@),
{
    let chars = chars_of(label);
    let trimmed = trim_chars(&chars);
    if trimmed.len() < 2 {
        proof {
            lemma_short_label(label@);
        }
        return None;
    }
    let normalized = upper_chars(&trimmed);
    let split_index = match find_split(&normalized) {
        Some(k) => k,
        None => {
            return None;
        },
    };
    let note_name = match name_from_chars(&normalized, split_index) {
        Some(n) => n,
        None => {
            return None;
        },
    };
    let octave_part = chars_from(&normalized, split_index);
    match parse_i32_chars(&octave_part) {
        Some(octave) => Some((note_name, octave)),
        None => None,
    }
}

/// The position of the first digit or minus sign.
fn find_split(v: &Vec<char>) -> (r: Option<usize>)
    ensures
        r matches Some(k) ==> first_split(v@) == Some(k as int) && k < v@.len(),
        r is None ==> first_split(v@) is None,
{
    let mut i: usize = 0;
    while i < v.len()
        invariant
            i <= v@.len(),
            forall|k: int| 0 <= k < i ==> !is_split_char(#[trigger] v@[k]),
        decreases v@.len() - i,
    {
        let c = v[i];
        if ('0' <= c && c <= '9') || c == '-' {
            proof {
                lemma_first_split_at(v@, i as int);
            }
            return Some(i);
        }
        i = i + 1;
    }
    proof {
        lemma_first_split_none(v@);
    }
    None
}

fn letter_name_of(c: char) -> (r: Option<NoteName>)
    ensures
        r == letter_name(c),
{
    if c == 'C' {
        Some(NoteName::C)
    } else if c == 'D' {
        Some(NoteName::D)
    } else if c == 'E' {
        Some(NoteName::E)
    } else if c == 'F' {
        Some(NoteName::F)
    } else if c == 'G' {
        Some(NoteName::G)
    } else if c == 'A' {
        Some(NoteName::A)
    } else if c == 'B' {
        Some(NoteName::B)
    } else {
        None
    }
}

fn sharp_name_of(c: char) -> (r: Option<NoteName>)
    ensures
        r == sharp_name(c),
{
    if c == 'C' {
        Some(NoteName::CSharp)
    } else if c == 'D' {
        Some(NoteName::DSharp)
    } else if c == 'F' {
        Some(NoteName::FSharp)
    } else if c == 'G' {
        Some(NoteName::GSharp)
    } else if c == 'A' {
        Some(NoteName::ASharp)
    } else {
        None
    }
}

/// The pitch class written in the first `k` characters of `v`.
fn name_from_chars(v: &Vec<char>, k: usize) -> (r: Option<NoteName>)
    requires
        k <= v@.len(),
    ensures
        r == name_from_text(v@.take(k as int)),
{
    if k == 1 {
        letter_name_of(v[0])
    } else if k == 2 && v[1] == '#' {
        sharp_name_of(v[0])
    } else {
        None
    }
}

/// The characters of `v` from position `k` on.
fn chars_from(v: &Vec<char>, k: usize) -> (r: Vec<char>)
    requires
        k <= v@.len(),
    ensures
        r@ == v@.skip(k as int),
{
    let mut r: Vec<char> = Vec::new();
    let mut i: usize = k;
    while i < v.len()
        invariant
            k <= i <= v@.len(),
            r@ == v@.subrange(k as int, i as int),
        decreases v@.len() - i,
    {
        r.push(v[i]);
        i = i + 1;
        assert(r@ =~= v@.subrange(k as int, i as int));
    }
    assert(v@.subrange(k as int, i as int) =~= v@.skip(k as int));
    r
}


proof fn lemma_name_text(n: NoteName)
    ensures
        1 <= n.text().len() <= 2,
        'A' <= n.text()[0] <= 'G',
        forall|k: int|
            0 <= k < n.text().len() ==> ('A' <= #[trigger] n.text()[k] <= 'G' || n.text()[k]
                == '#'),
        name_from_text(n.text()) == Some(n),
{
}

/// Writing a note's label and reading it back gives the same pitch class,
/// octave and MIDI number, for every note from MIDI 0 (C-1) up and for every
/// C below it.
pub proof fn lemma_label_round_trip(midi: i32)
    requires
        midi >= 0 || midi % 12 == 0,
    ensures
        label_fits(label_text(midi as int)),
        parse_label(label_text(midi as int)) == Some(
            (name_of(midi as int), octave_of(midi as int) as i32),
        ),
        label_midi(name_of(midi as int), octave_of(midi as int) as i32) == midi,
{
    let m = midi as int;
    let n = name_of(m);
    let o = octave_of(m);
    assert(i32::MIN <= o <= i32::MAX);
    let oi = o as i32;
    lemma_note_names_semitone();
    lemma_name_text(n);
    lemma_parse_decimal(oi);
    let name = n.text();
    let num = decimal_text(o);
    let s = name + num;
    assert(s.len() > 0);
    assert(s[0] == name[0]);
    assert(s.last() == num.last());
    assert(trim_start(s) == s);
    assert(trim_end(s) == s);
    assert forall|k: int| 0 <= k < s.len() implies !is_ascii_lower(#[trigger] s[k]) by {
        if k < name.len() {
            assert(s[k] == name[k]);
        } else {
            assert(s[k] == num[k - name.len()]);
        }
    }
    assert(upper(trim(s)) =~= s);
    assert forall|k: int| 0 <= k < name.len() implies !is_split_char(#[trigger] s[k]) by {
        assert(s[k] == name[k]);
    }
    assert(is_split_char(s[name.len() as int]));
    lemma_first_split_at(s, name.len() as int);
    assert(s.take(name.len() as int) =~= name);
    assert(s.skip(name.len() as int) =~= num);
    assert(n.semitone() == m % 12);
    if m >= 0 {
        assert(trunc_div(m, 12) * 12 + m % 12 == m);
    } else {
        assert(trunc_div(m, 12) * 12 == m);
    }
}


/// Reading a label ignores ASCII case: writing any capital letter of `s` as
/// its small letter (32 code points higher) reads as the same pitch class and
/// octave, so "e2" reads as "E2".
pub proof fn lemma_label_ignores_case(s: Seq<char>, i: int)
    requires
        0 <= i < s.len(),
        'A' <= s[i] <= 'Z',
    ensures
        parse_label(s.update(i, ((s[i] as u32) + 32) as char)) == parse_label(s),
{
    let t = s.update(i, ((s[i] as u32) + 32) as char);
    assert(ascii_upper(t[i]) == ascii_upper(s[i]));
    assert(upper(t) =~= upper(s)) by {
        assert forall|k: int| 0 <= k < s.len() implies upper(t)[k] == upper(s)[k] by {
            if k != i {
                assert(t[k] == s[k]);
            }
        }
    }
    lemma_trim_upper(s);
    lemma_trim_upper(t);
}

} // verus!
