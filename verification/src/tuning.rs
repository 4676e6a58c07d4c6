use vstd::prelude::*;

use crate::note::{label_text, name_of, octave_of, Note};
use crate::text::{
    decimal_text, digits_text, DIGITS,
    chars_equal, chars_of, is_white_space, lower, lower_chars, trim, trim_chars,
    trim_end, trim_start,
};

verus! {

/// The tuning presets the library knows.
#[derive(Debug, Clone, Copy, PartialEq, Eq, Hash, Structural)]
pub enum PresetId {
    EStandard,
    DropD,
    EbStandard,
    DStandard,
    DropC,
    OpenG,
    OpenD,
    Dadgad,
}

/// Display names of the presets, in the order of `PresetId`.
pub const PRESET_DISPLAY_NAMES: [&'static str; 8] = [
    "E Standard",
    "Drop D",
    "Eb Standard",
    "D Standard",
    "Drop C",
    "Open G",
    "Open D",
    "DADGAD",
];

/// String labels of each preset, lowest string first.
pub const PRESET_LABELS: [[&'static str; 6]; 8] = [
    ["E2", "A2", "D3", "G3", "B3", "E4"],
    ["D2", "A2", "D3", "G3", "B3", "E4"],
    ["Eb2", "Ab2", "Db3", "Gb3", "Bb3", "Eb4"],
    ["D2", "G2", "C3", "F3", "A3", "D4"],
    ["C2", "G2", "C3", "F3", "A3", "D4"],
    ["D2", "G2", "D3", "G3", "B3", "D4"],
    ["D2", "A2", "D3", "F#3", "A3", "D4"],
    ["D2", "A2", "D3", "G3", "A3", "D4"]
];

/// MIDI note numbers of each preset's strings, lowest string first.
pub const PRESET_MIDI: [[i32; 6]; 8] = [
    [40, 45, 50, 55, 59, 64],
    [38, 45, 50, 55, 59, 64],
    [39, 44, 49, 54, 58, 63],
    [38, 43, 48, 53, 57, 62],
    [36, 43, 48, 53, 57, 62],
    [38, 43, 50, 55, 59, 62],
    [38, 45, 50, 54, 57, 62],
    [38, 45, 50, 55, 57, 62]
];

/// Target frequencies of each preset's strings in hundredths of a hertz,
/// lowest string first.
pub const PRESET_CENTIHERTZ: [[u32; 6]; 8] = [
    [8241, 11000, 14683, 19600, 24694, 32963],
    [7342, 11000, 14683, 19600, 24694, 32963],
    [7778, 10383, 13859, 18500, 23308, 31113],
    [7342, 9800, 13081, 17461, 22000, 29366],
    [6541, 9800, 13081, 17461, 22000, 29366],
    [7342, 9800, 14683, 19600, 24694, 29366],
    [7342, 11000, 14683, 18500, 22000, 29366],
    [7342, 11000, 14683, 19600, 22000, 29366]
];

impl PresetId {
    /// Every preset, in declaration order.
    pub const ALL: [PresetId; 8] = [
        PresetId::EStandard,
        PresetId::DropD,
        PresetId::EbStandard,
        PresetId::DStandard,
        PresetId::DropC,
        PresetId::OpenG,
        PresetId::OpenD,
        PresetId::Dadgad,
    ];

    /// Position in declaration order.
    pub open spec fn ordinal(self) -> int {
        match self {
            PresetId::EStandard => 0,
            PresetId::DropD => 1,
            PresetId::EbStandard => 2,
            PresetId::DStandard => 3,
            PresetId::DropC => 4,
            PresetId::OpenG => 5,
            PresetId::OpenD => 6,
            PresetId::Dadgad => 7,
        }
    }

    fn index(self) -> (r: usize)
        ensures
            r == self.ordinal(),
    {
        match self {
            PresetId::EStandard => 0,
            PresetId::DropD => 1,
            PresetId::EbStandard => 2,
            PresetId::DStandard => 3,
            PresetId::DropC => 4,
            PresetId::OpenG => 5,
            PresetId::OpenD => 6,
            PresetId::Dadgad => 7,
        }
    }

    /// The key that identifies the preset, such as `"drop-d"`.
    pub open spec fn key_text(self) -> Seq<char> {
        match self {
            PresetId::EStandard => "e-standard"@,
            PresetId::DropD => "drop-d"@,
            PresetId::EbStandard => "eb-standard"@,
            PresetId::DStandard => "d-standard"@,
            PresetId::DropC => "drop-c"@,
            PresetId::OpenG => "open-g"@,
            PresetId::OpenD => "open-d"@,
            PresetId::Dadgad => "dadgad"@,
        }
    }

    /// The key that identifies the preset.
    pub fn as_str(self) -> (s: &'static str)
        ensures
            s@ == self.key_text(),
    {
        match self {
            PresetId::EStandard => "e-standard",
            PresetId::DropD => "drop-d",
            PresetId::EbStandard => "eb-standard",
            PresetId::DStandard => "d-standard",
            PresetId::DropC => "drop-c",
            PresetId::OpenG => "open-g",
            PresetId::OpenD => "open-d",
            PresetId::Dadgad => "dadgad",
        }
    }

    /// The name shown to people, such as `"Drop D"`.
    pub fn display_name(self) -> (s: &'static str)
        ensures
            s == PRESET_DISPLAY_NAMES[self.ordinal()],
    {
        PRESET_DISPLAY_NAMES[self.index()]
    }

    /// Reads a preset key, ignoring surrounding white space and ASCII case,
    /// and accepting the aliases that `key_preset` lists.
    pub fn parse(value: &str) -> (r: Option<PresetId>)
        ensures
            r == key_preset(lower(trim(value@))),
    {
        let chars = chars_of(value);
        let trimmed = trim_chars(&chars);
        let key = lower_chars(&trimmed);
        if chars_equal(&key, "e-standard") || chars_equal(&key, "estandard") || chars_equal(
            &key,
            "standard",
        ) || chars_equal(&key, "standard-e") {
            Some(PresetId::EStandard)
        } else if chars_equal(&key, "drop-d") || chars_equal(&key, "dropd") {
            Some(PresetId::DropD)
        } else if chars_equal(&key, "eb-standard") || chars_equal(&key, "ebstandard")
            || chars_equal(&key, "dsharp-standard") || chars_equal(&key, "d#-standard") {
            Some(PresetId::EbStandard)
        } else if chars_equal(&key, "d-standard") || chars_equal(&key, "dstandard") {
            Some(PresetId::DStandard)
        } else if chars_equal(&key, "drop-c") || chars_equal(&key, "dropc") {
            Some(PresetId::DropC)
        } else if chars_equal(&key, "open-g") || chars_equal(&key, "openg") {
            Some(PresetId::OpenG)
        } else if chars_equal(&key, "open-d") || chars_equal(&key, "opend") {
            Some(PresetId::OpenD)
        } else if chars_equal(&key, "dadgad") {
            Some(PresetId::Dadgad)
        } else {
            None
        }
    }
}

/// The preset a normalized key names, with its aliases.
pub open spec fn key_preset(k: Seq<char>) -> Option<PresetId> {
    if k == "e-standard"@ || k == "estandard"@ || k == "standard"@ || k == "standard-e"@ {
        Some(PresetId::EStandard)
    } else if k == "drop-d"@ || k == "dropd"@ {
        Some(PresetId::DropD)
    } else if k == "eb-standard"@ || k == "ebstandard"@ || k == "dsharp-standard"@ || k
        == "d#-standard"@ {
        Some(PresetId::EbStandard)
    } else if k == "d-standard"@ || k == "dstandard"@ {
        Some(PresetId::DStandard)
    } else if k == "drop-c"@ || k == "dropc"@ {
        Some(PresetId::DropC)
    } else if k == "open-g"@ || k == "openg"@ {
        Some(PresetId::OpenG)
    } else if k == "open-d"@ || k == "opend"@ {
        Some(PresetId::OpenD)
    } else if k == "dadgad"@ {
        Some(PresetId::Dadgad)
    } else {
        None
    }
}

/// One string of a tuning preset.
#[derive(Debug, Clone, Copy, PartialEq)]
pub struct TargetString {
    /// Position in the preset, 0 for the lowest string.
    pub index: u8,
    /// The number a guitarist calls the string, 6 for the lowest.
    pub display_number: u8,
    pub label: &'static str,
    pub note: Note,
    /// Target frequency in hundredths of a hertz.
    pub frequency_centihertz: u32,
}

impl TargetString {
    /// The label of the string's note, as the preset writes it.
    pub fn note_name(self) -> (r: &'static str)
        ensures
            r == self.label,
    {
        self.label
    }
}

/// A named tuning: six strings, lowest first.
#[derive(Debug, Clone, Copy, PartialEq)]
pub struct TuningPreset {
    pub id: PresetId,
    pub display_name: &'static str,
    pub strings: [TargetString; 6],
}

/// String `i` of the preset at position `k` of the table.
pub open spec fn table_string(k: int, i: int) -> TargetString {
    TargetString {
        index: i as u8,
        display_number: (6 - i) as u8,
        label: PRESET_LABELS[k][i],
        note: Note::spec_from_midi(PRESET_MIDI[k][i]),
        frequency_centihertz: PRESET_CENTIHERTZ[k][i],
    }
}

/// The preset that `id` names, as the tables hold it.
pub open spec fn table_preset(id: PresetId) -> TuningPreset {
    let k = id.ordinal();
    TuningPreset {
        id,
        display_name: PRESET_DISPLAY_NAMES[k],
        strings: [
            table_string(k, 0),
            table_string(k, 1),
            table_string(k, 2),
            table_string(k, 3),
            table_string(k, 4),
            table_string(k, 5),
        ],
    }
}

/// The first string in `strings` whose index is `index`.
pub open spec fn first_with_index(strings: Seq<TargetString>, index: u8) -> Option<int>
    decreases strings.len(),
{
    if strings.len() == 0 {
        None
    } else if strings[0].index == index {
        Some(0)
    } else {
        match first_with_index(strings.drop_first(), index) {
            Some(i) => Some(i + 1),
            None => None,
        }
    }
}

fn table_target(k: usize, i: usize) -> (t: TargetString)
    requires
        k < 8,
        i < 6,
    ensures
        t == table_string(k as int, i as int),
{
    TargetString {
        index: i as u8,
        display_number: (6 - i) as u8,
        label: PRESET_LABELS[k][i],
        note: Note::from_midi(PRESET_MIDI[k][i]),
        frequency_centihertz: PRESET_CENTIHERTZ[k][i],
    }
}

impl TuningPreset {
    /// The first string whose `index` field is `index`.
    pub fn string_by_index(&self, index: u8) -> (r: Option<&TargetString>)
        ensures
            r matches Some(s) ==> first_with_index(self.strings@, index) matches Some(i) && *s
                == self.strings@[i],
            r is None ==> first_with_index(self.strings@, index) is None,
    {
        let mut i: usize = 0;
        while i < 6
            invariant
                i <= 6,
                forall|j: int| 0 <= j < i ==> (#[trigger] self.strings@[j]).index != index,
            decreases 6 - i,
        {
            if self.strings[i].index == index {
                proof {
                    lemma_first_with_index_at(self.strings@, index, i as int);
                }
                return Some(&self.strings[i]);
            }
            i = i + 1;
        }
        proof {
            lemma_first_with_index_none(self.strings@, index);
        }
        None
    }

    /// Frequency of the first (lowest) string, in hundredths of a hertz.
    pub fn lowest_frequency_centihertz(&self) -> (r: u32)
        ensures
            r == self.strings@[0].frequency_centihertz,
    {
        self.strings[0].frequency_centihertz
    }

    /// Frequency of the last (highest) string, in hundredths of a hertz.
    pub fn highest_frequency_centihertz(&self) -> (r: u32)
        ensures
            r == self.strings@[5].frequency_centihertz,
    {
        self.strings[self.strings.len() - 1].frequency_centihertz
    }
}

proof fn lemma_first_with_index_at(s: Seq<TargetString>, index: u8, i: int)
    requires
        0 <= i < s.len(),
        forall|j: int| 0 <= j < i ==> (#[trigger] s[j]).index != index,
        s[i].index == index,
    ensures
        first_with_index(s, index) == Some(i),
    decreases i,
{
    if i > 0 {
        let t = s.drop_first();
        assert forall|j: int| 0 <= j < i - 1 implies (#[trigger] t[j]).index != index by {
            assert(t[j] == s[j + 1]);
        }
        assert(s[0].index != index);
        lemma_first_with_index_at(t, index, i - 1);
    }
}

proof fn lemma_first_with_index_none(s: Seq<TargetString>, index: u8)
    requires
        forall|j: int| 0 <= j < s.len() ==> (#[trigger] s[j]).index != index,
    ensures
        first_with_index(s, index) is None,
    decreases s.len(),
{
    if s.len() > 0 {
        let t = s.drop_first();
        assert forall|j: int| 0 <= j < t.len() implies (#[trigger] t[j]).index != index by {
            assert(t[j] == s[j + 1]);
        }
        assert(s[0].index != index);
        lemma_first_with_index_none(t, index);
    }
}

/// The preset that `id` names.
pub fn preset_by_id(id: PresetId) -> (p: TuningPreset)
    ensures
        p == table_preset(id),
{
    let k = id.index();
    TuningPreset {
        id,
        display_name: PRESET_DISPLAY_NAMES[k],
        strings: [
            table_target(k, 0),
            table_target(k, 1),
            table_target(k, 2),
            table_target(k, 3),
            table_target(k, 4),
            table_target(k, 5),
        ],
    }
}

/// The E Standard preset.
pub fn e_standard() -> (p: TuningPreset)
    ensures
        p == table_preset(PresetId::EStandard),
{
    preset_by_id(PresetId::EStandard)
}

/// The Drop D preset.
pub fn drop_d() -> (p: TuningPreset)
    ensures
        p == table_preset(PresetId::DropD),
{
    preset_by_id(PresetId::DropD)
}

/// The Eb Standard preset.
pub fn eb_standard() -> (p: TuningPreset)
    ensures
        p == table_preset(PresetId::EbStandard),
{
    preset_by_id(PresetId::EbStandard)
}

/// The D Standard preset.
pub fn d_standard() -> (p: TuningPreset)
    ensures
        p == table_preset(PresetId::DStandard),
{
    preset_by_id(PresetId::DStandard)
}

/// The Drop C preset.
pub fn drop_c() -> (p: TuningPreset)
    ensures
        p == table_preset(PresetId::DropC),
{
    preset_by_id(PresetId::DropC)
}

/// The Open G preset.
pub fn open_g() -> (p: TuningPreset)
    ensures
        p == table_preset(PresetId::OpenG),
{
    preset_by_id(PresetId::OpenG)
}

/// The Open D preset.
pub fn open_d() -> (p: TuningPreset)
    ensures
        p == table_preset(PresetId::OpenD),
{
    preset_by_id(PresetId::OpenD)
}

/// The DADGAD preset.
pub fn dadgad() -> (p: TuningPreset)
    ensures
        p == table_preset(PresetId::Dadgad),
{
    preset_by_id(PresetId::Dadgad)
}

/// The strings of E Standard, lowest first.
pub fn standard_tuning() -> (r: [TargetString; 6])
    ensures
        r == table_preset(PresetId::EStandard).strings,
{
    e_standard().strings
}

/// E Standard, the preset a tuner starts with.
pub fn default_preset() -> (p: TuningPreset)
    ensures
        p == table_preset(PresetId::EStandard),
{
    preset_by_id(PresetId::EStandard)
}

/// Every preset, in the order of `PresetId::ALL`.
pub fn all_presets() -> (r: Vec<TuningPreset>)
    ensures
        r@.len() == 8,
        forall|k: int| 0 <= k < 8 ==> #[trigger] r@[k] == table_preset(PresetId::ALL[k]),
{
    let mut r: Vec<TuningPreset> = Vec::new();
    let mut k: usize = 0;
    while k < 8
        invariant
            k <= 8,
            r@.len() == k,
            forall|j: int| 0 <= j < k ==> #[trigger] r@[j] == table_preset(PresetId::ALL[j]),
        decreases 8 - k,
    {
        r.push(preset_by_id(PresetId::ALL[k]));
        k = k + 1;
    }
    r
}


/// `PresetId::ALL` lists every preset exactly once, each at its ordinal.
pub proof fn lemma_all_ids(id: PresetId)
    ensures
        PresetId::ALL[id.ordinal()] == id,
        forall|k: int| 0 <= k < 8 ==> (#[trigger] PresetId::ALL[k]).ordinal() == k,
{
}

/// Every preset names itself, and lists six strings lowest first: string `i`
/// has index `i` and display number `6 - i`, and both the target frequency and
/// the note number rise strictly from each string to every later one.
pub proof fn lemma_preset_table(id: PresetId)
    ensures
        table_preset(id).id == id,
        forall|i: int|
            0 <= i < 6 ==> (#[trigger] table_preset(id).strings@[i]).index == i
                && table_preset(id).strings@[i].display_number == 6 - i,
        forall|i: int, j: int|
            0 <= i < j < 6 ==> (#[trigger] table_preset(id).strings@[i]).frequency_centihertz
                < (#[trigger] table_preset(id).strings@[j]).frequency_centihertz,
        forall|i: int, j: int|
            0 <= i < j < 6 ==> (#[trigger] table_preset(id).strings@[i]).note@ < (
            #[trigger] table_preset(id).strings@[j]).note@,
{
    let k = id.ordinal();
    let s = table_preset(id).strings@;
    assert forall|i: int| 0 <= i < 6 implies (#[trigger] s[i]).index == i && s[i].display_number
        == 6 - i by {
        if i == 0 {} else if i == 1 {} else if i == 2 {} else if i == 3 {} else if i == 4 {}
        else {}
    }
    assert forall|i: int| 0 <= i < 6 implies (#[trigger] s[i]).note@ == PRESET_MIDI[k][i] by {
        Note::lemma_view(PRESET_MIDI[k][i]);
        if i == 0 {} else if i == 1 {} else if i == 2 {} else if i == 3 {} else if i == 4 {}
        else {}
    }
    assert forall|i: int, j: int| 0 <= i < j < 6 implies PRESET_CENTIHERTZ[k][i]
        < PRESET_CENTIHERTZ[k][j] && PRESET_MIDI[k][i] < PRESET_MIDI[k][j] by {
        if k == 0 {} else if k == 1 {} else if k == 2 {} else if k == 3 {} else if k == 4 {}
        else if k == 5 {} else if k == 6 {} else {}
    }
    assert forall|i: int, j: int| 0 <= i < j < 6 implies (#[trigger] s[i]).frequency_centihertz
        < (#[trigger] s[j]).frequency_centihertz by {
        assert(s[i].frequency_centihertz == PRESET_CENTIHERTZ[k][i]) by {
            if i == 0 {} else if i == 1 {} else if i == 2 {} else if i == 3 {} else if i == 4 {}
            else {}
        }
        assert(s[j].frequency_centihertz == PRESET_CENTIHERTZ[k][j]) by {
            if j == 0 {} else if j == 1 {} else if j == 2 {} else if j == 3 {} else if j == 4 {}
            else {}
        }
    }
}

/// Looking up a string of a preset by its index finds the string at that
/// position for indices below six, and nothing for any other index.
pub proof fn lemma_string_lookup(id: PresetId, index: u8)
    ensures
        first_with_index(table_preset(id).strings@, index) == (if index < 6 {
            Some(index as int)
        } else {
            None::<int>
        }),
{
    lemma_preset_table(id);
    let s = table_preset(id).strings@;
    if index < 6 {
        assert forall|j: int| 0 <= j < index implies (#[trigger] s[j]).index != index by {
            assert(s[j].index == j);
        }
        lemma_first_with_index_at(s, index, index as int);
    } else {
        assert forall|j: int| 0 <= j < s.len() implies (#[trigger] s[j]).index != index by {
            assert(s[j].index == j);
        }
        lemma_first_with_index_none(s, index);
    }
}

proof fn lemma_plain_key(k: Seq<char>)
    requires
        k.len() > 0,
        forall|i: int|
            0 <= i < k.len() ==> ('a' <= #[trigger] k[i] <= 'z' || k[i] == '-' || k[i] == '#'),
    ensures
        lower(trim(k)) == k,
{
    assert(!is_white_space(k[0]));
    assert(!is_white_space(k.last()));
    assert(trim_start(k) == k);
    assert(trim_end(k) == k);
    assert(lower(k) =~= k);
}

/// Reading a preset's key gives that preset back.
pub proof fn lemma_parse_key(id: PresetId)
    ensures
        key_preset(lower(trim(id.key_text()))) == Some(id),
{
    reveal_strlit("e-standard");
    reveal_strlit("estandard");
    reveal_strlit("standard");
    reveal_strlit("standard-e");
    reveal_strlit("drop-d");
    reveal_strlit("dropd");
    reveal_strlit("eb-standard");
    reveal_strlit("ebstandard");
    reveal_strlit("dsharp-standard");
    reveal_strlit("d#-standard");
    reveal_strlit("d-standard");
    reveal_strlit("dstandard");
    reveal_strlit("drop-c");
    reveal_strlit("dropc");
    reveal_strlit("open-g");
    reveal_strlit("openg");
    reveal_strlit("open-d");
    reveal_strlit("opend");
    reveal_strlit("dadgad");
    let k = id.key_text();
    lemma_plain_key(k);
    match id {
        PresetId::DStandard => {
            assert(k[0] != "e-standard"@[0]);
            assert(k[0] != "standard-e"@[0]);
            assert(k[0] != "ebstandard"@[0]);
        },
        PresetId::DropC => {
            assert(k[5] != "drop-d"@[5]);
        },
        PresetId::OpenG => {
            assert(k[0] != "drop-d"@[0]);
            assert(k[0] != "drop-c"@[0]);
        },
        PresetId::OpenD => {
            assert(k[0] != "drop-d"@[0]);
            assert(k[0] != "drop-c"@[0]);
            assert(k[5] != "open-g"@[5]);
        },
        PresetId::Dadgad => {
            assert(k[1] != "drop-d"@[1]);
            assert(k[1] != "drop-c"@[1]);
            assert(k[0] != "open-g"@[0]);
            assert(k[0] != "open-d"@[0]);
        },
        _ => {},
    }
}


proof fn lemma_label_of_low_note(m: i32)
    requires
        12 <= m < 120,
    ensures
        label_text(m as int) == name_of(m as int).text() + seq![DIGITS[octave_of(m as int)]],
        0 <= octave_of(m as int) < 10,
{
    assert(0 <= octave_of(m as int) < 10);
    assert(decimal_text(octave_of(m as int)) == digits_text(octave_of(m as int) as nat));
}

/// Every preset but Eb Standard labels each string with its note's label;
/// Eb Standard writes its notes with flats, such as `"Eb2"` for D#2.
pub proof fn lemma_preset_labels(id: PresetId, i: int)
    requires
        id != PresetId::EbStandard,
        0 <= i < 6,
    ensures
        table_preset(id).strings@[i].label@ == label_text(table_preset(id).strings@[i].note@),
{
    reveal_strlit("E2");
    reveal_strlit("A2");
    reveal_strlit("D3");
    reveal_strlit("G3");
    reveal_strlit("B3");
    reveal_strlit("E4");
    reveal_strlit("D2");
    reveal_strlit("Eb2");
    reveal_strlit("Ab2");
    reveal_strlit("Db3");
    reveal_strlit("Gb3");
    reveal_strlit("Bb3");
    reveal_strlit("Eb4");
    reveal_strlit("G2");
    reveal_strlit("C3");
    reveal_strlit("F3");
    reveal_strlit("A3");
    reveal_strlit("D4");
    reveal_strlit("C2");
    reveal_strlit("F#3");
    let k = id.ordinal();
    let m = PRESET_MIDI[k][i];
    let t = table_preset(id).strings@[i];
    assert(t == table_string(k, i)) by {
        if i == 0 {} else if i == 1 {} else if i == 2 {} else if i == 3 {} else if i == 4 {}
        else {}
    }
    Note::lemma_view(m);
    assert(t.note@ == m);
    assert(12 <= m < 120) by {
        if k == 0 {} else if k == 1 {} else if k == 3 {} else if k == 4 {} else if k == 5 {}
        else if k == 6 {} else {}
    }
    lemma_label_of_low_note(m);
    assert(PRESET_LABELS[k][i]@ =~= name_of(m as int).text() + seq![DIGITS[octave_of(m as int)]])
        by {
        if k == 0 {
            if i == 0 {} else if i == 1 {} else if i == 2 {} else if i == 3 {} else if i == 4 {}
            else {}
        } else if k == 1 {
            if i == 0 {} else if i == 1 {} else if i == 2 {} else if i == 3 {} else if i == 4 {}
            else {}
        } else if k == 3 {
            if i == 0 {} else if i == 1 {} else if i == 2 {} else if i == 3 {} else if i == 4 {}
            else {}
        } else if k == 4 {
            if i == 0 {} else if i == 1 {} else if i == 2 {} else if i == 3 {} else if i == 4 {}
            else {}
        } else if k == 5 {
            if i == 0 {} else if i == 1 {} else if i == 2 {} else if i == 3 {} else if i == 4 {}
            else {}
        } else if k == 6 {
            if i == 0 {} else if i == 1 {} else if i == 2 {} else if i == 3 {} else if i == 4 {}
            else {}
        } else {
            if i == 0 {} else if i == 1 {} else if i == 2 {} else if i == 3 {} else if i == 4 {}
            else {}
        }
    }
}


/// Every alias of every preset reads as that preset, so that `parse` gives
/// it for the alias in any ASCII case and with surrounding white space.
pub proof fn lemma_preset_aliases()
    ensures
        key_preset("e-standard"@) == Some(PresetId::EStandard),
        key_preset("estandard"@) == Some(PresetId::EStandard),
        key_preset("standard"@) == Some(PresetId::EStandard),
        key_preset("standard-e"@) == Some(PresetId::EStandard),
        key_preset("drop-d"@) == Some(PresetId::DropD),
        key_preset("dropd"@) == Some(PresetId::DropD),
        key_preset("eb-standard"@) == Some(PresetId::EbStandard),
        key_preset("ebstandard"@) == Some(PresetId::EbStandard),
        key_preset("dsharp-standard"@) == Some(PresetId::EbStandard),
        key_preset("d#-standard"@) == Some(PresetId::EbStandard),
        key_preset("d-standard"@) == Some(PresetId::DStandard),
        key_preset("dstandard"@) == Some(PresetId::DStandard),
        key_preset("drop-c"@) == Some(PresetId::DropC),
        key_preset("dropc"@) == Some(PresetId::DropC),
        key_preset("open-g"@) == Some(PresetId::OpenG),
        key_preset("openg"@) == Some(PresetId::OpenG),
        key_preset("open-d"@) == Some(PresetId::OpenD),
        key_preset("opend"@) == Some(PresetId::OpenD),
        key_preset("dadgad"@) == Some(PresetId::Dadgad),
{
    reveal_strlit("e-standard");
    reveal_strlit("estandard");
    reveal_strlit("standard");
    reveal_strlit("standard-e");
    reveal_strlit("drop-d");
    reveal_strlit("dropd");
    reveal_strlit("eb-standard");
    reveal_strlit("ebstandard");
    reveal_strlit("dsharp-standard");
    reveal_strlit("d#-standard");
    reveal_strlit("d-standard");
    reveal_strlit("dstandard");
    reveal_strlit("drop-c");
    reveal_strlit("dropc");
    reveal_strlit("open-g");
    reveal_strlit("openg");
    reveal_strlit("open-d");
    reveal_strlit("opend");
    reveal_strlit("dadgad");
    assert("e-standard"@.len() == 10);
    assert("estandard"@.len() == 9);
    assert("standard"@.len() == 8);
    assert("standard-e"@.len() == 10);
    assert("drop-d"@.len() == 6);
    assert("dropd"@.len() == 5);
    assert("eb-standard"@.len() == 11);
    assert("ebstandard"@.len() == 10);
    assert("dsharp-standard"@.len() == 15);
    assert("d#-standard"@.len() == 11);
    assert("d-standard"@.len() == 10);
    assert("dstandard"@.len() == 9);
    assert("drop-c"@.len() == 6);
    assert("dropc"@.len() == 5);
    assert("open-g"@.len() == 6);
    assert("openg"@.len() == 5);
    assert("open-d"@.len() == 6);
    assert("opend"@.len() == 5);
    assert("dadgad"@.len() == 6);
    assert("standard-e"@[0] != "e-standard"@[0]);
    assert("ebstandard"@[1] != "e-standard"@[1]);
    assert("ebstandard"@[0] != "standard-e"@[0]);
    assert("d#-standard"@[0] != "eb-standard"@[0]);
    assert("d-standard"@[0] != "e-standard"@[0]);
    assert("d-standard"@[0] != "standard-e"@[0]);
    assert("d-standard"@[0] != "ebstandard"@[0]);
    assert("dstandard"@[0] != "estandard"@[0]);
    assert("drop-c"@[5] != "drop-d"@[5]);
    assert("dropc"@[4] != "dropd"@[4]);
    assert("open-g"@[0] != "drop-d"@[0]);
    assert("open-g"@[0] != "drop-c"@[0]);
    assert("openg"@[0] != "dropd"@[0]);
    assert("openg"@[0] != "dropc"@[0]);
    assert("open-d"@[0] != "drop-d"@[0]);
    assert("open-d"@[0] != "drop-c"@[0]);
    assert("open-d"@[5] != "open-g"@[5]);
    assert("opend"@[0] != "dropd"@[0]);
    assert("opend"@[0] != "dropc"@[0]);
    assert("opend"@[4] != "openg"@[4]);
    assert("dadgad"@[1] != "drop-d"@[1]);
    assert("dadgad"@[1] != "drop-c"@[1]);
    assert("dadgad"@[0] != "open-g"@[0]);
    assert("dadgad"@[0] != "open-d"@[0]);
}

/// A key as it is formed from a display name: capitals made small and spaces
/// made hyphens.
pub open spec fn key_of_display(name: Seq<char>) -> Seq<char> {
    name.map_values(
        |c: char|
            if 'A' <= c <= 'Z' {
                ((c as u32) + 32) as char
            } else if c == ' ' {
                '-'
            } else {
                c
            },
    )
}

/// Each preset's key is its display name with capitals made small and spaces
/// made hyphens: "Eb Standard" has the key "eb-standard".
pub proof fn lemma_key_from_display_name(id: PresetId)
    ensures
        id.key_text() == key_of_display(PRESET_DISPLAY_NAMES[id.ordinal()]@),
{
    reveal_strlit("e-standard");
    reveal_strlit("estandard");
    reveal_strlit("standard");
    reveal_strlit("standard-e");
    reveal_strlit("drop-d");
    reveal_strlit("dropd");
    reveal_strlit("eb-standard");
    reveal_strlit("ebstandard");
    reveal_strlit("dsharp-standard");
    reveal_strlit("d#-standard");
    reveal_strlit("d-standard");
    reveal_strlit("dstandard");
    reveal_strlit("drop-c");
    reveal_strlit("dropc");
    reveal_strlit("open-g");
    reveal_strlit("openg");
    reveal_strlit("open-d");
    reveal_strlit("opend");
    reveal_strlit("dadgad");
    reveal_strlit("E Standard");
    reveal_strlit("Drop D");
    reveal_strlit("Eb Standard");
    reveal_strlit("D Standard");
    reveal_strlit("Drop C");
    reveal_strlit("Open G");
    reveal_strlit("Open D");
    reveal_strlit("DADGAD");
    assert(id.key_text() =~= key_of_display(PRESET_DISPLAY_NAMES[id.ordinal()]@));
}

} // verus!
