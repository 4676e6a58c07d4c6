use tuner::tuning::{
    all_presets, d_standard, dadgad, default_preset, drop_c, drop_d, e_standard, eb_standard,
    open_d, open_g, preset_by_id, standard_tuning, PresetId,
};
use tuner::{TunerMode, UiState};

#[test]
fn parses_known_preset_ids() {
    assert_eq!(PresetId::parse("e-standard"), Some(PresetId::EStandard));
    assert_eq!(PresetId::parse("drop-d"), Some(PresetId::DropD));
    assert_eq!(PresetId::parse("eb-standard"), Some(PresetId::EbStandard));
    assert_eq!(PresetId::parse("d-standard"), Some(PresetId::DStandard));
    assert_eq!(PresetId::parse("drop-c"), Some(PresetId::DropC));
    assert_eq!(PresetId::parse("open-g"), Some(PresetId::OpenG));
    assert_eq!(PresetId::parse("open-d"), Some(PresetId::OpenD));
    assert_eq!(PresetId::parse("dadgad"), Some(PresetId::Dadgad));
    assert_eq!(PresetId::parse("unknown"), None);
}

#[test]
fn returns_default_preset() {
    assert_eq!(default_preset().id, PresetId::EStandard);
    assert_eq!(preset_by_id(PresetId::DropD).display_name, "Drop D");
    assert_eq!(preset_by_id(PresetId::DropC).display_name, "Drop C");
}

#[test]
fn exposes_all_presets() {
    assert_eq!(all_presets().len(), 8);
}

#[test]
fn parses_aliases_with_space_and_case() {
    assert_eq!(PresetId::parse("  Drop-D \n"), Some(PresetId::DropD));
    assert_eq!(PresetId::parse("STANDARD"), Some(PresetId::EStandard));
    assert_eq!(PresetId::parse("standard-e"), Some(PresetId::EStandard));
    assert_eq!(PresetId::parse("D#-Standard"), Some(PresetId::EbStandard));
    assert_eq!(PresetId::parse("dsharp-standard"), Some(PresetId::EbStandard));
    assert_eq!(PresetId::parse("OpenG"), Some(PresetId::OpenG));
    assert_eq!(PresetId::parse("E Standard"), None);
    assert_eq!(PresetId::parse(""), None);
}

#[test]
fn every_key_parses_back_and_every_preset_names_itself() {
    let presets = all_presets();
    for (position, id) in PresetId::ALL.iter().enumerate() {
        assert_eq!(PresetId::parse(id.as_str()), Some(*id));
        assert_eq!(presets[position].id, *id);
        assert_eq!(presets[position].display_name, id.display_name());
        assert_eq!(preset_by_id(*id).id, *id);
    }
}

#[test]
fn preset_strings_are_ordered_lowest_first() {
    for id in PresetId::ALL {
        let preset = preset_by_id(id);
        for (position, string) in preset.strings.iter().enumerate() {
            assert_eq!(string.index as usize, position);
            assert_eq!(string.display_number as usize, 6 - position);
            assert_eq!(preset.string_by_index(position as u8).unwrap().label, string.label);
        }
        for pair in preset.strings.windows(2) {
            assert!(pair[0].frequency_centihertz < pair[1].frequency_centihertz);
            assert!(pair[0].note.midi() < pair[1].note.midi());
        }
        assert!(preset.string_by_index(6).is_none());
        assert_eq!(preset.lowest_frequency_centihertz(), preset.strings[0].frequency_centihertz);
        assert_eq!(preset.highest_frequency_centihertz(), preset.strings[5].frequency_centihertz);
    }
}

#[test]
fn standard_tuning_table_values() {
    let preset = preset_by_id(PresetId::EStandard);
    assert_eq!(preset.display_name, "E Standard");
    assert_eq!(preset.strings[0].label, "E2");
    assert_eq!(preset.strings[0].note.midi(), 40);
    assert_eq!(preset.lowest_frequency_centihertz(), 8241);
    assert_eq!(preset.highest_frequency_centihertz(), 32963);
    assert_eq!(preset.strings[1].note_name(), "A2");
    let drop_c = preset_by_id(PresetId::DropC);
    assert_eq!(drop_c.strings[0].label, "C2");
    assert_eq!(drop_c.lowest_frequency_centihertz(), 6541);
    let open_d = preset_by_id(PresetId::OpenD);
    assert_eq!(open_d.string_by_index(3).unwrap().label, "F#3");
    assert_eq!(preset_by_id(PresetId::EbStandard).strings[0].label, "Eb2");
}

#[test]
fn modes_and_states_compare_by_value() {
    assert_eq!(TunerMode::Preset(PresetId::DropD), TunerMode::Preset(PresetId::DropD));
    assert_ne!(TunerMode::Preset(PresetId::DropD), TunerMode::Chromatic);
    assert_ne!(UiState::InTune, UiState::TooLow);
}

#[test]
fn string_labels_are_note_labels_except_for_flats() {
    for id in PresetId::ALL {
        let preset = preset_by_id(id);
        for string in preset.strings.iter() {
            if id == PresetId::EbStandard {
                assert_ne!(string.note.label(), string.label);
            } else {
                assert_eq!(string.note.label(), string.label);
            }
        }
    }
}

#[test]
fn named_presets_match_lookup_by_id() {
    assert_eq!(e_standard(), preset_by_id(PresetId::EStandard));
    assert_eq!(drop_d(), preset_by_id(PresetId::DropD));
    assert_eq!(eb_standard(), preset_by_id(PresetId::EbStandard));
    assert_eq!(d_standard(), preset_by_id(PresetId::DStandard));
    assert_eq!(drop_c(), preset_by_id(PresetId::DropC));
    assert_eq!(open_g(), preset_by_id(PresetId::OpenG));
    assert_eq!(open_d(), preset_by_id(PresetId::OpenD));
    assert_eq!(dadgad(), preset_by_id(PresetId::Dadgad));
    assert_eq!(standard_tuning(), e_standard().strings);
    assert_eq!(standard_tuning()[5].label, "E4");
}
