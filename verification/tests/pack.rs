use yggdrasil::comunicacao::pack::{
    note_midi, note_midi_fits, resolve_notes, NoteSpec, PackKind, Relation, ResolvedNotes, Waveform,
    MAX_RESIDENT_ENTRIES,
};

#[test]
fn note_midi_reference_a4() {
    assert_eq!(note_midi("A4"), Some(69));
    assert_eq!(note_midi("C4"), Some(60));
    assert_eq!(note_midi("a5"), Some(81));
}

#[test]
fn note_midi_accidentals() {
    assert_eq!(note_midi("C#5"), Some(73));
    assert_eq!(note_midi("Db5"), Some(73));
    assert_eq!(note_midi("Eb3"), Some(51));
    assert_eq!(note_midi("C##4"), Some(62));
    assert_eq!(note_midi("B-1"), Some(11));
    assert_eq!(note_midi("C+4"), Some(60));
}

#[test]
fn note_midi_rejects_bad_names() {
    assert_eq!(note_midi(""), None);
    assert_eq!(note_midi("H4"), None);
    assert_eq!(note_midi("Cx"), None);
    assert_eq!(note_midi("C"), None);
    assert_eq!(note_midi("C-"), None);
    assert_eq!(note_midi("C4 "), None);
    assert_eq!(note_midi("C99999999999"), None);
}

#[test]
fn relation_and_kinds() {
    let r = Relation::new("C4", "voz");
    assert_eq!(r.to, "C4");
    assert_eq!(r.label.as_deref(), Some("voz"));
    assert_ne!(PackKind::Music, PackKind::Language);
    assert_ne!(Waveform::Sine, Waveform::Square);
    assert_eq!(MAX_RESIDENT_ENTRIES, 256);
}

fn names(v: &[&str]) -> Vec<String> {
    v.iter().map(|s| s.to_string()).collect()
}

#[test]
fn resolve_notes_le_notas_acordes_e_sequencias() {
    assert_eq!(resolve_notes(&NoteSpec::Note("A4".into())), Ok(ResolvedNotes::Note(69)));
    assert_eq!(resolve_notes(&NoteSpec::Note("H2".into())), Err("H2".to_string()));
    assert_eq!(
        resolve_notes(&NoteSpec::Chord(names(&["C4", "E4", "G4"]))),
        Ok(ResolvedNotes::Chord(vec![60, 64, 67]))
    );
    assert_eq!(resolve_notes(&NoteSpec::Chord(names(&["C4", "X", "Q"]))), Err("X".to_string()));
    assert_eq!(
        resolve_notes(&NoteSpec::Sequence(vec![Some(names(&["C4", "x9", "Eb4"])), None])),
        Ok(ResolvedNotes::Sequence(vec![Some(vec![60, 63]), None]))
    );
}

#[test]
fn note_midi_fits_marca_oitavas_fora_de_i32() {
    assert!(note_midi_fits("A4"));
    assert!(note_midi_fits("zz"));
    assert!(!note_midi_fits("C2147483647"));
    assert!(!note_midi_fits("C-178956971"));
}
