use yggdrasil::instance::note::{extract_wikilinks, links_from_body, NoteLink};
use yggdrasil::instance::schema::{AttachmentKind, Cell, GridSpec};

#[test]
fn attachment_kind_from_mime() {
    assert_eq!(
        AttachmentKind::from_mime("image/svg+xml"),
        Some(AttachmentKind::Image)
    );
    assert_eq!(
        AttachmentKind::from_mime("application/pdf"),
        Some(AttachmentKind::Pdf)
    );
    assert_eq!(
        AttachmentKind::from_mime("audio/mpeg"),
        Some(AttachmentKind::Sound)
    );
    assert_eq!(AttachmentKind::from_mime("application/x-evil"), None);
}

#[test]
fn wikilinks_com_alias_e_path() {
    let links = links_from_body("ver [[Outra Nota|alias]] e [[notes/terceira.md]]");
    assert_eq!(links.len(), 2);
    assert_eq!(
        links[0],
        NoteLink {
            target: "outra-nota".into(),
            label: Some("alias".into())
        }
    );
    assert_eq!(
        links[1],
        NoteLink {
            target: "notes-terceira-md".into(),
            label: None
        }
    );
}

#[test]
fn mime_parameters_and_blanks_are_ignored() {
    assert_eq!(
        AttachmentKind::from_mime(" text/markdown ; charset=utf-8"),
        Some(AttachmentKind::Markdown)
    );
    assert_eq!(
        AttachmentKind::from_mime("application/json"),
        Some(AttachmentKind::Metadata)
    );
    assert_eq!(AttachmentKind::from_mime(""), None);
}

#[test]
fn wikilinks_skip_blank_targets_and_stop_at_unclosed() {
    let links = extract_wikilinks("a [[ x | ]] b [[  ]] c [[y|z]] d [[open");
    assert_eq!(
        links,
        vec![("x".to_string(), None), ("y".to_string(), Some("z".to_string()))]
    );
}

#[test]
fn grid_contains_its_cells_only() {
    let g = GridSpec::default();
    assert_eq!((g.width, g.height, g.cell_size), (40, 20, 16));
    assert!(g.contains(Cell { x: 0, y: 0 }));
    assert!(g.contains(Cell { x: 39, y: 19 }));
    assert!(!g.contains(Cell { x: 40, y: 0 }));
    assert!(!g.contains(Cell { x: 0, y: 20 }));
}
