use yggdrasil::instance::note::{
    backlinks, graph, note_slug, parse_note, quote_yaml, render_note_markdown, split_frontmatter,
    fm_get, Note, NoteLink,
};

const T0: i64 = 1_780_876_800_000;

fn note(slug: &str, title: &str, body: &str) -> Note {
    let md = render_note_markdown(slug, title, body, T0, T0);
    parse_note(slug, &md, 0)
}

#[test]
fn slug_sanitizado_contra_traversal() {
    assert_eq!(note_slug("../../etc/passwd"), Some("etc-passwd".to_string()));
    assert_eq!(note_slug("Minha Nota"), Some("minha-nota".to_string()));
}

#[test]
fn slug_vazio_erro() {
    assert_eq!(note_slug("..."), None);
    assert_eq!(note_slug("///"), None);
}

#[test]
fn quote_yaml_doubles_single_quotes() {
    assert_eq!(quote_yaml("Nhe'ẽ"), "'Nhe''ẽ'");
    assert_eq!(quote_yaml(""), "''");
}

#[test]
fn render_writes_front_matter_and_body() {
    let md = render_note_markdown("n", "N", "liga [[B]]", T0, T0);
    assert_eq!(
        md,
        "---\ntype: nota\nslug: 'n'\ntitle: 'N'\ncreated: '2026-06-08T00:00:00+00:00'\nupdated: '2026-06-08T00:00:00+00:00'\nlinks:\n- '[[b.md]]'\ncontributed_via: yggdrasil-instance\n---\n\nliga [[B]]\n"
    );
}

#[test]
fn save_load_round_trip_in_memory() {
    let n = note("minha-nota", "Minha Nota", "Corpo com [[outra-nota]].");
    assert_eq!(n.title, "Minha Nota");
    assert_eq!(n.body, "Corpo com [[outra-nota]].\n");
    assert_eq!(n.links, vec![NoteLink { target: "outra-nota".into(), label: None }]);
    assert_eq!(n.created, T0);
    assert_eq!(n.updated, T0);
}

#[test]
fn frontmatter_round_trip_com_aspas() {
    let n = note("nhe-e", "Nhe'ẽ", "fala");
    assert_eq!(n.title, "Nhe'ẽ");
}

#[test]
fn file_without_front_matter_is_all_body() {
    let n = parse_note("x", "só corpo", 42);
    assert_eq!(n.title, "x");
    assert_eq!(n.body, "só corpo");
    assert_eq!(n.created, 42);
    assert_eq!(n.updated, 42);
}

#[test]
fn split_and_lookup_front_matter() {
    let (fm, body) = split_frontmatter("---\na: 1\ntitle: 'It''s'\n---\n\nbody\n");
    assert_eq!(fm, "a: 1\ntitle: 'It''s'");
    assert_eq!(body, "body\n");
    assert_eq!(fm_get(&fm, "title: "), Some("It's".to_string()));
    assert_eq!(fm_get(&fm, "a: "), Some("1".to_string()));
    assert_eq!(fm_get(&fm, "b: "), None);
}

#[test]
fn backlinks_invertem() {
    let notes = vec![note("a", "A", "liga [[b]]"), note("b", "B", "sem links")];
    let back = backlinks(&notes);
    assert_eq!(back.len(), 1);
    assert_eq!(back[0].0, "b");
    assert_eq!(back[0].1[0].source, "a");
}

#[test]
fn graph_filtra_alvos_inexistentes() {
    let notes = vec![note("a", "A", "[[b]] e [[fantasma]]"), note("b", "B", "")];
    let g = graph(&notes);
    let a = g.iter().find(|(k, _)| k == "a").unwrap();
    assert_eq!(a.1, vec!["b".to_string()]);
    let b = g.iter().find(|(k, _)| k == "b").unwrap();
    assert_eq!(b.1.len(), 0);
}

#[test]
fn note_file_reads_back_title_times_body_and_links() {
    let body = "Corpo com [[Outra Nota|a outra]] e [[x]]";
    let md = render_note_markdown("minha-nota", "Nhe'ẽ: ''aspas''", body, T0, T0 + 1500);
    let n = parse_note("minha-nota", &md, 7);
    assert_eq!(n.title, "Nhe'ẽ: ''aspas''");
    assert_eq!(n.body, format!("{body}\n"));
    assert_eq!(n.created, T0);
    assert_eq!(n.updated, T0 + 1500);
    let targets: Vec<&str> = n.links.iter().map(|l| l.target.as_str()).collect();
    assert_eq!(targets, vec!["outra-nota", "x"]);
    assert_eq!(n.links[0].label.as_deref(), Some("a outra"));
}
