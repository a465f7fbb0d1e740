use yggdrasil::comunicacao::lexicon::{
    contribution, mark_reviewed, promotion, promotion_paths, render_term_markdown, slug_from_lowered, slugify, LexiconError,
    LexiconScope, LexiconStore,
};
use yggdrasil::comunicacao::room::{Element, LexiconLink, Reference};

#[test]
fn slugify_remove_diacriticos_e_tom() {
    assert_eq!(slugify("iemanjá"), "iemanja");
    assert_eq!(slugify("àṣẹ"), "ase");
    assert_eq!(slugify("ọ̀rọ̀"), "oro");
    assert_eq!(slugify("nhe'ẽ"), "nhe-e");
    assert_eq!(slugify("ara pyau"), "ara-pyau");
    assert_eq!(slugify("Nhandereko"), "nhandereko");
    assert_eq!(slugify("  --  "), "termo");
}

#[test]
fn slugify_dobra_maiusculas_acentuadas() {
    // Letras acentuadas MAIÚSCULAS (início de palavra) precisam ser dobradas
    // tanto quanto as minúsculas — regressão do bug "Òrúnmìlà → runmila".
    assert_eq!(slugify("Òrúnmìlà"), "orunmila");
    assert_eq!(slugify("Èṣù"), "esu");
    assert_eq!(slugify("Egbé Òrun"), "egbe-orun");
    assert_eq!(slugify("Olódùmarè"), "olodumare");
    assert_eq!(slugify("Ñamandu"), "namandu");
    assert_eq!(slugify("Yemọja"), "yemoja");
    assert_eq!(slugify("Ifá"), "ifa");
}

#[test]
fn lang_dir_mapeia_codigos() {
    assert_eq!(LexiconStore::lang_dir("yo"), Some("yoruba"));
    assert_eq!(LexiconStore::lang_dir("gn-mbya"), Some("guarani-mbya"));
    assert_eq!(LexiconStore::lang_dir("pt-br"), Some("portuguese"));
    assert_eq!(LexiconStore::lang_dir("es"), Some("spanish"));
    assert_eq!(LexiconStore::lang_dir("klingon"), None);
}


fn is_slug(t: &str) -> bool {
    !t.is_empty()
        && t.chars().all(|c| c.is_ascii_lowercase() || c.is_ascii_digit() || c == '-')
        && !t.starts_with('-')
        && !t.ends_with('-')
        && !t.contains("--")
}

#[test]
fn slugify_sempre_da_um_slug_e_e_idempotente() {
    for w in ["Òrúnmìlà", "nhe'ẽ", "  --  ", "A--B", "KELVIN \u{212A}", "İstanbul", "x9 Y8", "-ara-"] {
        let r = slugify(w);
        assert!(is_slug(&r), "{w} -> {r}");
        assert_eq!(slugify(&r), r);
    }
    assert_eq!(slugify("ara-pyau"), "ara-pyau");
    assert_eq!(slugify("A--B"), "a-b");
    assert_eq!(slugify("-ara-"), "ara");
}


// The disk state of the lexicon checkout (whether an entry exists) is handed
// to the library as plain flags; app/ reads and writes the files.

#[test]
fn contribute_lingua_sem_plano_falha() {
    let el = Element::new("e1", "Qapla'", "klingon");
    assert!(matches!(
        contribution("alice", &el, false, false),
        Err(LexiconError::UnsupportedLang(_))
    ));
}

#[test]
fn contribute_palavra_existente_liga_sem_duplicar() {
    let el = Element::new("e1", "iemanjá", "yo");
    let shared = LexiconStore::shared_term_path("yo", "iemanjá").unwrap();
    assert_eq!(shared, "yoruba/terms/iemanja.md");
    let c = contribution("alice", &el, true, false).unwrap();
    assert!(!c.created, "não deve criar — já existe no compartilhado");
    assert_eq!(c.scope, LexiconScope::Shared);
    assert_eq!(c.relative_path, "yoruba/terms/iemanja.md");
    assert!(matches!(c.link, LexiconLink::Linked { .. }));
    // nothing is written under the users' folder
    assert!(!c.relative_path.starts_with("yoruba/terms/_users"));
}

#[test]
fn contribute_palavra_nova_cria_entrada_de_usuario() {
    let el = Element::new("e1", "àṣẹ", "yo")
        .with_gloss("força vital; 'assim seja'")
        .with_pronunciation("[à.ʃɛ]")
        .with_concept("co://concepts/word.md");
    let c = contribution("yuri@x.com", &el, false, false).unwrap();
    assert!(c.created);
    assert_eq!(c.scope, LexiconScope::User);
    assert_eq!(c.relative_path, "yoruba/terms/_users/yuri-x-com/ase.md");
    let written = render_term_markdown("yuri@x.com", &el, &[], "2024-01-02T03:04:05+00:00");
    assert!(written.contains("word: 'àṣẹ'"), "frontmatter word\n{written}");
    assert!(written.contains("language_code: 'yo'"));
    assert!(written.contains("author: 'yuri@x.com'"));
    assert!(written.contains("contributed_via: yggdrasil-comunicacao"));
    assert!(written.contains("força vital"));
    assert!(written.contains("# àṣẹ"));
}

#[test]
fn contribute_idempotente() {
    let el = Element::new("e1", "tekoa", "gn-mbya").with_gloss("aldeia");
    let first = contribution("alice", &el, false, false).unwrap();
    assert!(first.created);
    // the first call wrote the user's entry, so it exists now
    let second = contribution("alice", &el, false, true).unwrap();
    assert!(!second.created, "republicar não recria");
    assert_eq!(first.relative_path, second.relative_path);
    assert_eq!(first.relative_path, "guarani-mbya/terms/_users/alice/tekoa.md");
}

#[test]
fn contribute_com_parts_escreve_wikilinks() {
    let el = Element::new("e1", "kuarahy", "gn-mbya").with_gloss("sol");
    let parts = vec!["kuaa".to_string(), "ra".to_string(), "hy".to_string()];
    let c = contribution("alice", &el, false, false).unwrap();
    assert!(c.created);
    let md = render_term_markdown("alice", &el, &parts, "2024-01-02T03:04:05+00:00");
    assert!(md.contains("parts:"), "frontmatter deve ter parts\n{md}");
    assert!(md.contains("[[terms/kuaa.md]]"));
    assert!(md.contains("[[terms/ra.md]]"));
    assert!(md.contains("[[terms/hy.md]]"));
}

#[test]
fn promote_move_stub_para_curado_e_vira_reviewed() {
    let el = Element::new("e1", "tekoa", "gn-mbya").with_gloss("aldeia");
    let c = contribution("alice", &el, false, false).unwrap();
    assert_eq!(c.scope, LexiconScope::User);
    let stub = render_term_markdown("alice", &el, &[], "2024-01-02T03:04:05+00:00");
    assert!(stub.contains("seed_status: stub"));

    let plan = promotion("gn-mbya", "alice", "tekoa", "yuri@curador", "2024-05-06T07:08:09+00:00", false, Some(stub.as_str()))
        .unwrap();
    assert_eq!(plan.from_rel, c.relative_path);
    let curado = plan.write.clone().unwrap();
    assert!(plan.archive);
    let p = plan.outcome(true);
    assert_eq!(p.to_rel, "guarani-mbya/terms/tekoa.md");
    assert_eq!(p.from_rel, "guarani-mbya/terms/_users/alice/tekoa.md");
    assert!(p.created, "termo curado criado");
    assert!(p.archived, "stub removido");

    assert!(curado.contains("seed_status: reviewed"));
    assert!(!curado.contains("seed_status: stub"));
    assert!(curado.contains("reviewed_by: 'yuri@curador'"));
    assert!(curado.contains("reviewed_at:"));
}

#[test]
fn promote_idempotente_se_ja_curado() {
    let el = Element::new("e1", "ara", "gn-mbya").with_gloss("tempo");
    contribution("alice", &el, false, false).unwrap();
    let stub = render_term_markdown("alice", &el, &[], "2024-01-02T03:04:05+00:00");
    let first = promotion("gn-mbya", "alice", "ara", "c", "2024-05-06T07:08:09+00:00", false, Some(stub.as_str())).unwrap();
    let first = first.outcome(true);
    assert!(first.created);
    // second promote: the user's entry is gone, the curated one exists
    let second = promotion("gn-mbya", "alice", "ara", "c", "2024-05-06T07:08:09+00:00", true, None).unwrap();
    assert!(second.write.is_none());
    assert!(!second.archive);
    let second = second.outcome(false);
    assert!(!second.created, "não recria o curado");
    assert!(!second.archived, "nada a arquivar");
    assert_eq!(second.to_rel, "guarani-mbya/terms/ara.md");
}

#[test]
fn promote_sem_stub_nem_curado_e_notfound() {
    let err = promotion("gn-mbya", "alice", "inexistente", "c", "2024-05-06T07:08:09+00:00", false, None)
        .err()
        .unwrap();
    assert!(matches!(err, LexiconError::NotFound(_)));
}

#[test]
fn promote_lingua_sem_plano_falha() {
    assert!(matches!(
        promotion("klingon", "alice", "qapla", "c", "2024-05-06T07:08:09+00:00", false, None),
        Err(LexiconError::UnsupportedLang(_))
    ));
}

#[test]
fn contribution_of_blank_word_fails() {
    let el = Element::new("e1", "   ", "yo");
    assert!(matches!(contribution("alice", &el, false, false), Err(LexiconError::EmptyWord)));
}

#[test]
fn promotion_paths_slugify_user_and_term() {
    let (from, to, slug) = promotion_paths("yo", "Yuri@X.com", "Àṣẹ").unwrap();
    assert_eq!(from, "yoruba/terms/_users/yuri-x-com/ase.md");
    assert_eq!(to, "yoruba/terms/ase.md");
    assert_eq!(slug, "ase");
}

#[test]
fn promotion_with_curated_entry_archives_a_leftover_stub() {
    let plan = promotion("yo", "alice", "ase", "c", "2024-05-06T07:08:09+00:00", true, Some("")).unwrap();
    assert!(plan.write.is_none());
    assert!(plan.archive);
    let p = plan.outcome(true);
    assert!(!p.created);
    assert!(p.archived);
}

#[test]
fn term_markdown_exact_text() {
    let el = Element::new("e1", "tekoa", "gn-mbya")
        .with_gloss("aldeia")
        .with_ref(Reference::new("https://x.org/t", "Dicionário", "web"));
    let md = render_term_markdown("alice", &el, &["ara".to_string()], "2024-01-02T03:04:05+00:00");
    let expected = "---\ntype: term\nword: 'tekoa'\nlanguage_code: 'gn-mbya'\nparts:\n- '[[terms/ara.md]]'\n\
seed_status: stub\nauthor: 'alice'\ncontributed_via: yggdrasil-comunicacao\ncreated: '2024-01-02T03:04:05+00:00'\n\
references:\n- { url: 'https://x.org/t', source: 'Dicionário' }\ntags:\n- term\n- user-contributed\n---\n\n\
# tekoa\n\naldeia\n\n## Referências\n\n- [Dicionário](https://x.org/t)\n\n\
> Contribuído por `alice` via Yggdrasil (sala de comunicação). `seed_status: stub` — pendente de revisão por falante/curador.\n";
    assert_eq!(md, expected);
}

#[test]
fn mark_reviewed_turns_stub_into_reviewed() {
    let raw = "---\ntype: term\nseed_status: stub\n---\n\n> `seed_status: stub` — pendente de revisão por falante/curador.\n";
    let out = mark_reviewed(raw, "o'curador", "2024-05-06T07:08:09+00:00");
    assert_eq!(
        out,
        "---\ntype: term\nseed_status: reviewed\nreviewed_by: 'o''curador'\nreviewed_at: '2024-05-06T07:08:09+00:00'\n---\n\n> `seed_status: reviewed` — curado.\n"
    );
    // without a stub line the stamp goes right after the opening `---`
    let out = mark_reviewed("---\ntype: term\n---\n", "c", "t");
    assert_eq!(out, "---\nseed_status: reviewed\nreviewed_by: 'c'\nreviewed_at: 't'\ntype: term\n---\n");
}

#[test]
fn slug_from_lowered_builds_the_slug_of_a_lowercase_stream() {
    let cs: Vec<char> = "  àṣẹ--dé ".chars().collect();
    assert_eq!(slug_from_lowered(&cs), "ase-de");
    assert_eq!(slug_from_lowered(&[]), "termo");
    let cs: Vec<char> = "ọ̀rọ̀".chars().collect();
    assert_eq!(slug_from_lowered(&cs), "oro");
}
