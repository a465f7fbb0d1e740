use yggdrasil::comunicacao::pack_from_lexicon::{
    bcp47, body_gloss, is_known_plano, last_with_slug, parse_inline_ref, parse_term_md, plano_theme,
    plano_title, resident_order, strip_yaml_scalar, wikilink_slug,
};

#[test]
fn is_known_plano_reconhece_linguas() {
    assert!(is_known_plano("yoruba"));
    assert!(is_known_plano("guarani-mbya"));
    assert!(is_known_plano("portuguese"));
    assert!(is_known_plano("spanish"));
    assert!(!is_known_plano("klingon"));
    assert!(!is_known_plano(""));
}

const ASE: &str = "---\ntype: term\nword: 'àṣẹ'\nlanguage_code: 'yo'\n\
pronunciation: '[à.ʃɛ]'\nseed_status: reviewed\n---\n\n\
# àṣẹ\n\nforça vital; 'assim seja'\n";

const ILE: &str = "---\ntype: term\nword: 'ilẹ̀'\nlanguage_code: 'yo'\n\
pronunciation: '[ì.lɛ̀]'\nparts:\n- '[[terms/ase.md]]'\n\
references:\n- { url: 'https://example.org', source: 'Ref A' }\n\
seed_status: reviewed\n---\n\n# ilẹ̀\n\nterra, chão, casa\n";

const INA: &str = "---\ntype: term\nword: 'iná'\nlanguage_code: 'yo'\n\
seed_status: stub\nauthor: 'alice'\n\
contributed_via: yggdrasil-comunicacao\ncreated: '2026-06-21T00:00:00Z'\n\
---\n\n# iná\n\nfogo, chama\n";

#[test]
fn termo_com_gloss_e_ipa() {
    let t = parse_term_md(ASE).unwrap();
    assert_eq!(t.word, "àṣẹ");
    assert_eq!(t.ipa.as_deref(), Some("[à.ʃɛ]"));
    assert_eq!(t.gloss.as_deref(), Some("força vital; 'assim seja'"));
    assert!(t.parts.is_empty());
    assert!(t.refs.is_empty());
}

#[test]
fn termo_com_partes_e_referencias() {
    let t = parse_term_md(ILE).unwrap();
    assert_eq!(t.word, "ilẹ̀");
    assert_eq!(t.parts, vec!["ase".to_string()]);
    assert_eq!(t.refs, vec![("https://example.org".to_string(), "Ref A".to_string())]);
    assert_eq!(t.gloss.as_deref(), Some("terra, chão, casa"));
}

#[test]
fn termo_de_usuario_sem_pronuncia() {
    let t = parse_term_md(INA).unwrap();
    assert_eq!(t.word, "iná");
    assert_eq!(t.ipa, None);
    assert_eq!(t.gloss.as_deref(), Some("fogo, chama"));
}

#[test]
fn sem_frontmatter_ou_sem_word() {
    assert!(parse_term_md("# só corpo\n").is_none());
    assert!(parse_term_md("---\ntype: term\n---\n\n# x\n\ny\n").is_none());
    assert!(parse_term_md("---\nword: x\n").is_none());
}

#[test]
fn escalares_yaml() {
    assert_eq!(strip_yaml_scalar("  'it''s'  "), "it's");
    assert_eq!(strip_yaml_scalar("\"dito\""), "dito");
    assert_eq!(strip_yaml_scalar("nu"), "nu");
    assert_eq!(strip_yaml_scalar("'"), "'");
    assert_eq!(strip_yaml_scalar("''"), "");
}

#[test]
fn wikilinks_de_termo() {
    assert_eq!(wikilink_slug("'[[terms/ase.md]]'").as_deref(), Some("ase"));
    assert_eq!(wikilink_slug("[[terms/a/b.md]]").as_deref(), Some("a/b"));
    assert_eq!(wikilink_slug("\" [[terms/x.md]] \"").as_deref(), Some("x"));
    assert_eq!(wikilink_slug("[[terms/.md]]"), None);
    assert_eq!(wikilink_slug("[[notes/x.md]]"), None);
    assert_eq!(wikilink_slug("terms/x.md"), None);
}

#[test]
fn referencias_inline() {
    assert_eq!(
        parse_inline_ref("{ url: 'u', source: 's' }"),
        Some(("u".to_string(), "s".to_string()))
    );
    assert_eq!(parse_inline_ref("{ source: 'só fonte' }"), Some((String::new(), "só fonte".to_string())));
    assert_eq!(parse_inline_ref("{ nada: 1 }"), None);
    assert_eq!(parse_inline_ref("url: 'u'"), None);
}

#[test]
fn gloss_do_corpo() {
    assert_eq!(body_gloss("\n# t\n\nlinha um\nlinha dois\n\nresto\n").as_deref(), Some("linha um linha dois"));
    assert_eq!(body_gloss("texto antes\n# t\n\n_(sem definição ainda)_\n"), None);
    assert_eq!(body_gloss("# t\n"), None);
    assert_eq!(body_gloss("# t\r\n\r\n  gloss  \r\n# outro\n").as_deref(), Some("gloss"));
}

#[test]
fn titulos_temas_e_tags() {
    assert_eq!(bcp47("guarani-mbya"), "gn-mbya");
    assert_eq!(bcp47("x"), "und");
    assert_eq!(plano_title("spanish"), "Espanhol — léxico CO");
    assert_eq!(plano_title("quechua"), "quechua — léxico CO");
    assert_eq!(plano_theme("spanish"), "neutro");
    assert_eq!(plano_theme("yoruba"), "savana");
}

fn owned(v: &[&str]) -> Vec<String> {
    v.iter().map(|s| s.to_string()).collect()
}

#[test]
fn resident_order_ordena_por_palavra_e_corta_no_limite() {
    let words = owned(&["ñe'ẽ", "ara", "yvy", "ara", "Ara"]);
    // ordem de bytes: "Ara" < "ara" < "ara" < "yvy" < "ñe'ẽ"; empates na ordem encontrada
    assert_eq!(resident_order(&words, 10), vec![4, 1, 3, 2, 0]);
    assert_eq!(resident_order(&words, 2), vec![4, 1]);
    assert!(resident_order(&words, 0).is_empty());
    assert!(resident_order(&[], 5).is_empty());
}

#[test]
fn last_with_slug_acha_a_ultima_palavra_com_o_slug() {
    let words = owned(&["Ara", "yvy", "ara", "nhe'ẽ"]);
    assert_eq!(last_with_slug(&words, "ara"), Some(2));
    assert_eq!(last_with_slug(&words, "nhe-e"), Some(3));
    assert_eq!(last_with_slug(&words, "pyau"), None);
}
