use yggdrasil::comunicacao::room::{coord, RoomEdit};
use yggdrasil::comunicacao::templates::{instantiate, template_summaries, templates};

#[test]
fn instantiate_yoruba() {
    let room = instantiate("yoruba", "r1", "alice", 0).unwrap();
    assert_eq!(room.lang, "yo");
    assert_eq!(room.template, "yoruba");
    assert!(room.elements.iter().any(|e| e.word == "àṣẹ"));
    // todos têm língua iorubá
    assert!(room.elements.iter().all(|e| e.lang == "yo"));
}

#[test]
fn instantiate_mbya() {
    let room = instantiate("mbya", "r1", "bob", 0).unwrap();
    assert_eq!(room.lang, "gn-mbya");
    assert!(room.elements.iter().any(|e| e.word == "ayvu rapyta"));
    assert!(room.elements.iter().all(|e| e.lang == "gn-mbya"));
}

#[test]
fn instantiate_blank_vazio() {
    let room = instantiate("blank", "r1", "carol", 0).unwrap();
    assert!(room.elements.is_empty());
}

#[test]
fn instantiate_desconhecido_none() {
    assert!(instantiate("fantasma", "r1", "x", 0).is_none());
}

#[test]
fn ids_de_elementos_unicos_por_template() {
    for slug in ["yoruba", "mbya"] {
        let room = instantiate(slug, "r", "o", 0).unwrap();
        let mut ids: Vec<&str> = room.elements.iter().map(|e| e.id.as_str()).collect();
        let n = ids.len();
        ids.sort_unstable();
        ids.dedup();
        assert_eq!(ids.len(), n, "ids duplicados em {slug}");
    }
}

#[test]
fn links_referenciam_elementos_existentes() {
    // Toda relação-semente deve ligar ids de elementos que existem, e os
    // ids de link devem ser únicos — pega erro de digitação nos seeds.
    for slug in ["yoruba", "mbya"] {
        let room = instantiate(slug, "r", "o", 0).unwrap();
        let ids: std::collections::HashSet<&str> =
            room.elements.iter().map(|e| e.id.as_str()).collect();
        let mut link_ids = std::collections::HashSet::new();
        assert!(
            !room.links.is_empty(),
            "{slug} deveria ter relações-semente"
        );
        for l in &room.links {
            assert!(
                link_ids.insert(l.id.as_str()),
                "link id duplicado em {slug}: {}",
                l.id
            );
            assert!(
                ids.contains(l.from.as_str()),
                "{slug}: link from inexistente: {}",
                l.from
            );
            assert!(
                ids.contains(l.to.as_str()),
                "{slug}: link to inexistente: {}",
                l.to
            );
            assert_ne!(l.from, l.to, "{slug}: self-link {}", l.id);
        }
    }
}

#[test]
fn summaries_incluem_tres_templates() {
    let s = template_summaries();
    assert_eq!(s.len(), 3);
    assert!(s.iter().any(|t| t.slug == "yoruba" && t.element_count > 0));
    assert!(s.iter().any(|t| t.slug == "mbya" && t.element_count > 0));
}

#[test]
fn conceitos_referenciam_arquivos_existentes() {
    // Só conceitos que existem no repo comunicacao devem aparecer, para
    // não gerar wikilinks quebrados.
    let existing = ["word", "mother", "new-cycle", "beautiful-words"];
    for slug in ["yoruba", "mbya"] {
        let room = instantiate(slug, "r", "o", 0).unwrap();
        for el in &room.elements {
            if let Some(c) = &el.concept {
                let name = c
                    .trim_start_matches("co://concepts/")
                    .trim_end_matches(".md");
                assert!(
                    existing.contains(&name),
                    "conceito inexistente referenciado: {c}"
                );
            }
        }
    }
}

#[test]
fn coord_codifica_inteiros_como_binary64() {
    for v in -70_000i32..70_000 {
        assert_eq!(coord(v), (v as f64).to_bits(), "{v}");
    }
    for v in [i32::MIN, i32::MAX, i32::MIN + 1, 1 << 30, -(1 << 30)] {
        assert_eq!(coord(v), (v as f64).to_bits(), "{v}");
    }
}

#[test]
fn posicoes_dos_templates() {
    let room = instantiate("yoruba", "r", "o", 0).unwrap();
    let ori = room.element("ori").unwrap();
    assert_eq!((f64::from_bits(ori.x), f64::from_bits(ori.y)), (220.0, -40.0));
    let room = instantiate("mbya", "r", "o", 0).unwrap();
    let kaaguy = room.element("kaaguy").unwrap();
    assert_eq!((f64::from_bits(kaaguy.x), f64::from_bits(kaaguy.y)), (-180.0, 220.0));
    assert_eq!(room.element("nhandereko").unwrap().refs.len(), 2);
}

#[test]
fn resumos_e_descricoes() {
    let s = template_summaries();
    assert_eq!(s[0].slug, "yoruba");
    assert_eq!(s[0].element_count, 18);
    assert_eq!(s[1].element_count, 14);
    assert_eq!(s[1].lang, "gn-mbya");
    assert_eq!(s[2].slug, "blank");
    assert_eq!(s[2].element_count, 0);
    assert_eq!(s[2].title, "Nova sala");
    assert!(s[0].description.contains("àṣẹ"));
    assert_eq!(templates(), vec!["yoruba", "mbya", "blank"]);
}

#[test]
fn sala_de_template_aceita_edicoes() {
    let mut room = instantiate("mbya", "r", "o", 5).unwrap();
    assert_eq!(room.created_at, 5);
    RoomEdit::DeleteElement { id: "ayvu".to_string() }.apply(&mut room).unwrap();
    assert!(room.links.iter().all(|l| l.from != "ayvu" && l.to != "ayvu"));
    assert_eq!(room.links.len(), 7);
}
