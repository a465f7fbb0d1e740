use yggdrasil::comunicacao::room::{EditError, Element, LexiconLink, Link, Room, RoomEdit};

fn room() -> Room {
    Room::empty("r1", "alice", "Minha sala", "yo", 0)
}

#[test]
fn add_element_ok() {
    let mut r = room();
    let op = RoomEdit::AddElement {
        element: Element::new("e1", "àṣẹ", "yo").at(10.0f64.to_bits(), 20.0f64.to_bits()),
    };
    op.apply(&mut r).unwrap();
    assert_eq!(r.elements.len(), 1);
    assert_eq!(r.element("e1").unwrap().word, "àṣẹ");
}

#[test]
fn add_element_palavra_vazia_falha() {
    let mut r = room();
    let op = RoomEdit::AddElement {
        element: Element::new("e1", "   ", "yo"),
    };
    assert_eq!(op.apply(&mut r), Err(EditError::EmptyWord));
}

#[test]
fn add_element_id_duplicado_falha() {
    let mut r = room();
    RoomEdit::AddElement {
        element: Element::new("e1", "omi", "yo"),
    }
    .apply(&mut r)
    .unwrap();
    let dup = RoomEdit::AddElement {
        element: Element::new("e1", "orí", "yo"),
    };
    assert_eq!(
        dup.apply(&mut r),
        Err(EditError::ElementExists("e1".to_string()))
    );
}

#[test]
fn move_element_atualiza_coord() {
    let mut r = room();
    RoomEdit::AddElement {
        element: Element::new("e1", "omi", "yo"),
    }
    .apply(&mut r)
    .unwrap();
    RoomEdit::MoveElement {
        id: "e1".to_string(),
        x: (5.5f64).to_bits(),
        y: (-3.0f64).to_bits(),
    }
    .apply(&mut r)
    .unwrap();
    let e = r.element("e1").unwrap();
    assert_eq!((f64::from_bits(e.x), f64::from_bits(e.y)), (5.5, -3.0));
}

#[test]
fn move_element_nao_finito_falha() {
    let mut r = room();
    RoomEdit::AddElement {
        element: Element::new("e1", "omi", "yo"),
    }
    .apply(&mut r)
    .unwrap();
    let op = RoomEdit::MoveElement {
        id: "e1".to_string(),
        x: f64::NAN.to_bits(),
        y: (0.0f64).to_bits(),
    };
    assert_eq!(op.apply(&mut r), Err(EditError::NonFiniteCoord));
}

#[test]
fn edit_element_campos_parciais() {
    let mut r = room();
    RoomEdit::AddElement {
        element: Element::new("e1", "omi", "yo"),
    }
    .apply(&mut r)
    .unwrap();
    RoomEdit::EditElement {
        id: "e1".to_string(),
        word: None,
        gloss: Some("água".to_string()),
        pronunciation: Some("[ɔ.mi]".to_string()),
        concept: Some("co://concepts/water.md".to_string()),
        icon: None,
    }
    .apply(&mut r)
    .unwrap();
    let e = r.element("e1").unwrap();
    assert_eq!(e.word, "omi"); // inalterado
    assert_eq!(e.gloss.as_deref(), Some("água"));
    assert_eq!(e.concept.as_deref(), Some("co://concepts/water.md"));
}

#[test]
fn delete_element_inexistente_falha() {
    let mut r = room();
    let op = RoomEdit::DeleteElement { id: "x".to_string() };
    assert_eq!(
        op.apply(&mut r),
        Err(EditError::ElementNotFound("x".to_string()))
    );
}

#[test]
fn set_viewport_valida_zoom() {
    let mut r = room();
    RoomEdit::SetViewport {
        pan_x: (100.0f64).to_bits(),
        pan_y: (-50.0f64).to_bits(),
        zoom: (2.0f64).to_bits(),
    }
    .apply(&mut r)
    .unwrap();
    assert_eq!(f64::from_bits(r.viewport.zoom), 2.0);
    let bad = RoomEdit::SetViewport {
        pan_x: (0.0f64).to_bits(),
        pan_y: (0.0f64).to_bits(),
        zoom: (100.0f64).to_bits(),
    };
    assert!(matches!(bad.apply(&mut r), Err(EditError::InvalidZoom(_))));
}


#[test]
fn lexicon_link_default_local() {
    let e = Element::new("e1", "teko", "gn-mbya");
    assert_eq!(e.lexicon, LexiconLink::Local);
    assert_eq!(e.lexicon.path(), None);
}

fn room_with_two() -> Room {
    let mut r = room();
    RoomEdit::AddElement {
        element: Element::new("a", "ayvu", "gn-mbya"),
    }
    .apply(&mut r)
    .unwrap();
    RoomEdit::AddElement {
        element: Element::new("b", "nhe'ẽ", "gn-mbya"),
    }
    .apply(&mut r)
    .unwrap();
    r
}

#[test]
fn add_link_ok() {
    let mut r = room_with_two();
    RoomEdit::AddLink {
        link: Link::new("l1", "a", "b").with_label("relacionado"),
    }
    .apply(&mut r)
    .unwrap();
    assert_eq!(r.links.len(), 1);
    assert_eq!(r.links[0].label.as_deref(), Some("relacionado"));
}

#[test]
fn add_link_endpoint_inexistente_falha() {
    let mut r = room_with_two();
    let op = RoomEdit::AddLink {
        link: Link::new("l1", "a", "zzz"),
    };
    assert_eq!(
        op.apply(&mut r),
        Err(EditError::LinkEndpointMissing("zzz".to_string()))
    );
}

#[test]
fn add_link_self_falha() {
    let mut r = room_with_two();
    let op = RoomEdit::AddLink {
        link: Link::new("l1", "a", "a"),
    };
    assert_eq!(op.apply(&mut r), Err(EditError::SelfLink));
}

#[test]
fn add_link_id_duplicado_falha() {
    let mut r = room_with_two();
    RoomEdit::AddLink {
        link: Link::new("l1", "a", "b"),
    }
    .apply(&mut r)
    .unwrap();
    let dup = RoomEdit::AddLink {
        link: Link::new("l1", "b", "a"),
    };
    assert_eq!(dup.apply(&mut r), Err(EditError::LinkExists("l1".to_string())));
}

#[test]
fn delete_element_remove_links_em_cascata() {
    let mut r = room_with_two();
    RoomEdit::AddLink {
        link: Link::new("l1", "a", "b"),
    }
    .apply(&mut r)
    .unwrap();
    RoomEdit::DeleteElement { id: "a".to_string() }
        .apply(&mut r)
        .unwrap();
    assert!(r.links.is_empty(), "link órfão deveria ser removido");
}

#[test]
fn delete_link_inexistente_falha() {
    let mut r = room_with_two();
    let op = RoomEdit::DeleteLink { id: "nope".to_string() };
    assert_eq!(
        op.apply(&mut r),
        Err(EditError::LinkNotFound("nope".to_string()))
    );
}


#[test]
fn compose_cria_termo_e_links_compoe_para_parents() {
    let mut r = room_with_two(); // a = ayvu, b = nhe'ẽ
    RoomEdit::Compose {
        id: "c".to_string(),
        word: "ayvu rapyta".to_string(),
        lang: None,
        x: (0.0f64).to_bits(),
        y: (-120.0f64).to_bits(),
        parents: vec!["a".to_string(), "b".to_string()],
    }
    .apply(&mut r)
    .unwrap();
    assert!(r.has_element("c"));
    // herda a língua da sala quando lang=None
    assert_eq!(r.element("c").unwrap().lang, "yo");
    let compose: Vec<_> = r
        .links
        .iter()
        .filter(|l| l.is_compose() && l.from == "c")
        .collect();
    assert_eq!(compose.len(), 2, "um link compoe por parente");
    assert!(compose.iter().all(|l| l.directed));
    let alvos: Vec<&str> = compose.iter().map(|l| l.to.as_str()).collect();
    assert!(alvos.contains(&"a") && alvos.contains(&"b"));
}

#[test]
fn compose_sem_parents_falha() {
    let mut r = room_with_two();
    let op = RoomEdit::Compose {
        id: "c".to_string(),
        word: "x".to_string(),
        lang: None,
        x: (0.0f64).to_bits(),
        y: (0.0f64).to_bits(),
        parents: vec![],
    };
    assert_eq!(op.apply(&mut r), Err(EditError::ComposeNoParents));
}

#[test]
fn compose_parent_inexistente_falha() {
    let mut r = room_with_two();
    let op = RoomEdit::Compose {
        id: "c".to_string(),
        word: "x".to_string(),
        lang: None,
        x: (0.0f64).to_bits(),
        y: (0.0f64).to_bits(),
        parents: vec!["zzz".to_string()],
    };
    assert_eq!(
        op.apply(&mut r),
        Err(EditError::ElementNotFound("zzz".to_string()))
    );
}

// --- Further cases ---

#[test]
fn set_viewport_aceita_limites_e_recusa_negativo_e_nan() {
    let mut r = room();
    RoomEdit::SetViewport { pan_x: 0, pan_y: 0, zoom: 0.1f64.to_bits() }.apply(&mut r).unwrap();
    RoomEdit::SetViewport { pan_x: 0, pan_y: 0, zoom: 8.0f64.to_bits() }.apply(&mut r).unwrap();
    assert_eq!(f64::from_bits(r.viewport.zoom), 8.0);
    for z in [0.09f64, 8.01, -2.0, -0.0, f64::NAN, f64::INFINITY] {
        let op = RoomEdit::SetViewport { pan_x: 0, pan_y: 0, zoom: z.to_bits() };
        assert_eq!(op.apply(&mut r), Err(EditError::InvalidZoom(z.to_bits())));
    }
    let op = RoomEdit::SetViewport { pan_x: f64::INFINITY.to_bits(), pan_y: 0, zoom: 1.0f64.to_bits() };
    assert_eq!(op.apply(&mut r), Err(EditError::NonFiniteCoord));
    assert_eq!(f64::from_bits(r.viewport.zoom), 8.0);
}

#[test]
fn set_published_alterna() {
    let mut r = room();
    assert!(!r.published);
    RoomEdit::SetPublished { published: true }.apply(&mut r).unwrap();
    assert!(r.published);
}

#[test]
fn edit_element_palavra_em_branco_falha_sem_mudar_nada() {
    let mut r = room_with_two();
    let before = r.clone();
    let op = RoomEdit::EditElement {
        id: "a".to_string(),
        word: Some(" \t ".to_string()),
        gloss: Some("fala".to_string()),
        pronunciation: None,
        concept: None,
        icon: None,
    };
    assert_eq!(op.apply(&mut r), Err(EditError::EmptyWord));
    assert_eq!(r, before);
}

#[test]
fn delete_link_remove_so_o_link() {
    let mut r = room_with_two();
    RoomEdit::AddLink { link: Link::new("l1", "a", "b") }.apply(&mut r).unwrap();
    RoomEdit::AddLink { link: Link::new("l2", "b", "a") }.apply(&mut r).unwrap();
    RoomEdit::DeleteLink { id: "l1".to_string() }.apply(&mut r).unwrap();
    assert_eq!(r.links.len(), 1);
    assert_eq!(r.links[0].id, "l2");
    assert_eq!(r.elements.len(), 2);
}

#[test]
fn compose_pula_link_repetido_e_usa_lingua_dada() {
    let mut r = room_with_two();
    RoomEdit::Compose {
        id: "c".to_string(),
        word: "ayvu ayvu".to_string(),
        lang: Some("gn-mbya".to_string()),
        x: 0,
        y: 0,
        parents: vec!["a".to_string(), "a".to_string()],
    }
    .apply(&mut r)
    .unwrap();
    assert_eq!(r.element("c").unwrap().lang, "gn-mbya");
    assert_eq!(r.links.len(), 1);
    assert_eq!(r.links[0].id, "c~a");
    assert_eq!(r.links[0].label.as_deref(), Some("compõe-se de"));
    assert!(r.links[0].is_compose());
}

#[test]
fn add_element_coordenada_infinita_falha() {
    let mut r = room();
    let op = RoomEdit::AddElement {
        element: Element::new("e1", "omi", "yo").at(f64::INFINITY.to_bits(), 0),
    };
    assert_eq!(op.apply(&mut r), Err(EditError::NonFiniteCoord));
    assert!(r.elements.is_empty());
}

#[test]
fn element_mut_changes_the_element_in_place() {
    let mut r = room();
    RoomEdit::AddElement { element: Element::new("e1", "àṣẹ", "yo") }.apply(&mut r).unwrap();
    RoomEdit::AddElement { element: Element::new("e2", "omi", "yo") }.apply(&mut r).unwrap();
    match r.element_mut("e2") {
        Some(e) => e.gloss = Some("água".to_string()),
        None => panic!("e2 is in the room"),
    }
    assert_eq!(r.element("e2").unwrap().gloss.as_deref(), Some("água"));
    assert_eq!(r.element("e1").unwrap().gloss, None);
    assert!(r.element_mut("e9").is_none());
}
