use yggdrasil::comunicacao::topologia::{canonical_pair, node_id, split_node_id, EdgeSource, RefKind};



#[test]
fn node_id_dobra_diacriticos_e_tom() {
    // ñe'ẽ → ne-e (ñ→n, apóstrofo some, ẽ→e); pack id preservado.
    assert_eq!(node_id("guarani-mbya", "ñe'ẽ"), "guarani-mbya:ne-e");
    assert_eq!(node_id("musica", "C4"), "musica:c4");
}

#[test]
fn split_node_id_no_primeiro_dois_pontos() {
    assert_eq!(
        split_node_id("guarani-mbya:ne-e"),
        Some(("guarani-mbya", "ne-e"))
    );
    assert_eq!(split_node_id("semdoispontos"), None);
    assert_eq!(split_node_id(":slug"), None);
    assert_eq!(split_node_id("pack:"), None);
}

#[test]
fn canonical_pair_e_comutativo() {
    let ab = canonical_pair("guarani-mbya:ne-e", "musica:c4");
    let ba = canonical_pair("musica:c4", "guarani-mbya:ne-e");
    assert_eq!(ab, ba);
    // ordenado: "guarani-..." < "musica..." lexicograficamente
    assert_eq!(ab.0, "guarani-mbya:ne-e");
    assert_eq!(ab.1, "musica:c4");
}

#[test]
fn edge_source_round_trip() {
    for s in [EdgeSource::Explore, EdgeSource::User, EdgeSource::Semantic] {
        assert_eq!(EdgeSource::parse(s.as_str()), Some(s));
    }
    assert_eq!(EdgeSource::parse("nope"), None);
}

#[test]
fn ref_kind_round_trip() {
    for k in [
        RefKind::Sentence,
        RefKind::Etymology,
        RefKind::Audio,
        RefKind::Link,
    ] {
        assert_eq!(RefKind::parse(k.as_str()), Some(k));
    }
    assert_eq!(RefKind::parse("nope"), None);
}

#[test]
fn split_node_id_devolve_pack_e_slug_do_node_id() {
    let id = node_id("guarani-mbya", "Ñe'ẽ");
    assert_eq!(split_node_id(&id), Some(("guarani-mbya", "ne-e")));
    let id = node_id("musica", "  --  ");
    assert_eq!(split_node_id(&id), Some(("musica", "termo")));
}
