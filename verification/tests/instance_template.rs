use yggdrasil::instance::schema::Projection;
use yggdrasil::instance::template::{
    blank_template, jardim_template, neuroanatomia_template, template_by_slug, template_summaries,
    timeline_template_at,
};

#[test]
fn blank_instancia_com_owner_e_id() {
    let t = blank_template();
    let inst = t.instantiate("inst-9", "alice", 0);
    assert_eq!(inst.id, "inst-9");
    assert_eq!(inst.owner, "alice");
    assert_eq!(inst.template, "blank");
    assert_eq!(inst.layers.len(), 1);
}

#[test]
fn neuroanatomia_seed_estrutura() {
    let t = neuroanatomia_template();
    let inst = t.instantiate("n1", "bob", 0);
    // 2 camadas de fundo + 1 de blocos
    assert_eq!(inst.layers.len(), 3);
    // camada SNC a 0.5 (o toggle de transparência)
    let snc = inst.layer("snc").unwrap();
    assert_eq!(f32::from_bits(snc.opacity), 0.5);
    // 4 landmarks + 2 conexões
    assert_eq!(inst.layer("landmarks").unwrap().blocks.len(), 4);
    assert_eq!(inst.connections.len(), 2);
    // endpoints das conexões existem
    for c in &inst.connections {
        assert!(inst.has_block(&c.from));
        assert!(inst.has_block(&c.to));
    }
}

#[test]
fn jardim_palette_nota_e_pasta() {
    // Está registrado no catálogo e acessível por slug.
    assert!(template_by_slug("jardim").is_some());
    let t = jardim_template();
    // Paleta notes-first: `note` + `pasta` (diretório simulado; ligações
    // `parent` por drag-and-drop no player).
    assert_eq!(t.palette.len(), 2);
    assert_eq!(t.palette[0].block_type, "note");
    assert_eq!(t.palette[1].block_type, "pasta");
    // Seed tem uma única camada de notas, sem fundos.
    let inst = t.instantiate("j1", "ana", 0);
    assert_eq!(inst.template, "jardim");
    assert_eq!(inst.layers.len(), 1);
    assert_eq!(inst.layer("notas").unwrap().blocks.len(), 0);
}

#[test]
fn lookup_por_slug() {
    assert!(template_by_slug("neuroanatomia").is_some());
    assert!(template_by_slug("blank").is_some());
    assert!(template_by_slug("jardim").is_some());
    assert!(template_by_slug("inexistente").is_none());
}

#[test]
fn summaries_lista_todos() {
    // YG-126: a criação oferece UM tipo; formas são views de runtime.
    assert_eq!(template_summaries().len(), 1);
    assert_eq!(template_summaries()[0].slug, "universo");
}

#[test]
fn universo_template_nota_pasta_evento() {
    let t = template_by_slug("universo").unwrap();
    let tipos: Vec<&str> = t.palette.iter().map(|p| p.block_type.as_str()).collect();
    assert_eq!(tipos, vec!["note", "pasta", "evento"]);
    assert_eq!(t.seed.projection, Projection::TwoDGrid);
}

#[test]
fn templates_legados_seguem_resolvendo_por_slug() {
    for slug in ["blank", "jardim", "neuroanatomia", "timeline"] {
        assert!(template_by_slug(slug).is_some(), "legado {slug} resolve");
    }
    assert!(template_by_slug("nenhum").is_none());
}

#[test]
fn timeline_template_semeia_eventos_em_projecao_timeline() {
    let t = template_by_slug("timeline").unwrap();
    assert_eq!(t.seed.projection, Projection::Timeline);
    let total: usize = t.seed.layers.iter().map(|l| l.blocks.len()).sum();
    assert_eq!(total, 7, "7 eventos astronômicos de 2026 no seed");
    let inst = t.instantiate("t1", "ana", 5);
    assert_eq!(inst.template, "timeline");
    assert_eq!(inst.projection, Projection::Timeline);
}

/// Seconds since the epoch of `YYYY-MM-DDTHH:MM:00Z`.
fn secs(s: &str) -> i64 {
    let num = |a: usize, z: usize| -> i64 { s[a..z].parse::<i64>().unwrap() };
    let (y, m, d, hh, mm) = (num(0, 4), num(5, 7), num(8, 10), num(11, 13), num(14, 16));
    let y2 = if m <= 2 { y - 1 } else { y };
    let era = y2.div_euclid(400);
    let yoe = y2 - era * 400;
    let doy = (153 * ((m + 9) % 12) + 2) / 5 + d - 1;
    let days = era * 146097 + yoe * 365 + yoe / 4 - yoe / 100 + doy - 719468;
    (days * 24 + hh) * 3600 + mm * 60
}

#[test]
fn timeline_template_columns_follow_time() {
    // The column of an event: its offset in the span of all events, on 48 columns.
    let min = secs("2026-01-03T10:03:00Z");
    let span = secs("2026-12-21T20:50:00Z") - min;
    let col = |iso: &str| (((secs(iso) - min) as f64 / span as f64) * 47.0).round() as u32;
    let t = template_by_slug("timeline").unwrap();
    let mut seen = 0;
    for layer in &t.seed.layers {
        for b in &layer.blocks {
            let at = &b.props.iter().find(|p| p.0 == "at_iso").unwrap().1;
            let iso = format!("{}Z", &at[1..20]);
            assert_eq!(b.pos.x, col(&iso), "{}", b.id);
            seen += 1;
        }
    }
    assert_eq!(seen, 7);
    let ids: Vec<&str> = t.seed.layers.iter().map(|l| l.id.as_str()).collect();
    assert_eq!(ids, vec!["eclipse", "equinox", "moon", "solstice"]);
    assert_eq!(t.seed.grid.height, 12);
    assert_eq!(t.render_hints, "{\"grid_lines\":false,\"time_axis\":true}");
}

#[test]
fn summaries_title_matches_the_template() {
    let r = template_summaries();
    assert_eq!(r[0].title, template_by_slug("universo").unwrap().title);
}

#[test]
fn instanciar_carimba_e_preserva_seed() {
    let t = template_by_slug("universo").unwrap();
    assert_eq!(t.render_hints, "{\"graph_view\":true,\"grid_lines\":true,\"time_axis\":true}");
    let inst = t.instantiate("u1", "ana", 77);
    assert_eq!(inst.template, "universo");
    assert_eq!(inst.title, "Universo");
    assert_eq!(inst.created_at, 77);
    assert_eq!(inst.updated_at, 77);
    assert!(!inst.published);
    assert_eq!(inst.layers[0].id, "conteudo");
    assert_eq!(inst.grid.width, 32);
}

#[test]
fn layer_mut_changes_the_layer_in_place() {
    let mut inst = template_by_slug("timeline").unwrap().instantiate("t1", "ana", 5);
    inst.layer_mut("moon").unwrap().visible = false;
    assert!(!inst.layer("moon").unwrap().visible);
    assert!(inst.layer("eclipse").unwrap().visible);
    assert!(inst.layer_mut("nada").is_none());
}

#[test]
fn timeline_rows_are_the_lanes_of_the_families() {
    let t = template_by_slug("timeline").unwrap();
    let row = |layer: usize, k: usize| t.seed.layers[layer].blocks[k].pos.y;
    // lanes in the order the families first occur: moon, equinox, solstice, eclipse
    assert_eq!((row(2, 0), row(2, 1)), (0, 0));
    assert_eq!((row(1, 0), row(1, 1)), (3, 3));
    assert_eq!((row(3, 0), row(3, 1)), (6, 6));
    assert_eq!(row(0, 0), 9);
    assert_eq!(t.seed.layers[2].blocks[0].props[1].1, "\"🌙\"");
}

#[test]
fn timeline_events_in_one_cell_stack_within_their_lane() {
    // both full moons in column 0: the later one goes a row down its lane
    let t = timeline_template_at(&[0, 10, 23, 0, 30, 35, 47]);
    assert_eq!(t.seed.layers[2].blocks[0].pos.y, 0);
    assert_eq!(t.seed.layers[2].blocks[1].pos.y, 1);
    assert_eq!(t.seed.layers[2].blocks[1].pos.x, 0);
}
