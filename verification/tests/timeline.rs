use yggdrasil::instance::generators::timeline::{
    family, icon_for, lane_rows, place_events, time_order,
};

#[test]
fn lane_rows_agrupa_por_familia_deterministico() {
    let kinds: Vec<String> = ["moon.full", "moon.new", "eclipse.solar", "equinox"]
        .iter()
        .map(|s| s.to_string())
        .collect();
    let lanes = lane_rows(&kinds);
    assert_eq!(lanes.len(), 3); // moon, eclipse, equinox
    assert!(lanes.iter().any(|(f, _)| f == "moon"));
    assert!(lanes.iter().any(|(f, _)| f == "eclipse"));
    assert!(lanes.iter().any(|(f, _)| f == "equinox"));
}

#[test]
fn lanes_numeradas_na_ordem_de_aparicao() {
    let kinds: Vec<String> = ["equinox", "moon.full", "solstice", "moon.new", "equinox"]
        .iter()
        .map(|s| s.to_string())
        .collect();
    let lanes = lane_rows(&kinds);
    assert_eq!(
        lanes,
        vec![("equinox".to_string(), 0), ("moon".to_string(), 1), ("solstice".to_string(), 2)]
    );
    assert!(lane_rows(&[]).is_empty());
}

#[test]
fn familia_e_icone() {
    assert_eq!(family("moon.full"), "moon");
    assert_eq!(family("entry.audit.x"), "entry");
    assert_eq!(family("equinox"), "equinox");
    assert_eq!(family(".x"), "");
    assert_eq!(icon_for("moon.new"), "🌙");
    assert_eq!(icon_for("eclipse.solar"), "🌘");
    assert_eq!(icon_for("solstice"), "☀️");
    assert_eq!(icon_for("entry.audit"), "📓");
    assert_eq!(icon_for("comet"), "📌");
}

fn strings(v: &[&str]) -> Vec<String> {
    v.iter().map(|s| s.to_string()).collect()
}

#[test]
fn time_order_ordena_por_tempo_e_mantem_empates_na_ordem() {
    let times = vec![(50, 0), (10, 5), (50, 0), (10, 1), (-3, 999)];
    assert_eq!(time_order(&times), vec![4, 3, 1, 0, 2]);
    assert!(time_order(&[]).is_empty());
}

#[test]
fn place_events_empilha_colisoes_na_mesma_celula() {
    // Dois eventos da mesma família na mesma coluna: o segundo desce uma linha.
    let (h, rows) = place_events(&strings(&["entry.audit", "entry.audit"]), &[0, 0]);
    assert_eq!(h, 3);
    assert_eq!(rows, vec![0, 1]);
    // Quatro na mesma célula: a pilha para na última linha da faixa.
    let (_, rows) = place_events(&strings(&["a", "a", "a", "a"]), &[5, 5, 5, 5]);
    assert_eq!(rows, vec![0, 1, 2, 2]);
}

#[test]
fn place_events_uma_faixa_por_familia() {
    let kinds = strings(&["moon.full", "equinox", "moon.new", "eclipse.solar", "equinox"]);
    let (h, rows) = place_events(&kinds, &[0, 10, 20, 30, 10]);
    assert_eq!(h, 9);
    // moon → faixa 0, equinox → faixa 1, eclipse → faixa 2
    assert_eq!(rows, vec![0, 3, 0, 6, 4]);
    let (h, rows) = place_events(&[], &[]);
    assert_eq!((h, rows.len()), (3, 0));
}
