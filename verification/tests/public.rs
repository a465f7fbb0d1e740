use yggdrasil::comunicacao::public::{
    build_room, decimal_string, ensure_public_rooms, is_corpus_slug, is_public_id, lang_file,
    lexicon_slice, public_rooms, LexEntry, DEFAULT_TOP_N, PUBLIC_MBYA, PUBLIC_YORUBA,
    SYSTEM_OWNER,
};

fn lex(word: &str, pop: i64) -> LexEntry {
    LexEntry { word: word.to_string(), lang: String::new(), gloss: None, pron: None, pop, decomp: None }
}

fn places(n: usize) -> Vec<(u64, u64)> {
    (0..n).map(|i| ((i as f64).to_bits(), (-(i as f64)).to_bits())).collect()
}

#[test]
fn is_public_id_reconhece() {
    assert!(is_public_id(PUBLIC_MBYA));
    assert!(is_public_id(PUBLIC_YORUBA));
    assert!(!is_public_id("abc123"));
}

#[test]
fn build_room_preserva_ordem_de_popularidade() {
    let entries = vec![lex("b", 9), lex("a", 2)];
    let room = build_room("public-x", "X", "yo", entries, &places(2), 0);
    assert_eq!(room.elements.len(), 2);
    assert_eq!(room.owner, SYSTEM_OWNER);
    assert!(room.published);
    assert_eq!(room.elements[0].word, "b"); // rank 0 = mais popular, não alfabético
    assert_eq!(room.elements[0].id, "e0");
    assert_eq!(room.elements[1].id, "e1");
    assert_eq!(room.elements[1].lang, "yo");
    assert_eq!(f64::from_bits(room.elements[1].x), 1.0);
}

#[test]
fn build_room_limita_ao_top_n() {
    let entries: Vec<LexEntry> = (0..DEFAULT_TOP_N + 50).map(|i| lex(&format!("w{i}"), 0)).collect();
    let room = build_room("public-x", "X", "yo", entries, &places(DEFAULT_TOP_N), 0);
    assert_eq!(room.elements.len(), DEFAULT_TOP_N);
    assert_eq!(room.elements[99].id, "e99");
    assert_eq!(room.elements[99].word, "w99");
}

#[test]
fn lexicon_slice_pagina_por_rank() {
    let all: Vec<LexEntry> = (0..250).map(|i| lex(&format!("w{i}"), 250 - i)).collect();
    let s = lexicon_slice(all.clone(), "gn-mbya", 100, 100, &places(200)[100..]);
    assert_eq!(s.total, 250);
    assert_eq!(s.entries.len(), 100);
    assert_eq!(s.entries[0].index, 100);
    assert_eq!(s.entries[0].word, "w100");
    assert_eq!(s.entries[0].lang, "gn-mbya");
    assert_eq!(s.entries[0].pop, 150);
    assert_eq!(f64::from_bits(s.entries[0].x), 100.0);
    assert_eq!(f64::from_bits(s.entries[99].x), 199.0);
    let only_total = lexicon_slice(all.clone(), "gn-mbya", 0, 0, &[]);
    assert_eq!(only_total.total, 250);
    assert!(only_total.entries.is_empty());
    let tail = lexicon_slice(all.clone(), "gn-mbya", 240, 100, &places(250)[240..]);
    assert_eq!(tail.entries.len(), 10);
    let past = lexicon_slice(all, "gn-mbya", 400, 10, &[]);
    assert!(past.entries.is_empty());
    assert_eq!(lexicon_slice(Vec::new(), "klingon", 0, 50, &[]).total, 0);
}

#[test]
fn salas_publicas_e_quais_gravar() {
    let mut ase = lex("àṣẹ", 1);
    ase.lang = "yo".to_string();
    ase.gloss = Some("força".to_string());
    let rooms = public_rooms(vec![ase], vec![lex("ayvu", 3), lex("teko", 1)], &places(DEFAULT_TOP_N), 0);
    assert_eq!(rooms[0].id, PUBLIC_YORUBA);
    assert_eq!(rooms[0].elements[0].word, "àṣẹ");
    assert_eq!(rooms[0].elements[0].gloss.as_deref(), Some("força"));
    assert_eq!(rooms[1].elements.len(), 2);
    assert!(rooms[1].elements.iter().all(|e| e.lang == "gn-mbya"));
    let empty = public_rooms(Vec::new(), vec![lex("ayvu", 3)], &places(DEFAULT_TOP_N), 0);
    let keep = ensure_public_rooms(empty);
    assert_eq!(keep.len(), 1);
    assert_eq!(keep[0].id, PUBLIC_MBYA);
}

#[test]
fn arquivos_de_lexico_e_nomes_de_corpus() {
    assert_eq!(lang_file("gn-mbya"), Some("guarani-mbya/lexicon.mbya.json"));
    assert_eq!(lang_file("gn"), Some("guarani-mbya/lexicon.mbya.json"));
    assert_eq!(lang_file("yo"), Some("yoruba/lexicon.yo.json"));
    assert_eq!(lang_file("pt"), None);
    assert!(is_corpus_slug("ayvu-rapyta_1"));
    assert!(!is_corpus_slug(""));
    assert!(!is_corpus_slug("../etc"));
    assert!(!is_corpus_slug("a b"));
    assert_eq!(decimal_string(0), "0");
    assert_eq!(decimal_string(1234), "1234");
}
