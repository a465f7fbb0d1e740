use yggdrasil::comunicacao::caderno::{Caderno, CadernoStore};

/// Milliseconds since the epoch of an RFC 3339 UTC time `YYYY-MM-DDTHH:MM:SSZ`.
fn ts(s: &str) -> i64 {
    let b = s.as_bytes();
    let num = |a: usize, z: usize| -> i64 { s[a..z].parse::<i64>().unwrap() };
    assert_eq!(b[10], b'T');
    let (y, m, d) = (num(0, 4), num(5, 7), num(8, 10));
    let (hh, mm, ss) = (num(11, 13), num(14, 16), num(17, 19));
    let y2 = if m <= 2 { y - 1 } else { y };
    let era = y2.div_euclid(400);
    let yoe = y2 - era * 400;
    let mp = (m + 9) % 12;
    let doy = (153 * mp + 2) / 5 + d - 1;
    let doe = yoe * 365 + yoe / 4 - yoe / 100 + doy;
    let days = era * 146097 + doe - 719468;
    ((days * 24 + hh) * 60 + mm) * 60_000 + ss * 1000
}

#[test]
fn epoch_helper_is_right() {
    assert_eq!(ts("1970-01-01T00:00:00Z"), 0);
    assert_eq!(ts("2026-06-08T00:00:00Z"), 1_780_876_800_000);
}

#[test]
fn add_fav_idempotente_preserva_timestamp() {
    let mut c = Caderno::default();
    assert!(c.add_fav("k", ts("2026-06-08T00:00:00Z")));
    assert!(!c.add_fav("k", ts("2026-06-09T00:00:00Z")), "já existia");
    assert_eq!(c.fav_at("k"), Some(ts("2026-06-08T00:00:00Z")), "mantém o original");
    assert!(c.remove_fav("k"));
    assert!(!c.remove_fav("k"));
}

#[test]
fn upsert_note_distingue_created_de_updated() {
    let mut c = Caderno::default();
    assert!(c.upsert_note("k", "T", "v1", ts("2026-06-08T00:00:00Z")));
    assert!(!c.upsert_note("k", "T", "v2", ts("2026-06-09T00:00:00Z")));
    assert_eq!(c.note_at("k").unwrap().markdown, "v2");
}

#[test]
fn note_titulo_vazio_usa_a_chave() {
    let mut c = Caderno::default();
    c.upsert_note("cap-1-v-2", "   ", "corpo", ts("2026-06-08T00:00:00Z"));
    assert_eq!(c.note_at("cap-1-v-2").unwrap().title, "cap-1-v-2");
}

#[test]
fn merge_sem_perda_e_idempotente() {
    let mut server = Caderno::default();
    server.add_fav("a", ts("2026-06-01T00:00:00Z"));
    server.upsert_note("n", "Server", "server-body", ts("2026-06-05T00:00:00Z"));
    server.set_progress("cap-1", "v-3");

    let mut local = Caderno::default();
    local.add_fav("a", ts("2026-05-20T00:00:00Z"));
    local.add_fav("b", ts("2026-06-02T00:00:00Z"));
    local.upsert_note("n", "Local", "local-body", ts("2026-06-07T00:00:00Z"));
    local.set_progress("cap-1", "v-5");

    let snapshot = local.clone();
    server.merge_from(local);

    assert_eq!(server.fav_at("a"), Some(ts("2026-05-20T00:00:00Z")), "fav mais antigo vence");
    assert!(server.fav_at("b").is_some());
    assert_eq!(server.note_at("n").unwrap().markdown, "local-body", "nota mais nova vence");
    assert_eq!(server.progress_at("cap-1"), Some("v-5"), "progresso local sobrescreve");

    let before = server.clone();
    server.merge_from(snapshot);
    assert_eq!(server, before, "merge é idempotente");
}

#[test]
fn merge_nao_regride_nota_mais_nova_do_servidor() {
    let mut server = Caderno::default();
    server.upsert_note("n", "Server", "novo", ts("2026-06-09T00:00:00Z"));
    let mut local = Caderno::default();
    local.upsert_note("n", "Local", "velho", ts("2026-06-01T00:00:00Z"));
    server.merge_from(local);
    assert_eq!(server.note_at("n").unwrap().markdown, "novo", "servidor mais novo não regride");
}

#[test]
fn merge_tie_keeps_the_existing_note() {
    let mut server = Caderno::default();
    server.upsert_note("n", "S", "mine", 5);
    let mut local = Caderno::default();
    local.upsert_note("n", "L", "theirs", 5);
    server.merge_from(local);
    assert_eq!(server.note_at("n").unwrap().markdown, "mine");
}

#[test]
fn notes_and_progress_can_be_removed_and_read() {
    let mut c = Caderno::default();
    assert!(c.note_at("x").is_none());
    c.upsert_note("x", "T", "b", 1);
    assert!(c.remove_note("x"));
    assert!(!c.remove_note("x"));
    assert_eq!(c.progress_at("cap"), None);
    c.set_progress("cap", "v-1");
    c.set_progress("cap", "v-2");
    assert_eq!(c.progress_at("cap"), Some("v-2"));
    assert_eq!(c.progress.len(), 1);
}

#[test]
fn caderno_path_uses_the_user_slug() {
    let p = CadernoStore::caderno_path("alice@test.com");
    assert_eq!(p, vec!["_caderno".to_string(), "alice-test-com.json".to_string()]);
    let s = CadernoStore::new("/data");
    assert_eq!(s.root(), "/data");
}
