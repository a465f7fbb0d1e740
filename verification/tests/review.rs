use yggdrasil::comunicacao::review::{ReviewItem, ReviewQueue, DAY_MS, MAX_INTERVAL_DAYS};

fn t(s: &str) -> i64 {
    let num = |a: usize, z: usize| -> i64 { s[a..z].parse::<i64>().unwrap() };
    let (y, m, d) = (num(0, 4), num(5, 7), num(8, 10));
    let (hh, mm, ss) = (num(11, 13), num(14, 16), num(17, 19));
    let y2 = if m <= 2 { y - 1 } else { y };
    let era = y2.div_euclid(400);
    let yoe = y2 - era * 400;
    let mp = (m + 9) % 12;
    let doy = (153 * mp + 2) / 5 + d - 1;
    let doe = yoe * 365 + yoe / 4 - yoe / 100 + doy;
    let days = era * 146097 + doe - 719468;
    ((days * 24 + hh) * 60 + mm) * 60_000 + ss * 1000
}

#[test]
fn item_novo_vence_imediatamente() {
    let now = t("2026-06-01T00:00:00Z");
    let item = ReviewItem::new("yoruba/terms/ase.md", "àṣẹ", "yo", None, now);
    assert!(item.is_due(now));
    assert_eq!(item.interval_days, 0);
}

#[test]
fn acerto_dobra_intervalo() {
    let now = t("2026-06-01T00:00:00Z");
    let mut item = ReviewItem::new("p", "w", "yo", None, now);
    item.grade(true, now);
    assert_eq!(item.interval_days, 1);
    assert_eq!(item.due_at, now + DAY_MS);
    let due = item.due_at;
    item.grade(true, due);
    assert_eq!(item.interval_days, 2);
    let due = item.due_at;
    item.grade(true, due);
    assert_eq!(item.interval_days, 4);
    assert_eq!(item.reps, 3);
}

#[test]
fn erro_zera_e_revisa_hoje() {
    let now = t("2026-06-01T00:00:00Z");
    let mut item = ReviewItem::new("p", "w", "yo", None, now);
    item.grade(true, now);
    let due = item.due_at;
    item.grade(true, due);
    let later = t("2026-06-10T00:00:00Z");
    item.grade(false, later);
    assert_eq!(item.interval_days, 0);
    assert_eq!(item.reps, 0);
    assert_eq!(item.lapses, 1);
    assert!(item.is_due(later));
}

#[test]
fn intervalo_nao_ultrapassa_teto() {
    let now = t("2026-06-01T00:00:00Z");
    let mut item = ReviewItem::new("p", "w", "yo", None, now);
    for _ in 0..20 {
        let due = item.due_at;
        item.grade(true, due);
    }
    assert!(item.interval_days <= MAX_INTERVAL_DAYS);
    assert_eq!(item.interval_days, 365);
}

#[test]
fn interval_sequence_reaches_the_ceiling_exactly() {
    let mut item = ReviewItem::new("p", "w", "yo", None, 0);
    let mut seen = Vec::new();
    for _ in 0..11 {
        let due = item.due_at;
        item.grade(true, due);
        seen.push(item.interval_days);
    }
    assert_eq!(seen, vec![1, 2, 4, 8, 16, 32, 64, 128, 256, 365, 365]);
}

#[test]
fn upsert_nao_duplica() {
    let now = t("2026-06-01T00:00:00Z");
    let mut q = ReviewQueue::new();
    assert!(q.upsert(ReviewItem::new("p", "w", "yo", None, now)));
    assert!(!q.upsert(ReviewItem::new("p", "w2", "yo", None, now)));
    assert_eq!(q.items.len(), 1);
    assert_eq!(q.items[0].word, "w");
    assert_eq!(q.index_of("p"), Some(0));
    assert_eq!(q.index_of("q"), None);
}

#[test]
fn due_ordena_por_vencimento() {
    let now = t("2026-06-10T00:00:00Z");
    let mut q = ReviewQueue::new();
    let mut a = ReviewItem::new("a", "a", "yo", None, t("2026-06-01T00:00:00Z"));
    a.due_at = t("2026-06-05T00:00:00Z");
    let mut b = ReviewItem::new("b", "b", "yo", None, t("2026-06-02T00:00:00Z"));
    b.due_at = t("2026-06-03T00:00:00Z");
    let mut future = ReviewItem::new("c", "c", "yo", None, now);
    future.due_at = t("2026-07-01T00:00:00Z");
    q.items = vec![a, b, future];
    let due = q.due(now);
    assert_eq!(due.len(), 2);
    assert_eq!(due[0].term_path, "b");
    assert_eq!(due[1].term_path, "a");
}

#[test]
fn due_keeps_queue_order_on_ties() {
    let mut q = ReviewQueue::new();
    q.items = vec![
        ReviewItem::new("x", "x", "yo", None, 10),
        ReviewItem::new("y", "y", "yo", None, 5),
        ReviewItem::new("z", "z", "yo", None, 10),
    ];
    assert_eq!(q.due_indices(10), vec![1, 0, 2]);
    assert_eq!(q.due_indices(7), vec![1]);
    assert!(q.due_indices(4).is_empty());
}

#[test]
fn get_mut_changes_the_queued_item() {
    let mut q = ReviewQueue::new();
    q.upsert(ReviewItem::new("a.md", "a", "yo", None, 0));
    q.upsert(ReviewItem::new("b.md", "b", "yo", None, 0));
    q.get_mut("b.md").unwrap().due_at = 99;
    assert_eq!(q.items[1].due_at, 99);
    assert_eq!(q.items[0].due_at, 0);
    assert!(q.get_mut("c.md").is_none());
}
