use yggdrasil::comunicacao::score::BitsLedger;

fn floor_of(b: f64) -> u64 {
    b.floor() as u64
}
fn twice_floor_of(b: f64) -> u64 {
    (2.0 * b).floor() as u64
}
fn ceil_of(b: f64) -> u64 {
    b.ceil() as u64
}

#[test]
fn descoberta_credita_floor_bps_min1() {
    let mut l = BitsLedger::new();
    let credited = l.discover("musica", "A4", floor_of(3.58));
    assert_eq!(credited, 3, "floor(3.58)=3");
    assert_eq!(l.total_bits, 3);
}

#[test]
fn descoberta_min1_quando_bps_zero() {
    let mut l = BitsLedger::new();
    let c = l.discover("pack", "term", floor_of(0.0));
    assert_eq!(c, 1, "mínimo de 1 bit mesmo com bps=0");
}

#[test]
fn descoberta_idempotente() {
    let mut l = BitsLedger::new();
    l.discover("musica", "A4", floor_of(3.58));
    let second = l.discover("musica", "A4", floor_of(3.58));
    assert_eq!(second, 0, "segunda descoberta não credita");
    assert_eq!(l.total_bits, 3, "saldo não muda");
    assert_eq!(l.discovered, vec!["musica/A4".to_string()]);
}

#[test]
fn identificacao_correta_credita_bonus_decrescente() {
    let mut l = BitsLedger::new();
    let (ok, b) = l.grade_attempt("p", "t", "t", "t", twice_floor_of(3.58));
    assert!(ok);
    assert_eq!(b, 7, "1ª tentativa: {b}");
    let (ok2, b2) = l.grade_attempt("p", "t", "t", "t", twice_floor_of(3.58));
    assert!(ok2);
    assert_eq!(b2, 3, "2ª tentativa: {b2}");
    assert_eq!(l.total_bits, 10);
}

#[test]
fn identificacao_errada_nao_credita_mas_conta_tentativa() {
    let mut l = BitsLedger::new();
    let (ok, b) = l.grade_attempt("p", "t", "errado", "t", twice_floor_of(3.58));
    assert!(!ok);
    assert_eq!(b, 0);
    let (ok2, b2) = l.grade_attempt("p", "t", "t", "t", twice_floor_of(3.58));
    assert!(ok2);
    assert_eq!(b2, 3, "após 1 erro: {b2}");
    assert_eq!(l.identified, vec![("p/t".to_string(), 2)]);
}

#[test]
fn answer_matching_ignores_case_and_surrounding_space() {
    let mut l = BitsLedger::new();
    let (ok, _) = l.grade_attempt("p", "t", "  ÑE'Ẽ ", "ñe'ẽ", 4);
    assert!(ok);
    let (ok2, _) = l.grade_attempt("p", "t", "ne'e", "ñe'ẽ", 4);
    assert!(!ok2);
}

#[test]
fn reveal_debita_ceil_bps() {
    let mut l = BitsLedger::new();
    l.total_bits = 10;
    let r = l.reveal_gloss("musica", "A4", ceil_of(3.58));
    assert!(r.is_ok());
    assert_eq!(r.unwrap(), 4, "ceil(3.58)=4");
    assert_eq!(l.total_bits, 6);
}

#[test]
fn reveal_saldo_insuficiente_nao_debita_e_retorna_custo() {
    let mut l = BitsLedger::new();
    l.total_bits = 1;
    let r = l.reveal_gloss("musica", "A4", ceil_of(3.58));
    assert!(r.is_err());
    assert_eq!(r.unwrap_err(), 4);
    assert_eq!(l.total_bits, 1, "saldo inalterado");
}

#[test]
fn reveal_min1_quando_bps_zero() {
    let mut l = BitsLedger::new();
    l.total_bits = 5;
    let r = l.reveal_gloss("pack", "term", ceil_of(0.0));
    assert_eq!(r, Ok(1));
}

#[test]
fn saldo_nunca_negativo() {
    let mut l = BitsLedger::new();
    l.discover("p", "t", floor_of(0.0));
    assert_eq!(l.total_bits, 1);
    let r = l.reveal_gloss("p", "t", ceil_of(3.58));
    assert!(r.is_err(), "saldo insuficiente deve ser Err");
    assert_eq!(l.total_bits, 1, "saldo permanece positivo");
}

#[test]
fn bonus_halves_per_attempt_down_to_zero() {
    let mut l = BitsLedger::new();
    let mut got = Vec::new();
    for _ in 0..5 {
        got.push(l.grade_attempt("p", "t", "x", "x", 7).1);
    }
    assert_eq!(got, vec![7, 3, 1, 0, 0]);
}
