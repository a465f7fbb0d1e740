use yggdrasil::shandara::{lookup, section_slugs, ShandaraReader};

#[test]
fn manifest_tem_capabilities_de_srd() {
    let m = ShandaraReader::manifest("0.1.0");
    assert_eq!(m.name, "Shandara");
    assert_eq!(m.api_version, 1);
    let caps: Vec<&str> = m.capabilities.iter().map(|s| s.as_str()).collect();
    for c in ["content", "rpg", "srd"] {
        assert!(caps.contains(&c), "capability '{c}' ausente");
    }
}

#[test]
fn todas_as_secoes_listadas_existem() {
    for slug in section_slugs() {
        assert!(lookup(slug).is_some(), "seção '{slug}' não resolve");
    }
}

#[test]
fn open_sem_secao_abre_index() {
    let r = ShandaraReader::open(None);
    assert_eq!(r.section, "index");
    assert_eq!(r.position(), Some(0));
}

#[test]
fn open_com_secao() {
    let r = ShandaraReader::open(Some("mundo/forcas-primordiais"));
    assert_eq!(r.section, "mundo/forcas-primordiais");
    assert_eq!(r.position(), Some(1));
}

#[test]
fn navigate_muda_secao() {
    let mut r = ShandaraReader::open(None);
    r.navigate(Some("navigate"), Some("regras/atributos"));
    assert_eq!(r.section, "regras/atributos");
    assert_eq!(r.position(), Some(5));
}

#[test]
fn navigate_para_secao_inexistente() {
    let mut r = ShandaraReader::open(None);
    r.navigate(Some("navigate"), Some("nao/existe"));
    assert_eq!(r.section, "nao/existe");
    assert_eq!(r.position(), None);
}

#[test]
fn outras_acoes_nao_navegam() {
    let mut r = ShandaraReader::open(None);
    r.navigate(Some("jump"), Some("regras/atributos"));
    assert_eq!(r.section, "index");
    r.navigate(Some("navigate"), None);
    assert_eq!(r.section, "index");
    r.navigate(None, Some("regras/atributos"));
    assert_eq!(r.section, "index");
}

#[test]
fn tabela_tem_sete_secoes() {
    let s = section_slugs();
    assert_eq!(s.len(), 7);
    assert_eq!(s[6], "regras/criacao-personagem");
    assert_eq!(lookup("povos/transmutos"), Some(4));
}
