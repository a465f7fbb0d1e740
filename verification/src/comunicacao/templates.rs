//! Seed templates of rooms: Yoruba and Mbyá Guaraní.
//!
//! Each template is a set of elements already placed on a free map, with
//! gloss, pronunciation, anchor concept and references, and the relations
//! between them. The user inherits the map and may move, edit, add and
//! publish terms.
use vstd::prelude::*;
use vstd::string::StringExecFns;

use crate::comunicacao::room::{
    coord, elems_view, has_elem, has_lnk, links_view, room_ok, whole_bits, ElemV, Element, LinkV,
    Link, LexiconLink, Reference, Room, RoomV, Viewport, F64_ONE, SCHEMA_VERSION,
};
use crate::text::str_eq;

verus! {

/// A template as listed for the user.
#[derive(Debug, Clone)]
pub struct TemplateSummary {
    pub slug: String,
    pub title: String,
    pub lang: String,
    pub description: String,
    pub element_count: usize,
}

/// The template slugs, in listing order.
pub open spec fn template_slugs() -> Seq<Seq<char>> {
    seq!["yoruba"@, "mbya"@, "blank"@]
}

/// The template slugs, in listing order.
pub fn templates() -> (r: Vec<&'static str>)
    ensures
        r@.len() == 3,
        forall|i: int| 0 <= i < 3 ==> (#[trigger] r@[i])@ == template_slugs()[i],
{
    let mut v: Vec<&'static str> = Vec::new();
    v.push("yoruba");
    v.push("mbya");
    v.push("blank");
    v
}

/// The room title of a template.
pub open spec fn title_of(slug: Seq<char>) -> Seq<char> {
    if slug == "yoruba"@ {
        "Sala Iorubá"@
    } else if slug == "mbya"@ {
        "Sala Mbyá Guaraní"@
    } else {
        "Nova sala"@
    }
}

/// The main language of a template.
pub open spec fn lang_of(slug: Seq<char>) -> Seq<char> {
    if slug == "yoruba"@ {
        "yo"@
    } else if slug == "mbya"@ {
        "gn-mbya"@
    } else {
        "pt"@
    }
}

/// The description of a template; empty for an unknown slug.
pub open spec fn description_of(slug: Seq<char>) -> Seq<char> {
    if slug == "yoruba"@ {
        "Mapa do vocabulário litúrgico afro-brasileiro de matriz iorubá — orixás, força vital (àṣẹ) e palavras-núcleo."@
    } else if slug == "mbya"@ {
        "Mapa da cosmologia e do modo de viver Mbyá Guaraní — nhandereko, a alma-palavra (ayvu/nhe'ẽ) e as eras (ara)."@
    } else if slug == "blank"@ {
        "Sala vazia — comece do zero e acrescente seus próprios termos."@
    } else {
        ""@
    }
}

fn template_description(slug: &str) -> (r: &'static str)
    ensures
        r@ == description_of(slug@),
{
    if str_eq(slug, "yoruba") {
        "Mapa do vocabulário litúrgico afro-brasileiro de matriz iorubá — orixás, força vital (àṣẹ) e palavras-núcleo."
    } else if str_eq(slug, "mbya") {
        "Mapa da cosmologia e do modo de viver Mbyá Guaraní — nhandereko, a alma-palavra (ayvu/nhe'ẽ) e as eras (ara)."
    } else if str_eq(slug, "blank") {
        "Sala vazia — comece do zero e acrescente seus próprios termos."
    } else {
        ""
    }
}

/// A seed element: what the template says of it.
pub struct ElemRow {
    pub id: Seq<char>,
    pub word: Seq<char>,
    pub x: int,
    pub y: int,
    pub pronunciation: Seq<char>,
    pub gloss: Seq<char>,
    pub concept: Option<Seq<char>>,
    /// Its references, in order: URL, source and kind.
    pub refs: Seq<(Seq<char>, Seq<char>, Option<Seq<char>>)>,
}

/// The element is the seed row, in language `lang`, not yet in the lexicon.
pub open spec fn matches_row(e: ElemV, r: ElemRow, lang: Seq<char>) -> bool {
    &&& e.id == r.id
    &&& e.word == r.word
    &&& e.lang == lang
    &&& e.x == whole_bits(r.x)
    &&& e.y == whole_bits(r.y)
    &&& e.pronunciation == Some(r.pronunciation)
    &&& e.gloss == Some(r.gloss)
    &&& e.concept == r.concept
    &&& e.refs.len() == r.refs.len()
    &&& forall|k: int|
        0 <= k < e.refs.len() ==> ((#[trigger] e.refs[k]).url@, e.refs[k].source@, match e.refs[k].kind {
            Some(x) => Some(x@),
            None => None,
        }) == r.refs[k]
    &&& e.lexicon == LexiconLink::Local
}

/// Each element matches its seed row.
pub open spec fn matches_rows(es: Seq<ElemV>, rows: Seq<ElemRow>, lang: Seq<char>) -> bool {
    &&& es.len() == rows.len()
    &&& forall|i: int| 0 <= i < es.len() ==> matches_row(#[trigger] es[i], rows[i], lang)
}

// ── References ────────────────────────────────────────────────────────────

fn ref_ase() -> (r: Reference)
    ensures
        r.url@ == "https://en.wikipedia.org/wiki/A%E1%B9%A3%E1%BA%B9"@,
        r.source@ == "Wikipedia — Aṣẹ"@,
        r.kind matches Some(k) && k@ == "article"@,
{
    Reference::new(
        "https://en.wikipedia.org/wiki/A%E1%B9%A3%E1%BA%B9",
        "Wikipedia — Aṣẹ",
        "article",
    )
}

fn ref_ori() -> (r: Reference)
    ensures
        r.url@ == "https://en.wikipedia.org/wiki/Ori_(Yoruba)"@,
        r.source@ == "Wikipedia — Orí (Yoruba)"@,
        r.kind matches Some(k) && k@ == "article"@,
{
    Reference::new(
        "https://en.wikipedia.org/wiki/Ori_(Yoruba)",
        "Wikipedia — Orí (Yoruba)",
        "article",
    )
}

fn ref_orisha() -> (r: Reference)
    ensures
        r.url@ == "https://en.wikipedia.org/wiki/Orisha"@,
        r.source@ == "Wikipedia — Orisha"@,
        r.kind matches Some(k) && k@ == "article"@,
{
    Reference::new(
        "https://en.wikipedia.org/wiki/Orisha",
        "Wikipedia — Orisha",
        "article",
    )
}

fn ref_ayvu_rapyta_yt() -> (r: Reference)
    ensures
        r.url@ == "https://www.youtube.com/watch?v=I1WypSTPubg"@,
        r.source@ == "AYVU RAPYTA: Creation According to the Mbyá-Guaraní"@,
        r.kind matches Some(k) && k@ == "youtube"@,
{
    Reference::new(
        "https://www.youtube.com/watch?v=I1WypSTPubg",
        "AYVU RAPYTA: Creation According to the Mbyá-Guaraní",
        "youtube",
    )
}

fn ref_nhandereko() -> (r: Reference)
    ensures
        r.url@ == "https://clacs.berkeley.edu/nhandereko-guarani-law-audio-annotations"@,
        r.source@ == "CLACS Berkeley — Nhandereko, the Guarani Law"@,
        r.kind matches Some(k) && k@ == "article"@,
{
    Reference::new(
        "https://clacs.berkeley.edu/nhandereko-guarani-law-audio-annotations",
        "CLACS Berkeley — Nhandereko, the Guarani Law",
        "article",
    )
}

fn ref_nhandereko_yt() -> (r: Reference)
    ensures
        r.url@ == "https://youtu.be/qt-Mmlk-YZc"@,
        r.source@ == "NHANDEREKO — Aldeia Pyau, Jaraguá/SP (vídeo)"@,
        r.kind matches Some(k) && k@ == "youtube"@,
{
    Reference::new(
        "https://youtu.be/qt-Mmlk-YZc",
        "NHANDEREKO — Aldeia Pyau, Jaraguá/SP (vídeo)",
        "youtube",
    )
}

fn ref_nhamandu_yt() -> (r: Reference)
    ensures
        r.url@ == "https://youtu.be/GCOdIE7D4XM"@,
        r.source@ == "Nhamandu — canto Mbyá-Guaraní (Morro da Saudade/SP)"@,
        r.kind matches Some(k) && k@ == "youtube"@,
{
    Reference::new(
        "https://youtu.be/GCOdIE7D4XM",
        "Nhamandu — canto Mbyá-Guaraní (Morro da Saudade/SP)",
        "youtube",
    )
}

fn ref_ayvu_palavra_alma_yt() -> (r: Reference)
    ensures
        r.url@ == "https://youtu.be/Z0w0PxKL2TQ"@,
        r.source@ == "Ayvu Rapyta — onde a palavra é alma e a linguagem, princípio vital"@,
        r.kind matches Some(k) && k@ == "youtube"@,
{
    Reference::new(
        "https://youtu.be/Z0w0PxKL2TQ",
        "Ayvu Rapyta — onde a palavra é alma e a linguagem, princípio vital",
        "youtube",
    )
}

fn ref_iemanja_yt() -> (r: Reference)
    ensures
        r.url@ == "https://youtu.be/78Oh-_4_Zc8"@,
        r.source@ == "Iemanjá — candomblé: 'eje nile je odo' (ponto cantado)"@,
        r.kind matches Some(k) && k@ == "youtube"@,
{
    Reference::new(
        "https://youtu.be/78Oh-_4_Zc8",
        "Iemanjá — candomblé: 'eje nile je odo' (ponto cantado)",
        "youtube",
    )
}

fn ref_exu_yt() -> (r: Reference)
    ensures
        r.url@ == "https://youtu.be/QAG5WhOvXvY"@,
        r.source@ == "Eshu/Elegba, the Orisa who opens the doors — Ella Andall"@,
        r.kind matches Some(k) && k@ == "youtube"@,
{
    Reference::new(
        "https://youtu.be/QAG5WhOvXvY",
        "Eshu/Elegba, the Orisa who opens the doors — Ella Andall",
        "youtube",
    )
}

fn ref_ede_yt() -> (r: Reference)
    ensures
        r.url@ == "https://youtu.be/WhD1GUGGtEo"@,
        r.source@ == "Yoruba Alphabet Song (Álífábẹ́ẹ̀tì Èdè Yorùbá)"@,
        r.kind matches Some(k) && k@ == "youtube"@,
{
    Reference::new(
        "https://youtu.be/WhD1GUGGtEo",
        "Yoruba Alphabet Song (Álífábẹ́ẹ̀tì Èdè Yorùbá)",
        "youtube",
    )
}

fn ref_olodumare_yt() -> (r: Reference)
    ensures
        r.url@ == "https://youtu.be/aMSuDnvf9vE"@,
        r.source@ == "Olódùmarè: The Hidden God of Yoruba Cosmology Explained"@,
        r.kind matches Some(k) && k@ == "youtube"@,
{
    Reference::new(
        "https://youtu.be/aMSuDnvf9vE",
        "Olódùmarè: The Hidden God of Yoruba Cosmology Explained",
        "youtube",
    )
}

fn ref_orunmila_yt() -> (r: Reference)
    ensures
        r.url@ == "https://youtu.be/UH-2QktdwRs"@,
        r.source@ == "Òrúnmìlà: the man, the orisha and the worldview"@,
        r.kind matches Some(k) && k@ == "youtube"@,
{
    Reference::new(
        "https://youtu.be/UH-2QktdwRs",
        "Òrúnmìlà: the man, the orisha and the worldview",
        "youtube",
    )
}

fn ref_ifa_unesco_yt() -> (r: Reference)
    ensures
        r.url@ == "https://youtu.be/k9lGVF6jYN4"@,
        r.source@ == "The Ifa Divination System (UNESCO — patrimônio imaterial)"@,
        r.kind matches Some(k) && k@ == "youtube"@,
{
    Reference::new(
        "https://youtu.be/k9lGVF6jYN4",
        "The Ifa Divination System (UNESCO — patrimônio imaterial)",
        "youtube",
    )
}

fn ref_odu_yt() -> (r: Reference)
    ensures
        r.url@ == "https://youtu.be/yrRm_mQUPRU"@,
        r.source@ == "Odu Ifá Explained: the 16 sacred Yoruba wisdom codes"@,
        r.kind matches Some(k) && k@ == "youtube"@,
{
    Reference::new(
        "https://youtu.be/yrRm_mQUPRU",
        "Odu Ifá Explained: the 16 sacred Yoruba wisdom codes",
        "youtube",
    )
}

fn ref_egbe_yt() -> (r: Reference)
    ensures
        r.url@ == "https://youtu.be/rIjKdOlzxWs"@,
        r.source@ == "Egbe Orun Explained: heavenly companions and destiny support"@,
        r.kind matches Some(k) && k@ == "youtube"@,
{
    Reference::new(
        "https://youtu.be/rIjKdOlzxWs",
        "Egbe Orun Explained: heavenly companions and destiny support",
        "youtube",
    )
}
// ── Yoruba ──────────────────────────────────────────────────────────

/// The Yoruba seed elements.
pub open spec fn yoruba_rows() -> Seq<ElemRow> {
    seq![
        ElemRow {
            id: "ase"@,
            word: "àṣẹ"@,
            x: 0,
            y: 0,
            pronunciation: "[à.ʃɛ]"@,
            gloss: "Força vital; o poder que realiza a palavra. Também: 'assim seja' (afirmação ritual)."@,
            concept: Some("co://concepts/word.md"@),
            refs: seq![("https://en.wikipedia.org/wiki/A%E1%B9%A3%E1%BA%B9"@, "Wikipedia — Aṣẹ"@, Some("article"@))],
        },
        ElemRow {
            id: "ori"@,
            word: "orí"@,
            x: 220,
            y: -40,
            pronunciation: "[ó.ɾí]"@,
            gloss: "Cabeça; intuição espiritual e destino — o núcleo interior do ser."@,
            concept: None,
            refs: seq![("https://en.wikipedia.org/wiki/Ori_(Yoruba)"@, "Wikipedia — Orí (Yoruba)"@, Some("article"@))],
        },
        ElemRow {
            id: "orixa"@,
            word: "òrìṣà"@,
            x: -200,
            y: 80,
            pronunciation: "[ɔ̀.ɾì.ʃà]"@,
            gloss: "Divindade; força da natureza cultuada no Candomblé e na Umbanda."@,
            concept: None,
            refs: seq![("https://en.wikipedia.org/wiki/Orisha"@, "Wikipedia — Orisha"@, Some("article"@))],
        },
        ElemRow {
            id: "iemanja"@,
            word: "Yemọja"@,
            x: -260,
            y: -120,
            pronunciation: "[je.mɔ.dʒa]"@,
            gloss: "Rainha das águas, mãe dos orixás e da humanidade; Iemanjá no Brasil."@,
            concept: Some("co://concepts/mother.md"@),
            refs: seq![("https://youtu.be/78Oh-_4_Zc8"@, "Iemanjá — candomblé: 'eje nile je odo' (ponto cantado)"@, Some("youtube"@))],
        },
        ElemRow {
            id: "ogum"@,
            word: "Ògún"@,
            x: -120,
            y: 220,
            pronunciation: "[ò.ɡún]"@,
            gloss: "Orixá do ferro, da guerra e do trabalho; abre estradas com o facão."@,
            concept: None,
            refs: seq![],
        },
        ElemRow {
            id: "oxala"@,
            word: "Ọbàtálá"@,
            x: 120,
            y: 200,
            pronunciation: "[ɔ.ba.ta.la]"@,
            gloss: "Oxalá — pai criador, orixá da paz e da criação dos seres humanos."@,
            concept: None,
            refs: seq![],
        },
        ElemRow {
            id: "exu"@,
            word: "Èṣù"@,
            x: 0,
            y: 320,
            pronunciation: "[è.ʃù]"@,
            gloss: "Mensageiro entre orixás e humanos; guardião e abridor dos caminhos."@,
            concept: None,
            refs: seq![("https://youtu.be/QAG5WhOvXvY"@, "Eshu/Elegba, the Orisa who opens the doors — Ella Andall"@, Some("youtube"@))],
        },
        ElemRow {
            id: "iya"@,
            word: "ìyá"@,
            x: -360,
            y: -40,
            pronunciation: "[ì.já]"@,
            gloss: "Mãe."@,
            concept: Some("co://concepts/mother.md"@),
            refs: seq![],
        },
        ElemRow {
            id: "ede"@,
            word: "èdè"@,
            x: 280,
            y: 120,
            pronunciation: "[è.dè]"@,
            gloss: "Língua, idioma, fala — como em Èdè Yorùbá."@,
            concept: Some("co://concepts/word.md"@),
            refs: seq![("https://youtu.be/WhD1GUGGtEo"@, "Yoruba Alphabet Song (Álífábẹ́ẹ̀tì Èdè Yorùbá)"@, Some("youtube"@))],
        },
        ElemRow {
            id: "oro"@,
            word: "ọ̀rọ̀"@,
            x: 360,
            y: 40,
            pronunciation: "[ɔ̀.ɾɔ̀]"@,
            gloss: "Palavra, assunto, matéria da fala — a unidade, distinta de èdè (a língua-todo)."@,
            concept: Some("co://concepts/word.md"@),
            refs: seq![],
        },
        ElemRow {
            id: "omi"@,
            word: "omi"@,
            x: -380,
            y: 120,
            pronunciation: "[ò.mi]"@,
            gloss: "Água."@,
            concept: None,
            refs: seq![],
        },
        ElemRow {
            id: "ile"@,
            word: "ilẹ̀"@,
            x: 160,
            y: 360,
            pronunciation: "[ì.lɛ̀]"@,
            gloss: "Terra, chão, a terra-mãe."@,
            concept: None,
            refs: seq![],
        },
        ElemRow {
            id: "omo"@,
            word: "ọmọ"@,
            x: -160,
            y: -200,
            pronunciation: "[ɔ.mɔ]"@,
            gloss: "Filho, criança, descendência."@,
            concept: None,
            refs: seq![],
        },
        ElemRow {
            id: "olodumare"@,
            word: "Olódùmarè"@,
            x: 560,
            y: -260,
            pronunciation: "[ò.lò.du.ma.rɛ̀]"@,
            gloss: "Ser Supremo; fonte de todo àṣẹ. O deus criador distante de quem emana a existência — não cultuado diretamente, mas através dos orixás."@,
            concept: None,
            refs: seq![("https://youtu.be/aMSuDnvf9vE"@, "Olódùmarè: The Hidden God of Yoruba Cosmology Explained"@, Some("youtube"@))],
        },
        ElemRow {
            id: "orunmila"@,
            word: "Òrúnmìlà"@,
            x: 560,
            y: 0,
            pronunciation: "[ò.ɾũ.mì.là]"@,
            gloss: "Orixá da sabedoria e da adivinhação; elérìí ìpín, a 'testemunha do destino' presente quando cada orí é escolhido. Dono do oráculo de Ifá."@,
            concept: None,
            refs: seq![("https://youtu.be/UH-2QktdwRs"@, "Òrúnmìlà: the man, the orisha and the worldview"@, Some("youtube"@))],
        },
        ElemRow {
            id: "ifa"@,
            word: "Ifá"@,
            x: 720,
            y: 80,
            pronunciation: "[ì.fá]"@,
            gloss: "Sistema oracular e corpo de sabedoria revelado por Òrúnmìlà — recitado pelo babalawô. Patrimônio Imaterial da Humanidade (UNESCO)."@,
            concept: Some("co://concepts/word.md"@),
            refs: seq![("https://youtu.be/k9lGVF6jYN4"@, "The Ifa Divination System (UNESCO — patrimônio imaterial)"@, Some("youtube"@))],
        },
        ElemRow {
            id: "odu"@,
            word: "odù"@,
            x: 720,
            y: -120,
            pronunciation: "[ò.dù]"@,
            gloss: "Os 256 signos/capítulos do corpus de Ifá; cada odù reúne versos, mitos e prescrições reveladas na adivinhação."@,
            concept: Some("co://concepts/word.md"@),
            refs: seq![("https://youtu.be/yrRm_mQUPRU"@, "Odu Ifá Explained: the 16 sacred Yoruba wisdom codes"@, Some("youtube"@))],
        },
        ElemRow {
            id: "egbe"@,
            word: "Egbé Òrun"@,
            x: 380,
            y: -360,
            pronunciation: "[ɛ.gbe ò.ɾũ]"@,
            gloss: "Companheiros celestiais no òrun (além-mundo); a 'turma-alma' que cada pessoa deixa ao nascer e que ampara seu destino."@,
            concept: None,
            refs: seq![("https://youtu.be/rIjKdOlzxWs"@, "Egbe Orun Explained: heavenly companions and destiny support"@, Some("youtube"@))],
        },    ]
}
fn yoruba_elements() -> (r: Vec<Element>)
    ensures
        matches_rows(elems_view(r@), yoruba_rows(), "yo"@),
{
    let mut v: Vec<Element> = Vec::new();
    let e = Element::new("ase", "àṣẹ", "yo").at(coord(0), coord(0)).with_pronunciation(
            "[à.ʃɛ]",
        ).with_gloss(
            "Força vital; o poder que realiza a palavra. Também: 'assim seja' (afirmação ritual).",
        ).with_concept("co://concepts/word.md").with_ref(ref_ase());
    v.push(e);
    let e = Element::new("ori", "orí", "yo").at(coord(220), coord(-40)).with_pronunciation(
            "[ó.ɾí]",
        ).with_gloss(
            "Cabeça; intuição espiritual e destino — o núcleo interior do ser.",
        ).with_ref(ref_ori());
    v.push(e);
    let e = Element::new("orixa", "òrìṣà", "yo").at(coord(-200), coord(80)).with_pronunciation(
            "[ɔ̀.ɾì.ʃà]",
        ).with_gloss(
            "Divindade; força da natureza cultuada no Candomblé e na Umbanda.",
        ).with_ref(ref_orisha());
    v.push(e);
    let e = Element::new("iemanja", "Yemọja", "yo").at(coord(-260), coord(-120)).with_pronunciation(
            "[je.mɔ.dʒa]",
        ).with_gloss(
            "Rainha das águas, mãe dos orixás e da humanidade; Iemanjá no Brasil.",
        ).with_concept("co://concepts/mother.md").with_ref(ref_iemanja_yt());
    v.push(e);
    let e = Element::new("ogum", "Ògún", "yo").at(coord(-120), coord(220)).with_pronunciation(
            "[ò.ɡún]",
        ).with_gloss(
            "Orixá do ferro, da guerra e do trabalho; abre estradas com o facão.",
        );
    v.push(e);
    let e = Element::new("oxala", "Ọbàtálá", "yo").at(coord(120), coord(200)).with_pronunciation(
            "[ɔ.ba.ta.la]",
        ).with_gloss(
            "Oxalá — pai criador, orixá da paz e da criação dos seres humanos.",
        );
    v.push(e);
    let e = Element::new("exu", "Èṣù", "yo").at(coord(0), coord(320)).with_pronunciation(
            "[è.ʃù]",
        ).with_gloss(
            "Mensageiro entre orixás e humanos; guardião e abridor dos caminhos.",
        ).with_ref(ref_exu_yt());
    v.push(e);
    let e = Element::new("iya", "ìyá", "yo").at(coord(-360), coord(-40)).with_pronunciation(
            "[ì.já]",
        ).with_gloss(
            "Mãe.",
        ).with_concept("co://concepts/mother.md");
    v.push(e);
    let e = Element::new("ede", "èdè", "yo").at(coord(280), coord(120)).with_pronunciation(
            "[è.dè]",
        ).with_gloss(
            "Língua, idioma, fala — como em Èdè Yorùbá.",
        ).with_concept("co://concepts/word.md").with_ref(ref_ede_yt());
    v.push(e);
    let e = Element::new("oro", "ọ̀rọ̀", "yo").at(coord(360), coord(40)).with_pronunciation(
            "[ɔ̀.ɾɔ̀]",
        ).with_gloss(
            "Palavra, assunto, matéria da fala — a unidade, distinta de èdè (a língua-todo).",
        ).with_concept("co://concepts/word.md");
    v.push(e);
    let e = Element::new("omi", "omi", "yo").at(coord(-380), coord(120)).with_pronunciation(
            "[ò.mi]",
        ).with_gloss(
            "Água.",
        );
    v.push(e);
    let e = Element::new("ile", "ilẹ̀", "yo").at(coord(160), coord(360)).with_pronunciation(
            "[ì.lɛ̀]",
        ).with_gloss(
            "Terra, chão, a terra-mãe.",
        );
    v.push(e);
    let e = Element::new("omo", "ọmọ", "yo").at(coord(-160), coord(-200)).with_pronunciation(
            "[ɔ.mɔ]",
        ).with_gloss(
            "Filho, criança, descendência.",
        );
    v.push(e);
    let e = Element::new("olodumare", "Olódùmarè", "yo").at(coord(560), coord(-260)).with_pronunciation(
            "[ò.lò.du.ma.rɛ̀]",
        ).with_gloss(
            "Ser Supremo; fonte de todo àṣẹ. O deus criador distante de quem emana a existência — não cultuado diretamente, mas através dos orixás.",
        ).with_ref(ref_olodumare_yt());
    v.push(e);
    let e = Element::new("orunmila", "Òrúnmìlà", "yo").at(coord(560), coord(0)).with_pronunciation(
            "[ò.ɾũ.mì.là]",
        ).with_gloss(
            "Orixá da sabedoria e da adivinhação; elérìí ìpín, a 'testemunha do destino' presente quando cada orí é escolhido. Dono do oráculo de Ifá.",
        ).with_ref(ref_orunmila_yt());
    v.push(e);
    let e = Element::new("ifa", "Ifá", "yo").at(coord(720), coord(80)).with_pronunciation(
            "[ì.fá]",
        ).with_gloss(
            "Sistema oracular e corpo de sabedoria revelado por Òrúnmìlà — recitado pelo babalawô. Patrimônio Imaterial da Humanidade (UNESCO).",
        ).with_concept("co://concepts/word.md").with_ref(ref_ifa_unesco_yt());
    v.push(e);
    let e = Element::new("odu", "odù", "yo").at(coord(720), coord(-120)).with_pronunciation(
            "[ò.dù]",
        ).with_gloss(
            "Os 256 signos/capítulos do corpus de Ifá; cada odù reúne versos, mitos e prescrições reveladas na adivinhação.",
        ).with_concept("co://concepts/word.md").with_ref(ref_odu_yt());
    v.push(e);
    let e = Element::new("egbe", "Egbé Òrun", "yo").at(coord(380), coord(-360)).with_pronunciation(
            "[ɛ.gbe ò.ɾũ]",
        ).with_gloss(
            "Companheiros celestiais no òrun (além-mundo); a 'turma-alma' que cada pessoa deixa ao nascer e que ampara seu destino.",
        ).with_ref(ref_egbe_yt());
    v.push(e);
    proof {
        let es = elems_view(v@);
        let rows = yoruba_rows();
        assert forall|i: int| 0 <= i < es.len() implies matches_row(#[trigger] es[i], rows[i], "yo"@) by {}
    }
    v
}
/// The Yoruba seed relations.
pub open spec fn yoruba_link_table() -> Seq<LinkV> {
    seq![
        LinkV {
            id: "y1"@,
            from: "olodumare"@,
            to: "ase"@,
            label: Some("fonte de"@),
            directed: true,
            kind: None,
        },
        LinkV {
            id: "y2"@,
            from: "ase"@,
            to: "ori"@,
            label: Some("anima"@),
            directed: true,
            kind: None,
        },
        LinkV {
            id: "y3"@,
            from: "orixa"@,
            to: "olodumare"@,
            label: Some("emana de"@),
            directed: true,
            kind: None,
        },
        LinkV {
            id: "y4"@,
            from: "iya"@,
            to: "iemanja"@,
            label: Some("arquétipo materno"@),
            directed: true,
            kind: None,
        },
        LinkV {
            id: "y5"@,
            from: "iemanja"@,
            to: "omi"@,
            label: Some("domínio"@),
            directed: true,
            kind: None,
        },
        LinkV {
            id: "y6"@,
            from: "ede"@,
            to: "oro"@,
            label: Some("relacionado"@),
            directed: false,
            kind: None,
        },
        LinkV {
            id: "y7"@,
            from: "orunmila"@,
            to: "ifa"@,
            label: Some("revela"@),
            directed: true,
            kind: None,
        },
        LinkV {
            id: "y8"@,
            from: "ifa"@,
            to: "odu"@,
            label: Some("compõe-se de"@),
            directed: true,
            kind: None,
        },
        LinkV {
            id: "y9"@,
            from: "orunmila"@,
            to: "exu"@,
            label: Some("parceria"@),
            directed: false,
            kind: None,
        },
        LinkV {
            id: "y10"@,
            from: "ori"@,
            to: "egbe"@,
            label: Some("vínculo com"@),
            directed: true,
            kind: None,
        },
        LinkV {
            id: "y11"@,
            from: "ori"@,
            to: "orunmila"@,
            label: Some("destino testemunhado por"@),
            directed: true,
            kind: None,
        },    ]
}
fn yoruba_links() -> (r: Vec<Link>)
    ensures
        links_view(r@) == yoruba_link_table(),
{
    let mut v: Vec<Link> = Vec::new();
    v.push(Link::new("y1", "olodumare", "ase").with_label("fonte de"));
    v.push(Link::new("y2", "ase", "ori").with_label("anima"));
    v.push(Link::new("y3", "orixa", "olodumare").with_label("emana de"));
    v.push(Link::new("y4", "iya", "iemanja").with_label("arquétipo materno"));
    v.push(Link::new("y5", "iemanja", "omi").with_label("domínio"));
    v.push(Link::new("y6", "ede", "oro").with_label("relacionado").undirected());
    v.push(Link::new("y7", "orunmila", "ifa").with_label("revela"));
    v.push(Link::new("y8", "ifa", "odu").with_label("compõe-se de"));
    v.push(Link::new("y9", "orunmila", "exu").with_label("parceria").undirected());
    v.push(Link::new("y10", "ori", "egbe").with_label("vínculo com"));
    v.push(Link::new("y11", "ori", "orunmila").with_label("destino testemunhado por"));
    assert(links_view(v@) =~= yoruba_link_table());
    v
}

// ── Mbyá Guaraní ──────────────────────────────────────────────────────────

/// The Mbyá Guaraní seed elements.
pub open spec fn mbya_rows() -> Seq<ElemRow> {
    seq![
        ElemRow {
            id: "nhandereko"@,
            word: "nhandereko"@,
            x: 0,
            y: 0,
            pronunciation: "[ɲãn.de.ɾe.ko]"@,
            gloss: "Nosso modo de viver — cultura, costume e lei Mbyá tomados como um todo."@,
            concept: None,
            refs: seq![("https://clacs.berkeley.edu/nhandereko-guarani-law-audio-annotations"@, "CLACS Berkeley — Nhandereko, the Guarani Law"@, Some("article"@)), ("https://youtu.be/qt-Mmlk-YZc"@, "NHANDEREKO — Aldeia Pyau, Jaraguá/SP (vídeo)"@, Some("youtube"@))],
        },
        ElemRow {
            id: "teko"@,
            word: "teko"@,
            x: -220,
            y: 60,
            pronunciation: "[te.ko]"@,
            gloss: "Vida, ser, modo de ser e de estar; raiz de nhandereko. 'Teko porã' = bem viver."@,
            concept: None,
            refs: seq![],
        },
        ElemRow {
            id: "tekoa"@,
            word: "tekoa"@,
            x: -260,
            y: -100,
            pronunciation: "[te.ko.a]"@,
            gloss: "Aldeia — o lugar onde se vive segundo o nhandereko."@,
            concept: None,
            refs: seq![],
        },
        ElemRow {
            id: "ayvu"@,
            word: "ayvu"@,
            x: 220,
            y: -40,
            pronunciation: "[a.ʔɨ.vu]"@,
            gloss: "Fala-prática, alma-palavra; também nomeia a língua. Paralelo do iorubá èdè."@,
            concept: Some("co://concepts/word.md"@),
            refs: seq![],
        },
        ElemRow {
            id: "ayvu-rapyta"@,
            word: "ayvu rapyta"@,
            x: 360,
            y: -120,
            pronunciation: "[a.ʔɨ.vu ɾa.pɨ.ta]"@,
            gloss: "Fundamento da fala humana — o mito de origem em que Ñamandu cria a linguagem antes do mundo (Cadogan)."@,
            concept: Some("co://concepts/word.md"@),
            refs: seq![("https://www.youtube.com/watch?v=I1WypSTPubg"@, "AYVU RAPYTA: Creation According to the Mbyá-Guaraní"@, Some("youtube"@)), ("https://youtu.be/Z0w0PxKL2TQ"@, "Ayvu Rapyta — onde a palavra é alma e a linguagem, princípio vital"@, Some("youtube"@))],
        },
        ElemRow {
            id: "nhee"@,
            word: "nhe'ẽ"@,
            x: 220,
            y: 100,
            pronunciation: "[ɲe.ʔẽ]"@,
            gloss: "Alma-palavra; o nome-alma que vem das divindades e faz a pessoa."@,
            concept: Some("co://concepts/word.md"@),
            refs: seq![],
        },
        ElemRow {
            id: "nhanderu"@,
            word: "Ñamandu"@,
            x: 160,
            y: -240,
            pronunciation: "[ɲa.mãn.du]"@,
            gloss: "Pai primeiro / Nhanderu — a divindade criadora que faz a linguagem com sabedoria (kuaarara)."@,
            concept: None,
            refs: seq![("https://youtu.be/GCOdIE7D4XM"@, "Nhamandu — canto Mbyá-Guaraní (Morro da Saudade/SP)"@, Some("youtube"@))],
        },
        ElemRow {
            id: "yvy"@,
            word: "yvy"@,
            x: -380,
            y: 120,
            pronunciation: "[ɨ.vɨ]"@,
            gloss: "Terra, chão, o mundo. 'Yvy pyau' = terra nova."@,
            concept: None,
            refs: seq![],
        },
        ElemRow {
            id: "kaaguy"@,
            word: "ka'aguy"@,
            x: -180,
            y: 220,
            pronunciation: "[ka.a.ɡwɨ]"@,
            gloss: "Mata, floresta — a Mata Atlântica como casa e sustento."@,
            concept: None,
            refs: seq![],
        },
        ElemRow {
            id: "ara"@,
            word: "ara"@,
            x: 40,
            y: 240,
            pronunciation: "[a.ɾa]"@,
            gloss: "Tempo, era, mundo, dia — a escala dos ciclos cósmicos."@,
            concept: None,
            refs: seq![],
        },
        ElemRow {
            id: "ara-pyau"@,
            word: "ara pyau"@,
            x: 120,
            y: 360,
            pronunciation: "[a.ɾa pɨ.au]"@,
            gloss: "Era nova / mundo novo — renovação cíclica, não progresso linear."@,
            concept: Some("co://concepts/new-cycle.md"@),
            refs: seq![],
        },
        ElemRow {
            id: "jaxy"@,
            word: "jaxy"@,
            x: -40,
            y: -220,
            pronunciation: "[dʒa.ʃɨ]"@,
            gloss: "Lua. 'Jaxy pyau' = lua nova — mesmo morfema pyau de ara pyau."@,
            concept: None,
            refs: seq![],
        },
        ElemRow {
            id: "xy"@,
            word: "xy"@,
            x: -360,
            y: -40,
            pronunciation: "[ʃɨ]"@,
            gloss: "Mãe."@,
            concept: Some("co://concepts/mother.md"@),
            refs: seq![],
        },
        ElemRow {
            id: "ayvu-pora"@,
            word: "ayvu porã"@,
            x: 380,
            y: 40,
            pronunciation: "[a.ʔɨ.vu põ.ɾã]"@,
            gloss: "Belas palavras — a fala bela e verdadeira, ideal do dizer Mbyá."@,
            concept: Some("co://concepts/beautiful-words.md"@),
            refs: seq![],
        },    ]
}
fn mbya_elements() -> (r: Vec<Element>)
    ensures
        matches_rows(elems_view(r@), mbya_rows(), "gn-mbya"@),
{
    let mut v: Vec<Element> = Vec::new();
    let e = Element::new("nhandereko", "nhandereko", "gn-mbya").at(coord(0), coord(0)).with_pronunciation(
            "[ɲãn.de.ɾe.ko]",
        ).with_gloss(
            "Nosso modo de viver — cultura, costume e lei Mbyá tomados como um todo.",
        ).with_ref(ref_nhandereko()).with_ref(ref_nhandereko_yt());
    v.push(e);
    let e = Element::new("teko", "teko", "gn-mbya").at(coord(-220), coord(60)).with_pronunciation(
            "[te.ko]",
        ).with_gloss(
            "Vida, ser, modo de ser e de estar; raiz de nhandereko. 'Teko porã' = bem viver.",
        );
    v.push(e);
    let e = Element::new("tekoa", "tekoa", "gn-mbya").at(coord(-260), coord(-100)).with_pronunciation(
            "[te.ko.a]",
        ).with_gloss(
            "Aldeia — o lugar onde se vive segundo o nhandereko.",
        );
    v.push(e);
    let e = Element::new("ayvu", "ayvu", "gn-mbya").at(coord(220), coord(-40)).with_pronunciation(
            "[a.ʔɨ.vu]",
        ).with_gloss(
            "Fala-prática, alma-palavra; também nomeia a língua. Paralelo do iorubá èdè.",
        ).with_concept("co://concepts/word.md");
    v.push(e);
    let e = Element::new("ayvu-rapyta", "ayvu rapyta", "gn-mbya").at(coord(360), coord(-120)).with_pronunciation(
            "[a.ʔɨ.vu ɾa.pɨ.ta]",
        ).with_gloss(
            "Fundamento da fala humana — o mito de origem em que Ñamandu cria a linguagem antes do mundo (Cadogan).",
        ).with_concept("co://concepts/word.md").with_ref(ref_ayvu_rapyta_yt()).with_ref(ref_ayvu_palavra_alma_yt());
    v.push(e);
    let e = Element::new("nhee", "nhe'ẽ", "gn-mbya").at(coord(220), coord(100)).with_pronunciation(
            "[ɲe.ʔẽ]",
        ).with_gloss(
            "Alma-palavra; o nome-alma que vem das divindades e faz a pessoa.",
        ).with_concept("co://concepts/word.md");
    v.push(e);
    let e = Element::new("nhanderu", "Ñamandu", "gn-mbya").at(coord(160), coord(-240)).with_pronunciation(
            "[ɲa.mãn.du]",
        ).with_gloss(
            "Pai primeiro / Nhanderu — a divindade criadora que faz a linguagem com sabedoria (kuaarara).",
        ).with_ref(ref_nhamandu_yt());
    v.push(e);
    let e = Element::new("yvy", "yvy", "gn-mbya").at(coord(-380), coord(120)).with_pronunciation(
            "[ɨ.vɨ]",
        ).with_gloss(
            "Terra, chão, o mundo. 'Yvy pyau' = terra nova.",
        );
    v.push(e);
    let e = Element::new("kaaguy", "ka'aguy", "gn-mbya").at(coord(-180), coord(220)).with_pronunciation(
            "[ka.a.ɡwɨ]",
        ).with_gloss(
            "Mata, floresta — a Mata Atlântica como casa e sustento.",
        );
    v.push(e);
    let e = Element::new("ara", "ara", "gn-mbya").at(coord(40), coord(240)).with_pronunciation(
            "[a.ɾa]",
        ).with_gloss(
            "Tempo, era, mundo, dia — a escala dos ciclos cósmicos.",
        );
    v.push(e);
    let e = Element::new("ara-pyau", "ara pyau", "gn-mbya").at(coord(120), coord(360)).with_pronunciation(
            "[a.ɾa pɨ.au]",
        ).with_gloss(
            "Era nova / mundo novo — renovação cíclica, não progresso linear.",
        ).with_concept("co://concepts/new-cycle.md");
    v.push(e);
    let e = Element::new("jaxy", "jaxy", "gn-mbya").at(coord(-40), coord(-220)).with_pronunciation(
            "[dʒa.ʃɨ]",
        ).with_gloss(
            "Lua. 'Jaxy pyau' = lua nova — mesmo morfema pyau de ara pyau.",
        );
    v.push(e);
    let e = Element::new("xy", "xy", "gn-mbya").at(coord(-360), coord(-40)).with_pronunciation(
            "[ʃɨ]",
        ).with_gloss(
            "Mãe.",
        ).with_concept("co://concepts/mother.md");
    v.push(e);
    let e = Element::new("ayvu-pora", "ayvu porã", "gn-mbya").at(coord(380), coord(40)).with_pronunciation(
            "[a.ʔɨ.vu põ.ɾã]",
        ).with_gloss(
            "Belas palavras — a fala bela e verdadeira, ideal do dizer Mbyá.",
        ).with_concept("co://concepts/beautiful-words.md");
    v.push(e);
    proof {
        let es = elems_view(v@);
        let rows = mbya_rows();
        assert forall|i: int| 0 <= i < es.len() implies matches_row(#[trigger] es[i], rows[i], "gn-mbya"@) by {}
    }
    v
}
/// The Mbyá Guaraní seed relations.
pub open spec fn mbya_link_table() -> Seq<LinkV> {
    seq![
        LinkV {
            id: "m1"@,
            from: "nhandereko"@,
            to: "teko"@,
            label: Some("raiz em"@),
            directed: true,
            kind: None,
        },
        LinkV {
            id: "m2"@,
            from: "nhandereko"@,
            to: "tekoa"@,
            label: Some("realiza-se em"@),
            directed: true,
            kind: None,
        },
        LinkV {
            id: "m3"@,
            from: "nhanderu"@,
            to: "ayvu-rapyta"@,
            label: Some("cria"@),
            directed: true,
            kind: None,
        },
        LinkV {
            id: "m4"@,
            from: "ayvu-rapyta"@,
            to: "ayvu"@,
            label: Some("funda"@),
            directed: true,
            kind: None,
        },
        LinkV {
            id: "m5"@,
            from: "ayvu"@,
            to: "nhee"@,
            label: Some("alma-palavra"@),
            directed: false,
            kind: None,
        },
        LinkV {
            id: "m6"@,
            from: "ayvu-pora"@,
            to: "ayvu"@,
            label: Some("ideal de"@),
            directed: true,
            kind: None,
        },
        LinkV {
            id: "m7"@,
            from: "ara"@,
            to: "ara-pyau"@,
            label: Some("renova em"@),
            directed: true,
            kind: None,
        },
        LinkV {
            id: "m8"@,
            from: "jaxy"@,
            to: "ara-pyau"@,
            label: Some("mesmo morfema (pyau)"@),
            directed: false,
            kind: None,
        },
        LinkV {
            id: "m9"@,
            from: "yvy"@,
            to: "kaaguy"@,
            label: Some("abriga"@),
            directed: false,
            kind: None,
        },
        LinkV {
            id: "m10"@,
            from: "teko"@,
            to: "yvy"@,
            label: Some("enraíza-se em"@),
            directed: true,
            kind: None,
        },    ]
}
fn mbya_links() -> (r: Vec<Link>)
    ensures
        links_view(r@) == mbya_link_table(),
{
    let mut v: Vec<Link> = Vec::new();
    v.push(Link::new("m1", "nhandereko", "teko").with_label("raiz em"));
    v.push(Link::new("m2", "nhandereko", "tekoa").with_label("realiza-se em"));
    v.push(Link::new("m3", "nhanderu", "ayvu-rapyta").with_label("cria"));
    v.push(Link::new("m4", "ayvu-rapyta", "ayvu").with_label("funda"));
    v.push(Link::new("m5", "ayvu", "nhee").with_label("alma-palavra").undirected());
    v.push(Link::new("m6", "ayvu-pora", "ayvu").with_label("ideal de"));
    v.push(Link::new("m7", "ara", "ara-pyau").with_label("renova em"));
    v.push(Link::new("m8", "jaxy", "ara-pyau").with_label("mesmo morfema (pyau)").undirected());
    v.push(Link::new("m9", "yvy", "kaaguy").with_label("abriga").undirected());
    v.push(Link::new("m10", "teko", "yvy").with_label("enraíza-se em"));
    assert(links_view(v@) =~= mbya_link_table());
    v
}

// ── Instantiation ─────────────────────────────────────────────────────────

/// A known template slug.
pub open spec fn known(slug: Seq<char>) -> bool {
    slug == "yoruba"@ || slug == "mbya"@ || slug == "blank"@
}

/// The seed elements of a template.
pub open spec fn rows_of(slug: Seq<char>) -> Seq<ElemRow> {
    if slug == "yoruba"@ {
        yoruba_rows()
    } else if slug == "mbya"@ {
        mbya_rows()
    } else {
        seq![]
    }
}

/// The seed relations of a template.
pub open spec fn links_of(slug: Seq<char>) -> Seq<LinkV> {
    if slug == "yoruba"@ {
        yoruba_link_table()
    } else if slug == "mbya"@ {
        mbya_link_table()
    } else {
        seq![]
    }
}

/// The room a template gives: titled, in the template's language, with its
/// seed elements and relations.
pub open spec fn seeded(r: RoomV, slug: Seq<char>, id: Seq<char>, owner: Seq<char>, now: i64) -> bool {
    &&& r.id == id
    &&& r.schema_version == SCHEMA_VERSION
    &&& r.owner == owner
    &&& r.title == title_of(slug)
    &&& r.lang == lang_of(slug)
    &&& r.template == slug
    &&& r.viewport == (Viewport { pan_x: 0, pan_y: 0, zoom: F64_ONE })
    &&& matches_rows(r.elements, rows_of(slug), lang_of(slug))
    &&& r.links == links_of(slug)
    &&& !r.published
    &&& r.created_at == now
    &&& r.updated_at == now
}

/// A room from the template `slug`, created at `now`; `None` when the slug
/// is unknown.
pub fn instantiate(slug: &str, id: &str, owner: &str, now: i64) -> (r: Option<Room>)
    ensures
        match r {
            Some(room) => known(slug@) && seeded(room@, slug@, id@, owner@, now),
            None => !known(slug@),
        },
{
    let (title, lang, elements, links) = if str_eq(slug, "yoruba") {
        ("Sala Iorubá", "yo", yoruba_elements(), yoruba_links())
    } else if str_eq(slug, "mbya") {
        ("Sala Mbyá Guaraní", "gn-mbya", mbya_elements(), mbya_links())
    } else if str_eq(slug, "blank") {
        let e: Vec<Element> = Vec::new();
        let l: Vec<Link> = Vec::new();
        assert(matches_rows(elems_view(e@), rows_of(slug@), lang_of(slug@)));
        assert(links_view(l@) =~= links_of(slug@));
        ("Nova sala", "pt", e, l)
    } else {
        return None;
    };
    let mut room = Room::empty(id, owner, title, lang, now);
    room.template = String::from_str(slug);
    room.elements = elements;
    room.links = links;
    Some(room)
}

/// The templates as listed: slug, title, language, description and the
/// number of seed elements, in listing order.
pub fn template_summaries() -> (r: Vec<TemplateSummary>)
    ensures
        r@.len() == 3,
        forall|i: int|
            0 <= i < 3 ==> {
                let t = #[trigger] r@[i];
                let slug = template_slugs()[i];
                &&& t.slug@ == slug
                &&& t.title@ == title_of(slug)
                &&& t.lang@ == lang_of(slug)
                &&& t.description@ == description_of(slug)
                &&& t.element_count == rows_of(slug).len()
            },
{
    let slugs = templates();
    let mut out: Vec<TemplateSummary> = Vec::new();
    let mut i: usize = 0;
    while i < 3
        invariant
            slugs@.len() == 3,
            forall|k: int| 0 <= k < 3 ==> (#[trigger] slugs@[k])@ == template_slugs()[k],
            i <= 3,
            out@.len() == i,
            forall|k: int|
                0 <= k < i ==> {
                    let t = #[trigger] out@[k];
                    let slug = template_slugs()[k];
                    &&& t.slug@ == slug
                    &&& t.title@ == title_of(slug)
                    &&& t.lang@ == lang_of(slug)
                    &&& t.description@ == description_of(slug)
                    &&& t.element_count == rows_of(slug).len()
                },
        decreases 3 - i,
    {
        let slug = slugs[i];
        match instantiate(slug, "__preview__", "__preview__", 0) {
            Some(room) => {
                out.push(
                    TemplateSummary {
                        slug: String::from_str(slug),
                        title: room.title.clone(),
                        lang: room.lang.clone(),
                        description: String::from_str(template_description(slug)),
                        element_count: room.elements.len(),
                    },
                );
            },
            None => {
                assert(known(slug@));
            },
        }
        i = i + 1;
    }
    out
}

// ── Consistency of the seeds ──────────────────────────────────────────────

proof fn lemma_yoruba_consistent(r: RoomV)
    requires
        matches_rows(r.elements, yoruba_rows(), "yo"@),
        r.links == yoruba_link_table(),
    ensures
        room_ok(r),
{
    reveal_strlit("ase");
    reveal_strlit("ede");
    reveal_strlit("egbe");
    reveal_strlit("exu");
    reveal_strlit("iemanja");
    reveal_strlit("ifa");
    reveal_strlit("ile");
    reveal_strlit("iya");
    reveal_strlit("odu");
    reveal_strlit("ogum");
    reveal_strlit("olodumare");
    reveal_strlit("omi");
    reveal_strlit("omo");
    reveal_strlit("ori");
    reveal_strlit("orixa");
    reveal_strlit("oro");
    reveal_strlit("orunmila");
    reveal_strlit("oxala");
    reveal_strlit("y1");
    reveal_strlit("y10");
    reveal_strlit("y11");
    reveal_strlit("y2");
    reveal_strlit("y3");
    reveal_strlit("y4");
    reveal_strlit("y5");
    reveal_strlit("y6");
    reveal_strlit("y7");
    reveal_strlit("y8");
    reveal_strlit("y9");
    assert("ase"@.len() == 3 && "ase"@[0] == 'a' && "ase"@[1] == 's' && "ase"@[2] == 'e');
    assert("ede"@.len() == 3 && "ede"@[0] == 'e' && "ede"@[1] == 'd' && "ede"@[2] == 'e');
    assert("egbe"@.len() == 4 && "egbe"@[0] == 'e' && "egbe"@[1] == 'g' && "egbe"@[2] == 'b' && "egbe"@[3] == 'e');
    assert("exu"@.len() == 3 && "exu"@[0] == 'e' && "exu"@[1] == 'x' && "exu"@[2] == 'u');
    assert("iemanja"@.len() == 7 && "iemanja"@[0] == 'i' && "iemanja"@[1] == 'e' && "iemanja"@[2] == 'm' && "iemanja"@[3] == 'a' && "iemanja"@[4] == 'n' && "iemanja"@[5] == 'j' && "iemanja"@[6] == 'a');
    assert("ifa"@.len() == 3 && "ifa"@[0] == 'i' && "ifa"@[1] == 'f' && "ifa"@[2] == 'a');
    assert("ile"@.len() == 3 && "ile"@[0] == 'i' && "ile"@[1] == 'l' && "ile"@[2] == 'e');
    assert("iya"@.len() == 3 && "iya"@[0] == 'i' && "iya"@[1] == 'y' && "iya"@[2] == 'a');
    assert("odu"@.len() == 3 && "odu"@[0] == 'o' && "odu"@[1] == 'd' && "odu"@[2] == 'u');
    assert("ogum"@.len() == 4 && "ogum"@[0] == 'o' && "ogum"@[1] == 'g' && "ogum"@[2] == 'u' && "ogum"@[3] == 'm');
    assert("olodumare"@.len() == 9 && "olodumare"@[0] == 'o' && "olodumare"@[1] == 'l' && "olodumare"@[2] == 'o' && "olodumare"@[3] == 'd' && "olodumare"@[4] == 'u' && "olodumare"@[5] == 'm' && "olodumare"@[6] == 'a' && "olodumare"@[7] == 'r' && "olodumare"@[8] == 'e');
    assert("omi"@.len() == 3 && "omi"@[0] == 'o' && "omi"@[1] == 'm' && "omi"@[2] == 'i');
    assert("omo"@.len() == 3 && "omo"@[0] == 'o' && "omo"@[1] == 'm' && "omo"@[2] == 'o');
    assert("ori"@.len() == 3 && "ori"@[0] == 'o' && "ori"@[1] == 'r' && "ori"@[2] == 'i');
    assert("orixa"@.len() == 5 && "orixa"@[0] == 'o' && "orixa"@[1] == 'r' && "orixa"@[2] == 'i' && "orixa"@[3] == 'x' && "orixa"@[4] == 'a');
    assert("oro"@.len() == 3 && "oro"@[0] == 'o' && "oro"@[1] == 'r' && "oro"@[2] == 'o');
    assert("orunmila"@.len() == 8 && "orunmila"@[0] == 'o' && "orunmila"@[1] == 'r' && "orunmila"@[2] == 'u' && "orunmila"@[3] == 'n' && "orunmila"@[4] == 'm' && "orunmila"@[5] == 'i' && "orunmila"@[6] == 'l' && "orunmila"@[7] == 'a');
    assert("oxala"@.len() == 5 && "oxala"@[0] == 'o' && "oxala"@[1] == 'x' && "oxala"@[2] == 'a' && "oxala"@[3] == 'l' && "oxala"@[4] == 'a');
    assert("y1"@.len() == 2 && "y1"@[0] == 'y' && "y1"@[1] == '1');
    assert("y10"@.len() == 3 && "y10"@[0] == 'y' && "y10"@[1] == '1' && "y10"@[2] == '0');
    assert("y11"@.len() == 3 && "y11"@[0] == 'y' && "y11"@[1] == '1' && "y11"@[2] == '1');
    assert("y2"@.len() == 2 && "y2"@[0] == 'y' && "y2"@[1] == '2');
    assert("y3"@.len() == 2 && "y3"@[0] == 'y' && "y3"@[1] == '3');
    assert("y4"@.len() == 2 && "y4"@[0] == 'y' && "y4"@[1] == '4');
    assert("y5"@.len() == 2 && "y5"@[0] == 'y' && "y5"@[1] == '5');
    assert("y6"@.len() == 2 && "y6"@[0] == 'y' && "y6"@[1] == '6');
    assert("y7"@.len() == 2 && "y7"@[0] == 'y' && "y7"@[1] == '7');
    assert("y8"@.len() == 2 && "y8"@[0] == 'y' && "y8"@[1] == '8');
    assert("y9"@.len() == 2 && "y9"@[0] == 'y' && "y9"@[1] == '9');
    let rows = yoruba_rows();
    assert forall|i: int| 0 <= i < r.elements.len() implies (#[trigger] r.elements[i]).id == rows[i].id by {
        assert(matches_row(r.elements[i], rows[i], "yo"@));
    }
    assert(r.links[0].from == r.elements[13].id && r.links[0].to == r.elements[0].id);
    assert(r.links[1].from == r.elements[0].id && r.links[1].to == r.elements[1].id);
    assert(r.links[2].from == r.elements[2].id && r.links[2].to == r.elements[13].id);
    assert(r.links[3].from == r.elements[7].id && r.links[3].to == r.elements[3].id);
    assert(r.links[4].from == r.elements[3].id && r.links[4].to == r.elements[10].id);
    assert(r.links[5].from == r.elements[8].id && r.links[5].to == r.elements[9].id);
    assert(r.links[6].from == r.elements[14].id && r.links[6].to == r.elements[15].id);
    assert(r.links[7].from == r.elements[15].id && r.links[7].to == r.elements[16].id);
    assert(r.links[8].from == r.elements[14].id && r.links[8].to == r.elements[6].id);
    assert(r.links[9].from == r.elements[1].id && r.links[9].to == r.elements[17].id);
    assert(r.links[10].from == r.elements[1].id && r.links[10].to == r.elements[14].id);
    assert forall|i: int, j: int| 0 <= i < j < r.elements.len() implies (#[trigger] r.elements[i]).id != (#[trigger] r.elements[j]).id by {
        assert(r.elements[i].id == rows[i].id);
        assert(r.elements[j].id == rows[j].id);
    }
    assert forall|i: int, j: int| 0 <= i < j < r.links.len() implies (#[trigger] r.links[i]).id != (#[trigger] r.links[j]).id by {
    }
    assert forall|k: int| 0 <= k < r.links.len() implies has_elem(r.elements, (#[trigger] r.links[k]).from) && has_elem(r.elements, r.links[k].to) && r.links[k].from != r.links[k].to by {
    }
}

proof fn lemma_mbya_consistent(r: RoomV)
    requires
        matches_rows(r.elements, mbya_rows(), "gn-mbya"@),
        r.links == mbya_link_table(),
    ensures
        room_ok(r),
{
    reveal_strlit("ara");
    reveal_strlit("ara-pyau");
    reveal_strlit("ayvu");
    reveal_strlit("ayvu-pora");
    reveal_strlit("ayvu-rapyta");
    reveal_strlit("jaxy");
    reveal_strlit("kaaguy");
    reveal_strlit("m1");
    reveal_strlit("m10");
    reveal_strlit("m2");
    reveal_strlit("m3");
    reveal_strlit("m4");
    reveal_strlit("m5");
    reveal_strlit("m6");
    reveal_strlit("m7");
    reveal_strlit("m8");
    reveal_strlit("m9");
    reveal_strlit("nhandereko");
    reveal_strlit("nhanderu");
    reveal_strlit("nhee");
    reveal_strlit("teko");
    reveal_strlit("tekoa");
    reveal_strlit("xy");
    reveal_strlit("yvy");
    assert("ara"@.len() == 3 && "ara"@[0] == 'a' && "ara"@[1] == 'r' && "ara"@[2] == 'a');
    assert("ara-pyau"@.len() == 8 && "ara-pyau"@[0] == 'a' && "ara-pyau"@[1] == 'r' && "ara-pyau"@[2] == 'a' && "ara-pyau"@[3] == '-' && "ara-pyau"@[4] == 'p' && "ara-pyau"@[5] == 'y' && "ara-pyau"@[6] == 'a' && "ara-pyau"@[7] == 'u');
    assert("ayvu"@.len() == 4 && "ayvu"@[0] == 'a' && "ayvu"@[1] == 'y' && "ayvu"@[2] == 'v' && "ayvu"@[3] == 'u');
    assert("ayvu-pora"@.len() == 9 && "ayvu-pora"@[0] == 'a' && "ayvu-pora"@[1] == 'y' && "ayvu-pora"@[2] == 'v' && "ayvu-pora"@[3] == 'u' && "ayvu-pora"@[4] == '-' && "ayvu-pora"@[5] == 'p' && "ayvu-pora"@[6] == 'o' && "ayvu-pora"@[7] == 'r' && "ayvu-pora"@[8] == 'a');
    assert("ayvu-rapyta"@.len() == 11 && "ayvu-rapyta"@[0] == 'a' && "ayvu-rapyta"@[1] == 'y' && "ayvu-rapyta"@[2] == 'v' && "ayvu-rapyta"@[3] == 'u' && "ayvu-rapyta"@[4] == '-' && "ayvu-rapyta"@[5] == 'r' && "ayvu-rapyta"@[6] == 'a' && "ayvu-rapyta"@[7] == 'p' && "ayvu-rapyta"@[8] == 'y' && "ayvu-rapyta"@[9] == 't' && "ayvu-rapyta"@[10] == 'a');
    assert("jaxy"@.len() == 4 && "jaxy"@[0] == 'j' && "jaxy"@[1] == 'a' && "jaxy"@[2] == 'x' && "jaxy"@[3] == 'y');
    assert("kaaguy"@.len() == 6 && "kaaguy"@[0] == 'k' && "kaaguy"@[1] == 'a' && "kaaguy"@[2] == 'a' && "kaaguy"@[3] == 'g' && "kaaguy"@[4] == 'u' && "kaaguy"@[5] == 'y');
    assert("m1"@.len() == 2 && "m1"@[0] == 'm' && "m1"@[1] == '1');
    assert("m10"@.len() == 3 && "m10"@[0] == 'm' && "m10"@[1] == '1' && "m10"@[2] == '0');
    assert("m2"@.len() == 2 && "m2"@[0] == 'm' && "m2"@[1] == '2');
    assert("m3"@.len() == 2 && "m3"@[0] == 'm' && "m3"@[1] == '3');
    assert("m4"@.len() == 2 && "m4"@[0] == 'm' && "m4"@[1] == '4');
    assert("m5"@.len() == 2 && "m5"@[0] == 'm' && "m5"@[1] == '5');
    assert("m6"@.len() == 2 && "m6"@[0] == 'm' && "m6"@[1] == '6');
    assert("m7"@.len() == 2 && "m7"@[0] == 'm' && "m7"@[1] == '7');
    assert("m8"@.len() == 2 && "m8"@[0] == 'm' && "m8"@[1] == '8');
    assert("m9"@.len() == 2 && "m9"@[0] == 'm' && "m9"@[1] == '9');
    assert("nhandereko"@.len() == 10 && "nhandereko"@[0] == 'n' && "nhandereko"@[1] == 'h' && "nhandereko"@[2] == 'a' && "nhandereko"@[3] == 'n' && "nhandereko"@[4] == 'd' && "nhandereko"@[5] == 'e' && "nhandereko"@[6] == 'r' && "nhandereko"@[7] == 'e' && "nhandereko"@[8] == 'k' && "nhandereko"@[9] == 'o');
    assert("nhanderu"@.len() == 8 && "nhanderu"@[0] == 'n' && "nhanderu"@[1] == 'h' && "nhanderu"@[2] == 'a' && "nhanderu"@[3] == 'n' && "nhanderu"@[4] == 'd' && "nhanderu"@[5] == 'e' && "nhanderu"@[6] == 'r' && "nhanderu"@[7] == 'u');
    assert("nhee"@.len() == 4 && "nhee"@[0] == 'n' && "nhee"@[1] == 'h' && "nhee"@[2] == 'e' && "nhee"@[3] == 'e');
    assert("teko"@.len() == 4 && "teko"@[0] == 't' && "teko"@[1] == 'e' && "teko"@[2] == 'k' && "teko"@[3] == 'o');
    assert("tekoa"@.len() == 5 && "tekoa"@[0] == 't' && "tekoa"@[1] == 'e' && "tekoa"@[2] == 'k' && "tekoa"@[3] == 'o' && "tekoa"@[4] == 'a');
    assert("xy"@.len() == 2 && "xy"@[0] == 'x' && "xy"@[1] == 'y');
    assert("yvy"@.len() == 3 && "yvy"@[0] == 'y' && "yvy"@[1] == 'v' && "yvy"@[2] == 'y');
    let rows = mbya_rows();
    assert forall|i: int| 0 <= i < r.elements.len() implies (#[trigger] r.elements[i]).id == rows[i].id by {
        assert(matches_row(r.elements[i], rows[i], "gn-mbya"@));
    }
    assert(r.links[0].from == r.elements[0].id && r.links[0].to == r.elements[1].id);
    assert(r.links[1].from == r.elements[0].id && r.links[1].to == r.elements[2].id);
    assert(r.links[2].from == r.elements[6].id && r.links[2].to == r.elements[4].id);
    assert(r.links[3].from == r.elements[4].id && r.links[3].to == r.elements[3].id);
    assert(r.links[4].from == r.elements[3].id && r.links[4].to == r.elements[5].id);
    assert(r.links[5].from == r.elements[13].id && r.links[5].to == r.elements[3].id);
    assert(r.links[6].from == r.elements[9].id && r.links[6].to == r.elements[10].id);
    assert(r.links[7].from == r.elements[11].id && r.links[7].to == r.elements[10].id);
    assert(r.links[8].from == r.elements[7].id && r.links[8].to == r.elements[8].id);
    assert(r.links[9].from == r.elements[1].id && r.links[9].to == r.elements[7].id);
    assert forall|i: int, j: int| 0 <= i < j < r.elements.len() implies (#[trigger] r.elements[i]).id != (#[trigger] r.elements[j]).id by {
        assert(r.elements[i].id == rows[i].id);
        assert(r.elements[j].id == rows[j].id);
    }
    assert forall|i: int, j: int| 0 <= i < j < r.links.len() implies (#[trigger] r.links[i]).id != (#[trigger] r.links[j]).id by {
    }
    assert forall|k: int| 0 <= k < r.links.len() implies has_elem(r.elements, (#[trigger] r.links[k]).from) && has_elem(r.elements, r.links[k].to) && r.links[k].from != r.links[k].to by {
    }
}

/// A seeded room is consistent: element and link ids are unique and every
/// seed relation joins two different seed elements.
pub proof fn lemma_seeded_rooms_consistent(r: RoomV, slug: Seq<char>, id: Seq<char>, owner: Seq<char>, now: i64)
    requires
        known(slug),
        seeded(r, slug, id, owner, now),
    ensures
        room_ok(r),
{
    reveal_strlit("yoruba");
    reveal_strlit("mbya");
    reveal_strlit("blank");
    if slug == "yoruba"@ {
        lemma_yoruba_consistent(r);
    } else if slug == "mbya"@ {
        lemma_mbya_consistent(r);
    }
}

} // verus!
