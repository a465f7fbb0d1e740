//! Instance templates: a seed instance, the palette of block types the
//! editor offers, and free rendering hints.
//!
//! Palette defaults and rendering hints are JSON objects, held as their
//! text with keys in order.
use vstd::prelude::*;
use vstd::string::StringExecFns;

use crate::instance::schema::{
    blocks_view, Block, BlockV, Cell, Connection, ConnV, GridSpec, InstV, Layer, LayerKind,
    LayerV, Projection, UniverseInstance, F32_ONE, SCHEMA_VERSION,
};
use crate::instance::edit::inst_ok;
use crate::instance::schema::has_block_in;
use crate::text::str_eq;
use crate::instance::generators::timeline::{
    event_row, families, family_of, icon_for, icon_of_kind, lane_of, lanes_of, place_events, stacked_before,
    timeline_height,
};

verus! {

/// A block type the editor offers, with the properties a new block of that
/// type starts with (JSON text).
#[derive(Debug, Clone)]
pub struct PaletteItem {
    pub block_type: String,
    pub label: String,
    pub default_props: String,
}

impl PaletteItem {
    fn new(block_type: &str, label: &str, default_props: &str) -> (p: Self)
        ensures
            p.block_type@ == block_type@,
            p.label@ == label@,
            p.default_props@ == default_props@,
    {
        PaletteItem {
            block_type: String::from_str(block_type),
            label: String::from_str(label),
            default_props: String::from_str(default_props),
        }
    }
}

/// A template of the catalogue.
#[derive(Debug, Clone)]
pub struct Template {
    pub slug: String,
    pub title: String,
    pub description: String,
    pub seed: UniverseInstance,
    pub palette: Vec<PaletteItem>,
    /// JSON text.
    pub render_hints: String,
}

/// A template as listed.
#[derive(Debug, Clone)]
pub struct TemplateSummary {
    pub slug: String,
    pub title: String,
    pub description: String,
}

impl Template {
    /// The template's seed for a new owner: fresh id, owner, template slug
    /// and timestamps, unpublished.
    pub fn instantiate(self, id: &str, owner: &str, now: i64) -> (inst: UniverseInstance)
        ensures
            inst@ == (InstV {
                id: id@,
                owner: owner@,
                template: self.slug@,
                schema_version: SCHEMA_VERSION,
                published: false,
                created_at: now,
                updated_at: now,
                ..self.seed@
            }),
    {
        let mut inst = self.seed;
        inst.id = String::from_str(id);
        inst.owner = String::from_str(owner);
        inst.template = self.slug;
        inst.schema_version = SCHEMA_VERSION;
        inst.published = false;
        inst.created_at = now;
        inst.updated_at = now;
        inst
    }

    /// The template as listed.
    pub fn summary(&self) -> (s: TemplateSummary)
        ensures
            s.slug@ == self.slug@,
            s.title@ == self.title@,
            s.description@ == self.description@,
    {
        TemplateSummary {
            slug: self.slug.clone(),
            title: self.title.clone(),
            description: self.description.clone(),
        }
    }
}

/// The palette as values: block type, label and default properties.
pub open spec fn palette_view(p: Seq<PaletteItem>) -> Seq<(Seq<char>, Seq<char>, Seq<char>)> {
    Seq::new(p.len(), |i: int| (p[i].block_type@, p[i].label@, p[i].default_props@))
}

/// The `universo` template.
pub open spec fn is_universo(t: Template) -> bool {
    &&& inst_ok(t.seed@)
    &&& t.slug@ == "universo"@
    &&& t.title@ == "Universo"@
    &&& t.description@ == "Um universo, todas as formas — mapa, timeline e grafo do mesmo conteúdo."@
    &&& t.render_hints@ == "{\"graph_view\":true,\"grid_lines\":true,\"time_axis\":true}"@
    &&& t.seed@.title == "Universo"@
    &&& t.seed@.description
        == "Notas, pastas e eventos num só lugar — alterne entre Mapa, Timeline e Grafo."@
    &&& t.seed@.projection == Projection::TwoDGrid
    &&& t.seed@.grid == (GridSpec { width: 32, height: 20, cell_size: 32 })
    &&& t.seed@.layers.len() == 1
    &&& t.seed@.layers[0].id == "conteudo"@
    &&& t.seed@.layers[0].name == "Conteúdo"@
    &&& t.seed@.layers[0].blocks.len() == 0
    &&& t.seed@.connections.len() == 0
    &&& palette_view(t.palette@) == seq![
        ("note"@, "Nota"@, "{\"color\":\"#b48ead\",\"icon\":\"📝\"}"@),
        ("pasta"@, "Pasta"@, "{\"color\":\"#e9c349\",\"icon\":\"📁\"}"@),
        ("evento"@, "Evento"@, "{\"color\":\"#7ec8e3\",\"icon\":\"📌\"}"@),
    ]
}

/// The `blank` template.
pub open spec fn is_blank(t: Template) -> bool {
    &&& inst_ok(t.seed@)
    &&& t.slug@ == "blank"@
    &&& t.title@ == "Em branco"@
    &&& t.description@ == "Grade 2D vazia — coloque blocos e anexe conteúdo."@
    &&& t.render_hints@ == "{\"grid_lines\":true}"@
    &&& t.seed@.title == "Universo em branco"@
    &&& t.seed@.description == "Uma grade vazia para começar do zero."@
    &&& t.seed@.projection == Projection::TwoDGrid
    &&& t.seed@.grid == (GridSpec { width: 40, height: 20, cell_size: 16 })
    &&& t.seed@.layers.len() == 1
    &&& t.seed@.layers[0].id == "base"@
    &&& t.seed@.layers[0].name == "Base"@
    &&& t.seed@.layers[0].blocks.len() == 0
    &&& t.seed@.connections.len() == 0
    &&& palette_view(t.palette@) == seq![
        ("note"@, "Nota"@, "{\"color\":\"#d4af37\",\"icon\":\"📝\"}"@),
        ("pasta"@, "Pasta"@, "{\"color\":\"#e9c349\",\"icon\":\"📁\"}"@),
    ]
}

/// The `jardim` template.
pub open spec fn is_jardim(t: Template) -> bool {
    &&& inst_ok(t.seed@)
    &&& t.slug@ == "jardim"@
    &&& t.title@ == "Jardim"@
    &&& t.description@ == "Visão notes-first — escreva notas e ligue-as com [[wikilinks]]."@
    &&& t.render_hints@ == "{\"graph_view\":true,\"grid_lines\":true}"@
    &&& t.seed@.title == "Jardim"@
    &&& t.seed@.description == "Comece a anotar: cada nota é um nó, wikilinks são as arestas."@
    &&& t.seed@.projection == Projection::TwoDGrid
    &&& t.seed@.grid == (GridSpec { width: 24, height: 16, cell_size: 32 })
    &&& t.seed@.layers.len() == 1
    &&& t.seed@.layers[0].id == "notas"@
    &&& t.seed@.layers[0].name == "Notas"@
    &&& t.seed@.layers[0].blocks.len() == 0
    &&& t.seed@.connections.len() == 0
    &&& palette_view(t.palette@) == seq![
        ("note"@, "Nota"@, "{\"color\":\"#b48ead\",\"icon\":\"📝\"}"@),
        ("pasta"@, "Pasta"@, "{\"color\":\"#e9c349\",\"icon\":\"📁\"}"@),
    ]
}

/// The `neuroanatomia` template.
pub open spec fn is_neuroanatomia(t: Template) -> bool {
    &&& inst_ok(t.seed@)
    &&& t.slug@ == "neuroanatomia"@
    &&& t.title@ == "Neuroanatomia"@
    &&& t.description@
        == "Renderize o SNC dentro do corpo, alterne a transparência, marque landmarks e conecte vias."@
    &&& t.render_hints@
        == "{\"attribution_required\":true,\"connection_style\":\"arrow\",\"transparency_layer\":\"snc\"}"@
    &&& t.seed@.title == "Neuroanatomia"@
    &&& t.seed@.description
        == "Sistema nervoso central dentro do corpo humano, com toggle de transparência."@
    &&& t.seed@.projection == Projection::TwoDGrid
    &&& t.seed@.grid == (GridSpec { width: 24, height: 40, cell_size: 20 })
    &&& t.seed@.layers.len() == 3
    &&& t.seed@.layers[0].id == "corpo"@ && t.seed@.layers[0].opacity == F32_ONE
    &&& t.seed@.layers[1].id == "snc"@ && t.seed@.layers[1].opacity == 0x3F00_0000
    &&& t.seed@.layers[0].kind == LayerKind::Background
    &&& t.seed@.layers[1].kind == LayerKind::Background
    &&& t.seed@.layers[2].id == "landmarks"@
    &&& t.seed@.layers[2].blocks.len() == 4
    &&& t.seed@.layers[2].blocks[0].id == "cortex"@
    &&& t.seed@.layers[2].blocks[0].pos == (Cell { x: 12, y: 3 })
    &&& t.seed@.layers[2].blocks[1].id == "cerebelo"@
    &&& t.seed@.layers[2].blocks[1].pos == (Cell { x: 12, y: 6 })
    &&& t.seed@.layers[2].blocks[2].id == "tronco"@
    &&& t.seed@.layers[2].blocks[2].pos == (Cell { x: 12, y: 8 })
    &&& t.seed@.layers[2].blocks[3].id == "medula"@
    &&& t.seed@.layers[2].blocks[3].pos == (Cell { x: 12, y: 22 })
    &&& t.seed@.connections == seq![
        ConnV {
            id: "cortex-tronco"@,
            from: "cortex"@,
            to: "tronco"@,
            label: Some("Vias descendentes"@),
            directed: true,
            props: seq![],
        },
        ConnV {
            id: "tronco-medula"@,
            from: "tronco"@,
            to: "medula"@,
            label: Some("Trato corticoespinhal"@),
            directed: true,
            props: seq![],
        },
    ]
    &&& palette_view(t.palette@) == seq![
        ("landmark"@, "Landmark anatômico"@, "{\"color\":\"#7ec8e3\",\"icon\":\"🧠\"}"@),
        ("region"@, "Região"@, "{\"color\":\"#b388ff\",\"icon\":\"🫧\"}"@),
        ("annotation"@, "Anotação"@, "{\"color\":\"#ffd166\",\"icon\":\"🏷️\"}"@),
    ]
}

/// An empty seed at the epoch: no id, owner or title, the given grid,
/// projection and layers.
fn empty_seed(projection: Projection, grid: GridSpec, layers: Vec<Layer>) -> (s: UniverseInstance)
    ensures
        s@.id.len() == 0 && s@.owner.len() == 0 && s@.title.len() == 0,
        s@.description.len() == 0 && s@.template.len() == 0,
        s@.schema_version == SCHEMA_VERSION,
        s@.grid == grid,
        s@.projection == projection,
        s@.layers == crate::instance::schema::layers_view(layers@),
        s@.connections.len() == 0,
        !s@.published,
        s@.meta.len() == 0,
        s@.created_at == 0 && s@.updated_at == 0,
{
    UniverseInstance {
        id: String::new(),
        schema_version: SCHEMA_VERSION,
        owner: String::new(),
        title: String::new(),
        description: String::new(),
        template: String::new(),
        grid: grid,
        projection: projection,
        layers: layers,
        connections: Vec::new(),
        published: false,
        meta: Vec::new(),
        created_at: 0,
        updated_at: 0,
    }
}

/// The single template offered on creation: notes, folders and events in
/// one universe, seen as map, timeline or graph.
pub fn universo_template() -> (t: Template)
    ensures
        is_universo(t),
{
    let grid = GridSpec { width: 32, height: 20, cell_size: 32 };
    let mut layers: Vec<Layer> = Vec::new();
    layers.push(Layer::blocks("conteudo", "Conteúdo"));
    let mut seed = empty_seed(Projection::TwoDGrid, grid, layers);
    seed.title = String::from_str("Universo");
    seed.description = String::from_str(
        "Notas, pastas e eventos num só lugar — alterne entre Mapa, Timeline e Grafo.",
    );
    let mut palette: Vec<PaletteItem> = Vec::new();
    palette.push(PaletteItem::new("note", "Nota", "{\"color\":\"#b48ead\",\"icon\":\"📝\"}"));
    palette.push(PaletteItem::new("pasta", "Pasta", "{\"color\":\"#e9c349\",\"icon\":\"📁\"}"));
    palette.push(PaletteItem::new("evento", "Evento", "{\"color\":\"#7ec8e3\",\"icon\":\"📌\"}"));
    assert(palette_view(palette@) =~= seq![
        ("note"@, "Nota"@, "{\"color\":\"#b48ead\",\"icon\":\"📝\"}"@),
        ("pasta"@, "Pasta"@, "{\"color\":\"#e9c349\",\"icon\":\"📁\"}"@),
        ("evento"@, "Evento"@, "{\"color\":\"#7ec8e3\",\"icon\":\"📌\"}"@),
    ]);
    Template {
        slug: String::from_str("universo"),
        title: String::from_str("Universo"),
        description: String::from_str(
            "Um universo, todas as formas — mapa, timeline e grafo do mesmo conteúdo.",
        ),
        seed: seed,
        palette: palette,
        render_hints: String::from_str(
            "{\"graph_view\":true,\"grid_lines\":true,\"time_axis\":true}",
        ),
    }
}

/// `blank`: an empty 2D grid with one block layer and a note palette.
pub fn blank_template() -> (t: Template)
    ensures
        is_blank(t),
{
    let mut layers: Vec<Layer> = Vec::new();
    layers.push(Layer::blocks("base", "Base"));
    let mut seed = empty_seed(Projection::TwoDGrid, GridSpec::default(), layers);
    seed.title = String::from_str("Universo em branco");
    seed.description = String::from_str("Uma grade vazia para começar do zero.");
    let mut palette: Vec<PaletteItem> = Vec::new();
    palette.push(PaletteItem::new("note", "Nota", "{\"color\":\"#d4af37\",\"icon\":\"📝\"}"));
    palette.push(PaletteItem::new("pasta", "Pasta", "{\"color\":\"#e9c349\",\"icon\":\"📁\"}"));
    assert(palette_view(palette@) =~= seq![
        ("note"@, "Nota"@, "{\"color\":\"#d4af37\",\"icon\":\"📝\"}"@),
        ("pasta"@, "Pasta"@, "{\"color\":\"#e9c349\",\"icon\":\"📁\"}"@),
    ]);
    Template {
        slug: String::from_str("blank"),
        title: String::from_str("Em branco"),
        description: String::from_str("Grade 2D vazia — coloque blocos e anexe conteúdo."),
        seed: seed,
        palette: palette,
        render_hints: String::from_str("{\"grid_lines\":true}"),
    }
}

/// `jardim`: notes first — a light grid and a palette of notes and folders.
pub fn jardim_template() -> (t: Template)
    ensures
        is_jardim(t),
{
    let grid = GridSpec { width: 24, height: 16, cell_size: 32 };
    let mut layers: Vec<Layer> = Vec::new();
    layers.push(Layer::blocks("notas", "Notas"));
    let mut seed = empty_seed(Projection::TwoDGrid, grid, layers);
    seed.title = String::from_str("Jardim");
    seed.description = String::from_str(
        "Comece a anotar: cada nota é um nó, wikilinks são as arestas.",
    );
    let mut palette: Vec<PaletteItem> = Vec::new();
    palette.push(PaletteItem::new("note", "Nota", "{\"color\":\"#b48ead\",\"icon\":\"📝\"}"));
    palette.push(PaletteItem::new("pasta", "Pasta", "{\"color\":\"#e9c349\",\"icon\":\"📁\"}"));
    assert(palette_view(palette@) =~= seq![
        ("note"@, "Nota"@, "{\"color\":\"#b48ead\",\"icon\":\"📝\"}"@),
        ("pasta"@, "Pasta"@, "{\"color\":\"#e9c349\",\"icon\":\"📁\"}"@),
    ]);
    Template {
        slug: String::from_str("jardim"),
        title: String::from_str("Jardim"),
        description: String::from_str(
            "Visão notes-first — escreva notas e ligue-as com [[wikilinks]].",
        ),
        seed: seed,
        palette: palette,
        render_hints: String::from_str("{\"graph_view\":true,\"grid_lines\":true}"),
    }
}

fn landmark(id: &str, label: &str, x: u32, y: u32) -> (b: Block)
    ensures
        b@.id == id@,
        b@.block_type == "landmark"@,
        b@.pos == (Cell { x, y }),
        b@.label == Some(label@),
        b@.attachments.len() == 0,
{
    let mut props: Vec<(String, String)> = Vec::new();
    props.push((String::from_str("color"), String::from_str("\"#7ec8e3\"")));
    props.push((String::from_str("icon"), String::from_str("\"🧠\"")));
    Block {
        id: String::from_str(id),
        block_type: String::from_str("landmark"),
        pos: Cell { x, y },
        label: Some(String::from_str(label)),
        attachments: Vec::new(),
        props: props,
    }
}

fn connection(id: &str, from: &str, to: &str, label: &str) -> (c: Connection)
    ensures
        c@ == (ConnV {
            id: id@,
            from: from@,
            to: to@,
            label: Some(label@),
            directed: true,
            props: seq![],
        }),
{
    let c = Connection {
        id: String::from_str(id),
        from: String::from_str(from),
        to: String::from_str(to),
        label: Some(String::from_str(label)),
        directed: true,
        props: Vec::new(),
    };
    assert(c@.props =~= seq![]);
    c
}

/// `neuroanatomia`: the body's silhouette, the central nervous system at
/// half opacity over it, four landmarks and two pathways between them.
pub fn neuroanatomia_template() -> (t: Template)
    ensures
        is_neuroanatomia(t),
{
    let grid = GridSpec { width: 24, height: 40, cell_size: 20 };
    let corpo = Layer::background("corpo", "Silhueta do corpo", F32_ONE, None);
    let snc = Layer::background("snc", "Sistema Nervoso Central", 0x3F00_0000, None);
    let mut landmarks = Layer::blocks("landmarks", "Landmarks");
    let mut bs: Vec<Block> = Vec::new();
    bs.push(landmark("cortex", "Córtex cerebral", 12, 3));
    bs.push(landmark("cerebelo", "Cerebelo", 12, 6));
    bs.push(landmark("tronco", "Tronco encefálico", 12, 8));
    bs.push(landmark("medula", "Medula espinhal", 12, 22));
    landmarks.blocks = bs;
    let mut layers: Vec<Layer> = Vec::new();
    layers.push(corpo);
    layers.push(snc);
    layers.push(landmarks);
    let mut seed = empty_seed(Projection::TwoDGrid, grid, layers);
    seed.title = String::from_str("Neuroanatomia");
    seed.description = String::from_str(
        "Sistema nervoso central dentro do corpo humano, com toggle de transparência.",
    );
    let mut conns: Vec<Connection> = Vec::new();
    conns.push(connection("cortex-tronco", "cortex", "tronco", "Vias descendentes"));
    conns.push(connection("tronco-medula", "tronco", "medula", "Trato corticoespinhal"));
    seed.connections = conns;
    assert(seed@.connections =~= seq![
        ConnV {
            id: "cortex-tronco"@,
            from: "cortex"@,
            to: "tronco"@,
            label: Some("Vias descendentes"@),
            directed: true,
            props: seq![],
        },
        ConnV {
            id: "tronco-medula"@,
            from: "tronco"@,
            to: "medula"@,
            label: Some("Trato corticoespinhal"@),
            directed: true,
            props: seq![],
        },
    ]);
    proof {
        reveal_strlit("corpo");
        reveal_strlit("snc");
        reveal_strlit("landmarks");
        assert("corpo"@.len() == 5 && "snc"@.len() == 3 && "landmarks"@.len() == 9);
        let ls = seed@.layers;
        assert(ls[2].blocks[0].id == "cortex"@);
        assert(ls[2].blocks[2].id == "tronco"@);
        assert(ls[2].blocks[3].id == "medula"@);
        assert(has_block_in(ls, "cortex"@));
        assert(has_block_in(ls, "tronco"@));
        assert(has_block_in(ls, "medula"@));
    }
    let mut palette: Vec<PaletteItem> = Vec::new();
    palette.push(
        PaletteItem::new("landmark", "Landmark anatômico", "{\"color\":\"#7ec8e3\",\"icon\":\"🧠\"}"),
    );
    palette.push(PaletteItem::new("region", "Região", "{\"color\":\"#b388ff\",\"icon\":\"🫧\"}"));
    palette.push(
        PaletteItem::new("annotation", "Anotação", "{\"color\":\"#ffd166\",\"icon\":\"🏷️\"}"),
    );
    assert(palette_view(palette@) =~= seq![
        ("landmark"@, "Landmark anatômico"@, "{\"color\":\"#7ec8e3\",\"icon\":\"🧠\"}"@),
        ("region"@, "Região"@, "{\"color\":\"#b388ff\",\"icon\":\"🫧\"}"@),
        ("annotation"@, "Anotação"@, "{\"color\":\"#ffd166\",\"icon\":\"🏷️\"}"@),
    ]);
    Template {
        slug: String::from_str("neuroanatomia"),
        title: String::from_str("Neuroanatomia"),
        description: String::from_str(
            "Renderize o SNC dentro do corpo, alterne a transparência, marque landmarks e conecte vias.",
        ),
        seed: seed,
        palette: palette,
        render_hints: String::from_str(
            "{\"attribution_required\":true,\"connection_style\":\"arrow\",\"transparency_layer\":\"snc\"}",
        ),
    }
}

/// The templates offered on creation (one kind of universe; its forms are
/// views chosen in the player).
pub fn all_templates() -> (r: Vec<Template>)
    ensures
        r@.len() == 1,
        is_universo(r@[0]),
{
    let mut v: Vec<Template> = Vec::new();
    v.push(universo_template());
    v
}

/// Summaries of the templates offered on creation.
pub fn template_summaries() -> (r: Vec<TemplateSummary>)
    ensures
        r@.len() == 1,
        r@[0].slug@ == "universo"@,
        r@[0].title@ == "Universo"@,
        r@[0].description@
            == "Um universo, todas as formas — mapa, timeline e grafo do mesmo conteúdo."@,
{
    let ts = all_templates();
    let mut v: Vec<TemplateSummary> = Vec::new();
    v.push(ts[0].summary());
    v
}

/// A timeline event block: type `evento`, at cell (`x`, `y`), labelled with
/// its title, its time (RFC 3339), kind and icon as properties.
pub open spec fn is_event(
    b: BlockV,
    id: Seq<char>,
    title: Seq<char>,
    at: Seq<char>,
    kind: Seq<char>,
    icon: Seq<char>,
    x: u32,
    y: u32,
) -> bool {
    &&& b.id == id
    &&& b.block_type == "evento"@
    &&& b.pos == (Cell { x, y })
    &&& b.label == Some(title)
    &&& b.attachments.len() == 0
    &&& b.props.map_values(|p: (String, String)| (p.0@, p.1@)) == seq![
        ("at_iso"@, seq!['"'] + at + seq!['"']),
        ("icon"@, seq!['"'] + icon + seq!['"']),
        ("kind"@, seq!['"'] + kind + seq!['"']),
    ]
}

/// A block layer of the timeline: id and name the kind family, visible and
/// opaque.
pub open spec fn is_lane(l: LayerV, fam: Seq<char>, n: nat) -> bool {
    &&& l.id == fam
    &&& l.name == fam
    &&& l.kind == LayerKind::Blocks
    &&& l.visible
    &&& l.opacity == F32_ONE
    &&& l.background is None
    &&& l.blocks.len() == n
}

/// The kinds of the `timeline` seed's events, in time order (the full moon
/// of January, the March equinox, the June solstice, the full moon of July,
/// the August eclipse, the September equinox, the December solstice).
pub open spec fn timeline_kinds() -> Seq<Seq<char>> {
    seq![
        "moon.full"@,
        "equinox"@,
        "solstice"@,
        "moon.full"@,
        "eclipse.solar"@,
        "equinox"@,
        "solstice"@,
    ]
}

/// The lanes of the `timeline` seed: its kinds' families in the order they
/// first occur in time.
pub open spec fn timeline_lanes() -> Seq<Seq<char>> {
    lanes_of(timeline_kinds())
}

/// The height of the `timeline` seed's grid.
pub open spec fn timeline_grid_height() -> int {
    timeline_height(timeline_lanes().len() as int)
}

/// The row of the `k`-th event of the `timeline` seed (in time order) when
/// the events stand at the columns `cols`: as [`place_events`] places it.
pub open spec fn timeline_row(cols: Seq<u32>, k: int) -> u32 {
    event_row(
        lane_of(timeline_lanes(), family_of(timeline_kinds()[k])),
        stacked_before(families(timeline_kinds()), cols, k, k) as int,
        timeline_grid_height(),
    ) as u32
}

/// The `timeline` template with its events at the columns `cols` (in time
/// order): the astronomical events of 2026 on a time axis of 48 columns,
/// rows and height as [`place_events`] gives them for their kinds, one
/// layer per kind family (families in alphabetical order), each event with
/// the icon of its family.
pub open spec fn is_timeline_at(t: Template, cols: Seq<u32>) -> bool {
    let ls = t.seed@.layers;
    &&& inst_ok(t.seed@)
    &&& t.slug@ == "timeline"@
    &&& t.title@ == "Timeline"@
    &&& t.description@ == "Mundo-timeline — eixo X é o tempo; faixas por tipo de evento."@
    &&& t.render_hints@ == "{\"grid_lines\":false,\"time_axis\":true}"@
    &&& palette_view(t.palette@) == seq![
        ("evento"@, "Evento"@, "{\"color\":\"#7ec8e3\",\"icon\":\"📌\"}"@),
    ]
    &&& t.seed@.id.len() == 0 && t.seed@.owner.len() == 0 && t.seed@.template.len() == 0
    &&& t.seed@.title == "Timeline"@
    &&& t.seed@.description == "Mundo-timeline: eixo X = tempo, uma faixa por kind."@
    &&& t.seed@.schema_version == SCHEMA_VERSION
    &&& t.seed@.projection == Projection::Timeline
    &&& t.seed@.grid == (GridSpec { width: 48, height: timeline_grid_height() as u32, cell_size: 28 })
    &&& t.seed@.connections.len() == 0
    &&& !t.seed@.published
    &&& t.seed@.meta.len() == 0
    &&& t.seed@.created_at == 0 && t.seed@.updated_at == 0
    &&& ls.len() == 4
    &&& is_lane(ls[0], "eclipse"@, 1)
    &&& is_event(ls[0].blocks[0], "eclipse-solar-ago"@, "Eclipse solar total"@,
        "2026-08-12T17:46:00+00:00"@, "eclipse.solar"@, icon_of_kind("eclipse.solar"@), cols[4],
        timeline_row(cols, 4))
    &&& is_lane(ls[1], "equinox"@, 2)
    &&& is_event(ls[1].blocks[0], "equinocio-marco"@, "Equinócio de março"@,
        "2026-03-20T14:46:00+00:00"@, "equinox"@, icon_of_kind("equinox"@), cols[1], timeline_row(cols, 1))
    &&& is_event(ls[1].blocks[1], "equinocio-setembro"@, "Equinócio de setembro"@,
        "2026-09-23T00:05:00+00:00"@, "equinox"@, icon_of_kind("equinox"@), cols[5], timeline_row(cols, 5))
    &&& is_lane(ls[2], "moon"@, 2)
    &&& is_event(ls[2].blocks[0], "lua-cheia-jan"@, "Lua cheia de janeiro"@,
        "2026-01-03T10:03:00+00:00"@, "moon.full"@, icon_of_kind("moon.full"@), cols[0], timeline_row(cols, 0))
    &&& is_event(ls[2].blocks[1], "lua-cheia-jul"@, "Lua cheia de julho"@,
        "2026-07-29T14:36:00+00:00"@, "moon.full"@, icon_of_kind("moon.full"@), cols[3], timeline_row(cols, 3))
    &&& is_lane(ls[3], "solstice"@, 2)
    &&& is_event(ls[3].blocks[0], "solsticio-junho"@, "Solstício de junho"@,
        "2026-06-21T08:25:00+00:00"@, "solstice"@, icon_of_kind("solstice"@), cols[2], timeline_row(cols, 2))
    &&& is_event(ls[3].blocks[1], "solsticio-dezembro"@, "Solstício de dezembro"@,
        "2026-12-21T20:50:00+00:00"@, "solstice"@, icon_of_kind("solstice"@), cols[6], timeline_row(cols, 6))
}

/// The columns of the `timeline` seed's events on its 48-column axis, in
/// time order: where linear interpolation between the first and the last
/// event, rounded, puts each of them.
pub open spec fn timeline_columns() -> Seq<u32> {
    seq![0u32, 10u32, 23u32, 28u32, 30u32, 35u32, 47u32]
}

fn quoted(s: &str) -> (r: String)
    ensures
        r@ == seq!['"'] + s@ + seq!['"'],
{
    let mut r = String::new();
    crate::text::push_char(&mut r, '"');
    r.append(s);
    crate::text::push_char(&mut r, '"');
    r
}

fn event(id: &str, title: &str, at: &str, kind: &str, icon: &str, x: u32, y: u32) -> (b: Block)
    ensures
        is_event(b@, id@, title@, at@, kind@, icon@, x, y),
{
    let mut props: Vec<(String, String)> = Vec::new();
    props.push((String::from_str("at_iso"), quoted(at)));
    props.push((String::from_str("icon"), quoted(icon)));
    props.push((String::from_str("kind"), quoted(kind)));
    let b = Block {
        id: String::from_str(id),
        block_type: String::from_str("evento"),
        pos: Cell { x, y },
        label: Some(String::from_str(title)),
        attachments: Vec::new(),
        props: props,
    };
    assert(b@.props.map_values(|p: (String, String)| (p.0@, p.1@)) =~= seq![
        ("at_iso"@, seq!['"'] + at@ + seq!['"']),
        ("icon"@, seq!['"'] + icon@ + seq!['"']),
        ("kind"@, seq!['"'] + kind@ + seq!['"']),
    ]);
    b
}

fn lane(fam: &str, blocks: Vec<Block>) -> (l: Layer)
    ensures
        is_lane(l@, fam@, blocks@.len()),
        l@.blocks == blocks_view(blocks@),
{
    let mut l = Layer::blocks(fam, fam);
    l.blocks = blocks;
    l
}

/// `timeline` with its events at the columns `cols` (in time order; see
/// [`is_timeline_at`]): the rows and the grid's height come from
/// [`place_events`], the icons from [`icon_for`].
pub fn timeline_template_at(cols: &[u32]) -> (t: Template)
    requires
        cols@.len() == 7,
    ensures
        is_timeline_at(t, cols@),
{
    let mut kinds: Vec<String> = Vec::new();
    kinds.push(String::from_str("moon.full"));
    kinds.push(String::from_str("equinox"));
    kinds.push(String::from_str("solstice"));
    kinds.push(String::from_str("moon.full"));
    kinds.push(String::from_str("eclipse.solar"));
    kinds.push(String::from_str("equinox"));
    kinds.push(String::from_str("solstice"));
    assert(kinds@.map_values(|k: String| k@) =~= timeline_kinds());
    let (height, rows) = place_events(kinds.as_slice(), cols);
    let mut eclipse: Vec<Block> = Vec::new();
    eclipse.push(event("eclipse-solar-ago", "Eclipse solar total", "2026-08-12T17:46:00+00:00",
        "eclipse.solar", icon_for("eclipse.solar"), cols[4], rows[4]));
    let mut equinox: Vec<Block> = Vec::new();
    equinox.push(event("equinocio-marco", "Equinócio de março", "2026-03-20T14:46:00+00:00",
        "equinox", icon_for("equinox"), cols[1], rows[1]));
    equinox.push(event("equinocio-setembro", "Equinócio de setembro", "2026-09-23T00:05:00+00:00",
        "equinox", icon_for("equinox"), cols[5], rows[5]));
    let mut moon: Vec<Block> = Vec::new();
    moon.push(event("lua-cheia-jan", "Lua cheia de janeiro", "2026-01-03T10:03:00+00:00",
        "moon.full", icon_for("moon.full"), cols[0], rows[0]));
    moon.push(event("lua-cheia-jul", "Lua cheia de julho", "2026-07-29T14:36:00+00:00",
        "moon.full", icon_for("moon.full"), cols[3], rows[3]));
    let mut solstice: Vec<Block> = Vec::new();
    solstice.push(event("solsticio-junho", "Solstício de junho", "2026-06-21T08:25:00+00:00",
        "solstice", icon_for("solstice"), cols[2], rows[2]));
    solstice.push(event("solsticio-dezembro", "Solstício de dezembro", "2026-12-21T20:50:00+00:00",
        "solstice", icon_for("solstice"), cols[6], rows[6]));
    let mut layers: Vec<Layer> = Vec::new();
    layers.push(lane("eclipse", eclipse));
    layers.push(lane("equinox", equinox));
    layers.push(lane("moon", moon));
    layers.push(lane("solstice", solstice));
    let mut seed = empty_seed(
        Projection::Timeline,
        GridSpec { width: 48, height, cell_size: 28 },
        layers,
    );
    seed.title = String::from_str("Timeline");
    seed.description = String::from_str("Mundo-timeline: eixo X = tempo, uma faixa por kind.");
    proof {
        reveal_strlit("eclipse");
        reveal_strlit("equinox");
        reveal_strlit("moon");
        reveal_strlit("solstice");
        assert("eclipse"@.len() == 7 && "equinox"@.len() == 7 && "moon"@.len() == 4
            && "solstice"@.len() == 8);
        assert("eclipse"@[1] == 'c' && "equinox"@[1] == 'q');
    }
    let mut palette: Vec<PaletteItem> = Vec::new();
    palette.push(PaletteItem::new("evento", "Evento", "{\"color\":\"#7ec8e3\",\"icon\":\"📌\"}"));
    assert(palette_view(palette@) =~= seq![
        ("evento"@, "Evento"@, "{\"color\":\"#7ec8e3\",\"icon\":\"📌\"}"@),
    ]);
    Template {
        slug: String::from_str("timeline"),
        title: String::from_str("Timeline"),
        description: String::from_str("Mundo-timeline — eixo X é o tempo; faixas por tipo de evento."),
        seed: seed,
        palette: palette,
        render_hints: String::from_str("{\"grid_lines\":false,\"time_axis\":true}"),
    }
}

/// `timeline`: the astronomical events of 2026 laid out on a time axis, at
/// the columns [`timeline_columns`] (see [`is_timeline_at`]); existing
/// timeline instances still name it.
pub fn timeline_template() -> (t: Template)
    ensures
        is_timeline_at(t, timeline_columns()),
{
    let cols: Vec<u32> = vec![0, 10, 23, 28, 30, 35, 47];
    assert(cols@ =~= timeline_columns());
    timeline_template_at(cols.as_slice())
}

/// The template with this slug, among those offered on creation and the
/// earlier ones that existing instances still name.
pub fn template_by_slug(slug: &str) -> (r: Option<Template>)
    ensures
        slug@ == "universo"@ ==> (r matches Some(t) && is_universo(t)),
        slug@ == "blank"@ ==> (r matches Some(t) && is_blank(t)),
        slug@ == "jardim"@ ==> (r matches Some(t) && is_jardim(t)),
        slug@ == "neuroanatomia"@ ==> (r matches Some(t) && is_neuroanatomia(t)),
        slug@ == "timeline"@ ==> (r matches Some(t) && is_timeline_at(t, timeline_columns())),
        slug@ != "universo"@ && slug@ != "blank"@ && slug@ != "jardim"@ && slug@ != "neuroanatomia"@
            && slug@ != "timeline"@ ==> r is None,
{
    proof {
        reveal_strlit("universo");
        reveal_strlit("blank");
        reveal_strlit("jardim");
        reveal_strlit("neuroanatomia");
        reveal_strlit("timeline");
        assert("universo"@[0] == 'u' && "blank"@[0] == 'b' && "jardim"@[0] == 'j'
            && "neuroanatomia"@[0] == 'n' && "timeline"@[0] == 't');
    }
    if str_eq(slug, "universo") {
        Some(universo_template())
    } else if str_eq(slug, "blank") {
        Some(blank_template())
    } else if str_eq(slug, "jardim") {
        Some(jardim_template())
    } else if str_eq(slug, "neuroanatomia") {
        Some(neuroanatomia_template())
    } else if str_eq(slug, "timeline") {
        Some(timeline_template())
    } else {
        None
    }
}

} // verus!
