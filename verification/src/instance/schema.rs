//! The instance schema: a grid with z-ordered layers of blocks, connections
//! between blocks, and attachment references.
//!
//! Free-form metadata (block and connection properties, instance metadata)
//! is carried as key / JSON-text pairs; opacities are binary32 bit patterns;
//! times are milliseconds since the Unix epoch.
use vstd::prelude::*;
use vstd::string::StringExecFns;

use crate::text::{before_char, before_char_exec, chars_are, str_chars, str_eq, trim, trim_chars};

verus! {

/// Version of the serialized schema.
pub const SCHEMA_VERSION: u32 = 3;

/// Grid size in cells, and cell size in pixels (a rendering hint).
#[derive(Debug, Clone, Copy, PartialEq, Eq)]
pub struct GridSpec {
    pub width: u32,
    pub height: u32,
    pub cell_size: u32,
}

impl Default for GridSpec {
    /// A 40 × 20 grid of 16-pixel cells.
    fn default() -> (g: Self)
        ensures
            g.width == 40 && g.height == 20 && g.cell_size == 16,
    {
        GridSpec { width: 40, height: 20, cell_size: 16 }
    }
}

/// A cell of the grid.
#[derive(Debug, Clone, Copy, PartialEq, Eq, Structural)]
pub struct Cell {
    pub x: u32,
    pub y: u32,
}

impl GridSpec {
    /// Whether the cell lies within the grid.
    pub fn contains(&self, cell: Cell) -> (r: bool)
        ensures
            r == (cell.x < self.width && cell.y < self.height),
    {
        cell.x < self.width && cell.y < self.height
    }
}

/// How an instance is drawn.
#[derive(Debug, Clone, Copy, PartialEq, Eq, Structural)]
pub enum Projection {
    TwoDGrid,
    Isometric,
    Timeline,
}

/// What a layer holds.
#[derive(Debug, Clone, Copy, PartialEq, Eq, Structural)]
pub enum LayerKind {
    /// A background image.
    Background,
    /// Blocks placed on the grid.
    Blocks,
    /// Free annotations over the other layers.
    Annotation,
}

/// The category of an attachment, from its MIME type.
#[derive(Debug, Clone, Copy, PartialEq, Eq, Structural)]
pub enum AttachmentKind {
    Pdf,
    Image,
    Sound,
    Markdown,
    Metadata,
}

/// A content-addressed reference to an attachment.
#[derive(Debug, Clone, PartialEq, Eq)]
pub struct ContentRef {
    pub kind: AttachmentKind,
    /// SHA-256 of the bytes, in lowercase hex.
    pub hash: String,
    /// The original file name.
    pub filename: String,
    pub mime: String,
    pub size: u64,
}

/// A MIME type without its parameters (what precedes the first `;`),
/// trimmed.
pub open spec fn mime_base(mime: Seq<char>) -> Seq<char> {
    trim(before_char(mime, ';'))
}

/// The attachment category of a bare MIME type; `None` for types that are
/// not accepted.
pub open spec fn kind_of_base(b: Seq<char>) -> Option<AttachmentKind> {
    if b == "application/pdf"@ {
        Some(AttachmentKind::Pdf)
    } else if b == "image/png"@ || b == "image/jpeg"@ || b == "image/svg+xml"@ || b
        == "image/webp"@ || b == "image/gif"@ {
        Some(AttachmentKind::Image)
    } else if b == "audio/mpeg"@ || b == "audio/wav"@ || b == "audio/ogg"@ || b == "audio/webm"@ {
        Some(AttachmentKind::Sound)
    } else if b == "text/markdown"@ || b == "text/x-markdown"@ {
        Some(AttachmentKind::Markdown)
    } else if b == "application/json"@ {
        Some(AttachmentKind::Metadata)
    } else {
        None
    }
}

impl AttachmentKind {
    /// The category of an attachment with MIME type `mime` (parameters after
    /// `;` are ignored); `None` when the type is not accepted.
    pub fn from_mime(mime: &str) -> (r: Option<AttachmentKind>)
        ensures
            r == kind_of_base(mime_base(mime@)),
    {
        let chars = str_chars(mime);
        let head = before_char_exec(chars.as_slice(), ';');
        let b = trim_chars(head.as_slice());
        let b = b.as_slice();
        if chars_are(b, "application/pdf") {
            Some(AttachmentKind::Pdf)
        } else if chars_are(b, "image/png") || chars_are(b, "image/jpeg") || chars_are(
            b,
            "image/svg+xml",
        ) || chars_are(b, "image/webp") || chars_are(b, "image/gif") {
            Some(AttachmentKind::Image)
        } else if chars_are(b, "audio/mpeg") || chars_are(b, "audio/wav") || chars_are(
            b,
            "audio/ogg",
        ) || chars_are(b, "audio/webm") {
            Some(AttachmentKind::Sound)
        } else if chars_are(b, "text/markdown") || chars_are(b, "text/x-markdown") {
            Some(AttachmentKind::Markdown)
        } else if chars_are(b, "application/json") {
            Some(AttachmentKind::Metadata)
        } else {
            None
        }
    }
}

// ── Layers, blocks, connections ───────────────────────────────────────────

/// The bits of the binary32 value 1.0.
pub const F32_ONE: u32 = 0x3F80_0000;

/// A block placed on a cell of the grid.
#[derive(Debug, Clone, PartialEq)]
pub struct Block {
    /// Stable id; what connections refer to.
    pub id: String,
    /// Palette key (`landmark`, `note`, `portal`…).
    pub block_type: String,
    pub pos: Cell,
    pub label: Option<String>,
    pub attachments: Vec<ContentRef>,
    /// Rendering hints and metadata, as key and JSON text.
    pub props: Vec<(String, String)>,
}

/// A block as values.
pub struct BlockV {
    pub id: Seq<char>,
    pub block_type: Seq<char>,
    pub pos: Cell,
    pub label: Option<Seq<char>>,
    pub attachments: Seq<ContentRef>,
    pub props: Seq<(String, String)>,
}

pub open spec fn opt_text(o: Option<String>) -> Option<Seq<char>> {
    match o {
        Some(s) => Some(s@),
        None => None,
    }
}

impl View for Block {
    type V = BlockV;

    open spec fn view(&self) -> BlockV {
        BlockV {
            id: self.id@,
            block_type: self.block_type@,
            pos: self.pos,
            label: opt_text(self.label),
            attachments: self.attachments@,
            props: self.props@,
        }
    }
}

pub open spec fn blocks_view(s: Seq<Block>) -> Seq<BlockV> {
    Seq::new(s.len(), |i: int| s[i]@)
}

/// A z-ordered layer of an instance.
#[derive(Debug, Clone, PartialEq)]
pub struct Layer {
    pub id: String,
    pub name: String,
    pub kind: LayerKind,
    pub visible: bool,
    /// Opacity from 0.0 to 1.0, as binary32 bits.
    pub opacity: u32,
    /// The layer's background image.
    pub background: Option<ContentRef>,
    pub blocks: Vec<Block>,
}

/// A layer as values.
pub struct LayerV {
    pub id: Seq<char>,
    pub name: Seq<char>,
    pub kind: LayerKind,
    pub visible: bool,
    pub opacity: u32,
    pub background: Option<ContentRef>,
    pub blocks: Seq<BlockV>,
}

impl View for Layer {
    type V = LayerV;

    open spec fn view(&self) -> LayerV {
        LayerV {
            id: self.id@,
            name: self.name@,
            kind: self.kind,
            visible: self.visible,
            opacity: self.opacity,
            background: self.background,
            blocks: blocks_view(self.blocks@),
        }
    }
}

pub open spec fn layers_view(s: Seq<Layer>) -> Seq<LayerV> {
    Seq::new(s.len(), |i: int| s[i]@)
}

impl Layer {
    /// An empty block layer, visible and fully opaque.
    pub fn blocks(id: &str, name: &str) -> (l: Self)
        ensures
            l@ == (LayerV {
                id: id@,
                name: name@,
                kind: LayerKind::Blocks,
                visible: true,
                opacity: F32_ONE,
                background: None,
                blocks: seq![],
            }),
    {
        let l = Layer {
            id: String::from_str(id),
            name: String::from_str(name),
            kind: LayerKind::Blocks,
            visible: true,
            opacity: F32_ONE,
            background: None,
            blocks: Vec::new(),
        };
        assert(l@.blocks =~= seq![]);
        l
    }

    /// A background layer with an image and the given opacity.
    pub fn background(id: &str, name: &str, opacity: u32, image: Option<ContentRef>) -> (l: Self)
        ensures
            l@ == (LayerV {
                id: id@,
                name: name@,
                kind: LayerKind::Background,
                visible: true,
                opacity: opacity,
                background: image,
                blocks: seq![],
            }),
    {
        let l = Layer {
            id: String::from_str(id),
            name: String::from_str(name),
            kind: LayerKind::Background,
            visible: true,
            opacity: opacity,
            background: image,
            blocks: Vec::new(),
        };
        assert(l@.blocks =~= seq![]);
        l
    }
}

/// An edge between two blocks.
#[derive(Debug, Clone, PartialEq)]
pub struct Connection {
    pub id: String,
    /// The id of the block it starts at.
    pub from: String,
    /// The id of the block it ends at.
    pub to: String,
    pub label: Option<String>,
    pub directed: bool,
    pub props: Vec<(String, String)>,
}

/// A connection as values.
pub struct ConnV {
    pub id: Seq<char>,
    pub from: Seq<char>,
    pub to: Seq<char>,
    pub label: Option<Seq<char>>,
    pub directed: bool,
    pub props: Seq<(String, String)>,
}

impl View for Connection {
    type V = ConnV;

    open spec fn view(&self) -> ConnV {
        ConnV {
            id: self.id@,
            from: self.from@,
            to: self.to@,
            label: opt_text(self.label),
            directed: self.directed,
            props: self.props@,
        }
    }
}

pub open spec fn conns_view(s: Seq<Connection>) -> Seq<ConnV> {
    Seq::new(s.len(), |i: int| s[i]@)
}

/// A universe authored by a user: grid, layers, blocks and connections.
#[derive(Debug, Clone, PartialEq)]
pub struct UniverseInstance {
    /// Stable id; also the directory name on disk.
    pub id: String,
    pub schema_version: u32,
    /// The author's subject id.
    pub owner: String,
    pub title: String,
    pub description: String,
    /// Seed template slug.
    pub template: String,
    pub grid: GridSpec,
    pub projection: Projection,
    /// Layers, index 0 at the bottom.
    pub layers: Vec<Layer>,
    pub connections: Vec<Connection>,
    pub published: bool,
    /// Free metadata, as key and JSON text.
    pub meta: Vec<(String, String)>,
    pub created_at: i64,
    pub updated_at: i64,
}

/// An instance as values.
pub struct InstV {
    pub id: Seq<char>,
    pub schema_version: u32,
    pub owner: Seq<char>,
    pub title: Seq<char>,
    pub description: Seq<char>,
    pub template: Seq<char>,
    pub grid: GridSpec,
    pub projection: Projection,
    pub layers: Seq<LayerV>,
    pub connections: Seq<ConnV>,
    pub published: bool,
    pub meta: Seq<(String, String)>,
    pub created_at: i64,
    pub updated_at: i64,
}

impl View for UniverseInstance {
    type V = InstV;

    open spec fn view(&self) -> InstV {
        InstV {
            id: self.id@,
            schema_version: self.schema_version,
            owner: self.owner@,
            title: self.title@,
            description: self.description@,
            template: self.template@,
            grid: self.grid,
            projection: self.projection,
            layers: layers_view(self.layers@),
            connections: conns_view(self.connections@),
            published: self.published,
            meta: self.meta@,
            created_at: self.created_at,
            updated_at: self.updated_at,
        }
    }
}

/// The first layer at or after `from` with this id.
pub open spec fn layer_index(ls: Seq<LayerV>, id: Seq<char>, from: int) -> Option<int>
    decreases ls.len() - from,
{
    if from < 0 || from >= ls.len() {
        None
    } else if ls[from].id == id {
        Some(from)
    } else {
        layer_index(ls, id, from + 1)
    }
}

/// The first block at or after `from` with this id.
pub open spec fn block_index(bs: Seq<BlockV>, id: Seq<char>, from: int) -> Option<int>
    decreases bs.len() - from,
{
    if from < 0 || from >= bs.len() {
        None
    } else if bs[from].id == id {
        Some(from)
    } else {
        block_index(bs, id, from + 1)
    }
}

/// Some block of some layer has this id.
pub open spec fn has_block_in(ls: Seq<LayerV>, id: Seq<char>) -> bool {
    exists|i: int, j: int|
        0 <= i < ls.len() && 0 <= j < ls[i].blocks.len() && (#[trigger] ls[i].blocks[j]).id == id
}

pub proof fn lemma_layer_index(ls: Seq<LayerV>, id: Seq<char>, from: int)
    requires
        0 <= from,
    ensures
        match layer_index(ls, id, from) {
            Some(i) => from <= i < ls.len() && ls[i].id == id,
            None => forall|k: int| from <= k < ls.len() ==> ls[k].id != id,
        },
    decreases ls.len() - from,
{
    if from < ls.len() && ls[from].id != id {
        lemma_layer_index(ls, id, from + 1);
    }
}

pub proof fn lemma_block_index(bs: Seq<BlockV>, id: Seq<char>, from: int)
    requires
        0 <= from,
    ensures
        match block_index(bs, id, from) {
            Some(i) => from <= i < bs.len() && bs[i].id == id,
            None => forall|k: int| from <= k < bs.len() ==> bs[k].id != id,
        },
    decreases bs.len() - from,
{
    if from < bs.len() && bs[from].id != id {
        lemma_block_index(bs, id, from + 1);
    }
}

impl UniverseInstance {
    /// An empty instance with one block layer, "base", created at `now`.
    pub fn empty(id: &str, owner: &str, title: &str, now: i64) -> (r: Self)
        ensures
            r@.id == id@ && r@.owner == owner@ && r@.title == title@,
            r@.schema_version == SCHEMA_VERSION,
            r@.description == Seq::<char>::empty() && r@.template == Seq::<char>::empty(),
            r@.grid == (GridSpec { width: 40, height: 20, cell_size: 16 }),
            r@.projection == Projection::TwoDGrid,
            r@.layers == seq![
                LayerV {
                    id: "base"@,
                    name: "Base"@,
                    kind: LayerKind::Blocks,
                    visible: true,
                    opacity: F32_ONE,
                    background: None,
                    blocks: seq![],
                },
            ],
            r@.connections.len() == 0,
            !r@.published,
            r@.meta.len() == 0,
            r@.created_at == now && r@.updated_at == now,
    {
        let mut layers: Vec<Layer> = Vec::new();
        layers.push(Layer::blocks("base", "Base"));
        let r = UniverseInstance {
            id: String::from_str(id),
            schema_version: SCHEMA_VERSION,
            owner: String::from_str(owner),
            title: String::from_str(title),
            description: String::new(),
            template: String::new(),
            grid: GridSpec::default(),
            projection: Projection::TwoDGrid,
            layers: layers,
            connections: Vec::new(),
            published: false,
            meta: Vec::new(),
            created_at: now,
            updated_at: now,
        };
        assert(r@.layers =~= seq![r.layers@[0]@]);
        r
    }

    /// The position of the first layer with this id.
    pub fn layer_position(&self, layer_id: &str) -> (r: Option<usize>)
        ensures
            match r {
                Some(i) => layer_index(self@.layers, layer_id@, 0) == Some(i as int) && i
                    < self@.layers.len(),
                None => layer_index(self@.layers, layer_id@, 0) is None,
            },
    {
        let n = self.layers.len();
        let mut i: usize = 0;
        while i < n
            invariant
                n == self@.layers.len(),
                i <= n,
                layer_index(self@.layers, layer_id@, 0) == layer_index(
                    self@.layers,
                    layer_id@,
                    i as int,
                ),
            decreases n - i,
        {
            if str_eq(self.layers[i].id.as_str(), layer_id) {
                proof {
                    lemma_layer_index(self@.layers, layer_id@, 0);
                }
                return Some(i);
            }
            i = i + 1;
        }
        None
    }

    /// The first layer with this id.
    pub fn layer(&self, layer_id: &str) -> (r: Option<&Layer>)
        ensures
            match layer_index(self@.layers, layer_id@, 0) {
                Some(i) => r matches Some(l) && l@ == self@.layers[i],
                None => r is None,
            },
    {
        match self.layer_position(layer_id) {
            Some(i) => Some(&self.layers[i]),
            None => None,
        }
    }

    /// The first layer with this id, to change in place; the instance keeps
    /// whatever the layer becomes, and its other layers and fields stay.
    pub fn layer_mut(&mut self, layer_id: &str) -> (r: Option<&mut Layer>)
        ensures
            match layer_index(old(self)@.layers, layer_id@, 0) {
                Some(i) => r matches Some(l) && *l == old(self).layers@[i] && final(self).layers@
                    == old(self).layers@.update(i, *final(l)),
                None => r is None && *final(self) == *old(self),
            },
            final(self).id == old(self).id,
            final(self).owner == old(self).owner,
            final(self).title == old(self).title,
            final(self).description == old(self).description,
            final(self).template == old(self).template,
            final(self).grid == old(self).grid,
            final(self).projection == old(self).projection,
            final(self).connections == old(self).connections,
            final(self).published == old(self).published,
            final(self).schema_version == old(self).schema_version,
            final(self).meta == old(self).meta,
            final(self).created_at == old(self).created_at,
            final(self).updated_at == old(self).updated_at,
    {
        match self.layer_position(layer_id) {
            Some(i) => Some(&mut self.layers[i]),
            None => None,
        }
    }

    /// Whether a block of any layer has this id.
    pub fn has_block(&self, block_id: &str) -> (r: bool)
        ensures
            r == has_block_in(self@.layers, block_id@),
    {
        let n = self.layers.len();
        let mut i: usize = 0;
        while i < n
            invariant
                n == self@.layers.len(),
                i <= n,
                forall|a: int, b: int|
                    0 <= a < i && 0 <= b < self@.layers[a].blocks.len() ==> (
                    #[trigger] self@.layers[a].blocks[b]).id != block_id@,
            decreases n - i,
        {
            let m = self.layers[i].blocks.len();
            let mut j: usize = 0;
            while j < m
                invariant
                    n == self@.layers.len(),
                    i < n,
                    m == self@.layers[i as int].blocks.len(),
                    j <= m,
                    forall|a: int, b: int|
                        0 <= a < i && 0 <= b < self@.layers[a].blocks.len() ==> (
                        #[trigger] self@.layers[a].blocks[b]).id != block_id@,
                    forall|b: int| 0 <= b < j ==> (#[trigger] self@.layers[i as int].blocks[b]).id
                        != block_id@,
                decreases m - j,
            {
                if str_eq(self.layers[i].blocks[j].id.as_str(), block_id) {
                    assert(self@.layers[i as int].blocks[j as int].id == block_id@);
                    return true;
                }
                j = j + 1;
            }
            i = i + 1;
        }
        false
    }
}

} // verus!
