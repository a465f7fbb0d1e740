//! Granular edits of a [`UniverseInstance`]: each edit is validated against
//! the instance before anything changes, so a refused edit leaves the
//! instance as it was.
use vstd::prelude::*;

use crate::comunicacao::room::{
    drawn_from, keep_where, lemma_keep_step, lemma_keep_where_members, lemma_keep_where_unique,
};
use crate::instance::schema::{
    block_index, blocks_view, conns_view, has_block_in, layer_index, layers_view,
    lemma_block_index, Block, BlockV, Cell, ConnV, Connection, ContentRef, InstV, Layer, LayerV,
    UniverseInstance,
};
use crate::text::str_eq;

verus! {

/// An atomic edit of an instance.
pub enum EditOp {
    PlaceBlock { layer: String, block: Block },
    MoveBlock { layer: String, block_id: String, to: Cell },
    DeleteBlock { layer: String, block_id: String },
    /// `None` fields are left as they are; the opacity is binary32 bits.
    EditLayer { layer: String, visible: Option<bool>, opacity: Option<u32>, name: Option<String> },
    AddLayer { layer: Layer },
    AddConnection { connection: Connection },
    DeleteConnection { connection_id: String },
    AttachContent { layer: String, block_id: String, content: ContentRef },
}

/// Why an edit was refused.
#[derive(Debug, Clone, PartialEq)]
pub enum EditError {
    LayerNotFound(String),
    LayerExists(String),
    BlockNotFound(String),
    BlockExists(String),
    ConnectionNotFound(String),
    EndpointNotFound(String),
    OutOfBounds(u32, u32),
    /// The opacity's bits.
    InvalidOpacity(u32),
}

/// An edit error as values.
pub enum EditErrorV {
    LayerNotFound(Seq<char>),
    LayerExists(Seq<char>),
    BlockNotFound(Seq<char>),
    BlockExists(Seq<char>),
    ConnectionNotFound(Seq<char>),
    EndpointNotFound(Seq<char>),
    OutOfBounds(u32, u32),
    InvalidOpacity(u32),
}

impl View for EditError {
    type V = EditErrorV;

    open spec fn view(&self) -> EditErrorV {
        match self {
            EditError::LayerNotFound(s) => EditErrorV::LayerNotFound(s@),
            EditError::LayerExists(s) => EditErrorV::LayerExists(s@),
            EditError::BlockNotFound(s) => EditErrorV::BlockNotFound(s@),
            EditError::BlockExists(s) => EditErrorV::BlockExists(s@),
            EditError::ConnectionNotFound(s) => EditErrorV::ConnectionNotFound(s@),
            EditError::EndpointNotFound(s) => EditErrorV::EndpointNotFound(s@),
            EditError::OutOfBounds(x, y) => EditErrorV::OutOfBounds(*x, *y),
            EditError::InvalidOpacity(o) => EditErrorV::InvalidOpacity(*o),
        }
    }
}

/// The bits of a binary32 value from 0.0 to 1.0: the non-negative values up
/// to 1.0, whose order is that of their bits, and negative zero.
pub open spec fn unit_bits(b: u32) -> bool {
    b <= 0x3F80_0000u32 || b == 0x8000_0000u32
}

/// Some connection has this id.
pub open spec fn has_conn(cs: Seq<ConnV>, id: Seq<char>) -> bool {
    exists|i: int| 0 <= i < cs.len() && (#[trigger] cs[i]).id == id
}

/// The instance with layer `i` replaced.
pub open spec fn with_layer(s: InstV, i: int, l: LayerV) -> InstV {
    InstV { layers: s.layers.update(i, l), ..s }
}

/// The instance with block `j` of layer `i` replaced.
pub open spec fn with_block(s: InstV, i: int, j: int, b: BlockV) -> InstV {
    with_layer(s, i, LayerV { blocks: s.layers[i].blocks.update(j, b), ..s.layers[i] })
}

/// What an edit does to an instance, stamped `now` when accepted; or why it
/// is refused.
pub open spec fn apply_spec(s: InstV, op: EditOp, now: i64) -> Result<InstV, EditErrorV> {
    let r = match op {
        EditOp::PlaceBlock { layer, block } => {
            let b = block@;
            if !(b.pos.x < s.grid.width && b.pos.y < s.grid.height) {
                Err(EditErrorV::OutOfBounds(b.pos.x, b.pos.y))
            } else if has_block_in(s.layers, b.id) {
                Err(EditErrorV::BlockExists(b.id))
            } else {
                match layer_index(s.layers, layer@, 0) {
                    None => Err(EditErrorV::LayerNotFound(layer@)),
                    Some(i) => Ok(
                        with_layer(
                            s,
                            i,
                            LayerV { blocks: s.layers[i].blocks.push(b), ..s.layers[i] },
                        ),
                    ),
                }
            }
        },
        EditOp::MoveBlock { layer, block_id, to } => {
            if !(to.x < s.grid.width && to.y < s.grid.height) {
                Err(EditErrorV::OutOfBounds(to.x, to.y))
            } else {
                match layer_index(s.layers, layer@, 0) {
                    None => Err(EditErrorV::LayerNotFound(layer@)),
                    Some(i) => match block_index(s.layers[i].blocks, block_id@, 0) {
                        None => Err(EditErrorV::BlockNotFound(block_id@)),
                        Some(j) => Ok(
                            with_block(s, i, j, BlockV { pos: to, ..s.layers[i].blocks[j] }),
                        ),
                    },
                }
            }
        },
        EditOp::DeleteBlock { layer, block_id } => {
            match layer_index(s.layers, layer@, 0) {
                None => Err(EditErrorV::LayerNotFound(layer@)),
                Some(i) => if block_index(s.layers[i].blocks, block_id@, 0) is None {
                    Err(EditErrorV::BlockNotFound(block_id@))
                } else {
                    let t = with_layer(
                        s,
                        i,
                        LayerV {
                            blocks: keep_where(s.layers[i].blocks, |b: BlockV| b.id != block_id@),
                            ..s.layers[i]
                        },
                    );
                    Ok(
                        InstV {
                            connections: keep_where(
                                s.connections,
                                |c: ConnV| c.from != block_id@ && c.to != block_id@,
                            ),
                            ..t
                        },
                    )
                },
            }
        },
        EditOp::EditLayer { layer, visible, opacity, name } => {
            if opacity matches Some(o) && !unit_bits(o) {
                Err(EditErrorV::InvalidOpacity(opacity->0))
            } else {
                match layer_index(s.layers, layer@, 0) {
                    None => Err(EditErrorV::LayerNotFound(layer@)),
                    Some(i) => {
                        let l = s.layers[i];
                        Ok(
                            with_layer(
                                s,
                                i,
                                LayerV {
                                    visible: match visible {
                                        Some(v) => v,
                                        None => l.visible,
                                    },
                                    opacity: match opacity {
                                        Some(o) => o,
                                        None => l.opacity,
                                    },
                                    name: match name {
                                        Some(n) => n@,
                                        None => l.name,
                                    },
                                    ..l
                                },
                            ),
                        )
                    },
                }
            }
        },
        EditOp::AddLayer { layer } => {
            let l = layer@;
            if !unit_bits(l.opacity) {
                Err(EditErrorV::InvalidOpacity(l.opacity))
            } else if layer_index(s.layers, l.id, 0) is Some {
                Err(EditErrorV::LayerExists(l.id))
            } else {
                Ok(InstV { layers: s.layers.push(l), ..s })
            }
        },
        EditOp::AddConnection { connection } => {
            let c = connection@;
            if !has_block_in(s.layers, c.from) {
                Err(EditErrorV::EndpointNotFound(c.from))
            } else if !has_block_in(s.layers, c.to) {
                Err(EditErrorV::EndpointNotFound(c.to))
            } else if has_conn(s.connections, c.id) {
                Err(EditErrorV::ConnectionNotFound(c.id))
            } else {
                Ok(InstV { connections: s.connections.push(c), ..s })
            }
        },
        EditOp::DeleteConnection { connection_id } => {
            if !has_conn(s.connections, connection_id@) {
                Err(EditErrorV::ConnectionNotFound(connection_id@))
            } else {
                Ok(
                    InstV {
                        connections: keep_where(s.connections, |c: ConnV| c.id != connection_id@),
                        ..s
                    },
                )
            }
        },
        EditOp::AttachContent { layer, block_id, content } => {
            match layer_index(s.layers, layer@, 0) {
                None => Err(EditErrorV::LayerNotFound(layer@)),
                Some(i) => match block_index(s.layers[i].blocks, block_id@, 0) {
                    None => Err(EditErrorV::BlockNotFound(block_id@)),
                    Some(j) => {
                        let b = s.layers[i].blocks[j];
                        Ok(with_block(s, i, j, BlockV { attachments: b.attachments.push(content), ..b }))
                    },
                },
            }
        },
    };
    match r {
        Ok(t) => Ok(InstV { updated_at: now, ..t }),
        Err(e) => Err(e),
    }
}

proof fn lemma_layers_replace(s: Seq<Layer>, i: int, l: Layer)
    requires
        0 <= i < s.len(),
    ensures
        layers_view(s.remove(i).insert(i, l)) == layers_view(s).update(i, l@),
{
    assert(layers_view(s.remove(i).insert(i, l)) =~= layers_view(s).update(i, l@));
}

proof fn lemma_blocks_replace(s: Seq<Block>, i: int, b: Block)
    requires
        0 <= i < s.len(),
    ensures
        blocks_view(s.remove(i).insert(i, b)) == blocks_view(s).update(i, b@),
{
    assert(blocks_view(s.remove(i).insert(i, b)) =~= blocks_view(s).update(i, b@));
}

proof fn lemma_blocks_push(s: Seq<Block>, b: Block)
    ensures
        blocks_view(s.push(b)) == blocks_view(s).push(b@),
{
    assert(blocks_view(s.push(b)) =~= blocks_view(s).push(b@));
}

proof fn lemma_layers_push(s: Seq<Layer>, l: Layer)
    ensures
        layers_view(s.push(l)) == layers_view(s).push(l@),
{
    assert(layers_view(s.push(l)) =~= layers_view(s).push(l@));
}

proof fn lemma_conns_push(s: Seq<Connection>, c: Connection)
    ensures
        conns_view(s.push(c)) == conns_view(s).push(c@),
{
    assert(conns_view(s.push(c)) =~= conns_view(s).push(c@));
}

/// The position of the first block of the layer with this id.
fn block_position(l: &Layer, id: &str) -> (r: Option<usize>)
    ensures
        match r {
            Some(j) => block_index(l@.blocks, id@, 0) == Some(j as int) && j < l@.blocks.len(),
            None => block_index(l@.blocks, id@, 0) is None,
        },
{
    let n = l.blocks.len();
    let mut j: usize = 0;
    while j < n
        invariant
            n == l@.blocks.len(),
            j <= n,
            block_index(l@.blocks, id@, 0) == block_index(l@.blocks, id@, j as int),
        decreases n - j,
    {
        if str_eq(l.blocks[j].id.as_str(), id) {
            proof {
                lemma_block_index(l@.blocks, id@, 0);
            }
            return Some(j);
        }
        j = j + 1;
    }
    None
}

/// Whether some connection has this id.
fn has_connection(cs: &Vec<Connection>, id: &str) -> (r: bool)
    ensures
        r == has_conn(conns_view(cs@), id@),
{
    let n = cs.len();
    let mut i: usize = 0;
    while i < n
        invariant
            n == cs@.len(),
            i <= n,
            forall|k: int| 0 <= k < i ==> conns_view(cs@)[k].id != id@,
        decreases n - i,
    {
        if str_eq(cs[i].id.as_str(), id) {
            assert(conns_view(cs@)[i as int].id == id@);
            return true;
        }
        i = i + 1;
    }
    false
}

proof fn lemma_blocks_remove(s: Seq<Block>, i: int)
    requires
        0 <= i < s.len(),
    ensures
        blocks_view(s.remove(i)) == blocks_view(s).remove(i),
{
    assert(blocks_view(s.remove(i)) =~= blocks_view(s).remove(i));
}

proof fn lemma_conns_remove(s: Seq<Connection>, i: int)
    requires
        0 <= i < s.len(),
    ensures
        conns_view(s.remove(i)) == conns_view(s).remove(i),
{
    assert(conns_view(s.remove(i)) =~= conns_view(s).remove(i));
}

/// Removes every block with this id.
fn remove_blocks(v: &mut Vec<Block>, id: &str)
    ensures
        blocks_view(final(v)@) == keep_where(blocks_view(old(v)@), |b: BlockV| b.id != id@),
{
    let ghost o = blocks_view(v@);
    let ghost p = |b: BlockV| b.id != id@;
    let mut i: usize = 0;
    let ghost mut j: int = 0;
    while i < v.len()
        invariant
            o == blocks_view(old(v)@),
            p == (|b: BlockV| b.id != id@),
            0 <= j <= o.len(),
            i == keep_where(o.take(j), p).len(),
            blocks_view(v@) == keep_where(o.take(j), p) + o.skip(j),
        decreases v.len() - i,
    {
        proof {
            lemma_keep_step(o, p, j);
            assert(blocks_view(v@)[i as int] == o[j]);
        }
        if str_eq(v[i].id.as_str(), id) {
            proof {
                lemma_blocks_remove(v@, i as int);
                assert(keep_where(o.take(j), p) + o.skip(j + 1) =~= (keep_where(o.take(j), p)
                    + o.skip(j)).remove(i as int));
            }
            v.remove(i);
        } else {
            i = i + 1;
            proof {
                assert(keep_where(o.take(j + 1), p) + o.skip(j + 1) =~= keep_where(o.take(j), p)
                    + o.skip(j));
            }
        }
        proof {
            j = j + 1;
        }
    }
    assert(o.take(j) =~= o);
    assert(blocks_view(v@) =~= keep_where(o, p));
}

/// Removes every connection that touches block `id` (when `touching`), or
/// whose own id is `id` (otherwise).
fn remove_connections(v: &mut Vec<Connection>, id: &str, touching: bool)
    ensures
        conns_view(final(v)@) == keep_where(
            conns_view(old(v)@),
            if touching {
                |c: ConnV| c.from != id@ && c.to != id@
            } else {
                |c: ConnV| c.id != id@
            },
        ),
{
    let ghost o = conns_view(v@);
    let ghost p = if touching {
        |c: ConnV| c.from != id@ && c.to != id@
    } else {
        |c: ConnV| c.id != id@
    };
    let mut i: usize = 0;
    let ghost mut j: int = 0;
    while i < v.len()
        invariant
            o == conns_view(old(v)@),
            p == (if touching {
                |c: ConnV| c.from != id@ && c.to != id@
            } else {
                |c: ConnV| c.id != id@
            }),
            0 <= j <= o.len(),
            i == keep_where(o.take(j), p).len(),
            conns_view(v@) == keep_where(o.take(j), p) + o.skip(j),
        decreases v.len() - i,
    {
        proof {
            lemma_keep_step(o, p, j);
            assert(conns_view(v@)[i as int] == o[j]);
        }
        let drop = if touching {
            str_eq(v[i].from.as_str(), id) || str_eq(v[i].to.as_str(), id)
        } else {
            str_eq(v[i].id.as_str(), id)
        };
        if drop {
            proof {
                lemma_conns_remove(v@, i as int);
                assert(keep_where(o.take(j), p) + o.skip(j + 1) =~= (keep_where(o.take(j), p)
                    + o.skip(j)).remove(i as int));
            }
            v.remove(i);
        } else {
            i = i + 1;
            proof {
                assert(keep_where(o.take(j + 1), p) + o.skip(j + 1) =~= keep_where(o.take(j), p)
                    + o.skip(j));
            }
        }
        proof {
            j = j + 1;
        }
    }
    assert(o.take(j) =~= o);
    assert(conns_view(v@) =~= keep_where(o, p));
}

impl EditOp {
    /// Applies the edit (see [`apply_spec`]), stamping the instance with
    /// `now`; a refused edit leaves the instance as it was.
    pub fn apply(self, inst: &mut UniverseInstance, now: i64) -> (r: Result<(), EditError>)
        ensures
            match apply_spec(old(inst)@, self, now) {
                Ok(v) => r is Ok && final(inst)@ == v,
                Err(e) => r matches Err(x) && x@ == e && final(inst)@ == old(inst)@,
            },
    {
        let ghost s0 = inst@;
        match self {
            EditOp::PlaceBlock { layer, block } => {
                if !inst.grid.contains(block.pos) {
                    return Err(EditError::OutOfBounds(block.pos.x, block.pos.y));
                }
                if inst.has_block(block.id.as_str()) {
                    return Err(EditError::BlockExists(block.id));
                }
                let i = match inst.layer_position(layer.as_str()) {
                    None => {
                        return Err(EditError::LayerNotFound(layer));
                    },
                    Some(i) => i,
                };
                let mut l = inst.layers.remove(i);
                proof {
                    lemma_blocks_push(l.blocks@, block);
                }
                l.blocks.push(block);
                proof {
                    lemma_layers_replace(old(inst).layers@, i as int, l);
                }
                inst.layers.insert(i, l);
            },
            EditOp::MoveBlock { layer, block_id, to } => {
                if !inst.grid.contains(to) {
                    return Err(EditError::OutOfBounds(to.x, to.y));
                }
                let i = match inst.layer_position(layer.as_str()) {
                    None => {
                        return Err(EditError::LayerNotFound(layer));
                    },
                    Some(i) => i,
                };
                let j = match block_position(&inst.layers[i], block_id.as_str()) {
                    None => {
                        return Err(EditError::BlockNotFound(block_id));
                    },
                    Some(j) => j,
                };
                let mut l = inst.layers.remove(i);
                let mut b = l.blocks.remove(j);
                b.pos = to;
                proof {
                    lemma_blocks_replace(old(inst).layers@[i as int].blocks@, j as int, b);
                }
                l.blocks.insert(j, b);
                proof {
                    lemma_layers_replace(old(inst).layers@, i as int, l);
                }
                inst.layers.insert(i, l);
            },
            EditOp::DeleteBlock { layer, block_id } => {
                let i = match inst.layer_position(layer.as_str()) {
                    None => {
                        return Err(EditError::LayerNotFound(layer));
                    },
                    Some(i) => i,
                };
                if block_position(&inst.layers[i], block_id.as_str()).is_none() {
                    return Err(EditError::BlockNotFound(block_id));
                }
                let mut l = inst.layers.remove(i);
                remove_blocks(&mut l.blocks, block_id.as_str());
                proof {
                    lemma_layers_replace(old(inst).layers@, i as int, l);
                }
                inst.layers.insert(i, l);
                remove_connections(&mut inst.connections, block_id.as_str(), true);
            },
            EditOp::EditLayer { layer, visible, opacity, name } => {
                if let Some(o) = opacity {
                    if !(o <= 0x3F80_0000u32 || o == 0x8000_0000u32) {
                        return Err(EditError::InvalidOpacity(o));
                    }
                }
                let i = match inst.layer_position(layer.as_str()) {
                    None => {
                        return Err(EditError::LayerNotFound(layer));
                    },
                    Some(i) => i,
                };
                let mut l = inst.layers.remove(i);
                if let Some(v) = visible {
                    l.visible = v;
                }
                if let Some(o) = opacity {
                    l.opacity = o;
                }
                if let Some(n) = name {
                    l.name = n;
                }
                proof {
                    lemma_layers_replace(old(inst).layers@, i as int, l);
                }
                inst.layers.insert(i, l);
            },
            EditOp::AddLayer { layer } => {
                let o = layer.opacity;
                if !(o <= 0x3F80_0000u32 || o == 0x8000_0000u32) {
                    return Err(EditError::InvalidOpacity(o));
                }
                if inst.layer_position(layer.id.as_str()).is_some() {
                    return Err(EditError::LayerExists(layer.id));
                }
                proof {
                    lemma_layers_push(inst.layers@, layer);
                }
                inst.layers.push(layer);
            },
            EditOp::AddConnection { connection } => {
                if !inst.has_block(connection.from.as_str()) {
                    return Err(EditError::EndpointNotFound(connection.from));
                }
                if !inst.has_block(connection.to.as_str()) {
                    return Err(EditError::EndpointNotFound(connection.to));
                }
                if has_connection(&inst.connections, connection.id.as_str()) {
                    return Err(EditError::ConnectionNotFound(connection.id));
                }
                proof {
                    lemma_conns_push(inst.connections@, connection);
                }
                inst.connections.push(connection);
            },
            EditOp::DeleteConnection { connection_id } => {
                if !has_connection(&inst.connections, connection_id.as_str()) {
                    return Err(EditError::ConnectionNotFound(connection_id));
                }
                remove_connections(&mut inst.connections, connection_id.as_str(), false);
            },
            EditOp::AttachContent { layer, block_id, content } => {
                let i = match inst.layer_position(layer.as_str()) {
                    None => {
                        return Err(EditError::LayerNotFound(layer));
                    },
                    Some(i) => i,
                };
                let j = match block_position(&inst.layers[i], block_id.as_str()) {
                    None => {
                        return Err(EditError::BlockNotFound(block_id));
                    },
                    Some(j) => j,
                };
                let mut l = inst.layers.remove(i);
                let mut b = l.blocks.remove(j);
                b.attachments.push(content);
                proof {
                    lemma_blocks_replace(old(inst).layers@[i as int].blocks@, j as int, b);
                }
                l.blocks.insert(j, b);
                proof {
                    lemma_layers_replace(old(inst).layers@, i as int, l);
                }
                inst.layers.insert(i, l);
            },
        }
        inst.updated_at = now;
        Ok(())
    }
}

// ── Integrity ─────────────────────────────────────────────────────────────

/// A consistent instance: layer ids are unique and every connection joins
/// blocks that exist.
pub open spec fn inst_ok(s: InstV) -> bool {
    &&& forall|i: int, j: int|
        0 <= i < j < s.layers.len() ==> (#[trigger] s.layers[i]).id != (#[trigger] s.layers[j]).id
    &&& forall|k: int|
        0 <= k < s.connections.len() ==> has_block_in(s.layers, (#[trigger] s.connections[k]).from)
            && has_block_in(s.layers, s.connections[k].to)
}

/// Every block id of `a` is a block id of `b`.
spec fn blocks_kept(a: Seq<LayerV>, b: Seq<LayerV>) -> bool {
    forall|x: Seq<char>| has_block_in(a, x) ==> #[trigger] has_block_in(b, x)
}

/// Replacing a layer by one whose blocks have the same ids keeps the block ids.
proof fn lemma_same_block_ids(ls: Seq<LayerV>, i: int, l: LayerV)
    requires
        0 <= i < ls.len(),
        l.blocks.len() == ls[i].blocks.len(),
        forall|j: int| 0 <= j < l.blocks.len() ==> (#[trigger] l.blocks[j]).id == ls[i].blocks[j].id,
    ensures
        blocks_kept(ls, ls.update(i, l)),
{
    let n = ls.update(i, l);
    assert forall|x: Seq<char>| has_block_in(ls, x) implies #[trigger] has_block_in(n, x) by {
        let (a, b) = choose|a: int, b: int|
            0 <= a < ls.len() && 0 <= b < ls[a].blocks.len() && (#[trigger] ls[a].blocks[b]).id == x;
        assert(n[a].blocks[b].id == x);
    }
}

/// Every accepted edit keeps a consistent instance consistent: layer ids
/// stay unique, and no connection is left pointing at a block that is not
/// there (deleting a block removes the connections that touch it).
pub proof fn lemma_edit_keeps_inst_ok(s: InstV, op: EditOp, now: i64)
    requires
        inst_ok(s),
    ensures
        apply_spec(s, op, now) matches Ok(v) ==> inst_ok(v),
{
    if let Ok(v) = apply_spec(s, op, now) {
        match op {
            EditOp::PlaceBlock { layer, block } => {
                let i = layer_index(s.layers, layer@, 0)->0;
                crate::instance::schema::lemma_layer_index(s.layers, layer@, 0);
                let l = LayerV { blocks: s.layers[i].blocks.push(block@), ..s.layers[i] };
                assert forall|x: Seq<char>| has_block_in(s.layers, x) implies #[trigger] has_block_in(
                    v.layers,
                    x,
                ) by {
                    let (a, b) = choose|a: int, b: int|
                        0 <= a < s.layers.len() && 0 <= b < s.layers[a].blocks.len() && (
                        #[trigger] s.layers[a].blocks[b]).id == x;
                    assert(v.layers[a].blocks[b].id == x);
                }
                assert(blocks_kept(s.layers, v.layers));
            },
            EditOp::MoveBlock { layer, block_id, to } => {
                let i = layer_index(s.layers, layer@, 0)->0;
                crate::instance::schema::lemma_layer_index(s.layers, layer@, 0);
                let j = block_index(s.layers[i].blocks, block_id@, 0)->0;
                lemma_block_index(s.layers[i].blocks, block_id@, 0);
                let l = LayerV {
                    blocks: s.layers[i].blocks.update(j, BlockV { pos: to, ..s.layers[i].blocks[j] }),
                    ..s.layers[i]
                };
                lemma_same_block_ids(s.layers, i, l);
            },
            EditOp::DeleteBlock { layer, block_id } => {
                let i = layer_index(s.layers, layer@, 0)->0;
                crate::instance::schema::lemma_layer_index(s.layers, layer@, 0);
                let pb = |b: BlockV| b.id != block_id@;
                let pc = |c: ConnV| c.from != block_id@ && c.to != block_id@;
                lemma_keep_where_members(s.layers[i].blocks, pb);
                lemma_keep_where_members(s.connections, pc);
                assert forall|x: Seq<char>| has_block_in(s.layers, x) && x != block_id@ implies #[trigger] has_block_in(
                    v.layers,
                    x,
                ) by {
                    let (a, b) = choose|a: int, b: int|
                        0 <= a < s.layers.len() && 0 <= b < s.layers[a].blocks.len() && (
                        #[trigger] s.layers[a].blocks[b]).id == x;
                    if a == i {
                        let kb = keep_where(s.layers[i].blocks, pb);
                        assert(pb(s.layers[i].blocks[b]));
                        assert(kb.contains(s.layers[i].blocks[b]));
                        let c = choose|c: int| 0 <= c < kb.len() && kb[c] == s.layers[i].blocks[b];
                        assert(v.layers[a].blocks[c].id == x);
                    } else {
                        assert(v.layers[a].blocks[b].id == x);
                    }
                }
                assert forall|k: int| 0 <= k < v.connections.len() implies has_block_in(
                    v.layers,
                    (#[trigger] v.connections[k]).from,
                ) && has_block_in(v.layers, v.connections[k].to) by {
                    assert(drawn_from(s.connections, pc, v.connections[k]));
                    let m = choose|m: int|
                        0 <= m < s.connections.len() && s.connections[m] == v.connections[k] && pc(
                            v.connections[k],
                        );
                    assert(has_block_in(s.layers, s.connections[m].from));
                    assert(has_block_in(s.layers, s.connections[m].to));
                }
            },
            EditOp::EditLayer { layer, visible, opacity, name } => {
                let i = layer_index(s.layers, layer@, 0)->0;
                crate::instance::schema::lemma_layer_index(s.layers, layer@, 0);
                lemma_same_block_ids(s.layers, i, v.layers[i]);
            },
            EditOp::AddLayer { layer } => {
                crate::instance::schema::lemma_layer_index(s.layers, layer@.id, 0);
                assert forall|x: Seq<char>| has_block_in(s.layers, x) implies #[trigger] has_block_in(
                    v.layers,
                    x,
                ) by {
                    let (a, b) = choose|a: int, b: int|
                        0 <= a < s.layers.len() && 0 <= b < s.layers[a].blocks.len() && (
                        #[trigger] s.layers[a].blocks[b]).id == x;
                    assert(v.layers[a].blocks[b].id == x);
                }
                assert(blocks_kept(s.layers, v.layers));
            },
            EditOp::AddConnection { connection } => {},
            EditOp::DeleteConnection { connection_id } => {
                let pc = |c: ConnV| c.id != connection_id@;
                lemma_keep_where_members(s.connections, pc);
                assert forall|k: int| 0 <= k < v.connections.len() implies has_block_in(
                    v.layers,
                    (#[trigger] v.connections[k]).from,
                ) && has_block_in(v.layers, v.connections[k].to) by {
                    assert(drawn_from(s.connections, pc, v.connections[k]));
                    let m = choose|m: int|
                        0 <= m < s.connections.len() && s.connections[m] == v.connections[k] && pc(
                            v.connections[k],
                        );
                    assert(has_block_in(s.layers, s.connections[m].from));
                }
            },
            EditOp::AttachContent { layer, block_id, content } => {
                let i = layer_index(s.layers, layer@, 0)->0;
                crate::instance::schema::lemma_layer_index(s.layers, layer@, 0);
                let j = block_index(s.layers[i].blocks, block_id@, 0)->0;
                lemma_block_index(s.layers[i].blocks, block_id@, 0);
                lemma_same_block_ids(s.layers, i, v.layers[i]);
            },
        }
    }
}

} // verus!
