use yggdrasil::instance::edit::{EditError, EditOp};
use yggdrasil::instance::schema::{
    Block, Cell, Connection, ContentRef, AttachmentKind, GridSpec, Layer, Projection, UniverseInstance,
};

fn base() -> UniverseInstance {
    UniverseInstance::empty("inst", "owner", "T", 0)
}

fn block(id: &str, x: u32, y: u32) -> Block {
    Block {
        id: id.to_string(),
        block_type: "landmark".to_string(),
        pos: Cell { x, y },
        label: None,
        attachments: vec![],
        props: Default::default(),
    }
}

#[test]
fn place_block_ok() {
    let mut inst = base();
    EditOp::PlaceBlock {
        layer: "base".to_string(),
        block: block("a", 1, 1),
    }
    .apply(&mut inst, 1)
    .unwrap();
    assert!(inst.has_block("a"));
}

#[test]
fn place_block_fora_dos_limites() {
    let mut inst = base();
    inst.grid = GridSpec {
        width: 5,
        height: 5,
        cell_size: 16,
    };
    let err = EditOp::PlaceBlock {
        layer: "base".to_string(),
        block: block("a", 99, 0),
    }
    .apply(&mut inst, 1)
    .unwrap_err();
    assert_eq!(err, EditError::OutOfBounds(99, 0));
}

#[test]
fn place_block_camada_inexistente() {
    let mut inst = base();
    let err = EditOp::PlaceBlock {
        layer: "fantasma".to_string(),
        block: block("a", 1, 1),
    }
    .apply(&mut inst, 1)
    .unwrap_err();
    assert_eq!(err, EditError::LayerNotFound("fantasma".to_string()));
}

#[test]
fn place_block_duplicado() {
    let mut inst = base();
    EditOp::PlaceBlock {
        layer: "base".to_string(),
        block: block("a", 1, 1),
    }
    .apply(&mut inst, 1)
    .unwrap();
    let err = EditOp::PlaceBlock {
        layer: "base".to_string(),
        block: block("a", 2, 2),
    }
    .apply(&mut inst, 1)
    .unwrap_err();
    assert_eq!(err, EditError::BlockExists("a".to_string()));
}

#[test]
fn add_connection_endpoint_inexistente() {
    let mut inst = base();
    EditOp::PlaceBlock {
        layer: "base".to_string(),
        block: block("a", 1, 1),
    }
    .apply(&mut inst, 1)
    .unwrap();
    let err = EditOp::AddConnection {
        connection: Connection {
            id: "c1".to_string(),
            from: "a".to_string(),
            to: "inexistente".to_string(),
            label: None,
            directed: false,
            props: Default::default(),
        },
    }
    .apply(&mut inst, 1)
    .unwrap_err();
    assert_eq!(err, EditError::EndpointNotFound("inexistente".to_string()));
}

#[test]
fn delete_block_remove_conexoes_orfas() {
    let mut inst = base();
    for b in ["a", "b"] {
        EditOp::PlaceBlock {
            layer: "base".to_string(),
            block: block(b, 1, 1),
        }
        .apply(&mut inst, 1)
        .unwrap();
    }
    // segundo bloco em outra célula para não duplicar pos (não validado, mas limpo)
    inst.layers[0].blocks[1].pos = Cell { x: 2, y: 2 };
    EditOp::AddConnection {
        connection: Connection {
            id: "c1".to_string(),
            from: "a".to_string(),
            to: "b".to_string(),
            label: None,
            directed: false,
            props: Default::default(),
        },
    }
    .apply(&mut inst, 1)
    .unwrap();
    EditOp::DeleteBlock {
        layer: "base".to_string(),
        block_id: "a".to_string(),
    }
    .apply(&mut inst, 1)
    .unwrap();
    assert!(inst.connections.is_empty(), "conexão órfã deve sumir");
}

#[test]
fn edit_layer_opacity_invalida() {
    let mut inst = base();
    let err = EditOp::EditLayer {
        layer: "base".to_string(),
        visible: None,
        opacity: Some(1.5f32.to_bits()),
        name: None,
    }
    .apply(&mut inst, 1)
    .unwrap_err();
    assert_eq!(err, EditError::InvalidOpacity(1.5f32.to_bits()));
}

#[test]
fn edit_layer_opacity_persiste() {
    let mut inst = base();
    EditOp::EditLayer {
        layer: "base".to_string(),
        visible: Some(false),
        opacity: Some(0.3f32.to_bits()),
        name: None,
    }
    .apply(&mut inst, 1)
    .unwrap();
    let l = inst.layer("base").unwrap();
    assert_eq!(f32::from_bits(l.opacity), 0.3);
    assert!(!l.visible);
}


#[test]
fn _projection_referenciada() {
    // garante import usado mesmo sem teste dedicado de projeção aqui
    let _ = Projection::Isometric;
}

#[test]
fn instancia_vazia_tem_camada_base() {
    let inst = base();
    assert_eq!(inst.layers.len(), 1);
    assert_eq!(inst.layers[0].id, "base");
    assert_eq!(f32::from_bits(inst.layers[0].opacity), 1.0);
    assert_eq!(inst.grid, GridSpec { width: 40, height: 20, cell_size: 16 });
    assert_eq!(inst.projection, Projection::TwoDGrid);
}

#[test]
fn edicao_aceita_marca_updated_at_e_recusada_nao_muda_nada() {
    let mut inst = base();
    EditOp::PlaceBlock { layer: "base".to_string(), block: block("a", 1, 1) }
        .apply(&mut inst, 42)
        .unwrap();
    assert_eq!(inst.updated_at, 42);
    let before = inst.clone();
    let err = EditOp::MoveBlock { layer: "base".to_string(), block_id: "zz".to_string(), to: Cell { x: 0, y: 0 } }
        .apply(&mut inst, 99)
        .unwrap_err();
    assert_eq!(err, EditError::BlockNotFound("zz".to_string()));
    assert_eq!(inst, before);
}

#[test]
fn move_block_e_attach_content() {
    let mut inst = base();
    EditOp::PlaceBlock { layer: "base".to_string(), block: block("a", 1, 1) }
        .apply(&mut inst, 1)
        .unwrap();
    EditOp::MoveBlock { layer: "base".to_string(), block_id: "a".to_string(), to: Cell { x: 3, y: 4 } }
        .apply(&mut inst, 2)
        .unwrap();
    assert_eq!(inst.layers[0].blocks[0].pos, Cell { x: 3, y: 4 });
    let c = ContentRef {
        kind: AttachmentKind::Pdf,
        hash: "ab".to_string(),
        filename: "a.pdf".to_string(),
        mime: "application/pdf".to_string(),
        size: 3,
    };
    EditOp::AttachContent { layer: "base".to_string(), block_id: "a".to_string(), content: c.clone() }
        .apply(&mut inst, 3)
        .unwrap();
    assert_eq!(inst.layers[0].blocks[0].attachments, vec![c]);
}

#[test]
fn add_layer_duplicada_e_opacidade_negativa() {
    let mut inst = base();
    let err = EditOp::AddLayer { layer: Layer::blocks("base", "Outra") }.apply(&mut inst, 1).unwrap_err();
    assert_eq!(err, EditError::LayerExists("base".to_string()));
    let err = EditOp::AddLayer { layer: Layer::background("bg", "Fundo", (-0.5f32).to_bits(), None) }
        .apply(&mut inst, 1)
        .unwrap_err();
    assert_eq!(err, EditError::InvalidOpacity((-0.5f32).to_bits()));
    EditOp::AddLayer { layer: Layer::background("bg", "Fundo", 0.0f32.to_bits(), None) }
        .apply(&mut inst, 1)
        .unwrap();
    assert_eq!(inst.layers.len(), 2);
    assert!(inst.layer("bg").is_some());
}

#[test]
fn add_connection_id_repetido_e_delete_connection() {
    let mut inst = base();
    for b in ["a", "b"] {
        EditOp::PlaceBlock { layer: "base".to_string(), block: block(b, 1, 1) }
            .apply(&mut inst, 1)
            .unwrap();
    }
    let conn = |id: &str| Connection {
        id: id.to_string(),
        from: "a".to_string(),
        to: "b".to_string(),
        label: None,
        directed: true,
        props: Default::default(),
    };
    EditOp::AddConnection { connection: conn("c1") }.apply(&mut inst, 1).unwrap();
    let err = EditOp::AddConnection { connection: conn("c1") }.apply(&mut inst, 1).unwrap_err();
    assert_eq!(err, EditError::ConnectionNotFound("c1".to_string()));
    EditOp::DeleteConnection { connection_id: "c1".to_string() }.apply(&mut inst, 1).unwrap();
    assert!(inst.connections.is_empty());
    let err = EditOp::DeleteConnection { connection_id: "c1".to_string() }.apply(&mut inst, 1).unwrap_err();
    assert_eq!(err, EditError::ConnectionNotFound("c1".to_string()));
}
