use grand_cross::actions::{payload_within_limit, BlockCoord, BlockId, ToolType, MAX_ACTION_PAYLOAD};

#[test]
fn rejects_oversized_payload() {
    let big = vec![0u8; 1025];
    assert!(!payload_within_limit(&big));
    assert!(payload_within_limit(&vec![0u8; MAX_ACTION_PAYLOAD]));
    assert!(payload_within_limit(&[]));
}

#[test]
fn block_coord_is_plain_data() {
    let c = BlockCoord { x: 1, y: -2, z: 3, block_id: BlockId::OreRift, tool: ToolType::Pickaxe };
    let d = c;
    assert_eq!(c, d);
    assert_ne!(BlockId::Unknown, BlockId::Stone);
}
