use ara::registry::{parse_hex_color, BlockDef, BlockRegistry, RegistryError};

fn unit_to_byte(v: f32) -> u8 {
    (v.clamp(0.0, 1.0) * 255.0) as u8
}

fn def(id: &str, name: &str, color: &str, roughness: f32, emission: f32, noise: f32) -> BlockDef {
    BlockDef {
        id: id.to_string(),
        name: name.to_string(),
        color: color.to_string(),
        roughness: unit_to_byte(roughness),
        emission: unit_to_byte(emission),
        noise: unit_to_byte(noise),
        metallic: unit_to_byte(0.0),
    }
}

/// The three blocks of the TOML test fixture, with its defaults filled in
/// (roughness 0.9, emission 0, noise 0, metallic 0).
fn test_blocks() -> Vec<BlockDef> {
    vec![
        def("game:stone", "Stone", "#808080", 0.9, 0.0, 0.0),
        def("game:dirt", "Dirt", "#8B4513", 0.95, 0.0, 0.3),
        def("game:lava", "Lava", "#FF4500", 0.9, 1.0, 0.0),
    ]
}

#[test]
fn load_blocks() {
    let mut reg = BlockRegistry::new();
    reg.load_blocks(test_blocks()).unwrap();

    assert_eq!(reg.block_count(), 4);
    assert_eq!(reg.get_id("engine:air"), Some(0));
    assert_eq!(reg.get_id("game:stone"), Some(1));
    assert_eq!(reg.get_id("game:dirt"), Some(2));
    assert_eq!(reg.get_id("game:lava"), Some(3));
    assert_eq!(reg.get_id("game:missing"), None);
}

#[test]
fn block_name_lookup() {
    let mut reg = BlockRegistry::new();
    reg.load_blocks(test_blocks()).unwrap();
    assert_eq!(reg.get_block_name(0), Some("Air"));
    assert_eq!(reg.get_block_name(1), Some("Stone"));
    assert_eq!(reg.get_block_name(2), Some("Dirt"));
    assert_eq!(reg.get_block_name(3), Some("Lava"));
    assert_eq!(reg.get_block_name(99), None);
}

#[test]
fn duplicate_id_rejected() {
    let mut reg = BlockRegistry::new();
    let dupe = vec![
        def("game:stone", "Stone", "#808080", 0.9, 0.0, 0.0),
        def("game:stone", "Stone Again", "#808080", 0.9, 0.0, 0.0),
    ];
    assert!(reg.load_blocks(dupe).is_err());
}

#[test]
fn duplicate_keeps_earlier_blocks() {
    let mut reg = BlockRegistry::new();
    let batch = vec![
        def("game:a", "A", "#010203", 0.0, 0.0, 0.0),
        def("game:a", "A2", "#010203", 0.0, 0.0, 0.0),
        def("game:b", "B", "#010203", 0.0, 0.0, 0.0),
    ];
    match reg.load_blocks(batch) {
        Err(RegistryError::DuplicateId(id)) => assert_eq!(id, "game:a"),
        Ok(()) => panic!("duplicate accepted"),
    }
    assert_eq!(reg.block_count(), 2);
    assert_eq!(reg.get_id("game:b"), None);
    assert!(matches!(reg.register_block(def("engine:air", "x", "#000000", 0.0, 0.0, 0.0)), Err(_)));
    assert_eq!(reg.register_block(def("game:b", "B", "#010203", 0.0, 0.0, 0.0)).unwrap(), 2);
}

#[test]
fn hex_parsing() {
    assert_eq!(parse_hex_color("#FF0000"), [255, 0, 0]);
    assert_eq!(parse_hex_color("#00FF00"), [0, 255, 0]);
    assert_eq!(parse_hex_color("#0000FF"), [0, 0, 255]);
    assert_eq!(parse_hex_color("#808080"), [128, 128, 128]);
    assert_eq!(parse_hex_color("AABBCC"), [170, 187, 204]);
}

#[test]
fn hex_parsing_fallbacks() {
    assert_eq!(parse_hex_color("#12345"), [255, 0, 255]);
    assert_eq!(parse_hex_color(""), [255, 0, 255]);
    assert_eq!(parse_hex_color("#11223344"), [0x11, 0x22, 0x33]);
    assert_eq!(parse_hex_color("#zz00zz"), [255, 0, 255]);
    assert_eq!(parse_hex_color("#10zz10"), [0x10, 0, 0x10]);
    assert_eq!(parse_hex_color("#abcdef"), [0xab, 0xcd, 0xef]);
    // A leading plus sign is accepted per channel, as integer parsing does.
    assert_eq!(parse_hex_color("+F+F+F"), [15, 15, 15]);
}

#[test]
fn texture_data_size() {
    let mut reg = BlockRegistry::new();
    reg.load_blocks(test_blocks()).unwrap();
    let data = reg.generate_texture_data();
    assert_eq!(data.len(), 256 * 256 * 4 * 2);
}

#[test]
fn texture_air_is_zero() {
    let reg = BlockRegistry::new();
    let data = reg.generate_texture_data();
    assert_eq!(&data[0..4], &[0, 0, 0, 0]);
    let l1 = 256 * 256 * 4;
    assert_eq!(&data[l1..l1 + 4], &[0, 0, 0, 0]);
}

#[test]
fn texture_stone_color() {
    let mut reg = BlockRegistry::new();
    reg.load_blocks(test_blocks()).unwrap();
    let data = reg.generate_texture_data();
    assert_eq!(data[4], 0x80);
    assert_eq!(data[5], 0x80);
    assert_eq!(data[6], 0x80);
    assert_eq!(data[7], 255);
}

#[test]
fn texture_material_layer_and_unused_slots() {
    let mut reg = BlockRegistry::new();
    reg.load_blocks(test_blocks()).unwrap();
    let data = reg.generate_texture_data();
    let l1 = 256 * 256 * 4;
    // Dirt (index 2): roughness 0.95 -> 242, noise 0.3 -> 76.
    assert_eq!(&data[l1 + 8..l1 + 12], &[242, 0, 76, 0]);
    // Lava (index 3): emission 1.0 -> 255.
    assert_eq!(&data[l1 + 12..l1 + 16], &[229, 255, 0, 0]);
    // First unused slot is magenta on layer 0 and zero on layer 1.
    assert_eq!(&data[16..20], &[255, 0, 255, 255]);
    assert_eq!(&data[l1 + 16..l1 + 20], &[0, 0, 0, 0]);
    // Lava color.
    assert_eq!(&data[12..16], &[0xFF, 0x45, 0x00, 255]);
}

#[test]
fn get_block_returns_definition() {
    let mut reg = BlockRegistry::new();
    reg.load_blocks(test_blocks()).unwrap();
    assert_eq!(reg.get_block(2).map(|b| b.color.clone()), Some("#8B4513".to_string()));
    assert!(reg.get_block(4).is_none());
}

#[test]
fn already_registered_id_stops_second_load() {
    let mut reg = BlockRegistry::new();
    reg.load_blocks(test_blocks()).unwrap();
    let again = vec![
        def("game:new", "New", "#000001", 0.0, 0.0, 0.0),
        def("game:dirt", "Dirt Again", "#000002", 0.0, 0.0, 0.0),
    ];
    match reg.load_blocks(again) {
        Err(RegistryError::DuplicateId(id)) => assert_eq!(id, "game:dirt"),
        Ok(()) => panic!("expected a duplicate"),
    }
    // Blocks registered before keep their index; the one before the
    // duplicate stays registered after them.
    assert_eq!(reg.get_id("game:dirt"), Some(2));
    assert_eq!(reg.get_id("game:new"), Some(4));
    assert_eq!(reg.block_count(), 5);
}
