//! Superblock detection on constructed filesystem images.

use provisioning::superblock::{
    Btrfs, Error, Ext4, Kind, Luks2, Luks2Config, Luks2ConfigData, Luks2Kdf, Luks2Keyslot,
    Luks2KeyslotArea, Superblock, BTRFS_MAGIC_OFFSET, BTRFS_OFFSET, BTRFS_SIZE, EXT4_MAGIC_OFFSET,
    F2FS_OFFSET, XFS,
};

fn uuid_bytes(uuid: &str) -> Vec<u8> {
    let hex: Vec<u8> = uuid.bytes().filter(|b| *b != b'-').collect();
    assert_eq!(hex.len(), 32);
    hex.chunks(2)
        .map(|pair| {
            let hi = (pair[0] as char).to_digit(16).unwrap() as u8;
            let lo = (pair[1] as char).to_digit(16).unwrap() as u8;
            hi * 16 + lo
        })
        .collect()
}

fn ext4_image(uuid: &str, label: &str) -> Vec<u8> {
    let mut img = vec![0u8; 2048];
    img[EXT4_MAGIC_OFFSET] = 0x53;
    img[EXT4_MAGIC_OFFSET + 1] = 0xEF;
    img[1128..1144].copy_from_slice(&uuid_bytes(uuid));
    let lab = label.as_bytes();
    img[1144..1144 + lab.len()].copy_from_slice(lab);
    img
}

fn btrfs_image(uuid: &str, label: &str) -> Vec<u8> {
    let mut img = vec![0u8; BTRFS_OFFSET + BTRFS_SIZE];
    let magic: u64 = 0x4D5F53665248425F;
    img[BTRFS_MAGIC_OFFSET..BTRFS_MAGIC_OFFSET + 8].copy_from_slice(&magic.to_le_bytes());
    img[65568..65584].copy_from_slice(&uuid_bytes(uuid));
    let lab = label.as_bytes();
    img[65835..65835 + lab.len()].copy_from_slice(lab);
    img
}

fn f2fs_image(uuid: &str, label: &str) -> Vec<u8> {
    let mut img = vec![0u8; 4096];
    img[F2FS_OFFSET..F2FS_OFFSET + 4].copy_from_slice(&0xF2F52010u32.to_le_bytes());
    img[1132..1148].copy_from_slice(&uuid_bytes(uuid));
    for (i, unit) in label.encode_utf16().enumerate() {
        let off = 1148 + 2 * i;
        img[off..off + 2].copy_from_slice(&unit.to_le_bytes());
    }
    img
}

fn xfs_image(uuid: &str, label: &str) -> Vec<u8> {
    let mut img = vec![0u8; 264];
    img[0..4].copy_from_slice(&0x58465342u32.to_be_bytes());
    img[32..48].copy_from_slice(&uuid_bytes(uuid));
    let lab = label.as_bytes();
    img[108..108 + lab.len()].copy_from_slice(lab);
    img
}

fn luks2_image(uuid: &str, json: &str) -> Vec<u8> {
    let json_area = json.len() + 32; // NUL padding after the text
    let mut img = vec![0u8; 4096 + json_area];
    img[0..6].copy_from_slice(&[b'L', b'U', b'K', b'S', 0xBA, 0xBE]);
    img[6..8].copy_from_slice(&2u16.to_be_bytes());
    let hdr_size: u64 = 4096 + json_area as u64;
    img[8..16].copy_from_slice(&hdr_size.to_be_bytes());
    let ub = uuid.as_bytes();
    img[168..168 + ub.len()].copy_from_slice(ub);
    img[4096..4096 + json.len()].copy_from_slice(json.as_bytes());
    img
}

#[test]
fn detect_ext4_fields() {
    let img = ext4_image("731af94c-9990-4eed-944d-5d230dbe8a0d", "blsforme testing");
    let sb = Ext4::detect(&img).unwrap().unwrap();
    assert_eq!(sb.uuid().unwrap(), "731af94c-9990-4eed-944d-5d230dbe8a0d");
    assert_eq!(sb.label().unwrap(), "blsforme testing");
}

#[test]
fn detect_btrfs_fields() {
    let img = btrfs_image("829d6a03-96a5-4749-9ea2-dbb6e59368b2", "blsforme testing");
    let sb = Btrfs::detect(&img).unwrap().unwrap();
    assert_eq!(sb.uuid().unwrap(), "829d6a03-96a5-4749-9ea2-dbb6e59368b2");
    assert_eq!(sb.label().unwrap(), "blsforme testing");
}

#[test]
fn detect_each_kind() {
    let cases: Vec<(Vec<u8>, Kind, &str, &str)> = vec![
        (
            btrfs_image("829d6a03-96a5-4749-9ea2-dbb6e59368b2", "blsforme testing"),
            Kind::Btrfs,
            "blsforme testing",
            "829d6a03-96a5-4749-9ea2-dbb6e59368b2",
        ),
        (
            ext4_image("731af94c-9990-4eed-944d-5d230dbe8a0d", "blsforme testing"),
            Kind::Ext4,
            "blsforme testing",
            "731af94c-9990-4eed-944d-5d230dbe8a0d",
        ),
        (
            f2fs_image("d2c85810-4e75-4274-bc7d-a78267af7443", "blsforme testing"),
            Kind::F2FS,
            "blsforme testing",
            "d2c85810-4e75-4274-bc7d-a78267af7443",
        ),
        (
            luks2_image("be373cae-2bd1-4ad5-953f-3463b2e53e59", "{}"),
            Kind::LUKS2,
            "",
            "be373cae-2bd1-4ad5-953f-3463b2e53e59",
        ),
        (
            xfs_image("45e8a3bf-8114-400f-95b0-380d0fb7d42d", "BLSFORME"),
            Kind::XFS,
            "BLSFORME",
            "45e8a3bf-8114-400f-95b0-380d0fb7d42d",
        ),
    ];
    for (mut img, kind, label, uuid) in cases {
        // every probe must find enough bytes, as with a real device read
        img.resize(BTRFS_OFFSET + BTRFS_SIZE, 0);
        let block = Superblock::from_bytes(&img).expect("no superblock matched");
        assert_eq!(block.kind(), kind);
        assert_eq!(block.label().unwrap(), label);
        assert_eq!(block.uuid().unwrap(), uuid);

        // parsing the same image twice yields the same fields
        let again = Superblock::from_bytes(&img).expect("no superblock matched");
        assert_eq!(again.kind(), kind);
        assert_eq!(again.label().unwrap(), label);
        assert_eq!(again.uuid().unwrap(), uuid);
    }
}

#[test]
fn unknown_superblock_is_reported() {
    let img = vec![0u8; BTRFS_OFFSET + BTRFS_SIZE];
    assert!(matches!(
        Superblock::from_bytes(&img),
        Err(Error::UnknownSuperblock)
    ));
}

#[test]
fn short_image_is_reported() {
    let img = vec![0u8; 512];
    assert!(matches!(Superblock::from_bytes(&img), Err(Error::ShortRead)));
}

#[test]
fn luks2_header_fields() {
    let json = "{\"config\":{\"json_size\":\"12288\",\"keyslots_size\":\"131072\"},\"keyslots\":{\"0\":{\"type\":\"luks2\",\"key_size\":64,\"area\":{\"type\":\"raw\",\"offset\":\"32768\",\"size\":\"131072\",\"encryption\":\"aes-xts-plain64\",\"key_size\":64},\"kdf\":{\"type\":\"argon2id\",\"salt\":\"x\"}}},\"segments\":{}}";
    let img = luks2_image("be373cae-2bd1-4ad5-953f-3463b2e53e59", json);
    let sb = Luks2::detect(&img).unwrap().unwrap();
    assert_eq!(sb.version, 2);
    assert_eq!(sb.uuid().unwrap(), "be373cae-2bd1-4ad5-953f-3463b2e53e59");
    assert_eq!(sb.label().unwrap(), "");

    // frame the JSON configuration and inspect it
    let text = sb.json_config_text(&img).unwrap();
    let value: serde_json::Value = serde_json::from_str(&text).unwrap();
    let config = value.get("config").unwrap();
    let json_size: u64 = config
        .get("json_size")
        .unwrap()
        .as_str()
        .unwrap()
        .parse()
        .unwrap();
    let keyslots_size: u64 = config
        .get("keyslots_size")
        .unwrap()
        .as_str()
        .unwrap()
        .parse()
        .unwrap();
    assert!(json_size > 0);
    assert!(keyslots_size > 0);
    let keyslot = value.get("keyslots").unwrap().get("0").unwrap();
    assert_eq!(
        keyslot.get("area").unwrap().get("encryption").unwrap(),
        "aes-xts-plain64"
    );
}

#[test]
fn luks2_bad_header_size_is_invalid() {
    let img = luks2_image("be373cae-2bd1-4ad5-953f-3463b2e53e59", "{}");
    let mut sb = Luks2::detect(&img).unwrap().unwrap();
    sb.hdr_size = 100; // smaller than the binary header
    assert!(matches!(
        sb.json_config_text(&img),
        Err(Error::InvalidSuperblock)
    ));
    sb.hdr_size = 1 << 40; // larger than the image
    assert!(matches!(
        sb.json_config_text(&img),
        Err(Error::InvalidSuperblock)
    ));
}

#[test]
fn invalid_utf8_label_is_a_decode_error() {
    let mut img = ext4_image("731af94c-9990-4eed-944d-5d230dbe8a0d", "ok");
    img[1144] = 0xFF; // not valid UTF-8
    let sb = Ext4::detect(&img).unwrap().unwrap();
    assert!(matches!(sb.label(), Err(Error::Utf8Decoding)));
}

#[test]
fn multibyte_labels_decode_as_text() {
    // a label with a two-byte encoded character: five bytes, four
    // characters once decoded
    let img = ext4_image("731af94c-9990-4eed-944d-5d230dbe8a0d", "caf\u{e9}0123456789");
    let sb = Ext4::detect(&img).unwrap().unwrap();
    let label = sb.label().unwrap();
    assert_eq!(label.chars().count(), 15);
    assert!(label.starts_with("caf\u{e9}"));

    // a supplementary-plane character crosses a UTF-16 surrogate pair
    let img = f2fs_image("d2c85810-4e75-4274-bc7d-a78267af7443", "\u{1F980} disk");
    let sb = provisioning::superblock::F2FS::detect(&img).unwrap().unwrap();
    assert_eq!(sb.label().unwrap(), "\u{1F980} disk");
}

#[test]
fn lone_surrogate_label_is_a_utf16_error() {
    let mut img = f2fs_image("d2c85810-4e75-4274-bc7d-a78267af7443", "ok");
    // overwrite the first unit with an unpaired high surrogate
    img[1148..1150].copy_from_slice(&0xD800u16.to_le_bytes());
    let sb = provisioning::superblock::F2FS::detect(&img).unwrap().unwrap();
    assert!(matches!(sb.label(), Err(Error::Utf16Decoding)));
}

#[test]
fn xfs_label_is_nul_trimmed() {
    let img = xfs_image("45e8a3bf-8114-400f-95b0-380d0fb7d42d", "AB");
    let sb = XFS::detect(&img).unwrap().unwrap();
    assert_eq!(sb.label().unwrap(), "AB");
}

#[test]
fn luks2_config_model_lookup() {
    let config = Luks2Config {
        config: Luks2ConfigData {
            json_size: 12288,
            keyslots_size: 131072,
            flags: Vec::new(),
            requirements: Vec::new(),
        },
        keyslots: vec![(
            0,
            Luks2Keyslot {
                slot_type: "luks2".to_owned(),
                key_size: 64,
                area: Luks2KeyslotArea {
                    area_type: "raw".to_owned(),
                    offset: 32768,
                    size: 131072,
                    encryption: "aes-xts-plain64".to_owned(),
                    key_size: 64,
                },
                kdf: Luks2Kdf {
                    kdf_type: "argon2id".to_owned(),
                    salt: "x".to_owned(),
                    hash: None,
                    iterations: None,
                    time: Some(4),
                    memory: Some(1048576),
                    cpus: Some(2),
                },
            },
        )],
        segments: Vec::new(),
    };
    let slot = config.keyslot(0).expect("keyslot 0 exists");
    assert_eq!(slot.area.encryption, "aes-xts-plain64");
    assert!(config.keyslot(1).is_none());
    assert!(config.segment(0).is_none());
}

#[test]
fn kind_names() {
    assert_eq!(Kind::Btrfs.as_str(), "btrfs");
    assert_eq!(Kind::Ext4.as_str(), "ext4");
    assert_eq!(Kind::LUKS2.as_str(), "luks2");
    assert_eq!(Kind::F2FS.as_str(), "f2fs");
    assert_eq!(Kind::XFS.as_str(), "xfs");
}
