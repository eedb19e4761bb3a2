//! Filesystem superblock detection: magic-probe a byte image, parse the
//! matching filesystem's fixed-layout superblock, and expose its kind,
//! UUID and label.
//!
//! All probes work on an in-memory prefix of the device; reading the
//! bytes from a device belongs to the caller.

use vstd::prelude::*;

use crate::encoding::{
    bytes_at, read_u16_be, read_u16_le, read_u32_le, read_u64_be, read_u64_le, spec_trim_trailing,
    spec_u16_be, spec_u16_le, spec_u32_le, spec_u64_be, spec_u64_le, spec_uuid_hyphenated,
    trim_trailing, utf8_to_string, uuid_hyphenated,
};

verus! {

/// Errors that can occur when reading superblocks.
#[derive(Debug, Clone, Copy, PartialEq, Eq, Structural)]
pub enum Error {
    /// No known filesystem superblock was detected.
    UnknownSuperblock,
    /// A structurally invalid superblock (a LUKS2 header whose declared
    /// size cannot hold its configuration).
    InvalidSuperblock,
    /// A text field was not valid UTF-8.
    Utf8Decoding,
    /// A text field was not valid UTF-16.
    Utf16Decoding,
    /// The image ends before the probed structure does.
    ShortRead,
}

/// Supported filesystem kinds.
#[derive(Debug, Clone, Copy, PartialEq, Eq, Structural)]
pub enum Kind {
    /// Btrfs filesystem.
    Btrfs,
    /// Ext4 filesystem.
    Ext4,
    /// LUKS2 encrypted container.
    LUKS2,
    /// F2FS (Flash-Friendly File System).
    F2FS,
    /// XFS filesystem.
    XFS,
}

impl Kind {
    /// The kind's conventional lowercase name.
    pub fn as_str(&self) -> (r: &'static str)
        ensures
            r@ == match self {
                Kind::Btrfs => "btrfs"@,
                Kind::Ext4 => "ext4"@,
                Kind::LUKS2 => "luks2"@,
                Kind::F2FS => "f2fs"@,
                Kind::XFS => "xfs"@,
            },
    {
        match self {
            Kind::Btrfs => "btrfs",
            Kind::Ext4 => "ext4",
            Kind::LUKS2 => "luks2",
            Kind::F2FS => "f2fs",
            Kind::XFS => "xfs",
        }
    }
}

/// Byte offset of the BTRFS superblock.
pub const BTRFS_OFFSET: usize = 65536;

/// Byte offset of the BTRFS magic within the image.
pub const BTRFS_MAGIC_OFFSET: usize = 65600;

/// The BTRFS magic, little-endian (the bytes `_BHRfS_M`).
pub const BTRFS_MAGIC: u64 = 0x4D5F53665248425F;

/// Byte size of the BTRFS superblock structure this crate reads.
pub const BTRFS_SIZE: usize = 2931;

/// Does the image carry the BTRFS magic (which needs 65608 readable
/// bytes)?
pub open spec fn btrfs_magic_ok(s: Seq<u8>) -> bool {
    s.len() >= BTRFS_MAGIC_OFFSET + 8 && spec_u64_le(s, BTRFS_MAGIC_OFFSET as int)
        == BTRFS_MAGIC
}

/// The BTRFS superblock: filesystem identifier and volume label, read
/// endian-correctly from the on-disk structure.
#[derive(Debug)]
pub struct Btrfs {
    /// Filesystem UUID (16 bytes).
    pub fsid: Vec<u8>,
    /// Volume label (256 bytes, NUL-padded UTF-8).
    pub label: Vec<u8>,
}

impl Btrfs {
    pub open spec fn wf(self) -> bool {
        self.fsid@.len() == 16 && self.label@.len() == 256
    }

    /// Probe for a BTRFS superblock: read the magic, and on a match parse
    /// the structure. A mismatch is `Ok(None)`; an image too short for
    /// either read is `ShortRead`.
    pub fn detect(data: &[u8]) -> (r: Result<Option<Btrfs>, Error>)
        ensures
            data@.len() < BTRFS_MAGIC_OFFSET + 8 ==> r == Err::<Option<Btrfs>, Error>(
                Error::ShortRead,
            ),
            data@.len() >= BTRFS_MAGIC_OFFSET + 8 && !btrfs_magic_ok(data@) ==> r == Ok::<
                Option<Btrfs>,
                Error,
            >(None),
            btrfs_magic_ok(data@) && data@.len() < BTRFS_OFFSET + BTRFS_SIZE ==> r == Err::<
                Option<Btrfs>,
                Error,
            >(Error::ShortRead),
            btrfs_magic_ok(data@) && data@.len() >= BTRFS_OFFSET + BTRFS_SIZE ==> (r matches Ok(
                Some(b),
            ) && b.wf() && b.fsid@ == data@.subrange(65568, 65584) && b.label@ == data@.subrange(
                65835,
                66091,
            )),
    {
        if data.len() < BTRFS_MAGIC_OFFSET + 8 {
            return Err(Error::ShortRead);
        }
        if read_u64_le(data, BTRFS_MAGIC_OFFSET) != BTRFS_MAGIC {
            return Ok(None);
        }
        if data.len() < BTRFS_OFFSET + BTRFS_SIZE {
            return Err(Error::ShortRead);
        }
        let fsid = bytes_at(data, BTRFS_OFFSET + 32, 16);
        let label = bytes_at(data, BTRFS_OFFSET + 299, 256);
        Ok(Some(Btrfs { fsid, label }))
    }

    /// The filesystem UUID in hyphenated form.
    pub fn uuid(&self) -> (r: Result<String, Error>)
        requires
            self.wf(),
        ensures
            r matches Ok(s) && s@ == spec_uuid_hyphenated(self.fsid@),
    {
        Ok(uuid_hyphenated(&self.fsid))
    }

    /// The volume label: the UTF-8 field with trailing NULs removed.
    pub fn label(&self) -> (r: Result<String, Error>)
        ensures
            r is Ok <==> vstd::utf8::valid_utf8(self.label@),
            r matches Ok(s) ==> s@ == spec_trim_trailing(
                vstd::utf8::decode_utf8(self.label@),
                '\u{0}',
            ),
            r matches Err(e) ==> e == Error::Utf8Decoding,
    {
        match utf8_to_string(self.label.as_slice()) {
            Some(s) => Ok(trim_trailing(s.as_str(), '\u{0}')),
            None => Err(Error::Utf8Decoding),
        }
    }
}

/// Byte offset of the EXT4 superblock.
pub const EXT4_OFFSET: usize = 1024;

/// Byte offset of the EXT4 magic within the image.
pub const EXT4_MAGIC_OFFSET: usize = 1080;

/// The EXT4 magic, little-endian.
pub const EXT4_MAGIC: u16 = 0xEF53;

/// Byte size of the EXT4 superblock structure.
pub const EXT4_SIZE: usize = 1024;

pub open spec fn ext4_magic_ok(s: Seq<u8>) -> bool {
    s.len() >= EXT4_MAGIC_OFFSET + 2 && spec_u16_le(s, EXT4_MAGIC_OFFSET as int) == EXT4_MAGIC
}

/// The EXT4 superblock: filesystem identifier and volume name.
#[derive(Debug)]
pub struct Ext4 {
    /// 128-bit filesystem identifier (16 bytes).
    pub uuid: Vec<u8>,
    /// Volume name (16 bytes, UTF-8).
    pub volume_name: Vec<u8>,
}

impl Ext4 {
    pub open spec fn wf(self) -> bool {
        self.uuid@.len() == 16 && self.volume_name@.len() == 16
    }

    /// Probe for an EXT4 superblock.
    pub fn detect(data: &[u8]) -> (r: Result<Option<Ext4>, Error>)
        ensures
            data@.len() < EXT4_MAGIC_OFFSET + 2 ==> r == Err::<Option<Ext4>, Error>(
                Error::ShortRead,
            ),
            data@.len() >= EXT4_MAGIC_OFFSET + 2 && !ext4_magic_ok(data@) ==> r == Ok::<
                Option<Ext4>,
                Error,
            >(None),
            ext4_magic_ok(data@) && data@.len() < EXT4_OFFSET + EXT4_SIZE ==> r == Err::<
                Option<Ext4>,
                Error,
            >(Error::ShortRead),
            ext4_magic_ok(data@) && data@.len() >= EXT4_OFFSET + EXT4_SIZE ==> (r matches Ok(
                Some(b),
            ) && b.wf() && b.uuid@ == data@.subrange(1128, 1144) && b.volume_name@
                == data@.subrange(1144, 1160)),
    {
        if data.len() < EXT4_MAGIC_OFFSET + 2 {
            return Err(Error::ShortRead);
        }
        if read_u16_le(data, EXT4_MAGIC_OFFSET) != EXT4_MAGIC {
            return Ok(None);
        }
        if data.len() < EXT4_OFFSET + EXT4_SIZE {
            return Err(Error::ShortRead);
        }
        let uuid = bytes_at(data, EXT4_OFFSET + 104, 16);
        let volume_name = bytes_at(data, EXT4_OFFSET + 120, 16);
        Ok(Some(Ext4 { uuid, volume_name }))
    }

    /// The filesystem UUID in hyphenated form.
    pub fn uuid(&self) -> (r: Result<String, Error>)
        requires
            self.wf(),
        ensures
            r matches Ok(s) && s@ == spec_uuid_hyphenated(self.uuid@),
    {
        Ok(uuid_hyphenated(&self.uuid))
    }

    /// The volume name as UTF-8, exactly as stored.
    pub fn label(&self) -> (r: Result<String, Error>)
        ensures
            r is Ok <==> vstd::utf8::valid_utf8(self.volume_name@),
            r matches Ok(s) ==> s@ == vstd::utf8::decode_utf8(self.volume_name@),
            r matches Err(e) ==> e == Error::Utf8Decoding,
    {
        match utf8_to_string(self.volume_name.as_slice()) {
            Some(s) => Ok(s),
            None => Err(Error::Utf8Decoding),
        }
    }
}

/// Byte offset of the F2FS superblock (which begins with its magic).
pub const F2FS_OFFSET: usize = 1024;

/// The F2FS magic, little-endian.
pub const F2FS_MAGIC: u32 = 0xF2F52010;

/// Byte size of the packed F2FS superblock structure.
pub const F2FS_SIZE: usize = 3072;

pub open spec fn f2fs_magic_ok(s: Seq<u8>) -> bool {
    s.len() >= F2FS_OFFSET + 4 && spec_u32_le(s, F2FS_OFFSET as int) == F2FS_MAGIC
}

/// The sequence of little-endian 16-bit units at `off`.
pub open spec fn spec_u16le_array(s: Seq<u8>, off: int, n: int) -> Seq<u16>
    decreases n,
{
    if n <= 0 {
        Seq::empty()
    } else {
        seq![spec_u16_le(s, off) as u16] + spec_u16le_array(s, off + 2, n - 1)
    }
}

/// The F2FS superblock: filesystem identifier and UTF-16 volume name.
#[derive(Debug)]
pub struct F2FS {
    /// Filesystem UUID (16 bytes).
    pub uuid: Vec<u8>,
    /// Volume name (512 UTF-16LE units, NUL-padded).
    pub volume_name: Vec<u16>,
}

impl F2FS {
    pub open spec fn wf(self) -> bool {
        self.uuid@.len() == 16 && self.volume_name@.len() == 512
    }

    /// Probe for an F2FS superblock.
    pub fn detect(data: &[u8]) -> (r: Result<Option<F2FS>, Error>)
        ensures
            data@.len() < F2FS_OFFSET + 4 ==> r == Err::<Option<F2FS>, Error>(Error::ShortRead),
            data@.len() >= F2FS_OFFSET + 4 && !f2fs_magic_ok(data@) ==> r == Ok::<
                Option<F2FS>,
                Error,
            >(None),
            f2fs_magic_ok(data@) && data@.len() < F2FS_OFFSET + F2FS_SIZE ==> r == Err::<
                Option<F2FS>,
                Error,
            >(Error::ShortRead),
            f2fs_magic_ok(data@) && data@.len() >= F2FS_OFFSET + F2FS_SIZE ==> (r matches Ok(
                Some(b),
            ) && b.wf() && b.uuid@ == data@.subrange(1132, 1148) && b.volume_name@
                == spec_u16le_array(data@, 1148, 512)),
    {
        if data.len() < F2FS_OFFSET + 4 {
            return Err(Error::ShortRead);
        }
        if read_u32_le(data, F2FS_OFFSET) != F2FS_MAGIC {
            return Ok(None);
        }
        if data.len() < F2FS_OFFSET + F2FS_SIZE {
            return Err(Error::ShortRead);
        }
        let uuid = bytes_at(data, F2FS_OFFSET + 108, 16);
        let mut volume_name: Vec<u16> = Vec::new();
        let mut i: usize = 0;
        while i < 512
            invariant
                0 <= i <= 512,
                data@.len() >= F2FS_OFFSET + F2FS_SIZE,
                volume_name@.len() == i,
                volume_name@ == spec_u16le_array(data@, 1148, i as int),
            decreases 512 - i,
        {
            let unit = read_u16_le(data, F2FS_OFFSET + 124 + 2 * i);
            volume_name.push(unit);
            proof {
                lemma_u16le_array_step(data@, 1148, i + 1);
            }
            i += 1;
        }
        Ok(Some(F2FS { uuid, volume_name }))
    }

    /// The filesystem UUID in hyphenated form.
    pub fn uuid(&self) -> (r: Result<String, Error>)
        requires
            self.wf(),
        ensures
            r matches Ok(s) && s@ == spec_uuid_hyphenated(self.uuid@),
    {
        Ok(uuid_hyphenated(&self.uuid))
    }

    /// The volume label: the UTF-16 name decoded, with trailing NULs
    /// removed.
    pub fn label(&self) -> (r: Result<String, Error>)
        ensures
            r is Ok <==> crate::encoding::utf16_ok(self.volume_name@),
            r matches Ok(s) ==> s@.map_values(|c: char| c as u32) == spec_trim_trailing(
                crate::encoding::utf16_scalars(self.volume_name@),
                0u32,
            ),
            r matches Err(e) ==> e == Error::Utf16Decoding,
    {
        match crate::encoding::utf16_to_string(self.volume_name.as_slice()) {
            Some(s) => {
                let trimmed = trim_trailing(s.as_str(), '\u{0}');
                proof {
                    lemma_trim_cast_commutes(s@);
                }
                Ok(trimmed)
            },
            None => Err(Error::Utf16Decoding),
        }
    }
}

proof fn lemma_u16le_array_step(s: Seq<u8>, off: int, n: int)
    requires
        n >= 1,
    ensures
        spec_u16le_array(s, off, n) == spec_u16le_array(s, off, n - 1).push(
            spec_u16_le(s, off + 2 * (n - 1)) as u16,
        ),
    decreases n,
{
    if n == 1 {
        assert(spec_u16le_array(s, off + 2, 0) =~= Seq::<u16>::empty());
        assert(spec_u16le_array(s, off, 0) =~= Seq::<u16>::empty());
        assert(spec_u16le_array(s, off, 1) =~= spec_u16le_array(s, off, 0).push(
            spec_u16_le(s, off) as u16,
        ));
    } else {
        lemma_u16le_array_step(s, off + 2, n - 1);
        assert(spec_u16le_array(s, off, n) =~= spec_u16le_array(s, off, n - 1).push(
            spec_u16_le(s, off + 2 * (n - 1)) as u16,
        ));
    }
}

/// Removing trailing NUL characters and then reading scalar values is
/// the same as reading scalar values and removing trailing zeros.
proof fn lemma_trim_cast_commutes(s: Seq<char>)
    ensures
        spec_trim_trailing(s, '\u{0}').map_values(|c: char| c as u32) == spec_trim_trailing(
            s.map_values(|c: char| c as u32),
            0u32,
        ),
    decreases s.len(),
{
    let f = |c: char| c as u32;
    if s.len() == 0 {
        assert(spec_trim_trailing(s, '\u{0}').map_values(f) =~= spec_trim_trailing(
            s.map_values(f),
            0u32,
        ));
    } else {
        lemma_trim_cast_commutes(s.drop_last());
        assert(s.map_values(f).len() == s.len());
        assert(s.map_values(f).last() == f(s.last()));
        assert(s.map_values(f).drop_last() =~= s.drop_last().map_values(f));
        if s.last() == '\u{0}' {
            assert(f(s.last()) == 0u32);
        } else {
            vstd::utf8::char_u32_cast(s.last(), s.last() as u32);
            vstd::utf8::char_u32_cast('\u{0}', '\u{0}' as u32);
            assert(f(s.last()) != 0u32);
            assert(spec_trim_trailing(s, '\u{0}') == s);
            assert(spec_trim_trailing(s.map_values(f), 0u32) == s.map_values(f));
        }
    }
}

/// Byte size of the XFS superblock structure.
pub const XFS_SIZE: usize = 264;

/// The XFS magic, big-endian (the bytes `XFSB`).
pub const XFS_MAGIC: u32 = 0x58465342;

pub open spec fn xfs_magic_ok(s: Seq<u8>) -> bool {
    s.len() >= 4 && crate::encoding::spec_u32_be(s, 0) == XFS_MAGIC
}

/// The XFS superblock: filesystem identifier and volume name. XFS stores
/// every multi-byte field big-endian.
#[derive(Debug)]
pub struct XFS {
    /// Filesystem UUID (16 bytes).
    pub uuid: Vec<u8>,
    /// Volume name (12 bytes, NUL-padded ASCII).
    pub fname: Vec<u8>,
}

impl XFS {
    pub open spec fn wf(self) -> bool {
        self.uuid@.len() == 16 && self.fname@.len() == 12
    }

    /// Probe for an XFS superblock.
    pub fn detect(data: &[u8]) -> (r: Result<Option<XFS>, Error>)
        ensures
            data@.len() < 4 ==> r == Err::<Option<XFS>, Error>(Error::ShortRead),
            data@.len() >= 4 && !xfs_magic_ok(data@) ==> r == Ok::<Option<XFS>, Error>(None),
            xfs_magic_ok(data@) && data@.len() < XFS_SIZE ==> r == Err::<Option<XFS>, Error>(
                Error::ShortRead,
            ),
            xfs_magic_ok(data@) && data@.len() >= XFS_SIZE ==> (r matches Ok(Some(b)) && b.wf()
                && b.uuid@ == data@.subrange(32, 48) && b.fname@ == data@.subrange(108, 120)),
    {
        if data.len() < 4 {
            return Err(Error::ShortRead);
        }
        if crate::encoding::read_u32_be(data, 0) != XFS_MAGIC {
            return Ok(None);
        }
        if data.len() < XFS_SIZE {
            return Err(Error::ShortRead);
        }
        let uuid = bytes_at(data, 32, 16);
        let fname = bytes_at(data, 108, 12);
        Ok(Some(XFS { uuid, fname }))
    }

    /// The filesystem UUID in hyphenated form.
    pub fn uuid(&self) -> (r: Result<String, Error>)
        requires
            self.wf(),
        ensures
            r matches Ok(s) && s@ == spec_uuid_hyphenated(self.uuid@),
    {
        Ok(uuid_hyphenated(&self.uuid))
    }

    /// The volume label: the UTF-8 field with trailing NULs removed.
    pub fn label(&self) -> (r: Result<String, Error>)
        ensures
            r is Ok <==> vstd::utf8::valid_utf8(self.fname@),
            r matches Ok(s) ==> s@ == spec_trim_trailing(
                vstd::utf8::decode_utf8(self.fname@),
                '\u{0}',
            ),
            r matches Err(e) ==> e == Error::Utf8Decoding,
    {
        match utf8_to_string(self.fname.as_slice()) {
            Some(s) => Ok(trim_trailing(s.as_str(), '\u{0}')),
            None => Err(Error::Utf8Decoding),
        }
    }
}

/// Byte size of the LUKS2 binary header.
pub const LUKS2_SIZE: usize = 4096;

/// Do the first six bytes carry either accepted LUKS2 magic
/// (`LUKS\xBA\xBE` or `SKUL\xBA\xBE`)?
pub open spec fn luks2_magic_ok(s: Seq<u8>) -> bool {
    s.len() >= 6 && ((s[0] == 0x4C && s[1] == 0x55 && s[2] == 0x4B && s[3] == 0x53) || (s[0]
        == 0x53 && s[1] == 0x4B && s[2] == 0x55 && s[3] == 0x4C)) && s[4] == 0xBA && s[5] == 0xBE
}

/// The LUKS2 binary header: version, header size, label and UUID. LUKS2
/// stores every multi-byte field big-endian, and its UUID as an ASCII
/// string rather than a 128-bit value.
#[derive(Debug)]
pub struct Luks2 {
    /// LUKS format version.
    pub version: u16,
    /// Size of the binary header plus the JSON configuration, in bytes.
    pub hdr_size: u64,
    /// Volume label (48 bytes, NUL-padded).
    pub label: Vec<u8>,
    /// Volume UUID (40 bytes of NUL-padded ASCII).
    pub uuid: Vec<u8>,
}

impl Luks2 {
    pub open spec fn wf(self) -> bool {
        self.label@.len() == 48 && self.uuid@.len() == 40
    }

    /// Probe for a LUKS2 header.
    pub fn detect(data: &[u8]) -> (r: Result<Option<Luks2>, Error>)
        ensures
            data@.len() < 6 ==> r == Err::<Option<Luks2>, Error>(Error::ShortRead),
            data@.len() >= 6 && !luks2_magic_ok(data@) ==> r == Ok::<Option<Luks2>, Error>(None),
            luks2_magic_ok(data@) && data@.len() < LUKS2_SIZE ==> r == Err::<Option<Luks2>, Error>(
                Error::ShortRead,
            ),
            luks2_magic_ok(data@) && data@.len() >= LUKS2_SIZE ==> (r matches Ok(Some(b)) && b.wf()
                && b.version == spec_u16_be(data@, 6) && b.hdr_size == spec_u64_be(data@, 8)
                && b.label@ == data@.subrange(24, 72) && b.uuid@ == data@.subrange(168, 208)),
    {
        if data.len() < 6 {
            return Err(Error::ShortRead);
        }
        let m_luks = data[0] == 0x4C && data[1] == 0x55 && data[2] == 0x4B && data[3] == 0x53;
        let m_skul = data[0] == 0x53 && data[1] == 0x4B && data[2] == 0x55 && data[3] == 0x4C;
        if !((m_luks || m_skul) && data[4] == 0xBA && data[5] == 0xBE) {
            return Ok(None);
        }
        if data.len() < LUKS2_SIZE {
            return Err(Error::ShortRead);
        }
        let version = read_u16_be(data, 6);
        let hdr_size = read_u64_be(data, 8);
        let label = bytes_at(data, 24, 48);
        let uuid = bytes_at(data, 168, 40);
        Ok(Some(Luks2 { version, hdr_size, label, uuid }))
    }

    /// The volume UUID: LUKS2 stores it as NUL-padded ASCII text.
    pub fn uuid(&self) -> (r: Result<String, Error>)
        ensures
            r is Ok <==> vstd::utf8::valid_utf8(self.uuid@),
            r matches Ok(s) ==> s@ == spec_trim_trailing(
                vstd::utf8::decode_utf8(self.uuid@),
                '\u{0}',
            ),
            r matches Err(e) ==> e == Error::Utf8Decoding,
    {
        match utf8_to_string(self.uuid.as_slice()) {
            Some(s) => Ok(trim_trailing(s.as_str(), '\u{0}')),
            None => Err(Error::Utf8Decoding),
        }
    }

    /// The volume label, often empty (the label usually lives in the JSON
    /// configuration instead).
    pub fn label(&self) -> (r: Result<String, Error>)
        ensures
            r is Ok <==> vstd::utf8::valid_utf8(self.label@),
            r matches Ok(s) ==> s@ == spec_trim_trailing(
                vstd::utf8::decode_utf8(self.label@),
                '\u{0}',
            ),
            r matches Err(e) ==> e == Error::Utf8Decoding,
    {
        match utf8_to_string(self.label.as_slice()) {
            Some(s) => Ok(trim_trailing(s.as_str(), '\u{0}')),
            None => Err(Error::Utf8Decoding),
        }
    }

    /// Frame the JSON configuration that follows the binary header: the
    /// declared header size minus the binary header, taken from the
    /// image, decoded as UTF-8 and clipped at trailing NULs. The caller
    /// parses the JSON. Fails with `InvalidSuperblock` when the declared
    /// size is smaller than the binary header or larger than the image,
    /// and with `Utf8Decoding` when the area is not UTF-8 text.
    pub fn json_config_text(&self, data: &[u8]) -> (r: Result<String, Error>)
        ensures
            r is Ok <==> (self.hdr_size >= LUKS2_SIZE && self.hdr_size <= data@.len()
                && vstd::utf8::valid_utf8(
                data@.subrange(LUKS2_SIZE as int, self.hdr_size as int),
            )),
            r matches Ok(s) ==> s@ == spec_trim_trailing(
                vstd::utf8::decode_utf8(data@.subrange(LUKS2_SIZE as int, self.hdr_size as int)),
                '\u{0}',
            ),
            self.hdr_size < LUKS2_SIZE || self.hdr_size > data@.len() ==> r == Err::<
                String,
                Error,
            >(Error::InvalidSuperblock),
            LUKS2_SIZE <= self.hdr_size <= data@.len() && !vstd::utf8::valid_utf8(
                data@.subrange(LUKS2_SIZE as int, self.hdr_size as int),
            ) ==> r == Err::<String, Error>(Error::Utf8Decoding),
    {
        let n = data.len();
        if self.hdr_size < LUKS2_SIZE as u64 || self.hdr_size > n as u64 {
            return Err(Error::InvalidSuperblock);
        }
        let json_len = (self.hdr_size as usize) - LUKS2_SIZE;
        let json = bytes_at(data, LUKS2_SIZE, json_len);
        match utf8_to_string(json.as_slice()) {
            Some(s) => Ok(trim_trailing(s.as_str(), '\u{0}')),
            None => Err(Error::Utf8Decoding),
        }
    }
}

/// A detected filesystem superblock.
#[derive(Debug)]
pub enum Superblock {
    Btrfs(Box<Btrfs>),
    Ext4(Box<Ext4>),
    F2FS(Box<F2FS>),
    LUKS2(Box<Luks2>),
    XFS(Box<XFS>),
}

impl Superblock {
    /// Every variant's stored fields have their on-disk sizes.
    pub open spec fn wf(self) -> bool {
        match self {
            Superblock::Btrfs(b) => b.wf(),
            Superblock::Ext4(b) => b.wf(),
            Superblock::F2FS(b) => b.wf(),
            Superblock::LUKS2(b) => b.wf(),
            Superblock::XFS(b) => b.wf(),
        }
    }

    /// Returns the filesystem kind of this superblock.
    pub fn kind(&self) -> (r: Kind)
        ensures
            r == match self {
                Superblock::Btrfs(_) => Kind::Btrfs,
                Superblock::Ext4(_) => Kind::Ext4,
                Superblock::F2FS(_) => Kind::F2FS,
                Superblock::LUKS2(_) => Kind::LUKS2,
                Superblock::XFS(_) => Kind::XFS,
            },
    {
        match self {
            Superblock::Btrfs(_) => Kind::Btrfs,
            Superblock::Ext4(_) => Kind::Ext4,
            Superblock::F2FS(_) => Kind::F2FS,
            Superblock::LUKS2(_) => Kind::LUKS2,
            Superblock::XFS(_) => Kind::XFS,
        }
    }

    /// Returns the filesystem UUID: hyphenated hexadecimal for the
    /// filesystems that store 16 identifier bytes, the stored ASCII text
    /// for LUKS2.
    pub fn uuid(&self) -> (r: Result<String, Error>)
        requires
            self.wf(),
        ensures
            match self {
                Superblock::Btrfs(b) => r matches Ok(s) && s@ == spec_uuid_hyphenated(b.fsid@),
                Superblock::Ext4(b) => r matches Ok(s) && s@ == spec_uuid_hyphenated(b.uuid@),
                Superblock::F2FS(b) => r matches Ok(s) && s@ == spec_uuid_hyphenated(b.uuid@),
                Superblock::XFS(b) => r matches Ok(s) && s@ == spec_uuid_hyphenated(b.uuid@),
                Superblock::LUKS2(b) => (r is Ok <==> vstd::utf8::valid_utf8(b.uuid@)) && (r
                    matches Ok(s) ==> s@ == spec_trim_trailing(
                    vstd::utf8::decode_utf8(b.uuid@),
                    '\u{0}',
                )),
            },
    {
        match self {
            Superblock::Btrfs(b) => b.uuid(),
            Superblock::Ext4(b) => b.uuid(),
            Superblock::F2FS(b) => b.uuid(),
            Superblock::LUKS2(b) => b.uuid(),
            Superblock::XFS(b) => b.uuid(),
        }
    }

    /// Returns the volume label, decoded and trimmed as each filesystem
    /// stores it.
    pub fn label(&self) -> (r: Result<String, Error>)
        requires
            self.wf(),
        ensures
            match self {
                Superblock::Btrfs(b) => (r is Ok <==> vstd::utf8::valid_utf8(b.label@)) && (r
                    matches Ok(s) ==> s@ == spec_trim_trailing(
                    vstd::utf8::decode_utf8(b.label@),
                    '\u{0}',
                )),
                Superblock::Ext4(b) => (r is Ok <==> vstd::utf8::valid_utf8(b.volume_name@)) && (r
                    matches Ok(s) ==> s@ == vstd::utf8::decode_utf8(b.volume_name@)),
                Superblock::F2FS(b) => (r is Ok <==> crate::encoding::utf16_ok(b.volume_name@)) && (
                r matches Ok(s) ==> s@.map_values(|c: char| c as u32) == spec_trim_trailing(
                    crate::encoding::utf16_scalars(b.volume_name@),
                    0u32,
                )),
                Superblock::XFS(b) => (r is Ok <==> vstd::utf8::valid_utf8(b.fname@)) && (r
                    matches Ok(s) ==> s@ == spec_trim_trailing(
                    vstd::utf8::decode_utf8(b.fname@),
                    '\u{0}',
                )),
                Superblock::LUKS2(b) => (r is Ok <==> vstd::utf8::valid_utf8(b.label@)) && (r
                    matches Ok(s) ==> s@ == spec_trim_trailing(
                    vstd::utf8::decode_utf8(b.label@),
                    '\u{0}',
                )),
            },
    {
        match self {
            Superblock::Btrfs(b) => b.label(),
            Superblock::Ext4(b) => b.label(),
            Superblock::F2FS(b) => b.label(),
            Superblock::LUKS2(b) => b.label(),
            Superblock::XFS(b) => b.label(),
        }
    }

    /// Attempt to detect a filesystem superblock in the image, trying
    /// EXT4, BTRFS, F2FS, XFS and LUKS2 in that fixed order and returning
    /// the first match. An image matching none is `UnknownSuperblock`;
    /// an image that ends inside a probed structure is `ShortRead`.
    pub fn from_bytes(data: &[u8]) -> (r: Result<Superblock, Error>)
        ensures
            r matches Ok(sb) ==> sb.wf(),
            r matches Ok(sb) ==> match sb {
                Superblock::Ext4(_) => ext4_magic_ok(data@),
                Superblock::Btrfs(_) => btrfs_magic_ok(data@) && !ext4_magic_ok(data@),
                Superblock::F2FS(_) => f2fs_magic_ok(data@) && !ext4_magic_ok(data@)
                    && !btrfs_magic_ok(data@),
                Superblock::XFS(_) => xfs_magic_ok(data@) && !ext4_magic_ok(data@)
                    && !btrfs_magic_ok(data@) && !f2fs_magic_ok(data@),
                Superblock::LUKS2(_) => luks2_magic_ok(data@) && !ext4_magic_ok(data@)
                    && !btrfs_magic_ok(data@) && !f2fs_magic_ok(data@) && !xfs_magic_ok(data@),
            },
            r == Err::<Superblock, Error>(Error::UnknownSuperblock) <==> (!ext4_magic_ok(data@)
                && !btrfs_magic_ok(data@) && !f2fs_magic_ok(data@) && !xfs_magic_ok(data@)
                && !luks2_magic_ok(data@) && data@.len() >= BTRFS_MAGIC_OFFSET + 8),
            data@.len() >= BTRFS_OFFSET + BTRFS_SIZE ==> !(r == Err::<Superblock, Error>(
                Error::ShortRead,
            )),
            ext4_magic_ok(data@) && data@.len() >= BTRFS_OFFSET + BTRFS_SIZE ==> (r matches Ok(sb)
                && sb matches Superblock::Ext4(b) && b.uuid@ == data@.subrange(1128, 1144)
                && b.volume_name@ == data@.subrange(1144, 1160)),
            btrfs_magic_ok(data@) && !ext4_magic_ok(data@) && data@.len() >= BTRFS_OFFSET
                + BTRFS_SIZE ==> (r matches Ok(sb) && sb matches Superblock::Btrfs(b) && b.fsid@
                == data@.subrange(65568, 65584) && b.label@ == data@.subrange(65835, 66091)),
            f2fs_magic_ok(data@) && !ext4_magic_ok(data@) && !btrfs_magic_ok(data@) && data@.len()
                >= BTRFS_OFFSET + BTRFS_SIZE ==> (r matches Ok(sb) && sb matches Superblock::F2FS(
                b,
            ) && b.uuid@ == data@.subrange(1132, 1148) && b.volume_name@ == spec_u16le_array(
                data@,
                1148,
                512,
            )),
            xfs_magic_ok(data@) && !ext4_magic_ok(data@) && !btrfs_magic_ok(data@)
                && !f2fs_magic_ok(data@) && data@.len() >= BTRFS_OFFSET + BTRFS_SIZE ==> (r
                matches Ok(sb) && sb matches Superblock::XFS(b) && b.uuid@ == data@.subrange(
                32,
                48,
            ) && b.fname@ == data@.subrange(108, 120)),
            luks2_magic_ok(data@) && !ext4_magic_ok(data@) && !btrfs_magic_ok(data@)
                && !f2fs_magic_ok(data@) && !xfs_magic_ok(data@) && data@.len() >= BTRFS_OFFSET
                + BTRFS_SIZE ==> (r matches Ok(sb) && sb matches Superblock::LUKS2(b) && b.version
                == spec_u16_be(data@, 6) && b.hdr_size == spec_u64_be(data@, 8) && b.label@
                == data@.subrange(24, 72) && b.uuid@ == data@.subrange(168, 208)),
    {
        match Ext4::detect(data) {
            Ok(Some(sb)) => {
                return Ok(Superblock::Ext4(Box::new(sb)));
            },
            Ok(None) => {},
            Err(e) => {
                return Err(e);
            },
        }
        match Btrfs::detect(data) {
            Ok(Some(sb)) => {
                return Ok(Superblock::Btrfs(Box::new(sb)));
            },
            Ok(None) => {},
            Err(e) => {
                return Err(e);
            },
        }
        match F2FS::detect(data) {
            Ok(Some(sb)) => {
                return Ok(Superblock::F2FS(Box::new(sb)));
            },
            Ok(None) => {},
            Err(e) => {
                return Err(e);
            },
        }
        match XFS::detect(data) {
            Ok(Some(sb)) => {
                return Ok(Superblock::XFS(Box::new(sb)));
            },
            Ok(None) => {},
            Err(e) => {
                return Err(e);
            },
        }
        match Luks2::detect(data) {
            Ok(Some(sb)) => {
                return Ok(Superblock::LUKS2(Box::new(sb)));
            },
            Ok(None) => {},
            Err(e) => {
                return Err(e);
            },
        }
        Err(Error::UnknownSuperblock)
    }
}

/// The LUKS2 JSON configuration, as plain values: core sizes, keyslots
/// and segments keyed by their numeric identifiers. Parsing the JSON
/// text belongs to the caller; this type holds what the logic reads.
#[derive(Debug)]
pub struct Luks2Config {
    /// Core configuration data with metadata and keyslot-area sizes.
    pub config: Luks2ConfigData,
    /// Keyslot configurations, each under its identifier.
    pub keyslots: Vec<(u64, Luks2Keyslot)>,
    /// Segment configurations, each under its identifier.
    pub segments: Vec<(u64, Luks2Segment)>,
}

/// Core LUKS2 configuration data.
#[derive(Debug)]
pub struct Luks2ConfigData {
    /// Size of the JSON metadata area in bytes.
    pub json_size: u64,
    /// Size of the keyslots area in bytes.
    pub keyslots_size: u64,
    /// Optional configuration flags.
    pub flags: Vec<String>,
    /// Requirements for device activation.
    pub requirements: Vec<String>,
}

/// Key derivation function parameters of a keyslot.
#[derive(Debug)]
pub struct Luks2Kdf {
    /// KDF algorithm name.
    pub kdf_type: String,
    /// Salt for key derivation.
    pub salt: String,
    /// Hash algorithm, for the iterated derivation.
    pub hash: Option<String>,
    /// Iteration count, for the iterated derivation.
    pub iterations: Option<u64>,
    /// Time cost, for the memory-hard derivation.
    pub time: Option<u64>,
    /// Memory cost in bytes, for the memory-hard derivation.
    pub memory: Option<u64>,
    /// Parallelism, for the memory-hard derivation.
    pub cpus: Option<u64>,
}

/// One keyslot: its key material parameters and storage area.
#[derive(Debug)]
pub struct Luks2Keyslot {
    /// Keyslot type.
    pub slot_type: String,
    /// Size of the keyslot key in bytes.
    pub key_size: u64,
    /// Where and how the key material is stored.
    pub area: Luks2KeyslotArea,
    /// How passwords are processed into keys.
    pub kdf: Luks2Kdf,
}

/// A keyslot's storage area.
#[derive(Debug)]
pub struct Luks2KeyslotArea {
    /// Area type.
    pub area_type: String,
    /// Byte offset of the area on the device.
    pub offset: u64,
    /// Byte size of the area.
    pub size: u64,
    /// Encryption algorithm protecting the key material.
    pub encryption: String,
    /// Size of the area's encryption key in bytes.
    pub key_size: u64,
}

/// One encrypted segment of the device.
#[derive(Debug)]
pub struct Luks2Segment {
    /// Segment type.
    pub segment_type: String,
    /// Byte offset where the segment begins, as text.
    pub offset: String,
    /// Byte size of the segment, as text.
    pub size: String,
    /// Initialization vector tweak.
    pub iv_tweak: String,
    /// Encryption algorithm of the segment.
    pub encryption: String,
    /// Encryption sector size in bytes.
    pub sector_size: u64,
}

/// The first keyslot stored under the identifier, if any.
pub open spec fn spec_lookup_keyslot(ks: Seq<(u64, Luks2Keyslot)>, id: u64) -> Option<
    Luks2Keyslot,
>
    decreases ks.len(),
{
    if ks.len() == 0 {
        None
    } else if ks[0].0 == id {
        Some(ks[0].1)
    } else {
        spec_lookup_keyslot(ks.drop_first(), id)
    }
}

/// The first segment stored under the identifier, if any.
pub open spec fn spec_lookup_segment(ss: Seq<(u64, Luks2Segment)>, id: u64) -> Option<
    Luks2Segment,
>
    decreases ss.len(),
{
    if ss.len() == 0 {
        None
    } else if ss[0].0 == id {
        Some(ss[0].1)
    } else {
        spec_lookup_segment(ss.drop_first(), id)
    }
}

impl Luks2Config {
    /// The keyslot stored under the given identifier, if any (the first,
    /// when an identifier was stored twice).
    pub fn keyslot(&self, id: u64) -> (r: Option<&Luks2Keyslot>)
        ensures
            r is Some <==> spec_lookup_keyslot(self.keyslots@, id) is Some,
            r matches Some(s) ==> spec_lookup_keyslot(self.keyslots@, id) == Some(*s),
    {
        let n = self.keyslots.len();
        let mut i: usize = 0;
        proof {
            assert(self.keyslots@.skip(0) =~= self.keyslots@);
        }
        while i < n
            invariant
                0 <= i <= n,
                n == self.keyslots@.len(),
                spec_lookup_keyslot(self.keyslots@, id) == spec_lookup_keyslot(
                    self.keyslots@.skip(i as int),
                    id,
                ),
            decreases n - i,
        {
            proof {
                assert(self.keyslots@.skip(i as int)[0] == self.keyslots@[i as int]);
                assert(self.keyslots@.skip(i as int).drop_first() =~= self.keyslots@.skip(i + 1));
            }
            if self.keyslots[i].0 == id {
                return Some(&self.keyslots[i].1);
            }
            i += 1;
        }
        proof {
            assert(self.keyslots@.skip(n as int) =~= Seq::<(u64, Luks2Keyslot)>::empty());
        }
        None
    }

    /// The segment stored under the given identifier, if any (the first,
    /// when an identifier was stored twice).
    pub fn segment(&self, id: u64) -> (r: Option<&Luks2Segment>)
        ensures
            r is Some <==> spec_lookup_segment(self.segments@, id) is Some,
            r matches Some(s) ==> spec_lookup_segment(self.segments@, id) == Some(*s),
    {
        let n = self.segments.len();
        let mut i: usize = 0;
        proof {
            assert(self.segments@.skip(0) =~= self.segments@);
        }
        while i < n
            invariant
                0 <= i <= n,
                n == self.segments@.len(),
                spec_lookup_segment(self.segments@, id) == spec_lookup_segment(
                    self.segments@.skip(i as int),
                    id,
                ),
            decreases n - i,
        {
            proof {
                assert(self.segments@.skip(i as int)[0] == self.segments@[i as int]);
                assert(self.segments@.skip(i as int).drop_first() =~= self.segments@.skip(i + 1));
            }
            if self.segments[i].0 == id {
                return Some(&self.segments[i].1);
            }
            i += 1;
        }
        proof {
            assert(self.segments@.skip(n as int) =~= Seq::<(u64, Luks2Segment)>::empty());
        }
        None
    }
}

} // verus!
