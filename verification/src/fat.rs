//! FAT boot-sector detection: a standalone probe for FAT16 and FAT32
//! filesystems, outside the main superblock union.

use vstd::prelude::*;

use crate::encoding::{
    bytes_at, push_hex16_upper, read_u16_le, read_u32_le, spec_hex16_upper, spec_trim_trailing,
    spec_u16_le, spec_u32_le, trim_trailing, utf8_to_string,
};
use crate::superblock::Error;

verus! {

/// Byte size of the FAT boot-sector header this crate reads.
pub const FAT_SIZE: usize = 90;

/// Byte offset of the boot-sector magic.
pub const FAT_MAGIC_OFFSET: usize = 510;

/// Does the sector carry the boot magic `55 AA`?
pub open spec fn fat_magic_ok(s: Seq<u8>) -> bool {
    s.len() >= FAT_MAGIC_OFFSET + 2 && s[FAT_MAGIC_OFFSET as int] == 0x55 && s[
        FAT_MAGIC_OFFSET + 1
    ] == 0xAA
}

/// Whether a FAT filesystem is the 16- or 32-bit variant.
#[derive(Debug, Clone, Copy, PartialEq, Eq, Structural)]
pub enum FatType {
    Fat16,
    Fat32,
}

/// The FAT boot sector fields this crate reads: the sectors-per-FAT
/// fields that discriminate the variants, and each variant's volume
/// identifier and label.
#[derive(Debug)]
pub struct Fat {
    /// Sectors per FAT for FAT16; zero on FAT32.
    pub fat_length: u16,
    /// Sectors per FAT for FAT32.
    pub fat32_length: u32,
    /// FAT16 volume identifier.
    pub vol_id_16: u32,
    /// FAT16 volume label (11 bytes, space-padded).
    pub vol_label_16: Vec<u8>,
    /// FAT32 volume identifier.
    pub vol_id_32: u32,
    /// FAT32 volume label (11 bytes, space-padded).
    pub vol_label_32: Vec<u8>,
}

/// A 32-bit volume identifier rendered as two four-digit uppercase
/// hexadecimal groups.
pub open spec fn spec_vol_id(v: u32) -> Seq<char> {
    spec_hex16_upper(v as int / 0x10000) + seq!['-'] + spec_hex16_upper(v as int % 0x10000)
}

impl Fat {
    pub open spec fn wf(self) -> bool {
        self.vol_label_16@.len() == 11 && self.vol_label_32@.len() == 11
    }

    /// The variant this boot sector declares: FAT32 exactly when the
    /// FAT16 length field is zero and the FAT32 one is not.
    pub open spec fn spec_fat_type(self) -> FatType {
        if self.fat_length == 0 && self.fat32_length != 0 {
            FatType::Fat32
        } else {
            FatType::Fat16
        }
    }

    /// Probe for a FAT boot sector: the magic at the end of the first
    /// sector, then the header fields.
    pub fn detect(data: &[u8]) -> (r: Result<Option<Fat>, Error>)
        ensures
            data@.len() < FAT_MAGIC_OFFSET + 2 ==> r == Err::<Option<Fat>, Error>(
                Error::ShortRead,
            ),
            data@.len() >= FAT_MAGIC_OFFSET + 2 && !fat_magic_ok(data@) ==> r == Ok::<
                Option<Fat>,
                Error,
            >(None),
            fat_magic_ok(data@) ==> (r matches Ok(Some(b)) && b.wf() && b.fat_length
                == spec_u16_le(data@, 22) && b.fat32_length == spec_u32_le(data@, 36) && b.vol_id_16
                == spec_u32_le(data@, 39) && b.vol_label_16@ == data@.subrange(43, 54)
                && b.vol_id_32 == spec_u32_le(data@, 67) && b.vol_label_32@ == data@.subrange(
                71,
                82,
            )),
    {
        if data.len() < FAT_MAGIC_OFFSET + 2 {
            return Err(Error::ShortRead);
        }
        if !(data[FAT_MAGIC_OFFSET] == 0x55 && data[FAT_MAGIC_OFFSET + 1] == 0xAA) {
            return Ok(None);
        }
        let fat_length = read_u16_le(data, 22);
        let fat32_length = read_u32_le(data, 36);
        let vol_id_16 = read_u32_le(data, 39);
        let vol_label_16 = bytes_at(data, 43, 11);
        let vol_id_32 = read_u32_le(data, 67);
        let vol_label_32 = bytes_at(data, 71, 11);
        Ok(Some(Fat { fat_length, fat32_length, vol_id_16, vol_label_16, vol_id_32, vol_label_32 }))
    }

    /// Which FAT variant the boot sector declares.
    pub fn fat_type(&self) -> (r: FatType)
        ensures
            r == self.spec_fat_type(),
    {
        if self.fat_length == 0 && self.fat32_length != 0 {
            FatType::Fat32
        } else {
            FatType::Fat16
        }
    }

    /// The volume identifier of the declared variant, rendered as two
    /// uppercase hexadecimal groups.
    pub fn uuid(&self) -> (r: Result<String, Error>)
        ensures
            r matches Ok(s) && s@ == spec_vol_id(
                if self.spec_fat_type() is Fat32 {
                    self.vol_id_32
                } else {
                    self.vol_id_16
                },
            ),
    {
        let v = match self.fat_type() {
            FatType::Fat32 => self.vol_id_32,
            FatType::Fat16 => self.vol_id_16,
        };
        let mut out = String::new();
        push_hex16_upper(&mut out, (v / 0x10000) as u16);
        out.append("-");
        push_hex16_upper(&mut out, (v % 0x10000) as u16);
        proof {
            reveal_strlit("-");
            assert(out@ =~= spec_vol_id(v));
        }
        Ok(out)
    }

    /// The volume label of the declared variant: UTF-8 text with trailing
    /// spaces removed.
    pub fn label(&self) -> (r: Result<String, Error>)
        ensures
            ({
                let field = if self.spec_fat_type() is Fat32 {
                    self.vol_label_32@
                } else {
                    self.vol_label_16@
                };
                &&& (r is Ok <==> vstd::utf8::valid_utf8(field))
                &&& (r matches Ok(s) ==> s@ == spec_trim_trailing(
                    vstd::utf8::decode_utf8(field),
                    ' ',
                ))
                &&& (r matches Err(e) ==> e == Error::Utf8Decoding)
            }),
    {
        let field = match self.fat_type() {
            FatType::Fat32 => &self.vol_label_32,
            FatType::Fat16 => &self.vol_label_16,
        };
        match utf8_to_string(field.as_slice()) {
            Some(s) => Ok(trim_trailing(s.as_str(), ' ')),
            None => Err(Error::Utf8Decoding),
        }
    }
}

} // verus!
