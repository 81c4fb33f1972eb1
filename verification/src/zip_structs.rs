//! The fixed-size records of the zip container format.

use vstd::prelude::*;
use crate::byte_reader::{ByteReader, le_at};
use crate::preflate_error::PreflateError;

verus! {

pub const ZIP_LOCAL_FILE_HEADER_SIGNATURE: u32 = 0x04034b50;

pub const ZIP_CENTRAL_DIRECTORY_SIGNATURE: u32 = 0x02014b50;

pub const ZIP_LOCAL_FILE_HEADER_SIZE_IN_BYTES: u32 = 30;

pub const GENERAL_BIT_HAS_DATA_DESCRIPTOR: u16 = 0x0008;

pub const ZIP64_EXTENDED_INFORMATION_TYPE_TAG: u16 = 0x0001;

pub const ZIP_CENTRAL_DIRECTORY_FILE_HEADER_SIGNATURE: u32 = 0x02014b50;

pub const ZIP_CENTRAL_DIRECTORY_FILE_HEADER_SIZE_IN_BYTES: u32 = 46;

pub const ZIP_END_OF_CENTRAL_DIRECTORY_RECORD_SIGNATURE: u32 = 0x06054b50;

pub const ZIP64_END_OF_CENTRAL_DIRECTORY_RECORD_SIGNATURE: u32 = 0x06064b50;

/// The number of two bytes at place `at` of `data`.
pub open spec fn u16_at(data: Seq<u8>, at: int) -> u16 {
    le_at(data, at, 2) as u16
}

/// The number of four bytes at place `at` of `data`.
pub open spec fn u32_at(data: Seq<u8>, at: int) -> u32 {
    le_at(data, at, 4) as u32
}

/// The number of eight bytes at place `at` of `data`.
pub open spec fn u64_at(data: Seq<u8>, at: int) -> u64 {
    le_at(data, at, 8) as u64
}

/// The header that stands before the data of a file.
#[derive(Clone, Copy, Debug, PartialEq, Eq, Structural)]
pub struct ZipLocalFileHeader {
    pub local_file_header_signature: u32,
    pub version_needed_to_extract: u16,
    pub general_purpose_bit_flag: u16,
    pub compression_method: u16,
    pub last_mod_file_time: u16,
    pub last_mod_file_date: u16,
    pub crc32: u32,
    /// Four bytes in the header; the 64-bit extension can replace it.
    pub compressed_size: u64,
    /// Four bytes in the header; the 64-bit extension can replace it.
    pub uncompressed_size: u64,
    pub file_name_length: u16,
    pub extra_field_length: u16,
}

impl ZipLocalFileHeader {
    /// The header whose 30 bytes stand at place `at` of `data`.
    pub open spec fn parse(data: Seq<u8>, at: int) -> ZipLocalFileHeader {
        ZipLocalFileHeader {
            local_file_header_signature: u32_at(data, at),
            version_needed_to_extract: u16_at(data, at + 4),
            general_purpose_bit_flag: u16_at(data, at + 6),
            compression_method: u16_at(data, at + 8),
            last_mod_file_time: u16_at(data, at + 10),
            last_mod_file_date: u16_at(data, at + 12),
            crc32: u32_at(data, at + 14),
            compressed_size: u32_at(data, at + 18) as u64,
            uncompressed_size: u32_at(data, at + 22) as u64,
            file_name_length: u16_at(data, at + 26),
            extra_field_length: u16_at(data, at + 28),
        }
    }

    /// Reads the 30 bytes of a header.
    pub fn create_and_load(binary_reader: &mut ByteReader) -> (r: Result<Self, PreflateError>)
        ensures
            final(binary_reader).data == old(binary_reader).data,
            match r {
                Ok(header) => {
                    &&& old(binary_reader).available() >= 30
                    &&& header == Self::parse(
                        old(binary_reader).data@,
                        old(binary_reader).pos as int,
                    )
                    &&& final(binary_reader).pos == old(binary_reader).pos + 30
                },
                Err(e) => old(binary_reader).available() < 30 && e == PreflateError::EndOfStream,
            },
    {
        let mut zip_local_file_header = Self::new();
        match zip_local_file_header.load(binary_reader) {
            Ok(()) => Ok(zip_local_file_header),
            Err(e) => Err(e),
        }
    }

    /// A header with every field 0.
    pub fn new() -> (r: Self)
        ensures
            r == (ZipLocalFileHeader {
                local_file_header_signature: 0,
                version_needed_to_extract: 0,
                general_purpose_bit_flag: 0,
                compression_method: 0,
                last_mod_file_time: 0,
                last_mod_file_date: 0,
                crc32: 0,
                compressed_size: 0,
                uncompressed_size: 0,
                file_name_length: 0,
                extra_field_length: 0,
            }),
    {
        ZipLocalFileHeader {
            local_file_header_signature: 0,
            version_needed_to_extract: 0,
            general_purpose_bit_flag: 0,
            compression_method: 0,
            last_mod_file_time: 0,
            last_mod_file_date: 0,
            crc32: 0,
            compressed_size: 0,
            uncompressed_size: 0,
            file_name_length: 0,
            extra_field_length: 0,
        }
    }

    /// Reads the fields of the header in their order.
    pub fn load(&mut self, binary_reader: &mut ByteReader) -> (r: Result<(), PreflateError>)
        ensures
            final(binary_reader).data == old(binary_reader).data,
            match r {
                Ok(()) => {
                    &&& old(binary_reader).available() >= 30
                    &&& *final(self) == Self::parse(
                        old(binary_reader).data@,
                        old(binary_reader).pos as int,
                    )
                    &&& final(binary_reader).pos == old(binary_reader).pos + 30
                },
                Err(e) => old(binary_reader).available() < 30 && e == PreflateError::EndOfStream,
            },
    {
        self.local_file_header_signature = binary_reader.read_u32()?;
        self.version_needed_to_extract = binary_reader.read_u16()?;
        self.general_purpose_bit_flag = binary_reader.read_u16()?;
        self.compression_method = binary_reader.read_u16()?;
        self.last_mod_file_time = binary_reader.read_u16()?;
        self.last_mod_file_date = binary_reader.read_u16()?;
        self.crc32 = binary_reader.read_u32()?;
        self.compressed_size = binary_reader.read_u32()? as u64;
        self.uncompressed_size = binary_reader.read_u32()? as u64;
        self.file_name_length = binary_reader.read_u16()?;
        self.extra_field_length = binary_reader.read_u16()?;
        Ok(())
    }

    /// The sizes of the file follow its data in a descriptor of their own.
    pub fn fhas_data_descriptor(&self) -> (r: bool)
        ensures
            r == (self.general_purpose_bit_flag & GENERAL_BIT_HAS_DATA_DESCRIPTOR != 0),
    {
        (self.general_purpose_bit_flag & GENERAL_BIT_HAS_DATA_DESCRIPTOR) != 0
    }
}

/// The four bytes that begin each entry of the extra field of a header.
#[derive(Clone, Copy, Debug, PartialEq, Eq, Structural)]
pub struct ZipExtendedInformationHeader {
    pub header_id: u16,
    pub data_size: u16,
}

impl ZipExtendedInformationHeader {
    /// The header whose four bytes stand at place `at` of `data`.
    pub open spec fn parse(data: Seq<u8>, at: int) -> ZipExtendedInformationHeader {
        ZipExtendedInformationHeader { header_id: u16_at(data, at), data_size: u16_at(data, at + 2) }
    }

    /// Reads the four bytes of a header.
    pub fn create_and_load(binary_reader: &mut ByteReader) -> (r: Result<Self, PreflateError>)
        ensures
            final(binary_reader).data == old(binary_reader).data,
            match r {
                Ok(header) => {
                    &&& old(binary_reader).available() >= 4
                    &&& header == Self::parse(
                        old(binary_reader).data@,
                        old(binary_reader).pos as int,
                    )
                    &&& final(binary_reader).pos == old(binary_reader).pos + 4
                },
                Err(e) => old(binary_reader).available() < 4 && e == PreflateError::EndOfStream,
            },
    {
        let mut zip_ext_info_header = Self::new();
        match zip_ext_info_header.load(binary_reader) {
            Ok(()) => Ok(zip_ext_info_header),
            Err(e) => Err(e),
        }
    }

    /// A header with every field 0.
    pub fn new() -> (r: Self)
        ensures
            r == (ZipExtendedInformationHeader { header_id: 0, data_size: 0 }),
    {
        ZipExtendedInformationHeader { header_id: 0, data_size: 0 }
    }

    /// Reads the fields of the header in their order.
    pub fn load(&mut self, binary_reader: &mut ByteReader) -> (r: Result<(), PreflateError>)
        ensures
            final(binary_reader).data == old(binary_reader).data,
            match r {
                Ok(()) => {
                    &&& old(binary_reader).available() >= 4
                    &&& *final(self) == Self::parse(
                        old(binary_reader).data@,
                        old(binary_reader).pos as int,
                    )
                    &&& final(binary_reader).pos == old(binary_reader).pos + 4
                },
                Err(e) => old(binary_reader).available() < 4 && e == PreflateError::EndOfStream,
            },
    {
        self.header_id = binary_reader.read_u16()?;
        self.data_size = binary_reader.read_u16()?;
        Ok(())
    }
}

/// The entry of the central directory for one file.
#[derive(Clone, Copy, Debug, PartialEq, Eq, Structural)]
pub struct ZipCentralDirectoryFileHeader {
    pub central_file_header_signature: u32,
    pub version_made_by: u16,
    pub version_needed_to_extract: u16,
    pub general_purpose_bit_flag: u16,
    pub compression_method: u16,
    pub last_mod_file_time: u16,
    pub last_mod_file_date: u16,
    pub crc32: u32,
    /// Four bytes in the header; the 64-bit extension can replace it.
    pub compressed_size: u64,
    /// Four bytes in the header; the 64-bit extension can replace it.
    pub uncompressed_size: u64,
    pub file_name_length: u16,
    pub extra_field_length: u16,
    pub file_comment_length: u16,
    /// Two bytes in the header; the 64-bit extension can replace it.
    pub disk_number_start: u32,
    pub internal_file_attributes: u16,
    pub external_file_attributes: u32,
    /// Four bytes in the header; the 64-bit extension can replace it.
    pub relative_offset_of_local_header: u64,
}

impl ZipCentralDirectoryFileHeader {
    /// The header whose 46 bytes stand at place `at` of `data`.
    pub open spec fn parse(data: Seq<u8>, at: int) -> ZipCentralDirectoryFileHeader {
        ZipCentralDirectoryFileHeader {
            central_file_header_signature: u32_at(data, at),
            version_made_by: u16_at(data, at + 4),
            version_needed_to_extract: u16_at(data, at + 6),
            general_purpose_bit_flag: u16_at(data, at + 8),
            compression_method: u16_at(data, at + 10),
            last_mod_file_time: u16_at(data, at + 12),
            last_mod_file_date: u16_at(data, at + 14),
            crc32: u32_at(data, at + 16),
            compressed_size: u32_at(data, at + 20) as u64,
            uncompressed_size: u32_at(data, at + 24) as u64,
            file_name_length: u16_at(data, at + 28),
            extra_field_length: u16_at(data, at + 30),
            file_comment_length: u16_at(data, at + 32),
            disk_number_start: u16_at(data, at + 34) as u32,
            internal_file_attributes: u16_at(data, at + 36),
            external_file_attributes: u32_at(data, at + 38),
            relative_offset_of_local_header: u32_at(data, at + 42) as u64,
        }
    }

    /// Reads the 46 bytes of a header.
    pub fn create_and_load(binary_reader: &mut ByteReader) -> (r: Result<Self, PreflateError>)
        ensures
            final(binary_reader).data == old(binary_reader).data,
            match r {
                Ok(header) => {
                    &&& old(binary_reader).available() >= 46
                    &&& header == Self::parse(
                        old(binary_reader).data@,
                        old(binary_reader).pos as int,
                    )
                    &&& final(binary_reader).pos == old(binary_reader).pos + 46
                },
                Err(e) => old(binary_reader).available() < 46 && e == PreflateError::EndOfStream,
            },
    {
        let mut header = Self::new();
        match header.load(binary_reader) {
            Ok(()) => Ok(header),
            Err(e) => Err(e),
        }
    }

    /// A header with every field 0.
    pub fn new() -> (r: Self)
        ensures
            r == (ZipCentralDirectoryFileHeader {
                central_file_header_signature: 0,
                version_made_by: 0,
                version_needed_to_extract: 0,
                general_purpose_bit_flag: 0,
                compression_method: 0,
                last_mod_file_time: 0,
                last_mod_file_date: 0,
                crc32: 0,
                compressed_size: 0,
                uncompressed_size: 0,
                file_name_length: 0,
                extra_field_length: 0,
                file_comment_length: 0,
                disk_number_start: 0,
                internal_file_attributes: 0,
                external_file_attributes: 0,
                relative_offset_of_local_header: 0,
            }),
    {
        ZipCentralDirectoryFileHeader {
            central_file_header_signature: 0,
            version_made_by: 0,
            version_needed_to_extract: 0,
            general_purpose_bit_flag: 0,
            compression_method: 0,
            last_mod_file_time: 0,
            last_mod_file_date: 0,
            crc32: 0,
            compressed_size: 0,
            uncompressed_size: 0,
            file_name_length: 0,
            extra_field_length: 0,
            file_comment_length: 0,
            disk_number_start: 0,
            internal_file_attributes: 0,
            external_file_attributes: 0,
            relative_offset_of_local_header: 0,
        }
    }

    /// Reads the fields of the header in their order.
    pub fn load(&mut self, binary_reader: &mut ByteReader) -> (r: Result<(), PreflateError>)
        ensures
            final(binary_reader).data == old(binary_reader).data,
            match r {
                Ok(()) => {
                    &&& old(binary_reader).available() >= 46
                    &&& *final(self) == Self::parse(
                        old(binary_reader).data@,
                        old(binary_reader).pos as int,
                    )
                    &&& final(binary_reader).pos == old(binary_reader).pos + 46
                },
                Err(e) => old(binary_reader).available() < 46 && e == PreflateError::EndOfStream,
            },
    {
        self.central_file_header_signature = binary_reader.read_u32()?;
        self.version_made_by = binary_reader.read_u16()?;
        self.version_needed_to_extract = binary_reader.read_u16()?;
        self.general_purpose_bit_flag = binary_reader.read_u16()?;
        self.compression_method = binary_reader.read_u16()?;
        self.last_mod_file_time = binary_reader.read_u16()?;
        self.last_mod_file_date = binary_reader.read_u16()?;
        self.crc32 = binary_reader.read_u32()?;
        self.compressed_size = binary_reader.read_u32()? as u64;
        self.uncompressed_size = binary_reader.read_u32()? as u64;
        self.file_name_length = binary_reader.read_u16()?;
        self.extra_field_length = binary_reader.read_u16()?;
        self.file_comment_length = binary_reader.read_u16()?;
        self.disk_number_start = binary_reader.read_u16()? as u32;
        self.internal_file_attributes = binary_reader.read_u16()?;
        self.external_file_attributes = binary_reader.read_u32()?;
        self.relative_offset_of_local_header = binary_reader.read_u32()? as u64;
        Ok(())
    }
}

/// The record that ends the central directory.
#[derive(Clone, Copy, Debug, PartialEq, Eq, Structural)]
pub struct ZipEndOfCentralDirectoryRecord {
    pub end_of_central_dir_signature: u32,
    pub number_of_this_disk: u16,
    pub number_of_the_disk_with_the_start_of_the_central_directory: u16,
    pub total_number_of_entries_in_the_central_directory_on_this_disk: u16,
    pub total_number_of_entries_in_the_central_directory: u16,
    pub size_of_the_central_directory: u32,
    pub offset_of_start_of_central_directory_with_respect_to_the_starting_disk_number: u32,
    /// Length of the comment that follows the record.
    pub zipfile_comment_length: u16,
}

impl ZipEndOfCentralDirectoryRecord {
    /// The record whose 22 bytes stand at place `at` of `data`.
    pub open spec fn parse(data: Seq<u8>, at: int) -> ZipEndOfCentralDirectoryRecord {
        ZipEndOfCentralDirectoryRecord {
            end_of_central_dir_signature: u32_at(data, at),
            number_of_this_disk: u16_at(data, at + 4),
            number_of_the_disk_with_the_start_of_the_central_directory: u16_at(data, at + 6),
            total_number_of_entries_in_the_central_directory_on_this_disk: u16_at(data, at + 8),
            total_number_of_entries_in_the_central_directory: u16_at(data, at + 10),
            size_of_the_central_directory: u32_at(data, at + 12),
            offset_of_start_of_central_directory_with_respect_to_the_starting_disk_number: u32_at(
                data,
                at + 16,
            ),
            zipfile_comment_length: u16_at(data, at + 20),
        }
    }

    /// Reads the 22 bytes of a record.
    pub fn create_and_load(binary_reader: &mut ByteReader) -> (r: Result<Self, PreflateError>)
        ensures
            final(binary_reader).data == old(binary_reader).data,
            match r {
                Ok(record) => {
                    &&& old(binary_reader).available() >= 22
                    &&& record == Self::parse(
                        old(binary_reader).data@,
                        old(binary_reader).pos as int,
                    )
                    &&& final(binary_reader).pos == old(binary_reader).pos + 22
                },
                Err(e) => old(binary_reader).available() < 22 && e == PreflateError::EndOfStream,
            },
    {
        let mut record = Self::new();
        match record.load(binary_reader) {
            Ok(()) => Ok(record),
            Err(e) => Err(e),
        }
    }

    /// A record with every field 0.
    pub fn new() -> (r: Self)
        ensures
            r == (ZipEndOfCentralDirectoryRecord {
                end_of_central_dir_signature: 0,
                number_of_this_disk: 0,
                number_of_the_disk_with_the_start_of_the_central_directory: 0,
                total_number_of_entries_in_the_central_directory_on_this_disk: 0,
                total_number_of_entries_in_the_central_directory: 0,
                size_of_the_central_directory: 0,
                offset_of_start_of_central_directory_with_respect_to_the_starting_disk_number: 0,
                zipfile_comment_length: 0,
            }),
    {
        ZipEndOfCentralDirectoryRecord {
            end_of_central_dir_signature: 0,
            number_of_this_disk: 0,
            number_of_the_disk_with_the_start_of_the_central_directory: 0,
            total_number_of_entries_in_the_central_directory_on_this_disk: 0,
            total_number_of_entries_in_the_central_directory: 0,
            size_of_the_central_directory: 0,
            offset_of_start_of_central_directory_with_respect_to_the_starting_disk_number: 0,
            zipfile_comment_length: 0,
        }
    }

    /// Reads the fields of the record in their order.
    pub fn load(&mut self, binary_reader: &mut ByteReader) -> (r: Result<(), PreflateError>)
        ensures
            final(binary_reader).data == old(binary_reader).data,
            match r {
                Ok(()) => {
                    &&& old(binary_reader).available() >= 22
                    &&& *final(self) == Self::parse(
                        old(binary_reader).data@,
                        old(binary_reader).pos as int,
                    )
                    &&& final(binary_reader).pos == old(binary_reader).pos + 22
                },
                Err(e) => old(binary_reader).available() < 22 && e == PreflateError::EndOfStream,
            },
    {
        self.end_of_central_dir_signature = binary_reader.read_u32()?;
        self.number_of_this_disk = binary_reader.read_u16()?;
        self.number_of_the_disk_with_the_start_of_the_central_directory =
            binary_reader.read_u16()?;
        self.total_number_of_entries_in_the_central_directory_on_this_disk =
            binary_reader.read_u16()?;
        self.total_number_of_entries_in_the_central_directory = binary_reader.read_u16()?;
        self.size_of_the_central_directory = binary_reader.read_u32()?;
        self.offset_of_start_of_central_directory_with_respect_to_the_starting_disk_number =
            binary_reader.read_u32()?;
        self.zipfile_comment_length = binary_reader.read_u16()?;
        Ok(())
    }
}

/// The 64-bit sizes and offsets of a file, from the extra field of its header.
#[derive(Clone, Copy, Debug, PartialEq, Eq, Structural)]
pub struct Zip64ExtendedInformation {
    pub size_original: u64,
    pub size_compressed: u64,
    pub relative_header_offset: u64,
    pub disk_start_number: u32,
}

/// Where the reading of an extension stands: what was read, the place of
/// the next byte, the number of bytes of the extension that are left, and
/// whether a field was cut short.
pub struct Zip64Load {
    pub info: Zip64ExtendedInformation,
    pub at: int,
    pub left: u32,
    pub failed: bool,
}

/// The fields of an extension that can be present.
pub enum Zip64Field {
    SizeOriginal,
    SizeCompressed,
    RelativeHeaderOffset,
    DiskStartNumber,
}

impl Zip64Field {
    /// Number of bytes of the field.
    pub open spec fn size(self) -> int {
        match self {
            Zip64Field::DiskStartNumber => 4,
            _ => 8,
        }
    }
}

impl Zip64Load {
    /// The reading after the field `field` was read, where it is
    /// `wanted`. A field that the extension or the bytes have no room for
    /// fails the reading.
    pub open spec fn read(self, data: Seq<u8>, field: Zip64Field, wanted: bool) -> Zip64Load {
        if self.failed || !wanted {
            self
        } else if self.left < field.size() || data.len() - self.at < field.size() {
            Zip64Load { failed: true, ..self }
        } else {
            Zip64Load {
                info: match field {
                    Zip64Field::SizeOriginal => Zip64ExtendedInformation {
                        size_original: u64_at(data, self.at),
                        ..self.info
                    },
                    Zip64Field::SizeCompressed => Zip64ExtendedInformation {
                        size_compressed: u64_at(data, self.at),
                        ..self.info
                    },
                    Zip64Field::RelativeHeaderOffset => Zip64ExtendedInformation {
                        relative_header_offset: u64_at(data, self.at),
                        ..self.info
                    },
                    Zip64Field::DiskStartNumber => Zip64ExtendedInformation {
                        disk_start_number: u32_at(data, self.at),
                        ..self.info
                    },
                },
                at: self.at + field.size(),
                left: (self.left - field.size()) as u32,
                failed: false,
            }
        }
    }

    /// The reading after the offset of the header and the number of the
    /// disk were read, each where the field of the header is at its largest value.
    pub open spec fn read_place(
        self,
        data: Seq<u8>,
        relative_header_offset32: u32,
        diskstart_number16: u16,
    ) -> Zip64Load {
        self.read(
            data,
            Zip64Field::RelativeHeaderOffset,
            relative_header_offset32 == 0xFFFFFFFF,
        ).read(data, Zip64Field::DiskStartNumber, diskstart_number16 == 0xFFFF)
    }

    /// The reading of a whole extension. In a local header both sizes are
    /// always present, and nothing else has to be; elsewhere a size is
    /// present where the field of the header is at its largest value.
    pub open spec fn read_all(
        self,
        data: Seq<u8>,
        f_local_header: bool,
        size_original32: u32,
        size_compressed32: u32,
        relative_header_offset32: u32,
        diskstart_number16: u16,
    ) -> Zip64Load {
        if f_local_header {
            if self.left < 16 {
                Zip64Load { failed: true, ..self }
            } else {
                let sizes = self.read(data, Zip64Field::SizeOriginal, true).read(
                    data,
                    Zip64Field::SizeCompressed,
                    true,
                );
                if sizes.failed || sizes.left == 0 {
                    sizes
                } else {
                    sizes.read_place(data, relative_header_offset32, diskstart_number16)
                }
            }
        } else {
            self.read(data, Zip64Field::SizeOriginal, size_original32 == 0xFFFFFFFF).read(
                data,
                Zip64Field::SizeCompressed,
                size_compressed32 == 0xFFFFFFFF,
            ).read_place(data, relative_header_offset32, diskstart_number16)
        }
    }
}

impl Zip64ExtendedInformation {
    /// Where the reading stands with `self` read so far.
    pub open spec fn reading(self, at: int, left: u32) -> Zip64Load {
        Zip64Load { info: self, at, left, failed: false }
    }

    /// Reads the extension of `extended_info_size_in_bytes` bytes and
    /// moves the reader behind it. The fields that can be present depend
    /// on the header that the extension belongs to: pass the 32-bit and
    /// 16-bit fields of that header, 0 where it has none.
    pub fn create_and_load(
        binary_reader: &mut ByteReader,
        f_local_header: bool,
        extended_info_size_in_bytes: u32,
        size_original32: u32,
        size_compressed32: u32,
        relative_header_offset32: u32,
        diskstart_number16: u16,
    ) -> (r: Result<Self, PreflateError>)
        ensures
            final(binary_reader).data == old(binary_reader).data,
            ({
                let end = Self::spec_new().reading(
                    old(binary_reader).pos as int,
                    extended_info_size_in_bytes,
                ).read_all(
                    old(binary_reader).data@,
                    f_local_header,
                    size_original32,
                    size_compressed32,
                    relative_header_offset32,
                    diskstart_number16,
                );
                match r {
                    Ok(info) => !end.failed && end.at + end.left <= usize::MAX && info == end.info
                        && final(binary_reader).pos == end.at + end.left,
                    Err(e) => {
                        &&& end.failed || end.at + end.left > usize::MAX
                        &&& e == if end.at + end.left > usize::MAX {
                            PreflateError::InvalidSeek
                        } else {
                            PreflateError::EndOfStream
                        }
                    },
                }
            }),
    {
        let mut zip_ext_info_header = Self::new();
        match zip_ext_info_header.load(
            binary_reader,
            f_local_header,
            extended_info_size_in_bytes,
            size_original32,
            size_compressed32,
            relative_header_offset32,
            diskstart_number16,
        ) {
            Ok(()) => Ok(zip_ext_info_header),
            Err(e) => Err(e),
        }
    }

    /// The extension with every field 0.
    pub open spec fn spec_new() -> Zip64ExtendedInformation {
        Zip64ExtendedInformation {
            size_original: 0,
            size_compressed: 0,
            relative_header_offset: 0,
            disk_start_number: 0,
        }
    }

    /// An extension with every field 0.
    pub fn new() -> (r: Self)
        ensures
            r == Self::spec_new(),
    {
        Zip64ExtendedInformation {
            size_original: 0,
            size_compressed: 0,
            relative_header_offset: 0,
            disk_start_number: 0,
        }
    }

    /// Reads the fields of the extension and moves the reader behind it,
    /// also where a field was cut short.
    pub fn load(
        &mut self,
        binary_reader: &mut ByteReader,
        f_local_header: bool,
        extended_info_size_in_bytes: u32,
        size_original32: u32,
        size_compressed32: u32,
        relative_header_offset32: u32,
        diskstart_number16: u16,
    ) -> (r: Result<(), PreflateError>)
        ensures
            final(binary_reader).data == old(binary_reader).data,
            ({
                let end = old(self).reading(
                    old(binary_reader).pos as int,
                    extended_info_size_in_bytes,
                ).read_all(
                    old(binary_reader).data@,
                    f_local_header,
                    size_original32,
                    size_compressed32,
                    relative_header_offset32,
                    diskstart_number16,
                );
                &&& *final(self) == end.info
                &&& match r {
                    Ok(()) => !end.failed && end.at + end.left <= usize::MAX && final(
                        binary_reader
                    ).pos == end.at + end.left,
                    Err(e) => {
                        &&& end.failed || end.at + end.left > usize::MAX
                        &&& e == if end.at + end.left > usize::MAX {
                            PreflateError::InvalidSeek
                        } else {
                            PreflateError::EndOfStream
                        }
                    },
                }
            }),
    {
        let mut unprocessed_extended_info_size_in_bytes: u32 = extended_info_size_in_bytes;
        let result = self.load_without_seek_forward(
            binary_reader,
            f_local_header,
            &mut unprocessed_extended_info_size_in_bytes,
            size_original32,
            size_compressed32,
            relative_header_offset32,
            diskstart_number16,
        );
        if unprocessed_extended_info_size_in_bytes > 0 {
            binary_reader.seek_current(unprocessed_extended_info_size_in_bytes as i64)?;
        }
        result
    }

    /// Reads one field of the extension where it is wanted.
    fn read_field(
        &mut self,
        binary_reader: &mut ByteReader,
        unprocessed: &mut u32,
        field: Zip64Field,
        wanted: bool,
    ) -> (r: Result<(), PreflateError>)
        ensures
            final(binary_reader).data == old(binary_reader).data,
            (Zip64Load {
                info: *final(self),
                at: final(binary_reader).pos as int,
                left: *final(unprocessed),
                failed: r is Err,
            }) == old(self).reading(old(binary_reader).pos as int, *old(unprocessed)).read(
                old(binary_reader).data@,
                field,
                wanted,
            ),
            r matches Err(e) ==> e == PreflateError::EndOfStream,
    {
        if !wanted {
            return Ok(());
        }
        match field {
            Zip64Field::DiskStartNumber => {
                // The field is there only where the header holds the largest value.
                if *unprocessed < 4 {
                    return Err(PreflateError::EndOfStream);
                }
                self.disk_start_number = binary_reader.read_u32()?;
                *unprocessed = *unprocessed - 4;
            },
            Zip64Field::SizeOriginal => {
                if *unprocessed < 8 {
                    return Err(PreflateError::EndOfStream);
                }
                self.size_original = binary_reader.read_u64()?;
                *unprocessed = *unprocessed - 8;
            },
            Zip64Field::SizeCompressed => {
                if *unprocessed < 8 {
                    return Err(PreflateError::EndOfStream);
                }
                self.size_compressed = binary_reader.read_u64()?;
                *unprocessed = *unprocessed - 8;
            },
            Zip64Field::RelativeHeaderOffset => {
                if *unprocessed < 8 {
                    return Err(PreflateError::EndOfStream);
                }
                self.relative_header_offset = binary_reader.read_u64()?;
                *unprocessed = *unprocessed - 8;
            },
        }
        Ok(())
    }

    /// Reads the fields of the extension that are present and counts
    /// down, in `unprocessed_extended_info_size_in_bytes`, the bytes of the
    /// extension that are left. The reader stays behind the last field read.
    pub fn load_without_seek_forward(
        &mut self,
        binary_reader: &mut ByteReader,
        f_local_header: bool,
        unprocessed_extended_info_size_in_bytes: &mut u32,
        size_original32: u32,
        size_compressed32: u32,
        relative_header_offset32: u32,
        diskstart_number16: u16,
    ) -> (r: Result<(), PreflateError>)
        ensures
            final(binary_reader).data == old(binary_reader).data,
            (Zip64Load {
                info: *final(self),
                at: final(binary_reader).pos as int,
                left: *final(unprocessed_extended_info_size_in_bytes),
                failed: r is Err,
            }) == old(self).reading(
                old(binary_reader).pos as int,
                *old(unprocessed_extended_info_size_in_bytes),
            ).read_all(
                old(binary_reader).data@,
                f_local_header,
                size_original32,
                size_compressed32,
                relative_header_offset32,
                diskstart_number16,
            ),
            r matches Err(e) ==> e == PreflateError::EndOfStream,
    {
        if f_local_header {
            // A local header holds both sizes, whatever its own fields say.
            if *unprocessed_extended_info_size_in_bytes < 16 {
                return Err(PreflateError::EndOfStream);
            }
            self.read_field(
                binary_reader,
                unprocessed_extended_info_size_in_bytes,
                Zip64Field::SizeOriginal,
                true,
            )?;
            self.read_field(
                binary_reader,
                unprocessed_extended_info_size_in_bytes,
                Zip64Field::SizeCompressed,
                true,
            )?;
            if *unprocessed_extended_info_size_in_bytes == 0 {
                return Ok(());
            }
        } else {
            self.read_field(
                binary_reader,
                unprocessed_extended_info_size_in_bytes,
                Zip64Field::SizeOriginal,
                size_original32 == 0xFFFFFFFF,
            )?;
            self.read_field(
                binary_reader,
                unprocessed_extended_info_size_in_bytes,
                Zip64Field::SizeCompressed,
                size_compressed32 == 0xFFFFFFFF,
            )?;
        }
        self.read_field(
            binary_reader,
            unprocessed_extended_info_size_in_bytes,
            Zip64Field::RelativeHeaderOffset,
            relative_header_offset32 == 0xFFFFFFFF,
        )?;
        self.read_field(
            binary_reader,
            unprocessed_extended_info_size_in_bytes,
            Zip64Field::DiskStartNumber,
            diskstart_number16 == 0xFFFF,
        )?;
        Ok(())
    }
}

} // verus!
