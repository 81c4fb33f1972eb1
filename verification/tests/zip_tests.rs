use preflate_rs::byte_reader::ByteReader;
use preflate_rs::preflate_error::PreflateError;
use preflate_rs::zip_bit_reader::ZipBitReader;
use preflate_rs::zip_structs::{
    Zip64ExtendedInformation, ZipCentralDirectoryFileHeader, ZipEndOfCentralDirectoryRecord,
    ZipExtendedInformationHeader, ZipLocalFileHeader, ZIP_CENTRAL_DIRECTORY_FILE_HEADER_SIGNATURE,
    ZIP_END_OF_CENTRAL_DIRECTORY_RECORD_SIGNATURE, ZIP_LOCAL_FILE_HEADER_SIGNATURE,
};

#[test]
fn little_endian_numbers() {
    let data = [0x01, 0x02, 0x03, 0x04, 0x05, 0x06, 0x07, 0x08, 0x09, 0xff, 0xfe];
    let mut reader = ByteReader::new(&data);
    assert_eq!(reader.read_u16(), Ok(0x0201));
    assert_eq!(reader.stream_position(), 2);
    assert_eq!(reader.read_u8(), Ok(0x03));
    assert_eq!(reader.read_u64(), Ok(0xfeff_0908_0706_0504));
    assert_eq!(reader.read_u8(), Err(PreflateError::EndOfStream));
    assert_eq!(reader.seek_current(-8), Ok(()));
    assert_eq!(reader.read_u32(), Ok(0x0706_0504));
    assert_eq!(reader.read_u32(), Ok(0xfeff_0908));
    assert_eq!(reader.seek_current(-3), Ok(()));
    assert_eq!(reader.read_u32(), Err(PreflateError::EndOfStream));
    assert_eq!(reader.stream_position(), 8);
    assert_eq!(reader.read_u16(), Ok(0xff09));
    assert_eq!(reader.read_u16(), Err(PreflateError::EndOfStream));
    assert_eq!(reader.seek_current(-12), Err(PreflateError::InvalidSeek));
    assert_eq!(reader.stream_position(), 10);
    assert_eq!(reader.seek_current(5), Ok(()));
    assert_eq!(reader.read_u8(), Err(PreflateError::EndOfStream));
    assert_eq!(reader.seek_current(i64::MIN), Err(PreflateError::InvalidSeek));
}

fn local_header_bytes() -> Vec<u8> {
    vec![
        0x50, 0x4b, 0x03, 0x04, // signature
        0x14, 0x00, // version
        0x08, 0x00, // flags
        0x08, 0x00, // method
        0x34, 0x12, // time
        0x78, 0x56, // date
        0xef, 0xbe, 0xad, 0xde, // crc
        0x10, 0x20, 0x30, 0x40, // compressed size
        0xff, 0xff, 0xff, 0xff, // uncompressed size
        0x05, 0x00, // name length
        0x1c, 0x00, // extra length
        0xaa, // what follows
    ]
}

#[test]
fn local_file_header() {
    let data = local_header_bytes();
    let mut reader = ByteReader::new(&data);
    let header = ZipLocalFileHeader::create_and_load(&mut reader).unwrap();
    assert_eq!(
        header,
        ZipLocalFileHeader {
            local_file_header_signature: ZIP_LOCAL_FILE_HEADER_SIGNATURE,
            version_needed_to_extract: 20,
            general_purpose_bit_flag: 8,
            compression_method: 8,
            last_mod_file_time: 0x1234,
            last_mod_file_date: 0x5678,
            crc32: 0xdeadbeef,
            compressed_size: 0x40302010,
            uncompressed_size: 0xffffffff,
            file_name_length: 5,
            extra_field_length: 28,
        }
    );
    assert_eq!(reader.stream_position(), 30);
    assert!(header.fhas_data_descriptor());
    let mut plain = header;
    plain.general_purpose_bit_flag = 0x0801;
    assert!(!plain.fhas_data_descriptor());
    assert!(!ZipLocalFileHeader::new().fhas_data_descriptor());

    let mut reader = ByteReader::new(&data[..29]);
    assert_eq!(
        ZipLocalFileHeader::create_and_load(&mut reader),
        Err(PreflateError::EndOfStream)
    );
    let mut reader = ByteReader::new(&data);
    reader.seek_current(2).unwrap();
    assert_eq!(
        ZipLocalFileHeader::create_and_load(&mut reader),
        Err(PreflateError::EndOfStream)
    );
}

#[test]
fn extended_information_header() {
    let data = [0x01, 0x00, 0x1c, 0x00, 0x99];
    let mut reader = ByteReader::new(&data);
    assert_eq!(
        ZipExtendedInformationHeader::create_and_load(&mut reader),
        Ok(ZipExtendedInformationHeader { header_id: 1, data_size: 28 })
    );
    assert_eq!(reader.stream_position(), 4);
    assert_eq!(
        ZipExtendedInformationHeader::create_and_load(&mut reader),
        Err(PreflateError::EndOfStream)
    );
    assert_eq!(
        ZipExtendedInformationHeader::new(),
        ZipExtendedInformationHeader { header_id: 0, data_size: 0 }
    );
}

#[test]
fn central_directory_file_header() {
    let mut data = Vec::new();
    data.extend_from_slice(&[0x50, 0x4b, 0x01, 0x02]);
    for i in 0..42u8 {
        data.push(i + 1);
    }
    let mut reader = ByteReader::new(&data);
    let header = ZipCentralDirectoryFileHeader::create_and_load(&mut reader).unwrap();
    assert_eq!(
        header,
        ZipCentralDirectoryFileHeader {
            central_file_header_signature: ZIP_CENTRAL_DIRECTORY_FILE_HEADER_SIGNATURE,
            version_made_by: 0x0201,
            version_needed_to_extract: 0x0403,
            general_purpose_bit_flag: 0x0605,
            compression_method: 0x0807,
            last_mod_file_time: 0x0a09,
            last_mod_file_date: 0x0c0b,
            crc32: 0x100f0e0d,
            compressed_size: 0x14131211,
            uncompressed_size: 0x18171615,
            file_name_length: 0x1a19,
            extra_field_length: 0x1c1b,
            file_comment_length: 0x1e1d,
            disk_number_start: 0x201f,
            internal_file_attributes: 0x2221,
            external_file_attributes: 0x26252423,
            relative_offset_of_local_header: 0x2a292827,
        }
    );
    assert_eq!(reader.stream_position(), 46);
    let mut reader = ByteReader::new(&data[..45]);
    assert_eq!(
        ZipCentralDirectoryFileHeader::create_and_load(&mut reader),
        Err(PreflateError::EndOfStream)
    );
    assert_eq!(ZipCentralDirectoryFileHeader::new().crc32, 0);
}

#[test]
fn end_of_central_directory_record() {
    let data = [
        0x50, 0x4b, 0x05, 0x06, 0x01, 0x00, 0x02, 0x00, 0x03, 0x00, 0x04, 0x00, 0x05, 0x00, 0x00,
        0x00, 0x06, 0x00, 0x00, 0x01, 0x07, 0x00,
    ];
    let mut reader = ByteReader::new(&data);
    assert_eq!(
        ZipEndOfCentralDirectoryRecord::create_and_load(&mut reader),
        Ok(ZipEndOfCentralDirectoryRecord {
            end_of_central_dir_signature: ZIP_END_OF_CENTRAL_DIRECTORY_RECORD_SIGNATURE,
            number_of_this_disk: 1,
            number_of_the_disk_with_the_start_of_the_central_directory: 2,
            total_number_of_entries_in_the_central_directory_on_this_disk: 3,
            total_number_of_entries_in_the_central_directory: 4,
            size_of_the_central_directory: 5,
            offset_of_start_of_central_directory_with_respect_to_the_starting_disk_number:
                0x01000006,
            zipfile_comment_length: 7,
        })
    );
    let mut reader = ByteReader::new(&data[1..]);
    assert_eq!(
        ZipEndOfCentralDirectoryRecord::create_and_load(&mut reader),
        Err(PreflateError::EndOfStream)
    );
    assert_eq!(ZipEndOfCentralDirectoryRecord::new().zipfile_comment_length, 0);
}

fn zip64_bytes() -> Vec<u8> {
    let mut data = Vec::new();
    data.extend_from_slice(&0x1_0000_0001u64.to_le_bytes());
    data.extend_from_slice(&0x2_0000_0002u64.to_le_bytes());
    data.extend_from_slice(&0x3_0000_0003u64.to_le_bytes());
    data.extend_from_slice(&0x0004_0004u32.to_le_bytes());
    data.extend_from_slice(&[0xee; 8]);
    data
}

#[test]
fn zip64_extension_of_a_local_header() {
    let data = zip64_bytes();
    // Both sizes are read whatever the header says of them.
    let mut reader = ByteReader::new(&data);
    let info = Zip64ExtendedInformation::create_and_load(&mut reader, true, 16, 0, 0, 0, 0);
    assert_eq!(
        info,
        Ok(Zip64ExtendedInformation {
            size_original: 0x1_0000_0001,
            size_compressed: 0x2_0000_0002,
            relative_header_offset: 0,
            disk_start_number: 0,
        })
    );
    assert_eq!(reader.stream_position(), 16);

    // With the sizes alone the other fields are not asked for.
    let mut reader = ByteReader::new(&data);
    let info =
        Zip64ExtendedInformation::create_and_load(&mut reader, true, 16, 0, 0, 0xffffffff, 0xffff);
    assert_eq!(info.unwrap().relative_header_offset, 0);

    let mut reader = ByteReader::new(&data);
    let info =
        Zip64ExtendedInformation::create_and_load(&mut reader, true, 32, 0, 0, 0xffffffff, 0xffff);
    assert_eq!(
        info,
        Ok(Zip64ExtendedInformation {
            size_original: 0x1_0000_0001,
            size_compressed: 0x2_0000_0002,
            relative_header_offset: 0x3_0000_0003,
            disk_start_number: 0x0004_0004,
        })
    );
    // The reader stands behind the extension.
    assert_eq!(reader.stream_position(), 32);

    let mut reader = ByteReader::new(&data);
    assert_eq!(
        Zip64ExtendedInformation::create_and_load(&mut reader, true, 15, 0, 0, 0, 0),
        Err(PreflateError::EndOfStream)
    );
    assert_eq!(reader.stream_position(), 15);
}

#[test]
fn zip64_extension_of_another_header() {
    let data = zip64_bytes();
    let mut reader = ByteReader::new(&data);
    let info = Zip64ExtendedInformation::create_and_load(
        &mut reader,
        false,
        20,
        7,
        0xffffffff,
        0xffffffff,
        0xffff,
    );
    assert_eq!(
        info,
        Ok(Zip64ExtendedInformation {
            size_original: 0,
            size_compressed: 0x1_0000_0001,
            relative_header_offset: 0x2_0000_0002,
            disk_start_number: 3,
        })
    );
    assert_eq!(reader.stream_position(), 20);

    // Nothing is read where no field is at its largest value.
    let mut reader = ByteReader::new(&data);
    let info = Zip64ExtendedInformation::create_and_load(&mut reader, false, 12, 1, 2, 3, 4);
    assert_eq!(info, Ok(Zip64ExtendedInformation::new()));
    assert_eq!(reader.stream_position(), 12);

    // The extension is too short for the number of the disk.
    let mut reader = ByteReader::new(&data);
    assert_eq!(
        Zip64ExtendedInformation::create_and_load(
            &mut reader,
            false,
            10,
            0xffffffff,
            0,
            0,
            0xffff
        ),
        Err(PreflateError::EndOfStream)
    );
    assert_eq!(reader.stream_position(), 10);

    // The bytes end inside of a field.
    let mut reader = ByteReader::new(&data[..12]);
    assert_eq!(
        Zip64ExtendedInformation::create_and_load(
            &mut reader,
            false,
            16,
            0xffffffff,
            0xffffffff,
            0,
            0
        ),
        Err(PreflateError::EndOfStream)
    );
}

#[test]
fn zip64_fields_one_by_one() {
    let data = zip64_bytes();
    let mut reader = ByteReader::new(&data);
    let mut info = Zip64ExtendedInformation::new();
    let mut left: u32 = 13;
    assert_eq!(
        info.load_without_seek_forward(&mut reader, false, &mut left, 0xffffffff, 0, 0, 0xffff),
        Ok(())
    );
    assert_eq!(left, 1);
    assert_eq!(reader.stream_position(), 12);
    assert_eq!(info.size_original, 0x1_0000_0001);
    assert_eq!(info.disk_start_number, 2);
    let mut info = Zip64ExtendedInformation::new();
    let mut reader = ByteReader::new(&data);
    assert_eq!(info.load(&mut reader, true, 40, 0, 0, 0, 0xffff), Ok(()));
    assert_eq!(info.disk_start_number, 3);
    assert_eq!(reader.stream_position(), 40);
}

#[test]
fn bits_are_read_lowest_first() {
    let data = [0b1011_0100, 0b0110_1001, 0xff, 0x00, 0x0f, 0x12, 0x34, 0x56, 0x78, 0x9a, 0xbc];
    let mut bits = ZipBitReader::new(ByteReader::new(&data), 11).unwrap();
    assert_eq!(bits.position(), Ok(0));
    assert_eq!(bits.bit_position_in_current_byte(), 8);
    assert_eq!(bits.get(0), Ok(0));
    assert_eq!(bits.get(3), Ok(0b100));
    assert_eq!(bits.position(), Ok(0));
    assert_eq!(bits.bit_position(), Ok(3));
    assert_eq!(bits.relative_position(), Ok(0));
    assert_eq!(bits.get(5), Ok(0b10110));
    assert_eq!(bits.position(), Ok(1));
    assert_eq!(bits.get(4), Ok(0b1001));
    assert_eq!(bits.get(12), Ok(0xff6));
    // At a byte boundary the bit in the byte is numbered 8.
    assert_eq!(bits.position(), Ok(3));
    assert_eq!(bits.bit_position(), Ok(32));
    assert_eq!(bits.get(33), Err(PreflateError::TooManyBits));
    assert_eq!(bits.get(32), Ok(0x34120f00));
    // Eight bytes went into the buffer, seven of them are used up.
    assert_eq!(bits.position(), Ok(7));
    assert_eq!(bits.read_byte(), Err(PreflateError::BufferNotFlushed));
    assert_eq!(bits.get(4), Ok(0x6));
    assert_eq!(bits.flush_buffer_to_byte_boundary(), Ok(()));
    assert_eq!(bits.position(), Ok(8));
    assert_eq!(bits.read_byte(), Ok(0x78));
    // Two bytes are left: they are read at once.
    assert_eq!(bits.get(16), Ok(0xbc9a));
    assert_eq!(bits.get(1), Err(PreflateError::ReadPastEnd));
}

#[test]
fn bits_buffer_gives_whole_bytes_back() {
    let data = [0x11, 0x22, 0x33, 0x44, 0x55, 0x66, 0x77, 0x88, 0x99];
    let mut reader = ByteReader::new(&data);
    reader.seek_current(1).unwrap();
    let mut bits = ZipBitReader::new(reader, 8).unwrap();
    assert_eq!(bits.get(12), Ok(0x322));
    assert_eq!(bits.relative_position(), Ok(1));
    assert_eq!(bits.position(), Ok(2));
    bits.flush_buffer_to_byte_boundary().unwrap();
    assert_eq!(bits.position(), Ok(3));
    assert_eq!(bits.max_readable_bytes, 6);
    assert_eq!(bits.read_byte(), Ok(0x44));
    assert_eq!(bits.max_readable_bytes, 5);
    // Four bytes are read next, then one.
    assert_eq!(bits.get(32), Ok(0x88776655));
    assert_eq!(bits.get(8), Ok(0x99));
    assert_eq!(bits.get(8), Err(PreflateError::ReadPastEnd));
}

#[test]
fn bits_end_with_the_bytes() {
    let data = [0xab, 0xcd, 0xef];
    let mut bits = ZipBitReader::new(ByteReader::new(&data), 100).unwrap();
    // More may be read than there is.
    assert_eq!(bits.get(8), Err(PreflateError::EndOfStream));
    let mut bits = ZipBitReader::new(ByteReader::new(&data), 3).unwrap();
    assert_eq!(bits.get(20), Ok(0xfcdab));
    assert_eq!(bits.get(4), Ok(0xe));
    assert_eq!(bits.ensure_buffer(), Err(PreflateError::ReadPastEnd));
    // Without a limit the bytes are read one by one.
    let mut bits = ZipBitReader::new(ByteReader::new(&data), -1).unwrap();
    assert_eq!(bits.get(24), Ok(0xefcdab));
    assert_eq!(bits.get(1), Err(PreflateError::EndOfStream));
}

#[test]
fn bits_are_the_bits_of_the_bytes() {
    let data = [0xa5, 0x3c, 0x7e, 0x81, 0x00, 0xff, 0x5a, 0xc3, 0x99, 0x18, 0x24, 0x42];
    // The bytes as one number, the first byte lowest.
    let mut all: u128 = 0;
    for (i, &b) in data.iter().enumerate() {
        all |= (b as u128) << (8 * i);
    }
    for widths in [[1u32, 2, 3, 4, 5], [7, 9, 13, 17, 32], [32, 32, 8, 16, 1], [3, 0, 29, 31, 11]] {
        let mut bits = ZipBitReader::new(ByteReader::new(&data), 12).unwrap();
        let mut at: u32 = 0;
        for n in widths {
            let expected = ((all >> at) & ((1u128 << n) - 1)) as u32;
            assert_eq!(bits.get(n), Ok(expected));
            at += n;
            assert_eq!(bits.position(), Ok((at / 8) as i64));
        }
    }
}

#[test]
fn refused_reads_leave_the_reader_as_it_was() {
    let data = [0x21, 0x43, 0x65, 0x87, 0xa9, 0xcb, 0xed, 0x0f, 0x10, 0x32];
    let mut bits = ZipBitReader::new(ByteReader::new(&data), 10).unwrap();
    assert_eq!(bits.get(4), Ok(0x1));
    let count = bits.count_of_bits_in_buffer;
    let buffer = bits.return_value_buffer;
    let left = bits.max_readable_bytes;
    // More than 32 bits are never handed out.
    for n in [33u32, 40, 64, 1000] {
        assert_eq!(bits.get(n), Err(PreflateError::TooManyBits));
        assert_eq!(bits.count_of_bits_in_buffer, count);
        assert_eq!(bits.return_value_buffer, buffer);
        assert_eq!(bits.max_readable_bytes, left);
        assert_eq!(bits.bit_position(), Ok(4));
    }
    // No bits are no read.
    assert_eq!(bits.get(0), Ok(0));
    assert_eq!(bits.count_of_bits_in_buffer, count);
    assert_eq!(bits.return_value_buffer, buffer);
    assert_eq!(bits.max_readable_bytes, left);
    // A byte is read from an empty buffer only.
    assert_eq!(bits.read_byte(), Err(PreflateError::BufferNotFlushed));
    assert_eq!(bits.count_of_bits_in_buffer, count);
    assert_eq!(bits.return_value_buffer, buffer);
    assert_eq!(bits.max_readable_bytes, left);
    assert_eq!(bits.bit_position(), Ok(4));
    assert_eq!(bits.get(12), Ok(0x432));
}

#[test]
fn bits_are_read_as_long_as_bits_are_left() {
    let data = [0x5a; 16];
    for limit in 0i64..=11 {
        for first in [1u32, 5, 8, 13, 32] {
            let mut bits = ZipBitReader::new(ByteReader::new(&data), limit).unwrap();
            let mut left = 8 * limit as u32;
            // The first read may take all that is left and no more.
            if first <= left {
                assert!(bits.get(first).is_ok());
                left -= first;
            } else {
                assert_eq!(bits.get(first), Err(PreflateError::ReadPastEnd));
                continue;
            }
            assert_eq!(bits.count_of_bits_in_buffer as i64 + 8 * bits.max_readable_bytes, left as i64);
            while left >= 7 {
                assert!(bits.get(7).is_ok());
                left -= 7;
            }
            assert_eq!(bits.get(left + 1), Err(PreflateError::ReadPastEnd));
        }
    }
}
