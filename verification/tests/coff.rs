use pelink::coff::{
    create_symbol_for_relocation, create_symbol_for_table, read_coff, read_header,
    read_relocations, read_section, read_section_name, read_sections, read_string, read_symbol,
    read_symbols, write_header, write_sections, Header, Relocation, Section, Symbol,
    SymbolTableRecord,
};
use pelink::error::LinkError;
use pelink::stream::ByteReader;

fn put16(out: &mut Vec<u8>, value: u16) {
    out.extend_from_slice(&value.to_le_bytes());
}

fn put32(out: &mut Vec<u8>, value: u32) {
    out.extend_from_slice(&value.to_le_bytes());
}

fn header_bytes(sections: u16, symbol_table: u32, symbols: u32) -> Vec<u8> {
    let mut out = Vec::new();
    put16(&mut out, 0x014c);
    put16(&mut out, sections);
    put32(&mut out, 0x6543_2100);
    put32(&mut out, symbol_table);
    put32(&mut out, symbols);
    put16(&mut out, 0);
    put16(&mut out, 0x0104);
    out
}

fn section_header(
    name: &[u8; 8],
    virtual_size: u32,
    virtual_address: u32,
    raw_size: u32,
    raw_pointer: u32,
    relocation_pointer: u32,
    relocations: u16,
    characteristics: u32,
) -> Vec<u8> {
    let mut out = Vec::new();
    out.extend_from_slice(name);
    put32(&mut out, virtual_size);
    put32(&mut out, virtual_address);
    put32(&mut out, raw_size);
    put32(&mut out, raw_pointer);
    put32(&mut out, relocation_pointer);
    put32(&mut out, 0x1111_1111);
    put16(&mut out, relocations);
    put16(&mut out, 0x2222);
    put32(&mut out, characteristics);
    out
}

fn relocation_bytes(offset: u32, symbol: u32, kind: u16) -> Vec<u8> {
    let mut out = Vec::new();
    put32(&mut out, offset);
    put32(&mut out, symbol);
    put16(&mut out, kind);
    out
}

fn symbol_bytes(name: &[u8; 8], value: u32, section: i16, kind: u16, class: u8, aux: u8) -> Vec<u8> {
    let mut out = Vec::new();
    out.extend_from_slice(name);
    put32(&mut out, value);
    out.extend_from_slice(&section.to_le_bytes());
    put16(&mut out, kind);
    out.push(class);
    out.push(aux);
    out
}

fn symbol(name: &str, value: u32, section: i16, kind: u16, class: u8, aux: u8) -> SymbolTableRecord {
    SymbolTableRecord::Symbol(Symbol {
        name: name.to_string(),
        value,
        section_number: section,
        symbol_type: kind,
        storage_class: class,
        number_of_aux_symbols: aux,
    })
}

/// An object file with two sections, three symbol slots and a string table.
///
/// 0    header; 20 `.text` header; 60 header of a section named at offset 4
/// of the string table; 100 raw data of `.text`
/// (4 bytes); 104 its two relocations; 124 symbol table (3 slots);
/// 178 string table (4 + 10 + 13 bytes).
fn object_file() -> Vec<u8> {
    let mut out = header_bytes(2, 124, 3);
    out.extend(section_header(b".text\0\0\0", 0, 0, 4, 100, 104, 2, 0x6030_0020));
    out.extend(section_header(b"\0\0\0\0\x04\0\0\0", 0, 0, 0, 0, 0, 0, 0xc030_0040));
    assert_eq!(out.len(), 100);
    out.extend_from_slice(&[0xe8, 0, 0, 0]);
    out.extend(relocation_bytes(1, 0, 0x0014));
    out.extend(relocation_bytes(0, 2, 0x0006));
    assert_eq!(out.len(), 124);
    out.extend(symbol_bytes(b"_start\0\0", 0, 1, 0x20, 2, 1));
    out.extend_from_slice(&[7u8; 18]);
    let mut long_name = [0u8; 8];
    long_name[4..].copy_from_slice(&14u32.to_le_bytes());
    out.extend(symbol_bytes(&long_name, 0, 0, 0x20, 2, 0));
    assert_eq!(out.len(), 178);
    put32(&mut out, 27);
    out.extend_from_slice(b".long_sec\0");
    out.extend_from_slice(b"_long_symbol\0");
    assert_eq!(out.len(), 178 + 27);
    out
}

#[test]
fn read_header_decodes_every_field() {
    let mut reader = ByteReader::new(header_bytes(3, 0x1234, 9));
    let header = read_header(&mut reader).unwrap();
    assert_eq!(
        header,
        Header {
            machine: 0x014c,
            number_of_sections: 3,
            time_date_stamp: 0x6543_2100,
            pointer_to_symbol_table: 0x1234,
            number_of_symbols: 9,
            size_of_optional_header: 0,
            characteristics: 0x0104,
        }
    );
    assert_eq!(reader.stream_position(), 20);
}

#[test]
fn read_header_rejects_another_machine() {
    let mut bytes = header_bytes(3, 0x1234, 9);
    bytes[0] = 0x64;
    bytes[1] = 0x86;
    let mut reader = ByteReader::new(bytes);
    assert_eq!(read_header(&mut reader), Err(LinkError::MalformedContainer));
}

#[test]
fn read_header_rejects_a_truncated_header() {
    let mut bytes = header_bytes(3, 0x1234, 9);
    bytes.pop();
    let mut reader = ByteReader::new(bytes);
    assert_eq!(read_header(&mut reader), Err(LinkError::MalformedContainer));
    let mut empty = ByteReader::new(Vec::new());
    assert_eq!(read_header(&mut empty), Err(LinkError::MalformedContainer));
}

#[test]
fn write_header_gives_back_what_was_read() {
    let bytes = header_bytes(3, 0x1234, 9);
    let mut reader = ByteReader::new(bytes.clone());
    let header = read_header(&mut reader).unwrap();
    let mut out = Vec::new();
    write_header(header, &mut out);
    assert_eq!(out, bytes);
    assert_eq!(
        out,
        vec![
            0x4c, 0x01, 0x03, 0x00, 0x00, 0x21, 0x43, 0x65, 0x34, 0x12, 0x00, 0x00, 0x09, 0x00,
            0x00, 0x00, 0x00, 0x00, 0x04, 0x01
        ]
    );
}

#[test]
fn read_string_takes_the_run_up_to_the_terminator() {
    let table = [8, 0, 0, 0, b'a', b'b', 0, b'c'];
    assert_eq!(read_string(&table, 4), Ok("ab".to_string()));
    assert_eq!(read_string(&table, 5), Ok("b".to_string()));
    assert_eq!(read_string(&table, 6), Ok(String::new()));
    assert_eq!(read_string(&table, 1), Ok(String::new()));
    assert_eq!(read_string(&table, 0), Ok("\u{8}".to_string()));
}

#[test]
fn read_string_fails_without_a_terminator() {
    let table = [8, 0, 0, 0, b'a', b'b', 0, b'c'];
    assert_eq!(read_string(&table, 7), Err(LinkError::MalformedContainer));
    assert_eq!(read_string(&table, 8), Err(LinkError::MalformedContainer));
    assert_eq!(read_string(&table, 900), Err(LinkError::MalformedContainer));
    assert_eq!(read_string(&[], 0), Err(LinkError::MalformedContainer));
}

#[test]
fn read_string_takes_one_character_per_byte() {
    let table = [0xe9, 0x41, 0xff, 0];
    assert_eq!(read_string(&table, 0), Ok("\u{e9}A\u{ff}".to_string()));
}

#[test]
fn symbol_name_with_zero_prefix_is_looked_up_at_its_offset() {
    let mut table = vec![0u8; 4];
    table.extend_from_slice(b"first\0second_name\0");
    let mut field = [0u8; 8];
    field[4..].copy_from_slice(&10u32.to_le_bytes());
    let mut reader = ByteReader::new(symbol_bytes(&field, 0x44, 2, 0x20, 2, 0));
    assert_eq!(
        read_symbol(&mut reader, &table),
        Ok(Symbol {
            name: "second_name".to_string(),
            value: 0x44,
            section_number: 2,
            symbol_type: 0x20,
            storage_class: 2,
            number_of_aux_symbols: 0,
        })
    );
    assert_eq!(reader.stream_position(), 18);
}

#[test]
fn symbol_name_offset_without_terminator_is_malformed() {
    let table = b"\0\0\0\0abc".to_vec();
    let mut field = [0u8; 8];
    field[4..].copy_from_slice(&4u32.to_le_bytes());
    let mut reader = ByteReader::new(symbol_bytes(&field, 0, 1, 0, 2, 0));
    assert_eq!(read_symbol(&mut reader, &table), Err(LinkError::MalformedContainer));
}

#[test]
fn literal_symbol_name_keeps_all_eight_bytes() {
    let mut reader = ByteReader::new(symbol_bytes(b"main\0\0\0\0", 1, -1, 0, 3, 0));
    let symbol = read_symbol(&mut reader, &[]).unwrap();
    assert_eq!(symbol.name, "main\0\0\0\0");
    assert_eq!(symbol.section_number, -1);
    assert_eq!(symbol.storage_class, 3);
    let mut full = ByteReader::new(symbol_bytes(b"12345678", 1, 1, 0, 2, 0));
    assert_eq!(read_symbol(&mut full, &[]).unwrap().name, "12345678");
    let mut partly_zero = ByteReader::new(symbol_bytes(b"\0\0\0x\0\0\0\0", 1, 1, 0, 2, 0));
    assert_eq!(read_symbol(&mut partly_zero, &[]).unwrap().name, "\0\0\0x\0\0\0\0");
}

#[test]
fn read_symbol_rejects_a_truncated_record() {
    let mut bytes = symbol_bytes(b"main\0\0\0\0", 1, 1, 0, 2, 0);
    bytes.pop();
    let mut reader = ByteReader::new(bytes);
    assert_eq!(read_symbol(&mut reader, &[]), Err(LinkError::MalformedContainer));
}

#[test]
fn section_name_is_literal_or_an_offset_into_the_string_table() {
    let table = b"\0\0\0\0.debug_info\0".to_vec();
    let mut literal = ByteReader::new(b".text\0\0\0".to_vec());
    assert_eq!(read_section_name(&mut literal, &table), Ok(".text\0\0\0".to_string()));
    assert_eq!(literal.stream_position(), 8);
    let mut offset = ByteReader::new(b"\0\0\0\0\x04\0\0\0".to_vec());
    assert_eq!(read_section_name(&mut offset, &table), Ok(".debug_info".to_string()));
    assert_eq!(offset.stream_position(), 8);
    let mut inside = ByteReader::new(b"\0\0\0\0\x0a\0\0\0".to_vec());
    assert_eq!(read_section_name(&mut inside, &table), Ok("_info".to_string()));
    let mut at_length_field = ByteReader::new(b"\0\0\0\0\0\0\0\0".to_vec());
    assert_eq!(read_section_name(&mut at_length_field, &table), Ok(String::new()));
}

#[test]
fn section_name_with_a_slash_is_literal() {
    for field in [b"/4\0\0\0\0\0\0", b"/\0\0\0\0\0\0\0", b"/4x\0\0\0\0\0", b"/9999999"] {
        let mut reader = ByteReader::new(field.to_vec());
        let expected: String = field.iter().map(|byte| *byte as char).collect();
        assert_eq!(read_section_name(&mut reader, &[]), Ok(expected));
    }
}

#[test]
fn section_name_with_a_non_zero_byte_in_its_first_four_is_literal() {
    let table = b"\0\0\0\0.debug_info\0".to_vec();
    for field in [b"\0\0\0x\x04\0\0\0", b"x\0\0\0\x04\0\0\0", b"\0\x01\0\0\x04\0\0\0"] {
        let mut reader = ByteReader::new(field.to_vec());
        let expected: String = field.iter().map(|byte| *byte as char).collect();
        assert_eq!(read_section_name(&mut reader, &table), Ok(expected));
    }
}

#[test]
fn section_name_offset_without_a_terminated_string_is_malformed() {
    let table = b"\0\0\0\0.debug_info".to_vec();
    for offset in [4u32, 14, 15, 16, 0x0100_0000, u32::MAX] {
        let mut field = vec![0u8; 4];
        field.extend_from_slice(&offset.to_le_bytes());
        let mut reader = ByteReader::new(field);
        assert_eq!(read_section_name(&mut reader, &table), Err(LinkError::MalformedContainer));
        assert_eq!(reader.stream_position(), 0);
    }
    let mut no_table = ByteReader::new(b"\0\0\0\0\x04\0\0\0".to_vec());
    assert_eq!(read_section_name(&mut no_table, &[]), Err(LinkError::MalformedContainer));
    let mut short = ByteReader::new(b".text".to_vec());
    assert_eq!(read_section_name(&mut short, &table), Err(LinkError::MalformedContainer));
}

#[test]
fn section_and_symbol_names_follow_one_rule() {
    let table = b"\0\0\0\0shared_long_name\0".to_vec();
    let field = b"\0\0\0\0\x04\0\0\0";
    let mut as_section = ByteReader::new(field.to_vec());
    let mut as_symbol = ByteReader::new(symbol_bytes(field, 0, 1, 0, 2, 0));
    assert_eq!(read_section_name(&mut as_section, &table), Ok("shared_long_name".to_string()));
    assert_eq!(read_symbol(&mut as_symbol, &table).unwrap().name, "shared_long_name");
}

#[test]
fn read_relocations_decodes_records_in_order() {
    let mut bytes = relocation_bytes(0x10, 3, 0x0006);
    bytes.extend(relocation_bytes(0x20, 4, 0x0014));
    let mut reader = ByteReader::new(bytes.clone());
    assert_eq!(
        read_relocations(&mut reader, 2),
        Ok(vec![
            Relocation { virtual_address: 0x10, symbol_table_index: 3, relocation_type: 6 },
            Relocation { virtual_address: 0x20, symbol_table_index: 4, relocation_type: 0x14 },
        ])
    );
    assert_eq!(reader.stream_position(), 20);
    let mut short = ByteReader::new(bytes);
    assert_eq!(read_relocations(&mut short, 3), Err(LinkError::MalformedContainer));
    let mut none = ByteReader::new(Vec::new());
    none.seek(77);
    assert_eq!(read_relocations(&mut none, 0), Ok(vec![]));
}

#[test]
fn read_section_follows_the_pointers_and_comes_back() {
    let mut reader = ByteReader::new(object_file());
    reader.seek(20);
    let section = read_section(&mut reader, &[]).unwrap();
    assert_eq!(
        section,
        Section {
            name: ".text\0\0\0".to_string(),
            virtual_size: 0,
            virtual_address: 0,
            raw_data: vec![0xe8, 0, 0, 0],
            relocations: vec![
                Relocation { virtual_address: 1, symbol_table_index: 0, relocation_type: 0x14 },
                Relocation { virtual_address: 0, symbol_table_index: 2, relocation_type: 6 },
            ],
            characteristics: 0x6030_0020,
        }
    );
    assert_eq!(reader.stream_position(), 60);
}

#[test]
fn read_sections_rejects_raw_data_outside_the_file() {
    let mut bytes = section_header(b".data\0\0\0", 0, 0, 8, 40, 0, 0, 0x40);
    bytes.extend_from_slice(&[1, 2, 3, 4]);
    let mut reader = ByteReader::new(bytes.clone());
    assert_eq!(read_sections(&mut reader, 1, &[]), Err(LinkError::MalformedContainer));
    bytes.extend_from_slice(&[5, 6, 7, 8]);
    let mut reader = ByteReader::new(bytes);
    let sections = read_sections(&mut reader, 1, &[]).unwrap();
    assert_eq!(sections[0].raw_data, vec![1, 2, 3, 4, 5, 6, 7, 8]);
}

#[test]
fn read_sections_rejects_relocations_outside_the_file() {
    let bytes = section_header(b".data\0\0\0", 0, 0, 0, 0, 35, 1, 0x40);
    let mut reader = ByteReader::new(bytes);
    assert_eq!(read_sections(&mut reader, 1, &[]), Err(LinkError::MalformedContainer));
}

#[test]
fn read_sections_accepts_a_section_without_raw_data_anywhere() {
    let bytes = section_header(b".bss\0\0\0\0", 0x30, 0, 0, 0xffff_0000, 0xffff_0000, 0, 0x80);
    let mut reader = ByteReader::new(bytes);
    let sections = read_sections(&mut reader, 1, &[]).unwrap();
    assert_eq!(sections.len(), 1);
    assert_eq!(sections[0].virtual_size, 0x30);
    assert!(sections[0].raw_data.is_empty());
    assert!(sections[0].relocations.is_empty());
    assert_eq!(reader.stream_position(), 40);
}

#[test]
fn read_sections_of_none_reads_nothing() {
    let mut reader = ByteReader::new(vec![1, 2, 3]);
    assert_eq!(read_sections(&mut reader, 0, &[]), Ok(vec![]));
    assert_eq!(reader.stream_position(), 0);
}

#[test]
fn read_symbols_takes_aux_blocks_whole() {
    let mut bytes = symbol_bytes(b"_a\0\0\0\0\0\0", 1, 1, 0x20, 2, 2);
    bytes.extend_from_slice(&[0xa1; 18]);
    bytes.extend_from_slice(&[0xa2; 18]);
    bytes.extend(symbol_bytes(b"_b\0\0\0\0\0\0", 2, 0, 0, 2, 0));
    bytes.extend(symbol_bytes(b"_c\0\0\0\0\0\0", 3, 0, 0, 2, 0));
    let mut reader = ByteReader::new(bytes);
    let symbols = read_symbols(&mut reader, 4, &[]).unwrap();
    assert_eq!(
        symbols,
        vec![
            symbol("_a\0\0\0\0\0\0", 1, 1, 0x20, 2, 2),
            SymbolTableRecord::Aux([0xa1; 18]),
            SymbolTableRecord::Aux([0xa2; 18]),
            symbol("_b\0\0\0\0\0\0", 2, 0, 0, 2, 0),
        ]
    );
    assert_eq!(reader.stream_position(), 72);
}

#[test]
fn read_symbols_reads_aux_blocks_past_the_declared_count() {
    let mut bytes = symbol_bytes(b"_a\0\0\0\0\0\0", 1, 1, 0x20, 2, 2);
    bytes.extend_from_slice(&[0xa1; 18]);
    bytes.extend_from_slice(&[0xa2; 18]);
    let mut reader = ByteReader::new(bytes.clone());
    let symbols = read_symbols(&mut reader, 1, &[]).unwrap();
    assert_eq!(symbols.len(), 3);
    assert_eq!(symbols[2], SymbolTableRecord::Aux([0xa2; 18]));
    bytes.pop();
    let mut short = ByteReader::new(bytes);
    assert_eq!(read_symbols(&mut short, 1, &[]), Err(LinkError::MalformedContainer));
}

#[test]
fn read_symbols_of_none_reads_nothing() {
    let mut reader = ByteReader::new(Vec::new());
    assert_eq!(read_symbols(&mut reader, 0, &[]), Ok(vec![]));
}

#[test]
fn read_coff_decodes_sections_symbols_and_names() {
    let object = read_coff(ByteReader::new(object_file())).unwrap();
    assert_eq!(object.sections.len(), 2);
    assert_eq!(object.sections[0].name, ".text\0\0\0");
    assert_eq!(object.sections[0].raw_data, vec![0xe8, 0, 0, 0]);
    assert_eq!(object.sections[0].relocations.len(), 2);
    assert_eq!(object.sections[0].characteristics, 0x6030_0020);
    assert_eq!(object.sections[1].name, ".long_sec");
    assert!(object.sections[1].raw_data.is_empty());
    assert_eq!(
        object.symbols,
        vec![
            symbol("_start\0\0", 0, 1, 0x20, 2, 1),
            SymbolTableRecord::Aux([7; 18]),
            symbol("_long_symbol", 0, 0, 0x20, 2, 0),
        ]
    );
}

#[test]
fn read_coff_rejects_a_missing_string_table() {
    let mut bytes = object_file();
    bytes.truncate(178 + 3);
    assert_eq!(read_coff(ByteReader::new(bytes)).err(), Some(LinkError::MalformedContainer));
    let mut bytes = object_file();
    bytes.truncate(178 + 26);
    assert_eq!(read_coff(ByteReader::new(bytes)).err(), Some(LinkError::MalformedContainer));
}

#[test]
fn create_symbol_for_relocation_is_an_undefined_external_function() {
    assert_eq!(
        create_symbol_for_relocation("_puts".to_string()),
        symbol("_puts", 0, 0, 0x0020, 0x02, 0)
    );
}

#[test]
fn create_symbol_for_table_is_a_defined_external_symbol() {
    assert_eq!(
        create_symbol_for_table("_f".to_string(), 0x10, 2, true),
        symbol("_f", 0x10, 2, 0x0020, 0x02, 0)
    );
    assert_eq!(
        create_symbol_for_table("_d".to_string(), 0x20, 3, false),
        symbol("_d", 0x20, 3, 0x0000, 0x02, 0)
    );
}

#[test]
fn write_sections_lays_the_raw_data_out_from_the_first_page() {
    let sections = vec![
        Section {
            name: ".text\0\0\0".to_string(),
            virtual_size: 0x1234,
            virtual_address: 0x1000,
            raw_data: vec![0x90; 0x2000],
            relocations: vec![Relocation {
                virtual_address: 1,
                symbol_table_index: 2,
                relocation_type: 6,
            }],
            characteristics: 0x6000_0020,
        },
        Section {
            name: ".long_section".to_string(),
            virtual_size: 0x10,
            virtual_address: 0x4000,
            raw_data: vec![1; 0x1000],
            relocations: vec![],
            characteristics: 0xc000_0040,
        },
    ];
    let mut out = vec![0xee];
    assert_eq!(write_sections(&sections, &mut out), Ok(()));
    let mut expected = vec![0xee];
    expected.extend_from_slice(b".text\0\0\0");
    put32(&mut expected, 0x1234);
    put32(&mut expected, 0x1000);
    put32(&mut expected, 0x2000);
    put32(&mut expected, 0x1000);
    expected.extend_from_slice(&[0; 12]);
    put32(&mut expected, 0x6000_0020);
    expected.extend_from_slice(b".long_se");
    put32(&mut expected, 0x10);
    put32(&mut expected, 0x4000);
    put32(&mut expected, 0x1000);
    put32(&mut expected, 0x3000);
    expected.extend_from_slice(&[0; 12]);
    put32(&mut expected, 0xc000_0040);
    assert_eq!(out, expected);
}

#[test]
fn write_sections_refuses_raw_data_that_is_not_whole_pages() {
    let mut section = Section {
        name: ".text\0\0\0".to_string(),
        virtual_size: 0,
        virtual_address: 0,
        raw_data: vec![0; 0x1001],
        relocations: vec![],
        characteristics: 0,
    };
    let mut out = vec![1, 2];
    assert_eq!(
        write_sections(&vec![section.clone()], &mut out),
        Err(LinkError::UnsupportedFeature)
    );
    assert_eq!(out, vec![1, 2]);
    section.raw_data = vec![0; 0x200];
    assert_eq!(write_sections(&vec![section], &mut out), Err(LinkError::UnsupportedFeature));
    assert_eq!(out, vec![1, 2]);
}

#[test]
fn write_sections_refuses_a_name_that_does_not_fill_the_field() {
    let good = Section {
        name: "12345678".to_string(),
        virtual_size: 0,
        virtual_address: 0,
        raw_data: vec![],
        relocations: vec![],
        characteristics: 0,
    };
    let mut short = good.clone();
    short.name = ".text".to_string();
    let mut wide = good.clone();
    wide.name = "1234567\u{100}".to_string();
    let mut out = Vec::new();
    assert_eq!(
        write_sections(&vec![good.clone(), short], &mut out),
        Err(LinkError::UnsupportedFeature)
    );
    assert!(out.is_empty());
    assert_eq!(write_sections(&vec![wide], &mut out), Err(LinkError::UnsupportedFeature));
    assert!(out.is_empty());
    assert_eq!(write_sections(&vec![good], &mut out), Ok(()));
    assert_eq!(out.len(), 40);
}

#[test]
fn write_sections_writes_one_byte_for_each_character() {
    let section = Section {
        name: "caf\u{e9}\0\0\0\0".to_string(),
        virtual_size: 0,
        virtual_address: 0,
        raw_data: vec![],
        relocations: vec![],
        characteristics: 0,
    };
    let mut out = Vec::new();
    assert_eq!(write_sections(&vec![section], &mut out), Ok(()));
    assert_eq!(&out[..8], &[b'c', b'a', b'f', 0xe9, 0, 0, 0, 0]);
}

#[test]
fn write_sections_of_none_writes_nothing() {
    let mut out = vec![5];
    assert_eq!(write_sections(&Vec::new(), &mut out), Ok(()));
    assert_eq!(out, vec![5]);
}

#[test]
fn section_table_round_trip_is_byte_identical() {
    // Two headers in the form that the writer gives them, then their raw data.
    let mut table = Vec::new();
    table.extend_from_slice(b".text\0\0\0");
    put32(&mut table, 0x1234);
    put32(&mut table, 0x1000);
    put32(&mut table, 0x1000);
    put32(&mut table, 0x1000);
    table.extend_from_slice(&[0; 12]);
    put32(&mut table, 0x6000_0020);
    table.extend_from_slice(b".data\xff\0\0");
    put32(&mut table, 0x20);
    put32(&mut table, 0x3000);
    put32(&mut table, 0x2000);
    put32(&mut table, 0x2000);
    table.extend_from_slice(&[0; 12]);
    put32(&mut table, 0xc000_0040);
    let mut file = table.clone();
    file.resize(0x1000, 0);
    file.resize(0x2000, 0x90);
    file.resize(0x4000, 0x11);

    let mut reader = ByteReader::new(file);
    let sections = read_sections(&mut reader, 2, &[]).unwrap();
    assert_eq!(sections[0].raw_data, vec![0x90; 0x1000]);
    assert_eq!(sections[1].raw_data, vec![0x11; 0x2000]);
    let mut out = Vec::new();
    assert_eq!(write_sections(&sections, &mut out), Ok(()));
    assert_eq!(out, table);
}

#[test]
fn section_round_trip_keeps_the_fields_that_are_not_made_anew() {
    let mut file = section_header(b".rdata\0\0", 0x77, 0x5000, 0x1000, 48, 40, 0, 0x4000_0040);
    file.resize(48, 0);
    file.resize(48 + 0x1000, 0x33);
    let mut reader = ByteReader::new(file.clone());
    let sections = read_sections(&mut reader, 1, &[]).unwrap();
    let mut out = Vec::new();
    assert_eq!(write_sections(&sections, &mut out), Ok(()));
    assert_eq!(&out[..20], &file[..20]);
    assert_eq!(&out[36..40], &file[36..40]);
    assert_eq!(&out[20..24], &0x1000u32.to_le_bytes());
    assert_eq!(&out[24..36], &[0; 12]);
}
