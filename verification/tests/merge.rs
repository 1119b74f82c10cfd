use pelink::coff::{Header, Relocation, Section, Symbol, SymbolTableRecord, COFF};
use pelink::error::LinkError;
use pelink::merge::{
    append_sections, calculate_aligned_size, check_characteristics, move_symbol, move_symbols,
    IMAGE_SCN_ALIGN_16BYTES, IMAGE_SCN_ALIGN_2BYTES, IMAGE_SCN_ALIGN_32BYTES,
    IMAGE_SCN_ALIGN_4BYTES, IMAGE_SCN_CNT_CODE, IMAGE_SCN_CNT_INITIALIZED_DATA,
    IMAGE_SCN_CNT_UNINITIALIZED_DATA, IMAGE_SCN_LNK_COMDAT, IMAGE_SCN_MEM_EXECUTE,
    IMAGE_SCN_MEM_READ, IMAGE_SCN_MEM_WRITE,
};
use pelink::pe::{Image, OptionalHeader};

fn optional_header(section_alignment: u32, file_alignment: u32, size_of_image: u32) -> OptionalHeader {
    OptionalHeader {
        magic: 0x010b,
        major_linker_version: 0,
        minor_linker_version: 0,
        size_of_code: 0,
        size_of_initialized_data: 0,
        size_of_uninitialized_data: 0,
        address_of_entry_point: 0,
        base_of_code: 0,
        base_of_data: 0,
        image_base: 0x0040_0000,
        section_alignment,
        file_alignment,
        major_operating_system_version: 0,
        minor_operating_system_version: 0,
        major_image_version: 0,
        minor_image_version: 0,
        major_subsystem_version: 0,
        minor_subsystem_version: 0,
        win32_version_value: 0,
        size_of_image,
        size_of_headers: 0,
        check_sum: 0,
        subsystem: 0,
        dll_characteristics: 0,
        size_of_stack_reserve: 0,
        size_of_stack_commit: 0,
        size_of_heap_reserve: 0,
        size_of_heap_commit: 0,
        loader_flags: 0,
        number_of_rva_and_sizes: 0,
    }
}

fn section(name: &str, size: u32, address: u32, raw: Vec<u8>, flags: u32) -> Section {
    Section {
        name: name.to_string(),
        virtual_size: size,
        virtual_address: address,
        raw_data: raw,
        relocations: vec![],
        characteristics: flags,
    }
}

fn image(sections: Vec<Section>, section_alignment: u32, file_alignment: u32) -> Image {
    Image {
        stub: vec![1, 2, 3],
        pe_signature: 0x4550,
        coff_header: Header {
            machine: 0x014c,
            number_of_sections: sections.len() as u16,
            time_date_stamp: 0,
            pointer_to_symbol_table: 0,
            number_of_symbols: 0,
            size_of_optional_header: 0,
            characteristics: 0,
        },
        optional_header: optional_header(section_alignment, file_alignment, 0x3000),
        data_directories: vec![],
        sections,
    }
}

fn two_section_image() -> Image {
    image(
        vec![
            section(".text\0\0\0", 0x123, 0x1000, vec![0x90; 0x1000], 0x6000_0020),
            section(".data\0\0\0", 0x45, 0x2000, vec![0x11; 0x1000], 0xc000_0040),
        ],
        0x1000,
        0x1000,
    )
}

fn symbol(name: &str, section: i16) -> Symbol {
    Symbol {
        name: name.to_string(),
        value: 7,
        section_number: section,
        symbol_type: 0x20,
        storage_class: 2,
        number_of_aux_symbols: 0,
    }
}

fn assert_same_image(left: &Image, right: &Image) {
    assert_eq!(left.stub, right.stub);
    assert_eq!(left.pe_signature, right.pe_signature);
    assert_eq!(left.coff_header, right.coff_header);
    assert_eq!(left.optional_header, right.optional_header);
    assert_eq!(left.data_directories, right.data_directories);
    assert_eq!(left.sections, right.sections);
}

#[test]
fn calculate_aligned_size_rounds_up_to_the_next_multiple() {
    assert_eq!(calculate_aligned_size(0, 0x1000), Ok(0));
    assert_eq!(calculate_aligned_size(1, 0x1000), Ok(0x1000));
    assert_eq!(calculate_aligned_size(0xfff, 0x1000), Ok(0x1000));
    assert_eq!(calculate_aligned_size(0x1000, 0x1000), Ok(0x1000));
    assert_eq!(calculate_aligned_size(0x1001, 0x1000), Ok(0x2000));
    assert_eq!(calculate_aligned_size(5, 3), Ok(6));
    assert_eq!(calculate_aligned_size(7, 1), Ok(7));
    assert_eq!(calculate_aligned_size(0xffff_f000, 0x1000), Ok(0xffff_f000));
    assert_eq!(calculate_aligned_size(u32::MAX, u32::MAX), Ok(u32::MAX));
}

#[test]
fn calculate_aligned_size_fails_on_zero_alignment_and_on_overflow() {
    assert_eq!(calculate_aligned_size(5, 0), Err(LinkError::MalformedContainer));
    assert_eq!(calculate_aligned_size(0, 0), Err(LinkError::MalformedContainer));
    assert_eq!(calculate_aligned_size(0xffff_f001, 0x1000), Err(LinkError::UnsupportedFeature));
    assert_eq!(calculate_aligned_size(u32::MAX, 2), Err(LinkError::UnsupportedFeature));
}

#[test]
fn characteristics_are_allowed_in_five_combinations_only() {
    let kept = IMAGE_SCN_CNT_CODE
        | IMAGE_SCN_CNT_INITIALIZED_DATA
        | IMAGE_SCN_CNT_UNINITIALIZED_DATA
        | IMAGE_SCN_MEM_EXECUTE
        | IMAGE_SCN_MEM_READ
        | IMAGE_SCN_MEM_WRITE;
    for allowed in [
        IMAGE_SCN_LNK_COMDAT | IMAGE_SCN_ALIGN_4BYTES,
        IMAGE_SCN_ALIGN_2BYTES,
        IMAGE_SCN_ALIGN_4BYTES,
        IMAGE_SCN_ALIGN_16BYTES,
        IMAGE_SCN_ALIGN_32BYTES,
    ] {
        assert!(check_characteristics(allowed));
        assert!(check_characteristics(allowed | kept));
        assert!(check_characteristics(allowed | IMAGE_SCN_CNT_CODE | IMAGE_SCN_MEM_READ));
    }
    for refused in [
        0,
        kept,
        IMAGE_SCN_LNK_COMDAT,
        IMAGE_SCN_LNK_COMDAT | IMAGE_SCN_ALIGN_2BYTES,
        IMAGE_SCN_LNK_COMDAT | IMAGE_SCN_ALIGN_16BYTES,
        0x0010_0000,
        0x0040_0000,
        0x0070_0000,
        IMAGE_SCN_ALIGN_4BYTES | 0x0000_0200,
        IMAGE_SCN_ALIGN_4BYTES | 0x0200_0000,
    ] {
        assert!(!check_characteristics(refused));
        assert!(!check_characteristics(refused | IMAGE_SCN_CNT_CODE));
    }
}

#[test]
fn move_symbol_moves_defined_symbols_only() {
    let mut defined = symbol("_f", 1);
    assert_eq!(move_symbol(&mut defined, 4), Ok(()));
    assert_eq!(defined, symbol("_f", 5));
    let mut undefined = symbol("_g", 0);
    assert_eq!(move_symbol(&mut undefined, 4), Ok(()));
    assert_eq!(undefined, symbol("_g", 0));
    let mut absolute = symbol("_h", -1);
    assert_eq!(move_symbol(&mut absolute, 4), Ok(()));
    assert_eq!(absolute, symbol("_h", -1));
    let mut debug = symbol("_i", -2);
    assert_eq!(move_symbol(&mut debug, i16::MAX), Ok(()));
    assert_eq!(debug, symbol("_i", -2));
}

#[test]
fn move_symbol_fails_where_the_number_does_not_fit() {
    let mut last = symbol("_f", 1);
    assert_eq!(move_symbol(&mut last, i16::MAX - 1), Ok(()));
    assert_eq!(last.section_number, i16::MAX);
    let mut over = symbol("_f", 1);
    assert_eq!(move_symbol(&mut over, i16::MAX), Err(LinkError::UnsupportedFeature));
    assert_eq!(over, symbol("_f", 1));
    let mut far = symbol("_f", 300);
    assert_eq!(move_symbol(&mut far, i16::MAX - 299), Err(LinkError::UnsupportedFeature));
    assert_eq!(far, symbol("_f", 300));
}

#[test]
fn move_symbols_keeps_order_and_aux_blocks() {
    let mut table = vec![
        SymbolTableRecord::Symbol(symbol("_a", 2)),
        SymbolTableRecord::Aux([9; 18]),
        SymbolTableRecord::Symbol(symbol("_b", 0)),
        SymbolTableRecord::Symbol(symbol("_c", 1)),
    ];
    assert_eq!(move_symbols(&mut table, 3), Ok(()));
    assert_eq!(
        table,
        vec![
            SymbolTableRecord::Symbol(symbol("_a", 5)),
            SymbolTableRecord::Aux([9; 18]),
            SymbolTableRecord::Symbol(symbol("_b", 0)),
            SymbolTableRecord::Symbol(symbol("_c", 4)),
        ]
    );
}

#[test]
fn move_symbols_changes_nothing_where_one_symbol_cannot_move() {
    let original = vec![
        SymbolTableRecord::Symbol(symbol("_a", 2)),
        SymbolTableRecord::Symbol(symbol("_b", i16::MAX)),
    ];
    let mut table = original.clone();
    assert_eq!(move_symbols(&mut table, 1), Err(LinkError::UnsupportedFeature));
    assert_eq!(table, original);
    let mut empty: Vec<SymbolTableRecord> = Vec::new();
    assert_eq!(move_symbols(&mut empty, 1), Ok(()));
}

#[test]
fn append_sections_places_pads_shifts_and_strips() {
    let mut image = two_section_image();
    let mut first = section(".text\0\0\0", 0x99, 0x77, vec![0xe8, 0, 0, 0], 0x6030_0020);
    first.relocations = vec![
        Relocation { virtual_address: 1, symbol_table_index: 0, relocation_type: 0x14 },
        Relocation { virtual_address: 0, symbol_table_index: 5, relocation_type: 6 },
    ];
    let empty = section(".bss\0\0\0\0", 0x40, 0, vec![], 0xc030_0080);
    let third = section(".rdata\0\0", 0, 0, vec![0x22; 0x1001], 0xc030_1040);
    let mut coff = COFF {
        sections: vec![first, empty.clone(), third],
        symbols: vec![SymbolTableRecord::Aux([1; 18])],
    };

    assert_eq!(append_sections(&mut image, &mut coff, 3), Ok(()));

    assert_eq!(image.sections.len(), 4);
    assert_eq!(image.coff_header.number_of_sections, 4);
    assert_eq!(image.optional_header.size_of_image, 0x3000 + 0x1000 + 0x2000);
    assert_eq!(image.sections[0], two_section_image().sections[0]);
    assert_eq!(image.sections[1], two_section_image().sections[1]);

    let mut padded = vec![0xe8, 0, 0, 0];
    padded.resize(0x1000, 0xcc);
    assert_eq!(
        image.sections[2],
        Section {
            name: ".text\0\0\0".to_string(),
            virtual_size: 0x1000,
            virtual_address: 0x3000,
            raw_data: padded,
            relocations: vec![
                Relocation { virtual_address: 1, symbol_table_index: 3, relocation_type: 0x14 },
                Relocation { virtual_address: 0, symbol_table_index: 8, relocation_type: 6 },
            ],
            characteristics: 0x6000_0020,
        }
    );
    let mut padded = vec![0x22; 0x1001];
    padded.resize(0x2000, 0xcc);
    assert_eq!(
        image.sections[3],
        Section {
            name: ".rdata\0\0".to_string(),
            virtual_size: 0x2000,
            virtual_address: 0x4000,
            raw_data: padded,
            relocations: vec![],
            characteristics: 0xc000_0040,
        }
    );

    assert_eq!(coff.sections, vec![Section::default(), empty, Section::default()]);
    assert_eq!(coff.symbols, vec![SymbolTableRecord::Aux([1; 18])]);
}

#[test]
fn append_sections_of_nothing_changes_nothing() {
    let mut image = two_section_image();
    let mut coff = COFF { sections: vec![], symbols: vec![] };
    assert_eq!(append_sections(&mut image, &mut coff, 5), Ok(()));
    assert_same_image(&image, &two_section_image());
    assert_eq!(image.coff_header.number_of_sections, 2);
    assert_eq!(image.optional_header.size_of_image, 0x3000);
    assert_eq!(image.sections.len(), 2);
}

#[test]
fn append_sections_drops_sections_without_raw_data() {
    let mut image = two_section_image();
    let empty = section(".bss\0\0\0\0", 0x40, 0, vec![], 0xffff_ffff);
    let mut coff = COFF { sections: vec![empty.clone(), empty.clone()], symbols: vec![] };
    assert_eq!(append_sections(&mut image, &mut coff, u32::MAX), Ok(()));
    assert_same_image(&image, &two_section_image());
    assert_eq!(coff.sections, vec![empty.clone(), empty]);
}

#[test]
fn append_sections_on_an_image_without_sections_needs_no_place() {
    let mut bare = image(vec![], 0x1000, 0x1000);
    let mut coff = COFF { sections: vec![section("a", 0, 0, vec![], 0)], symbols: vec![] };
    assert_eq!(append_sections(&mut bare, &mut coff, 0), Ok(()));
    assert!(bare.sections.is_empty());
    let mut coff = COFF {
        sections: vec![section("a", 0, 0, vec![1], IMAGE_SCN_ALIGN_4BYTES)],
        symbols: vec![],
    };
    assert_eq!(append_sections(&mut bare, &mut coff, 0), Err(LinkError::MalformedContainer));
    assert!(bare.sections.is_empty());
}

#[test]
fn append_sections_keeps_raw_data_that_is_aligned_already() {
    let mut image = two_section_image();
    let mut coff = COFF {
        sections: vec![section("12345678", 0, 0, vec![5; 0x2000], IMAGE_SCN_ALIGN_32BYTES)],
        symbols: vec![],
    };
    assert_eq!(append_sections(&mut image, &mut coff, 0), Ok(()));
    assert_eq!(image.sections[2].raw_data, vec![5; 0x2000]);
    assert_eq!(image.sections[2].virtual_size, 0x2000);
    assert_eq!(image.sections[2].characteristics, 0);
}

#[test]
fn append_sections_rounds_sizes_and_padding_by_their_own_alignments() {
    let mut image = image(
        vec![section(".text\0\0\0", 0x201, 0x400, vec![0x90; 0x10], 0x6000_0020)],
        0x200,
        0x10,
    );
    let mut coff = COFF {
        sections: vec![section("12345678", 0, 0, vec![5; 0x21], IMAGE_SCN_ALIGN_2BYTES)],
        symbols: vec![],
    };
    assert_eq!(append_sections(&mut image, &mut coff, 0), Ok(()));
    assert_eq!(image.sections[1].virtual_address, 0x400 + 0x400);
    assert_eq!(image.sections[1].virtual_size, 0x200);
    assert_eq!(image.sections[1].raw_data.len(), 0x30);
    assert_eq!(&image.sections[1].raw_data[0x21..], &[0xcc; 0xf]);
    assert_eq!(image.optional_header.size_of_image, 0x3200);
}

#[test]
fn append_sections_refuses_other_characteristics_and_changes_nothing() {
    let mut image = two_section_image();
    let good = section(".text\0\0\0", 0, 0, vec![1, 2], 0x6030_0020);
    let mut bad = section(".odd\0\0\0\0", 0, 0, vec![3], 0x6040_0020);
    bad.relocations =
        vec![Relocation { virtual_address: 0, symbol_table_index: 1, relocation_type: 6 }];
    let mut coff = COFF { sections: vec![good.clone(), bad.clone()], symbols: vec![] };
    assert_eq!(append_sections(&mut image, &mut coff, 2), Err(LinkError::UnsupportedFeature));
    assert_same_image(&image, &two_section_image());
    assert_eq!(coff.sections, vec![good, bad]);
}

#[test]
fn append_sections_refuses_zero_alignments() {
    let object = || COFF {
        sections: vec![section(".text\0\0\0", 0, 0, vec![1], IMAGE_SCN_ALIGN_4BYTES)],
        symbols: vec![],
    };
    let mut no_section_alignment = two_section_image();
    no_section_alignment.optional_header.section_alignment = 0;
    assert_eq!(
        append_sections(&mut no_section_alignment, &mut object(), 0),
        Err(LinkError::MalformedContainer)
    );
    let mut no_file_alignment = two_section_image();
    no_file_alignment.optional_header.file_alignment = 0;
    assert_eq!(
        append_sections(&mut no_file_alignment, &mut object(), 0),
        Err(LinkError::MalformedContainer)
    );
    assert_eq!(no_file_alignment.sections.len(), 2);
}

#[test]
fn append_sections_refuses_a_last_section_that_is_not_aligned() {
    let mut image = two_section_image();
    image.sections[1].virtual_address = 0x2004;
    let mut coff = COFF {
        sections: vec![section(".text\0\0\0", 0, 0, vec![1], IMAGE_SCN_ALIGN_4BYTES)],
        symbols: vec![],
    };
    assert_eq!(append_sections(&mut image, &mut coff, 0), Err(LinkError::MalformedContainer));
    assert_eq!(image.sections.len(), 2);
}

#[test]
fn append_sections_refuses_what_does_not_fit_in_32_bits() {
    let object = || COFF {
        sections: vec![section(".text\0\0\0", 0, 0, vec![1], IMAGE_SCN_ALIGN_4BYTES)],
        symbols: vec![],
    };
    let mut high = two_section_image();
    high.sections[1].virtual_address = 0xffff_f000;
    assert_eq!(append_sections(&mut high, &mut object(), 0), Err(LinkError::UnsupportedFeature));

    let mut large = two_section_image();
    large.optional_header.size_of_image = 0xffff_f001;
    assert_eq!(append_sections(&mut large, &mut object(), 0), Err(LinkError::UnsupportedFeature));
    large.optional_header.size_of_image = 0xffff_efff;
    assert_eq!(append_sections(&mut large, &mut object(), 0), Ok(()));
    assert_eq!(large.optional_header.size_of_image, 0xffff_ffff);

    let mut full = two_section_image();
    full.coff_header.number_of_sections = u16::MAX;
    assert_eq!(append_sections(&mut full, &mut object(), 0), Err(LinkError::UnsupportedFeature));
    assert_eq!(full.coff_header.number_of_sections, u16::MAX);

    let mut shifted = object();
    shifted.sections[0].relocations =
        vec![Relocation { virtual_address: 0, symbol_table_index: 2, relocation_type: 6 }];
    let mut image = two_section_image();
    assert_eq!(
        append_sections(&mut image, &mut shifted, u32::MAX - 1),
        Err(LinkError::UnsupportedFeature)
    );
    assert_eq!(shifted.sections[0].relocations[0].symbol_table_index, 2);
    assert_eq!(append_sections(&mut image, &mut shifted, u32::MAX - 2), Ok(()));
    assert_eq!(image.sections[2].relocations[0].symbol_table_index, u32::MAX);
}

#[test]
fn append_sections_reports_the_first_failure_in_order() {
    let mut image = two_section_image();
    image.optional_header.file_alignment = 0;
    let mut coff = COFF {
        sections: vec![section(".text\0\0\0", 0, 0, vec![1], 0x0040_0000)],
        symbols: vec![],
    };
    assert_eq!(append_sections(&mut image, &mut coff, 0), Err(LinkError::MalformedContainer));
}
