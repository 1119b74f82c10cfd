use pelink::coff::{Header, Relocation, Section, Symbol, SymbolTableRecord};
use pelink::error::LinkError;
use pelink::image_info::{
    fill_image_and_symbol_table_with_image_info,
    fill_image_relocations_and_symbol_table_with_image_info, fill_symbol_table_with_image_info,
    find_section_number_for_virtual_address, resolve_address, ImageInfo, ImageInfoRelocation,
    ImageInfoSymbol,
};
use pelink::pe::{Image, OptionalHeader};

fn section(address: u32, size: u32) -> Section {
    Section {
        name: ".section".to_string(),
        virtual_size: size,
        virtual_address: address,
        raw_data: vec![1, 2, 3],
        relocations: vec![],
        characteristics: 0x6000_0020,
    }
}

/// Section 1 spans 0x1000..0x402000, section 2 spans 0x403000..0x804000.
fn sections() -> Vec<Section> {
    vec![section(0x1000, 0x0040_1000), section(0x0040_3000, 0x0040_1000)]
}

fn symbol(name: &str, value: u32, section: i16, kind: u16) -> SymbolTableRecord {
    SymbolTableRecord::Symbol(Symbol {
        name: name.to_string(),
        value,
        section_number: section,
        symbol_type: kind,
        storage_class: 2,
        number_of_aux_symbols: 0,
    })
}

fn relocation_at(name: &str, address: u32, kind: u16) -> ImageInfoRelocation {
    ImageInfoRelocation { name: name.to_string(), virtual_address: address, relocation_type: kind }
}

fn symbol_at(name: &str, address: u32, is_function: bool) -> ImageInfoSymbol {
    ImageInfoSymbol { name: name.to_string(), virtual_address: address, is_function }
}

fn image() -> Image {
    Image {
        stub: vec![9],
        pe_signature: 0x4550,
        coff_header: Header {
            machine: 0x014c,
            number_of_sections: 2,
            time_date_stamp: 1,
            pointer_to_symbol_table: 2,
            number_of_symbols: 3,
            size_of_optional_header: 4,
            characteristics: 5,
        },
        optional_header: OptionalHeader {
            magic: 0x010b,
            major_linker_version: 0,
            minor_linker_version: 0,
            size_of_code: 0,
            size_of_initialized_data: 0,
            size_of_uninitialized_data: 0,
            address_of_entry_point: 0,
            base_of_code: 0,
            base_of_data: 0,
            image_base: 0x0040_0000,
            section_alignment: 0x1000,
            file_alignment: 0x1000,
            major_operating_system_version: 0,
            minor_operating_system_version: 0,
            major_image_version: 0,
            minor_image_version: 0,
            major_subsystem_version: 0,
            minor_subsystem_version: 0,
            win32_version_value: 0,
            size_of_image: 0x0080_4000,
            size_of_headers: 0,
            check_sum: 0,
            subsystem: 0,
            dll_characteristics: 0,
            size_of_stack_reserve: 0,
            size_of_stack_commit: 0,
            size_of_heap_reserve: 0,
            size_of_heap_commit: 0,
            loader_flags: 0,
            number_of_rva_and_sizes: 0,
        },
        data_directories: vec![],
        sections: sections(),
    }
}

#[test]
fn an_address_inside_a_section_is_found() {
    let sections = vec![section(0x1000, 0x1000), section(0x2000, 0x500)];
    assert_eq!(find_section_number_for_virtual_address(0x1001, &sections), Ok(1));
    assert_eq!(find_section_number_for_virtual_address(0x1fff, &sections), Ok(1));
    assert_eq!(find_section_number_for_virtual_address(0x2001, &sections), Ok(2));
    assert_eq!(find_section_number_for_virtual_address(0x24ff, &sections), Ok(2));
}

#[test]
fn the_start_of_a_section_is_not_inside_it() {
    let sections = vec![section(0x1000, 0x1000), section(0x3000, 0x500)];
    for _ in 0..3 {
        assert_eq!(
            find_section_number_for_virtual_address(0x1000, &sections),
            Err(LinkError::AddressNotInAnySection)
        );
        assert_eq!(
            find_section_number_for_virtual_address(0x3000, &sections),
            Err(LinkError::AddressNotInAnySection)
        );
    }
    let adjoining = vec![section(0x1000, 0x1000), section(0x2000, 0x500)];
    assert_eq!(
        find_section_number_for_virtual_address(0x2000, &adjoining),
        Err(LinkError::AddressNotInAnySection)
    );
    let overlapping = vec![section(0x2000, 0x500), section(0x1000, 0x2000)];
    assert_eq!(find_section_number_for_virtual_address(0x2000, &overlapping), Ok(2));
}

#[test]
fn an_address_outside_every_section_is_not_found() {
    let sections = vec![section(0x1000, 0x1000), section(0x3000, 0x500)];
    for address in [0, 0xfff, 0x2000, 0x2800, 0x3500, 0x3501, u32::MAX] {
        assert_eq!(
            find_section_number_for_virtual_address(address, &sections),
            Err(LinkError::AddressNotInAnySection)
        );
    }
    assert_eq!(
        find_section_number_for_virtual_address(0x1234, &Vec::new()),
        Err(LinkError::AddressNotInAnySection)
    );
    let empty = vec![section(0x1000, 0), section(0x1000, 1)];
    assert_eq!(
        find_section_number_for_virtual_address(0x1001, &empty),
        Err(LinkError::AddressNotInAnySection)
    );
}

#[test]
fn the_first_section_that_holds_the_address_is_taken() {
    let sections = vec![section(0x3000, 0x10), section(0x1000, 0x5000), section(0x1000, 0x5000)];
    assert_eq!(find_section_number_for_virtual_address(0x3005, &sections), Ok(1));
    assert_eq!(find_section_number_for_virtual_address(0x3010, &sections), Ok(2));
}

#[test]
fn a_section_may_reach_the_end_of_the_address_space() {
    let sections = vec![section(0xffff_0000, 0xffff_0000)];
    assert_eq!(find_section_number_for_virtual_address(0xffff_ffff, &sections), Ok(1));
    assert_eq!(find_section_number_for_virtual_address(0xffff_0001, &sections), Ok(1));
}

#[test]
fn a_section_number_beyond_sixteen_bits_is_unsupported() {
    let mut sections = vec![section(0, 0); 0x7fff];
    sections.push(section(0x1000, 0x1000));
    assert_eq!(
        find_section_number_for_virtual_address(0x1500, &sections),
        Err(LinkError::UnsupportedFeature)
    );
    sections[0x7ffe] = section(0x1000, 0x1000);
    assert_eq!(find_section_number_for_virtual_address(0x1500, &sections), Ok(0x7fff));
}

#[test]
fn resolve_address_takes_off_the_base_and_the_section_start() {
    assert_eq!(resolve_address(0x0040_1010, &sections()), Ok((1, 0x10)));
    assert_eq!(resolve_address(0x0040_1000, &sections()), Ok((1, 0)));
    assert_eq!(resolve_address(0x0040_1fff, &sections()), Ok((1, 0xfff)));
    assert_eq!(resolve_address(0x0080_3004, &sections()), Ok((2, 4)));
}

#[test]
fn resolve_address_fails_below_the_based_section_start() {
    assert_eq!(resolve_address(0x0040_0fff, &sections()), Err(LinkError::AddressNotInAnySection));
    assert_eq!(resolve_address(0x2000, &sections()), Err(LinkError::AddressNotInAnySection));
    assert_eq!(resolve_address(0x0040_3001, &sections()), Err(LinkError::AddressNotInAnySection));
    assert_eq!(resolve_address(0x1000, &sections()), Err(LinkError::AddressNotInAnySection));
    assert_eq!(resolve_address(0x0040_2000, &sections()), Err(LinkError::AddressNotInAnySection));
}

#[test]
fn relocation_descriptors_add_a_symbol_and_a_relocation_each() {
    let mut sections = sections();
    sections[0].relocations.push(Relocation {
        virtual_address: 1,
        symbol_table_index: 0,
        relocation_type: 6,
    });
    let mut table = vec![symbol("_before", 1, 1, 0)];
    let descriptors = vec![
        relocation_at("_hook", 0x0040_1020, 0x0014),
        relocation_at("_far", 0x0080_3008, 0x0006),
        relocation_at("_hook", 0x0040_1030, 0x0007),
    ];
    assert_eq!(
        fill_image_relocations_and_symbol_table_with_image_info(
            descriptors,
            &mut sections,
            &mut table
        ),
        Ok(())
    );
    assert_eq!(
        table,
        vec![
            symbol("_before", 1, 1, 0),
            symbol("_hook", 0, 0, 0x20),
            symbol("_far", 0, 0, 0x20),
            symbol("_hook", 0, 0, 0x20),
        ]
    );
    assert_eq!(
        sections[0].relocations,
        vec![
            Relocation { virtual_address: 1, symbol_table_index: 0, relocation_type: 6 },
            Relocation { virtual_address: 0x20, symbol_table_index: 1, relocation_type: 0x14 },
            Relocation { virtual_address: 0x30, symbol_table_index: 3, relocation_type: 7 },
        ]
    );
    assert_eq!(
        sections[1].relocations,
        vec![Relocation { virtual_address: 8, symbol_table_index: 2, relocation_type: 6 }]
    );
    assert_eq!(sections[0].raw_data, vec![1, 2, 3]);
    assert_eq!(sections[0].virtual_address, 0x1000);
}

#[test]
fn relocation_descriptors_change_nothing_where_one_fails() {
    let mut sections = sections();
    let mut table = vec![symbol("_before", 1, 1, 0)];
    let descriptors = vec![
        relocation_at("_hook", 0x0040_1020, 0x0014),
        relocation_at("_nowhere", 0x0040_2000, 0x0006),
    ];
    assert_eq!(
        fill_image_relocations_and_symbol_table_with_image_info(
            descriptors,
            &mut sections,
            &mut table
        ),
        Err(LinkError::AddressNotInAnySection)
    );
    assert_eq!(table, vec![symbol("_before", 1, 1, 0)]);
    assert!(sections[0].relocations.is_empty());
    assert!(sections[1].relocations.is_empty());
}

#[test]
fn relocation_descriptors_keep_the_kind_code_as_it_is() {
    let mut sections = sections();
    let mut table = Vec::new();
    assert_eq!(
        fill_image_relocations_and_symbol_table_with_image_info(
            vec![relocation_at("_odd", 0x0040_1004, 0x0001)],
            &mut sections,
            &mut table
        ),
        Ok(())
    );
    assert_eq!(sections[0].relocations[0].relocation_type, 1);
}

#[test]
fn symbol_descriptors_add_a_defined_symbol_each() {
    let sections = sections();
    let mut table = vec![symbol("_before", 1, 1, 0)];
    let descriptors = vec![
        symbol_at("_function", 0x0040_1010, true),
        symbol_at("_data", 0x0080_3100, false),
    ];
    assert_eq!(fill_symbol_table_with_image_info(descriptors, &sections, &mut table), Ok(()));
    assert_eq!(
        table,
        vec![
            symbol("_before", 1, 1, 0),
            symbol("_function", 0x10, 1, 0x20),
            symbol("_data", 0x100, 2, 0x00),
        ]
    );
}

#[test]
fn symbol_descriptors_change_nothing_where_one_fails() {
    let sections = sections();
    let mut table = vec![symbol("_before", 1, 1, 0)];
    let descriptors = vec![
        symbol_at("_function", 0x0040_1010, true),
        symbol_at("_start_of_section", 0x1000, false),
    ];
    assert_eq!(
        fill_symbol_table_with_image_info(descriptors, &sections, &mut table),
        Err(LinkError::AddressNotInAnySection)
    );
    assert_eq!(table, vec![symbol("_before", 1, 1, 0)]);
}

#[test]
fn the_overlay_puts_relocation_symbols_before_defined_symbols() {
    let mut image = image();
    let mut table = Vec::new();
    let info = ImageInfo {
        relocations: vec![relocation_at("_hook", 0x0040_1020, 0x0006)],
        symbols: vec![symbol_at("_function", 0x0040_1010, true)],
    };
    assert_eq!(fill_image_and_symbol_table_with_image_info(&mut image, &mut table, info), Ok(()));
    assert_eq!(table, vec![symbol("_hook", 0, 0, 0x20), symbol("_function", 0x10, 1, 0x20)]);
    assert_eq!(
        image.sections[0].relocations,
        vec![Relocation { virtual_address: 0x20, symbol_table_index: 0, relocation_type: 6 }]
    );
    assert!(image.sections[1].relocations.is_empty());
    assert_eq!(image.sections.len(), 2);
    assert_eq!(image.coff_header, self::image().coff_header);
    assert_eq!(image.optional_header, self::image().optional_header);
    assert_eq!(image.stub, vec![9]);
}

#[test]
fn the_overlay_changes_nothing_where_a_symbol_descriptor_fails() {
    let mut image = image();
    let mut table = vec![symbol("_before", 1, 1, 0)];
    let info = ImageInfo {
        relocations: vec![relocation_at("_hook", 0x0040_1020, 0x0006)],
        symbols: vec![symbol_at("_nowhere", 0x0090_0000, true)],
    };
    assert_eq!(
        fill_image_and_symbol_table_with_image_info(&mut image, &mut table, info),
        Err(LinkError::AddressNotInAnySection)
    );
    assert_eq!(table, vec![symbol("_before", 1, 1, 0)]);
    assert_eq!(image.sections, sections());
}

#[test]
fn an_empty_overlay_changes_nothing() {
    let mut image = image();
    let mut table = vec![symbol("_before", 1, 1, 0)];
    let info = ImageInfo { relocations: vec![], symbols: vec![] };
    assert_eq!(fill_image_and_symbol_table_with_image_info(&mut image, &mut table, info), Ok(()));
    assert_eq!(table, vec![symbol("_before", 1, 1, 0)]);
    assert_eq!(image.sections, sections());
}
