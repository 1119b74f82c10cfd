use pelink::coff::Relocation;
use pelink::error::LinkError;
use pelink::image_info::{ImageInfo, ImageInfoRelocation, ImageInfoSymbol};
use pelink::link::link;
use pelink::pe::read_image;
use pelink::stream::ByteReader;

fn put16(out: &mut Vec<u8>, value: u16) {
    out.extend_from_slice(&value.to_le_bytes());
}

fn put32(out: &mut Vec<u8>, value: u32) {
    out.extend_from_slice(&value.to_le_bytes());
}

fn section_header(
    name: &[u8; 8],
    size: u32,
    address: u32,
    raw: u32,
    pointer: u32,
    relocations_at: u32,
    relocations: u16,
    flags: u32,
) -> Vec<u8> {
    let mut out = Vec::new();
    out.extend_from_slice(name);
    put32(&mut out, size);
    put32(&mut out, address);
    put32(&mut out, raw);
    put32(&mut out, pointer);
    put32(&mut out, relocations_at);
    put32(&mut out, 0);
    put16(&mut out, relocations);
    put16(&mut out, 0);
    put32(&mut out, flags);
    out
}

/// An image based at 0x00400000 whose `.text` spans 0x1000..0x402000 and
/// whose `.data` spans 0x403000..0x404000, each with one page of raw data.
fn image_file() -> Vec<u8> {
    let mut out = vec![0u8; 0x40];
    out[0x3c] = 0x40;
    out.extend_from_slice(b"PE\0\0");
    put16(&mut out, 0x014c);
    put16(&mut out, 2);
    put32(&mut out, 0);
    put32(&mut out, 0);
    put32(&mut out, 0);
    put16(&mut out, 0x60);
    put16(&mut out, 0x0102);
    let mut optional = Vec::new();
    put16(&mut optional, 0x010b);
    optional.resize(28, 0);
    put32(&mut optional, 0x0040_0000);
    put32(&mut optional, 0x1000);
    put32(&mut optional, 0x1000);
    optional.resize(56, 0);
    put32(&mut optional, 0x0040_4000);
    optional.resize(96, 0);
    out.extend(optional);
    out.extend(section_header(b".text\0\0\0", 0x0040_1000, 0x1000, 0x1000, 0x1000, 0, 0, 0x6000_0020));
    out.extend(section_header(b".data\0\0\0", 0x1000, 0x0040_3000, 0x1000, 0x2000, 0, 0, 0xc000_0040));
    out.resize(0x1000, 0);
    out.resize(0x2000, 0x90);
    out.resize(0x3000, 0x11);
    out
}

/// An object file with one section of ten bytes: a call to `_ext_function_name`
/// and a load from `_my_data_object`. It defines `_my_data_object` at offset 8
/// and `_my_hook_function` at offset 0 of that section.
fn object_file(call_kind: u16) -> Vec<u8> {
    let mut out = Vec::new();
    put16(&mut out, 0x014c);
    put16(&mut out, 1);
    put32(&mut out, 0);
    put32(&mut out, 90);
    put32(&mut out, 3);
    put16(&mut out, 0);
    put16(&mut out, 0);
    out.extend(section_header(b".text\0\0\0", 0, 0, 10, 60, 70, 2, 0x6030_0020));
    out.extend_from_slice(&[0xe8, 0, 0, 0, 0, 0xa1, 0, 0, 0, 0]);
    put32(&mut out, 1);
    put32(&mut out, 1);
    put16(&mut out, call_kind);
    put32(&mut out, 6);
    put32(&mut out, 0);
    put16(&mut out, 0x0006);
    assert_eq!(out.len(), 90);
    for (offset, value, section, kind) in
        [(4u32, 8u32, 1i16, 0u16), (20, 0, 0, 0x20), (39, 0, 1, 0x20)]
    {
        put32(&mut out, 0);
        put32(&mut out, offset);
        put32(&mut out, value);
        out.extend_from_slice(&section.to_le_bytes());
        put16(&mut out, kind);
        out.push(2);
        out.push(0);
    }
    assert_eq!(out.len(), 144);
    put32(&mut out, 57);
    out.extend_from_slice(b"_my_data_object\0");
    out.extend_from_slice(b"_ext_function_name\0");
    out.extend_from_slice(b"_my_hook_function\0");
    assert_eq!(out.len(), 144 + 57);
    out
}

fn overlay() -> ImageInfo {
    ImageInfo {
        relocations: vec![ImageInfoRelocation {
            name: "_my_hook_function".to_string(),
            virtual_address: 0x0040_1020,
            relocation_type: 0x0006,
        }],
        symbols: vec![ImageInfoSymbol {
            name: "_ext_function_name".to_string(),
            virtual_address: 0x0040_1010,
            is_function: true,
        }],
    }
}

#[test]
fn a_run_merges_unifies_and_patches() {
    let output = link(image_file(), overlay(), object_file(0x0014)).unwrap();
    assert_eq!(output.len(), 0x4000);

    let image = read_image(ByteReader::new(output.clone())).unwrap();
    assert_eq!(image.coff_header.number_of_sections, 3);
    assert_eq!(image.optional_header.size_of_image, 0x0040_5000);
    assert_eq!(image.sections.len(), 3);

    let mut text = vec![0x90; 0x1000];
    text[0x20..0x24].copy_from_slice(&0x0080_4000u32.to_le_bytes());
    assert_eq!(image.sections[0].raw_data, text);
    assert_eq!(image.sections[0].virtual_address, 0x1000);
    assert_eq!(image.sections[1].raw_data, vec![0x11; 0x1000]);

    let merged = &image.sections[2];
    assert_eq!(merged.name, ".text\0\0\0");
    assert_eq!(merged.virtual_address, 0x0040_4000);
    assert_eq!(merged.virtual_size, 0x1000);
    assert_eq!(merged.characteristics, 0x6000_0020);
    let mut raw = vec![0xe8, 0x0b, 0xd0, 0xbf, 0xff, 0xa1, 0x08, 0x40, 0x80, 0x00];
    raw.resize(0x1000, 0xcc);
    assert_eq!(merged.raw_data, raw);
    assert_eq!(merged.relocations, Vec::<Relocation>::new());

    // The third header points at the third page; no symbol table follows.
    let header = 0x40 + 4 + 20 + 96 + 80;
    assert_eq!(&output[header + 16..header + 24], &[0, 0x10, 0, 0, 0, 0x30, 0, 0]);
    assert_eq!(&output[0x3000..0x300a], &raw[..10]);
}

#[test]
fn a_run_without_overlay_or_relocations_appends_the_padded_section() {
    let mut object = object_file(0x0014);
    // No relocations: clear the count in the section header.
    object[20 + 32] = 0;
    let output =
        link(image_file(), ImageInfo { relocations: vec![], symbols: vec![] }, object).unwrap();
    assert_eq!(&output[..0x3000][0x1000..], &image_file()[0x1000..]);
    let mut raw = vec![0xe8, 0, 0, 0, 0, 0xa1, 0, 0, 0, 0];
    raw.resize(0x1000, 0xcc);
    assert_eq!(&output[0x3000..], &raw[..]);
}

#[test]
fn a_run_fails_on_an_unsupported_relocation_kind() {
    assert_eq!(link(image_file(), overlay(), object_file(0x0001)), Err(LinkError::UnsupportedFeature));
}

#[test]
fn a_run_fails_on_an_unresolved_symbol() {
    let mut info = overlay();
    info.symbols.clear();
    assert_eq!(link(image_file(), info, object_file(0x0014)), Err(LinkError::UnresolvedSymbol));
}

#[test]
fn a_run_fails_on_an_overlay_address_in_no_section() {
    let mut info = overlay();
    info.symbols[0].virtual_address = 0x1000;
    assert_eq!(
        link(image_file(), info, object_file(0x0014)),
        Err(LinkError::AddressNotInAnySection)
    );
}

#[test]
fn a_run_fails_on_malformed_inputs() {
    let mut image = image_file();
    image[0x40] = 0;
    assert_eq!(link(image, overlay(), object_file(0x0014)), Err(LinkError::MalformedContainer));
    let mut object = object_file(0x0014);
    object.truncate(150);
    assert_eq!(link(image_file(), overlay(), object), Err(LinkError::MalformedContainer));
    assert_eq!(
        link(Vec::new(), overlay(), object_file(0x0014)),
        Err(LinkError::MalformedContainer)
    );
}

#[test]
fn a_run_fails_on_an_image_that_cannot_be_written() {
    let mut image = image_file();
    // File alignment 0x200: the merged section is padded to less than a page.
    image[0x58 + 36..0x58 + 40].copy_from_slice(&0x200u32.to_le_bytes());
    assert_eq!(link(image, overlay(), object_file(0x0014)), Err(LinkError::UnsupportedFeature));
}

#[test]
fn a_relocation_to_an_aux_slot_fails_the_run() {
    let mut object = object_file(0x0014);
    // The first symbol declares one aux slot: slot 1 is then opaque.
    object[90 + 17] = 1;
    assert_eq!(link(image_file(), overlay(), object), Err(LinkError::AuxRecordMisuse));
}
