//! The executable image: the preamble, the signature, the object-style
//! header, the extended header, the data directories and the sections.

use crate::coff::{
    header_bytes, lemma_section_table_bytes, parse_header, parse_sections, raw_data_pointer,
    read_header, read_sections, section_placed, section_table_bytes, section_views,
    sections_writable, write_header, write_sections, Header, Section, SectionView,
    RAW_DATA_START,
};
use crate::endian::{u16_to_le, u32_to_le};
use crate::error::LinkError;
use crate::stream::{
    bytes_at, in_bounds, u16_at, u32_at, write_all, write_u16, write_u32, write_u8, ByteReader,
};
use vstd::prelude::*;

verus! {

/// Where an image keeps the position of its signature.
pub const PE_SIGNATURE_OFFSET: u64 = 0x3c;

/// The signature of every supported image.
pub const PE_SIGNATURE: u32 = 0x0000_4550;

/// The magic of the extended header of a 32-bit image.
pub const OPTIONAL_HEADER_MAGIC: u16 = 0x010b;

/// The extended header of a 32-bit image.
#[derive(Clone, Copy, Debug, PartialEq, Eq, Structural)]
pub struct OptionalHeader {
    pub magic: u16,
    pub major_linker_version: u8,
    pub minor_linker_version: u8,
    pub size_of_code: u32,
    pub size_of_initialized_data: u32,
    pub size_of_uninitialized_data: u32,
    pub address_of_entry_point: u32,
    pub base_of_code: u32,
    pub base_of_data: u32,
    pub image_base: u32,
    pub section_alignment: u32,
    pub file_alignment: u32,
    pub major_operating_system_version: u16,
    pub minor_operating_system_version: u16,
    pub major_image_version: u16,
    pub minor_image_version: u16,
    pub major_subsystem_version: u16,
    pub minor_subsystem_version: u16,
    pub win32_version_value: u32,
    pub size_of_image: u32,
    pub size_of_headers: u32,
    pub check_sum: u32,
    pub subsystem: u16,
    pub dll_characteristics: u16,
    pub size_of_stack_reserve: u32,
    pub size_of_stack_commit: u32,
    pub size_of_heap_reserve: u32,
    pub size_of_heap_commit: u32,
    pub loader_flags: u32,
    pub number_of_rva_and_sizes: u32,
}

/// One entry of the data-directory list.
#[derive(Clone, Copy, Debug, PartialEq, Eq, Structural)]
pub struct DataDirectory {
    pub virtual_address: u32,
    pub size: u32,
}

/// An executable image, decoded.
#[derive(Debug)]
pub struct Image {
    pub stub: Vec<u8>,
    pub pe_signature: u32,
    pub coff_header: Header,
    pub optional_header: OptionalHeader,
    pub data_directories: Vec<DataDirectory>,
    pub sections: Vec<Section>,
}

/// What an [`Image`] is, as a mathematical value.
pub struct ImageView {
    pub stub: Seq<u8>,
    pub pe_signature: u32,
    pub coff_header: Header,
    pub optional_header: OptionalHeader,
    pub data_directories: Seq<DataDirectory>,
    pub sections: Seq<SectionView>,
}

impl View for Image {
    type V = ImageView;

    open spec fn view(&self) -> ImageView {
        ImageView {
            stub: self.stub@,
            pe_signature: self.pe_signature,
            coff_header: self.coff_header,
            optional_header: self.optional_header,
            data_directories: self.data_directories@,
            sections: section_views(self.sections@),
        }
    }
}

/// The extended header that the ninety-six bytes of `data` at `pos` encode,
/// whatever its magic.
pub open spec fn optional_header_at(data: Seq<u8>, pos: int) -> OptionalHeader {
    OptionalHeader {
        magic: u16_at(data, pos + 0),
        major_linker_version: data[pos + 2],
        minor_linker_version: data[pos + 3],
        size_of_code: u32_at(data, pos + 4),
        size_of_initialized_data: u32_at(data, pos + 8),
        size_of_uninitialized_data: u32_at(data, pos + 12),
        address_of_entry_point: u32_at(data, pos + 16),
        base_of_code: u32_at(data, pos + 20),
        base_of_data: u32_at(data, pos + 24),
        image_base: u32_at(data, pos + 28),
        section_alignment: u32_at(data, pos + 32),
        file_alignment: u32_at(data, pos + 36),
        major_operating_system_version: u16_at(data, pos + 40),
        minor_operating_system_version: u16_at(data, pos + 42),
        major_image_version: u16_at(data, pos + 44),
        minor_image_version: u16_at(data, pos + 46),
        major_subsystem_version: u16_at(data, pos + 48),
        minor_subsystem_version: u16_at(data, pos + 50),
        win32_version_value: u32_at(data, pos + 52),
        size_of_image: u32_at(data, pos + 56),
        size_of_headers: u32_at(data, pos + 60),
        check_sum: u32_at(data, pos + 64),
        subsystem: u16_at(data, pos + 68),
        dll_characteristics: u16_at(data, pos + 70),
        size_of_stack_reserve: u32_at(data, pos + 72),
        size_of_stack_commit: u32_at(data, pos + 76),
        size_of_heap_reserve: u32_at(data, pos + 80),
        size_of_heap_commit: u32_at(data, pos + 84),
        loader_flags: u32_at(data, pos + 88),
        number_of_rva_and_sizes: u32_at(data, pos + 92),
    }
}

/// Decoding an extended header at `pos`: a truncated one is malformed, one
/// with another magic belongs to an image that is not 32-bit.
pub open spec fn parse_optional_header(data: Seq<u8>, pos: int) -> Result<
    OptionalHeader,
    LinkError,
> {
    if !in_bounds(data, pos, 2) {
        Err(LinkError::MalformedContainer)
    } else if u16_at(data, pos) != OPTIONAL_HEADER_MAGIC {
        Err(LinkError::UnsupportedFeature)
    } else if !in_bounds(data, pos, 96) {
        Err(LinkError::MalformedContainer)
    } else {
        Ok(optional_header_at(data, pos))
    }
}

/// Reads the extended header at the reader's position and moves past it.
/// On failure the reader stays where it was.
pub fn read_optional_header(pe: &mut ByteReader) -> (header: Result<OptionalHeader, LinkError>)
    ensures
        final(pe).data@ == old(pe).data@,
        header == parse_optional_header(old(pe).data@, old(pe).position as int),
        final(pe).position == if header is Ok {
            old(pe).position + 96
        } else {
            old(pe).position as int
        },
{
    let start: u64 = pe.stream_position();
    let magic: u16 = pe.read_u16()?;
    if magic != OPTIONAL_HEADER_MAGIC {
        pe.seek(start);
        return Err(LinkError::UnsupportedFeature);
    }
    let len: usize = pe.data.len();
    if len < 96 || start > (len - 96) as u64 {
        pe.seek(start);
        return Err(LinkError::MalformedContainer);
    }
    let major_linker_version: u8 = pe.read_u8()?;
    let minor_linker_version: u8 = pe.read_u8()?;
    let size_of_code: u32 = pe.read_u32()?;
    let size_of_initialized_data: u32 = pe.read_u32()?;
    let size_of_uninitialized_data: u32 = pe.read_u32()?;
    let address_of_entry_point: u32 = pe.read_u32()?;
    let base_of_code: u32 = pe.read_u32()?;
    let base_of_data: u32 = pe.read_u32()?;
    let image_base: u32 = pe.read_u32()?;
    let section_alignment: u32 = pe.read_u32()?;
    let file_alignment: u32 = pe.read_u32()?;
    let major_operating_system_version: u16 = pe.read_u16()?;
    let minor_operating_system_version: u16 = pe.read_u16()?;
    let major_image_version: u16 = pe.read_u16()?;
    let minor_image_version: u16 = pe.read_u16()?;
    let major_subsystem_version: u16 = pe.read_u16()?;
    let minor_subsystem_version: u16 = pe.read_u16()?;
    let win32_version_value: u32 = pe.read_u32()?;
    let size_of_image: u32 = pe.read_u32()?;
    let size_of_headers: u32 = pe.read_u32()?;
    let check_sum: u32 = pe.read_u32()?;
    let subsystem: u16 = pe.read_u16()?;
    let dll_characteristics: u16 = pe.read_u16()?;
    let size_of_stack_reserve: u32 = pe.read_u32()?;
    let size_of_stack_commit: u32 = pe.read_u32()?;
    let size_of_heap_reserve: u32 = pe.read_u32()?;
    let size_of_heap_commit: u32 = pe.read_u32()?;
    let loader_flags: u32 = pe.read_u32()?;
    let number_of_rva_and_sizes: u32 = pe.read_u32()?;
    Ok(
        OptionalHeader {
            magic,
            major_linker_version,
            minor_linker_version,
            size_of_code,
            size_of_initialized_data,
            size_of_uninitialized_data,
            address_of_entry_point,
            base_of_code,
            base_of_data,
            image_base,
            section_alignment,
            file_alignment,
            major_operating_system_version,
            minor_operating_system_version,
            major_image_version,
            minor_image_version,
            major_subsystem_version,
            minor_subsystem_version,
            win32_version_value,
            size_of_image,
            size_of_headers,
            check_sum,
            subsystem,
            dll_characteristics,
            size_of_stack_reserve,
            size_of_stack_commit,
            size_of_heap_reserve,
            size_of_heap_commit,
            loader_flags,
            number_of_rva_and_sizes,
        },
    )
}

/// The twenty-eight bytes of the fields that every extended header has, from the magic to the base of data.
pub open spec fn standard_fields_bytes(header: OptionalHeader) -> Seq<u8> {
    u16_to_le(header.magic)
        + seq![header.major_linker_version]
        + seq![header.minor_linker_version]
        + u32_to_le(header.size_of_code)
        + u32_to_le(header.size_of_initialized_data)
        + u32_to_le(header.size_of_uninitialized_data)
        + u32_to_le(header.address_of_entry_point)
        + u32_to_le(header.base_of_code)
        + u32_to_le(header.base_of_data)
}

fn write_standard_fields(header: &OptionalHeader, destination: &mut Vec<u8>)
    ensures
        final(destination)@ == old(destination)@ + standard_fields_bytes(*header),
{
    write_u16(destination, header.magic);
    write_u8(destination, header.major_linker_version);
    write_u8(destination, header.minor_linker_version);
    write_u32(destination, header.size_of_code);
    write_u32(destination, header.size_of_initialized_data);
    write_u32(destination, header.size_of_uninitialized_data);
    write_u32(destination, header.address_of_entry_point);
    write_u32(destination, header.base_of_code);
    write_u32(destination, header.base_of_data);
    assert(destination@ =~= old(destination)@ + standard_fields_bytes(*header));
}

/// The twenty-eight bytes of the base address, the two alignments and the version numbers.
pub open spec fn layout_fields_bytes(header: OptionalHeader) -> Seq<u8> {
    u32_to_le(header.image_base)
        + u32_to_le(header.section_alignment)
        + u32_to_le(header.file_alignment)
        + u16_to_le(header.major_operating_system_version)
        + u16_to_le(header.minor_operating_system_version)
        + u16_to_le(header.major_image_version)
        + u16_to_le(header.minor_image_version)
        + u16_to_le(header.major_subsystem_version)
        + u16_to_le(header.minor_subsystem_version)
        + u32_to_le(header.win32_version_value)
}

fn write_layout_fields(header: &OptionalHeader, destination: &mut Vec<u8>)
    ensures
        final(destination)@ == old(destination)@ + layout_fields_bytes(*header),
{
    write_u32(destination, header.image_base);
    write_u32(destination, header.section_alignment);
    write_u32(destination, header.file_alignment);
    write_u16(destination, header.major_operating_system_version);
    write_u16(destination, header.minor_operating_system_version);
    write_u16(destination, header.major_image_version);
    write_u16(destination, header.minor_image_version);
    write_u16(destination, header.major_subsystem_version);
    write_u16(destination, header.minor_subsystem_version);
    write_u32(destination, header.win32_version_value);
    assert(destination@ =~= old(destination)@ + layout_fields_bytes(*header));
}

/// The sixteen bytes of the image size, the header size, the checksum, the
/// subsystem and the DLL characteristics.
pub open spec fn size_fields_bytes(header: OptionalHeader) -> Seq<u8> {
    u32_to_le(header.size_of_image)
        + u32_to_le(header.size_of_headers)
        + u32_to_le(header.check_sum)
        + u16_to_le(header.subsystem)
        + u16_to_le(header.dll_characteristics)
}

fn write_size_fields(header: &OptionalHeader, destination: &mut Vec<u8>)
    ensures
        final(destination)@ == old(destination)@ + size_fields_bytes(*header),
{
    write_u32(destination, header.size_of_image);
    write_u32(destination, header.size_of_headers);
    write_u32(destination, header.check_sum);
    write_u16(destination, header.subsystem);
    write_u16(destination, header.dll_characteristics);
    assert(destination@ =~= old(destination)@ + size_fields_bytes(*header));
}

/// The twenty-four bytes of the stack and heap sizes, the loader flags and
/// the directory count.
pub open spec fn loader_fields_bytes(header: OptionalHeader) -> Seq<u8> {
    u32_to_le(header.size_of_stack_reserve)
        + u32_to_le(header.size_of_stack_commit)
        + u32_to_le(header.size_of_heap_reserve)
        + u32_to_le(header.size_of_heap_commit)
        + u32_to_le(header.loader_flags)
        + u32_to_le(header.number_of_rva_and_sizes)
}

fn write_loader_fields(header: &OptionalHeader, destination: &mut Vec<u8>)
    ensures
        final(destination)@ == old(destination)@ + loader_fields_bytes(*header),
{
    write_u32(destination, header.size_of_stack_reserve);
    write_u32(destination, header.size_of_stack_commit);
    write_u32(destination, header.size_of_heap_reserve);
    write_u32(destination, header.size_of_heap_commit);
    write_u32(destination, header.loader_flags);
    write_u32(destination, header.number_of_rva_and_sizes);
    assert(destination@ =~= old(destination)@ + loader_fields_bytes(*header));
}

/// The ninety-six bytes that encode `header`.
pub open spec fn optional_header_bytes(header: OptionalHeader) -> Seq<u8> {
    standard_fields_bytes(header) + layout_fields_bytes(header) + size_fields_bytes(header)
        + loader_fields_bytes(header)
}

/// The encoding of an extended header is ninety-six bytes long.
pub proof fn lemma_optional_header_length(header: OptionalHeader)
    ensures
        optional_header_bytes(header).len() == 96,
{
    assert(standard_fields_bytes(header).len() == 28);
    assert(layout_fields_bytes(header).len() == 28);
    assert(size_fields_bytes(header).len() == 16);
    assert(loader_fields_bytes(header).len() == 24);
}

/// Appends the encoding of `header` to `destination`.
pub fn write_optional_header(header: OptionalHeader, destination: &mut Vec<u8>)
    ensures
        final(destination)@ == old(destination)@ + optional_header_bytes(header),
{
    write_standard_fields(&header, destination);
    write_layout_fields(&header, destination);
    write_size_fields(&header, destination);
    write_loader_fields(&header, destination);
    assert(destination@ =~= old(destination)@ + optional_header_bytes(header));
}

/// The data-directory entry that the eight bytes of `data` at `pos` encode.
pub open spec fn data_directory_at(data: Seq<u8>, pos: int) -> DataDirectory {
    DataDirectory { virtual_address: u32_at(data, pos), size: u32_at(data, pos + 4) }
}

/// Decoding `count` data-directory entries that start at `pos`.
pub open spec fn parse_data_directories(data: Seq<u8>, pos: int, count: nat) -> Result<
    Seq<DataDirectory>,
    LinkError,
> {
    if count == 0 || in_bounds(data, pos, 8 * (count as int)) {
        Ok(Seq::new(count, |i: int| data_directory_at(data, pos + 8 * i)))
    } else {
        Err(LinkError::MalformedContainer)
    }
}

/// Reads `number_of_rva_and_sizes` data-directory entries at the reader's
/// position and moves past them. On failure the reader stays where it was.
pub fn read_data_directories(pe: &mut ByteReader, number_of_rva_and_sizes: u32) -> (directories:
    Result<Vec<DataDirectory>, LinkError>)
    ensures
        final(pe).data@ == old(pe).data@,
        match directories {
            Ok(list) => parse_data_directories(
                old(pe).data@,
                old(pe).position as int,
                number_of_rva_and_sizes as nat,
            ) == Ok::<Seq<DataDirectory>, LinkError>(list@) && final(pe).position == old(
                pe,
            ).position + 8 * number_of_rva_and_sizes,
            Err(e) => parse_data_directories(
                old(pe).data@,
                old(pe).position as int,
                number_of_rva_and_sizes as nat,
            ) == Err::<Seq<DataDirectory>, LinkError>(e) && final(pe).position == old(
                pe,
            ).position,
        },
{
    let ghost data = pe.data@;
    let ghost start = pe.position as int;
    let mut directories: Vec<DataDirectory> = Vec::new();
    if number_of_rva_and_sizes == 0 {
        assert(directories@ =~= Seq::new(0, |k: int| data_directory_at(data, start + 8 * k)));
        return Ok(directories);
    }
    let size: u64 = 8 * number_of_rva_and_sizes as u64;
    if (pe.data.len() as u64) < size || pe.position > pe.data.len() as u64 - size {
        return Err(LinkError::MalformedContainer);
    }
    let mut i: u32 = 0;
    while i < number_of_rva_and_sizes
        invariant
            i <= number_of_rva_and_sizes,
            data == old(pe).data@,
            start == old(pe).position,
            pe.data@ == data,
            pe.position == start + 8 * i,
            in_bounds(data, start, 8 * number_of_rva_and_sizes),
            directories@.len() == i,
            forall|k: int|
                0 <= k < i ==> #[trigger] directories@[k] == data_directory_at(data, start + 8 * k),
        decreases number_of_rva_and_sizes - i,
    {
        let virtual_address: u32 = pe.read_u32()?;
        let size: u32 = pe.read_u32()?;
        directories.push(DataDirectory { virtual_address, size });
        i = i + 1;
    }
    assert(directories@ =~= Seq::new(
        number_of_rva_and_sizes as nat,
        |k: int| data_directory_at(data, start + 8 * k),
    ));
    Ok(directories)
}

/// The bytes that encode the first `count` entries of `directories`.
pub open spec fn data_directories_bytes(directories: Seq<DataDirectory>, count: int) -> Seq<u8>
    decreases count,
{
    if count <= 0 {
        Seq::empty()
    } else {
        data_directories_bytes(directories, count - 1) + u32_to_le(
            directories[count - 1].virtual_address,
        ) + u32_to_le(directories[count - 1].size)
    }
}

/// Appends the encoding of every entry of `directories` to `destination`.
pub fn write_data_directories(directories: Vec<DataDirectory>, destination: &mut Vec<u8>)
    ensures
        final(destination)@ == old(destination)@ + data_directories_bytes(
            directories@,
            directories@.len() as int,
        ),
{
    let mut i: usize = 0;
    while i < directories.len()
        invariant
            i <= directories@.len(),
            destination@ == old(destination)@ + data_directories_bytes(directories@, i as int),
        decreases directories@.len() - i,
    {
        let ghost before = destination@;
        write_u32(destination, directories[i].virtual_address);
        write_u32(destination, directories[i].size);
        i = i + 1;
        assert(destination@ =~= old(destination)@ + data_directories_bytes(
            directories@,
            i as int,
        ));
    }
}

/// Whether the section count that the header of `image` declares is the
/// length of its section list.
pub open spec fn section_count_consistent(image: ImageView) -> bool {
    image.coff_header.number_of_sections == image.sections.len()
}

/// Decoding an image: the preamble up to the position that the four bytes at
/// offset 0x3c hold, the signature there, the object-style header, the
/// extended header, the data directories and the section table. An image
/// has no string table: a section name that refers to one is malformed.
pub open spec fn parse_image(data: Seq<u8>) -> Result<ImageView, LinkError> {
    if !in_bounds(data, 0x3c, 4) {
        Err(LinkError::MalformedContainer)
    } else {
        let at = u32_at(data, 0x3c) as int;
        if !in_bounds(data, at, 4) || u32_at(data, at) != PE_SIGNATURE {
            Err(LinkError::MalformedContainer)
        } else {
            match parse_header(data, at + 4) {
                Err(e) => Err(e),
                Ok(coff_header) => match parse_optional_header(data, at + 24) {
                    Err(e) => Err(e),
                    Ok(optional_header) => match parse_data_directories(
                        data,
                        at + 120,
                        optional_header.number_of_rva_and_sizes as nat,
                    ) {
                        Err(e) => Err(e),
                        Ok(data_directories) => match parse_sections(
                            data,
                            at + 120 + 8 * optional_header.number_of_rva_and_sizes,
                            coff_header.number_of_sections as nat,
                            Seq::empty(),
                        ) {
                            Err(e) => Err(e),
                            Ok(sections) => Ok(
                                ImageView {
                                    stub: bytes_at(data, 0, at),
                                    pe_signature: u32_at(data, at),
                                    coff_header,
                                    optional_header,
                                    data_directories,
                                    sections,
                                },
                            ),
                        },
                    },
                },
            }
        }
    }
}

/// Decodes the image that the reader holds, wherever its position is.
pub fn read_image(pe: ByteReader) -> (image: Result<Image, LinkError>)
    ensures
        match image {
            Ok(i) => parse_image(pe.data@) == Ok::<ImageView, LinkError>(i@)
                && section_count_consistent(i@),
            Err(e) => parse_image(pe.data@) == Err::<ImageView, LinkError>(e),
        },
{
    let mut pe = pe;
    pe.seek(PE_SIGNATURE_OFFSET);
    let pe_signature_position: u32 = pe.read_u32()?;
    pe.seek(0);
    let stub: Vec<u8> = match pe.read_exact(pe_signature_position as usize) {
        Ok(stub) => stub,
        Err(e) => {
            return Err(e);
        },
    };

    let pe_signature: u32 = pe.read_u32()?;
    if pe_signature != PE_SIGNATURE {
        return Err(LinkError::MalformedContainer);
    }
    let coff_header: Header = read_header(&mut pe)?;
    let optional_header: OptionalHeader = read_optional_header(&mut pe)?;
    let data_directories: Vec<DataDirectory> = read_data_directories(
        &mut pe,
        optional_header.number_of_rva_and_sizes,
    )?;
    let no_strings: Vec<u8> = Vec::new();
    let sections: Vec<Section> = read_sections(
        &mut pe,
        coff_header.number_of_sections,
        no_strings.as_slice(),
    )?;

    Ok(Image { stub, pe_signature, coff_header, optional_header, data_directories, sections })
}

/// `count` zero bytes.
pub open spec fn zeros(count: int) -> Seq<u8> {
    Seq::new(count as nat, |i: int| 0u8)
}

/// The raw data of the first `count` sections of `sections`, one after another.
pub open spec fn raw_data_bytes(sections: Seq<SectionView>, count: int) -> Seq<u8>
    decreases count,
{
    if count <= 0 {
        Seq::empty()
    } else {
        raw_data_bytes(sections, count - 1) + sections[count - 1].raw_data
    }
}

/// What a written image holds before its raw data: the preamble, the
/// signature, both headers, the data directories and the section table.
pub open spec fn image_header_bytes(image: ImageView) -> Seq<u8> {
    image.stub + u32_to_le(image.pe_signature) + header_bytes(image.coff_header)
        + optional_header_bytes(image.optional_header) + data_directories_bytes(
        image.data_directories,
        image.data_directories.len() as int,
    ) + section_table_bytes(image.sections, image.sections.len() as int)
}

/// Whether `image` can be written to a destination that already holds
/// `start` bytes: its section table can be written, and what precedes the
/// raw data ends at or before offset 0x1000.
pub open spec fn image_writable(image: ImageView, start: int) -> bool {
    sections_writable(image.sections) && start + image_header_bytes(image).len()
        <= RAW_DATA_START
}

/// What writing `image` appends to a destination that already holds `start`
/// bytes: the headers, zero bytes up to offset 0x1000, and the raw data of
/// every section in order. No symbol table and no string table is written.
pub open spec fn image_bytes(image: ImageView, start: int) -> Seq<u8> {
    image_header_bytes(image) + zeros(RAW_DATA_START - start - image_header_bytes(image).len())
        + raw_data_bytes(image.sections, image.sections.len() as int)
}

/// Appends the serialized `image` to `destination`. Nothing is appended
/// unless the whole image can be written.
pub fn write_image(image: Image, destination: &mut Vec<u8>) -> (done: Result<(), LinkError>)
    ensures
        match done {
            Ok(_) => image_writable(image@, old(destination)@.len() as int)
                && final(destination)@ == old(destination)@ + image_bytes(
                image@,
                old(destination)@.len() as int,
            ),
            Err(e) => e == LinkError::UnsupportedFeature && !image_writable(
                image@,
                old(destination)@.len() as int,
            ) && final(destination)@ == old(destination)@,
        },
{
    let ghost view = image@;
    let Image { stub, pe_signature, coff_header, optional_header, data_directories, sections } =
        image;
    let mut out: Vec<u8> = Vec::new();
    write_all(&mut out, stub.as_slice());
    write_u32(&mut out, pe_signature);
    write_header(coff_header, &mut out);
    write_optional_header(optional_header, &mut out);
    write_data_directories(data_directories, &mut out);
    write_sections(&sections, &mut out)?;
    assert(out@ =~= image_header_bytes(view));
    let position: usize = destination.len();
    let first_page: usize = RAW_DATA_START as usize;
    if position > first_page || out.len() > first_page - position {
        return Err(LinkError::UnsupportedFeature);
    }
    let padding: usize = first_page - position - out.len();
    let mut i: usize = 0;
    while i < padding
        invariant
            i <= padding,
            out@ == image_header_bytes(view) + zeros(i as int),
        decreases padding - i,
    {
        out.push(0);
        i = i + 1;
        assert(out@ =~= image_header_bytes(view) + zeros(i as int));
    }
    let ghost padded = out@;
    let mut si: usize = 0;
    while si < sections.len()
        invariant
            si <= sections@.len(),
            view.sections == section_views(sections@),
            out@ == padded + raw_data_bytes(view.sections, si as int),
        decreases sections@.len() - si,
    {
        assert(view.sections[si as int] == sections@[si as int]@);
        write_all(&mut out, sections[si].raw_data.as_slice());
        si = si + 1;
        assert(out@ =~= padded + raw_data_bytes(view.sections, si as int));
    }
    write_all(destination, out.as_slice());
    Ok(())
}

/// The encoding of `count` data directories is eight bytes an entry.
pub proof fn lemma_data_directories_length(directories: Seq<DataDirectory>, count: int)
    requires
        0 <= count,
    ensures
        data_directories_bytes(directories, count).len() == 8 * count,
    decreases count,
{
    if count > 0 {
        lemma_data_directories_length(directories, count - 1);
    }
}

/// The raw data of the first `count` sections ends where the raw data of
/// the next section would begin, and holds the raw data of each section at
/// the file offset of that section, counted from the first page.
pub proof fn lemma_raw_data_bytes(sections: Seq<SectionView>, count: int, index: int)
    requires
        0 <= index < count <= sections.len(),
    ensures
        raw_data_bytes(sections, count).len() == raw_data_pointer(sections, count)
            - RAW_DATA_START,
        RAW_DATA_START <= raw_data_pointer(sections, index),
        raw_data_pointer(sections, index + 1) == raw_data_pointer(sections, index)
            + sections[index].raw_data.len(),
        raw_data_pointer(sections, index + 1) <= raw_data_pointer(sections, count),
        raw_data_bytes(sections, count).subrange(
            raw_data_pointer(sections, index) - RAW_DATA_START,
            raw_data_pointer(sections, index + 1) - RAW_DATA_START,
        ) == sections[index].raw_data,
    decreases count,
{
    let before = raw_data_bytes(sections, count - 1);
    let last = sections[count - 1].raw_data;
    if count > 1 {
        lemma_raw_data_bytes(sections, count - 1, if index < count - 1 {
            index
        } else {
            0
        });
    }
    assert(before.len() == raw_data_pointer(sections, count - 1) - RAW_DATA_START);
    let from = raw_data_pointer(sections, index) - RAW_DATA_START;
    let to = raw_data_pointer(sections, index + 1) - RAW_DATA_START;
    if index < count - 1 {
        assert((before + last).subrange(from, to) =~= before.subrange(from, to));
    } else {
        assert((before + last).subrange(from, to) =~= last);
    }
}

/// The layout of a written image, for an image that can be written to an
/// empty destination. The headers take the preamble, four bytes of
/// signature, twenty and ninety-six bytes of the two headers, eight bytes a
/// data directory and forty bytes a section, and end at or before the first
/// page. Zero bytes fill the rest of the first page. The raw data of each
/// section lies at the file offset that its header names, the sections one
/// after another from the first page on. The image ends with the raw data
/// of the last section: no symbol table and no string table follows.
pub proof fn lemma_image_layout(image: ImageView, index: int)
    requires
        image_writable(image, 0),
        0 <= index < image.sections.len(),
    ensures
        ({
            let written = image_bytes(image, 0);
            let headers = image_header_bytes(image).len() as int;
            let count = image.sections.len() as int;
            let start = raw_data_pointer(image.sections, index);
            let end = raw_data_pointer(image.sections, index + 1);
            &&& headers == image.stub.len() + 4 + 20 + 96 + 8 * image.data_directories.len() + 40
                * count
            &&& headers <= RAW_DATA_START
            &&& written.len() == raw_data_pointer(image.sections, count)
            &&& written.subrange(0, headers) == image_header_bytes(image)
            &&& forall|i: int| headers <= i < RAW_DATA_START ==> written[i] == 0
            &&& RAW_DATA_START <= start <= end <= written.len()
            &&& end == start + image.sections[index].raw_data.len()
            &&& written.subrange(start, end) == image.sections[index].raw_data
        }),
{
    lemma_image_header_length(image);
    let written = image_bytes(image, 0);
    let head = image_header_bytes(image);
    let headers = head.len() as int;
    let count = image.sections.len() as int;
    let padding = zeros(RAW_DATA_START - headers);
    let raw = raw_data_bytes(image.sections, count);
    lemma_raw_data_bytes(image.sections, count, index);
    let start = raw_data_pointer(image.sections, index);
    let end = raw_data_pointer(image.sections, index + 1);
    assert(written == head + padding + raw);
    assert((head + padding).len() == RAW_DATA_START);
    assert(written.subrange(0, headers) =~= head);
    assert(written.subrange(start, end) =~= raw.subrange(
        start - RAW_DATA_START,
        end - RAW_DATA_START,
    ));
}

/// The length of what a written image holds before its raw data, the
/// length of the whole, and the zero bytes between the two.
pub proof fn lemma_image_header_length(image: ImageView)
    requires
        image_writable(image, 0),
    ensures
        image_header_bytes(image).len() == image.stub.len() + 4 + 20 + 96 + 8
            * image.data_directories.len() + 40 * image.sections.len(),
        image_bytes(image, 0).len() == raw_data_pointer(
            image.sections,
            image.sections.len() as int,
        ),
        forall|i: int|
            image_header_bytes(image).len() <= i < RAW_DATA_START ==> image_bytes(image, 0)[i]
                == 0,
{
    let count = image.sections.len() as int;
    lemma_data_directories_length(image.data_directories, image.data_directories.len() as int);
    lemma_optional_header_length(image.optional_header);
    lemma_section_table_length(image.sections);
    lemma_raw_data_length(image.sections, count);
    assert(header_bytes(image.coff_header).len() == 20);
}

proof fn lemma_section_table_length(sections: Seq<SectionView>)
    requires
        sections_writable(sections),
    ensures
        section_table_bytes(sections, sections.len() as int).len() == 40 * sections.len(),
{
    if sections.len() > 0 {
        assert forall|i: int| 0 <= i < sections.len() implies (#[trigger] sections[i]).name.len()
            >= 8 by {
            assert(section_placed(sections, i));
        }
        lemma_section_table_bytes(sections, sections.len() as int, 0);
    }
}

proof fn lemma_raw_data_length(sections: Seq<SectionView>, count: int)
    requires
        0 <= count <= sections.len(),
    ensures
        raw_data_bytes(sections, count).len() == raw_data_pointer(sections, count)
            - RAW_DATA_START,
    decreases count,
{
    if count > 0 {
        lemma_raw_data_length(sections, count - 1);
    }
}

} // verus!
