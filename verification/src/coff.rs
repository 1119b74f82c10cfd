//! The object container: its header, section table, symbol table and string
//! table, and the codec that both containers share.

use crate::endian::{
    le_read_u32, lemma_le_encode_decode, u16_to_le, u32_from_le, u32_of, u32_to_le,
};
use crate::error::LinkError;
use crate::stream::{
    bytes_at, i16_at, in_bounds, readable, u16_at, u32_at, write_u16, write_u32, ByteReader,
};
use crate::text::{decode_latin1, is_latin1, latin1, latin1_bytes, lemma_latin1_round_trip};
use vstd::prelude::*;
use vstd::slice::slice_subrange;
use vstd::string::StrSliceExecFns;

verus! {

/// The machine type of every supported container.
pub const MACHINE_I386: u16 = 0x014c;

/// The type code of a symbol that names a function.
pub const SYMBOL_TYPE_FUNCTION: u16 = 0x0020;

/// The type code of a symbol that names data.
pub const SYMBOL_TYPE_DATA: u16 = 0x0000;

/// The storage class of an external symbol.
pub const STORAGE_CLASS_EXTERNAL: u8 = 0x02;

/// The file offset at which the raw data of a written image begins, and the
/// granularity of every section's raw data in it.
pub const RAW_DATA_START: u32 = 0x1000;

/// The object-style header that opens an object file and follows the
/// signature of an image.
#[derive(Clone, Copy, Debug, PartialEq, Eq, Structural)]
pub struct Header {
    pub machine: u16,
    pub number_of_sections: u16,
    pub time_date_stamp: u32,
    pub pointer_to_symbol_table: u32,
    pub number_of_symbols: u32,
    pub size_of_optional_header: u16,
    pub characteristics: u16,
}

/// An instruction to patch the 32-bit field at `virtual_address`, an offset
/// into the owning section's raw data, once the symbol at
/// `symbol_table_index` has its final address.
#[derive(Clone, Copy, Debug, PartialEq, Eq, Structural)]
pub struct Relocation {
    pub virtual_address: u32,
    pub symbol_table_index: u32,
    pub relocation_type: u16,
}

/// A named value of the symbol table. A `section_number` of one or more is
/// the 1-based number of the section that defines the symbol; zero or less
/// marks it undefined or special.
#[derive(Clone, Debug, PartialEq, Eq)]
pub struct Symbol {
    pub name: String,
    pub value: u32,
    pub section_number: i16,
    pub symbol_type: u16,
    pub storage_class: u8,
    pub number_of_aux_symbols: u8,
}

/// What a [`Symbol`] is, as a mathematical value.
pub struct SymbolView {
    pub name: Seq<char>,
    pub value: u32,
    pub section_number: i16,
    pub symbol_type: u16,
    pub storage_class: u8,
    pub number_of_aux_symbols: u8,
}

impl View for Symbol {
    type V = SymbolView;

    open spec fn view(&self) -> SymbolView {
        SymbolView {
            name: self.name@,
            value: self.value,
            section_number: self.section_number,
            symbol_type: self.symbol_type,
            storage_class: self.storage_class,
            number_of_aux_symbols: self.number_of_aux_symbols,
        }
    }
}

/// One slot of the symbol table: a symbol, or an opaque block that belongs to
/// the symbol before it and is never interpreted.
#[derive(Clone, Debug, PartialEq, Eq)]
pub enum SymbolTableRecord {
    Symbol(Symbol),
    Aux([u8; 18]),
}

/// What a [`SymbolTableRecord`] is, as a mathematical value.
pub enum RecordView {
    Symbol(SymbolView),
    Aux(Seq<u8>),
}

impl View for SymbolTableRecord {
    type V = RecordView;

    open spec fn view(&self) -> RecordView {
        match *self {
            SymbolTableRecord::Symbol(s) => RecordView::Symbol(s@),
            SymbolTableRecord::Aux(block) => RecordView::Aux(block@),
        }
    }
}

/// The records of a symbol table as mathematical values, in order.
pub open spec fn record_views(records: Seq<SymbolTableRecord>) -> Seq<RecordView> {
    Seq::new(records.len(), |i: int| records[i]@)
}

/// A named, addressed region of code or data with its relocations.
#[derive(Clone, Debug, PartialEq, Eq)]
pub struct Section {
    pub name: String,
    pub virtual_size: u32,
    pub virtual_address: u32,
    pub raw_data: Vec<u8>,
    pub relocations: Vec<Relocation>,
    pub characteristics: u32,
}

/// What a [`Section`] is, as a mathematical value.
pub struct SectionView {
    pub name: Seq<char>,
    pub virtual_size: u32,
    pub virtual_address: u32,
    pub raw_data: Seq<u8>,
    pub relocations: Seq<Relocation>,
    pub characteristics: u32,
}

impl View for Section {
    type V = SectionView;

    open spec fn view(&self) -> SectionView {
        SectionView {
            name: self.name@,
            virtual_size: self.virtual_size,
            virtual_address: self.virtual_address,
            raw_data: self.raw_data@,
            relocations: self.relocations@,
            characteristics: self.characteristics,
        }
    }
}

/// The sections of a list as mathematical values, in order.
pub open spec fn section_views(sections: Seq<Section>) -> Seq<SectionView> {
    Seq::new(sections.len(), |i: int| sections[i]@)
}

/// The section with no name, no bytes, no relocations and every number zero.
pub open spec fn empty_section() -> SectionView {
    SectionView {
        name: Seq::empty(),
        virtual_size: 0,
        virtual_address: 0,
        raw_data: Seq::empty(),
        relocations: Seq::empty(),
        characteristics: 0,
    }
}

impl Default for Section {
    fn default() -> (section: Section)
        ensures
            section@ == empty_section(),
    {
        Section {
            name: String::new(),
            virtual_size: 0,
            virtual_address: 0,
            raw_data: Vec::new(),
            relocations: Vec::new(),
            characteristics: 0,
        }
    }
}

/// An object file, decoded.
#[derive(Debug)]
pub struct COFF {
    pub sections: Vec<Section>,
    pub symbols: Vec<SymbolTableRecord>,
}

/// The undefined external function symbol that stands for the target of an
/// overlay relocation.
pub fn create_symbol_for_relocation(name: String) -> (record: SymbolTableRecord)
    ensures
        record@ == RecordView::Symbol(
            SymbolView {
                name: name@,
                value: 0,
                section_number: 0,
                symbol_type: SYMBOL_TYPE_FUNCTION,
                storage_class: STORAGE_CLASS_EXTERNAL,
                number_of_aux_symbols: 0,
            },
        ),
{
    SymbolTableRecord::Symbol(
        Symbol {
            name,
            value: 0,
            section_number: 0,
            symbol_type: SYMBOL_TYPE_FUNCTION,
            storage_class: STORAGE_CLASS_EXTERNAL,
            number_of_aux_symbols: 0,
        },
    )
}

/// The defined external symbol, function or data, that an overlay symbol
/// descriptor adds as a binding target.
pub fn create_symbol_for_table(
    name: String,
    value: u32,
    section_number: i16,
    is_function: bool,
) -> (record: SymbolTableRecord)
    ensures
        record@ == RecordView::Symbol(
            SymbolView {
                name: name@,
                value,
                section_number,
                symbol_type: if is_function {
                    SYMBOL_TYPE_FUNCTION
                } else {
                    SYMBOL_TYPE_DATA
                },
                storage_class: STORAGE_CLASS_EXTERNAL,
                number_of_aux_symbols: 0,
            },
        ),
{
    SymbolTableRecord::Symbol(
        Symbol {
            name,
            value,
            section_number,
            symbol_type: if is_function {
                SYMBOL_TYPE_FUNCTION
            } else {
                SYMBOL_TYPE_DATA
            },
            storage_class: STORAGE_CLASS_EXTERNAL,
            number_of_aux_symbols: 0,
        },
    )
}

/// The header that the twenty bytes of `data` at `pos` encode, whatever its
/// machine type.
pub open spec fn header_at(data: Seq<u8>, pos: int) -> Header {
    Header {
        machine: u16_at(data, pos),
        number_of_sections: u16_at(data, pos + 2),
        time_date_stamp: u32_at(data, pos + 4),
        pointer_to_symbol_table: u32_at(data, pos + 8),
        number_of_symbols: u32_at(data, pos + 12),
        size_of_optional_header: u16_at(data, pos + 16),
        characteristics: u16_at(data, pos + 18),
    }
}

/// Decoding a header at `pos`: it must lie inside `data` and name the
/// supported machine type.
pub open spec fn parse_header(data: Seq<u8>, pos: int) -> Result<Header, LinkError> {
    if in_bounds(data, pos, 20) && u16_at(data, pos) == MACHINE_I386 {
        Ok(header_at(data, pos))
    } else {
        Err(LinkError::MalformedContainer)
    }
}

/// Reads the object-style header at the reader's position and moves past
/// it. On failure the reader stays where it was.
pub fn read_header(coff: &mut ByteReader) -> (header: Result<Header, LinkError>)
    ensures
        final(coff).data@ == old(coff).data@,
        header == parse_header(old(coff).data@, old(coff).position as int),
        final(coff).position == if header is Ok {
            old(coff).position + 20
        } else {
            old(coff).position as int
        },
{
    let start: u64 = coff.stream_position();
    let len: usize = coff.data.len();
    if len < 20 || start > (len - 20) as u64 {
        return Err(LinkError::MalformedContainer);
    }
    let machine: u16 = coff.read_u16()?;
    if machine != MACHINE_I386 {
        coff.seek(start);
        return Err(LinkError::MalformedContainer);
    }
    let number_of_sections: u16 = coff.read_u16()?;
    let time_date_stamp: u32 = coff.read_u32()?;
    let pointer_to_symbol_table: u32 = coff.read_u32()?;
    let number_of_symbols: u32 = coff.read_u32()?;
    let size_of_optional_header: u16 = coff.read_u16()?;
    let characteristics: u16 = coff.read_u16()?;
    Ok(
        Header {
            machine,
            number_of_sections,
            time_date_stamp,
            pointer_to_symbol_table,
            number_of_symbols,
            size_of_optional_header,
            characteristics,
        },
    )
}

/// The twenty bytes that encode `header`.
pub open spec fn header_bytes(header: Header) -> Seq<u8> {
    u16_to_le(header.machine) + u16_to_le(header.number_of_sections) + u32_to_le(
        header.time_date_stamp,
    ) + u32_to_le(header.pointer_to_symbol_table) + u32_to_le(header.number_of_symbols)
        + u16_to_le(header.size_of_optional_header) + u16_to_le(header.characteristics)
}

/// Appends the encoding of `header` to `destination`.
pub fn write_header(header: Header, destination: &mut Vec<u8>)
    ensures
        final(destination)@ == old(destination)@ + header_bytes(header),
{
    write_u16(destination, header.machine);
    write_u16(destination, header.number_of_sections);
    write_u32(destination, header.time_date_stamp);
    write_u32(destination, header.pointer_to_symbol_table);
    write_u32(destination, header.number_of_symbols);
    write_u16(destination, header.size_of_optional_header);
    write_u16(destination, header.characteristics);
    assert(destination@ =~= old(destination)@ + header_bytes(header));
}

/// The position of the first zero byte of `table` at or after `offset`, if
/// there is one.
pub open spec fn terminator_from(table: Seq<u8>, offset: int) -> Option<int>
    decreases table.len() - offset,
{
    if offset < 0 || offset >= table.len() {
        None
    } else if table[offset] == 0 {
        Some(offset)
    } else {
        terminator_from(table, offset + 1)
    }
}

/// The string of `table` that starts at `offset`: the bytes up to the next
/// zero byte. A table that ends before a zero byte is malformed.
pub open spec fn string_at(table: Seq<u8>, offset: int) -> Result<Seq<char>, LinkError> {
    match terminator_from(table, offset) {
        Some(end) => Ok(latin1(table.subrange(offset, end))),
        None => Err(LinkError::MalformedContainer),
    }
}

/// What `terminator_from` finds: the terminator lies at or after the offset,
/// holds a zero byte, and no byte before it does; where it finds none, no
/// byte from the offset on is zero.
pub proof fn lemma_terminator_from(table: Seq<u8>, offset: int)
    requires
        0 <= offset,
    ensures
        match terminator_from(table, offset) {
            Some(end) => offset <= end < table.len() && table[end] == 0 && forall|i: int|
                offset <= i < end ==> table[i] != 0,
            None => forall|i: int| offset <= i < table.len() ==> table[i] != 0,
        },
    decreases table.len() - offset,
{
    if offset < table.len() && table[offset] != 0 {
        lemma_terminator_from(table, offset + 1);
    }
}

/// Looks up the string of `string_table` that starts at `offset`.
pub fn read_string(string_table: &[u8], offset: usize) -> (name: Result<String, LinkError>)
    ensures
        match name {
            Ok(text) => string_at(string_table@, offset as int) == Ok::<Seq<char>, LinkError>(
                text@,
            ),
            Err(e) => string_at(string_table@, offset as int) == Err::<Seq<char>, LinkError>(e),
        },
{
    let mut i: usize = offset;
    while i < string_table.len()
        invariant
            offset <= i,
            terminator_from(string_table@, offset as int) == terminator_from(
                string_table@,
                i as int,
            ),
        decreases string_table@.len() - i,
    {
        if string_table[i] == 0 {
            return Ok(decode_latin1(slice_subrange(string_table, offset, i)));
        }
        i = i + 1;
    }
    Err(LinkError::MalformedContainer)
}

/// Whether an eight-byte name field refers to the string table: its first
/// four bytes are all zero.
pub open spec fn is_name_reference(field: Seq<u8>) -> bool {
    field[0] == 0 && field[1] == 0 && field[2] == 0 && field[3] == 0
}

/// The name that an eight-byte name field stands for, of a section and of a
/// symbol alike: where its first four bytes are zero, the string at the
/// offset that its last four bytes hold, least significant first; otherwise
/// the eight bytes themselves, terminated or not.
pub open spec fn name_in_field(field: Seq<u8>, string_table: Seq<u8>) -> Result<
    Seq<char>,
    LinkError,
> {
    if is_name_reference(field) {
        string_at(string_table, u32_of(field[4], field[5], field[6], field[7]) as int)
    } else {
        Ok(latin1(field))
    }
}

/// Decodes an eight-byte name field against `string_table`.
fn decode_name(field: &[u8], string_table: &[u8]) -> (name: Result<String, LinkError>)
    requires
        field@.len() == 8,
    ensures
        match name {
            Ok(text) => name_in_field(field@, string_table@) == Ok::<Seq<char>, LinkError>(text@),
            Err(e) => name_in_field(field@, string_table@) == Err::<Seq<char>, LinkError>(e),
        },
{
    if field[0] != 0 || field[1] != 0 || field[2] != 0 || field[3] != 0 {
        Ok(decode_latin1(field))
    } else {
        let offset: u32 = le_read_u32(slice_subrange(field, 4, 8));
        read_string(string_table, offset as usize)
    }
}

/// Decoding the section name field at `pos`.
pub open spec fn parse_section_name(data: Seq<u8>, pos: int, string_table: Seq<u8>) -> Result<
    Seq<char>,
    LinkError,
> {
    if in_bounds(data, pos, 8) {
        name_in_field(bytes_at(data, pos, 8), string_table)
    } else {
        Err(LinkError::MalformedContainer)
    }
}

/// Reads the eight-byte section name field at the reader's position,
/// resolves it against `string_table`, and moves past it. On failure the
/// reader stays where it was.
pub fn read_section_name(coff: &mut ByteReader, string_table: &[u8]) -> (name: Result<
    String,
    LinkError,
>)
    ensures
        final(coff).data@ == old(coff).data@,
        match name {
            Ok(text) => parse_section_name(
                old(coff).data@,
                old(coff).position as int,
                string_table@,
            ) == Ok::<Seq<char>, LinkError>(text@) && final(coff).position == old(coff).position
                + 8,
            Err(e) => parse_section_name(
                old(coff).data@,
                old(coff).position as int,
                string_table@,
            ) == Err::<Seq<char>, LinkError>(e) && final(coff).position == old(coff).position,
        },
{
    let start: u64 = coff.stream_position();
    let buffer: Vec<u8> = coff.read_exact(8)?;
    let name: Result<String, LinkError> = decode_name(buffer.as_slice(), string_table);
    if name.is_err() {
        coff.seek(start);
    }
    name
}

/// The relocation record that the ten bytes of `data` at `pos` encode.
pub open spec fn relocation_at(data: Seq<u8>, pos: int) -> Relocation {
    Relocation {
        virtual_address: u32_at(data, pos),
        symbol_table_index: u32_at(data, pos + 4),
        relocation_type: u16_at(data, pos + 8),
    }
}

/// Decoding `count` relocation records that start at `pos`.
pub open spec fn parse_relocations(data: Seq<u8>, pos: int, count: nat) -> Result<
    Seq<Relocation>,
    LinkError,
> {
    if readable(data, pos, 10 * (count as int)) {
        Ok(Seq::new(count, |i: int| relocation_at(data, pos + 10 * i)))
    } else {
        Err(LinkError::MalformedContainer)
    }
}

/// Reads `number_of_relocations` relocation records at the reader's
/// position and moves past them. On failure the reader stays where it was.
pub fn read_relocations(coff: &mut ByteReader, number_of_relocations: u16) -> (relocations: Result<
    Vec<Relocation>,
    LinkError,
>)
    ensures
        final(coff).data@ == old(coff).data@,
        match relocations {
            Ok(list) => parse_relocations(
                old(coff).data@,
                old(coff).position as int,
                number_of_relocations as nat,
            ) == Ok::<Seq<Relocation>, LinkError>(list@) && final(coff).position == old(
                coff,
            ).position + 10 * number_of_relocations,
            Err(e) => parse_relocations(
                old(coff).data@,
                old(coff).position as int,
                number_of_relocations as nat,
            ) == Err::<Seq<Relocation>, LinkError>(e) && final(coff).position == old(
                coff,
            ).position,
        },
{
    let ghost data = coff.data@;
    let ghost start = coff.position as int;
    let mut relocations: Vec<Relocation> = Vec::new();
    if number_of_relocations == 0 {
        assert(relocations@ =~= Seq::new(0, |k: int| relocation_at(data, start + 10 * k)));
        return Ok(relocations);
    }
    let size: u64 = 10 * number_of_relocations as u64;
    if (coff.data.len() as u64) < size || coff.position > coff.data.len() as u64 - size {
        return Err(LinkError::MalformedContainer);
    }
    let mut i: u16 = 0;
    while i < number_of_relocations
        invariant
            i <= number_of_relocations,
            data == old(coff).data@,
            start == old(coff).position,
            coff.data@ == data,
            coff.position == start + 10 * i,
            in_bounds(data, start, 10 * number_of_relocations),
            relocations@.len() == i,
            forall|k: int|
                0 <= k < i ==> #[trigger] relocations@[k] == relocation_at(data, start + 10 * k),
        decreases number_of_relocations - i,
    {
        let virtual_address: u32 = coff.read_u32()?;
        let symbol_table_index: u32 = coff.read_u32()?;
        let relocation_type: u16 = coff.read_u16()?;
        relocations.push(Relocation { virtual_address, symbol_table_index, relocation_type });
        i = i + 1;
    }
    assert(relocations@ =~= Seq::new(
        number_of_relocations as nat,
        |k: int| relocation_at(data, start + 10 * k),
    ));
    Ok(relocations)
}

/// Decoding the section whose forty-byte header lies at `pos`: the name, the
/// sizes and addresses, the raw data that the header points to, and the
/// relocation records that it points to.
pub open spec fn parse_section(data: Seq<u8>, pos: int, string_table: Seq<u8>) -> Result<
    SectionView,
    LinkError,
> {
    if !in_bounds(data, pos, 40) {
        Err(LinkError::MalformedContainer)
    } else if !readable(data, u32_at(data, pos + 20) as int, u32_at(data, pos + 16) as int) {
        Err(LinkError::MalformedContainer)
    } else {
        match name_in_field(bytes_at(data, pos, 8), string_table) {
            Err(e) => Err(e),
            Ok(name) => match parse_relocations(
                data,
                u32_at(data, pos + 24) as int,
                u16_at(data, pos + 32) as nat,
            ) {
                Err(e) => Err(e),
                Ok(relocations) => Ok(
                    SectionView {
                        name,
                        virtual_size: u32_at(data, pos + 8),
                        virtual_address: u32_at(data, pos + 12),
                        raw_data: bytes_at(
                            data,
                            u32_at(data, pos + 20) as int,
                            u32_at(data, pos + 16) as int,
                        ),
                        relocations,
                        characteristics: u32_at(data, pos + 36),
                    },
                ),
            },
        }
    }
}

/// Every way in which decoding a section fails is a malformed container.
pub proof fn lemma_parse_section_error(data: Seq<u8>, pos: int, string_table: Seq<u8>)
    ensures
        parse_section(data, pos, string_table) is Err ==> parse_section(data, pos, string_table)
            == Err::<SectionView, LinkError>(LinkError::MalformedContainer),
{
}

/// Reads the section whose header lies at the reader's position, and moves
/// to the header that follows. On failure the reader stays where it was.
pub fn read_section(coff: &mut ByteReader, string_table: &[u8]) -> (section: Result<
    Section,
    LinkError,
>)
    ensures
        final(coff).data@ == old(coff).data@,
        match section {
            Ok(s) => parse_section(old(coff).data@, old(coff).position as int, string_table@)
                == Ok::<SectionView, LinkError>(s@) && final(coff).position == old(coff).position
                + 40,
            Err(e) => parse_section(old(coff).data@, old(coff).position as int, string_table@)
                == Err::<SectionView, LinkError>(e) && final(coff).position == old(coff).position,
        },
{
    proof {
        lemma_parse_section_error(coff.data@, coff.position as int, string_table@);
    }
    let start: u64 = coff.stream_position();
    let len: usize = coff.data.len();
    if len < 40 || start > (len - 40) as u64 {
        return Err(LinkError::MalformedContainer);
    }
    let name: String = read_section_name(coff, string_table)?;
    let virtual_size: u32 = coff.read_u32()?;
    let virtual_address: u32 = coff.read_u32()?;
    let size_of_raw_data: u32 = coff.read_u32()?;
    let pointer_to_raw_data: u32 = coff.read_u32()?;
    let pointer_to_relocations: u32 = coff.read_u32()?;
    coff.skip(4)?;
    let number_of_relocations: u16 = coff.read_u16()?;
    coff.skip(2)?;
    let characteristics_position: u64 = coff.stream_position();

    coff.seek(pointer_to_raw_data as u64);
    let raw_data: Vec<u8> = match coff.read_exact(size_of_raw_data as usize) {
        Ok(raw_data) => raw_data,
        Err(e) => {
            coff.seek(start);
            return Err(e);
        },
    };

    coff.seek(pointer_to_relocations as u64);
    let relocations: Vec<Relocation> = match read_relocations(coff, number_of_relocations) {
        Ok(relocations) => relocations,
        Err(e) => {
            coff.seek(start);
            return Err(e);
        },
    };

    coff.seek(characteristics_position);
    let characteristics: u32 = coff.read_u32()?;
    Ok(Section { name, virtual_size, virtual_address, raw_data, relocations, characteristics })
}

/// Decoding the section with index `index` of a section table that starts at `pos`.
pub open spec fn nth_section(data: Seq<u8>, pos: int, string_table: Seq<u8>, index: int) -> Result<
    SectionView,
    LinkError,
> {
    parse_section(data, pos + 40 * index, string_table)
}

/// Decoding a section table of `count` headers that starts at `pos`, each
/// section with its raw data and relocations.
pub open spec fn parse_sections(
    data: Seq<u8>,
    pos: int,
    count: nat,
    string_table: Seq<u8>,
) -> Result<Seq<SectionView>, LinkError> {
    if forall|i: int| 0 <= i < count ==> (#[trigger] nth_section(data, pos, string_table, i)) is Ok {
        Ok(Seq::new(count, |i: int| nth_section(data, pos, string_table, i)->Ok_0))
    } else {
        Err(LinkError::MalformedContainer)
    }
}

/// Reads a section table of `number_of_sections` headers at the reader's
/// position, each section with the raw data and the relocations that its
/// header points to, and moves past the table. On failure the reader stays
/// where it was.
pub fn read_sections(coff: &mut ByteReader, number_of_sections: u16, string_table: &[u8]) -> (sections:
    Result<Vec<Section>, LinkError>)
    ensures
        final(coff).data@ == old(coff).data@,
        match sections {
            Ok(list) => parse_sections(
                old(coff).data@,
                old(coff).position as int,
                number_of_sections as nat,
                string_table@,
            ) == Ok::<Seq<SectionView>, LinkError>(section_views(list@)) && final(coff).position
                == old(coff).position + 40 * number_of_sections,
            Err(e) => parse_sections(
                old(coff).data@,
                old(coff).position as int,
                number_of_sections as nat,
                string_table@,
            ) == Err::<Seq<SectionView>, LinkError>(e) && final(coff).position == old(
                coff,
            ).position,
        },
{
    let ghost data = coff.data@;
    let ghost start = coff.position as int;
    let table_position: u64 = coff.stream_position();
    let mut sections: Vec<Section> = Vec::new();
    let mut i: u16 = 0;
    while i < number_of_sections
        invariant
            i <= number_of_sections,
            data == old(coff).data@,
            start == old(coff).position,
            coff.data@ == data,
            coff.position == start + 40 * i,
            table_position == start,
            sections@.len() == i,
            forall|k: int|
                0 <= k < i ==> #[trigger] nth_section(data, start, string_table@, k) == Ok::<
                    SectionView,
                    LinkError,
                >(sections@[k]@),
        decreases number_of_sections - i,
    {
        proof {
            lemma_parse_section_error(data, start + 40 * i, string_table@);
        }
        match read_section(coff, string_table) {
            Ok(section) => {
                sections.push(section);
            },
            Err(e) => {
                assert(nth_section(data, start, string_table@, i as int) is Err);
                coff.seek(table_position);
                return Err(e);
            },
        }
        i = i + 1;
    }
    assert(section_views(sections@) =~= Seq::new(
        number_of_sections as nat,
        |k: int| nth_section(data, start, string_table@, k)->Ok_0,
    ));
    Ok(sections)
}

/// Decoding the symbol whose eighteen bytes lie at `pos`.
pub open spec fn parse_symbol(data: Seq<u8>, pos: int, string_table: Seq<u8>) -> Result<
    SymbolView,
    LinkError,
> {
    if !in_bounds(data, pos, 18) {
        Err(LinkError::MalformedContainer)
    } else {
        match name_in_field(bytes_at(data, pos, 8), string_table) {
            Err(e) => Err(e),
            Ok(name) => Ok(
                SymbolView {
                    name,
                    value: u32_at(data, pos + 8),
                    section_number: i16_at(data, pos + 12),
                    symbol_type: u16_at(data, pos + 14),
                    storage_class: data[pos + 16],
                    number_of_aux_symbols: data[pos + 17],
                },
            ),
        }
    }
}

/// Every way in which decoding a symbol fails is a malformed container.
pub proof fn lemma_parse_symbol_error(data: Seq<u8>, pos: int, string_table: Seq<u8>)
    ensures
        parse_symbol(data, pos, string_table) is Err ==> parse_symbol(data, pos, string_table)
            == Err::<SymbolView, LinkError>(LinkError::MalformedContainer),
{
}

/// Reads the symbol at the reader's position and moves past its eighteen
/// bytes. On failure the reader stays where it was.
pub fn read_symbol(coff: &mut ByteReader, string_table: &[u8]) -> (symbol: Result<
    Symbol,
    LinkError,
>)
    ensures
        final(coff).data@ == old(coff).data@,
        match symbol {
            Ok(s) => parse_symbol(old(coff).data@, old(coff).position as int, string_table@)
                == Ok::<SymbolView, LinkError>(s@) && final(coff).position == old(coff).position
                + 18,
            Err(e) => parse_symbol(old(coff).data@, old(coff).position as int, string_table@)
                == Err::<SymbolView, LinkError>(e) && final(coff).position == old(coff).position,
        },
{
    proof {
        lemma_parse_symbol_error(coff.data@, coff.position as int, string_table@);
    }
    let start: u64 = coff.stream_position();
    let len: usize = coff.data.len();
    if len < 18 || start > (len - 18) as u64 {
        return Err(LinkError::MalformedContainer);
    }
    let name_buf: Vec<u8> = coff.read_exact(8)?;
    let name: String = match decode_name(name_buf.as_slice(), string_table) {
        Ok(name) => name,
        Err(e) => {
            coff.seek(start);
            return Err(e);
        },
    };
    let value: u32 = coff.read_u32()?;
    let section_number: i16 = coff.read_i16()?;
    let symbol_type: u16 = coff.read_u16()?;
    let storage_class: u8 = coff.read_u8()?;
    let number_of_aux_symbols: u8 = coff.read_u8()?;
    Ok(
        Symbol {
            name,
            value,
            section_number,
            symbol_type,
            storage_class,
            number_of_aux_symbols,
        },
    )
}

/// The `count` opaque eighteen-byte blocks of `data` that start at `pos`.
pub open spec fn aux_records(data: Seq<u8>, pos: int, count: nat) -> Seq<RecordView> {
    Seq::new(count, |i: int| RecordView::Aux(bytes_at(data, pos + 18 * i, 18)))
}

/// `records` before what `rest` holds, or the failure of `rest`.
pub open spec fn prepend_records(
    records: Seq<RecordView>,
    rest: Result<Seq<RecordView>, LinkError>,
) -> Result<Seq<RecordView>, LinkError> {
    match rest {
        Ok(tail) => Ok(records + tail),
        Err(e) => Err(e),
    }
}

/// The slots that are left of `total` after `used` of them, none where more
/// were used than there are.
pub open spec fn slots_left(total: nat, used: nat) -> nat {
    if used < total {
        (total - used) as nat
    } else {
        0
    }
}

/// Decoding a symbol table that starts at `pos` and has `remaining` slots
/// left: a symbol, the aux blocks that it declares, taken whole, and then
/// the rest of the table, which has that many slots fewer.
pub open spec fn parse_symbols(
    data: Seq<u8>,
    pos: int,
    string_table: Seq<u8>,
    remaining: nat,
) -> Result<Seq<RecordView>, LinkError>
    decreases remaining,
{
    if remaining == 0 {
        Ok(Seq::empty())
    } else {
        match parse_symbol(data, pos, string_table) {
            Err(e) => Err(e),
            Ok(symbol) => {
                let aux = symbol.number_of_aux_symbols as nat;
                if !readable(data, pos + 18, 18 * (aux as int)) {
                    Err(LinkError::MalformedContainer)
                } else {
                    prepend_records(
                        seq![RecordView::Symbol(symbol)] + aux_records(data, pos + 18, aux),
                        parse_symbols(
                            data,
                            pos + 18 * (aux + 1),
                            string_table,
                            slots_left(remaining, aux + 1),
                        ),
                    )
                }
            },
        }
    }
}

fn aux_block(bytes: &Vec<u8>) -> (block: [u8; 18])
    requires
        bytes@.len() == 18,
    ensures
        block@ == bytes@,
{
    let mut block: [u8; 18] = [0u8; 18];
    let mut k: usize = 0;
    while k < 18
        invariant
            k <= 18,
            bytes@.len() == 18,
            forall|m: int| 0 <= m < k ==> block@[m] == bytes@[m],
        decreases 18 - k,
    {
        block[k] = bytes[k];
        k = k + 1;
    }
    assert(block@ =~= bytes@);
    block
}

/// Reads a symbol table of `number_of_symbols` slots at the reader's
/// position and moves past the slots that were read. The aux blocks that a
/// symbol declares are read whole, also where they run past the declared
/// number of slots. On failure the reader stays where it was.
pub fn read_symbols(coff: &mut ByteReader, number_of_symbols: u32, string_table: &[u8]) -> (symbols:
    Result<Vec<SymbolTableRecord>, LinkError>)
    ensures
        final(coff).data@ == old(coff).data@,
        match symbols {
            Ok(list) => parse_symbols(
                old(coff).data@,
                old(coff).position as int,
                string_table@,
                number_of_symbols as nat,
            ) == Ok::<Seq<RecordView>, LinkError>(record_views(list@)) && final(coff).position
                == old(coff).position + 18 * list@.len(),
            Err(e) => parse_symbols(
                old(coff).data@,
                old(coff).position as int,
                string_table@,
                number_of_symbols as nat,
            ) == Err::<Seq<RecordView>, LinkError>(e) && final(coff).position == old(
                coff,
            ).position,
        },
{
    let ghost data = coff.data@;
    let start: u64 = coff.stream_position();
    let ghost total = parse_symbols(
        data,
        coff.position as int,
        string_table@,
        number_of_symbols as nat,
    );
    let mut symbols: Vec<SymbolTableRecord> = Vec::new();
    let mut si: u64 = 0;
    assert(record_views(symbols@) + total->Ok_0 =~= total->Ok_0);
    while si < number_of_symbols as u64
        invariant
            data == old(coff).data@,
            coff.data@ == data,
            start == old(coff).position,
            coff.position == start + 18 * symbols@.len(),
            si <= number_of_symbols + 255,
            total == parse_symbols(
                data,
                old(coff).position as int,
                string_table@,
                number_of_symbols as nat,
            ),
            total == prepend_records(
                record_views(symbols@),
                parse_symbols(
                    data,
                    coff.position as int,
                    string_table@,
                    slots_left(number_of_symbols as nat, si as nat),
                ),
            ),
        decreases number_of_symbols + 256 - si,
    {
        let ghost at = coff.position as int;
        let ghost before = record_views(symbols@);
        proof {
            lemma_parse_symbol_error(data, at, string_table@);
        }
        let symbol: Symbol = match read_symbol(coff, string_table) {
            Ok(symbol) => symbol,
            Err(e) => {
                coff.seek(start);
                return Err(e);
            },
        };
        let ghost symbol_view = symbol@;
        let number_of_aux_symbols: u8 = symbol.number_of_aux_symbols;
        symbols.push(SymbolTableRecord::Symbol(symbol));
        assert(record_views(symbols@) =~= before + seq![RecordView::Symbol(symbol_view)]
            + aux_records(data, at + 18, 0));
        let mut j: u8 = 0;
        while j < number_of_aux_symbols
            invariant
                j <= number_of_aux_symbols,
                data == old(coff).data@,
                coff.data@ == data,
                start == old(coff).position,
                at + 18 + 18 * j == start + 18 * symbols@.len(),
                total == parse_symbols(
                    data,
                    old(coff).position as int,
                    string_table@,
                    number_of_symbols as nat,
                ),
                coff.position == at + 18 + 18 * j,
                in_bounds(data, at, 18 + 18 * j),
                parse_symbol(data, at, string_table@) == Ok::<SymbolView, LinkError>(symbol_view),
                symbol_view.number_of_aux_symbols == number_of_aux_symbols,
                si < number_of_symbols,
                total == prepend_records(
                    before,
                    parse_symbols(
                        data,
                        at,
                        string_table@,
                        slots_left(number_of_symbols as nat, si as nat),
                    ),
                ),
                record_views(symbols@) == before + seq![RecordView::Symbol(symbol_view)]
                    + aux_records(data, at + 18, j as nat),
            decreases number_of_aux_symbols - j,
        {
            let ghost so_far = record_views(symbols@);
            let bytes: Vec<u8> = match coff.read_exact(18) {
                Ok(bytes) => bytes,
                Err(e) => {
                    assert(!readable(data, at + 18, 18 * (number_of_aux_symbols as int)));
                    coff.seek(start);
                    return Err(e);
                },
            };
            let block: [u8; 18] = aux_block(&bytes);
            symbols.push(SymbolTableRecord::Aux(block));
            assert(record_views(symbols@) =~= so_far.push(RecordView::Aux(bytes@)));
            assert(aux_records(data, at + 18, (j + 1) as nat) =~= aux_records(
                data,
                at + 18,
                j as nat,
            ).push(RecordView::Aux(bytes@)));
            j = j + 1;
            assert(record_views(symbols@) =~= before + seq![RecordView::Symbol(symbol_view)]
                + aux_records(data, at + 18, j as nat));
        }
        proof {
            let left = slots_left(number_of_symbols as nat, si as nat);
            let rest = parse_symbols(
                data,
                at + 18 * (number_of_aux_symbols + 1),
                string_table@,
                slots_left(left, (number_of_aux_symbols + 1) as nat),
            );
            let group = seq![RecordView::Symbol(symbol_view)] + aux_records(
                data,
                at + 18,
                number_of_aux_symbols as nat,
            );
            assert(parse_symbols(data, at, string_table@, left) == prepend_records(group, rest));
            assert(slots_left(left, (number_of_aux_symbols + 1) as nat) == slots_left(
                number_of_symbols as nat,
                (si + 1 + number_of_aux_symbols) as nat,
            ));
            assert(record_views(symbols@) =~= before + group);
            assert(coff.position == at + 18 * (number_of_aux_symbols + 1));
            if rest is Ok {
                assert(before + (group + rest->Ok_0) =~= (before + group) + rest->Ok_0);
            }
            assert(total == prepend_records(before + group, rest));
        }
        si = si + 1 + number_of_aux_symbols as u64;
    }
    assert(record_views(symbols@) + Seq::<RecordView>::empty() =~= record_views(symbols@));
    Ok(symbols)
}

/// What a [`COFF`] is, as a mathematical value.
pub struct CoffView {
    pub sections: Seq<SectionView>,
    pub symbols: Seq<RecordView>,
}

impl View for COFF {
    type V = CoffView;

    open spec fn view(&self) -> CoffView {
        CoffView { sections: section_views(self.sections@), symbols: record_views(self.symbols@) }
    }
}

/// Where the string table of an object file begins: right after its symbol table.
pub open spec fn string_table_position(header: Header) -> int {
    header.pointer_to_symbol_table + 18 * header.number_of_symbols
}

/// Decoding the string table at `pos`. Its first four bytes hold the length
/// of the whole table, themselves included, and belong to the table: offsets
/// into it count from the length field.
pub open spec fn parse_string_table(data: Seq<u8>, pos: int) -> Result<Seq<u8>, LinkError> {
    if in_bounds(data, pos, 4) && readable(data, pos, u32_at(data, pos) as int) {
        Ok(bytes_at(data, pos, u32_at(data, pos) as int))
    } else {
        Err(LinkError::MalformedContainer)
    }
}

/// Decoding the object file whose header lies at `pos`: the header, the
/// string table behind the symbol table, the section table that follows the
/// header, and the symbol table.
pub open spec fn parse_coff(data: Seq<u8>, pos: int) -> Result<CoffView, LinkError> {
    match parse_header(data, pos) {
        Err(e) => Err(e),
        Ok(header) => match parse_string_table(data, string_table_position(header)) {
            Err(e) => Err(e),
            Ok(string_table) => match parse_sections(
                data,
                pos + 20,
                header.number_of_sections as nat,
                string_table,
            ) {
                Err(e) => Err(e),
                Ok(sections) => match parse_symbols(
                    data,
                    header.pointer_to_symbol_table as int,
                    string_table,
                    header.number_of_symbols as nat,
                ) {
                    Err(e) => Err(e),
                    Ok(symbols) => Ok(CoffView { sections, symbols }),
                },
            },
        },
    }
}

/// Decodes the object file whose header lies at the reader's position.
pub fn read_coff(coff: ByteReader) -> (object: Result<COFF, LinkError>)
    ensures
        match object {
            Ok(o) => parse_coff(coff.data@, coff.position as int) == Ok::<CoffView, LinkError>(o@),
            Err(e) => parse_coff(coff.data@, coff.position as int) == Err::<CoffView, LinkError>(e),
        },
{
    let ghost data = coff.data@;
    let mut coff = coff;
    let header: Header = read_header(&mut coff)?;
    let section_table_position: u64 = coff.stream_position();

    coff.seek(header.pointer_to_symbol_table as u64 + header.number_of_symbols as u64 * 18);
    let string_table_size: u32 = coff.read_u32()?;
    coff.seek(header.pointer_to_symbol_table as u64 + header.number_of_symbols as u64 * 18);
    let string_table: Vec<u8> = coff.read_exact(string_table_size as usize)?;

    coff.seek(section_table_position);
    let sections: Vec<Section> = read_sections(
        &mut coff,
        header.number_of_sections,
        string_table.as_slice(),
    )?;

    coff.seek(header.pointer_to_symbol_table as u64);
    let symbols: Vec<SymbolTableRecord> = read_symbols(
        &mut coff,
        header.number_of_symbols,
        string_table.as_slice(),
    )?;

    Ok(COFF { sections, symbols })
}

/// Whether `section` can be written: its name fills the eight-byte field
/// with characters of one byte each, and its raw data is a whole number of
/// pages whose length fits in 32 bits.
pub open spec fn section_writable(section: SectionView) -> bool {
    &&& section.name.len() >= 8
    &&& is_latin1(section.name.subrange(0, 8))
    &&& section.raw_data.len() % (RAW_DATA_START as nat) == 0
    &&& section.raw_data.len() <= u32::MAX
}

/// The file offset of the raw data of the section with index `index` in a
/// written image: the raw data begins at the fixed offset and the sections
/// follow one another.
pub open spec fn raw_data_pointer(sections: Seq<SectionView>, index: int) -> int
    decreases index,
{
    if index <= 0 {
        RAW_DATA_START as int
    } else {
        raw_data_pointer(sections, index - 1) + sections[index - 1].raw_data.len()
    }
}

/// Whether the section with index `index` can be written at its place: the
/// section can be written, and the file offset of its raw data fits in 32 bits.
pub open spec fn section_placed(sections: Seq<SectionView>, index: int) -> bool {
    section_writable(sections[index]) && raw_data_pointer(sections, index) <= u32::MAX
}

/// Whether a section table can be written: every section can, at its place.
pub open spec fn sections_writable(sections: Seq<SectionView>) -> bool {
    forall|i: int| 0 <= i < sections.len() ==> #[trigger] section_placed(sections, i)
}

/// The forty bytes of the header of `section` in a written image, its raw
/// data at file offset `pointer`. Relocations and line numbers are not
/// written: their pointers and counts are zero.
pub open spec fn section_header_bytes(section: SectionView, pointer: u32) -> Seq<u8> {
    latin1_bytes(section.name.subrange(0, 8)) + u32_to_le(section.virtual_size) + u32_to_le(
        section.virtual_address,
    ) + u32_to_le(section.raw_data.len() as u32) + u32_to_le(pointer) + u32_to_le(0) + u32_to_le(0)
        + u16_to_le(0) + u16_to_le(0) + u32_to_le(section.characteristics)
}

/// The headers of the first `count` sections of `sections` in a written image.
pub open spec fn section_table_bytes(sections: Seq<SectionView>, count: int) -> Seq<u8>
    decreases count,
{
    if count <= 0 {
        Seq::empty()
    } else {
        section_table_bytes(sections, count - 1) + section_header_bytes(
            sections[count - 1],
            raw_data_pointer(sections, count - 1) as u32,
        )
    }
}

/// Whether `section` can be written.
fn check_section_writable(section: &Section) -> (writable: bool)
    ensures
        writable == section_writable(section@),
{
    let name: &str = section.name.as_str();
    if name.unicode_len() < 8 {
        return false;
    }
    let mut i: usize = 0;
    while i < 8
        invariant
            i <= 8,
            name@ == section.name@,
            name@.len() >= 8,
            forall|k: int| 0 <= k < i ==> (#[trigger] name@[k]) as u32 <= 0xff,
        decreases 8 - i,
    {
        let ch: char = name.get_char(i);
        if ch as u32 > 0xff {
            assert(section.name@.subrange(0, 8)[i as int] == ch);
            return false;
        }
        i = i + 1;
    }
    let len: usize = section.raw_data.len();
    len % (RAW_DATA_START as usize) == 0 && len <= 0xffff_ffff
}

/// Appends the first eight characters of `name`, one byte each.
fn write_section_name(name: &str, destination: &mut Vec<u8>)
    requires
        name@.len() >= 8,
        is_latin1(name@.subrange(0, 8)),
    ensures
        final(destination)@ == old(destination)@ + latin1_bytes(name@.subrange(0, 8)),
{
    let mut i: usize = 0;
    while i < 8
        invariant
            i <= 8,
            name@.len() >= 8,
            is_latin1(name@.subrange(0, 8)),
            destination@ == old(destination)@ + latin1_bytes(name@.subrange(0, i as int)),
        decreases 8 - i,
    {
        let ch: char = name.get_char(i);
        assert(name@.subrange(0, 8)[i as int] == ch);
        destination.push(ch as u8);
        i = i + 1;
        assert(destination@ =~= old(destination)@ + latin1_bytes(name@.subrange(0, i as int)));
    }
}

/// Appends the header of `section`, its raw data at file offset `pointer`.
fn write_section_header(section: &Section, pointer: u32, destination: &mut Vec<u8>)
    requires
        section_writable(section@),
    ensures
        final(destination)@ == old(destination)@ + section_header_bytes(section@, pointer),
{
    write_section_name(section.name.as_str(), destination);
    write_u32(destination, section.virtual_size);
    write_u32(destination, section.virtual_address);
    write_u32(destination, section.raw_data.len() as u32);
    write_u32(destination, pointer);
    write_u32(destination, 0);
    write_u32(destination, 0);
    write_u16(destination, 0);
    write_u16(destination, 0);
    write_u32(destination, section.characteristics);
    assert(destination@ =~= old(destination)@ + section_header_bytes(section@, pointer));
}

/// Appends the section table of a written image to `destination`: one
/// header for each section, the raw data pointers counted up from offset
/// 0x1000. Nothing is written unless every section can be.
pub fn write_sections(sections: &Vec<Section>, destination: &mut Vec<u8>) -> (done: Result<
    (),
    LinkError,
>)
    ensures
        match done {
            Ok(_) => sections_writable(section_views(sections@)) && final(destination)@ == old(
                destination,
            )@ + section_table_bytes(section_views(sections@), sections@.len() as int),
            Err(e) => e == LinkError::UnsupportedFeature && !sections_writable(
                section_views(sections@),
            ) && final(destination)@ == old(destination)@,
        },
{
    let ghost views = section_views(sections@);
    let mut pointer: u64 = RAW_DATA_START as u64;
    let mut si: usize = 0;
    while si < sections.len()
        invariant
            si <= sections@.len(),
            views == section_views(sections@),
            destination@ == old(destination)@,
            pointer == raw_data_pointer(views, si as int),
            forall|i: int| 0 <= i < si ==> #[trigger] section_placed(views, i),
        decreases sections@.len() - si,
    {
        assert(views[si as int] == sections@[si as int]@);
        if pointer > 0xffff_ffff || !check_section_writable(&sections[si]) {
            assert(!section_placed(views, si as int));
            return Err(LinkError::UnsupportedFeature);
        }
        assert(section_placed(views, si as int));
        pointer = pointer + sections[si].raw_data.len() as u64;
        si = si + 1;
    }
    assert(sections_writable(views));
    let mut current_raw_data_pointer: u32 = RAW_DATA_START;
    let mut si: usize = 0;
    while si < sections.len()
        invariant
            si <= sections@.len(),
            views == section_views(sections@),
            sections_writable(views),
            si < sections@.len() ==> current_raw_data_pointer == raw_data_pointer(views, si as int),
            destination@ == old(destination)@ + section_table_bytes(views, si as int),
        decreases sections@.len() - si,
    {
        let section: &Section = &sections[si];
        let ghost before = destination@;
        assert(views[si as int] == section@);
        assert(section_placed(views, si as int));
        write_section_header(section, current_raw_data_pointer, destination);
        proof {
            let header = section_header_bytes(views[si as int], current_raw_data_pointer);
            assert(section_table_bytes(views, si + 1) == section_table_bytes(views, si as int)
                + header);
            assert(old(destination)@ + section_table_bytes(views, si as int) + header =~= old(
                destination,
            )@ + (section_table_bytes(views, si as int) + header));
        }
        si = si + 1;
        if si < sections.len() {
            assert(section_placed(views, si as int));
            current_raw_data_pointer = current_raw_data_pointer + section.raw_data.len() as u32;
        }
    }
    Ok(())
}

/// A name field whose first four bytes are zero, of a section or of a
/// symbol, stands for the zero-terminated run of the string table that
/// starts at the offset in its last four bytes: the bytes from there up to,
/// and without, the first zero byte. Where the table has no zero byte from
/// there on, the name is malformed.
pub proof fn lemma_name_in_string_table(field: Seq<u8>, string_table: Seq<u8>)
    requires
        field.len() == 8,
        is_name_reference(field),
    ensures
        ({
            let offset = u32_from_le(field.subrange(4, 8)) as int;
            match name_in_field(field, string_table) {
                Ok(name) => exists|end: int|
                    offset <= end < string_table.len() && string_table[end] == 0 && (forall|
                        i: int,
                    |
                        offset <= i < end ==> string_table[i] != 0) && name == latin1(
                        string_table.subrange(offset, end),
                    ),
                Err(e) => e == LinkError::MalformedContainer && forall|i: int|
                    offset <= i < string_table.len() ==> string_table[i] != 0,
            }
        }),
{
    let offset = u32_from_le(field.subrange(4, 8)) as int;
    lemma_terminator_from(string_table, offset);
}

/// A name field whose first four bytes are not all zero stands for its
/// eight bytes, whatever the string table holds.
pub proof fn lemma_literal_name(field: Seq<u8>, string_table: Seq<u8>)
    requires
        field.len() == 8,
        !is_name_reference(field),
    ensures
        name_in_field(field, string_table) == Ok::<Seq<char>, LinkError>(latin1(field)),
        latin1(field).len() == 8,
{
}

/// Whether the section header at `pos` holds what a written image holds in
/// the fields that are made anew on writing: `pointer` as the place of the
/// raw data, and zero as the place and the number of the relocations and of
/// the line numbers.
pub open spec fn header_in_written_form(data: Seq<u8>, pos: int, pointer: int) -> bool {
    &&& u32_at(data, pos + 20) == pointer
    &&& u32_at(data, pos + 24) == 0
    &&& u32_at(data, pos + 28) == 0
    &&& u16_at(data, pos + 32) == 0
    &&& u16_at(data, pos + 34) == 0
}

/// Reading a section and writing it again gives back the header that was
/// read: always in the name, the virtual size, the virtual address, the raw
/// size and the characteristics; and in all forty bytes where the header
/// that was read holds, in the fields that are made anew on writing, what a
/// written image holds there. This is for a literal name; one that stands in
/// the string table is written as its first eight characters.
pub proof fn lemma_section_header_round_trip(
    data: Seq<u8>,
    pos: int,
    string_table: Seq<u8>,
    pointer: u32,
)
    requires
        parse_section(data, pos, string_table) is Ok,
        !is_name_reference(bytes_at(data, pos, 8)),
    ensures
        ({
            let section = parse_section(data, pos, string_table)->Ok_0;
            let written = section_header_bytes(section, pointer);
            let read = bytes_at(data, pos, 40);
            &&& written.len() == 40
            &&& written.subrange(0, 20) == read.subrange(0, 20)
            &&& written.subrange(36, 40) == read.subrange(36, 40)
            &&& header_in_written_form(data, pos, pointer as int) ==> written == read
        }),
{
    let section = parse_section(data, pos, string_table)->Ok_0;
    let written = section_header_bytes(section, pointer);
    let read = bytes_at(data, pos, 40);
    let field = bytes_at(data, pos, 8);
    lemma_latin1_round_trip(field);
    assert(section.name == latin1(field));
    assert(section.name.subrange(0, 8) =~= section.name);
    assert(latin1_bytes(section.name.subrange(0, 8)) == field);
    lemma_le_encode_decode(bytes_at(data, pos + 8, 4));
    lemma_le_encode_decode(bytes_at(data, pos + 12, 4));
    lemma_le_encode_decode(bytes_at(data, pos + 16, 4));
    lemma_le_encode_decode(bytes_at(data, pos + 20, 4));
    lemma_le_encode_decode(bytes_at(data, pos + 24, 4));
    lemma_le_encode_decode(bytes_at(data, pos + 28, 4));
    lemma_le_encode_decode(bytes_at(data, pos + 32, 2));
    lemma_le_encode_decode(bytes_at(data, pos + 34, 2));
    lemma_le_encode_decode(bytes_at(data, pos + 36, 4));
    assert(section.raw_data.len() == u32_at(data, pos + 16));
    let start = field + bytes_at(data, pos + 8, 4) + bytes_at(data, pos + 12, 4) + bytes_at(
        data,
        pos + 16,
        4,
    );
    assert(written.subrange(0, 20) =~= start);
    assert(read.subrange(0, 20) =~= start);
    assert(written.subrange(36, 40) =~= bytes_at(data, pos + 36, 4));
    assert(read.subrange(36, 40) =~= bytes_at(data, pos + 36, 4));
    if header_in_written_form(data, pos, pointer as int) {
        assert(written =~= start + bytes_at(data, pos + 20, 4) + bytes_at(data, pos + 24, 4)
            + bytes_at(data, pos + 28, 4) + bytes_at(data, pos + 32, 2) + bytes_at(
            data,
            pos + 34,
            2,
        ) + bytes_at(data, pos + 36, 4));
        assert(written =~= read);
    }
}

/// A section that was read with a literal name and with raw data of whole
/// pages can be written.
pub proof fn lemma_read_section_writable(data: Seq<u8>, pos: int, string_table: Seq<u8>)
    requires
        parse_section(data, pos, string_table) is Ok,
        !is_name_reference(bytes_at(data, pos, 8)),
        u32_at(data, pos + 16) % RAW_DATA_START == 0,
    ensures
        section_writable(parse_section(data, pos, string_table)->Ok_0),
{
    let section = parse_section(data, pos, string_table)->Ok_0;
    let field = bytes_at(data, pos, 8);
    lemma_latin1_round_trip(field);
    assert(section.name == latin1(field));
    assert(section.name.subrange(0, 8) =~= section.name);
    assert(section.raw_data.len() == u32_at(data, pos + 16));
}

/// Whether the header with index `index` of the section table at `pos` is
/// as a written image with the sections `sections` holds it: the name is
/// literal, the raw data is whole pages, and the fields that are made anew
/// on writing hold what the writer puts there.
pub open spec fn nth_header_in_written_form(
    data: Seq<u8>,
    pos: int,
    sections: Seq<SectionView>,
    index: int,
) -> bool {
    &&& !is_name_reference(bytes_at(data, pos + 40 * index, 8))
    &&& u32_at(data, pos + 40 * index + 16) % RAW_DATA_START == 0
    &&& header_in_written_form(data, pos + 40 * index, raw_data_pointer(sections, index))
}

/// Whether every header of the section table at `pos` is in written form.
pub open spec fn table_in_written_form(data: Seq<u8>, pos: int, sections: Seq<SectionView>) -> bool {
    forall|i: int|
        0 <= i < sections.len() ==> #[trigger] nth_header_in_written_form(data, pos, sections, i)
}

/// A section table that was read holds, at each index, the section of the
/// header at that place.
pub proof fn lemma_nth_section_read(
    data: Seq<u8>,
    pos: int,
    string_table: Seq<u8>,
    sections: Seq<SectionView>,
    index: int,
)
    requires
        0 <= index < sections.len(),
        parse_sections(data, pos, sections.len(), string_table) == Ok::<
            Seq<SectionView>,
            LinkError,
        >(sections),
    ensures
        parse_section(data, pos + 40 * index, string_table) == Ok::<SectionView, LinkError>(
            sections[index],
        ),
{
    assert(nth_section(data, pos, string_table, index) is Ok);
}

proof fn lemma_bytes_at_joined(data: Seq<u8>, pos: int, first: int, second: int)
    requires
        0 <= first,
        0 <= second,
    ensures
        bytes_at(data, pos, first) + bytes_at(data, pos + first, second) == bytes_at(
            data,
            pos,
            first + second,
        ),
{
    assert(bytes_at(data, pos, first) + bytes_at(data, pos + first, second) =~= bytes_at(
        data,
        pos,
        first + second,
    ));
}

proof fn lemma_section_table_round_trip_prefix(
    data: Seq<u8>,
    pos: int,
    string_table: Seq<u8>,
    sections: Seq<SectionView>,
    upto: int,
)
    requires
        0 <= pos,
        0 <= upto <= sections.len(),
        parse_sections(data, pos, sections.len(), string_table) == Ok::<
            Seq<SectionView>,
            LinkError,
        >(sections),
        table_in_written_form(data, pos, sections),
    ensures
        section_table_bytes(sections, upto) == bytes_at(data, pos, 40 * upto),
        forall|i: int| 0 <= i < upto ==> #[trigger] section_placed(sections, i),
    decreases upto,
{
    if upto == 0 {
        assert(section_table_bytes(sections, 0) =~= bytes_at(data, pos, 0));
    } else {
        let i = upto - 1;
        lemma_section_table_round_trip_prefix(data, pos, string_table, sections, i);
        lemma_nth_section_read(data, pos, string_table, sections, i);
        assert(nth_header_in_written_form(data, pos, sections, i));
        let pointer = raw_data_pointer(sections, i) as u32;
        lemma_read_section_writable(data, pos + 40 * i, string_table);
        lemma_section_header_round_trip(data, pos + 40 * i, string_table, pointer);
        lemma_bytes_at_joined(data, pos, 40 * i, 40);
    }
}

/// Reading a section table and writing it again, without a merge in
/// between, gives back the bytes that were read: where every header is in
/// written form, the sections that were read can be written, and the table
/// that is written is, byte for byte, the table that was read.
pub proof fn lemma_section_table_round_trip(
    data: Seq<u8>,
    pos: int,
    string_table: Seq<u8>,
    sections: Seq<SectionView>,
)
    requires
        0 <= pos,
        parse_sections(data, pos, sections.len(), string_table) == Ok::<
            Seq<SectionView>,
            LinkError,
        >(sections),
        table_in_written_form(data, pos, sections),
    ensures
        sections_writable(sections),
        section_table_bytes(sections, sections.len() as int).len() == 40 * sections.len(),
        section_table_bytes(sections, sections.len() as int) == bytes_at(
            data,
            pos,
            40 * (sections.len() as int),
        ),
{
    lemma_section_table_round_trip_prefix(data, pos, string_table, sections, sections.len() as int);
}

/// A section table in a written image is forty bytes a section, the header
/// of each section at its place, with the file offset of its raw data at
/// bytes 20 to 24 of the header.
pub proof fn lemma_section_table_bytes(sections: Seq<SectionView>, count: int, index: int)
    requires
        0 <= index < count <= sections.len(),
        forall|i: int| 0 <= i < count ==> (#[trigger] sections[i]).name.len() >= 8,
    ensures
        section_table_bytes(sections, count).len() == 40 * count,
        section_table_bytes(sections, count).subrange(40 * index, 40 * index + 40)
            == section_header_bytes(sections[index], raw_data_pointer(sections, index) as u32),
        section_table_bytes(sections, count).subrange(40 * index + 20, 40 * index + 24)
            == u32_to_le(raw_data_pointer(sections, index) as u32),
    decreases count,
{
    let last = section_header_bytes(
        sections[count - 1],
        raw_data_pointer(sections, count - 1) as u32,
    );
    assert(last.len() == 40);
    if count > 1 {
        lemma_section_table_bytes(sections, count - 1, if index < count - 1 {
            index
        } else {
            0
        });
    }
    let before = section_table_bytes(sections, count - 1);
    let table = section_table_bytes(sections, count);
    assert(table == before + last);
    assert(before.len() == 40 * (count - 1));
    let header = section_header_bytes(sections[index], raw_data_pointer(sections, index) as u32);
    if index < count - 1 {
        assert(table.subrange(40 * index, 40 * index + 40) =~= before.subrange(
            40 * index,
            40 * index + 40,
        ));
    } else {
        assert(table.subrange(40 * index, 40 * index + 40) =~= last);
    }
    assert(header.len() == 40);
    assert(header.subrange(20, 24) =~= u32_to_le(raw_data_pointer(sections, index) as u32));
    assert(table.subrange(40 * index + 20, 40 * index + 24) =~= table.subrange(
        40 * index,
        40 * index + 40,
    ).subrange(20, 24));
}

} // verus!
