//! Appending the sections of an object file to an image: addresses, sizes,
//! padding, characteristics, and the indices that the relocations carry.

use crate::coff::{
    empty_section, record_views, section_views, Header, RecordView, Relocation, Section,
    SectionView, Symbol, SymbolTableRecord, SymbolView, COFF,
};
use crate::error::LinkError;
use crate::pe::{section_count_consistent, Image, ImageView, OptionalHeader};
use vstd::arithmetic::div_mod::{lemma_fundamental_div_mod, lemma_mod_multiples_basic};
use vstd::prelude::*;

verus! {

/// The section contains executable code.
pub const IMAGE_SCN_CNT_CODE: u32 = 0x0000_0020;

/// The section contains initialized data.
pub const IMAGE_SCN_CNT_INITIALIZED_DATA: u32 = 0x0000_0040;

/// The section contains uninitialized data.
pub const IMAGE_SCN_CNT_UNINITIALIZED_DATA: u32 = 0x0000_0080;

/// The section holds data that the linker may fold with equal data.
pub const IMAGE_SCN_LNK_COMDAT: u32 = 0x0000_1000;

/// The section's data is aligned on 2 bytes.
pub const IMAGE_SCN_ALIGN_2BYTES: u32 = 0x0020_0000;

/// The section's data is aligned on 4 bytes.
pub const IMAGE_SCN_ALIGN_4BYTES: u32 = 0x0030_0000;

/// The section's data is aligned on 16 bytes.
pub const IMAGE_SCN_ALIGN_16BYTES: u32 = 0x0050_0000;

/// The section's data is aligned on 32 bytes.
pub const IMAGE_SCN_ALIGN_32BYTES: u32 = 0x0060_0000;

/// The section can be executed.
pub const IMAGE_SCN_MEM_EXECUTE: u32 = 0x2000_0000;

/// The section can be read.
pub const IMAGE_SCN_MEM_READ: u32 = 0x4000_0000;

/// The section can be written.
pub const IMAGE_SCN_MEM_WRITE: u32 = 0x8000_0000;

/// The content kinds and the permissions: the characteristics that a merged
/// section keeps.
pub const CONTENT_AND_PERMISSIONS: u32 = 0xe000_00e0;

/// The byte that pads the raw data of a merged section: a breakpoint
/// instruction, so that running into the padding is noticed.
pub const PADDING_BYTE: u8 = 0xcc;

/// The mask of kept characteristics is the union of the three content kinds
/// and the three permissions.
pub proof fn lemma_content_and_permissions()
    ensures
        CONTENT_AND_PERMISSIONS == IMAGE_SCN_CNT_CODE | IMAGE_SCN_CNT_INITIALIZED_DATA
            | IMAGE_SCN_CNT_UNINITIALIZED_DATA | IMAGE_SCN_MEM_EXECUTE | IMAGE_SCN_MEM_READ
            | IMAGE_SCN_MEM_WRITE,
{
    assert(0xe000_00e0u32 == 0x20u32 | 0x40u32 | 0x80u32 | 0x2000_0000u32 | 0x4000_0000u32
        | 0x8000_0000u32) by (bit_vector);
}

/// What is left of `characteristics` once the content kinds and the
/// permissions are cleared: the alignment class and the linkage flags.
pub open spec fn alignment_and_linkage(characteristics: u32) -> u32 {
    characteristics & !CONTENT_AND_PERMISSIONS
}

/// The content kinds and the permissions of `characteristics`.
pub open spec fn content_and_permissions(characteristics: u32) -> u32 {
    characteristics & CONTENT_AND_PERMISSIONS
}

/// Whether the alignment class and linkage flags of `characteristics` are
/// one of the five supported combinations.
pub open spec fn characteristics_allowed(characteristics: u32) -> bool {
    let rest = alignment_and_linkage(characteristics);
    ||| rest == (IMAGE_SCN_LNK_COMDAT | IMAGE_SCN_ALIGN_4BYTES)
    ||| rest == IMAGE_SCN_ALIGN_2BYTES
    ||| rest == IMAGE_SCN_ALIGN_4BYTES
    ||| rest == IMAGE_SCN_ALIGN_16BYTES
    ||| rest == IMAGE_SCN_ALIGN_32BYTES
}

/// Whether the alignment class and linkage flags of `characteristics` are
/// one of the five supported combinations.
pub fn check_characteristics(characteristics: u32) -> (allowed: bool)
    ensures
        allowed == characteristics_allowed(characteristics),
{
    let rest: u32 = characteristics & !CONTENT_AND_PERMISSIONS;
    rest == (IMAGE_SCN_LNK_COMDAT | IMAGE_SCN_ALIGN_4BYTES) || rest == IMAGE_SCN_ALIGN_2BYTES
        || rest == IMAGE_SCN_ALIGN_4BYTES || rest == IMAGE_SCN_ALIGN_16BYTES || rest
        == IMAGE_SCN_ALIGN_32BYTES
}

/// `size` rounded up to a multiple of `alignment`.
pub open spec fn aligned_size(size: int, alignment: int) -> int {
    if size % alignment == 0 {
        size
    } else {
        size + alignment - size % alignment
    }
}

/// Rounding up gives a multiple of the alignment that is not below the size
/// and less than one alignment above it.
pub proof fn lemma_aligned_size(size: int, alignment: int)
    requires
        0 <= size,
        0 < alignment,
    ensures
        aligned_size(size, alignment) % alignment == 0,
        size <= aligned_size(size, alignment) < size + alignment,
{
    lemma_fundamental_div_mod(size, alignment);
    let q = size / alignment;
    if size % alignment != 0 {
        assert(aligned_size(size, alignment) == (q + 1) * alignment) by (nonlinear_arith)
            requires
                size == alignment * q + size % alignment,
                aligned_size(size, alignment) == size + alignment - size % alignment,
        ;
        lemma_mod_multiples_basic(q + 1, alignment);
    }
}

/// Rounding up gives the least such multiple: no multiple of the alignment
/// lies between the size and the rounded size.
pub proof fn lemma_aligned_size_least(size: int, alignment: int, other: int)
    requires
        0 <= size,
        0 < alignment,
        size <= other,
        other % alignment == 0,
    ensures
        aligned_size(size, alignment) <= other,
{
    lemma_fundamental_div_mod(size, alignment);
    lemma_fundamental_div_mod(other, alignment);
    let q = size / alignment;
    let p = other / alignment;
    if size % alignment != 0 {
        assert(p >= q + 1) by (nonlinear_arith)
            requires
                other == alignment * p,
                size == alignment * q + size % alignment,
                0 < size % alignment,
                size <= other,
                0 < alignment,
        ;
        assert(size + alignment - size % alignment <= other) by (nonlinear_arith)
            requires
                other == alignment * p,
                size == alignment * q + size % alignment,
                p >= q + 1,
                0 < alignment,
        ;
    }
}

/// Rounding `size` up to a multiple of `alignment` in 32 bits: an alignment
/// of zero is malformed, a result beyond 32 bits unsupported.
pub open spec fn checked_aligned_size(size: u32, alignment: u32) -> Result<u32, LinkError> {
    if alignment == 0 {
        Err(LinkError::MalformedContainer)
    } else if aligned_size(size as int, alignment as int) > u32::MAX {
        Err(LinkError::UnsupportedFeature)
    } else {
        Ok(aligned_size(size as int, alignment as int) as u32)
    }
}

/// Rounds `size` up to a multiple of `alignment`.
pub fn calculate_aligned_size(size: u32, alignment: u32) -> (aligned: Result<u32, LinkError>)
    ensures
        aligned == checked_aligned_size(size, alignment),
{
    if alignment == 0 {
        return Err(LinkError::MalformedContainer);
    }
    let alignment_difference: u32 = size % alignment;
    if alignment_difference != 0 {
        let padding: u32 = alignment - alignment_difference;
        if padding > u32::MAX - size {
            return Err(LinkError::UnsupportedFeature);
        }
        return Ok(size + padding);
    }
    Ok(size)
}

/// The section number of a symbol of the object file once the image has
/// `offset` sections before the object's: a defined symbol moves by
/// `offset`, any other stays.
pub open spec fn moved_section_number(section_number: i16, offset: i16) -> int {
    if section_number < 1 {
        section_number as int
    } else {
        section_number + offset
    }
}

/// Makes the section number of `s` address the unified section list, in
/// which `offset` sections come before those of the object file. A symbol
/// that is not defined stays as it is; so does one whose new number does
/// not fit, which is an error.
pub fn move_symbol(s: &mut Symbol, offset: i16) -> (done: Result<(), LinkError>)
    ensures
        match done {
            Ok(_) => moved_section_number(old(s).section_number, offset) <= i16::MAX && final(s)@
                == (SymbolView {
                section_number: moved_section_number(old(s).section_number, offset) as i16,
                ..old(s)@
            }),
            Err(e) => e == LinkError::UnsupportedFeature && moved_section_number(
                old(s).section_number,
                offset,
            ) > i16::MAX && final(s)@ == old(s)@,
        },
{
    if s.section_number < 1 {
        return Ok(());
    }
    if offset > i16::MAX - s.section_number {
        return Err(LinkError::UnsupportedFeature);
    }
    s.section_number = s.section_number + offset;
    Ok(())
}

/// Where a merged section lies in the address space, and how much of it
/// the section takes.
pub struct Placement {
    pub virtual_address: u32,
    pub virtual_size: u32,
}

/// Whether every relocation of `relocations` can have `delta` added to its
/// symbol index within 32 bits.
pub open spec fn relocations_shiftable(relocations: Seq<Relocation>, delta: u32) -> bool {
    forall|k: int|
        0 <= k < relocations.len() ==> (#[trigger] relocations[k]).symbol_table_index + delta
            <= u32::MAX
}

/// `relocations` with `delta` added to each symbol index.
pub open spec fn shifted_relocations(relocations: Seq<Relocation>, delta: u32) -> Seq<Relocation> {
    Seq::new(
        relocations.len(),
        |k: int|
            Relocation {
                virtual_address: relocations[k].virtual_address,
                symbol_table_index: (relocations[k].symbol_table_index + delta) as u32,
                relocation_type: relocations[k].relocation_type,
            },
    )
}

/// `raw_data` followed by as many padding bytes as bring its length to a
/// multiple of `file_alignment`.
pub open spec fn padded_raw_data(raw_data: Seq<u8>, file_alignment: int) -> Seq<u8> {
    raw_data + Seq::new(
        (aligned_size(raw_data.len() as int, file_alignment) - raw_data.len()) as nat,
        |i: int| PADDING_BYTE,
    )
}

/// The address and the virtual size of the virtual-address range that ends
/// the image so far: those of its last section, if it has one.
pub open spec fn last_extent(image: ImageView) -> Option<(u32, u32)> {
    if image.sections.len() == 0 {
        None
    } else {
        Some((image.sections.last().virtual_address, image.sections.last().virtual_size))
    }
}

/// Where a section with raw data goes, given the two alignments, the extent
/// of the last section so far, and the section count and the image size so
/// far. Its virtual size is its raw length rounded up to the section
/// alignment; its address is the end of the last section, rounded up
/// likewise. The checks come in a fixed order, and the first that fails
/// decides the error.
pub open spec fn placement_for(
    section_alignment: u32,
    file_alignment: u32,
    last: Option<(u32, u32)>,
    number_of_sections: u16,
    size_of_image: u32,
    section: SectionView,
    delta: u32,
) -> Result<Placement, LinkError> {
    if section.raw_data.len() > u32::MAX {
        Err(LinkError::UnsupportedFeature)
    } else {
        match checked_aligned_size(section.raw_data.len() as u32, section_alignment) {
            Err(e) => Err(e),
            Ok(virtual_size) => match last {
                None => Err(LinkError::MalformedContainer),
                Some((last_address, last_size)) => match checked_aligned_size(
                    last_size,
                    section_alignment,
                ) {
                    Err(e) => Err(e),
                    Ok(last_aligned) => if last_address + last_aligned > u32::MAX {
                        Err(LinkError::UnsupportedFeature)
                    } else if (last_address + last_aligned) % (section_alignment as int) != 0 {
                        Err(LinkError::MalformedContainer)
                    } else if file_alignment == 0 {
                        Err(LinkError::MalformedContainer)
                    } else if !relocations_shiftable(section.relocations, delta) {
                        Err(LinkError::UnsupportedFeature)
                    } else if !characteristics_allowed(section.characteristics) {
                        Err(LinkError::UnsupportedFeature)
                    } else if number_of_sections == u16::MAX {
                        Err(LinkError::UnsupportedFeature)
                    } else if size_of_image + virtual_size > u32::MAX {
                        Err(LinkError::UnsupportedFeature)
                    } else {
                        Ok(
                            Placement {
                                virtual_address: (last_address + last_aligned) as u32,
                                virtual_size,
                            },
                        )
                    },
                },
            },
        }
    }
}

/// Where `section` goes when it is appended to `image`.
pub open spec fn placement(image: ImageView, section: SectionView, delta: u32) -> Result<
    Placement,
    LinkError,
> {
    placement_for(
        image.optional_header.section_alignment,
        image.optional_header.file_alignment,
        last_extent(image),
        image.coff_header.number_of_sections,
        image.optional_header.size_of_image,
        section,
        delta,
    )
}

/// What `section` is once it is merged at `place`: its raw data padded to
/// the file alignment, its relocations shifted by `delta`, and of its
/// characteristics only the content kinds and the permissions.
pub open spec fn placed_section(
    section: SectionView,
    place: Placement,
    file_alignment: u32,
    delta: u32,
) -> SectionView {
    SectionView {
        name: section.name,
        virtual_size: place.virtual_size,
        virtual_address: place.virtual_address,
        raw_data: padded_raw_data(section.raw_data, file_alignment as int),
        relocations: shifted_relocations(section.relocations, delta),
        characteristics: content_and_permissions(section.characteristics),
    }
}

/// `image` with `section` appended: one section more in the list and in the
/// header's count, and the section's virtual size more in the image size.
pub open spec fn with_section(image: ImageView, section: SectionView) -> ImageView {
    ImageView {
        stub: image.stub,
        pe_signature: image.pe_signature,
        coff_header: Header {
            number_of_sections: (image.coff_header.number_of_sections + 1) as u16,
            ..image.coff_header
        },
        optional_header: OptionalHeader {
            size_of_image: (image.optional_header.size_of_image + section.virtual_size) as u32,
            ..image.optional_header
        },
        data_directories: image.data_directories,
        sections: image.sections.push(section),
    }
}

/// Appending one section of the object file to `image`. A section without
/// raw data is left out, by intent: the image stays as it is.
pub open spec fn merge_section(image: ImageView, section: SectionView, delta: u32) -> Result<
    ImageView,
    LinkError,
> {
    if section.raw_data.len() == 0 {
        Ok(image)
    } else {
        match placement(image, section, delta) {
            Err(e) => Err(e),
            Ok(place) => Ok(
                with_section(
                    image,
                    placed_section(section, place, image.optional_header.file_alignment, delta),
                ),
            ),
        }
    }
}

/// Appending the sections of `sections` from index `from` on to `image`, in
/// order, up to the first that cannot be placed.
pub open spec fn merge_from(
    image: ImageView,
    sections: Seq<SectionView>,
    from: int,
    delta: u32,
) -> Result<ImageView, LinkError>
    decreases sections.len() - from,
{
    if from < 0 || from >= sections.len() {
        Ok(image)
    } else {
        match merge_section(image, sections[from], delta) {
            Err(e) => Err(e),
            Ok(next) => merge_from(next, sections, from + 1, delta),
        }
    }
}

/// The image that holds `image` and after it the sections of `sections`.
pub open spec fn merged_image(image: ImageView, sections: Seq<SectionView>, delta: u32) -> Result<
    ImageView,
    LinkError,
> {
    merge_from(image, sections, 0, delta)
}

/// What is left of the section list of the object file after a merge: the
/// sections that were moved into the image are empty, the others as before.
pub open spec fn taken_sections(sections: Seq<SectionView>) -> Seq<SectionView> {
    Seq::new(
        sections.len(),
        |i: int|
            if sections[i].raw_data.len() == 0 {
                sections[i]
            } else {
                empty_section()
            },
    )
}

/// Whether `delta` can be added to the symbol index of every relocation.
fn check_relocations_shiftable(relocations: &Vec<Relocation>, delta: u32) -> (shiftable: bool)
    ensures
        shiftable == relocations_shiftable(relocations@, delta),
{
    let mut ri: usize = 0;
    while ri < relocations.len()
        invariant
            ri <= relocations@.len(),
            forall|k: int|
                0 <= k < ri ==> (#[trigger] relocations@[k]).symbol_table_index + delta
                    <= u32::MAX,
        decreases relocations@.len() - ri,
    {
        if relocations[ri].symbol_table_index > u32::MAX - delta {
            return false;
        }
        ri = ri + 1;
    }
    true
}

/// Works out where `section`, which has raw data, goes.
fn place_section(
    section_alignment: u32,
    file_alignment: u32,
    last: Option<(u32, u32)>,
    number_of_sections: u16,
    size_of_image: u32,
    section: &Section,
    delta: u32,
) -> (place: Result<Placement, LinkError>)
    ensures
        place == placement_for(
            section_alignment,
            file_alignment,
            last,
            number_of_sections,
            size_of_image,
            section@,
            delta,
        ),
{
    if section.raw_data.len() > 0xffff_ffff {
        return Err(LinkError::UnsupportedFeature);
    }
    let raw_data_length: u32 = section.raw_data.len() as u32;
    let virtual_size: u32 = calculate_aligned_size(raw_data_length, section_alignment)?;
    let (last_address, last_size): (u32, u32) = match last {
        Some(extent) => extent,
        None => {
            return Err(LinkError::MalformedContainer);
        },
    };
    let last_aligned: u32 = calculate_aligned_size(last_size, section_alignment)?;
    if last_aligned > u32::MAX - last_address {
        return Err(LinkError::UnsupportedFeature);
    }
    let virtual_address: u32 = last_address + last_aligned;
    if virtual_address % section_alignment != 0 {
        return Err(LinkError::MalformedContainer);
    }
    if file_alignment == 0 {
        return Err(LinkError::MalformedContainer);
    }
    if !check_relocations_shiftable(&section.relocations, delta) {
        return Err(LinkError::UnsupportedFeature);
    }
    if !check_characteristics(section.characteristics) {
        return Err(LinkError::UnsupportedFeature);
    }
    if number_of_sections == u16::MAX {
        return Err(LinkError::UnsupportedFeature);
    }
    if virtual_size > u32::MAX - size_of_image {
        return Err(LinkError::UnsupportedFeature);
    }
    Ok(Placement { virtual_address, virtual_size })
}

/// Pads `raw_data` to a multiple of `file_alignment`.
fn pad_raw_data(raw_data: &mut Vec<u8>, file_alignment: u32)
    requires
        file_alignment > 0,
        old(raw_data)@.len() <= u32::MAX,
    ensures
        final(raw_data)@ == padded_raw_data(old(raw_data)@, file_alignment as int),
{
    let raw_data_length: u32 = raw_data.len() as u32;
    let raw_data_alignment_difference: u32 = raw_data_length % file_alignment;
    let mut padding: u32 = 0;
    if raw_data_alignment_difference != 0 {
        padding = file_alignment - raw_data_alignment_difference;
    }
    let mut i: u32 = 0;
    while i < padding
        invariant
            i <= padding,
            padding == aligned_size(old(raw_data)@.len() as int, file_alignment as int) - old(
                raw_data,
            )@.len(),
            raw_data@ == old(raw_data)@ + Seq::new(i as nat, |k: int| PADDING_BYTE),
        decreases padding - i,
    {
        raw_data.push(PADDING_BYTE);
        i = i + 1;
        assert(raw_data@ =~= old(raw_data)@ + Seq::new(i as nat, |k: int| PADDING_BYTE));
    }
}

/// Adds `delta` to the symbol index of every relocation.
fn shift_relocations(relocations: &mut Vec<Relocation>, delta: u32)
    requires
        relocations_shiftable(old(relocations)@, delta),
    ensures
        final(relocations)@ == shifted_relocations(old(relocations)@, delta),
{
    let mut ri: usize = 0;
    while ri < relocations.len()
        invariant
            ri <= relocations@.len(),
            relocations@.len() == old(relocations)@.len(),
            relocations_shiftable(old(relocations)@, delta),
            forall|k: int|
                0 <= k < ri ==> #[trigger] relocations@[k] == shifted_relocations(
                    old(relocations)@,
                    delta,
                )[k],
            forall|k: int|
                ri <= k < relocations@.len() ==> #[trigger] relocations@[k] == old(
                    relocations,
                )@[k],
        decreases relocations@.len() - ri,
    {
        let relocation: Relocation = relocations[ri];
        assert(relocation == old(relocations)@[ri as int]);
        relocations[ri] = Relocation {
            virtual_address: relocation.virtual_address,
            symbol_table_index: relocation.symbol_table_index + delta,
            relocation_type: relocation.relocation_type,
        };
        ri = ri + 1;
    }
    assert(relocations@ =~= shifted_relocations(old(relocations)@, delta));
}

/// Appends the sections of the object file to the image, in their order.
/// A section without raw data is left out and stays in the object file.
/// Each other section gets the next free address, its raw data is padded,
/// its relocations are shifted by `symbol_table_index_delta`, the number of
/// records that the unified symbol table holds before those of the object
/// file, and it moves into the image, which leaves an empty section behind.
/// Where a section cannot be placed, neither the image nor the object file
/// is changed.
pub fn append_sections(image: &mut Image, coff: &mut COFF, symbol_table_index_delta: u32) -> (done:
    Result<(), LinkError>)
    ensures
        match done {
            Ok(_) => merged_image(old(image)@, old(coff)@.sections, symbol_table_index_delta)
                == Ok::<ImageView, LinkError>(final(image)@) && final(coff)@.sections
                == taken_sections(old(coff)@.sections) && final(coff)@.symbols == old(
                coff,
            )@.symbols,
            Err(e) => merged_image(old(image)@, old(coff)@.sections, symbol_table_index_delta)
                == Err::<ImageView, LinkError>(e) && *final(image) == *old(image) && *final(coff)
                == *old(coff),
        },
{
    let section_alignment: u32 = image.optional_header.section_alignment;
    let file_alignment: u32 = image.optional_header.file_alignment;
    let ghost object_sections = section_views(coff.sections@);
    let ghost total = merged_image(image@, object_sections, symbol_table_index_delta);

    let mut last: Option<(u32, u32)> = None;
    if image.sections.len() > 0 {
        let last_image_section: &Section = &image.sections[image.sections.len() - 1];
        last = Some((last_image_section.virtual_address, last_image_section.virtual_size));
    }
    let mut number_of_sections: u16 = image.coff_header.number_of_sections;
    let mut size_of_image: u32 = image.optional_header.size_of_image;
    let ghost mut planned = image@;
    let mut si: usize = 0;
    while si < coff.sections.len()
        invariant
            si <= coff.sections@.len(),
            *image == *old(image),
            *coff == *old(coff),
            object_sections == section_views(coff.sections@),
            total == merged_image(old(image)@, object_sections, symbol_table_index_delta),
            total == merge_from(planned, object_sections, si as int, symbol_table_index_delta),
            last == last_extent(planned),
            number_of_sections == planned.coff_header.number_of_sections,
            size_of_image == planned.optional_header.size_of_image,
            section_alignment == planned.optional_header.section_alignment,
            file_alignment == planned.optional_header.file_alignment,
        decreases coff.sections@.len() - si,
    {
        let section: &Section = &coff.sections[si];
        assert(object_sections[si as int] == section@);
        if section.raw_data.len() != 0 {
            let place: Placement = place_section(
                section_alignment,
                file_alignment,
                last,
                number_of_sections,
                size_of_image,
                section,
                symbol_table_index_delta,
            )?;
            proof {
                planned = with_section(
                    planned,
                    placed_section(section@, place, file_alignment, symbol_table_index_delta),
                );
            }
            last = Some((place.virtual_address, place.virtual_size));
            number_of_sections = number_of_sections + 1;
            size_of_image = size_of_image + place.virtual_size;
        }
        si = si + 1;
    }
    assert(total == Ok::<ImageView, LinkError>(planned));

    let mut si: usize = 0;
    while si < coff.sections.len()
        invariant
            si <= coff.sections@.len(),
            coff.sections@.len() == object_sections.len(),
            object_sections == section_views(old(coff).sections@),
            coff.symbols == old(coff).symbols,
            total is Ok,
            total == merged_image(old(image)@, object_sections, symbol_table_index_delta),
            total == merge_from(image@, object_sections, si as int, symbol_table_index_delta),
            section_alignment == image.optional_header.section_alignment,
            file_alignment == image.optional_header.file_alignment,
            forall|k: int|
                0 <= k < si ==> (#[trigger] coff.sections@[k])@ == taken_sections(object_sections)[k],
            forall|k: int|
                si <= k < coff.sections@.len() ==> (#[trigger] coff.sections@[k])@ == object_sections[k],
        decreases coff.sections@.len() - si,
    {
        let ghost before = image@;
        let ghost object_section = object_sections[si as int];
        assert(coff.sections@[si as int]@ == object_section);
        assert(merge_section(before, object_section, symbol_table_index_delta) is Ok);
        if coff.sections[si].raw_data.len() != 0 {
            let last_image_section: &Section = &image.sections[image.sections.len() - 1];
            let place: Placement = match place_section(
                section_alignment,
                file_alignment,
                Some((last_image_section.virtual_address, last_image_section.virtual_size)),
                image.coff_header.number_of_sections,
                image.optional_header.size_of_image,
                &coff.sections[si],
                symbol_table_index_delta,
            ) {
                Ok(place) => place,
                Err(e) => {
                    // The first pass found a place for every section.
                    assert(false);
                    return Err(e);
                },
            };
            let mut section: Section = Section::default();
            core::mem::swap(&mut section, &mut coff.sections[si]);
            assert(section@ == object_section);
            section.virtual_size = place.virtual_size;
            section.virtual_address = place.virtual_address;
            pad_raw_data(&mut section.raw_data, file_alignment);
            shift_relocations(&mut section.relocations, symbol_table_index_delta);
            section.characteristics = section.characteristics & CONTENT_AND_PERMISSIONS;
            assert(section@ == placed_section(
                object_section,
                place,
                file_alignment,
                symbol_table_index_delta,
            ));
            image.coff_header.number_of_sections = image.coff_header.number_of_sections + 1;
            image.optional_header.size_of_image = image.optional_header.size_of_image
                + place.virtual_size;
            let ghost placed = section@;
            image.sections.push(section);
            assert(image@.sections =~= before.sections.push(placed));
            assert(image@ == with_section(before, placed));
        }
        si = si + 1;
    }
    assert(section_views(coff.sections@) =~= taken_sections(object_sections));
    Ok(())
}

/// Merging an object file without sections leaves the image as it is: its
/// section list, its section count and its size.
pub proof fn lemma_merge_nothing(image: ImageView, delta: u32)
    ensures
        merged_image(image, Seq::empty(), delta) == Ok::<ImageView, LinkError>(image),
{
}

/// `record` once the image has `offset` sections before those of the object
/// file: a symbol with its section number moved, an aux block as it is.
pub open spec fn moved_record(record: RecordView, offset: i16) -> RecordView {
    match record {
        RecordView::Symbol(s) => RecordView::Symbol(
            SymbolView {
                section_number: moved_section_number(s.section_number, offset) as i16,
                ..s
            },
        ),
        RecordView::Aux(block) => RecordView::Aux(block),
    }
}

/// Whether `record` can be moved: the section number of a symbol must still
/// fit in 16 signed bits.
pub open spec fn record_movable(record: RecordView, offset: i16) -> bool {
    match record {
        RecordView::Symbol(s) => moved_section_number(s.section_number, offset) <= i16::MAX,
        RecordView::Aux(_) => true,
    }
}

/// The records of the object file once the image has `offset` sections
/// before those of the object file. The table keeps its order and length.
pub open spec fn moved_records(records: Seq<RecordView>, offset: i16) -> Result<
    Seq<RecordView>,
    LinkError,
> {
    if forall|i: int| 0 <= i < records.len() ==> record_movable(#[trigger] records[i], offset) {
        Ok(Seq::new(records.len(), |i: int| moved_record(records[i], offset)))
    } else {
        Err(LinkError::UnsupportedFeature)
    }
}

/// Makes every symbol of `symbols` address the unified section list, in
/// which `offset` sections come before those of the object file. Where the
/// section number of a symbol would not fit, nothing is changed.
pub fn move_symbols(symbols: &mut Vec<SymbolTableRecord>, offset: i16) -> (done: Result<
    (),
    LinkError,
>)
    ensures
        match done {
            Ok(_) => moved_records(record_views(old(symbols)@), offset) == Ok::<
                Seq<RecordView>,
                LinkError,
            >(record_views(final(symbols)@)),
            Err(e) => moved_records(record_views(old(symbols)@), offset) == Err::<
                Seq<RecordView>,
                LinkError,
            >(e) && *final(symbols) == *old(symbols),
        },
{
    let ghost records = record_views(symbols@);
    let mut i: usize = 0;
    while i < symbols.len()
        invariant
            i <= symbols@.len(),
            *symbols == *old(symbols),
            records == record_views(symbols@),
            forall|k: int| 0 <= k < i ==> record_movable(#[trigger] records[k], offset),
        decreases symbols@.len() - i,
    {
        assert(records[i as int] == symbols@[i as int]@);
        match &symbols[i] {
            SymbolTableRecord::Symbol(s) => {
                if s.section_number >= 1 && offset > i16::MAX - s.section_number {
                    assert(!record_movable(records[i as int], offset));
                    return Err(LinkError::UnsupportedFeature);
                }
            },
            SymbolTableRecord::Aux(_) => {},
        }
        i = i + 1;
    }
    let mut i: usize = 0;
    while i < symbols.len()
        invariant
            i <= symbols@.len(),
            symbols@.len() == records.len(),
            records == record_views(old(symbols)@),
            forall|k: int| 0 <= k < records.len() ==> record_movable(#[trigger] records[k], offset),
            forall|k: int| 0 <= k < i ==> (#[trigger] symbols@[k])@ == moved_record(records[k], offset),
            forall|k: int| i <= k < symbols@.len() ==> (#[trigger] symbols@[k])@ == records[k],
        decreases symbols@.len() - i,
    {
        assert(record_movable(records[i as int], offset));
        match &mut symbols[i] {
            SymbolTableRecord::Symbol(s) => {
                // The first pass found that every symbol can move.
                let moved = move_symbol(s, offset);
                assert(moved is Ok);
            },
            SymbolTableRecord::Aux(_) => {},
        }
        i = i + 1;
    }
    assert(record_views(symbols@) =~= Seq::new(
        records.len(),
        |k: int| moved_record(records[k], offset),
    ));
    Ok(())
}

/// A section that was placed is aligned: its address and its virtual size
/// are multiples of the section alignment, and its padded raw data is a
/// multiple of the file alignment long.
pub proof fn lemma_placed_section_aligned(image: ImageView, section: SectionView, delta: u32)
    requires
        placement(image, section, delta) is Ok,
    ensures
        ({
            let placed = placed_section(
                section,
                placement(image, section, delta)->Ok_0,
                image.optional_header.file_alignment,
                delta,
            );
            &&& image.optional_header.section_alignment > 0
            &&& image.optional_header.file_alignment > 0
            &&& placed.virtual_address % image.optional_header.section_alignment == 0
            &&& placed.virtual_size % image.optional_header.section_alignment == 0
            &&& placed.raw_data.len() % (image.optional_header.file_alignment as nat) == 0
            &&& placed.raw_data.len() >= section.raw_data.len()
        }),
{
    lemma_aligned_size(
        section.raw_data.len() as int,
        image.optional_header.section_alignment as int,
    );
    lemma_aligned_size(
        section.raw_data.len() as int,
        image.optional_header.file_alignment as int,
    );
}

/// A merge keeps the section count of the header equal to the length of
/// the section list.
pub proof fn lemma_merge_keeps_section_count(
    image: ImageView,
    sections: Seq<SectionView>,
    from: int,
    delta: u32,
)
    requires
        section_count_consistent(image),
        merge_from(image, sections, from, delta) is Ok,
    ensures
        section_count_consistent(merge_from(image, sections, from, delta)->Ok_0),
    decreases sections.len() - from,
{
    if 0 <= from < sections.len() {
        let next = merge_section(image, sections[from], delta)->Ok_0;
        lemma_merge_keeps_section_count(next, sections, from + 1, delta);
    }
}

/// The sum of the virtual sizes of the sections of `sections` from index
/// `from` on.
pub open spec fn virtual_extent(sections: Seq<SectionView>, from: int) -> int
    decreases sections.len() - from,
{
    if from < 0 || from >= sections.len() {
        0
    } else {
        sections[from].virtual_size + virtual_extent(sections, from + 1)
    }
}

/// A merge only adds to an image: the sections that it had stay as they
/// were, at their places, and the image size grows by the virtual sizes of
/// the sections that were added.
pub proof fn lemma_merge_extends(
    image: ImageView,
    sections: Seq<SectionView>,
    from: int,
    delta: u32,
)
    requires
        merge_from(image, sections, from, delta) is Ok,
    ensures
        ({
            let merged = merge_from(image, sections, from, delta)->Ok_0;
            &&& image.sections.len() <= merged.sections.len()
            &&& merged.sections.subrange(0, image.sections.len() as int) == image.sections
            &&& merged.optional_header.size_of_image == image.optional_header.size_of_image
                + virtual_extent(merged.sections, image.sections.len() as int)
        }),
    decreases sections.len() - from,
{
    if 0 <= from < sections.len() {
        let next = merge_section(image, sections[from], delta)->Ok_0;
        lemma_merge_extends(next, sections, from + 1, delta);
        let merged = merge_from(image, sections, from, delta)->Ok_0;
        assert(merged.sections.subrange(0, image.sections.len() as int)
            =~= merged.sections.subrange(0, next.sections.len() as int).subrange(
            0,
            image.sections.len() as int,
        ));
        assert(next.sections.subrange(0, image.sections.len() as int) =~= image.sections);
    } else {
        assert(image.sections.subrange(0, image.sections.len() as int) =~= image.sections);
    }
}

} // verus!
