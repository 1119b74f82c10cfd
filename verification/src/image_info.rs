//! The overlay: named absolute addresses that a user declares for the image,
//! turned into section-relative relocations and symbols before the merge.

use crate::coff::{
    create_symbol_for_relocation, create_symbol_for_table, record_views, section_views,
    RecordView, Relocation, Section, SectionView, SymbolTableRecord, SymbolView,
    STORAGE_CLASS_EXTERNAL, SYMBOL_TYPE_DATA, SYMBOL_TYPE_FUNCTION,
};
use crate::error::LinkError;
use crate::pe::{Image, ImageView};
use vstd::prelude::*;

verus! {

/// The load address that overlay addresses are taken to be based on.
pub const OVERLAY_IMAGE_BASE: u32 = 0x0040_0000;

/// A place in the image that must be patched with the address of the named symbol.
#[derive(Clone, Debug, PartialEq, Eq)]
pub struct ImageInfoRelocation {
    pub name: String,
    pub virtual_address: u32,
    pub relocation_type: u16,
}

/// What an [`ImageInfoRelocation`] is, as a mathematical value.
pub struct ImageInfoRelocationView {
    pub name: Seq<char>,
    pub virtual_address: u32,
    pub relocation_type: u16,
}

impl View for ImageInfoRelocation {
    type V = ImageInfoRelocationView;

    open spec fn view(&self) -> ImageInfoRelocationView {
        ImageInfoRelocationView {
            name: self.name@,
            virtual_address: self.virtual_address,
            relocation_type: self.relocation_type,
        }
    }
}

/// A place in the image that the object file may refer to by name.
#[derive(Clone, Debug, PartialEq, Eq)]
pub struct ImageInfoSymbol {
    pub name: String,
    pub virtual_address: u32,
    pub is_function: bool,
}

/// What an [`ImageInfoSymbol`] is, as a mathematical value.
pub struct ImageInfoSymbolView {
    pub name: Seq<char>,
    pub virtual_address: u32,
    pub is_function: bool,
}

impl View for ImageInfoSymbol {
    type V = ImageInfoSymbolView;

    open spec fn view(&self) -> ImageInfoSymbolView {
        ImageInfoSymbolView {
            name: self.name@,
            virtual_address: self.virtual_address,
            is_function: self.is_function,
        }
    }
}

/// The overlay description, already parsed.
#[derive(Clone, Debug, PartialEq, Eq)]
pub struct ImageInfo {
    pub relocations: Vec<ImageInfoRelocation>,
    pub symbols: Vec<ImageInfoSymbol>,
}

/// The relocation descriptors of a list as mathematical values, in order.
pub open spec fn relocation_views(list: Seq<ImageInfoRelocation>) -> Seq<ImageInfoRelocationView> {
    Seq::new(list.len(), |i: int| list[i]@)
}

/// The symbol descriptors of a list as mathematical values, in order.
pub open spec fn symbol_views(list: Seq<ImageInfoSymbol>) -> Seq<ImageInfoSymbolView> {
    Seq::new(list.len(), |i: int| list[i]@)
}

/// Whether `address` lies strictly inside the virtual-address range of a
/// section that starts at `virtual_address` and is `virtual_size` long. The
/// start itself is not inside.
pub open spec fn owns(virtual_address: u32, virtual_size: u32, address: u32) -> bool {
    virtual_address < address && address < virtual_address + virtual_size
}

/// The index of the first section at or after `from` that owns `address`.
pub open spec fn first_owner_from(sections: Seq<SectionView>, address: u32, from: int) -> Option<
    int,
>
    decreases sections.len() - from,
{
    if from < 0 || from >= sections.len() {
        None
    } else if owns(sections[from].virtual_address, sections[from].virtual_size, address) {
        Some(from)
    } else {
        first_owner_from(sections, address, from + 1)
    }
}

/// The index of the first section that owns `address`.
pub open spec fn first_owner(sections: Seq<SectionView>, address: u32) -> Option<int> {
    first_owner_from(sections, address, 0)
}

/// The 1-based number of the section that owns `address`. An address that
/// no section owns is an error, and so is a number beyond 16 signed bits.
pub open spec fn section_number_for(sections: Seq<SectionView>, address: u32) -> Result<
    i16,
    LinkError,
> {
    match first_owner(sections, address) {
        None => Err(LinkError::AddressNotInAnySection),
        Some(index) => if index + 1 > i16::MAX {
            Err(LinkError::UnsupportedFeature)
        } else {
            Ok((index + 1) as i16)
        },
    }
}

/// What the lookup finds: the owner owns the address and no section before
/// it does; where it finds none, no section owns the address.
pub proof fn lemma_first_owner(sections: Seq<SectionView>, address: u32, from: int)
    requires
        0 <= from,
    ensures
        match first_owner_from(sections, address, from) {
            Some(found) => from <= found < sections.len() && owns(
                sections[found].virtual_address,
                sections[found].virtual_size,
                address,
            ) && forall|i: int|
                from <= i < found ==> !owns(
                    (#[trigger] sections[i]).virtual_address,
                    sections[i].virtual_size,
                    address,
                ),
            None => forall|i: int|
                from <= i < sections.len() ==> !owns(
                    (#[trigger] sections[i]).virtual_address,
                    sections[i].virtual_size,
                    address,
                ),
        },
    decreases sections.len() - from,
{
    if from < sections.len() && !owns(
        sections[from].virtual_address,
        sections[from].virtual_size,
        address,
    ) {
        lemma_first_owner(sections, address, from + 1);
    }
}

/// The start of a section is not inside it: the lookup of an address never
/// answers with a section that starts at that address, and where only
/// sections that start at the address could hold it, the lookup fails.
pub proof fn lemma_section_start_not_owned(sections: Seq<SectionView>, index: int)
    requires
        0 <= index < sections.len(),
    ensures
        first_owner(sections, sections[index].virtual_address) != Some(index),
        (forall|i: int|
            0 <= i < sections.len() && (#[trigger] sections[i]).virtual_address
                != sections[index].virtual_address ==> !owns(
                sections[i].virtual_address,
                sections[i].virtual_size,
                sections[index].virtual_address,
            )) ==> section_number_for(sections, sections[index].virtual_address) == Err::<
            i16,
            LinkError,
        >(LinkError::AddressNotInAnySection),
{
    lemma_first_owner(sections, sections[index].virtual_address, 0);
}

/// The lookup reads nothing of a section but its address and its virtual size.
pub proof fn lemma_first_owner_same_extents(
    a: Seq<SectionView>,
    b: Seq<SectionView>,
    address: u32,
    from: int,
)
    requires
        a.len() == b.len(),
        forall|i: int|
            0 <= i < a.len() ==> (#[trigger] a[i]).virtual_address == b[i].virtual_address
                && a[i].virtual_size == b[i].virtual_size,
    ensures
        first_owner_from(a, address, from) == first_owner_from(b, address, from),
    decreases a.len() - from,
{
    if 0 <= from < a.len() {
        assert(a[from].virtual_address == b[from].virtual_address);
        lemma_first_owner_same_extents(a, b, address, from + 1);
    }
}

/// Finds the 1-based number of the first section whose virtual-address
/// range strictly contains `address`.
pub fn find_section_number_for_virtual_address(address: u32, image_sections: &Vec<Section>) -> (number:
    Result<i16, LinkError>)
    ensures
        number == section_number_for(section_views(image_sections@), address),
{
    let ghost views = section_views(image_sections@);
    let mut i: usize = 0;
    while i < image_sections.len()
        invariant
            i <= image_sections@.len(),
            views == section_views(image_sections@),
            first_owner(views, address) == first_owner_from(views, address, i as int),
        decreases image_sections@.len() - i,
    {
        let section: &Section = &image_sections[i];
        assert(views[i as int] == section@);
        if address > section.virtual_address && (address as u64) < section.virtual_address as u64
            + section.virtual_size as u64 {
            if i >= 0x7fff {
                return Err(LinkError::UnsupportedFeature);
            }
            return Ok((i + 1) as i16);
        }
        i = i + 1;
    }
    Err(LinkError::AddressNotInAnySection)
}

/// `address` in section-relative form: the 1-based number of the section
/// that owns it, and its offset from the start of that section once the
/// fixed load address is taken off. An address that lies below the load
/// address plus the section start is in no section.
pub open spec fn resolved_address(sections: Seq<SectionView>, address: u32) -> Result<
    (i16, u32),
    LinkError,
> {
    match section_number_for(sections, address) {
        Err(e) => Err(e),
        Ok(number) => if address - OVERLAY_IMAGE_BASE - sections[number - 1].virtual_address < 0 {
            Err(LinkError::AddressNotInAnySection)
        } else {
            Ok(
                (
                    number,
                    (address - OVERLAY_IMAGE_BASE - sections[number - 1].virtual_address) as u32,
                ),
            )
        },
    }
}

/// Resolving an address reads nothing of a section but its address and its
/// virtual size.
pub proof fn lemma_resolved_address_same_extents(
    a: Seq<SectionView>,
    b: Seq<SectionView>,
    address: u32,
)
    requires
        a.len() == b.len(),
        forall|i: int|
            0 <= i < a.len() ==> (#[trigger] a[i]).virtual_address == b[i].virtual_address
                && a[i].virtual_size == b[i].virtual_size,
    ensures
        resolved_address(a, address) == resolved_address(b, address),
{
    lemma_first_owner_same_extents(a, b, address, 0);
    lemma_first_owner(a, address, 0);
    if first_owner(a, address) is Some {
        let index = first_owner(a, address)->Some_0;
        assert(a[index].virtual_address == b[index].virtual_address);
    }
}

/// Turns `address` into the number of its owning section and its offset there.
pub fn resolve_address(address: u32, image_sections: &Vec<Section>) -> (resolved: Result<
    (i16, u32),
    LinkError,
>)
    ensures
        resolved == resolved_address(section_views(image_sections@), address),
        resolved is Ok ==> 1 <= resolved->Ok_0.0 <= image_sections@.len(),
{
    let section_number: i16 = find_section_number_for_virtual_address(address, image_sections)?;
    proof {
        lemma_first_owner(section_views(image_sections@), address, 0);
    }
    let index: usize = (section_number - 1) as usize;
    assert(section_views(image_sections@)[index as int] == image_sections@[index as int]@);
    let section_address: u32 = image_sections[index].virtual_address;
    if address < OVERLAY_IMAGE_BASE || address - OVERLAY_IMAGE_BASE < section_address {
        return Err(LinkError::AddressNotInAnySection);
    }
    Ok((section_number, address - OVERLAY_IMAGE_BASE - section_address))
}

/// The sections of the image and the unified symbol table, as they stand
/// while the overlay is worked in.
pub struct OverlayState {
    pub sections: Seq<SectionView>,
    pub table: Seq<RecordView>,
}

/// The undefined external function symbol named `name`.
pub open spec fn undefined_function(name: Seq<char>) -> RecordView {
    RecordView::Symbol(
        SymbolView {
            name,
            value: 0,
            section_number: 0,
            symbol_type: SYMBOL_TYPE_FUNCTION,
            storage_class: STORAGE_CLASS_EXTERNAL,
            number_of_aux_symbols: 0,
        },
    )
}

/// The external symbol named `name` that section `section_number` defines at
/// offset `value`, a function or data.
pub open spec fn defined_symbol(
    name: Seq<char>,
    value: u32,
    section_number: i16,
    is_function: bool,
) -> RecordView {
    RecordView::Symbol(
        SymbolView {
            name,
            value,
            section_number,
            symbol_type: if is_function {
                SYMBOL_TYPE_FUNCTION
            } else {
                SYMBOL_TYPE_DATA
            },
            storage_class: STORAGE_CLASS_EXTERNAL,
            number_of_aux_symbols: 0,
        },
    )
}

/// `sections` with `relocation` added to the end of the relocation list of
/// the section number `number`.
pub open spec fn with_relocation(
    sections: Seq<SectionView>,
    number: i16,
    relocation: Relocation,
) -> Seq<SectionView> {
    sections.update(
        number - 1,
        SectionView {
            relocations: sections[number - 1].relocations.push(relocation),
            ..sections[number - 1]
        },
    )
}

/// Working in one relocation descriptor: the table gets an undefined
/// function symbol of the descriptor's name, and the section that owns the
/// address gets a relocation of the descriptor's kind that refers to it.
pub open spec fn with_overlay_relocation(
    state: OverlayState,
    descriptor: ImageInfoRelocationView,
) -> Result<OverlayState, LinkError> {
    match resolved_address(state.sections, descriptor.virtual_address) {
        Err(e) => Err(e),
        Ok((number, offset)) => if state.table.len() > u32::MAX {
            Err(LinkError::UnsupportedFeature)
        } else {
            Ok(
                OverlayState {
                    sections: with_relocation(
                        state.sections,
                        number,
                        Relocation {
                            virtual_address: offset,
                            symbol_table_index: state.table.len() as u32,
                            relocation_type: descriptor.relocation_type,
                        },
                    ),
                    table: state.table.push(undefined_function(descriptor.name)),
                },
            )
        },
    }
}

/// Working in the relocation descriptors from index `from` on, in order, up
/// to the first that fails.
pub open spec fn with_overlay_relocations_from(
    state: OverlayState,
    descriptors: Seq<ImageInfoRelocationView>,
    from: int,
) -> Result<OverlayState, LinkError>
    decreases descriptors.len() - from,
{
    if from < 0 || from >= descriptors.len() {
        Ok(state)
    } else {
        match with_overlay_relocation(state, descriptors[from]) {
            Err(e) => Err(e),
            Ok(next) => with_overlay_relocations_from(next, descriptors, from + 1),
        }
    }
}

/// Working in every relocation descriptor.
pub open spec fn with_overlay_relocations(
    state: OverlayState,
    descriptors: Seq<ImageInfoRelocationView>,
) -> Result<OverlayState, LinkError> {
    with_overlay_relocations_from(state, descriptors, 0)
}

/// Working in one symbol descriptor: the table gets a defined symbol, bound
/// to the section that owns the address. No relocation is made.
pub open spec fn with_overlay_symbol(state: OverlayState, descriptor: ImageInfoSymbolView) -> Result<
    OverlayState,
    LinkError,
> {
    match resolved_address(state.sections, descriptor.virtual_address) {
        Err(e) => Err(e),
        Ok((number, value)) => Ok(
            OverlayState {
                sections: state.sections,
                table: state.table.push(
                    defined_symbol(descriptor.name, value, number, descriptor.is_function),
                ),
            },
        ),
    }
}

/// Working in the symbol descriptors from index `from` on, in order, up to
/// the first that fails.
pub open spec fn with_overlay_symbols_from(
    state: OverlayState,
    descriptors: Seq<ImageInfoSymbolView>,
    from: int,
) -> Result<OverlayState, LinkError>
    decreases descriptors.len() - from,
{
    if from < 0 || from >= descriptors.len() {
        Ok(state)
    } else {
        match with_overlay_symbol(state, descriptors[from]) {
            Err(e) => Err(e),
            Ok(next) => with_overlay_symbols_from(next, descriptors, from + 1),
        }
    }
}

/// Working in every symbol descriptor.
pub open spec fn with_overlay_symbols(
    state: OverlayState,
    descriptors: Seq<ImageInfoSymbolView>,
) -> Result<OverlayState, LinkError> {
    with_overlay_symbols_from(state, descriptors, 0)
}

/// Working in the whole overlay: the relocation descriptors first, then the
/// symbol descriptors.
pub open spec fn with_overlay(
    state: OverlayState,
    relocations: Seq<ImageInfoRelocationView>,
    symbols: Seq<ImageInfoSymbolView>,
) -> Result<OverlayState, LinkError> {
    match with_overlay_relocations(state, relocations) {
        Err(e) => Err(e),
        Ok(next) => with_overlay_symbols(next, symbols),
    }
}

/// Whether two section lists have the same length and, section by section,
/// the same address and virtual size.
pub open spec fn same_extents(a: Seq<SectionView>, b: Seq<SectionView>) -> bool {
    a.len() == b.len() && forall|i: int|
        0 <= i < a.len() ==> (#[trigger] a[i]).virtual_address == b[i].virtual_address
            && a[i].virtual_size == b[i].virtual_size
}

/// Checks that every relocation descriptor can be worked in, without
/// changing anything.
fn check_overlay_relocations(
    relocations: &Vec<ImageInfoRelocation>,
    image_sections: &Vec<Section>,
    table_length: usize,
    Ghost(table): Ghost<Seq<RecordView>>,
) -> (checked: Result<(), LinkError>)
    requires
        table.len() == table_length,
    ensures
        match checked {
            Ok(_) => {
                let done = with_overlay_relocations(
                    OverlayState { sections: section_views(image_sections@), table },
                    relocation_views(relocations@),
                );
                done is Ok && same_extents(done->Ok_0.sections, section_views(image_sections@))
            },
            Err(e) => with_overlay_relocations(
                OverlayState { sections: section_views(image_sections@), table },
                relocation_views(relocations@),
            ) == Err::<OverlayState, LinkError>(e),
        },
{
    let ghost sections = section_views(image_sections@);
    let ghost descriptors = relocation_views(relocations@);
    let ghost total = with_overlay_relocations(OverlayState { sections, table }, descriptors);
    let ghost mut state = OverlayState { sections, table };
    let mut i: usize = 0;
    while i < relocations.len()
        invariant
            i <= relocations@.len(),
            sections == section_views(image_sections@),
            descriptors == relocation_views(relocations@),
            total == with_overlay_relocations(OverlayState { sections, table }, descriptors),
            total == with_overlay_relocations_from(state, descriptors, i as int),
            same_extents(state.sections, sections),
            state.table.len() == table_length + i,
        decreases relocations@.len() - i,
    {
        assert(descriptors[i as int] == relocations@[i as int]@);
        proof {
            lemma_resolved_address_same_extents(
                state.sections,
                sections,
                relocations@[i as int].virtual_address,
            );
        }
        let resolved: (i16, u32) = resolve_address(relocations[i].virtual_address, image_sections)?;
        if table_length > 0xffff_ffff || i > 0xffff_ffff - table_length {
            return Err(LinkError::UnsupportedFeature);
        }
        proof {
            state = with_overlay_relocation(state, descriptors[i as int])->Ok_0;
        }
        i = i + 1;
    }
    Ok(())
}

/// Works in every relocation descriptor, once that is known to succeed.
fn apply_overlay_relocations(
    relocations: &Vec<ImageInfoRelocation>,
    image_sections: &mut Vec<Section>,
    symbol_table: &mut Vec<SymbolTableRecord>,
)
    requires
        with_overlay_relocations(
            OverlayState {
                sections: section_views(old(image_sections)@),
                table: record_views(old(symbol_table)@),
            },
            relocation_views(relocations@),
        ) is Ok,
    ensures
        with_overlay_relocations(
            OverlayState {
                sections: section_views(old(image_sections)@),
                table: record_views(old(symbol_table)@),
            },
            relocation_views(relocations@),
        ) == Ok::<OverlayState, LinkError>(
            OverlayState {
                sections: section_views(final(image_sections)@),
                table: record_views(final(symbol_table)@),
            },
        ),
{
    let ghost descriptors = relocation_views(relocations@);
    let ghost total = with_overlay_relocations(
        OverlayState {
            sections: section_views(image_sections@),
            table: record_views(symbol_table@),
        },
        descriptors,
    );
    let mut i: usize = 0;
    while i < relocations.len()
        invariant
            i <= relocations@.len(),
            descriptors == relocation_views(relocations@),
            total is Ok,
            total == with_overlay_relocations(
                OverlayState {
                    sections: section_views(old(image_sections)@),
                    table: record_views(old(symbol_table)@),
                },
                descriptors,
            ),
            total == with_overlay_relocations_from(
                OverlayState {
                    sections: section_views(image_sections@),
                    table: record_views(symbol_table@),
                },
                descriptors,
                i as int,
            ),
        decreases relocations@.len() - i,
    {
        let ghost sections_before = section_views(image_sections@);
        let ghost table_before = record_views(symbol_table@);
        assert(descriptors[i as int] == relocations@[i as int]@);
        let relocation: &ImageInfoRelocation = &relocations[i];
        let (section_number, virtual_address): (i16, u32) = match resolve_address(
            relocation.virtual_address,
            image_sections,
        ) {
            Ok(resolved) => resolved,
            Err(_) => {
                // Every descriptor is known to resolve.
                assert(false);
                return ;
            },
        };
        let symbol_table_index: usize = symbol_table.len();
        symbol_table.push(create_symbol_for_relocation(relocation.name.clone()));
        assert(record_views(symbol_table@) =~= table_before.push(
            undefined_function(relocation.name@),
        ));
        let index: usize = (section_number - 1) as usize;
        assert(sections_before[index as int] == image_sections@[index as int]@);
        image_sections[index].relocations.push(
            Relocation {
                virtual_address,
                symbol_table_index: symbol_table_index as u32,
                relocation_type: relocation.relocation_type,
            },
        );
        assert(section_views(image_sections@) =~= with_relocation(
            sections_before,
            section_number,
            Relocation {
                virtual_address,
                symbol_table_index: symbol_table_index as u32,
                relocation_type: relocation.relocation_type,
            },
        ));
        i = i + 1;
    }
}

/// Works the relocation descriptors of the overlay into the image and the
/// symbol table: for each, in order, an undefined function symbol at the end
/// of the table, and a relocation that refers to it at the end of the
/// relocation list of the section that owns the address. Where a descriptor
/// cannot be worked in, nothing is changed.
pub fn fill_image_relocations_and_symbol_table_with_image_info(
    relocations: Vec<ImageInfoRelocation>,
    image_sections: &mut Vec<Section>,
    symbol_table: &mut Vec<SymbolTableRecord>,
) -> (done: Result<(), LinkError>)
    ensures
        match done {
            Ok(_) => with_overlay_relocations(
                OverlayState {
                    sections: section_views(old(image_sections)@),
                    table: record_views(old(symbol_table)@),
                },
                relocation_views(relocations@),
            ) == Ok::<OverlayState, LinkError>(
                OverlayState {
                    sections: section_views(final(image_sections)@),
                    table: record_views(final(symbol_table)@),
                },
            ),
            Err(e) => with_overlay_relocations(
                OverlayState {
                    sections: section_views(old(image_sections)@),
                    table: record_views(old(symbol_table)@),
                },
                relocation_views(relocations@),
            ) == Err::<OverlayState, LinkError>(e) && *final(image_sections) == *old(
                image_sections,
            ) && *final(symbol_table) == *old(symbol_table),
        },
{
    check_overlay_relocations(
        &relocations,
        image_sections,
        symbol_table.len(),
        Ghost(record_views(symbol_table@)),
    )?;
    apply_overlay_relocations(&relocations, image_sections, symbol_table);
    Ok(())
}

/// The defined symbols that the symbol descriptors stand for, in order.
/// `state` is any state whose sections lie where `image_sections` lie.
fn overlay_symbol_records(
    symbols: &Vec<ImageInfoSymbol>,
    image_sections: &Vec<Section>,
    Ghost(state): Ghost<OverlayState>,
) -> (records: Result<Vec<SymbolTableRecord>, LinkError>)
    requires
        same_extents(state.sections, section_views(image_sections@)),
    ensures
        match records {
            Ok(list) => with_overlay_symbols(state, symbol_views(symbols@)) == Ok::<
                OverlayState,
                LinkError,
            >(OverlayState { sections: state.sections, table: state.table + record_views(list@) }),
            Err(e) => with_overlay_symbols(state, symbol_views(symbols@)) == Err::<
                OverlayState,
                LinkError,
            >(e),
        },
{
    let ghost descriptors = symbol_views(symbols@);
    let ghost total = with_overlay_symbols(state, descriptors);
    let mut records: Vec<SymbolTableRecord> = Vec::new();
    let mut i: usize = 0;
    assert(state.table + record_views(records@) =~= state.table);
    while i < symbols.len()
        invariant
            i <= symbols@.len(),
            descriptors == symbol_views(symbols@),
            same_extents(state.sections, section_views(image_sections@)),
            total == with_overlay_symbols(state, descriptors),
            total == with_overlay_symbols_from(
                OverlayState {
                    sections: state.sections,
                    table: state.table + record_views(records@),
                },
                descriptors,
                i as int,
            ),
        decreases symbols@.len() - i,
    {
        let ghost before = record_views(records@);
        assert(descriptors[i as int] == symbols@[i as int]@);
        proof {
            lemma_resolved_address_same_extents(
                state.sections,
                section_views(image_sections@),
                symbols@[i as int].virtual_address,
            );
        }
        let symbol: &ImageInfoSymbol = &symbols[i];
        let (section_number, value): (i16, u32) = resolve_address(
            symbol.virtual_address,
            image_sections,
        )?;
        records.push(
            create_symbol_for_table(symbol.name.clone(), value, section_number, symbol.is_function),
        );
        assert(state.table + record_views(records@) =~= (state.table + before).push(
            defined_symbol(symbol.name@, value, section_number, symbol.is_function),
        ));
        i = i + 1;
    }
    Ok(records)
}

/// Works the symbol descriptors of the overlay into the symbol table: for
/// each, in order, a defined symbol at the end of the table. Where a
/// descriptor cannot be worked in, nothing is changed.
pub fn fill_symbol_table_with_image_info(
    symbols: Vec<ImageInfoSymbol>,
    image_sections: &Vec<Section>,
    symbol_table: &mut Vec<SymbolTableRecord>,
) -> (done: Result<(), LinkError>)
    ensures
        match done {
            Ok(_) => with_overlay_symbols(
                OverlayState {
                    sections: section_views(image_sections@),
                    table: record_views(old(symbol_table)@),
                },
                symbol_views(symbols@),
            ) == Ok::<OverlayState, LinkError>(
                OverlayState {
                    sections: section_views(image_sections@),
                    table: record_views(final(symbol_table)@),
                },
            ),
            Err(e) => with_overlay_symbols(
                OverlayState {
                    sections: section_views(image_sections@),
                    table: record_views(old(symbol_table)@),
                },
                symbol_views(symbols@),
            ) == Err::<OverlayState, LinkError>(e) && *final(symbol_table) == *old(symbol_table),
        },
{
    let ghost state = OverlayState {
        sections: section_views(image_sections@),
        table: record_views(symbol_table@),
    };
    let mut records: Vec<SymbolTableRecord> = overlay_symbol_records(
        &symbols,
        image_sections,
        Ghost(state),
    )?;
    let ghost added = record_views(records@);
    symbol_table.append(&mut records);
    assert(record_views(symbol_table@) =~= state.table + added);
    Ok(())
}

/// Works the overlay into the image and the symbol table: the relocation
/// descriptors first, then the symbol descriptors. Of the image only the
/// relocation lists of its sections change. Where a descriptor cannot be
/// worked in, nothing is changed.
pub fn fill_image_and_symbol_table_with_image_info(
    image: &mut Image,
    symbol_table: &mut Vec<SymbolTableRecord>,
    image_info: ImageInfo,
) -> (done: Result<(), LinkError>)
    ensures
        match done {
            Ok(_) => {
                let worked = with_overlay(
                    OverlayState {
                        sections: old(image)@.sections,
                        table: record_views(old(symbol_table)@),
                    },
                    relocation_views(image_info.relocations@),
                    symbol_views(image_info.symbols@),
                );
                worked is Ok && final(image)@ == (ImageView {
                    sections: worked->Ok_0.sections,
                    ..old(image)@
                }) && record_views(final(symbol_table)@) == worked->Ok_0.table
            },
            Err(e) => with_overlay(
                OverlayState {
                    sections: old(image)@.sections,
                    table: record_views(old(symbol_table)@),
                },
                relocation_views(image_info.relocations@),
                symbol_views(image_info.symbols@),
            ) == Err::<OverlayState, LinkError>(e) && *final(image) == *old(image)
                && *final(symbol_table) == *old(symbol_table),
        },
{
    let ghost start = OverlayState {
        sections: section_views(image.sections@),
        table: record_views(symbol_table@),
    };
    check_overlay_relocations(
        &image_info.relocations,
        &image.sections,
        symbol_table.len(),
        Ghost(start.table),
    )?;
    let ghost middle = with_overlay_relocations(
        start,
        relocation_views(image_info.relocations@),
    )->Ok_0;
    let mut records: Vec<SymbolTableRecord> = overlay_symbol_records(
        &image_info.symbols,
        &image.sections,
        Ghost(middle),
    )?;
    let ghost added = record_views(records@);
    apply_overlay_relocations(&image_info.relocations, &mut image.sections, symbol_table);
    symbol_table.append(&mut records);
    assert(record_views(symbol_table@) =~= middle.table + added);
    Ok(())
}

/// Working in a relocation descriptor only adds: a record at the end of the
/// table and a relocation at the end of one list. The records that the
/// table held keep their indices, and the sections lie where they lay.
pub proof fn lemma_overlay_relocation_appends(
    state: OverlayState,
    descriptor: ImageInfoRelocationView,
)
    requires
        with_overlay_relocation(state, descriptor) is Ok,
    ensures
        ({
            let next = with_overlay_relocation(state, descriptor)->Ok_0;
            &&& next.table.len() == state.table.len() + 1
            &&& next.table.subrange(0, state.table.len() as int) == state.table
            &&& same_extents(next.sections, state.sections)
        }),
{
    let next = with_overlay_relocation(state, descriptor)->Ok_0;
    lemma_first_owner(state.sections, descriptor.virtual_address, 0);
    assert(next.table.subrange(0, state.table.len() as int) =~= state.table);
}

/// Working in the overlay only adds to the table: the records that it held
/// keep their indices. The sections lie where they lay.
pub proof fn lemma_overlay_appends(
    state: OverlayState,
    relocations: Seq<ImageInfoRelocationView>,
    symbols: Seq<ImageInfoSymbolView>,
)
    requires
        with_overlay(state, relocations, symbols) is Ok,
    ensures
        ({
            let done = with_overlay(state, relocations, symbols)->Ok_0;
            &&& state.table.len() <= done.table.len()
            &&& done.table.subrange(0, state.table.len() as int) == state.table
            &&& same_extents(done.sections, state.sections)
        }),
{
    lemma_overlay_relocations_append(state, relocations, 0);
    let middle = with_overlay_relocations(state, relocations)->Ok_0;
    lemma_overlay_symbols_append(middle, symbols, 0);
    let done = with_overlay(state, relocations, symbols)->Ok_0;
    assert(done.table.subrange(0, state.table.len() as int) =~= done.table.subrange(
        0,
        middle.table.len() as int,
    ).subrange(0, state.table.len() as int));
}

proof fn lemma_overlay_relocations_append(
    state: OverlayState,
    descriptors: Seq<ImageInfoRelocationView>,
    from: int,
)
    requires
        with_overlay_relocations_from(state, descriptors, from) is Ok,
    ensures
        ({
            let done = with_overlay_relocations_from(state, descriptors, from)->Ok_0;
            &&& state.table.len() <= done.table.len()
            &&& done.table.subrange(0, state.table.len() as int) == state.table
            &&& same_extents(done.sections, state.sections)
        }),
    decreases descriptors.len() - from,
{
    if 0 <= from < descriptors.len() {
        let next = with_overlay_relocation(state, descriptors[from])->Ok_0;
        lemma_overlay_relocation_appends(state, descriptors[from]);
        lemma_overlay_relocations_append(next, descriptors, from + 1);
        let done = with_overlay_relocations_from(state, descriptors, from)->Ok_0;
        assert(done.table.subrange(0, state.table.len() as int) =~= done.table.subrange(
            0,
            next.table.len() as int,
        ).subrange(0, state.table.len() as int));
    } else {
        assert(state.table.subrange(0, state.table.len() as int) =~= state.table);
    }
}

proof fn lemma_overlay_symbols_append(
    state: OverlayState,
    descriptors: Seq<ImageInfoSymbolView>,
    from: int,
)
    requires
        with_overlay_symbols_from(state, descriptors, from) is Ok,
    ensures
        ({
            let done = with_overlay_symbols_from(state, descriptors, from)->Ok_0;
            &&& state.table.len() <= done.table.len()
            &&& done.table.subrange(0, state.table.len() as int) == state.table
            &&& done.sections == state.sections
        }),
    decreases descriptors.len() - from,
{
    if 0 <= from < descriptors.len() {
        let next = with_overlay_symbol(state, descriptors[from])->Ok_0;
        lemma_overlay_symbols_append(next, descriptors, from + 1);
        let done = with_overlay_symbols_from(state, descriptors, from)->Ok_0;
        assert(next.table.subrange(0, state.table.len() as int) =~= state.table);
        assert(done.table.subrange(0, state.table.len() as int) =~= done.table.subrange(
            0,
            next.table.len() as int,
        ).subrange(0, state.table.len() as int));
    } else {
        assert(state.table.subrange(0, state.table.len() as int) =~= state.table);
    }
}

} // verus!
