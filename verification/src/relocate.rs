//! Binding every relocation to the definition of its symbol and rewriting
//! the four bytes at each relocation site.

use crate::coff::{
    record_views, section_views, RecordView, Relocation, Section, SectionView, Symbol,
    SymbolTableRecord, SymbolView,
};
use crate::endian::{le_write_u32, u32_to_le};
use crate::error::LinkError;
use crate::pe::{Image, ImageView};
use vstd::arithmetic::div_mod::{
    lemma_fundamental_div_mod, lemma_fundamental_div_mod_converse, lemma_mod_bound,
};
use vstd::prelude::*;

verus! {

/// The kind code of a relocation that takes the absolute 32-bit address.
pub const IMAGE_REL_I386_DIR32: u16 = 0x0006;

/// The kind code of a relocation that takes the 32-bit address relative to
/// the image base.
pub const IMAGE_REL_I386_DIR32NB: u16 = 0x0007;

/// The kind code of a relocation that takes the 32-bit displacement from
/// the end of the relocation site.
pub const IMAGE_REL_I386_REL32: u16 = 0x0014;

/// The three kinds of relocation that are resolved.
#[derive(Clone, Copy, Debug, PartialEq, Eq, Structural)]
pub enum RelocationType {
    /// The absolute 32-bit address of the target.
    Dir32,
    /// The 32-bit address of the target relative to the image base.
    Dir32NB,
    /// The 32-bit displacement of the target from the byte after the site.
    Rel32,
}

/// One planned rewrite: where the target lies (its 1-based section number
/// and its offset in that section), where the site lies (the index of the
/// host section and the offset in its raw data), and the kind.
#[derive(Clone, Copy, Debug, PartialEq, Eq, Structural)]
pub struct RelocationPatch {
    pub symbol_section_number: i16,
    pub symbol_value: u32,
    pub relocation_section_index: usize,
    pub relocation_position: u32,
    pub relocation_type: RelocationType,
}

/// The kind that a kind code stands for. Any code but the three is unsupported.
pub open spec fn relocation_kind(code: u16) -> Result<RelocationType, LinkError> {
    if code == IMAGE_REL_I386_DIR32 {
        Ok(RelocationType::Dir32)
    } else if code == IMAGE_REL_I386_DIR32NB {
        Ok(RelocationType::Dir32NB)
    } else if code == IMAGE_REL_I386_REL32 {
        Ok(RelocationType::Rel32)
    } else {
        Err(LinkError::UnsupportedFeature)
    }
}

/// Decodes the kind code of a relocation.
pub fn decode_relocation_type(code: u16) -> (kind: Result<RelocationType, LinkError>)
    ensures
        kind == relocation_kind(code),
{
    if code == IMAGE_REL_I386_DIR32 {
        Ok(RelocationType::Dir32)
    } else if code == IMAGE_REL_I386_DIR32NB {
        Ok(RelocationType::Dir32NB)
    } else if code == IMAGE_REL_I386_REL32 {
        Ok(RelocationType::Rel32)
    } else {
        Err(LinkError::UnsupportedFeature)
    }
}

/// Whether `record` defines the symbol that `key` asks for: a symbol with
/// the name, the storage class and the type of `key`, and with a positive
/// section number.
pub open spec fn defines(record: RecordView, key: SymbolView) -> bool {
    match record {
        RecordView::Symbol(s) => s.name == key.name && s.storage_class == key.storage_class
            && s.symbol_type == key.symbol_type && s.section_number > 0,
        RecordView::Aux(_) => false,
    }
}

/// The index of the first record of `table` at or after `from` that defines
/// `key`, if there is one.
pub open spec fn first_definition_from(table: Seq<RecordView>, key: SymbolView, from: int) -> Option<
    int,
>
    decreases table.len() - from,
{
    if from < 0 || from >= table.len() {
        None
    } else if defines(table[from], key) {
        Some(from)
    } else {
        first_definition_from(table, key, from + 1)
    }
}

/// The index of the first record of `table` that defines `key`, if there is one.
pub open spec fn first_definition(table: Seq<RecordView>, key: SymbolView) -> Option<int> {
    first_definition_from(table, key, 0)
}

/// The search is decided by position alone: what it finds defines the key
/// and no record before it does, so of several records that define the key
/// the one with the lowest index is taken; and where it finds nothing, no
/// record defines the key.
pub proof fn lemma_first_definition(table: Seq<RecordView>, key: SymbolView, from: int)
    requires
        0 <= from,
    ensures
        match first_definition_from(table, key, from) {
            Some(found) => from <= found < table.len() && defines(table[found], key)
                && forall|i: int| from <= i < found ==> !defines(#[trigger] table[i], key),
            None => forall|i: int| from <= i < table.len() ==> !defines(#[trigger] table[i], key),
        },
    decreases table.len() - from,
{
    if from < table.len() && !defines(table[from], key) {
        lemma_first_definition(table, key, from + 1);
    }
}

/// Finds the first record of `symbol_table` that defines `undefined_symbol`.
pub fn find_defined_symbol<'a>(
    undefined_symbol: &'a Symbol,
    symbol_table: &'a Vec<SymbolTableRecord>,
) -> (defined: Result<&'a Symbol, LinkError>)
    ensures
        match defined {
            Ok(s) => match first_definition(record_views(symbol_table@), undefined_symbol@) {
                Some(found) => symbol_table@[found] == SymbolTableRecord::Symbol(*s),
                None => false,
            },
            Err(e) => e == LinkError::UnresolvedSymbol && first_definition(
                record_views(symbol_table@),
                undefined_symbol@,
            ) is None,
        },
{
    let ghost table = record_views(symbol_table@);
    let mut i: usize = 0;
    while i < symbol_table.len()
        invariant
            i <= symbol_table@.len(),
            table == record_views(symbol_table@),
            first_definition(table, undefined_symbol@) == first_definition_from(
                table,
                undefined_symbol@,
                i as int,
            ),
        decreases symbol_table@.len() - i,
    {
        assert(table[i as int] == symbol_table@[i as int]@);
        match &symbol_table[i] {
            SymbolTableRecord::Symbol(s) => {
                if s.name == undefined_symbol.name && s.storage_class
                    == undefined_symbol.storage_class && s.symbol_type
                    == undefined_symbol.symbol_type && s.section_number > 0 {
                    return Ok(s);
                }
            },
            SymbolTableRecord::Aux(_) => {},
        }
        i = i + 1;
    }
    Err(LinkError::UnresolvedSymbol)
}

/// Binding one relocation of the section with index `section_index`: its
/// kind must be one of the three, its symbol index must point at a symbol
/// of the table, and a record of the table must define that symbol.
pub open spec fn bind_relocation(
    table: Seq<RecordView>,
    section_index: int,
    relocation: Relocation,
) -> Result<RelocationPatch, LinkError> {
    match relocation_kind(relocation.relocation_type) {
        Err(e) => Err(e),
        Ok(kind) => if relocation.symbol_table_index >= table.len() {
            Err(LinkError::MalformedContainer)
        } else {
            match table[relocation.symbol_table_index as int] {
                RecordView::Aux(_) => Err(LinkError::AuxRecordMisuse),
                RecordView::Symbol(key) => match first_definition(table, key) {
                    None => Err(LinkError::UnresolvedSymbol),
                    Some(found) => Ok(
                        RelocationPatch {
                            symbol_section_number: table[found]->Symbol_0.section_number,
                            symbol_value: table[found]->Symbol_0.value,
                            relocation_section_index: section_index as usize,
                            relocation_position: relocation.virtual_address,
                            relocation_type: kind,
                        },
                    ),
                },
            }
        },
    }
}

/// `patches` before what `rest` holds, or the failure of `rest`.
pub open spec fn prepend_patches(
    patches: Seq<RelocationPatch>,
    rest: Result<Seq<RelocationPatch>, LinkError>,
) -> Result<Seq<RelocationPatch>, LinkError> {
    match rest {
        Ok(tail) => Ok(patches + tail),
        Err(e) => Err(e),
    }
}

/// Binding the relocations of `sections` from relocation `ri` of section
/// `si` on: section by section and, in each, relocation by relocation, up
/// to the first that cannot be bound.
pub open spec fn bind_from(
    table: Seq<RecordView>,
    sections: Seq<SectionView>,
    si: int,
    ri: int,
) -> Result<Seq<RelocationPatch>, LinkError>
    decreases sections.len() - si, sections[si].relocations.len() - ri,
{
    if si < 0 || si >= sections.len() || ri < 0 {
        Ok(Seq::empty())
    } else if ri >= sections[si].relocations.len() {
        bind_from(table, sections, si + 1, 0)
    } else {
        match bind_relocation(table, si, sections[si].relocations[ri]) {
            Err(e) => Err(e),
            Ok(patch) => prepend_patches(seq![patch], bind_from(table, sections, si, ri + 1)),
        }
    }
}

/// The patches of every relocation of `sections`, in order.
pub open spec fn bound_patches(table: Seq<RecordView>, sections: Seq<SectionView>) -> Result<
    Seq<RelocationPatch>,
    LinkError,
> {
    bind_from(table, sections, 0, 0)
}

/// Binds one relocation of the section with index `section_index`.
pub fn bind(symbol_table: &Vec<SymbolTableRecord>, section_index: usize, relocation: &Relocation) -> (patch:
    Result<RelocationPatch, LinkError>)
    ensures
        patch == bind_relocation(record_views(symbol_table@), section_index as int, *relocation),
{
    let relocation_type: RelocationType = decode_relocation_type(relocation.relocation_type)?;
    let index: usize = relocation.symbol_table_index as usize;
    if index >= symbol_table.len() {
        return Err(LinkError::MalformedContainer);
    }
    assert(record_views(symbol_table@)[index as int] == symbol_table@[index as int]@);
    let undefined_symbol: &Symbol = match &symbol_table[index] {
        SymbolTableRecord::Symbol(s) => s,
        SymbolTableRecord::Aux(_) => {
            return Err(LinkError::AuxRecordMisuse);
        },
    };
    let defined_symbol: &Symbol = find_defined_symbol(undefined_symbol, symbol_table)?;
    proof {
        let found = first_definition(record_views(symbol_table@), undefined_symbol@)->Some_0;
        lemma_first_definition(record_views(symbol_table@), undefined_symbol@, 0);
        assert(record_views(symbol_table@)[found] == symbol_table@[found]@);
    }
    Ok(
        RelocationPatch {
            symbol_section_number: defined_symbol.section_number,
            symbol_value: defined_symbol.value,
            relocation_section_index: section_index,
            relocation_position: relocation.virtual_address,
            relocation_type,
        },
    )
}

/// Binds every relocation of every section, in order, without changing anything.
pub fn bind_relocations(sections: &Vec<Section>, symbol_table: &Vec<SymbolTableRecord>) -> (patches:
    Result<Vec<RelocationPatch>, LinkError>)
    ensures
        match patches {
            Ok(list) => bound_patches(record_views(symbol_table@), section_views(sections@))
                == Ok::<Seq<RelocationPatch>, LinkError>(list@),
            Err(e) => bound_patches(record_views(symbol_table@), section_views(sections@))
                == Err::<Seq<RelocationPatch>, LinkError>(e),
        },
{
    let ghost table = record_views(symbol_table@);
    let ghost views = section_views(sections@);
    let ghost total = bound_patches(table, views);
    let mut patches: Vec<RelocationPatch> = Vec::new();
    let mut si: usize = 0;
    assert(patches@ + total->Ok_0 =~= total->Ok_0);
    while si < sections.len()
        invariant
            si <= sections@.len(),
            table == record_views(symbol_table@),
            views == section_views(sections@),
            total == bound_patches(table, views),
            total == prepend_patches(patches@, bind_from(table, views, si as int, 0)),
        decreases sections@.len() - si,
    {
        let section: &Section = &sections[si];
        assert(views[si as int] == section@);
        let mut ri: usize = 0;
        while ri < section.relocations.len()
            invariant
                si < sections@.len(),
                ri <= section.relocations@.len(),
                views[si as int] == section@,
                table == record_views(symbol_table@),
                views == section_views(sections@),
                total == bound_patches(table, views),
                total == prepend_patches(patches@, bind_from(table, views, si as int, ri as int)),
            decreases section.relocations@.len() - ri,
        {
            let ghost before = patches@;
            let patch: RelocationPatch = bind(symbol_table, si, &section.relocations[ri])?;
            patches.push(patch);
            proof {
                let rest = bind_from(table, views, si as int, ri + 1);
                if rest is Ok {
                    assert(before + (seq![patch] + rest->Ok_0) =~= before.push(patch)
                        + rest->Ok_0);
                }
            }
            ri = ri + 1;
        }
        si = si + 1;
    }
    assert(patches@ + Seq::<RelocationPatch>::empty() =~= patches@);
    Ok(patches)
}

/// `value` reduced to 32 bits: addresses wrap around modulo 2^32.
pub open spec fn wrap32(value: int) -> u32 {
    (value % 0x1_0000_0000) as u32
}

/// The four-byte value that `patch` writes, from the final addresses of
/// `image`. The target section must exist. An absolute or image-relative
/// address must fit in 32 bits; a displacement wraps around.
pub open spec fn patch_value(image: ImageView, patch: RelocationPatch) -> Result<u32, LinkError> {
    if patch.symbol_section_number < 1 || patch.symbol_section_number > image.sections.len()
        || patch.relocation_section_index >= image.sections.len() {
        Err(LinkError::MalformedContainer)
    } else {
        let image_base = image.optional_header.image_base as int;
        let target = image.sections[patch.symbol_section_number - 1].virtual_address
            + patch.symbol_value;
        let host = image.sections[patch.relocation_section_index as int].virtual_address as int;
        match patch.relocation_type {
            RelocationType::Dir32 => if image_base + target > u32::MAX {
                Err(LinkError::UnsupportedFeature)
            } else {
                Ok((image_base + target) as u32)
            },
            RelocationType::Dir32NB => if target > u32::MAX {
                Err(LinkError::UnsupportedFeature)
            } else {
                Ok(target as u32)
            },
            RelocationType::Rel32 => Ok(
                wrap32((image_base + target) - (image_base + host + patch.relocation_position + 4)),
            ),
        }
    }
}

/// A displacement does not depend on the image base.
pub proof fn lemma_displacement_ignores_base(image: ImageView, patch: RelocationPatch)
    requires
        patch.relocation_type == RelocationType::Rel32,
        patch_value(image, patch) is Ok,
    ensures
        patch_value(image, patch) == Ok::<u32, LinkError>(
            wrap32(
                image.sections[patch.symbol_section_number - 1].virtual_address
                    + patch.symbol_value - (image.sections[patch.relocation_section_index as int].virtual_address
                    + patch.relocation_position + 4),
            ),
        ),
{
}

proof fn lemma_wrap32_unique(x: int, r: int, k: int)
    requires
        0 <= r < 0x1_0000_0000,
        r == x + k * 0x1_0000_0000,
    ensures
        r == wrap32(x),
{
    lemma_fundamental_div_mod_converse(x, 0x1_0000_0000, -k, r);
}

proof fn lemma_wrap32_small(x: u32)
    ensures
        wrap32(x as int) == x,
{
    lemma_wrap32_unique(x as int, x as int, 0);
}

proof fn lemma_wrap32_add(a: u32, b: u32, x: int, y: int)
    requires
        a == wrap32(x),
        b == wrap32(y),
    ensures
        a.wrapping_add(b) == wrap32(x + y),
{
    lemma_fundamental_div_mod(x, 0x1_0000_0000);
    lemma_fundamental_div_mod(y, 0x1_0000_0000);
    lemma_mod_bound(x, 0x1_0000_0000);
    lemma_mod_bound(y, 0x1_0000_0000);
    let qx = x / 0x1_0000_0000;
    let qy = y / 0x1_0000_0000;
    let sum = a.wrapping_add(b) as int;
    if a + b > u32::MAX {
        lemma_wrap32_unique(x + y, sum, -(qx + qy + 1));
    } else {
        lemma_wrap32_unique(x + y, sum, -(qx + qy));
    }
}

proof fn lemma_wrap32_sub(a: u32, b: u32, x: int, y: int)
    requires
        a == wrap32(x),
        b == wrap32(y),
    ensures
        a.wrapping_sub(b) == wrap32(x - y),
{
    lemma_fundamental_div_mod(x, 0x1_0000_0000);
    lemma_fundamental_div_mod(y, 0x1_0000_0000);
    lemma_mod_bound(x, 0x1_0000_0000);
    lemma_mod_bound(y, 0x1_0000_0000);
    let qx = x / 0x1_0000_0000;
    let qy = y / 0x1_0000_0000;
    let difference = a.wrapping_sub(b) as int;
    if a - b < 0 {
        lemma_wrap32_unique(x - y, difference, qy - qx + 1);
    } else {
        lemma_wrap32_unique(x - y, difference, qy - qx);
    }
}

/// Computes the four-byte value that `patch` writes.
pub fn compute_patch_value(image: &Image, patch: &RelocationPatch) -> (value: Result<
    u32,
    LinkError,
>)
    ensures
        value == patch_value(image@, *patch),
{
    if patch.symbol_section_number < 1 || patch.symbol_section_number as usize
        > image.sections.len() || patch.relocation_section_index >= image.sections.len() {
        return Err(LinkError::MalformedContainer);
    }
    let target_index: usize = (patch.symbol_section_number - 1) as usize;
    assert(image@.sections[target_index as int] == image.sections@[target_index as int]@);
    assert(image@.sections[patch.relocation_section_index as int]
        == image.sections@[patch.relocation_section_index as int]@);
    let image_base: u32 = image.optional_header.image_base;
    let symbol_section_virtual_address: u32 = image.sections[target_index].virtual_address;
    match patch.relocation_type {
        RelocationType::Dir32 => {
            let va: u64 = image_base as u64 + symbol_section_virtual_address as u64
                + patch.symbol_value as u64;
            if va > 0xffff_ffff {
                return Err(LinkError::UnsupportedFeature);
            }
            Ok(va as u32)
        },
        RelocationType::Dir32NB => {
            let rva: u64 = symbol_section_virtual_address as u64 + patch.symbol_value as u64;
            if rva > 0xffff_ffff {
                return Err(LinkError::UnsupportedFeature);
            }
            Ok(rva as u32)
        },
        RelocationType::Rel32 => {
            let relocation_section_virtual_address: u32 =
                image.sections[patch.relocation_section_index].virtual_address;
            let symbol_virtual_address: u32 = image_base.wrapping_add(
                symbol_section_virtual_address,
            ).wrapping_add(patch.symbol_value);
            let site_end: u32 = image_base.wrapping_add(
                relocation_section_virtual_address,
            ).wrapping_add(patch.relocation_position).wrapping_add(4);
            let displacement: u32 = symbol_virtual_address.wrapping_sub(site_end);
            proof {
                let base = image_base as int;
                let target = symbol_section_virtual_address as int;
                let value = patch.symbol_value as int;
                let host = relocation_section_virtual_address as int;
                let position = patch.relocation_position as int;
                lemma_wrap32_small(image_base);
                lemma_wrap32_small(symbol_section_virtual_address);
                lemma_wrap32_small(patch.symbol_value);
                lemma_wrap32_small(relocation_section_virtual_address);
                lemma_wrap32_small(patch.relocation_position);
                lemma_wrap32_small(4u32);
                lemma_wrap32_add(image_base, symbol_section_virtual_address, base, target);
                lemma_wrap32_add(
                    image_base.wrapping_add(symbol_section_virtual_address),
                    patch.symbol_value,
                    base + target,
                    value,
                );
                lemma_wrap32_add(image_base, relocation_section_virtual_address, base, host);
                lemma_wrap32_add(
                    image_base.wrapping_add(relocation_section_virtual_address),
                    patch.relocation_position,
                    base + host,
                    position,
                );
                lemma_wrap32_add(
                    image_base.wrapping_add(relocation_section_virtual_address).wrapping_add(
                        patch.relocation_position,
                    ),
                    4u32,
                    base + host + position,
                    4,
                );
                lemma_wrap32_sub(
                    symbol_virtual_address,
                    site_end,
                    base + target + value,
                    base + host + position + 4,
                );
            }
            Ok(displacement)
        },
    }
}

/// The value of each patch of `patches` from index `from` on, up to the
/// first that has none.
pub open spec fn patch_values_from(image: ImageView, patches: Seq<RelocationPatch>, from: int) -> Result<
    Seq<u32>,
    LinkError,
>
    decreases patches.len() - from,
{
    if from < 0 || from >= patches.len() {
        Ok(Seq::empty())
    } else {
        match patch_value(image, patches[from]) {
            Err(e) => Err(e),
            Ok(value) => match patch_values_from(image, patches, from + 1) {
                Err(e) => Err(e),
                Ok(rest) => Ok(seq![value] + rest),
            },
        }
    }
}

/// The value of each patch of `patches`.
pub open spec fn patch_values(image: ImageView, patches: Seq<RelocationPatch>) -> Result<
    Seq<u32>,
    LinkError,
> {
    patch_values_from(image, patches, 0)
}

/// `values` before what `rest` holds, or the failure of `rest`.
pub open spec fn prepend_values(values: Seq<u32>, rest: Result<Seq<u32>, LinkError>) -> Result<
    Seq<u32>,
    LinkError,
> {
    match rest {
        Ok(tail) => Ok(values + tail),
        Err(e) => Err(e),
    }
}

/// Computes the value of every patch, without changing anything.
pub fn compute_patch_values(image: &Image, patches: &Vec<RelocationPatch>) -> (values: Result<
    Vec<u32>,
    LinkError,
>)
    ensures
        match values {
            Ok(list) => patch_values(image@, patches@) == Ok::<Seq<u32>, LinkError>(list@)
                && list@.len() == patches@.len() && forall|k: int|
                0 <= k < patches@.len() ==> (#[trigger] patches@[k]).relocation_section_index
                    < image.sections@.len(),
            Err(e) => patch_values(image@, patches@) == Err::<Seq<u32>, LinkError>(e),
        },
{
    let ghost total = patch_values(image@, patches@);
    let mut values: Vec<u32> = Vec::new();
    let mut i: usize = 0;
    assert(values@ + total->Ok_0 =~= total->Ok_0);
    while i < patches.len()
        invariant
            i <= patches@.len(),
            values@.len() == i,
            total == patch_values(image@, patches@),
            total == prepend_values(values@, patch_values_from(image@, patches@, i as int)),
            forall|k: int|
                0 <= k < i ==> (#[trigger] patches@[k]).relocation_section_index
                    < image.sections@.len(),
        decreases patches@.len() - i,
    {
        let ghost before = values@;
        let value: u32 = compute_patch_value(image, &patches[i])?;
        values.push(value);
        proof {
            let rest = patch_values_from(image@, patches@, i + 1);
            if rest is Ok {
                assert(before + (seq![value] + rest->Ok_0) =~= before.push(value) + rest->Ok_0);
            }
        }
        i = i + 1;
    }
    assert(values@ + Seq::<u32>::empty() =~= values@);
    Ok(values)
}

/// `raw_data` with the four bytes `bytes` at offset `at`. Where the site
/// reaches past the end, the data grows to hold it, with zero bytes between
/// the old end and the site.
pub open spec fn spliced(raw_data: Seq<u8>, at: int, bytes: Seq<u8>) -> Seq<u8> {
    Seq::new(
        if raw_data.len() >= at + 4 {
            raw_data.len()
        } else {
            (at + 4) as nat
        },
        |i: int|
            if at <= i < at + 4 {
                bytes[i - at]
            } else if i < raw_data.len() {
                raw_data[i]
            } else {
                0u8
            },
    )
}

/// Writes `value`, least significant byte first, into `raw_data` at offset `position`.
pub fn splice(raw_data: &mut Vec<u8>, position: u32, value: u32)
    ensures
        final(raw_data)@ == spliced(old(raw_data)@, position as int, u32_to_le(value)),
{
    let bytes: [u8; 4] = le_write_u32(value);
    while raw_data.len() < position as usize
        invariant
            old(raw_data)@.len() <= raw_data@.len(),
            raw_data@.len() <= position || raw_data@.len() == old(raw_data)@.len(),
            forall|i: int| 0 <= i < old(raw_data)@.len() ==> raw_data@[i] == old(raw_data)@[i],
            forall|i: int| old(raw_data)@.len() <= i < raw_data@.len() ==> raw_data@[i] == 0,
        decreases position - raw_data@.len(),
    {
        raw_data.push(0);
    }
    let ghost filled = raw_data@;
    let mut k: usize = 0;
    while k < 4
        invariant
            k <= 4,
            bytes@ == u32_to_le(value),
            position <= filled.len(),
            old(raw_data)@.len() <= filled.len(),
            filled.len() == position || filled.len() == old(raw_data)@.len(),
            forall|i: int| 0 <= i < old(raw_data)@.len() ==> filled[i] == old(raw_data)@[i],
            forall|i: int| old(raw_data)@.len() <= i < filled.len() ==> filled[i] == 0,
            filled.len() <= raw_data@.len(),
            raw_data@.len() == filled.len() || raw_data@.len() == position + k,
            raw_data@.len() >= position + k || raw_data@.len() == filled.len(),
            k > 0 ==> raw_data@.len() >= position + k,
            forall|i: int| 0 <= i < position ==> raw_data@[i] == filled[i],
            forall|i: int|
                position <= i < position + k ==> raw_data@[i] == bytes@[i - position],
            forall|i: int|
                position + k <= i < raw_data@.len() ==> raw_data@[i] == filled[i],
        decreases 4 - k,
    {
        if (position as u64 + k as u64) < raw_data.len() as u64 {
            raw_data[position as usize + k] = bytes[k];
        } else {
            raw_data.push(bytes[k]);
        }
        k = k + 1;
    }
    let ghost wanted = spliced(old(raw_data)@, position as int, u32_to_le(value));
    assert(raw_data@.len() == wanted.len());
    assert forall|i: int| 0 <= i < raw_data@.len() implies raw_data@[i] == wanted[i] by {
        if i < position {
            assert(raw_data@[i] == filled[i]);
        } else if i < position + 4 {
            assert(raw_data@[i] == bytes@[i - position]);
        } else {
            assert(raw_data@[i] == filled[i]);
        }
    }
    assert(raw_data@ =~= wanted);
}

/// `image` with `value` written at the site of `patch`. A patch whose host
/// section does not exist leaves the image as it is.
pub open spec fn patched_image(image: ImageView, patch: RelocationPatch, value: u32) -> ImageView {
    let host = patch.relocation_section_index as int;
    if host >= image.sections.len() {
        image
    } else {
        ImageView {
            sections: image.sections.update(
                host,
                SectionView {
                    raw_data: spliced(
                        image.sections[host].raw_data,
                        patch.relocation_position as int,
                        u32_to_le(value),
                    ),
                    ..image.sections[host]
                },
            ),
            ..image
        }
    }
}

/// Writes `value` into the raw data of the host section of `patch`. Only
/// the raw data of that section changes. A patch whose host section does
/// not exist is refused.
pub fn apply_patch(image: &mut Image, patch: &RelocationPatch, value: u32) -> (done: Result<
    (),
    LinkError,
>)
    ensures
        final(image)@ == patched_image(old(image)@, *patch, value),
        final(image).sections@.len() == old(image).sections@.len(),
        match done {
            Ok(_) => patch.relocation_section_index < old(image).sections@.len(),
            Err(e) => e == LinkError::MalformedContainer && patch.relocation_section_index >= old(
                image,
            ).sections@.len() && *final(image) == *old(image),
        },
{
    if patch.relocation_section_index >= image.sections.len() {
        return Err(LinkError::MalformedContainer);
    }
    let ghost before = image@;
    splice(
        &mut image.sections[patch.relocation_section_index].raw_data,
        patch.relocation_position,
        value,
    );
    assert(image@.sections =~= patched_image(before, *patch, value).sections);
    Ok(())
}

/// `image` after the patches of `patches` from index `from` on, each with
/// its value of `values`, in order.
pub open spec fn apply_from(
    image: ImageView,
    patches: Seq<RelocationPatch>,
    values: Seq<u32>,
    from: int,
) -> ImageView
    decreases patches.len() - from,
{
    if from < 0 || from >= patches.len() {
        image
    } else {
        apply_from(patched_image(image, patches[from], values[from]), patches, values, from + 1)
    }
}

/// Resolving every relocation of `image` against `table`: all of them are
/// bound, then every value is computed from the final addresses, and only
/// then are the values written, in order.
pub open spec fn relocated_image(image: ImageView, table: Seq<RecordView>) -> Result<
    ImageView,
    LinkError,
> {
    match bound_patches(table, image.sections) {
        Err(e) => Err(e),
        Ok(patches) => match patch_values(image, patches) {
            Err(e) => Err(e),
            Ok(values) => Ok(apply_from(image, patches, values, 0)),
        },
    }
}

/// Resolves every relocation of the image against the unified symbol table
/// and rewrites the relocation sites. Where any relocation cannot be
/// resolved, no byte of the image is changed.
pub fn fix_relocations(image: &mut Image, symbol_table: Vec<SymbolTableRecord>) -> (done: Result<
    (),
    LinkError,
>)
    ensures
        match done {
            Ok(_) => relocated_image(old(image)@, record_views(symbol_table@)) == Ok::<
                ImageView,
                LinkError,
            >(final(image)@),
            Err(e) => relocated_image(old(image)@, record_views(symbol_table@)) == Err::<
                ImageView,
                LinkError,
            >(e) && *final(image) == *old(image),
        },
{
    let patches: Vec<RelocationPatch> = bind_relocations(&image.sections, &symbol_table)?;
    let values: Vec<u32> = compute_patch_values(image, &patches)?;
    let mut i: usize = 0;
    while i < patches.len()
        invariant
            i <= patches@.len(),
            values@.len() == patches@.len(),
            image.sections@.len() == old(image).sections@.len(),
            forall|k: int|
                0 <= k < patches@.len() ==> (#[trigger] patches@[k]).relocation_section_index
                    < image.sections@.len(),
            apply_from(old(image)@, patches@, values@, 0) == apply_from(
                image@,
                patches@,
                values@,
                i as int,
            ),
        decreases patches@.len() - i,
    {
        // Every patch was bound to a section of this image.
        let applied = apply_patch(image, &patches[i], values[i]);
        assert(applied is Ok);
        i = i + 1;
    }
    Ok(())
}

proof fn lemma_bind_fails_before(
    table: Seq<RecordView>,
    sections: Seq<SectionView>,
    a: int,
    b: int,
    si: int,
    ri: int,
)
    requires
        0 <= a <= si < sections.len(),
        0 <= b,
        0 <= ri < sections[si].relocations.len(),
        a < si || b <= ri,
        bind_relocation(table, si, sections[si].relocations[ri]) is Err,
    ensures
        bind_from(table, sections, a, b) is Err,
    decreases sections.len() - a, sections[a].relocations.len() - b,
{
    if b >= sections[a].relocations.len() {
        lemma_bind_fails_before(table, sections, a + 1, 0, si, ri);
    } else if a == si && b == ri {
    } else if bind_relocation(table, a, sections[a].relocations[b]) is Ok {
        lemma_bind_fails_before(table, sections, a, b + 1, si, ri);
    }
}

/// One relocation that cannot be bound fails the whole resolution: no
/// patch is computed and none is written.
pub proof fn lemma_unbound_relocation_aborts(
    image: ImageView,
    table: Seq<RecordView>,
    si: int,
    ri: int,
)
    requires
        0 <= si < image.sections.len(),
        0 <= ri < image.sections[si].relocations.len(),
        bind_relocation(table, si, image.sections[si].relocations[ri]) is Err,
    ensures
        relocated_image(image, table) is Err,
{
    lemma_bind_fails_before(table, image.sections, 0, 0, si, ri);
}

/// One relocation whose kind is none of the three fails the whole
/// resolution, whatever else the image and the table hold.
pub proof fn lemma_unsupported_kind_aborts(
    image: ImageView,
    table: Seq<RecordView>,
    si: int,
    ri: int,
)
    requires
        0 <= si < image.sections.len(),
        0 <= ri < image.sections[si].relocations.len(),
        image.sections[si].relocations[ri].relocation_type != IMAGE_REL_I386_DIR32,
        image.sections[si].relocations[ri].relocation_type != IMAGE_REL_I386_DIR32NB,
        image.sections[si].relocations[ri].relocation_type != IMAGE_REL_I386_REL32,
    ensures
        relocated_image(image, table) is Err,
{
    lemma_unbound_relocation_aborts(image, table, si, ri);
}

/// Whether `a` is `b` but for the raw data of its sections.
pub open spec fn same_but_raw_data(a: ImageView, b: ImageView) -> bool {
    &&& a.stub == b.stub
    &&& a.pe_signature == b.pe_signature
    &&& a.coff_header == b.coff_header
    &&& a.optional_header == b.optional_header
    &&& a.data_directories == b.data_directories
    &&& a.sections.len() == b.sections.len()
    &&& forall|i: int|
        0 <= i < a.sections.len() ==> #[trigger] a.sections[i] == (SectionView {
            raw_data: a.sections[i].raw_data,
            ..b.sections[i]
        })
}

proof fn lemma_apply_changes_raw_data_only(
    image: ImageView,
    patches: Seq<RelocationPatch>,
    values: Seq<u32>,
    from: int,
)
    ensures
        same_but_raw_data(apply_from(image, patches, values, from), image),
    decreases patches.len() - from,
{
    if 0 <= from < patches.len() {
        let next = patched_image(image, patches[from], values[from]);
        assert(same_but_raw_data(next, image));
        lemma_apply_changes_raw_data_only(next, patches, values, from + 1);
        let done = apply_from(image, patches, values, from);
        assert forall|i: int| 0 <= i < done.sections.len() implies #[trigger] done.sections[i]
            == (SectionView { raw_data: done.sections[i].raw_data, ..image.sections[i] }) by {
            assert(done.sections[i] == (SectionView {
                raw_data: done.sections[i].raw_data,
                ..next.sections[i]
            }));
            assert(next.sections[i] == (SectionView {
                raw_data: next.sections[i].raw_data,
                ..image.sections[i]
            }));
        }
    }
}

/// Resolving the relocations of an image changes nothing but raw data: the
/// headers, the number of sections, and of each section the name, the
/// address, the virtual size, the relocations and the characteristics stay.
pub proof fn lemma_relocation_changes_raw_data_only(image: ImageView, table: Seq<RecordView>)
    requires
        relocated_image(image, table) is Ok,
    ensures
        same_but_raw_data(relocated_image(image, table)->Ok_0, image),
{
    let patches = bound_patches(table, image.sections)->Ok_0;
    let values = patch_values(image, patches)->Ok_0;
    lemma_apply_changes_raw_data_only(image, patches, values, 0);
}

/// The four bytes at the site of `patch` in the raw data of its host section.
pub open spec fn site_bytes(image: ImageView, patch: RelocationPatch) -> Seq<u8> {
    image.sections[patch.relocation_section_index as int].raw_data.subrange(
        patch.relocation_position as int,
        patch.relocation_position + 4,
    )
}

/// Whether the sites of two patches share no byte: they lie in different
/// sections, or one ends before the other begins.
pub open spec fn sites_apart(a: RelocationPatch, b: RelocationPatch) -> bool {
    ||| a.relocation_section_index != b.relocation_section_index
    ||| a.relocation_position + 4 <= b.relocation_position
    ||| b.relocation_position + 4 <= a.relocation_position
}

/// What a splice does: the four bytes lie at the site, the data is no
/// shorter than before and reaches the end of the site, and every byte that
/// was there outside the site is as it was.
pub proof fn lemma_spliced(raw_data: Seq<u8>, at: int, bytes: Seq<u8>)
    requires
        0 <= at,
        bytes.len() == 4,
    ensures
        spliced(raw_data, at, bytes).len() >= raw_data.len(),
        spliced(raw_data, at, bytes).len() >= at + 4,
        spliced(raw_data, at, bytes).subrange(at, at + 4) == bytes,
        forall|i: int|
            0 <= i < raw_data.len() && !(at <= i < at + 4) ==> spliced(raw_data, at, bytes)[i]
                == raw_data[i],
{
    assert(spliced(raw_data, at, bytes).subrange(at, at + 4) =~= bytes);
}

proof fn lemma_later_patches_keep_site(
    image: ImageView,
    patches: Seq<RelocationPatch>,
    values: Seq<u32>,
    from: int,
    site: RelocationPatch,
)
    requires
        0 <= from,
        site.relocation_section_index < image.sections.len(),
        site.relocation_position + 4 <= image.sections[site.relocation_section_index as int].raw_data.len(),
        forall|j: int| from <= j < patches.len() ==> sites_apart(site, #[trigger] patches[j]),
    ensures
        site_bytes(apply_from(image, patches, values, from), site) == site_bytes(image, site),
    decreases patches.len() - from,
{
    if from < patches.len() {
        let patch = patches[from];
        let next = patched_image(image, patch, values[from]);
        let host = site.relocation_section_index as int;
        assert(sites_apart(site, patch));
        if patch.relocation_section_index < image.sections.len() {
            lemma_spliced(
                image.sections[patch.relocation_section_index as int].raw_data,
                patch.relocation_position as int,
                u32_to_le(values[from]),
            );
        }
        assert(next.sections[host].raw_data.len() >= image.sections[host].raw_data.len());
        assert(site_bytes(next, site) =~= site_bytes(image, site));
        lemma_later_patches_keep_site(next, patches, values, from + 1, site);
    }
}

proof fn lemma_patch_is_written_from(
    image: ImageView,
    patches: Seq<RelocationPatch>,
    values: Seq<u32>,
    from: int,
    k: int,
)
    requires
        0 <= from <= k < patches.len(),
        patches[k].relocation_section_index < image.sections.len(),
        forall|j: int| k < j < patches.len() ==> sites_apart(patches[k], #[trigger] patches[j]),
    ensures
        site_bytes(apply_from(image, patches, values, from), patches[k]) == u32_to_le(values[k]),
    decreases k - from,
{
    let next = patched_image(image, patches[from], values[from]);
    if from < k {
        lemma_patch_is_written_from(next, patches, values, from + 1, k);
    } else {
        lemma_spliced(
            image.sections[patches[k].relocation_section_index as int].raw_data,
            patches[k].relocation_position as int,
            u32_to_le(values[k]),
        );
        assert(site_bytes(next, patches[k]) == u32_to_le(values[k]));
        lemma_later_patches_keep_site(next, patches, values, k + 1, patches[k]);
    }
}

proof fn lemma_patch_values(image: ImageView, patches: Seq<RelocationPatch>, from: int)
    requires
        0 <= from <= patches.len(),
        patch_values_from(image, patches, from) is Ok,
    ensures
        patch_values_from(image, patches, from)->Ok_0.len() == patches.len() - from,
        forall|k: int|
            from <= k < patches.len() ==> patch_value(image, #[trigger] patches[k]) == Ok::<
                u32,
                LinkError,
            >(patch_values_from(image, patches, from)->Ok_0[k - from]),
    decreases patches.len() - from,
{
    if from < patches.len() {
        lemma_patch_values(image, patches, from + 1);
    }
}

/// After the relocations of an image are resolved, the site of a patch
/// holds the value of that patch, least significant byte first, provided
/// that no later patch writes into the same four bytes. The value is the
/// one that the addresses of the image give before any byte is written.
pub proof fn lemma_relocation_is_written(image: ImageView, table: Seq<RecordView>, k: int)
    requires
        relocated_image(image, table) is Ok,
        0 <= k < bound_patches(table, image.sections)->Ok_0.len(),
        forall|j: int|
            k < j < bound_patches(table, image.sections)->Ok_0.len() ==> sites_apart(
                bound_patches(table, image.sections)->Ok_0[k],
                #[trigger] bound_patches(table, image.sections)->Ok_0[j],
            ),
    ensures
        patch_value(image, bound_patches(table, image.sections)->Ok_0[k]) is Ok,
        site_bytes(
            relocated_image(image, table)->Ok_0,
            bound_patches(table, image.sections)->Ok_0[k],
        ) == u32_to_le(patch_value(image, bound_patches(table, image.sections)->Ok_0[k])->Ok_0),
{
    let patches = bound_patches(table, image.sections)->Ok_0;
    let values = patch_values(image, patches)->Ok_0;
    lemma_patch_values(image, patches, 0);
    assert(patch_value(image, patches[k]) == Ok::<u32, LinkError>(values[k]));
    lemma_patch_is_written_from(image, patches, values, 0, k);
}

/// A displacement never fails for want of range: whatever the addresses
/// are, a patch of that kind between two sections of the image has a value.
/// Where the target and the end of the site both lie in the 32-bit address
/// space, the value is their difference, taken modulo 2^32: the difference
/// itself where the target is not below, and 2^32 less the distance where
/// it is.
pub proof fn lemma_displacement(image: ImageView, patch: RelocationPatch)
    requires
        patch.relocation_type == RelocationType::Rel32,
        1 <= patch.symbol_section_number <= image.sections.len(),
        patch.relocation_section_index < image.sections.len(),
    ensures
        patch_value(image, patch) is Ok,
        ({
            let target = image.optional_header.image_base + image.sections[patch.symbol_section_number
                - 1].virtual_address + patch.symbol_value;
            let site_end = image.optional_header.image_base
                + image.sections[patch.relocation_section_index as int].virtual_address
                + patch.relocation_position + 4;
            target <= u32::MAX && site_end <= u32::MAX ==> patch_value(image, patch)->Ok_0
                == if target < site_end {
                0x1_0000_0000 - (site_end - target)
            } else {
                target - site_end
            }
        }),
{
    let target = image.optional_header.image_base + image.sections[patch.symbol_section_number
        - 1].virtual_address + patch.symbol_value;
    let site_end = image.optional_header.image_base
        + image.sections[patch.relocation_section_index as int].virtual_address
        + patch.relocation_position + 4;
    if target <= u32::MAX && site_end <= u32::MAX {
        if target < site_end {
            lemma_wrap32_unique(target - site_end, 0x1_0000_0000 - (site_end - target), 1);
        } else {
            lemma_wrap32_unique(target - site_end, target - site_end, 0);
        }
    }
}

/// The number of relocations of the sections before the one with index `si`.
pub open spec fn relocations_before(sections: Seq<SectionView>, si: int) -> int
    decreases si,
{
    if si <= 0 {
        0
    } else {
        relocations_before(sections, si - 1) + sections[si - 1].relocations.len()
    }
}

/// The place, in the list of all patches, of the patch of relocation `ri`
/// of section `si`.
pub open spec fn patch_index(sections: Seq<SectionView>, si: int, ri: int) -> int {
    relocations_before(sections, si) + ri
}

proof fn lemma_bind_from_index(
    table: Seq<RecordView>,
    sections: Seq<SectionView>,
    a: int,
    b: int,
    si: int,
    ri: int,
)
    requires
        0 <= a <= si < sections.len(),
        0 <= b <= sections[a].relocations.len(),
        0 <= ri < sections[si].relocations.len(),
        a < si || b <= ri,
        bind_from(table, sections, a, b) is Ok,
    ensures
        bind_relocation(table, si, sections[si].relocations[ri]) is Ok,
        ({
            let index = patch_index(sections, si, ri) - patch_index(sections, a, b);
            &&& 0 <= index < bind_from(table, sections, a, b)->Ok_0.len()
            &&& bind_from(table, sections, a, b)->Ok_0[index] == bind_relocation(
                table,
                si,
                sections[si].relocations[ri],
            )->Ok_0
        }),
    decreases sections.len() - a, sections[a].relocations.len() - b,
{
    if b >= sections[a].relocations.len() {
        assert(relocations_before(sections, a + 1) == relocations_before(sections, a)
            + sections[a].relocations.len());
        lemma_bind_from_index(table, sections, a + 1, 0, si, ri);
    } else if a == si && b == ri {
    } else {
        lemma_bind_from_index(table, sections, a, b + 1, si, ri);
    }
}

/// The patches come in the order of the relocations: the patch at the place
/// of relocation `ri` of section `si` is the one that this relocation binds
/// to, with that section as host and the offset of the relocation as site.
pub proof fn lemma_patch_of_relocation(
    table: Seq<RecordView>,
    sections: Seq<SectionView>,
    si: int,
    ri: int,
)
    requires
        bound_patches(table, sections) is Ok,
        0 <= si < sections.len(),
        0 <= ri < sections[si].relocations.len(),
    ensures
        bind_relocation(table, si, sections[si].relocations[ri]) is Ok,
        0 <= patch_index(sections, si, ri) < bound_patches(table, sections)->Ok_0.len(),
        bound_patches(table, sections)->Ok_0[patch_index(sections, si, ri)] == bind_relocation(
            table,
            si,
            sections[si].relocations[ri],
        )->Ok_0,
{
    lemma_bind_from_index(table, sections, 0, 0, si, ri);
}

} // verus!
