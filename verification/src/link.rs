//! One run from input bytes to output bytes: decode the image, work in the
//! overlay, decode and merge the object file, unify the symbol tables,
//! resolve every relocation, and serialize.

use crate::coff::{parse_coff, read_coff, record_views, RecordView, SymbolTableRecord, COFF};
use crate::error::LinkError;
use crate::image_info::{
    fill_image_and_symbol_table_with_image_info, lemma_overlay_appends, relocation_views,
    symbol_views, with_overlay, ImageInfo, ImageInfoRelocationView, ImageInfoSymbolView,
    OverlayState,
};
use crate::merge::{
    append_sections, lemma_merge_keeps_section_count, merged_image, move_symbols, moved_records,
};
use crate::pe::{
    image_bytes, image_writable, parse_image, read_image, section_count_consistent, write_image,
    Image, ImageView,
};
use crate::relocate::{fix_relocations, lemma_relocation_changes_raw_data_only, relocated_image};
use crate::stream::ByteReader;
use vstd::prelude::*;

verus! {

/// The image that a run arrives at before it is written. The steps come in
/// a fixed order, and the first that fails ends the run with its error:
/// the image is decoded; the overlay is worked in, into an empty symbol
/// table; the object file is decoded; its symbols are moved past the
/// sections of the image; its sections are merged, their relocations
/// shifted past the overlay's symbols; the object's symbols follow the
/// overlay's in the unified table; and every relocation is resolved.
pub open spec fn linked_image(
    pe_bytes: Seq<u8>,
    relocations: Seq<ImageInfoRelocationView>,
    symbols: Seq<ImageInfoSymbolView>,
    coff_bytes: Seq<u8>,
) -> Result<ImageView, LinkError> {
    match parse_image(pe_bytes) {
        Err(e) => Err(e),
        Ok(image) => match with_overlay(
            OverlayState { sections: image.sections, table: Seq::empty() },
            relocations,
            symbols,
        ) {
            Err(e) => Err(e),
            Ok(state) => if state.sections.len() > i16::MAX {
                Err(LinkError::UnsupportedFeature)
            } else {
                match parse_coff(coff_bytes, 0) {
                    Err(e) => Err(e),
                    Ok(object) => match moved_records(
                        object.symbols,
                        state.sections.len() as i16,
                    ) {
                        Err(e) => Err(e),
                        Ok(object_symbols) => if state.table.len() > u32::MAX {
                            Err(LinkError::UnsupportedFeature)
                        } else {
                            match merged_image(
                                ImageView { sections: state.sections, ..image },
                                object.sections,
                                state.table.len() as u32,
                            ) {
                                Err(e) => Err(e),
                                Ok(merged) => relocated_image(
                                    merged,
                                    state.table + object_symbols,
                                ),
                            }
                        },
                    },
                }
            },
        },
    }
}

/// The bytes of the image that a run writes, or the error that ends it.
pub open spec fn linked_bytes(
    pe_bytes: Seq<u8>,
    relocations: Seq<ImageInfoRelocationView>,
    symbols: Seq<ImageInfoSymbolView>,
    coff_bytes: Seq<u8>,
) -> Result<Seq<u8>, LinkError> {
    match linked_image(pe_bytes, relocations, symbols, coff_bytes) {
        Err(e) => Err(e),
        Ok(image) => if image_writable(image, 0) {
            Ok(image_bytes(image, 0))
        } else {
            Err(LinkError::UnsupportedFeature)
        },
    }
}

/// Merges the object file `coff_bytes` into the image `pe_bytes`, with the
/// overlay `image_info`, and returns the bytes of the resulting image.
pub fn link(pe_bytes: Vec<u8>, image_info: ImageInfo, coff_bytes: Vec<u8>) -> (output: Result<
    Vec<u8>,
    LinkError,
>)
    ensures
        match output {
            Ok(bytes) => linked_bytes(
                pe_bytes@,
                relocation_views(image_info.relocations@),
                symbol_views(image_info.symbols@),
                coff_bytes@,
            ) == Ok::<Seq<u8>, LinkError>(bytes@),
            Err(e) => linked_bytes(
                pe_bytes@,
                relocation_views(image_info.relocations@),
                symbol_views(image_info.symbols@),
                coff_bytes@,
            ) == Err::<Seq<u8>, LinkError>(e),
        },
{
    let mut pe: Image = read_image(ByteReader::new(pe_bytes))?;
    let mut symbol_table: Vec<SymbolTableRecord> = Vec::new();
    assert(record_views(symbol_table@) =~= Seq::<RecordView>::empty());
    fill_image_and_symbol_table_with_image_info(&mut pe, &mut symbol_table, image_info)?;

    if pe.sections.len() > 0x7fff {
        return Err(LinkError::UnsupportedFeature);
    }
    let section_count: i16 = pe.sections.len() as i16;
    let mut coff: COFF = read_coff(ByteReader::new(coff_bytes))?;
    move_symbols(&mut coff.symbols, section_count)?;
    if symbol_table.len() > 0xffff_ffff {
        return Err(LinkError::UnsupportedFeature);
    }
    let ghost overlay_table = record_views(symbol_table@);
    let ghost object_table = record_views(coff.symbols@);
    append_sections(&mut pe, &mut coff, symbol_table.len() as u32)?;
    symbol_table.append(&mut coff.symbols);
    assert(record_views(symbol_table@) =~= overlay_table + object_table);

    fix_relocations(&mut pe, symbol_table)?;

    let mut buffer: Vec<u8> = Vec::new();
    write_image(pe, &mut buffer)?;
    assert(buffer@ =~= image_bytes(pe@, 0));
    Ok(buffer)
}

/// In the image that a run writes, the section count that the header
/// declares is the number of sections that follow.
pub proof fn lemma_linked_image_section_count(
    pe_bytes: Seq<u8>,
    relocations: Seq<ImageInfoRelocationView>,
    symbols: Seq<ImageInfoSymbolView>,
    coff_bytes: Seq<u8>,
)
    requires
        linked_image(pe_bytes, relocations, symbols, coff_bytes) is Ok,
    ensures
        section_count_consistent(linked_image(pe_bytes, relocations, symbols, coff_bytes)->Ok_0),
{
    let image = parse_image(pe_bytes)->Ok_0;
    let start = OverlayState { sections: image.sections, table: Seq::empty() };
    let state = with_overlay(start, relocations, symbols)->Ok_0;
    let object = parse_coff(coff_bytes, 0)->Ok_0;
    let object_symbols = moved_records(object.symbols, state.sections.len() as i16)->Ok_0;
    let overlaid = ImageView { sections: state.sections, ..image };
    let merged = merged_image(overlaid, object.sections, state.table.len() as u32)->Ok_0;
    lemma_overlay_appends(start, relocations, symbols);
    assert(section_count_consistent(image));
    assert(section_count_consistent(overlaid));
    lemma_merge_keeps_section_count(overlaid, object.sections, 0, state.table.len() as u32);
    lemma_relocation_changes_raw_data_only(merged, state.table + object_symbols);
}

} // verus!
