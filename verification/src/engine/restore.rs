//! A restoration from its start to its end: the checks that tie a protected image, its payload and
//! its containers together, and the steps around the decoding.

use super::error::{invalid, lift, Error, Fault, Result};
use super::finalize;
use super::finalize::{
    finalize_clean_elf, pad, validate_restored_binary, CleaningModel, CleaningReport,
    ExpectedCounts, ValidationReport,
};
use super::materialize;
use super::materialize::{materialize_static_elf_tables, ElfMaterializationReport, ReportModel};
use super::sections;
use super::sections::metadata_mapping_length;
use crate::bytes;
use crate::bytes::{copy_of, is_zero};
use crate::digest;
use crate::digest::sha256_hex;
use crate::elf::layout::LayoutModel;
use crate::elf::read;
use crate::elf::{align_up, slice_u64, usize_from_u64, ElfLayout, SectionHeader};
use crate::engine::error;
use crate::text;
use crate::text::{upper_hex_of, zero_pad};
use vstd::prelude::*;
use vstd::string::*;

verus! {

/// Writing to the output would destroy the input: the paths are the same, or the output exists and
/// is the same file.
pub fn overwrites_input(same_path: bool, output_exists: bool, same_file: bool) -> (result: bool)
    ensures
        result == (same_path || (output_exists && same_file)),
{
    same_path || (output_exists && same_file)
}

/// The private section of a protected image: it follows the segments, rounded up to 16 bytes, and
/// what lies between is zero.
pub open spec fn spec_check_private(source: Seq<u8>, layout: LayoutModel) -> Result<SectionHeader> {
    match layout.spec_private_section() {
        Err(e) => Err(Error::Elf(e)),
        Ok(private) => match layout.spec_file_load_end() {
            Err(e) => Err(Error::Elf(e)),
            Ok(raw_end) => match read::spec_align_up(raw_end, 0x10) {
                Err(e) => Err(Error::Elf(e)),
                Ok(aligned_end) => if private.offset != aligned_end {
                    Err(
                        Error::Invalid(
                            Fault::PrivateOffset {
                                private: private.offset,
                                aligned_end,
                                raw_end,
                            },
                        ),
                    )
                } else {
                    match read::spec_slice_u64(
                        source,
                        raw_end,
                        (private.offset - raw_end) as u64,
                    ) {
                        Err(e) => Err(Error::Elf(e)),
                        Ok(padding) => if !bytes::all_zero(padding) {
                            Err(
                                Error::Invalid(
                                    Fault::LoadPadding { raw_end, private: private.offset },
                                ),
                            )
                        } else {
                            Ok(private)
                        },
                    }
                },
            },
        },
    }
}

/// Checks where the private section of a protected image is.
pub fn check_private_section(source: &[u8], layout: &ElfLayout) -> (result: Result<SectionHeader>)
    ensures
        result == spec_check_private(source@, layout@),
{
    let private = lift(layout.private_section())?;
    let raw_end = lift(layout.file_load_end())?;
    proof {
        reveal_with_fuel(read::is_power_of_two, 6);
        assert(read::is_power_of_two(0x10));
        read::lemma_aligned(raw_end as int, 0x10);
    }
    let aligned_end = lift(align_up(raw_end, 0x10))?;
    if private.offset != aligned_end {
        return invalid(
            Fault::PrivateOffset { private: private.offset, aligned_end, raw_end },
        );
    }
    let padding = match slice_u64(source, raw_end, private.offset - raw_end) {
        Ok(padding) => padding,
        Err(e) => return Err(Error::Elf(e)),
    };
    if !is_zero(padding) {
        return invalid(Fault::LoadPadding { raw_end, private: private.offset });
    }
    Ok(private)
}

/// Checks that a payload is meant for an image of `load_size` bytes of memory.
pub fn check_target_size(announced: u32, load_size: u64) -> (result: Result<()>)
    ensures
        announced == load_size ==> result == Ok::<(), Error>(()),
        announced != load_size ==> result == Err::<(), Error>(
            Error::Invalid(Fault::TargetSize { announced, load_size }),
        ),
{
    if announced as u64 != load_size {
        return invalid(Fault::TargetSize { announced, load_size });
    }
    Ok(())
}

/// Checks that the primary container yields an image of `load_size` bytes of memory.
pub fn check_primary_output(announced: u32, load_size: u64) -> (result: Result<()>)
    ensures
        announced == load_size ==> result == Ok::<(), Error>(()),
        announced != load_size ==> result == Err::<(), Error>(
            Error::Invalid(Fault::PrimaryOutput { announced, load_size }),
        ),
{
    if announced as u64 != load_size {
        return invalid(Fault::PrimaryOutput { announced, load_size });
    }
    Ok(())
}

/// The auxiliary container has the announced size and follows the primary one.
pub open spec fn spec_check_auxiliary(
    output_size: u32,
    announced: u32,
    primary_end: usize,
    auxiliary_offset: u32,
) -> Result<()> {
    if output_size != announced {
        Err(
            error::fault("auxiliary container output size does not match the 0x9D descriptor"),
        )
    } else if primary_end != auxiliary_offset {
        Err(error::fault("primary and auxiliary 0x9D containers are not contiguous"))
    } else {
        Ok(())
    }
}

/// Checks the auxiliary container against the payload's descriptor.
pub fn check_auxiliary_container(
    output_size: u32,
    announced: u32,
    primary_end: usize,
    auxiliary_offset: u32,
) -> (result: Result<()>)
    ensures
        result == spec_check_auxiliary(output_size, announced, primary_end, auxiliary_offset),
{
    if output_size != announced {
        return invalid(
            Fault::Text("auxiliary container output size does not match the 0x9D descriptor"),
        );
    }
    if primary_end != auxiliary_offset as usize {
        return invalid(Fault::Text("primary and auxiliary 0x9D containers are not contiguous"));
    }
    Ok(())
}

/// Checks that a mapping holds the whole image.
pub fn check_mapping_length(mapping_length: usize, image_size: usize) -> (result: Result<()>)
    ensures
        mapping_length >= image_size ==> result == Ok::<(), Error>(()),
        mapping_length < image_size ==> result == Err::<(), Error>(
            error::fault("dynamic-table mapping is shorter than the ELF image"),
        ),
{
    if mapping_length < image_size {
        return invalid(Fault::Text("dynamic-table mapping is shorter than the ELF image"));
    }
    Ok(())
}

/// The image that a restoration starts from: what lies in front of the private section.
pub open spec fn spec_start_image(source: Seq<u8>, layout: LayoutModel) -> Result<Seq<u8>> {
    match spec_check_private(source, layout) {
        Err(e) => Err(e),
        Ok(private) => Ok(source.take(private.offset as int)),
    }
}

/// Starts a restoration with what lies in front of the private section.
pub fn start_image(source: &[u8], layout: &ElfLayout) -> (result: Result<Vec<u8>>)
    ensures
        match (result, spec_start_image(source@, layout@)) {
            (Ok(found), Ok(wanted)) => found@ == wanted,
            (Err(found), Err(wanted)) => found == wanted,
            _ => false,
        },
{
    let private = check_private_section(source, layout)?;
    let size = private.offset as usize;
    assert(source@.len() == source.len());
    assert(source@.subrange(0, size as int) =~= source@.take(size as int));
    Ok(copy_of(&source[0..size]))
}

/// The image with room for the rebuilt tables behind it.
pub open spec fn spec_extend_image(
    image: Seq<u8>,
    source: Seq<u8>,
    layout: LayoutModel,
    auxiliary_data: Seq<u8>,
) -> Result<Seq<u8>> {
    match sections::spec_metadata_mapping_length(source, layout, auxiliary_data) {
        Err(e) => Err(e),
        Ok(length) => if length < image.len() {
            Err(error::fault("dynamic-table mapping is shorter than the ELF image"))
        } else {
            Ok(image + bytes::zeros((length - image.len()) as nat))
        },
    }
}

/// Makes room for the rebuilt tables behind an image.
pub fn extend_image(
    image: Vec<u8>,
    source: &[u8],
    layout: &ElfLayout,
    auxiliary_data: &[u8],
) -> (result: Result<Vec<u8>>)
    ensures
        match (result, spec_extend_image(image@, source@, layout@, auxiliary_data@)) {
            (Ok(found), Ok(wanted)) => found@ == wanted,
            (Err(found), Err(wanted)) => found == wanted,
            _ => false,
        },
{
    let length = metadata_mapping_length(source, layout, auxiliary_data)?;
    check_mapping_length(length, image.len())?;
    let mut extended = image;
    let missing = (length - extended.len()) as u64;
    pad(&mut extended, missing);
    Ok(extended)
}

/// What the dynamic-linker tables are rebuilt from.
#[derive(Debug)]
pub struct TableInputs {
    pub symbol_patch_data: Vec<u8>,
    pub auxiliary_data: Vec<u8>,
    /// The GNU hash table over the names of the merged symbols.
    pub gnu_hash: Vec<u8>,
    /// The SysV hash table over the names of the merged symbols.
    pub sysv_hash: Vec<u8>,
}

/// A completed restoration: the file and what is reported of it.
#[derive(Debug)]
pub struct RestoredElf {
    pub data: Vec<u8>,
    pub materialization: Option<ElfMaterializationReport>,
    pub cleaning: CleaningReport,
    pub validation: ValidationReport,
}

/// The mathematical content of a [`RestoredElf`].
#[verifier::ext_equal]
pub struct RestoredModel {
    pub data: Seq<u8>,
    pub materialization: Option<ReportModel>,
    pub cleaning: CleaningModel,
    pub validation: ValidationReport,
}

impl View for RestoredElf {
    type V = RestoredModel;

    open spec fn view(&self) -> RestoredModel {
        RestoredModel {
            data: self.data@,
            materialization: match self.materialization {
                Some(report) => Some(report@),
                None => None,
            },
            cleaning: self.cleaning@,
            validation: self.validation,
        }
    }
}

/// An image cut off or extended by zeros to `size` bytes.
pub open spec fn resized(image: Seq<u8>, size: int) -> Seq<u8> {
    if size <= image.len() {
        image.take(size)
    } else {
        image + bytes::zeros((size - image.len()) as nat)
    }
}

/// The restored file of an image whose tables are done.
pub open spec fn spec_finish(
    image: Seq<u8>,
    source: Seq<u8>,
    layout: LayoutModel,
    materialization: Option<ReportModel>,
    preserve_entrypoint: bool,
) -> Result<RestoredModel> {
    match finalize::spec_finalize(image, source, layout, preserve_entrypoint) {
        Err(e) => Err(e),
        Ok(clean) => match finalize::spec_validate_restored_binary(
            clean.data,
            preserve_entrypoint,
            match materialization {
                Some(report) => Some(ExpectedCounts::spec_of(report)),
                None => None,
            },
        ) {
            Err(e) => Err(e),
            Ok(validation) => Ok(
                RestoredModel {
                    data: clean.data,
                    materialization,
                    cleaning: clean.report,
                    validation,
                },
            ),
        },
    }
}

/// The restored file of an image whose segments are decoded, or why there is none. Without
/// `tables`, the dynamic-linker tables stay as they are.
pub open spec fn spec_complete_restore(
    image: Seq<u8>,
    source: Seq<u8>,
    layout: LayoutModel,
    tables: Option<TableInputs>,
    preserve_entrypoint: bool,
) -> Result<RestoredModel> {
    match tables {
        None => spec_finish(image, source, layout, None, preserve_entrypoint),
        Some(inputs) => {
            let (rebuilt, outcome) = materialize::spec_rebuild(
                image,
                source,
                layout,
                inputs.symbol_patch_data@,
                inputs.auxiliary_data@,
                inputs.gnu_hash@,
                inputs.sysv_hash@,
            );
            match outcome {
                Err(e) => Err(e),
                Ok(materialized) => match read::spec_usize_from_u64(
                    materialized.data_end,
                    "restored data end",
                ) {
                    Err(e) => Err(Error::Elf(e)),
                    Ok(end) => spec_finish(
                        resized(rebuilt, end as int),
                        source,
                        materialized.layout,
                        Some(materialized.report),
                        preserve_entrypoint,
                    ),
                },
            }
        },
    }
}

/// A completed restoration agrees with its mathematical counterpart.
pub open spec fn restored_agrees(
    result: Result<RestoredElf>,
    expected: Result<RestoredModel>,
) -> bool {
    match (result, expected) {
        (Ok(found), Ok(wanted)) => found@ == wanted,
        (Err(found), Err(wanted)) => found == wanted,
        _ => false,
    }
}

/// Completes an image whose tables are done.
fn finish(
    image: Vec<u8>,
    source: &[u8],
    layout: &ElfLayout,
    materialization: Option<ElfMaterializationReport>,
    preserve_entrypoint: bool,
) -> (result: Result<RestoredElf>)
    ensures
        restored_agrees(
            result,
            spec_finish(
                image@,
                source@,
                layout@,
                match materialization {
                    Some(report) => Some(report@),
                    None => None,
                },
                preserve_entrypoint,
            ),
        ),
{
    let clean = finalize_clean_elf(image, source, layout, preserve_entrypoint)?;
    let expected = match &materialization {
        Some(report) => Some(ExpectedCounts::of(report)),
        None => None,
    };
    let validation = validate_restored_binary(&clean.data, preserve_entrypoint, expected)?;
    Ok(RestoredElf { data: clean.data, materialization, cleaning: clean.report, validation })
}

/// Completes the restoration of an image whose segments are decoded. With `tables`, the image has
/// room for the rebuilt tables behind it. The result is checked before it is handed back.
pub fn complete_restore(
    image: Vec<u8>,
    source: &[u8],
    layout: &ElfLayout,
    tables: Option<TableInputs>,
    preserve_entrypoint: bool,
) -> (result: Result<RestoredElf>)
    ensures
        restored_agrees(
            result,
            spec_complete_restore(image@, source@, layout@, tables, preserve_entrypoint),
        ),
{
    let inputs = match tables {
        Some(inputs) => inputs,
        None => return finish(image, source, layout, None, preserve_entrypoint),
    };
    let mut output = image;
    let materialized = materialize_static_elf_tables(
        &mut output,
        source,
        layout,
        &inputs.symbol_patch_data,
        &inputs.auxiliary_data,
        inputs.gnu_hash,
        inputs.sysv_hash,
    )?;
    let end = lift(usize_from_u64(materialized.data_end, "restored data end"))?;
    if end <= output.len() {
        output.truncate(end);
    } else {
        let missing = (end - output.len()) as u64;
        pad(&mut output, missing);
    }
    finish(output, source, &materialized.layout, Some(materialized.report), preserve_entrypoint)
}

/// A completed restoration can be parsed, has no private section, and has no entry point unless
/// it is kept; the tables have the sizes that were rebuilt.
pub proof fn law_restored_file_is_clean(
    image: Seq<u8>,
    source: Seq<u8>,
    layout: LayoutModel,
    tables: Option<TableInputs>,
    preserve_entrypoint: bool,
)
    requires
        spec_complete_restore(image, source, layout, tables, preserve_entrypoint) is Ok,
    ensures
        ({
            let restored = spec_complete_restore(
                image,
                source,
                layout,
                tables,
                preserve_entrypoint,
            )->Ok_0;
            let parsed = LayoutModel::spec_parse(restored.data, false);
            &&& parsed is Ok
            &&& !finalize::has_private(parsed->Ok_0.section_headers)
            &&& preserve_entrypoint || parsed->Ok_0.entrypoint == 0
            &&& !restored.validation.has_louser
            &&& restored.materialization is Some <==> tables is Some
            &&& restored.materialization matches Some(report) ==> {
                &&& restored.validation.dynamic_symbols == report.new_symbol_count
                &&& restored.validation.dynamic_relocations == report.rela_dyn_count
                &&& restored.validation.pltgot_relocations == report.rela_plt_count
            }
        }),
{
}

/// The static parameters of a restoration.
#[derive(Debug, PartialEq, Eq)]
pub struct StaticConfigReport {
    pub header_seed: String,
    pub container_seed: String,
    pub aes_key_sha256: String,
    pub schedule_offset: String,
}

/// A number in hexadecimal.
pub open spec fn hex_text(value: nat) -> Seq<char> {
    "0x"@ + text::upper_hex(value)
}

/// A seed: eight hexadecimal digits.
pub open spec fn seed_text(seed: u32) -> Seq<char> {
    "0x"@ + text::zero_padded(text::upper_hex(seed as nat), 8)
}

/// Renders a number in hexadecimal.
fn render_hex(value: u64) -> (text: String)
    ensures
        text@ == hex_text(value as nat),
{
    let mut text = String::from_str("0x");
    text.append(upper_hex_of(value).as_str());
    text
}

/// Renders a seed.
fn render_seed(seed: u32) -> (text: String)
    ensures
        text@ == seed_text(seed),
{
    let mut text = String::from_str("0x");
    text.append(zero_pad(upper_hex_of(seed as u64), 8).as_str());
    text
}

impl StaticConfigReport {
    /// Reports the static parameters. The key itself is not shown, only its digest.
    pub fn new(header_seed: u32, container_seed: u32, aes_key: &[u8], schedule_offset: u64) -> (report:
        StaticConfigReport)
        ensures
            report.header_seed@ == seed_text(header_seed),
            report.container_seed@ == seed_text(container_seed),
            report.aes_key_sha256@ == text::hex_digest_text(digest::sha256_of(aes_key@)),
            report.schedule_offset@ == hex_text(schedule_offset as nat),
    {
        StaticConfigReport {
            header_seed: render_seed(header_seed),
            container_seed: render_seed(container_seed),
            aes_key_sha256: sha256_hex(aes_key),
            schedule_offset: render_hex(schedule_offset),
        }
    }
}

/// The fields of a payload's descriptor.
#[derive(Debug, Clone, Copy, PartialEq, Eq, Structural)]
pub struct DescriptorFields {
    pub command_id: u32,
    pub flags: u32,
    pub outer_offset: u32,
    pub outer_expected_size: u32,
    pub auxiliary_offset: u32,
    pub auxiliary_expected_size: u32,
}

/// The fields of a payload's descriptor as text.
#[derive(Debug, PartialEq, Eq)]
pub struct DescriptorReport {
    pub command_id: String,
    pub flags: String,
    pub outer_offset: String,
    pub outer_expected_size: String,
    pub auxiliary_offset: String,
    pub auxiliary_expected_size: String,
}

impl DescriptorReport {
    /// Reports the fields of a descriptor.
    pub fn new(fields: &DescriptorFields) -> (report: DescriptorReport)
        ensures
            report.command_id@ == hex_text(fields.command_id as nat),
            report.flags@ == hex_text(fields.flags as nat),
            report.outer_offset@ == hex_text(fields.outer_offset as nat),
            report.outer_expected_size@ == hex_text(fields.outer_expected_size as nat),
            report.auxiliary_offset@ == hex_text(fields.auxiliary_offset as nat),
            report.auxiliary_expected_size@ == hex_text(fields.auxiliary_expected_size as nat),
    {
        DescriptorReport {
            command_id: render_hex(fields.command_id as u64),
            flags: render_hex(fields.flags as u64),
            outer_offset: render_hex(fields.outer_offset as u64),
            outer_expected_size: render_hex(fields.outer_expected_size as u64),
            auxiliary_offset: render_hex(fields.auxiliary_offset as u64),
            auxiliary_expected_size: render_hex(fields.auxiliary_expected_size as u64),
        }
    }
}

} // verus!
