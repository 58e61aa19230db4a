//! Restoring method tokens from the structure of the metadata itself.
//!
//! il2cpp finds a method's compiled function by its token row within its module, which works only
//! when the tokens of each module are the contiguous range from one on. Methods are laid out
//! grouped by type, and types grouped by image (module), so a method's row is its position within
//! its module. Only method tokens are touched. On metadata whose tokens are already right nothing
//! changes, and the report then counts no rewritten token.

use super::MAGIC;
use crate::bytes;
use crate::bytes::{bytes_of_u32, copy_of, load_u16, load_u32, store};
use crate::fold;
use crate::text;
use crate::text::decimal_of;
use vstd::prelude::*;
use vstd::string::*;

verus! {

/// The newer metadata version whose layout is known.
pub const SUPPORTED_VERSION: u32 = 31;

/// The older metadata version whose layout is known.
pub const SUPPORTED_VERSION_V24: u32 = 24;

/// Header place of the method table's offset and size.
pub const HDR_METHODS: usize = 0x30;

/// Header place of the type table's offset and size.
pub const HDR_TYPES: usize = 0xA0;

/// Header place of the image table's offset and size.
pub const HDR_IMAGES: usize = 0xA8;

/// Header place of the image table's offset and size in version 24.
pub const V24_HDR_IMAGES: usize = 0xB0;

/// Size of one image record.
pub const IMAGE_STRIDE: usize = 0x28;

/// Place of the first type index in an image record.
pub const IMAGE_TYPE_START_OFF: usize = 0x08;

/// Place of the type count in an image record.
pub const IMAGE_TYPE_COUNT_OFF: usize = 0x0C;

/// Table bits of a method token.
pub const METHOD_TOKEN_TABLE: u32 = 0x0600_0000;

/// Method index of a type without methods.
pub const NO_METHODS: u32 = 0xFFFF_FFFF;

/// Outcome of a successful [`deobfuscate`] pass.
#[derive(Debug, Clone, Copy)]
pub struct Report {
    pub version: u32,
    /// Number of methods.
    pub methods: usize,
    /// Number of method tokens that were rewritten.
    pub remapped: usize,
    /// Number of modules that own at least one method.
    pub modules: usize,
}

/// Why [`deobfuscate`] declined to process the input.
#[derive(Debug, Clone, Copy, PartialEq, Eq, Structural)]
pub enum Error {
    /// The metadata magic is missing.
    NotMetadata,
    /// Metadata of a version whose layout is not known.
    UnsupportedVersion(u32),
    /// The tables are inconsistent with the version's layout.
    Malformed,
}

impl Error {
    /// The message of the error.
    pub open spec fn text(self) -> Seq<char> {
        match self {
            Error::NotMetadata => "not an il2cpp global-metadata.dat"@,
            Error::UnsupportedVersion(version) => "unsupported metadata version "@ + text::decimal(
                version as nat,
            ),
            Error::Malformed => "malformed metadata for version "@ + text::decimal(
                SUPPORTED_VERSION as nat,
            ),
        }
    }

    /// Renders the error.
    pub fn to_string(&self) -> (message: String)
        ensures
            message@ == self.text(),
    {
        match self {
            Error::NotMetadata => String::from_str("not an il2cpp global-metadata.dat"),
            Error::UnsupportedVersion(version) => {
                let mut message = String::from_str("unsupported metadata version ");
                message.append(decimal_of(*version as u128).as_str());
                message
            },
            Error::Malformed => {
                let mut message = String::from_str("malformed metadata for version ");
                message.append(decimal_of(SUPPORTED_VERSION as u128).as_str());
                message
            },
        }
    }
}

/// Record sizes and field places of one metadata version.
#[derive(Clone, Copy)]
pub struct Layout {
    pub hdr_images: usize,
    pub method_stride: usize,
    pub method_token_off: usize,
    pub type_stride: usize,
    pub type_method_start_off: usize,
    pub type_method_count_off: usize,
}

/// The layout of a metadata version.
pub open spec fn spec_layout_for(version: u32) -> Option<Layout> {
    if version == SUPPORTED_VERSION {
        Some(
            Layout {
                hdr_images: HDR_IMAGES,
                method_stride: 0x24,
                method_token_off: 0x18,
                type_stride: 0x58,
                type_method_start_off: 0x24,
                type_method_count_off: 0x40,
            },
        )
    } else if version == SUPPORTED_VERSION_V24 {
        Some(
            Layout {
                hdr_images: V24_HDR_IMAGES,
                method_stride: 0x34,
                method_token_off: 0x28,
                type_stride: 0x64,
                type_method_start_off: 0x30,
                type_method_count_off: 0x4C,
            },
        )
    } else {
        None
    }
}

/// The layout of a metadata version.
fn layout_for(version: u32) -> (layout: Option<Layout>)
    ensures
        layout == spec_layout_for(version),
{
    if version == SUPPORTED_VERSION {
        Some(
            Layout {
                hdr_images: HDR_IMAGES,
                method_stride: 0x24,
                method_token_off: 0x18,
                type_stride: 0x58,
                type_method_start_off: 0x24,
                type_method_count_off: 0x40,
            },
        )
    } else if version == SUPPORTED_VERSION_V24 {
        Some(
            Layout {
                hdr_images: V24_HDR_IMAGES,
                method_stride: 0x34,
                method_token_off: 0x28,
                type_stride: 0x64,
                type_method_start_off: 0x30,
                type_method_count_off: 0x4C,
            },
        )
    } else {
        None
    }
}

/// Where the three tables are and how many records they hold.
#[derive(Clone, Copy)]
pub struct Tables {
    pub version: u32,
    pub layout: Layout,
    pub methods: usize,
    pub method_count: usize,
    pub types: usize,
    pub type_count: usize,
    pub images: usize,
    pub image_count: usize,
}

/// A table's offset and size as the header at `at` gives them.
pub open spec fn table_at(data: Seq<u8>, at: int) -> (int, int) {
    (bytes::u32_at(data, at) as int, bytes::u32_at(data, at + 4) as int)
}

/// The tables of the metadata in `data`, or why they cannot be used.
pub open spec fn spec_tables(data: Seq<u8>) -> Result<Tables, Error> {
    if data.len() < 4 || bytes::u32_at(data, 0) != MAGIC {
        Err(Error::NotMetadata)
    } else if data.len() < 8 {
        Err(Error::Malformed)
    } else {
        let version = bytes::u32_at(data, 4);
        match spec_layout_for(version) {
            None => Err(Error::UnsupportedVersion(version)),
            Some(layout) => if data.len() < HDR_IMAGES || data.len() < layout.hdr_images + 8 {
                Err(Error::Malformed)
            } else {
                let (m_off, m_size) = table_at(data, HDR_METHODS as int);
                let (t_off, t_size) = table_at(data, HDR_TYPES as int);
                let (i_off, i_size) = table_at(data, layout.hdr_images as int);
                if m_size % (layout.method_stride as int) != 0 || t_size % (
                layout.type_stride as int) != 0 || i_size % (IMAGE_STRIDE as int) != 0 || m_off
                    + m_size > data.len() || t_off + t_size > data.len() || i_off + i_size
                    > data.len() {
                    Err(Error::Malformed)
                } else {
                    Ok(
                        Tables {
                            version,
                            layout,
                            methods: m_off as usize,
                            method_count: (m_size / (layout.method_stride as int)) as usize,
                            types: t_off as usize,
                            type_count: (t_size / (layout.type_stride as int)) as usize,
                            images: i_off as usize,
                            image_count: (i_size / (IMAGE_STRIDE as int)) as usize,
                        },
                    )
                }
            },
        }
    }
}

impl Tables {
    /// The tables lie in `data` and their records are large enough for the fields that are read.
    pub open spec fn fit(self, data: Seq<u8>) -> bool {
        &&& spec_layout_for(self.version) == Some(self.layout)
        &&& self.methods + self.method_count * self.layout.method_stride <= data.len()
        &&& self.types + self.type_count * self.layout.type_stride <= data.len()
        &&& self.images + self.image_count * IMAGE_STRIDE <= data.len()
        &&& data.len() <= usize::MAX
        &&& self.method_count < u32::MAX
        &&& self.type_count < u32::MAX
        &&& self.image_count < u32::MAX
    }

    /// First type of image `img`.
    pub open spec fn type_start(self, data: Seq<u8>, img: int) -> int {
        bytes::u32_at(data, self.images + img * IMAGE_STRIDE + IMAGE_TYPE_START_OFF) as int
    }

    /// End of the types of image `img`, as far as 32 bits can say.
    pub open spec fn type_end(self, data: Seq<u8>, img: int) -> int {
        let end = self.type_start(data, img) + bytes::u32_at(
            data,
            self.images + img * IMAGE_STRIDE + IMAGE_TYPE_COUNT_OFF,
        );
        if end > u32::MAX {
            u32::MAX as int
        } else {
            end
        }
    }

    /// First method of type `ty`.
    pub open spec fn method_start(self, data: Seq<u8>, ty: int) -> int {
        bytes::u32_at(
            data,
            self.types + ty * self.layout.type_stride + self.layout.type_method_start_off,
        ) as int
    }

    /// Number of methods of type `ty`.
    pub open spec fn method_total(self, data: Seq<u8>, ty: int) -> int {
        bytes::u16_at(
            data,
            self.types + ty * self.layout.type_stride + self.layout.type_method_count_off,
        ) as int
    }

    /// Type `ty` has methods.
    pub open spec fn has_methods(self, data: Seq<u8>, ty: int) -> bool {
        self.method_start(data, ty) != NO_METHODS && self.method_total(data, ty) != 0
    }

    /// Type `ty` is one of image `img`.
    pub open spec fn in_image(self, data: Seq<u8>, img: int, ty: int) -> bool {
        self.type_start(data, img) <= ty < self.type_end(data, img)
    }

    /// Type `ty` of image `img` lists method `m`.
    pub open spec fn lists(self, data: Seq<u8>, img: int, ty: int, m: int) -> bool {
        &&& 0 <= img < self.image_count
        &&& self.in_image(data, img, ty)
        &&& self.has_methods(data, ty)
        &&& self.method_start(data, ty) <= m < self.method_start(data, ty) + self.method_total(
            data,
            ty,
        )
    }

    /// Image `img` owns method `m`.
    pub open spec fn owns(self, data: Seq<u8>, img: int, m: int) -> bool {
        exists|ty: int| self.lists(data, img, ty, m)
    }

    /// Images hold only types of the type table.
    pub open spec fn types_in_range(self, data: Seq<u8>) -> bool {
        forall|img: int, ty: int|
            0 <= img < self.image_count && #[trigger] self.in_image(data, img, ty) ==> ty
                < self.type_count
    }

    /// Types list only methods of the method table.
    pub open spec fn methods_in_range(self, data: Seq<u8>) -> bool {
        forall|img: int, ty: int, m: int|
            #[trigger] self.lists(data, img, ty, m) ==> m < self.method_count
    }

    /// No method is listed twice.
    pub open spec fn listed_once(self, data: Seq<u8>) -> bool {
        forall|img1: int, ty1: int, img2: int, ty2: int, m: int| #[trigger]
            self.lists(data, img1, ty1, m) && #[trigger] self.lists(data, img2, ty2, m) ==> img1
                == img2 && ty1 == ty2
    }

    /// Every method is owned by some image.
    pub open spec fn all_owned(self, data: Seq<u8>) -> bool {
        forall|m: int| 0 <= m < self.method_count ==> #[trigger] self.is_owned(data, m)
    }

    /// Some image owns method `m`.
    pub open spec fn is_owned(self, data: Seq<u8>, m: int) -> bool {
        exists|img: int| self.owns(data, img, m)
    }

    /// The tables assign every method to exactly one type of one image.
    pub open spec fn consistent(self, data: Seq<u8>) -> bool {
        &&& self.types_in_range(data)
        &&& self.methods_in_range(data)
        &&& self.listed_once(data)
        &&& self.all_owned(data)
    }

    /// `m` is the first method of image `img`.
    pub open spec fn is_first(self, data: Seq<u8>, img: int, m: int) -> bool {
        self.owns(data, img, m) && forall|k: int| #[trigger] self.owns(data, img, k) ==> m <= k
    }

    /// The image that owns method `m`.
    pub open spec fn owner(self, data: Seq<u8>, m: int) -> int {
        choose|img: int| self.owns(data, img, m)
    }

    /// The first method of image `img`.
    pub open spec fn first(self, data: Seq<u8>, img: int) -> int {
        choose|m: int| self.is_first(data, img, m)
    }

    /// Position of method `m` within its module.
    pub open spec fn local_index(self, data: Seq<u8>, m: int) -> int {
        m - self.first(data, self.owner(data, m))
    }

    /// The right token of method `m`.
    pub open spec fn token(self, data: Seq<u8>, m: int) -> u32 {
        token_of(self.local_index(data, m))
    }

    /// Where the token of method `m` stands.
    pub open spec fn token_place(self, m: int) -> int {
        self.methods + m * self.layout.method_stride + self.layout.method_token_off
    }

    /// The token of method `m` in `data` is not the right one.
    pub open spec fn is_wrong(self, data: Seq<u8>) -> spec_fn(int) -> bool {
        |m: int| bytes::u32_at(data, self.token_place(m)) != self.token(data, m)
    }

    /// Image `img` owns a method.
    pub open spec fn owns_any(self, data: Seq<u8>) -> spec_fn(int) -> bool {
        |img: int| exists|m: int| self.owns(data, img, m)
    }

    /// `data` with the right tokens in the first `count` methods.
    pub open spec fn with_tokens(self, data: Seq<u8>, count: int) -> Seq<u8> {
        Seq::new(
            data.len(),
            |i: int|
                {
                    let m = (i - self.methods) / (self.layout.method_stride as int);
                    let k = (i - self.methods) % (self.layout.method_stride as int)
                        - self.layout.method_token_off;
                    if self.methods <= i && m < count && 0 <= k < 4 {
                        bytes::u32_bytes(self.token(data, m))[k]
                    } else {
                        data[i]
                    }
                },
        )
    }
}

/// The token of the method at position `local` of its module.
pub open spec fn token_of(local: int) -> u32 {
    (METHOD_TOKEN_TABLE + (local + 1) % 0x100_0000) as u32
}

/// The metadata with every method token set right, and the report on it.
pub open spec fn spec_deobfuscate(data: Seq<u8>) -> Result<(Seq<u8>, Report), Error> {
    match spec_tables(data) {
        Err(e) => Err(e),
        Ok(tables) => if !tables.consistent(data) {
            Err(Error::Malformed)
        } else {
            Ok(
                (
                    tables.with_tokens(data, tables.method_count as int),
                    Report {
                        version: tables.version,
                        methods: tables.method_count,
                        remapped: fold::matching(
                            tables.method_count as nat,
                            tables.is_wrong(data),
                        ).len() as usize,
                        modules: fold::matching(
                            tables.image_count as nat,
                            tables.owns_any(data),
                        ).len() as usize,
                    },
                ),
            )
        },
    }
}

/// The first word is the metadata magic.
pub open spec fn spec_is_metadata(data: Seq<u8>) -> bool {
    data.len() >= 4 && bytes::u32_at(data, 0) == MAGIC
}

/// Cheap check for the metadata magic, for scanning prefixes.
pub fn is_metadata(data: &[u8]) -> (result: bool)
    ensures
        result == spec_is_metadata(data@),
{
    data.len() >= 4 && load_u32(data, 0) == MAGIC
}

/// Reads where the tables are.
fn read_tables(data: &[u8]) -> (result: Result<Tables, Error>)
    ensures
        result == spec_tables(data@),
        result matches Ok(tables) ==> tables.fit(data@),
{
    if !is_metadata(data) {
        return Err(Error::NotMetadata);
    }
    let length: usize = data.len();
    if length < 8 {
        return Err(Error::Malformed);
    }
    let version = load_u32(data, 4);
    let layout = match layout_for(version) {
        Some(layout) => layout,
        None => return Err(Error::UnsupportedVersion(version)),
    };
    if length < HDR_IMAGES || length < layout.hdr_images + 8 {
        return Err(Error::Malformed);
    }
    let m_off = load_u32(data, HDR_METHODS) as usize;
    let m_size = load_u32(data, HDR_METHODS + 4) as usize;
    let t_off = load_u32(data, HDR_TYPES) as usize;
    let t_size = load_u32(data, HDR_TYPES + 4) as usize;
    let i_off = load_u32(data, layout.hdr_images) as usize;
    let i_size = load_u32(data, layout.hdr_images + 4) as usize;
    if m_size % layout.method_stride != 0 || t_size % layout.type_stride != 0 || i_size
        % IMAGE_STRIDE != 0 {
        return Err(Error::Malformed);
    }
    if m_off > length || m_size > length - m_off || t_off > length || t_size > length - t_off
        || i_off > length || i_size > length - i_off {
        return Err(Error::Malformed);
    }
    Ok(
        Tables {
            version,
            layout,
            methods: m_off,
            method_count: m_size / layout.method_stride,
            types: t_off,
            type_count: t_size / layout.type_stride,
            images: i_off,
            image_count: i_size / IMAGE_STRIDE,
        },
    )
}

/// The type `ty` of image `img` comes before the type `ty0` of image `img0`.
spec fn comes_before(img: int, ty: int, img0: int, ty0: int) -> bool {
    img < img0 || (img == img0 && ty < ty0)
}

impl Tables {
    /// A type before `ty0` of image `img0` lists method `m`.
    spec fn claimed(self, data: Seq<u8>, img0: int, ty0: int, m: int) -> bool {
        exists|img: int, ty: int| #[trigger]
            self.lists(data, img, ty, m) && comes_before(img, ty, img0, ty0)
    }

    /// The types before `ty0` of image `img0` are consistent.
    spec fn settled(self, data: Seq<u8>, img0: int, ty0: int) -> bool {
        &&& forall|img: int, ty: int|
            0 <= img < self.image_count && #[trigger] self.in_image(data, img, ty) && comes_before(
                img,
                ty,
                img0,
                ty0,
            ) ==> ty < self.type_count
        &&& forall|img: int, ty: int, m: int| #[trigger]
            self.lists(data, img, ty, m) && comes_before(img, ty, img0, ty0) ==> m
                < self.method_count
        &&& forall|img1: int, ty1: int, img2: int, ty2: int, m: int| #[trigger]
            self.lists(data, img1, ty1, m) && #[trigger] self.lists(data, img2, ty2, m)
                && comes_before(img1, ty1, img0, ty0) && comes_before(img2, ty2, img0, ty0) ==> img1
                == img2 && ty1 == ty2
    }

    /// `module_of` records the owners that the types before `ty0` of image `img0` give.
    spec fn recorded(self, data: Seq<u8>, img0: int, ty0: int, module_of: Seq<u32>) -> bool {
        &&& module_of.len() == self.method_count
        &&& forall|m: int|
            0 <= m < self.method_count ==> (#[trigger] module_of[m] != u32::MAX <==> self.claimed(
                data,
                img0,
                ty0,
                m,
            ))
        &&& forall|m: int|
            0 <= m < self.method_count && #[trigger] module_of[m] != u32::MAX ==> self.owns(
                data,
                module_of[m] as int,
                m,
            )
    }

    /// `first` is the lowest method start among the types of image `img` before `ty0`.
    spec fn lowest(self, data: Seq<u8>, img: int, ty0: int, first: u32) -> bool {
        &&& forall|ty: int|
            ty < ty0 && #[trigger] self.in_image(data, img, ty) && self.has_methods(data, ty)
                ==> first <= self.method_start(data, ty)
        &&& first != u32::MAX ==> exists|ty: int|
            ty < ty0 && #[trigger] self.in_image(data, img, ty) && self.has_methods(data, ty)
                && first == self.method_start(data, ty)
    }
}

/// Fields of image and type records lie inside the file.
pub proof fn lemma_record_bounds(tables: Tables, data: Seq<u8>)
    requires
        tables.fit(data),
    ensures
        forall|img: int|
            0 <= img < tables.image_count ==> 0 <= #[trigger] (img * IMAGE_STRIDE) && tables.images
                + img * IMAGE_STRIDE + IMAGE_STRIDE <= data.len(),
        forall|ty: int|
            0 <= ty < tables.type_count ==> 0 <= #[trigger] (ty * tables.layout.type_stride)
                && tables.types + ty * tables.layout.type_stride + tables.layout.type_stride
                <= data.len(),
        forall|m: int|
            0 <= m < tables.method_count ==> 0 <= #[trigger] (m * tables.layout.method_stride)
                && tables.methods + m * tables.layout.method_stride + tables.layout.method_stride
                <= data.len(),
{
    let ts = tables.layout.type_stride as int;
    let ms = tables.layout.method_stride as int;
    assert forall|ty: int| 0 <= ty < tables.type_count implies 0 <= #[trigger] (ty * ts)
        && tables.types + ty * ts + ts <= data.len() by {
        assert(0 <= ty * ts && (ty + 1) * ts <= tables.type_count * ts && (ty + 1) * ts == ty * ts
            + ts) by (nonlinear_arith)
            requires
                0 <= ty < tables.type_count,
                ts > 0,
        ;
    }
    assert forall|m: int| 0 <= m < tables.method_count implies 0 <= #[trigger] (m * ms)
        && tables.methods + m * ms + ms <= data.len() by {
        assert(0 <= m * ms && (m + 1) * ms <= tables.method_count * ms && (m + 1) * ms == m * ms
            + ms) by (nonlinear_arith)
            requires
                0 <= m < tables.method_count,
                ms > 0,
        ;
    }
}

/// Records image `img` as the owner of the methods that type `ty` lists.
fn claim_type(
    data: &[u8],
    tables: &Tables,
    img: u32,
    ty: u32,
    first: u32,
    module_of: &mut Vec<u32>,
) -> (result: Result<u32, Error>)
    requires
        tables.fit(data@),
        img < tables.image_count,
        tables.in_image(data@, img as int, ty as int),
        tables.settled(data@, img as int, ty as int),
        tables.recorded(data@, img as int, ty as int, old(module_of)@),
        tables.lowest(data@, img as int, ty as int, first),
    ensures
        result matches Ok(lower) ==> {
            &&& tables.settled(data@, img as int, ty + 1)
            &&& tables.recorded(data@, img as int, ty + 1, final(module_of)@)
            &&& tables.lowest(data@, img as int, ty + 1, lower)
        },
        result matches Err(e) ==> e == Error::Malformed && !tables.consistent(data@),
{
    if ty as usize >= tables.type_count {
        return Err(Error::Malformed);
    }
    proof {
        lemma_record_bounds(*tables, data@);
    }
    let at: usize = tables.types + ty as usize * tables.layout.type_stride;
    let start = load_u32(data, at + tables.layout.type_method_start_off);
    let count = load_u16(data, at + tables.layout.type_method_count_off) as u32;
    if start == NO_METHODS || count == 0 {
        assert(forall|m: int| !tables.lists(data@, img as int, ty as int, m));
        assert(forall|m: int|
            tables.claimed(data@, img as int, ty + 1, m) <==> tables.claimed(
                data@,
                img as int,
                ty as int,
                m,
            ));
        return Ok(first);
    }
    let lower = if start < first { start } else { first };
    let end: u64 = start as u64 + count as u64;
    let ghost before = module_of@;
    let mut m: u64 = start as u64;
    while m < end
        invariant
            start <= m <= end,
            end == start + count,
            start == tables.method_start(data@, ty as int),
            count == tables.method_total(data@, ty as int),
            tables.has_methods(data@, ty as int),
            tables.fit(data@),
            img < tables.image_count,
            tables.in_image(data@, img as int, ty as int),
            tables.recorded(data@, img as int, ty as int, before),
            m > start ==> m <= tables.method_count,
            module_of@.len() == before.len(),
            forall|k: int|
                0 <= k < module_of@.len() ==> #[trigger] module_of@[k] == if start <= k < m {
                    img
                } else {
                    before[k]
                },
            forall|k: int| start <= k < m ==> #[trigger] before[k] == u32::MAX,
        decreases end - m,
    {
        assert(tables.lists(data@, img as int, ty as int, m as int));
        if m >= tables.method_count as u64 {
            return Err(Error::Malformed);
        }
        let mi = m as usize;
        if module_of[mi] != u32::MAX {
            proof {
                assert(before[m as int] != u32::MAX);
                let (img1, ty1) = choose|img1: int, ty1: int| #[trigger]
                    tables.lists(data@, img1, ty1, m as int) && comes_before(
                        img1,
                        ty1,
                        img as int,
                        ty as int,
                    );
                assert(tables.lists(data@, img1, ty1, m as int));
                assert(!tables.listed_once(data@));
            }
            return Err(Error::Malformed);
        }
        module_of.set(mi, img);
        m += 1;
    }
    proof {
        assert forall|k: int| 0 <= k < tables.method_count implies (#[trigger] module_of@[k]
            != u32::MAX <==> tables.claimed(data@, img as int, ty + 1, k)) by {
            if start <= k < end {
                assert(tables.lists(data@, img as int, ty as int, k));
            }
            if tables.claimed(data@, img as int, ty + 1, k) {
                let (img1, ty1) = choose|img1: int, ty1: int| #[trigger]
                    tables.lists(data@, img1, ty1, k) && comes_before(
                        img1,
                        ty1,
                        img as int,
                        ty + 1,
                    );
                assert(tables.lists(data@, img1, ty1, k));
            }
            if tables.claimed(data@, img as int, ty as int, k) {
                let (img1, ty1) = choose|img1: int, ty1: int| #[trigger]
                    tables.lists(data@, img1, ty1, k) && comes_before(
                        img1,
                        ty1,
                        img as int,
                        ty as int,
                    );
                assert(tables.lists(data@, img1, ty1, k));
                assert(comes_before(img1, ty1, img as int, ty + 1));
            }
        }
        assert forall|k: int|
            0 <= k < tables.method_count && #[trigger] module_of@[k] != u32::MAX implies tables.owns(
            data@,
            module_of@[k] as int,
            k,
        ) by {
            if start <= k < end {
                assert(tables.lists(data@, img as int, ty as int, k));
            } else {
                assert(before[k] != u32::MAX);
            }
        }
        assert forall|img1: int, ty1: int, img2: int, ty2: int, k: int| #[trigger]
            tables.lists(data@, img1, ty1, k) && #[trigger] tables.lists(data@, img2, ty2, k)
                && comes_before(img1, ty1, img as int, ty + 1) && comes_before(
                img2,
                ty2,
                img as int,
                ty + 1,
            ) implies img1 == img2 && ty1 == ty2 by {
            if start <= k < end {
                assert(before[k] == u32::MAX);
                assert(!tables.claimed(data@, img as int, ty as int, k));
            }
        }
    }
    Ok(lower)
}

/// Records image `img` as the owner of the methods that its types list. Hands back its first
/// method, or `u32::MAX` when it has none.
fn claim_image(data: &[u8], tables: &Tables, img: u32, module_of: &mut Vec<u32>) -> (result: Result<
    u32,
    Error,
>)
    requires
        tables.fit(data@),
        img < tables.image_count,
        tables.settled(data@, img as int, 0),
        tables.recorded(data@, img as int, 0, old(module_of)@),
    ensures
        result matches Ok(first) ==> {
            &&& tables.settled(data@, img + 1, 0)
            &&& tables.recorded(data@, img + 1, 0, final(module_of)@)
            &&& first != u32::MAX ==> tables.is_first(data@, img as int, first as int)
            &&& first == u32::MAX ==> !(tables.owns_any(data@))(img as int)
        },
        result matches Err(e) ==> e == Error::Malformed && !tables.consistent(data@),
{
    proof {
        lemma_record_bounds(*tables, data@);
    }
    let at: usize = tables.images + img as usize * IMAGE_STRIDE;
    let start = load_u32(data, at + IMAGE_TYPE_START_OFF);
    let end = start.saturating_add(load_u32(data, at + IMAGE_TYPE_COUNT_OFF));
    assert(start == tables.type_start(data@, img as int));
    assert(end == tables.type_end(data@, img as int));
    let mut first: u32 = u32::MAX;
    let mut ty: u32 = start;
    proof {
        lemma_skip_types(*tables, data@, img as int, 0, start as int, module_of@);
    }
    while ty < end
        invariant
            start <= ty <= end,
            start == tables.type_start(data@, img as int),
            end == tables.type_end(data@, img as int),
            tables.fit(data@),
            img < tables.image_count,
            tables.settled(data@, img as int, ty as int),
            tables.recorded(data@, img as int, ty as int, module_of@),
            tables.lowest(data@, img as int, ty as int, first),
        decreases end - ty,
    {
        first = claim_type(data, tables, img, ty, first, module_of)?;
        ty += 1;
    }
    proof {
        lemma_next_image(*tables, data@, img as int, end as int, module_of@);
        lemma_first_method(*tables, data@, img as int, first);
    }
    Ok(first)
}

/// Types that are not in an image change nothing.
proof fn lemma_skip_types(
    tables: Tables,
    data: Seq<u8>,
    img: int,
    from: int,
    to: int,
    module_of: Seq<u32>,
)
    requires
        0 <= from <= to,
        to <= tables.type_start(data, img),
        tables.settled(data, img, from),
        tables.recorded(data, img, from, module_of),
    ensures
        tables.settled(data, img, to),
        tables.recorded(data, img, to, module_of),
{
    assert forall|m: int| tables.claimed(data, img, to, m) == tables.claimed(
        data,
        img,
        from,
        m,
    ) by {
        if tables.claimed(data, img, to, m) {
            let (img1, ty1) = choose|img1: int, ty1: int| #[trigger]
                tables.lists(data, img1, ty1, m) && comes_before(img1, ty1, img, to);
            assert(tables.lists(data, img1, ty1, m) && comes_before(img1, ty1, img, from));
        }
        if tables.claimed(data, img, from, m) {
            let (img1, ty1) = choose|img1: int, ty1: int| #[trigger]
                tables.lists(data, img1, ty1, m) && comes_before(img1, ty1, img, from);
            assert(tables.lists(data, img1, ty1, m) && comes_before(img1, ty1, img, to));
        }
    }
}

/// Past the last type of an image comes the next image.
proof fn lemma_next_image(
    tables: Tables,
    data: Seq<u8>,
    img: int,
    end: int,
    module_of: Seq<u32>,
)
    requires
        end >= tables.type_end(data, img),
        tables.settled(data, img, end),
        tables.recorded(data, img, end, module_of),
    ensures
        tables.settled(data, img + 1, 0),
        tables.recorded(data, img + 1, 0, module_of),
{
    assert forall|img1: int, ty1: int| #[trigger]
        tables.in_image(data, img1, ty1) && comes_before(
            img1,
            ty1,
            img + 1,
            0,
        ) implies comes_before(img1, ty1, img, end) by {
    }
    assert forall|m: int| tables.claimed(data, img + 1, 0, m) == tables.claimed(
        data,
        img,
        end,
        m,
    ) by {
        if tables.claimed(data, img + 1, 0, m) {
            let (img1, ty1) = choose|img1: int, ty1: int| #[trigger]
                tables.lists(data, img1, ty1, m) && comes_before(img1, ty1, img + 1, 0);
            assert(tables.in_image(data, img1, ty1));
            assert(tables.lists(data, img1, ty1, m) && comes_before(img1, ty1, img, end));
        }
        if tables.claimed(data, img, end, m) {
            let (img1, ty1) = choose|img1: int, ty1: int| #[trigger]
                tables.lists(data, img1, ty1, m) && comes_before(img1, ty1, img, end);
            assert(tables.lists(data, img1, ty1, m) && comes_before(img1, ty1, img + 1, 0));
        }
    }
}

/// The lowest method start of an image's types is the image's first method.
proof fn lemma_first_method(tables: Tables, data: Seq<u8>, img: int, first: u32)
    requires
        0 <= img < tables.image_count,
        tables.lowest(data, img, tables.type_end(data, img), first) || tables.lowest(
            data,
            img,
            tables.type_start(data, img),
            first,
        ) && tables.type_start(data, img) >= tables.type_end(data, img),
    ensures
        first != u32::MAX ==> tables.is_first(data, img, first as int),
        first == u32::MAX ==> !(tables.owns_any(data))(img),
{
    assert forall|m: int| #[trigger] tables.owns(data, img, m) implies first <= m && first
        != u32::MAX by {
        let ty = choose|ty: int| tables.lists(data, img, ty, m);
        assert(tables.in_image(data, img, ty) && tables.has_methods(data, ty));
    }
    if first != u32::MAX {
        let ty = choose|ty: int| #[trigger]
            tables.in_image(data, img, ty) && tables.has_methods(data, ty) && first
                == tables.method_start(data, ty);
        assert(tables.lists(data, img, ty, first as int));
    }
}

/// Who owns each method, and where each image's methods start.
struct Owners {
    module_of: Vec<u32>,
    module_first: Vec<u32>,
}

impl Owners {
    /// The record is complete and right.
    spec fn complete(self, tables: Tables, data: Seq<u8>) -> bool {
        &&& self.module_of@.len() == tables.method_count
        &&& self.module_first@.len() == tables.image_count
        &&& forall|m: int|
            0 <= m < tables.method_count && #[trigger] self.module_of@[m] != u32::MAX ==> {
                &&& self.module_of@[m] == tables.owner(data, m)
                &&& tables.owns(data, self.module_of@[m] as int, m)
            }
        &&& forall|img: int|
            0 <= img < tables.image_count ==> (#[trigger] self.module_first@[img] != u32::MAX
                <==> (tables.owns_any(data))(img))
        &&& forall|img: int|
            0 <= img < tables.image_count && #[trigger] self.module_first@[img] != u32::MAX
                ==> tables.is_first(data, img, self.module_first@[img] as int)
    }
}

/// Finds the owner of every method.
fn find_owners(data: &[u8], tables: &Tables) -> (result: Result<Owners, Error>)
    requires
        tables.fit(data@),
    ensures
        result matches Ok(owners) ==> {
            &&& owners.complete(*tables, data@)
            &&& tables.types_in_range(data@)
            &&& tables.methods_in_range(data@)
            &&& tables.listed_once(data@)
            &&& forall|m: int|
                0 <= m < tables.method_count ==> (#[trigger] owners.module_of@[m] != u32::MAX
                    <==> tables.is_owned(data@, m))
        },
        result matches Err(e) ==> e == Error::Malformed && !tables.consistent(data@),
{
    let mut module_of: Vec<u32> = vec![u32::MAX; tables.method_count];
    let mut module_first: Vec<u32> = Vec::with_capacity(tables.image_count);
    let mut img: usize = 0;
    while img < tables.image_count
        invariant
            img <= tables.image_count,
            tables.fit(data@),
            tables.settled(data@, img as int, 0),
            tables.recorded(data@, img as int, 0, module_of@),
            module_first@.len() == img,
            forall|k: int|
                0 <= k < img ==> (#[trigger] module_first@[k] != u32::MAX <==> (tables.owns_any(
                    data@,
                ))(k)),
            forall|k: int|
                0 <= k < img && #[trigger] module_first@[k] != u32::MAX ==> tables.is_first(
                    data@,
                    k,
                    module_first@[k] as int,
                ),
        decreases tables.image_count - img,
    {
        let first = claim_image(data, tables, img as u32, &mut module_of)?;
        module_first.push(first);
        assert(first != u32::MAX ==> tables.owns(data@, img as int, first as int));
        img += 1;
    }
    let owners = Owners { module_of, module_first };
    proof {
        let count = tables.image_count as int;
        assert forall|m: int| 0 <= m < tables.method_count implies (
        #[trigger] owners.module_of@[m] != u32::MAX <==> tables.is_owned(data@, m)) by {
            if tables.is_owned(data@, m) {
                let img1 = choose|img1: int| tables.owns(data@, img1, m);
                let ty1 = choose|ty1: int| tables.lists(data@, img1, ty1, m);
                assert(tables.lists(data@, img1, ty1, m) && comes_before(img1, ty1, count, 0));
            }
        }
        assert forall|m: int|
            0 <= m < tables.method_count
                && #[trigger] owners.module_of@[m] != u32::MAX implies owners.module_of@[m]
            == tables.owner(data@, m) by {
            assert(tables.owns(data@, owners.module_of@[m] as int, m));
            let img1 = tables.owner(data@, m);
            let ty1 = choose|ty1: int| tables.lists(data@, img1, ty1, m);
            let ty2 = choose|ty2: int| tables.lists(data@, owners.module_of@[m] as int, ty2, m);
            assert(tables.lists(data@, img1, ty1, m));
            assert(tables.lists(data@, owners.module_of@[m] as int, ty2, m));
        }
    }
    Ok(owners)
}

/// A byte of the method table belongs to exactly one record.
pub proof fn lemma_record_of(tables: Tables, i: int, m: int)
    requires
        tables.layout.method_stride > 0,
        0 <= m,
        tables.methods <= i,
    ensures
        ((i - tables.methods) / (tables.layout.method_stride as int) == m) <==> (tables.methods + m
            * tables.layout.method_stride <= i < tables.methods + m * tables.layout.method_stride
            + tables.layout.method_stride),
        tables.methods + m * tables.layout.method_stride <= i < tables.methods + m
            * tables.layout.method_stride + tables.layout.method_stride ==> (i - tables.methods) % (
        tables.layout.method_stride as int) == i - tables.methods - m
            * tables.layout.method_stride,
{
    let d = tables.layout.method_stride as int;
    let x = i - tables.methods;
    vstd::arithmetic::div_mod::lemma_fundamental_div_mod(x, d);
    vstd::arithmetic::div_mod::lemma_mod_bound(x, d);
    vstd::arithmetic::mul::lemma_mul_is_commutative(d, x / d);
    if m * d <= x < m * d + d {
        vstd::arithmetic::div_mod::lemma_fundamental_div_mod_converse(x, d, m, x - m * d);
    }
}

/// Setting one more token right.
proof fn lemma_one_more_token(tables: Tables, data: Seq<u8>, m: int)
    requires
        tables.fit(data),
        0 <= m < tables.method_count,
    ensures
        tables.with_tokens(data, m + 1) == bytes::overwrite(
            tables.with_tokens(data, m),
            tables.token_place(m),
            bytes::u32_bytes(tables.token(data, m)),
        ),
        0 <= tables.token_place(m),
        tables.token_place(m) + 4 <= data.len(),
        bytes::u32_at(tables.with_tokens(data, m), tables.token_place(m)) == bytes::u32_at(
            data,
            tables.token_place(m),
        ),
{
    broadcast use bytes::group_bytes_len;

    lemma_record_bounds(tables, data);
    let place = tables.token_place(m);
    let d = tables.layout.method_stride as int;
    let a = tables.with_tokens(data, m);
    let b = tables.with_tokens(data, m + 1);
    let c = bytes::overwrite(a, place, bytes::u32_bytes(tables.token(data, m)));
    assert(0 <= m * d && tables.methods + m * d + d <= data.len());
    assert forall|i: int| 0 <= i < data.len() implies b[i] == c[i] by {
        if tables.methods <= i {
            lemma_record_of(tables, i, m);
        }
    }
    assert(b =~= c);
    assert forall|i: int| place <= i < place + 4 implies a[i] == data[i] by {
        lemma_record_of(tables, i, m);
    }
}

/// Writes the right token of every method. Hands back how many were wrong.
fn write_tokens(data: &[u8], tables: &Tables, owners: &Owners, out: &mut Vec<u8>) -> (remapped: usize)
    requires
        tables.fit(data@),
        owners.complete(*tables, data@),
        forall|m: int|
            0 <= m < tables.method_count ==> #[trigger] owners.module_of@[m] != u32::MAX,
        forall|m: int|
            0 <= m < tables.method_count ==> owners.module_of@[m] < tables.image_count,
        old(out)@ == data@,
    ensures
        final(out)@ == tables.with_tokens(data@, tables.method_count as int),
        remapped == fold::matching(
            tables.method_count as nat,
            tables.is_wrong(data@),
        ).len(),
{
    broadcast use bytes::group_bytes_len;

    let length: usize = data.len();
    let ghost wrong = tables.is_wrong(data@);
    assert(out@ =~= tables.with_tokens(data@, 0)) by {
        assert forall|i: int| tables.methods <= i < data@.len() implies #[trigger] data@[i]
            == tables.with_tokens(data@, 0)[i] by {
            vstd::arithmetic::div_mod::lemma_div_pos_is_pos(
                i - tables.methods,
                tables.layout.method_stride as int,
            );
        }
    }
    let mut remapped: usize = 0;
    let mut m: usize = 0;
    while m < tables.method_count
        invariant
            m <= tables.method_count,
            length == data@.len(),
            tables.fit(data@),
            owners.complete(*tables, data@),
            forall|k: int|
                0 <= k < tables.method_count ==> #[trigger] owners.module_of@[k] != u32::MAX,
            forall|k: int|
                0 <= k < tables.method_count ==> owners.module_of@[k] < tables.image_count,
            out@ == tables.with_tokens(data@, m as int),
            wrong == tables.is_wrong(data@),
            remapped <= m,
            remapped == fold::matching(m as nat, wrong).len(),
        decreases tables.method_count - m,
    {
        proof {
            lemma_one_more_token(*tables, data@, m as int);
            lemma_record_bounds(*tables, data@);
            lemma_local(*tables, data@, owners, m as int);
        }
        let img = owners.module_of[m];
        let first = owners.module_first[img as usize];
        let local: u32 = m as u32 - first;
        let token: u32 = METHOD_TOKEN_TABLE + (local + 1) % 0x100_0000;
        let place: usize = tables.methods + m * tables.layout.method_stride
            + tables.layout.method_token_off;
        if load_u32(out, place) != token {
            store(out, place, &bytes_of_u32(token));
            remapped += 1;
        } else {
            proof {
                bytes::lemma_u32_respelled(out@, place as int);
                assert(bytes::overwrite(out@, place as int, bytes::u32_bytes(token)) =~= out@) by {
                    assert forall|i: int| place <= i < place + 4 implies bytes::u32_bytes(
                        token,
                    )[i - place] == #[trigger] out@[i] by {
                        assert(out@.subrange(place as int, place + 4)[i - place] == out@[i]);
                    }
                }
            }
        }
        m += 1;
    }
    remapped
}

/// The recorded owner and first method give a method's position within its module.
proof fn lemma_local(tables: Tables, data: Seq<u8>, owners: &Owners, m: int)
    requires
        owners.complete(tables, data),
        0 <= m < tables.method_count,
        owners.module_of@[m] != u32::MAX,
        owners.module_of@[m] < tables.image_count,
    ensures
        owners.module_first@[owners.module_of@[m] as int] <= m,
        tables.local_index(data, m) == m - owners.module_first@[owners.module_of@[m] as int],
{
    let img = owners.module_of@[m] as int;
    assert(tables.owns(data, img, m));
    assert((tables.owns_any(data))(img));
    let first = owners.module_first@[img] as int;
    assert(tables.is_first(data, img, first));
    let chosen = tables.first(data, img);
    assert(tables.is_first(data, img, chosen));
    assert(tables.owns(data, img, chosen) && tables.owns(data, img, first));
}

/// Counts the images that own a method.
fn count_modules(data: &[u8], tables: &Tables, owners: &Owners) -> (modules: usize)
    requires
        owners.complete(*tables, data@),
    ensures
        modules == fold::matching(tables.image_count as nat, tables.owns_any(data@)).len(),
{
    let ghost keep = tables.owns_any(data@);
    let mut modules: usize = 0;
    let mut img: usize = 0;
    while img < tables.image_count
        invariant
            img <= tables.image_count,
            owners.complete(*tables, data@),
            keep == tables.owns_any(data@),
            modules <= img,
            modules == fold::matching(img as nat, keep).len(),
        decreases tables.image_count - img,
    {
        if owners.module_first[img] != u32::MAX {
            modules += 1;
        }
        img += 1;
    }
    modules
}

/// Sets every method token right.
///
/// Hands back the file with its tokens rewritten and a [`Report`]. On metadata whose tokens are
/// already right the bytes come back as they were and the report counts no rewritten token.
pub fn deobfuscate(data: &[u8]) -> (result: Result<(Vec<u8>, Report), Error>)
    ensures
        match (result, spec_deobfuscate(data@)) {
            (Ok((found, report)), Ok((wanted, expected))) => found@ == wanted && report == expected,
            (Err(found), Err(wanted)) => found == wanted,
            _ => false,
        },
{
    let tables = read_tables(data)?;
    let owners = find_owners(data, &tables)?;
    let mut m: usize = 0;
    while m < tables.method_count
        invariant
            m <= tables.method_count,
            owners.complete(tables, data@),
            spec_tables(data@) == Ok::<Tables, Error>(tables),
            forall|k: int|
                0 <= k < tables.method_count ==> (#[trigger] owners.module_of@[k] != u32::MAX
                    <==> tables.is_owned(data@, k)),
            forall|k: int| 0 <= k < m ==> #[trigger] owners.module_of@[k] != u32::MAX,
        decreases tables.method_count - m,
    {
        if owners.module_of[m] == u32::MAX {
            assert(!tables.is_owned(data@, m as int));
            return Err(Error::Malformed);
        }
        m += 1;
    }
    proof {
        assert forall|k: int| 0 <= k < tables.method_count implies #[trigger] tables.is_owned(
            data@,
            k,
        ) by {
            assert(owners.module_of@[k] != u32::MAX);
        }
        assert forall|k: int| 0 <= k < tables.method_count implies owners.module_of@[k]
            < tables.image_count by {
            let img = owners.module_of@[k] as int;
            assert(tables.owns(data@, img, k));
            let ty = choose|ty: int| tables.lists(data@, img, ty, k);
            assert(tables.lists(data@, img, ty, k));
        }
    }
    let mut out = copy_of(data);
    let remapped = write_tokens(data, &tables, &owners, &mut out);
    let modules = count_modules(data, &tables, &owners);
    Ok((out, Report { version: tables.version, methods: tables.method_count, remapped, modules }))
}

} // verus!
