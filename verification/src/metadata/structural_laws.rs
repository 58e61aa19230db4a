//! What restoring method tokens preserves.

use super::structural;
use super::structural::{
    lemma_record_bounds, lemma_record_of, Error, Report, Tables, HDR_METHODS, HDR_TYPES,
    IMAGE_STRIDE, IMAGE_TYPE_START_OFF,
};
use crate::bytes;
use crate::fold;
use vstd::prelude::*;

verus! {

impl Tables {
    /// Byte `i` belongs to the `size` bytes from `at` on.
    pub open spec fn within(i: int, at: int, size: int) -> bool {
        at <= i < at + size
    }

    /// The structure of the metadata is read from byte `i`.
    pub open spec fn is_structural(self, i: int) -> bool {
        ||| Self::within(i, 0, 8)
        ||| Self::within(i, HDR_METHODS as int, 8)
        ||| Self::within(i, HDR_TYPES as int, 8)
        ||| Self::within(i, self.layout.hdr_images as int, 8)
        ||| exists|img: int|
            0 <= img < self.image_count && Self::within(
                i,
                self.images + #[trigger] (img * IMAGE_STRIDE) + IMAGE_TYPE_START_OFF,
                8,
            )
        ||| exists|ty: int|
            0 <= ty < self.type_count && (Self::within(
                i,
                self.types + #[trigger] (ty * self.layout.type_stride)
                    + self.layout.type_method_start_off,
                4,
            ) || Self::within(
                i,
                self.types + ty * self.layout.type_stride + self.layout.type_method_count_off,
                2,
            ))
    }

    /// Byte `i` belongs to the token of a method.
    pub open spec fn is_token_byte(self, i: int) -> bool {
        exists|m: int|
            0 <= m < self.method_count && Self::within(i, #[trigger] self.token_place(m), 4)
    }
}

/// Tables that were read fit the file.
proof fn lemma_tables_fit(data: Seq<u8>)
    requires
        data.len() <= usize::MAX,
    ensures
        structural::spec_tables(data) matches Ok(tables) ==> tables.fit(data),
{
    if let Ok(tables) = structural::spec_tables(data) {
        let (m_off, m_size) = structural::table_at(data, HDR_METHODS as int);
        let (t_off, t_size) = structural::table_at(data, HDR_TYPES as int);
        let ms = tables.layout.method_stride as int;
        let ts = tables.layout.type_stride as int;
        vstd::arithmetic::div_mod::lemma_fundamental_div_mod(m_size, ms);
        vstd::arithmetic::div_mod::lemma_fundamental_div_mod(t_size, ts);
        vstd::arithmetic::mul::lemma_mul_is_commutative(ms, m_size / ms);
        vstd::arithmetic::mul::lemma_mul_is_commutative(ts, t_size / ts);
        assert(0 <= m_size / ms <= m_size / 2) by (nonlinear_arith)
            requires
                ms >= 2,
                m_size >= 0,
        ;
        assert(0 <= t_size / ts <= t_size / 2) by (nonlinear_arith)
            requires
                ts >= 2,
                t_size >= 0,
        ;
    }
}

/// Every method token of a restored file is the right one, and no other byte has changed.
pub proof fn law_only_tokens_change(data: Seq<u8>, i: int, m: int)
    requires
        data.len() <= usize::MAX,
        structural::spec_deobfuscate(data) is Ok,
    ensures
        ({
            let tables = structural::spec_tables(data)->Ok_0;
            let out = structural::spec_deobfuscate(data)->Ok_0.0;
            &&& out.len() == data.len()
            &&& 0 <= i < data.len() && !tables.is_token_byte(i) ==> out[i] == data[i]
            &&& 0 <= m < tables.method_count ==> bytes::u32_at(out, tables.token_place(m))
                == tables.token(data, m)
        }),
{
    broadcast use bytes::group_bytes_len;

    lemma_tables_fit(data);
    let tables = structural::spec_tables(data)->Ok_0;
    let out = structural::spec_deobfuscate(data)->Ok_0.0;
    let d = tables.layout.method_stride as int;
    lemma_record_bounds(tables, data);
    if 0 <= i < data.len() && !tables.is_token_byte(i) && tables.methods <= i {
        let k = (i - tables.methods) / d;
        vstd::arithmetic::div_mod::lemma_div_pos_is_pos(i - tables.methods, d);
        lemma_record_of(tables, i, k);
        if k < tables.method_count {
            assert(!Tables::within(i, tables.token_place(k), 4));
        }
    }
    if 0 <= m < tables.method_count {
        let place = tables.token_place(m);
        assert(0 <= m * d && tables.methods + m * d + d <= data.len());
        let spelled = bytes::u32_bytes(tables.token(data, m));
        assert forall|k: int| 0 <= k < 4 implies #[trigger] out.subrange(place, place + 4)[k]
            == spelled[k] by {
            lemma_record_of(tables, place + k, m);
        }
        assert(out.subrange(place, place + 4) =~= spelled);
        bytes::lemma_u32_spelled(out, place, tables.token(data, m));
    }
}

/// The report counts no rewritten token exactly when the file comes back unchanged.
pub proof fn law_unchanged_when_clean(data: Seq<u8>)
    requires
        data.len() <= usize::MAX,
        structural::spec_deobfuscate(data) is Ok,
    ensures
        ({
            let (out, report) = structural::spec_deobfuscate(data)->Ok_0;
            report.remapped == 0 <==> out == data
        }),
{
    lemma_tables_fit(data);
    let tables = structural::spec_tables(data)->Ok_0;
    let (out, report) = structural::spec_deobfuscate(data)->Ok_0;
    lemma_record_bounds(tables, data);
    fold::lemma_none_match(tables.method_count as nat, tables.is_wrong(data));
    assert forall|m: int| 0 <= m < tables.method_count implies bytes::u32_at(
        out,
        #[trigger] tables.token_place(m),
    ) == tables.token(data, m) by {
        law_only_tokens_change(data, 0, m);
    }
    law_only_tokens_change(data, 0, 0);
    if out == data {
        assert forall|m: int| 0 <= m < tables.method_count implies !#[trigger] (tables.is_wrong(
            data,
        ))(m) by {
            assert(bytes::u32_at(out, tables.token_place(m)) == tables.token(data, m));
        }
    }
    if report.remapped == 0 {
        let d = tables.layout.method_stride as int;
        assert forall|i: int| 0 <= i < data.len() implies #[trigger] out[i] == data[i] by {
            if tables.is_token_byte(i) {
                let m = choose|m: int|
                    0 <= m < tables.method_count && Tables::within(
                        i,
                        #[trigger] tables.token_place(m),
                        4,
                    );
                let place = tables.token_place(m);
                assert(0 <= m * d && tables.methods + m * d + d <= data.len());
                assert(!(tables.is_wrong(data))(m));
                bytes::lemma_u32_respelled(data, place);
                bytes::lemma_u32_respelled(out, place);
                assert(bytes::u32_at(out, place) == bytes::u32_at(data, place));
                assert(out.subrange(place, place + 4)[i - place] == data.subrange(
                    place,
                    place + 4,
                )[i - place]);
            } else {
                law_only_tokens_change(data, i, 0);
            }
        }
        assert(out =~= data);
    }
}

/// Files with the same structural bytes have the same structure.
proof fn lemma_same_structure(a: Seq<u8>, b: Seq<u8>, tables: Tables)
    requires
        a.len() == b.len() <= usize::MAX,
        structural::spec_tables(a) == Ok::<Tables, Error>(tables),
        tables.consistent(a),
        forall|i: int| 0 <= i < a.len() && #[trigger] tables.is_structural(i) ==> a[i] == b[i],
    ensures
        structural::spec_tables(b) == Ok::<Tables, Error>(tables),
        forall|img: int, ty: int, m: int| #[trigger]
            tables.lists(b, img, ty, m) == tables.lists(a, img, ty, m),
        tables.consistent(b),
{
    lemma_tables_fit(a);
    lemma_record_bounds(tables, a);
    assert forall|at: int, i: int|
        (at == 0 || at == HDR_METHODS || at == HDR_TYPES || at == tables.layout.hdr_images) && at
            <= i < at + 8 implies #[trigger] Tables::within(i, at, 8) && tables.is_structural(i) by {
    }
    assert forall|i: int| 0 <= i < 8 implies a[i] == b[i] by {
        assert(Tables::within(i, 0, 8));
    }
    assert forall|i: int| HDR_METHODS <= i < HDR_METHODS + 8 implies a[i] == b[i] by {
        assert(Tables::within(i, HDR_METHODS as int, 8));
    }
    assert forall|i: int| HDR_TYPES <= i < HDR_TYPES + 8 implies a[i] == b[i] by {
        assert(Tables::within(i, HDR_TYPES as int, 8));
    }
    assert forall|i: int|
        tables.layout.hdr_images <= i < tables.layout.hdr_images + 8 implies a[i] == b[i] by {
        assert(Tables::within(i, tables.layout.hdr_images as int, 8));
    }
    assert forall|img: int| 0 <= img < tables.image_count implies tables.type_start(a, img)
        == tables.type_start(b, img) && tables.type_end(a, img) == tables.type_end(b, img) by {
        let at = tables.images + img * IMAGE_STRIDE + IMAGE_TYPE_START_OFF;
        assert(0 <= img * IMAGE_STRIDE);
        assert forall|i: int| at <= i < at + 8 implies a[i] == b[i] by {
            assert(Tables::within(i, at, 8));
            assert(tables.is_structural(i));
        }
    }
    assert forall|ty: int| 0 <= ty < tables.type_count implies tables.method_start(a, ty)
        == tables.method_start(b, ty) && tables.method_total(a, ty) == tables.method_total(
        b,
        ty,
    ) by {
        let d = tables.layout.type_stride as int;
        let start = tables.types + ty * d + tables.layout.type_method_start_off;
        let count = tables.types + ty * d + tables.layout.type_method_count_off;
        assert(0 <= ty * d);
        assert forall|i: int| start <= i < start + 4 implies a[i] == b[i] by {
            assert(Tables::within(i, start, 4));
            assert(tables.is_structural(i));
        }
        assert forall|i: int| count <= i < count + 2 implies a[i] == b[i] by {
            assert(Tables::within(i, count, 2));
            assert(tables.is_structural(i));
        }
    }
    assert forall|img: int, ty: int, m: int| #[trigger]
        tables.lists(b, img, ty, m) == tables.lists(a, img, ty, m) by {
        if 0 <= img < tables.image_count {
            assert(tables.in_image(a, img, ty) == tables.in_image(b, img, ty));
            if tables.in_image(a, img, ty) {
                assert(0 <= ty < tables.type_count);
            }
        }
    }
    assert forall|img: int, ty: int|
        0 <= img < tables.image_count && #[trigger] tables.in_image(b, img, ty) implies ty
        < tables.type_count by {
        assert(tables.in_image(a, img, ty));
    }
    assert forall|img: int, ty: int, m: int| #[trigger] tables.lists(b, img, ty, m) implies m
        < tables.method_count by {
        assert(tables.lists(a, img, ty, m));
    }
    assert forall|img1: int, ty1: int, img2: int, ty2: int, m: int| #[trigger]
        tables.lists(b, img1, ty1, m) && #[trigger] tables.lists(
            b,
            img2,
            ty2,
            m,
        ) implies img1 == img2 && ty1 == ty2 by {
        assert(tables.lists(a, img1, ty1, m) && tables.lists(a, img2, ty2, m));
    }
    assert forall|m: int| 0 <= m < tables.method_count implies #[trigger] tables.is_owned(b, m) by {
        assert(tables.is_owned(a, m));
        let img = choose|img: int| tables.owns(a, img, m);
        let ty = choose|ty: int| tables.lists(a, img, ty, m);
        assert(tables.lists(b, img, ty, m));
        assert(tables.owns(b, img, m));
    }
}

/// The same lists give every image the same methods.
proof fn lemma_same_owns(a: Seq<u8>, b: Seq<u8>, tables: Tables, img: int, m: int)
    requires
        forall|img: int, ty: int, m: int| #[trigger]
            tables.lists(b, img, ty, m) == tables.lists(a, img, ty, m),
    ensures
        tables.owns(a, img, m) == tables.owns(b, img, m),
{
    if tables.owns(a, img, m) {
        let ty = choose|ty: int| tables.lists(a, img, ty, m);
        assert(tables.lists(b, img, ty, m));
    }
    if tables.owns(b, img, m) {
        let ty = choose|ty: int| tables.lists(b, img, ty, m);
        assert(tables.lists(a, img, ty, m));
    }
}

/// In a consistent file each image that owns a method has a first one.
proof fn lemma_first_exists(data: Seq<u8>, tables: Tables, img: int, m: int)
    requires
        tables.owns(data, img, m),
        m >= 0,
    ensures
        exists|f: int| tables.is_first(data, img, f),
    decreases m,
{
    if forall|k: int| #[trigger] tables.owns(data, img, k) ==> m <= k {
        assert(tables.is_first(data, img, m));
    } else {
        let k = choose|k: int| #[trigger] tables.owns(data, img, k) && k < m;
        let ty = choose|ty: int| tables.lists(data, img, ty, k);
        assert(tables.lists(data, img, ty, k));
        lemma_first_exists(data, tables, img, k);
    }
}

/// The same lists give every method the same token.
proof fn lemma_same_token(a: Seq<u8>, b: Seq<u8>, tables: Tables, m: int)
    requires
        forall|img: int, ty: int, m: int| #[trigger]
            tables.lists(b, img, ty, m) == tables.lists(a, img, ty, m),
        tables.consistent(a),
        0 <= m < tables.method_count,
    ensures
        tables.token(a, m) == tables.token(b, m),
{
    assert forall|img: int, k: int| tables.owns(a, img, k) == tables.owns(b, img, k) by {
        lemma_same_owns(a, b, tables, img, k);
    }
    assert(tables.is_owned(a, m));
    let img1 = tables.owner(a, m);
    assert(tables.owns(a, img1, m));
    assert(tables.owns(b, img1, m));
    let img2 = tables.owner(b, m);
    assert(tables.owns(b, img2, m));
    assert(tables.owns(a, img2, m));
    let ty1 = choose|ty: int| tables.lists(a, img1, ty, m);
    let ty2 = choose|ty: int| tables.lists(a, img2, ty, m);
    assert(tables.lists(a, img1, ty1, m) && tables.lists(a, img2, ty2, m));
    assert(img1 == img2);
    lemma_first_exists(a, tables, img1, m);
    let f1 = tables.first(a, img1);
    assert(tables.is_first(a, img1, f1));
    assert forall|k: int| #[trigger] tables.owns(b, img1, k) implies f1 <= k by {
        assert(tables.owns(a, img1, k));
    }
    assert(tables.is_first(b, img1, f1));
    let f2 = tables.first(b, img1);
    assert(tables.is_first(b, img1, f2));
    assert(tables.owns(b, img1, f1) && tables.owns(b, img1, f2));
}

/// Restoring a restored file changes nothing and counts no rewritten token, as long as rewriting
/// the tokens left the bytes alone that the structure is read from.
pub proof fn law_deobfuscate_is_idempotent(data: Seq<u8>)
    requires
        data.len() <= usize::MAX,
        structural::spec_deobfuscate(data) is Ok,
        ({
            let tables = structural::spec_tables(data)->Ok_0;
            let out = structural::spec_deobfuscate(data)->Ok_0.0;
            forall|i: int|
                0 <= i < data.len() && #[trigger] tables.is_structural(i) ==> data[i] == out[i]
        }),
    ensures
        ({
            let (out, report) = structural::spec_deobfuscate(data)->Ok_0;
            structural::spec_deobfuscate(out) == Ok::<(Seq<u8>, Report), Error>(
                (out, Report { remapped: 0, ..report }),
            )
        }),
{
    lemma_tables_fit(data);
    let tables = structural::spec_tables(data)->Ok_0;
    let (out, report) = structural::spec_deobfuscate(data)->Ok_0;
    law_only_tokens_change(data, 0, 0);
    lemma_same_structure(data, out, tables);
    fold::lemma_none_match(tables.method_count as nat, tables.is_wrong(out));
    assert forall|m: int| 0 <= m < tables.method_count implies !#[trigger] (tables.is_wrong(
        out,
    ))(m) by {
        law_only_tokens_change(data, 0, m);
        lemma_same_token(data, out, tables, m);
    }
    law_unchanged_when_clean(out);
    assert forall|img: int| #[trigger] (tables.owns_any(data))(img) == (tables.owns_any(out))(
        img,
    ) by {
        assert forall|m: int| tables.owns(data, img, m) == tables.owns(out, img, m) by {
            lemma_same_owns(data, out, tables, img, m);
        }
    }
    assert(tables.owns_any(data) =~= tables.owns_any(out));
}

/// Two methods of one module whose positions differ by less than the token row space get
/// different tokens.
pub proof fn law_tokens_of_a_module_differ(data: Seq<u8>, tables: Tables, m1: int, m2: int)
    requires
        tables.owner(data, m1) == tables.owner(data, m2),
        m1 < m2 < m1 + 0x100_0000,
    ensures
        tables.token(data, m1) != tables.token(data, m2),
{
    let f = tables.first(data, tables.owner(data, m1));
    let x = m1 - f + 1;
    let y = m2 - f + 1;
    assert(x % 0x100_0000 != y % 0x100_0000);
}

/// The 32-bit number at `at`.
pub open spec fn word(data: Seq<u8>, at: int) -> int {
    bytes::u32_at(data, at) as int
}

/// The file is of version 31, else of version 24.
pub open spec fn is_newer(data: Seq<u8>) -> bool {
    word(data, 4) == 31
}

/// Place of the image table's offset and size.
pub open spec fn images_at(data: Seq<u8>) -> int {
    if is_newer(data) {
        0xa8
    } else {
        0xb0
    }
}

/// Size of a method record.
pub open spec fn method_size(data: Seq<u8>) -> int {
    if is_newer(data) {
        0x24
    } else {
        0x34
    }
}

/// Place of the token of method `m`.
pub open spec fn token_at(data: Seq<u8>, m: int) -> int {
    if is_newer(data) {
        word(data, 0x30) + m * 0x24 + 0x18
    } else {
        word(data, 0x30) + m * 0x34 + 0x28
    }
}

/// Size of a type record.
pub open spec fn type_size(data: Seq<u8>) -> int {
    if is_newer(data) {
        0x58
    } else {
        0x64
    }
}

/// First method of type `ty`.
pub open spec fn first_method(data: Seq<u8>, ty: int) -> int {
    if is_newer(data) {
        word(data, word(data, 0xa0) + ty * 0x58 + 0x24)
    } else {
        word(data, word(data, 0xa0) + ty * 0x64 + 0x30)
    }
}

/// Number of methods of type `ty`.
pub open spec fn methods_of(data: Seq<u8>, ty: int) -> int {
    if is_newer(data) {
        bytes::u16_at(data, word(data, 0xa0) + ty * 0x58 + 0x40) as int
    } else {
        bytes::u16_at(data, word(data, 0xa0) + ty * 0x64 + 0x4c) as int
    }
}

/// First type of image `img`.
pub open spec fn first_type(data: Seq<u8>, img: int) -> int {
    word(data, word(data, images_at(data)) + img * 0x28 + 8)
}

/// Number of types of image `img`.
pub open spec fn types_of(data: Seq<u8>, img: int) -> int {
    word(data, word(data, images_at(data)) + img * 0x28 + 0xc)
}

/// Number of methods.
pub open spec fn method_total(data: Seq<u8>) -> int {
    word(data, 0x34) / method_size(data)
}

/// Number of types.
pub open spec fn type_total(data: Seq<u8>) -> int {
    word(data, 0xa4) / type_size(data)
}

/// Number of images.
pub open spec fn image_total(data: Seq<u8>) -> int {
    word(data, images_at(data) + 4) / 0x28
}

/// The file is metadata of a known version whose three tables lie in it and hold whole records.
pub open spec fn has_tables(data: Seq<u8>) -> bool {
    &&& data.len() >= 8
    &&& word(data, 0) == 0xfab1_1baf
    &&& word(data, 4) == 31 || word(data, 4) == 24
    &&& data.len() >= images_at(data) + 8
    &&& word(data, 0x34) % method_size(data) == 0
    &&& word(data, 0xa4) % type_size(data) == 0
    &&& word(data, images_at(data) + 4) % 0x28 == 0
    &&& word(data, 0x30) + word(data, 0x34) <= data.len()
    &&& word(data, 0xa0) + word(data, 0xa4) <= data.len()
    &&& word(data, images_at(data)) + word(data, images_at(data) + 4) <= data.len()
}

/// Image `img` holds type `ty`. No image reaches the last number of 32 bits.
pub open spec fn holds_type(data: Seq<u8>, img: int, ty: int) -> bool {
    &&& 0 <= img < image_total(data)
    &&& first_type(data, img) <= ty < first_type(data, img) + types_of(data, img)
    &&& ty < 0xffff_ffff
}

/// Method `m` belongs to type `ty` of image `img`: it is one of the methods from the type's first
/// method on, as many as the type says. A type whose first method is the last number of 32 bits
/// has none.
pub open spec fn belongs(data: Seq<u8>, img: int, ty: int, m: int) -> bool {
    &&& holds_type(data, img, ty)
    &&& first_method(data, ty) != 0xffff_ffff
    &&& first_method(data, ty) <= m < first_method(data, ty) + methods_of(data, ty)
}

/// Method `m` belongs to image `img`.
pub open spec fn is_method_of(data: Seq<u8>, img: int, m: int) -> bool {
    exists|ty: int| #[trigger] belongs(data, img, ty, m)
}

/// Method `m` belongs to some image.
pub open spec fn has_home(data: Seq<u8>, m: int) -> bool {
    exists|img: int| #[trigger] is_method_of(data, img, m)
}

/// The images hold only types that there are, the types have only methods that there are, and every
/// method belongs to one type of one image.
pub open spec fn fits_together(data: Seq<u8>) -> bool {
    &&& forall|img: int, ty: int| #[trigger] holds_type(data, img, ty) ==> ty < type_total(data)
    &&& forall|img: int, ty: int, m: int| #[trigger]
        belongs(data, img, ty, m) ==> m < method_total(data)
    &&& forall|img: int, ty: int, other: int, another: int, m: int| #[trigger]
        belongs(data, img, ty, m) && #[trigger] belongs(data, other, another, m) ==> img == other
            && ty == another
    &&& forall|m: int| 0 <= m < method_total(data) ==> #[trigger] has_home(data, m)
}

/// The tables that are read are those that the header gives.
proof fn lemma_tables_read(data: Seq<u8>)
    requires
        data.len() <= usize::MAX,
    ensures
        structural::spec_tables(data) is Ok <==> has_tables(data),
        structural::spec_tables(data) matches Ok(tables) ==> {
            &&& tables.version == word(data, 4)
            &&& tables.method_count == method_total(data)
            &&& tables.type_count == type_total(data)
            &&& tables.image_count == image_total(data)
            &&& tables.methods == word(data, 0x30)
            &&& tables.types == word(data, 0xa0)
            &&& tables.images == word(data, images_at(data))
            &&& tables.layout.method_stride == method_size(data)
            &&& tables.layout.type_stride == type_size(data)
            &&& forall|m: int| #[trigger] tables.token_place(m) == token_at(data, m)
            &&& forall|img: int, ty: int| #[trigger]
                holds_type(data, img, ty) <==> 0 <= img < tables.image_count && tables.in_image(
                    data,
                    img,
                    ty,
                )
            &&& forall|img: int, ty: int, m: int| #[trigger]
                belongs(data, img, ty, m) <==> tables.lists(data, img, ty, m)
            &&& forall|img: int, m: int| #[trigger]
                is_method_of(data, img, m) <==> tables.owns(data, img, m)
        },
{
    if let Ok(tables) = structural::spec_tables(data) {
        lemma_tables_fit(data);
        assert forall|img: int, ty: int| #[trigger] holds_type(data, img, ty) <==> 0 <= img
            < tables.image_count && tables.in_image(data, img, ty) by {
        }
        assert forall|img: int, ty: int, m: int| #[trigger]
            belongs(data, img, ty, m) <==> tables.lists(data, img, ty, m) by {
            assert(holds_type(data, img, ty) <==> 0 <= img < tables.image_count && tables.in_image(
                data,
                img,
                ty,
            ));
        }
        assert forall|img: int, m: int| #[trigger] is_method_of(data, img, m) <==> tables.owns(
            data,
            img,
            m,
        ) by {
            if is_method_of(data, img, m) {
                let ty = choose|ty: int| #[trigger] belongs(data, img, ty, m);
                assert(tables.lists(data, img, ty, m));
            }
            if tables.owns(data, img, m) {
                let ty = choose|ty: int| tables.lists(data, img, ty, m);
                assert(belongs(data, img, ty, m));
            }
        }
    }
}

/// Consistent tables are tables that fit together.
proof fn lemma_consistency(data: Seq<u8>)
    requires
        data.len() <= usize::MAX,
        has_tables(data),
    ensures
        structural::spec_tables(data)->Ok_0.consistent(data) <==> fits_together(data),
{
    lemma_tables_read(data);
    let tables = structural::spec_tables(data)->Ok_0;
    if tables.consistent(data) {
        assert forall|img: int, ty: int| #[trigger] holds_type(data, img, ty) implies ty
            < type_total(data) by {
            assert(tables.in_image(data, img, ty));
        }
        assert forall|img: int, ty: int, m: int| #[trigger] belongs(data, img, ty, m) implies m
            < method_total(data) by {
            assert(tables.lists(data, img, ty, m));
        }
        assert forall|img: int, ty: int, other: int, another: int, m: int| #[trigger]
            belongs(data, img, ty, m) && #[trigger] belongs(
                data,
                other,
                another,
                m,
            ) implies img == other && ty == another by {
            assert(tables.lists(data, img, ty, m) && tables.lists(data, other, another, m));
        }
        assert forall|m: int| 0 <= m < method_total(data) implies #[trigger] has_home(data, m) by {
            assert(tables.is_owned(data, m));
            let img = choose|img: int| tables.owns(data, img, m);
            assert(is_method_of(data, img, m));
        }
    }
    if fits_together(data) {
        assert forall|img: int, ty: int|
            0 <= img < tables.image_count && #[trigger] tables.in_image(data, img, ty) implies ty
            < tables.type_count by {
            assert(holds_type(data, img, ty));
        }
        assert forall|img: int, ty: int, m: int| #[trigger]
            tables.lists(data, img, ty, m) implies m < tables.method_count by {
            assert(belongs(data, img, ty, m));
        }
        assert forall|img: int, ty: int, other: int, another: int, m: int| #[trigger]
            tables.lists(data, img, ty, m) && #[trigger] tables.lists(
                data,
                other,
                another,
                m,
            ) implies img == other && ty == another by {
            assert(belongs(data, img, ty, m) && belongs(data, other, another, m));
        }
        assert forall|m: int| 0 <= m < tables.method_count implies #[trigger] tables.is_owned(
            data,
            m,
        ) by {
            assert(has_home(data, m));
            let img = choose|img: int| #[trigger] is_method_of(data, img, m);
            assert(tables.owns(data, img, m));
        }
    }
}

/// Metadata is accepted exactly when it has its tables and they fit together. What is no metadata,
/// or is of another version, is refused as such.
pub proof fn law_fitting_metadata_is_accepted(data: Seq<u8>)
    requires
        data.len() <= usize::MAX,
    ensures
        structural::spec_deobfuscate(data) is Ok <==> has_tables(data) && fits_together(data),
        structural::spec_deobfuscate(data) == Err::<(Seq<u8>, Report), Error>(Error::NotMetadata)
            <==> data.len() < 4 || word(data, 0) != 0xfab1_1baf,
        forall|version: u32|
            structural::spec_deobfuscate(data) == Err::<(Seq<u8>, Report), Error>(
                Error::UnsupportedVersion(version),
            ) <==> data.len() >= 8 && word(data, 0) == 0xfab1_1baf && word(data, 4) == version
                && version != 31 && version != 24,
{
    lemma_tables_read(data);
    if has_tables(data) {
        lemma_consistency(data);
    }
}

/// The token of a method is its position among the methods of its image, counted from one on, in
/// the table of methods: with `first` the lowest method of the image, method `first` has token
/// 0x06000001, the next one 0x06000002, and so on.
pub proof fn law_tokens_count_from_one(data: Seq<u8>, img: int, first: int, m: int)
    requires
        data.len() <= usize::MAX,
        structural::spec_deobfuscate(data) is Ok,
        is_method_of(data, img, m),
        is_method_of(data, img, first),
        forall|k: int| #[trigger] is_method_of(data, img, k) ==> first <= k,
    ensures
        ({
            let (out, report) = structural::spec_deobfuscate(data)->Ok_0;
            &&& word(out, token_at(data, m)) == 0x0600_0000 + (m - first + 1) % 0x100_0000
            &&& report.version == word(data, 4)
            &&& report.methods == method_total(data)
        }),
{
    lemma_tables_read(data);
    lemma_consistency(data);
    let tables = structural::spec_tables(data)->Ok_0;
    let ty = choose|ty: int| #[trigger] belongs(data, img, ty, m);
    assert(belongs(data, img, ty, m));
    assert(0 <= m < method_total(data));
    law_only_tokens_change(data, 0, m);
    assert(tables.owns(data, img, m));
    let owner = tables.owner(data, m);
    assert(tables.owns(data, owner, m));
    assert(is_method_of(data, owner, m));
    let other = choose|ty: int| #[trigger] belongs(data, owner, ty, m);
    assert(belongs(data, owner, other, m));
    assert(owner == img);
    assert forall|k: int| #[trigger] tables.owns(data, img, k) implies first <= k by {
        assert(is_method_of(data, img, k));
    }
    assert(tables.owns(data, img, first));
    assert(tables.is_first(data, img, first));
    let chosen = tables.first(data, img);
    assert(tables.is_first(data, img, chosen));
    assert(tables.owns(data, img, chosen));
    assert(is_method_of(data, img, chosen));
    assert(tables.token_place(m) == token_at(data, m));
}

/// No byte changes that is not part of a method's token, and the report counts the tokens that do
/// and the images that have methods.
pub proof fn law_tokens_alone_change(data: Seq<u8>, i: int)
    requires
        data.len() <= usize::MAX,
        structural::spec_deobfuscate(data) is Ok,
        0 <= i < data.len(),
        forall|m: int|
            0 <= m < method_total(data) ==> !(#[trigger] token_at(data, m) <= i < token_at(data, m)
                + 4),
    ensures
        structural::spec_deobfuscate(data)->Ok_0.0.len() == data.len(),
        structural::spec_deobfuscate(data)->Ok_0.0[i] == data[i],
{
    lemma_tables_read(data);
    let tables = structural::spec_tables(data)->Ok_0;
    assert(!tables.is_token_byte(i)) by {
        if tables.is_token_byte(i) {
            let m = choose|m: int|
                0 <= m < tables.method_count && Tables::within(
                    i,
                    #[trigger] tables.token_place(m),
                    4,
                );
            assert(tables.token_place(m) == token_at(data, m));
        }
    }
    law_only_tokens_change(data, i, 0);
}

/// The two predicates agree below `n`, so as many numbers satisfy them.
pub proof fn lemma_same_matching(n: nat, a: spec_fn(int) -> bool, b: spec_fn(int) -> bool)
    requires
        forall|i: int| 0 <= i < n ==> #[trigger] a(i) == b(i),
    ensures
        fold::matching(n, a) == fold::matching(n, b),
    decreases n,
{
    if n > 0 {
        lemma_same_matching((n - 1) as nat, a, b);
        assert(a(n - 1) == b(n - 1));
    }
}

/// The report counts the methods whose token is not what it was, and the images that have a
/// method.
pub proof fn law_report_counts(data: Seq<u8>)
    requires
        data.len() <= usize::MAX,
        structural::spec_deobfuscate(data) is Ok,
    ensures
        ({
            let (out, report) = structural::spec_deobfuscate(data)->Ok_0;
            &&& report.remapped == fold::matching(
                method_total(data) as nat,
                |m: int| word(out, token_at(data, m)) != word(data, token_at(data, m)),
            ).len()
            &&& report.modules == fold::matching(
                image_total(data) as nat,
                |img: int| exists|m: int| #[trigger] is_method_of(data, img, m),
            ).len()
        }),
{
    lemma_tables_read(data);
    let tables = structural::spec_tables(data)->Ok_0;
    let (out, report) = structural::spec_deobfuscate(data)->Ok_0;
    let changed = |m: int| word(out, token_at(data, m)) != word(data, token_at(data, m));
    let wrong = tables.is_wrong(data);
    assert forall|m: int| 0 <= m < tables.method_count implies #[trigger] wrong(m) == changed(
        m,
    ) by {
        law_only_tokens_change(data, 0, m);
        assert(tables.token_place(m) == token_at(data, m));
    }
    lemma_same_matching(tables.method_count as nat, wrong, changed);
    let peopled = |img: int| exists|m: int| #[trigger] is_method_of(data, img, m);
    let owning = tables.owns_any(data);
    assert forall|img: int| 0 <= img < tables.image_count implies #[trigger] owning(img) == peopled(
        img,
    ) by {
        if owning(img) {
            let m = choose|m: int| tables.owns(data, img, m);
            assert(is_method_of(data, img, m));
        }
        if peopled(img) {
            let m = choose|m: int| #[trigger] is_method_of(data, img, m);
            assert(tables.owns(data, img, m));
        }
    }
    lemma_same_matching(tables.image_count as nat, owning, peopled);
    fold::lemma_none_match(tables.method_count as nat, wrong);
    fold::lemma_none_match(tables.image_count as nat, owning);
}

/// The pieces from `starts(k)` to `starts(k + 1)` lie end to end from `0` to `total`.
pub open spec fn is_tiling(starts: spec_fn(int) -> int, n: int, total: int) -> bool {
    &&& n >= 0
    &&& starts(0) == 0
    &&& starts(n) == total
    &&& forall|k: int| 0 <= k < n ==> #[trigger] starts(k) <= starts(k + 1)
}

/// The starts of pieces that lie end to end never fall.
proof fn lemma_tiling_rises(starts: spec_fn(int) -> int, n: int, total: int, i: int, j: int)
    requires
        is_tiling(starts, n, total),
        0 <= i <= j <= n,
    ensures
        starts(i) <= starts(j),
    decreases j - i,
{
    if i < j {
        lemma_tiling_rises(starts, n, total, i, j - 1);
        assert(starts(j - 1) <= starts(j - 1 + 1));
    }
}

/// Every number below the total lies in one of the first `n` pieces that lie end to end.
proof fn lemma_tile_of(starts: spec_fn(int) -> int, n: int, m: int) -> (k: int)
    requires
        n >= 0,
        starts(0) == 0,
        0 <= m < starts(n),
    ensures
        0 <= k < n,
        starts(k) <= m < starts(k + 1),
    decreases n,
{
    if starts(n - 1) <= m {
        n - 1
    } else {
        lemma_tile_of(starts, n - 1, m)
    }
}

/// Where the methods of type `ty` start when the types' methods lie end to end.
pub open spec fn method_edge(data: Seq<u8>) -> spec_fn(int) -> int {
    |ty: int|
        if ty < type_total(data) {
            first_method(data, ty)
        } else {
            method_total(data)
        }
}

/// Where the types of image `img` start when the images' types lie end to end.
pub open spec fn type_edge(data: Seq<u8>) -> spec_fn(int) -> int {
    |img: int|
        if img < image_total(data) {
            first_type(data, img)
        } else {
            type_total(data)
        }
}

/// The methods of the types lie end to end and so do the types of the images, each from where it
/// says on and as many as it says.
pub open spec fn lies_end_to_end(data: Seq<u8>) -> bool {
    &&& is_tiling(method_edge(data), type_total(data), method_total(data))
    &&& is_tiling(type_edge(data), image_total(data), type_total(data))
    &&& forall|ty: int|
        0 <= ty < type_total(data) ==> #[trigger] first_method(data, ty) + methods_of(data, ty) == (
        method_edge(data))(ty + 1)
    &&& forall|img: int|
        0 <= img < image_total(data) ==> #[trigger] first_type(data, img) + types_of(data, img) == (
        type_edge(data))(img + 1)
}

/// The type and the image of a method when everything lies end to end.
proof fn lemma_home_of(data: Seq<u8>, m: int) -> (home: (int, int))
    requires
        data.len() <= usize::MAX,
        has_tables(data),
        lies_end_to_end(data),
        0 <= m < method_total(data),
    ensures
        belongs(data, home.0, home.1, m),
{
    lemma_tables_read(data);
    lemma_tables_fit(data);
    let ty = lemma_tile_of(method_edge(data), type_total(data), m);
    let img = lemma_tile_of(type_edge(data), image_total(data), ty);
    assert(first_method(data, ty) + methods_of(data, ty) == (method_edge(data))(ty + 1));
    assert(first_type(data, img) + types_of(data, img) == (type_edge(data))(img + 1));
    assert(belongs(data, img, ty, m));
    (img, ty)
}

/// When everything lies end to end, a method has one home.
proof fn lemma_one_home(data: Seq<u8>, img: int, ty: int, other: int, another: int, m: int)
    requires
        data.len() <= usize::MAX,
        has_tables(data),
        lies_end_to_end(data),
        belongs(data, img, ty, m),
        belongs(data, other, another, m),
    ensures
        img == other && ty == another,
        ty < type_total(data),
        m < method_total(data),
{
    lemma_tables_read(data);
    lemma_tables_fit(data);
    let (types, images) = (type_edge(data), image_total(data));
    let (methods, count) = (method_edge(data), type_total(data));
    assert(first_type(data, img) + types_of(data, img) == types(img + 1));
    assert(first_type(data, other) + types_of(data, other) == types(other + 1));
    lemma_tiling_rises(types, images, count, img + 1, images);
    lemma_tiling_rises(types, images, count, other + 1, images);
    assert(first_method(data, ty) + methods_of(data, ty) == methods(ty + 1));
    assert(first_method(data, another) + methods_of(data, another) == methods(another + 1));
    lemma_tiling_rises(methods, count, method_total(data), ty + 1, count);
    if ty < another {
        lemma_tiling_rises(methods, count, method_total(data), ty + 1, another);
    }
    if another < ty {
        lemma_tiling_rises(methods, count, method_total(data), another + 1, ty);
    }
    if img < other {
        lemma_tiling_rises(types, images, count, img + 1, other);
    }
    if other < img {
        lemma_tiling_rises(types, images, count, other + 1, img);
    }
}

/// Metadata whose types' methods lie end to end, and whose images' types do, is accepted, however
/// few methods a type has, and each method's token is its one-based position in its image.
pub proof fn law_tiled_metadata_is_restored(data: Seq<u8>, img: int, ty: int, m: int)
    requires
        data.len() <= usize::MAX,
        has_tables(data),
        lies_end_to_end(data),
        belongs(data, img, ty, m),
    ensures
        structural::spec_deobfuscate(data) matches Ok((out, report)) && word(
            out,
            token_at(data, m),
        ) == 0x0600_0000 + (m - first_method(data, first_type(data, img)) + 1) % 0x100_0000,
{
    lemma_tables_read(data);
    lemma_tables_fit(data);
    assert forall|img: int, ty: int| #[trigger] holds_type(data, img, ty) implies ty < type_total(
        data,
    ) by {
        let (types, images) = (type_edge(data), image_total(data));
        assert(first_type(data, img) + types_of(data, img) == types(img + 1));
        lemma_tiling_rises(types, images, type_total(data), img + 1, images);
    }
    assert forall|img: int, ty: int, m: int| #[trigger] belongs(data, img, ty, m) implies m
        < method_total(data) by {
        lemma_one_home(data, img, ty, img, ty, m);
    }
    assert forall|img: int, ty: int, other: int, another: int, m: int| #[trigger]
        belongs(data, img, ty, m) && #[trigger] belongs(
            data,
            other,
            another,
            m,
        ) implies img == other && ty == another by {
        lemma_one_home(data, img, ty, other, another, m);
    }
    assert forall|m: int| 0 <= m < method_total(data) implies #[trigger] has_home(data, m) by {
        let home = lemma_home_of(data, m);
        assert(is_method_of(data, home.0, m));
    }
    law_fitting_metadata_is_accepted(data);
    let start = first_type(data, img);
    let first = first_method(data, start);
    let (methods, count) = (method_edge(data), type_total(data));
    lemma_one_home(data, img, ty, img, ty, m);
    lemma_tiling_rises(methods, count, method_total(data), start, ty);
    lemma_tiling_rises(methods, count, method_total(data), 0, start);
    let home = lemma_tile_of(methods, count, first);
    assert(first_method(data, home) + methods_of(data, home) == methods(home + 1));
    if home < start {
        lemma_tiling_rises(methods, count, method_total(data), home + 1, start);
    }
    if home > ty {
        lemma_tiling_rises(methods, count, method_total(data), ty + 1, home);
        assert(first_method(data, ty) + methods_of(data, ty) == methods(ty + 1));
    }
    assert(belongs(data, img, home, first));
    assert(is_method_of(data, img, first));
    assert(is_method_of(data, img, m));
    assert forall|k: int| #[trigger] is_method_of(data, img, k) implies first <= k by {
        let kind = choose|kind: int| #[trigger] belongs(data, img, kind, k);
        assert(belongs(data, img, kind, k));
        lemma_one_home(data, img, kind, img, kind, k);
        lemma_tiling_rises(methods, count, method_total(data), start, kind);
    }
    law_tokens_count_from_one(data, img, first, m);
}

} // verus!
