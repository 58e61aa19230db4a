//! What restoring method indices preserves.

use super::method_indices;
use super::method_indices::{lemma_restored, MethodIndexError, ReportModel};
use crate::bytes;
use crate::fold;
use vstd::prelude::*;

verus! {

/// One round maps the numbers below `count` to numbers below `count`, no two of them to one.
proof fn lemma_round(a: int, b: int, count: int, key: int)
    requires
        0 <= a < count,
        0 <= b < count,
        0 <= key < count,
    ensures
        0 <= method_indices::spec_round(a, count, key) < count,
        a != b ==> method_indices::spec_round(a, count, key) != method_indices::spec_round(
            b,
            count,
            key,
        ),
{
}

/// The transform is a permutation: it maps the numbers below `count` to numbers below `count`,
/// and no two of them to one.
pub proof fn law_transform_is_a_permutation(a: u32, b: u32, count: u32, seed: u32)
    requires
        2 <= count <= u32::MAX / 2,
        a < count,
        b < count,
        a != b,
    ensures
        method_indices::spec_transform_index(a, count, seed) is Ok,
        method_indices::spec_transform_index(b, count, seed) is Ok,
        method_indices::spec_transform_index(a, count, seed)->Ok_0 < count,
        method_indices::spec_transform_index(a, count, seed)->Ok_0
            != method_indices::spec_transform_index(b, count, seed)->Ok_0,
{
    let n = count as int;
    let half = (count / 2) as u32;
    assert(seed % half < half) by (nonlinear_arith)
        requires
            half > 0,
    ;
    let key = method_indices::key_of(seed, count);
    lemma_round(a as int, b as int, n, key);
    let (a1, b1) = (
        method_indices::spec_round(a as int, n, key),
        method_indices::spec_round(b as int, n, key),
    );
    lemma_round(b as int, a as int, n, key);
    lemma_round(a1, b1, n, key);
    lemma_round(b1, a1, n, key);
    let (a2, b2) = (
        method_indices::spec_round(a1, n, key),
        method_indices::spec_round(b1, n, key),
    );
    lemma_round(a2, b2, n, key);
    lemma_round(b2, a2, n, key);
    let (a3, b3) = (
        method_indices::spec_round(a2, n, key),
        method_indices::spec_round(b2, n, key),
    );
    lemma_round(a3, b3, n, key);
    lemma_round(b3, a3, n, key);
    let (a4, b4) = (
        method_indices::spec_round(a3, n, key),
        method_indices::spec_round(b3, n, key),
    );
    lemma_round(a4, b4, n, key);
    lemma_round(b4, a4, n, key);
}

/// The rotation that a seed gives: what the seed leaves when it is divided by half the count, and a
/// quarter of the count.
pub open spec fn rotation(count: int, seed: int) -> int {
    seed % (count / 2) + count / 4
}

/// One round of the protector: a place moves up by `turn`, around the end to the start, and is
/// then unfolded. Places of the front half become the even numbers in order, places of the back
/// half the odd ones in reverse.
pub open spec fn protector_round(place: int, count: int, turn: int) -> int {
    let moved = if place + turn < count {
        place + turn
    } else {
        place + turn - count
    };
    if 2 * moved < count {
        2 * moved
    } else {
        2 * (count - moved) - 1
    }
}

/// What the protector makes of `place` in `rounds` rounds.
pub open spec fn protector(place: int, count: int, turn: int, rounds: nat) -> int
    decreases rounds,
{
    if rounds == 0 {
        place
    } else {
        protector_round(protector(place, count, turn, (rounds - 1) as nat), count, turn)
    }
}

/// One round is undone by one round of the protector, and the other way around.
proof fn lemma_round_undone(value: int, count: int, turn: int)
    requires
        0 <= value < count,
        0 <= turn < count,
    ensures
        0 <= method_indices::spec_round(value, count, turn) < count,
        protector_round(method_indices::spec_round(value, count, turn), count, turn) == value,
        0 <= protector_round(value, count, turn) < count,
        method_indices::spec_round(protector_round(value, count, turn), count, turn) == value,
{
}

/// The rotation is below the count.
proof fn lemma_rotation(count: u32, seed: u32)
    requires
        2 <= count,
    ensures
        method_indices::key_of(seed, count) == rotation(count as int, seed as int),
        0 <= rotation(count as int, seed as int) < count,
{
    let half = (count / 2) as int;
    assert(0 <= seed as int % half < half) by (nonlinear_arith)
        requires
            half > 0,
    ;
}

/// The transform undoes the protector's permutation: five rounds of the protector take its result
/// back to where it came from.
pub proof fn law_transform_undoes_the_protector(value: u32, count: u32, seed: u32)
    requires
        2 <= count <= 0x7fff_ffff,
        value < count,
    ensures
        method_indices::spec_transform_index(value, count, seed) matches Ok(place) && place < count
            && protector(place as int, count as int, rotation(count as int, seed as int), 5)
            == value,
{
    let (n, turn) = (count as int, rotation(count as int, seed as int));
    lemma_rotation(count, seed);
    reveal_with_fuel(protector, 6);
    let a = method_indices::spec_round(value as int, n, turn);
    let b = method_indices::spec_round(a, n, turn);
    let c = method_indices::spec_round(b, n, turn);
    let d = method_indices::spec_round(c, n, turn);
    lemma_round_undone(value as int, n, turn);
    lemma_round_undone(a, n, turn);
    lemma_round_undone(b, n, turn);
    lemma_round_undone(c, n, turn);
    lemma_round_undone(d, n, turn);
}

/// What the protector did to a number in its five rounds, the transform undoes.
pub proof fn law_protected_numbers_come_back(place: u32, count: u32, seed: u32)
    requires
        2 <= count <= 0x7fff_ffff,
        place < count,
    ensures
        ({
            let value = protector(
                place as int,
                count as int,
                rotation(count as int, seed as int),
                5,
            );
            &&& 0 <= value < count
            &&& method_indices::spec_transform_index(value as u32, count, seed) == Ok::<
                u32,
                MethodIndexError,
            >(place)
        }),
{
    let (n, turn) = (count as int, rotation(count as int, seed as int));
    lemma_rotation(count, seed);
    reveal_with_fuel(protector, 6);
    let a = protector_round(place as int, n, turn);
    let b = protector_round(a, n, turn);
    let c = protector_round(b, n, turn);
    let d = protector_round(c, n, turn);
    lemma_round_undone(place as int, n, turn);
    lemma_round_undone(a, n, turn);
    lemma_round_undone(b, n, turn);
    lemma_round_undone(c, n, turn);
    lemma_round_undone(d, n, turn);
}

/// There is a permutation for every count from two on whose double fits in 32 bits, and for no
/// other.
pub proof fn law_transform_succeeds(value: u32, count: u32, seed: u32)
    ensures
        method_indices::spec_transform_index(value, count, seed) is Ok <==> 2 <= count
            <= 0x7fff_ffff,
{
}

/// A number and its mirror image below twice the count go to the same place.
pub proof fn law_mirrored_numbers_meet(value: u32, count: u32, seed: u32)
    requires
        2 <= count <= 0x7fff_ffff,
        value < 2 * count,
    ensures
        method_indices::spec_transform_index(value, count, seed)
            == method_indices::spec_transform_index((2 * count - 1 - value) as u32, count, seed),
{
    let n = count as int;
    let key = method_indices::key_of(seed, count);
    assert(method_indices::spec_round(value as int, n, key) == method_indices::spec_round(
        2 * n - 1 - value,
        n,
        key,
    ));
}

/// The values among the first `n` entries.
spec fn values_before(indices: Seq<Option<u32>>, n: int) -> Set<int>
    decreases n,
{
    if n <= 0 {
        Set::empty()
    } else if indices[n - 1] is Some {
        values_before(indices, n - 1).insert(indices[n - 1]->0 as int)
    } else {
        values_before(indices, n - 1)
    }
}

/// Distinct entries give as many values as there are active entries.
proof fn lemma_values_before(indices: Seq<Option<u32>>, n: int)
    requires
        0 <= n <= indices.len(),
        method_indices::distinct(indices),
    ensures
        values_before(indices, n).finite(),
        values_before(indices, n).len() == method_indices::active_before(indices, n),
        forall|v: int| #[trigger]
            values_before(indices, n).contains(v) <==> exists|i: int|
                0 <= i < n && #[trigger] indices[i] is Some && indices[i]->0 == v,
    decreases n,
{
    if n > 0 {
        lemma_values_before(indices, n - 1);
        assert forall|v: int| #[trigger] values_before(indices, n).contains(v) <==> exists|i: int|
            0 <= i < n && #[trigger] indices[i] is Some && indices[i]->0 == v by {
            if values_before(indices, n - 1).contains(v) {
                let i = choose|i: int|
                    0 <= i < n - 1 && #[trigger] indices[i] is Some && indices[i]->0 == v;
                assert(indices[i] is Some);
            }
            if indices[n - 1] is Some && indices[n - 1]->0 == v {
                assert(indices[n - 1] is Some);
            }
        }
    }
}

/// A complete permutation hits every number below the number of active entries.
pub proof fn law_permutation_covers(indices: Seq<Option<u32>>, value: int)
    requires
        method_indices::is_permutation(indices),
        0 <= value < method_indices::active_count(indices),
    ensures
        method_indices::present(indices, value),
{
    let n = indices.len() as int;
    let values = values_before(indices, n);
    let count = method_indices::active_count(indices);
    lemma_values_before(indices, n);
    let all = vstd::set_lib::set_int_range(0, count);
    vstd::set_lib::lemma_int_range(0, count);
    assert(values.subset_of(all));
    vstd::set_lib::lemma_subset_equality(values, all);
    assert(values.contains(value));
}

/// Byte `i` belongs to the index of an active method.
pub open spec fn is_index_byte(
    offset: int,
    values: Seq<Option<u32>>,
    i: int,
) -> bool {
    exists|m: int|
        0 <= m < values.len() && #[trigger] values[m] is Some && method_indices::index_place(
            offset,
            m,
        ) <= i < method_indices::index_place(offset, m) + 4
}

/// Reading back indices that were written.
proof fn lemma_written_indices(
    data: Seq<u8>,
    offset: int,
    values: Seq<Option<u32>>,
    m: int,
)
    requires
        0 <= offset,
        0 <= m < values.len(),
        offset + values.len() * 0x34 <= data.len(),
        values[m] is Some ==> values[m]->0 < 0x8000_0000,
        values[m] is None ==> method_indices::index_at(data, offset, m) is None,
    ensures
        method_indices::index_at(
            method_indices::with_indices(data, offset, values, values.len() as int),
            offset,
            m,
        ) == values[m],
{
    broadcast use bytes::group_bytes_len;

    let out = method_indices::with_indices(data, offset, values, values.len() as int);
    let place = method_indices::index_place(offset, m);
    assert forall|i: int| place <= i < place + 4 implies (#[trigger] (i - offset)) / 0x34 == m && (i
        - offset) % 0x34 - 0x14 == i - place by {
    }
    match values[m] {
        Some(value) => {
            assert(out.subrange(place, place + 4) =~= bytes::u32_bytes(value)) by {
                assert forall|k: int| 0 <= k < 4 implies #[trigger] out.subrange(
                    place,
                    place + 4,
                )[k] == bytes::u32_bytes(value)[k] by {
                    let i = place + k;
                    assert((i - offset) / 0x34 == m);
                }
            }
            bytes::lemma_u32_spelled(out, place, value);
        },
        None => {
            assert forall|i: int| place <= i < place + 4 implies #[trigger] out[i] == data[i] by {
                assert((i - offset) / 0x34 == m);
            }
        },
    }
}

/// Restoring changes nothing but the indices of active methods.
pub proof fn law_only_indices_change(data: Seq<u8>, module: Seq<u8>, i: int)
    requires
        method_indices::spec_restore(data, module) is Ok,
        0 <= i < data.len() <= usize::MAX,
        ({
            let (offset, indices) = method_indices::spec_method_indices(data)->Ok_0;
            !is_index_byte(offset as int, indices, i)
        }),
    ensures
        method_indices::spec_restore(data, module)->Ok_0.0.len() == data.len(),
        method_indices::spec_restore(data, module)->Ok_0.0[i] == data[i],
{
    let (offset, indices) = method_indices::spec_method_indices(data)->Ok_0;
    if !method_indices::is_permutation(indices) {
        let seed = method_indices::spec_profile(module, indices)->Ok_0;
        lemma_profile_restores(module, indices);
        lemma_restored(module, indices, seed);
        let values = method_indices::restored(module, indices, seed);
        let m = (i - offset) / 0x34;
        if offset <= i && m < indices.len() && values[m] is Some {
            assert(indices[m] is Some);
            assert(!(method_indices::index_place(offset as int, m) <= i
                < method_indices::index_place(offset as int, m) + 4));
        }
    }
}

/// The seed that is chosen restores the indices.
proof fn lemma_profile_restores(module: Seq<u8>, indices: Seq<Option<u32>>)
    ensures
        method_indices::spec_profile(module, indices) matches Ok(seed)
            ==> method_indices::seed_restores(module, indices, seed),
{
    if method_indices::spec_profile(module, indices) is Ok {
        let seed = choose|seed: u32| method_indices::seed_matches(module, indices, seed);
        assert(method_indices::seed_matches(module, indices, seed));
    }
}

/// The bytes of the header that lead to the method table are the same.
pub open spec fn same_header(a: Seq<u8>, b: Seq<u8>) -> bool {
    forall|i: int| 0 <= i < 8 || 0x30 <= i < 0x38 ==> #[trigger] a[i] == b[i]
}

/// Restored indices form a complete permutation, and no method became active or inactive, as long
/// as writing them left the header alone.
pub proof fn law_restored_indices_are_a_permutation(data: Seq<u8>, module: Seq<u8>)
    requires
        data.len() <= usize::MAX,
        method_indices::spec_restore(data, module) is Ok,
        same_header(data, method_indices::spec_restore(data, module)->Ok_0.0),
    ensures
        ({
            let out = method_indices::spec_restore(data, module)->Ok_0.0;
            let before = method_indices::spec_method_indices(data)->Ok_0.1;
            &&& method_indices::spec_method_indices(out) is Ok
            &&& method_indices::is_permutation(method_indices::spec_method_indices(out)->Ok_0.1)
            &&& method_indices::spec_method_indices(out)->Ok_0.1.len() == before.len()
            &&& forall|m: int|
                0 <= m < before.len() ==> (#[trigger] before[m] is Some
                    <==> method_indices::spec_method_indices(out)->Ok_0.1[m] is Some)
        }),
{
    let (offset, indices) = method_indices::spec_method_indices(data)->Ok_0;
    let out = method_indices::spec_restore(data, module)->Ok_0.0;
    if !method_indices::is_permutation(indices) {
        let seed = method_indices::spec_profile(module, indices)->Ok_0;
        lemma_profile_restores(module, indices);
        lemma_restored(module, indices, seed);
        let values = method_indices::restored(module, indices, seed);
        assert(method_indices::is_permutation(values)) by {
            reveal(method_indices::seed_restores);
        }
        assert(method_indices::spec_method_table(out) == method_indices::spec_method_table(data));
        let again = method_indices::indices_at(out, offset as int, indices.len());
        lemma_few_active(indices, indices.len() as int);
        assert forall|m: int| 0 <= m < indices.len() implies again[m] == values[m] by {
            assert(indices[m] is Some <==> values[m] is Some);
            lemma_written_indices(data, offset as int, values, m);
        }
        assert(again =~= values);
    }
}

/// There are no more active entries than entries.
proof fn lemma_few_active(indices: Seq<Option<u32>>, n: int)
    requires
        0 <= n,
    ensures
        0 <= method_indices::active_before(indices, n) <= n,
    decreases n,
{
    if n > 0 {
        lemma_few_active(indices, n - 1);
    }
}

/// Restoring restored metadata, with whatever module, changes nothing and reports it clean, as
/// long as writing the indices left the header alone.
pub proof fn law_restore_is_idempotent(data: Seq<u8>, module: Seq<u8>, other: Seq<u8>)
    requires
        data.len() <= usize::MAX,
        method_indices::spec_restore(data, module) is Ok,
        same_header(data, method_indices::spec_restore(data, module)->Ok_0.0),
    ensures
        ({
            let (out, report) = method_indices::spec_restore(data, module)->Ok_0;
            method_indices::spec_restore(out, other) matches Ok((again, second)) && again == out
                && second.changed_indices == 0 && second.seed == "clean"@ && second.methods
                == report.methods
        }),
{
    law_restored_indices_are_a_permutation(data, module);
}

/// The report counts no changed index exactly when the metadata comes back unchanged because its
/// indices already were a complete permutation.
pub proof fn law_clean_when_no_index_changed(data: Seq<u8>, module: Seq<u8>)
    requires
        data.len() <= usize::MAX,
        method_indices::spec_restore(data, module) is Ok,
    ensures
        ({
            let (out, report) = method_indices::spec_restore(data, module)->Ok_0;
            let indices = method_indices::spec_method_indices(data)->Ok_0.1;
            &&& report.changed_indices == 0 <==> method_indices::is_permutation(indices)
            &&& report.changed_indices == 0 ==> out == data
        }),
{
    let (offset, indices) = method_indices::spec_method_indices(data)->Ok_0;
    if !method_indices::is_permutation(indices) {
        let seed = method_indices::spec_profile(module, indices)->Ok_0;
        lemma_profile_restores(module, indices);
        lemma_restored(module, indices, seed);
        let values = method_indices::restored(module, indices, seed);
        assert(method_indices::is_permutation(values)) by {
            reveal(method_indices::seed_restores);
        }
        let changed = method_indices::differs(values, indices);
        fold::lemma_none_match(indices.len(), changed);
        if fold::matching(indices.len(), changed).len() == 0 {
            assert forall|m: int| 0 <= m < indices.len() implies values[m] == indices[m] by {
                assert(!changed(m));
            }
            assert(values =~= indices);
        }
    }
}

/// The index word of method `m`.
pub open spec fn index_word(data: Seq<u8>, m: int) -> u32 {
    bytes::u32_at(data, bytes::u32_at(data, 0x30) + m * 0x34 + 0x14)
}

/// Number of methods.
pub open spec fn methods_in(data: Seq<u8>) -> nat {
    (bytes::u32_at(data, 0x34) / 0x34) as nat
}

/// Method `m` is active: its index is not negative.
pub open spec fn is_active_method(data: Seq<u8>, m: int) -> bool {
    index_word(data, m) < 0x8000_0000
}

/// How many of the first `n` methods are active.
pub open spec fn active_among(data: Seq<u8>, n: nat) -> int
    decreases n,
{
    if n == 0 {
        0
    } else if is_active_method(data, n - 1) {
        active_among(data, (n - 1) as nat) + 1
    } else {
        active_among(data, (n - 1) as nat)
    }
}

/// Number of active methods.
pub open spec fn active_total(data: Seq<u8>) -> int {
    active_among(data, methods_in(data))
}

/// The file is metadata of version 24 whose method table lies in it and holds whole records.
pub open spec fn has_method_table(data: Seq<u8>) -> bool {
    &&& data.len() >= 0x38
    &&& bytes::u32_at(data, 0) == 0xfab1_1baf
    &&& bytes::u32_at(data, 4) == 24
    &&& bytes::u32_at(data, 0x30) + bytes::u32_at(data, 0x34) <= data.len()
    &&& bytes::u32_at(data, 0x34) % 0x34 == 0
}

/// The values of the active methods are the numbers below their count, each once.
pub open spec fn is_numbering(data: Seq<u8>, values: spec_fn(int) -> int) -> bool {
    &&& active_total(data) > 0
    &&& forall|m: int|
        0 <= m < methods_in(data) && is_active_method(data, m) ==> 0 <= #[trigger] values(m)
            < active_total(data)
    &&& forall|m: int, k: int|
        0 <= m < k < methods_in(data) && is_active_method(data, m) && is_active_method(data, k)
            ==> #[trigger] values(m) != #[trigger] values(k)
}

/// The indices as they stand in the file.
pub open spec fn stored(data: Seq<u8>) -> spec_fn(int) -> int {
    |m: int| index_word(data, m) as int
}

/// The index of method `m` without the permutation that `seed` gives.
pub open spec fn unprotected(data: Seq<u8>, seed: u32, m: int) -> int {
    method_indices::spec_transform_index(
        index_word(data, m),
        active_total(data) as u32,
        seed,
    )->Ok_0 as int
}

/// Entry `j` of the exception table at `at`.
pub open spec fn entry(module: Seq<u8>, at: int, j: int) -> int {
    bytes::u32_at(module, at + j * 4) as int
}

/// The index that method `m` gets: the first active methods take the entries of the exception table
/// in order, the others what the permutation leaves.
pub open spec fn replaced(data: Seq<u8>, module: Seq<u8>, seed: u32, at: int) -> spec_fn(
    int,
) -> int {
    |m: int|
        if active_among(data, m as nat) < 256 {
            entry(module, at, active_among(data, m as nat))
        } else {
            unprotected(data, seed, m)
        }
}

/// Word `k` of the module is `seed` and stands in front of the word 24, with another byte behind.
pub open spec fn names_seed(module: Seq<u8>, k: int, seed: u32) -> bool {
    0 <= k && k * 4 + 8 < module.len() && bytes::u32_at(module, k * 4) == seed && bytes::u32_at(
        module,
        k * 4 + 4,
    ) == 24
}

/// Some active method has the index `value` without the permutation that `seed` gives.
pub open spec fn occurs(data: Seq<u8>, seed: u32, value: int) -> bool {
    exists|m: int|
        0 <= m < methods_in(data) && is_active_method(data, m) && #[trigger] unprotected(
            data,
            seed,
            m,
        ) == value
}

/// The module has `seed`, and at `at`, behind the word 1 and the number of the last active method,
/// a table of 256 different indices that do not occur without the permutation; with them in place
/// of the first active methods' indices, every index occurs once.
pub open spec fn is_profile(data: Seq<u8>, module: Seq<u8>, seed: u32, at: int) -> bool {
    &&& exists|k: int| #[trigger] names_seed(module, k, seed)
    &&& 8 <= at && at % 4 == 0 && at + 1024 <= module.len()
    &&& bytes::u32_at(module, at - 8) == 1
    &&& bytes::u32_at(module, at - 4) == active_total(data) - 1
    &&& forall|m: int|
        0 <= m < methods_in(data) && is_active_method(data, m) ==> #[trigger] unprotected(
            data,
            seed,
            m,
        ) < active_total(data)
    &&& forall|j: int|
        0 <= j < 256 ==> #[trigger] entry(module, at, j) < active_total(data) && !occurs(
            data,
            seed,
            entry(module, at, j),
        )
    &&& forall|i: int, j: int|
        0 <= i < j < 256 ==> #[trigger] entry(module, at, i) != #[trigger] entry(module, at, j)
    &&& is_numbering(data, replaced(data, module, seed, at))
}

/// The module has a profile with `seed`.
pub open spec fn has_profile(data: Seq<u8>, module: Seq<u8>, seed: u32) -> bool {
    exists|at: int| #[trigger] is_profile(data, module, seed, at)
}

/// The active methods are counted alike.
proof fn lemma_active_among(data: Seq<u8>, indices: Seq<Option<u32>>, n: nat)
    requires
        n <= indices.len(),
        forall|m: int|
            0 <= m < indices.len() ==> (#[trigger] indices[m] is Some <==> is_active_method(
                data,
                m,
            )),
    ensures
        method_indices::active_before(indices, n as int) == active_among(data, n),
        0 <= active_among(data, n) <= n,
    decreases n,
{
    if n > 0 {
        lemma_active_among(data, indices, (n - 1) as nat);
        assert(indices[n - 1] is Some <==> is_active_method(data, n - 1));
    }
}

/// The indices that are read are those of the method table.
proof fn lemma_indices_read(data: Seq<u8>)
    requires
        data.len() <= usize::MAX,
    ensures
        method_indices::spec_method_indices(data) is Ok <==> has_method_table(data),
        method_indices::spec_method_indices(data) matches Ok((offset, indices)) ==> {
            &&& offset == bytes::u32_at(data, 0x30)
            &&& indices.len() == methods_in(data)
            &&& forall|m: int|
                0 <= m < indices.len() ==> #[trigger] indices[m] == if is_active_method(data, m) {
                    Some(index_word(data, m))
                } else {
                    None
                }
            &&& method_indices::active_count(indices) == active_total(data)
            &&& forall|m: int|
                0 <= m <= indices.len() ==> #[trigger] method_indices::active_before(indices, m)
                    == active_among(data, m as nat)
            &&& 0 <= active_total(data) <= methods_in(data) < 0x7fff_ffff
        },
{
    if let Ok((offset, indices)) = method_indices::spec_method_indices(data) {
        assert forall|m: int| 0 <= m < indices.len() implies #[trigger] indices[m]
            == if is_active_method(data, m) {
            Some(index_word(data, m))
        } else {
            None
        } by {
        }
        lemma_active_among(data, indices, indices.len());
        assert forall|m: int| 0 <= m <= indices.len() implies #[trigger] method_indices::active_before(
            indices,
            m,
        ) == active_among(data, m as nat) by {
            lemma_active_among(data, indices, m as nat);
        }
    }
}

/// Being a permutation is being a numbering.
proof fn lemma_numbering(
    data: Seq<u8>,
    list: Seq<Option<u32>>,
    values: spec_fn(int) -> int,
)
    requires
        data.len() <= usize::MAX,
        has_method_table(data),
        list.len() == methods_in(data),
        forall|m: int|
            0 <= m < list.len() ==> (#[trigger] list[m] is Some <==> is_active_method(data, m)),
        forall|m: int| 0 <= m < list.len() && #[trigger] list[m] is Some ==> list[m]->0 == values(m),
    ensures
        method_indices::is_permutation(list) <==> is_numbering(data, values),
{
    lemma_indices_read(data);
    lemma_active_among(data, list, list.len());
    let n = active_total(data);
    if method_indices::is_permutation(list) {
        assert forall|m: int| 0 <= m < methods_in(data) && is_active_method(data, m) implies 0
            <= #[trigger] values(m) < n by {
            assert(list[m] is Some);
        }
        assert forall|m: int, k: int|
            0 <= m < k < methods_in(data) && is_active_method(data, m) && is_active_method(
                data,
                k,
            ) implies #[trigger] values(m) != #[trigger] values(k) by {
            assert(list[m] is Some && list[k] is Some);
        }
    }
    if is_numbering(data, values) {
        assert forall|m: int| 0 <= m < list.len() && #[trigger] list[m] is Some implies list[m]->0
            < method_indices::active_count(list) by {
            assert(0 <= values(m) < n);
        }
        assert forall|m: int, k: int|
            0 <= m < k < list.len() && #[trigger] list[m] is Some
                && #[trigger] list[k] is Some implies list[m]->0 != list[k]->0 by {
            assert(values(m) != values(k));
        }
    }
}

/// Metadata whose indices are the numbers below their count, each once, comes back as it is and is
/// reported clean, whatever the module.
pub proof fn law_clean_metadata_stays(data: Seq<u8>, module: Seq<u8>)
    requires
        data.len() <= usize::MAX,
        has_method_table(data),
        is_numbering(data, stored(data)),
    ensures
        method_indices::spec_restore(data, module) == Ok::<(Seq<u8>, ReportModel), MethodIndexError>(
            (
                data,
                ReportModel {
                    version: 24,
                    methods: methods_in(data) as usize,
                    active_methods: active_total(data) as usize,
                    changed_indices: 0,
                    exception_count: 0,
                    seed: "clean"@,
                },
            ),
        ),
{
    lemma_indices_read(data);
    let indices = method_indices::spec_method_indices(data)->Ok_0.1;
    lemma_numbering(data, indices, stored(data));
}

/// Where an exception table is found.
proof fn lemma_found_table(module: Seq<u8>, at: int, values: Seq<Option<u32>>, place: int)
    ensures
        method_indices::find_table(module, at, values) matches Some(found) ==> {
            &&& at <= found
            &&& (found - at) % 4 == 0
            &&& found + 1024 <= module.len()
            &&& method_indices::table_fits(module, found, values)
        },
        at <= place && (place - at) % 4 == 0 && place + 1024 <= module.len()
            && method_indices::table_fits(module, place, values) ==> method_indices::find_table(
            module,
            at,
            values,
        ) is Some,
    decreases module.len() - at,
{
    if at + 1024 <= module.len() && !method_indices::table_fits(module, at, values) {
        lemma_found_table(module, at + 4, values, place);
    }
}

/// The values without the permutation, as a list.
proof fn lemma_unprotected(data: Seq<u8>, seed: u32)
    requires
        data.len() <= usize::MAX,
        has_method_table(data),
        active_total(data) >= 2,
    ensures
        ({
            let indices = method_indices::spec_method_indices(data)->Ok_0.1;
            let values = method_indices::transformed(indices, seed);
            &&& values.len() == methods_in(data)
            &&& forall|m: int|
                0 <= m < values.len() ==> (#[trigger] values[m] is Some <==> is_active_method(
                    data,
                    m,
                ))
            &&& forall|m: int|
                0 <= m < values.len() && #[trigger] values[m] is Some ==> values[m]->0
                    == unprotected(data, seed, m)
            &&& method_indices::active_count(values) == active_total(data)
            &&& forall|m: int|
                0 <= m <= values.len() ==> #[trigger] method_indices::active_before(values, m)
                    == active_among(data, m as nat)
            &&& forall|v: int| #[trigger] method_indices::present(values, v) <==> occurs(
                data,
                seed,
                v,
            )
        }),
{
    lemma_indices_read(data);
    let indices = method_indices::spec_method_indices(data)->Ok_0.1;
    let values = method_indices::transformed(indices, seed);
    assert forall|m: int| 0 <= m < values.len() implies (#[trigger] values[m] is Some
        <==> is_active_method(data, m)) by {
        assert(indices[m] is Some <==> is_active_method(data, m));
    }
    assert forall|m: int| 0 <= m < values.len() && #[trigger] values[m] is Some implies values[m]->0
        == unprotected(data, seed, m) by {
        assert(indices[m] == Some(index_word(data, m)));
    }
    lemma_active_among(data, values, values.len());
    assert forall|m: int| 0 <= m <= values.len() implies #[trigger] method_indices::active_before(
        values,
        m,
    ) == active_among(data, m as nat) by {
        lemma_active_among(data, values, m as nat);
    }
    assert forall|v: int| #[trigger] method_indices::present(values, v) <==> occurs(
        data,
        seed,
        v,
    ) by {
        if method_indices::present(values, v) {
            let m = choose|m: int|
                0 <= m < values.len() && #[trigger] values[m] is Some && values[m]->0 == v;
            assert(unprotected(data, seed, m) == v);
        }
        if occurs(data, seed, v) {
            let m = choose|m: int|
                0 <= m < methods_in(data) && is_active_method(data, m) && #[trigger] unprotected(
                    data,
                    seed,
                    m,
                ) == v;
            assert(values[m] is Some);
        }
    }
}

/// The replaced values as a list.
proof fn lemma_replaced(data: Seq<u8>, module: Seq<u8>, seed: u32, at: int)
    requires
        data.len() <= usize::MAX,
        has_method_table(data),
        active_total(data) >= 2,
    ensures
        ({
            let indices = method_indices::spec_method_indices(data)->Ok_0.1;
            let values = method_indices::transformed(indices, seed);
            let list = method_indices::patched(values, module, at);
            &&& list.len() == methods_in(data)
            &&& forall|m: int|
                0 <= m < list.len() ==> (#[trigger] list[m] is Some <==> is_active_method(data, m))
            &&& forall|m: int|
                0 <= m < list.len() && #[trigger] list[m] is Some ==> list[m]->0 == (replaced(
                    data,
                    module,
                    seed,
                    at,
                ))(m)
            &&& method_indices::is_permutation(list) <==> is_numbering(
                data,
                replaced(data, module, seed, at),
            )
        }),
{
    lemma_unprotected(data, seed);
    let indices = method_indices::spec_method_indices(data)->Ok_0.1;
    let values = method_indices::transformed(indices, seed);
    let list = method_indices::patched(values, module, at);
    assert forall|m: int| 0 <= m < list.len() implies (#[trigger] list[m] is Some
        <==> is_active_method(data, m)) by {
        assert(values[m] is Some <==> is_active_method(data, m));
    }
    assert forall|m: int| 0 <= m < list.len() && #[trigger] list[m] is Some implies list[m]->0 == (
    replaced(data, module, seed, at))(m) by {
        assert(values[m] is Some);
        assert(method_indices::active_before(values, m) == active_among(data, m as nat));
    }
    lemma_numbering(data, list, replaced(data, module, seed, at));
}

/// The active methods below a method are fewer than those below a later one.
proof fn lemma_ranks_rise(data: Seq<u8>, m: nat, k: nat)
    requires
        m < k,
        is_active_method(data, m as int),
    ensures
        0 <= active_among(data, m) < active_among(data, k),
    decreases k,
{
    if m + 1 < k {
        lemma_ranks_rise(data, m, (k - 1) as nat);
    } else {
        lemma_rank_bound(data, m);
    }
}

/// The count of active methods is not negative.
proof fn lemma_rank_bound(data: Seq<u8>, n: nat)
    ensures
        0 <= active_among(data, n) <= n,
    decreases n,
{
    if n > 0 {
        lemma_rank_bound(data, (n - 1) as nat);
    }
}

/// The list of matching numbers has no number twice.
proof fn lemma_matching_rises(n: nat, keep: spec_fn(int) -> bool)
    ensures
        fold::matching(n, keep).no_duplicates(),
    decreases n,
{
    if n > 0 {
        lemma_matching_rises((n - 1) as nat, keep);
        fold::lemma_matching((n - 1) as nat, keep);
        let before = fold::matching((n - 1) as nat, keep);
        assert forall|i: int, j: int|
            0 <= i < fold::matching(n, keep).len() && 0 <= j < fold::matching(n, keep).len() && i
                != j implies fold::matching(n, keep)[i] != fold::matching(n, keep)[j] by {
            if i < before.len() {
                assert(before[i] < n - 1);
            }
            if j < before.len() {
                assert(before[j] < n - 1);
            }
        }
    }
}

/// In a profile the numbers that do not occur are those of the table.
proof fn lemma_missing_are_entries(data: Seq<u8>, module: Seq<u8>, seed: u32, at: int)
    requires
        data.len() <= usize::MAX,
        has_method_table(data),
        active_total(data) > 256,
        is_profile(data, module, seed, at),
    ensures
        ({
            let indices = method_indices::spec_method_indices(data)->Ok_0.1;
            method_indices::missing(method_indices::transformed(indices, seed)).len() == 256
        }),
{
    lemma_unprotected(data, seed);
    lemma_replaced(data, module, seed, at);
    let indices = method_indices::spec_method_indices(data)->Ok_0.1;
    let values = method_indices::transformed(indices, seed);
    let list = method_indices::patched(values, module, at);
    let absent = method_indices::missing(values);
    let n = active_total(data);
    let keep = method_indices::is_missing(values);
    lemma_active_among(data, list, list.len());
    fold::lemma_matching(n as nat, keep);
    lemma_matching_rises(n as nat, keep);
    let entries = Seq::new(256, |j: int| entry(module, at, j));
    assert(entries.no_duplicates()) by {
        assert forall|i: int, j: int|
            0 <= i < entries.len() && 0 <= j < entries.len() && i != j implies entries[i]
            != entries[j] by {
            if i < j {
                assert(entry(module, at, i) != entry(module, at, j));
            } else {
                assert(entry(module, at, j) != entry(module, at, i));
            }
        }
    }
    assert forall|v: int| absent.to_set().contains(v) == entries.to_set().contains(v) by {
        if absent.contains(v) {
            let i = choose|i: int| 0 <= i < absent.len() && absent[i] == v;
            assert(keep(absent[i]));
            assert(!method_indices::present(values, v));
            law_permutation_covers(list, v);
            let m = choose|m: int|
                0 <= m < list.len() && #[trigger] list[m] is Some && list[m]->0 == v;
            assert(list[m]->0 == (replaced(data, module, seed, at))(m));
            assert(values[m] is Some);
            if active_among(data, m as nat) < 256 {
                lemma_rank_bound(data, m as nat);
                assert(entries[active_among(data, m as nat)] == v);
            } else {
                assert(values[m]->0 == v);
                assert(method_indices::present(values, v));
            }
        }
        if entries.contains(v) {
            let j = choose|j: int| 0 <= j < entries.len() && entries[j] == v;
            assert(entry(module, at, j) == v);
            assert(!occurs(data, seed, v));
            assert(!method_indices::present(values, v));
            assert(keep(v));
        }
    }
    assert(absent.to_set() =~= entries.to_set());
    absent.unique_seq_to_set();
    entries.unique_seq_to_set();
}

/// Any fitting table does when one does.
proof fn lemma_other_table(data: Seq<u8>, module: Seq<u8>, seed: u32, at: int, other: int)
    requires
        data.len() <= usize::MAX,
        has_method_table(data),
        active_total(data) > 256,
        is_profile(data, module, seed, at),
        ({
            let indices = method_indices::spec_method_indices(data)->Ok_0.1;
            method_indices::table_fits(module, other, method_indices::transformed(indices, seed))
        }),
    ensures
        is_numbering(data, replaced(data, module, seed, other)),
{
    lemma_unprotected(data, seed);
    let indices = method_indices::spec_method_indices(data)->Ok_0.1;
    let values = method_indices::transformed(indices, seed);
    let (one, two) = (replaced(data, module, seed, at), replaced(data, module, seed, other));
    let n = active_total(data);
    assert forall|m: int| 0 <= m < methods_in(data) && is_active_method(data, m) implies 0
        <= #[trigger] two(m) < n by {
        lemma_rank_bound(data, m as nat);
        let r = active_among(data, m as nat);
        if r < 256 {
            assert(method_indices::exception(module, other, r) < n);
        } else {
            assert(0 <= one(m) < n);
        }
    }
    assert forall|m: int, k: int|
        0 <= m < k < methods_in(data) && is_active_method(data, m) && is_active_method(
            data,
            k,
        ) implies #[trigger] two(m) != #[trigger] two(k) by {
        lemma_ranks_rise(data, m as nat, k as nat);
        lemma_rank_bound(data, m as nat);
        let (r, q) = (active_among(data, m as nat), active_among(data, k as nat));
        if q < 256 {
            assert(method_indices::exception(module, other, r) != method_indices::exception(
                module,
                other,
                q,
            ));
        } else if r < 256 {
            assert(!method_indices::present(
                values,
                method_indices::exception(module, other, r) as int,
            ));
            assert(values[k] is Some);
            assert(method_indices::present(values, unprotected(data, seed, k)));
        } else {
            assert(one(m) != one(k));
        }
    }
}

/// A seed matches exactly when the module has a profile with it.
proof fn lemma_profile_matches(data: Seq<u8>, module: Seq<u8>, seed: u32)
    requires
        data.len() <= usize::MAX,
        has_method_table(data),
        active_total(data) > 256,
    ensures
        ({
            let indices = method_indices::spec_method_indices(data)->Ok_0.1;
            &&& method_indices::seed_matches(module, indices, seed) <==> has_profile(
                data,
                module,
                seed,
            )
            &&& method_indices::seed_matches(module, indices, seed) ==> is_profile(
                data,
                module,
                seed,
                method_indices::table_of(module, indices, seed)->0,
            )
        }),
{
    reveal(method_indices::seed_restores);
    lemma_unprotected(data, seed);
    let indices = method_indices::spec_method_indices(data)->Ok_0.1;
    let values = method_indices::transformed(indices, seed);
    let n = active_total(data);
    if method_indices::seed_matches(module, indices, seed) {
        let k = choose|k: int| method_indices::seed_at(module, k, seed);
        assert(names_seed(module, k, seed));
        let at = method_indices::table_of(module, indices, seed)->0;
        lemma_found_table(module, 8, values, at);
        lemma_replaced(data, module, seed, at);
        assert forall|m: int| 0 <= m < methods_in(data) && is_active_method(
            data,
            m,
        ) implies #[trigger] unprotected(data, seed, m) < n by {
            assert(values[m] is Some);
        }
        assert forall|j: int| 0 <= j < 256 implies #[trigger] entry(module, at, j) < n && !occurs(
            data,
            seed,
            entry(module, at, j),
        ) by {
            assert(method_indices::exception(module, at, j) < n);
            assert(!method_indices::present(
                values,
                method_indices::exception(module, at, j) as int,
            ));
        }
        assert forall|i: int, j: int| 0 <= i < j < 256 implies #[trigger] entry(module, at, i)
            != #[trigger] entry(module, at, j) by {
            assert(method_indices::exception(module, at, i) != method_indices::exception(
                module,
                at,
                j,
            ));
        }
        assert(is_profile(data, module, seed, at));
    }
    if has_profile(data, module, seed) {
        let at = choose|at: int| #[trigger] is_profile(data, module, seed, at);
        let k = choose|k: int| #[trigger] names_seed(module, k, seed);
        assert(method_indices::seed_at(module, k, seed));
        lemma_missing_are_entries(data, module, seed, at);
        assert forall|m: int| 0 <= m < values.len() && #[trigger] values[m] is Some implies values[m]->0
            < method_indices::active_count(values) by {
            assert(unprotected(data, seed, m) < n);
        }
        assert(method_indices::in_range(values));
        assert forall|j: int| 0 <= j < 256 implies (#[trigger] method_indices::exception(
            module,
            at,
            j,
        )) < n && !method_indices::present(
            values,
            method_indices::exception(module, at, j) as int,
        ) by {
            assert(entry(module, at, j) < n);
            assert(!occurs(data, seed, entry(module, at, j)));
        }
        assert forall|i: int, j: int| 0 <= i < j < 256 implies #[trigger] method_indices::exception(
            module,
            at,
            i,
        ) != #[trigger] method_indices::exception(module, at, j) by {
            assert(entry(module, at, i) != entry(module, at, j));
        }
        assert(method_indices::table_fits(module, at, values));
        lemma_found_table(module, 8, values, at);
        let found = method_indices::find_table(module, 8, values)->0;
        lemma_other_table(data, module, seed, at, found);
        lemma_replaced(data, module, seed, found);
        assert(method_indices::seed_matches(module, indices, seed));
    }
}

/// Protected metadata is restored exactly when it has more than 256 active methods and the module
/// has profiles with one seed. With none, and with more than one, it is refused as such.
pub proof fn law_one_profile_restores(data: Seq<u8>, module: Seq<u8>)
    requires
        data.len() <= usize::MAX,
        has_method_table(data),
        !is_numbering(data, stored(data)),
    ensures
        ({
            let result = method_indices::spec_restore(data, module);
            &&& result is Ok <==> {
                &&& active_total(data) > 256
                &&& exists|seed: u32| #[trigger] has_profile(data, module, seed)
                &&& forall|a: u32, b: u32| #[trigger]
                    has_profile(data, module, a) && #[trigger] has_profile(data, module, b) ==> a
                        == b
            }
            &&& result matches Err(MethodIndexError::ProfileNotFound) ==> forall|seed: u32|
                !#[trigger] has_profile(data, module, seed)
            &&& result matches Err(MethodIndexError::AmbiguousProfile) ==> exists|a: u32, b: u32|
                a != b && #[trigger] has_profile(data, module, a) && #[trigger] has_profile(
                    data,
                    module,
                    b,
                )
            &&& active_total(data) > 256 && result is Err ==> (result->Err_0
                == MethodIndexError::ProfileNotFound || result->Err_0
                == MethodIndexError::AmbiguousProfile)
        }),
{
    lemma_indices_read(data);
    let indices = method_indices::spec_method_indices(data)->Ok_0.1;
    lemma_numbering(data, indices, stored(data));
    if active_total(data) > 256 {
        assert forall|seed: u32| #[trigger] has_profile(data, module, seed)
            == method_indices::seed_matches(module, indices, seed) by {
            lemma_profile_matches(data, module, seed);
        }
        if exists|a: u32, b: u32|
            a != b && method_indices::seed_matches(module, indices, a)
                && method_indices::seed_matches(module, indices, b) {
            let (a, b) = choose|a: u32, b: u32|
                a != b && method_indices::seed_matches(module, indices, a)
                    && method_indices::seed_matches(module, indices, b);
            assert(has_profile(data, module, a) && has_profile(data, module, b));
        }
        if exists|seed: u32| #[trigger] has_profile(data, module, seed) {
            let seed = choose|seed: u32| #[trigger] has_profile(data, module, seed);
            assert(method_indices::seed_matches(module, indices, seed));
        }
        if exists|seed: u32| method_indices::seed_matches(module, indices, seed) {
            let seed = choose|seed: u32| method_indices::seed_matches(module, indices, seed);
            assert(has_profile(data, module, seed));
        }
        if exists|a: u32, b: u32|
            a != b && #[trigger] has_profile(data, module, a) && #[trigger] has_profile(
                data,
                module,
                b,
            ) {
            let (a, b) = choose|a: u32, b: u32|
                a != b && #[trigger] has_profile(data, module, a) && #[trigger] has_profile(
                    data,
                    module,
                    b,
                );
            assert(method_indices::seed_matches(module, indices, a)
                && method_indices::seed_matches(module, indices, b));
        }
    }
}

/// The index words of restored metadata are those of a profile of the module: entries of its table
/// for the first active methods, what the permutation leaves for the others. The report tells its
/// seed and counts the methods, the active ones, the entries and the indices that changed.
pub proof fn law_restored_words(data: Seq<u8>, module: Seq<u8>)
    requires
        data.len() <= usize::MAX,
        has_method_table(data),
        !is_numbering(data, stored(data)),
        method_indices::spec_restore(data, module) is Ok,
    ensures
        exists|seed: u32, at: int| #[trigger]
            is_profile(data, module, seed, at) && ({
                let (out, report) = method_indices::spec_restore(data, module)->Ok_0;
                let values = replaced(data, module, seed, at);
                let start = bytes::u32_at(data, 0x30);
                &&& out.len() == data.len()
                &&& forall|m: int|
                    0 <= m < methods_in(data) && is_active_method(data, m) ==> bytes::u32_at(
                        out,
                        start + m * 0x34 + 0x14,
                    ) == #[trigger] values(m)
                &&& report.version == 24
                &&& report.methods == methods_in(data)
                &&& report.active_methods == active_total(data)
                &&& report.exception_count == 256
                &&& report.seed == "0x"@ + crate::text::zero_padded(
                    crate::text::upper_hex(seed as nat),
                    8,
                )
                &&& report.changed_indices == fold::matching(
                    methods_in(data),
                    |m: int| is_active_method(data, m) && values(m) != index_word(data, m),
                ).len()
            }),
{
    lemma_indices_read(data);
    let (offset, indices) = method_indices::spec_method_indices(data)->Ok_0;
    lemma_numbering(data, indices, stored(data));
    let seed = method_indices::spec_profile(module, indices)->Ok_0;
    assert(method_indices::seed_matches(module, indices, seed)) by {
        let chosen = choose|seed: u32| method_indices::seed_matches(module, indices, seed);
        assert(method_indices::seed_matches(module, indices, chosen));
    }
    lemma_profile_matches(data, module, seed);
    let at = method_indices::table_of(module, indices, seed)->0;
    lemma_replaced(data, module, seed, at);
    lemma_restored(module, indices, seed);
    let list = method_indices::restored(module, indices, seed);
    let values = replaced(data, module, seed, at);
    let (out, report) = method_indices::spec_restore(data, module)->Ok_0;
    assert forall|m: int| 0 <= m < methods_in(data) && is_active_method(data, m) implies bytes::u32_at(
        out,
        bytes::u32_at(data, 0x30) + m * 0x34 + 0x14,
    ) == #[trigger] values(m) by {
        assert(list[m] is Some);
        assert(indices[m] is Some);
        lemma_written_indices(data, offset as int, list, m);
        assert(method_indices::index_at(out, offset as int, m) == list[m]);
    }
    let changed = |m: int| is_active_method(data, m) && values(m) != index_word(data, m);
    let differing = method_indices::differs(list, indices);
    assert forall|m: int| 0 <= m < methods_in(data) implies #[trigger] differing(m) == changed(
        m,
    ) by {
        assert(list[m] is Some <==> is_active_method(data, m));
        assert(indices[m] == if is_active_method(data, m) {
            Some(index_word(data, m))
        } else {
            None
        });
    }
    super::structural_laws::lemma_same_matching(methods_in(data), differing, changed);
    fold::lemma_none_match(methods_in(data), differing);
}

/// Metadata without a method table is refused: what has another first word as no metadata, what has
/// another version as such.
pub proof fn law_other_files_are_refused(data: Seq<u8>, module: Seq<u8>)
    requires
        data.len() <= usize::MAX,
    ensures
        !has_method_table(data) ==> method_indices::spec_restore(data, module) is Err,
        data.len() >= 4 && bytes::u32_at(data, 0) != 0xfab1_1baf ==> method_indices::spec_restore(
            data,
            module,
        ) == Err::<(Seq<u8>, ReportModel), MethodIndexError>(MethodIndexError::NotMetadata),
        data.len() >= 8 && bytes::u32_at(data, 0) == 0xfab1_1baf && bytes::u32_at(data, 4) != 24
            ==> method_indices::spec_restore(data, module) == Err::<
            (Seq<u8>, ReportModel),
            MethodIndexError,
        >(MethodIndexError::UnsupportedVersion(bytes::u32_at(data, 4))),
{
    lemma_indices_read(data);
}

} // verus!
