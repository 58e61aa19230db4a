//! Which tags a set holds, which are missing, and how tags and numbers are shown.

use super::dynamic;
use super::error;
use super::error::{Error, Fault};
use super::link_laws;
use super::restore;
use super::tags::{DynamicValues, TagSet};
use crate::elf::SectionHeader;
use crate::fold;
use crate::text;
use crate::text_laws;
use vstd::prelude::*;

verus! {

/// The tags that can be set, in ascending order.
pub open spec fn settable() -> Seq<u64> {
    seq![
        2u64,
        4,
        5,
        6,
        7,
        8,
        10,
        23,
        0x6fff_fef5,
        0x6fff_fff0,
        0x6fff_fff9,
        0x6fff_fffe,
    ]
}

/// A number as it is shown: in lower-case hexadecimal, behind `0x`.
pub open spec fn shown(number: nat) -> Seq<char> {
    seq!['0', 'x'] + text::lower_hex(number)
}

/// The tags of the set among the first `n` that can be set, as they are shown.
spec fn picked(set: TagSet, n: nat) -> Seq<Seq<char>>
    decreases n,
{
    if n == 0 {
        Seq::empty()
    } else if set.spec_has(settable()[n - 1]) {
        picked(set, (n - 1) as nat).push(shown(settable()[n - 1] as nat))
    } else {
        picked(set, (n - 1) as nat)
    }
}

/// Small tags as they are shown.
proof fn lemma_small_tags()
    ensures
        "0x2"@ == shown(2),
        "0x4"@ == shown(4),
        "0x5"@ == shown(5),
        "0x6"@ == shown(6),
        "0x7"@ == shown(7),
        "0x8"@ == shown(8),
        "0xa"@ == shown(10),
        "0x17"@ == shown(23),
{
    reveal_with_fuel(text::lower_hex, 3);
    reveal_strlit("0x2");
    reveal_strlit("0x4");
    reveal_strlit("0x5");
    reveal_strlit("0x6");
    reveal_strlit("0x7");
    reveal_strlit("0x8");
    reveal_strlit("0xa");
    reveal_strlit("0x17");
    assert("0x2"@ =~= shown(2));
    assert("0x4"@ =~= shown(4));
    assert("0x5"@ =~= shown(5));
    assert("0x6"@ =~= shown(6));
    assert("0x7"@ =~= shown(7));
    assert("0x8"@ =~= shown(8));
    assert("0xa"@ =~= shown(10));
    assert("0x17"@ =~= shown(23));
}

/// Large tags as they are shown.
proof fn lemma_large_tags()
    ensures
        "0x6ffffef5"@ == shown(0x6fff_fef5),
        "0x6ffffff0"@ == shown(0x6fff_fff0),
        "0x6ffffff9"@ == shown(0x6fff_fff9),
        "0x6ffffffe"@ == shown(0x6fff_fffe),
{
    assert(text::lower_hex(0x6fff_ff) =~= seq!['6', 'f', 'f', 'f', 'f', 'f']) by {
        reveal_with_fuel(text::lower_hex, 7);
    }
    assert(text::lower_hex(0x6fff_fe) =~= seq!['6', 'f', 'f', 'f', 'f', 'e']) by {
        reveal_with_fuel(text::lower_hex, 7);
    }
    reveal_with_fuel(text::lower_hex, 3);
    reveal_strlit("0x6ffffef5");
    reveal_strlit("0x6ffffff0");
    reveal_strlit("0x6ffffff9");
    reveal_strlit("0x6ffffffe");
    assert("0x6ffffef5"@ =~= shown(0x6fff_fef5));
    assert("0x6ffffff0"@ =~= shown(0x6fff_fff0));
    assert("0x6ffffff9"@ =~= shown(0x6fff_fff9));
    assert("0x6ffffffe"@ =~= shown(0x6fff_fffe));
}

/// The texts of a set are those of its tags in order.
proof fn lemma_texts(set: TagSet)
    ensures
        set.texts() == picked(set, 12),
{
    lemma_small_tags();
    lemma_large_tags();
    let list0 = TagSet::listed(Seq::empty(), set.pltrelsz, "0x2"@);
    let list1 = TagSet::listed(list0, set.hash, "0x4"@);
    let list2 = TagSet::listed(list1, set.strtab, "0x5"@);
    let list3 = TagSet::listed(list2, set.symtab, "0x6"@);
    let list4 = TagSet::listed(list3, set.rela, "0x7"@);
    let list5 = TagSet::listed(list4, set.relasz, "0x8"@);
    let list6 = TagSet::listed(list5, set.strsz, "0xa"@);
    let list7 = TagSet::listed(list6, set.jmprel, "0x17"@);
    let list8 = TagSet::listed(list7, set.gnu_hash, "0x6ffffef5"@);
    let list9 = TagSet::listed(list8, set.versym, "0x6ffffff0"@);
    let list10 = TagSet::listed(list9, set.relacount, "0x6ffffff9"@);
    assert(picked(set, 0) == Seq::<Seq<char>>::empty());
    assert(picked(set, 1) == list0);
    assert(picked(set, 2) == list1);
    assert(picked(set, 3) == list2);
    assert(picked(set, 4) == list3);
    assert(picked(set, 5) == list4);
    assert(picked(set, 6) == list5);
    assert(picked(set, 7) == list6);
    assert(picked(set, 8) == list7);
    assert(picked(set, 9) == list8);
    assert(picked(set, 10) == list9);
    assert(picked(set, 11) == list10);
}

/// Numbers that are shown alike are the same.
proof fn lemma_shown_tells_numbers(a: nat, b: nat)
    requires
        shown(a) == shown(b),
    ensures
        a == b,
{
    text_laws::law_lower_hex(a);
    text_laws::law_lower_hex(b);
    assert(shown(a).skip(2) =~= text::lower_hex(a));
    assert(shown(b).skip(2) =~= text::lower_hex(b));
}

/// Which of the tags that can be set are in a set.
#[verifier::opaque]
spec fn in_set(set: TagSet) -> spec_fn(int) -> bool {
    |k: int| set.spec_has(settable()[k])
}

/// The tags that are picked are those in the set, in order.
proof fn lemma_picked(set: TagSet, n: nat)
    ensures
        ({
            let list = picked(set, n);
            let places = fold::matching(n, in_set(set));
            &&& list.len() == places.len()
            &&& forall|i: int|
                0 <= i < list.len() ==> #[trigger] list[i] == shown(settable()[places[i]] as nat)
        }),
    decreases n,
{
    if n > 0 {
        lemma_picked(set, (n - 1) as nat);
        assert((in_set(set))(n - 1) == set.spec_has(settable()[n - 1])) by {
            reveal(in_set);
        }
    }
}

/// Where a tag of a set stands among those that can be set.
proof fn lemma_place(set: TagSet, tag: u64) -> (k: int)
    requires
        set.spec_has(tag),
    ensures
        0 <= k < 12,
        settable()[k] == tag,
        (in_set(set))(k),
{
    let all = settable();
    let k: int = if tag == 2 {
        0
    } else if tag == 4 {
        1
    } else if tag == 5 {
        2
    } else if tag == 6 {
        3
    } else if tag == 7 {
        4
    } else if tag == 8 {
        5
    } else if tag == 10 {
        6
    } else if tag == 23 {
        7
    } else if tag == 0x6fff_fef5 {
        8
    } else if tag == 0x6fff_fff0 {
        9
    } else if tag == 0x6fff_fff9 {
        10
    } else {
        11
    };
    assert(all[k] == tag);
    reveal(in_set);
    k
}

/// A tag that can be set is in a set exactly when its place says so.
proof fn lemma_in_set(set: TagSet, k: int)
    ensures
        (in_set(set))(k) == set.spec_has(settable()[k]),
{
    reveal(in_set);
}

/// The tags that can be set ascend.
proof fn lemma_settable_ascends(a: int, b: int)
    requires
        0 <= a < b < 12,
    ensures
        settable()[a] < settable()[b],
{
}

/// A text of a set is that of one of its tags.
proof fn lemma_text_is_a_tag(set: TagSet, tag: u64, i: int) -> (k: int)
    requires
        0 <= i < set.texts().len(),
        set.texts()[i] == shown(tag as nat),
    ensures
        0 <= k < 12,
        settable()[k] == tag,
        k == fold::matching(12, in_set(set))[i],
        set.spec_has(tag),
{
    let places = fold::matching(12, in_set(set));
    lemma_texts(set);
    lemma_picked(set, 12);
    fold::lemma_matching(12, in_set(set));
    let k = places[i];
    lemma_in_set(set, k);
    lemma_shown_tells_numbers(tag as nat, settable()[k] as nat);
    k
}

/// A set shows exactly its own tags, and each only once, in ascending order.
pub proof fn law_sets_show_their_tags(set: TagSet, tag: u64, other: u64, i: int, j: int)
    ensures
        ({
            let list = set.texts();
            &&& set.spec_has(tag) ==> settable().contains(tag)
            &&& set.spec_has(tag) <==> list.contains(shown(tag as nat))
            &&& 0 <= i < j < list.len() && list[i] == shown(tag as nat) && list[j] == shown(
                other as nat,
            ) ==> tag < other
        }),
{
    let list = set.texts();
    let places = fold::matching(12, in_set(set));
    if set.spec_has(tag) {
        let k = lemma_place(set, tag);
        assert(settable().contains(tag));
        lemma_texts(set);
        lemma_picked(set, 12);
        fold::lemma_matching(12, in_set(set));
        let at = choose|at: int| 0 <= at < places.len() && places[at] == k;
        assert(list[at] == shown(tag as nat));
    }
    if list.contains(shown(tag as nat)) {
        let at = choose|at: int| 0 <= at < list.len() && list[at] == shown(tag as nat);
        let k = lemma_text_is_a_tag(set, tag, at);
    }
    if 0 <= i < j < list.len() && list[i] == shown(tag as nat) && list[j] == shown(other as nat) {
        let a = lemma_text_is_a_tag(set, tag, i);
        let b = lemma_text_is_a_tag(set, other, j);
        lemma_texts(set);
        lemma_picked(set, 12);
        fold::lemma_ascending(12, in_set(set), i, j);
        lemma_settable_ascends(a, b);
    }
}

/// A set is empty exactly when it has none of the tags.
pub proof fn law_empty_sets(set: TagSet)
    ensures
        set.spec_is_empty() <==> forall|tag: u64| !#[trigger] set.spec_has(tag),
{
    if forall|tag: u64| !#[trigger] set.spec_has(tag) {
        assert(!set.spec_has(2) && !set.spec_has(4) && !set.spec_has(5) && !set.spec_has(6)
            && !set.spec_has(7) && !set.spec_has(8) && !set.spec_has(10) && !set.spec_has(23)
            && !set.spec_has(0x6fff_fef5) && !set.spec_has(0x6fff_fff0) && !set.spec_has(
            0x6fff_fff9,
        ) && !set.spec_has(0x6fff_fffe));
    }
}

/// The tags that are missing from others are those that have a new value and are not among the
/// others.
pub proof fn law_missing_tags(values: DynamicValues, found: TagSet, tag: u64)
    ensures
        values.lacking(found).spec_has(tag) <==> values.spec_get(tag) is Some && !found.spec_has(tag),
{
}

/// Setting tags of a whole table in which none is ambiguous is refused with exactly the tags that
/// have a new value and do not occur.
pub proof fn law_refused_tags(
    image: Seq<u8>,
    table: SectionHeader,
    values: DynamicValues,
    tag: u64,
)
    requires
        image.len() <= usize::MAX,
        link_laws::is_whole(image, table),
        link_laws::is_unambiguous(image, table, values, (table.size / 16) as int),
        dynamic::spec_patch_dynamic_tags(image, table, values).1 is Err,
    ensures
        ({
            let refused = dynamic::spec_patch_dynamic_tags(image, table, values).1->Err_0;
            &&& refused is Invalid
            &&& refused->Invalid_0 is MissingTags
            &&& refused->Invalid_0->MissingTags_tags.spec_has(tag) <==> values.spec_get(tag) is Some
                && !link_laws::occurs(image, table, tag)
        }),
{
    let start = table.offset as int;
    let n = (table.size / 16) as int;
    link_laws::lemma_set_fails(image, table, values, n as nat);
    let found = |tag: u64| dynamic::has_tag(image, start, n, tag);
    let missing = values.spec_missing(found);
    link_laws::lemma_has_tag(image, table, n, tag);
    if link_laws::occurs(image, table, tag) {
        let k = choose|k: int|
            link_laws::is_entry(image, table, k) && #[trigger] link_laws::entry_tag(image, table, k)
                == tag;
        assert(0 <= k < n && link_laws::entry_tag(image, table, k) == tag);
    }
    assert(found(tag) == link_laws::occurs(image, table, tag));
    assert(dynamic::spec_patch_dynamic_tags(image, table, values).1 == Err::<(), Error>(
        Error::Invalid(Fault::MissingTags { tags: missing }),
    ));
}

/// Reported numbers are `0x` and upper-case digits that spell the number, of which a seed has eight.
pub proof fn law_reported_numbers(number: nat, seed: u32)
    ensures
        ({
            let digits = restore::hex_text(number).skip(2);
            let seed_digits = restore::seed_text(seed).skip(2);
            &&& restore::hex_text(number).take(2) == seq!['0', 'x']
            &&& restore::seed_text(seed).take(2) == seq!['0', 'x']
            &&& text_laws::spelled(digits, 16) == number
            &&& forall|i: int|
                0 <= i < digits.len() ==> text_laws::is_upper_hex(#[trigger] digits[i])
            &&& seed_digits.len() >= 8
            &&& seed_digits == text::zero_padded(text::upper_hex(seed as nat), 8)
        }),
{
    reveal_strlit("0x");
    assert(restore::hex_text(number).take(2) =~= seq!['0', 'x']);
    assert(restore::seed_text(seed).take(2) =~= seq!['0', 'x']);
    assert(restore::hex_text(number).skip(2) =~= text::upper_hex(number));
    let padded = text::zero_padded(text::upper_hex(seed as nat), 8);
    assert(restore::seed_text(seed).skip(2) =~= padded);
    text_laws::law_upper_hex(number);
    text_laws::law_padding(text::upper_hex(seed as nat), 8, 0);
}

/// The identifiers of lacking modules are listed in ascending order, and no others.
pub proof fn law_lacking_modules(lacks_9b: bool, lacks_9d: bool, lacks_9e: bool, number: nat)
    requires
        number == 0x9b || number == 0x9d || number == 0x9e,
    ensures
        ({
            let list = error::missing_ids(lacks_9b, lacks_9d, lacks_9e);
            let text = seq!['0', 'x'] + text::upper_hex(number);
            let before_9d = if lacks_9b {
                1int
            } else {
                0
            };
            let before_9e = before_9d + if lacks_9d {
                1int
            } else {
                0
            };
            &&& list.len() == before_9e + if lacks_9e {
                1int
            } else {
                0
            }
            &&& number == 0x9b && lacks_9b ==> list[0] == text
            &&& number == 0x9d && lacks_9d ==> list[before_9d] == text
            &&& number == 0x9e && lacks_9e ==> list[before_9e] == text
        }),
{
    reveal_with_fuel(text::upper_hex, 3);
    reveal_strlit("0x9B");
    reveal_strlit("0x9D");
    reveal_strlit("0x9E");
    assert("0x9B"@ =~= seq!['0', 'x'] + text::upper_hex(0x9b));
    assert("0x9D"@ =~= seq!['0', 'x'] + text::upper_hex(0x9d));
    assert("0x9E"@ =~= seq!['0', 'x'] + text::upper_hex(0x9e));
}

} // verus!
