//! The tags of a dynamic table that a restoration sets.

use crate::elf::{
    DT_GNU_HASH, DT_HASH, DT_JMPREL, DT_PLTRELSZ, DT_RELA, DT_RELACOUNT, DT_RELASZ, DT_STRSZ,
    DT_STRTAB, DT_SYMTAB, DT_VERNEED, DT_VERSYM,
};
use crate::text;
use vstd::prelude::*;
use vstd::string::*;

verus! {

/// A set of dynamic tags.
#[derive(Debug, Clone, Copy, PartialEq, Eq, Structural)]
pub struct TagSet {
    /// Size of the procedure linkage relocations.
    pub pltrelsz: bool,
    /// SysV symbol hash table.
    pub hash: bool,
    /// String table.
    pub strtab: bool,
    /// Symbol table.
    pub symtab: bool,
    /// Relocations with addend.
    pub rela: bool,
    /// Size of the relocations with addend.
    pub relasz: bool,
    /// Size of the string table.
    pub strsz: bool,
    /// Procedure linkage relocations.
    pub jmprel: bool,
    /// GNU symbol hash table.
    pub gnu_hash: bool,
    /// Symbol version table.
    pub versym: bool,
    /// Number of relative relocations.
    pub relacount: bool,
    /// Required symbol versions.
    pub verneed: bool,
}

/// New values for dynamic tags. A tag without a value keeps the one it has.
#[derive(Debug, Clone, Copy, PartialEq, Eq, Structural)]
pub struct DynamicValues {
    /// Size of the procedure linkage relocations.
    pub pltrelsz: Option<u64>,
    /// SysV symbol hash table.
    pub hash: Option<u64>,
    /// String table.
    pub strtab: Option<u64>,
    /// Symbol table.
    pub symtab: Option<u64>,
    /// Relocations with addend.
    pub rela: Option<u64>,
    /// Size of the relocations with addend.
    pub relasz: Option<u64>,
    /// Size of the string table.
    pub strsz: Option<u64>,
    /// Procedure linkage relocations.
    pub jmprel: Option<u64>,
    /// GNU symbol hash table.
    pub gnu_hash: Option<u64>,
    /// Symbol version table.
    pub versym: Option<u64>,
    /// Number of relative relocations.
    pub relacount: Option<u64>,
    /// Required symbol versions.
    pub verneed: Option<u64>,
}

impl DynamicValues {
    /// The new value of `tag`.
    pub open spec fn spec_get(self, tag: u64) -> Option<u64> {
        if tag == DT_PLTRELSZ {
            self.pltrelsz
        } else if tag == DT_HASH {
            self.hash
        } else if tag == DT_STRTAB {
            self.strtab
        } else if tag == DT_SYMTAB {
            self.symtab
        } else if tag == DT_RELA {
            self.rela
        } else if tag == DT_RELASZ {
            self.relasz
        } else if tag == DT_STRSZ {
            self.strsz
        } else if tag == DT_JMPREL {
            self.jmprel
        } else if tag == DT_GNU_HASH {
            self.gnu_hash
        } else if tag == DT_VERSYM {
            self.versym
        } else if tag == DT_RELACOUNT {
            self.relacount
        } else if tag == DT_VERNEED {
            self.verneed
        } else {
            None
        }
    }

    /// The new value of `tag`.
    pub fn get(&self, tag: u64) -> (value: Option<u64>)
        ensures
            value == self.spec_get(tag),
    {
        if tag == DT_PLTRELSZ {
            self.pltrelsz
        } else if tag == DT_HASH {
            self.hash
        } else if tag == DT_STRTAB {
            self.strtab
        } else if tag == DT_SYMTAB {
            self.symtab
        } else if tag == DT_RELA {
            self.rela
        } else if tag == DT_RELASZ {
            self.relasz
        } else if tag == DT_STRSZ {
            self.strsz
        } else if tag == DT_JMPREL {
            self.jmprel
        } else if tag == DT_GNU_HASH {
            self.gnu_hash
        } else if tag == DT_VERSYM {
            self.versym
        } else if tag == DT_RELACOUNT {
            self.relacount
        } else if tag == DT_VERNEED {
            self.verneed
        } else {
            None
        }
    }

    /// The tags with a new value that `found` lacks.
    pub open spec fn spec_missing(self, found: spec_fn(u64) -> bool) -> TagSet {
        TagSet {
            pltrelsz: self.pltrelsz is Some && !found(DT_PLTRELSZ),
            hash: self.hash is Some && !found(DT_HASH),
            strtab: self.strtab is Some && !found(DT_STRTAB),
            symtab: self.symtab is Some && !found(DT_SYMTAB),
            rela: self.rela is Some && !found(DT_RELA),
            relasz: self.relasz is Some && !found(DT_RELASZ),
            strsz: self.strsz is Some && !found(DT_STRSZ),
            jmprel: self.jmprel is Some && !found(DT_JMPREL),
            gnu_hash: self.gnu_hash is Some && !found(DT_GNU_HASH),
            versym: self.versym is Some && !found(DT_VERSYM),
            relacount: self.relacount is Some && !found(DT_RELACOUNT),
            verneed: self.verneed is Some && !found(DT_VERNEED),
        }
    }

    /// The tags with a new value that are not in `found`.
    pub open spec fn lacking(self, found: TagSet) -> TagSet {
        TagSet {
            pltrelsz: self.pltrelsz is Some && !found.pltrelsz,
            hash: self.hash is Some && !found.hash,
            strtab: self.strtab is Some && !found.strtab,
            symtab: self.symtab is Some && !found.symtab,
            rela: self.rela is Some && !found.rela,
            relasz: self.relasz is Some && !found.relasz,
            strsz: self.strsz is Some && !found.strsz,
            jmprel: self.jmprel is Some && !found.jmprel,
            gnu_hash: self.gnu_hash is Some && !found.gnu_hash,
            versym: self.versym is Some && !found.versym,
            relacount: self.relacount is Some && !found.relacount,
            verneed: self.verneed is Some && !found.verneed,
        }
    }

    /// The tags with a new value that are not in `found`.
    pub fn missing(&self, found: &TagSet) -> (missing: TagSet)
        ensures
            missing == self.lacking(*found),
    {
        TagSet {
            pltrelsz: self.pltrelsz.is_some() && !found.pltrelsz,
            hash: self.hash.is_some() && !found.hash,
            strtab: self.strtab.is_some() && !found.strtab,
            symtab: self.symtab.is_some() && !found.symtab,
            rela: self.rela.is_some() && !found.rela,
            relasz: self.relasz.is_some() && !found.relasz,
            strsz: self.strsz.is_some() && !found.strsz,
            jmprel: self.jmprel.is_some() && !found.jmprel,
            gnu_hash: self.gnu_hash.is_some() && !found.gnu_hash,
            versym: self.versym.is_some() && !found.versym,
            relacount: self.relacount.is_some() && !found.relacount,
            verneed: self.verneed.is_some() && !found.verneed,
        }
    }
}

impl TagSet {
    /// The empty set.
    pub fn none() -> (set: TagSet)
        ensures
            forall|tag: u64| !#[trigger] set.spec_has(tag),
    {
        TagSet {
            pltrelsz: false,
            hash: false,
            strtab: false,
            symtab: false,
            rela: false,
            relasz: false,
            strsz: false,
            jmprel: false,
            gnu_hash: false,
            versym: false,
            relacount: false,
            verneed: false,
        }
    }

    /// Whether `tag` is in the set.
    pub open spec fn spec_has(self, tag: u64) -> bool {
        ||| tag == DT_PLTRELSZ && self.pltrelsz
        ||| tag == DT_HASH && self.hash
        ||| tag == DT_STRTAB && self.strtab
        ||| tag == DT_SYMTAB && self.symtab
        ||| tag == DT_RELA && self.rela
        ||| tag == DT_RELASZ && self.relasz
        ||| tag == DT_STRSZ && self.strsz
        ||| tag == DT_JMPREL && self.jmprel
        ||| tag == DT_GNU_HASH && self.gnu_hash
        ||| tag == DT_VERSYM && self.versym
        ||| tag == DT_RELACOUNT && self.relacount
        ||| tag == DT_VERNEED && self.verneed
    }

    /// Whether `tag` is in the set.
    pub fn has(&self, tag: u64) -> (result: bool)
        ensures
            result == self.spec_has(tag),
    {
        tag == DT_PLTRELSZ && self.pltrelsz
            || tag == DT_HASH && self.hash
            || tag == DT_STRTAB && self.strtab
            || tag == DT_SYMTAB && self.symtab
            || tag == DT_RELA && self.rela
            || tag == DT_RELASZ && self.relasz
            || tag == DT_STRSZ && self.strsz
            || tag == DT_JMPREL && self.jmprel
            || tag == DT_GNU_HASH && self.gnu_hash
            || tag == DT_VERSYM && self.versym
            || tag == DT_RELACOUNT && self.relacount
            || tag == DT_VERNEED && self.verneed
    }

    /// `tag` is one of the tags that a set can hold.
    pub open spec fn is_known(tag: u64) -> bool {
        ||| tag == DT_PLTRELSZ
        ||| tag == DT_HASH
        ||| tag == DT_STRTAB
        ||| tag == DT_SYMTAB
        ||| tag == DT_RELA
        ||| tag == DT_RELASZ
        ||| tag == DT_STRSZ
        ||| tag == DT_JMPREL
        ||| tag == DT_GNU_HASH
        ||| tag == DT_VERSYM
        ||| tag == DT_RELACOUNT
        ||| tag == DT_VERNEED
    }

    /// Adds `tag` to the set.
    pub fn insert(&mut self, tag: u64)
        ensures
            forall|other: u64| #[trigger]
                final(self).spec_has(other) <==> old(self).spec_has(other) || (other == tag
                    && TagSet::is_known(tag)),
    {
        if tag == DT_PLTRELSZ {
            self.pltrelsz = true;
        } else if tag == DT_HASH {
            self.hash = true;
        } else if tag == DT_STRTAB {
            self.strtab = true;
        } else if tag == DT_SYMTAB {
            self.symtab = true;
        } else if tag == DT_RELA {
            self.rela = true;
        } else if tag == DT_RELASZ {
            self.relasz = true;
        } else if tag == DT_STRSZ {
            self.strsz = true;
        } else if tag == DT_JMPREL {
            self.jmprel = true;
        } else if tag == DT_GNU_HASH {
            self.gnu_hash = true;
        } else if tag == DT_VERSYM {
            self.versym = true;
        } else if tag == DT_RELACOUNT {
            self.relacount = true;
        } else if tag == DT_VERNEED {
            self.verneed = true;
        }
    }

    /// Whether the set has no tags.
    pub open spec fn spec_is_empty(self) -> bool {
        &&& !self.pltrelsz
        &&& !self.hash
        &&& !self.strtab
        &&& !self.symtab
        &&& !self.rela
        &&& !self.relasz
        &&& !self.strsz
        &&& !self.jmprel
        &&& !self.gnu_hash
        &&& !self.versym
        &&& !self.relacount
        &&& !self.verneed
    }

    /// Whether the set has no tags.
    pub fn is_empty(&self) -> (result: bool)
        ensures
            result == self.spec_is_empty(),
    {
        !self.pltrelsz
            && !self.hash
            && !self.strtab
            && !self.symtab
            && !self.rela
            && !self.relasz
            && !self.strsz
            && !self.jmprel
            && !self.gnu_hash
            && !self.versym
            && !self.relacount
            && !self.verneed
    }

    /// `list`, with `tag` behind it if it is wanted.
    pub open spec fn listed(list: Seq<Seq<char>>, wanted: bool, tag: Seq<char>) -> Seq<Seq<char>> {
        if wanted {
            list.push(tag)
        } else {
            list
        }
    }

    /// The tags of the set in ascending order, in hexadecimal.
    pub open spec fn texts(self) -> Seq<Seq<char>> {
        let list0 = Self::listed(Seq::empty(), self.pltrelsz, "0x2"@);
        let list1 = Self::listed(list0, self.hash, "0x4"@);
        let list2 = Self::listed(list1, self.strtab, "0x5"@);
        let list3 = Self::listed(list2, self.symtab, "0x6"@);
        let list4 = Self::listed(list3, self.rela, "0x7"@);
        let list5 = Self::listed(list4, self.relasz, "0x8"@);
        let list6 = Self::listed(list5, self.strsz, "0xa"@);
        let list7 = Self::listed(list6, self.jmprel, "0x17"@);
        let list8 = Self::listed(list7, self.gnu_hash, "0x6ffffef5"@);
        let list9 = Self::listed(list8, self.versym, "0x6ffffff0"@);
        let list10 = Self::listed(list9, self.relacount, "0x6ffffff9"@);
        let list11 = Self::listed(list10, self.verneed, "0x6ffffffe"@);
        list11
    }

    /// Adds `tag` to `list` if it is wanted.
    fn push_if(list: &mut Vec<String>, wanted: bool, tag: &'static str)
        ensures
            text::contents(final(list)@) == Self::listed(
                text::contents(old(list)@),
                wanted,
                tag@,
            ),
    {
        let ghost before = list@;
        if wanted {
            list.push(String::from_str(tag));
            assert(text::contents(list@) =~= text::contents(before).push(tag@));
        }
    }

    /// Renders the tags of the set.
    pub(crate) fn rendered(&self) -> (list: Vec<String>)
        ensures
            text::contents(list@) == self.texts(),
    {
        let mut list: Vec<String> = Vec::new();
        assert(text::contents(list@) =~= Seq::<Seq<char>>::empty());
        Self::push_if(&mut list, self.pltrelsz, "0x2");
        Self::push_if(&mut list, self.hash, "0x4");
        Self::push_if(&mut list, self.strtab, "0x5");
        Self::push_if(&mut list, self.symtab, "0x6");
        Self::push_if(&mut list, self.rela, "0x7");
        Self::push_if(&mut list, self.relasz, "0x8");
        Self::push_if(&mut list, self.strsz, "0xa");
        Self::push_if(&mut list, self.jmprel, "0x17");
        Self::push_if(&mut list, self.gnu_hash, "0x6ffffef5");
        Self::push_if(&mut list, self.versym, "0x6ffffff0");
        Self::push_if(&mut list, self.relacount, "0x6ffffff9");
        Self::push_if(&mut list, self.verneed, "0x6ffffffe");
        list
    }
}

} // verus!
