//! Lookups in the string and symbol tables of the input.
//!
//! The tables are those of `goblin`. What they hold is not visible here; the
//! functions that read them state what they hand out, and that is believed.

use crate::elf::Sym;
use goblin::elf::Symtab;
use goblin::strtab::Strtab;
use vstd::prelude::*;

verus! {

/// `goblin::strtab::Strtab`, a table of strings that are found by their byte
/// offset.
#[verifier::external_type_specification]
#[verifier::external_body]
pub struct ExStrtab<'a>(Strtab<'a>);

/// `goblin::elf::Symtab`, a table of symbols.
#[verifier::external_type_specification]
#[verifier::external_body]
pub struct ExSymtab<'a>(Symtab<'a>);

/// The strings of a string table: each offset at which `get_at` finds a
/// string, with that string.
pub uninterp spec fn strtab_strings(strtab: &Strtab) -> Map<int, Seq<char>>;

/// The length in bytes of a string table.
pub uninterp spec fn strtab_size(strtab: &Strtab) -> nat;

/// The symbols of a symbol table, in the order of the table.
pub uninterp spec fn symtab_syms(symtab: &Symtab) -> Seq<Sym>;

/// Calls `Strtab::len`, the length of the table in bytes.
#[verifier::external_body]
pub(crate) fn strtab_len(strtab: &Strtab) -> (len: usize)
    ensures
        len == strtab_size(strtab),
{
    strtab.len()
}

/// Calls `Strtab::get_at`, which hands out the string at a byte offset, or
/// `None` where the table has no string there.
#[verifier::external_body]
fn strtab_get_at<'a>(strtab: &Strtab<'a>, offset: usize) -> (name: Option<&'a str>)
    ensures
        match name {
            Some(name) => strtab_strings(strtab).contains_key(offset as int) && strtab_strings(
                strtab,
            )[offset as int] == name@,
            None => !strtab_strings(strtab).contains_key(offset as int),
        },
{
    strtab.get_at(offset)
}

/// Calls `Symtab::len`, the number of symbols in the table.
#[verifier::external_body]
fn symtab_len(symtab: &Symtab) -> (len: usize)
    ensures
        len == symtab_syms(symtab).len(),
{
    symtab.len()
}

/// Calls `Symtab::get`, which hands out the symbol with the number `index`, or
/// `None` where the table has fewer symbols.
#[verifier::external_body]
fn symtab_get(symtab: &Symtab, index: usize) -> (sym: Option<Sym>)
    ensures
        index < symtab_syms(symtab).len() ==> sym == Some(symtab_syms(symtab)[index as int]),
        index >= symtab_syms(symtab).len() ==> sym is None,
{
    symtab.get(index).map(
        |goblin::elf::Sym { st_name, st_info, st_other, st_shndx, st_value, st_size }| Sym {
            st_name,
            st_info,
            st_other,
            st_shndx,
            st_value,
            st_size,
        },
    )
}

/// Whether two strings are the same, found by comparing their bytes.
fn same_str(one: &str, other: &str) -> (res: bool)
    ensures
        res == (one@ == other@),
{
    let left = one.as_bytes();
    let right = other.as_bytes();
    proof {
        vstd::utf8::encode_utf8_decode_utf8(one@);
        vstd::utf8::encode_utf8_decode_utf8(other@);
    }
    if left.len() != right.len() {
        return false;
    }
    let mut i: usize = 0;
    while i < left.len()
        invariant
            i <= left@.len(),
            left@.len() == right@.len(),
            left@ == vstd::utf8::encode_utf8(one@),
            right@ == vstd::utf8::encode_utf8(other@),
            forall|j: int| 0 <= j < i ==> left@[j] == right@[j],
        decreases left@.len() - i,
    {
        if left[i] != right[i] {
            return false;
        }
        i += 1;
    }
    assert(left@ =~= right@);
    true
}

/// The table holds the string `target` at `offset`.
pub open spec fn holds_at(strtab: &Strtab, target: Seq<char>, offset: int) -> bool {
    &&& 0 <= offset < strtab_size(strtab)
    &&& strtab_strings(strtab).contains_key(offset)
    &&& strtab_strings(strtab)[offset] == target
}

/// `offset` is the first offset at which the table holds the string `target`.
pub open spec fn is_first_in_strtab(strtab: &Strtab, target: Seq<char>, offset: int) -> bool {
    &&& holds_at(strtab, target, offset)
    &&& forall|i: int| 0 <= i < offset ==> !holds_at(strtab, target, i)
}

/// The first offset at which the table holds the string `target`.
pub open spec fn first_in_strtab(strtab: &Strtab, target: Seq<char>) -> Option<int> {
    if exists|offset: int| is_first_in_strtab(strtab, target, offset) {
        Some(choose|offset: int| is_first_in_strtab(strtab, target, offset))
    } else {
        None
    }
}

/// The first offset at which the table holds the string `target`, if it holds
/// it anywhere.
pub fn find_in_strtab(strtab: &Strtab, target: &str) -> (res: Option<usize>)
    ensures
        match first_in_strtab(strtab, target@) {
            Some(offset) => res == Some(offset as usize) && is_first_in_strtab(
                strtab,
                target@,
                offset,
            ),
            None => res is None && forall|i: int| !holds_at(strtab, target@, i),
        },
{
    let len = strtab_len(strtab);
    let mut i: usize = 0;
    while i < len
        invariant
            i <= len,
            len == strtab_size(strtab),
            forall|j: int| 0 <= j < i ==> !holds_at(strtab, target@, j),
        decreases len - i,
    {
        if let Some(name) = strtab_get_at(strtab, i) {
            if same_str(name, target) {
                assert(is_first_in_strtab(strtab, target@, i as int));
                return Some(i);
            }
        }
        i += 1;
    }
    assert forall|i: int| !holds_at(strtab, target@, i) by {}
    None
}

/// Where a symbol lies in the file.
#[derive(Clone, Copy, Debug, PartialEq, Eq, Structural)]
pub struct SymbolInfo {
    pub offset: u64,
    pub size: u64,
}

/// The symbol with the number `index` is the first that has its name at
/// `name`.
pub open spec fn is_first_named(syms: Seq<Sym>, name: usize, index: int) -> bool {
    &&& 0 <= index < syms.len()
    &&& syms[index].st_name == name
    &&& forall|j: int| 0 <= j < index ==> (#[trigger] syms[j]).st_name != name
}

/// The first symbol that has its name at the offset `name`: where it lies in
/// the file.
fn find_symbol(dynsyms: &Symtab, name: usize) -> (res: Option<SymbolInfo>)
    ensures
        match res {
            Some(info) => exists|index: int|
                is_first_named(symtab_syms(dynsyms), name, index) && info == (SymbolInfo {
                    offset: symtab_syms(dynsyms)[index].st_value,
                    size: symtab_syms(dynsyms)[index].st_size,
                }),
            None => forall|j: int|
                0 <= j < symtab_syms(dynsyms).len() ==> (#[trigger] symtab_syms(
                    dynsyms,
                )[j]).st_name != name,
        },
{
    let len = symtab_len(dynsyms);
    let mut i: usize = 0;
    while i < len
        invariant
            i <= len,
            len == symtab_syms(dynsyms).len(),
            forall|j: int| 0 <= j < i ==> (#[trigger] symtab_syms(dynsyms)[j]).st_name != name,
        decreases len - i,
    {
        if let Some(symbol) = symtab_get(dynsyms, i) {
            if symbol.st_name == name {
                assert(is_first_named(symtab_syms(dynsyms), name, i as int));
                return Some(SymbolInfo { offset: symbol.st_value, size: symbol.st_size });
            }
        }
        i += 1;
    }
    None
}

/// Where the dynamic symbol with the name "entrypoint" lies in the file: the
/// first symbol of `dynsyms` whose name is the first "entrypoint" in
/// `dynstrtab`.
pub fn find_current_entrypoint(dynstrtab: &Strtab, dynsyms: &Symtab) -> (res: Option<SymbolInfo>)
    ensures
        match res {
            Some(info) => exists|name: int, index: int|
                is_first_in_strtab(dynstrtab, "entrypoint"@, name) && is_first_named(
                    symtab_syms(dynsyms),
                    name as usize,
                    index,
                ) && info == (SymbolInfo {
                    offset: symtab_syms(dynsyms)[index].st_value,
                    size: symtab_syms(dynsyms)[index].st_size,
                }),
            None => (forall|i: int| !holds_at(dynstrtab, "entrypoint"@, i)) || exists|name: int|
                is_first_in_strtab(dynstrtab, "entrypoint"@, name) && forall|j: int|
                    0 <= j < symtab_syms(dynsyms).len() ==> (#[trigger] symtab_syms(
                        dynsyms,
                    )[j]).st_name != name,
        },
{
    let Some(entrypoint_st_name) = find_in_strtab(dynstrtab, "entrypoint") else {
        return None;
    };
    find_symbol(dynsyms, entrypoint_st_name)
}

} // verus!
