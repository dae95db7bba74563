//! Linking the translations of all runs into one RV64 code image: laying
//! the translations out one after another, and filling in the placeholders
//! that `lea`, `jmp` and conditional jumps leave.
use vstd::prelude::*;
use std::collections::HashMap;
use vstd::bytes::{spec_u32_to_le_bytes, u32_to_le_bytes};

use crate::elf::{push_bytes, DATA_VADDR};
use crate::encode::{addi_word, bne_word, encode_addi, encode_bne, encode_lui, lui_word, OP_BRANCH};
use crate::registers::JUNKREG0;
use crate::translate::TranslationResult;
use crate::riscv::{
    branch_imm, lemma_b_type_fields, lemma_decode_imm, lemma_decode_lui, lui_value, reg_read,
    reg_write, rv_run,
};

verus! {

broadcast use vstd::std_specs::hash::group_hash_axioms;

/// The linked output so far: code and data of all runs laid out so far,
/// their lea and branch fixups with code indices into the whole code, and
/// where each run's code starts, by the x86 code offset it translates.
pub struct Flattened {
    pub code: Seq<u32>,
    pub data: Seq<u8>,
    pub lea_fixups: Seq<(usize, u8, u64)>,
    pub jcc_fixups: Seq<(usize, usize)>,
    pub address_map: Map<usize, usize>,
}

/// Lea fixups moved by `start` code words.
pub open spec fn shift_lea(fixups: Seq<(usize, u8, u64)>, start: int) -> Seq<(usize, u8, u64)> {
    fixups.map_values(|f: (usize, u8, u64)| ((start + f.0) as usize, f.1, f.2))
}

/// Branch fixups moved by `start` code words.
pub open spec fn shift_branch(fixups: Seq<(usize, usize)>, start: int) -> Seq<(usize, usize)> {
    fixups.map_values(|f: (usize, usize)| ((start + f.0) as usize, f.1))
}

/// `acc` with the run `r` laid out after it, then `r`'s children in order
/// (a pre-order walk of the tree of translations). The start of `r`'s code
/// is recorded under `r.code_address`, replacing any earlier entry.
pub open spec fn flatten_node(r: TranslationResult, acc: Flattened) -> Flattened
    decreases r,
{
    flatten_children(r.children@, lay(r, acc))
}

/// `acc` with the run `r` itself (not its children) laid out after it.
pub open spec fn lay(r: TranslationResult, acc: Flattened) -> Flattened {
    let start = acc.code.len();
    Flattened {
        code: acc.code + r.code@,
        data: acc.data + r.data@,
        lea_fixups: acc.lea_fixups + shift_lea(r.lea_fixups@, start as int),
        jcc_fixups: acc.jcc_fixups + shift_branch(r.branch_fixups@, start as int),
        address_map: acc.address_map.insert(r.code_address, start as usize),
    }
}

/// `acc` with the runs `cs` laid out after it, in order.
pub open spec fn flatten_children(cs: Seq<TranslationResult>, acc: Flattened) -> Flattened
    decreases cs,
{
    if cs.len() == 0 {
        acc
    } else {
        flatten_children(cs.drop_first(), flatten_node(cs[0], acc))
    }
}

} // verus!

verus! {

/// The number of code words of `r` and of every run below it.
pub open spec fn span(r: TranslationResult) -> nat
    decreases r,
{
    r.code@.len() + children_span(r.children@)
}

/// The number of code words of the runs `cs` and of every run below them.
pub open spec fn children_span(cs: Seq<TranslationResult>) -> nat
    decreases cs,
{
    if cs.len() == 0 {
        0
    } else {
        span(cs[0]) + children_span(cs.drop_first())
    }
}

/// Laying `r` out from code index `start` computes no index past
/// `usize::MAX`: neither the end of `r`'s code nor a fixup's moved index in
/// `r`, nor, in turn, in any run below it.
pub open spec fn fits(r: TranslationResult, start: int) -> bool
    decreases r,
{
    &&& start + r.code@.len() <= usize::MAX
    &&& forall|i: int| 0 <= i < r.lea_fixups@.len() ==> start + #[trigger] r.lea_fixups@[i].0 <= usize::MAX
    &&& forall|i: int| 0 <= i < r.branch_fixups@.len() ==> start + #[trigger] r.branch_fixups@[i].0 <= usize::MAX
    &&& children_fit(r.children@, start + r.code@.len())
}

/// `fits` for the runs `cs` laid out one after another from `start`.
pub open spec fn children_fit(cs: Seq<TranslationResult>, start: int) -> bool
    decreases cs,
{
    cs.len() == 0 || (fits(cs[0], start) && children_fit(cs.drop_first(), start + span(cs[0])))
}

/// The linked output made of the five parts held by a caller.
pub open spec fn flattened_of(
    code: Seq<u32>,
    data: Seq<u8>,
    lea_fixups: Seq<(usize, u8, u64)>,
    jcc_fixups: Seq<(usize, usize)>,
    address_map: Map<usize, usize>,
) -> Flattened {
    Flattened { code, data, lea_fixups, jcc_fixups, address_map }
}

/// Laying out `r` adds exactly `span(r)` code words.
pub proof fn lemma_flatten_code_len(r: TranslationResult, acc: Flattened)
    ensures
        flatten_node(r, acc).code.len() == acc.code.len() + span(r),
    decreases r,
{
    lemma_flatten_children_code_len(r.children@, lay(r, acc));
}

/// Laying out the runs `cs` adds exactly `children_span(cs)` code words.
pub proof fn lemma_flatten_children_code_len(cs: Seq<TranslationResult>, acc: Flattened)
    ensures
        flatten_children(cs, acc).code.len() == acc.code.len() + children_span(cs),
    decreases cs,
{
    if cs.len() > 0 {
        lemma_flatten_code_len(cs[0], acc);
        lemma_flatten_children_code_len(cs.drop_first(), flatten_node(cs[0], acc));
    }
}

/// Appends the translation `result` and, after it, the translations below
/// it (each run before its children) to the linked output: the code and
/// data are appended, the lea and branch fixups are appended with their
/// code indices moved to where the run's code now starts, and
/// `address_map` maps each run's x86 code offset to that start.
pub fn flatten_translation(
    result: TranslationResult,
    riscv_code: &mut Vec<u32>,
    riscv_data: &mut Vec<u8>,
    lea_fixups: &mut Vec<(usize, u8, u64)>,
    jcc_fixups: &mut Vec<(usize, usize)>,
    address_map: &mut HashMap<usize, usize>,
)
    requires
        fits(result, old(riscv_code)@.len() as int),
    ensures
        flattened_of(
            final(riscv_code)@,
            final(riscv_data)@,
            final(lea_fixups)@,
            final(jcc_fixups)@,
            final(address_map)@,
        ) == flatten_node(
            result,
            flattened_of(
                old(riscv_code)@,
                old(riscv_data)@,
                old(lea_fixups)@,
                old(jcc_fixups)@,
                old(address_map)@,
            ),
        ),
    decreases result,
{
    let ghost r = result;
    let code_start = riscv_code.len();
    address_map.insert(result.code_address, code_start);
    let TranslationResult {
        code: mut node_code,
        data: mut node_data,
        lea_fixups: node_lea,
        branch_fixups: node_branch,
        call_fixups: _,
        code_address: _,
        children: mut children,
    } = result;

    let mut i: usize = 0;
    while i < node_lea.len()
        invariant
            i <= node_lea@.len(),
            node_lea@ == r.lea_fixups@,
            code_start == old(riscv_code)@.len(),
            fits(r, code_start as int),
            lea_fixups@ == old(lea_fixups)@ + shift_lea(node_lea@, code_start as int).take(i as int),
        decreases node_lea.len() - i,
    {
        let (offset, register, address) = node_lea[i];
        assert(code_start + r.lea_fixups@[i as int].0 <= usize::MAX);
        lea_fixups.push((code_start + offset, register, address));
        assert(shift_lea(node_lea@, code_start as int).take(i + 1) =~= shift_lea(
            node_lea@,
            code_start as int,
        ).take(i as int).push(((code_start + offset) as usize, register, address)));
        i = i + 1;
    }
    assert(shift_lea(node_lea@, code_start as int).take(i as int) =~= shift_lea(
        node_lea@,
        code_start as int,
    ));

    let mut j: usize = 0;
    while j < node_branch.len()
        invariant
            j <= node_branch@.len(),
            node_branch@ == r.branch_fixups@,
            code_start == old(riscv_code)@.len(),
            fits(r, code_start as int),
            jcc_fixups@ == old(jcc_fixups)@ + shift_branch(node_branch@, code_start as int).take(j as int),
        decreases node_branch.len() - j,
    {
        let (branch_index, target) = node_branch[j];
        assert(code_start + r.branch_fixups@[j as int].0 <= usize::MAX);
        jcc_fixups.push((code_start + branch_index, target));
        assert(shift_branch(node_branch@, code_start as int).take(j + 1) =~= shift_branch(
            node_branch@,
            code_start as int,
        ).take(j as int).push(((code_start + branch_index) as usize, target)));
        j = j + 1;
    }
    assert(shift_branch(node_branch@, code_start as int).take(j as int) =~= shift_branch(
        node_branch@,
        code_start as int,
    ));

    riscv_code.append(&mut node_code);
    riscv_data.append(&mut node_data);

    let ghost mut taken: int = 0;
    while children.len() > 0
        invariant
            r == result,
            0 <= taken <= r.children@.len(),
            children@ == r.children@.skip(taken),
            children_fit(children@, riscv_code@.len() as int),
            flatten_children(
                children@,
                flattened_of(riscv_code@, riscv_data@, lea_fixups@, jcc_fixups@, address_map@),
            ) == flatten_node(
                r,
                flattened_of(
                    old(riscv_code)@,
                    old(riscv_data)@,
                    old(lea_fixups)@,
                    old(jcc_fixups)@,
                    old(address_map)@,
                ),
            ),
        decreases children.len(),
    {
        let ghost before = flattened_of(riscv_code@, riscv_data@, lea_fixups@, jcc_fixups@, address_map@);
        let ghost cs = children@;
        let child = children.remove(0);
        assert(children@ =~= cs.drop_first());
        assert(child == r.children@[taken]);
        assert(decreases_to!(result => child)) by {
            assert(decreases_to!(r => r.children));
            assert(decreases_to!(r.children => r.children@));
            assert(decreases_to!(r.children@ => r.children@[taken]));
        }
        flatten_translation(child, riscv_code, riscv_data, lea_fixups, jcc_fixups, address_map);
        proof {
            lemma_flatten_code_len(child, before);
            taken = taken + 1;
            assert(children@ =~= r.children@.skip(taken));
        }
    }
}

} // verus!

verus! {

/// The immediate of the `lui` that a lea fixup receives: the upper 20 bits
/// of `DATA_VADDR`, rounded up when the low 12 bits read as negative.
pub open spec fn data_hi() -> i32 {
    ((DATA_VADDR + 0x800) / 4096) as i32
}

/// The immediate of the `addi` that a lea fixup receives: the low 12 bits
/// of `DATA_VADDR`.
pub open spec fn data_lo() -> i32 {
    (DATA_VADDR % 4096) as i32
}

/// `code` with every lea fixup in `fixups` filled in, in order: the two
/// words at its index become `lui reg, data_hi` and `addi reg, reg, data_lo`.
pub open spec fn patch_lea(code: Seq<u32>, fixups: Seq<(usize, u8, u64)>) -> Seq<u32>
    decreases fixups.len(),
{
    if fixups.len() == 0 {
        code
    } else {
        let f = fixups.last();
        patch_lea(code, fixups.drop_last()).update(f.0 as int, lui_word(f.1, data_hi())).update(
            f.0 + 1,
            addi_word(f.1, f.1, data_lo()),
        )
    }
}

/// Every lea fixup names two words of the code.
pub open spec fn lea_fixups_in(code_len: nat, fixups: Seq<(usize, u8, u64)>) -> bool {
    forall|i: int| 0 <= i < fixups.len() ==> #[trigger] fixups[i].0 + 1 < code_len
}

/// Fills in the placeholders of the lea fixups: each makes the register it
/// names hold the address of the data segment.
pub fn patch_lea_fixups(riscv_code: &mut Vec<u32>, lea_fixups: &Vec<(usize, u8, u64)>)
    requires
        lea_fixups_in(old(riscv_code)@.len(), lea_fixups@),
    ensures
        final(riscv_code)@ == patch_lea(old(riscv_code)@, lea_fixups@),
{
    let mut i: usize = 0;
    while i < lea_fixups.len()
        invariant
            i <= lea_fixups@.len(),
            lea_fixups_in(old(riscv_code)@.len(), lea_fixups@),
            riscv_code@ == patch_lea(old(riscv_code)@, lea_fixups@.take(i as int)),
            riscv_code@.len() == old(riscv_code)@.len(),
        decreases lea_fixups.len() - i,
    {
        let (index, riscv_register, _address) = lea_fixups[i];
        let code_len = riscv_code.len();
        assert(index + 1 < old(riscv_code)@.len()) by {
            assert(lea_fixups@[i as int].0 + 1 < old(riscv_code)@.len());
        }
        let data_address: u64 = DATA_VADDR;
        assert(((data_address + 0x800) as u64) >> 12u64 == 0x11u64) by (bit_vector)
            requires
                data_address == 0x11000u64,
        ;
        assert(data_address as i64 & 0xfffi64 == 0i64) by (bit_vector)
            requires
                data_address == 0x11000u64,
        ;
        riscv_code.set(index, encode_lui(riscv_register, ((data_address + 0x800) >> 12) as i32));
        riscv_code.set(
            index + 1,
            encode_addi(riscv_register, riscv_register, (data_address as i64 & 0xfff) as i32),
        );
        assert(lea_fixups@.take(i + 1).drop_last() =~= lea_fixups@.take(i as int));
        i = i + 1;
    }
    assert(lea_fixups@.take(i as int) =~= lea_fixups@);
}

/// A `usize` value read as an `isize` (two's complement).
pub open spec fn as_isize(x: int) -> int {
    if x > isize::MAX {
        x - usize::MAX - 1
    } else {
        x
    }
}

/// The byte offset that a branch at code index `from` takes to reach code
/// index `to`, as the branch encodes it: the difference of the byte
/// addresses, each read as an `isize`, cut to an `i32`.
pub open spec fn branch_offset(from: usize, to: usize) -> i32 {
    (as_isize(4 * to) - 4 * from) as i32
}

/// `code` with every branch fixup in `fixups` filled in, in order: the word
/// at its index becomes `bne JUNKREG0, zero` to the start of the code
/// that `address_map` gives for its x86 target.
pub open spec fn patch_branch(
    code: Seq<u32>,
    fixups: Seq<(usize, usize)>,
    address_map: Map<usize, usize>,
) -> Seq<u32>
    decreases fixups.len(),
{
    if fixups.len() == 0 {
        code
    } else {
        let f = fixups.last();
        patch_branch(code, fixups.drop_last(), address_map).update(
            f.0 as int,
            bne_word(JUNKREG0, 0, branch_offset(f.0, address_map[f.1])),
        )
    }
}

/// Every branch fixup names a word of the code and an x86 target whose
/// translation starts at a known code index, whose byte address fits in a
/// `usize` and lies, read as an `isize`, at most `isize::MAX` bytes before
/// the branch's.
pub open spec fn branch_fixups_in(
    code_len: nat,
    fixups: Seq<(usize, usize)>,
    address_map: Map<usize, usize>,
) -> bool {
    forall|i: int|
        0 <= i < fixups.len() ==> {
            &&& #[trigger] fixups[i].0 < code_len
            &&& address_map.contains_key(fixups[i].1)
            &&& 4 * address_map[fixups[i].1] <= usize::MAX
            &&& as_isize(4 * address_map[fixups[i].1]) - 4 * fixups[i].0 >= isize::MIN
        }
}

/// Fills in the placeholders of the branch fixups with a `bne JUNKREG0,
/// zero` to the translation of the branch's x86 target.
pub fn patch_branch_fixups(
    riscv_code: &mut Vec<u32>,
    jcc_fixups: &Vec<(usize, usize)>,
    address_map: &HashMap<usize, usize>,
)
    requires
        branch_fixups_in(old(riscv_code)@.len(), jcc_fixups@, address_map@),
        4 * old(riscv_code)@.len() <= isize::MAX,
    ensures
        final(riscv_code)@ == patch_branch(old(riscv_code)@, jcc_fixups@, address_map@),
{
    let mut i: usize = 0;
    while i < jcc_fixups.len()
        invariant
            i <= jcc_fixups@.len(),
            branch_fixups_in(old(riscv_code)@.len(), jcc_fixups@, address_map@),
            4 * old(riscv_code)@.len() <= isize::MAX,
            riscv_code@ == patch_branch(old(riscv_code)@, jcc_fixups@.take(i as int), address_map@),
            riscv_code@.len() == old(riscv_code)@.len(),
        decreases jcc_fixups.len() - i,
    {
        let (branch_index, target_x86) = jcc_fixups[i];
        assert(branch_index < old(riscv_code)@.len() && address_map@.contains_key(target_x86)
            && 4 * address_map@[target_x86] <= usize::MAX && as_isize(
            4 * address_map@[target_x86],
        ) - 4 * branch_index >= isize::MIN) by {
            assert(jcc_fixups@[i as int].0 < old(riscv_code)@.len());
        }
        let target_index: usize = match address_map.get(&target_x86) {
            Some(t) => *t,
            None => {
                proof {
                    assert(false);
                }
                0
            },
        };
        let branch_pc: usize = branch_index * 4;
        let target_pc: usize = target_index * 4;
        let target_signed: i128 = if target_pc > isize::MAX as usize {
            target_pc as i128 - usize::MAX as i128 - 1
        } else {
            target_pc as i128
        };
        let offset: i128 = target_signed - branch_pc as i128;
        riscv_code.set(branch_index, encode_bne(JUNKREG0, 0, offset as i32));
        assert(jcc_fixups@.take(i + 1).drop_last() =~= jcc_fixups@.take(i as int));
        i = i + 1;
    }
    assert(jcc_fixups@.take(i as int) =~= jcc_fixups@);
}

/// The bytes of `words`, each word little-endian, in order.
pub open spec fn words_le_bytes(words: Seq<u32>) -> Seq<u8>
    decreases words.len(),
{
    if words.len() == 0 {
        Seq::empty()
    } else {
        words_le_bytes(words.drop_last()) + spec_u32_to_le_bytes(words.last())
    }
}

/// The code as the bytes that go into the executable.
pub fn code_bytes(riscv_code: &Vec<u32>) -> (bytes: Vec<u8>)
    ensures
        bytes@ == words_le_bytes(riscv_code@),
{
    let mut riscv_bytes: Vec<u8> = Vec::new();
    let mut i: usize = 0;
    while i < riscv_code.len()
        invariant
            i <= riscv_code@.len(),
            riscv_bytes@ == words_le_bytes(riscv_code@.take(i as int)),
        decreases riscv_code.len() - i,
    {
        push_bytes(&mut riscv_bytes, u32_to_le_bytes(riscv_code[i]).as_slice());
        assert(riscv_code@.take(i + 1).drop_last() =~= riscv_code@.take(i as int));
        i = i + 1;
    }
    assert(riscv_code@.take(i as int) =~= riscv_code@);
    riscv_bytes
}

} // verus!

verus! {

/// Every fixup of the run `r` itself names words of its own code.
pub open spec fn node_fixups_in(r: TranslationResult) -> bool {
    &&& lea_fixups_in(r.code@.len(), r.lea_fixups@)
    &&& forall|i: int|
        0 <= i < r.branch_fixups@.len() ==> #[trigger] r.branch_fixups@[i].0 < r.code@.len()
}

/// Every run in the tree `r` has fixups naming its own code.
pub open spec fn tree_fixups_in(r: TranslationResult) -> bool
    decreases r,
{
    node_fixups_in(r) && children_fixups_in(r.children@)
}

/// Every run in the trees `cs` has fixups naming its own code.
pub open spec fn children_fixups_in(cs: Seq<TranslationResult>) -> bool
    decreases cs,
{
    cs.len() == 0 || (tree_fixups_in(cs[0]) && children_fixups_in(cs.drop_first()))
}

/// Every fixup of the linked output names words of its code.
pub open spec fn flattened_fixups_in(f: Flattened) -> bool {
    &&& lea_fixups_in(f.code.len(), f.lea_fixups)
    &&& forall|i: int| 0 <= i < f.jcc_fixups.len() ==> #[trigger] f.jcc_fixups[i].0 < f.code.len()
}

/// Linking keeps fixups naming code: when every run of the tree `r` has
/// fixups naming its own code and the tree fits where it is laid out, the
/// moved fixups name the words they named in their run, so every fixup of
/// the linked output names words of the linked code.
pub proof fn lemma_flatten_keeps_fixups_in(r: TranslationResult, acc: Flattened)
    requires
        tree_fixups_in(r),
        fits(r, acc.code.len() as int),
        flattened_fixups_in(acc),
    ensures
        flattened_fixups_in(flatten_node(r, acc)),
    decreases r,
{
    lemma_lay_keeps_fixups_in(r, acc);
    lemma_flatten_children_keep_fixups_in(r.children@, lay(r, acc));
}

/// Laying out a run whose fixups name its own code, where it fits, keeps
/// every fixup naming code.
pub proof fn lemma_lay_keeps_fixups_in(r: TranslationResult, acc: Flattened)
    requires
        node_fixups_in(r),
        fits(r, acc.code.len() as int),
        flattened_fixups_in(acc),
    ensures
        flattened_fixups_in(lay(r, acc)),
{
    let start = acc.code.len();
    let laid = lay(r, acc);
    assert forall|i: int| 0 <= i < laid.lea_fixups.len() implies #[trigger] laid.lea_fixups[i].0 + 1
        < laid.code.len() by {
        if i >= acc.lea_fixups.len() {
            let k = i - acc.lea_fixups.len();
            assert(start + r.lea_fixups@[k].0 <= usize::MAX);
            assert(r.lea_fixups@[k].0 + 1 < r.code@.len());
        } else {
            assert(acc.lea_fixups[i].0 + 1 < acc.code.len());
        }
    }
    assert forall|i: int| 0 <= i < laid.jcc_fixups.len() implies #[trigger] laid.jcc_fixups[i].0
        < laid.code.len() by {
        if i >= acc.jcc_fixups.len() {
            let k = i - acc.jcc_fixups.len();
            assert(start + r.branch_fixups@[k].0 <= usize::MAX);
            assert(r.branch_fixups@[k].0 < r.code@.len());
        } else {
            assert(acc.jcc_fixups[i].0 < acc.code.len());
        }
    }
}

/// `lemma_flatten_keeps_fixups_in` for the runs `cs` laid out in order.
pub proof fn lemma_flatten_children_keep_fixups_in(cs: Seq<TranslationResult>, acc: Flattened)
    requires
        children_fixups_in(cs),
        children_fit(cs, acc.code.len() as int),
        flattened_fixups_in(acc),
    ensures
        flattened_fixups_in(flatten_children(cs, acc)),
    decreases cs,
{
    if cs.len() > 0 {
        lemma_flatten_keeps_fixups_in(cs[0], acc);
        lemma_flatten_code_len(cs[0], acc);
        lemma_flatten_children_keep_fixups_in(cs.drop_first(), flatten_node(cs[0], acc));
    }
}

} // verus!

verus! {

/// Where laying out `r` from code index `start` ends (`start + span(r)`),
/// or `None` when `r` does not fit there.
pub fn fitted_end(r: &TranslationResult, start: usize) -> (end: Option<usize>)
    ensures
        end is Some <==> fits(*r, start as int),
        end matches Some(e) ==> e == start + span(*r),
    decreases r,
{
    if r.code.len() > usize::MAX - start {
        return None;
    }
    let mut i: usize = 0;
    while i < r.lea_fixups.len()
        invariant
            i <= r.lea_fixups@.len(),
            forall|j: int| 0 <= j < i ==> start + #[trigger] r.lea_fixups@[j].0 <= usize::MAX,
        decreases r.lea_fixups.len() - i,
    {
        if r.lea_fixups[i].0 > usize::MAX - start {
            return None;
        }
        i = i + 1;
    }
    let mut j: usize = 0;
    while j < r.branch_fixups.len()
        invariant
            j <= r.branch_fixups@.len(),
            forall|m: int| 0 <= m < j ==> start + #[trigger] r.branch_fixups@[m].0 <= usize::MAX,
        decreases r.branch_fixups.len() - j,
    {
        if r.branch_fixups[j].0 > usize::MAX - start {
            return None;
        }
        j = j + 1;
    }
    let mut at: usize = start + r.code.len();
    let mut k: usize = 0;
    assert(r.children@.skip(0) =~= r.children@);
    while k < r.children.len()
        invariant
            k <= r.children@.len(),
            children_fit(r.children@, start + r.code@.len()) == children_fit(
                r.children@.skip(k as int),
                at as int,
            ),
            at + children_span(r.children@.skip(k as int)) == start + span(*r),
        decreases r.children.len() - k,
    {
        let child = &r.children[k];
        let ghost rest = r.children@.skip(k as int);
        assert(rest[0] == *child);
        assert(rest.drop_first() =~= r.children@.skip(k + 1));
        assert(decreases_to!(*r => *child)) by {
            assert(decreases_to!(*r => r.children));
            assert(decreases_to!(r.children => r.children@));
            assert(decreases_to!(r.children@ => r.children@[k as int]));
        }
        match fitted_end(child, at) {
            None => {
                return None;
            },
            Some(e) => {
                at = e;
            },
        }
        k = k + 1;
    }
    assert(r.children@.skip(k as int) =~= Seq::<TranslationResult>::empty());
    Some(at)
}

/// Whether every lea fixup names two words of code of `code_len` words.
pub fn lea_fixups_fit(code_len: usize, fixups: &Vec<(usize, u8, u64)>) -> (b: bool)
    ensures
        b == lea_fixups_in(code_len as nat, fixups@),
{
    let mut i: usize = 0;
    while i < fixups.len()
        invariant
            i <= fixups@.len(),
            forall|j: int| 0 <= j < i ==> #[trigger] fixups@[j].0 + 1 < code_len,
        decreases fixups.len() - i,
    {
        if fixups[i].0 >= code_len || code_len - fixups[i].0 < 2 {
            assert(!(fixups@[i as int].0 + 1 < code_len));
            return false;
        }
        i = i + 1;
    }
    true
}

/// Whether every branch fixup names a word of code of `code_len` words and
/// a target in `address_map` as `branch_fixups_in` asks, with the byte
/// offsets of the code inside `isize`.
pub fn branch_fixups_fit(
    code_len: usize,
    fixups: &Vec<(usize, usize)>,
    address_map: &HashMap<usize, usize>,
) -> (b: bool)
    ensures
        b == (branch_fixups_in(code_len as nat, fixups@, address_map@) && 4 * code_len <= isize::MAX),
{
    if code_len > (isize::MAX as usize) / 4 {
        return false;
    }
    let mut i: usize = 0;
    while i < fixups.len()
        invariant
            i <= fixups@.len(),
            4 * code_len <= isize::MAX,
            forall|j: int|
                0 <= j < i ==> {
                    &&& #[trigger] fixups@[j].0 < code_len
                    &&& address_map@.contains_key(fixups@[j].1)
                    &&& 4 * address_map@[fixups@[j].1] <= usize::MAX
                    &&& as_isize(4 * address_map@[fixups@[j].1]) - 4 * fixups@[j].0 >= isize::MIN
                },
        decreases fixups.len() - i,
    {
        let (index, target) = fixups[i];
        if index >= code_len {
            return false;
        }
        match address_map.get(&target) {
            None => {
                return false;
            },
            Some(t) => {
                if *t > usize::MAX / 4 {
                    return false;
                }
                let target_pc: usize = *t * 4;
                if target_pc > isize::MAX as usize {
                    let target_signed: i128 = target_pc as i128 - usize::MAX as i128 - 1;
                    let lowest: i128 = isize::MIN as i128;
                    if target_signed - ((index * 4) as i128) < lowest {
                        return false;
                    }
                }
            },
        }
        i = i + 1;
    }
    true
}

} // verus!

verus! {

/// The pair of words a lea fixup receives loads the address of the data
/// segment into the fixup's register and leaves every other register as it
/// was.
pub proof fn lemma_lea_pair_loads_data_address(rd: u8, regs: Seq<u64>)
    requires
        1 <= rd < 32,
        regs.len() == 32,
    ensures
        rv_run(seq![lui_word(rd, data_hi()), addi_word(rd, rd, data_lo())], regs) == Some(
            reg_write(regs, rd as u32, DATA_VADDR),
        ),
{
    reveal_with_fuel(rv_run, 3);
    assert(data_hi() == 0x11i32);
    assert(data_lo() == 0i32);
    lemma_decode_lui(rd, 0x11);
    lemma_decode_imm(rd, rd, 0, 0);
    assert((0x11i32 as u32) & 0xfffffu32 == 0x11u32) by (bit_vector);
    assert(lui_value(0x11u32) == 0x11000u64) by (bit_vector);
    let r1 = reg_write(regs, rd as u32, 0x11000u64);
    assert(reg_read(r1, rd as u32) == 0x11000u64);
}

/// Filling in the lea fixups keeps the length of the code.
pub proof fn lemma_patch_lea_len(code: Seq<u32>, fixups: Seq<(usize, u8, u64)>)
    requires
        lea_fixups_in(code.len(), fixups),
    ensures
        patch_lea(code, fixups).len() == code.len(),
    decreases fixups.len(),
{
    if fixups.len() > 0 {
        assert(lea_fixups_in(code.len(), fixups.drop_last())) by {
            assert forall|i: int| 0 <= i < fixups.drop_last().len() implies #[trigger] fixups.drop_last()[i].0 + 1 < code.len() by {
                assert(fixups.drop_last()[i] == fixups[i]);
            }
        }
        lemma_patch_lea_len(code, fixups.drop_last());
    }
}

/// A filled-in lea fixup loads the data segment's address: in the code that
/// `patch_lea` leaves, the two words at a fixup that no later fixup
/// overlaps are the `lui`/`addi` pair for the fixup's register, and for a
/// register other than x0 running them leaves the data segment's address
/// in that register.
pub proof fn lemma_patched_lea_loads_data_address(
    code: Seq<u32>,
    fixups: Seq<(usize, u8, u64)>,
    k: int,
    regs: Seq<u64>,
)
    requires
        lea_fixups_in(code.len(), fixups),
        0 <= k < fixups.len(),
        forall|j: int|
            k < j < fixups.len() ==> #[trigger] fixups[j].0 + 1 < fixups[k].0 || fixups[k].0 + 1
                < fixups[j].0,
        regs.len() == 32,
    ensures
        patch_lea(code, fixups).subrange(fixups[k].0 as int, fixups[k].0 + 2) == seq![
            lui_word(fixups[k].1, data_hi()),
            addi_word(fixups[k].1, fixups[k].1, data_lo()),
        ],
        1 <= fixups[k].1 < 32 ==> rv_run(
            patch_lea(code, fixups).subrange(fixups[k].0 as int, fixups[k].0 + 2),
            regs,
        ) == Some(reg_write(regs, fixups[k].1 as u32, DATA_VADDR)),
    decreases fixups.len(),
{
    let f = fixups[k];
    let shorter = fixups.drop_last();
    assert(lea_fixups_in(code.len(), shorter)) by {
        assert forall|i: int| 0 <= i < shorter.len() implies #[trigger] shorter[i].0 + 1 < code.len() by {
            assert(shorter[i] == fixups[i]);
        }
    }
    lemma_patch_lea_len(code, fixups);
    lemma_patch_lea_len(code, shorter);
    assert(f.0 + 1 < code.len());
    if k < fixups.len() - 1 {
        assert forall|j: int| k < j < shorter.len() implies #[trigger] shorter[j].0 + 1 < shorter[k].0 || shorter[k].0 + 1 < shorter[j].0 by {
            assert(shorter[j] == fixups[j]);
        }
        lemma_patched_lea_loads_data_address(code, shorter, k, regs);
        let g = fixups.last();
        assert(fixups[fixups.len() - 1] == g);
        assert(g.0 + 1 < f.0 || f.0 + 1 < g.0);
    }
    let patched = patch_lea(code, fixups);
    assert(patched.subrange(f.0 as int, f.0 + 2) =~= seq![
        lui_word(f.1, data_hi()),
        addi_word(f.1, f.1, data_lo()),
    ]);
    if 1 <= f.1 < 32 {
        lemma_lea_pair_loads_data_address(f.1, regs);
    }
}

} // verus!

verus! {

/// Filling in the branch fixups keeps the length of the code.
pub proof fn lemma_patch_branch_len(
    code: Seq<u32>,
    fixups: Seq<(usize, usize)>,
    address_map: Map<usize, usize>,
)
    requires
        forall|i: int| 0 <= i < fixups.len() ==> #[trigger] fixups[i].0 < code.len(),
    ensures
        patch_branch(code, fixups, address_map).len() == code.len(),
    decreases fixups.len(),
{
    if fixups.len() > 0 {
        assert forall|i: int| 0 <= i < fixups.drop_last().len() implies #[trigger] fixups.drop_last()[i].0 < code.len() by {
            assert(fixups.drop_last()[i] == fixups[i]);
        }
        lemma_patch_branch_len(code, fixups.drop_last(), address_map);
    }
}

/// A filled-in branch reaches the code of its target: in the code that
/// `patch_branch` leaves, the word at a fixup that no later fixup names is
/// a `bne` of JUNKREG0 against x0 whose offset, added to the word's byte
/// address, gives the byte address where `address_map` puts the target's
/// code, when the two lie less than 4 KiB apart (the reach of a branch).
pub proof fn lemma_patched_branch_reaches_target(
    code: Seq<u32>,
    fixups: Seq<(usize, usize)>,
    address_map: Map<usize, usize>,
    k: int,
)
    requires
        branch_fixups_in(code.len(), fixups, address_map),
        4 * code.len() <= isize::MAX,
        0 <= k < fixups.len(),
        forall|j: int| k < j < fixups.len() ==> #[trigger] fixups[j].0 != fixups[k].0,
        4 * address_map[fixups[k].1] <= isize::MAX,
        -4096 <= 4 * address_map[fixups[k].1] - 4 * fixups[k].0 < 4096,
    ensures
        ({
            let w = patch_branch(code, fixups, address_map)[fixups[k].0 as int];
            &&& w & 0x7fu32 == OP_BRANCH
            &&& (w >> 12u32) & 0x7u32 == 1
            &&& (w >> 15u32) & 0x1fu32 == JUNKREG0 as u32
            &&& (w >> 20u32) & 0x1fu32 == 0
            &&& 4 * fixups[k].0 + branch_imm(w) == 4 * address_map[fixups[k].1]
        }),
    decreases fixups.len(),
{
    let f = fixups[k];
    let shorter = fixups.drop_last();
    assert(forall|i: int| 0 <= i < fixups.len() ==> #[trigger] fixups[i].0 < code.len());
    assert forall|i: int| 0 <= i < shorter.len() implies #[trigger] shorter[i].0 < code.len() by {
        assert(shorter[i] == fixups[i]);
    }
    lemma_patch_branch_len(code, shorter, address_map);
    if k < fixups.len() - 1 {
        assert(branch_fixups_in(code.len(), shorter, address_map)) by {
            assert forall|i: int| 0 <= i < shorter.len() implies {
                &&& #[trigger] shorter[i].0 < code.len()
                &&& address_map.contains_key(shorter[i].1)
                &&& 4 * address_map[shorter[i].1] <= usize::MAX
                &&& as_isize(4 * address_map[shorter[i].1]) - 4 * shorter[i].0 >= isize::MIN
            } by {
                assert(shorter[i] == fixups[i]);
            }
        }
        assert forall|j: int| k < j < shorter.len() implies #[trigger] shorter[j].0 != shorter[k].0 by {
            assert(shorter[j] == fixups[j]);
        }
        lemma_patched_branch_reaches_target(code, shorter, address_map, k);
        assert(fixups[fixups.len() - 1].0 != f.0);
    } else {
        let off = branch_offset(f.0, address_map[f.1]);
        assert(off as int == 4 * address_map[f.1] - 4 * f.0);
        assert(off % 2 == 0);
        lemma_b_type_fields(off, 0, JUNKREG0, 1);
    }
}

} // verus!

verus! {

/// Lea fixups in code order and apart: each pair of words before the next.
pub open spec fn lea_ordered(fixups: Seq<(usize, u8, u64)>) -> bool {
    forall|i: int, j: int|
        #![trigger fixups[i], fixups[j]]
        0 <= i < j < fixups.len() ==> fixups[i].0 + 1 < fixups[j].0
}

/// Branch fixups in code order: each word before the next.
pub open spec fn branch_ordered(fixups: Seq<(usize, usize)>) -> bool {
    forall|i: int, j: int|
        #![trigger fixups[i], fixups[j]]
        0 <= i < j < fixups.len() ==> fixups[i].0 < fixups[j].0
}

/// Every run of the tree `r` has its fixups in code order.
pub open spec fn tree_ordered(r: TranslationResult) -> bool
    decreases r,
{
    lea_ordered(r.lea_fixups@) && branch_ordered(r.branch_fixups@) && children_ordered(
        r.children@,
    )
}

/// Every run of the trees `cs` has its fixups in code order.
pub open spec fn children_ordered(cs: Seq<TranslationResult>) -> bool
    decreases cs,
{
    cs.len() == 0 || (tree_ordered(cs[0]) && children_ordered(cs.drop_first()))
}

/// Laying out a run keeps the fixups in code order: the moved fixups of
/// the run come after every earlier one, which names code before the run.
pub proof fn lemma_lay_keeps_order(r: TranslationResult, acc: Flattened)
    requires
        lea_ordered(r.lea_fixups@),
        branch_ordered(r.branch_fixups@),
        fits(r, acc.code.len() as int),
        flattened_fixups_in(acc),
        lea_ordered(acc.lea_fixups),
        branch_ordered(acc.jcc_fixups),
    ensures
        lea_ordered(lay(r, acc).lea_fixups),
        branch_ordered(lay(r, acc).jcc_fixups),
{
    let start = acc.code.len();
    let laid = lay(r, acc);
    let n = acc.lea_fixups.len();
    assert forall|i: int, j: int|
        #![trigger laid.lea_fixups[i], laid.lea_fixups[j]]
        0 <= i < j < laid.lea_fixups.len() implies laid.lea_fixups[i].0 + 1
        < laid.lea_fixups[j].0 by {
        if j >= n {
            assert(start + r.lea_fixups@[j - n].0 <= usize::MAX);
            if i >= n {
                assert(start + r.lea_fixups@[i - n].0 <= usize::MAX);
                assert(r.lea_fixups@[i - n].0 + 1 < r.lea_fixups@[j - n].0);
            } else {
                assert(acc.lea_fixups[i].0 + 1 < start);
            }
        }
    }
    let m = acc.jcc_fixups.len();
    assert forall|i: int, j: int|
        #![trigger laid.jcc_fixups[i], laid.jcc_fixups[j]]
        0 <= i < j < laid.jcc_fixups.len() implies laid.jcc_fixups[i].0
        < laid.jcc_fixups[j].0 by {
        if j >= m {
            assert(start + r.branch_fixups@[j - m].0 <= usize::MAX);
            if i >= m {
                assert(start + r.branch_fixups@[i - m].0 <= usize::MAX);
                assert(r.branch_fixups@[i - m].0 < r.branch_fixups@[j - m].0);
            } else {
                assert(acc.jcc_fixups[i].0 < start);
            }
        }
    }
}

/// Linking keeps the fixups in code order: when every run of the tree `r`
/// has fixups naming its own code, in code order, and the tree fits where
/// it is laid out, the linked output's fixups stay in code order.
pub proof fn lemma_flatten_keeps_order(r: TranslationResult, acc: Flattened)
    requires
        tree_fixups_in(r),
        tree_ordered(r),
        fits(r, acc.code.len() as int),
        flattened_fixups_in(acc),
        lea_ordered(acc.lea_fixups),
        branch_ordered(acc.jcc_fixups),
    ensures
        lea_ordered(flatten_node(r, acc).lea_fixups),
        branch_ordered(flatten_node(r, acc).jcc_fixups),
    decreases r,
{
    lemma_lay_keeps_order(r, acc);
    lemma_lay_keeps_fixups_in(r, acc);
    lemma_flatten_children_keep_order(r.children@, lay(r, acc));
}

/// `lemma_flatten_keeps_order` for the runs `cs` laid out in order.
pub proof fn lemma_flatten_children_keep_order(cs: Seq<TranslationResult>, acc: Flattened)
    requires
        children_fixups_in(cs),
        children_ordered(cs),
        children_fit(cs, acc.code.len() as int),
        flattened_fixups_in(acc),
        lea_ordered(acc.lea_fixups),
        branch_ordered(acc.jcc_fixups),
    ensures
        lea_ordered(flatten_children(cs, acc).lea_fixups),
        branch_ordered(flatten_children(cs, acc).jcc_fixups),
    decreases cs,
{
    if cs.len() > 0 {
        lemma_flatten_keeps_order(cs[0], acc);
        lemma_flatten_keeps_fixups_in(cs[0], acc);
        lemma_flatten_code_len(cs[0], acc);
        lemma_flatten_children_keep_order(cs.drop_first(), flatten_node(cs[0], acc));
    }
}

/// In linked code, every filled-in lea fixup loads the data segment's
/// address: when the fixups name the code in code order, after
/// `patch_lea` the two words at each fixup load, for a register other than
/// x0, the data segment's address into the fixup's register.
pub proof fn lemma_linked_lea_loads_data_address(
    code: Seq<u32>,
    fixups: Seq<(usize, u8, u64)>,
    k: int,
    regs: Seq<u64>,
)
    requires
        lea_fixups_in(code.len(), fixups),
        lea_ordered(fixups),
        0 <= k < fixups.len(),
        1 <= fixups[k].1 < 32,
        regs.len() == 32,
    ensures
        rv_run(patch_lea(code, fixups).subrange(fixups[k].0 as int, fixups[k].0 + 2), regs)
            == Some(reg_write(regs, fixups[k].1 as u32, DATA_VADDR)),
{
    assert forall|j: int| k < j < fixups.len() implies #[trigger] fixups[j].0 + 1 < fixups[k].0
        || fixups[k].0 + 1 < fixups[j].0 by {
        assert(fixups[k].0 + 1 < fixups[j].0);
    }
    lemma_patched_lea_loads_data_address(code, fixups, k, regs);
}

/// In linked code, every filled-in branch reaches its target: when the
/// branch fixups name words of the code in code order, each with a target
/// in `address_map` less than 4 KiB away, after `patch_branch` the word at
/// each is a `bne` of JUNKREG0 against x0 whose offset lands on the start
/// of the target's code.
pub proof fn lemma_linked_branch_reaches_target(
    code: Seq<u32>,
    fixups: Seq<(usize, usize)>,
    address_map: Map<usize, usize>,
    k: int,
)
    requires
        branch_fixups_in(code.len(), fixups, address_map),
        branch_ordered(fixups),
        4 * code.len() <= isize::MAX,
        0 <= k < fixups.len(),
        4 * address_map[fixups[k].1] <= isize::MAX,
        -4096 <= 4 * address_map[fixups[k].1] - 4 * fixups[k].0 < 4096,
    ensures
        ({
            let w = patch_branch(code, fixups, address_map)[fixups[k].0 as int];
            &&& w & 0x7fu32 == OP_BRANCH
            &&& (w >> 12u32) & 0x7u32 == 1
            &&& (w >> 15u32) & 0x1fu32 == JUNKREG0 as u32
            &&& (w >> 20u32) & 0x1fu32 == 0
            &&& 4 * fixups[k].0 + branch_imm(w) == 4 * address_map[fixups[k].1]
        }),
{
    assert forall|j: int| k < j < fixups.len() implies #[trigger] fixups[j].0 != fixups[k].0 by {
        assert(fixups[k].0 < fixups[j].0);
    }
    lemma_patched_branch_reaches_target(code, fixups, address_map, k);
}

} // verus!

verus! {

/// The x86 offsets of the runs in the tree `r`.
pub open spec fn tree_addresses(r: TranslationResult) -> Set<usize>
    decreases r,
{
    set![r.code_address] + children_addresses(r.children@)
}

/// The x86 offsets of the runs in the trees `cs`.
pub open spec fn children_addresses(cs: Seq<TranslationResult>) -> Set<usize>
    decreases cs,
{
    if cs.len() == 0 {
        Set::empty()
    } else {
        tree_addresses(cs[0]) + children_addresses(cs.drop_first())
    }
}

/// Linking maps every run: after the tree `r` is laid out, `address_map`
/// holds the x86 offset of every run in the tree, and every offset it held
/// before.
pub proof fn lemma_flatten_maps_every_run(r: TranslationResult, acc: Flattened)
    ensures
        acc.address_map.dom() <= flatten_node(r, acc).address_map.dom(),
        tree_addresses(r) <= flatten_node(r, acc).address_map.dom(),
    decreases r,
{
    lemma_flatten_children_map_every_run(r.children@, lay(r, acc));
}

/// `lemma_flatten_maps_every_run` for the runs `cs` laid out in order.
pub proof fn lemma_flatten_children_map_every_run(cs: Seq<TranslationResult>, acc: Flattened)
    ensures
        acc.address_map.dom() <= flatten_children(cs, acc).address_map.dom(),
        children_addresses(cs) <= flatten_children(cs, acc).address_map.dom(),
    decreases cs,
{
    if cs.len() > 0 {
        lemma_flatten_maps_every_run(cs[0], acc);
        lemma_flatten_children_map_every_run(cs.drop_first(), flatten_node(cs[0], acc));
    }
}

} // verus!

verus! {

/// The words of run `r` that its lea fixups name, pair by pair, in order.
pub open spec fn node_lea_words(r: TranslationResult) -> Seq<(u32, u32)> {
    r.lea_fixups@.map_values(|f: (usize, u8, u64)| (r.code@[f.0 as int], r.code@[f.0 + 1]))
}

/// The words of run `r` that its branch fixups name, in order.
pub open spec fn node_branch_words(r: TranslationResult) -> Seq<u32> {
    r.branch_fixups@.map_values(|f: (usize, usize)| r.code@[f.0 as int])
}

/// `node_lea_words` of every run of the tree `r`, each run before its
/// children.
pub open spec fn tree_lea_words(r: TranslationResult) -> Seq<(u32, u32)>
    decreases r,
{
    node_lea_words(r) + children_lea_words(r.children@)
}

/// `tree_lea_words` of the trees `cs`, in order.
pub open spec fn children_lea_words(cs: Seq<TranslationResult>) -> Seq<(u32, u32)>
    decreases cs,
{
    if cs.len() == 0 {
        Seq::empty()
    } else {
        tree_lea_words(cs[0]) + children_lea_words(cs.drop_first())
    }
}

/// `node_branch_words` of every run of the tree `r`, each run before its
/// children.
pub open spec fn tree_branch_words(r: TranslationResult) -> Seq<u32>
    decreases r,
{
    node_branch_words(r) + children_branch_words(r.children@)
}

/// `tree_branch_words` of the trees `cs`, in order.
pub open spec fn children_branch_words(cs: Seq<TranslationResult>) -> Seq<u32>
    decreases cs,
{
    if cs.len() == 0 {
        Seq::empty()
    } else {
        tree_branch_words(cs[0]) + children_branch_words(cs.drop_first())
    }
}

/// The fixups from position `from` on of the linked output `f` name, in
/// `f.code`, the lea words `lea` and the branch words `branch`, one for one.
pub open spec fn names_words(
    f: Flattened,
    lea_from: int,
    lea: Seq<(u32, u32)>,
    branch_from: int,
    branch: Seq<u32>,
) -> bool {
    &&& f.lea_fixups.len() == lea_from + lea.len()
    &&& f.jcc_fixups.len() == branch_from + branch.len()
    &&& forall|j: int|
        0 <= j < lea.len() ==> {
            &&& f.code[f.lea_fixups[lea_from + j].0 as int] == (#[trigger] lea[j]).0
            &&& f.code[f.lea_fixups[lea_from + j].0 + 1] == lea[j].1
        }
    &&& forall|j: int|
        0 <= j < branch.len() ==> f.code[f.jcc_fixups[branch_from + j].0 as int]
            == #[trigger] branch[j]
}

/// Laying out only appends: what `acc` held stays at the front of the code
/// and of both fixup lists.
pub proof fn lemma_flatten_appends(r: TranslationResult, acc: Flattened)
    ensures
        flatten_node(r, acc).code.len() >= acc.code.len(),
        flatten_node(r, acc).code.subrange(0, acc.code.len() as int) == acc.code,
        flatten_node(r, acc).lea_fixups.len() >= acc.lea_fixups.len(),
        flatten_node(r, acc).lea_fixups.subrange(0, acc.lea_fixups.len() as int)
            == acc.lea_fixups,
        flatten_node(r, acc).jcc_fixups.len() >= acc.jcc_fixups.len(),
        flatten_node(r, acc).jcc_fixups.subrange(0, acc.jcc_fixups.len() as int)
            == acc.jcc_fixups,
    decreases r,
{
    let laid = lay(r, acc);
    assert(laid.code.subrange(0, acc.code.len() as int) =~= acc.code);
    assert(laid.lea_fixups.subrange(0, acc.lea_fixups.len() as int) =~= acc.lea_fixups);
    assert(laid.jcc_fixups.subrange(0, acc.jcc_fixups.len() as int) =~= acc.jcc_fixups);
    lemma_flatten_children_append(r.children@, laid);
    let f = flatten_node(r, acc);
    assert(f.code.subrange(0, acc.code.len() as int) =~= f.code.subrange(
        0,
        laid.code.len() as int,
    ).subrange(0, acc.code.len() as int));
    assert(f.lea_fixups.subrange(0, acc.lea_fixups.len() as int) =~= f.lea_fixups.subrange(
        0,
        laid.lea_fixups.len() as int,
    ).subrange(0, acc.lea_fixups.len() as int));
    assert(f.jcc_fixups.subrange(0, acc.jcc_fixups.len() as int) =~= f.jcc_fixups.subrange(
        0,
        laid.jcc_fixups.len() as int,
    ).subrange(0, acc.jcc_fixups.len() as int));
}

/// `lemma_flatten_appends` for the runs `cs` laid out in order.
pub proof fn lemma_flatten_children_append(cs: Seq<TranslationResult>, acc: Flattened)
    ensures
        flatten_children(cs, acc).code.len() >= acc.code.len(),
        flatten_children(cs, acc).code.subrange(0, acc.code.len() as int) == acc.code,
        flatten_children(cs, acc).lea_fixups.len() >= acc.lea_fixups.len(),
        flatten_children(cs, acc).lea_fixups.subrange(0, acc.lea_fixups.len() as int)
            == acc.lea_fixups,
        flatten_children(cs, acc).jcc_fixups.len() >= acc.jcc_fixups.len(),
        flatten_children(cs, acc).jcc_fixups.subrange(0, acc.jcc_fixups.len() as int)
            == acc.jcc_fixups,
    decreases cs,
{
    if cs.len() == 0 {
        assert(acc.code.subrange(0, acc.code.len() as int) =~= acc.code);
        assert(acc.lea_fixups.subrange(0, acc.lea_fixups.len() as int) =~= acc.lea_fixups);
        assert(acc.jcc_fixups.subrange(0, acc.jcc_fixups.len() as int) =~= acc.jcc_fixups);
    } else {
        let mid = flatten_node(cs[0], acc);
        lemma_flatten_appends(cs[0], acc);
        lemma_flatten_children_append(cs.drop_first(), mid);
        let f = flatten_children(cs, acc);
        assert(f.code.subrange(0, acc.code.len() as int) =~= f.code.subrange(
            0,
            mid.code.len() as int,
        ).subrange(0, acc.code.len() as int));
        assert(f.lea_fixups.subrange(0, acc.lea_fixups.len() as int) =~= f.lea_fixups.subrange(
            0,
            mid.lea_fixups.len() as int,
        ).subrange(0, acc.lea_fixups.len() as int));
        assert(f.jcc_fixups.subrange(0, acc.jcc_fixups.len() as int) =~= f.jcc_fixups.subrange(
            0,
            mid.jcc_fixups.len() as int,
        ).subrange(0, acc.jcc_fixups.len() as int));
    }
}

/// What appending keeps: fixups before position `lea_from` / `branch_from`
/// that named words of `old` name the same words in `new`.
proof fn lemma_names_words_kept(
    old: Flattened,
    new: Flattened,
    lea_from: int,
    lea: Seq<(u32, u32)>,
    branch_from: int,
    branch: Seq<u32>,
)
    requires
        0 <= lea_from,
        0 <= branch_from,
        names_words(old, lea_from, lea, branch_from, branch),
        flattened_fixups_in(old),
        new.code.len() >= old.code.len(),
        new.code.subrange(0, old.code.len() as int) == old.code,
        new.lea_fixups.len() >= old.lea_fixups.len(),
        new.lea_fixups.subrange(0, old.lea_fixups.len() as int) == old.lea_fixups,
        new.jcc_fixups.len() >= old.jcc_fixups.len(),
        new.jcc_fixups.subrange(0, old.jcc_fixups.len() as int) == old.jcc_fixups,
    ensures
        forall|j: int|
            0 <= j < lea.len() ==> {
                &&& new.code[new.lea_fixups[lea_from + j].0 as int] == (#[trigger] lea[j]).0
                &&& new.code[new.lea_fixups[lea_from + j].0 + 1] == lea[j].1
            },
        forall|j: int|
            0 <= j < branch.len() ==> new.code[new.jcc_fixups[branch_from + j].0 as int]
                == #[trigger] branch[j],
{
    assert forall|j: int| 0 <= j < lea.len() implies {
        &&& new.code[new.lea_fixups[lea_from + j].0 as int] == (#[trigger] lea[j]).0
        &&& new.code[new.lea_fixups[lea_from + j].0 + 1] == lea[j].1
    } by {
        let i = lea_from + j;
        assert(new.lea_fixups.subrange(0, old.lea_fixups.len() as int)[i] == new.lea_fixups[i]);
        let g = old.lea_fixups[i];
        assert(g.0 + 1 < old.code.len());
        assert(new.code.subrange(0, old.code.len() as int)[g.0 as int] == new.code[g.0 as int]);
        assert(new.code.subrange(0, old.code.len() as int)[g.0 + 1] == new.code[g.0 + 1]);
    }
    assert forall|j: int| 0 <= j < branch.len() implies new.code[new.jcc_fixups[branch_from
        + j].0 as int] == #[trigger] branch[j] by {
        let i = branch_from + j;
        assert(new.jcc_fixups.subrange(0, old.jcc_fixups.len() as int)[i] == new.jcc_fixups[i]);
        let g = old.jcc_fixups[i];
        assert(g.0 < old.code.len());
        assert(new.code.subrange(0, old.code.len() as int)[g.0 as int] == new.code[g.0 as int]);
    }
}

/// Laying out a run keeps its fixups on its own words: in `lay(r, acc)`
/// each moved lea or branch fixup of `r` names the words it named in `r`.
pub proof fn lemma_lay_names_words(r: TranslationResult, acc: Flattened)
    requires
        node_fixups_in(r),
        fits(r, acc.code.len() as int),
    ensures
        names_words(
            lay(r, acc),
            acc.lea_fixups.len() as int,
            node_lea_words(r),
            acc.jcc_fixups.len() as int,
            node_branch_words(r),
        ),
{
    let laid = lay(r, acc);
    let start = acc.code.len();
    let n = acc.lea_fixups.len();
    let m = acc.jcc_fixups.len();
    assert forall|j: int| 0 <= j < node_lea_words(r).len() implies {
        &&& laid.code[laid.lea_fixups[n + j].0 as int] == (#[trigger] node_lea_words(r)[j]).0
        &&& laid.code[laid.lea_fixups[n + j].0 + 1] == node_lea_words(r)[j].1
    } by {
        let f = r.lea_fixups@[j];
        assert(f.0 + 1 < r.code@.len());
        assert(start + f.0 <= usize::MAX);
        assert(laid.lea_fixups[n + j].0 == start + f.0);
    }
    assert forall|j: int| 0 <= j < node_branch_words(r).len() implies laid.code[laid.jcc_fixups[m
        + j].0 as int] == #[trigger] node_branch_words(r)[j] by {
        let f = r.branch_fixups@[j];
        assert(f.0 < r.code@.len());
        assert(start + f.0 <= usize::MAX);
        assert(laid.jcc_fixups[m + j].0 == start + f.0);
    }
}

/// Linking keeps every fixup on its run's own words: after the tree `r`
/// is laid out, the lea and branch fixups it adds name, in the linked code,
/// exactly the words that each run's fixups named in that run's own code,
/// run by run, each run before its children.
pub proof fn lemma_flatten_keeps_fixup_words(r: TranslationResult, acc: Flattened)
    requires
        tree_fixups_in(r),
        fits(r, acc.code.len() as int),
        flattened_fixups_in(acc),
    ensures
        names_words(
            flatten_node(r, acc),
            acc.lea_fixups.len() as int,
            tree_lea_words(r),
            acc.jcc_fixups.len() as int,
            tree_branch_words(r),
        ),
    decreases r,
{
    let laid = lay(r, acc);
    lemma_lay_names_words(r, acc);
    lemma_lay_keeps_fixups_in(r, acc);
    lemma_flatten_children_keep_fixup_words(r.children@, laid);
    lemma_flatten_children_append(r.children@, laid);
    let f = flatten_node(r, acc);
    lemma_names_words_kept(
        laid,
        f,
        acc.lea_fixups.len() as int,
        node_lea_words(r),
        acc.jcc_fixups.len() as int,
        node_branch_words(r),
    );
    let nl = node_lea_words(r);
    let cl = children_lea_words(r.children@);
    let nb = node_branch_words(r);
    let cb = children_branch_words(r.children@);
    let n = acc.lea_fixups.len() as int;
    let m = acc.jcc_fixups.len() as int;
    assert forall|j: int| 0 <= j < tree_lea_words(r).len() implies {
        &&& f.code[f.lea_fixups[n + j].0 as int] == (#[trigger] tree_lea_words(r)[j]).0
        &&& f.code[f.lea_fixups[n + j].0 + 1] == tree_lea_words(r)[j].1
    } by {
        if j < nl.len() {
            assert(tree_lea_words(r)[j] == nl[j]);
        } else {
            assert(tree_lea_words(r)[j] == cl[j - nl.len()]);
            assert(n + j == laid.lea_fixups.len() + (j - nl.len()));
        }
    }
    assert forall|j: int| 0 <= j < tree_branch_words(r).len() implies f.code[f.jcc_fixups[m
        + j].0 as int] == #[trigger] tree_branch_words(r)[j] by {
        if j < nb.len() {
            assert(tree_branch_words(r)[j] == nb[j]);
        } else {
            assert(tree_branch_words(r)[j] == cb[j - nb.len()]);
            assert(m + j == laid.jcc_fixups.len() + (j - nb.len()));
        }
    }
}

/// `lemma_flatten_keeps_fixup_words` for the runs `cs` laid out in order.
pub proof fn lemma_flatten_children_keep_fixup_words(cs: Seq<TranslationResult>, acc: Flattened)
    requires
        children_fixups_in(cs),
        children_fit(cs, acc.code.len() as int),
        flattened_fixups_in(acc),
    ensures
        names_words(
            flatten_children(cs, acc),
            acc.lea_fixups.len() as int,
            children_lea_words(cs),
            acc.jcc_fixups.len() as int,
            children_branch_words(cs),
        ),
    decreases cs,
{
    if cs.len() > 0 {
        let mid = flatten_node(cs[0], acc);
        lemma_flatten_keeps_fixup_words(cs[0], acc);
        lemma_flatten_keeps_fixups_in(cs[0], acc);
        lemma_flatten_code_len(cs[0], acc);
        lemma_flatten_children_keep_fixup_words(cs.drop_first(), mid);
        lemma_flatten_children_append(cs.drop_first(), mid);
        let f = flatten_children(cs, acc);
        lemma_names_words_kept(
            mid,
            f,
            acc.lea_fixups.len() as int,
            tree_lea_words(cs[0]),
            acc.jcc_fixups.len() as int,
            tree_branch_words(cs[0]),
        );
        let hl = tree_lea_words(cs[0]);
        let rl = children_lea_words(cs.drop_first());
        let hb = tree_branch_words(cs[0]);
        let rb = children_branch_words(cs.drop_first());
        let n = acc.lea_fixups.len() as int;
        let m = acc.jcc_fixups.len() as int;
        assert forall|j: int| 0 <= j < children_lea_words(cs).len() implies {
            &&& f.code[f.lea_fixups[n + j].0 as int] == (#[trigger] children_lea_words(cs)[j]).0
            &&& f.code[f.lea_fixups[n + j].0 + 1] == children_lea_words(cs)[j].1
        } by {
            if j < hl.len() {
                assert(children_lea_words(cs)[j] == hl[j]);
            } else {
                assert(children_lea_words(cs)[j] == rl[j - hl.len()]);
                assert(n + j == mid.lea_fixups.len() + (j - hl.len()));
            }
        }
        assert forall|j: int| 0 <= j < children_branch_words(cs).len() implies f.code[f.jcc_fixups[m
            + j].0 as int] == #[trigger] children_branch_words(cs)[j] by {
            if j < hb.len() {
                assert(children_branch_words(cs)[j] == hb[j]);
            } else {
                assert(children_branch_words(cs)[j] == rb[j - hb.len()]);
                assert(m + j == mid.jcc_fixups.len() + (j - hb.len()));
            }
        }
    }
}

} // verus!

verus! {

/// The code of every run of the tree `r`, each run before its children.
pub open spec fn tree_code(r: TranslationResult) -> Seq<u32>
    decreases r,
{
    r.code@ + children_code(r.children@)
}

/// `tree_code` of the trees `cs`, in order.
pub open spec fn children_code(cs: Seq<TranslationResult>) -> Seq<u32>
    decreases cs,
{
    if cs.len() == 0 {
        Seq::empty()
    } else {
        tree_code(cs[0]) + children_code(cs.drop_first())
    }
}

/// The lea fixups of every run of the tree `r`, laid out from code index
/// `start`, each moved by the index where its run's code starts: `r`'s own
/// at `start`, then its children's from `start + r.code.len()` on, each
/// child after the span of the ones before it.
pub open spec fn tree_moved_lea(r: TranslationResult, start: int) -> Seq<(usize, u8, u64)>
    decreases r,
{
    shift_lea(r.lea_fixups@, start) + children_moved_lea(r.children@, start + r.code@.len())
}

/// `tree_moved_lea` of the trees `cs` laid out in order from `start`.
pub open spec fn children_moved_lea(cs: Seq<TranslationResult>, start: int) -> Seq<
    (usize, u8, u64),
>
    decreases cs,
{
    if cs.len() == 0 {
        Seq::empty()
    } else {
        tree_moved_lea(cs[0], start) + children_moved_lea(cs.drop_first(), start + span(cs[0]))
    }
}

/// The branch fixups of every run of the tree `r`, moved as in
/// `tree_moved_lea`.
pub open spec fn tree_moved_branch(r: TranslationResult, start: int) -> Seq<(usize, usize)>
    decreases r,
{
    shift_branch(r.branch_fixups@, start) + children_moved_branch(
        r.children@,
        start + r.code@.len(),
    )
}

/// `tree_moved_branch` of the trees `cs` laid out in order from `start`.
pub open spec fn children_moved_branch(cs: Seq<TranslationResult>, start: int) -> Seq<
    (usize, usize),
>
    decreases cs,
{
    if cs.len() == 0 {
        Seq::empty()
    } else {
        tree_moved_branch(cs[0], start) + children_moved_branch(
            cs.drop_first(),
            start + span(cs[0]),
        )
    }
}

/// Linking in list form: laying out the tree `r` appends the code of its
/// runs in pre-order (`r`'s own code first, at the index where it starts),
/// and appends every run's lea and branch fixups, in the same order, each
/// moved by the index where its run's code starts.
pub proof fn lemma_flatten_lists(r: TranslationResult, acc: Flattened)
    ensures
        flatten_node(r, acc).code == acc.code + tree_code(r),
        flatten_node(r, acc).code.subrange(
            acc.code.len() as int,
            (acc.code.len() + r.code@.len()) as int,
        ) == r.code@,
        flatten_node(r, acc).lea_fixups == acc.lea_fixups + tree_moved_lea(
            r,
            acc.code.len() as int,
        ),
        flatten_node(r, acc).jcc_fixups == acc.jcc_fixups + tree_moved_branch(
            r,
            acc.code.len() as int,
        ),
    decreases r,
{
    let laid = lay(r, acc);
    let start = acc.code.len() as int;
    lemma_flatten_children_lists(r.children@, laid);
    assert(laid.code + children_code(r.children@) =~= acc.code + tree_code(r));
    assert((acc.code + tree_code(r)).subrange(start, start + r.code@.len()) =~= r.code@);
    assert(laid.lea_fixups + children_moved_lea(r.children@, start + r.code@.len())
        =~= acc.lea_fixups + tree_moved_lea(r, start));
    assert(laid.jcc_fixups + children_moved_branch(r.children@, start + r.code@.len())
        =~= acc.jcc_fixups + tree_moved_branch(r, start));
}

/// `lemma_flatten_lists` for the runs `cs` laid out in order.
pub proof fn lemma_flatten_children_lists(cs: Seq<TranslationResult>, acc: Flattened)
    ensures
        flatten_children(cs, acc).code == acc.code + children_code(cs),
        flatten_children(cs, acc).lea_fixups == acc.lea_fixups + children_moved_lea(
            cs,
            acc.code.len() as int,
        ),
        flatten_children(cs, acc).jcc_fixups == acc.jcc_fixups + children_moved_branch(
            cs,
            acc.code.len() as int,
        ),
    decreases cs,
{
    let start = acc.code.len() as int;
    if cs.len() == 0 {
        assert(acc.code + children_code(cs) =~= acc.code);
        assert(acc.lea_fixups + children_moved_lea(cs, start) =~= acc.lea_fixups);
        assert(acc.jcc_fixups + children_moved_branch(cs, start) =~= acc.jcc_fixups);
    } else {
        let mid = flatten_node(cs[0], acc);
        lemma_flatten_lists(cs[0], acc);
        lemma_flatten_code_len(cs[0], acc);
        lemma_flatten_children_lists(cs.drop_first(), mid);
        assert(mid.code + children_code(cs.drop_first()) =~= acc.code + children_code(cs));
        assert(mid.lea_fixups + children_moved_lea(cs.drop_first(), start + span(cs[0]))
            =~= acc.lea_fixups + children_moved_lea(cs, start));
        assert(mid.jcc_fixups + children_moved_branch(cs.drop_first(), start + span(cs[0]))
            =~= acc.jcc_fixups + children_moved_branch(cs, start));
    }
}

} // verus!
