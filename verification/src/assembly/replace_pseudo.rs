//! Replaces every pseudo register by a stack slot of its own.
use vstd::hash_map::StringHashMap;
use vstd::prelude::*;

use crate::assembly;

verus! {

/// The operands of an instruction that this pass rewrites, in the order in which
/// it visits them.
pub open spec fn replaced_operands(instruction: assembly::Instruction) -> Seq<assembly::Operand> {
    match instruction {
        assembly::Instruction::Unary { operand, .. } => seq![operand],
        assembly::Instruction::Move { src, dst } => seq![src, dst],
        assembly::Instruction::Binary { left, right, .. } => seq![left, right],
        assembly::Instruction::Idiv(operand) => seq![operand],
        assembly::Instruction::Cmp { left, right } => seq![left, right],
        assembly::Instruction::SetCC { operand, .. } => seq![operand],
        _ => seq![],
    }
}

/// `slots` with `name` appended, unless it already holds it.
pub open spec fn add_name(slots: Seq<Seq<char>>, name: Seq<char>) -> Seq<Seq<char>> {
    if slots.contains(name) {
        slots
    } else {
        slots.push(name)
    }
}

pub open spec fn add_operand(slots: Seq<Seq<char>>, operand: assembly::Operand) -> Seq<Seq<char>> {
    match operand {
        assembly::Operand::Pseudo(name) => add_name(slots, name@),
        _ => slots,
    }
}

pub open spec fn add_operands(slots: Seq<Seq<char>>, operands: Seq<assembly::Operand>) -> Seq<Seq<char>>
    decreases operands.len(),
{
    if operands.len() == 0 {
        slots
    } else {
        add_operand(add_operands(slots, operands.drop_last()), operands.last())
    }
}

pub open spec fn add_instructions(slots: Seq<Seq<char>>, instructions: Seq<assembly::Instruction>) -> Seq<Seq<char>>
    decreases instructions.len(),
{
    if instructions.len() == 0 {
        slots
    } else {
        add_operands(
            add_instructions(slots, instructions.drop_last()),
            replaced_operands(instructions.last()),
        )
    }
}

/// The pseudo register names of a body, each once, in the order of their first
/// appearance: the name at index `i` gets the stack slot `-4 * (i + 1)`.
pub open spec fn stack_slots(instructions: Seq<assembly::Instruction>) -> Seq<Seq<char>> {
    add_instructions(seq![], instructions)
}

/// The index of `name` in `slots`, counted from the start.
pub open spec fn slot_index(slots: Seq<Seq<char>>, name: Seq<char>) -> int
    decreases slots.len(),
{
    if slots.len() == 0 {
        0
    } else if slots.last() == name {
        slots.len() - 1
    } else {
        slot_index(slots.drop_last(), name)
    }
}

pub open spec fn slot_offset(slots: Seq<Seq<char>>, name: Seq<char>) -> int {
    -4 * (slot_index(slots, name) + 1)
}

pub open spec fn replace_operand_with(operand: assembly::Operand, slots: Seq<Seq<char>>) -> assembly::Operand {
    match operand {
        assembly::Operand::Pseudo(name) => assembly::Operand::Stack(slot_offset(slots, name@) as i32),
        other => other,
    }
}

pub open spec fn replace_instruction_with(
    instruction: assembly::Instruction,
    slots: Seq<Seq<char>>,
) -> assembly::Instruction {
    match instruction {
        assembly::Instruction::Unary { op, operand } => assembly::Instruction::Unary {
            op,
            operand: replace_operand_with(operand, slots),
        },
        assembly::Instruction::Move { src, dst } => assembly::Instruction::Move {
            src: replace_operand_with(src, slots),
            dst: replace_operand_with(dst, slots),
        },
        assembly::Instruction::Binary { op, left, right } => assembly::Instruction::Binary {
            op,
            left: replace_operand_with(left, slots),
            right: replace_operand_with(right, slots),
        },
        assembly::Instruction::Idiv(operand) => assembly::Instruction::Idiv(
            replace_operand_with(operand, slots),
        ),
        assembly::Instruction::Cmp { left, right } => assembly::Instruction::Cmp {
            left: replace_operand_with(left, slots),
            right: replace_operand_with(right, slots),
        },
        assembly::Instruction::SetCC { cond_code, operand } => assembly::Instruction::SetCC {
            cond_code,
            operand: replace_operand_with(operand, slots),
        },
        other => other,
    }
}

/// `replaced` is `function` with each pseudo register replaced by its stack slot
/// and the stack size set to the four bytes that each slot takes.
pub open spec fn is_replaced_function(function: assembly::Function, replaced: assembly::Function) -> bool {
    let slots = stack_slots(function.instructions@);
    &&& replaced.name == function.name
    &&& replaced.stack_size == 4 * slots.len()
    &&& replaced.instructions@.len() == function.instructions@.len()
    &&& forall|i: int|
        0 <= i < function.instructions@.len() ==> #[trigger] replaced.instructions@[i]
            == replace_instruction_with(function.instructions@[i], slots)
}

/// The bound on the number of pseudo registers of a body under which every stack
/// offset, the next free one and the frame size fit in an `i32`.
pub open spec fn fits_stack(function: assembly::Function) -> bool {
    stack_slots(function.instructions@).len() < 0x2000_0000
}

pub fn replace_pseudo_registers(program: assembly::Program) -> (result: assembly::Program)
    requires
        forall|i: int| 0 <= i < program.functions@.len() ==> fits_stack(#[trigger] program.functions@[i]),
    ensures
        result.functions@.len() == program.functions@.len(),
        forall|i: int|
            0 <= i < program.functions@.len() ==> is_replaced_function(
                program.functions@[i],
                #[trigger] result.functions@[i],
            ),
{
    let mut functions: Vec<assembly::Function> = Vec::new();
    for function in it: program.functions
        invariant
            it.seq() == program.functions@,
            forall|i: int| 0 <= i < program.functions@.len() ==> fits_stack(#[trigger] program.functions@[i]),
            functions@.len() == it.index(),
            forall|i: int|
                0 <= i < it.index() ==> is_replaced_function(
                    program.functions@[i],
                    #[trigger] functions@[i],
                ),
    {
        let mut allocator = StackAllocator::new();
        functions.push(allocator.replace_function(function));
    }
    assembly::Program { functions }
}

struct StackAllocator {
    identifier_offsets: StringHashMap<i32>,
    next_offset: i32,
}

impl StackAllocator {
    /// The allocator hands out the slots of `slots`, and the next one after them.
    spec fn holds(self, slots: Seq<Seq<char>>) -> bool {
        &&& slots.no_duplicates()
        &&& self.next_offset == -4 * (slots.len() + 1)
        &&& forall|name: Seq<char>| #[trigger] self.identifier_offsets@.contains_key(name) <==> slots.contains(name)
        &&& forall|name: Seq<char>| #[trigger] self.identifier_offsets@.contains_key(name)
            ==> self.identifier_offsets@[name] == slot_offset(slots, name)
    }

    fn new() -> (result: Self)
        ensures
            result.holds(seq![]),
    {
        Self { identifier_offsets: StringHashMap::new(), next_offset: -4 }
    }

    fn offset_for(&mut self, name: &String, Ghost(slots): Ghost<Seq<Seq<char>>>) -> (offset: i32)
        requires
            old(self).holds(slots),
            add_name(slots, name@).len() < 0x2000_0000,
        ensures
            final(self).holds(add_name(slots, name@)),
            offset == slot_offset(add_name(slots, name@), name@),
    {
        proof { lemma_slot_of_added(slots, name@); }
        match self.identifier_offsets.get(name.as_str()) {
            Some(offset) => {
                assert(slots.contains(name@));
                assert(add_name(slots, name@) == slots);
                *offset
            },
            None => {
                let offset = self.next_offset;
                self.identifier_offsets.insert(name.clone(), offset);
                self.next_offset = self.next_offset - 4;
                proof {
                    let new_slots = slots.push(name@);
                    assert(!slots.contains(name@));
                    assert(add_name(slots, name@) == new_slots);
                    assert(new_slots.len() == slots.len() + 1);
                    assert forall|n: Seq<char>| #[trigger] self.identifier_offsets@.contains_key(n)
                        implies self.identifier_offsets@[n] == slot_offset(new_slots, n) by {
                        if n != name@ {
                            assert(slots.contains(n));
                        }
                    }
                    assert forall|n: Seq<char>| #[trigger] self.identifier_offsets@.contains_key(n)
                        implies new_slots.contains(n) by {
                        if n != name@ {
                            let k = choose|k: int| 0 <= k < slots.len() && slots[k] == n;
                            assert(new_slots[k] == n);
                        } else {
                            assert(new_slots[slots.len() as int] == n);
                        }
                    }
                    assert forall|n: Seq<char>| new_slots.contains(n)
                        implies #[trigger] self.identifier_offsets@.contains_key(n) by {
                        if n != name@ {
                            let k = choose|k: int| 0 <= k < new_slots.len() && new_slots[k] == n;
                            assert(slots[k] == n);
                        }
                    }
                }
                offset
            },
        }
    }

    fn replace_function(&mut self, function: assembly::Function) -> (result: assembly::Function)
        requires
            old(self).holds(seq![]),
            fits_stack(function),
        ensures
            is_replaced_function(function, result),
    {
        let ghost source_body = function.instructions@;
        let ghost mut slots: Seq<Seq<char>> = seq![];
        let mut instructions: Vec<assembly::Instruction> = Vec::new();
        for instruction in it: function.instructions
            invariant
                it.seq() == source_body,
                stack_slots(source_body).len() < 0x2000_0000,
                self.holds(slots),
                slots == add_instructions(seq![], source_body.take(it.index() as int)),
                instructions@.len() == it.index(),
                forall|i: int| 0 <= i < it.index() ==> names_within(#[trigger] source_body[i], slots),
                forall|i: int|
                    0 <= i < it.index() ==> #[trigger] instructions@[i] == replace_instruction_with(
                        source_body[i],
                        slots,
                    ),
        {
            let ghost before = slots;
            proof {
                assert(source_body.take(it.index() + 1).drop_last() =~= source_body.take(it.index() as int));
                lemma_add_instructions_take(seq![], source_body, it.index() + 1);
            }
            let replaced = self.replace_instruction(instruction, Ghost(slots));
            proof {
                slots = add_operands(before, replaced_operands(source_body[it.index() as int]));
                assert(source_body.take(it.index() + 1).drop_last() =~= source_body.take(it.index() as int));
                lemma_add_operands_extends(before, replaced_operands(source_body[it.index() as int]));
                assert forall|i: int| 0 <= i < it.index() implies names_within(#[trigger] source_body[i], slots)
                    && instructions@[i] == replace_instruction_with(source_body[i], slots) by {
                    lemma_names_within_extended(source_body[i], before, slots);
                    lemma_replace_stable(source_body[i], before, slots);
                }
            }
            instructions.push(replaced);
        }
        proof {
            assert(source_body.take(source_body.len() as int) =~= source_body);
        }
        assembly::Function {
            name: function.name,
            instructions,
            stack_size: 0 - (self.next_offset + 4),
        }
    }

    fn replace_instruction(
        &mut self,
        instruction: assembly::Instruction,
        Ghost(slots): Ghost<Seq<Seq<char>>>,
    ) -> (result: assembly::Instruction)
        requires
            old(self).holds(slots),
            add_operands(slots, replaced_operands(instruction)).len() < 0x2000_0000,
        ensures
            final(self).holds(add_operands(slots, replaced_operands(instruction))),
            add_operands(slots, replaced_operands(instruction)).len() <= slots.len() + 2,
            names_within(instruction, add_operands(slots, replaced_operands(instruction))),
            result == replace_instruction_with(
                instruction,
                add_operands(slots, replaced_operands(instruction)),
            ),
    {
        let ghost ops = replaced_operands(instruction);
        proof {
            lemma_add_operands_extends(slots, ops);
            reveal_with_fuel(add_operands, 3);
        }
        let result = match instruction {
            assembly::Instruction::Unary { op, operand } => {
                let operand = self.replace_operand(operand, Ghost(slots));
                assembly::Instruction::Unary { op, operand }
            },
            assembly::Instruction::Move { src, dst } => {
                let ghost s1 = add_operand(slots, src);
                let ghost d = dst;
                let src = self.replace_operand(src, Ghost(slots));
                let dst = self.replace_operand(dst, Ghost(s1));
                proof {
                    lemma_add_operand_extends(s1, d);
                }
                assembly::Instruction::Move { src, dst }
            },
            assembly::Instruction::Binary { op, left, right } => {
                let ghost s1 = add_operand(slots, left);
                let ghost r = right;
                let left = self.replace_operand(left, Ghost(slots));
                let right = self.replace_operand(right, Ghost(s1));
                proof {
                    lemma_add_operand_extends(s1, r);
                }
                assembly::Instruction::Binary { op, left, right }
            },
            assembly::Instruction::Idiv(operand) => {
                assembly::Instruction::Idiv(self.replace_operand(operand, Ghost(slots)))
            },
            assembly::Instruction::Cmp { left, right } => {
                let ghost s1 = add_operand(slots, left);
                let ghost r = right;
                let left = self.replace_operand(left, Ghost(slots));
                let right = self.replace_operand(right, Ghost(s1));
                proof {
                    lemma_add_operand_extends(s1, r);
                }
                assembly::Instruction::Cmp { left, right }
            },
            assembly::Instruction::SetCC { cond_code, operand } => {
                let operand = self.replace_operand(operand, Ghost(slots));
                assembly::Instruction::SetCC { cond_code, operand }
            },
            other => other,
        };
        proof {
            lemma_names_within_added(instruction, slots);
        }
        result
    }

    fn replace_operand(&mut self, operand: assembly::Operand, Ghost(slots): Ghost<Seq<Seq<char>>>) -> (result: assembly::Operand)
        requires
            old(self).holds(slots),
            add_operand(slots, operand).len() < 0x2000_0000,
        ensures
            final(self).holds(add_operand(slots, operand)),
            result == replace_operand_with(operand, add_operand(slots, operand)),
    {
        match operand {
            assembly::Operand::Pseudo(name) => assembly::Operand::Stack(self.offset_for(&name, Ghost(slots))),
            other => other,
        }
    }
}

/// Every pseudo register that `instruction` names is in `slots`.
pub open spec fn names_within(instruction: assembly::Instruction, slots: Seq<Seq<char>>) -> bool {
    forall|i: int|
        0 <= i < replaced_operands(instruction).len() ==> match #[trigger] replaced_operands(instruction)[i] {
            assembly::Operand::Pseudo(name) => slots.contains(name@),
            _ => true,
        }
}

/// The slot index of a name that `slots` holds points at that name.
proof fn lemma_slot_index_points(slots: Seq<Seq<char>>, name: Seq<char>)
    requires
        slots.contains(name),
    ensures
        0 <= slot_index(slots, name) < slots.len(),
        slots[slot_index(slots, name)] == name,
    decreases slots.len(),
{
    if slots.last() != name {
        let k = choose|k: int| 0 <= k < slots.len() && slots[k] == name;
        assert(slots.drop_last()[k] == name);
        lemma_slot_index_points(slots.drop_last(), name);
    }
}

/// In a sequence without repetition, the slot index of a name is its only position.
proof fn lemma_slot_index_unique(slots: Seq<Seq<char>>, name: Seq<char>, k: int)
    requires
        slots.no_duplicates(),
        0 <= k < slots.len(),
        slots[k] == name,
    ensures
        slot_index(slots, name) == k,
{
    lemma_slot_index_points(slots, name);
}

proof fn lemma_slot_of_added(slots: Seq<Seq<char>>, name: Seq<char>)
    requires
        slots.no_duplicates(),
    ensures
        add_name(slots, name).no_duplicates(),
        add_name(slots, name).contains(name),
        forall|n: Seq<char>| slots.contains(n) ==> slot_index(add_name(slots, name), n) == slot_index(slots, n),
        !slots.contains(name) ==> slot_index(add_name(slots, name), name) == slots.len(),
{
    if !slots.contains(name) {
        let after = slots.push(name);
        assert(after.drop_last() =~= slots);
        assert(after[slots.len() as int] == name);
        assert forall|i: int, j: int| 0 <= i < after.len() && 0 <= j < after.len() && i != j
            implies after[i] != after[j] by {
            if i < slots.len() && j < slots.len() {
            } else if i == slots.len() {
                assert(slots[j] == after[j]);
            } else {
                assert(slots[i] == after[i]);
            }
        }
    }
}

proof fn lemma_add_operand_extends(slots: Seq<Seq<char>>, operand: assembly::Operand)
    ensures
        slots.len() <= add_operand(slots, operand).len() <= slots.len() + 1,
        slots =~= add_operand(slots, operand).take(slots.len() as int),
        slots.no_duplicates() ==> add_operand(slots, operand).no_duplicates(),
        operand matches assembly::Operand::Pseudo(name) ==> add_operand(slots, operand).contains(name@),
{
    if let assembly::Operand::Pseudo(name) = operand {
        if slots.no_duplicates() {
            lemma_slot_of_added(slots, name@);
        }
        if !slots.contains(name@) {
            assert(slots.push(name@)[slots.len() as int] == name@);
        }
    }
}

proof fn lemma_add_operands_extends(slots: Seq<Seq<char>>, operands: Seq<assembly::Operand>)
    ensures
        slots.len() <= add_operands(slots, operands).len() <= slots.len() + operands.len(),
        slots =~= add_operands(slots, operands).take(slots.len() as int),
        slots.no_duplicates() ==> add_operands(slots, operands).no_duplicates(),
    decreases operands.len(),
{
    if operands.len() > 0 {
        let mid = add_operands(slots, operands.drop_last());
        lemma_add_operands_extends(slots, operands.drop_last());
        lemma_add_operand_extends(mid, operands.last());
        assert(mid.take(slots.len() as int) =~= add_operand(mid, operands.last()).take(slots.len() as int));
    }
}

/// Extending the slots keeps every name that they held.
proof fn lemma_contains_extended(before: Seq<Seq<char>>, after: Seq<Seq<char>>, name: Seq<char>)
    requires
        before.contains(name),
        before =~= after.take(before.len() as int),
        before.len() <= after.len(),
    ensures
        after.contains(name),
{
    let k = choose|k: int| 0 <= k < before.len() && before[k] == name;
    assert(after[k] == name);
}

/// Extending the slots leaves the slot of every name that they held where it was.
proof fn lemma_slot_stable(before: Seq<Seq<char>>, after: Seq<Seq<char>>, name: Seq<char>)
    requires
        before.contains(name),
        before =~= after.take(before.len() as int),
        before.len() <= after.len(),
        after.no_duplicates(),
    ensures
        slot_index(after, name) == slot_index(before, name),
{
    lemma_slot_index_points(before, name);
    let k = slot_index(before, name);
    assert(after[k] == name);
    lemma_slot_index_unique(after, name, k);
}

proof fn lemma_names_within_added(instruction: assembly::Instruction, slots: Seq<Seq<char>>)
    ensures
        names_within(instruction, add_operands(slots, replaced_operands(instruction))),
{
    let ops = replaced_operands(instruction);
    reveal_with_fuel(add_operands, 3);
    assert forall|i: int| 0 <= i < ops.len() implies match #[trigger] ops[i] {
        assembly::Operand::Pseudo(name) => add_operands(slots, ops).contains(name@),
        _ => true,
    } by {
        if let assembly::Operand::Pseudo(name) = ops[i] {
            let upto = add_operands(slots, ops.take(i + 1));
            assert(ops.take(i + 1).drop_last() =~= ops.take(i));
            lemma_add_operand_extends(add_operands(slots, ops.take(i)), ops[i]);
            assert(upto.contains(name@));
            lemma_add_operands_extends(upto, ops.skip(i + 1));
            lemma_add_operands_split(slots, ops, i + 1);
            lemma_contains_extended(upto, add_operands(slots, ops), name@);
        }
    }
}

/// Adding the operands in two runs is adding them at once.
proof fn lemma_add_operands_split(slots: Seq<Seq<char>>, operands: Seq<assembly::Operand>, k: int)
    requires
        0 <= k <= operands.len(),
    ensures
        add_operands(add_operands(slots, operands.take(k)), operands.skip(k)) == add_operands(slots, operands),
    decreases operands.len(),
{
    if k == operands.len() {
        assert(operands.take(k) =~= operands);
        assert(operands.skip(k).len() == 0);
    } else {
        lemma_add_operands_split(slots, operands.drop_last(), k);
        assert(operands.drop_last().take(k) =~= operands.take(k));
        assert(operands.skip(k).drop_last() =~= operands.drop_last().skip(k));
        assert(operands.skip(k).last() == operands.last());
    }
}

proof fn lemma_names_within_extended(instruction: assembly::Instruction, before: Seq<Seq<char>>, after: Seq<Seq<char>>)
    requires
        names_within(instruction, before),
        before =~= after.take(before.len() as int),
        before.len() <= after.len(),
    ensures
        names_within(instruction, after),
{
    let ops = replaced_operands(instruction);
    assert forall|i: int| 0 <= i < ops.len() implies match #[trigger] ops[i] {
        assembly::Operand::Pseudo(name) => after.contains(name@),
        _ => true,
    } by {
        if let assembly::Operand::Pseudo(name) = ops[i] {
            lemma_contains_extended(before, after, name@);
        }
    }
}

proof fn lemma_replace_stable(instruction: assembly::Instruction, before: Seq<Seq<char>>, after: Seq<Seq<char>>)
    requires
        names_within(instruction, before),
        before =~= after.take(before.len() as int),
        before.len() <= after.len(),
        after.no_duplicates(),
    ensures
        replace_instruction_with(instruction, after) == replace_instruction_with(instruction, before),
{
    let ops = replaced_operands(instruction);
    assert forall|i: int| 0 <= i < ops.len() implies replace_operand_with(#[trigger] ops[i], after)
        == replace_operand_with(ops[i], before) by {
        if let assembly::Operand::Pseudo(name) = ops[i] {
            lemma_slot_stable(before, after, name@);
        }
    }
    match instruction {
        assembly::Instruction::Move { src, dst } => {
            assert(ops[0] == src && ops[1] == dst);
        },
        assembly::Instruction::Binary { left, right, .. } => {
            assert(ops[0] == left && ops[1] == right);
        },
        assembly::Instruction::Cmp { left, right } => {
            assert(ops[0] == left && ops[1] == right);
        },
        assembly::Instruction::Unary { operand, .. } => {
            assert(ops[0] == operand);
        },
        assembly::Instruction::Idiv(operand) => {
            assert(ops[0] == operand);
        },
        assembly::Instruction::SetCC { operand, .. } => {
            assert(ops[0] == operand);
        },
        _ => {},
    }
}

proof fn lemma_add_instructions_no_duplicates(slots: Seq<Seq<char>>, instructions: Seq<assembly::Instruction>)
    requires
        slots.no_duplicates(),
    ensures
        add_instructions(slots, instructions).no_duplicates(),
    decreases instructions.len(),
{
    if instructions.len() > 0 {
        lemma_add_instructions_no_duplicates(slots, instructions.drop_last());
        lemma_add_operands_extends(
            add_instructions(slots, instructions.drop_last()),
            replaced_operands(instructions.last()),
        );
    }
}

/// Two pseudo registers of a body share a stack slot only if they are the same
/// register, and every slot lies within the function's stack frame.
pub proof fn lemma_stack_slots_distinct(body: Seq<assembly::Instruction>, a: Seq<char>, b: Seq<char>)
    requires
        stack_slots(body).contains(a),
        stack_slots(body).contains(b),
    ensures
        slot_offset(stack_slots(body), a) == slot_offset(stack_slots(body), b) <==> a == b,
        -4 * stack_slots(body).len() <= slot_offset(stack_slots(body), a) <= -4,
{
    let slots = stack_slots(body);
    assert(Seq::<Seq<char>>::empty().no_duplicates());
    lemma_add_instructions_no_duplicates(seq![], body);
    lemma_slot_index_points(slots, a);
    lemma_slot_index_points(slots, b);
}

/// The slots of a prefix of a body are no more than those of the whole body.
proof fn lemma_add_instructions_take(slots: Seq<Seq<char>>, instructions: Seq<assembly::Instruction>, k: int)
    requires
        0 <= k <= instructions.len(),
    ensures
        add_instructions(slots, instructions.take(k)).len() <= add_instructions(slots, instructions).len(),
    decreases instructions.len(),
{
    if k == instructions.len() {
        assert(instructions.take(k) =~= instructions);
    } else {
        lemma_add_instructions_take(slots, instructions.drop_last(), k);
        assert(instructions.drop_last().take(k) =~= instructions.take(k));
        lemma_add_operands_extends(
            add_instructions(slots, instructions.drop_last()),
            replaced_operands(instructions.last()),
        );
    }
}

/// A body has at most two pseudo registers per instruction.
pub proof fn lemma_stack_slots_len(body: Seq<assembly::Instruction>)
    ensures
        stack_slots(body).len() <= 2 * body.len(),
    decreases body.len(),
{
    if body.len() > 0 {
        lemma_stack_slots_len(body.drop_last());
        lemma_add_operands_extends(stack_slots(body.drop_last()), replaced_operands(body.last()));
    }
}

} // verus!
