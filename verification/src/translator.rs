//! From source text to a program with resolved jump targets.

use vstd::prelude::*;
use crate::instruction::Instruction;
use crate::nesting::{
    balanced, depth, first_stray_close, first_unclosed, lemma_paired_same_shape,
    lemma_resolved_unique, lemma_targets_are_inverse, paired, resolved, same_shape, unclosed,
};

verus! {

/// Why a source text has no translation.
#[derive(Clone, Copy, Debug, PartialEq, Eq, Structural)]
pub enum TranslateError {
    /// A `]` with no `[` left to match. `position` counts symbols only and
    /// is that of the first such `]`.
    UnmatchedClose { position: usize },
    /// A `[` with no `]` after it to match. `position` counts symbols only
    /// and is that of the first such `[`.
    UnmatchedOpen { position: usize },
}

/// The instruction that a source character stands for, loop instructions
/// with target zero; `None` for a character that is not one of the eight
/// symbols.
pub open spec fn symbol(c: char) -> Option<Instruction> {
    if c == '>' {
        Some(Instruction::Right)
    } else if c == '<' {
        Some(Instruction::Left)
    } else if c == '+' {
        Some(Instruction::Increment)
    } else if c == '-' {
        Some(Instruction::Decrement)
    } else if c == '.' {
        Some(Instruction::Print)
    } else if c == ',' {
        Some(Instruction::Read)
    } else if c == '[' {
        Some(Instruction::BeginLoop(0))
    } else if c == ']' {
        Some(Instruction::EndLoop(0))
    } else {
        None
    }
}

/// The character is one of the eight symbols.
pub open spec fn is_symbol(c: char) -> bool {
    symbol(c) is Some
}

/// The source text with everything but the symbols dropped, each symbol
/// replaced by its instruction.
pub open spec fn skeleton(source: Seq<char>) -> Seq<Instruction> {
    source.filter_map(|c: char| symbol(c))
}

/// Some prefix of the program closes more loops than it opens.
pub open spec fn closes_unopened(shape: Seq<Instruction>) -> bool {
    exists|k: int| 0 <= k <= shape.len() && depth(shape, k) < 0
}

/// What resolving the jump targets of `shape` comes to: the one resolved
/// program of that shape when the loops are balanced, else the first
/// bracket that is at fault, a stray `]` before a dangling `[`.
pub open spec fn resolves_to(
    shape: Seq<Instruction>,
    outcome: Result<Seq<Instruction>, TranslateError>,
) -> bool {
    match outcome {
        Ok(code) => balanced(shape) && same_shape(code, shape) && resolved(code),
        Err(TranslateError::UnmatchedClose { position }) => first_stray_close(
            shape,
            position as int,
        ),
        Err(TranslateError::UnmatchedOpen { position }) => !closes_unopened(shape)
            && first_unclosed(shape, position as int),
    }
}

/// What translating `source` comes to.
pub open spec fn translates_to(
    source: Seq<char>,
    outcome: Result<Seq<Instruction>, TranslateError>,
) -> bool {
    resolves_to(skeleton(source), outcome)
}

/// A program whose jump targets have been resolved.
#[derive(Clone, Debug, PartialEq, Eq)]
pub struct CompiledCode {
    instructions: Vec<Instruction>,
}

impl View for CompiledCode {
    type V = Seq<Instruction>;

    closed spec fn view(&self) -> Seq<Instruction> {
        self.instructions@
    }
}

impl CompiledCode {
    /// Every loop instruction carries the position of its partner.
    pub open spec fn well_formed(&self) -> bool {
        resolved(self@)
    }

    /// The number of instructions.
    pub fn len(&self) -> (n: usize)
        ensures
            n == self@.len(),
    {
        self.instructions.len()
    }

    /// The instruction at `index`.
    pub fn get(&self, index: usize) -> (r: Option<Instruction>)
        ensures
            r == if index < self@.len() {
                Some(self@[index as int])
            } else {
                None
            },
    {
        if index < self.instructions.len() {
            Some(self.instructions[index])
        } else {
            None
        }
    }

    /// All instructions, in order.
    pub fn instructions(&self) -> (all: &Vec<Instruction>)
        ensures
            all@ == self@,
    {
        &self.instructions
    }
}

/// Reads one source character.
pub fn decode(c: char) -> (r: Option<Instruction>)
    ensures
        r == symbol(c),
{
    match c {
        '>' => Some(Instruction::Right),
        '<' => Some(Instruction::Left),
        '+' => Some(Instruction::Increment),
        '-' => Some(Instruction::Decrement),
        '.' => Some(Instruction::Print),
        ',' => Some(Instruction::Read),
        '[' => Some(Instruction::BeginLoop(0)),
        ']' => Some(Instruction::EndLoop(0)),
        _ => None,
    }
}

/// Drops every character that is not a symbol and reads the others.
pub fn scan(source: &str) -> (code: Vec<Instruction>)
    ensures
        code@ == skeleton(source@),
{
    let mut code: Vec<Instruction> = Vec::new();
    for c in it: source.chars()
        invariant
            it.seq() == source@,
            code@ == skeleton(source@.take(it.index())),
    {
        proof {
            assert(source@.take(it.index() + 1) =~= source@.take(it.index()).push(c));
            lemma_skeleton_push(source@.take(it.index()), c);
        }
        match decode(c) {
            Some(instruction) => {
                code.push(instruction);
            },
            None => {},
        }
    }
    assert(source@.take(source@.len() as int) =~= source@);
    code
}

/// While the targets are being filled in: the instruction at `k` needs no
/// further work. A `BeginLoop` either waits for its partner or carries it,
/// and an `EndLoop` carries its partner.
spec fn settled(
    shape: Seq<Instruction>,
    pending: Seq<usize>,
    k: int,
    instruction: Instruction,
) -> bool {
    match instruction {
        Instruction::BeginLoop(t) => pending.contains(k as usize) || paired(shape, k, t as int),
        Instruction::EndLoop(t) => paired(shape, t as int, k),
        _ => true,
    }
}

/// Fills in the jump targets of `code`, whatever targets it came with.
pub fn resolve(code: Vec<Instruction>) -> (r: Result<CompiledCode, TranslateError>)
    ensures
        resolves_to(
            code@,
            match r {
                Ok(compiled) => Ok(compiled@),
                Err(e) => Err(e),
            },
        ),
        r is Ok <==> balanced(code@),
        r matches Err(TranslateError::UnmatchedClose { .. }) <==> closes_unopened(code@),
        r matches Err(TranslateError::UnmatchedOpen { .. }) <==> !closes_unopened(code@) && depth(
            code@,
            code@.len() as int,
        ) > 0,
        r matches Ok(compiled) ==> compiled.well_formed(),
{
    let mut linked = code;
    // The positions of the loops that are open, outermost first.
    let mut pending: Vec<usize> = Vec::new();
    let n = linked.len();
    let mut i: usize = 0;
    while i < n
        invariant
            i <= n,
            n == code@.len(),
            same_shape(linked@, code@),
            forall|k: int| 0 <= k <= i ==> depth(code@, k) >= 0,
            pending@.len() == depth(code@, i as int),
            forall|m: int|
                0 <= m < pending@.len() ==> {
                    &&& (#[trigger] pending@[m]) < i
                    &&& code@[pending@[m] as int] is BeginLoop
                    &&& depth(code@, pending@[m] as int) == m
                },
            forall|m: int, k: int|
                0 <= m < pending@.len() && pending@[m] < k <= i ==> #[trigger] depth(code@, k)
                    > depth(code@, #[trigger] pending@[m] as int),
            forall|k: int| 0 <= k < i ==> settled(code@, pending@, k, #[trigger] linked@[k]),
        decreases n - i,
    {
        let ghost waiting = pending@;
        match linked[i] {
            Instruction::BeginLoop(_) => {
                pending.push(i);
                proof {
                    assert(pending@[waiting.len() as int] == i);
                    assert forall|k: int| 0 <= k < i + 1 implies settled(
                        code@,
                        pending@,
                        k,
                        #[trigger] linked@[k],
                    ) by {
                        if k < i && waiting.contains(k as usize) {
                            let m = choose|m: int| 0 <= m < waiting.len() && waiting[m] == k;
                            assert(pending@[m] == k);
                        }
                    }
                }
            },
            Instruction::EndLoop(_) => {
                if pending.len() == 0 {
                    return Err(TranslateError::UnmatchedClose { position: i });
                }
                let open = pending.pop().unwrap();
                linked.set(open, Instruction::BeginLoop(i));
                linked.set(i, Instruction::EndLoop(open));
                proof {
                    assert forall|k: int| 0 <= k < i + 1 implies settled(
                        code@,
                        pending@,
                        k,
                        #[trigger] linked@[k],
                    ) by {
                        if k != open && k != i && waiting.contains(k as usize) {
                            let m = choose|m: int| 0 <= m < waiting.len() && waiting[m] == k;
                            assert(pending@[m] == k);
                        }
                    }
                }
            },
            _ => {},
        }
        i += 1;
    }
    if pending.len() > 0 {
        let first = pending[0];
        proof {
            assert forall|j: int| 0 <= j < first implies !unclosed(code@, j) by {
                if pending@.contains(j as usize) {
                    // An open loop before the outermost one would lie less deep than it.
                    let m = choose|m: int| 0 <= m < pending@.len() && pending@[m] == j;
                    assert(depth(code@, first as int) > depth(code@, pending@[m] as int));
                }
            }
        }
        return Err(TranslateError::UnmatchedOpen { position: first });
    }
    proof {
        assert forall|k: int| 0 <= k < linked@.len() implies match #[trigger] linked@[k] {
            Instruction::BeginLoop(t) => paired(linked@, k, t as int),
            Instruction::EndLoop(t) => paired(linked@, t as int, k),
            _ => true,
        } by {
            match linked@[k] {
                Instruction::BeginLoop(t) => {
                    lemma_paired_same_shape(code@, linked@, k, t as int);
                },
                Instruction::EndLoop(t) => {
                    lemma_paired_same_shape(code@, linked@, t as int, k);
                },
                _ => {},
            }
        }
    }
    Ok(CompiledCode { instructions: linked })
}

/// Translates source text: every character but the eight symbols is
/// skipped, and each bracket is given the position of its partner.
pub fn translate(source: &str) -> (r: Result<CompiledCode, TranslateError>)
    ensures
        translates_to(
            source@,
            match r {
                Ok(compiled) => Ok(compiled@),
                Err(e) => Err(e),
            },
        ),
        r is Ok <==> balanced(skeleton(source@)),
        r matches Err(TranslateError::UnmatchedClose { .. }) <==> closes_unopened(
            skeleton(source@),
        ),
        r matches Err(TranslateError::UnmatchedOpen { .. }) <==> !closes_unopened(
            skeleton(source@),
        ) && depth(skeleton(source@), skeleton(source@).len() as int) > 0,
        r matches Ok(compiled) ==> compiled.well_formed(),
{
    resolve(scan(source))
}

/// Appending one character appends its instruction, if it has one.
pub proof fn lemma_skeleton_push(source: Seq<char>, c: char)
    ensures
        skeleton(source.push(c)) == match symbol(c) {
            Some(instruction) => skeleton(source).push(instruction),
            None => skeleton(source),
        },
{
    assert(source.push(c).drop_last() =~= source);
}

/// The skeleton of a text is that of its first part followed by that of
/// the rest.
pub proof fn lemma_skeleton_concat(first: Seq<char>, rest: Seq<char>)
    ensures
        skeleton(first + rest) == skeleton(first) + skeleton(rest),
    decreases rest.len(),
{
    if rest.len() > 0 {
        let shorter = rest.drop_last();
        let c = rest.last();
        assert(rest =~= shorter.push(c));
        lemma_skeleton_concat(first, shorter);
        lemma_skeleton_push(first + shorter, c);
        lemma_skeleton_push(shorter, c);
        if let Some(instruction) = symbol(c) {
            assert((skeleton(first) + skeleton(shorter)).push(instruction) =~= skeleton(first)
                + skeleton(shorter).push(instruction));
        }
    }
}

/// A character that is not a symbol changes nothing, wherever it stands:
/// the text translates as it does without it.
pub proof fn lemma_non_symbol_is_skipped(before: Seq<char>, c: char, after: Seq<char>)
    requires
        !is_symbol(c),
    ensures
        skeleton(before.push(c) + after) == skeleton(before + after),
        forall|outcome: Result<Seq<Instruction>, TranslateError>|
            translates_to(before.push(c) + after, outcome) <==> translates_to(
                before + after,
                outcome,
            ),
{
    lemma_skeleton_concat(before.push(c), after);
    lemma_skeleton_concat(before, after);
    lemma_skeleton_push(before, c);
}

/// A shape resolves in one way only.
pub proof fn lemma_resolution_is_unique(
    shape: Seq<Instruction>,
    first: Result<Seq<Instruction>, TranslateError>,
    second: Result<Seq<Instruction>, TranslateError>,
)
    requires
        resolves_to(shape, first),
        resolves_to(shape, second),
    ensures
        first == second,
{
    if let (Ok(a), Ok(b)) = (first, second) {
        assert(same_shape(a, b));
        lemma_resolved_unique(a, b);
    }
}

/// Translation is a function of the source text: a text has one outcome,
/// the same program or the same error whenever it is translated.
pub proof fn lemma_translation_is_unique(
    source: Seq<char>,
    first: Result<Seq<Instruction>, TranslateError>,
    second: Result<Seq<Instruction>, TranslateError>,
)
    requires
        translates_to(source, first),
        translates_to(source, second),
    ensures
        first == second,
{
    lemma_resolution_is_unique(skeleton(source), first, second);
}

/// A text whose brackets are balanced translates to a program, and in
/// that program the targets of each loop point at each other.
pub proof fn lemma_balanced_text_translates(
    source: Seq<char>,
    outcome: Result<Seq<Instruction>, TranslateError>,
)
    requires
        balanced(skeleton(source)),
        translates_to(source, outcome),
    ensures
        outcome is Ok,
        forall|i: int|
            #![trigger outcome->Ok_0[i]]
            0 <= i < outcome->Ok_0.len() && (outcome->Ok_0[i] is BeginLoop
                || outcome->Ok_0[i] is EndLoop) ==> {
                let code = outcome->Ok_0;
                &&& 0 <= code[i].target() < code.len()
                &&& code[code[i].target()].target() == i
            },
{
    if let Ok(code) = outcome {
        assert forall|i: int|
            0 <= i < code.len() && (code[i] is BeginLoop
                || code[i] is EndLoop) implies 0 <= code[i].target() < code.len()
            && code[code[i].target()].target() == i by {
            lemma_targets_are_inverse(code, i);
        }
    }
}

} // verus!
