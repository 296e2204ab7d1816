//! The instruction set: one byte per opcode, a mnemonic and a total
//! encoded size (opcode byte plus operand bytes) for each.

use vstd::prelude::*;

verus! {

/// Does nothing.
pub const NOP: u8 = 0;
/// Stops the machine.
pub const HALT: u8 = 1;
/// Pushes a signed 32-bit operand.
pub const IPUSH: u8 = 2;
/// Pushes a one-byte operand, sign-extended.
pub const BIPUSH: u8 = 3;
/// Pushes a 64-bit float operand.
pub const FPUSH: u8 = 4;
/// Discards the top of the stack.
pub const POP: u8 = 5;
/// Swaps the two top entries.
pub const SWP: u8 = 6;
/// Duplicates the top entry.
pub const DUP: u8 = 7;
/// Pops a value into memory at a 32-bit address.
pub const STORE: u8 = 8;
/// Pushes the memory cell at a 32-bit address.
pub const LOAD: u8 = 9;
/// Negates the top entry.
pub const NEG: u8 = 10;
/// Adds the two top entries.
pub const ADD: u8 = 11;
/// Subtracts the top entry from the one below.
pub const SUB: u8 = 12;
/// Multiplies the two top entries.
pub const MUL: u8 = 13;
/// Divides the entry below the top by the top.
pub const DIV: u8 = 14;
/// Remainder of the entry below the top by the top.
pub const MOD: u8 = 15;
/// Three-way comparison of the two top entries.
pub const CMP: u8 = 16;
/// Jumps if the comparison said less.
pub const JL: u8 = 17;
/// Jumps if the comparison said less or equal.
pub const JLE: u8 = 18;
/// Jumps if the comparison said greater.
pub const JG: u8 = 19;
/// Jumps if the comparison said greater or equal.
pub const JGE: u8 = 20;
/// Jumps if the comparison said equal.
pub const JE: u8 = 21;
/// Jumps unless the comparison said equal.
pub const JNE: u8 = 22;
/// Jumps unconditionally.
pub const JMP: u8 = 23;
/// Pops a value and hands it to the output.
pub const PRINT: u8 = 24;

/// The number of opcodes; every byte below it is an opcode.
pub const COUNT: u8 = 25;

/// What the table holds for one opcode.
pub struct InstructionInfo {
    pub name: &'static str,
    pub size: u32,
}

/// Whether `code` is an opcode of the table.
pub open spec fn is_opcode(code: u8) -> bool {
    code < COUNT
}

/// The total encoded size of an instruction: 1, 2, 5 or 9 bytes.
pub open spec fn size_of(code: u8) -> nat {
    if code == IPUSH || code == STORE || code == LOAD || (JL <= code && code <= JMP) {
        5
    } else if code == BIPUSH {
        2
    } else if code == FPUSH {
        9
    } else {
        1
    }
}

/// The mnemonic of an opcode, in upper case.
pub open spec fn name_of(code: u8) -> Seq<char> {
    if code == NOP {
        seq!['N', 'O', 'P']
    } else if code == HALT {
        seq!['H', 'A', 'L', 'T']
    } else if code == IPUSH {
        seq!['I', 'P', 'U', 'S', 'H']
    } else if code == BIPUSH {
        seq!['B', 'I', 'P', 'U', 'S', 'H']
    } else if code == FPUSH {
        seq!['F', 'P', 'U', 'S', 'H']
    } else if code == POP {
        seq!['P', 'O', 'P']
    } else if code == SWP {
        seq!['S', 'W', 'P']
    } else if code == DUP {
        seq!['D', 'U', 'P']
    } else if code == STORE {
        seq!['S', 'T', 'O', 'R', 'E']
    } else if code == LOAD {
        seq!['L', 'O', 'A', 'D']
    } else if code == NEG {
        seq!['N', 'E', 'G']
    } else if code == ADD {
        seq!['A', 'D', 'D']
    } else if code == SUB {
        seq!['S', 'U', 'B']
    } else if code == MUL {
        seq!['M', 'U', 'L']
    } else if code == DIV {
        seq!['D', 'I', 'V']
    } else if code == MOD {
        seq!['M', 'O', 'D']
    } else if code == CMP {
        seq!['C', 'M', 'P']
    } else if code == JL {
        seq!['J', 'L']
    } else if code == JLE {
        seq!['J', 'L', 'E']
    } else if code == JG {
        seq!['J', 'G']
    } else if code == JGE {
        seq!['J', 'G', 'E']
    } else if code == JE {
        seq!['J', 'E']
    } else if code == JNE {
        seq!['J', 'N', 'E']
    } else if code == JMP {
        seq!['J', 'M', 'P']
    } else {
        seq!['P', 'R', 'I', 'N', 'T']
    }
}

/// `t` spells `name` (an upper-case mnemonic) with letters in either case.
pub open spec fn spells(t: Seq<char>, name: Seq<char>) -> bool {
    t.len() == name.len() && forall|i: int| 0 <= i < t.len() ==> same_letter(t[i], name[i])
}

/// `a` is the upper-case letter `n` or its lower-case form.
pub open spec fn same_letter(a: char, n: char) -> bool {
    a == n || ('a' <= a && a <= 'z' && a as u32 == n as u32 + 32)
}

/// The opcode whose mnemonic `t` spells, letters compared without regard to
/// ASCII case.
pub open spec fn opcode_named(t: Seq<char>) -> Option<u8> {
    if exists|c: u8| is_opcode(c) && spells(t, #[trigger] name_of(c)) {
        Some(choose|c: u8| is_opcode(c) && spells(t, #[trigger] name_of(c)))
    } else {
        None
    }
}

/// Every mnemonic is made of upper-case ASCII letters.
proof fn lemma_names_upper(c: u8)
    requires
        is_opcode(c),
    ensures
        forall|i: int| 0 <= i < name_of(c).len() ==> 'A' <= #[trigger] name_of(c)[i] <= 'Z',
{
}

/// At most one mnemonic matches a word.
pub proof fn lemma_spelling_unique(t: Seq<char>, a: u8, b: u8)
    requires
        is_opcode(a),
        is_opcode(b),
        spells(t, name_of(a)),
        spells(t, name_of(b)),
    ensures
        a == b,
{
    lemma_names_upper(a);
    lemma_names_upper(b);
    assert(name_of(a) =~= name_of(b)) by {
        assert forall|i: int| 0 <= i < t.len() implies name_of(a)[i] == name_of(b)[i] by {
            assert(same_letter(t[i], name_of(a)[i]));
            assert(same_letter(t[i], name_of(b)[i]));
        }
    }
    if a != b {
        lemma_table_well_formed(a, b);
    }
}

/// No two opcodes share a mnemonic, and every size is 1, 2, 5 or 9.
pub proof fn lemma_table_well_formed(a: u8, b: u8)
    requires
        is_opcode(a),
        is_opcode(b),
        a != b,
    ensures
        name_of(a) != name_of(b),
        size_of(a) == 1 || size_of(a) == 2 || size_of(a) == 5 || size_of(a) == 9,
{
    if name_of(a) == name_of(b) {
        assert(name_of(a).len() == name_of(b).len());
        assert(name_of(a)[0] == name_of(b)[0]);
        assert(name_of(a)[name_of(a).len() - 1] == name_of(b)[name_of(b).len() - 1]);
        if name_of(a).len() > 2 {
            assert(name_of(a)[1] == name_of(b)[1]);
        }
    }
}

/// The name and size of `code`, or `None` for a byte outside the table.
pub fn get_info(code: u8) -> (r: Option<InstructionInfo>)
    ensures
        r is Some <==> is_opcode(code),
        r matches Some(info) ==> info.name@ == name_of(code) && info.size == size_of(code),
{
    let (name, size): (&'static str, u32) = if code == NOP {
        proof {
            reveal_strlit("NOP");
        }
        ("NOP", 1)
    } else if code == HALT {
        proof {
            reveal_strlit("HALT");
        }
        ("HALT", 1)
    } else if code == IPUSH {
        proof {
            reveal_strlit("IPUSH");
        }
        ("IPUSH", 5)
    } else if code == BIPUSH {
        proof {
            reveal_strlit("BIPUSH");
        }
        ("BIPUSH", 2)
    } else if code == FPUSH {
        proof {
            reveal_strlit("FPUSH");
        }
        ("FPUSH", 9)
    } else if code == POP {
        proof {
            reveal_strlit("POP");
        }
        ("POP", 1)
    } else if code == SWP {
        proof {
            reveal_strlit("SWP");
        }
        ("SWP", 1)
    } else if code == DUP {
        proof {
            reveal_strlit("DUP");
        }
        ("DUP", 1)
    } else if code == STORE {
        proof {
            reveal_strlit("STORE");
        }
        ("STORE", 5)
    } else if code == LOAD {
        proof {
            reveal_strlit("LOAD");
        }
        ("LOAD", 5)
    } else if code == NEG {
        proof {
            reveal_strlit("NEG");
        }
        ("NEG", 1)
    } else if code == ADD {
        proof {
            reveal_strlit("ADD");
        }
        ("ADD", 1)
    } else if code == SUB {
        proof {
            reveal_strlit("SUB");
        }
        ("SUB", 1)
    } else if code == MUL {
        proof {
            reveal_strlit("MUL");
        }
        ("MUL", 1)
    } else if code == DIV {
        proof {
            reveal_strlit("DIV");
        }
        ("DIV", 1)
    } else if code == MOD {
        proof {
            reveal_strlit("MOD");
        }
        ("MOD", 1)
    } else if code == CMP {
        proof {
            reveal_strlit("CMP");
        }
        ("CMP", 1)
    } else if code == JL {
        proof {
            reveal_strlit("JL");
        }
        ("JL", 5)
    } else if code == JLE {
        proof {
            reveal_strlit("JLE");
        }
        ("JLE", 5)
    } else if code == JG {
        proof {
            reveal_strlit("JG");
        }
        ("JG", 5)
    } else if code == JGE {
        proof {
            reveal_strlit("JGE");
        }
        ("JGE", 5)
    } else if code == JE {
        proof {
            reveal_strlit("JE");
        }
        ("JE", 5)
    } else if code == JNE {
        proof {
            reveal_strlit("JNE");
        }
        ("JNE", 5)
    } else if code == JMP {
        proof {
            reveal_strlit("JMP");
        }
        ("JMP", 5)
    } else if code == PRINT {
        proof {
            reveal_strlit("PRINT");
        }
        ("PRINT", 1)
    } else {
        return None;
    };
    Some(InstructionInfo { name, size })
}

/// Whether the characters of `t` spell `name` in either case.
fn spells_name(t: &Vec<char>, start: usize, end: usize, name: &str) -> (r: bool)
    requires
        start <= end <= t.len(),
    ensures
        r == spells(t@.subrange(start as int, end as int), name@),
{
    let n = name.unicode_len();
    if end - start != n {
        return false;
    }
    let mut i: usize = 0;
    while i < n
        invariant
            i <= n,
            n == name@.len(),
            end - start == n,
            start <= end <= t.len(),
            forall|j: int|
                0 <= j < i ==> same_letter(#[trigger] t@[start + j], name@[j]),
        decreases n - i,
    {
        let a = t[start + i];
        let c = name.get_char(i);
        let same = a == c || ('a' <= a && a <= 'z' && a as u32 == c as u32 + 32);
        if !same {
            assert(!same_letter(t@.subrange(start as int, end as int)[i as int], name@[i as int]));
            return false;
        }
        i = i + 1;
    }
    assert forall|j: int| 0 <= j < n implies same_letter(
        #[trigger] t@.subrange(start as int, end as int)[j],
        name@[j],
    ) by {
        assert(t@.subrange(start as int, end as int)[j] == t@[start + j]);
    }
    true
}

/// The opcode whose mnemonic the characters `t[start..end]` spell, letters
/// compared without regard to ASCII case.
pub fn opcode_of_chars(t: &Vec<char>, start: usize, end: usize) -> (r: Option<u8>)
    requires
        start <= end <= t.len(),
    ensures
        r == opcode_named(t@.subrange(start as int, end as int)),
{
    let ghost w = t@.subrange(start as int, end as int);
    let mut c: u8 = 0;
    while c < COUNT
        invariant
            c <= COUNT,
            start <= end <= t.len(),
            w == t@.subrange(start as int, end as int),
            forall|d: u8| d < c ==> !spells(t@.subrange(start as int, end as int), #[trigger] name_of(d)),
        decreases COUNT - c,
    {
        match get_info(c) {
            Some(info) => {
                if spells_name(t, start, end, info.name) {
                    proof {
                        assert(is_opcode(c) && spells(w, name_of(c)));
                        let d = choose|d: u8| is_opcode(d) && spells(w, #[trigger] name_of(d));
                        lemma_spelling_unique(w, c, d);
                    }
                    return Some(c);
                }
            },
            None => {},
        }
        c = c + 1;
    }
    None
}

/// The opcode of a mnemonic, letters compared without regard to ASCII case.
pub fn from_mnemonic(m: &str) -> (r: Option<u8>)
    ensures
        r == opcode_named(m@),
{
    let t = crate::text::chars_of(m);
    assert(t@.subrange(0, t@.len() as int) =~= m@);
    opcode_of_chars(&t, 0, t.len())
}

} // verus!
