//! The two-pass assembler: text in, instruction stream out.
//!
//! Each line may start with a label (a word ending in `:`), then holds at
//! most one instruction: a mnemonic, in either case, and its operand.
//! Pass 1 gives every label the byte address of what follows it; pass 2
//! emits the bytes, a 4-byte operand being either a label or a signed
//! decimal literal. Float literals are read by the caller's `parse_float`,
//! which maps a word to a binary64 pattern.

use crate::codec::{encode_i32, encode_u32, encode_u64, lemma_be_bytes_len, push_be};
use crate::lexer::{lex, lex_lines, lemma_chars_deep_view};
use crate::op::{from_mnemonic, get_info, is_opcode, opcode_named, opcode_of_chars, size_of, spells};
use crate::text::{parse_i32, parse_i32_spec, parse_u8, parse_u8_spec, string_of};
use vstd::prelude::*;

verus! {

/// An assembly error, with the word it is about.
pub enum AsmFault {
    UnknownInstruction(Seq<char>),
    MissingArgument(Seq<char>),
    InvalidByte(Seq<char>),
    InvalidInt(Seq<char>),
    InvalidFloat(Seq<char>),
    TooLarge,
}

/// The text of an assembly error.
pub open spec fn message(f: AsmFault) -> Seq<char> {
    match f {
        AsmFault::UnknownInstruction(t) => "Unknown instruction: "@ + t,
        AsmFault::MissingArgument(t) => "Missing argument for "@ + t,
        AsmFault::InvalidByte(t) => "Invalid u8: "@ + t,
        AsmFault::InvalidInt(t) => "Invalid i32 or label: "@ + t,
        AsmFault::InvalidFloat(t) => "Invalid f64: "@ + t,
        AsmFault::TooLarge => "Program larger than 4 GiB"@,
    }
}

/// A word that declares a label.
pub open spec fn is_label(w: Seq<char>) -> bool {
    w.len() > 0 && w.last() == ':'
}

/// The name of a label: its word without the trailing colons.
pub open spec fn label_name(w: Seq<char>) -> Seq<char>
    decreases w.len(),
{
    if w.len() > 0 && w.last() == ':' {
        label_name(w.drop_last())
    } else {
        w
    }
}

/// Whether the line starts with a label.
pub open spec fn declares(line: Seq<Seq<char>>) -> bool {
    line.len() > 0 && is_label(line[0])
}

/// Where the mnemonic of a line stands, if it has one.
pub open spec fn instr_index(line: Seq<Seq<char>>) -> nat {
    if declares(line) {
        1
    } else {
        0
    }
}

/// Pass 1 so far: the byte address reached and the labels declared, in order.
pub struct Layout {
    pub size: nat,
    pub labels: Seq<(Seq<char>, u32)>,
}

/// Pass 1 on one more line.
pub open spec fn layout_line(line: Seq<Seq<char>>, acc: Layout) -> Result<Layout, AsmFault> {
    let labels = if declares(line) {
        acc.labels.push((label_name(line[0]), acc.size as u32))
    } else {
        acc.labels
    };
    let k = instr_index(line);
    if k < line.len() {
        match opcode_named(line[k as int]) {
            None => Err(AsmFault::UnknownInstruction(line[k as int])),
            Some(c) => if acc.size + size_of(c) > u32::MAX {
                Err(AsmFault::TooLarge)
            } else {
                Ok(Layout { size: acc.size + size_of(c), labels })
            },
        }
    } else {
        Ok(Layout { size: acc.size, labels })
    }
}

/// Pass 1 over lines.
pub open spec fn layout(ls: Seq<Seq<Seq<char>>>) -> Result<Layout, AsmFault>
    decreases ls.len(),
{
    if ls.len() == 0 {
        Ok(Layout { size: 0, labels: Seq::empty() })
    } else {
        match layout(ls.drop_last()) {
            Err(f) => Err(f),
            Ok(acc) => layout_line(ls.last(), acc),
        }
    }
}

/// The address of a label; a later declaration of a name overrides an
/// earlier one.
pub open spec fn lookup(labels: Seq<(Seq<char>, u32)>, name: Seq<char>) -> Option<u32>
    decreases labels.len(),
{
    if labels.len() == 0 {
        None
    } else if labels.last().0 == name {
        Some(labels.last().1)
    } else {
        lookup(labels.drop_last(), name)
    }
}

/// The operand bytes of an instruction of total size `size`.
pub open spec fn encode_operand_spec(
    size: nat,
    arg: Seq<char>,
    labels: Seq<(Seq<char>, u32)>,
    fl: spec_fn(Seq<char>) -> Option<u64>,
) -> Result<Seq<u8>, AsmFault> {
    if size == 2 {
        match parse_u8_spec(arg) {
            Some(v) => Ok(seq![v]),
            None => Err(AsmFault::InvalidByte(arg)),
        }
    } else if size == 5 {
        match lookup(labels, arg) {
            Some(a) => Ok(encode_u32(a)),
            None => match parse_i32_spec(arg) {
                Some(v) => Ok(encode_i32(v)),
                None => Err(AsmFault::InvalidInt(arg)),
            },
        }
    } else if size == 9 {
        match fl(arg) {
            Some(b) => Ok(encode_u64(b)),
            None => Err(AsmFault::InvalidFloat(arg)),
        }
    } else {
        Ok(Seq::empty())
    }
}

/// Pass 2 on one line.
pub open spec fn encode_line(
    line: Seq<Seq<char>>,
    labels: Seq<(Seq<char>, u32)>,
    fl: spec_fn(Seq<char>) -> Option<u64>,
) -> Result<Seq<u8>, AsmFault> {
    let k = instr_index(line);
    if k >= line.len() {
        Ok(Seq::empty())
    } else {
        match opcode_named(line[k as int]) {
            None => Err(AsmFault::UnknownInstruction(line[k as int])),
            Some(c) => if size_of(c) == 1 {
                Ok(seq![c])
            } else if line.len() <= k + 1 {
                Err(AsmFault::MissingArgument(line[k as int]))
            } else {
                match encode_operand_spec(size_of(c), line[k + 1int], labels, fl) {
                    Ok(b) => Ok(seq![c] + b),
                    Err(f) => Err(f),
                }
            },
        }
    }
}

/// Pass 2 over lines; the first error wins.
pub open spec fn encode_lines(
    ls: Seq<Seq<Seq<char>>>,
    labels: Seq<(Seq<char>, u32)>,
    fl: spec_fn(Seq<char>) -> Option<u64>,
) -> Result<Seq<u8>, AsmFault>
    decreases ls.len(),
{
    if ls.len() == 0 {
        Ok(Seq::empty())
    } else {
        match encode_lines(ls.drop_last(), labels, fl) {
            Err(f) => Err(f),
            Ok(b) => match encode_line(ls.last(), labels, fl) {
                Err(f) => Err(f),
                Ok(c) => Ok(b + c),
            },
        }
    }
}

/// The instruction stream of the text `s`, float literals read by `fl`.
pub open spec fn assemble_spec(s: Seq<char>, fl: spec_fn(Seq<char>) -> Option<u64>) -> Result<
    Seq<u8>,
    AsmFault,
> {
    let ls = lex(s);
    match layout(ls) {
        Err(f) => Err(f),
        Ok(l) => encode_lines(ls, l.labels, fl),
    }
}

/// `f` can be called on any text and gives the same result for the same
/// characters.
pub open spec fn is_text_function<F: Fn(&str) -> Option<u64>>(f: F) -> bool {
    &&& forall|x: &str| call_requires(f, (x,))
    &&& forall|x: &str, y: &str, r1: Option<u64>, r2: Option<u64>|
        x@ == y@ && #[trigger] call_ensures(f, (x,), r1) && #[trigger] call_ensures(f, (y,), r2)
            ==> r1 == r2
}

/// Whether `f` may return `r` for text with the characters `t`.
pub open spec fn gives<F: Fn(&str) -> Option<u64>>(f: F, t: Seq<char>, r: Option<u64>) -> bool {
    exists|x: &str| x@ == t && #[trigger] call_ensures(f, (x,), r)
}

/// What `f` returns for text with the characters `t`.
pub open spec fn text_result<F: Fn(&str) -> Option<u64>>(f: F, t: Seq<char>) -> Option<u64> {
    choose|r: Option<u64>| #[trigger] gives(f, t, r)
}

/// The float reader of a text function, as a spec function.
pub open spec fn floats_of<F: Fn(&str) -> Option<u64>>(f: F) -> spec_fn(Seq<char>) -> Option<u64> {
    |t: Seq<char>| text_result(f, t)
}

/// An error in pass 1 stays the result of pass 1 whatever lines follow.
proof fn lemma_layout_keeps_error(ls: Seq<Seq<Seq<char>>>, j: nat)
    requires
        j <= ls.len(),
        layout(ls.take(j as int)) is Err,
    ensures
        layout(ls) == layout(ls.take(j as int)),
    decreases ls.len(),
{
    if j == ls.len() {
        assert(ls.take(j as int) =~= ls);
    } else {
        assert(ls.drop_last().take(j as int) =~= ls.take(j as int));
        lemma_layout_keeps_error(ls.drop_last(), j);
    }
}

/// An error in pass 2 stays the result of pass 2 whatever lines follow.
proof fn lemma_encode_keeps_error(
    ls: Seq<Seq<Seq<char>>>,
    labels: Seq<(Seq<char>, u32)>,
    fl: spec_fn(Seq<char>) -> Option<u64>,
    j: nat,
)
    requires
        j <= ls.len(),
        encode_lines(ls.take(j as int), labels, fl) is Err,
    ensures
        encode_lines(ls, labels, fl) == encode_lines(ls.take(j as int), labels, fl),
    decreases ls.len(),
{
    if j == ls.len() {
        assert(ls.take(j as int) =~= ls);
    } else {
        assert(ls.drop_last().take(j as int) =~= ls.take(j as int));
        lemma_encode_keeps_error(ls.drop_last(), labels, fl, j);
    }
}

/// The byte address at which line `j` starts.
pub open spec fn offset(ls: Seq<Seq<Seq<char>>>, j: int) -> nat {
    match layout(ls.take(j)) {
        Ok(l) => l.size,
        Err(_) => 0,
    }
}

/// Whether line `line` declares the label `name`.
pub open spec fn declares_name(line: Seq<Seq<char>>, name: Seq<char>) -> bool {
    declares(line) && label_name(line[0]) == name
}

/// Whether line `line` is an instruction with a 4-byte operand naming `name`.
pub open spec fn refers_to(line: Seq<Seq<char>>, name: Seq<char>) -> bool {
    let k = instr_index(line);
    &&& k + 1 < line.len()
    &&& opcode_named(line[k as int]) matches Some(c) && size_of(c) == 5
    &&& line[k + 1int] == name
}

proof fn lemma_prefix_laid_out(ls: Seq<Seq<Seq<char>>>, k: int)
    requires
        layout(ls) is Ok,
        0 <= k <= ls.len(),
    ensures
        layout(ls.take(k)) is Ok,
{
    if layout(ls.take(k)) is Err {
        lemma_layout_keeps_error(ls, k as nat);
    }
}

proof fn lemma_declared_address(ls: Seq<Seq<Seq<char>>>, j: int, k: int, name: Seq<char>)
    requires
        layout(ls) is Ok,
        0 <= j < k <= ls.len(),
        declares_name(ls[j], name),
        forall|m: int| j < m < k ==> !declares_name(#[trigger] ls[m], name),
    ensures
        layout(ls.take(k)) matches Ok(l) && lookup(l.labels, name) == Some(offset(ls, j) as u32),
    decreases k,
{
    lemma_prefix_laid_out(ls, k);
    lemma_prefix_laid_out(ls, k - 1);
    assert(ls.take(k).drop_last() =~= ls.take(k - 1));
    assert(ls.take(k).last() == ls[k - 1]);
    let acc = layout(ls.take(k - 1))->Ok_0;
    let line = ls[k - 1];
    let labels = if declares(line) {
        acc.labels.push((label_name(line[0]), acc.size as u32))
    } else {
        acc.labels
    };
    assert(layout(ls.take(k)) == layout_line(line, acc));
    assert(layout(ls.take(k)) matches Ok(l) && l.labels == labels);
    assert(acc.labels.push((label_name(line[0]), acc.size as u32)).drop_last() =~= acc.labels);
    if k > j + 1 {
        lemma_declared_address(ls, j, k - 1, name);
        assert(!declares_name(ls[k - 1], name));
    }
}

/// Labels resolve to one address: a reference before a label's declaration
/// and one after it both encode the same address, the byte offset at which
/// the line declaring the label starts (see `lemma_opcode_at_offset` for
/// what is emitted there).
pub proof fn lemma_label_resolution(
    ls: Seq<Seq<Seq<char>>>,
    fl: spec_fn(Seq<char>) -> Option<u64>,
    name: Seq<char>,
    j: int,
    before: int,
    after: int,
)
    requires
        layout(ls) is Ok,
        0 <= before < j < after < ls.len(),
        declares_name(ls[j], name),
        forall|m: int| j < m < ls.len() ==> !declares_name(#[trigger] ls[m], name),
        refers_to(ls[before], name),
        refers_to(ls[after], name),
    ensures
        ({
            let labels = layout(ls)->Ok_0.labels;
            let addr = encode_u32(offset(ls, j) as u32);
            &&& encode_line(ls[before], labels, fl) == Ok::<Seq<u8>, AsmFault>(
                seq![opcode_named(ls[before][instr_index(ls[before]) as int])->Some_0] + addr,
            )
            &&& encode_line(ls[after], labels, fl) == Ok::<Seq<u8>, AsmFault>(
                seq![opcode_named(ls[after][instr_index(ls[after]) as int])->Some_0] + addr,
            )
        }),
{
    lemma_declared_address(ls, j, ls.len() as int, name);
    assert(ls.take(ls.len() as int) =~= ls);
}

/// The opcode of a line's instruction, when it has one.
pub open spec fn line_opcode(line: Seq<Seq<char>>) -> Option<u8> {
    let k = instr_index(line);
    if k < line.len() {
        opcode_named(line[k as int])
    } else {
        None
    }
}

proof fn lemma_line_length(
    line: Seq<Seq<char>>,
    labels: Seq<(Seq<char>, u32)>,
    fl: spec_fn(Seq<char>) -> Option<u64>,
)
    requires
        encode_line(line, labels, fl) is Ok,
    ensures
        ({
            let b = encode_line(line, labels, fl)->Ok_0;
            match line_opcode(line) {
                Some(c) => b.len() == size_of(c) && b[0] == c,
                None => b.len() == 0,
            }
        }),
{
    let k = instr_index(line);
    if k < line.len() {
        if let Some(c) = opcode_named(line[k as int]) {
            if size_of(c) > 1 {
                let arg = line[k + 1int];
                if let Some(a) = lookup(labels, arg) {
                    lemma_be_bytes_len(a as nat, 4);
                }
                if let Some(v) = parse_i32_spec(arg) {
                    lemma_be_bytes_len((#[verifier::truncate] (v as u32)) as nat, 4);
                }
                if let Some(bits) = fl(arg) {
                    lemma_be_bytes_len(bits as nat, 8);
                }
            }
        }
    }
}

proof fn lemma_emitted_length(
    ls: Seq<Seq<Seq<char>>>,
    labels: Seq<(Seq<char>, u32)>,
    fl: spec_fn(Seq<char>) -> Option<u64>,
)
    requires
        layout(ls) is Ok,
        encode_lines(ls, labels, fl) is Ok,
    ensures
        encode_lines(ls, labels, fl)->Ok_0.len() == layout(ls)->Ok_0.size,
    decreases ls.len(),
{
    if ls.len() > 0 {
        if layout(ls.drop_last()) is Err {
            assert(layout(ls) is Err);
        }
        lemma_emitted_length(ls.drop_last(), labels, fl);
        lemma_line_length(ls.last(), labels, fl);
    }
}

proof fn lemma_prefix_encoded(
    ls: Seq<Seq<Seq<char>>>,
    labels: Seq<(Seq<char>, u32)>,
    fl: spec_fn(Seq<char>) -> Option<u64>,
    k: int,
)
    requires
        encode_lines(ls, labels, fl) is Ok,
        0 <= k <= ls.len(),
    ensures
        encode_lines(ls.take(k), labels, fl) is Ok,
{
    if encode_lines(ls.take(k), labels, fl) is Err {
        lemma_encode_keeps_error(ls, labels, fl, k as nat);
    }
}

/// What the assembler emits at the byte offset of a line holding an
/// instruction is that instruction's opcode: a label's address, the offset
/// of the line that declares it, is where the instruction after the label
/// stands.
pub proof fn lemma_opcode_at_offset(
    ls: Seq<Seq<Seq<char>>>,
    fl: spec_fn(Seq<char>) -> Option<u64>,
    j: int,
    k: int,
)
    requires
        layout(ls) is Ok,
        encode_lines(ls, layout(ls)->Ok_0.labels, fl) is Ok,
        0 <= j < k <= ls.len(),
        line_opcode(ls[j]) is Some,
    ensures
        ({
            let b = encode_lines(ls.take(k), layout(ls)->Ok_0.labels, fl)->Ok_0;
            &&& offset(ls, j) < b.len()
            &&& b[offset(ls, j) as int] == line_opcode(ls[j])->Some_0
        }),
    decreases k,
{
    let labels = layout(ls)->Ok_0.labels;
    lemma_prefix_encoded(ls, labels, fl, k);
    lemma_prefix_encoded(ls, labels, fl, k - 1);
    lemma_prefix_laid_out(ls, k - 1);
    let t = ls.take(k);
    assert(t.drop_last() =~= ls.take(k - 1));
    assert(t.last() == ls[k - 1]);
    lemma_line_length(ls[k - 1], labels, fl);
    if k == j + 1 {
        lemma_emitted_length(ls.take(j), labels, fl);
    } else {
        lemma_opcode_at_offset(ls, fl, j, k - 1);
    }
}

/// The assembler, with the label table of the last program it read.
pub struct Assembler {
    labels: Vec<(Vec<char>, u32)>,
}

/// Whether a word declares a label.
fn is_label_word(w: &Vec<char>) -> (r: bool)
    ensures
        r == is_label(w@),
{
    w.len() > 0 && w[w.len() - 1] == ':'
}

proof fn lemma_label_name_prefix(w: Seq<char>, k: nat)
    requires
        k <= w.len(),
        forall|j: int| k <= j < w.len() ==> w[j] == ':',
    ensures
        label_name(w) == label_name(w.take(k as int)),
    decreases w.len() - k,
{
    if k < w.len() {
        assert(w.drop_last() =~= w.take(w.len() - 1));
        lemma_label_name_prefix(w.drop_last(), k);
        assert(w.drop_last().take(k as int) =~= w.take(k as int));
    } else {
        assert(w.take(k as int) =~= w);
    }
}

/// The name a label word declares.
fn label_name_of(w: &Vec<char>) -> (r: Vec<char>)
    ensures
        r@ == label_name(w@),
{
    let mut end: usize = w.len();
    while end > 0 && w[end - 1] == ':'
        invariant
            end <= w.len(),
            forall|j: int| end <= j < w.len() ==> w@[j] == ':',
        decreases end,
    {
        end = end - 1;
    }
    proof {
        lemma_label_name_prefix(w@, end as nat);
    }
    let mut r: Vec<char> = Vec::new();
    let mut i: usize = 0;
    while i < end
        invariant
            i <= end <= w.len(),
            r@ == w@.take(i as int),
        decreases end - i,
    {
        r.push(w[i]);
        i = i + 1;
        assert(r@ =~= w@.take(i as int));
    }
    r
}

/// Whether two words are the same.
fn same_word(a: &Vec<char>, b: &Vec<char>) -> (r: bool)
    ensures
        r == (a@ == b@),
{
    if a.len() != b.len() {
        return false;
    }
    let mut i: usize = 0;
    while i < a.len()
        invariant
            i <= a.len() == b.len(),
            forall|j: int| 0 <= j < i ==> a@[j] == b@[j],
        decreases a.len() - i,
    {
        if a[i] != b[i] {
            return false;
        }
        i = i + 1;
    }
    assert(a@ =~= b@);
    true
}

/// The text of an error: `prefix` and then the word it is about.
fn error_text(prefix: &str, t: &Vec<char>) -> (r: String)
    ensures
        r@ == prefix@ + t@,
{
    let mut e = prefix.to_owned();
    let mut i: usize = 0;
    while i < t.len()
        invariant
            i <= t.len(),
            e@ == prefix@ + t@.take(i as int),
        decreases t.len() - i,
    {
        e.push(t[i]);
        i = i + 1;
        assert(e@ =~= prefix@ + t@.take(i as int));
    }
    assert(t@.take(t.len() as int) =~= t@);
    e
}

/// The text of an error.
fn fault_text(f: u8, t: &Vec<char>) -> (r: String)
    requires
        f < 5,
    ensures
        f == 0 ==> r@ == message(AsmFault::UnknownInstruction(t@)),
        f == 1 ==> r@ == message(AsmFault::MissingArgument(t@)),
        f == 2 ==> r@ == message(AsmFault::InvalidByte(t@)),
        f == 3 ==> r@ == message(AsmFault::InvalidInt(t@)),
        f == 4 ==> r@ == message(AsmFault::InvalidFloat(t@)),
{
    if f == 0 {
        error_text("Unknown instruction: ", t)
    } else if f == 1 {
        error_text("Missing argument for ", t)
    } else if f == 2 {
        error_text("Invalid u8: ", t)
    } else if f == 3 {
        error_text("Invalid i32 or label: ", t)
    } else {
        error_text("Invalid f64: ", t)
    }
}

/// The total size of an instruction.
fn instruction_size(c: u8) -> (r: u32)
    requires
        is_opcode(c),
    ensures
        r == size_of(c),
{
    match get_info(c) {
        Some(info) => info.size,
        None => 0,
    }
}

/// The opcode a word spells.
fn opcode_of_word(w: &Vec<char>) -> (r: Option<u8>)
    ensures
        r == opcode_named(w@),
        r matches Some(c) ==> is_opcode(c),
{
    assert(w@.subrange(0, w@.len() as int) =~= w@);
    let r = opcode_of_chars(w, 0, w.len());
    proof {
        if r is Some {
            let c = choose|c: u8| is_opcode(c) && spells(w@, #[trigger] crate::op::name_of(c));
        }
    }
    r
}

impl Assembler {
    /// The label table of the last program read, in order of declaration.
    pub closed spec fn label_table(&self) -> Seq<(Seq<char>, u32)> {
        self.labels@.map_values(|e: (Vec<char>, u32)| (e.0@, e.1))
    }

    /// An assembler with an empty label table.
    pub fn new() -> (r: Self)
        ensures
            r.label_table() == Seq::<(Seq<char>, u32)>::empty(),
    {
        let r = Assembler { labels: Vec::new() };
        assert(r.label_table() =~= Seq::<(Seq<char>, u32)>::empty());
        r
    }

    /// The address of a label of the table.
    fn find_label(&self, name: &Vec<char>) -> (r: Option<u32>)
        ensures
            r == lookup(self.label_table(), name@),
    {
        let mut i: usize = self.labels.len();
        assert(self.label_table().take(i as int) =~= self.label_table());
        while i > 0
            invariant
                i <= self.labels.len(),
                lookup(self.label_table(), name@) == lookup(
                    self.label_table().take(i as int),
                    name@,
                ),
            decreases i,
        {
            let ghost t = self.label_table().take(i as int);
            assert(t.drop_last() =~= self.label_table().take(i - 1));
            if same_word(&self.labels[i - 1].0, name) {
                return Some(self.labels[i - 1].1);
            }
            i = i - 1;
        }
        assert(self.label_table().take(0) =~= Seq::<(Seq<char>, u32)>::empty());
        None
    }

    /// Assembles a program. `parse_float` reads the operand of `FPUSH`;
    /// everything else is read here. On error nothing is emitted and the
    /// message names the offending word.
    pub fn assemble<F: Fn(&str) -> Option<u64>>(&mut self, input: &str, parse_float: &F) -> (r:
        Result<Vec<u8>, String>)
        requires
            is_text_function(*parse_float),
        ensures
            match assemble_spec(input@, floats_of(*parse_float)) {
                Ok(b) => r matches Ok(v) && v@ == b,
                Err(f) => r matches Err(e) && e@ == message(f),
            },
            layout(lex(input@)) matches Ok(l) ==> final(self).label_table() == l.labels,
    {
        let chars = crate::text::chars_of(input);
        let lines = lex_lines(&chars);
        let ghost ls = lines.deep_view();
        let ghost fl = floats_of(*parse_float);
        match self.layout_pass(&lines) {
            Err(e) => {
                return Err(e);
            },
            Ok(()) => {},
        }
        let ghost table = self.label_table();
        let mut bytecode: Vec<u8> = Vec::new();
        let mut i: usize = 0;
        assert(ls.take(0) =~= Seq::<Seq<Seq<char>>>::empty());
        while i < lines.len()
            invariant
                i <= lines.len(),
                ls == lines.deep_view(),
                ls == lex(input@),
                layout(ls) matches Ok(l) && l.labels == table,
                self.label_table() == table,
                fl == floats_of(*parse_float),
                is_text_function(*parse_float),
                encode_lines(ls.take(i as int), table, fl) == Ok::<Seq<u8>, AsmFault>(bytecode@),
            decreases lines.len() - i,
        {
            let line = &lines[i];
            assert(ls.take(i + 1).drop_last() =~= ls.take(i as int));
            assert(ls.take(i + 1).last() == line.deep_view());
            match self.encode_line_into(line, &mut bytecode, parse_float) {
                Err(e) => {
                    proof {
                        lemma_encode_keeps_error(ls, table, fl, (i + 1) as nat);
                    }
                    return Err(e);
                },
                Ok(()) => {},
            }
            i = i + 1;
        }
        assert(ls.take(lines.len() as int) =~= ls);
        Ok(bytecode)
    }

    /// Pass 2 on one line: appends its bytes.
    fn encode_line_into<F: Fn(&str) -> Option<u64>>(
        &self,
        line: &Vec<Vec<char>>,
        bytecode: &mut Vec<u8>,
        parse_float: &F,
    ) -> (r: Result<(), String>)
        requires
            is_text_function(*parse_float),
        ensures
            match encode_line(line.deep_view(), self.label_table(), floats_of(*parse_float)) {
                Ok(b) => r is Ok && final(bytecode)@ == old(bytecode)@ + b,
                Err(f) => r matches Err(e) && e@ == message(f),
            },
    {
        let ghost lv = line.deep_view();
        let ghost before = bytecode@;
        let declared = line.len() > 0 && is_label_word(&line[0]);
        if line.len() > 0 {
            proof {
                lemma_chars_deep_view(line@[0]);
            }
        }
        assert(declared == declares(lv));
        let k: usize = if declared {
            1
        } else {
            0
        };
        if k < line.len() {
            proof {
                lemma_chars_deep_view(line@[k as int]);
            }
            match opcode_of_word(&line[k]) {
                None => Err(fault_text(0, &line[k])),
                Some(c) => {
                    let size = instruction_size(c);
                    if size == 1 {
                        bytecode.push(c);
                        assert(bytecode@ =~= before + seq![c]);
                        Ok(())
                    } else if line.len() <= k + 1 {
                        Err(fault_text(1, &line[k]))
                    } else {
                        proof {
                            lemma_chars_deep_view(line@[k + 1]);
                        }
                        bytecode.push(c);
                        let r = self.encode_operand(bytecode, &line[k + 1], size, parse_float);
                        if r.is_ok() {
                            assert(bytecode@ =~= before + (seq![c] + bytecode@.subrange(
                                before.len() + 1int,
                                bytecode@.len() as int,
                            )));
                        }
                        r
                    }
                },
            }
        } else {
            assert(bytecode@ =~= before + Seq::<u8>::empty());
            Ok(())
        }
    }

    /// Pass 1: fills the label table with the address of every label.
    fn layout_pass(&mut self, lines: &Vec<Vec<Vec<char>>>) -> (r: Result<(), String>)
        ensures
            match layout(lines.deep_view()) {
                Ok(l) => r is Ok && final(self).label_table() == l.labels,
                Err(f) => r matches Err(e) && e@ == message(f),
            },
    {
        self.labels = Vec::new();
        let ghost ls = lines.deep_view();
        let mut addr: u64 = 0;
        let mut i: usize = 0;
        assert(ls.take(0) =~= Seq::<Seq<Seq<char>>>::empty());
        assert(self.label_table() =~= Seq::<(Seq<char>, u32)>::empty());
        while i < lines.len()
            invariant
                i <= lines.len(),
                ls == lines.deep_view(),
                addr <= u32::MAX,
                layout(ls.take(i as int)) == Ok::<Layout, AsmFault>(
                    Layout { size: addr as nat, labels: self.label_table() },
                ),
            decreases lines.len() - i,
        {
            let line = &lines[i];
            assert(ls.take(i + 1).drop_last() =~= ls.take(i as int));
            assert(ls.take(i + 1).last() == line.deep_view());
            let ghost lv = line.deep_view();
            let declared = line.len() > 0 && is_label_word(&line[0]);
            if line.len() > 0 {
                proof {
                    lemma_chars_deep_view(line@[0]);
                }
            }
            assert(declared == declares(lv));
            if declared {
                let name = label_name_of(&line[0]);
                let ghost before = self.label_table();
                self.labels.push((name, addr as u32));
                assert(self.label_table() =~= before.push((label_name(lv[0]), addr as u32)));
            }
            let k: usize = if declared {
                1
            } else {
                0
            };
            if k < line.len() {
                proof {
                    lemma_chars_deep_view(line@[k as int]);
                }
                match opcode_of_word(&line[k]) {
                    None => {
                        proof {
                            lemma_layout_keeps_error(ls, (i + 1) as nat);
                        }
                        return Err(fault_text(0, &line[k]));
                    },
                    Some(c) => {
                        let size = instruction_size(c) as u64;
                        if addr + size > u32::MAX as u64 {
                            proof {
                                lemma_layout_keeps_error(ls, (i + 1) as nat);
                            }
                            return Err("Program larger than 4 GiB".to_owned());
                        }
                        addr = addr + size;
                    },
                }
            }
            i = i + 1;
        }
        assert(ls.take(lines.len() as int) =~= ls);
        Ok(())
    }

    /// Appends the operand bytes of an instruction of total size `size`.
    fn encode_operand<F: Fn(&str) -> Option<u64>>(
        &self,
        bytecode: &mut Vec<u8>,
        arg: &Vec<char>,
        size: u32,
        parse_float: &F,
    ) -> (r: Result<(), String>)
        requires
            is_text_function(*parse_float),
        ensures
            match encode_operand_spec(size as nat, arg@, self.label_table(), floats_of(*parse_float)) {
                Ok(b) => r is Ok && final(bytecode)@ == old(bytecode)@ + b,
                Err(f) => r matches Err(e) && e@ == message(f),
            },
    {
        if size == 2 {
            match parse_u8(arg) {
                Some(v) => {
                    bytecode.push(v);
                    Ok(())
                },
                None => Err(fault_text(2, arg)),
            }
        } else if size == 5 {
            let value: u32 = match self.find_label(arg) {
                Some(a) => a,
                None => match parse_i32(arg) {
                    Some(v) => #[verifier::truncate]
                    (v as u32),
                    None => {
                        return Err(fault_text(3, arg));
                    },
                },
            };
            push_be(bytecode, value as u64, 4);
            Ok(())
        } else if size == 9 {
            let text = string_of(arg, 0, arg.len());
            assert(arg@.subrange(0, arg@.len() as int) =~= arg@);
            let x: &str = text.as_str();
            let parsed = parse_float(x);
            proof {
                assert(call_ensures(*parse_float, (x,), parsed));
                assert(gives(*parse_float, arg@, parsed));
                let other = text_result(*parse_float, arg@);
                assert(gives(*parse_float, arg@, other));
            }
            match parsed {
                Some(bits) => {
                    push_be(bytecode, bits, 8);
                    Ok(())
                },
                None => Err(fault_text(4, arg)),
            }
        } else {
            assert(old(bytecode)@ + Seq::<u8>::empty() =~= old(bytecode)@);
            Ok(())
        }
    }

    /// The total size of the instruction a mnemonic names, 0 for an unknown
    /// mnemonic.
    pub fn get_instruction_size(&self, mnemonic: &str) -> (r: u32)
        ensures
            r == match opcode_named(mnemonic@) {
                Some(c) => size_of(c),
                None => 0,
            },
    {
        match from_mnemonic(mnemonic) {
            Some(c) => {
                proof {
                    let d = choose|d: u8| is_opcode(d) && spells(mnemonic@, #[trigger] crate::op::name_of(d));
                }
                instruction_size(c)
            },
            None => 0,
        }
    }
}

} // verus!
