//! A tiny PowerPC assembler for the patches that hook the game into the hack:
//! each line is a label `<address>:`, `b <target>`, `bl <target>`,
//! `u32 <value>` or `nop`, with `;` starting a comment.
use super::symbols::SymbolTable;
use crate::text::{str_trim, trim};
use vstd::prelude::*;
use vstd::string::StrSliceExecFns;

verus! {

/// The value of the Rust integer literal `text` as `syn` reads it (including
/// `0o`, `0b` prefixes, `_` separators and type suffixes), or `None` where
/// `text` is no such literal or its value does not fit in 64 bits, for the
/// texts that `lit_int_value` does not settle itself.
pub uninterp spec fn syn_lit_int(text: Seq<char>) -> Option<u64>;

/// The value of the Rust integer literal `text`: `None` for the empty text and
/// for one that starts like an identifier, the value of a plain decimal or
/// `0x` hexadecimal literal that fits in 64 bits, and `syn_lit_int` for any
/// other text.
pub open spec fn lit_int_value(text: Seq<char>) -> Option<u64> {
    if text.len() == 0 || starts_like_identifier(text[0]) {
        None
    } else if plain_literal_value(text) is Some && plain_literal_value(text)->0 <= u64::MAX {
        Some(plain_literal_value(text)->0 as u64)
    } else {
        syn_lit_int(text)
    }
}

/// The value of the digit `c` in base `base` (10 or 16).
pub open spec fn digit_value(c: char, base: nat) -> Option<nat> {
    if '0' <= c <= '9' {
        Some((c as nat - 48) as nat)
    } else if base == 16 && 'a' <= c <= 'f' {
        Some((c as nat - 87) as nat)
    } else if base == 16 && 'A' <= c <= 'F' {
        Some((c as nat - 55) as nat)
    } else {
        None
    }
}

/// The number that the digits `s` stand for in base `base`, or `None` where
/// one of them is no digit of that base.
pub open spec fn radix_value(s: Seq<char>, base: nat) -> Option<nat>
    decreases s.len(),
{
    if s.len() == 0 {
        Some(0)
    } else {
        match (radix_value(s.drop_last(), base), digit_value(s.last(), base)) {
            (Some(v), Some(d)) => Some(v * base + d),
            _ => None,
        }
    }
}

/// An ASCII letter or `_`: the first character of an identifier.
pub open spec fn starts_like_identifier(c: char) -> bool {
    ('a' <= c <= 'z') || ('A' <= c <= 'Z') || c == '_'
}

/// The value of `text` where it is a plain literal: decimal digits only, or
/// `0x` followed by hexadecimal digits only.
pub open spec fn plain_literal_value(text: Seq<char>) -> Option<nat> {
    if text.len() > 2 && text[0] == '0' && text[1] == 'x' {
        radix_value(text.subrange(2, text.len() as int), 16)
    } else if text.len() > 0 {
        radix_value(text, 10)
    } else {
        None
    }
}

/// `syn::parse_str::<syn::LitInt>` followed by `LitInt::value`. Its source
/// (proc-macro2's lexer, syn's `Lit::new` and `parse_lit_int`) shows, and this
/// contract claims (`lit_int_value`), that the empty text and a text that
/// starts with an ASCII letter or `_` (an identifier, keyword or prefixed
/// string, never an integer token) give `None`, and that a plain decimal or
/// `0x` hexadecimal literal whose value fits in 64 bits gives that value. What
/// it gives for other texts is named `syn_lit_int`.
#[verifier::external_body]
pub(crate) fn parse_int_literal(literal: &str) -> (r: Option<u64>)
    ensures
        r == lit_int_value(literal@),
        literal@.len() > 0 && !starts_like_identifier(literal@[0]) && !(plain_literal_value(literal@) is Some
            && plain_literal_value(literal@)->0 <= u64::MAX) ==> r == syn_lit_int(literal@),
{
    match syn::parse_str::<syn::LitInt>(literal) {
        Ok(lit) => Some(lit.value()),
        Err(_) => None,
    }
}

/// One assembled word and the address it goes to.
pub struct Instruction {
    pub address: u32,
    pub data: u32,
}

/// Assembles patch lines, starting at address 0.
pub struct Assembler {
    symbol_table: SymbolTable,
    program_counter: u32,
}

/// The characters of `s` before its first `;` (all of them if there is none).
pub open spec fn before_semicolon(s: Seq<char>) -> Seq<char>
    decreases s.len(),
{
    if s.len() == 0 || s[0] == ';' {
        Seq::empty()
    } else {
        seq![s[0]] + before_semicolon(s.drop_first())
    }
}

/// The code on a line: what comes before its comment, trimmed.
pub open spec fn code_of(line: Seq<char>) -> Seq<char> {
    trim(before_semicolon(line))
}

pub open spec fn starts_with(s: Seq<char>, prefix: Seq<char>) -> bool {
    s.len() >= prefix.len() && s.subrange(0, prefix.len() as int) == prefix
}

/// The 32-bit value of an integer literal (the low bits of its 64-bit value).
pub open spec fn spec_u32_literal(text: Seq<char>) -> Option<u32> {
    match lit_int_value(text) {
        Some(v) => Some(v as u32),
        None => None,
    }
}

/// The address that a branch target stands for: a literal, else the address
/// of the symbol of that name.
pub open spec fn spec_resolve(table: Map<Seq<char>, u32>, symbol: Seq<char>) -> Option<u32> {
    match spec_u32_literal(symbol) {
        Some(v) => Some(v),
        None => if table.contains_key(symbol) {
            Some(table[symbol])
        } else {
            None
        },
    }
}

/// The PowerPC `b`/`bl` instruction (opcode 18) to `destination`, relative to
/// `address` unless `aa`, linking when `lk`.
pub open spec fn spec_branch(address: u32, destination: u32, aa: bool, lk: bool) -> u32 {
    let bits_dest: u32 = if aa {
        destination
    } else {
        (if destination >= address {
            destination - address
        } else {
            destination - address + 0x1_0000_0000
        }) as u32
    };
    let bits_aa: u32 = if aa {
        1
    } else {
        0
    };
    let bits_lk: u32 = if lk {
        1
    } else {
        0
    };
    (((18u32 << 26u32) | (0x3FFFFFCu32 & bits_dest)) | (bits_aa << 1u32)) | bits_lk
}

/// The word that the code line `line` (neither empty nor a label) assembles
/// to at address `pc`, or `None` where assembling it panics.
pub open spec fn spec_instruction(table: Map<Seq<char>, u32>, pc: u32, line: Seq<char>) -> Option<u32> {
    if starts_with(line, seq!['b', 'l', ' ']) {
        match spec_resolve(table, line.subrange(3, line.len() as int)) {
            Some(d) => Some(spec_branch(pc, d, false, true)),
            None => None,
        }
    } else if starts_with(line, seq!['b', ' ']) {
        match spec_resolve(table, line.subrange(2, line.len() as int)) {
            Some(d) => Some(spec_branch(pc, d, false, false)),
            None => None,
        }
    } else if starts_with(line, seq!['u', '3', '2', ' ']) {
        spec_u32_literal(line.subrange(4, line.len() as int))
    } else if line == seq!['n', 'o', 'p'] {
        Some(0x60000000)
    } else {
        None
    }
}

/// `pc + 4`, wrapping around at 2^32.
pub open spec fn next_pc(pc: u32) -> u32 {
    if pc <= 0xFFFF_FFFB {
        (pc + 4) as u32
    } else {
        (pc - 0xFFFF_FFFC) as u32
    }
}

/// The instructions assembled so far and the program counter after `line`,
/// or `None` where assembling it panics.
pub open spec fn spec_line(
    table: Map<Seq<char>, u32>,
    state: (Seq<Instruction>, u32),
    line: Seq<char>,
) -> Option<(Seq<Instruction>, u32)> {
    let code = code_of(line);
    let (done, pc) = state;
    if code.len() == 0 {
        Some(state)
    } else if code.last() == ':' {
        match spec_u32_literal(code.drop_last()) {
            Some(address) => Some((done, address)),
            None => None,
        }
    } else {
        match spec_instruction(table, pc, code) {
            Some(data) => Some((done.push(Instruction { address: pc, data }), next_pc(pc))),
            None => None,
        }
    }
}

/// The instructions that `lines` assemble to, starting at program counter `pc`,
/// and the program counter after them; `None` where assembling them panics.
pub open spec fn spec_assemble(table: Map<Seq<char>, u32>, pc: u32, lines: Seq<Seq<char>>) -> Option<
    (Seq<Instruction>, u32),
>
    decreases lines.len(),
{
    if lines.len() == 0 {
        Some((Seq::empty(), pc))
    } else {
        match spec_assemble(table, pc, lines.drop_last()) {
            None => None,
            Some(state) => spec_line(table, state, lines.last()),
        }
    }
}

/// Once assembling some lines fails, assembling more lines after them fails too.
proof fn lemma_assemble_fails_on(table: Map<Seq<char>, u32>, pc: u32, lines: Seq<Seq<char>>, n: int)
    requires
        0 <= n <= lines.len(),
        spec_assemble(table, pc, lines.subrange(0, n)) is None,
    ensures
        spec_assemble(table, pc, lines) is None,
    decreases lines.len() - n,
{
    if n < lines.len() {
        let next = lines.subrange(0, n + 1);
        assert(next.drop_last() =~= lines.subrange(0, n));
        lemma_assemble_fails_on(table, pc, lines, n + 1);
    } else {
        assert(lines.subrange(0, n) =~= lines);
    }
}

/// What assembling `ys` after the outcome `first` of assembling other lines
/// comes to: the instructions of both in order and the program counter after
/// `ys`, or `None` where either fails.
pub open spec fn assemble_after(
    table: Map<Seq<char>, u32>,
    first: Option<(Seq<Instruction>, u32)>,
    ys: Seq<Seq<char>>,
) -> Option<(Seq<Instruction>, u32)> {
    match first {
        Some((a, pc)) => match spec_assemble(table, pc, ys) {
            Some((b, end)) => Some((a + b, end)),
            None => None,
        },
        None => None,
    }
}

/// A line adds to the instructions before it without looking at them.
proof fn lemma_line_prefix(
    table: Map<Seq<char>, u32>,
    a: Seq<Instruction>,
    d: Seq<Instruction>,
    pc: u32,
    line: Seq<char>,
)
    ensures
        spec_line(table, (a + d, pc), line) == match spec_line(table, (d, pc), line) {
            Some((d2, p2)) => Some((a + d2, p2)),
            None => None,
        },
{
    let code = code_of(line);
    if code.len() != 0 && code.last() != ':' {
        if let Some(data) = spec_instruction(table, pc, code) {
            assert((a + d).push(Instruction { address: pc, data }) =~= a + d.push(
                Instruction { address: pc, data },
            ));
        }
    }
}

/// Assembling two runs of lines one after the other, the second starting at
/// the program counter where the first ends, gives what assembling them
/// together gives: the program counter carries over from one call of
/// `assemble_all_lines` to the next.
pub proof fn lemma_assemble_concat(
    table: Map<Seq<char>, u32>,
    pc: u32,
    xs: Seq<Seq<char>>,
    ys: Seq<Seq<char>>,
)
    ensures
        spec_assemble(table, pc, xs + ys) == assemble_after(table, spec_assemble(table, pc, xs), ys),
    decreases ys.len(),
{
    if ys.len() == 0 {
        assert(xs + ys =~= xs);
        if let Some((a, p)) = spec_assemble(table, pc, xs) {
            assert(a + Seq::<Instruction>::empty() =~= a);
        }
    } else {
        let init = ys.drop_last();
        lemma_assemble_concat(table, pc, xs, init);
        assert((xs + ys).drop_last() =~= xs + init);
        assert((xs + ys).last() == ys.last());
        if let Some((a, p)) = spec_assemble(table, pc, xs) {
            if let Some((b, q)) = spec_assemble(table, p, init) {
                lemma_line_prefix(table, a, b, q, ys.last());
                if let Some((b2, q2)) = spec_line(table, (b, q), ys.last()) {
                    assert(spec_assemble(table, p, ys) == Some((b2, q2)));
                }
            }
        }
    }
}

/// The texts of lines.
pub open spec fn lines_view(lines: Seq<&str>) -> Seq<Seq<char>> {
    lines.map_values(|l: &str| l@)
}

/// The code on `line`: the text before its first `;`, trimmed.
fn reduce_line_to_code(line: &str) -> (r: &str)
    ensures
        r@ == code_of(line@),
{
    let n = line.unicode_len();
    let mut k: usize = 0;
    assert(line@.subrange(0, n as int) =~= line@);
    assert(line@.subrange(0, 0) + line@ =~= line@);
    while k < n && line.get_char(k) != ';'
        invariant
            n == line@.len(),
            k <= n,
            before_semicolon(line@) == line@.subrange(0, k as int) + before_semicolon(
                line@.subrange(k as int, n as int),
            ),
        decreases n - k,
    {
        let ghost rest = line@.subrange(k as int, n as int);
        assert(rest.drop_first() =~= line@.subrange(k + 1, n as int));
        assert(line@.subrange(0, k + 1) =~= line@.subrange(0, k as int) + seq![rest[0]]);
        k = k + 1;
    }
    assert(before_semicolon(line@.subrange(k as int, n as int)) =~= Seq::<char>::empty());
    assert(before_semicolon(line@) =~= line@.subrange(0, k as int));
    let before = line.substring_char(0, k);
    str_trim(before)
}

/// The value of an integer literal, truncated to 32 bits.
fn parse_u32_literal(literal: &str) -> (r: Option<u32>)
    ensures
        r == spec_u32_literal(literal@),
{
    match parse_int_literal(literal) {
        Some(v) => Some(v as u32),
        None => None,
    }
}

/// The address of a label line `<address>:`.
fn parse_program_counter_label(line: &str) -> (r: Option<u32>)
    requires
        line@.len() > 0,
    ensures
        r == spec_u32_literal(line@.drop_last()),
{
    let n = line.unicode_len();
    let address = line.substring_char(0, n - 1);
    assert(address@ =~= line@.drop_last());
    parse_u32_literal(address)
}

/// The PowerPC branch instruction (opcode 18) to `destination` placed at
/// `address`; the displacement is relative unless `aa`, and `lk` links.
fn build_branch_instruction(address: u32, destination: u32, aa: bool, lk: bool) -> (r: u32)
    ensures
        r == spec_branch(address, destination, aa, lk),
{
    let bits_dest = if aa {
        destination
    } else {
        destination.wrapping_sub(address)
    };
    let bits_aa: u32 = if aa {
        1
    } else {
        0
    };
    let bits_lk: u32 = if lk {
        1
    } else {
        0
    };
    (((18u32 << 26u32) | (0x3FFFFFCu32 & bits_dest)) | (bits_aa << 1u32)) | bits_lk
}

/// Whether the first characters of `s` are `prefix`.
fn has_prefix(s: &str, prefix: &str) -> (r: bool)
    ensures
        r == starts_with(s@, prefix@),
{
    let n = s.unicode_len();
    let m = prefix.unicode_len();
    if n < m {
        return false;
    }
    let mut i: usize = 0;
    while i < m
        invariant
            n == s@.len(),
            m == prefix@.len(),
            m <= n,
            i <= m,
            forall|j: int| 0 <= j < i ==> s@[j] == prefix@[j],
        decreases m - i,
    {
        if s.get_char(i) != prefix.get_char(i) {
            assert(s@.subrange(0, m as int)[i as int] != prefix@[i as int]);
            return false;
        }
        i = i + 1;
    }
    assert(s@.subrange(0, m as int) =~= prefix@);
    true
}

impl Assembler {
    /// An assembler that resolves branch targets in `symbol_table`.
    pub fn new(symbol_table: SymbolTable) -> (a: Assembler)
        ensures
            a.table() == symbol_table@,
            a.program_counter() == 0,
    {
        Assembler { symbol_table, program_counter: 0 }
    }

    /// The symbols that branch targets resolve to.
    pub closed spec fn table(&self) -> Map<Seq<char>, u32> {
        self.symbol_table@
    }

    /// The address where the next instruction goes.
    pub closed spec fn program_counter(&self) -> u32 {
        self.program_counter
    }

    /// The address that a branch target stands for.
    fn resolve_symbol(&self, symbol: &str) -> (r: Option<u32>)
        ensures
            r == spec_resolve(self.table(), symbol@),
    {
        match parse_u32_literal(symbol) {
            Some(v) => Some(v),
            None => self.symbol_table.get(symbol),
        }
    }

    /// Assembles one code line that is neither empty nor a label.
    fn parse_instruction(&self, line: &str) -> (r: Option<Instruction>)
        ensures
            match spec_instruction(self.table(), self.program_counter(), line@) {
                Some(d) => r == Some(Instruction { address: self.program_counter(), data: d }),
                None => r is None,
            },
    {
        let n = line.unicode_len();
        let data;
        proof {
            reveal_strlit("bl ");
            reveal_strlit("b ");
            reveal_strlit("u32 ");
            reveal_strlit("nop");
            assert("bl "@ =~= seq!['b', 'l', ' ']);
            assert("b "@ =~= seq!['b', ' ']);
            assert("u32 "@ =~= seq!['u', '3', '2', ' ']);
            assert("nop"@ =~= seq!['n', 'o', 'p']);
        }
        if has_prefix(line, "bl ") {
            let operand = line.substring_char(3, n);
            match self.resolve_symbol(operand) {
                Some(destination) => {
                    data = build_branch_instruction(self.program_counter, destination, false, true);
                },
                None => {
                    return None;
                },
            }
        } else if has_prefix(line, "b ") {
            let operand = line.substring_char(2, n);
            match self.resolve_symbol(operand) {
                Some(destination) => {
                    data = build_branch_instruction(self.program_counter, destination, false, false);
                },
                None => {
                    return None;
                },
            }
        } else if has_prefix(line, "u32 ") {
            let literal = line.substring_char(4, n);
            match parse_u32_literal(literal) {
                Some(v) => {
                    data = v;
                },
                None => {
                    return None;
                },
            }
        } else if n == 3 && has_prefix(line, "nop") {
            assert(line@ =~= line@.subrange(0, 3));
            data = 0x60000000;
        } else {
            proof {
                if line@ == seq!['n', 'o', 'p'] {
                    assert(line@.subrange(0, 3) =~= line@);
                    assert(starts_with(line@, "nop"@));
                }
            }
            return None;
        }
        Some(Instruction { address: self.program_counter, data: data })
    }

    /// Assembles `lines` in order, or gives `None` (with the assembler in an
    /// unspecified state) where `assemble_all_lines` would not accept them.
    pub fn try_assemble_all_lines(&mut self, lines: &[&str]) -> (r: Option<Vec<Instruction>>)
        ensures
            final(self).table() == old(self).table(),
            match spec_assemble(old(self).table(), old(self).program_counter(), lines_view(lines@)) {
                Some((ins, pc)) => r matches Some(v) && v@ == ins && final(self).program_counter() == pc,
                None => r is None,
            },
    {
        let ghost table = self.table();
        let ghost pc0 = self.program_counter();
        let mut instructions: Vec<Instruction> = Vec::new();
        let mut i: usize = 0;
        assert(lines_view(lines@).subrange(0, 0) =~= Seq::<Seq<char>>::empty());
        while i < lines.len()
            invariant
                i <= lines@.len(),
                table == old(self).table(),
                pc0 == old(self).program_counter(),
                self.table() == table,
                spec_assemble(table, pc0, lines_view(lines@).subrange(0, i as int)) == Some(
                    (instructions@, self.program_counter()),
                ),
            decreases lines@.len() - i,
        {
            let ghost prefix = lines_view(lines@).subrange(0, i + 1);
            assert(prefix.drop_last() =~= lines_view(lines@).subrange(0, i as int));
            assert(prefix.last() == lines@[i as int]@);
            let line = reduce_line_to_code(lines[i]);
            let n = line.unicode_len();
            if n == 0 {
            } else if line.get_char(n - 1) == ':' {
                let label = parse_program_counter_label(line);
                if label.is_none() {
                    proof {
                        lemma_assemble_fails_on(table, pc0, lines_view(lines@), i + 1);
                    }
                    return None;
                }
                self.program_counter = label.unwrap();
            } else {
                match self.parse_instruction(line) {
                    Some(instruction) => {
                        instructions.push(instruction);
                        self.program_counter = if self.program_counter <= 0xFFFF_FFFB {
                            self.program_counter + 4
                        } else {
                            self.program_counter - 0xFFFF_FFFC
                        };
                    },
                    None => {
                        proof {
                            lemma_assemble_fails_on(table, pc0, lines_view(lines@), i + 1);
                        }
                        return None;
                    },
                }
            }
            i = i + 1;
        }
        assert(lines_view(lines@).subrange(0, lines@.len() as int) =~= lines_view(lines@));
        Some(instructions)
    }

    /// Assembles `lines` in order: a label moves the program counter, each
    /// instruction is placed at the program counter, which then moves by 4
    /// (wrapping at 2^32), and branch targets are literals or symbols of the
    /// table. The inputs on which assembling panics (an unknown instruction,
    /// an unresolvable target, a malformed literal or label) are left out.
    pub fn assemble_all_lines(&mut self, lines: &[&str]) -> (r: Vec<Instruction>)
        requires
            spec_assemble(old(self).table(), old(self).program_counter(), lines_view(lines@)) is Some,
        ensures
            final(self).table() == old(self).table(),
            spec_assemble(old(self).table(), old(self).program_counter(), lines_view(lines@))
                == Some((r@, final(self).program_counter())),
    {
        match self.try_assemble_all_lines(lines) {
            Some(v) => v,
            None => Vec::new(),
        }
    }
}

} // verus!
