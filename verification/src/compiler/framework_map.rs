//! The game's symbol map (`framework.map`): reading the addresses of the
//! game's functions out of it, and writing the map of the hack's sections.
use super::demangle::{spec_demangle, try_demangle, Demangled};
use super::static_lib::archive::opt_text;
use super::static_lib::order::SectionKind;
use super::static_lib::LinkedSection;
use super::symbols::SymbolTable;
use crate::text::{lemma_ascii_then_boundary, lemma_boundary_iff, owned, push_char, push_str, str_eq, substr, text_of};
use vstd::prelude::*;
use vstd::string::{StrSliceExecFns, StringSliceAdditionalSpecFns};
use vstd::utf8::{decode_utf8, encode_utf8, is_char_boundary, valid_utf8};

verus! {

/// The pattern of a symbol line of the map: two spaces, the starting
/// address (8), the size (6), the virtual address (8, captured), four more
/// characters, then the name (captured) up to the last two whitespace
/// characters.
pub const MAP_LINE_PATTERN: &'static str = r"\s{2}\w{8}\s\w{6}\s(\w{8}).{4}(.*)\s{2}";

/// The capture groups (group 0 first; `None` for a group that took no part)
/// of the leftmost match of the regular expression `pattern` in `text`, as
/// the `regex` crate finds it; `None` where there is no match or the pattern
/// does not compile.
pub uninterp spec fn regex_captures(pattern: Seq<char>, text: Seq<char>) -> Option<Seq<Option<Seq<char>>>>;

/// What `rustc_demangle` prints for `symbol` (the symbol itself where it is
/// no Rust symbol).
pub uninterp spec fn rust_demangled(symbol: Seq<char>) -> Seq<char>;

pub open spec fn groups_view(v: Seq<Option<String>>) -> Seq<Option<Seq<char>>> {
    v.map_values(|g: Option<String>| opt_text(g))
}

/// `regex::Regex::new(pattern)`, then `Regex::captures` on `text`: each
/// capture group of the leftmost match as text. The result is named
/// `regex_captures`; nothing more of it is stated.
#[verifier::external_body]
fn captures(pattern: &str, text: &str) -> (r: Option<Vec<Option<String>>>)
    ensures
        regex_captures(pattern@, text@) == (match r {
            Some(v) => Some(groups_view(v@)),
            None => None,
        }),
{
    let regex = regex::Regex::new(pattern).ok()?;
    let found = regex.captures(text)?;
    Some(found.iter().map(|g| g.map(|m| m.as_str().to_string())).collect())
}

/// `rustc_demangle::demangle(symbol)`, printed. The result is named
/// `rust_demangled`; nothing more of it is stated.
#[verifier::external_body]
fn demangle_rust(symbol: &str) -> (r: String)
    ensures
        r@ == rust_demangled(symbol@),
{
    rustc_demangle::demangle(symbol).to_string()
}

/// The value of a hexadecimal digit.
pub open spec fn hex_digit(c: char) -> Option<nat> {
    if '0' <= c && c <= '9' {
        Some((c as nat - '0' as nat) as nat)
    } else if 'a' <= c && c <= 'f' {
        Some((c as nat - 'a' as nat + 10) as nat)
    } else if 'A' <= c && c <= 'F' {
        Some((c as nat - 'A' as nat + 10) as nat)
    } else {
        None
    }
}

/// The value of a string of hexadecimal digits.
pub open spec fn hex_digits_value(s: Seq<char>) -> Option<nat>
    decreases s.len(),
{
    if s.len() == 0 {
        Some(0)
    } else {
        match (hex_digits_value(s.drop_last()), hex_digit(s.last())) {
            (Some(v), Some(d)) => Some(v * 16 + d),
            _ => None,
        }
    }
}

/// `u32::from_str_radix(s, 16)`: an optional `+`, then at least one
/// hexadecimal digit, the value fitting in 32 bits.
pub open spec fn from_hex(s: Seq<char>) -> Option<u32> {
    let digits = if s.len() > 0 && s[0] == '+' {
        s.drop_first()
    } else {
        s
    };
    if digits.len() == 0 {
        None
    } else {
        match hex_digits_value(digits) {
            Some(v) => if v <= u32::MAX {
                Some(v as u32)
            } else {
                None
            },
            None => None,
        }
    }
}

proof fn lemma_hex_grows(s: Seq<char>, i: int)
    requires
        0 <= i <= s.len(),
        hex_digits_value(s) is Some,
    ensures
        hex_digits_value(s.subrange(0, i)) is Some,
        hex_digits_value(s.subrange(0, i))->Some_0 <= hex_digits_value(s)->Some_0,
    decreases s.len() - i,
{
    if i < s.len() {
        lemma_hex_grows(s, i + 1);
        assert(s.subrange(0, i + 1).drop_last() =~= s.subrange(0, i));
    } else {
        assert(s.subrange(0, i) =~= s);
    }
}

fn hex_digit_of(c: char) -> (r: Option<u32>)
    ensures
        match hex_digit(c) {
            Some(d) => r == Some(d as u32),
            None => r is None,
        },
{
    if '0' <= c && c <= '9' {
        Some((c as u32) - ('0' as u32))
    } else if 'a' <= c && c <= 'f' {
        Some((c as u32) - ('a' as u32) + 10)
    } else if 'A' <= c && c <= 'F' {
        Some((c as u32) - ('A' as u32) + 10)
    } else {
        None
    }
}

/// `u32::from_str_radix(s, 16)` (see `from_hex`).
pub fn parse_hex_u32(s: &str) -> (r: Option<u32>)
    ensures
        r == from_hex(s@),
{
    let n = s.unicode_len();
    let mut i: usize = 0;
    if n > 0 && s.get_char(0) == '+' {
        i = 1;
    }
    let ghost digits = if s@.len() > 0 && s@[0] == '+' {
        s@.drop_first()
    } else {
        s@
    };
    let ghost first = i;
    assert(digits =~= s@.subrange(first as int, n as int));
    if i == n {
        return None;
    }
    let mut value: u32 = 0;
    assert(digits.subrange(0, 0) =~= Seq::<char>::empty());
    while i < n
        invariant
            n == s@.len(),
            first <= i <= n,
            digits == s@.subrange(first as int, n as int),
            digits.len() > 0,
            from_hex(s@) == (match hex_digits_value(digits) {
                Some(v) => if v <= u32::MAX {
                    Some(v as u32)
                } else {
                    None
                },
                None => None,
            }),
            hex_digits_value(digits.subrange(0, i - first)) == Some(value as nat),
        decreases n - i,
    {
        let ghost prefix = digits.subrange(0, i + 1 - first);
        assert(prefix.drop_last() =~= digits.subrange(0, i - first));
        assert(prefix.last() == s@[i as int]);
        let d = match hex_digit_of(s.get_char(i)) {
            Some(d) => d,
            None => {
                proof {
                    if hex_digits_value(digits) is Some {
                        lemma_hex_grows(digits, i + 1 - first);
                    }
                }
                return None;
            },
        };
        if value > (u32::MAX - d) / 16 {
            assert(value * 16 + d > u32::MAX) by (nonlinear_arith)
                requires
                    value > (u32::MAX - d) / 16,
                    d <= 15,
            ;
            proof {
                if hex_digits_value(digits) is Some {
                    lemma_hex_grows(digits, i + 1 - first);
                }
            }
            return None;
        }
        assert(value * 16 + d <= u32::MAX) by (nonlinear_arith)
            requires
                value <= (u32::MAX - d) / 16,
                d <= 15,
        ;
        value = value * 16 + d;
        i = i + 1;
    }
    assert(digits.subrange(0, n - first) =~= digits);
    Some(value)
}

/// What a line of the map gives: nothing, an abort, or a symbol name (in
/// readable form where it demangles) with its address.
pub enum MapLine {
    Skip,
    Fail,
    Entry(Seq<char>, u32),
}

pub open spec fn text_section_name() -> Seq<char> {
    seq!['.', 't', 'e', 'x', 't']
}

/// What the line `line` gives: lines that do not match `MAP_LINE_PATTERN`
/// and the `.text` line give nothing; otherwise the address must be
/// hexadecimal, and the name demangled (kept as it is where demangling
/// reports an error) must not abort.
pub open spec fn map_line(line: Seq<char>) -> MapLine {
    match regex_captures(MAP_LINE_PATTERN@, line) {
        None => MapLine::Skip,
        Some(groups) => if groups.len() <= 2 || (groups[2] is None) {
            MapLine::Fail
        } else {
            let name = groups[2].unwrap();
            if name == text_section_name() {
                MapLine::Skip
            } else if (groups[1] is None) {
                MapLine::Fail
            } else {
                match from_hex(groups[1].unwrap()) {
                    None => MapLine::Fail,
                    Some(address) => match spec_demangle(name) {
                        Demangled::Panics => MapLine::Fail,
                        Demangled::Fails(_) => MapLine::Entry(name, address),
                        Demangled::Gives(d) => MapLine::Entry(d, address),
                    },
                }
            }
        },
    }
}

/// The lines of the UTF-8 bytes `b` (as `str::lines` splits them: at `\n`,
/// dropping a `\r` right before it; a last line ending is optional), from
/// byte `i` on, the current line having begun at `start`.
pub open spec fn byte_lines_from(b: Seq<u8>, start: int, i: int) -> Seq<Seq<u8>>
    decreases b.len() - i,
{
    if i >= b.len() {
        if 0 <= start < b.len() {
            seq![b.subrange(start, b.len() as int)]
        } else {
            Seq::empty()
        }
    } else if b[i] == 10 {
        let piece = b.subrange(start, i);
        let line = if piece.len() > 0 && piece.last() == 13 {
            piece.drop_last()
        } else {
            piece
        };
        seq![line] + byte_lines_from(b, i + 1, i + 1)
    } else {
        byte_lines_from(b, start, i + 1)
    }
}

/// The symbols that the lines `lines` add to `table`, up to the first empty
/// line; `None` where a line aborts.
pub open spec fn parse_map(lines: Seq<Seq<u8>>, table: Map<Seq<char>, u32>) -> Option<Map<Seq<char>, u32>>
    decreases lines.len(),
{
    if lines.len() == 0 || lines[0].len() == 0 {
        Some(table)
    } else {
        match map_line(decode_utf8(lines[0])) {
            MapLine::Skip => parse_map(lines.drop_first(), table),
            MapLine::Fail => None,
            MapLine::Entry(name, address) => parse_map(lines.drop_first(), table.insert(name, address)),
        }
    }
}

/// The symbols of the map `buf`, a later line winning for a name; `None`
/// where `buf` is not UTF-8 or a line aborts.
pub open spec fn framework_symbols(buf: Seq<u8>) -> Option<Map<Seq<char>, u32>> {
    if valid_utf8(buf) {
        parse_map(byte_lines_from(buf, 0, 0), Map::empty())
    } else {
        None
    }
}

/// What the line `line` gives (see `map_line`).
fn read_map_line(line: &str) -> (r: Option<Option<(String, u32)>>)
    ensures
        match map_line(line@) {
            MapLine::Skip => r == Some(None::<(String, u32)>),
            MapLine::Fail => r is None,
            MapLine::Entry(name, address) => r matches Some(Some((n, a))) && n@ == name && a == address,
        },
{
    let groups = match captures(MAP_LINE_PATTERN, line) {
        Some(g) => g,
        None => {
            return Some(None);
        },
    };
    if groups.len() <= 2 {
        return None;
    }
    assert(groups_view(groups@)[2] == opt_text(groups@[2]));
    assert(groups_view(groups@)[1] == opt_text(groups@[1]));
    let name = match &groups[2] {
        Some(n) => n.as_str(),
        None => {
            return None;
        },
    };
    proof {
        reveal_strlit(".text");
    }
    assert(".text"@ =~= text_section_name());
    if str_eq(name, ".text") {
        return Some(None);
    }
    let address = match &groups[1] {
        Some(a) => match parse_hex_u32(a.as_str()) {
            Some(v) => v,
            None => {
                return None;
            },
        },
        None => {
            return None;
        },
    };
    match try_demangle(name) {
        None => None,
        Some(Ok(d)) => Some(Some((d, address))),
        Some(Err(_)) => Some(Some((owned(name), address))),
    }
}

/// The symbols of the map `buf` (see `framework_symbols`), or `None` where
/// it has none.
pub fn try_parse(buf: &[u8]) -> (r: Option<SymbolTable>)
    ensures
        match framework_symbols(buf@) {
            Some(m) => r matches Some(t) && t@ == m,
            None => r is None,
        },
{
    let text = match text_of(buf) {
        Some(t) => t,
        None => {
            return None;
        },
    };
    let b = text.as_bytes();
    assert(b@ == buf@) by {
        assert(decode_utf8(buf@) == text@);
        vstd::utf8::decode_utf8_encode_utf8(buf@);
    }
    let mut table = SymbolTable::new();
    let mut start: usize = 0;
    let mut i: usize = 0;
    proof {
        lemma_boundary_iff(b@, 0);
    }
    while i < b.len()
        invariant
            b@ == buf@,
            b@ == text.spec_bytes(),
            valid_utf8(b@),
            start <= i <= b@.len(),
            is_char_boundary(b@, start as int),
            framework_symbols(buf@) == parse_map(byte_lines_from(b@, start as int, i as int), table@),
        decreases b@.len() - i,
    {
        if b[i] == 10 {
            let end = if i > start && b[i - 1] == 13 {
                i - 1
            } else {
                i
            };
            proof {
                lemma_boundary_iff(b@, end as int);
                lemma_boundary_iff(b@, i as int);
                lemma_ascii_then_boundary(b@, i as int);
                let piece = b@.subrange(start as int, i as int);
                if piece.len() > 0 && piece.last() == 13 {
                    assert(piece.drop_last() =~= b@.subrange(start as int, end as int));
                } else {
                    assert(piece =~= b@.subrange(start as int, end as int));
                }
            }
            let line = substr(text, start, end);
            if line.is_empty() {
                assert(b@.subrange(start as int, end as int).len() == 0) by {
                    assert(decode_utf8(b@.subrange(start as int, end as int)) == line@);
                    if b@.subrange(start as int, end as int).len() > 0 {
                        assert(line.spec_bytes() == b@.subrange(start as int, end as int));
                        assert(encode_utf8(line@).len() == 0);
                    }
                }
                return Some(table);
            }
            assert(b@.subrange(start as int, end as int).len() > 0) by {
                if b@.subrange(start as int, end as int).len() == 0 {
                    assert(line.spec_bytes() == b@.subrange(start as int, end as int));
                    assert(decode_utf8(line.spec_bytes()) == line@);
                }
            }
            let ghost line_bytes = b@.subrange(start as int, end as int);
            let ghost rest = byte_lines_from(b@, i + 1, i + 1);
            assert(byte_lines_from(b@, start as int, i as int) == seq![line_bytes] + rest);
            assert((seq![line_bytes] + rest)[0] == line_bytes);
            assert((seq![line_bytes] + rest).drop_first() =~= rest);
            assert(decode_utf8(line_bytes) == line@);
            match read_map_line(line) {
                None => {
                    return None;
                },
                Some(None) => {},
                Some(Some((name, address))) => {
                    table.insert(name, address);
                },
            }
            start = i + 1;
        }
        i = i + 1;
    }
    if start < b.len() {
        proof {
            lemma_boundary_iff(b@, b@.len() as int);
        }
        let line = substr(text, start, b.len());
        let ghost last = b@.subrange(start as int, b@.len() as int);
        assert(last.len() > 0);
        assert(decode_utf8(last) == line@);
        assert(byte_lines_from(b@, start as int, i as int) == seq![last]);
        assert(seq![last][0] == last);
        assert(parse_map(Seq::<Seq<u8>>::empty(), table@) == Some(table@));
        match read_map_line(line) {
            None => {
                return None;
            },
            Some(None) => {},
            Some(Some((name, address))) => {
                table.insert(name, address);
            },
        }
        assert(seq![last].drop_first() =~= Seq::<Seq<u8>>::empty());
        assert(parse_map(Seq::<Seq<u8>>::empty(), table@) == Some(table@));
    } else {
        assert(byte_lines_from(b@, start as int, i as int) =~= Seq::<Seq<u8>>::empty());
    }
    Some(table)
}

/// The symbols of the map `buf` (see `framework_symbols`), on maps where
/// every line can be read.
pub fn parse(buf: &[u8]) -> (r: SymbolTable)
    requires
        framework_symbols(buf@) is Some,
    ensures
        r@ == framework_symbols(buf@).unwrap(),
{
    match try_parse(buf) {
        Some(t) => t,
        None => SymbolTable::new(),
    }
}

/// The lowercase hexadecimal digit of `d` (below 16).
pub open spec fn hex_char(d: nat) -> char {
    if d < 10 {
        ('0' as nat + d) as char
    } else {
        ('a' as nat + d - 10) as char
    }
}

/// `v` in lowercase hexadecimal, without leading zeros.
pub open spec fn hex_lower(v: nat) -> Seq<char>
    decreases v,
{
    if v < 16 {
        seq![hex_char(v)]
    } else {
        hex_lower(v / 16) + seq![hex_char(v % 16)]
    }
}

/// `v` in lowercase hexadecimal, padded with zeros to at least `width`
/// digits (as `format!("{:0width$x}")` writes it).
pub open spec fn padded_hex(v: nat, width: nat) -> Seq<char> {
    let h = hex_lower(v);
    if h.len() < width {
        Seq::new((width - h.len()) as nat, |i: int| '0') + h
    } else {
        h
    }
}

fn hex_char_of(d: u32) -> (c: char)
    requires
        d < 16,
    ensures
        c == hex_char(d as nat),
{
    if d < 10 {
        ((48 + d) as u8) as char
    } else {
        ((97 + d - 10) as u8) as char
    }
}

/// `v` in lowercase hexadecimal, padded with zeros to `width` digits (see
/// `padded_hex`).
fn hex_text(v: u32, width: usize) -> (r: String)
    ensures
        r@ == padded_hex(v as nat, width as nat),
{
    let mut digits: Vec<char> = Vec::new();
    let mut q = v;
    while q >= 16
        invariant
            hex_lower(v as nat) == hex_lower(q as nat) + digits@,
        decreases q,
    {
        let c = hex_char_of(q % 16);
        let ghost before = digits@;
        digits.insert(0, c);
        assert(hex_lower(q as nat) == hex_lower((q / 16) as nat) + seq![c]);
        assert(hex_lower(v as nat) =~= hex_lower((q / 16) as nat) + digits@);
        q = q / 16;
    }
    let c = hex_char_of(q);
    digits.insert(0, c);
    assert(hex_lower(v as nat) =~= digits@);
    let mut out = String::new();
    let mut k = digits.len();
    assert(out@ =~= Seq::<char>::empty());
    while k < width
        invariant
            digits@ == hex_lower(v as nat),
            digits@.len() <= k <= width || (digits@.len() == k && k >= width),
            out@ == Seq::new((k - digits@.len()) as nat, |i: int| '0'),
        decreases width - k,
    {
        push_char(&mut out, '0');
        k = k + 1;
        assert(out@ =~= Seq::new((k - digits@.len()) as nat, |i: int| '0'));
    }
    let mut j: usize = 0;
    let ghost pad = out@;
    while j < digits.len()
        invariant
            j <= digits@.len(),
            out@ == pad + digits@.subrange(0, j as int),
        decreases digits@.len() - j,
    {
        push_char(&mut out, digits[j]);
        j = j + 1;
        assert(out@ =~= pad + digits@.subrange(0, j as int));
    }
    assert(digits@.subrange(0, j as int) =~= digits@);
    proof {
        if digits@.len() >= width {
            assert(pad =~= Seq::<char>::empty());
        }
    }
    out
}

pub open spec fn text_prefix() -> Seq<char> {
    seq!['.', 't', 'e', 'x', 't', '.']
}

pub open spec fn hash_marker() -> Seq<u8> {
    seq![58u8, 58u8, 104u8]
}

/// The name under which a section appears in the map: for a text section
/// whose name is `.text.` and a Rust symbol, the symbol demangled, less its
/// hash (the 19 bytes from a `::h` that begins 19 bytes before the end);
/// `None` where those byte positions are not character boundaries.
pub open spec fn display_name(name: Seq<char>, kind: SectionKind) -> Option<Seq<char>> {
    if name.len() >= 6 && name.subrange(0, 6) == text_prefix() && kind == SectionKind::TextSection {
        let d = rust_demangled(name.subrange(6, name.len() as int));
        let b = encode_utf8(d);
        if b.len() >= 19 {
            if !is_char_boundary(b, b.len() - 19) || !is_char_boundary(b, b.len() - 16) {
                None
            } else if b.subrange(b.len() - 19, b.len() - 16) == hash_marker() {
                Some(decode_utf8(b.subrange(0, b.len() - 19)))
            } else {
                Some(d)
            }
        } else {
            Some(d)
        }
    } else {
        Some(name)
    }
}

/// The line of the map for a section: its size and address past the offset
/// of its first function, its name and its member; `None` where the offset
/// passes the size or the address passes `u32::MAX`.
pub open spec fn section_line(s: super::static_lib::LinkedSectionModel) -> Option<Seq<char>> {
    if s.sym_offset > s.len || s.address + s.sym_offset > u32::MAX {
        None
    } else {
        match display_name(s.section_name, s.kind) {
            None => None,
            Some(name) => Some(
                "  00000000 "@ + padded_hex((s.len - s.sym_offset) as nat, 6) + " "@ + padded_hex(
                    (s.address + s.sym_offset) as nat,
                    8,
                ) + "  4 "@ + name + " \t"@ + s.member_name + "\n"@,
            ),
        }
    }
}

/// The head of the map.
pub const MAP_HEADER: &'static str = ".text section layout\n  Starting        Virtual\n  address  Size   address\n  -----------------------\n";

/// The map of `sections` from line `n` on, after the text `acc`.
pub open spec fn map_lines(sections: Seq<super::static_lib::LinkedSectionModel>, acc: Seq<char>) -> Option<Seq<char>>
    decreases sections.len(),
{
    if sections.len() == 0 {
        Some(acc)
    } else {
        match section_line(sections[0]) {
            None => None,
            Some(line) => map_lines(sections.drop_first(), acc + line),
        }
    }
}

/// The name under which a section appears in the map (see `display_name`).
fn section_display_name(section: &LinkedSection) -> (r: Option<String>)
    ensures
        match display_name(section.section_name@, section.kind) {
            Some(n) => r matches Some(s) && s@ == n,
            None => r is None,
        },
{
    let name = section.section_name.as_str();
    proof {
        reveal_strlit(".text.");
    }
    assert(".text."@ =~= text_prefix());
    let n = name.unicode_len();
    let is_text = n >= 6 && str_eq(name.substring_char(0, 6), ".text.") && section.kind == SectionKind::TextSection;
    if !is_text {
        return Some(owned(name));
    }
    let demangled = demangle_rust(name.substring_char(6, n));
    let d = demangled.as_str();
    let bytes = d.as_bytes();
    let len = bytes.len();
    let ghost b = d.spec_bytes();
    if len < 19 {
        return Some(demangled);
    }
    if !d.is_char_boundary(len - 19) || !d.is_char_boundary(len - 16) {
        return None;
    }
    if bytes[len - 19] == 58 && bytes[len - 18] == 58 && bytes[len - 17] == 104 {
        assert(b.subrange(len - 19, len - 16) =~= hash_marker());
        proof {
            vstd::utf8::encode_utf8_valid_utf8(d@);
            crate::text::lemma_boundary_iff(b, 0);
        }
        Some(owned(substr(d, 0, len - 19)))
    } else {
        proof {
            if b.subrange(len - 19, len - 16) == hash_marker() {
                assert(b.subrange(len - 19, len - 16)[0] == b[len - 19]);
                assert(b.subrange(len - 19, len - 16)[1] == b[len - 18]);
                assert(b.subrange(len - 19, len - 16)[2] == b[len - 17]);
            }
        }
        Some(demangled)
    }
}

/// The map of the linked `sections`: `MAP_HEADER`, then one line for each
/// section (see `section_line`), then `tail` (the game's own map, which the
/// build appends unchanged); `None` where a line cannot be written.
pub fn create(sections: &Vec<LinkedSection>, tail: &str) -> (r: Option<String>)
    ensures
        match map_lines(sections@.map_values(|s: LinkedSection| s.model()), MAP_HEADER@) {
            Some(t) => r matches Some(s) && s@ == t + tail@,
            None => r is None,
        },
{
    let ghost all = sections@.map_values(|s: LinkedSection| s.model());
    let mut out = owned(MAP_HEADER);
    let mut k: usize = 0;
    proof {
        reveal_strlit("  00000000 ");
        reveal_strlit(" ");
        reveal_strlit("  4 ");
        reveal_strlit(" \t");
        reveal_strlit("\n");
    }
    assert(all.subrange(0, all.len() as int) =~= all);
    while k < sections.len()
        invariant
            all == sections@.map_values(|s: LinkedSection| s.model()),
            k <= all.len(),
            map_lines(all, MAP_HEADER@) == map_lines(all.subrange(k as int, all.len() as int), out@),
        decreases all.len() - k,
    {
        let ghost rest = all.subrange(k as int, all.len() as int);
        assert(rest.drop_first() =~= all.subrange(k + 1, all.len() as int));
        assert(rest[0] == sections@[k as int].model());
        let s = &sections[k];
        if s.sym_offset > s.len || s.sym_offset > u32::MAX - s.address {
            return None;
        }
        let name = match section_display_name(s) {
            Some(n) => n,
            None => {
                return None;
            },
        };
        let ghost before = out@;
        push_str(&mut out, "  00000000 ");
        let size = hex_text(s.len - s.sym_offset, 6);
        push_str(&mut out, size.as_str());
        push_str(&mut out, " ");
        let address = hex_text(s.address + s.sym_offset, 8);
        push_str(&mut out, address.as_str());
        push_str(&mut out, "  4 ");
        push_str(&mut out, name.as_str());
        push_str(&mut out, " \t");
        push_str(&mut out, s.member_name.as_str());
        push_str(&mut out, "\n");
        assert(out@ =~= before + section_line(s.model())->Some_0);
        k = k + 1;
    }
    assert(all.subrange(k as int, all.len() as int) =~= Seq::<super::static_lib::LinkedSectionModel>::empty());
    push_str(&mut out, tail);
    Some(out)
}

proof fn lemma_hex_char(d: nat)
    requires
        d < 16,
    ensures
        hex_digit(hex_char(d)) == Some(d),
        hex_char(d) != '+',
{
}

proof fn lemma_hex_lower_value(v: nat)
    ensures
        hex_digits_value(hex_lower(v)) == Some(v),
        hex_lower(v).len() > 0,
        hex_lower(v)[0] != '+',
    decreases v,
{
    if v < 16 {
        lemma_hex_char(v);
        assert(seq![hex_char(v)].drop_last() =~= Seq::<char>::empty());
        assert(hex_digits_value(Seq::<char>::empty()) == Some(0nat));
        assert(hex_digits_value(seq![hex_char(v)]) == Some(0nat * 16 + v));
    } else {
        lemma_hex_lower_value(v / 16);
        lemma_hex_char(v % 16);
        let s = hex_lower(v);
        assert(s.drop_last() =~= hex_lower(v / 16));
        assert(s.last() == hex_char(v % 16));
        assert(v == (v / 16) * 16 + v % 16);
        assert(hex_digits_value(s) == Some((v / 16) * 16 + v % 16));
    }
}

pub open spec fn zero_chars(k: nat) -> Seq<char> {
    Seq::new(k, |i: int| '0')
}

proof fn lemma_zeros_value(k: nat)
    ensures
        hex_digits_value(zero_chars(k)) == Some(0nat),
    decreases k,
{
    if k > 0 {
        lemma_zeros_value((k - 1) as nat);
        assert(zero_chars(k).drop_last() =~= zero_chars((k - 1) as nat));
        lemma_hex_char(0);
    }
}

proof fn lemma_leading_zeros(k: nat, s: Seq<char>)
    requires
        hex_digits_value(s) is Some,
    ensures
        hex_digits_value(zero_chars(k) + s) == hex_digits_value(s),
    decreases s.len(),
{
    if s.len() == 0 {
        lemma_zeros_value(k);
        assert(zero_chars(k) + s =~= zero_chars(k));
    } else {
        lemma_leading_zeros(k, s.drop_last());
        assert((zero_chars(k) + s).drop_last() =~= zero_chars(k) + s.drop_last());
        assert((zero_chars(k) + s).last() == s.last());
    }
}

/// Reading back a number that `create` writes in hexadecimal gives the
/// number: `from_hex` undoes `padded_hex`, whatever the width.
pub proof fn lemma_hex_round_trip(v: u32, width: nat)
    ensures
        from_hex(padded_hex(v as nat, width)) == Some(v),
{
    let h = hex_lower(v as nat);
    lemma_hex_lower_value(v as nat);
    if h.len() < width {
        let k = (width - h.len()) as nat;
        lemma_leading_zeros(k, h);
        assert(Seq::new(k, |i: int| '0') =~= zero_chars(k));
        let p = padded_hex(v as nat, width);
        assert(p[0] == '0');
    }
}

/// `b` with every line feed preceded by a carriage return: its lines ended
/// as on Windows.
pub open spec fn to_crlf(b: Seq<u8>) -> Seq<u8>
    decreases b.len(),
{
    if b.len() == 0 {
        b
    } else {
        (if b[0] == 10 {
            seq![13u8, 10u8]
        } else {
            seq![b[0]]
        }) + to_crlf(b.drop_first())
    }
}

/// The characters `cs` with every `\n` preceded by `\r`.
pub open spec fn crlf_chars(cs: Seq<char>) -> Seq<char>
    decreases cs.len(),
{
    if cs.len() == 0 {
        cs
    } else {
        (if cs[0] == '\n' {
            seq!['\r', '\n']
        } else {
            seq![cs[0]]
        }) + crlf_chars(cs.drop_first())
    }
}

pub open spec fn has_no(b: Seq<u8>, v: u8) -> bool {
    forall|k: int| 0 <= k < b.len() ==> b[k] != v
}

proof fn lemma_to_crlf_concat(a: Seq<u8>, c: Seq<u8>)
    ensures
        to_crlf(a + c) == to_crlf(a) + to_crlf(c),
    decreases a.len(),
{
    if a.len() == 0 {
        assert(a + c =~= c);
        assert(to_crlf(a) + to_crlf(c) =~= to_crlf(c));
    } else {
        assert((a + c).drop_first() =~= a.drop_first() + c);
        assert((a + c)[0] == a[0]);
        lemma_to_crlf_concat(a.drop_first(), c);
        let h = if a[0] == 10 { seq![13u8, 10u8] } else { seq![a[0]] };
        assert(h + (to_crlf(a.drop_first()) + to_crlf(c)) =~= (h + to_crlf(a.drop_first())) + to_crlf(c));
    }
}

proof fn lemma_to_crlf_plain(x: Seq<u8>)
    requires
        has_no(x, 10),
    ensures
        to_crlf(x) == x,
    decreases x.len(),
{
    if x.len() > 0 {
        lemma_to_crlf_plain(x.drop_first());
        assert(seq![x[0]] + x.drop_first() =~= x);
    }
}

/// Moving over bytes that are no line feed does not change the lines.
proof fn lemma_lines_skip(z: Seq<u8>, s: int, i: int, j: int)
    requires
        0 <= i <= j <= z.len(),
        forall|k: int| i <= k < j ==> z[k] != 10,
    ensures
        byte_lines_from(z, s, i) == byte_lines_from(z, s, j),
    decreases j - i,
{
    if i < j {
        lemma_lines_skip(z, s, i + 1, j);
    }
}

/// The lines after a prefix `p` are those of what follows it.
proof fn lemma_lines_shift(p: Seq<u8>, y: Seq<u8>, s: int, i: int)
    requires
        0 <= s <= i <= y.len(),
    ensures
        byte_lines_from(p + y, p.len() + s, p.len() + i) == byte_lines_from(y, s, i),
    decreases y.len() - i,
{
    let z = p + y;
    if i >= y.len() {
        assert(z.subrange(p.len() + s, z.len() as int) =~= y.subrange(s, y.len() as int));
    } else {
        assert(z[p.len() + i] == y[i]);
        if y[i] == 10 {
            assert(z.subrange(p.len() + s, p.len() + i) =~= y.subrange(s, i));
            lemma_lines_shift(p, y, i + 1, i + 1);
        } else {
            lemma_lines_shift(p, y, s, i + 1);
        }
    }
}

/// The lines of `x`, a line break (`\n`, or `\r\n` where `crlf`) and `y`:
/// the line `x`, then the lines of `y`.
proof fn lemma_lines_split(x: Seq<u8>, y: Seq<u8>, crlf: bool)
    requires
        has_no(x, 10),
        has_no(x, 13),
    ensures
        byte_lines_from(x + (if crlf { seq![13u8, 10u8] } else { seq![10u8] }) + y, 0, 0) == seq![x]
            + byte_lines_from(y, 0, 0),
{
    let sep = if crlf { seq![13u8, 10u8] } else { seq![10u8] };
    let z = x + sep + y;
    let n = x.len() as int;
    assert forall|k: int| 0 <= k < n implies z[k] != 10 by {
        assert(z[k] == x[k]);
    }
    lemma_lines_skip(z, 0, 0, n);
    if crlf {
        assert(z[n] == 13);
        assert(z[n + 1] == 10);
        assert(byte_lines_from(z, 0, n) == byte_lines_from(z, 0, n + 1));
        let piece = z.subrange(0, n + 1);
        assert(piece.drop_last() =~= x);
        assert(x + sep + y =~= (x + sep) + y);
        lemma_lines_shift(x + sep, y, 0, 0);
    } else {
        assert(z[n] == 10);
        let piece = z.subrange(0, n);
        assert(piece =~= x);
        assert(x + sep + y =~= (x + sep) + y);
        lemma_lines_shift(x + sep, y, 0, 0);
    }
}

/// The first line feed of `b` from `i` on (the length of `b` where there is
/// none).
pub open spec fn newline_from(b: Seq<u8>, i: int) -> int
    decreases b.len() - i,
{
    if i < 0 || i >= b.len() {
        b.len() as int
    } else if b[i] == 10 {
        i
    } else {
        newline_from(b, i + 1)
    }
}

proof fn lemma_newline_from(b: Seq<u8>, i: int)
    requires
        0 <= i <= b.len(),
    ensures
        i <= newline_from(b, i) <= b.len(),
        forall|k: int| i <= k < newline_from(b, i) ==> b[k] != 10,
        newline_from(b, i) < b.len() ==> b[newline_from(b, i)] == 10,
    decreases b.len() - i,
{
    if i < b.len() && b[i] != 10 {
        lemma_newline_from(b, i + 1);
    }
}

/// Ending lines with `\r\n` in place of `\n` leaves the lines of a text
/// that holds no carriage return as they were (`str::lines` drops the `\r`).
pub proof fn lemma_crlf_lines(b: Seq<u8>)
    requires
        has_no(b, 13),
    ensures
        byte_lines_from(to_crlf(b), 0, 0) == byte_lines_from(b, 0, 0),
    decreases b.len(),
{
    lemma_newline_from(b, 0);
    let k = newline_from(b, 0);
    if k == b.len() {
        lemma_to_crlf_plain(b);
    } else {
        let x = b.subrange(0, k);
        let y = b.subrange(k + 1, b.len() as int);
        assert(b =~= x + seq![10u8] + y);
        assert(has_no(x, 10));
        assert(has_no(y, 13));
        lemma_to_crlf_concat(x + seq![10u8], y);
        lemma_to_crlf_concat(x, seq![10u8]);
        lemma_to_crlf_plain(x);
        assert(to_crlf(seq![10u8]) =~= seq![13u8, 10u8]) by {
            assert(seq![10u8].drop_first() =~= Seq::<u8>::empty());
            assert(to_crlf(Seq::<u8>::empty()) == Seq::<u8>::empty());
        }
        lemma_lines_split(x, y, false);
        lemma_lines_split(x, to_crlf(y), true);
        lemma_crlf_lines(y);
    }
}

/// The UTF-8 bytes of a character other than `\n` hold no line feed.
proof fn lemma_scalar_no_newline(c: char)
    requires
        c != '\n',
    ensures
        has_no(vstd::utf8::encode_scalar(c as u32), 10),
{
    let s = c as u32;
    assert(s <= 0x7f && s != 10 ==> (s & 0x7f) as u8 != 10) by (bit_vector);
    assert(forall|x: u8| #[trigger] (0x80u8 | x) != 10) by (bit_vector);
    assert(forall|x: u8| #[trigger] (0xC0u8 | x) != 10) by (bit_vector);
    assert(forall|x: u8| #[trigger] (0xE0u8 | x) != 10) by (bit_vector);
    assert(forall|x: u8| #[trigger] (0xF0u8 | x) != 10) by (bit_vector);
}

proof fn lemma_to_crlf_encode(cs: Seq<char>)
    ensures
        to_crlf(encode_utf8(cs)) == encode_utf8(crlf_chars(cs)),
    decreases cs.len(),
{
    if cs.len() > 0 {
        let c = cs[0];
        let rest = cs.drop_first();
        let e = vstd::utf8::encode_scalar(c as u32);
        assert(encode_utf8(cs) == e + encode_utf8(rest));
        lemma_to_crlf_concat(e, encode_utf8(rest));
        lemma_to_crlf_encode(rest);
        if c == '\n' {
            assert((10u32 & 0x7fu32) == 10u32 && (13u32 & 0x7fu32) == 13u32) by (bit_vector);
            assert(e =~= seq![10u8]);
            assert(vstd::utf8::encode_scalar('\r' as u32) =~= seq![13u8]);
            assert(to_crlf(e) =~= seq![13u8, 10u8]) by {
                assert(e.drop_first() =~= Seq::<u8>::empty());
                assert(to_crlf(Seq::<u8>::empty()) == Seq::<u8>::empty());
            }
            let two = seq!['\r', '\n'] + crlf_chars(rest);
            assert(two[0] == '\r');
            assert(two.drop_first() =~= seq!['\n'] + crlf_chars(rest));
            assert((seq!['\n'] + crlf_chars(rest))[0] == '\n');
            assert((seq!['\n'] + crlf_chars(rest)).drop_first() =~= crlf_chars(rest));
            assert(encode_utf8(seq!['\n'] + crlf_chars(rest)) == seq![10u8] + encode_utf8(crlf_chars(rest)));
            assert(encode_utf8(two) == seq![13u8] + encode_utf8(seq!['\n'] + crlf_chars(rest)));
            assert(seq![13u8, 10u8] + encode_utf8(crlf_chars(rest)) =~= seq![13u8] + (seq![10u8]
                + encode_utf8(crlf_chars(rest))));
        } else {
            lemma_scalar_no_newline(c);
            lemma_to_crlf_plain(e);
            let one = seq![c] + crlf_chars(rest);
            assert(one[0] == c);
            assert(one.drop_first() =~= crlf_chars(rest));
        }
    }
}

/// A map reads the same whether its lines end in `\n` or in `\r\n`, as
/// CodeWarrior writes them: the same symbols, or the same failure.
pub proof fn lemma_crlf_map(b: Seq<u8>)
    requires
        valid_utf8(b),
        has_no(b, 13),
    ensures
        valid_utf8(to_crlf(b)),
        framework_symbols(to_crlf(b)) == framework_symbols(b),
{
    let cs = decode_utf8(b);
    vstd::utf8::decode_utf8_encode_utf8(b);
    lemma_to_crlf_encode(cs);
    vstd::utf8::encode_utf8_valid_utf8(crlf_chars(cs));
    lemma_crlf_lines(b);
}

} // verus!
