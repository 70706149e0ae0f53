//! Demangling of the CodeWarrior symbol names of the game, such as
//! `draw__Q26JUtility6TColorCFPCci`.
use crate::text::{
    decimal, lemma_ascii_then_boundary, lemma_boundary_iff, owned, push_char, push_decimal, push_str,
    str_eq, substr,
};
use vstd::prelude::*;
use vstd::string::*;
use vstd::utf8::*;

verus! {

broadcast use vstd::utf8::encode_utf8_valid_utf8, vstd::utf8::encode_utf8_decode_utf8;

/// A type as it appears in a mangled name, with the text of its names.
pub enum SType {
    Path(bool, Seq<Seq<char>>),
    Normal(bool, Seq<char>),
    Function(bool, Box<SType>, Seq<SType>),
    Array(usize, Box<SType>),
    Pointer(bool, Box<SType>),
    Reference(bool, Box<SType>),
    VarArgs,
}

/// A type parsed out of a mangled name; its names point into that name.
/// The `bool` of each variant tells whether the type is `const`.
pub enum Type<'a> {
    Path(bool, Vec<&'a str>),
    Normal(bool, &'a str),
    Function(bool, Box<Type<'a>>, Vec<Type<'a>>),
    Array(usize, Box<Type<'a>>),
    Pointer(bool, Box<Type<'a>>),
    Reference(bool, Box<Type<'a>>),
    VarArgs,
}

/// The texts of a list of names.
pub open spec fn names_view<'a>(p: Seq<&'a str>) -> Seq<Seq<char>> {
    p.map_values(|s: &'a str| s@)
}

/// The mathematical value of a parsed type.
pub open spec fn tview<'a>(t: Type<'a>) -> SType
    decreases t,
{
    match t {
        Type::Path(c, p) => SType::Path(c, names_view(p@)),
        Type::Normal(c, n) => SType::Normal(c, n@),
        Type::Function(c, r, ps) => SType::Function(c, Box::new(tview(*r)), tviews(ps@)),
        Type::Array(n, e) => SType::Array(n, Box::new(tview(*e))),
        Type::Pointer(c, e) => SType::Pointer(c, Box::new(tview(*e))),
        Type::Reference(c, e) => SType::Reference(c, Box::new(tview(*e))),
        Type::VarArgs => SType::VarArgs,
    }
}

/// The mathematical values of a list of parsed types.
pub open spec fn tviews<'a>(ps: Seq<Type<'a>>) -> Seq<SType>
    decreases ps,
{
    if ps.len() == 0 {
        Seq::empty()
    } else {
        tviews(ps.drop_last()).push(tview(ps.last()))
    }
}

pub open spec fn const_suffix(c: bool) -> Seq<char> {
    if c {
        " const"@
    } else {
        Seq::empty()
    }
}

/// Names joined by `::`.
pub open spec fn join_path(p: Seq<Seq<char>>) -> Seq<char>
    decreases p.len(),
{
    if p.len() == 0 {
        Seq::empty()
    } else if p.len() == 1 {
        p[0]
    } else {
        join_path(p.drop_last()) + "::"@ + p.last()
    }
}

/// The text that a type shows left of a declared name.
pub open spec fn render_left(t: SType) -> Seq<char>
    decreases t, 0int,
{
    match t {
        SType::Path(c, p) => join_path(p) + const_suffix(c),
        SType::Normal(c, n) => n + const_suffix(c),
        SType::Function(_, r, _) => render_left(*r) + " ("@,
        SType::Array(_, e) => render_left(*e) + " ("@,
        SType::Pointer(c, e) => render_left(*e) + "*"@ + const_suffix(c),
        SType::Reference(c, e) => render_left(*e) + "&"@ + const_suffix(c),
        SType::VarArgs => "..."@,
    }
}

/// The text that a type shows right of a declared name.
pub open spec fn render_right(t: SType) -> Seq<char>
    decreases t, 0int,
{
    match t {
        SType::Path(_, _) | SType::Normal(_, _) | SType::VarArgs => Seq::empty(),
        SType::Function(c, r, ps) => ")("@ + render_list(ps) + (if c {
            ") const"@
        } else {
            ")"@
        }) + render_right(*r),
        SType::Array(n, e) => ")["@ + decimal(n as nat) + "]"@ + render_right(*e),
        SType::Pointer(_, e) => render_right(*e),
        SType::Reference(_, e) => render_right(*e),
    }
}

/// The text of a type.
pub open spec fn render(t: SType) -> Seq<char>
    decreases t, 1int,
{
    render_left(t) + render_right(t)
}

/// The texts of types, separated by `, `.
pub open spec fn render_list(ps: Seq<SType>) -> Seq<char>
    decreases ps, 0int,
{
    if ps.len() == 0 {
        Seq::empty()
    } else if ps.len() == 1 {
        render(ps[0])
    } else {
        render_list(ps.drop_last()) + ", "@ + render(ps.last())
    }
}

impl<'a> Type<'a> {
    /// Appends the text that this type shows left of a declared name.
    pub fn write_left(&self, out: &mut String)
        ensures
            final(out)@ == old(out)@ + render_left(tview(*self)),
        decreases self,
    {
        let ghost start = out@;
        match self {
            Type::Path(c, p) => {
                let mut i: usize = 0;
                while i < p.len()
                    invariant
                        i <= p@.len(),
                        out@ == start + join_path(names_view(p@.subrange(0, i as int))),
                    decreases p@.len() - i,
                {
                    let ghost before = out@;
                    if i != 0 {
                        push_str(out, "::");
                    }
                    push_str(out, p[i]);
                    proof {
                        let q = names_view(p@.subrange(0, i + 1));
                        assert(q.drop_last() =~= names_view(p@.subrange(0, i as int)));
                        assert(q.last() == p@[i as int]@);
                        if i == 0 {
                            assert(q =~= seq![p@[0]@]);
                        }
                    }
                    i = i + 1;
                }
                assert(p@.subrange(0, p@.len() as int) =~= p@);
                if *c {
                    push_str(out, " const");
                }
            },
            Type::Normal(c, n) => {
                push_str(out, n);
                if *c {
                    push_str(out, " const");
                }
            },
            Type::Function(_, r, _) => {
                r.write_left(out);
                push_str(out, " (");
            },
            Type::Array(_, e) => {
                e.write_left(out);
                push_str(out, " (");
            },
            Type::Pointer(c, e) => {
                e.write_left(out);
                push_str(out, "*");
                if *c {
                    push_str(out, " const");
                }
            },
            Type::Reference(c, e) => {
                e.write_left(out);
                push_str(out, "&");
                if *c {
                    push_str(out, " const");
                }
            },
            Type::VarArgs => {
                push_str(out, "...");
            },
        }
        assert(out@ =~= start + render_left(tview(*self)));
    }

    /// Appends the text that this type shows right of a declared name.
    pub fn write_right(&self, out: &mut String)
        ensures
            final(out)@ == old(out)@ + render_right(tview(*self)),
        decreases self, 0int,
    {
        let ghost start = out@;
        match self {
            Type::Path(_, _) | Type::Normal(_, _) | Type::VarArgs => {},
            Type::Function(c, r, ps) => {
                push_str(out, ")(");
                let ghost mid = out@;
                let mut i: usize = 0;
                #[verifier::loop_isolation(false)]
                while i < ps.len()
                    invariant
                        i <= ps@.len(),
                        out@ == mid + render_list(tviews(ps@.subrange(0, i as int))),
                    decreases ps@.len() - i,
                {
                    if i != 0 {
                        push_str(out, ", ");
                    }
                    proof {
                        assert(decreases_to!(*self => ps@[i as int]));
                    }
                    ps[i].write(out);
                    proof {
                        let q = tviews(ps@.subrange(0, i + 1));
                        assert(ps@.subrange(0, i + 1).drop_last() =~= ps@.subrange(0, i as int));
                        assert(q.drop_last() =~= tviews(ps@.subrange(0, i as int)));
                        if i == 0 {
                            assert(q =~= seq![tview(ps@[0])]);
                        }
                    }
                    i = i + 1;
                }
                assert(ps@.subrange(0, ps@.len() as int) =~= ps@);
                if *c {
                    push_str(out, ") const");
                } else {
                    push_str(out, ")");
                }
                r.write_right(out);
            },
            Type::Array(n, e) => {
                push_str(out, ")[");
                push_decimal(out, *n);
                push_str(out, "]");
                e.write_right(out);
            },
            Type::Pointer(_, e) => {
                e.write_right(out);
            },
            Type::Reference(_, e) => {
                e.write_right(out);
            },
        }
        assert(out@ =~= start + render_right(tview(*self)));
    }

    /// Appends the text of this type.
    pub fn write(&self, out: &mut String)
        ensures
            final(out)@ == old(out)@ + render(tview(*self)),
        decreases self, 1int,
    {
        let ghost start = out@;
        self.write_left(out);
        self.write_right(out);
        assert(out@ =~= start + render(tview(*self)));
    }
}


/// What parsing a type out of a mangled name comes to: it panics
/// (`Panics`), reports an error, or yields a type (or none at the end of the
/// text) and the position where the rest of the text starts.
pub enum Parsed {
    Panics,
    Fails(Seq<char>),
    Done(Option<SType>, int),
}

pub open spec fn is_digit_byte(c: u8) -> bool {
    48 <= c <= 57
}

/// The end of the run of ASCII digits that starts at `p`.
pub open spec fn digits_end(b: Seq<u8>, p: int) -> int
    decreases b.len() - p,
{
    if 0 <= p < b.len() && is_digit_byte(b[p]) {
        digits_end(b, p + 1)
    } else {
        p
    }
}

/// The number written by the digits in `b[p..e]`.
pub open spec fn digits_value(b: Seq<u8>, p: int, e: int) -> nat
    decreases e - p,
{
    if e <= p {
        0
    } else {
        digits_value(b, p, e - 1) * 10 + (b[e - 1] - 48) as nat
    }
}

/// The count written at `p` and the position after it, or `None` where there is
/// no digit there or the number does not fit in a `usize`.
pub open spec fn spec_parse_count(b: Seq<u8>, p: int) -> Option<(usize, int)> {
    let e = digits_end(b, p);
    if e == p || digits_value(b, p, e) > usize::MAX {
        None
    } else {
        Some((digits_value(b, p, e) as usize, e))
    }
}

/// The first character boundary at or after `k`.
pub open spec fn next_boundary(b: Seq<u8>, k: int) -> int
    decreases b.len() - k,
{
    if k >= b.len() || is_char_boundary(b, k) {
        k
    } else {
        next_boundary(b, k + 1)
    }
}

pub proof fn lemma_digits_end_bounds(b: Seq<u8>, p: int)
    ensures
        digits_end(b, p) >= p,
        0 <= p <= b.len() ==> digits_end(b, p) <= b.len(),
    decreases b.len() - p,
{
    if 0 <= p < b.len() && is_digit_byte(b[p]) {
        lemma_digits_end_bounds(b, p + 1);
    }
}

pub proof fn lemma_next_boundary_bounds(b: Seq<u8>, k: int)
    ensures
        next_boundary(b, k) >= k,
    decreases b.len() - k,
{
    if !(k >= b.len() || is_char_boundary(b, k)) {
        lemma_next_boundary_bounds(b, k + 1);
    }
}

pub open spec fn void_type() -> SType {
    SType::Normal(false, "void"@)
}

pub open spec fn count_error() -> Seq<char> {
    "Couldn't parse count"@
}

/// The type written at byte `p` of the mangled text `b`.
pub open spec fn spec_parse_type(b: Seq<u8>, p: int) -> Parsed
    decreases b.len() - p, 0int,
{
    if p >= b.len() {
        Parsed::Done(None, p)
    } else if !is_char_boundary(b, p + 1) {
        Parsed::Panics
    } else {
        let c = b[p];
        let q = p + 1;
        if c == 118u8 {
            Parsed::Done(Some(void_type()), q)
        } else if c == 99u8 {
            Parsed::Done(Some(SType::Normal(false, "i8"@)), q)
        } else if c == 115u8 {
            Parsed::Done(Some(SType::Normal(false, "i16"@)), q)
        } else if c == 105u8 || c == 108u8 {
            Parsed::Done(Some(SType::Normal(false, "i32"@)), q)
        } else if c == 120u8 {
            Parsed::Done(Some(SType::Normal(false, "i64"@)), q)
        } else if c == 102u8 {
            Parsed::Done(Some(SType::Normal(false, "f32"@)), q)
        } else if c == 100u8 {
            Parsed::Done(Some(SType::Normal(false, "f64"@)), q)
        } else if c == 98u8 {
            Parsed::Done(Some(SType::Normal(false, "bool"@)), q)
        } else if c == 101u8 {
            Parsed::Done(Some(SType::VarArgs), q)
        } else if is_digit_byte(c) {
            match spec_parse_count(b, p) {
                None => Parsed::Fails(count_error()),
                Some((n, e)) => if e + n > b.len() || !is_char_boundary(b, e + n) {
                    Parsed::Panics
                } else {
                    Parsed::Done(Some(SType::Normal(false, decode_utf8(b.subrange(e, e + n)))), e + n)
                },
            }
        } else if c == 70u8 {
            spec_parse_params(b, q, Seq::empty())
        } else if c == 65u8 {
            match spec_parse_count(b, q) {
                None => Parsed::Fails(count_error()),
                Some((n, e)) => if e >= b.len() || !is_char_boundary(b, e + 1) {
                    Parsed::Panics
                } else {
                    proof {
                        lemma_digits_end_bounds(b, q);
                    }
                    match spec_parse_type(b, e + 1) {
                        Parsed::Panics => Parsed::Panics,
                        Parsed::Fails(m) => Parsed::Fails(m),
                        Parsed::Done(None, _) => Parsed::Fails("Expected Type of Array Elements"@),
                        Parsed::Done(Some(t), r) => Parsed::Done(Some(SType::Array(n, Box::new(t))), r),
                    }
                },
            }
        } else if c == 80u8 {
            match spec_parse_type(b, q) {
                Parsed::Panics => Parsed::Panics,
                Parsed::Fails(m) => Parsed::Fails(m),
                Parsed::Done(None, _) => Parsed::Fails("Expected Type of Pointer"@),
                Parsed::Done(Some(t), r) => Parsed::Done(Some(SType::Pointer(false, Box::new(t))), r),
            }
        } else if c == 82u8 {
            match spec_parse_type(b, q) {
                Parsed::Panics => Parsed::Panics,
                Parsed::Fails(m) => Parsed::Fails(m),
                Parsed::Done(None, _) => Parsed::Fails("Expected Type of Reference"@),
                Parsed::Done(Some(t), r) => Parsed::Done(Some(SType::Reference(false, Box::new(t))), r),
            }
        } else if c == 81u8 {
            if q >= b.len() {
                Parsed::Panics
            } else {
                let nb = next_boundary(b, q + 1);
                if nb >= b.len() {
                    Parsed::Panics
                } else if !is_digit_byte(b[q]) {
                    Parsed::Fails(count_error())
                } else {
                    proof {
                        lemma_next_boundary_bounds(b, q + 1);
                    }
                    spec_parse_path(b, nb, (b[q] - 48) as nat, Seq::empty())
                }
            }
        } else if c == 85u8 {
            if q >= b.len() {
                Parsed::Fails("Expected some unsigned type"@)
            } else if !is_char_boundary(b, q + 1) {
                Parsed::Panics
            } else {
                let u = b[q];
                if u == 99u8 {
                    Parsed::Done(Some(SType::Normal(false, "u8"@)), q + 1)
                } else if u == 115u8 {
                    Parsed::Done(Some(SType::Normal(false, "u16"@)), q + 1)
                } else if u == 105u8 || u == 108u8 {
                    Parsed::Done(Some(SType::Normal(false, "u32"@)), q + 1)
                } else if u == 120u8 {
                    Parsed::Done(Some(SType::Normal(false, "u64"@)), q + 1)
                } else {
                    Parsed::Fails("Unexpected unsigned type "@ + seq![u as char])
                }
            }
        } else if c == 67u8 {
            match spec_parse_type(b, q) {
                Parsed::Panics => Parsed::Panics,
                Parsed::Fails(m) => Parsed::Fails(m),
                Parsed::Done(None, _) => Parsed::Fails("Expected Constant Type"@),
                Parsed::Done(Some(t), r) => match t {
                    SType::Normal(_, n) => Parsed::Done(Some(SType::Normal(true, n)), r),
                    SType::Path(_, e) => Parsed::Done(Some(SType::Path(true, e)), r),
                    SType::Function(_, rt, ps) => Parsed::Done(Some(SType::Function(true, rt, ps)), r),
                    SType::Pointer(_, e) => Parsed::Done(Some(SType::Pointer(true, e)), r),
                    SType::Reference(_, e) => Parsed::Done(Some(SType::Reference(true, e)), r),
                    other => Parsed::Fails("Unexpected const type "@ + render(other)),
                },
            }
        } else if c == 83u8 {
            spec_parse_type(b, q)
        } else {
            Parsed::Fails("Unexpected token "@ + seq![c as char])
        }
    }
}

/// The parameters of a function type, from `p` up to the `_` that introduces
/// its return type; `acc` holds those parsed so far.
pub open spec fn spec_parse_params(b: Seq<u8>, p: int, acc: Seq<SType>) -> Parsed
    decreases b.len() - p, 1int,
{
    if p < b.len() && b[p] == 95u8 {
        spec_parse_return(b, p, acc)
    } else {
        match spec_parse_type(b, p) {
            Parsed::Panics => Parsed::Panics,
            Parsed::Fails(m) => Parsed::Fails(m),
            Parsed::Done(None, r) => if p <= r <= b.len() {
                spec_parse_return(b, r, acc)
            } else {
                Parsed::Panics
            },
            Parsed::Done(Some(t), r) => if p < r <= b.len() {
                spec_parse_params(b, r, acc.push(t))
            } else {
                Parsed::Panics
            },
        }
    }
}

/// The function type with parameters `acc` whose return type follows the `_`
/// at `p` (or is `void` at the end of the text).
pub open spec fn spec_parse_return(b: Seq<u8>, p: int, acc: Seq<SType>) -> Parsed
    decreases b.len() - p, 0int,
{
    if p < b.len() {
        if !is_char_boundary(b, p + 1) {
            Parsed::Panics
        } else {
            match spec_parse_type(b, p + 1) {
                Parsed::Panics => Parsed::Panics,
                Parsed::Fails(m) => Parsed::Fails(m),
                Parsed::Done(o, r) => Parsed::Done(
                    Some(
                        SType::Function(
                            false,
                            Box::new(
                                match o {
                                    Some(t) => t,
                                    None => void_type(),
                                },
                            ),
                            acc,
                        ),
                    ),
                    r,
                ),
            }
        }
    } else {
        Parsed::Done(Some(SType::Function(false, Box::new(void_type()), acc)), p)
    }
}

/// The `n` remaining elements of a qualified name starting at `p`; `acc` holds
/// those parsed so far.
pub open spec fn spec_parse_path(b: Seq<u8>, p: int, n: nat, acc: Seq<Seq<char>>) -> Parsed
    decreases b.len() - p, 1int,
{
    if n == 0 {
        Parsed::Done(Some(SType::Path(false, acc)), p)
    } else {
        match spec_parse_type(b, p) {
            Parsed::Panics => Parsed::Panics,
            Parsed::Fails(m) => Parsed::Fails(m),
            Parsed::Done(None, _) => Parsed::Fails("Expected Path Element"@),
            Parsed::Done(Some(t), r) => match t {
                SType::Normal(_, e) => if p < r <= b.len() {
                    spec_parse_path(b, r, (n - 1) as nat, acc.push(e))
                } else {
                    Parsed::Panics
                },
                other => Parsed::Fails("Unexpected Path Element "@ + render(other)),
            },
        }
    }
}


/// What parsing a type out of a mangled name gave: `None` where parsing
/// panics, else the error or the type and the position after it.
pub type Step<'a> = Option<Result<(Option<Type<'a>>, usize), String>>;

pub open spec fn opt_tview<'a>(o: Option<Type<'a>>) -> Option<SType> {
    match o {
        Some(t) => Some(tview(t)),
        None => None,
    }
}

/// `res` is what `sp` describes, for a parse of `b` that started at `p`.
pub open spec fn step_matches<'a>(sp: Parsed, res: Step<'a>, b: Seq<u8>, p: int) -> bool {
    match sp {
        Parsed::Panics => res is None,
        Parsed::Fails(m) => res matches Some(Err(e)) && e@ == m,
        Parsed::Done(o, r) => res matches Some(Ok((t, q))) && q == r && opt_tview(t) == o && p
            <= r <= b.len() && is_char_boundary(b, r) && (o is Some ==> p < r),
    }
}

/// Reads the count written at byte `pos` of `input`, and the position after it.
fn parse_count(input: &str, pos: usize) -> (res: Option<(usize, usize)>)
    requires
        pos <= input.spec_bytes().len(),
    ensures
        res is Some <==> spec_parse_count(input.spec_bytes(), pos as int) is Some,
        res matches Some((n, e)) ==> spec_parse_count(input.spec_bytes(), pos as int) == Some(
            (n, e as int),
        ),
        res matches Some((_, e)) ==> pos < e <= input.spec_bytes().len() && (is_char_boundary(
            input.spec_bytes(),
            pos as int,
        ) ==> is_char_boundary(input.spec_bytes(), e as int)),
{
    let b = input.as_bytes();
    let mut e = pos;
    let mut value: usize = 0;
    let mut overflow = false;
    while e < b.len() && b[e] >= 48 && b[e] <= 57
        invariant
            b@ == input.spec_bytes(),
            pos <= e <= b@.len(),
            digits_end(b@, pos as int) == digits_end(b@, e as int),
            overflow <==> digits_value(b@, pos as int, e as int) > usize::MAX,
            !overflow ==> value == digits_value(b@, pos as int, e as int),
            is_char_boundary(b@, pos as int) ==> is_char_boundary(b@, e as int),
        decreases b@.len() - e,
    {
        let d = (b[e] - 48) as usize;
        proof {
            if is_char_boundary(b@, pos as int) {
                lemma_ascii_then_boundary(b@, e as int);
            }
        }
        if !overflow {
            match value.checked_mul(10) {
                Some(v) => match v.checked_add(d) {
                    Some(w) => {
                        value = w;
                    },
                    None => {
                        overflow = true;
                    },
                },
                None => {
                    overflow = true;
                },
            }
        }
        e = e + 1;
    }
    if e == pos || overflow {
        None
    } else {
        Some((value, e))
    }
}


/// The conditions under which a branch of `parse_type` is entered.
pub open spec fn at_token(input: &str, pos: usize, c: u8) -> bool {
    &&& pos < input.spec_bytes().len()
    &&& is_char_boundary(input.spec_bytes(), pos as int)
    &&& is_char_boundary(input.spec_bytes(), pos + 1)
    &&& input.spec_bytes()[pos as int] == c
}

/// Parses the type written at byte `pos` of the mangled text `input`.
fn parse_type<'a>(input: &'a str, pos: usize) -> (res: Step<'a>)
    requires
        pos <= input.spec_bytes().len(),
        is_char_boundary(input.spec_bytes(), pos as int),
    ensures
        step_matches(spec_parse_type(input.spec_bytes(), pos as int), res, input.spec_bytes(), pos as int),
    decreases input.spec_bytes().len() - pos, 1int,
{
    let b = input.as_bytes();
    if pos >= b.len() {
        return Some(Ok((None, pos)));
    }
    if !input.is_char_boundary(pos + 1) {
        return None;
    }
    let c = b[pos];
    let q = pos + 1;
    if c == 118u8 {
        Some(Ok((Some(Type::Normal(false, "void")), q)))
    } else if c == 99u8 {
        Some(Ok((Some(Type::Normal(false, "i8")), q)))
    } else if c == 115u8 {
        Some(Ok((Some(Type::Normal(false, "i16")), q)))
    } else if c == 105u8 || c == 108u8 {
        Some(Ok((Some(Type::Normal(false, "i32")), q)))
    } else if c == 120u8 {
        Some(Ok((Some(Type::Normal(false, "i64")), q)))
    } else if c == 102u8 {
        Some(Ok((Some(Type::Normal(false, "f32")), q)))
    } else if c == 100u8 {
        Some(Ok((Some(Type::Normal(false, "f64")), q)))
    } else if c == 98u8 {
        Some(Ok((Some(Type::Normal(false, "bool")), q)))
    } else if c == 101u8 {
        Some(Ok((Some(Type::VarArgs), q)))
    } else if c >= 48 && c <= 57 {
        parse_named(input, pos)
    } else if c == 70u8 {
        parse_function(input, pos)
    } else if c == 65u8 {
        parse_array(input, pos)
    } else if c == 80u8 || c == 82u8 || c == 67u8 || c == 83u8 {
        parse_wrapped(input, pos)
    } else if c == 81u8 {
        parse_qualified(input, pos)
    } else if c == 85u8 {
        parse_unsigned(input, pos)
    } else {
        let mut m = owned("Unexpected token ");
        let ch = c as char;
        assert(ch == (b@[pos as int] as char));
        push_char(&mut m, ch);
        assert(m@ =~= "Unexpected token "@ + seq![b@[pos as int] as char]);
        Some(Err(m))
    }
}

/// The type named by a length-prefixed identifier, like `6TColor`.
fn parse_named<'a>(input: &'a str, pos: usize) -> (res: Step<'a>)
    requires
        pos < input.spec_bytes().len(),
        is_char_boundary(input.spec_bytes(), pos as int),
        is_char_boundary(input.spec_bytes(), pos + 1),
        is_digit_byte(input.spec_bytes()[pos as int]),
    ensures
        step_matches(spec_parse_type(input.spec_bytes(), pos as int), res, input.spec_bytes(), pos as int),
{
    let b = input.as_bytes();
    match parse_count(input, pos) {
        None => Some(Err(owned("Couldn't parse count"))),
        Some((n, e)) => {
            if n > b.len() - e {
                return None;
            }
            let end = e + n;
            if !input.is_char_boundary(end) {
                return None;
            }
            let name = substr(input, e, end);
            Some(Ok((Some(Type::Normal(false, name)), end)))
        },
    }
}

/// A function type `F<parameters>_<return type>`.
fn parse_function<'a>(input: &'a str, pos: usize) -> (res: Step<'a>)
    requires
        at_token(input, pos, 70u8),
    ensures
        step_matches(spec_parse_type(input.spec_bytes(), pos as int), res, input.spec_bytes(), pos as int),
    decreases input.spec_bytes().len() - pos, 0int,
{
    let b = input.as_bytes();
    let _n = b.len();
    let ghost bs = b@;
    let q = pos + 1;
    let mut params: Vec<Type<'a>> = Vec::new();
    let mut cur = q;
    assert(tviews(params@) =~= Seq::<SType>::empty());
    loop
        invariant_except_break
            b@ == bs,
            bs == input.spec_bytes(),
            pos < cur <= bs.len(),
            is_char_boundary(bs, cur as int),
            spec_parse_type(bs, pos as int) == spec_parse_params(bs, cur as int, tviews(params@)),
        ensures
            pos < cur <= bs.len(),
            is_char_boundary(bs, cur as int),
            spec_parse_type(bs, pos as int) == spec_parse_return(bs, cur as int, tviews(params@)),
        decreases bs.len() - cur,
    {
        if cur < b.len() && b[cur] == 95u8 {
            break;
        }
        match parse_type(input, cur) {
            None => {
                return None;
            },
            Some(Err(m)) => {
                return Some(Err(m));
            },
            Some(Ok((None, r))) => {
                cur = r;
                break;
            },
            Some(Ok((Some(t), r))) => {
                let ghost before = params@;
                params.push(t);
                assert(params@.drop_last() =~= before);
                cur = r;
            },
        }
    }
    let ret: Type<'a>;
    let end: usize;
    if cur < b.len() {
        if !input.is_char_boundary(cur + 1) {
            return None;
        }
        match parse_type(input, cur + 1) {
            None => {
                return None;
            },
            Some(Err(m)) => {
                return Some(Err(m));
            },
            Some(Ok((o, r))) => {
                ret = match o {
                    Some(t) => t,
                    None => Type::Normal(false, "void"),
                };
                end = r;
            },
        }
    } else {
        ret = Type::Normal(false, "void");
        end = cur;
    }
    Some(Ok((Some(Type::Function(false, Box::new(ret), params)), end)))
}

/// An array type `A<count>_<element type>`.
fn parse_array<'a>(input: &'a str, pos: usize) -> (res: Step<'a>)
    requires
        at_token(input, pos, 65u8),
    ensures
        step_matches(spec_parse_type(input.spec_bytes(), pos as int), res, input.spec_bytes(), pos as int),
    decreases input.spec_bytes().len() - pos, 0int,
{
    let b = input.as_bytes();
    let _n = b.len();
    let q = pos + 1;
    match parse_count(input, q) {
        None => Some(Err(owned("Couldn't parse count"))),
        Some((n, e)) => {
            if e >= b.len() {
                return None;
            }
            if !input.is_char_boundary(e + 1) {
                return None;
            }
            match parse_type(input, e + 1) {
                None => None,
                Some(Err(m)) => Some(Err(m)),
                Some(Ok((None, _))) => Some(Err(owned("Expected Type of Array Elements"))),
                Some(Ok((Some(t), r))) => Some(Ok((Some(Type::Array(n, Box::new(t))), r))),
            }
        },
    }
}

/// A pointer `P`, reference `R` or constant `C` type, or a type behind `S`.
fn parse_wrapped<'a>(input: &'a str, pos: usize) -> (res: Step<'a>)
    requires
        pos < input.spec_bytes().len(),
        is_char_boundary(input.spec_bytes(), pos as int),
        is_char_boundary(input.spec_bytes(), pos + 1),
        input.spec_bytes()[pos as int] == 80u8 || input.spec_bytes()[pos as int] == 82u8
            || input.spec_bytes()[pos as int] == 67u8 || input.spec_bytes()[pos as int] == 83u8,
    ensures
        step_matches(spec_parse_type(input.spec_bytes(), pos as int), res, input.spec_bytes(), pos as int),
    decreases input.spec_bytes().len() - pos, 0int,
{
    let b = input.as_bytes();
    let _n = b.len();
    let c = b[pos];
    let q = pos + 1;
    let inner = parse_type(input, q);
    if c == 83u8 {
        return inner;
    }
    match inner {
        None => None,
        Some(Err(m)) => Some(Err(m)),
        Some(Ok((None, _))) => {
            if c == 80u8 {
                Some(Err(owned("Expected Type of Pointer")))
            } else if c == 82u8 {
                Some(Err(owned("Expected Type of Reference")))
            } else {
                Some(Err(owned("Expected Constant Type")))
            }
        },
        Some(Ok((Some(t), r))) => {
            if c == 80u8 {
                Some(Ok((Some(Type::Pointer(false, Box::new(t))), r)))
            } else if c == 82u8 {
                Some(Ok((Some(Type::Reference(false, Box::new(t))), r)))
            } else {
                let made_const = match t {
                    Type::Normal(_, n) => Type::Normal(true, n),
                    Type::Path(_, e) => Type::Path(true, e),
                    Type::Function(_, rt, ps) => Type::Function(true, rt, ps),
                    Type::Pointer(_, e) => Type::Pointer(true, e),
                    Type::Reference(_, e) => Type::Reference(true, e),
                    other => {
                        let mut m = owned("Unexpected const type ");
                        other.write(&mut m);
                        return Some(Err(m));
                    },
                };
                Some(Ok((Some(made_const), r)))
            }
        },
    }
}

/// A qualified name `Q<count><element>...`.
fn parse_qualified<'a>(input: &'a str, pos: usize) -> (res: Step<'a>)
    requires
        at_token(input, pos, 81u8),
    ensures
        step_matches(spec_parse_type(input.spec_bytes(), pos as int), res, input.spec_bytes(), pos as int),
    decreases input.spec_bytes().len() - pos, 0int,
{
    let b = input.as_bytes();
    let _n = b.len();
    let ghost bs = b@;
    let q = pos + 1;
    if q >= b.len() {
        return None;
    }
    let mut nb = q + 1;
    while nb < b.len() && !input.is_char_boundary(nb)
        invariant
            b@ == bs,
            bs == input.spec_bytes(),
            q < nb <= bs.len(),
            next_boundary(bs, q + 1) == next_boundary(bs, nb as int),
        decreases bs.len() - nb,
    {
        nb = nb + 1;
    }
    if nb >= b.len() {
        return None;
    }
    let d = b[q];
    if !(d >= 48 && d <= 57) {
        return Some(Err(owned("Couldn't parse count")));
    }
    let count = (d - 48) as usize;
    let mut elements: Vec<&'a str> = Vec::new();
    let mut cur = nb;
    let mut k: usize = 0;
    assert(names_view(elements@) =~= Seq::<Seq<char>>::empty());
    while k < count
        invariant
            b@ == bs,
            bs == input.spec_bytes(),
            k <= count,
            pos < cur <= bs.len(),
            is_char_boundary(bs, cur as int),
            spec_parse_type(bs, pos as int) == spec_parse_path(
                bs,
                cur as int,
                (count - k) as nat,
                names_view(elements@),
            ),
        decreases count - k,
    {
        match parse_type(input, cur) {
            None => {
                return None;
            },
            Some(Err(m)) => {
                return Some(Err(m));
            },
            Some(Ok((None, _))) => {
                return Some(Err(owned("Expected Path Element")));
            },
            Some(Ok((Some(t), r))) => {
                match t {
                    Type::Normal(_, e) => {
                        let ghost before = elements@;
                        elements.push(e);
                        assert(names_view(elements@) =~= names_view(before).push(e@));
                        cur = r;
                    },
                    other => {
                        let mut m = owned("Unexpected Path Element ");
                        other.write(&mut m);
                        return Some(Err(m));
                    },
                }
            },
        }
        k = k + 1;
    }
    Some(Ok((Some(Type::Path(false, elements)), cur)))
}

/// An unsigned integer type `U<c|s|i|l|x>`.
fn parse_unsigned<'a>(input: &'a str, pos: usize) -> (res: Step<'a>)
    requires
        at_token(input, pos, 85u8),
    ensures
        step_matches(spec_parse_type(input.spec_bytes(), pos as int), res, input.spec_bytes(), pos as int),
{
    let b = input.as_bytes();
    let _n = b.len();
    let q = pos + 1;
    if q >= b.len() {
        return Some(Err(owned("Expected some unsigned type")));
    }
    if !input.is_char_boundary(q + 1) {
        return None;
    }
    let u = b[q];
    let name = if u == 99u8 {
        "u8"
    } else if u == 115u8 {
        "u16"
    } else if u == 105u8 || u == 108u8 {
        "u32"
    } else if u == 120u8 {
        "u64"
    } else {
        let mut m = owned("Unexpected unsigned type ");
        let ch = u as char;
        assert(ch == (b@[q as int] as char));
        push_char(&mut m, ch);
        assert(m@ =~= "Unexpected unsigned type "@ + seq![b@[q as int] as char]);
        return Some(Err(m));
    };
    Some(Ok((Some(Type::Normal(false, name)), q + 1)))
}


/// The position of the last `__` that can start at or before byte `i`.
pub open spec fn last_dunder_from(b: Seq<u8>, i: int) -> Option<int>
    decreases i + 1,
{
    if i < 0 {
        None
    } else if i + 1 < b.len() && b[i] == 95u8 && b[i + 1] == 95u8 {
        Some(i)
    } else {
        last_dunder_from(b, i - 1)
    }
}

/// The position of the last `__` in `b`.
pub open spec fn last_dunder(b: Seq<u8>) -> Option<int> {
    last_dunder_from(b, b.len() - 2)
}

proof fn lemma_last_dunder_from(b: Seq<u8>, i: int)
    ensures
        last_dunder_from(b, i) matches Some(k) ==> 0 <= k <= i && k + 1 < b.len() && b[k] == 95u8
            && b[k + 1] == 95u8,
    decreases i + 1,
{
    if i >= 0 && !(i + 1 < b.len() && b[i] == 95u8 && b[i + 1] == 95u8) {
        lemma_last_dunder_from(b, i - 1);
    }
}

/// Splits a mangled name at its last `__` into the base name and the text that
/// describes where it lives; without `__` the whole name is the base name.
fn base_name(function: &str) -> (res: (&str, Option<&str>))
    ensures
        match last_dunder(function.spec_bytes()) {
            Some(i) => {
                &&& res.0@ == decode_utf8(function.spec_bytes().subrange(0, i))
                &&& res.0.spec_bytes() == function.spec_bytes().subrange(0, i)
                &&& res.1 matches Some(path)
                &&& path.spec_bytes() == function.spec_bytes().subrange(
                    i + 2,
                    function.spec_bytes().len() as int,
                )
            },
            None => res.0@ == function@ && res.1 is None,
        },
{
    let b = function.as_bytes();
    let ghost bs = b@;
    let n = b.len();
    if n < 2 {
        return (function, None);
    }
    let mut i = n - 2;
    loop
        invariant
            b@ == bs,
            bs == function.spec_bytes(),
            n == bs.len(),
            i + 2 <= n,
            last_dunder(bs) == last_dunder_from(bs, i as int),
        decreases i,
    {
        if b[i] == 95u8 && b[i + 1] == 95u8 {
            proof {
                lemma_boundary_iff(bs, i as int);
                lemma_boundary_iff(bs, i + 1);
                lemma_ascii_then_boundary(bs, i + 1);
                is_char_boundary_start_end_of_seq(bs);
            }
            let base = substr(function, 0, i);
            let path = substr(function, i + 2, n);
            return (base, Some(path));
        }
        if i == 0 {
            assert(last_dunder_from(bs, -1) is None);
            return (function, None);
        }
        i = i - 1;
    }
}

/// The outcome of demangling a name: it panics, reports an error,
/// or gives the demangled text.
pub enum Demangled {
    Panics,
    Fails(Seq<char>),
    Gives(Seq<char>),
}

/// The signature `sig` once the base name `base` is added: constructors add
/// nothing, destructors add a leading `~`, other names are appended after `::`.
pub open spec fn extend_base(sig: Seq<char>, base: Seq<char>) -> Seq<char> {
    if base == "__ct"@ {
        sig
    } else if base == "__dt"@ {
        "~"@ + sig
    } else if base.len() > 0 {
        (if sig.len() > 0 {
            sig + "::"@
        } else {
            sig
        }) + base
    } else {
        sig
    }
}

/// The parameters of a signature, skipping `void` ones and separating the others
/// by `, ` wherever they are not the first parameter.
pub open spec fn param_list(ps: Seq<SType>) -> Seq<char>
    decreases ps.len(),
{
    if ps.len() == 0 {
        Seq::empty()
    } else if ps.last() == void_type() {
        param_list(ps.drop_last())
    } else {
        param_list(ps.drop_last()) + (if ps.len() - 1 != 0 {
            ", "@
        } else {
            Seq::empty()
        }) + render(ps.last())
    }
}

/// The signature `sig` once the parameter list and return type of the function
/// type `t` are added.
pub open spec fn extend_params(sig: Seq<char>, t: SType) -> Demangled {
    match t {
        SType::Function(c, r, ps) => Demangled::Gives(
            sig + "("@ + param_list(ps) + ")"@ + (if *r == void_type() {
                Seq::empty()
            } else {
                " -> "@ + render(*r)
            }) + const_suffix(c),
        ),
        other => Demangled::Fails(
            "Unexpected Type "@ + render(other) + " for signature "@ + sig + ", expected Function"@,
        ),
    }
}

/// The signature `sig`, completed by the function type written at `r` of `path`
/// if there is one.
pub open spec fn signature_rest(path: Seq<u8>, r: int, sig: Seq<char>) -> Demangled {
    match spec_parse_type(path, r) {
        Parsed::Panics => Demangled::Panics,
        Parsed::Fails(m) => Demangled::Fails(m),
        Parsed::Done(None, _) => Demangled::Gives(sig),
        Parsed::Done(Some(t), _) => extend_params(sig, t),
    }
}

/// What demangling the name `s` gives.
pub open spec fn spec_demangle(s: Seq<char>) -> Demangled {
    let b = encode_utf8(s);
    match last_dunder(b) {
        None => Demangled::Gives(s),
        Some(i) => if i == 0 {
            Demangled::Gives(s)
        } else {
            let base = decode_utf8(b.subrange(0, i));
            let path = b.subrange(i + 2, b.len() as int);
            match spec_parse_type(path, 0) {
                Parsed::Panics => Demangled::Panics,
                Parsed::Fails(m) => Demangled::Fails(m),
                Parsed::Done(None, _) => Demangled::Fails("Expected path"@),
                Parsed::Done(Some(t), r) => match t {
                    SType::Path(_, p) => signature_rest(path, r, extend_base(join_path(p), base)),
                    SType::Normal(_, n) => signature_rest(path, r, extend_base(n, base)),
                    other => extend_params(extend_base(Seq::empty(), base), other),
                },
            }
        },
    }
}

/// `res` is what `d` describes; `None` stands for an abort.
pub open spec fn demangled_matches(d: Demangled, res: Option<Result<String, String>>) -> bool {
    match d {
        Demangled::Panics => res is None,
        Demangled::Fails(m) => res matches Some(Err(e)) && e@ == m,
        Demangled::Gives(t) => res matches Some(Ok(o)) && o@ == t,
    }
}

/// Whether `t` is the plain `void` type.
fn is_void(t: &Type) -> (r: bool)
    ensures
        r == (tview(*t) == void_type()),
{
    match t {
        Type::Normal(c, n) => !*c && str_eq(n, "void"),
        _ => false,
    }
}

/// Adds the base name to the signature.
fn extend_by_base_name(signature: &mut String, base_name: &str)
    ensures
        final(signature)@ == extend_base(old(signature)@, base_name@),
{
    if str_eq(base_name, "__ct") {
    } else if str_eq(base_name, "__dt") {
        let mut s = owned("~");
        push_str(&mut s, signature.as_str());
        *signature = s;
    } else if !base_name.is_empty() {
        if !signature.as_str().is_empty() {
            push_str(signature, "::");
        }
        push_str(signature, base_name);
    }
}

/// Adds the parameter list and return type of the function type `typ` to the
/// signature; any other type is an error.
fn extend_by_params(signature: &mut String, typ: Type) -> (res: Result<(), String>)
    ensures
        match extend_params(old(signature)@, tview(typ)) {
            Demangled::Gives(t) => res is Ok && final(signature)@ == t,
            Demangled::Fails(m) => res matches Err(e) && e@ == m,
            Demangled::Panics => false,
        },
{
    match typ {
        Type::Function(is_const, return_value, params) => {
            let ghost start = signature@;
            push_str(signature, "(");
            let ghost mid = signature@;
            let mut i: usize = 0;
            while i < params.len()
                invariant
                    i <= params@.len(),
                    signature@ == mid + param_list(tviews(params@.subrange(0, i as int))),
                decreases params@.len() - i,
            {
                let ghost sub = params@.subrange(0, i + 1);
                proof {
                    assert(sub.drop_last() =~= params@.subrange(0, i as int));
                    assert(tviews(sub).drop_last() =~= tviews(params@.subrange(0, i as int)));
                    assert(tviews(sub).last() == tview(params@[i as int]));
                }
                if !is_void(&params[i]) {
                    if i != 0 {
                        push_str(signature, ", ");
                    }
                    params[i].write(signature);
                }
                i = i + 1;
            }
            assert(params@.subrange(0, params@.len() as int) =~= params@);
            push_str(signature, ")");
            if !is_void(&return_value) {
                push_str(signature, " -> ");
                return_value.write(signature);
            }
            if is_const {
                push_str(signature, " const");
            }
            assert(signature@ =~= start + "("@ + param_list(tviews(params@)) + ")"@ + (if tview(
                *return_value,
            ) == void_type() {
                Seq::empty()
            } else {
                " -> "@ + render(tview(*return_value))
            }) + const_suffix(is_const));
            Ok(())
        },
        other => {
            let mut m = owned("Unexpected Type ");
            other.write(&mut m);
            push_str(&mut m, " for signature ");
            push_str(&mut m, signature.as_str());
            push_str(&mut m, ", expected Function");
            Err(m)
        },
    }
}

/// Completes the signature with the function type written at `pos` of `path`,
/// if there is one.
fn finish_signature(path: &str, pos: usize, signature: String) -> (res: Option<Result<String, String>>)
    requires
        pos <= path.spec_bytes().len(),
        is_char_boundary(path.spec_bytes(), pos as int),
    ensures
        demangled_matches(signature_rest(path.spec_bytes(), pos as int, signature@), res),
{
    let mut result = signature;
    match parse_type(path, pos) {
        None => None,
        Some(Err(m)) => Some(Err(m)),
        Some(Ok((None, _))) => Some(Ok(result)),
        Some(Ok((Some(t), _))) => match extend_by_params(&mut result, t) {
            Ok(()) => Some(Ok(result)),
            Err(m) => Some(Err(m)),
        },
    }
}

/// Demangles `function`, or gives `None` on the names on which demangling
/// aborts (see `demangle`).
pub fn try_demangle(function: &str) -> (res: Option<Result<String, String>>)
    ensures
        demangled_matches(spec_demangle(function@), res),
{
    let (base, path) = base_name(function);
    let ghost b = function.spec_bytes();
    if base.is_empty() {
        proof {
            if let Some(i) = last_dunder(b) {
                lemma_last_dunder_from(b, b.len() - 2);
                assert(base.spec_bytes() == encode_utf8(base@));
                assert(base@ =~= Seq::<char>::empty());
                assert(encode_utf8(base@) =~= Seq::<u8>::empty());
                assert(b.subrange(0, i).len() == 0);
            }
        }
        return Some(Ok(owned(function)));
    }
    match path {
        None => Some(Ok(owned(base))),
        Some(text) => {
            proof {
                lemma_last_dunder_from(b, b.len() - 2);
                is_char_boundary_start_end_of_seq(text.spec_bytes());
                if last_dunder(b) == Some(0int) {
                    assert(b.subrange(0, 0) =~= Seq::<u8>::empty());
                }
            }
            match parse_type(text, 0) {
                None => None,
                Some(Err(m)) => Some(Err(m)),
                Some(Ok((None, _))) => Some(Err(owned("Expected path"))),
                Some(Ok((Some(typ), rest))) => match typ {
                    Type::Path(_, elements) => {
                        let mut result = String::new();
                        let mut i: usize = 0;
                        while i < elements.len()
                            invariant
                                i <= elements@.len(),
                                result@ == join_path(names_view(elements@.subrange(0, i as int))),
                            decreases elements@.len() - i,
                        {
                            let ghost before = result@;
                            if i != 0 {
                                push_str(&mut result, "::");
                            }
                            push_str(&mut result, elements[i]);
                            proof {
                                let q = names_view(elements@.subrange(0, i + 1));
                                assert(q.drop_last() =~= names_view(elements@.subrange(0, i as int)));
                                if i == 0 {
                                    assert(q =~= seq![elements@[0]@]);
                                }
                            }
                            i = i + 1;
                        }
                        assert(elements@.subrange(0, elements@.len() as int) =~= elements@);
                        extend_by_base_name(&mut result, base);
                        finish_signature(text, rest, result)
                    },
                    Type::Normal(_, name) => {
                        let mut result = owned(name);
                        extend_by_base_name(&mut result, base);
                        finish_signature(text, rest, result)
                    },
                    other => {
                        let mut result = String::new();
                        extend_by_base_name(&mut result, base);
                        match extend_by_params(&mut result, other) {
                            Ok(()) => Some(Ok(result)),
                            Err(m) => Some(Err(m)),
                        }
                    },
                },
            }
        },
    }
}

/// Demangles the CodeWarrior symbol name `function` into a readable signature,
/// such as `JUtility::TColor::draw(i8 const*, i32) const`; a name without a
/// `__` (or with nothing before its last one) is given back unchanged. The
/// names on which demangling panics (a length or an index that runs past
/// the text or into a character) are left out.
pub fn demangle(function: &str) -> (res: Result<String, String>)
    requires
        !(spec_demangle(function@) is Panics),
    ensures
        demangled_matches(spec_demangle(function@), Some(res)),
{
    match try_demangle(function) {
        Some(r) => r,
        None => Err(String::new()),
    }
}

/// The words ` const` that follow a `const` pointer or reference.
pub open spec fn const_words(c: bool) -> Seq<char> {
    if c {
        seq![' ', 'c', 'o', 'n', 's', 't']
    } else {
        Seq::empty()
    }
}

/// A reference shows as the type it refers to followed by `&`, and a pointer
/// as the type it points to followed by `*` (each then ` const` where it is
/// `const`), so a reference never shows like the pointer to the same type.
pub proof fn lemma_reference_and_pointer_render(c: bool, t: SType)
    ensures
        render(SType::Reference(c, Box::new(t))) == render_left(t) + seq!['&'] + const_words(c) + render_right(t),
        render(SType::Pointer(c, Box::new(t))) == render_left(t) + seq!['*'] + const_words(c) + render_right(t),
        render(SType::Reference(c, Box::new(t))) != render(SType::Pointer(c, Box::new(t))),
{
    reveal_strlit("&");
    reveal_strlit("*");
    reveal_strlit(" const");
    assert(const_suffix(c) =~= const_words(c));
    assert("&"@ =~= seq!['&']);
    assert("*"@ =~= seq!['*']);
    let r = render(SType::Reference(c, Box::new(t)));
    let q = render(SType::Pointer(c, Box::new(t)));
    let n = render_left(t).len() as int;
    assert(r == render_left(t) + seq!['&'] + const_words(c) + render_right(t));
    assert(q == render_left(t) + seq!['*'] + const_words(c) + render_right(t));
    assert(r[n] == '&');
    assert(q[n] == '*');
}

/// In a mangled type, `R` makes a reference to the type that follows it and
/// `P` a pointer to it (neither `const`), ending where that type ends; where
/// nothing follows, parsing fails rather than giving a type.
pub proof fn lemma_parse_reference_and_pointer(b: Seq<u8>, p: int)
    requires
        0 <= p < b.len(),
        b[p] == 82u8 || b[p] == 80u8,
        is_char_boundary(b, p + 1),
    ensures
        spec_parse_type(b, p) matches Parsed::Done(Some(t), r) ==> spec_parse_type(b, p + 1) matches Parsed::Done(
            Some(u),
            r2,
        ) && r2 == r && (if b[p] == 82u8 {
            t == SType::Reference(false, Box::new(u))
        } else {
            t == SType::Pointer(false, Box::new(u))
        }),
        !(spec_parse_type(b, p) matches Parsed::Done(None, _)),
{
}

} // verus!
