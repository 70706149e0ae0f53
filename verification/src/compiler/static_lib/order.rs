//! The order in which the linker lays out the sections it takes: text
//! sections first, then data, then zero-filled ones; within a kind by member
//! name (as Rust orders strings, byte by byte) and then by section index.
use super::archive::{Library, LibraryModel, SectionModel};
use super::closure::{member_ok, object_at, section_key_ok};
use vstd::prelude::*;
use vstd::utf8::{encode_utf8, encode_utf8_decode_utf8};

verus! {

/// What a section holds.
#[derive(Clone, Copy, PartialEq, Eq, Structural, PartialOrd, Ord, Hash, Debug)]
pub enum SectionKind {
    TextSection,
    DataSection,
    BlockStartedBySymbol,
}

/// goblin's `SectionHeader::is_executable`: allocated (`SHF_ALLOC`) and
/// executable (`SHF_EXECINSTR`).
pub open spec fn is_executable(s: SectionModel) -> bool {
    (s.flags as u32) & 2u32 == 2u32 && (s.flags as u32) & 4u32 == 4u32
}

/// Executable sections hold text, `SHT_NOBITS` ones are zero-filled, the
/// rest hold data.
pub open spec fn kind_of(s: SectionModel) -> SectionKind {
    if is_executable(s) {
        SectionKind::TextSection
    } else if s.kind == 8 {
        SectionKind::BlockStartedBySymbol
    } else {
        SectionKind::DataSection
    }
}

pub open spec fn kind_rank(k: SectionKind) -> int {
    match k {
        SectionKind::TextSection => 0,
        SectionKind::DataSection => 1,
        SectionKind::BlockStartedBySymbol => 2,
    }
}

/// The kind of the section that `key` names.
pub open spec fn key_kind(lib: LibraryModel, key: (usize, usize)) -> SectionKind {
    kind_of(object_at(lib, key.0).sections[key.1 as int])
}

/// Lexicographic order on bytes, a proper prefix coming first.
pub open spec fn bytes_less(a: Seq<u8>, b: Seq<u8>) -> bool
    decreases a.len(),
{
    if b.len() == 0 {
        false
    } else if a.len() == 0 {
        true
    } else if a[0] != b[0] {
        a[0] < b[0]
    } else {
        bytes_less(a.drop_first(), b.drop_first())
    }
}

/// The name of the member of `key`, as bytes.
pub open spec fn key_name(lib: LibraryModel, key: (usize, usize)) -> Seq<u8> {
    encode_utf8(lib.members[key.0 as int].name)
}

/// Whether section `a` comes before section `b`: by kind, then member name,
/// then section index.
pub open spec fn key_less(lib: LibraryModel, a: (usize, usize), b: (usize, usize)) -> bool {
    let ka = kind_rank(key_kind(lib, a));
    let kb = kind_rank(key_kind(lib, b));
    ||| ka < kb
    ||| ka == kb && bytes_less(key_name(lib, a), key_name(lib, b))
    ||| ka == kb && key_name(lib, a) == key_name(lib, b) && a.1 < b.1
}

pub open spec fn sorted_keys(lib: LibraryModel, v: Seq<(usize, usize)>) -> bool {
    forall|i: int, j: int| 0 <= i < j < v.len() ==> key_less(lib, #[trigger] v[i], #[trigger] v[j])
}

proof fn lemma_bytes_less_irreflexive(a: Seq<u8>)
    ensures
        !bytes_less(a, a),
    decreases a.len(),
{
    if a.len() > 0 {
        lemma_bytes_less_irreflexive(a.drop_first());
    }
}

proof fn lemma_bytes_less_transitive(a: Seq<u8>, b: Seq<u8>, c: Seq<u8>)
    requires
        bytes_less(a, b),
        bytes_less(b, c),
    ensures
        bytes_less(a, c),
    decreases a.len(),
{
    if a.len() > 0 && a[0] == b[0] && b[0] == c[0] {
        lemma_bytes_less_transitive(a.drop_first(), b.drop_first(), c.drop_first());
    }
}

proof fn lemma_bytes_less_total(a: Seq<u8>, b: Seq<u8>)
    requires
        a != b,
    ensures
        bytes_less(a, b) || bytes_less(b, a),
    decreases a.len(),
{
    if a.len() > 0 && b.len() > 0 && a[0] == b[0] {
        if a.drop_first() == b.drop_first() {
            assert(a =~= seq![a[0]] + a.drop_first());
            assert(b =~= seq![b[0]] + b.drop_first());
        }
        lemma_bytes_less_total(a.drop_first(), b.drop_first());
    } else if a.len() == 0 && b.len() == 0 {
        assert(a =~= b);
    }
}

proof fn lemma_bytes_less_asymmetric(a: Seq<u8>, b: Seq<u8>)
    requires
        bytes_less(a, b),
    ensures
        !bytes_less(b, a),
{
    if bytes_less(b, a) {
        lemma_bytes_less_transitive(a, b, a);
        lemma_bytes_less_irreflexive(a);
    }
}

pub proof fn lemma_key_less_irreflexive(lib: LibraryModel, a: (usize, usize))
    ensures
        !key_less(lib, a, a),
{
    lemma_bytes_less_irreflexive(key_name(lib, a));
}

pub proof fn lemma_key_less_transitive(lib: LibraryModel, a: (usize, usize), b: (usize, usize), c: (usize, usize))
    requires
        key_less(lib, a, b),
        key_less(lib, b, c),
    ensures
        key_less(lib, a, c),
{
    let (na, nb, nc) = (key_name(lib, a), key_name(lib, b), key_name(lib, c));
    if bytes_less(na, nb) && bytes_less(nb, nc) {
        lemma_bytes_less_transitive(na, nb, nc);
    }
}

/// Two different sections of members that the linker reads are ordered.
pub proof fn lemma_key_less_total(lib: LibraryModel, a: (usize, usize), b: (usize, usize))
    requires
        section_key_ok(lib, a),
        section_key_ok(lib, b),
        a != b,
    ensures
        key_less(lib, a, b) || key_less(lib, b, a),
{
    let (na, nb) = (key_name(lib, a), key_name(lib, b));
    if na == nb {
        encode_utf8_decode_utf8(lib.members[a.0 as int].name);
        encode_utf8_decode_utf8(lib.members[b.0 as int].name);
        assert(lib.members[a.0 as int].name == lib.members[b.0 as int].name);
        assert(a.0 == b.0);
    } else {
        lemma_bytes_less_total(na, nb);
    }
}

pub proof fn lemma_key_less_asymmetric(lib: LibraryModel, a: (usize, usize), b: (usize, usize))
    requires
        key_less(lib, a, b),
    ensures
        !key_less(lib, b, a),
{
    if key_less(lib, b, a) {
        lemma_key_less_transitive(lib, a, b, a);
        lemma_key_less_irreflexive(lib, a);
    }
}

/// Whether `a` comes before `b` in byte order.
fn bytes_lt(a: &[u8], b: &[u8]) -> (r: bool)
    ensures
        r == bytes_less(a@, b@),
{
    let mut i: usize = 0;
    assert(a@.subrange(0, a@.len() as int) =~= a@);
    assert(b@.subrange(0, b@.len() as int) =~= b@);
    while i < a.len() && i < b.len() && a[i] == b[i]
        invariant
            i <= a@.len(),
            i <= b@.len(),
            bytes_less(a@, b@) == bytes_less(a@.subrange(i as int, a@.len() as int), b@.subrange(i as int, b@.len() as int)),
        decreases a@.len() - i,
    {
        let ghost ra = a@.subrange(i as int, a@.len() as int);
        let ghost rb = b@.subrange(i as int, b@.len() as int);
        assert(ra.drop_first() =~= a@.subrange(i + 1, a@.len() as int));
        assert(rb.drop_first() =~= b@.subrange(i + 1, b@.len() as int));
        i = i + 1;
    }
    if i == b.len() {
        false
    } else if i == a.len() {
        true
    } else {
        a[i] < b[i]
    }
}

/// The kind of the section that `key` names, in a library whose member of
/// `key` has been read.
pub fn kind_of_key(lib: &Library, key: (usize, usize)) -> (r: SectionKind)
    requires
        section_key_ok(lib.model(), key),
    ensures
        r == key_kind(lib.model(), key),
{
    let ghost lm = lib.model();
    assert(lm.objects[key.0 as int] == super::archive::opt_object(lib.objects@[key.0 as int]));
    let obj = lib.objects[key.0].as_ref().unwrap();
    let section = &obj.sections[key.1];
    assert(object_at(lm, key.0).sections[key.1 as int] == section.model());
    if (section.flags as u32) & 2u32 == 2u32 && (section.flags as u32) & 4u32 == 4u32 {
        SectionKind::TextSection
    } else if section.kind == 8 {
        SectionKind::BlockStartedBySymbol
    } else {
        SectionKind::DataSection
    }
}

fn kind_number(k: SectionKind) -> (r: u8)
    ensures
        r == kind_rank(k),
{
    match k {
        SectionKind::TextSection => 0,
        SectionKind::DataSection => 1,
        SectionKind::BlockStartedBySymbol => 2,
    }
}

/// Whether section `a` comes before section `b` (see `key_less`).
fn key_lt(lib: &Library, a: (usize, usize), b: (usize, usize)) -> (r: bool)
    requires
        section_key_ok(lib.model(), a),
        section_key_ok(lib.model(), b),
    ensures
        r == key_less(lib.model(), a, b),
{
    let ka = kind_number(kind_of_key(lib, a));
    let kb = kind_number(kind_of_key(lib, b));
    if ka != kb {
        return ka < kb;
    }
    let na = lib.members[a.0].name.as_str().as_bytes();
    let nb = lib.members[b.0].name.as_str().as_bytes();
    assert(lib.model().members[a.0 as int] == lib.members@[a.0 as int].model());
    assert(lib.model().members[b.0 as int] == lib.members@[b.0 as int].model());
    if bytes_lt(na, nb) {
        return true;
    }
    if bytes_lt(nb, na) {
        proof {
            lemma_bytes_less_asymmetric(nb@, na@);
        }
        return false;
    }
    proof {
        if na@ != nb@ {
            lemma_bytes_less_total(na@, nb@);
        }
    }
    a.1 < b.1
}

/// `keys` in layout order (see `key_less`).
pub fn sort_sections(lib: &Library, keys: &Vec<(usize, usize)>) -> (r: Vec<(usize, usize)>)
    requires
        keys@.no_duplicates(),
        forall|k: int| 0 <= k < keys@.len() ==> section_key_ok(lib.model(), #[trigger] keys@[k]),
    ensures
        r@.len() == keys@.len(),
        r@.to_set() == keys@.to_set(),
        sorted_keys(lib.model(), r@),
{
    let ghost lm = lib.model();
    let mut out: Vec<(usize, usize)> = Vec::new();
    let mut i: usize = 0;
    while i < keys.len()
        invariant
            lm == lib.model(),
            keys@.no_duplicates(),
            forall|k: int| 0 <= k < keys@.len() ==> section_key_ok(lm, #[trigger] keys@[k]),
            i <= keys@.len(),
            out@.len() == i,
            out@.to_set() == keys@.subrange(0, i as int).to_set(),
            sorted_keys(lm, out@),
        decreases keys@.len() - i,
    {
        let x = keys[i];
        assert(!out@.to_set().contains(x)) by {
            if out@.to_set().contains(x) {
                assert(keys@.subrange(0, i as int).to_set().contains(x));
                let j = choose|j: int| 0 <= j < i && keys@.subrange(0, i as int)[j] == x;
                assert(keys@[j] == keys@[i as int]);
            }
        }
        assert forall|k: int| 0 <= k < out@.len() implies section_key_ok(lm, #[trigger] out@[k]) && out@[k] != x by {
            assert(out@.to_set().contains(out@[k]));
            assert(keys@.subrange(0, i as int).to_set().contains(out@[k]));
            let j = choose|j: int| 0 <= j < i && keys@.subrange(0, i as int)[j] == out@[k];
            assert(keys@[j] == out@[k]);
        }
        let mut p: usize = 0;
        while p < out.len() && key_lt(lib, out[p], x)
            invariant
                lm == lib.model(),
                section_key_ok(lm, x),
                forall|k: int| 0 <= k < out@.len() ==> section_key_ok(lm, #[trigger] out@[k]) && out@[k] != x,
                p <= out@.len(),
                forall|k: int| 0 <= k < p ==> key_less(lm, #[trigger] out@[k], x),
            decreases out@.len() - p,
        {
            p = p + 1;
        }
        let ghost old_out = out@;
        proof {
            if p < old_out.len() {
                lemma_key_less_total(lm, old_out[p as int], x);
            }
        }
        out.insert(p, x);
        proof {
            assert forall|a: int, b: int| 0 <= a < b < out@.len() implies key_less(lm, #[trigger] out@[a], #[trigger] out@[b]) by {
                if b < p {
                    assert(out@[a] == old_out[a] && out@[b] == old_out[b]);
                } else if b == p {
                    assert(out@[a] == old_out[a]);
                } else if a == p {
                    assert(out@[b] == old_out[b - 1]);
                    if b - 1 > p {
                        assert(key_less(lm, old_out[p as int], old_out[b - 1]));
                        lemma_key_less_transitive(lm, x, old_out[p as int], old_out[b - 1]);
                    }
                } else if a < p {
                    assert(out@[a] == old_out[a] && out@[b] == old_out[b - 1]);
                } else {
                    assert(out@[a] == old_out[a - 1] && out@[b] == old_out[b - 1]);
                }
            }
            let ghost prefix = keys@.subrange(0, i as int);
            let ghost next = keys@.subrange(0, i + 1);
            assert(next =~= prefix.push(x));
            assert forall|y: (usize, usize)| next.to_set().contains(y) <==> prefix.to_set().insert(x).contains(y) by {
                if next.to_set().contains(y) {
                    let j = choose|j: int| 0 <= j < next.len() && next[j] == y;
                    if j < prefix.len() {
                        assert(prefix[j] == y);
                    }
                }
                if prefix.to_set().contains(y) {
                    let j = choose|j: int| 0 <= j < prefix.len() && prefix[j] == y;
                    assert(next[j] == y);
                }
                if y == x {
                    assert(next[i as int] == x);
                }
            }
            assert(next.to_set() =~= prefix.to_set().insert(x));
            assert(out@.to_set() =~= keys@.subrange(0, i + 1).to_set()) by {
                assert forall|y: (usize, usize)| out@.to_set().contains(y) <==> old_out.to_set().insert(x).contains(y) by {
                    if out@.to_set().contains(y) {
                        let j = choose|j: int| 0 <= j < out@.len() && out@[j] == y;
                        if j < p {
                            assert(old_out[j] == y);
                        } else if j > p {
                            assert(old_out[j - 1] == y);
                        }
                    }
                    if old_out.to_set().contains(y) {
                        let j = choose|j: int| 0 <= j < old_out.len() && old_out[j] == y;
                        if j < p {
                            assert(out@[j] == y);
                        } else {
                            assert(out@[j + 1] == y);
                        }
                    }
                    if y == x {
                        assert(out@[p as int] == x);
                    }
                }
            }
        }
        i = i + 1;
    }
    assert(keys@.subrange(0, i as int) =~= keys@);
    out
}

/// Two lists of sections in strict layout order that hold the same sections
/// are the same list.
pub proof fn lemma_sorted_unique(lib: LibraryModel, a: Seq<(usize, usize)>, b: Seq<(usize, usize)>)
    requires
        sorted_keys(lib, a),
        sorted_keys(lib, b),
        a.to_set() == b.to_set(),
    ensures
        a == b,
    decreases a.len(),
{
    if a.len() == 0 {
        if b.len() > 0 {
            assert(b.to_set().contains(b[0]));
        }
        assert(a =~= b);
    } else {
        assert(a.to_set().contains(a[0]));
        let j = choose|j: int| 0 <= j < b.len() && b[j] == a[0];
        assert(b.to_set().contains(b[0]));
        let i = choose|i: int| 0 <= i < a.len() && a[i] == b[0];
        if j > 0 {
            assert(key_less(lib, b[0], b[j]));
            if i == 0 {
                lemma_key_less_irreflexive(lib, b[0]);
            } else {
                assert(key_less(lib, a[0], a[i]));
                lemma_key_less_asymmetric(lib, a[0], b[0]);
            }
        }
        assert(a[0] == b[0]);
        let (ta, tb) = (a.drop_first(), b.drop_first());
        assert forall|x: (usize, usize)| ta.to_set().contains(x) <==> tb.to_set().contains(x) by {
            if ta.to_set().contains(x) {
                let p = choose|p: int| 0 <= p < ta.len() && ta[p] == x;
                assert(a[p + 1] == x);
                assert(a.to_set().contains(x));
                let q = choose|q: int| 0 <= q < b.len() && b[q] == x;
                if q == 0 {
                    assert(key_less(lib, a[0], a[p + 1]));
                    lemma_key_less_irreflexive(lib, a[0]);
                }
                assert(tb[q - 1] == x);
            }
            if tb.to_set().contains(x) {
                let p = choose|p: int| 0 <= p < tb.len() && tb[p] == x;
                assert(b[p + 1] == x);
                assert(b.to_set().contains(x));
                let q = choose|q: int| 0 <= q < a.len() && a[q] == x;
                if q == 0 {
                    assert(key_less(lib, b[0], b[p + 1]));
                    lemma_key_less_irreflexive(lib, b[0]);
                }
                assert(ta[q - 1] == x);
            }
        }
        assert(ta.to_set() =~= tb.to_set());
        assert forall|x: int, y: int| 0 <= x < y < ta.len() implies key_less(lib, #[trigger] ta[x], #[trigger] ta[y]) by {
            assert(key_less(lib, a[x + 1], a[y + 1]));
        }
        assert forall|x: int, y: int| 0 <= x < y < tb.len() implies key_less(lib, #[trigger] tb[x], #[trigger] tb[y]) by {
            assert(key_less(lib, b[x + 1], b[y + 1]));
        }
        lemma_sorted_unique(lib, ta, tb);
        assert(a =~= seq![a[0]] + ta);
        assert(b =~= seq![b[0]] + tb);
    }
}

} // verus!
