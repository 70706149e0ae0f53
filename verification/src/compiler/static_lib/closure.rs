//! Which sections the link takes: starting from the entry symbols, the symbols
//! that they name, the sections that those symbols lie in, the symbols that
//! the relocations of those sections refer to, and so on, with imported
//! symbols looked up again in the archive's symbol index.
use super::archive::{
    all_named, find_member, find_member_of_symbol, lemma_member_named, member_named, member_of_symbol, opt_object, opt_text,
    ElfReloc, Library, LibraryModel, ObjectFile, ObjectModel, SymbolModel,
};
use crate::text::owned;
use crate::text::str_eq;
use vstd::prelude::*;
use vstd::set_lib::{lemma_int_range, lemma_len_subset, set_int_range};

verus! {

/// A step of the search: a symbol name to look up in the archive's index,
/// a symbol of the named member (by index), or a section of the named member
/// (by index).
pub enum Item {
    Name(Seq<char>),
    Symbol(Seq<char>, int),
    Section(Seq<char>, int),
}

/// The object of the member called `name` (the last one of that name).
pub open spec fn object_named(lib: LibraryModel, name: Seq<char>) -> Option<ObjectModel> {
    match member_named(lib.members, name) {
        Some(i) => if i < lib.objects.len() {
            lib.objects[i]
        } else {
            None
        },
        None => None,
    }
}

/// The binding of a symbol (`st_info >> 4`).
pub open spec fn binding(s: SymbolModel) -> u8 {
    s.info >> 4u8
}

/// Global or weak binding.
pub open spec fn is_global(s: SymbolModel) -> bool {
    binding(s) == 1 || binding(s) == 2
}

/// goblin's `Sym::is_import`: global or weak with value 0.
pub open spec fn is_import(s: SymbolModel) -> bool {
    is_global(s) && s.value == 0
}

/// goblin's `Sym::is_function`: of type `STT_FUNC`.
pub open spec fn is_function(s: SymbolModel) -> bool {
    s.info & 0xfu8 == 2
}

/// A symbol that stands for a definition in another member: an import whose
/// section header is of type `SHT_NULL`.
pub open spec fn is_external(o: ObjectModel, s: SymbolModel) -> bool {
    is_import(s) && o.sections[s.section as int].kind == 0
}

/// The relocations that apply to section `section`: those of the first
/// relocation section from index `from` on whose header's `sh_info` is
/// `section` (`Some(None)` where there is none); `None` where a relocation
/// section before it names a header that does not exist.
pub open spec fn reloc_table_from(o: ObjectModel, section: int, from: int) -> Option<Option<Seq<ElfReloc>>>
    decreases o.relocations.len() - from,
{
    if from < 0 || from >= o.relocations.len() {
        Some(None)
    } else if o.relocations[from].header >= o.sections.len() {
        None
    } else if o.sections[o.relocations[from].header as int].info == section {
        Some(Some(o.relocations[from].relocs))
    } else {
        reloc_table_from(o, section, from + 1)
    }
}

pub open spec fn reloc_table(o: ObjectModel, section: int) -> Option<Option<Seq<ElfReloc>>> {
    reloc_table_from(o, section, 0)
}

/// Whether `q` is one of the items that `p` leads to.
pub open spec fn step(lib: LibraryModel, p: Item, q: Item) -> bool {
    match p {
        Item::Name(n) => match member_of_symbol(lib.members, n) {
            Some(m) => match object_named(lib, m) {
                Some(o) => q matches Item::Symbol(qm, qi) && qm == m && 0 <= qi < o.symbols.len()
                    && o.symbols[qi].name == Some(n),
                None => false,
            },
            None => false,
        },
        Item::Symbol(m, i) => match object_named(lib, m) {
            Some(o) => {
                &&& 0 <= i < o.symbols.len()
                &&& o.symbols[i].section < o.sections.len()
                &&& if is_external(o, o.symbols[i]) {
                    q == Item::Name(o.symbols[i].name.unwrap())
                } else {
                    q == Item::Section(m, o.symbols[i].section as int)
                }
            },
            None => false,
        },
        Item::Section(m, s) => match object_named(lib, m) {
            Some(o) => match reloc_table(o, s) {
                Some(Some(rs)) => q matches Item::Symbol(qm, qi) && qm == m && exists|k: int|
                    0 <= k < rs.len() && qi == (#[trigger] rs[k]).symbol,
                _ => false,
            },
            None => false,
        },
    }
}

/// Whether the linker gives up at `p`: a name that no member defines or
/// whose member cannot be read (or has a symbol without a name), a symbol
/// index or section index out of range,
/// or relocation sections that name a header that does not exist.
pub open spec fn bad(lib: LibraryModel, p: Item) -> bool {
    match p {
        Item::Name(n) => match member_of_symbol(lib.members, n) {
            Some(m) => match object_named(lib, m) {
                Some(o) => !all_named(o.symbols),
                None => true,
            },
            None => true,
        },
        Item::Symbol(m, i) => match object_named(lib, m) {
            Some(o) => !(0 <= i < o.symbols.len()) || o.symbols[i].section >= o.sections.len(),
            None => true,
        },
        Item::Section(m, s) => match object_named(lib, m) {
            Some(o) => reloc_table(o, s) is None,
            None => true,
        },
    }
}

/// Whether every item in `t` leads only to items in `t`.
pub open spec fn closed(lib: LibraryModel, t: Set<Item>) -> bool {
    forall|p: Item, q: Item| #[trigger] t.contains(p) && #[trigger] step(lib, p, q) ==> t.contains(q)
}

pub open spec fn includes_roots(entries: Seq<Seq<char>>, t: Set<Item>) -> bool {
    forall|k: int| 0 <= k < entries.len() ==> t.contains(Item::Name(#[trigger] entries[k]))
}

/// Whether `x` is reached from the entry names: it lies in every closed set
/// that holds them.
pub open spec fn in_closure(lib: LibraryModel, entries: Seq<Seq<char>>, x: Item) -> bool {
    forall|t: Set<Item>| closed(lib, t) && includes_roots(entries, t) ==> #[trigger] t.contains(x)
}

/// Whether the search from `entries` reaches an item where the linker gives up.
pub open spec fn closure_fails(lib: LibraryModel, entries: Seq<Seq<char>>) -> bool {
    exists|x: Item| #[trigger] in_closure(lib, entries, x) && bad(lib, x)
}

pub proof fn lemma_closure_step(lib: LibraryModel, entries: Seq<Seq<char>>, p: Item, q: Item)
    requires
        in_closure(lib, entries, p),
        step(lib, p, q),
    ensures
        in_closure(lib, entries, q),
{
    assert forall|t: Set<Item>| closed(lib, t) && includes_roots(entries, t) implies #[trigger] t.contains(q) by {
        assert(t.contains(p));
    }
}

pub proof fn lemma_closure_root(lib: LibraryModel, entries: Seq<Seq<char>>, k: int)
    requires
        0 <= k < entries.len(),
    ensures
        in_closure(lib, entries, Item::Name(entries[k])),
{
    assert forall|t: Set<Item>| closed(lib, t) && includes_roots(entries, t) implies #[trigger] t.contains(
        Item::Name(entries[k]),
    ) by {}
}

/// A bound on the number of symbols and sections of each object.
pub open spec fn objects_bound(objects: Seq<Option<ObjectModel>>) -> nat
    decreases objects.len(),
{
    if objects.len() == 0 {
        0
    } else {
        let rest = objects_bound(objects.drop_last());
        match objects.last() {
            Some(o) => {
                let a = if rest >= o.symbols.len() {
                    rest
                } else {
                    o.symbols.len()
                };
                if a >= o.sections.len() {
                    a
                } else {
                    o.sections.len()
                }
            },
            None => rest,
        }
    }
}

pub proof fn lemma_objects_bound(objects: Seq<Option<ObjectModel>>, i: int)
    requires
        0 <= i < objects.len(),
        objects[i] is Some,
    ensures
        objects[i].unwrap().symbols.len() <= objects_bound(objects),
        objects[i].unwrap().sections.len() <= objects_bound(objects),
    decreases objects.len(),
{
    if i < objects.len() - 1 {
        lemma_objects_bound(objects.drop_last(), i);
    }
}

proof fn lemma_pair_code(a: int, b: int, c: int, d: int, k: int)
    requires
        0 <= b < k,
        0 <= d < k,
        0 <= a,
        0 <= c,
        a * k + b == c * k + d,
    ensures
        a == c,
        b == d,
{
    if a < c {
        assert(a * k + k <= c * k) by (nonlinear_arith)
            requires
                a < c,
                0 <= k,
        ;
    }
    if c < a {
        assert(c * k + k <= a * k) by (nonlinear_arith)
            requires
                c < a,
                0 <= k,
        ;
    }
}

/// Distinct pairs below `(m, k)` number at most `m * k`.
pub proof fn lemma_keys_bounded(keys: Seq<(usize, usize)>, m: nat, k: nat)
    requires
        keys.no_duplicates(),
        forall|i: int| 0 <= i < keys.len() ==> (#[trigger] keys[i]).0 < m && keys[i].1 < k,
    ensures
        keys.len() <= m * k,
{
    let codes = keys.map_values(|key: (usize, usize)| key.0 * k + key.1);
    assert forall|i: int, j: int| 0 <= i < j < codes.len() implies codes[i] != codes[j] by {
        if codes[i] == codes[j] {
            lemma_pair_code(keys[i].0 as int, keys[i].1 as int, keys[j].0 as int, keys[j].1 as int, k as int);
            assert(keys[i] == keys[j]);
        }
    }
    assert(codes.no_duplicates());
    assert forall|x: int| codes.to_set().contains(x) implies set_int_range(0, (m * k) as int).contains(x) by {
        let i = choose|i: int| 0 <= i < codes.len() && codes[i] == x;
        let a = keys[i].0 as int;
        let b = keys[i].1 as int;
        assert(a * k + b < m * k) by (nonlinear_arith)
            requires
                0 <= a < m,
                0 <= b < k,
        ;
        assert(0 <= a * k) by (nonlinear_arith)
            requires
                0 <= a,
                0 <= k,
        ;
    }
    lemma_int_range(0, (m * k) as int);
    lemma_len_subset(codes.to_set(), set_int_range(0, (m * k) as int));
    codes.unique_seq_to_set();
}

/// The texts of the entry symbols.
pub open spec fn entry_texts(entries: Seq<&str>) -> Seq<Seq<char>> {
    entries.map_values(|e: &str| e@)
}

/// A member index that names its member (the last of that name) and whose
/// object could be read.
pub open spec fn member_ok(lib: LibraryModel, mi: usize) -> bool {
    &&& mi < lib.members.len()
    &&& member_named(lib.members, lib.members[mi as int].name) == Some(mi as int)
    &&& mi < lib.objects.len()
    &&& lib.objects[mi as int] is Some
    &&& all_named(lib.objects[mi as int].unwrap().symbols)
}

pub open spec fn object_at(lib: LibraryModel, mi: usize) -> ObjectModel {
    lib.objects[mi as int].unwrap()
}

/// A (member, section) pair standing for a section of an object.
pub open spec fn section_key_ok(lib: LibraryModel, key: (usize, usize)) -> bool {
    member_ok(lib, key.0) && key.1 < object_at(lib, key.0).sections.len()
}

pub open spec fn section_item(lib: LibraryModel, key: (usize, usize)) -> Item {
    Item::Section(lib.members[key.0 as int].name, key.1 as int)
}

pub open spec fn symbol_item(lib: LibraryModel, key: (usize, usize)) -> Item {
    Item::Symbol(lib.members[key.0 as int].name, key.1 as int)
}

/// Work left for the search: a name to look up, or a symbol of a member.
enum Work {
    Name(String),
    Symbol(usize, usize),
}

spec fn work_item(lib: LibraryModel, w: Work) -> Item {
    match w {
        Work::Name(n) => Item::Name(n@),
        Work::Symbol(mi, i) => symbol_item(lib, (mi, i)),
    }
}

spec fn in_work(lib: LibraryModel, work: Seq<Work>, q: Item) -> bool {
    exists|k: int| 0 <= k < work.len() && #[trigger] work_item(lib, work[k]) == q
}

spec fn work_ok(lib: LibraryModel, w: Work) -> bool {
    match w {
        Work::Name(_) => true,
        Work::Symbol(mi, _) => member_ok(lib, mi),
    }
}

spec fn name_count(work: Seq<Work>) -> nat
    decreases work.len(),
{
    if work.len() == 0 {
        0
    } else {
        name_count(work.drop_last()) + if work.last() is Name {
            1nat
        } else {
            0nat
        }
    }
}

/// The index of the relocation section that applies to section `section`
/// (see `reloc_table`).
pub(crate) fn find_reloc_table(obj: &ObjectFile, section: usize) -> (r: Option<Option<usize>>)
    ensures
        match reloc_table(obj.model(), section as int) {
            None => r is None,
            Some(None) => r == Some(None::<usize>),
            Some(Some(rs)) => r matches Some(Some(t)) && t < obj.relocations@.len()
                && obj.relocations@[t as int].relocs@ == rs,
        },
{
    let ghost o = obj.model();
    let mut t: usize = 0;
    while t < obj.relocations.len()
        invariant
            o == obj.model(),
            t <= obj.relocations@.len(),
            reloc_table(o, section as int) == reloc_table_from(o, section as int, t as int),
        decreases obj.relocations@.len() - t,
    {
        let header = obj.relocations[t].header;
        assert(o.relocations[t as int].header == header);
        if header >= obj.sections.len() {
            return None;
        }
        assert(o.sections[header as int].info == obj.sections@[header as int].info);
        if obj.sections[header].info as usize == section {
            return Some(Some(t));
        }
        t = t + 1;
    }
    Some(None)
}

/// Whether `keys` holds `key`.
fn contains_key(keys: &Vec<(usize, usize)>, key: (usize, usize)) -> (r: bool)
    ensures
        r == keys@.contains(key),
{
    let mut i: usize = 0;
    while i < keys.len()
        invariant
            i <= keys@.len(),
            forall|k: int| 0 <= k < i ==> keys@[k] != key,
        decreases keys@.len() - i,
    {
        if keys[i].0 == key.0 && keys[i].1 == key.1 {
            assert(keys@[i as int] == key);
            return true;
        }
        i = i + 1;
    }
    false
}

/// Whether the symbol name `name` is `n`.
fn name_is(name: &Option<String>, n: &str) -> (r: bool)
    ensures
        r == (opt_text(*name) == Some(n@)),
{
    match name {
        Some(s) => str_eq(s.as_str(), n),
        None => false,
    }
}

spec fn named_symbol_work(o: ObjectModel, mi: usize, name: Seq<char>, w: Work) -> bool {
    w matches Work::Symbol(wm, j) && wm == mi && j < o.symbols.len() && o.symbols[j as int].name == Some(name)
}

/// Adds to `work` each symbol of `obj` (of member `mi`) named `name`.
fn push_named_symbols(work: &mut Vec<Work>, obj: &ObjectFile, mi: usize, name: &str)
    ensures
        final(work)@.len() >= old(work)@.len(),
        final(work)@.subrange(0, old(work)@.len() as int) == old(work)@,
        forall|k: int|
            old(work)@.len() <= k < final(work)@.len() ==> named_symbol_work(
                obj.model(),
                mi,
                name@,
                #[trigger] final(work)@[k],
            ),
        forall|j: int|
            0 <= j < obj.symbols@.len() && obj.model().symbols[j].name == Some(name@) ==> exists|k: int|
                old(work)@.len() <= k < final(work)@.len() && #[trigger] final(work)@[k] == Work::Symbol(
                    mi,
                    j as usize,
                ),
{
    let ghost start = work@;
    let mut i: usize = 0;
    while i < obj.symbols.len()
        invariant
            i <= obj.symbols@.len(),
            work@.len() >= start.len(),
            work@.subrange(0, start.len() as int) == start,
            forall|k: int|
                start.len() <= k < work@.len() ==> named_symbol_work(obj.model(), mi, name@, #[trigger] work@[k]),
            forall|j: int|
                0 <= j < i && obj.model().symbols[j].name == Some(name@) ==> exists|k: int|
                    start.len() <= k < work@.len() && #[trigger] work@[k] == Work::Symbol(mi, j as usize),
        decreases obj.symbols@.len() - i,
    {
        assert(obj.model().symbols[i as int] == obj.symbols@[i as int].model());
        let ghost before = work@;
        if name_is(&obj.symbols[i].name, name) {
            work.push(Work::Symbol(mi, i));
            assert(work@[work@.len() - 1] == Work::Symbol(mi, i));
        }
        assert(work@.subrange(0, start.len() as int) =~= start);
        assert forall|j: int|
            0 <= j < i + 1 && obj.model().symbols[j].name == Some(name@) implies exists|k: int|
                start.len() <= k < work@.len() && #[trigger] work@[k] == Work::Symbol(mi, j as usize) by {
            if j < i {
                let k = choose|k: int|
                    start.len() <= k < before.len() && #[trigger] before[k] == Work::Symbol(mi, j as usize);
                assert(work@[k] == before[k]);
            } else {
                assert(work@[work@.len() - 1] == Work::Symbol(mi, j as usize));
            }
        }
        i = i + 1;
    }
}

/// Adds to `work` the symbol of each relocation of `relocs` (of member `mi`).
fn push_reloc_symbols(work: &mut Vec<Work>, relocs: &Vec<ElfReloc>, mi: usize)
    ensures
        final(work)@ == old(work)@ + Seq::new(relocs@.len(), |k: int| Work::Symbol(mi, relocs@[k].symbol)),
{
    let ghost start = work@;
    let mut i: usize = 0;
    while i < relocs.len()
        invariant
            i <= relocs@.len(),
            work@ == start + Seq::new(i as nat, |k: int| Work::Symbol(mi, relocs@[k].symbol)),
        decreases relocs@.len() - i,
    {
        work.push(Work::Symbol(mi, relocs[i].symbol));
        i = i + 1;
        assert(work@ =~= start + Seq::new(i as nat, |k: int| Work::Symbol(mi, relocs@[k].symbol)));
    }
}

/// What the search keeps true: everything seen or still to do is reached
/// from the entries, nothing seen is where the linker gives up, what the seen
/// items lead to is seen or still to do, the entries are seen or still to do,
/// and the sections and imported symbols seen are listed once each.
spec fn search_inv(
    lib: LibraryModel,
    entries: Seq<Seq<char>>,
    seen: Set<Item>,
    work: Seq<Work>,
    visited: Seq<(usize, usize)>,
    imports: Seq<(usize, usize)>,
) -> bool {
    &&& forall|k: int|
        0 <= k < work.len() ==> work_ok(lib, #[trigger] work[k]) && in_closure(lib, entries, work_item(lib, work[k]))
    &&& forall|x: Item| #[trigger] seen.contains(x) ==> in_closure(lib, entries, x) && !bad(lib, x)
    &&& forall|p: Item, q: Item|
        #[trigger] seen.contains(p) && #[trigger] step(lib, p, q) ==> seen.contains(q) || in_work(lib, work, q)
    &&& forall|k: int|
        0 <= k < entries.len() ==> seen.contains(Item::Name(#[trigger] entries[k])) || in_work(
            lib,
            work,
            Item::Name(entries[k]),
        )
    &&& visited.no_duplicates()
    &&& forall|k: int|
        0 <= k < visited.len() ==> section_key_ok(lib, #[trigger] visited[k]) && seen.contains(
            section_item(lib, visited[k]),
        )
    &&& forall|m: Seq<char>, sec: int|
        #[trigger] seen.contains(Item::Section(m, sec)) ==> exists|k: int|
            0 <= k < visited.len() && #[trigger] section_item(lib, visited[k]) == Item::Section(m, sec)
    &&& imports.no_duplicates()
    &&& forall|k: int|
        0 <= k < imports.len() ==> member_ok(lib, (#[trigger] imports[k]).0) && imports[k].1 < object_at(
            lib,
            imports[k].0,
        ).symbols.len() && seen.contains(symbol_item(lib, imports[k]))
}

proof fn lemma_in_work_prefix(lib: LibraryModel, a: Seq<Work>, b: Seq<Work>, q: Item)
    requires
        a.len() <= b.len(),
        b.subrange(0, a.len() as int) == a,
        in_work(lib, a, q),
    ensures
        in_work(lib, b, q),
{
    let k = choose|k: int| 0 <= k < a.len() && #[trigger] work_item(lib, a[k]) == q;
    assert(b[k] == b.subrange(0, a.len() as int)[k]);
}

proof fn lemma_in_work_pop(lib: LibraryModel, a: Seq<Work>, w: Work, q: Item)
    requires
        in_work(lib, a.push(w), q),
    ensures
        in_work(lib, a, q) || q == work_item(lib, w),
{
    let k = choose|k: int| 0 <= k < a.len() + 1 && #[trigger] work_item(lib, a.push(w)[k]) == q;
    if k < a.len() {
        assert(a.push(w)[k] == a[k]);
    }
}

proof fn lemma_name_count_push(work: Seq<Work>, w: Work)
    ensures
        name_count(work.push(w)) == name_count(work) + if w is Name {
            1nat
        } else {
            0nat
        },
{
    assert(work.push(w).drop_last() =~= work);
}

proof fn lemma_name_count_symbols(a: Seq<Work>, b: Seq<Work>)
    requires
        a.len() <= b.len(),
        b.subrange(0, a.len() as int) == a,
        forall|k: int| a.len() <= k < b.len() ==> (#[trigger] b[k]) is Symbol,
    ensures
        name_count(b) == name_count(a),
    decreases b.len(),
{
    if b.len() > a.len() {
        assert(b.drop_last().subrange(0, a.len() as int) =~= a);
        lemma_name_count_symbols(a, b.drop_last());
    } else {
        assert(b =~= a);
    }
}

/// Whether every symbol of `obj` has a name.
fn all_symbols_named(obj: &ObjectFile) -> (r: bool)
    ensures
        r == all_named(obj.model().symbols),
{
    let mut i: usize = 0;
    while i < obj.symbols.len()
        invariant
            i <= obj.symbols@.len(),
            forall|k: int| 0 <= k < i ==> (#[trigger] obj.model().symbols[k]).name is Some,
        decreases obj.symbols@.len() - i,
    {
        assert(obj.model().symbols[i as int] == obj.symbols@[i as int].model());
        if obj.symbols[i].name.is_none() {
            return false;
        }
        i = i + 1;
    }
    true
}

/// Looks the name `n` up in the archive's index and adds the symbols of that
/// name in the member found to `work`.
fn process_name(
    lib: &Library,
    Ghost(entries): Ghost<Seq<Seq<char>>>,
    n: String,
    work: &mut Vec<Work>,
    Ghost(visited): Ghost<Seq<(usize, usize)>>,
    Ghost(imports): Ghost<Seq<(usize, usize)>>,
    Ghost(seen): Ghost<Set<Item>>,
) -> (r: Option<Ghost<Set<Item>>>)
    requires
        search_inv(lib.model(), entries, seen, old(work)@.push(Work::Name(n)), visited, imports),
    ensures
        r is None ==> closure_fails(lib.model(), entries),
        r matches Some(s) ==> search_inv(lib.model(), entries, s@, final(work)@, visited, imports)
            && name_count(final(work)@) == name_count(old(work)@),
{
    let ghost lm = lib.model();
    let ghost x = Item::Name(n@);
    let ghost w0 = work@;
    let ghost before = w0.push(Work::Name(n));
    assert(before[w0.len() as int] == Work::Name(n));
    assert(work_item(lm, before[w0.len() as int]) == x);
    assert(in_closure(lm, entries, x));
    let k = match find_member_of_symbol(&lib.members, n.as_str()) {
        Some(k) => k,
        None => {
            assert(bad(lm, x));
            return None;
        },
    };
    assert(lm.members[k as int] == lib.members@[k as int].model());
    let ghost m = lm.members[k as int].name;
    assert(member_of_symbol(lm.members, n@) == Some(m));
    let mi = match find_member(&lib.members, lib.members[k].name.as_str()) {
        Some(mi) => mi,
        None => {
            proof {
                lemma_member_named(lm.members, m);
            }
            assert(false);
            return None;
        },
    };
    assert(lib.members[k as int].name@ == m);
    assert(member_named(lm.members, m) == Some(mi as int));
    proof {
        lemma_member_named(lm.members, m);
    }
    assert(lm.members[mi as int].name == m);
    if mi >= lib.objects.len() {
        assert(bad(lm, x));
        return None;
    }
    assert(lm.objects[mi as int] == opt_object(lib.objects@[mi as int]));
    let obj = match &lib.objects[mi] {
        Some(o) => o,
        None => {
            assert(bad(lm, x));
            return None;
        },
    };
    let ghost o = obj.model();
    assert(object_named(lm, m) == Some(o));
    if !all_symbols_named(obj) {
        assert(bad(lm, x));
        return None;
    }
    assert(member_ok(lm, mi));
    let symbol_count = obj.symbols.len();
    push_named_symbols(work, obj, mi, n.as_str());
    let ghost w1 = work@;
    let ghost new_seen = seen.insert(x);
    proof {
        assert(!bad(lm, x));
        assert forall|k: int| 0 <= k < w1.len() implies work_ok(lm, #[trigger] w1[k]) && in_closure(
            lm,
            entries,
            work_item(lm, w1[k]),
        ) by {
            if k < w0.len() {
                assert(w1[k] == w1.subrange(0, w0.len() as int)[k]);
                assert(before[k] == w0[k]);
            } else {
                assert(named_symbol_work(o, mi, n@, w1[k]));
                let j = w1[k]->Symbol_1;
                assert(step(lm, x, Item::Symbol(m, j as int)));
                lemma_closure_step(lm, entries, x, Item::Symbol(m, j as int));
            }
        }
        assert forall|q: Item| in_work(lm, before, q) implies new_seen.contains(q) || in_work(lm, w1, q) by {
            lemma_in_work_pop(lm, w0, Work::Name(n), q);
            if in_work(lm, w0, q) {
                lemma_in_work_prefix(lm, w0, w1, q);
            }
        }
        assert forall|p: Item, q: Item|
            #[trigger] new_seen.contains(p) && #[trigger] step(lm, p, q) implies new_seen.contains(q) || in_work(
            lm,
            w1,
            q,
        ) by {
            if seen.contains(p) {
                assert(seen.contains(q) || in_work(lm, before, q));
            } else {
                assert(p == x);
                let j = q->Symbol_1;
                assert(0 <= j < o.symbols.len() && o.symbols[j].name == Some(n@));
                assert(o.symbols.len() == obj.symbols@.len());
                let kk = choose|kk: int|
                    w0.len() <= kk < w1.len() && #[trigger] w1[kk] == Work::Symbol(mi, j as usize);
                assert(q == Item::Symbol(m, j));
                assert((j as usize) as int == j);
                assert(symbol_item(lm, (mi, j as usize)) == Item::Symbol(m, j));
                assert(work_item(lm, w1[kk]) == q);
            }
        }
        assert forall|k: int| 0 <= k < entries.len() implies new_seen.contains(Item::Name(#[trigger] entries[k]))
            || in_work(lm, w1, Item::Name(entries[k])) by {
            assert(seen.contains(Item::Name(entries[k])) || in_work(lm, before, Item::Name(entries[k])));
        }
        assert forall|mm: Seq<char>, sec: int| #[trigger] new_seen.contains(Item::Section(mm, sec)) implies exists|
            k: int,
        | 0 <= k < visited.len() && #[trigger] section_item(lm, visited[k]) == Item::Section(mm, sec) by {
            assert(seen.contains(Item::Section(mm, sec)));
        }
        assert forall|k: int| 0 <= k < w1.len() - w0.len() implies (#[trigger] w1[w0.len() + k]) is Symbol by {
            assert(named_symbol_work(o, mi, n@, w1[w0.len() + k]));
        }
        assert forall|k: int| w0.len() <= k < w1.len() implies (#[trigger] w1[k]) is Symbol by {
            assert(named_symbol_work(o, mi, n@, w1[k]));
        }
        lemma_name_count_symbols(w0, w1);
    }
    Some(Ghost(new_seen))
}

/// The bound on the lists of sections and of imported symbols seen.
spec fn key_bound(lib: LibraryModel) -> nat {
    lib.members.len() * objects_bound(lib.objects)
}

/// Takes the symbol `i` of member `mi`: an import leads to its name, looked
/// up again in the archive's index; any other symbol leads to its section,
/// which, when seen for the first time, leads to the symbols that its
/// relocations refer to.
fn process_symbol(
    lib: &Library,
    Ghost(entries): Ghost<Seq<Seq<char>>>,
    mi: usize,
    i: usize,
    work: &mut Vec<Work>,
    visited: &mut Vec<(usize, usize)>,
    imports: &mut Vec<(usize, usize)>,
    Ghost(seen): Ghost<Set<Item>>,
) -> (r: Option<Ghost<Set<Item>>>)
    requires
        search_inv(
            lib.model(),
            entries,
            seen,
            old(work)@.push(Work::Symbol(mi, i)),
            old(visited)@,
            old(imports)@,
        ),
        old(visited)@.len() <= key_bound(lib.model()),
        old(imports)@.len() <= key_bound(lib.model()),
    ensures
        r is None ==> closure_fails(lib.model(), entries),
        r matches Some(s) ==> {
            &&& search_inv(lib.model(), entries, s@, final(work)@, final(visited)@, final(imports)@)
            &&& final(visited)@.len() <= key_bound(lib.model())
            &&& final(imports)@.len() <= key_bound(lib.model())
            &&& (final(visited)@.len() + final(imports)@.len() == old(visited)@.len() + old(imports)@.len() + 1
                || (final(visited)@.len() == old(visited)@.len() && final(imports)@.len()
                == old(imports)@.len() && final(work)@ == old(work)@))
        },
{
    let ghost lm = lib.model();
    let ghost w0 = work@;
    let ghost v0 = visited@;
    let ghost i0 = imports@;
    let ghost before = w0.push(Work::Symbol(mi, i));
    assert(before[w0.len() as int] == Work::Symbol(mi, i));
    assert(work_ok(lm, before[w0.len() as int]));
    let ghost m = lm.members[mi as int].name;
    let ghost x = Item::Symbol(m, i as int);
    assert(work_item(lm, before[w0.len() as int]) == x);
    assert(in_closure(lm, entries, x));
    assert(lm.objects[mi as int] == opt_object(lib.objects@[mi as int]));
    let obj = match &lib.objects[mi] {
        Some(o) => o,
        None => {
            assert(false);
            return None;
        },
    };
    let ghost o = obj.model();
    assert(object_named(lm, m) == Some(o));
    proof {
        lemma_objects_bound(lm.objects, mi as int);
    }
    if i >= obj.symbols.len() {
        assert(bad(lm, x));
        return None;
    }
    let sym = &obj.symbols[i];
    assert(o.symbols[i as int] == sym.model());
    let sec = sym.section;
    if sec >= obj.sections.len() {
        assert(bad(lm, x));
        return None;
    }
    assert(!bad(lm, x));
    assert(o.sections[sec as int] == obj.sections@[sec as int].model());
    let bind = sym.info >> 4u8;
    let import = (bind == 1 || bind == 2) && sym.value == 0;
    if import && obj.sections[sec].kind == 0 {
        assert(is_external(o, o.symbols[i as int]));
        let target = match &sym.name {
            Some(t) => t.clone(),
            None => {
                assert(o.symbols[i as int].name is None);
                assert(false);
                return None;
            },
        };
        let ghost q = Item::Name(target@);
        assert(step(lm, x, q));
        proof {
            lemma_closure_step(lm, entries, x, q);
        }
        if contains_key(imports, (mi, i)) {
            proof {
                let k = choose|k: int| 0 <= k < i0.len() && i0[k] == (mi, i);
                assert(seen.contains(symbol_item(lm, i0[k])));
                assert forall|p: Item, qq: Item|
                    #[trigger] seen.contains(p) && #[trigger] step(lm, p, qq) implies seen.contains(qq) || in_work(
                    lm,
                    w0,
                    qq,
                ) by {
                    assert(seen.contains(qq) || in_work(lm, before, qq));
                    if in_work(lm, before, qq) {
                        lemma_in_work_pop(lm, w0, Work::Symbol(mi, i), qq);
                    }
                }
                assert forall|k: int| 0 <= k < entries.len() implies seen.contains(
                    Item::Name(#[trigger] entries[k]),
                ) || in_work(lm, w0, Item::Name(entries[k])) by {
                    assert(seen.contains(Item::Name(entries[k])) || in_work(lm, before, Item::Name(entries[k])));
                    if in_work(lm, before, Item::Name(entries[k])) {
                        lemma_in_work_pop(lm, w0, Work::Symbol(mi, i), Item::Name(entries[k]));
                    }
                }
                assert forall|k: int| 0 <= k < w0.len() implies work_ok(lm, #[trigger] w0[k]) && in_closure(
                    lm,
                    entries,
                    work_item(lm, w0[k]),
                ) by {
                    assert(before[k] == w0[k]);
                }
            }
            return Some(Ghost(seen));
        }
        proof {
            let nk = i0.push((mi, i));
            assert forall|a: int, b: int| 0 <= a < b < nk.len() implies nk[a] != nk[b] by {
                if b == nk.len() - 1 {
                    assert(nk[a] == i0[a]);
                }
            }
            assert forall|k: int| 0 <= k < nk.len() implies (#[trigger] nk[k]).0 < lm.members.len() && nk[k].1
                < objects_bound(lm.objects) by {
                if k < i0.len() {
                    assert(nk[k] == i0[k]);
                    assert(member_ok(lm, i0[k].0));
                    lemma_objects_bound(lm.objects, i0[k].0 as int);
                }
            }
            lemma_keys_bounded(nk, lm.members.len(), objects_bound(lm.objects));
        }
        imports.push((mi, i));
        work.push(Work::Name(target));
        let ghost w1 = work@;
        let ghost new_seen = seen.insert(x);
        proof {
            assert(w1[w0.len() as int] == Work::Name(target));
            assert(work_item(lm, w1[w0.len() as int]) == q);
            assert(in_work(lm, w1, q));
            assert forall|qq: Item| in_work(lm, before, qq) implies new_seen.contains(qq) || in_work(lm, w1, qq) by {
                lemma_in_work_pop(lm, w0, Work::Symbol(mi, i), qq);
                if in_work(lm, w0, qq) {
                    assert(w1.subrange(0, w0.len() as int) =~= w0);
                    lemma_in_work_prefix(lm, w0, w1, qq);
                }
            }
            assert forall|p: Item, qq: Item|
                #[trigger] new_seen.contains(p) && #[trigger] step(lm, p, qq) implies new_seen.contains(qq)
                || in_work(lm, w1, qq) by {
                if seen.contains(p) {
                    assert(seen.contains(qq) || in_work(lm, before, qq));
                } else {
                    assert(qq == q);
                }
            }
            assert forall|k: int| 0 <= k < entries.len() implies new_seen.contains(
                Item::Name(#[trigger] entries[k]),
            ) || in_work(lm, w1, Item::Name(entries[k])) by {
                assert(seen.contains(Item::Name(entries[k])) || in_work(lm, before, Item::Name(entries[k])));
            }
            assert forall|k: int| 0 <= k < w1.len() implies work_ok(lm, #[trigger] w1[k]) && in_closure(
                lm,
                entries,
                work_item(lm, w1[k]),
            ) by {
                if k < w0.len() {
                    assert(before[k] == w0[k]);
                }
            }
            assert forall|mm: Seq<char>, ss: int| #[trigger] new_seen.contains(Item::Section(mm, ss)) implies exists|
                k: int,
            | 0 <= k < v0.len() && #[trigger] section_item(lm, v0[k]) == Item::Section(mm, ss) by {
                assert(seen.contains(Item::Section(mm, ss)));
            }
            assert forall|k: int| 0 <= k < imports@.len() implies member_ok(lm, (#[trigger] imports@[k]).0)
                && imports@[k].1 < object_at(lm, imports@[k].0).symbols.len() && new_seen.contains(
                symbol_item(lm, imports@[k]),
            ) by {
                if k < i0.len() {
                    assert(imports@[k] == i0[k]);
                }
            }
            assert forall|a: int, b: int| 0 <= a < b < imports@.len() implies imports@[a] != imports@[b] by {
                if b == imports@.len() - 1 {
                    assert(imports@[a] == i0[a]);
                }
            }
        }
        return Some(Ghost(new_seen));
    }
    assert(!is_external(o, o.symbols[i as int]));
    let ghost q = Item::Section(m, sec as int);
    assert(step(lm, x, q));
    proof {
        lemma_closure_step(lm, entries, x, q);
    }
    assert(section_item(lm, (mi, sec)) == q);
    if contains_key(visited, (mi, sec)) {
        let ghost new_seen = seen.insert(x);
        proof {
            let k = choose|k: int| 0 <= k < v0.len() && v0[k] == (mi, sec);
            assert(seen.contains(section_item(lm, v0[k])));
            assert forall|p: Item, qq: Item|
                #[trigger] new_seen.contains(p) && #[trigger] step(lm, p, qq) implies new_seen.contains(qq)
                || in_work(lm, w0, qq) by {
                if seen.contains(p) {
                    assert(seen.contains(qq) || in_work(lm, before, qq));
                    if in_work(lm, before, qq) {
                        lemma_in_work_pop(lm, w0, Work::Symbol(mi, i), qq);
                    }
                } else {
                    assert(qq == q);
                }
            }
            assert forall|k: int| 0 <= k < entries.len() implies new_seen.contains(
                Item::Name(#[trigger] entries[k]),
            ) || in_work(lm, w0, Item::Name(entries[k])) by {
                assert(seen.contains(Item::Name(entries[k])) || in_work(lm, before, Item::Name(entries[k])));
                if in_work(lm, before, Item::Name(entries[k])) {
                    lemma_in_work_pop(lm, w0, Work::Symbol(mi, i), Item::Name(entries[k]));
                }
            }
            assert forall|k: int| 0 <= k < w0.len() implies work_ok(lm, #[trigger] w0[k]) && in_closure(
                lm,
                entries,
                work_item(lm, w0[k]),
            ) by {
                assert(before[k] == w0[k]);
            }
            assert forall|mm: Seq<char>, ss: int| #[trigger] new_seen.contains(Item::Section(mm, ss)) implies exists|
                k: int,
            | 0 <= k < v0.len() && #[trigger] section_item(lm, v0[k]) == Item::Section(mm, ss) by {
                assert(seen.contains(Item::Section(mm, ss)));
            }
        }
        return Some(Ghost(new_seen));
    }
    let table = find_reloc_table(obj, sec);
    if table.is_none() {
        assert(bad(lm, q));
        return None;
    }
    assert(!bad(lm, q));
    proof {
        let nk = v0.push((mi, sec));
        assert forall|a: int, b: int| 0 <= a < b < nk.len() implies nk[a] != nk[b] by {
            if b == nk.len() - 1 {
                assert(nk[a] == v0[a]);
            }
        }
        assert forall|k: int| 0 <= k < nk.len() implies (#[trigger] nk[k]).0 < lm.members.len() && nk[k].1
            < objects_bound(lm.objects) by {
            if k < v0.len() {
                assert(nk[k] == v0[k]);
                assert(section_key_ok(lm, v0[k]));
                lemma_objects_bound(lm.objects, v0[k].0 as int);
            }
        }
        lemma_keys_bounded(nk, lm.members.len(), objects_bound(lm.objects));
    }
    visited.push((mi, sec));
    match table {
        Some(Some(t)) => {
            push_reloc_symbols(work, &obj.relocations[t].relocs, mi);
        },
        _ => {},
    }
    let ghost w1 = work@;
    let ghost new_seen = seen.insert(x).insert(q);
    proof {
        assert(w1.subrange(0, w0.len() as int) =~= w0);
        assert forall|qq: Item| in_work(lm, before, qq) implies new_seen.contains(qq) || in_work(lm, w1, qq) by {
            lemma_in_work_pop(lm, w0, Work::Symbol(mi, i), qq);
            if in_work(lm, w0, qq) {
                lemma_in_work_prefix(lm, w0, w1, qq);
            }
        }
        assert forall|p: Item, qq: Item|
            #[trigger] new_seen.contains(p) && #[trigger] step(lm, p, qq) implies new_seen.contains(qq) || in_work(
            lm,
            w1,
            qq,
        ) by {
            if seen.contains(p) {
                assert(seen.contains(qq) || in_work(lm, before, qq));
            } else if p == x {
                assert(qq == q);
            } else {
                assert(p == q);
                let rs = reloc_table(o, sec as int)->Some_0->Some_0;
                let t = table->Some_0->Some_0;
                let kk = choose|kk: int| 0 <= kk < rs.len() && qq->Symbol_1 == (#[trigger] rs[kk]).symbol;
                assert(w1[w0.len() + kk] == Work::Symbol(mi, obj.relocations@[t as int].relocs@[kk].symbol));
                assert(work_item(lm, w1[w0.len() + kk]) == qq);
            }
        }
        assert forall|k: int| 0 <= k < entries.len() implies new_seen.contains(Item::Name(#[trigger] entries[k]))
            || in_work(lm, w1, Item::Name(entries[k])) by {
            assert(seen.contains(Item::Name(entries[k])) || in_work(lm, before, Item::Name(entries[k])));
        }
        assert forall|k: int| 0 <= k < w1.len() implies work_ok(lm, #[trigger] w1[k]) && in_closure(
            lm,
            entries,
            work_item(lm, w1[k]),
        ) by {
            if k < w0.len() {
                assert(before[k] == w0[k]);
                assert(w1[k] == w0[k]);
            } else {
                let rs = reloc_table(o, sec as int)->Some_0->Some_0;
                let t = table->Some_0->Some_0;
                let kk = k - w0.len();
                assert(w1[k] == Work::Symbol(mi, obj.relocations@[t as int].relocs@[kk].symbol));
                assert(step(lm, q, work_item(lm, w1[k])));
                lemma_closure_step(lm, entries, q, work_item(lm, w1[k]));
            }
        }
        assert forall|mm: Seq<char>, ss: int| #[trigger] new_seen.contains(Item::Section(mm, ss)) implies exists|
            k: int,
        | 0 <= k < visited@.len() && #[trigger] section_item(lm, visited@[k]) == Item::Section(mm, ss) by {
            if seen.contains(Item::Section(mm, ss)) {
                let k = choose|k: int| 0 <= k < v0.len() && #[trigger] section_item(lm, v0[k]) == Item::Section(mm, ss);
                assert(visited@[k] == v0[k]);
            } else {
                assert(section_item(lm, visited@[v0.len() as int]) == q);
            }
        }
        assert forall|k: int| 0 <= k < visited@.len() implies section_key_ok(lm, #[trigger] visited@[k])
            && new_seen.contains(section_item(lm, visited@[k])) by {
            if k < v0.len() {
                assert(visited@[k] == v0[k]);
            }
        }
        assert forall|a: int, b: int| 0 <= a < b < visited@.len() implies visited@[a] != visited@[b] by {
            if b == visited@.len() - 1 {
                assert(visited@[a] == v0[a]);
            }
        }
    }
    Some(Ghost(new_seen))
}

/// The sections that the link takes, as (member, section) index pairs, each
/// once: exactly those reached from the entry names. `None` exactly where the
/// search reaches an item where the linker gives up.
pub fn collect_sections(lib: &Library, entries: &Vec<&str>) -> (r: Option<Vec<(usize, usize)>>)
    ensures
        match r {
            None => closure_fails(lib.model(), entry_texts(entries@)),
            Some(v) => {
                &&& !closure_fails(lib.model(), entry_texts(entries@))
                &&& v@.no_duplicates()
                &&& forall|k: int|
                    0 <= k < v@.len() ==> section_key_ok(lib.model(), #[trigger] v@[k]) && in_closure(
                        lib.model(),
                        entry_texts(entries@),
                        section_item(lib.model(), v@[k]),
                    )
                &&& forall|m: Seq<char>, s: int|
                    #[trigger] in_closure(lib.model(), entry_texts(entries@), Item::Section(m, s)) ==> exists|k: int|
                        0 <= k < v@.len() && section_item(lib.model(), v@[k]) == Item::Section(m, s)
            },
        },
{
    let ghost lm = lib.model();
    let ghost es = entry_texts(entries@);
    let mut work: Vec<Work> = Vec::new();
    let mut k: usize = 0;
    while k < entries.len()
        invariant
            lm == lib.model(),
            es == entry_texts(entries@),
            k <= entries@.len(),
            work@.len() == k,
            forall|j: int| 0 <= j < k ==> (#[trigger] work@[j]) is Name && work_item(lm, work@[j]) == Item::Name(es[j]),
        decreases entries@.len() - k,
    {
        work.push(Work::Name(owned(entries[k])));
        k = k + 1;
    }
    let mut visited: Vec<(usize, usize)> = Vec::new();
    let mut imports: Vec<(usize, usize)> = Vec::new();
    let ghost mut seen: Set<Item> = Set::empty();
    proof {
        assert forall|j: int| 0 <= j < work@.len() implies work_ok(lm, #[trigger] work@[j]) && in_closure(
            lm,
            es,
            work_item(lm, work@[j]),
        ) by {
            lemma_closure_root(lm, es, j);
        }
        assert forall|j: int| 0 <= j < es.len() implies seen.contains(Item::Name(#[trigger] es[j])) || in_work(
            lm,
            work@,
            Item::Name(es[j]),
        ) by {
            assert(work_item(lm, work@[j]) == Item::Name(es[j]));
        }
    }
    while work.len() > 0
        invariant
            lm == lib.model(),
            es == entry_texts(entries@),
            search_inv(lm, es, seen, work@, visited@, imports@),
            visited@.len() <= key_bound(lm),
            imports@.len() <= key_bound(lm),
        decreases 2 * key_bound(lm) - visited@.len() - imports@.len(), name_count(work@), work@.len(),
    {
        let ghost before = work@;
        let w = work.pop().unwrap();
        assert(work@.push(w) =~= before);
        proof {
            lemma_name_count_push(work@, w);
        }
        match w {
            Work::Name(n) => {
                match process_name(lib, Ghost(es), n, &mut work, Ghost(visited@), Ghost(imports@), Ghost(seen)) {
                    Some(s) => {
                        proof {
                            seen = s@;
                        }
                    },
                    None => {
                        return None;
                    },
                }
            },
            Work::Symbol(mi, i) => {
                match process_symbol(lib, Ghost(es), mi, i, &mut work, &mut visited, &mut imports, Ghost(seen)) {
                    Some(s) => {
                        proof {
                            seen = s@;
                        }
                    },
                    None => {
                        return None;
                    },
                }
            },
        }
    }
    proof {
        assert forall|p: Item, q: Item| #[trigger] seen.contains(p) && #[trigger] step(lm, p, q) implies seen.contains(
            q,
        ) by {
            if !seen.contains(q) {
                assert(in_work(lm, work@, q));
            }
        }
        assert(closed(lm, seen));
        assert forall|j: int| 0 <= j < es.len() implies seen.contains(Item::Name(#[trigger] es[j])) by {
            if !seen.contains(Item::Name(es[j])) {
                assert(in_work(lm, work@, Item::Name(es[j])));
            }
        }
        assert(includes_roots(es, seen));
        assert forall|x: Item| #[trigger] in_closure(lm, es, x) implies seen.contains(x) && !bad(lm, x) by {
            assert(seen.contains(x));
        }
        assert(!closure_fails(lm, es));
        assert forall|m: Seq<char>, s: int| #[trigger] in_closure(lm, es, Item::Section(m, s)) implies exists|k: int|
            0 <= k < visited@.len() && section_item(lm, visited@[k]) == Item::Section(m, s) by {
            assert(seen.contains(Item::Section(m, s)));
        }
    }
    Some(visited)
}

} // verus!
