//! Reading the file system of a GameCube disc image: the system files at
//! fixed places, then the tree that the file system table (FST) describes.
use super::virtual_file_system::{
    ends_with, first_from, is_dir_named, is_dol, is_file_named, resolve, system_data_name, Directory, File, Node,
};
use crate::compiler::big_endian::{be_u16, be_u32, read_be_u16, read_be_u32};
use vstd::prelude::*;
use vstd::slice::slice_subrange;
use crate::text::text_of;
use vstd::utf8::{decode_utf8, valid_utf8};

verus! {

/// Where the offset of the main executable is stored.
pub const OFFSET_DOL_OFFSET: usize = 0x420;

/// Where the offset of the file system table is stored.
pub const OFFSET_FST_OFFSET: usize = 0x424;

/// Where the size of the file system table is stored.
pub const OFFSET_FST_SIZE: usize = 0x428;

/// The length of the disc header.
pub const HEADER_LENGTH: usize = 0x2440;

/// A file or directory of the disc, as a value.
pub enum Tree {
    File(Seq<char>, Seq<u8>),
    Dir(Seq<char>, Seq<Tree>),
}

/// Whether the entry `n` is the file or directory `t`, with id 0 throughout.
pub open spec fn node_is<'a>(n: Node<'a>, t: Tree) -> bool
    decreases t,
{
    match t {
        Tree::File(name, data) => n matches Node::File(f) && f.id == 0 && f.name@ == name && f.data@ == data,
        Tree::Dir(name, kids) => n matches Node::Directory(d) && dir_is(*d, name, kids),
    }
}

/// Whether the directory `d` has id 0, the name `name` and the entries `kids`.
pub open spec fn dir_is<'a>(d: Directory<'a>, name: Seq<char>, kids: Seq<Tree>) -> bool
    decreases kids,
{
    &&& d.id == 0
    &&& d.name@ == name
    &&& d.children@.len() == kids.len()
    &&& forall|k: int| 0 <= k < kids.len() ==> node_is(#[trigger] d.children@[k], kids[k])
}

/// An entry of the file system table: whether it is a directory, its name,
/// and its two numbers (for a file, where its data begins and its length;
/// for a directory, its parent's index and the index after its last
/// descendant).
pub struct EntryModel {
    pub is_dir: bool,
    pub name: Seq<char>,
    pub a: int,
    pub b: int,
}

/// The index of the first zero byte of `buf` from `i` on.
pub open spec fn nul_from(buf: Seq<u8>, i: int) -> Option<int>
    decreases buf.len() - i,
{
    if i < 0 || i >= buf.len() {
        None
    } else if buf[i] == 0 {
        Some(i)
    } else {
        nul_from(buf, i + 1)
    }
}

/// The `i`-th entry of the table at `fst` whose names start at `strings`
/// past it: 12 bytes, the first nonzero for a directory, bytes 2 and 3 the
/// offset of its zero-terminated UTF-8 name, then two big-endian words.
pub open spec fn entry_at(buf: Seq<u8>, fst: int, strings: int, i: int) -> Option<EntryModel> {
    let pos = fst + 12 * i;
    if pos + 12 > buf.len() {
        None
    } else {
        let start = be_u16(buf.subrange(pos + 2, buf.len() as int)) as int + strings + fst;
        match nul_from(buf, start) {
            None => None,
            Some(end) => {
                let bytes = buf.subrange(start, end);
                if valid_utf8(bytes) {
                    Some(
                        EntryModel {
                            is_dir: buf[pos] != 0,
                            name: decode_utf8(bytes),
                            a: be_u32(buf.subrange(pos + 4, buf.len() as int)) as int,
                            b: be_u32(buf.subrange(pos + 8, buf.len() as int)) as int,
                        },
                    )
                } else {
                    None
                }
            },
        }
    }
}

/// The first `n` entries of the table.
pub open spec fn entries_of(buf: Seq<u8>, fst: int, strings: int, n: int) -> Option<Seq<EntryModel>>
    decreases n,
{
    if n <= 0 {
        Some(Seq::empty())
    } else {
        match entries_of(buf, fst, strings, n - 1) {
            None => None,
            Some(s) => match entry_at(buf, fst, strings, n - 1) {
                None => None,
                Some(e) => Some(s.push(e)),
            },
        }
    }
}

/// The file or directory of entry `cur`, and the index of the last entry it
/// takes: a file's data must lie in `buf`; a directory (whose second number
/// must not be 0) takes the entries after it up to that number minus one.
pub open spec fn parse_entry(buf: Seq<u8>, fst: Seq<EntryModel>, cur: int) -> Option<(Tree, int)>
    decreases fst.len() - cur, 1int,
{
    if cur < 0 || cur >= fst.len() {
        None
    } else {
        let e = fst[cur];
        if e.is_dir {
            if e.b == 0 {
                None
            } else {
                match parse_children(buf, fst, e.b - 1, cur, Seq::empty()) {
                    Some((kids, last)) => Some((Tree::Dir(e.name, kids), last)),
                    None => None,
                }
            }
        } else if e.a <= buf.len() && e.b <= buf.len() - e.a {
            Some((Tree::File(e.name, buf.subrange(e.a, e.a + e.b)), cur))
        } else {
            None
        }
    }
}

/// The entries `acc` followed by those that start after `cur`, as long as
/// the index is below `end`, and the index of the last entry taken.
pub open spec fn parse_children(buf: Seq<u8>, fst: Seq<EntryModel>, end: int, cur: int, acc: Seq<Tree>) -> Option<
    (Seq<Tree>, int),
>
    decreases fst.len() - cur, 0int,
{
    if cur < end {
        if cur + 1 >= fst.len() || cur < 0 {
            None
        } else {
            match parse_entry(buf, fst, cur + 1) {
                None => None,
                Some((t, next)) => if next <= cur || next >= fst.len() {
                    None
                } else {
                    parse_children(buf, fst, end, next, acc.push(t))
                },
            }
        }
    } else {
        Some((acc, cur))
    }
}

pub proof fn lemma_parse_entry_range(buf: Seq<u8>, fst: Seq<EntryModel>, cur: int)
    requires
        parse_entry(buf, fst, cur) is Some,
    ensures
        cur <= parse_entry(buf, fst, cur)->Some_0.1 < fst.len(),
    decreases fst.len() - cur, 1int,
{
    let e = fst[cur];
    if e.is_dir {
        lemma_parse_children_range(buf, fst, e.b - 1, cur, Seq::empty());
    }
}

pub proof fn lemma_parse_children_range(buf: Seq<u8>, fst: Seq<EntryModel>, end: int, cur: int, acc: Seq<Tree>)
    requires
        parse_children(buf, fst, end, cur, acc) is Some,
        0 <= cur < fst.len(),
    ensures
        cur <= parse_children(buf, fst, end, cur, acc)->Some_0.1 < fst.len(),
    decreases fst.len() - cur, 0int,
{
    if cur < end {
        let (t, next) = parse_entry(buf, fst, cur + 1)->Some_0;
        lemma_parse_children_range(buf, fst, end, next, acc.push(t));
    }
}

pub open spec fn name_root() -> Seq<char> {
    seq!['r', 'o', 'o', 't']
}

pub open spec fn name_header() -> Seq<char> {
    seq!['i', 's', 'o', '.', 'h', 'd', 'r']
}

pub open spec fn name_apploader() -> Seq<char> {
    seq!['A', 'p', 'p', 'L', 'o', 'a', 'd', 'e', 'r', '.', 'l', 'd', 'r']
}

pub open spec fn name_dol() -> Seq<char> {
    seq!['S', 't', 'a', 'r', 't', '.', 'd', 'o', 'l']
}

pub open spec fn name_toc() -> Seq<char> {
    seq!['G', 'a', 'm', 'e', '.', 't', 'o', 'c']
}

pub open spec fn word_at(buf: Seq<u8>, offset: int) -> int {
    be_u32(buf.subrange(offset, buf.len() as int)) as int
}

/// The file system of the disc image `buf`: a directory `root` holding
/// `&&systemdata` (the header, the apploader, the main executable and the
/// file system table, cut at the offsets that the header gives) followed by
/// the entries of the table after its root; `None` where a field, name or
/// file lies outside `buf`, a name is not UTF-8, or a directory's second
/// number is 0.
pub open spec fn iso_tree(buf: Seq<u8>) -> Option<Tree> {
    if buf.len() < HEADER_LENGTH {
        None
    } else {
        let dol = word_at(buf, OFFSET_DOL_OFFSET as int);
        let fst = word_at(buf, OFFSET_FST_OFFSET as int);
        let fst_size = word_at(buf, OFFSET_FST_SIZE as int);
        if fst + 12 > buf.len() {
            None
        } else {
            let n = word_at(buf, fst + 8);
            match entries_of(buf, fst, 12 * n, n) {
                None => None,
                Some(entries) => if HEADER_LENGTH <= dol <= fst && fst_size <= buf.len() - fst {
                    match parse_children(buf, entries, n - 1, 0, Seq::empty()) {
                        None => None,
                        Some((kids, _)) => Some(
                            Tree::Dir(
                                name_root(),
                                seq![
                                    Tree::Dir(
                                        system_data_name(),
                                        seq![
                                            Tree::File(name_header(), buf.subrange(0, HEADER_LENGTH as int)),
                                            Tree::File(name_apploader(), buf.subrange(HEADER_LENGTH as int, dol)),
                                            Tree::File(name_dol(), buf.subrange(dol, fst)),
                                            Tree::File(name_toc(), buf.subrange(fst, fst + fst_size)),
                                        ],
                                    ),
                                ] + kids,
                            ),
                        ),
                    }
                } else {
                    None
                },
            }
        }
    }
}

#[derive(Clone, Copy, PartialEq, Eq, Structural)]
enum FstNodeType {
    File,
    Directory,
}

/// An entry of the file system table as read.
struct FstEntry<'a> {
    kind: FstNodeType,
    relative_file_name: &'a str,
    file_offset_parent_dir: usize,
    file_size_next_dir_index: usize,
    file_name_offset: usize,
}

spec fn entry_model<'a>(e: FstEntry<'a>) -> EntryModel {
    EntryModel {
        is_dir: e.kind == FstNodeType::Directory,
        name: e.relative_file_name@,
        a: e.file_offset_parent_dir as int,
        b: e.file_size_next_dir_index as int,
    }
}

spec fn entries_model<'a>(v: Seq<FstEntry<'a>>) -> Seq<EntryModel> {
    v.map_values(|e: FstEntry<'a>| entry_model(e))
}

/// Reads entry `i` of the table at `fst` (see `entry_at`).
fn read_entry<'a>(buf: &'a [u8], fst: u64, strings: u64, i: u64) -> (r: Option<FstEntry<'a>>)
    requires
        fst <= u32::MAX,
        strings <= 12 * u32::MAX,
        i <= u32::MAX,
    ensures
        match entry_at(buf@, fst as int, strings as int, i as int) {
            Some(e) => r matches Some(x) && entry_model(x) == e,
            None => r is None,
        },
{
    let len = buf.len() as u64;
    let pos = fst + 12 * i;
    if pos + 12 > len {
        return None;
    }
    let p = pos as usize;
    let kind = if buf[p] == 0 {
        FstNodeType::File
    } else {
        FstNodeType::Directory
    };
    let name_offset = read_be_u16(slice_subrange(buf, p + 2, buf.len())) as u64;
    let start = name_offset + strings + fst;
    if start >= len {
        return None;
    }
    let start = start as usize;
    let mut end = start;
    while end < buf.len() && buf[end] != 0
        invariant
            start <= end <= buf@.len(),
            nul_from(buf@, start as int) == nul_from(buf@, end as int),
        decreases buf@.len() - end,
    {
        end = end + 1;
    }
    if end >= buf.len() {
        return None;
    }
    let name = match text_of(slice_subrange(buf, start, end)) {
        Some(name) => name,
        None => {
            return None;
        },
    };
    let a = read_be_u32(slice_subrange(buf, p + 4, buf.len())) as usize;
    let b = read_be_u32(slice_subrange(buf, p + 8, buf.len())) as usize;
    Some(
        FstEntry {
            kind,
            relative_file_name: name,
            file_offset_parent_dir: a,
            file_size_next_dir_index: b,
            file_name_offset: 0,
        },
    )
}

/// Reads the first `n` entries of the table at `fst` (see `entries_of`).
fn read_entries<'a>(buf: &'a [u8], fst: u64, n: u64) -> (r: Option<Vec<FstEntry<'a>>>)
    requires
        fst <= u32::MAX,
        n <= u32::MAX,
    ensures
        match entries_of(buf@, fst as int, 12 * n, n as int) {
            Some(s) => r matches Some(v) && entries_model(v@) == s,
            None => r is None,
        },
{
    let strings = 12 * n;
    let mut entries: Vec<FstEntry<'a>> = Vec::new();
    let mut i: u64 = 0;
    while i < n
        invariant
            fst <= u32::MAX,
            n <= u32::MAX,
            strings == 12 * n,
            i <= n,
            entries_of(buf@, fst as int, strings as int, i as int) == Some(entries_model(entries@)),
        decreases n - i,
    {
        let entry = match read_entry(buf, fst, strings, i) {
            Some(e) => e,
            None => {
                proof {
                    lemma_entries_fail(buf@, fst as int, strings as int, i + 1, n as int);
                }
                return None;
            },
        };
        let ghost before = entries_model(entries@);
        entries.push(entry);
        assert(entries_model(entries@) =~= before.push(entry_model(entry)));
        i = i + 1;
    }
    Some(entries)
}

proof fn lemma_entries_len(buf: Seq<u8>, fst: int, strings: int, n: int)
    requires
        n >= 0,
        entries_of(buf, fst, strings, n) is Some,
    ensures
        entries_of(buf, fst, strings, n)->Some_0.len() == n,
    decreases n,
{
    if n > 0 {
        lemma_entries_len(buf, fst, strings, n - 1);
    }
}

proof fn lemma_entries_fail(buf: Seq<u8>, fst: int, strings: int, from: int, n: int)
    requires
        0 <= from <= n,
        entries_of(buf, fst, strings, from) is None,
    ensures
        entries_of(buf, fst, strings, n) is None,
    decreases n - from,
{
    if n > from {
        lemma_entries_fail(buf, fst, strings, from, n - 1);
    }
}

/// The file of a table entry: its data lies at its first number, as long as
/// its second.
fn get_file_data<'a>(fst_data: &FstEntry<'a>, buf: &'a [u8]) -> (r: Option<File<'a>>)
    ensures
        match r {
            Some(f) => fst_data.file_offset_parent_dir <= buf@.len() && fst_data.file_size_next_dir_index
                <= buf@.len() - fst_data.file_offset_parent_dir && f.id == 0 && f.name == fst_data.relative_file_name
                && f.data@ == buf@.subrange(
                fst_data.file_offset_parent_dir as int,
                fst_data.file_offset_parent_dir + fst_data.file_size_next_dir_index,
            ),
            None => !(fst_data.file_offset_parent_dir <= buf@.len() && fst_data.file_size_next_dir_index
                <= buf@.len() - fst_data.file_offset_parent_dir),
        },
{
    let start = fst_data.file_offset_parent_dir;
    let size = fst_data.file_size_next_dir_index;
    if start > buf.len() || size > buf.len() - start {
        return None;
    }
    Some(File::new(fst_data.relative_file_name, slice_subrange(buf, start, start + size)))
}

/// Adds the file or directory of entry `cur` to `parent` and gives the
/// index of the last entry it takes (see `parse_entry`).
fn get_dir_structure_recursive<'a>(
    cur_index: usize,
    fst: &Vec<FstEntry<'a>>,
    parent_dir: &mut Directory<'a>,
    buf: &'a [u8],
) -> (r: Option<usize>)
    ensures
        match parse_entry(buf@, entries_model(fst@), cur_index as int) {
            Some((t, last)) => {
                &&& r == Some(last as usize)
                &&& final(parent_dir).id == old(parent_dir).id
                &&& final(parent_dir).name == old(parent_dir).name
                &&& final(parent_dir).children@.len() == old(parent_dir).children@.len() + 1
                &&& final(parent_dir).children@.subrange(0, old(parent_dir).children@.len() as int)
                    == old(parent_dir).children@
                &&& node_is(final(parent_dir).children@.last(), t)
            },
            None => r is None,
        },
    decreases fst@.len() - cur_index,
{
    let ghost fm = entries_model(fst@);
    if cur_index >= fst.len() {
        return None;
    }
    let entry = &fst[cur_index];
    assert(fm[cur_index as int] == entry_model(*entry));
    if entry.kind == FstNodeType::Directory {
        if entry.file_size_next_dir_index == 0 {
            return None;
        }
        let end = entry.file_size_next_dir_index - 1;
        let mut dir = Directory::new(entry.relative_file_name);
        let ghost name = entry.relative_file_name@;
        let ghost mut acc: Seq<Tree> = Seq::empty();
        let mut c = cur_index;
        while c < end
            invariant
                fm == entries_model(fst@),
                cur_index <= c < fst@.len(),
                end == fm[cur_index as int].b - 1,
                dir_is(dir, name, acc),
                parse_entry(buf@, fm, cur_index as int) == (match parse_children(buf@, fm, end as int, c as int, acc) {
                    Some((kids, last)) => Some((Tree::Dir(name, kids), last)),
                    None => None,
                }),
                parse_children(buf@, fm, end as int, cur_index as int, Seq::empty()) == parse_children(
                    buf@,
                    fm,
                    end as int,
                    c as int,
                    acc,
                ),
            decreases fst@.len() - c,
        {
            if c + 1 >= fst.len() {
                return None;
            }
            let ghost old_dir = dir;
            let next = match get_dir_structure_recursive(c + 1, fst, &mut dir, buf) {
                Some(n) => n,
                None => {
                    return None;
                },
            };
            proof {
                let (t, last) = parse_entry(buf@, fm, c + 1)->Some_0;
                lemma_parse_entry_range(buf@, fm, c + 1);
                assert forall|k: int| 0 <= k < acc.len() + 1 implies node_is(
                    #[trigger] dir.children@[k],
                    acc.push(t)[k],
                ) by {
                    if k < acc.len() {
                        assert(dir.children@[k] == dir.children@.subrange(0, old_dir.children@.len() as int)[k]);
                    }
                }
                acc = acc.push(t);
            }
            c = next;
        }
        parent_dir.children.push(Node::Directory(Box::new(dir)));
        assert(parent_dir.children@.subrange(0, parent_dir.children@.len() - 1) =~= old(parent_dir).children@);
        Some(c)
    } else {
        let file = match get_file_data(entry, buf) {
            Some(f) => f,
            None => {
                return None;
            },
        };
        parent_dir.children.push(Node::File(file));
        assert(parent_dir.children@.subrange(0, parent_dir.children@.len() - 1) =~= old(parent_dir).children@);
        Some(cur_index)
    }
}

/// The file system of the disc image `buf` (see `iso_tree`), or `None`
/// exactly where `iso_tree` has none.
pub fn try_load_iso<'a>(buf: &'a [u8]) -> (r: Option<Directory<'a>>)
    ensures
        match iso_tree(buf@) {
            Some(t) => r matches Some(d) && node_is(Node::Directory(Box::new(d)), t),
            None => r is None,
        },
{
    let len = buf.len();
    if len < HEADER_LENGTH {
        return None;
    }
    let dol_offset = read_be_u32(slice_subrange(buf, OFFSET_DOL_OFFSET, len)) as usize;
    let fst_offset = read_be_u32(slice_subrange(buf, OFFSET_FST_OFFSET, len)) as usize;
    let fst_size = read_be_u32(slice_subrange(buf, OFFSET_FST_SIZE, len)) as usize;
    if fst_offset > len - 12 {
        return None;
    }
    let num_entries = read_be_u32(slice_subrange(buf, fst_offset + 8, len));
    let fst_entries = match read_entries(buf, fst_offset as u64, num_entries as u64) {
        Some(e) => e,
        None => {
            return None;
        },
    };
    if !(HEADER_LENGTH <= dol_offset && dol_offset <= fst_offset && fst_size <= len - fst_offset) {
        return None;
    }
    let ghost fm = entries_model(fst_entries@);
    let ghost n = num_entries as int;
    proof {
        reveal_strlit("root");
        reveal_strlit("&&systemdata");
        reveal_strlit("iso.hdr");
        reveal_strlit("AppLoader.ldr");
        reveal_strlit("Start.dol");
        reveal_strlit("Game.toc");
    }
    assert("root"@ =~= name_root());
    assert("&&systemdata"@ =~= system_data_name());
    assert("iso.hdr"@ =~= name_header());
    assert("AppLoader.ldr"@ =~= name_apploader());
    assert("Start.dol"@ =~= name_dol());
    assert("Game.toc"@ =~= name_toc());
    let mut root_dir = Directory::new("root");
    let mut sys_data = Directory::new("&&systemdata");
    sys_data.children.push(Node::File(File::new("iso.hdr", slice_subrange(buf, 0, HEADER_LENGTH))));
    sys_data.children.push(Node::File(File::new("AppLoader.ldr", slice_subrange(buf, HEADER_LENGTH, dol_offset))));
    sys_data.children.push(Node::File(File::new("Start.dol", slice_subrange(buf, dol_offset, fst_offset))));
    sys_data.children.push(
        Node::File(File::new("Game.toc", slice_subrange(buf, fst_offset, fst_offset + fst_size))),
    );
    let ghost sys_tree = Tree::Dir(
        system_data_name(),
        seq![
            Tree::File(name_header(), buf@.subrange(0, HEADER_LENGTH as int)),
            Tree::File(name_apploader(), buf@.subrange(HEADER_LENGTH as int, dol_offset as int)),
            Tree::File(name_dol(), buf@.subrange(dol_offset as int, fst_offset as int)),
            Tree::File(name_toc(), buf@.subrange(fst_offset as int, fst_offset + fst_size)),
        ],
    );
    assert(dir_is(sys_data, system_data_name(), sys_tree->Dir_1));
    root_dir.children.push(Node::Directory(Box::new(sys_data)));
    assert(node_is(root_dir.children@[0], sys_tree));
    let ghost mut acc: Seq<Tree> = Seq::empty();
    let mut count: usize = 0;
    proof {
        lemma_entries_len(buf@, fst_offset as int, 12 * n, n);
    }
    assert(fm.len() == n);
    assert(iso_tree(buf@) == (match parse_children(buf@, fm, n - 1, 0, Seq::empty()) {
        Some((kids, _)) => Some(Tree::Dir(name_root(), seq![sys_tree] + kids)),
        None => None,
    }));
    while count + 1 < fst_entries.len()
        invariant
            fm == entries_model(fst_entries@),
            fm.len() == n,
            iso_tree(buf@) == (match parse_children(buf@, fm, n - 1, 0, Seq::empty()) {
                Some((kids, _)) => Some(Tree::Dir(name_root(), seq![sys_tree] + kids)),
                None => None,
            }),
            count < fst_entries@.len() || count == 0,
            root_dir.id == 0,
            root_dir.name@ == name_root(),
            root_dir.children@.len() == acc.len() + 1,
            node_is(root_dir.children@[0], sys_tree),
            forall|k: int| 0 <= k < acc.len() ==> node_is(#[trigger] root_dir.children@[k + 1], acc[k]),
            parse_children(buf@, fm, n - 1, 0, Seq::empty()) == parse_children(buf@, fm, n - 1, count as int, acc),
        decreases fst_entries@.len() - count,
    {
        let ghost old_root = root_dir;
        let next = match get_dir_structure_recursive(count + 1, &fst_entries, &mut root_dir, buf) {
            Some(next) => next,
            None => {
                return None;
            },
        };
        proof {
            let (t, last) = parse_entry(buf@, fm, count + 1)->Some_0;
            lemma_parse_entry_range(buf@, fm, count + 1);
            assert forall|k: int| 0 <= k < acc.len() + 1 implies node_is(
                #[trigger] root_dir.children@[k + 1],
                acc.push(t)[k],
            ) by {
                if k < acc.len() {
                    assert(root_dir.children@[k + 1] == root_dir.children@.subrange(
                        0,
                        old_root.children@.len() as int,
                    )[k + 1]);
                }
            }
            assert(root_dir.children@[0] == root_dir.children@.subrange(0, old_root.children@.len() as int)[0]);
            acc = acc.push(t);
        }
        count = next;
    }
    proof {
        let kids = parse_children(buf@, fm, n - 1, 0, Seq::empty())->Some_0.0;
        assert(kids == acc);
        let all = seq![sys_tree] + acc;
        assert forall|k: int| 0 <= k < all.len() implies node_is(#[trigger] root_dir.children@[k], all[k]) by {
            if k > 0 {
                assert(node_is(root_dir.children@[(k - 1) + 1], acc[k - 1]));
            }
        }
        assert(dir_is(root_dir, name_root(), all));
    }
    Some(root_dir)
}

/// The file system of the disc image `buf` (see `iso_tree`), on images
/// where it can be read.
pub fn load_iso<'a>(buf: &'a [u8]) -> (r: Directory<'a>)
    requires
        iso_tree(buf@) is Some,
    ensures
        node_is(Node::Directory(Box::new(r)), iso_tree(buf@).unwrap()),
{
    match try_load_iso(buf) {
        Some(d) => d,
        None => Directory::new("root"),
    }
}

/// In the file system of a disc image, the first entry of the root is the
/// directory `&&systemdata`, in which the main executable that
/// `main_dol_mut` finds is `Start.dol`, the file that the path
/// `&&systemdata/Start.dol` leads to: the bytes from the executable's offset
/// to the file system table's.
pub proof fn lemma_loaded_main_dol<'a>(buf: Seq<u8>, d: Directory<'a>)
    requires
        iso_tree(buf) is Some,
        node_is(Node::Directory(Box::new(d)), iso_tree(buf).unwrap()),
    ensures
        first_from(d.children@, is_dir_named(system_data_name()), 0) == Some(0int),
        ({
            let sys = *d.children@[0]->Directory_0;
            &&& first_from(sys.children@, is_dol(), 0) == Some(2int)
            &&& sys.children@[2] is File
            &&& sys.children@[2]->File_0.data@ == buf.subrange(
                word_at(buf, OFFSET_DOL_OFFSET as int),
                word_at(buf, OFFSET_FST_OFFSET as int),
            )
            &&& resolve(d, seq![system_data_name(), name_dol()]) == Some(sys.children@[2]->File_0)
        }),
{
    let t = iso_tree(buf).unwrap();
    let kids = t->Dir_1;
    assert(dir_is(d, name_root(), kids));
    assert(node_is(d.children@[0], kids[0]));
    let sys_tree = kids[0];
    let sys = *d.children@[0]->Directory_0;
    let files = sys_tree->Dir_1;
    assert(dir_is(sys, system_data_name(), files));
    assert(files.len() == 4);
    assert(node_is(sys.children@[0], files[0]));
    assert(node_is(sys.children@[1], files[1]));
    assert(node_is(sys.children@[2], files[2]));
    let c = sys.children@;
    assert(c[0]->File_0.name@ == name_header());
    assert(c[1]->File_0.name@ == name_apploader());
    assert(c[2]->File_0.name@ == name_dol());
    assert(!ends_with(name_header(), seq!['.', 'd', 'o', 'l'])) by {
        assert(name_header().subrange(3, 7)[1] != seq!['.', 'd', 'o', 'l'][1]);
    }
    assert(!ends_with(name_apploader(), seq!['.', 'd', 'o', 'l'])) by {
        assert(name_apploader().subrange(9, 13)[1] != seq!['.', 'd', 'o', 'l'][1]);
    }
    assert(ends_with(name_dol(), seq!['.', 'd', 'o', 'l'])) by {
        assert(name_dol().subrange(5, 9) =~= seq!['.', 'd', 'o', 'l']);
    }
    assert(first_from(c, is_dol(), 2) == Some(2int));
    assert(first_from(c, is_dol(), 1) == Some(2int));
    assert(first_from(c, is_dol(), 0) == Some(2int));
    assert(name_header() != name_dol()) by {
        assert(name_header().len() != name_dol().len());
    }
    assert(name_apploader() != name_dol()) by {
        assert(name_apploader().len() != name_dol().len());
    }
    assert(first_from(c, is_file_named(name_dol()), 2) == Some(2int));
    assert(first_from(c, is_file_named(name_dol()), 1) == Some(2int));
    assert(first_from(c, is_file_named(name_dol()), 0) == Some(2int));
    assert(first_from(d.children@, is_dir_named(system_data_name()), 0) == Some(0int));
    let segs = seq![system_data_name(), name_dol()];
    assert(segs.drop_first() =~= seq![name_dol()]);
    assert(resolve(sys, seq![name_dol()]) == Some(c[2]->File_0));
}

/// The four files of `&&systemdata` (the header, the apploader, the main
/// executable and the file system table) lie next to each other at the start
/// of the disc image: together they are its bytes up to the end of the table,
/// the header takes `HEADER_LENGTH` bytes, the executable starts at the
/// offset that the header gives for it and the table at its own.
pub proof fn lemma_system_files_adjacent<'a>(buf: Seq<u8>, d: Directory<'a>)
    requires
        iso_tree(buf) is Some,
        node_is(Node::Directory(Box::new(d)), iso_tree(buf).unwrap()),
    ensures
        ({
            let dol = word_at(buf, OFFSET_DOL_OFFSET as int);
            let fst = word_at(buf, OFFSET_FST_OFFSET as int);
            let fst_size = word_at(buf, OFFSET_FST_SIZE as int);
            let c = (*d.children@[0]->Directory_0).children@;
            &&& d.children@[0] is Directory
            &&& c.len() == 4
            &&& forall|k: int| 0 <= k < 4 ==> (#[trigger] c[k]) is File
            &&& c[0]->File_0.data@ + c[1]->File_0.data@ + c[2]->File_0.data@ + c[3]->File_0.data@
                == buf.subrange(0, fst + fst_size)
            &&& c[0]->File_0.data@.len() == HEADER_LENGTH
            &&& c[0]->File_0.data@.len() + c[1]->File_0.data@.len() == dol
            &&& c[0]->File_0.data@.len() + c[1]->File_0.data@.len() + c[2]->File_0.data@.len() == fst
        }),
{
    let t = iso_tree(buf).unwrap();
    let kids = t->Dir_1;
    assert(dir_is(d, name_root(), kids));
    assert(node_is(d.children@[0], kids[0]));
    let sys = *d.children@[0]->Directory_0;
    let files = kids[0]->Dir_1;
    assert(dir_is(sys, system_data_name(), files));
    let c = sys.children@;
    assert forall|k: int| 0 <= k < 4 implies (#[trigger] c[k]) is File by {
        assert(node_is(c[k], files[k]));
    }
    assert(node_is(c[0], files[0]));
    assert(node_is(c[1], files[1]));
    assert(node_is(c[2], files[2]));
    assert(node_is(c[3], files[3]));
    let dol = word_at(buf, OFFSET_DOL_OFFSET as int);
    let fst = word_at(buf, OFFSET_FST_OFFSET as int);
    let fst_size = word_at(buf, OFFSET_FST_SIZE as int);
    assert(c[0]->File_0.data@ + c[1]->File_0.data@ + c[2]->File_0.data@ + c[3]->File_0.data@
        =~= buf.subrange(0, fst + fst_size));
}

} // verus!
