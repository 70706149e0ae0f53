//! The file system of a disc image as a tree of directories and files whose
//! names and contents borrow from the image.
use crate::text::str_eq;
use vstd::prelude::*;
use vstd::string::StrSliceExecFns;

verus! {

/// An entry of a directory.
#[derive(Debug)]
pub enum Node<'a> {
    Directory(Box<Directory<'a>>),
    File(File<'a>),
}

/// A directory: its id, its name and its entries in order.
#[derive(Debug)]
pub struct Directory<'a> {
    pub id: u16,
    pub name: &'a str,
    pub children: Vec<Node<'a>>,
}

/// A file: its id, its name and its contents.
#[derive(Debug)]
pub struct File<'a> {
    pub id: u16,
    pub name: &'a str,
    pub data: &'a [u8],
}

/// The index of the first entry from `i` on that satisfies `pred`.
pub open spec fn first_from<'a>(children: Seq<Node<'a>>, pred: spec_fn(Node<'a>) -> bool, i: int) -> Option<int>
    decreases children.len() - i,
{
    if i < 0 || i >= children.len() {
        None
    } else if pred(children[i]) {
        Some(i)
    } else {
        first_from(children, pred, i + 1)
    }
}

pub open spec fn is_dir_named<'a>(name: Seq<char>) -> spec_fn(Node<'a>) -> bool {
    |n: Node<'a>| n matches Node::Directory(d) && d.name@ == name
}

pub open spec fn is_file_named<'a>(name: Seq<char>) -> spec_fn(Node<'a>) -> bool {
    |n: Node<'a>| n matches Node::File(f) && f.name@ == name
}

pub open spec fn ends_with(s: Seq<char>, suffix: Seq<char>) -> bool {
    s.len() >= suffix.len() && s.subrange(s.len() - suffix.len(), s.len() as int) == suffix
}

pub open spec fn is_dol<'a>() -> spec_fn(Node<'a>) -> bool {
    |n: Node<'a>| n matches Node::File(f) && ends_with(f.name@, seq!['.', 'd', 'o', 'l'])
}

pub open spec fn system_data_name() -> Seq<char> {
    seq!['&', '&', 's', 'y', 's', 't', 'e', 'm', 'd', 'a', 't', 'a']
}

pub open spec fn banner_name() -> Seq<char> {
    seq!['o', 'p', 'e', 'n', 'i', 'n', 'g', '.', 'b', 'n', 'r']
}

/// The parts of `s` between the slashes, from position `i` on, the current
/// part having begun at `start`.
pub open spec fn segments_from(s: Seq<char>, start: int, i: int) -> Seq<Seq<char>>
    decreases s.len() - i,
{
    if i >= s.len() {
        seq![s.subrange(start, s.len() as int)]
    } else if s[i] == '/' {
        seq![s.subrange(start, i)] + segments_from(s, i + 1, i + 1)
    } else {
        segments_from(s, start, i + 1)
    }
}

/// The parts of a path between its slashes (at least one, maybe empty).
pub open spec fn segments(s: Seq<char>) -> Seq<Seq<char>> {
    segments_from(s, 0, 0)
}

/// The file that the path parts `segs` lead to from `dir`: each part but the
/// last names a subdirectory (the first of that name), the last a file.
pub open spec fn resolve<'a>(dir: Directory<'a>, segs: Seq<Seq<char>>) -> Option<File<'a>>
    decreases segs.len(),
{
    if segs.len() == 0 {
        None
    } else if segs.len() == 1 {
        match first_from(dir.children@, is_file_named(segs[0]), 0) {
            Some(k) => Some(dir.children@[k]->File_0),
            None => None,
        }
    } else {
        match first_from(dir.children@, is_dir_named(segs[0]), 0) {
            Some(k) => resolve(*dir.children@[k]->Directory_0, segs.drop_first()),
            None => None,
        }
    }
}

impl<'a> Node<'a> {
    /// The directory that this entry is, if it is one.
    pub fn as_directory(&self) -> (r: Option<&Directory<'a>>)
        ensures
            match *self {
                Node::Directory(d) => r == Some(&*d),
                Node::File(_) => r is None,
            },
    {
        match self {
            Node::Directory(dir) => Some(&**dir),
            Node::File(_) => None,
        }
    }

    /// The directory that this entry is, if it is one, to change in place.
    pub fn as_directory_mut(&mut self) -> (r: Option<&mut Directory<'a>>)
        ensures
            match *old(self) {
                Node::Directory(d) => r is Some && *r.unwrap() == *d && *final(self) == Node::Directory(
                    Box::new(*final(r.unwrap())),
                ),
                Node::File(_) => r is None && *final(self) == *old(self),
            },
    {
        match self {
            Node::Directory(dir) => Some(&mut **dir),
            Node::File(_) => None,
        }
    }

    /// The file that this entry is, if it is one.
    pub fn as_file(&self) -> (r: Option<&File<'a>>)
        ensures
            match *self {
                Node::File(f) => r == Some(&f),
                Node::Directory(_) => r is None,
            },
    {
        match self {
            Node::File(file) => Some(file),
            Node::Directory(_) => None,
        }
    }

    /// The file that this entry is, if it is one, to change in place.
    pub fn as_file_mut(&mut self) -> (r: Option<&mut File<'a>>)
        ensures
            match *old(self) {
                Node::File(f) => r is Some && *r.unwrap() == f && *final(self) == Node::File(*final(r.unwrap())),
                Node::Directory(_) => r is None && *final(self) == *old(self),
            },
    {
        match self {
            Node::File(file) => Some(file),
            Node::Directory(_) => None,
        }
    }
}

impl<'a> File<'a> {
    /// A file of id 0.
    pub fn new(name: &'a str, data: &'a [u8]) -> (f: File<'a>)
        ensures
            f.id == 0,
            f.name == name,
            f.data == data,
    {
        File { id: 0, name, data }
    }
}

/// The parts of `path` between its slashes.
fn split_path<'p>(path: &'p str) -> (r: Vec<&'p str>)
    ensures
        r@.map_values(|p: &str| p@) == segments(path@),
{
    let n = path.unicode_len();
    let mut parts: Vec<&'p str> = Vec::new();
    let mut start: usize = 0;
    let mut i: usize = 0;
    while i < n
        invariant
            n == path@.len(),
            start <= i <= n,
            segments(path@) == parts@.map_values(|p: &str| p@) + segments_from(path@, start as int, i as int),
        decreases n - i,
    {
        if path.get_char(i) == '/' {
            let part = path.substring_char(start, i);
            let ghost before = parts@.map_values(|p: &str| p@);
            parts.push(part);
            assert(parts@.map_values(|p: &str| p@) =~= before.push(part@));
            assert(segments_from(path@, start as int, i as int) == seq![path@.subrange(start as int, i as int)]
                + segments_from(path@, i + 1, i + 1));
            assert(before + segments_from(path@, start as int, i as int) =~= before.push(part@) + segments_from(
                path@,
                i + 1,
                i + 1,
            ));
            start = i + 1;
        }
        i = i + 1;
    }
    let part = path.substring_char(start, n);
    let ghost before = parts@.map_values(|p: &str| p@);
    parts.push(part);
    assert(parts@.map_values(|p: &str| p@) =~= before + segments_from(path@, start as int, i as int));
    parts
}

/// The index of the first subdirectory named `name`.
fn find_dir<'a>(children: &Vec<Node<'a>>, name: &str) -> (r: Option<usize>)
    ensures
        match r {
            Some(i) => first_from(children@, is_dir_named(name@), 0) == Some(i as int) && i < children@.len(),
            None => first_from(children@, is_dir_named(name@), 0) is None,
        },
{
    let mut i: usize = 0;
    while i < children.len()
        invariant
            i <= children@.len(),
            first_from(children@, is_dir_named(name@), 0) == first_from(children@, is_dir_named(name@), i as int),
        decreases children@.len() - i,
    {
        let found = match &children[i] {
            Node::Directory(d) => str_eq(d.name, name),
            Node::File(_) => false,
        };
        if found {
            return Some(i);
        }
        i = i + 1;
    }
    None
}

/// The index of the first file named `name`.
fn find_file<'a>(children: &Vec<Node<'a>>, name: &str) -> (r: Option<usize>)
    ensures
        match r {
            Some(i) => first_from(children@, is_file_named(name@), 0) == Some(i as int) && i < children@.len(),
            None => first_from(children@, is_file_named(name@), 0) is None,
        },
{
    let mut i: usize = 0;
    while i < children.len()
        invariant
            i <= children@.len(),
            first_from(children@, is_file_named(name@), 0) == first_from(children@, is_file_named(name@), i as int),
        decreases children@.len() - i,
    {
        let found = match &children[i] {
            Node::File(f) => str_eq(f.name, name),
            Node::Directory(_) => false,
        };
        if found {
            return Some(i);
        }
        i = i + 1;
    }
    None
}

/// Whether `s` ends with `.dol`.
fn is_dol_name(s: &str) -> (r: bool)
    ensures
        r == ends_with(s@, seq!['.', 'd', 'o', 'l']),
{
    let n = s.unicode_len();
    if n < 4 {
        return false;
    }
    let r = s.get_char(n - 4) == '.' && s.get_char(n - 3) == 'd' && s.get_char(n - 2) == 'o' && s.get_char(n - 1)
        == 'l';
    assert(r ==> s@.subrange(n - 4, n as int) =~= seq!['.', 'd', 'o', 'l']);
    proof {
        if s@.subrange(n - 4, n as int) == seq!['.', 'd', 'o', 'l'] {
            assert(s@.subrange(n - 4, n as int)[0] == s@[n - 4]);
            assert(s@.subrange(n - 4, n as int)[1] == s@[n - 3]);
            assert(s@.subrange(n - 4, n as int)[2] == s@[n - 2]);
            assert(s@.subrange(n - 4, n as int)[3] == s@[n - 1]);
        }
    }
    r
}

/// The index of the first file whose name ends with `.dol`.
fn find_dol<'a>(children: &Vec<Node<'a>>) -> (r: Option<usize>)
    ensures
        match r {
            Some(i) => first_from(children@, is_dol(), 0) == Some(i as int) && i < children@.len(),
            None => first_from(children@, is_dol(), 0) is None,
        },
{
    let mut i: usize = 0;
    while i < children.len()
        invariant
            i <= children@.len(),
            first_from(children@, is_dol(), 0) == first_from(children@, is_dol(), i as int),
        decreases children@.len() - i,
    {
        let found = match &children[i] {
            Node::File(f) => is_dol_name(f.name),
            Node::Directory(_) => false,
        };
        if found {
            return Some(i);
        }
        i = i + 1;
    }
    None
}

impl<'a> Directory<'a> {
    /// An empty directory of id 0.
    pub fn new(name: &'a str) -> (d: Directory<'a>)
        ensures
            d.id == 0,
            d.name == name,
            d.children@.len() == 0,
    {
        Directory { id: 0, name, children: Vec::new() }
    }

    /// The main executable: the first file whose name ends with `.dol` in
    /// the first subdirectory named `&&systemdata`, to change in place.
    pub fn main_dol_mut(&mut self) -> (r: Option<&mut File<'a>>)
        ensures
            match first_from(old(self).children@, is_dir_named(system_data_name()), 0) {
                None => r is None && *final(self) == *old(self),
                Some(i) => {
                    let d = *old(self).children@[i]->Directory_0;
                    match first_from(d.children@, is_dol(), 0) {
                        None => r is None && *final(self) == *old(self),
                        Some(j) => {
                            &&& r is Some
                            &&& *r.unwrap() == d.children@[j]->File_0
                            &&& final(self).id == old(self).id
                            &&& final(self).name == old(self).name
                            &&& final(self).children@ == old(self).children@.update(i, final(self).children@[i])
                            &&& final(self).children@[i] is Directory
                            &&& final(self).children@[i]->Directory_0.id == d.id
                            &&& final(self).children@[i]->Directory_0.name == d.name
                            &&& final(self).children@[i]->Directory_0.children@ == d.children@.update(
                                j,
                                Node::File(*final(r.unwrap())),
                            )
                        },
                    }
                },
            },
    {
        proof {
            reveal_strlit("&&systemdata");
        }
        assert("&&systemdata"@ =~= system_data_name());
        let i = match find_dir(&self.children, "&&systemdata") {
            Some(i) => i,
            None => {
                return None;
            },
        };
        proof {
            lemma_first_from(self.children@, is_dir_named(system_data_name()), 0);
        }
        let j = match &self.children[i] {
            Node::Directory(d) => find_dol(&d.children),
            Node::File(_) => None,
        };
        let j = match j {
            Some(j) => j,
            None => {
                return None;
            },
        };
        proof {
            lemma_first_from(self.children@, is_dir_named(system_data_name()), 0);
            lemma_first_from(self.children@[i as int]->Directory_0.children@, is_dol(), 0);
        }
        let node = &mut self.children[i];
        let dir = node.as_directory_mut().unwrap();
        let child = &mut dir.children[j];
        child.as_file_mut()
    }

    /// The banner: the first file named `opening.bnr`, to change in place.
    pub fn banner_mut(&mut self) -> (r: Option<&mut File<'a>>)
        ensures
            match first_from(old(self).children@, is_file_named(banner_name()), 0) {
                None => r is None && *final(self) == *old(self),
                Some(i) => {
                    &&& r is Some
                    &&& *r.unwrap() == old(self).children@[i]->File_0
                    &&& final(self).id == old(self).id
                    &&& final(self).name == old(self).name
                    &&& final(self).children@ == old(self).children@.update(i, Node::File(*final(r.unwrap())))
                },
            },
    {
        proof {
            reveal_strlit("opening.bnr");
        }
        assert("opening.bnr"@ =~= banner_name());
        let i = match find_file(&self.children, "opening.bnr") {
            Some(i) => i,
            None => {
                return None;
            },
        };
        proof {
            lemma_first_from(self.children@, is_file_named(banner_name()), 0);
        }
        let node = &mut self.children[i];
        node.as_file_mut()
    }

    /// The file that `path` names: its parts between slashes name
    /// subdirectories (the first of each name) but the last, which names a
    /// file (the first of that name).
    pub fn resolve_path(&self, path: &str) -> (r: Option<&File<'a>>)
        ensures
            match resolve(*self, segments(path@)) {
                Some(f) => r is Some && *r.unwrap() == f,
                None => r is None,
            },
    {
        let segs = split_path(path);
        let ghost all = segs@.map_values(|p: &str| p@);
        proof {
            lemma_segments_nonempty(path@, 0, 0);
        }
        let mut dir: &Directory<'a> = self;
        let mut k: usize = 0;
        assert(all.subrange(0, all.len() as int) =~= all);
        while k + 1 < segs.len()
            invariant
                all == segs@.map_values(|p: &str| p@),
                all == segments(path@),
                all.len() >= 1,
                k < all.len(),
                resolve(*self, all) == resolve(*dir, all.subrange(k as int, all.len() as int)),
            decreases all.len() - k,
        {
            let ghost rest = all.subrange(k as int, all.len() as int);
            assert(rest.drop_first() =~= all.subrange(k + 1, all.len() as int));
            assert(rest[0] == segs@[k as int]@);
            let idx = match find_dir(&dir.children, segs[k]) {
                Some(idx) => idx,
                None => {
                    return None;
                },
            };
            proof {
                lemma_first_from(dir.children@, is_dir_named(segs@[k as int]@), 0);
            }
            dir = match &dir.children[idx] {
                Node::Directory(d) => &**d,
                Node::File(_) => {
                    return None;
                },
            };
            k = k + 1;
        }
        let ghost rest = all.subrange(k as int, all.len() as int);
        assert(rest.len() == 1);
        assert(rest[0] == segs@[k as int]@);
        match find_file(&dir.children, segs[k]) {
            Some(idx) => match &dir.children[idx] {
                Node::File(f) => {
                    proof {
                        lemma_first_from(dir.children@, is_file_named(segs@[k as int]@), 0);
                    }
                    Some(f)
                },
                Node::Directory(_) => {
                    proof {
                        lemma_first_from(dir.children@, is_file_named(segs@[k as int]@), 0);
                    }
                    None
                },
            },
            None => None,
        }
    }
}

/// The entry that `first_from` finds satisfies the predicate.
pub proof fn lemma_first_from<'a>(children: Seq<Node<'a>>, pred: spec_fn(Node<'a>) -> bool, i: int)
    requires
        first_from(children, pred, i) is Some,
    ensures
        i <= first_from(children, pred, i)->Some_0 < children.len(),
        pred(children[first_from(children, pred, i)->Some_0]),
    decreases children.len() - i,
{
    if 0 <= i < children.len() && !pred(children[i]) {
        lemma_first_from(children, pred, i + 1);
    }
}

proof fn lemma_segments_nonempty(s: Seq<char>, start: int, i: int)
    ensures
        segments_from(s, start, i).len() >= 1,
    decreases s.len() - i,
{
    if i < s.len() {
        if s[i] == '/' {
            lemma_segments_nonempty(s, i + 1, i + 1);
        } else {
            lemma_segments_nonempty(s, start, i + 1);
        }
    }
}

} // verus!
