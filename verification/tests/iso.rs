use romhack::compiler::iso::reader::{load_iso, try_load_iso};
use romhack::compiler::iso::virtual_file_system::{Directory, File, Node};

fn put_u32(buf: &mut [u8], at: usize, v: u32) {
    buf[at..at + 4].copy_from_slice(&v.to_be_bytes());
}

fn entry(buf: &mut [u8], at: usize, dir: bool, name: u16, a: u32, b: u32) {
    buf[at] = dir as u8;
    buf[at + 2..at + 4].copy_from_slice(&name.to_be_bytes());
    put_u32(buf, at + 4, a);
    put_u32(buf, at + 8, b);
}

fn image() -> Vec<u8> {
    let mut buf = vec![0u8; 0x2810];
    put_u32(&mut buf, 0x420, 0x2500);
    put_u32(&mut buf, 0x424, 0x2600);
    put_u32(&mut buf, 0x428, 0x40);
    let fst = 0x2600;
    entry(&mut buf, fst, true, 0, 0, 4);
    entry(&mut buf, fst + 12, false, 0, 0x2800, 4);
    entry(&mut buf, fst + 24, true, 6, 0, 4);
    entry(&mut buf, fst + 36, false, 10, 0x2804, 2);
    buf[fst + 48..fst + 64].copy_from_slice(b"a.bin\0sub\0b.bin\0");
    buf[0x2500..0x2504].copy_from_slice(b"DOL!");
    buf[0x2800..0x2806].copy_from_slice(&[1, 2, 3, 4, 5, 6]);
    buf
}

fn names(dir: &Directory) -> Vec<String> {
    dir.children
        .iter()
        .map(|c| match c {
            Node::Directory(d) => format!("{}/", d.name),
            Node::File(f) => f.name.to_string(),
        })
        .collect()
}

#[test]
fn disc_image_tree() {
    let buf = image();
    let root = load_iso(&buf);
    assert_eq!(root.name, "root");
    assert_eq!(names(&root), vec!["&&systemdata/", "a.bin", "sub/"]);
    let sys = root.children[0].as_directory().unwrap();
    assert_eq!(names(sys), vec!["iso.hdr", "AppLoader.ldr", "Start.dol", "Game.toc"]);
    assert_eq!(root.resolve_path("a.bin").unwrap().data, &[1, 2, 3, 4]);
    assert_eq!(root.resolve_path("sub/b.bin").unwrap().data, &[5, 6]);
    assert_eq!(root.resolve_path("&&systemdata/Start.dol").unwrap().data.len(), 0x100);
    assert_eq!(root.resolve_path("&&systemdata/Game.toc").unwrap().data.len(), 0x40);
    assert_eq!(root.resolve_path("&&systemdata/iso.hdr").unwrap().data.len(), 0x2440);
    assert!(root.resolve_path("sub").is_none());
    assert!(root.resolve_path("missing/b.bin").is_none());
    assert!(root.children[1].as_directory().is_none());
    assert_eq!(root.children[1].as_file().unwrap().name, "a.bin");
}

#[test]
fn main_dol_can_be_replaced() {
    let buf = image();
    let mut root = load_iso(&buf);
    let patched = vec![9u8; 16];
    {
        let dol = root.main_dol_mut().expect("a main executable");
        assert_eq!(&dol.data[..4], b"DOL!");
        dol.data = &patched;
    }
    assert_eq!(root.resolve_path("&&systemdata/Start.dol").unwrap().data, &patched[..]);
    assert!(root.banner_mut().is_none());
}

#[test]
fn banner_is_found_at_the_root() {
    let data = [7u8; 3];
    let mut root = Directory::new("root");
    root.children.push(Node::File(File::new("opening.bnr", &data)));
    let banner = root.banner_mut().unwrap();
    assert_eq!(banner.data, &[7, 7, 7]);
    let mut node = Node::File(File::new("x", &data));
    assert!(node.as_directory_mut().is_none());
    assert_eq!(node.as_file_mut().unwrap().name, "x");
}

#[test]
fn short_image_is_refused() {
    assert!(try_load_iso(&image()[..0x2000]).is_none());
}

#[test]
fn name_that_is_not_utf8_is_refused() {
    let mut buf = image();
    buf[0x2600 + 48] = 0xff;
    assert!(try_load_iso(&buf).is_none());
}

#[test]
fn directory_without_end_is_refused() {
    let mut buf = image();
    put_u32(&mut buf, 0x2600 + 24 + 8, 0);
    assert!(try_load_iso(&buf).is_none());
}

#[test]
fn file_outside_the_image_is_refused() {
    let mut buf = image();
    put_u32(&mut buf, 0x2600 + 12 + 8, 0x100);
    assert!(try_load_iso(&buf).is_none());
}
