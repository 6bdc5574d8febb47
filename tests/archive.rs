use armerge::{read_archive, CommonArBuilder, MergeError, ToolConfig};

fn hdr(name: &str, size: usize) -> Vec<u8> {
    let h = format!("{:<16}{:<12}{:<6}{:<6}{:<8}{:<10}`\n", name, "0", "0", "0", "644", size);
    assert_eq!(h.len(), 60);
    h.into_bytes()
}

fn entry(name: &str, data: &[u8]) -> Vec<u8> {
    let mut v = hdr(name, data.len());
    v.extend_from_slice(data);
    if data.len() % 2 == 1 {
        v.push(b'\n');
    }
    v
}

fn archive(entries: &[Vec<u8>]) -> Vec<u8> {
    let mut v = b"!<arch>\n".to_vec();
    for e in entries {
        v.extend_from_slice(e);
    }
    v
}

fn members(bytes: &[u8]) -> Vec<(String, Vec<u8>)> {
    let a = read_archive("lib/libx.a", "libx", &bytes.to_vec()).ok().expect("valid archive");
    assert_eq!(a.stem, "libx");
    a.members.into_iter().map(|m| (m.name, m.data)).collect()
}

#[test]
fn gnu_archive_with_symbol_table_and_long_names() {
    let long = b"a_rather_long_member_name.o/\nshort_enough_not.o/\n";
    let bytes = archive(&[
        entry("/", &[0, 0, 0, 0]),
        entry("//", long),
        entry("a.o/", b"abc"),
        entry("/0", b"xy"),
        entry("/29", b"z"),
    ]);
    assert_eq!(
        members(&bytes),
        vec![
            ("a.o".to_string(), b"abc".to_vec()),
            ("a_rather_long_member_name.o".to_string(), b"xy".to_vec()),
            ("short_enough_not.o".to_string(), b"z".to_vec()),
        ]
    );
}

#[test]
fn bsd_archive_with_names_in_data() {
    let mut named = b"bsd_member.o\0\0".to_vec();
    named.extend_from_slice(b"OBJ");
    let bytes = archive(&[
        entry("__.SYMDEF SORTED", &[1, 2]),
        entry("#1/14", &named),
        entry("plain.o", b"pp"),
    ]);
    assert_eq!(
        members(&bytes),
        vec![("bsd_member.o".to_string(), b"OBJ".to_vec()), ("plain.o".to_string(), b"pp".to_vec())]
    );
}

#[test]
fn empty_archive_has_no_members() {
    assert!(members(b"!<arch>\n").is_empty());
}

#[test]
fn last_odd_member_may_lack_padding() {
    let mut bytes = archive(&[hdr("odd.o/", 1)]);
    bytes.push(b'Q');
    assert_eq!(members(&bytes), vec![("odd.o".to_string(), b"Q".to_vec())]);
}

fn read_fails(bytes: Vec<u8>) {
    match read_archive("in/libbad.a", "libbad", &bytes) {
        Err(MergeError::ArchiveReadError { path, .. }) => assert_eq!(path, "in/libbad.a"),
        Err(e) => panic!("unexpected {:?}", e),
        Ok(_) => panic!("expected an error"),
    }
}

#[test]
fn bad_archives_are_rejected() {
    read_fails(b"not an archive".to_vec());
    read_fails(Vec::new());
    let mut truncated = archive(&[entry("a.o/", b"abcd")]);
    truncated.truncate(truncated.len() - 2);
    read_fails(truncated);
    let mut bad_magic = archive(&[entry("a.o/", b"ab")]);
    bad_magic[8 + 58] = b'X';
    read_fails(bad_magic);
    read_fails(archive(&[entry("/5", b"ab")]));
    read_fails(archive(&[hdr("a.o/", 2)[..50].to_vec()]));
    read_fails(archive(&[entry("#1/9", b"short")]));
    read_fails(archive(&[entry("/", b"ab"), hdr("x.o/", 2).into_iter().map(|c| if c == b'2' { b'x' } else { c }).collect()]));
}

#[test]
fn ar_builder_packs_once() {
    let tools = ToolConfig::from_overrides(None, Some("llvm-ar".to_string()), None, None);
    let mut b = CommonArBuilder::new("out.a");
    b.append_obj("w/a.o").unwrap();
    b.append_obj("w/b.o").unwrap();
    let inv = b.close(&tools).unwrap();
    assert_eq!(inv.tool, "llvm-ar");
    assert_eq!(inv.args, vec!["qcs".to_string(), "out.a".to_string(), "w/a.o".to_string(), "w/b.o".to_string()]);
    assert!(b.close(&tools).is_none());
}
