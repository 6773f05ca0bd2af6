use reeos::fs::{
    count_files, create_file, delete_file, list_files, read_file, read_file_len, RamDisk,
    MAX_FILES, MAX_FILE_SIZE,
};

#[test]
fn new_disk_holds_readme_and_hello() {
    let disk = RamDisk::new();
    assert_eq!(count_files(&disk), 2);
    assert_eq!(
        disk.read(b"/readme.txt"),
        Some(&b"Welcome to ReeOS RAM Disk!\nFiles are lost on reboot."[..])
    );
    assert_eq!(disk.read(b"/hello.txt"), Some(&b"Hello World!"[..]));
    assert_eq!(disk.read(b"/nothing"), None);
}

#[test]
fn read_after_create_gives_contents_back() {
    let mut disk = RamDisk::new();
    assert!(disk.create(b"/a", b"alpha"));
    assert_eq!(disk.read(b"/a"), Some(&b"alpha"[..]));
    assert_eq!(count_files(&disk), 3);
}

#[test]
fn create_on_existing_name_overwrites() {
    let mut disk = RamDisk::new();
    assert!(disk.create(b"/hello.txt", b"bye"));
    assert_eq!(disk.read(b"/hello.txt"), Some(&b"bye"[..]));
    assert_eq!(count_files(&disk), 2);
    // a shorter write leaves nothing of the longer contents behind
    assert!(disk.create(b"/hello.txt", b""));
    assert_eq!(disk.read(b"/hello.txt"), Some(&b""[..]));
}

#[test]
fn create_keeps_other_files() {
    let mut disk = RamDisk::new();
    assert!(disk.create(b"/x", b"1"));
    assert_eq!(disk.read(b"/readme.txt").map(|d| d.len()), Some(52));
    assert_eq!(disk.read(b"/hello.txt"), Some(&b"Hello World!"[..]));
}

#[test]
fn contents_are_cut_to_max_file_size() {
    let mut disk = RamDisk::new();
    let big = vec![7u8; 600];
    assert!(disk.create(b"/big", &big));
    assert_eq!(disk.read(b"/big").unwrap().len(), MAX_FILE_SIZE);
    assert_eq!(read_file_len(&disk, b"/big"), Some(512));
}

#[test]
fn long_names_are_cut_and_not_found_again() {
    let mut disk = RamDisk::new();
    let long = [b'n'; 40];
    assert!(disk.create(&long, b"v"));
    assert_eq!(disk.read(&long), None);
    assert_eq!(disk.read(&[b'n'; 32]), Some(&b"v"[..]));
    // writing the long name again makes a second file of the cut name
    assert!(disk.create(&long, b"w"));
    assert_eq!(count_files(&disk), 4);
    assert!(disk.delete(&[b'n'; 32]));
    assert_eq!(disk.read(&[b'n'; 32]), Some(&b"w"[..]));
}

#[test]
fn full_disk_refuses_new_files_but_not_rewrites() {
    let mut disk = RamDisk::new();
    for i in 0..(MAX_FILES - 2) {
        let name = [b'f', b'0' + (i / 10) as u8, b'0' + (i % 10) as u8];
        assert!(disk.create(&name, b"x"));
    }
    assert_eq!(count_files(&disk), MAX_FILES);
    assert!(!disk.create(b"/one-more", b"x"));
    assert_eq!(count_files(&disk), MAX_FILES);
    assert_eq!(disk.read(b"/one-more"), None);
    assert!(disk.create(b"/hello.txt", b"still"));
    assert_eq!(disk.read(b"/hello.txt"), Some(&b"still"[..]));
}

#[test]
fn delete_removes_and_shifts() {
    let mut disk = RamDisk::new();
    assert!(disk.delete(b"/readme.txt"));
    assert_eq!(disk.read(b"/readme.txt"), None);
    assert_eq!(count_files(&disk), 1);
    let mut buf = [0u8; 64];
    let n = disk.list(&mut buf);
    assert_eq!(&buf[..n], b"/hello.txt\n");
}

#[test]
fn delete_of_missing_file_changes_nothing() {
    let mut disk = RamDisk::new();
    assert!(!disk.delete(b"/missing"));
    assert_eq!(count_files(&disk), 2);
    assert!(!delete_file(&mut disk, b"/missing"));
}

#[test]
fn create_then_delete_restores_listing() {
    let mut disk = RamDisk::new();
    let mut before = [0u8; 128];
    let n0 = disk.list(&mut before);
    assert!(disk.create(b"/tmp", b"data"));
    assert!(disk.delete(b"/tmp"));
    let mut after = [0u8; 128];
    let n1 = disk.list(&mut after);
    assert_eq!(&before[..n0], &after[..n1]);
    assert_eq!(count_files(&disk), 2);
}

#[test]
fn list_writes_names_with_newlines() {
    let disk = RamDisk::new();
    let mut buf = [0xAAu8; 512];
    let n = list_files(&disk, &mut buf);
    assert_eq!(&buf[..n], b"/readme.txt\n/hello.txt\n");
    assert!(buf[n..].iter().all(|&b| b == 0xAA));
}

#[test]
fn list_skips_names_that_do_not_fit() {
    let disk = RamDisk::new();
    // "/readme.txt" needs 11 + 2 < 13: does not fit; "/hello.txt" needs 10 + 2 < 13: fits
    let mut buf = [0u8; 13];
    let n = disk.list(&mut buf);
    assert_eq!(&buf[..n], b"/hello.txt\n");
    let mut tiny = [9u8; 4];
    assert_eq!(disk.list(&mut tiny), 0);
    assert_eq!(tiny, [9u8; 4]);
}

#[test]
fn read_file_pads_with_zeros() {
    let disk = RamDisk::new();
    let copy = read_file(&disk, b"/hello.txt").unwrap();
    assert_eq!(&copy[..12], b"Hello World!");
    assert!(copy[12..].iter().all(|&b| b == 0));
    assert_eq!(read_file_len(&disk, b"/hello.txt"), Some(12));
    assert_eq!(read_file(&disk, b"/none"), None);
    assert_eq!(read_file_len(&disk, b"/none"), None);
}

#[test]
fn create_file_and_delete_file_work_on_the_disk() {
    let mut disk = RamDisk::new();
    assert!(create_file(&mut disk, b"/n", b"note"));
    assert_eq!(read_file_len(&disk, b"/n"), Some(4));
    assert!(delete_file(&mut disk, b"/n"));
    assert_eq!(read_file_len(&disk, b"/n"), None);
}
