//! A RAM disk: at most `MAX_FILES` files, each with a name of at most
//! `MAX_FILENAME` bytes and contents of at most `MAX_FILE_SIZE` bytes.
//! Names and contents that are longer are cut to those lengths.

use vstd::prelude::*;
use crate::text::same_bytes;

verus! {

/// The number of files the disk can hold.
pub const MAX_FILES: usize = 16;

/// The number of bytes of a name that the disk keeps.
pub const MAX_FILENAME: usize = 32;

/// The number of bytes of contents that the disk keeps.
pub const MAX_FILE_SIZE: usize = 512;

/// What the disk holds of one file.
pub ghost struct FileEntry {
    pub name: Seq<u8>,
    pub data: Seq<u8>,
}

/// `s` cut to at most `n` elements.
pub open spec fn truncate(s: Seq<u8>, n: nat) -> Seq<u8> {
    if s.len() > n {
        s.take(n as int)
    } else {
        s
    }
}

/// Copies the first `n` bytes of `src` (all of it, where it is shorter).
fn copy_prefix(src: &[u8], n: usize) -> (out: Vec<u8>)
    ensures
        out@ == truncate(src@, n as nat),
{
    let len = if src.len() > n { n } else { src.len() };
    let mut out: Vec<u8> = Vec::new();
    let mut j: usize = 0;
    while j < len
        invariant
            len <= src@.len(),
            len == truncate(src@, n as nat).len(),
            j <= len,
            out@ == src@.take(j as int),
        decreases len - j,
    {
        out.push(src[j]);
        j = j + 1;
    }
    assert(out@ == truncate(src@, n as nat));
    out
}


/// The index of the first file named `name`, if there is one.
pub open spec fn lookup(files: Seq<FileEntry>, name: Seq<u8>) -> Option<int>
    decreases files.len(),
{
    if files.len() == 0 {
        None
    } else {
        match lookup(files.drop_last(), name) {
            Some(i) => Some(i),
            None => if files.last().name == name {
                Some(files.len() - 1)
            } else {
                None
            },
        }
    }
}

/// `lookup` finds the first file of that name, and finds none only where none has it.
pub proof fn lemma_lookup(files: Seq<FileEntry>, name: Seq<u8>)
    ensures
        match lookup(files, name) {
            Some(i) => {
                &&& 0 <= i < files.len()
                &&& files[i].name == name
                &&& forall|k: int| 0 <= k < i ==> (#[trigger] files[k]).name != name
            },
            None => forall|k: int| 0 <= k < files.len() ==> (#[trigger] files[k]).name != name,
        },
    decreases files.len(),
{
    if files.len() > 0 {
        lemma_lookup(files.drop_last(), name);
        assert(forall|k: int| 0 <= k < files.len() - 1 ==> files.drop_last()[k] == files[k]);
    }
}

/// A file found among the first `n` files is the first file of that name.
proof fn lemma_lookup_prefix(files: Seq<FileEntry>, name: Seq<u8>, n: int)
    requires
        0 <= n <= files.len(),
        lookup(files.take(n), name) is Some,
    ensures
        lookup(files, name) == lookup(files.take(n), name),
    decreases files.len(),
{
    if n == files.len() {
        assert(files.take(n) =~= files);
    } else {
        assert(files.drop_last().take(n) =~= files.take(n));
        lemma_lookup_prefix(files.drop_last(), name, n);
    }
}

/// What a disk can hold: few enough files, and short enough names and contents.
pub open spec fn valid_files(files: Seq<FileEntry>) -> bool {
    &&& files.len() <= MAX_FILES
    &&& forall|i: int|
        0 <= i < files.len() ==> {
            &&& (#[trigger] files[i]).name.len() <= MAX_FILENAME
            &&& files[i].data.len() <= MAX_FILE_SIZE
        }
}

/// The files after `name` is written with `data`, and whether the write succeeded:
/// the first file of that name gets the new contents; otherwise, while there is
/// room, a new file is added at the end; otherwise nothing changes.
pub open spec fn create_result(files: Seq<FileEntry>, name: Seq<u8>, data: Seq<u8>) -> (
    Seq<FileEntry>,
    bool,
) {
    match lookup(files, name) {
        Some(i) => (
            files.update(i, FileEntry { name: files[i].name, data: truncate(data, MAX_FILE_SIZE as nat) }),
            true,
        ),
        None => if files.len() < MAX_FILES {
            (
                files.push(
                    FileEntry {
                        name: truncate(name, MAX_FILENAME as nat),
                        data: truncate(data, MAX_FILE_SIZE as nat),
                    },
                ),
                true,
            )
        } else {
            (files, false)
        },
    }
}

/// The contents of the first file named `name`, if there is one.
pub open spec fn read_result(files: Seq<FileEntry>, name: Seq<u8>) -> Option<Seq<u8>> {
    match lookup(files, name) {
        Some(i) => Some(files[i].data),
        None => None,
    }
}

/// The files after the first file named `name` is removed, and whether there was one.
pub open spec fn delete_result(files: Seq<FileEntry>, name: Seq<u8>) -> (Seq<FileEntry>, bool) {
    match lookup(files, name) {
        Some(i) => (files.remove(i), true),
        None => (files, false),
    }
}

/// The listing of the files' names that fits in a buffer of `cap` bytes: each name
/// followed by a newline, in order, skipping a name when the listing so far, the
/// name and two more bytes would not be less than `cap`.
pub open spec fn listing(files: Seq<FileEntry>, cap: nat) -> Seq<u8>
    decreases files.len(),
{
    if files.len() == 0 {
        Seq::empty()
    } else {
        let before = listing(files.drop_last(), cap);
        let name = files.last().name;
        if before.len() + name.len() + 2 < cap {
            before + name.push(10u8)
        } else {
            before
        }
    }
}

/// The bytes of a text whose characters are all ASCII.
pub open spec fn ascii(text: Seq<char>) -> Seq<u8> {
    text.map_values(|c: char| c as u8)
}

/// The files a new disk starts with.
pub open spec fn initial_files() -> Seq<FileEntry> {
    seq![
        FileEntry {
            name: ascii("/readme.txt"@),
            data: ascii("Welcome to ReeOS RAM Disk!\nFiles are lost on reboot."@),
        },
        FileEntry { name: ascii("/hello.txt"@), data: ascii("Hello World!"@) },
    ]
}

/// The bytes of a string literal made of ASCII characters.
fn literal_bytes(s: &str) -> (b: &[u8])
    requires
        vstd::string::is_ascii(s),
    ensures
        b@ == ascii(s@),
{
    proof {
        vstd::string::is_ascii_spec_bytes(s);
    }
    let b = s.as_bytes();
    assert(b@ =~= ascii(s@));
    b
}

/// One file on the disk.
pub struct RamFile {
    name: Vec<u8>,
    data: Vec<u8>,
}

impl RamFile {
    /// The file as the disk's view holds it.
    pub closed spec fn entry(&self) -> FileEntry {
        FileEntry { name: self.name@, data: self.data@ }
    }
}

/// The RAM disk: its files in the order in which they were created.
pub struct RamDisk {
    files: Vec<RamFile>,
}

impl View for RamDisk {
    type V = Seq<FileEntry>;

    closed spec fn view(&self) -> Seq<FileEntry> {
        self.files@.map_values(|f: RamFile| f.entry())
    }
}

impl RamDisk {
    /// A disk holding two files, "/readme.txt" and "/hello.txt".
    pub fn new() -> (disk: RamDisk)
        ensures
            disk.wf(),
            disk@ == initial_files(),
    {
        let mut disk = RamDisk { files: Vec::new() };
        assert(disk@ =~= Seq::<FileEntry>::empty());
        let readme = "/readme.txt";
        let welcome = "Welcome to ReeOS RAM Disk!\nFiles are lost on reboot.";
        let hello = "/hello.txt";
        let greeting = "Hello World!";
        proof {
            reveal_strlit("/readme.txt");
            reveal_strlit("Welcome to ReeOS RAM Disk!\nFiles are lost on reboot.");
            reveal_strlit("/hello.txt");
            reveal_strlit("Hello World!");
        }
        let ghost e0 = initial_files()[0];
        let ghost e1 = initial_files()[1];
        assert(truncate(e0.name, MAX_FILENAME as nat) == e0.name);
        assert(truncate(e0.data, MAX_FILE_SIZE as nat) == e0.data);
        assert(truncate(e1.name, MAX_FILENAME as nat) == e1.name);
        assert(truncate(e1.data, MAX_FILE_SIZE as nat) == e1.data);
        disk.create(literal_bytes(readme), literal_bytes(welcome));
        assert(disk@ =~= seq![e0]);
        assert(e0.name.len() != e1.name.len());
        assert(lookup(seq![e0], e1.name) is None) by {
            reveal_with_fuel(lookup, 2);
            assert(seq![e0].drop_last() =~= Seq::<FileEntry>::empty());
            assert(seq![e0].last() == e0);
        }
        disk.create(literal_bytes(hello), literal_bytes(greeting));
        assert(disk@ =~= initial_files());
        disk
    }

    /// Whether the disk keeps its limits.
    pub open spec fn wf(&self) -> bool {
        valid_files(self@)
    }

    /// The index of the first file named `name`.
    fn find(&self, name: &[u8]) -> (found: Option<usize>)
        requires
            self.wf(),
        ensures
            match found {
                Some(i) => lookup(self@, name@) == Some(i as int) && i < self.files@.len(),
                None => lookup(self@, name@) is None,
            },
            self@.len() == self.files@.len(),
    {
        proof {
            lemma_lookup(self@, name@);
        }
        let mut i: usize = 0;
        while i < self.files.len()
            invariant
                i <= self.files@.len(),
                self@.len() == self.files@.len(),
                lookup(self@.take(i as int), name@) is None,
            decreases self.files@.len() - i,
        {
            assert(self@.take(i + 1).drop_last() =~= self@.take(i as int));
            if same_bytes(self.files[i].name.as_slice(), name) {
                proof {
                    lemma_lookup_prefix(self@, name@, i + 1);
                }
                return Some(i);
            }
            i = i + 1;
        }
        assert(self@.take(i as int) =~= self@);
        None
    }

    /// Writes `data` into the file named `name`, creating the file if there is none.
    /// A new file's name is cut to `MAX_FILENAME` bytes and any contents to
    /// `MAX_FILE_SIZE` bytes. Returns false, changing nothing, when there is no
    /// such file and the disk already holds `MAX_FILES` files.
    pub fn create(&mut self, name: &[u8], data: &[u8]) -> (ok: bool)
        requires
            old(self).wf(),
        ensures
            final(self).wf(),
            (final(self)@, ok) == create_result(old(self)@, name@, data@),
    {
        proof {
            lemma_lookup(self@, name@);
        }
        match self.find(name) {
            Some(i) => {
                let kept = copy_prefix(self.files[i].name.as_slice(), MAX_FILENAME);
                let contents = copy_prefix(data, MAX_FILE_SIZE);
                assert(kept@ =~= old(self)@[i as int].name);
                let file = RamFile { name: kept, data: contents };
                self.files.set(i, file);
                assert(self@ =~= create_result(old(self)@, name@, data@).0);
                true
            },
            None => {
                if self.files.len() < MAX_FILES {
                    let file = RamFile {
                        name: copy_prefix(name, MAX_FILENAME),
                        data: copy_prefix(data, MAX_FILE_SIZE),
                    };
                    self.files.push(file);
                    assert(self@ =~= create_result(old(self)@, name@, data@).0);
                    true
                } else {
                    false
                }
            },
        }
    }

    /// The contents of the file named `name`, if there is one.
    pub fn read(&self, name: &[u8]) -> (contents: Option<&[u8]>)
        requires
            self.wf(),
        ensures
            match contents {
                Some(d) => read_result(self@, name@) == Some(d@),
                None => read_result(self@, name@) is None,
            },
    {
        proof {
            lemma_lookup(self@, name@);
        }
        match self.find(name) {
            Some(i) => Some(self.files[i].data.as_slice()),
            None => None,
        }
    }

    /// Removes the file named `name`; the files after it move up by one.
    /// Returns whether there was such a file.
    pub fn delete(&mut self, name: &[u8]) -> (ok: bool)
        requires
            old(self).wf(),
        ensures
            final(self).wf(),
            (final(self)@, ok) == delete_result(old(self)@, name@),
    {
        proof {
            lemma_lookup(self@, name@);
        }
        match self.find(name) {
            Some(i) => {
                let _removed = self.files.remove(i);
                assert(self@ =~= delete_result(old(self)@, name@).0);
                true
            },
            None => false,
        }
    }

    /// Writes the names of the files into `buffer`, each followed by a newline,
    /// skipping a name where the bytes written so far, the name and two more bytes
    /// would not be fewer than the buffer's length. Returns the number of bytes
    /// written; the rest of the buffer is left as it was.
    pub fn list(&self, buffer: &mut [u8]) -> (written: usize)
        requires
            self.wf(),
        ensures
            written == listing(self@, old(buffer)@.len()).len(),
            final(buffer)@ == listing(self@, old(buffer)@.len()) + old(buffer)@.skip(written as int),
    {
        let size = buffer.len();
        let ghost cap = buffer@.len();
        let ghost files = self@;
        let mut pos: usize = 0;
        let mut i: usize = 0;
        while i < self.files.len()
            invariant
                files == self@,
                self.wf(),
                files.len() == self.files@.len(),
                i <= files.len(),
                buffer@.len() == cap,
                cap == size,
                cap == old(buffer)@.len(),
                pos == listing(files.take(i as int), cap).len(),
                pos <= cap,
                buffer@ == listing(files.take(i as int), cap) + old(buffer)@.skip(pos as int),
            decreases files.len() - i,
        {
            assert(files.take(i + 1).drop_last() =~= files.take(i as int));
            let name = self.files[i].name.as_slice();
            assert(name@ == files[i as int].name);
            if name.len() + 2 < buffer.len() - pos {
                let ghost before = buffer@;
                let mut j: usize = 0;
                while j < name.len()
                    invariant
                        pos + name@.len() + 2 < cap,
                        cap == size,
                        before.len() == cap,
                        buffer@.len() == cap,
                        j <= name@.len(),
                        buffer@ == before.subrange(0, pos as int) + name@.take(j as int) + before.skip(
                            pos + j,
                        ),
                    decreases name@.len() - j,
                {
                    buffer[pos + j] = name[j];
                    j = j + 1;
                    assert(buffer@ =~= before.subrange(0, pos as int) + name@.take(j as int)
                        + before.skip(pos + j));
                }
                buffer[pos + j] = 10u8;
                pos = pos + j + 1;
                assert(buffer@ =~= listing(files.take(i + 1), cap) + old(buffer)@.skip(pos as int));
            }
            i = i + 1;
        }
        assert(files.take(i as int) =~= files);
        pos
    }
}

} // verus!

verus! {

/// The number of files on the disk.
pub fn count_files(disk: &RamDisk) -> (count: usize)
    requires
        disk.wf(),
    ensures
        count == disk@.len(),
{
    disk.files.len()
}

/// Writes `data` into the file named `name` (see `RamDisk::create`).
pub fn create_file(disk: &mut RamDisk, name: &[u8], data: &[u8]) -> (ok: bool)
    requires
        old(disk).wf(),
    ensures
        final(disk).wf(),
        (final(disk)@, ok) == create_result(old(disk)@, name@, data@),
{
    disk.create(name, data)
}

/// `contents` followed by zero bytes up to `MAX_FILE_SIZE` bytes.
pub open spec fn zero_padded(contents: Seq<u8>) -> Seq<u8> {
    contents + Seq::new((MAX_FILE_SIZE - contents.len()) as nat, |i: int| 0u8)
}

/// A copy of the contents of the file named `name`, padded with zero bytes.
pub fn read_file(disk: &RamDisk, name: &[u8]) -> (copy: Option<[u8; MAX_FILE_SIZE]>)
    requires
        disk.wf(),
    ensures
        match copy {
            Some(a) => read_result(disk@, name@) matches Some(d) && a@ == zero_padded(d),
            None => read_result(disk@, name@) is None,
        },
{
    proof {
        lemma_lookup(disk@, name@);
    }
    match disk.read(name) {
        Some(data) => {
            let mut arr = [0u8; MAX_FILE_SIZE];
            let len = data.len();
            let mut i: usize = 0;
            while i < len
                invariant
                    len == data@.len(),
                    len <= MAX_FILE_SIZE,
                    i <= len,
                    arr@.len() == MAX_FILE_SIZE,
                    forall|k: int| 0 <= k < i ==> arr@[k] == data@[k],
                    forall|k: int| i <= k < MAX_FILE_SIZE ==> arr@[k] == 0u8,
                decreases len - i,
            {
                arr[i] = data[i];
                i = i + 1;
            }
            assert(arr@ =~= zero_padded(data@));
            Some(arr)
        },
        None => None,
    }
}

/// The length of the contents of the file named `name`.
pub fn read_file_len(disk: &RamDisk, name: &[u8]) -> (len: Option<usize>)
    requires
        disk.wf(),
    ensures
        match len {
            Some(n) => read_result(disk@, name@) matches Some(d) && n == d.len(),
            None => read_result(disk@, name@) is None,
        },
{
    match disk.read(name) {
        Some(data) => Some(data.len()),
        None => None,
    }
}

/// Removes the file named `name` (see `RamDisk::delete`).
pub fn delete_file(disk: &mut RamDisk, name: &[u8]) -> (ok: bool)
    requires
        old(disk).wf(),
    ensures
        final(disk).wf(),
        (final(disk)@, ok) == delete_result(old(disk)@, name@),
{
    disk.delete(name)
}

/// Writes the listing of the files' names into `buffer` (see `RamDisk::list`).
pub fn list_files(disk: &RamDisk, buffer: &mut [u8]) -> (written: usize)
    requires
        disk.wf(),
    ensures
        written == listing(disk@, old(buffer)@.len()).len(),
        final(buffer)@ == listing(disk@, old(buffer)@.len()) + old(buffer)@.skip(written as int),
{
    disk.list(buffer)
}

} // verus!

verus! {

/// Whether no two files have the same name.
pub open spec fn names_unique(files: Seq<FileEntry>) -> bool {
    forall|i: int, j: int|
        0 <= i < files.len() && 0 <= j < files.len() && i != j ==> (#[trigger] files[i]).name != (
        #[trigger] files[j]).name
}

/// Two lists of files with the same names, place by place, find the same index.
proof fn lemma_lookup_same_names(a: Seq<FileEntry>, b: Seq<FileEntry>, name: Seq<u8>)
    requires
        a.len() == b.len(),
        forall|k: int| 0 <= k < a.len() ==> (#[trigger] a[k]).name == b[k].name,
    ensures
        lookup(a, name) == lookup(b, name),
    decreases a.len(),
{
    if a.len() > 0 {
        assert forall|k: int| 0 <= k < a.drop_last().len() implies (#[trigger] a.drop_last()[k]).name
            == b.drop_last()[k].name by {
            assert(a.drop_last()[k] == a[k]);
            assert(b.drop_last()[k] == b[k]);
        }
        lemma_lookup_same_names(a.drop_last(), b.drop_last(), name);
    }
}

/// Adding a file at the end changes no lookup of a name it does not have.
proof fn lemma_lookup_push(files: Seq<FileEntry>, e: FileEntry, name: Seq<u8>)
    ensures
        lookup(files.push(e), name) == if lookup(files, name) is Some || e.name != name {
            lookup(files, name)
        } else {
            Some(files.len() as int)
        },
{
    assert(files.push(e).drop_last() =~= files);
}

/// After a successful write of `data` to `name`, reading `name` gives back
/// `data`, cut to `MAX_FILE_SIZE` bytes. (A name longer than `MAX_FILENAME`
/// bytes is stored cut, so reading it by the long name finds nothing.)
pub proof fn lemma_read_after_create(files: Seq<FileEntry>, name: Seq<u8>, data: Seq<u8>)
    requires
        valid_files(files),
        name.len() <= MAX_FILENAME,
        create_result(files, name, data).1,
    ensures
        read_result(create_result(files, name, data).0, name) == Some(
            truncate(data, MAX_FILE_SIZE as nat),
        ),
{
    lemma_lookup(files, name);
    let after = create_result(files, name, data).0;
    match lookup(files, name) {
        Some(i) => {
            lemma_lookup_same_names(files, after, name);
        },
        None => {
            let e = FileEntry {
                name: truncate(name, MAX_FILENAME as nat),
                data: truncate(data, MAX_FILE_SIZE as nat),
            };
            assert(e.name == name);
            lemma_lookup_push(files, e, name);
        },
    }
}

/// Writing to one name changes what is read under no other name, provided
/// the written name is not longer than `MAX_FILENAME` bytes.
pub proof fn lemma_create_keeps_others(
    files: Seq<FileEntry>,
    name: Seq<u8>,
    data: Seq<u8>,
    other: Seq<u8>,
)
    requires
        valid_files(files),
        name.len() <= MAX_FILENAME,
        other != name,
    ensures
        read_result(create_result(files, name, data).0, other) == read_result(files, other),
{
    lemma_lookup(files, name);
    lemma_lookup(files, other);
    let after = create_result(files, name, data).0;
    match lookup(files, name) {
        Some(i) => {
            lemma_lookup_same_names(files, after, other);
        },
        None => {
            if files.len() < MAX_FILES {
                let e = FileEntry {
                    name: truncate(name, MAX_FILENAME as nat),
                    data: truncate(data, MAX_FILE_SIZE as nat),
                };
                assert(e.name == name);
                lemma_lookup_push(files, e, other);
            }
        },
    }
}

/// After the file named `name` is deleted from a disk where no two files share
/// a name, no file of that name is left.
pub proof fn lemma_read_after_delete(files: Seq<FileEntry>, name: Seq<u8>)
    requires
        names_unique(files),
    ensures
        read_result(delete_result(files, name).0, name) is None,
{
    lemma_lookup(files, name);
    let after = delete_result(files, name).0;
    lemma_lookup(after, name);
    match lookup(files, name) {
        Some(i) => {
            assert forall|k: int| 0 <= k < after.len() implies (#[trigger] after[k]).name != name by {
                if k < i {
                    assert(after[k] == files[k]);
                } else {
                    assert(after[k] == files[k + 1]);
                }
            }
        },
        None => {},
    }
}

/// Writing keeps the names unique, where the written name is not longer than
/// `MAX_FILENAME` bytes.
pub proof fn lemma_create_keeps_names_unique(files: Seq<FileEntry>, name: Seq<u8>, data: Seq<u8>)
    requires
        valid_files(files),
        names_unique(files),
        name.len() <= MAX_FILENAME,
    ensures
        names_unique(create_result(files, name, data).0),
{
    lemma_lookup(files, name);
    let after = create_result(files, name, data).0;
    match lookup(files, name) {
        Some(i) => {
            assert forall|a: int, b: int|
                0 <= a < after.len() && 0 <= b < after.len() && a != b implies (#[trigger] after[a]).name
                != (#[trigger] after[b]).name by {
                assert(after[a].name == files[a].name);
                assert(after[b].name == files[b].name);
            }
        },
        None => {
            if files.len() < MAX_FILES {
                assert forall|a: int, b: int|
                    0 <= a < after.len() && 0 <= b < after.len() && a != b implies (
                    #[trigger] after[a]).name != (#[trigger] after[b]).name by {
                    if a < files.len() {
                        assert(after[a] == files[a]);
                    }
                    if b < files.len() {
                        assert(after[b] == files[b]);
                    }
                }
            }
        },
    }
}

/// Deleting keeps the names unique.
pub proof fn lemma_delete_keeps_names_unique(files: Seq<FileEntry>, name: Seq<u8>)
    requires
        names_unique(files),
    ensures
        names_unique(delete_result(files, name).0),
{
    lemma_lookup(files, name);
    let after = delete_result(files, name).0;
    match lookup(files, name) {
        Some(i) => {
            assert forall|a: int, b: int|
                0 <= a < after.len() && 0 <= b < after.len() && a != b implies (#[trigger] after[a]).name
                != (#[trigger] after[b]).name by {
                let a0 = if a < i { a } else { a + 1 };
                let b0 = if b < i { b } else { b + 1 };
                assert(after[a] == files[a0]);
                assert(after[b] == files[b0]);
            }
        },
        None => {},
    }
}

/// A new disk's files have different names.
pub proof fn lemma_initial_names_unique()
    ensures
        names_unique(initial_files()),
{
    reveal_strlit("/readme.txt");
    reveal_strlit("/hello.txt");
    let files = initial_files();
    assert(files[0].name.len() != files[1].name.len());
}

/// Creating a file under a new name and then deleting that name gives back the
/// disk as it was, where there was room and the name is not longer than
/// `MAX_FILENAME` bytes.
pub proof fn lemma_delete_undoes_create(files: Seq<FileEntry>, name: Seq<u8>, data: Seq<u8>)
    requires
        valid_files(files),
        lookup(files, name) is None,
        files.len() < MAX_FILES,
        name.len() <= MAX_FILENAME,
    ensures
        delete_result(create_result(files, name, data).0, name) == (files, true),
{
    let e = FileEntry { name: truncate(name, MAX_FILENAME as nat), data: truncate(data, MAX_FILE_SIZE as nat) };
    assert(e.name == name);
    lemma_lookup_push(files, e, name);
    assert(files.push(e).remove(files.len() as int) =~= files);
}

/// The listing never runs past the buffer: it is empty or shorter than the buffer.
pub proof fn lemma_listing_fits(files: Seq<FileEntry>, cap: nat)
    ensures
        listing(files, cap).len() == 0 || listing(files, cap).len() < cap,
    decreases files.len(),
{
    if files.len() > 0 {
        lemma_listing_fits(files.drop_last(), cap);
    }
}

} // verus!

verus! {

/// Writing the same data to the same name twice leaves the disk as the first
/// write left it, with the same answer, where the name is not longer than
/// `MAX_FILENAME` bytes (a longer one is stored cut, so each write adds a file).
pub proof fn lemma_create_twice(files: Seq<FileEntry>, name: Seq<u8>, data: Seq<u8>)
    requires
        valid_files(files),
        name.len() <= MAX_FILENAME,
    ensures
        create_result(create_result(files, name, data).0, name, data) == create_result(files, name, data),
{
    lemma_lookup(files, name);
    let (after, ok) = create_result(files, name, data);
    match lookup(files, name) {
        Some(i) => {
            lemma_lookup_same_names(files, after, name);
            assert(after.update(i, FileEntry { name: after[i].name, data: truncate(data, MAX_FILE_SIZE as nat) }) =~= after);
        },
        None => {
            if files.len() < MAX_FILES {
                let e = FileEntry { name: truncate(name, MAX_FILENAME as nat), data: truncate(data, MAX_FILE_SIZE as nat) };
                assert(e.name == name);
                lemma_lookup_push(files, e, name);
                assert(after.update(files.len() as int, FileEntry { name: after[files.len() as int].name, data: truncate(data, MAX_FILE_SIZE as nat) }) =~= after);
            }
        },
    }
}

} // verus!

verus! {

/// Every file's name followed by a newline, in order.
pub open spec fn all_names(files: Seq<FileEntry>) -> Seq<u8>
    decreases files.len(),
{
    if files.len() == 0 {
        Seq::empty()
    } else {
        all_names(files.drop_last()) + files.last().name.push(10u8)
    }
}

/// What the listing holds depends on the files' names alone (and the
/// buffer's size), never on their contents.
pub proof fn lemma_listing_names_only(a: Seq<FileEntry>, b: Seq<FileEntry>, cap: nat)
    requires
        a.len() == b.len(),
        forall|k: int| 0 <= k < a.len() ==> (#[trigger] a[k]).name == b[k].name,
    ensures
        listing(a, cap) == listing(b, cap),
    decreases a.len(),
{
    if a.len() > 0 {
        assert forall|k: int| 0 <= k < a.drop_last().len() implies (#[trigger] a.drop_last()[k]).name
            == b.drop_last()[k].name by {
            assert(a.drop_last()[k] == a[k]);
            assert(b.drop_last()[k] == b[k]);
        }
        lemma_listing_names_only(a.drop_last(), b.drop_last(), cap);
    }
}

/// With a buffer longer than every name and its newline together, plus one,
/// the listing holds every file's name followed by a newline, in order.
pub proof fn lemma_listing_all_fit(files: Seq<FileEntry>, cap: nat)
    requires
        all_names(files).len() + 1 < cap,
    ensures
        listing(files, cap) == all_names(files),
    decreases files.len(),
{
    if files.len() > 0 {
        lemma_listing_all_fit(files.drop_last(), cap);
    }
}

/// The first index holding a file named `name`, where every file before it
/// has another name, is what `lookup` finds.
proof fn lemma_lookup_first(files: Seq<FileEntry>, name: Seq<u8>, j: int)
    requires
        0 <= j < files.len(),
        files[j].name == name,
        forall|k: int| 0 <= k < j ==> (#[trigger] files[k]).name != name,
    ensures
        lookup(files, name) == Some(j),
{
    lemma_lookup(files, name);
    match lookup(files, name) {
        Some(i) => {
            if i < j {
                assert(files[i].name != name);
            } else if i > j {
                assert(files[j].name != name);
            }
        },
        None => {
            assert(files[j].name != name);
        },
    }
}

/// Deleting one name changes what is read under no other name.
pub proof fn lemma_delete_keeps_others(files: Seq<FileEntry>, name: Seq<u8>, other: Seq<u8>)
    requires
        other != name,
    ensures
        read_result(delete_result(files, name).0, other) == read_result(files, other),
{
    lemma_lookup(files, name);
    lemma_lookup(files, other);
    match lookup(files, name) {
        Some(i) => {
            let after = files.remove(i);
            lemma_lookup(after, other);
            match lookup(files, other) {
                Some(j) => {
                    if j < i {
                        assert forall|k: int| 0 <= k < j implies (#[trigger] after[k]).name != other by {
                            assert(after[k] == files[k]);
                        }
                        assert(after[j] == files[j]);
                        lemma_lookup_first(after, other, j);
                    } else {
                        assert(j != i);
                        assert forall|k: int| 0 <= k < j - 1 implies (#[trigger] after[k]).name != other by {
                            if k < i {
                                assert(after[k] == files[k]);
                            } else {
                                assert(after[k] == files[k + 1]);
                            }
                        }
                        assert(after[j - 1] == files[j]);
                        lemma_lookup_first(after, other, j - 1);
                    }
                },
                None => {
                    assert forall|k: int| 0 <= k < after.len() implies (#[trigger] after[k]).name != other by {
                        if k < i {
                            assert(after[k] == files[k]);
                        } else {
                            assert(after[k] == files[k + 1]);
                        }
                    }
                },
            }
        },
        None => {},
    }
}

} // verus!

verus! {

/// The copy `read_file` hands out holds the contents in its first bytes and
/// zero bytes after them, up to `MAX_FILE_SIZE` bytes.
pub proof fn lemma_zero_padded(contents: Seq<u8>)
    requires
        contents.len() <= MAX_FILE_SIZE,
    ensures
        zero_padded(contents).len() == MAX_FILE_SIZE,
        forall|i: int| 0 <= i < contents.len() ==> zero_padded(contents)[i] == contents[i],
        forall|i: int| contents.len() <= i < MAX_FILE_SIZE ==> zero_padded(contents)[i] == 0,
{
}

} // verus!

verus! {

/// Cutting keeps the first bytes, as many as there are up to the limit.
pub proof fn lemma_truncate(s: Seq<u8>, n: nat)
    ensures
        truncate(s, n).len() == if s.len() > n {
            n
        } else {
            s.len()
        },
        forall|i: int| 0 <= i < truncate(s, n).len() ==> truncate(s, n)[i] == s[i],
{
}

/// A name is listed exactly when it, its newline and one byte more fit in
/// the buffer: with what came before, fewer than `cap` bytes.
pub proof fn lemma_listing_one_more(files: Seq<FileEntry>, e: FileEntry, cap: nat)
    ensures
        listing(files.push(e), cap) == if listing(files, cap).len() + e.name.len() + 2 < cap {
            listing(files, cap) + e.name + seq![10u8]
        } else {
            listing(files, cap)
        },
{
    assert(files.push(e).drop_last() =~= files);
    assert(e.name.push(10u8) =~= e.name + seq![10u8]);
    if listing(files, cap).len() + e.name.len() + 2 < cap {
        assert(listing(files, cap) + e.name.push(10u8) =~= listing(files, cap) + e.name + seq![10u8]);
    }
}

} // verus!
