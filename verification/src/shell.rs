//! The shell: what a typed line asks for, and what it does to the RAM disk.
//! Showing the answers on the screen is left to the caller.

use vstd::prelude::*;
use vstd::string::StringSliceAdditionalSpecFns;
use crate::fs::{
    count_files, create_file, create_result, delete_file, delete_result, lemma_lookup, list_files,
    listing, read_file, read_file_len, read_result, FileEntry, RamDisk, lemma_read_after_create,
    truncate, valid_files, MAX_FILENAME, MAX_FILE_SIZE, MAX_FILES, all_names, names_unique,
    lemma_create_keeps_others, lemma_read_after_delete, lemma_delete_keeps_others,
    lemma_listing_all_fit,
};
use crate::install::decimal;
use crate::vga_buffer::{set_color, Color, ColorCode, Writer, WriterState};
use crate::text::{
    find_byte, has_prefix, lemma_find_byte, position_of, same_bytes, starts_with, str_bytes, trim,
    trim_bytes, trim_end_nul, trim_nul_bytes, trim_quote_bytes, trim_quotes,
};

verus! {

/// The commands that are a single word.
#[derive(Debug, Clone, Copy, PartialEq, Eq, Structural)]
pub enum Builtin {
    Rpm,
    Red,
    Green,
    Blue,
    Yellow,
    Cyan,
    Magenta,
    White,
    Color,
    Help,
    Clear,
    Mem,
    Reboot,
    Doc,
    Calc,
    Hello,
    Ls,
    Exit,
}

/// The single-word command that `c` is, if it is one.
pub open spec fn builtin_named(c: Seq<u8>) -> Option<Builtin> {
    if c == "rpm".spec_bytes() {
        Some(Builtin::Rpm)
    } else if c == "red".spec_bytes() {
        Some(Builtin::Red)
    } else if c == "green".spec_bytes() {
        Some(Builtin::Green)
    } else if c == "blue".spec_bytes() {
        Some(Builtin::Blue)
    } else if c == "yellow".spec_bytes() {
        Some(Builtin::Yellow)
    } else if c == "cyan".spec_bytes() {
        Some(Builtin::Cyan)
    } else if c == "magenta".spec_bytes() {
        Some(Builtin::Magenta)
    } else if c == "white".spec_bytes() {
        Some(Builtin::White)
    } else if c == "color".spec_bytes() {
        Some(Builtin::Color)
    } else if c == "help".spec_bytes() {
        Some(Builtin::Help)
    } else if c == "clear".spec_bytes() {
        Some(Builtin::Clear)
    } else if c == "mem".spec_bytes() {
        Some(Builtin::Mem)
    } else if c == "reboot".spec_bytes() {
        Some(Builtin::Reboot)
    } else if c == "doc".spec_bytes() {
        Some(Builtin::Doc)
    } else if c == "calc".spec_bytes() {
        Some(Builtin::Calc)
    } else if c == "hello".spec_bytes() {
        Some(Builtin::Hello)
    } else if c == "ls".spec_bytes() {
        Some(Builtin::Ls)
    } else if c == "exit".spec_bytes() {
        Some(Builtin::Exit)
    } else {
        None
    }
}

/// The single-word command that `c` is, if it is one.
pub fn builtin(c: &[u8]) -> (b: Option<Builtin>)
    ensures
        b == builtin_named(c@),
{
    if same_bytes(c, str_bytes("rpm")) {
        Some(Builtin::Rpm)
    } else if same_bytes(c, str_bytes("red")) {
        Some(Builtin::Red)
    } else if same_bytes(c, str_bytes("green")) {
        Some(Builtin::Green)
    } else if same_bytes(c, str_bytes("blue")) {
        Some(Builtin::Blue)
    } else if same_bytes(c, str_bytes("yellow")) {
        Some(Builtin::Yellow)
    } else if same_bytes(c, str_bytes("cyan")) {
        Some(Builtin::Cyan)
    } else if same_bytes(c, str_bytes("magenta")) {
        Some(Builtin::Magenta)
    } else if same_bytes(c, str_bytes("white")) {
        Some(Builtin::White)
    } else if same_bytes(c, str_bytes("color")) {
        Some(Builtin::Color)
    } else if same_bytes(c, str_bytes("help")) {
        Some(Builtin::Help)
    } else if same_bytes(c, str_bytes("clear")) {
        Some(Builtin::Clear)
    } else if same_bytes(c, str_bytes("mem")) {
        Some(Builtin::Mem)
    } else if same_bytes(c, str_bytes("reboot")) {
        Some(Builtin::Reboot)
    } else if same_bytes(c, str_bytes("doc")) {
        Some(Builtin::Doc)
    } else if same_bytes(c, str_bytes("calc")) {
        Some(Builtin::Calc)
    } else if same_bytes(c, str_bytes("hello")) {
        Some(Builtin::Hello)
    } else if same_bytes(c, str_bytes("ls")) {
        Some(Builtin::Ls)
    } else if same_bytes(c, str_bytes("exit")) {
        Some(Builtin::Exit)
    } else {
        None
    }
}

/// The color a single-word command leaves the writer printing in, on black:
/// each color word its color; `color`, after showing four colors, and `doc`,
/// after its blue title, white. Other words leave the colors alone.
pub open spec fn builtin_color_of(b: Builtin) -> Option<Color> {
    match b {
        Builtin::Red => Some(Color::Red),
        Builtin::Green => Some(Color::Green),
        Builtin::Blue => Some(Color::Blue),
        Builtin::Yellow => Some(Color::Yellow),
        Builtin::Cyan => Some(Color::Cyan),
        Builtin::Magenta => Some(Color::Magenta),
        Builtin::White => Some(Color::White),
        Builtin::Color => Some(Color::White),
        Builtin::Doc => Some(Color::White),
        _ => None,
    }
}

/// The color a single-word command leaves the writer printing in (see `builtin_color_of`).
pub fn builtin_color(b: Builtin) -> (c: Option<Color>)
    ensures
        c == builtin_color_of(b),
{
    match b {
        Builtin::Red => Some(Color::Red),
        Builtin::Green => Some(Color::Green),
        Builtin::Blue => Some(Color::Blue),
        Builtin::Yellow => Some(Color::Yellow),
        Builtin::Cyan => Some(Color::Cyan),
        Builtin::Magenta => Some(Color::Magenta),
        Builtin::White => Some(Color::White),
        Builtin::Color => Some(Color::White),
        Builtin::Doc => Some(Color::White),
        _ => None,
    }
}

/// Sets the writer to the color a single-word command leaves it in: that
/// color on black, where the command sets one; otherwise nothing changes.
pub fn apply_builtin_color(writer: &mut Writer, b: Builtin)
    requires
        old(writer).wf(),
    ensures
        final(writer).wf(),
        final(writer)@ == match builtin_color_of(b) {
            Some(c) => WriterState { color: ColorCode::new_spec(c, Color::Black), ..old(writer)@ },
            None => old(writer)@,
        },
{
    if let Some(c) = builtin_color(b) {
        set_color(writer, c, Color::Black);
    }
}

/// The colors the `color` command shows a line in, one after another.
pub open spec fn color_demo_colors() -> Seq<Color> {
    seq![Color::Yellow, Color::Red, Color::Green, Color::Cyan]
}

/// The colors the `color` command shows a line in (see `color_demo_colors`).
pub fn color_demo() -> (colors: [Color; 4])
    ensures
        colors@ == color_demo_colors(),
{
    let colors = [Color::Yellow, Color::Red, Color::Green, Color::Cyan];
    assert(colors@ =~= color_demo_colors());
    colors
}

/// What a typed line asks for, as parts of the line.
#[derive(Debug, Clone, Copy, PartialEq, Eq)]
pub enum Command<'a> {
    /// `echo text`: show the text.
    Echo(&'a [u8]),
    /// `echo text > path`: write the text into a file.
    EchoToFile { text: &'a [u8], path: &'a [u8] },
    /// One of the single-word commands.
    Builtin(Builtin),
    /// `touch path`: create an empty file, or empty an existing one.
    Touch(&'a [u8]),
    /// `wrt` with a path and contents: write the contents into the file.
    Write { path: &'a [u8], content: &'a [u8] },
    /// `wrt` without a space after the path.
    WriteUsage,
    /// `cat path`: show a file.
    Cat(&'a [u8]),
    /// `rm path`: delete a file.
    Rm(&'a [u8]),
    /// A line of nothing but white space.
    Empty,
    /// Anything else: the line, trimmed.
    Unknown(&'a [u8]),
}

/// What a typed line asks for, over byte sequences.
pub ghost enum CommandView {
    Echo(Seq<u8>),
    EchoToFile { text: Seq<u8>, path: Seq<u8> },
    Builtin(Builtin),
    Touch(Seq<u8>),
    Write { path: Seq<u8>, content: Seq<u8> },
    WriteUsage,
    Cat(Seq<u8>),
    Rm(Seq<u8>),
    Empty,
    Unknown(Seq<u8>),
}

impl<'a> View for Command<'a> {
    type V = CommandView;

    open spec fn view(&self) -> CommandView {
        match *self {
            Command::Echo(t) => CommandView::Echo(t@),
            Command::EchoToFile { text, path } => CommandView::EchoToFile { text: text@, path: path@ },
            Command::Builtin(b) => CommandView::Builtin(b),
            Command::Touch(p) => CommandView::Touch(p@),
            Command::Write { path, content } => CommandView::Write { path: path@, content: content@ },
            Command::WriteUsage => CommandView::WriteUsage,
            Command::Cat(p) => CommandView::Cat(p@),
            Command::Rm(p) => CommandView::Rm(p@),
            Command::Empty => CommandView::Empty,
            Command::Unknown(c) => CommandView::Unknown(c@),
        }
    }
}

/// What the line `cmd` asks for. The line is trimmed of white space first.
/// `echo ` and what follows is shown, unless it holds a `>`: then the part
/// before the `>`, trimmed and without the double quotes at its ends, is
/// written into the file named by the part after it, trimmed. `touch `, `cat `
/// and `rm ` take the rest of the line, trimmed, as a path. `wrt ` takes what
/// follows it: up to its first space the path, after it, trimmed, the
/// contents (`wrt <file> <content>`).
pub open spec fn command_of(cmd: Seq<u8>) -> CommandView {
    let c = trim(cmd);
    if starts_with(c, "echo ".spec_bytes()) {
        let rest = c.skip("echo ".spec_bytes().len() as int);
        match find_byte(rest, 62) {
            Some(p) => CommandView::EchoToFile {
                text: trim_quotes(trim(rest.take(p))),
                path: trim(rest.skip(p + 1)),
            },
            None => CommandView::Echo(rest),
        }
    } else if builtin_named(c) is Some {
        CommandView::Builtin(builtin_named(c).unwrap())
    } else if starts_with(c, "touch ".spec_bytes()) {
        CommandView::Touch(trim(c.skip("touch ".spec_bytes().len() as int)))
    } else if starts_with(c, "wrt ".spec_bytes()) {
        let rest = c.skip("wrt ".spec_bytes().len() as int);
        match find_byte(rest, 32) {
            Some(sp) => CommandView::Write { path: rest.take(sp), content: trim(rest.skip(sp + 1)) },
            None => CommandView::WriteUsage,
        }
    } else if starts_with(c, "cat ".spec_bytes()) {
        CommandView::Cat(trim(c.skip("cat ".spec_bytes().len() as int)))
    } else if starts_with(c, "rm ".spec_bytes()) {
        CommandView::Rm(trim(c.skip("rm ".spec_bytes().len() as int)))
    } else if c.len() == 0 {
        CommandView::Empty
    } else {
        CommandView::Unknown(c)
    }
}

/// The part of `s` from byte `i` on.
fn tail(s: &[u8], i: usize) -> (t: &[u8])
    requires
        i <= s@.len(),
    ensures
        t@ == s@.skip(i as int),
{
    let t = &s[i..s.len()];
    assert(t@ =~= s@.skip(i as int));
    t
}

/// The first `i` bytes of `s`.
fn head(s: &[u8], i: usize) -> (h: &[u8])
    requires
        i <= s@.len(),
    ensures
        h@ == s@.take(i as int),
{
    let h = &s[0..i];
    assert(h@ =~= s@.take(i as int));
    h
}

/// What the line `cmd` asks for (see `command_of`).
pub fn parse_command<'a>(cmd: &'a [u8]) -> (c: Command<'a>)
    ensures
        c@ == command_of(cmd@),
{
    let c = trim_bytes(cmd);
    let echo = str_bytes("echo ");
    if has_prefix(c, echo) {
        let rest = tail(c, echo.len());
        return match position_of(rest, 62) {
            Some(p) => {
                proof {
                    lemma_find_byte(rest@, 62);
                }
                let text = trim_quote_bytes(trim_bytes(head(rest, p)));
                let path = trim_bytes(tail(rest, p + 1));
                Command::EchoToFile { text, path }
            },
            None => Command::Echo(rest),
        };
    }
    if let Some(b) = builtin(c) {
        return Command::Builtin(b);
    }
    let touch = str_bytes("touch ");
    if has_prefix(c, touch) {
        return Command::Touch(trim_bytes(tail(c, touch.len())));
    }
    let wrt = str_bytes("wrt ");
    if has_prefix(c, wrt) {
        let rest = tail(c, wrt.len());
        return match position_of(rest, 32) {
            Some(sp) => {
                proof {
                    lemma_find_byte(rest@, 32);
                }
                Command::Write { path: head(rest, sp), content: trim_bytes(tail(rest, sp + 1)) }
            },
            None => Command::WriteUsage,
        };
    }
    let cat = str_bytes("cat ");
    if has_prefix(c, cat) {
        return Command::Cat(trim_bytes(tail(c, cat.len())));
    }
    let rm = str_bytes("rm ");
    if has_prefix(c, rm) {
        return Command::Rm(trim_bytes(tail(c, rm.len())));
    }
    if c.len() == 0 {
        Command::Empty
    } else {
        Command::Unknown(c)
    }
}

} // verus!

verus! {

/// The text of a typed line, as `str::from_utf8` reads the line's bytes:
/// present exactly when the bytes are valid UTF-8, and then made of them.
#[verifier::external_body]
fn utf8_text(bytes: &[u8]) -> (text: Option<&str>)
    ensures
        text is Some <==> vstd::utf8::valid_utf8(bytes@),
        text matches Some(t) ==> t.spec_bytes() == bytes@,
{
    core::str::from_utf8(bytes).ok()
}

/// The command in a line buffer: empty where the buffer is not valid UTF-8,
/// else the buffer without its trailing zero bytes and trimmed of white space.
pub open spec fn line_command(input: Seq<u8>) -> Seq<u8> {
    if vstd::utf8::valid_utf8(input) {
        trim(trim_end_nul(input))
    } else {
        Seq::empty()
    }
}

/// The command in a line buffer (see `line_command`).
pub fn line_text(input: &[u8]) -> (cmd: &[u8])
    ensures
        cmd@ == line_command(input@),
{
    match utf8_text(input) {
        Some(t) => trim_bytes(trim_nul_bytes(str_bytes(t))),
        None => {
            let empty = head(input, 0);
            assert(empty@ =~= Seq::<u8>::empty());
            empty
        },
    }
}

/// What a command did to the disk, or found on it.
#[derive(Debug, PartialEq, Eq)]
pub enum Effect {
    /// The command does not use the disk.
    Nothing,
    /// A file was written; whether that succeeded.
    Saved(bool),
    /// A file was deleted; whether there was one.
    Removed(bool),
    /// The contents of the file asked for, if there is one.
    Contents(Option<Vec<u8>>),
    /// The listing of the files' names.
    Listing(Vec<u8>),
    /// The number of files.
    FileCount(usize),
}

/// What a command did to the disk, or found on it, over byte sequences.
pub ghost enum EffectView {
    Nothing,
    Saved(bool),
    Removed(bool),
    Contents(Option<Seq<u8>>),
    Listing(Seq<u8>),
    FileCount(nat),
}

impl View for Effect {
    type V = EffectView;

    open spec fn view(&self) -> EffectView {
        match self {
            Effect::Nothing => EffectView::Nothing,
            Effect::Saved(ok) => EffectView::Saved(*ok),
            Effect::Removed(ok) => EffectView::Removed(*ok),
            Effect::Contents(c) => EffectView::Contents(
                match c {
                    Some(v) => Some(v@),
                    None => None,
                },
            ),
            Effect::Listing(l) => EffectView::Listing(l@),
            Effect::FileCount(n) => EffectView::FileCount(*n as nat),
        }
    }
}

/// The size of the buffer the shell lists the files into.
pub const LISTING_BUFFER_SIZE: usize = 512;

/// What a command does to the files, and what it finds: `echo` with a `>`,
/// `touch` and `wrt` write a file (`touch` an empty one), `rm` deletes one,
/// `cat` reads one, `ls` lists the names into a buffer of
/// `LISTING_BUFFER_SIZE` bytes, `mem` counts the files.
pub open spec fn effect_of(files: Seq<FileEntry>, c: CommandView) -> (EffectView, Seq<FileEntry>) {
    match c {
        CommandView::EchoToFile { text, path } => {
            let (after, ok) = create_result(files, path, text);
            (EffectView::Saved(ok), after)
        },
        CommandView::Touch(path) => {
            let (after, ok) = create_result(files, path, Seq::empty());
            (EffectView::Saved(ok), after)
        },
        CommandView::Write { path, content } => {
            let (after, ok) = create_result(files, path, content);
            (EffectView::Saved(ok), after)
        },
        CommandView::Rm(path) => {
            let (after, ok) = delete_result(files, path);
            (EffectView::Removed(ok), after)
        },
        CommandView::Cat(path) => (EffectView::Contents(read_result(files, path)), files),
        CommandView::Builtin(Builtin::Ls) => (
            EffectView::Listing(listing(files, LISTING_BUFFER_SIZE as nat)),
            files,
        ),
        CommandView::Builtin(Builtin::Mem) => (EffectView::FileCount(files.len()), files),
        _ => (EffectView::Nothing, files),
    }
}

/// A file written by `echo text > path` is shown by `cat path` with the text
/// (cut to `MAX_FILE_SIZE` bytes), where the write succeeded and the path is
/// not longer than `MAX_FILENAME` bytes.
pub proof fn lemma_cat_after_echo(files: Seq<FileEntry>, text: Seq<u8>, path: Seq<u8>)
    requires
        valid_files(files),
        path.len() <= MAX_FILENAME,
        effect_of(files, CommandView::EchoToFile { text, path }).0 == EffectView::Saved(true),
    ensures
        effect_of(effect_of(files, CommandView::EchoToFile { text, path }).1, CommandView::Cat(path)).0
            == EffectView::Contents(Some(truncate(text, MAX_FILE_SIZE as nat))),
{
    lemma_read_after_create(files, path, text);
}

/// `cat path` shows what reading `path` gives, or nothing where there is no
/// such file, and leaves the disk as it was.
pub proof fn lemma_cat_reads(files: Seq<FileEntry>, cmd: Seq<u8>, path: Seq<u8>)
    requires
        command_of(cmd) == CommandView::Cat(path),
    ensures
        effect_of(files, command_of(cmd)) == (EffectView::Contents(read_result(files, path)), files),
{
}

/// A copy of `s`.
fn copy_bytes(s: &[u8]) -> (v: Vec<u8>)
    ensures
        v@ == s@,
{
    let mut v: Vec<u8> = Vec::new();
    let mut i: usize = 0;
    while i < s.len()
        invariant
            i <= s@.len(),
            v@ == s@.take(i as int),
        decreases s@.len() - i,
    {
        v.push(s[i]);
        i = i + 1;
        assert(v@ =~= s@.take(i as int));
    }
    assert(s@.take(i as int) =~= s@);
    v
}

/// Carries out the command in the line `cmd` on the disk: returns what the
/// line asks for and what it did to the disk or found on it.
pub fn execute_command<'a>(disk: &mut RamDisk, cmd: &'a [u8]) -> (r: (Command<'a>, Effect))
    requires
        old(disk).wf(),
    ensures
        final(disk).wf(),
        r.0@ == command_of(cmd@),
        (r.1@, final(disk)@) == effect_of(old(disk)@, command_of(cmd@)),
{
    let c = parse_command(cmd);
    let effect = match c {
        Command::EchoToFile { text, path } => Effect::Saved(create_file(disk, path, text)),
        Command::Touch(path) => {
            let nothing = head(path, 0);
            assert(nothing@ =~= Seq::<u8>::empty());
            Effect::Saved(create_file(disk, path, nothing))
        },
        Command::Write { path, content } => Effect::Saved(create_file(disk, path, content)),
        Command::Rm(path) => Effect::Removed(delete_file(disk, path)),
        Command::Cat(path) => {
            match read_file(disk, path) {
                Some(data) => match read_file_len(disk, path) {
                    Some(len) => {
                        proof {
                            lemma_lookup(disk@, path@);
                        }
                        let shown = head(data.as_slice(), len);
                        assert(shown@ =~= read_result(disk@, path@).unwrap());
                        Effect::Contents(Some(copy_bytes(shown)))
                    },
                    None => Effect::Contents(None),
                },
                None => Effect::Contents(None),
            }
        },
        Command::Builtin(Builtin::Ls) => {
            let mut buffer = [0u8; LISTING_BUFFER_SIZE];
            let len = list_files(disk, &mut buffer);
            let listed = head(buffer.as_slice(), len);
            assert(listed@ =~= listing(disk@, LISTING_BUFFER_SIZE as nat));
            Effect::Listing(copy_bytes(listed))
        },
        Command::Builtin(Builtin::Mem) => Effect::FileCount(count_files(disk)),
        _ => Effect::Nothing,
    };
    (c, effect)
}

} // verus!

verus! {

/// The packages the package manager offers.
#[derive(Debug, Clone, Copy, PartialEq, Eq, Structural)]
pub enum Package {
    Editor,
    Game,
    Calc,
    Fetch,
}

/// What a line typed at the package manager's prompt asks for.
#[derive(Debug, Clone, Copy, PartialEq, Eq)]
pub enum PackageCommand<'a> {
    /// `exit`: leave the package manager.
    Exit,
    /// `list`: show the packages.
    List,
    /// `install` and a package that is offered.
    Install(Package),
    /// `install` and a name that no package has.
    NotFound(&'a [u8]),
    /// An empty line.
    Empty,
    /// Anything else.
    Unknown(&'a [u8]),
}

/// What a line at the package manager's prompt asks for, over byte sequences.
pub ghost enum PackageCommandView {
    Exit,
    List,
    Install(Package),
    NotFound(Seq<u8>),
    Empty,
    Unknown(Seq<u8>),
}

impl<'a> View for PackageCommand<'a> {
    type V = PackageCommandView;

    open spec fn view(&self) -> PackageCommandView {
        match *self {
            PackageCommand::Exit => PackageCommandView::Exit,
            PackageCommand::List => PackageCommandView::List,
            PackageCommand::Install(p) => PackageCommandView::Install(p),
            PackageCommand::NotFound(n) => PackageCommandView::NotFound(n@),
            PackageCommand::Empty => PackageCommandView::Empty,
            PackageCommand::Unknown(c) => PackageCommandView::Unknown(c@),
        }
    }
}

/// How a package is installed: the color the installer prints in, whether it
/// shows the animated progress bar (else the plain download steps), the name
/// it installs under, and the hint shown afterwards, if any.
#[derive(Debug, Clone, Copy, PartialEq, Eq)]
pub struct InstallPlan {
    pub color: Color,
    pub animated: bool,
    pub name: &'static str,
    pub hint: Option<&'static str>,
}

/// Whether `plan` is how package `p` is installed: the editor in cyan with
/// the animated bar, as "editor", hinting at `edit`; the game in green with the
/// plain steps, as "snake", hinting at `snake`; the calculator in yellow with
/// the animated bar, as "calculator"; fetch in magenta with the plain steps,
/// as "neofetch". The color is reset to white on black afterwards.
pub open spec fn is_install_plan(p: Package, plan: InstallPlan) -> bool {
    match p {
        Package::Editor => plan.color == Color::Cyan && plan.animated && plan.name@ == "editor"@
            && (plan.hint matches Some(h) && h@ == "Use 'edit' command to launch editor"@),
        Package::Game => plan.color == Color::Green && !plan.animated && plan.name@ == "snake"@ && (
        plan.hint matches Some(h) && h@ == "Use 'snake' command to play"@),
        Package::Calc => plan.color == Color::Yellow && plan.animated && plan.name@ == "calculator"@
            && plan.hint is None,
        Package::Fetch => plan.color == Color::Magenta && !plan.animated && plan.name@ == "neofetch"@
            && plan.hint is None,
    }
}

/// How package `p` is installed (see `is_install_plan`).
pub fn install_plan(p: Package) -> (plan: InstallPlan)
    ensures
        is_install_plan(p, plan),
{
    match p {
        Package::Editor => InstallPlan {
            color: Color::Cyan,
            animated: true,
            name: "editor",
            hint: Some("Use 'edit' command to launch editor"),
        },
        Package::Game => InstallPlan {
            color: Color::Green,
            animated: false,
            name: "snake",
            hint: Some("Use 'snake' command to play"),
        },
        Package::Calc => InstallPlan { color: Color::Yellow, animated: true, name: "calculator", hint: None },
        Package::Fetch => InstallPlan { color: Color::Magenta, animated: false, name: "neofetch", hint: None },
    }
}

/// The color the package manager reports a package it does not offer in,
/// before it resets the color to white on black.
pub fn not_found_color() -> (c: Color)
    ensures
        c == Color::Red,
{
    Color::Red
}

/// The package named `name`, if one is offered.
pub open spec fn package_named(name: Seq<u8>) -> Option<Package> {
    if name == "editor".spec_bytes() {
        Some(Package::Editor)
    } else if name == "game".spec_bytes() {
        Some(Package::Game)
    } else if name == "calc".spec_bytes() {
        Some(Package::Calc)
    } else if name == "fetch".spec_bytes() {
        Some(Package::Fetch)
    } else {
        None
    }
}

/// What the command `cmd` (a line as `line_text` gives it) asks of the
/// package manager: `exit`, `list`, or `install ` followed by a name.
pub open spec fn package_command_of(cmd: Seq<u8>) -> PackageCommandView {
    if cmd == "exit".spec_bytes() {
        PackageCommandView::Exit
    } else if cmd == "list".spec_bytes() {
        PackageCommandView::List
    } else if starts_with(cmd, "install ".spec_bytes()) {
        let name = cmd.skip("install ".spec_bytes().len() as int);
        match package_named(name) {
            Some(p) => PackageCommandView::Install(p),
            None => PackageCommandView::NotFound(name),
        }
    } else if cmd.len() == 0 {
        PackageCommandView::Empty
    } else {
        PackageCommandView::Unknown(cmd)
    }
}

/// What `cmd` asks of the package manager (see `package_command_of`).
pub fn parse_package_command<'a>(cmd: &'a [u8]) -> (c: PackageCommand<'a>)
    ensures
        c@ == package_command_of(cmd@),
{
    if same_bytes(cmd, str_bytes("exit")) {
        return PackageCommand::Exit;
    }
    if same_bytes(cmd, str_bytes("list")) {
        return PackageCommand::List;
    }
    let install = str_bytes("install ");
    if has_prefix(cmd, install) {
        let name = tail(cmd, install.len());
        return if same_bytes(name, str_bytes("editor")) {
            PackageCommand::Install(Package::Editor)
        } else if same_bytes(name, str_bytes("game")) {
            PackageCommand::Install(Package::Game)
        } else if same_bytes(name, str_bytes("calc")) {
            PackageCommand::Install(Package::Calc)
        } else if same_bytes(name, str_bytes("fetch")) {
            PackageCommand::Install(Package::Fetch)
        } else {
            PackageCommand::NotFound(name)
        };
    }
    if cmd.len() == 0 {
        PackageCommand::Empty
    } else {
        PackageCommand::Unknown(cmd)
    }
}

/// Whether every byte of `s` is an ASCII digit.
pub open spec fn all_digits(s: Seq<u8>) -> bool {
    forall|i: int| 0 <= i < s.len() ==> 48 <= #[trigger] s[i] <= 57
}

/// The number that the decimal digits `s` write.
pub open spec fn digits_value(s: Seq<u8>) -> int
    decreases s.len(),
{
    if s.len() == 0 {
        0
    } else {
        digits_value(s.drop_last()) * 10 + (s.last() - 48)
    }
}

/// The number `s` writes, as `i32::from_str` reads it: an optional `+` or `-`
/// followed by one or more decimal digits, nothing else, and a value that
/// fits in an `i32`.
pub open spec fn i32_of(s: Seq<u8>) -> Option<i32> {
    let negative = s.len() > 0 && s[0] == 45;
    let digits = if s.len() > 0 && (s[0] == 45 || s[0] == 43) {
        s.skip(1)
    } else {
        s
    };
    let value = if negative {
        -digits_value(digits)
    } else {
        digits_value(digits)
    };
    if digits.len() > 0 && all_digits(digits) && i32::MIN <= value <= i32::MAX {
        Some(value as i32)
    } else {
        None
    }
}

/// The number `s` writes (see `i32_of`).
pub fn parse_i32(s: &[u8]) -> (n: Option<i32>)
    ensures
        n == i32_of(s@),
{
    let negative = s.len() > 0 && s[0] == 45;
    let start: usize = if s.len() > 0 && (s[0] == 45 || s[0] == 43) {
        1
    } else {
        0
    };
    let digits = tail(s, start);
    let ghost spec_digits = if s@.len() > 0 && (s@[0] == 45 || s@[0] == 43) {
        s@.skip(1)
    } else {
        s@
    };
    assert(digits@ =~= spec_digits);
    if digits.len() == 0 {
        return None;
    }
    let limit: i64 = 0x8000_0000;
    let mut value: i64 = 0;
    let mut too_big = false;
    let mut i: usize = 0;
    while i < digits.len()
        invariant
            i <= digits@.len(),
            all_digits(digits@.take(i as int)),
            too_big ==> digits_value(digits@.take(i as int)) > limit,
            !too_big ==> value == digits_value(digits@.take(i as int)) && value <= limit,
            value >= 0,
            limit == 0x8000_0000,
            digits@ == spec_digits,
            spec_digits == (if s@.len() > 0 && (s@[0] == 45 || s@[0] == 43) {
                s@.skip(1)
            } else {
                s@
            }),
        decreases digits@.len() - i,
    {
        let d = digits[i];
        assert(digits@.take(i + 1).drop_last() =~= digits@.take(i as int));
        if d < 48 || d > 57 {
            assert(!all_digits(spec_digits)) by {
                assert(spec_digits[i as int] == d);
            }
            return None;
        }
        if !too_big {
            let next = value * 10 + (d - 48) as i64;
            if next > limit {
                too_big = true;
            } else {
                value = next;
            }
        }
        i = i + 1;
    }
    assert(digits@.take(i as int) =~= digits@);
    if too_big {
        assert(digits_value(spec_digits) > 0x8000_0000);
        return None;
    }
    assert(value == digits_value(spec_digits));
    if negative {
        Some((-value) as i32)
    } else if value <= 0x7fff_ffff {
        Some(value as i32)
    } else {
        None
    }
}

/// What a line typed at the calculator's prompt asks for.
#[derive(Debug, Clone, Copy, PartialEq, Eq, Structural)]
pub enum CalcCommand {
    /// `exit`: leave the calculator.
    Exit,
    /// An empty line.
    Empty,
    /// Two numbers around a `=`: their sum.
    Add(i32, i32),
    /// Two numbers around a `-`: their difference.
    Sub(i32, i32),
    /// Neither sign.
    Usage,
}

/// The number a part of a calculator line stands for: its trimmed text read
/// as an `i32`, or 0 where that fails.
pub open spec fn operand(s: Seq<u8>) -> i32 {
    match i32_of(trim(s)) {
        Some(n) => n,
        None => 0,
    }
}

/// What the command `expr` (a line as `line_text` gives it) asks of the
/// calculator. The first `=` splits the line into two numbers to add; where
/// there is none, the first `-` splits it into two numbers to subtract.
pub open spec fn calc_command_of(expr: Seq<u8>) -> CalcCommand {
    if expr == "exit".spec_bytes() {
        CalcCommand::Exit
    } else if expr.len() == 0 {
        CalcCommand::Empty
    } else {
        match find_byte(expr, 61) {
            Some(p) => CalcCommand::Add(operand(expr.take(p)), operand(expr.skip(p + 1))),
            None => match find_byte(expr, 45) {
                Some(p) => CalcCommand::Sub(operand(expr.take(p)), operand(expr.skip(p + 1))),
                None => CalcCommand::Usage,
            },
        }
    }
}

fn parse_operand(s: &[u8]) -> (n: i32)
    ensures
        n == operand(s@),
{
    match parse_i32(trim_bytes(s)) {
        Some(n) => n,
        None => 0,
    }
}

/// What `expr` asks of the calculator (see `calc_command_of`).
pub fn parse_calc_command(expr: &[u8]) -> (c: CalcCommand)
    ensures
        c == calc_command_of(expr@),
{
    if same_bytes(expr, str_bytes("exit")) {
        return CalcCommand::Exit;
    }
    if expr.len() == 0 {
        return CalcCommand::Empty;
    }
    match position_of(expr, 61) {
        Some(p) => CalcCommand::Add(parse_operand(head(expr, p)), parse_operand(tail(expr, p + 1))),
        None => match position_of(expr, 45) {
            Some(p) => CalcCommand::Sub(
                parse_operand(head(expr, p)),
                parse_operand(tail(expr, p + 1)),
            ),
            None => CalcCommand::Usage,
        },
    }
}

/// The calculator's answer: the sum or difference, where it fits in an `i32`;
/// `None` where it does not (there the arithmetic overflows), or where the
/// command asks for no sum.
pub open spec fn calc_answer_of(c: CalcCommand) -> Option<i32> {
    match c {
        CalcCommand::Add(a, b) => if i32::MIN <= a + b <= i32::MAX {
            Some((a + b) as i32)
        } else {
            None
        },
        CalcCommand::Sub(a, b) => if i32::MIN <= a - b <= i32::MAX {
            Some((a - b) as i32)
        } else {
            None
        },
        _ => None,
    }
}

/// The calculator's answer (see `calc_answer_of`).
pub fn calc_answer(c: CalcCommand) -> (answer: Option<i32>)
    ensures
        answer == calc_answer_of(c),
{
    match c {
        CalcCommand::Add(a, b) => {
            let sum = a as i64 + b as i64;
            if -0x8000_0000 <= sum && sum <= 0x7fff_ffff {
                Some(sum as i32)
            } else {
                None
            }
        },
        CalcCommand::Sub(a, b) => {
            let diff = a as i64 - b as i64;
            if -0x8000_0000 <= diff && diff <= 0x7fff_ffff {
                Some(diff as i32)
            } else {
                None
            }
        },
        _ => None,
    }
}

} // verus!

verus! {

/// The bytes of the words the shell and the package manager know.
proof fn lemma_word_bytes()
    ensures
        "rpm".spec_bytes() == seq![114u8, 112u8, 109u8],
        "red".spec_bytes() == seq![114u8, 101u8, 100u8],
        "green".spec_bytes() == seq![103u8, 114u8, 101u8, 101u8, 110u8],
        "blue".spec_bytes() == seq![98u8, 108u8, 117u8, 101u8],
        "yellow".spec_bytes() == seq![121u8, 101u8, 108u8, 108u8, 111u8, 119u8],
        "cyan".spec_bytes() == seq![99u8, 121u8, 97u8, 110u8],
        "magenta".spec_bytes() == seq![109u8, 97u8, 103u8, 101u8, 110u8, 116u8, 97u8],
        "white".spec_bytes() == seq![119u8, 104u8, 105u8, 116u8, 101u8],
        "color".spec_bytes() == seq![99u8, 111u8, 108u8, 111u8, 114u8],
        "help".spec_bytes() == seq![104u8, 101u8, 108u8, 112u8],
        "clear".spec_bytes() == seq![99u8, 108u8, 101u8, 97u8, 114u8],
        "mem".spec_bytes() == seq![109u8, 101u8, 109u8],
        "reboot".spec_bytes() == seq![114u8, 101u8, 98u8, 111u8, 111u8, 116u8],
        "doc".spec_bytes() == seq![100u8, 111u8, 99u8],
        "calc".spec_bytes() == seq![99u8, 97u8, 108u8, 99u8],
        "hello".spec_bytes() == seq![104u8, 101u8, 108u8, 108u8, 111u8],
        "ls".spec_bytes() == seq![108u8, 115u8],
        "exit".spec_bytes() == seq![101u8, 120u8, 105u8, 116u8],
        "editor".spec_bytes() == seq![101u8, 100u8, 105u8, 116u8, 111u8, 114u8],
        "game".spec_bytes() == seq![103u8, 97u8, 109u8, 101u8],
        "fetch".spec_bytes() == seq![102u8, 101u8, 116u8, 99u8, 104u8],
        "list".spec_bytes() == seq![108u8, 105u8, 115u8, 116u8],
        "install ".spec_bytes() == seq![105u8, 110u8, 115u8, 116u8, 97u8, 108u8, 108u8, 32u8],
{
    reveal_strlit("rpm");
    vstd::string::is_ascii_spec_bytes("rpm");
    assert("rpm".spec_bytes() =~= seq![114u8, 112u8, 109u8]);
    reveal_strlit("red");
    vstd::string::is_ascii_spec_bytes("red");
    assert("red".spec_bytes() =~= seq![114u8, 101u8, 100u8]);
    reveal_strlit("green");
    vstd::string::is_ascii_spec_bytes("green");
    assert("green".spec_bytes() =~= seq![103u8, 114u8, 101u8, 101u8, 110u8]);
    reveal_strlit("blue");
    vstd::string::is_ascii_spec_bytes("blue");
    assert("blue".spec_bytes() =~= seq![98u8, 108u8, 117u8, 101u8]);
    reveal_strlit("yellow");
    vstd::string::is_ascii_spec_bytes("yellow");
    assert("yellow".spec_bytes() =~= seq![121u8, 101u8, 108u8, 108u8, 111u8, 119u8]);
    reveal_strlit("cyan");
    vstd::string::is_ascii_spec_bytes("cyan");
    assert("cyan".spec_bytes() =~= seq![99u8, 121u8, 97u8, 110u8]);
    reveal_strlit("magenta");
    vstd::string::is_ascii_spec_bytes("magenta");
    assert("magenta".spec_bytes() =~= seq![109u8, 97u8, 103u8, 101u8, 110u8, 116u8, 97u8]);
    reveal_strlit("white");
    vstd::string::is_ascii_spec_bytes("white");
    assert("white".spec_bytes() =~= seq![119u8, 104u8, 105u8, 116u8, 101u8]);
    reveal_strlit("color");
    vstd::string::is_ascii_spec_bytes("color");
    assert("color".spec_bytes() =~= seq![99u8, 111u8, 108u8, 111u8, 114u8]);
    reveal_strlit("help");
    vstd::string::is_ascii_spec_bytes("help");
    assert("help".spec_bytes() =~= seq![104u8, 101u8, 108u8, 112u8]);
    reveal_strlit("clear");
    vstd::string::is_ascii_spec_bytes("clear");
    assert("clear".spec_bytes() =~= seq![99u8, 108u8, 101u8, 97u8, 114u8]);
    reveal_strlit("mem");
    vstd::string::is_ascii_spec_bytes("mem");
    assert("mem".spec_bytes() =~= seq![109u8, 101u8, 109u8]);
    reveal_strlit("reboot");
    vstd::string::is_ascii_spec_bytes("reboot");
    assert("reboot".spec_bytes() =~= seq![114u8, 101u8, 98u8, 111u8, 111u8, 116u8]);
    reveal_strlit("doc");
    vstd::string::is_ascii_spec_bytes("doc");
    assert("doc".spec_bytes() =~= seq![100u8, 111u8, 99u8]);
    reveal_strlit("calc");
    vstd::string::is_ascii_spec_bytes("calc");
    assert("calc".spec_bytes() =~= seq![99u8, 97u8, 108u8, 99u8]);
    reveal_strlit("hello");
    vstd::string::is_ascii_spec_bytes("hello");
    assert("hello".spec_bytes() =~= seq![104u8, 101u8, 108u8, 108u8, 111u8]);
    reveal_strlit("ls");
    vstd::string::is_ascii_spec_bytes("ls");
    assert("ls".spec_bytes() =~= seq![108u8, 115u8]);
    reveal_strlit("exit");
    vstd::string::is_ascii_spec_bytes("exit");
    assert("exit".spec_bytes() =~= seq![101u8, 120u8, 105u8, 116u8]);
    reveal_strlit("editor");
    vstd::string::is_ascii_spec_bytes("editor");
    assert("editor".spec_bytes() =~= seq![101u8, 100u8, 105u8, 116u8, 111u8, 114u8]);
    reveal_strlit("game");
    vstd::string::is_ascii_spec_bytes("game");
    assert("game".spec_bytes() =~= seq![103u8, 97u8, 109u8, 101u8]);
    reveal_strlit("fetch");
    vstd::string::is_ascii_spec_bytes("fetch");
    assert("fetch".spec_bytes() =~= seq![102u8, 101u8, 116u8, 99u8, 104u8]);
    reveal_strlit("list");
    vstd::string::is_ascii_spec_bytes("list");
    assert("list".spec_bytes() =~= seq![108u8, 105u8, 115u8, 116u8]);
    reveal_strlit("install ");
    vstd::string::is_ascii_spec_bytes("install ");
    assert("install ".spec_bytes() =~= seq![105u8, 110u8, 115u8, 116u8, 97u8, 108u8, 108u8, 32u8]);
}

/// The word that names each single-word command.
pub open spec fn builtin_name(b: Builtin) -> Seq<u8> {
    match b {
        Builtin::Rpm => "rpm".spec_bytes(),
        Builtin::Red => "red".spec_bytes(),
        Builtin::Green => "green".spec_bytes(),
        Builtin::Blue => "blue".spec_bytes(),
        Builtin::Yellow => "yellow".spec_bytes(),
        Builtin::Cyan => "cyan".spec_bytes(),
        Builtin::Magenta => "magenta".spec_bytes(),
        Builtin::White => "white".spec_bytes(),
        Builtin::Color => "color".spec_bytes(),
        Builtin::Help => "help".spec_bytes(),
        Builtin::Clear => "clear".spec_bytes(),
        Builtin::Mem => "mem".spec_bytes(),
        Builtin::Reboot => "reboot".spec_bytes(),
        Builtin::Doc => "doc".spec_bytes(),
        Builtin::Calc => "calc".spec_bytes(),
        Builtin::Hello => "hello".spec_bytes(),
        Builtin::Ls => "ls".spec_bytes(),
        Builtin::Exit => "exit".spec_bytes(),
    }
}

/// Each single-word command is the command of its own word, and of no other
/// line: the word table is one to one, word for command.
pub proof fn lemma_builtin_words(b: Builtin, c: Seq<u8>)
    ensures
        builtin_named(builtin_name(b)) == Some(b),
        builtin_named(c) == Some(b) ==> c == builtin_name(b),
{
    lemma_word_bytes();
}

/// The name of each package.
pub open spec fn package_name(p: Package) -> Seq<u8> {
    match p {
        Package::Editor => "editor".spec_bytes(),
        Package::Game => "game".spec_bytes(),
        Package::Calc => "calc".spec_bytes(),
        Package::Fetch => "fetch".spec_bytes(),
    }
}

/// `install ` followed by a package's name selects that package, and a
/// package is selected by its name alone.
pub proof fn lemma_package_names(p: Package, name: Seq<u8>)
    ensures
        package_named(package_name(p)) == Some(p),
        package_named(name) == Some(p) ==> name == package_name(p),
{
    lemma_word_bytes();
}

} // verus!

verus! {

/// The calculator's answer is the true sum or difference, signed, where that
/// fits in an `i32`, and none where it does not; a difference undoes a sum.
pub proof fn lemma_calc_answer(a: i32, b: i32)
    ensures
        calc_answer_of(CalcCommand::Add(a, b)) matches Some(r) ==> r == a + b,
        calc_answer_of(CalcCommand::Sub(a, b)) matches Some(r) ==> r == a - b,
        calc_answer_of(CalcCommand::Add(a, b)) is None <==> !(i32::MIN <= a + b <= i32::MAX),
        calc_answer_of(CalcCommand::Sub(a, b)) is None <==> !(i32::MIN <= a - b <= i32::MAX),
        calc_answer_of(CalcCommand::Add(a, b)) matches Some(s) ==> calc_answer_of(
            CalcCommand::Sub(s, b),
        ) == Some(a),
        a < b ==> (calc_answer_of(CalcCommand::Sub(a, b)) matches Some(r) ==> r < 0),
        calc_answer_of(CalcCommand::Exit) is None && calc_answer_of(CalcCommand::Empty) is None
            && calc_answer_of(CalcCommand::Usage) is None,
{
}

/// Writing `data` under `path` as a command does: succeeds exactly when the
/// file exists or there is room; then reading `path` gives `data` cut to
/// `MAX_FILE_SIZE` bytes, whatever the file held before; a failed write
/// changes nothing; no other name reads differently.
pub open spec fn writes_as_create(
    files: Seq<FileEntry>,
    path: Seq<u8>,
    data: Seq<u8>,
    effect: EffectView,
    after: Seq<FileEntry>,
) -> bool {
    &&& effect == EffectView::Saved(read_result(files, path) is Some || files.len() < MAX_FILES)
    &&& effect == EffectView::Saved(true) ==> read_result(after, path) == Some(
        truncate(data, MAX_FILE_SIZE as nat),
    )
    &&& effect == EffectView::Saved(false) ==> after == files
    &&& forall|other: Seq<u8>|
        other != path ==> #[trigger] read_result(after, other) == read_result(files, other)
}

proof fn lemma_create_writes(files: Seq<FileEntry>, path: Seq<u8>, data: Seq<u8>)
    requires
        valid_files(files),
        path.len() <= MAX_FILENAME,
    ensures
        writes_as_create(
            files,
            path,
            data,
            EffectView::Saved(create_result(files, path, data).1),
            create_result(files, path, data).0,
        ),
{
    lemma_lookup(files, path);
    if create_result(files, path, data).1 {
        lemma_read_after_create(files, path, data);
    }
    assert forall|other: Seq<u8>| other != path implies #[trigger] read_result(
        create_result(files, path, data).0,
        other,
    ) == read_result(files, other) by {
        lemma_create_keeps_others(files, path, data, other);
    }
}

/// `wrt path content` writes exactly `content` into `path` (see
/// `writes_as_create`), where the path is not longer than `MAX_FILENAME` bytes.
pub proof fn lemma_wrt_writes(files: Seq<FileEntry>, path: Seq<u8>, content: Seq<u8>)
    requires
        valid_files(files),
        path.len() <= MAX_FILENAME,
    ensures
        writes_as_create(
            files,
            path,
            content,
            effect_of(files, CommandView::Write { path, content }).0,
            effect_of(files, CommandView::Write { path, content }).1,
        ),
{
    lemma_create_writes(files, path, content);
}

/// `echo text > path` writes exactly `text` into `path` (see
/// `writes_as_create`), where the path is not longer than `MAX_FILENAME` bytes.
pub proof fn lemma_echo_writes(files: Seq<FileEntry>, text: Seq<u8>, path: Seq<u8>)
    requires
        valid_files(files),
        path.len() <= MAX_FILENAME,
    ensures
        writes_as_create(
            files,
            path,
            text,
            effect_of(files, CommandView::EchoToFile { text, path }).0,
            effect_of(files, CommandView::EchoToFile { text, path }).1,
        ),
{
    lemma_create_writes(files, path, text);
}

/// `touch path` leaves `path` empty (see `writes_as_create`), where the path
/// is not longer than `MAX_FILENAME` bytes.
pub proof fn lemma_touch_empties(files: Seq<FileEntry>, path: Seq<u8>)
    requires
        valid_files(files),
        path.len() <= MAX_FILENAME,
    ensures
        writes_as_create(
            files,
            path,
            Seq::empty(),
            effect_of(files, CommandView::Touch(path)).0,
            effect_of(files, CommandView::Touch(path)).1,
        ),
{
    lemma_create_writes(files, path, Seq::empty());
}

/// `rm path` reports whether there was such a file, leaves none behind where
/// names are unique, and changes no other name's contents.
pub proof fn lemma_rm_deletes(files: Seq<FileEntry>, path: Seq<u8>, other: Seq<u8>)
    ensures
        effect_of(files, CommandView::Rm(path)).0 == EffectView::Removed(
            read_result(files, path) is Some,
        ),
        names_unique(files) ==> read_result(effect_of(files, CommandView::Rm(path)).1, path) is None,
        other != path ==> read_result(effect_of(files, CommandView::Rm(path)).1, other)
            == read_result(files, other),
{
    lemma_lookup(files, path);
    if names_unique(files) {
        lemma_read_after_delete(files, path);
    }
    if other != path {
        lemma_delete_keeps_others(files, path, other);
    }
}

/// `ls` lists every name followed by a newline, in order, where they fit in
/// the shell's buffer, and changes no file.
pub proof fn lemma_ls_lists(files: Seq<FileEntry>)
    ensures
        effect_of(files, CommandView::Builtin(Builtin::Ls)).1 == files,
        all_names(files).len() + 1 < LISTING_BUFFER_SIZE ==> effect_of(
            files,
            CommandView::Builtin(Builtin::Ls),
        ).0 == EffectView::Listing(all_names(files)),
{
    if all_names(files).len() + 1 < LISTING_BUFFER_SIZE {
        lemma_listing_all_fit(files, LISTING_BUFFER_SIZE as nat);
    }
}

/// Commands that neither write nor delete leave the files as they are.
pub proof fn lemma_reading_commands_keep_files(files: Seq<FileEntry>, c: CommandView)
    requires
        !(c is EchoToFile || c is Touch || c is Write || c is Rm),
    ensures
        effect_of(files, c).1 == files,
        c is Builtin && c->Builtin_0 == Builtin::Mem ==> effect_of(files, c).0 == EffectView::FileCount(
            files.len(),
        ),
{
}

} // verus!

verus! {

/// The parts of a command are where they stand in the trimmed line: a path
/// or text right after the command's word and its space; `wrt`'s path runs to
/// the first space after it and the contents follow; `echo`'s text runs to the
/// first `>` and the path follows it; a single word is the command of that
/// word; an unknown line is kept whole.
pub proof fn lemma_command_parts(cmd: Seq<u8>)
    ensures
        ({
            let c = trim(cmd);
            match command_of(cmd) {
                CommandView::Write { path, content } => {
                    let n = "wrt ".spec_bytes().len() as int;
                    &&& starts_with(c, "wrt ".spec_bytes())
                    &&& n + path.len() < c.len()
                    &&& c.subrange(n, n + path.len()) == path
                    &&& c[n + path.len()] == 32
                    &&& !path.contains(32u8)
                    &&& content == trim(c.skip(n + path.len() + 1))
                },
                CommandView::WriteUsage => {
                    &&& starts_with(c, "wrt ".spec_bytes())
                    &&& !c.skip("wrt ".spec_bytes().len() as int).contains(32u8)
                },
                CommandView::Cat(p) => starts_with(c, "cat ".spec_bytes()) && p == trim(
                    c.skip("cat ".spec_bytes().len() as int),
                ),
                CommandView::Rm(p) => starts_with(c, "rm ".spec_bytes()) && p == trim(
                    c.skip("rm ".spec_bytes().len() as int),
                ),
                CommandView::Touch(p) => starts_with(c, "touch ".spec_bytes()) && p == trim(
                    c.skip("touch ".spec_bytes().len() as int),
                ),
                CommandView::Echo(t) => {
                    &&& c == "echo ".spec_bytes() + t
                    &&& !t.contains(62u8)
                },
                CommandView::EchoToFile { text, path } => {
                    let n = "echo ".spec_bytes().len() as int;
                    &&& starts_with(c, "echo ".spec_bytes())
                    &&& exists|k: int|
                        0 <= k && n + k < c.len() && #[trigger] c[n + k] == 62 && !c.subrange(
                            n,
                            n + k,
                        ).contains(62u8) && text == trim_quotes(trim(c.subrange(n, n + k)))
                            && path == trim(c.skip(n + k + 1))
                },
                CommandView::Builtin(b) => c == builtin_name(b),
                CommandView::Empty => c.len() == 0,
                CommandView::Unknown(u) => u == c && c.len() > 0,
            }
        }),
{
    let c = trim(cmd);
    match builtin_named(c) {
        Some(b) => lemma_builtin_words(b, c),
        None => {},
    }
    if starts_with(c, "echo ".spec_bytes()) {
        let n = "echo ".spec_bytes().len() as int;
        let rest = c.skip(n);
        lemma_find_byte(rest, 62);
        assert(c =~= "echo ".spec_bytes() + rest);
        match find_byte(rest, 62) {
            Some(k) => {
                assert(c.subrange(n, n + k) =~= rest.take(k));
                assert(c.skip(n + k + 1) =~= rest.skip(k + 1));
                assert(c[n + k] == rest[k]);
                assert(!c.subrange(n, n + k).contains(62u8)) by {
                    if c.subrange(n, n + k).contains(62u8) {
                        let j = choose|j: int| 0 <= j < k && #[trigger] c.subrange(n, n + k)[j] == 62;
                        assert(rest[j] == c.subrange(n, n + k)[j]);
                    }
                }
            },
            None => {
                assert(!rest.contains(62u8)) by {
                    if rest.contains(62u8) {
                        let j = choose|j: int| 0 <= j < rest.len() && #[trigger] rest[j] == 62;
                    }
                }
            },
        }
    } else if builtin_named(c) is None && !starts_with(c, "touch ".spec_bytes()) && starts_with(
        c,
        "wrt ".spec_bytes(),
    ) {
        let n = "wrt ".spec_bytes().len() as int;
        let rest = c.skip(n);
        lemma_find_byte(rest, 32);
        match find_byte(rest, 32) {
            Some(sp) => {
                assert(c.subrange(n, n + sp) =~= rest.take(sp));
                assert(c.skip(n + sp + 1) =~= rest.skip(sp + 1));
                assert(c[n + sp] == rest[sp]);
                assert(!rest.take(sp).contains(32u8)) by {
                    if rest.take(sp).contains(32u8) {
                        let j = choose|j: int| 0 <= j < sp && #[trigger] rest.take(sp)[j] == 32;
                        assert(rest[j] == rest.take(sp)[j]);
                    }
                }
            },
            None => {
                assert(!rest.contains(32u8)) by {
                    if rest.contains(32u8) {
                        let j = choose|j: int| 0 <= j < rest.len() && #[trigger] rest[j] == 32;
                    }
                }
            },
        }
    }
}

} // verus!

verus! {

/// `install ` followed by a package's name installs that package; `exit`
/// and `list` are the package manager's other two words.
pub proof fn lemma_package_lines(p: Package)
    ensures
        package_command_of("install ".spec_bytes() + package_name(p)) == PackageCommandView::Install(p),
        package_command_of("exit".spec_bytes()) == PackageCommandView::Exit,
        package_command_of("list".spec_bytes()) == PackageCommandView::List,
{
    lemma_word_bytes();
    let line = "install ".spec_bytes() + package_name(p);
    assert(line.skip(8) =~= package_name(p));
    assert(line.take(8) =~= "install ".spec_bytes());
    lemma_package_names(p, package_name(p));
}

/// The decimal digits of a number are digits, at least one, and read back
/// as the number.
pub proof fn lemma_decimal_reads_back(n: nat)
    ensures
        decimal(n).len() > 0,
        all_digits(decimal(n)),
        digits_value(decimal(n)) == n,
    decreases n,
{
    if n >= 10 {
        lemma_decimal_reads_back(n / 10);
        let d = decimal(n);
        assert(d.drop_last() =~= decimal(n / 10));
        assert(d.last() == (48 + n % 10) as u8);
        assert(d.last() - 48 == n % 10);
        assert(digits_value(d) == digits_value(decimal(n / 10)) * 10 + (d.last() - 48));
        assert((n / 10) * 10 + n % 10 == n);
        assert forall|i: int| 0 <= i < d.len() implies 48 <= #[trigger] d[i] <= 57 by {
            if i < d.len() - 1 {
                assert(d[i] == decimal(n / 10)[i]);
            }
        }
    } else {
        let d = decimal(n);
        assert(d.drop_last() =~= Seq::<u8>::empty());
        assert(d.last() == (48 + n) as u8);
        assert(digits_value(d) == digits_value(d.drop_last()) * 10 + (d.last() - 48));
        assert(digits_value(Seq::<u8>::empty()) == 0);
    }
}

/// Reading a number back from its decimal digits gives the number: without a
/// sign or after `+` for one that is not negative, after `-` for one that is
/// not positive.
pub proof fn lemma_i32_reads_decimal(n: i32)
    ensures
        n >= 0 ==> i32_of(decimal(n as nat)) == Some(n),
        n >= 0 ==> i32_of(seq![43u8] + decimal(n as nat)) == Some(n),
        n <= 0 ==> i32_of(seq![45u8] + decimal((-n) as nat)) == Some(n),
{
    if n >= 0 {
        lemma_decimal_reads_back(n as nat);
        let d = decimal(n as nat);
        assert(48 <= d[0] <= 57);
        assert((seq![43u8] + d).skip(1) =~= d);
    }
    if n <= 0 {
        lemma_decimal_reads_back((-n) as nat);
        let d = decimal((-n) as nat);
        assert((seq![45u8] + d).skip(1) =~= d);
    }
}

/// A byte string of digits is its own trimmed form.
proof fn lemma_trim_digits(s: Seq<u8>)
    requires
        s.len() > 0,
        all_digits(s),
    ensures
        trim(s) == s,
{
    assert(48 <= s[0] <= 57);
    assert(48 <= s[s.len() - 1] <= 57);
    assert(crate::text::leading_space_len(s) == 0);
    assert(crate::text::trim_start(s) == s);
    assert(crate::text::trailing_space_len(s) == 0);
}

/// The first place of `b` in `s`, before which there is none, is what
/// `find_byte` finds.
proof fn lemma_find_byte_at(s: Seq<u8>, b: u8, k: int)
    requires
        0 <= k < s.len(),
        s[k] == b,
        forall|i: int| 0 <= i < k ==> s[i] != b,
    ensures
        find_byte(s, b) == Some(k),
{
    lemma_find_byte(s, b);
    match find_byte(s, b) {
        Some(i) => {
            if i < k {
                assert(s[i] != b);
            } else if i > k {
                assert(s[k] != b);
            }
        },
        None => {
            assert(s[k] != b);
        },
    }
}

/// Two numbers written in decimal around `=` ask the calculator for their
/// sum, in that order; around `-`, for the first minus the second.
pub proof fn lemma_calc_reads_operands(a: i32, b: i32)
    requires
        a >= 0,
        b >= 0,
    ensures
        calc_command_of(decimal(a as nat) + seq![61u8] + decimal(b as nat)) == CalcCommand::Add(a, b),
        calc_command_of(decimal(a as nat) + seq![45u8] + decimal(b as nat)) == CalcCommand::Sub(a, b),
{
    lemma_word_bytes();
    lemma_decimal_reads_back(a as nat);
    lemma_decimal_reads_back(b as nat);
    lemma_i32_reads_decimal(a);
    lemma_i32_reads_decimal(b);
    let da = decimal(a as nat);
    let db = decimal(b as nat);
    lemma_trim_digits(da);
    lemma_trim_digits(db);
    let k = da.len() as int;
    let plus = da + seq![61u8] + db;
    let minus = da + seq![45u8] + db;
    assert(plus[0] == da[0]);
    assert(minus[0] == da[0]);
    assert(plus != "exit".spec_bytes()) by {
        assert("exit".spec_bytes()[0] == 101u8);
    }
    assert(minus != "exit".spec_bytes()) by {
        assert("exit".spec_bytes()[0] == 101u8);
    }
    assert forall|i: int| 0 <= i < k implies plus[i] != 61u8 && minus[i] != 61u8 && minus[i] != 45u8 by {
        assert(plus[i] == da[i]);
        assert(minus[i] == da[i]);
    }
    lemma_find_byte_at(plus, 61u8, k);
    lemma_find_byte_at(minus, 45u8, k);
    lemma_find_byte(minus, 61u8);
    assert forall|i: int| 0 <= i < minus.len() implies minus[i] != 61u8 by {
        if i < k {
            assert(minus[i] == da[i]);
        } else if i > k {
            assert(minus[i] == db[i - k - 1]);
        }
    }
    assert(plus.take(k) =~= da);
    assert(plus.skip(k + 1) =~= db);
    assert(minus.take(k) =~= da);
    assert(minus.skip(k + 1) =~= db);
}

} // verus!

verus! {

/// The word naming a color, for the colors the shell has a word for.
pub open spec fn color_word_bytes(c: Color) -> Option<Seq<u8>> {
    match c {
        Color::Red => Some("red".spec_bytes()),
        Color::Green => Some("green".spec_bytes()),
        Color::Blue => Some("blue".spec_bytes()),
        Color::Yellow => Some("yellow".spec_bytes()),
        Color::Cyan => Some("cyan".spec_bytes()),
        Color::Magenta => Some("magenta".spec_bytes()),
        Color::White => Some("white".spec_bytes()),
        _ => None,
    }
}

/// A color word sets the color it names; `color` and `doc` end on white; a
/// single word that sets no color leaves the writer alone.
pub proof fn lemma_color_words(b: Builtin)
    ensures
        builtin_color_of(b) matches Some(c) ==> (b == Builtin::Color || b == Builtin::Doc
            || color_word_bytes(c) == Some(builtin_name(b))),
        (b == Builtin::Color || b == Builtin::Doc) ==> builtin_color_of(b) == Some(Color::White),
        (forall|c: Color| color_word_bytes(c) != Some(builtin_name(b))) && b != Builtin::Color && b
            != Builtin::Doc ==> builtin_color_of(b) is None,
{
    lemma_word_bytes();
    if (forall|c: Color| color_word_bytes(c) != Some(builtin_name(b))) && b != Builtin::Color && b
        != Builtin::Doc {
        assert(color_word_bytes(Color::Red) != Some(builtin_name(b)));
        assert(color_word_bytes(Color::Green) != Some(builtin_name(b)));
        assert(color_word_bytes(Color::Blue) != Some(builtin_name(b)));
        assert(color_word_bytes(Color::Yellow) != Some(builtin_name(b)));
        assert(color_word_bytes(Color::Cyan) != Some(builtin_name(b)));
        assert(color_word_bytes(Color::Magenta) != Some(builtin_name(b)));
        assert(color_word_bytes(Color::White) != Some(builtin_name(b)));
    }
}

} // verus!
