use reeos::fs::RamDisk;
use reeos::shell::{
    calc_answer, execute_command, line_text, parse_calc_command, parse_command, parse_i32,
    parse_package_command, Builtin, CalcCommand, Command, Effect, Package,
    PackageCommand,
};
use reeos::shell::{apply_builtin_color, builtin_color, color_demo, install_plan, not_found_color};
use reeos::vga_buffer::{get_color, Color, Writer};
use reeos::text::{trim_bytes, trim_nul_bytes, trim_quote_bytes};

#[test]
fn trim_removes_unicode_white_space() {
    assert_eq!(trim_bytes(b"  hi \t\n"), b"hi");
    assert_eq!(trim_bytes("\u{a0}x\u{3000}".as_bytes()), b"x");
    assert_eq!(trim_bytes("\u{2003}\u{85}a b\u{2029}".as_bytes()), b"a b");
    assert_eq!(trim_bytes(b"   "), b"");
    // agrees with str::trim
    for s in ["  a  ", "\u{1680}b\u{200a}", "\u{202f}\u{205f}c\u{2028}", "x\u{b}", "\u{e9} "] {
        assert_eq!(trim_bytes(s.as_bytes()), s.trim().as_bytes());
    }
}

#[test]
fn trim_nul_and_quotes() {
    assert_eq!(trim_nul_bytes(b"ab\0\0"), b"ab");
    assert_eq!(trim_nul_bytes(b"\0a\0"), b"\0a");
    assert_eq!(trim_quote_bytes(b"\"\"hi\""), b"hi");
    assert_eq!(trim_quote_bytes(b"\""), b"");
}

#[test]
fn line_text_cuts_zeros_and_space() {
    let mut buf = [0u8; 256];
    buf[..7].copy_from_slice(b" ls  \0x");
    // the zero inside the line stays: only trailing zeros go
    assert_eq!(line_text(&buf), b"ls  \0x");
    let mut buf2 = [0u8; 256];
    buf2[..4].copy_from_slice(b" ls ");
    assert_eq!(line_text(&buf2), b"ls");
    assert_eq!(line_text(&[0xff, b'l', b's']), b"");
}

#[test]
fn parse_echo_forms() {
    assert_eq!(parse_command(b"echo hello world"), Command::Echo(b"hello world"));
    assert_eq!(
        parse_command(b"  echo \"hi there\" > /f.txt "),
        Command::EchoToFile { text: b"hi there", path: b"/f.txt" }
    );
    assert_eq!(parse_command(b"echo >x"), Command::EchoToFile { text: b"", path: b"x" });
    assert_eq!(parse_command(b"echo a>b>c"), Command::EchoToFile { text: b"a", path: b"b>c" });
    assert_eq!(parse_command(b"echo"), Command::Unknown(b"echo"));
}

#[test]
fn parse_single_words() {
    assert_eq!(parse_command(b"ls"), Command::Builtin(Builtin::Ls));
    assert_eq!(parse_command(b" help "), Command::Builtin(Builtin::Help));
    assert_eq!(parse_command(b"color"), Command::Builtin(Builtin::Color));
    assert_eq!(parse_command(b"exit"), Command::Builtin(Builtin::Exit));
    assert_eq!(parse_command(b"rpm"), Command::Builtin(Builtin::Rpm));
    assert_eq!(parse_command(b"LS"), Command::Unknown(b"LS"));
    assert_eq!(parse_command(b"   "), Command::Empty);
}

#[test]
fn parse_file_commands() {
    assert_eq!(parse_command(b"touch  /a "), Command::Touch(b"/a"));
    assert_eq!(parse_command(b"cat /hello.txt"), Command::Cat(b"/hello.txt"));
    assert_eq!(parse_command(b"rm /x"), Command::Rm(b"/x"));
    assert_eq!(parse_command(b"cat "), Command::Unknown(b"cat"));
}

#[test]
fn parse_wrt_takes_file_then_content() {
    assert_eq!(
        parse_command(b"wrt /f.txt some text "),
        Command::Write { path: b"/f.txt", content: b"some text" }
    );
    assert_eq!(parse_command(b"wrt /f.txt"), Command::WriteUsage);
    assert_eq!(parse_command(b"wrt a"), Command::WriteUsage);
    assert_eq!(parse_command(b"wrt /a x  y"), Command::Write { path: b"/a", content: b"x  y" });
}

#[test]
fn execute_wrt_writes_the_named_file() {
    let mut disk = RamDisk::new();
    let (c, e) = execute_command(&mut disk, b"wrt /a.txt hello");
    assert_eq!(c, Command::Write { path: b"/a.txt", content: b"hello" });
    assert_eq!(e, Effect::Saved(true));
    assert_eq!(disk.read(b"/a.txt"), Some(&b"hello"[..]));
    assert_eq!(reeos::fs::count_files(&disk), 3);
}

#[test]
fn execute_writes_reads_and_deletes() {
    let mut disk = RamDisk::new();
    let (c, e) = execute_command(&mut disk, b"echo \"note\" > /n");
    assert_eq!(c, Command::EchoToFile { text: b"note", path: b"/n" });
    assert_eq!(e, Effect::Saved(true));
    let (_, e) = execute_command(&mut disk, b"cat /n");
    assert_eq!(e, Effect::Contents(Some(b"note".to_vec())));
    let (_, e) = execute_command(&mut disk, b"mem");
    assert_eq!(e, Effect::FileCount(3));
    let (_, e) = execute_command(&mut disk, b"rm /n");
    assert_eq!(e, Effect::Removed(true));
    let (_, e) = execute_command(&mut disk, b"rm /n");
    assert_eq!(e, Effect::Removed(false));
    let (_, e) = execute_command(&mut disk, b"cat /n");
    assert_eq!(e, Effect::Contents(None));
}

#[test]
fn execute_touch_and_wrt() {
    let mut disk = RamDisk::new();
    let (_, e) = execute_command(&mut disk, b"touch /t");
    assert_eq!(e, Effect::Saved(true));
    assert_eq!(disk.read(b"/t"), Some(&b""[..]));
    let (_, e) = execute_command(&mut disk, b"wrt /t hello");
    assert_eq!(e, Effect::Saved(true));
    assert_eq!(disk.read(b"/t"), Some(&b"hello"[..]));
}

#[test]
fn execute_ls_lists_names() {
    let mut disk = RamDisk::new();
    let (c, e) = execute_command(&mut disk, b"ls");
    assert_eq!(c, Command::Builtin(Builtin::Ls));
    assert_eq!(e, Effect::Listing(b"/readme.txt\n/hello.txt\n".to_vec()));
    let (_, e) = execute_command(&mut disk, b"hello");
    assert_eq!(e, Effect::Nothing);
}

#[test]
fn disk_full_refuses_echo() {
    let mut disk = RamDisk::new();
    for i in 0..14u8 {
        let name = [b'/', b'a' + i];
        assert!(disk.create(&name, b"x"));
    }
    let (_, e) = execute_command(&mut disk, b"echo x > /new");
    assert_eq!(e, Effect::Saved(false));
}

#[test]
fn package_commands() {
    assert_eq!(parse_package_command(b"exit"), PackageCommand::Exit);
    assert_eq!(parse_package_command(b"list"), PackageCommand::List);
    assert_eq!(parse_package_command(b"install game"), PackageCommand::Install(Package::Game));
    assert_eq!(parse_package_command(b"install editor"), PackageCommand::Install(Package::Editor));
    assert_eq!(parse_package_command(b"install vim"), PackageCommand::NotFound(b"vim"));
    assert_eq!(parse_package_command(b"install "), PackageCommand::NotFound(b""));
    assert_eq!(parse_package_command(b""), PackageCommand::Empty);
    assert_eq!(parse_package_command(b"lis"), PackageCommand::Unknown(b"lis"));
}

#[test]
fn i32_parsing_matches_from_str() {
    for s in ["0", "42", "+7", "-13", "2147483647", "-2147483648", "2147483648", "-", "+", "", "1 2", "12a", "007", "-0"] {
        assert_eq!(parse_i32(s.as_bytes()), s.parse::<i32>().ok(), "{}", s);
    }
}

#[test]
fn calculator_commands() {
    assert_eq!(parse_calc_command(b"2=2"), CalcCommand::Add(2, 2));
    assert_eq!(parse_calc_command(b"10-5"), CalcCommand::Sub(10, 5));
    assert_eq!(parse_calc_command(b" 3 = x"), CalcCommand::Add(3, 0));
    assert_eq!(parse_calc_command(b"-5-3"), CalcCommand::Sub(0, 0));
    assert_eq!(parse_calc_command(b"1=-1"), CalcCommand::Add(1, -1));
    assert_eq!(parse_calc_command(b"exit"), CalcCommand::Exit);
    assert_eq!(parse_calc_command(b""), CalcCommand::Empty);
    assert_eq!(parse_calc_command(b"2*3"), CalcCommand::Usage);
    assert_eq!(calc_answer(CalcCommand::Add(2, 2)), Some(4));
    assert_eq!(calc_answer(CalcCommand::Sub(10, 5)), Some(5));
    assert_eq!(calc_answer(CalcCommand::Add(i32::MAX, 1)), None);
    assert_eq!(calc_answer(CalcCommand::Sub(i32::MIN, 1)), None);
    assert_eq!(calc_answer(CalcCommand::Usage), None);
}

#[test]
fn color_words_set_their_color() {
    let words = [
        (Builtin::Red, Color::Red),
        (Builtin::Green, Color::Green),
        (Builtin::Blue, Color::Blue),
        (Builtin::Yellow, Color::Yellow),
        (Builtin::Cyan, Color::Cyan),
        (Builtin::Magenta, Color::Magenta),
        (Builtin::White, Color::White),
        (Builtin::Color, Color::White),
        (Builtin::Doc, Color::White),
    ];
    for (word, color) in words {
        assert_eq!(builtin_color(word), Some(color));
        let mut w = Writer::new();
        reeos::vga_buffer::set_color(&mut w, Color::Pink, Color::Blue);
        apply_builtin_color(&mut w, word);
        assert_eq!(get_color(&w), (color, Color::Black));
    }
    assert_eq!(builtin_color(Builtin::Ls), None);
    let mut w = Writer::new();
    reeos::vga_buffer::set_color(&mut w, Color::Pink, Color::Blue);
    apply_builtin_color(&mut w, Builtin::Hello);
    assert_eq!(get_color(&w), (Color::Pink, Color::Blue));
    assert_eq!(color_demo(), [Color::Yellow, Color::Red, Color::Green, Color::Cyan]);
    let mut disk = RamDisk::new();
    let (c, e) = execute_command(&mut disk, b"red");
    assert_eq!(c, Command::Builtin(Builtin::Red));
    assert_eq!(e, Effect::Nothing);
}

#[test]
fn install_plans() {
    let editor = install_plan(Package::Editor);
    assert_eq!((editor.color, editor.animated, editor.name), (Color::Cyan, true, "editor"));
    assert_eq!(editor.hint, Some("Use 'edit' command to launch editor"));
    let game = install_plan(Package::Game);
    assert_eq!((game.color, game.animated, game.name), (Color::Green, false, "snake"));
    assert_eq!(game.hint, Some("Use 'snake' command to play"));
    let calc = install_plan(Package::Calc);
    assert_eq!((calc.color, calc.animated, calc.name, calc.hint), (Color::Yellow, true, "calculator", None));
    let fetch = install_plan(Package::Fetch);
    assert_eq!((fetch.color, fetch.animated, fetch.name, fetch.hint), (Color::Magenta, false, "neofetch", None));
    assert_eq!(not_found_color(), Color::Red);
}

#[test]
fn writing_twice_changes_nothing_more() {
    let mut disk = RamDisk::new();
    assert!(disk.create(b"/t", b"same"));
    let mut first = [0u8; 128];
    let n1 = disk.list(&mut first);
    assert!(disk.create(b"/t", b"same"));
    let mut second = [0u8; 128];
    let n2 = disk.list(&mut second);
    assert_eq!(&first[..n1], &second[..n2]);
    assert_eq!(disk.read(b"/t"), Some(&b"same"[..]));
    assert_eq!(reeos::fs::count_files(&disk), 3);
}
