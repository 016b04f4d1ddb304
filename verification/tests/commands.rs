use kernel_core::commands::{execute, ShellEffect, ShellFacts};
use kernel_core::vfs::{RamFs, Vfs};

fn facts() -> ShellFacts {
    ShellFacts {
        physical_total: 512 * 1024 * 1024,
        physical_free: 300 * 1024 * 1024 + 5,
        managed_regions: 3,
        heap_total: 2 * 1024 * 1024,
        heap_free: 1536 * 1024,
        screen_width: 1280,
        screen_height: 800,
        recontrol: 128,
    }
}

fn run(vfs: &mut Vfs<RamFs>, cwd: &mut String, line: &str) -> (String, ShellEffect) {
    execute(vfs, cwd, line, &facts())
}

fn setup() -> (Vfs<RamFs>, String) {
    (Vfs::new(Box::new(RamFs::new())), "/".to_string())
}

#[test]
fn plain_commands_reply() {
    let (mut vfs, mut cwd) = setup();
    assert_eq!(run(&mut vfs, &mut cwd, "   "), (String::new(), ShellEffect::Nothing));
    assert_eq!(run(&mut vfs, &mut cwd, "echo   hello world"), ("hello world\n".to_string(), ShellEffect::Nothing));
    assert_eq!(run(&mut vfs, &mut cwd, "UNAME").0, "Generic 0.1.0 x86_64\n");
    assert_eq!(run(&mut vfs, &mut cwd, "version").0, "Generic OS kernel 0.1.0\n");
    assert_eq!(run(&mut vfs, &mut cwd, "whoami").0, "root (kernel console)\n");
    assert_eq!(run(&mut vfs, &mut cwd, "pwd").0, "/\n");
    assert_eq!(run(&mut vfs, &mut cwd, "video").0, "Framebuffer: 1280x800 pixels\n");
    assert_eq!(run(&mut vfs, &mut cwd, "recontrol").0, "Recontrol ABI probe returned 128\n");
    assert_eq!(
        run(&mut vfs, &mut cwd, "mem").0,
        "Physical: 512 MiB total, 300 MiB free, 3 regions\nHeap: 2048 KiB total, 1536 KiB free, RW+NX + guards\n"
    );
    assert_eq!(
        run(&mut vfs, &mut cwd, "frobnicate now").0,
        "generic: unknown command: frobnicate\nType HELP for available commands.\n"
    );
    assert!(run(&mut vfs, &mut cwd, "help").0.starts_with("Commands:\n  HELP"));
    assert_eq!(run(&mut vfs, &mut cwd, "help").0.lines().count(), 18);
}

#[test]
fn effects_follow_the_command() {
    let (mut vfs, mut cwd) = setup();
    assert_eq!(run(&mut vfs, &mut cwd, "clear"), (String::new(), ShellEffect::ClearScreen));
    assert_eq!(run(&mut vfs, &mut cwd, "reboot"), ("Rebooting...\n".to_string(), ShellEffect::Reboot));
    assert_eq!(run(&mut vfs, &mut cwd, "shutdown"), ("CPU halted.\n".to_string(), ShellEffect::Halt));
    assert_eq!(run(&mut vfs, &mut cwd, "Halt").1, ShellEffect::Halt);
}

#[test]
fn files_are_made_listed_and_read() {
    let (mut vfs, mut cwd) = setup();
    assert_eq!(run(&mut vfs, &mut cwd, "mkdir docs").0, "");
    assert_eq!(run(&mut vfs, &mut cwd, "write docs/a.txt hello there").0, "");
    assert_eq!(run(&mut vfs, &mut cwd, "append docs/a.txt !").0, "");
    assert_eq!(run(&mut vfs, &mut cwd, "cat docs/a.txt").0, "hello there!\n");
    assert_eq!(run(&mut vfs, &mut cwd, "touch docs/b").0, "");
    assert_eq!(run(&mut vfs, &mut cwd, "ls docs").0, "a.txt  12 bytes\nb  0 bytes\n");
    assert_eq!(run(&mut vfs, &mut cwd, "ls").0, "docs/\n");
    assert_eq!(run(&mut vfs, &mut cwd, "cd docs").0, "");
    assert_eq!(cwd, "/docs");
    assert_eq!(run(&mut vfs, &mut cwd, "pwd").0, "/docs\n");
    assert_eq!(run(&mut vfs, &mut cwd, "rm b").0, "");
    assert_eq!(run(&mut vfs, &mut cwd, "ls").0, "a.txt  12 bytes\n");
    assert!(run(&mut vfs, &mut cwd, "stat a.txt").0.starts_with("Path: /docs/a.txt\nInode: "));
    assert!(run(&mut vfs, &mut cwd, "stat a.txt").0.ends_with("\nType: file\nSize: 12 bytes\n"));
    assert_eq!(run(&mut vfs, &mut cwd, "cd").0, "");
    assert_eq!(cwd, "/");
    assert_eq!(run(&mut vfs, &mut cwd, "mounts").0, "ramfs on /\n");
}

#[test]
fn file_commands_report_errors() {
    let (mut vfs, mut cwd) = setup();
    assert_eq!(run(&mut vfs, &mut cwd, "cat").0, "cat: path required\n");
    assert_eq!(run(&mut vfs, &mut cwd, "rm   ").0, "rm: path required\n");
    assert_eq!(run(&mut vfs, &mut cwd, "write").0, "write: usage: WRITE PATH TEXT\n");
    assert_eq!(run(&mut vfs, &mut cwd, "append").0, "append: usage: APPEND PATH TEXT\n");
    assert_eq!(run(&mut vfs, &mut cwd, "cat missing").0, "cat: no such file or directory\n");
    assert_eq!(run(&mut vfs, &mut cwd, "cd nowhere").0, "cd: no such file or directory\n");
    assert_eq!(cwd, "/");
    run(&mut vfs, &mut cwd, "touch f");
    assert_eq!(run(&mut vfs, &mut cwd, "cd f").0, "cd: not a directory\n");
    assert_eq!(run(&mut vfs, &mut cwd, "mkdir f").0, "mkdir: file or directory already exists\n");
    assert_eq!(run(&mut vfs, &mut cwd, "rm /").0, "rm: cannot remove filesystem root\n");
}

#[test]
fn cat_keeps_a_final_newline() {
    let (mut vfs, mut cwd) = setup();
    vfs.create_file("/n").unwrap();
    vfs.write("/n", 0, b"line\n").unwrap();
    assert_eq!(run(&mut vfs, &mut cwd, "cat /n").0, "line\n");
    vfs.create_file("/bad").unwrap();
    vfs.write("/bad", 0, &[0x61, 0xff, 0x62]).unwrap();
    assert_eq!(run(&mut vfs, &mut cwd, "cat /bad").0, "a\u{fffd}b\n");
}

#[test]
fn banner_and_prompt_text() {
    let (title, body) = kernel_core::commands::banner();
    assert_eq!(title, "GENERIC OS 0.1.0\n");
    assert_eq!(body, "Interactive framebuffer console + VFS\nType HELP to list commands.\n\n");
    assert_eq!(kernel_core::commands::prompt("/tmp"), "generic:/tmp# ");
}
