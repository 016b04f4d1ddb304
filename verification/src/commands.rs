//! What the console's commands do: each typed line is carried out on the
//! VFS and answered with the text the console prints.

use crate::desktop::{decimal, decimal_text};
use crate::files::{canonicalize, mkdir, touch, write_file};
use crate::path::{normalized, normalized_components};
use crate::shell::{command_of, cd_target, parse_command, required_path, split_blank, trim, words, write_args, Command};
use crate::vfs::{error_text, info_paths, name_less, DirEntry, same_paths, sorted_paths, FileSystem, MountInfo, NodeKind, Vfs, VfsError};
use vstd::prelude::*;
use vstd::string::StringExecFns;
use vstd::utf8::{decode_utf8, valid_utf8};

verus! {

/// What the console does besides printing the reply.
#[derive(Clone, Copy, Debug, PartialEq, Eq, Structural)]
pub enum ShellEffect {
    Nothing,
    ClearScreen,
    Reboot,
    Halt,
}

/// What the console's informational commands report, gathered by the
/// caller.
#[derive(Clone, Copy, Debug)]
pub struct ShellFacts {
    pub physical_total: u64,
    pub physical_free: u64,
    pub managed_regions: u64,
    pub heap_total: u64,
    pub heap_free: u64,
    pub screen_width: u64,
    pub screen_height: u64,
    pub recontrol: i32,
}

/// `v` in decimal, with a minus sign when negative.
pub open spec fn signed_text(v: i32) -> Seq<char> {
    if v < 0 {
        "-"@ + decimal_text((-v) as nat)
    } else {
        decimal_text(v as nat)
    }
}

fn signed_decimal(v: i32) -> (r: String)
    ensures
        r@ == signed_text(v),
{
    if v < 0 {
        let magnitude = (-(v as i64)) as u64;
        let mut text = "-".to_owned();
        let digits = decimal(magnitude);
        text.append(digits.as_str());
        text
    } else {
        decimal(v as u64)
    }
}

/// The list of commands.
pub open spec fn help_text() -> Seq<char> {
    "Commands:\n"@ + "  HELP                 show this list\n"@ + "  CLEAR                clear the screen\n"@
        + "  ECHO TEXT            print text\n"@ + "  UNAME / VERSION      kernel information\n"@
        + "  MEM / VIDEO          memory and framebuffer\n"@ + "  PWD / CD PATH        current directory\n"@
        + "  LS [PATH]            list directory\n"@ + "  CAT PATH             read file\n"@
        + "  TOUCH PATH           create empty file\n"@ + "  MKDIR PATH           create directory\n"@
        + "  WRITE PATH TEXT      create/truncate and write\n"@ + "  APPEND PATH TEXT     append to file\n"@
        + "  RM PATH              unlink file/empty directory\n"@ + "  STAT PATH            inode/type/size\n"@
        + "  MOUNTS               mounted filesystems\n"@ + "  RECONTROL            call Recontrol code\n"@
        + "  REBOOT / HALT        reset or stop the VM\n"@
}

fn help() -> (r: String)
    ensures
        r@ == help_text(),
{
    let mut out = "Commands:\n".to_owned();
    out.append("  HELP                 show this list\n");
    out.append("  CLEAR                clear the screen\n");
    out.append("  ECHO TEXT            print text\n");
    out.append("  UNAME / VERSION      kernel information\n");
    out.append("  MEM / VIDEO          memory and framebuffer\n");
    out.append("  PWD / CD PATH        current directory\n");
    out.append("  LS [PATH]            list directory\n");
    out.append("  CAT PATH             read file\n");
    out.append("  TOUCH PATH           create empty file\n");
    out.append("  MKDIR PATH           create directory\n");
    out.append("  WRITE PATH TEXT      create/truncate and write\n");
    out.append("  APPEND PATH TEXT     append to file\n");
    out.append("  RM PATH              unlink file/empty directory\n");
    out.append("  STAT PATH            inode/type/size\n");
    out.append("  MOUNTS               mounted filesystems\n");
    out.append("  RECONTROL            call Recontrol code\n");
    out.append("  REBOOT / HALT        reset or stop the VM\n");
    out
}

/// The memory report: physical memory in MiB, the heap in KiB.
pub open spec fn mem_text(f: ShellFacts) -> Seq<char> {
    "Physical: "@ + decimal_text((f.physical_total / 0x10_0000) as nat) + " MiB total, "@ + decimal_text(
        (f.physical_free / 0x10_0000) as nat,
    ) + " MiB free, "@ + decimal_text(f.managed_regions as nat) + " regions\n"@ + "Heap: "@ + decimal_text(
        (f.heap_total / 1024) as nat,
    ) + " KiB total, "@ + decimal_text((f.heap_free / 1024) as nat) + " KiB free, RW+NX + guards\n"@
}

fn memory(f: &ShellFacts) -> (r: String)
    ensures
        r@ == mem_text(*f),
{
    let mut out = "Physical: ".to_owned();
    out.append(decimal(f.physical_total / 0x10_0000).as_str());
    out.append(" MiB total, ");
    out.append(decimal(f.physical_free / 0x10_0000).as_str());
    out.append(" MiB free, ");
    out.append(decimal(f.managed_regions).as_str());
    out.append(" regions\n");
    out.append("Heap: ");
    out.append(decimal(f.heap_total / 1024).as_str());
    out.append(" KiB total, ");
    out.append(decimal(f.heap_free / 1024).as_str());
    out.append(" KiB free, RW+NX + guards\n");
    out
}

/// The reply of `command` when it fails with `e`.
pub open spec fn error_reply(command: Seq<char>, e: VfsError) -> Seq<char> {
    command + ": "@ + error_text(e) + "\n"@
}

fn vfs_error(command: &str, e: VfsError) -> (r: String)
    ensures
        r@ == error_reply(command@, e),
{
    let mut out = command.to_owned();
    out.append(": ");
    out.append(e.message());
    out.append("\n");
    out
}

/// The reply of a command that needs a path and got none.
pub open spec fn path_required(command: Seq<char>) -> Seq<char> {
    command + ": path required\n"@
}

fn path_missing(command: &str) -> (r: String)
    ensures
        r@ == path_required(command@),
{
    let mut out = command.to_owned();
    out.append(": path required\n");
    out
}

/// The reply of the commands that do not touch files.
pub open spec fn plain_reply(cmd: Command, word: Seq<char>, args: Seq<char>, cwd: Seq<char>, f: ShellFacts) -> Seq<char> {
    match cmd {
        Command::Help => help_text(),
        Command::Echo => args + "\n"@,
        Command::Uname => "Generic 0.1.0 x86_64\n"@,
        Command::Version => "Generic OS kernel 0.1.0\n"@,
        Command::Mem => mem_text(f),
        Command::Video => "Framebuffer: "@ + decimal_text(f.screen_width as nat) + "x"@ + decimal_text(
            f.screen_height as nat,
        ) + " pixels\n"@,
        Command::Recontrol => "Recontrol ABI probe returned "@ + signed_text(f.recontrol) + "\n"@,
        Command::Whoami => "root (kernel console)\n"@,
        Command::Pwd => cwd + "\n"@,
        Command::Reboot => "Rebooting...\n"@,
        Command::Halt => "CPU halted.\n"@,
        Command::Unknown => "generic: unknown command: "@ + word + "\n"@ + "Type HELP for available commands.\n"@,
        _ => Seq::empty(),
    }
}

/// The commands that read or change files.
pub open spec fn touches_files(cmd: Command) -> bool {
    match cmd {
        Command::Cd | Command::Ls | Command::Cat | Command::Touch | Command::Mkdir | Command::Rm | Command::Write
        | Command::Append | Command::Stat | Command::Mounts => true,
        _ => false,
    }
}

/// The commands that change files.
pub open spec fn changes_files(cmd: Command) -> bool {
    match cmd {
        Command::Touch | Command::Mkdir | Command::Rm | Command::Write | Command::Append => true,
        _ => false,
    }
}

/// What the console does besides printing, for `cmd`.
pub open spec fn effect_of(cmd: Command) -> ShellEffect {
    match cmd {
        Command::Clear => ShellEffect::ClearScreen,
        Command::Reboot => ShellEffect::Reboot,
        Command::Halt => ShellEffect::Halt,
        _ => ShellEffect::Nothing,
    }
}

/// The name a file command uses in its messages.
pub open spec fn command_name(cmd: Command) -> Seq<char> {
    match cmd {
        Command::Cd => "cd"@,
        Command::Ls => "ls"@,
        Command::Cat => "cat"@,
        Command::Touch => "touch"@,
        Command::Mkdir => "mkdir"@,
        Command::Rm => "rm"@,
        Command::Write => "write"@,
        Command::Append => "append"@,
        _ => "stat"@,
    }
}

/// The path text a file command works on, when its arguments give one.
pub open spec fn path_argument(cmd: Command, args: Seq<char>, cwd: Seq<char>) -> Option<Seq<char>> {
    match cmd {
        Command::Cd => Some(if args.len() == 0 { seq!['/'] } else { args }),
        Command::Ls => Some(if args.len() == 0 { cwd } else { args }),
        Command::Write | Command::Append => if args.len() == 0 {
            None
        } else {
            Some(
                match split_blank(args) {
                    Some((path, _)) => path,
                    None => args,
                },
            )
        },
        Command::Mounts => None,
        _ => if trim(args).len() == 0 {
            None
        } else {
            Some(trim(args))
        },
    }
}

/// The reply of WRITE and APPEND without arguments.
pub open spec fn usage_text(append: bool) -> Seq<char> {
    if append {
        "append: usage: APPEND PATH TEXT\n"@
    } else {
        "write: usage: WRITE PATH TEXT\n"@
    }
}

/// Carries out the typed line `input` with `cwd` as the current directory,
/// and gives the text to print and what else the console must do.
///
/// Commands that touch no file reply as `plain_reply` says and leave the
/// VFS and `cwd` alone. A file command that needs a path and has none
/// replies `path_required` (WRITE and APPEND their usage line); one whose
/// path does not normalize replies with that error. Only CD changes `cwd`,
/// and only to the normalized path of a directory; only TOUCH, MKDIR, RM,
/// WRITE and APPEND change the VFS, and keep its mounts.
pub fn execute<F: FileSystem>(vfs: &mut Vfs<F>, cwd: &mut String, input: &str, facts: &ShellFacts) -> (r: (
    String,
    ShellEffect,
))
    requires
        old(vfs).wf(),
    ensures
        final(vfs).wf(),
        ({
            let (word, args) = words(input@);
            let cmd = command_of(word);
            let name = command_name(cmd);
            &&& r.1 == effect_of(cmd)
            &&& !touches_files(cmd) ==> r.0@ == plain_reply(cmd, word, args, old(cwd)@, *facts) && *final(vfs) == *old(vfs) && final(cwd)@ == old(cwd)@
            &&& touches_files(cmd) && !changes_files(cmd) ==> *final(vfs) == *old(vfs)
            &&& cmd != Command::Cd ==> final(cwd)@ == old(cwd)@
            &&& touches_files(cmd) && cmd != Command::Mounts ==> match path_argument(cmd, args, old(cwd)@) {
                None => r.0@ == if cmd == Command::Write || cmd == Command::Append {
                    usage_text(cmd == Command::Append)
                } else {
                    path_required(name)
                } && *final(vfs) == *old(vfs),
                Some(p) => match normalized(old(cwd)@, p) {
                    Err(e) => r.0@ == error_reply(name, e) && *final(vfs) == *old(vfs) && final(cwd)@ == old(cwd)@,
                    Ok(full) => {
                        &&& (cmd == Command::Cd ==> cd_outcome(*old(vfs), old(cwd)@, full, final(cwd)@, r.0@))
                        &&& (cmd == Command::Cat ==> cat_outcome(*old(vfs), full, r.0@))
                        &&& (cmd == Command::Ls ==> ls_outcome(*old(vfs), full, r.0@))
                        &&& changes_files(cmd) ==> final(vfs).mount_points() == old(vfs).mount_points()
                    },
                },
            }
        }),
{
    let (command, word, args) = parse_command(input);
    match command {
        Command::Empty => (String::new(), ShellEffect::Nothing),
        Command::Help => (help(), ShellEffect::Nothing),
        Command::Clear => (String::new(), ShellEffect::ClearScreen),
        Command::Echo => {
            let mut out = args.to_owned();
            out.append("\n");
            (out, ShellEffect::Nothing)
        },
        Command::Uname => ("Generic 0.1.0 x86_64\n".to_owned(), ShellEffect::Nothing),
        Command::Version => ("Generic OS kernel 0.1.0\n".to_owned(), ShellEffect::Nothing),
        Command::Mem => (memory(facts), ShellEffect::Nothing),
        Command::Video => {
            let mut out = "Framebuffer: ".to_owned();
            out.append(decimal(facts.screen_width).as_str());
            out.append("x");
            out.append(decimal(facts.screen_height).as_str());
            out.append(" pixels\n");
            (out, ShellEffect::Nothing)
        },
        Command::Recontrol => {
            let mut out = "Recontrol ABI probe returned ".to_owned();
            out.append(signed_decimal(facts.recontrol).as_str());
            out.append("\n");
            (out, ShellEffect::Nothing)
        },
        Command::Whoami => ("root (kernel console)\n".to_owned(), ShellEffect::Nothing),
        Command::Pwd => {
            let mut out = cwd.as_str().to_owned();
            out.append("\n");
            (out, ShellEffect::Nothing)
        },
        Command::Cd => (change_directory(vfs, cwd, args), ShellEffect::Nothing),
        Command::Ls => (list_directory(vfs, cwd.as_str(), args), ShellEffect::Nothing),
        Command::Cat => (cat_file(vfs, cwd.as_str(), args), ShellEffect::Nothing),
        Command::Touch => (change_file(vfs, cwd.as_str(), args, Command::Touch), ShellEffect::Nothing),
        Command::Mkdir => (change_file(vfs, cwd.as_str(), args, Command::Mkdir), ShellEffect::Nothing),
        Command::Rm => (change_file(vfs, cwd.as_str(), args, Command::Rm), ShellEffect::Nothing),
        Command::Write => (write_command(vfs, cwd.as_str(), args, false), ShellEffect::Nothing),
        Command::Append => (write_command(vfs, cwd.as_str(), args, true), ShellEffect::Nothing),
        Command::Stat => (stat(vfs, cwd.as_str(), args), ShellEffect::Nothing),
        Command::Mounts => (mounts(vfs), ShellEffect::Nothing),
        Command::Reboot => ("Rebooting...\n".to_owned(), ShellEffect::Reboot),
        Command::Halt => ("CPU halted.\n".to_owned(), ShellEffect::Halt),
        Command::Unknown => {
            let mut out = "generic: unknown command: ".to_owned();
            out.append(word);
            out.append("\n");
            out.append("Type HELP for available commands.\n");
            (out, ShellEffect::Nothing)
        },
    }
}


/// The name of the text that `String::from_utf8_lossy` makes of `bytes`.
pub uninterp spec fn lossy_text(bytes: Seq<u8>) -> Seq<char>;

/// `String::from_utf8_lossy`: the text of `bytes` with each invalid
/// sequence replaced by U+FFFD. The contract claims what std documents:
/// valid UTF-8 comes out as the text it encodes; what an invalid sequence
/// becomes is left to the name.
#[verifier::external_body]
fn utf8_lossy(bytes: &[u8]) -> (r: String)
    ensures
        r@ == lossy_text(bytes@),
        valid_utf8(bytes@) ==> r@ == decode_utf8(bytes@),
{
    String::from_utf8_lossy(bytes).into_owned()
}

/// `path` names a directory of `vfs`.
pub open spec fn names_directory<F: FileSystem>(vfs: Vfs<F>, path: Seq<char>) -> bool {
    &&& normalized_components(seq!['/'], path) is Ok
    &&& vfs.resolved(normalized_components(seq!['/'], path)->Ok_0) matches Some(i) && vfs.filesystem_at(
        vfs.served_by(normalized_components(seq!['/'], path)->Ok_0),
    ).node_metadata(i) matches Some(m) && m.kind == NodeKind::Directory
}

/// What CD does with the normalized path `full`: moves to it when it names
/// a directory, replying nothing; otherwise replies why and stays.
pub open spec fn cd_outcome<F: FileSystem>(vfs: Vfs<F>, before: Seq<char>, full: Seq<char>, after: Seq<char>, r: Seq<char>) -> bool {
    match normalized_components(seq!['/'], full) {
        Err(e) => r == error_reply("cd"@, e) && after == before,
        Ok(c) => match vfs.metadata_at(c) {
            Err(e) => r == error_reply("cd"@, e) && after == before,
            Ok(m) => if m.kind == NodeKind::Directory {
                after == full && r.len() == 0 && names_directory(vfs, full)
            } else {
                r == "cd: not a directory\n"@ && after == before
            },
        },
    }
}

/// The line LS prints for `e`: a directory's name and a slash, a file's
/// name, two spaces and its size in bytes.
pub open spec fn ls_line(e: DirEntry) -> Seq<char> {
    match e.metadata.kind {
        NodeKind::Directory => e.name@ + "/\n"@,
        NodeKind::File => e.name@ + "  "@ + decimal_text(e.metadata.len as nat) + " bytes\n"@,
    }
}

/// The lines LS prints for `entries`, in their order.
pub open spec fn ls_text(entries: Seq<DirEntry>) -> Seq<char>
    decreases entries.len(),
{
    if entries.len() == 0 {
        Seq::empty()
    } else {
        ls_text(entries.drop_last()) + ls_line(entries.last())
    }
}

/// What LS replies for the normalized path `full`, when the filesystem
/// serving it states its effects: the path's error, or one line for each
/// child of the directory, in name order, each with its node's metadata.
pub open spec fn ls_outcome<F: FileSystem>(vfs: Vfs<F>, full: Seq<char>, r: Seq<char>) -> bool {
    match normalized_components(seq!['/'], full) {
        Err(e) => r == error_reply("ls"@, e),
        Ok(c) => {
            let fs = vfs.filesystem_at(vfs.served_by(c));
            fs.effects_stated() ==> match vfs.resolution(c) {
                Err(e) => r == error_reply("ls"@, e),
                Ok(dir) => match fs.node_metadata(dir) {
                    None => r == error_reply("ls"@, VfsError::NotFound),
                    Some(m) => if m.kind != NodeKind::Directory {
                        r == error_reply("ls"@, VfsError::NotDirectory)
                    } else {
                        exists|es: Seq<DirEntry>|
                            {
                                &&& r == #[trigger] ls_text(es)
                                &&& forall|k: int|
                                    0 <= k < es.len() ==> fs.child(dir, (#[trigger] es[k]).name@) is Some
                                        && fs.node_metadata(es[k].metadata.inode) == Some(es[k].metadata)
                                &&& forall|n: Seq<char>|
                                    #[trigger] fs.child(dir, n) is Some ==> exists|k: int|
                                        0 <= k < es.len() && (#[trigger] es[k]).name@ == n
                                &&& forall|j: int, k: int|
                                    0 <= j < k < es.len() ==> !name_less(
                                        #[trigger] es[k].name@,
                                        #[trigger] es[j].name@,
                                    )
                            }
                    },
                },
            }
        },
    }
}

/// What CAT replies for the normalized path `full`, when the filesystem
/// serving it states its effects: the file's bytes as text, lossily decoded
/// and ending in a newline, or the error met.
pub open spec fn cat_outcome<F: FileSystem>(vfs: Vfs<F>, full: Seq<char>, r: Seq<char>) -> bool {
    match normalized_components(seq!['/'], full) {
        Err(e) => r == error_reply("cat"@, e),
        Ok(c) => {
            let fs = vfs.filesystem_at(vfs.served_by(c));
            fs.effects_stated() ==> match vfs.metadata_at(c) {
                Err(e) => r == error_reply("cat"@, e),
                Ok(m) => if m.kind == NodeKind::Directory {
                    r == error_reply("cat"@, VfsError::IsDirectory)
                } else if m.len > usize::MAX {
                    r == error_reply("cat"@, VfsError::OffsetOverflow)
                } else {
                    r == with_newline(lossy_text(fs.contents(m.inode)))
                },
            }
        },
    }
}

/// The text CAT prints: `text`, with a newline added when it does not end
/// in one.
pub open spec fn with_newline(text: Seq<char>) -> Seq<char> {
    if text.len() == 0 || text.last() != '\n' {
        text + "\n"@
    } else {
        text
    }
}

/// CD: moves `cwd` to the directory that `args` names (the root without
/// arguments).
fn change_directory<F: FileSystem>(vfs: &Vfs<F>, cwd: &mut String, args: &str) -> (r: String)
    requires
        vfs.wf(),
    ensures
        ({
            let target = if args@.len() == 0 { seq!['/'] } else { args@ };
            match normalized(old(cwd)@, target) {
                Err(e) => r@ == error_reply("cd"@, e) && final(cwd)@ == old(cwd)@,
                Ok(full) => cd_outcome(*vfs, old(cwd)@, full, final(cwd)@, r@),
            }
        }),
{
    let target = cd_target(args);
    let path = match canonicalize(cwd.as_str(), target) {
        Ok(path) => path,
        Err(error) => {
            return vfs_error("cd", error);
        },
    };
    match vfs.metadata(path.as_str()) {
        Ok(metadata) => match metadata.kind {
            NodeKind::Directory => {
                *cwd = path;
                String::new()
            },
            NodeKind::File => {
                let reply = "cd: not a directory\n".to_owned();
                proof {
                    reveal_strlit("cd: not a directory\n");
                }
                reply
            },
        },
        Err(error) => vfs_error("cd", error),
    }
}

/// LS: one line per entry of the directory that `args` names (the current
/// one without arguments): a directory's name and a slash, a file's name
/// and size.
fn list_directory<F: FileSystem>(vfs: &Vfs<F>, cwd: &str, args: &str) -> (r: String)
    requires
        vfs.wf(),
    ensures
        normalized(cwd@, if args@.len() == 0 { cwd@ } else { args@ }) matches Err(e) ==> r@ == error_reply("ls"@, e),
        normalized(cwd@, if args@.len() == 0 { cwd@ } else { args@ }) matches Ok(full) ==> ls_outcome(*vfs, full, r@),
{
    let target = if args.unicode_len() == 0 {
        cwd
    } else {
        args
    };
    let path = match canonicalize(cwd, target) {
        Ok(path) => path,
        Err(error) => {
            return vfs_error("ls", error);
        },
    };
    match vfs.read_dir(path.as_str()) {
        Ok(entries) => {
            let mut out = String::new();
            let mut k: usize = 0;
            while k < entries.len()
                invariant
                    k <= entries@.len(),
                    out@ == ls_text(entries@.take(k as int)),
                decreases entries@.len() - k,
            {
                proof {
                    assert(entries@.take(k + 1).drop_last() =~= entries@.take(k as int));
                }
                let entry = &entries[k];
                out.append(entry.name.as_str());
                match entry.metadata.kind {
                    NodeKind::Directory => {
                        out.append("/\n");
                    },
                    NodeKind::File => {
                        out.append("  ");
                        out.append(decimal(entry.metadata.len).as_str());
                        out.append(" bytes\n");
                    },
                }
                k = k + 1;
            }
            proof {
                assert(entries@.take(entries@.len() as int) =~= entries@);
                if let Ok(c) = normalized_components(seq!['/'], path@) {
                    let fs = vfs.filesystem_at(vfs.served_by(c));
                    if fs.effects_stated() {
                        if let Ok(dir) = vfs.resolution(c) {
                            assert(ls_outcome(*vfs, path@, out@));
                        }
                    }
                }
            }
            out
        },
        Err(error) => vfs_error("ls", error),
    }
}

/// CAT: the text of the file that `args` names, with a newline after it
/// when it does not end in one.
fn cat_file<F: FileSystem>(vfs: &Vfs<F>, cwd: &str, args: &str) -> (r: String)
    requires
        vfs.wf(),
    ensures
        trim(args@).len() == 0 ==> r@ == path_required("cat"@),
        trim(args@).len() > 0 ==> (normalized(cwd@, trim(args@)) matches Err(e) ==> r@ == error_reply("cat"@, e)),
        trim(args@).len() > 0 ==> (normalized(cwd@, trim(args@)) matches Ok(full) ==> cat_outcome(*vfs, full, r@)),
{
    let raw = match required_path(args) {
        Some(raw) => raw,
        None => {
            return path_missing("cat");
        },
    };
    let path = match canonicalize(cwd, raw) {
        Ok(path) => path,
        Err(error) => {
            return vfs_error("cat", error);
        },
    };
    match crate::files::read_file(vfs, path.as_str()) {
        Ok(data) => {
            let mut text = utf8_lossy(data.as_slice());
            let ghost decoded = text@;
            let n = text.as_str().unicode_len();
            if n == 0 || text.as_str().get_char(n - 1) != '\n' {
                text.append("\n");
            }
            assert(text@ == with_newline(decoded));
            text
        },
        Err(error) => vfs_error("cat", error),
    }
}

/// TOUCH, MKDIR and RM on the path that `args` names.
fn change_file<F: FileSystem>(vfs: &mut Vfs<F>, cwd: &str, args: &str, command: Command) -> (r: String)
    requires
        old(vfs).wf(),
        command == Command::Touch || command == Command::Mkdir || command == Command::Rm,
    ensures
        final(vfs).wf(),
        final(vfs).mount_points() == old(vfs).mount_points(),
        trim(args@).len() == 0 ==> r@ == path_required(command_name(command)) && *final(vfs) == *old(vfs),
        trim(args@).len() > 0 ==> (normalized(cwd@, trim(args@)) matches Err(e) ==> r@ == error_reply(
            command_name(command),
            e,
        ) && *final(vfs) == *old(vfs)),
{
    let name = match command {
        Command::Touch => "touch",
        Command::Mkdir => "mkdir",
        _ => "rm",
    };
    proof {
        reveal_strlit("touch");
        reveal_strlit("mkdir");
        reveal_strlit("rm");
        assert(name@ == command_name(command));
    }
    let raw = match required_path(args) {
        Some(raw) => raw,
        None => {
            return path_missing(name);
        },
    };
    let path = match canonicalize(cwd, raw) {
        Ok(path) => path,
        Err(error) => {
            return vfs_error(name, error);
        },
    };
    let result = match command {
        Command::Touch => touch(vfs, path.as_str()),
        Command::Mkdir => mkdir(vfs, path.as_str()),
        _ => vfs.remove(path.as_str()),
    };
    match result {
        Ok(()) => String::new(),
        Err(error) => vfs_error(name, error),
    }
}

/// WRITE and APPEND: the text after the path goes into the file, in place
/// of its contents or after them.
fn write_command<F: FileSystem>(vfs: &mut Vfs<F>, cwd: &str, args: &str, append: bool) -> (r: String)
    requires
        old(vfs).wf(),
    ensures
        final(vfs).wf(),
        final(vfs).mount_points() == old(vfs).mount_points(),
        args@.len() == 0 ==> r@ == usage_text(append) && *final(vfs) == *old(vfs),
        args@.len() > 0 ==> ({
            let path = match split_blank(args@) {
                Some((path, _)) => path,
                None => args@,
            };
            normalized(cwd@, path) matches Err(e) ==> r@ == error_reply(
                if append { "append"@ } else { "write"@ },
                e,
            ) && *final(vfs) == *old(vfs)
        }),
{
    let name = if append {
        "append"
    } else {
        "write"
    };
    if args.unicode_len() == 0 {
        let text = if append {
            "append: usage: APPEND PATH TEXT\n"
        } else {
            "write: usage: WRITE PATH TEXT\n"
        };
        return text.to_owned();
    }
    let (raw_path, text) = write_args(args);
    let path = match canonicalize(cwd, raw_path) {
        Ok(path) => path,
        Err(error) => {
            return vfs_error(name, error);
        },
    };
    match write_file(vfs, path.as_str(), text.as_bytes(), append) {
        Ok(_) => String::new(),
        Err(error) => vfs_error(name, error),
    }
}

/// STAT: the path, inode, kind and size of the node that `args` names.
fn stat<F: FileSystem>(vfs: &Vfs<F>, cwd: &str, args: &str) -> (r: String)
    requires
        vfs.wf(),
    ensures
        trim(args@).len() == 0 ==> r@ == path_required("stat"@),
        trim(args@).len() > 0 ==> (normalized(cwd@, trim(args@)) matches Err(e) ==> r@ == error_reply("stat"@, e)),
{
    let raw = match required_path(args) {
        Some(raw) => raw,
        None => {
            return path_missing("stat");
        },
    };
    let path = match canonicalize(cwd, raw) {
        Ok(path) => path,
        Err(error) => {
            return vfs_error("stat", error);
        },
    };
    match vfs.metadata(path.as_str()) {
        Ok(metadata) => {
            let kind = match metadata.kind {
                NodeKind::File => "file",
                NodeKind::Directory => "directory",
            };
            let mut out = "Path: ".to_owned();
            out.append(path.as_str());
            out.append("\nInode: ");
            out.append(decimal(metadata.inode).as_str());
            out.append("\nType: ");
            out.append(kind);
            out.append("\nSize: ");
            out.append(decimal(metadata.len).as_str());
            out.append(" bytes\n");
            out
        },
        Err(error) => vfs_error("stat", error),
    }
}

/// The lines that list `list`: each mount's filesystem, ` on ` and its path.
pub open spec fn mount_text(list: Seq<MountInfo>) -> Seq<char>
    decreases list.len(),
{
    if list.len() == 0 {
        Seq::empty()
    } else {
        mount_text(list.drop_last()) + list.last().filesystem@ + " on "@ + list.last().path@ + "\n"@
    }
}

/// MOUNTS: one line per mount, its filesystem and its path, in the order of
/// the mounts' paths.
fn mounts<F: FileSystem>(vfs: &Vfs<F>) -> (r: String)
    requires
        vfs.wf(),
    ensures
        exists|list: Seq<MountInfo>|
            {
                &&& list.len() == vfs.mount_count()
                &&& same_paths(info_paths(list), vfs.mount_paths())
                &&& sorted_paths(info_paths(list))
                &&& r@ == #[trigger] mount_text(list)
            },
{
    let list = vfs.mounts();
    let mut out = String::new();
    let mut k: usize = 0;
    while k < list.len()
        invariant
            k <= list@.len(),
            out@ == mount_text(list@.take(k as int)),
        decreases list@.len() - k,
    {
        let mount = &list[k];
        out.append(mount.filesystem);
        out.append(" on ");
        out.append(mount.path.as_str());
        out.append("\n");
        proof {
            assert(list@.take(k + 1).drop_last() =~= list@.take(k as int));
        }
        k = k + 1;
    }
    proof {
        assert(list@.take(list@.len() as int) =~= list@);
    }
    out
}

/// The console's greeting: a title in the accent color, then two lines and
/// a blank one in the usual color.
pub fn banner() -> (r: (String, String))
    ensures
        r.0@ == "GENERIC OS 0.1.0\n"@,
        r.1@ == "Interactive framebuffer console + VFS\n"@ + "Type HELP to list commands.\n"@ + "\n"@,
{
    let title = "GENERIC OS 0.1.0\n".to_owned();
    let mut body = "Interactive framebuffer console + VFS\n".to_owned();
    body.append("Type HELP to list commands.\n");
    body.append("\n");
    (title, body)
}

/// The prompt before each line: the current directory after `generic:`.
pub fn prompt(cwd: &str) -> (r: String)
    ensures
        r@ == "generic:"@ + cwd@ + "# "@,
{
    let mut text = "generic:".to_owned();
    text.append(cwd);
    text.append("# ");
    text
}
} // verus!
