//! The text console's shell: line editing and reading a command line.

use crate::genericfs::str_from_utf8;
use crate::input::Key;
use crate::path::chars_of;
use vstd::prelude::*;
use vstd::string::StrSliceExecFns;
use vstd::utf8::{decode_utf8, valid_utf8};

verus! {

/// The longest line the shell takes, in bytes.
pub const MAX_LINE: usize = 256;

/// What the console does for a key.
#[derive(Clone, Copy, Debug, PartialEq, Eq, Structural)]
pub enum EditAction {
    /// Show the byte typed.
    Echo(u8),
    /// Rub out the last byte shown.
    Erase,
    /// End the line.
    Submit,
    Ignore,
}

/// The line being typed.
pub struct LineEditor {
    line: Vec<u8>,
}

impl LineEditor {
    /// The bytes typed so far.
    pub closed spec fn typed(&self) -> Seq<u8> {
        self.line@
    }

    pub closed spec fn wf(&self) -> bool {
        self.line@.len() <= MAX_LINE
    }

    pub fn new() -> (r: Self)
        ensures
            r.wf(),
            r.typed().len() == 0,
    {
        LineEditor { line: Vec::new() }
    }

    /// Takes a key: a character is added while the line has room, backspace
    /// removes the last one, enter ends the line; other keys do nothing.
    pub fn key(&mut self, key: Key) -> (r: EditAction)
        requires
            old(self).wf(),
        ensures
            final(self).wf(),
            match key {
                Key::Char(byte) => if old(self).typed().len() < MAX_LINE {
                    r == EditAction::Echo(byte) && final(self).typed() == old(self).typed().push(byte)
                } else {
                    r == EditAction::Ignore && final(self).typed() == old(self).typed()
                },
                Key::Backspace => if old(self).typed().len() > 0 {
                    r == EditAction::Erase && final(self).typed() == old(self).typed().drop_last()
                } else {
                    r == EditAction::Ignore && final(self).typed() == old(self).typed()
                },
                Key::Enter => r == EditAction::Submit && final(self).typed() == old(self).typed(),
                _ => r == EditAction::Ignore && final(self).typed() == old(self).typed(),
            },
    {
        match key {
            Key::Char(byte) => {
                if self.line.len() < MAX_LINE {
                    self.line.push(byte);
                    EditAction::Echo(byte)
                } else {
                    EditAction::Ignore
                }
            },
            Key::Backspace => {
                if self.line.len() > 0 {
                    self.line.pop();
                    EditAction::Erase
                } else {
                    EditAction::Ignore
                }
            },
            Key::Enter => EditAction::Submit,
            _ => EditAction::Ignore,
        }
    }

    /// The line typed, leaving the editor empty.
    pub fn take(&mut self) -> (r: Vec<u8>)
        ensures
            r@ == old(self).typed(),
            final(self).wf(),
            final(self).typed().len() == 0,
    {
        let mut line: Vec<u8> = Vec::new();
        std::mem::swap(&mut line, &mut self.line);
        line
    }
}

/// The text of a typed line: its bytes where they are UTF-8, else nothing.
pub fn line_text(bytes: &[u8]) -> (r: &str)
    ensures
        valid_utf8(bytes@) ==> r@ == decode_utf8(bytes@),
        !valid_utf8(bytes@) ==> r@.len() == 0,
{
    match str_from_utf8(bytes) {
        Some(text) => text,
        None => {
            let empty = "";
            proof {
                reveal_strlit("");
            }
            empty
        },
    }
}

/// `c` is white space (the Unicode White_Space property).
pub open spec fn is_space(c: char) -> bool {
    ||| '\u{9}' <= c <= '\u{d}'
    ||| c == ' '
    ||| c == '\u{85}'
    ||| c == '\u{a0}'
    ||| c == '\u{1680}'
    ||| '\u{2000}' <= c <= '\u{200a}'
    ||| c == '\u{2028}'
    ||| c == '\u{2029}'
    ||| c == '\u{202f}'
    ||| c == '\u{205f}'
    ||| c == '\u{3000}'
}

fn space(c: char) -> (r: bool)
    ensures
        r == is_space(c),
{
    ('\u{9}' <= c && c <= '\u{d}') || c == ' ' || c == '\u{85}' || c == '\u{a0}' || c == '\u{1680}' || (
    '\u{2000}' <= c && c <= '\u{200a}') || c == '\u{2028}' || c == '\u{2029}' || c == '\u{202f}' || c
        == '\u{205f}' || c == '\u{3000}'
}

/// The number of white space characters `s` starts with.
pub open spec fn leading_spaces(s: Seq<char>) -> int
    decreases s.len(),
{
    if s.len() == 0 || !is_space(s[0]) {
        0
    } else {
        1 + leading_spaces(s.drop_first())
    }
}

/// The number of white space characters `s` ends with.
pub open spec fn trailing_spaces(s: Seq<char>) -> int
    decreases s.len(),
{
    if s.len() == 0 || !is_space(s.last()) {
        0
    } else {
        1 + trailing_spaces(s.drop_last())
    }
}

/// `s` without the white space it starts with.
pub open spec fn trim_start(s: Seq<char>) -> Seq<char> {
    s.subrange(leading_spaces(s), s.len() as int)
}

/// `s` without white space at either end.
pub open spec fn trim(s: Seq<char>) -> Seq<char> {
    let t = trim_start(s);
    t.subrange(0, t.len() - trailing_spaces(t))
}

proof fn lemma_leading(s: Seq<char>)
    ensures
        0 <= leading_spaces(s) <= s.len(),
        forall|i: int| 0 <= i < leading_spaces(s) ==> is_space(#[trigger] s[i]),
        leading_spaces(s) < s.len() ==> !is_space(s[leading_spaces(s)]),
    decreases s.len(),
{
    if s.len() > 0 && is_space(s[0]) {
        lemma_leading(s.drop_first());
        assert forall|i: int| 0 <= i < leading_spaces(s) implies is_space(#[trigger] s[i]) by {
            if i > 0 {
                assert(s[i] == s.drop_first()[i - 1]);
            }
        }
    }
}

proof fn lemma_trailing(s: Seq<char>)
    ensures
        0 <= trailing_spaces(s) <= s.len(),
        forall|i: int| s.len() - trailing_spaces(s) <= i < s.len() ==> is_space(#[trigger] s[i]),
        trailing_spaces(s) < s.len() ==> !is_space(s[s.len() - 1 - trailing_spaces(s)]),
    decreases s.len(),
{
    if s.len() > 0 && is_space(s.last()) {
        lemma_trailing(s.drop_last());
        assert forall|i: int| s.len() - trailing_spaces(s) <= i < s.len() implies is_space(#[trigger] s[i]) by {
            if i < s.len() - 1 {
                assert(s[i] == s.drop_last()[i]);
            }
        }
        if trailing_spaces(s) < s.len() {
            assert(s[s.len() - 1 - trailing_spaces(s)] == s.drop_last()[s.drop_last().len() - 1
                - trailing_spaces(s.drop_last())]);
        }
    }
}

proof fn lemma_leading_index(s: Seq<char>, k: int)
    requires
        0 <= k <= s.len(),
        forall|i: int| 0 <= i < k ==> is_space(#[trigger] s[i]),
        k < s.len() ==> !is_space(s[k]),
    ensures
        leading_spaces(s) == k,
    decreases s.len(),
{
    if k > 0 {
        assert forall|i: int| 0 <= i < k - 1 implies is_space(#[trigger] s.drop_first()[i]) by {
            assert(s.drop_first()[i] == s[i + 1]);
        }
        lemma_leading_index(s.drop_first(), k - 1);
    }
}

proof fn lemma_trailing_index(s: Seq<char>, k: int)
    requires
        0 <= k <= s.len(),
        forall|i: int| s.len() - k <= i < s.len() ==> is_space(#[trigger] s[i]),
        k < s.len() ==> !is_space(s[s.len() - 1 - k]),
    ensures
        trailing_spaces(s) == k,
    decreases s.len(),
{
    if k > 0 {
        assert forall|i: int| s.drop_last().len() - (k - 1) <= i < s.drop_last().len() implies is_space(
            #[trigger] s.drop_last()[i],
        ) by {
            assert(s.drop_last()[i] == s[i]);
        }
        if k - 1 < s.drop_last().len() {
            assert(s.drop_last()[s.drop_last().len() - 1 - (k - 1)] == s[s.len() - 1 - k]);
        }
        lemma_trailing_index(s.drop_last(), k - 1);
    }
}

/// `text` without the white space it starts with.
pub fn trim_start_str(text: &str) -> (r: &str)
    ensures
        r@ == trim_start(text@),
{
    let chars = chars_of(text);
    let n = text.unicode_len();
    let mut a: usize = 0;
    while a < n && space(chars[a])
        invariant
            chars@ == text@,
            n == text@.len(),
            a <= n,
            forall|i: int| 0 <= i < a ==> is_space(#[trigger] text@[i]),
        decreases n - a,
    {
        a += 1;
    }
    proof {
        lemma_leading_index(text@, a as int);
    }
    text.substring_char(a, n)
}

/// `text` without white space at either end.
pub fn trim_str(text: &str) -> (r: &str)
    ensures
        r@ == trim(text@),
{
    let start = trim_start_str(text);
    let chars = chars_of(start);
    let n = start.unicode_len();
    let mut b: usize = n;
    while b > 0 && space(chars[b - 1])
        invariant
            chars@ == start@,
            n == start@.len(),
            b <= n,
            forall|i: int| b <= i < n ==> is_space(#[trigger] start@[i]),
        decreases b,
    {
        b -= 1;
    }
    proof {
        lemma_trailing_index(start@, (n - b) as int);
    }
    start.substring_char(0, b)
}

/// The place of the first space (' ') in `s`, if any.
pub open spec fn first_blank(s: Seq<char>, from: int) -> Option<int>
    decreases s.len() - from,
{
    if from < 0 || from >= s.len() {
        None
    } else if s[from] == ' ' {
        Some(from)
    } else {
        first_blank(s, from + 1)
    }
}

/// `s` cut at its first space, the space dropped; `None` without one.
pub open spec fn split_blank(s: Seq<char>) -> Option<(Seq<char>, Seq<char>)> {
    match first_blank(s, 0) {
        None => None,
        Some(i) => Some((s.subrange(0, i), s.subrange(i + 1, s.len() as int))),
    }
}

proof fn lemma_first_blank(s: Seq<char>, from: int)
    requires
        0 <= from,
    ensures
        first_blank(s, from) matches Some(i) ==> from <= i < s.len() && s[i] == ' ',
    decreases s.len() - from,
{
    if from < s.len() {
        lemma_first_blank(s, from + 1);
    }
}

/// Cuts `text` at its first space.
pub fn split_once_blank(text: &str) -> (r: Option<(&str, &str)>)
    ensures
        match split_blank(text@) {
            None => r is None,
            Some((a, b)) => r matches Some(p) && p.0@ == a && p.1@ == b,
        },
{
    let chars = chars_of(text);
    let n = text.unicode_len();
    let mut i: usize = 0;
    while i < n
        invariant
            chars@ == text@,
            n == text@.len(),
            i <= n,
            first_blank(text@, 0) == first_blank(text@, i as int),
        decreases n - i,
    {
        if chars[i] == ' ' {
            return Some((text.substring_char(0, i), text.substring_char(i + 1, n)));
        }
        i += 1;
    }
    None
}

/// A command line read: its first word and the rest, the rest without the
/// white space it starts with; the whole line and no rest where it has no
/// space.
pub open spec fn words(line: Seq<char>) -> (Seq<char>, Seq<char>) {
    let input = trim(line);
    match split_blank(input) {
        Some((command, args)) => (command, trim_start(args)),
        None => (input, Seq::empty()),
    }
}

/// The command word and its argument text, from a typed line.
pub fn split_command(line: &str) -> (r: (&str, &str))
    ensures
        (r.0@, r.1@) == words(line@),
{
    let input = trim_str(line);
    match split_once_blank(input) {
        Some((command, args)) => (command, trim_start_str(args)),
        None => {
            let empty = "";
            proof {
                reveal_strlit("");
                assert(empty@ =~= Seq::<char>::empty());
            }
            (input, empty)
        },
    }
}

/// `c` with ASCII capitals made small.
pub open spec fn ascii_lower(c: char) -> char {
    if 'A' <= c <= 'Z' {
        ((c as u32) + 32) as char
    } else {
        c
    }
}

/// `a` and `b` are the same text but for ASCII case.
pub open spec fn same_ignoring_case(a: Seq<char>, b: Seq<char>) -> bool {
    a.len() == b.len() && forall|i: int| 0 <= i < a.len() ==> ascii_lower(#[trigger] a[i]) == ascii_lower(b[i])
}

fn lower(c: char) -> (r: char)
    ensures
        r == ascii_lower(c),
{
    if 'A' <= c && c <= 'Z' {
        proof {
            assert(((c as u32) + 32) as char as u32 == (c as u32) + 32);
        }
        let v = (c as u32) + 32;
        let lowered = if v == 0x61 {
            'a'
        } else if v == 0x62 {
            'b'
        } else if v == 0x63 {
            'c'
        } else if v == 0x64 {
            'd'
        } else if v == 0x65 {
            'e'
        } else if v == 0x66 {
            'f'
        } else if v == 0x67 {
            'g'
        } else if v == 0x68 {
            'h'
        } else if v == 0x69 {
            'i'
        } else if v == 0x6a {
            'j'
        } else if v == 0x6b {
            'k'
        } else if v == 0x6c {
            'l'
        } else if v == 0x6d {
            'm'
        } else if v == 0x6e {
            'n'
        } else if v == 0x6f {
            'o'
        } else if v == 0x70 {
            'p'
        } else if v == 0x71 {
            'q'
        } else if v == 0x72 {
            'r'
        } else if v == 0x73 {
            's'
        } else if v == 0x74 {
            't'
        } else if v == 0x75 {
            'u'
        } else if v == 0x76 {
            'v'
        } else if v == 0x77 {
            'w'
        } else if v == 0x78 {
            'x'
        } else if v == 0x79 {
            'y'
        } else {
            'z'
        };
        lowered
    } else {
        c
    }
}

/// Whether `word` is `keyword` but for ASCII case.
pub fn eq_ignore_case(word: &str, keyword: &str) -> (r: bool)
    ensures
        r == same_ignoring_case(word@, keyword@),
{
    let a = chars_of(word);
    let b = chars_of(keyword);
    if a.len() != b.len() {
        return false;
    }
    let mut i: usize = 0;
    while i < a.len()
        invariant
            a@ == word@,
            b@ == keyword@,
            a@.len() == b@.len(),
            i <= a@.len(),
            forall|j: int| 0 <= j < i ==> ascii_lower(#[trigger] a@[j]) == ascii_lower(b@[j]),
        decreases a@.len() - i,
    {
        if lower(a[i]) != lower(b[i]) {
            return false;
        }
        i += 1;
    }
    true
}

/// The shell's commands.
#[derive(Clone, Copy, Debug, PartialEq, Eq, Structural)]
pub enum Command {
    Empty,
    Help,
    Clear,
    Echo,
    Uname,
    Version,
    Mem,
    Video,
    Recontrol,
    Whoami,
    Pwd,
    Cd,
    Ls,
    Cat,
    Touch,
    Mkdir,
    Rm,
    Write,
    Append,
    Stat,
    Mounts,
    Reboot,
    Halt,
    Unknown,
}

/// The command a word names, ASCII case aside.
pub open spec fn command_of(word: Seq<char>) -> Command {
    if word.len() == 0 {
        Command::Empty
    } else if same_ignoring_case(word, "help"@) {
        Command::Help
    } else if same_ignoring_case(word, "clear"@) {
        Command::Clear
    } else if same_ignoring_case(word, "echo"@) {
        Command::Echo
    } else if same_ignoring_case(word, "uname"@) {
        Command::Uname
    } else if same_ignoring_case(word, "version"@) {
        Command::Version
    } else if same_ignoring_case(word, "mem"@) {
        Command::Mem
    } else if same_ignoring_case(word, "video"@) {
        Command::Video
    } else if same_ignoring_case(word, "recontrol"@) {
        Command::Recontrol
    } else if same_ignoring_case(word, "whoami"@) {
        Command::Whoami
    } else if same_ignoring_case(word, "pwd"@) {
        Command::Pwd
    } else if same_ignoring_case(word, "cd"@) {
        Command::Cd
    } else if same_ignoring_case(word, "ls"@) {
        Command::Ls
    } else if same_ignoring_case(word, "cat"@) {
        Command::Cat
    } else if same_ignoring_case(word, "touch"@) {
        Command::Touch
    } else if same_ignoring_case(word, "mkdir"@) {
        Command::Mkdir
    } else if same_ignoring_case(word, "rm"@) {
        Command::Rm
    } else if same_ignoring_case(word, "write"@) {
        Command::Write
    } else if same_ignoring_case(word, "append"@) {
        Command::Append
    } else if same_ignoring_case(word, "stat"@) {
        Command::Stat
    } else if same_ignoring_case(word, "mounts"@) {
        Command::Mounts
    } else if same_ignoring_case(word, "reboot"@) {
        Command::Reboot
    } else if same_ignoring_case(word, "halt"@) || same_ignoring_case(word, "shutdown"@) {
        Command::Halt
    } else {
        Command::Unknown
    }
}

/// Reads a command line: the command, its word as typed, and its argument
/// text.
pub fn parse_command(line: &str) -> (r: (Command, &str, &str))
    ensures
        r.1@ == words(line@).0,
        r.2@ == words(line@).1,
        r.0 == command_of(words(line@).0),
{
    let (word, args) = split_command(line);
    let command = if word.unicode_len() == 0 {
        Command::Empty
    } else if eq_ignore_case(word, "help") {
        Command::Help
    } else if eq_ignore_case(word, "clear") {
        Command::Clear
    } else if eq_ignore_case(word, "echo") {
        Command::Echo
    } else if eq_ignore_case(word, "uname") {
        Command::Uname
    } else if eq_ignore_case(word, "version") {
        Command::Version
    } else if eq_ignore_case(word, "mem") {
        Command::Mem
    } else if eq_ignore_case(word, "video") {
        Command::Video
    } else if eq_ignore_case(word, "recontrol") {
        Command::Recontrol
    } else if eq_ignore_case(word, "whoami") {
        Command::Whoami
    } else if eq_ignore_case(word, "pwd") {
        Command::Pwd
    } else if eq_ignore_case(word, "cd") {
        Command::Cd
    } else if eq_ignore_case(word, "ls") {
        Command::Ls
    } else if eq_ignore_case(word, "cat") {
        Command::Cat
    } else if eq_ignore_case(word, "touch") {
        Command::Touch
    } else if eq_ignore_case(word, "mkdir") {
        Command::Mkdir
    } else if eq_ignore_case(word, "rm") {
        Command::Rm
    } else if eq_ignore_case(word, "write") {
        Command::Write
    } else if eq_ignore_case(word, "append") {
        Command::Append
    } else if eq_ignore_case(word, "stat") {
        Command::Stat
    } else if eq_ignore_case(word, "mounts") {
        Command::Mounts
    } else if eq_ignore_case(word, "reboot") {
        Command::Reboot
    } else if eq_ignore_case(word, "halt") || eq_ignore_case(word, "shutdown") {
        Command::Halt
    } else {
        Command::Unknown
    };
    (command, word, args)
}

/// The path a command that needs one names: its argument text trimmed,
/// `None` when that is empty.
pub fn required_path(args: &str) -> (r: Option<&str>)
    ensures
        trim(args@).len() == 0 ==> r is None,
        trim(args@).len() > 0 ==> (r matches Some(p) && p@ == trim(args@)),
{
    let raw = trim_str(args);
    if raw.unicode_len() == 0 {
        None
    } else {
        Some(raw)
    }
}

/// The argument text of WRITE and APPEND: a path, then the text after the
/// first space (none without one).
pub fn write_args(args: &str) -> (r: (&str, &str))
    ensures
        match split_blank(args@) {
            Some((path, text)) => r.0@ == path && r.1@ == text,
            None => r.0@ == args@ && r.1@.len() == 0,
        },
{
    match split_once_blank(args) {
        Some((path, text)) => (path, text),
        None => {
            let empty = "";
            proof {
                reveal_strlit("");
            }
            (args, empty)
        },
    }
}

/// Where CD goes: its argument, or the root without one.
pub fn cd_target(args: &str) -> (r: &str)
    ensures
        args@.len() == 0 ==> r@ == seq!['/'],
        args@.len() > 0 ==> r@ == args@,
{
    if args.unicode_len() == 0 {
        let root = "/";
        proof {
            reveal_strlit("/");
            assert(root@ =~= seq!['/']);
        }
        root
    } else {
        args
    }
}

} // verus!
