//! One directory entry as plain values, and what is derived from it for
//! display: its kind, type character, type suffix, style and permissions.
use vstd::prelude::*;
use crate::text::push_char;

verus! {

/// The kind of a filesystem entry, read from the type bits of its mode.
#[derive(Clone, Copy, Debug, PartialEq, Eq, Structural)]
pub enum EntryKind {
    RegularFile,
    Directory,
    Symlink,
    Fifo,
    BlockDevice,
    CharDevice,
    Socket,
    Unknown,
}

/// The style used to show a name; it chooses a terminal colour only.
#[derive(Clone, Copy, Debug, PartialEq, Eq, Structural)]
pub enum DisplayStyle {
    Directory,
    Symlink,
    Executable,
    Fifo,
    Socket,
    Plain,
}

/// The metadata of one entry, taken from the entry itself (a link is not
/// followed), plus what following a symbolic link gave.
#[derive(Debug)]
pub struct DirectoryEntry {
    pub name: String,
    pub mode: u32,
    pub nlink: u64,
    pub uid: u32,
    pub gid: u32,
    pub size: u64,
    pub rdev: u64,
    pub mtime: i64,
    pub blocks: u64,
    /// The path a symbolic link points to, where it could be read.
    pub link_target: Option<String>,
    /// The mode of the entry at the end of a symbolic link's chain, where the
    /// chain resolves.
    pub target_mode: Option<u32>,
}

pub const TYPE_MASK: u32 = 0o170000;

pub open spec fn kind_of_mode(mode: u32) -> EntryKind {
    let t = mode & 0o170000u32;
    if t == 0o040000u32 {
        EntryKind::Directory
    } else if t == 0o100000u32 {
        EntryKind::RegularFile
    } else if t == 0o120000u32 {
        EntryKind::Symlink
    } else if t == 0o010000u32 {
        EntryKind::Fifo
    } else if t == 0o060000u32 {
        EntryKind::BlockDevice
    } else if t == 0o020000u32 {
        EntryKind::CharDevice
    } else if t == 0o140000u32 {
        EntryKind::Socket
    } else {
        EntryKind::Unknown
    }
}

/// Whether any of the three execute bits is set.
pub open spec fn any_exec(mode: u32) -> bool {
    mode & 0o111u32 != 0
}

pub open spec fn type_char_of(k: EntryKind) -> char {
    match k {
        EntryKind::Directory => 'd',
        EntryKind::RegularFile => '-',
        EntryKind::Symlink => 'l',
        EntryKind::Fifo => 'p',
        EntryKind::BlockDevice => 'b',
        EntryKind::CharDevice => 'c',
        EntryKind::Socket => 's',
        EntryKind::Unknown => '?',
    }
}

/// The suffix of an entry that is not followed any further.
pub open spec fn kind_suffix(k: EntryKind, mode: u32) -> Seq<char> {
    match k {
        EntryKind::Directory => seq!['/'],
        EntryKind::RegularFile => if any_exec(mode) {
            seq!['*']
        } else {
            seq![]
        },
        EntryKind::Fifo => seq!['|'],
        EntryKind::Socket => seq!['='],
        EntryKind::Symlink => seq!['@'],
        _ => seq![],
    }
}

/// The type suffix of an entry: a symbolic link takes that of the entry its
/// chain resolves to, and `@` where the chain is broken or cyclic.
pub open spec fn suffix_spec(e: DirectoryEntry) -> Seq<char> {
    if kind_of_mode(e.mode) == EntryKind::Symlink {
        match e.target_mode {
            Some(m) => kind_suffix(kind_of_mode(m), m),
            None => seq!['@'],
        }
    } else {
        kind_suffix(kind_of_mode(e.mode), e.mode)
    }
}

pub open spec fn style_spec(e: DirectoryEntry) -> DisplayStyle {
    let k = kind_of_mode(e.mode);
    if k == EntryKind::Symlink {
        DisplayStyle::Symlink
    } else if k == EntryKind::Directory {
        DisplayStyle::Directory
    } else if any_exec(e.mode) {
        DisplayStyle::Executable
    } else if k == EntryKind::Fifo {
        DisplayStyle::Fifo
    } else if k == EntryKind::Socket {
        DisplayStyle::Socket
    } else {
        DisplayStyle::Plain
    }
}

pub open spec fn esc() -> char {
    '\u{1b}'
}

/// The escape sequence that starts a style; empty for plain names.
pub open spec fn style_start(s: DisplayStyle) -> Seq<char> {
    match s {
        DisplayStyle::Directory => seq![esc(), '[', '3', '4', 'm'],
        DisplayStyle::Symlink => seq![esc(), '[', '3', '6', 'm'],
        DisplayStyle::Executable => seq![esc(), '[', '3', '2', 'm'],
        DisplayStyle::Fifo => seq![esc(), '[', '3', '3', 'm'],
        DisplayStyle::Socket => seq![esc(), '[', '3', '5', 'm'],
        DisplayStyle::Plain => seq![],
    }
}

pub open spec fn style_reset() -> Seq<char> {
    seq![esc(), '[', '0', 'm']
}

/// `text` wrapped in the escape sequences of `s`.
pub open spec fn styled(s: DisplayStyle, text: Seq<char>) -> Seq<char> {
    if s == DisplayStyle::Plain {
        text
    } else {
        style_start(s) + text + style_reset()
    }
}

/// The character at a permission position: `c` where the bit is set.
pub open spec fn bit_char(mode: u32, bit: u32, c: char) -> char {
    if mode & bit != 0 {
        c
    } else {
        '-'
    }
}

/// An execute position, overlaid by a special bit (set-user-id,
/// set-group-id or sticky): `lower` if both are set, `upper` if only the
/// special bit is.
pub open spec fn exec_char(mode: u32, bit: u32, special: u32, lower: char, upper: char) -> char {
    if mode & special != 0 {
        if mode & bit != 0 {
            lower
        } else {
            upper
        }
    } else {
        bit_char(mode, bit, 'x')
    }
}

/// The nine permission characters of a mode, owner, group and others.
pub open spec fn perm_spec(mode: u32) -> Seq<char> {
    seq![
        bit_char(mode, 0o400, 'r'),
        bit_char(mode, 0o200, 'w'),
        exec_char(mode, 0o100, 0o4000, 's', 'S'),
        bit_char(mode, 0o040, 'r'),
        bit_char(mode, 0o020, 'w'),
        exec_char(mode, 0o010, 0o2000, 's', 'S'),
        bit_char(mode, 0o004, 'r'),
        bit_char(mode, 0o002, 'w'),
        exec_char(mode, 0o001, 0o1000, 't', 'T'),
    ]
}

/// The kind that the type bits of `mode` give.
pub fn kind_from_mode(mode: u32) -> (r: EntryKind)
    ensures
        r == kind_of_mode(mode),
{
    let t = mode & TYPE_MASK;
    if t == 0o040000 {
        EntryKind::Directory
    } else if t == 0o100000 {
        EntryKind::RegularFile
    } else if t == 0o120000 {
        EntryKind::Symlink
    } else if t == 0o010000 {
        EntryKind::Fifo
    } else if t == 0o060000 {
        EntryKind::BlockDevice
    } else if t == 0o020000 {
        EntryKind::CharDevice
    } else if t == 0o140000 {
        EntryKind::Socket
    } else {
        EntryKind::Unknown
    }
}

/// The leading type character of a long-format line.
pub fn file_type_char(k: EntryKind) -> (r: char)
    ensures
        r == type_char_of(k),
{
    match k {
        EntryKind::Directory => 'd',
        EntryKind::RegularFile => '-',
        EntryKind::Symlink => 'l',
        EntryKind::Fifo => 'p',
        EntryKind::BlockDevice => 'b',
        EntryKind::CharDevice => 'c',
        EntryKind::Socket => 's',
        EntryKind::Unknown => '?',
    }
}

fn push_kind_suffix(s: &mut String, k: EntryKind, mode: u32)
    ensures
        final(s)@ == old(s)@ + kind_suffix(k, mode),
{
    match k {
        EntryKind::Directory => push_char(s, '/'),
        EntryKind::RegularFile => {
            if mode & 0o111 != 0 {
                push_char(s, '*');
            } else {
                assert(old(s)@ + seq![] == old(s)@);
            }
        },
        EntryKind::Fifo => push_char(s, '|'),
        EntryKind::Socket => push_char(s, '='),
        EntryKind::Symlink => push_char(s, '@'),
        _ => {
            assert(old(s)@ + seq![] == old(s)@);
        },
    }
    assert(final(s)@ == old(s)@ + kind_suffix(k, mode));
}

/// Adds the type suffix of `e` at the end of `s`.
pub fn push_suffix(s: &mut String, e: &DirectoryEntry)
    ensures
        final(s)@ == old(s)@ + suffix_spec(*e),
{
    let k = kind_from_mode(e.mode);
    if k == EntryKind::Symlink {
        match e.target_mode {
            Some(m) => push_kind_suffix(s, kind_from_mode(m), m),
            None => push_char(s, '@'),
        }
    } else {
        push_kind_suffix(s, k, e.mode);
    }
}

/// The type suffix of `e`.
pub fn suffix_for(e: &DirectoryEntry) -> (r: String)
    ensures
        r@ == suffix_spec(*e),
{
    let mut s = String::new();
    push_suffix(&mut s, e);
    assert(s@ =~= suffix_spec(*e));
    s
}

/// The display style of `e`.
pub fn style_of(e: &DirectoryEntry) -> (r: DisplayStyle)
    ensures
        r == style_spec(*e),
{
    let k = kind_from_mode(e.mode);
    if k == EntryKind::Symlink {
        DisplayStyle::Symlink
    } else if k == EntryKind::Directory {
        DisplayStyle::Directory
    } else if e.mode & 0o111 != 0 {
        DisplayStyle::Executable
    } else if k == EntryKind::Fifo {
        DisplayStyle::Fifo
    } else if k == EntryKind::Socket {
        DisplayStyle::Socket
    } else {
        DisplayStyle::Plain
    }
}

fn push_style_start(s: &mut String, st: DisplayStyle)
    requires
        st != DisplayStyle::Plain,
    ensures
        final(s)@ == old(s)@ + style_start(st),
{
    let d = match st {
        DisplayStyle::Directory => '4',
        DisplayStyle::Symlink => '6',
        DisplayStyle::Executable => '2',
        DisplayStyle::Fifo => '3',
        _ => '5',
    };
    push_char(s, '\u{1b}');
    push_char(s, '[');
    push_char(s, '3');
    push_char(s, d);
    push_char(s, 'm');
    assert(final(s)@ =~= old(s)@ + style_start(st));
}

/// Adds the escape sequence that ends a style.
pub(crate) fn push_reset(s: &mut String)
    ensures
        final(s)@ == old(s)@ + style_reset(),
{
    push_char(s, '\u{1b}');
    push_char(s, '[');
    push_char(s, '0');
    push_char(s, 'm');
    assert(final(s)@ =~= old(s)@ + style_reset());
}

/// `text` in the colour of `st`; a plain name is left as it is.
pub fn colorize(text: &str, st: DisplayStyle) -> (r: String)
    ensures
        r@ == styled(st, text@),
{
    let mut s = String::new();
    if st != DisplayStyle::Plain {
        push_style_start(&mut s, st);
    }
    crate::text::push_seq(&mut s, text);
    if st != DisplayStyle::Plain {
        push_reset(&mut s);
    }
    assert(s@ =~= styled(st, text@));
    s
}

fn bit_ch(mode: u32, bit: u32, c: char) -> (r: char)
    ensures
        r == bit_char(mode, bit, c),
{
    if mode & bit != 0 {
        c
    } else {
        '-'
    }
}

fn exec_ch(mode: u32, bit: u32, special: u32, lower: char, upper: char) -> (r: char)
    ensures
        r == exec_char(mode, bit, special, lower, upper),
{
    if mode & special != 0 {
        if mode & bit != 0 {
            lower
        } else {
            upper
        }
    } else {
        bit_ch(mode, bit, 'x')
    }
}

/// The nine-character permission string of a mode.
pub fn permissions_string(mode: u32) -> (r: String)
    ensures
        r@ == perm_spec(mode),
{
    let mut s = String::new();
    push_char(&mut s, bit_ch(mode, 0o400, 'r'));
    push_char(&mut s, bit_ch(mode, 0o200, 'w'));
    push_char(&mut s, exec_ch(mode, 0o100, 0o4000, 's', 'S'));
    push_char(&mut s, bit_ch(mode, 0o040, 'r'));
    push_char(&mut s, bit_ch(mode, 0o020, 'w'));
    push_char(&mut s, exec_ch(mode, 0o010, 0o2000, 's', 'S'));
    push_char(&mut s, bit_ch(mode, 0o004, 'r'));
    push_char(&mut s, bit_ch(mode, 0o002, 'w'));
    push_char(&mut s, exec_ch(mode, 0o001, 0o1000, 't', 'T'));
    assert(s@ =~= perm_spec(mode));
    s
}

} // verus!
