//! The fixed-namespace file layer: a handful of device nodes, open
//! flags, and read/write entry points that forward to the console and
//! keyboard devices.

use vstd::prelude::*;
use vstd::string::StringSliceAdditionalSpecFns;
use crate::drivers::framebuffer::ConsoleState;
use crate::drivers::keyboard::Keyboard;

verus! {

pub const FD_STDIN: usize = 0;

pub const FD_STDOUT: usize = 1;

pub const FD_STDERR: usize = 2;

pub const O_READ: u64 = 1;

pub const O_WRITE: u64 = 2;

pub const O_APPEND: u64 = 4;

/// Access mode requested when opening a node.
#[derive(Clone, Copy, Debug, Eq, PartialEq, Structural)]
pub struct OpenFlags {
    pub read: bool,
    pub write: bool,
    pub append: bool,
}

impl OpenFlags {
    pub fn new(read: bool, write: bool, append: bool) -> (r: OpenFlags)
        ensures
            r == (OpenFlags { read, write, append }),
    {
        OpenFlags { read, write, append }
    }

    /// Decodes the flag bits of the open call: bit 0 read, bit 1 write,
    /// bit 2 append.
    pub fn from_bits(bits: u64) -> (r: OpenFlags)
        ensures
            r == spec_flags_from_bits(bits),
    {
        OpenFlags {
            read: bits & O_READ != 0,
            write: bits & O_WRITE != 0,
            append: bits & O_APPEND != 0,
        }
    }
}

/// The flags a bit pattern decodes to.
pub open spec fn spec_flags_from_bits(bits: u64) -> OpenFlags {
    OpenFlags { read: bits & 1 != 0, write: bits & 2 != 0, append: bits & 4 != 0 }
}

/// What kind of node a path names.
#[derive(Clone, Copy, Debug, Eq, PartialEq, Structural)]
pub enum NodeType {
    Dir,
    DevFb0,
    DevKbd0,
}

/// Which device an open descriptor refers to.
#[derive(Clone, Copy, Debug, Eq, PartialEq, Structural)]
pub enum FileHandle {
    DevFb0,
    DevKbd0,
}

/// An open file: the device and the access mode it was opened with.
#[derive(Clone, Copy, Debug, Eq, PartialEq, Structural)]
pub struct FileDesc {
    pub handle: FileHandle,
    pub flags: OpenFlags,
}

/// The namespace: which node, if any, a path names.
pub open spec fn spec_lookup(path: Seq<u8>) -> Option<NodeType> {
    if path =~= "/"@.map_values(|c: char| c as u8) {
        Some(NodeType::Dir)
    } else if path =~= "/dev"@.map_values(|c: char| c as u8) {
        Some(NodeType::Dir)
    } else if path =~= "/dev/fb0"@.map_values(|c: char| c as u8) {
        Some(NodeType::DevFb0)
    } else if path =~= "/dev/kbd0"@.map_values(|c: char| c as u8) {
        Some(NodeType::DevKbd0)
    } else {
        None
    }
}

/// Prepares the namespace; the fixed tree needs no setup.
pub fn init() {
}

/// Resolves a path in the fixed namespace.
pub fn lookup(path: &[u8]) -> (r: Option<NodeType>)
    ensures
        r == spec_lookup(path@),
{
    if bytes_eq(path, &[47u8]) {
        proof {
            lemma_path_bytes();
        }
        Some(NodeType::Dir)
    } else if bytes_eq(path, &[47u8, 100, 101, 118]) {
        proof {
            lemma_path_bytes();
        }
        Some(NodeType::Dir)
    } else if bytes_eq(path, &[47u8, 100, 101, 118, 47, 102, 98, 48]) {
        proof {
            lemma_path_bytes();
        }
        Some(NodeType::DevFb0)
    } else if bytes_eq(path, &[47u8, 100, 101, 118, 47, 107, 98, 100, 48]) {
        proof {
            lemma_path_bytes();
        }
        Some(NodeType::DevKbd0)
    } else {
        proof {
            lemma_path_bytes();
        }
        None
    }
}

/// The namespace paths, spelled out as byte values.
proof fn lemma_path_bytes()
    ensures
        "/"@.map_values(|c: char| c as u8) =~= seq![47u8],
        "/dev"@.map_values(|c: char| c as u8) =~= seq![47u8, 100, 101, 118],
        "/dev/fb0"@.map_values(|c: char| c as u8) =~= seq![47u8, 100, 101, 118, 47, 102, 98, 48],
        "/dev/kbd0"@.map_values(|c: char| c as u8) =~= seq![
            47u8,
            100,
            101,
            118,
            47,
            107,
            98,
            100,
            48,
        ],
{
    reveal_strlit("/");
    reveal_strlit("/dev");
    reveal_strlit("/dev/fb0");
    reveal_strlit("/dev/kbd0");
}

/// Byte-slice equality.
fn bytes_eq(a: &[u8], b: &[u8]) -> (r: bool)
    ensures
        r == (a@ =~= b@),
{
    if a.len() != b.len() {
        return false;
    }
    let mut i: usize = 0;
    while i < a.len()
        invariant
            a@.len() == b@.len(),
            i <= a@.len(),
            forall|j: int| 0 <= j < i ==> a@[j] == b@[j],
        decreases a@.len() - i,
    {
        if a[i] != b[i] {
            return false;
        }
        i += 1;
    }
    true
}

/// Opens a path given as text.
pub fn open_path(path: &str, flags: OpenFlags) -> (r: Option<FileDesc>)
    ensures
        r == spec_open(path.spec_bytes(), flags),
{
    open_bytes(path.as_bytes(), flags)
}

/// What opening a path yields: a descriptor on the device nodes, and
/// nothing on directories or unknown paths.
pub open spec fn spec_open(path: Seq<u8>, flags: OpenFlags) -> Option<FileDesc> {
    match spec_lookup(path) {
        Some(NodeType::DevFb0) => Some(FileDesc { handle: FileHandle::DevFb0, flags }),
        Some(NodeType::DevKbd0) => Some(FileDesc { handle: FileHandle::DevKbd0, flags }),
        _ => None,
    }
}

/// Opens a path given as bytes.
pub fn open_bytes(path: &[u8], flags: OpenFlags) -> (r: Option<FileDesc>)
    ensures
        r == spec_open(path@, flags),
{
    match lookup(path) {
        Some(NodeType::DevFb0) => Some(FileDesc { handle: FileHandle::DevFb0, flags }),
        Some(NodeType::DevKbd0) => Some(FileDesc { handle: FileHandle::DevKbd0, flags }),
        _ => None,
    }
}

/// Writes through a descriptor: console output lands on the
/// framebuffer console; a descriptor without write access, a read-only
/// device, or a missing console transfers nothing.
pub fn write(desc: &FileDesc, buf: &[u8], console: &mut ConsoleState) -> (n: usize)
    requires
        old(console).wf(),
    ensures
        final(console).wf(),
        final(console).console is Some <==> old(console).console is Some,
        n == if desc.flags.write && desc.handle == FileHandle::DevFb0 && old(
            console,
        ).console is Some {
            buf@.len() as int
        } else {
            0int
        },
{
    if !desc.flags.write {
        return 0;
    }
    match desc.handle {
        FileHandle::DevFb0 => {
            let wrote = console.write_bytes(buf);
            if wrote {
                buf.len()
            } else {
                0
            }
        },
        FileHandle::DevKbd0 => 0,
    }
}

/// Reads through a descriptor: keyboard input is drained into the
/// buffer; a descriptor without read access or a write-only device
/// transfers nothing.
pub fn read(desc: &FileDesc, buf: &mut Vec<u8>, kbd: &mut Keyboard) -> (n: usize)
    requires
        old(kbd).wf(),
    ensures
        final(kbd).wf(),
        final(buf)@.len() == old(buf)@.len(),
        if desc.flags.read && desc.handle == FileHandle::DevKbd0 {
            &&& n == vstd::math::min(old(buf)@.len() as int, old(kbd)@.len() as int)
            &&& final(kbd)@ == old(kbd)@.skip(n as int)
            &&& forall|k: int|
                0 <= k < old(buf)@.len() ==> final(buf)@[k] == if k < n {
                    old(kbd)@[k]
                } else {
                    old(buf)@[k]
                }
        } else {
            n == 0 && final(kbd)@ == old(kbd)@ && final(buf)@ == old(buf)@
        },
{
    if !desc.flags.read {
        return 0;
    }
    match desc.handle {
        FileHandle::DevFb0 => 0,
        FileHandle::DevKbd0 => kbd.read(buf),
    }
}

/// Closing a descriptor releases nothing in the fixed namespace.
pub fn close(_desc: &FileDesc) {
}

} // verus!
