//! The 512-byte header record of an archive entry, in the GNU flavour.
//!
//! A header is a block of bytes; each setter rewrites one field of it and
//! leaves the rest alone. Numbers are stored as zero-padded octal digits;
//! a number that has too many digits for its field is stored in base 256.

use vstd::prelude::*;
use crate::block::zeros;

verus! {

pub const NAME_OFFSET: usize = 0;

/// Capacity of the name field.
pub const NAME_LEN: usize = 100;

pub const MODE_OFFSET: usize = 100;

pub const UID_OFFSET: usize = 108;

pub const GID_OFFSET: usize = 116;

pub const SIZE_OFFSET: usize = 124;

pub const MTIME_OFFSET: usize = 136;

pub const CKSUM_OFFSET: usize = 148;

pub const TYPE_OFFSET: usize = 156;

pub const LINKNAME_OFFSET: usize = 157;

/// Capacity of the link name field.
pub const LINKNAME_LEN: usize = 100;

pub const MAGIC_OFFSET: usize = 257;

pub const DEV_MAJOR_OFFSET: usize = 329;

pub const DEV_MINOR_OFFSET: usize = 337;

/// Modification time that [`HeaderMode::Deterministic`] stores in every header.
pub const DETERMINISTIC_TIMESTAMP: u64 = 1153704088;

/// `block` with the bytes from index `at` on replaced by `field`.
pub open spec fn overwrite(block: Seq<u8>, at: int, field: Seq<u8>) -> Seq<u8> {
    block.take(at) + field + block.skip(at + field.len())
}

/// The rightmost `n` octal digits of `value` as ASCII, most significant first.
pub open spec fn octal_digits(value: nat, n: nat) -> Seq<u8>
    decreases n,
{
    if n == 0 {
        Seq::empty()
    } else {
        octal_digits(value / 8, (n - 1) as nat).push((48 + value % 8) as u8)
    }
}

/// What is left of `value` once its rightmost `n` octal digits are taken off.
pub open spec fn octal_rest(value: nat, n: nat) -> nat
    decreases n,
{
    if n == 0 {
        value
    } else {
        octal_rest(value / 8, (n - 1) as nat)
    }
}

/// An octal field of `width` bytes: `width - 1` digits and a closing NUL.
pub open spec fn octal_field(value: nat, width: nat) -> Seq<u8> {
    octal_digits(value, (width - 1) as nat).push(0u8)
}

/// The rightmost `n` base-256 digits of `value`, most significant first.
pub open spec fn binary_digits(value: nat, n: nat) -> Seq<u8>
    decreases n,
{
    if n == 0 {
        Seq::empty()
    } else {
        binary_digits(value / 256, (n - 1) as nat).push((value % 256) as u8)
    }
}

/// A base-256 field of `width` bytes for a 64-bit number: the number in the
/// last eight bytes, zeros before them, and the top bit of the first byte
/// set as the mark of this form.
pub open spec fn binary_field(value: nat, width: nat) -> Seq<u8> {
    let plain = zeros((width - 8) as nat) + binary_digits(value, 8);
    plain.update(0, plain[0] | 0x80u8)
}

/// A numeric field: octal where the digits fit, base 256 where they do not.
pub open spec fn numeric_field(value: nat, width: nat) -> Seq<u8> {
    if octal_rest(value, (width - 1) as nat) == 0 {
        octal_field(value, width)
    } else {
        binary_field(value, width)
    }
}

/// Sum of the bytes of `s`.
pub open spec fn byte_sum(s: Seq<u8>) -> nat
    decreases s.len(),
{
    if s.len() == 0 {
        0
    } else {
        byte_sum(s.drop_last()) + s.last() as nat
    }
}

/// The checksum of a header block: the sum of its bytes, the checksum field
/// itself counted as eight spaces.
pub open spec fn checksum(block: Seq<u8>) -> nat {
    byte_sum(overwrite(block, 148, Seq::new(8, |i: int| 32u8)))
}

/// Encodes [`octal_digits`] and tells whether they hold all of `value`.
fn encode_octal(value: u64, n: usize) -> (r: (Vec<u8>, bool))
    ensures
        r.0@ == octal_digits(value as nat, n as nat),
        r.0@.len() == n,
        r.1 == (octal_rest(value as nat, n as nat) == 0),
{
    proof {
        lemma_octal_digits_len(value as nat, n as nat);
    }
    let mut out: Vec<u8> = Vec::new();
    let mut j: usize = 0;
    while j < n
        invariant
            j <= n,
            out@ == zeros(j as nat),
        decreases n - j,
    {
        out.push(0u8);
        j += 1;
        assert(out@ =~= zeros(j as nat));
    }
    let mut rest: u64 = value;
    let mut i: usize = n;
    while i > 0
        invariant
            i <= n,
            out@.len() == n,
            octal_digits(value as nat, n as nat) == octal_digits(rest as nat, i as nat)
                + out@.skip(i as int),
            octal_rest(value as nat, n as nat) == octal_rest(rest as nat, i as nat),
        decreases i,
    {
        let digit: u8 = (rest % 8) as u8 + 48;
        let ghost before = out@;
        i -= 1;
        out[i] = digit;
        proof {
            assert(octal_digits(rest as nat, (i + 1) as nat) == octal_digits(
                rest as nat / 8,
                i as nat,
            ).push(digit));
            assert(octal_digits(rest as nat / 8, i as nat).push(digit) + before.skip(i + 1)
                =~= octal_digits(rest as nat / 8, i as nat) + out@.skip(i as int)) by {
                assert(out@.skip(i as int) =~= seq![digit] + out@.skip(i + 1));
                assert(out@.skip(i + 1) =~= before.skip(i + 1));
            }
        }
        rest = rest / 8;
    }
    assert(out@.skip(0) =~= out@);
    (out, rest == 0)
}

/// Encodes [`binary_field`].
fn encode_binary(value: u64, width: usize) -> (out: Vec<u8>)
    requires
        width >= 8,
    ensures
        out@ == binary_field(value as nat, width as nat),
{
    let mut out: Vec<u8> = Vec::new();
    let mut j: usize = 0;
    while j < width
        invariant
            j <= width,
            out@ == zeros(j as nat),
        decreases width - j,
    {
        out.push(0u8);
        j += 1;
        assert(out@ =~= zeros(j as nat));
    }
    let low: usize = width - 8;
    let mut rest: u64 = value;
    let mut i: usize = width;
    while i > low
        invariant
            low <= i <= width,
            low == width - 8,
            out@.len() == width,
            out@.take(low as int) == zeros(low as nat),
            binary_digits(value as nat, 8) == binary_digits(rest as nat, (i - low) as nat)
                + out@.skip(i as int),
        decreases i,
    {
        let digit: u8 = (rest % 256) as u8;
        let ghost before = out@;
        i -= 1;
        out[i] = digit;
        proof {
            assert(binary_digits(rest as nat, (i + 1 - low) as nat) == binary_digits(
                rest as nat / 256,
                (i - low) as nat,
            ).push(digit));
            assert(out@.skip(i as int) =~= seq![digit] + before.skip(i + 1));
            assert(binary_digits(rest as nat / 256, (i - low) as nat).push(digit) + before.skip(
                i + 1,
            ) =~= binary_digits(rest as nat / 256, (i - low) as nat) + out@.skip(i as int));
            assert(out@.take(low as int) =~= before.take(low as int));
        }
        rest = rest / 256;
    }
    proof {
        assert(out@ =~= out@.take(low as int) + out@.skip(low as int));
    }
    let first: u8 = out[0] | 0x80u8;
    out[0] = first;
    out
}

/// Encodes [`numeric_field`].
fn encode_numeric(value: u64, width: usize) -> (out: Vec<u8>)
    requires
        width >= 8,
    ensures
        out@ == numeric_field(value as nat, width as nat),
{
    let (mut digits, fits) = encode_octal(value, width - 1);
    if fits {
        digits.push(0u8);
        digits
    } else {
        encode_binary(value, width)
    }
}

/// How much of the file system's record of a file goes into its header.
#[derive(Clone, Copy, Debug, PartialEq, Eq, Structural)]
pub enum HeaderMode {
    /// Owner, permissions and modification time as the file system has them.
    Complete,
    /// Nothing that differs between two machines holding the same tree: a
    /// fixed modification time, no owner, and one of two permission sets.
    Deterministic,
    /// As `Deterministic`, with the modification time left at zero.
    Minimal,
}

/// The kind of an entry, stored as one byte of its header.
#[derive(Clone, Copy, Debug, PartialEq, Eq, Structural)]
pub enum EntryType {
    Regular,
    Link,
    Symlink,
    Char,
    Block,
    Directory,
    Fifo,
    Continuous,
    /// The payload is the path of the entry that follows.
    GnuLongName,
    /// The payload is the link target of the entry that follows.
    GnuLongLink,
    /// Any other type byte.
    Other(u8),
}

impl EntryType {
    /// The byte that stands for this type in a header.
    pub open spec fn byte(self) -> u8 {
        match self {
            EntryType::Regular => 48,
            EntryType::Link => 49,
            EntryType::Symlink => 50,
            EntryType::Char => 51,
            EntryType::Block => 52,
            EntryType::Directory => 53,
            EntryType::Fifo => 54,
            EntryType::Continuous => 55,
            EntryType::GnuLongName => 76,
            EntryType::GnuLongLink => 75,
            EntryType::Other(b) => b,
        }
    }

    /// The type that a header byte stands for. A NUL byte is the old way
    /// of writing a regular file.
    pub open spec fn of_byte(byte: u8) -> EntryType {
        if byte == 0 || byte == 48 {
            EntryType::Regular
        } else if byte == 49 {
            EntryType::Link
        } else if byte == 50 {
            EntryType::Symlink
        } else if byte == 51 {
            EntryType::Char
        } else if byte == 52 {
            EntryType::Block
        } else if byte == 53 {
            EntryType::Directory
        } else if byte == 54 {
            EntryType::Fifo
        } else if byte == 55 {
            EntryType::Continuous
        } else if byte == 76 {
            EntryType::GnuLongName
        } else if byte == 75 {
            EntryType::GnuLongLink
        } else {
            EntryType::Other(byte)
        }
    }

    /// Reads a type byte.
    pub fn new(byte: u8) -> (t: EntryType)
        ensures
            t == EntryType::of_byte(byte),
    {
        if byte == 0 || byte == 48 {
            EntryType::Regular
        } else if byte == 49 {
            EntryType::Link
        } else if byte == 50 {
            EntryType::Symlink
        } else if byte == 51 {
            EntryType::Char
        } else if byte == 52 {
            EntryType::Block
        } else if byte == 53 {
            EntryType::Directory
        } else if byte == 54 {
            EntryType::Fifo
        } else if byte == 55 {
            EntryType::Continuous
        } else if byte == 76 {
            EntryType::GnuLongName
        } else if byte == 75 {
            EntryType::GnuLongLink
        } else {
            EntryType::Other(byte)
        }
    }

    /// Writes the type byte.
    pub fn as_byte(&self) -> (b: u8)
        ensures
            b == self.byte(),
    {
        match self {
            EntryType::Regular => 48,
            EntryType::Link => 49,
            EntryType::Symlink => 50,
            EntryType::Char => 51,
            EntryType::Block => 52,
            EntryType::Directory => 53,
            EntryType::Fifo => 54,
            EntryType::Continuous => 55,
            EntryType::GnuLongName => 76,
            EntryType::GnuLongLink => 75,
            EntryType::Other(b) => *b,
        }
    }
}

/// A type byte that is read and written again comes out unchanged, but for
/// the NUL byte, which comes out as `'0'`.
pub proof fn lemma_entry_type_round_trip(byte: u8)
    ensures
        EntryType::of_byte(byte).byte() == (if byte == 0 { 48u8 } else { byte }),
{
}

/// Why a value cannot be stored in a header field.
#[derive(Clone, Copy, Debug, PartialEq, Eq, Structural)]
pub enum FieldError {
    /// The value is empty.
    Empty,
    /// The value has more bytes than the field.
    TooLong,
    /// The value holds a NUL byte, which ends a field.
    Nul,
}

/// True if `value` can be stored in a text field of `capacity` bytes.
pub open spec fn storable(value: Seq<u8>, capacity: nat) -> bool {
    0 < value.len() <= capacity && !value.contains(0u8)
}

/// The reason why a value that is not [`storable`] is refused.
pub open spec fn refusal(value: Seq<u8>, capacity: nat) -> FieldError {
    if value.len() == 0 {
        FieldError::Empty
    } else if value.len() > capacity {
        FieldError::TooLong
    } else {
        FieldError::Nul
    }
}

/// A text field of `capacity` bytes that holds `value`: the value, then NUL
/// bytes to the end of the field.
pub open spec fn text_field(value: Seq<u8>, capacity: nat) -> Seq<u8> {
    value + zeros((capacity - value.len()) as nat)
}

/// What a file system knows of a file, as far as a header records it.
#[derive(Clone, Copy, Debug, PartialEq, Eq)]
pub struct Metadata {
    pub file_type: FileType,
    /// Length of the file in bytes.
    pub len: u64,
    /// Permission bits.
    pub mode: u32,
    /// Modification time, in seconds since the epoch.
    pub mtime: u64,
    pub uid: u64,
    pub gid: u64,
    /// Device id of a device file.
    pub rdev: u64,
}

/// The kind of a file on disk.
#[derive(Clone, Copy, Debug, PartialEq, Eq, Structural)]
pub enum FileType {
    File,
    Dir,
    Symlink,
    Fifo,
    CharDevice,
    BlockDevice,
    Socket,
    Unknown,
}

impl FileType {
    /// The entry type under which a file of this kind is archived.
    pub open spec fn entry_type(self) -> EntryType {
        match self {
            FileType::File => EntryType::Regular,
            FileType::Dir => EntryType::Directory,
            FileType::Symlink => EntryType::Symlink,
            FileType::Fifo => EntryType::Fifo,
            FileType::CharDevice => EntryType::Char,
            FileType::BlockDevice => EntryType::Block,
            FileType::Socket => EntryType::Other(32),
            FileType::Unknown => EntryType::Other(32),
        }
    }
}

/// The magic and version bytes of a GNU header.
pub open spec fn gnu_magic() -> Seq<u8> {
    seq![117u8, 115u8, 116u8, 97u8, 114u8, 32u8, 32u8, 0u8]
}

/// The name under which an extension record travels: `././@LongLink`.
pub open spec fn long_link_name() -> Seq<u8> {
    seq![46u8, 47u8, 46u8, 47u8, 64u8, 76u8, 111u8, 110u8, 103u8, 76u8, 105u8, 110u8, 107u8]
}

pub open spec fn with_name(block: Seq<u8>, path: Seq<u8>) -> Seq<u8> {
    overwrite(block, 0, text_field(path, 100))
}

pub open spec fn with_mode(block: Seq<u8>, mode: u32) -> Seq<u8> {
    overwrite(block, 100, octal_field(mode as nat, 8))
}

pub open spec fn with_uid(block: Seq<u8>, uid: u64) -> Seq<u8> {
    overwrite(block, 108, numeric_field(uid as nat, 8))
}

pub open spec fn with_gid(block: Seq<u8>, gid: u64) -> Seq<u8> {
    overwrite(block, 116, numeric_field(gid as nat, 8))
}

pub open spec fn with_size(block: Seq<u8>, size: u64) -> Seq<u8> {
    overwrite(block, 124, numeric_field(size as nat, 12))
}

pub open spec fn with_mtime(block: Seq<u8>, mtime: u64) -> Seq<u8> {
    overwrite(block, 136, numeric_field(mtime as nat, 12))
}

#[verifier::opaque]
pub open spec fn with_cksum(block: Seq<u8>) -> Seq<u8> {
    overwrite(block, 148, octal_field(checksum(block), 8))
}

pub open spec fn with_entry_type(block: Seq<u8>, ty: EntryType) -> Seq<u8> {
    block.update(156, ty.byte())
}

pub open spec fn with_link_name(block: Seq<u8>, target: Seq<u8>) -> Seq<u8> {
    overwrite(block, 157, text_field(target, 100))
}

pub open spec fn with_device_major(block: Seq<u8>, major: u32) -> Seq<u8> {
    overwrite(block, 329, numeric_field(major as nat, 8))
}

pub open spec fn with_device_minor(block: Seq<u8>, minor: u32) -> Seq<u8> {
    overwrite(block, 337, numeric_field(minor as nat, 8))
}

/// The permission bits that [`HeaderMode::Deterministic`] stores: those of an
/// executable for directories and for files that their owner may execute,
/// those of a plain file for the rest.
pub open spec fn portable_mode(stat: Metadata) -> u32 {
    if stat.file_type == FileType::Dir || stat.mode & 0o100 == 0o100 {
        0o755
    } else {
        0o644
    }
}

/// The size that a header records for a file: directories and symbolic
/// links have no payload.
pub open spec fn recorded_size(stat: Metadata) -> u64 {
    if stat.file_type == FileType::Dir || stat.file_type == FileType::Symlink {
        0
    } else {
        stat.len
    }
}

/// `block` after the owner, permissions and time of `stat` were stored as
/// `mode` asks.
pub open spec fn with_owner(block: Seq<u8>, stat: Metadata, mode: HeaderMode) -> Seq<u8> {
    match mode {
        HeaderMode::Complete => with_mode(
            with_gid(with_uid(with_mtime(block, stat.mtime), stat.uid), stat.gid),
            stat.mode,
        ),
        HeaderMode::Deterministic => with_mode(
            with_gid(with_uid(with_mtime(block, DETERMINISTIC_TIMESTAMP), 0), 0),
            portable_mode(stat),
        ),
        HeaderMode::Minimal => with_mode(
            with_gid(with_uid(with_mtime(block, 0), 0), 0),
            portable_mode(stat),
        ),
    }
}

/// `block` after all that `stat` says was stored: owner, permissions and
/// time as `mode` asks, then the entry type, the size, and zero device
/// numbers.
#[verifier::opaque]
pub open spec fn with_metadata(block: Seq<u8>, stat: Metadata, mode: HeaderMode) -> Seq<u8> {
    with_device_minor(
        with_device_major(
            with_size(
                with_entry_type(with_owner(block, stat, mode), stat.file_type.entry_type()),
                recorded_size(stat),
            ),
            0,
        ),
        0,
    )
}

/// The block of a fresh GNU header: zeros, the magic, and a zero
/// modification time.
#[verifier::opaque]
pub open spec fn gnu_block() -> Seq<u8> {
    with_mtime(overwrite(zeros(512), 257, gnu_magic()), 0)
}

/// The header of an extension record whose payload has `payload_len` bytes
/// and whose type byte is `type_byte`.
#[verifier::opaque]
pub open spec fn extension_block(payload_len: u64, type_byte: u8) -> Seq<u8> {
    with_cksum(
        with_entry_type(
            with_size(
                with_mtime(
                    with_gid(
                        with_uid(with_mode(overwrite(gnu_block(), 0, long_link_name()), 0o644), 0),
                        0,
                    ),
                    0,
                ),
                payload_len,
            ),
            EntryType::of_byte(type_byte),
        ),
    )
}

/// One header record.
pub struct Header {
    pub bytes: [u8; 512],
}

impl View for Header {
    type V = Seq<u8>;

    open spec fn view(&self) -> Seq<u8> {
        self.bytes@
    }
}

impl Header {
    /// Replaces the bytes from index `at` on by `field`.
    fn put(&mut self, at: usize, field: &[u8])
        requires
            at + field@.len() <= 512,
        ensures
            final(self)@ == overwrite(old(self)@, at as int, field@),
    {
        let n: usize = field.len();
        let mut j: usize = 0;
        while j < n
            invariant
                j <= n,
                n == field@.len(),
                at + n <= 512,
                self@ == overwrite(old(self)@, at as int, field@.take(j as int)),
            decreases n - j,
        {
            self.bytes[at + j] = field[j];
            j += 1;
            assert(self@ =~= overwrite(old(self)@, at as int, field@.take(j as int)));
        }
        assert(field@.take(n as int) =~= field@);
    }

    /// Stores `value` in the text field of `capacity` bytes at `at`, or
    /// says why it cannot be stored.
    fn put_text(&mut self, at: usize, capacity: usize, value: &[u8]) -> (r: Result<(), FieldError>)
        requires
            at + capacity <= 512,
        ensures
            storable(value@, capacity as nat) ==> r is Ok && final(self)@ == overwrite(
                old(self)@,
                at as int,
                text_field(value@, capacity as nat),
            ),
            !storable(value@, capacity as nat) ==> r == Err::<(), FieldError>(
                refusal(value@, capacity as nat),
            ) && final(self)@ == old(self)@,
    {
        let n: usize = value.len();
        if n == 0 {
            return Err(FieldError::Empty);
        }
        if n > capacity {
            return Err(FieldError::TooLong);
        }
        let mut field: Vec<u8> = Vec::new();
        let mut j: usize = 0;
        while j < n
            invariant
                j <= n,
                n == value@.len(),
                0 < n <= capacity,
                self@ == old(self)@,
                field@ == value@.take(j as int),
                !field@.contains(0u8),
            decreases n - j,
        {
            if value[j] == 0 {
                proof {
                    assert(value@[j as int] == 0u8);
                    assert(value@.contains(0u8));
                }
                return Err(FieldError::Nul);
            }
            let ghost before = field@;
            field.push(value[j]);
            j += 1;
            proof {
                assert(field@ =~= value@.take(j as int));
                assert forall|k: int| 0 <= k < field@.len() implies field@[k] != 0u8 by {
                    if k < before.len() {
                        assert(before.contains(before[k]));
                        assert(field@[k] == before[k]);
                    }
                }
            }
        }
        proof {
            assert(value@.take(n as int) =~= value@);
        }
        crate::block::push_zeros(&mut field, capacity - n);
        self.put(at, field.as_slice());
        Ok(())
    }

    /// A fresh GNU header.
    pub fn new_gnu() -> (h: Header)
        ensures
            h@ == gnu_block(),
    {
        reveal(gnu_block);
        let mut h = Header { bytes: [0u8; 512] };
        assert(h@ =~= zeros(512));
        let magic: [u8; 8] = [117u8, 115u8, 116u8, 97u8, 114u8, 32u8, 32u8, 0u8];
        assert(magic@ =~= gnu_magic());
        h.put(MAGIC_OFFSET, magic.as_slice());
        h.set_mtime(0);
        h
    }

    /// The 512 bytes of the record.
    pub fn as_bytes(&self) -> (b: &[u8])
        ensures
            b@ == self@,
            b@.len() == 512,
    {
        self.bytes.as_slice()
    }

    /// Stores the path of the entry, or says why it cannot be stored; the
    /// header is then unchanged.
    pub fn set_path(&mut self, path: &[u8]) -> (r: Result<(), FieldError>)
        ensures
            storable(path@, 100) ==> r is Ok && final(self)@ == with_name(old(self)@, path@),
            !storable(path@, 100) ==> r == Err::<(), FieldError>(refusal(path@, 100)) && final(self)@ == old(self)@,
    {
        self.put_text(NAME_OFFSET, NAME_LEN, path)
    }

    /// Stores the target of a link, or says why it cannot be stored; the
    /// header is then unchanged.
    pub fn set_link_name(&mut self, target: &[u8]) -> (r: Result<(), FieldError>)
        ensures
            storable(target@, 100) ==> r is Ok && final(self)@ == with_link_name(
                old(self)@,
                target@,
            ),
            !storable(target@, 100) ==> r == Err::<(), FieldError>(refusal(target@, 100))
                && final(self)@ == old(self)@,
    {
        self.put_text(LINKNAME_OFFSET, LINKNAME_LEN, target)
    }

    /// Stores the permission bits: their lowest seven octal digits.
    pub fn set_mode(&mut self, mode: u32)
        ensures
            final(self)@ == with_mode(old(self)@, mode),
    {
        let (mut field, _) = encode_octal(mode as u64, 7);
        field.push(0u8);
        self.put(MODE_OFFSET, field.as_slice());
    }

    /// Stores the owner's user id.
    pub fn set_uid(&mut self, uid: u64)
        ensures
            final(self)@ == with_uid(old(self)@, uid),
    {
        let field = encode_numeric(uid, 8);
        proof {
            lemma_numeric_field_len(uid as nat, 8);
        }
        self.put(UID_OFFSET, field.as_slice());
    }

    /// Stores the owner's group id.
    pub fn set_gid(&mut self, gid: u64)
        ensures
            final(self)@ == with_gid(old(self)@, gid),
    {
        let field = encode_numeric(gid, 8);
        proof {
            lemma_numeric_field_len(gid as nat, 8);
        }
        self.put(GID_OFFSET, field.as_slice());
    }

    /// Stores the length of the payload.
    pub fn set_size(&mut self, size: u64)
        ensures
            final(self)@ == with_size(old(self)@, size),
    {
        let field = encode_numeric(size, 12);
        proof {
            lemma_numeric_field_len(size as nat, 12);
        }
        self.put(SIZE_OFFSET, field.as_slice());
    }

    /// Stores the modification time.
    pub fn set_mtime(&mut self, mtime: u64)
        ensures
            final(self)@ == with_mtime(old(self)@, mtime),
    {
        let field = encode_numeric(mtime, 12);
        proof {
            lemma_numeric_field_len(mtime as nat, 12);
        }
        self.put(MTIME_OFFSET, field.as_slice());
    }

    /// Stores the entry type.
    pub fn set_entry_type(&mut self, ty: EntryType)
        ensures
            final(self)@ == with_entry_type(old(self)@, ty),
    {
        self.bytes[TYPE_OFFSET] = ty.as_byte();
    }

    /// Stores the major number of a device.
    pub fn set_device_major(&mut self, major: u32)
        ensures
            final(self)@ == with_device_major(old(self)@, major),
    {
        let field = encode_numeric(major as u64, 8);
        proof {
            lemma_numeric_field_len(major as nat, 8);
        }
        self.put(DEV_MAJOR_OFFSET, field.as_slice());
    }

    /// Stores the minor number of a device.
    pub fn set_device_minor(&mut self, minor: u32)
        ensures
            final(self)@ == with_device_minor(old(self)@, minor),
    {
        let field = encode_numeric(minor as u64, 8);
        proof {
            lemma_numeric_field_len(minor as nat, 8);
        }
        self.put(DEV_MINOR_OFFSET, field.as_slice());
    }

    /// Computes the checksum of the record as it stands and stores it.
    pub fn set_cksum(&mut self)
        ensures
            final(self)@ == with_cksum(old(self)@),
    {
        reveal(with_cksum);
        let ghost counted = overwrite(self@, 148, Seq::new(8, |i: int| 32u8));
        let mut sum: u32 = 0;
        let mut i: usize = 0;
        while i < 512
            invariant
                i <= 512,
                self@ == old(self)@,
                counted == overwrite(self@, 148, Seq::new(8, |i: int| 32u8)),
                sum == byte_sum(counted.take(i as int)),
                sum <= 255 * i,
            decreases 512 - i,
        {
            let b: u8 = if CKSUM_OFFSET <= i && i < CKSUM_OFFSET + 8 {
                32
            } else {
                self.bytes[i]
            };
            proof {
                assert(counted.take(i + 1).drop_last() =~= counted.take(i as int));
                assert(counted.take(i + 1).last() == b);
            }
            sum = sum + b as u32;
            i += 1;
        }
        proof {
            assert(counted.take(512) =~= counted);
        }
        let (mut field, _) = encode_octal(sum as u64, 7);
        field.push(0u8);
        self.put(CKSUM_OFFSET, field.as_slice());
    }

    /// Stores what the file system says of a file: owner, permissions and
    /// time as `mode` asks, then the entry type, the size, and zero device
    /// numbers.
    pub fn set_metadata_in_mode(&mut self, stat: &Metadata, mode: HeaderMode)
        ensures
            final(self)@ == with_metadata(old(self)@, *stat, mode),
    {
        reveal(with_metadata);
        match mode {
            HeaderMode::Complete => {
                self.set_mtime(stat.mtime);
                self.set_uid(stat.uid);
                self.set_gid(stat.gid);
                self.set_mode(stat.mode);
            },
            HeaderMode::Deterministic => {
                self.set_mtime(DETERMINISTIC_TIMESTAMP);
                self.set_uid(0);
                self.set_gid(0);
                self.set_mode(portable_mode_of(stat));
            },
            HeaderMode::Minimal => {
                self.set_mtime(0);
                self.set_uid(0);
                self.set_gid(0);
                self.set_mode(portable_mode_of(stat));
            },
        }
        self.set_entry_type(entry_type_of(stat.file_type));
        let size: u64 = match stat.file_type {
            FileType::Dir => 0,
            FileType::Symlink => 0,
            _ => stat.len,
        };
        self.set_size(size);
        self.set_device_major(0);
        self.set_device_minor(0);
    }
}

/// Writing a field that lies within a block keeps the length of the block
/// and every byte outside the field.
pub proof fn lemma_overwrite(block: Seq<u8>, at: int, field: Seq<u8>)
    requires
        0 <= at,
        at + field.len() <= block.len(),
    ensures
        overwrite(block, at, field).len() == block.len(),
        forall|i: int|
            0 <= i < at || at + field.len() <= i < block.len() ==> overwrite(block, at, field)[i]
                == block[i],
        forall|i: int| at <= i < at + field.len() ==> overwrite(block, at, field)[i] == field[i - at],
{
}

/// The header of an extension record is one block, and holds the type byte
/// that was asked for.
pub proof fn lemma_extension_block_shape(payload_len: u64, type_byte: u8)
    ensures
        extension_block(payload_len, type_byte).len() == 512,
        extension_block(payload_len, type_byte)[156] == EntryType::of_byte(type_byte).byte(),
{
    reveal(extension_block);
    reveal(gnu_block);
    reveal(with_cksum);
    let b0 = overwrite(zeros(512), 257, gnu_magic());
    lemma_overwrite(zeros(512), 257, gnu_magic());
    lemma_numeric_field_len(0, 12);
    lemma_numeric_field_len(0, 8);
    lemma_numeric_field_len(payload_len as nat, 12);
    lemma_octal_digits_len(0o644, 7);
    let b1 = with_mtime(b0, 0);
    lemma_overwrite(b0, 136, numeric_field(0, 12));
    let b2 = overwrite(b1, 0, long_link_name());
    lemma_overwrite(b1, 0, long_link_name());
    let b3 = with_mode(b2, 0o644);
    lemma_overwrite(b2, 100, octal_field(0o644, 8));
    let b4 = with_uid(b3, 0);
    lemma_overwrite(b3, 108, numeric_field(0, 8));
    let b5 = with_gid(b4, 0);
    lemma_overwrite(b4, 116, numeric_field(0, 8));
    let b6 = with_mtime(b5, 0);
    lemma_overwrite(b5, 136, numeric_field(0, 12));
    let b7 = with_size(b6, payload_len);
    lemma_overwrite(b6, 124, numeric_field(payload_len as nat, 12));
    let b8 = with_entry_type(b7, EntryType::of_byte(type_byte));
    lemma_octal_digits_len(checksum(b8), 7);
    lemma_overwrite(b8, 148, octal_field(checksum(b8), 8));
}

/// A numeric field is as long as its width.
pub proof fn lemma_numeric_field_len(value: nat, width: nat)
    requires
        width >= 8,
    ensures
        numeric_field(value, width).len() == width,
{
    lemma_octal_digits_len(value, (width - 1) as nat);
    lemma_binary_digits_len(value, 8);
}

/// There are as many octal digits as were asked for.
pub proof fn lemma_octal_digits_len(value: nat, n: nat)
    ensures
        octal_digits(value, n).len() == n,
    decreases n,
{
    if n > 0 {
        lemma_octal_digits_len(value / 8, (n - 1) as nat);
    }
}

/// There are as many base-256 digits as were asked for.
pub proof fn lemma_binary_digits_len(value: nat, n: nat)
    ensures
        binary_digits(value, n).len() == n,
    decreases n,
{
    if n > 0 {
        lemma_binary_digits_len(value / 256, (n - 1) as nat);
    }
}

/// Computes [`portable_mode`].
fn portable_mode_of(stat: &Metadata) -> (m: u32)
    ensures
        m == portable_mode(*stat),
{
    let is_dir = match stat.file_type {
        FileType::Dir => true,
        _ => false,
    };
    if is_dir || stat.mode & 0o100 == 0o100 {
        0o755
    } else {
        0o644
    }
}

/// Computes [`FileType::entry_type`].
pub fn entry_type_of(file_type: FileType) -> (t: EntryType)
    ensures
        t == file_type.entry_type(),
{
    match file_type {
        FileType::File => EntryType::Regular,
        FileType::Dir => EntryType::Directory,
        FileType::Symlink => EntryType::Symlink,
        FileType::Fifo => EntryType::Fifo,
        FileType::CharDevice => EntryType::Char,
        FileType::BlockDevice => EntryType::Block,
        FileType::Socket => EntryType::Other(32),
        FileType::Unknown => EntryType::Other(32),
    }
}

/// Makes the header of an extension record: the fixed name `././@LongLink`,
/// plain permissions, no owner, a zero time, the length of the payload, the
/// type byte, and the checksum over all of it.
pub fn prepare_header(payload_len: u64, type_byte: u8) -> (h: Header)
    ensures
        h@ == extension_block(payload_len, type_byte),
{
    reveal(extension_block);
    let mut h = Header::new_gnu();
    let name: [u8; 13] = [
        46u8,
        47u8,
        46u8,
        47u8,
        64u8,
        76u8,
        111u8,
        110u8,
        103u8,
        76u8,
        105u8,
        110u8,
        107u8,
    ];
    assert(name@ =~= long_link_name());
    h.put(NAME_OFFSET, name.as_slice());
    h.set_mode(0o644);
    h.set_uid(0);
    h.set_gid(0);
    h.set_mtime(0);
    h.set_size(payload_len);
    h.set_entry_type(EntryType::new(type_byte));
    h.set_cksum();
    h
}

} // verus!
