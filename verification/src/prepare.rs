//! Making the bytes that open an entry: the header record, and before it the
//! extension records for a path or a link target that the header has no
//! room for.

use vstd::prelude::*;
use vstd::slice::slice_subrange;
use crate::block::{padded, padding_for, padding_len, push_all, push_zeros, zeros};
use crate::error::StreamError;
use crate::header::{
    extension_block, gnu_block, prepare_header, refusal, storable, with_cksum, with_device_major,
    with_device_minor, with_entry_type, with_link_name, with_metadata, with_name, EntryType,
    FieldError, FileType, Header, HeaderMode, Metadata, NAME_LEN, LINKNAME_LEN,
};
use crate::paths::{utf8_prefix, utf8_prefix_len};

verus! {

/// Type byte of the extension record that carries a long path.
pub const LONG_NAME: u8 = 76;

/// Type byte of the extension record that carries a long link target.
pub const LONG_LINK: u8 = 75;

/// An extension record for `value`: its header, then `value` closed by a
/// NUL byte and filled up with zeros to the end of its last block.
#[verifier::opaque]
pub open spec fn long_entry(value: Seq<u8>, type_byte: u8) -> Seq<u8> {
    extension_block((value.len() + 1) as u64, type_byte) + padded(value.push(0u8))
}

/// What is left of a long path in the header itself: of its first hundred
/// bytes, the longest prefix that is valid UTF-8.
#[verifier::opaque]
pub open spec fn name_prefix(path: Seq<u8>) -> Seq<u8> {
    let head = path.take(100);
    head.take(utf8_prefix_len(head) as int)
}

/// The name that the header of an entry at `path` holds.
pub open spec fn stored_name(path: Seq<u8>) -> Seq<u8> {
    if storable(path, 100) {
        path
    } else {
        name_prefix(path)
    }
}

/// What `path` asks for before its header: nothing where the header can
/// hold it, an extension record where it is too long for the header and
/// the header can hold its prefix, and a refusal otherwise.
pub open spec fn path_extension(path: Seq<u8>) -> Result<Option<Seq<u8>>, FieldError> {
    if storable(path, 100) {
        Ok(None)
    } else if path.len() < 100 {
        Err(refusal(path, 100))
    } else if storable(name_prefix(path), 100) {
        Ok(Some(long_entry(path, LONG_NAME)))
    } else {
        Err(refusal(name_prefix(path), 100))
    }
}

/// What the link target `target` asks for before its header: nothing where
/// the header can hold it, an extension record where it is too long for the
/// header, and a refusal otherwise.
pub open spec fn link_extension(target: Seq<u8>) -> Result<Option<Seq<u8>>, FieldError> {
    if storable(target, 100) {
        Ok(None)
    } else if target.len() < 100 {
        Err(refusal(target, 100))
    } else {
        Ok(Some(long_entry(target, LONG_LINK)))
    }
}

/// The link name that a header holds after `target` was offered to it: a
/// target that does not fit leaves the field as it was.
pub open spec fn with_target(block: Seq<u8>, target: Seq<u8>) -> Seq<u8> {
    if storable(target, 100) {
        with_link_name(block, target)
    } else {
        block
    }
}

/// The bytes of an extension record, or none.
pub open spec fn optional(extension: Option<Seq<u8>>) -> Seq<u8> {
    match extension {
        Some(bytes) => bytes,
        None => Seq::empty(),
    }
}

/// Makes [`long_entry`].
fn long_name_entry(value: &[u8], type_byte: u8) -> (entry: Vec<u8>)
    ensures
        entry@ == long_entry(value@, type_byte),
        entry@.len() % 512 == 0,
        entry@.len() >= 1024,
{
    reveal(long_entry);
    let mut payload: Vec<u8> = Vec::new();
    push_all(&mut payload, value);
    payload.push(0u8);
    let n: usize = payload.len();
    let header = prepare_header(n as u64, type_byte);
    let pad: usize = padding_for(n as u64);
    push_zeros(&mut payload, pad);
    let mut entry: Vec<u8> = Vec::new();
    push_all(&mut entry, header.as_bytes());
    push_all(&mut entry, payload.as_slice());
    proof {
        assert(payload@ =~= padded(value@.push(0u8)));
        assert(entry@ =~= long_entry(value@, type_byte));
    }
    entry
}

/// Stores `path` in `header`. Where the header has no room for it, the
/// header gets the prefix of the path that fits and is valid text, and the
/// extension record that carries the whole path is returned, to be sent
/// before the header. A path that is refused for another reason than its
/// length leaves the header as it was.
#[verifier::rlimit(40)]
pub fn prepare_header_path(header: &mut Header, path: &[u8]) -> (r: Result<
    Option<Vec<u8>>,
    StreamError,
>)
    ensures
        match path_extension(path@) {
            Ok(None) => r matches Ok(None),
            Ok(Some(extension)) => r matches Ok(Some(bytes)) && bytes@ == extension,
            Err(e) => r == Err::<Option<Vec<u8>>, StreamError>(StreamError::HeaderField(e)),
        },
        final(header)@ == (if path_extension(path@) is Ok {
            with_name(old(header)@, stored_name(path@))
        } else {
            old(header)@
        }),
        r matches Ok(Some(bytes)) ==> bytes@.len() % 512 == 0 && bytes@.len() >= 1024,
{
    match header.set_path(path) {
        Ok(()) => Ok(None),
        Err(e) => {
            if path.len() < NAME_LEN {
                return Err(StreamError::HeaderField(e));
            }
            let entry = long_name_entry(path, LONG_NAME);
            let head = slice_subrange(path, 0, NAME_LEN);
            let keep: usize = utf8_prefix(head);
            let truncated = slice_subrange(head, 0, keep);
            proof {
                reveal(name_prefix);
                assert(head@ =~= path@.take(100));
                assert(truncated@ =~= name_prefix(path@));
            }
            match header.set_path(truncated) {
                Ok(()) => Ok(Some(entry)),
                Err(e2) => Err(StreamError::HeaderField(e2)),
            }
        },
    }
}

/// Stores the link target `target` in `header`. Where the header has no
/// room for it, the link name of the header stays as it was, and the
/// extension record that carries the target is returned, to be sent before
/// the header.
pub fn prepare_header_link(header: &mut Header, target: &[u8]) -> (r: Result<
    Option<Vec<u8>>,
    StreamError,
>)
    ensures
        match link_extension(target@) {
            Ok(None) => r matches Ok(None),
            Ok(Some(extension)) => r matches Ok(Some(bytes)) && bytes@ == extension,
            Err(e) => r == Err::<Option<Vec<u8>>, StreamError>(StreamError::HeaderField(e)),
        },
        final(header)@ == with_target(old(header)@, target@),
        r matches Ok(Some(bytes)) ==> bytes@.len() % 512 == 0 && bytes@.len() >= 1024,
{
    match header.set_link_name(target) {
        Ok(()) => Ok(None),
        Err(e) => {
            if target.len() < LINKNAME_LEN {
                return Err(StreamError::HeaderField(e));
            }
            let entry = long_name_entry(target, LONG_LINK);
            Ok(Some(entry))
        },
    }
}

/// A path that is shorter than the name field never gets an extension
/// record.
pub proof fn lemma_short_path_needs_no_extension(path: Seq<u8>)
    requires
        path.len() <= 99,
    ensures
        !(path_extension(path) matches Ok(Some(_))),
{
}

/// A path that is longer than the name field, and that is not refused, gets
/// one extension record of the long-name type: a header block, then the path,
/// one NUL byte, and zeros up to the end of the block. The header of the
/// entry itself keeps the prefix of the path.
pub proof fn lemma_long_path_gets_one_extension(path: Seq<u8>)
    requires
        path.len() > 100,
        path_extension(path) is Ok,
    ensures
        path_extension(path) == Ok::<Option<Seq<u8>>, FieldError>(
            Some(
                extension_block((path.len() + 1) as u64, LONG_NAME) + path + seq![0u8] + zeros(
                    padding_len(path.len() + 1),
                ),
            ),
        ),
        extension_block((path.len() + 1) as u64, LONG_NAME).len() == 512,
        extension_block((path.len() + 1) as u64, LONG_NAME)[156] == LONG_NAME,
        optional(path_extension(path)->Ok_0).len() % 512 == 0,
        stored_name(path) == name_prefix(path),
{
    reveal(long_entry);
    let n = (path.len() + 1) as u64;
    crate::header::lemma_extension_block_shape(n, LONG_NAME);
    crate::block::lemma_padding_aligns(path.len() + 1);
    assert(path.push(0u8) =~= path + seq![0u8]);
    assert(long_entry(path, LONG_NAME) =~= extension_block(n, LONG_NAME) + path + seq![0u8]
        + zeros(padding_len(path.len() + 1)));
}

/// The bytes that open an entry: the extension records that it needs, and
/// the header block `block` with its checksum.
pub open spec fn opening(
    path_ext: Option<Seq<u8>>,
    link_ext: Option<Seq<u8>>,
    block: Seq<u8>,
) -> Seq<u8> {
    optional(path_ext) + optional(link_ext) + with_cksum(block)
}

/// The bytes that open the entry of a file on disk: archived under `name`,
/// described by `stat`, and, where it is a symbolic link, pointing to
/// `link_name`.
pub open spec fn file_header(
    name: Seq<u8>,
    stat: Metadata,
    link_name: Seq<u8>,
    mode: HeaderMode,
) -> Result<Seq<u8>, StreamError> {
    match path_extension(name) {
        Err(e) => Err(StreamError::HeaderField(e)),
        Ok(path_ext) => {
            let block = with_metadata(with_name(gnu_block(), stored_name(name)), stat, mode);
            if stat.file_type == FileType::Symlink {
                match link_extension(link_name) {
                    Err(e) => Err(StreamError::HeaderField(e)),
                    Ok(link_ext) => Ok(opening(path_ext, link_ext, with_target(block, link_name))),
                }
            } else {
                Ok(opening(path_ext, None, block))
            }
        },
    }
}

/// The entry type under which a special file is archived, if it has one.
pub open spec fn special_type(file_type: FileType) -> Result<EntryType, StreamError> {
    match file_type {
        FileType::Socket => Err(StreamError::Socket),
        FileType::Fifo => Ok(EntryType::Fifo),
        FileType::CharDevice => Ok(EntryType::Char),
        FileType::BlockDevice => Ok(EntryType::Block),
        _ => Err(StreamError::UnknownFileType),
    }
}

/// The major number in a device id.
pub open spec fn device_major(rdev: u64) -> u32 {
    (((rdev >> 32) & 0xffff_f000u64) | ((rdev >> 8) & 0x0000_0fffu64)) as u32
}

/// The minor number in a device id.
pub open spec fn device_minor(rdev: u64) -> u32 {
    (((rdev >> 12) & 0xffff_ff00u64) | (rdev & 0x0000_00ffu64)) as u32
}

/// The bytes that open the entry of a special file: archived under `name`
/// and described by `stat`. Every fifo and every device whose name the
/// header takes has such bytes; a socket has none, nor has a file of another
/// kind.
pub open spec fn special_header(name: Seq<u8>, stat: Metadata, mode: HeaderMode) -> Result<
    Seq<u8>,
    StreamError,
> {
    match special_type(stat.file_type) {
        Err(e) => Err(e),
        Ok(ty) => match path_extension(name) {
            Err(e) => Err(StreamError::HeaderField(e)),
            Ok(path_ext) => {
                let block = with_entry_type(
                    with_name(with_metadata(gnu_block(), stat, mode), stored_name(name)),
                    ty,
                );
                Ok(
                    opening(
                        path_ext,
                        None,
                        with_device_minor(
                            with_device_major(block, device_major(stat.rdev)),
                            device_minor(stat.rdev),
                        ),
                    ),
                )
            },
        },
    }
}

/// Puts together [`opening`] from the extension records and a finished
/// header.
pub fn encode_opening(path_ext: Option<Vec<u8>>, link_ext: Option<Vec<u8>>, header: &Header) -> (out:
    Vec<u8>)
    ensures
        out@ == match path_ext {
            Some(bytes) => bytes@,
            None => Seq::empty(),
        } + match link_ext {
            Some(bytes) => bytes@,
            None => Seq::empty(),
        } + header@,
        header@.len() == 512,
{
    let mut out: Vec<u8> = Vec::new();
    match path_ext {
        Some(bytes) => {
            push_all(&mut out, bytes.as_slice());
        },
        None => {},
    }
    match link_ext {
        Some(bytes) => {
            push_all(&mut out, bytes.as_slice());
        },
        None => {},
    }
    push_all(&mut out, header.as_bytes());
    assert(out@ =~= match path_ext {
        Some(bytes) => bytes@,
        None => Seq::empty(),
    } + match link_ext {
        Some(bytes) => bytes@,
        None => Seq::empty(),
    } + header@);
    out
}

/// Makes the bytes that open the entry of a file on disk. The file is
/// archived under `name`, or under `path` where no name is given; `stat` is
/// what the file system says of it, and `link_name` the target it points to
/// if it is a symbolic link.
#[verifier::rlimit(40)]
pub fn prepare_file_header(
    path: &[u8],
    name: Option<&[u8]>,
    stat: &Metadata,
    link_name: &[u8],
    mode: HeaderMode,
) -> (r: Result<Vec<u8>, StreamError>)
    ensures
        match file_header(
            match name {
                Some(n) => n@,
                None => path@,
            },
            *stat,
            link_name@,
            mode,
        ) {
            Ok(bytes) => r is Ok && r->Ok_0@ == bytes,
            Err(e) => r == Err::<Vec<u8>, StreamError>(e),
        },
        r is Ok ==> r->Ok_0@.len() % 512 == 0 && r->Ok_0@.len() >= 512,
{
    let ar_name: &[u8] = match name {
        Some(n) => n,
        None => path,
    };
    let mut header = Header::new_gnu();
    let path_ext = match prepare_header_path(&mut header, ar_name) {
        Ok(ext) => ext,
        Err(e) => {
            return Err(e);
        },
    };
    header.set_metadata_in_mode(stat, mode);
    let is_symlink = match stat.file_type {
        FileType::Symlink => true,
        _ => false,
    };
    let mut link_ext: Option<Vec<u8>> = None;
    if is_symlink {
        match prepare_header_link(&mut header, link_name) {
            Ok(ext) => {
                link_ext = ext;
            },
            Err(e) => {
                return Err(e);
            },
        }
    }
    header.set_cksum();
    Ok(encode_opening(path_ext, link_ext, &header))
}

/// Tells under which entry type a special file is archived; sockets and
/// files of no known kind are refused.
pub fn special_entry_type(file_type: FileType) -> (r: Result<EntryType, StreamError>)
    ensures
        r == special_type(file_type),
{
    match file_type {
        FileType::Socket => Err(StreamError::Socket),
        FileType::Fifo => Ok(EntryType::Fifo),
        FileType::CharDevice => Ok(EntryType::Char),
        FileType::BlockDevice => Ok(EntryType::Block),
        _ => Err(StreamError::UnknownFileType),
    }
}

/// Splits a device id into its major and minor number.
pub fn decode_device(rdev: u64) -> (r: (u32, u32))
    ensures
        r.0 == device_major(rdev),
        r.1 == device_minor(rdev),
{
    let major: u64 = ((rdev >> 32) & 0xffff_f000u64) | ((rdev >> 8) & 0x0000_0fffu64);
    let minor: u64 = ((rdev >> 12) & 0xffff_ff00u64) | (rdev & 0x0000_00ffu64);
    assert(((rdev >> 32) & 0xffff_f000u64) | ((rdev >> 8) & 0x0000_0fffu64) <= 0xffff_ffffu64)
        by (bit_vector);
    assert(((rdev >> 12) & 0xffff_ff00u64) | (rdev & 0x0000_00ffu64) <= 0xffff_ffffu64)
        by (bit_vector);
    (major as u32, minor as u32)
}

/// Makes the bytes that open the entry of a special file: a fifo or a
/// device. The file is archived under `name`, or under `path` where no name
/// is given; `stat` is what the file system says of it.
#[verifier::rlimit(40)]
pub fn prepare_special_header(
    path: &[u8],
    name: Option<&[u8]>,
    stat: &Metadata,
    mode: HeaderMode,
) -> (r: Result<Vec<u8>, StreamError>)
    ensures
        match special_header(
            match name {
                Some(n) => n@,
                None => path@,
            },
            *stat,
            mode,
        ) {
            Ok(bytes) => r is Ok && r->Ok_0@ == bytes,
            Err(e) => r == Err::<Vec<u8>, StreamError>(e),
        },
        r is Ok ==> r->Ok_0@.len() % 512 == 0 && r->Ok_0@.len() >= 512,
{
    let ar_name: &[u8] = match name {
        Some(n) => n,
        None => path,
    };
    let entry_type = match special_entry_type(stat.file_type) {
        Ok(ty) => ty,
        Err(e) => {
            return Err(e);
        },
    };
    let mut header = Header::new_gnu();
    header.set_metadata_in_mode(stat, mode);
    let path_ext = match prepare_header_path(&mut header, ar_name) {
        Ok(ext) => ext,
        Err(e) => {
            return Err(e);
        },
    };
    header.set_entry_type(entry_type);
    let (major, minor) = decode_device(stat.rdev);
    header.set_device_major(major);
    header.set_device_minor(minor);
    header.set_cksum();
    Ok(encode_opening(path_ext, None, &header))
}

} // verus!
