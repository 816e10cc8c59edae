//! Paths as the bytes that an archive stores.

use vstd::prelude::*;
use vstd::utf8::valid_utf8;
use crate::error::StreamError;

verus! {

/// The platform whose paths are to be archived.
#[derive(Clone, Copy, Debug, PartialEq, Eq, Structural)]
pub enum Host {
    /// Paths are byte strings, with `/` between components.
    Unix,
    /// Paths are text and may hold `\` between components.
    Other,
}

/// Length of the longest prefix of `data` that is valid UTF-8.
pub open spec fn utf8_prefix_len(data: Seq<u8>) -> nat
    decreases data.len(),
{
    if data.len() == 0 || valid_utf8(data) {
        data.len()
    } else {
        utf8_prefix_len(data.drop_last())
    }
}

/// `path` with every backslash turned into a slash.
pub open spec fn with_slashes(path: Seq<u8>) -> Seq<u8> {
    Seq::new(path.len(), |i: int| if path[i] == 92u8 { 47u8 } else { path[i] })
}

/// The bytes under which a path of `host` is archived, if it has any.
pub open spec fn archived_path(raw: Seq<u8>, host: Host) -> Option<Seq<u8>> {
    match host {
        Host::Unix => Some(raw),
        Host::Other => if valid_utf8(raw) {
            Some(with_slashes(raw))
        } else {
            None
        },
    }
}

/// How far `data` is valid UTF-8, as `core::str::from_utf8` finds it: the
/// whole length where it accepts `data`, else the `valid_up_to` of its
/// error. The prefix of that length is valid, and no longer prefix is.
#[verifier::external_body]
fn valid_up_to(data: &[u8]) -> (n: usize)
    ensures
        n <= data@.len(),
        valid_utf8(data@.take(n as int)),
        forall|m: int| n < m <= data@.len() ==> !valid_utf8(#[trigger] data@.take(m)),
{
    match core::str::from_utf8(data) {
        Ok(text) => text.len(),
        Err(e) => e.valid_up_to(),
    }
}

/// A prefix that is valid, and longer than any other valid prefix, has the
/// length that [`utf8_prefix_len`] gives.
proof fn lemma_longest_prefix(data: Seq<u8>, n: nat)
    requires
        n <= data.len(),
        valid_utf8(data.take(n as int)),
        forall|m: int| n < m <= data.len() ==> !valid_utf8(#[trigger] data.take(m)),
    ensures
        n == utf8_prefix_len(data),
    decreases data.len(),
{
    if data.len() == 0 {
    } else if valid_utf8(data) {
        assert(data.take(data.len() as int) =~= data);
    } else {
        assert(data.take(data.len() as int) =~= data);
        let shorter = data.drop_last();
        assert(n < data.len());
        assert(shorter.take(n as int) =~= data.take(n as int));
        assert forall|m: int| n < m <= shorter.len() implies !valid_utf8(
            #[trigger] shorter.take(m),
        ) by {
            assert(shorter.take(m) =~= data.take(m));
        }
        lemma_longest_prefix(shorter, n);
    }
}

/// Computes [`utf8_prefix_len`].
pub fn utf8_prefix(data: &[u8]) -> (n: usize)
    ensures
        n == utf8_prefix_len(data@),
        n <= data@.len(),
{
    let n = valid_up_to(data);
    proof {
        lemma_longest_prefix(data@, n as nat);
    }
    n
}

/// Turns the raw bytes of a path into the bytes that are archived: on Unix
/// the bytes as they are; elsewhere the path must be valid text, and its
/// backslashes become slashes.
pub fn path2bytes(raw: &[u8], host: Host) -> (r: Result<Vec<u8>, StreamError>)
    ensures
        match archived_path(raw@, host) {
            Some(bytes) => r is Ok && r->Ok_0@ == bytes,
            None => r == Err::<Vec<u8>, StreamError>(StreamError::PathEncoding),
        },
{
    let n: usize = raw.len();
    match host {
        Host::Unix => {
            let mut out: Vec<u8> = Vec::new();
            crate::block::push_all(&mut out, raw);
            Ok(out)
        },
        Host::Other => {
            let valid = utf8_prefix(raw);
            if valid < n {
                proof {
                    if valid_utf8(raw@) {
                        assert(utf8_prefix_len(raw@) == raw@.len());
                    }
                }
                return Err(StreamError::PathEncoding);
            }
            proof {
                assert(valid_utf8(raw@)) by {
                    if raw@.len() != 0 && !valid_utf8(raw@) {
                        lemma_prefix_len_short(raw@);
                    }
                }
            }
            let mut out: Vec<u8> = Vec::new();
            let mut i: usize = 0;
            while i < n
                invariant
                    i <= n,
                    n == raw@.len(),
                    out@ == with_slashes(raw@.take(i as int)),
                decreases n - i,
            {
                let b: u8 = raw[i];
                out.push(if b == 92 { 47 } else { b });
                i += 1;
                assert(out@ =~= with_slashes(raw@.take(i as int)));
            }
            assert(raw@.take(n as int) =~= raw@);
            Ok(out)
        },
    }
}

/// The longest valid prefix of bytes that are not valid as a whole is
/// shorter than they are.
proof fn lemma_prefix_len_short(data: Seq<u8>)
    requires
        data.len() != 0,
        !valid_utf8(data),
    ensures
        utf8_prefix_len(data) < data.len(),
{
    lemma_prefix_len_bound(data.drop_last());
}

/// No prefix is longer than the whole.
proof fn lemma_prefix_len_bound(data: Seq<u8>)
    ensures
        utf8_prefix_len(data) <= data.len(),
    decreases data.len(),
{
    if data.len() != 0 && !valid_utf8(data) {
        lemma_prefix_len_bound(data.drop_last());
    }
}

} // verus!
