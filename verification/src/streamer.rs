//! The producer: entries are scheduled on it, and the archive is pulled out
//! of it into buffers that the caller owns.
//!
//! The producer holds headers, counts and paths, and no file or stream.
//! [`Streamer::read`] sends what the producer holds and says what it needs
//! next; whoever drives it examines the file or reads the payload, and
//! reports back with [`Streamer::supply_header`], [`Streamer::payload_read`]
//! or [`Streamer::payload_skip`].

use vstd::prelude::*;
use crate::block::{copy_bytes, fill_zeros, padding_for, padding_len, zeros};
use crate::error::StreamError;
use crate::header::{
    gnu_block, with_cksum, with_metadata, with_name, Header, HeaderMode, Metadata,
};
use crate::laws::{lemma_after, lemma_footprints_push};
use crate::model::{EntryKind, EntryView, Need, StreamerView};
use crate::walk::Visit;
use crate::prepare::{
    encode_opening, file_header, link_extension, opening, path_extension, prepare_file_header,
    prepare_header_link, prepare_header_path, prepare_special_header, special_header, stored_name,
    with_target,
};

verus! {

/// One scheduled entry.
pub struct Entry {
    kind: EntryKind,
    path: Vec<u8>,
    name: Option<Vec<u8>>,
    follow: bool,
    mode: HeaderMode,
    header: Option<Vec<u8>>,
    header_sent: usize,
    read_bytes: u64,
    padding: Option<usize>,
}

impl View for Entry {
    type V = EntryView;

    closed spec fn view(&self) -> EntryView {
        EntryView {
            kind: self.kind,
            path: self.path@,
            name: match self.name {
                Some(n) => Some(n@),
                None => None,
            },
            follow: self.follow,
            mode: self.mode,
            header: match self.header {
                Some(h) => Some(h@),
                None => None,
            },
            header_sent: self.header_sent as nat,
            read_bytes: self.read_bytes as nat,
            padding: match self.padding {
                Some(k) => Some(k as nat),
                None => None,
            },
        }
    }
}

impl Entry {
    /// An entry of which nothing has been sent.
    fn new(
        kind: EntryKind,
        path: &[u8],
        name: Option<&[u8]>,
        follow: bool,
        mode: HeaderMode,
        header: Option<Vec<u8>>,
    ) -> (e: Entry)
        ensures
            e@ == new_entry(
                kind,
                path@,
                match name {
                    Some(n) => Some(n@),
                    None => None,
                },
                follow,
                mode,
                match header {
                    Some(h) => Some(h@),
                    None => None,
                },
            ),
    {
        let mut own: Vec<u8> = Vec::new();
        crate::block::push_all(&mut own, path);
        let own_name: Option<Vec<u8>> = match name {
            Some(n) => {
                let mut v: Vec<u8> = Vec::new();
                crate::block::push_all(&mut v, n);
                Some(v)
            },
            None => None,
        };
        Entry {
            kind,
            path: own,
            name: own_name,
            follow,
            mode,
            header,
            header_sent: 0,
            read_bytes: 0,
            padding: None,
        }
    }
}

/// An entry of which nothing has been sent.
pub open spec fn new_entry(
    kind: EntryKind,
    path: Seq<u8>,
    name: Option<Seq<u8>>,
    follow: bool,
    mode: HeaderMode,
    header: Option<Seq<u8>>,
) -> EntryView {
    EntryView {
        kind,
        path,
        name,
        follow,
        mode,
        header,
        header_sent: 0,
        read_bytes: 0,
        padding: None,
    }
}

/// What became of a call of [`Streamer::read`].
#[derive(Clone, Copy, Debug, PartialEq, Eq, Structural)]
pub struct Progress {
    /// How many bytes were written to the front of the buffer.
    pub written: usize,
    /// What the producer needs before it can write more.
    pub need: Need,
}

/// A producer of one archive.
pub struct Streamer {
    mode: HeaderMode,
    follow: bool,
    entries: Vec<Entry>,
    current: usize,
    finish_remaining: usize,
}

impl View for Streamer {
    type V = StreamerView;

    closed spec fn view(&self) -> StreamerView {
        StreamerView {
            mode: self.mode,
            follow: self.follow,
            entries: self.entries@.map_values(|e: Entry| e@),
            current: self.current as nat,
            finish_remaining: self.finish_remaining as nat,
        }
    }
}

impl Streamer {
    /// Creates a producer with nothing scheduled. Headers made from the
    /// file system are complete, and symbolic links are followed.
    pub fn new() -> (s: Streamer)
        ensures
            s@ == StreamerView::initial(),
            s@.wf(),
    {
        let s = Streamer {
            mode: HeaderMode::Complete,
            follow: true,
            entries: Vec::new(),
            current: 0,
            finish_remaining: 1024,
        };
        assert(s@.entries =~= Seq::<EntryView>::empty());
        s
    }

    /// Chooses how much of the file system's record goes into the headers
    /// of the entries that are scheduled from now on by their path.
    pub fn mode(&mut self, mode: HeaderMode)
        ensures
            final(self)@ == (StreamerView { mode: mode, ..old(self)@ }),
    {
        self.mode = mode;
    }

    /// Chooses whether a symbolic link stands for the file it points to, or
    /// is archived as a link, for the entries that are scheduled from now
    /// on by their path.
    pub fn follow_symlinks(&mut self, follow: bool)
        ensures
            final(self)@ == (StreamerView { follow: follow, ..old(self)@ }),
    {
        self.follow = follow;
    }

    /// How much of the file system's record goes into the headers of the
    /// entries that are scheduled next.
    pub fn header_mode(&self) -> (mode: HeaderMode)
        ensures
            mode == self@.mode,
    {
        self.mode
    }

    /// Whether symbolic links are followed for the entries that are
    /// scheduled next.
    pub fn follows(&self) -> (follow: bool)
        ensures
            follow == self@.follow,
    {
        self.follow
    }

    /// Number of entries scheduled so far: the index that the next entry
    /// gets.
    pub fn len(&self) -> (n: usize)
        ensures
            n == self@.entries.len(),
    {
        self.entries.len()
    }

    /// The kind of the entry at `index`.
    pub fn entry_kind(&self, index: usize) -> (k: EntryKind)
        requires
            index < self@.entries.len(),
        ensures
            k == self@.entries[index as int].kind,
    {
        self.entries[index].kind
    }

    /// Where the file of the entry at `index` lies on disk.
    pub fn entry_path(&self, index: usize) -> (p: &[u8])
        requires
            index < self@.entries.len(),
        ensures
            p@ == self@.entries[index as int].path,
    {
        self.entries[index].path.as_slice()
    }

    /// Whether a symbolic link at the path of the entry at `index` stands
    /// for the file it points to.
    pub fn entry_follows(&self, index: usize) -> (f: bool)
        requires
            index < self@.entries.len(),
        ensures
            f == self@.entries[index as int].follow,
    {
        self.entries[index].follow
    }

    /// Puts `entry` at the end of the queue, unless the producer is closed.
    fn schedule(&mut self, entry: Entry)
        requires
            old(self)@.wf(),
            entry@.wf(),
            entry@.fresh(),
        ensures
            final(self)@ == old(self)@.scheduled(entry@),
            final(self)@.wf(),
            final(self)@.emitted() == old(self)@.emitted(),
    {
        if self.finish_remaining < 1024 {
            return ;
        }
        proof {
            lemma_footprints_push(self@.entries, entry@);
        }
        self.entries.push(entry);
        proof {
            assert(self@.entries =~= old(self)@.entries.push(entry@));
            let t = self@;
            assert forall|i: int| 0 <= i < t.entries.len() implies (#[trigger] t.entries[i]).wf() by {
                if i < old(self)@.entries.len() {
                    assert(t.entries[i] == old(self)@.entries[i]);
                }
            }
            assert forall|i: int| 0 <= i < t.current implies (#[trigger] t.entries[i]).complete() by {
                assert(t.entries[i] == old(self)@.entries[i]);
            }
            assert forall|i: int| t.current < i < t.entries.len() implies (
            #[trigger] t.entries[i]).fresh() by {
                if i < old(self)@.entries.len() {
                    assert(t.entries[i] == old(self)@.entries[i]);
                }
            }
            if t.current < old(self)@.entries.len() {
                assert(t.entries[t.current as int] == old(self)@.entries[t.current as int]);
            }
        }
    }

    /// Schedules an entry whose header is ready: `header` holds its size
    /// and its checksum. The payload stays with the caller, who hands it
    /// over when the entry's turn comes. As with everything that schedules
    /// an entry: once the first of the closing zero bytes has been sent, the
    /// archive is closed, and the entry is not taken.
    pub fn append(&mut self, header: Header)
        requires
            old(self)@.wf(),
        ensures
            final(self)@ == old(self)@.scheduled(
                new_entry(
                    EntryKind::Stream,
                    Seq::empty(),
                    None,
                    old(self)@.follow,
                    old(self)@.mode,
                    Some(header@),
                ),
            ),
            final(self)@.wf(),
    {
        let encoded = encode_opening(None, None, &header);
        assert(encoded@ =~= header@);
        self.append_stream_data(encoded);
    }

    /// Schedules an entry with a payload that the caller supplies, under
    /// the archive path `path`. The path is stored in `header`, with an
    /// extension record before it where the header has no room; the
    /// checksum of `header` is then set. A path that is refused leaves
    /// header and producer as they were.
    pub fn append_data(&mut self, header: &mut Header, path: &[u8]) -> (r: Result<(), StreamError>)
        requires
            old(self)@.wf(),
        ensures
            final(self)@.wf(),
            match path_extension(path@) {
                Ok(extension) => {
                    let block = with_name(old(header)@, stored_name(path@));
                    &&& r is Ok
                    &&& final(header)@ == with_cksum(block)
                    &&& final(self)@ == old(self)@.scheduled(
                        new_entry(
                            EntryKind::Stream,
                            Seq::empty(),
                            None,
                            old(self)@.follow,
                            old(self)@.mode,
                            Some(opening(extension, None, block)),
                        ),
                    )
                },
                Err(e) => {
                    &&& r == Err::<(), StreamError>(StreamError::HeaderField(e))
                    &&& final(header)@ == old(header)@
                    &&& final(self)@ == old(self)@
                },
            },
    {
        let extension = match prepare_header_path(header, path) {
            Ok(extension) => extension,
            Err(e) => {
                return Err(e);
            },
        };
        header.set_cksum();
        let encoded = encode_opening(extension, None, header);
        self.append_stream_data(encoded);
        Ok(())
    }

    /// Schedules a hard or symbolic link under the archive path `path`,
    /// pointing to `target`. Path and target are stored in `header`, each
    /// with an extension record before the header where it has no room;
    /// the checksum of `header` is then set. The entry type of `header` is
    /// the caller's to set. A path or target that is refused leaves the
    /// producer as it was.
    #[verifier::rlimit(40)]
    pub fn append_link(&mut self, header: &mut Header, path: &[u8], target: &[u8]) -> (r: Result<
        (),
        StreamError,
    >)
        requires
            old(self)@.wf(),
        ensures
            final(self)@.wf(),
            match path_extension(path@) {
                Ok(path_ext) => {
                    let named = with_name(old(header)@, stored_name(path@));
                    match link_extension(target@) {
                        Ok(link_ext) => {
                            let block = with_target(named, target@);
                            &&& r is Ok
                            &&& final(header)@ == with_cksum(block)
                            &&& final(self)@ == old(self)@.scheduled(
                                new_entry(
                                    EntryKind::Link,
                                    Seq::empty(),
                                    None,
                                    old(self)@.follow,
                                    old(self)@.mode,
                                    Some(opening(path_ext, link_ext, block)),
                                ),
                            )
                        },
                        Err(e) => {
                            &&& r == Err::<(), StreamError>(StreamError::HeaderField(e))
                            &&& final(header)@ == named
                            &&& final(self)@ == old(self)@
                        },
                    }
                },
                Err(e) => {
                    &&& r == Err::<(), StreamError>(StreamError::HeaderField(e))
                    &&& final(header)@ == old(header)@
                    &&& final(self)@ == old(self)@
                },
            },
    {
        let path_ext = match prepare_header_path(header, path) {
            Ok(extension) => extension,
            Err(e) => {
                return Err(e);
            },
        };
        let ghost named = header@;
        assert(named == with_name(old(header)@, stored_name(path@)));
        let link_ext = match prepare_header_link(header, target) {
            Ok(extension) => extension,
            Err(e) => {
                return Err(e);
            },
        };
        assert(header@ == with_target(named, target@));
        header.set_cksum();
        let encoded = encode_opening(path_ext, link_ext, header);
        let nowhere: [u8; 0] = [];
        let entry = Entry::new(
            EntryKind::Link,
            nowhere.as_slice(),
            None,
            self.follow,
            self.mode,
            Some(encoded),
        );
        assert(nowhere@ =~= Seq::<u8>::empty());
        self.schedule(entry);
        Ok(())
    }

    /// Schedules the file at `path`, under its own path. Nothing is looked
    /// up now: the file is examined and read when its turn comes.
    pub fn append_path(&mut self, path: &[u8]) -> (r: Result<(), StreamError>)
        requires
            old(self)@.wf(),
        ensures
            r is Ok,
            final(self)@ == old(self)@.scheduled(
                new_entry(
                    EntryKind::Path,
                    path@,
                    None,
                    old(self)@.follow,
                    old(self)@.mode,
                    None,
                ),
            ),
            final(self)@.wf(),
    {
        self.append_stream_file(path, None)
    }

    /// Schedules the file at `path`, under the archive path `name`.
    /// Nothing is looked up now: the file is examined and read when its
    /// turn comes. A directory gives an entry for itself, not for what is
    /// in it.
    pub fn append_path_with_name(&mut self, path: &[u8], name: &[u8]) -> (r: Result<
        (),
        StreamError,
    >)
        requires
            old(self)@.wf(),
        ensures
            r is Ok,
            final(self)@ == old(self)@.scheduled(
                new_entry(
                    EntryKind::Path,
                    path@,
                    Some(name@),
                    old(self)@.follow,
                    old(self)@.mode,
                    None,
                ),
            ),
            final(self)@.wf(),
    {
        self.append_stream_file(path, Some(name))
    }

    /// Schedules an entry with a payload that the caller supplies, under
    /// the archive path `path`, with a header made from `stat`: what the
    /// file system says of the open file that is the payload. A path that
    /// is refused leaves the producer as it was.
    #[verifier::rlimit(40)]
    pub fn append_file(&mut self, path: &[u8], stat: &Metadata) -> (r: Result<(), StreamError>)
        requires
            old(self)@.wf(),
        ensures
            final(self)@.wf(),
            match path_extension(path@) {
                Ok(extension) => {
                    &&& r is Ok
                    &&& final(self)@ == old(self)@.scheduled(
                        new_entry(
                            EntryKind::Stream,
                            Seq::empty(),
                            None,
                            old(self)@.follow,
                            old(self)@.mode,
                            Some(
                                opening(
                                    extension,
                                    None,
                                    with_metadata(
                                        with_name(gnu_block(), stored_name(path@)),
                                        *stat,
                                        old(self)@.mode,
                                    ),
                                ),
                            ),
                        ),
                    )
                },
                Err(e) => {
                    &&& r == Err::<(), StreamError>(StreamError::HeaderField(e))
                    &&& final(self)@ == old(self)@
                },
            },
    {
        let mut header = Header::new_gnu();
        let extension = match prepare_header_path(&mut header, path) {
            Ok(extension) => extension,
            Err(e) => {
                return Err(e);
            },
        };
        header.set_metadata_in_mode(stat, self.mode);
        header.set_cksum();
        let encoded = encode_opening(extension, None, &header);
        self.append_stream_data(encoded);
        Ok(())
    }

    /// Schedules the directory at `src_path`, under the archive path
    /// `path`: an entry for the directory itself, not for what is in it.
    pub fn append_dir(&mut self, path: &[u8], src_path: &[u8]) -> (r: Result<(), StreamError>)
        requires
            old(self)@.wf(),
        ensures
            r is Ok,
            final(self)@ == old(self)@.scheduled(
                new_entry(
                    EntryKind::Path,
                    src_path@,
                    Some(path@),
                    old(self)@.follow,
                    old(self)@.mode,
                    None,
                ),
            ),
            final(self)@.wf(),
    {
        self.append_stream_file(src_path, Some(path))
    }

    /// Schedules what a walk of a directory tree makes of one file: the
    /// file lies at `src`, is archived under `dest`, and `visit` is what
    /// the walk decided for it. A directory that is descended into gets an
    /// entry of its own unless `dest` is empty. Whatever the decision, the
    /// entry is archived under `dest`, and `src` is only where it is read.
    pub fn append_dir_all(&mut self, dest: &[u8], src: &[u8], visit: Visit) -> (r: Result<
        (),
        StreamError,
    >)
        requires
            old(self)@.wf(),
        ensures
            r is Ok,
            final(self)@ == walked(old(self)@, dest@, src@, visit),
            final(self)@.wf(),
    {
        match visit {
            Visit::Descend => {
                if dest.len() == 0 {
                    Ok(())
                } else {
                    self.append_dir(dest, src)
                }
            },
            Visit::Special => self.append_special(src, Some(dest)),
            Visit::Regular => self.append_stream_file(src, Some(dest)),
        }
    }

    /// Schedules an entry whose opening bytes are `encoded` and whose
    /// payload the caller supplies.
    fn append_stream_data(&mut self, encoded: Vec<u8>)
        requires
            old(self)@.wf(),
            encoded@.len() >= 512,
            encoded@.len() % 512 == 0,
        ensures
            final(self)@ == old(self)@.scheduled(
                new_entry(
                    EntryKind::Stream,
                    Seq::empty(),
                    None,
                    old(self)@.follow,
                    old(self)@.mode,
                    Some(encoded@),
                ),
            ),
            final(self)@.wf(),
    {
        let nowhere: [u8; 0] = [];
        let entry = Entry::new(
            EntryKind::Stream,
            nowhere.as_slice(),
            None,
            self.follow,
            self.mode,
            Some(encoded),
        );
        assert(nowhere@ =~= Seq::<u8>::empty());
        self.schedule(entry);
    }

    /// Schedules the fifo or device at `path`, under the archive path `name`
    /// or, if there is none, under its own path. Nothing is looked up now:
    /// the file is examined when its turn comes.
    pub fn append_special(&mut self, path: &[u8], name: Option<&[u8]>) -> (r: Result<
        (),
        StreamError,
    >)
        requires
            old(self)@.wf(),
        ensures
            r is Ok,
            final(self)@ == old(self)@.scheduled(
                new_entry(
                    EntryKind::Special,
                    path@,
                    match name {
                        Some(n) => Some(n@),
                        None => None,
                    },
                    old(self)@.follow,
                    old(self)@.mode,
                    None,
                ),
            ),
            final(self)@.wf(),
    {
        let entry = Entry::new(EntryKind::Special, path, name, self.follow, self.mode, None);
        self.schedule(entry);
        Ok(())
    }

    /// Schedules the file at `path`, under the archive path `name` or, if
    /// there is none, under its own path.
    pub fn append_stream_file(&mut self, path: &[u8], name: Option<&[u8]>) -> (r: Result<
        (),
        StreamError,
    >)
        requires
            old(self)@.wf(),
        ensures
            r is Ok,
            final(self)@ == old(self)@.scheduled(
                new_entry(
                    EntryKind::Path,
                    path@,
                    match name {
                        Some(n) => Some(n@),
                        None => None,
                    },
                    old(self)@.follow,
                    old(self)@.mode,
                    None,
                ),
            ),
            final(self)@.wf(),
    {
        let entry = Entry::new(EntryKind::Path, path, name, self.follow, self.mode, None);
        self.schedule(entry);
        Ok(())
    }

    /// Tells what the producer needs from outside before it can send more.
    pub fn need(&self) -> (need: Need)
        requires
            self@.wf(),
        ensures
            need == self@.blocker(),
    {
        if self.current >= self.entries.len() {
            return Need::Nothing;
        }
        let i: usize = self.current;
        let sent: usize = self.entries[i].header_sent;
        match &self.entries[i].header {
            None => Need::Header { index: i },
            Some(h) => {
                let payload = match self.entries[i].kind {
                    EntryKind::Path => true,
                    EntryKind::Stream => true,
                    _ => false,
                };
                let padded = match self.entries[i].padding {
                    Some(_) => true,
                    None => false,
                };
                if sent == h.len() && payload && !padded {
                    Need::Payload { index: i, offset: self.entries[i].read_bytes }
                } else {
                    Need::Nothing
                }
            },
        }
    }

    /// Length of the run.
    fn run_len(&self) -> (n: usize)
        requires
            self@.wf(),
        ensures
            n == self@.run().len(),
    {
        if self.current >= self.entries.len() {
            return self.finish_remaining;
        }
        let i: usize = self.current;
        let sent: usize = self.entries[i].header_sent;
        proof {
            assert(self@.entries[i as int].wf());
        }
        match &self.entries[i].header {
            None => 0,
            Some(h) => {
                if sent < h.len() {
                    h.len() - sent
                } else {
                    match self.entries[i].padding {
                        Some(k) => k,
                        None => 0,
                    }
                }
            },
        }
    }

    /// Writes the first `k` bytes of the run into `buffer` at `at`.
    fn send(&mut self, buffer: &mut [u8], at: usize, k: usize)
        requires
            old(self)@.wf(),
            0 < k <= old(self)@.run().len(),
            at + k <= old(buffer)@.len(),
        ensures
            final(self)@ == old(self)@.after(k as nat),
            final(buffer)@ == old(buffer)@.take(at as int) + old(self)@.run().take(k as int) + old(
                buffer,
            )@.skip(at + k),
    {
        if self.current >= self.entries.len() {
            fill_zeros(buffer, at, k);
            self.finish_remaining = self.finish_remaining - k;
            proof {
                assert(old(self)@.run().take(k as int) =~= zeros(k as nat));
            }
            return ;
        }
        let i: usize = self.current;
        let sent: usize = self.entries[i].header_sent;
        let payload = match self.entries[i].kind {
            EntryKind::Path => true,
            EntryKind::Stream => true,
            _ => false,
        };
        proof {
            assert(self@.entries[i as int].wf());
        }
        let total: usize = match &self.entries[i].header {
            Some(h) => h.len(),
            None => 0,
        };
        if sent < total {
            match &self.entries[i].header {
                Some(h) => {
                    copy_bytes(buffer, at, h.as_slice(), sent, k);
                    proof {
                        assert(old(self)@.run().take(k as int) =~= h@.subrange(
                            sent as int,
                            sent + k,
                        ));
                    }
                },
                None => {},
            }
            self.entries[i].header_sent = sent + k;
            if sent + k == total && !payload {
                self.current = i + 1;
            }
        } else {
            let owed: usize = match self.entries[i].padding {
                Some(rest) => rest,
                None => 0,
            };
            fill_zeros(buffer, at, k);
            proof {
                assert(old(self)@.run().take(k as int) =~= zeros(k as nat));
            }
            self.entries[i].padding = Some(owed - k);
            if owed - k == 0 {
                self.current = i + 1;
            }
        }
        proof {
            assert(self@.entries =~= old(self)@.after(k as nat).entries);
        }
    }

    /// Fills `buffer` from the front with the next bytes of the archive,
    /// as far as the producer holds them: it stops where the buffer is
    /// full, where the archive is finished, or where something is needed
    /// from outside, and says which. Calls with small buffers give the
    /// same bytes as one call with a large one.
    #[verifier::rlimit(40)]
    pub fn read(&mut self, buffer: &mut [u8]) -> (out: Progress)
        requires
            old(self)@.wf(),
        ensures
            final(self)@.wf(),
            final(self)@ == old(self)@.produce(old(buffer)@.len()).state,
            out.written == old(self)@.produce(old(buffer)@.len()).bytes.len(),
            out.written <= old(buffer)@.len(),
            final(buffer)@ == old(self)@.produce(old(buffer)@.len()).bytes + old(buffer)@.skip(
                out.written as int,
            ),
            final(self)@.emitted() == old(self)@.emitted() + out.written,
            out.need == (if out.written == old(buffer)@.len() {
                Need::Nothing
            } else {
                final(self)@.blocker()
            }),
            out.written < old(buffer)@.len() ==> final(self)@.run().len() == 0,
    {
        let n: usize = buffer.len();
        let mut written: usize = 0;
        let ghost start = self@;
        assert(buffer@.take(0) =~= Seq::<u8>::empty());
        loop
            invariant
                written <= n,
                n == buffer@.len(),
                n == old(buffer)@.len(),
                start == old(self)@,
                self@.wf(),
                self@.emitted() == start.emitted() + written,
                start.produce(n as nat).state == self@.produce((n - written) as nat).state,
                start.produce(n as nat).bytes == buffer@.take(written as int) + self@.produce(
                    (n - written) as nat,
                ).bytes,
                buffer@.skip(written as int) == old(buffer)@.skip(written as int),
            ensures
                written == n || self@.run().len() == 0,
            decreases n - written,
        {
            if written == n {
                break ;
            }
            let available: usize = self.run_len();
            if available == 0 {
                break ;
            }
            let k: usize = if n - written <= available {
                n - written
            } else {
                available
            };
            let ghost before = self@;
            let ghost filled = buffer@;
            proof {
                lemma_after(before, k as nat);
            }
            self.send(buffer, written, k);
            proof {
                assert(buffer@.take(written + k) =~= filled.take(written as int)
                    + before.run().take(k as int));
                assert(buffer@.skip(written + k) =~= filled.skip(written + k));
                assert(filled.skip(written + k) =~= filled.skip(written as int).skip(k as int));
                assert(old(buffer)@.skip(written + k) =~= old(buffer)@.skip(written as int).skip(
                    k as int,
                ));
            }
            written = written + k;
        }
        proof {
            let rest = self@.produce((n - written) as nat);
            assert(rest.state == self@ && rest.bytes =~= Seq::<u8>::empty());
            assert(buffer@ =~= buffer@.take(written as int) + buffer@.skip(written as int));
            assert(start.produce(n as nat).bytes =~= buffer@.take(written as int));
        }
        let need = if written == n {
            Need::Nothing
        } else {
            self.need()
        };
        Progress { written, need }
    }

    /// Takes what the file system says of the file of the current entry,
    /// and makes the entry's header from it: `stat` describes the file at
    /// the entry's path, and `link_name` is the target it points to if it
    /// is a symbolic link. A file that cannot be archived leaves the
    /// producer as it was.
    #[verifier::rlimit(40)]
    pub fn supply_header(&mut self, stat: &Metadata, link_name: &[u8]) -> (r: Result<
        (),
        StreamError,
    >)
        requires
            old(self)@.wf(),
            old(self)@.awaits_header(),
        ensures
            final(self)@.wf(),
            match lazy_header(old(self)@.entries[old(self)@.current as int], *stat, link_name@) {
                Ok(bytes) => r is Ok && final(self)@ == old(self)@.with_header(bytes),
                Err(e) => r == Err::<(), StreamError>(e) && final(self)@ == old(self)@,
            },
            final(self)@.emitted() == old(self)@.emitted(),
    {
        let i: usize = self.current;
        proof {
            assert(self@.entries[i as int].wf());
        }
        let name: Option<&[u8]> = match &self.entries[i].name {
            Some(n) => Some(n.as_slice()),
            None => None,
        };
        let made = match self.entries[i].kind {
            EntryKind::Special => prepare_special_header(
                self.entries[i].path.as_slice(),
                name,
                stat,
                self.entries[i].mode,
            ),
            _ => prepare_file_header(
                self.entries[i].path.as_slice(),
                name,
                stat,
                link_name,
                self.entries[i].mode,
            ),
        };
        match made {
            Ok(bytes) => {
                let ghost e2 = EntryView { header: Some(bytes@), ..self@.entries[i as int] };
                proof {
                    crate::laws::lemma_footprints_update(self@.entries, i as int, e2);
                }
                self.entries[i].header = Some(bytes);
                proof {
                    let t = self@;
                    assert(t.entries =~= old(self)@.with_header(bytes@).entries);
                    assert forall|j: int| 0 <= j < t.entries.len() implies (
                    #[trigger] t.entries[j]).wf() by {
                        if j != i {
                            assert(t.entries[j] == old(self)@.entries[j]);
                        }
                    }
                    assert forall|j: int| 0 <= j < t.current implies (
                    #[trigger] t.entries[j]).complete() by {
                        assert(t.entries[j] == old(self)@.entries[j]);
                    }
                    assert forall|j: int| t.current < j < t.entries.len() implies (
                    #[trigger] t.entries[j]).fresh() by {
                        assert(t.entries[j] == old(self)@.entries[j]);
                    }
                }
                Ok(())
            },
            Err(e) => Err(e),
        }
    }

    /// Takes note that the payload of the current entry gave `n` more
    /// bytes, which the caller of [`Streamer::read`] put behind what `read`
    /// wrote. No bytes means that the payload has ended: the entry then
    /// owes the zero bytes that fill its last block, or is done if it
    /// needs none.
    pub fn payload_read(&mut self, n: usize)
        requires
            old(self)@.wf(),
            old(self)@.awaits_payload(),
            old(self)@.entries[old(self)@.current as int].read_bytes + n <= u64::MAX,
        ensures
            final(self)@.wf(),
            final(self)@ == old(self)@.after_payload(n as nat),
            final(self)@.emitted() == old(self)@.emitted() + n,
    {
        let i: usize = self.current;
        let so_far: u64 = self.entries[i].read_bytes;
        proof {
            assert(self@.entries[i as int].wf());
            assert(i < self.entries.len());
        }
        if n > 0 {
            let ghost e2 = EntryView {
                read_bytes: (so_far + n) as nat,
                ..self@.entries[i as int]
            };
            proof {
                crate::laws::lemma_footprints_update(self@.entries, i as int, e2);
            }
            self.entries[i].read_bytes = so_far + n as u64;
        } else {
            let pad: usize = padding_for(so_far);
            if pad == 0 {
                self.current = i + 1;
            } else {
                let ghost e2 = EntryView {
                    padding: Some(pad as nat),
                    ..self@.entries[i as int]
                };
                proof {
                    crate::laws::lemma_footprints_update(self@.entries, i as int, e2);
                }
                self.entries[i].padding = Some(pad);
            }
        }
        proof {
            let t = self@;
            assert(t.entries =~= old(self)@.after_payload(n as nat).entries);
            assert forall|j: int| 0 <= j < t.entries.len() implies (#[trigger] t.entries[j]).wf() by {
                if j != i {
                    assert(t.entries[j] == old(self)@.entries[j]);
                }
            }
            assert forall|j: int| 0 <= j < t.current implies (#[trigger] t.entries[j]).complete() by {
                if j != i {
                    assert(t.entries[j] == old(self)@.entries[j]);
                }
            }
            assert forall|j: int| t.current < j < t.entries.len() implies (
            #[trigger] t.entries[j]).fresh() by {
                assert(t.entries[j] == old(self)@.entries[j]);
            }
            if t.current < t.entries.len() && t.current != i {
                assert(old(self)@.entries[t.current as int].fresh());
                assert(old(self)@.entries[t.current as int].wf());
            }
        }
    }

    /// Takes note that the payload of the current entry is given up,
    /// because what lies at its path is no regular file: the next entry
    /// takes its turn, and no padding is sent.
    pub fn payload_skip(&mut self)
        requires
            old(self)@.wf(),
            old(self)@.awaits_payload(),
        ensures
            final(self)@.wf(),
            final(self)@ == old(self)@.after_skip(),
            final(self)@.emitted() == old(self)@.emitted(),
    {
        let i: usize = self.current;
        proof {
            assert(self@.entries[i as int].wf());
            assert(i < self.entries.len());
        }
        self.current = i + 1;
        proof {
            let t = self@;
            assert(t.entries =~= old(self)@.entries);
            if t.current < t.entries.len() {
                assert(old(self)@.entries[t.current as int].fresh());
                assert(old(self)@.entries[t.current as int].wf());
            }
        }
    }
}

impl Default for Streamer {
    fn default() -> (s: Streamer)
        ensures
            s@ == StreamerView::initial(),
            s@.wf(),
    {
        Streamer::new()
    }
}

/// The state after a walk of a directory tree has dealt with one file.
pub open spec fn walked(s: StreamerView, dest: Seq<u8>, src: Seq<u8>, visit: Visit) -> StreamerView {
    match visit {
        Visit::Descend => if dest.len() == 0 {
            s
        } else {
            s.scheduled(new_entry(EntryKind::Path, src, Some(dest), s.follow, s.mode, None))
        },
        Visit::Special => s.scheduled(
            new_entry(EntryKind::Special, src, Some(dest), s.follow, s.mode, None),
        ),
        Visit::Regular => s.scheduled(
            new_entry(EntryKind::Path, src, Some(dest), s.follow, s.mode, None),
        ),
    }
}

/// The header that is made for an entry when its turn comes, from what the
/// file system then says of its file. The entry is archived under its name,
/// or under its path where it has no name.
pub open spec fn lazy_header(e: EntryView, stat: Metadata, link_name: Seq<u8>) -> Result<
    Seq<u8>,
    StreamError,
> {
    let name = match e.name {
        Some(n) => n,
        None => e.path,
    };
    if e.kind == EntryKind::Special {
        special_header(name, stat, e.mode)
    } else {
        file_header(name, stat, link_name, e.mode)
    }
}

} // verus!
