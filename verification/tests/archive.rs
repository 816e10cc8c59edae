use std::collections::HashMap;

use tarstream::error::StreamError;
use tarstream::header::{EntryType, FieldError, FileType, Header, HeaderMode, Metadata};
use tarstream::model::{EntryKind, Need};
use tarstream::paths::Host;
use tarstream::streamer::Streamer;
use tarstream::walk::{child_dest, look, DirWalk, Look, Visit, WalkItem};

/// What lies outside the producer: the payloads that were handed over with
/// stream entries, and a file system.
struct World {
    streams: HashMap<usize, Vec<u8>>,
    stats: HashMap<Vec<u8>, Metadata>,
    links: HashMap<Vec<u8>, Vec<u8>>,
    files: HashMap<Vec<u8>, Vec<u8>>,
    children: HashMap<Vec<u8>, Vec<Vec<u8>>>,
    chunk: usize,
}

impl World {
    fn new() -> World {
        World {
            streams: HashMap::new(),
            stats: HashMap::new(),
            links: HashMap::new(),
            files: HashMap::new(),
            children: HashMap::new(),
            chunk: usize::MAX,
        }
    }

    fn file(&mut self, path: &[u8], content: &[u8]) {
        self.stats.insert(path.to_vec(), stat_of(FileType::File, content.len() as u64));
        self.files.insert(path.to_vec(), content.to_vec());
    }

    fn dir(&mut self, path: &[u8], children: &[&[u8]]) {
        self.stats.insert(path.to_vec(), stat_of(FileType::Dir, 4096));
        self.children
            .insert(path.to_vec(), children.iter().map(|c| c.to_vec()).collect());
    }
}

fn stat_of(file_type: FileType, len: u64) -> Metadata {
    Metadata { file_type, len, mode: 0o644, mtime: 0, uid: 0, gid: 0, rdev: 0 }
}

/// One read as a driver performs it: the producer writes what it holds,
/// and is given what it asks for, until the buffer is full or the archive
/// is finished.
fn pull(streamer: &mut Streamer, world: &World, buffer: &mut [u8]) -> usize {
    let mut n = 0;
    loop {
        let out = streamer.read(&mut buffer[n..]);
        n += out.written;
        match out.need {
            Need::Nothing => return n,
            Need::Header { index } => {
                let path = streamer.entry_path(index).to_vec();
                let stat = world.stats[&path];
                let link = world.links.get(&path).cloned().unwrap_or_default();
                streamer.supply_header(&stat, &link).unwrap();
            }
            Need::Payload { index, offset } => {
                assert!(n < buffer.len());
                let data: &[u8] = match streamer.entry_kind(index) {
                    EntryKind::Stream => &world.streams[&index],
                    _ => {
                        let path = streamer.entry_path(index).to_vec();
                        if world.stats[&path].file_type != FileType::File {
                            streamer.payload_skip();
                            continue;
                        }
                        &world.files[&path]
                    }
                };
                let rest = &data[offset as usize..];
                let k = rest.len().min(buffer.len() - n).min(world.chunk);
                buffer[n..n + k].copy_from_slice(&rest[..k]);
                streamer.payload_read(k);
                n += k;
            }
        }
    }
}

fn drain(streamer: &mut Streamer, world: &World, size: usize) -> Vec<u8> {
    let mut all = Vec::new();
    let mut buffer = vec![0xaau8; size];
    loop {
        let n = pull(streamer, world, &mut buffer);
        if n == 0 {
            return all;
        }
        all.extend_from_slice(&buffer[..n]);
    }
}

fn foo_header(size: u64) -> Header {
    let mut header = Header::new_gnu();
    header.set_path(b"foo").unwrap();
    header.set_size(size);
    header.set_cksum();
    header
}

fn four_byte_archive() -> (Streamer, World) {
    let mut streamer = Streamer::new();
    let mut world = World::new();
    world.streams.insert(streamer.len(), vec![1, 2, 3, 4]);
    streamer.append(foo_header(4));
    (streamer, world)
}

fn mixed_archive() -> (Streamer, World) {
    let mut streamer = Streamer::new();
    let mut world = World::new();
    world.file(b"/data/notes.txt", &[b'n'; 700]);
    world.dir(b"/data", &[]);
    world.stats.insert(b"/data/pipe".to_vec(), stat_of(FileType::Fifo, 0));
    world.streams.insert(streamer.len(), (0..1000u32).map(|i| i as u8).collect());
    let mut header = Header::new_gnu();
    header.set_size(1000);
    let long: Vec<u8> = (0..300).map(|i| b'a' + (i % 26) as u8).collect();
    streamer.append_data(&mut header, &long).unwrap();
    streamer.append_path_with_name(b"/data/notes.txt", b"notes.txt").unwrap();
    streamer.append_dir(b"data", b"/data").unwrap();
    let mut link = Header::new_gnu();
    link.set_entry_type(EntryType::Symlink);
    link.set_size(0);
    streamer.append_link(&mut link, b"latest", b"notes.txt").unwrap();
    streamer.append_special(b"/data/pipe", None).unwrap();
    world.streams.insert(streamer.len(), Vec::new());
    streamer.append(foo_header(0));
    (streamer, world)
}

#[test]
fn empty_archive_is_two_zero_blocks() {
    let mut streamer = Streamer::new();
    let mut buffer = vec![7u8; 4096];
    let out = streamer.read(&mut buffer);
    assert_eq!(out.written, 1024);
    assert_eq!(out.need, Need::Nothing);
    assert!(buffer[..1024].iter().all(|b| *b == 0));
    assert!(buffer[1024..].iter().all(|b| *b == 7));
    let again = streamer.read(&mut buffer);
    assert_eq!(again.written, 0);
    assert_eq!(again.need, Need::Nothing);
}

#[test]
fn empty_archive_drained() {
    let mut streamer = Streamer::new();
    let all = drain(&mut streamer, &World::new(), 100);
    assert_eq!(all, vec![0u8; 1024]);
    let mut other = Streamer::default();
    assert!(other.follows());
    assert_eq!(other.header_mode(), HeaderMode::Complete);
    assert_eq!(drain(&mut other, &World::new(), 2048), vec![0u8; 1024]);
}

#[test]
fn one_four_byte_entry() {
    let (mut streamer, world) = four_byte_archive();
    let all = drain(&mut streamer, &world, 8192);
    assert_eq!(all.len(), 2048);
    assert_eq!(&all[..512], foo_header(4).as_bytes());
    assert_eq!(&all[..3], b"foo");
    assert_eq!(&all[124..136], b"00000000004\0");
    assert_eq!(&all[148..156], b"0004327\0");
    assert_eq!(&all[512..516], &[1, 2, 3, 4]);
    assert!(all[516..1024].iter().all(|b| *b == 0));
    assert!(all[1024..2048].iter().all(|b| *b == 0));
}

#[test]
fn long_path_entry() {
    let mut streamer = Streamer::new();
    let mut world = World::new();
    let path: Vec<u8> = (0..200).map(|i| b'a' + (i % 26) as u8).collect();
    let mut header = Header::new_gnu();
    header.set_size(0);
    world.streams.insert(streamer.len(), Vec::new());
    streamer.append_data(&mut header, &path).unwrap();
    let all = drain(&mut streamer, &world, 8192);
    assert_eq!(all.len(), 1024 + 512 + 1024);
    assert_eq!(all[156], b'L');
    assert_eq!(&all[..13], b"././@LongLink");
    assert_eq!(&all[124..136], b"00000000311\0");
    assert_eq!(&all[512..712], &path[..]);
    assert_eq!(all[712], 0);
    assert!(all[713..1024].iter().all(|b| *b == 0));
    assert_eq!(&all[1024..1536], header.as_bytes());
    assert_eq!(&all[1024..1124], &path[..100]);
    assert!(all[1536..].iter().all(|b| *b == 0));
}

#[test]
fn payload_of_one_block_gets_no_padding() {
    let mut streamer = Streamer::new();
    let mut world = World::new();
    world.streams.insert(streamer.len(), vec![9u8; 512]);
    streamer.append(foo_header(512));
    world.streams.insert(streamer.len(), vec![5u8; 1]);
    streamer.append(foo_header(1));
    let all = drain(&mut streamer, &world, 8192);
    assert_eq!(all.len(), 512 + 512 + 512 + 512 + 1024);
    assert_eq!(&all[512..1024], &[9u8; 512][..]);
    assert_eq!(&all[1024..1536], foo_header(1).as_bytes());
    assert_eq!(all[1536], 5);
    assert!(all[1537..].iter().all(|b| *b == 0));
}

#[test]
fn payload_of_one_block_then_trailer() {
    let mut streamer = Streamer::new();
    let mut world = World::new();
    world.streams.insert(streamer.len(), vec![9u8; 512]);
    streamer.append(foo_header(512));
    let all = drain(&mut streamer, &world, 300);
    assert_eq!(all.len(), 2048);
    assert_eq!(&all[512..1024], &[9u8; 512][..]);
    assert!(all[1024..].iter().all(|b| *b == 0));
}

#[test]
fn tiny_buffer_drain() {
    let (mut large, world) = four_byte_archive();
    let expected = drain(&mut large, &world, 8192);
    let (mut tiny, world) = four_byte_archive();
    let got = drain(&mut tiny, &world, 1);
    assert_eq!(got.len(), 2048);
    assert_eq!(got, expected);
}

#[test]
fn every_split_gives_the_same_bytes() {
    let (mut whole, world) = mixed_archive();
    let expected = drain(&mut whole, &world, 1 << 16);
    for size in [1usize, 2, 7, 100, 511, 512, 513, 1000, 1024, 4096] {
        for chunk in [1usize, 3, 512, usize::MAX] {
            let (mut streamer, mut world) = mixed_archive();
            world.chunk = chunk;
            assert_eq!(drain(&mut streamer, &world, size), expected);
        }
    }
}

#[test]
fn mixed_archive_layout() {
    let (mut streamer, world) = mixed_archive();
    let all = drain(&mut streamer, &world, 999);
    // long-name record (1024), header, 1000 bytes and 24 of padding
    assert_eq!(all[156], b'L');
    assert_eq!(&all[1536..2536], &world.streams[&0][..]);
    assert!(all[2536..2560].iter().all(|b| *b == 0));
    // the file on disk: header, 700 bytes, 324 of padding
    assert_eq!(&all[2560..2569], b"notes.txt");
    assert_eq!(&all[2560 + 124..2560 + 136], b"00000001274\0");
    assert_eq!(&all[3072..3772], &[b'n'; 700][..]);
    assert!(all[3772..4096].iter().all(|b| *b == 0));
    // the directory: a header only
    assert_eq!(&all[4096..4100], b"data");
    assert_eq!(all[4096 + 156], b'5');
    // the link: a header only
    assert_eq!(&all[4608..4614], b"latest");
    assert_eq!(all[4608 + 156], b'2');
    assert_eq!(&all[4608 + 157..4608 + 166], b"notes.txt");
    // the fifo: a header only
    assert_eq!(&all[5120..5130], b"/data/pipe");
    assert_eq!(all[5120 + 156], b'6');
    // an empty stream: a header only, then the two closing blocks
    assert_eq!(&all[5632..6144], foo_header(0).as_bytes());
    assert_eq!(all.len(), 6144 + 1024);
    assert!(all[6144..].iter().all(|b| *b == 0));
}

#[test]
fn archive_is_whole_blocks_and_ends_in_zeros() {
    let (mut streamer, world) = mixed_archive();
    let all = drain(&mut streamer, &world, 333);
    assert_eq!(all.len() % 512, 0);
    assert!(all[all.len() - 1024..].iter().all(|b| *b == 0));
    let (mut streamer, world) = four_byte_archive();
    let all = drain(&mut streamer, &world, 5);
    assert_eq!(all.len() % 512, 0);
    assert!(all[all.len() - 1024..].iter().all(|b| *b == 0));
}

#[test]
fn read_says_what_is_needed() {
    let mut streamer = Streamer::new();
    streamer.append(foo_header(4));
    streamer.append_path(b"/x").unwrap();
    assert_eq!(streamer.need(), Need::Nothing);
    let mut buffer = vec![0u8; 600];
    let out = streamer.read(&mut buffer[..512]);
    assert_eq!(out.written, 512);
    assert_eq!(out.need, Need::Nothing);
    assert_eq!(streamer.need(), Need::Payload { index: 0, offset: 0 });
    let out = streamer.read(&mut buffer);
    assert_eq!(out.written, 0);
    assert_eq!(out.need, Need::Payload { index: 0, offset: 0 });
    streamer.payload_read(3);
    assert_eq!(streamer.need(), Need::Payload { index: 0, offset: 3 });
    streamer.payload_read(1);
    streamer.payload_read(0);
    assert_eq!(streamer.need(), Need::Nothing);
    let out = streamer.read(&mut buffer);
    assert_eq!(out.written, 508);
    assert!(buffer[..508].iter().all(|b| *b == 0));
    assert_eq!(out.need, Need::Header { index: 1 });
    assert_eq!(streamer.entry_path(1), b"/x");
    assert_eq!(streamer.entry_kind(1), EntryKind::Path);
}

#[test]
fn empty_buffer_reads_nothing() {
    let (mut streamer, world) = four_byte_archive();
    let mut none: [u8; 0] = [];
    let out = streamer.read(&mut none);
    assert_eq!(out.written, 0);
    assert_eq!(out.need, Need::Nothing);
    assert_eq!(drain(&mut streamer, &world, 64).len(), 2048);
    let mut fresh = Streamer::new();
    assert_eq!(fresh.read(&mut none).written, 0);
    fresh.append(foo_header(0));
    let mut world = World::new();
    world.streams.insert(0, Vec::new());
    assert_eq!(drain(&mut fresh, &world, 64).len(), 512 + 1024);
}

#[test]
fn header_is_made_when_the_turn_comes() {
    let mut streamer = Streamer::new();
    streamer.mode(HeaderMode::Deterministic);
    streamer.append_path(b"b.txt").unwrap();
    let mut buffer = vec![0u8; 2048];
    let out = streamer.read(&mut buffer);
    assert_eq!(out.written, 0);
    assert_eq!(out.need, Need::Header { index: 0 });
    let mut stat = stat_of(FileType::File, 3);
    stat.uid = 77;
    stat.mtime = 5;
    streamer.supply_header(&stat, b"").unwrap();
    let out = streamer.read(&mut buffer);
    assert_eq!(out.written, 512);
    assert_eq!(out.need, Need::Payload { index: 0, offset: 0 });
    assert_eq!(&buffer[..5], b"b.txt");
    assert_eq!(&buffer[108..116], b"0000000\0");
    assert_eq!(&buffer[136..148], b"10461020230\0");
    assert_eq!(&buffer[124..136], b"00000000003\0");
}

#[test]
fn file_that_cannot_be_archived_leaves_the_producer_waiting() {
    let mut streamer = Streamer::new();
    streamer.append_special(b"sock", None).unwrap();
    let mut buffer = vec![0u8; 2048];
    assert_eq!(streamer.read(&mut buffer).need, Need::Header { index: 0 });
    assert_eq!(
        streamer.supply_header(&stat_of(FileType::Socket, 0), b""),
        Err(StreamError::Socket)
    );
    assert_eq!(streamer.read(&mut buffer).need, Need::Header { index: 0 });
    assert_eq!(
        streamer.supply_header(&stat_of(FileType::Socket, 0), b""),
        Err(StreamError::Socket)
    );
    assert_eq!(
        streamer.supply_header(&stat_of(FileType::Unknown, 0), b""),
        Err(StreamError::UnknownFileType)
    );
    streamer.supply_header(&stat_of(FileType::Fifo, 0), b"").unwrap();
    let out = streamer.read(&mut buffer);
    assert_eq!(out.written, 512 + 1024);
    assert_eq!(buffer[156], b'6');
}

#[test]
fn payload_given_up_gets_no_padding() {
    let mut streamer = Streamer::new();
    streamer.append_path(b"gone").unwrap();
    let mut buffer = vec![1u8; 4096];
    assert_eq!(streamer.read(&mut buffer).need, Need::Header { index: 0 });
    streamer.supply_header(&stat_of(FileType::File, 10), b"").unwrap();
    let out = streamer.read(&mut buffer);
    assert_eq!(out.written, 512);
    streamer.payload_read(5);
    streamer.payload_skip();
    let out = streamer.read(&mut buffer);
    assert_eq!(out.written, 1024);
    assert!(buffer[..1024].iter().all(|b| *b == 0));
    assert_eq!(streamer.read(&mut buffer).written, 0);
}

#[test]
fn symlink_on_disk() {
    let mut streamer = Streamer::new();
    streamer.follow_symlinks(false);
    streamer.append_path_with_name(b"/data/l", b"l").unwrap();
    assert!(!streamer.entry_follows(0));
    let mut world = World::new();
    world.stats.insert(b"/data/l".to_vec(), stat_of(FileType::Symlink, 9));
    world.links.insert(b"/data/l".to_vec(), b"notes.txt".to_vec());
    let all = drain(&mut streamer, &world, 4096);
    assert_eq!(all.len(), 512 + 1024);
    assert_eq!(all[0], b'l');
    assert_eq!(all[156], b'2');
    assert_eq!(&all[157..166], b"notes.txt");
    assert_eq!(&all[124..136], b"00000000000\0");
}

#[test]
fn settings_hold_for_what_is_scheduled_later() {
    let mut streamer = Streamer::new();
    streamer.append_path(b"a").unwrap();
    streamer.follow_symlinks(false);
    streamer.append_path(b"b").unwrap();
    streamer.follow_symlinks(true);
    streamer.append_dir(b"c", b"/c").unwrap();
    assert!(streamer.entry_follows(0));
    assert!(!streamer.entry_follows(1));
    assert!(streamer.entry_follows(2));
    assert_eq!(streamer.len(), 3);
    assert_eq!(streamer.entry_path(2), b"/c");
}

#[test]
fn refused_path_schedules_nothing() {
    let mut streamer = Streamer::new();
    let mut header = Header::new_gnu();
    let before = header.as_bytes().to_vec();
    assert_eq!(
        streamer.append_data(&mut header, b"a\0b"),
        Err(StreamError::HeaderField(FieldError::Nul))
    );
    assert_eq!(
        streamer.append_data(&mut header, b""),
        Err(StreamError::HeaderField(FieldError::Empty))
    );
    assert_eq!(header.as_bytes(), &before[..]);
    assert_eq!(
        streamer.append_file(b"", &stat_of(FileType::File, 1)),
        Err(StreamError::HeaderField(FieldError::Empty))
    );
    assert_eq!(
        streamer.append_link(&mut header, b"", b"t"),
        Err(StreamError::HeaderField(FieldError::Empty))
    );
    assert_eq!(header.as_bytes(), &before[..]);
    assert_eq!(
        streamer.append_link(&mut header, b"name", b""),
        Err(StreamError::HeaderField(FieldError::Empty))
    );
    assert_eq!(&header.as_bytes()[..4], b"name");
    assert_eq!(streamer.len(), 0);
    assert_eq!(drain(&mut streamer, &World::new(), 4096).len(), 1024);
}

#[test]
fn link_with_long_path_and_target() {
    let mut streamer = Streamer::new();
    let mut header = Header::new_gnu();
    header.set_entry_type(EntryType::Symlink);
    header.set_size(0);
    let path = vec![b'p'; 120];
    let target = vec![b't'; 600];
    streamer.append_link(&mut header, &path, &target).unwrap();
    let all = drain(&mut streamer, &World::new(), 700);
    assert_eq!(all.len(), 1024 + 512 + 1024 + 512 + 1024);
    assert_eq!(all[156], b'L');
    assert_eq!(&all[512..632], &path[..]);
    assert_eq!(all[1024 + 156], b'K');
    assert_eq!(&all[1024 + 124..1024 + 136], b"00000001131\0");
    assert_eq!(&all[1536..2136], &target[..]);
    assert!(all[2136..2560].iter().all(|b| *b == 0));
    assert_eq!(&all[2560..3072], header.as_bytes());
    assert_eq!(all[2560 + 156], b'2');
    assert!(all[3072..].iter().all(|b| *b == 0));
}

#[test]
fn open_file_entry() {
    let mut streamer = Streamer::new();
    let mut world = World::new();
    world.streams.insert(streamer.len(), b"hello".to_vec());
    let mut stat = stat_of(FileType::File, 5);
    stat.mode = 0o100600;
    stat.uid = 1000;
    streamer.append_file(b"dir/hello.txt", &stat).unwrap();
    let all = drain(&mut streamer, &world, 4096);
    assert_eq!(all.len(), 512 + 512 + 1024);
    assert_eq!(&all[..13], b"dir/hello.txt");
    assert_eq!(&all[100..108], b"0100600\0");
    assert_eq!(&all[108..116], b"0001750\0");
    assert_eq!(&all[124..136], b"00000000005\0");
    assert_eq!(all[156], b'0');
    assert_eq!(&all[512..517], b"hello");
}

#[test]
fn closed_producer_takes_no_more_entries() {
    let mut streamer = Streamer::new();
    let mut buffer = vec![0u8; 10];
    assert_eq!(streamer.read(&mut buffer).written, 10);
    streamer.append(foo_header(0));
    assert_eq!(streamer.append_path(b"late"), Ok(()));
    assert_eq!(streamer.len(), 0);
    let rest = drain(&mut streamer, &World::new(), 4096);
    assert_eq!(rest, vec![0u8; 1014]);
}

#[test]
fn walk_asks_only_what_it_needs() {
    let descend = Look::Decided(Visit::Descend);
    let regular = Look::Decided(Visit::Regular);
    let special = Look::Decided(Visit::Special);
    assert_eq!(look(true, false, true, Host::Unix, None, None), descend);
    assert_eq!(look(true, true, true, Host::Unix, None, None), descend);
    assert_eq!(look(true, false, false, Host::Other, None, None), descend);
    assert_eq!(look(false, true, true, Host::Unix, None, None), Look::AskTarget);
    assert_eq!(look(false, true, true, Host::Unix, Some(true), None), descend);
    assert_eq!(look(false, true, true, Host::Other, None, None), Look::AskTarget);
    assert_eq!(look(false, false, true, Host::Unix, None, None), Look::AskKind);
    assert_eq!(look(false, false, false, Host::Unix, None, None), Look::AskKind);
    assert_eq!(look(false, false, true, Host::Unix, None, Some(true)), regular);
    assert_eq!(look(false, false, true, Host::Unix, None, Some(false)), special);
    assert_eq!(look(false, false, false, Host::Unix, None, Some(false)), special);
    assert_eq!(look(false, false, true, Host::Other, None, None), regular);
    assert_eq!(look(false, false, true, Host::Other, None, Some(false)), regular);
}

#[test]
fn walk_archives_links_by_their_path() {
    let regular = Look::Decided(Visit::Regular);
    // a link that is not followed needs no look at all
    assert_eq!(look(false, true, false, Host::Unix, None, None), regular);
    assert_eq!(look(false, true, false, Host::Other, None, None), regular);
    // whatever a look would say, it is no special file and is not descended into
    for target in [None, Some(false), Some(true)] {
        for kind in [None, Some(false), Some(true)] {
            assert_eq!(look(false, true, false, Host::Unix, target, kind), regular);
        }
    }
    // a followed link to what is no directory is archived by its path
    assert_eq!(look(false, true, true, Host::Unix, Some(false), None), regular);
    assert_eq!(look(false, true, true, Host::Unix, Some(false), Some(false)), regular);
    assert_eq!(look(false, true, true, Host::Other, Some(false), None), regular);
}

#[test]
fn archive_path_of_a_child() {
    assert_eq!(child_dest(b"a", b"b.txt"), b"a/b.txt".to_vec());
    assert_eq!(child_dest(b"a/c", b"d"), b"a/c/d".to_vec());
    assert_eq!(child_dest(b"", b"b.txt"), b"b.txt".to_vec());
    assert_eq!(child_dest(b"a", b""), b"a/".to_vec());
    assert_eq!(child_dest(b"", b""), Vec::<u8>::new());
}

#[test]
fn walk_visits_last_found_first() {
    let mut walk = DirWalk::new(b"/r".to_vec(), b"r".to_vec());
    let root = walk.next().unwrap();
    assert_eq!(root.src, b"/r");
    assert_eq!(root.dest, b"r");
    assert!(root.is_dir);
    assert!(!root.is_symlink);
    assert!(walk.next().is_none());
    for name in [&b"x"[..], b"y", b"z"] {
        walk.push(WalkItem { src: name.to_vec(), dest: name.to_vec(), is_dir: false, is_symlink: true });
    }
    assert_eq!(walk.next().unwrap().src, b"z");
    walk.push(WalkItem { src: b"w".to_vec(), dest: b"w".to_vec(), is_dir: true, is_symlink: false });
    let w = walk.next().unwrap();
    assert_eq!(w.src, b"w");
    assert!(w.is_dir);
    assert_eq!(walk.next().unwrap().src, b"y");
    let x = walk.next().unwrap();
    assert_eq!(x.src, b"x");
    assert!(x.is_symlink);
    assert!(walk.next().is_none());
    assert!(walk.next().is_none());
}

fn walk_tree(streamer: &mut Streamer, world: &World, dest: &[u8], src: &[u8]) {
    let mut walk = DirWalk::new(src.to_vec(), dest.to_vec());
    while let Some(item) = walk.next() {
        let stat = world.stats[&item.src];
        let follow = streamer.follows();
        let target = world.links.get(&item.src).map(|t| world.stats[t].file_type);
        let mut target_is_dir = None;
        let mut is_file = None;
        let visit = loop {
            match look(item.is_dir, item.is_symlink, follow, Host::Unix, target_is_dir, is_file) {
                Look::AskTarget => target_is_dir = Some(target == Some(FileType::Dir)),
                Look::AskKind => is_file = Some(stat.file_type == FileType::File),
                Look::Decided(visit) => break visit,
            }
        };
        if visit == Visit::Descend {
            let listed = world.links.get(&item.src).unwrap_or(&item.src);
            for child in &world.children[listed] {
                let mut child_src = item.src.clone();
                child_src.push(b'/');
                child_src.extend_from_slice(child);
                let kind = world.stats[&child_src].file_type;
                walk.push(WalkItem {
                    src: child_src,
                    dest: child_dest(&item.dest, child),
                    is_dir: kind == FileType::Dir,
                    is_symlink: kind == FileType::Symlink,
                });
            }
        }
        streamer.append_dir_all(&item.dest, &item.src, visit).unwrap();
    }
}

#[test]
fn recursive_directory() {
    let mut world = World::new();
    world.dir(b"/src/a", &[b"b.txt", b"c"]);
    world.file(b"/src/a/b.txt", b"xyz");
    world.dir(b"/src/a/c", &[]);
    let mut streamer = Streamer::new();
    walk_tree(&mut streamer, &world, b"a", b"/src/a");
    assert_eq!(streamer.len(), 3);
    assert_eq!(streamer.entry_path(0), b"/src/a");
    assert_eq!(streamer.entry_path(1), b"/src/a/c");
    assert_eq!(streamer.entry_path(2), b"/src/a/b.txt");
    let all = drain(&mut streamer, &world, 100);
    assert_eq!(all.len(), 512 + 512 + 512 + 512 + 1024);
    assert_eq!(&all[..2], b"a\0");
    assert_eq!(all[156], b'5');
    assert_eq!(&all[512..516], b"a/c\0");
    assert_eq!(all[512 + 156], b'5');
    assert_eq!(&all[1024..1032], b"a/b.txt\0");
    assert_eq!(all[1024 + 156], b'0');
    assert_eq!(&all[1536..1539], b"xyz");
    assert!(all[1539..].iter().all(|b| *b == 0));
}

#[test]
fn walk_under_no_name_leaves_the_root_out() {
    let mut world = World::new();
    world.dir(b"/src/a", &[b"b.txt", b"p"]);
    world.file(b"/src/a/b.txt", b"xyz");
    world.stats.insert(b"/src/a/p".to_vec(), stat_of(FileType::Fifo, 0));
    let mut streamer = Streamer::new();
    walk_tree(&mut streamer, &world, b"", b"/src/a");
    assert_eq!(streamer.len(), 2);
    assert_eq!(streamer.entry_kind(0), EntryKind::Special);
    assert_eq!(streamer.entry_path(0), b"/src/a/p");
    assert_eq!(streamer.entry_kind(1), EntryKind::Path);
    let all = drain(&mut streamer, &world, 4096);
    assert_eq!(all.len(), 512 + 512 + 512 + 1024);
    assert_eq!(&all[..2], b"p\0");
    assert_eq!(all[156], b'6');
    assert_eq!(&all[512..518], b"b.txt\0");
}

#[test]
fn walked_special_file_is_archived_under_the_archive_root() {
    let mut world = World::new();
    world.dir(b"/src/a", &[b"dev"]);
    world.dir(b"/src/a/dev", &[b"tty"]);
    let mut tty = stat_of(FileType::CharDevice, 0);
    tty.rdev = 0x501;
    world.stats.insert(b"/src/a/dev/tty".to_vec(), tty);
    let mut streamer = Streamer::new();
    walk_tree(&mut streamer, &world, b"root", b"/src/a");
    assert_eq!(streamer.len(), 3);
    assert_eq!(streamer.entry_kind(2), EntryKind::Special);
    assert_eq!(streamer.entry_path(2), b"/src/a/dev/tty");
    let all = drain(&mut streamer, &world, 4096);
    assert_eq!(all.len(), 3 * 512 + 1024);
    assert_eq!(&all[..5], b"root\0");
    assert_eq!(&all[512..521], b"root/dev\0");
    assert_eq!(&all[1024..1037], b"root/dev/tty\0");
    assert_eq!(all[1024 + 156], b'3');
    assert_eq!(&all[1024 + 329..1024 + 337], b"0000005\0");
    assert_eq!(&all[1024 + 337..1024 + 345], b"0000001\0");
    // the path on disk appears nowhere in the archive
    assert!(!all.windows(4).any(|w| w == b"/src"));
}

#[test]
fn walked_link_that_is_not_followed_is_archived_as_a_link() {
    let mut world = World::new();
    world.dir(b"/src/a", &[b"l", b"d"]);
    world.dir(b"/src/a/d", &[b"inner.txt"]);
    world.file(b"/src/a/d/inner.txt", b"in");
    world.stats.insert(b"/src/a/l".to_vec(), stat_of(FileType::Symlink, 1));
    world.links.insert(b"/src/a/l".to_vec(), b"/src/a/d".to_vec());
    let mut streamer = Streamer::new();
    streamer.follow_symlinks(false);
    walk_tree(&mut streamer, &world, b"a", b"/src/a");
    // the root, the directory with its file, and the link itself: the
    // target of the link is not listed a second time
    assert_eq!(streamer.len(), 4);
    assert_eq!(streamer.entry_path(1), b"/src/a/d");
    assert_eq!(streamer.entry_path(2), b"/src/a/d/inner.txt");
    assert_eq!(streamer.entry_path(3), b"/src/a/l");
    assert_eq!(streamer.entry_kind(3), EntryKind::Path);
    assert!(!streamer.entry_follows(3));
    let all = drain(&mut streamer, &world, 4096);
    assert_eq!(all.len(), 512 + 512 + 1024 + 512 + 1024);
    assert_eq!(&all[2048..2052], b"a/l\0");
    assert_eq!(all[2048 + 156], b'2');
    assert_eq!(&all[2048 + 157..2048 + 166], b"/src/a/d\0");
    assert_eq!(&all[2048 + 124..2048 + 136], b"00000000000\0");
}

#[test]
fn walked_link_that_is_followed_into_a_directory() {
    let mut world = World::new();
    world.dir(b"/src/a", &[b"l"]);
    world.dir(b"/elsewhere", &[]);
    world.stats.insert(b"/src/a/l".to_vec(), stat_of(FileType::Symlink, 1));
    world.links.insert(b"/src/a/l".to_vec(), b"/elsewhere".to_vec());
    let mut streamer = Streamer::new();
    walk_tree(&mut streamer, &world, b"a", b"/src/a");
    assert_eq!(streamer.len(), 2);
    assert_eq!(streamer.entry_path(1), b"/src/a/l");
    assert_eq!(streamer.entry_kind(1), EntryKind::Path);
}
