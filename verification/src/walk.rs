//! Walking a directory tree: which files are archived, how, and in which
//! order. The tree itself is read by whoever drives the walk; here are the
//! decisions, and the stack of what is still to be visited.

use vstd::prelude::*;
use crate::block::push_all;
use crate::paths::Host;

verus! {

/// A file that the walk has found and not yet visited.
pub struct WalkItem {
    /// Where the file lies on disk.
    pub src: Vec<u8>,
    /// The path under which it is archived: empty for the root of a walk
    /// that archives a tree under no name.
    pub dest: Vec<u8>,
    /// Whether the directory that lists the file calls it a directory.
    pub is_dir: bool,
    /// Whether the directory that lists the file calls it a symbolic link.
    pub is_symlink: bool,
}

/// A [`WalkItem`] as plain values.
pub struct WalkItemView {
    pub src: Seq<u8>,
    pub dest: Seq<u8>,
    pub is_dir: bool,
    pub is_symlink: bool,
}

impl View for WalkItem {
    type V = WalkItemView;

    open spec fn view(&self) -> WalkItemView {
        WalkItemView {
            src: self.src@,
            dest: self.dest@,
            is_dir: self.is_dir,
            is_symlink: self.is_symlink,
        }
    }
}

/// What a look at the file itself adds to what its directory says of it.
#[derive(Clone, Copy, Debug, PartialEq, Eq, Structural)]
pub struct Probe {
    /// Whether the file, symbolic links followed, is a directory.
    pub target_is_dir: bool,
    /// Whether the file, symbolic links followed, is a regular file.
    pub is_file: bool,
}

/// What the walk does with a file.
#[derive(Clone, Copy, Debug, PartialEq, Eq, Structural)]
pub enum Visit {
    /// It is a directory: its children are put on the stack, and it gets
    /// an entry of its own unless it has no name in the archive.
    Descend,
    /// It is a fifo or a device, and is archived as such.
    Special,
    /// It is archived by its path, as a file.
    Regular,
}

/// The decision of the walk on a file that its directory describes as
/// `is_dir` and `is_symlink`. A directory is descended into, and so is a
/// symbolic link to one where links are followed. Of the rest, on Unix,
/// what is neither a symbolic link nor a regular file is a special file;
/// all others, symbolic links among them, are archived by their path.
pub open spec fn visit_of(
    is_dir: bool,
    is_symlink: bool,
    follow: bool,
    probe: Probe,
    host: Host,
) -> Visit {
    if is_dir || (is_symlink && follow && probe.target_is_dir) {
        Visit::Descend
    } else if host == Host::Unix && !is_symlink && !probe.is_file {
        Visit::Special
    } else {
        Visit::Regular
    }
}

/// What the walk does next with a file: it asks for a look at the file, or
/// has decided.
#[derive(Clone, Copy, Debug, PartialEq, Eq, Structural)]
pub enum Look {
    /// Tell whether the file, symbolic links followed, is a directory.
    AskTarget,
    /// Tell whether the file, symbolic links followed, is a regular file.
    AskKind,
    Decided(Visit),
}

/// The next step of the walk on a file, with the answers it has so far. It
/// asks only for what its decision hangs on: for the target of a symbolic
/// link where links are followed, and, on Unix, for the kind of what is no
/// directory and no symbolic link.
pub open spec fn look_of(
    is_dir: bool,
    is_symlink: bool,
    follow: bool,
    host: Host,
    target_is_dir: Option<bool>,
    is_file: Option<bool>,
) -> Look {
    if is_dir {
        Look::Decided(Visit::Descend)
    } else if is_symlink {
        if !follow {
            Look::Decided(Visit::Regular)
        } else {
            match target_is_dir {
                None => Look::AskTarget,
                Some(true) => Look::Decided(Visit::Descend),
                Some(false) => Look::Decided(Visit::Regular),
            }
        }
    } else if host != Host::Unix {
        Look::Decided(Visit::Regular)
    } else {
        match is_file {
            None => Look::AskKind,
            Some(true) => Look::Decided(Visit::Regular),
            Some(false) => Look::Decided(Visit::Special),
        }
    }
}

/// Takes the next step of the walk on a file.
pub fn look(
    is_dir: bool,
    is_symlink: bool,
    follow: bool,
    host: Host,
    target_is_dir: Option<bool>,
    is_file: Option<bool>,
) -> (l: Look)
    ensures
        l == look_of(is_dir, is_symlink, follow, host, target_is_dir, is_file),
{
    if is_dir {
        return Look::Decided(Visit::Descend);
    }
    if is_symlink {
        if !follow {
            return Look::Decided(Visit::Regular);
        }
        return match target_is_dir {
            None => Look::AskTarget,
            Some(true) => Look::Decided(Visit::Descend),
            Some(false) => Look::Decided(Visit::Regular),
        };
    }
    match host {
        Host::Other => Look::Decided(Visit::Regular),
        Host::Unix => match is_file {
            None => Look::AskKind,
            Some(true) => Look::Decided(Visit::Regular),
            Some(false) => Look::Decided(Visit::Special),
        },
    }
}

/// A symbolic link is never a special file, whatever it points to and
/// whether links are followed or not.
pub proof fn lemma_link_is_not_special(
    follow: bool,
    host: Host,
    probe: Probe,
    target_is_dir: Option<bool>,
    is_file: Option<bool>,
)
    ensures
        visit_of(false, true, follow, probe, host) != Visit::Special,
        look_of(false, true, follow, host, target_is_dir, is_file) != Look::Decided(Visit::Special),
        look_of(false, true, follow, host, target_is_dir, is_file) != Look::AskKind,
{
}

/// With every answer given, the walk decides, and decides as [`visit_of`]
/// says. An answer that was not asked for does not change the decision.
pub proof fn lemma_look_decides(
    is_dir: bool,
    is_symlink: bool,
    follow: bool,
    host: Host,
    probe: Probe,
)
    ensures
        look_of(
            is_dir,
            is_symlink,
            follow,
            host,
            Some(probe.target_is_dir),
            Some(probe.is_file),
        ) == Look::Decided(visit_of(is_dir, is_symlink, follow, probe, host)),
        look_of(is_dir, is_symlink, follow, host, None, None) matches Look::Decided(v) ==> v
            == visit_of(is_dir, is_symlink, follow, probe, host),
        look_of(is_dir, is_symlink, follow, host, Some(probe.target_is_dir), None) matches Look::Decided(
            v,
        ) ==> v == visit_of(is_dir, is_symlink, follow, probe, host),
        look_of(is_dir, is_symlink, follow, host, Some(probe.target_is_dir), None)
            != Look::AskTarget,
{
}

/// The archive path of a file called `name` in the directory that is
/// archived under `parent`.
pub open spec fn child_path(parent: Seq<u8>, name: Seq<u8>) -> Seq<u8> {
    if parent.len() == 0 {
        name
    } else {
        parent + seq![47u8] + name
    }
}

/// Puts together the archive path of a file found in a directory: the
/// directory's archive path, a slash, and the file's name; the name alone
/// where the directory has no archive path.
pub fn child_dest(parent: &[u8], name: &[u8]) -> (v: Vec<u8>)
    ensures
        v@ == child_path(parent@, name@),
{
    let mut v: Vec<u8> = Vec::new();
    if parent.len() > 0 {
        push_all(&mut v, parent);
        v.push(47u8);
    }
    push_all(&mut v, name);
    assert(v@ =~= child_path(parent@, name@));
    v
}

/// The files that a walk has still to visit. The one found last is visited
/// first.
pub struct DirWalk {
    stack: Vec<WalkItem>,
}

impl View for DirWalk {
    type V = Seq<WalkItemView>;

    closed spec fn view(&self) -> Seq<WalkItemView> {
        self.stack@.map_values(|item: WalkItem| item@)
    }
}

impl DirWalk {
    /// Starts a walk of the tree at `src`, to be archived under `dest`.
    /// The root is taken to be a directory.
    pub fn new(src: Vec<u8>, dest: Vec<u8>) -> (walk: DirWalk)
        ensures
            walk@ == seq![
                WalkItemView { src: src@, dest: dest@, is_dir: true, is_symlink: false },
            ],
    {
        let mut stack: Vec<WalkItem> = Vec::new();
        stack.push(WalkItem { src, dest, is_dir: true, is_symlink: false });
        let walk = DirWalk { stack };
        assert(walk@ =~= seq![
            WalkItemView { src: src@, dest: dest@, is_dir: true, is_symlink: false },
        ]);
        walk
    }

    /// Puts a file that was found on the stack.
    pub fn push(&mut self, item: WalkItem)
        ensures
            final(self)@ == old(self)@.push(item@),
    {
        self.stack.push(item);
        assert(self@ =~= old(self)@.push(item@));
    }

    /// Takes the file that was found last off the stack; `None` when the
    /// walk is over.
    pub fn next(&mut self) -> (item: Option<WalkItem>)
        ensures
            old(self)@.len() == 0 ==> item is None && final(self)@ == old(self)@,
            old(self)@.len() > 0 ==> item is Some && item->Some_0@ == old(self)@.last() && final(self)@ == old(self)@.drop_last(),
    {
        let item = self.stack.pop();
        assert(self@ =~= if old(self)@.len() == 0 {
            old(self)@
        } else {
            old(self)@.drop_last()
        });
        item
    }
}

} // verus!
