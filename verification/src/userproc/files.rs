//! The files that a user process holds open.

use std::collections::BTreeMap;

use vstd::prelude::*;

use crate::keys::{copy_map, keys_of, lists_keys, sorted_keys};

verus! {

/// An open file, by the number that the file system gave it.
#[derive(Clone, Copy, Debug, PartialEq, Eq, Structural)]
pub struct File {
    pub handle: usize,
}

/// An open file behind a descriptor, and what the process may do with it.
#[derive(Clone, Copy, Debug, PartialEq, Eq, Structural)]
pub struct FdEntry {
    pub file: File,
    pub readable: bool,
    pub writable: bool,
}

/// The part of a thread that belongs to its user process.
pub struct UserProc {
    bin: Option<File>,
    fds: BTreeMap<isize, FdEntry>,
    next_fd: isize,
}

/// What a user process holds.
#[verifier::ext_equal]
pub struct ProcState {
    /// The file that the process runs.
    pub bin: Option<File>,
    /// The open descriptors.
    pub fds: Map<isize, FdEntry>,
    /// The descriptor that the next opened file gets.
    pub next_fd: isize,
}

/// The descriptor of the first file that a process opens; those below are the
/// standard streams.
pub const FIRST_FD: isize = 3;

impl ProcState {
    /// Descriptors are handed out upwards, from behind the standard streams.
    pub open spec fn wf(self) -> bool {
        &&& self.next_fd >= FIRST_FD
        &&& forall|fd: isize| #[trigger]
            self.fds.contains_key(fd) ==> FIRST_FD <= fd < self.next_fd
    }

    /// A process that runs `file` and has opened nothing.
    pub open spec fn fresh(file: File) -> ProcState {
        ProcState { bin: Some(file), fds: Map::empty(), next_fd: FIRST_FD }
    }

    /// The process after it has opened a file.
    pub open spec fn opened(self, entry: FdEntry) -> ProcState {
        ProcState {
            fds: self.fds.insert(self.next_fd, entry),
            next_fd: (self.next_fd + 1) as isize,
            ..self
        }
    }

    /// The process after it has closed a descriptor.
    pub open spec fn closed(self, fd: isize) -> ProcState {
        ProcState { fds: self.fds.remove(fd), ..self }
    }

    /// The process after it has closed every file, its own included.
    pub open spec fn all_closed(self) -> ProcState {
        ProcState { bin: None, fds: Map::empty(), ..self }
    }
}

/// The open files behind some descriptors, by ascending descriptor.
pub open spec fn open_files(fds: Map<isize, FdEntry>) -> Seq<File> {
    keys_of(fds).map_values(|fd: isize| fds[fd].file)
}

/// What a process has to close when it ends: its open files by ascending descriptor,
/// then the file that it runs.
pub open spec fn all_files(proc: ProcState) -> Seq<File> {
    match proc.bin {
        Some(bin) => open_files(proc.fds).push(bin),
        None => open_files(proc.fds),
    }
}

impl View for UserProc {
    type V = ProcState;

    closed spec fn view(&self) -> ProcState {
        ProcState { bin: self.bin, fds: self.fds@, next_fd: self.next_fd }
    }
}

impl Clone for UserProc {
    /// A process that holds the same.
    fn clone(&self) -> (copy: Self)
        ensures
            copy@ == self@,
    {
        UserProc { bin: self.bin, fds: copy_map(&self.fds), next_fd: self.next_fd }
    }
}

impl UserProc {
    /// A process that runs `file` and has opened nothing.
    pub fn new(file: File) -> (proc: Self)
        ensures
            proc@ == ProcState::fresh(file),
            proc@.wf(),
    {
        UserProc { bin: Some(file), fds: BTreeMap::new(), next_fd: FIRST_FD }
    }

    /// Opens a file under the next descriptor.
    pub fn add_file(&mut self, file: File, readable: bool, writable: bool) -> (fd: isize)
        requires
            old(self)@.next_fd < isize::MAX,
        ensures
            fd == old(self)@.next_fd,
            final(self)@ == old(self)@.opened((FdEntry { file, readable, writable })),
            old(self)@.wf() ==> final(self)@.wf() && !old(self)@.fds.contains_key(fd),
    {
        let fd = self.next_fd;
        self.next_fd = fd + 1;
        self.fds.insert(fd, FdEntry { file, readable, writable });
        fd
    }

    /// Whether there is a descriptor left for another file.
    pub fn has_descriptor(&self) -> (left: bool)
        ensures
            left == (self@.next_fd < isize::MAX),
    {
        self.next_fd < isize::MAX
    }

    /// What stands behind a descriptor.
    pub fn with_fd(&self, fd: isize) -> (entry: Option<FdEntry>)
        ensures
            entry == (if self@.fds.contains_key(fd) {
                Some(self@.fds[fd])
            } else {
                None
            }),
    {
        match self.fds.get(&fd) {
            Some(entry) => Some(*entry),
            None => None,
        }
    }

    /// Closes a descriptor and returns the file that stood behind it, or `None`
    /// where the descriptor was not open.
    pub fn close_fd(&mut self, fd: isize) -> (file: Option<File>)
        ensures
            file == (if old(self)@.fds.contains_key(fd) {
                Some(old(self)@.fds[fd].file)
            } else {
                None
            }),
            final(self)@ == old(self)@.closed(fd),
            old(self)@.wf() ==> final(self)@.wf(),
    {
        match self.fds.remove(&fd) {
            Some(entry) => Some(entry.file),
            None => None,
        }
    }

    /// Closes every descriptor and returns the files, by ascending descriptor.
    pub fn close_all_files(&mut self) -> (files: Vec<File>)
        ensures
            files@ == open_files(old(self)@.fds),
            final(self)@ == (ProcState { fds: Map::empty(), ..old(self)@ }),
    {
        let keys = sorted_keys(&self.fds);
        let mut files: Vec<File> = Vec::new();
        let mut i: usize = 0;
        while i < keys.len()
            invariant
                i <= keys@.len(),
                lists_keys(keys@, self.fds@),
                keys@ == keys_of(self.fds@),
                self@ == old(self)@,
                files@ == keys@.take(i as int).map_values(|fd: isize| self@.fds[fd].file),
            decreases keys@.len() - i,
        {
            assert(keys@.contains(keys@[i as int]));
            match self.fds.get(&keys[i]) {
                Some(entry) => files.push(entry.file),
                None => {},
            }
            i = i + 1;
            assert(files@ =~= keys@.take(i as int).map_values(|fd: isize| self@.fds[fd].file));
        }
        assert(files@ =~= open_files(old(self)@.fds));
        self.fds.clear();
        files
    }

    /// Gives up the file that the process runs.
    pub fn close_exec_file(&mut self) -> (file: Option<File>)
        ensures
            file == old(self)@.bin,
            final(self)@ == (ProcState { bin: None, ..old(self)@ }),
    {
        self.bin.take()
    }

    /// Closes everything, as the process ends.
    pub fn close_on_exit(&mut self) -> (files: Vec<File>)
        ensures
            files@ == all_files(old(self)@),
            final(self)@ == old(self)@.all_closed(),
            old(self)@.wf() ==> final(self)@.wf(),
    {
        let mut files = self.close_all_files();
        match self.close_exec_file() {
            Some(bin) => {
                files.push(bin);
            },
            None => {},
        }
        files
    }
}

} // verus!
