//! The per-process tables, kept in `hashbrown` hash maps.
//!
//! Each table holds its map in a private field; Verus sees the map's
//! contents through a name, and each method below calls one method of
//! `hashbrown::HashMap`, whose effect on the contents its contract states.
use vstd::prelude::*;
use crate::fs::FileRef;
use crate::task::thread::Thread;
use crate::task::process::Process;

verus! {

/// Children of a process: child pid to child pid.
#[verifier::external_body]
pub struct ChildMap {
    map: hashbrown::HashMap<usize, usize>,
}

/// What a `ChildMap` holds.
pub uninterp spec fn child_map_view(m: ChildMap) -> Map<usize, usize>;

impl ChildMap {
    /// `hashbrown::HashMap::new`: an empty map.
    #[verifier::external_body]
    pub fn new() -> (r: Self)
        ensures
            child_map_view(r).dom() == Set::<usize>::empty(),
    {
        ChildMap { map: hashbrown::HashMap::new() }
    }

    /// `hashbrown::HashMap::contains_key`: whether `k` has an entry.
    #[verifier::external_body]
    pub fn contains_key(&self, k: usize) -> (r: bool)
        ensures
            r == child_map_view(*self).contains_key(k),
    {
        self.map.contains_key(&k)
    }

    /// `hashbrown::HashMap::insert`: `k` now maps to `v`.
    #[verifier::external_body]
    pub fn insert(&mut self, k: usize, v: usize)
        ensures
            child_map_view(*final(self)) == child_map_view(*old(self)).insert(k, v),
    {
        self.map.insert(k, v);
    }

    /// `hashbrown::HashMap::remove`: `k` has no entry any more.
    #[verifier::external_body]
    pub fn remove(&mut self, k: usize)
        ensures
            child_map_view(*final(self)) == child_map_view(*old(self)).remove(k),
    {
        self.map.remove(&k);
    }

    /// `hashbrown::HashMap::is_empty`: whether no key has an entry.
    #[verifier::external_body]
    pub fn is_empty(&self) -> (r: bool)
        ensures
            r == (child_map_view(*self).dom() =~= Set::<usize>::empty()),
    {
        self.map.is_empty()
    }

    /// `hashbrown::HashMap::keys`, collected: each key once, in the map's
    /// own order, which the contract leaves open.
    #[verifier::external_body]
    pub fn keys(&self) -> (r: Vec<usize>)
        ensures
            r@.no_duplicates(),
            r@.to_set() == child_map_view(*self).dom(),
    {
        self.map.keys().copied().collect()
    }
}

/// Open files of a process: descriptor to file.
#[verifier::external_body]
pub struct FdTable {
    map: hashbrown::HashMap<usize, FileRef>,
}

/// What an `FdTable` holds.
pub uninterp spec fn fd_table_view(m: FdTable) -> Map<usize, FileRef>;

impl FdTable {
    /// `hashbrown::HashMap::new`: an empty map.
    #[verifier::external_body]
    pub fn new() -> (r: Self)
        ensures
            fd_table_view(r).dom() == Set::<usize>::empty(),
    {
        FdTable { map: hashbrown::HashMap::new() }
    }

    /// `hashbrown::HashMap::contains_key`: whether `k` has an entry.
    #[verifier::external_body]
    pub fn contains_key(&self, k: usize) -> (r: bool)
        ensures
            r == fd_table_view(*self).contains_key(k),
    {
        self.map.contains_key(&k)
    }

    /// `hashbrown::HashMap::get`, copied out: the file of `k`, if any.
    #[verifier::external_body]
    pub fn get(&self, k: usize) -> (r: Option<FileRef>)
        ensures
            r == (if fd_table_view(*self).contains_key(k) {
                Some(fd_table_view(*self)[k])
            } else {
                None
            }),
    {
        self.map.get(&k).copied()
    }

    /// `hashbrown::HashMap::insert`: `k` now maps to `v`.
    #[verifier::external_body]
    pub fn insert(&mut self, k: usize, v: FileRef)
        ensures
            fd_table_view(*final(self)) == fd_table_view(*old(self)).insert(k, v),
    {
        self.map.insert(k, v);
    }

    /// `hashbrown::HashMap::remove`: `k` has no entry any more.
    #[verifier::external_body]
    pub fn remove(&mut self, k: usize)
        ensures
            fd_table_view(*final(self)) == fd_table_view(*old(self)).remove(k),
    {
        self.map.remove(&k);
    }

    /// `hashbrown::HashMap::clear`: no key has an entry.
    #[verifier::external_body]
    pub fn clear(&mut self)
        ensures
            fd_table_view(*final(self)).dom() == Set::<usize>::empty(),
    {
        self.map.clear();
    }

    /// `hashbrown::HashMap::keys`, collected: each key once, in the map's
    /// own order, which the contract leaves open.
    #[verifier::external_body]
    pub fn keys(&self) -> (r: Vec<usize>)
        ensures
            r@.no_duplicates(),
            r@.to_set() == fd_table_view(*self).dom(),
    {
        self.map.keys().copied().collect()
    }
}

/// Threads of a process: thread id to thread.
#[verifier::external_body]
pub struct ThreadTable {
    map: hashbrown::HashMap<usize, Thread>,
}

/// What a `ThreadTable` holds.
pub uninterp spec fn thread_table_view(m: ThreadTable) -> Map<usize, Thread>;

impl ThreadTable {
    /// `hashbrown::HashMap::new`: an empty map.
    #[verifier::external_body]
    pub fn new() -> (r: Self)
        ensures
            thread_table_view(r).dom() == Set::<usize>::empty(),
    {
        ThreadTable { map: hashbrown::HashMap::new() }
    }

    /// `hashbrown::HashMap::contains_key`: whether `k` has an entry.
    #[verifier::external_body]
    pub fn contains_key(&self, k: usize) -> (r: bool)
        ensures
            r == thread_table_view(*self).contains_key(k),
    {
        self.map.contains_key(&k)
    }

    /// `hashbrown::HashMap::get`: the thread of `k`, if any.
    #[verifier::external_body]
    pub fn get(&self, k: usize) -> (r: Option<&Thread>)
        ensures
            thread_table_view(*self).contains_key(k) ==> r == Some(&thread_table_view(*self)[k]),
            !thread_table_view(*self).contains_key(k) ==> r.is_none(),
    {
        self.map.get(&k)
    }

    /// `hashbrown::HashMap::insert`: `k` now maps to `v`.
    #[verifier::external_body]
    pub fn insert(&mut self, k: usize, v: Thread)
        ensures
            thread_table_view(*final(self)) == thread_table_view(*old(self)).insert(k, v),
    {
        self.map.insert(k, v);
    }

    /// `hashbrown::HashMap::remove`: `k` has no entry any more; its thread is
    /// handed back.
    #[verifier::external_body]
    pub fn remove(&mut self, k: usize) -> (r: Option<Thread>)
        ensures
            thread_table_view(*final(self)) == thread_table_view(*old(self)).remove(k),
            thread_table_view(*old(self)).contains_key(k) ==> r == Some(
                thread_table_view(*old(self))[k],
            ),
            !thread_table_view(*old(self)).contains_key(k) ==> r.is_none(),
    {
        self.map.remove(&k)
    }

    /// `hashbrown::HashMap::keys`, collected: each key once, in the map's
    /// own order, which the contract leaves open.
    #[verifier::external_body]
    pub fn keys(&self) -> (r: Vec<usize>)
        ensures
            r@.no_duplicates(),
            r@.to_set() == thread_table_view(*self).dom(),
    {
        self.map.keys().copied().collect()
    }
}

/// The processes of the kernel: pid to process.
#[verifier::external_body]
pub struct ProcessTable {
    map: hashbrown::HashMap<usize, Process>,
}

/// What a `ProcessTable` holds.
pub uninterp spec fn process_table_view(m: ProcessTable) -> Map<usize, Process>;

impl ProcessTable {
    /// `hashbrown::HashMap::new`: an empty map.
    #[verifier::external_body]
    pub fn new() -> (r: Self)
        ensures
            process_table_view(r).dom() == Set::<usize>::empty(),
    {
        ProcessTable { map: hashbrown::HashMap::new() }
    }

    /// `hashbrown::HashMap::contains_key`: whether `k` has an entry.
    #[verifier::external_body]
    pub fn contains_key(&self, k: usize) -> (r: bool)
        ensures
            r == process_table_view(*self).contains_key(k),
    {
        self.map.contains_key(&k)
    }

    /// `hashbrown::HashMap::get`: the process of `k`, if any.
    #[verifier::external_body]
    pub fn get(&self, k: usize) -> (r: Option<&Process>)
        ensures
            process_table_view(*self).contains_key(k) ==> r == Some(&process_table_view(*self)[k]),
            !process_table_view(*self).contains_key(k) ==> r.is_none(),
    {
        self.map.get(&k)
    }

    /// `hashbrown::HashMap::insert`: `k` now maps to `v`.
    #[verifier::external_body]
    pub fn insert(&mut self, k: usize, v: Process)
        ensures
            process_table_view(*final(self)) == process_table_view(*old(self)).insert(k, v),
    {
        self.map.insert(k, v);
    }

    /// `hashbrown::HashMap::remove`: `k` has no entry any more; its process
    /// is handed back.
    #[verifier::external_body]
    pub fn remove(&mut self, k: usize) -> (r: Option<Process>)
        ensures
            process_table_view(*final(self)) == process_table_view(*old(self)).remove(k),
            process_table_view(*old(self)).contains_key(k) ==> r == Some(
                process_table_view(*old(self))[k],
            ),
            !process_table_view(*old(self)).contains_key(k) ==> r.is_none(),
    {
        self.map.remove(&k)
    }
}

} // verus!
