//! The tables of an address space, kept in `hashbrown` hash maps: the
//! frames of one area, and the areas by name.
//!
//! Each table holds its map in a private field; Verus sees the map's
//! contents through a name, and each method below calls one method of
//! `hashbrown::HashMap`, whose effect on the contents its contract states.
use vstd::prelude::*;
use crate::mm::user_set::FrameBasedArea;
use crate::mm::memory_set::{MemoryStaticArea, PhysBuffer};

verus! {

/// The frames of an area: virtual page number to physical page number.
#[verifier::external_body]
pub struct FrameMap {
    map: hashbrown::HashMap<u64, u64>,
}

/// What a `FrameMap` holds.
pub uninterp spec fn frame_map_view(m: FrameMap) -> Map<u64, u64>;

impl FrameMap {
    /// `hashbrown::HashMap::new`: an empty map.
    #[verifier::external_body]
    pub fn new() -> (r: Self)
        ensures
            frame_map_view(r).dom() == Set::<u64>::empty(),
    {
        FrameMap { map: hashbrown::HashMap::new() }
    }

    /// `hashbrown::HashMap::get`, copied out: the frame of page `k`, if any.
    #[verifier::external_body]
    pub fn get(&self, k: u64) -> (r: Option<u64>)
        ensures
            r == (if frame_map_view(*self).contains_key(k) {
                Some(frame_map_view(*self)[k])
            } else {
                None
            }),
    {
        self.map.get(&k).copied()
    }

    /// `hashbrown::HashMap::insert`: page `k` now has frame `v`; the frame
    /// it had, if any, comes back.
    #[verifier::external_body]
    pub fn insert(&mut self, k: u64, v: u64) -> (r: Option<u64>)
        ensures
            frame_map_view(*final(self)) == frame_map_view(*old(self)).insert(k, v),
            r == (if frame_map_view(*old(self)).contains_key(k) {
                Some(frame_map_view(*old(self))[k])
            } else {
                None
            }),
    {
        self.map.insert(k, v)
    }

    /// `hashbrown::HashMap::remove`: page `k` has no frame any more; the
    /// frame it had, if any, comes back.
    #[verifier::external_body]
    pub fn remove(&mut self, k: u64) -> (r: Option<u64>)
        ensures
            frame_map_view(*final(self)) == frame_map_view(*old(self)).remove(k),
            r == (if frame_map_view(*old(self)).contains_key(k) {
                Some(frame_map_view(*old(self))[k])
            } else {
                None
            }),
    {
        self.map.remove(&k)
    }
}

/// The pieces of a user buffer in physical memory, by their place in the
/// buffer (0 first).
#[verifier::external_body]
pub struct PieceMap {
    map: hashbrown::HashMap<usize, PhysBuffer>,
}

/// What a `PieceMap` holds.
pub uninterp spec fn piece_map_view(m: PieceMap) -> Map<usize, PhysBuffer>;

impl PieceMap {
    /// `hashbrown::HashMap::new`: an empty map.
    #[verifier::external_body]
    pub fn new() -> (r: Self)
        ensures
            piece_map_view(r).dom() == Set::<usize>::empty(),
    {
        PieceMap { map: hashbrown::HashMap::new() }
    }

    /// `hashbrown::HashMap::len`: how many places have a piece.
    #[verifier::external_body]
    pub fn len(&self) -> (r: usize)
        ensures
            r == piece_map_view(*self).dom().len(),
    {
        self.map.len()
    }

    /// `hashbrown::HashMap::get`, copied out: the piece at place `k`, if any.
    #[verifier::external_body]
    pub fn get(&self, k: usize) -> (r: Option<PhysBuffer>)
        ensures
            r == (if piece_map_view(*self).contains_key(k) {
                Some(piece_map_view(*self)[k])
            } else {
                None
            }),
    {
        self.map.get(&k).copied()
    }

    /// `hashbrown::HashMap::insert`: place `k` now has piece `v`; the piece
    /// it had, if any, comes back.
    #[verifier::external_body]
    pub fn insert(&mut self, k: usize, v: PhysBuffer) -> (r: Option<PhysBuffer>)
        ensures
            piece_map_view(*final(self)) == piece_map_view(*old(self)).insert(k, v),
            r == (if piece_map_view(*old(self)).contains_key(k) {
                Some(piece_map_view(*old(self))[k])
            } else {
                None
            }),
    {
        self.map.insert(k, v)
    }
}

/// The areas of an address space: name to area and its frames.
#[verifier::external_body]
pub struct AreaTable {
    map: hashbrown::HashMap<String, FrameBasedArea>,
}

/// What an `AreaTable` holds, by the names' characters.
pub uninterp spec fn area_table_view(m: AreaTable) -> Map<Seq<char>, FrameBasedArea>;

impl AreaTable {
    /// `hashbrown::HashMap::new`: an empty map.
    #[verifier::external_body]
    pub fn new() -> (r: Self)
        ensures
            area_table_view(r).dom() == Set::<Seq<char>>::empty(),
    {
        AreaTable { map: hashbrown::HashMap::new() }
    }

    /// `hashbrown::HashMap::len`: how many names have an entry.
    #[verifier::external_body]
    pub fn len(&self) -> (r: usize)
        ensures
            r == area_table_view(*self).dom().len(),
    {
        self.map.len()
    }

    /// `hashbrown::HashMap::get`: the area named `k`, if any.
    #[verifier::external_body]
    pub fn get(&self, k: &String) -> (r: Option<&FrameBasedArea>)
        ensures
            r == (if area_table_view(*self).contains_key(k@) {
                Some(&area_table_view(*self)[k@])
            } else {
                None
            }),
    {
        self.map.get(k)
    }

    /// `hashbrown::HashMap::insert`: `k` now names area `v`; the area it
    /// named, if any, comes back.
    #[verifier::external_body]
    pub fn insert(&mut self, k: String, v: FrameBasedArea) -> (r: Option<FrameBasedArea>)
        ensures
            area_table_view(*final(self)) == area_table_view(*old(self)).insert(k@, v),
            r == (if area_table_view(*old(self)).contains_key(k@) {
                Some(area_table_view(*old(self))[k@])
            } else {
                None
            }),
    {
        self.map.insert(k, v)
    }

    /// `hashbrown::HashMap::remove`: `k` names no area any more; the area
    /// it named, if any, comes back.
    #[verifier::external_body]
    pub fn remove(&mut self, k: &String) -> (r: Option<FrameBasedArea>)
        ensures
            area_table_view(*final(self)) == area_table_view(*old(self)).remove(k@),
            r == (if area_table_view(*old(self)).contains_key(k@) {
                Some(area_table_view(*old(self))[k@])
            } else {
                None
            }),
    {
        self.map.remove(k)
    }

    /// `hashbrown::HashMap::keys`, cloned and collected: each name once, in
    /// the map's own order, which the contract leaves open.
    #[verifier::external_body]
    pub fn keys(&self) -> (r: Vec<String>)
        ensures
            forall|i: int| 0 <= i < r@.len() ==> area_table_view(*self).contains_key(#[trigger] r@[i]@),
            forall|k: Seq<char>|
                #[trigger] area_table_view(*self).contains_key(k) ==> exists|i: int| 0 <= i < r@.len() && r@[i]@ == k,
            forall|i: int, j: int| 0 <= i < j < r@.len() ==> r@[i]@ != r@[j]@,
    {
        self.map.keys().cloned().collect()
    }
}

/// The kernel's static areas: name to area.
#[verifier::external_body]
pub struct StaticAreaTable {
    map: hashbrown::HashMap<String, MemoryStaticArea>,
}

/// What a `StaticAreaTable` holds, by the names' characters.
pub uninterp spec fn static_area_view(m: StaticAreaTable) -> Map<Seq<char>, MemoryStaticArea>;

impl StaticAreaTable {
    /// `hashbrown::HashMap::new`: an empty map.
    #[verifier::external_body]
    pub fn new() -> (r: Self)
        ensures
            static_area_view(r).dom() == Set::<Seq<char>>::empty(),
    {
        StaticAreaTable { map: hashbrown::HashMap::new() }
    }

    /// `hashbrown::HashMap::get`, copied out: the area named `k`, if any.
    #[verifier::external_body]
    pub fn get(&self, k: &String) -> (r: Option<MemoryStaticArea>)
        ensures
            r == (if static_area_view(*self).contains_key(k@) {
                Some(static_area_view(*self)[k@])
            } else {
                None
            }),
    {
        self.map.get(k).copied()
    }

    /// `hashbrown::HashMap::insert`: `k` now names `v`; the area it named,
    /// if any, comes back.
    #[verifier::external_body]
    pub fn insert(&mut self, k: String, v: MemoryStaticArea) -> (r: Option<MemoryStaticArea>)
        ensures
            static_area_view(*final(self)) == static_area_view(*old(self)).insert(k@, v),
            r == (if static_area_view(*old(self)).contains_key(k@) {
                Some(static_area_view(*old(self))[k@])
            } else {
                None
            }),
    {
        self.map.insert(k, v)
    }

    /// `hashbrown::HashMap::remove`: `k` names nothing any more; the area
    /// it named, if any, comes back.
    #[verifier::external_body]
    pub fn remove(&mut self, k: &String) -> (r: Option<MemoryStaticArea>)
        ensures
            static_area_view(*final(self)) == static_area_view(*old(self)).remove(k@),
            r == (if static_area_view(*old(self)).contains_key(k@) {
                Some(static_area_view(*old(self))[k@])
            } else {
                None
            }),
    {
        self.map.remove(k)
    }

    /// `hashbrown::HashMap::keys`, cloned and collected: each name once, in
    /// the map's own order, which the contract leaves open.
    #[verifier::external_body]
    pub fn keys(&self) -> (r: Vec<String>)
        ensures
            forall|i: int| 0 <= i < r@.len() ==> static_area_view(*self).contains_key(#[trigger] r@[i]@),
            forall|k: Seq<char>|
                #[trigger] static_area_view(*self).contains_key(k) ==> exists|i: int| 0 <= i < r@.len() && r@[i]@ == k,
            forall|i: int, j: int| 0 <= i < j < r@.len() ==> r@[i]@ != r@[j]@,
    {
        self.map.keys().cloned().collect()
    }
}

} // verus!
