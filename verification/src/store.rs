//! The entity store: programs, links, maps and their associations, kept in
//! memory, with the operations that create, find, rewrite and delete rows.
//!
//! Every operation either takes place as a whole or leaves the store as it
//! was. Deleting a program takes its links and its associations with it;
//! deleting a map takes its associations with it.

use vstd::prelude::*;
use crate::clock::utc_now;
use crate::codec::{be_bytes, be_value};
use crate::uintblob::U64Blob;
use crate::models::{
    BpfLink, BpfLinkView, BpfMap, BpfMapView, BpfProgram, BpfProgramMap, BpfProgramView, Timestamp,
};
use crate::relation::{
    differs, has_key, lemma_filter_empty, lemma_filter_step, lemma_position_unique,
    lemma_without_absent, lemma_without_unique, matches_key, without,
};
use crate::store_model::{
    lemma_create_link_wf, lemma_create_map_wf, lemma_create_pair_wf, lemma_create_program_wf,
    lemma_delete_all_wf, lemma_delete_link_wf, lemma_delete_map_cascades,
    lemma_delete_program_cascades, lemma_update_link_wf, lemma_update_map_wf,
    lemma_update_program_wf, link_id, link_program, map_id, pair_map, pair_program, program_id,
    StoreError, StoreView,
};

verus! {

/// The rows of the four relations.
pub struct EntityStore {
    programs: Vec<BpfProgram>,
    links: Vec<BpfLink>,
    maps: Vec<BpfMap>,
    program_maps: Vec<BpfProgramMap>,
}

/// The contents of a sequence of program rows.
pub open spec fn program_views(rows: Seq<BpfProgram>) -> Seq<BpfProgramView> {
    Seq::new(rows.len(), |i: int| rows[i]@)
}

/// The contents of a sequence of link rows.
pub open spec fn link_views(rows: Seq<BpfLink>) -> Seq<BpfLinkView> {
    Seq::new(rows.len(), |i: int| rows[i]@)
}

/// The contents of a sequence of map rows.
pub open spec fn map_views(rows: Seq<BpfMap>) -> Seq<BpfMapView> {
    Seq::new(rows.len(), |i: int| rows[i]@)
}

impl View for EntityStore {
    type V = StoreView;

    closed spec fn view(&self) -> StoreView {
        StoreView {
            programs: program_views(self.programs@),
            links: link_views(self.links@),
            maps: map_views(self.maps@),
            program_maps: self.program_maps@,
        }
    }
}

/// The stored form of an identifier: eight bytes, big-endian, so that rows
/// keyed by it sort as their identifiers do.
pub fn encode_identifier(id: u64) -> (bytes: Vec<u8>)
    ensures
        bytes@ == be_bytes(id as nat, 8),
        bytes@.len() == 8,
        be_value(bytes@) == id,
{
    U64Blob(id).to_bytes()
}

/// Reads an identifier back from its stored form. Bytes of any length but
/// eight are refused with the codec's error, wrapped as a store error.
pub fn decode_identifier(bytes: &[u8]) -> (r: Result<u64, StoreError>)
    ensures
        match r {
            Ok(id) => bytes@.len() == 8 && id == be_value(bytes@),
            Err(e) => {
                &&& bytes@.len() != 8
                &&& e is Codec
                &&& e->Codec_0.is_invalid_size(8, bytes@.len(), "u64"@)
            },
        },
{
    match U64Blob::from_bytes(bytes) {
        Ok(blob) => Ok(blob.get()),
        Err(e) => Err(StoreError::Codec(e)),
    }
}

/// Removes the links of program `program` from `links`, keeping the others
/// in their order.
fn remove_links_of(links: &mut Vec<BpfLink>, program: u64)
    ensures
        link_views(final(links)@) == without(link_views(old(links)@), link_program(), program),
{
    let ghost orig = link_views(links@);
    let ghost pred = differs(link_program(), program);
    let ghost mut j: int = 0;
    let mut i: usize = 0;
    proof {
        lemma_filter_empty(orig.take(0), pred);
        assert(link_views(links@).take(0) =~= Seq::<BpfLinkView>::empty());
        assert(link_views(links@).skip(0) =~= orig.skip(0));
    }
    while i < links.len()
        invariant
            0 <= i <= links@.len(),
            i <= j <= orig.len(),
            pred == differs(link_program(), program),
            link_views(links@).take(i as int) == orig.take(j).filter(pred),
            link_views(links@).skip(i as int) == orig.skip(j),
        decreases orig.len() - j,
    {
        let ghost before = link_views(links@);
        proof {
            assert(before.skip(i as int).len() == before.len() - i);
            assert(orig.skip(j).len() == orig.len() - j);
            assert(before.skip(i as int)[0] == before[i as int]);
            assert(orig.skip(j)[0] == orig[j]);
            lemma_filter_step(orig, pred, j);
        }
        if links[i].program_id == program {
            links.remove(i);
            proof {
                let after = link_views(links@);
                assert(after =~= before.remove(i as int));
                assert(after.take(i as int) =~= before.take(i as int));
                assert(after.skip(i as int) =~= before.skip(i as int).skip(1));
                assert(orig.skip(j + 1) =~= orig.skip(j).skip(1));
                j = j + 1;
            }
        } else {
            proof {
                assert(before.take(i + 1) =~= before.take(i as int).push(before[i as int]));
                assert(before.skip(i + 1) =~= before.skip(i as int).skip(1));
                assert(orig.skip(j + 1) =~= orig.skip(j).skip(1));
                j = j + 1;
            }
            i = i + 1;
        }
    }
    proof {
        let after = link_views(links@);
        assert(after.skip(i as int).len() == 0);
        assert(orig.skip(j).len() == 0);
        assert(after.take(i as int) =~= after);
        assert(orig.take(j) =~= orig);
    }
}

/// The side of an association that `by_map` names.
pub open spec fn pair_side(by_map: bool) -> spec_fn(BpfProgramMap) -> u64 {
    if by_map {
        pair_map()
    } else {
        pair_program()
    }
}

/// Removes from `pairs` the associations of map `id`, or of program `id`,
/// keeping the others in their order.
fn remove_pairs_of(pairs: &mut Vec<BpfProgramMap>, id: u64, by_map: bool)
    ensures
        final(pairs)@ == without(old(pairs)@, pair_side(by_map), id),
{
    let ghost orig = pairs@;
    let ghost pred = differs(pair_side(by_map), id);
    let ghost mut j: int = 0;
    let mut i: usize = 0;
    proof {
        lemma_filter_empty(orig.take(0), pred);
        assert(pairs@.take(0) =~= Seq::<BpfProgramMap>::empty());
        assert(pairs@.skip(0) =~= orig.skip(0));
    }
    while i < pairs.len()
        invariant
            0 <= i <= pairs@.len(),
            i <= j <= orig.len(),
            pred == differs(pair_side(by_map), id),
            pairs@.take(i as int) == orig.take(j).filter(pred),
            pairs@.skip(i as int) == orig.skip(j),
        decreases orig.len() - j,
    {
        let ghost before = pairs@;
        proof {
            assert(before.skip(i as int).len() == before.len() - i);
            assert(orig.skip(j).len() == orig.len() - j);
            assert(before.skip(i as int)[0] == before[i as int]);
            assert(orig.skip(j)[0] == orig[j]);
            lemma_filter_step(orig, pred, j);
        }
        let side = if by_map {
            pairs[i].map_id
        } else {
            pairs[i].program_id
        };
        if side == id {
            pairs.remove(i);
            proof {
                assert(pairs@.take(i as int) =~= before.take(i as int));
                assert(pairs@.skip(i as int) =~= before.skip(i as int).skip(1));
                assert(orig.skip(j + 1) =~= orig.skip(j).skip(1));
                j = j + 1;
            }
        } else {
            proof {
                assert(before.take(i + 1) =~= before.take(i as int).push(before[i as int]));
                assert(before.skip(i + 1) =~= before.skip(i as int).skip(1));
                assert(orig.skip(j + 1) =~= orig.skip(j).skip(1));
                j = j + 1;
            }
            i = i + 1;
        }
    }
    proof {
        assert(pairs@.skip(i as int).len() == 0);
        assert(orig.skip(j).len() == 0);
        assert(pairs@.take(i as int) =~= pairs@);
        assert(orig.take(j) =~= orig);
    }
}

impl EntityStore {
    /// Whether the constraints of the store hold.
    pub open spec fn wf(&self) -> bool {
        self@.wf()
    }

    /// A store with no rows.
    pub fn new() -> (store: EntityStore)
        ensures
            store@ == StoreView::empty(),
            store.wf(),
    {
        let store = EntityStore {
            programs: Vec::new(),
            links: Vec::new(),
            maps: Vec::new(),
            program_maps: Vec::new(),
        };
        proof {
            assert(store@.programs =~= Seq::<BpfProgramView>::empty());
            assert(store@.links =~= Seq::<BpfLinkView>::empty());
            assert(store@.maps =~= Seq::<BpfMapView>::empty());
            assert(store@.program_maps =~= Seq::<BpfProgramMap>::empty());
        }
        store
    }

    /// Where the program with identifier `id` stands, if there is one.
    fn program_index(&self, id: u64) -> (r: Option<usize>)
        ensures
            match r {
                Some(i) => i < self@.programs.len() && self@.programs[i as int].id == id
                    && self@.has_program(id),
                None => !self@.has_program(id),
            },
    {
        let mut i: usize = 0;
        while i < self.programs.len()
            invariant
                i <= self.programs@.len(),
                forall|j: int| 0 <= j < i ==> (#[trigger] self.programs@[j])@.id != id,
            decreases self.programs@.len() - i,
        {
            if self.programs[i].id == id {
                proof {
                    assert(program_id()(self@.programs[i as int]) == id);
                }
                return Some(i);
            }
            i = i + 1;
        }
        proof {
            assert forall|j: int| 0 <= j < self@.programs.len() implies #[trigger] program_id()(
                self@.programs[j],
            ) != id by {
                assert(self.programs@[j]@.id != id);
            }
        }
        None
    }

    /// Where the link with identifier `id` stands, if there is one.
    fn link_index(&self, id: u64) -> (r: Option<usize>)
        ensures
            match r {
                Some(i) => i < self@.links.len() && self@.links[i as int].id == id
                    && self@.has_link(id),
                None => !self@.has_link(id),
            },
    {
        let mut i: usize = 0;
        while i < self.links.len()
            invariant
                i <= self.links@.len(),
                forall|j: int| 0 <= j < i ==> (#[trigger] self.links@[j])@.id != id,
            decreases self.links@.len() - i,
        {
            if self.links[i].id == id {
                proof {
                    assert(link_id()(self@.links[i as int]) == id);
                }
                return Some(i);
            }
            i = i + 1;
        }
        proof {
            assert forall|j: int| 0 <= j < self@.links.len() implies #[trigger] link_id()(
                self@.links[j],
            ) != id by {
                assert(self.links@[j]@.id != id);
            }
        }
        None
    }

    /// Where the map with identifier `id` stands, if there is one.
    fn map_index(&self, id: u64) -> (r: Option<usize>)
        ensures
            match r {
                Some(i) => i < self@.maps.len() && self@.maps[i as int].id == id
                    && self@.has_map(id),
                None => !self@.has_map(id),
            },
    {
        let mut i: usize = 0;
        while i < self.maps.len()
            invariant
                i <= self.maps@.len(),
                forall|j: int| 0 <= j < i ==> (#[trigger] self.maps@[j])@.id != id,
            decreases self.maps@.len() - i,
        {
            if self.maps[i].id == id {
                proof {
                    assert(map_id()(self@.maps[i as int]) == id);
                }
                return Some(i);
            }
            i = i + 1;
        }
        proof {
            assert forall|j: int| 0 <= j < self@.maps.len() implies #[trigger] map_id()(
                self@.maps[j],
            ) != id by {
                assert(self.maps@[j]@.id != id);
            }
        }
        None
    }

    /// Whether `pair` is among the associations.
    fn has_pair(&self, pair: BpfProgramMap) -> (r: bool)
        ensures
            r == self@.has_pair(pair),
    {
        let mut i: usize = 0;
        while i < self.program_maps.len()
            invariant
                i <= self.program_maps@.len(),
                forall|j: int| 0 <= j < i ==> #[trigger] self.program_maps@[j] != pair,
            decreases self.program_maps@.len() - i,
        {
            let at = self.program_maps[i];
            if at.program_id == pair.program_id && at.map_id == pair.map_id {
                assert(self.program_maps@[i as int] == pair);
                return true;
            }
            i = i + 1;
        }
        false
    }

    /// Number of program rows.
    pub fn program_count(&self) -> (n: usize)
        ensures
            n == self@.programs.len(),
    {
        self.programs.len()
    }

    /// Number of link rows.
    pub fn link_count(&self) -> (n: usize)
        ensures
            n == self@.links.len(),
    {
        self.links.len()
    }

    /// Number of map rows.
    pub fn map_count(&self) -> (n: usize)
        ensures
            n == self@.maps.len(),
    {
        self.maps.len()
    }

    /// Number of associations of a program with a map.
    pub fn program_map_count(&self) -> (n: usize)
        ensures
            n == self@.program_maps.len(),
    {
        self.program_maps.len()
    }
}

/// Whether an operation did what was planned for it: where the plan is a
/// new content, the store has it and the operation returned `row`; where
/// the plan is an error, the store is as before and the operation returned
/// that error.
pub open spec fn carried_out<T: View>(
    planned: Result<StoreView, StoreError>,
    before: StoreView,
    after: StoreView,
    r: Result<T, StoreError>,
    row: T::V,
) -> bool {
    match planned {
        Ok(s) => after == s && r is Ok && r->Ok_0@ == row,
        Err(e) => after == before && r == Err::<T, StoreError>(e),
    }
}

impl BpfProgram {
    /// Creates a program row.
    ///
    /// Both timestamps of the row are set to the current time before it is
    /// written; the row as written is returned.
    pub fn create_record(conn: &mut EntityStore, program: &mut BpfProgram) -> (r: Result<
        BpfProgram,
        StoreError,
    >)
        requires
            old(conn).wf(),
        ensures
            final(conn).wf(),
            exists|now: Timestamp|
                (final(program)@ == old(program)@.stamped_created(now) && #[trigger] carried_out(
                    old(conn)@.create_program(old(program)@.stamped_created(now)),
                    old(conn)@,
                    final(conn)@,
                    r,
                    old(program)@.stamped_created(now),
                )),
    {
        let now = utc_now();
        BpfProgram::create_record_at(conn, program, now)
    }

    /// Creates a program row at the time `now`.
    ///
    /// Both timestamps of the row are set to `now`. The row is appended and
    /// returned as written, unless the store refuses it; then the store is
    /// left as it was.
    pub fn create_record_at(
        conn: &mut EntityStore,
        program: &mut BpfProgram,
        now: Timestamp,
    ) -> (r: Result<BpfProgram, StoreError>)
        requires
            old(conn).wf(),
        ensures
            final(conn).wf(),
            final(program)@ == old(program)@.stamped_created(now),
            carried_out(
                old(conn)@.create_program(final(program)@),
                old(conn)@,
                final(conn)@,
                r,
                final(program)@,
            ),
    {
        program.stamp_created(now);
        match program.violation() {
            Some(broken) => {
                return Err(StoreError::StorageFailure(broken));
            },
            None => {},
        }
        if conn.program_index(program.id).is_some() {
            return Err(StoreError::Conflict);
        }
        let row = program.clone();
        conn.programs.push(program.clone());
        proof {
            lemma_create_program_wf(old(conn)@, row@);
            assert(conn@.programs =~= old(conn)@.programs.push(row@));
        }
        Ok(row)
    }

    /// Returns all program rows, in the order they were written.
    pub fn find_all(conn: &EntityStore) -> (r: Result<Vec<BpfProgram>, StoreError>)
        ensures
            r is Ok,
            program_views(r->Ok_0@) == conn@.programs,
    {
        let mut rows: Vec<BpfProgram> = Vec::new();
        let mut i: usize = 0;
        while i < conn.programs.len()
            invariant
                i <= conn.programs@.len(),
                program_views(rows@) == conn@.programs.take(i as int),
            decreases conn.programs@.len() - i,
        {
            let ghost before = program_views(rows@);
            rows.push(conn.programs[i].clone());
            proof {
                assert(program_views(rows@) =~= before.push(conn@.programs[i as int]));
                assert(before.push(conn@.programs[i as int]) =~= conn@.programs.take(i + 1));
            }
            i = i + 1;
        }
        proof {
            assert(conn@.programs.take(i as int) =~= conn@.programs);
        }
        Ok(rows)
    }

    /// Finds the program with identifier `search_id`.
    pub fn find_record(conn: &EntityStore, search_id: u64) -> (r: Result<BpfProgram, StoreError>)
        requires
            conn.wf(),
        ensures
            match r {
                Ok(row) => conn@.has_program(search_id) && row@ == conn@.program(search_id),
                Err(e) => !conn@.has_program(search_id) && e == StoreError::NotFound,
            },
    {
        match conn.program_index(search_id) {
            Some(i) => {
                proof {
                    lemma_position_unique(conn@.programs, program_id(), search_id, i as int);
                }
                Ok(conn.programs[i].clone())
            },
            None => Err(StoreError::NotFound),
        }
    }

    /// Rewrites the row of this program.
    ///
    /// The update timestamp is set to the current time before the row is
    /// written; the row as written is returned.
    pub fn update_record(&mut self, conn: &mut EntityStore) -> (r: Result<BpfProgram, StoreError>)
        requires
            old(conn).wf(),
        ensures
            final(conn).wf(),
            exists|now: Timestamp|
                (final(self)@ == old(self)@.stamped_updated(now) && #[trigger] carried_out(
                    old(conn)@.update_program(old(self)@.stamped_updated(now)),
                    old(conn)@,
                    final(conn)@,
                    r,
                    old(self)@.stamped_updated(now),
                )),
    {
        let now = utc_now();
        self.update_record_at(conn, now)
    }

    /// Rewrites the row of this program at the time `now`.
    ///
    /// The update timestamp is set to `now`, and the stored row with the same
    /// identifier is replaced whole by this one, unless the store refuses
    /// it; then the store is left as it was.
    pub fn update_record_at(&mut self, conn: &mut EntityStore, now: Timestamp) -> (r: Result<
        BpfProgram,
        StoreError,
    >)
        requires
            old(conn).wf(),
        ensures
            final(conn).wf(),
            final(self)@ == old(self)@.stamped_updated(now),
            carried_out(
                old(conn)@.update_program(final(self)@),
                old(conn)@,
                final(conn)@,
                r,
                final(self)@,
            ),
    {
        self.stamp_updated(now);
        let at = match conn.program_index(self.id) {
            Some(i) => i,
            None => {
                return Err(StoreError::NotFound);
            },
        };
        match self.violation() {
            Some(broken) => {
                return Err(StoreError::StorageFailure(broken));
            },
            None => {},
        }
        let row = self.clone();
        conn.programs.set(at, self.clone());
        proof {
            lemma_position_unique(old(conn)@.programs, program_id(), self.id, at as int);
            lemma_update_program_wf(old(conn)@, row@);
            assert(conn@.programs =~= old(conn)@.programs.update(at as int, row@));
        }
        Ok(row)
    }

    /// Deletes the program with identifier `delete_id`, and with it its links
    /// and its associations with maps. Returns whether there was such a
    /// program.
    pub fn delete_record(conn: &mut EntityStore, delete_id: u64) -> (r: Result<bool, StoreError>)
        requires
            old(conn).wf(),
        ensures
            final(conn).wf(),
            final(conn)@ == old(conn)@.delete_program(delete_id),
            r == Ok::<bool, StoreError>(old(conn)@.has_program(delete_id)),
    {
        let found = conn.program_index(delete_id);
        proof {
            lemma_delete_program_cascades(old(conn)@, delete_id);
        }
        match found {
            Some(at) => {
                conn.programs.remove(at);
                remove_links_of(&mut conn.links, delete_id);
                remove_pairs_of(&mut conn.program_maps, delete_id, false);
                proof {
                    lemma_without_unique(old(conn)@.programs, program_id(), delete_id, at as int);
                    assert(conn@.programs =~= old(conn)@.programs.remove(at as int));
                }
                Ok(true)
            },
            None => {
                proof {
                    let s = old(conn)@;
                    lemma_without_absent(s.programs, program_id(), delete_id);
                    assert(!has_key(s.links, link_program(), delete_id)) by {
                        if has_key(s.links, link_program(), delete_id) {
                            let i = choose|i: int|
                                0 <= i < s.links.len() && #[trigger] link_program()(s.links[i])
                                    == delete_id;
                            assert(s.has_program(s.links[i].program_id));
                        }
                    }
                    assert(!has_key(s.program_maps, pair_program(), delete_id)) by {
                        if has_key(s.program_maps, pair_program(), delete_id) {
                            let i = choose|i: int|
                                0 <= i < s.program_maps.len() && #[trigger] pair_program()(
                                    s.program_maps[i],
                                ) == delete_id;
                            assert(s.has_program(s.program_maps[i].program_id));
                        }
                    }
                    lemma_without_absent(s.links, link_program(), delete_id);
                    lemma_without_absent(s.program_maps, pair_program(), delete_id);
                }
                Ok(false)
            },
        }
    }

    /// Deletes every program, and with them every link and every association
    /// with a map. Returns how many programs there were.
    pub fn delete_all(conn: &mut EntityStore) -> (r: Result<usize, StoreError>)
        requires
            old(conn).wf(),
        ensures
            final(conn).wf(),
            final(conn)@ == old(conn)@.delete_all_programs(),
            r == Ok::<usize, StoreError>(old(conn)@.programs.len() as usize),
    {
        let n = conn.programs.len();
        conn.programs.clear();
        conn.links.clear();
        conn.program_maps.clear();
        proof {
            assert(conn@.programs =~= Seq::<BpfProgramView>::empty());
            assert(conn@.links =~= Seq::<BpfLinkView>::empty());
        }
        Ok(n)
    }
}

impl BpfLink {
    /// Creates a link row.
    ///
    /// Both timestamps of the row are set to the current time before it is
    /// written; the row as written is returned.
    pub fn link_insert(conn: &mut EntityStore, link: &mut BpfLink) -> (r: Result<
        BpfLink,
        StoreError,
    >)
        requires
            old(conn).wf(),
        ensures
            final(conn).wf(),
            exists|now: Timestamp|
                (final(link)@ == old(link)@.stamped_created(now) && #[trigger] carried_out(
                    old(conn)@.create_link(old(link)@.stamped_created(now)),
                    old(conn)@,
                    final(conn)@,
                    r,
                    old(link)@.stamped_created(now),
                )),
    {
        let now = utc_now();
        BpfLink::link_insert_at(conn, link, now)
    }

    /// Creates a link row at the time `now`.
    ///
    /// Both timestamps of the row are set to `now`. The row is appended and
    /// returned as written, unless the store refuses it; then the store is
    /// left as it was.
    pub fn link_insert_at(
        conn: &mut EntityStore,
        link: &mut BpfLink,
        now: Timestamp,
    ) -> (r: Result<BpfLink, StoreError>)
        requires
            old(conn).wf(),
        ensures
            final(conn).wf(),
            final(link)@ == old(link)@.stamped_created(now),
            carried_out(
                old(conn)@.create_link(final(link)@),
                old(conn)@,
                final(conn)@,
                r,
                final(link)@,
            ),
    {
        link.stamp_created(now);
        match link.violation() {
            Some(broken) => {
                return Err(StoreError::StorageFailure(broken));
            },
            None => {},
        }
        if conn.link_index(link.id).is_some() {
            return Err(StoreError::Conflict);
        }
        if conn.program_index(link.program_id).is_none() {
            return Err(StoreError::ForeignKeyViolation);
        }
        let row = link.clone();
        conn.links.push(link.clone());
        proof {
            lemma_create_link_wf(old(conn)@, row@);
            assert(conn@.links =~= old(conn)@.links.push(row@));
        }
        Ok(row)
    }

    /// Returns all link rows, in the order they were written.
    pub fn find_all(conn: &EntityStore) -> (r: Result<Vec<BpfLink>, StoreError>)
        ensures
            r is Ok,
            link_views(r->Ok_0@) == conn@.links,
    {
        let mut rows: Vec<BpfLink> = Vec::new();
        let mut i: usize = 0;
        while i < conn.links.len()
            invariant
                i <= conn.links@.len(),
                link_views(rows@) == conn@.links.take(i as int),
            decreases conn.links@.len() - i,
        {
            let ghost before = link_views(rows@);
            rows.push(conn.links[i].clone());
            proof {
                assert(link_views(rows@) =~= before.push(conn@.links[i as int]));
                assert(before.push(conn@.links[i as int]) =~= conn@.links.take(i + 1));
            }
            i = i + 1;
        }
        proof {
            assert(conn@.links.take(i as int) =~= conn@.links);
        }
        Ok(rows)
    }

    /// Finds the link with identifier `search_id`.
    pub fn find_record(conn: &EntityStore, search_id: u64) -> (r: Result<BpfLink, StoreError>)
        requires
            conn.wf(),
        ensures
            match r {
                Ok(row) => conn@.has_link(search_id) && row@ == conn@.link(search_id),
                Err(e) => !conn@.has_link(search_id) && e == StoreError::NotFound,
            },
    {
        match conn.link_index(search_id) {
            Some(i) => {
                proof {
                    lemma_position_unique(conn@.links, link_id(), search_id, i as int);
                }
                Ok(conn.links[i].clone())
            },
            None => Err(StoreError::NotFound),
        }
    }

    /// Rewrites the row of this link.
    ///
    /// The update timestamp is set to the current time before the row is
    /// written; the row as written is returned.
    pub fn update_record(&mut self, conn: &mut EntityStore) -> (r: Result<BpfLink, StoreError>)
        requires
            old(conn).wf(),
        ensures
            final(conn).wf(),
            exists|now: Timestamp|
                (final(self)@ == old(self)@.stamped_updated(now) && #[trigger] carried_out(
                    old(conn)@.update_link(old(self)@.stamped_updated(now)),
                    old(conn)@,
                    final(conn)@,
                    r,
                    old(self)@.stamped_updated(now),
                )),
    {
        let now = utc_now();
        self.update_record_at(conn, now)
    }

    /// Rewrites the row of this link at the time `now`.
    ///
    /// The update timestamp is set to `now`, and the stored row with the same
    /// identifier is replaced whole by this one, unless the store refuses
    /// it; then the store is left as it was.
    pub fn update_record_at(&mut self, conn: &mut EntityStore, now: Timestamp) -> (r: Result<
        BpfLink,
        StoreError,
    >)
        requires
            old(conn).wf(),
        ensures
            final(conn).wf(),
            final(self)@ == old(self)@.stamped_updated(now),
            carried_out(
                old(conn)@.update_link(final(self)@),
                old(conn)@,
                final(conn)@,
                r,
                final(self)@,
            ),
    {
        self.stamp_updated(now);
        let at = match conn.link_index(self.id) {
            Some(i) => i,
            None => {
                return Err(StoreError::NotFound);
            },
        };
        match self.violation() {
            Some(broken) => {
                return Err(StoreError::StorageFailure(broken));
            },
            None => {},
        }
        if conn.program_index(self.program_id).is_none() {
            return Err(StoreError::ForeignKeyViolation);
        }
        let row = self.clone();
        conn.links.set(at, self.clone());
        proof {
            lemma_position_unique(old(conn)@.links, link_id(), self.id, at as int);
            lemma_update_link_wf(old(conn)@, row@);
            assert(conn@.links =~= old(conn)@.links.update(at as int, row@));
        }
        Ok(row)
    }

    /// Returns the links of program `program`, in the order they were written.
    pub fn find_by_program(conn: &EntityStore, program: u64) -> (r: Result<
        Vec<BpfLink>,
        StoreError,
    >)
        ensures
            r is Ok,
            link_views(r->Ok_0@) == conn@.links_of(program),
    {
        let ghost all = conn@.links;
        let ghost pred = matches_key(link_program(), program);
        let mut rows: Vec<BpfLink> = Vec::new();
        let mut i: usize = 0;
        proof {
            lemma_filter_empty(all.take(0), pred);
            assert(link_views(rows@) =~= Seq::<BpfLinkView>::empty());
        }
        while i < conn.links.len()
            invariant
                i <= conn.links@.len(),
                all == conn@.links,
                pred == matches_key(link_program(), program),
                link_views(rows@) == all.take(i as int).filter(pred),
            decreases conn.links@.len() - i,
        {
            let ghost before = link_views(rows@);
            proof {
                lemma_filter_step(all, pred, i as int);
            }
            if conn.links[i].program_id == program {
                rows.push(conn.links[i].clone());
                proof {
                    assert(link_views(rows@) =~= before.push(all[i as int]));
                }
            }
            i = i + 1;
        }
        proof {
            assert(all.take(i as int) =~= all);
        }
        Ok(rows)
    }

    /// Deletes the link with identifier `delete_id`. Returns whether there
    /// was such a link.
    pub fn delete_record(conn: &mut EntityStore, delete_id: u64) -> (r: Result<bool, StoreError>)
        requires
            old(conn).wf(),
        ensures
            final(conn).wf(),
            final(conn)@ == old(conn)@.delete_link(delete_id),
            r == Ok::<bool, StoreError>(old(conn)@.has_link(delete_id)),
    {
        let found = conn.link_index(delete_id);
        proof {
            lemma_delete_link_wf(old(conn)@, delete_id);
        }
        match found {
            Some(at) => {
                conn.links.remove(at);
                proof {
                    lemma_without_unique(old(conn)@.links, link_id(), delete_id, at as int);
                    assert(conn@.links =~= old(conn)@.links.remove(at as int));
                }
                Ok(true)
            },
            None => {
                proof {
                    lemma_without_absent(old(conn)@.links, link_id(), delete_id);
                }
                Ok(false)
            },
        }
    }

    /// Deletes every link. Returns how many there were.
    pub fn delete_all(conn: &mut EntityStore) -> (r: Result<usize, StoreError>)
        requires
            old(conn).wf(),
        ensures
            final(conn).wf(),
            final(conn)@ == old(conn)@.delete_all_links(),
            r == Ok::<usize, StoreError>(old(conn)@.links.len() as usize),
    {
        let n = conn.links.len();
        conn.links.clear();
        proof {
            assert(conn@.links =~= Seq::<BpfLinkView>::empty());
            lemma_delete_all_wf(old(conn)@);
        }
        Ok(n)
    }
}

impl BpfMap {
    /// Creates a map row.
    ///
    /// Both timestamps of the row are set to the current time before it is
    /// written; the row as written is returned.
    pub fn insert(conn: &mut EntityStore, mut map: BpfMap) -> (r: Result<
        BpfMap,
        StoreError,
    >)
        requires
            old(conn).wf(),
        ensures
            final(conn).wf(),
            exists|now: Timestamp|
                (#[trigger] carried_out(
                    old(conn)@.create_map(map@.stamped_created(now)),
                    old(conn)@,
                    final(conn)@,
                    r,
                    map@.stamped_created(now),
                )),
    {
        let now = utc_now();
        BpfMap::insert_at(conn, map, now)
    }

    /// Creates a map row at the time `now`.
    ///
    /// Both timestamps of the row are set to `now`. The row is appended and
    /// returned as written, unless the store refuses it; then the store is
    /// left as it was.
    pub fn insert_at(conn: &mut EntityStore, mut map: BpfMap, now: Timestamp) -> (r: Result<
        BpfMap,
        StoreError,
    >)
        requires
            old(conn).wf(),
        ensures
            final(conn).wf(),
            carried_out(
                old(conn)@.create_map(map@.stamped_created(now)),
                old(conn)@,
                final(conn)@,
                r,
                map@.stamped_created(now),
            ),
    {
        map.stamp_created(now);
        if conn.map_index(map.id).is_some() {
            return Err(StoreError::Conflict);
        }
        let row = map.clone();
        conn.maps.push(map.clone());
        proof {
            lemma_create_map_wf(old(conn)@, row@);
            assert(conn@.maps =~= old(conn)@.maps.push(row@));
        }
        Ok(row)
    }

    /// Returns all map rows, in the order they were written.
    pub fn find_all(conn: &EntityStore) -> (r: Result<Vec<BpfMap>, StoreError>)
        ensures
            r is Ok,
            map_views(r->Ok_0@) == conn@.maps,
    {
        let mut rows: Vec<BpfMap> = Vec::new();
        let mut i: usize = 0;
        while i < conn.maps.len()
            invariant
                i <= conn.maps@.len(),
                map_views(rows@) == conn@.maps.take(i as int),
            decreases conn.maps@.len() - i,
        {
            let ghost before = map_views(rows@);
            rows.push(conn.maps[i].clone());
            proof {
                assert(map_views(rows@) =~= before.push(conn@.maps[i as int]));
                assert(before.push(conn@.maps[i as int]) =~= conn@.maps.take(i + 1));
            }
            i = i + 1;
        }
        proof {
            assert(conn@.maps.take(i as int) =~= conn@.maps);
        }
        Ok(rows)
    }

    /// Finds the map with identifier `search_id`.
    pub fn find_record(conn: &EntityStore, search_id: u64) -> (r: Result<BpfMap, StoreError>)
        requires
            conn.wf(),
        ensures
            match r {
                Ok(row) => conn@.has_map(search_id) && row@ == conn@.map(search_id),
                Err(e) => !conn@.has_map(search_id) && e == StoreError::NotFound,
            },
    {
        match conn.map_index(search_id) {
            Some(i) => {
                proof {
                    lemma_position_unique(conn@.maps, map_id(), search_id, i as int);
                }
                Ok(conn.maps[i].clone())
            },
            None => Err(StoreError::NotFound),
        }
    }

    /// Rewrites the row of this map.
    ///
    /// The update timestamp is set to the current time before the row is
    /// written; the row as written is returned.
    pub fn update_record(&mut self, conn: &mut EntityStore) -> (r: Result<BpfMap, StoreError>)
        requires
            old(conn).wf(),
        ensures
            final(conn).wf(),
            exists|now: Timestamp|
                (final(self)@ == old(self)@.stamped_updated(now) && #[trigger] carried_out(
                    old(conn)@.update_map(old(self)@.stamped_updated(now)),
                    old(conn)@,
                    final(conn)@,
                    r,
                    old(self)@.stamped_updated(now),
                )),
    {
        let now = utc_now();
        self.update_record_at(conn, now)
    }

    /// Rewrites the row of this map at the time `now`.
    ///
    /// The update timestamp is set to `now`, and the stored row with the same
    /// identifier is replaced whole by this one, unless the store refuses
    /// it; then the store is left as it was.
    pub fn update_record_at(&mut self, conn: &mut EntityStore, now: Timestamp) -> (r: Result<
        BpfMap,
        StoreError,
    >)
        requires
            old(conn).wf(),
        ensures
            final(conn).wf(),
            final(self)@ == old(self)@.stamped_updated(now),
            carried_out(
                old(conn)@.update_map(final(self)@),
                old(conn)@,
                final(conn)@,
                r,
                final(self)@,
            ),
    {
        self.stamp_updated(now);
        let at = match conn.map_index(self.id) {
            Some(i) => i,
            None => {
                return Err(StoreError::NotFound);
            },
        };
        let row = self.clone();
        conn.maps.set(at, self.clone());
        proof {
            lemma_position_unique(old(conn)@.maps, map_id(), self.id, at as int);
            lemma_update_map_wf(old(conn)@, row@);
            assert(conn@.maps =~= old(conn)@.maps.update(at as int, row@));
        }
        Ok(row)
    }

    /// Deletes the map with identifier `delete_id`, and with it its
    /// associations with programs. Returns whether there was such a map.
    pub fn delete_record(conn: &mut EntityStore, delete_id: u64) -> (r: Result<bool, StoreError>)
        requires
            old(conn).wf(),
        ensures
            final(conn).wf(),
            final(conn)@ == old(conn)@.delete_map(delete_id),
            r == Ok::<bool, StoreError>(old(conn)@.has_map(delete_id)),
    {
        let found = conn.map_index(delete_id);
        proof {
            lemma_delete_map_cascades(old(conn)@, delete_id);
        }
        match found {
            Some(at) => {
                conn.maps.remove(at);
                remove_pairs_of(&mut conn.program_maps, delete_id, true);
                proof {
                    lemma_without_unique(old(conn)@.maps, map_id(), delete_id, at as int);
                    assert(conn@.maps =~= old(conn)@.maps.remove(at as int));
                }
                Ok(true)
            },
            None => {
                proof {
                    let s = old(conn)@;
                    lemma_without_absent(s.maps, map_id(), delete_id);
                    assert(!has_key(s.program_maps, pair_map(), delete_id)) by {
                        if has_key(s.program_maps, pair_map(), delete_id) {
                            let i = choose|i: int|
                                0 <= i < s.program_maps.len() && #[trigger] pair_map()(
                                    s.program_maps[i],
                                ) == delete_id;
                            assert(s.has_map(s.program_maps[i].map_id));
                        }
                    }
                    lemma_without_absent(s.program_maps, pair_map(), delete_id);
                }
                Ok(false)
            },
        }
    }

    /// Deletes every map, and with them every association with a program.
    /// Returns how many maps there were.
    pub fn delete_all(conn: &mut EntityStore) -> (r: Result<usize, StoreError>)
        requires
            old(conn).wf(),
        ensures
            final(conn).wf(),
            final(conn)@ == old(conn)@.delete_all_maps(),
            r == Ok::<usize, StoreError>(old(conn)@.maps.len() as usize),
    {
        let n = conn.maps.len();
        conn.maps.clear();
        conn.program_maps.clear();
        proof {
            assert(conn@.maps =~= Seq::<BpfMapView>::empty());
        }
        Ok(n)
    }
}

impl BpfProgramMap {
    /// Associates a program with a map. The pair is appended, unless it
    /// exists already or one of its sides does not exist; then the store is
    /// left as it was.
    pub fn insert(conn: &mut EntityStore, pair: BpfProgramMap) -> (r: Result<
        BpfProgramMap,
        StoreError,
    >)
        requires
            old(conn).wf(),
        ensures
            final(conn).wf(),
            match old(conn)@.create_pair(pair) {
                Ok(s) => final(conn)@ == s && r == Ok::<BpfProgramMap, StoreError>(pair),
                Err(e) => final(conn)@ == old(conn)@ && r == Err::<BpfProgramMap, StoreError>(e),
            },
    {
        if conn.has_pair(pair) {
            return Err(StoreError::Conflict);
        }
        if conn.program_index(pair.program_id).is_none() || conn.map_index(pair.map_id).is_none() {
            return Err(StoreError::ForeignKeyViolation);
        }
        conn.program_maps.push(pair);
        proof {
            lemma_create_pair_wf(old(conn)@, pair);
        }
        Ok(pair)
    }

    /// Returns all associations, in the order they were written.
    pub fn find_all(conn: &EntityStore) -> (r: Result<Vec<BpfProgramMap>, StoreError>)
        ensures
            r is Ok,
            r->Ok_0@ == conn@.program_maps,
    {
        let mut rows: Vec<BpfProgramMap> = Vec::new();
        let mut i: usize = 0;
        while i < conn.program_maps.len()
            invariant
                i <= conn.program_maps@.len(),
                rows@ == conn@.program_maps.take(i as int),
            decreases conn.program_maps@.len() - i,
        {
            rows.push(conn.program_maps[i]);
            proof {
                assert(rows@ =~= conn@.program_maps.take(i + 1));
            }
            i = i + 1;
        }
        proof {
            assert(conn@.program_maps.take(i as int) =~= conn@.program_maps);
        }
        Ok(rows)
    }

    /// Returns the associations of program `program` with maps, in the order
    /// they were written.
    pub fn find_by_program(conn: &EntityStore, program: u64) -> (r: Result<
        Vec<BpfProgramMap>,
        StoreError,
    >)
        ensures
            r is Ok,
            r->Ok_0@ == conn@.maps_of(program),
    {
        let ghost all = conn@.program_maps;
        let ghost pred = matches_key(pair_program(), program);
        let mut rows: Vec<BpfProgramMap> = Vec::new();
        let mut i: usize = 0;
        proof {
            lemma_filter_empty(all.take(0), pred);
        }
        while i < conn.program_maps.len()
            invariant
                i <= conn.program_maps@.len(),
                all == conn@.program_maps,
                pred == matches_key(pair_program(), program),
                rows@ == all.take(i as int).filter(pred),
            decreases conn.program_maps@.len() - i,
        {
            proof {
                lemma_filter_step(all, pred, i as int);
            }
            if conn.program_maps[i].program_id == program {
                rows.push(conn.program_maps[i]);
            }
            i = i + 1;
        }
        proof {
            assert(all.take(i as int) =~= all);
        }
        Ok(rows)
    }
}

} // verus!
