//! The entity store as a mathematical object: four relations, the
//! constraints that tie them together, and what each operation makes of them.

use vstd::prelude::*;
use crate::lifecycle::{
    is_program_kind, link_violation, location_complete, program_violation, Constraint,
};
use crate::models::{BpfLinkView, BpfMapView, BpfProgramMap, BpfProgramView, Timestamp};
use crate::relation::{
    differs, has_key, keys_unique, lemma_filter_contains, lemma_filter_keeps_unique,
    lemma_filter_lookup, lemma_none_selected, lemma_position_valid, lemma_push_has_key,
    lemma_push_keeps_unique, lemma_push_lookup, lemma_selected_after_push,
    lemma_selected_after_without, lemma_update_keys, lemma_update_lookup, lemma_without_absent,
    lemma_without_has_key, lemma_without_keeps_distinct, lemma_without_rows, lemma_without_unique,
    matches_key, position_of, selected, without,
};
use crate::uintblob::UnsignedIntBlobError;

verus! {

/// Why a store operation did not take place.
#[derive(Debug, Clone, PartialEq)]
pub enum StoreError {
    /// No row has the identifier asked for.
    NotFound,
    /// A row with the same primary key exists already.
    Conflict,
    /// The row refers to a program or a map that does not exist.
    ForeignKeyViolation,
    /// The row breaks a constraint of the store.
    StorageFailure(Constraint),
    /// A stored identifier does not have the length of its declared width.
    Codec(UnsignedIntBlobError),
}

/// The primary key of a program row.
pub open spec fn program_id() -> spec_fn(BpfProgramView) -> u64 {
    |p: BpfProgramView| p.id
}

/// The primary key of a link row.
pub open spec fn link_id() -> spec_fn(BpfLinkView) -> u64 {
    |l: BpfLinkView| l.id
}

/// The program a link row belongs to.
pub open spec fn link_program() -> spec_fn(BpfLinkView) -> u64 {
    |l: BpfLinkView| l.program_id
}

/// The primary key of a map row.
pub open spec fn map_id() -> spec_fn(BpfMapView) -> u64 {
    |m: BpfMapView| m.id
}

/// The program side of an association row.
pub open spec fn pair_program() -> spec_fn(BpfProgramMap) -> u64 {
    |a: BpfProgramMap| a.program_id
}

/// The map side of an association row.
pub open spec fn pair_map() -> spec_fn(BpfProgramMap) -> u64 {
    |a: BpfProgramMap| a.map_id
}

/// The content of the store: every row of every relation, in the order the
/// rows were written.
pub struct StoreView {
    pub programs: Seq<BpfProgramView>,
    pub links: Seq<BpfLinkView>,
    pub maps: Seq<BpfMapView>,
    pub program_maps: Seq<BpfProgramMap>,
}

impl StoreView {
    /// The store with no rows.
    pub open spec fn empty() -> StoreView {
        StoreView {
            programs: Seq::empty(),
            links: Seq::empty(),
            maps: Seq::empty(),
            program_maps: Seq::empty(),
        }
    }

    /// Whether a program row has identifier `id`.
    pub open spec fn has_program(self, id: u64) -> bool {
        has_key(self.programs, program_id(), id)
    }

    /// Whether a link row has identifier `id`.
    pub open spec fn has_link(self, id: u64) -> bool {
        has_key(self.links, link_id(), id)
    }

    /// Whether a map row has identifier `id`.
    pub open spec fn has_map(self, id: u64) -> bool {
        has_key(self.maps, map_id(), id)
    }

    /// Whether the program and the map of `pair` are associated.
    pub open spec fn has_pair(self, pair: BpfProgramMap) -> bool {
        self.program_maps.contains(pair)
    }

    /// The program row with identifier `id`.
    pub open spec fn program(self, id: u64) -> BpfProgramView {
        self.programs[position_of(self.programs, program_id(), id)]
    }

    /// The link row with identifier `id`.
    pub open spec fn link(self, id: u64) -> BpfLinkView {
        self.links[position_of(self.links, link_id(), id)]
    }

    /// The map row with identifier `id`.
    pub open spec fn map(self, id: u64) -> BpfMapView {
        self.maps[position_of(self.maps, map_id(), id)]
    }

    /// The links of program `id`.
    pub open spec fn links_of(self, id: u64) -> Seq<BpfLinkView> {
        selected(self.links, link_program(), id)
    }

    /// The associations of program `id` with maps.
    pub open spec fn maps_of(self, id: u64) -> Seq<BpfProgramMap> {
        selected(self.program_maps, pair_program(), id)
    }

    /// The constraints of the store: primary keys are unique, every link
    /// belongs to a program, every association joins a program and a map,
    /// and every row obeys the constraints of its relation.
    pub open spec fn wf(self) -> bool {
        &&& keys_unique(self.programs, program_id())
        &&& keys_unique(self.links, link_id())
        &&& keys_unique(self.maps, map_id())
        &&& forall|i: int, j: int|
            0 <= i < self.program_maps.len() && 0 <= j < self.program_maps.len() && i != j
                ==> #[trigger] self.program_maps[i] != #[trigger] self.program_maps[j]
        &&& forall|i: int|
            0 <= i < self.links.len() ==> self.has_program((#[trigger] self.links[i]).program_id)
        &&& forall|i: int|
            0 <= i < self.program_maps.len() ==> self.has_program(
                (#[trigger] self.program_maps[i]).program_id,
            ) && self.has_map(self.program_maps[i].map_id)
        &&& forall|i: int|
            0 <= i < self.programs.len() ==> program_violation(#[trigger] self.programs[i]) is None
        &&& forall|i: int|
            0 <= i < self.links.len() ==> link_violation(#[trigger] self.links[i]) is None
    }

    /// What creating a program row does: the row is appended, unless it
    /// breaks a constraint or its identifier is taken. As in the database,
    /// the row's own constraints are tested first and its key after them.
    pub open spec fn create_program(self, row: BpfProgramView) -> Result<StoreView, StoreError> {
        if program_violation(row) is Some {
            Err(StoreError::StorageFailure(program_violation(row)->0))
        } else if self.has_program(row.id) {
            Err(StoreError::Conflict)
        } else {
            Ok(StoreView { programs: self.programs.push(row), ..self })
        }
    }

    /// What creating a link row does: the row is appended, unless it breaks
    /// a constraint, its identifier is taken or its program does not exist.
    /// As in the database, the row's own constraints are tested first, its
    /// key after them and the row it refers to last.
    pub open spec fn create_link(self, row: BpfLinkView) -> Result<StoreView, StoreError> {
        if link_violation(row) is Some {
            Err(StoreError::StorageFailure(link_violation(row)->0))
        } else if self.has_link(row.id) {
            Err(StoreError::Conflict)
        } else if !self.has_program(row.program_id) {
            Err(StoreError::ForeignKeyViolation)
        } else {
            Ok(StoreView { links: self.links.push(row), ..self })
        }
    }

    /// What creating a map row does: the row is appended, unless its
    /// identifier is taken.
    pub open spec fn create_map(self, row: BpfMapView) -> Result<StoreView, StoreError> {
        if self.has_map(row.id) {
            Err(StoreError::Conflict)
        } else {
            Ok(StoreView { maps: self.maps.push(row), ..self })
        }
    }

    /// What associating a program with a map does: the pair is appended,
    /// unless it exists already or one of its sides does not exist.
    pub open spec fn create_pair(self, pair: BpfProgramMap) -> Result<StoreView, StoreError> {
        if self.has_pair(pair) {
            Err(StoreError::Conflict)
        } else if !self.has_program(pair.program_id) || !self.has_map(pair.map_id) {
            Err(StoreError::ForeignKeyViolation)
        } else {
            Ok(StoreView { program_maps: self.program_maps.push(pair), ..self })
        }
    }

    /// What rewriting a program row does: the row with the same identifier is
    /// replaced whole, unless there is none or the new row breaks a
    /// constraint. Where there is no such row, no constraint is tested.
    pub open spec fn update_program(self, row: BpfProgramView) -> Result<StoreView, StoreError> {
        if !self.has_program(row.id) {
            Err(StoreError::NotFound)
        } else if program_violation(row) is Some {
            Err(StoreError::StorageFailure(program_violation(row)->0))
        } else {
            Ok(
                StoreView {
                    programs: self.programs.update(
                        position_of(self.programs, program_id(), row.id),
                        row,
                    ),
                    ..self
                },
            )
        }
    }

    /// What rewriting a link row does: the row with the same identifier is
    /// replaced whole, unless there is none, the new row breaks a constraint
    /// or the program of the new row does not exist, tested in this order.
    pub open spec fn update_link(self, row: BpfLinkView) -> Result<StoreView, StoreError> {
        if !self.has_link(row.id) {
            Err(StoreError::NotFound)
        } else if link_violation(row) is Some {
            Err(StoreError::StorageFailure(link_violation(row)->0))
        } else if !self.has_program(row.program_id) {
            Err(StoreError::ForeignKeyViolation)
        } else {
            Ok(
                StoreView {
                    links: self.links.update(position_of(self.links, link_id(), row.id), row),
                    ..self
                },
            )
        }
    }

    /// What rewriting a map row does: the row with the same identifier is
    /// replaced whole, unless there is none.
    pub open spec fn update_map(self, row: BpfMapView) -> Result<StoreView, StoreError> {
        if !self.has_map(row.id) {
            Err(StoreError::NotFound)
        } else {
            Ok(
                StoreView {
                    maps: self.maps.update(position_of(self.maps, map_id(), row.id), row),
                    ..self
                },
            )
        }
    }

    /// What deleting program `id` does: its row goes, and with it every link
    /// of the program and every association of the program with a map.
    pub open spec fn delete_program(self, id: u64) -> StoreView {
        StoreView {
            programs: without(self.programs, program_id(), id),
            links: without(self.links, link_program(), id),
            maps: self.maps,
            program_maps: without(self.program_maps, pair_program(), id),
        }
    }

    /// What deleting link `id` does: its row goes.
    pub open spec fn delete_link(self, id: u64) -> StoreView {
        StoreView { links: without(self.links, link_id(), id), ..self }
    }

    /// What deleting map `id` does: its row goes, and with it every
    /// association of a program with the map.
    pub open spec fn delete_map(self, id: u64) -> StoreView {
        StoreView {
            maps: without(self.maps, map_id(), id),
            program_maps: without(self.program_maps, pair_map(), id),
            ..self
        }
    }

    /// What attaching a link to a program does: the link row is created and
    /// the program row is rewritten, both or neither.
    pub open spec fn attach_link(self, program: BpfProgramView, link: BpfLinkView) -> Result<
        StoreView,
        StoreError,
    > {
        match self.create_link(link) {
            Ok(with_link) => with_link.update_program(program),
            Err(e) => Err(e),
        }
    }

    /// What attaching a map to a program does: the map row is created and
    /// the program is associated with it, both or neither.
    pub open spec fn attach_map(self, program: u64, map: BpfMapView) -> Result<
        StoreView,
        StoreError,
    > {
        match self.create_map(map) {
            Ok(with_map) => with_map.create_pair(
                BpfProgramMap { program_id: program, map_id: map.id },
            ),
            Err(e) => Err(e),
        }
    }

    /// What deleting all programs does: no program is left, and so no link
    /// and no association.
    pub open spec fn delete_all_programs(self) -> StoreView {
        StoreView {
            programs: Seq::empty(),
            links: Seq::empty(),
            maps: self.maps,
            program_maps: Seq::empty(),
        }
    }

    /// What deleting all links does.
    pub open spec fn delete_all_links(self) -> StoreView {
        StoreView { links: Seq::empty(), ..self }
    }

    /// What deleting all maps does: no map is left, and so no association.
    pub open spec fn delete_all_maps(self) -> StoreView {
        StoreView { maps: Seq::empty(), program_maps: Seq::empty(), ..self }
    }
}

/// Creating a program row keeps the constraints of the store.
pub proof fn lemma_create_program_wf(s: StoreView, row: BpfProgramView)
    requires
        s.wf(),
        s.create_program(row) is Ok,
    ensures
        s.create_program(row)->Ok_0.wf(),
{
    let t = s.create_program(row)->Ok_0;
    lemma_push_keeps_unique(s.programs, program_id(), row);
    assert forall|k: u64| s.has_program(k) implies t.has_program(k) by {
        lemma_push_has_key(s.programs, program_id(), row, k);
    }
}

/// Creating a link row keeps the constraints of the store.
pub proof fn lemma_create_link_wf(s: StoreView, row: BpfLinkView)
    requires
        s.wf(),
        s.create_link(row) is Ok,
    ensures
        s.create_link(row)->Ok_0.wf(),
{
    lemma_push_keeps_unique(s.links, link_id(), row);
}

/// Creating a map row keeps the constraints of the store.
pub proof fn lemma_create_map_wf(s: StoreView, row: BpfMapView)
    requires
        s.wf(),
        s.create_map(row) is Ok,
    ensures
        s.create_map(row)->Ok_0.wf(),
{
    let t = s.create_map(row)->Ok_0;
    lemma_push_keeps_unique(s.maps, map_id(), row);
    assert forall|k: u64| s.has_map(k) implies t.has_map(k) by {
        lemma_push_has_key(s.maps, map_id(), row, k);
    }
}

/// Associating a program with a map keeps the constraints of the store.
pub proof fn lemma_create_pair_wf(s: StoreView, pair: BpfProgramMap)
    requires
        s.wf(),
        s.create_pair(pair) is Ok,
    ensures
        s.create_pair(pair)->Ok_0.wf(),
{
    let t = s.create_pair(pair)->Ok_0;
    let pairs = t.program_maps;
    assert forall|i: int, j: int|
        0 <= i < pairs.len() && 0 <= j < pairs.len() && i != j implies #[trigger] pairs[i]
        != #[trigger] pairs[j] by {
        if i < s.program_maps.len() && j < s.program_maps.len() {
            assert(s.program_maps[i] != s.program_maps[j]);
        } else if i < s.program_maps.len() {
            assert(s.program_maps.contains(s.program_maps[i]));
        } else {
            assert(s.program_maps.contains(s.program_maps[j]));
        }
    }
}

/// Rewriting a program row keeps the constraints of the store.
pub proof fn lemma_update_program_wf(s: StoreView, row: BpfProgramView)
    requires
        s.wf(),
        s.update_program(row) is Ok,
    ensures
        s.update_program(row)->Ok_0.wf(),
{
    let t = s.update_program(row)->Ok_0;
    let i = position_of(s.programs, program_id(), row.id);
    lemma_position_valid(s.programs, program_id(), row.id);
    lemma_update_keys(s.programs, program_id(), i, row, row.id);
    assert forall|k: u64| s.has_program(k) implies t.has_program(k) by {
        lemma_update_keys(s.programs, program_id(), i, row, k);
    }
}

/// Rewriting a link row keeps the constraints of the store.
pub proof fn lemma_update_link_wf(s: StoreView, row: BpfLinkView)
    requires
        s.wf(),
        s.update_link(row) is Ok,
    ensures
        s.update_link(row)->Ok_0.wf(),
{
    let i = position_of(s.links, link_id(), row.id);
    lemma_position_valid(s.links, link_id(), row.id);
    lemma_update_keys(s.links, link_id(), i, row, row.id);
}

/// Rewriting a map row keeps the constraints of the store.
pub proof fn lemma_update_map_wf(s: StoreView, row: BpfMapView)
    requires
        s.wf(),
        s.update_map(row) is Ok,
    ensures
        s.update_map(row)->Ok_0.wf(),
{
    let t = s.update_map(row)->Ok_0;
    let i = position_of(s.maps, map_id(), row.id);
    lemma_position_valid(s.maps, map_id(), row.id);
    lemma_update_keys(s.maps, map_id(), i, row, row.id);
    assert forall|k: u64| s.has_map(k) implies t.has_map(k) by {
        lemma_update_keys(s.maps, map_id(), i, row, k);
    }
}

/// A program row that was created or rewritten is the row found under its
/// identifier, and under any other identifier the store holds what it held
/// before.
pub proof fn lemma_program_written(s: StoreView, row: BpfProgramView, other: u64)
    requires
        s.wf(),
        other != row.id,
    ensures
        s.create_program(row) matches Ok(t) ==> {
            &&& t.has_program(row.id)
            &&& t.program(row.id) == row
            &&& t.has_program(other) == s.has_program(other)
            &&& s.has_program(other) ==> t.program(other) == s.program(other)
        },
        s.update_program(row) matches Ok(t) ==> {
            &&& t.has_program(row.id)
            &&& t.program(row.id) == row
            &&& t.has_program(other) == s.has_program(other)
            &&& s.has_program(other) ==> t.program(other) == s.program(other)
        },
{
    if s.create_program(row) is Ok {
        lemma_push_has_key(s.programs, program_id(), row, row.id);
        lemma_push_has_key(s.programs, program_id(), row, other);
        lemma_push_lookup(s.programs, program_id(), row, other);
    }
    if s.update_program(row) is Ok {
        let at = position_of(s.programs, program_id(), row.id);
        lemma_position_valid(s.programs, program_id(), row.id);
        lemma_update_keys(s.programs, program_id(), at, row, row.id);
        lemma_update_keys(s.programs, program_id(), at, row, other);
        lemma_update_lookup(s.programs, program_id(), at, row, other);
    }
}

/// A link row that was created or rewritten is the row found under its
/// identifier, and under any other identifier the store holds what it held
/// before.
pub proof fn lemma_link_written(s: StoreView, row: BpfLinkView, other: u64)
    requires
        s.wf(),
        other != row.id,
    ensures
        s.create_link(row) matches Ok(t) ==> {
            &&& t.has_link(row.id)
            &&& t.link(row.id) == row
            &&& t.has_link(other) == s.has_link(other)
            &&& s.has_link(other) ==> t.link(other) == s.link(other)
        },
        s.update_link(row) matches Ok(t) ==> {
            &&& t.has_link(row.id)
            &&& t.link(row.id) == row
            &&& t.has_link(other) == s.has_link(other)
            &&& s.has_link(other) ==> t.link(other) == s.link(other)
        },
{
    if s.create_link(row) is Ok {
        lemma_push_has_key(s.links, link_id(), row, row.id);
        lemma_push_has_key(s.links, link_id(), row, other);
        lemma_push_lookup(s.links, link_id(), row, other);
    }
    if s.update_link(row) is Ok {
        let at = position_of(s.links, link_id(), row.id);
        lemma_position_valid(s.links, link_id(), row.id);
        lemma_update_keys(s.links, link_id(), at, row, row.id);
        lemma_update_keys(s.links, link_id(), at, row, other);
        lemma_update_lookup(s.links, link_id(), at, row, other);
    }
}

/// A map row that was created or rewritten is the row found under its
/// identifier, and under any other identifier the store holds what it held
/// before.
pub proof fn lemma_map_written(s: StoreView, row: BpfMapView, other: u64)
    requires
        s.wf(),
        other != row.id,
    ensures
        s.create_map(row) matches Ok(t) ==> {
            &&& t.has_map(row.id)
            &&& t.map(row.id) == row
            &&& t.has_map(other) == s.has_map(other)
            &&& s.has_map(other) ==> t.map(other) == s.map(other)
        },
        s.update_map(row) matches Ok(t) ==> {
            &&& t.has_map(row.id)
            &&& t.map(row.id) == row
            &&& t.has_map(other) == s.has_map(other)
            &&& s.has_map(other) ==> t.map(other) == s.map(other)
        },
{
    if s.create_map(row) is Ok {
        lemma_push_has_key(s.maps, map_id(), row, row.id);
        lemma_push_has_key(s.maps, map_id(), row, other);
        lemma_push_lookup(s.maps, map_id(), row, other);
    }
    if s.update_map(row) is Ok {
        let at = position_of(s.maps, map_id(), row.id);
        lemma_position_valid(s.maps, map_id(), row.id);
        lemma_update_keys(s.maps, map_id(), at, row, row.id);
        lemma_update_keys(s.maps, map_id(), at, row, other);
        lemma_update_lookup(s.maps, map_id(), at, row, other);
    }
}

/// Deleting a program leaves everything else in place: the other programs
/// and their rows, the maps, and every link that belongs to another program.
pub proof fn lemma_delete_program_spares(s: StoreView, id: u64, other: u64, link: u64)
    requires
        s.wf(),
        other != id,
    ensures
        s.delete_program(id).maps == s.maps,
        s.delete_program(id).has_program(other) == s.has_program(other),
        s.has_program(other) ==> s.delete_program(id).program(other) == s.program(other),
        s.has_link(link) && s.link(link).program_id != id ==> s.delete_program(id).has_link(link)
            && s.delete_program(id).link(link) == s.link(link),
        s.delete_program(id).links_of(other) == s.links_of(other),
        s.delete_program(id).maps_of(other) == s.maps_of(other),
{
    lemma_without_has_key(s.programs, program_id(), id, other);
    if s.has_program(other) {
        lemma_position_valid(s.programs, program_id(), other);
        lemma_filter_lookup(s.programs, program_id(), differs(program_id(), id), other);
    }
    if s.has_link(link) && s.link(link).program_id != id {
        lemma_position_valid(s.links, link_id(), link);
        lemma_filter_lookup(s.links, link_id(), differs(link_program(), id), link);
    }
    lemma_selected_after_without(s.links, link_program(), id, other);
    lemma_selected_after_without(s.program_maps, pair_program(), id, other);
}

/// Cascade deletion: after a program is deleted the constraints of the store
/// still hold, the program is gone, and the store holds no link and no
/// association of that program.
pub proof fn lemma_delete_program_cascades(s: StoreView, id: u64)
    requires
        s.wf(),
    ensures
        s.delete_program(id).wf(),
        !s.delete_program(id).has_program(id),
        forall|i: int|
            0 <= i < s.delete_program(id).links.len() ==> (#[trigger] s.delete_program(
                id,
            ).links[i]).program_id != id,
        forall|i: int|
            0 <= i < s.delete_program(id).program_maps.len() ==> (#[trigger] s.delete_program(
                id,
            ).program_maps[i]).program_id != id,
        s.delete_program(id).links_of(id) == Seq::<BpfLinkView>::empty(),
        s.delete_program(id).maps_of(id) == Seq::<BpfProgramMap>::empty(),
{
    let t = s.delete_program(id);
    lemma_filter_keeps_unique(s.programs, program_id(), differs(program_id(), id));
    lemma_filter_keeps_unique(s.links, link_id(), differs(link_program(), id));
    lemma_without_has_key(s.programs, program_id(), id, id);
    assert forall|i: int| 0 <= i < t.programs.len() implies program_violation(
        #[trigger] t.programs[i],
    ) is None by {
        lemma_without_rows(s.programs, program_id(), id, i);
        let m = choose|m: int| 0 <= m < s.programs.len() && s.programs[m] == t.programs[i];
        assert(program_violation(s.programs[m]) is None);
    }
    assert forall|i: int| 0 <= i < t.links.len() implies link_violation(#[trigger] t.links[i])
        is None && t.has_program(t.links[i].program_id) && t.links[i].program_id != id by {
        lemma_without_rows(s.links, link_program(), id, i);
        let m = choose|m: int| 0 <= m < s.links.len() && s.links[m] == t.links[i];
        assert(link_violation(s.links[m]) is None);
        assert(s.has_program(s.links[m].program_id));
        lemma_without_has_key(s.programs, program_id(), id, s.links[m].program_id);
    }
    assert forall|i: int| 0 <= i < t.program_maps.len() implies t.has_program(
        (#[trigger] t.program_maps[i]).program_id,
    ) && t.has_map(t.program_maps[i].map_id) && t.program_maps[i].program_id != id by {
        lemma_without_rows(s.program_maps, pair_program(), id, i);
        let m = choose|m: int|
            0 <= m < s.program_maps.len() && s.program_maps[m] == t.program_maps[i];
        assert(s.has_program(s.program_maps[m].program_id));
        lemma_without_has_key(s.programs, program_id(), id, s.program_maps[m].program_id);
    }
    lemma_without_keeps_distinct(s.program_maps, differs(pair_program(), id));
    lemma_none_selected(t.links, link_program(), id);
    lemma_none_selected(t.program_maps, pair_program(), id);
}

/// Deleting a link keeps the constraints of the store, and the link is gone.
pub proof fn lemma_delete_link_wf(s: StoreView, id: u64)
    requires
        s.wf(),
    ensures
        s.delete_link(id).wf(),
        !s.delete_link(id).has_link(id),
{
    let t = s.delete_link(id);
    lemma_filter_keeps_unique(s.links, link_id(), differs(link_id(), id));
    lemma_without_has_key(s.links, link_id(), id, id);
    assert forall|i: int| 0 <= i < t.links.len() implies link_violation(#[trigger] t.links[i])
        is None && t.has_program(t.links[i].program_id) by {
        lemma_without_rows(s.links, link_id(), id, i);
        let m = choose|m: int| 0 <= m < s.links.len() && s.links[m] == t.links[i];
        assert(link_violation(s.links[m]) is None);
        assert(s.has_program(s.links[m].program_id));
    }
}

/// Deleting a map keeps the constraints of the store; the map is gone, and
/// the store holds no association with that map.
pub proof fn lemma_delete_map_cascades(s: StoreView, id: u64)
    requires
        s.wf(),
    ensures
        s.delete_map(id).wf(),
        !s.delete_map(id).has_map(id),
        forall|i: int|
            0 <= i < s.delete_map(id).program_maps.len() ==> (#[trigger] s.delete_map(
                id,
            ).program_maps[i]).map_id != id,
{
    let t = s.delete_map(id);
    lemma_filter_keeps_unique(s.maps, map_id(), differs(map_id(), id));
    lemma_without_has_key(s.maps, map_id(), id, id);
    assert forall|i: int| 0 <= i < t.program_maps.len() implies t.has_program(
        (#[trigger] t.program_maps[i]).program_id,
    ) && t.has_map(t.program_maps[i].map_id) && t.program_maps[i].map_id != id by {
        lemma_without_rows(s.program_maps, pair_map(), id, i);
        let m = choose|m: int|
            0 <= m < s.program_maps.len() && s.program_maps[m] == t.program_maps[i];
        assert(s.has_map(s.program_maps[m].map_id));
        lemma_without_has_key(s.maps, map_id(), id, s.program_maps[m].map_id);
    }
    lemma_without_keeps_distinct(s.program_maps, differs(pair_map(), id));
}

/// Deleting all rows of a relation keeps the constraints of the store.
pub proof fn lemma_delete_all_wf(s: StoreView)
    requires
        s.wf(),
    ensures
        s.delete_all_programs().wf(),
        s.delete_all_links().wf(),
        s.delete_all_maps().wf(),
{
    let t = s.delete_all_links();
    assert forall|i: int| 0 <= i < t.program_maps.len() implies t.has_program(
        (#[trigger] t.program_maps[i]).program_id,
    ) && t.has_map(t.program_maps[i].map_id) by {
        assert(s.has_program(s.program_maps[i].program_id));
    }
    assert forall|i: int| 0 <= i < t.programs.len() implies program_violation(
        #[trigger] t.programs[i],
    ) is None by {
        assert(program_violation(s.programs[i]) is None);
    }
}

/// The link row that attaching prepares: the descriptor with the identifier
/// the kernel gave, the program it belongs to and the state `attached`.
pub open spec fn prepared_link(
    descriptor: BpfLinkView,
    kernel_id: u64,
    program: u64,
) -> BpfLinkView {
    BpfLinkView { id: kernel_id, program_id: program, state: "attached"@, ..descriptor }
}

/// The link row that attaching writes: the prepared row with both
/// timestamps at `now`.
pub open spec fn attached_link(
    descriptor: BpfLinkView,
    kernel_id: u64,
    program: u64,
    now: Timestamp,
) -> BpfLinkView {
    prepared_link(descriptor, kernel_id, program).stamped_created(now)
}

/// The program row that attaching a link writes: the program in state
/// `attached`, rewritten at `now`.
pub open spec fn attached_program(program: BpfProgramView, now: Timestamp) -> BpfProgramView {
    BpfProgramView { state: "attached"@, updated_at: now, ..program }
}

/// The map row that attaching prepares: the descriptor with the identifier
/// the kernel gave.
pub open spec fn prepared_map(descriptor: BpfMapView, kernel_id: u64) -> BpfMapView {
    BpfMapView { id: kernel_id, ..descriptor }
}

/// The map row that attaching writes: the prepared row with both timestamps
/// at `now`.
pub open spec fn attached_map(
    descriptor: BpfMapView,
    kernel_id: u64,
    now: Timestamp,
) -> BpfMapView {
    prepared_map(descriptor, kernel_id).stamped_created(now)
}

/// Deleting a link that was just created gives back the store as it was.
pub proof fn lemma_undo_create_link(s: StoreView, row: BpfLinkView)
    requires
        s.wf(),
        s.create_link(row) is Ok,
    ensures
        s.create_link(row)->Ok_0.delete_link(row.id) == s,
{
    let t = s.create_link(row)->Ok_0;
    lemma_create_link_wf(s, row);
    lemma_without_unique(t.links, link_id(), row.id, s.links.len() as int);
    assert(t.links.remove(s.links.len() as int) =~= s.links);
}

/// Deleting a map that was just created gives back the store as it was.
pub proof fn lemma_undo_create_map(s: StoreView, row: BpfMapView)
    requires
        s.wf(),
        s.create_map(row) is Ok,
    ensures
        s.create_map(row)->Ok_0.delete_map(row.id) == s,
{
    let t = s.create_map(row)->Ok_0;
    lemma_create_map_wf(s, row);
    lemma_without_unique(t.maps, map_id(), row.id, s.maps.len() as int);
    assert(t.maps.remove(s.maps.len() as int) =~= s.maps);
    assert(!has_key(s.program_maps, pair_map(), row.id)) by {
        if has_key(s.program_maps, pair_map(), row.id) {
            let i = choose|i: int|
                0 <= i < s.program_maps.len() && #[trigger] pair_map()(s.program_maps[i])
                    == row.id;
            assert(s.has_map(s.program_maps[i].map_id));
        }
    }
    lemma_without_absent(s.program_maps, pair_map(), row.id);
}

/// Attaching keeps the constraints of the store. After a link is attached
/// the store holds the link row, the program row is the one written, and
/// no other row has changed; after a map is attached the store holds the
/// map row and its association with the program.
pub proof fn lemma_attach_wf(
    s: StoreView,
    program: BpfProgramView,
    link: BpfLinkView,
    map: BpfMapView,
)
    requires
        s.wf(),
    ensures
        s.attach_link(program, link) matches Ok(t) ==> {
            &&& t.wf()
            &&& t.links == s.links.push(link)
            &&& t.has_program(program.id)
            &&& t.program(program.id) == program
            &&& t.maps == s.maps
            &&& t.program_maps == s.program_maps
        },
        s.attach_map(program.id, map) matches Ok(t) ==> {
            &&& t.wf()
            &&& t.maps == s.maps.push(map)
            &&& t.program_maps == s.program_maps.push(
                BpfProgramMap { program_id: program.id, map_id: map.id },
            )
            &&& t.programs == s.programs
            &&& t.links == s.links
        },
{
    if s.attach_link(program, link) is Ok {
        let with_link = s.create_link(link)->Ok_0;
        lemma_create_link_wf(s, link);
        lemma_update_program_wf(with_link, program);
        let t = with_link.update_program(program)->Ok_0;
        let at = position_of(with_link.programs, program_id(), program.id);
        lemma_position_valid(with_link.programs, program_id(), program.id);
        lemma_update_keys(with_link.programs, program_id(), at, program, program.id);
        assert(program_id()(t.programs[at]) == program.id);
        crate::relation::lemma_position_unique(t.programs, program_id(), program.id, at);
    }
    if s.attach_map(program.id, map) is Ok {
        lemma_create_map_wf(s, map);
        lemma_create_pair_wf(
            s.create_map(map)->Ok_0,
            BpfProgramMap { program_id: program.id, map_id: map.id },
        );
    }
}

/// A link is created whenever nothing stands against it: its state is a
/// known one, its identifier is free and its program exists. The store then
/// holds the rows it held and the link after them.
pub proof fn lemma_link_insert_succeeds(s: StoreView, row: BpfLinkView)
    requires
        s.wf(),
        link_violation(row) is None,
        !s.has_link(row.id),
        s.has_program(row.program_id),
    ensures
        s.create_link(row) == Ok::<StoreView, StoreError>(
            StoreView { links: s.links.push(row), ..s },
        ),
        s.create_link(row)->Ok_0.links_of(row.program_id) == s.links_of(row.program_id).push(row),
        s.links.len() == 0 ==> s.create_link(row)->Ok_0.links == seq![row],
{
    lemma_selected_after_push(s.links, link_program(), row, row.program_id);
    if s.links.len() == 0 {
        assert(s.links.push(row) =~= seq![row]);
    }
}

/// Attaching a link succeeds whenever nothing stands against it: the
/// program is in the store, its kind and its location are in order, and the
/// identifier of the link is free. Afterwards the program is `attached`, the
/// store holds the link after the links it held, and the link is the last
/// of the links of its program.
pub proof fn lemma_attach_link_succeeds(
    s: StoreView,
    program: BpfProgramView,
    descriptor: BpfLinkView,
    kernel_id: u64,
    now: Timestamp,
)
    requires
        s.wf(),
        s.has_program(program.id),
        is_program_kind(program.kind),
        location_complete(program),
        !s.has_link(kernel_id),
    ensures
        s.attach_link(
            attached_program(program, now),
            attached_link(descriptor, kernel_id, program.id, now),
        ) matches Ok(t) && {
            let link = attached_link(descriptor, kernel_id, program.id, now);
            &&& t.wf()
            &&& t.links == s.links.push(link)
            &&& t.links_of(program.id) == s.links_of(program.id).push(link)
            &&& t.has_program(program.id)
            &&& t.program(program.id) == attached_program(program, now)
            &&& t.program(program.id).state == "attached"@
            &&& t.maps == s.maps
            &&& t.program_maps == s.program_maps
        },
{
    let link = attached_link(descriptor, kernel_id, program.id, now);
    let updated = attached_program(program, now);
    lemma_link_insert_succeeds(s, link);
    let with_link = s.create_link(link)->Ok_0;
    assert(with_link.has_program(updated.id));
    lemma_attach_wf(s, updated, link, BpfMapView::blank());
}

/// Attaching a map succeeds whenever nothing stands against it: the
/// program is in the store and the identifier of the map is free.
/// Afterwards the store holds the map after the maps it held, and the
/// association of the program with it after the associations it held; so
/// the program has one association more, with a map none of the others has.
pub proof fn lemma_attach_map_succeeds(
    s: StoreView,
    program: u64,
    descriptor: BpfMapView,
    kernel_id: u64,
    now: Timestamp,
)
    requires
        s.wf(),
        s.has_program(program),
        !s.has_map(kernel_id),
    ensures
        s.attach_map(program, attached_map(descriptor, kernel_id, now)) matches Ok(t) && {
            let pair = BpfProgramMap { program_id: program, map_id: kernel_id };
            &&& t.wf()
            &&& t.maps == s.maps.push(attached_map(descriptor, kernel_id, now))
            &&& t.program_maps == s.program_maps.push(pair)
            &&& t.maps_of(program) == s.maps_of(program).push(pair)
            &&& !s.maps_of(program).contains(pair)
            &&& t.programs == s.programs
            &&& t.links == s.links
        },
{
    let map = attached_map(descriptor, kernel_id, now);
    let pair = BpfProgramMap { program_id: program, map_id: kernel_id };
    let with_map = s.create_map(map)->Ok_0;
    lemma_push_has_key(s.maps, map_id(), map, kernel_id);
    assert(!s.has_pair(pair)) by {
        if s.has_pair(pair) {
            let i = choose|i: int| 0 <= i < s.program_maps.len() && s.program_maps[i] == pair;
            assert(s.has_map(s.program_maps[i].map_id));
        }
    }
    assert(!s.maps_of(program).contains(pair)) by {
        if s.maps_of(program).contains(pair) {
            lemma_filter_contains(s.program_maps, matches_key(pair_program(), program), pair);
        }
    }
    lemma_selected_after_push(s.program_maps, pair_program(), pair, program);
    lemma_create_map_wf(s, map);
    lemma_create_pair_wf(with_map, pair);
}

} // verus!
