//! Attaching links and maps to a program: operations of several steps that
//! take place as a whole or not at all.

use vstd::prelude::*;
use crate::clock::utc_now;
use crate::models::{BpfLink, BpfMap, BpfProgram, BpfProgramMap, Timestamp};
use crate::store::EntityStore;
use crate::store_model::{
    attached_link, attached_map, attached_program, lemma_undo_create_link, lemma_undo_create_map,
    prepared_link, prepared_map, StoreError,
};

verus! {

/// Whether attaching a link did what was planned for it: where the plan is a
/// new content, the store has it, the caller's program is the row written
/// and the link row written is returned; where the plan is an error, the
/// store and the caller's program are as before and that error is returned.
pub open spec fn link_attached(
    planned: Result<crate::store_model::StoreView, StoreError>,
    before: crate::store_model::StoreView,
    after: crate::store_model::StoreView,
    program_before: crate::models::BpfProgramView,
    program_after: crate::models::BpfProgramView,
    program_row: crate::models::BpfProgramView,
    link_row: crate::models::BpfLinkView,
    r: Result<BpfLink, StoreError>,
) -> bool {
    match planned {
        Ok(s) => after == s && program_after == program_row && r is Ok && r->Ok_0@ == link_row,
        Err(e) => after == before && program_after == program_before && r == Err::<
            BpfLink,
            StoreError,
        >(e),
    }
}

/// Fills in a link descriptor for attaching: the identifier the kernel gave,
/// the program the link belongs to, and the state `attached`.
pub fn prepare_link(descriptor: BpfLink, kernel_link_id: u64, program: &BpfProgram) -> (link:
    BpfLink)
    ensures
        link@ == prepared_link(descriptor@, kernel_link_id, program@.id),
{
    let mut link = descriptor;
    link.id = kernel_link_id;
    link.program_id = program.id;
    link.mark_attached();
    link
}

/// Fills in a map descriptor for attaching: the identifier the kernel gave.
pub fn prepare_map(descriptor: BpfMap, kernel_map_id: u64) -> (map: BpfMap)
    ensures
        map@ == prepared_map(descriptor@, kernel_map_id),
{
    let mut map = descriptor;
    map.id = kernel_map_id;
    map
}

/// Attaches a link to `program`, now.
///
/// See [`attach_link_at`]: the time is the current time.
pub fn attach_link(
    conn: &mut EntityStore,
    program: &mut BpfProgram,
    link: BpfLink,
    kernel_link_id: u64,
) -> (r: Result<BpfLink, StoreError>)
    requires
        old(conn).wf(),
    ensures
        final(conn).wf(),
        exists|now: Timestamp| #[trigger]
            link_attached(
                old(conn)@.attach_link(
                    attached_program(old(program)@, now),
                    attached_link(link@, kernel_link_id, old(program)@.id, now),
                ),
                old(conn)@,
                final(conn)@,
                old(program)@,
                final(program)@,
                attached_program(old(program)@, now),
                attached_link(link@, kernel_link_id, old(program)@.id, now),
                r,
            ),
{
    let now = utc_now();
    attach_link_at(conn, program, link, kernel_link_id, now)
}

/// Attaches a link to `program` at the time `now`.
///
/// The link row is written with the identifier the kernel gave, in state
/// `attached`; then the program moves to state `attached` and its row is
/// rewritten. If either step is refused, whatever the other did is undone:
/// the store and `program` are left exactly as they were, and the error of
/// the step that failed is returned.
pub fn attach_link_at(
    conn: &mut EntityStore,
    program: &mut BpfProgram,
    link: BpfLink,
    kernel_link_id: u64,
    now: Timestamp,
) -> (r: Result<BpfLink, StoreError>)
    requires
        old(conn).wf(),
    ensures
        final(conn).wf(),
        link_attached(
            old(conn)@.attach_link(
                attached_program(old(program)@, now),
                attached_link(link@, kernel_link_id, old(program)@.id, now),
            ),
            old(conn)@,
            final(conn)@,
            old(program)@,
            final(program)@,
            attached_program(old(program)@, now),
            attached_link(link@, kernel_link_id, old(program)@.id, now),
            r,
        ),
{
    let mut link = prepare_link(link, kernel_link_id, program);
    let row = match BpfLink::link_insert_at(conn, &mut link, now) {
        Ok(row) => row,
        Err(e) => {
            return Err(e);
        },
    };
    let mut updated = program.clone();
    updated.mark_attached();
    match updated.update_record_at(conn, now) {
        Ok(_) => {
            *program = updated;
            Ok(row)
        },
        Err(e) => {
            let undone = BpfLink::delete_record(conn, kernel_link_id);
            proof {
                lemma_undo_create_link(old(conn)@, row@);
            }
            Err(e)
        },
    }
}

/// Attaches a map to `program`, now.
///
/// See [`attach_map_at`]: the time is the current time.
pub fn attach_map(
    conn: &mut EntityStore,
    program: &BpfProgram,
    map: BpfMap,
    kernel_map_id: u64,
) -> (r: Result<BpfMap, StoreError>)
    requires
        old(conn).wf(),
    ensures
        final(conn).wf(),
        exists|now: Timestamp| #[trigger]
            crate::store::carried_out(
                old(conn)@.attach_map(program@.id, attached_map(map@, kernel_map_id, now)),
                old(conn)@,
                final(conn)@,
                r,
                attached_map(map@, kernel_map_id, now),
            ),
{
    let now = utc_now();
    attach_map_at(conn, program, map, kernel_map_id, now)
}

/// Attaches a map to `program` at the time `now`.
///
/// The map row is written with the identifier the kernel gave; then the
/// program is associated with it. If either step is refused, whatever the
/// other did is undone: the store is left exactly as it was, and the error
/// of the step that failed is returned.
pub fn attach_map_at(
    conn: &mut EntityStore,
    program: &BpfProgram,
    map: BpfMap,
    kernel_map_id: u64,
    now: Timestamp,
) -> (r: Result<BpfMap, StoreError>)
    requires
        old(conn).wf(),
    ensures
        final(conn).wf(),
        crate::store::carried_out(
            old(conn)@.attach_map(program@.id, attached_map(map@, kernel_map_id, now)),
            old(conn)@,
            final(conn)@,
            r,
            attached_map(map@, kernel_map_id, now),
        ),
{
    let row = match BpfMap::insert_at(conn, prepare_map(map, kernel_map_id), now) {
        Ok(row) => row,
        Err(e) => {
            return Err(e);
        },
    };
    let pair = BpfProgramMap { program_id: program.id, map_id: kernel_map_id };
    match BpfProgramMap::insert(conn, pair) {
        Ok(_) => Ok(row),
        Err(e) => {
            let undone = BpfMap::delete_record(conn, kernel_map_id);
            proof {
                lemma_undo_create_map(old(conn)@, row@);
            }
            Err(e)
        },
    }
}

} // verus!
