//! Rows and the store operations on them.

use s2s::lifecycle::Constraint;
use s2s::models::{BpfLink, BpfMap, BpfProgram, BpfProgramMap, Timestamp};
use s2s::store::{decode_identifier, encode_identifier, EntityStore};
use s2s::store_model::StoreError;
use s2s::uintblob::UnsignedIntBlobError;

fn setup_test_db() -> EntityStore {
    EntityStore::new()
}

fn at(secs: i64) -> Timestamp {
    Timestamp { secs, nanos: 0 }
}

fn program(id: u64) -> BpfProgram {
    BpfProgram {
        id,
        name: format!("program_{}", id),
        kind: "xdp".to_string(),
        state: "pre_load".to_string(),
        location_type: "file".to_string(),
        file_path: Some("/path/to/program.o".to_string()),
        map_pin_path: "/sys/fs/bpf/program".to_string(),
        program_bytes: vec![0xAA, 0xBB, 0xCC],
        ..Default::default()
    }
}

fn link(id: u64, program_id: u64) -> BpfLink {
    BpfLink {
        id,
        program_id,
        link_type: Some("xdp".to_string()),
        target: Some("eth0".to_string()),
        state: "pre_attach".to_string(),
        ..Default::default()
    }
}

fn map(id: u64) -> BpfMap {
    BpfMap { id, name: format!("map_{}", id), key_size: Some(4), ..Default::default() }
}

#[test]
fn test_insert_and_find_bpf_program() {
    let mut db_conn = setup_test_db();

    // Setup test program with minimal required fields.
    let mut prog = BpfProgram {
        id: 100,
        name: "xdp_test_program".to_string(),
        kind: "xdp".to_string(),
        state: "pre_load".to_string(),
        location_type: "file".to_string(),
        file_path: Some("/path/to/test_program.o".to_string()),
        map_pin_path: "/sys/fs/bpf/test_program".to_string(),
        program_bytes: vec![0xAA, 0xBB, 0xCC],
        ..Default::default()
    };

    // Verify default timestamps are epoch.
    let epoch: Timestamp = Default::default();
    assert_eq!(prog.created_at, epoch, "Default created_at should be epoch");
    assert_eq!(prog.updated_at, epoch, "Default updated_at should be epoch");

    // Insert program and verify.
    let inserted_program =
        BpfProgram::create_record(&mut db_conn, &mut prog).expect("Insert failed");

    // Verify timestamps are no longer epoch
    assert_ne!(
        inserted_program.created_at, epoch,
        "created_at should not be epoch after insert"
    );
    assert_ne!(
        inserted_program.updated_at, epoch,
        "updated_at should not be epoch after insert"
    );

    // Sync timestamps to enable Eq comparisons.
    prog.created_at = inserted_program.created_at;
    prog.updated_at = inserted_program.updated_at;

    assert_eq!(prog, inserted_program);

    // Verify JSON field defaults and validity.
    {
        assert_eq!(inserted_program.metadata, "{}");
        assert_eq!(inserted_program.global_data, "{}");
        assert_eq!(inserted_program.kernel_map_ids, "[]");

        serde_json::from_str::<serde_json::Value>(&inserted_program.metadata)
            .expect("metadata should be valid JSON");
        serde_json::from_str::<serde_json::Value>(&inserted_program.global_data)
            .expect("global_data should be valid JSON");
        let map_ids = serde_json::from_str::<Vec<i64>>(&inserted_program.kernel_map_ids)
            .expect("kernel_map_ids should be a valid JSON array of integers");
        assert!(map_ids.is_empty());
    }

    // Verify record retrieval using full Eq comparison.
    {
        let found_program =
            BpfProgram::find_record(&mut db_conn, prog.id).expect("Failed to find program");
        assert_eq!(found_program, inserted_program);
    }
}

fn text(v: &serde_json::Value, key: &str) -> String {
    v[key].as_str().expect(key).to_string()
}

fn opt_text(v: &serde_json::Value, key: &str) -> Option<String> {
    v[key].as_str().map(|s| s.to_string())
}

fn opt_i32(v: &serde_json::Value, key: &str) -> Option<i32> {
    v[key].as_i64().map(|n| n as i32)
}

fn opt_bool(v: &serde_json::Value, key: &str) -> Option<bool> {
    v[key].as_bool()
}

fn time_to_json(t: Timestamp) -> serde_json::Value {
    let mut m = serde_json::Map::new();
    m.insert("secs".to_string(), serde_json::Value::from(t.secs));
    m.insert("nanos".to_string(), serde_json::Value::from(t.nanos));
    serde_json::Value::Object(m)
}

fn time_from_json(v: &serde_json::Value) -> Timestamp {
    Timestamp {
        secs: v["secs"].as_i64().expect("secs"),
        nanos: v["nanos"].as_u64().expect("nanos") as u32,
    }
}

/// The program as a JSON document, one member for each field.
fn program_to_json(p: &BpfProgram) -> Result<String, serde_json::Error> {
    let mut m = serde_json::Map::new();
    let mut put = |key: &str, value: serde_json::Value| {
        m.insert(key.to_string(), value);
    };
    put("id", serde_json::Value::from(p.id));
    put("name", serde_json::Value::from(p.name.clone()));
    put("description", serde_json::Value::from(p.description.clone()));
    put("kind", serde_json::Value::from(p.kind.clone()));
    put("state", serde_json::Value::from(p.state.clone()));
    put("location_type", serde_json::Value::from(p.location_type.clone()));
    put("file_path", serde_json::Value::from(p.file_path.clone()));
    put("image_url", serde_json::Value::from(p.image_url.clone()));
    put("image_pull_policy", serde_json::Value::from(p.image_pull_policy.clone()));
    put("username", serde_json::Value::from(p.username.clone()));
    put("password", serde_json::Value::from(p.password.clone()));
    put("map_pin_path", serde_json::Value::from(p.map_pin_path.clone()));
    put("map_owner_id", serde_json::Value::from(p.map_owner_id));
    put("program_bytes", serde_json::Value::from(p.program_bytes.clone()));
    put("metadata", serde_json::Value::from(p.metadata.clone()));
    put("global_data", serde_json::Value::from(p.global_data.clone()));
    put("retprobe", serde_json::Value::from(p.retprobe));
    put("fn_name", serde_json::Value::from(p.fn_name.clone()));
    put("kernel_name", serde_json::Value::from(p.kernel_name.clone()));
    put("kernel_program_type", serde_json::Value::from(p.kernel_program_type));
    put("kernel_loaded_at", serde_json::Value::from(p.kernel_loaded_at.clone()));
    put("kernel_tag", serde_json::Value::from(p.kernel_tag.clone()));
    put("kernel_gpl_compatible", serde_json::Value::from(p.kernel_gpl_compatible));
    put("kernel_btf_id", serde_json::Value::from(p.kernel_btf_id));
    put("kernel_bytes_xlated", serde_json::Value::from(p.kernel_bytes_xlated));
    put("kernel_jited", serde_json::Value::from(p.kernel_jited));
    put("kernel_bytes_jited", serde_json::Value::from(p.kernel_bytes_jited));
    put("kernel_verified_insns", serde_json::Value::from(p.kernel_verified_insns));
    put("kernel_map_ids", serde_json::Value::from(p.kernel_map_ids.clone()));
    put("kernel_bytes_memlock", serde_json::Value::from(p.kernel_bytes_memlock));
    put("created_at", time_to_json(p.created_at));
    put("updated_at", time_to_json(p.updated_at));
    serde_json::to_string(&serde_json::Value::Object(m))
}

/// The program that a JSON document of that shape describes.
fn program_from_json(json: &str) -> Result<BpfProgram, serde_json::Error> {
    let v: serde_json::Value = serde_json::from_str(json)?;
    Ok(BpfProgram {
        id: v["id"].as_u64().expect("id"),
        name: text(&v, "name"),
        description: opt_text(&v, "description"),
        kind: text(&v, "kind"),
        state: text(&v, "state"),
        location_type: text(&v, "location_type"),
        file_path: opt_text(&v, "file_path"),
        image_url: opt_text(&v, "image_url"),
        image_pull_policy: opt_text(&v, "image_pull_policy"),
        username: opt_text(&v, "username"),
        password: opt_text(&v, "password"),
        map_pin_path: text(&v, "map_pin_path"),
        map_owner_id: opt_i32(&v, "map_owner_id"),
        program_bytes: v["program_bytes"]
            .as_array()
            .expect("program_bytes")
            .iter()
            .map(|b| b.as_u64().expect("byte") as u8)
            .collect(),
        metadata: text(&v, "metadata"),
        global_data: text(&v, "global_data"),
        retprobe: opt_bool(&v, "retprobe"),
        fn_name: opt_text(&v, "fn_name"),
        kernel_name: opt_text(&v, "kernel_name"),
        kernel_program_type: opt_i32(&v, "kernel_program_type"),
        kernel_loaded_at: opt_text(&v, "kernel_loaded_at"),
        kernel_tag: opt_text(&v, "kernel_tag"),
        kernel_gpl_compatible: opt_bool(&v, "kernel_gpl_compatible"),
        kernel_btf_id: opt_i32(&v, "kernel_btf_id"),
        kernel_bytes_xlated: opt_i32(&v, "kernel_bytes_xlated"),
        kernel_jited: opt_bool(&v, "kernel_jited"),
        kernel_bytes_jited: opt_i32(&v, "kernel_bytes_jited"),
        kernel_verified_insns: opt_i32(&v, "kernel_verified_insns"),
        kernel_map_ids: text(&v, "kernel_map_ids"),
        kernel_bytes_memlock: opt_i32(&v, "kernel_bytes_memlock"),
        created_at: time_from_json(&v["created_at"]),
        updated_at: time_from_json(&v["updated_at"]),
    })
}

#[test]
fn test_bpf_program_serde_roundtrip() {
    let mut prog = BpfProgram {
        id: 100,
        name: "xdp_test_program".to_string(),
        description: Some("Test program description".to_string()),
        kind: "xdp".to_string(),
        state: "pre_load".to_string(),
        location_type: "file".to_string(),
        file_path: Some("/path/to/test_program.o".to_string()),
        image_url: Some("registry.example.com/image:tag".to_string()),
        image_pull_policy: Some("Always".to_string()),
        username: Some("testuser".to_string()),
        password: Some("testpass".to_string()),
        map_pin_path: "/sys/fs/bpf/test_program".to_string(),
        map_owner_id: Some(1234),
        program_bytes: vec![0xAA, 0xBB, 0xCC],
        metadata: "{}".to_string(),
        global_data: "{}".to_string(),
        retprobe: Some(true),
        fn_name: Some("test_function".to_string()),
        kernel_name: Some("test_kernel_prog".to_string()),
        kernel_program_type: Some(123),
        kernel_loaded_at: Some("2024-02-18T12:00:00Z".to_string()),
        kernel_tag: Some("abcdef123456".to_string()),
        kernel_gpl_compatible: Some(true),
        kernel_btf_id: Some(456),
        kernel_bytes_xlated: Some(1024),
        kernel_jited: Some(true),
        kernel_bytes_jited: Some(2048),
        kernel_verified_insns: Some(100),
        kernel_map_ids: "[]".to_string(),
        kernel_bytes_memlock: Some(4096),
        ..Default::default()
    };

    // Test JSON serialisation round-trip.
    {
        let json = program_to_json(&prog).expect("Failed to serialize to JSON");

        let deserialized: BpfProgram =
            program_from_json(&json).expect("Failed to deserialize from JSON");

        assert_eq!(prog, deserialized);
    }

    // Test database round-trip.
    {
        let mut db_conn = setup_test_db();

        let inserted =
            BpfProgram::create_record(&mut db_conn, &mut prog).expect("Failed to insert");

        let json_after_db = program_to_json(&inserted).expect("Failed to serialize after DB");

        let deserialized_after_db: BpfProgram =
            program_from_json(&json_after_db).expect("Failed to deserialize after DB");

        assert_eq!(inserted, deserialized_after_db);

        let found = BpfProgram::find_record(&db_conn, 100).expect("Failed to find");
        assert_eq!(inserted, found);
        assert_eq!(found, prog);
        assert_eq!(found, prog.clone());
        assert_eq!(found.kernel_bytes_memlock, Some(4096));
        assert_eq!(found.program_bytes, vec![0xAA, 0xBB, 0xCC]);
    }
}

#[test]
fn default_program_is_blank() {
    let p = BpfProgram::default();
    assert_eq!(p.id, 0);
    assert_eq!(p.name, "");
    assert_eq!(p.description, None);
    assert_eq!(p.kind, "");
    assert_eq!(p.state, "");
    assert_eq!(p.location_type, "");
    assert_eq!(p.file_path, None);
    assert_eq!(p.image_url, None);
    assert_eq!(p.map_pin_path, "");
    assert_eq!(p.map_owner_id, None);
    assert!(p.program_bytes.is_empty());
    assert_eq!(p.metadata, "{}");
    assert_eq!(p.global_data, "{}");
    assert_eq!(p.retprobe, None);
    assert_eq!(p.kernel_map_ids, "[]");
    assert_eq!(p.kernel_bytes_memlock, None);
    assert_eq!(p.created_at, Timestamp { secs: 0, nanos: 0 });
    assert_eq!(p.updated_at, Timestamp { secs: 0, nanos: 0 });
}

#[test]
fn default_link_and_map_are_blank() {
    let l = BpfLink::default();
    assert_eq!(
        l,
        BpfLink {
            id: 0,
            program_id: 0,
            link_type: None,
            target: None,
            state: String::new(),
            created_at: Timestamp::epoch(),
            updated_at: Timestamp::epoch(),
        }
    );
    let m = BpfMap::default();
    assert_eq!(
        m,
        BpfMap {
            id: 0,
            name: String::new(),
            map_type: None,
            key_size: None,
            value_size: None,
            max_entries: None,
            created_at: Timestamp::epoch(),
            updated_at: Timestamp::epoch(),
        }
    );
}

#[test]
fn create_stamps_both_timestamps() {
    let mut conn = setup_test_db();
    let mut prog = program(1);
    let row = BpfProgram::create_record_at(&mut conn, &mut prog, at(1_700_000_000)).unwrap();
    assert_eq!(row.created_at, at(1_700_000_000));
    assert_eq!(row.updated_at, at(1_700_000_000));
    assert_eq!(prog, row);
    assert_eq!(conn.program_count(), 1);
}

#[test]
fn create_refuses_a_taken_identifier() {
    let mut conn = setup_test_db();
    BpfProgram::create_record_at(&mut conn, &mut program(1), at(1)).unwrap();
    let mut again = program(1);
    again.name = "other".to_string();
    let r = BpfProgram::create_record_at(&mut conn, &mut again, at(2));
    assert_eq!(r, Err(StoreError::Conflict));
    assert_eq!(conn.program_count(), 1);
    assert_eq!(BpfProgram::find_record(&conn, 1).unwrap().name, "program_1");
    // The caller's row is stamped all the same.
    assert_eq!(again.created_at, at(2));
}

#[test]
fn create_refuses_rows_that_break_a_constraint() {
    let mut conn = setup_test_db();
    let mut bad_kind = program(1);
    bad_kind.kind = "socket".to_string();
    assert_eq!(
        BpfProgram::create_record_at(&mut conn, &mut bad_kind, at(1)),
        Err(StoreError::StorageFailure(Constraint::ProgramKind))
    );
    let mut bad_state = program(1);
    bad_state.state = "unloaded".to_string();
    assert_eq!(
        BpfProgram::create_record_at(&mut conn, &mut bad_state, at(1)),
        Err(StoreError::StorageFailure(Constraint::ProgramState))
    );
    let mut no_path = program(1);
    no_path.file_path = None;
    assert_eq!(
        BpfProgram::create_record_at(&mut conn, &mut no_path, at(1)),
        Err(StoreError::StorageFailure(Constraint::ProgramLocation))
    );
    let mut no_image = program(1);
    no_image.location_type = "image".to_string();
    assert_eq!(
        BpfProgram::create_record_at(&mut conn, &mut no_image, at(1)),
        Err(StoreError::StorageFailure(Constraint::ProgramLocation))
    );
    let mut nowhere = program(1);
    nowhere.location_type = "memory".to_string();
    assert_eq!(
        BpfProgram::create_record_at(&mut conn, &mut nowhere, at(1)),
        Err(StoreError::StorageFailure(Constraint::ProgramLocation))
    );
    assert_eq!(conn.program_count(), 0);
    assert_eq!(BpfProgram::create_record_at(&mut conn, &mut BpfProgram::default(), at(1)),
        Err(StoreError::StorageFailure(Constraint::ProgramKind)));
}

#[test]
fn every_kind_and_state_is_accepted() {
    let mut conn = setup_test_db();
    let kinds = ["xdp", "tc", "tcx", "tracepoint", "kprobe", "uprobe", "fentry", "fexit"];
    for (i, kind) in kinds.iter().enumerate() {
        let mut p = program(i as u64);
        p.kind = kind.to_string();
        assert!(BpfProgram::create_record_at(&mut conn, &mut p, at(1)).is_ok());
    }
    for (i, state) in ["pre_load", "loaded", "attached"].iter().enumerate() {
        let mut p = program(100 + i as u64);
        p.state = state.to_string();
        assert!(BpfProgram::create_record_at(&mut conn, &mut p, at(1)).is_ok());
    }
    let mut image = program(200);
    image.location_type = "image".to_string();
    image.file_path = None;
    image.image_url = Some("registry.example.com/image:tag".to_string());
    assert!(BpfProgram::create_record_at(&mut conn, &mut image, at(1)).is_ok());
    assert_eq!(conn.program_count(), 12);
    assert!(program(1).violation().is_none());
}

#[test]
fn find_reports_missing_rows() {
    let mut conn = setup_test_db();
    BpfProgram::create_record_at(&mut conn, &mut program(1), at(1)).unwrap();
    assert_eq!(BpfProgram::find_record(&conn, 2), Err(StoreError::NotFound));
    assert_eq!(BpfLink::find_record(&conn, 1), Err(StoreError::NotFound));
    assert_eq!(BpfMap::find_record(&conn, 1), Err(StoreError::NotFound));
}

#[test]
fn find_all_returns_rows_in_the_order_written() {
    let mut conn = setup_test_db();
    for id in [5u64, 3, 9] {
        BpfProgram::create_record_at(&mut conn, &mut program(id), at(1)).unwrap();
    }
    let ids: Vec<u64> = BpfProgram::find_all(&conn).unwrap().iter().map(|p| p.id).collect();
    assert_eq!(ids, vec![5, 3, 9]);
    assert!(BpfLink::find_all(&conn).unwrap().is_empty());
    assert!(BpfMap::find_all(&conn).unwrap().is_empty());
    assert!(BpfProgramMap::find_all(&conn).unwrap().is_empty());
}

#[test]
fn update_replaces_the_whole_row_and_stamps_it() {
    let mut conn = setup_test_db();
    let mut prog = program(1);
    BpfProgram::create_record_at(&mut conn, &mut prog, at(10)).unwrap();
    BpfProgram::create_record_at(&mut conn, &mut program(2), at(10)).unwrap();

    prog.name = "renamed".to_string();
    prog.kernel_tag = Some("f00d".to_string());
    assert!(prog.mark_loaded());
    let row = prog.update_record_at(&mut conn, at(20)).unwrap();
    assert_eq!(row.created_at, at(10));
    assert_eq!(row.updated_at, at(20));
    assert_eq!(row.name, "renamed");
    assert_eq!(row.state, "loaded");
    assert_eq!(row, prog);
    assert_eq!(BpfProgram::find_record(&conn, 1).unwrap(), row);
    assert_eq!(BpfProgram::find_record(&conn, 2).unwrap().name, "program_2");
    assert_eq!(conn.program_count(), 2);
}

#[test]
fn update_with_the_clock_moves_the_update_time_only() {
    let mut conn = setup_test_db();
    let mut prog = program(1);
    BpfProgram::create_record_at(&mut conn, &mut prog, at(10)).unwrap();
    let row = prog.update_record(&mut conn).unwrap();
    assert_eq!(row.created_at, at(10));
    assert!(row.updated_at.secs > 1_600_000_000);
}

#[test]
fn update_refuses_missing_and_invalid_rows() {
    let mut conn = setup_test_db();
    let mut ghost = program(7);
    assert_eq!(ghost.update_record_at(&mut conn, at(1)), Err(StoreError::NotFound));
    let mut prog = program(1);
    BpfProgram::create_record_at(&mut conn, &mut prog, at(1)).unwrap();
    prog.kind = "bogus".to_string();
    assert_eq!(
        prog.update_record_at(&mut conn, at(2)),
        Err(StoreError::StorageFailure(Constraint::ProgramKind))
    );
    let stored = BpfProgram::find_record(&conn, 1).unwrap();
    assert_eq!(stored.kind, "xdp");
    assert_eq!(stored.updated_at, at(1));
}

#[test]
fn states_only_move_forward() {
    let mut p = program(1);
    assert_eq!(p.state, "pre_load");
    assert!(p.mark_loaded());
    assert_eq!(p.state, "loaded");
    assert!(!p.mark_loaded());
    assert_eq!(p.state, "loaded");
    p.mark_attached();
    assert_eq!(p.state, "attached");
    assert!(!p.mark_loaded());
    assert_eq!(p.state, "attached");
    let mut l = link(1, 1);
    assert!(l.violation().is_none());
    l.mark_attached();
    assert_eq!(l.state, "attached");
    assert!(l.violation().is_none());
}

#[test]
fn link_insert_needs_its_program_and_a_free_identifier() {
    let mut conn = setup_test_db();
    assert_eq!(
        BpfLink::link_insert_at(&mut conn, &mut link(10, 1), at(1)),
        Err(StoreError::ForeignKeyViolation)
    );
    BpfProgram::create_record_at(&mut conn, &mut program(1), at(1)).unwrap();
    let row = BpfLink::link_insert_at(&mut conn, &mut link(10, 1), at(5)).unwrap();
    assert_eq!(row.created_at, at(5));
    assert_eq!(row.updated_at, at(5));
    assert_eq!(row.target.as_deref(), Some("eth0"));
    assert_eq!(
        BpfLink::link_insert_at(&mut conn, &mut link(10, 1), at(6)),
        Err(StoreError::Conflict)
    );
    let mut bad = link(11, 1);
    bad.state = "detached".to_string();
    assert_eq!(
        BpfLink::link_insert_at(&mut conn, &mut bad, at(6)),
        Err(StoreError::StorageFailure(Constraint::LinkState))
    );
    assert_eq!(conn.link_count(), 1);
    assert_eq!(BpfLink::find_record(&conn, 10).unwrap(), row);
    let stamped = BpfLink::link_insert(&mut conn, &mut link(12, 1)).unwrap();
    assert_ne!(stamped.created_at, Timestamp::epoch());
    assert_eq!(stamped.created_at, stamped.updated_at);
}

#[test]
fn link_update_and_delete() {
    let mut conn = setup_test_db();
    BpfProgram::create_record_at(&mut conn, &mut program(1), at(1)).unwrap();
    let mut l = link(10, 1);
    BpfLink::link_insert_at(&mut conn, &mut l, at(1)).unwrap();
    l.target = Some("eth1".to_string());
    let row = l.update_record_at(&mut conn, at(2)).unwrap();
    assert_eq!(row.target.as_deref(), Some("eth1"));
    assert_eq!(row.updated_at, at(2));
    l.program_id = 99;
    assert_eq!(l.update_record_at(&mut conn, at(3)), Err(StoreError::ForeignKeyViolation));
    assert_eq!(link(77, 1).update_record_at(&mut conn, at(3)), Err(StoreError::NotFound));
    assert_eq!(BpfLink::find_record(&conn, 10).unwrap().program_id, 1);
    assert_eq!(BpfLink::delete_record(&mut conn, 10), Ok(true));
    assert_eq!(BpfLink::delete_record(&mut conn, 10), Ok(false));
    assert_eq!(conn.link_count(), 0);
    assert_eq!(conn.program_count(), 1);
}

#[test]
fn map_insert_update_delete() {
    let mut conn = setup_test_db();
    let row = BpfMap::insert_at(&mut conn, map(4), at(3)).unwrap();
    assert_eq!(row.created_at, at(3));
    assert_eq!(row.name, "map_4");
    assert_eq!(BpfMap::insert_at(&mut conn, map(4), at(4)), Err(StoreError::Conflict));
    let mut changed = BpfMap::find_record(&conn, 4).unwrap();
    changed.max_entries = Some(1024);
    let updated = changed.update_record_at(&mut conn, at(9)).unwrap();
    assert_eq!(updated.max_entries, Some(1024));
    assert_eq!(updated.created_at, at(3));
    assert_eq!(updated.updated_at, at(9));
    assert_eq!(map(5).update_record_at(&mut conn, at(9)), Err(StoreError::NotFound));
    let clocked = BpfMap::insert(&mut conn, map(6)).unwrap();
    assert_ne!(clocked.created_at, Timestamp::epoch());
    assert_eq!(BpfMap::delete_record(&mut conn, 4), Ok(true));
    assert_eq!(BpfMap::delete_record(&mut conn, 4), Ok(false));
    assert_eq!(conn.map_count(), 1);
}

#[test]
fn association_needs_both_sides() {
    let mut conn = setup_test_db();
    let pair = BpfProgramMap { program_id: 1, map_id: 4 };
    assert_eq!(BpfProgramMap::insert(&mut conn, pair), Err(StoreError::ForeignKeyViolation));
    BpfProgram::create_record_at(&mut conn, &mut program(1), at(1)).unwrap();
    assert_eq!(BpfProgramMap::insert(&mut conn, pair), Err(StoreError::ForeignKeyViolation));
    BpfMap::insert_at(&mut conn, map(4), at(1)).unwrap();
    assert_eq!(BpfProgramMap::insert(&mut conn, pair), Ok(pair));
    assert_eq!(BpfProgramMap::insert(&mut conn, pair), Err(StoreError::Conflict));
    assert_eq!(conn.program_map_count(), 1);
    assert_eq!(BpfProgramMap::find_by_program(&conn, 1).unwrap(), vec![pair]);
    assert!(BpfProgramMap::find_by_program(&conn, 2).unwrap().is_empty());
}

fn populated() -> EntityStore {
    let mut conn = setup_test_db();
    for id in [1u64, 2] {
        BpfProgram::create_record_at(&mut conn, &mut program(id), at(1)).unwrap();
    }
    for (id, owner) in [(10u64, 1u64), (11, 2), (12, 1)] {
        BpfLink::link_insert_at(&mut conn, &mut link(id, owner), at(1)).unwrap();
    }
    for id in [4u64, 5] {
        BpfMap::insert_at(&mut conn, map(id), at(1)).unwrap();
    }
    for (p, m) in [(1u64, 4u64), (2, 4), (1, 5)] {
        BpfProgramMap::insert(&mut conn, BpfProgramMap { program_id: p, map_id: m }).unwrap();
    }
    conn
}

#[test]
fn deleting_a_program_takes_its_links_and_associations() {
    let mut conn = populated();
    assert_eq!(BpfLink::find_by_program(&conn, 1).unwrap().len(), 2);
    assert_eq!(BpfProgramMap::find_by_program(&conn, 1).unwrap().len(), 2);

    assert_eq!(BpfProgram::delete_record(&mut conn, 1), Ok(true));

    assert_eq!(BpfProgram::find_record(&conn, 1), Err(StoreError::NotFound));
    assert!(BpfLink::find_by_program(&conn, 1).unwrap().is_empty());
    assert!(BpfProgramMap::find_by_program(&conn, 1).unwrap().is_empty());
    assert_eq!(BpfLink::find_record(&conn, 10), Err(StoreError::NotFound));
    assert_eq!(BpfLink::find_record(&conn, 12), Err(StoreError::NotFound));
    // What belongs to the other program stays, and so do the maps.
    let left: Vec<u64> = BpfLink::find_all(&conn).unwrap().iter().map(|l| l.id).collect();
    assert_eq!(left, vec![11]);
    assert_eq!(
        BpfProgramMap::find_all(&conn).unwrap(),
        vec![BpfProgramMap { program_id: 2, map_id: 4 }]
    );
    assert_eq!(conn.map_count(), 2);
    assert_eq!(conn.program_count(), 1);
    assert_eq!(BpfProgram::delete_record(&mut conn, 1), Ok(false));
    assert_eq!(conn.link_count(), 1);
}

#[test]
fn deleting_a_map_takes_its_associations() {
    let mut conn = populated();
    assert_eq!(BpfMap::delete_record(&mut conn, 4), Ok(true));
    assert_eq!(
        BpfProgramMap::find_all(&conn).unwrap(),
        vec![BpfProgramMap { program_id: 1, map_id: 5 }]
    );
    assert_eq!(conn.program_count(), 2);
    assert_eq!(conn.link_count(), 3);
    assert_eq!(conn.map_count(), 1);
}

#[test]
fn deleting_everything_cascades_too() {
    let mut conn = populated();
    assert_eq!(BpfLink::delete_all(&mut conn), Ok(3));
    assert_eq!(conn.link_count(), 0);
    assert_eq!(conn.program_map_count(), 3);

    let mut conn = populated();
    assert_eq!(BpfMap::delete_all(&mut conn), Ok(2));
    assert_eq!(conn.map_count(), 0);
    assert_eq!(conn.program_map_count(), 0);
    assert_eq!(conn.link_count(), 3);

    let mut conn = populated();
    assert_eq!(BpfProgram::delete_all(&mut conn), Ok(2));
    assert_eq!(conn.program_count(), 0);
    assert_eq!(conn.link_count(), 0);
    assert_eq!(conn.program_map_count(), 0);
    assert_eq!(conn.map_count(), 2);
}

#[test]
fn identifiers_are_stored_as_eight_big_endian_bytes() {
    assert_eq!(encode_identifier(100), vec![0, 0, 0, 0, 0, 0, 0, 100]);
    assert_eq!(encode_identifier(u32::MAX as u64), vec![0, 0, 0, 0, 255, 255, 255, 255]);
    for id in [0u64, 1, 100, u32::MAX as u64, u64::MAX] {
        assert_eq!(decode_identifier(&encode_identifier(id)), Ok(id));
    }
    assert!(encode_identifier(255) < encode_identifier(256));
    assert_eq!(
        decode_identifier(&[0, 0, 0, 100]),
        Err(StoreError::Codec(UnsignedIntBlobError::InvalidSize {
            expected: 8,
            actual: 4,
            type_label: "u64".to_string(),
        }))
    );
}
