use std::collections::HashSet;

use s_lf::draw;
use s_lf::engine::{step, Action, EngineState, Event, FailReason, SubStep};
use s_lf::model::{
    Card, GraphError, Msg, MsgContent, Person, ScrollAnchor, DM, S_lf,
};
use s_lf::patch::{apply_patch, diff, OpKind, PatchError, PatchOp, Seg};
use s_lf::policy::{authorize, enforce, Authority, ContentPolicy, PolicyError};
use s_lf::value::{value_eq, Field, Value};
use s_lf::canon::canon;
use s_lf::model::DynamicContent;

fn fresh_aggregate() -> S_lf {
    S_lf {
        nonce: 0,
        state_cookie: 7,
        export_map: Vec::new(),
        username: String::from("ada"),
        pronouns: (
            String::from("she"),
            String::from("her"),
            String::from("hers"),
        ),
        me: Person {
            id: 0,
            card: Card { vcard_text: None },
            profile: None,
            cached_profile_image: Vec::new(),
        },
        msgs: Vec::new(),
        dm_storage: Vec::new(),
        journal_storage: Vec::new(),
        doi_storage: Vec::new(),
    }
}

#[test]
fn allocate_strictly_increasing_and_distinct() {
    let mut s = fresh_aggregate();
    let mut seen = Vec::new();
    for _ in 0..100 {
        let id = s.gensym();
        if let Some(&last) = seen.last() {
            assert!(id > last);
        }
        seen.push(id);
    }
    let unique: HashSet<u64> = seen.iter().copied().collect();
    assert_eq!(unique.len(), seen.len());
}

#[test]
fn export_token_stable_across_calls() {
    let mut s = fresh_aggregate();
    let t1 = s.export_token(42).unwrap();
    let t2 = s.export_token(42).unwrap();
    assert_eq!(t1, t2);
    assert_eq!(s.export_map.len(), 1);
}

#[test]
fn export_token_no_collision_many_trials() {
    let mut s = fresh_aggregate();
    let mut tokens = HashSet::new();
    for id in 0..10_000u64 {
        let t = s.export_token(id).unwrap();
        assert!(tokens.insert(t), "token collision");
    }
}

#[test]
fn diff_of_equal_values_is_empty() {
    let a = Value::Arr(vec![Value::Int(1), Value::Str(String::from("x"))]);
    let b = Value::Arr(vec![Value::Int(1), Value::Str(String::from("x"))]);
    let p = diff(&a, &b);
    assert_eq!(p.len(), 0);
}

#[test]
fn diff_apply_round_trip_on_values() {
    let a = Value::Obj(vec![
        Field {
            key: String::from("x"),
            val: Value::Int(1),
        },
        Field {
            key: String::from("y"),
            val: Value::Arr(vec![Value::Int(2), Value::Int(3)]),
        },
    ]);
    let b = Value::Obj(vec![
        Field {
            key: String::from("x"),
            val: Value::Int(9),
        },
        Field {
            key: String::from("y"),
            val: Value::Arr(vec![Value::Int(2), Value::Bool(true)]),
        },
    ]);
    let p = diff(&a, &b);
    let r = apply_patch(a.deep_clone(), &p).unwrap();
    assert!(value_eq(&r, &b));
}

#[test]
fn diff_apply_round_trip_on_aggregates() {
    let mut a = fresh_aggregate();
    a.dm_storage.push(DM {
        name: String::from("notes"),
        scroll_state: ScrollAnchor { top: 0, offset: 0 },
        msgs_in_sequence: vec![],
    });
    let ca = canon(&a);
    let id = a.create(MsgContent::Txt(String::from("hi")));
    a.append(0, id).unwrap();
    a.username = String::from("grace");
    let cb = canon(&a);
    let p = diff(&ca, &cb);
    assert!(p.len() > 0);
    let r = apply_patch(ca.deep_clone(), &p).unwrap();
    assert!(value_eq(&r, &cb));
}

#[test]
fn flatten_direct_self_cycle_detected() {
    let mut s = fresh_aggregate();
    s.msgs.push(Msg {
        id: 1,
        content: MsgContent::Composite(vec![1]),
        authored_at: 0,
    });
    s.nonce = 1;
    assert_eq!(s.flatten(1), Err(GraphError::CycleDetected));
}

#[test]
fn flatten_transitive_cycle_detected() {
    let mut s = fresh_aggregate();
    s.msgs.push(Msg {
        id: 1,
        content: MsgContent::Composite(vec![2]),
        authored_at: 0,
    });
    s.msgs.push(Msg {
        id: 2,
        content: MsgContent::Ref {
            caption: None,
            id: 1,
        },
        authored_at: 0,
    });
    s.nonce = 2;
    assert_eq!(s.flatten(1), Err(GraphError::CycleDetected));
}

#[test]
fn flatten_expands_composites_and_refs() {
    let mut s = fresh_aggregate();
    let a = s.create(MsgContent::Txt(String::from("one")));
    let b = s.create(MsgContent::Txt(String::from("two")));
    let r = s.create(MsgContent::Ref {
        caption: None,
        id: b,
    });
    let c = s.create(MsgContent::Composite(vec![a, r]));
    let out = s.flatten(c).unwrap();
    assert_eq!(out.len(), 2);
    assert_eq!(out[0].id, a);
    assert_eq!(out[1].id, b);
}

#[test]
fn flatten_dangling_reference_not_found() {
    let mut s = fresh_aggregate();
    let c = s.create(MsgContent::Composite(vec![999]));
    assert_eq!(s.flatten(c), Err(GraphError::NotFound));
}

#[test]
fn authorize_deny_by_default() {
    let empty = ContentPolicy {
        authorities: vec![],
    };
    assert!(!authorize(&empty, Authority::MediaDevices));
    assert!(!authorize(&empty, Authority::Network));
    assert!(!authorize(&empty, Authority::Storage));
    assert!(!authorize(&empty, Authority::S_lfApi));
    let some = ContentPolicy {
        authorities: vec![Authority::Network],
    };
    assert!(authorize(&some, Authority::Network));
    assert!(!authorize(&some, Authority::Storage));
}

#[test]
fn scenario_create_text_in_fresh_aggregate() {
    let mut s = fresh_aggregate();
    assert_eq!(s.nonce, 0);
    let id = s.create(MsgContent::Txt(String::from("hello")));
    assert_eq!(id, 1);
    let m = s.resolve(1).unwrap();
    assert_eq!(m.content, MsgContent::Txt(String::from("hello")));
}

#[test]
fn scenario_rename_dm_single_replace_at_name_path() {
    let mut s = fresh_aggregate();
    s.dm_storage.push(DM {
        name: String::from("old name"),
        scroll_state: ScrollAnchor { top: 0, offset: 0 },
        msgs_in_sequence: vec![3, 4],
    });
    let snapshot = canon(&s);
    s.dm_storage[0].name = String::from("new name");
    let edited = canon(&s);
    let p = diff(&snapshot, &edited);
    assert_eq!(p.len(), 1);
    let op: &PatchOp = &p[0];
    assert_eq!(op.kind, OpKind::Replace);
    assert_eq!(op.path.len(), 3);
    assert!(matches!(&op.path[0], Seg::Key(k) if k == "dm_storage"));
    assert!(matches!(&op.path[1], Seg::Idx(0)));
    assert!(matches!(&op.path[2], Seg::Key(k) if k == "name"));
    assert!(matches!(&op.value, Value::Str(t) if t == "new name"));
    let reproduced = apply_patch(snapshot.deep_clone(), &p).unwrap();
    assert!(value_eq(&reproduced, &edited));
}

#[test]
fn scenario_conflict_still_backs_up_edited_state() {
    // Drive a session against an in-memory gateway whose push always
    // reports a stale cookie.
    let mut remote = fresh_aggregate();
    remote.dm_storage.push(DM {
        name: String::from("inbox"),
        scroll_state: ScrollAnchor { top: 0, offset: 0 },
        msgs_in_sequence: vec![],
    });
    let mut state = EngineState::Idle;
    let mut local = fresh_aggregate();
    let mut snapshot = canon(&local);
    let mut backup: Option<Value> = None;
    let mut event = Event::Start;
    loop {
        let (next, action) = step(state, event);
        state = next;
        event = match action {
            Action::Fetch => {
                local = S_lf {
                    nonce: remote.nonce,
                    state_cookie: remote.state_cookie,
                    export_map: remote.export_map.clone(),
                    username: remote.username.clone(),
                    pronouns: remote.pronouns.clone(),
                    me: remote.me.clone(),
                    msgs: remote.msgs.clone(),
                    dm_storage: remote.dm_storage.clone(),
                    journal_storage: remote.journal_storage.clone(),
                    doi_storage: remote.doi_storage.clone(),
                };
                snapshot = canon(&local);
                Event::FetchOk
            }
            Action::Edit => {
                local.dm_storage[0].name = String::from("renamed");
                Event::EditDone
            }
            Action::ComputeDiff => {
                let _patch = diff(&snapshot, &canon(&local));
                Event::DiffReady
            }
            Action::Push => Event::PushConflict,
            Action::Backup => {
                backup = Some(canon(&local));
                Event::BackupOk
            }
            Action::Stop | Action::Hold => break,
        };
    }
    assert_eq!(
        state,
        EngineState::Failed {
            step: SubStep::Pushing,
            reason: FailReason::Conflict
        }
    );
    let saved = backup.expect("backup must run even on conflict");
    assert!(value_eq(&saved, &canon(&local)));
    assert!(!value_eq(&saved, &snapshot));
}

#[test]
fn scenario_dynamic_network_only_denied_storage() {
    let policy = ContentPolicy {
        authorities: vec![Authority::Network],
    };
    let item = DynamicContent {
        program_blob: vec![1, 2, 3],
        program_state: vec![],
    };
    let content = MsgContent::Dynamic(item, policy.clone());
    match &content {
        MsgContent::Dynamic(_, p) => {
            assert_eq!(enforce(p, Authority::Network), Ok(()));
            assert_eq!(
                enforce(p, Authority::Storage),
                Err(PolicyError::AuthorityDenied)
            );
        }
        _ => unreachable!(),
    }
}

#[test]
fn engine_fetch_failure_never_edits() {
    let (s1, a1) = step(EngineState::Idle, Event::Start);
    assert_eq!(a1, Action::Fetch);
    let (s2, a2) = step(s1, Event::FetchTransportErr);
    assert_eq!(a2, Action::Stop);
    assert_eq!(
        s2,
        EngineState::Failed {
            step: SubStep::Fetching,
            reason: FailReason::Transport
        }
    );
    let (s3, a3) = step(s2, Event::EditDone);
    assert_eq!(s3, s2);
    assert_eq!(a3, Action::Hold);
}

#[test]
fn engine_happy_path_reaches_done() {
    let mut state = EngineState::Idle;
    for e in [
        Event::Start,
        Event::FetchOk,
        Event::EditDone,
        Event::DiffReady,
        Event::PushAck,
        Event::BackupOk,
    ] {
        state = step(state, e).0;
    }
    assert_eq!(state, EngineState::Done);
}

#[test]
fn engine_backup_io_error_is_loud() {
    let (s, _) = step(
        EngineState::BackingUp { push_failure: None },
        Event::BackupIoErr,
    );
    assert_eq!(
        s,
        EngineState::Failed {
            step: SubStep::BackingUp,
            reason: FailReason::Io
        }
    );
}

#[test]
fn append_unknown_container_not_found() {
    let mut s = fresh_aggregate();
    assert_eq!(s.append(0, 1), Err(GraphError::NotFound));
    s.dm_storage.push(DM {
        name: String::from("inbox"),
        scroll_state: ScrollAnchor { top: 0, offset: 0 },
        msgs_in_sequence: vec![],
    });
    assert_eq!(s.append(0, 1), Ok(()));
    assert_eq!(s.dm_storage[0].msgs_in_sequence, vec![1]);
    assert_eq!(s.append(1, 1), Err(GraphError::NotFound));
}

#[test]
fn resolve_unknown_id_not_found() {
    let s = fresh_aggregate();
    assert!(matches!(s.resolve(5), Err(GraphError::NotFound)));
}

#[test]
fn apply_patch_bad_path_fails() {
    let v = Value::Obj(vec![Field {
        key: String::from("x"),
        val: Value::Int(1),
    }]);
    let ops = vec![PatchOp {
        kind: OpKind::Replace,
        path: vec![Seg::Key(String::from("missing"))],
        value: Value::Int(2),
    }];
    assert!(matches!(apply_patch(v, &ops), Err(PatchError::PathUnresolved)));
}

#[test]
fn apply_patch_add_and_remove() {
    let v = Value::Obj(vec![Field {
        key: String::from("x"),
        val: Value::Int(1),
    }]);
    let add = vec![PatchOp {
        kind: OpKind::Add,
        path: vec![Seg::Key(String::from("y"))],
        value: Value::Int(2),
    }];
    let v2 = apply_patch(v, &add).unwrap();
    let expect = Value::Obj(vec![
        Field {
            key: String::from("x"),
            val: Value::Int(1),
        },
        Field {
            key: String::from("y"),
            val: Value::Int(2),
        },
    ]);
    assert!(value_eq(&v2, &expect));
    let remove = vec![PatchOp {
        kind: OpKind::Remove,
        path: vec![Seg::Key(String::from("x"))],
        value: Value::Null,
    }];
    let v3 = apply_patch(v2, &remove).unwrap();
    let expect3 = Value::Obj(vec![Field {
        key: String::from("y"),
        val: Value::Int(2),
    }]);
    assert!(value_eq(&v3, &expect3));
}

#[test]
fn deep_clone_models_same_value() {
    let v = Value::Obj(vec![Field {
        key: String::from("k"),
        val: Value::Arr(vec![Value::Bytes(vec![1, 2]), Value::Time(-5)]),
    }]);
    let c = v.deep_clone();
    assert!(value_eq(&v, &c));
}

#[test]
fn validate_accepts_sound_aggregates() {
    let mut s = fresh_aggregate();
    assert!(s.validate());
    let id = s.create(MsgContent::Txt(String::from("note")));
    let _ = s.export_token(id).unwrap();
    s.doi_storage.push(s_lf::model::DoiEntry {
        doi: String::from("10.1000/a"),
        data: vec![1],
    });
    s.doi_storage.push(s_lf::model::DoiEntry {
        doi: String::from("10.1000/b"),
        data: vec![2],
    });
    assert!(s.validate());
}

#[test]
fn validate_rejects_breached_invariants() {
    // A message id above the counter.
    let mut s = fresh_aggregate();
    s.msgs.push(Msg {
        id: 5,
        content: MsgContent::Txt(String::from("x")),
        authored_at: 0,
    });
    assert!(!s.validate());

    // A repeated token.
    let mut s = fresh_aggregate();
    s.export_map.push(s_lf::model::ExportEntry { id: 1, token: 9 });
    s.export_map.push(s_lf::model::ExportEntry { id: 2, token: 9 });
    assert!(!s.validate());

    // A repeated identifier.
    let mut s = fresh_aggregate();
    s.export_map.push(s_lf::model::ExportEntry { id: 1, token: 8 });
    s.export_map.push(s_lf::model::ExportEntry { id: 1, token: 9 });
    assert!(!s.validate());

    // A repeated archive key.
    let mut s = fresh_aggregate();
    s.doi_storage.push(s_lf::model::DoiEntry {
        doi: String::from("10.1000/a"),
        data: vec![1],
    });
    s.doi_storage.push(s_lf::model::DoiEntry {
        doi: String::from("10.1000/a"),
        data: vec![2],
    });
    assert!(!s.validate());
}

#[test]
fn draw_greets() {
    assert_eq!(draw(), "welcome to s_lf.");
}

#[test]
fn canon_distinguishes_edits() {
    let a = fresh_aggregate();
    let mut b = fresh_aggregate();
    assert!(value_eq(&canon(&a), &canon(&b)));
    b.state_cookie = 8;
    assert!(!value_eq(&canon(&a), &canon(&b)));
}
