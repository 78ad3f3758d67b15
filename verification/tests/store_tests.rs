use corner_store::entities::{Chat, ChatStep, Corner, InviteCode, RegisterResult, Revenue, User};
use corner_store::i32_is_null;
use corner_store::repos::Outcome;
use corner_store::store::{DataBase, StorageError, Tree};
use rand::RngCore;

const NOW: i64 = 1_700_000_000;

#[test]
fn open_sled() {
    DataBase::open("/tmp/corner_store_open_sled").unwrap();
}

#[test]
fn insert_get() {
    let mut db = DataBase::open_temporary().unwrap();
    let mut rng = rand::thread_rng();
    let rev = Revenue {
        id: 0,
        corner_id: rng.next_u32(),
        date: rng.next_u32(),
        amount: rng.next_u32(),
        post_datetime: rng.next_u32(),
        user_id: 0,
        comment: None,
    };
    let key = rev.into_key();
    db.put(Tree::Revenues, &key, &rev.into_val().unwrap()).unwrap();
    let stored = db.get(Tree::Revenues, &key).unwrap().unwrap();
    assert_eq!(Revenue::from_val(&stored).unwrap(), rev);
}

#[test]
fn revenue_round_trip_boundaries() {
    let rev = Revenue {
        id: u32::MAX,
        corner_id: 0,
        date: u32::MAX,
        amount: 0,
        post_datetime: 1,
        user_id: u32::MAX,
        comment: Some(String::from("пометка ✓")),
    };
    let bytes = rev.into_val().unwrap();
    assert_eq!(Revenue::from_val(&bytes).unwrap(), rev);
    let none_comment = Revenue { comment: None, amount: 0, ..rev };
    let bytes = none_comment.into_val().unwrap();
    assert_eq!(Revenue::from_val(&bytes).unwrap(), none_comment);
}

#[test]
fn revenue_exact_encoding() {
    let rev = Revenue {
        id: 1,
        corner_id: 2,
        date: 3,
        amount: 260,
        post_datetime: 5,
        user_id: 6,
        comment: None,
    };
    assert_eq!(
        rev.into_val().unwrap(),
        vec![0, 0, 0, 1, 0, 0, 0, 2, 0, 0, 0, 3, 0, 0, 1, 4, 0, 0, 0, 5, 0, 0, 0, 6, 0]
    );
    assert_eq!(Revenue::key(3, 2), vec![0, 0, 0, 3, 0, 0, 0, 2]);
    // Key bytes sort by date first, then corner, as the numbers do.
    assert!(Revenue::key(1, 500) < Revenue::key(2, 0));
    assert!(Revenue::key(2, 1) < Revenue::key(2, 2));
}

#[test]
fn user_round_trip() {
    let u = User {
        id: 9,
        tg_id: -5,
        name: String::from(""),
        corner_id: 0,
        is_active: false,
        step: ChatStep::Deactive,
    };
    let bytes = u.into_val().unwrap();
    assert_eq!(User::from_val(&bytes).unwrap(), u);
    let u2 = User {
        id: 0,
        tg_id: i64::MIN,
        name: String::from("Иван Иванов"),
        corner_id: u32::MAX,
        is_active: true,
        step: ChatStep::NotRegister,
    };
    let bytes = u2.into_val().unwrap();
    assert_eq!(User::from_val(&bytes).unwrap(), u2);
}

#[test]
fn corner_round_trip() {
    let c = Corner { id: 1, name: String::from("North"), tag: Some(String::from("N")) };
    let bytes = c.into_val().unwrap();
    assert_eq!(Corner::from_val(&bytes).unwrap(), c);
    let c2 = Corner { id: u32::MAX, name: String::from(""), tag: None };
    let bytes = c2.into_val().unwrap();
    assert_eq!(Corner::from_val(&bytes).unwrap(), c2);
}

#[test]
fn invite_round_trip() {
    let inv = InviteCode {
        code: String::from("ABCD1234"),
        corner_id: 10,
        admin_id: 3,
        gen_date: -1,
        used: false,
    };
    let bytes = inv.into_val().unwrap();
    assert_eq!(InviteCode::from_val(&bytes).unwrap(), inv);
    let inv2 = InviteCode { gen_date: i64::MAX, used: true, ..inv };
    let bytes = inv2.into_val().unwrap();
    assert_eq!(InviteCode::from_val(&bytes).unwrap(), inv2);
}

#[test]
fn decode_rejects_trailing_bytes() {
    let c = Corner { id: 1, name: String::from("x"), tag: None };
    let mut bytes = c.into_val().unwrap();
    bytes.push(0);
    assert!(Corner::from_val(&bytes).is_none());
    assert!(Corner::from_val(&[1, 2]).is_none());
}

#[test]
fn proceeds_repository() {
    let mut db = DataBase::open_temporary().unwrap();
    let rev = Revenue {
        id: 1,
        corner_id: 2,
        date: 20200101,
        amount: 1500,
        post_datetime: 20200102,
        user_id: 1,
        comment: Some(String::from("cash")),
    };
    db.push_proceeds(&rev).unwrap();
    let all = db.get_proceeds().unwrap();
    assert_eq!(all, vec![rev.clone()]);
    db.del_proceeds(rev.date, rev.corner_id).unwrap();
    assert!(db.get_proceeds().unwrap().is_empty());
}

#[test]
fn corner_repository_and_conflicts() {
    let mut db = DataBase::open_temporary().unwrap();
    let id1 = db.push_corner("North", Some("N")).unwrap();
    assert_eq!(id1, 1);
    let id2 = db.push_corner("South", None).unwrap();
    assert_eq!(id2, 2);
    assert_eq!(db.push_corner("North", None).unwrap_err(), StorageError::Conflict);
    assert_eq!(db.push_corner("East", Some("N")).unwrap_err(), StorageError::Conflict);
    // Two corners without a tag do not clash.
    let id3 = db.push_corner("West", None).unwrap();
    assert_eq!(id3, 3);
    let mut names: Vec<String> = db.get_corners().unwrap().into_iter().map(|c| c.name).collect();
    names.sort();
    assert_eq!(names, vec!["North", "South", "West"]);
    db.del_corner(id2).unwrap();
    assert_eq!(db.get_corners().unwrap().len(), 2);
}

#[test]
fn corner_counter_lag_is_reported() {
    let mut db = DataBase::open_temporary().unwrap();
    let id1 = db.push_corner("North", None).unwrap();
    assert_eq!(id1, 1);
    // Wind the corner-id counter back behind the stored corners: the next
    // insert would land on a taken key, which the store refuses as corrupt
    // bookkeeping rather than silently overwriting the corner.
    db.put(Tree::Stats, &[1], &[0, 0, 0, 0]).unwrap();
    assert_eq!(db.push_corner("South", None).unwrap_err(), StorageError::Corrupt);
    // The stored corner survived untouched.
    let corners = db.get_corners().unwrap();
    assert_eq!(corners.len(), 1);
    assert_eq!(corners[0].name, "North");
}

#[test]
fn register_payload_splitting_a_character() {
    let mut db = DataBase::open_temporary().unwrap();
    // Bytes 8..10 are one two-byte character, so byte 9 is no boundary:
    // the payload carries no name and is refused before any effect.
    let err = db.register_user("AAAAAAAAéx", 1, NOW).unwrap_err();
    assert_eq!(err, StorageError::BadPayload);
}

#[test]
fn chat_state_and_steps() {
    let mut db = DataBase::open_temporary().unwrap();
    assert_eq!(db.get_step(555).unwrap(), ChatStep::NotRegister);
    assert!(db.get_chat(555).unwrap().is_none());
    let code = db.get_new_invite_code(10, 1, NOW).unwrap();
    let payload = format!("{} Ivan Ivanov", code);
    let id = match db.register_user(payload.as_str(), 555, NOW).unwrap() {
        RegisterResult::Succes(id) => id,
        other => panic!("unexpected: {:?}", other),
    };
    assert_eq!(db.get_step(555).unwrap(), ChatStep::Start);
    let chat = db.get_chat(555).unwrap().unwrap();
    assert_eq!(
        chat,
        Chat { corner_id: 10, name: String::from("Ivan Ivanov"), is_active: true }
    );
    db.deactive_user(id).unwrap();
    assert_eq!(db.get_step(555).unwrap(), ChatStep::Deactive);
    db.active_user(id).unwrap();
    assert_eq!(db.get_step(555).unwrap(), ChatStep::Start);
    db.set_name_for_user("Renamed", id).unwrap();
    assert_eq!(db.get_user(id).unwrap().unwrap().name, "Renamed");
    let by_corner = db.get_users_by_corner(10).unwrap();
    assert_eq!(by_corner.len(), 1);
    assert_eq!(db.get_users_by_corner(11).unwrap().len(), 0);
    db.del_user(id).unwrap();
    assert!(db.get_user(id).unwrap().is_none());
    assert_eq!(db.get_step(555).unwrap(), ChatStep::NotRegister);
}

#[test]
fn event_flow() {
    let mut db = DataBase::open_temporary().unwrap();
    assert_eq!(db.handle_event(900, None, NOW).unwrap(), Outcome::Greet);
    assert_eq!(
        db.handle_event(900, Some(String::from("WRONGCODE Name")), NOW).unwrap(),
        Outcome::FailedCode
    );
    let code = db.get_new_invite_code(2, 1, NOW).unwrap();
    let payload = format!("{} Anna", code);
    assert_eq!(db.handle_event(900, Some(payload), NOW).unwrap(), Outcome::Registered);
    assert_eq!(db.handle_event(900, None, NOW).unwrap(), Outcome::Help);
    match db.handle_event(900, Some(String::from("report")), NOW).unwrap() {
        Outcome::PassThroughToCommandHandler(step, text) => {
            assert_eq!(step, ChatStep::Start);
            assert_eq!(text, "report");
        }
        other => panic!("unexpected: {:?}", other),
    }
    let user = db.get_user(1).unwrap().unwrap();
    db.deactive_user(user.id).unwrap();
    assert_eq!(db.handle_event(900, None, NOW).unwrap(), Outcome::InactiveProfile);
}

#[test]
fn null_id_check() {
    assert!(i32_is_null(&0));
    assert!(!i32_is_null(&7));
}
