use corner_store::entities::{ChatStep, RegisterResult, User};
use corner_store::invite::gen_code;
use corner_store::store::{DataBase, StorageError};
use rand::Rng;

const NOW: i64 = 1_700_000_000;

fn rand_id() -> i64 {
    rand::thread_rng().gen_range(1325039..9142134)
}

#[test]
fn full_invite_check() {
    let mut db = DataBase::open_temporary().unwrap();
    let code = db.get_new_invite_code(1, 1, NOW).unwrap();
    assert!(!db.invite_code_exist("1234ABCD").unwrap());
    assert!(db.invite_code_exist(code.as_str()).unwrap());
    let res = db.use_invite_code(code.as_str(), NOW).unwrap();
    match res {
        RegisterResult::Succes(x) => assert_eq!(x, 1),
        _ => panic!(),
    }

    let res = db.use_invite_code(code.as_str(), NOW).unwrap();
    match res {
        RegisterResult::InviteUsed => {}
        _ => panic!(),
    }
}

#[test]
fn register_check() {
    let tg_id: i64 = rand_id();
    let mut db = DataBase::open_temporary().unwrap();
    let mut code = db.get_new_invite_code(10, 1, NOW).unwrap();
    code.push_str(" Иванов Иван");
    let res = db.register_user(code.as_str(), tg_id, NOW).unwrap();
    let mut last_id: u32 = 0;
    if let RegisterResult::Succes(id) = res {
        last_id = id;
    }
    let user_out = db.get_user(last_id).unwrap().unwrap();
    let user_in = User {
        id: last_id,
        tg_id,
        name: String::from("Иванов Иван"),
        corner_id: 10,
        is_active: true,
        step: ChatStep::Start,
    };
    assert_eq!(user_in, user_out);
}

#[test]
fn redeem_unknown_code() {
    let mut db = DataBase::open_temporary().unwrap();
    let res = db.use_invite_code("UNKNOWNCODE", NOW).unwrap();
    assert_eq!(res, RegisterResult::InviteNotFound);
}

#[test]
fn redeem_expired_code_twice() {
    let mut db = DataBase::open_temporary().unwrap();
    let code = db.get_new_invite_code(3, 1, NOW).unwrap();
    let later = NOW + 86401;
    let res = db.use_invite_code(code.as_str(), later).unwrap();
    assert_eq!(res, RegisterResult::InviteExpired);
    // Expiry is evaluated, not persisted: the retry reports the same.
    let res = db.use_invite_code(code.as_str(), later).unwrap();
    assert_eq!(res, RegisterResult::InviteExpired);
}

#[test]
fn redeem_just_inside_window() {
    let mut db = DataBase::open_temporary().unwrap();
    let code = db.get_new_invite_code(7, 1, NOW).unwrap();
    let res = db.use_invite_code(code.as_str(), NOW + 86400).unwrap();
    assert_eq!(res, RegisterResult::Succes(7));
}

#[test]
fn register_short_payload_leaves_code_untouched() {
    let mut db = DataBase::open_temporary().unwrap();
    let code = db.get_new_invite_code(4, 1, NOW).unwrap();
    let res = db.register_user(code.as_str(), 555, NOW).unwrap();
    assert_eq!(res, RegisterResult::TooShortName);
    // The code was not consumed by the refused registration.
    let res = db.use_invite_code(code.as_str(), NOW).unwrap();
    assert_eq!(res, RegisterResult::Succes(4));
}

#[test]
fn register_consumes_code() {
    let mut db = DataBase::open_temporary().unwrap();
    let code = db.get_new_invite_code(10, 1, NOW).unwrap();
    let payload = format!("{} Ivan Ivanov", code);
    let res = db.register_user(payload.as_str(), 555, NOW).unwrap();
    let id = match res {
        RegisterResult::Succes(id) => id,
        other => panic!("unexpected: {:?}", other),
    };
    let user = db.get_user(id).unwrap().unwrap();
    assert_eq!(user.name, "Ivan Ivanov");
    assert_eq!(user.corner_id, 10);
    assert!(user.is_active);
    assert_eq!(user.step, ChatStep::Start);
    // Any further redemption attempt reports the code as used.
    let res = db.use_invite_code(code.as_str(), NOW).unwrap();
    assert_eq!(res, RegisterResult::InviteUsed);
}

#[test]
fn register_unknown_code_writes_nothing() {
    let mut db = DataBase::open_temporary().unwrap();
    let res = db.register_user("AAAAAAAA Somebody", 77, NOW).unwrap();
    assert_eq!(res, RegisterResult::InviteNotFound);
    assert!(db.get_chat(77).unwrap().is_none());
}

#[test]
fn register_duplicate_chat_conflict() {
    let mut db = DataBase::open_temporary().unwrap();
    let code = db.get_new_invite_code(1, 1, NOW).unwrap();
    let payload = format!("{} First", code);
    db.register_user(payload.as_str(), 42, NOW).unwrap();
    let code2 = db.get_new_invite_code(1, 1, NOW).unwrap();
    let payload2 = format!("{} Second", code2);
    let err = db.register_user(payload2.as_str(), 42, NOW).unwrap_err();
    assert_eq!(err, StorageError::Conflict);
    // All-or-nothing: the second code is still redeemable.
    let res = db.use_invite_code(code2.as_str(), NOW).unwrap();
    assert_eq!(res, RegisterResult::Succes(1));
}

#[test]
fn corrupt_invite_record_reported() {
    let mut db = DataBase::open_temporary().unwrap();
    db.put(
        corner_store::store::Tree::Invites,
        b"BADBYTES",
        &[1, 2, 3],
    )
    .unwrap();
    let err = db.use_invite_code("BADBYTES", NOW).unwrap_err();
    assert_eq!(err, StorageError::Corrupt);
}

#[test]
fn generated_codes_use_the_alphabet() {
    let code = gen_code();
    assert_eq!(code.len(), 8);
    for b in code.bytes() {
        assert!((65..=90).contains(&b) || (48..=57).contains(&b));
    }
}

#[test]
fn fresh_ids_count_up() {
    let mut db = DataBase::open_temporary().unwrap();
    let c1 = db.get_new_invite_code(1, 1, NOW).unwrap();
    let c2 = db.get_new_invite_code(1, 1, NOW).unwrap();
    let p1 = format!("{} One", c1);
    let p2 = format!("{} Two", c2);
    assert_eq!(
        db.register_user(p1.as_str(), 1001, NOW).unwrap(),
        RegisterResult::Succes(1)
    );
    assert_eq!(
        db.register_user(p2.as_str(), 1002, NOW).unwrap(),
        RegisterResult::Succes(2)
    );
}
