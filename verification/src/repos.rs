//! Typed repositories over the collection store: chat state, accounts,
//! corners and revenue records.
//!
//! Each repository is the only code that builds or reads its entity's keys
//! and values. A stored record that fails to decode is reported as
//! `Corrupt`, never silently defaulted; a missing chat record, by contrast,
//! is an ordinary first contact and defaults to the unregistered state.
#![allow(unused_imports)]
use vstd::prelude::*;
use vstd::utf8::{decode_utf8, encode_utf8, valid_utf8};
use crate::codec::{spec_be4, str_encodable};
use crate::entities::{
    corner_encodable, spec_chat_of_user, spec_dec_corner, spec_dec_revenue, spec_dec_user,
    spec_enc_corner, spec_enc_revenue, spec_enc_user, user_encodable, Chat, ChatStep, Corner,
    CornerV, Revenue, User, UserV,
};
use crate::invite::{spec_ctr_key, spec_ctr_state, CORNER_CTR};
use crate::store::{DataBase, DbV, StorageError, Tree};

verus! {

/// The conversational step the store answers for a chat identifier: an
/// unknown chat is an unregistered first contact, a deactivated account
/// answers `Deactive` whatever step it is at, and an active account answers
/// its stored step.
pub open spec fn spec_step_state(chats: Map<Seq<u8>, Seq<u8>>, chat_id: i64) -> Option<ChatStep> {
    let k = Chat::spec_key(chat_id);
    if !chats.contains_key(k) {
        Option::Some(ChatStep::NotRegister)
    } else {
        match spec_dec_user(chats[k]) {
            Option::None => Option::None,
            Option::Some(u) => if !u.is_active {
                Option::Some(ChatStep::Deactive)
            } else {
                Option::Some(u.step)
            },
        }
    }
}

impl DataBase {
    /// The chat state stored for an external chat identifier, if any:
    /// the per-message projection of the account record.
    pub fn get_chat(&self, id: i64) -> (r: Result<Option<Chat>, StorageError>)
        ensures
            ({
                let k = Chat::spec_key(id);
                match r {
                    Ok(c) => match c {
                        Option::Some(c) => self@.chats.contains_key(k) && match spec_dec_user(
                            self@.chats[k],
                        ) {
                            Option::Some(u) => c@ == spec_chat_of_user(u),
                            Option::None => false,
                        },
                        Option::None => !self@.chats.contains_key(k),
                    },
                    Err(e) => e == StorageError::Io || (e == StorageError::Corrupt
                        && self@.chats.contains_key(k) && spec_dec_user(self@.chats[k]) is None),
                }
            }),
    {
        let key = Chat::key(id);
        match self.chats.get(key.as_slice()) {
            Err(e) => Err(e),
            Ok(Option::None) => Ok(None),
            Ok(Option::Some(v)) => match User::from_val(v.as_slice()) {
                Option::None => Err(StorageError::Corrupt),
                Option::Some(u) => Ok(
                    Some(Chat { corner_id: u.corner_id, name: u.name, is_active: u.is_active }),
                ),
            },
        }
    }

    /// The conversational step for a chat identifier; an unknown chat is
    /// handled as a first contact, never as an error.
    pub fn get_step(&self, tg_id: i64) -> (r: Result<ChatStep, StorageError>)
        ensures
            match r {
                Ok(s) => spec_step_state(self@.chats, tg_id) == Option::Some(s),
                Err(e) => e == StorageError::Io || (e == StorageError::Corrupt && spec_step_state(
                    self@.chats,
                    tg_id,
                ) is None),
            },
    {
        let key = Chat::key(tg_id);
        match self.chats.get(key.as_slice()) {
            Err(e) => Err(e),
            Ok(Option::None) => Ok(ChatStep::NotRegister),
            Ok(Option::Some(v)) => match User::from_val(v.as_slice()) {
                Option::None => Err(StorageError::Corrupt),
                Option::Some(u) => if !u.is_active {
                    Ok(ChatStep::Deactive)
                } else {
                    Ok(u.step)
                },
            },
        }
    }

    /// Stores a revenue record under its `(date, corner)` key; a later
    /// record for the same date and corner overwrites the earlier one.
    pub fn push_proceeds(&mut self, pr: &Revenue) -> (r: Result<(), StorageError>)
        ensures
            match r {
                Ok(_) => final(self)@ == DbV {
                    revenues: old(self)@.revenues.insert(
                        Revenue::spec_key(pr.date, pr.corner_id),
                        spec_enc_revenue(pr@),
                    ),
                    ..old(self)@
                },
                Err(e) => {
                    &&& e == StorageError::Io || e == StorageError::TooLarge
                    &&& e == StorageError::TooLarge ==> final(self)@ == old(self)@
                        && !crate::entities::revenue_encodable(pr@)
                },
            },
    {
        let key = pr.into_key();
        let val = match pr.into_val() {
            Option::Some(v) => v,
            Option::None => return Err(StorageError::TooLarge),
        };
        self.revenues.put(key.as_slice(), val.as_slice())
    }

    /// Deletes the revenue record stored for a date and corner, if any.
    pub fn del_proceeds(&mut self, date: u32, corner_id: u32) -> (r: Result<(), StorageError>)
        ensures
            match r {
                Ok(_) => final(self)@ == DbV {
                    revenues: old(self)@.revenues.remove(Revenue::spec_key(date, corner_id)),
                    ..old(self)@
                },
                Err(e) => e == StorageError::Io,
            },
    {
        let key = Revenue::key(date, corner_id);
        self.revenues.del(key.as_slice())
    }

    /// Deletes a corner record by id, if present.
    pub fn del_corner(&mut self, id: u32) -> (r: Result<(), StorageError>)
        ensures
            match r {
                Ok(_) => final(self)@ == DbV {
                    corners: old(self)@.corners.remove(Corner::spec_key(id)),
                    ..old(self)@
                },
                Err(e) => e == StorageError::Io,
            },
    {
        let key = Corner::key(id);
        self.corners.del(key.as_slice())
    }
}

// ---------------------------------------------------------------------------
// Collection scans
// ---------------------------------------------------------------------------

/// Some stored revenue record decodes to this value.
pub open spec fn has_decoded_revenue(m: Map<Seq<u8>, Seq<u8>>, v: crate::entities::RevenueV) -> bool {
    exists|k: Seq<u8>| #[trigger] m.contains_key(k) && spec_dec_revenue(m[k]) == Option::Some(v)
}

/// Some stored corner record decodes to this value.
pub open spec fn has_decoded_corner(m: Map<Seq<u8>, Seq<u8>>, v: CornerV) -> bool {
    exists|k: Seq<u8>| #[trigger] m.contains_key(k) && spec_dec_corner(m[k]) == Option::Some(v)
}

/// Some stored account record decodes to this value.
pub open spec fn has_decoded_user(m: Map<Seq<u8>, Seq<u8>>, v: UserV) -> bool {
    exists|k: Seq<u8>| #[trigger] m.contains_key(k) && spec_dec_user(m[k]) == Option::Some(v)
}

/// The value appears among the returned revenue records.
pub open spec fn revenue_in_output(rs: Seq<Revenue>, v: crate::entities::RevenueV) -> bool {
    exists|j: int| 0 <= j < rs.len() && #[trigger] (rs[j]@) == v
}

/// The value appears among the returned corners.
pub open spec fn corner_in_output(cs: Seq<Corner>, v: CornerV) -> bool {
    exists|j: int| 0 <= j < cs.len() && #[trigger] (cs[j]@) == v
}

/// The value appears among the returned accounts.
pub open spec fn user_in_output(us: Seq<User>, v: UserV) -> bool {
    exists|j: int| 0 <= j < us.len() && #[trigger] (us[j]@) == v
}

impl DataBase {
    /// Every stored revenue record. `Corrupt` exactly when some stored
    /// record does not decode.
    #[verifier::spinoff_prover]
    #[verifier::rlimit(50)]
    pub fn get_proceeds(&self) -> (r: Result<Vec<Revenue>, StorageError>)
        ensures
            match r {
                Ok(rs) => {
                    &&& forall|j: int|
                        #![trigger rs@[j]]
                        0 <= j < rs@.len() ==> has_decoded_revenue(self@.revenues, rs@[j]@)
                    &&& forall|k: Seq<u8>| #[trigger]
                        self@.revenues.contains_key(k) ==> spec_dec_revenue(
                            self@.revenues[k],
                        ) is Some && revenue_in_output(
                            rs@,
                            spec_dec_revenue(self@.revenues[k]).unwrap(),
                        )
                },
                Err(e) => e == StorageError::Io || (e == StorageError::Corrupt && exists|k: Seq<u8>|
                    #[trigger] self@.revenues.contains_key(k) && spec_dec_revenue(
                        self@.revenues[k],
                    ) is None),
            },
    {
        let es = match self.revenues.entries() {
            Ok(es) => es,
            Err(e) => return Err(e),
        };
        let mut out: Vec<Revenue> = Vec::new();
        let mut i: usize = 0;
        while i < es.len()
            invariant
                i <= es@.len(),
                out@.len() == i,
                forall|j: int|
                    0 <= j < es@.len() ==> #[trigger] self@.revenues.contains_key(es@[j].0@)
                        && self@.revenues[es@[j].0@] == es@[j].1@,
                forall|k: Seq<u8>| #[trigger]
                    self@.revenues.contains_key(k) ==> exists|j: int|
                        0 <= j < es@.len() && #[trigger] (es@[j].0@) == k,
                forall|j: int|
                    0 <= j < i ==> spec_dec_revenue(#[trigger] es@[j].1@) == Option::Some(
                        out@[j]@,
                    ),
            decreases es@.len() - i,
        {
            match Revenue::from_val(es[i].1.as_slice()) {
                Option::None => {
                    assert(self@.revenues.contains_key(es@[i as int].0@));
                    assert(spec_dec_revenue(self@.revenues[es@[i as int].0@]) is None);
                    return Err(StorageError::Corrupt);
                },
                Option::Some(x) => out.push(x),
            }
            i += 1;
        }
        proof {
            assert forall|k: Seq<u8>| #[trigger]
                self@.revenues.contains_key(k) implies spec_dec_revenue(
                self@.revenues[k],
            ) is Some && revenue_in_output(
                out@,
                spec_dec_revenue(self@.revenues[k]).unwrap(),
            ) by {
                let j0 = choose|j0: int| 0 <= j0 < es@.len() && #[trigger] (es@[j0].0@) == k;
                assert(self@.revenues[k] == es@[j0].1@);
                assert(spec_dec_revenue(es@[j0].1@) == Option::Some(out@[j0]@));
                assert(0 <= j0 < out@.len() && (out@[j0]@) == spec_dec_revenue(
                    self@.revenues[k],
                ).unwrap());
            }
            assert forall|j: int| #![trigger out@[j]] 0 <= j < out@.len() implies has_decoded_revenue(
                self@.revenues,
                out@[j]@,
            ) by {
                assert(self@.revenues.contains_key(es@[j].0@) && spec_dec_revenue(
                    self@.revenues[es@[j].0@],
                ) == Option::Some(out@[j]@));
            }
        }
        Ok(out)
    }

    /// Every stored corner. `Corrupt` exactly when some stored corner does
    /// not decode.
    #[verifier::spinoff_prover]
    #[verifier::rlimit(50)]
    pub fn get_corners(&self) -> (r: Result<Vec<Corner>, StorageError>)
        ensures
            match r {
                Ok(cs) => {
                    &&& forall|j: int|
                        #![trigger cs@[j]]
                        0 <= j < cs@.len() ==> has_decoded_corner(self@.corners, cs@[j]@)
                    &&& forall|k: Seq<u8>| #[trigger]
                        self@.corners.contains_key(k) ==> spec_dec_corner(
                            self@.corners[k],
                        ) is Some && corner_in_output(
                            cs@,
                            spec_dec_corner(self@.corners[k]).unwrap(),
                        )
                },
                Err(e) => e == StorageError::Io || (e == StorageError::Corrupt && exists|k: Seq<u8>|
                    #[trigger] self@.corners.contains_key(k) && spec_dec_corner(
                        self@.corners[k],
                    ) is None),
            },
    {
        let es = match self.corners.entries() {
            Ok(es) => es,
            Err(e) => return Err(e),
        };
        let mut out: Vec<Corner> = Vec::new();
        let mut i: usize = 0;
        while i < es.len()
            invariant
                i <= es@.len(),
                out@.len() == i,
                forall|j: int|
                    0 <= j < es@.len() ==> #[trigger] self@.corners.contains_key(es@[j].0@)
                        && self@.corners[es@[j].0@] == es@[j].1@,
                forall|k: Seq<u8>| #[trigger]
                    self@.corners.contains_key(k) ==> exists|j: int|
                        0 <= j < es@.len() && #[trigger] (es@[j].0@) == k,
                forall|j: int|
                    0 <= j < i ==> spec_dec_corner(#[trigger] es@[j].1@) == Option::Some(out@[j]@),
            decreases es@.len() - i,
        {
            match Corner::from_val(es[i].1.as_slice()) {
                Option::None => {
                    assert(self@.corners.contains_key(es@[i as int].0@));
                    assert(spec_dec_corner(self@.corners[es@[i as int].0@]) is None);
                    return Err(StorageError::Corrupt);
                },
                Option::Some(x) => out.push(x),
            }
            i += 1;
        }
        proof {
            assert forall|k: Seq<u8>| #[trigger]
                self@.corners.contains_key(k) implies spec_dec_corner(
                self@.corners[k],
            ) is Some && corner_in_output(
                out@,
                spec_dec_corner(self@.corners[k]).unwrap(),
            ) by {
                let j0 = choose|j0: int| 0 <= j0 < es@.len() && #[trigger] (es@[j0].0@) == k;
                assert(self@.corners[k] == es@[j0].1@);
                assert(spec_dec_corner(es@[j0].1@) == Option::Some(out@[j0]@));
                assert(0 <= j0 < out@.len() && (out@[j0]@) == spec_dec_corner(
                    self@.corners[k],
                ).unwrap());
            }
            assert forall|j: int| #![trigger out@[j]] 0 <= j < out@.len() implies has_decoded_corner(
                self@.corners,
                out@[j]@,
            ) by {
                assert(self@.corners.contains_key(es@[j].0@) && spec_dec_corner(
                    self@.corners[es@[j].0@],
                ) == Option::Some(out@[j]@));
            }
        }
        Ok(out)
    }

    /// Finds the stored account with a given id, with the chat key it is
    /// stored under. `Ok(None)` means every stored account decodes and none
    /// has the id.
    #[verifier::spinoff_prover]
    #[verifier::rlimit(50)]
    fn find_user(&self, id: u32) -> (r: Result<Option<(Vec<u8>, User)>, StorageError>)
        ensures
            match r {
                Ok(f) => match f {
                    Option::Some(p) => self@.chats.contains_key(p.0@) && spec_dec_user(
                        self@.chats[p.0@],
                    ) == Option::Some(p.1@) && p.1@.id == id,
                    Option::None => forall|k: Seq<u8>| #[trigger]
                        self@.chats.contains_key(k) ==> spec_dec_user(self@.chats[k]) is Some
                            && spec_dec_user(self@.chats[k]).unwrap().id != id,
                },
                Err(e) => e == StorageError::Io || (e == StorageError::Corrupt && exists|k: Seq<u8>|
                    #[trigger] self@.chats.contains_key(k) && spec_dec_user(
                        self@.chats[k],
                    ) is None),
            },
    {
        let es = match self.chats.entries() {
            Ok(es) => es,
            Err(e) => return Err(e),
        };
        let mut i: usize = 0;
        while i < es.len()
            invariant
                i <= es@.len(),
                forall|j: int|
                    0 <= j < es@.len() ==> #[trigger] self@.chats.contains_key(es@[j].0@)
                        && self@.chats[es@[j].0@] == es@[j].1@,
                forall|k: Seq<u8>| #[trigger]
                    self@.chats.contains_key(k) ==> exists|j: int|
                        0 <= j < es@.len() && #[trigger] (es@[j].0@) == k,
                forall|j: int|
                    0 <= j < i ==> spec_dec_user(#[trigger] es@[j].1@) is Some && spec_dec_user(
                        es@[j].1@,
                    ).unwrap().id != id,
            decreases es@.len() - i,
        {
            match User::from_val(es[i].1.as_slice()) {
                Option::None => {
                    assert(self@.chats.contains_key(es@[i as int].0@));
                    assert(spec_dec_user(self@.chats[es@[i as int].0@]) is None);
                    return Err(StorageError::Corrupt);
                },
                Option::Some(u) => {
                    if u.id == id {
                        let key = vstd::slice::slice_to_vec(es[i].0.as_slice());
                        assert(key@ == es@[i as int].0@);
                        assert(self@.chats.contains_key(key@));
                        assert(spec_dec_user(self@.chats[key@]) == Option::Some(u@));
                        return Ok(Some((key, u)));
                    }
                },
            }
            i += 1;
        }
        proof {
            assert forall|k: Seq<u8>| #[trigger]
                self@.chats.contains_key(k) implies spec_dec_user(self@.chats[k]) is Some
                && spec_dec_user(self@.chats[k]).unwrap().id != id by {
                let j0 = choose|j0: int| 0 <= j0 < es@.len() && #[trigger] (es@[j0].0@) == k;
                assert(self@.chats[k] == es@[j0].1@);
                assert(spec_dec_user(es@[j0].1@) is Some && spec_dec_user(
                    es@[j0].1@,
                ).unwrap().id != id);
            }
        }
        Ok(None)
    }

    /// The stored account with a given id, if any.
    pub fn get_user(&self, id: u32) -> (r: Result<Option<User>, StorageError>)
        ensures
            match r {
                Ok(f) => match f {
                    Option::Some(u) => u@.id == id && exists|k: Seq<u8>|
                        #[trigger] self@.chats.contains_key(k) && spec_dec_user(self@.chats[k])
                            == Option::Some(u@),
                    Option::None => forall|k: Seq<u8>| #[trigger]
                        self@.chats.contains_key(k) ==> spec_dec_user(self@.chats[k]) is Some
                            && spec_dec_user(self@.chats[k]).unwrap().id != id,
                },
                Err(e) => e == StorageError::Io || (e == StorageError::Corrupt && exists|k: Seq<u8>|
                    #[trigger] self@.chats.contains_key(k) && spec_dec_user(
                        self@.chats[k],
                    ) is None),
            },
    {
        match self.find_user(id) {
            Err(e) => Err(e),
            Ok(Option::None) => Ok(None),
            Ok(Option::Some((_k, u))) => Ok(Some(u)),
        }
    }

    /// Every stored account bound to a corner. `Corrupt` exactly when some
    /// stored account does not decode.
    #[verifier::spinoff_prover]
    #[verifier::rlimit(50)]
    pub fn get_users_by_corner(&self, corner_id: u32) -> (r: Result<Vec<User>, StorageError>)
        ensures
            match r {
                Ok(us) => {
                    &&& forall|j: int|
                        0 <= j < us@.len() ==> (#[trigger] us@[j]@).corner_id == corner_id
                            && has_decoded_user(self@.chats, us@[j]@)
                    &&& forall|k: Seq<u8>| #[trigger]
                        self@.chats.contains_key(k) ==> spec_dec_user(self@.chats[k]) is Some && (
                        spec_dec_user(self@.chats[k]).unwrap().corner_id == corner_id
                            ==> user_in_output(us@, spec_dec_user(self@.chats[k]).unwrap()))
                },
                Err(e) => e == StorageError::Io || (e == StorageError::Corrupt && exists|k: Seq<u8>|
                    #[trigger] self@.chats.contains_key(k) && spec_dec_user(
                        self@.chats[k],
                    ) is None),
            },
    {
        let es = match self.chats.entries() {
            Ok(es) => es,
            Err(e) => return Err(e),
        };
        let mut out: Vec<User> = Vec::new();
        let mut i: usize = 0;
        while i < es.len()
            invariant
                i <= es@.len(),
                forall|j: int|
                    0 <= j < es@.len() ==> #[trigger] self@.chats.contains_key(es@[j].0@)
                        && self@.chats[es@[j].0@] == es@[j].1@,
                forall|k: Seq<u8>| #[trigger]
                    self@.chats.contains_key(k) ==> exists|j: int|
                        0 <= j < es@.len() && #[trigger] (es@[j].0@) == k,
                forall|j: int|
                    0 <= j < i ==> spec_dec_user(#[trigger] es@[j].1@) is Some,
                forall|j: int|
                    0 <= j < i ==> (spec_dec_user(#[trigger] es@[j].1@).unwrap().corner_id
                        == corner_id ==> user_in_output(
                        out@,
                        spec_dec_user(es@[j].1@).unwrap(),
                    )),
                forall|jj: int|
                    0 <= jj < out@.len() ==> (#[trigger] out@[jj]@).corner_id == corner_id
                        && exists|j: int|
                        0 <= j < es@.len() && spec_dec_user(#[trigger] es@[j].1@)
                            == Option::Some(out@[jj]@),
            decreases es@.len() - i,
        {
            match User::from_val(es[i].1.as_slice()) {
                Option::None => {
                    assert(self@.chats.contains_key(es@[i as int].0@));
                    assert(spec_dec_user(self@.chats[es@[i as int].0@]) is None);
                    return Err(StorageError::Corrupt);
                },
                Option::Some(u) => {
                    if u.corner_id == corner_id {
                        let ghost prev = out@;
                        let ghost uv = u@;
                        out.push(u);
                        proof {
                            assert forall|v: UserV| user_in_output(prev, v) implies user_in_output(
                                out@,
                                v,
                            ) by {
                                let j0 = choose|j0: int|
                                    0 <= j0 < prev.len() && #[trigger] (prev[j0]@) == v;
                                assert((out@[j0]@) == v);
                            }
                            assert((out@[out@.len() - 1]@) == uv);
                            assert(user_in_output(out@, uv));
                        }
                    }
                },
            }
            i += 1;
        }
        proof {
            assert forall|k: Seq<u8>| #[trigger]
                self@.chats.contains_key(k) implies spec_dec_user(self@.chats[k]) is Some && (
            spec_dec_user(self@.chats[k]).unwrap().corner_id == corner_id ==> user_in_output(
                out@,
                spec_dec_user(self@.chats[k]).unwrap(),
            )) by {
                let j0 = choose|j0: int| 0 <= j0 < es@.len() && #[trigger] (es@[j0].0@) == k;
                assert(self@.chats[k] == es@[j0].1@);
                assert(spec_dec_user(es@[j0].1@) is Some);
            }
            assert forall|j: int|
                0 <= j < out@.len() implies (#[trigger] out@[j]@).corner_id == corner_id
                && has_decoded_user(self@.chats, out@[j]@) by {
                let j0 = choose|j0: int|
                    0 <= j0 < es@.len() && spec_dec_user(#[trigger] es@[j0].1@) == Option::Some(
                        out@[j]@,
                    );
                assert(self@.chats.contains_key(es@[j0].0@) && spec_dec_user(
                    self@.chats[es@[j0].0@],
                ) == Option::Some(out@[j]@));
            }
        }
        Ok(out)
    }
}


// ---------------------------------------------------------------------------
// Account mutations (admin actions)
// ---------------------------------------------------------------------------

/// Some stored account record does not decode.
pub open spec fn some_user_corrupt(chats: Map<Seq<u8>, Seq<u8>>) -> bool {
    exists|k: Seq<u8>| #[trigger] chats.contains_key(k) && spec_dec_user(chats[k]) is None
}

/// Some stored corner record does not decode.
pub open spec fn some_corner_corrupt(corners: Map<Seq<u8>, Seq<u8>>) -> bool {
    exists|k: Seq<u8>| #[trigger] corners.contains_key(k) && spec_dec_corner(corners[k]) is None
}

/// A decodable account record is encodable again: its name's UTF-8 form
/// came out of a 4-byte length prefix.
pub proof fn lemma_dec_user_encodable(b: Seq<u8>)
    requires
        spec_dec_user(b) is Some,
    ensures
        user_encodable(spec_dec_user(b).unwrap()),
{
    broadcast use vstd::utf8::decode_utf8_encode_utf8;

    let tg = crate::codec::spec_dec_i64(crate::codec::spec_dec_u32(b).unwrap().1).unwrap();
    let (bs, _r) = crate::codec::spec_dec_lp_bytes(tg.1).unwrap();
    assert(valid_utf8(bs));
    assert(encode_utf8(decode_utf8(bs)) == bs);
}

/// Well-formed account store: every record decodes, sits under the key of
/// its own chat identifier, and no two records share an account id. A store
/// built through the library keeps this shape; the registration and
/// mutation laws below preserve it.
pub open spec fn chats_wf(chats: Map<Seq<u8>, Seq<u8>>) -> bool {
    &&& forall|k: Seq<u8>| #[trigger]
        chats.contains_key(k) ==> spec_dec_user(chats[k]) is Some && k == Chat::spec_key(
            spec_dec_user(chats[k]).unwrap().tg_id,
        )
    &&& forall|k1: Seq<u8>, k2: Seq<u8>|
        #![trigger chats.contains_key(k1), chats.contains_key(k2)]
        chats.contains_key(k1) && chats.contains_key(k2) && spec_dec_user(
            chats[k1],
        ).unwrap().id == spec_dec_user(chats[k2]).unwrap().id ==> k1 == k2
}

/// The account-id counter bounds every stored account id, so a counter bump
/// always yields a fresh id.
pub open spec fn user_ids_bounded(
    chats: Map<Seq<u8>, Seq<u8>>,
    stats: Map<Seq<u8>, Seq<u8>>,
) -> bool {
    &&& spec_ctr_state(stats, crate::invite::USER_CTR) is Some
    &&& forall|k: Seq<u8>| #[trigger]
        chats.contains_key(k) ==> spec_dec_user(chats[k]).unwrap().id <= spec_ctr_state(
            stats,
            crate::invite::USER_CTR,
        ).unwrap()
}

/// A store holding no accounts is well-formed, with the id counter at zero:
/// the state a fresh store starts in.
pub proof fn lemma_empty_chats_wf()
    ensures
        chats_wf(Map::<Seq<u8>, Seq<u8>>::empty()),
        user_ids_bounded(Map::<Seq<u8>, Seq<u8>>::empty(), Map::<Seq<u8>, Seq<u8>>::empty()),
{
}

/// Removing the one record bearing an id from a well-formed account store
/// keeps it well-formed and leaves no record with that id.
pub proof fn lemma_remove_user_wf(chats: Map<Seq<u8>, Seq<u8>>, k: Seq<u8>, id: u32)
    requires
        chats_wf(chats),
        chats.contains_key(k),
        spec_dec_user(chats[k]) is Some,
        spec_dec_user(chats[k]).unwrap().id == id,
    ensures
        chats_wf(chats.remove(k)),
        spec_no_user_with_id(chats.remove(k), id),
{
    let rest = chats.remove(k);
    assert forall|k2: Seq<u8>| #[trigger]
        rest.contains_key(k2) implies spec_dec_user(rest[k2]) is Some && spec_dec_user(
        rest[k2],
    ).unwrap().id != id by {
        assert(chats.contains_key(k2) && chats[k2] == rest[k2]);
        if spec_dec_user(chats[k2]).unwrap().id == id {
            assert(k2 == k);
        }
    }
}

/// Re-writing one record of a well-formed account store with the same id
/// and chat identifier keeps the store well-formed.
pub proof fn lemma_update_user_wf(chats: Map<Seq<u8>, Seq<u8>>, k: Seq<u8>, u2: UserV)
    requires
        chats_wf(chats),
        chats.contains_key(k),
        u2.id == spec_dec_user(chats[k]).unwrap().id,
        u2.tg_id == spec_dec_user(chats[k]).unwrap().tg_id,
        user_encodable(u2),
    ensures
        chats_wf(chats.insert(k, spec_enc_user(u2))),
{
    crate::entities::lemma_user_roundtrip(u2);
    let m2 = chats.insert(k, spec_enc_user(u2));
    assert forall|k2: Seq<u8>| #[trigger]
        m2.contains_key(k2) implies spec_dec_user(m2[k2]) is Some && k2 == Chat::spec_key(
        spec_dec_user(m2[k2]).unwrap().tg_id,
    ) by {
        if k2 != k {
            assert(chats.contains_key(k2) && m2[k2] == chats[k2]);
        }
    }
    assert forall|k1: Seq<u8>, k2: Seq<u8>|
        m2.contains_key(k1) && m2.contains_key(k2) && spec_dec_user(m2[k1]).unwrap().id
            == spec_dec_user(m2[k2]).unwrap().id implies k1 == k2 by {
        let id1 = if k1 == k {
            u2.id
        } else {
            spec_dec_user(chats[k1]).unwrap().id
        };
        assert(spec_dec_user(m2[k1]).unwrap().id == id1);
        let id2 = if k2 == k {
            u2.id
        } else {
            spec_dec_user(chats[k2]).unwrap().id
        };
        assert(spec_dec_user(m2[k2]).unwrap().id == id2);
        assert(chats.contains_key(k1) || k1 == k);
        assert(chats.contains_key(k2) || k2 == k);
        if k1 != k && k2 != k {
            assert(chats.contains_key(k1) && chats.contains_key(k2));
        } else if k1 == k && k2 != k {
            assert(spec_dec_user(chats[k2]).unwrap().id == spec_dec_user(chats[k]).unwrap().id);
            assert(chats.contains_key(k2) && chats.contains_key(k));
        } else if k1 != k && k2 == k {
            assert(spec_dec_user(chats[k1]).unwrap().id == spec_dec_user(chats[k]).unwrap().id);
            assert(chats.contains_key(k1) && chats.contains_key(k));
        }
    }
}

/// A successful registration preserves the account-store invariants: the
/// new record decodes, sits under its chat key, and carries an id above
/// every stored one, so uniqueness and the counter bound carry over.
pub proof fn lemma_registered_preserves_wf(
    db: DbV,
    k: Seq<u8>,
    now: i64,
    tg_id: i64,
    name: Seq<char>,
    uid: u32,
    corner: u32,
)
    requires
        chats_wf(db.chats),
        user_ids_bounded(db.chats, db.stats),
        spec_ctr_state(db.stats, crate::invite::USER_CTR).unwrap() < u32::MAX,
        uid == spec_ctr_state(db.stats, crate::invite::USER_CTR).unwrap() + 1,
        str_encodable(name),
        !db.chats.contains_key(Chat::spec_key(tg_id)),
    ensures
        ({
            let db2 = crate::invite::spec_registered(db, k, now, tg_id, name, uid, corner);
            chats_wf(db2.chats) && user_ids_bounded(db2.chats, db2.stats)
        }),
{
    let newu = UserV { id: uid, tg_id, name, corner_id: corner, is_active: true, step: ChatStep::Start };
    crate::entities::lemma_user_roundtrip(newu);
    crate::codec::lemma_be4_roundtrip(uid);
    let ck = Chat::spec_key(tg_id);
    let db2 = crate::invite::spec_registered(db, k, now, tg_id, name, uid, corner);
    let m2 = db2.chats;
    assert(m2 == db.chats.insert(ck, spec_enc_user(newu)));
    assert(spec_ctr_state(db2.stats, crate::invite::USER_CTR) == Option::Some(uid)) by {
        assert(db2.stats[spec_ctr_key(crate::invite::USER_CTR)] == spec_be4(uid));
        assert(spec_be4(uid).len() == 4);
    }
    assert forall|k2: Seq<u8>| #[trigger]
        m2.contains_key(k2) implies spec_dec_user(m2[k2]) is Some && k2 == Chat::spec_key(
        spec_dec_user(m2[k2]).unwrap().tg_id,
    ) && spec_dec_user(m2[k2]).unwrap().id <= uid by {
        if k2 != ck {
            assert(db.chats.contains_key(k2) && m2[k2] == db.chats[k2]);
        }
    }
    assert forall|k1: Seq<u8>, k2: Seq<u8>|
        m2.contains_key(k1) && m2.contains_key(k2) && spec_dec_user(m2[k1]).unwrap().id
            == spec_dec_user(m2[k2]).unwrap().id implies k1 == k2 by {
        if k1 == ck && k2 != ck {
            assert(db.chats.contains_key(k2));
            assert(spec_dec_user(db.chats[k2]).unwrap().id < uid);
        } else if k1 != ck && k2 == ck {
            assert(db.chats.contains_key(k1));
            assert(spec_dec_user(db.chats[k1]).unwrap().id < uid);
        } else if k1 != ck && k2 != ck {
            assert(db.chats.contains_key(k1) && db.chats.contains_key(k2));
        }
    }
}

/// The stored account with a given id, with its flags or name changed:
/// what every account mutation writes back.
pub open spec fn spec_user_updated(db: DbV, k: Seq<u8>, u: UserV) -> DbV {
    DbV { chats: db.chats.insert(k, spec_enc_user(u)), ..db }
}

/// No stored account has this id (and every record decodes).
pub open spec fn spec_no_user_with_id(chats: Map<Seq<u8>, Seq<u8>>, id: u32) -> bool {
    forall|k: Seq<u8>| #[trigger]
        chats.contains_key(k) ==> spec_dec_user(chats[k]) is Some && spec_dec_user(
            chats[k],
        ).unwrap().id != id
}

impl DataBase {
    /// Marks the account with a given id inactive; doing nothing when no
    /// account has the id, as the relational update would.
    pub fn deactive_user(&mut self, id: u32) -> (r: Result<(), StorageError>)
        ensures
            match r {
                Ok(_) => (exists|k: Seq<u8>| #[trigger]
                    old(self)@.chats.contains_key(k) && spec_dec_user(
                        old(self)@.chats[k],
                    ) is Some && spec_dec_user(old(self)@.chats[k]).unwrap().id == id
                    && final(self)@ == spec_user_updated(
                        old(self)@,
                        k,
                        UserV { is_active: false, ..spec_dec_user(old(self)@.chats[k]).unwrap() },
                    )) || (spec_no_user_with_id(old(self)@.chats, id) && final(self)@ == old(
                    self,
                )@),
                Err(e) => e == StorageError::Io || (e == StorageError::Corrupt
                    && some_user_corrupt(old(self)@.chats) && final(self)@ == old(self)@),
            },
            r is Ok && chats_wf(old(self)@.chats) ==> chats_wf(final(self)@.chats) && (forall|
                k: Seq<u8>,
            |
                #[trigger] old(self)@.chats.contains_key(k) && spec_dec_user(
                    old(self)@.chats[k],
                ).unwrap().id == id ==> spec_step_state(
                    final(self)@.chats,
                    spec_dec_user(old(self)@.chats[k]).unwrap().tg_id,
                ) == Option::Some(ChatStep::Deactive)),
    {
        match self.find_user(id) {
            Err(e) => Err(e),
            Ok(Option::None) => Ok(()),
            Ok(Option::Some((k, u))) => {
                proof {
                    lemma_dec_user_encodable(old(self)@.chats[k@]);
                }
                let u2 = User { is_active: false, ..u };
                let val = match u2.into_val() {
                    Option::Some(v) => v,
                    Option::None => {
                        proof {
                            assert(false);
                        }
                        return Err(StorageError::Io);
                    },
                };
                match self.chats.put(k.as_slice(), val.as_slice()) {
                    Ok(_) => {
                        proof {
                            if chats_wf(old(self)@.chats) {
                                lemma_update_user_wf(old(self)@.chats, k@, u2@);
                                crate::entities::lemma_user_roundtrip(u2@);
                            }
                        }
                        Ok(())
                    },
                    Err(e) => Err(e),
                }
            },
        }
    }

    /// Marks the account with a given id active again.
    pub fn active_user(&mut self, id: u32) -> (r: Result<(), StorageError>)
        ensures
            match r {
                Ok(_) => (exists|k: Seq<u8>| #[trigger]
                    old(self)@.chats.contains_key(k) && spec_dec_user(
                        old(self)@.chats[k],
                    ) is Some && spec_dec_user(old(self)@.chats[k]).unwrap().id == id
                    && final(self)@ == spec_user_updated(
                        old(self)@,
                        k,
                        UserV { is_active: true, ..spec_dec_user(old(self)@.chats[k]).unwrap() },
                    )) || (spec_no_user_with_id(old(self)@.chats, id) && final(self)@ == old(
                    self,
                )@),
                Err(e) => e == StorageError::Io || (e == StorageError::Corrupt
                    && some_user_corrupt(old(self)@.chats) && final(self)@ == old(self)@),
            },
            r is Ok && chats_wf(old(self)@.chats) ==> chats_wf(final(self)@.chats) && (forall|
                k: Seq<u8>,
            |
                #[trigger] old(self)@.chats.contains_key(k) && spec_dec_user(
                    old(self)@.chats[k],
                ).unwrap().id == id ==> spec_step_state(
                    final(self)@.chats,
                    spec_dec_user(old(self)@.chats[k]).unwrap().tg_id,
                ) == Option::Some(spec_dec_user(old(self)@.chats[k]).unwrap().step)),
    {
        match self.find_user(id) {
            Err(e) => Err(e),
            Ok(Option::None) => Ok(()),
            Ok(Option::Some((k, u))) => {
                proof {
                    lemma_dec_user_encodable(old(self)@.chats[k@]);
                }
                let u2 = User { is_active: true, ..u };
                let val = match u2.into_val() {
                    Option::Some(v) => v,
                    Option::None => {
                        proof {
                            assert(false);
                        }
                        return Err(StorageError::Io);
                    },
                };
                match self.chats.put(k.as_slice(), val.as_slice()) {
                    Ok(_) => {
                        proof {
                            if chats_wf(old(self)@.chats) {
                                lemma_update_user_wf(old(self)@.chats, k@, u2@);
                                crate::entities::lemma_user_roundtrip(u2@);
                            }
                        }
                        Ok(())
                    },
                    Err(e) => Err(e),
                }
            },
        }
    }

    /// Renames the account with a given id.
    pub fn set_name_for_user(&mut self, name: &str, id: u32) -> (r: Result<(), StorageError>)
        ensures
            match r {
                Ok(_) => (exists|k: Seq<u8>| #[trigger]
                    old(self)@.chats.contains_key(k) && spec_dec_user(
                        old(self)@.chats[k],
                    ) is Some && spec_dec_user(old(self)@.chats[k]).unwrap().id == id
                    && final(self)@ == spec_user_updated(
                        old(self)@,
                        k,
                        UserV { name: name@, ..spec_dec_user(old(self)@.chats[k]).unwrap() },
                    )) || (spec_no_user_with_id(old(self)@.chats, id) && final(self)@ == old(
                    self,
                )@),
                Err(e) => {
                    &&& e == StorageError::Io || e == StorageError::Corrupt || e
                        == StorageError::TooLarge
                    &&& e == StorageError::TooLarge ==> !str_encodable(name@) && final(self)@
                        == old(self)@
                    &&& e == StorageError::Corrupt ==> some_user_corrupt(old(self)@.chats)
                        && final(self)@ == old(self)@
                },
            },
            r is Ok && chats_wf(old(self)@.chats) ==> chats_wf(final(self)@.chats),
    {
        match self.find_user(id) {
            Err(e) => Err(e),
            Ok(Option::None) => Ok(()),
            Ok(Option::Some((k, u))) => {
                let u2 = User { name: name.to_owned(), ..u };
                let val = match u2.into_val() {
                    Option::Some(v) => v,
                    Option::None => return Err(StorageError::TooLarge),
                };
                match self.chats.put(k.as_slice(), val.as_slice()) {
                    Ok(_) => {
                        proof {
                            if chats_wf(old(self)@.chats) {
                                lemma_update_user_wf(old(self)@.chats, k@, u2@);
                            }
                        }
                        Ok(())
                    },
                    Err(e) => Err(e),
                }
            },
        }
    }

    /// Deletes the account with a given id, if any.
    pub fn del_user(&mut self, id: u32) -> (r: Result<(), StorageError>)
        ensures
            match r {
                Ok(_) => (exists|k: Seq<u8>| #[trigger]
                    old(self)@.chats.contains_key(k) && spec_dec_user(
                        old(self)@.chats[k],
                    ) is Some && spec_dec_user(old(self)@.chats[k]).unwrap().id == id
                    && final(self)@ == (DbV { chats: old(self)@.chats.remove(k), ..old(self)@ })) || (
                spec_no_user_with_id(old(self)@.chats, id) && final(self)@ == old(self)@),
                Err(e) => e == StorageError::Io || (e == StorageError::Corrupt
                    && some_user_corrupt(old(self)@.chats) && final(self)@ == old(self)@),
            },
            r is Ok && chats_wf(old(self)@.chats) ==> chats_wf(final(self)@.chats)
                && spec_no_user_with_id(final(self)@.chats, id),
    {
        match self.find_user(id) {
            Err(e) => Err(e),
            Ok(Option::None) => Ok(()),
            Ok(Option::Some((k, _u))) => match self.chats.del(k.as_slice()) {
                Ok(_) => {
                    proof {
                        if chats_wf(old(self)@.chats) {
                            lemma_remove_user_wf(old(self)@.chats, k@, id);
                        }
                    }
                    Ok(())
                },
                Err(e) => Err(e),
            },
        }
    }
}


// ---------------------------------------------------------------------------
// Corner creation, with uniqueness of name and tag
// ---------------------------------------------------------------------------

/// A new corner's name or tag collides with a stored corner's. Absent tags
/// never collide.
pub open spec fn spec_corner_clash(c: CornerV, name: Seq<char>, tag: Option<Seq<char>>) -> bool {
    c.name == name || (c.tag is Some && tag is Some && c.tag == tag)
}

impl DataBase {
    /// Creates a corner with a fresh id, enforcing uniqueness of the display
    /// name and of the short tag (when given): a duplicate is reported as
    /// `Conflict`, a distinct outcome, and nothing is written.
    #[verifier::spinoff_prover]
    #[verifier::rlimit(50)]
    pub fn push_corner(&mut self, name: &str, shrt_name: Option<&str>) -> (r: Result<
        u32,
        StorageError,
    >)
        ensures
            ({
                let tagv = match shrt_name {
                    Option::None => Option::<Seq<char>>::None,
                    Option::Some(s) => Option::Some(s@),
                };
                match r {
                    Ok(cid) => {
                        &&& forall|k: Seq<u8>| #[trigger]
                            old(self)@.corners.contains_key(k) ==> spec_dec_corner(
                                old(self)@.corners[k],
                            ) is Some && !spec_corner_clash(
                                spec_dec_corner(old(self)@.corners[k]).unwrap(),
                                name@,
                                tagv,
                            )
                        &&& cid >= 1 && spec_ctr_state(old(self)@.stats, CORNER_CTR)
                            == Option::Some((cid - 1) as u32)
                        &&& !old(self)@.corners.contains_key(Corner::spec_key(cid))
                        &&& final(self)@ == DbV {
                            corners: old(self)@.corners.insert(
                                Corner::spec_key(cid),
                                spec_enc_corner(CornerV { id: cid, name: name@, tag: tagv }),
                            ),
                            stats: old(self)@.stats.insert(
                                spec_ctr_key(CORNER_CTR),
                                spec_be4(cid),
                            ),
                            ..old(self)@
                        }
                    },
                    Err(e) => {
                        &&& e == StorageError::Io || e == StorageError::Conflict || e
                            == StorageError::Corrupt || e == StorageError::TooLarge || e
                            == StorageError::Exhausted
                        &&& e == StorageError::Conflict ==> (exists|k: Seq<u8>| #[trigger]
                            old(self)@.corners.contains_key(k) && spec_dec_corner(
                                old(self)@.corners[k],
                            ) is Some && spec_corner_clash(
                                spec_dec_corner(old(self)@.corners[k]).unwrap(),
                                name@,
                                tagv,
                            )) && final(self)@ == old(self)@
                        &&& e == StorageError::TooLarge ==> !(str_encodable(name@)
                            && crate::codec::opt_str_encodable(tagv)) && final(self)@ == old(
                            self,
                        )@
                        &&& e == StorageError::Corrupt ==> (some_corner_corrupt(
                            old(self)@.corners,
                        ) || spec_ctr_state(old(self)@.stats, CORNER_CTR) is None || ({
                            let c = spec_ctr_state(old(self)@.stats, CORNER_CTR).unwrap();
                            c < u32::MAX && old(self)@.corners.contains_key(
                                Corner::spec_key((c + 1) as u32),
                            )
                        })) && final(self)@ == old(self)@
                        &&& e == StorageError::Exhausted ==> spec_ctr_state(
                            old(self)@.stats,
                            CORNER_CTR,
                        ) == Option::Some(u32::MAX) && final(self)@ == old(self)@
                    },
                }
            }),
    {
        let ghost tagv = match shrt_name {
            Option::None => Option::<Seq<char>>::None,
            Option::Some(s) => Option::Some(s@),
        };
        let es = match self.corners.entries() {
            Ok(es) => es,
            Err(e) => return Err(e),
        };
        let mut i: usize = 0;
        while i < es.len()
            invariant
                self@ == old(self)@,
                i <= es@.len(),
                tagv == (match shrt_name {
                    Option::None => Option::<Seq<char>>::None,
                    Option::Some(s) => Option::Some(s@),
                }),
                forall|j: int|
                    0 <= j < es@.len() ==> #[trigger] self@.corners.contains_key(es@[j].0@)
                        && self@.corners[es@[j].0@] == es@[j].1@,
                forall|k: Seq<u8>| #[trigger]
                    self@.corners.contains_key(k) ==> exists|j: int|
                        0 <= j < es@.len() && #[trigger] (es@[j].0@) == k,
                forall|j: int|
                    0 <= j < i ==> spec_dec_corner(#[trigger] es@[j].1@) is Some
                        && !spec_corner_clash(spec_dec_corner(es@[j].1@).unwrap(), name@, tagv),
            decreases es@.len() - i,
        {
            match Corner::from_val(es[i].1.as_slice()) {
                Option::None => {
                    assert(self@.corners.contains_key(es@[i as int].0@));
                    assert(spec_dec_corner(self@.corners[es@[i as int].0@]) is None);
                    return Err(StorageError::Corrupt);
                },
                Option::Some(c) => {
                    let mut clash = crate::codec::str_eq(c.name.as_str(), name);
                    match (&c.tag, shrt_name) {
                        (Option::Some(a), Option::Some(b)) => {
                            if crate::codec::str_eq(a.as_str(), b) {
                                clash = true;
                            }
                        },
                        _ => {},
                    }
                    if clash {
                        assert(self@.corners.contains_key(es@[i as int].0@));
                        assert(spec_corner_clash(
                            spec_dec_corner(self@.corners[es@[i as int].0@]).unwrap(),
                            name@,
                            tagv,
                        ));
                        return Err(StorageError::Conflict);
                    }
                },
            }
            i += 1;
        }
        proof {
            assert forall|k: Seq<u8>| #[trigger]
                self@.corners.contains_key(k) implies spec_dec_corner(
                self@.corners[k],
            ) is Some && !spec_corner_clash(
                spec_dec_corner(self@.corners[k]).unwrap(),
                name@,
                tagv,
            ) by {
                let j0 = choose|j0: int| 0 <= j0 < es@.len() && #[trigger] (es@[j0].0@) == k;
                assert(self@.corners[k] == es@[j0].1@);
                assert(spec_dec_corner(es@[j0].1@) is Some && !spec_corner_clash(
                    spec_dec_corner(es@[j0].1@).unwrap(),
                    name@,
                    tagv,
                ));
            }
        }
        let ctr = match self.read_ctr(CORNER_CTR) {
            Ok(c) => c,
            Err(e) => return Err(e),
        };
        if ctr == u32::MAX {
            return Err(StorageError::Exhausted);
        }
        let cid = ctr + 1;
        // The counter must not lag behind the stored corners: a taken key
        // means the bookkeeping is corrupt, and inserting would silently
        // overwrite a corner.
        let fresh_key = Corner::key(cid);
        let key_taken = match self.corners.contains(fresh_key.as_slice()) {
            Ok(b) => b,
            Err(e) => return Err(e),
        };
        if key_taken {
            return Err(StorageError::Corrupt);
        }
        let tag_owned: Option<String> = match shrt_name {
            Option::None => None,
            Option::Some(s) => Some(s.to_owned()),
        };
        let corner = Corner { id: cid, name: name.to_owned(), tag: tag_owned };
        let val = match corner.into_val() {
            Option::Some(v) => v,
            Option::None => return Err(StorageError::TooLarge),
        };
        if let Err(e) = self.corners.put(fresh_key.as_slice(), val.as_slice()) {
            return Err(e);
        }
        if let Err(e) = self.write_ctr(CORNER_CTR, cid) {
            return Err(e);
        }
        Ok(cid)
    }
}


// ---------------------------------------------------------------------------
// Inbound-event decision
// ---------------------------------------------------------------------------

/// What the core answers for one inbound chat event; the collaborator
/// renders it into an outbound message and never sees storage itself.
#[derive(Clone, Debug, PartialEq, Eq)]
pub enum Outcome {
    /// Unknown chat, no text: ask for an invite code.
    Greet,
    /// Unknown chat, text that did not redeem: code wrong, used or expired.
    FailedCode,
    /// Unknown chat, text that redeemed: the account now exists.
    Registered,
    /// Known chat whose account an admin has deactivated.
    InactiveProfile,
    /// Known, active chat with no text.
    Help,
    /// Known, active chat with text: hand the stored step and the text on.
    PassThroughToCommandHandler(ChatStep, String),
}

impl DataBase {
    /// Decides one inbound event: an unknown chat is greeted or registered
    /// from its payload, a deactivated account is told so, and an active
    /// account's text is passed through with its conversational step.
    /// Exactly the registration path writes; every other outcome leaves the
    /// store unchanged.
    pub fn handle_event(&mut self, chat_id: i64, text: Option<String>, now: i64) -> (r: Result<
        Outcome,
        StorageError,
    >)
        ensures
            ({
                let ck = Chat::spec_key(chat_id);
                match r {
                    Ok(o) => match o {
                        Outcome::Greet => !old(self)@.chats.contains_key(ck) && text is None
                            && final(self)@ == old(self)@,
                        Outcome::FailedCode => ({
                            &&& text matches Some(t)
                            &&& !old(self)@.chats.contains_key(ck)
                            &&& final(self)@ == old(self)@
                            &&& ({
                                let pb = encode_utf8(t@);
                                ||| pb.len() < 9
                                ||| pb.len() >= 9 && vstd::utf8::is_char_boundary(pb, 9)
                                    && !crate::invite::spec_invite_corrupt(
                                    old(self)@.invites,
                                    pb.subrange(0, 8),
                                ) && !(crate::invite::spec_redeem_outcome(
                                    old(self)@.invites,
                                    pb.subrange(0, 8),
                                    now,
                                ) matches crate::entities::RegisterResult::Succes(_))
                            })
                        }),
                        Outcome::Registered => ({
                            &&& text matches Some(t)
                            &&& !old(self)@.chats.contains_key(ck)
                            &&& ({
                                let pb = encode_utf8(t@);
                                let k = pb.subrange(0, 8);
                                let oc = crate::invite::spec_redeem_outcome(
                                    old(self)@.invites,
                                    k,
                                    now,
                                );
                                &&& pb.len() >= 9 && vstd::utf8::is_char_boundary(pb, 9)
                                &&& !crate::invite::spec_invite_corrupt(old(self)@.invites, k)
                                &&& oc matches crate::entities::RegisterResult::Succes(_)
                                &&& spec_ctr_state(
                                    old(self)@.stats,
                                    crate::invite::USER_CTR,
                                ) is Some
                                &&& final(self)@ == crate::invite::spec_registered(
                                    old(self)@,
                                    k,
                                    now,
                                    chat_id,
                                    decode_utf8(pb.subrange(9, pb.len() as int)),
                                    (spec_ctr_state(
                                        old(self)@.stats,
                                        crate::invite::USER_CTR,
                                    ).unwrap() + 1) as u32,
                                    oc->Succes_0,
                                )
                            })
                        }),
                        Outcome::InactiveProfile => old(self)@.chats.contains_key(ck)
                            && spec_dec_user(old(self)@.chats[ck]) is Some && !spec_dec_user(
                            old(self)@.chats[ck],
                        ).unwrap().is_active && final(self)@ == old(self)@,
                        Outcome::Help => old(self)@.chats.contains_key(ck) && spec_dec_user(
                            old(self)@.chats[ck],
                        ) is Some && spec_dec_user(old(self)@.chats[ck]).unwrap().is_active
                            && text is None && final(self)@ == old(self)@,
                        Outcome::PassThroughToCommandHandler(st, t2) => ({
                            &&& old(self)@.chats.contains_key(ck)
                            &&& spec_dec_user(old(self)@.chats[ck]) is Some
                            &&& text matches Some(t)
                            &&& ({
                                let u = spec_dec_user(old(self)@.chats[ck]).unwrap();
                                u.is_active && st == u.step && t2@ == t@ && final(self)@ == old(
                                    self,
                                )@
                            })
                        }),
                    },
                    Err(e) => {
                        &&& e == StorageError::Io || e == StorageError::Corrupt || e
                            == StorageError::BadPayload || e == StorageError::TooLarge || e
                            == StorageError::Exhausted
                        &&& e != StorageError::Io ==> final(self)@ == old(self)@
                        &&& e == StorageError::BadPayload ==> ({
                            &&& text matches Some(t)
                            &&& !old(self)@.chats.contains_key(ck)
                            &&& encode_utf8(t@).len() >= 9
                            &&& !vstd::utf8::is_char_boundary(encode_utf8(t@), 9)
                        })
                        &&& e == StorageError::TooLarge ==> ({
                            &&& text matches Some(t)
                            &&& !old(self)@.chats.contains_key(ck)
                            &&& encode_utf8(t@).subrange(9, encode_utf8(t@).len() as int).len()
                                >= 0x1_0000_0000
                        })
                        &&& e == StorageError::Exhausted ==> spec_ctr_state(
                            old(self)@.stats,
                            crate::invite::USER_CTR,
                        ) == Option::Some(u32::MAX)
                        &&& e == StorageError::Corrupt ==> ((old(self)@.chats.contains_key(ck)
                            && spec_dec_user(old(self)@.chats[ck]) is None) || ({
                            &&& text matches Some(t)
                            &&& !old(self)@.chats.contains_key(ck)
                            &&& crate::invite::spec_invite_corrupt(
                                old(self)@.invites,
                                encode_utf8(t@).subrange(0, 8),
                            ) || spec_ctr_state(
                                old(self)@.stats,
                                crate::invite::USER_CTR,
                            ) is None
                        }))
                    },
                }
            }),
    {
        let ck = Chat::key(chat_id);
        let got = match self.chats.get(ck.as_slice()) {
            Ok(g) => g,
            Err(e) => return Err(e),
        };
        match got {
            Option::None => match text {
                Option::None => Ok(Outcome::Greet),
                Option::Some(t) => match self.register_user(t.as_str(), chat_id, now) {
                    Err(e) => Err(e),
                    Ok(crate::entities::RegisterResult::Succes(_)) => Ok(Outcome::Registered),
                    Ok(_) => Ok(Outcome::FailedCode),
                },
            },
            Option::Some(v) => match User::from_val(v.as_slice()) {
                Option::None => Err(StorageError::Corrupt),
                Option::Some(u) => {
                    if !u.is_active {
                        Ok(Outcome::InactiveProfile)
                    } else {
                        match text {
                            Option::None => Ok(Outcome::Help),
                            Option::Some(t) => Ok(
                                Outcome::PassThroughToCommandHandler(u.step, t),
                            ),
                        }
                    }
                },
            },
        }
    }
}

} // verus!
