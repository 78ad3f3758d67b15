//! The invite-code lifecycle and the registration workflow.
//!
//! An invite code moves through `Unissued -> Active -> {Consumed | Expired}`.
//! `Active` is implicit: the record exists, is unused, and is at most one day
//! old. Redemption classifies a code and, exactly when it is active, marks it
//! used; the whole step runs under the store's exclusive access (`&mut`), so
//! no interleaving can observe or produce a half-done redemption.
//!
//! Registration validates a raw `<code> <name>` payload, redeems the code,
//! and creates the chat-bound account, all-or-nothing: on any outcome but
//! success nothing is written (only an underlying medium failure can leave
//! a partial write, and it is reported as such).
#![allow(unused_imports)]
use vstd::prelude::*;
use vstd::utf8::{
    decode_utf8, encode_utf8, is_char_boundary, is_leading_byte_width_1, partial_valid_utf8,
    valid_utf8,
};
use crate::codec::{
    push_be4, read_u32, spec_be4, spec_be4_val, spec_dec_lp_bytes, spec_dec_string,
    spec_dec_u32, spec_enc_string, str_encodable, string_from_utf8,
};
use crate::entities::{
    spec_dec_invite, spec_enc_invite, spec_enc_user, user_encodable, invite_encodable, Chat,
    ChatStep, InviteCode, InviteV, RegisterResult, User, UserV,
};
use crate::store::{DataBase, DbV, StorageError, Tree};
use rand::Rng;

verus! {

/// Seconds in one day: the validity window of an invite code.
pub const DAY_SECONDS: i64 = 86400;

/// An invite is expired when it is more than one day old. A clock that reads
/// earlier than the generation instant never expires a code.
pub open spec fn spec_expired(gen_date: i64, now: i64) -> bool {
    now - gen_date > 86400
}

/// The stored invite record under a key, decoded, if the key is present and
/// its bytes decode.
pub open spec fn spec_invite_rec(inv: Map<Seq<u8>, Seq<u8>>, k: Seq<u8>) -> Option<InviteV> {
    if inv.contains_key(k) {
        spec_dec_invite(inv[k])
    } else {
        Option::None
    }
}

/// A stored invite record that does not decode: corruption, a fatal error
/// for that record.
pub open spec fn spec_invite_corrupt(inv: Map<Seq<u8>, Seq<u8>>, k: Seq<u8>) -> bool {
    inv.contains_key(k) && spec_dec_invite(inv[k]) is None
}

/// The redemption decision for a code key at a clock reading: the pure state
/// machine `Unissued -> Active -> {Consumed | Expired}`. The used flag is
/// checked before age, so a consumed code reports `InviteUsed` forever, and
/// an expired one reports `InviteExpired` on every retry.
pub open spec fn spec_redeem_outcome(inv: Map<Seq<u8>, Seq<u8>>, k: Seq<u8>, now: i64)
    -> RegisterResult
    recommends
        !spec_invite_corrupt(inv, k),
{
    if !inv.contains_key(k) {
        RegisterResult::InviteNotFound
    } else {
        let rec = spec_dec_invite(inv[k]).unwrap();
        if rec.used {
            RegisterResult::InviteUsed
        } else if spec_expired(rec.gen_date, now) {
            RegisterResult::InviteExpired
        } else {
            RegisterResult::Succes(rec.corner_id)
        }
    }
}

/// The invites collection after a redemption: unchanged except that an
/// active record is re-written with its used flag set. Expiry is evaluated,
/// never persisted.
pub open spec fn spec_redeem_map(inv: Map<Seq<u8>, Seq<u8>>, k: Seq<u8>, now: i64) -> Map<
    Seq<u8>,
    Seq<u8>,
>
    recommends
        !spec_invite_corrupt(inv, k),
{
    if spec_redeem_outcome(inv, k, now) matches RegisterResult::Succes(_) {
        inv.insert(k, spec_enc_invite(spec_dec_invite(inv[k]).unwrap().consumed()))
    } else {
        inv
    }
}

/// A decodable invite record is encodable: its code's UTF-8 form came out
/// of a 4-byte length prefix, so it fits one again.
pub proof fn lemma_dec_invite_encodable(b: Seq<u8>)
    requires
        spec_dec_invite(b) is Some,
    ensures
        invite_encodable(spec_dec_invite(b).unwrap()),
        spec_dec_invite(b).unwrap().code == decode_utf8(
            spec_dec_lp_bytes(b).unwrap().0,
        ),
{
    broadcast use vstd::utf8::decode_utf8_encode_utf8;

    let (bs, r) = spec_dec_lp_bytes(b).unwrap();
    assert(valid_utf8(bs));
    assert(encode_utf8(decode_utf8(bs)) == bs);
}

// ---------------------------------------------------------------------------
// Code generation
// ---------------------------------------------------------------------------

/// The length, in bytes and in characters, of every invite code.
pub const INVITE_LEN: usize = 8;

/// A byte of the 36-symbol invite alphabet: `A..Z` then `0..9`.
pub open spec fn is_code_byte(b: u8) -> bool {
    (65 <= b <= 90) || (48 <= b <= 57)
}

/// Relies on `rand::Rng::gen_range` over `0..n`: a draw below the bound.
/// Nothing is assumed beyond the range; two draws may or may not differ.
#[verifier::external_body]
fn random_below(n: usize) -> (r: usize)
    requires
        0 < n,
    ensures
        r < n,
{
    rand::thread_rng().gen_range(0..n)
}

/// Draws a candidate invite code: eight symbols from the 36-symbol alphabet.
/// The result is ASCII, so its UTF-8 form is one byte per symbol.
pub fn gen_code() -> (r: String)
    ensures
        encode_utf8(r@).len() == 8,
        forall|i: int| 0 <= i < 8 ==> is_code_byte(#[trigger] encode_utf8(r@)[i]),
{
    let mut bytes: Vec<u8> = Vec::new();
    let mut i: usize = 0;
    while i < INVITE_LEN
        invariant
            i <= 8,
            bytes@.len() == i,
            forall|j: int| 0 <= j < i ==> is_code_byte(#[trigger] bytes@[j]),
        decreases 8 - i,
    {
        let d = random_below(36);
        let b: u8 = if d < 26 {
            (65 + d) as u8
        } else {
            (22 + d) as u8
        };
        bytes.push(b);
        i += 1;
    }
    let ghost bb = bytes@;
    proof {
        assert(bb.subrange(0, 0) =~= Seq::<u8>::empty());
        assert(partial_valid_utf8(bb, 0));
        assert(forall|j: int| 0 <= j < 8 ==> is_leading_byte_width_1(#[trigger] bb[j]));
        vstd::utf8::partial_valid_utf8_extend_ascii_block(bb, 0, 8);
        assert(bb.subrange(0, 8) =~= bb);
        assert(valid_utf8(bb));
        vstd::utf8::decode_utf8_encode_utf8(bb);
    }
    match string_from_utf8(bytes) {
        Option::Some(st) => st,
        Option::None => {
            proof {
                assert(false);
            }
            String::new()
        },
    }
}

// ---------------------------------------------------------------------------
// Identifier counters, kept in the stats collection
// ---------------------------------------------------------------------------

/// The stats key of the account-id counter.
pub const USER_CTR: u8 = 0;

/// The stats key of the corner-id counter.
pub const CORNER_CTR: u8 = 1;

/// The stats entry a counter lives under.
pub open spec fn spec_ctr_key(which: u8) -> Seq<u8> {
    seq![which]
}

/// The value of a counter: absent means zero; a present entry must be a
/// 4-byte word, anything else is corruption.
pub open spec fn spec_ctr_state(stats: Map<Seq<u8>, Seq<u8>>, which: u8) -> Option<u32> {
    if !stats.contains_key(spec_ctr_key(which)) {
        Option::Some(0u32)
    } else if stats[spec_ctr_key(which)].len() == 4 {
        Option::Some(spec_be4_val(stats[spec_ctr_key(which)]))
    } else {
        Option::None
    }
}

impl DataBase {
    /// Reads a counter; `Corrupt` exactly when the stored entry is malformed.
    pub(crate) fn read_ctr(&self, which: u8) -> (r: Result<u32, StorageError>)
        ensures
            match r {
                Ok(c) => spec_ctr_state(self@.stats, which) == Option::Some(c),
                Err(e) => e == StorageError::Io || (e == StorageError::Corrupt && spec_ctr_state(
                    self@.stats,
                    which,
                ) is None),
            },
    {
        let key: Vec<u8> = vec![which];
        assert(key@ =~= spec_ctr_key(which));
        match self.stats.get(key.as_slice()) {
            Err(e) => Err(e),
            Ok(Option::None) => Ok(0),
            Ok(Option::Some(v)) => {
                if v.len() == 4 {
                    match read_u32(v.as_slice(), 0) {
                        Option::Some((x, _p)) => {
                            proof {
                                assert(v@.skip(0) =~= v@);
                                assert(v@.take(4) =~= v@);
                            }
                            Ok(x)
                        },
                        Option::None => {
                            proof {
                                assert(v@.skip(0) =~= v@);
                            }
                            Err(StorageError::Corrupt)
                        },
                    }
                } else {
                    Err(StorageError::Corrupt)
                }
            },
        }
    }

    /// Writes a counter value.
    pub(crate) fn write_ctr(&mut self, which: u8, value: u32) -> (r: Result<(), StorageError>)
        ensures
            match r {
                Ok(_) => final(self)@ == DbV {
                    stats: old(self)@.stats.insert(spec_ctr_key(which), spec_be4(value)),
                    ..old(self)@
                },
                Err(e) => e == StorageError::Io,
            },
    {
        let key: Vec<u8> = vec![which];
        assert(key@ =~= spec_ctr_key(which));
        let mut val: Vec<u8> = Vec::new();
        push_be4(&mut val, value);
        self.stats.put(key.as_slice(), val.as_slice())
    }

    // -----------------------------------------------------------------------
    // Lifecycle operations
    // -----------------------------------------------------------------------

    /// Whether a code string is currently stored, consumed or not.
    pub fn invite_code_exist(&self, code: &str) -> (r: Result<bool, StorageError>)
        ensures
            match r {
                Ok(b) => b == self@.invites.contains_key(InviteCode::spec_key(code@)),
                Err(e) => e == StorageError::Io,
            },
    {
        let key = InviteCode::key(code);
        self.invites.contains(key.as_slice())
    }

    /// Redeems the code stored under raw key bytes: the atomic
    /// classify-and-consume step of the state machine.
    fn redeem_key(&mut self, key: &[u8], now: i64) -> (r: Result<RegisterResult, StorageError>)
        ensures
            match r {
                Ok(res) => !spec_invite_corrupt(old(self)@.invites, key@) && res
                    == spec_redeem_outcome(old(self)@.invites, key@, now) && final(self)@ == DbV {
                    invites: spec_redeem_map(old(self)@.invites, key@, now),
                    ..old(self)@
                },
                Err(e) => {
                    &&& e == StorageError::Io || e == StorageError::Corrupt
                    &&& e == StorageError::Corrupt ==> spec_invite_corrupt(
                        old(self)@.invites,
                        key@,
                    ) && final(self)@ == old(self)@
                },
            },
    {
        let got = match self.invites.get(key) {
            Ok(g) => g,
            Err(e) => return Err(e),
        };
        match got {
            Option::None => Ok(RegisterResult::InviteNotFound),
            Option::Some(v) => match InviteCode::from_val(v.as_slice()) {
                Option::None => Err(StorageError::Corrupt),
                Option::Some(rec) => {
                    if rec.used {
                        Ok(RegisterResult::InviteUsed)
                    } else if (now as i128) - (rec.gen_date as i128) > DAY_SECONDS as i128 {
                        Ok(RegisterResult::InviteExpired)
                    } else {
                        let corner_id = rec.corner_id;
                        let rec2 = InviteCode { used: true, ..rec };
                        proof {
                            lemma_dec_invite_encodable(v@);
                        }
                        let v2 = match rec2.into_val() {
                            Option::Some(v2) => v2,
                            Option::None => {
                                proof {
                                    assert(false);
                                }
                                return Err(StorageError::Corrupt);
                            },
                        };
                        match self.invites.put(key, v2.as_slice()) {
                            Ok(_) => Ok(RegisterResult::Succes(corner_id)),
                            Err(e) => Err(e),
                        }
                    }
                },
            },
        }
    }

    /// Redeems a code string: looks it up, reports `InviteNotFound`,
    /// `InviteUsed` or `InviteExpired` without effect, and otherwise
    /// atomically marks the record used and reports the owning corner.
    /// The caller supplies the clock reading `now` (Unix seconds).
    pub fn use_invite_code(&mut self, code: &str, now: i64) -> (r: Result<
        RegisterResult,
        StorageError,
    >)
        ensures
            match r {
                Ok(res) => {
                    let k = InviteCode::spec_key(code@);
                    &&& !spec_invite_corrupt(old(self)@.invites, k)
                    &&& res == spec_redeem_outcome(old(self)@.invites, k, now)
                    &&& final(self)@ == DbV {
                        invites: spec_redeem_map(old(self)@.invites, k, now),
                        ..old(self)@
                    }
                },
                Err(e) => {
                    &&& e == StorageError::Io || e == StorageError::Corrupt
                    &&& e == StorageError::Corrupt ==> spec_invite_corrupt(
                        old(self)@.invites,
                        InviteCode::spec_key(code@),
                    ) && final(self)@ == old(self)@
                },
            },
    {
        let key = InviteCode::key(code);
        self.redeem_key(key.as_slice(), now)
    }

    /// Issues a new invite code for a corner: draws candidates until one is
    /// not already stored (a bounded number of times; the keyspace dwarfs
    /// any realistic code volume), then persists it unused with the given
    /// generation instant, and returns it. On success the returned code was
    /// provably absent before the call.
    pub fn get_new_invite_code(&mut self, corner_id: u32, admin_id: u32, now: i64) -> (r: Result<
        String,
        StorageError,
    >)
        ensures
            match r {
                Ok(code) => {
                    let k = InviteCode::spec_key(code@);
                    &&& encode_utf8(code@).len() == 8
                    &&& forall|i: int| 0 <= i < 8 ==> is_code_byte(#[trigger] encode_utf8(code@)[i])
                    &&& !old(self)@.invites.contains_key(k)
                    &&& final(self)@ == DbV {
                        invites: old(self)@.invites.insert(
                            k,
                            spec_enc_invite(
                                InviteV {
                                    code: code@,
                                    corner_id,
                                    admin_id,
                                    gen_date: now,
                                    used: false,
                                },
                            ),
                        ),
                        ..old(self)@
                    }
                },
                Err(e) => {
                    &&& e == StorageError::Io || e == StorageError::Exhausted
                    &&& e == StorageError::Exhausted ==> final(self)@ == old(self)@ && (exists|
                        k: Seq<u8>,
                    |
                        #[trigger] old(self)@.invites.contains_key(k))
                },
            },
    {
        let mut attempts: usize = 0;
        while attempts < 32
            invariant
                self@ == old(self)@,
                attempts > 0 ==> exists|k: Seq<u8>| #[trigger] old(self)@.invites.contains_key(k),
            decreases 32 - attempts,
        {
            let code = gen_code();
            let key = InviteCode::key(code.as_str());
            let exists = match self.invites.contains(key.as_slice()) {
                Ok(b) => b,
                Err(e) => return Err(e),
            };
            if !exists {
                let rec = InviteCode {
                    code: code.clone(),
                    corner_id,
                    admin_id,
                    gen_date: now,
                    used: false,
                };
                let val = match rec.into_val() {
                    Option::Some(v) => v,
                    Option::None => {
                        proof {
                            assert(false);
                        }
                        return Err(StorageError::Io);
                    },
                };
                match self.invites.put(key.as_slice(), val.as_slice()) {
                    Ok(_) => return Ok(code),
                    Err(e) => return Err(e),
                }
            }
            assert(old(self)@.invites.contains_key(key@));
            attempts += 1;
        }
        Err(StorageError::Exhausted)
    }
}

/// The store after a successful registration: the invite consumed, the
/// account-id counter bumped to the new id, and the new account stored
/// under its chat key, active, at the start step, bound to the corner
/// that owned the code.
pub open spec fn spec_registered(
    db: DbV,
    k: Seq<u8>,
    now: i64,
    tg_id: i64,
    name: Seq<char>,
    uid: u32,
    corner_id: u32,
) -> DbV {
    DbV {
        invites: spec_redeem_map(db.invites, k, now),
        stats: db.stats.insert(spec_ctr_key(USER_CTR), spec_be4(uid)),
        chats: db.chats.insert(
            Chat::spec_key(tg_id),
            spec_enc_user(
                UserV { id: uid, tg_id, name, corner_id, is_active: true, step: ChatStep::Start },
            ),
        ),
        ..db
    }
}

impl DataBase {
    /// Registers an account from a raw payload `<code><separator><name>`:
    /// the first eight bytes are the code, one byte separates it from the
    /// display name. A payload shorter than nine bytes reports
    /// `TooShortName`; one whose ninth byte splits a character carries no
    /// name and is rejected before any effect. Otherwise the code is
    /// redeemed, and exactly on success a new account is created, bound to
    /// the corner that owned the code; every other outcome is propagated
    /// with nothing written. Only a medium failure (`Io`) can interrupt the
    /// sequence.
    pub fn register_user(&mut self, code_and_name: &str, tg_id: i64, now: i64) -> (r: Result<
        RegisterResult,
        StorageError,
    >)
        ensures
            ({
                let pb = encode_utf8(code_and_name@);
                &&& pb.len() < 9 ==> r == Ok::<RegisterResult, StorageError>(
                    RegisterResult::TooShortName,
                ) && final(self)@ == old(self)@
                &&& pb.len() >= 9 && !is_char_boundary(pb, 9) ==> r == Err::<
                    RegisterResult,
                    StorageError,
                >(StorageError::BadPayload) && final(self)@ == old(self)@
                &&& pb.len() >= 9 && is_char_boundary(pb, 9) ==> ({
                    let k = pb.subrange(0, 8);
                    let inv = old(self)@.invites;
                    &&& spec_invite_corrupt(inv, k) ==> (r == Err::<RegisterResult, StorageError>(
                        StorageError::Corrupt,
                    ) && final(self)@ == old(self)@) || r == Err::<RegisterResult, StorageError>(
                        StorageError::Io,
                    )
                    &&& !spec_invite_corrupt(inv, k) ==> match spec_redeem_outcome(inv, k, now) {
                        RegisterResult::InviteNotFound => (r == Ok::<RegisterResult, StorageError>(
                            RegisterResult::InviteNotFound,
                        ) && final(self)@ == old(self)@) || r == Err::<
                            RegisterResult,
                            StorageError,
                        >(StorageError::Io),
                        RegisterResult::InviteUsed => (r == Ok::<RegisterResult, StorageError>(
                            RegisterResult::InviteUsed,
                        ) && final(self)@ == old(self)@) || r == Err::<
                            RegisterResult,
                            StorageError,
                        >(StorageError::Io),
                        RegisterResult::InviteExpired => (r == Ok::<RegisterResult, StorageError>(
                            RegisterResult::InviteExpired,
                        ) && final(self)@ == old(self)@) || r == Err::<
                            RegisterResult,
                            StorageError,
                        >(StorageError::Io),
                        RegisterResult::Succes(corner) => ({
                            let nb = pb.subrange(9, pb.len() as int);
                            &&& nb.len() >= 0x1_0000_0000 ==> (r == Err::<
                                RegisterResult,
                                StorageError,
                            >(StorageError::TooLarge) && final(self)@ == old(self)@) || r == Err::<
                                RegisterResult,
                                StorageError,
                            >(StorageError::Io)
                            &&& nb.len() < 0x1_0000_0000 ==> ({
                                &&& old(self)@.chats.contains_key(Chat::spec_key(tg_id)) ==> (r
                                    == Err::<RegisterResult, StorageError>(StorageError::Conflict)
                                    && final(self)@ == old(self)@) || r == Err::<
                                    RegisterResult,
                                    StorageError,
                                >(StorageError::Io)
                                &&& !old(self)@.chats.contains_key(Chat::spec_key(tg_id))
                                    ==> match spec_ctr_state(old(self)@.stats, USER_CTR) {
                                    Option::None => (r == Err::<RegisterResult, StorageError>(
                                        StorageError::Corrupt,
                                    ) && final(self)@ == old(self)@) || r == Err::<
                                        RegisterResult,
                                        StorageError,
                                    >(StorageError::Io),
                                    Option::Some(c) => {
                                        &&& c == u32::MAX ==> (r == Err::<
                                            RegisterResult,
                                            StorageError,
                                        >(StorageError::Exhausted) && final(self)@ == old(self)@)
                                            || r == Err::<RegisterResult, StorageError>(
                                            StorageError::Io,
                                        )
                                        &&& c < u32::MAX ==> (r == Ok::<
                                            RegisterResult,
                                            StorageError,
                                        >(RegisterResult::Succes((c + 1) as u32)) && final(self)@
                                            == spec_registered(
                                            old(self)@,
                                            k,
                                            now,
                                            tg_id,
                                            decode_utf8(nb),
                                            (c + 1) as u32,
                                            corner,
                                        )) || r == Err::<RegisterResult, StorageError>(
                                            StorageError::Io,
                                        )
                                    },
                                }
                            })
                        }),
                        RegisterResult::TooShortName => false,
                    }
                })
            }),
            r matches Ok(RegisterResult::Succes(_)) && crate::repos::chats_wf(old(self)@.chats)
                && crate::repos::user_ids_bounded(old(self)@.chats, old(self)@.stats)
                ==> crate::repos::chats_wf(final(self)@.chats) && crate::repos::user_ids_bounded(
                final(self)@.chats,
                final(self)@.stats,
            ),
    {
        broadcast use vstd::utf8::encode_utf8_decode_utf8;

        let pbs = code_and_name.as_bytes();
        if pbs.len() < INVITE_LEN + 1 {
            return Ok(RegisterResult::TooShortName);
        }
        if !code_and_name.is_char_boundary(INVITE_LEN + 1) {
            return Err(StorageError::BadPayload);
        }
        let key = vstd::slice::slice_subrange(pbs, 0, INVITE_LEN);
        let got = match self.invites.get(key) {
            Ok(g) => g,
            Err(e) => return Err(e),
        };
        let rec = match got {
            Option::None => {
                return Ok(RegisterResult::InviteNotFound);
            },
            Option::Some(v) => match InviteCode::from_val(v.as_slice()) {
                Option::None => {
                    return Err(StorageError::Corrupt);
                },
                Option::Some(rec) => {
                    proof {
                        lemma_dec_invite_encodable(v@);
                    }
                    rec
                },
            },
        };
        if rec.used {
            return Ok(RegisterResult::InviteUsed);
        }
        if (now as i128) - (rec.gen_date as i128) > DAY_SECONDS as i128 {
            return Ok(RegisterResult::InviteExpired);
        }
        let corner_id = rec.corner_id;
        // Everything that could refuse the registration is checked before
        // the first write, so a refusal leaves the store untouched.
        let pair = code_and_name.split_at(INVITE_LEN + 1);
        let name_part = pair.1;
        if name_part.len() as u64 >= 0x1_0000_0000u64 {
            return Err(StorageError::TooLarge);
        }
        let chat_key = Chat::key(tg_id);
        let taken = match self.chats.contains(chat_key.as_slice()) {
            Ok(b) => b,
            Err(e) => return Err(e),
        };
        if taken {
            return Err(StorageError::Conflict);
        }
        let ctr = match self.read_ctr(USER_CTR) {
            Ok(c) => c,
            Err(e) => return Err(e),
        };
        if ctr == u32::MAX {
            return Err(StorageError::Exhausted);
        }
        let uid = ctr + 1;
        // Commit point: consume the invite, bump the counter, store the account.
        let rec2 = InviteCode { used: true, ..rec };
        let v2 = match rec2.into_val() {
            Option::Some(v2) => v2,
            Option::None => {
                proof {
                    assert(false);
                }
                return Err(StorageError::Io);
            },
        };
        if let Err(e) = self.invites.put(key, v2.as_slice()) {
            return Err(e);
        }
        if let Err(e) = self.write_ctr(USER_CTR, uid) {
            return Err(e);
        }
        let user = User {
            id: uid,
            tg_id,
            name: name_part.to_owned(),
            corner_id,
            is_active: true,
            step: ChatStep::Start,
        };
        let uval = match user.into_val() {
            Option::Some(v) => v,
            Option::None => {
                proof {
                    assert(false);
                }
                return Err(StorageError::Io);
            },
        };
        if let Err(e) = self.chats.put(chat_key.as_slice(), uval.as_slice()) {
            return Err(e);
        }
        proof {
            if crate::repos::chats_wf(old(self)@.chats) && crate::repos::user_ids_bounded(
                old(self)@.chats,
                old(self)@.stats,
            ) {
                crate::repos::lemma_registered_preserves_wf(
                    old(self)@,
                    key@,
                    now,
                    tg_id,
                    name_part@,
                    uid,
                    corner_id,
                );
            }
        }
        Ok(RegisterResult::Succes(uid))
    }
}

// ---------------------------------------------------------------------------
// Laws of the lifecycle
// ---------------------------------------------------------------------------

/// A code redeemed within one day of issuance succeeds with the issuing
/// corner, and the record is re-written consumed.
pub proof fn lemma_redeem_after_issue(
    inv: Map<Seq<u8>, Seq<u8>>,
    code: Seq<char>,
    corner_id: u32,
    admin_id: u32,
    now: i64,
    now2: i64,
)
    requires
        str_encodable(code),
        now2 - now <= 86400,
    ensures
        ({
            let k = encode_utf8(code);
            let rec = InviteV { code, corner_id, admin_id, gen_date: now, used: false };
            let inv2 = inv.insert(k, spec_enc_invite(rec));
            &&& !spec_invite_corrupt(inv2, k)
            &&& spec_redeem_outcome(inv2, k, now2) == RegisterResult::Succes(corner_id)
            &&& spec_redeem_map(inv2, k, now2) == inv2.insert(k, spec_enc_invite(rec.consumed()))
        }),
{
    let k = encode_utf8(code);
    let rec = InviteV { code, corner_id, admin_id, gen_date: now, used: false };
    crate::entities::lemma_invite_roundtrip(rec);
}

/// Exactly-once consumption: once a redemption has succeeded, every later
/// redemption of the same code reports `InviteUsed`, at any clock reading,
/// and leaves the store unchanged. Since the store is accessed under `&mut`,
/// two concurrent redemption attempts are serialized in some order, so at
/// most one of them can ever report success.
pub proof fn lemma_redeem_twice(inv: Map<Seq<u8>, Seq<u8>>, k: Seq<u8>, now: i64, now2: i64)
    requires
        !spec_invite_corrupt(inv, k),
        spec_redeem_outcome(inv, k, now) matches RegisterResult::Succes(_),
    ensures
        ({
            let inv2 = spec_redeem_map(inv, k, now);
            &&& !spec_invite_corrupt(inv2, k)
            &&& spec_redeem_outcome(inv2, k, now2) == RegisterResult::InviteUsed
            &&& spec_redeem_map(inv2, k, now2) == inv2
        }),
{
    let rec = spec_dec_invite(inv[k]).unwrap();
    lemma_dec_invite_encodable(inv[k]);
    crate::entities::lemma_invite_roundtrip(rec.consumed());
}

/// An unused record more than one day old reports `InviteExpired`, without
/// effect, and an immediate retry reports `InviteExpired` again: expiry is
/// evaluated, never persisted, and never turns into success.
pub proof fn lemma_redeem_expired(
    inv: Map<Seq<u8>, Seq<u8>>,
    k: Seq<u8>,
    now: i64,
    now2: i64,
)
    requires
        !spec_invite_corrupt(inv, k),
        spec_invite_rec(inv, k) matches Some(rec) && !rec.used && spec_expired(rec.gen_date, now)
            && spec_expired(rec.gen_date, now2),
    ensures
        spec_redeem_outcome(inv, k, now) == RegisterResult::InviteExpired,
        spec_redeem_map(inv, k, now) == inv,
        spec_redeem_outcome(spec_redeem_map(inv, k, now), k, now2)
            == RegisterResult::InviteExpired,
{
}

/// A code never stored reports `InviteNotFound`, without effect.
pub proof fn lemma_redeem_unknown(inv: Map<Seq<u8>, Seq<u8>>, k: Seq<u8>, now: i64)
    requires
        !inv.contains_key(k),
    ensures
        !spec_invite_corrupt(inv, k),
        spec_redeem_outcome(inv, k, now) == RegisterResult::InviteNotFound,
        spec_redeem_map(inv, k, now) == inv,
{
}

} // verus!
