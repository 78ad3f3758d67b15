//! Entity records and their binary forms.
//!
//! Each stored entity owns its key-encoding scheme and a canonical value
//! encoding built from the codec primitives. Decoding an encoding is proved
//! to give back the value, and every decoder rejects trailing bytes, so a
//! stored value has exactly one reading.
#![allow(unused_imports)]
use vstd::prelude::*;
use vstd::utf8::{decode_utf8, encode_utf8, valid_utf8};
use crate::codec::{
    lemma_dec_enc_bool, lemma_dec_enc_i64, lemma_dec_enc_opt_string, lemma_dec_enc_string, lemma_dec_enc_u32,
    opt_str_encodable, push_be4, push_be8, push_bool, push_i64, push_opt_string, push_string,
    read_bool, read_i64, read_opt_string, read_string, read_u32, spec_be4, spec_be8,
    spec_dec_bool, spec_dec_i64, spec_dec_opt_string, spec_dec_string, spec_dec_u32,
    spec_enc_bool, spec_enc_i64, spec_enc_opt_string, spec_enc_string, str_encodable,
};

verus! {

// ---------------------------------------------------------------------------
// Conversational step
// ---------------------------------------------------------------------------

/// The conversational state of a chat-bound account.
#[derive(Clone, Copy, Debug, PartialEq, Eq, Structural)]
pub enum ChatStep {
    Start,
    NotRegister,
    Deactive,
}

/// The byte a conversational step is stored as.
pub open spec fn spec_step_byte(s: ChatStep) -> u8 {
    match s {
        ChatStep::Start => 0u8,
        ChatStep::NotRegister => 1u8,
        ChatStep::Deactive => 2u8,
    }
}

/// Encoding of a conversational step: one byte.
pub open spec fn spec_enc_step(s: ChatStep) -> Seq<u8> {
    seq![spec_step_byte(s)]
}

/// Reads a conversational step from the front of `b`.
pub open spec fn spec_dec_step(b: Seq<u8>) -> Option<(ChatStep, Seq<u8>)> {
    if b.len() >= 1 {
        if b[0] == 0 {
            Option::Some((ChatStep::Start, b.skip(1)))
        } else if b[0] == 1 {
            Option::Some((ChatStep::NotRegister, b.skip(1)))
        } else if b[0] == 2 {
            Option::Some((ChatStep::Deactive, b.skip(1)))
        } else {
            Option::None
        }
    } else {
        Option::None
    }
}

/// Decoding a step encoding yields the step and the rest.
pub proof fn lemma_dec_enc_step(s: ChatStep, rest: Seq<u8>)
    ensures
        spec_dec_step(spec_enc_step(s) + rest) == Option::Some((s, rest)),
{
    assert((spec_enc_step(s) + rest).skip(1) =~= rest);
}

/// Appends the step byte to `out`.
pub fn push_step(out: &mut Vec<u8>, s: ChatStep)
    ensures
        final(out)@ == old(out)@ + spec_enc_step(s),
{
    let b: u8 = match s {
        ChatStep::Start => 0u8,
        ChatStep::NotRegister => 1u8,
        ChatStep::Deactive => 2u8,
    };
    out.push(b);
    assert(out@ =~= old(out)@ + spec_enc_step(s));
}

/// Reads a step byte at `pos`.
pub fn read_step(b: &[u8], pos: usize) -> (r: Option<(ChatStep, usize)>)
    requires
        pos <= b@.len(),
    ensures
        match r {
            Option::Some(p) => pos < p.1 <= b@.len() && spec_dec_step(b@.skip(pos as int))
                == Option::Some((p.0, b@.skip(p.1 as int))),
            Option::None => spec_dec_step(b@.skip(pos as int)) is None,
        },
{
    let ghost s = b@.skip(pos as int);
    if b.len() - pos >= 1 {
        let t = b[pos];
        proof {
            assert(s.skip(1) =~= b@.skip(pos as int + 1));
        }
        if t == 0 {
            Some((ChatStep::Start, pos + 1))
        } else if t == 1 {
            Some((ChatStep::NotRegister, pos + 1))
        } else if t == 2 {
            Some((ChatStep::Deactive, pos + 1))
        } else {
            None
        }
    } else {
        None
    }
}

// ---------------------------------------------------------------------------
// Revenue
// ---------------------------------------------------------------------------

/// A revenue record: an amount in the smallest currency unit, posted for a
/// corner by a user. Amounts are unsigned, so non-negativity always holds.
#[derive(Clone, Debug, PartialEq, Eq)]
pub struct Revenue {
    pub id: u32,
    pub corner_id: u32,
    pub date: u32,
    pub amount: u32,
    pub post_datetime: u32,
    pub user_id: u32,
    pub comment: Option<String>,
}

/// The mathematical image of a revenue record.
pub ghost struct RevenueV {
    pub id: u32,
    pub corner_id: u32,
    pub date: u32,
    pub amount: u32,
    pub post_datetime: u32,
    pub user_id: u32,
    pub comment: Option<Seq<char>>,
}

impl View for Revenue {
    type V = RevenueV;

    open spec fn view(&self) -> RevenueV {
        RevenueV {
            id: self.id,
            corner_id: self.corner_id,
            date: self.date,
            amount: self.amount,
            post_datetime: self.post_datetime,
            user_id: self.user_id,
            comment: match self.comment {
                Option::None => Option::None,
                Option::Some(s) => Option::Some(s@),
            },
        }
    }
}

/// A revenue record whose comment fits the length prefix.
pub open spec fn revenue_encodable(v: RevenueV) -> bool {
    opt_str_encodable(v.comment)
}

/// Canonical encoding of a revenue record.
pub open spec fn spec_enc_revenue(v: RevenueV) -> Seq<u8> {
    spec_be4(v.id) + spec_be4(v.corner_id) + spec_be4(v.date) + spec_be4(v.amount) + spec_be4(
        v.post_datetime,
    ) + spec_be4(v.user_id) + spec_enc_opt_string(v.comment)
}

/// The one reading of a byte string as a revenue record, if any.
pub open spec fn spec_dec_revenue(b: Seq<u8>) -> Option<RevenueV> {
    match spec_dec_u32(b) {
        Option::None => Option::None,
        Option::Some((id, r1)) => match spec_dec_u32(r1) {
            Option::None => Option::None,
            Option::Some((corner_id, r2)) => match spec_dec_u32(r2) {
                Option::None => Option::None,
                Option::Some((date, r3)) => match spec_dec_u32(r3) {
                    Option::None => Option::None,
                    Option::Some((amount, r4)) => match spec_dec_u32(r4) {
                        Option::None => Option::None,
                        Option::Some((post_datetime, r5)) => match spec_dec_u32(r5) {
                            Option::None => Option::None,
                            Option::Some((user_id, r6)) => match spec_dec_opt_string(r6) {
                                Option::None => Option::None,
                                Option::Some((comment, r7)) => if r7.len() == 0 {
                                    Option::Some(
                                        RevenueV {
                                            id,
                                            corner_id,
                                            date,
                                            amount,
                                            post_datetime,
                                            user_id,
                                            comment,
                                        },
                                    )
                                } else {
                                    Option::None
                                },
                            },
                        },
                    },
                },
            },
        },
    }
}

/// Decoding the encoding of a revenue record yields that record.
pub proof fn lemma_revenue_roundtrip(v: RevenueV)
    requires
        revenue_encodable(v),
    ensures
        spec_dec_revenue(spec_enc_revenue(v)) == Option::Some(v),
{
    let t6 = spec_enc_opt_string(v.comment);
    let t5 = spec_be4(v.user_id) + t6;
    let t4 = spec_be4(v.post_datetime) + t5;
    let t3 = spec_be4(v.amount) + t4;
    let t2 = spec_be4(v.date) + t3;
    let t1 = spec_be4(v.corner_id) + t2;
    assert(spec_enc_revenue(v) =~= spec_be4(v.id) + t1);
    lemma_dec_enc_u32(v.id, t1);
    assert(t1 =~= spec_be4(v.corner_id) + t2);
    lemma_dec_enc_u32(v.corner_id, t2);
    lemma_dec_enc_u32(v.date, t3);
    lemma_dec_enc_u32(v.amount, t4);
    lemma_dec_enc_u32(v.post_datetime, t5);
    lemma_dec_enc_u32(v.user_id, t6);
    assert(t6 =~= spec_enc_opt_string(v.comment) + Seq::<u8>::empty());
    lemma_dec_enc_opt_string(v.comment, Seq::<u8>::empty());
}

impl Revenue {
    /// The composite key of a revenue record: the date, then the corner, each
    /// four big-endian bytes, so that byte order sorts by date then corner.
    pub open spec fn spec_key(date: u32, corner_id: u32) -> Seq<u8> {
        spec_be4(date) + spec_be4(corner_id)
    }

    /// Builds the composite key for a date and a corner.
    pub fn key(date: u32, corner_id: u32) -> (k: Vec<u8>)
        ensures
            k@ == Self::spec_key(date, corner_id),
    {
        let mut out: Vec<u8> = Vec::new();
        push_be4(&mut out, date);
        push_be4(&mut out, corner_id);
        assert(out@ =~= Self::spec_key(date, corner_id));
        out
    }

    /// The key of this record.
    pub fn into_key(&self) -> (k: Vec<u8>)
        ensures
            k@ == Self::spec_key(self.date, self.corner_id),
    {
        Self::key(self.date, self.corner_id)
    }

    /// Encodes this record; fails only when the comment is too long to encode.
    pub fn into_val(&self) -> (r: Option<Vec<u8>>)
        ensures
            match r {
                Option::Some(v) => revenue_encodable(self@) && v@ == spec_enc_revenue(self@),
                Option::None => !revenue_encodable(self@),
            },
    {
        let mut out: Vec<u8> = Vec::new();
        push_be4(&mut out, self.id);
        push_be4(&mut out, self.corner_id);
        push_be4(&mut out, self.date);
        push_be4(&mut out, self.amount);
        push_be4(&mut out, self.post_datetime);
        push_be4(&mut out, self.user_id);
        let ok = push_opt_string(&mut out, &self.comment, Ghost(self@.comment));
        if ok {
            assert(out@ =~= spec_enc_revenue(self@));
            Some(out)
        } else {
            None
        }
    }

    /// Decodes a record; fails exactly when the bytes are not an encoding.
    pub fn from_val(b: &[u8]) -> (r: Option<Revenue>)
        ensures
            match r {
                Option::Some(x) => spec_dec_revenue(b@) == Option::Some(x@),
                Option::None => spec_dec_revenue(b@) is None,
            },
    {
        proof {
            assert(b@.skip(0) =~= b@);
        }
        let r1 = read_u32(b, 0);
        if r1.is_none() {
            return None;
        }
        let (id, p1) = r1.unwrap();
        let r2 = read_u32(b, p1);
        if r2.is_none() {
            return None;
        }
        let (corner_id, p2) = r2.unwrap();
        let r3 = read_u32(b, p2);
        if r3.is_none() {
            return None;
        }
        let (date, p3) = r3.unwrap();
        let r4 = read_u32(b, p3);
        if r4.is_none() {
            return None;
        }
        let (amount, p4) = r4.unwrap();
        let r5 = read_u32(b, p4);
        if r5.is_none() {
            return None;
        }
        let (post_datetime, p5) = r5.unwrap();
        let r6 = read_u32(b, p5);
        if r6.is_none() {
            return None;
        }
        let (user_id, p6) = r6.unwrap();
        let r7 = read_opt_string(b, p6);
        if r7.is_none() {
            return None;
        }
        let (comment, p7) = r7.unwrap();
        if p7 != b.len() {
            return None;
        }
        assert(b@.skip(p7 as int).len() == 0);
        Some(Revenue { id, corner_id, date, amount, post_datetime, user_id, comment })
    }
}

// ---------------------------------------------------------------------------
// User (chat-bound account)
// ---------------------------------------------------------------------------

/// A chat-bound account, stored in the chats collection under its external
/// chat identifier.
#[derive(Clone, Debug, PartialEq, Eq)]
pub struct User {
    pub id: u32,
    pub tg_id: i64,
    pub name: String,
    pub corner_id: u32,
    pub is_active: bool,
    pub step: ChatStep,
}

/// The mathematical image of a chat-bound account.
pub ghost struct UserV {
    pub id: u32,
    pub tg_id: i64,
    pub name: Seq<char>,
    pub corner_id: u32,
    pub is_active: bool,
    pub step: ChatStep,
}

impl View for User {
    type V = UserV;

    open spec fn view(&self) -> UserV {
        UserV {
            id: self.id,
            tg_id: self.tg_id,
            name: self.name@,
            corner_id: self.corner_id,
            is_active: self.is_active,
            step: self.step,
        }
    }
}

/// An account whose name fits the length prefix.
pub open spec fn user_encodable(v: UserV) -> bool {
    str_encodable(v.name)
}

/// Canonical encoding of a chat-bound account.
pub open spec fn spec_enc_user(v: UserV) -> Seq<u8> {
    spec_be4(v.id) + spec_enc_i64(v.tg_id) + spec_enc_string(v.name) + spec_be4(v.corner_id)
        + spec_enc_bool(v.is_active) + spec_enc_step(v.step)
}

/// The one reading of a byte string as a chat-bound account, if any.
pub open spec fn spec_dec_user(b: Seq<u8>) -> Option<UserV> {
    match spec_dec_u32(b) {
        Option::None => Option::None,
        Option::Some((id, r1)) => match spec_dec_i64(r1) {
            Option::None => Option::None,
            Option::Some((tg_id, r2)) => match spec_dec_string(r2) {
                Option::None => Option::None,
                Option::Some((name, r3)) => match spec_dec_u32(r3) {
                    Option::None => Option::None,
                    Option::Some((corner_id, r4)) => match spec_dec_bool(r4) {
                        Option::None => Option::None,
                        Option::Some((is_active, r5)) => match spec_dec_step(r5) {
                            Option::None => Option::None,
                            Option::Some((step, r6)) => if r6.len() == 0 {
                                Option::Some(UserV { id, tg_id, name, corner_id, is_active, step })
                            } else {
                                Option::None
                            },
                        },
                    },
                },
            },
        },
    }
}

/// Decoding the encoding of an account yields that account.
pub proof fn lemma_user_roundtrip(v: UserV)
    requires
        user_encodable(v),
    ensures
        spec_dec_user(spec_enc_user(v)) == Option::Some(v),
{
    let t5 = spec_enc_step(v.step);
    let t4 = spec_enc_bool(v.is_active) + t5;
    let t3 = spec_be4(v.corner_id) + t4;
    let t2 = spec_enc_string(v.name) + t3;
    let t1 = spec_enc_i64(v.tg_id) + t2;
    assert(spec_enc_user(v) =~= spec_be4(v.id) + t1);
    lemma_dec_enc_u32(v.id, t1);
    lemma_dec_enc_i64(v.tg_id, t2);
    lemma_dec_enc_string(v.name, t3);
    lemma_dec_enc_u32(v.corner_id, t4);
    lemma_dec_enc_bool(v.is_active, t5);
    assert(t5 =~= spec_enc_step(v.step) + Seq::<u8>::empty());
    lemma_dec_enc_step(v.step, Seq::<u8>::empty());
}

impl User {
    /// Encodes this account; fails only when the name is too long to encode.
    pub fn into_val(&self) -> (r: Option<Vec<u8>>)
        ensures
            match r {
                Option::Some(v) => user_encodable(self@) && v@ == spec_enc_user(self@),
                Option::None => !user_encodable(self@),
            },
    {
        let mut out: Vec<u8> = Vec::new();
        push_be4(&mut out, self.id);
        push_i64(&mut out, self.tg_id);
        let ok = push_string(&mut out, self.name.as_str());
        if !ok {
            return None;
        }
        push_be4(&mut out, self.corner_id);
        push_bool(&mut out, self.is_active);
        push_step(&mut out, self.step);
        assert(out@ =~= spec_enc_user(self@));
        Some(out)
    }

    /// Decodes an account; fails exactly when the bytes are not an encoding.
    pub fn from_val(b: &[u8]) -> (r: Option<User>)
        ensures
            match r {
                Option::Some(x) => spec_dec_user(b@) == Option::Some(x@),
                Option::None => spec_dec_user(b@) is None,
            },
    {
        proof {
            assert(b@.skip(0) =~= b@);
        }
        let r1 = read_u32(b, 0);
        if r1.is_none() {
            return None;
        }
        let (id, p1) = r1.unwrap();
        let r2 = read_i64(b, p1);
        if r2.is_none() {
            return None;
        }
        let (tg_id, p2) = r2.unwrap();
        let r3 = read_string(b, p2);
        if r3.is_none() {
            return None;
        }
        let (name, p3) = r3.unwrap();
        let r4 = read_u32(b, p3);
        if r4.is_none() {
            return None;
        }
        let (corner_id, p4) = r4.unwrap();
        let r5 = read_bool(b, p4);
        if r5.is_none() {
            return None;
        }
        let (is_active, p5) = r5.unwrap();
        let r6 = read_step(b, p5);
        if r6.is_none() {
            return None;
        }
        let (step, p6) = r6.unwrap();
        if p6 != b.len() {
            return None;
        }
        assert(b@.skip(p6 as int).len() == 0);
        Some(User { id, tg_id, name, corner_id, is_active, step })
    }
}

// ---------------------------------------------------------------------------
// Chat state (the per-chat projection of an account)
// ---------------------------------------------------------------------------

/// What every inbound message needs to know of a chat: the owning corner,
/// the cached display name, and whether the account is active.
#[derive(Clone, Debug, PartialEq, Eq)]
pub struct Chat {
    pub corner_id: u32,
    pub name: String,
    pub is_active: bool,
}

/// The mathematical image of a chat state.
pub ghost struct ChatV {
    pub corner_id: u32,
    pub name: Seq<char>,
    pub is_active: bool,
}

impl View for Chat {
    type V = ChatV;

    open spec fn view(&self) -> ChatV {
        ChatV { corner_id: self.corner_id, name: self.name@, is_active: self.is_active }
    }
}

/// The chat-state projection of a stored account.
pub open spec fn spec_chat_of_user(u: UserV) -> ChatV {
    ChatV { corner_id: u.corner_id, name: u.name, is_active: u.is_active }
}

impl Chat {
    /// The key of a chat record: the external chat identifier,
    /// eight big-endian bytes of its two's-complement image.
    pub open spec fn spec_key(chat_id: i64) -> Seq<u8> {
        spec_be8(chat_id as u64)
    }

    /// Builds the key for an external chat identifier.
    pub fn key(chat_id: i64) -> (k: Vec<u8>)
        ensures
            k@ == Self::spec_key(chat_id),
    {
        let u: u64 = #[verifier::truncate] (chat_id as u64);
        let mut out: Vec<u8> = Vec::new();
        push_be8(&mut out, u);
        assert(out@ =~= Self::spec_key(chat_id));
        out
    }
}

// ---------------------------------------------------------------------------
// Corner
// ---------------------------------------------------------------------------

/// An organizational unit: a unique numeric id, a unique display name, and
/// an optional short tag, unique when present.
#[derive(Clone, Debug, PartialEq, Eq)]
pub struct Corner {
    pub id: u32,
    pub name: String,
    pub tag: Option<String>,
}

/// The mathematical image of a corner.
pub ghost struct CornerV {
    pub id: u32,
    pub name: Seq<char>,
    pub tag: Option<Seq<char>>,
}

impl View for Corner {
    type V = CornerV;

    open spec fn view(&self) -> CornerV {
        CornerV {
            id: self.id,
            name: self.name@,
            tag: match self.tag {
                Option::None => Option::None,
                Option::Some(t) => Option::Some(t@),
            },
        }
    }
}

/// A corner whose name and tag fit their length prefixes.
pub open spec fn corner_encodable(v: CornerV) -> bool {
    str_encodable(v.name) && opt_str_encodable(v.tag)
}

/// Canonical encoding of a corner.
pub open spec fn spec_enc_corner(v: CornerV) -> Seq<u8> {
    spec_be4(v.id) + spec_enc_string(v.name) + spec_enc_opt_string(v.tag)
}

/// The one reading of a byte string as a corner, if any.
pub open spec fn spec_dec_corner(b: Seq<u8>) -> Option<CornerV> {
    match spec_dec_u32(b) {
        Option::None => Option::None,
        Option::Some((id, r1)) => match spec_dec_string(r1) {
            Option::None => Option::None,
            Option::Some((name, r2)) => match spec_dec_opt_string(r2) {
                Option::None => Option::None,
                Option::Some((tag, r3)) => if r3.len() == 0 {
                    Option::Some(CornerV { id, name, tag })
                } else {
                    Option::None
                },
            },
        },
    }
}

/// Decoding the encoding of a corner yields that corner.
pub proof fn lemma_corner_roundtrip(v: CornerV)
    requires
        corner_encodable(v),
    ensures
        spec_dec_corner(spec_enc_corner(v)) == Option::Some(v),
{
    let t2 = spec_enc_opt_string(v.tag);
    let t1 = spec_enc_string(v.name) + t2;
    assert(spec_enc_corner(v) =~= spec_be4(v.id) + t1);
    lemma_dec_enc_u32(v.id, t1);
    lemma_dec_enc_string(v.name, t2);
    assert(t2 =~= spec_enc_opt_string(v.tag) + Seq::<u8>::empty());
    lemma_dec_enc_opt_string(v.tag, Seq::<u8>::empty());
}

impl Corner {
    /// The key of a corner: its id, four big-endian bytes.
    pub open spec fn spec_key(id: u32) -> Seq<u8> {
        spec_be4(id)
    }

    /// Builds the key for a corner id.
    pub fn key(id: u32) -> (k: Vec<u8>)
        ensures
            k@ == Self::spec_key(id),
    {
        let mut out: Vec<u8> = Vec::new();
        push_be4(&mut out, id);
        out
    }

    /// The key of this corner.
    pub fn into_key(&self) -> (k: Vec<u8>)
        ensures
            k@ == Self::spec_key(self.id),
    {
        Self::key(self.id)
    }

    /// Encodes this corner; fails only when a field is too long to encode.
    pub fn into_val(&self) -> (r: Option<Vec<u8>>)
        ensures
            match r {
                Option::Some(v) => corner_encodable(self@) && v@ == spec_enc_corner(self@),
                Option::None => !corner_encodable(self@),
            },
    {
        let mut out: Vec<u8> = Vec::new();
        push_be4(&mut out, self.id);
        let ok = push_string(&mut out, self.name.as_str());
        if !ok {
            return None;
        }
        let ok2 = push_opt_string(&mut out, &self.tag, Ghost(self@.tag));
        if !ok2 {
            return None;
        }
        assert(out@ =~= spec_enc_corner(self@));
        Some(out)
    }

    /// Decodes a corner; fails exactly when the bytes are not an encoding.
    pub fn from_val(b: &[u8]) -> (r: Option<Corner>)
        ensures
            match r {
                Option::Some(x) => spec_dec_corner(b@) == Option::Some(x@),
                Option::None => spec_dec_corner(b@) is None,
            },
    {
        proof {
            assert(b@.skip(0) =~= b@);
        }
        let r1 = read_u32(b, 0);
        if r1.is_none() {
            return None;
        }
        let (id, p1) = r1.unwrap();
        let r2 = read_string(b, p1);
        if r2.is_none() {
            return None;
        }
        let (name, p2) = r2.unwrap();
        let r3 = read_opt_string(b, p2);
        if r3.is_none() {
            return None;
        }
        let (tag, p3) = r3.unwrap();
        if p3 != b.len() {
            return None;
        }
        assert(b@.skip(p3 as int).len() == 0);
        Some(Corner { id, name, tag })
    }
}

// ---------------------------------------------------------------------------
// Invite code
// ---------------------------------------------------------------------------

/// A single-use, time-limited credential scoped to one corner. The code
/// string is the primary key; the record remains as an audit trail after
/// it is consumed or expires.
#[derive(Clone, Debug, PartialEq, Eq)]
pub struct InviteCode {
    pub code: String,
    pub corner_id: u32,
    pub admin_id: u32,
    pub gen_date: i64,
    pub used: bool,
}

/// The mathematical image of an invite code.
pub ghost struct InviteV {
    pub code: Seq<char>,
    pub corner_id: u32,
    pub admin_id: u32,
    pub gen_date: i64,
    pub used: bool,
}

impl View for InviteCode {
    type V = InviteV;

    open spec fn view(&self) -> InviteV {
        InviteV {
            code: self.code@,
            corner_id: self.corner_id,
            admin_id: self.admin_id,
            gen_date: self.gen_date,
            used: self.used,
        }
    }
}

impl InviteV {
    /// The same record with the used flag set: the one transition a stored
    /// invite record ever makes.
    pub open spec fn consumed(self) -> InviteV {
        InviteV {
            code: self.code,
            corner_id: self.corner_id,
            admin_id: self.admin_id,
            gen_date: self.gen_date,
            used: true,
        }
    }
}

/// An invite record whose code fits the length prefix.
pub open spec fn invite_encodable(v: InviteV) -> bool {
    str_encodable(v.code)
}

/// Canonical encoding of an invite record.
pub open spec fn spec_enc_invite(v: InviteV) -> Seq<u8> {
    spec_enc_string(v.code) + spec_be4(v.corner_id) + spec_be4(v.admin_id) + spec_enc_i64(
        v.gen_date,
    ) + spec_enc_bool(v.used)
}

/// The one reading of a byte string as an invite record, if any.
pub open spec fn spec_dec_invite(b: Seq<u8>) -> Option<InviteV> {
    match spec_dec_string(b) {
        Option::None => Option::None,
        Option::Some((code, r1)) => match spec_dec_u32(r1) {
            Option::None => Option::None,
            Option::Some((corner_id, r2)) => match spec_dec_u32(r2) {
                Option::None => Option::None,
                Option::Some((admin_id, r3)) => match spec_dec_i64(r3) {
                    Option::None => Option::None,
                    Option::Some((gen_date, r4)) => match spec_dec_bool(r4) {
                        Option::None => Option::None,
                        Option::Some((used, r5)) => if r5.len() == 0 {
                            Option::Some(InviteV { code, corner_id, admin_id, gen_date, used })
                        } else {
                            Option::None
                        },
                    },
                },
            },
        },
    }
}

/// Decoding the encoding of an invite record yields that record.
pub proof fn lemma_invite_roundtrip(v: InviteV)
    requires
        invite_encodable(v),
    ensures
        spec_dec_invite(spec_enc_invite(v)) == Option::Some(v),
{
    let t4 = spec_enc_bool(v.used);
    let t3 = spec_enc_i64(v.gen_date) + t4;
    let t2 = spec_be4(v.admin_id) + t3;
    let t1 = spec_be4(v.corner_id) + t2;
    assert(spec_enc_invite(v) =~= spec_enc_string(v.code) + t1);
    lemma_dec_enc_string(v.code, t1);
    lemma_dec_enc_u32(v.corner_id, t2);
    lemma_dec_enc_u32(v.admin_id, t3);
    lemma_dec_enc_i64(v.gen_date, t4);
    assert(t4 =~= spec_enc_bool(v.used) + Seq::<u8>::empty());
    lemma_dec_enc_bool(v.used, Seq::<u8>::empty());
}

impl InviteCode {
    /// The key of an invite record: the raw bytes of its code string.
    pub open spec fn spec_key(code: Seq<char>) -> Seq<u8> {
        encode_utf8(code)
    }

    /// Builds the key for a code string.
    pub fn key(code: &str) -> (k: Vec<u8>)
        ensures
            k@ == Self::spec_key(code@),
    {
        let bs = code.as_bytes();
        vstd::slice::slice_to_vec(bs)
    }

    /// The key of this record.
    pub fn into_key(&self) -> (k: Vec<u8>)
        ensures
            k@ == Self::spec_key(self.code@),
    {
        Self::key(self.code.as_str())
    }

    /// Encodes this record; fails only when the code is too long to encode.
    pub fn into_val(&self) -> (r: Option<Vec<u8>>)
        ensures
            match r {
                Option::Some(v) => invite_encodable(self@) && v@ == spec_enc_invite(self@),
                Option::None => !invite_encodable(self@),
            },
    {
        let mut out: Vec<u8> = Vec::new();
        let ok = push_string(&mut out, self.code.as_str());
        if !ok {
            return None;
        }
        push_be4(&mut out, self.corner_id);
        push_be4(&mut out, self.admin_id);
        push_i64(&mut out, self.gen_date);
        push_bool(&mut out, self.used);
        assert(out@ =~= spec_enc_invite(self@));
        Some(out)
    }

    /// Decodes a record; fails exactly when the bytes are not an encoding.
    pub fn from_val(b: &[u8]) -> (r: Option<InviteCode>)
        ensures
            match r {
                Option::Some(x) => spec_dec_invite(b@) == Option::Some(x@),
                Option::None => spec_dec_invite(b@) is None,
            },
    {
        proof {
            assert(b@.skip(0) =~= b@);
        }
        let r1 = read_string(b, 0);
        if r1.is_none() {
            return None;
        }
        let (code, p1) = r1.unwrap();
        let r2 = read_u32(b, p1);
        if r2.is_none() {
            return None;
        }
        let (corner_id, p2) = r2.unwrap();
        let r3 = read_u32(b, p2);
        if r3.is_none() {
            return None;
        }
        let (admin_id, p3) = r3.unwrap();
        let r4 = read_i64(b, p3);
        if r4.is_none() {
            return None;
        }
        let (gen_date, p4) = r4.unwrap();
        let r5 = read_bool(b, p4);
        if r5.is_none() {
            return None;
        }
        let (used, p5) = r5.unwrap();
        if p5 != b.len() {
            return None;
        }
        assert(b@.skip(p5 as int).len() == 0);
        Some(InviteCode { code, corner_id, admin_id, gen_date, used })
    }
}

// ---------------------------------------------------------------------------
// Key schemes never collide
// ---------------------------------------------------------------------------

/// Distinct `(date, corner)` pairs have distinct revenue keys: one record
/// can never overwrite another's slot.
pub proof fn lemma_revenue_key_injective(d1: u32, c1: u32, d2: u32, c2: u32)
    ensures
        Revenue::spec_key(d1, c1) == Revenue::spec_key(d2, c2) ==> d1 == d2 && c1 == c2,
{
    if Revenue::spec_key(d1, c1) == Revenue::spec_key(d2, c2) {
        lemma_dec_enc_u32(d1, spec_be4(c1));
        lemma_dec_enc_u32(d2, spec_be4(c2));
        lemma_dec_enc_u32(c1, Seq::<u8>::empty());
        lemma_dec_enc_u32(c2, Seq::<u8>::empty());
        assert(spec_be4(c1) =~= spec_be4(c1) + Seq::<u8>::empty());
        assert(spec_be4(c2) =~= spec_be4(c2) + Seq::<u8>::empty());
    }
}

/// The composite revenue key sorts records by date, then corner: the
/// byte-lexicographic order of keys is exactly the numeric order of the
/// `(date, corner)` pairs, so a future range scan walks them in order.
pub proof fn lemma_revenue_key_order(d1: u32, c1: u32, d2: u32, c2: u32)
    ensures
        crate::codec::lex_less(Revenue::spec_key(d1, c1), Revenue::spec_key(d2, c2)) <==> (d1 < d2
            || (d1 == d2 && c1 < c2)),
{
    let k1 = Revenue::spec_key(d1, c1);
    let k2 = Revenue::spec_key(d2, c2);
    crate::codec::lemma_be4_order(d1, d2);
    crate::codec::lemma_be4_order(d2, d1);
    crate::codec::lemma_be4_order(c1, c2);
    crate::codec::lemma_be4_roundtrip(d1);
    crate::codec::lemma_be4_roundtrip(d2);
    if d1 == d2 {
        // Equal dates: the first four bytes agree, so the order is decided
        // by the corner bytes alone.
        assert(spec_be4(d1) =~= spec_be4(d2));
        lemma_lex_concat_equal_prefix(spec_be4(d1), spec_be4(c1), spec_be4(c2));
    } else {
        // Distinct dates: the first four bytes already decide the order,
        // and the corner bytes cannot matter.
        lemma_lex_concat_distinct_prefix(spec_be4(d1), spec_be4(c1), spec_be4(d2), spec_be4(c2));
        if d1 < d2 {
            assert(crate::codec::lex_less(k1, k2));
        } else {
            assert(crate::codec::lex_less(k2, k1));
            lemma_lex_asym(k2, k1);
        }
    }
}

/// Byte order never holds both ways round.
proof fn lemma_lex_asym(a: Seq<u8>, b: Seq<u8>)
    requires
        crate::codec::lex_less(a, b),
    ensures
        !crate::codec::lex_less(b, a),
    decreases a.len(),
{
    if a.len() > 0 && b.len() > 0 && a[0] == b[0] {
        lemma_lex_asym(a.skip(1), b.skip(1));
    }
}

/// Byte order under a shared prefix is the byte order of the suffixes.
proof fn lemma_lex_concat_equal_prefix(p: Seq<u8>, a: Seq<u8>, b: Seq<u8>)
    ensures
        crate::codec::lex_less(p + a, p + b) <==> crate::codec::lex_less(a, b),
    decreases p.len(),
{
    if p.len() == 0 {
        assert(p + a =~= a);
        assert(p + b =~= b);
    } else {
        assert((p + a).skip(1) =~= p.skip(1) + a);
        assert((p + b).skip(1) =~= p.skip(1) + b);
        assert((p + b).len() > 0);
        assert((p + a)[0] == p[0] && (p + b)[0] == p[0]);
        lemma_lex_concat_equal_prefix(p.skip(1), a, b);
    }
}

/// When two keys order one way on their four-byte prefixes, the whole keys
/// order the same way, whatever follows.
proof fn lemma_lex_concat_distinct_prefix(p1: Seq<u8>, a: Seq<u8>, p2: Seq<u8>, b: Seq<u8>)
    requires
        p1.len() == p2.len(),
    ensures
        crate::codec::lex_less(p1, p2) ==> crate::codec::lex_less(p1 + a, p2 + b),
        crate::codec::lex_less(p2, p1) ==> crate::codec::lex_less(p2 + b, p1 + a),
    decreases p1.len(),
{
    if p1.len() == 0 {
    } else {
        assert((p1 + a).skip(1) =~= p1.skip(1) + a);
        assert((p2 + b).skip(1) =~= p2.skip(1) + b);
        assert((p1 + a)[0] == p1[0] && (p2 + b)[0] == p2[0]);
        lemma_lex_concat_distinct_prefix(p1.skip(1), a, p2.skip(1), b);
    }
}

/// Distinct code strings have distinct invite keys: UTF-8 encoding is
/// injective, since decoding inverts it.
pub proof fn lemma_invite_key_injective(a: Seq<char>, b: Seq<char>)
    ensures
        InviteCode::spec_key(a) == InviteCode::spec_key(b) ==> a == b,
{
    broadcast use vstd::utf8::encode_utf8_decode_utf8;

    if InviteCode::spec_key(a) == InviteCode::spec_key(b) {
        assert(decode_utf8(encode_utf8(a)) == a);
        assert(decode_utf8(encode_utf8(b)) == b);
    }
}

/// Distinct chat identifiers have distinct chat keys.
pub proof fn lemma_chat_key_injective(a: i64, b: i64)
    ensures
        Chat::spec_key(a) == Chat::spec_key(b) ==> a == b,
{
    if Chat::spec_key(a) == Chat::spec_key(b) {
        crate::codec::lemma_be8_roundtrip(a as u64);
        crate::codec::lemma_be8_roundtrip(b as u64);
        assert(a as u64 == b as u64);
        assert(a == b) by (bit_vector)
            requires
                a as u64 == b as u64,
        ;
    }
}

// ---------------------------------------------------------------------------
// Redemption and registration outcomes
// ---------------------------------------------------------------------------

/// The outcome of redeeming an invite code or registering an account.
/// Every variant is an ordinary, expected result of the state machine.
#[derive(Clone, Copy, Debug, PartialEq, Eq, Structural)]
pub enum RegisterResult {
    /// Redemption: the owning corner id. Registration: the new account id.
    Succes(u32),
    InviteExpired,
    InviteUsed,
    InviteNotFound,
    TooShortName,
}

} // verus!
