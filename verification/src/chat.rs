//! Conversation data: the per-conversation configuration, the turns of a
//! conversation history, and their persisted record formats.

use crate::codec::{
    dec_i64, dec_i64_at, dec_opt_str, dec_opt_str_at, dec_opt_u16, dec_opt_u16_at, dec_opt_u32,
    dec_opt_u32_at, dec_str, dec_str_at, dec_u128, dec_u128_at, dec_u64, dec_u64_at, dec_u8,
    dec_u8_at, enc_i64, enc_opt_str, enc_opt_u16, enc_opt_u32, enc_str, enc_u128, enc_u64, enc_u8,
    lemma_concat_assoc, lemma_concat_split, lemma_dec_i64_at, lemma_dec_opt_str_at, lemma_dec_opt_u16_at,
    lemma_dec_opt_u32_at, lemma_dec_str_at, lemma_dec_u128_at, lemma_dec_u64_at, lemma_dec_u8_at,
    lemma_push_mid, spec_enc_i64, spec_enc_opt_str, spec_enc_opt_u16, spec_enc_opt_u32,
    spec_enc_str,
};
use vstd::bytes::*;
use vstd::prelude::*;
use vstd::utf8::encode_utf8;

verus! {

/// Who authored one turn of a conversation.
#[derive(Debug, Clone, Copy, PartialEq, Eq, Structural)]
pub enum ChatRole {
    User,
    Assistant,
}

/// One message of a conversation history.
#[derive(Debug)]
pub struct ChatMessage {
    pub role: ChatRole,
    pub content: String,
}

pub struct ChatMessageV {
    pub role: ChatRole,
    pub content: Seq<char>,
}

impl View for ChatMessage {
    type V = ChatMessageV;

    open spec fn view(&self) -> ChatMessageV {
        ChatMessageV { role: self.role, content: self.content@ }
    }
}

impl DeepView for ChatMessage {
    type V = ChatMessageV;

    open spec fn deep_view(&self) -> ChatMessageV {
        self.view()
    }
}

/// The stored configuration of one conversation. The sampling parameters
/// carry the untouched IEEE-754 bit pattern of the value the caller chose;
/// this core never computes with them, it only stores and forwards them.
/// `created_at` is a wall-clock timestamp in milliseconds.
#[derive(Debug)]
pub struct ChatConfig {
    pub uuid: u128,
    pub name: Option<String>,
    pub model: Option<String>,
    pub prompt: String,
    pub frequency_penalty: Option<u32>,
    pub presence_penalty: Option<u32>,
    pub max_tokens: Option<u16>,
    pub temperature: Option<u32>,
    pub top_p: Option<u32>,
    pub created_at: i64,
}

pub struct ChatConfigV {
    pub uuid: u128,
    pub name: Option<Seq<char>>,
    pub model: Option<Seq<char>>,
    pub prompt: Seq<char>,
    pub frequency_penalty: Option<u32>,
    pub presence_penalty: Option<u32>,
    pub max_tokens: Option<u16>,
    pub temperature: Option<u32>,
    pub top_p: Option<u32>,
    pub created_at: i64,
}

impl View for ChatConfig {
    type V = ChatConfigV;

    open spec fn view(&self) -> ChatConfigV {
        ChatConfigV {
            uuid: self.uuid,
            name: match self.name {
                Some(n) => Some(n@),
                None => None,
            },
            model: match self.model {
                Some(m) => Some(m@),
                None => None,
            },
            prompt: self.prompt@,
            frequency_penalty: self.frequency_penalty,
            presence_penalty: self.presence_penalty,
            max_tokens: self.max_tokens,
            temperature: self.temperature,
            top_p: self.top_p,
            created_at: self.created_at,
        }
    }
}

impl DeepView for ChatConfig {
    type V = ChatConfigV;

    open spec fn deep_view(&self) -> ChatConfigV {
        self.view()
    }
}

/// A configuration is kept and listed only while its model is chosen and it
/// has either a non-empty prompt or a name.
pub open spec fn spec_config_listable(c: ChatConfigV) -> bool {
    c.model is Some && (c.prompt.len() > 0 || c.name is Some)
}

impl ChatConfig {
    pub fn is_listable(&self) -> (r: bool)
        ensures
            r == spec_config_listable(self@),
    {
        self.model.is_some() && (!self.prompt.as_str().is_empty() || self.name.is_some())
    }
}

/// Relies on uuid::Uuid::new_v4 for a fresh random conversation id; nothing
/// is assumed of the value drawn.
#[verifier::external_body]
fn fresh_uuid() -> u128 {
    uuid::Uuid::new_v4().as_u128()
}

/// Relies on chrono::Utc::now for the current wall-clock time in
/// milliseconds; nothing is assumed of the value read.
#[verifier::external_body]
fn now_millis() -> i64 {
    chrono::Utc::now().timestamp_millis()
}

impl Default for ChatConfig {
    /// A fresh conversation: random id, current creation time, everything
    /// else unset.
    fn default() -> (r: Self)
        ensures
            r.name is None,
            r.model is None,
            r.prompt@ == Seq::<char>::empty(),
            r.frequency_penalty is None,
            r.presence_penalty is None,
            r.max_tokens is None,
            r.temperature is None,
            r.top_p is None,
    {
        ChatConfig {
            uuid: fresh_uuid(),
            name: None,
            model: None,
            prompt: String::new(),
            frequency_penalty: None,
            presence_penalty: None,
            max_tokens: None,
            temperature: None,
            top_p: None,
            created_at: now_millis(),
        }
    }
}

// ---------------------------------------------------------------------------
// record format of one message and of a whole history
// ---------------------------------------------------------------------------

pub open spec fn role_byte(r: ChatRole) -> u8 {
    match r {
        ChatRole::User => 0,
        ChatRole::Assistant => 1,
    }
}

pub open spec fn spec_enc_msg(m: ChatMessageV) -> Seq<u8> {
    seq![role_byte(m.role)] + spec_enc_str(m.content)
}

pub open spec fn dec_msg_at(s: Seq<u8>, pos: int) -> Option<(ChatMessageV, int)> {
    match dec_u8_at(s, pos) {
        Some((tag, p)) => if tag == 0 || tag == 1 {
            match dec_str_at(s, p) {
                Some((t, e)) => Some(
                    (
                        ChatMessageV {
                            role: if tag == 0 {
                                ChatRole::User
                            } else {
                                ChatRole::Assistant
                            },
                            content: t,
                        },
                        e,
                    ),
                ),
                None => None,
            }
        } else {
            None
        },
        None => None,
    }
}

pub fn enc_msg(buf: &mut Vec<u8>, m: &ChatMessage)
    ensures
        final(buf)@ == old(buf)@ + spec_enc_msg(m@),
{
    match m.role {
        ChatRole::User => enc_u8(buf, 0),
        ChatRole::Assistant => enc_u8(buf, 1),
    }
    enc_str(buf, m.content.as_str());
    proof {
        assert(final(buf)@ =~= old(buf)@ + spec_enc_msg(m@));
    }
}

pub fn dec_msg(data: &Vec<u8>, pos: usize) -> (r: Option<(ChatMessage, usize)>)
    ensures
        r is None <==> dec_msg_at(data@, pos as int) is None,
        r matches Some((m, e)) ==> dec_msg_at(data@, pos as int) == Some((m@, e as int)),
{
    match dec_u8(data, pos) {
        None => None,
        Some((tag, p)) => {
            if tag == 0 || tag == 1 {
                match dec_str(data, p) {
                    Some((t, e)) => Some(
                        (
                            ChatMessage {
                                role: if tag == 0 {
                                    ChatRole::User
                                } else {
                                    ChatRole::Assistant
                                },
                                content: t,
                            },
                            e,
                        ),
                    ),
                    None => None,
                }
            } else {
                None
            }
        },
    }
}

pub proof fn lemma_dec_msg_at(s: Seq<u8>, pos: int, m: ChatMessageV)
    requires
        0 <= pos,
        pos + spec_enc_msg(m).len() <= s.len(),
        s.subrange(pos, pos + spec_enc_msg(m).len() as int) == spec_enc_msg(m),
        encode_utf8(m.content).len() <= u64::MAX,
    ensures
        dec_msg_at(s, pos) == Some((m, pos + spec_enc_msg(m).len())),
{
    let a = seq![role_byte(m.role)];
    let b = spec_enc_str(m.content);
    lemma_concat_split(s, pos, a, b);
    lemma_dec_u8_at(s, pos, role_byte(m.role));
    lemma_dec_str_at(s, pos + 1, m.content);
}

pub open spec fn spec_enc_msgs(t: Seq<ChatMessageV>) -> Seq<u8>
    decreases t.len(),
{
    if t.len() == 0 {
        Seq::empty()
    } else {
        spec_enc_msg(t[0]) + spec_enc_msgs(t.drop_first())
    }
}

pub open spec fn msgs_encodable(t: Seq<ChatMessageV>) -> bool {
    forall|j: int| 0 <= j < t.len() ==> encode_utf8(#[trigger] t[j].content).len() <= u64::MAX
}

pub open spec fn dec_msgs_at(s: Seq<u8>, pos: int, n: nat) -> Option<(Seq<ChatMessageV>, int)>
    decreases n,
{
    if n == 0 {
        Some((Seq::empty(), pos))
    } else {
        match dec_msg_at(s, pos) {
            Some((m, p)) => match dec_msgs_at(s, p, (n - 1) as nat) {
                Some((rest, e)) => Some((seq![m] + rest, e)),
                None => None,
            },
            None => None,
        }
    }
}

/// A whole history record: the number of turns, then each turn in order.
pub open spec fn spec_enc_history(t: Seq<ChatMessageV>) -> Seq<u8> {
    spec_u64_to_le_bytes(t.len() as u64) + spec_enc_msgs(t)
}

pub open spec fn decoded_history(s: Seq<u8>) -> Option<Seq<ChatMessageV>> {
    match dec_u64_at(s, 0) {
        Some((n, p)) => match dec_msgs_at(s, p, n as nat) {
            Some((t, e)) => if e == s.len() {
                Some(t)
            } else {
                None
            },
            None => None,
        },
        None => None,
    }
}

pub proof fn lemma_enc_msgs_take_snoc(t: Seq<ChatMessageV>, i: int)
    requires
        0 <= i < t.len(),
    ensures
        spec_enc_msgs(t.take(i + 1)) == spec_enc_msgs(t.take(i)) + spec_enc_msg(t[i]),
    decreases i,
{
    if i == 0 {
        assert(t.take(1).drop_first() =~= Seq::<ChatMessageV>::empty());
        assert(t.take(0) =~= Seq::<ChatMessageV>::empty());
        assert(t.take(1)[0] == t[0]);
        assert(spec_enc_msgs(t.take(1)) =~= spec_enc_msgs(t.take(0)) + spec_enc_msg(t[0]));
    } else {
        let u = t.drop_first();
        assert(t.take(i + 1).drop_first() =~= u.take(i));
        assert(t.take(i).drop_first() =~= u.take(i - 1));
        assert(t.take(i + 1)[0] == t[0]);
        assert(t.take(i)[0] == t[0]);
        lemma_enc_msgs_take_snoc(u, i - 1);
        assert(u[i - 1] == t[i]);
        assert(spec_enc_msg(t[0]) + (spec_enc_msgs(u.take(i - 1)) + spec_enc_msg(t[i])) =~= (
        spec_enc_msg(t[0]) + spec_enc_msgs(u.take(i - 1))) + spec_enc_msg(t[i]));
    }
}

pub proof fn lemma_dec_msgs_at(s: Seq<u8>, pos: int, t: Seq<ChatMessageV>)
    requires
        0 <= pos,
        pos + spec_enc_msgs(t).len() <= s.len(),
        s.subrange(pos, pos + spec_enc_msgs(t).len() as int) == spec_enc_msgs(t),
        msgs_encodable(t),
    ensures
        dec_msgs_at(s, pos, t.len()) == Some((t, pos + spec_enc_msgs(t).len())),
    decreases t.len(),
{
    if t.len() == 0 {
        assert(t =~= Seq::<ChatMessageV>::empty());
    } else {
        let a = spec_enc_msg(t[0]);
        let b = spec_enc_msgs(t.drop_first());
        lemma_concat_split(s, pos, a, b);
        lemma_dec_msg_at(s, pos, t[0]);
        assert forall|j: int| 0 <= j < t.drop_first().len() implies encode_utf8(
            #[trigger] t.drop_first()[j].content,
        ).len() <= u64::MAX by {
            assert(t.drop_first()[j] == t[j + 1]);
        }
        lemma_dec_msgs_at(s, pos + a.len(), t.drop_first());
        assert(seq![t[0]] + t.drop_first() =~= t);
    }
}

/// Law: a stored history record decodes back to exactly the turns that were
/// encoded.
pub proof fn lemma_history_round_trip(t: Seq<ChatMessageV>)
    requires
        t.len() <= u64::MAX,
        msgs_encodable(t),
    ensures
        decoded_history(spec_enc_history(t)) == Some(t),
{
    let s = spec_enc_history(t);
    let a = spec_u64_to_le_bytes(t.len() as u64);
    let b = spec_enc_msgs(t);
    lemma_auto_spec_u64_to_from_le_bytes();
    assert(s.subrange(0, s.len() as int) =~= a + b);
    lemma_concat_split(s, 0, a, b);
    lemma_dec_u64_at(s, 0, t.len() as u64);
    lemma_dec_msgs_at(s, 8, t);
}

pub fn encode_history(msgs: &Vec<ChatMessage>) -> (r: Vec<u8>)
    ensures
        r@ == spec_enc_history(msgs.deep_view()),
{
    let ghost t = msgs.deep_view();
    let mut buf: Vec<u8> = Vec::new();
    enc_u64(&mut buf, msgs.len() as u64);
    let n = msgs.len();
    let mut i: usize = 0;
    while i < n
        invariant
            i <= n,
            n == msgs@.len(),
            t == msgs.deep_view(),
            buf@ == spec_u64_to_le_bytes(t.len() as u64) + spec_enc_msgs(t.take(i as int)),
        decreases n - i,
    {
        let m: &ChatMessage = &msgs[i];
        assert(m@ == t[i as int]);
        enc_msg(&mut buf, m);
        proof {
            lemma_enc_msgs_take_snoc(t, i as int);
            assert((spec_u64_to_le_bytes(t.len() as u64) + spec_enc_msgs(t.take(i as int)))
                + spec_enc_msg(t[i as int]) =~= spec_u64_to_le_bytes(t.len() as u64) + (
            spec_enc_msgs(t.take(i as int)) + spec_enc_msg(t[i as int])));
        }
        i = i + 1;
    }
    proof {
        assert(t.take(n as int) =~= t);
    }
    buf
}

pub fn decode_history(data: &Vec<u8>) -> (r: Option<Vec<ChatMessage>>)
    ensures
        r is None <==> decoded_history(data@) is None,
        r matches Some(v) ==> decoded_history(data@) == Some(v.deep_view()),
{
    match dec_u64(data, 0) {
        None => None,
        Some((n, p0)) => {
            let mut out: Vec<ChatMessage> = Vec::new();
            let mut pos: usize = p0;
            let mut i: u64 = 0;
            while i < n
                invariant
                    i <= n,
                    pos <= data@.len(),
                    out.deep_view().len() == i,
                    dec_u64_at(data@, 0) == Some((n, p0 as int)),
                    (match dec_msgs_at(data@, pos as int, (n - i) as nat) {
                        Some((rest, e)) => dec_msgs_at(data@, p0 as int, n as nat) == Some(
                            (out.deep_view() + rest, e),
                        ),
                        None => dec_msgs_at(data@, p0 as int, n as nat) is None,
                    }),
                decreases n - i,
            {
                match dec_msg(data, pos) {
                    None => {
                        return None;
                    },
                    Some((m, p2)) => {
                        proof {
                            let tail = dec_msgs_at(data@, p2 as int, (n - i - 1) as nat);
                            if tail is Some {
                                lemma_push_mid(out.deep_view(), m@, (tail->0).0);
                            }
                        }
                        out.push(m);
                        pos = p2;
                        i = i + 1;
                    },
                }
            }
            assert(dec_msgs_at(data@, pos as int, 0) == Some(
                (Seq::<ChatMessageV>::empty(), pos as int),
            ));
            assert(out.deep_view() + Seq::<ChatMessageV>::empty() =~= out.deep_view());
            if pos == data.len() {
                Some(out)
            } else {
                None
            }
        },
    }
}

// ---------------------------------------------------------------------------
// record format of one conversation configuration
// ---------------------------------------------------------------------------

pub open spec fn spec_enc_chat_config(c: ChatConfigV) -> Seq<u8> {
    spec_u128_to_le_bytes(c.uuid) + (spec_enc_opt_str(c.name) + (spec_enc_opt_str(c.model) + (
    spec_enc_str(c.prompt) + (spec_enc_opt_u32(c.frequency_penalty) + (spec_enc_opt_u32(
        c.presence_penalty,
    ) + (spec_enc_opt_u16(c.max_tokens) + (spec_enc_opt_u32(c.temperature) + (spec_enc_opt_u32(
        c.top_p,
    ) + spec_enc_i64(c.created_at)))))))))
}

pub open spec fn config_encodable(c: ChatConfigV) -> bool {
    &&& (c.name matches Some(t) ==> encode_utf8(t).len() <= u64::MAX)
    &&& (c.model matches Some(t) ==> encode_utf8(t).len() <= u64::MAX)
    &&& encode_utf8(c.prompt).len() <= u64::MAX
}

pub open spec fn dec_chat_config_at(s: Seq<u8>, pos: int) -> Option<(ChatConfigV, int)> {
    match dec_u128_at(s, pos) {
        None => None,
        Some((uuid, p1)) => match dec_opt_str_at(s, p1) {
            None => None,
            Some((name, p2)) => match dec_opt_str_at(s, p2) {
                None => None,
                Some((model, p3)) => match dec_str_at(s, p3) {
                    None => None,
                    Some((prompt, p4)) => match dec_opt_u32_at(s, p4) {
                        None => None,
                        Some((fp, p5)) => match dec_opt_u32_at(s, p5) {
                            None => None,
                            Some((pp, p6)) => match dec_opt_u16_at(s, p6) {
                                None => None,
                                Some((mt, p7)) => match dec_opt_u32_at(s, p7) {
                                    None => None,
                                    Some((temp, p8)) => match dec_opt_u32_at(s, p8) {
                                        None => None,
                                        Some((tp, p9)) => match dec_i64_at(s, p9) {
                                            None => None,
                                            Some((ts, e)) => Some(
                                                (
                                                    ChatConfigV {
                                                        uuid,
                                                        name,
                                                        model,
                                                        prompt,
                                                        frequency_penalty: fp,
                                                        presence_penalty: pp,
                                                        max_tokens: mt,
                                                        temperature: temp,
                                                        top_p: tp,
                                                        created_at: ts,
                                                    },
                                                    e,
                                                ),
                                            ),
                                        },
                                    },
                                },
                            },
                        },
                    },
                },
            },
        },
    }
}

pub open spec fn decoded_config(s: Seq<u8>) -> Option<ChatConfigV> {
    match dec_chat_config_at(s, 0) {
        Some((c, e)) => if e == s.len() {
            Some(c)
        } else {
            None
        },
        None => None,
    }
}

pub fn encode_chat_config(c: &ChatConfig) -> (r: Vec<u8>)
    ensures
        r@ == spec_enc_chat_config(c@),
{
    let mut buf: Vec<u8> = Vec::new();
    enc_u128(&mut buf, c.uuid);
    enc_opt_str(&mut buf, &c.name);
    enc_opt_str(&mut buf, &c.model);
    enc_str(&mut buf, c.prompt.as_str());
    enc_opt_u32(&mut buf, &c.frequency_penalty);
    enc_opt_u32(&mut buf, &c.presence_penalty);
    enc_opt_u16(&mut buf, &c.max_tokens);
    enc_opt_u32(&mut buf, &c.temperature);
    enc_opt_u32(&mut buf, &c.top_p);
    enc_i64(&mut buf, c.created_at);
    proof {
        let e0 = spec_u128_to_le_bytes(c@.uuid);
        let e1 = spec_enc_opt_str(c@.name);
        let e2 = spec_enc_opt_str(c@.model);
        let e3 = spec_enc_str(c@.prompt);
        let e4 = spec_enc_opt_u32(c@.frequency_penalty);
        let e5 = spec_enc_opt_u32(c@.presence_penalty);
        let e6 = spec_enc_opt_u16(c@.max_tokens);
        let e7 = spec_enc_opt_u32(c@.temperature);
        let e8 = spec_enc_opt_u32(c@.top_p);
        let e9 = spec_enc_i64(c@.created_at);
        assert(Seq::<u8>::empty() + e0 =~= e0);
        lemma_concat_assoc(((((((e0 + e1) + e2) + e3) + e4) + e5) + e6) + e7, e8, e9);
        lemma_concat_assoc((((((e0 + e1) + e2) + e3) + e4) + e5) + e6, e7, e8 + e9);
        lemma_concat_assoc(((((e0 + e1) + e2) + e3) + e4) + e5, e6, e7 + (e8 + e9));
        lemma_concat_assoc((((e0 + e1) + e2) + e3) + e4, e5, e6 + (e7 + (e8 + e9)));
        lemma_concat_assoc(((e0 + e1) + e2) + e3, e4, e5 + (e6 + (e7 + (e8 + e9))));
        lemma_concat_assoc((e0 + e1) + e2, e3, e4 + (e5 + (e6 + (e7 + (e8 + e9)))));
        lemma_concat_assoc(e0 + e1, e2, e3 + (e4 + (e5 + (e6 + (e7 + (e8 + e9))))));
        lemma_concat_assoc(e0, e1, e2 + (e3 + (e4 + (e5 + (e6 + (e7 + (e8 + e9)))))));
    }
    buf
}

pub fn decode_chat_config(data: &Vec<u8>) -> (r: Option<ChatConfig>)
    ensures
        r is None <==> decoded_config(data@) is None,
        r matches Some(c) ==> decoded_config(data@) == Some(c@),
{
    let step0 = dec_u128(data, 0);
    let (uuid, p1) = match step0 {
        Some(v) => v,
        None => {
            return None;
        },
    };
    let (name, p2) = match dec_opt_str(data, p1) {
        Some(v) => v,
        None => {
            return None;
        },
    };
    let (model, p3) = match dec_opt_str(data, p2) {
        Some(v) => v,
        None => {
            return None;
        },
    };
    let (prompt, p4) = match dec_str(data, p3) {
        Some(v) => v,
        None => {
            return None;
        },
    };
    let (fp, p5) = match dec_opt_u32(data, p4) {
        Some(v) => v,
        None => {
            return None;
        },
    };
    let (pp, p6) = match dec_opt_u32(data, p5) {
        Some(v) => v,
        None => {
            return None;
        },
    };
    let (mt, p7) = match dec_opt_u16(data, p6) {
        Some(v) => v,
        None => {
            return None;
        },
    };
    let (temp, p8) = match dec_opt_u32(data, p7) {
        Some(v) => v,
        None => {
            return None;
        },
    };
    let (tp, p9) = match dec_opt_u32(data, p8) {
        Some(v) => v,
        None => {
            return None;
        },
    };
    let (ts, e) = match dec_i64(data, p9) {
        Some(v) => v,
        None => {
            return None;
        },
    };
    if e == data.len() {
        Some(
            ChatConfig {
                uuid,
                name,
                model,
                prompt,
                frequency_penalty: fp,
                presence_penalty: pp,
                max_tokens: mt,
                temperature: temp,
                top_p: tp,
                created_at: ts,
            },
        )
    } else {
        None
    }
}

pub proof fn lemma_dec_chat_config_at(s: Seq<u8>, pos: int, c: ChatConfigV)
    requires
        0 <= pos,
        pos + spec_enc_chat_config(c).len() <= s.len(),
        s.subrange(pos, pos + spec_enc_chat_config(c).len() as int) == spec_enc_chat_config(c),
        config_encodable(c),
    ensures
        dec_chat_config_at(s, pos) == Some((c, pos + spec_enc_chat_config(c).len())),
{
    let e0 = spec_u128_to_le_bytes(c.uuid);
    let e1 = spec_enc_opt_str(c.name);
    let e2 = spec_enc_opt_str(c.model);
    let e3 = spec_enc_str(c.prompt);
    let e4 = spec_enc_opt_u32(c.frequency_penalty);
    let e5 = spec_enc_opt_u32(c.presence_penalty);
    let e6 = spec_enc_opt_u16(c.max_tokens);
    let e7 = spec_enc_opt_u32(c.temperature);
    let e8 = spec_enc_opt_u32(c.top_p);
    let e9 = spec_enc_i64(c.created_at);
    let r9 = e9;
    let r8 = e8 + r9;
    let r7 = e7 + r8;
    let r6 = e6 + r7;
    let r5 = e5 + r6;
    let r4 = e4 + r5;
    let r3 = e3 + r4;
    let r2 = e2 + r3;
    let r1 = e1 + r2;
    lemma_auto_spec_u128_to_from_le_bytes();
    lemma_auto_spec_u64_to_from_le_bytes();
    lemma_auto_spec_u32_to_from_le_bytes();
    lemma_auto_spec_u16_to_from_le_bytes();
    lemma_concat_split(s, pos, e0, r1);
    lemma_dec_u128_at(s, pos, c.uuid);
    let p1 = pos + e0.len();
    lemma_concat_split(s, p1, e1, r2);
    lemma_dec_opt_str_at(s, p1, c.name);
    let p2 = p1 + e1.len();
    lemma_concat_split(s, p2, e2, r3);
    lemma_dec_opt_str_at(s, p2, c.model);
    let p3 = p2 + e2.len();
    lemma_concat_split(s, p3, e3, r4);
    lemma_dec_str_at(s, p3, c.prompt);
    let p4 = p3 + e3.len();
    lemma_concat_split(s, p4, e4, r5);
    lemma_dec_opt_u32_at(s, p4, c.frequency_penalty);
    let p5 = p4 + e4.len();
    lemma_concat_split(s, p5, e5, r6);
    lemma_dec_opt_u32_at(s, p5, c.presence_penalty);
    let p6 = p5 + e5.len();
    lemma_concat_split(s, p6, e6, r7);
    lemma_dec_opt_u16_at(s, p6, c.max_tokens);
    let p7 = p6 + e6.len();
    lemma_concat_split(s, p7, e7, r8);
    lemma_dec_opt_u32_at(s, p7, c.temperature);
    let p8 = p7 + e7.len();
    lemma_concat_split(s, p8, e8, r9);
    lemma_dec_opt_u32_at(s, p8, c.top_p);
    let p9 = p8 + e8.len();
    lemma_dec_i64_at(s, p9, c.created_at);
}

/// Law: a stored conversation-configuration record decodes back to exactly
/// the configuration that was encoded.
pub proof fn lemma_chat_config_round_trip(c: ChatConfigV)
    requires
        config_encodable(c),
    ensures
        decoded_config(spec_enc_chat_config(c)) == Some(c),
{
    let s = spec_enc_chat_config(c);
    assert(s.subrange(0, s.len() as int) =~= s);
    lemma_dec_chat_config_at(s, 0, c);
}

} // verus!
