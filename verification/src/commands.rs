//! The operations exposed to external callers: conversation CRUD, the
//! listing sweep, the model cache, and the send-message orchestration that
//! turns a conversation plus a new user message into a completion request
//! and commits the exchange to the store.

use crate::chat::{
    decode_chat_config, decode_history, decoded_config, decoded_history, encode_chat_config,
    encode_history, spec_config_listable, spec_enc_chat_config, spec_enc_history, ChatConfig,
    ChatConfigV, ChatMessage, ChatMessageV, ChatRole,
};
use crate::codec::{decode_str_list, decoded_str_list, encode_str_list, spec_enc_str_list};
use crate::error::{ChatConfigError, CommandError};
use crate::store::{lists_entries, Store};
use vstd::prelude::*;
use vstd::string::StringExecFns;
use vstd::utf8::encode_utf8;

verus! {

/// The turns a conversation holds in the store: the empty sequence when no
/// record exists, the decoded record otherwise, and nothing when the stored
/// record is corrupt.
pub open spec fn spec_history_turns(m: Map<u128, Seq<u8>>, id: u128) -> Option<Seq<ChatMessageV>> {
    if m.contains_key(id) {
        decoded_history(m[id])
    } else {
        Some(Seq::<ChatMessageV>::empty())
    }
}

/// The full history of one conversation; an empty sequence when none was
/// ever written.
pub fn get_chat_history(store: &Store, uuid: u128) -> (r: Result<Vec<ChatMessage>, CommandError>)
    ensures
        r matches Ok(h) ==> spec_history_turns(store.histories(), uuid) == Some(h.deep_view()),
        spec_history_turns(store.histories(), uuid) is None ==> r is Err,
        r is Err ==> r->Err_0 is Db,
{
    match store.get_history_record(uuid) {
        Err(e) => Err(CommandError::Db(e)),
        Ok(None) => {
            let h: Vec<ChatMessage> = Vec::new();
            proof {
                assert(h.deep_view() =~= Seq::<ChatMessageV>::empty());
            }
            Ok(h)
        },
        Ok(Some(bytes)) => match decode_history(&bytes) {
            Some(h) => Ok(h),
            None => Err(CommandError::Db("corrupt conversation history record".to_owned())),
        },
    }
}

/// The stored configuration of one conversation, if there is one.
pub fn get_chat_config(store: &Store, uuid: u128) -> (r: Result<
    Option<ChatConfig>,
    CommandError,
>)
    ensures
        r matches Ok(o) ==> {
            &&& o is Some <==> (store.configs().contains_key(uuid) && decoded_config(
                store.configs()[uuid],
            ) is Some)
            &&& (o matches Some(c) ==> decoded_config(store.configs()[uuid]) == Some(c@))
        },
        store.configs().contains_key(uuid) && decoded_config(store.configs()[uuid]) is None
            ==> r is Err,
        r is Err ==> r->Err_0 is Db,
{
    match store.get_config_record(uuid) {
        Err(e) => Err(CommandError::Db(e)),
        Ok(None) => Ok(None),
        Ok(Some(bytes)) => match decode_chat_config(&bytes) {
            Some(c) => Ok(Some(c)),
            None => Err(
                CommandError::Db("corrupt conversation configuration record".to_owned()),
            ),
        },
    }
}

/// A fresh conversation: stored immediately under its new id, and returned.
pub fn create_chat_config(store: &mut Store) -> (r: Result<ChatConfig, CommandError>)
    ensures
        r matches Ok(c) ==> {
            &&& final(store).configs() == old(store).configs().insert(
                c.uuid,
                spec_enc_chat_config(c@),
            )
            &&& c.name is None && c.model is None && c.prompt@ == Seq::<char>::empty()
            &&& c.frequency_penalty is None && c.presence_penalty is None && c.max_tokens is None
            &&& c.temperature is None && c.top_p is None
        },
        final(store).histories() == old(store).histories(),
        final(store).root() == old(store).root(),
        r is Err ==> r->Err_0 is Db,
{
    let config = ChatConfig::default();
    let bytes = encode_chat_config(&config);
    match store.put_config_record(config.uuid, bytes.as_slice()) {
        Ok(u) => Ok(config),
        Err(e) => Err(CommandError::Db(e)),
    }
}

/// Store a configuration verbatim under its id (an idempotent upsert).
pub fn update_chat_config(store: &mut Store, config: ChatConfig) -> (r: Result<(), CommandError>)
    ensures
        r is Ok ==> final(store).configs() == old(store).configs().insert(
            config.uuid,
            spec_enc_chat_config(config@),
        ),
        final(store).histories() == old(store).histories(),
        final(store).root() == old(store).root(),
        r is Err ==> r->Err_0 is Db,
{
    let bytes = encode_chat_config(&config);
    match store.put_config_record(config.uuid, bytes.as_slice()) {
        Ok(u) => Ok(()),
        Err(e) => Err(CommandError::Db(e)),
    }
}

/// Delete a conversation configuration. The history of the same id lives in
/// an independent namespace and is deliberately left in place.
pub fn delete_chat_config(store: &mut Store, uuid: u128) -> (r: Result<(), CommandError>)
    ensures
        r is Ok ==> final(store).configs() == old(store).configs().remove(uuid),
        final(store).histories() == old(store).histories(),
        final(store).root() == old(store).root(),
        r is Err ==> r->Err_0 is Db,
{
    match store.remove_config_record(uuid) {
        Ok(u) => Ok(()),
        Err(e) => Err(CommandError::Db(e)),
    }
}

/// Listings come back ordered by creation time.
pub open spec fn sorted_by_created(s: Seq<ChatConfigV>) -> bool {
    forall|i: int, j: int| 0 <= i < j < s.len() ==> s[i].created_at <= s[j].created_at
}

/// No two entries of a listing share a conversation id.
pub open spec fn distinct_uuids(s: Seq<ChatConfigV>) -> bool {
    forall|i: int, j: int| 0 <= i < j < s.len() ==> s[i].uuid != s[j].uuid
}

/// Every record that decodes sits under its own conversation id. Every
/// write this library makes keys a record by its configuration's uuid, so
/// the stores it builds satisfy this.
pub open spec fn records_consistent(m: Map<u128, Seq<u8>>) -> bool {
    forall|k: u128| #[trigger]
        m.contains_key(k) ==> (decoded_config(m[k]) matches Some(c) ==> c.uuid == k)
}

fn insert_by_created(v: &mut Vec<ChatConfig>, c: ChatConfig)
    requires
        sorted_by_created(old(v).deep_view()),
    ensures
        sorted_by_created(final(v).deep_view()),
        forall|m: ChatConfigV| #[trigger]
            final(v).deep_view().contains(m) <==> (old(v).deep_view().contains(m) || m == c@),
        (distinct_uuids(old(v).deep_view()) && (forall|idx: int|
            0 <= idx < old(v).deep_view().len() ==> old(v).deep_view()[idx].uuid != c@.uuid))
            ==> distinct_uuids(final(v).deep_view()),
{
    let mut i: usize = 0;
    while i < v.len() && v[i].created_at <= c.created_at
        invariant
            i <= v@.len(),
            v@ == old(v)@,
            forall|j: int| 0 <= j < i ==> v.deep_view()[j].created_at <= c@.created_at,
        decreases v@.len() - i,
    {
        i = i + 1;
    }
    let ghost oldseq = v.deep_view();
    let ghost pos = i as int;
    v.insert(i, c);
    proof {
        (old(v)@).insert_ensures(pos, c);
        oldseq.insert_ensures(pos, c@);
        assert(v.deep_view() =~= oldseq.insert(pos, c@)) by {
            assert forall|j: int| 0 <= j < v.deep_view().len() implies v.deep_view()[j]
                == oldseq.insert(pos, c@)[j] by {
                if j < pos {
                    assert(v@[j] == old(v)@[j]);
                } else if j == pos {
                    assert(v@[j] == c);
                } else {
                    assert(v@[j] == old(v)@[j - 1]);
                }
            }
        }
        let w = oldseq.insert(pos, c@);
        assert forall|a: int, b: int| 0 <= a < b < w.len() implies w[a].created_at
            <= w[b].created_at by {
            if b < pos {
                assert(w[a] == oldseq[a] && w[b] == oldseq[b]);
            } else if b == pos {
                assert(w[b] == c@);
                if a < pos {
                    assert(w[a] == oldseq[a]);
                }
            } else {
                assert(w[b] == oldseq[b - 1]);
                if a < pos {
                    assert(w[a] == oldseq[a]);
                    assert(pos <= b - 1 < oldseq.len());
                    if pos < oldseq.len() {
                        assert(oldseq[pos].created_at > c@.created_at || pos == oldseq.len());
                    }
                    if a < b - 1 {
                        assert(oldseq[a].created_at <= oldseq[b - 1].created_at);
                    }
                } else if a == pos {
                    assert(w[a] == c@);
                    assert(oldseq[b - 1].created_at >= oldseq[pos].created_at);
                    assert(oldseq[pos].created_at > c@.created_at);
                } else {
                    assert(w[a] == oldseq[a - 1]);
                }
            }
        }
        if distinct_uuids(oldseq) && (forall|idx: int|
            0 <= idx < oldseq.len() ==> oldseq[idx].uuid != c@.uuid) {
            assert forall|a: int, b: int| 0 <= a < b < w.len() implies w[a].uuid != w[b].uuid by {
                if b < pos {
                    assert(w[a] == oldseq[a] && w[b] == oldseq[b]);
                } else if b == pos {
                    assert(w[b] == c@);
                    if a < pos {
                        assert(w[a] == oldseq[a]);
                    }
                } else {
                    assert(w[b] == oldseq[b - 1]);
                    if a < pos {
                        assert(w[a] == oldseq[a]);
                        assert(a < b - 1);
                        assert(oldseq[a].uuid != oldseq[b - 1].uuid);
                    } else if a == pos {
                        assert(w[a] == c@);
                        assert(oldseq[b - 1].uuid != c@.uuid);
                    } else {
                        assert(w[a] == oldseq[a - 1]);
                    }
                }
            }
        }
        assert forall|m: ChatConfigV| #[trigger]
            v.deep_view().contains(m) <==> (oldseq.contains(m) || m == c@) by {
            if v.deep_view().contains(m) {
                let j = choose|j: int| 0 <= j < w.len() && w[j] == m;
                if j < pos {
                    assert(oldseq[j] == m);
                } else if j > pos {
                    assert(oldseq[j - 1] == m);
                }
            }
            if oldseq.contains(m) {
                let j = choose|j: int| 0 <= j < oldseq.len() && oldseq[j] == m;
                if j < pos {
                    assert(w[j] == m);
                } else {
                    assert(w[j + 1] == m);
                }
            }
            if m == c@ {
                assert(w[pos] == m);
            }
        }
    }
}

/// Decide the retention sweep for one listing of the configuration
/// namespace: what survives (the valid configurations, ordered by creation
/// time) and which keys the sweep removes (records that decode but fail the
/// validity rule). The decision is total — a record that does not decode is
/// neither kept nor marked, only skipped — so a corrupt record can never
/// abort a listing.
#[verifier::spinoff_prover]
#[verifier::rlimit(100)]
pub fn partition_records(pairs: &Vec<(u128, Vec<u8>)>) -> (r: (Vec<ChatConfig>, Vec<u128>))
    ensures
        sorted_by_created(r.0.deep_view()),
        forall|idx: int|
            0 <= idx < r.0.deep_view().len() ==> spec_config_listable(
                #[trigger] r.0.deep_view()[idx],
            ),
        forall|m: ChatConfigV| #[trigger]
            r.0.deep_view().contains(m) <==> exists|j: int|
                #![trigger pairs@[j]]
                0 <= j < pairs@.len() && decoded_config(pairs@[j].1@) == Some(m)
                    && spec_config_listable(m),
        forall|x: u128| #[trigger]
            r.1@.contains(x) <==> exists|j: int|
                #![trigger pairs@[j]]
                0 <= j < pairs@.len() && pairs@[j].0 == x && (decoded_config(
                    pairs@[j].1@,
                ) matches Some(c) && !spec_config_listable(c)),
        ((forall|i: int, j: int|
            #![trigger pairs@[i], pairs@[j]]
            0 <= i < j < pairs@.len() ==> pairs@[i].0 != pairs@[j].0) && (forall|j: int|
            #![trigger pairs@[j]]
            0 <= j < pairs@.len() ==> (decoded_config(pairs@[j].1@) matches Some(c) ==> c.uuid
                == pairs@[j].0))) ==> distinct_uuids(r.0.deep_view()),
{
    let mut kept: Vec<ChatConfig> = Vec::new();
    let mut stale: Vec<u128> = Vec::new();
    let mut i: usize = 0;
    while i < pairs.len()
        invariant
            i <= pairs@.len(),
            sorted_by_created(kept.deep_view()),
            forall|m: ChatConfigV| #[trigger]
                kept.deep_view().contains(m) <==> exists|j: int|
                    #![trigger pairs@[j]]
                    0 <= j < i && decoded_config(pairs@[j].1@) == Some(m)
                        && spec_config_listable(m),
            forall|x: u128| #[trigger]
                stale@.contains(x) <==> exists|j: int|
                    #![trigger pairs@[j]]
                    0 <= j < i && pairs@[j].0 == x && (decoded_config(
                        pairs@[j].1@,
                    ) matches Some(c) && !spec_config_listable(c)),
            ((forall|a: int, b: int|
                #![trigger pairs@[a], pairs@[b]]
                0 <= a < b < pairs@.len() ==> pairs@[a].0 != pairs@[b].0) && (forall|j: int|
                #![trigger pairs@[j]]
                0 <= j < pairs@.len() ==> (decoded_config(pairs@[j].1@) matches Some(c)
                    ==> c.uuid == pairs@[j].0))) ==> (distinct_uuids(kept.deep_view()) && (forall|
                m: ChatConfigV,
            | #[trigger]
                kept.deep_view().contains(m) ==> exists|j: int|
                    #![trigger pairs@[j]]
                    0 <= j < i && m.uuid == pairs@[j].0)),
        decreases pairs@.len() - i,
    {
        let p: &(u128, Vec<u8>) = &pairs[i];
        proof {
            assert(*p == pairs@[i as int]);
        }
        match decode_chat_config(&p.1) {
            None => {
                proof {
                    assert(decoded_config(pairs@[i as int].1@) is None);
                }
            },
            Some(c) => {
                let keep = c.is_listable();
                let ghost cv = c@;
                if keep {
                    let ghost before = kept.deep_view();
                    proof {
                        if (forall|a: int, b: int|
                            #![trigger pairs@[a], pairs@[b]]
                            0 <= a < b < pairs@.len() ==> pairs@[a].0 != pairs@[b].0) && (forall|
                            j: int,
                        |
                            #![trigger pairs@[j]]
                            0 <= j < pairs@.len() ==> (decoded_config(
                                pairs@[j].1@,
                            ) matches Some(cc) ==> cc.uuid == pairs@[j].0)) {
                            assert(cv.uuid == pairs@[i as int].0);
                            assert forall|idx: int|
                                0 <= idx < before.len() implies before[idx].uuid != cv.uuid by {
                                assert(before.contains(before[idx]));
                                let j = choose|j: int|
                                    #![trigger pairs@[j]]
                                    0 <= j < i && before[idx].uuid == pairs@[j].0;
                                assert(pairs@[j].0 != pairs@[i as int].0);
                            }
                        }
                    }
                    insert_by_created(&mut kept, c);
                    proof {
                        assert forall|m: ChatConfigV| #[trigger]
                            kept.deep_view().contains(m) implies exists|j: int|
                            #![trigger pairs@[j]]
                            0 <= j < i + 1 && decoded_config(pairs@[j].1@) == Some(m)
                                && spec_config_listable(m) by {
                            if m == cv {
                                assert(decoded_config(pairs@[i as int].1@) == Some(m));
                            } else {
                                assert(before.contains(m));
                                let j = choose|j: int|
                                    #![trigger pairs@[j]]
                                    0 <= j < i && decoded_config(pairs@[j].1@) == Some(m)
                                        && spec_config_listable(m);
                                assert(0 <= j < i + 1 && decoded_config(pairs@[j].1@) == Some(m));
                            }
                        }
                        assert forall|m: ChatConfigV|
                            (exists|j: int|
                                #![trigger pairs@[j]]
                                0 <= j < i + 1 && decoded_config(pairs@[j].1@) == Some(m)
                                    && spec_config_listable(m)) implies #[trigger] kept.deep_view().contains(
                            m,
                        ) by {
                            let j = choose|j: int|
                                #![trigger pairs@[j]]
                                0 <= j < i + 1 && decoded_config(pairs@[j].1@) == Some(m)
                                    && spec_config_listable(m);
                            if j < i {
                                assert(before.contains(m));
                            } else {
                                assert(m == cv);
                            }
                        }
                    }
                } else {
                    let ghost before_stale = stale@;
                    stale.push(p.0);
                    proof {
                        assert(stale@ == before_stale.push(pairs@[i as int].0));
                        assert forall|x: u128| #[trigger]
                            stale@.contains(x) implies exists|j: int|
                            #![trigger pairs@[j]]
                            0 <= j < i + 1 && pairs@[j].0 == x && (decoded_config(
                                pairs@[j].1@,
                            ) matches Some(cc) && !spec_config_listable(cc)) by {
                            let idx = choose|idx: int| 0 <= idx < stale@.len() && stale@[idx] == x;
                            if idx < before_stale.len() {
                                assert(before_stale[idx] == x);
                                assert(before_stale.contains(x));
                            } else {
                                assert(x == pairs@[i as int].0);
                                assert(decoded_config(pairs@[i as int].1@) == Some(cv));
                            }
                        }
                        assert forall|x: u128|
                            (exists|j: int|
                                #![trigger pairs@[j]]
                                0 <= j < i + 1 && pairs@[j].0 == x && (decoded_config(
                                    pairs@[j].1@,
                                ) matches Some(cc) && !spec_config_listable(cc))) implies #[trigger] stale@.contains(
                            x,
                        ) by {
                            let j = choose|j: int|
                                #![trigger pairs@[j]]
                                0 <= j < i + 1 && pairs@[j].0 == x && (decoded_config(
                                    pairs@[j].1@,
                                ) matches Some(cc) && !spec_config_listable(cc));
                            if j < i {
                                assert(before_stale.contains(x));
                                let idx = choose|idx: int|
                                    0 <= idx < before_stale.len() && before_stale[idx] == x;
                                assert(stale@[idx] == x);
                            } else {
                                assert(stale@[before_stale.len() as int] == x);
                            }
                        }
                    }
                }
            },
        }
        i = i + 1;
    }
    proof {
        assert forall|idx: int|
            0 <= idx < kept.deep_view().len() implies spec_config_listable(
            kept.deep_view()[idx],
        ) by {
            assert(kept.deep_view().contains(kept.deep_view()[idx]));
        }
    }
    (kept, stale)
}

/// List every conversation configuration that is still valid, ordered by
/// creation time. Validity is a retention invariant, not only a filter:
/// records that decode to a configuration whose model is unset, or whose
/// prompt is empty while no name is set, are deleted from the store as a
/// side effect of listing; a record that does not decode is skipped and
/// left in place. The decision layer (`partition_records`) is total, so a
/// corrupt record can only ever be skipped; the listing fails only when the
/// storage engine itself fails.
#[verifier::rlimit(50)]
pub fn list_chat_configs(store: &mut Store) -> (r: Result<Vec<ChatConfig>, CommandError>)
    ensures
        final(store).histories() == old(store).histories(),
        final(store).root() == old(store).root(),
        r is Err ==> r->Err_0 is Db,
        r matches Ok(out) ==> {
            &&& forall|k: u128| #[trigger]
                final(store).configs().contains_key(k) ==> old(store).configs().contains_key(k)
                    && final(store).configs()[k] == old(store).configs()[k]
            &&& forall|k: u128| #[trigger]
                old(store).configs().contains_key(k) ==> (match decoded_config(
                    old(store).configs()[k],
                ) {
                    Some(c) => if spec_config_listable(c) {
                        final(store).configs().contains_key(k) && final(store).configs()[k]
                            == old(store).configs()[k]
                    } else {
                        !final(store).configs().contains_key(k)
                    },
                    None => final(store).configs().contains_key(k) && final(store).configs()[k]
                        == old(store).configs()[k],
                })
            &&& sorted_by_created(out.deep_view())
            &&& forall|idx: int|
                0 <= idx < out.deep_view().len() ==> spec_config_listable(
                    #[trigger] out.deep_view()[idx],
                )
            &&& forall|m: ChatConfigV| #[trigger]
                out.deep_view().contains(m) <==> exists|k: u128|
                    #[trigger] old(store).configs().contains_key(k) && decoded_config(
                        old(store).configs()[k],
                    ) == Some(m) && spec_config_listable(m)
            &&& (records_consistent(old(store).configs()) ==> distinct_uuids(out.deep_view()))
        },
{
    let ghost m0 = store.configs();
    let pairs = match store.config_entries() {
        Ok(p) => p,
        Err(e) => {
            return Err(CommandError::Db(e));
        },
    };
    proof {
        assert(lists_entries(m0, pairs@));
    }
    let (out, stale) = partition_records(&pairs);
    let mut t: usize = 0;
    while t < stale.len()
        invariant
            t <= stale@.len(),
            store.histories() == old(store).histories(),
            store.root() == old(store).root(),
            forall|k: u128| #[trigger]
                store.configs().contains_key(k) ==> m0.contains_key(k) && store.configs()[k]
                    == m0[k],
            forall|k: u128| #[trigger]
                m0.contains_key(k) && !stale@.contains(k) ==> store.configs().contains_key(k)
                    && store.configs()[k] == m0[k],
            forall|idx: int|
                0 <= idx < t ==> !store.configs().contains_key(#[trigger] stale@[idx]),
        decreases stale@.len() - t,
    {
        let x = stale[t];
        proof {
            assert(stale@.contains(stale@[t as int]));
        }
        match store.remove_config_record(x) {
            Ok(u) => {},
            Err(e) => {
                return Err(CommandError::Db(e));
            },
        }
        t = t + 1;
    }
    proof {
        assert forall|k: u128| #[trigger] old(store).configs().contains_key(k) implies (match
        decoded_config(old(store).configs()[k]) {
            Some(c) => if spec_config_listable(c) {
                store.configs().contains_key(k) && store.configs()[k] == old(store).configs()[k]
            } else {
                !store.configs().contains_key(k)
            },
            None => store.configs().contains_key(k) && store.configs()[k] == old(
                store,
            ).configs()[k],
        }) by {
            assert(m0.contains_key(k));
            let d = decoded_config(m0[k]);
            if d matches Some(c) && !spec_config_listable(c) {
                let j = choose|j: int| #![trigger pairs@[j]] 0 <= j < pairs@.len() && pairs@[j].0
                    == k;
                assert(m0[pairs@[j].0] == pairs@[j].1@);
                assert(decoded_config(pairs@[j].1@) == d);
                assert(stale@.contains(k));
                let idx = choose|idx: int| 0 <= idx < stale@.len() && stale@[idx] == k;
                assert(!store.configs().contains_key(stale@[idx]));
            } else {
                if stale@.contains(k) {
                    let j = choose|j: int|
                        #![trigger pairs@[j]]
                        0 <= j < pairs@.len() && pairs@[j].0 == k && (decoded_config(
                            pairs@[j].1@,
                        ) matches Some(cc) && !spec_config_listable(cc));
                    assert(m0[pairs@[j].0] == pairs@[j].1@);
                    assert(false);
                }
            }
        }
        assert forall|m: ChatConfigV| #[trigger] out.deep_view().contains(m) implies exists|
            k: u128,
        |
            #[trigger] old(store).configs().contains_key(k) && decoded_config(
                old(store).configs()[k],
            ) == Some(m) && spec_config_listable(m) by {
            let j = choose|j: int|
                #![trigger pairs@[j]]
                0 <= j < pairs@.len() && decoded_config(pairs@[j].1@) == Some(m)
                    && spec_config_listable(m);
            assert(m0.contains_key(pairs@[j].0) && m0[pairs@[j].0] == pairs@[j].1@);
            assert(old(store).configs().contains_key(pairs@[j].0) && decoded_config(
                old(store).configs()[pairs@[j].0],
            ) == Some(m));
        }
        assert forall|m: ChatConfigV|
            (exists|k: u128|
                #[trigger] old(store).configs().contains_key(k) && decoded_config(
                    old(store).configs()[k],
                ) == Some(m) && spec_config_listable(m)) implies #[trigger] out.deep_view().contains(
            m,
        ) by {
            let k = choose|k: u128|
                #[trigger] old(store).configs().contains_key(k) && decoded_config(
                    old(store).configs()[k],
                ) == Some(m) && spec_config_listable(m);
            let j = choose|j: int| #![trigger pairs@[j]] 0 <= j < pairs@.len() && pairs@[j].0
                == k;
            assert(m0[pairs@[j].0] == pairs@[j].1@);
            assert(decoded_config(pairs@[j].1@) == Some(m));
        }
        if records_consistent(m0) {
            assert forall|j: int|
                #![trigger pairs@[j]]
                0 <= j < pairs@.len() implies (decoded_config(pairs@[j].1@) matches Some(c)
                ==> c.uuid == pairs@[j].0) by {
                assert(m0.contains_key(pairs@[j].0) && m0[pairs@[j].0] == pairs@[j].1@);
            }
            assert(distinct_uuids(out.deep_view()));
        }
    }
    Ok(out)
}

// ---------------------------------------------------------------------------
// available models
// ---------------------------------------------------------------------------

/// A model id the client offers: its name begins with the bytes of "gpt".
pub open spec fn is_gpt_prefixed(s: Seq<char>) -> bool {
    let b = encode_utf8(s);
    b.len() >= 3 && b[0] == 103u8 && b[1] == 112u8 && b[2] == 116u8
}

/// The ids kept from an upstream model listing, in their original order.
pub open spec fn gpt_filtered(t: Seq<Seq<char>>) -> Seq<Seq<char>> {
    t.filter(|m: Seq<char>| is_gpt_prefixed(m))
}

fn starts_with_gpt(s: &String) -> (r: bool)
    ensures
        r == is_gpt_prefixed(s@),
{
    let b = vstd::slice::slice_to_vec(s.as_str().as_bytes());
    if b.len() >= 3 {
        let b0 = b[0];
        let b1 = b[1];
        let b2 = b[2];
        b0 == 103 && b1 == 112 && b2 == 116
    } else {
        false
    }
}

pub fn filter_gpt_models(models: &Vec<String>) -> (r: Vec<String>)
    ensures
        r.deep_view() == gpt_filtered(models.deep_view()),
{
    let ghost t = models.deep_view();
    let mut out: Vec<String> = Vec::new();
    let mut i: usize = 0;
    proof {
        reveal(Seq::filter);
        assert(out.deep_view() =~= gpt_filtered(t.take(0)));
    }
    while i < models.len()
        invariant
            i <= models@.len(),
            t == models.deep_view(),
            out.deep_view() == gpt_filtered(t.take(i as int)),
        decreases models@.len() - i,
    {
        let keep = starts_with_gpt(&models[i]);
        let ghost before = out.deep_view();
        if keep {
            let m = models[i].clone();
            out.push(m);
        }
        proof {
            reveal(Seq::filter);
            assert(t.take(i + 1).drop_last() =~= t.take(i as int));
            assert(t.take(i + 1).last() == t[i as int]);
            if is_gpt_prefixed(t[i as int]) {
                assert(out.deep_view() =~= before.push(t[i as int]));
            }
            assert(out.deep_view() == gpt_filtered(t.take(i + 1)));
        }
        i = i + 1;
    }
    proof {
        assert(t.take(models@.len() as int) =~= t);
    }
    out
}

/// Keep the "gpt" models of an upstream listing and mirror them into the
/// cache key of the store, returning what was kept.
pub fn cache_available_models(store: &mut Store, models: &Vec<String>) -> (r: Result<
    Vec<String>,
    CommandError,
>)
    ensures
        final(store).configs() == old(store).configs(),
        final(store).histories() == old(store).histories(),
        r matches Ok(out) ==> {
            &&& out.deep_view() == gpt_filtered(models.deep_view())
            &&& final(store).root() == old(store).root().insert(
                "models"@,
                spec_enc_str_list(out.deep_view()),
            )
        },
        r is Err ==> r->Err_0 is Db,
{
    let kept = filter_gpt_models(models);
    let bytes = encode_str_list(&kept);
    match store.put_root_record("models", bytes.as_slice()) {
        Ok(u) => Ok(kept),
        Err(e) => Err(CommandError::Db(e)),
    }
}

/// The cached model listing, if one is stored and still decodes.
pub fn cached_models(store: &Store) -> (r: Result<Option<Vec<String>>, CommandError>)
    ensures
        r matches Ok(o) ==> {
            &&& (o matches Some(v) ==> store.root().contains_key("models"@) && decoded_str_list(
                store.root()["models"@],
            ) == Some(v.deep_view()))
            &&& (o is None ==> (!store.root().contains_key("models"@) || decoded_str_list(
                store.root()["models"@],
            ) is None))
        },
        r is Err ==> r->Err_0 is Db,
{
    match store.get_root_record("models") {
        Err(e) => Err(CommandError::Db(e)),
        Ok(None) => Ok(None),
        Ok(Some(bytes)) => match decode_str_list(&bytes) {
            Some(v) => Ok(Some(v)),
            None => Ok(None),
        },
    }
}

// ---------------------------------------------------------------------------
// the send-message session
// ---------------------------------------------------------------------------

/// The author of one message of a completion request.
#[derive(Debug, Clone, Copy, PartialEq, Eq, Structural)]
pub enum RequestRole {
    System,
    User,
    Assistant,
}

/// One message of a completion request.
#[derive(Debug)]
pub struct RequestMessage {
    pub role: RequestRole,
    pub content: String,
}

pub struct RequestMessageV {
    pub role: RequestRole,
    pub content: Seq<char>,
}

impl View for RequestMessage {
    type V = RequestMessageV;

    open spec fn view(&self) -> RequestMessageV {
        RequestMessageV { role: self.role, content: self.content@ }
    }
}

impl DeepView for RequestMessage {
    type V = RequestMessageV;

    open spec fn deep_view(&self) -> RequestMessageV {
        self.view()
    }
}

/// A completion request, ready to be sent upstream: the chosen model, the
/// ordered message list, and every tuning parameter the conversation set
/// (absent ones stay absent, they are not defaulted). The numeric tuning
/// fields carry IEEE-754 bit patterns, exactly as stored.
#[derive(Debug)]
pub struct CompletionRequest {
    pub model: String,
    pub messages: Vec<RequestMessage>,
    pub frequency_penalty: Option<u32>,
    pub presence_penalty: Option<u32>,
    pub max_tokens: Option<u16>,
    pub temperature: Option<u32>,
    pub top_p: Option<u32>,
}

pub struct CompletionRequestV {
    pub model: Seq<char>,
    pub messages: Seq<RequestMessageV>,
    pub frequency_penalty: Option<u32>,
    pub presence_penalty: Option<u32>,
    pub max_tokens: Option<u16>,
    pub temperature: Option<u32>,
    pub top_p: Option<u32>,
}

impl View for CompletionRequest {
    type V = CompletionRequestV;

    open spec fn view(&self) -> CompletionRequestV {
        CompletionRequestV {
            model: self.model@,
            messages: self.messages.deep_view(),
            frequency_penalty: self.frequency_penalty,
            presence_penalty: self.presence_penalty,
            max_tokens: self.max_tokens,
            temperature: self.temperature,
            top_p: self.top_p,
        }
    }
}

pub open spec fn spec_role_of(r: ChatRole) -> RequestRole {
    match r {
        ChatRole::User => RequestRole::User,
        ChatRole::Assistant => RequestRole::Assistant,
    }
}

/// The ordered message list of a request: one system message from the
/// prompt, then every stored turn in original order, then the new user
/// message last.
pub open spec fn request_messages(
    prompt: Seq<char>,
    history: Seq<ChatMessageV>,
    user_msg: Seq<char>,
) -> Seq<RequestMessageV> {
    seq![RequestMessageV { role: RequestRole::System, content: prompt }] + history.map_values(
        |m: ChatMessageV| RequestMessageV { role: spec_role_of(m.role), content: m.content },
    ) + seq![RequestMessageV { role: RequestRole::User, content: user_msg }]
}

/// One in-flight send-message exchange: the conversation it belongs to, the
/// history as persisted when the user turn was committed, the request to
/// send, and the running buffer of streamed assistant text. Committing
/// consumes the session, so the assistant turn is persisted at most once.
#[derive(Debug)]
pub struct ChatSession {
    uuid: u128,
    history: Vec<ChatMessage>,
    buffer: String,
    request: CompletionRequest,
}

impl ChatSession {
    pub closed spec fn spec_uuid(self) -> u128 {
        self.uuid
    }

    pub closed spec fn turns(self) -> Seq<ChatMessageV> {
        self.history.deep_view()
    }

    pub closed spec fn buffer_view(self) -> Seq<char> {
        self.buffer@
    }

    pub closed spec fn spec_request(self) -> CompletionRequestV {
        self.request@
    }

    pub fn conversation_id(&self) -> (r: u128)
        ensures
            r == self.spec_uuid(),
    {
        self.uuid
    }

    pub fn request(&self) -> (r: &CompletionRequest)
        ensures
            r@ == self.spec_request(),
    {
        &self.request
    }

    /// Absorb one streamed chunk: append its text delta, if it carried one,
    /// to the running buffer. Everything else is untouched.
    pub fn absorb_chunk(&mut self, delta: Option<&str>)
        ensures
            final(self).buffer_view() == old(self).buffer_view() + (match delta {
                Some(d) => d@,
                None => Seq::<char>::empty(),
            }),
            final(self).turns() == old(self).turns(),
            final(self).spec_uuid() == old(self).spec_uuid(),
            final(self).spec_request() == old(self).spec_request(),
    {
        match delta {
            Some(d) => {
                self.buffer.append(d);
            },
            None => {
                proof {
                    assert(self.buffer@ + Seq::<char>::empty() =~= self.buffer@);
                }
            },
        }
    }

    /// The one commit step shared by normal termination and mid-stream
    /// failure: append an assistant turn holding whatever the buffer has
    /// accumulated, and persist the whole history. Consuming `self` makes a
    /// second commit of the same session impossible.
    pub fn commit(self, store: &mut Store) -> (r: Result<Vec<ChatMessage>, CommandError>)
        ensures
            final(store).configs() == old(store).configs(),
            final(store).root() == old(store).root(),
            r matches Ok(h) ==> {
                &&& h.deep_view() == self.turns().push(
                    ChatMessageV { role: ChatRole::Assistant, content: self.buffer_view() },
                )
                &&& final(store).histories() == old(store).histories().insert(
                    self.spec_uuid(),
                    spec_enc_history(h.deep_view()),
                )
            },
            r is Err ==> r->Err_0 is Db,
    {
        let mut history = self.history;
        history.push(ChatMessage { role: ChatRole::Assistant, content: self.buffer });
        let bytes = encode_history(&history);
        match store.put_history_record(self.uuid, bytes.as_slice()) {
            Ok(u) => Ok(history),
            Err(e) => Err(CommandError::Db(e)),
        }
    }
}

/// Send a new user message on a conversation. The model must be chosen
/// before anything is written. The configuration is persisted verbatim, the
/// stored history is loaded, the request is built from the prompt, the
/// stored turns and the new message, and the user turn is made durable —
/// all before any network call, so the user's message survives whatever the
/// stream later does. The returned session carries the request to issue and
/// absorbs the streamed reply.
pub fn chat_use_config(store: &mut Store, config: ChatConfig, message: String) -> (r: Result<
    ChatSession,
    CommandError,
>)
    ensures
        final(store).root() == old(store).root(),
        config.model is None ==> (r matches Err(e) && e == CommandError::ChatConfig(
            ChatConfigError::ModelNotSet,
        ) && *final(store) == *old(store)),
        r matches Err(e) ==> (e is ChatConfig || e is Db),
        r matches Err(e) && e is ChatConfig ==> config.model is None,
        config.model is Some && spec_history_turns(old(store).histories(), config.uuid) is None
            ==> r is Err,
        r matches Ok(sess) ==> {
            &&& config.model is Some
            &&& sess.spec_uuid() == config.uuid
            &&& sess.buffer_view() == Seq::<char>::empty()
            &&& final(store).configs() == old(store).configs().insert(
                config.uuid,
                spec_enc_chat_config(config@),
            )
            &&& (spec_history_turns(old(store).histories(), config.uuid) matches Some(prior)
                ==> {
                &&& sess.turns() == prior.push(
                    ChatMessageV { role: ChatRole::User, content: message@ },
                )
                &&& final(store).histories() == old(store).histories().insert(
                    config.uuid,
                    spec_enc_history(sess.turns()),
                )
                &&& sess.spec_request().messages == request_messages(
                    config@.prompt,
                    prior,
                    message@,
                )
            })
            &&& sess.spec_request().model == config@.model->0
            &&& sess.spec_request().frequency_penalty == config.frequency_penalty
            &&& sess.spec_request().presence_penalty == config.presence_penalty
            &&& sess.spec_request().max_tokens == config.max_tokens
            &&& sess.spec_request().temperature == config.temperature
            &&& sess.spec_request().top_p == config.top_p
        },
{
    let model: String = match &config.model {
        Some(m) => m.clone(),
        None => {
            return Err(CommandError::ChatConfig(ChatConfigError::ModelNotSet));
        },
    };
    let cfg_bytes = encode_chat_config(&config);
    match store.put_config_record(config.uuid, cfg_bytes.as_slice()) {
        Ok(u) => (),
        Err(e) => {
            return Err(CommandError::Db(e));
        },
    }
    let mut history: Vec<ChatMessage> = match store.get_history_record(config.uuid) {
        Err(e) => {
            return Err(CommandError::Db(e));
        },
        Ok(None) => {
            let h: Vec<ChatMessage> = Vec::new();
            proof {
                assert(h.deep_view() =~= Seq::<ChatMessageV>::empty());
            }
            h
        },
        Ok(Some(bytes)) => match decode_history(&bytes) {
            Some(h) => h,
            None => {
                return Err(CommandError::Db("corrupt conversation history record".to_owned()));
            },
        },
    };
    let ghost prior = history.deep_view();
    let mut messages: Vec<RequestMessage> = Vec::new();
    messages.push(RequestMessage { role: RequestRole::System, content: config.prompt.clone() });
    let n = history.len();
    let mut i: usize = 0;
    proof {
        assert(messages.deep_view() =~= seq![
            RequestMessageV { role: RequestRole::System, content: config@.prompt },
        ] + prior.take(0).map_values(
            |m: ChatMessageV| RequestMessageV { role: spec_role_of(m.role), content: m.content },
        ));
    }
    while i < n
        invariant
            i <= n,
            n == history@.len(),
            prior == history.deep_view(),
            messages.deep_view() == seq![
                RequestMessageV { role: RequestRole::System, content: config@.prompt },
            ] + prior.take(i as int).map_values(
                |m: ChatMessageV| RequestMessageV {
                    role: spec_role_of(m.role),
                    content: m.content,
                },
            ),
        decreases n - i,
    {
        let hm: &ChatMessage = &history[i];
        let role = match hm.role {
            ChatRole::User => RequestRole::User,
            ChatRole::Assistant => RequestRole::Assistant,
        };
        let rm = RequestMessage { role, content: hm.content.clone() };
        let ghost rmv = rm@;
        let ghost before = messages.deep_view();
        messages.push(rm);
        proof {
            let sys = seq![RequestMessageV { role: RequestRole::System, content: config@.prompt }];
            assert(hm@ == prior[i as int]);
            assert(rmv == RequestMessageV {
                role: spec_role_of(prior[i as int].role),
                content: prior[i as int].content,
            });
            assert(messages.deep_view() =~= before.push(rmv));
            assert(prior.take(i + 1) =~= prior.take(i as int).push(prior[i as int]));
            assert(prior.take(i + 1).map_values(
                |m: ChatMessageV| RequestMessageV {
                    role: spec_role_of(m.role),
                    content: m.content,
                },
            ) =~= prior.take(i as int).map_values(
                |m: ChatMessageV| RequestMessageV {
                    role: spec_role_of(m.role),
                    content: m.content,
                },
            ).push(rmv));
            assert(before.push(rmv) =~= sys + prior.take(i + 1).map_values(
                |m: ChatMessageV| RequestMessageV {
                    role: spec_role_of(m.role),
                    content: m.content,
                },
            ));
        }
        i = i + 1;
    }
    messages.push(RequestMessage { role: RequestRole::User, content: message.clone() });
    proof {
        assert(prior.take(n as int) =~= prior);
        assert(messages.deep_view() =~= request_messages(config@.prompt, prior, message@));
    }
    let request = CompletionRequest {
        model,
        messages,
        frequency_penalty: config.frequency_penalty,
        presence_penalty: config.presence_penalty,
        max_tokens: config.max_tokens,
        temperature: config.temperature,
        top_p: config.top_p,
    };
    history.push(ChatMessage { role: ChatRole::User, content: message });
    let hist_bytes = encode_history(&history);
    match store.put_history_record(config.uuid, hist_bytes.as_slice()) {
        Ok(u) => (),
        Err(e) => {
            return Err(CommandError::Db(e));
        },
    }
    Ok(ChatSession { uuid: config.uuid, history, buffer: String::new(), request })
}

} // verus!
