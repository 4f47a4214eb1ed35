use gpt_editor::chat::{
    decode_chat_config, decode_history, encode_chat_config, encode_history, ChatConfig,
    ChatMessage, ChatRole,
};
use gpt_editor::client::AppState;
use gpt_editor::commands::{
    cache_available_models, cached_models, chat_use_config, create_chat_config,
    delete_chat_config, filter_gpt_models, get_chat_config, get_chat_history, list_chat_configs,
    partition_records, update_chat_config, RequestRole,
};
use gpt_editor::config::{
    decode_config_doc, encode_config_doc, ApiKey, Config, OpenAIConfig,
};
use gpt_editor::error::{ChatConfigError, CommandError};
use gpt_editor::logger::{parse_level, LogLevel};
use gpt_editor::store::Store;

fn temp_store() -> Store {
    let db = sled::Config::new().temporary(true).open().unwrap();
    Store::open(db).unwrap()
}

fn some_config(uuid: u128, model: Option<&str>, prompt: &str, name: Option<&str>, created_at: i64) -> ChatConfig {
    ChatConfig {
        uuid,
        name: name.map(|s| s.to_string()),
        model: model.map(|s| s.to_string()),
        prompt: prompt.to_string(),
        frequency_penalty: Some(0.25f32.to_bits()),
        presence_penalty: None,
        max_tokens: Some(512),
        temperature: Some(0.7f32.to_bits()),
        top_p: None,
        created_at,
    }
}

#[test]
fn parse_level_maps_each_code() {
    assert_eq!(parse_level(1), LogLevel::Trace);
    assert_eq!(parse_level(2), LogLevel::Debug);
    assert_eq!(parse_level(3), LogLevel::Info);
    assert_eq!(parse_level(4), LogLevel::Warn);
    assert_eq!(parse_level(5), LogLevel::Error);
}

#[test]
fn config_doc_round_trip_preserves_every_field() {
    let c = Config {
        openai: OpenAIConfig {
            api_base: "https://example.invalid/v1".to_string(),
            api_key: ApiKey::from_string("sk-test-123".to_string()),
            org_id: "org-7".to_string(),
        },
        default_model: Some("gpt-4".to_string()),
        language: "de-DE".to_string(),
    };
    let bytes = encode_config_doc(&c);
    let d = decode_config_doc(&bytes).unwrap();
    assert_eq!(d.openai.api_base, c.openai.api_base);
    assert_eq!(d.openai.org_id, c.openai.org_id);
    assert_eq!(d.default_model, c.default_model);
    assert_eq!(d.language, c.language);
    assert_eq!(d.openai.api_key.expose_secret(), "sk-test-123");
}

#[test]
fn chat_config_record_round_trips() {
    let c = some_config(42, Some("gpt-4"), "be nice", None, -1234567);
    let bytes = encode_chat_config(&c);
    let d = decode_chat_config(&bytes).unwrap();
    assert_eq!(d.uuid, 42);
    assert_eq!(d.model.as_deref(), Some("gpt-4"));
    assert_eq!(d.name, None);
    assert_eq!(d.prompt, "be nice");
    assert_eq!(d.frequency_penalty, Some(0.25f32.to_bits()));
    assert_eq!(d.presence_penalty, None);
    assert_eq!(d.max_tokens, Some(512));
    assert_eq!(d.created_at, -1234567);
}

#[test]
fn corrupt_record_does_not_decode() {
    let c = some_config(42, Some("gpt-4"), "p", None, 5);
    let mut bytes = encode_chat_config(&c);
    bytes.truncate(bytes.len() - 1);
    assert!(decode_chat_config(&bytes).is_none());
}

#[test]
fn history_record_round_trips() {
    let h = vec![
        ChatMessage { role: ChatRole::User, content: "héllo ⚙".to_string() },
        ChatMessage { role: ChatRole::Assistant, content: String::new() },
    ];
    let bytes = encode_history(&h);
    let d = decode_history(&bytes).unwrap();
    assert_eq!(d.len(), 2);
    assert!(matches!(d[0].role, ChatRole::User));
    assert_eq!(d[0].content, "héllo ⚙");
    assert!(matches!(d[1].role, ChatRole::Assistant));
    assert_eq!(d[1].content, "");
}

#[test]
fn send_message_makes_user_turn_durable() {
    let mut store = temp_store();
    let c = some_config(7, Some("gpt-4"), "sys", None, 1);
    let sess = chat_use_config(&mut store, c, "hi there".to_string()).unwrap();
    // Even if the network call never happens, the user turn is already stored.
    let h = get_chat_history(&store, 7).unwrap();
    assert_eq!(h.len(), 1);
    assert!(matches!(h[0].role, ChatRole::User));
    assert_eq!(h[0].content, "hi there");
    let req = sess.request();
    assert_eq!(req.model, "gpt-4");
    assert_eq!(req.messages.len(), 2);
    assert!(matches!(req.messages[0].role, RequestRole::System));
    assert_eq!(req.messages[0].content, "sys");
    assert!(matches!(req.messages[1].role, RequestRole::User));
    assert_eq!(req.messages[1].content, "hi there");
    assert_eq!(req.max_tokens, Some(512));
    assert_eq!(req.presence_penalty, None);
}

#[test]
fn model_not_set_fails_before_any_write() {
    let mut store = temp_store();
    let c = some_config(9, None, "sys", Some("named"), 1);
    let r = chat_use_config(&mut store, c, "hello".to_string());
    assert!(matches!(
        r,
        Err(CommandError::ChatConfig(ChatConfigError::ModelNotSet))
    ));
    // No config record and no history record were written.
    assert!(get_chat_config(&store, 9).unwrap().is_none());
    assert_eq!(get_chat_history(&store, 9).unwrap().len(), 0);
}

#[test]
fn listing_keeps_only_valid_configs_sorted_and_sweeps_the_rest() {
    let mut store = temp_store();
    let newer = some_config(1, Some("gpt-4"), "p1", None, 300);
    let older = some_config(2, Some("gpt-4"), "", Some("named"), 100);
    let invalid_no_model = some_config(3, None, "p3", None, 200);
    let invalid_bare = some_config(4, Some("gpt-4"), "", None, 250);
    update_chat_config(&mut store, newer).unwrap();
    update_chat_config(&mut store, older).unwrap();
    update_chat_config(&mut store, invalid_no_model).unwrap();
    update_chat_config(&mut store, invalid_bare).unwrap();
    let listed = list_chat_configs(&mut store).unwrap();
    assert_eq!(listed.len(), 2);
    assert_eq!(listed[0].uuid, 2);
    assert_eq!(listed[1].uuid, 1);
    // The invalid ones were removed from the store by the sweep.
    assert!(get_chat_config(&store, 3).unwrap().is_none());
    assert!(get_chat_config(&store, 4).unwrap().is_none());
    assert!(get_chat_config(&store, 1).unwrap().is_some());
}

#[test]
fn stream_of_two_chunks_commits_hello() {
    let mut store = temp_store();
    let c = some_config(11, Some("gpt-4"), "sys", None, 1);
    let mut sess = chat_use_config(&mut store, c, "question".to_string()).unwrap();
    sess.absorb_chunk(Some("Hel"));
    sess.absorb_chunk(None);
    sess.absorb_chunk(Some("lo"));
    let committed = sess.commit(&mut store).unwrap();
    assert_eq!(committed.len(), 2);
    let h = get_chat_history(&store, 11).unwrap();
    assert_eq!(h.len(), 2);
    assert!(matches!(h[1].role, ChatRole::Assistant));
    assert_eq!(h[1].content, "Hello");
}

#[test]
fn stream_error_after_partial_chunk_commits_partial_answer() {
    let mut store = temp_store();
    let c = some_config(12, Some("gpt-4"), "sys", None, 1);
    let mut sess = chat_use_config(&mut store, c, "question".to_string()).unwrap();
    sess.absorb_chunk(Some("Hel"));
    // An upstream error ends the stream; the same single commit step runs.
    let committed = sess.commit(&mut store).unwrap();
    assert_eq!(committed.len(), 2);
    let h = get_chat_history(&store, 12).unwrap();
    assert!(matches!(h[1].role, ChatRole::Assistant));
    assert_eq!(h[1].content, "Hel");
}

#[test]
fn empty_stream_commits_empty_assistant_turn() {
    let mut store = temp_store();
    let c = some_config(13, Some("gpt-4"), "sys", None, 1);
    let sess = chat_use_config(&mut store, c, "q".to_string()).unwrap();
    sess.commit(&mut store).unwrap();
    let h = get_chat_history(&store, 13).unwrap();
    assert_eq!(h.len(), 2);
    assert_eq!(h[1].content, "");
}

#[test]
fn reload_never_serves_a_client_of_the_prior_configuration() {
    let c1 = Config {
        openai: OpenAIConfig {
            api_base: "https://one.invalid".to_string(),
            api_key: ApiKey::from_string("sk-one".to_string()),
            org_id: String::new(),
        },
        default_model: None,
        language: "en-US".to_string(),
    };
    let mut state = AppState::new(c1);
    let h1 = state.get_client();
    assert_eq!(h1.api_key, "sk-one");
    assert_eq!(h1.api_base, "https://one.invalid");
    let c2 = Config {
        openai: OpenAIConfig {
            api_base: "https://two.invalid".to_string(),
            api_key: ApiKey::from_string("sk-two".to_string()),
            org_id: "org".to_string(),
        },
        default_model: None,
        language: "en-US".to_string(),
    };
    state.update_app_config(c2);
    let h2 = state.get_client();
    assert_eq!(h2.api_key, "sk-two");
    assert_eq!(h2.api_base, "https://two.invalid");
    let shown = state.get_app_config();
    assert_eq!(shown.openai.api_base, "https://two.invalid");
}

#[test]
fn deleting_config_leaves_history_queryable() {
    let mut store = temp_store();
    let c = some_config(21, Some("gpt-4"), "sys", None, 1);
    let sess = chat_use_config(&mut store, c, "hello".to_string()).unwrap();
    sess.commit(&mut store).unwrap();
    delete_chat_config(&mut store, 21).unwrap();
    assert!(get_chat_config(&store, 21).unwrap().is_none());
    let h = get_chat_history(&store, 21).unwrap();
    assert_eq!(h.len(), 2);
    assert_eq!(h[0].content, "hello");
}

#[test]
fn create_then_get_round_trips_the_defaults() {
    let mut store = temp_store();
    let created = create_chat_config(&mut store).unwrap();
    assert!(created.model.is_none());
    assert!(created.name.is_none());
    assert_eq!(created.prompt, "");
    let fetched = get_chat_config(&store, created.uuid).unwrap().unwrap();
    assert_eq!(fetched.uuid, created.uuid);
    assert_eq!(fetched.created_at, created.created_at);
}

#[test]
fn second_send_builds_on_the_stored_history() {
    let mut store = temp_store();
    let first = some_config(31, Some("gpt-4"), "sys", None, 1);
    let sess = chat_use_config(&mut store, first, "one".to_string()).unwrap();
    let mut sess = sess;
    sess.absorb_chunk(Some("answer"));
    sess.commit(&mut store).unwrap();
    let again = some_config(31, Some("gpt-4"), "sys", None, 1);
    let sess2 = chat_use_config(&mut store, again, "two".to_string()).unwrap();
    let req = sess2.request();
    // system + user one + assistant answer + user two
    assert_eq!(req.messages.len(), 4);
    assert!(matches!(req.messages[2].role, RequestRole::Assistant));
    assert_eq!(req.messages[2].content, "answer");
    assert_eq!(req.messages[3].content, "two");
    let h = get_chat_history(&store, 31).unwrap();
    assert_eq!(h.len(), 3);
}

#[test]
fn model_cache_keeps_only_gpt_ids() {
    let mut store = temp_store();
    let models = vec![
        "gpt-4".to_string(),
        "text-davinci-003".to_string(),
        "gpt-3.5-turbo".to_string(),
        "gp".to_string(),
    ];
    let kept = cache_available_models(&mut store, &models).unwrap();
    assert_eq!(kept, vec!["gpt-4".to_string(), "gpt-3.5-turbo".to_string()]);
    let cached = cached_models(&store).unwrap().unwrap();
    assert_eq!(cached, kept);
}

#[test]
fn filter_is_pure_and_keeps_order() {
    let models = vec!["a".to_string(), "gpt-x".to_string(), "gpt-a".to_string()];
    let kept = filter_gpt_models(&models);
    assert_eq!(kept, vec!["gpt-x".to_string(), "gpt-a".to_string()]);
}

#[test]
fn api_key_exposes_and_zeroizes() {
    let mut k = ApiKey::from_string("sk-secret".to_string());
    assert_eq!(k.expose_secret(), "sk-secret");
    k.zeroize();
    assert_eq!(k.expose_secret(), "");
}

#[test]
fn default_openai_config_uses_placeholder_key() {
    let c = OpenAIConfig::default_with_key(None);
    assert_eq!(c.api_key.expose_secret(), "sk-xxx");
    assert_eq!(c.api_base, "https://api.openai.com/v1");
    assert_eq!(c.org_id, "");
    let seeded = OpenAIConfig::default_with_key(Some("sk-env".to_string()));
    assert_eq!(seeded.api_key.expose_secret(), "sk-env");
}

#[test]
fn error_values_keep_their_kind() {
    let e = CommandError::Db("boom".to_string());
    assert!(matches!(e, CommandError::Db(_)));
    let e2 = CommandError::ChatConfig(ChatConfigError::ModelNotSet);
    assert!(matches!(
        e2,
        CommandError::ChatConfig(ChatConfigError::ModelNotSet)
    ));
}

#[test]
fn listing_skips_a_corrupt_record_without_aborting() {
    let mut store = temp_store();
    update_chat_config(&mut store, some_config(1, Some("gpt-4"), "p", None, 10)).unwrap();
    store.put_config_record(99, &[1, 2, 3]).unwrap();
    let listed = list_chat_configs(&mut store).unwrap();
    assert_eq!(listed.len(), 1);
    assert_eq!(listed[0].uuid, 1);
    // The corrupt record is skipped, not swept: it is still stored, and
    // reading it through the typed getter reports the corruption.
    assert!(store.get_config_record(99).unwrap().is_some());
    assert!(get_chat_config(&store, 99).is_err());
}

#[test]
fn partition_is_total_on_undecodable_records() {
    let pairs = vec![(5u128, vec![0u8]), (6u128, vec![])];
    let (kept, stale) = partition_records(&pairs);
    assert!(kept.is_empty());
    assert!(stale.is_empty());
}

#[test]
fn partition_marks_invalid_records_and_keeps_valid_ones() {
    let valid = some_config(1, Some("gpt-4"), "p", None, 10);
    let invalid = some_config(2, None, "p", None, 20);
    let pairs = vec![
        (1u128, gpt_editor::chat::encode_chat_config(&valid)),
        (2u128, gpt_editor::chat::encode_chat_config(&invalid)),
    ];
    let (kept, stale) = partition_records(&pairs);
    assert_eq!(kept.len(), 1);
    assert_eq!(kept[0].uuid, 1);
    assert_eq!(stale, vec![2u128]);
}
