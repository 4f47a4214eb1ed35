//! The global configuration document: the upstream endpoint and credentials,
//! a default model, and the UI language, together with its persisted record
//! format. The API key is held in a wrapper that is never formatted and is
//! only read through an explicit expose call.

use crate::codec::{
    dec_opt_str, dec_opt_str_at, dec_str, dec_str_at, dec_u64_at, enc_opt_str, enc_str,
    lemma_concat_assoc, lemma_concat_split, lemma_dec_opt_str_at, lemma_dec_str_at,
    spec_enc_opt_str, spec_enc_str,
};
use vstd::prelude::*;
use vstd::utf8::encode_utf8;

verus! {

/// The API key. The wrapper has no formatting implementation at all, so the
/// key cannot leak through logs or debug output; the underlying string is
/// reached only through `expose_secret`.
pub struct ApiKey {
    value: String,
}

impl ApiKey {
    pub closed spec fn spec_expose(self) -> Seq<char> {
        self.value@
    }

    pub fn from_string(s: String) -> (r: ApiKey)
        ensures
            r.spec_expose() == s@,
    {
        ApiKey { value: s }
    }

    /// The one deliberate way to read the key, used when the wire-level
    /// client configuration is built.
    pub fn expose_secret(&self) -> (r: &String)
        ensures
            r@ == self.spec_expose(),
    {
        &self.value
    }

    /// Clear the key in place.
    pub fn zeroize(&mut self)
        ensures
            final(self).spec_expose() == Seq::<char>::empty(),
    {
        self.value = String::new();
    }

    pub fn duplicate(&self) -> (r: ApiKey)
        ensures
            r.spec_expose() == self.spec_expose(),
    {
        ApiKey { value: self.value.clone() }
    }
}

/// Connection settings for the upstream completion API.
pub struct OpenAIConfig {
    pub api_base: String,
    pub api_key: ApiKey,
    pub org_id: String,
}

pub struct OpenAIConfigV {
    pub api_base: Seq<char>,
    pub api_key: Seq<char>,
    pub org_id: Seq<char>,
}

impl View for OpenAIConfig {
    type V = OpenAIConfigV;

    open spec fn view(&self) -> OpenAIConfigV {
        OpenAIConfigV {
            api_base: self.api_base@,
            api_key: self.api_key.spec_expose(),
            org_id: self.org_id@,
        }
    }
}

impl OpenAIConfig {
    /// The defaults, with the key seeded from the caller's environment when
    /// one was found there, and a placeholder otherwise.
    pub fn default_with_key(env_key: Option<String>) -> (r: OpenAIConfig)
        ensures
            r.api_base@ == "https://api.openai.com/v1"@,
            r.org_id@ == Seq::<char>::empty(),
            r.api_key.spec_expose() == (match env_key {
                Some(k) => k@,
                None => "sk-xxx"@,
            }),
    {
        let key: String = match env_key {
            Some(k) => k,
            None => "sk-xxx".to_owned(),
        };
        OpenAIConfig {
            api_base: "https://api.openai.com/v1".to_owned(),
            api_key: ApiKey::from_string(key),
            org_id: String::new(),
        }
    }

    pub fn duplicate(&self) -> (r: OpenAIConfig)
        ensures
            r@ == self@,
    {
        OpenAIConfig {
            api_base: self.api_base.clone(),
            api_key: self.api_key.duplicate(),
            org_id: self.org_id.clone(),
        }
    }
}

impl Default for OpenAIConfig {
    fn default() -> (r: Self)
        ensures
            r.api_base@ == "https://api.openai.com/v1"@,
            r.org_id@ == Seq::<char>::empty(),
            r.api_key.spec_expose() == "sk-xxx"@,
    {
        Self::default_with_key(None)
    }
}

/// Relies on sys_locale::get_locale; the value depends on the machine and
/// nothing is assumed of it.
#[verifier::external_body]
fn system_locale() -> Option<String> {
    sys_locale::get_locale()
}

/// The whole global configuration document.
pub struct Config {
    pub openai: OpenAIConfig,
    pub default_model: Option<String>,
    pub language: String,
}

pub struct ConfigV {
    pub openai: OpenAIConfigV,
    pub default_model: Option<Seq<char>>,
    pub language: Seq<char>,
}

impl View for Config {
    type V = ConfigV;

    open spec fn view(&self) -> ConfigV {
        ConfigV {
            openai: self.openai@,
            default_model: match self.default_model {
                Some(m) => Some(m@),
                None => None,
            },
            language: self.language@,
        }
    }
}

impl Config {
    pub fn duplicate(&self) -> (r: Config)
        ensures
            r@ == self@,
    {
        Config {
            openai: self.openai.duplicate(),
            default_model: match &self.default_model {
                Some(m) => Some(m.clone()),
                None => None,
            },
            language: self.language.clone(),
        }
    }
}

impl Default for Config {
    /// Defaults: upstream defaults, no default model, and the machine's
    /// locale as the language, or a fixed fallback when none is reported.
    fn default() -> (r: Self)
        ensures
            r.default_model is None,
            r.openai.api_base@ == "https://api.openai.com/v1"@,
            r.openai.org_id@ == Seq::<char>::empty(),
            r.openai.api_key.spec_expose() == "sk-xxx"@,
    {
        let language: String = match system_locale() {
            Some(l) => l,
            None => "en-US".to_owned(),
        };
        Config { openai: OpenAIConfig::default(), default_model: None, language }
    }
}

// ---------------------------------------------------------------------------
// record format of the configuration document
// ---------------------------------------------------------------------------

pub open spec fn spec_enc_config_doc(c: ConfigV) -> Seq<u8> {
    spec_enc_str(c.openai.api_base) + (spec_enc_str(c.openai.api_key) + (spec_enc_str(
        c.openai.org_id,
    ) + (spec_enc_opt_str(c.default_model) + spec_enc_str(c.language))))
}

pub open spec fn config_doc_encodable(c: ConfigV) -> bool {
    &&& encode_utf8(c.openai.api_base).len() <= u64::MAX
    &&& encode_utf8(c.openai.api_key).len() <= u64::MAX
    &&& encode_utf8(c.openai.org_id).len() <= u64::MAX
    &&& (c.default_model matches Some(t) ==> encode_utf8(t).len() <= u64::MAX)
    &&& encode_utf8(c.language).len() <= u64::MAX
}

pub open spec fn dec_config_doc_at(s: Seq<u8>, pos: int) -> Option<(ConfigV, int)> {
    match dec_str_at(s, pos) {
        None => None,
        Some((api_base, p1)) => match dec_str_at(s, p1) {
            None => None,
            Some((api_key, p2)) => match dec_str_at(s, p2) {
                None => None,
                Some((org_id, p3)) => match dec_opt_str_at(s, p3) {
                    None => None,
                    Some((default_model, p4)) => match dec_str_at(s, p4) {
                        None => None,
                        Some((language, e)) => Some(
                            (
                                ConfigV {
                                    openai: OpenAIConfigV { api_base, api_key, org_id },
                                    default_model,
                                    language,
                                },
                                e,
                            ),
                        ),
                    },
                },
            },
        },
    }
}

pub open spec fn decoded_config_doc(s: Seq<u8>) -> Option<ConfigV> {
    match dec_config_doc_at(s, 0) {
        Some((c, e)) => if e == s.len() {
            Some(c)
        } else {
            None
        },
        None => None,
    }
}

pub fn encode_config_doc(c: &Config) -> (r: Vec<u8>)
    ensures
        r@ == spec_enc_config_doc(c@),
{
    let mut buf: Vec<u8> = Vec::new();
    enc_str(&mut buf, c.openai.api_base.as_str());
    enc_str(&mut buf, c.openai.api_key.expose_secret().as_str());
    enc_str(&mut buf, c.openai.org_id.as_str());
    enc_opt_str(&mut buf, &c.default_model);
    enc_str(&mut buf, c.language.as_str());
    proof {
        let e0 = spec_enc_str(c@.openai.api_base);
        let e1 = spec_enc_str(c@.openai.api_key);
        let e2 = spec_enc_str(c@.openai.org_id);
        let e3 = spec_enc_opt_str(c@.default_model);
        let e4 = spec_enc_str(c@.language);
        assert(Seq::<u8>::empty() + e0 =~= e0);
        lemma_concat_assoc((e0 + e1) + e2, e3, e4);
        lemma_concat_assoc(e0 + e1, e2, e3 + e4);
        lemma_concat_assoc(e0, e1, e2 + (e3 + e4));
    }
    buf
}

pub fn decode_config_doc(data: &Vec<u8>) -> (r: Option<Config>)
    ensures
        r is None <==> decoded_config_doc(data@) is None,
        r matches Some(c) ==> decoded_config_doc(data@) == Some(c@),
{
    let (api_base, p1) = match dec_str(data, 0) {
        Some(v) => v,
        None => {
            return None;
        },
    };
    let (api_key, p2) = match dec_str(data, p1) {
        Some(v) => v,
        None => {
            return None;
        },
    };
    let (org_id, p3) = match dec_str(data, p2) {
        Some(v) => v,
        None => {
            return None;
        },
    };
    let (default_model, p4) = match dec_opt_str(data, p3) {
        Some(v) => v,
        None => {
            return None;
        },
    };
    let (language, e) = match dec_str(data, p4) {
        Some(v) => v,
        None => {
            return None;
        },
    };
    if e == data.len() {
        Some(
            Config {
                openai: OpenAIConfig { api_base, api_key: ApiKey::from_string(api_key), org_id },
                default_model,
                language,
            },
        )
    } else {
        None
    }
}

pub proof fn lemma_dec_config_doc_at(s: Seq<u8>, pos: int, c: ConfigV)
    requires
        0 <= pos,
        pos + spec_enc_config_doc(c).len() <= s.len(),
        s.subrange(pos, pos + spec_enc_config_doc(c).len() as int) == spec_enc_config_doc(c),
        config_doc_encodable(c),
    ensures
        dec_config_doc_at(s, pos) == Some((c, pos + spec_enc_config_doc(c).len())),
{
    let e0 = spec_enc_str(c.openai.api_base);
    let e1 = spec_enc_str(c.openai.api_key);
    let e2 = spec_enc_str(c.openai.org_id);
    let e3 = spec_enc_opt_str(c.default_model);
    let e4 = spec_enc_str(c.language);
    let r4 = e4;
    let r3 = e3 + r4;
    let r2 = e2 + r3;
    let r1 = e1 + r2;
    lemma_concat_split(s, pos, e0, r1);
    lemma_dec_str_at(s, pos, c.openai.api_base);
    let p1 = pos + e0.len();
    lemma_concat_split(s, p1, e1, r2);
    lemma_dec_str_at(s, p1, c.openai.api_key);
    let p2 = p1 + e1.len();
    lemma_concat_split(s, p2, e2, r3);
    lemma_dec_str_at(s, p2, c.openai.org_id);
    let p3 = p2 + e2.len();
    lemma_concat_split(s, p3, e3, r4);
    lemma_dec_opt_str_at(s, p3, c.default_model);
    let p4 = p3 + e3.len();
    lemma_dec_str_at(s, p4, c.language);
}

/// Law: saving then loading the configuration document yields field-for-field
/// equality; in particular the stored secret decodes back to a wrapper whose
/// exposed string equals the original, since the document view carries the
/// exposed key.
pub proof fn lemma_config_doc_round_trip(c: ConfigV)
    requires
        config_doc_encodable(c),
    ensures
        decoded_config_doc(spec_enc_config_doc(c)) == Some(c),
{
    let s = spec_enc_config_doc(c);
    assert(s.subrange(0, s.len() as int) =~= s);
    lemma_dec_config_doc_at(s, 0, c);
}

} // verus!
