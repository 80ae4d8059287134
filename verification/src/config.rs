//! The configuration of a server: read from the variables of its environment,
//! checked, and resolved into what live sessions and backends need.

use vstd::prelude::*;

use crate::digits::{parse_unsigned, parsed};
use crate::ieee::{single, Single};
use crate::sort::views;
use crate::text::{
    is_blank, lowered, opt_str, opt_text, owned, owned_list, same, split, split_on,
    texts, to_lower, trim, trimmed,
};

verus! {

/// The name of the directory that uploads go to.
pub const UPLOAD_DIR_NAME: &'static str = "vidarax-uploads";

/// How a server talks HTTP.
#[derive(Clone, Copy, Debug, PartialEq, Eq, Structural)]
pub enum TransportMode {
    H1H2,
    H3Experimental,
}

/// The mode that a name stands for, in any case.
pub open spec fn transport_named(name: Seq<char>) -> Option<TransportMode> {
    let n = lowered(name);
    if n == "h1"@ || n == "h2"@ || n == "h1h2"@ || n == "http"@ || n == "http2"@ {
        Some(TransportMode::H1H2)
    } else if n == "h3"@ || n == "http3"@ {
        Some(TransportMode::H3Experimental)
    } else {
        None
    }
}

/// The mode for what was configured, where anything was.
pub open spec fn transport_of(raw: Option<Seq<char>>) -> Option<TransportMode> {
    match raw {
        Some(name) => transport_named(name),
        None => Some(TransportMode::H1H2),
    }
}

/// What is said of a name that stands for no mode.
pub open spec fn transport_problem(raw: Option<Seq<char>>) -> Seq<char> {
    let name = match raw {
        Some(n) => n,
        None => "h1h2"@,
    };
    "unsupported transport mode '"@ + lowered(name) + "', expected one of: h1h2, h3"@
}

impl TransportMode {
    /// The mode that a name stands for: HTTP/1 and HTTP/2 where none is given.
    pub fn parse(raw: Option<&str>) -> (r: Result<Self, String>)
        ensures
            match r {
                Ok(mode) => transport_of(opt_str(raw)) == Some(mode),
                Err(e) => transport_of(opt_str(raw)) is None && e@ == transport_problem(
                    opt_str(raw),
                ),
            },
    {
        match raw {
            None => Ok(TransportMode::H1H2),
            Some(text) => {
                let n = to_lower(text);
                let s = n.as_str();
                if same(s, "h1") || same(s, "h2") || same(s, "h1h2") || same(s, "http") || same(
                    s,
                    "http2",
                ) {
                    Ok(TransportMode::H1H2)
                } else if same(s, "h3") || same(s, "http3") {
                    Ok(TransportMode::H3Experimental)
                } else {
                    let mut e = owned("unsupported transport mode '");
                    e.push_str(s);
                    e.push_str("', expected one of: h1h2, h3");
                    Err(e)
                }
            },
        }
    }

    /// The label of a mode.
    pub open spec fn name(self) -> Seq<char> {
        match self {
            TransportMode::H1H2 => "h1h2"@,
            TransportMode::H3Experimental => "h3-experimental"@,
        }
    }

    /// The label of a mode.
    pub fn label(self) -> (r: &'static str)
        ensures
            r@ == self.name(),
    {
        match self {
            TransportMode::H1H2 => "h1h2",
            TransportMode::H3Experimental => "h3-experimental",
        }
    }
}

/// A variable of the environment: its text, and the number that the text reads
/// as a 32-bit float, where it reads as one.
#[derive(Debug)]
pub struct EnvVar {
    pub name: String,
    pub text: String,
    pub single: Option<Single>,
}

/// The variables that a server is configured by.
#[derive(Debug)]
pub struct Environment {
    pub vars: Vec<EnvVar>,
}

/// The first variable of a name.
pub open spec fn found(vars: Seq<EnvVar>, name: Seq<char>) -> Option<EnvVar>
    decreases vars.len(),
{
    if vars.len() == 0 {
        None
    } else {
        match found(vars.drop_last(), name) {
            Some(v) => Some(v),
            None => if vars.last().name@ == name {
                Some(vars.last())
            } else {
                None
            },
        }
    }
}

proof fn lemma_found_early(vars: Seq<EnvVar>, name: Seq<char>, k: int)
    requires
        0 <= k <= vars.len(),
        found(vars.take(k), name) is Some,
    ensures
        found(vars, name) == found(vars.take(k), name),
    decreases vars.len(),
{
    if k < vars.len() {
        assert(vars.drop_last().take(k) =~= vars.take(k));
        lemma_found_early(vars.drop_last(), name, k);
    } else {
        assert(vars.take(k) =~= vars);
    }
}

impl Environment {
    /// The text of a variable, where it is set.
    pub open spec fn text_of(self, name: Seq<char>) -> Option<Seq<char>> {
        match found(self.vars@, name) {
            Some(v) => Some(v.text@),
            None => None,
        }
    }

    /// The variable of a name, where it is set.
    pub fn var(&self, name: &str) -> (r: Option<&EnvVar>)
        ensures
            match r {
                Some(v) => found(self.vars@, name@) == Some(*v),
                None => found(self.vars@, name@) is None,
            },
    {
        let mut i: usize = 0;
        while i < self.vars.len()
            invariant
                i <= self.vars@.len(),
                found(self.vars@.take(i as int), name@) is None,
            decreases self.vars@.len() - i,
        {
            assert(self.vars@.take(i + 1).drop_last() =~= self.vars@.take(i as int));
            if same(self.vars[i].name.as_str(), name) {
                proof {
                    lemma_found_early(self.vars@, name@, i + 1);
                }
                return Some(&self.vars[i]);
            }
            i += 1;
        }
        assert(self.vars@.take(i as int) =~= self.vars@);
        None
    }

    /// The text of a variable, where it is set.
    pub fn text(&self, name: &str) -> (r: Option<String>)
        ensures
            opt_text(r) == self.text_of(name@),
    {
        match self.var(name) {
            Some(v) => Some(owned(v.text.as_str())),
            None => None,
        }
    }

    /// The text of a variable, or a default.
    pub open spec fn text_or(self, name: Seq<char>, default: Seq<char>) -> Seq<char> {
        match self.text_of(name) {
            Some(t) => t,
            None => default,
        }
    }

    fn read_text_or(&self, name: &str, default: &str) -> (r: String)
        ensures
            r@ == self.text_or(name@, default@),
    {
        match self.var(name) {
            Some(v) => owned(v.text.as_str()),
            None => owned(default),
        }
    }

    /// A switch: nothing where its text is neither on nor off.
    pub open spec fn flag(self, name: Seq<char>, default: bool) -> Option<bool> {
        match self.text_of(name) {
            None => Some(default),
            Some(t) => {
                let l = lowered(t);
                if l == "1"@ || l == "true"@ || l == "yes"@ || l == "on"@ {
                    Some(true)
                } else if l == "0"@ || l == "false"@ || l == "no"@ || l == "off"@ {
                    Some(false)
                } else {
                    None
                }
            },
        }
    }

    fn parse_bool_env(&self, name: &str, default: bool) -> (r: Result<bool, String>)
        ensures
            match r {
                Ok(b) => self.flag(name@, default) == Some(b),
                Err(e) => self.flag(name@, default) is None && e@ == flag_problem(name@),
            },
    {
        match self.var(name) {
            None => Ok(default),
            Some(v) => {
                let l = to_lower(v.text.as_str());
                let s = l.as_str();
                if same(s, "1") || same(s, "true") || same(s, "yes") || same(s, "on") {
                    Ok(true)
                } else if same(s, "0") || same(s, "false") || same(s, "no") || same(s, "off") {
                    Ok(false)
                } else {
                    let mut e = owned(name);
                    e.push_str(" must be one of: 1,true,yes,on,0,false,no,off");
                    Err(e)
                }
            },
        }
    }

    /// An unsigned number: nothing where its text is none, or one over `max`.
    pub open spec fn unsigned(self, name: Seq<char>, default: nat, max: nat) -> Option<nat> {
        match self.text_of(name) {
            None => Some(default),
            Some(t) => parsed(t, 10, max),
        }
    }

    fn parse_u64_env_with_default(&self, name: &str, default: u64, max: u64) -> (r: Result<
        u64,
        String,
    >)
        ensures
            match r {
                Ok(n) => self.unsigned(name@, default as nat, max as nat) == Some(n as nat),
                Err(e) => self.unsigned(name@, default as nat, max as nat) is None && e@
                    == unsigned_problem(name@),
            },
    {
        match self.var(name) {
            None => Ok(default),
            Some(v) => match parse_unsigned(v.text.as_str(), 10, max) {
                Some(n) => Ok(n),
                None => {
                    let mut e = owned(name);
                    e.push_str(" must be an unsigned integer");
                    Err(e)
                },
            },
        }
    }

    fn parse_u64_env(&self, name: &str) -> (r: Result<Option<u64>, String>)
        ensures
            match r {
                Ok(Some(n)) => self.text_of(name@) is Some && self.unsigned(
                    name@,
                    0,
                    u64::MAX as nat,
                ) == Some(n as nat),
                Ok(None) => self.text_of(name@) is None,
                Err(e) => self.unsigned(name@, 0, u64::MAX as nat) is None && e@
                    == unsigned_problem(name@),
            },
    {
        match self.var(name) {
            None => Ok(None),
            Some(_) => match self.parse_u64_env_with_default(name, 0, u64::MAX) {
                Ok(n) => Ok(Some(n)),
                Err(e) => Err(e),
            },
        }
    }

    fn parse_usize_env(&self, name: &str, default: usize) -> (r: Result<usize, String>)
        ensures
            match r {
                Ok(n) => self.unsigned(name@, default as nat, usize::MAX as nat) == Some(n as nat),
                Err(e) => self.unsigned(name@, default as nat, usize::MAX as nat) is None && e@
                    == unsigned_problem(name@),
            },
    {
        match self.parse_u64_env_with_default(name, default as u64, usize::MAX as u64) {
            Ok(n) => {
                Ok(n as usize)
            },
            Err(e) => Err(e),
        }
    }

    fn parse_u32_env_with_default(&self, name: &str, default: u32) -> (r: Result<u32, String>)
        ensures
            match r {
                Ok(n) => self.unsigned(name@, default as nat, u32::MAX as nat) == Some(n as nat),
                Err(e) => self.unsigned(name@, default as nat, u32::MAX as nat) is None && e@
                    == unsigned_problem(name@),
            },
    {
        match self.parse_u64_env_with_default(name, default as u64, u32::MAX as u64) {
            Ok(n) => {
                Ok(n as u32)
            },
            Err(e) => Err(e),
        }
    }

    /// A fraction: nothing where the text of its variable reads as none.
    pub open spec fn fraction(self, name: Seq<char>, default: Single) -> Option<Single> {
        match found(self.vars@, name) {
            None => Some(default),
            Some(v) => v.single,
        }
    }

    fn parse_single_env(&self, name: &str, default: Single) -> (r: Result<Single, String>)
        ensures
            match r {
                Ok(n) => self.fraction(name@, default) == Some(n),
                Err(e) => self.fraction(name@, default) is None && e@ == fraction_problem(name@),
            },
    {
        match self.var(name) {
            None => Ok(default),
            Some(v) => match v.single {
                Some(n) => Ok(n),
                None => {
                    let mut e = owned(name);
                    e.push_str(" must be a floating-point number");
                    Err(e)
                },
            },
        }
    }

    /// The entries of a list, where it is set.
    pub open spec fn list(self, name: Seq<char>) -> Seq<Seq<char>> {
        match self.text_of(name) {
            Some(t) => entries(split_on(t, ',')),
            None => Seq::empty(),
        }
    }

    fn parse_csv_env(&self, name: &str) -> (r: Vec<String>)
        ensures
            texts(r@) == self.list(name@),
    {
        match self.var(name) {
            Some(v) => listed_entries(v.text.as_str()),
            None => {
                let out: Vec<String> = Vec::new();
                assert(texts(out@) =~= Seq::empty());
                out
            },
        }
    }
}

/// What is said of a switch that is neither on nor off.
pub open spec fn flag_problem(name: Seq<char>) -> Seq<char> {
    name + " must be one of: 1,true,yes,on,0,false,no,off"@
}

/// What is said of a text that is no unsigned number.
pub open spec fn unsigned_problem(name: Seq<char>) -> Seq<char> {
    name + " must be an unsigned integer"@
}

/// What is said of a text that is no fraction.
pub open spec fn fraction_problem(name: Seq<char>) -> Seq<char> {
    name + " must be a floating-point number"@
}

/// The parts that are not blank, trimmed.
pub open spec fn entries(parts: Seq<Seq<char>>) -> Seq<Seq<char>>
    decreases parts.len(),
{
    if parts.len() == 0 {
        Seq::empty()
    } else {
        let before = entries(parts.drop_last());
        let t = trimmed(parts.last());
        if t.len() == 0 {
            before
        } else {
            before.push(t)
        }
    }
}

/// The entries of a list whose parts a comma parts.
pub fn listed_entries(raw: &str) -> (r: Vec<String>)
    ensures
        texts(r@) == entries(split_on(raw@, ',')),
{
    let parts = split(raw, ',');
    let ghost all = split_on(raw@, ',');
    let mut out: Vec<String> = Vec::new();
    let mut i: usize = 0;
    assert(all.take(0) =~= Seq::empty());
    assert(texts(out@) =~= Seq::empty());
    while i < parts.len()
        invariant
            all == texts(parts@),
            i <= parts@.len(),
            texts(out@) == entries(all.take(i as int)),
        decreases parts@.len() - i,
    {
        let t = trim(parts[i].as_str());
        let ghost before = texts(out@);
        assert(all.take(i + 1).drop_last() =~= all.take(i as int));
        assert(all.take(i + 1).last() == parts@[i as int]@);
        if !t.as_str().is_empty() {
            let ghost tv = t@;
            out.push(t);
            assert(texts(out@) =~= before.push(tv));
        }
        i += 1;
    }
    assert(all.take(i as int) =~= all);
    out
}


/// The thresholds by which frames are kept or dropped.
#[derive(Clone, Copy, Debug, PartialEq, Eq, Structural)]
pub struct GateConfig {
    pub keepalive_every_frames: u64,
    pub scene_cut_hamming_threshold: u32,
    pub luma_shift_threshold: Single,
    pub flicker_threshold: Single,
    pub ghosting_threshold: Single,
    pub noise_variance_threshold: Single,
}

/// How answers of a large model are collected for a small one.
#[derive(Debug)]
pub struct DistillationConfig {
    pub enabled: bool,
    pub embedding_server_url: Option<String>,
    pub teacher_model: String,
    pub max_pairs_per_tenant: usize,
    pub collection_rate: Single,
    pub distance_threshold: Single,
    pub knn_k: usize,
}

/// The configuration of a server.
#[derive(Debug)]
pub struct ServerConfig {
    pub bind_addr: String,
    pub h3_bind_addr: String,
    pub h3_tls_cert_path: String,
    pub h3_tls_key_path: String,
    pub data_dir: String,
    pub ingest_file_roots: Vec<String>,
    pub inference_vllm_base_url: Option<String>,
    pub inference_sglang_base_url: Option<String>,
    pub security_require_api_key: bool,
    pub security_api_keys: Vec<String>,
    pub security_require_tenant_id: bool,
    pub security_global_rps: Option<u64>,
    pub security_tenant_rps: Option<u64>,
    pub security_tenant_slots: usize,
    pub security_metrics_require_api_key: bool,
    pub cors_allowed_origins: Vec<String>,
    pub stream_ttl_secs: u64,
    pub active_stream_limit: usize,
    pub transport: TransportMode,
    pub decode_backend: String,
    /// STUN server URIs, Google's public one where none is configured.
    pub webrtc_stun_servers: Vec<String>,
    /// A TURN relay, where one is configured.
    pub webrtc_turn_url: Option<String>,
    pub webrtc_turn_username: Option<String>,
    pub webrtc_turn_credential: Option<String>,
    /// Where the SpacetimeDB is, where there is one.
    pub spacetimedb_url: Option<String>,
    pub spacetimedb_module: Option<String>,
    /// How many tokens a second a session may be answered with.
    pub webrtc_max_output_tokens_per_second: u32,
    pub webrtc_decode_workers: usize,
    pub webrtc_analysis_workers: usize,
    pub webrtc_vlm_workers: usize,
    /// The model that sees every keyframe.
    pub webrtc_first_pass_model: String,
    /// The model that sees what the first was unsure of, where there is one.
    pub webrtc_second_pass_model: Option<String>,
    /// The confidence below which the second model runs.
    pub webrtc_second_pass_threshold: Single,
    pub webrtc_second_pass_max_tokens: u32,
    pub gate_config: GateConfig,
    pub distillation: DistillationConfig,
}

/// The pattern of 0.7, the usual second-pass threshold.
pub const USUAL_THRESHOLD_BITS: u32 = 0x3f33_3333;

/// The pattern of 1.
pub const ONE_BITS: u32 = 0x3f80_0000;

/// The pattern of 2.
pub const TWO_BITS: u32 = 0x4000_0000;

/// The pattern of 0.1.
pub const TENTH_BITS: u32 = 0x3dcc_cccd;

/// The pattern of 0.2.
pub const FIFTH_BITS: u32 = 0x3e4c_cccd;

/// The model that is used where none is named.
pub const USUAL_MODEL: &'static str = "Qwen/Qwen3-VL-8B-Instruct";

/// The variable that lists the directories that files are taken from.
pub const INGEST_ROOTS_VAR: &'static str = "VIDARAX_INGEST_FILE_ROOTS";

/// The directories that files may be taken from, as they were configured.
pub fn requested_ingest_roots(env: &Environment) -> (r: Vec<String>)
    ensures
        texts(r@) == env.list(INGEST_ROOTS_VAR@),
{
    env.parse_csv_env(INGEST_ROOTS_VAR)
}

/// Where a configured directory really is, or why it cannot be found.
#[derive(Debug)]
pub enum RootLookup {
    Found(String),
    Missing(String),
}

/// What is said of a directory that cannot be found.
pub open spec fn root_problem(root: Seq<char>, why: Seq<char>) -> Seq<char> {
    INGEST_ROOTS_VAR@ + " contains invalid root '"@ + root + "': "@ + why
}

/// What is said of the first directory that cannot be found, where there is
/// one.
pub open spec fn roots_problem(requested: Seq<Seq<char>>, roots: Seq<RootLookup>) -> Option<
    Seq<char>,
>
    decreases requested.len(),
{
    if requested.len() == 0 || requested.len() != roots.len() {
        None
    } else {
        match roots_problem(requested.drop_last(), roots.drop_last()) {
            Some(e) => Some(e),
            None => match roots.last() {
                RootLookup::Found(_) => None,
                RootLookup::Missing(why) => Some(root_problem(requested.last(), why@)),
            },
        }
    }
}

/// Where the directories really are.
pub open spec fn found_roots(roots: Seq<RootLookup>) -> Seq<Seq<char>> {
    Seq::new(
        roots.len(),
        |i: int|
            match roots[i] {
                RootLookup::Found(path) => path@,
                RootLookup::Missing(_) => Seq::empty(),
            },
    )
}

proof fn lemma_roots_fail_early(requested: Seq<Seq<char>>, roots: Seq<RootLookup>, k: int)
    requires
        0 <= k <= requested.len(),
        requested.len() == roots.len(),
        roots_problem(requested.take(k), roots.take(k)) is Some,
    ensures
        roots_problem(requested, roots) == roots_problem(requested.take(k), roots.take(k)),
    decreases requested.len(),
{
    if k < requested.len() {
        assert(requested.drop_last().take(k) =~= requested.take(k));
        assert(roots.drop_last().take(k) =~= roots.take(k));
        lemma_roots_fail_early(requested.drop_last(), roots.drop_last(), k);
    } else {
        assert(requested.take(k) =~= requested);
        assert(roots.take(k) =~= roots);
    }
}

fn checked_ingest_roots(requested: &Vec<String>, roots: &Vec<RootLookup>) -> (r: Result<
    Vec<String>,
    String,
>)
    requires
        requested@.len() == roots@.len(),
    ensures
        match r {
            Ok(paths) => roots_problem(texts(requested@), roots@) is None && texts(paths@)
                == found_roots(roots@),
            Err(e) => roots_problem(texts(requested@), roots@) == Some(e@),
        },
{
    let ghost asked = texts(requested@);
    let mut out: Vec<String> = Vec::new();
    let mut i: usize = 0;
    assert(texts(out@) =~= found_roots(roots@.take(0)));
    while i < roots.len()
        invariant
            requested@.len() == roots@.len(),
            asked == texts(requested@),
            i <= roots@.len(),
            roots_problem(asked.take(i as int), roots@.take(i as int)) is None,
            texts(out@) == found_roots(roots@.take(i as int)),
        decreases roots@.len() - i,
    {
        assert(asked.take(i + 1).drop_last() =~= asked.take(i as int));
        assert(roots@.take(i + 1).drop_last() =~= roots@.take(i as int));
        assert(asked.take(i + 1).last() == requested@[i as int]@);
        match &roots[i] {
            RootLookup::Found(path) => {
                let ghost before = texts(out@);
                out.push(owned(path.as_str()));
                assert(texts(out@) =~= before.push(path@));
                assert(found_roots(roots@.take(i + 1)) =~= before.push(path@));
            },
            RootLookup::Missing(why) => {
                let mut e = owned(INGEST_ROOTS_VAR);
                e.push_str(" contains invalid root '");
                e.push_str(requested[i].as_str());
                e.push_str("': ");
                e.push_str(why.as_str());
                proof {
                    lemma_roots_fail_early(asked, roots@, i + 1);
                }
                return Err(e);
            },
        }
        i += 1;
    }
    assert(asked.take(i as int) =~= asked);
    assert(roots@.take(i as int) =~= roots@);
    Ok(out)
}

/// Whether tenants are asked for without keys to tell callers apart.
pub open spec fn tenants_without_keys(require_api_key: bool, require_tenant_id: bool) -> bool {
    require_tenant_id && !require_api_key
}

/// What is said of tenants without keys.
pub const TENANT_AUTH_PROBLEM: &'static str =
    "VIDARAX_REQUIRE_TENANT_ID requires VIDARAX_REQUIRE_API_KEY=true: tenant isolation is derived from authenticated API keys";

/// Refuses tenants that no key vouches for.
pub fn validate_tenant_auth_config(
    security_require_api_key: bool,
    security_require_tenant_id: bool,
) -> (r: Result<(), String>)
    ensures
        match r {
            Ok(_) => !tenants_without_keys(security_require_api_key, security_require_tenant_id),
            Err(e) => tenants_without_keys(security_require_api_key, security_require_tenant_id)
                && e@ == TENANT_AUTH_PROBLEM@,
        },
{
    if security_require_tenant_id && !security_require_api_key {
        return Err(owned(TENANT_AUTH_PROBLEM));
    }
    Ok(())
}

/// Whether some origin stands for all.
pub open spec fn has_wildcard(origins: Seq<Seq<char>>) -> bool {
    exists|i: int| 0 <= i < origins.len() && trimmed(#[trigger] origins[i]) == "*"@
}

fn any_wildcard(origins: &Vec<String>) -> (r: bool)
    ensures
        r == has_wildcard(texts(origins@)),
{
    let ghost all = texts(origins@);
    let mut i: usize = 0;
    while i < origins.len()
        invariant
            all == texts(origins@),
            i <= origins@.len(),
            forall|k: int| 0 <= k < i ==> trimmed(#[trigger] all[k]) != "*"@,
        decreases origins@.len() - i,
    {
        assert(all[i as int] == origins@[i as int]@);
        if same(trim(origins[i].as_str()).as_str(), "*") {
            return true;
        }
        i += 1;
    }
    false
}

/// What is said of an origin that stands for all where keys are asked for.
pub const WILDCARD_PROBLEM: &'static str =
    "VIDARAX_CORS_ALLOWED_ORIGINS must not contain '*' when VIDARAX_REQUIRE_API_KEY is enabled";

/// What is said of a time to live out of range.
pub const STREAM_TTL_PROBLEM: &'static str = "VIDARAX_STREAM_TTL_SECS must be in [60, 86400]";

/// A number moved into a range.
pub open spec fn clamped_to(n: nat, lo: nat, hi: nat) -> nat {
    if n < lo {
        lo
    } else if n > hi {
        hi
    } else {
        n
    }
}

fn clamp_usize(n: usize, lo: usize, hi: usize) -> (r: usize)
    ensures
        r == clamped_to(n as nat, lo as nat, hi as nat),
{
    if n < lo {
        lo
    } else if n > hi {
        hi
    } else {
        n
    }
}

/// The second-pass threshold that is used for one that was configured: the
/// usual one where it is not finite, else the nearest between zero and one.
pub open spec fn usable_threshold(t: Single) -> Single {
    if t.finite() {
        t.clamped(single(0), single(ONE_BITS))
    } else {
        single(USUAL_THRESHOLD_BITS)
    }
}

fn sane_threshold(t: Single) -> (r: Single)
    ensures
        r == usable_threshold(t),
{
    if t.is_finite() {
        t.clamp(Single { bits: 0 }, Single { bits: ONE_BITS })
    } else {
        Single { bits: USUAL_THRESHOLD_BITS }
    }
}

/// The first of two problems, where there is one.
pub open spec fn first_problem(a: Option<Seq<char>>, b: Option<Seq<char>>) -> Option<Seq<char>> {
    match a {
        Some(e) => Some(e),
        None => b,
    }
}

/// A problem where something holds.
pub open spec fn problem_if(bad: bool, e: Seq<char>) -> Option<Seq<char>> {
    if bad {
        Some(e)
    } else {
        None
    }
}

impl Environment {
    /// The problem of a switch.
    pub open spec fn flag_error(self, name: Seq<char>) -> Option<Seq<char>> {
        problem_if(self.flag(name, true) is None, flag_problem(name))
    }

    /// The problem of an unsigned number.
    pub open spec fn unsigned_error(self, name: Seq<char>, max: nat) -> Option<Seq<char>> {
        problem_if(self.unsigned(name, 0, max) is None, unsigned_problem(name))
    }

    /// The problem of a fraction.
    pub open spec fn fraction_error(self, name: Seq<char>) -> Option<Seq<char>> {
        problem_if(self.fraction(name, single(0)) is None, fraction_problem(name))
    }
}

/// The first problem of the variables on frame gating.
pub open spec fn gate_problem(env: Environment) -> Option<Seq<char>> {
    first_problem(
        env.unsigned_error("VIDARAX_GATE_KEEPALIVE_EVERY_FRAMES"@, u64::MAX as nat),
        first_problem(
            env.unsigned_error("VIDARAX_GATE_SCENE_CUT_HAMMING_THRESHOLD"@, u32::MAX as nat),
            first_problem(
                env.fraction_error("VIDARAX_GATE_LUMA_SHIFT_THRESHOLD"@),
                first_problem(
                    env.fraction_error("VIDARAX_GATE_FLICKER_THRESHOLD"@),
                    first_problem(
                        env.fraction_error("VIDARAX_GATE_GHOSTING_THRESHOLD"@),
                        env.fraction_error("VIDARAX_GATE_NOISE_VARIANCE_THRESHOLD"@),
                    ),
                ),
            ),
        ),
    )
}

/// Frame gating as the variables ask for it, over the defaults.
pub open spec fn gate_of(env: Environment, default: GateConfig) -> GateConfig {
    GateConfig {
        keepalive_every_frames: env.unsigned(
            "VIDARAX_GATE_KEEPALIVE_EVERY_FRAMES"@,
            default.keepalive_every_frames as nat,
            u64::MAX as nat,
        )->0 as u64,
        scene_cut_hamming_threshold: env.unsigned(
            "VIDARAX_GATE_SCENE_CUT_HAMMING_THRESHOLD"@,
            default.scene_cut_hamming_threshold as nat,
            u32::MAX as nat,
        )->0 as u32,
        luma_shift_threshold: env.fraction(
            "VIDARAX_GATE_LUMA_SHIFT_THRESHOLD"@,
            default.luma_shift_threshold,
        )->0,
        flicker_threshold: env.fraction(
            "VIDARAX_GATE_FLICKER_THRESHOLD"@,
            default.flicker_threshold,
        )->0,
        ghosting_threshold: env.fraction(
            "VIDARAX_GATE_GHOSTING_THRESHOLD"@,
            default.ghosting_threshold,
        )->0,
        noise_variance_threshold: env.fraction(
            "VIDARAX_GATE_NOISE_VARIANCE_THRESHOLD"@,
            default.noise_variance_threshold,
        )->0,
    }
}

fn parse_gate_config(env: &Environment, default: GateConfig) -> (r: Result<GateConfig, String>)
    ensures
        match r {
            Ok(g) => gate_problem(*env) is None && g == gate_of(*env, default),
            Err(e) => gate_problem(*env) == Some(e@),
        },
{
    let keepalive_every_frames: u64 = match env.parse_u64_env_with_default(
        "VIDARAX_GATE_KEEPALIVE_EVERY_FRAMES",
        default.keepalive_every_frames,
        u64::MAX,
    ) {
        Ok(n) => n,
        Err(e) => return Err(e),
    };
    let scene_cut_hamming_threshold: u32 = match env.parse_u32_env_with_default(
        "VIDARAX_GATE_SCENE_CUT_HAMMING_THRESHOLD",
        default.scene_cut_hamming_threshold,
    ) {
        Ok(n) => n,
        Err(e) => return Err(e),
    };
    let luma_shift_threshold = match env.parse_single_env(
        "VIDARAX_GATE_LUMA_SHIFT_THRESHOLD",
        default.luma_shift_threshold,
    ) {
        Ok(n) => n,
        Err(e) => return Err(e),
    };
    let flicker_threshold = match env.parse_single_env(
        "VIDARAX_GATE_FLICKER_THRESHOLD",
        default.flicker_threshold,
    ) {
        Ok(n) => n,
        Err(e) => return Err(e),
    };
    let ghosting_threshold = match env.parse_single_env(
        "VIDARAX_GATE_GHOSTING_THRESHOLD",
        default.ghosting_threshold,
    ) {
        Ok(n) => n,
        Err(e) => return Err(e),
    };
    let noise_variance_threshold = match env.parse_single_env(
        "VIDARAX_GATE_NOISE_VARIANCE_THRESHOLD",
        default.noise_variance_threshold,
    ) {
        Ok(n) => n,
        Err(e) => return Err(e),
    };
    Ok(
        GateConfig {
            keepalive_every_frames,
            scene_cut_hamming_threshold,
            luma_shift_threshold,
            flicker_threshold,
            ghosting_threshold,
            noise_variance_threshold,
        },
    )
}

/// The first problem of the variables on distillation.
pub open spec fn distillation_problem(env: Environment) -> Option<Seq<char>> {
    first_problem(
        env.flag_error("VIDARAX_DISTILL_ENABLED"@),
        first_problem(
            env.unsigned_error("VIDARAX_DISTILL_MAX_PAIRS"@, usize::MAX as nat),
            first_problem(
                env.fraction_error("VIDARAX_DISTILL_COLLECTION_RATE"@),
                first_problem(
                    env.fraction_error("VIDARAX_DISTILL_DISTANCE_THRESHOLD"@),
                    env.unsigned_error("VIDARAX_DISTILL_KNN_K"@, usize::MAX as nat),
                ),
            ),
        ),
    )
}

/// Whether a configuration of distillation is the one that the variables ask
/// for.
pub open spec fn is_distillation_of(d: DistillationConfig, env: Environment) -> bool {
    &&& Some(d.enabled) == env.flag("VIDARAX_DISTILL_ENABLED"@, false)
    &&& opt_text(d.embedding_server_url) == env.text_of("VIDARAX_DISTILL_EMBEDDING_URL"@)
    &&& d.teacher_model@ == env.text_or("VIDARAX_DISTILL_TEACHER_MODEL"@, USUAL_MODEL@)
    &&& d.max_pairs_per_tenant == clamped_to(
        env.unsigned("VIDARAX_DISTILL_MAX_PAIRS"@, 10_000, usize::MAX as nat)->0,
        100,
        1_000_000,
    )
    &&& d.collection_rate == env.fraction(
        "VIDARAX_DISTILL_COLLECTION_RATE"@,
        single(TENTH_BITS),
    )->0.clamped(single(0), single(ONE_BITS))
    &&& d.distance_threshold == env.fraction(
        "VIDARAX_DISTILL_DISTANCE_THRESHOLD"@,
        single(FIFTH_BITS),
    )->0.clamped(single(0), single(TWO_BITS))
    &&& d.knn_k == clamped_to(
        env.unsigned("VIDARAX_DISTILL_KNN_K"@, 7, usize::MAX as nat)->0,
        1,
        100,
    )
}

fn parse_distillation_config(env: &Environment) -> (r: Result<DistillationConfig, String>)
    ensures
        match r {
            Ok(d) => distillation_problem(*env) is None && is_distillation_of(d, *env),
            Err(e) => distillation_problem(*env) == Some(e@),
        },
{
    let enabled = match env.parse_bool_env("VIDARAX_DISTILL_ENABLED", false) {
        Ok(b) => b,
        Err(e) => return Err(e),
    };
    let embedding_server_url = env.text("VIDARAX_DISTILL_EMBEDDING_URL");
    let teacher_model = env.read_text_or("VIDARAX_DISTILL_TEACHER_MODEL", USUAL_MODEL);
    let pairs: usize = match env.parse_usize_env("VIDARAX_DISTILL_MAX_PAIRS", 10_000) {
        Ok(n) => n,
        Err(e) => return Err(e),
    };
    let rate = match env.parse_single_env(
        "VIDARAX_DISTILL_COLLECTION_RATE",
        Single { bits: TENTH_BITS },
    ) {
        Ok(n) => n,
        Err(e) => return Err(e),
    };
    let distance = match env.parse_single_env(
        "VIDARAX_DISTILL_DISTANCE_THRESHOLD",
        Single { bits: FIFTH_BITS },
    ) {
        Ok(n) => n,
        Err(e) => return Err(e),
    };
    let knn: usize = match env.parse_usize_env("VIDARAX_DISTILL_KNN_K", 7) {
        Ok(n) => n,
        Err(e) => return Err(e),
    };
    Ok(
        DistillationConfig {
            enabled,
            embedding_server_url,
            teacher_model,
            max_pairs_per_tenant: clamp_usize(pairs, 100, 1_000_000),
            collection_rate: rate.clamp(Single { bits: 0 }, Single { bits: ONE_BITS }),
            distance_threshold: distance.clamp(Single { bits: 0 }, Single { bits: TWO_BITS }),
            knn_k: clamp_usize(knn, 1, 100),
        },
    )
}


/// The first problem of the variables on the second model of live sessions.
pub open spec fn tiering_problem(env: Environment) -> Option<Seq<char>> {
    first_problem(
        env.fraction_error("VIDARAX_WEBRTC_SECOND_PASS_THRESHOLD"@),
        env.unsigned_error("VIDARAX_WEBRTC_SECOND_PASS_MAX_TOKENS"@, u32::MAX as nat),
    )
}

/// The second model, where one is named that is not blank.
pub open spec fn second_model(named: Option<Seq<char>>) -> Option<Seq<char>> {
    match named {
        Some(m) => if trimmed(m).len() == 0 {
            None
        } else {
            Some(m)
        },
        None => None,
    }
}

/// The models that live sessions ask, and when they ask the second.
#[derive(Debug)]
struct TieringVars {
    first: String,
    second: Option<String>,
    threshold: Single,
    max_tokens: u32,
}

fn parse_webrtc_vlm_tiering(env: &Environment) -> (r: Result<TieringVars, String>)
    ensures
        match r {
            Ok(t) => {
                &&& tiering_problem(*env) is None
                &&& t.first@ == env.text_or("VIDARAX_WEBRTC_FIRST_PASS_MODEL"@, USUAL_MODEL@)
                &&& opt_text(t.second) == second_model(
                    env.text_of("VIDARAX_WEBRTC_SECOND_PASS_MODEL"@),
                )
                &&& t.threshold == usable_threshold(
                    env.fraction(
                        "VIDARAX_WEBRTC_SECOND_PASS_THRESHOLD"@,
                        single(USUAL_THRESHOLD_BITS),
                    )->0,
                )
                &&& Some(t.max_tokens as nat) == env.unsigned(
                    "VIDARAX_WEBRTC_SECOND_PASS_MAX_TOKENS"@,
                    256,
                    u32::MAX as nat,
                )
            },
            Err(e) => tiering_problem(*env) == Some(e@),
        },
{
    let first = env.read_text_or("VIDARAX_WEBRTC_FIRST_PASS_MODEL", USUAL_MODEL);
    let second = match env.text("VIDARAX_WEBRTC_SECOND_PASS_MODEL") {
        Some(m) => if is_blank(m.as_str()) {
            None
        } else {
            Some(m)
        },
        None => None,
    };
    let threshold = match env.parse_single_env(
        "VIDARAX_WEBRTC_SECOND_PASS_THRESHOLD",
        Single { bits: USUAL_THRESHOLD_BITS },
    ) {
        Ok(t) => sane_threshold(t),
        Err(e) => return Err(e),
    };
    let max_tokens: u32 = match env.parse_u32_env_with_default(
        "VIDARAX_WEBRTC_SECOND_PASS_MAX_TOKENS",
        256,
    ) {
        Ok(n) => n,
        Err(e) => return Err(e),
    };
    Ok(TieringVars { first, second, threshold, max_tokens })
}

/// The STUN servers for what was listed.
pub open spec fn stun_servers_of(listed: Seq<Seq<char>>) -> Seq<Seq<char>> {
    if listed.len() == 0 {
        seq!["stun:stun.l.google.com:19302"@]
    } else {
        listed
    }
}

/// The first problem of the variables on who may call, and from where.
pub open spec fn access_problem(env: Environment) -> Option<Seq<char>> {
    let keys = env.flag("VIDARAX_REQUIRE_API_KEY"@, true);
    let tenants = env.flag("VIDARAX_REQUIRE_TENANT_ID"@, false);
    first_problem(
        env.flag_error("VIDARAX_REQUIRE_API_KEY"@),
        first_problem(
            env.flag_error("VIDARAX_REQUIRE_TENANT_ID"@),
            first_problem(
                env.unsigned_error("VIDARAX_RATE_LIMIT_GLOBAL_RPS"@, u64::MAX as nat),
                first_problem(
                    env.unsigned_error("VIDARAX_RATE_LIMIT_TENANT_RPS"@, u64::MAX as nat),
                    first_problem(
                        env.unsigned_error("VIDARAX_RATE_LIMIT_TENANT_SLOTS"@, usize::MAX as nat),
                        first_problem(
                            env.flag_error("VIDARAX_METRICS_REQUIRE_API_KEY"@),
                            first_problem(
                                problem_if(
                                    keys == Some(true) && has_wildcard(
                                        env.list("VIDARAX_CORS_ALLOWED_ORIGINS"@),
                                    ),
                                    WILDCARD_PROBLEM@,
                                ),
                                problem_if(
                                    tenants_without_keys(keys->0, tenants->0),
                                    TENANT_AUTH_PROBLEM@,
                                ),
                            ),
                        ),
                    ),
                ),
            ),
        ),
    )
}

/// The first problem of the variables on streams and their workers.
pub open spec fn stream_problem(env: Environment) -> Option<Seq<char>> {
    let ttl = env.unsigned("VIDARAX_STREAM_TTL_SECS"@, 3600, u64::MAX as nat);
    first_problem(
        env.unsigned_error("VIDARAX_STREAM_TTL_SECS"@, u64::MAX as nat),
        first_problem(
            problem_if(!(60 <= ttl->0 <= 86_400), STREAM_TTL_PROBLEM@),
            first_problem(
                env.unsigned_error("VIDARAX_ACTIVE_STREAM_LIMIT"@, usize::MAX as nat),
                first_problem(
                    env.unsigned_error(
                        "VIDARAX_WEBRTC_MAX_OUTPUT_TOKENS_PER_SECOND"@,
                        usize::MAX as nat,
                    ),
                    first_problem(
                        env.unsigned_error("VIDARAX_WEBRTC_DECODE_WORKERS"@, usize::MAX as nat),
                        first_problem(
                            env.unsigned_error(
                                "VIDARAX_WEBRTC_ANALYSIS_WORKERS"@,
                                usize::MAX as nat,
                            ),
                            env.unsigned_error("VIDARAX_WEBRTC_VLM_WORKERS"@, usize::MAX as nat),
                        ),
                    ),
                ),
            ),
        ),
    )
}

/// The first problem of a configuration, where there is one.
pub open spec fn config_problem(env: Environment, roots: Seq<RootLookup>) -> Option<Seq<char>> {
    let transport = env.text_of("VIDARAX_TRANSPORT"@);
    first_problem(
        problem_if(transport_of(transport) is None, transport_problem(transport)),
        first_problem(
            roots_problem(env.list(INGEST_ROOTS_VAR@), roots),
            first_problem(
                access_problem(env),
                first_problem(
                    stream_problem(env),
                    first_problem(
                        tiering_problem(env),
                        first_problem(gate_problem(env), distillation_problem(env)),
                    ),
                ),
            ),
        ),
    )
}

/// A limit on a rate, where one is set.
pub open spec fn rate_limit(env: Environment, name: Seq<char>) -> Option<u64> {
    match env.text_of(name) {
        Some(_) => Some(env.unsigned(name, 0, u64::MAX as nat)->0 as u64),
        None => None,
    }
}

impl ServerConfig {
    /// Whether the addresses and directories are the ones that the variables
    /// ask for.
    pub open spec fn has_places_of(self, env: Environment, roots: Seq<RootLookup>) -> bool {
        &&& self.bind_addr@ == env.text_or("VIDARAX_BIND_ADDR"@, "127.0.0.1:8080"@)
        &&& self.h3_bind_addr@ == env.text_or("VIDARAX_H3_BIND_ADDR"@, "127.0.0.1:8443"@)
        &&& self.h3_tls_cert_path@ == env.text_or(
            "VIDARAX_H3_TLS_CERT_PATH"@,
            "deploy/certs/dev.crt"@,
        )
        &&& self.h3_tls_key_path@ == env.text_or(
            "VIDARAX_H3_TLS_KEY_PATH"@,
            "deploy/certs/dev.key"@,
        )
        &&& self.data_dir@ == env.text_or("VIDARAX_DATA_DIR"@, ".vidarax-data"@)
        &&& texts(self.ingest_file_roots@) == found_roots(roots)
        &&& opt_text(self.inference_vllm_base_url) == env.text_of("VIDARAX_VLLM_BASE_URL"@)
        &&& opt_text(self.inference_sglang_base_url) == env.text_of("VIDARAX_SGLANG_BASE_URL"@)
        &&& opt_text(self.spacetimedb_url) == env.text_of("VIDARAX_SPACETIMEDB_URL"@)
        &&& opt_text(self.spacetimedb_module) == env.text_of("VIDARAX_SPACETIMEDB_MODULE"@)
        &&& Some(self.transport) == transport_of(env.text_of("VIDARAX_TRANSPORT"@))
        &&& self.decode_backend@ == env.text_or("VIDARAX_DECODE_BACKEND"@, "auto"@)
    }

    /// Whether the rules on who may call are the ones that the variables ask
    /// for.
    pub open spec fn has_access_of(self, env: Environment) -> bool {
        &&& Some(self.security_require_api_key) == env.flag("VIDARAX_REQUIRE_API_KEY"@, true)
        &&& texts(self.security_api_keys@) == env.list("VIDARAX_API_KEYS"@)
        &&& Some(self.security_require_tenant_id) == env.flag("VIDARAX_REQUIRE_TENANT_ID"@, false)
        &&& self.security_global_rps == rate_limit(env, "VIDARAX_RATE_LIMIT_GLOBAL_RPS"@)
        &&& self.security_tenant_rps == rate_limit(env, "VIDARAX_RATE_LIMIT_TENANT_RPS"@)
        &&& Some(self.security_tenant_slots as nat) == env.unsigned(
            "VIDARAX_RATE_LIMIT_TENANT_SLOTS"@,
            2048,
            usize::MAX as nat,
        )
        &&& Some(self.security_metrics_require_api_key) == env.flag(
            "VIDARAX_METRICS_REQUIRE_API_KEY"@,
            true,
        )
        &&& texts(self.cors_allowed_origins@) == env.list("VIDARAX_CORS_ALLOWED_ORIGINS"@)
    }

    /// Whether the settings of streams are the ones that the variables ask for.
    /// One stream keeps its order through one worker of each sort, however many
    /// are asked for.
    pub open spec fn has_streams_of(self, env: Environment) -> bool {
        &&& Some(self.stream_ttl_secs as nat) == env.unsigned(
            "VIDARAX_STREAM_TTL_SECS"@,
            3600,
            u64::MAX as nat,
        )
        &&& self.active_stream_limit == clamped_to(
            env.unsigned("VIDARAX_ACTIVE_STREAM_LIMIT"@, 5, usize::MAX as nat)->0,
            1,
            1024,
        )
        &&& texts(self.webrtc_stun_servers@) == stun_servers_of(
            env.list("VIDARAX_WEBRTC_STUN_SERVERS"@),
        )
        &&& opt_text(self.webrtc_turn_url) == env.text_of("VIDARAX_WEBRTC_TURN_URL"@)
        &&& opt_text(self.webrtc_turn_username) == env.text_of("VIDARAX_WEBRTC_TURN_USERNAME"@)
        &&& opt_text(self.webrtc_turn_credential) == env.text_of("VIDARAX_WEBRTC_TURN_CREDENTIAL"@)
        &&& self.webrtc_max_output_tokens_per_second == env.unsigned(
            "VIDARAX_WEBRTC_MAX_OUTPUT_TOKENS_PER_SECOND"@,
            128,
            usize::MAX as nat,
        )->0 % 0x1_0000_0000
        &&& self.webrtc_decode_workers == 1
        &&& self.webrtc_analysis_workers == 1
        &&& self.webrtc_vlm_workers == 1
    }

    /// Whether the models of live sessions are the ones that the variables ask
    /// for.
    pub open spec fn has_models_of(self, env: Environment) -> bool {
        &&& self.webrtc_first_pass_model@ == env.text_or(
            "VIDARAX_WEBRTC_FIRST_PASS_MODEL"@,
            USUAL_MODEL@,
        )
        &&& opt_text(self.webrtc_second_pass_model) == second_model(
            env.text_of("VIDARAX_WEBRTC_SECOND_PASS_MODEL"@),
        )
        &&& self.webrtc_second_pass_threshold == usable_threshold(
            env.fraction(
                "VIDARAX_WEBRTC_SECOND_PASS_THRESHOLD"@,
                single(USUAL_THRESHOLD_BITS),
            )->0,
        )
        &&& Some(self.webrtc_second_pass_max_tokens as nat) == env.unsigned(
            "VIDARAX_WEBRTC_SECOND_PASS_MAX_TOKENS"@,
            256,
            u32::MAX as nat,
        )
    }

    /// The configuration that the variables of the environment ask for.
    /// `roots` says where each of the requested directories really is.
    pub fn from_env(
        env: &Environment,
        roots: &Vec<RootLookup>,
        gate_default: GateConfig,
    ) -> (r: Result<Self, String>)
        requires
            roots@.len() == env.list(INGEST_ROOTS_VAR@).len(),
        ensures
            match r {
                Ok(c) => {
                    &&& config_problem(*env, roots@) is None
                    &&& c.has_places_of(*env, roots@)
                    &&& c.has_access_of(*env)
                    &&& c.has_streams_of(*env)
                    &&& c.has_models_of(*env)
                    &&& c.gate_config == gate_of(*env, gate_default)
                    &&& is_distillation_of(c.distillation, *env)
                },
                Err(e) => config_problem(*env, roots@) == Some(e@),
            },
    {
        let transport = match env.var("VIDARAX_TRANSPORT") {
            Some(v) => match TransportMode::parse(Some(v.text.as_str())) {
                Ok(t) => t,
                Err(e) => return Err(e),
            },
            None => TransportMode::H1H2,
        };
        let requested = requested_ingest_roots(env);
        assert(requested@.len() == texts(requested@).len());
        let ingest_file_roots = match checked_ingest_roots(&requested, roots) {
            Ok(paths) => paths,
            Err(e) => return Err(e),
        };
        let access = match parse_access(env) {
            Ok(a) => a,
            Err(e) => return Err(e),
        };
        let streams = match parse_streams(env) {
            Ok(v) => v,
            Err(e) => return Err(e),
        };
        let tiering = match parse_webrtc_vlm_tiering(env) {
            Ok(t) => t,
            Err(e) => return Err(e),
        };
        let gate_config = match parse_gate_config(env, gate_default) {
            Ok(g) => g,
            Err(e) => return Err(e),
        };
        let distillation = match parse_distillation_config(env) {
            Ok(d) => d,
            Err(e) => return Err(e),
        };
        Ok(
            ServerConfig {
                bind_addr: env.read_text_or("VIDARAX_BIND_ADDR", "127.0.0.1:8080"),
                h3_bind_addr: env.read_text_or("VIDARAX_H3_BIND_ADDR", "127.0.0.1:8443"),
                h3_tls_cert_path: env.read_text_or(
                    "VIDARAX_H3_TLS_CERT_PATH",
                    "deploy/certs/dev.crt",
                ),
                h3_tls_key_path: env.read_text_or(
                    "VIDARAX_H3_TLS_KEY_PATH",
                    "deploy/certs/dev.key",
                ),
                data_dir: env.read_text_or("VIDARAX_DATA_DIR", ".vidarax-data"),
                ingest_file_roots,
                inference_vllm_base_url: env.text("VIDARAX_VLLM_BASE_URL"),
                inference_sglang_base_url: env.text("VIDARAX_SGLANG_BASE_URL"),
                security_require_api_key: access.require_api_key,
                security_api_keys: access.api_keys,
                security_require_tenant_id: access.require_tenant_id,
                security_global_rps: access.global_rps,
                security_tenant_rps: access.tenant_rps,
                security_tenant_slots: access.tenant_slots,
                security_metrics_require_api_key: access.metrics_require_api_key,
                cors_allowed_origins: access.origins,
                stream_ttl_secs: streams.ttl_secs,
                active_stream_limit: streams.active_limit,
                transport,
                decode_backend: env.read_text_or("VIDARAX_DECODE_BACKEND", "auto"),
                webrtc_stun_servers: streams.stun_servers,
                webrtc_turn_url: env.text("VIDARAX_WEBRTC_TURN_URL"),
                webrtc_turn_username: env.text("VIDARAX_WEBRTC_TURN_USERNAME"),
                webrtc_turn_credential: env.text("VIDARAX_WEBRTC_TURN_CREDENTIAL"),
                spacetimedb_url: env.text("VIDARAX_SPACETIMEDB_URL"),
                spacetimedb_module: env.text("VIDARAX_SPACETIMEDB_MODULE"),
                webrtc_max_output_tokens_per_second: streams.max_output_tokens,
                webrtc_decode_workers: streams.decode_workers,
                webrtc_analysis_workers: streams.analysis_workers,
                webrtc_vlm_workers: streams.vlm_workers,
                webrtc_first_pass_model: tiering.first,
                webrtc_second_pass_model: tiering.second,
                webrtc_second_pass_threshold: tiering.threshold,
                webrtc_second_pass_max_tokens: tiering.max_tokens,
                gate_config,
                distillation,
            },
        )
    }
}

struct AccessVars {
    require_api_key: bool,
    api_keys: Vec<String>,
    require_tenant_id: bool,
    global_rps: Option<u64>,
    tenant_rps: Option<u64>,
    tenant_slots: usize,
    metrics_require_api_key: bool,
    origins: Vec<String>,
}

fn parse_access(env: &Environment) -> (r: Result<AccessVars, String>)
    ensures
        match r {
            Ok(a) => {
                &&& access_problem(*env) is None
                &&& Some(a.require_api_key) == env.flag("VIDARAX_REQUIRE_API_KEY"@, true)
                &&& texts(a.api_keys@) == env.list("VIDARAX_API_KEYS"@)
                &&& Some(a.require_tenant_id) == env.flag("VIDARAX_REQUIRE_TENANT_ID"@, false)
                &&& a.global_rps == rate_limit(*env, "VIDARAX_RATE_LIMIT_GLOBAL_RPS"@)
                &&& a.tenant_rps == rate_limit(*env, "VIDARAX_RATE_LIMIT_TENANT_RPS"@)
                &&& Some(a.tenant_slots as nat) == env.unsigned(
                    "VIDARAX_RATE_LIMIT_TENANT_SLOTS"@,
                    2048,
                    usize::MAX as nat,
                )
                &&& Some(a.metrics_require_api_key) == env.flag(
                    "VIDARAX_METRICS_REQUIRE_API_KEY"@,
                    true,
                )
                &&& texts(a.origins@) == env.list("VIDARAX_CORS_ALLOWED_ORIGINS"@)
            },
            Err(e) => access_problem(*env) == Some(e@),
        },
{
    let require_api_key = match env.parse_bool_env("VIDARAX_REQUIRE_API_KEY", true) {
        Ok(b) => b,
        Err(e) => return Err(e),
    };
    let api_keys = env.parse_csv_env("VIDARAX_API_KEYS");
    let require_tenant_id = match env.parse_bool_env("VIDARAX_REQUIRE_TENANT_ID", false) {
        Ok(b) => b,
        Err(e) => return Err(e),
    };
    let global_rps = match env.parse_u64_env("VIDARAX_RATE_LIMIT_GLOBAL_RPS") {
        Ok(n) => n,
        Err(e) => return Err(e),
    };
    let tenant_rps = match env.parse_u64_env("VIDARAX_RATE_LIMIT_TENANT_RPS") {
        Ok(n) => n,
        Err(e) => return Err(e),
    };
    let tenant_slots: usize = match env.parse_usize_env("VIDARAX_RATE_LIMIT_TENANT_SLOTS", 2048) {
        Ok(n) => n,
        Err(e) => return Err(e),
    };
    let metrics_require_api_key = match env.parse_bool_env(
        "VIDARAX_METRICS_REQUIRE_API_KEY",
        true,
    ) {
        Ok(b) => b,
        Err(e) => return Err(e),
    };
    let origins = env.parse_csv_env("VIDARAX_CORS_ALLOWED_ORIGINS");
    if require_api_key && any_wildcard(&origins) {
        return Err(owned(WILDCARD_PROBLEM));
    }
    match validate_tenant_auth_config(require_api_key, require_tenant_id) {
        Ok(_) => {},
        Err(e) => return Err(e),
    }
    Ok(
        AccessVars {
            require_api_key,
            api_keys,
            require_tenant_id,
            global_rps,
            tenant_rps,
            tenant_slots,
            metrics_require_api_key,
            origins,
        },
    )
}

struct StreamVars {
    ttl_secs: u64,
    active_limit: usize,
    stun_servers: Vec<String>,
    max_output_tokens: u32,
    decode_workers: usize,
    analysis_workers: usize,
    vlm_workers: usize,
}

fn low_half(n: usize) -> (r: u32)
    ensures
        r == n as nat % 0x1_0000_0000,
{
    (n as u64 % 0x1_0000_0000) as u32
}

fn one_worker(configured: usize) -> (r: usize)
    ensures
        r == 1,
{
    let n: usize = clamp_usize(configured, 1, 64);
    if n < 1 {
        n
    } else {
        1
    }
}

fn parse_streams(env: &Environment) -> (r: Result<StreamVars, String>)
    ensures
        match r {
            Ok(v) => {
                &&& stream_problem(*env) is None
                &&& Some(v.ttl_secs as nat) == env.unsigned(
                    "VIDARAX_STREAM_TTL_SECS"@,
                    3600,
                    u64::MAX as nat,
                )
                &&& v.active_limit == clamped_to(
                    env.unsigned("VIDARAX_ACTIVE_STREAM_LIMIT"@, 5, usize::MAX as nat)->0,
                    1,
                    1024,
                )
                &&& texts(v.stun_servers@) == stun_servers_of(
                    env.list("VIDARAX_WEBRTC_STUN_SERVERS"@),
                )
                &&& v.max_output_tokens == env.unsigned(
                    "VIDARAX_WEBRTC_MAX_OUTPUT_TOKENS_PER_SECOND"@,
                    128,
                    usize::MAX as nat,
                )->0 % 0x1_0000_0000
                &&& v.decode_workers == 1
                &&& v.analysis_workers == 1
                &&& v.vlm_workers == 1
            },
            Err(e) => stream_problem(*env) == Some(e@),
        },
{
    let ttl_secs: u64 = match env.parse_u64_env_with_default(
        "VIDARAX_STREAM_TTL_SECS",
        3600,
        u64::MAX,
    ) {
        Ok(n) => n,
        Err(e) => return Err(e),
    };
    if ttl_secs < 60 || ttl_secs > 86_400 {
        return Err(owned(STREAM_TTL_PROBLEM));
    }
    let active: usize = match env.parse_usize_env("VIDARAX_ACTIVE_STREAM_LIMIT", 5) {
        Ok(n) => n,
        Err(e) => return Err(e),
    };
    let listed = env.parse_csv_env("VIDARAX_WEBRTC_STUN_SERVERS");
    assert(texts(listed@).len() == listed@.len());
    let stun_servers = if listed.len() == 0 {
        let mut usual: Vec<String> = Vec::new();
        usual.push(owned("stun:stun.l.google.com:19302"));
        assert(texts(usual@) =~= seq!["stun:stun.l.google.com:19302"@]);
        usual
    } else {
        listed
    };
    let tokens: usize = match env.parse_usize_env(
        "VIDARAX_WEBRTC_MAX_OUTPUT_TOKENS_PER_SECOND",
        128,
    ) {
        Ok(n) => n,
        Err(e) => return Err(e),
    };
    let decode: usize = match env.parse_usize_env("VIDARAX_WEBRTC_DECODE_WORKERS", 1) {
        Ok(n) => n,
        Err(e) => return Err(e),
    };
    let analysis: usize = match env.parse_usize_env("VIDARAX_WEBRTC_ANALYSIS_WORKERS", 1) {
        Ok(n) => n,
        Err(e) => return Err(e),
    };
    let vlm: usize = match env.parse_usize_env("VIDARAX_WEBRTC_VLM_WORKERS", 1) {
        Ok(n) => n,
        Err(e) => return Err(e),
    };
    Ok(
        StreamVars {
            ttl_secs,
            active_limit: clamp_usize(active, 1, 1024),
            stun_servers,
            max_output_tokens: low_half(tokens),
            decode_workers: one_worker(decode),
            analysis_workers: one_worker(analysis),
            vlm_workers: one_worker(vlm),
        },
    )
}

/// The second model of live sessions.
#[derive(Debug)]
pub struct SecondPass {
    pub model: String,
    pub threshold: Single,
    pub max_tokens: u32,
}

/// The models that live sessions ask: one for every keyframe and, where there
/// is a second, that one for what the first was unsure of.
#[derive(Debug)]
pub struct TieredVlmConfig {
    pub first_pass_model: String,
    pub second_pass: Option<SecondPass>,
}

impl TieredVlmConfig {
    /// Whether there is a second model.
    pub fn is_tiered(&self) -> (r: bool)
        ensures
            r == self.second_pass is Some,
    {
        self.second_pass.is_some()
    }
}

impl ServerConfig {
    /// Whether a second model is asked for: one is named, it is not blank, and
    /// it is another than the first.
    pub open spec fn asks_second_model(self) -> bool {
        match second_model(opt_text(self.webrtc_second_pass_model)) {
            Some(m) => m != self.webrtc_first_pass_model@,
            None => false,
        }
    }

    /// Whether these are the models that the configuration asks for.
    pub open spec fn is_tiering(self, t: TieredVlmConfig) -> bool {
        &&& t.first_pass_model@ == self.webrtc_first_pass_model@
        &&& match t.second_pass {
            Some(second) => {
                &&& self.asks_second_model()
                &&& Some(second.model@) == opt_text(self.webrtc_second_pass_model)
                &&& second.threshold == usable_threshold(self.webrtc_second_pass_threshold)
                &&& second.max_tokens == self.webrtc_second_pass_max_tokens
            },
            None => !self.asks_second_model(),
        }
    }
}

/// The models that live sessions ask.
pub fn build_webrtc_vlm_config(config: &ServerConfig) -> (r: TieredVlmConfig)
    ensures
        config.is_tiering(r),
{
    let first_pass_model = owned(config.webrtc_first_pass_model.as_str());
    match &config.webrtc_second_pass_model {
        Some(second) => if !is_blank(second.as_str()) && !same(
            second.as_str(),
            config.webrtc_first_pass_model.as_str(),
        ) {
            TieredVlmConfig {
                first_pass_model,
                second_pass: Some(
                    SecondPass {
                        model: owned(second.as_str()),
                        threshold: sane_threshold(config.webrtc_second_pass_threshold),
                        max_tokens: config.webrtc_second_pass_max_tokens,
                    },
                ),
            }
        } else {
            TieredVlmConfig { first_pass_model, second_pass: None }
        },
        None => TieredVlmConfig { first_pass_model, second_pass: None },
    }
}

/// A relay for live sessions.
#[derive(Debug)]
pub struct TurnServer {
    pub url: String,
    pub username: String,
    pub credential: String,
}

/// What live sessions are configured by.
#[derive(Debug)]
pub struct WebRtcConfig {
    pub stun_servers: Vec<String>,
    pub turn_servers: Vec<TurnServer>,
    pub max_output_tokens_per_second: u32,
    pub decode_workers: usize,
    pub analysis_workers: usize,
    pub vlm_workers: usize,
    pub gate_config: GateConfig,
    pub vlm_tiering: TieredVlmConfig,
}

/// A text, or nothing.
pub open spec fn text_or_empty(t: Option<Seq<char>>) -> Seq<char> {
    match t {
        Some(s) => s,
        None => Seq::empty(),
    }
}

fn owned_or_empty(t: &Option<String>) -> (r: String)
    ensures
        r@ == text_or_empty(opt_text(*t)),
{
    match t {
        Some(s) => owned(s.as_str()),
        None => String::new(),
    }
}

/// What live sessions are configured by. The frames of one stream are analyzed
/// by one worker, however many are asked for, so that they keep their order.
pub fn build_webrtc_config(config: &ServerConfig) -> (r: WebRtcConfig)
    ensures
        texts(r.stun_servers@) == texts(config.webrtc_stun_servers@),
        match config.webrtc_turn_url {
            Some(url) => {
                &&& r.turn_servers@.len() == 1
                &&& r.turn_servers@[0].url@ == url@
                &&& r.turn_servers@[0].username@ == text_or_empty(
                    opt_text(config.webrtc_turn_username),
                )
                &&& r.turn_servers@[0].credential@ == text_or_empty(
                    opt_text(config.webrtc_turn_credential),
                )
            },
            None => r.turn_servers@.len() == 0,
        },
        r.max_output_tokens_per_second == config.webrtc_max_output_tokens_per_second,
        r.decode_workers == config.webrtc_decode_workers,
        r.analysis_workers == 1,
        r.vlm_workers == config.webrtc_vlm_workers,
        r.gate_config == config.gate_config,
        config.is_tiering(r.vlm_tiering),
{
    let mut turn_servers: Vec<TurnServer> = Vec::new();
    match &config.webrtc_turn_url {
        Some(url) => turn_servers.push(
            TurnServer {
                url: owned(url.as_str()),
                username: owned_or_empty(&config.webrtc_turn_username),
                credential: owned_or_empty(&config.webrtc_turn_credential),
            },
        ),
        None => {},
    }
    WebRtcConfig {
        stun_servers: owned_list(&config.webrtc_stun_servers),
        turn_servers,
        max_output_tokens_per_second: config.webrtc_max_output_tokens_per_second,
        decode_workers: config.webrtc_decode_workers,
        analysis_workers: one_worker(config.webrtc_analysis_workers),
        vlm_workers: config.webrtc_vlm_workers,
        gate_config: config.gate_config,
        vlm_tiering: build_webrtc_vlm_config(config),
    }
}

/// A backend that answers requests for inference.
#[derive(Debug)]
pub struct BackendEntry {
    pub name: String,
    pub backend_type: String,
    pub base_url: Option<String>,
    pub api_key: Option<String>,
    pub model: Option<String>,
    pub upstream_model: Option<String>,
    pub openai_kind: Option<String>,
    pub priority: u32,
}

/// What a backend entry holds.
pub ghost struct BackendView {
    pub name: Seq<char>,
    pub backend_type: Seq<char>,
    pub base_url: Option<Seq<char>>,
    pub api_key: Option<Seq<char>>,
    pub model: Option<Seq<char>>,
    pub upstream_model: Option<Seq<char>>,
    pub openai_kind: Option<Seq<char>>,
    pub priority: u32,
}

impl View for BackendEntry {
    type V = BackendView;

    open spec fn view(&self) -> BackendView {
        BackendView {
            name: self.name@,
            backend_type: self.backend_type@,
            base_url: opt_text(self.base_url),
            api_key: opt_text(self.api_key),
            model: opt_text(self.model),
            upstream_model: opt_text(self.upstream_model),
            openai_kind: opt_text(self.openai_kind),
            priority: self.priority,
        }
    }
}

/// The entry of a backend that speaks the OpenAI protocol.
pub open spec fn openai_backend(name: Seq<char>, url: Seq<char>, priority: u32) -> BackendView {
    BackendView {
        name,
        backend_type: "openai_compat"@,
        base_url: Some(url),
        api_key: None,
        model: None,
        upstream_model: None,
        openai_kind: Some(name),
        priority,
    }
}

/// The entries for the two addresses that can be configured.
pub open spec fn backends_of(vllm: Option<Seq<char>>, sglang: Option<Seq<char>>) -> Seq<
    BackendView,
> {
    let first = match vllm {
        Some(url) => seq![openai_backend("vllm"@, url, 1)],
        None => Seq::empty(),
    };
    match sglang {
        Some(url) => first.push(openai_backend("sglang"@, url, 2)),
        None => first,
    }
}

fn openai_entry(name: &str, url: &str, priority: u32) -> (r: BackendEntry)
    ensures
        r@ == openai_backend(name@, url@, priority),
{
    BackendEntry {
        name: owned(name),
        backend_type: owned("openai_compat"),
        base_url: Some(owned(url)),
        api_key: None,
        model: None,
        upstream_model: None,
        openai_kind: Some(owned(name)),
        priority,
    }
}

/// The entries for the two addresses that can be configured, in the order in
/// which they are tried.
pub fn backend_entries(vllm: &Option<String>, sglang: &Option<String>) -> (r: Vec<BackendEntry>)
    ensures
        views(r@) == backends_of(opt_text(*vllm), opt_text(*sglang)),
{
    let mut out: Vec<BackendEntry> = Vec::new();
    assert(views(out@) =~= Seq::empty());
    match vllm {
        Some(url) => {
            out.push(openai_entry("vllm", url.as_str(), 1));
            assert(views(out@) =~= seq![openai_backend("vllm"@, url@, 1)]);
        },
        None => {},
    }
    let ghost before = views(out@);
    match sglang {
        Some(url) => {
            out.push(openai_entry("sglang", url.as_str(), 2));
            assert(views(out@) =~= before.push(openai_backend("sglang"@, url@, 2)));
        },
        None => {},
    }
    out
}

/// The backends whose addresses the configuration gives, where it gives any.
pub fn backend_entries_from_explicit_urls(config: &ServerConfig) -> (r: Option<Vec<BackendEntry>>)
    ensures
        ({
            let all = backends_of(
                opt_text(config.inference_vllm_base_url),
                opt_text(config.inference_sglang_base_url),
            );
            match r {
                Some(entries) => all.len() > 0 && views(entries@) == all,
                None => all.len() == 0,
            }
        }),
{
    let out = backend_entries(&config.inference_vllm_base_url, &config.inference_sglang_base_url);
    assert(views(out@).len() == out@.len());
    if out.len() == 0 {
        None
    } else {
        Some(out)
    }
}

/// The backends that a file lists, or what is wrong with it. Where the file
/// could not be opened, those whose addresses the environment gives.
pub fn load_backend_config(
    file: Option<Result<Vec<BackendEntry>, String>>,
    env: &Environment,
) -> (r: Result<Vec<BackendEntry>, String>)
    ensures
        match file {
            Some(read) => r == read,
            None => r is Ok && views(r->Ok_0@) == backends_of(
                env.text_of("VIDARAX_VLLM_BASE_URL"@),
                env.text_of("VIDARAX_SGLANG_BASE_URL"@),
            ),
        },
{
    match file {
        Some(read) => read,
        None => Ok(
            backend_entries(
                &env.text("VIDARAX_VLLM_BASE_URL"),
                &env.text("VIDARAX_SGLANG_BASE_URL"),
            ),
        ),
    }
}

/// The module of the SpacetimeDB that is used, where there is a database.
pub fn spacetime_target(config: &ServerConfig) -> (r: Option<(String, String)>)
    ensures
        match r {
            Some((url, module)) => {
                &&& config.spacetimedb_url is Some
                &&& url@ == config.spacetimedb_url->0@
                &&& module@ == match config.spacetimedb_module {
                    Some(m) => m@,
                    None => "vidarax"@,
                }
            },
            None => config.spacetimedb_url is None,
        },
{
    match &config.spacetimedb_url {
        Some(url) => {
            let module = match &config.spacetimedb_module {
                Some(m) => owned(m.as_str()),
                None => owned("vidarax"),
            };
            Some((owned(url.as_str()), module))
        },
        None => None,
    }
}

/// A configured server never asks for tenants without keys, never lets all
/// origins in where keys are asked for, keeps streams between a minute and a
/// day, and holds between 1 and 1024 of them.
pub proof fn configured_servers_are_safe(
    env: Environment,
    roots: Seq<RootLookup>,
    c: ServerConfig,
)
    requires
        config_problem(env, roots) is None,
        c.has_access_of(env),
        c.has_streams_of(env),
    ensures
        c.security_require_tenant_id ==> c.security_require_api_key,
        c.security_require_api_key ==> !has_wildcard(texts(c.cors_allowed_origins@)),
        60 <= c.stream_ttl_secs <= 86_400,
        1 <= c.active_stream_limit <= 1024,
{
}

/// A switch is on or off by its word, in either case; without a word it is as
/// usual, and any other word is refused.
pub proof fn switches_are_told_by_a_word(env: Environment, name: Seq<char>, usual: bool)
    ensures
        ({
            let word = env.text_of(name);
            let low = lowered(word->0);
            let set = env.flag(name, usual);
            &&& word is None ==> set == Some(usual)
            &&& word is Some ==> (set == Some(true) <==> low == "1"@ || low == "true"@ || low
                == "yes"@ || low == "on"@)
            &&& word is Some ==> (set == Some(false) <==> low == "0"@ || low == "false"@ || low
                == "no"@ || low == "off"@)
        }),
{
    reveal_strlit("1");
    reveal_strlit("true");
    reveal_strlit("yes");
    reveal_strlit("on");
    reveal_strlit("0");
    reveal_strlit("false");
    reveal_strlit("no");
    reveal_strlit("off");
    assert("1"@.len() == 1);
    assert("true"@.len() == 4);
    assert("yes"@.len() == 3);
    assert("on"@.len() == 2);
    assert("0"@.len() == 1);
    assert("false"@.len() == 5);
    assert("no"@.len() == 2);
    assert("off"@.len() == 3);
    assert("1"@[0] == '1' && "0"@[0] == '0');
    assert("yes"@[0] == 'y' && "off"@[0] == 'o');
    assert("on"@[0] == 'o' && "no"@[0] == 'n');
}

/// A variable is the first one of its name.
pub proof fn the_first_of_a_name_counts(vars: Seq<EnvVar>, name: Seq<char>)
    ensures
        found(vars, name) is None <==> forall|i: int|
            0 <= i < vars.len() ==> (#[trigger] vars[i]).name@ != name,
        found(vars, name) matches Some(v) ==> exists|i: int|
            0 <= i < vars.len() && #[trigger] vars[i] == v && v.name@ == name && forall|k: int|
                0 <= k < i ==> (#[trigger] vars[k]).name@ != name,
    decreases vars.len(),
{
    if vars.len() > 0 {
        let rest = vars.drop_last();
        the_first_of_a_name_counts(rest, name);
        assert(vars[vars.len() - 1] == vars.last());
        if let Some(v) = found(rest, name) {
            let i = choose|i: int|
                0 <= i < rest.len() && #[trigger] rest[i] == v && v.name@ == name && forall|k: int|
                    0 <= k < i ==> (#[trigger] rest[k]).name@ != name;
            assert(vars[i] == v);
            assert forall|k: int| 0 <= k < i implies (#[trigger] vars[k]).name@ != name by {
                assert(rest[k] == vars[k]);
            }
        } else {
            assert forall|k: int| 0 <= k < rest.len() implies (#[trigger] vars[k]).name@ != name by {
                assert(rest[k] == vars[k]);
            }
        }
    }
}

/// A list has each of its parts, in order, without the blanks around it and
/// without the empty ones.
pub proof fn lists_have_their_parts(parts: Seq<Seq<char>>, part: Seq<char>)
    ensures
        trimmed(part).len() > 0 ==> entries(parts.push(part)) == entries(parts).push(trimmed(part)),
        trimmed(part).len() == 0 ==> entries(parts.push(part)) == entries(parts),
        entries(Seq::empty()).len() == 0,
{
    assert(parts.push(part).drop_last() =~= parts);
}

/// A number is kept within its bounds and is else as it was asked for.
pub proof fn numbers_keep_their_bounds(n: nat, lo: nat, hi: nat)
    requires
        lo <= hi,
    ensures
        lo <= clamped_to(n, lo, hi) <= hi,
        lo <= n <= hi ==> clamped_to(n, lo, hi) == n,
        n < lo ==> clamped_to(n, lo, hi) == lo,
        n > hi ==> clamped_to(n, lo, hi) == hi,
{
}

/// A server that is told nothing asks for keys but not for tenants, guards its
/// metrics, has no rates, listens at home, keeps streams for an hour and five of
/// them at a time.
pub proof fn untold_servers_are_as_usual(env: Environment, roots: Seq<RootLookup>, c: ServerConfig)
    requires
        env.vars@.len() == 0,
        c.has_places_of(env, roots),
        c.has_access_of(env),
        c.has_streams_of(env),
        c.has_models_of(env),
    ensures
        c.security_require_api_key,
        !c.security_require_tenant_id,
        c.security_metrics_require_api_key,
        c.security_api_keys@.len() == 0,
        c.cors_allowed_origins@.len() == 0,
        c.security_global_rps is None,
        c.security_tenant_rps is None,
        c.security_tenant_slots == 2048,
        c.bind_addr@ == "127.0.0.1:8080"@,
        c.h3_bind_addr@ == "127.0.0.1:8443"@,
        c.data_dir@ == ".vidarax-data"@,
        c.transport == TransportMode::H1H2,
        c.decode_backend@ == "auto"@,
        c.stream_ttl_secs == 60 * 60,
        c.active_stream_limit == 5,
        c.webrtc_stun_servers@.len() == 1,
        c.webrtc_turn_url is None,
        c.webrtc_max_output_tokens_per_second == 128,
        c.webrtc_second_pass_model is None,
        c.webrtc_second_pass_max_tokens == 256,
        c.inference_vllm_base_url is None,
        c.inference_sglang_base_url is None,
{
    assert(texts(c.security_api_keys@).len() == 0);
    assert(texts(c.cors_allowed_origins@).len() == 0);
    assert(texts(c.webrtc_stun_servers@).len() == 1);
}

/// What a server is told by name, it has.
pub proof fn told_servers_have_what_they_are_told(
    env: Environment,
    roots: Seq<RootLookup>,
    c: ServerConfig,
)
    requires
        config_problem(env, roots) is None,
        c.has_places_of(env, roots),
        c.has_access_of(env),
        c.has_streams_of(env),
        c.has_models_of(env),
    ensures
        env.text_of("VIDARAX_BIND_ADDR"@) matches Some(t) ==> c.bind_addr@ == t,
        env.text_of("VIDARAX_H3_BIND_ADDR"@) matches Some(t) ==> c.h3_bind_addr@ == t,
        env.text_of("VIDARAX_H3_TLS_CERT_PATH"@) matches Some(t) ==> c.h3_tls_cert_path@ == t,
        env.text_of("VIDARAX_H3_TLS_KEY_PATH"@) matches Some(t) ==> c.h3_tls_key_path@ == t,
        env.text_of("VIDARAX_DATA_DIR"@) matches Some(t) ==> c.data_dir@ == t,
        env.text_of("VIDARAX_DECODE_BACKEND"@) matches Some(t) ==> c.decode_backend@ == t,
        opt_text(c.inference_vllm_base_url) == env.text_of("VIDARAX_VLLM_BASE_URL"@),
        opt_text(c.inference_sglang_base_url) == env.text_of("VIDARAX_SGLANG_BASE_URL"@),
        opt_text(c.spacetimedb_url) == env.text_of("VIDARAX_SPACETIMEDB_URL"@),
        opt_text(c.spacetimedb_module) == env.text_of("VIDARAX_SPACETIMEDB_MODULE"@),
        opt_text(c.webrtc_turn_url) == env.text_of("VIDARAX_WEBRTC_TURN_URL"@),
        opt_text(c.webrtc_turn_username) == env.text_of("VIDARAX_WEBRTC_TURN_USERNAME"@),
        opt_text(c.webrtc_turn_credential) == env.text_of("VIDARAX_WEBRTC_TURN_CREDENTIAL"@),
        env.text_of("VIDARAX_RATE_LIMIT_GLOBAL_RPS"@) matches Some(t) ==> c.security_global_rps is Some
            && Some(c.security_global_rps->0 as nat) == parsed(t, 10, u64::MAX as nat),
        env.text_of("VIDARAX_RATE_LIMIT_TENANT_RPS"@) matches Some(t) ==> c.security_tenant_rps is Some
            && Some(c.security_tenant_rps->0 as nat) == parsed(t, 10, u64::MAX as nat),
        env.text_of("VIDARAX_RATE_LIMIT_TENANT_SLOTS"@) matches Some(t) ==> Some(
            c.security_tenant_slots as nat,
        ) == parsed(t, 10, usize::MAX as nat),
        env.text_of("VIDARAX_STREAM_TTL_SECS"@) matches Some(t) ==> Some(c.stream_ttl_secs as nat)
            == parsed(t, 10, u64::MAX as nat),
        env.text_of("VIDARAX_WEBRTC_FIRST_PASS_MODEL"@) matches Some(t)
            ==> c.webrtc_first_pass_model@ == t,
        env.text_of("VIDARAX_WEBRTC_SECOND_PASS_MAX_TOKENS"@) matches Some(t) ==> Some(
            c.webrtc_second_pass_max_tokens as nat,
        ) == parsed(t, 10, u32::MAX as nat),
        texts(c.security_api_keys@) == env.list("VIDARAX_API_KEYS"@),
        texts(c.cors_allowed_origins@) == env.list("VIDARAX_CORS_ALLOWED_ORIGINS"@),
        env.list("VIDARAX_WEBRTC_STUN_SERVERS"@).len() > 0 ==> texts(c.webrtc_stun_servers@)
            == env.list("VIDARAX_WEBRTC_STUN_SERVERS"@),
        c.ingest_file_roots@.len() == roots.len(),
        forall|i: int| #![trigger roots[i]]
            0 <= i < roots.len() ==> (roots[i] matches RootLookup::Found(path)
                ==> c.ingest_file_roots@[i]@ == path@),
{
    assert(texts(c.ingest_file_roots@).len() == roots.len());
    assert forall|i: int| #![trigger roots[i]] 0 <= i < roots.len() implies (
    roots[i] matches RootLookup::Found(path) ==> c.ingest_file_roots@[i]@ == path@) by {
        assert(texts(c.ingest_file_roots@)[i] == c.ingest_file_roots@[i]@);
        assert(found_roots(roots)[i] == texts(c.ingest_file_roots@)[i]);
    }
}

/// A transport is known by its names, in either case.
pub proof fn transports_are_known_by_name(name: Seq<char>)
    ensures
        lowered(name) == "h1h2"@ || lowered(name) == "h1"@ || lowered(name) == "h2"@ || lowered(
            name,
        ) == "http"@ || lowered(name) == "http2"@ <==> transport_named(name) == Some(
            TransportMode::H1H2,
        ),
        lowered(name) == "h3"@ || lowered(name) == "http3"@ <==> transport_named(name) == Some(
            TransportMode::H3Experimental,
        ),
        transport_of(None) == Some(TransportMode::H1H2),
{
    reveal_strlit("h1h2");
    reveal_strlit("h1");
    reveal_strlit("h2");
    reveal_strlit("http");
    reveal_strlit("http2");
    reveal_strlit("h3");
    reveal_strlit("http3");
    assert("h1h2"@.len() == 4);
    assert("h1"@.len() == 2);
    assert("h2"@.len() == 2);
    assert("http"@.len() == 4);
    assert("http2"@.len() == 5);
    assert("h3"@.len() == 2);
    assert("http3"@.len() == 5);
    assert("h1h2"@[1] == '1' && "http"@[1] == 't');
    assert("h1"@[1] == '1' && "h2"@[1] == '2');
    assert("h1"@[1] == '1' && "h3"@[1] == '3');
    assert("h2"@[1] == '2' && "h3"@[1] == '3');
    assert("http2"@[4] == '2' && "http3"@[4] == '3');
}

/// A second model is asked exactly where one is named that is not the first.
pub proof fn the_second_model_is_another(c: ServerConfig, t: TieredVlmConfig)
    requires
        c.is_tiering(t),
    ensures
        t.first_pass_model@ == c.webrtc_first_pass_model@,
        t.second_pass is Some <==> c.webrtc_second_pass_model is Some && trimmed(
            c.webrtc_second_pass_model->0@,
        ).len() > 0 && c.webrtc_second_pass_model->0@ != c.webrtc_first_pass_model@,
        t.second_pass matches Some(second) ==> second.model@ == c.webrtc_second_pass_model->0@
            && second.max_tokens == c.webrtc_second_pass_max_tokens,
{
}

/// Each provider that is named is one backend, the first of them before the
/// second.
pub proof fn named_providers_are_backends(vllm: Option<Seq<char>>, sglang: Option<Seq<char>>)
    ensures
        ({
            let b = backends_of(vllm, sglang);
            &&& b.len() == (if vllm is Some {
                1int
            } else {
                0
            }) + (if sglang is Some {
                1int
            } else {
                0
            })
            &&& vllm is Some ==> b[0].name == "vllm"@ && b[0].base_url == vllm && b[0].priority == 1
            &&& sglang is Some ==> b.last().name == "sglang"@ && b.last().base_url == sglang
                && b.last().priority == 2
            &&& forall|i: int| #![trigger b[i]]
                0 <= i < b.len() ==> b[i].backend_type == "openai_compat"@ && b[i].openai_kind
                    == Some(b[i].name)
        }),
{
}

/// What the first pass lets through is set by its own variables, and is as usual
/// where none is told.
pub proof fn thresholds_are_told_one_by_one(env: Environment, usual: GateConfig)
    requires
        gate_problem(env) is None,
    ensures
        ({
            let g = gate_of(env, usual);
            &&& env.text_of("VIDARAX_GATE_KEEPALIVE_EVERY_FRAMES"@) is None
                ==> g.keepalive_every_frames == usual.keepalive_every_frames
            &&& env.text_of("VIDARAX_GATE_KEEPALIVE_EVERY_FRAMES"@) matches Some(t) ==> Some(
                g.keepalive_every_frames as nat,
            ) == parsed(t, 10, u64::MAX as nat)
            &&& env.text_of("VIDARAX_GATE_SCENE_CUT_HAMMING_THRESHOLD"@) is None
                ==> g.scene_cut_hamming_threshold == usual.scene_cut_hamming_threshold
            &&& env.text_of("VIDARAX_GATE_SCENE_CUT_HAMMING_THRESHOLD"@) matches Some(t) ==> Some(
                g.scene_cut_hamming_threshold as nat,
            ) == parsed(t, 10, u32::MAX as nat)
            &&& found(env.vars@, "VIDARAX_GATE_LUMA_SHIFT_THRESHOLD"@) matches Some(v) ==> Some(
                g.luma_shift_threshold,
            ) == v.single
            &&& found(env.vars@, "VIDARAX_GATE_FLICKER_THRESHOLD"@) matches Some(v) ==> Some(
                g.flicker_threshold,
            ) == v.single
            &&& found(env.vars@, "VIDARAX_GATE_GHOSTING_THRESHOLD"@) matches Some(v) ==> Some(
                g.ghosting_threshold,
            ) == v.single
            &&& found(env.vars@, "VIDARAX_GATE_NOISE_VARIANCE_THRESHOLD"@) matches Some(v) ==> Some(
                g.noise_variance_threshold,
            ) == v.single
            &&& env.vars@.len() == 0 ==> g == usual
        }),
{
}

/// Distillation is off unless it is asked for, and keeps its numbers within
/// their bounds.
pub proof fn distillation_keeps_its_bounds(env: Environment, d: DistillationConfig)
    requires
        distillation_problem(env) is None,
        is_distillation_of(d, env),
    ensures
        100 <= d.max_pairs_per_tenant <= 1_000_000,
        1 <= d.knn_k <= 100,
        env.vars@.len() == 0 ==> !d.enabled && d.max_pairs_per_tenant == 10_000 && d.knn_k == 7
            && d.embedding_server_url is None,
        opt_text(d.embedding_server_url) == env.text_of("VIDARAX_DISTILL_EMBEDDING_URL"@),
        env.text_of("VIDARAX_DISTILL_TEACHER_MODEL"@) matches Some(t) ==> d.teacher_model@ == t,
{
}

} // verus!
