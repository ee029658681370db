//! Refreshing the proxy tokens of a roster of agents.
//!
//! A refresh pass works on an owned copy of the roster and hands back a fully
//! updated one, so readers of the shared roster only ever observe a complete
//! snapshot. Within one pass, signing is memoized per agent name: the pass
//! first plans the distinct names in first-occurrence order, signs one token
//! per name, and then assigns each agent the token of its name, so agents
//! sharing a name always end up with byte-identical tokens.
use vstd::prelude::*;

use crate::auth::Ed25519SigningKey;
use crate::auth::EcdsaSigningKey;
use crate::auth::ecdsa_sign;
use crate::auth::ed25519_sign;
use crate::codec::copy_range;
use crate::codec::spec_payload_bytes;
use crate::codec::spec_token_bytes;
use crate::crypto::ecdsa_sig_of;
use crate::crypto::ecdsa_sign_ok;
use crate::crypto::ed25519_sig_of;
use crate::crypto::sha3_256_of;
use crate::REFRESH_MARGIN;
use crate::SigningError;

verus! {

/// A named identity the proxy can act as, together with the most recently
/// issued token bytes for it, if any.
#[derive(Clone)]
pub struct Agent {
    pub name: String,
    pub proxy_token: Option<Vec<u8>>,
}

/// One of the two interchangeable signing backends.
pub enum SigningBackend {
    /// A locally held Ed25519 key; it signs the payload bytes directly.
    Ed25519(Ed25519SigningKey),
    /// A locally held secp256k1 key; it signs a SHA3-256 prehash of the
    /// payload.
    Ecdsa(EcdsaSigningKey),
}

impl SigningBackend {
    /// A well-formed backend holds a 32-byte key.
    pub open spec fn wf(&self) -> bool {
        match self {
            SigningBackend::Ed25519(k) => k.wf(),
            SigningBackend::Ecdsa(k) => k.wf(),
        }
    }

    /// The token bytes this backend produces for `(expire_at, agent)`.
    pub open spec fn spec_token(&self, expire_at: u64, agent: Seq<char>) -> Seq<u8> {
        match self {
            SigningBackend::Ed25519(k) => spec_token_bytes(
                expire_at,
                agent,
                ed25519_sig_of(k.bytes@, spec_payload_bytes(expire_at, agent)),
            ),
            SigningBackend::Ecdsa(k) => spec_token_bytes(
                expire_at,
                agent,
                ecdsa_sig_of(k.bytes@, sha3_256_of(spec_payload_bytes(expire_at, agent))),
            ),
        }
    }

    /// Whether this backend's signing call succeeds on `(expire_at, agent)`:
    /// Ed25519 signing is total, and the ECDSA signer's verdict is a
    /// deterministic function of key and digest.
    pub open spec fn spec_sign_ok(&self, expire_at: u64, agent: Seq<char>) -> bool {
        match self {
            SigningBackend::Ed25519(_) => true,
            SigningBackend::Ecdsa(k) => ecdsa_sign_ok(
                k.bytes@,
                sha3_256_of(spec_payload_bytes(expire_at, agent)),
            ),
        }
    }

    /// Sign `(expire_at, agent)` and return the encoded token: success is
    /// owed exactly when the backend's signer accepts the inputs, which for
    /// the Ed25519 backend is always.
    pub fn sign(&self, expire_at: u64, agent: &String) -> (r: Result<Vec<u8>, SigningError>)
        requires
            self.wf(),
        ensures
            r is Ok <==> self.spec_sign_ok(expire_at, agent@),
            r is Ok ==> r->Ok_0@ == self.spec_token(expire_at, agent@),
    {
        match self {
            SigningBackend::Ed25519(k) => Ok(ed25519_sign(k, expire_at, agent.clone())),
            SigningBackend::Ecdsa(k) => ecdsa_sign(k, expire_at, agent.clone()),
        }
    }
}

/// The names of a roster, in roster order.
pub open spec fn spec_agent_names(agents: Seq<Agent>) -> Seq<Seq<char>> {
    agents.map_values(|a: Agent| a.name@)
}

/// The distinct names of `s`, in first-occurrence order.
pub open spec fn spec_dedup_names(s: Seq<Seq<char>>) -> Seq<Seq<char>>
    decreases s.len(),
{
    if s.len() == 0 {
        Seq::empty()
    } else {
        let prev = spec_dedup_names(s.drop_last());
        if s.drop_last().contains(s.last()) {
            prev
        } else {
            prev.push(s.last())
        }
    }
}

/// Deduplication keeps exactly the names that occur in the input.
pub proof fn lemma_dedup_contains(s: Seq<Seq<char>>, x: Seq<char>)
    ensures
        spec_dedup_names(s).contains(x) <==> s.contains(x),
    decreases s.len(),
{
    if s.len() > 0 {
        lemma_dedup_contains(s.drop_last(), x);
        let prev = spec_dedup_names(s.drop_last());
        if s.contains(x) {
            let i = choose|i: int| 0 <= i < s.len() && s[i] == x;
            if i < s.len() - 1 {
                assert(s.drop_last()[i] == x);
                assert(s.drop_last().contains(x));
                if !s.drop_last().contains(s.last()) {
                    let j = choose|j: int| 0 <= j < prev.len() && prev[j] == x;
                    assert(prev.push(s.last())[j] == x);
                }
            } else {
                if s.drop_last().contains(s.last()) {
                    assert(s.drop_last().contains(x));
                } else {
                    assert(prev.push(s.last()).last() == x);
                }
            }
        }
        if spec_dedup_names(s).contains(x) {
            let j = choose|j: int| 0 <= j < spec_dedup_names(s).len() && spec_dedup_names(s)[j]
                == x;
            if s.drop_last().contains(s.last()) {
                let i = choose|i: int| 0 <= i < s.drop_last().len() && s.drop_last()[i] == x;
                assert(s[i] == x);
            } else {
                if j < prev.len() {
                    assert(prev[j] == x);
                    let i = choose|i: int| 0 <= i < s.drop_last().len() && s.drop_last()[i] == x;
                    assert(s[i] == x);
                } else {
                    assert(x == s.last());
                    assert(s[s.len() - 1] == x);
                }
            }
        }
    }
}

/// One signing call per distinct agent name: the refresh plan lists each
/// distinct name of the roster exactly once, and nothing else.
pub proof fn lemma_plan_distinct(names: Seq<Seq<char>>)
    ensures
        forall|i: int, j: int|
            0 <= i < j < spec_dedup_names(names).len() ==> spec_dedup_names(names)[i]
                != spec_dedup_names(names)[j],
        forall|x: Seq<char>|
            #[trigger] spec_dedup_names(names).contains(x) <==> names.contains(x),
    decreases names.len(),
{
    assert forall|x: Seq<char>| #[trigger]
        spec_dedup_names(names).contains(x) <==> names.contains(x) by {
        lemma_dedup_contains(names, x);
    }
    if names.len() > 0 {
        lemma_plan_distinct(names.drop_last());
        let prev = spec_dedup_names(names.drop_last());
        if !names.drop_last().contains(names.last()) {
            lemma_dedup_contains(names.drop_last(), names.last());
            assert(!prev.contains(names.last()));
            assert forall|i: int, j: int|
                0 <= i < j < prev.push(names.last()).len() implies prev.push(names.last())[i]
                != prev.push(names.last())[j] by {
                if j < prev.len() {
                } else {
                    assert(prev.push(names.last())[j] == names.last());
                    assert(prev.push(names.last())[i] == prev[i]);
                    assert(!prev.contains(names.last()));
                    if prev[i] == names.last() {
                        assert(prev.contains(names.last()));
                    }
                }
            }
        }
    }
}

/// Whether every signing call of a refresh pass over `agents` succeeds: one
/// call per distinct name, so the pass succeeds exactly when the backend
/// accepts every planned name.
pub open spec fn spec_refresh_ok(backend: SigningBackend, expire_at: u64, agents: Seq<Agent>) -> bool {
    forall|j: int|
        0 <= j < spec_dedup_names(spec_agent_names(agents)).len() ==> backend.spec_sign_ok(
            expire_at,
            #[trigger] spec_dedup_names(spec_agent_names(agents))[j],
        )
}

/// The expiry stamped on the tokens of a refresh pass: the nominal interval
/// plus a safety margin beyond it, so a token outlives the jitter of the next
/// scheduled pass.
pub fn refresh_expire_at(now_sec: u64, proxy_token_refresh_interval: u64) -> (r: u64)
    requires
        now_sec + proxy_token_refresh_interval + REFRESH_MARGIN <= u64::MAX,
    ensures
        r == now_sec + proxy_token_refresh_interval + REFRESH_MARGIN,
{
    now_sec + proxy_token_refresh_interval + REFRESH_MARGIN
}

/// Whether the name of agent `i` occurs nowhere in `names`.
pub open spec fn spec_name_missing(names: Seq<String>, agents: Seq<Agent>, i: int) -> bool {
    forall|k: int| 0 <= k < names.len() ==> names[k]@ != agents[i].name@
}

/// The index of `target` in `names`, if present.
fn find_name(names: &Vec<String>, target: &String) -> (r: Option<usize>)
    ensures
        match r {
            Some(j) => 0 <= j < names@.len() && names@[j as int]@ == target@,
            None => forall|k: int| 0 <= k < names@.len() ==> names@[k]@ != target@,
        },
{
    let mut j: usize = 0;
    while j < names.len()
        invariant
            j <= names@.len(),
            forall|k: int| 0 <= k < j ==> names@[k]@ != target@,
        decreases names@.len() - j,
    {
        let hit = names[j].eq(target);
        if hit {
            return Some(j);
        }
        j += 1;
    }
    None
}

/// Plan one refresh pass: the distinct agent names of the roster, in
/// first-occurrence order. Each name stands for exactly one signing call.
pub fn plan_refresh(agents: &Vec<Agent>) -> (names: Vec<String>)
    ensures
        names@.map_values(|n: String| n@) == spec_dedup_names(spec_agent_names(agents@)),
{
    let mut names: Vec<String> = Vec::new();
    let mut i: usize = 0;
    while i < agents.len()
        invariant
            i <= agents@.len(),
            names@.map_values(|n: String| n@) == spec_dedup_names(
                spec_agent_names(agents@).take(i as int),
            ),
        decreases agents@.len() - i,
    {
        let ghost prefix = spec_agent_names(agents@).take(i as int);
        let ghost full = spec_agent_names(agents@).take(i + 1);
        proof {
            assert(full.drop_last() =~= prefix);
            assert(full.last() == agents@[i as int].name@);
        }
        let found = find_name(&names, &agents[i].name);
        proof {
            lemma_dedup_contains(prefix, agents@[i as int].name@);
            if found is Some {
                let j = found->0;
                assert(names@.map_values(|n: String| n@)[j as int] == names@[j as int]@);
                assert(spec_dedup_names(prefix).contains(agents@[i as int].name@));
            } else {
                if spec_dedup_names(prefix).contains(agents@[i as int].name@) {
                    let j = choose|j: int|
                        0 <= j < spec_dedup_names(prefix).len() && spec_dedup_names(prefix)[j]
                            == agents@[i as int].name@;
                    assert(names@[j]@ == agents@[i as int].name@);
                }
            }
        }
        if found.is_none() {
            names.push(agents[i].name.clone());
            proof {
                assert(names@.map_values(|n: String| n@) =~= spec_dedup_names(full));
            }
        } else {
            proof {
                assert(names@.map_values(|n: String| n@) =~= spec_dedup_names(full));
            }
        }
        i += 1;
    }
    proof {
        assert(spec_agent_names(agents@).take(agents@.len() as int) =~= spec_agent_names(agents@));
    }
    names
}

/// Assign to every agent the token planned for its name: `names[j]` carries
/// `tokens[j]`. `None` when some agent's name is missing from the plan.
pub fn apply_refresh(agents: Vec<Agent>, names: &Vec<String>, tokens: &Vec<Vec<u8>>) -> (r: Option<
    Vec<Agent>,
>)
    requires
        names@.len() == tokens@.len(),
    ensures
        match r {
            Some(out) => out@.len() == agents@.len() && forall|i: int|
                0 <= i < agents@.len() ==> out@[i].name@ == agents@[i].name@ && out@[i].proxy_token
                    is Some && exists|j: int|
                    0 <= j < names@.len() && names@[j]@ == agents@[i].name@ && out@[i].proxy_token->0@
                        == tokens@[j]@,
            None => exists|i: int|
                0 <= i < agents@.len() && #[trigger] spec_name_missing(names@, agents@, i),
        },
{
    let ghost agents_view = agents@;
    let mut out: Vec<Agent> = Vec::new();
    let mut i: usize = 0;
    while i < agents.len()
        invariant
            i <= agents@.len(),
            agents@ == agents_view,
            names@.len() == tokens@.len(),
            out@.len() == i,
            forall|m: int|
                0 <= m < i ==> out@[m].name@ == agents@[m].name@ && out@[m].proxy_token is Some
                    && exists|j: int|
                    0 <= j < names@.len() && names@[j]@ == agents@[m].name@ && out@[m].proxy_token->0@
                        == tokens@[j]@,
        decreases agents@.len() - i,
    {
        let j = match find_name(names, &agents[i].name) {
            Some(j) => j,
            None => {
                proof {
                    let wi = i as int;
                    assert(spec_name_missing(names@, agents@, wi));
                }
                return None;
            },
        };
        let token = copy_range(tokens[j].as_slice(), 0, tokens[j].len());
        assert(token@ =~= tokens@[j as int]@);
        out.push(Agent { name: agents[i].name.clone(), proxy_token: Some(token) });
        i += 1;
    }
    Some(out)
}

/// Within one refresh pass, agents sharing a name end with byte-identical
/// tokens: each issued token is a function of the agent name alone, which is
/// what memoizing the signing call per name guarantees.
pub proof fn lemma_memoized_tokens_identical(
    backend: SigningBackend,
    expire_at: u64,
    roster: Seq<Agent>,
    out: Seq<Agent>,
    i: int,
    j: int,
)
    requires
        out.len() == roster.len(),
        forall|m: int|
            0 <= m < roster.len() ==> out[m].proxy_token is Some && out[m].proxy_token->0@
                == backend.spec_token(expire_at, roster[m].name@),
        0 <= i < roster.len(),
        0 <= j < roster.len(),
        roster[i].name@ == roster[j].name@,
    ensures
        out[i].proxy_token->0@ == out[j].proxy_token->0@,
{
}

/// Refresh the tokens of a whole roster: sign once per distinct agent name
/// with `expire_at = now_sec + proxy_token_refresh_interval + REFRESH_MARGIN`
/// and hand back the fully updated roster. An empty roster is returned
/// unchanged without any signing call. The pass succeeds exactly when every
/// planned signing call does; a signing failure aborts it and no roster is
/// produced.
pub fn update_proxy_token(
    backend: &SigningBackend,
    proxy_token_refresh_interval: u64,
    now_sec: u64,
    agents: Vec<Agent>,
) -> (r: Result<Vec<Agent>, SigningError>)
    requires
        backend.wf(),
        now_sec + proxy_token_refresh_interval + REFRESH_MARGIN <= u64::MAX,
    ensures
        r is Ok ==> r->Ok_0@.len() == agents@.len(),
        r is Ok ==> forall|i: int|
            0 <= i < agents@.len() ==> r->Ok_0@[i].name@ == agents@[i].name@
                && r->Ok_0@[i].proxy_token is Some && r->Ok_0@[i].proxy_token->0@
                == backend.spec_token(
                (now_sec + proxy_token_refresh_interval + REFRESH_MARGIN) as u64,
                agents@[i].name@,
            ),
        agents@.len() == 0 ==> r is Ok && r->Ok_0@ == agents@,
        r is Ok <==> spec_refresh_ok(
            *backend,
            (now_sec + proxy_token_refresh_interval + REFRESH_MARGIN) as u64,
            agents@,
        ),
{
    let ghost plan = spec_dedup_names(spec_agent_names(agents@));
    if agents.len() == 0 {
        proof {
            assert(spec_agent_names(agents@).len() == 0);
        }
        return Ok(agents);
    }
    let expire_at = refresh_expire_at(now_sec, proxy_token_refresh_interval);
    let ghost agents_view = agents@;
    let names = plan_refresh(&agents);
    let mut tokens: Vec<Vec<u8>> = Vec::new();
    let mut k: usize = 0;
    while k < names.len()
        invariant
            k <= names@.len(),
            tokens@.len() == k,
            backend.wf(),
            agents@.len() > 0,
            agents@ == agents_view,
            plan == spec_dedup_names(spec_agent_names(agents_view)),
            names@.map_values(|n: String| n@) == plan,
            expire_at as int == now_sec + proxy_token_refresh_interval + REFRESH_MARGIN,
            forall|m: int|
                0 <= m < k ==> #[trigger] tokens@[m]@ == backend.spec_token(
                    expire_at,
                    names@[m]@,
                ),
            forall|m: int| 0 <= m < k ==> backend.spec_sign_ok(expire_at, #[trigger] names@[m]@),
        decreases names@.len() - k,
    {
        let t = match backend.sign(expire_at, &names[k]) {
            Ok(t) => t,
            Err(e) => {
                proof {
                    assert(plan[k as int] == names@.map_values(|n: String| n@)[k as int]);
                    assert(!backend.spec_sign_ok(expire_at, plan[k as int]));
                }
                return Err(e);
            },
        };
        tokens.push(t);
        k += 1;
    }
    proof {
        assert forall|j: int| 0 <= j < plan.len() implies backend.spec_sign_ok(
            expire_at,
            #[trigger] plan[j],
        ) by {
            assert(plan[j] == names@.map_values(|n: String| n@)[j]);
            assert(backend.spec_sign_ok(expire_at, names@[j]@));
        }
    }
    match apply_refresh(agents, &names, &tokens) {
        Some(out) => {
            proof {
                assert forall|i: int| 0 <= i < agents_view.len() implies out@[i].name@
                    == agents_view[i].name@ && out@[i].proxy_token is Some
                    && out@[i].proxy_token->0@ == backend.spec_token(
                    expire_at,
                    agents_view[i].name@,
                ) by {
                    let j = choose|j: int|
                        0 <= j < names@.len() && names@[j]@ == agents_view[i].name@
                            && out@[i].proxy_token->0@ == tokens@[j]@;
                    assert(tokens@[j]@ == backend.spec_token(expire_at, names@[j]@));
                }
            }
            Ok(out)
        },
        None => {
            proof {
                let i = choose|i: int|
                    0 <= i < agents_view.len() && #[trigger] spec_name_missing(
                        names@,
                        agents_view,
                        i,
                    );
                lemma_dedup_contains(spec_agent_names(agents_view), agents_view[i].name@);
                assert(spec_agent_names(agents_view)[i] == agents_view[i].name@);
                assert(spec_agent_names(agents_view).contains(agents_view[i].name@));
                let j = choose|j: int|
                    0 <= j < spec_dedup_names(spec_agent_names(agents_view)).len()
                        && spec_dedup_names(spec_agent_names(agents_view))[j]
                        == agents_view[i].name@;
                assert(names@.map_values(|n: String| n@)[j] == names@[j]@);
                assert(false);
            }
            Err(SigningError)
        },
    }
}

} // verus!
