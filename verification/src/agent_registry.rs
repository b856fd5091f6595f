//! Routing to the voice agents: which gRPC address serves a guild, the
//! registry of active and draining agents, and who may update it.

use vstd::prelude::*;
use crate::errors::AppError;
use crate::text::{
    chars_of, ends_with, has_prefix, is_whitespace, starts_with, string_of, trim, trim_chars, trim_end, trim_start,
};

verus! {

/// An address with its scheme: a bare `host:port` gets `http://`.
pub open spec fn normalized_spec(address: Seq<char>) -> Seq<char> {
    let t = trim(address);
    if starts_with(t, "http://"@) || starts_with(t, "https://"@) {
        t
    } else {
        "http://"@ + t
    }
}

/// Trims an agent address and gives it a scheme when it has none.
pub fn normalize_grpc_address(address: &str) -> (r: String)
    ensures
        r@ == normalized_spec(address@),
{
    let v = chars_of(address);
    let t = trim_chars(&v);
    if has_prefix(&t, &chars_of("http://")) || has_prefix(&t, &chars_of("https://")) {
        string_of(&t)
    } else {
        let mut out = chars_of("http://");
        crate::text::push_all(&mut out, &t);
        string_of(&out)
    }
}

/// The address a guild's commands go to: the heartbeated owner's address
/// when one came back and is not blank, otherwise the registry's.
pub open spec fn resolve_spec(resolved: Option<Seq<char>>, registry: Seq<char>) -> Seq<char> {
    match resolved {
        Some(a) => if trim(a).len() > 0 {
            normalized_spec(a)
        } else {
            registry
        },
        None => registry,
    }
}

/// The routing decision between the database's answer and the registry.
pub fn resolve_agent_address(resolved_address: Option<&str>, registry_address: &str) -> (r: String)
    ensures
        r@ == resolve_spec(
            match resolved_address {
                Some(a) => Some(a@),
                None => None,
            },
            registry_address@,
        ),
{
    match resolved_address {
        Some(address) => {
            let t = trim_chars(&chars_of(address));
            if t.len() > 0 {
                normalize_grpc_address(address)
            } else {
                string_of(&chars_of(registry_address))
            }
        },
        None => string_of(&chars_of(registry_address)),
    }
}

/// The registry's view of the agents: the active one and those draining,
/// with when it was last updated (milliseconds since the epoch).
#[derive(Clone, Debug)]
pub struct AgentGrpcState {
    pub active: String,
    pub draining: Vec<String>,
    pub updated_at_ms: Option<i64>,
}

/// What a deploy publishes.
#[derive(Clone, Debug)]
pub struct RegisterAgentGrpcRequest {
    pub active: String,
    pub draining: Vec<String>,
}

/// The normalized draining addresses among the first `n`, blanks left out.
pub open spec fn draining_spec(draining: Seq<String>, n: int) -> Seq<Seq<char>>
    decreases n,
{
    if n <= 0 {
        Seq::empty()
    } else {
        let prev = draining_spec(draining, n - 1);
        if trim(draining[n - 1]@).len() > 0 {
            prev.push(normalized_spec(draining[n - 1]@))
        } else {
            prev
        }
    }
}

pub open spec fn views(v: Seq<String>) -> Seq<Seq<char>> {
    v.map_values(|s: String| s@)
}

impl AgentGrpcState {
    /// The state a server starts with: the configured address, nothing
    /// draining, never updated.
    pub fn initial(initial_active: &str) -> (s: AgentGrpcState)
        ensures
            s.active@ == normalized_spec(initial_active@),
            s.draining@.len() == 0,
            s.updated_at_ms is None,
    {
        AgentGrpcState {
            active: normalize_grpc_address(initial_active),
            draining: Vec::new(),
            updated_at_ms: None,
        }
    }

    /// The state a registration installs at `now_ms`.
    pub fn registered(req: &RegisterAgentGrpcRequest, now_ms: i64) -> (s: AgentGrpcState)
        ensures
            s.active@ == normalized_spec(req.active@),
            views(s.draining@) == draining_spec(req.draining@, req.draining@.len() as int),
            s.updated_at_ms == Some(now_ms),
    {
        let mut draining: Vec<String> = Vec::new();
        let mut i: usize = 0;
        while i < req.draining.len()
            invariant
                i <= req.draining@.len(),
                views(draining@) == draining_spec(req.draining@, i as int),
            decreases req.draining.len() - i,
        {
            let t = trim_chars(&chars_of(req.draining[i].as_str()));
            if t.len() > 0 {
                let a = normalize_grpc_address(req.draining[i].as_str());
                draining.push(a);
                assert(views(draining@) =~= draining_spec(req.draining@, i + 1));
            } else {
                assert(views(draining@) =~= draining_spec(req.draining@, i + 1));
            }
            i = i + 1;
        }
        AgentGrpcState {
            active: normalize_grpc_address(req.active.as_str()),
            draining,
            updated_at_ms: Some(now_ms),
        }
    }
}

/// The in-process registry of agent addresses. Sharing it between request
/// handlers (behind a lock) is the server's business; this type holds the
/// state and the rules for changing it.
#[derive(Clone, Debug)]
pub struct AgentGrpcRegistry {
    state: AgentGrpcState,
}

impl AgentGrpcRegistry {
    /// The registry's current state.
    pub closed spec fn state_spec(&self) -> AgentGrpcState {
        self.state
    }

    /// A registry that routes to `initial_active` until a deploy registers.
    pub fn new(initial_active: &str) -> (r: AgentGrpcRegistry)
        ensures
            r.state_spec().active@ == normalized_spec(initial_active@),
            r.state_spec().draining@.len() == 0,
            r.state_spec().updated_at_ms is None,
    {
        AgentGrpcRegistry { state: AgentGrpcState::initial(initial_active) }
    }

    /// The active agent's address.
    pub fn active_address(&self) -> (a: String)
        ensures
            a@ == self.state_spec().active@,
    {
        string_of(&chars_of(self.state.active.as_str()))
    }

    /// A copy of the whole state.
    pub fn snapshot(&self) -> (s: AgentGrpcState)
        ensures
            s.active@ == self.state_spec().active@,
            views(s.draining@) == views(self.state_spec().draining@),
            s.updated_at_ms == self.state_spec().updated_at_ms,
    {
        copy_state(&self.state)
    }

    /// Replaces the state with what `req` publishes at `now_ms`, and
    /// returns the new state.
    pub fn register(&mut self, req: &RegisterAgentGrpcRequest, now_ms: i64) -> (s: AgentGrpcState)
        ensures
            final(self).state_spec().active@ == normalized_spec(req.active@),
            views(final(self).state_spec().draining@) == draining_spec(
                req.draining@,
                req.draining@.len() as int,
            ),
            final(self).state_spec().updated_at_ms == Some(now_ms),
            s.active@ == final(self).state_spec().active@,
            views(s.draining@) == views(final(self).state_spec().draining@),
            s.updated_at_ms == final(self).state_spec().updated_at_ms,
    {
        let st = AgentGrpcState::registered(req, now_ms);
        let out = copy_state(&st);
        self.state = st;
        out
    }
}

fn copy_state(st: &AgentGrpcState) -> (s: AgentGrpcState)
    ensures
        s.active@ == st.active@,
        views(s.draining@) == views(st.draining@),
        s.updated_at_ms == st.updated_at_ms,
{
    let mut draining: Vec<String> = Vec::new();
    let mut i: usize = 0;
    while i < st.draining.len()
        invariant
            i <= st.draining@.len(),
            draining@.len() == i,
            forall|k: int| 0 <= k < i ==> #[trigger] draining@[k]@ == st.draining@[k]@,
        decreases st.draining.len() - i,
    {
        let c = string_of(&chars_of(st.draining[i].as_str()));
        draining.push(c);
        i = i + 1;
    }
    assert(views(draining@) =~= views(st.draining@));
    AgentGrpcState {
        active: string_of(&chars_of(st.active.as_str())),
        draining,
        updated_at_ms: st.updated_at_ms,
    }
}

/// A registration must name an active address.
pub fn validate_registration(req: &RegisterAgentGrpcRequest) -> (r: Result<(), AppError>)
    ensures
        r is Ok <==> trim(req.active@).len() > 0,
        r matches Err(e) ==> (e matches AppError::BadRequest(m) && m@
            == "active gRPC address is required"@),
{
    let t = trim_chars(&chars_of(req.active.as_str()));
    if t.len() == 0 {
        return Err(AppError::BadRequest(string_of(&chars_of("active gRPC address is required"))));
    }
    Ok(())
}

/// `subtle::ConstantTimeEq::ct_eq` on two byte slices, turned into a
/// `bool`. The source compares the lengths first, then folds the byte-wise
/// equalities together without short-circuiting: true exactly when the
/// slices are equal.
#[verifier::external_body]
fn ct_eq_bytes(a: &[u8], b: &[u8]) -> (r: bool)
    ensures
        r == (a@ == b@),
{
    subtle::ConstantTimeEq::ct_eq(a, b).into()
}

/// The secret header matches the configured secret, compared in constant
/// time; a missing header never matches.
pub fn header_matches(actual: Option<&str>, expected: &str) -> (r: bool)
    ensures
        r == match actual {
            Some(a) => a@ == expected@,
            None => false,
        },
{
    match actual {
        Some(a) => {
            let r = ct_eq_bytes(a.as_bytes(), expected.as_bytes());
            proof {
                broadcast use vstd::utf8::encode_utf8_decode_utf8;

                let ea = vstd::utf8::encode_utf8(a@);
                let eb = vstd::utf8::encode_utf8(expected@);
                if ea == eb {
                    assert(a@ == vstd::utf8::decode_utf8(ea));
                    assert(expected@ == vstd::utf8::decode_utf8(eb));
                }
            }
            r
        },
        None => false,
    }
}

/// The internal registry endpoints answer loopback peers, and others that
/// present the configured secret.
pub fn authorized_internal_request(
    peer_is_loopback: bool,
    secret: Option<&str>,
    header: Option<&str>,
) -> (r: bool)
    ensures
        r == (peer_is_loopback || match secret {
            Some(s) => match header {
                Some(h) => h@ == s@,
                None => false,
            },
            None => false,
        }),
{
    if peer_is_loopback {
        return true;
    }
    match secret {
        Some(s) => header_matches(header, s),
        None => false,
    }
}

/// What is left after `trim_start` is a suffix of `s` that is empty or
/// starts with a non-whitespace character.
proof fn lemma_trim_start_shape(s: Seq<char>)
    ensures
        exists|k: int| 0 <= k <= s.len() && trim_start(s) == s.subrange(k, s.len() as int),
        trim_start(s).len() == 0 || !is_whitespace(trim_start(s)[0]),
    decreases s.len(),
{
    if s.len() > 0 && is_whitespace(s[0]) {
        lemma_trim_start_shape(s.drop_first());
        let k = choose|k: int| 0 <= k <= s.drop_first().len() && trim_start(s.drop_first()) == s.drop_first().subrange(k, s.drop_first().len() as int);
        assert(s.drop_first().subrange(k, s.drop_first().len() as int) =~= s.subrange(k + 1, s.len() as int));
    } else {
        assert(s.subrange(0, s.len() as int) =~= s);
    }
}

/// What is left after `trim_end` is a prefix of `s` that is empty or ends
/// with a non-whitespace character.
proof fn lemma_trim_end_shape(s: Seq<char>)
    ensures
        exists|k: int| 0 <= k <= s.len() && trim_end(s) == s.subrange(0, k),
        trim_end(s).len() == 0 || !is_whitespace(trim_end(s).last()),
    decreases s.len(),
{
    if s.len() > 0 && is_whitespace(s.last()) {
        lemma_trim_end_shape(s.drop_last());
        let k = choose|k: int| 0 <= k <= s.drop_last().len() && trim_end(s.drop_last()) == s.drop_last().subrange(0, k);
        assert(s.drop_last().subrange(0, k) =~= s.subrange(0, k));
    } else {
        assert(s.subrange(0, s.len() as int) =~= s);
    }
}

/// A trimmed text is empty or starts and ends with non-whitespace.
proof fn lemma_trim_shape(s: Seq<char>)
    ensures
        trim(s).len() == 0 || (!is_whitespace(trim(s)[0]) && !is_whitespace(trim(s).last())),
{
    lemma_trim_start_shape(s);
    lemma_trim_end_shape(trim_start(s));
    let t = trim_start(s);
    let k = choose|k: int| 0 <= k <= t.len() && trim_end(t) == t.subrange(0, k);
    if trim(s).len() > 0 {
        assert(trim(s)[0] == t[0]);
    }
}

/// A text that is empty or starts and ends with non-whitespace is its own
/// trim.
proof fn lemma_trim_fixed(t: Seq<char>)
    requires
        t.len() == 0 || (!is_whitespace(t[0]) && !is_whitespace(t.last())),
    ensures
        trim(t) == t,
{
    assert(trim_start(t) == t);
    assert(trim_end(t) == t);
}

/// Normalizing twice is normalizing once; the result always has a scheme
/// and ends with the trimmed input (`127.0.0.1:59877` becomes
/// `http://127.0.0.1:59877`).
pub proof fn law_normalized_address_is_stable(a: Seq<char>)
    ensures
        normalized_spec(normalized_spec(a)) == normalized_spec(a),
        starts_with(normalized_spec(a), "http://"@) || starts_with(normalized_spec(a), "https://"@),
        ends_with(normalized_spec(a), trim(a)),
{
    let t = trim(a);
    let n = normalized_spec(a);
    lemma_trim_shape(a);
    if starts_with(t, "http://"@) || starts_with(t, "https://"@) {
        lemma_trim_fixed(t);
        assert(n == t);
        assert(t.subrange(0, t.len() as int) =~= t);
    } else {
        let h = "http://"@;
        reveal_strlit("http://");
        assert(h.len() == 7 && h[0] == 'h' && h[6] == '/');
        assert(n == h + t);
        assert(n[0] == 'h');
        if t.len() == 0 {
            assert(n.last() == '/');
        } else {
            assert(n.last() == t.last());
        }
        lemma_trim_fixed(n);
        assert(n.subrange(0, 7) =~= h);
        assert(n.subrange(n.len() - t.len(), n.len() as int) =~= t);
    }
}

} // verus!
