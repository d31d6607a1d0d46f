//! The OpenClaw configuration the engine can migrate from, and the checks
//! it must pass.

use vstd::prelude::*;
use crate::text::str_eq;

verus! {

broadcast use vstd::std_specs::vec::group_vec_axioms, vstd::seq::group_seq_axioms;

/// What can go wrong with an OpenClaw configuration.
#[derive(Debug)]
pub enum OpenClawConfigError {
    /// Reading the file failed.
    Io(String),
    /// The text is not valid JSON5 for the configuration.
    Parse(String),
    /// The configuration breaks a rule.
    Validation(String),
    /// No file at this path.
    NotFound(String),
}

/// How often an agent wakes on its own.
#[derive(Debug, Clone)]
pub struct OpenClawHeartbeatConfig {
    pub every: String,
    pub light_context: Option<bool>,
}

/// Memory search settings.
#[derive(Debug, Clone)]
pub struct OpenClawMemorySearchConfig {
    pub enabled: bool,
    pub citations: Option<bool>,
}

/// The sandbox an agent runs in; `env` holds name and value pairs.
#[derive(Debug, Clone)]
pub struct OpenClawSandboxConfig {
    pub enabled: bool,
    pub image: Option<String>,
    pub mount_paths: Option<Vec<String>>,
    pub env: Option<Vec<(String, String)>>,
    pub network: Option<String>,
    pub setup_command: Option<String>,
}

/// One agent of the configuration.
#[derive(Debug, Clone)]
pub struct OpenClawAgent {
    pub agent_id: String,
    pub name: String,
    pub model: Option<String>,
    pub skills: Option<Vec<String>>,
    pub tools: Option<Vec<String>>,
    pub workspace: Option<String>,
    pub identity: Option<String>,
    pub sandbox: Option<OpenClawSandboxConfig>,
}

/// A channel bound to an agent.
#[derive(Debug, Clone)]
pub struct OpenClawBindings {
    pub agent_id: String,
    pub channel: String,
    pub account: Option<String>,
    pub peer: Option<String>,
    pub guild: Option<String>,
    pub roles: Option<Vec<String>>,
}

/// Session handling.
#[derive(Debug, Clone)]
pub struct OpenClawSessionConfig {
    pub dm_scope: Option<String>,
    pub identity_links: Option<bool>,
    pub reset_triggers: Option<Vec<String>>,
    pub send_policy: Option<String>,
    pub store: Option<String>,
    pub main_key: Option<String>,
}

/// How the gateway authenticates.
#[derive(Debug, Clone)]
pub struct OpenClawGatewayAuth {
    pub mode: String,
    pub token: Option<String>,
}

/// The gateway's TLS settings.
#[derive(Debug, Clone)]
pub struct OpenClawGatewayTls {
    pub enabled: Option<bool>,
    pub cert: Option<String>,
    pub key: Option<String>,
}

/// The gateway.
#[derive(Debug, Clone)]
pub struct OpenClawGatewayConfig {
    pub port: u16,
    pub auth: Option<OpenClawGatewayAuth>,
    pub tls: Option<OpenClawGatewayTls>,
}

/// Some agent among the first `k` has this id.
pub open spec fn id_among(agents: Seq<OpenClawAgent>, k: int, id: Seq<char>) -> bool {
    exists|j: int| 0 <= j < k && #[trigger] agents[j].agent_id@ == id
}

/// The first problem among the agents from position `k` on: an empty id,
/// an empty name, or an id an earlier agent has.
pub open spec fn agent_problem(agents: Seq<OpenClawAgent>, k: int) -> Option<Seq<char>>
    decreases agents.len() - k,
{
    if k < 0 || k >= agents.len() {
        None
    } else if agents[k].agent_id@.len() == 0 {
        Some("Agent ID cannot be empty"@)
    } else if agents[k].name@.len() == 0 {
        Some("Agent name cannot be empty"@)
    } else if id_among(agents, k, agents[k].agent_id@) {
        Some("Duplicate agent ID: "@ + agents[k].agent_id@)
    } else {
        agent_problem(agents, k + 1)
    }
}

/// The first binding, from position `k` on, that names no agent.
pub open spec fn binding_problem(agents: Seq<OpenClawAgent>, bindings: Seq<OpenClawBindings>, k: int) -> Option<Seq<char>>
    decreases bindings.len() - k,
{
    if k < 0 || k >= bindings.len() {
        None
    } else if !id_among(agents, agents.len() as int, bindings[k].agent_id@) {
        Some("Binding references unknown agent ID: "@ + bindings[k].agent_id@)
    } else {
        binding_problem(agents, bindings, k + 1)
    }
}

/// The first rule the agents and bindings break, in the order they are
/// checked.
pub open spec fn openclaw_problem(agents: Seq<OpenClawAgent>, bindings: Seq<OpenClawBindings>) -> Option<Seq<char>> {
    if agents.len() == 0 {
        Some("At least one agent must be defined"@)
    } else {
        match agent_problem(agents, 0) {
            Some(m) => Some(m),
            None => binding_problem(agents, bindings, 0),
        }
    }
}

/// Some agent among the first `k` has this id.
fn has_agent_id(agents: &Vec<OpenClawAgent>, k: usize, id: &str) -> (r: bool)
    requires
        k <= agents@.len(),
    ensures
        r == id_among(agents@, k as int, id@),
{
    let mut j: usize = 0;
    while j < k
        invariant
            k <= agents@.len(),
            j <= k,
            forall|i: int| 0 <= i < j ==> agents@[i].agent_id@ != id@,
        decreases k - j,
    {
        if str_eq(agents[j].agent_id.as_str(), id) {
            assert(agents@[j as int].agent_id@ == id@);
            return true;
        }
        j = j + 1;
    }
    false
}

fn refuse(message: &str) -> (r: Result<(), OpenClawConfigError>)
    ensures
        r matches Err(OpenClawConfigError::Validation(m)) && m@ == message@,
{
    Err(OpenClawConfigError::Validation(String::from_str(message)))
}

fn validation(prefix: &str, rest: &str) -> (r: Result<(), OpenClawConfigError>)
    ensures
        r matches Err(OpenClawConfigError::Validation(m)) && m@ == prefix@ + rest@,
{
    let mut m = String::from_str(prefix);
    m.append(rest);
    Err(OpenClawConfigError::Validation(m))
}

/// Checks the agents and bindings of a configuration: at least one agent;
/// every agent with an id and a name, no two with one id; every binding
/// naming an agent. The first rule broken gives a validation error.
pub fn validate_openclaw(agents: &Vec<OpenClawAgent>, bindings: &Vec<OpenClawBindings>) -> (r: Result<(), OpenClawConfigError>)
    ensures
        match openclaw_problem(agents@, bindings@) {
            None => r is Ok,
            Some(m) => r matches Err(OpenClawConfigError::Validation(x)) && x@ == m,
        },
{
    if agents.len() == 0 {
        return refuse("At least one agent must be defined");
    }
    let mut k: usize = 0;
    while k < agents.len()
        invariant
            k <= agents@.len(),
            agents@.len() > 0,
            agent_problem(agents@, 0) == agent_problem(agents@, k as int),
        decreases agents@.len() - k,
    {
        if agents[k].agent_id.as_str().unicode_len() == 0 {
            return refuse("Agent ID cannot be empty");
        }
        if agents[k].name.as_str().unicode_len() == 0 {
            return refuse("Agent name cannot be empty");
        }
        if has_agent_id(agents, k, agents[k].agent_id.as_str()) {
            return validation("Duplicate agent ID: ", agents[k].agent_id.as_str());
        }
        k = k + 1;
    }
    let mut b: usize = 0;
    while b < bindings.len()
        invariant
            k == agents@.len(),
            agents@.len() > 0,
            agent_problem(agents@, 0) is None,
            b <= bindings@.len(),
            binding_problem(agents@, bindings@, 0) == binding_problem(agents@, bindings@, b as int),
        decreases bindings@.len() - b,
    {
        if !has_agent_id(agents, agents.len(), bindings[b].agent_id.as_str()) {
            assert(binding_problem(agents@, bindings@, b as int) == Some(
                "Binding references unknown agent ID: "@ + bindings@[b as int].agent_id@,
            ));
            return validation("Binding references unknown agent ID: ", bindings[b].agent_id.as_str());
        }
        b = b + 1;
    }
    Ok(())
}


/// The agent at position `j` has an id and a name, and no earlier agent
/// has its id.
pub open spec fn agent_ok(agents: Seq<OpenClawAgent>, j: int) -> bool {
    agents[j].agent_id@.len() > 0 && agents[j].name@.len() > 0 && !id_among(agents, j, agents[j].agent_id@)
}

proof fn lemma_agent_problem(agents: Seq<OpenClawAgent>, k: int)
    requires
        0 <= k <= agents.len(),
    ensures
        agent_problem(agents, k) is None <==> forall|j: int| k <= j < agents.len() ==> #[trigger] agent_ok(agents, j),
    decreases agents.len() - k,
{
    if k < agents.len() {
        lemma_agent_problem(agents, k + 1);
        if agent_problem(agents, k) is None {
            assert forall|j: int| k <= j < agents.len() implies #[trigger] agent_ok(agents, j) by {
                if j > k {
                    assert(k + 1 <= j);
                }
            }
        } else {
            if forall|j: int| k <= j < agents.len() ==> #[trigger] agent_ok(agents, j) {
                assert(agent_ok(agents, k));
                assert forall|j: int| k + 1 <= j < agents.len() implies #[trigger] agent_ok(agents, j) by {}
            }
        }
    }
}

proof fn lemma_binding_problem(agents: Seq<OpenClawAgent>, bindings: Seq<OpenClawBindings>, k: int)
    requires
        0 <= k <= bindings.len(),
    ensures
        binding_problem(agents, bindings, k) is None <==> forall|j: int| k <= j < bindings.len() ==> #[trigger] id_among(
            agents,
            agents.len() as int,
            bindings[j].agent_id@,
        ),
    decreases bindings.len() - k,
{
    if k < bindings.len() {
        lemma_binding_problem(agents, bindings, k + 1);
        if binding_problem(agents, bindings, k) is None {
            assert forall|j: int| k <= j < bindings.len() implies #[trigger] id_among(
                agents,
                agents.len() as int,
                bindings[j].agent_id@,
            ) by {
                if j > k {
                    assert(k + 1 <= j);
                }
            }
        }
    }
}

/// A configuration passes validation exactly when it has at least one
/// agent, every agent has a non-empty id and a non-empty name, no two
/// agents share an id, and every binding names one of the agents.
pub proof fn law_valid_openclaw(agents: Seq<OpenClawAgent>, bindings: Seq<OpenClawBindings>)
    ensures
        openclaw_problem(agents, bindings) is None <==> {
            &&& agents.len() > 0
            &&& forall|i: int| 0 <= i < agents.len() ==> #[trigger] agents[i].agent_id@.len() > 0 && agents[i].name@.len() > 0
            &&& forall|i: int, j: int| 0 <= i < j < agents.len() ==> agents[i].agent_id@ != agents[j].agent_id@
            &&& forall|b: int| #![trigger bindings[b]] 0 <= b < bindings.len() ==> exists|i: int| 0 <= i < agents.len() && #[trigger] agents[i].agent_id@ == bindings[b].agent_id@
        },
{
    lemma_agent_problem(agents, 0);
    lemma_binding_problem(agents, bindings, 0);
    let all_ok = forall|j: int| 0 <= j < agents.len() ==> #[trigger] agent_ok(agents, j);
    let fields = forall|i: int| 0 <= i < agents.len() ==> #[trigger] agents[i].agent_id@.len() > 0 && agents[i].name@.len() > 0;
    let distinct = forall|i: int, j: int| 0 <= i < j < agents.len() ==> agents[i].agent_id@ != agents[j].agent_id@;
    if all_ok {
        assert forall|i: int| 0 <= i < agents.len() implies #[trigger] agents[i].agent_id@.len() > 0 && agents[i].name@.len() > 0 by {
            assert(agent_ok(agents, i));
        }
        assert forall|i: int, j: int| 0 <= i < j < agents.len() implies agents[i].agent_id@ != agents[j].agent_id@ by {
            assert(agent_ok(agents, j));
            if agents[i].agent_id@ == agents[j].agent_id@ {
                assert(id_among(agents, j, agents[j].agent_id@));
            }
        }
    }
    if fields && distinct {
        assert forall|j: int| 0 <= j < agents.len() implies #[trigger] agent_ok(agents, j) by {
            assert(agents[j].agent_id@.len() > 0 && agents[j].name@.len() > 0);
            if id_among(agents, j, agents[j].agent_id@) {
                let i = choose|i: int| 0 <= i < j && #[trigger] agents[i].agent_id@ == agents[j].agent_id@;
                assert(agents[i].agent_id@ != agents[j].agent_id@);
            }
        }
    }
    let named = forall|b: int| 0 <= b < bindings.len() ==> #[trigger] id_among(agents, agents.len() as int, bindings[b].agent_id@);
    let found = forall|b: int| #![trigger bindings[b]] 0 <= b < bindings.len() ==> exists|i: int| 0 <= i < agents.len() && #[trigger] agents[i].agent_id@ == bindings[b].agent_id@;
    if named {
        assert forall|b: int| #![trigger bindings[b]] 0 <= b < bindings.len() implies exists|i: int| 0 <= i < agents.len() && #[trigger] agents[i].agent_id@ == bindings[b].agent_id@ by {
            assert(id_among(agents, agents.len() as int, bindings[b].agent_id@));
        }
    }
    if found {
        assert forall|b: int| 0 <= b < bindings.len() implies #[trigger] id_among(agents, agents.len() as int, bindings[b].agent_id@) by {
            assert(0 <= b < bindings.len());
        }
    }
}

/// A quoted setting on a line of its own: the indent, the key, a colon and
/// the value in double quotes, then a comma.
pub open spec fn quoted_line(indent: Seq<char>, key: Seq<char>, value: Seq<char>) -> Seq<char> {
    indent + key + ": \""@ + value + "\",\n"@
}

/// The line of an optional setting; nothing when it is not set.
pub open spec fn optional_line(indent: Seq<char>, key: Seq<char>, value: Option<String>) -> Seq<char> {
    match value {
        Some(v) => quoted_line(indent, key, v@),
        None => Seq::empty(),
    }
}

/// The items of a list, each quoted on a line of its own.
pub open spec fn quoted_items(indent: Seq<char>, items: Seq<String>) -> Seq<char>
    decreases items.len(),
{
    if items.len() == 0 {
        Seq::empty()
    } else {
        quoted_items(indent, items.drop_last()) + indent + "\""@ + items.last()@ + "\",\n"@
    }
}

/// An optional list setting: the key and its items between brackets;
/// nothing when it is not set.
pub open spec fn optional_list(indent: Seq<char>, key: Seq<char>, items: Option<Vec<String>>, item_indent: Seq<char>) -> Seq<char> {
    match items {
        Some(v) => indent + key + ": [\n"@ + quoted_items(item_indent, v@) + indent + "],\n"@,
        None => Seq::empty(),
    }
}

/// An agent's entry in the migrated configuration.
pub open spec fn agent_entry(a: OpenClawAgent) -> Seq<char> {
    "      {\n"@
        + quoted_line("        "@, "agent_id"@, a.agent_id@)
        + quoted_line("        "@, "name"@, a.name@)
        + optional_line("        "@, "model"@, a.model)
        + optional_list("        "@, "skills"@, a.skills, "          "@)
        + optional_list("        "@, "tools"@, a.tools, "          "@)
        + optional_line("        "@, "workspace"@, a.workspace)
        + optional_line("        "@, "identity"@, a.identity)
        + "      },\n"@
}

/// The entries of the agents, in order.
pub open spec fn agent_entries(agents: Seq<OpenClawAgent>) -> Seq<char>
    decreases agents.len(),
{
    if agents.len() == 0 {
        Seq::empty()
    } else {
        agent_entries(agents.drop_last()) + agent_entry(agents.last())
    }
}

/// A binding's entry in the migrated configuration.
pub open spec fn binding_entry(b: OpenClawBindings) -> Seq<char> {
    "    {\n"@
        + quoted_line("      "@, "agent_id"@, b.agent_id@)
        + quoted_line("      "@, "channel"@, b.channel@)
        + optional_line("      "@, "account"@, b.account)
        + optional_line("      "@, "peer"@, b.peer)
        + optional_line("      "@, "guild"@, b.guild)
        + optional_list("      "@, "roles"@, b.roles, "        "@)
        + "    },\n"@
}

/// The entries of the bindings, in order.
pub open spec fn binding_entries(bindings: Seq<OpenClawBindings>) -> Seq<char>
    decreases bindings.len(),
{
    if bindings.len() == 0 {
        Seq::empty()
    } else {
        binding_entries(bindings.drop_last()) + binding_entry(bindings.last())
    }
}

/// The opening of the migrated configuration, up to the agents' defaults.
pub open spec fn json5_head() -> Seq<char> {
    "// Aetheris config (migrated from OpenClaw)\n{\n  // ============================================\n  // OpenClaw 兼容配置\n  // ============================================\n  openclaw: {\n    compatible: true,\n    migrated_from: \"openclaw.json\",\n  },\n\n  // ============================================\n  // Agents 配置\n  // ============================================\n  agents: {\n    defaults: {\n"@
}

/// Between the agents' defaults and their list.
pub open spec fn json5_list_open() -> Seq<char> {
    "    },\n    list: [\n"@
}

/// Between the agents' list and the bindings.
pub open spec fn json5_bindings_open() -> Seq<char> {
    "    ],\n  },\n\n  // ============================================\n  // 绑定配置\n  // ============================================\n  bindings: [\n"@
}

/// The close of the migrated configuration.
pub open spec fn json5_tail() -> Seq<char> {
    "  ],\n}\n"@
}

/// The configuration in Aetheris's JSON5 layout: a note that it was
/// migrated, the agents' defaults and list, and the bindings, values
/// quoted as they are.
pub open spec fn aetheris_json5(
    model: Seq<char>,
    provider: Seq<char>,
    workspace: Option<String>,
    agents: Seq<OpenClawAgent>,
    bindings: Seq<OpenClawBindings>,
) -> Seq<char> {
    json5_head()
        + quoted_line("      "@, "model"@, model)
        + quoted_line("      "@, "provider"@, provider)
        + optional_line("      "@, "workspace"@, workspace)
        + json5_list_open()
        + agent_entries(agents)
        + json5_bindings_open()
        + binding_entries(bindings)
        + json5_tail()
}

/// The migrated configuration opens with the migration note and the
/// agents' defaults heading, and closes with the end of the bindings list;
/// between them come the defaults, the agents' list and the bindings.
pub proof fn law_json5_frame(
    model: Seq<char>,
    provider: Seq<char>,
    workspace: Option<String>,
    agents: Seq<OpenClawAgent>,
    bindings: Seq<OpenClawBindings>,
)
    ensures
        ({
            let t = aetheris_json5(model, provider, workspace, agents, bindings);
            &&& json5_head().len() + json5_tail().len() <= t.len()
            &&& t.subrange(0, json5_head().len() as int) == json5_head()
            &&& t.subrange(t.len() - json5_tail().len(), t.len() as int) == json5_tail()
        }),
{
    let t = aetheris_json5(model, provider, workspace, agents, bindings);
    assert(t.subrange(0, json5_head().len() as int) =~= json5_head());
    assert(t.subrange(t.len() - json5_tail().len(), t.len() as int) =~= json5_tail());
}

proof fn lemma_agent_entries_prefix(agents: Seq<OpenClawAgent>, j: int)
    requires
        0 <= j <= agents.len(),
    ensures
        agent_entries(agents.take(j)).len() <= agent_entries(agents).len(),
        agent_entries(agents).subrange(0, agent_entries(agents.take(j)).len() as int) == agent_entries(agents.take(j)),
    decreases agents.len(),
{
    if j == agents.len() {
        assert(agents.take(j) =~= agents);
        assert(agent_entries(agents).subrange(0, agent_entries(agents).len() as int) =~= agent_entries(agents));
    } else {
        let d = agents.drop_last();
        assert(d.take(j) =~= agents.take(j));
        lemma_agent_entries_prefix(d, j);
        let pre = agent_entries(agents.take(j));
        assert(agent_entries(agents).subrange(0, pre.len() as int) =~= agent_entries(d).subrange(0, pre.len() as int));
    }
}

proof fn lemma_binding_entries_prefix(bindings: Seq<OpenClawBindings>, j: int)
    requires
        0 <= j <= bindings.len(),
    ensures
        binding_entries(bindings.take(j)).len() <= binding_entries(bindings).len(),
        binding_entries(bindings).subrange(0, binding_entries(bindings.take(j)).len() as int) == binding_entries(bindings.take(j)),
    decreases bindings.len(),
{
    if j == bindings.len() {
        assert(bindings.take(j) =~= bindings);
        assert(binding_entries(bindings).subrange(0, binding_entries(bindings).len() as int) =~= binding_entries(bindings));
    } else {
        let d = bindings.drop_last();
        assert(d.take(j) =~= bindings.take(j));
        lemma_binding_entries_prefix(d, j);
        let pre = binding_entries(bindings.take(j));
        assert(binding_entries(bindings).subrange(0, pre.len() as int) =~= binding_entries(d).subrange(0, pre.len() as int));
    }
}

/// The agents' list of the migrated configuration holds one entry per
/// agent, in order: agent `k`'s entry starts right after the entries of the
/// agents before it, with an opening brace on its own line and then the
/// line `        agent_id: "<id>",`.
#[verifier::spinoff_prover]
#[verifier::rlimit(60)]
pub proof fn law_json5_agent_lines(agents: Seq<OpenClawAgent>, k: int)
    requires
        0 <= k < agents.len(),
    ensures
        ({
            let list = agent_entries(agents);
            let at = agent_entries(agents.take(k)).len();
            let lines = "      {\n"@ + quoted_line("        "@, "agent_id"@, agents[k].agent_id@);
            &&& at + lines.len() <= list.len()
            &&& list.subrange(at as int, (at + lines.len()) as int) == lines
        }),
{
    lemma_agent_entries_prefix(agents, k + 1);
    let t1 = agents.take(k + 1);
    assert(t1.drop_last() =~= agents.take(k));
    assert(t1.last() == agents[k]);
    let pre = agent_entries(agents.take(k));
    let e = agent_entry(agents[k]);
    let lines = "      {\n"@ + quoted_line("        "@, "agent_id"@, agents[k].agent_id@);
    assert(e.subrange(0, lines.len() as int) =~= lines);
    assert(agent_entries(agents).subrange(pre.len() as int, (pre.len() + lines.len()) as int) =~= lines) by {
        assert(agent_entries(t1) == pre + e);
        assert forall|i: int| 0 <= i < lines.len() implies agent_entries(agents)[pre.len() + i] == lines[i] by {
            assert(agent_entries(agents).subrange(0, agent_entries(t1).len() as int)[pre.len() + i] == agent_entries(t1)[pre.len() + i]);
        }
    }
}

/// The bindings of the migrated configuration hold one entry per binding,
/// in order: binding `k`'s entry starts right after the entries of the
/// bindings before it, with an opening brace on its own line and then the
/// line `      agent_id: "<id>",`.
#[verifier::spinoff_prover]
#[verifier::rlimit(60)]
pub proof fn law_json5_binding_lines(bindings: Seq<OpenClawBindings>, k: int)
    requires
        0 <= k < bindings.len(),
    ensures
        ({
            let list = binding_entries(bindings);
            let at = binding_entries(bindings.take(k)).len();
            let lines = "    {\n"@ + quoted_line("      "@, "agent_id"@, bindings[k].agent_id@);
            &&& at + lines.len() <= list.len()
            &&& list.subrange(at as int, (at + lines.len()) as int) == lines
        }),
{
    lemma_binding_entries_prefix(bindings, k + 1);
    let t1 = bindings.take(k + 1);
    assert(t1.drop_last() =~= bindings.take(k));
    assert(t1.last() == bindings[k]);
    let pre = binding_entries(bindings.take(k));
    let e = binding_entry(bindings[k]);
    let lines = "    {\n"@ + quoted_line("      "@, "agent_id"@, bindings[k].agent_id@);
    assert(e.subrange(0, lines.len() as int) =~= lines);
    assert(binding_entries(bindings).subrange(pre.len() as int, (pre.len() + lines.len()) as int) =~= lines) by {
        assert(binding_entries(t1) == pre + e);
        assert forall|i: int| 0 <= i < lines.len() implies binding_entries(bindings)[pre.len() + i] == lines[i] by {
            assert(binding_entries(bindings).subrange(0, binding_entries(t1).len() as int)[pre.len() + i] == binding_entries(t1)[pre.len() + i]);
        }
    }
}

fn append_line(r: &mut String, indent: &str, key: &str, value: &str)
    ensures
        final(r)@ == old(r)@ + quoted_line(indent@, key@, value@),
{
    r.append(indent);
    r.append(key);
    r.append(": \"");
    r.append(value);
    r.append("\",\n");
    assert(final(r)@ =~= old(r)@ + quoted_line(indent@, key@, value@));
}

fn append_optional_line(r: &mut String, indent: &str, key: &str, value: &Option<String>)
    ensures
        final(r)@ == old(r)@ + optional_line(indent@, key@, *value),
{
    match value {
        Some(v) => append_line(r, indent, key, v.as_str()),
        None => {
            assert(final(r)@ =~= old(r)@ + optional_line(indent@, key@, *value));
        },
    }
}

fn append_optional_list(r: &mut String, indent: &str, key: &str, items: &Option<Vec<String>>, item_indent: &str)
    ensures
        final(r)@ == old(r)@ + optional_list(indent@, key@, *items, item_indent@),
{
    match items {
        Some(v) => {
            let ghost start = r@;
            r.append(indent);
            r.append(key);
            r.append(": [\n");
            let ghost opened = r@;
            let mut i: usize = 0;
            while i < v.len()
                invariant
                    i <= v@.len(),
                    r@ == opened + quoted_items(item_indent@, v@.subrange(0, i as int)),
                decreases v@.len() - i,
            {
                let ghost before = r@;
                r.append(item_indent);
                r.append("\"");
                r.append(v[i].as_str());
                r.append("\",\n");
                proof {
                    let sub = v@.subrange(0, i as int + 1);
                    assert(sub.drop_last() =~= v@.subrange(0, i as int));
                    assert(sub.last() == v@[i as int]);
                    assert(r@ =~= opened + quoted_items(item_indent@, sub));
                }
                i = i + 1;
            }
            r.append(indent);
            r.append("],\n");
            assert(v@.subrange(0, i as int) =~= v@);
            assert(r@ =~= start + optional_list(indent@, key@, *items, item_indent@));
        },
        None => {
            assert(final(r)@ =~= old(r)@ + optional_list(indent@, key@, *items, item_indent@));
        },
    }
}

fn append_agent(r: &mut String, a: &OpenClawAgent)
    ensures
        final(r)@ == old(r)@ + agent_entry(*a),
{
    let ghost start = r@;
    r.append("      {\n");
    append_line(r, "        ", "agent_id", a.agent_id.as_str());
    append_line(r, "        ", "name", a.name.as_str());
    append_optional_line(r, "        ", "model", &a.model);
    append_optional_list(r, "        ", "skills", &a.skills, "          ");
    append_optional_list(r, "        ", "tools", &a.tools, "          ");
    append_optional_line(r, "        ", "workspace", &a.workspace);
    append_optional_line(r, "        ", "identity", &a.identity);
    r.append("      },\n");
    assert(r@ =~= start + agent_entry(*a));
}

fn append_binding(r: &mut String, b: &OpenClawBindings)
    ensures
        final(r)@ == old(r)@ + binding_entry(*b),
{
    let ghost start = r@;
    r.append("    {\n");
    append_line(r, "      ", "agent_id", b.agent_id.as_str());
    append_line(r, "      ", "channel", b.channel.as_str());
    append_optional_line(r, "      ", "account", &b.account);
    append_optional_line(r, "      ", "peer", &b.peer);
    append_optional_line(r, "      ", "guild", &b.guild);
    append_optional_list(r, "      ", "roles", &b.roles, "        ");
    r.append("    },\n");
    assert(r@ =~= start + binding_entry(*b));
}

/// The configuration written in Aetheris's JSON5 layout: a note that it
/// was migrated, the agents' defaults (model, provider and workspace when
/// set), each agent with its settings, and each binding with its
/// settings, in order. Values are written between double quotes as they
/// are.
pub fn to_aetheris_json5(
    model: &str,
    provider: &str,
    workspace: &Option<String>,
    agents: &Vec<OpenClawAgent>,
    bindings: &Vec<OpenClawBindings>,
) -> (r: String)
    ensures
        r@ == aetheris_json5(model@, provider@, *workspace, agents@, bindings@),
{
    let mut r = String::from_str("// Aetheris config (migrated from OpenClaw)\n{\n  // ============================================\n  // OpenClaw 兼容配置\n  // ============================================\n  openclaw: {\n    compatible: true,\n    migrated_from: \"openclaw.json\",\n  },\n\n  // ============================================\n  // Agents 配置\n  // ============================================\n  agents: {\n    defaults: {\n");
    append_line(&mut r, "      ", "model", model);
    append_line(&mut r, "      ", "provider", provider);
    append_optional_line(&mut r, "      ", "workspace", workspace);
    r.append("    },\n    list: [\n");
    let ghost opened = r@;
    let mut i: usize = 0;
    while i < agents.len()
        invariant
            i <= agents@.len(),
            r@ == opened + agent_entries(agents@.subrange(0, i as int)),
        decreases agents@.len() - i,
    {
        append_agent(&mut r, &agents[i]);
        proof {
            let sub = agents@.subrange(0, i as int + 1);
            assert(sub.drop_last() =~= agents@.subrange(0, i as int));
            assert(r@ =~= opened + agent_entries(sub));
        }
        i = i + 1;
    }
    assert(agents@.subrange(0, i as int) =~= agents@);
    r.append("    ],\n  },\n\n  // ============================================\n  // 绑定配置\n  // ============================================\n  bindings: [\n");
    let ghost listed = r@;
    let mut j: usize = 0;
    while j < bindings.len()
        invariant
            j <= bindings@.len(),
            r@ == listed + binding_entries(bindings@.subrange(0, j as int)),
        decreases bindings@.len() - j,
    {
        append_binding(&mut r, &bindings[j]);
        proof {
            let sub = bindings@.subrange(0, j as int + 1);
            assert(sub.drop_last() =~= bindings@.subrange(0, j as int));
            assert(r@ =~= listed + binding_entries(sub));
        }
        j = j + 1;
    }
    assert(bindings@.subrange(0, j as int) =~= bindings@);
    r.append("  ],\n}\n");
    assert(r@ =~= aetheris_json5(model@, provider@, *workspace, agents@, bindings@));
    r
}

} // verus!
