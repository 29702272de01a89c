//! Configuration: what the operator states about nodes, pools and polling.

use crate::names::{Dup, NameMap};
use crate::text;
use vstd::prelude::*;
use vstd::string::*;

verus! {

/// The whole configuration.
#[derive(Debug)]
pub struct Config {
    pub listen_addr: String,
    pub data_dir: Option<String>,
    pub federation: FederationConfig,
    pub poll: PollConfig,
    pub api: ApiConfig,
    pub replication: ReplicationConfig,
    pub local: LocalConfig,
    pub nodes: Vec<NodeConfig>,
    pub pools: Vec<PoolConfig>,
}

/// What a [`Config`] holds.
#[verifier::ext_equal]
pub struct ConfigView {
    pub listen_addr: Seq<char>,
    pub data_dir: Option<Seq<char>>,
    pub federation: FederationConfigView,
    pub poll: PollConfigView,
    pub api: ApiConfigView,
    pub replication: ReplicationConfigView,
    pub local: LocalConfigView,
    pub nodes: Seq<NodeConfigView>,
    pub pools: Seq<PoolConfigView>,
}

impl View for Config {
    type V = ConfigView;

    open spec fn view(&self) -> ConfigView {
        ConfigView {
            listen_addr: self.listen_addr@,
            data_dir: self.data_dir.deep_view(),
            federation: self.federation@,
            poll: self.poll@,
            api: self.api@,
            replication: self.replication@,
            local: self.local@,
            nodes: self.nodes.deep_view(),
            pools: self.pools.deep_view(),
        }
    }
}

impl DeepView for Config {
    type V = ConfigView;

    open spec fn deep_view(&self) -> ConfigView {
        self@
    }
}

impl Dup for Config {
    fn dup(&self) -> (r: Self) {
        Config {
            listen_addr: self.listen_addr.clone(),
            data_dir: self.data_dir.dup(),
            federation: self.federation.dup(),
            poll: self.poll.dup(),
            api: self.api.dup(),
            replication: self.replication.dup(),
            local: self.local.dup(),
            nodes: self.nodes.dup(),
            pools: self.pools.dup(),
        }
    }
}

impl Clone for Config {
    fn clone(&self) -> (r: Self)
        ensures
            r@ == self@,
    {
        self.dup()
    }
}

#[derive(Debug)]
pub struct FederationConfig {
    /// The physical/logical rung order, top-down. Spreading "at rung R"
    /// means distinct label-chain prefixes down to R.
    pub rungs: Vec<String>,
}

/// What a [`FederationConfig`] holds.
#[verifier::ext_equal]
pub struct FederationConfigView {
    pub rungs: Seq<Seq<char>>,
}

impl View for FederationConfig {
    type V = FederationConfigView;

    open spec fn view(&self) -> FederationConfigView {
        FederationConfigView {
            rungs: self.rungs.deep_view(),
        }
    }
}

impl DeepView for FederationConfig {
    type V = FederationConfigView;

    open spec fn deep_view(&self) -> FederationConfigView {
        self@
    }
}

impl Dup for FederationConfig {
    fn dup(&self) -> (r: Self) {
        FederationConfig {
            rungs: self.rungs.dup(),
        }
    }
}

impl Clone for FederationConfig {
    fn clone(&self) -> (r: Self)
        ensures
            r@ == self@,
    {
        self.dup()
    }
}

#[derive(Debug)]
pub struct PollConfig {
    pub interval_secs: u64,
    /// Consecutive poll failures before a node is marked unhealthy.
    pub fail_threshold: u32,
}

/// What a [`PollConfig`] holds.
#[verifier::ext_equal]
pub struct PollConfigView {
    pub interval_secs: u64,
    pub fail_threshold: u32,
}

impl View for PollConfig {
    type V = PollConfigView;

    open spec fn view(&self) -> PollConfigView {
        PollConfigView {
            interval_secs: self.interval_secs,
            fail_threshold: self.fail_threshold,
        }
    }
}

impl DeepView for PollConfig {
    type V = PollConfigView;

    open spec fn deep_view(&self) -> PollConfigView {
        self@
    }
}

impl Dup for PollConfig {
    fn dup(&self) -> (r: Self) {
        PollConfig {
            interval_secs: self.interval_secs,
            fail_threshold: self.fail_threshold,
        }
    }
}

impl Clone for PollConfig {
    fn clone(&self) -> (r: Self)
        ensures
            r@ == self@,
    {
        self.dup()
    }
}

#[derive(Debug)]
pub struct ApiConfig {
    /// Sent as a bearer token on pushes to peers. Empty: none is sent.
    pub api_token: String,
}

/// What a [`ApiConfig`] holds.
#[verifier::ext_equal]
pub struct ApiConfigView {
    pub api_token: Seq<char>,
}

impl View for ApiConfig {
    type V = ApiConfigView;

    open spec fn view(&self) -> ApiConfigView {
        ApiConfigView {
            api_token: self.api_token@,
        }
    }
}

impl DeepView for ApiConfig {
    type V = ApiConfigView;

    open spec fn deep_view(&self) -> ApiConfigView {
        self@
    }
}

impl Dup for ApiConfig {
    fn dup(&self) -> (r: Self) {
        ApiConfig {
            api_token: self.api_token.clone(),
        }
    }
}

impl Clone for ApiConfig {
    fn clone(&self) -> (r: Self)
        ensures
            r@ == self@,
    {
        self.dup()
    }
}

#[derive(Debug)]
pub struct ReplicationConfig {
    /// Base URLs of the peer instances.
    pub peers: Vec<String>,
}

/// What a [`ReplicationConfig`] holds.
#[verifier::ext_equal]
pub struct ReplicationConfigView {
    pub peers: Seq<Seq<char>>,
}

impl View for ReplicationConfig {
    type V = ReplicationConfigView;

    open spec fn view(&self) -> ReplicationConfigView {
        ReplicationConfigView {
            peers: self.peers.deep_view(),
        }
    }
}

impl DeepView for ReplicationConfig {
    type V = ReplicationConfigView;

    open spec fn deep_view(&self) -> ReplicationConfigView {
        self@
    }
}

impl Dup for ReplicationConfig {
    fn dup(&self) -> (r: Self) {
        ReplicationConfig {
            peers: self.peers.dup(),
        }
    }
}

impl Clone for ReplicationConfig {
    fn clone(&self) -> (r: Self)
        ensures
            r@ == self@,
    {
        self.dup()
    }
}

/// Adoption of the engine on this machine and of its cluster.
#[derive(Debug)]
pub struct LocalConfig {
    pub enabled: bool,
    pub engine_url: String,
    /// The name to adopt the engine under, in place of its own.
    pub name: Option<String>,
    pub tier: Option<String>,
    /// A file that holds the engine's bearer token.
    pub token_file: Option<String>,
    /// Whether the live peers of the engine's cluster are adopted too.
    pub cluster_peers: bool,
}

/// What a [`LocalConfig`] holds.
#[verifier::ext_equal]
pub struct LocalConfigView {
    pub enabled: bool,
    pub engine_url: Seq<char>,
    pub name: Option<Seq<char>>,
    pub tier: Option<Seq<char>>,
    pub token_file: Option<Seq<char>>,
    pub cluster_peers: bool,
}

impl View for LocalConfig {
    type V = LocalConfigView;

    open spec fn view(&self) -> LocalConfigView {
        LocalConfigView {
            enabled: self.enabled,
            engine_url: self.engine_url@,
            name: self.name.deep_view(),
            tier: self.tier.deep_view(),
            token_file: self.token_file.deep_view(),
            cluster_peers: self.cluster_peers,
        }
    }
}

impl DeepView for LocalConfig {
    type V = LocalConfigView;

    open spec fn deep_view(&self) -> LocalConfigView {
        self@
    }
}

impl Dup for LocalConfig {
    fn dup(&self) -> (r: Self) {
        LocalConfig {
            enabled: self.enabled,
            engine_url: self.engine_url.clone(),
            name: self.name.dup(),
            tier: self.tier.dup(),
            token_file: self.token_file.dup(),
            cluster_peers: self.cluster_peers,
        }
    }
}

impl Clone for LocalConfig {
    fn clone(&self) -> (r: Self)
        ensures
            r@ == self@,
    {
        self.dup()
    }
}

/// A storage node: a single-node stormblock cluster.
#[derive(Debug)]
pub struct NodeConfig {
    pub name: String,
    /// stormblock management base URL, e.g. "http://192.168.8.150:9090".
    pub engine_url: String,
    pub api_token: Option<String>,
    /// Failure-domain labels, rung to value. `node` and `cluster` default
    /// to `name`.
    pub labels: NameMap<String>,
    /// Tier role: "high", "medium", "backup" or any other.
    pub tier: Option<String>,
}

/// What a [`NodeConfig`] holds.
#[verifier::ext_equal]
pub struct NodeConfigView {
    pub name: Seq<char>,
    pub engine_url: Seq<char>,
    pub api_token: Option<Seq<char>>,
    pub labels: Map<Seq<char>, Seq<char>>,
    pub tier: Option<Seq<char>>,
}

impl View for NodeConfig {
    type V = NodeConfigView;

    open spec fn view(&self) -> NodeConfigView {
        NodeConfigView {
            name: self.name@,
            engine_url: self.engine_url@,
            api_token: self.api_token.deep_view(),
            labels: self.labels@,
            tier: self.tier.deep_view(),
        }
    }
}

impl DeepView for NodeConfig {
    type V = NodeConfigView;

    open spec fn deep_view(&self) -> NodeConfigView {
        self@
    }
}

impl Dup for NodeConfig {
    fn dup(&self) -> (r: Self) {
        NodeConfig {
            name: self.name.clone(),
            engine_url: self.engine_url.clone(),
            api_token: self.api_token.dup(),
            labels: self.labels.dup(),
            tier: self.tier.dup(),
        }
    }
}

impl Clone for NodeConfig {
    fn clone(&self) -> (r: Self)
        ensures
            r@ == self@,
    {
        self.dup()
    }
}

#[derive(Debug)]
pub struct PoolConfig {
    pub name: String,
    pub selector: Selector,
    /// Default leg count for volumes created in this pool.
    pub replicas: u32,
    /// Default spread rung.
    pub rung: String,
}

/// What a [`PoolConfig`] holds.
#[verifier::ext_equal]
pub struct PoolConfigView {
    pub name: Seq<char>,
    pub selector: SelectorView,
    pub replicas: u32,
    pub rung: Seq<char>,
}

impl View for PoolConfig {
    type V = PoolConfigView;

    open spec fn view(&self) -> PoolConfigView {
        PoolConfigView {
            name: self.name@,
            selector: self.selector@,
            replicas: self.replicas,
            rung: self.rung@,
        }
    }
}

impl DeepView for PoolConfig {
    type V = PoolConfigView;

    open spec fn deep_view(&self) -> PoolConfigView {
        self@
    }
}

impl Dup for PoolConfig {
    fn dup(&self) -> (r: Self) {
        PoolConfig {
            name: self.name.clone(),
            selector: self.selector.dup(),
            replicas: self.replicas,
            rung: self.rung.clone(),
        }
    }
}

impl Clone for PoolConfig {
    fn clone(&self) -> (r: Self)
        ensures
            r@ == self@,
    {
        self.dup()
    }
}

/// Which nodes a pool draws from. All present conditions must hold;
/// an empty selector matches every node.
#[derive(Debug)]
pub struct Selector {
    pub tier: Option<String>,
    /// Every listed label must match the node's effective labels.
    pub labels: NameMap<String>,
    /// Explicit node names; empty = no restriction.
    pub nodes: Vec<String>,
}

/// What a [`Selector`] holds.
#[verifier::ext_equal]
pub struct SelectorView {
    pub tier: Option<Seq<char>>,
    pub labels: Map<Seq<char>, Seq<char>>,
    pub nodes: Seq<Seq<char>>,
}

impl View for Selector {
    type V = SelectorView;

    open spec fn view(&self) -> SelectorView {
        SelectorView {
            tier: self.tier.deep_view(),
            labels: self.labels@,
            nodes: self.nodes.deep_view(),
        }
    }
}

impl DeepView for Selector {
    type V = SelectorView;

    open spec fn deep_view(&self) -> SelectorView {
        self@
    }
}

impl Dup for Selector {
    fn dup(&self) -> (r: Self) {
        Selector {
            tier: self.tier.dup(),
            labels: self.labels.dup(),
            nodes: self.nodes.dup(),
        }
    }
}

impl Clone for Selector {
    fn clone(&self) -> (r: Self)
        ensures
            r@ == self@,
    {
        self.dup()
    }
}

/// The rungs where none are configured, top-down.
pub open spec fn standard_rungs() -> Seq<Seq<char>> {
    seq![
        "site"@,
        "building"@,
        "room"@,
        "row"@,
        "rack"@,
        "multicluster"@,
        "cluster"@,
        "node"@,
    ]
}

impl Default for FederationConfig {
    fn default() -> (r: Self)
        ensures
            r@.rungs == standard_rungs(),
    {
        let rungs: Vec<String> = vec![
            text::owned("site"),
            text::owned("building"),
            text::owned("room"),
            text::owned("row"),
            text::owned("rack"),
            text::owned("multicluster"),
            text::owned("cluster"),
            text::owned("node"),
        ];
        assert(rungs.deep_view() =~= standard_rungs());
        FederationConfig { rungs }
    }
}

impl Default for PollConfig {
    fn default() -> (r: Self)
        ensures
            r@ == (PollConfigView { interval_secs: 15, fail_threshold: 3 }),
    {
        PollConfig { interval_secs: 15, fail_threshold: 3 }
    }
}

impl Default for ApiConfig {
    fn default() -> (r: Self)
        ensures
            r@.api_token == Seq::<char>::empty(),
    {
        ApiConfig { api_token: String::new() }
    }
}

impl Default for ReplicationConfig {
    fn default() -> (r: Self)
        ensures
            r@.peers == Seq::<Seq<char>>::empty(),
    {
        let peers: Vec<String> = Vec::new();
        assert(peers.deep_view() =~= Seq::<Seq<char>>::empty());
        ReplicationConfig { peers }
    }
}

impl Default for LocalConfig {
    fn default() -> (r: Self)
        ensures
            r@ == (LocalConfigView {
                enabled: true,
                engine_url: "http://127.0.0.1:9090"@,
                name: None,
                tier: None,
                token_file: None,
                cluster_peers: true,
            }),
    {
        LocalConfig {
            enabled: true,
            engine_url: text::owned("http://127.0.0.1:9090"),
            name: None,
            tier: None,
            token_file: None,
            cluster_peers: true,
        }
    }
}

impl Default for Selector {
    fn default() -> (r: Self)
        ensures
            r@ == empty_selector(),
    {
        let nodes: Vec<String> = Vec::new();
        assert(nodes.deep_view() =~= Seq::<Seq<char>>::empty());
        Selector { tier: None, labels: NameMap::new(), nodes }
    }
}

impl ConfigView {
    /// The configuration where no file says anything.
    pub open spec fn standard() -> Self {
        ConfigView {
            listen_addr: "0.0.0.0:9093"@,
            data_dir: None,
            federation: FederationConfigView { rungs: standard_rungs() },
            poll: PollConfigView { interval_secs: 15, fail_threshold: 3 },
            api: ApiConfigView { api_token: Seq::empty() },
            replication: ReplicationConfigView { peers: Seq::empty() },
            local: LocalConfigView {
                enabled: true,
                engine_url: "http://127.0.0.1:9090"@,
                name: None,
                tier: None,
                token_file: None,
                cluster_peers: true,
            },
            nodes: Seq::empty(),
            pools: Seq::empty(),
        }
    }
}

impl Default for Config {
    fn default() -> (r: Self)
        ensures
            r@ == ConfigView::standard(),
    {
        let nodes: Vec<NodeConfig> = Vec::new();
        let pools: Vec<PoolConfig> = Vec::new();
        assert(nodes.deep_view() =~= Seq::<NodeConfigView>::empty());
        assert(pools.deep_view() =~= Seq::<PoolConfigView>::empty());
        Config {
            listen_addr: text::owned("0.0.0.0:9093"),
            data_dir: None,
            federation: FederationConfig::default(),
            poll: PollConfig::default(),
            api: ApiConfig::default(),
            replication: ReplicationConfig::default(),
            local: LocalConfig::default(),
            nodes,
            pools,
        }
    }
}

/// How many legs a pool's volumes have where the pool does not say.
pub fn default_replicas() -> (r: u32)
    ensures
        r == 2,
{
    2
}

/// The rung that a pool spreads across where it does not say.
pub fn default_rung() -> (r: String)
    ensures
        r@ == "node"@,
{
    text::owned("node")
}

/// `labels` with `key` mapped to `value` unless it is mapped already.
pub open spec fn with_default(
    labels: Map<Seq<char>, Seq<char>>,
    key: Seq<char>,
    value: Seq<char>,
) -> Map<Seq<char>, Seq<char>> {
    if labels.contains_key(key) {
        labels
    } else {
        labels.insert(key, value)
    }
}

impl NodeConfigView {
    /// The labels with `node` and `cluster` defaulting to the node's name.
    pub open spec fn effective_labels(self) -> Map<Seq<char>, Seq<char>> {
        with_default(with_default(self.labels, "node"@, self.name), "cluster"@, self.name)
    }
}

fn put_default(labels: &mut NameMap<String>, key: &str, value: &String)
    ensures
        final(labels)@ == with_default(old(labels)@, key@, value@),
{
    if !labels.contains_key(key) {
        labels.insert(text::owned(key), value.clone());
    }
}

impl NodeConfig {
    /// Labels with the single-node defaults applied and `node` always present.
    pub fn effective_labels(&self) -> (r: NameMap<String>)
        ensures
            r@ == self@.effective_labels(),
    {
        let mut l: NameMap<String> = self.labels.dup();
        put_default(&mut l, "node", &self.name);
        put_default(&mut l, "cluster", &self.name);
        l
    }
}

impl SelectorView {
    /// Whether the selector takes the node: its tier, every one of its labels
    /// and its list of names, as far as each is given.
    pub open spec fn matches(self, node: NodeConfigView) -> bool {
        &&& self.tier is Some ==> node.tier == self.tier
        &&& forall|k: Seq<char>| #[trigger]
            self.labels.contains_key(k) ==> node.effective_labels().contains_key(k)
                && node.effective_labels()[k] == self.labels[k]
        &&& self.nodes.len() > 0 ==> self.nodes.contains(node.name)
    }
}

impl Selector {
    pub fn matches(&self, node: &NodeConfig) -> (r: bool)
        ensures
            r == self@.matches(node@),
    {
        if self.tier.is_some() && !text::same_option(&node.tier, &self.tier) {
            return false;
        }
        let eff: NameMap<String> = node.effective_labels();
        let n: usize = self.labels.len();
        let ghost keys = self.labels.keys();
        let mut i: usize = 0;
        while i < n
            invariant
                i <= n,
                keys == self.labels.keys(),
                n == keys.len(),
                eff@ == node@.effective_labels(),
                forall|j: int|
                    0 <= j < i ==> eff@.contains_key(#[trigger] keys[j]) && eff@[keys[j]]
                        == self.labels@[keys[j]],
            decreases n - i,
        {
            let k: &String = self.labels.key_at(i);
            let v: &String = self.labels.value_at(i);
            let held: bool = match eff.get(k.as_str()) {
                Some(w) => text::same(w.as_str(), v.as_str()),
                None => false,
            };
            if !held {
                assert(self@.labels.contains_key(k@));
                return false;
            }
            i = i + 1;
        }
        assert forall|k: Seq<char>| #[trigger] self@.labels.contains_key(k) implies eff@.contains_key(
            k,
        ) && eff@[k] == self@.labels[k] by {
            assert(keys.to_set().contains(k));
            let j = keys.index_of(k);
            assert(keys[j] == k);
        }
        self.nodes.len() == 0 || text::listed(self.nodes.as_slice(), node.name.as_str())
    }
}

/// The selector that states no condition.
pub open spec fn empty_selector() -> SelectorView {
    SelectorView { tier: None, labels: Map::empty(), nodes: Seq::empty() }
}

/// A selector that states no condition matches every node.
pub proof fn empty_selector_matches_all(node: NodeConfigView)
    ensures
        empty_selector().matches(node),
{
}

/// Every node has a `node` and a `cluster` label; its own labels are kept, and
/// the two that it does not state are its name.
pub proof fn effective_labels_complete(node: NodeConfigView)
    ensures
        node.effective_labels().contains_key("node"@),
        node.effective_labels().contains_key("cluster"@),
        node.labels.submap_of(node.effective_labels()),
        !node.labels.contains_key("node"@) ==> node.effective_labels()["node"@] == node.name,
        !node.labels.contains_key("cluster"@) ==> node.effective_labels()["cluster"@] == node.name,
{
    reveal_strlit("node");
    reveal_strlit("cluster");
}

/// The configuration that stands where there is no file can be run with, as
/// long as its address can be read.
pub proof fn standard_config_is_sound()
    ensures
        ConfigView::standard().fault(None) is None,
{
}

/// The first of the pools with this name.
pub open spec fn pool_named(pools: Seq<PoolConfigView>, name: Seq<char>) -> Option<PoolConfigView>
    decreases pools.len(),
{
    if pools.len() == 0 {
        None
    } else if pools[0].name == name {
        Some(pools[0])
    } else {
        pool_named(pools.drop_first(), name)
    }
}

/// The first place at or after `i` that repeats an earlier name.
pub open spec fn repeat_from(names: Seq<Seq<char>>, i: int) -> Option<int>
    decreases names.len() - i,
{
    if i < 0 || i >= names.len() {
        None
    } else if names.take(i).contains(names[i]) {
        Some(i)
    } else {
        repeat_from(names, i + 1)
    }
}

/// The first of the pools whose rung is not one of `rungs`.
pub open spec fn stray_pool(
    pools: Seq<PoolConfigView>,
    rungs: Seq<Seq<char>>,
) -> Option<PoolConfigView>
    decreases pools.len(),
{
    if pools.len() == 0 {
        None
    } else if !rungs.contains(pools[0].rung) {
        Some(pools[0])
    } else {
        stray_pool(pools.drop_first(), rungs)
    }
}

/// The names of the nodes.
pub open spec fn node_names(nodes: Seq<NodeConfigView>) -> Seq<Seq<char>> {
    Seq::new(nodes.len(), |i: int| nodes[i].name)
}

impl ConfigView {
    /// The first thing that is wrong with the configuration, in words.
    /// `address_fault` says what is wrong with `listen_addr`, if anything is.
    pub open spec fn fault(self, address_fault: Option<Seq<char>>) -> Option<Seq<char>> {
        let names = node_names(self.nodes);
        if address_fault is Some {
            Some(
                "listen_addr "@ + text::quoted_text(self.listen_addr) + ": "@ + address_fault->0,
            )
        } else if repeat_from(names, 0) is Some {
            Some("duplicate node name "@ + text::quoted_text(names[repeat_from(names, 0)->0]))
        } else {
            match stray_pool(self.pools, self.federation.rungs) {
                Some(p) => Some(
                    "pool "@ + text::quoted_text(p.name) + ": rung "@ + text::quoted_text(p.rung)
                        + " not in federation.rungs "@ + text::quoted_list_text(
                        self.federation.rungs,
                    ),
                ),
                None => if self.poll.interval_secs == 0 {
                    Some("poll.interval_secs must be non-zero"@)
                } else {
                    None
                },
            }
        }
    }
}

proof fn no_repeat(names: Seq<Seq<char>>, i: int)
    requires
        0 <= i <= names.len(),
    ensures
        repeat_from(names, i) is None <==> forall|j: int|
            i <= j < names.len() ==> !names.take(j).contains(#[trigger] names[j]),
    decreases names.len() - i,
{
    if i < names.len() {
        no_repeat(names, i + 1);
    }
}

proof fn no_stray(pools: Seq<PoolConfigView>, rungs: Seq<Seq<char>>)
    ensures
        stray_pool(pools, rungs) is None <==> forall|i: int|
            0 <= i < pools.len() ==> rungs.contains((#[trigger] pools[i]).rung),
    decreases pools.len(),
{
    if pools.len() > 0 {
        let rest = pools.drop_first();
        no_stray(rest, rungs);
        assert(forall|i: int| 0 <= i < rest.len() ==> #[trigger] rest[i] == pools[i + 1]);
        if forall|i: int| 0 <= i < rest.len() ==> rungs.contains((#[trigger] rest[i]).rung) {
            assert forall|i: int| 1 <= i < pools.len() implies rungs.contains(
                (#[trigger] pools[i]).rung,
            ) by {
                assert(rest[i - 1] == pools[i]);
            }
        } else {
            let i = choose|i: int|
                0 <= i < rest.len() && !rungs.contains((#[trigger] rest[i]).rung);
            assert(!rungs.contains(pools[i + 1].rung));
        }
    }
}

/// What makes a configuration one that can be run with: its address can be
/// read, its nodes have different names, the rung of each pool is one of the
/// federation's, and there is time between polls.
pub proof fn sound_config(config: ConfigView, address_fault: Option<Seq<char>>)
    ensures
        config.fault(address_fault) is None <==> {
            &&& address_fault is None
            &&& node_names(config.nodes).no_duplicates()
            &&& forall|i: int|
                0 <= i < config.pools.len() ==> config.federation.rungs.contains(
                    (#[trigger] config.pools[i]).rung,
                )
            &&& config.poll.interval_secs > 0
        },
{
    let names = node_names(config.nodes);
    no_repeat(names, 0);
    no_stray(config.pools, config.federation.rungs);
    if repeat_from(names, 0) is None {
        assert forall|i: int, j: int| 0 <= i < names.len() && 0 <= j < names.len() && i
            != j implies names[i] != names[j] by {
            let low = if i < j { i } else { j };
            let high = if i < j { j } else { i };
            assert(!names.take(high).contains(names[high]));
            assert(names.take(high)[low] == names[low]);
        }
    } else {
        let j = choose|j: int|
            0 <= j < names.len() && names.take(j).contains(#[trigger] names[j]);
        let i = names.take(j).index_of(names[j]);
        assert(names[i] == names[j]);
    }
}

/// A pool that is found by a name is one of the pools, and has that name.
pub proof fn pool_named_is_one(pools: Seq<PoolConfigView>, name: Seq<char>)
    ensures
        pool_named(pools, name) matches Some(p) ==> pools.contains(p) && p.name == name,
        pool_named(pools, name) is None <==> forall|i: int|
            0 <= i < pools.len() ==> (#[trigger] pools[i]).name != name,
    decreases pools.len(),
{
    if pools.len() > 0 {
        let rest = pools.drop_first();
        pool_named_is_one(rest, name);
        assert(pools[0] == pools.first());
        if pools[0].name != name {
            assert(forall|i: int| 0 <= i < rest.len() ==> #[trigger] rest[i] == pools[i + 1]);
            match pool_named(rest, name) {
                Some(p) => {
                    let i = rest.index_of(p);
                    assert(pools[i + 1] == p);
                },
                None => {
                    assert forall|i: int| 0 <= i < pools.len() implies (#[trigger] pools[i]).name
                        != name by {
                        if i > 0 {
                            assert(rest[i - 1] == pools[i]);
                        }
                    }
                },
            }
        }
    }
}

impl Config {
    /// Whether the configuration can be run with; if not, the first thing that
    /// is wrong. `address_fault` is what reading `listen_addr` as a socket
    /// address complained of.
    pub fn validate(&self, address_fault: Option<String>) -> (r: Result<(), String>)
        ensures
            r is Ok <==> self@.fault(address_fault.deep_view()) is None,
            r matches Err(e) ==> Some(e@) == self@.fault(address_fault.deep_view()),
    {
        if let Some(e) = address_fault {
            return Err(
                text::owned("listen_addr ").concat(
                    text::quoted(self.listen_addr.as_str()).as_str(),
                ).concat(": ").concat(e.as_str()),
            );
        }
        let ghost names = node_names(self@.nodes);
        let mut i: usize = 0;
        while i < self.nodes.len()
            invariant
                i <= self.nodes.len(),
                names == node_names(self@.nodes),
                address_fault is None,
                repeat_from(names, 0) == repeat_from(names, i as int),
            decreases self.nodes.len() - i,
        {
            let mut j: usize = 0;
            while j < i
                invariant
                    j <= i,
                    i < self.nodes.len(),
                    names == node_names(self@.nodes),
                    address_fault is None,
                    repeat_from(names, 0) == repeat_from(names, i as int),
                    forall|k: int| 0 <= k < j ==> #[trigger] names[k] != names[i as int],
                decreases i - j,
            {
                if text::same(self.nodes[j].name.as_str(), self.nodes[i].name.as_str()) {
                    assert(names.take(i as int)[j as int] == names[i as int]);
                    return Err(
                        text::owned("duplicate node name ").concat(
                            text::quoted(self.nodes[i].name.as_str()).as_str(),
                        ),
                    );
                }
                j = j + 1;
            }
            assert(!names.take(i as int).contains(names[i as int]));
            i = i + 1;
        }
        let ghost pools = self@.pools;
        let ghost rungs = self@.federation.rungs;
        assert(pools.skip(0) =~= pools);
        let mut i: usize = 0;
        while i < self.pools.len()
            invariant
                i <= self.pools.len(),
                pools == self@.pools,
                rungs == self@.federation.rungs,
                names == node_names(self@.nodes),
                address_fault is None,
                repeat_from(names, 0) is None,
                stray_pool(pools, rungs) == stray_pool(pools.skip(i as int), rungs),
            decreases self.pools.len() - i,
        {
            let p: &PoolConfig = &self.pools[i];
            assert(pools.skip(i as int)[0] == p@);
            assert(pools.skip(i as int).drop_first() =~= pools.skip(i + 1));
            if !text::listed(self.federation.rungs.as_slice(), p.rung.as_str()) {
                return Err(
                    text::owned("pool ").concat(text::quoted(p.name.as_str()).as_str()).concat(
                        ": rung ",
                    ).concat(text::quoted(p.rung.as_str()).as_str()).concat(
                        " not in federation.rungs ",
                    ).concat(text::quoted_list(&self.federation.rungs).as_str()),
                );
            }
            i = i + 1;
        }
        if self.poll.interval_secs == 0 {
            return Err(text::owned("poll.interval_secs must be non-zero"));
        }
        Ok(())
    }

    /// The pool with this name.
    pub fn pool(&self, name: &str) -> (r: Option<&PoolConfig>)
        ensures
            r.deep_view() == pool_named(self@.pools, name@),
    {
        let ghost pools = self@.pools;
        assert(pools.skip(0) =~= pools);
        let mut i: usize = 0;
        while i < self.pools.len()
            invariant
                i <= self.pools.len(),
                pools == self@.pools,
                pool_named(pools, name@) == pool_named(pools.skip(i as int), name@),
            decreases self.pools.len() - i,
        {
            assert(pools.skip(i as int)[0] == self.pools[i as int]@);
            assert(pools.skip(i as int).drop_first() =~= pools.skip(i + 1));
            if text::same(self.pools[i].name.as_str(), name) {
                return Some(&self.pools[i]);
            }
            i = i + 1;
        }
        None
    }
}

} // verus!
