//! Labels, selectors, and what is wrong with a configuration.

use crate::config;
use crate::config::{ConfigView, NodeConfigView, PoolConfigView, SelectorView};
use crate::model::NodeView;
use crate::text;
use vstd::prelude::*;

verus! {

/// The label of a configured node: its own, or its name for the node and the
/// cluster.
pub open spec fn configured_label(node: NodeConfigView, key: Seq<char>) -> Option<Seq<char>> {
    if node.labels.contains_key(key) {
        Some(node.labels[key])
    } else if key == "node"@ || key == "cluster"@ {
        Some(node.name)
    } else {
        None
    }
}

/// A configured node has the labels it states, its name as node and cluster
/// where it does not state them, and no others.
pub proof fn configured_labels(node: NodeConfigView, key: Seq<char>)
    ensures
        node.effective_labels().contains_key(key) <==> configured_label(node, key) is Some,
        configured_label(node, key) matches Some(v) ==> node.effective_labels()[key] == v,
{
    config::effective_labels_complete(node);
}

/// A node in the registry has the labels it is configured with, then what its
/// engine reports, and no others.
pub proof fn node_labels(node: NodeView, key: Seq<char>)
    ensures
        ({
            let label = match configured_label(node.config, key) {
                Some(v) => Some(v),
                None => if node.status.engine_topology.contains_key(key) {
                    Some(node.status.engine_topology[key])
                } else {
                    None
                },
            };
            &&& node.labels().contains_key(key) <==> label is Some
            &&& label matches Some(v) ==> node.labels()[key] == v
        }),
{
    configured_labels(node.config, key);
}

/// Whether a selector takes a node.
pub open spec fn takes(s: SelectorView, node: NodeConfigView) -> bool {
    &&& s.tier is None || node.tier == s.tier
    &&& s.nodes.len() == 0 || s.nodes.contains(node.name)
    &&& forall|key: Seq<char>|
        s.labels.contains_key(key) ==> #[trigger] configured_label(node, key) == Some(s.labels[key])
}

/// A selector takes exactly the nodes that meet all of its conditions: the tier
/// where it states one, one of the names where it lists some, and each label
/// that it states.
pub proof fn selector_takes_what_meets_every_condition(s: SelectorView, node: NodeConfigView)
    ensures
        s.matches(node) == takes(s, node),
{
    if s.matches(node) {
        assert forall|key: Seq<char>|
            s.labels.contains_key(key) implies #[trigger] configured_label(node, key) == Some(
            s.labels[key],
        ) by {
            configured_labels(node, key);
        }
    }
    if takes(s, node) {
        assert forall|key: Seq<char>| #[trigger] s.labels.contains_key(
            key,
        ) implies node.effective_labels().contains_key(key) && node.effective_labels()[key]
            == s.labels[key] by {
            configured_labels(node, key);
            assert(configured_label(node, key) == Some(s.labels[key]));
        }
    }
}

/// Of pools with one name the first one counts.
pub proof fn first_pool_of_the_name_counts(pools: Seq<PoolConfigView>, name: Seq<char>, k: int)
    requires
        0 <= k <= pools.len(),
        k < pools.len() ==> pools[k].name == name,
        forall|j: int| 0 <= j < k ==> (#[trigger] pools[j]).name != name,
    ensures
        config::pool_named(pools, name) == if k < pools.len() {
            Some(pools[k])
        } else {
            None
        },
    decreases pools.len(),
{
    if pools.len() > 0 && k > 0 {
        let rest = pools.drop_first();
        assert(pools[0].name != name);
        assert forall|j: int| 0 <= j < k - 1 implies (#[trigger] rest[j]).name != name by {
            assert(pools[j + 1].name != name);
        }
        first_pool_of_the_name_counts(rest, name, k - 1);
    }
}

/// Of several faults, one in the address is told first, then the first node
/// whose name repeats that of an earlier one, then the first pool whose rung is
/// not among the rungs, and last that there is no time between polls.
pub proof fn faults_are_told_in_order(c: ConfigView, fault: Option<Seq<char>>, i: int, k: int)
    requires
        0 <= i <= c.nodes.len(),
        forall|a: int, b: int|
            0 <= a < b < i ==> (#[trigger] c.nodes[a]).name != (#[trigger] c.nodes[b]).name,
        i < c.nodes.len() ==> exists|a: int| 0 <= a < i && (#[trigger] c.nodes[a]).name
            == c.nodes[i].name,
        0 <= k <= c.pools.len(),
        forall|j: int|
            0 <= j < k ==> c.federation.rungs.contains((#[trigger] c.pools[j]).rung),
        k < c.pools.len() ==> !c.federation.rungs.contains(c.pools[k].rung),
    ensures
        c.fault(fault) == if fault is Some {
            Some("listen_addr "@ + text::quoted_text(c.listen_addr) + ": "@ + fault->0)
        } else if i < c.nodes.len() {
            Some("duplicate node name "@ + text::quoted_text(c.nodes[i].name))
        } else if k < c.pools.len() {
            Some(
                "pool "@ + text::quoted_text(c.pools[k].name) + ": rung "@ + text::quoted_text(
                    c.pools[k].rung,
                ) + " not in federation.rungs "@ + text::quoted_list_text(c.federation.rungs),
            )
        } else if c.poll.interval_secs == 0 {
            Some("poll.interval_secs must be non-zero"@)
        } else {
            None
        },
{
    let names = config::node_names(c.nodes);
    assert forall|b: int| 0 <= b < i implies !names.take(b).contains(#[trigger] names[b]) by {
        if names.take(b).contains(names[b]) {
            let a = names.take(b).index_of(names[b]);
            assert(c.nodes[a].name != c.nodes[b].name);
        }
    }
    if i < names.len() {
        let a = choose|a: int| 0 <= a < i && (#[trigger] c.nodes[a]).name == c.nodes[i].name;
        assert(names.take(i)[a] == names[i]);
        assert(names.take(i).contains(names[i]));
    }
    first_repeat(names, 0, i);
    first_stray(c.pools, c.federation.rungs, k);
}

proof fn first_repeat(names: Seq<Seq<char>>, from: int, i: int)
    requires
        0 <= from <= i <= names.len(),
        forall|b: int| from <= b < i ==> !names.take(b).contains(#[trigger] names[b]),
        i < names.len() ==> names.take(i).contains(names[i]),
    ensures
        config::repeat_from(names, from) == if i < names.len() {
            Some(i)
        } else {
            None
        },
    decreases i - from,
{
    if from < i {
        assert(!names.take(from).contains(names[from]));
        first_repeat(names, from + 1, i);
    }
}

proof fn first_stray(pools: Seq<PoolConfigView>, rungs: Seq<Seq<char>>, k: int)
    requires
        0 <= k <= pools.len(),
        forall|j: int| 0 <= j < k ==> rungs.contains((#[trigger] pools[j]).rung),
        k < pools.len() ==> !rungs.contains(pools[k].rung),
    ensures
        config::stray_pool(pools, rungs) == if k < pools.len() {
            Some(pools[k])
        } else {
            None
        },
    decreases pools.len(),
{
    if pools.len() > 0 && k > 0 {
        let rest = pools.drop_first();
        assert(rungs.contains(pools[0].rung));
        assert forall|j: int| 0 <= j < k - 1 implies rungs.contains((#[trigger] rest[j]).rung) by {
            assert(rungs.contains(pools[j + 1].rung));
        }
        first_stray(rest, rungs, k - 1);
    }
}

} // verus!
