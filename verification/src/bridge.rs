//! The bridges a broker keeps to other brokers.
use crate::broker::{actions_view, ActionModel, BrokerAction};
use crate::topics::{names};
use vstd::prelude::*;

verus! {

/// A bridge to another broker: its client's id and the address it reaches.
pub struct BridgeEntry {
    pub id: String,
    pub target_address: String,
}

/// The broker's bridges, in the order they were opened.
pub struct BridgeRegistry {
    pub bridges: Vec<BridgeEntry>,
}

pub open spec fn bridge_ids(bridges: Seq<BridgeEntry>) -> Seq<Seq<char>> {
    bridges.map_values(|bridge: BridgeEntry| bridge.id@)
}

/// The bridges whose target is not `target`.
pub open spec fn kept_unless_target(bridges: Seq<BridgeEntry>, target: Seq<char>) -> Seq<BridgeEntry>
    decreases bridges.len(),
{
    if bridges.len() == 0 {
        Seq::empty()
    } else {
        let rest = kept_unless_target(bridges.drop_last(), target);
        if bridges.last().target_address@ == target {
            rest
        } else {
            rest.push(bridges.last())
        }
    }
}

/// One closing per bridge whose target is `target`, in bridge order.
pub open spec fn closings_for_target(bridges: Seq<BridgeEntry>, target: Seq<char>, notify_remote: bool) -> Seq<
    ActionModel,
>
    decreases bridges.len(),
{
    if bridges.len() == 0 {
        Seq::empty()
    } else {
        let rest = closings_for_target(bridges.drop_last(), target, notify_remote);
        if bridges.last().target_address@ == target {
            rest.push(ActionModel::CloseBridge { bridge: bridges.last().id@, notify_remote })
        } else {
            rest
        }
    }
}

/// The bridges whose id is not `id`.
pub open spec fn kept_unless_id(bridges: Seq<BridgeEntry>, id: Seq<char>) -> Seq<BridgeEntry>
    decreases bridges.len(),
{
    if bridges.len() == 0 {
        Seq::empty()
    } else {
        let rest = kept_unless_id(bridges.drop_last(), id);
        if bridges.last().id@ == id {
            rest
        } else {
            rest.push(bridges.last())
        }
    }
}

/// One local closing per bridge whose id is `id`.
pub open spec fn closings_for_id(bridges: Seq<BridgeEntry>, id: Seq<char>) -> Seq<ActionModel>
    decreases bridges.len(),
{
    if bridges.len() == 0 {
        Seq::empty()
    } else {
        let rest = closings_for_id(bridges.drop_last(), id);
        if bridges.last().id@ == id {
            rest.push(ActionModel::CloseBridge { bridge: bridges.last().id@, notify_remote: false })
        } else {
            rest
        }
    }
}

/// A bridge kept by a filter is one of the bridges it filtered.
pub proof fn lemma_kept_are_old(bridges: Seq<BridgeEntry>, target: Seq<char>)
    ensures
        forall|i: int|
            0 <= i < kept_unless_target(bridges, target).len() ==> bridges.contains(
                #[trigger] kept_unless_target(bridges, target)[i],
            ) && kept_unless_target(bridges, target)[i].target_address@ != target,
    decreases bridges.len(),
{
    if bridges.len() > 0 {
        let rest = bridges.drop_last();
        lemma_kept_are_old(rest, target);
        let kept = kept_unless_target(bridges, target);
        assert forall|i: int| 0 <= i < kept.len() implies bridges.contains(#[trigger] kept[i])
            && kept[i].target_address@ != target by {
            if i < kept_unless_target(rest, target).len() {
                let x = kept_unless_target(rest, target)[i];
                let k = choose|k: int| 0 <= k < rest.len() && rest[k] == x;
                assert(bridges[k] == x);
            } else {
                assert(bridges[bridges.len() - 1] == kept[i]);
            }
        }
    }
}

/// Closing by id keeps, in their order, exactly the bridges whose id is
/// another: none is lost, none with that id stays.
pub proof fn lemma_closing_by_id_keeps_the_others(bridges: Seq<BridgeEntry>, id: Seq<char>)
    ensures
        kept_unless_id(bridges, id) == bridges.filter(|bridge: BridgeEntry| bridge.id@ != id),
        forall|bridge: BridgeEntry|
            #[trigger] kept_unless_id(bridges, id).contains(bridge) <==> bridges.contains(bridge) && bridge.id@ != id,
    decreases bridges.len(),
{
    reveal(Seq::filter);
    let kept = kept_unless_id(bridges, id);
    if bridges.len() > 0 {
        let rest = bridges.drop_last();
        lemma_closing_by_id_keeps_the_others(rest, id);
        assert forall|bridge: BridgeEntry| #[trigger] kept.contains(bridge) <==> bridges.contains(bridge)
            && bridge.id@ != id by {
            let part = kept_unless_id(rest, id);
            assert(part.contains(bridge) <==> rest.contains(bridge) && bridge.id@ != id);
            if kept.contains(bridge) {
                let k = choose|k: int| 0 <= k < kept.len() && kept[k] == bridge;
                if k < part.len() {
                    assert(part[k] == bridge);
                    assert(part.contains(bridge));
                    let j = choose|j: int| 0 <= j < rest.len() && rest[j] == bridge;
                    assert(bridges[j] == bridge);
                } else {
                    assert(bridges[bridges.len() - 1] == bridge);
                }
            }
            if bridges.contains(bridge) && bridge.id@ != id {
                let j = choose|j: int| 0 <= j < bridges.len() && bridges[j] == bridge;
                if j < bridges.len() - 1 {
                    assert(rest[j] == bridge);
                    assert(rest.contains(bridge));
                    let k = choose|k: int| 0 <= k < part.len() && part[k] == bridge;
                    assert(kept[k] == bridge);
                } else {
                    assert(kept.last() == bridge);
                }
            }
        }
    }
}

/// Closing by address keeps, in their order, exactly the bridges that reach
/// another address.
pub proof fn lemma_closing_by_address_keeps_the_others(bridges: Seq<BridgeEntry>, target: Seq<char>)
    ensures
        kept_unless_target(bridges, target) == bridges.filter(
            |bridge: BridgeEntry| bridge.target_address@ != target,
        ),
        forall|bridge: BridgeEntry|
            #[trigger] kept_unless_target(bridges, target).contains(bridge) <==> bridges.contains(bridge)
                && bridge.target_address@ != target,
    decreases bridges.len(),
{
    reveal(Seq::filter);
    let kept = kept_unless_target(bridges, target);
    if bridges.len() > 0 {
        let rest = bridges.drop_last();
        lemma_closing_by_address_keeps_the_others(rest, target);
        assert forall|bridge: BridgeEntry| #[trigger] kept.contains(bridge) <==> bridges.contains(bridge)
            && bridge.target_address@ != target by {
            let part = kept_unless_target(rest, target);
            assert(part.contains(bridge) <==> rest.contains(bridge) && bridge.target_address@ != target);
            if kept.contains(bridge) {
                let k = choose|k: int| 0 <= k < kept.len() && kept[k] == bridge;
                if k < part.len() {
                    assert(part[k] == bridge);
                    assert(part.contains(bridge));
                    let j = choose|j: int| 0 <= j < rest.len() && rest[j] == bridge;
                    assert(bridges[j] == bridge);
                } else {
                    assert(bridges[bridges.len() - 1] == bridge);
                }
            }
            if bridges.contains(bridge) && bridge.target_address@ != target {
                let j = choose|j: int| 0 <= j < bridges.len() && bridges[j] == bridge;
                if j < bridges.len() - 1 {
                    assert(rest[j] == bridge);
                    assert(rest.contains(bridge));
                    let k = choose|k: int| 0 <= k < part.len() && part[k] == bridge;
                    assert(kept[k] == bridge);
                } else {
                    assert(kept.last() == bridge);
                }
            }
        }
    }
}

/// Closing by id closes each bridge it drops, locally and by that id: one
/// closing per bridge that leaves the registry.
pub proof fn lemma_closings_by_id_match_the_dropped(bridges: Seq<BridgeEntry>, id: Seq<char>)
    ensures
        closings_for_id(bridges, id).len() + kept_unless_id(bridges, id).len() == bridges.len(),
        forall|i: int|
            0 <= i < closings_for_id(bridges, id).len() ==> #[trigger] closings_for_id(bridges, id)[i]
                == (ActionModel::CloseBridge { bridge: id, notify_remote: false }),
    decreases bridges.len(),
{
    if bridges.len() > 0 {
        let rest = bridges.drop_last();
        lemma_closings_by_id_match_the_dropped(rest, id);
        let all = closings_for_id(bridges, id);
        let part = closings_for_id(rest, id);
        assert forall|i: int| 0 <= i < all.len() implies #[trigger] all[i] == (ActionModel::CloseBridge {
            bridge: id,
            notify_remote: false,
        }) by {
            if i < part.len() {
                assert(all[i] == part[i]);
            }
        }
    }
}

/// Closing by address closes each bridge it drops, with the asked
/// notification: one closing per bridge that leaves the registry, each
/// naming a bridge that reached that address.
pub proof fn lemma_closings_by_address_match_the_dropped(bridges: Seq<BridgeEntry>, target: Seq<char>, notify: bool)
    ensures
        closings_for_target(bridges, target, notify).len() + kept_unless_target(bridges, target).len()
            == bridges.len(),
        forall|i: int|
            0 <= i < closings_for_target(bridges, target, notify).len() ==> exists|j: int|
                0 <= j < bridges.len() && bridges[j].target_address@ == target && #[trigger] closings_for_target(
                    bridges,
                    target,
                    notify,
                )[i] == (ActionModel::CloseBridge { bridge: bridges[j].id@, notify_remote: notify }),
    decreases bridges.len(),
{
    if bridges.len() > 0 {
        let rest = bridges.drop_last();
        lemma_closings_by_address_match_the_dropped(rest, target, notify);
        let all = closings_for_target(bridges, target, notify);
        let part = closings_for_target(rest, target, notify);
        assert forall|i: int| 0 <= i < all.len() implies exists|j: int|
            0 <= j < bridges.len() && bridges[j].target_address@ == target && #[trigger] all[i]
                == (ActionModel::CloseBridge { bridge: bridges[j].id@, notify_remote: notify }) by {
            if i < part.len() {
                assert(all[i] == part[i]);
                let j = choose|j: int|
                    0 <= j < rest.len() && rest[j].target_address@ == target && #[trigger] part[i]
                        == (ActionModel::CloseBridge { bridge: rest[j].id@, notify_remote: notify });
                assert(bridges[j] == rest[j]);
            } else {
                assert(bridges[bridges.len() - 1] == bridges.last());
            }
        }
    }
}

/// The bridges report names each bridge once, in registry order, and nothing
/// else.
pub proof fn lemma_bridge_ids_list_every_bridge(bridges: Seq<BridgeEntry>)
    ensures
        bridge_ids(bridges).len() == bridges.len(),
        forall|i: int| 0 <= i < bridges.len() ==> #[trigger] bridge_ids(bridges)[i] == bridges[i].id@,
        forall|id: Seq<char>|
            #[trigger] bridge_ids(bridges).contains(id) <==> exists|i: int|
                0 <= i < bridges.len() && #[trigger] bridges[i].id@ == id,
{
    let ids = bridge_ids(bridges);
    assert forall|id: Seq<char>| #[trigger] ids.contains(id) <==> exists|i: int|
        0 <= i < bridges.len() && #[trigger] bridges[i].id@ == id by {
        if ids.contains(id) {
            let k = choose|k: int| 0 <= k < ids.len() && ids[k] == id;
            assert(bridges[k].id@ == id);
        }
        if exists|i: int| 0 <= i < bridges.len() && #[trigger] bridges[i].id@ == id {
            let k = choose|k: int| 0 <= k < bridges.len() && #[trigger] bridges[k].id@ == id;
            assert(ids[k] == id);
        }
    }
}

fn copy_entry(entry: &BridgeEntry) -> (copy: BridgeEntry)
    ensures
        copy == *entry,
{
    BridgeEntry { id: entry.id.clone(), target_address: entry.target_address.clone() }
}

impl BridgeRegistry {
    /// An empty registry.
    pub fn new() -> (registry: BridgeRegistry)
        ensures
            registry.bridges@.len() == 0,
    {
        BridgeRegistry { bridges: Vec::new() }
    }

    /// Adds a bridge after the others.
    pub fn insert(&mut self, bridge: BridgeEntry)
        ensures
            final(self).bridges@ == old(self).bridges@.push(bridge),
    {
        self.bridges.push(bridge);
    }

    /// The bridges' ids, in order.
    pub fn ids(&self) -> (ids: Vec<String>)
        ensures
            names(ids@) == bridge_ids(self.bridges@),
    {
        let mut ids: Vec<String> = Vec::new();
        let mut index: usize = 0;
        while index < self.bridges.len()
            invariant
                index <= self.bridges@.len(),
                ids@.len() == index,
                names(ids@) == bridge_ids(self.bridges@).take(index as int),
            decreases self.bridges@.len() - index,
        {
            let ghost before = ids@;
            ids.push(self.bridges[index].id.clone());
            index = index + 1;
            assert(names(ids@) =~= bridge_ids(self.bridges@).take(index as int)) by {
                assert forall|j: int| 0 <= j < index implies names(ids@)[j] == bridge_ids(self.bridges@).take(
                    index as int,
                )[j] by {
                    if j < index - 1 {
                        assert(ids@[j] == before[j]);
                    }
                }
            }
        }
        assert(bridge_ids(self.bridges@).take(self.bridges@.len() as int) =~= bridge_ids(self.bridges@));
        ids
    }

    /// Drops every bridge to `target_address`, telling the broker across it
    /// when `notify_remote` holds.
    pub fn close_by_address(&mut self, target_address: &String, notify_remote: bool) -> (actions: Vec<
        BrokerAction,
    >)
        ensures
            final(self).bridges@ == kept_unless_target(old(self).bridges@, target_address@),
            actions_view(actions@) == closings_for_target(old(self).bridges@, target_address@, notify_remote),
    {
        let mut kept: Vec<BridgeEntry> = Vec::new();
        let mut actions: Vec<BrokerAction> = Vec::new();
        let mut index: usize = 0;
        while index < self.bridges.len()
            invariant
                index <= self.bridges@.len(),
                kept@ == kept_unless_target(self.bridges@.take(index as int), target_address@),
                actions_view(actions@) == closings_for_target(
                    self.bridges@.take(index as int),
                    target_address@,
                    notify_remote,
                ),
            decreases self.bridges@.len() - index,
        {
            assert(self.bridges@.take(index as int + 1).drop_last() =~= self.bridges@.take(index as int));
            if self.bridges[index].target_address == *target_address {
                let ghost before = actions@;
                actions.push(BrokerAction::CloseBridge { bridge: self.bridges[index].id.clone(), notify_remote });
                assert(actions_view(actions@) =~= actions_view(before).push(actions@.last()@));
            } else {
                kept.push(copy_entry(&self.bridges[index]));
            }
            index = index + 1;
        }
        assert(self.bridges@.take(self.bridges@.len() as int) =~= self.bridges@);
        self.bridges = kept;
        actions
    }

    /// Drops the bridge whose id is `id`, locally.
    pub fn close_by_id(&mut self, id: &String) -> (actions: Vec<BrokerAction>)
        ensures
            final(self).bridges@ == kept_unless_id(old(self).bridges@, id@),
            actions_view(actions@) == closings_for_id(old(self).bridges@, id@),
    {
        let mut kept: Vec<BridgeEntry> = Vec::new();
        let mut actions: Vec<BrokerAction> = Vec::new();
        let mut index: usize = 0;
        while index < self.bridges.len()
            invariant
                index <= self.bridges@.len(),
                kept@ == kept_unless_id(self.bridges@.take(index as int), id@),
                actions_view(actions@) == closings_for_id(self.bridges@.take(index as int), id@),
            decreases self.bridges@.len() - index,
        {
            assert(self.bridges@.take(index as int + 1).drop_last() =~= self.bridges@.take(index as int));
            if self.bridges[index].id == *id {
                let ghost before = actions@;
                actions.push(BrokerAction::CloseBridge { bridge: self.bridges[index].id.clone(), notify_remote: false });
                assert(actions_view(actions@) =~= actions_view(before).push(actions@.last()@));
            } else {
                kept.push(copy_entry(&self.bridges[index]));
            }
            index = index + 1;
        }
        assert(self.bridges@.take(self.bridges@.len() as int) =~= self.bridges@);
        self.bridges = kept;
        actions
    }
}

} // verus!
